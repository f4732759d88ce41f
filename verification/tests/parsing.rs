use yali::parser::{parse, parse_expr, Atom, Expr, PrintableList};
use yali::parser::error::ParserErr;
use yali::tokenizer::{tokenize, TokenType};
use yali::utils::expr_is_nil;

fn parse_text(src: &str) -> Result<Expr, ParserErr> {
    let mut tokens = tokenize(src);
    parse(&mut tokens)
}

fn pnum(n: i32) -> Expr {
    Expr::Atom(Box::new(Atom::Num(n)))
}

fn pnil() -> Expr {
    Expr::Atom(Box::new(Atom::Nil))
}

#[test]
fn tokenizer_orders_then_reverses() {
    let tokens = tokenize("(+ 1 2)");
    assert_eq!(tokens.len(), 5);
    // Reversed: the first token to pop (the last element) is the open paren.
    assert_eq!(tokens[4].ttype, TokenType::Opc);
    assert_eq!(tokens[3].value, "+");
    assert_eq!(tokens[2].value, "1");
    assert_eq!(tokens[1].value, "2");
    assert_eq!(tokens[0].ttype, TokenType::Clc);
}

#[test]
fn tokenizer_skips_whitespace_and_comments() {
    assert_eq!(tokenize("").len(), 0);
    assert_eq!(tokenize("   \t\n").len(), 0);
    assert_eq!(tokenize("; just a comment").len(), 0);
    let tokens = tokenize("; heading\n 42 ; trailing\n");
    assert_eq!(tokens.len(), 1);
    assert_eq!(tokens[0].value, "42");
    assert_eq!(tokens[0].ttype, TokenType::Other);
}

#[test]
fn tokenizer_takes_string_literals_whole() {
    let tokens = tokenize("\"a b (c)\"");
    assert_eq!(tokens.len(), 1);
    assert_eq!(tokens[0].ttype, TokenType::Str);
    assert_eq!(tokens[0].value, "\"a b (c)\"");
}

#[test]
fn tokenizer_single_character_tokens() {
    let tokens = tokenize("().',`");
    let kinds: Vec<TokenType> = tokens.iter().rev().map(|t| t.ttype).collect();
    assert_eq!(
        kinds,
        vec![
            TokenType::Opc,
            TokenType::Clc,
            TokenType::Assoc,
            TokenType::Quo,
            TokenType::Unquo,
            TokenType::Quasi,
        ]
    );
}

#[test]
fn parse_atoms() {
    assert_eq!(parse_text("42").unwrap(), pnum(42));
    assert_eq!(parse_text("-7").unwrap(), pnum(-7));
    assert_eq!(parse_text("+7").unwrap(), pnum(7));
    assert_eq!(parse_text("#t").unwrap(), Expr::Atom(Box::new(Atom::Bool(true))));
    assert_eq!(parse_text("#f").unwrap(), Expr::Atom(Box::new(Atom::Bool(false))));
    assert_eq!(
        parse_text("hello").unwrap(),
        Expr::Atom(Box::new(Atom::Symbol("hello".to_string())))
    );
    assert_eq!(
        parse_text("\"hi\"").unwrap(),
        Expr::Atom(Box::new(Atom::Str("\"hi\"".to_string())))
    );
}

#[test]
fn parse_extreme_numbers() {
    assert_eq!(parse_text("2147483647").unwrap(), pnum(i32::MAX));
    assert_eq!(parse_text("-2147483648").unwrap(), pnum(i32::MIN));
}

#[test]
fn malformed_numbers_are_parse_int_errors() {
    // Numeric-looking text must parse as an integer; it does not silently
    // fall through to a symbol.
    assert!(matches!(parse_text("2147483648"), Err(ParserErr::ParseInt)));
    assert!(matches!(parse_text("12ab"), Err(ParserErr::ParseInt)));
    assert!(matches!(parse_text("-12x"), Err(ParserErr::ParseInt)));
}

#[test]
fn sign_without_digit_is_a_symbol() {
    assert_eq!(parse_text("-").unwrap(), Expr::Atom(Box::new(Atom::Symbol("-".to_string()))));
    assert_eq!(
        parse_text("+more").unwrap(),
        Expr::Atom(Box::new(Atom::Symbol("+more".to_string())))
    );
}

#[test]
fn proper_list_gets_nil_terminator() {
    let e = parse_text("(1 2)").unwrap();
    assert_eq!(e, Expr::List(Box::new(vec![pnum(1), pnum(2), pnil()])));
}

#[test]
fn dotted_list_keeps_tail() {
    let e = parse_text("(1 2 . 3)").unwrap();
    assert_eq!(e, Expr::List(Box::new(vec![pnum(1), pnum(2), pnum(3)])));
}

#[test]
fn empty_list_collapses_to_nil() {
    assert!(expr_is_nil(&parse_text("()").unwrap()));
    assert!(expr_is_nil(&parse_text("").unwrap()));
}

#[test]
fn quote_quasiquote_unquote_wrap() {
    assert_eq!(parse_text("'1").unwrap(), Expr::Quote(Box::new(pnum(1))));
    assert_eq!(parse_text("`1").unwrap(), Expr::Quasiquote(Box::new(pnum(1))));
    assert_eq!(parse_text(",1").unwrap(), Expr::Unquote(Box::new(pnum(1))));
}

#[test]
fn missing_close_paren_is_unclosed_list() {
    // Distinguished from other parse errors so a read loop knows to keep
    // accumulating input.
    assert!(matches!(parse_text("(1 2"), Err(ParserErr::UnclosedList)));
    assert!(matches!(parse_text("(1 (2 3)"), Err(ParserErr::UnclosedList)));
}

#[test]
fn trailing_tokens_are_unexpected() {
    assert!(matches!(parse_text("1 2"), Err(ParserErr::UnexpectedToken(_))));
}

#[test]
fn dot_first_in_list_is_unexpected() {
    assert!(matches!(parse_text("(. 3)"), Err(ParserErr::UnexpectedToken(_))));
}

#[test]
fn stray_close_paren_is_unexpected() {
    assert!(matches!(parse_text(")"), Err(ParserErr::UnexpectedToken(_))));
}

#[test]
fn parse_expr_leaves_rest_of_tokens() {
    let mut tokens = tokenize("1 2");
    let first = parse_expr(&mut tokens).unwrap();
    assert_eq!(first, pnum(1));
    assert_eq!(tokens.len(), 1);
    assert_eq!(tokens[0].value, "2");
}

#[test]
fn render_atoms_exactly() {
    assert_eq!(parse_text("42").unwrap().render(), "42");
    assert_eq!(parse_text("-7").unwrap().render(), "-7");
    assert_eq!(parse_text("#t").unwrap().render(), "#t");
    assert_eq!(parse_text("#f").unwrap().render(), "#f");
    assert_eq!(parse_text("()").unwrap().render(), "()");
    assert_eq!(parse_text("abc").unwrap().render(), "abc");
    assert_eq!(parse_text("\"hi\"").unwrap().render(), "\"hi\"");
}

#[test]
fn render_extreme_numbers() {
    assert_eq!(parse_text("-2147483648").unwrap().render(), "-2147483648");
    assert_eq!(parse_text("2147483647").unwrap().render(), "2147483647");
}

#[test]
fn render_lists_exactly() {
    assert_eq!(parse_text("( 1   2 )").unwrap().render(), "(1 2)");
    assert_eq!(parse_text("(1 2 . 3)").unwrap().render(), "(1 2 . 3)");
    assert_eq!(parse_text("'(a (b . c))").unwrap().render(), "'(a (b . c))");
    assert_eq!(parse_text("`,x").unwrap().render(), "`,x");
}

#[test]
fn printable_list_renders_like_the_list() {
    if let Expr::List(l) = parse_text("(1 2)").unwrap() {
        assert_eq!(PrintableList(l).render(), "(1 2)");
    } else {
        panic!("expected a list");
    }
}

#[test]
fn unclosed_string_still_round_trips() {
    // An unclosed string literal runs to the end of the input and survives
    // rendering and reparsing unchanged.
    let once = parse_text("\"abc").unwrap();
    assert_eq!(once, Expr::Atom(Box::new(Atom::Str("\"abc".to_string()))));
    let again = parse_text(&once.render()).unwrap();
    assert_eq!(once, again);
}

#[test]
fn render_then_reparse_gives_equal_tree() {
    let cases = [
        "42",
        "-7",
        "#t",
        "#f",
        "()",
        "a-symbol",
        "\"a string\"",
        "(1 2)",
        "(1 2 . 3)",
        "(a (b c) . d)",
        "'(1 '2)",
        "`(1 ,x)",
        "((lambda (a) a) 1)",
    ];
    for src in cases {
        let once = parse_text(src).unwrap();
        let text = once.render();
        let again = parse_text(&text).unwrap();
        assert_eq!(once, again, "round trip failed for {}", src);
    }
}
