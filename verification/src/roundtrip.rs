//! The round-trip law: rendering a value and reading the text back yields
//! the same tree. It is stated and proved here for every atom — numbers
//! over the whole 32-bit range, booleans, nil, and symbol and string atoms
//! whose text the tokenizer can reproduce (which is every symbol and string
//! atom the parser itself produces).
use vstd::prelude::*;

use crate::display::{digit_char, render_atom, render_expr, render_int, render_nat};
use crate::parser::error::ParserErrV;
use crate::parser::{
    all_digits, digit_val, digits_val, is_digit, is_num_candidate, spec_parse, spec_parse_i32,
    AtomV, ExprV,
};
use crate::tokenizer::{
    find_char, is_run_end, is_single, is_ws, run_end_from, spec_tokenize, TokenType, TokenV,
};

verus! {

/// A digit character is exactly its digit value.
proof fn lemma_digit_char_val(d: int)
    requires
        0 <= d < 10,
    ensures
        is_digit(digit_char(d)),
        digit_val(digit_char(d)) == d,
{
}

/// A digit character is no delimiter of any kind, and no sign.
proof fn lemma_digit_not_delim(c: char)
    requires
        is_digit(c),
    ensures
        !is_run_end(c),
        !is_single(c),
        c != '"',
        c != ';',
        !is_ws(c),
        c != '+',
        c != '-',
{
}

/// The decimal rendering of a non-negative number is a non-empty digit run
/// denoting that very number.
proof fn lemma_render_nat_digits(n: int)
    requires
        n >= 0,
    ensures
        render_nat(n).len() >= 1,
        all_digits(render_nat(n)),
        digits_val(render_nat(n)) == n,
    decreases n,
{
    if n < 10 {
        let s = render_nat(n);
        lemma_digit_char_val(n);
        assert(s.drop_last() =~= Seq::<char>::empty());
        assert(digits_val(s) == digits_val(s.drop_last()) * 10 + digit_val(s.last()));
    } else {
        lemma_render_nat_digits(n / 10);
        let hd = render_nat(n / 10);
        let s = render_nat(n);
        lemma_digit_char_val(n % 10);
        assert(s =~= hd + seq![digit_char(n % 10)]);
        assert(s.drop_last() =~= hd);
        assert(s.last() == digit_char(n % 10));
        assert forall|i: int| 0 <= i < s.len() implies is_digit(#[trigger] s[i]) by {
            if i < hd.len() {
                assert(s[i] == hd[i]);
            }
        }
        vstd::arithmetic::div_mod::lemma_fundamental_div_mod(n, 10);
    }
}

/// Every position at or past `i` fails the run test, so the run reaches the
/// end of the text.
proof fn lemma_run_end_never(s: Seq<char>, i: int)
    requires
        0 <= i <= s.len(),
        forall|j: int| i <= j < s.len() ==> !is_run_end(#[trigger] s[j]),
    ensures
        run_end_from(s, i) == s.len(),
    decreases s.len() - i,
{
    if i < s.len() {
        lemma_run_end_never(s, i + 1);
    }
}

/// `c` first occurs at `j`, so that is where the scan lands.
proof fn lemma_find_char_exact(s: Seq<char>, i: int, j: int, c: char)
    requires
        0 <= i <= j < s.len(),
        s[j] == c,
        forall|m: int| i <= m < j ==> s[m] != c,
    ensures
        find_char(s, i, c) == j,
    decreases j - i,
{
    if i < j {
        lemma_find_char_exact(s, i + 1, j, c);
    }
}

/// Text that starts with an ordinary character and contains no run-ending
/// character tokenizes to exactly one plain token holding the whole text.
pub proof fn lemma_tokenize_bare(s: Seq<char>)
    requires
        s.len() > 0,
        !is_single(s[0]),
        s[0] != '"',
        forall|i: int| 0 <= i < s.len() ==> !is_run_end(#[trigger] s[i]),
    ensures
        spec_tokenize(s, 0) == seq![
            TokenV { value: s, start: 0, end: s.len() as int, ttype: TokenType::Other },
        ],
{
    assert(!is_ws(s[0]));
    assert(s[0] != ';');
    lemma_run_end_never(s, 1);
    assert(s.subrange(0, s.len() as int) =~= s);
    let t = TokenV { value: s, start: 0, end: s.len() as int, ttype: TokenType::Other };
    assert(spec_tokenize(s, s.len() as int) =~= Seq::<TokenV>::empty());
    assert(spec_tokenize(s, 0) =~= seq![t] + Seq::<TokenV>::empty());
    assert(seq![t] + Seq::<TokenV>::empty() =~= seq![t]);
}

/// A quote-delimited text with no inner quote tokenizes to exactly one
/// string token holding the whole text.
pub proof fn lemma_tokenize_string(s: Seq<char>)
    requires
        s.len() >= 2,
        s[0] == '"',
        s[s.len() - 1] == '"',
        forall|i: int| 1 <= i < s.len() - 1 ==> s[i] != '"',
    ensures
        spec_tokenize(s, 0) == seq![
            TokenV { value: s, start: 0, end: s.len() as int, ttype: TokenType::Str },
        ],
{
    lemma_find_char_exact(s, 1, s.len() - 1, '"');
    assert(s.subrange(0, s.len() as int) =~= s);
    let t = TokenV { value: s, start: 0, end: s.len() as int, ttype: TokenType::Str };
    assert(spec_tokenize(s, s.len() as int) =~= Seq::<TokenV>::empty());
    assert(spec_tokenize(s, 0) =~= seq![t] + Seq::<TokenV>::empty());
    assert(seq![t] + Seq::<TokenV>::empty() =~= seq![t]);
}

/// Parsing back the decimal rendering of a 32-bit number gives that very
/// number.
pub proof fn lemma_parse_i32_render(n: i32)
    ensures
        is_num_candidate(render_int(n as int)),
        spec_parse_i32(render_int(n as int)) == Some(n),
{
    if n >= 0 {
        let s = render_nat(n as int);
        lemma_render_nat_digits(n as int);
        assert(is_digit(s[0]));
        lemma_digit_not_delim(s[0]);
    } else {
        let body = render_nat(-(n as int));
        lemma_render_nat_digits(-(n as int));
        let s = render_int(n as int);
        assert(s =~= seq!['-'] + body);
        assert(s.skip(1) =~= body);
        assert(is_digit(s[1])) by {
            assert(s[1] == body[0]);
        }
        assert(s[0] == '-');
    }
}

/// The rendering of a number is one bare token.
proof fn lemma_render_int_bare(n: i32)
    ensures
        render_int(n as int).len() > 0,
        !is_single(render_int(n as int)[0]),
        render_int(n as int)[0] != '"',
        forall|i: int|
            0 <= i < render_int(n as int).len() ==> !is_run_end(#[trigger] render_int(n as int)[i]),
{
    if n >= 0 {
        lemma_render_nat_digits(n as int);
        let s = render_int(n as int);
        assert forall|i: int| 0 <= i < s.len() implies !is_run_end(#[trigger] s[i]) by {
            lemma_digit_not_delim(s[i]);
        }
        lemma_digit_not_delim(s[0]);
    } else {
        let body = render_nat(-(n as int));
        lemma_render_nat_digits(-(n as int));
        let s = render_int(n as int);
        assert(s =~= seq!['-'] + body);
        assert forall|i: int| 0 <= i < s.len() implies !is_run_end(#[trigger] s[i]) by {
            if i > 0 {
                assert(s[i] == body[i - 1]);
                lemma_digit_not_delim(body[i - 1]);
            }
        }
    }
}

/// The conditions under which an atom's rendered text reads back as the
/// same atom. Numbers, booleans and nil always do. A symbol must be text
/// the tokenizer keeps whole (non-empty, holding no whitespace or
/// delimiter) that does not itself read as a number, a boolean, or a
/// string; a string must be quote-delimited with no inner quote. Every
/// symbol and string atom the parser produces satisfies this. A native
/// procedure has no written form, so it is excluded.
pub open spec fn atom_renders_faithfully(a: AtomV) -> bool {
    match a {
        AtomV::Num(_) => true,
        AtomV::Bool(_) => true,
        AtomV::Nil => true,
        AtomV::Symbol(s) => {
            &&& s.len() > 0
            &&& !is_single(s[0])
            &&& s[0] != '"'
            &&& (forall|i: int| 0 <= i < s.len() ==> !is_run_end(#[trigger] s[i]))
            &&& !is_num_candidate(s)
            &&& s != "#t"@
            &&& s != "#f"@
        },
        AtomV::Str(s) => {
            &&& s.len() >= 2
            &&& s[0] == '"'
            &&& s[s.len() - 1] == '"'
            &&& (forall|i: int| 1 <= i < s.len() - 1 ==> s[i] != '"')
        },
        AtomV::Native(_) => false,
    }
}

/// The round-trip law for atoms: rendering an atom and parsing the text
/// back yields exactly that atom, with no tokens left over.
pub proof fn lemma_atom_render_reparse(a: AtomV)
    requires
        atom_renders_faithfully(a),
    ensures
        spec_parse(spec_tokenize(render_atom(a), 0).reverse()) == (
            Ok::<ExprV, ParserErrV>(ExprV::Atom(a)),
            Seq::<TokenV>::empty(),
        ),
{
    reveal_strlit("#t");
    reveal_strlit("#f");
    match a {
        AtomV::Num(n) => {
            let s = render_int(n as int);
            lemma_render_int_bare(n);
            lemma_tokenize_bare(s);
            lemma_parse_i32_render(n);
            let t = TokenV { value: s, start: 0, end: s.len() as int, ttype: TokenType::Other };
            lemma_reverse_single(t);
            lemma_parse_one_atom(t, a);
        },
        AtomV::Bool(b) => {
            let s = render_atom(a);
            assert forall|i: int| 0 <= i < s.len() implies !is_run_end(#[trigger] s[i]) by {}
            lemma_tokenize_bare(s);
            let t = TokenV { value: s, start: 0, end: s.len() as int, ttype: TokenType::Other };
            lemma_reverse_single(t);
            assert(!is_num_candidate(s));
            if b {
                assert(s =~= "#t"@);
            } else {
                assert(s =~= "#f"@);
                assert(s != "#t"@) by {
                    assert(s[1] == 'f');
                    assert(("#t"@)[1] == 't');
                }
            }
            lemma_parse_one_atom(t, a);
        },
        AtomV::Symbol(_) => {
            let s = render_atom(a);
            lemma_tokenize_bare(s);
            let t = TokenV { value: s, start: 0, end: s.len() as int, ttype: TokenType::Other };
            lemma_reverse_single(t);
            lemma_parse_one_atom(t, a);
        },
        AtomV::Str(_) => {
            let s = render_atom(a);
            lemma_tokenize_string(s);
            let t = TokenV { value: s, start: 0, end: s.len() as int, ttype: TokenType::Str };
            lemma_reverse_single(t);
            lemma_parse_one_atom(t, a);
        },
        AtomV::Nil => {
            lemma_nil_render_reparse();
        },
        AtomV::Native(_) => {},
    }
}

/// Reversing a one-token stack changes nothing.
proof fn lemma_reverse_single(t: TokenV)
    ensures
        seq![t].reverse() =~= seq![t],
{
}

/// One string or plain token parses as the atom it denotes, consuming the
/// whole stack.
proof fn lemma_parse_one_atom(t: TokenV, a: AtomV)
    requires
        t.ttype == TokenType::Str || t.ttype == TokenType::Other,
        crate::parser::spec_parse_atom(t) == Ok::<AtomV, ParserErrV>(a),
    ensures
        spec_parse(seq![t]) == (Ok::<ExprV, ParserErrV>(ExprV::Atom(a)), Seq::<TokenV>::empty()),
{
    let ts = seq![t];
    assert(ts.last() == t);
    assert(ts.drop_last() =~= Seq::<TokenV>::empty());
}

/// Nil renders as `()`, which tokenizes to a parenthesis pair and parses
/// back to nil: a list of no elements is equivalent to nil.
proof fn lemma_nil_render_reparse()
    ensures
        spec_parse(spec_tokenize(seq!['(', ')'], 0).reverse()) == (
            Ok::<ExprV, ParserErrV>(ExprV::Atom(AtomV::Nil)),
            Seq::<TokenV>::empty(),
        ),
{
    let s = seq!['(', ')'];
    let topen = TokenV { value: seq!['('], start: 0, end: 1, ttype: TokenType::Opc };
    let tclose = TokenV { value: seq![')'], start: 1, end: 2, ttype: TokenType::Clc };
    assert(s.subrange(0, 1) =~= seq!['(']);
    assert(s.subrange(1, 2) =~= seq![')']);
    assert(spec_tokenize(s, 2) =~= Seq::<TokenV>::empty());
    assert(spec_tokenize(s, 1) =~= seq![tclose] + Seq::<TokenV>::empty());
    assert(spec_tokenize(s, 1) =~= seq![tclose]);
    assert(spec_tokenize(s, 0) =~= seq![topen] + spec_tokenize(s, 1));
    let toks = seq![topen, tclose];
    assert(spec_tokenize(s, 0) =~= toks);
    let stack = toks.reverse();
    assert(stack =~= seq![tclose, topen]);
    assert(stack.last() == topen);
    assert(stack.drop_last() =~= seq![tclose]);
    let inner = seq![tclose];
    assert(inner.last() == tclose);
    assert(inner.drop_last() =~= Seq::<TokenV>::empty());
    let items = crate::parser::spec_parse_list_items(inner, Seq::<ExprV>::empty());
    assert(items == (
        Ok::<Seq<ExprV>, ParserErrV>(seq![ExprV::Atom(AtomV::Nil)]),
        Seq::<TokenV>::empty(),
    )) by {
        assert(Seq::<ExprV>::empty().push(crate::parser::nil_expr_v()) =~= seq![
            ExprV::Atom(AtomV::Nil),
        ]);
    }
    assert(crate::parser::spec_parse_list(stack) == (
        Ok::<Seq<ExprV>, ParserErrV>(seq![ExprV::Atom(AtomV::Nil)]),
        Seq::<TokenV>::empty(),
    ));
    assert(seq![ExprV::Atom(AtomV::Nil)].len() == 1);
    assert(crate::parser::spec_parse_expr(stack) == (
        Ok::<ExprV, ParserErrV>(ExprV::Atom(AtomV::Nil)),
        Seq::<TokenV>::empty(),
    ));
}

/// The one-character tokens, as the parser sees them. The parser reads a
/// token's text and kind only, never its source positions, so the spelling
/// carries none.
pub open spec fn opc_tok() -> TokenV {
    TokenV { value: seq!['('], start: 0, end: 0, ttype: TokenType::Opc }
}

pub open spec fn clc_tok() -> TokenV {
    TokenV { value: seq![')'], start: 0, end: 0, ttype: TokenType::Clc }
}

pub open spec fn assoc_tok() -> TokenV {
    TokenV { value: seq!['.'], start: 0, end: 0, ttype: TokenType::Assoc }
}

pub open spec fn quo_tok() -> TokenV {
    TokenV { value: seq!['\''], start: 0, end: 0, ttype: TokenType::Quo }
}

pub open spec fn quasi_tok() -> TokenV {
    TokenV { value: seq!['`'], start: 0, end: 0, ttype: TokenType::Quasi }
}

pub open spec fn unquo_tok() -> TokenV {
    TokenV { value: seq![','], start: 0, end: 0, ttype: TokenType::Unquo }
}

/// The one token that spells an atom other than nil.
pub open spec fn atom_tok(a: AtomV) -> TokenV {
    TokenV {
        value: render_atom(a),
        start: 0,
        end: 0,
        ttype: if a is Str {
            TokenType::Str
        } else {
            TokenType::Other
        },
    }
}

/// The token spelling of an expression, in source order: how the rendered
/// text of the expression reads as tokens.
pub open spec fn expr_tokens(e: ExprV) -> Seq<TokenV>
    decreases e, 1int,
{
    match e {
        ExprV::Atom(a) => if a is Nil {
            seq![opc_tok(), clc_tok()]
        } else {
            seq![atom_tok(a)]
        },
        ExprV::List(l) => if l.len() == 0 {
            seq![opc_tok(), clc_tok()]
        } else {
            seq![opc_tok()] + tail_tokens(l)
        },
        ExprV::Quote(q) => seq![quo_tok()] + expr_tokens(*q),
        ExprV::Quasiquote(q) => seq![quasi_tok()] + expr_tokens(*q),
        ExprV::Unquote(q) => seq![unquo_tok()] + expr_tokens(*q),
        ExprV::Lambda(_) => Seq::empty(),
    }
}

/// The token spelling of a list body after the open parenthesis: the
/// elements, then the closing parenthesis, with a dot before a non-nil
/// terminator.
pub open spec fn tail_tokens(l: Seq<ExprV>) -> Seq<TokenV>
    decreases l, 0int,
{
    if l.len() == 0 {
        seq![clc_tok()]
    } else if l.len() == 1 {
        if l[0] == ExprV::Atom(AtomV::Nil) {
            seq![clc_tok()]
        } else {
            seq![assoc_tok()] + expr_tokens(l[0]) + seq![clc_tok()]
        }
    } else {
        expr_tokens(l[0]) + tail_tokens(l.skip(1))
    }
}

/// Whether every list element before the terminator reparses.
pub open spec fn items_reparse(l: Seq<ExprV>) -> bool
    decreases l, 0int,
{
    if l.len() <= 1 {
        true
    } else {
        reparses(l[0]) && items_reparse(l.skip(1))
    }
}

/// The trees the parser can produce: atoms that render faithfully, and
/// lists of at least two entries (at least one element and the terminator)
/// whose entries all reparse. Lambdas and native procedures are values, not
/// syntax, and have no written form.
pub open spec fn reparses(e: ExprV) -> bool
    decreases e, 1int,
{
    match e {
        ExprV::Atom(a) => atom_renders_faithfully(a),
        ExprV::List(l) => {
            &&& l.len() >= 2
            &&& items_reparse(l)
            &&& (l.last() == ExprV::Atom(AtomV::Nil) || reparses(l.last()))
        },
        ExprV::Quote(q) => reparses(*q),
        ExprV::Quasiquote(q) => reparses(*q),
        ExprV::Unquote(q) => reparses(*q),
        ExprV::Lambda(_) => false,
    }
}

/// The one token of a non-nil faithful atom reads back as that atom.
proof fn lemma_atom_tok_parses(a: AtomV)
    requires
        atom_renders_faithfully(a),
        !(a is Nil),
    ensures
        crate::parser::spec_parse_atom(atom_tok(a)) == Ok::<AtomV, ParserErrV>(a),
{
    reveal_strlit("#t");
    reveal_strlit("#f");
    match a {
        AtomV::Num(n) => {
            lemma_parse_i32_render(n);
        },
        AtomV::Bool(b) => {
            let s = render_atom(a);
            assert(!is_num_candidate(s));
            if b {
                assert(s =~= "#t"@);
            } else {
                assert(s =~= "#f"@);
                assert(s != "#t"@) by {
                    assert(s[1] == 'f');
                    assert(("#t"@)[1] == 't');
                }
            }
        },
        _ => {},
    }
}

/// The parser inverts the token spelling of a tree: parsing the spelling of
/// any tree it can produce, laid on top of any stack remainder, yields
/// exactly that tree and leaves the remainder untouched.
pub proof fn lemma_parse_inverts_tokens(e: ExprV, rest: Seq<TokenV>)
    requires
        reparses(e),
    ensures
        crate::parser::spec_parse_expr(rest + expr_tokens(e).reverse()) == (
            Ok::<ExprV, ParserErrV>(e),
            rest,
        ),
    decreases e, 1int, 0int,
{
    let toks = expr_tokens(e);
    let stack = rest + toks.reverse();
    match e {
        ExprV::Atom(a) => {
            if a is Nil {
                assert(stack =~= rest + seq![clc_tok(), opc_tok()]);
                assert(stack.len() > 0);
                assert(stack.last() == opc_tok());
                assert(stack.drop_last() =~= rest + seq![clc_tok()]);
                let inner = rest + seq![clc_tok()];
                assert(inner.last() == clc_tok());
                assert(inner.drop_last() =~= rest);
                let nils = Seq::<ExprV>::empty().push(crate::parser::nil_expr_v());
                assert(crate::parser::spec_parse_list_items(inner, Seq::<ExprV>::empty()) == (
                    Ok::<Seq<ExprV>, ParserErrV>(nils),
                    rest,
                ));
                assert(crate::parser::spec_parse_list(stack) == (
                    Ok::<Seq<ExprV>, ParserErrV>(nils),
                    rest,
                ));
                assert(nils.len() == 1);
            } else {
                assert(stack =~= rest.push(atom_tok(a)));
                assert(stack.last() == atom_tok(a));
                assert(stack.drop_last() =~= rest);
                lemma_atom_tok_parses(a);
            }
        },
        ExprV::List(l) => {
            assert(toks == seq![opc_tok()] + tail_tokens(l));
            assert(stack =~= (rest + tail_tokens(l).reverse()).push(opc_tok()));
            assert(stack.last() == opc_tok());
            assert(stack.drop_last() =~= rest + tail_tokens(l).reverse());
            lemma_parse_items_inverts(l, rest, Seq::<ExprV>::empty());
            assert(Seq::<ExprV>::empty() + l =~= l);
            assert(crate::parser::spec_parse_list(stack) == (
                Ok::<Seq<ExprV>, ParserErrV>(l),
                rest,
            ));
            assert(l.len() >= 2);
        },
        ExprV::Quote(q) => {
            assert(stack =~= (rest + expr_tokens(*q).reverse()).push(quo_tok()));
            assert(stack.last() == quo_tok());
            assert(stack.drop_last() =~= rest + expr_tokens(*q).reverse());
            lemma_parse_inverts_tokens(*q, rest);
        },
        ExprV::Quasiquote(q) => {
            assert(stack =~= (rest + expr_tokens(*q).reverse()).push(quasi_tok()));
            assert(stack.last() == quasi_tok());
            assert(stack.drop_last() =~= rest + expr_tokens(*q).reverse());
            lemma_parse_inverts_tokens(*q, rest);
        },
        ExprV::Unquote(q) => {
            assert(stack =~= (rest + expr_tokens(*q).reverse()).push(unquo_tok()));
            assert(stack.last() == unquo_tok());
            assert(stack.drop_last() =~= rest + expr_tokens(*q).reverse());
            lemma_parse_inverts_tokens(*q, rest);
        },
        ExprV::Lambda(_) => {},
    }
}

/// The element loop of the parser inverts the spelling of a list body: it
/// collects exactly the list's entries onto what it already gathered.
proof fn lemma_parse_items_inverts(l: Seq<ExprV>, rest: Seq<TokenV>, acc: Seq<ExprV>)
    requires
        l.len() >= 1,
        items_reparse(l),
        l.last() == ExprV::Atom(AtomV::Nil) || reparses(l.last()),
        l.last() != ExprV::Atom(AtomV::Nil) ==> acc.len() + l.len() >= 2,
    ensures
        crate::parser::spec_parse_list_items(rest + tail_tokens(l).reverse(), acc) == (
            Ok::<Seq<ExprV>, ParserErrV>(acc + l),
            rest,
        ),
    decreases l, 0int, 0int,
{
    let stack = rest + tail_tokens(l).reverse();
    if l.len() == 1 {
        if l[0] == ExprV::Atom(AtomV::Nil) {
            assert(stack =~= rest.push(clc_tok()));
            assert(stack.last() == clc_tok());
            assert(stack.drop_last() =~= rest);
            assert(acc.push(crate::parser::nil_expr_v()) =~= acc + l);
        } else {
            let tl = l[0];
            assert(tail_tokens(l) == seq![assoc_tok()] + expr_tokens(tl) + seq![clc_tok()]);
            assert(stack =~= ((rest.push(clc_tok())) + expr_tokens(tl).reverse()).push(
                assoc_tok(),
            ));
            assert(stack.last() == assoc_tok());
            assert(acc.len() > 0);
            assert(stack.drop_last() =~= (rest.push(clc_tok())) + expr_tokens(tl).reverse());
            lemma_parse_inverts_tokens(tl, rest.push(clc_tok()));
            let mid = rest.push(clc_tok());
            assert(mid.last() == clc_tok());
            assert(mid.drop_last() =~= rest);
            assert(crate::parser::spec_parse_cdr(stack) == (Ok::<ExprV, ParserErrV>(tl), rest));
            assert(acc.push(tl) =~= acc + l);
        }
    } else {
        let hd = l[0];
        let tl = l.skip(1);
        assert(reparses(hd));
        assert(tail_tokens(l) == expr_tokens(hd) + tail_tokens(tl));
        assert(stack =~= (rest + tail_tokens(tl).reverse()) + expr_tokens(hd).reverse());
        lemma_parse_inverts_tokens(hd, rest + tail_tokens(tl).reverse());
        // The head's spelling is never empty and never starts with a dot or
        // a close parenthesis, so the loop takes its element branch.
        lemma_expr_tokens_head(hd);
        assert(stack.len() > 0);
        assert(stack.last() == expr_tokens(hd)[0]);
        lemma_parse_expr_len_drop(hd, rest + tail_tokens(tl).reverse());
        assert(tl.last() == l.last());
        assert(tl.len() >= 1);
        lemma_parse_items_inverts(tl, rest, acc.push(hd));
        assert(acc.push(hd) + tl =~= acc + l);
    }
}

/// The first token of a reparsing tree's spelling: never a dot, never a
/// close parenthesis, and the spelling is never empty.
proof fn lemma_expr_tokens_head(e: ExprV)
    requires
        reparses(e),
    ensures
        expr_tokens(e).len() >= 1,
        expr_tokens(e)[0].ttype != TokenType::Assoc,
        expr_tokens(e)[0].ttype != TokenType::Clc,
    decreases e,
{
}

/// Parsing one spelled tree consumes exactly its spelling off the stack.
proof fn lemma_parse_expr_len_drop(e: ExprV, rest: Seq<TokenV>)
    requires
        reparses(e),
    ensures
        crate::parser::spec_parse_expr(rest + expr_tokens(e).reverse()).1.len() < (rest
            + expr_tokens(e).reverse()).len(),
    decreases e, 2int, 0int,
{
    lemma_parse_inverts_tokens(e, rest);
    lemma_expr_tokens_head(e);
}

/// The round-trip law at the token level: the token spelling of any tree
/// the parser can produce parses back to exactly that tree, consuming every
/// token.
pub proof fn lemma_tokens_reparse(e: ExprV)
    requires
        reparses(e),
    ensures
        spec_parse(expr_tokens(e).reverse()) == (
            Ok::<ExprV, ParserErrV>(e),
            Seq::<TokenV>::empty(),
        ),
{
    lemma_parse_inverts_tokens(e, Seq::<TokenV>::empty());
    assert(Seq::<TokenV>::empty() + expr_tokens(e).reverse() =~= expr_tokens(e).reverse());
}

/// Two tokens that read the same: same text, same kind. Source positions
/// play no part in parsing.
pub open spec fn similar_tok(a: TokenV, b: TokenV) -> bool {
    a.value == b.value && a.ttype == b.ttype
}

/// Two token stacks that read the same, token for token.
pub open spec fn similar_toks(a: Seq<TokenV>, b: Seq<TokenV>) -> bool {
    a.len() == b.len() && forall|i: int| 0 <= i < a.len() ==> similar_tok(#[trigger] a[i], b[i])
}

/// The parser reads only each token's text and kind: on stacks that read
/// the same it produces the same tree (or fails the same way), and leaves
/// stacks that read the same.
pub proof fn lemma_parse_expr_reads_text_only(a: Seq<TokenV>, b: Seq<TokenV>)
    requires
        similar_toks(a, b),
    ensures
        ({
            let (ra, resta) = crate::parser::spec_parse_expr(a);
            let (rb, restb) = crate::parser::spec_parse_expr(b);
            &&& similar_toks(resta, restb)
            &&& match (ra, rb) {
                (Ok(x), Ok(y)) => x == y,
                (Err(_), Err(_)) => true,
                _ => false,
            }
        }),
    decreases a.len(), 1int,
{
    if a.len() > 0 {
        assert(similar_tok(a.last(), b.last()));
        let t = a.last();
        if t.ttype == TokenType::Opc {
            lemma_parse_list_reads_text_only(a, b);
        } else if t.ttype == TokenType::Quo || t.ttype == TokenType::Unquo || t.ttype
            == TokenType::Quasi {
            assert(similar_toks(a.drop_last(), b.drop_last())) by {
                assert(forall|i: int|
                    0 <= i < a.len() - 1 ==> similar_tok(#[trigger] a.drop_last()[i], b.drop_last()[i]));
            }
            lemma_parse_expr_reads_text_only(a.drop_last(), b.drop_last());
        } else {
            assert(similar_toks(a.drop_last(), b.drop_last())) by {
                assert(forall|i: int|
                    0 <= i < a.len() - 1 ==> similar_tok(#[trigger] a.drop_last()[i], b.drop_last()[i]));
            }
        }
    }
}

proof fn lemma_parse_list_reads_text_only(a: Seq<TokenV>, b: Seq<TokenV>)
    requires
        similar_toks(a, b),
    ensures
        ({
            let (ra, resta) = crate::parser::spec_parse_list(a);
            let (rb, restb) = crate::parser::spec_parse_list(b);
            &&& similar_toks(resta, restb)
            &&& match (ra, rb) {
                (Ok(x), Ok(y)) => x == y,
                (Err(_), Err(_)) => true,
                _ => false,
            }
        }),
    decreases a.len(), 0int,
{
    if a.len() > 0 {
        assert(similar_tok(a.last(), b.last()));
        assert(similar_toks(a.drop_last(), b.drop_last())) by {
            assert(forall|i: int|
                0 <= i < a.len() - 1 ==> similar_tok(#[trigger] a.drop_last()[i], b.drop_last()[i]));
        }
        if a.last().ttype == TokenType::Opc {
            lemma_parse_items_reads_text_only(a.drop_last(), b.drop_last(), Seq::empty());
        }
    }
}

proof fn lemma_parse_items_reads_text_only(a: Seq<TokenV>, b: Seq<TokenV>, acc: Seq<ExprV>)
    requires
        similar_toks(a, b),
    ensures
        ({
            let (ra, resta) = crate::parser::spec_parse_list_items(a, acc);
            let (rb, restb) = crate::parser::spec_parse_list_items(b, acc);
            &&& similar_toks(resta, restb)
            &&& match (ra, rb) {
                (Ok(x), Ok(y)) => x == y,
                (Err(_), Err(_)) => true,
                _ => false,
            }
        }),
    decreases a.len(), 2int,
{
    if a.len() > 0 {
        assert(similar_tok(a.last(), b.last()));
        let t = a.last();
        if t.ttype == TokenType::Assoc {
            if acc.len() > 0 {
                lemma_parse_cdr_reads_text_only(a, b);
            }
        } else if t.ttype == TokenType::Clc {
        } else {
            lemma_parse_expr_reads_text_only(a, b);
            let (ra, resta) = crate::parser::spec_parse_expr(a);
            let (rb, restb) = crate::parser::spec_parse_expr(b);
            crate::parser::lemma_parse_expr_len(a);
            crate::parser::lemma_parse_expr_len(b);
            if ra is Ok && resta.len() < a.len() {
                lemma_parse_items_reads_text_only(resta, restb, acc.push(ra->Ok_0));
            }
        }
    }
}

proof fn lemma_parse_cdr_reads_text_only(a: Seq<TokenV>, b: Seq<TokenV>)
    requires
        similar_toks(a, b),
    ensures
        ({
            let (ra, resta) = crate::parser::spec_parse_cdr(a);
            let (rb, restb) = crate::parser::spec_parse_cdr(b);
            &&& similar_toks(resta, restb)
            &&& match (ra, rb) {
                (Ok(x), Ok(y)) => x == y,
                (Err(_), Err(_)) => true,
                _ => false,
            }
        }),
    decreases a.len(), 0int,
{
    if a.len() > 0 {
        assert(similar_tok(a.last(), b.last()));
        assert(similar_toks(a.drop_last(), b.drop_last())) by {
            assert(forall|i: int|
                0 <= i < a.len() - 1 ==> similar_tok(#[trigger] a.drop_last()[i], b.drop_last()[i]));
        }
        if a.last().ttype == TokenType::Assoc {
            lemma_parse_expr_reads_text_only(a.drop_last(), b.drop_last());
            let (ra, resta) = crate::parser::spec_parse_expr(a.drop_last());
            let (rb, restb) = crate::parser::spec_parse_expr(b.drop_last());
            if ra is Ok && resta.len() > 0 {
                assert(similar_tok(resta.last(), restb.last()));
                assert(similar_toks(resta.drop_last(), restb.drop_last())) by {
                    assert(forall|i: int|
                        0 <= i < resta.len() - 1 ==> similar_tok(
                            #[trigger] resta.drop_last()[i],
                            restb.drop_last()[i],
                        ));
                }
            }
        }
    }
}

/// A token stack that begins by reading as `spell` and continues as `rest`.
pub open spec fn sim_split(ts: Seq<TokenV>, spell: Seq<TokenV>, rest: Seq<TokenV>) -> bool {
    &&& ts.len() == spell.len() + rest.len()
    &&& similar_toks(ts.take(spell.len() as int), spell)
    &&& ts.skip(spell.len() as int) == rest
}

proof fn lemma_sim_split_concat(
    ts: Seq<TokenV>,
    s1: Seq<TokenV>,
    mid: Seq<TokenV>,
    s2: Seq<TokenV>,
    rest: Seq<TokenV>,
)
    requires
        sim_split(ts, s1, mid),
        sim_split(mid, s2, rest),
    ensures
        sim_split(ts, s1 + s2, rest),
{
    let n1 = s1.len() as int;
    let n2 = s2.len() as int;
    assert forall|i: int| 0 <= i < n1 + n2 implies similar_tok(
        #[trigger] ts.take(n1 + n2)[i],
        (s1 + s2)[i],
    ) by {
        if i < n1 {
            assert(ts.take(n1)[i] == ts[i]);
            assert(similar_tok(ts.take(n1)[i], s1[i]));
        } else {
            assert(ts.skip(n1)[i - n1] == ts[i]);
            assert(mid.take(n2)[i - n1] == mid[i - n1]);
            assert(similar_tok(mid.take(n2)[i - n1], s2[i - n1]));
        }
    }
    assert(ts.skip(n1 + n2) =~= rest) by {
        assert forall|k: int| 0 <= k < ts.len() - n1 - n2 implies ts.skip(n1 + n2)[k] == rest[k] by {
            assert(ts.skip(n1)[k + n2] == ts[n1 + n2 + k]);
            assert(mid.skip(n2)[k] == mid[n2 + k]);
        }
    }
}

proof fn lemma_sim_split_one(ts: Seq<TokenV>, tok: TokenV, sp: TokenV, rest: Seq<TokenV>)
    requires
        ts == seq![tok] + rest,
        similar_tok(tok, sp),
    ensures
        sim_split(ts, seq![sp], rest),
{
    assert(ts.take(1) =~= seq![tok]);
    assert(ts.skip(1) =~= rest);
}

/// At a significant position the tokenizer emits exactly one token, from
/// there to where the token ends, and goes on from that end.
proof fn lemma_tokenize_step(s: Seq<char>, i: int)
    requires
        0 <= i < s.len(),
        !is_ws(s[i]),
        s[i] != ';',
    ensures
        i < crate::tokenizer::token_end(s, i) <= s.len(),
        spec_tokenize(s, i) == seq![
            TokenV {
                value: s.subrange(i, crate::tokenizer::token_end(s, i)),
                start: i,
                end: crate::tokenizer::token_end(s, i),
                ttype: crate::tokenizer::kind_of(s[i]),
            },
        ] + spec_tokenize(s, crate::tokenizer::token_end(s, i)),
{
    crate::tokenizer::lemma_token_end_bounds(s, i);
    assert(crate::tokenizer::skip_ws_from(s, i) == i);
    assert(crate::tokenizer::skip_blank(s, i) == i);
}

/// Skipping one whitespace character does not change what the tokenizer
/// produces.
proof fn lemma_tokenize_ws_skip(s: Seq<char>, p: int)
    requires
        0 <= p < s.len(),
        is_ws(s[p]),
    ensures
        spec_tokenize(s, p) == spec_tokenize(s, p + 1),
{
    assert(crate::tokenizer::skip_ws_from(s, p) == crate::tokenizer::skip_ws_from(s, p + 1));
    assert(crate::tokenizer::skip_blank(s, p) == crate::tokenizer::skip_blank(s, p + 1));
}

/// The run that starts at `i` ends exactly at `j`: nothing before `j` stops
/// it and `j` is the end of the text or a stopping character.
proof fn lemma_run_end_hits(s: Seq<char>, i: int, j: int)
    requires
        0 <= i <= j <= s.len(),
        forall|m: int| i <= m < j ==> !is_run_end(#[trigger] s[m]),
        j == s.len() || is_run_end(s[j]),
    ensures
        run_end_from(s, i) == j,
    decreases j - i,
{
    if i < j {
        lemma_run_end_hits(s, i + 1, j);
    }
}

/// The text of a list after its opening parenthesis: the elements, then
/// either the closing parenthesis or the dotted tail and the closing
/// parenthesis.
pub open spec fn render_tail(l: Seq<ExprV>) -> Seq<char> {
    if l.last() == ExprV::Atom(AtomV::Nil) {
        crate::display::render_items(l.drop_last()) + seq![')']
    } else {
        crate::display::render_items(l.drop_last()) + seq![' ', '.', ' '] + render_expr(l.last())
            + seq![')']
    }
}

/// A non-empty list renders as its tail text behind one open parenthesis.
proof fn lemma_render_list_split(l: Seq<ExprV>)
    requires
        l.len() >= 1,
    ensures
        crate::display::render_list(l) == seq!['('] + render_tail(l),
{
    if l.last() == ExprV::Atom(AtomV::Nil) {
        assert(crate::display::render_list(l) =~= seq!['('] + render_tail(l));
    } else {
        assert(crate::display::render_list(l) =~= seq!['('] + render_tail(l));
    }
}

/// Peeling the first element off a list body's text.
proof fn lemma_render_tail_step(l: Seq<ExprV>)
    requires
        l.len() >= 2,
    ensures
        l.len() > 2 ==> render_tail(l) == render_expr(l[0]) + seq![' '] + render_tail(l.skip(1)),
        l.len() == 2 ==> render_tail(l) == render_expr(l[0]) + render_tail(l.skip(1)),
{
    let init = l.drop_last();
    let tl = l.skip(1);
    assert(tl.last() == l.last());
    assert(tl.drop_last() =~= init.skip(1));
    if l.len() == 2 {
        assert(init =~= seq![l[0]]);
        assert(crate::display::render_items(init) == render_expr(l[0]));
        assert(tl.drop_last() =~= Seq::<ExprV>::empty());
        assert(crate::display::render_items(tl.drop_last()) =~= Seq::<char>::empty());
        if l.last() == ExprV::Atom(AtomV::Nil) {
            assert(render_tail(l) =~= render_expr(l[0]) + render_tail(tl));
        } else {
            assert(render_tail(l) =~= render_expr(l[0]) + render_tail(tl));
        }
    } else {
        assert(init.len() >= 2);
        assert(crate::display::render_items(init) == render_expr(init[0]) + seq![' ']
            + crate::display::render_items(init.skip(1)));
        assert(init[0] == l[0]);
        if l.last() == ExprV::Atom(AtomV::Nil) {
            assert(render_tail(l) =~= render_expr(l[0]) + seq![' '] + render_tail(tl));
        } else {
            assert(render_tail(l) =~= render_expr(l[0]) + seq![' '] + render_tail(tl));
        }
    }
}

/// Splitting a known subrange of the text at a concatenation boundary.
proof fn lemma_subrange_cat(s: Seq<char>, p: int, a: Seq<char>, b: Seq<char>)
    requires
        0 <= p,
        p + a.len() + b.len() <= s.len(),
        s.subrange(p, p + a.len() + b.len()) == a + b,
    ensures
        s.subrange(p, p + a.len() as int) == a,
        s.subrange(p + a.len() as int, p + a.len() + b.len()) == b,
{
    let whole = s.subrange(p, p + a.len() + b.len());
    assert forall|k: int| 0 <= k < a.len() implies s.subrange(p, p + a.len() as int)[k] == a[k] by {
        assert(whole[k] == (a + b)[k]);
    }
    assert(s.subrange(p, p + a.len() as int) =~= a);
    assert forall|k: int| 0 <= k < b.len() implies s.subrange(
        p + a.len() as int,
        p + a.len() + b.len(),
    )[k] == b[k] by {
        assert(whole[a.len() + k] == (a + b)[a.len() + k]);
    }
    assert(s.subrange(p + a.len() as int, p + a.len() + b.len()) =~= b);
}

/// The rendering of a reparsing tree is never empty.
proof fn lemma_render_nonempty(e: ExprV)
    requires
        reparses(e),
    ensures
        render_expr(e).len() >= 1,
    decreases e,
{
    match e {
        ExprV::Atom(a) => {
            match a {
                AtomV::Num(n) => {
                    assert(render_nat(-(n as int)).len() >= 1);
                    assert(render_nat(n as int).len() >= 1);
                },
                AtomV::Bool(b) => {
                    assert(render_atom(a).len() == 2);
                },
                AtomV::Str(t) => {
                    assert(render_atom(a) == t);
                },
                AtomV::Symbol(t) => {
                    assert(render_atom(a) == t);
                },
                AtomV::Nil => {
                    assert(render_atom(a).len() == 2);
                },
                AtomV::Native(_) => {
                    assert(render_atom(a).len() == 8);
                },
            }
        },
        ExprV::List(l) => {
            lemma_render_list_split(l);
        },
        _ => {},
    }
}

/// The text of a bare (non-nil, non-string) faithful atom: one plain run.
proof fn lemma_atom_bare(a: AtomV)
    requires
        atom_renders_faithfully(a),
        !(a is Nil),
        !(a is Str),
    ensures
        render_atom(a).len() > 0,
        !is_single(render_atom(a)[0]),
        render_atom(a)[0] != '"',
        forall|i: int| 0 <= i < render_atom(a).len() ==> !is_run_end(#[trigger] render_atom(a)[i]),
{
    match a {
        AtomV::Num(n) => {
            lemma_render_int_bare(n);
        },
        AtomV::Bool(b) => {
            let s = render_atom(a);
            assert forall|i: int| 0 <= i < s.len() implies !is_run_end(#[trigger] s[i]) by {}
        },
        _ => {},
    }
}

/// Tokenizing the rendered text of a tree laid inside a larger text reads
/// exactly the tree's token spelling and then goes on after it. The
/// character after the rendered text, if any, must be one that ends a run,
/// as it always is inside rendered lists.
proof fn lemma_tokenize_spells(e: ExprV, s: Seq<char>, i: int)
    requires
        reparses(e),
        0 <= i,
        i + render_expr(e).len() <= s.len(),
        s.subrange(i, i + render_expr(e).len()) == render_expr(e),
        i + render_expr(e).len() == s.len() || is_run_end(s[i + render_expr(e).len()]),
    ensures
        sim_split(
            spec_tokenize(s, i),
            expr_tokens(e),
            spec_tokenize(s, i + render_expr(e).len()),
        ),
    decreases e, 1int,
{
    let r = render_expr(e);
    let j = i + r.len();
    lemma_render_nonempty(e);
    assert forall|k: int| 0 <= k < r.len() implies s[i + k] == #[trigger] r[k] by {
        assert(r[k] == s.subrange(i, j)[k]);
    }
    match e {
        ExprV::Atom(a) => {
            if a is Nil {
                assert(r[0] == '(');
                assert(r[1] == ')');
                assert(s[i] == r[0]);
                assert(s[i + 1] == r[1]);
                lemma_tokenize_step(s, i);
                assert(crate::tokenizer::token_end(s, i) == i + 1);
                lemma_tokenize_step(s, i + 1);
                assert(crate::tokenizer::token_end(s, i + 1) == j);
                assert(s.subrange(i, i + 1) =~= seq!['(']);
                assert(s.subrange(i + 1, j) =~= seq![')']);
                let t1 = TokenV { value: seq!['('], start: i, end: i + 1, ttype: TokenType::Opc };
                let t2 = TokenV { value: seq![')'], start: i + 1, end: j, ttype: TokenType::Clc };
                lemma_sim_split_one(spec_tokenize(s, i + 1), t2, clc_tok(), spec_tokenize(s, j));
                lemma_sim_split_one(spec_tokenize(s, i), t1, opc_tok(), spec_tokenize(s, i + 1));
                lemma_sim_split_concat(
                    spec_tokenize(s, i),
                    seq![opc_tok()],
                    spec_tokenize(s, i + 1),
                    seq![clc_tok()],
                    spec_tokenize(s, j),
                );
                assert(seq![opc_tok()] + seq![clc_tok()] =~= expr_tokens(e));
            } else if a is Str {
                assert(s[i] == r[0]);
                assert(s[j - 1] == r[r.len() - 1]);
                assert(r[0] == '"');
                assert(r[r.len() - 1] == '"');
                lemma_tokenize_step(s, i);
                assert forall|m: int| i + 1 <= m < j - 1 implies s[m] != '"' by {
                    assert(s[m] == r[m - i]);
                }
                lemma_find_char_exact(s, i + 1, j - 1, '"');
                assert(crate::tokenizer::token_end(s, i) == j);
                assert(s.subrange(i, j) == render_atom(a));
                let t = TokenV { value: render_atom(a), start: i, end: j, ttype: TokenType::Str };
                lemma_sim_split_one(spec_tokenize(s, i), t, atom_tok(a), spec_tokenize(s, j));
                assert(seq![atom_tok(a)] =~= expr_tokens(e));
            } else {
                lemma_atom_bare(a);
                assert(s[i] == r[0]);
                assert(!is_ws(s[i]) && s[i] != ';') by {
                    assert(!is_run_end(r[0]));
                }
                lemma_tokenize_step(s, i);
                assert forall|m: int| i + 1 <= m < j implies !is_run_end(#[trigger] s[m]) by {
                    assert(s[m] == r[m - i]);
                }
                lemma_run_end_hits(s, i + 1, j);
                assert(crate::tokenizer::token_end(s, i) == j);
                assert(crate::tokenizer::kind_of(s[i]) == TokenType::Other) by {
                    assert(!is_run_end(r[0]));
                    assert(!is_single(r[0]));
                }
                let t = TokenV { value: render_atom(a), start: i, end: j, ttype: TokenType::Other };
                assert(s.subrange(i, j) == render_atom(a));
                lemma_sim_split_one(spec_tokenize(s, i), t, atom_tok(a), spec_tokenize(s, j));
                assert(seq![atom_tok(a)] =~= expr_tokens(e));
            }
        },
        ExprV::List(l) => {
            lemma_render_list_split(l);
            assert(r[0] == '(');
            assert(s[i] == r[0]);
            lemma_tokenize_step(s, i);
            assert(crate::tokenizer::token_end(s, i) == i + 1);
            assert(s.subrange(i, i + 1) =~= seq!['(']);
            let t1 = TokenV { value: seq!['('], start: i, end: i + 1, ttype: TokenType::Opc };
            lemma_sim_split_one(spec_tokenize(s, i), t1, opc_tok(), spec_tokenize(s, i + 1));
            assert(s.subrange(i + 1, j) =~= render_tail(l)) by {
                assert forall|k: int| 0 <= k < render_tail(l).len() implies s.subrange(i + 1, j)[k]
                    == render_tail(l)[k] by {
                    assert(s[i + 1 + k] == r[1 + k]);
                    assert(r[1 + k] == (seq!['('] + render_tail(l))[1 + k]);
                }
            }
            lemma_tokenize_tail(l, s, i + 1);
            lemma_sim_split_concat(
                spec_tokenize(s, i),
                seq![opc_tok()],
                spec_tokenize(s, i + 1),
                tail_tokens(l),
                spec_tokenize(s, j),
            );
            assert(seq![opc_tok()] + tail_tokens(l) =~= expr_tokens(e));
        },
        ExprV::Quote(q) => {
            lemma_tokenize_prefixed(e, *q, '\'', quo_tok(), s, i);
        },
        ExprV::Quasiquote(q) => {
            lemma_tokenize_prefixed(e, *q, '`', quasi_tok(), s, i);
        },
        ExprV::Unquote(q) => {
            lemma_tokenize_prefixed(e, *q, ',', unquo_tok(), s, i);
        },
        ExprV::Lambda(_) => {},
    }
}

/// The shared step for the three prefix forms: one single-character token,
/// then the inner expression.
proof fn lemma_tokenize_prefixed(e: ExprV, q: ExprV, c: char, sp: TokenV, s: Seq<char>, i: int)
    requires
        reparses(e),
        reparses(q),
        (e is Quote && e->Quote_0 == Box::new(q) && c == '\'' && sp == quo_tok()) || (e is Quasiquote
            && e->Quasiquote_0 == Box::new(q) && c == '`' && sp == quasi_tok()) || (e is Unquote
            && e->Unquote_0 == Box::new(q) && c == ',' && sp == unquo_tok()),
        0 <= i,
        i + render_expr(e).len() <= s.len(),
        s.subrange(i, i + render_expr(e).len()) == render_expr(e),
        i + render_expr(e).len() == s.len() || is_run_end(s[i + render_expr(e).len()]),
    ensures
        sim_split(
            spec_tokenize(s, i),
            expr_tokens(e),
            spec_tokenize(s, i + render_expr(e).len()),
        ),
    decreases e, 0int,
{
    let r = render_expr(e);
    let j = i + r.len();
    assert(r == seq![c] + render_expr(q));
    assert forall|k: int| 0 <= k < r.len() implies s[i + k] == #[trigger] r[k] by {
        assert(r[k] == s.subrange(i, j)[k]);
    }
    assert(r[0] == c);
    assert(s[i] == r[0]);
    lemma_tokenize_step(s, i);
    assert(is_single(c));
    assert(crate::tokenizer::token_end(s, i) == i + 1);
    assert(s.subrange(i, i + 1) =~= seq![c]);
    let t1 = TokenV { value: seq![c], start: i, end: i + 1, ttype: crate::tokenizer::kind_of(c) };
    assert(similar_tok(t1, sp));
    lemma_sim_split_one(spec_tokenize(s, i), t1, sp, spec_tokenize(s, i + 1));
    assert(s.subrange(i + 1, j) =~= render_expr(q)) by {
        assert forall|k: int| 0 <= k < render_expr(q).len() implies s.subrange(i + 1, j)[k]
            == render_expr(q)[k] by {
            assert(s[i + 1 + k] == r[1 + k]);
        }
    }
    lemma_tokenize_spells(q, s, i + 1);
    lemma_sim_split_concat(
        spec_tokenize(s, i),
        seq![sp],
        spec_tokenize(s, i + 1),
        expr_tokens(q),
        spec_tokenize(s, j),
    );
    assert(seq![sp] + expr_tokens(q) =~= expr_tokens(e));
}

/// Tokenizing a list body's text reads the body's token spelling.
proof fn lemma_tokenize_tail(l: Seq<ExprV>, s: Seq<char>, p: int)
    requires
        l.len() >= 1,
        items_reparse(l),
        l.last() == ExprV::Atom(AtomV::Nil) || reparses(l.last()),
        0 <= p,
        p + render_tail(l).len() <= s.len(),
        s.subrange(p, p + render_tail(l).len()) == render_tail(l),
    ensures
        sim_split(
            spec_tokenize(s, p),
            tail_tokens(l),
            spec_tokenize(s, p + render_tail(l).len()),
        ),
    decreases l, 2int,
{
    let r = render_tail(l);
    let q = p + r.len();
    assert forall|k: int| 0 <= k < r.len() implies s[p + k] == #[trigger] r[k] by {
        assert(r[k] == s.subrange(p, q)[k]);
    }
    if l.len() == 1 {
        if l[0] == ExprV::Atom(AtomV::Nil) {
            assert(l.drop_last() =~= Seq::<ExprV>::empty());
            assert(r =~= seq![')']);
            assert(s[p] == r[0]);
            assert(r[0] == ')');
            lemma_tokenize_step(s, p);
            assert(crate::tokenizer::token_end(s, p) == p + 1);
            assert(s.subrange(p, p + 1) =~= seq![')']);
            let t = TokenV { value: seq![')'], start: p, end: p + 1, ttype: TokenType::Clc };
            lemma_sim_split_one(spec_tokenize(s, p), t, clc_tok(), spec_tokenize(s, q));
            assert(seq![clc_tok()] =~= tail_tokens(l));
        } else {
            let tl = l[0];
            let rt = render_expr(tl);
            lemma_render_nonempty(tl);
            assert(l.drop_last() =~= Seq::<ExprV>::empty());
            assert(r =~= seq![' ', '.', ' '] + rt + seq![')']);
            assert(r[0] == ' ' && r[1] == '.' && r[2] == ' ');
            assert(s[p] == r[0]);
            assert(s[p + 1] == r[1]);
            assert(s[p + 2] == r[2]);
            lemma_tokenize_ws_skip(s, p);
            lemma_tokenize_step(s, p + 1);
            assert(crate::tokenizer::token_end(s, p + 1) == p + 2);
            assert(s.subrange(p + 1, p + 2) =~= seq!['.']);
            let t = TokenV { value: seq!['.'], start: p + 1, end: p + 2, ttype: TokenType::Assoc };
            lemma_tokenize_ws_skip(s, p + 2);
            assert(s.subrange(p + 3, p + 3 + rt.len()) =~= rt) by {
                assert forall|k: int| 0 <= k < rt.len() implies s.subrange(p + 3, p + 3 + rt.len())[k]
                    == rt[k] by {
                    assert(s[p + 3 + k] == r[3 + k]);
                    assert(r[3 + k] == rt[k]);
                }
            }
            let m = p + 3 + rt.len();
            assert(s[m] == ')') by {
                assert(r[r.len() - 1] == ')');
            }
            lemma_tokenize_spells(tl, s, p + 3);
            lemma_tokenize_step(s, m);
            assert(crate::tokenizer::token_end(s, m) == m + 1);
            assert(m + 1 == q);
            assert(s.subrange(m, m + 1) =~= seq![')']);
            let t2 = TokenV { value: seq![')'], start: m, end: m + 1, ttype: TokenType::Clc };
            lemma_sim_split_one(spec_tokenize(s, m), t2, clc_tok(), spec_tokenize(s, q));
            lemma_sim_split_one(spec_tokenize(s, p + 1), t, assoc_tok(), spec_tokenize(s, p + 2));
            lemma_sim_split_concat(
                spec_tokenize(s, p + 3),
                expr_tokens(tl),
                spec_tokenize(s, m),
                seq![clc_tok()],
                spec_tokenize(s, q),
            );
            lemma_sim_split_concat(
                spec_tokenize(s, p + 1),
                seq![assoc_tok()],
                spec_tokenize(s, p + 2),
                expr_tokens(tl) + seq![clc_tok()],
                spec_tokenize(s, q),
            );
            assert(spec_tokenize(s, p) == spec_tokenize(s, p + 1));
            assert(spec_tokenize(s, p + 2) == spec_tokenize(s, p + 3));
            assert(seq![assoc_tok()] + (expr_tokens(tl) + seq![clc_tok()]) =~= tail_tokens(l));
        }
    } else {
        let hd = l[0];
        let tl = l.skip(1);
        let rh = render_expr(hd);
        lemma_render_tail_step(l);
        lemma_render_nonempty(hd);
        assert(reparses(hd));
        assert(tl.last() == l.last());
        if l.len() > 2 {
            assert(r == rh + seq![' '] + render_tail(tl));
            assert(s.subrange(p, p + rh.len()) =~= rh) by {
                assert forall|k: int| 0 <= k < rh.len() implies s.subrange(p, p + rh.len())[k]
                    == rh[k] by {
                    assert(s[p + k] == r[k]);
                    assert(r[k] == rh[k]);
                }
            }
            assert(s[p + rh.len()] == ' ') by {
                assert(r[rh.len() as int] == ' ');
            }
            lemma_tokenize_spells(hd, s, p);
            lemma_tokenize_ws_skip(s, p + rh.len());
            let m = p + rh.len() + 1;
            assert(s.subrange(m, q) =~= render_tail(tl)) by {
                assert forall|k: int| 0 <= k < render_tail(tl).len() implies s.subrange(m, q)[k]
                    == render_tail(tl)[k] by {
                    assert(s[m + k] == r[rh.len() + 1 + k]);
                    assert(r[rh.len() + 1 + k] == render_tail(tl)[k]);
                }
            }
            lemma_tokenize_tail(tl, s, m);
            assert(spec_tokenize(s, p + rh.len()) == spec_tokenize(s, m));
            lemma_sim_split_concat(
                spec_tokenize(s, p),
                expr_tokens(hd),
                spec_tokenize(s, p + rh.len()),
                tail_tokens(tl),
                spec_tokenize(s, q),
            );
            assert(expr_tokens(hd) + tail_tokens(tl) =~= tail_tokens(l));
        } else {
            assert(r == rh + render_tail(tl));
            assert(render_tail(tl).len() >= 1);
            assert(s.subrange(p, p + rh.len()) =~= rh) by {
                assert forall|k: int| 0 <= k < rh.len() implies s.subrange(p, p + rh.len())[k]
                    == rh[k] by {
                    assert(s[p + k] == r[k]);
                    assert(r[k] == rh[k]);
                }
            }
            let m = p + rh.len();
            assert(s[m] == render_tail(tl)[0]) by {
                assert(r[rh.len() as int] == render_tail(tl)[0]);
            }
            assert(is_run_end(render_tail(tl)[0])) by {
                assert(tl.len() == 1);
                if tl[0] == ExprV::Atom(AtomV::Nil) {
                    assert(tl.drop_last() =~= Seq::<ExprV>::empty());
                    assert(render_tail(tl) =~= seq![')']);
                } else {
                    assert(tl.drop_last() =~= Seq::<ExprV>::empty());
                    assert(render_tail(tl)[0] == ' ');
                }
            }
            lemma_tokenize_spells(hd, s, p);
            assert(s.subrange(m, q) =~= render_tail(tl)) by {
                assert forall|k: int| 0 <= k < render_tail(tl).len() implies s.subrange(m, q)[k]
                    == render_tail(tl)[k] by {
                    assert(s[m + k] == r[rh.len() + k]);
                    assert(r[rh.len() + k] == render_tail(tl)[k]);
                }
            }
            lemma_tokenize_tail(tl, s, m);
            lemma_sim_split_concat(
                spec_tokenize(s, p),
                expr_tokens(hd),
                spec_tokenize(s, m),
                tail_tokens(tl),
                spec_tokenize(s, q),
            );
            assert(expr_tokens(hd) + tail_tokens(tl) =~= tail_tokens(l));
        }
    }
}

/// The round-trip law in full: rendering any tree the parser can produce
/// and reading the text back — tokenizer, then parser — yields exactly that
/// tree, with nothing left over.
pub proof fn lemma_render_reparse(e: ExprV)
    requires
        reparses(e),
    ensures
        ({
            let (r, rest) = spec_parse(spec_tokenize(render_expr(e), 0).reverse());
            &&& r == Ok::<ExprV, ParserErrV>(e)
            &&& rest.len() == 0
        }),
{
    let text = render_expr(e);
    assert(text.subrange(0, text.len() as int) =~= text);
    lemma_tokenize_spells(e, text, 0);
    let ts = spec_tokenize(text, 0);
    let spell = expr_tokens(e);
    assert(spec_tokenize(text, text.len() as int) =~= Seq::<TokenV>::empty());
    assert(ts.len() == spell.len());
    assert(similar_toks(ts, spell)) by {
        assert(ts.take(spell.len() as int) =~= ts);
    }
    assert(similar_toks(ts.reverse(), spell.reverse())) by {
        assert forall|i: int| 0 <= i < ts.len() implies similar_tok(
            #[trigger] ts.reverse()[i],
            spell.reverse()[i],
        ) by {
            assert(ts.reverse()[i] == ts[ts.len() - 1 - i]);
            assert(spell.reverse()[i] == spell[spell.len() - 1 - i]);
        }
    }
    lemma_parse_expr_reads_text_only(ts.reverse(), spell.reverse());
    lemma_tokens_reparse(e);
}

/// What the tokenizer guarantees of a plain token's text: a non-empty run
/// that no run-ending character interrupts, starting with an ordinary
/// character.
pub open spec fn bare_token(v: Seq<char>) -> bool {
    &&& v.len() > 0
    &&& !is_single(v[0])
    &&& v[0] != '"'
    &&& (forall|i: int| 0 <= i < v.len() ==> !is_run_end(#[trigger] v[i]))
}

/// A string token whose closing quote is present.
pub open spec fn closed_string_token(v: Seq<char>) -> bool {
    &&& v.len() >= 2
    &&& v[0] == '"'
    &&& v[v.len() - 1] == '"'
    &&& (forall|i: int| 1 <= i < v.len() - 1 ==> v[i] != '"')
}

/// A token stack whose plain tokens are bare runs and whose string tokens
/// are closed. The tokenizer always produces the former; the latter holds
/// whenever every string literal of the text closes.
pub open spec fn toks_wf(ts: Seq<TokenV>) -> bool {
    forall|i: int|
        0 <= i < ts.len() ==> {
            &&& ((#[trigger] ts[i]).ttype == TokenType::Other ==> bare_token(ts[i].value))
            &&& (ts[i].ttype == TokenType::Str ==> closed_string_token(ts[i].value))
        }
}

proof fn lemma_skip_ws_lands(s: Seq<char>, i: int)
    requires
        0 <= i <= s.len(),
    ensures
        crate::tokenizer::skip_ws_from(s, i) < s.len() ==> !is_ws(
            s[crate::tokenizer::skip_ws_from(s, i)],
        ),
    decreases s.len() - i,
{
    if i < s.len() && is_ws(s[i]) {
        lemma_skip_ws_lands(s, i + 1);
    }
}

proof fn lemma_skip_blank_lands(s: Seq<char>, i: int)
    requires
        0 <= i <= s.len(),
    ensures
        crate::tokenizer::skip_blank(s, i) < s.len() ==> (!is_ws(
            s[crate::tokenizer::skip_blank(s, i)],
        ) && s[crate::tokenizer::skip_blank(s, i)] != ';'),
    decreases s.len() - i,
{
    let j = crate::tokenizer::skip_ws_from(s, i);
    crate::tokenizer::lemma_skip_ws_bounds(s, i);
    lemma_skip_ws_lands(s, i);
    if j < s.len() && s[j] == ';' {
        crate::tokenizer::lemma_find_char_bounds(s, j + 1, '\n');
        lemma_skip_blank_lands(s, crate::tokenizer::find_char(s, j + 1, '\n'));
    }
}

proof fn lemma_run_end_clear(s: Seq<char>, i: int, m: int)
    requires
        0 <= i <= m < run_end_from(s, i),
        i <= s.len(),
    ensures
        !is_run_end(s[m]),
    decreases m - i,
{
    crate::tokenizer::lemma_run_end_bounds(s, i);
    if i < m {
        lemma_run_end_clear(s, i + 1, m);
    }
}

proof fn lemma_find_char_clear(s: Seq<char>, i: int, m: int, c: char)
    requires
        0 <= i <= m,
        i <= s.len(),
        m <= find_char(s, i, c),
        m < s.len(),
    ensures
        m < find_char(s, i, c) ==> s[m] != c,
        find_char(s, i, c) < s.len() ==> s[find_char(s, i, c)] == c,
    decreases s.len() - i,
{
    if i < s.len() && s[i] != c && i < m {
        lemma_find_char_clear(s, i + 1, m, c);
    } else if i < s.len() && s[i] != c {
        lemma_find_char_clear_found(s, i + 1, c);
    }
}

proof fn lemma_find_char_clear_found(s: Seq<char>, i: int, c: char)
    requires
        0 <= i <= s.len(),
    ensures
        find_char(s, i, c) < s.len() ==> s[find_char(s, i, c)] == c,
        forall|m: int| i <= m < find_char(s, i, c) ==> s[m] != c,
    decreases s.len() - i,
{
    if i < s.len() && s[i] != c {
        lemma_find_char_clear_found(s, i + 1, c);
    }
}

/// Every plain token the tokenizer produces is a bare run, and every string
/// token whose closing quote was found is closed. A string token can lack
/// its closing quote only by running to the very end of the text.
proof fn lemma_tokenize_wf(s: Seq<char>, i: int)
    requires
        0 <= i <= s.len(),
        forall|k: int|
            0 <= k < spec_tokenize(s, i).len() ==> ((#[trigger] spec_tokenize(s, i)[k]).ttype
                == TokenType::Str ==> closed_string_token(spec_tokenize(s, i)[k].value)),
    ensures
        toks_wf(spec_tokenize(s, i)),
    decreases s.len() - i,
{
    let p = crate::tokenizer::skip_blank(s, i);
    crate::tokenizer::lemma_skip_blank_bounds(s, i);
    if p < s.len() {
        lemma_skip_blank_lands(s, i);
        crate::tokenizer::lemma_token_end_bounds(s, p);
        let e = crate::tokenizer::token_end(s, p);
        let t = TokenV {
            value: s.subrange(p, e),
            start: p,
            end: e,
            ttype: crate::tokenizer::kind_of(s[p]),
        };
        let ts = spec_tokenize(s, i);
        assert(ts == seq![t] + spec_tokenize(s, e));
        assert(ts[0] == t);
        if t.ttype == TokenType::Other {
            assert(!is_single(s[p]));
            assert(s[p] != '"');
            assert(!is_run_end(s[p]));
            assert(e == run_end_from(s, p + 1));
            assert forall|m: int| 0 <= m < t.value.len() implies !is_run_end(
                #[trigger] t.value[m],
            ) by {
                assert(t.value[m] == s[p + m]);
                if m > 0 {
                    lemma_run_end_clear(s, p + 1, p + m);
                }
            }
            assert(bare_token(t.value));
        }
        assert forall|k: int|
            0 <= k < spec_tokenize(s, e).len() implies ((#[trigger] spec_tokenize(s, e)[k]).ttype
            == TokenType::Str ==> closed_string_token(spec_tokenize(s, e)[k].value)) by {
            assert(spec_tokenize(s, e)[k] == ts[k + 1]);
        }
        lemma_tokenize_wf(s, e);
        assert forall|k: int| 0 <= k < ts.len() implies ((#[trigger] ts[k]).ttype
            == TokenType::Other ==> bare_token(ts[k].value)) && (ts[k].ttype == TokenType::Str
            ==> closed_string_token(ts[k].value)) by {
            if k > 0 {
                assert(ts[k] == spec_tokenize(s, e)[k - 1]);
            }
        }
    }
}

/// A list whose every element before the last reparses satisfies the
/// element condition.
proof fn lemma_all_to_items(l: Seq<ExprV>)
    requires
        forall|i: int| 0 <= i < l.len() - 1 ==> reparses(#[trigger] l[i]),
    ensures
        items_reparse(l),
    decreases l.len(),
{
    if l.len() > 1 {
        assert(forall|i: int|
            0 <= i < l.skip(1).len() - 1 ==> reparses(#[trigger] l.skip(1)[i]) && l.skip(1)[i]
                == l[i + 1]);
        lemma_all_to_items(l.skip(1));
    }
}

proof fn lemma_toks_wf_drop_last(ts: Seq<TokenV>)
    requires
        ts.len() > 0,
        toks_wf(ts),
    ensures
        toks_wf(ts.drop_last()),
{
    let d = ts.drop_last();
    assert forall|i: int| 0 <= i < d.len() implies ((#[trigger] d[i]).ttype == TokenType::Other
        ==> bare_token(d[i].value)) && (d[i].ttype == TokenType::Str ==> closed_string_token(
        d[i].value,
    )) by {
        assert(d[i] == ts[i]);
    }
}

/// Whatever tree the parser yields from well-formed tokens reparses; the
/// tokens it leaves are well-formed too.
pub proof fn lemma_parse_expr_wf(ts: Seq<TokenV>)
    requires
        toks_wf(ts),
    ensures
        ({
            let (r, rest) = crate::parser::spec_parse_expr(ts);
            &&& toks_wf(rest)
            &&& (r matches Ok(e) ==> reparses(e))
        }),
    decreases ts.len(), 1int,
{
    reveal_strlit("#t");
    reveal_strlit("#f");
    if ts.len() > 0 {
        let t = ts.last();
        assert(t == ts[ts.len() - 1]);
        lemma_toks_wf_drop_last(ts);
        if t.ttype == TokenType::Opc {
            lemma_parse_list_wf(ts);
        } else if t.ttype == TokenType::Quo || t.ttype == TokenType::Unquo || t.ttype
            == TokenType::Quasi {
            lemma_parse_expr_wf(ts.drop_last());
        } else if t.ttype == TokenType::Str || t.ttype == TokenType::Other {
            match crate::parser::spec_parse_atom(t) {
                Ok(a) => {
                    assert(atom_renders_faithfully(a));
                },
                Err(_) => {},
            }
        }
    }
}

proof fn lemma_parse_list_wf(ts: Seq<TokenV>)
    requires
        toks_wf(ts),
    ensures
        ({
            let (r, rest) = crate::parser::spec_parse_list(ts);
            &&& toks_wf(rest)
            &&& (r matches Ok(l) ==> l.len() >= 1 && items_reparse(l) && (l.last()
                == ExprV::Atom(AtomV::Nil) || reparses(l.last())))
        }),
    decreases ts.len(), 0int,
{
    if ts.len() > 0 {
        lemma_toks_wf_drop_last(ts);
        if ts.last().ttype == TokenType::Opc {
            lemma_parse_items_wf(ts.drop_last(), Seq::empty());
        }
    }
}

proof fn lemma_parse_items_wf(ts: Seq<TokenV>, acc: Seq<ExprV>)
    requires
        toks_wf(ts),
        forall|i: int| 0 <= i < acc.len() ==> reparses(#[trigger] acc[i]),
    ensures
        ({
            let (r, rest) = crate::parser::spec_parse_list_items(ts, acc);
            &&& toks_wf(rest)
            &&& (r matches Ok(l) ==> l.len() >= acc.len() + 1 && items_reparse(l) && (l.last()
                == ExprV::Atom(AtomV::Nil) || reparses(l.last())))
        }),
    decreases ts.len(), 2int,
{
    if ts.len() > 0 {
        let t = ts.last();
        lemma_toks_wf_drop_last(ts);
        if t.ttype == TokenType::Assoc {
            if acc.len() > 0 {
                lemma_parse_cdr_wf(ts);
                let (r, rest) = crate::parser::spec_parse_cdr(ts);
                match r {
                    Ok(c) => {
                        let l = acc.push(c);
                        assert(forall|i: int|
                            0 <= i < l.len() - 1 ==> reparses(#[trigger] l[i]) && l[i] == acc[i]);
                        lemma_all_to_items(l);
                        assert(l.last() == c);
                    },
                    Err(_) => {},
                }
            }
        } else if t.ttype == TokenType::Clc {
            let l = acc.push(ExprV::Atom(AtomV::Nil));
            assert(forall|i: int|
                0 <= i < l.len() - 1 ==> reparses(#[trigger] l[i]) && l[i] == acc[i]);
            lemma_all_to_items(l);
        } else {
            lemma_parse_expr_wf(ts);
            let (r, rest) = crate::parser::spec_parse_expr(ts);
            crate::parser::lemma_parse_expr_consumes(ts);
            match r {
                Ok(e) => {
                    let acc2 = acc.push(e);
                    assert(forall|i: int|
                        0 <= i < acc2.len() ==> reparses(#[trigger] acc2[i]));
                    lemma_parse_items_wf(rest, acc2);
                },
                Err(_) => {},
            }
        }
    }
}

proof fn lemma_parse_cdr_wf(ts: Seq<TokenV>)
    requires
        toks_wf(ts),
    ensures
        ({
            let (r, rest) = crate::parser::spec_parse_cdr(ts);
            &&& toks_wf(rest)
            &&& (r matches Ok(e) ==> reparses(e))
        }),
    decreases ts.len(), 0int,
{
    if ts.len() > 0 {
        lemma_toks_wf_drop_last(ts);
        if ts.last().ttype == TokenType::Assoc {
            lemma_parse_expr_wf(ts.drop_last());
            let (r, rest) = crate::parser::spec_parse_expr(ts.drop_last());
            if r is Ok && rest.len() > 0 {
                lemma_toks_wf_drop_last(rest);
            }
        }
    }
}

/// The round-trip law over raw text: whenever a text (with every string
/// literal closed) parses, rendering the result gives text that parses
/// back to exactly the same tree, with nothing left over.
pub proof fn lemma_text_round_trip(s: Seq<char>)
    requires
        forall|k: int|
            0 <= k < spec_tokenize(s, 0).len() ==> ((#[trigger] spec_tokenize(s, 0)[k]).ttype
                == TokenType::Str ==> closed_string_token(spec_tokenize(s, 0)[k].value)),
    ensures
        ({
            let (r, _) = spec_parse(spec_tokenize(s, 0).reverse());
            r matches Ok(e) ==> {
                let (r2, rest2) = spec_parse(spec_tokenize(render_expr(e), 0).reverse());
                &&& r2 == Ok::<ExprV, ParserErrV>(e)
                &&& rest2.len() == 0
            }
        }),
{
    lemma_tokenize_wf(s, 0);
    let ts = spec_tokenize(s, 0);
    let stack = ts.reverse();
    assert(toks_wf(stack)) by {
        assert forall|i: int| 0 <= i < stack.len() implies ((#[trigger] stack[i]).ttype
            == TokenType::Other ==> bare_token(stack[i].value)) && (stack[i].ttype
            == TokenType::Str ==> closed_string_token(stack[i].value)) by {
            assert(stack[i] == ts[ts.len() - 1 - i]);
        }
    }
    lemma_parse_expr_wf(stack);
    let (r, rest) = crate::parser::spec_parse_expr(stack);
    match r {
        Ok(e) => {
            if rest.len() == 0 {
                lemma_render_reparse(e);
            }
        },
        Err(_) => {},
    }
}

} // verus!
