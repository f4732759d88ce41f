use yali::env::Env;
use yali::evaluator::{eval_expr, EvalError};
use yali::parser::{parse, Atom, Expr};
use yali::tokenizer::tokenize;
use yali::utils::init_map;

const FUEL: u64 = 10_000;

fn fresh_env() -> Env {
    let mut map: Vec<(String, Expr)> = Vec::new();
    init_map(&mut map);
    Env::from(map)
}

fn run(env: &mut Env, src: &str) -> Result<Expr, EvalError> {
    let mut tokens = tokenize(src);
    let expr = parse(&mut tokens).unwrap();
    eval_expr(expr, env, 0, FUEL)
}

fn num(n: i32) -> Expr {
    Expr::Atom(Box::new(Atom::Num(n)))
}

fn nil() -> Expr {
    Expr::Atom(Box::new(Atom::Nil))
}

#[test]
fn test() {
    let mut map: Vec<(String, Expr)> = Vec::new();
    init_map(&mut map);
    let mut env = Env::from(map);
    let res = eval_expr(parse(&mut tokenize("(+ 1 2)")).unwrap(), &mut env, 0, FUEL).unwrap();
    assert_eq!(res, num(3));
}

#[test]
fn tokenize_parse_eval_sum() {
    let mut env = fresh_env();
    assert_eq!(run(&mut env, "(+ 1 2)").unwrap(), num(3));
}

#[test]
fn quote_leaves_list_unevaluated() {
    let mut env = fresh_env();
    let res = run(&mut env, "(quote (1 2))").unwrap();
    assert_eq!(res, Expr::List(Box::new(vec![num(1), num(2), nil()])));
}

#[test]
fn quote_mark_leaves_symbols_unevaluated() {
    let mut env = fresh_env();
    // The symbols inside are not looked up: an unbound name survives.
    let res = run(&mut env, "'(no-such-name 2)").unwrap();
    assert_eq!(
        res,
        Expr::List(Box::new(vec![
            Expr::Atom(Box::new(Atom::Symbol("no-such-name".to_string()))),
            num(2),
            nil(),
        ]))
    );
}

#[test]
fn define_binds_and_is_visible_later() {
    let mut env = fresh_env();
    assert_eq!(run(&mut env, "(define x 5)").unwrap(), num(5));
    assert_eq!(run(&mut env, "(+ x 1)").unwrap(), num(6));
}

#[test]
fn defined_name_is_unknown_in_fresh_env() {
    let mut env = fresh_env();
    run(&mut env, "(define x 5)").unwrap();
    let mut other = fresh_env();
    match run(&mut other, "x") {
        Err(EvalError::UndefinedSymbol(s)) => assert_eq!(s, "x"),
        other => panic!("expected UndefinedSymbol, got {:?}", other),
    }
}

#[test]
fn set_on_undefined_symbol_fails() {
    let mut env = fresh_env();
    match run(&mut env, "(set! y 1)") {
        Err(EvalError::UndefinedSymbol(s)) => assert_eq!(s, "y"),
        other => panic!("expected UndefinedSymbol, got {:?}", other),
    }
}

#[test]
fn set_overwrites_existing_binding() {
    let mut env = fresh_env();
    run(&mut env, "(define y 1)").unwrap();
    assert_eq!(run(&mut env, "(set! y 7)").unwrap(), num(7));
    assert_eq!(run(&mut env, "y").unwrap(), num(7));
}

#[test]
fn lambda_applies_to_matching_arity() {
    let mut env = fresh_env();
    run(&mut env, "(define f (lambda (a b) (+ a b)))").unwrap();
    assert_eq!(run(&mut env, "(f 3 4)").unwrap(), num(7));
}

#[test]
fn lambda_rejects_wrong_arity() {
    let mut env = fresh_env();
    run(&mut env, "(define f (lambda (a b) (+ a b)))").unwrap();
    match run(&mut env, "(f 3)") {
        Err(EvalError::WrongNumOfArgs(expected, actual)) => {
            assert_eq!(expected, 2);
            assert_eq!(actual, 1);
        },
        other => panic!("expected WrongNumOfArgs, got {:?}", other),
    }
}

#[test]
fn car_of_dotted_pair() {
    let mut env = fresh_env();
    assert_eq!(run(&mut env, "(car (cons 1 2))").unwrap(), num(1));
}

#[test]
fn cdr_of_single_element_list() {
    let mut env = fresh_env();
    let res = run(&mut env, "(cdr (cons 1 (quote ())))").unwrap();
    // The nil list: only the terminator remains.
    assert_eq!(res, Expr::List(Box::new(vec![nil()])));
}

#[test]
fn closures_capture_and_mutate_enclosing_frame() {
    let mut env = fresh_env();
    run(&mut env, "(define counter (lambda (n) (lambda () (set! n (+ n 1)))))").unwrap();
    run(&mut env, "(define tick (counter 5))").unwrap();
    assert_eq!(run(&mut env, "(tick)").unwrap(), num(6));
    assert_eq!(run(&mut env, "(tick)").unwrap(), num(7));
}

#[test]
fn inner_lambda_reads_outer_binding_after_return() {
    let mut env = fresh_env();
    run(&mut env, "(define hold (lambda (v) (lambda () (+ v 0))))").unwrap();
    run(&mut env, "(define get-v (hold 41))").unwrap();
    assert_eq!(run(&mut env, "(get-v)").unwrap(), num(41));
}

#[test]
fn eval_runs_data_as_code() {
    let mut env = fresh_env();
    assert_eq!(run(&mut env, "(eval (quote (+ 2 3)))").unwrap(), num(5));
}

#[test]
fn if_takes_then_branch_on_truthy() {
    let mut env = fresh_env();
    assert_eq!(run(&mut env, "(if #t 1 2)").unwrap(), num(1));
    // Any non-false value is truthy, zero included.
    assert_eq!(run(&mut env, "(if 0 1 2)").unwrap(), num(1));
    assert_eq!(run(&mut env, "(if nil 1 2)").unwrap(), num(1));
}

#[test]
fn if_takes_else_branch_on_false() {
    let mut env = fresh_env();
    assert_eq!(run(&mut env, "(if #f 1 2)").unwrap(), num(2));
}

#[test]
fn if_without_else_yields_nil() {
    let mut env = fresh_env();
    assert_eq!(run(&mut env, "(if #f 1)").unwrap(), nil());
}

#[test]
fn subtraction_negates_single_operand() {
    let mut env = fresh_env();
    assert_eq!(run(&mut env, "(- 5)").unwrap(), num(-5));
    assert_eq!(run(&mut env, "(- 10 3 2)").unwrap(), num(5));
}

#[test]
fn division_truncates_and_inverts() {
    let mut env = fresh_env();
    assert_eq!(run(&mut env, "(/ 10 3)").unwrap(), num(3));
    assert_eq!(run(&mut env, "(/ 5)").unwrap(), num(0));
    assert_eq!(run(&mut env, "(/ 1)").unwrap(), num(1));
}

#[test]
fn division_by_zero_is_an_error() {
    let mut env = fresh_env();
    match run(&mut env, "(/ 1 0)") {
        Err(EvalError::DivisionByZero) => (),
        other => panic!("expected DivisionByZero, got {:?}", other),
    }
}

#[test]
fn addition_wraps_around() {
    let mut env = fresh_env();
    assert_eq!(run(&mut env, "(+ 2147483647 1)").unwrap(), num(i32::MIN));
}

#[test]
fn runaway_recursion_reports_limit() {
    let mut env = fresh_env();
    run(&mut env, "(define loop-forever (lambda (x) (loop-forever x)))").unwrap();
    match run(&mut env, "(loop-forever 1)") {
        Err(EvalError::RecursionLimit) => (),
        other => panic!("expected RecursionLimit, got {:?}", other),
    }
}

#[test]
fn applying_a_non_callable_is_a_type_error() {
    let mut env = fresh_env();
    match run(&mut env, "(1 2)") {
        Err(EvalError::TypeMismatch(_, _)) => (),
        other => panic!("expected TypeMismatch, got {:?}", other),
    }
}

#[test]
fn empty_lambda_arguments_error_not_panic() {
    let mut env = fresh_env();
    match run(&mut env, "(lambda)") {
        Err(EvalError::WrongNumOfArgs(_, _)) => (),
        other => panic!("expected WrongNumOfArgs, got {:?}", other),
    }
}

#[test]
fn inspect_yields_nil() {
    let mut env = fresh_env();
    assert_eq!(run(&mut env, "(inspect)").unwrap(), nil());
}

#[test]
fn bindings_may_hold_expressions() {
    let mut env = fresh_env();
    // A symbol resolves and its value is evaluated again, so a binding can
    // point at another binding.
    run(&mut env, "(define a 9)").unwrap();
    run(&mut env, "(define b (quote a))").unwrap();
    assert_eq!(run(&mut env, "b").unwrap(), num(9));
}
