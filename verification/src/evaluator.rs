//! The evaluator. Atoms are self-evaluating except symbols, which resolve
//! through the environment and whose resolved value is evaluated again; a
//! quoted expression evaluates to its body unevaluated; a list applies its
//! first element, which must evaluate to a native procedure or a lambda. The
//! native procedure itself decides whether and how to evaluate its argument
//! list, which is what lets eager procedures and special forms share one
//! calling convention.
//!
//! Every evaluating function takes a fuel bound on recursion depth and
//! reports `RecursionLimit` when it is exhausted, so evaluation is total:
//! a non-terminating program is a recoverable error, not a crash.
use vstd::prelude::*;

use crate::env::{chain_get, with_new_frame, with_outer, Env, FrameV};
use crate::native::{apply_native, spec_apply_native};
use crate::parser::{clone_expr, Atom, AtomV, Expr, ExprV, Lambda, LambdaV, List, NativeEnc};

verus! {

broadcast use vstd::std_specs::vec::group_vec_axioms;

/// An evaluation error. Every failure of the evaluator and of the native
/// procedures is one of these; none is a panic.
#[derive(Debug)]
pub enum EvalError {
    DottedList,
    UndefinedSymbol(String),
    TypeMismatch(String, Atom),
    ExprTypeMismatch(String, Expr),
    EmptyList,
    WrongNumOfArgs(usize, usize),
    DivisionByZero,
    RecursionLimit,
}

/// Spec-level view of an [`EvalError`].
#[verifier::ext_equal]
pub enum EvalErrV {
    DottedList,
    UndefinedSymbol(Seq<char>),
    TypeMismatch(Seq<char>, AtomV),
    ExprTypeMismatch(Seq<char>, ExprV),
    EmptyList,
    WrongNumOfArgs(int, int),
    DivisionByZero,
    RecursionLimit,
}

impl DeepView for EvalError {
    type V = EvalErrV;

    open spec fn deep_view(&self) -> EvalErrV {
        match self {
            EvalError::DottedList => EvalErrV::DottedList,
            EvalError::UndefinedSymbol(s) => EvalErrV::UndefinedSymbol(s@),
            EvalError::TypeMismatch(k, a) => EvalErrV::TypeMismatch(k@, a.deep_view()),
            EvalError::ExprTypeMismatch(k, e) => EvalErrV::ExprTypeMismatch(k@, e.deep_view()),
            EvalError::EmptyList => EvalErrV::EmptyList,
            EvalError::WrongNumOfArgs(a, b) => EvalErrV::WrongNumOfArgs(*a as int, *b as int),
            EvalError::DivisionByZero => EvalErrV::DivisionByZero,
            EvalError::RecursionLimit => EvalErrV::RecursionLimit,
        }
    }
}

/// Whether an executable evaluation outcome denotes the given spec-level
/// one.
pub open spec fn eval_result_matches(
    r: Result<Expr, EvalError>,
    s: Result<ExprV, EvalErrV>,
) -> bool {
    match (r, s) {
        (Ok(e), Ok(v)) => e.deep_view() == v,
        (Err(a), Err(b)) => a.deep_view() == b,
        _ => false,
    }
}

/// What evaluating one expression yields, and the arena it leaves behind.
pub open spec fn spec_eval_expr(e: ExprV, arena: Seq<FrameV>, frame: int, fuel: nat) -> (
    Result<ExprV, EvalErrV>,
    Seq<FrameV>,
)
    decreases fuel, 0int, 0int,
{
    if fuel == 0 {
        (Err(EvalErrV::RecursionLimit), arena)
    } else {
        match e {
            ExprV::Atom(a) => spec_eval_atom(a, arena, frame, (fuel - 1) as nat),
            ExprV::List(l) => spec_eval_list(l, arena, frame, (fuel - 1) as nat),
            ExprV::Quote(q) => (Ok(*q), arena),
            ExprV::Lambda(l) => (Ok(ExprV::Lambda(l)), arena),
            _ => (Err(EvalErrV::ExprTypeMismatch("atom, list, quote, lambda"@, e)), arena),
        }
    }
}

/// Atoms evaluate to themselves, except a symbol, which resolves through
/// the environment and whose resolved value is evaluated again — so a
/// binding may hold another expression, not only a final value.
pub open spec fn spec_eval_atom(a: AtomV, arena: Seq<FrameV>, frame: int, fuel: nat) -> (
    Result<ExprV, EvalErrV>,
    Seq<FrameV>,
)
    decreases fuel, 0int, 0int,
{
    if fuel == 0 {
        (Err(EvalErrV::RecursionLimit), arena)
    } else {
        match a {
            AtomV::Symbol(s) => match chain_get(arena, frame, s) {
                Some(v) => spec_eval_expr(v, arena, frame, (fuel - 1) as nat),
                None => (Err(EvalErrV::UndefinedSymbol(s)), arena),
            },
            _ => (Ok(ExprV::Atom(a)), arena),
        }
    }
}

/// A list evaluates its first element, which must come out as a native
/// procedure or a lambda; the remaining, still-unevaluated elements are
/// handed to it.
pub open spec fn spec_eval_list(l: Seq<ExprV>, arena: Seq<FrameV>, frame: int, fuel: nat) -> (
    Result<ExprV, EvalErrV>,
    Seq<FrameV>,
)
    decreases fuel, 0int, 0int,
{
    if fuel == 0 {
        (Err(EvalErrV::RecursionLimit), arena)
    } else if l.len() == 0 {
        (Err(EvalErrV::EmptyList), arena)
    } else {
        let (r, a1) = spec_eval_expr(l[0], arena, frame, (fuel - 1) as nat);
        match r {
            Ok(v) => match v {
                ExprV::Atom(AtomV::Native(op)) => spec_apply_native(
                    op,
                    l.skip(1),
                    a1,
                    frame,
                    (fuel - 1) as nat,
                ),
                ExprV::Lambda(lam) => spec_eval_lambda(lam, l.skip(1), a1, frame, (fuel - 1) as nat),
                ExprV::Atom(a) => (Err(EvalErrV::TypeMismatch("native, lambda"@, a)), a1),
                other => (Err(EvalErrV::ExprTypeMismatch("native, lambda"@, other)), a1),
            },
            Err(e) => (Err(e), a1),
        }
    }
}

/// Binds formal names to the corresponding still-unevaluated argument
/// atoms, in order, in the frame at `frame`. A non-atom argument is an
/// error; bindings made before it stay.
pub open spec fn spec_bind_formals(
    names: Seq<Seq<char>>,
    vals: Seq<ExprV>,
    arena: Seq<FrameV>,
    frame: int,
) -> (Option<EvalErrV>, Seq<FrameV>)
    decreases names.len(),
{
    if names.len() == 0 || vals.len() == 0 {
        (None, arena)
    } else {
        match vals[0] {
            ExprV::Atom(a) => spec_bind_formals(
                names.skip(1),
                vals.skip(1),
                crate::env::with_binding(arena, frame, names[0], ExprV::Atom(a)),
                frame,
            ),
            other => (Some(EvalErrV::ExprTypeMismatch("atom"@, other)), arena),
        }
    }
}

/// Applying a lambda: the trailing terminator of the argument list is
/// discarded, the argument count must equal the formal count, each formal
/// is bound to its *unevaluated* argument atom in a fresh frame, the fresh
/// frame's enclosing link is set to the frame the lambda captured where it
/// was created (lexical, not dynamic, scoping), and the body is evaluated
/// there in order, the last value returned.
pub open spec fn spec_eval_lambda(
    lam: LambdaV,
    args: Seq<ExprV>,
    arena: Seq<FrameV>,
    frame: int,
    fuel: nat,
) -> (Result<ExprV, EvalErrV>, Seq<FrameV>)
    decreases fuel, 0int, 0int,
{
    if fuel == 0 {
        (Err(EvalErrV::RecursionLimit), arena)
    } else if args.len() == 0 {
        (Err(EvalErrV::EmptyList), arena)
    } else {
        let vals = args.drop_last();
        if vals.len() != lam.args_list.len() {
            (Err(EvalErrV::WrongNumOfArgs(lam.args_list.len() as int, vals.len() as int)), arena)
        } else {
            let nf = arena.len() as int;
            let a1 = with_new_frame(arena, None);
            let (berr, a2) = spec_bind_formals(lam.args_list, vals, a1, nf);
            match berr {
                Some(e) => (Err(e), a2),
                None => {
                    let a3 = with_outer(a2, nf, lam.env);
                    spec_eval_body(lam.body, a3, nf, (fuel - 1) as nat)
                },
            }
        }
    }
}

/// A body of one or more expressions, evaluated in order; the last value is
/// returned. An empty body is an error, not a crash.
pub open spec fn spec_eval_body(body: Seq<ExprV>, arena: Seq<FrameV>, frame: int, fuel: nat) -> (
    Result<ExprV, EvalErrV>,
    Seq<FrameV>,
)
    decreases fuel, 0int, body.len(),
{
    if fuel == 0 {
        (Err(EvalErrV::RecursionLimit), arena)
    } else if body.len() == 0 {
        (Err(EvalErrV::EmptyList), arena)
    } else {
        let (r, a1) = spec_eval_expr(body[0], arena, frame, (fuel - 1) as nat);
        match r {
            Ok(v) => if body.len() == 1 {
                (Ok(v), a1)
            } else {
                spec_eval_body(body.skip(1), a1, frame, fuel)
            },
            Err(e) => (Err(e), a1),
        }
    }
}

/// The native `eval`: its properly terminated, single argument has already
/// been evaluated once by the caller protocol; evaluate it and then
/// evaluate the result — data as code.
pub open spec fn spec_eval(l: Seq<ExprV>, arena: Seq<FrameV>, frame: int, fuel: nat) -> (
    Result<ExprV, EvalErrV>,
    Seq<FrameV>,
)
    decreases fuel, 0int, 0int,
{
    if fuel == 0 {
        (Err(EvalErrV::RecursionLimit), arena)
    } else if l.len() == 0 {
        (Err(EvalErrV::EmptyList), arena)
    } else if l.last() != ExprV::Atom(AtomV::Nil) {
        (Err(EvalErrV::DottedList), arena)
    } else {
        let rest = l.drop_last();
        if rest.len() != 1 {
            (Err(EvalErrV::WrongNumOfArgs(1, rest.len() as int)), arena)
        } else {
            let (r, a1) = spec_eval_expr(rest[0], arena, frame, (fuel - 1) as nat);
            match r {
                Ok(v) => spec_eval_expr(v, a1, frame, (fuel - 1) as nat),
                Err(e) => (Err(e), a1),
            }
        }
    }
}

/// Evaluates one expression against the environment chain that starts at
/// `frame`, within a recursion budget of `fuel`.
pub fn eval_expr(exp: Expr, env: &mut Env, frame: usize, fuel: u64) -> (r: Result<Expr, EvalError>)
    ensures
        ({
            let (sr, sa) = spec_eval_expr(
                exp.deep_view(),
                old(env).deep_view(),
                frame as int,
                fuel as nat,
            );
            final(env).deep_view() == sa && eval_result_matches(r, sr)
        }),
    decreases fuel, 0int, 0int,
{
    broadcast use crate::parser::lemma_expr_view_list;

    if fuel == 0 {
        return Err(EvalError::RecursionLimit);
    }
    match exp {
        Expr::Atom(a) => eval_atom(*a, env, frame, fuel - 1),
        Expr::List(l) => eval_list(*l, env, frame, fuel - 1),
        Expr::Quote(q) => Ok(*q),
        Expr::Lambda(l) => Ok(Expr::Lambda(l)),
        other => Err(EvalError::ExprTypeMismatch("atom, list, quote, lambda".to_owned(), other)),
    }
}

/// Evaluates one atom: symbols resolve and re-evaluate; everything else is
/// itself.
pub fn eval_atom(atom: Atom, env: &mut Env, frame: usize, fuel: u64) -> (r: Result<
    Expr,
    EvalError,
>)
    ensures
        ({
            let (sr, sa) = spec_eval_atom(
                atom.deep_view(),
                old(env).deep_view(),
                frame as int,
                fuel as nat,
            );
            final(env).deep_view() == sa && eval_result_matches(r, sr)
        }),
    decreases fuel, 0int, 0int,
{
    if fuel == 0 {
        return Err(EvalError::RecursionLimit);
    }
    match atom {
        Atom::Symbol(s) => {
            match env.get(frame, s.as_str()) {
                Ok(e) => eval_expr(e, env, frame, fuel - 1),
                Err(_) => Err(EvalError::UndefinedSymbol(s)),
            }
        },
        other => Ok(Expr::Atom(Box::new(other))),
    }
}

/// Evaluates a list by applying its first element to the rest.
pub fn eval_list(list: List, env: &mut Env, frame: usize, fuel: u64) -> (r: Result<
    Expr,
    EvalError,
>)
    ensures
        ({
            let (sr, sa) = spec_eval_list(
                list.deep_view(),
                old(env).deep_view(),
                frame as int,
                fuel as nat,
            );
            final(env).deep_view() == sa && eval_result_matches(r, sr)
        }),
    decreases fuel, 0int, 0int,
{
    if fuel == 0 {
        return Err(EvalError::RecursionLimit);
    }
    let mut list = list;
    if list.len() == 0 {
        return Err(EvalError::EmptyList);
    }
    let ghost pre = list;
    let first = list.remove(0);
    proof {
        crate::env::lemma_deep_view_remove(pre, list, 0);
        assert(pre.deep_view().remove(0) =~= pre.deep_view().skip(1));
        assert(pre.deep_view()[0] == pre@[0].deep_view());
    }
    match eval_expr(first, env, frame, fuel - 1) {
        Ok(v) => match v {
            Expr::Atom(a) => {
                match *a {
                    Atom::Native(NativeEnc(op)) => apply_native(op, list, env, frame, fuel - 1),
                    other => Err(EvalError::TypeMismatch("native, lambda".to_owned(), other)),
                }
            },
            Expr::Lambda(l) => eval_lambda(*l, list, env, frame, fuel - 1),
            other => Err(EvalError::ExprTypeMismatch("native, lambda".to_owned(), other)),
        },
        Err(e) => Err(e),
    }
}

/// Applies a lambda to its still-unevaluated argument list.
#[verifier::loop_isolation(false)]
pub fn eval_lambda(lambda: Lambda, args: List, env: &mut Env, frame: usize, fuel: u64) -> (r:
    Result<Expr, EvalError>)
    ensures
        ({
            let (sr, sa) = spec_eval_lambda(
                lambda.deep_view(),
                args.deep_view(),
                old(env).deep_view(),
                frame as int,
                fuel as nat,
            );
            final(env).deep_view() == sa && eval_result_matches(r, sr)
        }),
    decreases fuel, 0int, 0int,
{
    broadcast use crate::parser::lemma_lambda_view;

    if fuel == 0 {
        return Err(EvalError::RecursionLimit);
    }
    let mut args = args;
    let ghost preargs = args;
    if args.len() == 0 {
        return Err(EvalError::EmptyList);
    }
    let _term = args.pop();
    proof {
        crate::parser::lemma_deep_view_drop_last(preargs, args);
    }
    if args.len() != lambda.args_list.len() {
        return Err(EvalError::WrongNumOfArgs(lambda.args_list.len(), args.len()));
    }
    let nf = env.new(None);
    let ghost names = lambda.args_list.deep_view();
    let ghost vals = args.deep_view();
    let ghost arena1 = env.deep_view();
    let n = args.len();
    let mut i: usize = 0;
    proof {
        assert(names.skip(0) =~= names);
        assert(vals.skip(0) =~= vals);
    }
    while i < n
        invariant
            i <= n,
            n == args@.len(),
            n == lambda.args_list@.len(),
            names == lambda.args_list.deep_view(),
            vals == args.deep_view(),
            nf < env.deep_view().len(),
            spec_bind_formals(names, vals, arena1, nf as int) == spec_bind_formals(
                names.skip(i as int),
                vals.skip(i as int),
                env.deep_view(),
                nf as int,
            ),
        decreases n - i,
    {
        proof {
            assert(vals[i as int] == args@[i as int].deep_view());
            assert(names[i as int] == lambda.args_list@[i as int].deep_view());
        }
        match &args[i] {
            Expr::Atom(_) => {
                let av = clone_expr(&args[i]);
                env.insert(nf, lambda.args_list[i].as_str(), av);
                proof {
                    assert(names.skip(i as int)[0] == names[i as int]);
                    assert(vals.skip(i as int)[0] == vals[i as int]);
                    assert(names.skip(i as int).skip(1) =~= names.skip(i + 1));
                    assert(vals.skip(i as int).skip(1) =~= vals.skip(i + 1));
                }
                i = i + 1;
            },
            _ => {
                let bad = clone_expr(&args[i]);
                proof {
                    assert(vals.skip(i as int)[0] == vals[i as int]);
                }
                return Err(EvalError::ExprTypeMismatch("atom".to_owned(), bad));
            },
        }
    }
    proof {
        assert(names.skip(n as int).len() == 0);
        assert(vals.skip(n as int).len() == 0);
        assert(spec_bind_formals(names, vals, arena1, nf as int) == (
            None::<EvalErrV>,
            env.deep_view(),
        ));
        assert(lambda.deep_view().body == lambda.body.deep_view());
        assert(lambda.deep_view().args_list == names);
    }
    let ghost a2 = env.deep_view();
    env.set_outer(nf, lambda.env);
    proof {
        assert(env.deep_view() == crate::env::with_outer(a2, nf as int, lambda.env as int));
    }
    eval_body(lambda.body, env, nf, fuel - 1)
}

/// Evaluates the expressions of a lambda body in order, returning the last
/// value.
fn eval_body(body: List, env: &mut Env, frame: usize, fuel: u64) -> (r: Result<Expr, EvalError>)
    ensures
        ({
            let (sr, sa) = spec_eval_body(
                body.deep_view(),
                old(env).deep_view(),
                frame as int,
                fuel as nat,
            );
            final(env).deep_view() == sa && eval_result_matches(r, sr)
        }),
    decreases fuel, 0int, body@.len(),
{
    if fuel == 0 {
        return Err(EvalError::RecursionLimit);
    }
    let mut body = body;
    if body.len() == 0 {
        return Err(EvalError::EmptyList);
    }
    let ghost pre = body;
    let first = body.remove(0);
    proof {
        crate::env::lemma_deep_view_remove(pre, body, 0);
        assert(pre.deep_view().remove(0) =~= pre.deep_view().skip(1));
        assert(pre.deep_view()[0] == pre@[0].deep_view());
    }
    match eval_expr(first, env, frame, fuel - 1) {
        Ok(v) => {
            if body.len() == 0 {
                Ok(v)
            } else {
                eval_body(body, env, frame, fuel)
            }
        },
        Err(e) => Err(e),
    }
}

/// The native `eval`: checks its properly terminated single argument and
/// evaluates it twice, so quoted data can be run as code.
pub fn eval(list: List, env: &mut Env, frame: usize, fuel: u64) -> (r: Result<Expr, EvalError>)
    ensures
        ({
            let (sr, sa) = spec_eval(
                list.deep_view(),
                old(env).deep_view(),
                frame as int,
                fuel as nat,
            );
            final(env).deep_view() == sa && eval_result_matches(r, sr)
        }),
    decreases fuel, 0int, 0int,
{
    if fuel == 0 {
        return Err(EvalError::RecursionLimit);
    }
    let mut list = list;
    let ghost pre = list;
    if list.len() == 0 {
        return Err(EvalError::EmptyList);
    }
    proof {
        assert(pre.deep_view().last() == pre@[pre@.len() - 1].deep_view());
    }
    let last = list.pop().unwrap();
    proof {
        crate::parser::lemma_deep_view_drop_last(pre, list);
    }
    match last {
        Expr::Atom(a) => {
            if !matches!(*a, Atom::Nil) {
                return Err(EvalError::DottedList);
            }
        },
        _ => {
            return Err(EvalError::DottedList);
        },
    }
    if list.len() != 1 {
        return Err(EvalError::WrongNumOfArgs(1, list.len()));
    }
    let ghost mid = list;
    let first = list.remove(0);
    proof {
        assert(mid.deep_view()[0] == mid@[0].deep_view());
    }
    match eval_expr(first, env, frame, fuel - 1) {
        Ok(v) => eval_expr(v, env, frame, fuel - 1),
        Err(e) => Err(e),
    }
}

} // verus!
