//! The native procedures. Each one receives the still-unevaluated argument
//! list (without the head that named it) and the environment, and decides
//! for itself what to evaluate: the arithmetic procedures, `cons`, `car`,
//! `cdr` and `eval` evaluate their arguments eagerly; `quote`, `define`,
//! `set!`, `lambda` and `if` evaluate only what their rules call for. All
//! share one calling convention with user lambdas.
//!
//! Arithmetic wraps around on 32-bit overflow; division truncates toward
//! zero, and a zero divisor is the recoverable `DivisionByZero` error.
use vstd::prelude::*;

use crate::env::{chain_find, with_assigned, with_binding, Env, FrameV};
use crate::evaluator::{
    eval_expr, eval_result_matches, spec_eval, spec_eval_expr, EvalErrV, EvalError,
};
use crate::parser::{clone_expr, Atom, AtomV, Expr, ExprV, Lambda, LambdaV, List, NativeFn};

verus! {

broadcast use vstd::std_specs::vec::group_vec_axioms;

/// The nil expression.
pub open spec fn nil_v() -> ExprV {
    ExprV::Atom(AtomV::Nil)
}

/// One division step: truncating division, where a zero divisor is an
/// error and the one overflowing quotient wraps.
pub open spec fn div_step(a: i32, b: i32) -> Result<i32, EvalErrV> {
    if b == 0 {
        Err(EvalErrV::DivisionByZero)
    } else {
        match a.checked_div(b) {
            Some(q) => Ok(q),
            None => Ok(i32::MIN),
        }
    }
}

/// The check every proper-list-only native starts with: the argument list
/// must be non-empty and end with the nil terminator.
pub open spec fn spec_check_nil(args: Seq<ExprV>) -> Option<EvalErrV> {
    if args.len() == 0 {
        Some(EvalErrV::EmptyList)
    } else if args.last() != nil_v() {
        Some(EvalErrV::DottedList)
    } else {
        None
    }
}

/// Truthiness: every value is true except the boolean false; nil is truthy.
pub open spec fn spec_as_bool(v: ExprV) -> bool {
    match v {
        ExprV::Atom(AtomV::Bool(b)) => b,
        _ => true,
    }
}

/// Dispatch of one native procedure over the still-unevaluated arguments.
pub open spec fn spec_apply_native(
    op: NativeFn,
    args: Seq<ExprV>,
    arena: Seq<FrameV>,
    frame: int,
    fuel: nat,
) -> (Result<ExprV, EvalErrV>, Seq<FrameV>)
    decreases fuel, 1int, 0int,
{
    match op {
        NativeFn::Add => spec_add(args, arena, frame, fuel),
        NativeFn::Sub => spec_sub(args, arena, frame, fuel),
        NativeFn::Mul => spec_mul(args, arena, frame, fuel),
        NativeFn::Div => spec_div(args, arena, frame, fuel),
        NativeFn::SetVar => spec_set(args, arena, frame, fuel),
        NativeFn::Define => spec_define(args, arena, frame, fuel),
        NativeFn::Inspect => spec_inspect(args, arena, frame, fuel),
        NativeFn::Eval => spec_eval(args, arena, frame, fuel),
        NativeFn::Quote => spec_quote(args, arena, frame, fuel),
        NativeFn::Cons => spec_cons(args, arena, frame, fuel),
        NativeFn::Lambda => spec_lambda(args, arena, frame, fuel),
        NativeFn::If => spec_ifcond(args, arena, frame, fuel),
        NativeFn::Car => spec_car(args, arena, frame, fuel),
        NativeFn::Cdr => spec_cdr(args, arena, frame, fuel),
    }
}

/// The sum fold: each argument evaluates to a number, added left to right
/// with wrap-around; the trailing nil terminator stops the fold.
pub open spec fn spec_add_loop(
    args: Seq<ExprV>,
    arena: Seq<FrameV>,
    frame: int,
    fuel: nat,
    acc: i32,
) -> (Result<ExprV, EvalErrV>, Seq<FrameV>)
    decreases fuel, 0int, args.len(),
{
    if fuel == 0 || args.len() == 0 {
        (Ok(ExprV::Atom(AtomV::Num(acc))), arena)
    } else {
        let (r, a1) = spec_eval_expr(args[0], arena, frame, (fuel - 1) as nat);
        match r {
            Ok(ExprV::Atom(AtomV::Num(x))) => spec_add_loop(
                args.skip(1),
                a1,
                frame,
                fuel,
                acc.wrapping_add(x),
            ),
            Ok(ExprV::Atom(AtomV::Nil)) => (Ok(ExprV::Atom(AtomV::Num(acc))), a1),
            Ok(ExprV::Atom(a)) => (Err(EvalErrV::TypeMismatch("number, nil"@, a)), a1),
            Ok(other) => (Err(EvalErrV::ExprTypeMismatch("atom"@, other)), a1),
            Err(e) => (Err(e), a1),
        }
    }
}

/// The native `+`.
pub open spec fn spec_add(args: Seq<ExprV>, arena: Seq<FrameV>, frame: int, fuel: nat) -> (
    Result<ExprV, EvalErrV>,
    Seq<FrameV>,
)
    decreases fuel, 0int, args.len() + 1,
{
    if fuel == 0 {
        (Err(EvalErrV::RecursionLimit), arena)
    } else {
        spec_add_loop(args, arena, frame, fuel, 0)
    }
}

/// The product fold, like the sum fold.
pub open spec fn spec_mul_loop(
    args: Seq<ExprV>,
    arena: Seq<FrameV>,
    frame: int,
    fuel: nat,
    acc: i32,
) -> (Result<ExprV, EvalErrV>, Seq<FrameV>)
    decreases fuel, 0int, args.len(),
{
    if fuel == 0 || args.len() == 0 {
        (Ok(ExprV::Atom(AtomV::Num(acc))), arena)
    } else {
        let (r, a1) = spec_eval_expr(args[0], arena, frame, (fuel - 1) as nat);
        match r {
            Ok(ExprV::Atom(AtomV::Num(x))) => spec_mul_loop(
                args.skip(1),
                a1,
                frame,
                fuel,
                acc.wrapping_mul(x),
            ),
            Ok(ExprV::Atom(AtomV::Nil)) => (Ok(ExprV::Atom(AtomV::Num(acc))), a1),
            Ok(ExprV::Atom(a)) => (Err(EvalErrV::TypeMismatch("number, nil"@, a)), a1),
            Ok(other) => (Err(EvalErrV::ExprTypeMismatch("atom"@, other)), a1),
            Err(e) => (Err(e), a1),
        }
    }
}

/// The native `*`.
pub open spec fn spec_mul(args: Seq<ExprV>, arena: Seq<FrameV>, frame: int, fuel: nat) -> (
    Result<ExprV, EvalErrV>,
    Seq<FrameV>,
)
    decreases fuel, 0int, args.len() + 1,
{
    if fuel == 0 {
        (Err(EvalErrV::RecursionLimit), arena)
    } else {
        spec_mul_loop(args, arena, frame, fuel, 1)
    }
}

/// The difference fold after the first two operands.
pub open spec fn spec_sub_loop(
    args: Seq<ExprV>,
    arena: Seq<FrameV>,
    frame: int,
    fuel: nat,
    acc: i32,
) -> (Result<ExprV, EvalErrV>, Seq<FrameV>)
    decreases fuel, 0int, args.len(),
{
    if fuel == 0 || args.len() == 0 {
        (Ok(ExprV::Atom(AtomV::Num(acc))), arena)
    } else {
        let (r, a1) = spec_eval_expr(args[0], arena, frame, (fuel - 1) as nat);
        match r {
            Ok(ExprV::Atom(AtomV::Num(x))) => spec_sub_loop(
                args.skip(1),
                a1,
                frame,
                fuel,
                acc.wrapping_sub(x),
            ),
            Ok(ExprV::Atom(AtomV::Nil)) => (Ok(ExprV::Atom(AtomV::Num(acc))), a1),
            Ok(ExprV::Atom(a)) => (Err(EvalErrV::TypeMismatch("number, nil"@, a)), a1),
            Ok(other) => (Err(EvalErrV::ExprTypeMismatch("atom"@, other)), a1),
            Err(e) => (Err(e), a1),
        }
    }
}

/// The native `-`: at least one operand; one operand negates; two or more
/// fold left to right.
pub open spec fn spec_sub(args: Seq<ExprV>, arena: Seq<FrameV>, frame: int, fuel: nat) -> (
    Result<ExprV, EvalErrV>,
    Seq<FrameV>,
)
    decreases fuel, 0int, args.len() + 1,
{
    if fuel == 0 {
        (Err(EvalErrV::RecursionLimit), arena)
    } else if args.len() == 0 {
        (Err(EvalErrV::EmptyList), arena)
    } else {
        let (r, a1) = spec_eval_expr(args[0], arena, frame, (fuel - 1) as nat);
        match r {
            Ok(ExprV::Atom(AtomV::Num(x))) => {
                if args.len() == 1 {
                    (Err(EvalErrV::EmptyList), a1)
                } else {
                    let (r2, a2) = spec_eval_expr(args[1], a1, frame, (fuel - 1) as nat);
                    match r2 {
                        Ok(ExprV::Atom(AtomV::Num(y))) => spec_sub_loop(
                            args.skip(2),
                            a2,
                            frame,
                            fuel,
                            x.wrapping_sub(y),
                        ),
                        Ok(ExprV::Atom(AtomV::Nil)) => (
                            Ok(ExprV::Atom(AtomV::Num((0 as i32).wrapping_sub(x)))),
                            a2,
                        ),
                        Ok(ExprV::Atom(a)) => (Err(EvalErrV::TypeMismatch("number, nil"@, a)), a2),
                        Ok(other) => (Err(EvalErrV::ExprTypeMismatch("atom"@, other)), a2),
                        Err(e) => (Err(e), a2),
                    }
                }
            },
            Ok(ExprV::Atom(a)) => (Err(EvalErrV::TypeMismatch("number"@, a)), a1),
            Ok(other) => (Err(EvalErrV::ExprTypeMismatch("atom"@, other)), a1),
            Err(e) => (Err(e), a1),
        }
    }
}

/// The quotient fold after the first two operands.
pub open spec fn spec_div_loop(
    args: Seq<ExprV>,
    arena: Seq<FrameV>,
    frame: int,
    fuel: nat,
    acc: i32,
) -> (Result<ExprV, EvalErrV>, Seq<FrameV>)
    decreases fuel, 0int, args.len(),
{
    if fuel == 0 || args.len() == 0 {
        (Ok(ExprV::Atom(AtomV::Num(acc))), arena)
    } else {
        let (r, a1) = spec_eval_expr(args[0], arena, frame, (fuel - 1) as nat);
        match r {
            Ok(ExprV::Atom(AtomV::Num(x))) => match div_step(acc, x) {
                Ok(q) => spec_div_loop(args.skip(1), a1, frame, fuel, q),
                Err(e) => (Err(e), a1),
            },
            Ok(ExprV::Atom(AtomV::Nil)) => (Ok(ExprV::Atom(AtomV::Num(acc))), a1),
            Ok(ExprV::Atom(a)) => (Err(EvalErrV::TypeMismatch("number, nil"@, a)), a1),
            Ok(other) => (Err(EvalErrV::ExprTypeMismatch("atom"@, other)), a1),
            Err(e) => (Err(e), a1),
        }
    }
}

/// The native `/`: at least one operand; one operand inverts (`1/x`); two
/// or more fold left to right with truncating division.
pub open spec fn spec_div(args: Seq<ExprV>, arena: Seq<FrameV>, frame: int, fuel: nat) -> (
    Result<ExprV, EvalErrV>,
    Seq<FrameV>,
)
    decreases fuel, 0int, args.len() + 1,
{
    if fuel == 0 {
        (Err(EvalErrV::RecursionLimit), arena)
    } else if args.len() == 0 {
        (Err(EvalErrV::EmptyList), arena)
    } else {
        let (r, a1) = spec_eval_expr(args[0], arena, frame, (fuel - 1) as nat);
        match r {
            Ok(ExprV::Atom(AtomV::Num(x))) => {
                if args.len() == 1 {
                    (Err(EvalErrV::EmptyList), a1)
                } else {
                    let (r2, a2) = spec_eval_expr(args[1], a1, frame, (fuel - 1) as nat);
                    match r2 {
                        Ok(ExprV::Atom(AtomV::Num(y))) => match div_step(x, y) {
                            Ok(q) => spec_div_loop(args.skip(2), a2, frame, fuel, q),
                            Err(e) => (Err(e), a2),
                        },
                        Ok(ExprV::Atom(AtomV::Nil)) => match div_step(1, x) {
                            Ok(q) => (Ok(ExprV::Atom(AtomV::Num(q))), a2),
                            Err(e) => (Err(e), a2),
                        },
                        Ok(ExprV::Atom(a)) => (Err(EvalErrV::TypeMismatch("number, nil"@, a)), a2),
                        Ok(other) => (Err(EvalErrV::ExprTypeMismatch("atom"@, other)), a2),
                        Err(e) => (Err(e), a2),
                    }
                }
            },
            Ok(ExprV::Atom(a)) => (Err(EvalErrV::TypeMismatch("number"@, a)), a1),
            Ok(other) => (Err(EvalErrV::ExprTypeMismatch("atom"@, other)), a1),
            Err(e) => (Err(e), a1),
        }
    }
}

/// The native `define`: binds a symbol to the evaluated value of its second
/// argument in the frame passed in, and returns the bound value. A quoted
/// result is unwrapped before binding.
pub open spec fn spec_define(args: Seq<ExprV>, arena: Seq<FrameV>, frame: int, fuel: nat) -> (
    Result<ExprV, EvalErrV>,
    Seq<FrameV>,
)
    decreases fuel, 0int, 0int,
{
    if fuel == 0 {
        (Err(EvalErrV::RecursionLimit), arena)
    } else if args.len() == 0 {
        (Err(EvalErrV::EmptyList), arena)
    } else {
        let car = args[0];
        let rest = args.skip(1);
        if rest.len() > 2 {
            (Err(EvalErrV::WrongNumOfArgs(2, rest.len() as int)), arena)
        } else {
            match car {
                ExprV::Atom(a) => match a {
                    AtomV::Symbol(s) => {
                        if rest.len() == 0 {
                            (Err(EvalErrV::EmptyList), arena)
                        } else {
                            let (r, a1) = spec_eval_expr(rest[0], arena, frame, (fuel - 1) as nat);
                            match r {
                                Ok(v) => match v {
                                    ExprV::Quote(q) => (
                                        Ok(*q),
                                        with_binding(a1, frame, s, *q),
                                    ),
                                    ExprV::Quasiquote(_) => (
                                        Err(EvalErrV::ExprTypeMismatch(
                                            "atom, list, quote, lambda"@,
                                            v,
                                        )),
                                        a1,
                                    ),
                                    ExprV::Unquote(_) => (
                                        Err(EvalErrV::ExprTypeMismatch(
                                            "atom, list, quote, lambda"@,
                                            v,
                                        )),
                                        a1,
                                    ),
                                    _ => (Ok(v), with_binding(a1, frame, s, v)),
                                },
                                Err(e) => (Err(e), a1),
                            }
                        }
                    },
                    _ => (Err(EvalErrV::TypeMismatch("symbol"@, a)), arena),
                },
                other => (Err(EvalErrV::ExprTypeMismatch("atom"@, other)), arena),
            }
        }
    }
}

/// The native `set!`: like `define`, but the symbol must already be bound
/// somewhere along the chain; the binding is overwritten where it lives.
pub open spec fn spec_set(args: Seq<ExprV>, arena: Seq<FrameV>, frame: int, fuel: nat) -> (
    Result<ExprV, EvalErrV>,
    Seq<FrameV>,
)
    decreases fuel, 0int, 0int,
{
    if fuel == 0 {
        (Err(EvalErrV::RecursionLimit), arena)
    } else if args.len() == 0 {
        (Err(EvalErrV::EmptyList), arena)
    } else {
        let car = args[0];
        let rest = args.skip(1);
        if rest.len() != 2 {
            (Err(EvalErrV::WrongNumOfArgs(2, rest.len() as int)), arena)
        } else {
            match car {
                ExprV::Atom(a) => match a {
                    AtomV::Symbol(s) => {
                        if chain_find(arena, frame, s) is None {
                            (Err(EvalErrV::UndefinedSymbol(s)), arena)
                        } else {
                            let (r, a1) = spec_eval_expr(rest[0], arena, frame, (fuel - 1) as nat);
                            match r {
                                Ok(v) => match v {
                                    ExprV::Quote(q) => (
                                        Ok(*q),
                                        with_assigned(a1, frame, s, *q),
                                    ),
                                    ExprV::Quasiquote(_) => (
                                        Err(EvalErrV::ExprTypeMismatch(
                                            "atom, list, quote, lambda"@,
                                            v,
                                        )),
                                        a1,
                                    ),
                                    ExprV::Unquote(_) => (
                                        Err(EvalErrV::ExprTypeMismatch(
                                            "atom, list, quote, lambda"@,
                                            v,
                                        )),
                                        a1,
                                    ),
                                    _ => (Ok(v), with_assigned(a1, frame, s, v)),
                                },
                                Err(e) => (Err(e), a1),
                            }
                        }
                    },
                    _ => (Err(EvalErrV::TypeMismatch("symbol"@, a)), arena),
                },
                other => (Err(EvalErrV::ExprTypeMismatch("atom"@, other)), arena),
            }
        }
    }
}

/// The native `quote`: its properly terminated single argument, returned
/// unevaluated.
pub open spec fn spec_quote(args: Seq<ExprV>, arena: Seq<FrameV>, frame: int, fuel: nat) -> (
    Result<ExprV, EvalErrV>,
    Seq<FrameV>,
)
    decreases fuel, 0int, 0int,
{
    if fuel == 0 {
        (Err(EvalErrV::RecursionLimit), arena)
    } else {
        match spec_check_nil(args) {
            Some(e) => (Err(e), arena),
            None => {
                let rest = args.drop_last();
                if rest.len() != 1 {
                    (Err(EvalErrV::WrongNumOfArgs(1, rest.len() as int)), arena)
                } else {
                    (Ok(rest[0]), arena)
                }
            },
        }
    }
}

/// The native `cons`: evaluates both arguments; a list second argument gets
/// the first prepended, anything else forms a two-element dotted pair.
pub open spec fn spec_cons(args: Seq<ExprV>, arena: Seq<FrameV>, frame: int, fuel: nat) -> (
    Result<ExprV, EvalErrV>,
    Seq<FrameV>,
)
    decreases fuel, 0int, 0int,
{
    if fuel == 0 {
        (Err(EvalErrV::RecursionLimit), arena)
    } else {
        match spec_check_nil(args) {
            Some(e) => (Err(e), arena),
            None => {
                let rest = args.drop_last();
                if rest.len() != 2 {
                    (Err(EvalErrV::WrongNumOfArgs(2, rest.len() as int)), arena)
                } else {
                    let (r1, a1) = spec_eval_expr(rest[0], arena, frame, (fuel - 1) as nat);
                    match r1 {
                        Ok(car) => {
                            let (r2, a2) = spec_eval_expr(rest[1], a1, frame, (fuel - 1) as nat);
                            match r2 {
                                Ok(cdr) => match cdr {
                                    ExprV::List(l) => (Ok(ExprV::List(seq![car] + l)), a2),
                                    _ => (Ok(ExprV::List(seq![car, cdr])), a2),
                                },
                                Err(e) => (Err(e), a2),
                            }
                        },
                        Err(e) => (Err(e), a1),
                    }
                }
            },
        }
    }
}

/// The formal-parameter names of a lambda's parameter list: symbols, with a
/// trailing nil for a fixed list or a trailing symbol for a catch-all.
pub open spec fn spec_formals(fl: Seq<ExprV>) -> Result<Seq<Seq<char>>, EvalErrV>
    decreases fl.len(),
{
    if fl.len() == 0 {
        Err(EvalErrV::EmptyList)
    } else {
        match fl[0] {
            ExprV::Atom(a) => {
                if fl.len() == 1 {
                    match a {
                        AtomV::Symbol(s) => Ok(seq![s]),
                        AtomV::Nil => Ok(Seq::empty()),
                        _ => Err(EvalErrV::TypeMismatch("symbol, nil"@, a)),
                    }
                } else {
                    match a {
                        AtomV::Symbol(s) => match spec_formals(fl.skip(1)) {
                            Ok(rest) => Ok(seq![s] + rest),
                            Err(e) => Err(e),
                        },
                        _ => Err(EvalErrV::TypeMismatch("symbol"@, a)),
                    }
                }
            },
            other => Err(EvalErrV::ExprTypeMismatch("atom"@, other)),
        }
    }
}

/// The native `lambda`: the first argument is the formal-parameter spec (a
/// list of symbols, possibly dotted, or one bare symbol), the rest is the
/// body. The lambda value captures the frame where the form was evaluated.
pub open spec fn spec_lambda(args: Seq<ExprV>, arena: Seq<FrameV>, frame: int, fuel: nat) -> (
    Result<ExprV, EvalErrV>,
    Seq<FrameV>,
)
    decreases fuel, 0int, 0int,
{
    if fuel == 0 {
        (Err(EvalErrV::RecursionLimit), arena)
    } else {
        match spec_check_nil(args) {
            Some(e) => (Err(e), arena),
            None => {
                let rest = args.drop_last();
                if rest.len() < 2 {
                    (Err(EvalErrV::WrongNumOfArgs(2, rest.len() as int)), arena)
                } else {
                    let body = rest.skip(1);
                    match rest[0] {
                        ExprV::List(fl) => match spec_formals(fl) {
                            Ok(names) => (
                                Ok(
                                    ExprV::Lambda(
                                        LambdaV { args_list: names, body, env: frame },
                                    ),
                                ),
                                arena,
                            ),
                            Err(e) => (Err(e), arena),
                        },
                        ExprV::Atom(a) => {
                            let names = match a {
                                AtomV::Symbol(s) => seq![s],
                                _ => Seq::empty(),
                            };
                            (
                                Ok(ExprV::Lambda(LambdaV { args_list: names, body, env: frame })),
                                arena,
                            )
                        },
                        _ => (Err(EvalErrV::TypeMismatch("list, atom"@, AtomV::Nil)), arena),
                    }
                }
            },
        }
    }
}

/// The native `if`: evaluates the test; anything but the boolean false is
/// truthy. Only the taken branch is evaluated; a missing else branch
/// yields nil.
pub open spec fn spec_ifcond(args: Seq<ExprV>, arena: Seq<FrameV>, frame: int, fuel: nat) -> (
    Result<ExprV, EvalErrV>,
    Seq<FrameV>,
)
    decreases fuel, 0int, 0int,
{
    if fuel == 0 {
        (Err(EvalErrV::RecursionLimit), arena)
    } else if args.len() == 0 {
        (Err(EvalErrV::EmptyList), arena)
    } else {
        let rest = args.drop_last();
        if rest.len() < 2 || rest.len() > 3 {
            let shown: int = if rest.len() == 0 {
                0
            } else {
                rest.len() - 1
            };
            (Err(EvalErrV::WrongNumOfArgs(3, shown)), arena)
        } else {
            let (r, a1) = spec_eval_expr(rest[0], arena, frame, (fuel - 1) as nat);
            match r {
                Ok(t) => if spec_as_bool(t) {
                    spec_eval_expr(rest[1], a1, frame, (fuel - 1) as nat)
                } else if rest.len() == 3 {
                    spec_eval_expr(rest[2], a1, frame, (fuel - 1) as nat)
                } else {
                    (Ok(nil_v()), a1)
                },
                Err(e) => (Err(e), a1),
            }
        }
    }
}

/// The native `car`: its single argument must evaluate to a list; the first
/// element is returned.
pub open spec fn spec_car(args: Seq<ExprV>, arena: Seq<FrameV>, frame: int, fuel: nat) -> (
    Result<ExprV, EvalErrV>,
    Seq<FrameV>,
)
    decreases fuel, 0int, 0int,
{
    if fuel == 0 {
        (Err(EvalErrV::RecursionLimit), arena)
    } else {
        match spec_check_nil(args) {
            Some(e) => (Err(e), arena),
            None => {
                let rest = args.drop_last();
                if rest.len() != 1 {
                    (Err(EvalErrV::WrongNumOfArgs(1, rest.len() as int)), arena)
                } else {
                    let (r, a1) = spec_eval_expr(rest[0], arena, frame, (fuel - 1) as nat);
                    match r {
                        Ok(ExprV::List(l)) => if l.len() == 0 {
                            (Err(EvalErrV::EmptyList), a1)
                        } else {
                            (Ok(l[0]), a1)
                        },
                        Ok(other) => (Err(EvalErrV::ExprTypeMismatch("list"@, other)), a1),
                        Err(e) => (Err(e), a1),
                    }
                }
            },
        }
    }
}

/// The native `cdr`: its single argument must evaluate to a list; the list
/// with the first element removed is returned.
pub open spec fn spec_cdr(args: Seq<ExprV>, arena: Seq<FrameV>, frame: int, fuel: nat) -> (
    Result<ExprV, EvalErrV>,
    Seq<FrameV>,
)
    decreases fuel, 0int, 0int,
{
    if fuel == 0 {
        (Err(EvalErrV::RecursionLimit), arena)
    } else {
        match spec_check_nil(args) {
            Some(e) => (Err(e), arena),
            None => {
                let rest = args.drop_last();
                if rest.len() != 1 {
                    (Err(EvalErrV::WrongNumOfArgs(1, rest.len() as int)), arena)
                } else {
                    let (r, a1) = spec_eval_expr(rest[0], arena, frame, (fuel - 1) as nat);
                    match r {
                        Ok(ExprV::List(l)) => if l.len() == 0 {
                            (Err(EvalErrV::EmptyList), a1)
                        } else {
                            (Ok(ExprV::List(l.skip(1))), a1)
                        },
                        Ok(other) => (Err(EvalErrV::ExprTypeMismatch("list"@, other)), a1),
                        Err(e) => (Err(e), a1),
                    }
                }
            },
        }
    }
}

/// The native `inspect`: returns nil. (Printing the environment is the
/// read loop's concern, outside the evaluator.)
pub open spec fn spec_inspect(args: Seq<ExprV>, arena: Seq<FrameV>, frame: int, fuel: nat) -> (
    Result<ExprV, EvalErrV>,
    Seq<FrameV>,
)
    decreases fuel, 0int, 0int,
{
    if fuel == 0 {
        (Err(EvalErrV::RecursionLimit), arena)
    } else {
        (Ok(nil_v()), arena)
    }
}

/// Pops the trailing terminator of a proper argument list, failing on an
/// empty list or on a dotted (non-nil-terminated) one.
fn pop_and_check_nil(list: &mut List) -> (r: Result<Expr, EvalError>)
    ensures
        match r {
            Ok(e) => spec_check_nil(old(list).deep_view()) is None && final(list).deep_view()
                == old(list).deep_view().drop_last() && e.deep_view() == old(
                list,
            ).deep_view().last(),
            Err(err) => spec_check_nil(old(list).deep_view()) == Some(err.deep_view()),
        },
{
    if list.len() == 0 {
        return Err(EvalError::EmptyList);
    }
    let ghost pre = *list;
    proof {
        assert(pre.deep_view().last() == pre@[pre@.len() - 1].deep_view());
    }
    let e = list.pop().unwrap();
    proof {
        crate::parser::lemma_deep_view_drop_last(pre, *list);
    }
    let is_nil = match &e {
        Expr::Atom(a) => matches!(**a, Atom::Nil),
        _ => false,
    };
    if is_nil {
        Ok(e)
    } else {
        Err(EvalError::DottedList)
    }
}

/// Truthiness of an evaluated value.
fn as_bool(expr: &Expr) -> (b: bool)
    ensures
        b == spec_as_bool(expr.deep_view()),
{
    match expr {
        Expr::Atom(a) => match &**a {
            Atom::Bool(b) => *b,
            _ => true,
        },
        _ => true,
    }
}

/// Dispatches one native procedure.
pub fn apply_native(op: NativeFn, args: List, env: &mut Env, frame: usize, fuel: u64) -> (r: Result<
    Expr,
    EvalError,
>)
    ensures
        ({
            let (sr, sa) = spec_apply_native(
                op,
                args.deep_view(),
                old(env).deep_view(),
                frame as int,
                fuel as nat,
            );
            final(env).deep_view() == sa && eval_result_matches(r, sr)
        }),
    decreases fuel, 1int, 0int,
{
    match op {
        NativeFn::Add => crate::native::add(args, env, frame, fuel),
        NativeFn::Sub => crate::native::sub(args, env, frame, fuel),
        NativeFn::Mul => crate::native::mul(args, env, frame, fuel),
        NativeFn::Div => div(args, env, frame, fuel),
        NativeFn::SetVar => set(args, env, frame, fuel),
        NativeFn::Define => define(args, env, frame, fuel),
        NativeFn::Inspect => inspect(args, env, frame, fuel),
        NativeFn::Eval => crate::evaluator::eval(args, env, frame, fuel),
        NativeFn::Quote => quote(args, env, frame, fuel),
        NativeFn::Cons => cons(args, env, frame, fuel),
        NativeFn::Lambda => lambda(args, env, frame, fuel),
        NativeFn::If => ifcond(args, env, frame, fuel),
        NativeFn::Car => car(args, env, frame, fuel),
        NativeFn::Cdr => cdr(args, env, frame, fuel),
    }
}

/// The native `+`: evaluates each argument to a number and folds them with
/// wrap-around addition, stopping at the trailing nil terminator.
#[verifier::loop_isolation(false)]
pub fn add(list: List, env: &mut Env, frame: usize, fuel: u64) -> (r: Result<Expr, EvalError>)
    ensures
        ({
            let (sr, sa) = spec_add(
                list.deep_view(),
                old(env).deep_view(),
                frame as int,
                fuel as nat,
            );
            final(env).deep_view() == sa && eval_result_matches(r, sr)
        }),
    decreases fuel, 0int, 0int,
{
    if fuel == 0 {
        return Err(EvalError::RecursionLimit);
    }
    let ghost args0 = list.deep_view();
    let ghost arena0 = env.deep_view();
    let mut list = list;
    let mut sum: i32 = 0;
    loop
        invariant
            spec_add_loop(args0, arena0, frame as int, fuel as nat, 0) == spec_add_loop(
                list.deep_view(),
                env.deep_view(),
                frame as int,
                fuel as nat,
                sum,
            ),
        decreases list@.len(),
    {
        if list.len() == 0 {
            return Ok(Expr::Atom(Box::new(Atom::Num(sum))));
        }
        let ghost pre = list;
        let exp = list.remove(0);
        proof {
            crate::env::lemma_deep_view_remove(pre, list, 0);
            assert(pre.deep_view().remove(0) =~= pre.deep_view().skip(1));
            assert(pre.deep_view()[0] == pre@[0].deep_view());
        }
        match eval_expr(exp, env, frame, fuel - 1) {
            Ok(Expr::Atom(a)) => {
                match *a {
                    Atom::Num(x) => {
                        sum = sum.wrapping_add(x);
                    },
                    Atom::Nil => {
                        return Ok(Expr::Atom(Box::new(Atom::Num(sum))));
                    },
                    other => {
                        return Err(EvalError::TypeMismatch("number, nil".to_owned(), other));
                    },
                }
            },
            Ok(other) => {
                return Err(EvalError::ExprTypeMismatch("atom".to_owned(), other));
            },
            Err(e) => {
                return Err(e);
            },
        }
    }
}

/// The native `*`: like `+`, folding with wrap-around multiplication from
/// one.
#[verifier::loop_isolation(false)]
pub fn mul(list: List, env: &mut Env, frame: usize, fuel: u64) -> (r: Result<Expr, EvalError>)
    ensures
        ({
            let (sr, sa) = spec_mul(
                list.deep_view(),
                old(env).deep_view(),
                frame as int,
                fuel as nat,
            );
            final(env).deep_view() == sa && eval_result_matches(r, sr)
        }),
    decreases fuel, 0int, 0int,
{
    if fuel == 0 {
        return Err(EvalError::RecursionLimit);
    }
    let ghost args0 = list.deep_view();
    let ghost arena0 = env.deep_view();
    let mut list = list;
    let mut res: i32 = 1;
    loop
        invariant
            spec_mul_loop(args0, arena0, frame as int, fuel as nat, 1) == spec_mul_loop(
                list.deep_view(),
                env.deep_view(),
                frame as int,
                fuel as nat,
                res,
            ),
        decreases list@.len(),
    {
        if list.len() == 0 {
            return Ok(Expr::Atom(Box::new(Atom::Num(res))));
        }
        let ghost pre = list;
        let exp = list.remove(0);
        proof {
            crate::env::lemma_deep_view_remove(pre, list, 0);
            assert(pre.deep_view().remove(0) =~= pre.deep_view().skip(1));
            assert(pre.deep_view()[0] == pre@[0].deep_view());
        }
        match eval_expr(exp, env, frame, fuel - 1) {
            Ok(Expr::Atom(a)) => {
                match *a {
                    Atom::Num(x) => {
                        res = res.wrapping_mul(x);
                    },
                    Atom::Nil => {
                        return Ok(Expr::Atom(Box::new(Atom::Num(res))));
                    },
                    other => {
                        return Err(EvalError::TypeMismatch("number, nil".to_owned(), other));
                    },
                }
            },
            Ok(other) => {
                return Err(EvalError::ExprTypeMismatch("atom".to_owned(), other));
            },
            Err(e) => {
                return Err(e);
            },
        }
    }
}

/// The native `-`: needs at least one operand; one operand negates; more
/// fold left to right with wrap-around subtraction.
#[verifier::loop_isolation(false)]
pub fn sub(list: List, env: &mut Env, frame: usize, fuel: u64) -> (r: Result<Expr, EvalError>)
    ensures
        ({
            let (sr, sa) = spec_sub(
                list.deep_view(),
                old(env).deep_view(),
                frame as int,
                fuel as nat,
            );
            final(env).deep_view() == sa && eval_result_matches(r, sr)
        }),
    decreases fuel, 0int, 0int,
{
    if fuel == 0 {
        return Err(EvalError::RecursionLimit);
    }
    let ghost args0 = list.deep_view();
    let mut list = list;
    if list.len() == 0 {
        return Err(EvalError::EmptyList);
    }
    let ghost pre0 = list;
    let car0 = list.remove(0);
    proof {
        crate::env::lemma_deep_view_remove(pre0, list, 0);
        assert(pre0.deep_view().remove(0) =~= pre0.deep_view().skip(1));
        assert(pre0.deep_view()[0] == pre0@[0].deep_view());
    }
    let x = match eval_expr(car0, env, frame, fuel - 1) {
        Ok(Expr::Atom(a)) => {
            match *a {
                Atom::Num(x) => x,
                other => {
                    return Err(EvalError::TypeMismatch("number".to_owned(), other));
                },
            }
        },
        Ok(other) => {
            return Err(EvalError::ExprTypeMismatch("atom".to_owned(), other));
        },
        Err(e) => {
            return Err(e);
        },
    };
    if list.len() == 0 {
        return Err(EvalError::EmptyList);
    }
    let ghost pre1 = list;
    let next = list.remove(0);
    proof {
        crate::env::lemma_deep_view_remove(pre1, list, 0);
        assert(pre1.deep_view().remove(0) =~= pre1.deep_view().skip(1));
        assert(pre1.deep_view()[0] == pre1@[0].deep_view());
        assert(pre1.deep_view()[0] == args0[1]);
        assert(list.deep_view() =~= args0.skip(2));
    }
    let mut acc = match eval_expr(next, env, frame, fuel - 1) {
        Ok(Expr::Atom(a)) => {
            match *a {
                Atom::Num(y) => x.wrapping_sub(y),
                Atom::Nil => {
                    return Ok(Expr::Atom(Box::new(Atom::Num((0 as i32).wrapping_sub(x)))));
                },
                other => {
                    return Err(EvalError::TypeMismatch("number, nil".to_owned(), other));
                },
            }
        },
        Ok(other) => {
            return Err(EvalError::ExprTypeMismatch("atom".to_owned(), other));
        },
        Err(e) => {
            return Err(e);
        },
    };
    let ghost tail0 = list.deep_view();
    let ghost arena2 = env.deep_view();
    let ghost acc0 = acc;
    loop
        invariant
            spec_sub_loop(tail0, arena2, frame as int, fuel as nat, acc0) == spec_sub_loop(
                list.deep_view(),
                env.deep_view(),
                frame as int,
                fuel as nat,
                acc,
            ),
        decreases list@.len(),
    {
        if list.len() == 0 {
            return Ok(Expr::Atom(Box::new(Atom::Num(acc))));
        }
        let ghost pre = list;
        let exp = list.remove(0);
        proof {
            crate::env::lemma_deep_view_remove(pre, list, 0);
            assert(pre.deep_view().remove(0) =~= pre.deep_view().skip(1));
            assert(pre.deep_view()[0] == pre@[0].deep_view());
        }
        match eval_expr(exp, env, frame, fuel - 1) {
            Ok(Expr::Atom(a)) => {
                match *a {
                    Atom::Num(x2) => {
                        acc = acc.wrapping_sub(x2);
                    },
                    Atom::Nil => {
                        return Ok(Expr::Atom(Box::new(Atom::Num(acc))));
                    },
                    other => {
                        return Err(EvalError::TypeMismatch("number, nil".to_owned(), other));
                    },
                }
            },
            Ok(other) => {
                return Err(EvalError::ExprTypeMismatch("atom".to_owned(), other));
            },
            Err(e) => {
                return Err(e);
            },
        }
    }
}

/// The native `/`: needs at least one operand; one operand inverts; more
/// fold left to right with truncating division. A zero divisor is the
/// `DivisionByZero` error.
#[verifier::loop_isolation(false)]
pub fn div(list: List, env: &mut Env, frame: usize, fuel: u64) -> (r: Result<Expr, EvalError>)
    ensures
        ({
            let (sr, sa) = spec_div(
                list.deep_view(),
                old(env).deep_view(),
                frame as int,
                fuel as nat,
            );
            final(env).deep_view() == sa && eval_result_matches(r, sr)
        }),
    decreases fuel, 0int, 0int,
{
    if fuel == 0 {
        return Err(EvalError::RecursionLimit);
    }
    let ghost args0 = list.deep_view();
    let mut list = list;
    if list.len() == 0 {
        return Err(EvalError::EmptyList);
    }
    let ghost pre0 = list;
    let car0 = list.remove(0);
    proof {
        crate::env::lemma_deep_view_remove(pre0, list, 0);
        assert(pre0.deep_view().remove(0) =~= pre0.deep_view().skip(1));
        assert(pre0.deep_view()[0] == pre0@[0].deep_view());
    }
    let x = match eval_expr(car0, env, frame, fuel - 1) {
        Ok(Expr::Atom(a)) => {
            match *a {
                Atom::Num(x) => x,
                other => {
                    return Err(EvalError::TypeMismatch("number".to_owned(), other));
                },
            }
        },
        Ok(other) => {
            return Err(EvalError::ExprTypeMismatch("atom".to_owned(), other));
        },
        Err(e) => {
            return Err(e);
        },
    };
    if list.len() == 0 {
        return Err(EvalError::EmptyList);
    }
    let ghost pre1 = list;
    let next = list.remove(0);
    proof {
        crate::env::lemma_deep_view_remove(pre1, list, 0);
        assert(pre1.deep_view().remove(0) =~= pre1.deep_view().skip(1));
        assert(pre1.deep_view()[0] == pre1@[0].deep_view());
        assert(pre1.deep_view()[0] == args0[1]);
        assert(list.deep_view() =~= args0.skip(2));
    }
    let mut acc = match eval_expr(next, env, frame, fuel - 1) {
        Ok(Expr::Atom(a)) => {
            match *a {
                Atom::Num(y) => {
                    match x.checked_div(y) {
                        Some(q) => q,
                        None => {
                            if y == 0 {
                                return Err(EvalError::DivisionByZero);
                            } else {
                                i32::MIN
                            }
                        },
                    }
                },
                Atom::Nil => {
                    let q = match (1 as i32).checked_div(x) {
                        Some(q) => q,
                        None => {
                            return Err(EvalError::DivisionByZero);
                        },
                    };
                    return Ok(Expr::Atom(Box::new(Atom::Num(q))));
                },
                other => {
                    return Err(EvalError::TypeMismatch("number, nil".to_owned(), other));
                },
            }
        },
        Ok(other) => {
            return Err(EvalError::ExprTypeMismatch("atom".to_owned(), other));
        },
        Err(e) => {
            return Err(e);
        },
    };
    let ghost tail0 = list.deep_view();
    let ghost arena2 = env.deep_view();
    let ghost acc0 = acc;
    loop
        invariant
            spec_div_loop(tail0, arena2, frame as int, fuel as nat, acc0) == spec_div_loop(
                list.deep_view(),
                env.deep_view(),
                frame as int,
                fuel as nat,
                acc,
            ),
        decreases list@.len(),
    {
        if list.len() == 0 {
            return Ok(Expr::Atom(Box::new(Atom::Num(acc))));
        }
        let ghost pre = list;
        let exp = list.remove(0);
        proof {
            crate::env::lemma_deep_view_remove(pre, list, 0);
            assert(pre.deep_view().remove(0) =~= pre.deep_view().skip(1));
            assert(pre.deep_view()[0] == pre@[0].deep_view());
        }
        match eval_expr(exp, env, frame, fuel - 1) {
            Ok(Expr::Atom(a)) => {
                match *a {
                    Atom::Num(x2) => {
                        match acc.checked_div(x2) {
                            Some(q) => {
                                acc = q;
                            },
                            None => {
                                if x2 == 0 {
                                    return Err(EvalError::DivisionByZero);
                                } else {
                                    acc = i32::MIN;
                                }
                            },
                        }
                    },
                    Atom::Nil => {
                        return Ok(Expr::Atom(Box::new(Atom::Num(acc))));
                    },
                    other => {
                        return Err(EvalError::TypeMismatch("number, nil".to_owned(), other));
                    },
                }
            },
            Ok(other) => {
                return Err(EvalError::ExprTypeMismatch("atom".to_owned(), other));
            },
            Err(e) => {
                return Err(e);
            },
        }
    }
}

/// The native `define`.
pub fn define(list: List, env: &mut Env, frame: usize, fuel: u64) -> (r: Result<Expr, EvalError>)
    ensures
        ({
            let (sr, sa) = spec_define(
                list.deep_view(),
                old(env).deep_view(),
                frame as int,
                fuel as nat,
            );
            final(env).deep_view() == sa && eval_result_matches(r, sr)
        }),
    decreases fuel, 0int, 0int,
{
    if fuel == 0 {
        return Err(EvalError::RecursionLimit);
    }
    let mut list = list;
    if list.len() == 0 {
        return Err(EvalError::EmptyList);
    }
    let ghost pre = list;
    let car0 = list.remove(0);
    proof {
        crate::env::lemma_deep_view_remove(pre, list, 0);
        assert(pre.deep_view().remove(0) =~= pre.deep_view().skip(1));
        assert(pre.deep_view()[0] == pre@[0].deep_view());
    }
    if list.len() > 2 {
        return Err(EvalError::WrongNumOfArgs(2, list.len()));
    }
    let sym = match car0 {
        Expr::Atom(a) => *a,
        other => {
            return Err(EvalError::ExprTypeMismatch("atom".to_owned(), other));
        },
    };
    let s = match sym {
        Atom::Symbol(s) => s,
        other => {
            return Err(EvalError::TypeMismatch("symbol".to_owned(), other));
        },
    };
    if list.len() == 0 {
        return Err(EvalError::EmptyList);
    }
    let ghost pre2 = list;
    let cdr0 = list.remove(0);
    proof {
        assert(pre2.deep_view()[0] == pre2@[0].deep_view());
    }
    match eval_expr(cdr0, env, frame, fuel - 1) {
        Ok(v) => {
            match v {
                Expr::Quote(q) => {
                    let stored = *q;
                    let ret = clone_expr(&stored);
                    env.insert(frame, s.as_str(), stored);
                    Ok(ret)
                },
                Expr::Quasiquote(q) => Err(
                    EvalError::ExprTypeMismatch(
                        "atom, list, quote, lambda".to_owned(),
                        Expr::Quasiquote(q),
                    ),
                ),
                Expr::Unquote(q) => Err(
                    EvalError::ExprTypeMismatch(
                        "atom, list, quote, lambda".to_owned(),
                        Expr::Unquote(q),
                    ),
                ),
                other => {
                    let ret = clone_expr(&other);
                    env.insert(frame, s.as_str(), other);
                    Ok(ret)
                },
            }
        },
        Err(e) => Err(e),
    }
}

/// The native `set!`.
pub fn set(list: List, env: &mut Env, frame: usize, fuel: u64) -> (r: Result<Expr, EvalError>)
    ensures
        ({
            let (sr, sa) = spec_set(
                list.deep_view(),
                old(env).deep_view(),
                frame as int,
                fuel as nat,
            );
            final(env).deep_view() == sa && eval_result_matches(r, sr)
        }),
    decreases fuel, 0int, 0int,
{
    if fuel == 0 {
        return Err(EvalError::RecursionLimit);
    }
    let mut list = list;
    if list.len() == 0 {
        return Err(EvalError::EmptyList);
    }
    let ghost pre = list;
    let car0 = list.remove(0);
    proof {
        crate::env::lemma_deep_view_remove(pre, list, 0);
        assert(pre.deep_view().remove(0) =~= pre.deep_view().skip(1));
        assert(pre.deep_view()[0] == pre@[0].deep_view());
    }
    if list.len() != 2 {
        return Err(EvalError::WrongNumOfArgs(2, list.len()));
    }
    let sym = match car0 {
        Expr::Atom(a) => *a,
        other => {
            return Err(EvalError::ExprTypeMismatch("atom".to_owned(), other));
        },
    };
    let s = match sym {
        Atom::Symbol(s) => s,
        other => {
            return Err(EvalError::TypeMismatch("symbol".to_owned(), other));
        },
    };
    if !env.contains_symbol(frame, s.as_str()) {
        return Err(EvalError::UndefinedSymbol(s));
    }
    let ghost pre2 = list;
    let val0 = list.remove(0);
    proof {
        assert(pre2.deep_view()[0] == pre2@[0].deep_view());
    }
    match eval_expr(val0, env, frame, fuel - 1) {
        Ok(v) => {
            match v {
                Expr::Quote(q) => {
                    let stored = *q;
                    let ret = clone_expr(&stored);
                    env.set(frame, s.as_str(), stored);
                    Ok(ret)
                },
                Expr::Quasiquote(q) => Err(
                    EvalError::ExprTypeMismatch(
                        "atom, list, quote, lambda".to_owned(),
                        Expr::Quasiquote(q),
                    ),
                ),
                Expr::Unquote(q) => Err(
                    EvalError::ExprTypeMismatch(
                        "atom, list, quote, lambda".to_owned(),
                        Expr::Unquote(q),
                    ),
                ),
                other => {
                    let ret = clone_expr(&other);
                    env.set(frame, s.as_str(), other);
                    Ok(ret)
                },
            }
        },
        Err(e) => Err(e),
    }
}

/// The native `quote`.
pub fn quote(list: List, env: &mut Env, frame: usize, fuel: u64) -> (r: Result<Expr, EvalError>)
    ensures
        ({
            let (sr, sa) = spec_quote(
                list.deep_view(),
                old(env).deep_view(),
                frame as int,
                fuel as nat,
            );
            final(env).deep_view() == sa && eval_result_matches(r, sr)
        }),
    decreases fuel, 0int, 0int,
{
    if fuel == 0 {
        return Err(EvalError::RecursionLimit);
    }
    let mut list = list;
    match pop_and_check_nil(&mut list) {
        Ok(_) => (),
        Err(e) => {
            return Err(e);
        },
    }
    if list.len() != 1 {
        return Err(EvalError::WrongNumOfArgs(1, list.len()));
    }
    let ghost pre = list;
    let e = list.remove(0);
    proof {
        assert(pre.deep_view()[0] == pre@[0].deep_view());
    }
    Ok(e)
}

/// The native `cons`.
pub fn cons(list: List, env: &mut Env, frame: usize, fuel: u64) -> (r: Result<Expr, EvalError>)
    ensures
        ({
            let (sr, sa) = spec_cons(
                list.deep_view(),
                old(env).deep_view(),
                frame as int,
                fuel as nat,
            );
            final(env).deep_view() == sa && eval_result_matches(r, sr)
        }),
    decreases fuel, 0int, 0int,
{
    broadcast use crate::parser::lemma_expr_view_list;

    if fuel == 0 {
        return Err(EvalError::RecursionLimit);
    }
    let mut list = list;
    match pop_and_check_nil(&mut list) {
        Ok(_) => (),
        Err(e) => {
            return Err(e);
        },
    }
    if list.len() != 2 {
        return Err(EvalError::WrongNumOfArgs(2, list.len()));
    }
    let ghost pre = list;
    let car0 = list.remove(0);
    proof {
        crate::env::lemma_deep_view_remove(pre, list, 0);
        assert(pre.deep_view().remove(0) =~= pre.deep_view().skip(1));
        assert(pre.deep_view()[0] == pre@[0].deep_view());
    }
    let ghost pre2 = list;
    let cdr0 = list.remove(0);
    proof {
        assert(pre2.deep_view()[0] == pre2@[0].deep_view());
    }
    let carv = match eval_expr(car0, env, frame, fuel - 1) {
        Ok(v) => v,
        Err(e) => {
            return Err(e);
        },
    };
    let cdrv = match eval_expr(cdr0, env, frame, fuel - 1) {
        Ok(v) => v,
        Err(e) => {
            return Err(e);
        },
    };
    match cdrv {
        Expr::List(l) => {
            let mut lv = *l;
            let ghost prelv = lv;
            let ghost gcar = carv;
            lv.insert(0, carv);
            proof {
                crate::env::lemma_deep_view_insert(prelv, lv, 0, gcar);
                assert(lv.deep_view() =~= seq![gcar.deep_view()] + prelv.deep_view());
            }
            Ok(Expr::List(Box::new(lv)))
        },
        other => {
            let mut nl: List = Vec::new();
            let ghost gcar = carv;
            let ghost gcdr = other;
            nl.push(carv);
            nl.push(other);
            proof {
                assert(nl.deep_view() =~= seq![gcar.deep_view(), gcdr.deep_view()]);
            }
            Ok(Expr::List(Box::new(nl)))
        },
    }
}

/// The formal-parameter names of a lambda's parameter list.
fn collect_formals(fl: List) -> (r: Result<Vec<String>, EvalError>)
    ensures
        match r {
            Ok(v) => spec_formals(fl.deep_view()) == Ok::<Seq<Seq<char>>, EvalErrV>(v.deep_view()),
            Err(e) => spec_formals(fl.deep_view()) == Err::<Seq<Seq<char>>, EvalErrV>(
                e.deep_view(),
            ),
        },
    decreases fl@.len(),
{
    let mut fl = fl;
    if fl.len() == 0 {
        return Err(EvalError::EmptyList);
    }
    let ghost pre = fl;
    let first = fl.remove(0);
    proof {
        crate::env::lemma_deep_view_remove(pre, fl, 0);
        assert(pre.deep_view().remove(0) =~= pre.deep_view().skip(1));
        assert(pre.deep_view()[0] == pre@[0].deep_view());
    }
    match first {
        Expr::Atom(a) => {
            if fl.len() == 0 {
                match *a {
                    Atom::Symbol(s) => {
                        let ghost gs = s@;
                        let mut v: Vec<String> = Vec::new();
                        v.push(s);
                        proof {
                            assert(v.deep_view() =~= seq![gs]);
                        }
                        Ok(v)
                    },
                    Atom::Nil => {
                        let v: Vec<String> = Vec::new();
                        proof {
                            assert(v.deep_view() =~= Seq::<Seq<char>>::empty());
                        }
                        Ok(v)
                    },
                    other => Err(EvalError::TypeMismatch("symbol, nil".to_owned(), other)),
                }
            } else {
                match *a {
                    Atom::Symbol(s) => {
                        match collect_formals(fl) {
                            Ok(rest) => {
                                let ghost gs = s@;
                                let mut v = rest;
                                let ghost prev = v;
                                v.insert(0, s);
                                proof {
                                    crate::env::lemma_deep_view_insert(prev, v, 0, v@[0]);
                                    assert(v.deep_view() =~= seq![gs] + prev.deep_view());
                                }
                                Ok(v)
                            },
                            Err(e) => Err(e),
                        }
                    },
                    other => Err(EvalError::TypeMismatch("symbol".to_owned(), other)),
                }
            }
        },
        other => Err(EvalError::ExprTypeMismatch("atom".to_owned(), other)),
    }
}

/// The native `lambda`.
pub fn lambda(list: List, env: &mut Env, frame: usize, fuel: u64) -> (r: Result<Expr, EvalError>)
    ensures
        ({
            let (sr, sa) = spec_lambda(
                list.deep_view(),
                old(env).deep_view(),
                frame as int,
                fuel as nat,
            );
            final(env).deep_view() == sa && eval_result_matches(r, sr)
        }),
    decreases fuel, 0int, 0int,
{
    broadcast use crate::parser::lemma_expr_view_list, crate::parser::lemma_lambda_view;

    if fuel == 0 {
        return Err(EvalError::RecursionLimit);
    }
    let mut list = list;
    match pop_and_check_nil(&mut list) {
        Ok(_) => (),
        Err(e) => {
            return Err(e);
        },
    }
    if list.len() < 2 {
        return Err(EvalError::WrongNumOfArgs(2, list.len()));
    }
    let ghost pre = list;
    let formals = list.remove(0);
    proof {
        crate::env::lemma_deep_view_remove(pre, list, 0);
        assert(pre.deep_view().remove(0) =~= pre.deep_view().skip(1));
        assert(pre.deep_view()[0] == pre@[0].deep_view());
    }
    let names: Vec<String> = match formals {
        Expr::List(fl) => {
            match collect_formals(*fl) {
                Ok(ns) => ns,
                Err(e) => {
                    return Err(e);
                },
            }
        },
        Expr::Atom(a) => {
            match *a {
                Atom::Symbol(s) => {
                    let ghost gs = s@;
                    let mut v: Vec<String> = Vec::new();
                    v.push(s);
                    proof {
                        assert(v.deep_view() =~= seq![gs]);
                    }
                    v
                },
                _ => {
                    let v: Vec<String> = Vec::new();
                    proof {
                        assert(v.deep_view() =~= Seq::<Seq<char>>::empty());
                    }
                    v
                },
            }
        },
        _ => {
            return Err(EvalError::TypeMismatch("list, atom".to_owned(), Atom::Nil));
        },
    };
    let lam = Lambda { args_list: names, body: list, env: frame };
    let ghost glam = lam;
    proof {
        assert(glam.deep_view().body == list.deep_view());
        assert(glam.deep_view().args_list == names.deep_view());
    }
    Ok(Expr::Lambda(Box::new(lam)))
}

/// The native `if`.
pub fn ifcond(list: List, env: &mut Env, frame: usize, fuel: u64) -> (r: Result<Expr, EvalError>)
    ensures
        ({
            let (sr, sa) = spec_ifcond(
                list.deep_view(),
                old(env).deep_view(),
                frame as int,
                fuel as nat,
            );
            final(env).deep_view() == sa && eval_result_matches(r, sr)
        }),
    decreases fuel, 0int, 0int,
{
    if fuel == 0 {
        return Err(EvalError::RecursionLimit);
    }
    let mut list = list;
    if list.len() == 0 {
        return Err(EvalError::EmptyList);
    }
    let ghost pre = list;
    let _term = list.pop();
    proof {
        crate::parser::lemma_deep_view_drop_last(pre, list);
    }
    if list.len() < 2 || list.len() > 3 {
        let shown: usize = if list.len() == 0 {
            0
        } else {
            list.len() - 1
        };
        return Err(EvalError::WrongNumOfArgs(3, shown));
    }
    let ghost rest = list.deep_view();
    let ghost pre2 = list;
    let test = list.remove(0);
    proof {
        crate::env::lemma_deep_view_remove(pre2, list, 0);
        assert(pre2.deep_view().remove(0) =~= pre2.deep_view().skip(1));
        assert(pre2.deep_view()[0] == pre2@[0].deep_view());
    }
    let t = match eval_expr(test, env, frame, fuel - 1) {
        Ok(t) => t,
        Err(e) => {
            return Err(e);
        },
    };
    if as_bool(&t) {
        let ghost pre3 = list;
        let th = list.remove(0);
        proof {
            assert(pre3.deep_view()[0] == pre3@[0].deep_view());
        }
        eval_expr(th, env, frame, fuel - 1)
    } else if list.len() == 2 {
        let ghost pre3 = list;
        proof {
            assert(pre3.deep_view().last() == pre3@[pre3@.len() - 1].deep_view());
        }
        let el = list.pop().unwrap();
        eval_expr(el, env, frame, fuel - 1)
    } else {
        Ok(Expr::Atom(Box::new(Atom::Nil)))
    }
}

/// The native `car`.
pub fn car(list: List, env: &mut Env, frame: usize, fuel: u64) -> (r: Result<Expr, EvalError>)
    ensures
        ({
            let (sr, sa) = spec_car(
                list.deep_view(),
                old(env).deep_view(),
                frame as int,
                fuel as nat,
            );
            final(env).deep_view() == sa && eval_result_matches(r, sr)
        }),
    decreases fuel, 0int, 0int,
{
    broadcast use crate::parser::lemma_expr_view_list;

    if fuel == 0 {
        return Err(EvalError::RecursionLimit);
    }
    let mut list = list;
    match pop_and_check_nil(&mut list) {
        Ok(_) => (),
        Err(e) => {
            return Err(e);
        },
    }
    if list.len() != 1 {
        return Err(EvalError::WrongNumOfArgs(1, list.len()));
    }
    let ghost pre = list;
    let e0 = list.remove(0);
    proof {
        assert(pre.deep_view()[0] == pre@[0].deep_view());
    }
    match eval_expr(e0, env, frame, fuel - 1) {
        Ok(Expr::List(l)) => {
            let mut lv = *l;
            if lv.len() == 0 {
                return Err(EvalError::EmptyList);
            }
            let ghost prelv = lv;
            let first = lv.remove(0);
            proof {
                assert(prelv.deep_view()[0] == prelv@[0].deep_view());
            }
            Ok(first)
        },
        Ok(other) => Err(EvalError::ExprTypeMismatch("list".to_owned(), other)),
        Err(e) => Err(e),
    }
}

/// The native `cdr`.
pub fn cdr(list: List, env: &mut Env, frame: usize, fuel: u64) -> (r: Result<Expr, EvalError>)
    ensures
        ({
            let (sr, sa) = spec_cdr(
                list.deep_view(),
                old(env).deep_view(),
                frame as int,
                fuel as nat,
            );
            final(env).deep_view() == sa && eval_result_matches(r, sr)
        }),
    decreases fuel, 0int, 0int,
{
    broadcast use crate::parser::lemma_expr_view_list;

    if fuel == 0 {
        return Err(EvalError::RecursionLimit);
    }
    let mut list = list;
    match pop_and_check_nil(&mut list) {
        Ok(_) => (),
        Err(e) => {
            return Err(e);
        },
    }
    if list.len() != 1 {
        return Err(EvalError::WrongNumOfArgs(1, list.len()));
    }
    let ghost pre = list;
    let e0 = list.remove(0);
    proof {
        assert(pre.deep_view()[0] == pre@[0].deep_view());
    }
    match eval_expr(e0, env, frame, fuel - 1) {
        Ok(Expr::List(l)) => {
            let mut lv = *l;
            if lv.len() == 0 {
                return Err(EvalError::EmptyList);
            }
            let ghost prelv = lv;
            let _first = lv.remove(0);
            proof {
                crate::env::lemma_deep_view_remove(prelv, lv, 0);
                assert(prelv.deep_view().remove(0) =~= prelv.deep_view().skip(1));
            }
            Ok(Expr::List(Box::new(lv)))
        },
        Ok(other) => Err(EvalError::ExprTypeMismatch("list".to_owned(), other)),
        Err(e) => Err(e),
    }
}

/// The native `inspect`: yields nil; showing the environment is left to
/// the caller that owns the output.
pub fn inspect(list: List, env: &mut Env, frame: usize, fuel: u64) -> (r: Result<Expr, EvalError>)
    ensures
        ({
            let (sr, sa) = spec_inspect(
                list.deep_view(),
                old(env).deep_view(),
                frame as int,
                fuel as nat,
            );
            final(env).deep_view() == sa && eval_result_matches(r, sr)
        }),
    decreases fuel, 0int, 0int,
{
    if fuel == 0 {
        return Err(EvalError::RecursionLimit);
    }
    Ok(Expr::Atom(Box::new(Atom::Nil)))
}

} // verus!
