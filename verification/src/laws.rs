//! Properties that tie the pieces together, stated over the spec-level
//! interpreter and proved once and for all.
use vstd::prelude::*;

use crate::env::{chain_find, chain_get, with_binding, FrameV};
use crate::evaluator::{spec_eval_atom, spec_eval_lambda, EvalErrV};
use crate::native::{spec_quote, spec_set};
use crate::parser::{AtomV, ExprV, LambdaV};

verus! {

/// Evaluating a symbol that no frame of the chain binds yields exactly
/// `UndefinedSymbol` with that name, and leaves the environment unchanged.
pub proof fn lemma_unbound_symbol_is_undefined(
    s: Seq<char>,
    arena: Seq<FrameV>,
    frame: int,
    fuel: nat,
)
    requires
        fuel > 0,
        chain_find(arena, frame, s) is None,
    ensures
        spec_eval_atom(AtomV::Symbol(s), arena, frame, fuel) == (
            Err::<ExprV, EvalErrV>(EvalErrV::UndefinedSymbol(s)),
            arena,
        ),
{
}

/// `set!` on a symbol that was never defined anywhere along the chain
/// yields exactly `UndefinedSymbol` with that name and changes nothing:
/// unlike `define`, it never creates a binding.
pub proof fn lemma_set_on_undefined_symbol(
    s: Seq<char>,
    val: ExprV,
    arena: Seq<FrameV>,
    frame: int,
    fuel: nat,
)
    requires
        fuel > 0,
        chain_find(arena, frame, s) is None,
    ensures
        spec_set(
            seq![ExprV::Atom(AtomV::Symbol(s)), val, ExprV::Atom(AtomV::Nil)],
            arena,
            frame,
            fuel,
        ) == (Err::<ExprV, EvalErrV>(EvalErrV::UndefinedSymbol(s)), arena),
{
    let args = seq![ExprV::Atom(AtomV::Symbol(s)), val, ExprV::Atom(AtomV::Nil)];
    assert(args.skip(1) =~= seq![val, ExprV::Atom(AtomV::Nil)]);
}

/// Applying a lambda to an argument count different from its formal count
/// yields exactly `WrongNumOfArgs` carrying both counts, and leaves the
/// environment unchanged.
pub proof fn lemma_lambda_arity_mismatch(
    lam: LambdaV,
    args: Seq<ExprV>,
    arena: Seq<FrameV>,
    frame: int,
    fuel: nat,
)
    requires
        fuel > 0,
        args.len() > 0,
        args.len() - 1 != lam.args_list.len(),
    ensures
        spec_eval_lambda(lam, args, arena, frame, fuel) == (
            Err::<ExprV, EvalErrV>(
                EvalErrV::WrongNumOfArgs(lam.args_list.len() as int, (args.len() - 1) as int),
            ),
            arena,
        ),
{
}

/// `quote` hands back its single argument exactly as written — whatever it
/// is, it is not evaluated and the environment does not change.
pub proof fn lemma_quote_returns_argument_unevaluated(
    e: ExprV,
    arena: Seq<FrameV>,
    frame: int,
    fuel: nat,
)
    requires
        fuel > 0,
    ensures
        spec_quote(seq![e, ExprV::Atom(AtomV::Nil)], arena, frame, fuel) == (
            Ok::<ExprV, EvalErrV>(e),
            arena,
        ),
{
    let args = seq![e, ExprV::Atom(AtomV::Nil)];
    assert(args.drop_last() =~= seq![e]);
}

/// A binding made by `define` in a frame is what a lookup through that
/// frame then finds.
pub proof fn lemma_binding_then_lookup(
    arena: Seq<FrameV>,
    frame: int,
    s: Seq<char>,
    v: ExprV,
)
    requires
        0 <= frame < arena.len(),
    ensures
        chain_get(with_binding(arena, frame, s, v), frame, s) == Some(v),
{
    let arena2 = with_binding(arena, frame, s, v);
    assert(arena2[frame].symbols.contains_key(s));
    assert(chain_find(arena2, frame, s) == Some(frame));
}

} // verus!
