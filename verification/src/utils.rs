//! The initial global bindings and small shared helpers.
use vstd::prelude::*;

use crate::parser::{Atom, AtomV, Expr, ExprV, NativeEnc, NativeFn};

verus! {

broadcast use vstd::std_specs::vec::group_vec_axioms;

/// Whether an expression is the nil atom. Nil is not the same as an empty
/// `List`.
pub fn expr_is_nil(expr: &Expr) -> (b: bool)
    ensures
        b == (expr.deep_view() == ExprV::Atom(AtomV::Nil)),
{
    match expr {
        Expr::Atom(a) => matches!(**a, Atom::Nil),
        _ => false,
    }
}

/// A native-procedure expression.
pub open spec fn native_v(op: NativeFn) -> ExprV {
    ExprV::Atom(AtomV::Native(op))
}

/// The bindings of the global frame: every native procedure under its
/// surface name, and `nil` bound to the nil atom.
pub open spec fn global_bindings() -> Seq<(Seq<char>, ExprV)> {
    seq![
        ("+"@, native_v(NativeFn::Add)),
        ("-"@, native_v(NativeFn::Sub)),
        ("*"@, native_v(NativeFn::Mul)),
        ("/"@, native_v(NativeFn::Div)),
        ("set!"@, native_v(NativeFn::SetVar)),
        ("define"@, native_v(NativeFn::Define)),
        ("inspect"@, native_v(NativeFn::Inspect)),
        ("eval"@, native_v(NativeFn::Eval)),
        ("quote"@, native_v(NativeFn::Quote)),
        ("cons"@, native_v(NativeFn::Cons)),
        ("lambda"@, native_v(NativeFn::Lambda)),
        ("if"@, native_v(NativeFn::If)),
        ("car"@, native_v(NativeFn::Car)),
        ("cdr"@, native_v(NativeFn::Cdr)),
        ("nil"@, ExprV::Atom(AtomV::Nil)),
    ]
}

fn push_native(map: &mut Vec<(String, Expr)>, name: &str, op: NativeFn)
    ensures
        final(map).deep_view() == old(map).deep_view().push(
            (name@, ExprV::Atom(AtomV::Native(op))),
        ),
{
    let ghost pre = *map;
    let pair = (name.to_owned(), Expr::Atom(Box::new(Atom::Native(NativeEnc(op)))));
    let ghost gp = pair;
    map.push(pair);
    proof {
        crate::parser::lemma_deep_view_push(pre, *map, gp);
    }
}

/// Fills the table a global frame is built from: each native procedure
/// under its surface name, and `nil`.
pub fn init_map(map: &mut Vec<(String, Expr)>)
    ensures
        final(map).deep_view() == old(map).deep_view() + global_bindings(),
{
    push_native(map, "+", NativeFn::Add);
    push_native(map, "-", NativeFn::Sub);
    push_native(map, "*", NativeFn::Mul);
    push_native(map, "/", NativeFn::Div);
    push_native(map, "set!", NativeFn::SetVar);
    push_native(map, "define", NativeFn::Define);
    push_native(map, "inspect", NativeFn::Inspect);
    push_native(map, "eval", NativeFn::Eval);
    push_native(map, "quote", NativeFn::Quote);
    push_native(map, "cons", NativeFn::Cons);
    push_native(map, "lambda", NativeFn::Lambda);
    push_native(map, "if", NativeFn::If);
    push_native(map, "car", NativeFn::Car);
    push_native(map, "cdr", NativeFn::Cdr);
    let ghost pre = *map;
    let pair = ("nil".to_owned(), Expr::Atom(Box::new(Atom::Nil)));
    let ghost gp = pair;
    map.push(pair);
    proof {
        crate::parser::lemma_deep_view_push(pre, *map, gp);
        assert(final(map).deep_view() =~= old(map).deep_view() + global_bindings());
    }
}

} // verus!
