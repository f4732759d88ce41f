//! Text rendering of values. Atoms render as their literal text (`#t`/`#f`
//! for booleans, `()` for nil); a proper list renders as `(e1 e2 ...)` with
//! its nil terminator silent; a dotted list renders as `(e1 e2 ... . tail)`;
//! quote, quasiquote and unquote render as their prefix character before the
//! inner rendering.
use vstd::prelude::*;

use crate::parser::{Atom, AtomV, Expr, ExprV, PrintableList};

verus! {

broadcast use vstd::std_specs::vec::group_vec_axioms;

/// The character of one decimal digit value.
pub open spec fn digit_char(d: int) -> char {
    if d == 0 {
        '0'
    } else if d == 1 {
        '1'
    } else if d == 2 {
        '2'
    } else if d == 3 {
        '3'
    } else if d == 4 {
        '4'
    } else if d == 5 {
        '5'
    } else if d == 6 {
        '6'
    } else if d == 7 {
        '7'
    } else if d == 8 {
        '8'
    } else {
        '9'
    }
}

/// The decimal digits of a non-negative number.
pub open spec fn render_nat(n: int) -> Seq<char>
    decreases n,
{
    if n < 10 {
        seq![digit_char(n)]
    } else {
        render_nat(n / 10) + seq![digit_char(n % 10)]
    }
}

/// The decimal rendering of an integer, with a leading minus sign when
/// negative.
pub open spec fn render_int(n: int) -> Seq<char> {
    if n < 0 {
        seq!['-'] + render_nat(-n)
    } else {
        render_nat(n)
    }
}

/// The text of one atom. A string atom keeps its text, quotes included, as
/// the tokenizer produced it.
pub open spec fn render_atom(a: AtomV) -> Seq<char> {
    match a {
        AtomV::Str(s) => s,
        AtomV::Num(n) => render_int(n as int),
        AtomV::Bool(b) => if b {
            seq!['#', 't']
        } else {
            seq!['#', 'f']
        },
        AtomV::Symbol(s) => s,
        AtomV::Nil => seq!['(', ')'],
        AtomV::Native(_) => seq!['<', 'n', 'a', 't', 'i', 'v', 'e', '>'],
    }
}

/// The text of one expression.
pub open spec fn render_expr(e: ExprV) -> Seq<char>
    decreases e, 1int,
{
    match e {
        ExprV::Atom(a) => render_atom(a),
        ExprV::List(l) => render_list(l),
        ExprV::Quote(q) => seq!['\''] + render_expr(*q),
        ExprV::Quasiquote(q) => seq!['`'] + render_expr(*q),
        ExprV::Unquote(q) => seq![','] + render_expr(*q),
        ExprV::Lambda(_) => seq!['<', 'l', 'a', 'm', 'b', 'd', 'a', '>'],
    }
}

/// The text of a list: the elements before the terminator separated by
/// spaces; a nil terminator is silent, any other terminator renders as a
/// dotted tail.
pub open spec fn render_list(l: Seq<ExprV>) -> Seq<char>
    decreases l, 0int,
{
    if l.len() == 0 {
        seq!['(', ')']
    } else {
        let inner = render_items(l.drop_last());
        let tail = l.last();
        if tail == ExprV::Atom(AtomV::Nil) {
            seq!['('] + inner + seq![')']
        } else {
            seq!['('] + inner + seq![' ', '.', ' '] + render_expr(tail) + seq![')']
        }
    }
}

/// The space-separated elements of a list body.
pub open spec fn render_items(l: Seq<ExprV>) -> Seq<char>
    decreases l, 2int,
{
    if l.len() == 0 {
        Seq::empty()
    } else if l.len() == 1 {
        render_expr(l[0])
    } else {
        render_expr(l[0]) + seq![' '] + render_items(l.skip(1))
    }
}

/// One decimal digit as text.
fn digit_str(d: u32) -> (r: String)
    requires
        d < 10,
    ensures
        r@ == seq![digit_char(d as int)],
{
    let r = if d == 0 {
        "0"
    } else if d == 1 {
        "1"
    } else if d == 2 {
        "2"
    } else if d == 3 {
        "3"
    } else if d == 4 {
        "4"
    } else if d == 5 {
        "5"
    } else if d == 6 {
        "6"
    } else if d == 7 {
        "7"
    } else if d == 8 {
        "8"
    } else {
        "9"
    };
    proof {
        reveal_strlit("0");
        reveal_strlit("1");
        reveal_strlit("2");
        reveal_strlit("3");
        reveal_strlit("4");
        reveal_strlit("5");
        reveal_strlit("6");
        reveal_strlit("7");
        reveal_strlit("8");
        reveal_strlit("9");
        assert(r@ =~= seq![digit_char(d as int)]);
    }
    r.to_owned()
}

/// The decimal digits of a number.
fn render_u32(n: u32) -> (r: String)
    ensures
        r@ == render_nat(n as int),
    decreases n,
{
    if n < 10 {
        digit_str(n)
    } else {
        let mut s = render_u32(n / 10);
        let d = digit_str(n % 10);
        s.append(d.as_str());
        s
    }
}

/// The decimal rendering of a 32-bit integer.
fn render_i32(n: i32) -> (r: String)
    ensures
        r@ == render_int(n as int),
{
    if n < 0 {
        let m: u32 = if n == i32::MIN {
            0x8000_0000
        } else {
            (0 - n) as u32
        };
        let mut s = "-".to_owned();
        proof {
            reveal_strlit("-");
            assert(s@ =~= seq!['-']);
        }
        let d = render_u32(m);
        s.append(d.as_str());
        s
    } else {
        render_u32(n as u32)
    }
}

impl Atom {
    /// The text of this atom.
    pub fn render(&self) -> (r: String)
        ensures
            r@ == render_atom(self.deep_view()),
    {
        match self {
            Atom::Str(s) => s.clone(),
            Atom::Num(n) => render_i32(*n),
            Atom::Bool(b) => {
                let r = if *b {
                    "#t"
                } else {
                    "#f"
                };
                proof {
                    reveal_strlit("#t");
                    reveal_strlit("#f");
                    assert(r@ =~= render_atom(self.deep_view()));
                }
                r.to_owned()
            },
            Atom::Symbol(s) => s.clone(),
            Atom::Nil => {
                let r = "()";
                proof {
                    reveal_strlit("()");
                    assert(r@ =~= seq!['(', ')']);
                }
                r.to_owned()
            },
            Atom::Native(_) => {
                let r = "<native>";
                proof {
                    reveal_strlit("<native>");
                    assert(r@ =~= seq!['<', 'n', 'a', 't', 'i', 'v', 'e', '>']);
                }
                r.to_owned()
            },
        }
    }
}

impl Expr {
    /// The text of this expression.
    pub fn render(&self) -> (r: String)
        ensures
            r@ == render_expr(self.deep_view()),
        decreases self, 1int,
    {
        broadcast use crate::parser::lemma_expr_view_list;

        match self {
            Expr::Atom(a) => a.render(),
            Expr::List(l) => render_list_text(l),
            Expr::Quote(q) => {
                let mut s = "'".to_owned();
                proof {
                    reveal_strlit("'");
                    assert(s@ =~= seq!['\'']);
                }
                let inner = q.render();
                s.append(inner.as_str());
                s
            },
            Expr::Quasiquote(q) => {
                let mut s = "`".to_owned();
                proof {
                    reveal_strlit("`");
                    assert(s@ =~= seq!['`']);
                }
                let inner = q.render();
                s.append(inner.as_str());
                s
            },
            Expr::Unquote(q) => {
                let mut s = ",".to_owned();
                proof {
                    reveal_strlit(",");
                    assert(s@ =~= seq![',']);
                }
                let inner = q.render();
                s.append(inner.as_str());
                s
            },
            Expr::Lambda(_) => {
                let r = "<lambda>";
                proof {
                    reveal_strlit("<lambda>");
                    assert(r@ =~= seq!['<', 'l', 'a', 'm', 'b', 'd', 'a', '>']);
                }
                r.to_owned()
            },
        }
    }
}

/// The text of a list of expressions.
fn render_list_text(l: &Vec<Expr>) -> (r: String)
    ensures
        r@ == render_list(l.deep_view()),
    decreases l, 0int,
{
    let n = l.len();
    if n == 0 {
        let r = "()";
        proof {
            reveal_strlit("()");
            assert(r@ =~= seq!['(', ')']);
        }
        return r.to_owned();
    }
    let mut s = "(".to_owned();
    proof {
        reveal_strlit("(");
        assert(s@ =~= seq!['(']);
    }
    let mut i: usize = 0;
    while i < n - 1
        invariant
            n == l@.len(),
            n >= 1,
            i <= n - 1,
            s@ == seq!['('] + render_items(l.deep_view().drop_last().take(i as int)) + (
            if i > 0 && i < n - 1 {
                seq![' ']
            } else {
                Seq::empty()
            }),
        decreases n - 1 - i,
    {
        proof {
            assert(l.deep_view()[i as int] == l@[i as int].deep_view());
        }
        let piece = l[i].render();
        s.append(piece.as_str());
        i = i + 1;
        if i < n - 1 {
            let sp = " ";
            proof {
                reveal_strlit(" ");
                assert(sp@ =~= seq![' ']);
            }
            s.append(sp);
        }
        proof {
            lemma_render_items_take_step(l.deep_view().drop_last(), i as int);
            if i < n - 1 {
                assert(s@ =~= seq!['('] + render_items(
                    l.deep_view().drop_last().take(i as int),
                ) + seq![' ']);
            } else {
                assert(s@ =~= seq!['('] + render_items(l.deep_view().drop_last().take(i as int)));
            }
        }
    }
    proof {
        assert(l.deep_view().drop_last().take(n - 1) =~= l.deep_view().drop_last());
        assert(l.deep_view().last() == l@[n - 1].deep_view());
    }
    let is_nil = match &l[n - 1] {
        Expr::Atom(a) => matches!(**a, Atom::Nil),
        _ => false,
    };
    if is_nil {
        let cl = ")";
        proof {
            reveal_strlit(")");
            assert(cl@ =~= seq![')']);
        }
        s.append(cl);
        proof {
            assert(s@ =~= render_list(l.deep_view()));
        }
        s
    } else {
        let dot = " . ";
        proof {
            reveal_strlit(" . ");
            assert(dot@ =~= seq![' ', '.', ' ']);
        }
        s.append(dot);
        let tail = l[n - 1].render();
        s.append(tail.as_str());
        let cl = ")";
        proof {
            reveal_strlit(")");
            assert(cl@ =~= seq![')']);
        }
        s.append(cl);
        proof {
            assert(s@ =~= render_list(l.deep_view()));
        }
        s
    }
}

/// Rendering the first `i + 1` elements appends one element (and a space
/// before it, past the first) to the rendering of the first `i`.
proof fn lemma_render_items_take_step(l: Seq<ExprV>, i: int)
    requires
        0 < i <= l.len(),
    ensures
        render_items(l.take(i)) == if i == 1 {
            render_expr(l[0])
        } else {
            render_items(l.take(i - 1)) + seq![' '] + render_expr(l[i - 1])
        },
    decreases i,
{
    if i == 1 {
        assert(l.take(1).len() == 1);
        assert(l.take(1)[0] == l[0]);
    } else {
        lemma_render_items_take_step(l.skip(1), i - 1);
        assert(l.take(i).skip(1) =~= l.skip(1).take(i - 1));
        assert(l.take(i - 1).skip(1) =~= l.skip(1).take(i - 2));
        assert(l.take(i)[0] == l[0]);
        assert(l.take(i - 1)[0] == l[0]);
        assert(l.skip(1).take(i - 1)[i - 2] == l[i - 1]);
        if i - 1 == 1 {
            assert(render_items(l.take(i)) == render_expr(l[0]) + seq![' '] + render_items(
                l.skip(1).take(i - 1),
            ));
            assert(render_items(l.skip(1).take(i - 1)) == render_expr(l[1]));
            assert(render_items(l.take(i - 1)) == render_expr(l[0]));
        } else {
            assert(render_items(l.take(i)) == render_expr(l[0]) + seq![' '] + render_items(
                l.skip(1).take(i - 1),
            ));
            assert(render_items(l.take(i - 1)) == render_expr(l[0]) + seq![' '] + render_items(
                l.skip(1).take(i - 2),
            ));
            assert((render_expr(l[0]) + seq![' '] + (render_items(l.skip(1).take(i - 2)) + seq![' ']
                + render_expr(l[i - 1]))) =~= (render_expr(l[0]) + seq![' '] + render_items(
                l.skip(1).take(i - 2),
            ) + seq![' '] + render_expr(l[i - 1])));
        }
    }
}

impl PrintableList {
    /// The text of the wrapped list.
    pub fn render(&self) -> (r: String)
        ensures
            r@ == render_list(self.0.deep_view()),
    {
        render_list_text(&self.0)
    }
}

} // verus!
