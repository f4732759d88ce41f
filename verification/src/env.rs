//! The environment model: an arena of frames, each a table of bindings plus
//! an optional link to an enclosing frame. A frame is addressed by a stable
//! index, so any number of closures may share one frame and observe each
//! other's mutations. Lookup, insertion and assignment resolve along the
//! chain of enclosing links; the global frame sits at index zero.
//!
//! Every frame except the global one is meant to carry an enclosing link
//! that points at an earlier slot of the arena. The walking operations do
//! not rely on that: a link that is missing, out of range, or not pointing
//! at an earlier slot is treated as the end of the chain, so every walk
//! terminates on every value.
use vstd::prelude::*;

use crate::parser::{clone_expr, Expr, ExprV};

verus! {

broadcast use vstd::std_specs::vec::group_vec_axioms;

/// Error returned by [`Env::get`] when no frame of the chain binds the
/// requested symbol.
#[derive(Debug)]
pub struct UndefinedSymbol {}

/// One frame: its bindings and its optional enclosing frame.
///
/// The bindings are a journal of `(name, value)` pairs; the latest entry for
/// a name is the binding in force. Its view is the map that the journal
/// denotes.
#[derive(Debug)]
pub struct EnvType {
    pub symbols: Vec<(String, Expr)>,
    pub outer: Option<usize>,
}

/// The whole environment: an arena of frames.
#[derive(Debug)]
pub struct Env {
    frames: Vec<EnvType>,
}

/// Spec-level view of one frame.
#[verifier::ext_equal]
pub struct FrameV {
    pub symbols: Map<Seq<char>, ExprV>,
    pub outer: Option<int>,
}

/// The map denoted by a journal of bindings: a later entry for a name
/// overrides an earlier one.
pub open spec fn assoc_map(s: Seq<(Seq<char>, ExprV)>) -> Map<Seq<char>, ExprV>
    decreases s.len(),
{
    if s.len() == 0 {
        Map::empty()
    } else {
        assoc_map(s.drop_last()).insert(s.last().0, s.last().1)
    }
}

impl DeepView for EnvType {
    type V = FrameV;

    open spec fn deep_view(&self) -> FrameV {
        FrameV {
            symbols: assoc_map(self.symbols.deep_view()),
            outer: match self.outer {
                Some(j) => Some(j as int),
                None => None,
            },
        }
    }
}

impl DeepView for Env {
    type V = Seq<FrameV>;

    closed spec fn deep_view(&self) -> Seq<FrameV> {
        self.frames.deep_view()
    }
}

/// The index of the frame that binds `key`, walking the chain outward from
/// `frame`. A link that does not point at an earlier slot of the arena ends
/// the walk.
pub open spec fn chain_find(arena: Seq<FrameV>, frame: int, key: Seq<char>) -> Option<int>
    decreases (if frame < 0 { 0 } else { frame + 1 }),
{
    if !(0 <= frame < arena.len()) {
        None
    } else if arena[frame].symbols.contains_key(key) {
        Some(frame)
    } else {
        match arena[frame].outer {
            Some(j) => if 0 <= j < frame {
                chain_find(arena, j, key)
            } else {
                None
            },
            None => None,
        }
    }
}

/// The value bound to `key` along the chain that starts at `frame`.
pub open spec fn chain_get(arena: Seq<FrameV>, frame: int, key: Seq<char>) -> Option<ExprV> {
    match chain_find(arena, frame, key) {
        Some(g) => Some(arena[g].symbols[key]),
        None => None,
    }
}

/// The arena after binding `key` to `val` in the frame at `frame`
/// (unchanged if the index is out of range).
pub open spec fn with_binding(
    arena: Seq<FrameV>,
    frame: int,
    key: Seq<char>,
    val: ExprV,
) -> Seq<FrameV> {
    if 0 <= frame < arena.len() {
        arena.update(
            frame,
            FrameV { symbols: arena[frame].symbols.insert(key, val), outer: arena[frame].outer },
        )
    } else {
        arena
    }
}

/// The arena after assigning `key` to `val`: the binding is overwritten in
/// the frame of the chain that already holds it, and made in the starting
/// frame when no frame of the chain holds it.
pub open spec fn with_assigned(
    arena: Seq<FrameV>,
    frame: int,
    key: Seq<char>,
    val: ExprV,
) -> Seq<FrameV> {
    match chain_find(arena, frame, key) {
        Some(g) => with_binding(arena, g, key, val),
        None => with_binding(arena, frame, key, val),
    }
}

/// The arena after rewiring the enclosing link of the frame at `frame`
/// (unchanged if the index is out of range).
pub open spec fn with_outer(arena: Seq<FrameV>, frame: int, outer: int) -> Seq<FrameV> {
    if 0 <= frame < arena.len() {
        arena.update(frame, FrameV { symbols: arena[frame].symbols, outer: Some(outer) })
    } else {
        arena
    }
}

/// The arena after appending one empty frame.
pub open spec fn with_new_frame(arena: Seq<FrameV>, outer: Option<int>) -> Seq<FrameV> {
    arena.push(FrameV { symbols: Map::empty(), outer })
}

/// Entries at or past `j` that do not bind `k` do not affect what the
/// journal says about `k`.
proof fn lemma_assoc_map_skip_tail(s: Seq<(Seq<char>, ExprV)>, j: int, k: Seq<char>)
    requires
        0 <= j <= s.len(),
        forall|m: int| j <= m < s.len() ==> (#[trigger] s[m]).0 != k,
    ensures
        assoc_map(s).contains_key(k) == assoc_map(s.take(j)).contains_key(k),
        assoc_map(s).contains_key(k) ==> assoc_map(s)[k] == assoc_map(s.take(j))[k],
    decreases s.len() - j,
{
    if j == s.len() {
        assert(s.take(j) =~= s);
    } else {
        assert(s.last().0 != k);
        lemma_assoc_map_skip_tail(s.drop_last(), j, k);
        assert(s.drop_last().take(j) =~= s.take(j));
    }
}

/// Appending one entry to the journal updates the denoted map at exactly
/// that name.
proof fn lemma_assoc_map_push(s: Seq<(Seq<char>, ExprV)>, p: (Seq<char>, ExprV))
    ensures
        assoc_map(s.push(p)) == assoc_map(s).insert(p.0, p.1),
{
    assert(s.push(p).drop_last() =~= s);
    assert(s.push(p).last() == p);
}

/// Removing the element at `i` removes its deep view.
pub proof fn lemma_deep_view_remove<T: DeepView>(pre: Vec<T>, post: Vec<T>, i: int)
    requires
        0 <= i < pre@.len(),
        post@ == pre@.remove(i),
    ensures
        post.deep_view() == pre.deep_view().remove(i),
{
    assert forall|j: int| 0 <= j < post@.len() implies post.deep_view()[j] == pre.deep_view().remove(
        i,
    )[j] by {
        assert(post.deep_view()[j] == post@[j].deep_view());
        if j < i {
            assert(pre.deep_view()[j] == pre@[j].deep_view());
        } else {
            assert(pre.deep_view()[j + 1] == pre@[j + 1].deep_view());
        }
    }
    assert(post.deep_view() =~= pre.deep_view().remove(i));
}

/// Inserting an element at `i` inserts its deep view.
pub proof fn lemma_deep_view_insert<T: DeepView>(pre: Vec<T>, post: Vec<T>, i: int, x: T)
    requires
        0 <= i <= pre@.len(),
        post@ == pre@.insert(i, x),
    ensures
        post.deep_view() == pre.deep_view().insert(i, x.deep_view()),
{
    assert forall|j: int| 0 <= j < post@.len() implies post.deep_view()[j] == pre.deep_view().insert(
        i,
        x.deep_view(),
    )[j] by {
        assert(post.deep_view()[j] == post@[j].deep_view());
        if j < i {
            assert(pre.deep_view()[j] == pre@[j].deep_view());
        } else if j > i {
            assert(pre.deep_view()[j - 1] == pre@[j - 1].deep_view());
        }
    }
    assert(post.deep_view() =~= pre.deep_view().insert(i, x.deep_view()));
}

/// The latest journal entry for `key`, scanning from the newest entry
/// backwards; `None` when the journal does not bind `key`.
fn journal_index_of(symbols: &Vec<(String, Expr)>, key: &String) -> (r: Option<usize>)
    ensures
        match r {
            Some(j) => {
                &&& (j as int) < symbols.deep_view().len()
                &&& assoc_map(symbols.deep_view()).contains_key(key@)
                &&& symbols.deep_view()[j as int].0 == key@
                &&& assoc_map(symbols.deep_view())[key@] == symbols.deep_view()[j as int].1
            },
            None => !assoc_map(symbols.deep_view()).contains_key(key@),
        },
{
    let ghost s = symbols.deep_view();
    let mut j: usize = symbols.len();
    while j > 0
        invariant
            j <= symbols@.len(),
            s == symbols.deep_view(),
            s.len() == symbols@.len(),
            forall|m: int| j <= m < s.len() ==> (#[trigger] s[m]).0 != key@,
        decreases j,
    {
        j = j - 1;
        proof {
            assert(s[j as int] == symbols@[j as int].deep_view());
        }
        if symbols[j].0 == *key {
            proof {
                lemma_assoc_map_skip_tail(s, j + 1, key@);
                assert(s.take(j + 1).drop_last() =~= s.take(j as int));
                assert(s.take(j + 1).last() == s[j as int]);
            }
            return Some(j);
        }
    }
    proof {
        lemma_assoc_map_skip_tail(s, 0, key@);
        assert(s.take(0) =~= Seq::<(Seq<char>, ExprV)>::empty());
    }
    None
}

impl Env {
    /// Builds an environment whose single frame, the global one, holds the
    /// given bindings and has no enclosing link.
    pub fn from(symbols: Vec<(String, Expr)>) -> (r: Env)
        ensures
            r.deep_view() == seq![
                FrameV { symbols: assoc_map(symbols.deep_view()), outer: None },
            ],
    {
        let r = Env { frames: vec![EnvType { symbols, outer: None }] };
        proof {
            assert(r.frames.deep_view() =~= seq![r.frames@[0].deep_view()]);
        }
        r
    }

    /// Appends a fresh, empty frame with the given enclosing link and
    /// returns its index.
    pub fn new(&mut self, outer: Option<usize>) -> (r: usize)
        ensures
            final(self).deep_view() == with_new_frame(
                old(self).deep_view(),
                match outer {
                    Some(j) => Some(j as int),
                    None => None,
                },
            ),
            r as int == old(self).deep_view().len(),
    {
        let ghost prev = self.frames;
        let r = self.frames.len();
        let fr = EnvType { symbols: Vec::new(), outer };
        proof {
            assert(fr.deep_view().symbols =~= Map::<Seq<char>, ExprV>::empty());
        }
        let ghost gfr = fr;
        self.frames.push(fr);
        proof {
            crate::parser::lemma_deep_view_push(prev, self.frames, gfr);
        }
        r
    }

    /// The number of frames in the arena.
    pub fn len(&self) -> (r: usize)
        ensures
            r as int == self.deep_view().len(),
    {
        self.frames.len()
    }

    /// Binds `key` to `val` in the frame at `frame` itself, shadowing any
    /// binding of enclosing frames. Out-of-range indices leave the arena
    /// unchanged.
    pub fn insert(&mut self, frame: usize, key: &str, val: Expr)
        ensures
            final(self).deep_view() == with_binding(
                old(self).deep_view(),
                frame as int,
                key@,
                val.deep_view(),
            ),
    {
        if frame < self.frames.len() {
            let ghost pre = self.frames;
            let mut fr = self.frames.remove(frame);
            proof {
                lemma_deep_view_remove(pre, self.frames, frame as int);
            }
            let ghost prefr = fr;
            let pair = (key.to_owned(), val);
            let ghost gpair = pair;
            fr.symbols.push(pair);
            proof {
                crate::parser::lemma_deep_view_push(prefr.symbols, fr.symbols, gpair);
                lemma_assoc_map_push(prefr.symbols.deep_view(), gpair.deep_view());
            }
            let ghost mid = self.frames;
            let ghost gfr = fr;
            self.frames.insert(frame, fr);
            proof {
                lemma_deep_view_insert(mid, self.frames, frame as int, gfr);
                assert(self.deep_view() =~= with_binding(
                    pre.deep_view(),
                    frame as int,
                    key@,
                    val.deep_view(),
                ));
            }
        }
    }

    /// The index of the frame of the chain that binds `key`, if any.
    fn find_env(&self, frame: usize, key: &String) -> (r: Option<usize>)
        ensures
            match r {
                Some(g) => (g as int) < self.deep_view().len() && self.deep_view()[
                    g as int
                ].symbols.contains_key(key@) && chain_find(
                    self.deep_view(),
                    frame as int,
                    key@,
                ) == Some(g as int),
                None => chain_find(self.deep_view(), frame as int, key@) is None,
            },
    {
        let mut f = frame;
        loop
            invariant
                chain_find(self.deep_view(), frame as int, key@) == chain_find(
                    self.deep_view(),
                    f as int,
                    key@,
                ),
            decreases f,
        {
            if f >= self.frames.len() {
                return None;
            }
            proof {
                assert(self.deep_view()[f as int] == self.frames@[f as int].deep_view());
            }
            if journal_index_of(&self.frames[f].symbols, key).is_some() {
                return Some(f);
            }
            match self.frames[f].outer {
                Some(j) => {
                    if j < f {
                        f = j;
                    } else {
                        return None;
                    }
                },
                None => {
                    return None;
                },
            }
        }
    }

    /// Whether any frame of the chain that starts at `frame` binds `key`.
    pub fn contains_symbol(&self, frame: usize, key: &str) -> (r: bool)
        ensures
            r == (chain_find(self.deep_view(), frame as int, key@) is Some),
    {
        let k = key.to_owned();
        self.find_env(frame, &k).is_some()
    }

    /// The value bound to `key`, walking the chain outward from `frame`;
    /// fails with [`UndefinedSymbol`] exactly when no frame of the chain
    /// binds it.
    pub fn get(&self, frame: usize, key: &str) -> (r: Result<Expr, UndefinedSymbol>)
        ensures
            match r {
                Ok(e) => chain_get(self.deep_view(), frame as int, key@) == Some(e.deep_view()),
                Err(_) => chain_get(self.deep_view(), frame as int, key@) is None,
            },
    {
        let k = key.to_owned();
        match self.find_env(frame, &k) {
            Some(g) => {
                proof {
                    assert(self.deep_view()[g as int] == self.frames@[g as int].deep_view());
                }
                match journal_index_of(&self.frames[g].symbols, &k) {
                    Some(j) => {
                        proof {
                            assert(self.frames@[g as int].symbols.deep_view()[j as int]
                                == self.frames@[g as int].symbols@[j as int].deep_view());
                        }
                        Ok(clone_expr(&self.frames[g].symbols[j].1))
                    },
                    None => Err(UndefinedSymbol {}),
                }
            },
            None => Err(UndefinedSymbol {}),
        }
    }

    /// Assigns `key` to `val`: overwrites the binding in the frame of the
    /// chain that already holds one, and falls back to binding in the frame
    /// at `frame` when none does.
    pub fn set(&mut self, frame: usize, key: &str, val: Expr)
        ensures
            final(self).deep_view() == with_assigned(
                old(self).deep_view(),
                frame as int,
                key@,
                val.deep_view(),
            ),
    {
        let k = key.to_owned();
        match self.find_env(frame, &k) {
            Some(g) => self.insert(g, key, val),
            None => self.insert(frame, key, val),
        }
    }

    /// Rewires the enclosing link of the frame at `frame`. Out-of-range
    /// indices leave the arena unchanged.
    pub fn set_outer(&mut self, frame: usize, outer: usize)
        ensures
            final(self).deep_view() == with_outer(old(self).deep_view(), frame as int, outer as int),
    {
        if frame < self.frames.len() {
            let ghost pre = self.frames;
            let mut fr = self.frames.remove(frame);
            proof {
                lemma_deep_view_remove(pre, self.frames, frame as int);
            }
            fr.outer = Some(outer);
            let ghost mid = self.frames;
            let ghost gfr = fr;
            self.frames.insert(frame, fr);
            proof {
                lemma_deep_view_insert(mid, self.frames, frame as int, gfr);
                assert(self.deep_view() =~= with_outer(pre.deep_view(), frame as int, outer as int));
            }
        }
    }
}

} // verus!
