//! The syntax tree (expressions, atoms, lambdas, their spec-level views)
//! and the recursive-descent parser that builds one expression per
//! top-level form from a reversed token stack.
use vstd::prelude::*;

pub mod error;

use crate::tokenizer::{Token, TokenType, TokenV};
use error::{expected_expr, expected_expr_vec, expected_one, ParserErr, ParserErrV};

verus! {

broadcast use vstd::std_specs::vec::group_vec_axioms;

/// The native procedures that the global environment binds. Special forms
/// (`quote`, `define`, `lambda`, `if`, ...) and eager procedures (`+`, `cons`,
/// ...) share this one representation: the evaluator hands every one of them
/// the still-unevaluated argument list, and each decides for itself what to
/// evaluate.
#[derive(Clone, Copy, Debug, PartialEq, Eq, Structural)]
pub enum NativeFn {
    Add,
    Sub,
    Mul,
    Div,
    SetVar,
    Define,
    Inspect,
    Eval,
    Quote,
    Cons,
    Lambda,
    If,
    Car,
    Cdr,
}

/// Wrapper around a native-procedure reference, kept as its own type so a
/// native procedure can sit inside an [`Atom`] like any other value.
#[derive(Clone, Copy, Debug, PartialEq, Eq, Structural)]
pub struct NativeEnc(pub NativeFn);

/// An indivisible value: string, number, boolean, symbol, nil, or a native
/// procedure. `Nil` is both the empty/terminator value and the false-ish
/// default; it is not the same thing as an empty `List`.
#[derive(Debug, PartialEq)]
pub enum Atom {
    Str(String),
    Num(i32),
    Bool(bool),
    Symbol(String),
    Nil,
    Native(NativeEnc),
}

/// An ordered sequence of expressions. A *proper* list is terminated by a
/// trailing `Atom::Nil` element that the parser appends; a list whose last
/// element is anything else is a *dotted* list (cons-pair tail).
pub type List = Vec<Expr>;

/// One syntax node.
#[derive(Debug, PartialEq)]
pub enum Expr {
    Atom(Box<Atom>),
    List(Box<List>),
    Quote(Box<Expr>),
    Quasiquote(Box<Expr>),
    Unquote(Box<Expr>),
    Lambda(Box<Lambda>),
}

/// A list wrapped for rendering.
pub struct PrintableList(pub Box<List>);

/// A user procedure: formal parameter names, a body of one or more
/// expressions, and the index of the environment frame captured where the
/// `lambda` form was evaluated.
#[derive(Debug, PartialEq)]
pub struct Lambda {
    pub args_list: Vec<String>,
    pub body: List,
    pub env: usize,
}

/// Spec-level view of an [`Atom`].
#[verifier::ext_equal]
pub enum AtomV {
    Str(Seq<char>),
    Num(i32),
    Bool(bool),
    Symbol(Seq<char>),
    Nil,
    Native(NativeFn),
}

/// Spec-level view of a [`Lambda`].
#[verifier::ext_equal]
pub struct LambdaV {
    pub args_list: Seq<Seq<char>>,
    pub body: Seq<ExprV>,
    pub env: int,
}

/// Spec-level view of an [`Expr`].
#[verifier::ext_equal]
pub enum ExprV {
    Atom(AtomV),
    List(Seq<ExprV>),
    Quote(Box<ExprV>),
    Quasiquote(Box<ExprV>),
    Unquote(Box<ExprV>),
    Lambda(LambdaV),
}

impl DeepView for Atom {
    type V = AtomV;

    open spec fn deep_view(&self) -> AtomV {
        match self {
            Atom::Str(s) => AtomV::Str(s@),
            Atom::Num(n) => AtomV::Num(*n),
            Atom::Bool(b) => AtomV::Bool(*b),
            Atom::Symbol(s) => AtomV::Symbol(s@),
            Atom::Nil => AtomV::Nil,
            Atom::Native(f) => AtomV::Native(f.0),
        }
    }
}

/// Spec-level view of an expression tree.
pub open spec fn expr_view(e: Expr) -> ExprV
    decreases e,
{
    match e {
        Expr::Atom(a) => ExprV::Atom(a.deep_view()),
        Expr::List(l) => ExprV::List(
            Seq::new(
                l@.len(),
                |i: int|
                    if 0 <= i < l@.len() {
                        expr_view(l@[i])
                    } else {
                        ExprV::Atom(AtomV::Nil)
                    },
            ),
        ),
        Expr::Quote(q) => ExprV::Quote(Box::new(expr_view(*q))),
        Expr::Quasiquote(q) => ExprV::Quasiquote(Box::new(expr_view(*q))),
        Expr::Unquote(q) => ExprV::Unquote(Box::new(expr_view(*q))),
        Expr::Lambda(l) => ExprV::Lambda(lambda_view(*l)),
    }
}

/// Spec-level view of a lambda.
pub open spec fn lambda_view(l: Lambda) -> LambdaV
    decreases l,
{
    LambdaV {
        args_list: l.args_list.deep_view(),
        body: Seq::new(
            l.body@.len(),
            |i: int|
                if 0 <= i < l.body@.len() {
                    expr_view(l.body@[i])
                } else {
                    ExprV::Atom(AtomV::Nil)
                },
        ),
        env: l.env as int,
    }
}

impl DeepView for Expr {
    type V = ExprV;

    open spec fn deep_view(&self) -> ExprV {
        expr_view(*self)
    }
}

impl DeepView for Lambda {
    type V = LambdaV;

    open spec fn deep_view(&self) -> LambdaV {
        lambda_view(*self)
    }
}

/// Unfolds the view of a list expression to the list's own deep view.
pub broadcast proof fn lemma_expr_view_list(b: Box<List>)
    ensures
        #[trigger] expr_view(Expr::List(b)) == ExprV::List(b.deep_view()),
{
    let lhs = expr_view(Expr::List(b));
    let rhs = ExprV::List(b.deep_view());
    assert forall|i: int| 0 <= i < b@.len() implies lhs->List_0[i] == rhs->List_0[i] by {
        assert(b.deep_view()[i] == b@[i].deep_view());
    }
    assert(lhs->List_0 =~= rhs->List_0);
}

/// Unfolds the view of a lambda to the deep views of its parts.
pub broadcast proof fn lemma_lambda_view(l: Lambda)
    ensures
        #[trigger] lambda_view(l) == (LambdaV {
            args_list: l.args_list.deep_view(),
            body: l.body.deep_view(),
            env: l.env as int,
        }),
{
    let lhs = lambda_view(l);
    assert forall|i: int| 0 <= i < l.body@.len() implies lhs.body[i] == l.body.deep_view()[i] by {
        assert(l.body.deep_view()[i] == l.body@[i].deep_view());
    }
    assert(lhs.body =~= l.body.deep_view());
}

/// Pushing onto a vector pushes the element's deep view onto the vector's
/// deep view.
pub proof fn lemma_deep_view_push<T: DeepView>(pre: Vec<T>, post: Vec<T>, x: T)
    requires
        post@ == pre@.push(x),
    ensures
        post.deep_view() == pre.deep_view().push(x.deep_view()),
{
    assert forall|j: int| 0 <= j < post@.len() implies post.deep_view()[j] == pre.deep_view().push(
        x.deep_view(),
    )[j] by {
        assert(post.deep_view()[j] == post@[j].deep_view());
        if j < pre@.len() {
            assert(pre.deep_view()[j] == pre@[j].deep_view());
        }
    }
    assert(post.deep_view() =~= pre.deep_view().push(x.deep_view()));
}

/// Clones an atom; the copy has the same view.
pub fn clone_atom(a: &Atom) -> (r: Atom)
    ensures
        r.deep_view() == a.deep_view(),
{
    match a {
        Atom::Str(s) => Atom::Str(s.clone()),
        Atom::Num(n) => Atom::Num(*n),
        Atom::Bool(b) => Atom::Bool(*b),
        Atom::Symbol(s) => Atom::Symbol(s.clone()),
        Atom::Nil => Atom::Nil,
        Atom::Native(f) => Atom::Native(*f),
    }
}

/// Clones an expression tree; the copy has the same view.
pub fn clone_expr(e: &Expr) -> (r: Expr)
    ensures
        r.deep_view() == e.deep_view(),
    decreases e,
{
    broadcast use lemma_expr_view_list, lemma_lambda_view;

    match e {
        Expr::Atom(a) => Expr::Atom(Box::new(clone_atom(a))),
        Expr::List(l) => Expr::List(Box::new(clone_list(l))),
        Expr::Quote(q) => Expr::Quote(Box::new(clone_expr(q))),
        Expr::Quasiquote(q) => Expr::Quasiquote(Box::new(clone_expr(q))),
        Expr::Unquote(q) => Expr::Unquote(Box::new(clone_expr(q))),
        Expr::Lambda(l) => Expr::Lambda(Box::new(clone_lambda(l))),
    }
}

/// Clones a list of expressions; the copy has the same view.
pub fn clone_list(l: &List) -> (r: List)
    ensures
        r.deep_view() == l.deep_view(),
    decreases l,
{
    let mut r: List = Vec::new();
    let mut i: usize = 0;
    proof {
        assert(r.deep_view() =~= l.deep_view().take(0));
    }
    while i < l.len()
        invariant
            i <= l.len(),
            r.deep_view() == l.deep_view().take(i as int),
        decreases l.len() - i,
    {
        let ghost prev = r;
        let x = clone_expr(&l[i]);
        let ghost gx = x;
        r.push(x);
        i = i + 1;
        proof {
            lemma_deep_view_push(prev, r, gx);
            assert(l.deep_view()[i - 1] == l@[i - 1].deep_view());
            assert(r.deep_view() =~= l.deep_view().take(i as int));
        }
    }
    proof {
        assert(r.deep_view() =~= l.deep_view());
    }
    r
}

/// Clones the formal-parameter names of a lambda.
pub fn clone_strings(v: &Vec<String>) -> (r: Vec<String>)
    ensures
        r.deep_view() == v.deep_view(),
{
    let mut r: Vec<String> = Vec::new();
    let mut i: usize = 0;
    proof {
        assert(r.deep_view() =~= v.deep_view().take(0));
    }
    while i < v.len()
        invariant
            i <= v.len(),
            r.deep_view() == v.deep_view().take(i as int),
        decreases v.len() - i,
    {
        let ghost prev = r;
        let x = v[i].clone();
        let ghost gx = x;
        r.push(x);
        i = i + 1;
        proof {
            lemma_deep_view_push(prev, r, gx);
            assert(v.deep_view()[i - 1] == v@[i - 1].deep_view());
            assert(r.deep_view() =~= v.deep_view().take(i as int));
        }
    }
    proof {
        assert(r.deep_view() =~= v.deep_view());
    }
    r
}

/// Clones a lambda; the copy has the same view.
pub fn clone_lambda(l: &Lambda) -> (r: Lambda)
    ensures
        r.deep_view() == l.deep_view(),
    decreases l,
{
    broadcast use lemma_lambda_view;

    Lambda { args_list: clone_strings(&l.args_list), body: clone_list(&l.body), env: l.env }
}

/// A decimal digit.
pub open spec fn is_digit(c: char) -> bool {
    48 <= c as u32 <= 57
}

/// The numeric value of a decimal digit character.
pub open spec fn digit_val(c: char) -> int {
    c as u32 - 48
}

/// Whether every character of `s` is a decimal digit.
pub open spec fn all_digits(s: Seq<char>) -> bool {
    forall|i: int| 0 <= i < s.len() ==> is_digit(#[trigger] s[i])
}

/// The value of a run of decimal digit characters.
pub open spec fn digits_val(s: Seq<char>) -> int
    decreases s.len(),
{
    if s.len() == 0 {
        0
    } else {
        digits_val(s.drop_last()) * 10 + digit_val(s.last())
    }
}

/// Whether token text looks numeric: it starts with a digit, or with a sign
/// followed by a digit. Numeric-looking text must parse as an integer;
/// anything else falls through to a symbol.
pub open spec fn is_num_candidate(s: Seq<char>) -> bool {
    (s.len() > 0 && is_digit(s[0])) || (s.len() > 1 && (s[0] == '+' || s[0] == '-') && is_digit(
        s[1],
    ))
}

/// What the text denotes as a 32-bit integer: `None` when it is malformed
/// (empty after the optional sign, or holding a non-digit) or out of range.
pub open spec fn spec_parse_i32(s: Seq<char>) -> Option<i32> {
    if s.len() > 0 && (s[0] == '+' || s[0] == '-') {
        let body = s.skip(1);
        if body.len() > 0 && all_digits(body) {
            let v = if s[0] == '-' {
                -digits_val(body)
            } else {
                digits_val(body)
            };
            if i32::MIN <= v <= i32::MAX {
                Some(v as i32)
            } else {
                None
            }
        } else {
            None
        }
    } else if s.len() > 0 && all_digits(s) {
        let v = digits_val(s);
        if v <= i32::MAX {
            Some(v as i32)
        } else {
            None
        }
    } else {
        None
    }
}

proof fn lemma_digits_val_nonneg(s: Seq<char>)
    requires
        all_digits(s),
    ensures
        digits_val(s) >= 0,
    decreases s.len(),
{
    if s.len() > 0 {
        assert(all_digits(s.drop_last())) by {
            assert(forall|i: int|
                0 <= i < s.len() - 1 ==> s.drop_last()[i] == #[trigger] s[i]);
        }
        lemma_digits_val_nonneg(s.drop_last());
    }
}

/// The digit run only grows in value as it is extended.
proof fn lemma_digits_val_take_monotone(s: Seq<char>, k: int)
    requires
        all_digits(s),
        0 <= k <= s.len(),
    ensures
        0 <= digits_val(s.take(k)) <= digits_val(s),
    decreases s.len() - k,
{
    assert(all_digits(s.take(k))) by {
        assert(forall|i: int| 0 <= i < k ==> s.take(k)[i] == #[trigger] s[i]);
    }
    lemma_digits_val_nonneg(s.take(k));
    if k == s.len() {
        assert(s.take(k) =~= s);
    } else {
        assert(s.take(k + 1).drop_last() =~= s.take(k));
        assert(digits_val(s.take(k + 1)) == digits_val(s.take(k)) * 10 + digit_val(s[k]));
        lemma_digits_val_take_monotone(s, k + 1);
    }
}

/// Parses the text of one token as a 32-bit integer.
fn parse_i32_text(s: &String) -> (r: Option<i32>)
    ensures
        match r {
            Some(n) => spec_parse_i32(s@) == Some(n),
            None => spec_parse_i32(s@) is None,
        },
{
    let chars = crate::tokenizer::chars_of(s.as_str());
    let n = chars.len();
    if n == 0 {
        return None;
    }
    let first = chars[0];
    let neg = first == '-';
    let start: usize = if first == '-' || first == '+' {
        1
    } else {
        0
    };
    if n == start {
        return None;
    }
    let ghost body = s@.skip(start as int);
    proof {
        if start == 0 {
            assert(body =~= s@);
        }
    }
    let mut acc: u64 = 0;
    let mut k: usize = start;
    while k < n
        invariant
            start <= k <= n,
            n == s@.len(),
            chars@ == s@,
            start == 0 || start == 1,
            start == 1 ==> (s@[0] == '+' || s@[0] == '-'),
            start == 0 ==> !(s@[0] == '+' || s@[0] == '-') || s@.len() == 0,
            n > start,
            body == s@.skip(start as int),
            all_digits(body.take((k - start) as int)),
            acc == digits_val(body.take((k - start) as int)),
            acc <= 0x8000_0000u64,
        decreases n - k,
    {
        let c = chars[k];
        let u = c as u32;
        if !(48 <= u && u <= 57) {
            proof {
                assert(body[(k - start) as int] == s@[k as int]);
                assert(!all_digits(body));
            }
            return None;
        }
        let d = (u - 48) as u64;
        let ghost prev = acc;
        acc = acc * 10 + d;
        k = k + 1;
        proof {
            assert(body.take((k - start) as int).drop_last() =~= body.take((k - 1 - start) as int));
            assert(body.take((k - start) as int).last() == body[(k - 1 - start) as int]);
            assert(body[(k - 1 - start) as int] == s@[(k - 1) as int]);
            assert(acc == digits_val(body.take((k - start) as int)));
        }
        if acc > 0x8000_0000u64 {
            proof {
                if all_digits(body) {
                    lemma_digits_val_take_monotone(body, (k - start) as int);
                    assert(digits_val(body) > 0x8000_0000);
                }
                if start == 1 {
                    assert(spec_parse_i32(s@) is None);
                } else {
                    assert(body =~= s@);
                    assert(spec_parse_i32(s@) is None);
                }
            }
            return None;
        }
    }
    proof {
        assert(body.take((k - start) as int) =~= body);
    }
    if neg {
        if acc == 0x8000_0000u64 {
            Some(i32::MIN)
        } else {
            Some(-(acc as i32))
        }
    } else {
        if acc > 0x7fff_ffffu64 {
            None
        } else {
            Some(acc as i32)
        }
    }
}

/// The nil expression, at spec level.
pub open spec fn nil_expr_v() -> ExprV {
    ExprV::Atom(AtomV::Nil)
}

/// What one string or plain token denotes: a string keeps its text (quotes
/// included); numeric-looking text must parse as a 32-bit integer and is a
/// `ParseInt` error otherwise; `#t` and `#f` are the booleans; everything
/// else is a symbol holding the raw token text.
pub open spec fn spec_parse_atom(t: TokenV) -> Result<AtomV, ParserErrV> {
    if t.ttype == TokenType::Str {
        Ok(AtomV::Str(t.value))
    } else if is_num_candidate(t.value) {
        match spec_parse_i32(t.value) {
            Some(v) => Ok(AtomV::Num(v)),
            None => Err(ParserErrV::ParseInt),
        }
    } else if t.value == "#t"@ {
        Ok(AtomV::Bool(true))
    } else if t.value == "#f"@ {
        Ok(AtomV::Bool(false))
    } else {
        Ok(AtomV::Symbol(t.value))
    }
}

/// One expression parsed off the top of the reversed token stack, along
/// with the tokens that remain. Empty input yields nil.
pub open spec fn spec_parse_expr(ts: Seq<TokenV>) -> (Result<ExprV, ParserErrV>, Seq<TokenV>)
    decreases ts.len(), 1int,
{
    if ts.len() == 0 {
        (Ok(nil_expr_v()), ts)
    } else {
        let t = ts.last();
        if t.ttype == TokenType::Opc {
            let (r, rest) = spec_parse_list(ts);
            match r {
                Ok(l) => (
                    Ok(
                        if l.len() <= 1 {
                            nil_expr_v()
                        } else {
                            ExprV::List(l)
                        },
                    ),
                    rest,
                ),
                Err(e) => (Err(e), rest),
            }
        } else if t.ttype == TokenType::Quo {
            let (r, rest) = spec_parse_expr(ts.drop_last());
            match r {
                Ok(q) => (Ok(ExprV::Quote(Box::new(q))), rest),
                Err(e) => (Err(e), rest),
            }
        } else if t.ttype == TokenType::Unquo {
            let (r, rest) = spec_parse_expr(ts.drop_last());
            match r {
                Ok(q) => (Ok(ExprV::Unquote(Box::new(q))), rest),
                Err(e) => (Err(e), rest),
            }
        } else if t.ttype == TokenType::Quasi {
            let (r, rest) = spec_parse_expr(ts.drop_last());
            match r {
                Ok(q) => (Ok(ExprV::Quasiquote(Box::new(q))), rest),
                Err(e) => (Err(e), rest),
            }
        } else if t.ttype == TokenType::Str || t.ttype == TokenType::Other {
            match spec_parse_atom(t) {
                Ok(a) => (Ok(ExprV::Atom(a)), ts.drop_last()),
                Err(e) => (Err(e), ts.drop_last()),
            }
        } else {
            (Err(ParserErrV::UnexpectedToken((t, expected_expr()))), ts.drop_last())
        }
    }
}

/// A parenthesised list parsed off the top of the stack: the open
/// parenthesis, then elements until `)` (the list is closed with a trailing
/// nil, making it proper) or `.` (exactly one further expression becomes the
/// dotted tail).
pub open spec fn spec_parse_list(ts: Seq<TokenV>) -> (Result<Seq<ExprV>, ParserErrV>, Seq<TokenV>)
    decreases ts.len(), 0int,
{
    if ts.len() == 0 {
        (Err(ParserErrV::TokenNotFound("Token not found parsing list"@)), ts)
    } else {
        let t = ts.last();
        if t.ttype != TokenType::Opc {
            (Err(ParserErrV::UnexpectedToken((t, seq!["("@]))), ts.drop_last())
        } else {
            spec_parse_list_items(ts.drop_last(), Seq::empty())
        }
    }
}

/// The elements of an open list, accumulated into `acc`. Running out of
/// tokens inside the list is the `UnclosedList` error, so a read loop can
/// tell "keep reading" from a syntax error.
pub open spec fn spec_parse_list_items(ts: Seq<TokenV>, acc: Seq<ExprV>) -> (
    Result<Seq<ExprV>, ParserErrV>,
    Seq<TokenV>,
)
    decreases ts.len(), 2int,
{
    if ts.len() == 0 {
        (Err(ParserErrV::UnclosedList), ts)
    } else {
        let t = ts.last();
        if t.ttype == TokenType::Assoc {
            if acc.len() == 0 {
                (Err(ParserErrV::UnexpectedToken((t, expected_expr()))), ts.drop_last())
            } else {
                let (r, rest) = spec_parse_cdr(ts);
                match r {
                    Ok(cdr) => (Ok(acc.push(cdr)), rest),
                    Err(e) => (Err(e), rest),
                }
            }
        } else if t.ttype == TokenType::Clc {
            (Ok(acc.push(nil_expr_v())), ts.drop_last())
        } else {
            let (r, rest) = spec_parse_expr(ts);
            match r {
                Ok(e) => if rest.len() < ts.len() {
                    spec_parse_list_items(rest, acc.push(e))
                } else {
                    (Err(ParserErrV::UnclosedList), rest)
                },
                Err(e) => (Err(e), rest),
            }
        }
    }
}

/// The dotted tail of a list: the dot, exactly one expression, then the
/// closing parenthesis.
pub open spec fn spec_parse_cdr(ts: Seq<TokenV>) -> (Result<ExprV, ParserErrV>, Seq<TokenV>)
    decreases ts.len(), 0int,
{
    if ts.len() == 0 {
        (Err(ParserErrV::TokenNotFound("Token not found parsing cons"@)), ts)
    } else {
        let t = ts.last();
        if t.ttype != TokenType::Assoc {
            (Err(ParserErrV::UnexpectedToken((t, seq!["."@]))), ts.drop_last())
        } else {
            let (r, rest) = spec_parse_expr(ts.drop_last());
            match r {
                Ok(e) => if rest.len() == 0 {
                    (Err(ParserErrV::UnclosedList), rest)
                } else {
                    let end = rest.last();
                    if end.ttype == TokenType::Clc {
                        (Ok(e), rest.drop_last())
                    } else {
                        (Err(ParserErrV::UnexpectedToken((end, seq![")"@]))), rest.drop_last())
                    }
                },
                Err(e2) => (Err(e2), rest),
            }
        }
    }
}

/// One whole parse: one expression, which must consume every token;
/// trailing tokens are an error.
pub open spec fn spec_parse(ts: Seq<TokenV>) -> (Result<ExprV, ParserErrV>, Seq<TokenV>) {
    let (r, rest) = spec_parse_expr(ts);
    match r {
        Ok(e) => if rest.len() == 0 {
            (Ok(e), rest)
        } else {
            (Err(ParserErrV::UnexpectedToken((rest.last(), seq!["EOF"@]))), rest.drop_last())
        },
        Err(e) => (Err(e), rest),
    }
}

/// The parser never adds tokens back onto the stack.
pub proof fn lemma_parse_expr_len(ts: Seq<TokenV>)
    ensures
        spec_parse_expr(ts).1.len() <= ts.len(),
    decreases ts.len(), 1int,
{
    if ts.len() > 0 {
        let t = ts.last();
        if t.ttype == TokenType::Opc {
            lemma_parse_list_len(ts);
        } else if t.ttype == TokenType::Quo || t.ttype == TokenType::Unquo || t.ttype
            == TokenType::Quasi {
            lemma_parse_expr_len(ts.drop_last());
        }
    }
}

pub proof fn lemma_parse_list_len(ts: Seq<TokenV>)
    ensures
        spec_parse_list(ts).1.len() <= ts.len(),
    decreases ts.len(), 0int,
{
    if ts.len() > 0 && ts.last().ttype == TokenType::Opc {
        lemma_parse_items_len(ts.drop_last(), Seq::empty());
    }
}

pub proof fn lemma_parse_items_len(ts: Seq<TokenV>, acc: Seq<ExprV>)
    ensures
        spec_parse_list_items(ts, acc).1.len() <= ts.len(),
    decreases ts.len(), 2int,
{
    if ts.len() > 0 {
        let t = ts.last();
        if t.ttype == TokenType::Assoc {
            if acc.len() > 0 {
                lemma_parse_cdr_len(ts);
            }
        } else if t.ttype == TokenType::Clc {
        } else {
            lemma_parse_expr_len(ts);
            let (r, rest) = spec_parse_expr(ts);
            if r is Ok && rest.len() < ts.len() {
                lemma_parse_items_len(rest, acc.push(r->Ok_0));
            }
        }
    }
}

pub proof fn lemma_parse_cdr_len(ts: Seq<TokenV>)
    ensures
        spec_parse_cdr(ts).1.len() <= ts.len(),
    decreases ts.len(), 0int,
{
    if ts.len() > 0 && ts.last().ttype == TokenType::Assoc {
        lemma_parse_expr_len(ts.drop_last());
    }
}

/// On any tokens at all, parsing one expression consumes at least one.
pub proof fn lemma_parse_expr_consumes(ts: Seq<TokenV>)
    requires
        ts.len() > 0,
    ensures
        spec_parse_expr(ts).1.len() < ts.len(),
{
    let t = ts.last();
    if t.ttype == TokenType::Opc {
        lemma_parse_items_len(ts.drop_last(), Seq::empty());
        assert(spec_parse_list(ts).1 == spec_parse_list_items(ts.drop_last(), Seq::empty()).1);
        assert(spec_parse_expr(ts).1 == spec_parse_list(ts).1);
    } else if t.ttype == TokenType::Quo || t.ttype == TokenType::Unquo || t.ttype
        == TokenType::Quasi {
        lemma_parse_expr_len(ts.drop_last());
        assert(spec_parse_expr(ts).1 == spec_parse_expr(ts.drop_last()).1);
    } else {
        assert(spec_parse_expr(ts).1 == ts.drop_last());
    }
}

/// Whether an executable parse outcome denotes the given spec-level one.
pub open spec fn expr_result_matches(
    r: Result<Expr, ParserErr>,
    s: Result<ExprV, ParserErrV>,
) -> bool {
    match (r, s) {
        (Ok(e), Ok(v)) => e.deep_view() == v,
        (Err(a), Err(b)) => a.deep_view() == b,
        _ => false,
    }
}

/// Whether an executable list-parse outcome denotes the given spec-level
/// one.
pub open spec fn list_result_matches(
    r: Result<List, ParserErr>,
    s: Result<Seq<ExprV>, ParserErrV>,
) -> bool {
    match (r, s) {
        (Ok(l), Ok(v)) => l.deep_view() == v,
        (Err(a), Err(b)) => a.deep_view() == b,
        _ => false,
    }
}

/// Dropping the last element of a vector drops the last element of its deep
/// view.
pub proof fn lemma_deep_view_drop_last<T: DeepView>(pre: Vec<T>, post: Vec<T>)
    requires
        pre@.len() > 0,
        post@ == pre@.drop_last(),
    ensures
        post.deep_view() == pre.deep_view().drop_last(),
{
    assert forall|j: int| 0 <= j < post@.len() implies post.deep_view()[j]
        == pre.deep_view().drop_last()[j] by {
        assert(post.deep_view()[j] == post@[j].deep_view());
        assert(pre.deep_view()[j] == pre@[j].deep_view());
    }
    assert(post.deep_view() =~= pre.deep_view().drop_last());
}

fn digit_char(c: char) -> (b: bool)
    ensures
        b == is_digit(c),
{
    let u = c as u32;
    48 <= u && u <= 57
}

fn candidate_text(s: &String) -> (b: bool)
    ensures
        b == is_num_candidate(s@),
{
    let st = s.as_str();
    let n = st.unicode_len();
    if n == 0 {
        return false;
    }
    let c0 = st.get_char(0);
    if digit_char(c0) {
        return true;
    }
    if n > 1 && (c0 == '+' || c0 == '-') {
        return digit_char(st.get_char(1));
    }
    false
}

/// Whether the string equals the literal text.
fn string_is(s: &String, lit: &str) -> (b: bool)
    ensures
        b == (s@ == lit@),
{
    let other = lit.to_owned();
    *s == other
}

/// Pops one token and reads it as an atom.
fn parse_atom(tokens: &mut Vec<Token>) -> (r: Result<Atom, ParserErr>)
    ensures
        old(tokens)@.len() == 0 ==> final(tokens)@ == old(tokens)@ && (r matches Err(e)
            && e.deep_view() == ParserErrV::TokenNotFound("Token not found parsing atom"@)),
        old(tokens)@.len() > 0 ==> {
            &&& final(tokens).deep_view() == old(tokens).deep_view().drop_last()
            &&& match (r, spec_parse_atom(old(tokens).deep_view().last())) {
                (Ok(a), Ok(v)) => a.deep_view() == v,
                (Err(a), Err(b)) => a.deep_view() == b,
                _ => false,
            }
        },
{
    let ghost pre = *tokens;
    let t = match tokens.pop() {
        Some(t) => t,
        None => {
            return Err(ParserErr::TokenNotFound("Token not found parsing atom".to_owned()));
        },
    };
    proof {
        lemma_deep_view_drop_last(pre, *tokens);
        assert(pre.deep_view().last() == pre@[pre@.len() - 1].deep_view());
    }
    if t.ttype == TokenType::Str {
        return Ok(Atom::Str(t.value));
    }
    if candidate_text(&t.value) {
        return match parse_i32_text(&t.value) {
            Some(n) => Ok(Atom::Num(n)),
            None => Err(ParserErr::ParseInt),
        };
    }
    if string_is(&t.value, "#t") {
        return Ok(Atom::Bool(true));
    }
    if string_is(&t.value, "#f") {
        return Ok(Atom::Bool(false));
    }
    Ok(Atom::Symbol(t.value))
}

/// Parses one expression off the token stack, dispatching on the kind of
/// the next token.
pub fn parse_expr(tokens: &mut Vec<Token>) -> (r: Result<Expr, ParserErr>)
    ensures
        final(tokens).deep_view() == spec_parse_expr(old(tokens).deep_view()).1,
        expr_result_matches(r, spec_parse_expr(old(tokens).deep_view()).0),
    decreases tokens@.len(), 1int,
{
    broadcast use lemma_expr_view_list;

    let ghost ts = tokens.deep_view();
    let n = tokens.len();
    if n == 0 {
        return Ok(Expr::Atom(Box::new(Atom::Nil)));
    }
    proof {
        assert(ts.last() == tokens@[n - 1].deep_view());
    }
    let tt = tokens[n - 1].ttype;
    match tt {
        TokenType::Opc => {
            match parse_list(tokens) {
                Ok(l) => {
                    if l.len() <= 1 {
                        Ok(Expr::Atom(Box::new(Atom::Nil)))
                    } else {
                        Ok(Expr::List(Box::new(l)))
                    }
                },
                Err(e) => Err(e),
            }
        },
        TokenType::Quo => {
            let ghost pre = *tokens;
            let _t = tokens.pop();
            proof {
                lemma_deep_view_drop_last(pre, *tokens);
            }
            match parse_expr(tokens) {
                Ok(q) => Ok(Expr::Quote(Box::new(q))),
                Err(e) => Err(e),
            }
        },
        TokenType::Unquo => {
            let ghost pre = *tokens;
            let _t = tokens.pop();
            proof {
                lemma_deep_view_drop_last(pre, *tokens);
            }
            match parse_expr(tokens) {
                Ok(q) => Ok(Expr::Unquote(Box::new(q))),
                Err(e) => Err(e),
            }
        },
        TokenType::Quasi => {
            let ghost pre = *tokens;
            let _t = tokens.pop();
            proof {
                lemma_deep_view_drop_last(pre, *tokens);
            }
            match parse_expr(tokens) {
                Ok(q) => Ok(Expr::Quasiquote(Box::new(q))),
                Err(e) => Err(e),
            }
        },
        TokenType::Str | TokenType::Other => {
            match parse_atom(tokens) {
                Ok(a) => Ok(Expr::Atom(Box::new(a))),
                Err(e) => Err(e),
            }
        },
        _ => {
            let ghost pre = *tokens;
            let t = tokens.pop().unwrap();
            proof {
                lemma_deep_view_drop_last(pre, *tokens);
            }
            Err(ParserErr::UnexpectedToken((t, expected_expr_vec())))
        },
    }
}

/// Parses a parenthesised list off the token stack.
#[verifier::loop_isolation(false)]
fn parse_list(tokens: &mut Vec<Token>) -> (r: Result<List, ParserErr>)
    ensures
        final(tokens).deep_view() == spec_parse_list(old(tokens).deep_view()).1,
        list_result_matches(r, spec_parse_list(old(tokens).deep_view()).0),
    decreases tokens@.len(), 0int,
{
    let ghost ts = tokens.deep_view();
    let ghost pre = *tokens;
    let t = match tokens.pop() {
        Some(t) => t,
        None => {
            return Err(ParserErr::TokenNotFound("Token not found parsing list".to_owned()));
        },
    };
    proof {
        lemma_deep_view_drop_last(pre, *tokens);
        assert(ts.last() == pre@[pre@.len() - 1].deep_view());
    }
    if !(t.ttype == TokenType::Opc) {
        return Err(ParserErr::UnexpectedToken((t, expected_one("("))));
    }
    let mut list: List = Vec::new();
    proof {
        assert(list.deep_view() =~= Seq::<ExprV>::empty());
    }
    loop
        invariant
            tokens@.len() < ts.len(),
            spec_parse_list_items(ts.drop_last(), Seq::empty()) == spec_parse_list_items(
                tokens.deep_view(),
                list.deep_view(),
            ),
        decreases tokens@.len(),
    {
        let ghost cur = tokens.deep_view();
        let ghost acc = list.deep_view();
        let m = tokens.len();
        if m == 0 {
            return Err(ParserErr::UnclosedList);
        }
        proof {
            assert(cur.last() == tokens@[m - 1].deep_view());
        }
        let tt = tokens[m - 1].ttype;
        if tt == TokenType::Assoc {
            if list.len() == 0 {
                let ghost pre2 = *tokens;
                let t2 = tokens.pop().unwrap();
                proof {
                    lemma_deep_view_drop_last(pre2, *tokens);
                }
                return Err(ParserErr::UnexpectedToken((t2, expected_expr_vec())));
            }
            let cdr = match parse_cdr(tokens) {
                Ok(c) => c,
                Err(e) => {
                    return Err(e);
                },
            };
            let ghost prel = list;
            let ghost gcdr = cdr;
            list.push(cdr);
            proof {
                lemma_deep_view_push(prel, list, gcdr);
            }
            return Ok(list);
        } else if tt == TokenType::Clc {
            let ghost pre2 = *tokens;
            let _t2 = tokens.pop();
            proof {
                lemma_deep_view_drop_last(pre2, *tokens);
            }
            let ghost prel = list;
            let nil = Expr::Atom(Box::new(Atom::Nil));
            let ghost gnil = nil;
            list.push(nil);
            proof {
                lemma_deep_view_push(prel, list, gnil);
            }
            return Ok(list);
        } else {
            let e = match parse_expr(tokens) {
                Ok(e) => e,
                Err(e) => {
                    return Err(e);
                },
            };
            proof {
                lemma_parse_expr_consumes(cur);
            }
            let ghost prel = list;
            let ghost ge = e;
            list.push(e);
            proof {
                lemma_deep_view_push(prel, list, ge);
            }
        }
    }
}

/// Parses the dotted tail of a list: the dot, one expression, then the
/// closing parenthesis.
fn parse_cdr(tokens: &mut Vec<Token>) -> (r: Result<Expr, ParserErr>)
    ensures
        final(tokens).deep_view() == spec_parse_cdr(old(tokens).deep_view()).1,
        expr_result_matches(r, spec_parse_cdr(old(tokens).deep_view()).0),
    decreases tokens@.len(), 0int,
{
    let ghost ts = tokens.deep_view();
    let ghost pre = *tokens;
    let t = match tokens.pop() {
        Some(t) => t,
        None => {
            return Err(ParserErr::TokenNotFound("Token not found parsing cons".to_owned()));
        },
    };
    proof {
        lemma_deep_view_drop_last(pre, *tokens);
        assert(ts.last() == pre@[pre@.len() - 1].deep_view());
    }
    if !(t.ttype == TokenType::Assoc) {
        return Err(ParserErr::UnexpectedToken((t, expected_one("."))));
    }
    let expr = match parse_expr(tokens) {
        Ok(e) => e,
        Err(e) => {
            return Err(e);
        },
    };
    let ghost mid = tokens.deep_view();
    let ghost pre2 = *tokens;
    let end = match tokens.pop() {
        Some(t2) => t2,
        None => {
            return Err(ParserErr::UnclosedList);
        },
    };
    proof {
        lemma_deep_view_drop_last(pre2, *tokens);
        assert(mid.last() == pre2@[pre2@.len() - 1].deep_view());
    }
    if end.ttype == TokenType::Clc {
        Ok(expr)
    } else {
        Err(ParserErr::UnexpectedToken((end, expected_one(")"))))
    }
}

/// Parses the tokens as one expression, consuming all of them; tokens left
/// over after a complete expression are an error.
pub fn parse(tokens: &mut Vec<Token>) -> (r: Result<Expr, ParserErr>)
    ensures
        final(tokens).deep_view() == spec_parse(old(tokens).deep_view()).1,
        expr_result_matches(r, spec_parse(old(tokens).deep_view()).0),
{
    let e = match parse_expr(tokens) {
        Ok(e) => e,
        Err(err) => {
            return Err(err);
        },
    };
    if tokens.len() == 0 {
        Ok(e)
    } else {
        let ghost pre = *tokens;
        let t = tokens.pop().unwrap();
        proof {
            lemma_deep_view_drop_last(pre, *tokens);
            assert(pre.deep_view().last() == pre@[pre@.len() - 1].deep_view());
        }
        Err(ParserErr::UnexpectedToken((t, expected_one("EOF"))))
    }
}

} // verus!
