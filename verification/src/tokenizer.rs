//! The tokenizer: turns source text into lexical tokens. Whitespace is
//! skipped; a `;` starts a comment that runs to the end of the line; the
//! characters `( ) . ' \u{60} ,` are single-character tokens; a `"`-delimited
//! run (no escape processing) is one string token including both quotes; any
//! other maximal run not containing whitespace or `( ) " ' ; ,` is one plain
//! token. The token sequence is produced in source order and then reversed,
//! so the parser can treat it as a pop-from-end stack.
use vstd::prelude::*;

verus! {

broadcast use vstd::std_specs::vec::group_vec_axioms;

/// The half-open range of source positions a token covers.
#[derive(Debug)]
pub struct TokenRange {
    pub start: usize,
    pub end: usize,
}

/// The lexical kind of a token: open and close parenthesis, quote,
/// quasiquote, unquote, the dot of a dotted pair, a string literal, or a
/// plain run of characters.
#[derive(Clone, Copy, Debug, PartialEq, Eq, Structural)]
pub enum TokenType {
    Opc,
    Clc,
    Quo,
    Quasi,
    Unquo,
    Assoc,
    Str,
    Other,
}

/// One lexical token: its text, its source range, and its kind.
#[derive(Debug)]
pub struct Token {
    pub value: String,
    pub range: TokenRange,
    pub ttype: TokenType,
}

/// Spec-level view of a [`Token`].
#[verifier::ext_equal]
pub struct TokenV {
    pub value: Seq<char>,
    pub start: int,
    pub end: int,
    pub ttype: TokenType,
}

impl DeepView for Token {
    type V = TokenV;

    open spec fn deep_view(&self) -> TokenV {
        TokenV {
            value: self.value@,
            start: self.range.start as int,
            end: self.range.end as int,
            ttype: self.ttype,
        }
    }
}

/// Whitespace, for the tokenizer's purposes.
pub open spec fn is_ws(c: char) -> bool {
    c == ' ' || c == '\t' || c == '\n' || c == '\r'
}

/// A character that ends a plain run of characters.
pub open spec fn is_run_end(c: char) -> bool {
    is_ws(c) || c == '(' || c == ')' || c == '"' || c == '\'' || c == ';' || c == ','
}

/// A character that forms a single-character token on its own.
pub open spec fn is_single(c: char) -> bool {
    c == '(' || c == ')' || c == '.' || c == '\'' || c == ',' || c == '`'
}

/// The kind a token gets from its first character.
pub open spec fn kind_of(c: char) -> TokenType {
    if c == '(' {
        TokenType::Opc
    } else if c == ')' {
        TokenType::Clc
    } else if c == '\'' {
        TokenType::Quo
    } else if c == '`' {
        TokenType::Quasi
    } else if c == ',' {
        TokenType::Unquo
    } else if c == '.' {
        TokenType::Assoc
    } else if c == '"' {
        TokenType::Str
    } else {
        TokenType::Other
    }
}

/// The first position at or after `i` holding a non-whitespace character,
/// or the text's length.
pub open spec fn skip_ws_from(s: Seq<char>, i: int) -> int
    decreases s.len() - i,
{
    if !(0 <= i < s.len()) {
        s.len() as int
    } else if !is_ws(s[i]) {
        i
    } else {
        skip_ws_from(s, i + 1)
    }
}

/// The first position at or after `i` holding `c`, or the text's length.
pub open spec fn find_char(s: Seq<char>, i: int, c: char) -> int
    decreases s.len() - i,
{
    if !(0 <= i < s.len()) {
        s.len() as int
    } else if s[i] == c {
        i
    } else {
        find_char(s, i + 1, c)
    }
}

/// The first position at or after `i` that ends a plain run, or the text's
/// length.
pub open spec fn run_end_from(s: Seq<char>, i: int) -> int
    decreases s.len() - i,
{
    if !(0 <= i < s.len()) {
        s.len() as int
    } else if is_run_end(s[i]) {
        i
    } else {
        run_end_from(s, i + 1)
    }
}

pub proof fn lemma_skip_ws_bounds(s: Seq<char>, i: int)
    requires
        0 <= i <= s.len(),
    ensures
        i <= skip_ws_from(s, i) <= s.len(),
    decreases s.len() - i,
{
    if i < s.len() && is_ws(s[i]) {
        lemma_skip_ws_bounds(s, i + 1);
    }
}

pub proof fn lemma_find_char_bounds(s: Seq<char>, i: int, c: char)
    requires
        0 <= i <= s.len(),
    ensures
        i <= find_char(s, i, c) <= s.len(),
    decreases s.len() - i,
{
    if i < s.len() && s[i] != c {
        lemma_find_char_bounds(s, i + 1, c);
    }
}

pub proof fn lemma_run_end_bounds(s: Seq<char>, i: int)
    requires
        0 <= i <= s.len(),
    ensures
        i <= run_end_from(s, i) <= s.len(),
    decreases s.len() - i,
{
    if i < s.len() && !is_run_end(s[i]) {
        lemma_run_end_bounds(s, i + 1);
    }
}

/// The position of the next significant character at or after `i`: skips
/// whitespace, then any comment (`;` to end of line) and the whitespace
/// after it, until real content or the end of the text.
pub open spec fn skip_blank(s: Seq<char>, i: int) -> int
    decreases s.len() - i,
{
    let j = skip_ws_from(s, i);
    if 0 <= i <= s.len() && j < s.len() && s[j] == ';' {
        proof {
            lemma_skip_ws_bounds(s, i);
            lemma_find_char_bounds(s, j + 1, '\n');
        }
        skip_blank(s, find_char(s, j + 1, '\n'))
    } else {
        j
    }
}

pub proof fn lemma_skip_blank_bounds(s: Seq<char>, i: int)
    requires
        0 <= i <= s.len(),
    ensures
        i <= skip_blank(s, i) <= s.len(),
    decreases s.len() - i,
{
    let j = skip_ws_from(s, i);
    lemma_skip_ws_bounds(s, i);
    if j < s.len() && s[j] == ';' {
        lemma_find_char_bounds(s, j + 1, '\n');
        lemma_skip_blank_bounds(s, find_char(s, j + 1, '\n'));
    }
}

/// Where the token that starts at the significant position `p` ends.
pub open spec fn token_end(s: Seq<char>, p: int) -> int {
    if is_single(s[p]) {
        p + 1
    } else if s[p] == '"' {
        let q = find_char(s, p + 1, '"');
        if q < s.len() {
            q + 1
        } else {
            s.len() as int
        }
    } else {
        run_end_from(s, p + 1)
    }
}

pub proof fn lemma_token_end_bounds(s: Seq<char>, p: int)
    requires
        0 <= p < s.len(),
    ensures
        p < token_end(s, p) <= s.len(),
{
    lemma_find_char_bounds(s, p + 1, '"');
    lemma_run_end_bounds(s, p + 1);
}

/// The tokens of the text from position `i` on, in source order.
pub open spec fn spec_tokenize(s: Seq<char>, i: int) -> Seq<TokenV>
    decreases s.len() - i,
{
    if !(0 <= i <= s.len()) {
        Seq::empty()
    } else {
        let p = skip_blank(s, i);
        if p >= s.len() {
            Seq::empty()
        } else {
            proof {
                lemma_skip_blank_bounds(s, i);
                lemma_token_end_bounds(s, p);
            }
            let e = token_end(s, p);
            seq![
                TokenV { value: s.subrange(p, e), start: p, end: e, ttype: kind_of(s[p]) },
            ] + spec_tokenize(s, e)
        }
    }
}

/// The characters of a string slice, as a vector.
pub fn chars_of(s: &str) -> (v: Vec<char>)
    ensures
        v@ == s@,
{
    let n = s.unicode_len();
    let mut v: Vec<char> = Vec::new();
    let mut i: usize = 0;
    while i < n
        invariant
            i <= n,
            n == s@.len(),
            v@ == s@.take(i as int),
        decreases n - i,
    {
        v.push(s.get_char(i));
        i = i + 1;
        proof {
            assert(v@ =~= s@.take(i as int));
        }
    }
    proof {
        assert(v@ =~= s@);
    }
    v
}

fn ws_char(c: char) -> (b: bool)
    ensures
        b == is_ws(c),
{
    c == ' ' || c == '\t' || c == '\n' || c == '\r'
}

fn run_end_char(c: char) -> (b: bool)
    ensures
        b == is_run_end(c),
{
    ws_char(c) || c == '(' || c == ')' || c == '"' || c == '\'' || c == ';' || c == ','
}

fn single_char(c: char) -> (b: bool)
    ensures
        b == is_single(c),
{
    c == '(' || c == ')' || c == '.' || c == '\'' || c == ',' || c == '`'
}

fn kind_char(c: char) -> (t: TokenType)
    ensures
        t == kind_of(c),
{
    if c == '(' {
        TokenType::Opc
    } else if c == ')' {
        TokenType::Clc
    } else if c == '\'' {
        TokenType::Quo
    } else if c == '`' {
        TokenType::Quasi
    } else if c == ',' {
        TokenType::Unquo
    } else if c == '.' {
        TokenType::Assoc
    } else if c == '"' {
        TokenType::Str
    } else {
        TokenType::Other
    }
}

fn skip_ws(v: &Vec<char>, i: usize) -> (r: usize)
    requires
        i <= v@.len(),
    ensures
        r as int == skip_ws_from(v@, i as int),
        i <= r <= v@.len(),
{
    let mut j = i;
    while j < v.len() && ws_char(v[j])
        invariant
            i <= j <= v@.len(),
            skip_ws_from(v@, i as int) == skip_ws_from(v@, j as int),
        decreases v@.len() - j,
    {
        j = j + 1;
    }
    j
}

fn find_pos(v: &Vec<char>, i: usize, c: char) -> (r: usize)
    requires
        i <= v@.len(),
    ensures
        r as int == find_char(v@, i as int, c),
        i <= r <= v@.len(),
{
    let mut j = i;
    while j < v.len() && v[j] != c
        invariant
            i <= j <= v@.len(),
            find_char(v@, i as int, c) == find_char(v@, j as int, c),
        decreases v@.len() - j,
    {
        j = j + 1;
    }
    j
}

fn run_end(v: &Vec<char>, i: usize) -> (r: usize)
    requires
        i <= v@.len(),
    ensures
        r as int == run_end_from(v@, i as int),
        i <= r <= v@.len(),
{
    let mut j = i;
    while j < v.len() && !run_end_char(v[j])
        invariant
            i <= j <= v@.len(),
            run_end_from(v@, i as int) == run_end_from(v@, j as int),
        decreases v@.len() - j,
    {
        j = j + 1;
    }
    j
}

fn next_significant(v: &Vec<char>, i: usize) -> (r: usize)
    requires
        i <= v@.len(),
    ensures
        r as int == skip_blank(v@, i as int),
        i <= r <= v@.len(),
{
    let mut pos = i;
    loop
        invariant
            i <= pos <= v@.len(),
            skip_blank(v@, i as int) == skip_blank(v@, pos as int),
        decreases v@.len() - pos,
    {
        let j = skip_ws(v, pos);
        if j < v.len() && v[j] == ';' {
            let n = find_pos(v, j + 1, '\n');
            proof {
                lemma_skip_blank_bounds(v@, n as int);
            }
            pos = n;
        } else {
            return j;
        }
    }
}

/// Reverses a vector of tokens.
fn reverse_tokens(v: Vec<Token>) -> (r: Vec<Token>)
    ensures
        r.deep_view() == v.deep_view().reverse(),
{
    let ghost orig = v.deep_view();
    let mut v = v;
    let mut r: Vec<Token> = Vec::new();
    proof {
        assert(orig.take(v@.len() as int) =~= orig);
        assert(orig.skip(v@.len() as int) =~= Seq::<TokenV>::empty());
        assert(orig.skip(v@.len() as int).reverse() =~= Seq::<TokenV>::empty());
    }
    while v.len() > 0
        invariant
            v@.len() <= orig.len(),
            v.deep_view() == orig.take(v@.len() as int),
            r.deep_view() == orig.skip(v@.len() as int).reverse(),
        decreases v@.len(),
    {
        proof {
            assert(v.deep_view()[v@.len() - 1] == v@[v@.len() - 1].deep_view());
        }
        let ghost prevr = r;
        let ghost prevv = v;
        let t = v.pop().unwrap();
        let ghost gt = t;
        r.push(t);
        proof {
            crate::parser::lemma_deep_view_push(prevr, r, gt);
            assert forall|j: int| 0 <= j < v@.len() implies v.deep_view()[j] == orig.take(
                v@.len() as int,
            )[j] by {
                assert(v@[j] == prevv@[j]);
                assert(v.deep_view()[j] == v@[j].deep_view());
                assert(prevv.deep_view()[j] == prevv@[j].deep_view());
                assert(prevv.deep_view()[j] == orig.take(prevv@.len() as int)[j]);
            }
            assert(v.deep_view() =~= orig.take(v@.len() as int));
            assert(r.deep_view() =~= orig.skip(v@.len() as int).reverse());
        }
    }
    proof {
        assert(orig.skip(0) =~= orig);
    }
    r
}

/// Tokenizes the text: tokens in source order, then reversed so the parser
/// can pop its next token from the end. Text that is empty or holds only
/// whitespace and comments yields no tokens.
pub fn tokenize(s: &str) -> (res: Vec<Token>)
    ensures
        res.deep_view() == spec_tokenize(s@, 0).reverse(),
{
    let v = chars_of(s);
    let mut out: Vec<Token> = Vec::new();
    let mut offs: usize = 0;
    proof {
        assert(out.deep_view() + spec_tokenize(s@, 0) =~= spec_tokenize(s@, 0));
    }
    loop
        invariant
            offs <= v@.len(),
            v@ == s@,
            out.deep_view() + spec_tokenize(s@, offs as int) == spec_tokenize(s@, 0),
        ensures
            out.deep_view() == spec_tokenize(s@, 0),
        decreases v@.len() - offs,
    {
        let p = next_significant(&v, offs);
        if p >= v.len() {
            proof {
                assert(spec_tokenize(s@, offs as int) =~= Seq::<TokenV>::empty());
                assert(out.deep_view() =~= out.deep_view() + Seq::<TokenV>::empty());
            }
            break;
        }
        proof {
            lemma_token_end_bounds(s@, p as int);
        }
        let e = if single_char(v[p]) {
            p + 1
        } else if v[p] == '"' {
            let q = find_pos(&v, p + 1, '"');
            if q < v.len() {
                q + 1
            } else {
                v.len()
            }
        } else {
            run_end(&v, p + 1)
        };
        let value = s.substring_char(p, e).to_owned();
        let ttype = kind_char(v[p]);
        let t = Token { value, range: TokenRange { start: p, end: e }, ttype };
        let ghost gt = t;
        let ghost prev = out;
        out.push(t);
        proof {
            crate::parser::lemma_deep_view_push(prev, out, gt);
            assert(gt.deep_view() == (TokenV {
                value: s@.subrange(p as int, e as int),
                start: p as int,
                end: e as int,
                ttype: kind_of(s@[p as int]),
            }));
            assert(out.deep_view() + spec_tokenize(s@, e as int) =~= spec_tokenize(s@, 0));
        }
        offs = e;
    }
    reverse_tokens(out)
}

} // verus!
