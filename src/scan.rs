use vstd::prelude::*;
use crate::print::names;

verus! {

/// ASCII whitespace, which separates tokens.
pub open spec fn is_space(c: char) -> bool {
    c == ' ' || c == '\t' || c == '\n' || c == '\x0C' || c == '\r'
}

/// The four reserved symbols, each a token of its own.
pub open spec fn is_symbol(c: char) -> bool {
    c == '(' || c == ')' || c == '.' || c == 'λ'
}

/// The word `s[start..end]`, if it is not empty.
pub open spec fn word(s: Seq<char>, start: int, end: int) -> Seq<Seq<char>> {
    if start < end {
        seq![s.subrange(start, end)]
    } else {
        seq![]
    }
}

/// The tokens of `s` from position `i` on, where the word under way began
/// at `start`.
pub open spec fn lex(s: Seq<char>, start: int, i: int) -> Seq<Seq<char>>
    decreases s.len() - i,
{
    if i >= s.len() {
        word(s, start, s.len() as int)
    } else if is_space(s[i]) {
        word(s, start, i) + lex(s, i + 1, i + 1)
    } else if is_symbol(s[i]) {
        word(s, start, i) + seq![seq![s[i]]] + lex(s, i + 1, i + 1)
    } else {
        lex(s, start, i + 1)
    }
}

/// The tokens of `s`: each reserved symbol, and each maximal run of other
/// characters that are not whitespace.
pub open spec fn tokens(s: Seq<char>) -> Seq<Seq<char>> {
    lex(s, 0, 0)
}

/// A non-empty run of characters that are neither whitespace nor symbols.
pub open spec fn is_word(w: Seq<char>) -> bool {
    w.len() > 0 && forall|i: int| 0 <= i < w.len() ==> !is_space(#[trigger] w[i]) && !is_symbol(w[i])
}

/// Text that begins at a token boundary: empty, or led by whitespace or a symbol.
pub open spec fn at_boundary(x: Seq<char>) -> bool {
    x.len() == 0 || is_space(x[0]) || is_symbol(x[0])
}

proof fn lemma_lex_shift(p: Seq<char>, x: Seq<char>, a: int, b: int)
    requires
        0 <= a <= b <= x.len(),
    ensures
        lex(p + x, p.len() + a, p.len() + b) == lex(x, a, b),
    decreases x.len() - b,
{
    let s = p + x;
    assert(s.subrange(p.len() + a, p.len() + b) =~= x.subrange(a, b));
    if b < x.len() {
        assert(s[p.len() + b] == x[b]);
        lemma_lex_shift(p, x, b + 1, b + 1);
        lemma_lex_shift(p, x, a, b + 1);
    } else {
        assert(s.len() == p.len() + b);
    }
}

/// A symbol in front is a token of its own.
pub proof fn lemma_tokens_symbol(c: char, x: Seq<char>)
    requires
        is_symbol(c),
    ensures
        tokens(seq![c] + x) == seq![seq![c]] + tokens(x),
{
    let s = seq![c] + x;
    assert(s[0] == c);
    lemma_lex_shift(seq![c], x, 0, 0);
    assert(word(s, 0, 0) =~= seq![]);
    assert(tokens(s) =~= seq![seq![c]] + tokens(x));
}

/// Whitespace in front is skipped.
pub proof fn lemma_tokens_space(c: char, x: Seq<char>)
    requires
        is_space(c),
    ensures
        tokens(seq![c] + x) == tokens(x),
{
    let s = seq![c] + x;
    assert(s[0] == c);
    lemma_lex_shift(seq![c], x, 0, 0);
    assert(word(s, 0, 0) =~= seq![]);
    assert(tokens(s) =~= tokens(x));
}

proof fn lemma_lex_in_word(w: Seq<char>, x: Seq<char>, i: int)
    requires
        is_word(w),
        0 <= i <= w.len(),
    ensures
        lex(w + x, 0, i) == lex(w + x, 0, w.len() as int),
    decreases w.len() - i,
{
    if i < w.len() {
        assert((w + x)[i] == w[i]);
        lemma_lex_in_word(w, x, i + 1);
    }
}

/// A word in front, ended by a boundary, is one token.
pub proof fn lemma_tokens_word(w: Seq<char>, x: Seq<char>)
    requires
        is_word(w),
        at_boundary(x),
    ensures
        tokens(w + x) == seq![w] + tokens(x),
{
    let s = w + x;
    let n = w.len() as int;
    lemma_lex_in_word(w, x, 0);
    assert(s.subrange(0, n) =~= w);
    if x.len() == 0 {
        assert(s.len() == n);
        assert(tokens(x) =~= seq![]);
        assert(tokens(s) =~= seq![w] + tokens(x));
    } else {
        assert(s[n] == x[0]);
        lemma_lex_shift(w, x, 1, 1);
        if is_space(x[0]) {
            assert(tokens(x) == seq![] + lex(x, 1, 1));
        } else {
            assert(tokens(x) == seq![] + seq![seq![x[0]]] + lex(x, 1, 1));
        }
        assert(tokens(s) =~= seq![w] + tokens(x));
    }
}

pub fn is_space_char(c: char) -> (r: bool)
    ensures
        r == is_space(c),
{
    c == ' ' || c == '\t' || c == '\n' || c == '\x0C' || c == '\r'
}

pub fn is_symbol_char(c: char) -> (r: bool)
    ensures
        r == is_symbol(c),
{
    c == '(' || c == ')' || c == '.' || c == 'λ'
}

fn push_word(s: &str, start: usize, end: usize, r: &mut Vec<String>)
    requires
        start <= end <= s@.len(),
    ensures
        names(final(r)@) == names(old(r)@) + word(s@, start as int, end as int),
{
    if start < end {
        let w = String::from_str(s.substring_char(start, end));
        r.push(w);
        assert(names(final(r)@) =~= names(old(r)@) + word(s@, start as int, end as int));
    } else {
        assert(names(final(r)@) =~= names(old(r)@) + word(s@, start as int, end as int));
    }
}

/// Splits source text into tokens.
pub fn scan(s: &str) -> (r: Vec<String>)
    ensures
        names(r@) == tokens(s@),
{
    let n = s.unicode_len();
    let mut r: Vec<String> = Vec::new();
    let mut start: usize = 0;
    let mut i: usize = 0;
    assert(names(r@) + lex(s@, 0, 0) =~= tokens(s@));
    while i < n
        invariant
            n == s@.len(),
            start <= i <= n,
            names(r@) + lex(s@, start as int, i as int) == tokens(s@),
        decreases n - i,
    {
        let c = s.get_char(i);
        let ghost before = names(r@);
        if is_space_char(c) {
            push_word(s, start, i, &mut r);
            assert(names(r@) + lex(s@, (i + 1) as int, (i + 1) as int) =~= before + lex(
                s@,
                start as int,
                i as int,
            ));
            i = i + 1;
            start = i;
        } else if is_symbol_char(c) {
            push_word(s, start, i, &mut r);
            push_word(s, i, i + 1, &mut r);
            assert(s@.subrange(i as int, i + 1) =~= seq![c]);
            assert(names(r@) + lex(s@, (i + 1) as int, (i + 1) as int) =~= before + lex(
                s@,
                start as int,
                i as int,
            ));
            i = i + 1;
            start = i;
        } else {
            i = i + 1;
        }
    }
    let ghost before = names(r@);
    push_word(s, start, n, &mut r);
    assert(names(r@) =~= before + lex(s@, start as int, n as int));
    r
}

} // verus!
