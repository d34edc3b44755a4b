//! Character-sequence helpers: the width estimator and the small spec
//! vocabulary the renderer's contracts are written in.
//!
//! The *effective length* of a fragment is the character count of its last
//! line minus the count of literal spaces in that line; it is the width
//! heuristic deciding between the one-line and the breaking layout of an
//! argument list. Discounting spaces is a deliberate approximation of the
//! rendered width and is kept as designed.

use vstd::prelude::*;

verus! {

/// `n` copies of the character `c` (empty for `n <= 0`).
pub open spec fn rep_char(c: char, n: int) -> Seq<char> {
    if n <= 0 {
        Seq::empty()
    } else {
        Seq::new(n as nat, |i: int| c)
    }
}

/// How many times `c` occurs in `s`.
pub open spec fn count_char(s: Seq<char>, c: char) -> int
    decreases s.len(),
{
    if s.len() == 0 {
        0
    } else {
        count_char(s.drop_last(), c) + if s.last() == c { 1int } else { 0int }
    }
}

/// The part of `s` after its last newline; all of `s` when it has none.
pub open spec fn last_line(s: Seq<char>) -> Seq<char>
    decreases s.len(),
{
    if s.len() == 0 {
        s
    } else if s.last() == '\n' {
        Seq::empty()
    } else {
        last_line(s.drop_last()).push(s.last())
    }
}

/// Index at which the last line of `s` begins.
pub open spec fn line_start(s: Seq<char>) -> int {
    s.len() - last_line(s).len()
}

/// The width estimate: characters of the last line, spaces discounted.
pub open spec fn effective_len(s: Seq<char>) -> int {
    last_line(s).len() - count_char(last_line(s), ' ')
}

/// How many physical lines a text spans, counted as the line iterator of
/// the standard library counts them: zero for the empty text, and a
/// trailing newline opens no further line.
pub open spec fn lines_count(s: Seq<char>) -> int {
    if s.len() == 0 {
        0
    } else {
        count_char(s, '\n') + if s.last() == '\n' { 0int } else { 1int }
    }
}

pub proof fn lemma_push_facts(s: Seq<char>, c: char)
    ensures
        s.push(c).drop_last() == s,
        s.push(c).last() == c,
        s.push(c).len() == s.len() + 1,
{
    assert(s.push(c).drop_last() =~= s);
}

pub proof fn lemma_count_char_le(s: Seq<char>, c: char)
    ensures
        0 <= count_char(s, c) <= s.len(),
    decreases s.len(),
{
    if s.len() > 0 {
        lemma_count_char_le(s.drop_last(), c);
    }
}

pub proof fn lemma_count_char_push(s: Seq<char>, c: char, x: char)
    ensures
        count_char(s.push(x), c) == count_char(s, c) + if x == c { 1int } else { 0int },
{
    lemma_push_facts(s, x);
}

pub proof fn lemma_last_line_push(s: Seq<char>, c: char)
    ensures
        last_line(s.push(c)) == if c == '\n' { Seq::<char>::empty() } else { last_line(s).push(c) },
        line_start(s.push(c)) == if c == '\n' { s.len() + 1int } else { line_start(s) },
{
    lemma_push_facts(s, c);
    lemma_last_line_len(s);
}

pub proof fn lemma_last_line_len(s: Seq<char>)
    ensures
        0 <= last_line(s).len() <= s.len(),
    decreases s.len(),
{
    if s.len() > 0 && s.last() != '\n' {
        lemma_last_line_len(s.drop_last());
    }
}

/// The last line really is the suffix of `s` that starts at `line_start`.
pub proof fn lemma_last_line_suffix(s: Seq<char>)
    ensures
        last_line(s) == s.subrange(line_start(s), s.len() as int),
    decreases s.len(),
{
    lemma_last_line_len(s);
    if s.len() == 0 {
        assert(last_line(s) =~= s.subrange(line_start(s), s.len() as int));
    } else if s.last() == '\n' {
        assert(last_line(s) =~= s.subrange(line_start(s), s.len() as int));
    } else {
        let d = s.drop_last();
        lemma_last_line_suffix(d);
        lemma_last_line_len(d);
        assert(last_line(s) =~= s.subrange(line_start(s), s.len() as int));
    }
}

/// Relies on str::chars of std: yields exactly the characters of the text,
/// in order.
#[verifier::external_body]
pub fn str_chars(s: &str) -> (r: Vec<char>)
    ensures
        r@ == s@,
{
    s.chars().collect()
}

/// Relies on String's FromIterator impl of std: collects characters back
/// into text, in order.
#[verifier::external_body]
pub fn chars_to_string(v: &Vec<char>) -> (r: String)
    ensures
        r@ == v@,
{
    v.iter().collect()
}

/// Copies a character vector.
pub fn dup(v: &Vec<char>) -> (r: Vec<char>)
    ensures
        r@ == v@,
{
    let mut r: Vec<char> = Vec::new();
    let mut i: usize = 0;
    while i < v.len()
        invariant
            i <= v.len(),
            r@ == v@.take(i as int),
        decreases v.len() - i,
    {
        r.push(v[i]);
        proof {
            assert(v@.take(i as int).push(v@[i as int]) =~= v@.take(i + 1));
        }
        i = i + 1;
    }
    proof {
        assert(v@.take(v@.len() as int) =~= v@);
    }
    r
}

/// `n` spaces, as a character vector.
pub fn spaces(n: usize) -> (r: Vec<char>)
    ensures
        r@ == rep_char(' ', n as int),
{
    let mut r: Vec<char> = Vec::new();
    let mut i: usize = 0;
    while i < n
        invariant
            i <= n,
            r@ == rep_char(' ', i as int),
        decreases n - i,
    {
        r.push(' ');
        proof {
            assert(rep_char(' ', i as int).push(' ') =~= rep_char(' ', i + 1));
        }
        i = i + 1;
    }
    r
}

/// The width estimator: the effective length of the last line of `v`,
/// that is its character count minus its count of literal spaces.
pub fn max_line_length(v: &Vec<char>) -> (r: usize)
    ensures
        r == effective_len(v@),
{
    let mut start: usize = 0;
    let mut j: usize = 0;
    while j < v.len()
        invariant
            j <= v.len(),
            start == line_start(v@.take(j as int)),
            start <= j,
        decreases v.len() - j,
    {
        proof {
            assert(v@.take(j as int).push(v@[j as int]) =~= v@.take(j + 1));
            lemma_last_line_push(v@.take(j as int), v@[j as int]);
        }
        if v[j] == '\n' {
            start = j + 1;
        }
        j = j + 1;
    }
    proof {
        assert(v@.take(v@.len() as int) =~= v@);
        lemma_last_line_len(v@);
    }
    let mut cnt: usize = 0;
    let mut k: usize = start;
    while k < v.len()
        invariant
            start <= k <= v.len(),
            start == line_start(v@),
            cnt == (k - start) - count_char(v@.subrange(start as int, k as int), ' '),
            cnt <= k - start,
        decreases v.len() - k,
    {
        proof {
            let pre = v@.subrange(start as int, k as int);
            assert(pre.push(v@[k as int]) =~= v@.subrange(start as int, k + 1));
            lemma_count_char_push(pre, ' ', v@[k as int]);
            lemma_count_char_le(pre, ' ');
        }
        if v[k] != ' ' {
            cnt = cnt + 1;
        }
        k = k + 1;
    }
    proof {
        lemma_last_line_suffix(v@);
        lemma_count_char_le(last_line(v@), ' ');
    }
    cnt
}

/// How many physical lines `v` spans.
pub fn count_lines(v: &Vec<char>) -> (r: usize)
    ensures
        r == lines_count(v@),
{
    let mut nl: usize = 0;
    let mut j: usize = 0;
    while j < v.len()
        invariant
            j <= v.len(),
            nl == count_char(v@.take(j as int), '\n'),
            nl <= j,
        decreases v.len() - j,
    {
        proof {
            let pre = v@.take(j as int);
            assert(pre.push(v@[j as int]) =~= v@.take(j + 1));
            lemma_count_char_push(pre, '\n', v@[j as int]);
            lemma_count_char_le(pre, '\n');
        }
        if v[j] == '\n' {
            nl = nl + 1;
        }
        j = j + 1;
    }
    proof {
        assert(v@.take(v@.len() as int) =~= v@);
        lemma_count_char_le(v@, '\n');
    }
    if v.len() == 0 {
        0
    } else if v[v.len() - 1] == '\n' {
        nl
    } else {
        proof {
            assert(v@ =~= v@.drop_last().push(v@.last()));
            lemma_count_char_push(v@.drop_last(), '\n', v@.last());
            lemma_count_char_le(v@.drop_last(), '\n');
        }
        nl + 1
    }
}

} // verus!
