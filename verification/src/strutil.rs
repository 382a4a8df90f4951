//! Character-sequence utilities: conversion between strings and character
//! vectors, substring search, whitespace tokenization, joining, numeric
//! parsing and prefix tests. All contracts are stated over `Seq<char>`.

use vstd::prelude::*;

verus! {

/// The whitespace characters the tokenizer splits on: the ASCII space and
/// the ASCII control whitespace.
pub open spec fn is_space(c: char) -> bool {
    c == ' ' || c == '\t' || c == '\n' || c == '\r' || c == '\u{0B}' || c == '\u{0C}'
}

pub fn char_is_space(c: char) -> (b: bool)
    ensures
        b == is_space(c),
{
    c == ' ' || c == '\t' || c == '\n' || c == '\r' || c == '\u{0B}' || c == '\u{0C}'
}

/// The characters of a string, in order.
pub fn chars_of(s: &str) -> (r: Vec<char>)
    ensures
        r@ == s@,
{
    let n = s.unicode_len();
    let mut r: Vec<char> = Vec::new();
    let mut i: usize = 0;
    while i < n
        invariant
            i <= n,
            n == s@.len(),
            r@ == s@.take(i as int),
        decreases n - i,
    {
        r.push(s.get_char(i));
        proof {
            assert(r@ =~= s@.take(i + 1));
        }
        i += 1;
    }
    proof {
        assert(s@.take(n as int) =~= s@);
    }
    r
}

/// Relies on `String`'s `FromIterator<&char>` impl: collecting characters
/// yields the string of exactly those characters in order.
#[verifier::external_body]
pub fn string_of(v: &Vec<char>) -> (r: String)
    ensures
        r@ == v@,
{
    v.iter().collect()
}

/// The needle occurs in the haystack starting at index `i`.
pub open spec fn matches_at(h: Seq<char>, n: Seq<char>, i: int) -> bool {
    0 <= i && i + n.len() <= h.len() && h.subrange(i, i + n.len()) == n
}

/// The needle occurs somewhere in the haystack.
pub open spec fn contains_seq(h: Seq<char>, n: Seq<char>) -> bool {
    exists|i: int| matches_at(h, n, i)
}

/// The leftmost occurrence of the needle at or after `i`, if any.
pub open spec fn find_from(h: Seq<char>, n: Seq<char>, i: int) -> Option<int>
    decreases h.len() - i,
    via find_from_decreases
{
    if i < 0 || i + n.len() > h.len() {
        None
    } else if matches_at(h, n, i) {
        Some(i)
    } else {
        find_from(h, n, i + 1)
    }
}

#[via_fn]
proof fn find_from_decreases(h: Seq<char>, n: Seq<char>, i: int) {
    if !(i < 0 || i + n.len() > h.len()) && n.len() == 0 {
        assert(h.subrange(i, i) =~= n);
    }
}

/// The leftmost occurrence of the needle, if any.
pub open spec fn find_index(h: Seq<char>, n: Seq<char>) -> Option<int> {
    find_from(h, n, 0)
}

pub proof fn lemma_find_from_found(h: Seq<char>, n: Seq<char>, i: int)
    requires
        find_from(h, n, i) is Some,
    ensures
        matches_at(h, n, find_from(h, n, i)->0),
        i <= find_from(h, n, i)->0,
    decreases h.len() - i,
{
    if !(i < 0 || i + n.len() > h.len()) && !matches_at(h, n, i) {
        if n.len() == 0 {
            assert(h.subrange(i, i) =~= n);
        }
        lemma_find_from_found(h, n, i + 1);
    }
}

pub proof fn lemma_find_from_none(h: Seq<char>, n: Seq<char>, i: int, j: int)
    requires
        find_from(h, n, i) is None,
        0 <= i <= j,
    ensures
        !matches_at(h, n, j),
    decreases h.len() - i,
{
    if i + n.len() > h.len() {
        if matches_at(h, n, j) {
            assert(j + n.len() <= h.len());
        }
    } else {
        if n.len() == 0 {
            assert(h.subrange(i, i) =~= n);
        }
        if j > i {
            lemma_find_from_none(h, n, i + 1, j);
        }
    }
}

/// Whether the haystack contains the needle; agrees with the leftmost-find
/// function.
pub proof fn lemma_contains_iff_find(h: Seq<char>, n: Seq<char>)
    ensures
        contains_seq(h, n) <==> find_index(h, n) is Some,
{
    if find_index(h, n) is Some {
        lemma_find_from_found(h, n, 0);
    } else {
        if contains_seq(h, n) {
            let i = choose|i: int| matches_at(h, n, i);
            lemma_find_from_none(h, n, 0, i);
        }
    }
}

/// The leftmost occurrence of the needle in the haystack, or `None` when
/// the needle does not occur.
pub fn find_sub(h: &Vec<char>, n: &Vec<char>) -> (r: Option<usize>)
    ensures
        r matches Some(i) ==> find_index(h@, n@) == Some(i as int),
        r is None ==> find_index(h@, n@) is None,
        r is Some <==> contains_seq(h@, n@),
{
    proof {
        lemma_contains_iff_find(h@, n@);
    }
    let hl = h.len();
    let nl = n.len();
    if nl > hl {
        return None;
    }
    if nl == 0 {
        proof {
            assert(h@.subrange(0, 0) =~= n@);
        }
        return Some(0);
    }
    let mut i: usize = 0;
    while i <= hl - nl
        invariant
            1 <= nl <= hl,
            hl == h@.len(),
            nl == n@.len(),
            0 <= i <= hl - nl + 1,
            find_from(h@, n@, 0) == find_from(h@, n@, i as int),
        decreases hl - nl - i + 1,
    {
        let mut k: usize = 0;
        let mut matched = true;
        while k < nl
            invariant
                nl == n@.len(),
                hl == h@.len(),
                i + nl <= hl,
                k <= nl,
                matched ==> forall|t: int| 0 <= t < k ==> h@[i + t] == n@[t],
                !matched ==> !matches_at(h@, n@, i as int),
            decreases nl - k,
        {
            if h[i + k] != n[k] {
                proof {
                    if matches_at(h@, n@, i as int) {
                        assert(h@.subrange(i as int, i + n@.len())[k as int] == n@[k as int]);
                    }
                }
                matched = false;
                k = nl;
            } else {
                k += 1;
            }
        }
        if matched {
            proof {
                assert(h@.subrange(i as int, i + n@.len()) =~= n@);
            }
            return Some(i);
        }
        proof {
            assert(find_from(h@, n@, i as int) == find_from(h@, n@, i + 1));
        }
        i += 1;
    }
    proof {
        assert(find_from(h@, n@, i as int) is None);
    }
    None
}

/// Whether the haystack contains the needle.
pub fn contains_sub(h: &Vec<char>, n: &Vec<char>) -> (b: bool)
    ensures
        b == contains_seq(h@, n@),
{
    find_sub(h, n).is_some()
}

/// How many leading characters of the sequence are non-whitespace: the
/// length of the token beginning at its start.
pub open spec fn token_end(s: Seq<char>) -> int
    decreases s.len(),
{
    if s.len() == 0 {
        0
    } else if is_space(s[0]) {
        0
    } else {
        1 + token_end(s.drop_first())
    }
}

pub proof fn lemma_token_end_bounds(s: Seq<char>)
    ensures
        0 <= token_end(s) <= s.len(),
        s.len() > 0 && !is_space(s[0]) ==> token_end(s) >= 1,
    decreases s.len(),
{
    if s.len() > 0 && !is_space(s[0]) {
        lemma_token_end_bounds(s.drop_first());
    }
}

/// The token boundary is the first whitespace position (or the end).
pub proof fn lemma_token_end_at(s: Seq<char>, j: int)
    requires
        0 <= j <= s.len(),
        forall|t: int| 0 <= t < j ==> !is_space(#[trigger] s[t]),
        j == s.len() || is_space(s[j]),
    ensures
        token_end(s) == j,
    decreases s.len(),
{
    if s.len() == 0 {
    } else if is_space(s[0]) {
        assert(j == 0);
    } else {
        assert(j >= 1);
        let t = s.drop_first();
        assert forall|u: int| 0 <= u < j - 1 implies !is_space(#[trigger] t[u]) by {
            assert(t[u] == s[u + 1]);
        }
        assert(j - 1 == t.len() || is_space(t[j - 1]));
        lemma_token_end_at(t, j - 1);
    }
}

/// The whitespace-separated tokens of a sequence, in order, never empty
/// and never containing whitespace.
pub open spec fn tokens_of(s: Seq<char>) -> Seq<Seq<char>>
    decreases s.len(),
    via tokens_of_decreases
{
    if s.len() == 0 {
        Seq::empty()
    } else if is_space(s[0]) {
        tokens_of(s.drop_first())
    } else {
        let k = token_end(s);
        seq![s.take(k)] + tokens_of(s.skip(k))
    }
}

#[via_fn]
proof fn tokens_of_decreases(s: Seq<char>) {
    if s.len() > 0 && !is_space(s[0]) {
        lemma_token_end_bounds(s);
    }
}

/// The views of a vector of character vectors.
pub open spec fn token_views(ts: Seq<Vec<char>>) -> Seq<Seq<char>> {
    ts.map_values(|t: Vec<char>| t@)
}

/// Splits into whitespace-separated tokens, exactly as the tokenizing
/// specification says.
pub fn split_tokens(v: &Vec<char>) -> (r: Vec<Vec<char>>)
    ensures
        token_views(r@) == tokens_of(v@),
{
    let n = v.len();
    let mut out: Vec<Vec<char>> = Vec::new();
    let mut i: usize = 0;
    proof {
        assert(v@.skip(0) =~= v@);
        assert(token_views(out@) + tokens_of(v@) =~= tokens_of(v@));
    }
    while i < n
        invariant
            i <= n,
            n == v@.len(),
            token_views(out@) + tokens_of(v@.skip(i as int)) == tokens_of(v@),
        decreases n - i,
    {
        if char_is_space(v[i]) {
            proof {
                assert(v@.skip(i as int).drop_first() =~= v@.skip(i + 1));
            }
            i += 1;
        } else {
            let start = i;
            let mut tok: Vec<char> = Vec::new();
            while i < n && !char_is_space(v[i])
                invariant
                    start <= i <= n,
                    n == v@.len(),
                    tok@ == v@.subrange(start as int, i as int),
                    forall|t: int| start <= t < i ==> !is_space(#[trigger] v@[t]),
                decreases n - i,
            {
                tok.push(v[i]);
                proof {
                    assert(tok@ =~= v@.subrange(start as int, i + 1));
                }
                i += 1;
            }
            proof {
                let rest = v@.skip(start as int);
                assert forall|t: int| 0 <= t < i - start implies !is_space(
                    #[trigger] rest[t],
                ) by {
                    assert(rest[t] == v@[start + t]);
                }
                if i < n {
                    assert(rest[i - start] == v@[i as int]);
                }
                lemma_token_end_at(rest, i - start);
                assert(rest.take(i - start) =~= v@.subrange(start as int, i as int));
                assert(rest.skip(i - start) =~= v@.skip(i as int));
                assert(tokens_of(rest) == seq![tok@] + tokens_of(v@.skip(i as int)));
                assert(token_views(out@.push(tok)) =~= token_views(out@) + seq![tok@]);
            }
            out.push(tok);
        }
    }
    proof {
        assert(v@.skip(n as int) =~= Seq::<char>::empty());
        assert(token_views(out@) + tokens_of(v@.skip(n as int)) =~= token_views(out@));
    }
    out
}

/// How far the first line of the sequence runs: the index of the first
/// newline, or the length when there is none.
pub open spec fn line_end(s: Seq<char>) -> int
    decreases s.len(),
{
    if s.len() == 0 {
        0
    } else if s[0] == '\n' {
        0
    } else {
        1 + line_end(s.drop_first())
    }
}

pub proof fn lemma_line_end_bounds(s: Seq<char>)
    ensures
        0 <= line_end(s) <= s.len(),
    decreases s.len(),
{
    if s.len() > 0 && s[0] != '\n' {
        lemma_line_end_bounds(s.drop_first());
    }
}

/// The line boundary is the first newline position (or the end).
pub proof fn lemma_line_end_at(s: Seq<char>, j: int)
    requires
        0 <= j <= s.len(),
        forall|t: int| 0 <= t < j ==> #[trigger] s[t] != '\n',
        j == s.len() || s[j] == '\n',
    ensures
        line_end(s) == j,
    decreases s.len(),
{
    if s.len() == 0 {
    } else if s[0] == '\n' {
        assert(j == 0);
    } else {
        assert(j >= 1);
        let t = s.drop_first();
        assert forall|u: int| 0 <= u < j - 1 implies #[trigger] t[u] != '\n' by {
            assert(t[u] == s[u + 1]);
        }
        assert(j - 1 == t.len() || t[j - 1] == '\n');
        lemma_line_end_at(t, j - 1);
    }
}

/// The newline-separated lines of a sequence, in order; a trailing newline
/// closes the last line without opening an empty one.
pub open spec fn split_lines(s: Seq<char>) -> Seq<Seq<char>>
    decreases s.len(),
    via split_lines_decreases
{
    if s.len() == 0 {
        Seq::empty()
    } else {
        let k = line_end(s);
        if k == s.len() {
            seq![s]
        } else {
            seq![s.take(k)] + split_lines(s.skip(k + 1))
        }
    }
}

#[via_fn]
proof fn split_lines_decreases(s: Seq<char>) {
    if s.len() > 0 {
        lemma_line_end_bounds(s);
    }
}

/// Splits into newline-separated lines, exactly as the line-splitting
/// specification says.
pub fn split_lines_vec(v: &Vec<char>) -> (r: Vec<Vec<char>>)
    ensures
        token_views(r@) == split_lines(v@),
{
    let n = v.len();
    let mut out: Vec<Vec<char>> = Vec::new();
    let mut i: usize = 0;
    proof {
        assert(v@.skip(0) =~= v@);
        assert(token_views(out@) + split_lines(v@) =~= split_lines(v@));
    }
    while i < n
        invariant
            i <= n,
            n == v@.len(),
            token_views(out@) + split_lines(v@.skip(i as int)) == split_lines(v@),
        decreases n - i,
    {
        let start = i;
        let mut line: Vec<char> = Vec::new();
        while i < n && v[i] != '\n'
            invariant
                start <= i <= n,
                n == v@.len(),
                line@ == v@.subrange(start as int, i as int),
                forall|t: int| start <= t < i ==> #[trigger] v@[t] != '\n',
            decreases n - i,
        {
            line.push(v[i]);
            proof {
                assert(line@ =~= v@.subrange(start as int, i + 1));
            }
            i += 1;
        }
        proof {
            let rest = v@.skip(start as int);
            assert forall|t: int| 0 <= t < i - start implies #[trigger] rest[t] != '\n' by {
                assert(rest[t] == v@[start + t]);
            }
            if i < n {
                assert(rest[i - start] == v@[i as int]);
            }
            lemma_line_end_at(rest, i - start);
            assert(rest.take(i - start) =~= v@.subrange(start as int, i as int));
            assert(token_views(out@.push(line)) =~= token_views(out@) + seq![line@]);
            if i < n {
                assert(rest.skip(i - start + 1) =~= v@.skip(i + 1));
                assert(split_lines(rest) == seq![line@] + split_lines(v@.skip(i + 1)));
            } else {
                assert(rest =~= line@);
                assert(split_lines(rest) == seq![line@]);
                assert(v@.skip(n as int) =~= Seq::<char>::empty());
            }
        }
        out.push(line);
        if i < n {
            i += 1;
        }
    }
    proof {
        assert(v@.skip(n as int) =~= Seq::<char>::empty());
        assert(token_views(out@) + split_lines(v@.skip(n as int)) =~= token_views(out@));
    }
    out
}

/// The suffix of the characters from index `from` on.
pub fn suffix_from(v: &Vec<char>, from: usize) -> (r: Vec<char>)
    requires
        from <= v@.len(),
    ensures
        r@ == v@.skip(from as int),
{
    let n = v.len();
    let mut r: Vec<char> = Vec::new();
    let mut k: usize = from;
    while k < n
        invariant
            from <= k <= n,
            n == v@.len(),
            r@ == v@.subrange(from as int, k as int),
        decreases n - k,
    {
        r.push(v[k]);
        proof {
            assert(r@ =~= v@.subrange(from as int, k + 1));
        }
        k += 1;
    }
    proof {
        assert(v@.subrange(from as int, n as int) =~= v@.skip(from as int));
    }
    r
}

/// The tokens joined with a single space between neighbours.
pub open spec fn join_space(ts: Seq<Seq<char>>) -> Seq<char>
    decreases ts.len(),
{
    if ts.len() == 0 {
        Seq::empty()
    } else if ts.len() == 1 {
        ts[0]
    } else {
        join_space(ts.drop_last()) + seq![' '] + ts.last()
    }
}

/// Joins the tokens from index `from` on with single spaces.
pub fn join_from(ts: &Vec<Vec<char>>, from: usize) -> (r: Vec<char>)
    requires
        from <= ts@.len(),
    ensures
        r@ == join_space(token_views(ts@).skip(from as int)),
{
    let n = ts.len();
    let mut out: Vec<char> = Vec::new();
    let mut i: usize = from;
    proof {
        assert(token_views(ts@).subrange(from as int, from as int) =~= Seq::<Seq<char>>::empty());
    }
    while i < n
        invariant
            from <= i <= n,
            n == ts@.len(),
            out@ == join_space(token_views(ts@).subrange(from as int, i as int)),
        decreases n - i,
    {
        if i > from {
            out.push(' ');
        }
        let m = ts[i].len();
        let mut k: usize = 0;
        let ghost mid = out@;
        while k < m
            invariant
                k <= m,
                m == ts@[i as int]@.len(),
                i < ts@.len(),
                out@ == mid + ts@[i as int]@.take(k as int),
            decreases m - k,
        {
            out.push(ts[i][k]);
            proof {
                assert(out@ =~= mid + ts@[i as int]@.take(k + 1));
            }
            k += 1;
        }
        proof {
            let views = token_views(ts@);
            assert(ts@[i as int]@.take(m as int) =~= views[i as int]);
            let cur = views.subrange(from as int, i + 1);
            assert(cur.drop_last() =~= views.subrange(from as int, i as int));
            assert(cur.last() == views[i as int]);
            if i == from {
                assert(out@ =~= join_space(cur));
            } else {
                assert(out@ =~= join_space(cur.drop_last()) + seq![' '] + cur.last());
            }
        }
        i += 1;
    }
    proof {
        assert(token_views(ts@).subrange(from as int, n as int) =~= token_views(ts@).skip(
            from as int,
        ));
    }
    out
}

/// A decimal digit.
pub open spec fn is_digit(c: char) -> bool {
    '0' <= c && c <= '9'
}

/// The value of a digit string, most significant digit first.
pub open spec fn digits_val(s: Seq<char>) -> int
    decreases s.len(),
{
    if s.len() == 0 {
        0
    } else {
        digits_val(s.drop_last()) * 10 + (s.last() as int - '0' as int)
    }
}

pub proof fn lemma_digits_val_nonneg(s: Seq<char>)
    requires
        forall|i: int| 0 <= i < s.len() ==> is_digit(#[trigger] s[i]),
    ensures
        digits_val(s) >= 0,
    decreases s.len(),
{
    if s.len() > 0 {
        lemma_digits_val_nonneg(s.drop_last());
    }
}

/// A longer digit string never has a smaller value than its prefix.
pub proof fn lemma_digits_val_prefix(s: Seq<char>, i: int)
    requires
        0 <= i <= s.len(),
        forall|k: int| 0 <= k < s.len() ==> is_digit(#[trigger] s[k]),
    ensures
        digits_val(s.take(i)) <= digits_val(s),
    decreases s.len(),
{
    if i < s.len() {
        let t = s.drop_last();
        assert(s.take(i) =~= t.take(i));
        lemma_digits_val_prefix(t, i);
        lemma_digits_val_nonneg(t);
        assert(digits_val(t) * 10 >= digits_val(t));
    } else {
        assert(s.take(i) =~= s);
    }
}

/// The digit part a parse considers: everything after one optional leading
/// plus sign.
pub open spec fn digit_part(s: Seq<char>) -> Seq<char> {
    if s.len() >= 1 && s[0] == '+' {
        s.drop_first()
    } else {
        s
    }
}

/// What `u32` parsing accepts: at least one digit, nothing but digits, and
/// a value within range.
pub open spec fn u32_parse_ok(s: Seq<char>) -> bool {
    let d = digit_part(s);
    &&& d.len() >= 1
    &&& forall|i: int| 0 <= i < d.len() ==> is_digit(#[trigger] d[i])
    &&& digits_val(d) <= u32::MAX
}

/// The parsed value, when parsing is accepted.
pub open spec fn spec_parse_u32(s: Seq<char>) -> Option<u32> {
    if u32_parse_ok(s) {
        Some(digits_val(digit_part(s)) as u32)
    } else {
        None
    }
}

/// Parses a decimal `u32` with an optional leading plus sign; rejects an
/// empty string, a stray character and an out-of-range value.
pub fn parse_u32(t: &Vec<char>) -> (r: Option<u32>)
    ensures
        r == spec_parse_u32(t@),
{
    let n = t.len();
    let start: usize = if n >= 1 && t[0] == '+' {
        1
    } else {
        0
    };
    proof {
        assert(digit_part(t@) =~= t@.skip(start as int));
    }
    let ghost d = digit_part(t@);
    if n == start {
        proof {
            assert(d.len() == 0);
        }
        return None;
    }
    let mut val: u32 = 0;
    let mut i: usize = start;
    while i < n
        invariant
            start <= i <= n,
            n == t@.len(),
            d == t@.skip(start as int),
            d == digit_part(t@),
            d.len() == n - start,
            forall|k: int| 0 <= k < i - start ==> is_digit(#[trigger] d[k]),
            val == digits_val(d.take(i - start)),
        decreases n - i,
    {
        let c = t[i];
        if !(c >= '0' && c <= '9') {
            proof {
                assert(digit_part(t@) == d);
                assert(digit_part(t@)[i - start] == t@[i as int]);
                assert(!is_digit(digit_part(t@)[i - start]));
                assert(!u32_parse_ok(t@));
            }
            return None;
        }
        let digit: u32 = (c as u32) - ('0' as u32);
        proof {
            assert(d[i - start] == t@[i as int]);
            assert(d.take(i - start + 1).drop_last() =~= d.take(i - start));
            assert(d.take(i - start + 1).last() == d[i - start]);
        }
        let ghost full = d.take(i - start + 1);
        let next = match val.checked_mul(10) {
            Some(x) => x.checked_add(digit),
            None => None,
        };
        match next {
            Some(y) => {
                proof {
                    assert(digits_val(full) == y);
                }
                val = y;
            },
            None => {
                proof {
                    assert(digits_val(full) > u32::MAX);
                    if u32_parse_ok(t@) {
                        assert(digit_part(t@) == d);
                        assert(forall|k: int|
                            0 <= k < digit_part(t@).len() ==> is_digit(
                                #[trigger] digit_part(t@)[k],
                            ));
                        assert(forall|k: int|
                            0 <= k < d.len() ==> is_digit(#[trigger] d[k]));
                        lemma_digits_val_prefix(d, i - start + 1);
                        assert(false);
                    }
                }
                return None;
            },
        }
        i += 1;
    }
    proof {
        assert(d.take(n - start) =~= d);
        assert(u32_parse_ok(t@));
    }
    Some(val)
}

/// Whether the sequence starts with the given prefix.
pub open spec fn starts_with_seq(s: Seq<char>, p: Seq<char>) -> bool {
    s.len() >= p.len() && s.take(p.len() as int) == p
}

pub fn starts_with(v: &Vec<char>, p: &Vec<char>) -> (b: bool)
    ensures
        b == starts_with_seq(v@, p@),
{
    let pl = p.len();
    if v.len() < pl {
        return false;
    }
    let mut i: usize = 0;
    while i < pl
        invariant
            i <= pl,
            pl == p@.len(),
            pl <= v@.len(),
            forall|t: int| 0 <= t < i ==> v@[t] == p@[t],
        decreases pl - i,
    {
        if v[i] != p[i] {
            proof {
                if starts_with_seq(v@, p@) {
                    assert(v@.take(pl as int)[i as int] == p@[i as int]);
                }
            }
            return false;
        }
        i += 1;
    }
    proof {
        assert(v@.take(pl as int) =~= p@);
    }
    true
}

/// Character-for-character equality of two vectors.
pub fn eq_chars(a: &Vec<char>, b: &Vec<char>) -> (r: bool)
    ensures
        r == (a@ == b@),
{
    if a.len() != b.len() {
        return false;
    }
    let n = a.len();
    let mut i: usize = 0;
    while i < n
        invariant
            i <= n,
            n == a@.len(),
            n == b@.len(),
            forall|t: int| 0 <= t < i ==> a@[t] == b@[t],
        decreases n - i,
    {
        if a[i] != b[i] {
            return false;
        }
        i += 1;
    }
    proof {
        assert(a@ =~= b@);
    }
    true
}

} // verus!
