//! Verified text utilities over character sequences.
//!
//! Strings are modelled as `Seq<char>`; executable code works on `Vec<char>`
//! and converts back to `String` at the edges.

use vstd::prelude::*;
use vstd::string::*;

verus! {

/// The needle `n` occurs in `h` starting at position `i`.
pub open spec fn is_match_at(h: Seq<char>, n: Seq<char>, i: int) -> bool {
    0 <= i && i + n.len() <= h.len() && h.subrange(i, i + n.len()) == n
}

/// The needle `n` occurs somewhere in `h`.
pub open spec fn contains_seq(h: Seq<char>, n: Seq<char>) -> bool {
    exists|i: int| is_match_at(h, n, i)
}

/// `h` starts with `p`.
pub open spec fn starts_with_seq(h: Seq<char>, p: Seq<char>) -> bool {
    p.len() <= h.len() && h.subrange(0, p.len() as int) == p
}

/// The characters of a string, as a vector.
pub fn chars_of(s: &str) -> (r: Vec<char>)
    ensures
        r@ == s@,
{
    let len = s.unicode_len();
    let mut r: Vec<char> = Vec::new();
    let mut i: usize = 0;
    while i < len
        invariant
            i <= len,
            len == s@.len(),
            r@ == s@.subrange(0, i as int),
        decreases len - i,
    {
        r.push(s.get_char(i));
        i = i + 1;
        proof {
            assert(r@ =~= s@.subrange(0, i as int));
        }
    }
    proof {
        assert(r@ =~= s@);
    }
    r
}

/// Builds a `String` out of a vector of characters.
///
/// Relies on std's `FromIterator<char> for String`: collecting characters
/// yields the string with exactly those characters in order.
#[verifier::external_body]
pub(crate) fn string_from_chars(v: &Vec<char>) -> (r: String)
    ensures
        r@ == v@,
{
    v.iter().collect()
}

/// Whether `n` occurs in `h` starting at position `i`.
pub fn match_at(h: &Vec<char>, n: &Vec<char>, i: usize) -> (b: bool)
    requires
        i + n@.len() <= h@.len(),
    ensures
        b == is_match_at(h@, n@, i as int),
{
    let hlen = h.len();
    let mut j: usize = 0;
    while j < n.len()
        invariant
            j <= n@.len(),
            i + n@.len() <= h@.len(),
            hlen == h@.len(),
            forall|k: int| 0 <= k < j ==> h@[i + k] == n@[k],
        decreases n@.len() - j,
    {
        if h[i + j] != n[j] {
            proof {
                assert(h@.subrange(i as int, i + n@.len())[j as int] != n@[j as int]);
            }
            return false;
        }
        j = j + 1;
    }
    proof {
        assert(h@.subrange(i as int, i + n@.len()) =~= n@);
    }
    true
}

/// Position of the first occurrence of `n` in `h`, if any.
pub fn find_seq(h: &Vec<char>, n: &Vec<char>) -> (r: Option<usize>)
    ensures
        match r {
            Some(i) => is_match_at(h@, n@, i as int) && forall|k: int|
                0 <= k < i ==> !is_match_at(h@, n@, k),
            None => !contains_seq(h@, n@),
        },
{
    let hlen = h.len();
    let nlen = n.len();
    if nlen > hlen {
        return None;
    }
    if nlen == 0 {
        proof {
            assert(h@.subrange(0, 0) =~= n@);
        }
        return Some(0);
    }
    let mut i: usize = 0;
    while i <= hlen - nlen
        invariant
            nlen == n@.len(),
            hlen == h@.len(),
            0 < nlen <= hlen,
            i <= hlen - nlen + 1,
            forall|k: int| 0 <= k < i ==> !is_match_at(h@, n@, k),
        decreases hlen - i,
    {
        if match_at(h, n, i) {
            return Some(i);
        }
        i = i + 1;
    }
    proof {
        assert forall|k: int| !is_match_at(h@, n@, k) by {
            if is_match_at(h@, n@, k) {
                assert(k < i);
            }
        }
    }
    None
}

/// Whether `n` occurs in `h`.
pub fn contains_chars(h: &Vec<char>, n: &Vec<char>) -> (b: bool)
    ensures
        b == contains_seq(h@, n@),
{
    find_seq(h, n).is_some()
}

/// Whether `h` starts with `p`.
pub fn starts_with_chars(h: &Vec<char>, p: &Vec<char>) -> (b: bool)
    ensures
        b == starts_with_seq(h@, p@),
{
    if p.len() > h.len() {
        return false;
    }
    let r = match_at(h, p, 0);
    proof {
        assert(h@.subrange(0, p@.len() as int) == h@.subrange(0, 0 + p@.len() as int));
    }
    r
}

/// `h` ends with `s`.
pub open spec fn ends_with_seq(h: Seq<char>, s: Seq<char>) -> bool {
    s.len() <= h.len() && h.subrange(h.len() - s.len(), h.len() as int) == s
}

/// Whether `h` ends with `s`.
pub fn ends_with_chars(h: &Vec<char>, s: &Vec<char>) -> (b: bool)
    ensures
        b == ends_with_seq(h@, s@),
{
    if s.len() > h.len() {
        return false;
    }
    let r = match_at(h, s, h.len() - s.len());
    proof {
        assert(h@.subrange(h@.len() - s@.len(), h@.len() as int) == h@.subrange(
            h@.len() - s@.len(),
            h@.len() - s@.len() + s@.len(),
        ));
    }
    r
}

/// Index of the first occurrence of `n` in `h`, or -1 if none.
pub open spec fn first_match_index(h: Seq<char>, n: Seq<char>) -> int
    decreases h.len(),
{
    if h.len() < n.len() {
        -1
    } else if h.subrange(0, n.len() as int) == n {
        0
    } else if h.len() == 0 {
        -1
    } else if first_match_index(h.drop_first(), n) < 0 {
        -1
    } else {
        1 + first_match_index(h.drop_first(), n)
    }
}

pub proof fn lemma_first_match_index_none(h: Seq<char>, n: Seq<char>)
    requires
        !contains_seq(h, n),
    ensures
        first_match_index(h, n) == -1,
    decreases h.len(),
{
    if h.len() >= n.len() {
        if h.subrange(0, n.len() as int) == n {
            assert(is_match_at(h, n, 0));
        } else {
            assert(n.len() > 0) by {
                if n.len() == 0 {
                    assert(h.subrange(0, 0) =~= n);
                }
            }
            assert(h.len() > 0);
            if contains_seq(h.drop_first(), n) {
                let i = choose|i: int| is_match_at(h.drop_first(), n, i);
                assert(h.subrange(i + 1, i + 1 + n.len()) =~= h.drop_first().subrange(
                    i,
                    i + n.len(),
                ));
                assert(is_match_at(h, n, i + 1));
            }
            lemma_first_match_index_none(h.drop_first(), n);
        }
    }
}

pub proof fn lemma_first_match_index_pinned(h: Seq<char>, n: Seq<char>, i: int)
    requires
        is_match_at(h, n, i),
        forall|k: int| 0 <= k < i ==> !is_match_at(h, n, k),
    ensures
        first_match_index(h, n) == i,
    decreases h.len(),
{
    assert(h.len() >= n.len());
    if h.subrange(0, n.len() as int) == n {
        assert(is_match_at(h, n, 0));
        assert(i == 0);
    } else {
        assert(n.len() > 0) by {
            if n.len() == 0 {
                assert(h.subrange(0, 0) =~= n);
            }
        }
        assert(i > 0) by {
            if i == 0 {
                assert(h.subrange(0, n.len() as int) == n);
            }
        }
        assert(h.len() > 0);
        assert(h.drop_first().subrange(i - 1, i - 1 + n.len()) =~= h.subrange(i, i + n.len()));
        assert(is_match_at(h.drop_first(), n, i - 1));
        assert forall|k: int| 0 <= k < i - 1 implies !is_match_at(h.drop_first(), n, k) by {
            if is_match_at(h.drop_first(), n, k) {
                assert(h.subrange(k + 1, k + 1 + n.len()) =~= h.drop_first().subrange(
                    k,
                    k + n.len(),
                ));
                assert(is_match_at(h, n, k + 1));
            }
        }
        lemma_first_match_index_pinned(h.drop_first(), n, i - 1);
    }
}

/// ASCII whitespace as trimmed by the library: space, tab, CR, LF.
pub open spec fn is_space(c: char) -> bool {
    c == ' ' || c == '\t' || c == '\r' || c == '\n'
}

/// Index of the first non-space character, or the length if all are spaces.
pub open spec fn trim_start_index(s: Seq<char>) -> int
    decreases s.len(),
{
    if s.len() == 0 {
        0
    } else if is_space(s[0]) {
        1 + trim_start_index(s.drop_first())
    } else {
        0
    }
}

/// Index just past the last non-space character, or 0 if all are spaces.
pub open spec fn trim_end_index(s: Seq<char>) -> int
    decreases s.len(),
{
    if s.len() == 0 {
        0
    } else if is_space(s.last()) {
        trim_end_index(s.drop_last())
    } else {
        s.len() as int
    }
}

/// The sequence with leading and trailing spaces removed.
pub open spec fn trim_seq(s: Seq<char>) -> Seq<char> {
    if trim_start_index(s) <= trim_end_index(s) {
        s.subrange(trim_start_index(s), trim_end_index(s))
    } else {
        Seq::empty()
    }
}

proof fn lemma_trim_start_bounds(s: Seq<char>)
    ensures
        0 <= trim_start_index(s) <= s.len(),
        forall|k: int| 0 <= k < trim_start_index(s) ==> is_space(s[k]),
        trim_start_index(s) < s.len() ==> !is_space(s[trim_start_index(s)]),
    decreases s.len(),
{
    if s.len() > 0 && is_space(s[0]) {
        lemma_trim_start_bounds(s.drop_first());
        assert forall|k: int| 0 <= k < trim_start_index(s) implies is_space(s[k]) by {
            if k > 0 {
                assert(s.drop_first()[k - 1] == s[k]);
            }
        }
        if trim_start_index(s) < s.len() {
            assert(s.drop_first()[trim_start_index(s) - 1] == s[trim_start_index(s)]);
        }
    }
}

proof fn lemma_trim_end_bounds(s: Seq<char>)
    ensures
        0 <= trim_end_index(s) <= s.len(),
        forall|k: int| trim_end_index(s) <= k < s.len() ==> is_space(s[k]),
        trim_end_index(s) > 0 ==> !is_space(s[trim_end_index(s) - 1]),
    decreases s.len(),
{
    if s.len() > 0 && is_space(s.last()) {
        lemma_trim_end_bounds(s.drop_last());
        assert forall|k: int| trim_end_index(s) <= k < s.len() implies is_space(s[k]) by {
            if k < s.len() - 1 {
                assert(s.drop_last()[k] == s[k]);
            } else {
                assert(s[k] == s.last());
            }
        }
        if trim_end_index(s) > 0 {
            assert(s.drop_last()[trim_end_index(s) - 1] == s[trim_end_index(s) - 1]);
        }
    }
}

/// Leading and trailing whitespace removed, as `str::trim` does for ASCII
/// whitespace.
pub fn trim_chars(s: &Vec<char>) -> (r: Vec<char>)
    ensures
        r@ == trim_seq(s@),
{
    proof {
        lemma_trim_start_bounds(s@);
        lemma_trim_end_bounds(s@);
    }
    let mut start: usize = 0;
    while start < s.len() && is_space_char(s[start])
        invariant
            start <= s@.len(),
            forall|k: int| 0 <= k < start ==> is_space(s@[k]),
        decreases s@.len() - start,
    {
        start = start + 1;
    }
    proof {
        lemma_trim_start_pinned(s@, start as int);
    }
    let mut end: usize = s.len();
    while end > start && is_space_char(s[end - 1])
        invariant
            start <= end <= s@.len(),
            forall|k: int| end <= k < s@.len() ==> is_space(s@[k]),
            start == trim_start_index(s@),
        decreases end,
    {
        end = end - 1;
    }
    proof {
        lemma_trim_start_bounds(s@);
        if end > start {
            lemma_trim_end_pinned(s@, end as int);
        } else {
            lemma_trim_end_all_spaces(s@, start as int);
        }
    }
    let mut r: Vec<char> = Vec::new();
    let mut i: usize = start;
    while i < end
        invariant
            start <= i <= end <= s@.len(),
            r@ == s@.subrange(start as int, i as int),
        decreases end - i,
    {
        r.push(s[i]);
        i = i + 1;
        proof {
            assert(r@ =~= s@.subrange(start as int, i as int));
        }
    }
    proof {
        if start <= trim_end_index(s@) {
            assert(r@ =~= trim_seq(s@));
        }
    }
    r
}

/// Exec check of `is_space`.
pub fn is_space_char(c: char) -> (b: bool)
    ensures
        b == is_space(c),
{
    c == ' ' || c == '\t' || c == '\r' || c == '\n'
}

proof fn lemma_trim_start_pinned(s: Seq<char>, i: int)
    requires
        0 <= i <= s.len(),
        forall|k: int| 0 <= k < i ==> is_space(s[k]),
        i < s.len() ==> !is_space(s[i]),
    ensures
        trim_start_index(s) == i,
    decreases s.len(),
{
    if s.len() > 0 && is_space(s[0]) {
        assert(forall|k: int| 0 <= k < i - 1 ==> s.drop_first()[k] == s[k + 1]);
        lemma_trim_start_pinned(s.drop_first(), i - 1);
    }
}

proof fn lemma_trim_end_pinned(s: Seq<char>, i: int)
    requires
        0 < i <= s.len(),
        forall|k: int| i <= k < s.len() ==> is_space(s[k]),
        !is_space(s[i - 1]),
    ensures
        trim_end_index(s) == i,
    decreases s.len(),
{
    if s.len() > 0 && is_space(s.last()) {
        lemma_trim_end_pinned(s.drop_last(), i);
    }
}

/// Index of the first occurrence of `c` in `s`, or -1 if `c` does not occur.
pub open spec fn first_index_of(s: Seq<char>, c: char) -> int
    decreases s.len(),
{
    if s.len() == 0 {
        -1
    } else if s[0] == c {
        0
    } else if first_index_of(s.drop_first(), c) < 0 {
        -1
    } else {
        1 + first_index_of(s.drop_first(), c)
    }
}

pub proof fn lemma_first_index_of(s: Seq<char>, c: char)
    ensures
        first_index_of(s, c) == -1 ==> forall|k: int| 0 <= k < s.len() ==> s[k] != c,
        first_index_of(s, c) >= 0 ==> 0 <= first_index_of(s, c) < s.len() && s[first_index_of(
            s,
            c,
        )] == c && forall|k: int| 0 <= k < first_index_of(s, c) ==> s[k] != c,
    decreases s.len(),
{
    if s.len() > 0 && s[0] != c {
        lemma_first_index_of(s.drop_first(), c);
        if first_index_of(s, c) == -1 {
            assert forall|k: int| 0 <= k < s.len() implies s[k] != c by {
                if k > 0 {
                    assert(s.drop_first()[k - 1] == s[k]);
                }
            }
        } else {
            assert(s.drop_first()[first_index_of(s.drop_first(), c)] == s[first_index_of(s, c)]);
            assert forall|k: int| 0 <= k < first_index_of(s, c) implies s[k] != c by {
                if k > 0 {
                    assert(s.drop_first()[k - 1] == s[k]);
                }
            }
        }
    }
}

/// Position of the first occurrence of `c` in `s`, if any.
pub fn find_char(s: &Vec<char>, c: char) -> (r: Option<usize>)
    ensures
        match r {
            Some(i) => i == first_index_of(s@, c),
            None => first_index_of(s@, c) == -1,
        },
{
    proof {
        lemma_first_index_of(s@, c);
    }
    let mut i: usize = 0;
    while i < s.len()
        invariant
            i <= s@.len(),
            forall|k: int| 0 <= k < i ==> s@[k] != c,
        decreases s@.len() - i,
    {
        if s[i] == c {
            proof {
                lemma_first_index_of(s@, c);
            }
            return Some(i);
        }
        i = i + 1;
    }
    None
}

/// The pieces of `s` between occurrences of `sep`, as `str::split` yields
/// them: always at least one piece, and empty pieces are kept.
pub open spec fn split_seq(s: Seq<char>, sep: char) -> Seq<Seq<char>>
    decreases s.len(),
{
    if s.len() == 0 {
        seq![Seq::<char>::empty()]
    } else {
        let rest = split_seq(s.drop_first(), sep);
        if s[0] == sep {
            seq![Seq::<char>::empty()] + rest
        } else {
            seq![seq![s[0]] + rest[0]] + rest.drop_first()
        }
    }
}

pub proof fn lemma_split_seq_len(s: Seq<char>, sep: char)
    ensures
        split_seq(s, sep).len() >= 1,
    decreases s.len(),
{
    if s.len() > 0 {
        lemma_split_seq_len(s.drop_first(), sep);
    }
}

/// The boundaries of the pieces of `s` between occurrences of `sep`: piece
/// `k` of `split_seq` is `s[r[k].0 .. r[k].1]`.
pub fn split_bounds(s: &Vec<char>, sep: char) -> (r: Vec<(usize, usize)>)
    ensures
        r@.len() == split_seq(s@, sep).len(),
        forall|k: int|
            0 <= k < r@.len() ==> 0 <= #[trigger] r@[k].0 <= r@[k].1 <= s@.len() && split_seq(
                s@,
                sep,
            )[k] == s@.subrange(r@[k].0 as int, r@[k].1 as int),
{
    let ghost sp = split_seq(s@, sep);
    let mut r: Vec<(usize, usize)> = Vec::new();
    let mut start: usize = 0;
    let mut i: usize = 0;
    proof {
        lemma_split_seq_len(s@, sep);
        assert(s@.skip(0) =~= s@);
        assert(s@.subrange(0, 0) + split_seq(s@, sep)[0] =~= split_seq(s@, sep)[0]);
        assert(sp =~= Seq::new(r@.len(), |k: int| s@.subrange(r@[k].0 as int, r@[k].1 as int))
            + seq![s@.subrange(0, 0) + split_seq(s@.skip(0), sep)[0]] + split_seq(
            s@.skip(0),
            sep,
        ).drop_first());
    }
    while i < s.len()
        invariant
            start <= i <= s@.len(),
            sp == split_seq(s@, sep),
            split_seq(s@.skip(i as int), sep).len() >= 1,
            sp =~= Seq::new(r@.len(), |k: int| s@.subrange(r@[k].0 as int, r@[k].1 as int))
                + seq![
                s@.subrange(start as int, i as int) + split_seq(s@.skip(i as int), sep)[0],
            ] + split_seq(s@.skip(i as int), sep).drop_first(),
            forall|k: int| 0 <= k < r@.len() ==> 0 <= #[trigger] r@[k].0 <= r@[k].1 <= s@.len(),
        decreases s@.len() - i,
    {
        let ghost tail = s@.skip(i as int);
        let ghost tail2 = s@.skip(i + 1);
        proof {
            assert(tail.len() > 0);
            assert(tail[0] == s@[i as int]);
            assert(tail.drop_first() =~= tail2);
            lemma_split_seq_len(tail2, sep);
        }
        if s[i] == sep {
            r.push((start, i));
            start = i + 1;
            proof {
                assert(s@.subrange(start as int, i + 1) + split_seq(tail2, sep)[0] =~= split_seq(
                    tail2,
                    sep,
                )[0]);
                assert(sp =~= Seq::new(
                    r@.len(),
                    |k: int| s@.subrange(r@[k].0 as int, r@[k].1 as int),
                ) + seq![s@.subrange(start as int, i + 1) + split_seq(tail2, sep)[0]] + split_seq(
                    tail2,
                    sep,
                ).drop_first());
            }
        } else {
            proof {
                assert(split_seq(tail, sep)[0] =~= seq![s@[i as int]] + split_seq(tail2, sep)[0]);
                assert(s@.subrange(start as int, i as int) + split_seq(tail, sep)[0] =~= s@.subrange(
                    start as int,
                    i + 1,
                ) + split_seq(tail2, sep)[0]);
                assert(split_seq(tail, sep).drop_first() =~= split_seq(tail2, sep).drop_first());
            }
        }
        i = i + 1;
    }
    proof {
        assert(s@.skip(i as int) =~= Seq::<char>::empty());
        assert(split_seq(s@.skip(i as int), sep) =~= seq![Seq::<char>::empty()]);
        assert(s@.subrange(start as int, i as int) + Seq::<char>::empty() =~= s@.subrange(
            start as int,
            i as int,
        ));
    }
    r.push((start, i));
    proof {
        assert(sp =~= Seq::new(r@.len(), |k: int| s@.subrange(r@[k].0 as int, r@[k].1 as int)));
    }
    r
}

/// A copy of `s[a .. b]`.
pub fn copy_range(s: &Vec<char>, a: usize, b: usize) -> (r: Vec<char>)
    requires
        a <= b <= s@.len(),
    ensures
        r@ == s@.subrange(a as int, b as int),
{
    let mut r: Vec<char> = Vec::new();
    let mut i: usize = a;
    while i < b
        invariant
            a <= i <= b <= s@.len(),
            r@ == s@.subrange(a as int, i as int),
        decreases b - i,
    {
        r.push(s[i]);
        i = i + 1;
        proof {
            assert(r@ =~= s@.subrange(a as int, i as int));
        }
    }
    r
}

/// ASCII lowercase of one character, as `char::to_ascii_lowercase`.
pub open spec fn lower_char(c: char) -> char {
    if 'A' <= c && c <= 'Z' {
        ((c as u8) + 32) as char
    } else {
        c
    }
}

/// ASCII lowercase, character by character.
pub open spec fn lower_seq(s: Seq<char>) -> Seq<char> {
    s.map_values(|c: char| lower_char(c))
}

/// ASCII lowercase of a character vector, as `str::to_ascii_lowercase`.
pub fn lower_chars(s: &Vec<char>) -> (r: Vec<char>)
    ensures
        r@ == lower_seq(s@),
{
    let mut r: Vec<char> = Vec::new();
    let mut i: usize = 0;
    while i < s.len()
        invariant
            i <= s@.len(),
            r@ =~= lower_seq(s@).subrange(0, i as int),
        decreases s@.len() - i,
    {
        let c = s[i];
        if 'A' <= c && c <= 'Z' {
            r.push(((c as u8) + 32) as char);
        } else {
            r.push(c);
        }
        i = i + 1;
        proof {
            assert(r@ =~= lower_seq(s@).subrange(0, i as int));
        }
    }
    proof {
        assert(r@ =~= lower_seq(s@));
    }
    r
}

/// `s` with every space removed, as `str::replace(' ', "")`.
pub open spec fn remove_spaces(s: Seq<char>) -> Seq<char>
    decreases s.len(),
{
    if s.len() == 0 {
        Seq::empty()
    } else if s.last() == ' ' {
        remove_spaces(s.drop_last())
    } else {
        remove_spaces(s.drop_last()).push(s.last())
    }
}

/// Removes every space character.
pub fn remove_spaces_chars(s: &Vec<char>) -> (r: Vec<char>)
    ensures
        r@ == remove_spaces(s@),
{
    let mut r: Vec<char> = Vec::new();
    let mut i: usize = 0;
    while i < s.len()
        invariant
            i <= s@.len(),
            r@ == remove_spaces(s@.take(i as int)),
        decreases s@.len() - i,
    {
        proof {
            assert(s@.take(i + 1).drop_last() =~= s@.take(i as int));
            assert(s@.take(i + 1).last() == s@[i as int]);
        }
        if s[i] != ' ' {
            r.push(s[i]);
        }
        i = i + 1;
    }
    proof {
        assert(s@.take(i as int) =~= s@);
    }
    r
}

/// `s` with every leading `.` removed, as `str::trim_start_matches('.')`.
pub open spec fn strip_leading_dots(s: Seq<char>) -> Seq<char>
    decreases s.len(),
{
    if s.len() > 0 && s[0] == '.' {
        strip_leading_dots(s.drop_first())
    } else {
        s
    }
}

proof fn lemma_strip_leading_dots(s: Seq<char>, i: int)
    requires
        0 <= i <= s.len(),
        forall|k: int| 0 <= k < i ==> s[k] == '.',
        i < s.len() ==> s[i] != '.',
    ensures
        strip_leading_dots(s) == s.skip(i),
    decreases s.len(),
{
    if s.len() > 0 && s[0] == '.' {
        assert(forall|k: int| 0 <= k < i - 1 ==> s.drop_first()[k] == s[k + 1]);
        lemma_strip_leading_dots(s.drop_first(), i - 1);
        assert(s.drop_first().skip(i - 1) =~= s.skip(i));
    } else {
        assert(s.skip(i) =~= s);
    }
}

/// Removes every leading dot.
pub fn strip_leading_dots_chars(s: &Vec<char>) -> (r: Vec<char>)
    ensures
        r@ == strip_leading_dots(s@),
{
    let mut i: usize = 0;
    while i < s.len() && s[i] == '.'
        invariant
            i <= s@.len(),
            forall|k: int| 0 <= k < i ==> s@[k] == '.',
        decreases s@.len() - i,
    {
        i = i + 1;
    }
    proof {
        lemma_strip_leading_dots(s@, i as int);
    }
    let r = copy_range(s, i, s.len());
    proof {
        assert(s@.subrange(i as int, s@.len() as int) =~= s@.skip(i as int));
    }
    r
}

/// Whether every character is an ASCII decimal digit.
pub open spec fn all_digits(s: Seq<char>) -> bool {
    forall|k: int| 0 <= k < s.len() ==> '0' <= #[trigger] s[k] && s[k] <= '9'
}

/// Numeric value of a sequence of decimal digits.
pub open spec fn dec_value(s: Seq<char>) -> nat
    decreases s.len(),
{
    if s.len() == 0 {
        0
    } else {
        dec_value(s.drop_last()) * 10 + (s.last() as u8 - 48) as nat
    }
}

proof fn lemma_dec_value_grows(s: Seq<char>, i: int)
    requires
        0 <= i <= s.len(),
    ensures
        dec_value(s.take(i)) <= dec_value(s),
    decreases s.len() - i,
{
    if i < s.len() {
        assert(s.take(i + 1).drop_last() =~= s.take(i));
        assert(dec_value(s.take(i)) <= dec_value(s.take(i + 1)));
        lemma_dec_value_grows(s, i + 1);
    } else {
        assert(s.take(i) =~= s);
    }
}

/// The value a string parses to as a `u16`, as `str::parse::<u16>` gives it:
/// an optional leading `+`, then one or more digits, value at most 65535.
pub open spec fn parse_u16_spec(s: Seq<char>) -> Option<u16> {
    let body = if s.len() > 0 && s[0] == '+' {
        s.drop_first()
    } else {
        s
    };
    if body.len() > 0 && all_digits(body) && dec_value(body) <= 65535 {
        Some(dec_value(body) as u16)
    } else {
        None
    }
}

fn parse_u16_digits(s: &Vec<char>, from: usize) -> (r: Option<u16>)
    requires
        from <= s@.len(),
    ensures
        ({
            let body = s@.skip(from as int);
            match r {
                Some(v) => body.len() > 0 && all_digits(body) && dec_value(body) == v as nat,
                None => body.len() == 0 || !all_digits(body) || dec_value(body) > 65535,
            }
        }),
{
    let ghost body = s@.skip(from as int);
    if from == s.len() {
        return None;
    }
    let mut acc: u32 = 0;
    let mut i: usize = from;
    while i < s.len()
        invariant
            from <= i <= s@.len(),
            from < s@.len(),
            body == s@.skip(from as int),
            all_digits(body.take(i - from)),
            acc as nat == dec_value(body.take(i - from)),
            acc <= 65535,
        decreases s@.len() - i,
    {
        let c = s[i];
        proof {
            assert(body.take(i - from + 1).drop_last() =~= body.take(i - from));
            assert(body.take(i - from + 1).last() == s@[i as int]);
        }
        if c < '0' || c > '9' {
            return None;
        }
        let d: u32 = (c as u32) - 48;
        acc = acc * 10 + d;
        i = i + 1;
        if acc > 65535 {
            proof {
                lemma_dec_value_grows(body, i - from);
            }
            return None;
        }
    }
    proof {
        assert(body.take(i - from) =~= body);
    }
    Some(acc as u16)
}

/// Parses a `u16` exactly as `str::parse::<u16>` does.
pub fn parse_u16_chars(s: &Vec<char>) -> (r: Option<u16>)
    ensures
        r == parse_u16_spec(s@),
{
    if s.len() > 0 && s[0] == '+' {
        let r = parse_u16_digits(s, 1);
        proof {
            assert(s@.skip(1) =~= s@.drop_first());
        }
        r
    } else {
        let r = parse_u16_digits(s, 0);
        proof {
            assert(s@.skip(0) =~= s@);
        }
        r
    }
}

/// The value a string parses to as an `i64`, as `str::parse::<i64>` gives
/// it: an optional sign, then one or more digits, within the `i64` range.
pub open spec fn parse_i64_spec(s: Seq<char>) -> Option<i64> {
    let negative = s.len() > 0 && s[0] == '-';
    let body = if s.len() > 0 && (s[0] == '+' || s[0] == '-') {
        s.drop_first()
    } else {
        s
    };
    if body.len() > 0 && all_digits(body) {
        if negative && dec_value(body) <= 0x8000_0000_0000_0000 {
            Some((0 - dec_value(body) as int) as i64)
        } else if !negative && dec_value(body) <= 0x7fff_ffff_ffff_ffff {
            Some(dec_value(body) as i64)
        } else {
            None
        }
    } else {
        None
    }
}

fn parse_u64_magnitude(s: &Vec<char>, from: usize, cap: u64) -> (r: Option<u64>)
    requires
        from <= s@.len(),
        cap <= 0x8000_0000_0000_0000,
    ensures
        ({
            let body = s@.skip(from as int);
            match r {
                Some(v) => body.len() > 0 && all_digits(body) && dec_value(body) == v as nat && v
                    <= cap,
                None => body.len() == 0 || !all_digits(body) || dec_value(body) > cap as nat,
            }
        }),
{
    let ghost body = s@.skip(from as int);
    if from == s.len() {
        return None;
    }
    let mut acc: u64 = 0;
    let mut i: usize = from;
    while i < s.len()
        invariant
            from <= i <= s@.len(),
            from < s@.len(),
            cap <= 0x8000_0000_0000_0000,
            body == s@.skip(from as int),
            all_digits(body.take(i - from)),
            acc as nat == dec_value(body.take(i - from)),
            acc <= cap,
        decreases s@.len() - i,
    {
        let c = s[i];
        proof {
            assert(body.take(i - from + 1).drop_last() =~= body.take(i - from));
            assert(body.take(i - from + 1).last() == s@[i as int]);
        }
        if c < '0' || c > '9' {
            return None;
        }
        let d: u64 = (c as u64) - 48;
        if acc > 1_844_674_407_370_955_160u64 {
            proof {
                assert(dec_value(body.take(i - from + 1)) > cap as nat);
                lemma_dec_value_grows(body, i - from + 1);
            }
            return None;
        }
        acc = acc * 10 + d;
        i = i + 1;
        if acc > cap {
            proof {
                lemma_dec_value_grows(body, i - from);
            }
            return None;
        }
    }
    proof {
        assert(body.take(i - from) =~= body);
    }
    Some(acc)
}

/// Parses an `i64` exactly as `str::parse::<i64>` does.
pub fn parse_i64_chars(s: &Vec<char>) -> (r: Option<i64>)
    ensures
        r == parse_i64_spec(s@),
{
    if s.len() > 0 && (s[0] == '+' || s[0] == '-') {
        let negative = s[0] == '-';
        proof {
            assert(s@.skip(1) =~= s@.drop_first());
        }
        if negative {
            match parse_u64_magnitude(s, 1, 0x8000_0000_0000_0000) {
                Some(mag) => {
                    if mag == 0x8000_0000_0000_0000 {
                        Some(i64::MIN)
                    } else {
                        Some(-(mag as i64))
                    }
                },
                None => None,
            }
        } else {
            match parse_u64_magnitude(s, 1, 0x7fff_ffff_ffff_ffff) {
                Some(mag) => Some(mag as i64),
                None => None,
            }
        }
    } else {
        proof {
            assert(s@.skip(0) =~= s@);
        }
        match parse_u64_magnitude(s, 0, 0x7fff_ffff_ffff_ffff) {
            Some(mag) => Some(mag as i64),
            None => None,
        }
    }
}

/// The character for one decimal digit.
pub open spec fn digit_char(d: nat) -> char {
    ((48 + d) as u8) as char
}

/// The decimal representation of a number, most significant digit first.
pub open spec fn dec_rep(n: nat) -> Seq<char>
    decreases n,
{
    if n < 10 {
        seq![digit_char(n)]
    } else {
        dec_rep(n / 10).push(digit_char(n % 10))
    }
}

/// Renders a number in decimal.
pub fn u64_to_chars(n: u64) -> (r: Vec<char>)
    ensures
        r@ == dec_rep(n as nat),
    decreases n,
{
    if n < 10 {
        let mut r: Vec<char> = Vec::new();
        r.push(((48 + n) as u8) as char);
        proof {
            assert(r@ =~= dec_rep(n as nat));
        }
        r
    } else {
        let mut r = u64_to_chars(n / 10);
        r.push(((48 + (n % 10)) as u8) as char);
        proof {
            assert(r@ =~= dec_rep(n as nat));
        }
        r
    }
}

/// Whether two string slices hold the same characters.
pub fn str_eq(a: &str, b: &str) -> (r: bool)
    ensures
        r == (a@ == b@),
{
    let alen = a.unicode_len();
    let blen = b.unicode_len();
    if alen != blen {
        proof {
            assert(a@ != b@);
        }
        return false;
    }
    let mut i: usize = 0;
    while i < alen
        invariant
            i <= alen,
            alen == a@.len(),
            alen == b@.len(),
            forall|k: int| 0 <= k < i ==> a@[k] == b@[k],
        decreases alen - i,
    {
        if a.get_char(i) != b.get_char(i) {
            return false;
        }
        i = i + 1;
    }
    proof {
        assert(a@ =~= b@);
    }
    true
}

/// Whether two character vectors hold the same characters.
pub fn chars_eq(a: &Vec<char>, b: &Vec<char>) -> (r: bool)
    ensures
        r == (a@ == b@),
{
    if a.len() != b.len() {
        return false;
    }
    let mut i: usize = 0;
    while i < a.len()
        invariant
            i <= a@.len(),
            a@.len() == b@.len(),
            forall|k: int| 0 <= k < i ==> a@[k] == b@[k],
        decreases a@.len() - i,
    {
        if a[i] != b[i] {
            return false;
        }
        i = i + 1;
    }
    proof {
        assert(a@ =~= b@);
    }
    true
}

proof fn lemma_trim_end_all_spaces(s: Seq<char>, i: int)
    requires
        0 <= i <= s.len(),
        forall|k: int| i <= k < s.len() ==> is_space(s[k]),
        forall|k: int| 0 <= k < i ==> is_space(s[k]),
    ensures
        trim_end_index(s) <= i,
    decreases s.len(),
{
    if s.len() > 0 {
        if is_space(s.last()) {
            lemma_trim_end_all_spaces(s.drop_last(), if i < s.len() { i } else { s.len() - 1 });
        }
    }
}

} // verus!
