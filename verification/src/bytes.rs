//! Byte-level helpers shared by the filter and the highlighter: ASCII case
//! folding, substring containment, whitespace trimming and tokenization.

use vstd::prelude::*;

verus! {

/// ASCII lowercase of one byte: `A`..`Z` map to `a`..`z`, all else unchanged.
pub open spec fn lower_byte(b: u8) -> u8 {
    if 65 <= b <= 90 {
        (b + 32) as u8
    } else {
        b
    }
}

/// ASCII whitespace: space, tab, line feed, form feed, carriage return.
pub open spec fn is_space(b: u8) -> bool {
    b == 32 || b == 9 || b == 10 || b == 12 || b == 13
}

/// ASCII decimal digit.
pub open spec fn is_digit(b: u8) -> bool {
    48 <= b <= 57
}

/// The whole sequence lowercased byte by byte.
pub open spec fn lower_seq(s: Seq<u8>) -> Seq<u8> {
    s.map_values(|b: u8| lower_byte(b))
}

/// Every byte of `s` is ASCII whitespace.
pub open spec fn all_space(s: Seq<u8>) -> bool {
    forall|i: int| 0 <= i < s.len() ==> is_space(#[trigger] s[i])
}

/// Every byte of `s` is an ASCII digit.
pub open spec fn all_digits(s: Seq<u8>) -> bool {
    forall|i: int| 0 <= i < s.len() ==> is_digit(#[trigger] s[i])
}

/// `needle` occurs in `hay` starting at byte offset `at`.
pub open spec fn occurs_at(hay: Seq<u8>, needle: Seq<u8>, at: int) -> bool {
    0 <= at && at + needle.len() <= hay.len() && hay.subrange(at, at + needle.len()) == needle
}

/// `needle` occurs somewhere in `hay` as a contiguous subsequence.
pub open spec fn contains_seq(hay: Seq<u8>, needle: Seq<u8>) -> bool {
    exists|at: int| occurs_at(hay, needle, at)
}

/// `b` occurs in `s`.
pub open spec fn contains_byte(s: Seq<u8>, b: u8) -> bool {
    exists|i: int| 0 <= i < s.len() && s[i] == b
}

pub fn is_space_byte(b: u8) -> (r: bool)
    ensures
        r == is_space(b),
{
    b == 32 || b == 9 || b == 10 || b == 12 || b == 13
}

pub fn is_digit_byte(b: u8) -> (r: bool)
    ensures
        r == is_digit(b),
{
    48 <= b && b <= 57
}

pub fn lower_byte_exec(b: u8) -> (r: u8)
    ensures
        r == lower_byte(b),
{
    if 65 <= b && b <= 90 {
        b + 32
    } else {
        b
    }
}

/// Lowercase a byte string (ASCII case folding only).
pub fn to_lower_vec(s: &[u8]) -> (r: Vec<u8>)
    ensures
        r@ == lower_seq(s@),
{
    let mut out: Vec<u8> = Vec::new();
    let mut i: usize = 0;
    while i < s.len()
        invariant
            i <= s@.len(),
            out@ =~= lower_seq(s@.subrange(0, i as int)),
        decreases s@.len() - i,
    {
        out.push(lower_byte_exec(s[i]));
        i = i + 1;
        assert(out@ =~= lower_seq(s@.subrange(0, i as int)));
    }
    assert(s@.subrange(0, s@.len() as int) =~= s@);
    out
}

/// Byte-for-byte equality of two byte strings.
pub fn bytes_eq(a: &[u8], b: &[u8]) -> (r: bool)
    ensures
        r == (a@ == b@),
{
    if a.len() != b.len() {
        assert(a@ != b@);
        return false;
    }
    let mut i: usize = 0;
    while i < a.len()
        invariant
            i <= a@.len(),
            a@.len() == b@.len(),
            forall|j: int| 0 <= j < i ==> a@[j] == b@[j],
        decreases a@.len() - i,
    {
        if a[i] != b[i] {
            return false;
        }
        i = i + 1;
    }
    assert(a@ =~= b@);
    true
}

/// Does `needle` occur in `hay` starting exactly at `at`?
pub fn matches_at(hay: &[u8], needle: &[u8], at: usize) -> (r: bool)
    ensures
        r == occurs_at(hay@, needle@, at as int),
{
    if at > hay.len() || needle.len() > hay.len() - at {
        assert(!occurs_at(hay@, needle@, at as int));
        return false;
    }
    let mut i: usize = 0;
    while i < needle.len()
        invariant
            i <= needle@.len(),
            at + needle@.len() <= hay@.len() <= usize::MAX,
            forall|j: int| 0 <= j < i ==> hay@[at + j] == needle@[j],
        decreases needle@.len() - i,
    {
        if hay[at + i] != needle[i] {
            assert(hay@.subrange(at as int, at + needle@.len())[i as int] != needle@[i as int]);
            return false;
        }
        i = i + 1;
    }
    assert(hay@.subrange(at as int, at + needle@.len()) =~= needle@);
    true
}

/// Does `needle` occur anywhere in `hay`?
pub fn contains_bytes(hay: &[u8], needle: &[u8]) -> (r: bool)
    ensures
        r == contains_seq(hay@, needle@),
{
    if needle.len() > hay.len() {
        assert(!contains_seq(hay@, needle@));
        return false;
    }
    if needle.len() == 0 {
        assert(occurs_at(hay@, needle@, 0)) by {
            assert(hay@.subrange(0, 0) =~= needle@);
        }
        return true;
    }
    let mut at: usize = 0;
    while at <= hay.len() - needle.len()
        invariant
            1 <= needle@.len() <= hay@.len() <= usize::MAX,
            at <= hay@.len(),
            forall|j: int| 0 <= j < at ==> !occurs_at(hay@, needle@, j),
        decreases hay@.len() - at,
    {
        if matches_at(hay, needle, at) {
            return true;
        }
        at = at + 1;
    }
    assert forall|j: int| !occurs_at(hay@, needle@, j) by {
        if 0 <= j && j + needle@.len() <= hay@.len() {
            assert(j < at);
        }
    }
    false
}

/// Does byte `b` occur in `s`?
pub fn contains_byte_exec(s: &[u8], b: u8) -> (r: bool)
    ensures
        r == contains_byte(s@, b),
{
    let mut i: usize = 0;
    while i < s.len()
        invariant
            i <= s@.len(),
            forall|j: int| 0 <= j < i ==> s@[j] != b,
        decreases s@.len() - i,
    {
        if s[i] == b {
            return true;
        }
        i = i + 1;
    }
    false
}

/// Every byte of `s` is an ASCII digit?
pub fn all_digits_exec(s: &[u8]) -> (r: bool)
    ensures
        r == all_digits(s@),
{
    let mut i: usize = 0;
    while i < s.len()
        invariant
            i <= s@.len(),
            forall|j: int| 0 <= j < i ==> is_digit(#[trigger] s@[j]),
        decreases s@.len() - i,
    {
        if !is_digit_byte(s[i]) {
            return false;
        }
        i = i + 1;
    }
    true
}

/// A word boundary byte: ASCII whitespace or ASCII punctuation (which
/// includes `(`, `)` and `=`).
pub open spec fn is_boundary(b: u8) -> bool {
    is_space(b) || (33 <= b <= 47) || (58 <= b <= 64) || (91 <= b <= 96) || (123 <= b <= 126)
}

pub fn is_boundary_byte(b: u8) -> (r: bool)
    ensures
        r == is_boundary(b),
{
    is_space_byte(b) || (33 <= b && b <= 47) || (58 <= b && b <= 64) || (91 <= b && b <= 96) || (
    123 <= b && b <= 126)
}

/// Every byte of `s` is ASCII whitespace?
pub fn all_space_exec(s: &[u8]) -> (r: bool)
    ensures
        r == all_space(s@),
{
    let mut i: usize = 0;
    while i < s.len()
        invariant
            i <= s@.len(),
            forall|j: int| 0 <= j < i ==> is_space(#[trigger] s@[j]),
        decreases s@.len() - i,
    {
        if !is_space_byte(s[i]) {
            return false;
        }
        i = i + 1;
    }
    true
}

/// The views of the byte strings held by `v`.
pub open spec fn views_of(v: Seq<Vec<u8>>) -> Seq<Seq<u8>> {
    v.map_values(|x: Vec<u8>| x@)
}

/// The line split at ASCII whitespace into its maximal non-whitespace runs.
pub open spec fn tokens_of(s: Seq<u8>) -> Seq<Seq<u8>>
    decreases s.len(),
{
    if s.len() == 0 {
        Seq::empty()
    } else {
        let rest = tokens_of(s.drop_last());
        let b = s.last();
        if is_space(b) {
            rest
        } else if s.len() >= 2 && !is_space(s[s.len() - 2]) {
            rest.update(rest.len() - 1, rest.last().push(b))
        } else {
            rest.push(seq![b])
        }
    }
}

/// Whitespace-split a line into its tokens.
pub fn tokenize(line: &[u8]) -> (r: Vec<Vec<u8>>)
    ensures
        views_of(r@) == tokens_of(line@),
{
    let ghost l = line@;
    let mut out: Vec<Vec<u8>> = Vec::new();
    let mut cur: Vec<u8> = Vec::new();
    let mut i: usize = 0;
    while i < line.len()
        invariant
            i <= l.len(),
            line@ == l,
            (cur@.len() > 0) <==> (i > 0 && !is_space(l[i - 1])),
            cur@.len() == 0 ==> tokens_of(l.subrange(0, i as int)) == views_of(out@),
            cur@.len() > 0 ==> tokens_of(l.subrange(0, i as int)) == views_of(out@).push(cur@),
        decreases l.len() - i,
    {
        let b = line[i];
        assert(l.subrange(0, i + 1).drop_last() =~= l.subrange(0, i as int));
        assert(l.subrange(0, i + 1).last() == l[i as int]);
        if is_space_byte(b) {
            if cur.len() > 0 {
                out.push(cur);
                cur = Vec::new();
                assert(views_of(out@) =~= views_of(out@.drop_last()).push(out@.last()@));
            }
        } else {
            if cur.len() == 0 {
                cur.push(b);
                assert(cur@ =~= seq![b]);
                assert(tokens_of(l.subrange(0, i + 1)) == views_of(out@).push(cur@));
            } else {
                let ghost old_cur = cur@;
                cur.push(b);
                assert(views_of(out@).push(old_cur).update(
                    views_of(out@).push(old_cur).len() - 1,
                    old_cur.push(b),
                ) =~= views_of(out@).push(cur@));
            }
        }
        i = i + 1;
    }
    assert(l.subrange(0, l.len() as int) =~= l);
    if cur.len() > 0 {
        out.push(cur);
        assert(views_of(out@) =~= views_of(out@.drop_last()).push(out@.last()@));
    }
    out
}

/// The string split at every comma; empty segments are kept, so the result
/// always holds at least one segment (the empty string splits to one empty
/// segment).
pub open spec fn split_commas(s: Seq<u8>) -> Seq<Seq<u8>>
    decreases s.len(),
{
    if s.len() == 0 {
        seq![Seq::<u8>::empty()]
    } else {
        let rest = split_commas(s.drop_last());
        let b = s.last();
        if b == 44 {
            rest.push(Seq::<u8>::empty())
        } else {
            rest.update(rest.len() - 1, rest.last().push(b))
        }
    }
}

/// Split a byte string at every comma.
pub fn split_commas_exec(s: &[u8]) -> (r: Vec<Vec<u8>>)
    ensures
        views_of(r@) == split_commas(s@),
{
    let ghost l = s@;
    let mut out: Vec<Vec<u8>> = Vec::new();
    let mut cur: Vec<u8> = Vec::new();
    let mut i: usize = 0;
    while i < s.len()
        invariant
            i <= l.len(),
            s@ == l,
            split_commas(l.subrange(0, i as int)) == views_of(out@).push(cur@),
        decreases l.len() - i,
    {
        let b = s[i];
        assert(l.subrange(0, i + 1).drop_last() =~= l.subrange(0, i as int));
        assert(l.subrange(0, i + 1).last() == l[i as int]);
        if b == 44 {
            out.push(cur);
            cur = Vec::new();
            assert(views_of(out@) =~= views_of(out@.drop_last()).push(out@.last()@));
        } else {
            let ghost old_cur = cur@;
            cur.push(b);
            assert(views_of(out@).push(old_cur).update(
                views_of(out@).push(old_cur).len() - 1,
                old_cur.push(b),
            ) =~= views_of(out@).push(cur@));
        }
        i = i + 1;
    }
    assert(l.subrange(0, l.len() as int) =~= l);
    out.push(cur);
    assert(views_of(out@) =~= views_of(out@.drop_last()).push(out@.last()@));
    out
}

/// `s` with leading ASCII whitespace removed.
pub open spec fn trim_left(s: Seq<u8>) -> Seq<u8>
    decreases s.len(),
{
    if s.len() > 0 && is_space(s[0]) {
        trim_left(s.drop_first())
    } else {
        s
    }
}

/// `s` with trailing ASCII whitespace removed.
pub open spec fn trim_right(s: Seq<u8>) -> Seq<u8>
    decreases s.len(),
{
    if s.len() > 0 && is_space(s.last()) {
        trim_right(s.drop_last())
    } else {
        s
    }
}

/// `s` with ASCII whitespace removed from both ends.
pub open spec fn trim_spaces(s: Seq<u8>) -> Seq<u8> {
    trim_left(trim_right(s))
}

/// Trim ASCII whitespace from both ends of a byte string.
pub fn trim_bytes(s: &[u8]) -> (r: Vec<u8>)
    ensures
        r@ == trim_spaces(s@),
{
    let mut end: usize = s.len();
    assert(s@.subrange(0, end as int) =~= s@);
    while end > 0 && is_space_byte(s[end - 1])
        invariant
            end <= s@.len() <= usize::MAX,
            trim_right(s@) == trim_right(s@.subrange(0, end as int)),
        decreases end,
    {
        assert(s@.subrange(0, end as int).drop_last() =~= s@.subrange(0, end - 1));
        assert(s@.subrange(0, end as int).last() == s@[end - 1]);
        end = end - 1;
    }
    assert(s@.subrange(0, s@.len() as int) =~= s@);
    assert(trim_right(s@) == s@.subrange(0, end as int));
    let mut start: usize = 0;
    while start < end && is_space_byte(s[start])
        invariant
            start <= end <= s@.len() <= usize::MAX,
            trim_right(s@) == s@.subrange(0, end as int),
            trim_left(s@.subrange(0, end as int)) == trim_left(s@.subrange(start as int, end as int)),
        decreases end - start,
    {
        assert(s@.subrange(start as int, end as int).drop_first() =~= s@.subrange(
            start + 1,
            end as int,
        ));
        start = start + 1;
    }
    assert(trim_spaces(s@) == s@.subrange(start as int, end as int));
    copy_range(s, start, end)
}

/// `s` with every trailing `:` removed.
pub open spec fn strip_trailing_colons(s: Seq<u8>) -> Seq<u8>
    decreases s.len(),
{
    if s.len() > 0 && s.last() == 58 {
        strip_trailing_colons(s.drop_last())
    } else {
        s
    }
}

/// Remove every trailing `:` from a byte string.
pub fn strip_trailing_colons_exec(s: &[u8]) -> (r: Vec<u8>)
    ensures
        r@ == strip_trailing_colons(s@),
{
    let mut end: usize = s.len();
    assert(s@.subrange(0, end as int) =~= s@);
    while end > 0 && s[end - 1] == 58
        invariant
            end <= s@.len() <= usize::MAX,
            strip_trailing_colons(s@) == strip_trailing_colons(s@.subrange(0, end as int)),
        decreases end,
    {
        assert(s@.subrange(0, end as int).drop_last() =~= s@.subrange(0, end - 1));
        assert(s@.subrange(0, end as int).last() == s@[end - 1]);
        end = end - 1;
    }
    assert(s@.subrange(0, s@.len() as int) =~= s@);
    copy_range(s, 0, end)
}

/// Append all of `src` to `dst`.
pub fn push_all(dst: &mut Vec<u8>, src: &[u8])
    ensures
        final(dst)@ == old(dst)@ + src@,
{
    let mut i: usize = 0;
    while i < src.len()
        invariant
            i <= src@.len(),
            dst@ =~= old(dst)@ + src@.subrange(0, i as int),
        decreases src@.len() - i,
    {
        dst.push(src[i]);
        i = i + 1;
        assert(dst@ =~= old(dst)@ + src@.subrange(0, i as int));
    }
    assert(dst@ =~= old(dst)@ + src@);
}

/// A fresh copy of `src[from..to]`.
pub fn copy_range(src: &[u8], from: usize, to: usize) -> (r: Vec<u8>)
    requires
        from <= to <= src@.len(),
    ensures
        r@ == src@.subrange(from as int, to as int),
{
    let mut out: Vec<u8> = Vec::new();
    let mut i: usize = from;
    while i < to
        invariant
            from <= i <= to <= src@.len(),
            out@ =~= src@.subrange(from as int, i as int),
        decreases to - i,
    {
        out.push(src[i]);
        i = i + 1;
        assert(out@ =~= src@.subrange(from as int, i as int));
    }
    out
}

} // verus!
