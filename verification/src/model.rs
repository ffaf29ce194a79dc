//! Mathematical model of a name's byte form: how a byte sequence splits into
//! labels, and when it is structurally valid.

use vstd::prelude::*;

verus! {

/// The label separator, `.` in ASCII.
pub const SEP: u8 = 46;

/// Every byte is ASCII.
pub open spec fn all_ascii(b: Seq<u8>) -> bool {
    forall|i: int| 0 <= i < b.len() ==> b[i] < 128
}

/// The characters spelled by an ASCII byte sequence, byte for byte.
pub open spec fn chars_of(b: Seq<u8>) -> Seq<char> {
    Seq::new(b.len(), |i: int| b[i] as char)
}

/// The bytes spelled by an ASCII character sequence, character for character.
pub open spec fn bytes_of(s: Seq<char>) -> Seq<u8> {
    Seq::new(s.len(), |i: int| s[i] as u8)
}

/// The dot-separated segments of a byte sequence, in left-to-right order.
/// A sequence with no separator is one segment; each separator ends a
/// segment, so a trailing separator yields a trailing empty segment.
pub open spec fn segments(b: Seq<u8>) -> Seq<Seq<u8>>
    decreases b.len(),
{
    if b.len() == 0 {
        seq![Seq::<u8>::empty()]
    } else if b[0] == SEP {
        seq![Seq::<u8>::empty()] + segments(b.drop_first())
    } else {
        let rest = segments(b.drop_first());
        seq![seq![b[0]] + rest[0]] + rest.drop_first()
    }
}

/// A segment passes validation: at most 63 bytes, and not empty unless it is
/// the final segment (a trailing empty segment marks an absolute name).
pub open spec fn seg_ok(ss: Seq<Seq<u8>>, i: int) -> bool {
    ss[i].len() <= 63 && (ss[i].len() > 0 || i == ss.len() - 1)
}

/// Every segment passes validation.
pub open spec fn segments_ok(b: Seq<u8>) -> bool {
    forall|i: int| 0 <= i < segments(b).len() ==> seg_ok(segments(b), i)
}

/// The root name: a single separator byte.
pub open spec fn is_root(b: Seq<u8>) -> bool {
    b.len() == 1 && b[0] == SEP
}

/// The index of the first segment at or after `i` that fails validation, or
/// `ss.len()` if they all pass.
pub open spec fn first_bad_from(ss: Seq<Seq<u8>>, i: int) -> int
    decreases ss.len() - i when 0 <= i <= ss.len()
{
    if i >= ss.len() {
        i
    } else if !seg_ok(ss, i) {
        i
    } else {
        first_bad_from(ss, i + 1)
    }
}

/// The index of the first segment that fails validation, scanned left to
/// right, or the segment count if they all pass.
pub open spec fn first_bad(b: Seq<u8>) -> int {
    first_bad_from(segments(b), 0)
}

/// The validation engine accepts the byte form: within the total length
/// limit, and either the root name or with every segment passing.
pub open spec fn accepts(b: Seq<u8>) -> bool {
    b.len() <= 255 && (is_root(b) || segments_ok(b))
}

/// The full invariant of a constructed name's byte form.
pub open spec fn valid_name(b: Seq<u8>) -> bool {
    all_ascii(b) && accepts(b)
}

/// A byte form is absolute when it is non-empty and ends with the separator.
pub open spec fn spec_is_absolute(b: Seq<u8>) -> bool {
    b.len() > 0 && b[b.len() - 1] == SEP
}

/// A byte sequence always has at least one segment.
pub proof fn lemma_segments_len(b: Seq<u8>)
    ensures
        segments(b).len() >= 1,
    decreases b.len(),
{
    if b.len() == 0 {
    } else if b[0] == SEP {
    } else {
        lemma_segments_len(b.drop_first());
    }
}

/// A byte sequence with no separator is exactly one segment, itself.
pub proof fn lemma_segments_nosep(c: Seq<u8>)
    requires
        forall|j: int| 0 <= j < c.len() ==> c[j] != SEP,
    ensures
        segments(c) == seq![c],
    decreases c.len(),
{
    if c.len() == 0 {
        assert(c =~= Seq::<u8>::empty());
        assert(segments(c) =~~= seq![c]);
    } else {
        lemma_segments_nosep(c.drop_first());
        let rest = segments(c.drop_first());
        assert(rest[0] == c.drop_first());
        assert(seq![c[0]] + c.drop_first() =~= c);
        assert(rest.drop_first() =~~= Seq::<Seq<u8>>::empty());
        assert(segments(c) =~~= seq![c]);
    }
}

/// Splitting at the first separator: the bytes before it form the first
/// segment, and the rest of the sequence supplies the remaining segments.
pub proof fn lemma_segments_split(c: Seq<u8>, k: int)
    requires
        0 <= k < c.len(),
        c[k] == SEP,
        forall|j: int| 0 <= j < k ==> c[j] != SEP,
    ensures
        segments(c) == seq![c.subrange(0, k)] + segments(c.subrange(k + 1, c.len() as int)),
    decreases k,
{
    if k == 0 {
        assert(c.subrange(0, 0) =~= Seq::<u8>::empty());
        assert(c.drop_first() =~= c.subrange(1, c.len() as int));
        assert(segments(c) =~~= seq![c.subrange(0, 0)] + segments(
            c.subrange(1, c.len() as int),
        ));
    } else {
        let d = c.drop_first();
        assert(d[k - 1] == SEP);
        assert(forall|j: int| 0 <= j < k - 1 ==> d[j] != SEP);
        lemma_segments_split(d, k - 1);
        let tail = d.subrange(k, d.len() as int);
        assert(tail =~= c.subrange(k + 1, c.len() as int));
        let rest = segments(d);
        assert(rest == seq![d.subrange(0, k - 1)] + segments(tail));
        assert(rest[0] == d.subrange(0, k - 1));
        assert(seq![c[0]] + d.subrange(0, k - 1) =~= c.subrange(0, k));
        assert(rest.drop_first() =~~= segments(tail));
        assert(segments(c) =~~= seq![c.subrange(0, k)] + segments(
            c.subrange(k + 1, c.len() as int),
        ));
    }
}

/// When the segments up to `p` pass validation and segment `p` fails, `p` is
/// the first failing index.
pub proof fn lemma_first_bad_at(ss: Seq<Seq<u8>>, j: int, p: int)
    requires
        0 <= j <= p < ss.len(),
        forall|k: int| j <= k < p ==> seg_ok(ss, k),
        !seg_ok(ss, p),
    ensures
        first_bad_from(ss, j) == p,
    decreases p - j,
{
    if j < p {
        lemma_first_bad_at(ss, j + 1, p);
    }
}

/// The segments of the root name are two empty segments.
pub proof fn lemma_root_segments(b: Seq<u8>)
    requires
        is_root(b),
    ensures
        segments(b) == seq![Seq::<u8>::empty(), Seq::<u8>::empty()],
{
    let d = b.drop_first();
    assert(d.len() == 0);
    assert(segments(d) == seq![Seq::<u8>::empty()]);
    assert(segments(b) =~~= seq![Seq::<u8>::empty(), Seq::<u8>::empty()]);
}

} // verus!
