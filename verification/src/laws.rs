//! Laws of the parsing pipeline, stated against the contracts of
//! `Name::from_text` and `Name::from_bytes` (their results are characterized
//! by [`from_text_post`] and [`from_bytes_post`]).

use vstd::prelude::*;

use crate::codec::{idna_to_ascii, lemma_ascii_utf8};
use crate::model::{accepts, chars_of, is_root, lemma_first_bad_at, lemma_root_segments,
    seg_ok, segments, segments_ok, spec_is_absolute, valid_name};
use crate::name::{from_bytes_post, from_text_post, Name, NameParseError};

verus! {

/// For any text whose ASCII byte form is a valid name, `from_text` succeeds
/// with exactly that byte form; and whenever the codec keeps a trailing
/// separator as given, the parsed name is absolute exactly when the original
/// text ended with the separator.
pub proof fn lemma_from_text_valid(s: Seq<char>, b: Seq<u8>, r: Result<Name, NameParseError>)
    requires
        idna_to_ascii(s) == Some(b),
        valid_name(b),
        ((s.len() > 0 && s[s.len() - 1] == '.') <==> spec_is_absolute(b)),
        from_text_post(s, r),
    ensures
        r matches Ok(n) && n@ == b && (spec_is_absolute(n@) <==> (s.len() > 0 && s[s.len() - 1]
            == '.')),
{
}

/// For any input within the total length limit, other than the root name,
/// whose first failing segment (scanned left to right) is an empty non-final
/// one, `from_text` fails with `EmptyLabel` carrying exactly that segment's
/// zero-based position.
pub proof fn lemma_from_text_empty_label(
    s: Seq<char>,
    b: Seq<u8>,
    p: int,
    r: Result<Name, NameParseError>,
)
    requires
        idna_to_ascii(s) == Some(b),
        b.len() <= 255,
        !is_root(b),
        0 <= p < segments(b).len() - 1,
        segments(b)[p].len() == 0,
        forall|k: int| 0 <= k < p ==> seg_ok(segments(b), k),
        from_text_post(s, r),
    ensures
        r matches Err(NameParseError::EmptyLabel(q)) && q as int == p,
{
    assert(!seg_ok(segments(b), p));
    lemma_first_bad_at(segments(b), 0, p);
    assert(!segments_ok(b));
    assert(!accepts(b));
}

/// For any input within the total length limit whose first failing segment
/// (scanned left to right) is longer than 63 bytes, `from_text` fails with
/// `LabelTooLong` carrying exactly that segment's text.
pub proof fn lemma_from_text_long_label(
    s: Seq<char>,
    b: Seq<u8>,
    p: int,
    r: Result<Name, NameParseError>,
)
    requires
        idna_to_ascii(s) == Some(b),
        b.len() <= 255,
        0 <= p < segments(b).len(),
        segments(b)[p].len() > 63,
        forall|k: int| 0 <= k < p ==> seg_ok(segments(b), k),
        from_text_post(s, r),
    ensures
        r matches Err(NameParseError::LabelTooLong(t)) && t@ == chars_of(segments(b)[p]),
{
    if is_root(b) {
        lemma_root_segments(b);
        assert(segments(b)[p].len() == 0);
    }
    assert(!seg_ok(segments(b), p));
    lemma_first_bad_at(segments(b), 0, p);
    assert(!segments_ok(b));
    assert(!accepts(b));
}

/// For any input whose ASCII byte form exceeds 255 bytes, `from_text` fails
/// with `NameTooLarge` carrying the original input text.
pub proof fn lemma_from_text_too_large(s: Seq<char>, b: Seq<u8>, r: Result<Name, NameParseError>)
    requires
        idna_to_ascii(s) == Some(b),
        b.len() > 255,
        from_text_post(s, r),
    ensures
        r matches Err(NameParseError::NameTooLarge(t)) && t@ == s,
{
}

/// Round trip: where the codec maps a text to itself (ASCII-only input on
/// which the mapping changes nothing) and that text is a valid byte form,
/// `from_text` succeeds and the name's text form spells back the original
/// text unchanged.
pub proof fn lemma_from_text_round_trip(s: Seq<char>, b: Seq<u8>, r: Result<Name, NameParseError>)
    requires
        idna_to_ascii(s) == Some(b),
        chars_of(b) == s,
        valid_name(b),
        from_text_post(s, r),
    ensures
        r matches Ok(n) && chars_of(n@) == s,
{
}

/// Idempotence: re-running `from_bytes` on a validated name's own byte form
/// succeeds and yields a name with the same byte form — an equal name —
/// whenever the codec maps that ASCII text to itself.
pub proof fn lemma_from_bytes_idempotent(b: Seq<u8>, r: Result<Name, NameParseError>)
    requires
        valid_name(b),
        idna_to_ascii(chars_of(b)) == Some(b),
        from_bytes_post(b, r),
    ensures
        r matches Ok(n) && n@ == b,
{
    lemma_ascii_utf8(b);
}

} // verus!
