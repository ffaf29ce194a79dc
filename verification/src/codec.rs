//! The boundary to the Unicode codec and to UTF-8 decoding.
//!
//! Unicode text is mapped to an ASCII-compatible byte form by the IDNA
//! ToASCII algorithm of the `idna` crate; that mapping is named here by
//! [`idna_to_ascii`] and left otherwise uninterpreted. Byte input is decoded
//! as UTF-8 through `String::from_utf8`, whose behaviour vstd's UTF-8 model
//! states exactly.

use vstd::prelude::*;

use crate::model::{all_ascii, chars_of};

verus! {

/// The error value of the IDNA codec.
#[verifier::external_type_specification]
#[verifier::external_body]
pub struct ExIdnaErrors(idna::Errors);

/// The error value of UTF-8 decoding.
#[verifier::external_type_specification]
#[verifier::external_body]
pub struct ExFromUtf8Error(std::string::FromUtf8Error);

/// The ASCII byte form that the IDNA ToASCII mapping gives a text, or `None`
/// where the mapping rejects it. The mapping itself is the `idna` crate's;
/// only its determinism and the ASCII form of its output are assumed here.
pub uninterp spec fn idna_to_ascii(s: Seq<char>) -> Option<Seq<u8>>;

/// Relies on `idna::domain_to_ascii`: the IDNA ToASCII mapping with its
/// default configuration, which leaves hyphen-placement checks, transitional
/// processing, STD3 rules and the codec's own DNS length checks off — the
/// length limits are enforced solely by this library's validation engine.
/// The result is a function of the input text alone, and on success every
/// byte of the output is ASCII (non-ASCII labels come back Punycode-encoded).
#[verifier::external_body]
pub(crate) fn domain_to_ascii(name: &str) -> (r: Result<Vec<u8>, idna::Errors>)
    ensures
        r is Ok <==> idna_to_ascii(name@) is Some,
        r matches Ok(v) ==> idna_to_ascii(name@) == Some(v@) && all_ascii(v@),
{
    idna::domain_to_ascii(name).map(|s| s.into_bytes())
}

/// Relies on `String::from_utf8`: it succeeds exactly on valid UTF-8 input,
/// and on success decodes the bytes to their character sequence.
#[verifier::external_body]
pub(crate) fn string_from_utf8(v: Vec<u8>) -> (r: Result<String, std::string::FromUtf8Error>)
    ensures
        r is Ok <==> vstd::utf8::valid_utf8(v@),
        r matches Ok(s) ==> s@ == vstd::utf8::decode_utf8(v@),
{
    String::from_utf8(v)
}

/// An ASCII byte sequence is valid UTF-8 and decodes to its own characters,
/// byte for byte.
pub proof fn lemma_ascii_utf8(b: Seq<u8>)
    requires
        all_ascii(b),
    ensures
        vstd::utf8::valid_utf8(b),
        vstd::utf8::decode_utf8(b) == chars_of(b),
    decreases b.len(),
{
    if b.len() == 0 {
        assert(vstd::utf8::decode_utf8(b) =~= chars_of(b));
    } else {
        let b0 = b[0];
        assert(vstd::utf8::is_leading_byte_width_1(b0));
        assert(b0 & 0x7f == b0) by (bit_vector)
            requires
                b0 < 128,
        ;
        assert(vstd::utf8::decode_first_codepoint(b) == b0 as u32);
        assert(vstd::utf8::valid_first_scalar(b));
        assert(vstd::utf8::length_of_first_scalar(b) == 1);
        let rest = vstd::utf8::pop_first_scalar(b);
        assert(rest =~= b.drop_first());
        lemma_ascii_utf8(rest);
        assert(vstd::utf8::decode_utf8(b) == seq![(b0 as u32) as char] + chars_of(rest));
        assert((b0 as u32) as char == b0 as char);
        assert(vstd::utf8::decode_utf8(b) =~= chars_of(b));
    }
}

/// Spell an ASCII byte sequence as text.
pub(crate) fn ascii_to_string(b: &[u8]) -> (r: String)
    requires
        all_ascii(b@),
    ensures
        r@ == chars_of(b@),
{
    proof {
        lemma_ascii_utf8(b@);
    }
    match string_from_utf8(vstd::slice::slice_to_vec(b)) {
        Ok(s) => s,
        Err(_) => vstd::pervasive::unreached(),
    }
}

} // verus!
