//! The `Name` and `Label` value types and the validation engine that
//! constructs them.

use vstd::prelude::*;

use crate::codec::{ascii_to_string, domain_to_ascii, idna_to_ascii, string_from_utf8};
use crate::model::{accepts, all_ascii, chars_of, first_bad, is_root, lemma_first_bad_at,
    lemma_segments_len, lemma_segments_nosep, lemma_segments_split, seg_ok, segments,
    segments_ok, spec_is_absolute, valid_name, SEP};
use crate::storage::{store_as_slice, store_bytes, store_from_slice, ByteStore};
use vstd::slice::{slice_index_get, slice_subrange, slice_to_vec};
use vstd::string::StringSliceAdditionalSpecFns;

verus! {

/// One dot-delimited segment of a name, as an owned copy of its bytes.
#[derive(Debug)]
pub struct Label {
    value: Vec<u8>,
}

/// A validated ASCII-compatible domain name: an owned byte sequence of
/// dot-separated labels, at most 255 bytes in all, each label at most 63
/// bytes, with no empty label other than a trailing one (which marks an
/// absolute name).
#[derive(Debug)]
pub struct Name {
    value: ByteStore,
}

/// The errors a name parse can report.
#[derive(Debug)]
#[non_exhaustive]
pub enum NameParseError {
    /// The IDNA codec rejected the Unicode text.
    IDNAError(idna::Errors),
    /// Byte input was not valid UTF-8.
    Utf8Error(std::string::FromUtf8Error),
    /// The encoded form exceeds 255 bytes; carries the offending input as
    /// text — `from_text` and `from_bytes` carry their original argument,
    /// the ASCII-trusting paths their own byte form.
    NameTooLarge(String),
    /// A label exceeds 63 bytes; carries that label as text.
    LabelTooLong(String),
    /// A non-final label is empty; carries its zero-based position.
    EmptyLabel(usize),
}

impl View for Label {
    type V = Seq<u8>;

    closed spec fn view(&self) -> Seq<u8> {
        self.value@
    }
}

impl View for Name {
    type V = Seq<u8>;

    closed spec fn view(&self) -> Seq<u8> {
        store_bytes(self.value)
    }
}

impl Label {
    #[verifier::type_invariant]
    spec fn wf(self) -> bool {
        all_ascii(self@)
    }

    /// The label's bytes, spelled as text.
    pub fn to_text(&self) -> (r: String)
        ensures
            r@ == chars_of(self@),
    {
        proof {
            use_type_invariant(&*self);
        }
        ascii_to_string(self.value.as_slice())
    }
}

/// The error for the first failing segment of the byte form `b`, scanned
/// left to right with the length check before the emptiness check: an
/// over-long segment is `LabelTooLong` carrying exactly that segment's text,
/// and an empty non-final one is `EmptyLabel` carrying its zero-based index.
pub open spec fn label_error_post(b: Seq<u8>, r: Result<Name, NameParseError>) -> bool {
    let ss = segments(b);
    let p = first_bad(b);
    &&& 0 <= p < ss.len()
    &&& (ss[p].len() > 63 ==> (r matches Err(NameParseError::LabelTooLong(t)) && t@ == chars_of(
        ss[p],
    )))
    &&& (ss[p].len() <= 63 ==> (r matches Err(NameParseError::EmptyLabel(q)) && q as int == p))
}

/// What the validation engine returns for the byte form `b`: the wrapped
/// bytes unchanged when `b` is accepted, and otherwise the error for the
/// first violation found, checking the total length first and then each
/// segment left to right. At the engine level the `NameTooLarge` payload is
/// the engine's own input spelled as text — which is the caller's original
/// input on the ASCII-trusting paths.
pub open spec fn validate_post(b: Seq<u8>, r: Result<Name, NameParseError>) -> bool {
    &&& (r is Ok <==> accepts(b))
    &&& (r matches Ok(n) ==> n@ == b)
    &&& (b.len() > 255 ==> (r matches Err(NameParseError::NameTooLarge(t)) && t@ == chars_of(
        b,
    )))
    &&& (b.len() <= 255 && !accepts(b) ==> label_error_post(b, r))
}

/// What `from_text` returns for the text `s`: the codec's rejection is
/// surfaced as `IDNAError`, and its ASCII byte form otherwise goes through
/// the validation engine — except that an over-length failure carries the
/// original input text `s` itself, not the codec's normalized form.
pub open spec fn from_text_post(s: Seq<char>, r: Result<Name, NameParseError>) -> bool {
    match idna_to_ascii(s) {
        Option::None => r matches Err(NameParseError::IDNAError(_)),
        Option::Some(b) => {
            &&& (r is Ok <==> accepts(b))
            &&& (r matches Ok(n) ==> n@ == b)
            &&& (b.len() > 255 ==> (r matches Err(NameParseError::NameTooLarge(t)) && t@ == s))
            &&& (b.len() <= 255 && !accepts(b) ==> label_error_post(b, r))
        },
    }
}

/// What `from_bytes` returns for the bytes `b`: input that is not UTF-8 is
/// surfaced as `Utf8Error`, and the decoded text otherwise goes through
/// `from_text`.
pub open spec fn from_bytes_post(b: Seq<u8>, r: Result<Name, NameParseError>) -> bool {
    if vstd::utf8::valid_utf8(b) {
        from_text_post(vstd::utf8::decode_utf8(b), r)
    } else {
        r matches Err(NameParseError::Utf8Error(_))
    }
}

impl Name {
    #[verifier::type_invariant]
    spec fn wf(self) -> bool {
        valid_name(self@)
    }

    /// Wrap an already-validated byte form without running any check. The
    /// caller must have established the full invariant: ASCII bytes, total
    /// length at most 255, labels at most 63 bytes, no empty label other
    /// than a trailing one (or the root name). This is the trusting fast
    /// path for byte forms known to be valid; it cannot fail.
    pub fn from_bytes_raw(name: &[u8]) -> (r: Result<Self, NameParseError>)
        requires
            valid_name(name@),
        ensures
            r matches Ok(n) && n@ == name@,
    {
        Ok(Name { value: store_from_slice(name) })
    }

    /// Run the validation engine on a byte form the caller guarantees to be
    /// ASCII: check the total length, then each dot-separated segment left
    /// to right, and wrap the bytes unchanged when every check passes. The
    /// single separator byte alone is the root name and is accepted as is.
    pub fn from_bytes_ascii(name: &[u8]) -> (r: Result<Self, NameParseError>)
        requires
            all_ascii(name@),
        ensures
            validate_post(name@, r),
    {
        let ghost b = name@;
        let n = name.len();
        if n > 255 {
            return Err(NameParseError::NameTooLarge(ascii_to_string(name)));
        }
        if n == 1 && *slice_index_get(name, 0) == SEP {
            return Ok(Name { value: store_from_slice(name) });
        }
        let mut i: usize = 0;
        let mut start: usize = 0;
        let mut pos: usize = 0;
        let ghost mut done: Seq<Seq<u8>> = Seq::empty();
        proof {
            assert(b.subrange(0, n as int) =~= b);
            assert(Seq::empty() + segments(b) =~~= segments(b));
        }
        while i < n
            invariant
                b == name@,
                n == b.len(),
                b.len() <= 255,
                all_ascii(b),
                !is_root(b),
                start <= i <= n,
                pos <= i,
                done.len() == pos,
                forall|j: int| start <= j < i ==> b[j] != SEP,
                segments(b) == done + segments(b.subrange(start as int, n as int)),
                forall|k: int| 0 <= k < pos ==> seg_ok(segments(b), k),
            decreases n - i,
        {
            if *slice_index_get(name, i) == SEP {
                proof {
                    let csuf = b.subrange(start as int, n as int);
                    assert(csuf[i - start] == SEP);
                    lemma_segments_split(csuf, i - start);
                    assert(csuf.subrange(0, i - start) =~= b.subrange(start as int, i as int));
                    assert(csuf.subrange(i - start + 1, csuf.len() as int) =~= b.subrange(
                        i + 1,
                        n as int,
                    ));
                    lemma_segments_len(b.subrange(i + 1, n as int));
                    assert(segments(b) == done + (seq![b.subrange(start as int, i as int)]
                        + segments(b.subrange(i + 1, n as int))));
                    assert(segments(b)[pos as int] == b.subrange(start as int, i as int));
                    assert(segments(b).len() > pos + 1);
                }
                if i - start > 63 {
                    proof {
                        assert(!seg_ok(segments(b), pos as int));
                        lemma_first_bad_at(segments(b), 0, pos as int);
                        assert(!segments_ok(b));
                    }
                    return Err(NameParseError::LabelTooLong(ascii_to_string(slice_subrange(
                        name,
                        start,
                        i,
                    ))));
                }
                if i == start {
                    proof {
                        assert(!seg_ok(segments(b), pos as int));
                        lemma_first_bad_at(segments(b), 0, pos as int);
                        assert(!segments_ok(b));
                    }
                    return Err(NameParseError::EmptyLabel(pos));
                }
                proof {
                    assert(seg_ok(segments(b), pos as int));
                    done = done.push(b.subrange(start as int, i as int));
                    assert(done + segments(b.subrange(i + 1, n as int)) =~~= segments(b));
                }
                start = i + 1;
                pos = pos + 1;
            }
            i = i + 1;
        }
        proof {
            let csuf = b.subrange(start as int, n as int);
            lemma_segments_nosep(csuf);
            assert(segments(b) == done + seq![csuf]);
            assert(segments(b).len() == pos + 1);
            assert(segments(b)[pos as int] == csuf);
        }
        if n - start > 63 {
            proof {
                assert(!seg_ok(segments(b), pos as int));
                lemma_first_bad_at(segments(b), 0, pos as int);
                assert(!segments_ok(b));
            }
            return Err(NameParseError::LabelTooLong(ascii_to_string(slice_subrange(
                name,
                start,
                n,
            ))));
        }
        proof {
            assert(seg_ok(segments(b), pos as int));
            assert(segments_ok(b));
        }
        Ok(Name { value: store_from_slice(name) })
    }

    /// Parse a name from bytes: the bytes must be valid UTF-8, and the
    /// decoded text is parsed as by `from_text` (so byte input still passes
    /// through the Unicode codec; it is not assumed to be ASCII already).
    pub fn from_bytes(name: &[u8]) -> (r: Result<Self, NameParseError>)
        ensures
            from_bytes_post(name@, r),
    {
        match string_from_utf8(slice_to_vec(name)) {
            Ok(s) => Self::from_text(s.as_str()),
            Err(e) => Err(NameParseError::Utf8Error(e)),
        }
    }

    /// Run the validation engine on text the caller guarantees to be ASCII.
    pub fn from_text_ascii(name: &str) -> (r: Result<Self, NameParseError>)
        requires
            name.is_ascii(),
        ensures
            validate_post(crate::model::bytes_of(name@), r),
    {
        proof {
            broadcast use vstd::string::is_ascii_spec_bytes;
            broadcast use vstd::utf8::is_ascii_chars_nat_bound;

            assert(name.spec_bytes() =~= crate::model::bytes_of(name@));
        }
        Self::from_bytes_ascii(name.as_bytes())
    }

    /// Parse a name from Unicode text: the codec maps the text to its ASCII
    /// byte form (or rejects it with `IDNAError`), and that byte form goes
    /// through the validation engine unchanged. An over-length failure
    /// carries the original input text for diagnostics, not the codec's
    /// normalized form.
    pub fn from_text(name: &str) -> (r: Result<Self, NameParseError>)
        ensures
            from_text_post(name@, r),
    {
        match domain_to_ascii(name) {
            Ok(v) => match Self::from_bytes_ascii(v.as_slice()) {
                Ok(n) => Ok(n),
                Err(NameParseError::NameTooLarge(_)) => Err(NameParseError::NameTooLarge(
                    name.to_owned(),
                )),
                Err(e) => Err(e),
            },
            Err(e) => Err(NameParseError::IDNAError(e)),
        }
    }

    /// The name's labels, in left-to-right order: one per dot-separated
    /// segment of the byte form, including a trailing empty label for an
    /// absolute name. A fresh sequence is produced on each call.
    pub fn labels(&self) -> (r: Vec<Label>)
        ensures
            r@.len() == segments(self@).len(),
            forall|k: int| 0 <= k < r@.len() ==> r@[k]@ == segments(self@)[k],
    {
        proof {
            use_type_invariant(&*self);
        }
        let s = store_as_slice(&self.value);
        let ghost b = self@;
        let n = s.len();
        let mut out: Vec<Label> = Vec::new();
        let mut i: usize = 0;
        let mut start: usize = 0;
        let ghost mut done: Seq<Seq<u8>> = Seq::empty();
        proof {
            assert(b.subrange(0, n as int) =~= b);
            assert(Seq::empty() + segments(b) =~~= segments(b));
        }
        while i < n
            invariant
                s@ == b,
                n == b.len(),
                all_ascii(b),
                start <= i <= n,
                done.len() == out@.len(),
                forall|j: int| start <= j < i ==> b[j] != SEP,
                segments(b) == done + segments(b.subrange(start as int, n as int)),
                forall|k: int| 0 <= k < done.len() ==> out@[k]@ == done[k],
            decreases n - i,
        {
            if *slice_index_get(s, i) == SEP {
                proof {
                    let csuf = b.subrange(start as int, n as int);
                    assert(csuf[i - start] == SEP);
                    lemma_segments_split(csuf, i - start);
                    assert(csuf.subrange(0, i - start) =~= b.subrange(start as int, i as int));
                    assert(csuf.subrange(i - start + 1, csuf.len() as int) =~= b.subrange(
                        i + 1,
                        n as int,
                    ));
                    done = done.push(b.subrange(start as int, i as int));
                    assert(done + segments(b.subrange(i + 1, n as int)) =~~= segments(b));
                }
                out.push(Label { value: slice_to_vec(slice_subrange(s, start, i)) });
                start = i + 1;
            }
            i = i + 1;
        }
        proof {
            let csuf = b.subrange(start as int, n as int);
            lemma_segments_nosep(csuf);
            assert(segments(b) == done + seq![csuf]);
        }
        out.push(Label { value: slice_to_vec(slice_subrange(s, start, n)) });
        proof {
            assert(done.push(b.subrange(start as int, n as int)) =~~= segments(b));
        }
        out
    }

    /// A name is absolute when its byte form is non-empty and ends with the
    /// separator, that is, when it is fully qualified relative to the root.
    pub fn is_absolute(&self) -> (r: bool)
        ensures
            r == spec_is_absolute(self@),
    {
        let s = store_as_slice(&self.value);
        s.len() > 0 && *slice_index_get(s, s.len() - 1) == SEP
    }

    /// The name's byte form.
    pub fn as_bytes(&self) -> (r: &[u8])
        ensures
            r@ == self@,
    {
        store_as_slice(&self.value)
    }

    /// The name's byte form, spelled as text. The bytes are ASCII by the
    /// construction invariant, so this never fails and performs no check.
    pub fn to_text(&self) -> (r: String)
        ensures
            r@ == chars_of(self@),
    {
        proof {
            use_type_invariant(&*self);
        }
        ascii_to_string(store_as_slice(&self.value))
    }

    /// The root name: the absolute zero-length name, textually `.`.
    pub fn root() -> (r: Name)
        ensures
            r@ == seq![SEP],
    {
        let mut v: Vec<u8> = Vec::new();
        v.push(SEP);
        proof {
            assert(v@ =~= seq![SEP]);
        }
        match Self::from_bytes_raw(v.as_slice()) {
            Ok(n) => n,
            Err(_) => vstd::pervasive::unreached(),
        }
    }

    /// The empty name: the zero-byte relative name.
    pub fn empty() -> (r: Name)
        ensures
            r@ == Seq::<u8>::empty(),
    {
        let v: Vec<u8> = Vec::new();
        proof {
            assert(v@ =~= Seq::<u8>::empty());
            assert(segments(v@) == seq![Seq::<u8>::empty()]);
        }
        match Self::from_bytes_raw(v.as_slice()) {
            Ok(n) => n,
            Err(_) => vstd::pervasive::unreached(),
        }
    }
}

impl std::str::FromStr for Name {
    type Err = NameParseError;

    fn from_str(name: &str) -> Result<Self, NameParseError> {
        Self::from_text(name)
    }
}

/// Byte-wise lexicographic order on byte sequences: shorter prefixes come
/// first, and the first differing byte decides.
pub open spec fn lex_cmp(a: Seq<u8>, b: Seq<u8>) -> core::cmp::Ordering
    decreases a.len(),
{
    if a.len() == 0 && b.len() == 0 {
        core::cmp::Ordering::Equal
    } else if a.len() == 0 {
        core::cmp::Ordering::Less
    } else if b.len() == 0 {
        core::cmp::Ordering::Greater
    } else if a[0] < b[0] {
        core::cmp::Ordering::Less
    } else if a[0] > b[0] {
        core::cmp::Ordering::Greater
    } else {
        lex_cmp(a.drop_first(), b.drop_first())
    }
}

/// The lexicographic order agrees with equality: it answers `Equal` exactly
/// on identical byte sequences, so `partial_cmp` and `==` never disagree.
pub proof fn lemma_lex_cmp_equal(a: Seq<u8>, b: Seq<u8>)
    ensures
        lex_cmp(a, b) == core::cmp::Ordering::Equal <==> a == b,
    decreases a.len(),
{
    if a.len() == 0 && b.len() == 0 {
        assert(a =~= b);
    } else if a.len() > 0 && b.len() > 0 && a[0] == b[0] {
        lemma_lex_cmp_equal(a.drop_first(), b.drop_first());
        if a.drop_first() == b.drop_first() {
            assert(forall|i: int|
                1 <= i < a.len() ==> a[i] == a.drop_first()[i - 1] && b[i]
                    == b.drop_first()[i - 1]);
            assert(a =~= b);
        }
        if a == b {
            assert(a.drop_first() =~= b.drop_first());
        }
    }
}

/// Whether two byte slices hold the same bytes.
fn bytes_eq(x: &[u8], y: &[u8]) -> (r: bool)
    ensures
        r == (x@ == y@),
{
    if x.len() != y.len() {
        return false;
    }
    let mut i: usize = 0;
    while i < x.len()
        invariant
            i <= x@.len(),
            x@.len() == y@.len(),
            forall|j: int| 0 <= j < i ==> x@[j] == y@[j],
        decreases x@.len() - i,
    {
        if *slice_index_get(x, i) != *slice_index_get(y, i) {
            return false;
        }
        i = i + 1;
    }
    proof {
        assert(x@ =~= y@);
    }
    true
}

/// Byte-wise lexicographic comparison of two byte slices.
fn lex_cmp_bytes(x: &[u8], y: &[u8]) -> (r: core::cmp::Ordering)
    ensures
        r == lex_cmp(x@, y@),
{
    let xl = x.len();
    let yl = y.len();
    let mut i: usize = 0;
    proof {
        assert(x@.subrange(0, xl as int) =~= x@);
        assert(y@.subrange(0, yl as int) =~= y@);
    }
    while i < xl && i < yl
        invariant
            xl == x@.len(),
            yl == y@.len(),
            i <= xl,
            i <= yl,
            lex_cmp(x@, y@) == lex_cmp(
                x@.subrange(i as int, xl as int),
                y@.subrange(i as int, yl as int),
            ),
        decreases xl - i,
    {
        let a = *slice_index_get(x, i);
        let b = *slice_index_get(y, i);
        if a < b {
            return core::cmp::Ordering::Less;
        }
        if a > b {
            return core::cmp::Ordering::Greater;
        }
        proof {
            assert(x@.subrange(i as int, xl as int).drop_first() =~= x@.subrange(
                i + 1,
                xl as int,
            ));
            assert(y@.subrange(i as int, yl as int).drop_first() =~= y@.subrange(
                i + 1,
                yl as int,
            ));
        }
        i = i + 1;
    }
    proof {
        if xl == yl {
            assert(x@.subrange(i as int, xl as int).len() == 0);
            assert(y@.subrange(i as int, yl as int).len() == 0);
        }
    }
    if xl == yl {
        core::cmp::Ordering::Equal
    } else if xl < yl {
        core::cmp::Ordering::Less
    } else {
        core::cmp::Ordering::Greater
    }
}

impl PartialEq for Name {
    /// Names compare equal exactly when their byte forms are identical.
    fn eq(&self, other: &Self) -> bool {
        bytes_eq(self.as_bytes(), other.as_bytes())
    }
}

impl vstd::std_specs::cmp::PartialEqSpecImpl for Name {
    open spec fn obeys_eq_spec() -> bool {
        true
    }

    open spec fn eq_spec(&self, other: &Name) -> bool {
        self@ == other@
    }
}

impl PartialOrd for Name {
    /// Names are ordered byte-wise lexicographically.
    fn partial_cmp(&self, other: &Self) -> Option<core::cmp::Ordering> {
        Some(lex_cmp_bytes(self.as_bytes(), other.as_bytes()))
    }
}

impl vstd::std_specs::cmp::PartialOrdSpecImpl for Name {
    open spec fn obeys_partial_cmp_spec() -> bool {
        true
    }

    open spec fn partial_cmp_spec(&self, other: &Name) -> Option<core::cmp::Ordering> {
        Some(lex_cmp(self@, other@))
    }
}

impl PartialEq for Label {
    /// Labels compare equal exactly when their bytes are identical.
    fn eq(&self, other: &Self) -> bool {
        bytes_eq(self.value.as_slice(), other.value.as_slice())
    }
}

impl vstd::std_specs::cmp::PartialEqSpecImpl for Label {
    open spec fn obeys_eq_spec() -> bool {
        true
    }

    open spec fn eq_spec(&self, other: &Label) -> bool {
        self@ == other@
    }
}

impl PartialOrd for Label {
    /// Labels are ordered byte-wise lexicographically, mirroring names.
    fn partial_cmp(&self, other: &Self) -> Option<core::cmp::Ordering> {
        Some(lex_cmp_bytes(self.value.as_slice(), other.value.as_slice()))
    }
}

impl vstd::std_specs::cmp::PartialOrdSpecImpl for Label {
    open spec fn obeys_partial_cmp_spec() -> bool {
        true
    }

    open spec fn partial_cmp_spec(&self, other: &Label) -> Option<core::cmp::Ordering> {
        Some(lex_cmp(self@, other@))
    }
}

} // verus!
