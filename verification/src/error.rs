//! The decode failure taxonomy: a closed set of failure reasons, an error
//! carrying a failure plus an optional dotted location path, and a renderer
//! that turns an error into a multi-line diagnostic.

use vstd::prelude::*;

verus! {

broadcast use vstd::std_specs::vec::axiom_vec_index_decreases, vstd::seq::axiom_seq_index_decreases;

/// A decoded map or field key, kept only for diagnostics; it never takes part
/// in the equality logic of the domain types themselves.
///
/// A floating-point key is carried as its raw bit pattern: the codec never
/// interprets such a key, it only reports it.
#[derive(Debug, Clone)]
pub enum Key {
    Str(String),
    Uint(u64),
    Float(u64),
}

/// Spec-level mirror of [`Key`].
pub enum KeyView {
    Str(Seq<char>),
    Uint(u64),
    Float(u64),
}

impl View for Key {
    type V = KeyView;

    open spec fn view(&self) -> KeyView {
        match self {
            Key::Str(s) => KeyView::Str(s@),
            Key::Uint(x) => KeyView::Uint(*x),
            Key::Float(x) => KeyView::Float(*x),
        }
    }
}

/// The CBOR major types, used to report a value or key of an unexpected shape.
#[derive(Debug, Clone, Copy, PartialEq, Eq, Structural)]
pub enum CborType {
    UnsignedInteger,
    NegativeInteger,
    Bytes,
    Text,
    Array,
    Mapping,
    Tag,
    Special,
}

/// A malformed low-level CBOR stream: these faults are wrapped, not
/// reinterpreted, by the schema layer.
#[derive(Debug, Clone, Copy, PartialEq, Eq, Structural)]
pub enum CborError {
    /// The stream ended before the needed number of bytes: `(available, needed)`.
    NotEnough(u64, u64),
    /// A value of one major type stood where another was required:
    /// `(expected, found)`.
    Expected(CborType, CborType),
    /// A head byte carried additional information with no defined meaning.
    UnknownAdditional(u8),
    /// A text string's bytes were not valid UTF-8.
    InvalidUtf8,
    /// An indefinite-length string, which this codec does not read.
    IndefiniteString,
}

/// The closed set of decode failure reasons, each with the data needed to
/// render a precise diagnostic.
#[derive(Debug)]
pub enum DeserializeFailure {
    /// A CBOR break marker stood inside a definite-length sequence.
    BreakInDefiniteLen,
    /// A wrapped low-level binary-format fault.
    CBOR(CborError),
    /// A definite-length count did not match: `(found, expected)`.
    DefiniteLenMismatch(u64, Option<u64>),
    /// A map or struct held two entries for the same key.
    DuplicateKey(Key),
    /// An indefinite-length sequence was not terminated by a break.
    EndingBreakMissing,
    /// Null was required and some other value stood there.
    ExpectedNull,
    /// A fixed-literal schema position held a value of the right shape but the
    /// wrong value.
    FixedValueMismatch { found: Key, expected: Key },
    /// An invalid internal structure imposed on top of the CBOR format.
    InvalidStructure(String),
    /// A required field was absent.
    MandatoryFieldMissing(Key),
    /// No alternative of a choice matched, causes not tracked.
    NoVariantMatched,
    /// No alternative of a choice matched; one cause per alternative, in
    /// declared order.
    NoVariantMatchedWithCauses(Vec<DeserializeError>),
    /// A value fell outside its declared bounds.
    RangeCheck { found: usize, min: Option<isize>, max: Option<isize> },
    /// A tag number other than the declared one: `{ found, expected }`.
    TagMismatch { found: u64, expected: u64 },
    /// A key that the schema does not declare.
    UnknownKey(Key),
    /// A key of a CBOR major type that the schema does not allow.
    UnexpectedKeyType(CborType),
}

/// Spec-level mirror of [`DeserializeFailure`].
pub enum FailureView {
    BreakInDefiniteLen,
    CBOR(CborError),
    DefiniteLenMismatch(u64, Option<u64>),
    DuplicateKey(KeyView),
    EndingBreakMissing,
    ExpectedNull,
    FixedValueMismatch { found: KeyView, expected: KeyView },
    InvalidStructure(Seq<char>),
    MandatoryFieldMissing(KeyView),
    NoVariantMatched,
    NoVariantMatchedWithCauses(Seq<ErrorView>),
    RangeCheck { found: usize, min: Option<isize>, max: Option<isize> },
    TagMismatch { found: u64, expected: u64 },
    UnknownKey(KeyView),
    UnexpectedKeyType(CborType),
}

/// Spec-level mirror of [`DeserializeError`].
pub struct ErrorView {
    pub location: Option<Seq<char>>,
    pub failure: FailureView,
}

/// A decode failure together with an optional dotted location path, built by
/// prepending enclosing field and variant names as the failure propagates
/// outward.
#[derive(Debug)]
pub struct DeserializeError {
    pub location: Option<String>,
    pub failure: DeserializeFailure,
}

pub open spec fn failure_view(f: DeserializeFailure) -> FailureView
    decreases f,
{
    match f {
        DeserializeFailure::BreakInDefiniteLen => FailureView::BreakInDefiniteLen,
        DeserializeFailure::CBOR(e) => FailureView::CBOR(e),
        DeserializeFailure::DefiniteLenMismatch(found, expected) => FailureView::DefiniteLenMismatch(
            found,
            expected,
        ),
        DeserializeFailure::DuplicateKey(k) => FailureView::DuplicateKey(k@),
        DeserializeFailure::EndingBreakMissing => FailureView::EndingBreakMissing,
        DeserializeFailure::ExpectedNull => FailureView::ExpectedNull,
        DeserializeFailure::FixedValueMismatch { found, expected } => FailureView::FixedValueMismatch {
            found: found@,
            expected: expected@,
        },
        DeserializeFailure::InvalidStructure(s) => FailureView::InvalidStructure(s@),
        DeserializeFailure::MandatoryFieldMissing(k) => FailureView::MandatoryFieldMissing(k@),
        DeserializeFailure::NoVariantMatched => FailureView::NoVariantMatched,
        DeserializeFailure::NoVariantMatchedWithCauses(es) => FailureView::NoVariantMatchedWithCauses(
            Seq::new(es@.len(), |i: int| cause_view_at(es, i)),
        ),
        DeserializeFailure::RangeCheck { found, min, max } => FailureView::RangeCheck {
            found,
            min,
            max,
        },
        DeserializeFailure::TagMismatch { found, expected } => FailureView::TagMismatch {
            found,
            expected,
        },
        DeserializeFailure::UnknownKey(k) => FailureView::UnknownKey(k@),
        DeserializeFailure::UnexpectedKeyType(t) => FailureView::UnexpectedKeyType(t),
    }
}

pub open spec fn cause_view_at(es: Vec<DeserializeError>, i: int) -> ErrorView
    decreases es,
{
    if 0 <= i < es.len() {
        error_view(es[i])
    } else {
        arbitrary()
    }
}

pub open spec fn error_view(e: DeserializeError) -> ErrorView
    decreases e,
{
    ErrorView {
        location: match e.location {
            Some(s) => Some(s@),
            None => None,
        },
        failure: failure_view(e.failure),
    }
}

impl View for DeserializeFailure {
    type V = FailureView;

    open spec fn view(&self) -> FailureView {
        failure_view(*self)
    }
}

impl View for DeserializeError {
    type V = ErrorView;

    open spec fn view(&self) -> ErrorView {
        error_view(*self)
    }
}

/// A location-less error wrapping a low-level CBOR fault.
pub open spec fn from_cbor_err(e: CborError) -> ErrorView {
    ErrorView { location: None, failure: FailureView::CBOR(e) }
}

/// A location-less error carrying a bare failure.
pub open spec fn bare_err(f: FailureView) -> ErrorView {
    ErrorView { location: None, failure: f }
}

/// What [`DeserializeError::annotate`] yields: the new segment is prepended to
/// the existing dotted path, or becomes the path if none was set.
pub open spec fn annotated(e: ErrorView, location: Seq<char>) -> ErrorView {
    ErrorView {
        location: match e.location {
            Some(loc) => Some(location + "."@ + loc),
            None => Some(location),
        },
        failure: e.failure,
    }
}

impl DeserializeError {
    /// Attaches a location to a failure.
    pub fn new(location: &str, failure: DeserializeFailure) -> (r: Self)
        ensures
            r@ == (ErrorView { location: Some(location@), failure: failure@ }),
    {
        Self { location: Some(location.to_owned()), failure }
    }

    /// Prepends one more path segment to the error's location, preserving any
    /// already-accumulated path.
    pub fn annotate(self, location: &str) -> (r: Self)
        ensures
            r@ == annotated(self@, location@),
    {
        match self.location {
            Some(loc) => {
                let mut path = location.to_owned();
                path.append(".");
                path.append(loc.as_str());
                Self { location: Some(path), failure: self.failure }
            },
            None => Self::new(location, self.failure),
        }
    }
}

impl From<DeserializeFailure> for DeserializeError {
    /// Lifts a bare failure into a location-less error.
    fn from(failure: DeserializeFailure) -> (r: Self) {
        Self { location: None, failure }
    }
}

impl vstd::std_specs::convert::FromSpecImpl<DeserializeFailure> for DeserializeError {
    open spec fn obeys_from_spec() -> bool {
        true
    }

    open spec fn from_spec(failure: DeserializeFailure) -> Self {
        DeserializeError { location: None, failure }
    }
}

impl From<CborError> for DeserializeError {
    /// Lifts a low-level CBOR fault into a location-less error wrapping it.
    fn from(err: CborError) -> (r: Self) {
        Self { location: None, failure: DeserializeFailure::CBOR(err) }
    }
}

impl vstd::std_specs::convert::FromSpecImpl<CborError> for DeserializeError {
    open spec fn obeys_from_spec() -> bool {
        true
    }

    open spec fn from_spec(err: CborError) -> Self {
        DeserializeError { location: None, failure: DeserializeFailure::CBOR(err) }
    }
}


/// The decimal digits of a non-negative number.
pub open spec fn dec_digits(n: int) -> Seq<char>
    decreases n,
{
    if n < 10 {
        digit_text(n)
    } else {
        dec_digits(n / 10) + digit_text(n % 10)
    }
}

/// One decimal digit.
pub open spec fn digit_text(d: int) -> Seq<char> {
    if d == 0 {
        "0"@
    } else if d == 1 {
        "1"@
    } else if d == 2 {
        "2"@
    } else if d == 3 {
        "3"@
    } else if d == 4 {
        "4"@
    } else if d == 5 {
        "5"@
    } else if d == 6 {
        "6"@
    } else if d == 7 {
        "7"@
    } else if d == 8 {
        "8"@
    } else {
        "9"@
    }
}

/// The decimal text of a signed number.
pub open spec fn int_digits(x: int) -> Seq<char> {
    if x < 0 {
        "-"@ + dec_digits(-x)
    } else {
        dec_digits(x)
    }
}

/// The diagnostic text of a key.
pub open spec fn key_text(k: KeyView) -> Seq<char> {
    match k {
        KeyView::Str(s) => "\""@ + s + "\""@,
        KeyView::Uint(x) => dec_digits(x as int),
        KeyView::Float(bits) => "float#"@ + dec_digits(bits as int),
    }
}

/// The name of a CBOR major type in diagnostics.
pub open spec fn cbor_type_text(t: CborType) -> Seq<char> {
    match t {
        CborType::UnsignedInteger => "unsigned integer"@,
        CborType::NegativeInteger => "negative integer"@,
        CborType::Bytes => "bytes"@,
        CborType::Text => "text"@,
        CborType::Array => "array"@,
        CborType::Mapping => "map"@,
        CborType::Tag => "tag"@,
        CborType::Special => "special"@,
    }
}

/// The text of a low-level CBOR fault.
pub open spec fn cbor_error_text(e: CborError) -> Seq<char> {
    match e {
        CborError::NotEnough(available, needed) => "not enough bytes: expected "@ + dec_digits(
            needed as int,
        ) + ", found "@ + dec_digits(available as int),
        CborError::Expected(expected, found) => "expected CBOR type "@ + cbor_type_text(expected)
            + ", found "@ + cbor_type_text(found),
        CborError::UnknownAdditional(ai) => "unknown CBOR additional information "@ + dec_digits(
            ai as int,
        ),
        CborError::InvalidUtf8 => "text string is not valid UTF-8"@,
        CborError::IndefiniteString => "indefinite-length strings are not supported"@,
    }
}

/// The text of one failure reason; nested causes are rendered one level
/// deeper than the given line prefix.
pub open spec fn failure_text(f: FailureView, prefix: Seq<char>) -> Seq<char>
    decreases f,
{
    match f {
        FailureView::BreakInDefiniteLen => "Encountered CBOR Break while reading definite length sequence"@,
        FailureView::CBOR(e) => cbor_error_text(e),
        FailureView::DefiniteLenMismatch(found, expected) => "Definite length mismatch: found "@
            + dec_digits(found as int) + (match expected {
            Some(x) => ", expected: "@ + dec_digits(x as int),
            None => Seq::<char>::empty(),
        }),
        FailureView::DuplicateKey(k) => "Duplicate key: "@ + key_text(k),
        FailureView::EndingBreakMissing => "Missing ending CBOR Break"@,
        FailureView::ExpectedNull => "Expected null, found other type"@,
        FailureView::FixedValueMismatch { found, expected } => "Expected fixed value "@ + key_text(
            expected,
        ) + " found "@ + key_text(found),
        FailureView::InvalidStructure(s) => "Invalid internal structure: "@ + s,
        FailureView::MandatoryFieldMissing(k) => "Mandatory field "@ + key_text(k)
            + " not found"@,
        FailureView::NoVariantMatched => "No variant matched"@,
        FailureView::NoVariantMatchedWithCauses(cs) => "No variant matched. Failures:\n"@
            + causes_text(cs, prefix + "\t"@),
        FailureView::RangeCheck { found, min, max } => match (min, max) {
            (Some(lo), Some(hi)) => dec_digits(found as int) + " not in range "@ + int_digits(
                lo as int,
            ) + " - "@ + int_digits(hi as int),
            (Some(lo), None) => dec_digits(found as int) + " not at least "@ + int_digits(
                lo as int,
            ),
            (None, Some(hi)) => dec_digits(found as int) + " not at most "@ + int_digits(hi as int),
            (None, None) => "invalid range (no min nor max specified)"@,
        },
        FailureView::TagMismatch { found, expected } => "Expected tag "@ + dec_digits(
            expected as int,
        ) + ", found "@ + dec_digits(found as int),
        FailureView::UnknownKey(k) => "Found unexpected key "@ + key_text(k),
        FailureView::UnexpectedKeyType(t) => "Found unexpected key of CBOR type "@
            + cbor_type_text(t),
    }
}

/// The rendered causes of an aggregated failure, one line each, in order.
pub open spec fn causes_text(cs: Seq<ErrorView>, prefix: Seq<char>) -> Seq<char>
    decreases cs,
{
    if cs.len() == 0 {
        Seq::<char>::empty()
    } else {
        causes_text(cs.drop_last(), prefix) + rendered_with_prefix(cs.last(), prefix) + "\n"@
    }
}

/// One rendered error line (plus its nested cause lines): the line prefix,
/// the location part, then the failure's text.
pub open spec fn rendered_with_prefix(e: ErrorView, prefix: Seq<char>) -> Seq<char>
    decreases e,
{
    prefix + (match e.location {
        Some(loc) => "Deserialization failed in "@ + loc + " because: "@,
        None => "Deserialization: "@,
    }) + failure_text(e.failure, prefix)
}

/// The whole rendered diagnostic of an error.
pub open spec fn rendered(e: ErrorView) -> Seq<char> {
    rendered_with_prefix(e, Seq::<char>::empty())
}

/// The decimal text of a 64-bit number.
fn u64_dec(n: u64) -> (s: String)
    ensures
        s@ == dec_digits(n as int),
    decreases n,
{
    let d = match n % 10 {
        0 => "0",
        1 => "1",
        2 => "2",
        3 => "3",
        4 => "4",
        5 => "5",
        6 => "6",
        7 => "7",
        8 => "8",
        _ => "9",
    };
    if n < 10 {
        d.to_owned()
    } else {
        let mut s = u64_dec(n / 10);
        s.append(d);
        s
    }
}

/// The decimal text of a signed machine-word number.
fn isize_dec(x: isize) -> (s: String)
    ensures
        s@ == int_digits(x as int),
{
    if x >= 0 {
        u64_dec(x as u64)
    } else {
        let mag = (-(x as i128)) as u64;
        let mut s = "-".to_owned();
        let m = u64_dec(mag);
        s.append(m.as_str());
        s
    }
}

impl Key {
    /// The diagnostic text of the key.
    pub fn render(&self) -> (s: String)
        ensures
            s@ == key_text(self@),
    {
        match self {
            Key::Str(t) => {
                let mut s = "\"".to_owned();
                s.append(t.as_str());
                s.append("\"");
                s
            },
            Key::Uint(x) => u64_dec(*x),
            Key::Float(bits) => {
                let mut s = "float#".to_owned();
                let m = u64_dec(*bits);
                s.append(m.as_str());
                s
            },
        }
    }
}

/// The name of a CBOR major type in diagnostics.
fn cbor_type_render(t: CborType) -> (s: String)
    ensures
        s@ == cbor_type_text(t),
{
    match t {
        CborType::UnsignedInteger => "unsigned integer".to_owned(),
        CborType::NegativeInteger => "negative integer".to_owned(),
        CborType::Bytes => "bytes".to_owned(),
        CborType::Text => "text".to_owned(),
        CborType::Array => "array".to_owned(),
        CborType::Mapping => "map".to_owned(),
        CborType::Tag => "tag".to_owned(),
        CborType::Special => "special".to_owned(),
    }
}

/// The text of a low-level CBOR fault.
fn cbor_error_render(e: &CborError) -> (s: String)
    ensures
        s@ == cbor_error_text(*e),
{
    match e {
        CborError::NotEnough(available, needed) => {
            let mut s = "not enough bytes: expected ".to_owned();
            let a = u64_dec(*needed);
            s.append(a.as_str());
            s.append(", found ");
            let b = u64_dec(*available);
            s.append(b.as_str());
            s
        },
        CborError::Expected(expected, found) => {
            let mut s = "expected CBOR type ".to_owned();
            let a = cbor_type_render(*expected);
            s.append(a.as_str());
            s.append(", found ");
            let b = cbor_type_render(*found);
            s.append(b.as_str());
            s
        },
        CborError::UnknownAdditional(ai) => {
            let mut s = "unknown CBOR additional information ".to_owned();
            let a = u64_dec(*ai as u64);
            s.append(a.as_str());
            s
        },
        CborError::InvalidUtf8 => "text string is not valid UTF-8".to_owned(),
        CborError::IndefiniteString => "indefinite-length strings are not supported".to_owned(),
    }
}

impl DeserializeError {
    /// Renders the error as a line under the given prefix, with nested
    /// causes each on their own line one level deeper.
    #[verifier::rlimit(100)]
    #[verifier::spinoff_prover]
    pub fn render_with_prefix(&self, prefix: &str) -> (s: String)
        ensures
            s@ == rendered_with_prefix(self@, prefix@),
        decreases *self,
    {
        let mut s = prefix.to_owned();
        match &self.location {
            Some(loc) => {
                s.append("Deserialization failed in ");
                s.append(loc.as_str());
                s.append(" because: ");
            },
            None => {
                s.append("Deserialization: ");
            },
        }
        match &self.failure {
            DeserializeFailure::BreakInDefiniteLen => {
                s.append("Encountered CBOR Break while reading definite length sequence");
            },
            DeserializeFailure::CBOR(e) => {
                let t = cbor_error_render(e);
                s.append(t.as_str());
            },
            DeserializeFailure::DefiniteLenMismatch(found, expected) => {
                s.append("Definite length mismatch: found ");
                let a = u64_dec(*found);
                s.append(a.as_str());
                match expected {
                    Some(x) => {
                        s.append(", expected: ");
                        let b = u64_dec(*x);
                        s.append(b.as_str());
                    },
                    None => {},
                }
            },
            DeserializeFailure::DuplicateKey(k) => {
                s.append("Duplicate key: ");
                let a = k.render();
                s.append(a.as_str());
            },
            DeserializeFailure::EndingBreakMissing => {
                s.append("Missing ending CBOR Break");
            },
            DeserializeFailure::ExpectedNull => {
                s.append("Expected null, found other type");
            },
            DeserializeFailure::FixedValueMismatch { found, expected } => {
                s.append("Expected fixed value ");
                let a = expected.render();
                s.append(a.as_str());
                s.append(" found ");
                let b = found.render();
                s.append(b.as_str());
            },
            DeserializeFailure::InvalidStructure(t) => {
                s.append("Invalid internal structure: ");
                s.append(t.as_str());
            },
            DeserializeFailure::MandatoryFieldMissing(k) => {
                s.append("Mandatory field ");
                let a = k.render();
                s.append(a.as_str());
                s.append(" not found");
            },
            DeserializeFailure::NoVariantMatched => {
                s.append("No variant matched");
            },
            DeserializeFailure::NoVariantMatchedWithCauses(es) => {
                s.append("No variant matched. Failures:\n");
                let mut deeper = prefix.to_owned();
                deeper.append("\t");
                let ghost pre2 = prefix@ + "\t"@;
                let ghost cvs = Seq::new(es@.len() as nat, |i: int| cause_view_at(*es, i));
                let mut i: usize = 0;
                while i < es.len()
                    invariant
                        i <= es@.len(),
                        deeper@ == pre2,
                        cvs == Seq::new(es@.len() as nat, |j: int| cause_view_at(*es, j)),
                        s@ == prefix@ + (match error_view(*self).location {
                            Some(loc) => "Deserialization failed in "@ + loc + " because: "@,
                            None => "Deserialization: "@,
                        }) + "No variant matched. Failures:\n"@ + causes_text(
                            cvs.take(i as int),
                            pre2,
                        ),
                        self.failure == DeserializeFailure::NoVariantMatchedWithCauses(*es),
                    decreases es@.len() - i,
                {
                    let line = es[i].render_with_prefix(deeper.as_str());
                    s.append(line.as_str());
                    s.append("\n");
                    proof {
                        let tk = cvs.take(i + 1);
                        assert(tk.drop_last() =~= cvs.take(i as int));
                        assert(tk.last() == cause_view_at(*es, i as int));
                    }
                    i += 1;
                }
                proof {
                    assert(cvs.take(es@.len() as int) =~= cvs);
                    assert(failure_view(self.failure)->NoVariantMatchedWithCauses_0 =~= cvs);
                }
            },
            DeserializeFailure::RangeCheck { found, min, max } => {
                match (min, max) {
                    (Some(lo), Some(hi)) => {
                        let a = u64_dec(*found as u64);
                        s.append(a.as_str());
                        s.append(" not in range ");
                        let b = isize_dec(*lo);
                        s.append(b.as_str());
                        s.append(" - ");
                        let c = isize_dec(*hi);
                        s.append(c.as_str());
                    },
                    (Some(lo), None) => {
                        let a = u64_dec(*found as u64);
                        s.append(a.as_str());
                        s.append(" not at least ");
                        let b = isize_dec(*lo);
                        s.append(b.as_str());
                    },
                    (None, Some(hi)) => {
                        let a = u64_dec(*found as u64);
                        s.append(a.as_str());
                        s.append(" not at most ");
                        let b = isize_dec(*hi);
                        s.append(b.as_str());
                    },
                    (None, None) => {
                        s.append("invalid range (no min nor max specified)");
                    },
                }
            },
            DeserializeFailure::TagMismatch { found, expected } => {
                s.append("Expected tag ");
                let a = u64_dec(*expected);
                s.append(a.as_str());
                s.append(", found ");
                let b = u64_dec(*found);
                s.append(b.as_str());
            },
            DeserializeFailure::UnknownKey(k) => {
                s.append("Found unexpected key ");
                let a = k.render();
                s.append(a.as_str());
            },
            DeserializeFailure::UnexpectedKeyType(t) => {
                s.append("Found unexpected key of CBOR type ");
                let a = cbor_type_render(*t);
                s.append(a.as_str());
            },
        }
        proof {
            assert(s@ =~= rendered_with_prefix(self@, prefix@));
        }
        s
    }

    /// Renders the error as a human-readable multi-line diagnostic: for an
    /// aggregated failure every nested cause is rendered one level deeper.
    pub fn render(&self) -> (s: String)
        ensures
            s@ == rendered(self@),
    {
        let s = self.render_with_prefix("");
        proof {
            reveal_strlit("");
            assert(""@ =~= Seq::<char>::empty());
            assert(rendered_with_prefix(self@, ""@) == rendered(self@));
        }
        s
    }
}

} // verus!
