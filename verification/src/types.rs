//! Sample schema types built from the primitive codecs: a bounded byte array,
//! array-shaped records with required, optional and nested fields, and
//! tag-wrapped records.
//!
//! Each type carries a spec-level serializer and parser; the executable
//! `serialize` and `deserialize` are proved to match them exactly, and a
//! round-trip lemma shows that parsing a serialized value gives the value
//! back.

use crate::cbor::HeadArg;
use crate::cbor::Sz;
use crate::cbor::cbor_type_of;
use crate::cbor::head_len;
use crate::cbor::min_sz;
use crate::cbor::lemma_parse_ser_head;
use crate::cbor::lemma_skip_concat;
use crate::cbor::lemma_parse_ser_uint;
use crate::cbor::lemma_parse_ser_tag;
use crate::cbor::lemma_parse_ser_text;
use crate::cbor::lemma_parse_ser_bytes;
use crate::cbor::parse_bytes;
use crate::cbor::parse_end;
use crate::cbor::parse_head;
use crate::cbor::parse_tag;
use crate::cbor::parse_text;
use crate::cbor::parse_uint;
use crate::cbor::read_bytes;
use crate::cbor::peek_null;
use crate::cbor::read_end;
use crate::cbor::read_head;
use crate::cbor::read_tag;
use crate::cbor::read_text;
use crate::cbor::read_uint;
use crate::cbor::ser_bytes;
use crate::cbor::ser_head;
use crate::cbor::ser_null;
use crate::cbor::ser_tag;
use crate::cbor::ser_text;
use crate::cbor::ser_uint;
use crate::cbor::write_bytes;
use crate::cbor::write_head;
use crate::cbor::write_null;
use crate::cbor::write_tag;
use crate::cbor::write_text;
use crate::cbor::write_uint;
use crate::error::CborError;
use crate::error::CborType;
use crate::error::DeserializeError;
use crate::error::DeserializeFailure;
use crate::error::ErrorView;
use crate::error::FailureView;
use crate::error::annotated;
use crate::error::bare_err;
use crate::error::from_cbor_err;
use vstd::prelude::*;
use vstd::utf8::encode_utf8;

verus! {

/// The number of bytes a [`Hash`] must hold.
pub open spec fn hash_len() -> nat {
    8
}

/// A byte array with a fixed required length: the refinement-type pattern,
/// with the same length check at construction and at decode time.
#[derive(Debug, Clone, PartialEq, Eq)]
pub struct Hash {
    data: Vec<u8>,
}

impl View for Hash {
    type V = Seq<u8>;

    closed spec fn view(&self) -> Seq<u8> {
        self.data@
    }
}

/// The out-of-range error a wrong-length [`Hash`] raises, at construction and
/// at decode alike.
pub open spec fn hash_len_err(found: nat) -> ErrorView {
    ErrorView {
        location: Some("Hash"@),
        failure: FailureView::RangeCheck {
            found: found as usize,
            min: Some(8),
            max: Some(8),
        },
    }
}

/// The encoding of a hash: a plain byte string.
pub open spec fn ser_hash(v: Seq<u8>) -> Seq<u8> {
    ser_bytes(v, min_sz(v.len() as u64))
}

/// Parses a hash: a byte string of exactly [`hash_len()`] bytes.
pub open spec fn parse_hash(s: Seq<u8>) -> Result<(Seq<u8>, int), ErrorView> {
    match parse_bytes(s) {
        Err(e) => Err(annotated(from_cbor_err(e), "Hash"@)),
        Ok(((b, _sz), n)) => {
            if b.len() == hash_len() {
                Ok((b, n))
            } else {
                Err(hash_len_err(b.len()))
            }
        },
    }
}

impl Hash {

    /// Builds a hash, rejecting any byte count other than [`hash_len()`] with a
    /// range failure.
    pub fn new(data: Vec<u8>) -> (r: Result<Self, DeserializeError>)
        ensures
            r is Ok <==> data@.len() == hash_len(),
            r is Ok ==> r.unwrap()@ == data@,
            r is Err ==> r.unwrap_err()@ == hash_len_err(data@.len()),
    {
        proof {
            vstd::std_specs::vec::axiom_spec_len(&data);
        }
        if data.len() != 8 {
            let found = data.len();
            return Err(
                DeserializeError::new(
                    "Hash",
                    DeserializeFailure::RangeCheck { found, min: Some(8), max: Some(8) },
                ),
            );
        }
        Ok(Hash { data })
    }

    /// The held bytes.
    pub fn as_slice(&self) -> (r: &[u8])
        ensures
            r@ == self@,
    {
        self.data.as_slice()
    }

    /// Appends the encoding of the hash.
    pub fn serialize(&self, out: &mut Vec<u8>)
        ensures
            final(out)@ == old(out)@ + ser_hash(self@),
    {
        write_bytes(out, self.data.as_slice());
    }

    /// The encoding of the hash.
    pub fn to_bytes(&self) -> (r: Vec<u8>)
        ensures
            r@ == ser_hash(self@),
    {
        let mut out: Vec<u8> = Vec::new();
        self.serialize(&mut out);
        out
    }

    /// Reads a hash from the stream, enforcing the length bound the
    /// constructor enforces.
    pub fn deserialize(data: &[u8], pos: &mut usize) -> (r: Result<Self, DeserializeError>)
        requires
            *old(pos) <= data@.len(),
        ensures
            *final(pos) <= data@.len(),
            *old(pos) <= *final(pos),
            r is Ok ==> *old(pos) < *final(pos),
            match parse_hash(data@.skip(*old(pos) as int)) {
                Ok((v, n)) => {
                    &&& r is Ok
                    &&& r.unwrap()@ == v
                    &&& *final(pos) == *old(pos) + n
                },
                Err(e) => r is Err && r.unwrap_err()@ == e,
            },
    {
        let mut p = *pos;
        match read_bytes(data, &mut p) {
            Err(e) => Err(DeserializeError::from(e).annotate("Hash")),
            Ok((b, _sz)) => {
                if b.len() != 8 {
                    let found = b.len();
                    Err(
                        DeserializeError::new(
                            "Hash",
                            DeserializeFailure::RangeCheck { found, min: Some(8), max: Some(8) },
                        ),
                    )
                } else {
                    *pos = p;
                    Ok(Hash { data: b })
                }
            },
        }
    }

    /// Reads a hash from the front of a byte stream.
    pub fn from_bytes(data: &[u8]) -> (r: Result<Self, DeserializeError>)
        ensures
            match parse_hash(data@) {
                Ok((v, n)) => r is Ok && r.unwrap()@ == v,
                Err(e) => r is Err && r.unwrap_err()@ == e,
            },
    {
        let mut pos: usize = 0;
        let r = Self::deserialize(data, &mut pos);
        proof {
            assert(data@.skip(0) =~= data@);
        }
        r
    }
}

/// Decoding the encoding of any hash gives the hash back, whatever follows
/// the encoding in the stream.
pub proof fn lemma_hash_round_trip(v: Seq<u8>, rest: Seq<u8>)
    requires
        v.len() == hash_len(),
    ensures
        parse_hash(ser_hash(v) + rest) == Ok::<_, ErrorView>((v, ser_hash(v).len() as int)),
{
    lemma_parse_ser_bytes(v, min_sz(v.len() as u64), rest);
}

/// The spec-level value of a [`Foo`].
pub struct FooView {
    pub id: u64,
    pub name: Seq<char>,
    pub data: Seq<u8>,
}

/// A record with three required fields, encoded as a three-element array.
#[derive(Debug, Clone, PartialEq, Eq)]
pub struct Foo {
    pub id: u64,
    pub name: String,
    pub data: Vec<u8>,
}

impl View for Foo {
    type V = FooView;

    open spec fn view(&self) -> FooView {
        FooView { id: self.id, name: self.name@, data: self.data@ }
    }
}

/// The bounds under which a [`FooView`] can be encoded: its variable-length
/// fields fit the u64 head arguments.
pub open spec fn wf_foo(v: FooView) -> bool {
    &&& encode_utf8(v.name).len() <= u64::MAX
    &&& v.data.len() <= u64::MAX
}

/// The encoding of a foo: a definite array of its three fields in declared
/// order, all heads minimal.
pub open spec fn ser_foo(v: FooView) -> Seq<u8> {
    ser_head(4, 3, Sz::Inline) + ser_uint(v.id, min_sz(v.id)) + ser_text(
        v.name,
        min_sz(encode_utf8(v.name).len() as u64),
    ) + ser_bytes(v.data, min_sz(v.data.len() as u64))
}

/// Parses the three fields of a foo starting at `i`, and the ending break
/// when the array head was indefinite.
pub open spec fn parse_foo_fields(s: Seq<u8>, i: int, indef: bool) -> Result<
    (FooView, int),
    ErrorView,
> {
    match parse_uint(s.skip(i)) {
        Err(e) => Err(annotated(from_cbor_err(e), "id"@)),
        Ok(((id, _), n1)) => match parse_text(s.skip(i + n1)) {
            Err(e) => Err(annotated(from_cbor_err(e), "name"@)),
            Ok(((name, _), n2)) => match parse_bytes(s.skip(i + n1 + n2)) {
                Err(e) => Err(annotated(from_cbor_err(e), "data"@)),
                Ok(((d, _), n3)) => {
                    let j = i + n1 + n2 + n3;
                    match parse_end(s.skip(j), indef) {
                        Err(e) => Err(e),
                        Ok(bn) => Ok((FooView { id, name, data: d }, j + bn)),
                    }
                },
            },
        },
    }
}

/// Parses a foo, without the outer type-name annotation.
#[verifier::opaque]
pub open spec fn parse_foo_inner(s: Seq<u8>) -> Result<(FooView, int), ErrorView> {
    match parse_head(s) {
        Err(e) => Err(from_cbor_err(e)),
        Ok(((major, arg), hn)) => {
            if major != 4 {
                Err(from_cbor_err(CborError::Expected(CborType::Array, crate::cbor::type_of_major(major))))
            } else {
                match arg {
                    HeadArg::Definite(n, _sz) => {
                        if n == 3 {
                            parse_foo_fields(s, hn, false)
                        } else {
                            Err(bare_err(FailureView::DefiniteLenMismatch(n, Some(3))))
                        }
                    },
                    HeadArg::Indefinite => parse_foo_fields(s, hn, true),
                }
            }
        },
    }
}

/// Parses a foo; a failure anywhere inside carries the type's name on its
/// path.
pub open spec fn parse_foo(s: Seq<u8>) -> Result<(FooView, int), ErrorView> {
    match parse_foo_inner(s) {
        Ok(r) => Ok(r),
        Err(e) => Err(annotated(e, "Foo"@)),
    }
}

impl Foo {
    /// Builds a foo from its three fields.
    pub fn new(id: u64, name: String, data: Vec<u8>) -> (r: Self)
        ensures
            r@ == (FooView { id: id, name: name@, data: data@ }),
    {
        Foo { id, name, data }
    }

    /// Appends the encoding of the foo.
    pub fn serialize(&self, out: &mut Vec<u8>)
        ensures
            final(out)@ == old(out)@ + ser_foo(self@),
    {
        write_head(out, 4, 3, Sz::Inline);
        write_uint(out, self.id);
        write_text(out, self.name.as_str());
        write_bytes(out, self.data.as_slice());
        assert(final(out)@ =~= old(out)@ + ser_foo(self@));
    }

    /// The encoding of the foo.
    pub fn to_bytes(&self) -> (r: Vec<u8>)
        ensures
            r@ == ser_foo(self@),
    {
        let mut out: Vec<u8> = Vec::new();
        self.serialize(&mut out);
        out
    }

    #[verifier::rlimit(100)]
    #[verifier::spinoff_prover]
    fn deserialize_inner(data: &[u8], pos: &mut usize) -> (r: Result<Self, DeserializeError>)
        requires
            *old(pos) <= data@.len(),
        ensures
            *final(pos) <= data@.len(),
            *old(pos) <= *final(pos),
            r is Ok ==> *old(pos) < *final(pos),
            match parse_foo_inner(data@.skip(*old(pos) as int)) {
                Ok((v, n)) => {
                    &&& r is Ok
                    &&& r.unwrap()@ == v
                    &&& *final(pos) == *old(pos) + n
                },
                Err(e) => r is Err && r.unwrap_err()@ == e,
            },
    {
        proof {
            reveal(parse_foo_inner);
        }
        let ghost s = data@.skip(*old(pos) as int);
        let mut p = *pos;
        let indef = match read_head(data, &mut p) {
            Err(e) => {
                return Err(DeserializeError::from(e));
            },
            Ok((major, arg)) => {
                if major != 4 {
                    return Err(
                        DeserializeError::from(
                            CborError::Expected(CborType::Array, cbor_type_of(major)),
                        ),
                    );
                }
                match arg {
                    HeadArg::Definite(n, _sz) => {
                        if n != 3 {
                            return Err(
                                DeserializeError::from(
                                    DeserializeFailure::DefiniteLenMismatch(n, Some(3)),
                                ),
                            );
                        }
                        false
                    },
                    HeadArg::Indefinite => true,
                }
            },
        };
        let ghost hn = p - *old(pos);
        proof {
            assert(data@.skip(p as int) =~= s.skip(hn));
        }
        let id = match read_uint(data, &mut p) {
            Ok((v, _sz)) => v,
            Err(e) => {
                return Err(DeserializeError::from(e).annotate("id"));
            },
        };
        proof {
            vstd::seq_lib::lemma_seq_skip_of_skip(data@, *old(pos) as int, p - *old(pos));
        }
        let name = match read_text(data, &mut p) {
            Ok((t, _sz)) => t,
            Err(e) => {
                return Err(DeserializeError::from(e).annotate("name"));
            },
        };
        proof {
            vstd::seq_lib::lemma_seq_skip_of_skip(data@, *old(pos) as int, p - *old(pos));
        }
        let d = match read_bytes(data, &mut p) {
            Ok((b, _sz)) => b,
            Err(e) => {
                return Err(DeserializeError::from(e).annotate("data"));
            },
        };
        proof {
            vstd::seq_lib::lemma_seq_skip_of_skip(data@, *old(pos) as int, p - *old(pos));
        }
        match read_end(data, &mut p, indef) {
            Err(e) => {
                return Err(e);
            },
            Ok(()) => {},
        }
        *pos = p;
        Ok(Foo { id, name, data: d })
    }

    /// Reads a foo from the stream.
    pub fn deserialize(data: &[u8], pos: &mut usize) -> (r: Result<Self, DeserializeError>)
        requires
            *old(pos) <= data@.len(),
        ensures
            *final(pos) <= data@.len(),
            *old(pos) <= *final(pos),
            r is Ok ==> *old(pos) < *final(pos),
            match parse_foo(data@.skip(*old(pos) as int)) {
                Ok((v, n)) => {
                    &&& r is Ok
                    &&& r.unwrap()@ == v
                    &&& *final(pos) == *old(pos) + n
                },
                Err(e) => r is Err && r.unwrap_err()@ == e,
            },
    {
        match Self::deserialize_inner(data, pos) {
            Ok(x) => Ok(x),
            Err(e) => Err(e.annotate("Foo")),
        }
    }

    /// Reads a foo from the front of a byte stream.
    pub fn from_bytes(data: &[u8]) -> (r: Result<Self, DeserializeError>)
        ensures
            match parse_foo(data@) {
                Ok((v, n)) => r is Ok && r.unwrap()@ == v,
                Err(e) => r is Err && r.unwrap_err()@ == e,
            },
    {
        let mut pos: usize = 0;
        let r = Self::deserialize(data, &mut pos);
        proof {
            assert(data@.skip(0) =~= data@);
        }
        r
    }
}

#[verifier::rlimit(100)]
#[verifier::spinoff_prover]
proof fn lemma_foo_fields_round_trip(v: FooView, s: Seq<u8>, rest: Seq<u8>)
    requires
        wf_foo(v),
        s.len() >= 1,
        s.skip(1) == ser_uint(v.id, min_sz(v.id)) + (ser_text(
            v.name,
            min_sz(encode_utf8(v.name).len() as u64),
        ) + (ser_bytes(v.data, min_sz(v.data.len() as u64)) + rest)),
    ensures
        parse_foo_fields(s, 1, false) == Ok::<_, ErrorView>((v, ser_foo(v).len() as int)),
{
    let u = ser_uint(v.id, min_sz(v.id));
    let t = ser_text(v.name, min_sz(encode_utf8(v.name).len() as u64));
    let b = ser_bytes(v.data, min_sz(v.data.len() as u64));
    let n1 = u.len() as int;
    let n2 = t.len() as int;
    let n3 = b.len() as int;
    assert(parse_uint(s.skip(1)) == Ok::<_, CborError>(((v.id, min_sz(v.id)), n1))) by {
        lemma_parse_ser_uint(v.id, min_sz(v.id), t + (b + rest));
    }
    assert(s.skip(1 + n1) == t + (b + rest)) by {
        lemma_skip_concat(u, t + (b + rest));
        vstd::seq_lib::lemma_seq_skip_of_skip(s, 1, n1);
    }
    assert(parse_text(s.skip(1 + n1)) == Ok::<_, CborError>(
        ((v.name, min_sz(encode_utf8(v.name).len() as u64)), n2),
    )) by {
        lemma_parse_ser_text(v.name, min_sz(encode_utf8(v.name).len() as u64), b + rest);
    }
    assert(s.skip(1 + n1 + n2) == b + rest) by {
        lemma_skip_concat(t, b + rest);
        vstd::seq_lib::lemma_seq_skip_of_skip(s, 1 + n1, n2);
    }
    assert(parse_bytes(s.skip(1 + n1 + n2)) == Ok::<_, CborError>(
        ((v.data, min_sz(v.data.len() as u64)), n3),
    )) by {
        lemma_parse_ser_bytes(v.data, min_sz(v.data.len() as u64), rest);
    }
    assert(ser_foo(v).len() == 1 + n1 + n2 + n3);
    assert(parse_foo_fields(s, 1, false) == Ok::<_, ErrorView>((v, 1 + n1 + n2 + n3)));
}

/// Decoding the encoding of any foo gives the foo back, field for field,
/// whatever follows the encoding in the stream.
#[verifier::rlimit(100)]
pub proof fn lemma_foo_round_trip(v: FooView, rest: Seq<u8>)
    requires
        wf_foo(v),
    ensures
        parse_foo(ser_foo(v) + rest) == Ok::<_, ErrorView>((v, ser_foo(v).len() as int)),
{
    reveal(parse_foo_inner);
    let s = ser_foo(v) + rest;
    let h = ser_head(4, 3, Sz::Inline);
    let u = ser_uint(v.id, min_sz(v.id));
    let t = ser_text(v.name, min_sz(encode_utf8(v.name).len() as u64));
    let b = ser_bytes(v.data, min_sz(v.data.len() as u64));
    assert(s =~= h + (u + (t + (b + rest))));
    lemma_parse_ser_head(4, 3, Sz::Inline, u + (t + (b + rest)));
    assert(parse_head(s) == Ok::<_, CborError>(((4u8, HeadArg::Definite(3, Sz::Inline)), 1int)));
    lemma_skip_concat(h, u + (t + (b + rest)));
    lemma_foo_fields_round_trip(v, s, rest);
}


/// The spec-level value of a [`Foo2`].
pub struct Foo2View {
    pub id: u64,
    pub text: Option<Seq<char>>,
}

/// A record with a required field and a nullable one, encoded as a
/// two-element array whose second slot is a text string or null.
#[derive(Debug, Clone, PartialEq, Eq)]
pub struct Foo2 {
    pub id: u64,
    pub text: Option<String>,
}

impl View for Foo2 {
    type V = Foo2View;

    open spec fn view(&self) -> Foo2View {
        Foo2View {
            id: self.id,
            text: match self.text {
                Some(ref t) => Some(t@),
                None => None,
            },
        }
    }
}

/// The bounds under which a [`Foo2View`] can be encoded.
pub open spec fn wf_foo2(v: Foo2View) -> bool {
    match v.text {
        Some(t) => encode_utf8(t).len() <= u64::MAX,
        None => true,
    }
}

/// The encoding of the nullable slot: the text when present, null when
/// absent.
pub open spec fn ser_opt_text(t: Option<Seq<char>>) -> Seq<u8> {
    match t {
        Some(t) => ser_text(t, min_sz(encode_utf8(t).len() as u64)),
        None => ser_null(),
    }
}

/// The encoding of a foo2: a definite array of its two fields.
pub open spec fn ser_foo2(v: Foo2View) -> Seq<u8> {
    ser_head(4, 2, Sz::Inline) + ser_uint(v.id, min_sz(v.id)) + ser_opt_text(v.text)
}

/// Parses the two fields of a foo2 starting at `i`: an absent second field is
/// the null marker, anything else must be a text string.
pub open spec fn parse_foo2_fields(s: Seq<u8>, i: int, indef: bool) -> Result<
    (Foo2View, int),
    ErrorView,
> {
    match parse_uint(s.skip(i)) {
        Err(e) => Err(annotated(from_cbor_err(e), "id"@)),
        Ok(((id, _), n1)) => match parse_head(s.skip(i + n1)) {
            Err(e) => Err(annotated(from_cbor_err(e), "text"@)),
            Ok((h, hn2)) => {
                if h == (7u8, HeadArg::Definite(22, Sz::Inline)) {
                    match parse_end(s.skip(i + n1 + hn2), indef) {
                        Err(e) => Err(e),
                        Ok(bn) => Ok((Foo2View { id, text: None }, i + n1 + hn2 + bn)),
                    }
                } else {
                    match parse_text(s.skip(i + n1)) {
                        Err(e) => Err(annotated(from_cbor_err(e), "text"@)),
                        Ok(((t, _), n2)) => match parse_end(s.skip(i + n1 + n2), indef) {
                            Err(e) => Err(e),
                            Ok(bn) => Ok((Foo2View { id, text: Some(t) }, i + n1 + n2 + bn)),
                        },
                    }
                }
            },
        },
    }
}

/// Parses a foo2, without the outer type-name annotation.
#[verifier::opaque]
pub open spec fn parse_foo2_inner(s: Seq<u8>) -> Result<(Foo2View, int), ErrorView> {
    match parse_head(s) {
        Err(e) => Err(from_cbor_err(e)),
        Ok(((major, arg), hn)) => {
            if major != 4 {
                Err(from_cbor_err(CborError::Expected(CborType::Array, crate::cbor::type_of_major(major))))
            } else {
                match arg {
                    HeadArg::Definite(n, _sz) => {
                        if n == 2 {
                            parse_foo2_fields(s, hn, false)
                        } else {
                            Err(bare_err(FailureView::DefiniteLenMismatch(n, Some(2))))
                        }
                    },
                    HeadArg::Indefinite => parse_foo2_fields(s, hn, true),
                }
            }
        },
    }
}

/// Parses a foo2; a failure anywhere inside carries the type's name.
pub open spec fn parse_foo2(s: Seq<u8>) -> Result<(Foo2View, int), ErrorView> {
    match parse_foo2_inner(s) {
        Ok(r) => Ok(r),
        Err(e) => Err(annotated(e, "Foo2"@)),
    }
}

impl Foo2 {
    /// Builds a foo2 from its fields; an absent optional field is an explicit
    /// not-present state, never a default.
    pub fn new(id: u64, text: Option<String>) -> (r: Self)
        ensures
            r.id == id,
            r.text == text,
    {
        Foo2 { id, text }
    }

    /// Appends the encoding of the foo2.
    pub fn serialize(&self, out: &mut Vec<u8>)
        ensures
            final(out)@ == old(out)@ + ser_foo2(self@),
    {
        write_head(out, 4, 2, Sz::Inline);
        write_uint(out, self.id);
        match &self.text {
            Some(t) => write_text(out, t.as_str()),
            None => write_null(out),
        }
        assert(final(out)@ =~= old(out)@ + ser_foo2(self@));
    }

    /// The encoding of the foo2.
    pub fn to_bytes(&self) -> (r: Vec<u8>)
        ensures
            r@ == ser_foo2(self@),
    {
        let mut out: Vec<u8> = Vec::new();
        self.serialize(&mut out);
        out
    }

    #[verifier::rlimit(100)]
    #[verifier::spinoff_prover]
    fn deserialize_inner(data: &[u8], pos: &mut usize) -> (r: Result<Self, DeserializeError>)
        requires
            *old(pos) <= data@.len(),
        ensures
            *final(pos) <= data@.len(),
            *old(pos) <= *final(pos),
            r is Ok ==> *old(pos) < *final(pos),
            match parse_foo2_inner(data@.skip(*old(pos) as int)) {
                Ok((v, n)) => {
                    &&& r is Ok
                    &&& r.unwrap()@ == v
                    &&& *final(pos) == *old(pos) + n
                },
                Err(e) => r is Err && r.unwrap_err()@ == e,
            },
    {
        proof {
            reveal(parse_foo2_inner);
        }
        let ghost s = data@.skip(*old(pos) as int);
        let mut p = *pos;
        let indef = match read_head(data, &mut p) {
            Err(e) => {
                return Err(DeserializeError::from(e));
            },
            Ok((major, arg)) => {
                if major != 4 {
                    return Err(
                        DeserializeError::from(
                            CborError::Expected(CborType::Array, cbor_type_of(major)),
                        ),
                    );
                }
                match arg {
                    HeadArg::Definite(n, _sz) => {
                        if n != 2 {
                            return Err(
                                DeserializeError::from(
                                    DeserializeFailure::DefiniteLenMismatch(n, Some(2)),
                                ),
                            );
                        }
                        false
                    },
                    HeadArg::Indefinite => true,
                }
            },
        };
        proof {
            vstd::seq_lib::lemma_seq_skip_of_skip(data@, *old(pos) as int, p - *old(pos));
        }
        let id = match read_uint(data, &mut p) {
            Ok((v, _sz)) => v,
            Err(e) => {
                return Err(DeserializeError::from(e).annotate("id"));
            },
        };
        proof {
            vstd::seq_lib::lemma_seq_skip_of_skip(data@, *old(pos) as int, p - *old(pos));
        }
        let text = match peek_null(data, p) {
            Err(e) => {
                return Err(DeserializeError::from(e).annotate("text"));
            },
            Ok(true) => {
                proof {
                    vstd::slice::axiom_spec_len(data);
                    assert(data@.skip(p as int).len() >= 1);
                }
                p = p + 1;
                None
            },
            Ok(false) => {
                match read_text(data, &mut p) {
                    Ok((t, _sz)) => Some(t),
                    Err(e) => {
                        return Err(DeserializeError::from(e).annotate("text"));
                    },
                }
            },
        };
        proof {
            vstd::seq_lib::lemma_seq_skip_of_skip(data@, *old(pos) as int, p - *old(pos));
        }
        match read_end(data, &mut p, indef) {
            Err(e) => {
                return Err(e);
            },
            Ok(()) => {},
        }
        *pos = p;
        Ok(Foo2 { id, text })
    }

    /// Reads a foo2 from the stream.
    pub fn deserialize(data: &[u8], pos: &mut usize) -> (r: Result<Self, DeserializeError>)
        requires
            *old(pos) <= data@.len(),
        ensures
            *final(pos) <= data@.len(),
            *old(pos) <= *final(pos),
            r is Ok ==> *old(pos) < *final(pos),
            match parse_foo2(data@.skip(*old(pos) as int)) {
                Ok((v, n)) => {
                    &&& r is Ok
                    &&& r.unwrap()@ == v
                    &&& *final(pos) == *old(pos) + n
                },
                Err(e) => r is Err && r.unwrap_err()@ == e,
            },
    {
        match Self::deserialize_inner(data, pos) {
            Ok(x) => Ok(x),
            Err(e) => Err(e.annotate("Foo2")),
        }
    }

    /// Reads a foo2 from the front of a byte stream.
    pub fn from_bytes(data: &[u8]) -> (r: Result<Self, DeserializeError>)
        ensures
            match parse_foo2(data@) {
                Ok((v, n)) => r is Ok && r.unwrap()@ == v,
                Err(e) => r is Err && r.unwrap_err()@ == e,
            },
    {
        let mut pos: usize = 0;
        let r = Self::deserialize(data, &mut pos);
        proof {
            assert(data@.skip(0) =~= data@);
        }
        r
    }
}

#[verifier::rlimit(100)]
#[verifier::spinoff_prover]
proof fn lemma_foo2_fields_round_trip(v: Foo2View, s: Seq<u8>, rest: Seq<u8>)
    requires
        wf_foo2(v),
        s.len() >= 1,
        s.skip(1) == ser_uint(v.id, min_sz(v.id)) + (ser_opt_text(v.text) + rest),
    ensures
        parse_foo2_fields(s, 1, false) == Ok::<_, ErrorView>((v, ser_foo2(v).len() as int)),
{
    let u = ser_uint(v.id, min_sz(v.id));
    let o = ser_opt_text(v.text);
    let n1 = u.len() as int;
    let n2 = o.len() as int;
    assert(parse_uint(s.skip(1)) == Ok::<_, CborError>(((v.id, min_sz(v.id)), n1))) by {
        lemma_parse_ser_uint(v.id, min_sz(v.id), o + rest);
    }
    assert(s.skip(1 + n1) == o + rest) by {
        lemma_skip_concat(u, o + rest);
        vstd::seq_lib::lemma_seq_skip_of_skip(s, 1, n1);
    }
    match v.text {
        None => {
            assert(parse_head(s.skip(1 + n1)) == Ok::<_, CborError>(
                ((7u8, HeadArg::Definite(22, Sz::Inline)), 1int),
            )) by {
                lemma_parse_ser_head(7, 22, Sz::Inline, rest);
                assert(ser_null() + rest =~= s.skip(1 + n1));
            }
            assert(ser_foo2(v).len() == 1 + n1 + n2);
        },
        Some(t) => {
            let blen = encode_utf8(t).len() as u64;
            assert(parse_head(s.skip(1 + n1)) == Ok::<_, CborError>(
                ((3u8, HeadArg::Definite(blen, min_sz(blen))), head_len(min_sz(blen)) as int),
            )) by {
                lemma_parse_ser_head(3, blen, min_sz(blen), encode_utf8(t) + rest);
                assert(ser_head(3, blen, min_sz(blen)) + (encode_utf8(t) + rest) =~= s.skip(
                    1 + n1,
                ));
            }
            assert(parse_text(s.skip(1 + n1)) == Ok::<_, CborError>(
                ((t, min_sz(blen)), n2),
            )) by {
                lemma_parse_ser_text(t, min_sz(blen), rest);
            }
            assert(ser_foo2(v).len() == 1 + n1 + n2);
        },
    }
}

/// Decoding the encoding of any foo2 gives the foo2 back, with an absent
/// optional field staying absent and a present one keeping its value.
#[verifier::rlimit(100)]
#[verifier::spinoff_prover]
pub proof fn lemma_foo2_round_trip(v: Foo2View, rest: Seq<u8>)
    requires
        wf_foo2(v),
    ensures
        parse_foo2(ser_foo2(v) + rest) == Ok::<_, ErrorView>((v, ser_foo2(v).len() as int)),
{
    reveal(parse_foo2_inner);
    let s = ser_foo2(v) + rest;
    let h = ser_head(4, 2, Sz::Inline);
    let u = ser_uint(v.id, min_sz(v.id));
    let o = ser_opt_text(v.text);
    assert(s =~= h + (u + (o + rest)));
    lemma_parse_ser_head(4, 2, Sz::Inline, u + (o + rest));
    assert(parse_head(s) == Ok::<_, CborError>(((4u8, HeadArg::Definite(2, Sz::Inline)), 1int)));
    lemma_skip_concat(h, u + (o + rest));
    lemma_foo2_fields_round_trip(v, s, rest);
}


/// The spec-level value of a [`Plain`].
pub struct PlainView {
    pub id: u64,
    pub text: Seq<char>,
}

/// A tag-wrapped record: a declared tag number around a two-element array.
#[derive(Debug, Clone, PartialEq, Eq)]
pub struct Plain {
    pub id: u64,
    pub text: String,
}

impl View for Plain {
    type V = PlainView;

    open spec fn view(&self) -> PlainView {
        PlainView { id: self.id, text: self.text@ }
    }
}

/// The tag number a [`Plain`] encoding carries.
pub open spec fn plain_tag() -> u64 {
    13
}

/// The bounds under which a [`PlainView`] can be encoded.
pub open spec fn wf_plain(v: PlainView) -> bool {
    encode_utf8(v.text).len() <= u64::MAX
}

/// The encoding of a plain: its tag, then a definite array of its fields.
pub open spec fn ser_plain(v: PlainView) -> Seq<u8> {
    ser_tag(plain_tag(), min_sz(plain_tag())) + ser_head(4, 2, Sz::Inline) + ser_uint(
        v.id,
        min_sz(v.id),
    ) + ser_text(v.text, min_sz(encode_utf8(v.text).len() as u64))
}

/// Parses the two fields of a plain starting at `i`.
pub open spec fn parse_plain_fields(s: Seq<u8>, i: int, indef: bool) -> Result<
    (PlainView, int),
    ErrorView,
> {
    match parse_uint(s.skip(i)) {
        Err(e) => Err(annotated(from_cbor_err(e), "id"@)),
        Ok(((id, _), n1)) => match parse_text(s.skip(i + n1)) {
            Err(e) => Err(annotated(from_cbor_err(e), "text"@)),
            Ok(((t, _), n2)) => match parse_end(s.skip(i + n1 + n2), indef) {
                Err(e) => Err(e),
                Ok(bn) => Ok((PlainView { id, text: t }, i + n1 + n2 + bn)),
            },
        },
    }
}

/// Parses a plain, without the outer type-name annotation: the tag number
/// must match the declared one exactly.
#[verifier::opaque]
pub open spec fn parse_plain_inner(s: Seq<u8>) -> Result<(PlainView, int), ErrorView> {
    match parse_tag(s) {
        Err(e) => Err(from_cbor_err(e)),
        Ok(((t, _sz), n0)) => {
            if t != plain_tag() {
                Err(bare_err(FailureView::TagMismatch { found: t, expected: plain_tag() }))
            } else {
                match parse_head(s.skip(n0)) {
                    Err(e) => Err(from_cbor_err(e)),
                    Ok(((major, arg), hn)) => {
                        if major != 4 {
                            Err(from_cbor_err(CborError::Expected(
                                CborType::Array,
                                crate::cbor::type_of_major(major),
                            )))
                        } else {
                            match arg {
                                HeadArg::Definite(n, _sz) => {
                                    if n == 2 {
                                        parse_plain_fields(s, n0 + hn, false)
                                    } else {
                                        Err(bare_err(FailureView::DefiniteLenMismatch(n, Some(2))))
                                    }
                                },
                                HeadArg::Indefinite => parse_plain_fields(s, n0 + hn, true),
                            }
                        }
                    },
                }
            }
        },
    }
}

/// Parses a plain; a failure anywhere inside carries the type's name.
pub open spec fn parse_plain(s: Seq<u8>) -> Result<(PlainView, int), ErrorView> {
    match parse_plain_inner(s) {
        Ok(r) => Ok(r),
        Err(e) => Err(annotated(e, "Plain"@)),
    }
}

impl Plain {
    /// Builds a plain from its fields.
    pub fn new(id: u64, text: String) -> (r: Self)
        ensures
            r@ == (PlainView { id: id, text: text@ }),
    {
        Plain { id, text }
    }

    /// Appends the encoding of the plain.
    pub fn serialize(&self, out: &mut Vec<u8>)
        ensures
            final(out)@ == old(out)@ + ser_plain(self@),
    {
        write_tag(out, 13);
        write_head(out, 4, 2, Sz::Inline);
        write_uint(out, self.id);
        write_text(out, self.text.as_str());
        assert(final(out)@ =~= old(out)@ + ser_plain(self@));
    }

    /// The encoding of the plain.
    pub fn to_bytes(&self) -> (r: Vec<u8>)
        ensures
            r@ == ser_plain(self@),
    {
        let mut out: Vec<u8> = Vec::new();
        self.serialize(&mut out);
        out
    }

    #[verifier::rlimit(100)]
    #[verifier::spinoff_prover]
    fn deserialize_inner(data: &[u8], pos: &mut usize) -> (r: Result<Self, DeserializeError>)
        requires
            *old(pos) <= data@.len(),
        ensures
            *final(pos) <= data@.len(),
            *old(pos) <= *final(pos),
            r is Ok ==> *old(pos) < *final(pos),
            match parse_plain_inner(data@.skip(*old(pos) as int)) {
                Ok((v, n)) => {
                    &&& r is Ok
                    &&& r.unwrap()@ == v
                    &&& *final(pos) == *old(pos) + n
                },
                Err(e) => r is Err && r.unwrap_err()@ == e,
            },
    {
        proof {
            reveal(parse_plain_inner);
        }
        let ghost s = data@.skip(*old(pos) as int);
        let mut p = *pos;
        match read_tag(data, &mut p) {
            Err(e) => {
                return Err(DeserializeError::from(e));
            },
            Ok((t, _sz)) => {
                if t != 13 {
                    return Err(
                        DeserializeError::from(
                            DeserializeFailure::TagMismatch { found: t, expected: 13 },
                        ),
                    );
                }
            },
        }
        proof {
            vstd::seq_lib::lemma_seq_skip_of_skip(data@, *old(pos) as int, p - *old(pos));
        }
        let indef = match read_head(data, &mut p) {
            Err(e) => {
                return Err(DeserializeError::from(e));
            },
            Ok((major, arg)) => {
                if major != 4 {
                    return Err(
                        DeserializeError::from(
                            CborError::Expected(CborType::Array, cbor_type_of(major)),
                        ),
                    );
                }
                match arg {
                    HeadArg::Definite(n, _sz) => {
                        if n != 2 {
                            return Err(
                                DeserializeError::from(
                                    DeserializeFailure::DefiniteLenMismatch(n, Some(2)),
                                ),
                            );
                        }
                        false
                    },
                    HeadArg::Indefinite => true,
                }
            },
        };
        proof {
            vstd::seq_lib::lemma_seq_skip_of_skip(data@, *old(pos) as int, p - *old(pos));
        }
        let id = match read_uint(data, &mut p) {
            Ok((v, _sz)) => v,
            Err(e) => {
                return Err(DeserializeError::from(e).annotate("id"));
            },
        };
        proof {
            vstd::seq_lib::lemma_seq_skip_of_skip(data@, *old(pos) as int, p - *old(pos));
        }
        let text = match read_text(data, &mut p) {
            Ok((t, _sz)) => t,
            Err(e) => {
                return Err(DeserializeError::from(e).annotate("text"));
            },
        };
        proof {
            vstd::seq_lib::lemma_seq_skip_of_skip(data@, *old(pos) as int, p - *old(pos));
        }
        match read_end(data, &mut p, indef) {
            Err(e) => {
                return Err(e);
            },
            Ok(()) => {},
        }
        *pos = p;
        Ok(Plain { id, text })
    }

    /// Reads a plain from the stream.
    pub fn deserialize(data: &[u8], pos: &mut usize) -> (r: Result<Self, DeserializeError>)
        requires
            *old(pos) <= data@.len(),
        ensures
            *final(pos) <= data@.len(),
            *old(pos) <= *final(pos),
            r is Ok ==> *old(pos) < *final(pos),
            match parse_plain(data@.skip(*old(pos) as int)) {
                Ok((v, n)) => {
                    &&& r is Ok
                    &&& r.unwrap()@ == v
                    &&& *final(pos) == *old(pos) + n
                },
                Err(e) => r is Err && r.unwrap_err()@ == e,
            },
    {
        match Self::deserialize_inner(data, pos) {
            Ok(x) => Ok(x),
            Err(e) => Err(e.annotate("Plain")),
        }
    }

    /// Reads a plain from the front of a byte stream.
    pub fn from_bytes(data: &[u8]) -> (r: Result<Self, DeserializeError>)
        ensures
            match parse_plain(data@) {
                Ok((v, n)) => r is Ok && r.unwrap()@ == v,
                Err(e) => r is Err && r.unwrap_err()@ == e,
            },
    {
        let mut pos: usize = 0;
        let r = Self::deserialize(data, &mut pos);
        proof {
            assert(data@.skip(0) =~= data@);
        }
        r
    }
}

#[verifier::rlimit(100)]
#[verifier::spinoff_prover]
proof fn lemma_plain_fields_round_trip(v: PlainView, s: Seq<u8>, rest: Seq<u8>)
    requires
        wf_plain(v),
        s.len() >= 2,
        s.skip(2) == ser_uint(v.id, min_sz(v.id)) + (ser_text(
            v.text,
            min_sz(encode_utf8(v.text).len() as u64),
        ) + rest),
    ensures
        parse_plain_fields(s, 2, false) == Ok::<_, ErrorView>((v, ser_plain(v).len() as int)),
{
    let u = ser_uint(v.id, min_sz(v.id));
    let t = ser_text(v.text, min_sz(encode_utf8(v.text).len() as u64));
    let n1 = u.len() as int;
    let n2 = t.len() as int;
    assert(parse_uint(s.skip(2)) == Ok::<_, CborError>(((v.id, min_sz(v.id)), n1))) by {
        lemma_parse_ser_uint(v.id, min_sz(v.id), t + rest);
    }
    assert(s.skip(2 + n1) == t + rest) by {
        lemma_skip_concat(u, t + rest);
        vstd::seq_lib::lemma_seq_skip_of_skip(s, 2, n1);
    }
    assert(parse_text(s.skip(2 + n1)) == Ok::<_, CborError>(
        ((v.text, min_sz(encode_utf8(v.text).len() as u64)), n2),
    )) by {
        lemma_parse_ser_text(v.text, min_sz(encode_utf8(v.text).len() as u64), rest);
    }
    assert(ser_plain(v).len() == 2 + n1 + n2);
    assert(parse_plain_fields(s, 2, false) == Ok::<_, ErrorView>((v, 2 + n1 + n2)));
}

/// Decoding the encoding of any plain gives the plain back: the tag is
/// unwrapped and both fields are recovered unchanged.
#[verifier::rlimit(100)]
#[verifier::spinoff_prover]
pub proof fn lemma_plain_round_trip(v: PlainView, rest: Seq<u8>)
    requires
        wf_plain(v),
    ensures
        parse_plain(ser_plain(v) + rest) == Ok::<_, ErrorView>((v, ser_plain(v).len() as int)),
{
    reveal(parse_plain_inner);
    let s = ser_plain(v) + rest;
    let tg = ser_tag(plain_tag(), min_sz(plain_tag()));
    let h = ser_head(4, 2, Sz::Inline);
    let u = ser_uint(v.id, min_sz(v.id));
    let t = ser_text(v.text, min_sz(encode_utf8(v.text).len() as u64));
    assert(s =~= tg + (h + (u + (t + rest))));
    lemma_parse_ser_tag(plain_tag(), min_sz(plain_tag()), h + (u + (t + rest)));
    assert(parse_tag(s) == Ok::<_, CborError>(((plain_tag(), Sz::Inline), 1int)));
    lemma_skip_concat(tg, h + (u + (t + rest)));
    lemma_parse_ser_head(4, 2, Sz::Inline, u + (t + rest));
    assert(parse_head(s.skip(1)) == Ok::<_, CborError>(
        ((4u8, HeadArg::Definite(2, Sz::Inline)), 1int),
    ));
    assert(s.skip(2) == u + (t + rest)) by {
        lemma_skip_concat(h, u + (t + rest));
        vstd::seq_lib::lemma_seq_skip_of_skip(s, 1, 1);
    }
    lemma_plain_fields_round_trip(v, s, rest);
}


/// The spec-level value of an [`Outer`].
pub struct OuterView {
    pub id: u64,
    pub plain: PlainView,
}

/// A tag-wrapped record holding another tag-wrapped record as a field.
#[derive(Debug, Clone, PartialEq, Eq)]
pub struct Outer {
    pub id: u64,
    pub plain: Plain,
}

impl View for Outer {
    type V = OuterView;

    open spec fn view(&self) -> OuterView {
        OuterView { id: self.id, plain: self.plain@ }
    }
}

/// The tag number an [`Outer`] encoding carries.
pub open spec fn outer_tag() -> u64 {
    2
}

/// The bounds under which an [`OuterView`] can be encoded.
pub open spec fn wf_outer(v: OuterView) -> bool {
    wf_plain(v.plain)
}

/// The encoding of an outer: its tag, then a definite array of its fields.
pub open spec fn ser_outer(v: OuterView) -> Seq<u8> {
    ser_tag(outer_tag(), min_sz(outer_tag())) + ser_head(4, 2, Sz::Inline) + ser_uint(
        v.id,
        min_sz(v.id),
    ) + ser_plain(v.plain)
}

/// Parses the two fields of an outer starting at `i`; the nested plain's own
/// failures keep its annotations under the field's name.
pub open spec fn parse_outer_fields(s: Seq<u8>, i: int, indef: bool) -> Result<
    (OuterView, int),
    ErrorView,
> {
    match parse_uint(s.skip(i)) {
        Err(e) => Err(annotated(from_cbor_err(e), "id"@)),
        Ok(((id, _), n1)) => match parse_plain(s.skip(i + n1)) {
            Err(e) => Err(annotated(e, "plain"@)),
            Ok((pv, n2)) => match parse_end(s.skip(i + n1 + n2), indef) {
                Err(e) => Err(e),
                Ok(bn) => Ok((OuterView { id, plain: pv }, i + n1 + n2 + bn)),
            },
        },
    }
}

/// Parses an outer, without the outer type-name annotation.
#[verifier::opaque]
pub open spec fn parse_outer_inner(s: Seq<u8>) -> Result<(OuterView, int), ErrorView> {
    match parse_tag(s) {
        Err(e) => Err(from_cbor_err(e)),
        Ok(((t, _sz), n0)) => {
            if t != outer_tag() {
                Err(bare_err(FailureView::TagMismatch { found: t, expected: outer_tag() }))
            } else {
                match parse_head(s.skip(n0)) {
                    Err(e) => Err(from_cbor_err(e)),
                    Ok(((major, arg), hn)) => {
                        if major != 4 {
                            Err(from_cbor_err(CborError::Expected(
                                CborType::Array,
                                crate::cbor::type_of_major(major),
                            )))
                        } else {
                            match arg {
                                HeadArg::Definite(n, _sz) => {
                                    if n == 2 {
                                        parse_outer_fields(s, n0 + hn, false)
                                    } else {
                                        Err(bare_err(FailureView::DefiniteLenMismatch(n, Some(2))))
                                    }
                                },
                                HeadArg::Indefinite => parse_outer_fields(s, n0 + hn, true),
                            }
                        }
                    },
                }
            }
        },
    }
}

/// Parses an outer; a failure anywhere inside carries the type's name.
pub open spec fn parse_outer(s: Seq<u8>) -> Result<(OuterView, int), ErrorView> {
    match parse_outer_inner(s) {
        Ok(r) => Ok(r),
        Err(e) => Err(annotated(e, "Outer"@)),
    }
}

impl Outer {
    /// Builds an outer from its fields.
    pub fn new(id: u64, plain: Plain) -> (r: Self)
        ensures
            r@ == (OuterView { id: id, plain: plain@ }),
    {
        Outer { id, plain }
    }

    /// Appends the encoding of the outer.
    pub fn serialize(&self, out: &mut Vec<u8>)
        ensures
            final(out)@ == old(out)@ + ser_outer(self@),
    {
        write_tag(out, 2);
        write_head(out, 4, 2, Sz::Inline);
        write_uint(out, self.id);
        self.plain.serialize(out);
        assert(final(out)@ =~= old(out)@ + ser_outer(self@));
    }

    /// The encoding of the outer.
    pub fn to_bytes(&self) -> (r: Vec<u8>)
        ensures
            r@ == ser_outer(self@),
    {
        let mut out: Vec<u8> = Vec::new();
        self.serialize(&mut out);
        out
    }

    #[verifier::rlimit(100)]
    #[verifier::spinoff_prover]
    fn deserialize_inner(data: &[u8], pos: &mut usize) -> (r: Result<Self, DeserializeError>)
        requires
            *old(pos) <= data@.len(),
        ensures
            *final(pos) <= data@.len(),
            *old(pos) <= *final(pos),
            r is Ok ==> *old(pos) < *final(pos),
            match parse_outer_inner(data@.skip(*old(pos) as int)) {
                Ok((v, n)) => {
                    &&& r is Ok
                    &&& r.unwrap()@ == v
                    &&& *final(pos) == *old(pos) + n
                },
                Err(e) => r is Err && r.unwrap_err()@ == e,
            },
    {
        proof {
            reveal(parse_outer_inner);
        }
        let ghost s = data@.skip(*old(pos) as int);
        let mut p = *pos;
        match read_tag(data, &mut p) {
            Err(e) => {
                return Err(DeserializeError::from(e));
            },
            Ok((t, _sz)) => {
                if t != 2 {
                    return Err(
                        DeserializeError::from(
                            DeserializeFailure::TagMismatch { found: t, expected: 2 },
                        ),
                    );
                }
            },
        }
        proof {
            vstd::seq_lib::lemma_seq_skip_of_skip(data@, *old(pos) as int, p - *old(pos));
        }
        let indef = match read_head(data, &mut p) {
            Err(e) => {
                return Err(DeserializeError::from(e));
            },
            Ok((major, arg)) => {
                if major != 4 {
                    return Err(
                        DeserializeError::from(
                            CborError::Expected(CborType::Array, cbor_type_of(major)),
                        ),
                    );
                }
                match arg {
                    HeadArg::Definite(n, _sz) => {
                        if n != 2 {
                            return Err(
                                DeserializeError::from(
                                    DeserializeFailure::DefiniteLenMismatch(n, Some(2)),
                                ),
                            );
                        }
                        false
                    },
                    HeadArg::Indefinite => true,
                }
            },
        };
        proof {
            vstd::seq_lib::lemma_seq_skip_of_skip(data@, *old(pos) as int, p - *old(pos));
        }
        let id = match read_uint(data, &mut p) {
            Ok((v, _sz)) => v,
            Err(e) => {
                return Err(DeserializeError::from(e).annotate("id"));
            },
        };
        proof {
            vstd::seq_lib::lemma_seq_skip_of_skip(data@, *old(pos) as int, p - *old(pos));
        }
        let plain = match Plain::deserialize(data, &mut p) {
            Ok(v) => v,
            Err(e) => {
                return Err(e.annotate("plain"));
            },
        };
        proof {
            vstd::seq_lib::lemma_seq_skip_of_skip(data@, *old(pos) as int, p - *old(pos));
        }
        match read_end(data, &mut p, indef) {
            Err(e) => {
                return Err(e);
            },
            Ok(()) => {},
        }
        *pos = p;
        Ok(Outer { id, plain })
    }

    /// Reads an outer from the stream.
    pub fn deserialize(data: &[u8], pos: &mut usize) -> (r: Result<Self, DeserializeError>)
        requires
            *old(pos) <= data@.len(),
        ensures
            *final(pos) <= data@.len(),
            *old(pos) <= *final(pos),
            r is Ok ==> *old(pos) < *final(pos),
            match parse_outer(data@.skip(*old(pos) as int)) {
                Ok((v, n)) => {
                    &&& r is Ok
                    &&& r.unwrap()@ == v
                    &&& *final(pos) == *old(pos) + n
                },
                Err(e) => r is Err && r.unwrap_err()@ == e,
            },
    {
        match Self::deserialize_inner(data, pos) {
            Ok(x) => Ok(x),
            Err(e) => Err(e.annotate("Outer")),
        }
    }

    /// Reads an outer from the front of a byte stream.
    pub fn from_bytes(data: &[u8]) -> (r: Result<Self, DeserializeError>)
        ensures
            match parse_outer(data@) {
                Ok((v, n)) => r is Ok && r.unwrap()@ == v,
                Err(e) => r is Err && r.unwrap_err()@ == e,
            },
    {
        let mut pos: usize = 0;
        let r = Self::deserialize(data, &mut pos);
        proof {
            assert(data@.skip(0) =~= data@);
        }
        r
    }
}

#[verifier::rlimit(100)]
#[verifier::spinoff_prover]
proof fn lemma_outer_fields_round_trip(v: OuterView, s: Seq<u8>, rest: Seq<u8>)
    requires
        wf_outer(v),
        s.len() >= 2,
        s.skip(2) == ser_uint(v.id, min_sz(v.id)) + (ser_plain(v.plain) + rest),
    ensures
        parse_outer_fields(s, 2, false) == Ok::<_, ErrorView>((v, ser_outer(v).len() as int)),
{
    let u = ser_uint(v.id, min_sz(v.id));
    let pl = ser_plain(v.plain);
    let n1 = u.len() as int;
    let n2 = pl.len() as int;
    assert(parse_uint(s.skip(2)) == Ok::<_, CborError>(((v.id, min_sz(v.id)), n1))) by {
        lemma_parse_ser_uint(v.id, min_sz(v.id), pl + rest);
    }
    assert(s.skip(2 + n1) == pl + rest) by {
        lemma_skip_concat(u, pl + rest);
        vstd::seq_lib::lemma_seq_skip_of_skip(s, 2, n1);
    }
    assert(parse_plain(s.skip(2 + n1)) == Ok::<_, ErrorView>((v.plain, n2))) by {
        lemma_plain_round_trip(v.plain, rest);
    }
    assert(ser_outer(v).len() == 2 + n1 + n2);
    assert(parse_outer_fields(s, 2, false) == Ok::<_, ErrorView>((v, 2 + n1 + n2)));
}

/// Decoding the encoding of any outer recovers both the integer field and
/// the nested tag-wrapped record unchanged.
#[verifier::rlimit(100)]
#[verifier::spinoff_prover]
pub proof fn lemma_outer_round_trip(v: OuterView, rest: Seq<u8>)
    requires
        wf_outer(v),
    ensures
        parse_outer(ser_outer(v) + rest) == Ok::<_, ErrorView>((v, ser_outer(v).len() as int)),
{
    reveal(parse_outer_inner);
    let s = ser_outer(v) + rest;
    let tg = ser_tag(outer_tag(), min_sz(outer_tag()));
    let h = ser_head(4, 2, Sz::Inline);
    let u = ser_uint(v.id, min_sz(v.id));
    let pl = ser_plain(v.plain);
    assert(s =~= tg + (h + (u + (pl + rest))));
    lemma_parse_ser_tag(outer_tag(), min_sz(outer_tag()), h + (u + (pl + rest)));
    assert(parse_tag(s) == Ok::<_, CborError>(((outer_tag(), Sz::Inline), 1int)));
    lemma_skip_concat(tg, h + (u + (pl + rest)));
    lemma_parse_ser_head(4, 2, Sz::Inline, u + (pl + rest));
    assert(parse_head(s.skip(1)) == Ok::<_, CborError>(
        ((4u8, HeadArg::Definite(2, Sz::Inline)), 1int),
    ));
    assert(s.skip(2) == u + (pl + rest)) by {
        lemma_skip_concat(h, u + (pl + rest));
        vstd::seq_lib::lemma_seq_skip_of_skip(s, 1, 1);
    }
    lemma_outer_fields_round_trip(v, s, rest);
}

} // verus!
