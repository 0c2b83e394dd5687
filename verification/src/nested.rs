//! A nested document: a value whose encoding is itself CBOR carried inside
//! a byte string under a declared tag; decoding unwraps the tag, reads the
//! byte string, then runs a full decode pass over those bytes as an
//! independent stream.

use crate::cbor::HeadArg;
use crate::cbor::Sz;
use crate::cbor::cbor_type_of;
use crate::cbor::min_sz;
use crate::cbor::parse_end;
use crate::cbor::parse_head;
use crate::cbor::parse_bytes;
use crate::cbor::parse_tag;
use crate::cbor::parse_uint;
use crate::cbor::read_bytes;
use crate::cbor::read_end;
use crate::cbor::read_head;
use crate::cbor::read_tag;
use crate::cbor::read_uint;
use crate::cbor::ser_head;
use crate::cbor::ser_tag;
use crate::cbor::ser_uint;
use crate::cbor::type_of_major;
use crate::cbor::write_bytes;
use crate::cbor::write_head;
use crate::cbor::write_tag;
use crate::cbor::write_uint;
use crate::error::CborError;
use crate::error::CborType;
use crate::error::DeserializeError;
use crate::error::DeserializeFailure;
use crate::error::ErrorView;
use crate::error::FailureView;
use crate::error::annotated;
use crate::error::bare_err;
use crate::error::from_cbor_err;
use crate::types::Foo;
use crate::types::FooView;
use crate::types::parse_foo;
use crate::types::ser_foo;
use vstd::prelude::*;

verus! {

/// The spec-level value of a [`CborInCbor`].
pub struct CborInCborView {
    pub foo: FooView,
    pub num: u64,
}

/// A tag-wrapped nested document: a record and an integer, encoded as an
/// independent CBOR stream inside a byte string under the declared tag.
#[derive(Debug, Clone, PartialEq, Eq)]
pub struct CborInCbor {
    pub foo: Foo,
    pub num: u64,
}

impl View for CborInCbor {
    type V = CborInCborView;

    open spec fn view(&self) -> CborInCborView {
        CborInCborView { foo: self.foo@, num: self.num }
    }
}

/// The tag number the nested document carries.
pub open spec fn cbor_in_cbor_tag() -> u64 {
    24
}

/// The bounds under which a [`CborInCborView`] can be encoded.
pub open spec fn wf_cbor_in_cbor(v: CborInCborView) -> bool {
    &&& crate::types::wf_foo(v.foo)
    &&& ser_inner_doc(v).len() <= u64::MAX
}

/// The inner document: a definite array of the record and the integer.
pub open spec fn ser_inner_doc(v: CborInCborView) -> Seq<u8> {
    ser_head(4, 2, Sz::Inline) + ser_foo(v.foo) + ser_uint(v.num, min_sz(v.num))
}

/// The encoding of the whole value: the tag, then the inner document as a
/// byte string.
pub open spec fn ser_cbor_in_cbor(v: CborInCborView) -> Seq<u8> {
    ser_tag(cbor_in_cbor_tag(), min_sz(cbor_in_cbor_tag())) + ser_head(
        2,
        ser_inner_doc(v).len() as u64,
        min_sz(ser_inner_doc(v).len() as u64),
    ) + ser_inner_doc(v)
}

/// Parses the inner document from its own byte stream.
pub open spec fn parse_inner_doc(b: Seq<u8>) -> Result<(CborInCborView, int), ErrorView> {
    match parse_head(b) {
        Err(e) => Err(from_cbor_err(e)),
        Ok(((major, arg), hn)) => {
            if major != 4 {
                Err(from_cbor_err(CborError::Expected(CborType::Array, type_of_major(major))))
            } else {
                let indef = arg == HeadArg::Indefinite;
                let ok = match arg {
                    HeadArg::Definite(n, _sz) => n == 2,
                    HeadArg::Indefinite => true,
                };
                if !ok {
                    Err(bare_err(FailureView::DefiniteLenMismatch(arg->Definite_0, Some(2))))
                } else {
                    match parse_foo(b.skip(hn)) {
                        Err(e) => Err(annotated(e, "foo"@)),
                        Ok((fv, n1)) => match parse_uint(b.skip(hn + n1)) {
                            Err(e) => Err(annotated(from_cbor_err(e), "num"@)),
                            Ok(((x, _), n2)) => match parse_end(b.skip(hn + n1 + n2), indef) {
                                Err(e) => Err(e),
                                Ok(bn) => Ok(
                                    (CborInCborView { foo: fv, num: x }, hn + n1 + n2 + bn),
                                ),
                            },
                        },
                    }
                }
            }
        },
    }
}

/// Parses the whole value, without the outer type-name annotation: the tag
/// is unwrapped, the byte string read, and a failure inside the embedded
/// document carries a marker segment on its path.
#[verifier::opaque]
pub open spec fn parse_cbor_in_cbor_inner(s: Seq<u8>) -> Result<(CborInCborView, int), ErrorView> {
    match parse_tag(s) {
        Err(e) => Err(from_cbor_err(e)),
        Ok(((t, _sz), n0)) => {
            if t != cbor_in_cbor_tag() {
                Err(bare_err(FailureView::TagMismatch { found: t, expected: cbor_in_cbor_tag() }))
            } else {
                match parse_bytes(s.skip(n0)) {
                    Err(e) => Err(from_cbor_err(e)),
                    Ok(((b, _), n1)) => match parse_inner_doc(b) {
                        Err(e) => Err(annotated(e, "cbor"@)),
                        Ok((v, _)) => Ok((v, n0 + n1)),
                    },
                }
            }
        },
    }
}

/// Parses the whole value; a failure carries the type's name.
pub open spec fn parse_cbor_in_cbor(s: Seq<u8>) -> Result<(CborInCborView, int), ErrorView> {
    match parse_cbor_in_cbor_inner(s) {
        Ok(r) => Ok(r),
        Err(e) => Err(annotated(e, "CborInCbor"@)),
    }
}

impl CborInCbor {
    /// Builds the value from its fields.
    pub fn new(foo: Foo, num: u64) -> (r: Self)
        ensures
            r@ == (CborInCborView { foo: foo@, num: num }),
    {
        CborInCbor { foo, num }
    }

    /// Appends the encoding: the inner document is built first, then framed
    /// as a tagged byte string.
    pub fn serialize(&self, out: &mut Vec<u8>)
        ensures
            final(out)@ == old(out)@ + ser_cbor_in_cbor(self@),
    {
        let mut inner: Vec<u8> = Vec::new();
        write_head(&mut inner, 4, 2, Sz::Inline);
        self.foo.serialize(&mut inner);
        write_uint(&mut inner, self.num);
        proof {
            assert(inner@ =~= ser_inner_doc(self@));
        }
        write_tag(out, 24);
        write_bytes(out, inner.as_slice());
        assert(final(out)@ =~= old(out)@ + ser_cbor_in_cbor(self@));
    }

    /// The encoding of the value.
    pub fn to_bytes(&self) -> (r: Vec<u8>)
        ensures
            r@ == ser_cbor_in_cbor(self@),
    {
        let mut out: Vec<u8> = Vec::new();
        self.serialize(&mut out);
        out
    }

    #[verifier::rlimit(100)]
    #[verifier::spinoff_prover]
    fn deserialize_inner(data: &[u8], pos: &mut usize) -> (r: Result<Self, DeserializeError>)
        requires
            *old(pos) <= data@.len(),
        ensures
            *final(pos) <= data@.len(),
            *old(pos) <= *final(pos),
            r is Ok ==> *old(pos) < *final(pos),
            match parse_cbor_in_cbor_inner(data@.skip(*old(pos) as int)) {
                Ok((v, n)) => {
                    &&& r is Ok
                    &&& r.unwrap()@ == v
                    &&& *final(pos) == *old(pos) + n
                },
                Err(e) => r is Err && r.unwrap_err()@ == e,
            },
    {
        proof {
            reveal(parse_cbor_in_cbor_inner);
        }
        let mut p = *pos;
        match read_tag(data, &mut p) {
            Err(e) => {
                return Err(DeserializeError::from(e));
            },
            Ok((t, _sz)) => {
                if t != 24 {
                    return Err(
                        DeserializeError::from(
                            DeserializeFailure::TagMismatch { found: t, expected: 24 },
                        ),
                    );
                }
            },
        }
        proof {
            vstd::seq_lib::lemma_seq_skip_of_skip(data@, *old(pos) as int, p - *old(pos));
        }
        let b = match read_bytes(data, &mut p) {
            Ok((v, _sz)) => v,
            Err(e) => {
                return Err(DeserializeError::from(e));
            },
        };
        let mut q: usize = 0;
        let indef = match read_head(b.as_slice(), &mut q) {
            Err(e) => {
                return Err(DeserializeError::from(e).annotate("cbor"));
            },
            Ok((major, arg)) => {
                if major != 4 {
                    return Err(
                        DeserializeError::from(
                            CborError::Expected(CborType::Array, cbor_type_of(major)),
                        ).annotate("cbor"),
                    );
                }
                match arg {
                    HeadArg::Definite(n, _sz) => {
                        if n != 2 {
                            return Err(
                                DeserializeError::from(
                                    DeserializeFailure::DefiniteLenMismatch(n, Some(2)),
                                ).annotate("cbor"),
                            );
                        }
                        false
                    },
                    HeadArg::Indefinite => true,
                }
            },
        };
        proof {
            assert(b@.skip(0int).skip(q as int) =~= b@.skip(q as int));
            assert(b@.skip(0int) =~= b@);
        }
        let fv = match Foo::deserialize(b.as_slice(), &mut q) {
            Ok(v) => v,
            Err(e) => {
                return Err(e.annotate("foo").annotate("cbor"));
            },
        };
        let num = match read_uint(b.as_slice(), &mut q) {
            Ok((v, _sz)) => v,
            Err(e) => {
                return Err(DeserializeError::from(e).annotate("num").annotate("cbor"));
            },
        };
        match read_end(b.as_slice(), &mut q, indef) {
            Err(e) => {
                return Err(e.annotate("cbor"));
            },
            Ok(()) => {},
        }
        *pos = p;
        Ok(CborInCbor { foo: fv, num })
    }

    /// Reads the value from the stream: the tag is unwrapped first, then the
    /// inner bytes are decoded recursively.
    pub fn deserialize(data: &[u8], pos: &mut usize) -> (r: Result<Self, DeserializeError>)
        requires
            *old(pos) <= data@.len(),
        ensures
            *final(pos) <= data@.len(),
            *old(pos) <= *final(pos),
            r is Ok ==> *old(pos) < *final(pos),
            match parse_cbor_in_cbor(data@.skip(*old(pos) as int)) {
                Ok((v, n)) => {
                    &&& r is Ok
                    &&& r.unwrap()@ == v
                    &&& *final(pos) == *old(pos) + n
                },
                Err(e) => r is Err && r.unwrap_err()@ == e,
            },
    {
        match Self::deserialize_inner(data, pos) {
            Ok(x) => Ok(x),
            Err(e) => Err(e.annotate("CborInCbor")),
        }
    }

    /// Reads the value from the front of a byte stream.
    pub fn from_bytes(data: &[u8]) -> (r: Result<Self, DeserializeError>)
        ensures
            match parse_cbor_in_cbor(data@) {
                Ok((v, n)) => r is Ok && r.unwrap()@ == v,
                Err(e) => r is Err && r.unwrap_err()@ == e,
            },
    {
        let mut pos: usize = 0;
        let r = Self::deserialize(data, &mut pos);
        proof {
            assert(data@.skip(0) =~= data@);
        }
        r
    }
}


#[verifier::rlimit(100)]
#[verifier::spinoff_prover]
proof fn lemma_inner_doc_round_trip(v: CborInCborView)
    requires
        wf_cbor_in_cbor(v),
    ensures
        parse_inner_doc(ser_inner_doc(v)) == Ok::<_, ErrorView>(
            (v, ser_inner_doc(v).len() as int),
        ),
{
    let doc = ser_inner_doc(v);
    let fb = crate::types::ser_foo(v.foo);
    let ub = ser_uint(v.num, min_sz(v.num));
    let dh = ser_head(4, 2, Sz::Inline);
    assert(doc =~= dh + (fb + ub));
    crate::cbor::lemma_parse_ser_head(4, 2, Sz::Inline, fb + ub);
    crate::cbor::lemma_skip_concat(dh, fb + ub);
    assert(doc.skip(1) == fb + ub);
    crate::types::lemma_foo_round_trip(v.foo, ub);
    assert(doc.skip(1 + fb.len() as int) == ub) by {
        vstd::seq_lib::lemma_seq_skip_of_skip(doc, 1, fb.len() as int);
        crate::cbor::lemma_skip_concat(fb, ub);
    }
    assert(ub + Seq::<u8>::empty() =~= ub);
    crate::cbor::lemma_parse_ser_uint(v.num, min_sz(v.num), Seq::empty());
    assert(doc.len() == 1 + fb.len() + ub.len());
}

/// Decoding the encoding of any nested document first unwraps the tag, then
/// recursively decodes the inner bytes, recovering both the record and the
/// integer unchanged.
#[verifier::rlimit(100)]
#[verifier::spinoff_prover]
pub proof fn lemma_cbor_in_cbor_round_trip(v: CborInCborView, rest: Seq<u8>)
    requires
        wf_cbor_in_cbor(v),
    ensures
        parse_cbor_in_cbor(ser_cbor_in_cbor(v) + rest) == Ok::<_, ErrorView>(
            (v, ser_cbor_in_cbor(v).len() as int),
        ),
{
    let doc = ser_inner_doc(v);
    let dlen = doc.len() as u64;
    let s = ser_cbor_in_cbor(v) + rest;
    let tg = ser_tag(cbor_in_cbor_tag(), min_sz(cbor_in_cbor_tag()));
    let bh = ser_head(2, dlen, min_sz(dlen));
    assert(parse_tag(s) == Ok::<_, CborError>(
        ((cbor_in_cbor_tag(), min_sz(cbor_in_cbor_tag())), tg.len() as int),
    )) by {
        assert(s =~= tg + (bh + (doc + rest)));
        crate::cbor::lemma_parse_ser_tag(
            cbor_in_cbor_tag(),
            min_sz(cbor_in_cbor_tag()),
            bh + (doc + rest),
        );
    }
    assert(parse_bytes(s.skip(tg.len() as int)) == Ok::<_, CborError>(
        ((doc, min_sz(dlen)), bh.len() + doc.len() as int),
    )) by {
        assert(s =~= tg + (bh + (doc + rest)));
        crate::cbor::lemma_skip_concat(tg, bh + (doc + rest));
        assert(crate::cbor::ser_bytes(doc, min_sz(dlen)) + rest =~= s.skip(tg.len() as int));
        crate::cbor::lemma_parse_ser_bytes(doc, min_sz(dlen), rest);
    }
    lemma_inner_doc_round_trip(v);
    assert(ser_cbor_in_cbor(v).len() == tg.len() + bh.len() + doc.len()) by {
        assert(ser_cbor_in_cbor(v) =~= tg + (bh + doc));
    }
    reveal(parse_cbor_in_cbor_inner);
}

} // verus!
