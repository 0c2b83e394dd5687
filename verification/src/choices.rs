//! Choice types: a type choice over unrelated shapes and a group choice over
//! field groups, both decoded by trying alternatives in declared order, the
//! first match winning, and a total mismatch aggregating one cause per
//! alternative.

use crate::cbor::HeadArg;
use crate::cbor::Sz;
use crate::cbor::cbor_type_of;
use crate::cbor::min_sz;
use crate::cbor::parse_bytes;
use crate::cbor::parse_end;
use crate::cbor::parse_head;
use crate::cbor::parse_tag;
use crate::cbor::parse_text;
use crate::cbor::parse_uint;
use crate::cbor::read_bytes;
use crate::cbor::read_end;
use crate::cbor::read_head;
use crate::cbor::read_tag;
use crate::cbor::read_text;
use crate::cbor::read_uint;
use crate::cbor::ser_bytes;
use crate::cbor::ser_head;
use crate::cbor::ser_tag;
use crate::cbor::ser_text;
use crate::cbor::ser_uint;
use crate::cbor::str_eq;
use crate::cbor::type_of_major;
use crate::cbor::write_bytes;
use crate::cbor::write_head;
use crate::cbor::write_tag;
use crate::cbor::write_text;
use crate::cbor::write_uint;
use crate::error::CborError;
use crate::error::CborType;
use crate::error::DeserializeError;
use crate::error::DeserializeFailure;
use crate::error::ErrorView;
use crate::error::FailureView;
use crate::error::Key;
use crate::error::KeyView;
use crate::error::annotated;
use crate::error::bare_err;
use crate::error::error_view;
use crate::error::from_cbor_err;
use crate::table::parse_u64_list;
use crate::table::read_u64_list;
use crate::table::ser_u64_list;
use crate::table::write_u64_list;
use crate::types::Plain;
use crate::types::PlainView;
use crate::types::parse_plain;
use crate::types::ser_plain;
use crate::types::wf_plain;
use vstd::prelude::*;
use vstd::utf8::encode_utf8;

verus! {

/// The spec-level value of a [`TypeChoice`].
pub enum TypeChoiceView {
    I0,
    Helloworld,
    U64(u64),
    Text(Seq<char>),
    Bytes(Seq<u8>),
    ArrU64(Seq<u64>),
}

/// A closed choice over unrelated shapes: two fixed literals, three
/// primitive payloads, and a tag-wrapped array. The active alternative is
/// part of the value's identity, and decode tries them in declared order.
#[derive(Debug, Clone, PartialEq, Eq)]
pub enum TypeChoice {
    I0,
    Helloworld,
    U64(u64),
    Text(String),
    Bytes(Vec<u8>),
    ArrU64(Vec<u64>),
}

impl View for TypeChoice {
    type V = TypeChoiceView;

    open spec fn view(&self) -> TypeChoiceView {
        match self {
            TypeChoice::I0 => TypeChoiceView::I0,
            TypeChoice::Helloworld => TypeChoiceView::Helloworld,
            TypeChoice::U64(x) => TypeChoiceView::U64(*x),
            TypeChoice::Text(t) => TypeChoiceView::Text(t@),
            TypeChoice::Bytes(b) => TypeChoiceView::Bytes(b@),
            TypeChoice::ArrU64(v) => TypeChoiceView::ArrU64(v@),
        }
    }
}

/// The tag number the array alternative carries.
pub open spec fn arr_u64_tag() -> u64 {
    16
}

/// The encoding of a type choice: each alternative keeps its own shape.
pub open spec fn ser_type_choice(v: TypeChoiceView) -> Seq<u8> {
    match v {
        TypeChoiceView::I0 => ser_uint(0, Sz::Inline),
        TypeChoiceView::Helloworld => ser_text(
            "hello world"@,
            min_sz(encode_utf8("hello world"@).len() as u64),
        ),
        TypeChoiceView::U64(x) => ser_uint(x, min_sz(x)),
        TypeChoiceView::Text(t) => ser_text(t, min_sz(encode_utf8(t).len() as u64)),
        TypeChoiceView::Bytes(b) => ser_bytes(b, min_sz(b.len() as u64)),
        TypeChoiceView::ArrU64(a) => ser_tag(arr_u64_tag(), min_sz(arr_u64_tag()))
            + ser_u64_list(a),
    }
}

/// The first alternative: the fixed literal 0. A type-correct value other
/// than 0 is a fixed-value mismatch, not a silent pass.
pub open spec fn parse_tc_i0(s: Seq<u8>) -> Result<(TypeChoiceView, int), ErrorView> {
    match parse_uint(s) {
        Err(e) => Err(from_cbor_err(e)),
        Ok(((x, _), n)) => {
            if x == 0 {
                Ok((TypeChoiceView::I0, n))
            } else {
                Err(bare_err(FailureView::FixedValueMismatch {
                    found: KeyView::Uint(x),
                    expected: KeyView::Uint(0),
                }))
            }
        },
    }
}

/// The second alternative: the fixed literal text "hello world".
pub open spec fn parse_tc_hello(s: Seq<u8>) -> Result<(TypeChoiceView, int), ErrorView> {
    match parse_text(s) {
        Err(e) => Err(from_cbor_err(e)),
        Ok(((t, _), n)) => {
            if t == "hello world"@ {
                Ok((TypeChoiceView::Helloworld, n))
            } else {
                Err(bare_err(FailureView::FixedValueMismatch {
                    found: KeyView::Str(t),
                    expected: KeyView::Str("hello world"@),
                }))
            }
        },
    }
}

/// The third alternative: any unsigned integer.
pub open spec fn parse_tc_u64(s: Seq<u8>) -> Result<(TypeChoiceView, int), ErrorView> {
    match parse_uint(s) {
        Err(e) => Err(from_cbor_err(e)),
        Ok(((x, _), n)) => Ok((TypeChoiceView::U64(x), n)),
    }
}

/// The fourth alternative: any text string.
pub open spec fn parse_tc_text(s: Seq<u8>) -> Result<(TypeChoiceView, int), ErrorView> {
    match parse_text(s) {
        Err(e) => Err(from_cbor_err(e)),
        Ok(((t, _), n)) => Ok((TypeChoiceView::Text(t), n)),
    }
}

/// The fifth alternative: any byte string.
pub open spec fn parse_tc_bytes(s: Seq<u8>) -> Result<(TypeChoiceView, int), ErrorView> {
    match parse_bytes(s) {
        Err(e) => Err(from_cbor_err(e)),
        Ok(((b, _), n)) => Ok((TypeChoiceView::Bytes(b), n)),
    }
}

/// The sixth alternative: a tag-wrapped array of unsigned integers.
pub open spec fn parse_tc_arr(s: Seq<u8>) -> Result<(TypeChoiceView, int), ErrorView> {
    match parse_tag(s) {
        Err(e) => Err(from_cbor_err(e)),
        Ok(((t, _sz), n0)) => {
            if t != arr_u64_tag() {
                Err(bare_err(FailureView::TagMismatch { found: t, expected: arr_u64_tag() }))
            } else {
                match parse_u64_list(s.skip(n0)) {
                    Err(e) => Err(e),
                    Ok((a, m)) => Ok((TypeChoiceView::ArrU64(a), n0 + m)),
                }
            }
        },
    }
}

/// The per-alternative causes when nothing matched, each under its
/// alternative's name, in declared order.
pub open spec fn tc_causes(s: Seq<u8>) -> Seq<ErrorView> {
    seq![
        annotated(parse_tc_i0(s)->Err_0, "I0"@),
        annotated(parse_tc_hello(s)->Err_0, "Helloworld"@),
        annotated(parse_tc_u64(s)->Err_0, "U64"@),
        annotated(parse_tc_text(s)->Err_0, "Text"@),
        annotated(parse_tc_bytes(s)->Err_0, "Bytes"@),
        annotated(parse_tc_arr(s)->Err_0, "ArrU64"@),
    ]
}

/// Parses a type choice: the alternatives are tried in declared order and
/// the first success wins; when every one fails, the failure aggregates one
/// cause per alternative.
#[verifier::opaque]
pub open spec fn parse_type_choice_inner(s: Seq<u8>) -> Result<(TypeChoiceView, int), ErrorView> {
    if parse_tc_i0(s) is Ok {
        parse_tc_i0(s)
    } else if parse_tc_hello(s) is Ok {
        parse_tc_hello(s)
    } else if parse_tc_u64(s) is Ok {
        parse_tc_u64(s)
    } else if parse_tc_text(s) is Ok {
        parse_tc_text(s)
    } else if parse_tc_bytes(s) is Ok {
        parse_tc_bytes(s)
    } else if parse_tc_arr(s) is Ok {
        parse_tc_arr(s)
    } else {
        Err(bare_err(FailureView::NoVariantMatchedWithCauses(tc_causes(s))))
    }
}

/// Parses a type choice; a failure carries the type's name.
pub open spec fn parse_type_choice(s: Seq<u8>) -> Result<(TypeChoiceView, int), ErrorView> {
    match parse_type_choice_inner(s) {
        Ok(r) => Ok(r),
        Err(e) => Err(annotated(e, "TypeChoice"@)),
    }
}

impl TypeChoice {
    /// Appends the encoding of the choice's active alternative.
    pub fn serialize(&self, out: &mut Vec<u8>)
        ensures
            final(out)@ == old(out)@ + ser_type_choice(self@),
    {
        match self {
            TypeChoice::I0 => write_head(out, 0, 0, Sz::Inline),
            TypeChoice::Helloworld => write_text(out, "hello world"),
            TypeChoice::U64(x) => write_uint(out, *x),
            TypeChoice::Text(t) => write_text(out, t.as_str()),
            TypeChoice::Bytes(b) => write_bytes(out, b.as_slice()),
            TypeChoice::ArrU64(a) => {
                write_tag(out, 16);
                write_u64_list(out, a);
                assert(final(out)@ =~= old(out)@ + ser_type_choice(self@));
            },
        }
    }

    /// The encoding of the choice.
    pub fn to_bytes(&self) -> (r: Vec<u8>)
        ensures
            r@ == ser_type_choice(self@),
    {
        let mut out: Vec<u8> = Vec::new();
        self.serialize(&mut out);
        out
    }

    fn try_i0(data: &[u8], pos: &mut usize) -> (r: Result<Self, DeserializeError>)
        requires
            *old(pos) <= data@.len(),
        ensures
            *final(pos) <= data@.len(),
            *old(pos) <= *final(pos),
            match parse_tc_i0(data@.skip(*old(pos) as int)) {
                Ok((v, n)) => r is Ok && r.unwrap()@ == v && *final(pos) == *old(pos) + n,
                Err(e) => r is Err && r.unwrap_err()@ == e && *final(pos) == *old(pos),
            },
    {
        let mut p = *pos;
        match read_uint(data, &mut p) {
            Err(e) => Err(DeserializeError::from(e)),
            Ok((x, _sz)) => {
                if x == 0 {
                    *pos = p;
                    Ok(TypeChoice::I0)
                } else {
                    Err(
                        DeserializeError::from(
                            DeserializeFailure::FixedValueMismatch {
                                found: Key::Uint(x),
                                expected: Key::Uint(0),
                            },
                        ),
                    )
                }
            },
        }
    }

    fn try_hello(data: &[u8], pos: &mut usize) -> (r: Result<Self, DeserializeError>)
        requires
            *old(pos) <= data@.len(),
        ensures
            *final(pos) <= data@.len(),
            *old(pos) <= *final(pos),
            match parse_tc_hello(data@.skip(*old(pos) as int)) {
                Ok((v, n)) => r is Ok && r.unwrap()@ == v && *final(pos) == *old(pos) + n,
                Err(e) => r is Err && r.unwrap_err()@ == e && *final(pos) == *old(pos),
            },
    {
        let mut p = *pos;
        match read_text(data, &mut p) {
            Err(e) => Err(DeserializeError::from(e)),
            Ok((t, _sz)) => {
                if str_eq(t.as_str(), "hello world") {
                    *pos = p;
                    Ok(TypeChoice::Helloworld)
                } else {
                    Err(
                        DeserializeError::from(
                            DeserializeFailure::FixedValueMismatch {
                                found: Key::Str(t),
                                expected: Key::Str("hello world".to_owned()),
                            },
                        ),
                    )
                }
            },
        }
    }

    fn try_u64(data: &[u8], pos: &mut usize) -> (r: Result<Self, DeserializeError>)
        requires
            *old(pos) <= data@.len(),
        ensures
            *final(pos) <= data@.len(),
            *old(pos) <= *final(pos),
            match parse_tc_u64(data@.skip(*old(pos) as int)) {
                Ok((v, n)) => r is Ok && r.unwrap()@ == v && *final(pos) == *old(pos) + n,
                Err(e) => r is Err && r.unwrap_err()@ == e && *final(pos) == *old(pos),
            },
    {
        let mut p = *pos;
        match read_uint(data, &mut p) {
            Err(e) => Err(DeserializeError::from(e)),
            Ok((x, _sz)) => {
                *pos = p;
                Ok(TypeChoice::U64(x))
            },
        }
    }

    fn try_text(data: &[u8], pos: &mut usize) -> (r: Result<Self, DeserializeError>)
        requires
            *old(pos) <= data@.len(),
        ensures
            *final(pos) <= data@.len(),
            *old(pos) <= *final(pos),
            match parse_tc_text(data@.skip(*old(pos) as int)) {
                Ok((v, n)) => r is Ok && r.unwrap()@ == v && *final(pos) == *old(pos) + n,
                Err(e) => r is Err && r.unwrap_err()@ == e && *final(pos) == *old(pos),
            },
    {
        let mut p = *pos;
        match read_text(data, &mut p) {
            Err(e) => Err(DeserializeError::from(e)),
            Ok((t, _sz)) => {
                *pos = p;
                Ok(TypeChoice::Text(t))
            },
        }
    }

    fn try_bytes(data: &[u8], pos: &mut usize) -> (r: Result<Self, DeserializeError>)
        requires
            *old(pos) <= data@.len(),
        ensures
            *final(pos) <= data@.len(),
            *old(pos) <= *final(pos),
            match parse_tc_bytes(data@.skip(*old(pos) as int)) {
                Ok((v, n)) => r is Ok && r.unwrap()@ == v && *final(pos) == *old(pos) + n,
                Err(e) => r is Err && r.unwrap_err()@ == e && *final(pos) == *old(pos),
            },
    {
        let mut p = *pos;
        match read_bytes(data, &mut p) {
            Err(e) => Err(DeserializeError::from(e)),
            Ok((b, _sz)) => {
                *pos = p;
                Ok(TypeChoice::Bytes(b))
            },
        }
    }

    fn try_arr(data: &[u8], pos: &mut usize) -> (r: Result<Self, DeserializeError>)
        requires
            *old(pos) <= data@.len(),
        ensures
            *final(pos) <= data@.len(),
            *old(pos) <= *final(pos),
            match parse_tc_arr(data@.skip(*old(pos) as int)) {
                Ok((v, n)) => r is Ok && r.unwrap()@ == v && *final(pos) == *old(pos) + n,
                Err(e) => r is Err && r.unwrap_err()@ == e && *final(pos) == *old(pos),
            },
    {
        let mut p = *pos;
        match read_tag(data, &mut p) {
            Err(e) => Err(DeserializeError::from(e)),
            Ok((t, _sz)) => {
                if t != 16 {
                    return Err(
                        DeserializeError::from(
                            DeserializeFailure::TagMismatch { found: t, expected: 16 },
                        ),
                    );
                }
                proof {
                    vstd::seq_lib::lemma_seq_skip_of_skip(data@, *old(pos) as int, p - *old(pos));
                }
                match read_u64_list(data, &mut p) {
                    Err(e) => Err(e),
                    Ok(a) => {
                        *pos = p;
                        Ok(TypeChoice::ArrU64(a))
                    },
                }
            },
        }
    }

    /// Reads a type choice: alternatives are tried in declared order from a
    /// saved cursor position, the first success wins, and a total mismatch
    /// aggregates every alternative's own failure in declared order.
    #[verifier::rlimit(100)]
    #[verifier::spinoff_prover]
    pub fn deserialize(data: &[u8], pos: &mut usize) -> (r: Result<Self, DeserializeError>)
        requires
            *old(pos) <= data@.len(),
        ensures
            *final(pos) <= data@.len(),
            *old(pos) <= *final(pos),
            match parse_type_choice(data@.skip(*old(pos) as int)) {
                Ok((v, n)) => {
                    &&& r is Ok
                    &&& r.unwrap()@ == v
                    &&& *final(pos) == *old(pos) + n
                },
                Err(e) => r is Err && r.unwrap_err()@ == e,
            },
    {
        proof {
            reveal(parse_type_choice_inner);
        }
        let e0 = match Self::try_i0(data, pos) {
            Ok(v) => {
                return Ok(v);
            },
            Err(e) => e,
        };
        let e1 = match Self::try_hello(data, pos) {
            Ok(v) => {
                return Ok(v);
            },
            Err(e) => e,
        };
        let e2 = match Self::try_u64(data, pos) {
            Ok(v) => {
                return Ok(v);
            },
            Err(e) => e,
        };
        let e3 = match Self::try_text(data, pos) {
            Ok(v) => {
                return Ok(v);
            },
            Err(e) => e,
        };
        let e4 = match Self::try_bytes(data, pos) {
            Ok(v) => {
                return Ok(v);
            },
            Err(e) => e,
        };
        let e5 = match Self::try_arr(data, pos) {
            Ok(v) => {
                return Ok(v);
            },
            Err(e) => e,
        };
        let mut causes: Vec<DeserializeError> = Vec::new();
        let c0 = e0.annotate("I0");
        let ghost a0 = c0@;
        causes.push(c0);
        let c1 = e1.annotate("Helloworld");
        let ghost a1 = c1@;
        causes.push(c1);
        let c2 = e2.annotate("U64");
        let ghost a2 = c2@;
        causes.push(c2);
        let c3 = e3.annotate("Text");
        let ghost a3 = c3@;
        causes.push(c3);
        let c4 = e4.annotate("Bytes");
        let ghost a4 = c4@;
        causes.push(c4);
        let c5 = e5.annotate("ArrU64");
        let ghost a5 = c5@;
        causes.push(c5);
        let r = DeserializeError::from(
            DeserializeFailure::NoVariantMatchedWithCauses(causes),
        );
        proof {
            let s = data@.skip(*old(pos) as int);
            let es = r.failure->NoVariantMatchedWithCauses_0;
            let cv = Seq::new(es@.len() as nat, |i: int| crate::error::cause_view_at(es, i));
            assert(es@.len() == 6);
            assert(cv[0] == a0 && cv[1] == a1 && cv[2] == a2 && cv[3] == a3 && cv[4] == a4 && cv[5]
                == a5);
            assert(cv =~= tc_causes(s));
            assert(crate::error::failure_view(r.failure)->NoVariantMatchedWithCauses_0 =~= tc_causes(
                s,
            ));
            assert(r@ == bare_err(FailureView::NoVariantMatchedWithCauses(tc_causes(s))));
        }
        Err(r.annotate("TypeChoice"))
    }

    /// Reads a type choice from the front of a byte stream.
    pub fn from_bytes(data: &[u8]) -> (r: Result<Self, DeserializeError>)
        ensures
            match parse_type_choice(data@) {
                Ok((v, n)) => r is Ok && r.unwrap()@ == v,
                Err(e) => r is Err && r.unwrap_err()@ == e,
            },
    {
        let mut pos: usize = 0;
        let r = Self::deserialize(data, &mut pos);
        proof {
            assert(data@.skip(0) =~= data@);
        }
        r
    }
}


/// The spec-level value of a [`GroupChoice1`].
pub struct GroupChoice1View {
    pub index_0: u64,
}

/// A named one-field group: a single unsigned integer in a one-element
/// array.
#[derive(Debug, Clone, PartialEq, Eq)]
pub struct GroupChoice1 {
    pub index_0: u64,
}

impl View for GroupChoice1 {
    type V = GroupChoice1View;

    open spec fn view(&self) -> GroupChoice1View {
        GroupChoice1View { index_0: self.index_0 }
    }
}

/// The encoding of the one-field group.
pub open spec fn ser_gc1(v: GroupChoice1View) -> Seq<u8> {
    ser_head(4, 1, Sz::Inline) + ser_uint(v.index_0, min_sz(v.index_0))
}

/// Parses the one-field group, without the outer type-name annotation.
pub open spec fn parse_gc1_inner(s: Seq<u8>) -> Result<(GroupChoice1View, int), ErrorView> {
    match parse_head(s) {
        Err(e) => Err(from_cbor_err(e)),
        Ok(((major, arg), hn)) => {
            if major != 4 {
                Err(from_cbor_err(CborError::Expected(CborType::Array, type_of_major(major))))
            } else {
                let indef = arg == HeadArg::Indefinite;
                let ok = match arg {
                    HeadArg::Definite(n, _sz) => n == 1,
                    HeadArg::Indefinite => true,
                };
                if !ok {
                    Err(bare_err(FailureView::DefiniteLenMismatch(arg->Definite_0, Some(1))))
                } else {
                    match parse_uint(s.skip(hn)) {
                        Err(e) => Err(annotated(from_cbor_err(e), "index_0"@)),
                        Ok(((x, _), n1)) => match parse_end(s.skip(hn + n1), indef) {
                            Err(e) => Err(e),
                            Ok(bn) => Ok((GroupChoice1View { index_0: x }, hn + n1 + bn)),
                        },
                    }
                }
            }
        },
    }
}

/// Parses the one-field group; a failure carries the type's name.
pub open spec fn parse_gc1(s: Seq<u8>) -> Result<(GroupChoice1View, int), ErrorView> {
    match parse_gc1_inner(s) {
        Ok(r) => Ok(r),
        Err(e) => Err(annotated(e, "GroupChoice1"@)),
    }
}

impl GroupChoice1 {
    /// Builds the group from its field.
    pub fn new(index_0: u64) -> (r: Self)
        ensures
            r@ == (GroupChoice1View { index_0: index_0 }),
    {
        GroupChoice1 { index_0 }
    }

    /// Appends the encoding of the group.
    pub fn serialize(&self, out: &mut Vec<u8>)
        ensures
            final(out)@ == old(out)@ + ser_gc1(self@),
    {
        write_head(out, 4, 1, Sz::Inline);
        write_uint(out, self.index_0);
        assert(final(out)@ =~= old(out)@ + ser_gc1(self@));
    }

    /// The encoding of the group.
    pub fn to_bytes(&self) -> (r: Vec<u8>)
        ensures
            r@ == ser_gc1(self@),
    {
        let mut out: Vec<u8> = Vec::new();
        self.serialize(&mut out);
        out
    }

    /// Reads the group from the stream.
    #[verifier::rlimit(100)]
    #[verifier::spinoff_prover]
    pub fn deserialize(data: &[u8], pos: &mut usize) -> (r: Result<Self, DeserializeError>)
        requires
            *old(pos) <= data@.len(),
        ensures
            *final(pos) <= data@.len(),
            *old(pos) <= *final(pos),
            r is Ok ==> *old(pos) < *final(pos),
            match parse_gc1(data@.skip(*old(pos) as int)) {
                Ok((v, n)) => {
                    &&& r is Ok
                    &&& r.unwrap()@ == v
                    &&& *final(pos) == *old(pos) + n
                },
                Err(e) => r is Err && r.unwrap_err()@ == e,
            },
    {
        let ghost s = data@.skip(*old(pos) as int);
        let mut p = *pos;
        let indef = match read_head(data, &mut p) {
            Err(e) => {
                return Err(DeserializeError::from(e).annotate("GroupChoice1"));
            },
            Ok((major, arg)) => {
                if major != 4 {
                    return Err(
                        DeserializeError::from(
                            CborError::Expected(CborType::Array, cbor_type_of(major)),
                        ).annotate("GroupChoice1"),
                    );
                }
                match arg {
                    HeadArg::Definite(n, _sz) => {
                        if n != 1 {
                            return Err(
                                DeserializeError::from(
                                    DeserializeFailure::DefiniteLenMismatch(n, Some(1)),
                                ).annotate("GroupChoice1"),
                            );
                        }
                        false
                    },
                    HeadArg::Indefinite => true,
                }
            },
        };
        proof {
            vstd::seq_lib::lemma_seq_skip_of_skip(data@, *old(pos) as int, p - *old(pos));
        }
        let x = match read_uint(data, &mut p) {
            Ok((v, _sz)) => v,
            Err(e) => {
                return Err(DeserializeError::from(e).annotate("index_0").annotate("GroupChoice1"));
            },
        };
        proof {
            vstd::seq_lib::lemma_seq_skip_of_skip(data@, *old(pos) as int, p - *old(pos));
        }
        match read_end(data, &mut p, indef) {
            Err(e) => {
                return Err(e.annotate("GroupChoice1"));
            },
            Ok(()) => {},
        }
        *pos = p;
        Ok(GroupChoice1 { index_0: x })
    }

    /// Reads the group from the front of a byte stream.
    pub fn from_bytes(data: &[u8]) -> (r: Result<Self, DeserializeError>)
        ensures
            match parse_gc1(data@) {
                Ok((v, n)) => r is Ok && r.unwrap()@ == v,
                Err(e) => r is Err && r.unwrap_err()@ == e,
            },
    {
        let mut pos: usize = 0;
        let r = Self::deserialize(data, &mut pos);
        proof {
            assert(data@.skip(0) =~= data@);
        }
        r
    }
}

/// The spec-level value of a [`GroupChoice`].
pub enum GroupChoiceView {
    Foo(crate::types::FooView),
    GroupChoice1(GroupChoice1View),
    Plain(PlainView),
}

/// A choice over field groups: an inline three-field group, a named
/// one-field group, and an alternative that aliases a standalone
/// tag-wrapped record inside a one-element array.
#[derive(Debug, Clone, PartialEq, Eq)]
pub enum GroupChoice {
    Foo(crate::types::Foo),
    GroupChoice1(GroupChoice1),
    Plain(Plain),
}

impl View for GroupChoice {
    type V = GroupChoiceView;

    open spec fn view(&self) -> GroupChoiceView {
        match self {
            GroupChoice::Foo(f) => GroupChoiceView::Foo(f@),
            GroupChoice::GroupChoice1(g) => GroupChoiceView::GroupChoice1(g@),
            GroupChoice::Plain(p) => GroupChoiceView::Plain(p@),
        }
    }
}

/// The encoding of a group choice: each alternative is one array.
pub open spec fn ser_group_choice(v: GroupChoiceView) -> Seq<u8> {
    match v {
        GroupChoiceView::Foo(f) => crate::types::ser_foo(f),
        GroupChoiceView::GroupChoice1(g) => ser_gc1(g),
        GroupChoiceView::Plain(p) => ser_head(4, 1, Sz::Inline) + ser_plain(p),
    }
}

/// The third alternative: a standalone plain inside a one-element array.
pub open spec fn parse_gc_plain(s: Seq<u8>) -> Result<(GroupChoiceView, int), ErrorView> {
    match parse_head(s) {
        Err(e) => Err(from_cbor_err(e)),
        Ok(((major, arg), hn)) => {
            if major != 4 {
                Err(from_cbor_err(CborError::Expected(CborType::Array, type_of_major(major))))
            } else {
                let indef = arg == HeadArg::Indefinite;
                let ok = match arg {
                    HeadArg::Definite(n, _sz) => n == 1,
                    HeadArg::Indefinite => true,
                };
                if !ok {
                    Err(bare_err(FailureView::DefiniteLenMismatch(arg->Definite_0, Some(1))))
                } else {
                    match parse_plain(s.skip(hn)) {
                        Err(e) => Err(e),
                        Ok((pv, n1)) => match parse_end(s.skip(hn + n1), indef) {
                            Err(e) => Err(e),
                            Ok(bn) => Ok((GroupChoiceView::Plain(pv), hn + n1 + bn)),
                        },
                    }
                }
            }
        },
    }
}

/// The per-alternative causes when no group alternative matched, in
/// declared order.
pub open spec fn gc_causes(s: Seq<u8>) -> Seq<ErrorView> {
    seq![
        crate::types::parse_foo(s)->Err_0,
        parse_gc1(s)->Err_0,
        parse_gc_plain(s)->Err_0,
    ]
}

/// Parses a group choice: alternatives in declared order, first match wins,
/// total mismatch aggregates one cause per alternative.
#[verifier::opaque]
pub open spec fn parse_group_choice_inner(s: Seq<u8>) -> Result<(GroupChoiceView, int), ErrorView> {
    if crate::types::parse_foo(s) is Ok {
        let r = crate::types::parse_foo(s)->Ok_0;
        Ok((GroupChoiceView::Foo(r.0), r.1))
    } else if parse_gc1(s) is Ok {
        let r = parse_gc1(s)->Ok_0;
        Ok((GroupChoiceView::GroupChoice1(r.0), r.1))
    } else if parse_gc_plain(s) is Ok {
        parse_gc_plain(s)
    } else {
        Err(bare_err(FailureView::NoVariantMatchedWithCauses(gc_causes(s))))
    }
}

/// Parses a group choice; a failure carries the type's name.
pub open spec fn parse_group_choice(s: Seq<u8>) -> Result<(GroupChoiceView, int), ErrorView> {
    match parse_group_choice_inner(s) {
        Ok(r) => Ok(r),
        Err(e) => Err(annotated(e, "GroupChoice"@)),
    }
}

impl GroupChoice {
    /// Builds the inline-group alternative from its fields.
    pub fn new_foo(id: u64, name: String, data: Vec<u8>) -> (r: Self)
        ensures
            r@ == GroupChoiceView::Foo(
                crate::types::FooView { id: id, name: name@, data: data@ },
            ),
    {
        GroupChoice::Foo(crate::types::Foo::new(id, name, data))
    }

    /// Appends the encoding of the choice's active alternative.
    pub fn serialize(&self, out: &mut Vec<u8>)
        ensures
            final(out)@ == old(out)@ + ser_group_choice(self@),
    {
        match self {
            GroupChoice::Foo(f) => f.serialize(out),
            GroupChoice::GroupChoice1(g) => g.serialize(out),
            GroupChoice::Plain(p) => {
                write_head(out, 4, 1, Sz::Inline);
                p.serialize(out);
                assert(final(out)@ =~= old(out)@ + ser_group_choice(self@));
            },
        }
    }

    /// The encoding of the choice.
    pub fn to_bytes(&self) -> (r: Vec<u8>)
        ensures
            r@ == ser_group_choice(self@),
    {
        let mut out: Vec<u8> = Vec::new();
        self.serialize(&mut out);
        out
    }

    fn try_plain(data: &[u8], pos: &mut usize) -> (r: Result<Self, DeserializeError>)
        requires
            *old(pos) <= data@.len(),
        ensures
            *final(pos) <= data@.len(),
            *old(pos) <= *final(pos),
            match parse_gc_plain(data@.skip(*old(pos) as int)) {
                Ok((v, n)) => r is Ok && r.unwrap()@ == v && *final(pos) == *old(pos) + n,
                Err(e) => r is Err && r.unwrap_err()@ == e && *final(pos) == *old(pos),
            },
    {
        let mut p = *pos;
        let indef = match read_head(data, &mut p) {
            Err(e) => {
                return Err(DeserializeError::from(e));
            },
            Ok((major, arg)) => {
                if major != 4 {
                    return Err(
                        DeserializeError::from(
                            CborError::Expected(CborType::Array, cbor_type_of(major)),
                        ),
                    );
                }
                match arg {
                    HeadArg::Definite(n, _sz) => {
                        if n != 1 {
                            return Err(
                                DeserializeError::from(
                                    DeserializeFailure::DefiniteLenMismatch(n, Some(1)),
                                ),
                            );
                        }
                        false
                    },
                    HeadArg::Indefinite => true,
                }
            },
        };
        proof {
            vstd::seq_lib::lemma_seq_skip_of_skip(data@, *old(pos) as int, p - *old(pos));
        }
        let pv = match Plain::deserialize(data, &mut p) {
            Ok(v) => v,
            Err(e) => {
                return Err(e);
            },
        };
        proof {
            vstd::seq_lib::lemma_seq_skip_of_skip(data@, *old(pos) as int, p - *old(pos));
        }
        match read_end(data, &mut p, indef) {
            Err(e) => {
                return Err(e);
            },
            Ok(()) => {},
        }
        *pos = p;
        Ok(GroupChoice::Plain(pv))
    }

    /// Reads a group choice: alternatives are tried in declared order from a
    /// saved cursor position, the first success wins, and a total mismatch
    /// aggregates every alternative's own failure in declared order.
    #[verifier::rlimit(100)]
    #[verifier::spinoff_prover]
    pub fn deserialize(data: &[u8], pos: &mut usize) -> (r: Result<Self, DeserializeError>)
        requires
            *old(pos) <= data@.len(),
        ensures
            *final(pos) <= data@.len(),
            *old(pos) <= *final(pos),
            match parse_group_choice(data@.skip(*old(pos) as int)) {
                Ok((v, n)) => {
                    &&& r is Ok
                    &&& r.unwrap()@ == v
                    &&& *final(pos) == *old(pos) + n
                },
                Err(e) => r is Err && r.unwrap_err()@ == e,
            },
    {
        proof {
            reveal(parse_group_choice_inner);
        }
        let mut p0 = *pos;
        let e0 = match crate::types::Foo::deserialize(data, &mut p0) {
            Ok(v) => {
                *pos = p0;
                return Ok(GroupChoice::Foo(v));
            },
            Err(e) => e,
        };
        let mut p1 = *pos;
        let e1 = match GroupChoice1::deserialize(data, &mut p1) {
            Ok(v) => {
                *pos = p1;
                return Ok(GroupChoice::GroupChoice1(v));
            },
            Err(e) => e,
        };
        let e2 = match Self::try_plain(data, pos) {
            Ok(v) => {
                return Ok(v);
            },
            Err(e) => e,
        };
        let mut causes: Vec<DeserializeError> = Vec::new();
        let ghost a0 = e0@;
        causes.push(e0);
        let ghost a1 = e1@;
        causes.push(e1);
        let ghost a2 = e2@;
        causes.push(e2);
        let r = DeserializeError::from(DeserializeFailure::NoVariantMatchedWithCauses(causes));
        proof {
            let s = data@.skip(*old(pos) as int);
            let es = r.failure->NoVariantMatchedWithCauses_0;
            let cv = Seq::new(es@.len() as nat, |i: int| crate::error::cause_view_at(es, i));
            assert(es@.len() == 3);
            assert(cv[0] == a0 && cv[1] == a1 && cv[2] == a2);
            assert(cv =~= gc_causes(s));
            assert(crate::error::failure_view(r.failure)->NoVariantMatchedWithCauses_0 =~= gc_causes(
                s,
            ));
            assert(r@ == bare_err(FailureView::NoVariantMatchedWithCauses(gc_causes(s))));
        }
        Err(r.annotate("GroupChoice"))
    }

    /// Reads a group choice from the front of a byte stream.
    pub fn from_bytes(data: &[u8]) -> (r: Result<Self, DeserializeError>)
        ensures
            match parse_group_choice(data@) {
                Ok((v, n)) => r is Ok && r.unwrap()@ == v,
                Err(e) => r is Err && r.unwrap_err()@ == e,
            },
    {
        let mut pos: usize = 0;
        let r = Self::deserialize(data, &mut pos);
        proof {
            assert(data@.skip(0) =~= data@);
        }
        r
    }
}


/// First match wins: when a byte sequence is structurally valid for the
/// earliest-declared alternative, the choice yields that alternative's
/// value, even though the sequence also matches the later general-integer
/// alternative.
pub proof fn lemma_type_choice_first_match(s: Seq<u8>)
    requires
        parse_tc_i0(s) is Ok,
    ensures
        parse_tc_u64(s) is Ok,
        parse_type_choice(s) == Ok::<_, ErrorView>(parse_tc_i0(s)->Ok_0),
{
    reveal(parse_type_choice_inner);
}

/// Aggregated failure on total mismatch: when every alternative fails, the
/// choice fails with one cause per alternative, in declared order, each
/// under its alternative's name.
pub proof fn lemma_type_choice_aggregates_causes(s: Seq<u8>)
    requires
        parse_tc_i0(s) is Err,
        parse_tc_hello(s) is Err,
        parse_tc_u64(s) is Err,
        parse_tc_text(s) is Err,
        parse_tc_bytes(s) is Err,
        parse_tc_arr(s) is Err,
    ensures
        parse_type_choice(s) == Err::<(TypeChoiceView, int), _>(
            annotated(
                bare_err(FailureView::NoVariantMatchedWithCauses(tc_causes(s))),
                "TypeChoice"@,
            ),
        ),
        tc_causes(s).len() == 6,
        tc_causes(s)[0] == annotated(parse_tc_i0(s)->Err_0, "I0"@),
        tc_causes(s)[1] == annotated(parse_tc_hello(s)->Err_0, "Helloworld"@),
        tc_causes(s)[2] == annotated(parse_tc_u64(s)->Err_0, "U64"@),
        tc_causes(s)[3] == annotated(parse_tc_text(s)->Err_0, "Text"@),
        tc_causes(s)[4] == annotated(parse_tc_bytes(s)->Err_0, "Bytes"@),
        tc_causes(s)[5] == annotated(parse_tc_arr(s)->Err_0, "ArrU64"@),
{
    reveal(parse_type_choice_inner);
}


/// Decoding the encoding of the one-field group gives it back.
#[verifier::rlimit(100)]
#[verifier::spinoff_prover]
pub proof fn lemma_gc1_round_trip(v: GroupChoice1View, rest: Seq<u8>)
    ensures
        parse_gc1(ser_gc1(v) + rest) == Ok::<_, ErrorView>((v, ser_gc1(v).len() as int)),
{
    let s = ser_gc1(v) + rest;
    let h = ser_head(4, 1, Sz::Inline);
    let u = ser_uint(v.index_0, min_sz(v.index_0));
    assert(s =~= h + (u + rest));
    crate::cbor::lemma_parse_ser_head(4, 1, Sz::Inline, u + rest);
    crate::cbor::lemma_skip_concat(h, u + rest);
    crate::cbor::lemma_parse_ser_uint(v.index_0, min_sz(v.index_0), rest);
    assert(ser_gc1(v).len() == 1 + u.len());
}

} // verus!
