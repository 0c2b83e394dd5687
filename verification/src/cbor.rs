//! Byte-level CBOR: encoding and decoding of data-item heads and primitive
//! items over a byte cursor, together with the spec-level serializers and
//! parsers that every schema-layer contract is stated against.
//!
//! A CBOR data item starts with a head: one byte holding a major type in its
//! upper three bits and additional information in its lower five, followed by
//! zero, one, two, four or eight argument bytes in big-endian order.

use crate::error::CborError;
use crate::error::CborType;
use crate::error::DeserializeError;
use crate::error::DeserializeFailure;
use crate::error::ErrorView;
use crate::error::FailureView;
use crate::error::bare_err;
use crate::error::from_cbor_err;
use vstd::prelude::*;
use vstd::string::StringSliceAdditionalSpecFns;
use vstd::utf8::decode_utf8;
use vstd::utf8::encode_utf8;
use vstd::utf8::encode_utf8_decode_utf8;
use vstd::utf8::encode_utf8_valid_utf8;
use vstd::utf8::valid_utf8;

verus! {

/// The width style of a head's argument: the additional information is either
/// the argument itself (below 24) or says how many bytes follow.
#[derive(Debug, Clone, Copy, PartialEq, Eq, Structural)]
pub enum Sz {
    Inline,
    One,
    Two,
    Four,
    Eight,
}

/// A decoded head argument: a definite value with the width style it was read
/// in, or the indefinite-length marker.
#[derive(Debug, Clone, Copy, PartialEq, Eq, Structural)]
pub enum HeadArg {
    Definite(u64, Sz),
    Indefinite,
}

/// How many argument bytes follow the first byte of a head.
pub open spec fn sz_arg_len(sz: Sz) -> nat {
    match sz {
        Sz::Inline => 0,
        Sz::One => 1,
        Sz::Two => 2,
        Sz::Four => 4,
        Sz::Eight => 8,
    }
}

/// The whole length of a head written with the given width style.
pub open spec fn head_len(sz: Sz) -> nat {
    1 + sz_arg_len(sz)
}

/// Whether the argument value can be written in the given width style.
pub open spec fn sz_fits(v: u64, sz: Sz) -> bool {
    match sz {
        Sz::Inline => v < 24,
        Sz::One => v <= 0xff,
        Sz::Two => v <= 0xffff,
        Sz::Four => v <= 0xffff_ffff,
        Sz::Eight => true,
    }
}

/// The minimal width style for a value: the one canonical form prescribes.
pub open spec fn min_sz(v: u64) -> Sz {
    if v < 24 {
        Sz::Inline
    } else if v <= 0xff {
        Sz::One
    } else if v <= 0xffff {
        Sz::Two
    } else if v <= 0xffff_ffff {
        Sz::Four
    } else {
        Sz::Eight
    }
}

/// The additional-information bits of a head's first byte.
pub open spec fn ai_of(v: u64, sz: Sz) -> u8 {
    match sz {
        Sz::Inline => v as u8,
        Sz::One => 24,
        Sz::Two => 25,
        Sz::Four => 26,
        Sz::Eight => 27,
    }
}

/// The argument bytes of a head, big-endian.
pub open spec fn ser_arg(v: u64, sz: Sz) -> Seq<u8> {
    match sz {
        Sz::Inline => seq![],
        Sz::One => seq![v as u8],
        Sz::Two => seq![(v >> 8) as u8, v as u8],
        Sz::Four => seq![(v >> 24) as u8, (v >> 16) as u8, (v >> 8) as u8, v as u8],
        Sz::Eight => seq![
            (v >> 56) as u8,
            (v >> 48) as u8,
            (v >> 40) as u8,
            (v >> 32) as u8,
            (v >> 24) as u8,
            (v >> 16) as u8,
            (v >> 8) as u8,
            v as u8,
        ],
    }
}

/// The encoding of a head with the given major type, argument and width style.
pub open spec fn ser_head(major: u8, v: u64, sz: Sz) -> Seq<u8> {
    seq![(major << 5) | ai_of(v, sz)] + ser_arg(v, sz)
}

/// The CBOR major type a head's upper three bits name.
pub open spec fn type_of_major(major: u8) -> CborType {
    if major == 0 {
        CborType::UnsignedInteger
    } else if major == 1 {
        CborType::NegativeInteger
    } else if major == 2 {
        CborType::Bytes
    } else if major == 3 {
        CborType::Text
    } else if major == 4 {
        CborType::Array
    } else if major == 5 {
        CborType::Mapping
    } else if major == 6 {
        CborType::Tag
    } else {
        CborType::Special
    }
}

/// Parses the head of the next data item: its major type and argument, and
/// how many bytes the head took.
pub open spec fn parse_head(s: Seq<u8>) -> Result<((u8, HeadArg), int), CborError> {
    if s.len() < 1 {
        Err(CborError::NotEnough(s.len() as u64, 1))
    } else {
        let major = s[0] >> 5;
        let ai = s[0] & 0x1f;
        if ai < 24 {
            Ok(((major, HeadArg::Definite(ai as u64, Sz::Inline)), 1))
        } else if ai == 24 {
            if s.len() < 2 {
                Err(CborError::NotEnough(s.len() as u64, 2))
            } else {
                Ok(((major, HeadArg::Definite(s[1] as u64, Sz::One)), 2))
            }
        } else if ai == 25 {
            if s.len() < 3 {
                Err(CborError::NotEnough(s.len() as u64, 3))
            } else {
                Ok(
                    (
                        (
                            major,
                            HeadArg::Definite(((s[1] as u64) << 8) | (s[2] as u64), Sz::Two),
                        ),
                        3,
                    ),
                )
            }
        } else if ai == 26 {
            if s.len() < 5 {
                Err(CborError::NotEnough(s.len() as u64, 5))
            } else {
                Ok(
                    (
                        (
                            major,
                            HeadArg::Definite(
                                ((s[1] as u64) << 24) | ((s[2] as u64) << 16) | ((s[3] as u64) << 8)
                                    | (s[4] as u64),
                                Sz::Four,
                            ),
                        ),
                        5,
                    ),
                )
            }
        } else if ai == 27 {
            if s.len() < 9 {
                Err(CborError::NotEnough(s.len() as u64, 9))
            } else {
                Ok(
                    (
                        (
                            major,
                            HeadArg::Definite(
                                ((s[1] as u64) << 56) | ((s[2] as u64) << 48) | ((s[3] as u64) << 40)
                                    | ((s[4] as u64) << 32) | ((s[5] as u64) << 24) | (
                                (s[6] as u64) << 16) | ((s[7] as u64) << 8) | (s[8] as u64),
                                Sz::Eight,
                            ),
                        ),
                        9,
                    ),
                )
            }
        } else if ai == 31 {
            Ok(((major, HeadArg::Indefinite), 1))
        } else {
            Err(CborError::UnknownAdditional(ai))
        }
    }
}

/// A head written with a fitting width style is read back exactly, whatever
/// follows it.
pub proof fn lemma_parse_ser_head(major: u8, v: u64, sz: Sz, rest: Seq<u8>)
    requires
        major < 8,
        sz_fits(v, sz),
    ensures
        parse_head(ser_head(major, v, sz) + rest) == Ok::<_, CborError>(
            ((major, HeadArg::Definite(v, sz)), head_len(sz) as int),
        ),
{
    let s = ser_head(major, v, sz) + rest;
    match sz {
        Sz::Inline => {
            let b = (major << 5) | ai_of(v, sz);
            assert(s[0] == b);
            assert(major < 8 && v < 24 ==> ((major << 5) | (v as u8)) >> 5 == major && ((major << 5)
                | (v as u8)) & 0x1f == v as u8 && (v as u8) < 24) by (bit_vector);
            assert((v as u8) as u64 == v);
        },
        Sz::One => {
            let b = (major << 5) | 24u8;
            assert(s[0] == b && s[1] == v as u8);
            assert(major < 8 ==> ((major << 5) | 24u8) >> 5 == major && ((major << 5) | 24u8) & 0x1f
                == 24) by (bit_vector);
            assert((v as u8) as u64 == v);
        },
        Sz::Two => {
            assert(s[0] == ((major << 5) | 25u8) && s[1] == (v >> 8) as u8 && s[2] == v as u8);
            assert(major < 8 ==> ((major << 5) | 25u8) >> 5 == major && ((major << 5) | 25u8) & 0x1f
                == 25) by (bit_vector);
            assert(v <= 0xffff ==> ((((v >> 8) as u8) as u64) << 8) | ((v as u8) as u64) == v)
                by (bit_vector);
        },
        Sz::Four => {
            assert(s[0] == ((major << 5) | 26u8) && s[1] == (v >> 24) as u8 && s[2] == (v >> 16) as u8
                && s[3] == (v >> 8) as u8 && s[4] == v as u8);
            assert(major < 8 ==> ((major << 5) | 26u8) >> 5 == major && ((major << 5) | 26u8) & 0x1f
                == 26) by (bit_vector);
            assert(v <= 0xffff_ffff ==> ((((v >> 24) as u8) as u64) << 24) | ((((v >> 16) as u8)
                as u64) << 16) | ((((v >> 8) as u8) as u64) << 8) | ((v as u8) as u64) == v)
                by (bit_vector);
        },
        Sz::Eight => {
            assert(s[0] == ((major << 5) | 27u8) && s[1] == (v >> 56) as u8 && s[2] == (v >> 48) as u8
                && s[3] == (v >> 40) as u8 && s[4] == (v >> 32) as u8 && s[5] == (v >> 24) as u8
                && s[6] == (v >> 16) as u8 && s[7] == (v >> 8) as u8 && s[8] == v as u8);
            assert(major < 8 ==> ((major << 5) | 27u8) >> 5 == major && ((major << 5) | 27u8) & 0x1f
                == 27) by (bit_vector);
            assert(((((v >> 56) as u8) as u64) << 56) | ((((v >> 48) as u8) as u64) << 48) | ((((v
                >> 40) as u8) as u64) << 40) | ((((v >> 32) as u8) as u64) << 32) | ((((v >> 24)
                as u8) as u64) << 24) | ((((v >> 16) as u8) as u64) << 16) | ((((v >> 8) as u8)
                as u64) << 8) | ((v as u8) as u64) == v) by (bit_vector);
        },
    }
}

/// Writes a head with the given width style.
pub fn write_head(out: &mut Vec<u8>, major: u8, v: u64, sz: Sz)
    requires
        major < 8,
        sz_fits(v, sz),
    ensures
        final(out)@ == old(out)@ + ser_head(major, v, sz),
{
    match sz {
        Sz::Inline => {
            out.push((major << 5) | (v as u8));
        },
        Sz::One => {
            out.push((major << 5) | 24u8);
            out.push(v as u8);
        },
        Sz::Two => {
            out.push((major << 5) | 25u8);
            out.push((v >> 8) as u8);
            out.push(v as u8);
        },
        Sz::Four => {
            out.push((major << 5) | 26u8);
            out.push((v >> 24) as u8);
            out.push((v >> 16) as u8);
            out.push((v >> 8) as u8);
            out.push(v as u8);
        },
        Sz::Eight => {
            out.push((major << 5) | 27u8);
            out.push((v >> 56) as u8);
            out.push((v >> 48) as u8);
            out.push((v >> 40) as u8);
            out.push((v >> 32) as u8);
            out.push((v >> 24) as u8);
            out.push((v >> 16) as u8);
            out.push((v >> 8) as u8);
            out.push(v as u8);
        },
    }
    assert(final(out)@ =~= old(out)@ + ser_head(major, v, sz));
}

/// Writes a head in the minimal width style for its argument.
pub fn write_head_min(out: &mut Vec<u8>, major: u8, v: u64)
    requires
        major < 8,
    ensures
        final(out)@ == old(out)@ + ser_head(major, v, min_sz(v)),
{
    if v < 24 {
        write_head(out, major, v, Sz::Inline);
    } else if v <= 0xff {
        write_head(out, major, v, Sz::One);
    } else if v <= 0xffff {
        write_head(out, major, v, Sz::Two);
    } else if v <= 0xffff_ffff {
        write_head(out, major, v, Sz::Four);
    } else {
        write_head(out, major, v, Sz::Eight);
    }
}

/// Reads the head of the next data item, advancing the cursor past it; on a
/// fault the cursor is left where it was.
pub fn read_head(data: &[u8], pos: &mut usize) -> (r: Result<(u8, HeadArg), CborError>)
    requires
        *old(pos) <= data@.len(),
    ensures
        *final(pos) <= data@.len(),
        match parse_head(data@.skip(*old(pos) as int)) {
            Ok((h, n)) => r == Ok::<_, CborError>(h) && *final(pos) == *old(pos) + n,
            Err(e) => r == Err::<(u8, HeadArg), _>(e) && *final(pos) == *old(pos),
        },
{
    let ghost s = data@.skip(*old(pos) as int);
    let rem = data.len() - *pos;
    if rem < 1 {
        return Err(CborError::NotEnough(rem as u64, 1));
    }
    let b = data[*pos];
    assert(b == s[0]);
    let major = b >> 5;
    let ai = b & 0x1f;
    assert(major < 8 && ai < 32) by (bit_vector)
        requires
            major == b >> 5 && ai == b & 0x1f,
    ;
    if ai < 24 {
        *pos += 1;
        Ok((major, HeadArg::Definite(ai as u64, Sz::Inline)))
    } else if ai == 24 {
        if rem < 2 {
            return Err(CborError::NotEnough(rem as u64, 2));
        }
        let v = data[*pos + 1] as u64;
        assert(v == s[1] as u64);
        *pos += 2;
        Ok((major, HeadArg::Definite(v, Sz::One)))
    } else if ai == 25 {
        if rem < 3 {
            return Err(CborError::NotEnough(rem as u64, 3));
        }
        let v = ((data[*pos + 1] as u64) << 8) | (data[*pos + 2] as u64);
        assert(v == ((s[1] as u64) << 8) | (s[2] as u64));
        *pos += 3;
        Ok((major, HeadArg::Definite(v, Sz::Two)))
    } else if ai == 26 {
        if rem < 5 {
            return Err(CborError::NotEnough(rem as u64, 5));
        }
        let v = ((data[*pos + 1] as u64) << 24) | ((data[*pos + 2] as u64) << 16) | ((data[*pos
            + 3] as u64) << 8) | (data[*pos + 4] as u64);
        assert(v == ((s[1] as u64) << 24) | ((s[2] as u64) << 16) | ((s[3] as u64) << 8) | (
        s[4] as u64));
        *pos += 5;
        Ok((major, HeadArg::Definite(v, Sz::Four)))
    } else if ai == 27 {
        if rem < 9 {
            return Err(CborError::NotEnough(rem as u64, 9));
        }
        let v = ((data[*pos + 1] as u64) << 56) | ((data[*pos + 2] as u64) << 48) | ((data[*pos
            + 3] as u64) << 40) | ((data[*pos + 4] as u64) << 32) | ((data[*pos + 5] as u64) << 24)
            | ((data[*pos + 6] as u64) << 16) | ((data[*pos + 7] as u64) << 8) | (data[*pos
            + 8] as u64);
        assert(v == ((s[1] as u64) << 56) | ((s[2] as u64) << 48) | ((s[3] as u64) << 40) | ((
        s[4] as u64) << 32) | ((s[5] as u64) << 24) | ((s[6] as u64) << 16) | ((s[7] as u64) << 8)
            | (s[8] as u64));
        *pos += 9;
        Ok((major, HeadArg::Definite(v, Sz::Eight)))
    } else if ai == 31 {
        *pos += 1;
        Ok((major, HeadArg::Indefinite))
    } else {
        Err(CborError::UnknownAdditional(ai))
    }
}

/// Skipping a leading piece of a concatenation leaves exactly the rest.
pub proof fn lemma_skip_concat<A>(a: Seq<A>, b: Seq<A>)
    ensures
        (a + b).skip(a.len() as int) == b,
{
    assert((a + b).skip(a.len() as int) =~= b);
}

/// The CBOR major type named by a head's upper three bits.
pub fn cbor_type_of(major: u8) -> (t: CborType)
    ensures
        t == type_of_major(major),
{
    if major == 0 {
        CborType::UnsignedInteger
    } else if major == 1 {
        CborType::NegativeInteger
    } else if major == 2 {
        CborType::Bytes
    } else if major == 3 {
        CborType::Text
    } else if major == 4 {
        CborType::Array
    } else if major == 5 {
        CborType::Mapping
    } else if major == 6 {
        CborType::Tag
    } else {
        CborType::Special
    }
}

/// Appends a slice's bytes to the output.
pub fn write_slice(out: &mut Vec<u8>, b: &[u8])
    ensures
        final(out)@ == old(out)@ + b@,
{
    let mut i: usize = 0;
    while i < b.len()
        invariant
            i <= b@.len(),
            out@ == old(out)@ + b@.subrange(0, i as int),
        decreases b@.len() - i,
    {
        out.push(b[i]);
        assert(out@ =~= old(out)@ + b@.subrange(0, i + 1));
        i += 1;
    }
    assert(final(out)@ =~= old(out)@ + b@);
}

/// Copies the next `n` bytes out of the stream, advancing the cursor.
pub fn read_chunk(data: &[u8], pos: &mut usize, n: usize) -> (r: Vec<u8>)
    requires
        *old(pos) + n <= data@.len(),
    ensures
        r@ == data@.subrange(*old(pos) as int, *old(pos) + n as int),
        *final(pos) == *old(pos) + n,
{
    proof {
        vstd::slice::axiom_spec_len(data);
    }
    let start = *pos;
    let mut v: Vec<u8> = Vec::new();
    let mut i: usize = 0;
    while i < n
        invariant
            i <= n,
            start + n <= data@.len(),
            data@.len() <= usize::MAX,
            v@ == data@.subrange(start as int, start + i as int),
        decreases n - i,
    {
        v.push(data[start + i]);
        assert(v@ =~= data@.subrange(start as int, start + (i + 1) as int));
        i += 1;
    }
    *pos = start + n;
    v
}

/// Relies on `String::from_utf8`: it succeeds exactly on valid UTF-8 input,
/// and the characters of the result are the UTF-8 decoding of the bytes.
#[verifier::external_body]
fn string_from_utf8(bytes: Vec<u8>) -> (r: Option<String>)
    ensures
        r is Some <==> valid_utf8(bytes@),
        r is Some ==> r.unwrap()@ == decode_utf8(bytes@),
{
    String::from_utf8(bytes).ok()
}

/// The encoding of an unsigned integer.
pub open spec fn ser_uint(v: u64, sz: Sz) -> Seq<u8> {
    ser_head(0, v, sz)
}

/// The encoding of a byte string.
pub open spec fn ser_bytes(b: Seq<u8>, sz: Sz) -> Seq<u8> {
    ser_head(2, b.len() as u64, sz) + b
}

/// The encoding of a text string: a head counting the UTF-8 bytes, then those
/// bytes.
pub open spec fn ser_text(t: Seq<char>, sz: Sz) -> Seq<u8> {
    ser_head(3, encode_utf8(t).len() as u64, sz) + encode_utf8(t)
}

/// The encoding of a tag head; the tagged item follows it.
pub open spec fn ser_tag(t: u64, sz: Sz) -> Seq<u8> {
    ser_head(6, t, sz)
}

/// The encoding of null.
pub open spec fn ser_null() -> Seq<u8> {
    ser_head(7, 22, Sz::Inline)
}

/// Parses an unsigned integer, yielding its value and the width style it was
/// written in.
pub open spec fn parse_uint(s: Seq<u8>) -> Result<((u64, Sz), int), CborError> {
    match parse_head(s) {
        Err(e) => Err(e),
        Ok(((major, arg), n)) => {
            if major != 0 {
                Err(CborError::Expected(CborType::UnsignedInteger, type_of_major(major)))
            } else {
                match arg {
                    HeadArg::Definite(v, sz) => Ok(((v, sz), n)),
                    HeadArg::Indefinite => Err(CborError::UnknownAdditional(31)),
                }
            }
        },
    }
}

/// Parses a byte string, yielding its content and the head's width style.
pub open spec fn parse_bytes(s: Seq<u8>) -> Result<((Seq<u8>, Sz), int), CborError> {
    match parse_head(s) {
        Err(e) => Err(e),
        Ok(((major, arg), hn)) => {
            if major != 2 {
                Err(CborError::Expected(CborType::Bytes, type_of_major(major)))
            } else {
                match arg {
                    HeadArg::Definite(n, sz) => {
                        if s.len() - hn < n {
                            Err(CborError::NotEnough((s.len() - hn) as u64, n))
                        } else {
                            Ok(((s.subrange(hn, hn + n), sz), hn + n))
                        }
                    },
                    HeadArg::Indefinite => Err(CborError::IndefiniteString),
                }
            }
        },
    }
}

/// Parses a text string, yielding its characters and the head's width style.
pub open spec fn parse_text(s: Seq<u8>) -> Result<((Seq<char>, Sz), int), CborError> {
    match parse_head(s) {
        Err(e) => Err(e),
        Ok(((major, arg), hn)) => {
            if major != 3 {
                Err(CborError::Expected(CborType::Text, type_of_major(major)))
            } else {
                match arg {
                    HeadArg::Definite(n, sz) => {
                        if s.len() - hn < n {
                            Err(CborError::NotEnough((s.len() - hn) as u64, n))
                        } else if valid_utf8(s.subrange(hn, hn + n)) {
                            Ok(((decode_utf8(s.subrange(hn, hn + n)), sz), hn + n))
                        } else {
                            Err(CborError::InvalidUtf8)
                        }
                    },
                    HeadArg::Indefinite => Err(CborError::IndefiniteString),
                }
            }
        },
    }
}

/// Parses a tag head, yielding the tag number and its width style; the tagged
/// item follows.
pub open spec fn parse_tag(s: Seq<u8>) -> Result<((u64, Sz), int), CborError> {
    match parse_head(s) {
        Err(e) => Err(e),
        Ok(((major, arg), n)) => {
            if major != 6 {
                Err(CborError::Expected(CborType::Tag, type_of_major(major)))
            } else {
                match arg {
                    HeadArg::Definite(v, sz) => Ok(((v, sz), n)),
                    HeadArg::Indefinite => Err(CborError::UnknownAdditional(31)),
                }
            }
        },
    }
}

/// Writes an unsigned integer in minimal width.
pub fn write_uint(out: &mut Vec<u8>, v: u64)
    ensures
        final(out)@ == old(out)@ + ser_uint(v, min_sz(v)),
{
    write_head_min(out, 0, v);
}

/// Writes a byte string in minimal head width.
pub fn write_bytes(out: &mut Vec<u8>, b: &[u8])
    ensures
        final(out)@ == old(out)@ + ser_bytes(b@, min_sz(b@.len() as u64)),
{
    write_head_min(out, 2, b.len() as u64);
    write_slice(out, b);
}

/// Writes a text string in minimal head width.
pub fn write_text(out: &mut Vec<u8>, t: &str)
    ensures
        final(out)@ == old(out)@ + ser_text(t@, min_sz(encode_utf8(t@).len() as u64)),
{
    let b = t.as_bytes();
    write_head_min(out, 3, b.len() as u64);
    write_slice(out, b);
}

/// Writes a tag head in minimal width.
pub fn write_tag(out: &mut Vec<u8>, t: u64)
    ensures
        final(out)@ == old(out)@ + ser_tag(t, min_sz(t)),
{
    write_head_min(out, 6, t);
}

/// Writes null.
pub fn write_null(out: &mut Vec<u8>)
    ensures
        final(out)@ == old(out)@ + ser_null(),
{
    write_head(out, 7, 22, Sz::Inline);
}

/// Reads an unsigned integer; on a fault the cursor is left where it was.
pub fn read_uint(data: &[u8], pos: &mut usize) -> (r: Result<(u64, Sz), CborError>)
    requires
        *old(pos) <= data@.len(),
    ensures
        *final(pos) <= data@.len(),
        match parse_uint(data@.skip(*old(pos) as int)) {
            Ok((v, n)) => r == Ok::<_, CborError>(v) && *final(pos) == *old(pos) + n,
            Err(e) => r == Err::<(u64, Sz), _>(e) && *final(pos) == *old(pos),
        },
{
    let mut p = *pos;
    match read_head(data, &mut p) {
        Err(e) => Err(e),
        Ok((major, arg)) => {
            if major != 0 {
                Err(CborError::Expected(CborType::UnsignedInteger, cbor_type_of(major)))
            } else {
                match arg {
                    HeadArg::Definite(v, sz) => {
                        *pos = p;
                        Ok((v, sz))
                    },
                    HeadArg::Indefinite => Err(CborError::UnknownAdditional(31)),
                }
            }
        },
    }
}

/// Reads a byte string; on a fault the cursor is left where it was.
pub fn read_bytes(data: &[u8], pos: &mut usize) -> (r: Result<(Vec<u8>, Sz), CborError>)
    requires
        *old(pos) <= data@.len(),
    ensures
        *final(pos) <= data@.len(),
        match parse_bytes(data@.skip(*old(pos) as int)) {
            Ok(((b, sz), n)) => {
                &&& r is Ok
                &&& r.unwrap().0@ == b
                &&& r.unwrap().1 == sz
                &&& *final(pos) == *old(pos) + n
            },
            Err(e) => r is Err && r.unwrap_err() == e && *final(pos) == *old(pos),
        },
{
    let mut p = *pos;
    match read_head(data, &mut p) {
        Err(e) => Err(e),
        Ok((major, arg)) => {
            if major != 2 {
                Err(CborError::Expected(CborType::Bytes, cbor_type_of(major)))
            } else {
                match arg {
                    HeadArg::Definite(n, sz) => {
                        let rem = data.len() - p;
                        if n > rem as u64 {
                            Err(CborError::NotEnough(rem as u64, n))
                        } else {
                            let b = read_chunk(data, &mut p, n as usize);
                            *pos = p;
                            Ok((b, sz))
                        }
                    },
                    HeadArg::Indefinite => Err(CborError::IndefiniteString),
                }
            }
        },
    }
}

/// Reads a text string; on a fault the cursor is left where it was.
pub fn read_text(data: &[u8], pos: &mut usize) -> (r: Result<(String, Sz), CborError>)
    requires
        *old(pos) <= data@.len(),
    ensures
        *final(pos) <= data@.len(),
        match parse_text(data@.skip(*old(pos) as int)) {
            Ok(((t, sz), n)) => {
                &&& r is Ok
                &&& r.unwrap().0@ == t
                &&& r.unwrap().1 == sz
                &&& *final(pos) == *old(pos) + n
            },
            Err(e) => r is Err && r.unwrap_err() == e && *final(pos) == *old(pos),
        },
{
    let mut p = *pos;
    match read_head(data, &mut p) {
        Err(e) => Err(e),
        Ok((major, arg)) => {
            if major != 3 {
                Err(CborError::Expected(CborType::Text, cbor_type_of(major)))
            } else {
                match arg {
                    HeadArg::Definite(n, sz) => {
                        let rem = data.len() - p;
                        if n > rem as u64 {
                            Err(CborError::NotEnough(rem as u64, n))
                        } else {
                            let b = read_chunk(data, &mut p, n as usize);
                            proof {
                                let s = data@.skip(*old(pos) as int);
                                let hn = p - n as usize - *old(pos);
                                assert(b@ =~= s.subrange(hn as int, hn + n as int));
                            }
                            match string_from_utf8(b) {
                                Some(t) => {
                                    *pos = p;
                                    Ok((t, sz))
                                },
                                None => Err(CborError::InvalidUtf8),
                            }
                        }
                    },
                    HeadArg::Indefinite => Err(CborError::IndefiniteString),
                }
            }
        },
    }
}

/// Reads a tag head; on a fault the cursor is left where it was.
pub fn read_tag(data: &[u8], pos: &mut usize) -> (r: Result<(u64, Sz), CborError>)
    requires
        *old(pos) <= data@.len(),
    ensures
        *final(pos) <= data@.len(),
        match parse_tag(data@.skip(*old(pos) as int)) {
            Ok((v, n)) => r == Ok::<_, CborError>(v) && *final(pos) == *old(pos) + n,
            Err(e) => r == Err::<(u64, Sz), _>(e) && *final(pos) == *old(pos),
        },
{
    let mut p = *pos;
    match read_head(data, &mut p) {
        Err(e) => Err(e),
        Ok((major, arg)) => {
            if major != 6 {
                Err(CborError::Expected(CborType::Tag, cbor_type_of(major)))
            } else {
                match arg {
                    HeadArg::Definite(v, sz) => {
                        *pos = p;
                        Ok((v, sz))
                    },
                    HeadArg::Indefinite => Err(CborError::UnknownAdditional(31)),
                }
            }
        },
    }
}

/// Parses the end of a sequence body: nothing for a definite-length
/// sequence, the break byte for an indefinite-length one, whose absence is a
/// missing-ending-break failure.
pub open spec fn parse_end(s: Seq<u8>, indef: bool) -> Result<int, ErrorView> {
    if indef {
        match parse_head(s) {
            Err(e) => Err(from_cbor_err(e)),
            Ok((h, bn)) => {
                if h == (7u8, HeadArg::Indefinite) {
                    Ok(bn)
                } else {
                    Err(bare_err(FailureView::EndingBreakMissing))
                }
            },
        }
    } else {
        Ok(0)
    }
}

/// Reads the end of a sequence body: the break byte when the sequence was
/// indefinite, nothing otherwise.
pub fn read_end(data: &[u8], pos: &mut usize, indef: bool) -> (r: Result<(), DeserializeError>)
    requires
        *old(pos) <= data@.len(),
    ensures
        *final(pos) <= data@.len(),
        match parse_end(data@.skip(*old(pos) as int), indef) {
            Ok(n) => r is Ok && *final(pos) == *old(pos) + n,
            Err(e) => r is Err && r.unwrap_err()@ == e,
        },
{
    if indef {
        let mut p = *pos;
        match read_head(data, &mut p) {
            Err(e) => Err(DeserializeError::from(e)),
            Ok((m, a)) => {
                if m == 7 && a == HeadArg::Indefinite {
                    *pos = p;
                    Ok(())
                } else {
                    Err(DeserializeError::from(DeserializeFailure::EndingBreakMissing))
                }
            },
        }
    } else {
        Ok(())
    }
}

/// Says whether the next head is the null marker, without moving the cursor.
pub fn peek_null(data: &[u8], pos: usize) -> (r: Result<bool, CborError>)
    requires
        pos <= data@.len(),
    ensures
        match parse_head(data@.skip(pos as int)) {
            Ok((h, n)) => r == Ok::<_, CborError>(
                h == (7u8, HeadArg::Definite(22, Sz::Inline)),
            ),
            Err(e) => r == Err::<bool, _>(e),
        },
{
    let mut p = pos;
    match read_head(data, &mut p) {
        Err(e) => Err(e),
        Ok((major, arg)) => Ok(
            major == 7 && arg == HeadArg::Definite(22, Sz::Inline),
        ),
    }
}

/// An unsigned integer written in minimal width is read back exactly.
pub proof fn lemma_parse_ser_uint(v: u64, sz: Sz, rest: Seq<u8>)
    requires
        sz_fits(v, sz),
    ensures
        parse_uint(ser_uint(v, sz) + rest) == Ok::<_, CborError>(
            ((v, sz), head_len(sz) as int),
        ),
{
    lemma_parse_ser_head(0, v, sz, rest);
}

/// A byte string written with a fitting head is read back exactly.
pub proof fn lemma_parse_ser_bytes(b: Seq<u8>, sz: Sz, rest: Seq<u8>)
    requires
        b.len() <= u64::MAX,
        sz_fits(b.len() as u64, sz),
    ensures
        parse_bytes(ser_bytes(b, sz) + rest) == Ok::<_, CborError>(
            ((b, sz), head_len(sz) + b.len() as int),
        ),
{
    let hn = head_len(sz) as int;
    let s = ser_bytes(b, sz) + rest;
    assert(ser_head(2, b.len() as u64, sz) + (b + rest) =~= s);
    lemma_parse_ser_head(2, b.len() as u64, sz, b + rest);
    assert(s.subrange(hn, hn + b.len()) =~= b);
}

/// A text string written with a fitting head is read back exactly.
pub proof fn lemma_parse_ser_text(t: Seq<char>, sz: Sz, rest: Seq<u8>)
    requires
        encode_utf8(t).len() <= u64::MAX,
        sz_fits(encode_utf8(t).len() as u64, sz),
    ensures
        parse_text(ser_text(t, sz) + rest) == Ok::<_, CborError>(
            ((t, sz), head_len(sz) + encode_utf8(t).len() as int),
        ),
{
    let b = encode_utf8(t);
    let hn = head_len(sz) as int;
    let s = ser_text(t, sz) + rest;
    assert(ser_head(3, b.len() as u64, sz) + (b + rest) =~= s);
    lemma_parse_ser_head(3, b.len() as u64, sz, b + rest);
    assert(s.subrange(hn, hn + b.len()) =~= b);
    encode_utf8_valid_utf8(t);
    encode_utf8_decode_utf8(t);
}

/// A tag head written with a fitting width is read back exactly.
pub proof fn lemma_parse_ser_tag(t: u64, sz: Sz, rest: Seq<u8>)
    requires
        sz_fits(t, sz),
    ensures
        parse_tag(ser_tag(t, sz) + rest) == Ok::<_, CborError>(
            ((t, sz), head_len(sz) as int),
        ),
{
    lemma_parse_ser_head(6, t, sz, rest);
}


/// The encoding of a list of items, each through `f`, in order.
pub open spec fn ser_list<T>(es: Seq<T>, f: spec_fn(T) -> Seq<u8>) -> Seq<u8>
    decreases es.len(),
{
    if es.len() == 0 {
        Seq::empty()
    } else {
        ser_list(es.drop_last(), f) + f(es.last())
    }
}

/// A non-empty list's encoding starts with its first item's encoding.
pub proof fn lemma_ser_list_front<T>(es: Seq<T>, f: spec_fn(T) -> Seq<u8>)
    requires
        es.len() > 0,
    ensures
        ser_list(es, f) == f(es[0]) + ser_list(es.drop_first(), f),
    decreases es.len(),
{
    if es.len() == 1 {
        assert(es.drop_last() =~= Seq::<T>::empty());
        assert(es.drop_first() =~= Seq::<T>::empty());
        assert(ser_list(es, f) =~= f(es[0]) + ser_list(es.drop_first(), f));
    } else {
        lemma_ser_list_front(es.drop_last(), f);
        assert(es.drop_last().drop_first() =~= es.drop_first().drop_last());
        assert(es.drop_last()[0] == es[0]);
        assert(es.drop_first().last() == es.last());
        assert(ser_list(es, f) == (f(es[0]) + ser_list(es.drop_first().drop_last(), f)) + f(
            es.last(),
        ));
        assert((f(es[0]) + ser_list(es.drop_first().drop_last(), f)) + f(es.last()) =~= f(es[0]) + (
        ser_list(es.drop_first().drop_last(), f) + f(es.last())));
    }
}

/// The length a step of a list parser advances by: the consumed count where
/// it is sane, one byte otherwise, so that recursion visibly shrinks the
/// stream.
pub open spec fn step_len(k: int, limit: int) -> int {
    if 1 <= k <= limit {
        k
    } else {
        1
    }
}

/// Compares two strings by their UTF-8 bytes.
pub fn str_eq(a: &str, b: &str) -> (r: bool)
    ensures
        r == (a@ == b@),
{
    let ab = a.as_bytes();
    let bb = b.as_bytes();
    proof {
        vstd::slice::axiom_spec_len(ab);
        encode_utf8_decode_utf8(a@);
        encode_utf8_decode_utf8(b@);
    }
    if ab.len() != bb.len() {
        return false;
    }
    let mut i: usize = 0;
    while i < ab.len()
        invariant
            i <= ab@.len(),
            ab@.len() == bb@.len(),
            ab@ == a.spec_bytes(),
            bb@ == b.spec_bytes(),
            ab@.subrange(0, i as int) == bb@.subrange(0, i as int),
        decreases ab@.len() - i,
    {
        if ab[i] != bb[i] {
            return false;
        }
        assert(ab@.subrange(0, i + 1) =~= bb@.subrange(0, i + 1));
        i += 1;
    }
    proof {
        assert(ab@ =~= ab@.subrange(0, ab@.len() as int));
        assert(bb@ =~= bb@.subrange(0, bb@.len() as int));
        assert(decode_utf8(a.spec_bytes()) == decode_utf8(b.spec_bytes()));
    }
    true
}

} // verus!
