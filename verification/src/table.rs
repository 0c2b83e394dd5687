//! Table and map-shaped records: a key-to-value table with enforced key
//! uniqueness, and struct records keyed by field name with required and
//! optional fields.

use crate::cbor::HeadArg;
use crate::cbor::Sz;
use crate::cbor::cbor_type_of;
use crate::cbor::lemma_parse_ser_head;
use crate::cbor::lemma_parse_ser_text;
use crate::cbor::lemma_ser_list_front;
use crate::cbor::lemma_skip_concat;
use crate::cbor::min_sz;
use crate::cbor::parse_head;
use crate::cbor::parse_text;
use crate::cbor::read_head;
use crate::cbor::read_text;
use crate::cbor::ser_head;
use crate::cbor::ser_list;
use crate::cbor::ser_text;
use crate::cbor::step_len;
use crate::cbor::str_eq;
use crate::cbor::type_of_major;
use crate::cbor::write_head_min;
use crate::cbor::write_text;
use crate::error::CborError;
use crate::error::CborType;
use crate::error::DeserializeError;
use crate::error::DeserializeFailure;
use crate::error::ErrorView;
use crate::error::FailureView;
use crate::error::Key;
use crate::error::KeyView;
use crate::error::annotated;
use crate::error::bare_err;
use crate::error::from_cbor_err;
use vstd::prelude::*;
use vstd::utf8::encode_utf8;

verus! {

/// The characters of a vector of owned string pairs.
pub open spec fn pairs_view(v: Seq<(String, String)>) -> Seq<(Seq<char>, Seq<char>)> {
    Seq::new(v.len(), |i: int| (v[i].0@, v[i].1@))
}

/// Whether some entry of the table carries the given key.
pub open spec fn map_contains_key(v: Seq<(Seq<char>, Seq<char>)>, k: Seq<char>) -> bool {
    exists|i: int| 0 <= i < v.len() && v[i].0 == k
}

/// Whether no two entries carry the same key.
pub open spec fn unique_keys(v: Seq<(Seq<char>, Seq<char>)>) -> bool {
    forall|i: int, j: int| 0 <= i < j < v.len() ==> (#[trigger] v[i]).0 != (#[trigger] v[j]).0
}

/// The bounds under which a table's entries can be encoded.
pub open spec fn wf_str_entries(v: Seq<(Seq<char>, Seq<char>)>) -> bool {
    forall|i: int|
        0 <= i < v.len() ==> encode_utf8((#[trigger] v[i]).0).len() <= u64::MAX && encode_utf8(
            v[i].1,
        ).len() <= u64::MAX
}

/// The encoding of one table entry: the key's text, then the value's text.
pub open spec fn ser_str_entry(e: (Seq<char>, Seq<char>)) -> Seq<u8> {
    ser_text(e.0, min_sz(encode_utf8(e.0).len() as u64)) + ser_text(
        e.1,
        min_sz(encode_utf8(e.1).len() as u64),
    )
}

/// The encoding of a table: a map head counting its entries, then the
/// entries in table order.
pub open spec fn ser_strmap(v: Seq<(Seq<char>, Seq<char>)>) -> Seq<u8> {
    ser_head(5, v.len() as u64, min_sz(v.len() as u64)) + ser_list(
        v,
        |e: (Seq<char>, Seq<char>)| ser_str_entry(e),
    )
}

/// Parses table entries, `rem` of them for a definite-length map or up to
/// the break for an indefinite one, on top of the entries already `seen`.
/// A key equal to one already seen is a duplicate-key failure; a key of any
/// major type but text is an unexpected-key-type failure; a break inside a
/// definite-length map is its own failure.
pub open spec fn parse_str_entries(
    s: Seq<u8>,
    rem: Option<u64>,
    seen: Seq<(Seq<char>, Seq<char>)>,
) -> Result<(Seq<(Seq<char>, Seq<char>)>, int), ErrorView>
    decreases s.len(),
{
    if rem == Some(0u64) {
        Ok((seen, 0))
    } else {
        match parse_head(s) {
            Err(e) => Err(from_cbor_err(e)),
            Ok(((major, arg), hn)) => {
                if major == 7 && arg == HeadArg::Indefinite {
                    if rem is Some {
                        Err(bare_err(FailureView::BreakInDefiniteLen))
                    } else {
                        Ok((seen, hn))
                    }
                } else if major != 3 {
                    Err(bare_err(FailureView::UnexpectedKeyType(type_of_major(major))))
                } else {
                    match parse_text(s) {
                        Err(e) => Err(from_cbor_err(e)),
                        Ok(((k, _), kn)) => {
                            if map_contains_key(seen, k) {
                                Err(bare_err(FailureView::DuplicateKey(KeyView::Str(k))))
                            } else {
                                match parse_text(s.skip(kn)) {
                                    Err(e) => Err(from_cbor_err(e)),
                                    Ok(((v, _), vn)) => {
                                        let k2 = step_len(kn + vn, s.len() as int);
                                        let rem2 = match rem {
                                            Some(n) => Some((n - 1) as u64),
                                            None => None,
                                        };
                                        match parse_str_entries(
                                            s.skip(k2),
                                            rem2,
                                            seen.push((k, v)),
                                        ) {
                                            Err(e) => Err(e),
                                            Ok((res, m)) => Ok((res, k2 + m)),
                                        }
                                    },
                                }
                            }
                        },
                    }
                }
            },
        }
    }
}

/// Parses a table, without the outer type-name annotation.
#[verifier::opaque]
pub open spec fn parse_strmap_inner(s: Seq<u8>) -> Result<
    (Seq<(Seq<char>, Seq<char>)>, int),
    ErrorView,
> {
    match parse_head(s) {
        Err(e) => Err(from_cbor_err(e)),
        Ok(((major, arg), hn)) => {
            if major != 5 {
                Err(from_cbor_err(CborError::Expected(CborType::Mapping, type_of_major(major))))
            } else {
                let rem = match arg {
                    HeadArg::Definite(n, _sz) => Some(n),
                    HeadArg::Indefinite => None,
                };
                match parse_str_entries(s.skip(hn), rem, Seq::empty()) {
                    Err(e) => Err(e),
                    Ok((es, m)) => Ok((es, hn + m)),
                }
            }
        },
    }
}

/// Parses a table; a failure anywhere inside carries the type's name.
pub open spec fn parse_strmap(s: Seq<u8>) -> Result<
    (Seq<(Seq<char>, Seq<char>)>, int),
    ErrorView,
> {
    match parse_strmap_inner(s) {
        Ok(r) => Ok(r),
        Err(e) => Err(annotated(e, "StrMap"@)),
    }
}

/// Whether a vector of string pairs holds the given key.
fn pairs_contains_key(v: &Vec<(String, String)>, k: &str) -> (r: bool)
    ensures
        r == map_contains_key(pairs_view(v@), k@),
{
    let mut i: usize = 0;
    while i < v.len()
        invariant
            i <= v@.len(),
            forall|j: int| 0 <= j < i ==> pairs_view(v@)[j].0 != k@,
        decreases v@.len() - i,
    {
        if str_eq(v[i].0.as_str(), k) {
            assert(pairs_view(v@)[i as int].0 == k@);
            return true;
        }
        i += 1;
    }
    false
}

/// A key-to-value table over text strings whose keys are unique; insertion
/// order is kept and is the encoding order.
#[derive(Debug, Clone, PartialEq, Eq)]
pub struct StrMap {
    entries: Vec<(String, String)>,
}

impl View for StrMap {
    type V = Seq<(Seq<char>, Seq<char>)>;

    closed spec fn view(&self) -> Seq<(Seq<char>, Seq<char>)> {
        pairs_view(self.entries@)
    }
}

impl StrMap {
    /// The empty table.
    pub fn new() -> (r: Self)
        ensures
            r@ == Seq::<(Seq<char>, Seq<char>)>::empty(),
    {
        let r = StrMap { entries: Vec::new() };
        proof {
            assert(r@ =~= Seq::<(Seq<char>, Seq<char>)>::empty());
        }
        r
    }

    /// How many entries the table holds.
    pub fn len(&self) -> (r: usize)
        ensures
            r == self@.len(),
    {
        self.entries.len()
    }

    /// Puts a value under a key: a key already present keeps its place and
    /// gets the new value, a new key goes to the end. Key uniqueness is
    /// preserved.
    pub fn insert(&mut self, key: String, value: String)
        ensures
            map_contains_key(old(self)@, key@) ==> exists|j: int|
                0 <= j < old(self)@.len() && old(self)@[j].0 == key@ && (forall|i: int|
                    0 <= i < j ==> old(self)@[i].0 != key@) && final(self)@ == old(self)@.update(
                    j,
                    (key@, value@),
                ),
            !map_contains_key(old(self)@, key@) ==> final(self)@ == old(self)@.push(
                (key@, value@),
            ),
            unique_keys(old(self)@) ==> unique_keys(final(self)@),
    {
        let ghost oldv = self@;
        let ghost k0 = key@;
        let ghost v0 = value@;
        let mut i: usize = 0;
        while i < self.entries.len()
            invariant
                i <= self.entries@.len(),
                oldv == old(self)@,
                self@ == oldv,
                k0 == key@,
                v0 == value@,
                forall|j: int| 0 <= j < i ==> oldv[j].0 != k0,
            decreases self.entries@.len() - i,
        {
            if str_eq(self.entries[i].0.as_str(), key.as_str()) {
                assert(oldv[i as int].0 == k0);
                self.entries.set(i, (key.clone(), value.clone()));
                proof {
                    assert(self@ =~= oldv.update(i as int, (k0, v0)));
                    assert(map_contains_key(oldv, k0));
                    assert((i as int) < oldv.len() && oldv[i as int].0 == k0 && (forall|q: int|
                        0 <= q < i as int ==> oldv[q].0 != k0) && self@ == oldv.update(
                        i as int,
                        (k0, v0),
                    ));
                    assert(exists|j: int|
                        0 <= j < oldv.len() && oldv[j].0 == k0 && (forall|q: int|
                            0 <= q < j ==> oldv[q].0 != k0) && self@ == oldv.update(
                            j,
                            (k0, v0),
                        ));
                    if unique_keys(oldv) {
                        assert forall|a: int, b: int| 0 <= a < b < self@.len() implies (
                        #[trigger] self@[a]).0 != (#[trigger] self@[b]).0 by {
                            assert(oldv[a].0 != oldv[b].0);
                            assert(a == i as int ==> self@[a].0 == k0 && oldv[a].0 == k0);
                            assert(b == i as int ==> self@[b].0 == k0 && oldv[b].0 == k0);
                        }
                    }
                }
                return ;
            }
            i += 1;
        }
        self.entries.push((key.clone(), value.clone()));
        proof {
            assert(self@ =~= oldv.push((k0, v0)));
            assert(!map_contains_key(oldv, k0));
            if unique_keys(oldv) {
                assert forall|a: int, b: int| 0 <= a < b < self@.len() implies (
                #[trigger] self@[a]).0 != (#[trigger] self@[b]).0 by {
                    if b < oldv.len() as int {
                        assert(oldv[a].0 != oldv[b].0);
                    } else {
                        assert(self@[b] == (key@, value@));
                        assert(!(oldv[a].0 == key@));
                    }
                }
            }
        }
    }

    /// Looks a key up, yielding a copy of its value when present.
    pub fn get(&self, key: &str) -> (r: Option<String>)
        ensures
            r is Some <==> map_contains_key(self@, key@),
            r is Some ==> exists|j: int|
                0 <= j < self@.len() && self@[j].0 == key@ && r.unwrap()@ == self@[j].1,
    {
        let mut i: usize = 0;
        while i < self.entries.len()
            invariant
                i <= self.entries@.len(),
                forall|j: int| 0 <= j < i ==> self@[j].0 != key@,
            decreases self.entries@.len() - i,
        {
            if str_eq(self.entries[i].0.as_str(), key) {
                assert(self@[i as int].0 == key@);
                return Some(self.entries[i].1.clone());
            }
            i += 1;
        }
        None
    }

    /// Whether the table holds the given key.
    pub fn contains_key(&self, key: &str) -> (r: bool)
        ensures
            r == map_contains_key(self@, key@),
    {
        pairs_contains_key(&self.entries, key)
    }

    /// Appends the encoding of the table: entries in table order.
    pub fn serialize(&self, out: &mut Vec<u8>)
        ensures
            final(out)@ == old(out)@ + ser_strmap(self@),
    {
        let ghost f = |e: (Seq<char>, Seq<char>)| ser_str_entry(e);
        write_head_min(out, 5, self.entries.len() as u64);
        let ghost base = out@;
        let mut i: usize = 0;
        while i < self.entries.len()
            invariant
                i <= self.entries@.len(),
                out@ == base + ser_list(self@.take(i as int), f),
                self@.len() == self.entries@.len(),
                f == (|e: (Seq<char>, Seq<char>)| ser_str_entry(e)),
            decreases self.entries@.len() - i,
    {
            write_text(out, self.entries[i].0.as_str());
            write_text(out, self.entries[i].1.as_str());
            proof {
                let tk = self@.take(i + 1);
                assert(tk.drop_last() =~= self@.take(i as int));
                assert(tk.last() == self@[i as int]);
                assert(out@ =~= base + ser_list(self@.take(i + 1), f));
            }
            i += 1;
        }
        proof {
            assert(self@.take(self@.len() as int) =~= self@);
            assert(final(out)@ =~= old(out)@ + ser_strmap(self@));
        }
    }

    /// The encoding of the table.
    pub fn to_bytes(&self) -> (r: Vec<u8>)
        ensures
            r@ == ser_strmap(self@),
    {
        let mut out: Vec<u8> = Vec::new();
        self.serialize(&mut out);
        out
    }

    #[verifier::rlimit(100)]
    #[verifier::spinoff_prover]
    fn deserialize_inner(data: &[u8], pos: &mut usize) -> (r: Result<Self, DeserializeError>)
        requires
            *old(pos) <= data@.len(),
        ensures
            *final(pos) <= data@.len(),
            *old(pos) <= *final(pos),
            r is Ok ==> *old(pos) < *final(pos),
            match parse_strmap_inner(data@.skip(*old(pos) as int)) {
                Ok((v, n)) => {
                    &&& r is Ok
                    &&& r.unwrap()@ == v
                    &&& unique_keys(r.unwrap()@)
                    &&& *final(pos) == *old(pos) + n
                },
                Err(e) => r is Err && r.unwrap_err()@ == e,
            },
    {
        proof {
            reveal(parse_strmap_inner);
        }
        let ghost s = data@.skip(*old(pos) as int);
        let mut p = *pos;
        let mut remaining: Option<u64> = match read_head(data, &mut p) {
            Err(e) => {
                return Err(DeserializeError::from(e));
            },
            Ok((major, arg)) => {
                if major != 5 {
                    return Err(
                        DeserializeError::from(
                            CborError::Expected(CborType::Mapping, cbor_type_of(major)),
                        ),
                    );
                }
                match arg {
                    HeadArg::Definite(n, _sz) => Some(n),
                    HeadArg::Indefinite => None,
                }
            },
        };
        let mut entries: Vec<(String, String)> = Vec::new();
        proof {
            assert(pairs_view(entries@) =~= Seq::<(Seq<char>, Seq<char>)>::empty());
            assert(data@.skip(p as int) =~= s.skip(p - *old(pos)));
        }
        loop
            invariant
                *pos == *old(pos),
                *old(pos) < p <= data@.len(),
                s == data@.skip(*old(pos) as int),
                s.len() == data@.len() - *old(pos),
                unique_keys(pairs_view(entries@)),
                parse_strmap_inner(s) == (match parse_str_entries(
                    s.skip(p - *old(pos)),
                    remaining,
                    pairs_view(entries@),
                ) {
                    Ok((res, m)) => Ok::<_, ErrorView>((res, (p - *old(pos)) + m)),
                    Err(e) => Err::<(Seq<(Seq<char>, Seq<char>)>, int), _>(e),
                }),
            decreases data@.len() - p, (match remaining {
                Some(n) => n as int + 1,
                None => 0,
            }),
        {
            let ghost p_it = p;
            let ghost seen_it = pairs_view(entries@);
            proof {
                assert(data@.skip(p as int) =~= s.skip(p - *old(pos)));
            }
            match remaining {
                Some(n) if n == 0 => {
                    *pos = p;
                    return Ok(StrMap { entries });
                },
                _ => {},
            }
            let mut p2 = p;
            match read_head(data, &mut p2) {
                Err(e) => {
                    return Err(DeserializeError::from(e));
                },
                Ok((major, arg)) => {
                    if major == 7 && arg == HeadArg::Indefinite {
                        match remaining {
                            Some(_) => {
                                return Err(
                                    DeserializeError::from(DeserializeFailure::BreakInDefiniteLen),
                                );
                            },
                            None => {
                                p = p2;
                                *pos = p;
                                return Ok(StrMap { entries });
                            },
                        }
                    }
                    if major != 3 {
                        return Err(
                            DeserializeError::from(
                                DeserializeFailure::UnexpectedKeyType(cbor_type_of(major)),
                            ),
                        );
                    }
                },
            }
            let k = match read_text(data, &mut p) {
                Ok((t, _sz)) => t,
                Err(e) => {
                    return Err(DeserializeError::from(e));
                },
            };
            if pairs_contains_key(&entries, k.as_str()) {
                return Err(DeserializeError::from(DeserializeFailure::DuplicateKey(Key::Str(k))));
            }
            let ghost p_k = p;
            proof {
                assert(data@.skip(p as int) =~= s.skip(p - *old(pos)));
                vstd::seq_lib::lemma_seq_skip_of_skip(s, p_it - *old(pos), p_k - p_it);
            }
            let v = match read_text(data, &mut p) {
                Ok((t, _sz)) => t,
                Err(e) => {
                    return Err(DeserializeError::from(e));
                },
            };
            let ghost kv = (k@, v@);
            entries.push((k, v));
            proof {
                assert(pairs_view(entries@) =~= seen_it.push(kv));
                assert(step_len(p - p_it, s.len() - (p_it - *old(pos))) == p - p_it);
                assert(data@.skip(p as int) =~= s.skip(p - *old(pos)));
                vstd::seq_lib::lemma_seq_skip_of_skip(s, p_it - *old(pos), p - p_it);
                assert forall|a: int, b: int|
                    0 <= a < b < pairs_view(entries@).len() implies (#[trigger] pairs_view(
                    entries@,
                )[a]).0 != (#[trigger] pairs_view(entries@)[b]).0 by {
                    if b < seen_it.len() as int {
                        assert(seen_it[a] == pairs_view(entries@)[a]);
                        assert(seen_it[b] == pairs_view(entries@)[b]);
                    } else {
                        assert(!map_contains_key(seen_it, kv.0));
                        assert(pairs_view(entries@)[b] == kv);
                    }
                }
            }
            match remaining {
                Some(n) => {
                    remaining = Some(n - 1);
                },
                None => {},
            }
        }
    }

    /// Reads a table from the stream, rejecting duplicate keys.
    pub fn deserialize(data: &[u8], pos: &mut usize) -> (r: Result<Self, DeserializeError>)
        requires
            *old(pos) <= data@.len(),
        ensures
            *final(pos) <= data@.len(),
            *old(pos) <= *final(pos),
            r is Ok ==> *old(pos) < *final(pos),
            match parse_strmap(data@.skip(*old(pos) as int)) {
                Ok((v, n)) => {
                    &&& r is Ok
                    &&& r.unwrap()@ == v
                    &&& unique_keys(r.unwrap()@)
                    &&& *final(pos) == *old(pos) + n
                },
                Err(e) => r is Err && r.unwrap_err()@ == e,
            },
    {
        match Self::deserialize_inner(data, pos) {
            Ok(x) => Ok(x),
            Err(e) => Err(e.annotate("StrMap")),
        }
    }

    /// Reads a table from the front of a byte stream.
    pub fn from_bytes(data: &[u8]) -> (r: Result<Self, DeserializeError>)
        ensures
            match parse_strmap(data@) {
                Ok((v, n)) => r is Ok && r.unwrap()@ == v && unique_keys(r.unwrap()@),
                Err(e) => r is Err && r.unwrap_err()@ == e,
            },
    {
        let mut pos: usize = 0;
        let r = Self::deserialize(data, &mut pos);
        proof {
            assert(data@.skip(0) =~= data@);
        }
        r
    }
}


/// The spec-level value of a [`Bar`].
pub struct BarView {
    pub foo: crate::types::FooView,
    pub derp: Option<u64>,
}

/// A struct record encoded as a map keyed by field name, with one required
/// and one optional field.
#[derive(Debug, Clone, PartialEq, Eq)]
pub struct Bar {
    pub foo: crate::types::Foo,
    pub derp: Option<u64>,
}

impl View for Bar {
    type V = BarView;

    open spec fn view(&self) -> BarView {
        BarView { foo: self.foo@, derp: self.derp }
    }
}

/// The bounds under which a [`BarView`] can be encoded.
pub open spec fn wf_bar(v: BarView) -> bool {
    crate::types::wf_foo(v.foo)
}

/// The encoding of a bar: a definite map holding the required field under
/// "foo" and, when present, the optional field under "derp", in declared
/// order.
pub open spec fn ser_bar(v: BarView) -> Seq<u8> {
    let count: u64 = if v.derp is Some {
        2
    } else {
        1
    };
    ser_head(5, count, Sz::Inline) + ser_text("foo"@, min_sz(encode_utf8("foo"@).len() as u64))
        + crate::types::ser_foo(v.foo) + (match v.derp {
        Some(d) => ser_text("derp"@, min_sz(encode_utf8("derp"@).len() as u64)) + crate::cbor::ser_uint(
            d,
            min_sz(d),
        ),
        None => Seq::empty(),
    })
}

/// Parses bar entries: keys may come in any order, a repeated key is a
/// duplicate-key failure, a key the schema does not declare is an
/// unknown-key failure, and a key of a major type other than text or
/// unsigned integer is an unexpected-key-type failure.
pub open spec fn parse_bar_entries(
    s: Seq<u8>,
    rem: Option<u64>,
    foo: Option<crate::types::FooView>,
    derp: Option<u64>,
) -> Result<((Option<crate::types::FooView>, Option<u64>), int), ErrorView>
    decreases s.len(),
{
    if rem == Some(0u64) {
        Ok(((foo, derp), 0))
    } else {
        match parse_head(s) {
            Err(e) => Err(from_cbor_err(e)),
            Ok(((major, arg), hn)) => {
                if major == 7 && arg == HeadArg::Indefinite {
                    if rem is Some {
                        Err(bare_err(FailureView::BreakInDefiniteLen))
                    } else {
                        Ok(((foo, derp), hn))
                    }
                } else if major == 0 {
                    match crate::cbor::parse_uint(s) {
                        Err(e) => Err(from_cbor_err(e)),
                        Ok(((ku, _), _)) => Err(bare_err(FailureView::UnknownKey(KeyView::Uint(ku)))),
                    }
                } else if major != 3 {
                    Err(bare_err(FailureView::UnexpectedKeyType(type_of_major(major))))
                } else {
                    match parse_text(s) {
                        Err(e) => Err(from_cbor_err(e)),
                        Ok(((k, _), kn)) => {
                            let rem2 = match rem {
                                Some(n) => Some((n - 1) as u64),
                                None => None,
                            };
                            if k == "foo"@ {
                                if foo is Some {
                                    Err(bare_err(FailureView::DuplicateKey(KeyView::Str(k))))
                                } else {
                                    match crate::types::parse_foo(s.skip(kn)) {
                                        Err(e) => Err(annotated(e, "foo"@)),
                                        Ok((fv, vn)) => {
                                            let k2 = step_len(kn + vn, s.len() as int);
                                            match parse_bar_entries(
                                                s.skip(k2),
                                                rem2,
                                                Some(fv),
                                                derp,
                                            ) {
                                                Err(e) => Err(e),
                                                Ok((res, m)) => Ok((res, k2 + m)),
                                            }
                                        },
                                    }
                                }
                            } else if k == "derp"@ {
                                if derp is Some {
                                    Err(bare_err(FailureView::DuplicateKey(KeyView::Str(k))))
                                } else {
                                    match crate::cbor::parse_uint(s.skip(kn)) {
                                        Err(e) => Err(annotated(from_cbor_err(e), "derp"@)),
                                        Ok(((d, _), vn)) => {
                                            let k2 = step_len(kn + vn, s.len() as int);
                                            match parse_bar_entries(
                                                s.skip(k2),
                                                rem2,
                                                foo,
                                                Some(d),
                                            ) {
                                                Err(e) => Err(e),
                                                Ok((res, m)) => Ok((res, k2 + m)),
                                            }
                                        },
                                    }
                                }
                            } else {
                                Err(bare_err(FailureView::UnknownKey(KeyView::Str(k))))
                            }
                        },
                    }
                }
            },
        }
    }
}

/// Parses a bar, without the outer type-name annotation: after the entries,
/// the required field must have been seen.
#[verifier::opaque]
pub open spec fn parse_bar_inner(s: Seq<u8>) -> Result<(BarView, int), ErrorView> {
    match parse_head(s) {
        Err(e) => Err(from_cbor_err(e)),
        Ok(((major, arg), hn)) => {
            if major != 5 {
                Err(from_cbor_err(CborError::Expected(CborType::Mapping, type_of_major(major))))
            } else {
                let rem = match arg {
                    HeadArg::Definite(n, _sz) => Some(n),
                    HeadArg::Indefinite => None,
                };
                match parse_bar_entries(s.skip(hn), rem, None, None) {
                    Err(e) => Err(e),
                    Ok(((foo, derp), m)) => match foo {
                        None => Err(bare_err(FailureView::MandatoryFieldMissing(KeyView::Str("foo"@)))),
                        Some(fv) => Ok((BarView { foo: fv, derp }, hn + m)),
                    },
                }
            }
        },
    }
}

/// Parses a bar; a failure anywhere inside carries the type's name.
pub open spec fn parse_bar(s: Seq<u8>) -> Result<(BarView, int), ErrorView> {
    match parse_bar_inner(s) {
        Ok(r) => Ok(r),
        Err(e) => Err(annotated(e, "Bar"@)),
    }
}

impl Bar {
    /// Builds a bar from its fields; an absent optional field stays absent.
    pub fn new(foo: crate::types::Foo, derp: Option<u64>) -> (r: Self)
        ensures
            r@ == (BarView { foo: foo@, derp: derp }),
    {
        Bar { foo, derp }
    }

    /// Appends the encoding of the bar.
    pub fn serialize(&self, out: &mut Vec<u8>)
        ensures
            final(out)@ == old(out)@ + ser_bar(self@),
    {
        match self.derp {
            Some(_) => crate::cbor::write_head(out, 5, 2, Sz::Inline),
            None => crate::cbor::write_head(out, 5, 1, Sz::Inline),
        }
        write_text(out, "foo");
        self.foo.serialize(out);
        match self.derp {
            Some(d) => {
                write_text(out, "derp");
                crate::cbor::write_uint(out, d);
            },
            None => {},
        }
        assert(final(out)@ =~= old(out)@ + ser_bar(self@));
    }

    /// The encoding of the bar.
    pub fn to_bytes(&self) -> (r: Vec<u8>)
        ensures
            r@ == ser_bar(self@),
    {
        let mut out: Vec<u8> = Vec::new();
        self.serialize(&mut out);
        out
    }

    #[verifier::rlimit(100)]
    #[verifier::spinoff_prover]
    fn deserialize_inner(data: &[u8], pos: &mut usize) -> (r: Result<Self, DeserializeError>)
        requires
            *old(pos) <= data@.len(),
        ensures
            *final(pos) <= data@.len(),
            *old(pos) <= *final(pos),
            r is Ok ==> *old(pos) < *final(pos),
            match parse_bar_inner(data@.skip(*old(pos) as int)) {
                Ok((v, n)) => {
                    &&& r is Ok
                    &&& r.unwrap()@ == v
                    &&& *final(pos) == *old(pos) + n
                },
                Err(e) => r is Err && r.unwrap_err()@ == e,
            },
    {
        proof {
            reveal(parse_bar_inner);
        }
        let ghost s = data@.skip(*old(pos) as int);
        let mut p = *pos;
        let mut remaining: Option<u64> = match read_head(data, &mut p) {
            Err(e) => {
                return Err(DeserializeError::from(e));
            },
            Ok((major, arg)) => {
                if major != 5 {
                    return Err(
                        DeserializeError::from(
                            CborError::Expected(CborType::Mapping, cbor_type_of(major)),
                        ),
                    );
                }
                match arg {
                    HeadArg::Definite(n, _sz) => Some(n),
                    HeadArg::Indefinite => None,
                }
            },
        };
        let mut foo_v: Option<crate::types::Foo> = None;
        let mut derp_v: Option<u64> = None;
        proof {
            assert(data@.skip(p as int) =~= s.skip(p - *old(pos)));
        }
        loop
            invariant
                *pos == *old(pos),
                *old(pos) < p <= data@.len(),
                s == data@.skip(*old(pos) as int),
                s.len() == data@.len() - *old(pos),
                foo_v is Some <==> spec_foo_opt(foo_v) is Some,
                parse_bar_inner(s) == (match parse_bar_entries(
                    s.skip(p - *old(pos)),
                    remaining,
                    spec_foo_opt(foo_v),
                    derp_v,
                ) {
                    Ok(((foo, derp), m)) => match foo {
                        None => Err(bare_err(FailureView::MandatoryFieldMissing(KeyView::Str(
                            "foo"@,
                        )))),
                        Some(fv) => Ok::<_, ErrorView>(
                            (BarView { foo: fv, derp }, (p - *old(pos)) + m),
                        ),
                    },
                    Err(e) => Err::<(BarView, int), _>(e),
                }),
            decreases data@.len() - p, (match remaining {
                Some(n) => n as int + 1,
                None => 0,
            }),
        {
            let ghost p_it = p;
            let ghost foo_it = spec_foo_opt(foo_v);
            let ghost derp_it = derp_v;
            proof {
                assert(data@.skip(p as int) =~= s.skip(p - *old(pos)));
            }
            match remaining {
                Some(n) if n == 0 => {
                    match foo_v {
                        None => {
                            return Err(
                                DeserializeError::from(
                                    DeserializeFailure::MandatoryFieldMissing(
                                        Key::Str("foo".to_owned()),
                                    ),
                                ),
                            );
                        },
                        Some(f) => {
                            *pos = p;
                            return Ok(Bar { foo: f, derp: derp_v });
                        },
                    }
                },
                _ => {},
            }
            let mut p2 = p;
            match read_head(data, &mut p2) {
                Err(e) => {
                    return Err(DeserializeError::from(e));
                },
                Ok((major, arg)) => {
                    if major == 7 && arg == HeadArg::Indefinite {
                        match remaining {
                            Some(_) => {
                                return Err(
                                    DeserializeError::from(DeserializeFailure::BreakInDefiniteLen),
                                );
                            },
                            None => {
                                match foo_v {
                                    None => {
                                        return Err(
                                            DeserializeError::from(
                                                DeserializeFailure::MandatoryFieldMissing(
                                                    Key::Str("foo".to_owned()),
                                                ),
                                            ),
                                        );
                                    },
                                    Some(f) => {
                                        p = p2;
                                        *pos = p;
                                        return Ok(Bar { foo: f, derp: derp_v });
                                    },
                                }
                            },
                        }
                    }
                    if major == 0 {
                        let mut p3 = p;
                        match crate::cbor::read_uint(data, &mut p3) {
                            Err(e) => {
                                return Err(DeserializeError::from(e));
                            },
                            Ok((ku, _sz)) => {
                                return Err(
                                    DeserializeError::from(
                                        DeserializeFailure::UnknownKey(Key::Uint(ku)),
                                    ),
                                );
                            },
                        }
                    }
                    if major != 3 {
                        return Err(
                            DeserializeError::from(
                                DeserializeFailure::UnexpectedKeyType(cbor_type_of(major)),
                            ),
                        );
                    }
                },
            }
            let k = match read_text(data, &mut p) {
                Ok((t, _sz)) => t,
                Err(e) => {
                    return Err(DeserializeError::from(e));
                },
            };
            let ghost p_k = p;
            proof {
                assert(data@.skip(p as int) =~= s.skip(p - *old(pos)));
                vstd::seq_lib::lemma_seq_skip_of_skip(s, p_it - *old(pos), p_k - p_it);
            }
            if str_eq(k.as_str(), "foo") {
                if foo_v.is_some() {
                    return Err(DeserializeError::from(DeserializeFailure::DuplicateKey(Key::Str(k))));
                }
                let f = match crate::types::Foo::deserialize(data, &mut p) {
                    Ok(v) => v,
                    Err(e) => {
                        return Err(e.annotate("foo"));
                    },
                };
                foo_v = Some(f);
            } else if str_eq(k.as_str(), "derp") {
                if derp_v.is_some() {
                    return Err(DeserializeError::from(DeserializeFailure::DuplicateKey(Key::Str(k))));
                }
                let d = match crate::cbor::read_uint(data, &mut p) {
                    Ok((v, _sz)) => v,
                    Err(e) => {
                        return Err(DeserializeError::from(e).annotate("derp"));
                    },
                };
                derp_v = Some(d);
            } else {
                return Err(DeserializeError::from(DeserializeFailure::UnknownKey(Key::Str(k))));
            }
            proof {
                assert(step_len(p - p_it, s.len() - (p_it - *old(pos))) == p - p_it);
                assert(data@.skip(p as int) =~= s.skip(p - *old(pos)));
                vstd::seq_lib::lemma_seq_skip_of_skip(s, p_it - *old(pos), p - p_it);
            }
            match remaining {
                Some(n) => {
                    remaining = Some(n - 1);
                },
                None => {},
            }
        }
    }

    /// Reads a bar from the stream: a missing required field is a
    /// mandatory-field failure naming it.
    pub fn deserialize(data: &[u8], pos: &mut usize) -> (r: Result<Self, DeserializeError>)
        requires
            *old(pos) <= data@.len(),
        ensures
            *final(pos) <= data@.len(),
            *old(pos) <= *final(pos),
            r is Ok ==> *old(pos) < *final(pos),
            match parse_bar(data@.skip(*old(pos) as int)) {
                Ok((v, n)) => {
                    &&& r is Ok
                    &&& r.unwrap()@ == v
                    &&& *final(pos) == *old(pos) + n
                },
                Err(e) => r is Err && r.unwrap_err()@ == e,
            },
    {
        match Self::deserialize_inner(data, pos) {
            Ok(x) => Ok(x),
            Err(e) => Err(e.annotate("Bar")),
        }
    }

    /// Reads a bar from the front of a byte stream.
    pub fn from_bytes(data: &[u8]) -> (r: Result<Self, DeserializeError>)
        ensures
            match parse_bar(data@) {
                Ok((v, n)) => r is Ok && r.unwrap()@ == v,
                Err(e) => r is Err && r.unwrap_err()@ == e,
            },
    {
        let mut pos: usize = 0;
        let r = Self::deserialize(data, &mut pos);
        proof {
            assert(data@.skip(0) =~= data@);
        }
        r
    }
}

/// The view of an optional decoded foo.
pub open spec fn spec_foo_opt(v: Option<crate::types::Foo>) -> Option<crate::types::FooView> {
    match v {
        Some(f) => Some(f@),
        None => None,
    }
}


/// The views of a vector of decoded foos.
pub open spec fn foo_vec_view(v: Seq<crate::types::Foo>) -> Seq<crate::types::FooView> {
    Seq::new(v.len(), |i: int| v[i]@)
}

/// The encoding of an array of unsigned integers, heads minimal.
pub open spec fn ser_u64_list(v: Seq<u64>) -> Seq<u8> {
    ser_head(4, v.len() as u64, min_sz(v.len() as u64)) + ser_list(
        v,
        |x: u64| crate::cbor::ser_uint(x, min_sz(x)),
    )
}

/// Parses array items that must be unsigned integers, on top of those
/// already read.
pub open spec fn parse_u64_items(s: Seq<u8>, rem: Option<u64>, acc: Seq<u64>) -> Result<
    (Seq<u64>, int),
    ErrorView,
>
    decreases s.len(),
{
    if rem == Some(0u64) {
        Ok((acc, 0))
    } else {
        match parse_head(s) {
            Err(e) => Err(from_cbor_err(e)),
            Ok(((major, arg), hn)) => {
                if major == 7 && arg == HeadArg::Indefinite {
                    if rem is Some {
                        Err(bare_err(FailureView::BreakInDefiniteLen))
                    } else {
                        Ok((acc, hn))
                    }
                } else {
                    match crate::cbor::parse_uint(s) {
                        Err(e) => Err(from_cbor_err(e)),
                        Ok(((x, _), n)) => {
                            let k2 = step_len(n, s.len() as int);
                            let rem2 = match rem {
                                Some(m) => Some((m - 1) as u64),
                                None => None,
                            };
                            match parse_u64_items(s.skip(k2), rem2, acc.push(x)) {
                                Err(e) => Err(e),
                                Ok((res, m)) => Ok((res, k2 + m)),
                            }
                        },
                    }
                }
            },
        }
    }
}

/// Parses an array of unsigned integers.
#[verifier::opaque]
pub open spec fn parse_u64_list(s: Seq<u8>) -> Result<(Seq<u64>, int), ErrorView> {
    match parse_head(s) {
        Err(e) => Err(from_cbor_err(e)),
        Ok(((major, arg), hn)) => {
            if major != 4 {
                Err(from_cbor_err(CborError::Expected(CborType::Array, type_of_major(major))))
            } else {
                let rem = match arg {
                    HeadArg::Definite(n, _sz) => Some(n),
                    HeadArg::Indefinite => None,
                };
                match parse_u64_items(s.skip(hn), rem, Seq::empty()) {
                    Err(e) => Err(e),
                    Ok((es, m)) => Ok((es, hn + m)),
                }
            }
        },
    }
}

/// Writes an array of unsigned integers.
pub fn write_u64_list(out: &mut Vec<u8>, v: &Vec<u64>)
    ensures
        final(out)@ == old(out)@ + ser_u64_list(v@),
{
    let ghost f = |x: u64| crate::cbor::ser_uint(x, min_sz(x));
    write_head_min(out, 4, v.len() as u64);
    let ghost base = out@;
    let mut i: usize = 0;
    while i < v.len()
        invariant
            i <= v@.len(),
            out@ == base + ser_list(v@.take(i as int), f),
            f == (|x: u64| crate::cbor::ser_uint(x, min_sz(x))),
        decreases v@.len() - i,
    {
        crate::cbor::write_uint(out, v[i]);
        proof {
            let tk = v@.take(i + 1);
            assert(tk.drop_last() =~= v@.take(i as int));
            assert(tk.last() == v@[i as int]);
            assert(out@ =~= base + ser_list(v@.take(i + 1), f));
        }
        i += 1;
    }
    proof {
        assert(v@.take(v@.len() as int) =~= v@);
        assert(final(out)@ =~= old(out)@ + ser_u64_list(v@));
    }
}

/// Reads an array of unsigned integers.
#[verifier::rlimit(100)]
#[verifier::spinoff_prover]
pub fn read_u64_list(data: &[u8], pos: &mut usize) -> (r: Result<Vec<u64>, DeserializeError>)
    requires
        *old(pos) <= data@.len(),
    ensures
        *final(pos) <= data@.len(),
        *old(pos) <= *final(pos),
        r is Ok ==> *old(pos) < *final(pos),
        match parse_u64_list(data@.skip(*old(pos) as int)) {
            Ok((v, n)) => {
                &&& r is Ok
                &&& r.unwrap()@ == v
                &&& *final(pos) == *old(pos) + n
            },
            Err(e) => r is Err && r.unwrap_err()@ == e,
        },
{
    proof {
        reveal(parse_u64_list);
    }
    let ghost s = data@.skip(*old(pos) as int);
    let mut p = *pos;
    let mut remaining: Option<u64> = match read_head(data, &mut p) {
        Err(e) => {
            return Err(DeserializeError::from(e));
        },
        Ok((major, arg)) => {
            if major != 4 {
                return Err(
                    DeserializeError::from(
                        CborError::Expected(CborType::Array, cbor_type_of(major)),
                    ),
                );
            }
            match arg {
                HeadArg::Definite(n, _sz) => Some(n),
                HeadArg::Indefinite => None,
            }
        },
    };
    let mut items: Vec<u64> = Vec::new();
    proof {
        assert(items@ =~= Seq::<u64>::empty());
        assert(data@.skip(p as int) =~= s.skip(p - *old(pos)));
    }
    loop
        invariant
            *pos == *old(pos),
            *old(pos) < p <= data@.len(),
            s == data@.skip(*old(pos) as int),
            s.len() == data@.len() - *old(pos),
            parse_u64_list(s) == (match parse_u64_items(
                s.skip(p - *old(pos)),
                remaining,
                items@,
            ) {
                Ok((res, m)) => Ok::<_, ErrorView>((res, (p - *old(pos)) + m)),
                Err(e) => Err::<(Seq<u64>, int), _>(e),
            }),
        decreases data@.len() - p, (match remaining {
            Some(n) => n as int + 1,
            None => 0,
        }),
    {
        let ghost p_it = p;
        proof {
            assert(data@.skip(p as int) =~= s.skip(p - *old(pos)));
        }
        match remaining {
            Some(n) if n == 0 => {
                *pos = p;
                return Ok(items);
            },
            _ => {},
        }
        let mut p2 = p;
        match read_head(data, &mut p2) {
            Err(e) => {
                return Err(DeserializeError::from(e));
            },
            Ok((major, arg)) => {
                if major == 7 && arg == HeadArg::Indefinite {
                    match remaining {
                        Some(_) => {
                            return Err(
                                DeserializeError::from(DeserializeFailure::BreakInDefiniteLen),
                            );
                        },
                        None => {
                            p = p2;
                            *pos = p;
                            return Ok(items);
                        },
                    }
                }
            },
        }
        let x = match crate::cbor::read_uint(data, &mut p) {
            Ok((v, _sz)) => v,
            Err(e) => {
                return Err(DeserializeError::from(e));
            },
        };
        items.push(x);
        proof {
            assert(step_len(p - p_it, s.len() - (p_it - *old(pos))) == p - p_it);
            assert(data@.skip(p as int) =~= s.skip(p - *old(pos)));
            vstd::seq_lib::lemma_seq_skip_of_skip(s, p_it - *old(pos), p - p_it);
        }
        match remaining {
            Some(n) => {
                remaining = Some(n - 1);
            },
            None => {},
        }
    }
}

/// The encoding of an array of foos.
pub open spec fn ser_foo_list(v: Seq<crate::types::FooView>) -> Seq<u8> {
    ser_head(4, v.len() as u64, min_sz(v.len() as u64)) + ser_list(
        v,
        |f: crate::types::FooView| crate::types::ser_foo(f),
    )
}

/// Parses array items that must each be a foo, on top of those already read.
pub open spec fn parse_foo_items(
    s: Seq<u8>,
    rem: Option<u64>,
    acc: Seq<crate::types::FooView>,
) -> Result<(Seq<crate::types::FooView>, int), ErrorView>
    decreases s.len(),
{
    if rem == Some(0u64) {
        Ok((acc, 0))
    } else {
        match parse_head(s) {
            Err(e) => Err(from_cbor_err(e)),
            Ok(((major, arg), hn)) => {
                if major == 7 && arg == HeadArg::Indefinite {
                    if rem is Some {
                        Err(bare_err(FailureView::BreakInDefiniteLen))
                    } else {
                        Ok((acc, hn))
                    }
                } else {
                    match crate::types::parse_foo(s) {
                        Err(e) => Err(e),
                        Ok((fv, n)) => {
                            let k2 = step_len(n, s.len() as int);
                            let rem2 = match rem {
                                Some(m) => Some((m - 1) as u64),
                                None => None,
                            };
                            match parse_foo_items(s.skip(k2), rem2, acc.push(fv)) {
                                Err(e) => Err(e),
                                Ok((res, m)) => Ok((res, k2 + m)),
                            }
                        },
                    }
                }
            },
        }
    }
}

/// Parses an array of foos.
#[verifier::opaque]
pub open spec fn parse_foo_list(s: Seq<u8>) -> Result<(Seq<crate::types::FooView>, int), ErrorView> {
    match parse_head(s) {
        Err(e) => Err(from_cbor_err(e)),
        Ok(((major, arg), hn)) => {
            if major != 4 {
                Err(from_cbor_err(CborError::Expected(CborType::Array, type_of_major(major))))
            } else {
                let rem = match arg {
                    HeadArg::Definite(n, _sz) => Some(n),
                    HeadArg::Indefinite => None,
                };
                match parse_foo_items(s.skip(hn), rem, Seq::empty()) {
                    Err(e) => Err(e),
                    Ok((es, m)) => Ok((es, hn + m)),
                }
            }
        },
    }
}

/// Writes an array of foos.
pub fn write_foo_list(out: &mut Vec<u8>, v: &Vec<crate::types::Foo>)
    ensures
        final(out)@ == old(out)@ + ser_foo_list(foo_vec_view(v@)),
{
    let ghost f = |fv: crate::types::FooView| crate::types::ser_foo(fv);
    write_head_min(out, 4, v.len() as u64);
    let ghost base = out@;
    let mut i: usize = 0;
    while i < v.len()
        invariant
            i <= v@.len(),
            out@ == base + ser_list(foo_vec_view(v@).take(i as int), f),
            f == (|fv: crate::types::FooView| crate::types::ser_foo(fv)),
        decreases v@.len() - i,
    {
        v[i].serialize(out);
        proof {
            let tk = foo_vec_view(v@).take(i + 1);
            assert(tk.drop_last() =~= foo_vec_view(v@).take(i as int));
            assert(tk.last() == v@[i as int]@);
            assert(out@ =~= base + ser_list(foo_vec_view(v@).take(i + 1), f));
        }
        i += 1;
    }
    proof {
        assert(foo_vec_view(v@).take(foo_vec_view(v@).len() as int) =~= foo_vec_view(v@));
        assert(final(out)@ =~= old(out)@ + ser_foo_list(foo_vec_view(v@)));
    }
}

/// Reads an array of foos.
#[verifier::rlimit(100)]
#[verifier::spinoff_prover]
pub fn read_foo_list(data: &[u8], pos: &mut usize) -> (r: Result<
    Vec<crate::types::Foo>,
    DeserializeError,
>)
    requires
        *old(pos) <= data@.len(),
    ensures
        *final(pos) <= data@.len(),
        *old(pos) <= *final(pos),
        r is Ok ==> *old(pos) < *final(pos),
        match parse_foo_list(data@.skip(*old(pos) as int)) {
            Ok((v, n)) => {
                &&& r is Ok
                &&& foo_vec_view(r.unwrap()@) == v
                &&& *final(pos) == *old(pos) + n
            },
            Err(e) => r is Err && r.unwrap_err()@ == e,
        },
{
    proof {
        reveal(parse_foo_list);
    }
    let ghost s = data@.skip(*old(pos) as int);
    let mut p = *pos;
    let mut remaining: Option<u64> = match read_head(data, &mut p) {
        Err(e) => {
            return Err(DeserializeError::from(e));
        },
        Ok((major, arg)) => {
            if major != 4 {
                return Err(
                    DeserializeError::from(
                        CborError::Expected(CborType::Array, cbor_type_of(major)),
                    ),
                );
            }
            match arg {
                HeadArg::Definite(n, _sz) => Some(n),
                HeadArg::Indefinite => None,
            }
        },
    };
    let mut items: Vec<crate::types::Foo> = Vec::new();
    proof {
        assert(foo_vec_view(items@) =~= Seq::<crate::types::FooView>::empty());
        assert(data@.skip(p as int) =~= s.skip(p - *old(pos)));
    }
    loop
        invariant
            *pos == *old(pos),
            *old(pos) < p <= data@.len(),
            s == data@.skip(*old(pos) as int),
            s.len() == data@.len() - *old(pos),
            parse_foo_list(s) == (match parse_foo_items(
                s.skip(p - *old(pos)),
                remaining,
                foo_vec_view(items@),
            ) {
                Ok((res, m)) => Ok::<_, ErrorView>((res, (p - *old(pos)) + m)),
                Err(e) => Err::<(Seq<crate::types::FooView>, int), _>(e),
            }),
        decreases data@.len() - p, (match remaining {
            Some(n) => n as int + 1,
            None => 0,
        }),
    {
        let ghost p_it = p;
        let ghost acc_it = foo_vec_view(items@);
        proof {
            assert(data@.skip(p as int) =~= s.skip(p - *old(pos)));
        }
        match remaining {
            Some(n) if n == 0 => {
                *pos = p;
                return Ok(items);
            },
            _ => {},
        }
        let mut p2 = p;
        match read_head(data, &mut p2) {
            Err(e) => {
                return Err(DeserializeError::from(e));
            },
            Ok((major, arg)) => {
                if major == 7 && arg == HeadArg::Indefinite {
                    match remaining {
                        Some(_) => {
                            return Err(
                                DeserializeError::from(DeserializeFailure::BreakInDefiniteLen),
                            );
                        },
                        None => {
                            p = p2;
                            *pos = p;
                            return Ok(items);
                        },
                    }
                }
            },
        }
        let x = match crate::types::Foo::deserialize(data, &mut p) {
            Ok(v) => v,
            Err(e) => {
                return Err(e);
            },
        };
        items.push(x);
        proof {
            assert(foo_vec_view(items@) =~= acc_it.push(x@));
            assert(step_len(p - p_it, s.len() - (p_it - *old(pos))) == p - p_it);
            assert(data@.skip(p as int) =~= s.skip(p - *old(pos)));
            vstd::seq_lib::lemma_seq_skip_of_skip(s, p_it - *old(pos), p - p_it);
        }
        match remaining {
            Some(n) => {
                remaining = Some(n - 1);
            },
            None => {},
        }
    }
}


/// The spec-level value of a [`TableArrMembers`].
pub struct TableArrMembersView {
    pub tab: Seq<(Seq<char>, Seq<char>)>,
    pub arr: Seq<u64>,
    pub arr2: Seq<crate::types::FooView>,
}

/// A struct record whose fields are a table and two arrays, encoded as a
/// map keyed by field name with all three fields required.
#[derive(Debug, Clone, PartialEq, Eq)]
pub struct TableArrMembers {
    pub tab: StrMap,
    pub arr: Vec<u64>,
    pub arr2: Vec<crate::types::Foo>,
}

impl View for TableArrMembers {
    type V = TableArrMembersView;

    open spec fn view(&self) -> TableArrMembersView {
        TableArrMembersView { tab: self.tab@, arr: self.arr@, arr2: foo_vec_view(self.arr2@) }
    }
}

/// The view of an optional decoded table.
pub open spec fn spec_tab_opt(v: Option<StrMap>) -> Option<Seq<(Seq<char>, Seq<char>)>> {
    match v {
        Some(t) => Some(t@),
        None => None,
    }
}

/// The view of an optional decoded integer array.
pub open spec fn spec_arr_opt(v: Option<Vec<u64>>) -> Option<Seq<u64>> {
    match v {
        Some(t) => Some(t@),
        None => None,
    }
}

/// The view of an optional decoded foo array.
pub open spec fn spec_arr2_opt(v: Option<Vec<crate::types::Foo>>) -> Option<
    Seq<crate::types::FooView>,
> {
    match v {
        Some(t) => Some(foo_vec_view(t@)),
        None => None,
    }
}

/// The encoding of a table-and-arrays record: a definite map with its three
/// fields in declared order.
pub open spec fn ser_tam(v: TableArrMembersView) -> Seq<u8> {
    ser_head(5, 3, Sz::Inline) + ser_text("tab"@, min_sz(encode_utf8("tab"@).len() as u64))
        + ser_strmap(v.tab) + ser_text("arr"@, min_sz(encode_utf8("arr"@).len() as u64))
        + ser_u64_list(v.arr) + ser_text("arr2"@, min_sz(encode_utf8("arr2"@).len() as u64))
        + ser_foo_list(v.arr2)
}

/// Parses table-and-arrays entries: keys may come in any order, a repeated
/// key is a duplicate-key failure, an undeclared key an unknown-key failure.
pub open spec fn parse_tam_entries(
    s: Seq<u8>,
    rem: Option<u64>,
    tab: Option<Seq<(Seq<char>, Seq<char>)>>,
    arr: Option<Seq<u64>>,
    arr2: Option<Seq<crate::types::FooView>>,
) -> Result<
    (
        (Option<Seq<(Seq<char>, Seq<char>)>>, Option<Seq<u64>>, Option<Seq<crate::types::FooView>>),
        int,
    ),
    ErrorView,
>
    decreases s.len(),
{
    if rem == Some(0u64) {
        Ok(((tab, arr, arr2), 0))
    } else {
        match parse_head(s) {
            Err(e) => Err(from_cbor_err(e)),
            Ok(((major, arg), hn)) => {
                if major == 7 && arg == HeadArg::Indefinite {
                    if rem is Some {
                        Err(bare_err(FailureView::BreakInDefiniteLen))
                    } else {
                        Ok(((tab, arr, arr2), hn))
                    }
                } else if major == 0 {
                    match crate::cbor::parse_uint(s) {
                        Err(e) => Err(from_cbor_err(e)),
                        Ok(((ku, _), _)) => Err(bare_err(FailureView::UnknownKey(KeyView::Uint(ku)))),
                    }
                } else if major != 3 {
                    Err(bare_err(FailureView::UnexpectedKeyType(type_of_major(major))))
                } else {
                    match parse_text(s) {
                        Err(e) => Err(from_cbor_err(e)),
                        Ok(((k, _), kn)) => {
                            let rem2 = match rem {
                                Some(n) => Some((n - 1) as u64),
                                None => None,
                            };
                            if k == "tab"@ {
                                if tab is Some {
                                    Err(bare_err(FailureView::DuplicateKey(KeyView::Str(k))))
                                } else {
                                    match parse_strmap(s.skip(kn)) {
                                        Err(e) => Err(annotated(e, "tab"@)),
                                        Ok((tv, vn)) => {
                                            let k2 = step_len(kn + vn, s.len() as int);
                                            match parse_tam_entries(
                                                s.skip(k2),
                                                rem2,
                                                Some(tv),
                                                arr,
                                                arr2,
                                            ) {
                                                Err(e) => Err(e),
                                                Ok((res, m)) => Ok((res, k2 + m)),
                                            }
                                        },
                                    }
                                }
                            } else if k == "arr"@ {
                                if arr is Some {
                                    Err(bare_err(FailureView::DuplicateKey(KeyView::Str(k))))
                                } else {
                                    match parse_u64_list(s.skip(kn)) {
                                        Err(e) => Err(annotated(e, "arr"@)),
                                        Ok((av, vn)) => {
                                            let k2 = step_len(kn + vn, s.len() as int);
                                            match parse_tam_entries(
                                                s.skip(k2),
                                                rem2,
                                                tab,
                                                Some(av),
                                                arr2,
                                            ) {
                                                Err(e) => Err(e),
                                                Ok((res, m)) => Ok((res, k2 + m)),
                                            }
                                        },
                                    }
                                }
                            } else if k == "arr2"@ {
                                if arr2 is Some {
                                    Err(bare_err(FailureView::DuplicateKey(KeyView::Str(k))))
                                } else {
                                    match parse_foo_list(s.skip(kn)) {
                                        Err(e) => Err(annotated(e, "arr2"@)),
                                        Ok((av, vn)) => {
                                            let k2 = step_len(kn + vn, s.len() as int);
                                            match parse_tam_entries(
                                                s.skip(k2),
                                                rem2,
                                                tab,
                                                arr,
                                                Some(av),
                                            ) {
                                                Err(e) => Err(e),
                                                Ok((res, m)) => Ok((res, k2 + m)),
                                            }
                                        },
                                    }
                                }
                            } else {
                                Err(bare_err(FailureView::UnknownKey(KeyView::Str(k))))
                            }
                        },
                    }
                }
            },
        }
    }
}

/// Parses a table-and-arrays record, without the outer type-name
/// annotation: each of the three fields must have been seen, and the first
/// missing one in declared order is reported.
#[verifier::opaque]
pub open spec fn parse_tam_inner(s: Seq<u8>) -> Result<(TableArrMembersView, int), ErrorView> {
    match parse_head(s) {
        Err(e) => Err(from_cbor_err(e)),
        Ok(((major, arg), hn)) => {
            if major != 5 {
                Err(from_cbor_err(CborError::Expected(CborType::Mapping, type_of_major(major))))
            } else {
                let rem = match arg {
                    HeadArg::Definite(n, _sz) => Some(n),
                    HeadArg::Indefinite => None,
                };
                match parse_tam_entries(s.skip(hn), rem, None, None, None) {
                    Err(e) => Err(e),
                    Ok(((tab, arr, arr2), m)) => {
                        if tab is None {
                            Err(bare_err(FailureView::MandatoryFieldMissing(KeyView::Str("tab"@))))
                        } else if arr is None {
                            Err(bare_err(FailureView::MandatoryFieldMissing(KeyView::Str("arr"@))))
                        } else if arr2 is None {
                            Err(bare_err(FailureView::MandatoryFieldMissing(KeyView::Str("arr2"@))))
                        } else {
                            Ok(
                                (
                                    TableArrMembersView {
                                        tab: tab.unwrap(),
                                        arr: arr.unwrap(),
                                        arr2: arr2.unwrap(),
                                    },
                                    hn + m,
                                ),
                            )
                        }
                    },
                }
            }
        },
    }
}

/// Parses a table-and-arrays record; a failure anywhere inside carries the
/// type's name.
pub open spec fn parse_tam(s: Seq<u8>) -> Result<(TableArrMembersView, int), ErrorView> {
    match parse_tam_inner(s) {
        Ok(r) => Ok(r),
        Err(e) => Err(annotated(e, "TableArrMembers"@)),
    }
}

impl TableArrMembers {
    /// Builds a record from its fields.
    pub fn new(tab: StrMap, arr: Vec<u64>, arr2: Vec<crate::types::Foo>) -> (r: Self)
        ensures
            r@ == (TableArrMembersView { tab: tab@, arr: arr@, arr2: foo_vec_view(arr2@) }),
    {
        TableArrMembers { tab, arr, arr2 }
    }

    /// Appends the encoding of the record.
    pub fn serialize(&self, out: &mut Vec<u8>)
        ensures
            final(out)@ == old(out)@ + ser_tam(self@),
    {
        crate::cbor::write_head(out, 5, 3, Sz::Inline);
        write_text(out, "tab");
        self.tab.serialize(out);
        write_text(out, "arr");
        write_u64_list(out, &self.arr);
        write_text(out, "arr2");
        write_foo_list(out, &self.arr2);
        assert(final(out)@ =~= old(out)@ + ser_tam(self@));
    }

    /// The encoding of the record.
    pub fn to_bytes(&self) -> (r: Vec<u8>)
        ensures
            r@ == ser_tam(self@),
    {
        let mut out: Vec<u8> = Vec::new();
        self.serialize(&mut out);
        out
    }

    #[verifier::rlimit(100)]
    #[verifier::spinoff_prover]
    fn deserialize_inner(data: &[u8], pos: &mut usize) -> (r: Result<Self, DeserializeError>)
        requires
            *old(pos) <= data@.len(),
        ensures
            *final(pos) <= data@.len(),
            *old(pos) <= *final(pos),
            r is Ok ==> *old(pos) < *final(pos),
            match parse_tam_inner(data@.skip(*old(pos) as int)) {
                Ok((v, n)) => {
                    &&& r is Ok
                    &&& r.unwrap()@ == v
                    &&& *final(pos) == *old(pos) + n
                },
                Err(e) => r is Err && r.unwrap_err()@ == e,
            },
    {
        proof {
            reveal(parse_tam_inner);
        }
        let ghost s = data@.skip(*old(pos) as int);
        let mut p = *pos;
        let mut remaining: Option<u64> = match read_head(data, &mut p) {
            Err(e) => {
                return Err(DeserializeError::from(e));
            },
            Ok((major, arg)) => {
                if major != 5 {
                    return Err(
                        DeserializeError::from(
                            CborError::Expected(CborType::Mapping, cbor_type_of(major)),
                        ),
                    );
                }
                match arg {
                    HeadArg::Definite(n, _sz) => Some(n),
                    HeadArg::Indefinite => None,
                }
            },
        };
        let mut tab_v: Option<StrMap> = None;
        let mut arr_v: Option<Vec<u64>> = None;
        let mut arr2_v: Option<Vec<crate::types::Foo>> = None;
        proof {
            assert(data@.skip(p as int) =~= s.skip(p - *old(pos)));
        }
        loop
            invariant
                *pos == *old(pos),
                *old(pos) < p <= data@.len(),
                s == data@.skip(*old(pos) as int),
                s.len() == data@.len() - *old(pos),
                tab_v is Some <==> spec_tab_opt(tab_v) is Some,
                arr_v is Some <==> spec_arr_opt(arr_v) is Some,
                arr2_v is Some <==> spec_arr2_opt(arr2_v) is Some,
                parse_tam_inner(s) == (match parse_tam_entries(
                    s.skip(p - *old(pos)),
                    remaining,
                    spec_tab_opt(tab_v),
                    spec_arr_opt(arr_v),
                    spec_arr2_opt(arr2_v),
                ) {
                    Ok(((tab, arr, arr2), m)) => {
                        if tab is None {
                            Err(bare_err(FailureView::MandatoryFieldMissing(KeyView::Str("tab"@))))
                        } else if arr is None {
                            Err(bare_err(FailureView::MandatoryFieldMissing(KeyView::Str("arr"@))))
                        } else if arr2 is None {
                            Err(bare_err(FailureView::MandatoryFieldMissing(KeyView::Str(
                                "arr2"@,
                            ))))
                        } else {
                            Ok::<_, ErrorView>(
                                (
                                    TableArrMembersView {
                                        tab: tab.unwrap(),
                                        arr: arr.unwrap(),
                                        arr2: arr2.unwrap(),
                                    },
                                    (p - *old(pos)) + m,
                                ),
                            )
                        }
                    },
                    Err(e) => Err::<(TableArrMembersView, int), _>(e),
                }),
            decreases data@.len() - p, (match remaining {
                Some(n) => n as int + 1,
                None => 0,
            }),
        {
            let ghost p_it = p;
            proof {
                assert(data@.skip(p as int) =~= s.skip(p - *old(pos)));
            }
            match remaining {
                Some(n) if n == 0 => {
                    if tab_v.is_none() {
                        return Err(
                            DeserializeError::from(
                                DeserializeFailure::MandatoryFieldMissing(
                                    Key::Str("tab".to_owned()),
                                ),
                            ),
                        );
                    }
                    if arr_v.is_none() {
                        return Err(
                            DeserializeError::from(
                                DeserializeFailure::MandatoryFieldMissing(
                                    Key::Str("arr".to_owned()),
                                ),
                            ),
                        );
                    }
                    match (tab_v, arr_v, arr2_v) {
                        (Some(t), Some(a), Some(a2)) => {
                            *pos = p;
                            return Ok(TableArrMembers { tab: t, arr: a, arr2: a2 });
                        },
                        _ => {
                            return Err(
                                DeserializeError::from(
                                    DeserializeFailure::MandatoryFieldMissing(
                                        Key::Str("arr2".to_owned()),
                                    ),
                                ),
                            );
                        },
                    }
                },
                _ => {},
            }
            let mut p2 = p;
            match read_head(data, &mut p2) {
                Err(e) => {
                    return Err(DeserializeError::from(e));
                },
                Ok((major, arg)) => {
                    if major == 7 && arg == HeadArg::Indefinite {
                        match remaining {
                            Some(_) => {
                                return Err(
                                    DeserializeError::from(DeserializeFailure::BreakInDefiniteLen),
                                );
                            },
                            None => {
                                if tab_v.is_none() {
                                    return Err(
                                        DeserializeError::from(
                                            DeserializeFailure::MandatoryFieldMissing(
                                                Key::Str("tab".to_owned()),
                                            ),
                                        ),
                                    );
                                }
                                if arr_v.is_none() {
                                    return Err(
                                        DeserializeError::from(
                                            DeserializeFailure::MandatoryFieldMissing(
                                                Key::Str("arr".to_owned()),
                                            ),
                                        ),
                                    );
                                }
                                match (tab_v, arr_v, arr2_v) {
                                    (Some(t), Some(a), Some(a2)) => {
                                        p = p2;
                                        *pos = p;
                                        return Ok(
                                            TableArrMembers { tab: t, arr: a, arr2: a2 },
                                        );
                                    },
                                    _ => {
                                        return Err(
                                            DeserializeError::from(
                                                DeserializeFailure::MandatoryFieldMissing(
                                                    Key::Str("arr2".to_owned()),
                                                ),
                                            ),
                                        );
                                    },
                                }
                            },
                        }
                    }
                    if major == 0 {
                        let mut p3 = p;
                        match crate::cbor::read_uint(data, &mut p3) {
                            Err(e) => {
                                return Err(DeserializeError::from(e));
                            },
                            Ok((ku, _sz)) => {
                                return Err(
                                    DeserializeError::from(
                                        DeserializeFailure::UnknownKey(Key::Uint(ku)),
                                    ),
                                );
                            },
                        }
                    }
                    if major != 3 {
                        return Err(
                            DeserializeError::from(
                                DeserializeFailure::UnexpectedKeyType(cbor_type_of(major)),
                            ),
                        );
                    }
                },
            }
            let k = match read_text(data, &mut p) {
                Ok((t, _sz)) => t,
                Err(e) => {
                    return Err(DeserializeError::from(e));
                },
            };
            let ghost p_k = p;
            proof {
                assert(data@.skip(p as int) =~= s.skip(p - *old(pos)));
                vstd::seq_lib::lemma_seq_skip_of_skip(s, p_it - *old(pos), p_k - p_it);
            }
            if str_eq(k.as_str(), "tab") {
                if tab_v.is_some() {
                    return Err(DeserializeError::from(DeserializeFailure::DuplicateKey(Key::Str(k))));
                }
                let t = match StrMap::deserialize(data, &mut p) {
                    Ok(v) => v,
                    Err(e) => {
                        return Err(e.annotate("tab"));
                    },
                };
                tab_v = Some(t);
            } else if str_eq(k.as_str(), "arr") {
                if arr_v.is_some() {
                    return Err(DeserializeError::from(DeserializeFailure::DuplicateKey(Key::Str(k))));
                }
                let a = match read_u64_list(data, &mut p) {
                    Ok(v) => v,
                    Err(e) => {
                        return Err(e.annotate("arr"));
                    },
                };
                arr_v = Some(a);
            } else if str_eq(k.as_str(), "arr2") {
                if arr2_v.is_some() {
                    return Err(DeserializeError::from(DeserializeFailure::DuplicateKey(Key::Str(k))));
                }
                let a = match read_foo_list(data, &mut p) {
                    Ok(v) => v,
                    Err(e) => {
                        return Err(e.annotate("arr2"));
                    },
                };
                arr2_v = Some(a);
            } else {
                return Err(DeserializeError::from(DeserializeFailure::UnknownKey(Key::Str(k))));
            }
            proof {
                assert(step_len(p - p_it, s.len() - (p_it - *old(pos))) == p - p_it);
                assert(data@.skip(p as int) =~= s.skip(p - *old(pos)));
                vstd::seq_lib::lemma_seq_skip_of_skip(s, p_it - *old(pos), p - p_it);
            }
            match remaining {
                Some(n) => {
                    remaining = Some(n - 1);
                },
                None => {},
            }
        }
    }

    /// Reads a record from the stream: the first missing required field, in
    /// declared order, is a mandatory-field failure naming it.
    pub fn deserialize(data: &[u8], pos: &mut usize) -> (r: Result<Self, DeserializeError>)
        requires
            *old(pos) <= data@.len(),
        ensures
            *final(pos) <= data@.len(),
            *old(pos) <= *final(pos),
            r is Ok ==> *old(pos) < *final(pos),
            match parse_tam(data@.skip(*old(pos) as int)) {
                Ok((v, n)) => {
                    &&& r is Ok
                    &&& r.unwrap()@ == v
                    &&& *final(pos) == *old(pos) + n
                },
                Err(e) => r is Err && r.unwrap_err()@ == e,
            },
    {
        match Self::deserialize_inner(data, pos) {
            Ok(x) => Ok(x),
            Err(e) => Err(e.annotate("TableArrMembers")),
        }
    }

    /// Reads a record from the front of a byte stream.
    pub fn from_bytes(data: &[u8]) -> (r: Result<Self, DeserializeError>)
        ensures
            match parse_tam(data@) {
                Ok((v, n)) => r is Ok && r.unwrap()@ == v,
                Err(e) => r is Err && r.unwrap_err()@ == e,
            },
    {
        let mut pos: usize = 0;
        let r = Self::deserialize(data, &mut pos);
        proof {
            assert(data@.skip(0) =~= data@);
        }
        r
    }
}


/// One parsed entry step: a helper for the induction lemmas below.
#[verifier::rlimit(100)]
#[verifier::spinoff_prover]
proof fn lemma_one_entry_parses(e: (Seq<char>, Seq<char>), tail: Seq<u8>)
    requires
        encode_utf8(e.0).len() <= u64::MAX,
        encode_utf8(e.1).len() <= u64::MAX,
    ensures
        ({
            let s = ser_str_entry(e) + tail;
            let kb = ser_text(e.0, min_sz(encode_utf8(e.0).len() as u64));
            let vb = ser_text(e.1, min_sz(encode_utf8(e.1).len() as u64));
            &&& parse_head(s) is Ok
            &&& parse_head(s)->Ok_0.0.0 == 3
            &&& parse_text(s) == Ok::<_, CborError>(
                ((e.0, min_sz(encode_utf8(e.0).len() as u64)), kb.len() as int),
            )
            &&& parse_text(s.skip(kb.len() as int)) == Ok::<_, CborError>(
                ((e.1, min_sz(encode_utf8(e.1).len() as u64)), vb.len() as int),
            )
            &&& s.skip(kb.len() + vb.len() as int) == tail
        }),
{
    let kb = ser_text(e.0, min_sz(encode_utf8(e.0).len() as u64));
    let vb = ser_text(e.1, min_sz(encode_utf8(e.1).len() as u64));
    let s = ser_str_entry(e) + tail;
    assert(s =~= kb + (vb + tail));
    lemma_parse_ser_text(e.0, min_sz(encode_utf8(e.0).len() as u64), vb + tail);
    let kblen = encode_utf8(e.0).len() as u64;
    assert(kb =~= crate::cbor::ser_head(3, kblen, min_sz(kblen)) + encode_utf8(e.0));
    assert(crate::cbor::ser_head(3, kblen, min_sz(kblen)) + (encode_utf8(e.0) + (vb + tail)) =~= s);
    lemma_parse_ser_head(3, kblen, min_sz(kblen), encode_utf8(e.0) + (vb + tail));
    lemma_skip_concat(kb, vb + tail);
    lemma_parse_ser_text(e.1, min_sz(encode_utf8(e.1).len() as u64), tail);
    lemma_skip_concat(vb, tail);
    vstd::seq_lib::lemma_seq_skip_of_skip(s, kb.len() as int, vb.len() as int);
}

/// Entries written in table order are read back exactly on top of what was
/// already seen, when all the keys involved are distinct.
#[verifier::rlimit(100)]
#[verifier::spinoff_prover]
proof fn lemma_str_entries_round_trip(
    es: Seq<(Seq<char>, Seq<char>)>,
    acc: Seq<(Seq<char>, Seq<char>)>,
    rest: Seq<u8>,
)
    requires
        wf_str_entries(es),
        unique_keys(acc + es),
        es.len() <= u64::MAX,
    ensures
        ({
            let f = |e: (Seq<char>, Seq<char>)| ser_str_entry(e);
            parse_str_entries(ser_list(es, f) + rest, Some(es.len() as u64), acc)
                == Ok::<_, ErrorView>((acc + es, ser_list(es, f).len() as int))
        }),
    decreases es.len(),
{
    let f = |e: (Seq<char>, Seq<char>)| ser_str_entry(e);
    let s = ser_list(es, f) + rest;
    if es.len() == 0 {
        assert(acc + es =~= acc);
        assert(ser_list(es, f).len() == 0);
    } else {
        let e0 = es[0];
        let tailbytes = ser_list(es.drop_first(), f) + rest;
        lemma_ser_list_front(es, f);
        assert(s =~= ser_str_entry(e0) + tailbytes);
        assert(wf_str_entries(es.drop_first())) by {
            assert(forall|i: int|
                0 <= i < es.drop_first().len() ==> (#[trigger] es.drop_first()[i]) == es[i + 1]);
        }
        lemma_one_entry_parses(e0, tailbytes);
        let kb = ser_text(e0.0, min_sz(encode_utf8(e0.0).len() as u64));
        let vb = ser_text(e0.1, min_sz(encode_utf8(e0.1).len() as u64));
        assert(!map_contains_key(acc, e0.0)) by {
            if map_contains_key(acc, e0.0) {
                let i = choose|i: int| 0 <= i < acc.len() && acc[i].0 == e0.0;
                assert((acc + es)[i] == acc[i]);
                assert((acc + es)[acc.len() as int] == e0);
            }
        }
        let k2 = kb.len() + vb.len();
        assert(step_len(k2 as int, s.len() as int) == k2);
        assert(unique_keys(acc.push(e0) + es.drop_first())) by {
            assert(acc.push(e0) + es.drop_first() =~= acc + es);
        }
        lemma_str_entries_round_trip(es.drop_first(), acc.push(e0), rest);
        assert(s.skip(k2 as int) == tailbytes);
        assert(acc.push(e0) + es.drop_first() =~= acc + es);
        assert(ser_list(es, f).len() == k2 + ser_list(es.drop_first(), f).len());
    }
}

/// Decoding the encoding of any table gives the table back, entry for
/// entry, in table order, whatever follows the encoding in the stream.
#[verifier::rlimit(100)]
#[verifier::spinoff_prover]
pub proof fn lemma_strmap_round_trip(v: Seq<(Seq<char>, Seq<char>)>, rest: Seq<u8>)
    requires
        wf_str_entries(v),
        unique_keys(v),
        v.len() <= u64::MAX,
    ensures
        parse_strmap(ser_strmap(v) + rest) == Ok::<_, ErrorView>(
            (v, ser_strmap(v).len() as int),
        ),
{
    reveal(parse_strmap_inner);
    let f = |e: (Seq<char>, Seq<char>)| ser_str_entry(e);
    let s = ser_strmap(v) + rest;
    let h = ser_head(5, v.len() as u64, min_sz(v.len() as u64));
    assert(s =~= h + (ser_list(v, f) + rest));
    lemma_parse_ser_head(5, v.len() as u64, min_sz(v.len() as u64), ser_list(v, f) + rest);
    lemma_skip_concat(h, ser_list(v, f) + rest);
    assert(unique_keys(Seq::<(Seq<char>, Seq<char>)>::empty() + v)) by {
        assert(Seq::<(Seq<char>, Seq<char>)>::empty() + v =~= v);
    }
    lemma_str_entries_round_trip(v, Seq::empty(), rest);
    assert(Seq::<(Seq<char>, Seq<char>)>::empty() + v =~= v);
}

/// A table encoding holding two occurrences of one key fails to decode with
/// a duplicate-key failure naming that key, whatever the two values are:
/// the entries before the repeat parse, and the repeat is refused.
#[verifier::rlimit(100)]
#[verifier::spinoff_prover]
proof fn lemma_str_entries_duplicate(
    es: Seq<(Seq<char>, Seq<char>)>,
    acc: Seq<(Seq<char>, Seq<char>)>,
    rest: Seq<u8>,
    j: int,
)
    requires
        wf_str_entries(es),
        es.len() <= u64::MAX,
        0 <= j < es.len(),
        unique_keys(acc + es.take(j)),
        map_contains_key(acc + es.take(j), es[j].0),
    ensures
        ({
            let f = |e: (Seq<char>, Seq<char>)| ser_str_entry(e);
            parse_str_entries(ser_list(es, f) + rest, Some(es.len() as u64), acc)
                == Err::<(Seq<(Seq<char>, Seq<char>)>, int), _>(
                bare_err(FailureView::DuplicateKey(KeyView::Str(es[j].0))),
            )
        }),
    decreases j,
{
    let f = |e: (Seq<char>, Seq<char>)| ser_str_entry(e);
    let s = ser_list(es, f) + rest;
    let e0 = es[0];
    let tailbytes = ser_list(es.drop_first(), f) + rest;
    lemma_ser_list_front(es, f);
    assert(s =~= ser_str_entry(e0) + tailbytes);
    lemma_one_entry_parses(e0, tailbytes);
    let kb = ser_text(e0.0, min_sz(encode_utf8(e0.0).len() as u64));
    let vb = ser_text(e0.1, min_sz(encode_utf8(e0.1).len() as u64));
    if j == 0 {
        assert(acc + es.take(0) =~= acc);
        assert(map_contains_key(acc, e0.0));
    } else {
        assert(!map_contains_key(acc, e0.0)) by {
            if map_contains_key(acc, e0.0) {
                let i = choose|i: int| 0 <= i < acc.len() && acc[i].0 == e0.0;
                assert((acc + es.take(j))[i] == acc[i]);
                assert((acc + es.take(j))[acc.len() as int] == e0);
            }
        }
        let k2 = kb.len() + vb.len();
        assert(step_len(k2 as int, s.len() as int) == k2);
        assert(wf_str_entries(es.drop_first())) by {
            assert(forall|i: int|
                0 <= i < es.drop_first().len() ==> (#[trigger] es.drop_first()[i]) == es[i + 1]);
        }
        assert(acc.push(e0) + es.drop_first().take(j - 1) =~= acc + es.take(j));
        assert(es.drop_first()[j - 1] == es[j]);
        lemma_str_entries_duplicate(es.drop_first(), acc.push(e0), rest, j - 1);
        assert(s.skip(k2 as int) == tailbytes);
    }
}

/// Duplicate-key rejection: a table encoding with two occurrences of the
/// same key, the earlier entries' keys being distinct, fails decode with a
/// duplicate-key failure naming that key, even when the two values differ.
#[verifier::rlimit(100)]
#[verifier::spinoff_prover]
pub proof fn lemma_strmap_duplicate_key(
    es: Seq<(Seq<char>, Seq<char>)>,
    rest: Seq<u8>,
    j: int,
)
    requires
        wf_str_entries(es),
        es.len() <= u64::MAX,
        0 <= j < es.len(),
        unique_keys(es.take(j)),
        map_contains_key(es.take(j), es[j].0),
    ensures
        parse_strmap(ser_strmap(es) + rest) == Err::<(Seq<(Seq<char>, Seq<char>)>, int), _>(
            annotated(bare_err(FailureView::DuplicateKey(KeyView::Str(es[j].0))), "StrMap"@),
        ),
{
    reveal(parse_strmap_inner);
    let f = |e: (Seq<char>, Seq<char>)| ser_str_entry(e);
    let s = ser_strmap(es) + rest;
    let h = ser_head(5, es.len() as u64, min_sz(es.len() as u64));
    assert(s =~= h + (ser_list(es, f) + rest));
    lemma_parse_ser_head(5, es.len() as u64, min_sz(es.len() as u64), ser_list(es, f) + rest);
    lemma_skip_concat(h, ser_list(es, f) + rest);
    assert(Seq::<(Seq<char>, Seq<char>)>::empty() + es.take(j) =~= es.take(j));
    lemma_str_entries_duplicate(es, Seq::empty(), rest, j);
}


/// The concrete facts about the field-name literals the bar encoding uses.
proof fn lemma_bar_keys()
    ensures
        encode_utf8("foo"@).len() == 3,
        encode_utf8("derp"@).len() == 4,
        "foo"@ != "derp"@,
    {
    reveal_strlit("foo");
    reveal_strlit("derp");
    vstd::utf8::is_ascii_chars_encode_utf8("foo"@);
    vstd::utf8::is_ascii_chars_encode_utf8("derp"@);
}

#[verifier::rlimit(100)]
#[verifier::spinoff_prover]
proof fn lemma_bar_round_trip_none(v: BarView, rest: Seq<u8>)
    requires
        wf_bar(v),
        v.derp is None,
    ensures
        parse_bar(ser_bar(v) + rest) == Ok::<_, ErrorView>((v, ser_bar(v).len() as int)),
{
    reveal(parse_bar_inner);
    lemma_bar_keys();
    let s = ser_bar(v) + rest;
    let kfoo = ser_text("foo"@, min_sz(encode_utf8("foo"@).len() as u64));
    let fb = crate::types::ser_foo(v.foo);
    let kn = kfoo.len() as int;
    let h = ser_head(5, 1, Sz::Inline);
    assert(s =~= h + (kfoo + (fb + rest)));
    lemma_parse_ser_head(5, 1, Sz::Inline, kfoo + (fb + rest));
    lemma_skip_concat(h, kfoo + (fb + rest));
    let s2 = s.skip(1);
    assert(s2 == kfoo + (fb + rest));
    lemma_one_key_parses("foo"@, fb + rest);
    lemma_skip_concat(kfoo, fb + rest);
    assert(s2.skip(kn) == fb + rest);
    crate::types::lemma_foo_round_trip(v.foo, rest);
    assert(step_len(kn + fb.len(), s2.len() as int) == kn + fb.len());
    assert(ser_bar(v).len() == 1 + kn + fb.len());
    let base = s2.skip(kn + fb.len());
    assert(parse_bar_entries(base, Some(0u64), Some(v.foo), None) == Ok::<_, ErrorView>(
        ((Some(v.foo), None::<u64>), 0int),
    ));
    assert(parse_bar_entries(s2, Some(1u64), None, None) == Ok::<_, ErrorView>(
        ((Some(v.foo), None::<u64>), kn + fb.len()),
    ));
}

#[verifier::rlimit(100)]
#[verifier::spinoff_prover]
proof fn lemma_bar_round_trip_some(v: BarView, rest: Seq<u8>)
    requires
        wf_bar(v),
        v.derp is Some,
    ensures
        parse_bar(ser_bar(v) + rest) == Ok::<_, ErrorView>((v, ser_bar(v).len() as int)),
{
    reveal(parse_bar_inner);
    lemma_bar_keys();
    let s = ser_bar(v) + rest;
    let kfoo = ser_text("foo"@, min_sz(encode_utf8("foo"@).len() as u64));
    let fb = crate::types::ser_foo(v.foo);
    let kn = kfoo.len() as int;
    let d = v.derp->0;
    let h = ser_head(5, 2, Sz::Inline);
    let kderp = ser_text("derp"@, min_sz(encode_utf8("derp"@).len() as u64));
    let db = crate::cbor::ser_uint(d, min_sz(d));
    let dn = kderp.len() as int;
    assert(s =~= h + (kfoo + (fb + (kderp + (db + rest)))));
    lemma_parse_ser_head(5, 2, Sz::Inline, kfoo + (fb + (kderp + (db + rest))));
    lemma_skip_concat(h, kfoo + (fb + (kderp + (db + rest))));
    let s2 = s.skip(1);
    assert(s2 == kfoo + (fb + (kderp + (db + rest))));
    lemma_one_key_parses("foo"@, fb + (kderp + (db + rest)));
    lemma_skip_concat(kfoo, fb + (kderp + (db + rest)));
    assert(s2.skip(kn) == fb + (kderp + (db + rest)));
    crate::types::lemma_foo_round_trip(v.foo, kderp + (db + rest));
    assert(step_len(kn + fb.len(), s2.len() as int) == kn + fb.len());
    let s3 = s2.skip(kn + fb.len());
    assert(s3 == kderp + (db + rest)) by {
        vstd::seq_lib::lemma_seq_skip_of_skip(s2, kn, fb.len() as int);
        lemma_skip_concat(fb, kderp + (db + rest));
    }
    lemma_one_key_parses("derp"@, db + rest);
    lemma_skip_concat(kderp, db + rest);
    assert(s3.skip(dn) == db + rest);
    crate::cbor::lemma_parse_ser_uint(d, min_sz(d), rest);
    assert(step_len(dn + db.len(), s3.len() as int) == dn + db.len());
    assert(ser_bar(v).len() == 1 + kn + fb.len() + dn + db.len());
    let base = s3.skip(dn + db.len());
    assert(parse_bar_entries(base, Some(0u64), Some(v.foo), Some(d)) == Ok::<_, ErrorView>(
        ((Some(v.foo), Some(d)), 0int),
    ));
    assert(parse_bar_entries(s3, Some(1u64), Some(v.foo), None) == Ok::<_, ErrorView>(
        ((Some(v.foo), Some(d)), dn + db.len()),
    ));
    assert(parse_bar_entries(s2, Some(2u64), None, None) == Ok::<_, ErrorView>(
        ((Some(v.foo), Some(d)), kn + fb.len() + dn + db.len()),
    ));
}

/// Decoding the encoding of any bar gives the bar back: it round-trips
/// identically whether the optional field is present or absent.
pub proof fn lemma_bar_round_trip(v: BarView, rest: Seq<u8>)
    requires
        wf_bar(v),
    ensures
        parse_bar(ser_bar(v) + rest) == Ok::<_, ErrorView>((v, ser_bar(v).len() as int)),
{
    match v.derp {
        None => lemma_bar_round_trip_none(v, rest),
        Some(_) => lemma_bar_round_trip_some(v, rest),
    }
}

/// A field-name key parses back as itself wherever it stands.
#[verifier::rlimit(100)]
proof fn lemma_one_key_parses(k: Seq<char>, tail: Seq<u8>)
    requires
        encode_utf8(k).len() <= u64::MAX,
    ensures
        ({
            let kb = ser_text(k, min_sz(encode_utf8(k).len() as u64));
            let s = kb + tail;
            &&& parse_head(s) is Ok
            &&& parse_head(s)->Ok_0.0.0 == 3
            &&& !(parse_head(s)->Ok_0.0 == (7u8, HeadArg::Indefinite))
            &&& parse_text(s) == Ok::<_, CborError>(
                ((k, min_sz(encode_utf8(k).len() as u64)), kb.len() as int),
            )
            &&& s.skip(kb.len() as int) == tail
        }),
{
    let blen = encode_utf8(k).len() as u64;
    let kb = ser_text(k, min_sz(blen));
    let s = kb + tail;
    assert(crate::cbor::ser_head(3, blen, min_sz(blen)) + (encode_utf8(k) + tail) =~= s);
    lemma_parse_ser_head(3, blen, min_sz(blen), encode_utf8(k) + tail);
    lemma_parse_ser_text(k, min_sz(blen), tail);
    lemma_skip_concat(kb, tail);
}

/// Decoding a bar encoding that lacks the required field fails with a
/// mandatory-field failure naming that field.
#[verifier::rlimit(100)]
#[verifier::spinoff_prover]
pub proof fn lemma_bar_missing_required(d: u64, rest: Seq<u8>)
    ensures
        ({
            let s = ser_head(5, 1, Sz::Inline) + ser_text(
                "derp"@,
                min_sz(encode_utf8("derp"@).len() as u64),
            ) + crate::cbor::ser_uint(d, min_sz(d)) + rest;
            parse_bar(s) == Err::<(BarView, int), _>(
                annotated(
                    bare_err(FailureView::MandatoryFieldMissing(KeyView::Str("foo"@))),
                    "Bar"@,
                ),
            )
        }),
{
    reveal(parse_bar_inner);
    reveal_with_fuel(parse_bar_entries, 4);
    lemma_bar_keys();
    let h = ser_head(5, 1, Sz::Inline);
    let kderp = ser_text("derp"@, min_sz(encode_utf8("derp"@).len() as u64));
    let db = crate::cbor::ser_uint(d, min_sz(d));
    let dn = kderp.len() as int;
    let s = h + kderp + db + rest;
    assert(s =~= h + (kderp + (db + rest)));
    lemma_parse_ser_head(5, 1, Sz::Inline, kderp + (db + rest));
    lemma_skip_concat(h, kderp + (db + rest));
    let s2 = s.skip(1);
    assert(s2 == kderp + (db + rest));
    lemma_one_key_parses("derp"@, db + rest);
    lemma_skip_concat(kderp, db + rest);
    assert(s2.skip(dn) == db + rest);
    crate::cbor::lemma_parse_ser_uint(d, min_sz(d), rest);
    assert(step_len(dn + db.len(), s2.len() as int) == dn + db.len());
}


/// Integer items written in order are read back exactly on top of those
/// already read.
#[verifier::rlimit(100)]
#[verifier::spinoff_prover]
proof fn lemma_u64_items_round_trip(items: Seq<u64>, acc: Seq<u64>, rest: Seq<u8>)
    requires
        items.len() <= u64::MAX,
    ensures
        ({
            let f = |x: u64| crate::cbor::ser_uint(x, min_sz(x));
            parse_u64_items(ser_list(items, f) + rest, Some(items.len() as u64), acc)
                == Ok::<_, ErrorView>((acc + items, ser_list(items, f).len() as int))
        }),
    decreases items.len(),
{
    let f = |x: u64| crate::cbor::ser_uint(x, min_sz(x));
    let s = ser_list(items, f) + rest;
    if items.len() == 0 {
        assert(acc + items =~= acc);
        assert(ser_list(items, f).len() == 0);
    } else {
        let x0 = items[0];
        let u = crate::cbor::ser_uint(x0, min_sz(x0));
        let tailbytes = ser_list(items.drop_first(), f) + rest;
        lemma_ser_list_front(items, f);
        assert(s =~= u + tailbytes);
        crate::cbor::lemma_parse_ser_uint(x0, min_sz(x0), tailbytes);
        lemma_parse_ser_head(0, x0, min_sz(x0), tailbytes);
        lemma_skip_concat(u, tailbytes);
        assert(step_len(u.len() as int, s.len() as int) == u.len());
        lemma_u64_items_round_trip(items.drop_first(), acc.push(x0), rest);
        assert(acc.push(x0) + items.drop_first() =~= acc + items);
        assert(ser_list(items, f).len() == u.len() + ser_list(items.drop_first(), f).len());
    }
}

/// Decoding the encoding of any integer array gives the array back, item
/// for item, in order.
#[verifier::rlimit(100)]
#[verifier::spinoff_prover]
pub proof fn lemma_u64_list_round_trip(v: Seq<u64>, rest: Seq<u8>)
    requires
        v.len() <= u64::MAX,
    ensures
        parse_u64_list(ser_u64_list(v) + rest) == Ok::<_, ErrorView>(
            (v, ser_u64_list(v).len() as int),
        ),
{
    reveal(parse_u64_list);
    let f = |x: u64| crate::cbor::ser_uint(x, min_sz(x));
    let s = ser_u64_list(v) + rest;
    let h = ser_head(4, v.len() as u64, min_sz(v.len() as u64));
    assert(s =~= h + (ser_list(v, f) + rest));
    lemma_parse_ser_head(4, v.len() as u64, min_sz(v.len() as u64), ser_list(v, f) + rest);
    lemma_skip_concat(h, ser_list(v, f) + rest);
    lemma_u64_items_round_trip(v, Seq::empty(), rest);
    assert(Seq::<u64>::empty() + v =~= v);
}

} // verus!
