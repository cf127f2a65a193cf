use vstd::prelude::*;
use vstd::slice::slice_subrange;
use vstd::utf8::{decode_utf8, valid_utf8};
use crate::bytes::{be_at, pow256, read_be};
use crate::error::{err, my_error, ErrorKind, Field, FlvError};

verus! {

/// The text that `String::from_utf8_lossy` makes of the bytes `b`.
pub uninterp spec fn lossy_utf8(b: Seq<u8>) -> Seq<char>;

/// Relies on `String::from_utf8_lossy`: the result depends on the bytes alone,
/// and bytes that are valid UTF-8 decode to exactly the text they encode.
#[verifier::external_body]
pub(crate) fn decode_lossy(b: &[u8]) -> (s: String)
    ensures
        s@ == lossy_utf8(b@),
        valid_utf8(b@) ==> s@ == decode_utf8(b@),
{
    String::from_utf8_lossy(b).into_owned()
}

/// An AMF0 date: the bit pattern of its `f64` milliseconds and its time-zone
/// offset in minutes.
#[derive(Debug, Clone, Copy, PartialEq, Eq, Structural)]
pub struct AMF0Date {
    pub date_time: u64,
    pub local_offset: i16,
}

/// A decoded AMF0 value. Numbers are held as the bit pattern of their `f64`.
/// Maps are lists of (key, value) pairs with distinct keys.
pub enum AMF0 {
    Number(u64),
    Boolean(bool),
    String(String),
    ObjectMap(Vec<(String, AMF0)>),
    MovieClip(String),
    Null,
    Undefine,
    Reference(u16),
    ECMAArray(u32, Vec<(String, AMF0)>),
    EndIndicator,
    Array(Vec<(String, AMF0)>),
    Date(AMF0Date),
    LongString(String),
}

/// The value of an [`AMF0`]: strings as text, maps as finite maps.
pub enum Amf0View {
    Number(u64),
    Boolean(bool),
    Str(Seq<char>),
    ObjectMap(Map<Seq<char>, Amf0View>),
    MovieClip(Seq<char>),
    Null,
    Undefine,
    Reference(u16),
    ECMAArray(u32, Map<Seq<char>, Amf0View>),
    EndIndicator,
    Array(Map<Seq<char>, Amf0View>),
    Date(AMF0Date),
    LongString(Seq<char>),
}

/// The map that a list of pairs stands for: a later key replaces an earlier one.
pub open spec fn entries_view(es: Seq<(String, AMF0)>) -> Map<Seq<char>, Amf0View>
    decreases es,
{
    if es.len() == 0 {
        Map::empty()
    } else {
        let last = es[es.len() - 1];
        entries_view(es.subrange(0, es.len() - 1)).insert(last.0@, amf0_view(last.1))
    }
}

/// The value of `v`.
pub open spec fn amf0_view(v: AMF0) -> Amf0View
    decreases v,
{
    match v {
        AMF0::Number(n) => Amf0View::Number(n),
        AMF0::Boolean(b) => Amf0View::Boolean(b),
        AMF0::String(s) => Amf0View::Str(s@),
        AMF0::ObjectMap(es) => Amf0View::ObjectMap(entries_view(es@)),
        AMF0::MovieClip(s) => Amf0View::MovieClip(s@),
        AMF0::Null => Amf0View::Null,
        AMF0::Undefine => Amf0View::Undefine,
        AMF0::Reference(r) => Amf0View::Reference(r),
        AMF0::ECMAArray(h, es) => Amf0View::ECMAArray(h, entries_view(es@)),
        AMF0::EndIndicator => Amf0View::EndIndicator,
        AMF0::Array(es) => Amf0View::Array(entries_view(es@)),
        AMF0::Date(d) => Amf0View::Date(d),
        AMF0::LongString(s) => Amf0View::LongString(s@),
    }
}

impl View for AMF0 {
    type V = Amf0View;

    open spec fn view(&self) -> Amf0View {
        amf0_view(*self)
    }
}

/// The signed value of a 16-bit two's-complement pattern `u`.
pub open spec fn signed16(u: nat) -> i16 {
    (if u < 32768 {
        u as int
    } else {
        u - 65536
    }) as i16
}

/// A string with a `w`-byte big-endian length prefix (`w` is 2 or 4); on
/// success, also the bytes after it.
pub open spec fn spec_string(d: Seq<u8>, w: int) -> Result<(Seq<char>, Seq<u8>), FlvError> {
    if d.len() < w {
        Err(err(Field::Amf0StringLength, ErrorKind::Truncated))
    } else {
        let n = be_at(d, 0, w);
        if d.len() - w < n {
            Err(err(Field::Amf0StringBody, ErrorKind::Truncated))
        } else {
            Ok((lossy_utf8(d.subrange(w, w + n)), d.subrange(w + n, d.len() as int)))
        }
    }
}

/// Whether `d` starts with the object-end marker `00 00 09`.
pub open spec fn at_object_end(d: Seq<u8>) -> bool {
    d.len() >= 3 && d[0] == 0 && d[1] == 0 && d[2] == 9
}

/// Decodes one AMF0 value, led by its type byte; on success, also the bytes
/// after it.
pub open spec fn spec_amf0(d: Seq<u8>) -> Result<(Amf0View, Seq<u8>), FlvError>
    decreases d.len(), 0int,
{
    if d.len() == 0 {
        Err(err(Field::Amf0Type, ErrorKind::Truncated))
    } else {
        let t = d[0];
        let b = d.subrange(1, d.len() as int);
        if t == 0 {
            if b.len() < 8 {
                Err(err(Field::Amf0Number, ErrorKind::Truncated))
            } else {
                Ok((Amf0View::Number(be_at(b, 0, 8) as u64), b.subrange(8, b.len() as int)))
            }
        } else if t == 1 {
            if b.len() < 1 {
                Err(err(Field::Amf0Boolean, ErrorKind::Truncated))
            } else {
                Ok((Amf0View::Boolean(b[0] == 0), b.subrange(1, b.len() as int)))
            }
        } else if t == 2 || t == 4 || t == 12 {
            match spec_string(b, if t == 12 { 4 } else { 2 }) {
                Err(e) => Err(e),
                Ok((s, rest)) => Ok(
                    (
                        if t == 2 {
                            Amf0View::Str(s)
                        } else if t == 4 {
                            Amf0View::MovieClip(s)
                        } else {
                            Amf0View::LongString(s)
                        },
                        rest,
                    ),
                ),
            }
        } else if t == 3 {
            match spec_entries(b, Map::empty()) {
                Err(e) => Err(e),
                Ok((m, rest)) => Ok((Amf0View::ObjectMap(m), rest)),
            }
        } else if t == 5 {
            Ok((Amf0View::Null, b))
        } else if t == 6 {
            Ok((Amf0View::Undefine, b))
        } else if t == 7 {
            if b.len() < 2 {
                Err(err(Field::Amf0Reference, ErrorKind::Truncated))
            } else {
                Ok((Amf0View::Reference(be_at(b, 0, 2) as u16), b.subrange(2, b.len() as int)))
            }
        } else if t == 8 || t == 10 {
            if b.len() < 4 {
                Err(err(Field::Amf0ArrayCount, ErrorKind::Truncated))
            } else {
                let c = be_at(b, 0, 4);
                let items = b.subrange(4, b.len() as int);
                if t == 8 {
                    match spec_entries(items, Map::empty()) {
                        Err(e) => Err(e),
                        Ok((m, rest)) => Ok((Amf0View::ECMAArray(c as u32, m), rest)),
                    }
                } else {
                    match spec_array_items(items, c, Map::empty()) {
                        Err(e) => Err(e),
                        Ok((m, rest)) => Ok((Amf0View::Array(m), rest)),
                    }
                }
            }
        } else if t == 9 {
            Ok((Amf0View::EndIndicator, b))
        } else if t == 11 {
            if b.len() < 10 {
                Err(err(Field::Amf0Date, ErrorKind::Truncated))
            } else {
                Ok(
                    (
                        Amf0View::Date(
                            AMF0Date {
                                date_time: be_at(b, 0, 8) as u64,
                                local_offset: signed16(be_at(b, 8, 2)),
                            },
                        ),
                        b.subrange(10, b.len() as int),
                    ),
                )
            }
        } else {
            Err(err(Field::Amf0Type, ErrorKind::Unsupported(t)))
        }
    }
}

/// The entries of an object map or ECMA array, added to `m` until the
/// object-end marker: each is a 2-byte-prefixed key and a value, and a
/// repeated key replaces the earlier value.
pub open spec fn spec_entries(d: Seq<u8>, m: Map<Seq<char>, Amf0View>) -> Result<
    (Map<Seq<char>, Amf0View>, Seq<u8>),
    FlvError,
>
    decreases d.len(), 1int,
{
    if d.len() < 3 {
        Err(err(Field::Amf0ObjectEnd, ErrorKind::Truncated))
    } else if at_object_end(d) {
        Ok((m, d.subrange(3, d.len() as int)))
    } else {
        match spec_string(d, 2) {
            Err(e) => Err(e),
            Ok((k, r1)) => {
                if r1.len() < d.len() {
                    match spec_amf0(r1) {
                        Err(e) => Err(e),
                        Ok((v, r2)) => {
                            if r2.len() < d.len() {
                                spec_entries(r2, m.insert(k, v))
                            } else {
                                Err(err(Field::Amf0ObjectEnd, ErrorKind::Malformed))
                            }
                        },
                    }
                } else {
                    Err(err(Field::Amf0StringLength, ErrorKind::Malformed))
                }
            },
        }
    }
}

/// The `c` items of a strict array, added to `m`: each is a string value
/// used as the key, then a value.
pub open spec fn spec_array_items(d: Seq<u8>, c: nat, m: Map<Seq<char>, Amf0View>) -> Result<
    (Map<Seq<char>, Amf0View>, Seq<u8>),
    FlvError,
>
    decreases d.len(), 1int,
{
    if c == 0 {
        Ok((m, d))
    } else {
        match spec_amf0(d) {
            Err(e) => Err(e),
            Ok((name, r1)) => match name {
                Amf0View::Str(k) => {
                    if r1.len() < d.len() {
                        match spec_amf0(r1) {
                            Err(e) => Err(e),
                            Ok((v, r2)) => {
                                if r2.len() < d.len() {
                                    spec_array_items(r2, (c - 1) as nat, m.insert(k, v))
                                } else {
                                    Err(err(Field::Amf0ArrayName, ErrorKind::Truncated))
                                }
                            },
                        }
                    } else {
                        Err(err(Field::Amf0ArrayName, ErrorKind::Truncated))
                    }
                },
                _ => Err(err(Field::Amf0ArrayName, ErrorKind::Malformed)),
            },
        }
    }
}

/// Whether no two pairs of `es` have the same key.
pub open spec fn unique_keys(es: Seq<(String, AMF0)>) -> bool {
    forall|i: int, j: int| 0 <= i < j < es.len() ==> es[i].0@ != es[j].0@
}

proof fn lemma_entries_view_push(es: Seq<(String, AMF0)>, p: (String, AMF0))
    ensures
        entries_view(es.push(p)) == entries_view(es).insert(p.0@, amf0_view(p.1)),
{
    assert(es.push(p).subrange(0, es.len() as int) =~= es);
}

proof fn lemma_entries_view_update(es: Seq<(String, AMF0)>, j: int, p: (String, AMF0))
    requires
        unique_keys(es),
        0 <= j < es.len(),
        es[j].0@ == p.0@,
    ensures
        entries_view(es.update(j, p)) == entries_view(es).insert(p.0@, amf0_view(p.1)),
    decreases es.len(),
{
    let n = es.len() - 1;
    let pre = es.subrange(0, n);
    let es2 = es.update(j, p);
    assert(es2.subrange(0, n) =~= if j == n {
        pre
    } else {
        pre.update(j, p)
    });
    if j == n {
        assert(entries_view(es2) =~= entries_view(es).insert(p.0@, amf0_view(p.1)));
    } else {
        assert(unique_keys(pre));
        lemma_entries_view_update(pre, j, p);
        assert(es[n].0@ != p.0@);
        assert(entries_view(es2) =~= entries_view(es).insert(p.0@, amf0_view(p.1)));
    }
}

/// Adds the pair `(k, v)` to `es`, replacing the value of an equal key.
fn map_insert(es: &mut Vec<(String, AMF0)>, k: String, v: AMF0)
    requires
        unique_keys(old(es)@),
    ensures
        unique_keys(final(es)@),
        entries_view(final(es)@) == entries_view(old(es)@).insert(k@, v@),
{
    let n = es.len();
    let mut i: usize = 0;
    while i < n
        invariant
            i <= n == es@.len(),
            es@ == old(es)@,
            unique_keys(es@),
            forall|q: int| 0 <= q < i ==> es@[q].0@ != k@,
        decreases n - i,
    {
        if es[i].0 == k {
            proof {
                lemma_entries_view_update(es@, i as int, (k, v));
            }
            es[i] = (k, v);
            return;
        }
        i = i + 1;
    }
    proof {
        lemma_entries_view_push(es@, (k, v));
    }
    es.push((k, v));
}

/// Decodes a string with a `w`-byte length prefix.
fn read_string(data: &[u8], w: usize) -> (r: Result<(&[u8], String), FlvError>)
    requires
        w == 2 || w == 4,
    ensures
        match r {
            Ok((rest, s)) => spec_string(data@, w as int) == Ok::<_, FlvError>((s@, rest@)),
            Err(e) => spec_string(data@, w as int) == Err::<(Seq<char>, Seq<u8>), _>(e),
        },
{
    let len = data.len();
    if len < w {
        return Err(my_error(Field::Amf0StringLength, ErrorKind::Truncated));
    }
    let n = read_be(data, 0, w);
    proof {
        reveal_with_fuel(pow256, 5);
    }
    if ((len - w) as u64) < n {
        return Err(my_error(Field::Amf0StringBody, ErrorKind::Truncated));
    }
    let n = n as usize;
    let s = decode_lossy(slice_subrange(data, w, w + n));
    Ok((slice_subrange(data, w + n, len), s))
}

/// Decodes the entries of an object map or ECMA array up to and including
/// the object-end marker.
fn parse_entries(data: &[u8]) -> (r: Result<(&[u8], Vec<(String, AMF0)>), FlvError>)
    ensures
        match r {
            Ok((rest, es)) => {
                &&& spec_entries(data@, Map::empty()) == Ok::<_, FlvError>(
                    (entries_view(es@), rest@),
                )
                &&& rest@.len() < data@.len()
                &&& unique_keys(es@)
            },
            Err(e) => spec_entries(data@, Map::empty()) == Err::<
                (Map<Seq<char>, Amf0View>, Seq<u8>),
                _,
            >(e),
        },
    decreases data@.len(), 1int,
{
    let mut es: Vec<(String, AMF0)> = Vec::new();
    let mut cur = data;
    proof {
        assert(entries_view(es@) =~= Map::empty());
    }
    loop
        invariant
            cur@.len() <= data@.len(),
            unique_keys(es@),
            spec_entries(data@, Map::empty()) == spec_entries(cur@, entries_view(es@)),
        decreases cur@.len(),
    {
        let len = cur.len();
        if len < 3 {
            return Err(my_error(Field::Amf0ObjectEnd, ErrorKind::Truncated));
        }
        if cur[0] == 0 && cur[1] == 0 && cur[2] == 9 {
            return Ok((slice_subrange(cur, 3, len), es));
        }
        let (r1, k) = match read_string(cur, 2) {
            Ok(p) => p,
            Err(e) => return Err(e),
        };
        let (r2, v) = match AMF0::parse(r1) {
            Ok(p) => p,
            Err(e) => return Err(e),
        };
        map_insert(&mut es, k, v);
        cur = r2;
    }
}

/// Decodes the `count` (key, value) items of a strict array.
fn parse_array_items(data: &[u8], count: u32) -> (r: Result<(&[u8], Vec<(String, AMF0)>), FlvError>)
    ensures
        match r {
            Ok((rest, es)) => {
                &&& spec_array_items(data@, count as nat, Map::empty()) == Ok::<_, FlvError>(
                    (entries_view(es@), rest@),
                )
                &&& rest@.len() <= data@.len()
                &&& unique_keys(es@)
            },
            Err(e) => spec_array_items(data@, count as nat, Map::empty()) == Err::<
                (Map<Seq<char>, Amf0View>, Seq<u8>),
                _,
            >(e),
        },
    decreases data@.len(), 2int,
{
    let mut es: Vec<(String, AMF0)> = Vec::new();
    let mut cur = data;
    let mut i: u32 = 0;
    proof {
        assert(entries_view(es@) =~= Map::empty());
    }
    while i < count
        invariant
            i <= count,
            cur@.len() <= data@.len(),
            unique_keys(es@),
            spec_array_items(data@, count as nat, Map::empty()) == spec_array_items(
                cur@,
                (count - i) as nat,
                entries_view(es@),
            ),
        decreases count - i,
    {
        let (r1, name) = match AMF0::parse(cur) {
            Ok(p) => p,
            Err(e) => return Err(e),
        };
        let k = match name {
            AMF0::String(k) => k,
            _ => return Err(my_error(Field::Amf0ArrayName, ErrorKind::Malformed)),
        };
        let (r2, v) = match AMF0::parse(r1) {
            Ok(p) => p,
            Err(e) => return Err(e),
        };
        map_insert(&mut es, k, v);
        cur = r2;
        i = i + 1;
    }
    Ok((cur, es))
}

impl AMF0 {
    /// Decodes a string with a 2-byte length prefix.
    pub fn parse_string(data: &[u8]) -> (r: Result<(&[u8], String), FlvError>)
        ensures
            match r {
                Ok((rest, s)) => spec_string(data@, 2) == Ok::<_, FlvError>((s@, rest@)),
                Err(e) => spec_string(data@, 2) == Err::<(Seq<char>, Seq<u8>), _>(e),
            },
    {
        read_string(data, 2)
    }

    /// Decodes one AMF0 value and returns the bytes after it.
    pub fn parse(data: &[u8]) -> (r: Result<(&[u8], AMF0), FlvError>)
        ensures
            match r {
                Ok((rest, v)) => {
                    &&& spec_amf0(data@) == Ok::<_, FlvError>((v@, rest@))
                    &&& rest@.len() < data@.len()
                },
                Err(e) => spec_amf0(data@) == Err::<(Amf0View, Seq<u8>), _>(e),
            },
        decreases data@.len(), 0int,
    {
        let len = data.len();
        if len == 0 {
            return Err(my_error(Field::Amf0Type, ErrorKind::Truncated));
        }
        let t = data[0];
        let b = slice_subrange(data, 1, len);
        let n = len - 1;
        proof {
            reveal_with_fuel(pow256, 9);
        }
        if t == 0 {
            if n < 8 {
                return Err(my_error(Field::Amf0Number, ErrorKind::Truncated));
            }
            let bits = read_be(b, 0, 8);
            Ok((slice_subrange(b, 8, n), AMF0::Number(bits)))
        } else if t == 1 {
            if n < 1 {
                return Err(my_error(Field::Amf0Boolean, ErrorKind::Truncated));
            }
            Ok((slice_subrange(b, 1, n), AMF0::Boolean(b[0] == 0)))
        } else if t == 2 {
            match read_string(b, 2) {
                Ok((rest, s)) => Ok((rest, AMF0::String(s))),
                Err(e) => Err(e),
            }
        } else if t == 4 {
            match read_string(b, 2) {
                Ok((rest, s)) => Ok((rest, AMF0::MovieClip(s))),
                Err(e) => Err(e),
            }
        } else if t == 12 {
            match read_string(b, 4) {
                Ok((rest, s)) => Ok((rest, AMF0::LongString(s))),
                Err(e) => Err(e),
            }
        } else if t == 3 {
            match parse_entries(b) {
                Ok((rest, es)) => Ok((rest, AMF0::ObjectMap(es))),
                Err(e) => Err(e),
            }
        } else if t == 5 {
            Ok((b, AMF0::Null))
        } else if t == 6 {
            Ok((b, AMF0::Undefine))
        } else if t == 7 {
            if n < 2 {
                return Err(my_error(Field::Amf0Reference, ErrorKind::Truncated));
            }
            let r = read_be(b, 0, 2) as u16;
            Ok((slice_subrange(b, 2, n), AMF0::Reference(r)))
        } else if t == 8 || t == 10 {
            if n < 4 {
                return Err(my_error(Field::Amf0ArrayCount, ErrorKind::Truncated));
            }
            let c = read_be(b, 0, 4) as u32;
            let items = slice_subrange(b, 4, n);
            if t == 8 {
                match parse_entries(items) {
                    Ok((rest, es)) => Ok((rest, AMF0::ECMAArray(c, es))),
                    Err(e) => Err(e),
                }
            } else {
                match parse_array_items(items, c) {
                    Ok((rest, es)) => Ok((rest, AMF0::Array(es))),
                    Err(e) => Err(e),
                }
            }
        } else if t == 9 {
            Ok((b, AMF0::EndIndicator))
        } else if t == 11 {
            if n < 10 {
                return Err(my_error(Field::Amf0Date, ErrorKind::Truncated));
            }
            let date_time = read_be(b, 0, 8);
            let u = read_be(b, 8, 2) as u16;
            let local_offset = u as i16;
            proof {
                assert(u >= 0x8000u16 ==> local_offset == ((u - 0x8000u16) as i16) - 0x7fffi16 - 1i16)
                    by (bit_vector)
                    requires
                        local_offset == u as i16,
                ;
                assert(u < 0x8000u16 ==> local_offset == (u as i16) && local_offset >= 0)
                    by (bit_vector)
                    requires
                        local_offset == u as i16,
                ;
            }
            Ok((slice_subrange(b, 10, n), AMF0::Date(AMF0Date { date_time, local_offset })))
        } else {
            Err(my_error(Field::Amf0Type, ErrorKind::Unsupported(t)))
        }
    }
}

} // verus!
