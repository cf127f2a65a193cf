use vstd::prelude::*;
use crate::amf0::{at_object_end, spec_amf0, spec_array_items, spec_entries, Amf0View};
use crate::audio::spec_audio_body;
use crate::bytes::be_at;
use crate::error::{err, ErrorKind, Field, FlvError};
use crate::flv::{spec_flv_tag, spec_tags, FlvTagView};
use crate::tag::{spec_tag_header, TagHeader};

verus! {

/// Whether `s` is the last `s.len()` bytes of `d`.
pub open spec fn is_suffix(s: Seq<u8>, d: Seq<u8>) -> bool {
    s.len() <= d.len() && s == d.subrange(d.len() - s.len(), d.len() as int)
}

/// Whether the object-end marker `00 00 09` starts at no position of `d`.
pub open spec fn lacks_object_end(d: Seq<u8>) -> bool {
    forall|i: int| 0 <= i <= d.len() ==> !#[trigger] at_object_end(d.subrange(i, d.len() as int))
}

/// A decoded tag occupies exactly its total length (type byte, 10-byte
/// header, declared payload): decoding resumes right after it.
pub proof fn lemma_tag_occupies_total_len(d: Seq<u8>)
    ensures
        match spec_flv_tag(d) {
            Ok((t, r)) => t.total_len() <= d.len() && r == d.subrange(
                t.total_len() as int,
                d.len() as int,
            ),
            Err(_) => true,
        },
{
    match spec_flv_tag(d) {
        Ok((t, r)) => {
            assert(r =~= d.subrange(t.total_len() as int, d.len() as int));
        },
        Err(_) => {},
    }
}

/// A tag followed by a size marker other than its total length makes the
/// container decode fail with a length mismatch for that tag.
pub proof fn lemma_wrong_marker_rejected(
    d: Seq<u8>,
    acc: Seq<FlvTagView>,
    index: nat,
    t: FlvTagView,
    r: Seq<u8>,
)
    requires
        spec_flv_tag(d) == Ok::<_, FlvError>((t, r)),
        r.len() >= 4,
        be_at(r, 0, 4) != t.total_len(),
    ensures
        spec_tags(d, acc, index) == Err::<Seq<FlvTagView>, _>(
            err(
                Field::PreTagSize,
                ErrorKind::LengthMismatch {
                    index: index as usize,
                    marker: be_at(r, 0, 4) as usize,
                    expected: t.total_len() as usize,
                },
            ),
        ),
{
    lemma_tag_occupies_total_len(d);
}

/// A tag header whose stream id is not zero is rejected, also inside a
/// whole tag of any supported type.
pub proof fn lemma_stream_id_reserved(d: Seq<u8>)
    requires
        d.len() >= 11,
        d[8] != 0 || d[9] != 0 || d[10] != 0,
    ensures
        spec_tag_header(d.subrange(1, d.len() as int)) == Err::<(TagHeader, Seq<u8>), _>(
            err(Field::StreamId, ErrorKind::Malformed),
        ),
        d[0] == 8 || d[0] == 9 || d[0] == 18 ==> spec_flv_tag(d) == Err::<
            (FlvTagView, Seq<u8>),
            _,
        >(err(Field::StreamId, ErrorKind::Malformed)),
{
}

/// An AAC audio payload decodes only as 44 kHz, 16-bit stereo (low four
/// bits all set) and otherwise fails with an invariant error; an MP3 payload
/// decodes whatever rate, size and channel bits it holds.
pub proof fn lemma_aac_constraints(h: TagHeader, p: Seq<u8>)
    requires
        p.len() >= 1,
    ensures
        p[0] / 16 == 10 && p[0] % 16 == 15 ==> spec_audio_body(h, p) is Ok,
        p[0] / 16 == 10 && p[0] % 16 != 15 ==> (spec_audio_body(h, p) matches Err(e)
            && e.kind == ErrorKind::Invariant),
        p[0] / 16 == 2 ==> spec_audio_body(h, p) is Ok,
{
    let b = p[0];
    assert(b % 16 == 15 <==> ((b / 4) % 4 == 3 && (b / 2) % 2 == 1 && b % 2 == 1)) by (bit_vector);
}

proof fn lemma_suffix_trans(a: Seq<u8>, b: Seq<u8>, c: Seq<u8>)
    requires
        is_suffix(a, b),
        is_suffix(b, c),
    ensures
        is_suffix(a, c),
{
    assert(a =~= c.subrange(c.len() - a.len(), c.len() as int));
}

/// What follows a decoded value is a strictly shorter suffix of the input.
pub proof fn lemma_amf0_rest_is_suffix(d: Seq<u8>)
    ensures
        spec_amf0(d) matches Ok((_, r)) ==> is_suffix(r, d) && r.len() < d.len(),
    decreases d.len(), 0int,
{
    if d.len() > 0 {
        let t = d[0];
        let b = d.subrange(1, d.len() as int);
        assert(is_suffix(b, d));
        if t == 3 {
            lemma_entries_rest_is_suffix(b, Map::empty());
            if spec_amf0(d) is Ok {
                lemma_suffix_trans(spec_amf0(d)->Ok_0.1, b, d);
            }
        } else if (t == 8 || t == 10) && b.len() >= 4 {
            let items = b.subrange(4, b.len() as int);
            assert(is_suffix(items, b));
            lemma_suffix_trans(items, b, d);
            if t == 8 {
                lemma_entries_rest_is_suffix(items, Map::empty());
            } else {
                lemma_items_rest_is_suffix(items, be_at(b, 0, 4), Map::empty());
            }
            if spec_amf0(d) is Ok {
                lemma_suffix_trans(spec_amf0(d)->Ok_0.1, items, d);
            }
        } else if spec_amf0(d) is Ok {
            let r = spec_amf0(d)->Ok_0.1;
            assert(r =~= d.subrange(d.len() - r.len(), d.len() as int));
        }
    }
}

/// What follows the entries of a map is a suffix of the input.
pub proof fn lemma_entries_rest_is_suffix(d: Seq<u8>, m: Map<Seq<char>, Amf0View>)
    ensures
        spec_entries(d, m) matches Ok((_, r)) ==> is_suffix(r, d),
    decreases d.len(), 1int,
{
    if d.len() >= 3 && !at_object_end(d) {
        if let Ok((k, r1)) = crate::amf0::spec_string(d, 2) {
            assert(is_suffix(r1, d));
            if r1.len() < d.len() {
                lemma_amf0_rest_is_suffix(r1);
                if let Ok((v, r2)) = spec_amf0(r1) {
                    lemma_suffix_trans(r2, r1, d);
                    if r2.len() < d.len() {
                        lemma_entries_rest_is_suffix(r2, m.insert(k, v));
                        if spec_entries(d, m) is Ok {
                            lemma_suffix_trans(spec_entries(d, m)->Ok_0.1, r2, d);
                        }
                    }
                }
            }
        }
    } else if spec_entries(d, m) is Ok {
        let r = spec_entries(d, m)->Ok_0.1;
        assert(r =~= d.subrange(d.len() - r.len(), d.len() as int));
    }
}

/// What follows the items of a strict array is a suffix of the input.
pub proof fn lemma_items_rest_is_suffix(d: Seq<u8>, c: nat, m: Map<Seq<char>, Amf0View>)
    ensures
        spec_array_items(d, c, m) matches Ok((_, r)) ==> is_suffix(r, d),
    decreases d.len(), 1int,
{
    if c == 0 {
        assert(d =~= d.subrange(0, d.len() as int));
    } else {
        lemma_amf0_rest_is_suffix(d);
        if let Ok((Amf0View::Str(k), r1)) = spec_amf0(d) {
            if r1.len() < d.len() {
                lemma_amf0_rest_is_suffix(r1);
                if let Ok((v, r2)) = spec_amf0(r1) {
                    lemma_suffix_trans(r2, r1, d);
                    if r2.len() < d.len() {
                        lemma_items_rest_is_suffix(r2, (c - 1) as nat, m.insert(k, v));
                        if spec_array_items(d, c, m) is Ok {
                            lemma_suffix_trans(spec_array_items(d, c, m)->Ok_0.1, r2, d);
                        }
                    }
                }
            }
        }
    }
}

proof fn lemma_lacks_object_end_suffix(s: Seq<u8>, d: Seq<u8>)
    requires
        is_suffix(s, d),
        lacks_object_end(d),
    ensures
        lacks_object_end(s),
{
    let off = d.len() - s.len();
    assert forall|i: int| 0 <= i <= s.len() implies !#[trigger] at_object_end(
        s.subrange(i, s.len() as int),
    ) by {
        assert(s.subrange(i, s.len() as int) =~= d.subrange(off + i, d.len() as int));
        assert(!at_object_end(d.subrange(off + i, d.len() as int)));
    }
}

/// Whether `e` is a truncation, or the error that decoding a value at some
/// position `i >= from` of `d` gives.
pub open spec fn truncated_or_nested(e: FlvError, d: Seq<u8>, from: int) -> bool {
    e.kind == ErrorKind::Truncated || exists|i: int|
        from <= i <= d.len() && #[trigger] spec_amf0(d.subrange(i, d.len() as int)) == Err::<
            (Amf0View, Seq<u8>),
            _,
        >(e)
}

proof fn lemma_nested_in_suffix(e: FlvError, s: Seq<u8>, d: Seq<u8>, from: int)
    requires
        is_suffix(s, d),
        truncated_or_nested(e, s, from),
        from >= 0,
    ensures
        truncated_or_nested(e, d, from + d.len() - s.len()),
{
    if e.kind != ErrorKind::Truncated {
        let off = d.len() - s.len();
        let i = choose|i: int|
            from <= i <= s.len() && #[trigger] spec_amf0(s.subrange(i, s.len() as int)) == Err::<
                (Amf0View, Seq<u8>),
                _,
            >(e);
        assert(s.subrange(i, s.len() as int) =~= d.subrange(off + i, d.len() as int));
        assert(spec_amf0(d.subrange(off + i, d.len() as int)) == Err::<(Amf0View, Seq<u8>), _>(e));
    }
}

/// Map entries in which the object-end marker never appears cannot be
/// decoded: the decoder stops with a truncation when the bytes run out, or
/// with the error of a value inside the map.
pub proof fn lemma_entries_need_end_marker(d: Seq<u8>, m: Map<Seq<char>, Amf0View>)
    requires
        lacks_object_end(d),
    ensures
        spec_entries(d, m) matches Err(e) && truncated_or_nested(e, d, 0),
    decreases d.len(),
{
    assert(d.subrange(0, d.len() as int) =~= d);
    assert(!at_object_end(d.subrange(0, d.len() as int)));
    if d.len() >= 3 {
        if let Ok((k, r1)) = crate::amf0::spec_string(d, 2) {
            assert(is_suffix(r1, d));
            assert(r1.len() < d.len());
            lemma_amf0_rest_is_suffix(r1);
            match spec_amf0(r1) {
                Ok((v, r2)) => {
                    lemma_suffix_trans(r2, r1, d);
                    lemma_lacks_object_end_suffix(r2, d);
                    lemma_entries_need_end_marker(r2, m.insert(k, v));
                    let e = spec_entries(r2, m.insert(k, v))->Err_0;
                    lemma_nested_in_suffix(e, r2, d, 0);
                },
                Err(e) => {
                    let off = d.len() - r1.len();
                    assert(r1 =~= d.subrange(off, d.len() as int));
                    assert(spec_amf0(d.subrange(off, d.len() as int)) == Err::<
                        (Amf0View, Seq<u8>),
                        _,
                    >(e));
                },
            }
        }
    }
}

/// An object map or ECMA array value whose bytes never hold the object-end
/// marker fails to decode: with a truncation when the bytes run out, or with
/// the error of a value inside it.
pub proof fn lemma_map_needs_end_marker(d: Seq<u8>)
    requires
        d.len() >= 1,
        d[0] == 3 || d[0] == 8,
        lacks_object_end(d),
    ensures
        spec_amf0(d) matches Err(e) && truncated_or_nested(e, d, 1),
{
    let b = d.subrange(1, d.len() as int);
    assert(is_suffix(b, d));
    lemma_lacks_object_end_suffix(b, d);
    if d[0] == 3 {
        lemma_entries_need_end_marker(b, Map::empty());
        lemma_nested_in_suffix(spec_entries(b, Map::empty())->Err_0, b, d, 0);
    } else if b.len() >= 4 {
        let items = b.subrange(4, b.len() as int);
        assert(is_suffix(items, b));
        lemma_suffix_trans(items, b, d);
        lemma_lacks_object_end_suffix(items, b);
        lemma_entries_need_end_marker(items, Map::empty());
        lemma_nested_in_suffix(spec_entries(items, Map::empty())->Err_0, items, d, 0);
    }
}

} // verus!
