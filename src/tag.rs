use vstd::prelude::*;
use vstd::slice::slice_subrange;
use crate::bytes::{be_at, pow256, read_be, timestamp_at, timestamp_of};
use crate::error::{err, my_error, ErrorKind, Field, FlvError};

verus! {

/// Size of the container header.
pub const FLV_HEADER_LEN: usize = 9;

/// Size of a tag's fixed prefix: the type byte and the tag header.
pub const TAG_HEADER_LEN: usize = 11;

/// Size of the marker that follows every tag.
pub const PRE_TAG_SIZE_LEN: usize = 4;

/// The header shared by all tags: the declared payload size and the timestamp.
#[derive(Debug, Clone, Copy, PartialEq, Eq, Structural)]
pub struct TagHeader {
    pub data_size: usize,
    pub timestamp: i32,
}

/// Decodes a tag header (the bytes after the type byte): a 3-byte payload
/// size, a 4-byte split timestamp, and a 3-byte stream id that must be zero.
/// On success, also the bytes after the header.
pub open spec fn spec_tag_header(d: Seq<u8>) -> Result<(TagHeader, Seq<u8>), FlvError> {
    if d.len() < 3 {
        Err(err(Field::DataSize, ErrorKind::Truncated))
    } else if d.len() < 7 {
        Err(err(Field::Timestamp, ErrorKind::Truncated))
    } else if d.len() < 10 {
        Err(err(Field::StreamId, ErrorKind::Truncated))
    } else if d[7] != 0 || d[8] != 0 || d[9] != 0 {
        Err(err(Field::StreamId, ErrorKind::Malformed))
    } else {
        Ok(
            (
                TagHeader {
                    data_size: be_at(d, 0, 3) as usize,
                    timestamp: timestamp_of(d[3], d[4], d[5], d[6]) as i32,
                },
                d.subrange(10, d.len() as int),
            ),
        )
    }
}

/// Splits a tag (the bytes after the type byte) into its header, its payload
/// of the declared size, and the bytes after the payload.
pub open spec fn spec_tag_split(d: Seq<u8>) -> Result<(TagHeader, Seq<u8>, Seq<u8>), FlvError> {
    match spec_tag_header(d) {
        Err(e) => Err(e),
        Ok((h, rest)) => {
            if rest.len() < h.data_size {
                Err(err(Field::TagBody, ErrorKind::Truncated))
            } else {
                Ok(
                    (
                        h,
                        rest.subrange(0, h.data_size as int),
                        rest.subrange(h.data_size as int, rest.len() as int),
                    ),
                )
            }
        },
    }
}

impl TagHeader {
    /// Decodes a tag header and returns the bytes after it.
    pub fn parse(data: &[u8]) -> (r: Result<(&[u8], TagHeader), FlvError>)
        ensures
            match r {
                Ok((rest, h)) => {
                    &&& spec_tag_header(data@) == Ok::<_, FlvError>((h, rest@))
                    &&& h.data_size < 16777216
                },
                Err(e) => spec_tag_header(data@) == Err::<(TagHeader, Seq<u8>), _>(e),
            },
    {
        let len = data.len();
        if len < 3 {
            return Err(my_error(Field::DataSize, ErrorKind::Truncated));
        }
        if len < 7 {
            return Err(my_error(Field::Timestamp, ErrorKind::Truncated));
        }
        if len < 10 {
            return Err(my_error(Field::StreamId, ErrorKind::Truncated));
        }
        if data[7] != 0 || data[8] != 0 || data[9] != 0 {
            return Err(my_error(Field::StreamId, ErrorKind::Malformed));
        }
        let data_size = read_be(data, 0, 3) as usize;
        let timestamp = timestamp_at(slice_subrange(data, 3, 7));
        let rest = slice_subrange(data, 10, len);
        proof {
            assert(pow256(3) == 16777216) by {
                reveal_with_fuel(crate::bytes::pow256, 4);
            }
        }
        Ok((rest, TagHeader { data_size, timestamp }))
    }
}

/// Splits a tag into header, payload and the bytes after the payload.
pub fn split_tag(data: &[u8]) -> (r: Result<(TagHeader, &[u8], &[u8]), FlvError>)
    ensures
        match r {
            Ok((h, body, after)) => {
                &&& spec_tag_split(data@) == Ok::<_, FlvError>((h, body@, after@))
                &&& h.data_size < 16777216
            },
            Err(e) => spec_tag_split(data@) == Err::<(TagHeader, Seq<u8>, Seq<u8>), _>(e),
        },
{
    let (rest, header) = match TagHeader::parse(data) {
        Ok(p) => p,
        Err(e) => return Err(e),
    };
    let n = rest.len();
    if n < header.data_size {
        return Err(my_error(Field::TagBody, ErrorKind::Truncated));
    }
    let body = slice_subrange(rest, 0, header.data_size);
    let after = slice_subrange(rest, header.data_size, n);
    Ok((header, body, after))
}

} // verus!
