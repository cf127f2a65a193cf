use vstd::prelude::*;
use vstd::slice::slice_subrange;
use crate::audio::{spec_audio_tag, AudioTag, AudioTagView};
use crate::bytes::{be_at, pow256, read_be};
use crate::error::{err, my_error, ErrorKind, Field, FlvError};
use crate::script::{spec_script_tag, ScriptTag, ScriptTagView};
use crate::tag::{TagHeader, FLV_HEADER_LEN, PRE_TAG_SIZE_LEN, TAG_HEADER_LEN};
use crate::video::{spec_video_tag, VideoTag, VideoTagView};

verus! {

/// One decoded tag of the container.
pub enum FlvTag {
    VideoTag(VideoTag),
    AudioTag(AudioTag),
    ScriptTag(ScriptTag),
}

/// The value of an [`FlvTag`].
pub enum FlvTagView {
    Video(VideoTagView),
    Audio(AudioTagView),
    Script(ScriptTagView),
}

impl View for FlvTag {
    type V = FlvTagView;

    open spec fn view(&self) -> FlvTagView {
        match self {
            FlvTag::VideoTag(t) => FlvTagView::Video(t@),
            FlvTag::AudioTag(t) => FlvTagView::Audio(t@),
            FlvTag::ScriptTag(t) => FlvTagView::Script(t@),
        }
    }
}

impl FlvTagView {
    /// The tag's header.
    pub open spec fn header(self) -> TagHeader {
        match self {
            FlvTagView::Video(t) => t.header,
            FlvTagView::Audio(t) => t.header,
            FlvTagView::Script(t) => t.header,
        }
    }

    /// The tag's total encoded length: type byte, tag header and payload.
    pub open spec fn total_len(self) -> nat {
        (TAG_HEADER_LEN + self.header().data_size) as nat
    }
}

/// Decodes one tag, led by its type byte (8 audio, 9 video, 18 script); on
/// success, also the bytes after its payload.
pub open spec fn spec_flv_tag(d: Seq<u8>) -> Result<(FlvTagView, Seq<u8>), FlvError> {
    if d.len() < TAG_HEADER_LEN {
        Err(err(Field::Tag, ErrorKind::Truncated))
    } else {
        let b = d.subrange(1, d.len() as int);
        if d[0] == 8 {
            match spec_audio_tag(b) {
                Err(e) => Err(e),
                Ok((t, r)) => Ok((FlvTagView::Audio(t), r)),
            }
        } else if d[0] == 9 {
            match spec_video_tag(b) {
                Err(e) => Err(e),
                Ok((t, r)) => Ok((FlvTagView::Video(t), r)),
            }
        } else if d[0] == 18 {
            match spec_script_tag(b) {
                Err(e) => Err(e),
                Ok((t, r)) => Ok((FlvTagView::Script(t), r)),
            }
        } else {
            Err(err(Field::TagType, ErrorKind::Unsupported(d[0])))
        }
    }
}

/// The 4-byte size marker that follows a tag; on success, also the bytes
/// after it.
pub open spec fn spec_pre_tag_size(d: Seq<u8>) -> Result<(nat, Seq<u8>), FlvError> {
    if d.len() < PRE_TAG_SIZE_LEN {
        Err(err(Field::PreTagSize, ErrorKind::Truncated))
    } else {
        Ok((be_at(d, 0, 4), d.subrange(4, d.len() as int)))
    }
}

/// The tags of `d`, each followed by a marker equal to its total length,
/// appended to `acc`; `index` numbers the next tag from 1.
pub open spec fn spec_tags(d: Seq<u8>, acc: Seq<FlvTagView>, index: nat) -> Result<
    Seq<FlvTagView>,
    FlvError,
>
    decreases d.len(),
{
    if d.len() == 0 {
        Ok(acc)
    } else {
        match spec_flv_tag(d) {
            Err(e) => Err(e),
            Ok((t, r1)) => match spec_pre_tag_size(r1) {
                Err(e) => Err(e),
                Ok((m, r2)) => {
                    if m != t.total_len() {
                        Err(
                            err(
                                Field::PreTagSize,
                                ErrorKind::LengthMismatch {
                                    index: index as usize,
                                    marker: m as usize,
                                    expected: t.total_len() as usize,
                                },
                            ),
                        )
                    } else if r2.len() < d.len() {
                        spec_tags(r2, acc.push(t), index + 1)
                    } else {
                        Err(err(Field::Tag, ErrorKind::Malformed))
                    }
                },
            },
        }
    }
}

/// Decodes a whole container: the 9-byte header ("FLV", version, type flags
/// with reserved bits zero, data offset, which must be 9 for version 1), a
/// zero marker at the data offset, then the tags.
pub open spec fn spec_flv(d: Seq<u8>) -> Result<Seq<FlvTagView>, FlvError> {
    if d.len() < FLV_HEADER_LEN {
        Err(err(Field::FlvHeader, ErrorKind::Truncated))
    } else if d[0] != 0x46 || d[1] != 0x4c || d[2] != 0x56 {
        Err(err(Field::Signature, ErrorKind::Malformed))
    } else if d[4] & 0xfa != 0 {
        Err(err(Field::TypeFlags, ErrorKind::Malformed))
    } else {
        let offset = be_at(d, 5, 4);
        if d[3] == 1 && offset != FLV_HEADER_LEN {
            Err(err(Field::DataOffset, ErrorKind::Malformed))
        } else if d.len() < offset {
            Err(err(Field::DataOffset, ErrorKind::Truncated))
        } else {
            let r = d.subrange(offset as int, d.len() as int);
            if r.len() < PRE_TAG_SIZE_LEN {
                Err(err(Field::FirstPreTagSize, ErrorKind::Truncated))
            } else if be_at(r, 0, 4) != 0 {
                Err(err(Field::FirstPreTagSize, ErrorKind::Malformed))
            } else {
                spec_tags(r.subrange(4, r.len() as int), Seq::empty(), 1)
            }
        }
    }
}

impl FlvTag {
    /// The tag's total encoded length.
    pub fn tag_len(&self) -> (n: usize)
        requires
            self@.header().data_size + TAG_HEADER_LEN <= usize::MAX,
        ensures
            n == self@.total_len(),
    {
        match self {
            FlvTag::VideoTag(t) => t.len(),
            FlvTag::AudioTag(t) => t.len(),
            FlvTag::ScriptTag(t) => t.len(),
        }
    }

    /// Decodes one tag and returns the bytes after its payload.
    pub fn parse(data: &[u8]) -> (r: Result<(&[u8], FlvTag), FlvError>)
        ensures
            match r {
                Ok((rest, t)) => {
                    &&& spec_flv_tag(data@) == Ok::<_, FlvError>((t@, rest@))
                    &&& t@.header().data_size < 16777216
                },
                Err(e) => spec_flv_tag(data@) == Err::<(FlvTagView, Seq<u8>), _>(e),
            },
    {
        let len = data.len();
        if len < TAG_HEADER_LEN {
            return Err(my_error(Field::Tag, ErrorKind::Truncated));
        }
        let tag_type = data[0];
        let b = slice_subrange(data, 1, len);
        if tag_type == 8 {
            match AudioTag::parse(b) {
                Ok((rest, t)) => Ok((rest, FlvTag::AudioTag(t))),
                Err(e) => Err(e),
            }
        } else if tag_type == 9 {
            match VideoTag::parse(b) {
                Ok((rest, t)) => Ok((rest, FlvTag::VideoTag(t))),
                Err(e) => Err(e),
            }
        } else if tag_type == 18 {
            match ScriptTag::parse(b) {
                Ok((rest, t)) => Ok((rest, FlvTag::ScriptTag(t))),
                Err(e) => Err(e),
            }
        } else {
            Err(my_error(Field::TagType, ErrorKind::Unsupported(tag_type)))
        }
    }
}

/// Reads the 4-byte size marker that follows a tag.
pub fn parse_pre_tag_size(data: &[u8]) -> (r: Result<(&[u8], usize), FlvError>)
    ensures
        match r {
            Ok((rest, n)) => spec_pre_tag_size(data@) == Ok::<_, FlvError>((n as nat, rest@)),
            Err(e) => spec_pre_tag_size(data@) == Err::<(nat, Seq<u8>), _>(e),
        },
{
    let len = data.len();
    if len < PRE_TAG_SIZE_LEN {
        return Err(my_error(Field::PreTagSize, ErrorKind::Truncated));
    }
    let size = read_be(data, 0, 4);
    proof {
        reveal_with_fuel(pow256, 5);
    }
    Ok((slice_subrange(data, 4, len), size as usize))
}

/// Decodes a whole container into its tags.
pub fn parse_flv(data: &[u8]) -> (r: Result<Vec<FlvTag>, FlvError>)
    ensures
        match r {
            Ok(tags) => spec_flv(data@) == Ok::<_, FlvError>(tags@.map_values(|t: FlvTag| t@)),
            Err(e) => spec_flv(data@) == Err::<Seq<FlvTagView>, _>(e),
        },
{
    let len = data.len();
    if len < FLV_HEADER_LEN {
        return Err(my_error(Field::FlvHeader, ErrorKind::Truncated));
    }
    if data[0] != 0x46 || data[1] != 0x4c || data[2] != 0x56 {
        return Err(my_error(Field::Signature, ErrorKind::Malformed));
    }
    if data[4] & 0xfa != 0 {
        return Err(my_error(Field::TypeFlags, ErrorKind::Malformed));
    }
    proof {
        reveal_with_fuel(pow256, 5);
    }
    let offset = read_be(data, 5, 4);
    if data[3] == 1 && offset != FLV_HEADER_LEN as u64 {
        return Err(my_error(Field::DataOffset, ErrorKind::Malformed));
    }
    if (len as u64) < offset {
        return Err(my_error(Field::DataOffset, ErrorKind::Truncated));
    }
    let offset = offset as usize;
    let r = slice_subrange(data, offset, len);
    let rlen = len - offset;
    if rlen < PRE_TAG_SIZE_LEN {
        return Err(my_error(Field::FirstPreTagSize, ErrorKind::Truncated));
    }
    if read_be(r, 0, 4) != 0 {
        return Err(my_error(Field::FirstPreTagSize, ErrorKind::Malformed));
    }
    let mut cur = slice_subrange(r, 4, rlen);
    let mut tags: Vec<FlvTag> = Vec::new();
    let mut tag_cnt: usize = 0;
    proof {
        assert(tags@.map_values(|t: FlvTag| t@) =~= Seq::<FlvTagView>::empty());
    }
    while cur.len() > 0
        invariant
            len == data@.len(),
            tag_cnt + cur@.len() <= data@.len(),
            spec_flv(data@) == spec_tags(
                cur@,
                tags@.map_values(|t: FlvTag| t@),
                (tag_cnt + 1) as nat,
            ),
        decreases cur@.len(),
    {
        tag_cnt = tag_cnt + 1;
        let (rest, tag) = match FlvTag::parse(cur) {
            Ok(p) => p,
            Err(e) => return Err(e),
        };
        let (rest, pre_tag_size) = match parse_pre_tag_size(rest) {
            Ok(p) => p,
            Err(e) => return Err(e),
        };
        let tag_size = tag.tag_len();
        if pre_tag_size != tag_size {
            return Err(
                my_error(
                    Field::PreTagSize,
                    ErrorKind::LengthMismatch {
                        index: tag_cnt,
                        marker: pre_tag_size,
                        expected: tag_size,
                    },
                ),
            );
        }
        proof {
            assert(rest@.len() < cur@.len());
            let old_view = tags@.map_values(|t: FlvTag| t@);
            assert(old_view.push(tag@) =~= tags@.push(tag).map_values(|t: FlvTag| t@));
        }
        tags.push(tag);
        cur = rest;
    }
    Ok(tags)
}

} // verus!
