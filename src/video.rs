use vstd::prelude::*;
use vstd::slice::{slice_subrange, slice_to_vec};
use crate::bytes::{be_at, pow256, read_be};
use crate::error::{err, my_error, ErrorKind, Field, FlvError};
use crate::tag::{spec_tag_split, split_tag, TagHeader, TAG_HEADER_LEN};

verus! {

/// Frame type: the top four bits of the first payload byte. Only key and
/// inter frames are decoded.
#[derive(Debug, Clone, Copy, PartialEq, Eq, Structural)]
pub enum VideoFrameType {
    KeyFrame,
    InterFrame,
    DisposableInterFrame,
    GeneratedKeyFrame,
    InfoOrCommandFrame,
}

/// An AVC NAL unit packet: its composition time and its raw bytes.
pub struct AVCNALUData {
    pub composition_time: u32,
    pub nalu_data: Vec<u8>,
}

/// An AVC packet.
pub enum AVCPacketData {
    AVCHeader(Vec<u8>),
    AVCNALU(AVCNALUData),
    AVCEndOfSequence,
}

/// The codec-specific part of a video payload; only AVC is decoded.
pub enum VideoPacket {
    H263,
    Screen,
    VP6,
    VP6Alpha,
    ScreenV2,
    AVC(AVCPacketData),
}

/// A decoded video tag.
pub struct VideoTag {
    pub header: TagHeader,
    pub frame_type: VideoFrameType,
    pub packet_data: VideoPacket,
}

/// The value of an [`AVCNALUData`].
pub struct AvcNaluView {
    pub composition_time: u32,
    pub nalu_data: Seq<u8>,
}

/// The value of an [`AVCPacketData`].
pub enum AvcPacketView {
    Header(Seq<u8>),
    Nalu(AvcNaluView),
    EndOfSequence,
}

/// The value of a [`VideoPacket`].
pub enum VideoPacketView {
    H263,
    Screen,
    VP6,
    VP6Alpha,
    ScreenV2,
    Avc(AvcPacketView),
}

/// The value of a [`VideoTag`].
pub struct VideoTagView {
    pub header: TagHeader,
    pub frame_type: VideoFrameType,
    pub packet_data: VideoPacketView,
}

impl View for AVCNALUData {
    type V = AvcNaluView;

    open spec fn view(&self) -> AvcNaluView {
        AvcNaluView { composition_time: self.composition_time, nalu_data: self.nalu_data@ }
    }
}

impl View for AVCPacketData {
    type V = AvcPacketView;

    open spec fn view(&self) -> AvcPacketView {
        match self {
            AVCPacketData::AVCHeader(v) => AvcPacketView::Header(v@),
            AVCPacketData::AVCNALU(n) => AvcPacketView::Nalu(n@),
            AVCPacketData::AVCEndOfSequence => AvcPacketView::EndOfSequence,
        }
    }
}

impl View for VideoPacket {
    type V = VideoPacketView;

    open spec fn view(&self) -> VideoPacketView {
        match self {
            VideoPacket::H263 => VideoPacketView::H263,
            VideoPacket::Screen => VideoPacketView::Screen,
            VideoPacket::VP6 => VideoPacketView::VP6,
            VideoPacket::VP6Alpha => VideoPacketView::VP6Alpha,
            VideoPacket::ScreenV2 => VideoPacketView::ScreenV2,
            VideoPacket::AVC(p) => VideoPacketView::Avc(p@),
        }
    }
}

impl View for VideoTag {
    type V = VideoTagView;

    open spec fn view(&self) -> VideoTagView {
        VideoTagView {
            header: self.header,
            frame_type: self.frame_type,
            packet_data: self.packet_data@,
        }
    }
}

/// Reads the frame type from the first byte without consuming it.
pub open spec fn spec_frame_type(d: Seq<u8>) -> Result<(VideoFrameType, Seq<u8>), FlvError> {
    if d.len() == 0 {
        Err(err(Field::FrameType, ErrorKind::Truncated))
    } else if d[0] / 16 == 1 {
        Ok((VideoFrameType::KeyFrame, d))
    } else if d[0] / 16 == 2 {
        Ok((VideoFrameType::InterFrame, d))
    } else {
        Err(err(Field::FrameType, ErrorKind::Unsupported(d[0] / 16)))
    }
}

/// A NAL unit packet: a 3-byte composition time, then the unit's bytes up to
/// the end of `d`.
pub open spec fn spec_nalu(d: Seq<u8>) -> Result<(AvcNaluView, Seq<u8>), FlvError> {
    if d.len() < 3 {
        Err(err(Field::CompositionTime, ErrorKind::Truncated))
    } else {
        Ok(
            (
                AvcNaluView {
                    composition_time: be_at(d, 0, 3) as u32,
                    nalu_data: d.subrange(3, d.len() as int),
                },
                Seq::empty(),
            ),
        )
    }
}

/// An AVC packet: a packet-type byte, then a sequence header (after a zero
/// composition time), a NAL unit, or an end of sequence.
pub open spec fn spec_avc_packet(d: Seq<u8>) -> Result<(AvcPacketView, Seq<u8>), FlvError> {
    if d.len() == 0 {
        Err(err(Field::AvcPacketType, ErrorKind::Truncated))
    } else {
        let r = d.subrange(1, d.len() as int);
        if d[0] == 0 {
            if r.len() < 3 {
                Err(err(Field::CompositionTime, ErrorKind::Truncated))
            } else if r[0] != 0 || r[1] != 0 || r[2] != 0 {
                Err(err(Field::CompositionTime, ErrorKind::Malformed))
            } else {
                Ok((AvcPacketView::Header(r.subrange(3, r.len() as int)), Seq::empty()))
            }
        } else if d[0] == 1 {
            match spec_nalu(r) {
                Err(e) => Err(e),
                Ok((n, rest)) => Ok((AvcPacketView::Nalu(n), rest)),
            }
        } else if d[0] == 2 {
            Ok((AvcPacketView::EndOfSequence, r))
        } else {
            Err(err(Field::AvcPacketType, ErrorKind::Unsupported(d[0])))
        }
    }
}

/// The codec part of a video payload: the low four bits of the first byte
/// select the codec, and only AVC (7) is decoded from the bytes after it.
pub open spec fn spec_video_packet(d: Seq<u8>) -> Result<(VideoPacketView, Seq<u8>), FlvError> {
    if d.len() == 0 {
        Err(err(Field::CodecId, ErrorKind::Truncated))
    } else if d[0] % 16 == 7 {
        match spec_avc_packet(d.subrange(1, d.len() as int)) {
            Err(e) => Err(e),
            Ok((p, rest)) => Ok((VideoPacketView::Avc(p), rest)),
        }
    } else {
        Err(err(Field::CodecId, ErrorKind::Unsupported(d[0] % 16)))
    }
}

/// Decodes a video tag (the bytes after the type byte); on success, also the
/// bytes after its payload.
pub open spec fn spec_video_tag(d: Seq<u8>) -> Result<(VideoTagView, Seq<u8>), FlvError> {
    match spec_tag_split(d) {
        Err(e) => Err(e),
        Ok((h, body, after)) => match spec_frame_type(body) {
            Err(e) => Err(e),
            Ok((f, rest)) => match spec_video_packet(rest) {
                Err(e) => Err(e),
                Ok((p, _)) => Ok((VideoTagView { header: h, frame_type: f, packet_data: p }, after)),
            },
        },
    }
}

impl VideoFrameType {
    /// Reads the frame type; the byte is left in place, since its low bits
    /// select the codec.
    pub fn parse(data: &[u8]) -> (r: Result<(&[u8], VideoFrameType), FlvError>)
        ensures
            match r {
                Ok((rest, f)) => spec_frame_type(data@) == Ok::<_, FlvError>((f, rest@)),
                Err(e) => spec_frame_type(data@) == Err::<(VideoFrameType, Seq<u8>), _>(e),
            },
    {
        if data.len() == 0 {
            return Err(my_error(Field::FrameType, ErrorKind::Truncated));
        }
        let code = data[0] / 16;
        if code == 1 {
            Ok((data, VideoFrameType::KeyFrame))
        } else if code == 2 {
            Ok((data, VideoFrameType::InterFrame))
        } else {
            Err(my_error(Field::FrameType, ErrorKind::Unsupported(code)))
        }
    }
}

impl AVCNALUData {
    /// Decodes a NAL unit packet; it takes all of `data`.
    pub fn parse(data: &[u8]) -> (r: Result<(&[u8], AVCNALUData), FlvError>)
        ensures
            match r {
                Ok((rest, n)) => spec_nalu(data@) == Ok::<_, FlvError>((n@, rest@)),
                Err(e) => spec_nalu(data@) == Err::<(AvcNaluView, Seq<u8>), _>(e),
            },
    {
        let len = data.len();
        if len < 3 {
            return Err(my_error(Field::CompositionTime, ErrorKind::Truncated));
        }
        let composition_time = read_be(data, 0, 3) as u32;
        proof {
            assert(pow256(3) == 16777216) by {
                reveal_with_fuel(pow256, 4);
            }
        }
        let nalu_data = slice_to_vec(slice_subrange(data, 3, len));
        let rest = slice_subrange(data, len, len);
        assert(rest@ =~= Seq::<u8>::empty());
        Ok((rest, AVCNALUData { composition_time, nalu_data }))
    }
}

impl AVCPacketData {
    /// Decodes an AVC packet.
    pub fn parse(data: &[u8]) -> (r: Result<(&[u8], AVCPacketData), FlvError>)
        ensures
            match r {
                Ok((rest, p)) => spec_avc_packet(data@) == Ok::<_, FlvError>((p@, rest@)),
                Err(e) => spec_avc_packet(data@) == Err::<(AvcPacketView, Seq<u8>), _>(e),
            },
    {
        let len = data.len();
        if len == 0 {
            return Err(my_error(Field::AvcPacketType, ErrorKind::Truncated));
        }
        let packet_type = data[0];
        let r = slice_subrange(data, 1, len);
        let n = len - 1;
        if packet_type == 0 {
            if n < 3 {
                return Err(my_error(Field::CompositionTime, ErrorKind::Truncated));
            }
            if r[0] != 0 || r[1] != 0 || r[2] != 0 {
                return Err(my_error(Field::CompositionTime, ErrorKind::Malformed));
            }
            let header = slice_to_vec(slice_subrange(r, 3, n));
            let rest = slice_subrange(r, n, n);
            assert(rest@ =~= Seq::<u8>::empty());
            Ok((rest, AVCPacketData::AVCHeader(header)))
        } else if packet_type == 1 {
            match AVCNALUData::parse(r) {
                Ok((rest, nalu)) => Ok((rest, AVCPacketData::AVCNALU(nalu))),
                Err(e) => Err(e),
            }
        } else if packet_type == 2 {
            Ok((r, AVCPacketData::AVCEndOfSequence))
        } else {
            Err(my_error(Field::AvcPacketType, ErrorKind::Unsupported(packet_type)))
        }
    }
}

impl VideoPacket {
    /// Decodes the codec part of a video payload, starting at the byte that
    /// holds the codec id.
    pub fn parse(data: &[u8]) -> (r: Result<(&[u8], VideoPacket), FlvError>)
        ensures
            match r {
                Ok((rest, p)) => spec_video_packet(data@) == Ok::<_, FlvError>((p@, rest@)),
                Err(e) => spec_video_packet(data@) == Err::<(VideoPacketView, Seq<u8>), _>(e),
            },
    {
        let len = data.len();
        if len == 0 {
            return Err(my_error(Field::CodecId, ErrorKind::Truncated));
        }
        let codec = data[0] % 16;
        if codec == 7 {
            match AVCPacketData::parse(slice_subrange(data, 1, len)) {
                Ok((rest, p)) => Ok((rest, VideoPacket::AVC(p))),
                Err(e) => Err(e),
            }
        } else {
            Err(my_error(Field::CodecId, ErrorKind::Unsupported(codec)))
        }
    }
}

impl VideoTag {
    /// The tag's total encoded length: the fixed prefix and the payload.
    pub fn len(&self) -> (n: usize)
        requires
            self.header.data_size + TAG_HEADER_LEN <= usize::MAX,
        ensures
            n == TAG_HEADER_LEN + self.header.data_size,
    {
        TAG_HEADER_LEN + self.header.data_size
    }

    /// Decodes a video tag and returns the bytes after its payload.
    pub fn parse(data: &[u8]) -> (r: Result<(&[u8], VideoTag), FlvError>)
        ensures
            match r {
                Ok((rest, v)) => {
                    &&& spec_video_tag(data@) == Ok::<_, FlvError>((v@, rest@))
                    &&& v.header.data_size < 16777216
                },
                Err(e) => spec_video_tag(data@) == Err::<(VideoTagView, Seq<u8>), _>(e),
            },
    {
        let (header, body, after) = match split_tag(data) {
            Ok(p) => p,
            Err(e) => return Err(e),
        };
        let (rest, frame_type) = match VideoFrameType::parse(body) {
            Ok(p) => p,
            Err(e) => return Err(e),
        };
        let (_rest, packet_data) = match VideoPacket::parse(rest) {
            Ok(p) => p,
            Err(e) => return Err(e),
        };
        Ok((after, VideoTag { header, frame_type, packet_data }))
    }
}

} // verus!
