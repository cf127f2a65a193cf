use vstd::prelude::*;
use vstd::slice::{slice_subrange, slice_to_vec};
use crate::error::{err, my_error, ErrorKind, Field, FlvError};
use crate::tag::{spec_tag_split, split_tag, TagHeader, TAG_HEADER_LEN};

verus! {

/// Sound codec: the top four bits of the first payload byte.
#[derive(Debug, Clone, Copy, PartialEq, Eq, Structural)]
pub enum SoundFormatType {
    MP3,
    AAC,
}

/// Sample rate: bits 3 and 2 of the first payload byte.
#[derive(Debug, Clone, Copy, PartialEq, Eq, Structural)]
pub enum SoundSampleRate {
    Rate5500,
    Rate11k,
    Rate22k,
    Rate44k,
}

/// Sample size: bit 1 of the first payload byte.
#[derive(Debug, Clone, Copy, PartialEq, Eq, Structural)]
pub enum SoundSampleSize {
    Size8Bit,
    Size16Bit,
}

/// Channel layout: bit 0 of the first payload byte.
#[derive(Debug, Clone, Copy, PartialEq, Eq, Structural)]
pub enum SoundType {
    TypeMono,
    TypeStero,
}

/// A decoded audio tag.
pub struct AudioTag {
    pub header: TagHeader,
    pub sound_format: SoundFormatType,
    pub sound_rate: SoundSampleRate,
    pub sound_size: SoundSampleSize,
    pub sound_type: SoundType,
    pub sound_data: Vec<u8>,
}

/// The value of an [`AudioTag`], with its samples as a sequence.
pub struct AudioTagView {
    pub header: TagHeader,
    pub sound_format: SoundFormatType,
    pub sound_rate: SoundSampleRate,
    pub sound_size: SoundSampleSize,
    pub sound_type: SoundType,
    pub sound_data: Seq<u8>,
}

impl View for AudioTag {
    type V = AudioTagView;

    open spec fn view(&self) -> AudioTagView {
        AudioTagView {
            header: self.header,
            sound_format: self.sound_format,
            sound_rate: self.sound_rate,
            sound_size: self.sound_size,
            sound_type: self.sound_type,
            sound_data: self.sound_data@,
        }
    }
}

/// The sample rate that the two-bit code `c` stands for.
pub open spec fn rate_of(c: u8) -> SoundSampleRate {
    if c == 0 {
        SoundSampleRate::Rate5500
    } else if c == 1 {
        SoundSampleRate::Rate11k
    } else if c == 2 {
        SoundSampleRate::Rate22k
    } else {
        SoundSampleRate::Rate44k
    }
}

/// Decodes an audio payload of the declared size under header `h`.
///
/// An AAC payload must be 44 kHz, 16-bit, stereo; the bytes after the
/// first one are the samples.
pub open spec fn spec_audio_body(h: TagHeader, p: Seq<u8>) -> Result<AudioTagView, FlvError> {
    if p.len() < 1 {
        Err(err(Field::SoundFormat, ErrorKind::Truncated))
    } else {
        let b = p[0];
        let code = b / 16;
        let rate = rate_of((b / 4) % 4);
        let size = if (b / 2) % 2 == 0 {
            SoundSampleSize::Size8Bit
        } else {
            SoundSampleSize::Size16Bit
        };
        let kind = if b % 2 == 0 {
            SoundType::TypeMono
        } else {
            SoundType::TypeStero
        };
        if code != 2 && code != 10 {
            Err(err(Field::SoundFormat, ErrorKind::Unsupported(code)))
        } else if code == 10 && rate != SoundSampleRate::Rate44k {
            Err(err(Field::SoundRate, ErrorKind::Invariant))
        } else if code == 10 && size != SoundSampleSize::Size16Bit {
            Err(err(Field::SoundSize, ErrorKind::Invariant))
        } else if code == 10 && kind != SoundType::TypeStero {
            Err(err(Field::SoundType, ErrorKind::Invariant))
        } else {
            Ok(
                AudioTagView {
                    header: h,
                    sound_format: if code == 2 {
                        SoundFormatType::MP3
                    } else {
                        SoundFormatType::AAC
                    },
                    sound_rate: rate,
                    sound_size: size,
                    sound_type: kind,
                    sound_data: p.subrange(1, p.len() as int),
                },
            )
        }
    }
}

/// Decodes an audio tag (the bytes after the type byte); on success, also the
/// bytes after its payload.
pub open spec fn spec_audio_tag(d: Seq<u8>) -> Result<(AudioTagView, Seq<u8>), FlvError> {
    match spec_tag_split(d) {
        Err(e) => Err(e),
        Ok((h, body, after)) => match spec_audio_body(h, body) {
            Err(e) => Err(e),
            Ok(a) => Ok((a, after)),
        },
    }
}

impl AudioTag {
    /// The tag's total encoded length: the fixed prefix and the payload.
    pub fn len(&self) -> (n: usize)
        requires
            self.header.data_size + TAG_HEADER_LEN <= usize::MAX,
        ensures
            n == TAG_HEADER_LEN + self.header.data_size,
    {
        TAG_HEADER_LEN + self.header.data_size
    }

    /// Decodes an audio tag and returns the bytes after its payload.
    pub fn parse(data: &[u8]) -> (r: Result<(&[u8], AudioTag), FlvError>)
        ensures
            match r {
                Ok((rest, a)) => {
                    &&& spec_audio_tag(data@) == Ok::<_, FlvError>((a@, rest@))
                    &&& a.header.data_size < 16777216
                },
                Err(e) => spec_audio_tag(data@) == Err::<(AudioTagView, Seq<u8>), _>(e),
            },
    {
        let (header, body, after) = match split_tag(data) {
            Ok(p) => p,
            Err(e) => return Err(e),
        };
        let n = body.len();
        if n < 1 {
            return Err(my_error(Field::SoundFormat, ErrorKind::Truncated));
        }
        let b = body[0];
        let code = b / 16;
        let sound_format = if code == 2 {
            SoundFormatType::MP3
        } else if code == 10 {
            SoundFormatType::AAC
        } else {
            return Err(my_error(Field::SoundFormat, ErrorKind::Unsupported(code)));
        };
        let rate_code = (b / 4) % 4;
        let sound_rate = if rate_code == 0 {
            SoundSampleRate::Rate5500
        } else if rate_code == 1 {
            SoundSampleRate::Rate11k
        } else if rate_code == 2 {
            SoundSampleRate::Rate22k
        } else {
            SoundSampleRate::Rate44k
        };
        let sound_size = if (b / 2) % 2 == 0 {
            SoundSampleSize::Size8Bit
        } else {
            SoundSampleSize::Size16Bit
        };
        let sound_type = if b % 2 == 0 {
            SoundType::TypeMono
        } else {
            SoundType::TypeStero
        };
        if code == 10 {
            if sound_rate != SoundSampleRate::Rate44k {
                return Err(my_error(Field::SoundRate, ErrorKind::Invariant));
            }
            if sound_size != SoundSampleSize::Size16Bit {
                return Err(my_error(Field::SoundSize, ErrorKind::Invariant));
            }
            if sound_type != SoundType::TypeStero {
                return Err(my_error(Field::SoundType, ErrorKind::Invariant));
            }
        }
        let sound_data = slice_to_vec(slice_subrange(body, 1, n));
        let tag = AudioTag { header, sound_format, sound_rate, sound_size, sound_type, sound_data };
        proof {
            assert(tag@ == spec_audio_body(header, body@).unwrap());
        }
        Ok((after, tag))
    }
}

} // verus!
