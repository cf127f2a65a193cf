use vstd::prelude::*;
use crate::amf0::{spec_amf0, Amf0View, AMF0};
use crate::error::{err, my_error, ErrorKind, Field, FlvError};
use crate::tag::{spec_tag_split, split_tag, TagHeader, TAG_HEADER_LEN};

verus! {

/// A decoded script (metadata) tag: a name and a value.
pub struct ScriptTag {
    pub header: TagHeader,
    pub obj_name: String,
    pub obj_val: AMF0,
}

/// The value of a [`ScriptTag`].
pub struct ScriptTagView {
    pub header: TagHeader,
    pub obj_name: Seq<char>,
    pub obj_val: Amf0View,
}

impl View for ScriptTag {
    type V = ScriptTagView;

    open spec fn view(&self) -> ScriptTagView {
        ScriptTagView { header: self.header, obj_name: self.obj_name@, obj_val: self.obj_val@ }
    }
}

/// A script payload: a string value (the name), then any value.
pub open spec fn spec_script_body(h: TagHeader, p: Seq<u8>) -> Result<ScriptTagView, FlvError> {
    match spec_amf0(p) {
        Err(e) => Err(e),
        Ok((Amf0View::Str(name), r)) => match spec_amf0(r) {
            Err(e) => Err(e),
            Ok((v, _)) => Ok(ScriptTagView { header: h, obj_name: name, obj_val: v }),
        },
        Ok(_) => Err(err(Field::ScriptName, ErrorKind::Malformed)),
    }
}

/// Decodes a script tag (the bytes after the type byte); on success, also
/// the bytes after its payload.
pub open spec fn spec_script_tag(d: Seq<u8>) -> Result<(ScriptTagView, Seq<u8>), FlvError> {
    match spec_tag_split(d) {
        Err(e) => Err(e),
        Ok((h, body, after)) => match spec_script_body(h, body) {
            Err(e) => Err(e),
            Ok(s) => Ok((s, after)),
        },
    }
}

impl ScriptTag {
    /// The tag's total encoded length: the fixed prefix and the payload.
    pub fn len(&self) -> (n: usize)
        requires
            self.header.data_size + TAG_HEADER_LEN <= usize::MAX,
        ensures
            n == TAG_HEADER_LEN + self.header.data_size,
    {
        TAG_HEADER_LEN + self.header.data_size
    }

    /// Decodes a script tag and returns the bytes after its payload.
    pub fn parse(data: &[u8]) -> (r: Result<(&[u8], ScriptTag), FlvError>)
        ensures
            match r {
                Ok((rest, s)) => {
                    &&& spec_script_tag(data@) == Ok::<_, FlvError>((s@, rest@))
                    &&& s.header.data_size < 16777216
                },
                Err(e) => spec_script_tag(data@) == Err::<(ScriptTagView, Seq<u8>), _>(e),
            },
    {
        let (header, body, after) = match split_tag(data) {
            Ok(p) => p,
            Err(e) => return Err(e),
        };
        let (rest, name) = match AMF0::parse(body) {
            Ok(p) => p,
            Err(e) => return Err(e),
        };
        let obj_name = match name {
            AMF0::String(s) => s,
            _ => return Err(my_error(Field::ScriptName, ErrorKind::Malformed)),
        };
        let (_rest, obj_val) = match AMF0::parse(rest) {
            Ok(p) => p,
            Err(e) => return Err(e),
        };
        Ok((after, ScriptTag { header, obj_name, obj_val }))
    }
}

} // verus!
