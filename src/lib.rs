//! Decoder for FLV containers and the AMF0 values carried in their script
//! tags, and a reader for HTTP request heads.
//!
//! Every decoder is a pure function from bytes to a value (or an error) and is
//! proved to agree with a spec-level parser over `Seq<u8>`; `laws` states and
//! proves properties of those parsers.
pub mod error;
pub mod bytes;
pub mod tag;
pub mod audio;
pub mod video;
pub mod amf0;
pub mod script;
pub mod flv;
pub mod laws;
pub mod http;
