use vstd::prelude::*;
use crate::text::Span;

verus! {

/// What went wrong while reading or packing mesh data.
#[derive(Debug, Clone, Copy, PartialEq, Eq, Structural)]
pub enum Error {
    /// Malformed numeric token, or the wrong number of tokens on an OBJ line or
    /// face corner; holds the span of the source text at fault (the whole line
    /// for a malformed OBJ line).
    Parse(Span),
    /// Unrecognised file extension, or a required glTF structure that is absent or dangling.
    Format,
    /// A byte range that cannot be reinterpreted as the expected elements, or an
    /// index that falls outside the attribute arrays it refers to.
    Decode,
    /// Attribute streams of unequal length, or a stream whose tuples have the wrong size.
    Layout,
    /// A path with no file extension.
    NoFileType,
    /// Text that must become a C string holds a NUL byte.
    CStringNul,
    /// Bytes that are not valid UTF-8.
    Utf8,
    /// A shader source that lacks a vertex or a fragment section.
    ShaderParse,
}

impl Error {
    /// A short human-readable description.
    pub fn msg(&self) -> (r: &'static str) {
        match self {
            Error::Parse(_) => "malformed numeric token or token count",
            Error::Format => "missing or dangling structure",
            Error::Decode => "byte range or index cannot be decoded",
            Error::Layout => "attribute streams do not line up",
            Error::NoFileType => "no file type specified",
            Error::CStringNul => "text contains a NUL byte",
            Error::Utf8 => "bytes are not valid UTF-8",
            Error::ShaderParse => "shader is not formatted properly",
        }
    }
}

} // verus!
