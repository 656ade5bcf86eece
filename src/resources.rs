//! Turning loaded file contents into text, C strings, and a mesh format choice.
use vstd::prelude::*;
use vstd::utf8::{valid_utf8, decode_utf8};
use crate::error::Error;
use crate::text::contains_byte;

verus! {

/// Relies on `std::str::from_utf8`: it accepts exactly the well-formed UTF-8
/// byte sequences, and the text it gives is the one those bytes encode.
#[verifier::external_body]
fn utf8_text(b: &[u8]) -> (r: Option<String>)
    ensures
        r is Some <==> valid_utf8(b@),
        r matches Some(s) ==> s@ == decode_utf8(b@),
{
    match std::str::from_utf8(b) {
        Ok(s) => Some(s.to_string()),
        Err(_) => None,
    }
}

/// The text that `bytes` encode; `Utf8` unless they are well-formed UTF-8.
pub fn load_string(bytes: &[u8]) -> (r: Result<String, Error>)
    ensures
        r is Ok <==> valid_utf8(bytes@),
        r matches Ok(s) ==> s@ == decode_utf8(bytes@),
        r matches Err(e) ==> e == Error::Utf8,
{
    match utf8_text(bytes) {
        Some(s) => Ok(s),
        None => Err(Error::Utf8),
    }
}

/// The bytes of a C string; `CStringNul` when they hold a NUL byte.
pub fn load_cstring(bytes: Vec<u8>) -> (r: Result<Vec<u8>, Error>)
    ensures
        r is Ok <==> !contains_byte(bytes@, 0),
        r matches Ok(v) ==> v@ == bytes@,
        r matches Err(e) ==> e == Error::CStringNul,
{
    let mut i: usize = 0;
    while i < bytes.len()
        invariant
            i <= bytes@.len(),
            forall|k: int| 0 <= k < i ==> bytes@[k] != 0,
        decreases bytes@.len() - i,
    {
        if bytes[i] == 0 {
            return Err(Error::CStringNul);
        }
        i = i + 1;
    }
    Ok(bytes)
}

/// The source formats that meshes are read from.
#[derive(Debug, Clone, Copy, PartialEq, Eq, Structural)]
pub enum MeshSourceFormat {
    Obj,
    Gltf,
}

/// `obj`
pub open spec fn obj_extension() -> Seq<u8> {
    seq![0x6fu8, 0x62, 0x6a]
}

/// `gltf`
pub open spec fn gltf_extension() -> Seq<u8> {
    seq![0x67u8, 0x6c, 0x74, 0x66]
}

/// The format that a file extension names: `NoFileType` without one,
/// `Format` for one that is not recognised.
pub open spec fn format_of(ext: Option<Seq<u8>>) -> Result<MeshSourceFormat, Error> {
    match ext {
        None => Err(Error::NoFileType),
        Some(e) => if e == obj_extension() {
            Ok(MeshSourceFormat::Obj)
        } else if e == gltf_extension() {
            Ok(MeshSourceFormat::Gltf)
        } else {
            Err(Error::Format)
        },
    }
}

fn same_bytes(a: &[u8], b: &[u8]) -> (r: bool)
    ensures
        r == (a@ == b@),
{
    if a.len() != b.len() {
        return false;
    }
    let mut i: usize = 0;
    while i < a.len()
        invariant
            i <= a@.len(),
            a@.len() == b@.len(),
            forall|k: int| 0 <= k < i ==> a@[k] == b@[k],
        decreases a@.len() - i,
    {
        if a[i] != b[i] {
            return false;
        }
        i = i + 1;
    }
    assert(a@ =~= b@);
    true
}

impl MeshSourceFormat {
    /// The format that a file extension names.
    pub fn from_extension(ext: Option<&[u8]>) -> (r: Result<MeshSourceFormat, Error>)
        ensures
            r == format_of(
                match ext {
                    Some(e) => Some(e@),
                    None => None,
                },
            ),
    {
        let obj: Vec<u8> = vec![0x6fu8, 0x62, 0x6a];
        let gltf: Vec<u8> = vec![0x67u8, 0x6c, 0x74, 0x66];
        assert(obj@ =~= obj_extension());
        assert(gltf@ =~= gltf_extension());
        match ext {
            None => Err(Error::NoFileType),
            Some(e) => {
                if same_bytes(e, obj.as_slice()) {
                    Ok(MeshSourceFormat::Obj)
                } else if same_bytes(e, gltf.as_slice()) {
                    Ok(MeshSourceFormat::Gltf)
                } else {
                    Err(Error::Format)
                }
            },
        }
    }
}

} // verus!
