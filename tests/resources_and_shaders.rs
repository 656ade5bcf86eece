use mesh_ingest::error::Error;
use mesh_ingest::resources::{load_cstring, load_string, MeshSourceFormat};
use mesh_ingest::shader_source::parse_shader_program;

#[test]
fn shader_program_splits_into_vertex_and_fragment() {
    let text = "// header\n#vertex\nvoid main() {}\n// note\n#fragment\nout vec4 c;\nvoid main() {}";
    let parsed = parse_shader_program(text.as_bytes()).unwrap();
    assert_eq!(parsed.get_vertex_source(), b"void main() {}\n");
    assert_eq!(parsed.get_fragment_source(), b"out vec4 c;\nvoid main() {}\n");
}

#[test]
fn shader_program_without_fragment_is_rejected() {
    let text = "#vertex\nvoid main() {}\n";
    assert_eq!(parse_shader_program(text.as_bytes()).err(), Some(Error::ShaderParse));
    assert_eq!(parse_shader_program(b"").err(), Some(Error::ShaderParse));
}

#[test]
fn shader_program_with_nul_is_rejected() {
    let text = b"#vertex\na\0b\n#fragment\nc\n";
    assert_eq!(parse_shader_program(text).err(), Some(Error::CStringNul));
}

#[test]
fn load_string_decodes_utf8() {
    assert_eq!(load_string("grüße".as_bytes()).unwrap(), "grüße");
    assert_eq!(load_string(&[0x66, 0xff]).err(), Some(Error::Utf8));
}

#[test]
fn load_cstring_rejects_nul() {
    assert_eq!(load_cstring(b"abc".to_vec()).unwrap(), b"abc".to_vec());
    assert_eq!(load_cstring(b"a\0c".to_vec()).err(), Some(Error::CStringNul));
}

#[test]
fn mesh_format_from_extension() {
    assert_eq!(MeshSourceFormat::from_extension(Some(b"obj")), Ok(MeshSourceFormat::Obj));
    assert_eq!(MeshSourceFormat::from_extension(Some(b"gltf")), Ok(MeshSourceFormat::Gltf));
    assert_eq!(MeshSourceFormat::from_extension(Some(b"fbx")), Err(Error::Format));
    assert_eq!(MeshSourceFormat::from_extension(None), Err(Error::NoFileType));
}

#[test]
fn error_messages_are_present() {
    assert_eq!(Error::Layout.msg(), "attribute streams do not line up");
}
