use mesh_ingest::error::Error;
use mesh_ingest::mesh::Mesh;
use mesh_ingest::obj::{expand_object, object_to_glmesh, parse_obj, MeshOBJ, Vertex};
use mesh_ingest::text::Span;

fn value(text: &[u8], sp: Span) -> u32 {
    let s = std::str::from_utf8(&text[sp.start..sp.end]).unwrap();
    s.parse::<f32>().unwrap().to_bits()
}

fn resolve(text: &[u8], o: &MeshOBJ<Span>) -> MeshOBJ<u32> {
    MeshOBJ {
        positions: o.positions.iter().map(|p| (value(text, p.0), value(text, p.1), value(text, p.2))).collect(),
        normals: o.normals.iter().map(|p| (value(text, p.0), value(text, p.1), value(text, p.2))).collect(),
        uvs: o.uvs.iter().map(|p| (value(text, p.0), value(text, p.1))).collect(),
        colors: o.colors.iter().map(|p| (value(text, p.0), value(text, p.1), value(text, p.2))).collect(),
        faces: o.faces.clone(),
    }
}

fn load(text: &str) -> Result<Vec<MeshOBJ<u32>>, Error> {
    let b = text.as_bytes();
    parse_obj(b).map(|objs| objs.iter().map(|o| resolve(b, o)).collect())
}

fn bits(x: f32) -> u32 {
    x.to_bits()
}

#[test]
fn two_triangles_give_six_vertices_and_six_indices() {
    let text = "o quad\nv 0 0 0\nv 1 0 0\nv 1 1 0\nv 0 1 0\nvt 0 0\nvn 0 0 1\nf 1/1/1 2/1/1 3/1/1\nf 1/1/1 3/1/1 4/1/1\n";
    let objs = load(text).unwrap();
    assert_eq!(objs.len(), 1);
    let meshes = Mesh::from_obj(&objs).unwrap();
    assert_eq!(meshes[0].vertex_count(), 6);
    assert_eq!(meshes[0].index_count(), 6);
    assert_eq!(meshes[0].triangle_count(), Some(2));
    assert_eq!(meshes[0].vertices().len(), 6 * 32);
}

#[test]
fn second_object_indices_are_corrected_by_first_objects_maximum() {
    let text = "o A\nv 0 0 0\nv 1 0 0\nv 1 1 0\nv 0 1 0\nvt 0 0\nvn 0 0 1\nf 1/1/1 2/1/1 4/1/1\n\
                o B\nv 2 0 0\nv 3 0 0\nv 3 1 0\nvt 1 1\nvn 0 1 0\nf 5/2/2 6/2/2 7/2/2\n";
    let objs = load(text).unwrap();
    assert_eq!(objs.len(), 2);
    assert_eq!(objs[1].faces[0], (1, 1, 1));
    assert_eq!(objs[1].faces[1], (2, 1, 1));
    assert_eq!(objs[1].faces[2], (3, 1, 1));
    let (vs, _) = expand_object(&objs[1]).unwrap();
    assert_eq!(vs[0].position, (bits(2.0), bits(0.0), bits(0.0)));
}

#[test]
fn offset_is_the_maximum_over_all_earlier_objects() {
    let text = "o A\nv 0 0 0\nv 0 0 0\nv 0 0 0\nvt 0 0\nvn 0 0 1\nf 1/1/1 2/1/1 3/1/1\n\
                o B\nv 0 0 0\n\
                o C\nv 1 1 1\nvt 1 1\nvn 1 0 0\nf 4/2/2 4/2/2 4/2/2\n";
    let objs = load(text).unwrap();
    assert_eq!(objs.len(), 3);
    assert_eq!(objs[2].faces[0], (1, 1, 1));
}

#[test]
fn position_line_with_four_numbers_is_a_parse_error() {
    let text = "o a\nv 1 2 3 4\n";
    match load(text).err() {
        Some(Error::Parse(sp)) => assert_eq!(&text[sp.start..sp.end], "v 1 2 3 4"),
        other => panic!("expected a parse error, got {:?}", other),
    }
}

#[test]
fn position_line_with_six_numbers_carries_a_color() {
    let objs = load("o a\nv 1 2 3 0.5 0.25 1\n").unwrap();
    assert_eq!(objs[0].positions.len(), 1);
    assert_eq!(objs[0].colors, vec![(bits(0.5), bits(0.25), bits(1.0))]);
}

#[test]
fn malformed_float_is_a_parse_error() {
    assert!(matches!(load("o a\nv 1 2 x\n").err(), Some(Error::Parse(_))));
    assert!(matches!(load("o a\nvn 1 2 .\n").err(), Some(Error::Parse(_))));
}

#[test]
fn float_syntax_matches_rust_parsing() {
    let objs = load("o a\nv -1.5e2 +.5 3.\nv inf -NaN 1E-3\n").unwrap();
    assert_eq!(objs[0].positions[0], (bits(-150.0), bits(0.5), bits(3.0)));
    assert_eq!(objs[0].positions[1].0, bits(f32::INFINITY));
    assert_eq!(objs[0].positions[1].2, bits(0.001));
}

#[test]
fn uv_and_normal_arity_is_checked() {
    assert!(matches!(load("o a\nvt 1 2 3\n").err(), Some(Error::Parse(_))));
    assert!(matches!(load("o a\nvn 1 2\n").err(), Some(Error::Parse(_))));
}

#[test]
fn face_corners_need_three_integer_indices() {
    assert!(matches!(load("o a\nf 1//1 2//2 3//3\n").err(), Some(Error::Parse(_))));
    assert!(matches!(load("o a\nf 1/1 2/2 3/3\n").err(), Some(Error::Parse(_))));
    assert!(matches!(load("o a\nf 1/1/1/1\n").err(), Some(Error::Parse(_))));
    assert!(matches!(load("o a\nf -1/1/1\n").err(), Some(Error::Parse(_))));
    assert!(matches!(load("o a\nf 4294967296/1/1\n").err(), Some(Error::Parse(_))));
}

#[test]
fn face_index_with_plus_sign_is_accepted() {
    let objs = load("o a\nf +1/1/1\n").unwrap();
    assert_eq!(objs[0].faces, vec![(1, 1, 1)]);
}

#[test]
fn later_malformed_line_wins_over_an_index_fault() {
    assert!(matches!(load("o f 0/0/0\nv").err(), Some(Error::Parse(_))));
    assert!(matches!(load("o f 0/0/0 1").err(), Some(Error::Parse(_))));
    assert!(matches!(load("o a\nf 0/1/1\no b\nvt 1\n").err(), Some(Error::Parse(_))));
}

#[test]
fn zero_face_index_is_a_decode_error() {
    assert_eq!(load("o a\nf 0/1/1\n").err(), Some(Error::Decode));
}

#[test]
fn index_outside_the_object_is_a_decode_error() {
    let objs = load("o a\nv 0 0 0\nvt 0 0\nvn 0 0 1\nf 2/1/1\n").unwrap();
    assert_eq!(object_to_glmesh(&objs[0]).err(), Some(Error::Decode));
}

#[test]
fn header_comments_blank_lines_and_unknown_directives_are_ignored() {
    let text = "# header\nmtllib x.mtl\no a\n\n# comment\ns off\nusemtl m\n   \nv 1 2 3\r\n";
    let objs = load(text).unwrap();
    assert_eq!(objs.len(), 1);
    assert_eq!(objs[0].positions, vec![(bits(1.0), bits(2.0), bits(3.0))]);
}

#[test]
fn text_without_object_marker_has_no_objects() {
    assert_eq!(load("v 1 2 3\n").unwrap().len(), 0);
    assert_eq!(load("").unwrap().len(), 0);
}

#[test]
fn end_to_end_single_triangle() {
    let text = "o tri\nv 0 0 0\nv 1 0 0\nv 1 1 0\nvn 0 0 1\nvt 0 0\nf 1/1/1 2/1/1 3/1/1";
    let objs = load(text).unwrap();
    assert_eq!(objs.len(), 1);
    let (vs, idx) = expand_object(&objs[0]).unwrap();
    assert_eq!(vs.len(), 3);
    assert_eq!(idx, vec![0, 1, 2]);
    assert_eq!(vs[0].position, (bits(0.0), bits(0.0), bits(0.0)));
    assert_eq!(vs[1].position, (bits(1.0), bits(0.0), bits(0.0)));
    assert_eq!(vs[2].position, (bits(1.0), bits(1.0), bits(0.0)));
    for v in vs.iter() {
        assert_eq!(v.normal, (bits(0.0), bits(0.0), bits(1.0)));
        assert_eq!(v.uv, (bits(0.0), bits(0.0)));
    }
    let mesh = object_to_glmesh(&objs[0]).unwrap();
    assert_eq!(mesh.indices(), &[0u32, 1, 2][..]);
    assert!(mesh.culling().is_enabled());
    assert!(!mesh.layout().interleaved);
    assert_eq!(mesh.layout().stride, 32);
}

#[test]
fn obj_vertex_bytes_are_position_normal_uv_little_endian() {
    let text = "o a\nv 1 2 3\nvn 4 5 6\nvt 7 8\nf 1/1/1\n";
    let objs = load(text).unwrap();
    let mesh = object_to_glmesh(&objs[0]).unwrap();
    let mut want: Vec<u8> = Vec::new();
    for x in [1.0f32, 2.0, 3.0, 4.0, 5.0, 6.0, 7.0, 8.0] {
        want.extend_from_slice(&x.to_le_bytes());
    }
    assert_eq!(mesh.vertices(), &want[..]);
}

#[test]
fn quad_mesh_vertices_read_back_from_packed_bytes() {
    let text = "o quad\nv -0.5 0.5 0\nv -0.5 -0.5 0\nv 0.5 0.5 0\nv 0.5 -0.5 0\nvt 0 1\nvt 0 0\nvt 1 1\nvt 1 0\n\
                vn 0 0 1\nf 1/1/1 2/2/1 3/3/1\nf 3/3/1 2/2/1 4/4/1\n";
    let objs = load(text).unwrap();
    let (vs, _) = expand_object(&objs[0]).unwrap();
    let mesh = object_to_glmesh(&objs[0]).unwrap();
    assert_eq!(mesh.vertex_count(), 6);
    let back = Vertex::from_packed(mesh.vertices()).unwrap();
    assert_eq!(back, vs);
    assert_eq!(back[5].position, (bits(0.5), bits(-0.5), bits(0.0)));
    assert_eq!(back[5].uv, (bits(1.0), bits(0.0)));
}

#[test]
fn packed_bytes_of_partial_record_are_a_decode_error() {
    assert_eq!(Vertex::from_packed(&[0u8; 40]).err(), Some(Error::Decode));
    assert_eq!(Vertex::from_packed(&[]).unwrap().len(), 0);
}
