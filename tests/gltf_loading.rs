use mesh_ingest::error::Error;
use mesh_ingest::gltf::{
    decode_color_tuples, decode_float_tuples, decode_index_list, Accessor, Attributes, BufferPayload, BufferView,
    GltfDocument, GltfMesh, Material, Primitive, Unorm16Table,
};
use mesh_ingest::layout::{read_component, AttributeKind};
use mesh_ingest::mesh::Mesh;

fn f32_bytes(xs: &[f32]) -> Vec<u8> {
    xs.iter().flat_map(|x| x.to_le_bytes()).collect()
}

fn u16_bytes(xs: &[u16]) -> Vec<u8> {
    xs.iter().flat_map(|x| x.to_le_bytes()).collect()
}

fn unorm_table() -> Unorm16Table {
    let bits: Vec<u32> = (0..=65535u32).map(|v| (v as f32 / 65535.0).to_bits()).collect();
    Unorm16Table::from_bits(bits).unwrap()
}

/// One buffer holding positions (3 vertices), normals, indices, and optionally more.
fn triangle_document(extra: Vec<u8>) -> (GltfDocument, Vec<BufferView>) {
    let positions = f32_bytes(&[0.0, 0.0, 0.0, 1.0, 0.0, 0.0, 0.0, 1.0, 0.0]);
    let normals = f32_bytes(&[0.0, 0.0, 1.0, 0.0, 0.0, 1.0, 0.0, 0.0, 1.0]);
    let indices = u16_bytes(&[0, 1, 2]);
    let mut data = Vec::new();
    data.extend_from_slice(&positions);
    data.extend_from_slice(&normals);
    data.extend_from_slice(&indices);
    data.extend_from_slice(&extra);
    let views = vec![
        BufferView { buffer: 0, byte_offset: 0, byte_length: 36 },
        BufferView { buffer: 0, byte_offset: 36, byte_length: 36 },
        BufferView { buffer: 0, byte_offset: 72, byte_length: 6 },
        BufferView { buffer: 0, byte_offset: 78, byte_length: extra.len() },
    ];
    let doc = GltfDocument {
        buffers: Some(vec![BufferPayload::Embedded(data)]),
        buffer_views: Some(views.clone()),
        accessors: Some(vec![
            Accessor { buffer_view: Some(0), count: 3 },
            Accessor { buffer_view: Some(1), count: 3 },
            Accessor { buffer_view: Some(2), count: 3 },
            Accessor { buffer_view: Some(3), count: 3 },
        ]),
        meshes: Some(vec![GltfMesh { primitives: vec![primitive()] }]),
        materials: None,
    };
    (doc, views)
}

fn primitive() -> Primitive {
    Primitive {
        attributes: Attributes { position: Some(0), normal: Some(1), tangent: None, tex_coord_0: None, color_0: None },
        indices: Some(2),
        material: None,
    }
}

fn with_primitive(doc: &mut GltfDocument, p: Primitive) {
    doc.meshes = Some(vec![GltfMesh { primitives: vec![p] }]);
}

#[test]
fn thirty_six_bytes_decode_to_three_position_tuples() {
    let bytes = f32_bytes(&[1.0, 2.0, 3.0, 4.0, 5.0, 6.0, 7.0, 8.0, 9.0]);
    let tuples = decode_float_tuples(&bytes, 3).unwrap();
    assert_eq!(tuples.len(), 3);
    assert_eq!(tuples[1], vec![4.0f32.to_bits(), 5.0f32.to_bits(), 6.0f32.to_bits()]);
    assert!(tuples.iter().all(|t| t.len() == 3));
}

#[test]
fn byte_range_not_a_multiple_of_the_tuple_size_is_a_decode_error() {
    let bytes = f32_bytes(&[1.0, 2.0, 3.0, 4.0]);
    assert_eq!(decode_float_tuples(&bytes, 3).err(), Some(Error::Decode));
    assert_eq!(decode_index_list(&[1, 2, 3]).err(), Some(Error::Decode));
    assert_eq!(decode_color_tuples(&[0; 6], &unorm_table()).err(), Some(Error::Decode));
}

#[test]
fn indices_are_little_endian_shorts_widened() {
    assert_eq!(decode_index_list(&[1, 0, 0xff, 0xff, 0, 1]).unwrap(), vec![1, 65535, 256]);
}

#[test]
fn colors_are_normalized_through_the_table() {
    let bytes = u16_bytes(&[0, 65535, 32768, 65535]);
    let colors = decode_color_tuples(&bytes, &unorm_table()).unwrap();
    assert_eq!(colors.len(), 1);
    assert_eq!(colors[0][0], 0.0f32.to_bits());
    assert_eq!(colors[0][1], 1.0f32.to_bits());
    assert_eq!(colors[0][2], (32768.0f32 / 65535.0).to_bits());
}

#[test]
fn table_needs_every_16_bit_value() {
    assert!(Unorm16Table::from_bits(vec![0; 10]).is_none());
    assert_eq!(unorm_table().get(65535), 1.0f32.to_bits());
}

#[test]
fn triangle_primitive_packs_position_and_normal() {
    let (doc, _) = triangle_document(Vec::new());
    let meshes = Mesh::from_gltf(&doc, &unorm_table()).unwrap();
    assert_eq!(meshes.len(), 1);
    let m = &meshes[0];
    assert_eq!(m.vertex_count(), 3);
    assert_eq!(m.indices(), &[0u32, 1, 2][..]);
    assert_eq!(m.layout().stride, 24);
    assert!(m.layout().interleaved);
    assert!(m.culling().is_enabled());
    assert_eq!(read_component(m.vertices(), m.layout(), 1, 0, 0), Some(1.0f32.to_bits()));
    assert_eq!(read_component(m.vertices(), m.layout(), 2, 1, 2), Some(1.0f32.to_bits()));
}

#[test]
fn optional_streams_follow_in_tangent_uv_color_order() {
    let mut extra = f32_bytes(&[0.5, 0.5, 1.0, 1.0, 0.0, 0.0]);
    extra.extend(u16_bytes(&[65535, 0, 0, 65535, 0, 65535, 0, 65535, 0, 0, 65535, 65535]));
    let (mut doc, mut views) = triangle_document(extra);
    views[3].byte_length = 24;
    views.push(BufferView { buffer: 0, byte_offset: 102, byte_length: 24 });
    doc.buffer_views = Some(views);
    let mut accessors = doc.accessors.take().unwrap();
    accessors.push(Accessor { buffer_view: Some(4), count: 3 });
    doc.accessors = Some(accessors);
    let mut p = primitive();
    p.attributes.tex_coord_0 = Some(3);
    p.attributes.color_0 = Some(4);
    with_primitive(&mut doc, p);
    let meshes = Mesh::from_gltf(&doc, &unorm_table()).unwrap();
    let kinds: Vec<AttributeKind> = meshes[0].layout().attributes.iter().map(|a| a.kind).collect();
    assert_eq!(kinds, vec![AttributeKind::Position, AttributeKind::Normal, AttributeKind::UV, AttributeKind::Color]);
    assert_eq!(meshes[0].layout().stride, 12 + 12 + 8 + 16);
    let m = &meshes[0];
    assert_eq!(read_component(m.vertices(), m.layout(), 0, 2, 1), Some(0.5f32.to_bits()));
    assert_eq!(read_component(m.vertices(), m.layout(), 1, 3, 0), Some(0.0f32.to_bits()));
    assert_eq!(read_component(m.vertices(), m.layout(), 1, 3, 1), Some(1.0f32.to_bits()));
}

#[test]
fn primitive_without_position_is_a_format_error() {
    let (mut doc, _) = triangle_document(Vec::new());
    let mut p = primitive();
    p.attributes.position = None;
    with_primitive(&mut doc, p);
    assert_eq!(Mesh::from_gltf(&doc, &unorm_table()).err(), Some(Error::Format));
}

#[test]
fn primitive_without_normal_or_indices_is_a_format_error() {
    let (mut doc, _) = triangle_document(Vec::new());
    let mut p = primitive();
    p.attributes.normal = None;
    with_primitive(&mut doc, p);
    assert_eq!(Mesh::from_gltf(&doc, &unorm_table()).err(), Some(Error::Format));
    let mut p = primitive();
    p.indices = None;
    with_primitive(&mut doc, p);
    assert_eq!(Mesh::from_gltf(&doc, &unorm_table()).err(), Some(Error::Format));
}

#[test]
fn missing_top_level_structures_are_format_errors() {
    let (mut doc, _) = triangle_document(Vec::new());
    doc.meshes = None;
    assert_eq!(Mesh::from_gltf(&doc, &unorm_table()).err(), Some(Error::Format));
    let (mut doc, _) = triangle_document(Vec::new());
    doc.accessors = None;
    assert_eq!(Mesh::from_gltf(&doc, &unorm_table()).err(), Some(Error::Format));
    let (mut doc, _) = triangle_document(Vec::new());
    doc.buffer_views = None;
    assert_eq!(Mesh::from_gltf(&doc, &unorm_table()).err(), Some(Error::Format));
}

#[test]
fn external_buffer_is_a_format_error_and_malformed_data_a_decode_error() {
    let (mut doc, _) = triangle_document(Vec::new());
    doc.buffers = Some(vec![BufferPayload::External]);
    assert_eq!(Mesh::from_gltf(&doc, &unorm_table()).err(), Some(Error::Format));
    doc.buffers = Some(vec![BufferPayload::MalformedData]);
    assert_eq!(Mesh::from_gltf(&doc, &unorm_table()).err(), Some(Error::Decode));
}

#[test]
fn dangling_accessor_is_a_format_error() {
    let (mut doc, _) = triangle_document(Vec::new());
    let mut p = primitive();
    p.attributes.normal = Some(9);
    with_primitive(&mut doc, p);
    assert_eq!(Mesh::from_gltf(&doc, &unorm_table()).err(), Some(Error::Format));
}

#[test]
fn streams_of_different_lengths_are_a_layout_error() {
    let (mut doc, mut views) = triangle_document(Vec::new());
    views[1].byte_length = 24;
    doc.buffer_views = Some(views);
    assert_eq!(Mesh::from_gltf(&doc, &unorm_table()).err(), Some(Error::Layout));
}

#[test]
fn double_sided_material_disables_culling() {
    let (mut doc, _) = triangle_document(Vec::new());
    doc.materials = Some(vec![Material { double_sided: false }, Material { double_sided: true }]);
    let mut p = primitive();
    p.material = Some(1);
    with_primitive(&mut doc, p);
    let meshes = Mesh::from_gltf(&doc, &unorm_table()).unwrap();
    assert!(!meshes[0].culling().is_enabled());
    p.material = Some(0);
    with_primitive(&mut doc, p);
    let meshes = Mesh::from_gltf(&doc, &unorm_table()).unwrap();
    assert!(meshes[0].culling().is_enabled());
}

#[test]
fn data_uri_payload_is_decoded() {
    match BufferPayload::from_uri(Some(b"data:application/octet-stream;base64,AQID")) {
        BufferPayload::Embedded(v) => assert_eq!(v, vec![1, 2, 3]),
        _ => panic!("expected an embedded payload"),
    }
    match BufferPayload::from_uri(Some(b"data:;base64,")) {
        BufferPayload::Embedded(v) => assert!(v.is_empty()),
        _ => panic!("expected an empty embedded payload"),
    }
}

#[test]
fn uri_kinds_are_told_apart() {
    assert!(matches!(BufferPayload::from_uri(None), BufferPayload::NoUri));
    assert!(matches!(BufferPayload::from_uri(Some(b"mesh.bin")), BufferPayload::External));
    assert!(matches!(BufferPayload::from_uri(Some(b"https://x/mesh.bin")), BufferPayload::External));
    assert!(matches!(BufferPayload::from_uri(Some(b"data:text/plain,hello")), BufferPayload::MalformedData));
    assert!(matches!(BufferPayload::from_uri(Some(b"data:;base64,A$==")), BufferPayload::MalformedData));
}

#[test]
fn table_must_rise_from_zero_to_one() {
    let mut bits: Vec<u32> = (0..=65535u32).map(|v| (v as f32 / 65535.0).to_bits()).collect();
    bits[100] = bits[101] + 1;
    assert!(Unorm16Table::from_bits(bits.clone()).is_none());
    bits[100] = bits[99];
    assert!(Unorm16Table::from_bits(bits.clone()).is_some());
    bits[65535] = 0;
    assert!(Unorm16Table::from_bits(bits).is_none());
}
