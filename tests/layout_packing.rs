use mesh_ingest::error::Error;
use mesh_ingest::layout::{pack_interleaved, plan_layout, read_component, AttributeKind, AttributeStream};
use mesh_ingest::mesh::{Culling, Mesh};

fn stream(kind: AttributeKind, elements: Vec<Vec<f32>>) -> AttributeStream {
    AttributeStream {
        kind,
        elements: elements.into_iter().map(|e| e.into_iter().map(|x| x.to_bits()).collect()).collect(),
    }
}

#[test]
fn position_normal_uv_layout_has_stride_32_and_offsets_0_12_24() {
    let layout = plan_layout(&vec![AttributeKind::Position, AttributeKind::Normal, AttributeKind::UV], true);
    assert_eq!(layout.stride, 32);
    let offsets: Vec<usize> = layout.attributes.iter().map(|a| a.offset).collect();
    assert_eq!(offsets, vec![0, 12, 24]);
    let counts: Vec<usize> = layout.attributes.iter().map(|a| a.component_count).collect();
    assert_eq!(counts, vec![3, 3, 2]);
}

#[test]
fn full_layout_with_tangent_and_color() {
    let kinds = vec![
        AttributeKind::Position,
        AttributeKind::Normal,
        AttributeKind::Tangent,
        AttributeKind::UV,
        AttributeKind::Color,
    ];
    let layout = plan_layout(&kinds, true);
    assert_eq!(layout.stride, 12 + 12 + 16 + 8 + 16);
    let offsets: Vec<usize> = layout.attributes.iter().map(|a| a.offset).collect();
    assert_eq!(offsets, vec![0, 12, 24, 40, 48]);
}

#[test]
fn kind_sizes_and_names() {
    assert_eq!(AttributeKind::Tangent.byte_size(), 16);
    assert_eq!(AttributeKind::UV.component_count(), 2);
    assert_eq!(AttributeKind::Color.msg(), "Color");
}

fn quad_streams() -> Vec<AttributeStream> {
    vec![
        stream(
            AttributeKind::Position,
            vec![vec![-0.5, 0.5, 0.0], vec![-0.5, -0.5, 0.0], vec![0.5, 0.5, 0.0], vec![0.5, -0.5, 0.0]],
        ),
        stream(AttributeKind::Normal, vec![vec![0.0, 0.0, 1.0]; 4]),
        stream(AttributeKind::UV, vec![vec![0.0, 1.0], vec![0.0, 0.0], vec![1.0, 1.0], vec![1.0, 0.0]]),
    ]
}

#[test]
fn packed_quad_reads_back_through_layout() {
    let streams = quad_streams();
    let mesh = Mesh::from_raw(&streams, vec![0, 1, 2, 2, 1, 3], Culling::initialize_disabled(), true).unwrap();
    assert_eq!(mesh.vertex_count(), 4);
    assert_eq!(mesh.triangle_count(), Some(2));
    assert_eq!(mesh.vertices().len(), 4 * 32);
    for v in 0..4 {
        for (a, s) in streams.iter().enumerate() {
            for c in 0..s.kind.component_count() {
                assert_eq!(read_component(mesh.vertices(), mesh.layout(), v, a, c), Some(s.elements[v][c]));
            }
        }
    }
    assert_eq!(read_component(mesh.vertices(), mesh.layout(), 4, 0, 0), None);
    assert_eq!(read_component(mesh.vertices(), mesh.layout(), 0, 3, 0), None);
    assert_eq!(read_component(mesh.vertices(), mesh.layout(), 0, 2, 2), None);
}

#[test]
fn packing_is_little_endian_and_vertex_major() {
    let streams = vec![
        AttributeStream { kind: AttributeKind::UV, elements: vec![vec![0x0403_0201, 0x0807_0605], vec![9, 10]] },
        AttributeStream { kind: AttributeKind::UV, elements: vec![vec![11, 12], vec![13, 14]] },
    ];
    let (bytes, layout) = pack_interleaved(&streams).unwrap();
    assert_eq!(layout.stride, 16);
    assert_eq!(&bytes[0..8], &[1, 2, 3, 4, 5, 6, 7, 8]);
    assert_eq!(&bytes[8..12], &[11, 0, 0, 0]);
    assert_eq!(&bytes[16..20], &[9, 0, 0, 0]);
    assert_eq!(bytes.len(), 32);
}

#[test]
fn streams_of_unequal_length_are_a_layout_error() {
    let mut streams = quad_streams();
    streams[2].elements.pop();
    assert_eq!(pack_interleaved(&streams).err(), Some(Error::Layout));
}

#[test]
fn tuple_of_wrong_size_is_a_layout_error() {
    let mut streams = quad_streams();
    streams[1].elements[2].push(0);
    assert_eq!(pack_interleaved(&streams).err(), Some(Error::Layout));
}

#[test]
fn no_streams_pack_to_nothing() {
    let (bytes, layout) = pack_interleaved(&Vec::new()).unwrap();
    assert!(bytes.is_empty());
    assert_eq!(layout.stride, 0);
}

#[test]
fn triangle_count_is_flagged_when_indices_are_not_triples() {
    let mesh = Mesh::from_raw(&quad_streams(), vec![0, 1, 2, 3], Culling::initialize(), true).unwrap();
    assert_eq!(mesh.triangle_count(), None);
    assert_eq!(mesh.index_count(), 4);
}
