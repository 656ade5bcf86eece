//! The packed, immutable result of loading one object or primitive.
use vstd::prelude::*;
use crate::error::Error;
use crate::layout::{
    AttributeStream, StreamView, VertexLayout, LayoutView, streams_aligned, element_count, kinds_of,
    packed, planned, pack_interleaved,
};

verus! {

/// Which faces culling discards.
#[derive(Debug, Clone, Copy, PartialEq, Eq, Structural)]
pub enum CullingMode {
    Front,
    Back,
    FrontAndBack,
}

/// Which winding marks a front face.
#[derive(Debug, Clone, Copy, PartialEq, Eq, Structural)]
pub enum WindingOrder {
    Clockwise,
    CounterClockwise,
}

/// Face culling configuration of a mesh.
#[derive(Debug, Clone, Copy, PartialEq, Eq, Structural)]
pub struct Culling {
    pub enabled: bool,
    pub mode: CullingMode,
    pub order: WindingOrder,
}

/// Back-face culling with counter-clockwise front faces, on or off.
pub open spec fn default_culling(enabled: bool) -> Culling {
    Culling { enabled, mode: CullingMode::Back, order: WindingOrder::CounterClockwise }
}

impl Culling {
    /// Back-face culling, enabled.
    pub fn initialize() -> (r: Culling)
        ensures
            r == default_culling(true),
    {
        Culling { enabled: true, mode: CullingMode::Back, order: WindingOrder::CounterClockwise }
    }

    /// Back-face culling, disabled.
    pub fn initialize_disabled() -> (r: Culling)
        ensures
            r == default_culling(false),
    {
        Culling { enabled: false, mode: CullingMode::Back, order: WindingOrder::CounterClockwise }
    }

    pub fn is_enabled(&self) -> (r: bool)
        ensures
            r == self.enabled,
    {
        self.enabled
    }

    pub fn winding_order(&self) -> (r: WindingOrder)
        ensures
            r == self.order,
    {
        self.order
    }

    pub fn culling_mode(&self) -> (r: CullingMode)
        ensures
            r == self.mode,
    {
        self.mode
    }
}

/// Packed vertex bytes, indices, layout and culling of one mesh.
pub struct Mesh {
    vertices: Vec<u8>,
    indices: Vec<u32>,
    culling: Culling,
    layout: VertexLayout,
    vertex_count: usize,
}

pub ghost struct MeshView {
    pub vertices: Seq<u8>,
    pub indices: Seq<u32>,
    pub culling: Culling,
    pub layout: LayoutView,
    pub vertex_count: nat,
}

impl View for Mesh {
    type V = MeshView;

    closed spec fn view(&self) -> MeshView {
        MeshView {
            vertices: self.vertices@,
            indices: self.indices@,
            culling: self.culling,
            layout: self.layout@,
            vertex_count: self.vertex_count as nat,
        }
    }
}

/// The mesh made by interleaving `ss`: `Layout` unless the streams are well
/// formed and of equal length.
pub open spec fn interleaved_mesh(ss: Seq<StreamView>, indices: Seq<u32>, culling: Culling, interleaved: bool) -> Result<
    MeshView,
    Error,
> {
    if streams_aligned(ss, element_count(ss)) {
        Ok(
            MeshView {
                vertices: packed(ss, element_count(ss) as int),
                indices,
                culling,
                layout: planned(kinds_of(ss), interleaved),
                vertex_count: element_count(ss),
            },
        )
    } else {
        Err(Error::Layout)
    }
}

impl Mesh {
    /// Packs the streams vertex by vertex and keeps the indices and culling.
    /// `interleaved` is recorded in the layout.
    pub fn from_raw(streams: &Vec<AttributeStream>, indices: Vec<u32>, culling: Culling, interleaved: bool) -> (r:
        Result<Mesh, Error>)
        requires
            16 * streams@.len() <= usize::MAX,
        ensures
            ({
                let want = interleaved_mesh(
                    streams@.map_values(|s: AttributeStream| s@),
                    indices@,
                    culling,
                    interleaved,
                );
                match r {
                    Ok(m) => want == Ok::<MeshView, Error>(m@),
                    Err(e) => want == Err::<MeshView, Error>(e),
                }
            }),
    {
        let ghost ss = streams@.map_values(|s: AttributeStream| s@);
        match pack_interleaved(streams) {
            Ok((vertices, layout)) => {
                let mut layout = layout;
                layout.interleaved = interleaved;
                let n: usize = if streams.len() == 0 { 0 } else { streams[0].elements.len() };
                assert(layout.attributes@ == planned(kinds_of(ss), interleaved).attributes);
                Ok(Mesh { vertices, indices, culling, layout, vertex_count: n })
            },
            Err(e) => Err(e),
        }
    }

    /// The packed vertex bytes.
    pub fn vertices(&self) -> (r: &[u8])
        ensures
            r@ == self@.vertices,
    {
        self.vertices.as_slice()
    }

    pub fn indices(&self) -> (r: &[u32])
        ensures
            r@ == self@.indices,
    {
        self.indices.as_slice()
    }

    pub fn culling(&self) -> (r: &Culling)
        ensures
            *r == self@.culling,
    {
        &self.culling
    }

    pub fn layout(&self) -> (r: &VertexLayout)
        ensures
            r@ == self@.layout,
    {
        &self.layout
    }

    /// Number of vertices that were packed.
    pub fn vertex_count(&self) -> (r: usize)
        ensures
            r == self@.vertex_count,
    {
        self.vertex_count
    }

    pub fn index_count(&self) -> (r: usize)
        ensures
            r == self@.indices.len(),
    {
        self.indices.len()
    }

    /// Number of triangles, or `None` when the index count is not a multiple of three.
    pub fn triangle_count(&self) -> (r: Option<usize>)
        ensures
            r == (if self@.indices.len() % 3 == 0 {
                Some((self@.indices.len() / 3) as usize)
            } else {
                None::<usize>
            }),
    {
        let n = self.indices.len();
        if n % 3 == 0 {
            Some(n / 3)
        } else {
            None
        }
    }
}

} // verus!
