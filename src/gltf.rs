//! glTF documents with embedded buffers: accessors decoded into attribute
//! streams and packed into meshes, one per primitive.
use vstd::prelude::*;
use vstd::slice::slice_subrange;
use crate::bytes::{u32_at, u16_at, read_u32_le, read_u16_le};
use crate::error::Error;
use crate::layout::{AttributeKind, AttributeStream, StreamView};
use crate::mesh::{Culling, Mesh, MeshView, interleaved_mesh, default_culling};

verus! {

/// The payload behind a buffer's URI.
pub enum BufferPayload {
    /// A data URI, already decoded.
    Embedded(Vec<u8>),
    /// A URI that points outside the document.
    External,
    /// A data URI whose payload cannot be decoded.
    MalformedData,
    /// A buffer without a URI.
    NoUri,
}

/// What base64's standard engine (standard alphabet, padding required)
/// decodes `s` to, or `None` when it rejects `s`.
pub uninterp spec fn base64_decoded(s: Seq<u8>) -> Option<Seq<u8>>;

/// Relies on `base64::Engine::decode` of the crate's `STANDARD` engine: it
/// returns the decoded bytes or an error, from the input bytes alone.
#[verifier::external_body]
fn decode_base64(s: &[u8]) -> (r: Option<Vec<u8>>)
    ensures
        r is Some <==> base64_decoded(s@) is Some,
        r matches Some(v) ==> base64_decoded(s@) == Some(v@),
{
    base64::Engine::decode(&base64::engine::general_purpose::STANDARD, s).ok()
}

/// `p` stands in `t` at index `i`.
pub open spec fn occurs_at(t: Seq<u8>, p: Seq<u8>, i: int) -> bool {
    0 <= i && i + p.len() <= t.len() && t.subrange(i, i + p.len()) == p
}

/// Index of the first occurrence of the non-empty `p` in `t` at or after `i`.
pub open spec fn first_occurrence(t: Seq<u8>, p: Seq<u8>, i: int) -> Option<int>
    decreases t.len() - i,
{
    if i < 0 || i >= t.len() || i + p.len() > t.len() {
        None
    } else if occurs_at(t, p, i) {
        Some(i)
    } else {
        first_occurrence(t, p, i + 1)
    }
}

/// `data:`
pub open spec fn data_scheme() -> Seq<u8> {
    seq![0x64u8, 0x61, 0x74, 0x61, 0x3a]
}

/// `;base64,`
pub open spec fn base64_marker() -> Seq<u8> {
    seq![0x3bu8, 0x62, 0x61, 0x73, 0x65, 0x36, 0x34, 0x2c]
}

fn occurs_at_exec(t: &[u8], p: &[u8], i: usize) -> (r: bool)
    ensures
        r == occurs_at(t@, p@, i as int),
{
    if i > t.len() || p.len() > t.len() - i {
        return false;
    }
    assert(i + p@.len() <= usize::MAX);
    let mut k: usize = 0;
    while k < p.len()
        invariant
            k <= p@.len(),
            i + p@.len() <= t@.len(),
            i + p@.len() <= usize::MAX,
            forall|m: int| 0 <= m < k ==> t@[i + m] == p@[m],
        decreases p@.len() - k,
    {
        if t[i + k] != p[k] {
            assert(t@.subrange(i as int, i + p@.len())[k as int] != p@[k as int]);
            return false;
        }
        k = k + 1;
    }
    assert(t@.subrange(i as int, i + p@.len()) =~= p@);
    true
}

impl BufferPayload {
    /// The payload behind a buffer's URI: `NoUri` without one, `External`
    /// unless it starts with `data:`, and otherwise the base64 text after the
    /// first `;base64,`, decoded (`MalformedData` when there is no such marker
    /// or the text does not decode).
    pub fn from_uri(uri: Option<&[u8]>) -> (r: BufferPayload)
        ensures
            match uri {
                None => r is NoUri,
                Some(u) => if !occurs_at(u@, data_scheme(), 0) {
                    r is External
                } else {
                    match first_occurrence(u@, base64_marker(), 0) {
                        None => r is MalformedData,
                        Some(i) => match base64_decoded(u@.subrange(i + 8, u@.len() as int)) {
                            None => r is MalformedData,
                            Some(d) => r matches BufferPayload::Embedded(v) && v@ == d,
                        },
                    }
                },
            },
    {
        let u = match uri {
            None => return BufferPayload::NoUri,
            Some(u) => u,
        };
        let scheme: Vec<u8> = vec![0x64u8, 0x61, 0x74, 0x61, 0x3a];
        let marker: Vec<u8> = vec![0x3bu8, 0x62, 0x61, 0x73, 0x65, 0x36, 0x34, 0x2c];
        assert(scheme@ =~= data_scheme());
        assert(marker@ =~= base64_marker());
        if !occurs_at_exec(u, scheme.as_slice(), 0) {
            return BufferPayload::External;
        }
        let mut i: usize = 0;
        while i <= u.len() && u.len() - i >= 8
            invariant
                marker@ == base64_marker(),
                uri == Some(u),
                occurs_at(u@, data_scheme(), 0),
                first_occurrence(u@, base64_marker(), 0) == first_occurrence(u@, base64_marker(), i as int),
            decreases u@.len() - i,
        {
            if occurs_at_exec(u, marker.as_slice(), i) {
                return match decode_base64(slice_subrange(u, i + 8, u.len())) {
                    Some(v) => BufferPayload::Embedded(v),
                    None => BufferPayload::MalformedData,
                };
            }
            i = i + 1;
        }
        BufferPayload::MalformedData
    }
}

#[derive(Debug, Clone, Copy, PartialEq, Eq, Structural)]
pub struct BufferView {
    pub buffer: usize,
    pub byte_offset: usize,
    pub byte_length: usize,
}

#[derive(Debug, Clone, Copy, PartialEq, Eq, Structural)]
pub struct Accessor {
    pub buffer_view: Option<usize>,
    pub count: usize,
}

/// Accessor indices of a primitive's attributes.
#[derive(Debug, Clone, Copy, PartialEq, Eq, Structural)]
pub struct Attributes {
    pub position: Option<usize>,
    pub normal: Option<usize>,
    pub tangent: Option<usize>,
    pub tex_coord_0: Option<usize>,
    pub color_0: Option<usize>,
}

#[derive(Debug, Clone, Copy, PartialEq, Eq, Structural)]
pub struct Primitive {
    pub attributes: Attributes,
    pub indices: Option<usize>,
    pub material: Option<usize>,
}

pub struct GltfMesh {
    pub primitives: Vec<Primitive>,
}

#[derive(Debug, Clone, Copy, PartialEq, Eq, Structural)]
pub struct Material {
    pub double_sided: bool,
}

/// The parts of a glTF document that meshes are read from.
pub struct GltfDocument {
    pub buffers: Option<Vec<BufferPayload>>,
    pub buffer_views: Option<Vec<BufferView>>,
    pub accessors: Option<Vec<Accessor>>,
    pub meshes: Option<Vec<GltfMesh>>,
    pub materials: Option<Vec<Material>>,
}

/// Bit patterns of `v / 65535` as 32-bit floats, for every 16-bit `v`.
pub struct Unorm16Table {
    bits: Vec<u32>,
}

impl View for Unorm16Table {
    type V = Seq<u32>;

    closed spec fn view(&self) -> Seq<u32> {
        self.bits@
    }
}

/// A table that can stand for `v / 65535`: one word per 16-bit value, 0.0
/// for 0, 1.0 for 65535, and never decreasing (bit patterns of non-negative
/// floats order as the floats do).
pub open spec fn unorm16_table_ok(bits: Seq<u32>) -> bool {
    &&& bits.len() == 65536
    &&& bits[0] == 0
    &&& bits[65535] == 0x3f80_0000
    &&& forall|i: int| 0 <= i < 65535 ==> #[trigger] bits[i] <= bits[i + 1]
}

impl Unorm16Table {
    #[verifier::type_invariant]
    spec fn inv(self) -> bool {
        unorm16_table_ok(self.bits@)
    }

    /// A table from its 65536 entries; `None` unless they start at 0.0, end at
    /// 1.0 and never decrease.
    pub fn from_bits(bits: Vec<u32>) -> (r: Option<Unorm16Table>)
        ensures
            r is Some <==> unorm16_table_ok(bits@),
            r matches Some(t) ==> t@ == bits@,
    {
        if bits.len() != 65536 || bits[0] != 0 || bits[65535] != 0x3f80_0000 {
            return None;
        }
        let mut i: usize = 0;
        while i < 65535
            invariant
                i <= 65535,
                bits@.len() == 65536,
                forall|k: int| 0 <= k < i ==> #[trigger] bits@[k] <= bits@[k + 1],
            decreases 65535 - i,
        {
            if bits[i] > bits[i + 1] {
                return None;
            }
            i = i + 1;
        }
        Some(Unorm16Table { bits })
    }

    pub fn get(&self, v: u16) -> (r: u32)
        ensures
            r == self@[v as int],
    {
        proof {
            use_type_invariant(self);
        }
        self.bits[v as usize]
    }
}

pub open spec fn payload_error(p: BufferPayload) -> Option<Error> {
    match p {
        BufferPayload::Embedded(_) => None,
        BufferPayload::MalformedData => Some(Error::Decode),
        _ => Some(Error::Format),
    }
}

/// The error of the first buffer from `k` on whose payload is not embedded data.
pub open spec fn first_buffer_error(ps: Seq<BufferPayload>, k: int) -> Option<Error>
    decreases ps.len() - k,
{
    if k < 0 || k >= ps.len() {
        None
    } else if payload_error(ps[k]) is Some {
        payload_error(ps[k])
    } else {
        first_buffer_error(ps, k + 1)
    }
}

/// The bytes that accessor `i` refers to, through its buffer view and buffer.
pub open spec fn accessor_bytes(doc: GltfDocument, i: usize) -> Result<Seq<u8>, Error> {
    match (doc.accessors, doc.buffer_views, doc.buffers) {
        (Some(accessors), Some(views), Some(buffers)) => {
            if i >= accessors@.len() {
                Err(Error::Format)
            } else {
                match accessors@[i as int].buffer_view {
                    None => Err(Error::Format),
                    Some(vi) => if vi >= views@.len() {
                        Err(Error::Format)
                    } else {
                        let view = views@[vi as int];
                        if view.buffer >= buffers@.len() {
                            Err(Error::Format)
                        } else {
                            match buffers@[view.buffer as int] {
                                BufferPayload::Embedded(b) => if view.byte_offset + view.byte_length
                                    <= b@.len() {
                                    Ok(
                                        b@.subrange(
                                            view.byte_offset as int,
                                            view.byte_offset + view.byte_length,
                                        ),
                                    )
                                } else {
                                    Err(Error::Format)
                                },
                                _ => Err(Error::Format),
                            }
                        }
                    },
                }
            }
        },
        _ => Err(Error::Format),
    }
}

/// Consecutive little-endian words grouped into tuples of `comps`.
pub open spec fn decode_floats(b: Seq<u8>, comps: nat) -> Result<Seq<Seq<u32>>, Error> {
    if b.len() % (4 * comps) != 0 {
        Err(Error::Decode)
    } else {
        Ok(
            Seq::new(
                b.len() / (4 * comps),
                |v: int| Seq::new(comps, |c: int| u32_at(b, 4 * (v * comps + c))),
            ),
        )
    }
}

/// Consecutive little-endian 16-bit values grouped into fours, each mapped
/// through the normalisation table.
pub open spec fn decode_colors(b: Seq<u8>, table: Seq<u32>) -> Result<Seq<Seq<u32>>, Error> {
    if b.len() % 8 != 0 {
        Err(Error::Decode)
    } else {
        Ok(Seq::new(b.len() / 8, |v: int| Seq::new(4, |c: int| table[u16_at(b, 8 * v + 2 * c) as int])))
    }
}

/// Consecutive little-endian 16-bit values, widened.
pub open spec fn decode_indices(b: Seq<u8>) -> Result<Seq<u32>, Error> {
    if b.len() % 2 != 0 {
        Err(Error::Decode)
    } else {
        Ok(Seq::new(b.len() / 2, |i: int| u16_at(b, 2 * i) as u32))
    }
}

pub open spec fn float_stream(doc: GltfDocument, i: usize, kind: AttributeKind) -> Result<StreamView, Error> {
    match accessor_bytes(doc, i) {
        Err(e) => Err(e),
        Ok(b) => match decode_floats(b, kind.components()) {
            Err(e) => Err(e),
            Ok(es) => Ok(StreamView { kind, elements: es }),
        },
    }
}

/// A position accessor whose buffer view spans 36 bytes decodes to exactly
/// three tuples of three floats, component `j` of tuple `i` being the word at
/// byte `12 * i + 4 * j` of that range.
pub proof fn lemma_position_accessor_of_36_bytes(doc: GltfDocument, i: usize, b: Seq<u8>)
    requires
        accessor_bytes(doc, i) == Ok::<Seq<u8>, Error>(b),
        b.len() == 36,
    ensures
        float_stream(doc, i, AttributeKind::Position) is Ok,
        float_stream(doc, i, AttributeKind::Position)->Ok_0.kind == AttributeKind::Position,
        float_stream(doc, i, AttributeKind::Position)->Ok_0.elements.len() == 3,
        forall|t: int, j: int|
            0 <= t < 3 && 0 <= j < 3 ==> (#[trigger] float_stream(doc, i, AttributeKind::Position)->Ok_0.elements[t][j])
                == u32_at(b, 12 * t + 4 * j),
        forall|t: int| 0 <= t < 3 ==> (#[trigger] float_stream(doc, i, AttributeKind::Position)->Ok_0.elements[t]).len() == 3,
{
    lemma_three_float_tuples(b, 3);

}

pub open spec fn optional_float_stream(doc: GltfDocument, i: Option<usize>, kind: AttributeKind) -> Result<
    Option<StreamView>,
    Error,
> {
    match i {
        None => Ok(None),
        Some(i) => match float_stream(doc, i, kind) {
            Err(e) => Err(e),
            Ok(s) => Ok(Some(s)),
        },
    }
}

pub open spec fn optional_color_stream(doc: GltfDocument, i: Option<usize>, table: Seq<u32>) -> Result<
    Option<StreamView>,
    Error,
> {
    match i {
        None => Ok(None),
        Some(i) => match accessor_bytes(doc, i) {
            Err(e) => Err(e),
            Ok(b) => match decode_colors(b, table) {
                Err(e) => Err(e),
                Ok(es) => Ok(Some(StreamView { kind: AttributeKind::Color, elements: es })),
            },
        },
    }
}

pub open spec fn index_list(doc: GltfDocument, i: Option<usize>) -> Result<Seq<u32>, Error> {
    match i {
        None => Err(Error::Format),
        Some(i) => match accessor_bytes(doc, i) {
            Err(e) => Err(e),
            Ok(b) => decode_indices(b),
        },
    }
}

/// Back-face culling, disabled only where the primitive's material is double-sided.
pub open spec fn primitive_culling(doc: GltfDocument, p: Primitive) -> Result<Culling, Error> {
    match (p.material, doc.materials) {
        (Some(m), Some(materials)) => if m >= materials@.len() {
            Err(Error::Format)
        } else {
            Ok(default_culling(!materials@[m as int].double_sided))
        },
        _ => Ok(default_culling(true)),
    }
}

pub open spec fn present(o: Option<StreamView>) -> Seq<StreamView> {
    match o {
        Some(s) => seq![s],
        None => Seq::empty(),
    }
}

/// The mesh of one primitive: position, normal, then the optional tangent,
/// texture coordinate and color streams, interleaved.
#[verifier::opaque]
pub open spec fn primitive_mesh(doc: GltfDocument, p: Primitive, table: Seq<u32>) -> Result<MeshView, Error> {
    match p.attributes.position {
        None => Err(Error::Format),
        Some(pi) => match float_stream(doc, pi, AttributeKind::Position) {
            Err(e) => Err(e),
            Ok(pos) => match p.attributes.normal {
                None => Err(Error::Format),
                Some(ni) => match float_stream(doc, ni, AttributeKind::Normal) {
                    Err(e) => Err(e),
                    Ok(nor) => match optional_float_stream(doc, p.attributes.tangent, AttributeKind::Tangent) {
                        Err(e) => Err(e),
                        Ok(tan) => match optional_float_stream(doc, p.attributes.tex_coord_0, AttributeKind::UV) {
                            Err(e) => Err(e),
                            Ok(uv) => match optional_color_stream(doc, p.attributes.color_0, table) {
                                Err(e) => Err(e),
                                Ok(col) => match index_list(doc, p.indices) {
                                    Err(e) => Err(e),
                                    Ok(idx) => match primitive_culling(doc, p) {
                                        Err(e) => Err(e),
                                        Ok(cull) => interleaved_mesh(
                                            seq![pos, nor] + present(tan) + present(uv) + present(col),
                                            idx,
                                            cull,
                                            true,
                                        ),
                                    },
                                },
                            },
                        },
                    },
                },
            },
        },
    }
}

pub open spec fn primitives_of(doc: GltfDocument, m: int) -> Seq<Primitive> {
    match doc.meshes {
        Some(ms) => if 0 <= m < ms@.len() { ms@[m].primitives@ } else { Seq::empty() },
        None => Seq::empty(),
    }
}

pub open spec fn mesh_total(doc: GltfDocument) -> int {
    match doc.meshes {
        Some(ms) => ms@.len() as int,
        None => 0,
    }
}

/// Meshes of the primitives from primitive `k` of mesh `m` on, in order; the
/// first error stops the walk.
pub open spec fn meshes_from(doc: GltfDocument, table: Seq<u32>, m: int, k: int) -> Result<Seq<MeshView>, Error>
    decreases mesh_total(doc) - m, primitives_of(doc, m).len() - k,
{
    if m < 0 || k < 0 || m >= mesh_total(doc) {
        Ok(Seq::empty())
    } else if k >= primitives_of(doc, m).len() {
        meshes_from(doc, table, m + 1, 0)
    } else {
        match primitive_mesh(doc, primitives_of(doc, m)[k], table) {
            Err(e) => Err(e),
            Ok(mv) => match meshes_from(doc, table, m, k + 1) {
                Err(e) => Err(e),
                Ok(rest) => Ok(seq![mv] + rest),
            },
        }
    }
}

/// All meshes of the document, one per primitive.
pub open spec fn gltf_meshes(doc: GltfDocument, table: Seq<u32>) -> Result<Seq<MeshView>, Error> {
    match (doc.meshes, doc.buffers) {
        (Some(_), Some(buffers)) => match first_buffer_error(buffers@, 0) {
            Some(e) => Err(e),
            None => if doc.buffer_views is None || doc.accessors is None {
                Err(Error::Format)
            } else {
                meshes_from(doc, table, 0, 0)
            },
        },
        _ => Err(Error::Format),
    }
}

pub open spec fn prepend(done: Seq<MeshView>, r: Result<Seq<MeshView>, Error>) -> Result<Seq<MeshView>, Error> {
    match r {
        Ok(rest) => Ok(done + rest),
        Err(e) => Err(e),
    }
}

/// The bytes that accessor `i` refers to.
fn accessor_slice<'a>(doc: &'a GltfDocument, i: usize) -> (r: Result<&'a [u8], Error>)
    ensures
        match r {
            Ok(b) => accessor_bytes(*doc, i) == Ok::<Seq<u8>, Error>(b@),
            Err(e) => accessor_bytes(*doc, i) == Err::<Seq<u8>, Error>(e),
        },
{
    let accessors = match &doc.accessors {
        Some(a) => a,
        None => return Err(Error::Format),
    };
    let views = match &doc.buffer_views {
        Some(v) => v,
        None => return Err(Error::Format),
    };
    let buffers = match &doc.buffers {
        Some(b) => b,
        None => return Err(Error::Format),
    };
    if i >= accessors.len() {
        return Err(Error::Format);
    }
    let vi = match accessors[i].buffer_view {
        Some(vi) => vi,
        None => return Err(Error::Format),
    };
    if vi >= views.len() {
        return Err(Error::Format);
    }
    let view = views[vi];
    if view.buffer >= buffers.len() {
        return Err(Error::Format);
    }
    match &buffers[view.buffer] {
        BufferPayload::Embedded(b) => {
            if view.byte_offset > b.len() || view.byte_length > b.len() - view.byte_offset {
                return Err(Error::Format);
            }
            Ok(slice_subrange(b.as_slice(), view.byte_offset, view.byte_offset + view.byte_length))
        },
        _ => Err(Error::Format),
    }
}

proof fn lemma_exact_division(len: int, size: int)
    requires
        0 <= len,
        0 < size,
        len % size == 0,
    ensures
        (len / size) * size == len,
{
    vstd::arithmetic::div_mod::lemma_fundamental_div_mod(len, size);
    assert((len / size) * size == size * (len / size)) by (nonlinear_arith);
}

proof fn lemma_tuple_bound(len: int, count: int, size: int, v: int, c: int, comps: int)
    requires
        size == 4 * comps,
        1 <= comps,
        count * size == len,
        0 <= v < count,
        0 <= c < comps,
    ensures
        4 * (v * comps + c) + 4 <= len,
        0 <= v * comps + c,
{
    assert(4 * (v * comps + c) + 4 <= len) by (nonlinear_arith)
        requires
            size == 4 * comps,
            1 <= comps,
            count * size == len,
            0 <= v < count,
            0 <= c < comps,
    ;
    assert(0 <= v * comps + c) by (nonlinear_arith)
        requires
            0 <= v,
            0 <= c,
            1 <= comps,
    ;
}

/// A byte range of `12 * n` bytes decodes to exactly `n` tuples of three floats.
pub proof fn lemma_three_float_tuples(b: Seq<u8>, n: nat)
    requires
        b.len() == 12 * n,
    ensures
        decode_floats(b, 3) is Ok,
        decode_floats(b, 3)->Ok_0.len() == n,
        forall|i: int| 0 <= i < n ==> (#[trigger] decode_floats(b, 3)->Ok_0[i]).len() == 3,
{
    vstd::arithmetic::div_mod::lemma_mod_multiples_basic(n as int, 12);
    vstd::arithmetic::div_mod::lemma_div_multiples_vanish(n as int, 12);
}

/// Groups consecutive little-endian words of `b` into tuples of `comps`;
/// `Decode` unless the length is a multiple of `4 * comps`.
pub fn decode_float_tuples(b: &[u8], comps: usize) -> (r: Result<Vec<Vec<u32>>, Error>)
    requires
        1 <= comps <= 4,
    ensures
        match r {
            Ok(es) => decode_floats(b@, comps as nat) == Ok::<Seq<Seq<u32>>, Error>(
                es@.map_values(|e: Vec<u32>| e@),
            ),
            Err(e) => decode_floats(b@, comps as nat) == Err::<Seq<Seq<u32>>, Error>(e),
        },
{
    let size = 4 * comps;
    if b.len() % size != 0 {
        return Err(Error::Decode);
    }
    let count = b.len() / size;
    proof {
        lemma_exact_division(b@.len() as int, size as int);
    }
    let ghost want = Seq::new(
        count as nat,
        |v: int| Seq::new(comps as nat, |c: int| u32_at(b@, 4 * (v * comps + c))),
    );
    let mut out: Vec<Vec<u32>> = Vec::new();
    let mut v: usize = 0;
    while v < count
        invariant
            v <= count,
            1 <= comps <= 4,
            size == 4 * comps,
            count * size == b@.len(),
            b@.len() <= usize::MAX,
            count == b@.len() / (4 * comps as nat),
            want == Seq::new(
                count as nat,
                |v: int| Seq::new(comps as nat, |c: int| u32_at(b@, 4 * (v * comps + c))),
            ),
            out@.map_values(|e: Vec<u32>| e@) =~= want.take(v as int),
        decreases count - v,
    {
        let mut t: Vec<u32> = Vec::new();
        let mut c: usize = 0;
        while c < comps
            invariant
                c <= comps,
                v < count,
                1 <= comps <= 4,
                size == 4 * comps,
                count * size == b@.len(),
                b@.len() <= usize::MAX,
                t@ =~= Seq::new(c as nat, |j: int| u32_at(b@, 4 * (v * comps + j))),
            decreases comps - c,
        {
            proof {
                lemma_tuple_bound(b@.len() as int, count as int, size as int, v as int, c as int, comps as int);
            }
            let pos = 4 * (v * comps + c);
            t.push(read_u32_le(b, pos));
            c = c + 1;
        }
        assert(t@ =~= want[v as int]);
        let ghost before = out@;
        out.push(t);
        assert(out@.map_values(|e: Vec<u32>| e@) =~= before.map_values(|e: Vec<u32>| e@).push(want[v as int]));
        assert(want.take(v as int + 1) =~= want.take(v as int).push(want[v as int]));
        v = v + 1;
    }
    assert(want.take(count as int) =~= want);
    Ok(out)
}

/// Groups consecutive little-endian 16-bit values of `b` into fours, each
/// mapped through `table`; `Decode` unless the length is a multiple of 8.
pub fn decode_color_tuples(b: &[u8], table: &Unorm16Table) -> (r: Result<Vec<Vec<u32>>, Error>)
    ensures
        match r {
            Ok(es) => decode_colors(b@, table@) == Ok::<Seq<Seq<u32>>, Error>(es@.map_values(|e: Vec<u32>| e@)),
            Err(e) => decode_colors(b@, table@) == Err::<Seq<Seq<u32>>, Error>(e),
        },
{
    if b.len() % 8 != 0 {
        return Err(Error::Decode);
    }
    let count = b.len() / 8;
    proof {
        lemma_exact_division(b@.len() as int, 8);
    }
    let ghost want = Seq::new(count as nat, |v: int| Seq::new(4, |c: int| table@[u16_at(b@, 8 * v + 2 * c) as int]));
    let mut out: Vec<Vec<u32>> = Vec::new();
    let mut v: usize = 0;
    while v < count
        invariant
            v <= count,
            count * 8 == b@.len(),
            b@.len() <= usize::MAX,
            want == Seq::new(count as nat, |v: int| Seq::new(4, |c: int| table@[u16_at(b@, 8 * v + 2 * c) as int])),
            out@.map_values(|e: Vec<u32>| e@) =~= want.take(v as int),
        decreases count - v,
    {
        let mut t: Vec<u32> = Vec::new();
        let mut c: usize = 0;
        while c < 4
            invariant
                c <= 4,
                v < count,
                count * 8 == b@.len(),
                b@.len() <= usize::MAX,
                t@ =~= Seq::new(c as nat, |j: int| table@[u16_at(b@, 8 * v + 2 * j) as int]),
            decreases 4 - c,
        {
            let pos = 8 * v + 2 * c;
            t.push(table.get(read_u16_le(b, pos)));
            c = c + 1;
        }
        assert(t@ =~= want[v as int]);
        let ghost before = out@;
        out.push(t);
        assert(out@.map_values(|e: Vec<u32>| e@) =~= before.map_values(|e: Vec<u32>| e@).push(want[v as int]));
        assert(want.take(v as int + 1) =~= want.take(v as int).push(want[v as int]));
        v = v + 1;
    }
    assert(want.take(count as int) =~= want);
    Ok(out)
}

/// Consecutive little-endian 16-bit values of `b`, widened to 32 bits;
/// `Decode` when the length is odd.
pub fn decode_index_list(b: &[u8]) -> (r: Result<Vec<u32>, Error>)
    ensures
        match r {
            Ok(is) => decode_indices(b@) == Ok::<Seq<u32>, Error>(is@),
            Err(e) => decode_indices(b@) == Err::<Seq<u32>, Error>(e),
        },
{
    if b.len() % 2 != 0 {
        return Err(Error::Decode);
    }
    let count = b.len() / 2;
    proof {
        lemma_exact_division(b@.len() as int, 2);
    }
    let mut out: Vec<u32> = Vec::new();
    let mut i: usize = 0;
    while i < count
        invariant
            i <= count,
            count * 2 == b@.len(),
            b@.len() <= usize::MAX,
            out@ =~= Seq::new(i as nat, |j: int| u16_at(b@, 2 * j) as u32),
        decreases count - i,
    {
        out.push(read_u16_le(b, 2 * i) as u32);
        i = i + 1;
    }
    Ok(out)
}

fn float_stream_of(doc: &GltfDocument, i: usize, kind: AttributeKind) -> (r: Result<AttributeStream, Error>)
    ensures
        match r {
            Ok(s) => float_stream(*doc, i, kind) == Ok::<StreamView, Error>(s@),
            Err(e) => float_stream(*doc, i, kind) == Err::<StreamView, Error>(e),
        },
{
    let b = match accessor_slice(doc, i) {
        Ok(b) => b,
        Err(e) => return Err(e),
    };
    match decode_float_tuples(b, kind.component_count()) {
        Ok(elements) => Ok(AttributeStream { kind, elements }),
        Err(e) => Err(e),
    }
}

pub open spec fn stream_views(o: Option<AttributeStream>) -> Option<StreamView> {
    match o {
        Some(s) => Some(s@),
        None => None,
    }
}

fn optional_float_stream_of(doc: &GltfDocument, i: Option<usize>, kind: AttributeKind) -> (r: Result<
    Option<AttributeStream>,
    Error,
>)
    ensures
        match r {
            Ok(s) => optional_float_stream(*doc, i, kind) == Ok::<Option<StreamView>, Error>(stream_views(s)),
            Err(e) => optional_float_stream(*doc, i, kind) == Err::<Option<StreamView>, Error>(e),
        },
{
    match i {
        None => Ok(None),
        Some(i) => match float_stream_of(doc, i, kind) {
            Ok(s) => Ok(Some(s)),
            Err(e) => Err(e),
        },
    }
}

fn optional_color_stream_of(doc: &GltfDocument, i: Option<usize>, table: &Unorm16Table) -> (r: Result<
    Option<AttributeStream>,
    Error,
>)
    ensures
        match r {
            Ok(s) => optional_color_stream(*doc, i, table@) == Ok::<Option<StreamView>, Error>(stream_views(s)),
            Err(e) => optional_color_stream(*doc, i, table@) == Err::<Option<StreamView>, Error>(e),
        },
{
    match i {
        None => Ok(None),
        Some(i) => {
            let b = match accessor_slice(doc, i) {
                Ok(b) => b,
                Err(e) => return Err(e),
            };
            match decode_color_tuples(b, table) {
                Ok(elements) => Ok(Some(AttributeStream { kind: AttributeKind::Color, elements })),
                Err(e) => Err(e),
            }
        },
    }
}

fn index_list_of(doc: &GltfDocument, i: Option<usize>) -> (r: Result<Vec<u32>, Error>)
    ensures
        match r {
            Ok(is) => index_list(*doc, i) == Ok::<Seq<u32>, Error>(is@),
            Err(e) => index_list(*doc, i) == Err::<Seq<u32>, Error>(e),
        },
{
    match i {
        None => Err(Error::Format),
        Some(i) => match accessor_slice(doc, i) {
            Ok(b) => decode_index_list(b),
            Err(e) => Err(e),
        },
    }
}

fn culling_of(doc: &GltfDocument, p: &Primitive) -> (r: Result<Culling, Error>)
    ensures
        r == primitive_culling(*doc, *p),
{
    match (p.material, &doc.materials) {
        (Some(m), Some(materials)) => {
            if m >= materials.len() {
                Err(Error::Format)
            } else if materials[m].double_sided {
                Ok(Culling::initialize_disabled())
            } else {
                Ok(Culling::initialize())
            }
        },
        _ => Ok(Culling::initialize()),
    }
}

fn push_present(streams: &mut Vec<AttributeStream>, o: Option<AttributeStream>)
    ensures
        final(streams)@.map_values(|s: AttributeStream| s@) == old(streams)@.map_values(|s: AttributeStream| s@)
            + present(stream_views(o)),
        final(streams)@.len() <= old(streams)@.len() + 1,
{
    match o {
        Some(s) => {
            streams.push(s);
            assert(final(streams)@.map_values(|s: AttributeStream| s@) =~= old(streams)@.map_values(
                |s: AttributeStream| s@,
            ) + present(stream_views(o)));
        },
        None => {
            assert(final(streams)@.map_values(|s: AttributeStream| s@) =~= old(streams)@.map_values(
                |s: AttributeStream| s@,
            ) + present(stream_views(o)));
        },
    }
}

fn primitive_to_mesh(doc: &GltfDocument, p: &Primitive, table: &Unorm16Table) -> (r: Result<Mesh, Error>)
    ensures
        match r {
            Ok(m) => primitive_mesh(*doc, *p, table@) == Ok::<MeshView, Error>(m@),
            Err(e) => primitive_mesh(*doc, *p, table@) == Err::<MeshView, Error>(e),
        },
{
    reveal(primitive_mesh);
    let pi = match p.attributes.position {
        Some(pi) => pi,
        None => return Err(Error::Format),
    };
    let pos = match float_stream_of(doc, pi, AttributeKind::Position) {
        Ok(s) => s,
        Err(e) => return Err(e),
    };
    let ni = match p.attributes.normal {
        Some(ni) => ni,
        None => return Err(Error::Format),
    };
    let nor = match float_stream_of(doc, ni, AttributeKind::Normal) {
        Ok(s) => s,
        Err(e) => return Err(e),
    };
    let tan = match optional_float_stream_of(doc, p.attributes.tangent, AttributeKind::Tangent) {
        Ok(s) => s,
        Err(e) => return Err(e),
    };
    let uv = match optional_float_stream_of(doc, p.attributes.tex_coord_0, AttributeKind::UV) {
        Ok(s) => s,
        Err(e) => return Err(e),
    };
    let col = match optional_color_stream_of(doc, p.attributes.color_0, table) {
        Ok(s) => s,
        Err(e) => return Err(e),
    };
    let indices = match index_list_of(doc, p.indices) {
        Ok(is) => is,
        Err(e) => return Err(e),
    };
    let culling = match culling_of(doc, p) {
        Ok(c) => c,
        Err(e) => return Err(e),
    };
    let ghost want = seq![pos@, nor@] + present(stream_views(tan)) + present(stream_views(uv)) + present(
        stream_views(col),
    );
    let mut streams: Vec<AttributeStream> = Vec::new();
    streams.push(pos);
    streams.push(nor);
    assert(streams@.map_values(|s: AttributeStream| s@) =~= seq![pos@, nor@]);
    push_present(&mut streams, tan);
    push_present(&mut streams, uv);
    push_present(&mut streams, col);
    assert(streams@.map_values(|s: AttributeStream| s@) =~= want);
    Mesh::from_raw(&streams, indices, culling, true)
}

/// The document has meshes, buffers whose payloads are all embedded data,
/// buffer views and accessors.
pub open spec fn document_frame_ok(doc: GltfDocument) -> bool {
    &&& doc.meshes is Some
    &&& doc.buffers is Some
    &&& first_buffer_error(doc.buffers->0@, 0) is None
    &&& doc.buffer_views is Some
    &&& doc.accessors is Some
}

/// The walk reaches primitive `k` of mesh `m`: it exists, and every primitive
/// before it, in order, gives a mesh.
pub open spec fn walk_reaches(doc: GltfDocument, table: Seq<u32>, m: int, k: int) -> bool {
    &&& 0 <= m < mesh_total(doc)
    &&& 0 <= k < primitives_of(doc, m).len()
    &&& forall|m2: int, k2: int|
        ((0 <= m2 < m && 0 <= k2 < primitives_of(doc, m2).len()) || (m2 == m && 0 <= k2 < k))
            ==> #[trigger] primitive_mesh(doc, primitives_of(doc, m2)[k2], table) is Ok
}

proof fn lemma_walk_stops_at(doc: GltfDocument, table: Seq<u32>, m0: int, k0: int, m: int, k: int, e: Error)
    requires
        walk_reaches(doc, table, m, k),
        0 <= m0 <= m,
        0 <= k0,
        m0 < m || k0 <= k,
        primitive_mesh(doc, primitives_of(doc, m)[k], table) == Err::<MeshView, Error>(e),
    ensures
        meshes_from(doc, table, m0, k0) == Err::<Seq<MeshView>, Error>(e),
    decreases mesh_total(doc) - m0, primitives_of(doc, m0).len() - k0,
{
    if k0 >= primitives_of(doc, m0).len() {
        lemma_walk_stops_at(doc, table, m0 + 1, 0, m, k, e);
    } else if m0 == m && k0 == k {
    } else {
        assert(primitive_mesh(doc, primitives_of(doc, m0)[k0], table) is Ok);
        lemma_walk_stops_at(doc, table, m0, k0 + 1, m, k, e);
    }
}

/// When the walk reaches a primitive without a position accessor, the
/// document gives `Format`: never a panic, nor an empty or partial success.
pub proof fn lemma_reached_missing_position_is_format_error(doc: GltfDocument, table: Seq<u32>, m: int, k: int)
    requires
        document_frame_ok(doc),
        walk_reaches(doc, table, m, k),
        primitives_of(doc, m)[k].attributes.position is None,
    ensures
        gltf_meshes(doc, table) == Err::<Seq<MeshView>, Error>(Error::Format),
{
    lemma_missing_position_is_format_error(doc, primitives_of(doc, m)[k], table);
    lemma_walk_stops_at(doc, table, 0, 0, m, k, Error::Format);
}

impl Mesh {
    /// One mesh per primitive of every mesh of the document, in order. The
    /// first error met stops the walk and is returned.
    pub fn from_gltf(doc: &GltfDocument, table: &Unorm16Table) -> (r: Result<Vec<Mesh>, Error>)
        ensures
            match r {
                Ok(ms) => gltf_meshes(*doc, table@) == Ok::<Seq<MeshView>, Error>(ms@.map_values(|m: Mesh| m@)),
                Err(e) => gltf_meshes(*doc, table@) == Err::<Seq<MeshView>, Error>(e),
            },
            (document_frame_ok(*doc) && exists|m: int, k: int|
                walk_reaches(*doc, table@, m, k) && (#[trigger] primitives_of(*doc, m)[k]).attributes.position is None)
                ==> r == Err::<Vec<Mesh>, Error>(Error::Format),
    {
        let r = Self::meshes_of_gltf(doc, table);
        proof {
            if document_frame_ok(*doc) && exists|m: int, k: int|
                walk_reaches(*doc, table@, m, k) && (#[trigger] primitives_of(*doc, m)[k]).attributes.position is None {
                let (m, k) = choose|m: int, k: int|
                    walk_reaches(*doc, table@, m, k) && (#[trigger] primitives_of(*doc, m)[k]).attributes.position is None;
                lemma_reached_missing_position_is_format_error(*doc, table@, m, k);
            }
        }
        r
    }

    fn meshes_of_gltf(doc: &GltfDocument, table: &Unorm16Table) -> (r: Result<Vec<Mesh>, Error>)
        ensures
            match r {
                Ok(ms) => gltf_meshes(*doc, table@) == Ok::<Seq<MeshView>, Error>(ms@.map_values(|m: Mesh| m@)),
                Err(e) => gltf_meshes(*doc, table@) == Err::<Seq<MeshView>, Error>(e),
            },
    {
        let meshes = match &doc.meshes {
            Some(m) => m,
            None => return Err(Error::Format),
        };
        let buffers = match &doc.buffers {
            Some(b) => b,
            None => return Err(Error::Format),
        };
        let mut k: usize = 0;
        while k < buffers.len()
            invariant
                k <= buffers@.len(),
                doc.buffers == Some(*buffers),
                doc.meshes == Some(*meshes),
                first_buffer_error(buffers@, 0) == first_buffer_error(buffers@, k as int),
            decreases buffers@.len() - k,
        {
            match &buffers[k] {
                BufferPayload::Embedded(_) => {},
                BufferPayload::MalformedData => return Err(Error::Decode),
                _ => return Err(Error::Format),
            }
            k = k + 1;
        }
        match (&doc.buffer_views, &doc.accessors) {
            (Some(_), Some(_)) => {},
            _ => return Err(Error::Format),
        }
        assert(first_buffer_error(buffers@, k as int) == None::<Error>);
        let ghost total = gltf_meshes(*doc, table@);
        assert(total == meshes_from(*doc, table@, 0, 0));
        proof {
            match meshes_from(*doc, table@, 0, 0) {
                Ok(rest) => {
                    assert(Seq::<MeshView>::empty() + rest =~= rest);
                },
                Err(_) => {},
            }
        }
        let mut out: Vec<Mesh> = Vec::new();
        assert(out@.map_values(|x: Mesh| x@) =~= Seq::<MeshView>::empty());
        let mut m: usize = 0;
        while m < meshes.len()
            invariant
                m <= meshes@.len(),
                doc.meshes == Some(*meshes),
                total == gltf_meshes(*doc, table@),
                total == prepend(out@.map_values(|x: Mesh| x@), meshes_from(*doc, table@, m as int, 0)),
            decreases meshes@.len() - m,
        {
            let prims = &meshes[m].primitives;
            let mut k: usize = 0;
            while k < prims.len()
                invariant
                    m < meshes@.len(),
                    k <= prims@.len(),
                    doc.meshes == Some(*meshes),
                    prims@ == primitives_of(*doc, m as int),
                    total == gltf_meshes(*doc, table@),
                    total == prepend(out@.map_values(|x: Mesh| x@), meshes_from(*doc, table@, m as int, k as int)),
                decreases prims@.len() - k,
            {
                let ghost before = out@.map_values(|x: Mesh| x@);
                match primitive_to_mesh(doc, &prims[k], table) {
                    Ok(mesh) => {
                        out.push(mesh);
                        assert(out@.map_values(|x: Mesh| x@) =~= before.push(mesh@));
                        assert(total == prepend(
                            out@.map_values(|x: Mesh| x@),
                            meshes_from(*doc, table@, m as int, k as int + 1),
                        )) by {
                            match meshes_from(*doc, table@, m as int, k as int + 1) {
                                Ok(rest) => {
                                    assert(before + (seq![mesh@] + rest) =~= before.push(mesh@) + rest);
                                },
                                Err(_) => {},
                            }
                        }
                    },
                    Err(e) => {
                        assert(mesh_total(*doc) == meshes@.len());
                        assert(meshes_from(*doc, table@, m as int, k as int) == Err::<Seq<MeshView>, Error>(e));
                        return Err(e);
                    },
                }
                k = k + 1;
            }
            m = m + 1;
        }
        assert(mesh_total(*doc) == meshes@.len());
        assert(meshes_from(*doc, table@, m as int, 0) == Ok::<Seq<MeshView>, Error>(Seq::empty()));
        assert(out@.map_values(|x: Mesh| x@) + Seq::empty() =~= out@.map_values(|x: Mesh| x@));
        Ok(out)
    }
}

/// A primitive without a position accessor yields `Format`.
pub proof fn lemma_missing_position_is_format_error(doc: GltfDocument, p: Primitive, table: Seq<u32>)
    requires
        p.attributes.position is None,
    ensures
        primitive_mesh(doc, p, table) == Err::<MeshView, Error>(Error::Format),
{
    reveal(primitive_mesh);
}

proof fn lemma_failing_primitive_fails_walk(doc: GltfDocument, table: Seq<u32>, m0: int, k0: int, m: int, k: int)
    requires
        0 <= m0 <= m < mesh_total(doc),
        0 <= k0,
        m0 < m || k0 <= k,
        0 <= k < primitives_of(doc, m).len(),
        primitive_mesh(doc, primitives_of(doc, m)[k], table) is Err,
    ensures
        meshes_from(doc, table, m0, k0) is Err,
    decreases mesh_total(doc) - m0, primitives_of(doc, m0).len() - k0,
{
    if k0 >= primitives_of(doc, m0).len() {
        lemma_failing_primitive_fails_walk(doc, table, m0 + 1, 0, m, k);
    } else if m0 == m && k0 == k {
    } else if primitive_mesh(doc, primitives_of(doc, m0)[k0], table) is Ok {
        lemma_failing_primitive_fails_walk(doc, table, m0, k0 + 1, m, k);
    }
}

/// A document in which some primitive has no position accessor never loads:
/// the result is an error, not an empty or partial success.
pub proof fn lemma_missing_position_fails_document(doc: GltfDocument, table: Seq<u32>, m: int, k: int)
    requires
        0 <= m < mesh_total(doc),
        0 <= k < primitives_of(doc, m).len(),
        primitives_of(doc, m)[k].attributes.position is None,
    ensures
        gltf_meshes(doc, table) is Err,
{
    lemma_missing_position_is_format_error(doc, primitives_of(doc, m)[k], table);
    lemma_failing_primitive_fails_walk(doc, table, 0, 0, m, k);
}

} // verus!
