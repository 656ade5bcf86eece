//! Attribute streams, the vertex layout that describes them, and the packer
//! that interleaves them into one byte buffer.
use vstd::prelude::*;
use crate::bytes::{le_bytes_u32, u32_at, push_u32_le, read_u32_le, lemma_u32_round_trip};
use crate::error::Error;

verus! {

/// The role of a per-vertex attribute.
#[derive(Debug, Clone, Copy, PartialEq, Eq, Structural)]
pub enum AttributeKind {
    Position,
    Normal,
    Tangent,
    Color,
    UV,
}

impl AttributeKind {
    /// Number of 32-bit float components in one element of this attribute.
    pub open spec fn components(self) -> nat {
        match self {
            AttributeKind::Tangent | AttributeKind::Color => 4,
            AttributeKind::UV => 2,
            _ => 3,
        }
    }

    pub fn component_count(&self) -> (r: usize)
        ensures
            r == self.components(),
    {
        match self {
            AttributeKind::Tangent | AttributeKind::Color => 4,
            AttributeKind::UV => 2,
            _ => 3,
        }
    }

    /// Bytes taken by one element of this attribute.
    pub fn byte_size(&self) -> (r: usize)
        ensures
            r == 4 * self.components(),
    {
        4 * self.component_count()
    }

    pub fn msg(&self) -> (r: &'static str) {
        match self {
            AttributeKind::Position => "Position",
            AttributeKind::Normal => "Normal",
            AttributeKind::Tangent => "Tangent",
            AttributeKind::Color => "Color",
            AttributeKind::UV => "UV",
        }
    }
}

/// One attribute for every vertex: `elements[v]` holds the float bit patterns
/// of vertex `v`.
#[derive(Debug, Clone)]
pub struct AttributeStream {
    pub kind: AttributeKind,
    pub elements: Vec<Vec<u32>>,
}

/// Mathematical value of an [`AttributeStream`].
pub ghost struct StreamView {
    pub kind: AttributeKind,
    pub elements: Seq<Seq<u32>>,
}

impl View for AttributeStream {
    type V = StreamView;

    open spec fn view(&self) -> StreamView {
        StreamView { kind: self.kind, elements: self.elements@.map_values(|e: Vec<u32>| e@) }
    }
}

/// Every element of the stream has as many components as its kind asks for.
pub open spec fn stream_wf(s: StreamView) -> bool {
    forall|i: int| 0 <= i < s.elements.len() ==> (#[trigger] s.elements[i]).len() == s.kind.components()
}

/// All streams are well formed and hold `n` elements each.
pub open spec fn streams_aligned(ss: Seq<StreamView>, n: nat) -> bool {
    forall|a: int| 0 <= a < ss.len() ==> stream_wf(#[trigger] ss[a]) && ss[a].elements.len() == n
}

/// Element count of a list of streams: that of the first, or zero.
pub open spec fn element_count(ss: Seq<StreamView>) -> nat {
    if ss.len() == 0 { 0 } else { ss[0].elements.len() }
}

pub open spec fn kinds_of(ss: Seq<StreamView>) -> Seq<AttributeKind> {
    ss.map_values(|s: StreamView| s.kind)
}

/// Bytes taken by attributes `0..a` of one vertex.
pub open spec fn size_before(kinds: Seq<AttributeKind>, a: int) -> nat
    decreases a,
{
    if a <= 0 { 0 } else { size_before(kinds, a - 1) + 4 * kinds[a - 1].components() }
}

/// The little-endian bytes of a tuple of words, in order.
pub open spec fn encode_tuple(t: Seq<u32>) -> Seq<u8>
    decreases t.len(),
{
    if t.len() == 0 { Seq::empty() } else { encode_tuple(t.drop_last()) + le_bytes_u32(t.last()) }
}

/// Attributes `0..a` of vertex `v`, one after the other.
pub open spec fn record(ss: Seq<StreamView>, v: int, a: int) -> Seq<u8>
    decreases a,
{
    if a <= 0 { Seq::empty() } else { record(ss, v, a - 1) + encode_tuple(ss[a - 1].elements[v]) }
}

/// Vertices `0..n`, each the concatenation of all its attributes.
pub open spec fn packed(ss: Seq<StreamView>, n: int) -> Seq<u8>
    decreases n,
{
    if n <= 0 { Seq::empty() } else { packed(ss, n - 1) + record(ss, n - 1, ss.len() as int) }
}

/// Where one attribute sits inside a vertex record.
#[derive(Debug, Clone, Copy, PartialEq, Eq, Structural)]
pub struct AttributeDescriptor {
    pub kind: AttributeKind,
    pub component_count: usize,
    pub offset: usize,
}

/// How to read a packed vertex buffer.
#[derive(Debug, Clone)]
pub struct VertexLayout {
    pub stride: usize,
    pub interleaved: bool,
    pub attributes: Vec<AttributeDescriptor>,
}

pub ghost struct LayoutView {
    pub stride: nat,
    pub interleaved: bool,
    pub attributes: Seq<AttributeDescriptor>,
}

impl View for VertexLayout {
    type V = LayoutView;

    open spec fn view(&self) -> LayoutView {
        LayoutView { stride: self.stride as nat, interleaved: self.interleaved, attributes: self.attributes@ }
    }
}

/// The layout of records made of `kinds` in order: offsets are running sums of
/// the attribute sizes and the stride is their total.
pub open spec fn planned(kinds: Seq<AttributeKind>, interleaved: bool) -> LayoutView {
    LayoutView {
        stride: size_before(kinds, kinds.len() as int),
        interleaved,
        attributes: Seq::new(
            kinds.len(),
            |a: int|
                AttributeDescriptor {
                    kind: kinds[a],
                    component_count: kinds[a].components() as usize,
                    offset: size_before(kinds, a) as usize,
                },
        ),
    }
}

/// Byte position of component `c` of attribute `a` of vertex `v`.
pub open spec fn component_position(l: LayoutView, v: int, a: int, c: int) -> int {
    v * l.stride + l.attributes[a].offset + 4 * c
}

proof fn lemma_size_before_bounds(kinds: Seq<AttributeKind>, a: int)
    ensures
        size_before(kinds, a) <= 16 * (if a < 0 { 0 } else { a }),
    decreases a,
{
    if a > 0 {
        lemma_size_before_bounds(kinds, a - 1);
    }
}

proof fn lemma_size_before_monotone(kinds: Seq<AttributeKind>, a: int, b: int)
    requires
        a <= b,
    ensures
        size_before(kinds, a) <= size_before(kinds, b),
    decreases b - a,
{
    if a < b {
        lemma_size_before_monotone(kinds, a, b - 1);
    }
}

proof fn lemma_encode_tuple(t: Seq<u32>)
    ensures
        encode_tuple(t).len() == 4 * t.len(),
        forall|c: int, j: int|
            0 <= c < t.len() && 0 <= j < 4 ==> #[trigger] encode_tuple(t)[4 * c + j] == le_bytes_u32(t[c])[j],
    decreases t.len(),
{
    if t.len() > 0 {
        let p = t.drop_last();
        lemma_encode_tuple(p);
        assert forall|c: int, j: int|
            0 <= c < t.len() && 0 <= j < 4 implies #[trigger] encode_tuple(t)[4 * c + j] == le_bytes_u32(t[c])[j] by {
            if c < t.len() - 1 {
                assert(p[c] == t[c]);
            }
        }
    }
}

proof fn lemma_record(ss: Seq<StreamView>, n: nat, v: int, a: int)
    requires
        streams_aligned(ss, n),
        0 <= v < n,
        0 <= a <= ss.len(),
    ensures
        record(ss, v, a).len() == size_before(kinds_of(ss), a),
        forall|b: int, k: int|
            0 <= b < a && 0 <= k < 4 * ss[b].kind.components() ==> #[trigger] record(ss, v, a)[size_before(
                kinds_of(ss),
                b,
            ) + k] == encode_tuple(ss[b].elements[v])[k],
    decreases a,
{
    let kinds = kinds_of(ss);
    if a > 0 {
        lemma_record(ss, n, v, a - 1);
        let t = ss[a - 1].elements[v];
        assert(stream_wf(ss[a - 1]));
        lemma_encode_tuple(t);
        assert forall|b: int, k: int|
            0 <= b < a && 0 <= k < 4 * ss[b].kind.components() implies #[trigger] record(ss, v, a)[size_before(
                kinds,
                b,
            ) + k] == encode_tuple(ss[b].elements[v])[k] by {
            if b < a - 1 {
                lemma_size_before_monotone(kinds, b + 1, a - 1);
            }
        }
    }
}

/// The first `m` records of aligned streams take `m` strides, and record `v`
/// starts at `v` strides.
pub proof fn lemma_packed(ss: Seq<StreamView>, n: nat, m: int)
    requires
        streams_aligned(ss, n),
        0 <= m <= n,
    ensures
        packed(ss, m).len() == m * size_before(kinds_of(ss), ss.len() as int),
        forall|v: int, k: int|
            0 <= v < m && 0 <= k < size_before(kinds_of(ss), ss.len() as int) ==> #[trigger] packed(ss, m)[v
                * size_before(kinds_of(ss), ss.len() as int) + k] == record(ss, v, ss.len() as int)[k],
    decreases m,
{
    let stride = size_before(kinds_of(ss), ss.len() as int);
    if m > 0 {
        lemma_packed(ss, n, m - 1);
        lemma_record(ss, n, m - 1, ss.len() as int);
        assert(packed(ss, m).len() == m * stride) by (nonlinear_arith)
            requires
                packed(ss, m).len() == packed(ss, m - 1).len() + stride,
                packed(ss, m - 1).len() == (m - 1) * stride,
        ;
        assert forall|v: int, k: int| 0 <= v < m && 0 <= k < stride implies #[trigger] packed(ss, m)[v * stride
            + k] == record(ss, v, ss.len() as int)[k] by {
            if v < m - 1 {
                assert(v * stride + k < (m - 1) * stride) by (nonlinear_arith)
                    requires
                        v < m - 1,
                        k < stride,
                ;
            } else {
                assert(v * stride + k - (m - 1) * stride == k) by (nonlinear_arith)
                    requires
                        v == m - 1,
                ;
            }
        }
    }
}

/// Reading the packed buffer at the positions that the planned layout declares
/// gives back every component of every stream.
pub proof fn lemma_pack_read_back(ss: Seq<StreamView>, v: int, a: int, c: int)
    requires
        streams_aligned(ss, element_count(ss)),
        16 * ss.len() <= usize::MAX,
        0 <= v < element_count(ss),
        0 <= a < ss.len(),
        0 <= c < ss[a].kind.components(),
    ensures
        u32_at(
            packed(ss, element_count(ss) as int),
            component_position(planned(kinds_of(ss), true), v, a, c),
        ) == ss[a].elements[v][c],
{
    let n = element_count(ss);
    let kinds = kinds_of(ss);
    let stride = size_before(kinds, ss.len() as int);
    let off = size_before(kinds, a);
    lemma_packed(ss, n, n as int);
    lemma_record(ss, n, v, ss.len() as int);
    let t = ss[a].elements[v];
    assert(stream_wf(ss[a]));
    lemma_encode_tuple(t);
    lemma_size_before_bounds(kinds, a);
    lemma_size_before_monotone(kinds, a + 1, ss.len() as int);
    let p = packed(ss, n as int);
    let base = v * stride + off + 4 * c;
    assert forall|j: int| 0 <= j < 4 implies p[base + j] == #[trigger] le_bytes_u32(t[c])[j] by {
        assert(p[v * stride + (off + (4 * c + j))] == record(ss, v, ss.len() as int)[off + (4 * c + j)]);
    }
    lemma_u32_round_trip(t[c]);
}

/// In a planned layout each attribute starts where the one before it ends, and
/// the stride is where the last one ends: offsets increase, attributes never
/// overlap, and the stride is the sum of their sizes.
pub proof fn lemma_planned_contiguous(kinds: Seq<AttributeKind>, interleaved: bool, a: int)
    requires
        16 * kinds.len() <= usize::MAX,
        0 <= a < kinds.len(),
    ensures
        ({
            let l = planned(kinds, interleaved);
            l.attributes[a].offset + 4 * l.attributes[a].component_count == (if a + 1 < kinds.len() {
                l.attributes[a + 1].offset as int
            } else {
                l.stride as int
            })
        }),
{
    lemma_size_before_bounds(kinds, a + 1);
}

/// Plans the layout of records made of `kinds` in order.
pub fn plan_layout(kinds: &Vec<AttributeKind>, interleaved: bool) -> (r: VertexLayout)
    requires
        16 * kinds@.len() <= usize::MAX,
    ensures
        r@ == planned(kinds@, interleaved),
{
    let mut attributes: Vec<AttributeDescriptor> = Vec::new();
    let mut offset: usize = 0;
    let mut a: usize = 0;
    while a < kinds.len()
        invariant
            a <= kinds@.len(),
            16 * kinds@.len() <= usize::MAX,
            offset == size_before(kinds@, a as int),
            attributes@ =~= planned(kinds@, interleaved).attributes.take(a as int),
        decreases kinds@.len() - a,
    {
        proof {
            lemma_size_before_bounds(kinds@, a as int + 1);
        }
        let kind = kinds[a];
        attributes.push(AttributeDescriptor { kind, component_count: kind.component_count(), offset });
        offset = offset + kind.byte_size();
        a = a + 1;
    }
    assert(attributes@ =~= planned(kinds@, interleaved).attributes);
    VertexLayout { stride: offset, interleaved, attributes }
}

/// Interleaves the streams vertex by vertex: the record of vertex `v` is
/// `streams[0][v]`, `streams[1][v]`, ... as little-endian words. Fails with
/// `Layout` unless all streams are well formed and of equal length.
pub fn pack_interleaved(streams: &Vec<AttributeStream>) -> (r: Result<(Vec<u8>, VertexLayout), Error>)
    requires
        16 * streams@.len() <= usize::MAX,
    ensures
        ({
            let ss = streams@.map_values(|s: AttributeStream| s@);
            match r {
                Ok((bytes, layout)) => streams_aligned(ss, element_count(ss)) && bytes@ == packed(
                    ss,
                    element_count(ss) as int,
                ) && layout@ == planned(kinds_of(ss), true),
                Err(e) => !streams_aligned(ss, element_count(ss)) && e == Error::Layout,
            }
        }),
{
    let ghost ss = streams@.map_values(|s: AttributeStream| s@);
    let n: usize = if streams.len() == 0 { 0 } else { streams[0].elements.len() };
    // every stream must be well formed and as long as the first
    let mut a: usize = 0;
    while a < streams.len()
        invariant
            a <= streams@.len(),
            ss == streams@.map_values(|s: AttributeStream| s@),
            n == element_count(ss),
            forall|b: int| 0 <= b < a ==> stream_wf(#[trigger] ss[b]) && ss[b].elements.len() == n,
        decreases streams@.len() - a,
    {
        let s = &streams[a];
        assert(ss[a as int] == s@);
        if s.elements.len() != n {
            return Err(Error::Layout);
        }
        let comps = s.kind.component_count();
        let mut i: usize = 0;
        while i < s.elements.len()
            invariant
                i <= s.elements@.len(),
                a < ss.len(),
                ss == streams@.map_values(|s: AttributeStream| s@),
                n == element_count(ss),
                ss[a as int] == s@,
                comps == s.kind.components(),
                forall|j: int| 0 <= j < i ==> (#[trigger] s@.elements[j]).len() == comps,
            decreases s.elements@.len() - i,
        {
            if s.elements[i].len() != comps {
                assert(s@.elements[i as int] == s.elements@[i as int]@);
                assert(!stream_wf(ss[a as int]));
                assert(!streams_aligned(ss, element_count(ss)));
                return Err(Error::Layout);
            }
            i = i + 1;
        }
        a = a + 1;
    }
    assert(streams_aligned(ss, n as nat));
    let ghost kinds = kinds_of(ss);
    let mut kind_list: Vec<AttributeKind> = Vec::new();
    let mut k: usize = 0;
    while k < streams.len()
        invariant
            k <= streams@.len(),
            ss == streams@.map_values(|s: AttributeStream| s@),
            kind_list@ =~= kinds.take(k as int),
            kinds == kinds_of(ss),
        decreases streams@.len() - k,
    {
        kind_list.push(streams[k].kind);
        k = k + 1;
    }
    assert(kind_list@ =~= kinds);
    let layout = plan_layout(&kind_list, true);
    let mut out: Vec<u8> = Vec::new();
    let mut v: usize = 0;
    while v < n
        invariant
            v <= n,
            ss == streams@.map_values(|s: AttributeStream| s@),
            streams_aligned(ss, n as nat),
            out@ == packed(ss, v as int),
        decreases n - v,
    {
        let mut a: usize = 0;
        while a < streams.len()
            invariant
                v < n,
                a <= streams@.len(),
                ss == streams@.map_values(|s: AttributeStream| s@),
                streams_aligned(ss, n as nat),
                out@ == packed(ss, v as int) + record(ss, v as int, a as int),
            decreases streams@.len() - a,
        {
            let t = &streams[a].elements[v];
            assert(ss[a as int].elements[v as int] == t@);
            let mut c: usize = 0;
            while c < t.len()
                invariant
                    c <= t@.len(),
                    out@ == packed(ss, v as int) + record(ss, v as int, a as int) + encode_tuple(t@.take(c as int)),
                decreases t@.len() - c,
            {
                push_u32_le(&mut out, t[c]);
                assert(t@.take(c as int + 1).drop_last() =~= t@.take(c as int));
                assert(out@ =~= packed(ss, v as int) + record(ss, v as int, a as int) + encode_tuple(
                    t@.take(c as int + 1),
                ));
                c = c + 1;
            }
            assert(t@.take(t@.len() as int) =~= t@);
            assert(out@ =~= packed(ss, v as int) + record(ss, v as int, a as int + 1));
            a = a + 1;
        }
        assert(out@ =~= packed(ss, v as int + 1));
        v = v + 1;
    }
    Ok((out, layout))
}

/// Reads component `c` of attribute `a` of vertex `v` from a packed buffer,
/// at the position that the layout declares; `None` when that position is not
/// inside the buffer or the attribute does not exist.
pub fn read_component(bytes: &[u8], layout: &VertexLayout, v: usize, a: usize, c: usize) -> (r: Option<u32>)
    ensures
        r == (if a < layout@.attributes.len() && c < layout@.attributes[a as int].component_count
            && component_position(layout@, v as int, a as int, c as int) + 4 <= bytes@.len() {
            Some(u32_at(bytes@, component_position(layout@, v as int, a as int, c as int)))
        } else {
            None
        }),
{
    if a >= layout.attributes.len() || c >= layout.attributes[a].component_count {
        return None;
    }
    let len = bytes.len();
    let ghost at = component_position(layout@, v as int, a as int, c as int);
    proof {
        assert(v as int * layout.stride as int >= 0) by (nonlinear_arith);
    }
    if c > usize::MAX / 4 {
        assert(at + 4 > len);
        return None;
    }
    let pos = match v.checked_mul(layout.stride) {
        Some(base) => match base.checked_add(layout.attributes[a].offset) {
            Some(with_offset) => match with_offset.checked_add(4 * c) {
                Some(p) => p,
                None => {
                    return None;
                },
            },
            None => {
                assert(at + 4 > len);
                return None;
            },
        },
        None => {
            assert(at + 4 > len);
            return None;
        },
    };
    if pos > len || len - pos < 4 {
        return None;
    }
    Some(read_u32_le(bytes, pos))
}

} // verus!
