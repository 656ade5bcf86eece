//! OBJ text: objects split on `o ` markers, attribute and face lines, face
//! indices corrected for file-wide numbering, and corners expanded into vertices.
use vstd::prelude::*;
use vstd::slice::slice_subrange;
use crate::error::Error;
use crate::bytes::{u32_at, read_u32_le};
use crate::layout::{
    AttributeKind, AttributeStream, StreamView, streams_aligned, element_count, kinds_of, size_before, planned,
    packed, component_position, lemma_pack_read_back, lemma_packed,
};
use crate::mesh::{Mesh, MeshView, Culling, interleaved_mesh, default_culling};
use crate::text::{
    Span, text_of, split_spans, marker_pieces, token_spans, contains_byte, u32_text, is_float_text,
    split_on, split_on_marker, tokens, parse_u32, is_float_token,
};

verus! {

/// Index triple of one face corner: (position, uv, normal).
pub type Corner = (u32, u32, u32);

/// One object of an OBJ document. `S` holds a float: the span of its text
/// while parsing, its bit pattern once converted.
pub struct MeshOBJ<S> {
    pub positions: Vec<(S, S, S)>,
    pub normals: Vec<(S, S, S)>,
    pub uvs: Vec<(S, S)>,
    pub colors: Vec<(S, S, S)>,
    /// 1-based indices into this object's own arrays.
    pub faces: Vec<Corner>,
}

pub ghost struct ObjView<S> {
    pub positions: Seq<(S, S, S)>,
    pub normals: Seq<(S, S, S)>,
    pub uvs: Seq<(S, S)>,
    pub colors: Seq<(S, S, S)>,
    pub faces: Seq<Corner>,
}

impl<S> View for MeshOBJ<S> {
    type V = ObjView<S>;

    open spec fn view(&self) -> ObjView<S> {
        ObjView {
            positions: self.positions@,
            normals: self.normals@,
            uvs: self.uvs@,
            colors: self.colors@,
            faces: self.faces@,
        }
    }
}

pub open spec fn empty_obj<S>() -> ObjView<S> {
    ObjView {
        positions: Seq::empty(),
        normals: Seq::empty(),
        uvs: Seq::empty(),
        colors: Seq::empty(),
        faces: Seq::empty(),
    }
}

impl<S> MeshOBJ<S> {
    pub fn new_empty() -> (r: MeshOBJ<S>)
        ensures
            r@ == empty_obj::<S>(),
    {
        MeshOBJ { positions: Vec::new(), normals: Vec::new(), uvs: Vec::new(), colors: Vec::new(), faces: Vec::new() }
    }
}

/// Every face index is at least 1.
pub open spec fn faces_positive<S>(o: ObjView<S>) -> bool {
    forall|i: int| 0 <= i < o.faces.len() ==> (#[trigger] o.faces[i]).0 >= 1 && o.faces[i].1 >= 1 && o.faces[i].2 >= 1
}

/// Componentwise maximum.
pub open spec fn max3(a: Corner, b: Corner) -> Corner {
    (
        if a.0 >= b.0 { a.0 } else { b.0 },
        if a.1 >= b.1 { a.1 } else { b.1 },
        if a.2 >= b.2 { a.2 } else { b.2 },
    )
}

/// An object being read, with the largest raw index seen in it per component,
/// and whether some corner's index fell to 0 or below once corrected.
pub ghost struct ObjState {
    pub obj: ObjView<Span>,
    pub max: Corner,
    pub bad_index: bool,
}

pub open spec fn word_v() -> Seq<u8> {
    seq![0x76u8]
}

pub open spec fn word_vt() -> Seq<u8> {
    seq![0x76u8, 0x74]
}

pub open spec fn word_vn() -> Seq<u8> {
    seq![0x76u8, 0x6e]
}

pub open spec fn word_f() -> Seq<u8> {
    seq![0x66u8]
}

/// Every token after the first is a float literal.
pub open spec fn floats_after_first(s: Seq<u8>, toks: Seq<Span>) -> bool {
    forall|i: int| 1 <= i < toks.len() ==> is_float_text(#[trigger] text_of(s, toks[i]))
}

/// The raw index triple that a face token `p/t/n` spells, if it spells one.
pub open spec fn corner_value(s: Seq<u8>, tok: Span) -> Option<Corner> {
    let subs = split_spans(s, tok.start as int, tok.end as int, 0x2f);
    if subs.len() == 3 && u32_text(text_of(s, subs[0])) is Some && u32_text(text_of(s, subs[1])) is Some
        && u32_text(text_of(s, subs[2])) is Some {
        Some(
            (
                u32_text(text_of(s, subs[0]))->0,
                u32_text(text_of(s, subs[1]))->0,
                u32_text(text_of(s, subs[2]))->0,
            ),
        )
    } else {
        None
    }
}

pub open spec fn with_obj(st: ObjState, obj: ObjView<Span>) -> ObjState {
    ObjState { obj, max: st.max, bad_index: st.bad_index }
}

pub open spec fn push_position(o: ObjView<Span>, p: (Span, Span, Span)) -> ObjView<Span> {
    ObjView { positions: o.positions.push(p), normals: o.normals, uvs: o.uvs, colors: o.colors, faces: o.faces }
}

pub open spec fn push_color(o: ObjView<Span>, c: (Span, Span, Span)) -> ObjView<Span> {
    ObjView { positions: o.positions, normals: o.normals, uvs: o.uvs, colors: o.colors.push(c), faces: o.faces }
}

pub open spec fn push_normal(o: ObjView<Span>, n: (Span, Span, Span)) -> ObjView<Span> {
    ObjView { positions: o.positions, normals: o.normals.push(n), uvs: o.uvs, colors: o.colors, faces: o.faces }
}

pub open spec fn push_uv(o: ObjView<Span>, t: (Span, Span)) -> ObjView<Span> {
    ObjView { positions: o.positions, normals: o.normals, uvs: o.uvs.push(t), colors: o.colors, faces: o.faces }
}

pub open spec fn push_face(o: ObjView<Span>, f: Corner) -> ObjView<Span> {
    ObjView { positions: o.positions, normals: o.normals, uvs: o.uvs, colors: o.colors, faces: o.faces.push(f) }
}

/// Records a raw corner: its indices less the offset of earlier objects. When
/// that leaves some index below 1, no face is recorded and the fault is
/// remembered, so that parsing goes on and a later malformed line still
/// reports `Parse`.
pub open spec fn apply_corner(off: Corner, st: ObjState, c: Corner) -> ObjState {
    if c.0 > off.0 && c.1 > off.1 && c.2 > off.2 {
        ObjState {
            obj: push_face(st.obj, ((c.0 - off.0) as u32, (c.1 - off.1) as u32, (c.2 - off.2) as u32)),
            max: max3(st.max, c),
            bad_index: st.bad_index,
        }
    } else {
        ObjState { obj: st.obj, max: max3(st.max, c), bad_index: true }
    }
}

/// A corner whose raw indices all exceed the offset is recorded as the raw
/// indices less the offset, each component corrected on its own; the largest
/// raw index seen grows to cover it.
pub proof fn lemma_corner_correction(off: Corner, st: ObjState, c: Corner)
    requires
        c.0 > off.0,
        c.1 > off.1,
        c.2 > off.2,
    ensures
        apply_corner(off, st, c).obj.faces == st.obj.faces.push(
            ((c.0 - off.0) as u32, (c.1 - off.1) as u32, (c.2 - off.2) as u32),
        ),
        apply_corner(off, st, c).max == max3(st.max, c),
        apply_corner(off, st, c).bad_index == st.bad_index,
{
}

/// Face tokens `j..` of a line, in order.
pub open spec fn apply_corners(s: Seq<u8>, line: Span, toks: Seq<Span>, j: int, off: Corner, st: ObjState) -> Result<
    ObjState,
    Error,
>
    decreases toks.len() - j,
{
    if j < 0 || j >= toks.len() {
        Ok(st)
    } else {
        match corner_value(s, toks[j]) {
            None => Err(Error::Parse(line)),
            Some(c) => apply_corners(s, line, toks, j + 1, off, apply_corner(off, st, c)),
        }
    }
}

/// One line of an object. Empty lines, comment lines and unknown directives
/// leave the state as it is.
pub open spec fn apply_line(s: Seq<u8>, line: Span, off: Corner, st: ObjState) -> Result<ObjState, Error> {
    let toks = token_spans(s, line.start as int, line.end as int);
    if line.start >= line.end || contains_byte(text_of(s, line), 0x23) || toks.len() == 0 {
        Ok(st)
    } else if text_of(s, toks[0]) == word_v() {
        if floats_after_first(s, toks) && toks.len() == 4 {
            Ok(with_obj(st, push_position(st.obj, (toks[1], toks[2], toks[3]))))
        } else if floats_after_first(s, toks) && toks.len() == 7 {
            Ok(with_obj(st, push_color(push_position(st.obj, (toks[1], toks[2], toks[3])), (toks[4], toks[5], toks[6]))))
        } else {
            Err(Error::Parse(line))
        }
    } else if text_of(s, toks[0]) == word_vt() {
        if floats_after_first(s, toks) && toks.len() == 3 {
            Ok(with_obj(st, push_uv(st.obj, (toks[1], toks[2]))))
        } else {
            Err(Error::Parse(line))
        }
    } else if text_of(s, toks[0]) == word_vn() {
        if floats_after_first(s, toks) && toks.len() == 4 {
            Ok(with_obj(st, push_normal(st.obj, (toks[1], toks[2], toks[3]))))
        } else {
            Err(Error::Parse(line))
        }
    } else if text_of(s, toks[0]) == word_f() {
        apply_corners(s, line, toks, 1, off, st)
    } else {
        Ok(st)
    }
}

/// Lines `k..` of an object, in order.
pub open spec fn apply_lines(s: Seq<u8>, lines: Seq<Span>, k: int, off: Corner, st: ObjState) -> Result<
    ObjState,
    Error,
>
    decreases lines.len() - k,
{
    if k < 0 || k >= lines.len() {
        Ok(st)
    } else {
        match apply_line(s, lines[k], off, st) {
            Err(e) => Err(e),
            Ok(next) => apply_lines(s, lines, k + 1, off, next),
        }
    }
}

/// The object in `s[piece]`, whose raw face indices are corrected by `off`.
pub open spec fn parse_object(s: Seq<u8>, piece: Span, off: Corner) -> Result<ObjState, Error> {
    apply_lines(
        s,
        split_spans(s, piece.start as int, piece.end as int, 0x0a),
        0,
        off,
        ObjState { obj: empty_obj(), max: (0, 0, 0), bad_index: false },
    )
}

/// Objects `k..` of the document; `off` is the largest raw index per
/// component over all objects before `k`, and `bad_index` tells whether an
/// earlier corner fell below 1 once corrected. A parse error is returned at
/// once; an index fault gives `Decode` only once the whole document has parsed.
pub open spec fn objects_from(
    s: Seq<u8>,
    pieces: Seq<Span>,
    k: int,
    off: Corner,
    done: Seq<ObjView<Span>>,
    bad_index: bool,
) -> Result<Seq<ObjView<Span>>, Error>
    decreases pieces.len() - k,
{
    if k < 0 || k >= pieces.len() {
        if bad_index {
            Err(Error::Decode)
        } else {
            Ok(done)
        }
    } else {
        match parse_object(s, pieces[k], off) {
            Err(e) => Err(e),
            Ok(st) => objects_from(s, pieces, k + 1, max3(off, st.max), done.push(st.obj), bad_index || st.bad_index),
        }
    }
}

/// The objects of an OBJ document: the pieces between `o ` markers, the
/// first (a header) left out.
pub open spec fn obj_document(s: Seq<u8>) -> Result<Seq<ObjView<Span>>, Error> {
    objects_from(s, marker_pieces(s, s.len() as int), 1, (0, 0, 0), Seq::empty(), false)
}

fn max_u32(a: u32, b: u32) -> (r: u32)
    ensures
        r == (if a >= b { a } else { b }),
{
    if a >= b { a } else { b }
}

/// The raw index triple that face token `tok` spells.
fn corner_of(b: &[u8], tok: Span) -> (r: Option<Corner>)
    requires
        tok.start <= tok.end <= b@.len(),
    ensures
        r == corner_value(b@, tok),
{
    let subs = split_on(b, tok.start, tok.end, 0x2f);
    if subs.len() != 3 {
        return None;
    }
    let p = parse_u32(slice_subrange(b, subs[0].start, subs[0].end));
    let t = parse_u32(slice_subrange(b, subs[1].start, subs[1].end));
    let n = parse_u32(slice_subrange(b, subs[2].start, subs[2].end));
    match (p, t, n) {
        (Some(p), Some(t), Some(n)) => Some((p, t, n)),
        _ => None,
    }
}

fn all_floats_after_first(b: &[u8], toks: &Vec<Span>) -> (r: bool)
    requires
        forall|k: int| 0 <= k < toks@.len() ==> (#[trigger] toks@[k]).start <= toks@[k].end <= b@.len(),
    ensures
        r == floats_after_first(b@, toks@),
{
    let mut i: usize = 1;
    while i < toks.len()
        invariant
            1 <= i,
            forall|k: int| 0 <= k < toks@.len() ==> (#[trigger] toks@[k]).start <= toks@[k].end <= b@.len(),
            forall|k: int| 1 <= k < i && k < toks@.len() ==> is_float_text(#[trigger] text_of(b@, toks@[k])),
        decreases toks@.len() - i,
    {
        let tok = toks[i];
        if !is_float_token(slice_subrange(b, tok.start, tok.end)) {
            assert(!is_float_text(text_of(b@, toks@[i as int])));
            return false;
        }
        i = i + 1;
    }
    true
}

fn is_word(b: &[u8], tok: Span, w: &[u8]) -> (r: bool)
    requires
        tok.start <= tok.end <= b@.len(),
    ensures
        r == (text_of(b@, tok) == w@),
{
    if tok.end - tok.start != w.len() {
        assert(text_of(b@, tok).len() != w@.len());
        return false;
    }
    let mut k: usize = 0;
    while k < w.len()
        invariant
            k <= w@.len(),
            tok.start <= tok.end <= b@.len(),
            tok.end - tok.start == w@.len(),
            forall|m: int| 0 <= m < k ==> text_of(b@, tok)[m] == w@[m],
        decreases w@.len() - k,
    {
        if b[tok.start + k] != w[k] {
            assert(text_of(b@, tok)[k as int] != w@[k as int]);
            return false;
        }
        k = k + 1;
    }
    assert(text_of(b@, tok) =~= w@);
    true
}

fn has_byte(b: &[u8], sp: Span, c: u8) -> (r: bool)
    requires
        sp.start <= sp.end <= b@.len(),
    ensures
        r == contains_byte(text_of(b@, sp), c),
{
    let mut i: usize = sp.start;
    while i < sp.end
        invariant
            sp.start <= i <= sp.end <= b@.len(),
            forall|k: int| 0 <= k < i - sp.start ==> text_of(b@, sp)[k] != c,
        decreases sp.end - i,
    {
        if b[i] == c {
            assert(text_of(b@, sp)[i - sp.start] == c);
            return true;
        }
        i = i + 1;
    }
    false
}

/// Applies one line to the object being read.
fn apply_line_to(
    b: &[u8],
    line: Span,
    off: Corner,
    obj: &mut MeshOBJ<Span>,
    max: &mut Corner,
    bad_index: &mut bool,
) -> (r: Result<
    (),
    Error,
>)
    requires
        line.start <= line.end <= b@.len(),
        faces_positive(old(obj)@),
    ensures
        faces_positive(final(obj)@),
        match r {
            Ok(_) => apply_line(b@, line, off, ObjState { obj: old(obj)@, max: *old(max), bad_index: *old(bad_index) }) == Ok::<
                ObjState,
                Error,
            >(ObjState { obj: final(obj)@, max: *final(max), bad_index: *final(bad_index) }),
            Err(e) => apply_line(b@, line, off, ObjState { obj: old(obj)@, max: *old(max), bad_index: *old(bad_index) }) == Err::<
                ObjState,
                Error,
            >(e),
        },
{
    let ghost st0 = ObjState { obj: obj@, max: *max, bad_index: *bad_index };
    if line.start >= line.end || has_byte(b, line, 0x23) {
        return Ok(());
    }
    let toks = tokens(b, line.start, line.end);
    if toks.len() == 0 {
        return Ok(());
    }
    let word_v_bytes: Vec<u8> = vec![0x76u8];
    let word_vt_bytes: Vec<u8> = vec![0x76u8, 0x74];
    let word_vn_bytes: Vec<u8> = vec![0x76u8, 0x6e];
    let word_f_bytes: Vec<u8> = vec![0x66u8];
    assert(word_v_bytes@ =~= word_v());
    assert(word_vt_bytes@ =~= word_vt());
    assert(word_vn_bytes@ =~= word_vn());
    assert(word_f_bytes@ =~= word_f());
    if is_word(b, toks[0], word_v_bytes.as_slice()) {
        let floats = all_floats_after_first(b, &toks);
        if floats && toks.len() == 4 {
            obj.positions.push((toks[1], toks[2], toks[3]));
            Ok(())
        } else if floats && toks.len() == 7 {
            obj.positions.push((toks[1], toks[2], toks[3]));
            obj.colors.push((toks[4], toks[5], toks[6]));
            Ok(())
        } else {
            Err(Error::Parse(line))
        }
    } else if is_word(b, toks[0], word_vt_bytes.as_slice()) {
        if all_floats_after_first(b, &toks) && toks.len() == 3 {
            obj.uvs.push((toks[1], toks[2]));
            Ok(())
        } else {
            Err(Error::Parse(line))
        }
    } else if is_word(b, toks[0], word_vn_bytes.as_slice()) {
        if all_floats_after_first(b, &toks) && toks.len() == 4 {
            obj.normals.push((toks[1], toks[2], toks[3]));
            Ok(())
        } else {
            Err(Error::Parse(line))
        }
    } else if is_word(b, toks[0], word_f_bytes.as_slice()) {
        let mut j: usize = 1;
        assert(apply_line(b@, line, off, st0) == apply_corners(b@, line, toks@, 1, off, st0));
        while j < toks.len()
            invariant
                1 <= j,
                apply_line(b@, line, off, st0) == apply_corners(b@, line, toks@, 1, off, st0),
                st0 == (ObjState { obj: old(obj)@, max: *old(max), bad_index: *old(bad_index) }),
                faces_positive(obj@),
                forall|k: int| 0 <= k < toks@.len() ==> (#[trigger] toks@[k]).start <= toks@[k].end <= b@.len(),
                apply_corners(b@, line, toks@, 1, off, st0) == apply_corners(
                    b@,
                    line,
                    toks@,
                    j as int,
                    off,
                    ObjState { obj: obj@, max: *max, bad_index: *bad_index },
                ),
            decreases toks@.len() - j,
        {
            let c = match corner_of(b, toks[j]) {
                Some(c) => c,
                None => return Err(Error::Parse(line)),
            };
            if c.0 > off.0 && c.1 > off.1 && c.2 > off.2 {
                obj.faces.push((c.0 - off.0, c.1 - off.1, c.2 - off.2));
            } else {
                *bad_index = true;
            }
            *max = (max_u32(max.0, c.0), max_u32(max.1, c.1), max_u32(max.2, c.2));
            j = j + 1;
        }
        Ok(())
    } else {
        Ok(())
    }
}

/// Reads the object in `b[piece]`, correcting raw face indices by `off`;
/// returns it with the largest raw index seen in it per component, and whether
/// some corrected index fell below 1.
fn object_at(b: &[u8], piece: Span, off: Corner) -> (r: Result<(MeshOBJ<Span>, Corner, bool), Error>)
    requires
        piece.start <= piece.end <= b@.len(),
    ensures
        match r {
            Ok((o, m, bad)) => parse_object(b@, piece, off) == Ok::<ObjState, Error>(
                ObjState { obj: o@, max: m, bad_index: bad },
            ) && faces_positive(o@),
            Err(e) => parse_object(b@, piece, off) == Err::<ObjState, Error>(e),
        },
{
    let lines = split_on(b, piece.start, piece.end, 0x0a);
    let mut obj: MeshOBJ<Span> = MeshOBJ::new_empty();
    let mut max: Corner = (0, 0, 0);
    let mut bad_index = false;
    let mut k: usize = 0;
    while k < lines.len()
        invariant
            forall|i: int| 0 <= i < lines@.len() ==> (#[trigger] lines@[i]).start <= lines@[i].end <= b@.len(),
            lines@ == split_spans(b@, piece.start as int, piece.end as int, 0x0a),
            parse_object(b@, piece, off) == apply_lines(
                b@,
                lines@,
                k as int,
                off,
                ObjState { obj: obj@, max, bad_index },
            ),
            faces_positive(obj@),
        decreases lines@.len() - k,
    {
        match apply_line_to(b, lines[k], off, &mut obj, &mut max, &mut bad_index) {
            Ok(_) => {},
            Err(e) => return Err(e),
        }
        k = k + 1;
    }
    Ok((obj, max, bad_index))
}

/// A `v` line whose number count is neither 3 nor 6 is rejected with `Parse`,
/// naming that line: no partial position is recorded.
pub proof fn lemma_position_arity(s: Seq<u8>, line: Span, off: Corner, st: ObjState)
    requires
        line.start < line.end,
        !contains_byte(text_of(s, line), 0x23),
        token_spans(s, line.start as int, line.end as int).len() > 0,
        text_of(s, token_spans(s, line.start as int, line.end as int)[0]) == word_v(),
        token_spans(s, line.start as int, line.end as int).len() != 4,
        token_spans(s, line.start as int, line.end as int).len() != 7,
    ensures
        apply_line(s, line, off, st) == Err::<ObjState, Error>(Error::Parse(line)),
{
}

/// Reads every object of an OBJ document. Text before the first `o ` marker
/// is a header and is skipped; each object's raw face indices are corrected by
/// the largest raw index of all objects before it, per component. A malformed
/// line gives `Parse` at once; a corrected index below 1 gives `Decode`, once
/// the whole document has been read without a parse error.
pub fn parse_obj(raw: &[u8]) -> (r: Result<Vec<MeshOBJ<Span>>, Error>)
    ensures
        match r {
            Ok(objs) => obj_document(raw@) == Ok::<Seq<ObjView<Span>>, Error>(
                objs@.map_values(|o: MeshOBJ<Span>| o@),
            ),
            Err(e) => obj_document(raw@) == Err::<Seq<ObjView<Span>>, Error>(e),
        },
        r matches Ok(objs) ==> forall|i: int| 0 <= i < objs@.len() ==> faces_positive(#[trigger] objs@[i]@),
{
    let pieces = split_on_marker(raw);
    let mut out: Vec<MeshOBJ<Span>> = Vec::new();
    let mut off: Corner = (0, 0, 0);
    let mut bad_index = false;
    let mut k: usize = 1;
    assert(out@.map_values(|o: MeshOBJ<Span>| o@) =~= Seq::<ObjView<Span>>::empty());
    while k < pieces.len()
        invariant
            1 <= k,
            forall|i: int| 0 <= i < pieces@.len() ==> (#[trigger] pieces@[i]).start <= pieces@[i].end <= raw@.len(),
            obj_document(raw@) == objects_from(
                raw@,
                pieces@,
                k as int,
                off,
                out@.map_values(|o: MeshOBJ<Span>| o@),
                bad_index,
            ),
            forall|i: int| 0 <= i < out@.len() ==> faces_positive(#[trigger] out@[i]@),
        decreases pieces@.len() - k,
    {
        match object_at(raw, pieces[k], off) {
            Ok((obj, m, bad)) => {
                let ghost before = out@.map_values(|o: MeshOBJ<Span>| o@);
                let ghost ov = obj@;
                out.push(obj);
                assert(out@.map_values(|o: MeshOBJ<Span>| o@) =~= before.push(ov));
                off = (max_u32(off.0, m.0), max_u32(off.1, m.1), max_u32(off.2, m.2));
                bad_index = bad_index || bad;
            },
            Err(e) => return Err(e),
        }
        k = k + 1;
    }
    if bad_index {
        return Err(Error::Decode);
    }
    Ok(out)
}

/// A fully resolved corner, as float bit patterns.
#[derive(Debug, Clone, Copy, PartialEq, Eq)]
pub struct Vertex {
    pub position: (u32, u32, u32),
    pub normal: (u32, u32, u32),
    pub uv: (u32, u32),
}

/// The corner's 1-based indices all fall inside the object's arrays.
pub open spec fn corner_in_range<S>(o: ObjView<S>, f: Corner) -> bool {
    1 <= f.0 <= o.positions.len() && 1 <= f.1 <= o.uvs.len() && 1 <= f.2 <= o.normals.len()
}

pub open spec fn corner_vertex(o: ObjView<u32>, f: Corner) -> Vertex {
    Vertex { position: o.positions[f.0 - 1], normal: o.normals[f.2 - 1], uv: o.uvs[f.1 - 1] }
}

/// One vertex per face corner, in order, none shared; `Decode` when a corner
/// points outside the object's arrays.
pub open spec fn expanded(o: ObjView<u32>) -> Result<Seq<Vertex>, Error> {
    if forall|i: int| 0 <= i < o.faces.len() ==> corner_in_range(o, #[trigger] o.faces[i]) {
        Ok(Seq::new(o.faces.len(), |i: int| corner_vertex(o, o.faces[i])))
    } else {
        Err(Error::Decode)
    }
}

/// `0, 1, ..., n - 1`.
pub open spec fn identity_indices(n: nat) -> Seq<u32> {
    Seq::new(n, |i: int| i as u32)
}

/// Resolves every face corner of the object into a vertex, and gives the
/// identity index list.
pub fn expand_object(obj: &MeshOBJ<u32>) -> (r: Result<(Vec<Vertex>, Vec<u32>), Error>)
    requires
        obj.faces@.len() <= u32::MAX as nat + 1,
    ensures
        match r {
            Ok((vs, is)) => expanded(obj@) == Ok::<Seq<Vertex>, Error>(vs@) && is@ == identity_indices(
                obj@.faces.len(),
            ),
            Err(e) => expanded(obj@) == Err::<Seq<Vertex>, Error>(e),
        },
{
    let mut vertices: Vec<Vertex> = Vec::new();
    let mut indices: Vec<u32> = Vec::new();
    let mut i: usize = 0;
    while i < obj.faces.len()
        invariant
            i <= obj@.faces.len(),
            obj.faces@.len() <= u32::MAX as nat + 1,
            forall|k: int| 0 <= k < i ==> corner_in_range(obj@, #[trigger] obj@.faces[k]),
            vertices@ =~= Seq::new(i as nat, |k: int| corner_vertex(obj@, obj@.faces[k])),
            indices@ =~= identity_indices(i as nat),
        decreases obj@.faces.len() - i,
    {
        let f = obj.faces[i];
        if f.0 < 1 || f.0 as usize > obj.positions.len() || f.1 < 1 || f.1 as usize > obj.uvs.len() || f.2 < 1
            || f.2 as usize > obj.normals.len() {
            assert(!corner_in_range(obj@, obj@.faces[i as int]));
            return Err(Error::Decode);
        }
        let position = obj.positions[(f.0 - 1) as usize];
        let normal = obj.normals[(f.2 - 1) as usize];
        let uv = obj.uvs[(f.1 - 1) as usize];
        vertices.push(Vertex { position, normal, uv });
        indices.push(i as u32);
        i = i + 1;
    }
    Ok((vertices, indices))
}

/// Position, normal and texture-coordinate streams of a vertex list.
pub open spec fn vertex_streams(vs: Seq<Vertex>) -> Seq<StreamView> {
    seq![
        StreamView {
            kind: AttributeKind::Position,
            elements: Seq::new(vs.len(), |i: int| seq![vs[i].position.0, vs[i].position.1, vs[i].position.2]),
        },
        StreamView {
            kind: AttributeKind::Normal,
            elements: Seq::new(vs.len(), |i: int| seq![vs[i].normal.0, vs[i].normal.1, vs[i].normal.2]),
        },
        StreamView {
            kind: AttributeKind::UV,
            elements: Seq::new(vs.len(), |i: int| seq![vs[i].uv.0, vs[i].uv.1]),
        },
    ]
}

/// The mesh of one object: its corners expanded, then packed as
/// position, normal, uv records of 32 bytes, with back-face culling.
pub open spec fn obj_mesh(o: ObjView<u32>) -> Result<MeshView, Error> {
    match expanded(o) {
        Err(e) => Err(e),
        Ok(vs) => interleaved_mesh(vertex_streams(vs), identity_indices(vs.len()), default_culling(true), false),
    }
}

fn split_vertices(vs: &Vec<Vertex>) -> (r: Vec<AttributeStream>)
    ensures
        r@.map_values(|s: AttributeStream| s@) == vertex_streams(vs@),
        r@.len() == 3,
{
    let mut positions: Vec<Vec<u32>> = Vec::new();
    let mut normals: Vec<Vec<u32>> = Vec::new();
    let mut uvs: Vec<Vec<u32>> = Vec::new();
    let ghost want = vertex_streams(vs@);
    let mut i: usize = 0;
    while i < vs.len()
        invariant
            i <= vs@.len(),
            want == vertex_streams(vs@),
            positions@.map_values(|e: Vec<u32>| e@) =~= want[0].elements.take(i as int),
            normals@.map_values(|e: Vec<u32>| e@) =~= want[1].elements.take(i as int),
            uvs@.map_values(|e: Vec<u32>| e@) =~= want[2].elements.take(i as int),
        decreases vs@.len() - i,
    {
        let v = vs[i];
        let p: Vec<u32> = vec![v.position.0, v.position.1, v.position.2];
        let n: Vec<u32> = vec![v.normal.0, v.normal.1, v.normal.2];
        let t: Vec<u32> = vec![v.uv.0, v.uv.1];
        assert(p@ =~= want[0].elements[i as int]);
        assert(n@ =~= want[1].elements[i as int]);
        assert(t@ =~= want[2].elements[i as int]);
        let ghost (bp, bn, bt) = (
            positions@.map_values(|e: Vec<u32>| e@),
            normals@.map_values(|e: Vec<u32>| e@),
            uvs@.map_values(|e: Vec<u32>| e@),
        );
        positions.push(p);
        normals.push(n);
        uvs.push(t);
        assert(positions@.map_values(|e: Vec<u32>| e@) =~= bp.push(want[0].elements[i as int]));
        assert(normals@.map_values(|e: Vec<u32>| e@) =~= bn.push(want[1].elements[i as int]));
        assert(uvs@.map_values(|e: Vec<u32>| e@) =~= bt.push(want[2].elements[i as int]));
        assert(want[0].elements.take(i as int + 1) =~= want[0].elements.take(i as int).push(want[0].elements[i as int]));
        assert(want[1].elements.take(i as int + 1) =~= want[1].elements.take(i as int).push(want[1].elements[i as int]));
        assert(want[2].elements.take(i as int + 1) =~= want[2].elements.take(i as int).push(want[2].elements[i as int]));
        i = i + 1;
    }
    let mut streams: Vec<AttributeStream> = Vec::new();
    streams.push(AttributeStream { kind: AttributeKind::Position, elements: positions });
    streams.push(AttributeStream { kind: AttributeKind::Normal, elements: normals });
    streams.push(AttributeStream { kind: AttributeKind::UV, elements: uvs });
    assert(want[0].elements.take(vs@.len() as int) =~= want[0].elements);
    assert(want[1].elements.take(vs@.len() as int) =~= want[1].elements);
    assert(want[2].elements.take(vs@.len() as int) =~= want[2].elements);
    assert(streams@.map_values(|s: AttributeStream| s@) =~= want);
    streams
}

/// The mesh of one object: corners expanded into vertices, packed as
/// position, normal, uv records, indexed by the identity list.
pub fn object_to_glmesh(obj: &MeshOBJ<u32>) -> (r: Result<Mesh, Error>)
    requires
        obj.faces@.len() <= u32::MAX as nat + 1,
    ensures
        match r {
            Ok(m) => obj_mesh(obj@) == Ok::<MeshView, Error>(m@),
            Err(e) => obj_mesh(obj@) == Err::<MeshView, Error>(e),
        },
        r is Ok <==> corners_resolve(obj@),
        r matches Ok(m) ==> m@.vertex_count == obj@.faces.len() && m@.indices.len() == obj@.faces.len(),
{
    proof {
        lemma_obj_mesh_counts(obj@);
    }
    let (vertices, indices) = match expand_object(obj) {
        Ok(x) => x,
        Err(e) => return Err(e),
    };
    let streams = split_vertices(&vertices);
    Mesh::from_raw(&streams, indices, Culling::initialize(), false)
}

/// Every corner of the object falls inside its arrays.
pub open spec fn corners_resolve(o: ObjView<u32>) -> bool {
    forall|i: int| 0 <= i < o.faces.len() ==> corner_in_range(o, #[trigger] o.faces[i])
}

/// An object's mesh exists exactly when all its corners resolve, and then it
/// has one vertex and one index per corner.
pub proof fn lemma_obj_mesh_counts(o: ObjView<u32>)
    ensures
        obj_mesh(o) is Ok <==> corners_resolve(o),
        obj_mesh(o) is Ok ==> obj_mesh(o)->Ok_0.vertex_count == o.faces.len() && obj_mesh(o)->Ok_0.indices.len()
            == o.faces.len(),
{
    if corners_resolve(o) {
        let vs = Seq::new(o.faces.len(), |i: int| corner_vertex(o, o.faces[i]));
        let ss = vertex_streams(vs);
        assert(streams_aligned(ss, element_count(ss)));
    }
}

/// A triangulated object of `f` faces whose corners all resolve gives a mesh
/// of `3 * f` vertices and `3 * f` indices: corners are never shared.
pub proof fn lemma_no_deduplication(o: ObjView<u32>, f: nat)
    requires
        o.faces.len() == 3 * f,
        forall|i: int| 0 <= i < o.faces.len() ==> corner_in_range(o, #[trigger] o.faces[i]),
    ensures
        obj_mesh(o) is Ok,
        obj_mesh(o)->Ok_0.vertex_count == 3 * f,
        obj_mesh(o)->Ok_0.indices.len() == 3 * f,
{
    lemma_obj_mesh_counts(o);
}

/// Results of objects `k..`, in order; the first error stops the walk.
pub open spec fn obj_meshes_from(objs: Seq<ObjView<u32>>, k: int) -> Result<Seq<MeshView>, Error>
    decreases objs.len() - k,
{
    if k < 0 || k >= objs.len() {
        Ok(Seq::empty())
    } else {
        match obj_mesh(objs[k]) {
            Err(e) => Err(e),
            Ok(m) => match obj_meshes_from(objs, k + 1) {
                Err(e) => Err(e),
                Ok(rest) => Ok(seq![m] + rest),
            },
        }
    }
}

impl Mesh {
    /// One mesh per object, in order; the first object that fails to expand
    /// stops the walk and its error is returned.
    pub fn from_obj(objects: &Vec<MeshOBJ<u32>>) -> (r: Result<Vec<Mesh>, Error>)
        requires
            forall|i: int| 0 <= i < objects@.len() ==> (#[trigger] objects@[i]).faces@.len() <= u32::MAX as nat + 1,
        ensures
            ({
                let want = obj_meshes_from(objects@.map_values(|o: MeshOBJ<u32>| o@), 0);
                match r {
                    Ok(ms) => want == Ok::<Seq<MeshView>, Error>(ms@.map_values(|m: Mesh| m@)),
                    Err(e) => want == Err::<Seq<MeshView>, Error>(e),
                }
            }),
            (forall|k: int| 0 <= k < objects@.len() ==> corners_resolve(#[trigger] objects@[k]@)) ==> r is Ok,
            r matches Ok(ms) ==> ms@.len() == objects@.len() && forall|k: int|
                0 <= k < ms@.len() ==> (#[trigger] ms@[k])@.vertex_count == objects@[k].faces@.len()
                    && ms@[k]@.indices.len() == objects@[k].faces@.len(),
    {
        let ghost objs = objects@.map_values(|o: MeshOBJ<u32>| o@);
        let ghost total = obj_meshes_from(objs, 0);
        let mut out: Vec<Mesh> = Vec::new();
        let mut k: usize = 0;
        proof {
            match total {
                Ok(rest) => {
                    assert(Seq::<MeshView>::empty() + rest =~= rest);
                },
                Err(_) => {},
            }
        }
        assert(out@.map_values(|m: Mesh| m@) =~= Seq::<MeshView>::empty());
        while k < objects.len()
            invariant
                k <= objects@.len(),
                objs == objects@.map_values(|o: MeshOBJ<u32>| o@),
                total == obj_meshes_from(objs, 0),
                forall|i: int| 0 <= i < objects@.len() ==> (#[trigger] objects@[i]).faces@.len() <= u32::MAX as nat
                    + 1,
                total == (match obj_meshes_from(objs, k as int) {
                    Ok(rest) => Ok(out@.map_values(|m: Mesh| m@) + rest),
                    Err(e) => Err(e),
                }),
                out@.len() == k,
                forall|j: int|
                    0 <= j < k ==> (#[trigger] out@[j])@.vertex_count == objects@[j].faces@.len()
                        && out@[j]@.indices.len() == objects@[j].faces@.len(),
            decreases objects@.len() - k,
        {
            let ghost before = out@.map_values(|m: Mesh| m@);
            match object_to_glmesh(&objects[k]) {
                Ok(mesh) => {
                    let ghost mv = mesh@;
                    out.push(mesh);
                    assert(out@.map_values(|m: Mesh| m@) =~= before.push(mv));
                    proof {
                        match obj_meshes_from(objs, k as int + 1) {
                            Ok(rest) => {
                                assert(before + (seq![mv] + rest) =~= before.push(mv) + rest);
                            },
                            Err(_) => {},
                        }
                    }
                },
                Err(e) => return Err(e),
            }
            k = k + 1;
        }
        assert(out@.map_values(|m: Mesh| m@) + Seq::empty() =~= out@.map_values(|m: Mesh| m@));
        Ok(out)
    }
}

/// The vertices of a buffer of 32-byte position, normal, uv records; `Decode`
/// unless the length is a multiple of 32.
pub open spec fn unpacked(b: Seq<u8>) -> Result<Seq<Vertex>, Error> {
    if b.len() % 32 != 0 {
        Err(Error::Decode)
    } else {
        Ok(
            Seq::new(
                b.len() / 32,
                |v: int|
                    Vertex {
                        position: (u32_at(b, 32 * v), u32_at(b, 32 * v + 4), u32_at(b, 32 * v + 8)),
                        normal: (u32_at(b, 32 * v + 12), u32_at(b, 32 * v + 16), u32_at(b, 32 * v + 20)),
                        uv: (u32_at(b, 32 * v + 24), u32_at(b, 32 * v + 28)),
                    },
            ),
        )
    }
}

impl Vertex {
    /// Reads back the vertices of an OBJ mesh's packed buffer.
    pub fn from_packed(b: &[u8]) -> (r: Result<Vec<Vertex>, Error>)
        ensures
            match r {
                Ok(vs) => unpacked(b@) == Ok::<Seq<Vertex>, Error>(vs@),
                Err(e) => unpacked(b@) == Err::<Seq<Vertex>, Error>(e),
            },
    {
        if b.len() % 32 != 0 {
            return Err(Error::Decode);
        }
        let count = b.len() / 32;
        let mut out: Vec<Vertex> = Vec::new();
        let mut v: usize = 0;
        while v < count
            invariant
                v <= count,
                count == b@.len() / 32,
                b@.len() % 32 == 0,
                b@.len() <= usize::MAX,
                out@ =~= unpacked(b@)->Ok_0.take(v as int),
            decreases count - v,
        {
            let at = 32 * v;
            let position = (read_u32_le(b, at), read_u32_le(b, at + 4), read_u32_le(b, at + 8));
            let normal = (read_u32_le(b, at + 12), read_u32_le(b, at + 16), read_u32_le(b, at + 20));
            let uv = (read_u32_le(b, at + 24), read_u32_le(b, at + 28));
            out.push(Vertex { position, normal, uv });
            v = v + 1;
        }
        assert(unpacked(b@)->Ok_0.take(count as int) =~= unpacked(b@)->Ok_0);
        Ok(out)
    }
}

/// Packing a vertex list as position, normal, uv records and reading the
/// records back gives the same vertices.
#[verifier::spinoff_prover]
#[verifier::rlimit(60)]
pub proof fn lemma_sequential_round_trip(vs: Seq<Vertex>)
    ensures
        unpacked(packed(vertex_streams(vs), vs.len() as int)) == Ok::<Seq<Vertex>, Error>(vs),
{
    let ss = vertex_streams(vs);
    let n = vs.len();
    let kinds = kinds_of(ss);
    assert(streams_aligned(ss, element_count(ss)));
    reveal_with_fuel(size_before, 4);
    assert(size_before(kinds, 3) == 32);
    lemma_packed(ss, n, n as int);
    let b = packed(ss, n as int);
    assert(b.len() == n * 32);
    vstd::arithmetic::div_mod::lemma_mod_multiples_basic(n as int, 32);
    vstd::arithmetic::div_mod::lemma_div_multiples_vanish(n as int, 32);
    let l = planned(kinds, true);
    assert(kinds.len() == 3);
    assert(l.stride == 32);
    assert(l.attributes[0].offset == 0);
    assert(l.attributes[1].offset == 12);
    assert(l.attributes[2].offset == 24);
    assert forall|v: int| 0 <= v < n implies #[trigger] unpacked(b)->Ok_0[v] == vs[v] by {
        lemma_pack_read_back(ss, v, 0, 0);
        lemma_pack_read_back(ss, v, 0, 1);
        lemma_pack_read_back(ss, v, 0, 2);
        lemma_pack_read_back(ss, v, 1, 0);
        lemma_pack_read_back(ss, v, 1, 1);
        lemma_pack_read_back(ss, v, 1, 2);
        lemma_pack_read_back(ss, v, 2, 0);
        lemma_pack_read_back(ss, v, 2, 1);
        assert(component_position(l, v, 0, 0) == 32 * v);
    }
    assert(unpacked(b)->Ok_0 =~= vs);
}

} // verus!
