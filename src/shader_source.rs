//! A shader program file: one text with a `#vertex` section and a `#fragment`
//! section, split into the two sources.
use vstd::prelude::*;
use crate::error::Error;
use crate::text::{Span, text_of, split_spans, contains_byte, split_on};

verus! {

/// `p` occurs somewhere in `t`.
pub open spec fn contains_seq(t: Seq<u8>, p: Seq<u8>) -> bool {
    exists|i: int| 0 <= i && i + p.len() <= t.len() && #[trigger] t.subrange(i, i + p.len()) == p
}

/// `#vertex`
pub open spec fn directive_vertex() -> Seq<u8> {
    seq![0x23u8, 0x76, 0x65, 0x72, 0x74, 0x65, 0x78]
}

/// `#fragment`
pub open spec fn directive_fragment() -> Seq<u8> {
    seq![0x23u8, 0x66, 0x72, 0x61, 0x67, 0x6d, 0x65, 0x6e, 0x74]
}

/// `//`
pub open spec fn line_comment() -> Seq<u8> {
    seq![0x2fu8, 0x2f]
}

/// Which section the lines being read belong to.
#[derive(Debug, Clone, Copy, PartialEq, Eq, Structural)]
pub enum ShaderParserKind {
    Vertex,
    Fragment,
    Outside,
}

pub ghost struct ShaderState {
    pub kind: ShaderParserKind,
    pub vertex: Seq<u8>,
    pub fragment: Seq<u8>,
}

/// One line: a directive switches section, a comment line is dropped, any
/// other line is appended, with a line feed, to the current section.
pub open spec fn shader_line(s: Seq<u8>, line: Span, st: ShaderState) -> ShaderState {
    let t = text_of(s, line);
    if contains_seq(t, directive_vertex()) {
        ShaderState { kind: ShaderParserKind::Vertex, ..st }
    } else if contains_seq(t, directive_fragment()) {
        ShaderState { kind: ShaderParserKind::Fragment, ..st }
    } else if contains_seq(t, line_comment()) {
        st
    } else {
        match st.kind {
            ShaderParserKind::Vertex => ShaderState { vertex: st.vertex + t.push(0x0a), ..st },
            ShaderParserKind::Fragment => ShaderState { fragment: st.fragment + t.push(0x0a), ..st },
            ShaderParserKind::Outside => st,
        }
    }
}

pub open spec fn shader_lines_from(s: Seq<u8>, lines: Seq<Span>, k: int, st: ShaderState) -> ShaderState
    decreases lines.len() - k,
{
    if k < 0 || k >= lines.len() {
        st
    } else {
        shader_lines_from(s, lines, k + 1, shader_line(s, lines[k], st))
    }
}

/// The vertex and fragment sources of a shader program text: `ShaderParse`
/// when either is empty, `CStringNul` when either holds a NUL byte.
pub open spec fn shader_program(s: Seq<u8>) -> Result<(Seq<u8>, Seq<u8>), Error> {
    let st = shader_lines_from(
        s,
        split_spans(s, 0, s.len() as int, 0x0a),
        0,
        ShaderState { kind: ShaderParserKind::Outside, vertex: Seq::empty(), fragment: Seq::empty() },
    );
    if st.vertex.len() == 0 || st.fragment.len() == 0 {
        Err(Error::ShaderParse)
    } else if contains_byte(st.vertex, 0) || contains_byte(st.fragment, 0) {
        Err(Error::CStringNul)
    } else {
        Ok((st.vertex, st.fragment))
    }
}

/// The two sources of a shader program, each free of NUL bytes.
pub struct ParsedShaderSource {
    vertex: Vec<u8>,
    fragment: Vec<u8>,
}

impl ParsedShaderSource {
    pub closed spec fn vertex_spec(&self) -> Seq<u8> {
        self.vertex@
    }

    pub closed spec fn fragment_spec(&self) -> Seq<u8> {
        self.fragment@
    }

    pub fn get_vertex_source(&self) -> (r: &[u8])
        ensures
            r@ == self.vertex_spec(),
    {
        self.vertex.as_slice()
    }

    pub fn get_fragment_source(&self) -> (r: &[u8])
        ensures
            r@ == self.fragment_spec(),
    {
        self.fragment.as_slice()
    }
}

/// Whether `p` occurs in `t[sp]`.
fn span_contains(t: &[u8], sp: Span, p: &[u8]) -> (r: bool)
    requires
        sp.start <= sp.end <= t@.len(),
        p@.len() > 0,
    ensures
        r == contains_seq(text_of(t@, sp), p@),
{
    let ghost body = text_of(t@, sp);
    let len = sp.end - sp.start;
    if p.len() > len {
        assert forall|i: int| 0 <= i && i + p@.len() <= body.len() implies #[trigger] body.subrange(i, i + p@.len())
            != p@ by {}
        return false;
    }
    let mut i: usize = 0;
    while i <= len - p.len()
        invariant
            sp.start <= sp.end <= t@.len(),
            len == sp.end - sp.start,
            p@.len() <= len,
            body == text_of(t@, sp),
            forall|k: int| 0 <= k < i ==> #[trigger] body.subrange(k, k + p@.len()) != p@,
        decreases len - i,
    {
        let mut j: usize = 0;
        let mut same = true;
        while j < p.len()
            invariant
                i + p@.len() <= len,
                sp.start <= sp.end <= t@.len(),
                len == sp.end - sp.start,
                body == text_of(t@, sp),
                j <= p@.len(),
                same == (forall|m: int| 0 <= m < j ==> body[i + m] == p@[m]),
            decreases p@.len() - j,
        {
            if t[sp.start + i + j] != p[j] {
                same = false;
            }
            j = j + 1;
        }
        if same {
            assert(body.subrange(i as int, i + p@.len()) =~= p@);
            return true;
        }
        assert(body.subrange(i as int, i + p@.len()) != p@) by {
            let m = choose|m: int| 0 <= m < p@.len() && body[i + m] != p@[m];
            assert(body.subrange(i as int, i + p@.len())[m] != p@[m]);
        }
        i = i + 1;
    }
    assert forall|k: int| 0 <= k && k + p@.len() <= body.len() implies #[trigger] body.subrange(k, k + p@.len())
        != p@ by {
        assert(k < i);
    }
    false
}

fn append_line(dst: &mut Vec<u8>, t: &[u8], sp: Span)
    requires
        sp.start <= sp.end <= t@.len(),
    ensures
        final(dst)@ == old(dst)@ + text_of(t@, sp).push(0x0a),
{
    let ghost start = dst@;
    let mut i: usize = sp.start;
    while i < sp.end
        invariant
            sp.start <= i <= sp.end <= t@.len(),
            dst@ == start + t@.subrange(sp.start as int, i as int),
        decreases sp.end - i,
    {
        dst.push(t[i]);
        assert(t@.subrange(sp.start as int, i + 1) =~= t@.subrange(sp.start as int, i as int).push(t@[i as int]));
        i = i + 1;
    }
    dst.push(0x0a);
    assert(dst@ =~= start + text_of(t@, sp).push(0x0a));
}

fn has_nul(v: &Vec<u8>) -> (r: bool)
    ensures
        r == contains_byte(v@, 0),
{
    let mut i: usize = 0;
    while i < v.len()
        invariant
            i <= v@.len(),
            forall|k: int| 0 <= k < i ==> v@[k] != 0,
        decreases v@.len() - i,
    {
        if v[i] == 0 {
            return true;
        }
        i = i + 1;
    }
    false
}

/// Splits a shader program text into its vertex and fragment sources.
pub fn parse_shader_program(shader_program_text: &[u8]) -> (r: Result<ParsedShaderSource, Error>)
    ensures
        match r {
            Ok(p) => shader_program(shader_program_text@) == Ok::<(Seq<u8>, Seq<u8>), Error>(
                (p.vertex_spec(), p.fragment_spec()),
            ),
            Err(e) => shader_program(shader_program_text@) == Err::<(Seq<u8>, Seq<u8>), Error>(e),
        },
{
    let t = shader_program_text;
    let lines = split_on(t, 0, t.len(), 0x0a);
    let vertex_directive: Vec<u8> = vec![0x23u8, 0x76, 0x65, 0x72, 0x74, 0x65, 0x78];
    let fragment_directive: Vec<u8> = vec![0x23u8, 0x66, 0x72, 0x61, 0x67, 0x6d, 0x65, 0x6e, 0x74];
    let comment: Vec<u8> = vec![0x2fu8, 0x2f];
    assert(vertex_directive@ =~= directive_vertex());
    assert(fragment_directive@ =~= directive_fragment());
    assert(comment@ =~= line_comment());
    let ghost total = shader_lines_from(
        t@,
        lines@,
        0,
        ShaderState { kind: ShaderParserKind::Outside, vertex: Seq::empty(), fragment: Seq::empty() },
    );
    let mut kind = ShaderParserKind::Outside;
    let mut vert: Vec<u8> = Vec::new();
    let mut frag: Vec<u8> = Vec::new();
    let mut k: usize = 0;
    while k < lines.len()
        invariant
            k <= lines@.len(),
            forall|i: int| 0 <= i < lines@.len() ==> (#[trigger] lines@[i]).start <= lines@[i].end <= t@.len(),
            vertex_directive@ == directive_vertex(),
            fragment_directive@ == directive_fragment(),
            comment@ == line_comment(),
            total == shader_lines_from(
                t@,
                lines@,
                k as int,
                ShaderState { kind, vertex: vert@, fragment: frag@ },
            ),
        decreases lines@.len() - k,
    {
        let line = lines[k];
        if span_contains(t, line, vertex_directive.as_slice()) {
            kind = ShaderParserKind::Vertex;
        } else if span_contains(t, line, fragment_directive.as_slice()) {
            kind = ShaderParserKind::Fragment;
        } else if span_contains(t, line, comment.as_slice()) {
        } else {
            match kind {
                ShaderParserKind::Vertex => append_line(&mut vert, t, line),
                ShaderParserKind::Fragment => append_line(&mut frag, t, line),
                ShaderParserKind::Outside => {},
            }
        }
        k = k + 1;
    }
    if vert.len() == 0 || frag.len() == 0 {
        return Err(Error::ShaderParse);
    }
    if has_nul(&vert) || has_nul(&frag) {
        return Err(Error::CStringNul);
    }
    Ok(ParsedShaderSource { vertex: vert, fragment: frag })
}

} // verus!
