//! Byte-level text scanning: splitting, whitespace tokens and numeric syntax.
use vstd::prelude::*;

verus! {

/// A half-open byte range `start..end` of some text.
#[derive(Debug, Clone, Copy, PartialEq, Eq, Structural)]
pub struct Span {
    pub start: usize,
    pub end: usize,
}

pub open spec fn span(start: int, end: int) -> Span {
    Span { start: start as usize, end: end as usize }
}

/// The bytes that a span covers.
pub open spec fn text_of(s: Seq<u8>, sp: Span) -> Seq<u8> {
    s.subrange(sp.start as int, sp.end as int)
}

/// The pieces of `s[lo..hi]` between occurrences of `sep`, as `str::split` gives them.
pub open spec fn split_spans(s: Seq<u8>, lo: int, hi: int, sep: u8) -> Seq<Span>
    decreases hi - lo,
{
    if hi <= lo {
        seq![span(lo, lo)]
    } else {
        let p = split_spans(s, lo, hi - 1, sep);
        if s[hi - 1] == sep {
            p.push(span(hi, hi))
        } else {
            p.update(p.len() - 1, span(p.last().start as int, hi))
        }
    }
}

/// The pieces of `s[0..n]` between occurrences of the two bytes `o` and space.
pub open spec fn marker_pieces(s: Seq<u8>, n: int) -> Seq<Span>
    decreases n,
{
    if n <= 0 {
        seq![span(0, 0)]
    } else {
        let p = marker_pieces(s, n - 1);
        if n >= 2 && s[n - 2] == 0x6f && s[n - 1] == 0x20 {
            p.update(p.len() - 1, span(p.last().start as int, n - 2)).push(span(n, n))
        } else {
            p.update(p.len() - 1, span(p.last().start as int, n))
        }
    }
}

/// Space, tab, line feed, vertical tab, form feed and carriage return.
pub open spec fn is_space(c: u8) -> bool {
    c == 0x20 || (0x09 <= c && c <= 0x0d)
}

/// The maximal runs of non-space bytes of `s[lo..hi]`, in order.
pub open spec fn token_spans(s: Seq<u8>, lo: int, hi: int) -> Seq<Span>
    decreases hi - lo,
{
    if hi <= lo {
        Seq::empty()
    } else {
        let p = token_spans(s, lo, hi - 1);
        if is_space(s[hi - 1]) {
            p
        } else if p.len() > 0 && p.last().end == hi - 1 {
            p.update(p.len() - 1, span(p.last().start as int, hi))
        } else {
            p.push(span(hi - 1, hi))
        }
    }
}

pub open spec fn contains_byte(t: Seq<u8>, c: u8) -> bool {
    exists|i: int| 0 <= i < t.len() && t[i] == c
}

pub open spec fn is_digit(c: u8) -> bool {
    0x30 <= c && c <= 0x39
}

/// ASCII lower case of a byte.
pub open spec fn lower(c: u8) -> u8 {
    if 0x41 <= c && c <= 0x5a { (c + 32) as u8 } else { c }
}

/// `t` equals `w` when ASCII letters of `t` are taken in lower case.
pub open spec fn equals_ignoring_case(t: Seq<u8>, w: Seq<u8>) -> bool {
    t.len() == w.len() && forall|i: int| 0 <= i < t.len() ==> lower(#[trigger] t[i]) == w[i]
}

/// Value of a run of decimal digits.
pub open spec fn digits_value(t: Seq<u8>) -> nat
    decreases t.len(),
{
    if t.len() == 0 { 0 } else { digits_value(t.drop_last()) * 10 + (t.last() - 0x30) as nat }
}

pub open spec fn all_digits(t: Seq<u8>) -> bool {
    forall|i: int| 0 <= i < t.len() ==> is_digit(#[trigger] t[i])
}

/// What `u32`'s `from_str` accepts: an optional `+`, then one or more decimal
/// digits whose value fits in 32 bits.
pub open spec fn u32_text(t: Seq<u8>) -> Option<u32> {
    let d = if t.len() > 0 && t[0] == 0x2b { t.subrange(1, t.len() as int) } else { t };
    if d.len() > 0 && all_digits(d) && digits_value(d) <= u32::MAX {
        Some(digits_value(d) as u32)
    } else {
        None
    }
}

/// Index of the first non-digit of `t` at or after `i`.
pub open spec fn digit_run(t: Seq<u8>, i: int) -> int
    decreases t.len() - i,
{
    if i < 0 || i >= t.len() || !is_digit(t[i]) { i } else { digit_run(t, i + 1) }
}

pub open spec fn is_sign(c: u8) -> bool {
    c == 0x2b || c == 0x2d
}

/// `t[k..]` is empty, or an exponent: `e` or `E`, an optional sign, one or more digits.
pub open spec fn exponent_tail(t: Seq<u8>, k: int) -> bool {
    k == t.len() || (k < t.len() && lower(t[k]) == 0x65 && {
        let m = if k + 1 < t.len() && is_sign(t[k + 1]) { k + 2 } else { k + 1 };
        m < t.len() && digit_run(t, m) == t.len()
    })
}

/// `t[i..]` is digits, an optional point and digits (at least one digit in
/// all), then an optional exponent.
pub open spec fn decimal_tail(t: Seq<u8>, i: int) -> bool {
    let j = digit_run(t, i);
    if j < t.len() && t[j] == 0x2e {
        let k = digit_run(t, j + 1);
        (j - i) + (k - (j + 1)) > 0 && exponent_tail(t, k)
    } else {
        j - i > 0 && exponent_tail(t, j)
    }
}

/// What `f32`'s `from_str` accepts: an optional sign, then `inf`, `infinity`,
/// `nan` in any case, or a decimal number.
pub open spec fn is_float_text(t: Seq<u8>) -> bool {
    let i: int = if t.len() > 0 && is_sign(t[0]) { 1 } else { 0 };
    let body = t.subrange(i, t.len() as int);
    equals_ignoring_case(body, seq![0x69u8, 0x6e, 0x66]) || equals_ignoring_case(
        body,
        seq![0x69u8, 0x6e, 0x66, 0x69, 0x6e, 0x69, 0x74, 0x79],
    ) || equals_ignoring_case(body, seq![0x6eu8, 0x61, 0x6e]) || decimal_tail(t, i)
}

/// Splits `b[lo..hi]` on `sep`.
pub fn split_on(b: &[u8], lo: usize, hi: usize, sep: u8) -> (r: Vec<Span>)
    requires
        lo <= hi <= b@.len(),
    ensures
        r@ == split_spans(b@, lo as int, hi as int, sep),
        forall|k: int| 0 <= k < r@.len() ==> lo <= (#[trigger] r@[k]).start <= r@[k].end <= hi,
{
    let mut out: Vec<Span> = Vec::new();
    let mut start: usize = lo;
    let mut i: usize = lo;
    while i < hi
        invariant
            lo <= start <= i <= hi <= b@.len(),
            out@.push(Span { start, end: i }) == split_spans(b@, lo as int, i as int, sep),
            forall|k: int| 0 <= k < out@.len() ==> lo <= (#[trigger] out@[k]).start <= out@[k].end <= start,
        decreases hi - i,
    {
        let ghost p = split_spans(b@, lo as int, i as int, sep);
        if b[i] == sep {
            out.push(Span { start, end: i });
            start = i + 1;
            assert(out@.push(Span { start, end: (i + 1) as usize }) =~= p.push(span(i + 1, i + 1)));
        } else {
            assert(out@.push(Span { start, end: (i + 1) as usize }) =~= p.update(
                p.len() - 1,
                span(p.last().start as int, i + 1),
            ));
        }
        i = i + 1;
    }
    out.push(Span { start, end: hi });
    out
}

/// Splits `b` where the bytes `o` and space stand together.
pub fn split_on_marker(b: &[u8]) -> (r: Vec<Span>)
    ensures
        r@ == marker_pieces(b@, b@.len() as int),
        forall|k: int| 0 <= k < r@.len() ==> (#[trigger] r@[k]).start <= r@[k].end <= b@.len(),
{
    let mut out: Vec<Span> = Vec::new();
    let mut start: usize = 0;
    let mut i: usize = 0;
    while i < b.len()
        invariant
            start <= i <= b@.len(),
            start == 0 || (start >= 2 && b@[start - 1] == 0x20 && start <= i),
            out@.push(Span { start, end: i }) == marker_pieces(b@, i as int),
            forall|k: int| 0 <= k < out@.len() ==> (#[trigger] out@[k]).start <= out@[k].end <= start,
        decreases b@.len() - i,
    {
        let ghost p = marker_pieces(b@, i as int);
        if i >= 1 && b[i - 1] == 0x6f && b[i] == 0x20 {
            out.push(Span { start, end: i - 1 });
            start = i + 1;
            assert(out@.push(Span { start, end: (i + 1) as usize }) =~= p.update(
                p.len() - 1,
                span(p.last().start as int, i - 1),
            ).push(span(i + 1, i + 1)));
        } else {
            assert(out@.push(Span { start, end: (i + 1) as usize }) =~= p.update(
                p.len() - 1,
                span(p.last().start as int, i + 1),
            ));
        }
        i = i + 1;
    }
    out.push(Span { start, end: b.len() });
    out
}

pub fn is_space_byte(c: u8) -> (r: bool)
    ensures
        r == is_space(c),
{
    c == 0x20 || (0x09 <= c && c <= 0x0d)
}

/// The whitespace-separated tokens of `b[lo..hi]`.
pub fn tokens(b: &[u8], lo: usize, hi: usize) -> (r: Vec<Span>)
    requires
        lo <= hi <= b@.len(),
    ensures
        r@ == token_spans(b@, lo as int, hi as int),
        forall|k: int| 0 <= k < r@.len() ==> lo <= (#[trigger] r@[k]).start <= r@[k].end <= hi,
{
    let mut out: Vec<Span> = Vec::new();
    let mut in_token = false;
    let mut start: usize = lo;
    let mut i: usize = lo;
    while i < hi
        invariant
            lo <= start <= i <= hi <= b@.len(),
            in_token ==> start < i,
            (if in_token { out@.push(Span { start, end: i }) } else { out@ }) == token_spans(
                b@,
                lo as int,
                i as int,
            ),
            !in_token && out@.len() > 0 ==> out@.last().end < i,
            forall|k: int| 0 <= k < out@.len() ==> lo <= (#[trigger] out@[k]).start <= out@[k].end <= i,
            in_token ==> forall|k: int| 0 <= k < out@.len() ==> (#[trigger] out@[k]).end <= start,
        decreases hi - i,
    {
        let ghost p = token_spans(b@, lo as int, i as int);
        if is_space_byte(b[i]) {
            if in_token {
                out.push(Span { start, end: i });
                in_token = false;
            }
        } else {
            if !in_token {
                in_token = true;
                start = i;
                assert(out@.push(Span { start, end: (i + 1) as usize }) =~= p.push(span(i as int, i + 1)));
            } else {
                assert(out@.push(Span { start, end: (i + 1) as usize }) =~= p.update(
                    p.len() - 1,
                    span(p.last().start as int, i + 1),
                ));
            }
        }
        i = i + 1;
    }
    if in_token {
        out.push(Span { start, end: hi });
    }
    out
}

pub fn is_digit_byte(c: u8) -> (r: bool)
    ensures
        r == is_digit(c),
{
    0x30 <= c && c <= 0x39
}

fn lower_byte(c: u8) -> (r: u8)
    ensures
        r == lower(c),
{
    if 0x41 <= c && c <= 0x5a { c + 32 } else { c }
}

/// Parses `t` as `u32`'s `from_str` does.
pub fn parse_u32(t: &[u8]) -> (r: Option<u32>)
    ensures
        r == u32_text(t@),
{
    let i: usize = if t.len() > 0 && t[0] == 0x2b { 1 } else { 0 };
    let ghost d = t@.subrange(i as int, t@.len() as int);
    assert(d =~= (if t@.len() > 0 && t@[0] == 0x2b { t@.subrange(1, t@.len() as int) } else { t@ }));
    if i == t.len() {
        return None;
    }
    let mut acc: u64 = 0;
    let mut j: usize = i;
    while j < t.len()
        invariant
            i <= j <= t@.len(),
            d == t@.subrange(i as int, t@.len() as int),
            d.len() > 0,
            u32_text(t@) == (if all_digits(d) && digits_value(d) <= u32::MAX {
                Some(digits_value(d) as u32)
            } else {
                None
            }),
            all_digits(t@.subrange(i as int, j as int)),
            acc == (if digits_value(t@.subrange(i as int, j as int)) < 0x1_0000_0000 {
                digits_value(t@.subrange(i as int, j as int))
            } else {
                0x1_0000_0000
            }),
        decreases t@.len() - j,
    {
        let c = t[j];
        if !is_digit_byte(c) {
            assert(d[j - i] == c);
            assert(!is_digit(d[j - i]));
            assert(!all_digits(d));
            return None;
        }
        let ghost prev = t@.subrange(i as int, j as int);
        let ghost next = t@.subrange(i as int, j as int + 1);
        assert(next.drop_last() =~= prev);
        assert(all_digits(next)) by {
            assert forall|k: int| 0 <= k < next.len() implies is_digit(#[trigger] next[k]) by {
                if k < prev.len() {
                    assert(next[k] == prev[k]);
                }
            }
        }
        let v: u64 = acc * 10 + (c - 0x30) as u64;
        acc = if v > 0x1_0000_0000 { 0x1_0000_0000 } else { v };
        j = j + 1;
    }
    assert(t@.subrange(i as int, j as int) =~= d);
    if acc > 0xffff_ffff {
        None
    } else {
        Some(acc as u32)
    }
}

/// Index of the first non-digit of `t` at or after `i`.
fn digit_run_from(t: &[u8], i: usize) -> (r: usize)
    requires
        i <= t@.len(),
    ensures
        r == digit_run(t@, i as int),
        i <= r <= t@.len(),
{
    let mut j: usize = i;
    while j < t.len()
        invariant
            i <= j <= t@.len(),
            digit_run(t@, i as int) == digit_run(t@, j as int),
        decreases t@.len() - j,
    {
        if !is_digit_byte(t[j]) {
            assert(digit_run(t@, j as int) == j as int);
            return j;
        }
        j = j + 1;
    }
    assert(digit_run(t@, j as int) == j as int);
    j
}

/// Whether `t[i..]` equals `w` with ASCII letters of `t` in lower case.
fn equals_from_ignoring_case(t: &[u8], i: usize, w: &[u8]) -> (r: bool)
    requires
        i <= t@.len(),
    ensures
        r == equals_ignoring_case(t@.subrange(i as int, t@.len() as int), w@),
{
    let ghost body = t@.subrange(i as int, t@.len() as int);
    if t.len() - i != w.len() {
        return false;
    }
    let mut k: usize = 0;
    assert(i + w@.len() <= usize::MAX);
    while k < w.len()
        invariant
            k <= w@.len(),
            i + w@.len() <= usize::MAX,
            t@.len() - i == w@.len(),
            i <= t@.len(),
            body == t@.subrange(i as int, t@.len() as int),
            forall|m: int| 0 <= m < k ==> lower(#[trigger] body[m]) == w@[m],
        decreases w@.len() - k,
    {
        if lower_byte(t[i + k]) != w[k] {
            assert(body[k as int] == t@[i + k]);
            return false;
        }
        k = k + 1;
    }
    true
}

fn exponent_tail_at(t: &[u8], k: usize) -> (r: bool)
    requires
        k <= t@.len(),
    ensures
        r == exponent_tail(t@, k as int),
{
    if k == t.len() {
        return true;
    }
    if lower_byte(t[k]) != 0x65 {
        return false;
    }
    let m: usize = if k + 1 < t.len() && (t[k + 1] == 0x2b || t[k + 1] == 0x2d) { k + 2 } else { k + 1 };
    m < t.len() && digit_run_from(t, m) == t.len()
}

/// Whether `t` is a float literal that `f32`'s `from_str` accepts.
pub fn is_float_token(t: &[u8]) -> (r: bool)
    ensures
        r == is_float_text(t@),
{
    let i: usize = if t.len() > 0 && (t[0] == 0x2b || t[0] == 0x2d) { 1 } else { 0 };
    let inf: Vec<u8> = vec![0x69u8, 0x6e, 0x66];
    let infinity: Vec<u8> = vec![0x69u8, 0x6e, 0x66, 0x69, 0x6e, 0x69, 0x74, 0x79];
    let nan: Vec<u8> = vec![0x6eu8, 0x61, 0x6e];
    assert(inf@ =~= seq![0x69u8, 0x6e, 0x66]);
    assert(infinity@ =~= seq![0x69u8, 0x6e, 0x66, 0x69, 0x6e, 0x69, 0x74, 0x79]);
    assert(nan@ =~= seq![0x6eu8, 0x61, 0x6e]);
    if equals_from_ignoring_case(t, i, inf.as_slice()) || equals_from_ignoring_case(t, i, infinity.as_slice())
        || equals_from_ignoring_case(t, i, nan.as_slice()) {
        return true;
    }
    let j = digit_run_from(t, i);
    if j < t.len() && t[j] == 0x2e {
        let k = digit_run_from(t, j + 1);
        (j - i) + (k - (j + 1)) > 0 && exponent_tail_at(t, k)
    } else {
        j - i > 0 && exponent_tail_at(t, j)
    }
}

} // verus!
