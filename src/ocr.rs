//! Parsing of the recognizer's textual output into recognition records.
//!
//! The tool prints one record per recognized region, either in the standard
//! shape `([[x1, y1], [x2, y2], [x3, y3], [x4, y4]], 'text', 0.99)` or, when
//! results are merged into paragraphs, in the shape
//! `[[[x1, y1], [x2, y2], [x3, y3], [x4, y4]], 'text']`, which carries no
//! confidence. Any other line is a log line and is skipped.

use vstd::prelude::*;
use crate::number::{Number, is_number, is_number_range, lemma_number_chars};
use crate::text::{
    chars_of, find, find_range, lemma_find_append, lemma_find_no_double_close,
    lemma_no_double_close_concat, lemma_pieces_cons, lemma_pieces_single, lemma_rfind_append,
    lemma_trim_space_before, lemma_trim_unchanged, no_double_close, pieces, range_views,
    ranges_within, rfind, rfind_range, split_range, trim, trim_range,
};

verus! {

/// The separator between two corners of a bounding box.
pub open spec fn corner_sep() -> Seq<char> {
    seq![']', ',', ' ', '[']
}

/// The separator between the two coordinates of a corner.
pub open spec fn coord_sep() -> Seq<char> {
    seq![',']
}

/// The token that closes a bounding box.
pub open spec fn bbox_close() -> Seq<char> {
    seq![']', ']']
}

/// The separator between two lines of output.
pub open spec fn line_sep() -> Seq<char> {
    seq!['\n']
}

/// What a recognition record holds: the four corners of its bounding box,
/// each as the two numbers that spell its coordinates, the text, and the
/// confidence where the line gave one.
pub struct RecordView {
    pub corners: Seq<(Seq<char>, Seq<char>)>,
    pub text: Seq<char>,
    pub confidence: Option<Seq<char>>,
}

/// One corner `x, y`: two numbers separated by one comma, with white space
/// around each.
pub open spec fn corner_of(p: Seq<char>) -> Option<(Seq<char>, Seq<char>)> {
    let q = pieces(p, coord_sep());
    if q.len() == 2 && is_number(trim(q[0])) && is_number(trim(q[1])) {
        Some((trim(q[0]), trim(q[1])))
    } else {
        None
    }
}

/// A bounding box `[[x1, y1], [x2, y2], [x3, y3], [x4, y4]]`: exactly four
/// corners between `[[` and `]]`, separated by `], [`.
pub open spec fn corners_of(b: Seq<char>) -> Option<Seq<(Seq<char>, Seq<char>)>> {
    if b.len() >= 4 && b[0] == '[' && b[1] == '[' && b[b.len() - 2] == ']' && b[b.len() - 1]
        == ']' {
        let parts = pieces(b.subrange(2, b.len() - 2), corner_sep());
        if parts.len() == 4 {
            match (corner_of(parts[0]), corner_of(parts[1]), corner_of(parts[2]), corner_of(parts[3])) {
                (Some(c0), Some(c1), Some(c2), Some(c3)) => Some(seq![c0, c1, c2, c3]),
                _ => None,
            }
        } else {
            None
        }
    } else {
        None
    }
}

/// `t` without one matching pair of enclosing quotes, `'` or `"`.
pub open spec fn unquote(t: Seq<char>) -> Seq<char> {
    if t.len() >= 2 && (t[0] == '\'' || t[0] == '"') && t.last() == t[0] {
        t.subrange(1, t.len() - 1)
    } else {
        t
    }
}

/// Text and confidence of a standard record: the part after the last comma
/// is the confidence when it is a number; otherwise the whole is the text.
pub open spec fn split_confidence(rest: Seq<char>) -> (Seq<char>, Option<Seq<char>>) {
    match rfind(rest, ',') {
        Some(j) => {
            let c = trim(rest.subrange(j + 1, rest.len() as int));
            if is_number(c) {
                (trim(rest.subrange(0, j)), Some(c))
            } else {
                (rest, None)
            }
        },
        None => (rest, None),
    }
}

/// The record inside the outer delimiters: the bounding box up to the first
/// `]]`, a comma, then the text and, where `scored`, the confidence.
pub open spec fn record_body(s: Seq<char>, scored: bool) -> Option<RecordView> {
    match find(s, bbox_close()) {
        Some(k) => {
            let after = trim(s.subrange(k + 2, s.len() as int));
            if after.len() > 0 && after[0] == ',' {
                let rest = trim(after.drop_first());
                match corners_of(s.subrange(0, k + 2)) {
                    Some(c) => {
                        let (tp, conf) = if scored {
                            split_confidence(rest)
                        } else {
                            (rest, None)
                        };
                        Some(RecordView { corners: c, text: unquote(tp), confidence: conf })
                    },
                    None => None,
                }
            } else {
                None
            }
        },
        None => None,
    }
}

/// The record that one line of output holds: `(...)` is the standard shape,
/// `[...]` the paragraph shape; any other line holds none.
pub open spec fn record_of(line: Seq<char>) -> Option<RecordView> {
    let t = trim(line);
    if t.len() >= 2 && t[0] == '(' && t.last() == ')' {
        record_body(t.subrange(1, t.len() - 1), true)
    } else if t.len() >= 2 && t[0] == '[' && t.last() == ']' {
        record_body(t.subrange(1, t.len() - 1), false)
    } else {
        None
    }
}

/// The records of `lines`, in order, skipping lines that hold none.
pub open spec fn records_in(lines: Seq<Seq<char>>) -> Seq<RecordView>
    decreases lines.len(),
{
    if lines.len() == 0 {
        Seq::empty()
    } else {
        let prev = records_in(lines.drop_last());
        match record_of(lines.last()) {
            Some(r) => prev.push(r),
            None => prev,
        }
    }
}

/// The records of the whole output of the tool.
pub open spec fn records_of(output: Seq<char>) -> Seq<RecordView> {
    records_in(pieces(output, line_sep()))
}

/// One recognized text region.
#[derive(Debug, Clone)]
pub struct OcrLine {
    /// The corners, clockwise from the top left, as `[x, y]`.
    pub bbox: [[Number; 2]; 4],
    pub text: String,
    /// `None` where the line gave no confidence (paragraph results).
    pub confidence: Option<Number>,
}

pub open spec fn corners_view(b: [[Number; 2]; 4]) -> Seq<(Seq<char>, Seq<char>)> {
    seq![(b[0][0]@, b[0][1]@), (b[1][0]@, b[1][1]@), (b[2][0]@, b[2][1]@), (b[3][0]@, b[3][1]@)]
}

impl View for OcrLine {
    type V = RecordView;

    open spec fn view(&self) -> RecordView {
        RecordView {
            corners: corners_view(self.bbox),
            text: self.text@,
            confidence: match self.confidence {
                Some(n) => Some(n@),
                None => None,
            },
        }
    }
}

pub open spec fn record_view(r: Option<OcrLine>) -> Option<RecordView> {
    match r {
        Some(l) => Some(l@),
        None => None,
    }
}

fn pattern_of(a: char, b: char) -> (r: Vec<char>)
    ensures
        r@ == seq![a, b],
{
    let mut r: Vec<char> = Vec::new();
    r.push(a);
    r.push(b);
    assert(r@ =~= seq![a, b]);
    r
}

fn corner_sep_vec() -> (r: Vec<char>)
    ensures
        r@ == corner_sep(),
{
    let mut r = pattern_of(']', ',');
    r.push(' ');
    r.push('[');
    assert(r@ =~= corner_sep());
    r
}

fn single(a: char) -> (r: Vec<char>)
    ensures
        r@ == seq![a],
{
    let mut r: Vec<char> = Vec::new();
    r.push(a);
    assert(r@ =~= seq![a]);
    r
}

/// The number that `v[lo..hi]` spells, once trimmed.
fn number_in(s: &str, v: &Vec<char>, lo: usize, hi: usize) -> (r: Option<Number>)
    requires
        v@ == s@,
        lo <= hi <= v.len(),
    ensures
        is_number(trim(v@.subrange(lo as int, hi as int))) <==> r is Some,
        r matches Some(n) ==> n@ == trim(v@.subrange(lo as int, hi as int)),
{
    let (a, b) = trim_range(v, lo, hi);
    if is_number_range(v, a, b) {
        Some(Number::from_checked(s.substring_char(a, b)))
    } else {
        None
    }
}

/// The corner that `v[lo..hi]` spells.
fn parse_corner(s: &str, v: &Vec<char>, lo: usize, hi: usize) -> (r: Option<[Number; 2]>)
    requires
        v@ == s@,
        lo <= hi <= v.len(),
    ensures
        match r {
            Some(p) => corner_of(v@.subrange(lo as int, hi as int)) == Some((p[0]@, p[1]@)),
            None => corner_of(v@.subrange(lo as int, hi as int)) is None,
        },
{
    let sep = single(',');
    let q = split_range(v, lo, hi, &sep);
    if q.len() != 2 {
        return None;
    }
    assert(range_views(v@, q@)[0] == v@.subrange(q@[0].0 as int, q@[0].1 as int));
    assert(range_views(v@, q@)[1] == v@.subrange(q@[1].0 as int, q@[1].1 as int));
    let x = number_in(s, v, q[0].0, q[0].1);
    let y = number_in(s, v, q[1].0, q[1].1);
    match (x, y) {
        (Some(x), Some(y)) => Some([x, y]),
        _ => None,
    }
}

/// The bounding box that `v[lo..hi]` spells.
fn parse_bbox(s: &str, v: &Vec<char>, lo: usize, hi: usize) -> (r: Option<[[Number; 2]; 4]>)
    requires
        v@ == s@,
        lo <= hi <= v.len(),
    ensures
        match r {
            Some(b) => corners_of(v@.subrange(lo as int, hi as int)) == Some(corners_view(b)),
            None => corners_of(v@.subrange(lo as int, hi as int)) is None,
        },
{
    let ghost b = v@.subrange(lo as int, hi as int);
    if !(hi - lo >= 4 && v[lo] == '[' && v[lo + 1] == '[' && v[hi - 2] == ']' && v[hi - 1]
        == ']') {
        return None;
    }
    let sep = corner_sep_vec();
    assert(b.subrange(2, b.len() - 2) =~= v@.subrange(lo + 2, hi - 2));
    let q = split_range(v, lo + 2, hi - 2, &sep);
    if q.len() != 4 {
        return None;
    }
    assert(range_views(v@, q@)[0] == v@.subrange(q@[0].0 as int, q@[0].1 as int));
    assert(range_views(v@, q@)[1] == v@.subrange(q@[1].0 as int, q@[1].1 as int));
    assert(range_views(v@, q@)[2] == v@.subrange(q@[2].0 as int, q@[2].1 as int));
    assert(range_views(v@, q@)[3] == v@.subrange(q@[3].0 as int, q@[3].1 as int));
    let c0 = parse_corner(s, v, q[0].0, q[0].1);
    let c1 = parse_corner(s, v, q[1].0, q[1].1);
    let c2 = parse_corner(s, v, q[2].0, q[2].1);
    let c3 = parse_corner(s, v, q[3].0, q[3].1);
    match (c0, c1, c2, c3) {
        (Some(c0), Some(c1), Some(c2), Some(c3)) => {
            let r = [c0, c1, c2, c3];
            assert(corners_view(r) =~= seq![
                (c0[0]@, c0[1]@),
                (c1[0]@, c1[1]@),
                (c2[0]@, c2[1]@),
                (c3[0]@, c3[1]@),
            ]);
            Some(r)
        },
        _ => None,
    }
}

pub open spec fn number_view(o: Option<Number>) -> Option<Seq<char>> {
    match o {
        Some(n) => Some(n@),
        None => None,
    }
}

/// The range of `unquote(v[lo..hi])`.
fn unquote_range(v: &Vec<char>, lo: usize, hi: usize) -> (r: (usize, usize))
    requires
        lo <= hi <= v.len(),
    ensures
        lo <= r.0 <= r.1 <= hi,
        v@.subrange(r.0 as int, r.1 as int) == unquote(v@.subrange(lo as int, hi as int)),
{
    let ghost t = v@.subrange(lo as int, hi as int);
    if hi - lo >= 2 && (v[lo] == '\'' || v[lo] == '"') && v[hi - 1] == v[lo] {
        assert(t.subrange(1, t.len() - 1) =~= v@.subrange(lo + 1, hi - 1));
        (lo + 1, hi - 1)
    } else {
        (lo, hi)
    }
}

/// The ranges of text and confidence in `v[lo..hi]`, the remainder of a
/// standard record.
fn split_confidence_range(s: &str, v: &Vec<char>, lo: usize, hi: usize) -> (r: (
    usize,
    usize,
    Option<Number>,
))
    requires
        v@ == s@,
        lo <= hi <= v.len(),
    ensures
        lo <= r.0 <= r.1 <= hi,
        (v@.subrange(r.0 as int, r.1 as int), number_view(r.2)) == split_confidence(
            v@.subrange(lo as int, hi as int),
        ),
{
    let ghost rest = v@.subrange(lo as int, hi as int);
    match rfind_range(v, lo, hi, ',') {
        Some(j) => {
            assert(rest.subrange(j - lo + 1, rest.len() as int) =~= v@.subrange(j + 1, hi as int));
            assert(rest.subrange(0, j - lo) =~= v@.subrange(lo as int, j as int));
            match number_in(s, v, j + 1, hi) {
                Some(n) => {
                    let (a, b) = trim_range(v, lo, j);
                    (a, b, Some(n))
                },
                None => (lo, hi, None),
            }
        },
        None => (lo, hi, None),
    }
}

/// The record inside the outer delimiters, `v[lo..hi]`.
fn parse_body(s: &str, v: &Vec<char>, lo: usize, hi: usize, scored: bool) -> (r: Option<OcrLine>)
    requires
        v@ == s@,
        lo <= hi <= v.len(),
    ensures
        record_view(r) == record_body(v@.subrange(lo as int, hi as int), scored),
{
    let ghost t = v@.subrange(lo as int, hi as int);
    let close = pattern_of(']', ']');
    let k = match find_range(v, lo, hi, &close) {
        Some(k) => k,
        None => return None,
    };
    let (a, b) = trim_range(v, k + 2, hi);
    assert(t.subrange(k - lo + 2, t.len() as int) =~= v@.subrange(k + 2, hi as int));
    if !(a < b && v[a] == ',') {
        return None;
    }
    assert(v@.subrange(a as int, b as int).drop_first() =~= v@.subrange(a + 1, b as int));
    let (c, d) = trim_range(v, a + 1, b);
    assert(t.subrange(0, k - lo + 2) =~= v@.subrange(lo as int, k + 2));
    let bbox = match parse_bbox(s, v, lo, k + 2) {
        Some(b) => b,
        None => return None,
    };
    let (tl, th, confidence) = if scored {
        split_confidence_range(s, v, c, d)
    } else {
        (c, d, None)
    };
    let (ul, uh) = unquote_range(v, tl, th);
    let text = s.substring_char(ul, uh).to_owned();
    Some(OcrLine { bbox, text, confidence })
}

/// Parses one line of the tool's output; `None` where the line is not a
/// record.
pub fn parse_line(s: &str) -> (r: Option<OcrLine>)
    ensures
        record_view(r) == record_of(s@),
{
    let v = chars_of(s);
    let n = v.len();
    assert(v@.subrange(0, n as int) =~= v@);
    let (lo, hi) = trim_range(&v, 0, n);
    let ghost t = v@.subrange(lo as int, hi as int);
    if hi - lo >= 2 && v[lo] == '(' && v[hi - 1] == ')' {
        assert(t.subrange(1, t.len() - 1) =~= v@.subrange(lo + 1, hi - 1));
        parse_body(s, &v, lo + 1, hi - 1, true)
    } else if hi - lo >= 2 && v[lo] == '[' && v[hi - 1] == ']' {
        assert(t.subrange(1, t.len() - 1) =~= v@.subrange(lo + 1, hi - 1));
        parse_body(s, &v, lo + 1, hi - 1, false)
    } else {
        None
    }
}

/// The views of `lines`, in order.
pub open spec fn lines_view(lines: Seq<OcrLine>) -> Seq<RecordView> {
    lines.map_values(|l: OcrLine| l@)
}

/// Parses the whole output of the tool: one record per record line, in the
/// order of the lines; other lines are skipped.
pub fn parse_easyocr_output(output: &str) -> (r: Vec<OcrLine>)
    ensures
        lines_view(r@) == records_of(output@),
{
    let v = chars_of(output);
    let n = v.len();
    assert(v@.subrange(0, n as int) =~= v@);
    let nl = single('\n');
    let q = split_range(&v, 0, n, &nl);
    let ghost lines = range_views(v@, q@);
    let mut out: Vec<OcrLine> = Vec::new();
    let mut i: usize = 0;
    assert(lines.subrange(0, 0) =~= Seq::<Seq<char>>::empty());
    assert(lines_view(out@) =~= Seq::<RecordView>::empty());
    while i < q.len()
        invariant
            i <= q.len(),
            v@ == output@,
            lines == range_views(v@, q@),
            ranges_within(q@, 0, n as int),
            n == v.len(),
            lines_view(out@) == records_in(lines.subrange(0, i as int)),
        decreases q.len() - i,
    {
        let (a, b) = q[i];
        assert(q@[i as int].0 <= q@[i as int].1);
        let line = output.substring_char(a, b);
        assert(lines[i as int] == line@);
        let r = parse_line(line);
        assert(lines.subrange(0, i + 1).drop_last() =~= lines.subrange(0, i as int));
        assert(lines.subrange(0, i + 1).last() == line@);
        match r {
            Some(l) => {
                let ghost old_out = out@;
                out.push(l);
                assert(lines_view(out@) =~= lines_view(old_out).push(l@));
            },
            None => {},
        }
        i = i + 1;
    }
    assert(lines.subrange(0, q.len() as int) =~= lines);
    out
}

/// A corner as the tool writes it: `x, y`.
pub open spec fn corner_text(c: (Seq<char>, Seq<char>)) -> Seq<char> {
    c.0 + seq![',', ' '] + c.1
}

/// Four corners as the tool writes a bounding box.
#[verifier::opaque]
pub open spec fn bbox_text(cs: Seq<(Seq<char>, Seq<char>)>) -> Seq<char> {
    seq!['[', '['] + corner_text(cs[0]) + corner_sep() + corner_text(cs[1]) + corner_sep()
        + corner_text(cs[2]) + corner_sep() + corner_text(cs[3]) + seq![']', ']']
}

/// `t` in single quotes.
pub open spec fn quoted(t: Seq<char>) -> Seq<char> {
    seq!['\''] + t + seq!['\'']
}

/// A line in the standard shape: `(<bbox>, '<text>', <conf>)`.
pub open spec fn standard_line(cs: Seq<(Seq<char>, Seq<char>)>, text: Seq<char>, conf: Seq<char>) -> Seq<char> {
    seq!['('] + bbox_text(cs) + seq![',', ' '] + quoted(text) + seq![',', ' '] + conf + seq![')']
}

/// A line in the paragraph shape: `[<bbox>, '<text>']`.
pub open spec fn paragraph_line(cs: Seq<(Seq<char>, Seq<char>)>, text: Seq<char>) -> Seq<char> {
    seq!['['] + bbox_text(cs) + seq![',', ' '] + quoted(text) + seq![']']
}

/// Four corners whose coordinates are all numbers.
pub open spec fn well_formed_corners(cs: Seq<(Seq<char>, Seq<char>)>) -> bool {
    cs.len() == 4 && forall|i: int| 0 <= i < 4 ==> is_number(#[trigger] cs[i].0) && is_number(cs[i].1)
}

proof fn lemma_corner_text(c: (Seq<char>, Seq<char>))
    requires
        is_number(c.0),
        is_number(c.1),
    ensures
        corner_of(corner_text(c)) == Some(c),
        corner_text(c).len() > 0,
        forall|i: int| 0 <= i < corner_text(c).len() ==> corner_text(c)[i] != ']' && corner_text(c)[i] != '[',
        corner_text(c)[0] != ']',
        corner_text(c).last() != ']',
{
    let (x, y) = c;
    lemma_number_chars(x);
    lemma_number_chars(y);
    let sy = seq![' '] + y;
    assert(corner_text(c) =~= x + seq![','] + sy);
    lemma_pieces_cons(x, seq![','], sy);
    lemma_pieces_single(sy, seq![',']);
    assert(pieces(corner_text(c), coord_sep()) =~= seq![x, sy]);
    lemma_trim_unchanged(x);
    lemma_trim_space_before(' ', y);
    let t = corner_text(c);
    assert forall|i: int| 0 <= i < t.len() implies t[i] != ']' && t[i] != '[' by {
        if i < x.len() {
            assert(t[i] == x[i]);
        } else if i >= x.len() + 2 {
            assert(t[i] == y[i - x.len() - 2]);
        }
    }
}

proof fn lemma_no_close(s: Seq<char>)
    requires
        forall|i: int| 0 <= i < s.len() ==> s[i] != ']',
    ensures
        no_double_close(s),
{
}

/// A bounding box written from well-formed corners reads back as them, and
/// its first `]]` is the one that closes it.
pub proof fn lemma_bbox_text(cs: Seq<(Seq<char>, Seq<char>)>)
    requires
        well_formed_corners(cs),
    ensures
        corners_of(bbox_text(cs)) == Some(cs),
        find(bbox_text(cs), bbox_close()) == Some(bbox_text(cs).len() - 2),
{
    let t0 = corner_text(cs[0]);
    let t1 = corner_text(cs[1]);
    let t2 = corner_text(cs[2]);
    let t3 = corner_text(cs[3]);
    assert(is_number(cs[0].0) && is_number(cs[1].0) && is_number(cs[2].0) && is_number(cs[3].0));
    lemma_corner_text(cs[0]);
    lemma_corner_text(cs[1]);
    lemma_corner_text(cs[2]);
    lemma_corner_text(cs[3]);
    let sep = corner_sep();
    let inner = t0 + sep + t1 + sep + t2 + sep + t3;
    let b = bbox_text(cs);
    reveal(bbox_text);
    assert(b =~= seq!['[', '['] + inner + seq![']', ']']);
    assert(b.subrange(2, b.len() - 2) =~= inner);
    lemma_pieces_single(t3, sep);
    lemma_pieces_cons(t2, sep, t3);
    assert(t2 + sep + t3 =~= t2 + sep + t3);
    lemma_pieces_cons(t1, sep, t2 + sep + t3);
    assert(t1 + sep + (t2 + sep + t3) =~= t1 + sep + t2 + sep + t3);
    lemma_pieces_cons(t0, sep, t1 + sep + t2 + sep + t3);
    assert(t0 + sep + (t1 + sep + t2 + sep + t3) =~= inner);
    assert(pieces(inner, sep) =~= seq![t0, t1, t2, t3]);
    assert(seq![cs[0], cs[1], cs[2], cs[3]] =~= cs);
    // the box up to its last character has no `]]`
    let open = seq!['[', '['];
    let close1 = seq![']'];
    lemma_no_close(open);
    assert(no_double_close(close1));
    lemma_no_close(t0);
    lemma_no_close(t1);
    lemma_no_close(t2);
    lemma_no_close(t3);
    assert(no_double_close(sep)) by {
        assert(sep[1] == ',');
    }
    lemma_no_double_close_concat(open, t0);
    lemma_no_double_close_concat(open + t0, sep);
    lemma_no_double_close_concat(open + t0 + sep, t1);
    lemma_no_double_close_concat(open + t0 + sep + t1, sep);
    lemma_no_double_close_concat(open + t0 + sep + t1 + sep, t2);
    lemma_no_double_close_concat(open + t0 + sep + t1 + sep + t2, sep);
    lemma_no_double_close_concat(open + t0 + sep + t1 + sep + t2 + sep, t3);
    lemma_no_double_close_concat(open + t0 + sep + t1 + sep + t2 + sep + t3, close1);
    let d = open + t0 + sep + t1 + sep + t2 + sep + t3 + close1;
    assert(b.drop_last() =~= d);
    lemma_find_no_double_close(d);
    assert(b.subrange(b.len() - 2, b.len() as int) =~= bbox_close());
}

proof fn lemma_quoted(text: Seq<char>)
    ensures
        trim(quoted(text)) == quoted(text),
        unquote(quoted(text)) == text,
        quoted(text).len() >= 2,
        quoted(text)[0] == '\'',
        quoted(text).last() == '\'',
{
    let q = quoted(text);
    lemma_trim_unchanged(q);
    assert(q.subrange(1, q.len() - 1) =~= text);
}

/// A well-formed standard line reads back as its corners, its text without
/// the quotes (commas and quotes inside kept), and its confidence.
#[verifier::rlimit(50)]
pub proof fn lemma_standard_line(cs: Seq<(Seq<char>, Seq<char>)>, text: Seq<char>, conf: Seq<char>)
    requires
        well_formed_corners(cs),
        is_number(conf),
    ensures
        record_of(standard_line(cs, text, conf)) == Some(
            RecordView { corners: cs, text, confidence: Some(conf) },
        ),
{
    let line = standard_line(cs, text, conf);
    let b = bbox_text(cs);
    let q = quoted(text);
    lemma_bbox_text(cs);
    lemma_quoted(text);
    lemma_number_chars(conf);
    let r0 = seq![',', ' '] + q + seq![',', ' '] + conf;
    let inner = b + r0;
    assert(line =~= seq!['('] + inner + seq![')']);
    lemma_trim_unchanged(line);
    assert(line.subrange(1, line.len() - 1) =~= inner);
    lemma_find_append(b, r0, bbox_close());
    let k = b.len() - 2;
    assert(inner.subrange(k + 2, inner.len() as int) =~= r0);
    assert(inner.subrange(0, k + 2) =~= b);
    lemma_trim_unchanged(r0);
    let rest = q + seq![',', ' '] + conf;
    assert(r0.drop_first() =~= seq![' '] + rest);
    lemma_trim_space_before(' ', rest);
    // the last comma is the one before the confidence
    let sc = seq![' '] + conf;
    assert(rest =~= (q + seq![',']) + sc);
    lemma_rfind_append(q + seq![','], sc, ',');
    assert((q + seq![',']).last() == ',');
    assert(rfind(rest, ',') == Some(q.len() as int));
    assert(rest.subrange(q.len() + 1 as int, rest.len() as int) =~= sc);
    lemma_trim_space_before(' ', conf);
    assert(rest.subrange(0, q.len() as int) =~= q);
}

/// A well-formed paragraph line reads back as its corners and its text
/// without the quotes, with no confidence, whatever the text holds.
#[verifier::rlimit(50)]
pub proof fn lemma_paragraph_line(cs: Seq<(Seq<char>, Seq<char>)>, text: Seq<char>)
    requires
        well_formed_corners(cs),
    ensures
        record_of(paragraph_line(cs, text)) == Some(
            RecordView { corners: cs, text, confidence: None },
        ),
{
    let line = paragraph_line(cs, text);
    let b = bbox_text(cs);
    let q = quoted(text);
    lemma_bbox_text(cs);
    lemma_quoted(text);
    let r0 = seq![',', ' '] + q;
    let inner = b + r0;
    assert(line =~= seq!['['] + inner + seq![']']);
    lemma_trim_unchanged(line);
    assert(line.subrange(1, line.len() - 1) =~= inner);
    lemma_find_append(b, r0, bbox_close());
    let k = b.len() - 2;
    assert(inner.subrange(k + 2, inner.len() as int) =~= r0);
    assert(inner.subrange(0, k + 2) =~= b);
    lemma_trim_unchanged(r0);
    assert(r0.drop_first() =~= seq![' '] + q);
    lemma_trim_space_before(' ', q);
}

/// `lines` joined with line breaks.
pub open spec fn join_lines(lines: Seq<Seq<char>>) -> Seq<char>
    decreases lines.len(),
{
    if lines.len() == 0 {
        Seq::empty()
    } else if lines.len() == 1 {
        lines[0]
    } else {
        lines[0] + line_sep() + join_lines(lines.drop_first())
    }
}

/// Whether no line of `lines` holds a line break.
pub open spec fn single_lines(lines: Seq<Seq<char>>) -> bool {
    forall|j: int, i: int| 0 <= j < lines.len() && 0 <= i < lines[j].len() ==> #[trigger] lines[j][i] != '\n'
}

proof fn lemma_pieces_join(lines: Seq<Seq<char>>)
    requires
        lines.len() >= 1,
        single_lines(lines),
    ensures
        pieces(join_lines(lines), line_sep()) == lines,
    decreases lines.len(),
{
    let l0 = lines[0];
    assert forall|i: int| 0 <= i < l0.len() implies l0[i] != line_sep()[0] by {
        assert(lines[0][i] != '\n');
    }
    if lines.len() == 1 {
        lemma_pieces_single(l0, line_sep());
        assert(seq![l0] =~= lines);
    } else {
        let rest = lines.drop_first();
        assert forall|j: int, i: int| 0 <= j < rest.len() && 0 <= i < rest[j].len() implies #[trigger] rest[j][i] != '\n' by {
            assert(rest[j] == lines[j + 1]);
        }
        lemma_pieces_join(rest);
        lemma_pieces_cons(l0, line_sep(), join_lines(rest));
        assert(seq![l0] + rest =~= lines);
    }
}

proof fn lemma_records_in_count(lines: Seq<Seq<char>>)
    ensures
        records_in(lines).len() == lines.filter(|l: Seq<char>| record_of(l) is Some).len(),
    decreases lines.len(),
{
    reveal(Seq::filter);
    if lines.len() > 0 {
        lemma_records_in_count(lines.drop_last());
    }
}

/// Output made of lines, each a record line or not: it yields the records of
/// the record lines, one each, in the order of the lines; the other lines
/// yield nothing and do not stop the reading of the rest.
pub proof fn lemma_output_records(lines: Seq<Seq<char>>)
    requires
        single_lines(lines),
    ensures
        records_of(join_lines(lines)) == records_in(lines),
        records_of(join_lines(lines)).len() == lines.filter(
            |l: Seq<char>| record_of(l) is Some,
        ).len(),
{
    if lines.len() == 0 {
        let e = Seq::<char>::empty();
        assert(pieces(e, line_sep()) == seq![e]);
        assert(trim(e) =~= e);
        assert(record_of(e) is None);
        assert(seq![e].drop_last() =~= Seq::<Seq<char>>::empty());
        assert(join_lines(lines) == e);
        assert(seq![e].last() == e);
        assert(records_in(Seq::<Seq<char>>::empty()) == Seq::<RecordView>::empty());
        assert(records_in(seq![e]) == records_in(seq![e].drop_last()));
        assert(records_in(seq![e]) =~= Seq::<RecordView>::empty());
        assert(records_in(lines) =~= Seq::<RecordView>::empty());
    } else {
        lemma_pieces_join(lines);
    }
    lemma_records_in_count(lines);
}

} // verus!
