//! Layout of one row of the result list as a sequence of styled text
//! segments: the selection pointer, the multi-select marker, the git badge,
//! and then either a highlighted content line with its location, or a file
//! name with its (possibly shortened) directory.
use vstd::prelude::*;
use crate::text::{
    byte_len, byte_offset, is_char_boundary_of, char_index_at, bslice, byte_substring, chars_of,
    string_push, push_str, str_byte_len, chars_equal, is_boundary, string_of_range,
    lemma_byte_offset_mono, lemma_byte_offset_full, lemma_char_index_at, lemma_byte_offset_strict,
};
use crate::numfmt::{decimal, push_decimal};
use crate::width::{
    str_width, text_width, fit_len, chars_width, truncate_to_width, fit_prefix, leading_ws,
    strip_leading_whitespace,
};
use crate::picker::{MatchKind, UnifiedResult, ResultView, opt_str_view, opt_vec_view};
use crate::highlight::{
    find_match_indices, indices_to_ranges, ranges_of, int_ranges,
    spec_match_indices,
};
use crate::paths::{shorten_dir_path, spec_shorten_dir_path};

verus! {

broadcast use vstd::seq_lib::group_seq_properties;

/// Git status shown in the badge column.
#[derive(Clone, Copy, Debug, PartialEq, Eq, Structural)]
pub enum GitBadge {
    Modified,
    Added,
    Untracked,
    Deleted,
    Renamed,
    Ignored,
    Clean,
}

/// The role of a segment, which the renderer turns into colours.
#[derive(Clone, Copy, Debug, PartialEq, Eq, Structural)]
pub enum SegStyle {
    /// Plain row text.
    Base,
    /// The active selection pointer or multi-select marker.
    Emph,
    /// Matched text.
    Match,
    /// The git badge.
    Git(GitBadge),
    /// Dimmed text that keeps its colours on the selected row.
    Dim,
    /// Dimmed text that takes the selection background.
    DimSel,
    /// Bold dimmed text that takes the selection background.
    DimSelBold,
    /// A file icon.
    Icon,
    /// A bold file icon.
    IconBold,
    /// Bold plain text of a file header.
    HeaderBase,
    /// Bold matched text of a file header.
    HeaderMatch,
}

/// A piece of row text with its role.
pub struct Segment {
    pub text: String,
    pub style: SegStyle,
}

/// The mathematical content of a [`Segment`].
pub struct SegView {
    pub text: Seq<char>,
    pub style: SegStyle,
}

impl View for Segment {
    type V = SegView;

    open spec fn view(&self) -> SegView {
        SegView { text: self.text@, style: self.style }
    }
}

pub open spec fn sv(text: Seq<char>, style: SegStyle) -> SegView {
    SegView { text, style }
}

pub open spec fn segviews(s: Seq<Segment>) -> Seq<SegView> {
    s.map_values(|x: Segment| x@)
}

fn seg(text: String, style: SegStyle) -> (r: Segment)
    ensures
        r@ == sv(text@, style),
{
    Segment { text, style }
}

fn push_seg(v: &mut Vec<Segment>, text: String, style: SegStyle)
    ensures
        segviews(final(v)@) == segviews(old(v)@).push(sv(text@, style)),
{
    let ghost before = segviews(v@);
    let s = seg(text, style);
    v.push(s);
    proof {
        assert(segviews(v@) =~= before.push(sv(text@, style)));
    }
}

fn append_segs(v: &mut Vec<Segment>, mut w: Vec<Segment>)
    ensures
        segviews(final(v)@) == segviews(old(v)@) + segviews(w@),
{
    let ghost a = segviews(v@);
    let ghost b = segviews(w@);
    v.append(&mut w);
    proof {
        assert(segviews(v@) =~= a + b);
    }
}

// ── Git badge ────────────────────────────────────────────────────────

/// The badge letter and status for a git status name.
pub open spec fn spec_git_badge(status: Option<Seq<char>>) -> (char, GitBadge) {
    match status {
        Some(s) => if s == seq!['m', 'o', 'd', 'i', 'f', 'i', 'e', 'd'] {
            ('M', GitBadge::Modified)
        } else if s == seq!['s', 't', 'a', 'g', 'e', 'd', '_', 'n', 'e', 'w'] || s == seq![
            's',
            't',
            'a',
            'g',
            'e',
            'd',
            '_',
            'm',
            'o',
            'd',
            'i',
            'f',
            'i',
            'e',
            'd',
        ] {
            ('A', GitBadge::Added)
        } else if s == seq!['u', 'n', 't', 'r', 'a', 'c', 'k', 'e', 'd'] {
            ('?', GitBadge::Untracked)
        } else if s == seq!['d', 'e', 'l', 'e', 't', 'e', 'd'] {
            ('D', GitBadge::Deleted)
        } else if s == seq!['r', 'e', 'n', 'a', 'm', 'e', 'd'] {
            ('R', GitBadge::Renamed)
        } else if s == seq!['i', 'g', 'n', 'o', 'r', 'e', 'd'] {
            ('I', GitBadge::Ignored)
        } else {
            (' ', GitBadge::Clean)
        },
        None => (' ', GitBadge::Clean),
    }
}

/// The badge letter and status for a git status name.
pub fn git_badge(status: &Option<String>) -> (r: (char, GitBadge))
    ensures
        r == spec_git_badge(opt_str_view(*status)),
{
    match status {
        None => (' ', GitBadge::Clean),
        Some(s) => {
            let v = chars_of(s.as_str());
            let modified = vec!['m', 'o', 'd', 'i', 'f', 'i', 'e', 'd'];
            let staged_new = vec!['s', 't', 'a', 'g', 'e', 'd', '_', 'n', 'e', 'w'];
            let staged_modified = vec![
                's',
                't',
                'a',
                'g',
                'e',
                'd',
                '_',
                'm',
                'o',
                'd',
                'i',
                'f',
                'i',
                'e',
                'd',
            ];
            let untracked = vec!['u', 'n', 't', 'r', 'a', 'c', 'k', 'e', 'd'];
            let deleted = vec!['d', 'e', 'l', 'e', 't', 'e', 'd'];
            let renamed = vec!['r', 'e', 'n', 'a', 'm', 'e', 'd'];
            let ignored = vec!['i', 'g', 'n', 'o', 'r', 'e', 'd'];
            proof {
                assert(modified@ =~= seq!['m', 'o', 'd', 'i', 'f', 'i', 'e', 'd']);
                assert(staged_new@ =~= seq!['s', 't', 'a', 'g', 'e', 'd', '_', 'n', 'e', 'w']);
                assert(staged_modified@ =~= seq![
                    's',
                    't',
                    'a',
                    'g',
                    'e',
                    'd',
                    '_',
                    'm',
                    'o',
                    'd',
                    'i',
                    'f',
                    'i',
                    'e',
                    'd',
                ]);
                assert(untracked@ =~= seq!['u', 'n', 't', 'r', 'a', 'c', 'k', 'e', 'd']);
                assert(deleted@ =~= seq!['d', 'e', 'l', 'e', 't', 'e', 'd']);
                assert(renamed@ =~= seq!['r', 'e', 'n', 'a', 'm', 'e', 'd']);
                assert(ignored@ =~= seq!['i', 'g', 'n', 'o', 'r', 'e', 'd']);
            }
            if chars_equal(&v, &modified) {
                ('M', GitBadge::Modified)
            } else if chars_equal(&v, &staged_new) || chars_equal(&v, &staged_modified) {
                ('A', GitBadge::Added)
            } else if chars_equal(&v, &untracked) {
                ('?', GitBadge::Untracked)
            } else if chars_equal(&v, &deleted) {
                ('D', GitBadge::Deleted)
            } else if chars_equal(&v, &renamed) {
                ('R', GitBadge::Renamed)
            } else if chars_equal(&v, &ignored) {
                ('I', GitBadge::Ignored)
            } else {
                (' ', GitBadge::Clean)
            }
        },
    }
}

// ── Widths and padding ───────────────────────────────────────────────

/// Total display width of the segments.
pub open spec fn segs_width(s: Seq<SegView>) -> int
    decreases s.len(),
{
    if s.len() == 0 {
        0
    } else {
        segs_width(s.drop_last()) + str_width(s.last().text) as int
    }
}

proof fn lemma_segs_width_bound(s: Seq<SegView>)
    ensures
        0 <= segs_width(s) <= s.len() * (usize::MAX as int),
    decreases s.len(),
{
    if s.len() > 0 {
        lemma_segs_width_bound(s.drop_last());
    }
}

/// Total display width of the segments of `v`.
fn width_of(v: &Vec<Segment>) -> (w: u128)
    ensures
        w == segs_width(segviews(v@)),
{
    let ghost s = segviews(v@);
    let mut w: u128 = 0;
    let mut i: usize = 0;
    while i < v.len()
        invariant
            i <= v.len(),
            s == segviews(v@),
            w == segs_width(s.take(i as int)),
        decreases v.len() - i,
    {
        proof {
            assert(s.take(i + 1).drop_last() =~= s.take(i as int));
            assert(s.take(i + 1).last() == v@[i as int]@);
            lemma_segs_width_bound(s.take(i as int));
            lemma_width_room(i as int, w as int);
        }
        let x = text_width(v[i].text.as_str());
        w = w + x as u128;
        i = i + 1;
    }
    proof {
        assert(s.take(v@.len() as int) =~= s);
    }
    w
}

/// `n` spaces.
pub open spec fn spaces(n: int) -> Seq<char> {
    Seq::new(n as nat, |i: int| ' ')
}

/// A run of `n` base-styled spaces, or nothing for `n == 0`.
pub open spec fn pad_segs(n: int) -> Seq<SegView> {
    if n > 0 {
        seq![sv(spaces(n), SegStyle::Base)]
    } else {
        Seq::<SegView>::empty()
    }
}

fn push_pad(v: &mut Vec<Segment>, n: usize)
    ensures
        segviews(final(v)@) == segviews(old(v)@) + pad_segs(n as int),
{
    if n > 0 {
        let mut s = String::new();
        let mut i: usize = 0;
        while i < n
            invariant
                i <= n,
                s@ == spaces(i as int),
            decreases n - i,
        {
            string_push(&mut s, ' ');
            i = i + 1;
            assert(s@ =~= spaces(i as int));
        }
        push_seg(v, s, SegStyle::Base);
        proof {
            assert(segviews(v@) =~= segviews(old(v)@) + pad_segs(n as int));
        }
    } else {
        assert(segviews(v@) =~= segviews(old(v)@) + pad_segs(n as int));
    }
}

/// `a - b`, or 0 when `b > a`.
pub open spec fn sat(a: int, b: int) -> int {
    if a >= b {
        a - b
    } else {
        0
    }
}

// ── Highlighted content lines ───────────────────────────────────────

/// `a - b` on `u32`, or 0 when `b > a`.
pub open spec fn sub_u32(a: u32, b: u32) -> u32 {
    if a >= b {
        (a - b) as u32
    } else {
        0
    }
}

/// Match ranges moved left by `shift` bytes (the stripped indentation) and
/// clamped to a line of `len` bytes; ranges that end up empty at the start
/// or begin past the end are dropped.
pub open spec fn adjust_offsets(offs: Seq<(u32, u32)>, shift: u32, len: u32) -> Seq<(u32, u32)>
    decreases offs.len(),
{
    if offs.len() == 0 {
        offs
    } else {
        let r = adjust_offsets(offs.drop_last(), shift, len);
        let s = sub_u32(offs.last().0, shift);
        let e = sub_u32(offs.last().1, shift);
        if e > 0 && s < len {
            r.push((s, if e < len { e } else { len }))
        } else {
            r
        }
    }
}

fn exec_adjust(offs: &Vec<(u32, u32)>, shift: u32, len: u32) -> (r: Vec<(u32, u32)>)
    ensures
        r@ == adjust_offsets(offs@, shift, len),
{
    let mut r: Vec<(u32, u32)> = Vec::new();
    let mut i: usize = 0;
    while i < offs.len()
        invariant
            i <= offs.len(),
            r@ == adjust_offsets(offs@.take(i as int), shift, len),
        decreases offs.len() - i,
    {
        proof {
            assert(offs@.take(i + 1).drop_last() =~= offs@.take(i as int));
            assert(offs@.take(i + 1).last() == offs@[i as int]);
        }
        let (a, b) = offs[i];
        let s: u32 = if a >= shift {
            a - shift
        } else {
            0
        };
        let e: u32 = if b >= shift {
            b - shift
        } else {
            0
        };
        if e > 0 && s < len {
            r.push((
                s,
                if e < len {
                    e
                } else {
                    len
                },
            ));
        }
        i = i + 1;
    }
    proof {
        assert(offs@.take(offs@.len() as int) =~= offs@);
    }
    r
}

/// Every range is ordered and both ends fall on character boundaries of `t`.
pub open spec fn offsets_ok(t: Seq<char>, offs: Seq<(u32, u32)>) -> bool {
    forall|k: int|
        0 <= k < offs.len() ==> (#[trigger] offs[k]).0 <= offs[k].1 && is_char_boundary_of(
            t,
            offs[k].0 as int,
        ) && is_char_boundary_of(t, offs[k].1 as int)
}

/// Segments of line `t` split at the match ranges `offs`, and the end of
/// the last match taken.
pub open spec fn hl_state(t: Seq<char>, offs: Seq<(u32, u32)>) -> (Seq<SegView>, int)
    decreases offs.len(),
{
    if offs.len() == 0 {
        (Seq::<SegView>::empty(), 0)
    } else {
        let (segs, le) = hl_state(t, offs.drop_last());
        let len = byte_len(t) as int;
        let s = offs.last().0 as int;
        let e = offs.last().1 as int;
        let segs1 = if s > le && s <= len {
            segs.push(sv(bslice(t, le, s), SegStyle::Base))
        } else {
            segs
        };
        if e <= len {
            (segs1.push(sv(bslice(t, s, e), SegStyle::Match)), e)
        } else {
            (segs1, le)
        }
    }
}

/// Line `t` as plain and matched segments.
pub open spec fn hl_spans(t: Seq<char>, offs: Seq<(u32, u32)>) -> Seq<SegView> {
    let (segs, le) = hl_state(t, offs);
    let len = byte_len(t) as int;
    if le < len {
        segs.push(sv(bslice(t, le, len), SegStyle::Base))
    } else {
        segs
    }
}

proof fn lemma_boundary_bounds(t: Seq<char>, b: int)
    requires
        is_char_boundary_of(t, b),
    ensures
        0 <= b <= byte_len(t),
{
    let k = char_index_at(t, b);
    lemma_byte_offset_mono(t, k, t.len() as int);
    lemma_byte_offset_full(t);
}

fn highlight_spans(v: &Vec<char>, offs: &Vec<(u32, u32)>) -> (r: Vec<Segment>)
    requires
        offsets_ok(v@, offs@),
    ensures
        segviews(r@) == hl_spans(v@, offs@),
{
    let len = str_len_of(v);
    let mut r: Vec<Segment> = Vec::new();
    let mut last_end: usize = 0;
    let mut i: usize = 0;
    proof {
        assert(segviews(r@) =~= Seq::<SegView>::empty());
        lemma_char_index_at(v@, 0);
        assert(v@.take(0) =~= Seq::<char>::empty());
    }
    while i < offs.len()
        invariant
            i <= offs.len(),
            len == byte_len(v@),
            offsets_ok(v@, offs@),
            (segviews(r@), last_end as int) == hl_state(v@, offs@.take(i as int)),
            is_char_boundary_of(v@, last_end as int),
        decreases offs.len() - i,
    {
        proof {
            assert(offs@.take(i + 1).drop_last() =~= offs@.take(i as int));
            assert(offs@.take(i + 1).last() == offs@[i as int]);
            assert(offsets_ok(v@, offs@) ==> offs@[i as int].0 <= offs@[i as int].1);
            lemma_boundary_bounds(v@, offs@[i as int].0 as int);
            lemma_boundary_bounds(v@, offs@[i as int].1 as int);
            lemma_boundary_bounds(v@, last_end as int);
        }
        let start = offs[i].0 as usize;
        let end = offs[i].1 as usize;
        if start > last_end && start <= len {
            let t = byte_substring(v, last_end, start);
            push_seg(&mut r, t, SegStyle::Base);
        }
        if end <= len {
            let t = byte_substring(v, start, end);
            push_seg(&mut r, t, SegStyle::Match);
            last_end = end;
        }
        i = i + 1;
    }
    proof {
        assert(offs@.take(offs@.len() as int) =~= offs@);
        lemma_boundary_bounds(v@, last_end as int);
        lemma_char_index_at(v@, v@.len() as int);
        lemma_byte_offset_full(v@);
    }
    if last_end < len {
        let t = byte_substring(v, last_end, len);
        push_seg(&mut r, t, SegStyle::Base);
    }
    r
}

/// Byte length of the characters of `v`.
fn str_len_of(v: &Vec<char>) -> (n: usize)
    ensures
        n == byte_len(v@),
{
    let s = crate::text::string_of_chars(v);
    str_byte_len(s.as_str())
}

/// Segments of the truncated line `t` split at the match ranges `offs`
/// (stopping at the first range that starts past the end), the end of the
/// last match taken, and whether the scan stopped.
pub open spec fn tr_state(t: Seq<char>, offs: Seq<(u32, u32)>) -> (Seq<SegView>, int, bool)
    decreases offs.len(),
{
    if offs.len() == 0 {
        (Seq::<SegView>::empty(), 0, false)
    } else {
        let (segs, le, stop) = tr_state(t, offs.drop_last());
        let tl = byte_len(t) as int;
        let s = offs.last().0 as int;
        let e = offs.last().1 as int;
        if stop || s >= tl {
            (segs, le, true)
        } else {
            let segs1 = if s > le {
                segs.push(sv(bslice(t, le, s), SegStyle::Base))
            } else {
                segs
            };
            let ae = if e < tl {
                e
            } else {
                tl
            };
            (segs1.push(sv(bslice(t, s, ae), SegStyle::Match)), ae, false)
        }
    }
}

/// The truncated line `t` as plain and matched segments.
pub open spec fn tr_spans(t: Seq<char>, offs: Seq<(u32, u32)>) -> Seq<SegView> {
    let (segs, le, _stop) = tr_state(t, offs);
    let tl = byte_len(t) as int;
    if le < tl {
        segs.push(sv(bslice(t, le, tl), SegStyle::Base))
    } else {
        segs
    }
}

/// A plain ellipsis.
pub open spec fn ellipsis_seg() -> SegView {
    sv(seq!['\u{2026}'], SegStyle::Base)
}

/// Line `content` cut to `max` columns, highlighted when there are match
/// ranges, and followed by an ellipsis.
pub open spec fn truncated_segs(content: Seq<char>, offs: Option<Seq<(u32, u32)>>, max: int) -> Seq<SegView> {
    let tr = content.take(fit_len(content, max) as int);
    if tr.len() > 0 {
        (match offs {
            Some(o) => tr_spans(tr, o),
            None => seq![sv(tr, SegStyle::Base)],
        }).push(ellipsis_seg())
    } else {
        seq![ellipsis_seg()]
    }
}

/// A boundary of `v` within its first `k` characters is a boundary of that
/// prefix, at the same character index.
proof fn lemma_prefix_boundary(v: Seq<char>, k: int, b: int)
    requires
        0 <= k <= v.len(),
        is_char_boundary_of(v, b),
        b <= byte_offset(v, k),
    ensures
        is_char_boundary_of(v.take(k), b),
        char_index_at(v.take(k), b) == char_index_at(v, b),
{
    let j = char_index_at(v, b);
    if j > k {
        lemma_byte_offset_strict(v, k, j);
    }
    let t = v.take(k);
    assert(t.take(j) =~= v.take(j));
    assert(byte_offset(t, j) == b);
    lemma_char_index_at(t, j);
}

fn ellipsis_text() -> (s: String)
    ensures
        s@ == seq!['\u{2026}'],
{
    let mut s = String::new();
    string_push(&mut s, '\u{2026}');
    assert(s@ =~= seq!['\u{2026}']);
    s
}

fn truncated_spans(t: &Vec<char>, offs: &Vec<(u32, u32)>) -> (r: Vec<Segment>)
    requires
        forall|k: int|
            0 <= k < offs@.len() ==> (#[trigger] offs@[k]).0 <= offs@[k].1 && (
            offs@[k].0 < byte_len(t@) ==> is_char_boundary_of(t@, offs@[k].0 as int)) && (
            offs@[k].1 < byte_len(t@) ==> is_char_boundary_of(t@, offs@[k].1 as int)),
    ensures
        segviews(r@) == tr_spans(t@, offs@),
{
    let tl = str_len_of(t);
    let mut r: Vec<Segment> = Vec::new();
    let mut last_end: usize = 0;
    let mut stop = false;
    let mut i: usize = 0;
    proof {
        assert(segviews(r@) =~= Seq::<SegView>::empty());
        lemma_char_index_at(t@, 0);
        assert(t@.take(0) =~= Seq::<char>::empty());
        lemma_char_index_at(t@, t@.len() as int);
        lemma_byte_offset_full(t@);
    }
    while i < offs.len()
        invariant
            i <= offs.len(),
            tl == byte_len(t@),
            forall|k: int|
                0 <= k < offs@.len() ==> (#[trigger] offs@[k]).0 <= offs@[k].1 && (
                offs@[k].0 < byte_len(t@) ==> is_char_boundary_of(t@, offs@[k].0 as int)) && (
                offs@[k].1 < byte_len(t@) ==> is_char_boundary_of(t@, offs@[k].1 as int)),
            is_char_boundary_of(t@, tl as int),
            (segviews(r@), last_end as int, stop) == tr_state(t@, offs@.take(i as int)),
            is_char_boundary_of(t@, last_end as int),
            last_end <= tl,
        decreases offs.len() - i,
    {
        proof {
            assert(offs@.take(i + 1).drop_last() =~= offs@.take(i as int));
            assert(offs@.take(i + 1).last() == offs@[i as int]);
        }
        if !stop {
            let start = offs[i].0 as usize;
            let end = offs[i].1 as usize;
            if start >= tl {
                stop = true;
            } else {
                if start > last_end {
                    let x = byte_substring(t, last_end, start);
                    push_seg(&mut r, x, SegStyle::Base);
                }
                let actual_end = if end < tl {
                    end
                } else {
                    tl
                };
                let x = byte_substring(t, start, actual_end);
                push_seg(&mut r, x, SegStyle::Match);
                last_end = actual_end;
            }
        }
        i = i + 1;
    }
    proof {
        assert(offs@.take(offs@.len() as int) =~= offs@);
    }
    if last_end < tl {
        let x = byte_substring(t, last_end, tl);
        push_seg(&mut r, x, SegStyle::Base);
    }
    r
}

fn copy_prefix(v: &Vec<char>, k: usize) -> (r: Vec<char>)
    requires
        k <= v.len(),
    ensures
        r@ == v@.take(k as int),
{
    let mut r: Vec<char> = Vec::new();
    let mut i: usize = 0;
    while i < k
        invariant
            i <= k <= v.len(),
            r@ == v@.take(i as int),
        decreases k - i,
    {
        r.push(v[i]);
        i = i + 1;
        assert(r@ =~= v@.take(i as int));
    }
    r
}

/// Line `v` cut to `max` columns, highlighted, with an ellipsis.
fn truncated_segments(v: &Vec<char>, offs: &Option<Vec<(u32, u32)>>, max: usize) -> (r: Vec<Segment>)
    requires
        offs matches Some(o) ==> offsets_ok(v@, o@),
    ensures
        segviews(r@) == truncated_segs(
            v@,
            match offs {
                Some(o) => Some(o@),
                None => None,
            },
            max as int,
        ),
{
    let (k, _w) = fit_prefix(v, max);
    let t = copy_prefix(v, k);
    let mut r: Vec<Segment> = Vec::new();
    proof {
        assert(segviews(r@) =~= Seq::<SegView>::empty());
    }
    if t.len() > 0 {
        match offs {
            Some(o) => {
                proof {
                    assert forall|j: int| 0 <= j < o@.len() implies (#[trigger] o@[j]).0 <= o@[j].1 && (
                    o@[j].0 < byte_len(t@) ==> is_char_boundary_of(t@, o@[j].0 as int)) && (
                    o@[j].1 < byte_len(t@) ==> is_char_boundary_of(t@, o@[j].1 as int)) by {
                        lemma_byte_offset_full(t@);
                        assert(t@.take(t@.len() as int) =~= v@.take(k as int));
                        assert(v@.take(k as int).take(k as int) =~= v@.take(k as int));
                        if o@[j].0 < byte_len(t@) {
                            lemma_prefix_boundary(v@, k as int, o@[j].0 as int);
                        }
                        if o@[j].1 < byte_len(t@) {
                            lemma_prefix_boundary(v@, k as int, o@[j].1 as int);
                        }
                    }
                }
                let spans = truncated_spans(&t, o);
                append_segs(&mut r, spans);
            },
            None => {
                let x = string_of_range(&t, 0, t.len());
                proof {
                    assert(t@.subrange(0, t@.len() as int) =~= t@);
                }
                push_seg(&mut r, x, SegStyle::Base);
            },
        }
        let e = ellipsis_text();
        push_seg(&mut r, e, SegStyle::Base);
    } else {
        let e = ellipsis_text();
        push_seg(&mut r, e, SegStyle::Base);
    }
    r
}

// ── File names and directories ──────────────────────────────────────

/// What `Path::file_name` gives for the path `p` (as text).
pub uninterp spec fn path_file_name(p: Seq<char>) -> Option<Seq<char>>;

/// What `Path::parent` gives for the path `p` (as text).
pub uninterp spec fn path_parent(p: Seq<char>) -> Option<Seq<char>>;

/// `std::path::Path::file_name`: the final component of `p`, if any. Which
/// component that is (how `.`, `..` and trailing separators count) is not
/// stated.
#[verifier::external_body]
fn file_name_of(p: &str) -> (r: Option<String>)
    ensures
        opt_str_view(r) == path_file_name(p@),
{
    std::path::Path::new(p).file_name().and_then(|n| n.to_str()).map(|n| n.to_string())
}

/// `std::path::Path::parent`: `p` without its final component, if it has
/// one. Which part that is is not stated.
#[verifier::external_body]
fn parent_of(p: &str) -> (r: Option<String>)
    ensures
        opt_str_view(r) == path_parent(p@),
{
    std::path::Path::new(p).parent().and_then(|d| d.to_str()).map(|d| d.to_string())
}

/// The file name shown for `path`: its final component, or all of it.
pub open spec fn shown_name(path: Seq<char>) -> Seq<char> {
    match path_file_name(path) {
        Some(n) => n,
        None => path,
    }
}

/// The directory shown for `path`: its parent, unless that is empty or `.`.
pub open spec fn shown_dir(path: Seq<char>) -> Seq<char> {
    match path_parent(path) {
        Some(d) => if d.len() > 0 && d != seq!['.'] {
            d
        } else {
            Seq::<char>::empty()
        },
        None => Seq::<char>::empty(),
    }
}

fn exec_shown_name(path: &String) -> (r: String)
    ensures
        r@ == shown_name(path@),
{
    match file_name_of(path.as_str()) {
        Some(n) => n,
        None => path.clone(),
    }
}

fn exec_shown_dir(path: &String) -> (r: String)
    ensures
        r@ == shown_dir(path@),
{
    match parent_of(path.as_str()) {
        Some(d) => {
            let v = chars_of(d.as_str());
            let dot = vec!['.'];
            proof {
                assert(dot@ =~= seq!['.']);
            }
            if v.len() > 0 && !chars_equal(&v, &dot) {
                d
            } else {
                String::new()
            }
        },
        None => String::new(),
    }
}

/// Every range is ordered and both ends fall on character boundaries of `t`.
pub open spec fn ranges_ok(t: Seq<char>, rs: Seq<(int, int)>) -> bool {
    forall|k: int|
        0 <= k < rs.len() ==> (#[trigger] rs[k]).0 <= rs[k].1 && is_char_boundary_of(t, rs[k].0)
            && is_char_boundary_of(t, rs[k].1)
}

/// The highlight positions of `query` in `name` can be turned into ranges
/// and sliced out of `name`.
pub open spec fn name_highlight_ok(name: Seq<char>, query: Seq<char>) -> bool {
    let idx = spec_match_indices(query, name);
    &&& forall|i: int| 0 <= i < idx.len() ==> is_char_boundary_of(name, #[trigger] idx[i])
    &&& byte_len(name) + 4 <= usize::MAX
    &&& ranges_ok(name, ranges_of(idx, name))
}

/// Segments of file name `t` split at the highlight ranges `rs`, and the
/// end of the last range.
pub open spec fn name_state(t: Seq<char>, rs: Seq<(int, int)>, b: SegStyle, m: SegStyle) -> (Seq<SegView>, int)
    decreases rs.len(),
{
    if rs.len() == 0 {
        (Seq::<SegView>::empty(), 0)
    } else {
        let (segs, le) = name_state(t, rs.drop_last(), b, m);
        let s = rs.last().0;
        let e = rs.last().1;
        let segs1 = if s > le {
            segs.push(sv(bslice(t, le, s), b))
        } else {
            segs
        };
        (segs1.push(sv(bslice(t, s, e), m)), e)
    }
}

/// File name `t` as plain and highlighted segments (one plain segment when
/// nothing is highlighted).
pub open spec fn name_spans(t: Seq<char>, rs: Seq<(int, int)>, b: SegStyle, m: SegStyle) -> Seq<SegView> {
    let (segs, le) = name_state(t, rs, b, m);
    let len = byte_len(t) as int;
    let segs2 = if le < len {
        segs.push(sv(bslice(t, le, len), b))
    } else {
        segs
    };
    if segs2.len() == 0 && t.len() > 0 {
        seq![sv(t, b)]
    } else {
        segs2
    }
}

fn name_segments(v: &Vec<char>, rs: &Vec<(usize, usize)>, b: SegStyle, m: SegStyle) -> (r: Vec<Segment>)
    requires
        ranges_ok(v@, int_ranges(rs@)),
    ensures
        segviews(r@) == name_spans(v@, int_ranges(rs@), b, m),
{
    let ghost irs = int_ranges(rs@);
    let len = str_len_of(v);
    let mut r: Vec<Segment> = Vec::new();
    let mut last_end: usize = 0;
    let mut i: usize = 0;
    proof {
        assert(segviews(r@) =~= Seq::<SegView>::empty());
        lemma_char_index_at(v@, 0);
        assert(v@.take(0) =~= Seq::<char>::empty());
    }
    while i < rs.len()
        invariant
            i <= rs.len(),
            len == byte_len(v@),
            irs == int_ranges(rs@),
            ranges_ok(v@, irs),
            (segviews(r@), last_end as int) == name_state(v@, irs.take(i as int), b, m),
            is_char_boundary_of(v@, last_end as int),
        decreases rs.len() - i,
    {
        proof {
            assert(irs.take(i + 1).drop_last() =~= irs.take(i as int));
            assert(irs.take(i + 1).last() == irs[i as int]);
            assert(irs[i as int] == (rs@[i as int].0 as int, rs@[i as int].1 as int));
        }
        let (start, end) = rs[i];
        if start > last_end {
            let x = byte_substring(v, last_end, start);
            push_seg(&mut r, x, b);
        }
        let x = byte_substring(v, start, end);
        push_seg(&mut r, x, m);
        last_end = end;
        i = i + 1;
    }
    proof {
        assert(irs.take(rs@.len() as int) =~= irs);
        lemma_boundary_bounds(v@, last_end as int);
        lemma_char_index_at(v@, v@.len() as int);
        lemma_byte_offset_full(v@);
    }
    if last_end < len {
        let x = byte_substring(v, last_end, len);
        push_seg(&mut r, x, b);
    }
    if r.len() == 0 && v.len() > 0 {
        let mut only: Vec<Segment> = Vec::new();
        let x = string_of_range(v, 0, v.len());
        proof {
            assert(v@.subrange(0, v@.len() as int) =~= v@);
            assert(segviews(only@) =~= Seq::<SegView>::empty());
        }
        push_seg(&mut only, x, b);
        proof {
            assert(segviews(only@) =~= seq![sv(v@, b)]);
        }
        return only;
    }
    r
}

/// The directory after a file name `fw` columns wide, in a field of `cwid`
/// columns: whole when it fits, else shortened when there is room.
pub open spec fn dir_segs(dir: Seq<char>, fw: int, cwid: int, strategy: Seq<char>, st: SegStyle) -> Seq<SegView> {
    if dir.len() == 0 {
        Seq::<SegView>::empty()
    } else {
        let dt = seq![' '] + dir;
        let dw = str_width(dt) as int;
        if fw + dw <= cwid {
            seq![sv(dt, st)]
        } else if cwid > fw + 4 {
            let md = sat(cwid, fw + 2);
            let sh = spec_shorten_dir_path(dir, md, strategy);
            if sh.len() > 0 {
                seq![sv(seq![' '] + sh, st)]
            } else {
                Seq::<SegView>::empty()
            }
        } else {
            Seq::<SegView>::empty()
        }
    }
}

fn dir_segments(dir: &String, fw: u128, cwid: u128, strategy: &str, st: SegStyle) -> (r: Vec<Segment>)
    requires
        cwid <= usize::MAX,
        fw <= u128::MAX - 8,
    ensures
        segviews(r@) == dir_segs(dir@, fw as int, cwid as int, strategy@, st),
{
    let mut r: Vec<Segment> = Vec::new();
    proof {
        assert(segviews(r@) =~= Seq::<SegView>::empty());
    }
    if dir.as_str().is_empty() {
        return r;
    }
    let mut dt = String::new();
    string_push(&mut dt, ' ');
    push_str(&mut dt, dir.as_str());
    proof {
        assert(dt@ =~= seq![' '] + dir@);
    }
    let dw = text_width(dt.as_str()) as u128;
    let fits = match fw.checked_add(dw) {
        Some(t) => t <= cwid,
        None => false,
    };
    if fits {
        push_seg(&mut r, dt, st);
    } else if cwid > fw + 4 {
        let md: usize = if cwid >= fw + 2 {
            (cwid - (fw + 2)) as usize
        } else {
            0
        };
        let sh = shorten_dir_path(dir.as_str(), md, strategy);
        if !sh.as_str().is_empty() {
            let mut t = String::new();
            string_push(&mut t, ' ');
            push_str(&mut t, sh.as_str());
            proof {
                assert(t@ =~= seq![' '] + sh@);
            }
            push_seg(&mut r, t, st);
        }
    }
    r
}

/// Whether the file-name highlight of `name` for `query` is sliceable, and
/// its ranges.
fn name_ranges(name: &Vec<char>, name_str: &String, query: &str) -> (r: Option<Vec<(usize, usize)>>)
    requires
        name@ == name_str@,
    ensures
        match r {
            Some(rs) => name_highlight_ok(name@, query@) && int_ranges(rs@) == ranges_of(
                spec_match_indices(query@, name@),
                name@,
            ),
            None => !name_highlight_ok(name@, query@),
        },
{
    let idx = find_match_indices(query, name_str.as_str());
    let ghost ix = idx@.map_values(|x: usize| x as int);
    proof {
        assert(ix == spec_match_indices(query@, name@));
    }
    let mut i: usize = 0;
    while i < idx.len()
        invariant
            i <= idx.len(),
            ix == idx@.map_values(|x: usize| x as int),
            ix == spec_match_indices(query@, name@),
            forall|j: int| 0 <= j < i ==> is_char_boundary_of(name@, #[trigger] ix[j]),
        decreases idx.len() - i,
    {
        if !is_boundary(name, idx[i]) {
            proof {
                assert(ix[i as int] == idx@[i as int] as int);
                assert(ix == spec_match_indices(query@, name@));
            }
            return None;
        }
        i = i + 1;
    }
    let n = str_len_of(name);
    if n > usize::MAX - 4 {
        return None;
    }
    proof {
        assert forall|j: int| 0 <= j < idx@.len() implies is_char_boundary_of(
            name_str@,
            #[trigger] idx@[j] as int,
        ) by {
            assert(ix[j] == idx@[j] as int);
        }
    }
    let sl = idx.as_slice();
    let rs = indices_to_ranges(sl, name_str.as_str());
    proof {
        assert(sl@ == idx@);
        assert(int_ranges(rs@) == ranges_of(ix, name@));
        assert(ix == spec_match_indices(query@, name@));
    }
    let mut k: usize = 0;
    while k < rs.len()
        invariant
            k <= rs.len(),
            int_ranges(rs@) == ranges_of(spec_match_indices(query@, name@), name@),
            forall|j: int|
                0 <= j < k ==> (#[trigger] int_ranges(rs@)[j]).0 <= int_ranges(rs@)[j].1
                    && is_char_boundary_of(name@, int_ranges(rs@)[j].0)
                    && is_char_boundary_of(name@, int_ranges(rs@)[j].1),
        decreases rs.len() - k,
    {
        let (a, b) = rs[k];
        if a > b || !is_boundary(name, a) || !is_boundary(name, b) {
            proof {
                assert(int_ranges(rs@)[k as int] == (a as int, b as int));
                let rr = ranges_of(spec_match_indices(query@, name@), name@);
                assert(rr[k as int] == (a as int, b as int));
                assert(!ranges_ok(name@, rr));
            }
            return None;
        }
        proof {
            assert(int_ranges(rs@)[k as int] == (a as int, b as int));
        }
        k = k + 1;
    }
    Some(rs)
}

/// Row body for a file match (`header == false`) or a grouped-grep file
/// header (`header == true`): icon, highlighted file name, directory,
/// padding to the row width, and a star on exact file matches.
pub open spec fn file_body(
    r: ResultView,
    query: Seq<char>,
    available: int,
    strategy: Seq<char>,
    icon: Seq<char>,
    header: bool,
) -> Seq<SegView> {
    let name = shown_name(r.relative_path);
    let pw = 4 + str_width(icon) as int + 1;
    let cwid = sat(available, pw);
    let rs = ranges_of(spec_match_indices(query, name), name);
    let b = if header {
        SegStyle::HeaderBase
    } else {
        SegStyle::Base
    };
    let m = if header {
        SegStyle::HeaderMatch
    } else {
        SegStyle::Match
    };
    let fsp = name_spans(name, rs, b, m);
    let fw = segs_width(fsp);
    let dsp = dir_segs(
        shown_dir(r.relative_path),
        fw,
        cwid,
        strategy,
        if header {
            SegStyle::DimSelBold
        } else {
            SegStyle::DimSel
        },
    );
    let pad = sat(available, pw + fw + segs_width(dsp));
    seq![
        sv(
            icon + seq![' '],
            if header {
                SegStyle::IconBold
            } else {
                SegStyle::Icon
            },
        ),
    ] + fsp + dsp + pad_segs(pad) + if !header && r.exact_match {
        seq![sv(seq!['\u{2726}'], SegStyle::Match)]
    } else {
        Seq::<SegView>::empty()
    }
}

fn file_row_body(r: &UnifiedResult, query: &str, available: usize, strategy: &str, icon: &str, header: bool) -> (out: Option<Vec<Segment>>)
    ensures
        match out {
            Some(v) => name_highlight_ok(shown_name(r@.relative_path), query@) && segviews(v@)
                == file_body(r@, query@, available as int, strategy@, icon@, header),
            None => !name_highlight_ok(shown_name(r@.relative_path), query@),
        },
{
    let name = exec_shown_name(&r.relative_path);
    let dir = exec_shown_dir(&r.relative_path);
    let nv = chars_of(name.as_str());
    let rs = match name_ranges(&nv, &name, query) {
        Some(rs) => rs,
        None => return None,
    };
    let iw = text_width(icon) as u128;
    let pw: u128 = 4 + iw + 1;
    let cwid: u128 = if (available as u128) >= pw {
        available as u128 - pw
    } else {
        0
    };
    let b = if header {
        SegStyle::HeaderBase
    } else {
        SegStyle::Base
    };
    let m = if header {
        SegStyle::HeaderMatch
    } else {
        SegStyle::Match
    };
    let fsp = name_segments(&nv, &rs, b, m);
    let fw = width_of(&fsp);
    let nseg = fsp.len();
    proof {
        lemma_segs_width_bound(segviews(fsp@));
        lemma_width_room(nseg as int, fw as int);
    }
    let dsp = dir_segments(
        &dir,
        fw,
        cwid,
        strategy,
        if header {
            SegStyle::DimSelBold
        } else {
            SegStyle::DimSel
        },
    );
    let dw = width_of(&dsp);
    proof {
        lemma_segs_width_bound(segviews(dsp@));
        assert(segviews(dsp@).len() <= 1);
    }
    let pad: usize = match pw.checked_add(fw) {
        Some(x) => match x.checked_add(dw) {
            Some(used) => if (available as u128) >= used {
                (available as u128 - used) as usize
            } else {
                0
            },
            None => 0,
        },
        None => 0,
    };
    let mut out: Vec<Segment> = Vec::new();
    proof {
        assert(segviews(out@) =~= Seq::<SegView>::empty());
    }
    let mut it = String::from_str(icon);
    string_push(&mut it, ' ');
    assert(it@ =~= icon@ + seq![' ']);
    push_seg(
        &mut out,
        it,
        if header {
            SegStyle::IconBold
        } else {
            SegStyle::Icon
        },
    );
    let ghost gf = segviews(fsp@);
    let ghost gd = segviews(dsp@);
    let ghost g0 = segviews(out@);
    append_segs(&mut out, fsp);
    append_segs(&mut out, dsp);
    push_pad(&mut out, pad);
    let ghost before = segviews(out@);
    proof {
        assert(before =~= g0 + gf + gd + pad_segs(pad as int));
    }
    if !header && r.exact_match {
        let mut star = String::new();
        string_push(&mut star, '\u{2726}');
        push_seg(&mut out, star, SegStyle::Match);
        proof {
            assert(star@ =~= seq!['\u{2726}']);
        }
    }
    proof {
        let icon_seg = sv(
            icon@ + seq![' '],
            if header {
                SegStyle::IconBold
            } else {
                SegStyle::Icon
            },
        );
        let tail = if !header && r@.exact_match {
            seq![sv(seq!['\u{2726}'], SegStyle::Match)]
        } else {
            Seq::<SegView>::empty()
        };
        assert(segviews(out@) =~= before + tail);
        assert(g0 =~= seq![icon_seg]);
        assert(segviews(out@) =~= file_body(r@, query@, available as int, strategy@, icon@, header));
    }
    Some(out)
}

// ── Content lines ───────────────────────────────────────────────────

/// The line text of a result (empty when it has none).
pub open spec fn line_text(r: ResultView) -> Seq<char> {
    match r.line_content {
        Some(c) => c,
        None => Seq::<char>::empty(),
    }
}

/// The line text without its indentation.
pub open spec fn shown_content(r: ResultView) -> Seq<char> {
    line_text(r).skip(leading_ws(line_text(r)) as int)
}

/// Bytes of indentation removed from the line text.
pub open spec fn content_shift(r: ResultView) -> int {
    byte_offset(line_text(r), leading_ws(line_text(r)) as int) as int
}

/// The match ranges of a line result, moved onto the shown content.
pub open spec fn shown_offsets(r: ResultView) -> Option<Seq<(u32, u32)>> {
    match r.match_byte_offsets {
        Some(o) => Some(
            adjust_offsets(
                o,
                content_shift(r) as u32,
                byte_len(shown_content(r)) as u32,
            ),
        ),
        None => None,
    }
}

/// The match ranges of a line result can be sliced out of its content.
pub open spec fn line_highlight_ok(r: ResultView) -> bool {
    match shown_offsets(r) {
        Some(a) => offsets_ok(shown_content(r), a),
        None => true,
    }
}

/// Content segments of a line result: highlighted when it has match
/// ranges, and followed by a section mark on a definition.
pub open spec fn content_segs(r: ResultView) -> Seq<SegView> {
    let c = shown_content(r);
    let base = match shown_offsets(r) {
        Some(a) => hl_spans(c, a),
        None => seq![sv(c, SegStyle::Base)],
    };
    if r.is_definition == Some(true) {
        base.push(sv(seq![' ', ' ', '\u{a7}'], SegStyle::Match))
    } else {
        base
    }
}

/// Row body for a line match in a field of `content_width` columns of a
/// row `available` columns wide. Grouped: a `:line:col` gutter, then the
/// content, cut with an ellipsis when it does not fit. Otherwise: the
/// content, padding, and `file:line` on the right; the content is cut when
/// all three do not fit and there is room for the location.
pub open spec fn line_body(r: ResultView, content_width: int, available: int, group_grep: bool) -> Seq<SegView> {
    let c = shown_content(r);
    let adj = shown_offsets(r);
    let cs = content_segs(r);
    let cdw = segs_width(cs);
    let ln = match r.line_number {
        Some(n) => n as nat,
        None => 0nat,
    };
    if group_grep {
        let col = match r.column {
            Some(k) => k as nat,
            None => 1nat,
        };
        let gutter = seq![' ', ' ', ':'] + decimal(ln) + seq![':'] + decimal(col) + seq![' '];
        let remaining = sat(content_width, str_width(gutter) as int);
        seq![sv(gutter, SegStyle::Dim)] + if cdw > remaining && remaining > 3 {
            truncated_segs(c, adj, remaining - 1)
        } else {
            cs
        }
    } else {
        let meta = shown_name(r.relative_path) + seq![':'] + decimal(ln);
        let mw = str_width(meta) as int;
        let total = cdw + 2 + mw;
        if total > content_width && content_width > mw + 3 {
            let maxc = content_width - (mw + 3);
            let tw = chars_width(c.take(fit_len(c, maxc) as int));
            truncated_segs(c, adj, maxc) + pad_segs(sat(available, 4 + tw + 1 + mw)) + seq![
                sv(meta, SegStyle::DimSel),
            ]
        } else {
            cs + pad_segs(
                if total <= content_width {
                    content_width - total
                } else {
                    0
                },
            ) + seq![sv(meta, SegStyle::DimSel)]
        }
    }
}

fn check_offsets(v: &Vec<char>, a: &Vec<(u32, u32)>) -> (ok: bool)
    ensures
        ok == offsets_ok(v@, a@),
{
    let mut i: usize = 0;
    while i < a.len()
        invariant
            i <= a.len(),
            forall|k: int|
                0 <= k < i ==> (#[trigger] a@[k]).0 <= a@[k].1 && is_char_boundary_of(
                    v@,
                    a@[k].0 as int,
                ) && is_char_boundary_of(v@, a@[k].1 as int),
        decreases a.len() - i,
    {
        let (s, e) = a[i];
        if s > e || !is_boundary(v, s as usize) || !is_boundary(v, e as usize) {
            return false;
        }
        i = i + 1;
    }
    true
}

/// The shown content of a line result, its moved match ranges and its
/// content segments; `None` when the ranges cannot be sliced out.
fn line_content_parts(r: &UnifiedResult) -> (out: Option<(Vec<char>, Option<Vec<(u32, u32)>>, Vec<Segment>)>)
    ensures
        match out {
            Some(t) => line_highlight_ok(r@) && t.0@ == shown_content(r@) && opt_vec_view(t.1)
                == shown_offsets(r@) && segviews(t.2@) == content_segs(r@),
            None => !line_highlight_ok(r@),
        },
{
    let raw: String = match &r.line_content {
        Some(c) => c.clone(),
        None => String::new(),
    };
    proof {
        assert(raw@ == line_text(r@));
    }
    let (content, shift) = strip_leading_whitespace(raw.as_str());
    let cv = chars_of(content);
    let clen = str_len_of(&cv);
    let adjusted: Option<Vec<(u32, u32)>> = match &r.match_byte_offsets {
        Some(o) => Some(exec_adjust(o, shift as u32, clen as u32)),
        None => None,
    };
    proof {
        assert(cv@ == shown_content(r@));
        assert(opt_vec_view(adjusted) == shown_offsets(r@));
    }
    let mut cs: Vec<Segment> = match &adjusted {
        Some(a) => {
            if !check_offsets(&cv, a) {
                return None;
            }
            highlight_spans(&cv, a)
        },
        None => {
            let mut v: Vec<Segment> = Vec::new();
            let t = string_of_range(&cv, 0, cv.len());
            proof {
                assert(cv@.subrange(0, cv@.len() as int) =~= cv@);
            }
            push_seg(&mut v, t, SegStyle::Base);
            proof {
                assert(segviews(v@) =~= seq![sv(cv@, SegStyle::Base)]);
            }
            v
        },
    };
    if r.is_definition == Some(true) {
        let mut d = String::new();
        string_push(&mut d, ' ');
        string_push(&mut d, ' ');
        string_push(&mut d, '\u{a7}');
        proof {
            assert(d@ =~= seq![' ', ' ', '\u{a7}']);
        }
        push_seg(&mut cs, d, SegStyle::Match);
    }
    Some((cv, adjusted, cs))
}

/// The bound on the width of a row's content that keeps its sums in `u128`.
proof fn lemma_width_room(n: int, w: int)
    requires
        0 <= n <= usize::MAX,
        0 <= w <= n * (usize::MAX as int),
    ensures
        w + 8 + (usize::MAX as int) <= u128::MAX,
{
    assert(n * (usize::MAX as int) <= (usize::MAX as int) * (usize::MAX as int)) by (nonlinear_arith)
        requires
            0 <= n <= usize::MAX,
    ;
    assert((usize::MAX as int) * (usize::MAX as int) + (usize::MAX as int) + 8 <= u128::MAX)
        by (nonlinear_arith);
}

/// Grouped line body: gutter, then the content cut to the room left.
fn grouped_line_body(
    r: &UnifiedResult,
    cv: &Vec<char>,
    adjusted: &Option<Vec<(u32, u32)>>,
    cs: Vec<Segment>,
    cdw: u128,
    content_width: usize,
    available: usize,
) -> (out: Vec<Segment>)
    requires
        line_highlight_ok(r@),
        cv@ == shown_content(r@),
        opt_vec_view(*adjusted) == shown_offsets(r@),
        segviews(cs@) == content_segs(r@),
        cdw == segs_width(content_segs(r@)),
    ensures
        segviews(out@) == line_body(r@, content_width as int, available as int, true),
{
    let ln: u64 = match r.line_number {
        Some(n) => n,
        None => 0,
    };
    let col: u32 = match r.column {
        Some(k) => k,
        None => 1,
    };
    let mut gutter = String::new();
    string_push(&mut gutter, ' ');
    string_push(&mut gutter, ' ');
    string_push(&mut gutter, ':');
    push_decimal(&mut gutter, ln);
    string_push(&mut gutter, ':');
    push_decimal(&mut gutter, col as u64);
    string_push(&mut gutter, ' ');
    proof {
        assert(gutter@ =~= seq![' ', ' ', ':'] + decimal(ln as nat) + seq![':'] + decimal(col as nat)
            + seq![' ']);
    }
    let gw = text_width(gutter.as_str());
    let remaining: usize = if content_width >= gw {
        content_width - gw
    } else {
        0
    };
    let mut out: Vec<Segment> = Vec::new();
    push_seg(&mut out, gutter, SegStyle::Dim);
    let ghost g1 = segviews(out@);
    if cdw > remaining as u128 && remaining > 3 {
        let t = truncated_segments(cv, adjusted, remaining - 1);
        let ghost gt = segviews(t@);
        append_segs(&mut out, t);
        proof {
            assert(segviews(out@) =~= g1 + gt);
        }
    } else {
        let ghost gc = segviews(cs@);
        append_segs(&mut out, cs);
        proof {
            assert(segviews(out@) =~= g1 + gc);
        }
    }
    out
}

/// Line body with `file:line` on the right.
fn located_line_body(
    r: &UnifiedResult,
    cv: &Vec<char>,
    adjusted: &Option<Vec<(u32, u32)>>,
    cs: Vec<Segment>,
    cdw: u128,
    content_width: usize,
    available: usize,
) -> (out: Vec<Segment>)
    requires
        line_highlight_ok(r@),
        cv@ == shown_content(r@),
        opt_vec_view(*adjusted) == shown_offsets(r@),
        segviews(cs@) == content_segs(r@),
        cdw == segs_width(content_segs(r@)),
        cdw + 8 + (usize::MAX as int) <= u128::MAX,
    ensures
        segviews(out@) == line_body(r@, content_width as int, available as int, false),
{
    let ln: u64 = match r.line_number {
        Some(n) => n,
        None => 0,
    };
    let name = exec_shown_name(&r.relative_path);
    let mut meta = name;
    string_push(&mut meta, ':');
    push_decimal(&mut meta, ln);
    let ghost m = shown_name(r@.relative_path) + seq![':'] + decimal(ln as nat);
    proof {
        assert(meta@ =~= m);
    }
    let mw = text_width(meta.as_str()) as u128;
    let total: u128 = cdw + 2 + mw;
    let cwid = content_width as u128;
    let mut out: Vec<Segment> = Vec::new();
    if total > cwid && cwid > mw + 3 {
        let maxc = (cwid - (mw + 3)) as usize;
        let (_k, tw) = fit_prefix(cv, maxc);
        let t = truncated_segments(cv, adjusted, maxc);
        let ghost gt = segviews(t@);
        append_segs(&mut out, t);
        let used: u128 = 4 + tw as u128 + 1 + mw;
        let pad: usize = if (available as u128) >= used {
            (available as u128 - used) as usize
        } else {
            0
        };
        push_pad(&mut out, pad);
        push_seg(&mut out, meta, SegStyle::DimSel);
        proof {
            assert(segviews(out@) =~= gt + pad_segs(pad as int) + seq![sv(m, SegStyle::DimSel)]);
        }
    } else {
        let pad: usize = if total <= cwid {
            (cwid - total) as usize
        } else {
            0
        };
        let ghost gc = segviews(cs@);
        append_segs(&mut out, cs);
        push_pad(&mut out, pad);
        push_seg(&mut out, meta, SegStyle::DimSel);
        proof {
            assert(segviews(out@) =~= gc + pad_segs(pad as int) + seq![sv(m, SegStyle::DimSel)]);
        }
    }
    out
}

/// Row body of a line match; `None` when its match ranges cannot be sliced
/// out of its content.
fn line_row_body(r: &UnifiedResult, content_width: usize, available: usize, group_grep: bool) -> (out: Option<Vec<Segment>>)
    ensures
        match out {
            Some(v) => line_highlight_ok(r@) && segviews(v@) == line_body(
                r@,
                content_width as int,
                available as int,
                group_grep,
            ),
            None => !line_highlight_ok(r@),
        },
{
    match line_content_parts(r) {
        None => None,
        Some((cv, adjusted, cs)) => {
            let cdw = width_of(&cs);
            let n = cs.len();
            proof {
                lemma_segs_width_bound(segviews(cs@));
                lemma_width_room(n as int, cdw as int);
            }
            if group_grep {
                Some(grouped_line_body(r, &cv, &adjusted, cs, cdw, content_width, available))
            } else {
                Some(located_line_body(r, &cv, &adjusted, cs, cdw, content_width, available))
            }
        },
    }
}

// ── Whole rows ──────────────────────────────────────────────────────

/// Pointer, multi-select marker and git badge that open every row. A line
/// match has no badge.
pub open spec fn row_prefix(r: ResultView, is_selected: bool, is_marked: bool) -> Seq<SegView> {
    let badge = if r.kind == MatchKind::Line {
        (' ', GitBadge::Clean)
    } else {
        spec_git_badge(r.git_status)
    };
    seq![
        sv(
            seq![if is_selected { '>' } else { ' ' }],
            if is_selected { SegStyle::Emph } else { SegStyle::Base },
        ),
        sv(
            seq![if is_marked { '\u{258a}' } else { ' ' }],
            if is_marked { SegStyle::Emph } else { SegStyle::Base },
        ),
        sv(seq![badge.0, ' '], SegStyle::Git(badge.1)),
    ]
}

/// The row can be laid out: its highlight ranges fall on character
/// boundaries of the text they cut.
pub open spec fn row_ok(r: ResultView, query: Seq<char>) -> bool {
    if r.kind == MatchKind::Line {
        line_highlight_ok(r)
    } else {
        name_highlight_ok(shown_name(r.relative_path), query)
    }
}

/// The segments of the row of result `r` in a list `available` columns wide.
pub open spec fn row_segs(
    r: ResultView,
    query: Seq<char>,
    available: int,
    is_selected: bool,
    is_marked: bool,
    group_grep: bool,
    strategy: Seq<char>,
    icon: Seq<char>,
) -> Seq<SegView> {
    row_prefix(r, is_selected, is_marked) + match r.kind {
        MatchKind::Line => line_body(r, sat(available, 4), available, group_grep),
        MatchKind::File => file_body(r, query, available, strategy, icon, false),
        MatchKind::FileHeader => file_body(r, query, available, strategy, icon, true),
    }
}

/// Lays out the row of result `r` for a list `available_width` columns wide.
/// `query` is the text whose characters are highlighted in file names,
/// `strategy` the directory shortening strategy and `icon` the file icon.
/// Gives `None` exactly when a highlight range of the row does not fall on
/// a character boundary of the text it cuts.
pub fn build_result_row(
    r: &UnifiedResult,
    query: &str,
    available_width: usize,
    is_selected: bool,
    is_marked: bool,
    group_grep: bool,
    strategy: &str,
    icon: &str,
) -> (out: Option<Vec<Segment>>)
    ensures
        match out {
            Some(v) => row_ok(r@, query@) && segviews(v@) == row_segs(
                r@,
                query@,
                available_width as int,
                is_selected,
                is_marked,
                group_grep,
                strategy@,
                icon@,
            ),
            None => !row_ok(r@, query@),
        },
{
    let badge = if r.kind == MatchKind::Line {
        (' ', GitBadge::Clean)
    } else {
        git_badge(&r.git_status)
    };
    let mut out: Vec<Segment> = Vec::new();
    let mut p = String::new();
    let pc = if is_selected { '>' } else { ' ' };
    string_push(&mut p, pc);
    assert(p@ =~= seq![pc]);
    push_seg(&mut out, p, if is_selected { SegStyle::Emph } else { SegStyle::Base });
    let mut m = String::new();
    let mc = if is_marked { '\u{258a}' } else { ' ' };
    string_push(&mut m, mc);
    assert(m@ =~= seq![mc]);
    push_seg(&mut out, m, if is_marked { SegStyle::Emph } else { SegStyle::Base });
    let mut g = String::new();
    string_push(&mut g, badge.0);
    string_push(&mut g, ' ');
    assert(g@ =~= seq![badge.0, ' ']);
    push_seg(&mut out, g, SegStyle::Git(badge.1));
    let ghost pre = segviews(out@);
    proof {
        assert(pre =~= row_prefix(r@, is_selected, is_marked));
    }
    let body = match r.kind {
        MatchKind::Line => {
            let cw: usize = if available_width >= 4 {
                available_width - 4
            } else {
                0
            };
            line_row_body(r, cw, available_width, group_grep)
        },
        MatchKind::File => file_row_body(r, query, available_width, strategy, icon, false),
        MatchKind::FileHeader => file_row_body(r, query, available_width, strategy, icon, true),
    };
    match body {
        None => None,
        Some(b) => {
            let ghost gb = segviews(b@);
            append_segs(&mut out, b);
            proof {
                assert(segviews(out@) =~= pre + gb);
            }
            Some(out)
        },
    }
}

} // verus!
