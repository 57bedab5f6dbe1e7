//! What one frame of the picker shows, as plain values: the state a frame
//! is drawn from, the counter and placeholder texts, the window of result
//! rows, the preview window and its gutter, and the status-bar texts.
use vstd::prelude::*;
use crate::text::{string_push, push_str, chars_of, chars_equal};
use crate::numfmt::{decimal, push_decimal, decimal_string};
use crate::picker::{
    SearchMode, SearchScope, MatchKind, UnifiedResult, ResultView, views, spec_selection_key,
    selection_key,
};
use crate::app::App;
use crate::row::{Segment, SegView, segviews, row_ok, row_segs, build_result_row, sat};
use crate::width::{fit_len, truncate_line_to_width};

verus! {

broadcast use vstd::seq_lib::group_seq_properties;

/// Everything a frame is drawn from.
pub struct UiState {
    pub query: String,
    pub highlight_query: String,
    pub results: Vec<UnifiedResult>,
    pub selected: usize,
    pub scroll_offset: usize,
    pub total_files: usize,
    pub total_matched: usize,
    /// Multi-select keys of the marked results.
    pub selected_keys: Vec<String>,
    pub is_scanning: bool,
    pub spinner_frame: usize,
    pub terminal_width: u16,
    pub preview_enabled: bool,
    pub search_mode: SearchMode,
    pub search_scope: SearchScope,
    pub group_grep: bool,
    pub path_shorten_strategy: String,
}

/// The views of a sequence of strings.
pub open spec fn str_views(s: Seq<String>) -> Seq<Seq<char>> {
    s.map_values(|x: String| x@)
}

/// The multi-select keys of a sequence of results.
pub open spec fn keys_of(items: Seq<ResultView>) -> Seq<Seq<char>> {
    items.map_values(|r: ResultView| spec_selection_key(r))
}

fn copy_results(v: &Vec<UnifiedResult>) -> (r: Vec<UnifiedResult>)
    ensures
        views(r@) == views(v@),
{
    let mut r: Vec<UnifiedResult> = Vec::new();
    let mut i: usize = 0;
    while i < v.len()
        invariant
            i <= v.len(),
            views(r@) == views(v@).take(i as int),
        decreases v.len() - i,
    {
        let ghost before = r@;
        let d = v[i].duplicate();
        r.push(d);
        proof {
            assert(views(r@) =~= views(before).push(d@));
            assert(views(v@).take(i + 1) =~= views(v@).take(i as int).push(d@));
        }
        i = i + 1;
    }
    proof {
        assert(views(v@).take(v@.len() as int) =~= views(v@));
    }
    r
}

fn keys_vec(items: &Vec<UnifiedResult>) -> (r: Vec<String>)
    ensures
        str_views(r@) == keys_of(views(items@)),
{
    let mut r: Vec<String> = Vec::new();
    let mut i: usize = 0;
    while i < items.len()
        invariant
            i <= items.len(),
            str_views(r@) == keys_of(views(items@)).take(i as int),
        decreases items.len() - i,
    {
        let ghost before = r@;
        let k = selection_key(&items[i]);
        r.push(k);
        proof {
            assert(str_views(r@) =~= str_views(before).push(k@));
            assert(keys_of(views(items@)).take(i + 1) =~= keys_of(views(items@)).take(i as int).push(
                k@,
            ));
        }
        i = i + 1;
    }
    proof {
        assert(keys_of(views(items@)).take(items@.len() as int) =~= keys_of(views(items@)));
    }
    r
}

impl UiState {
    /// The state a frame of `app` is drawn from; `is_scanning` tells whether
    /// the file scan is still running.
    pub fn from_app(app: &App, is_scanning: bool) -> (s: UiState)
        ensures
            s.query@ == app.query@,
            s.highlight_query@ == app.highlight_query@,
            views(s.results@) == views(app.results@),
            s.selected == app.selected,
            s.scroll_offset == app.scroll_offset,
            s.total_files == app.total_files,
            s.total_matched == app.total_matched,
            str_views(s.selected_keys@) == keys_of(views(app.selected_items@)),
            s.is_scanning == is_scanning,
            s.spinner_frame == app.spinner_frame,
            s.terminal_width == app.terminal_width,
            s.preview_enabled == app.preview_enabled,
            s.search_mode == app.search_mode,
            s.search_scope == app.search_scope,
            s.group_grep == app.search_mode.group_grep,
            s.path_shorten_strategy@ == app.path_shorten_strategy@,
    {
        UiState {
            query: app.query.clone(),
            highlight_query: app.highlight_query.clone(),
            results: copy_results(&app.results),
            selected: app.selected,
            scroll_offset: app.scroll_offset,
            total_files: app.total_files,
            total_matched: app.total_matched,
            selected_keys: keys_vec(&app.selected_items),
            is_scanning,
            spinner_frame: app.spinner_frame,
            terminal_width: app.terminal_width,
            preview_enabled: app.preview_enabled,
            search_mode: app.search_mode,
            search_scope: app.search_scope,
            group_grep: app.search_mode.group_grep,
            path_shorten_strategy: app.path_shorten_strategy.clone(),
        }
    }

    /// The preview pane is shown when it is enabled, the terminal is at
    /// least 70 columns wide and a result is selected.
    pub fn shows_preview(&self) -> (r: bool)
        ensures
            r == (self.preview_enabled && self.terminal_width >= 70 && self.selected
                < self.results@.len()),
    {
        self.preview_enabled && self.terminal_width >= 70 && self.selected < self.results.len()
    }
}

// ── Input box ───────────────────────────────────────────────────────

/// Title of the input box.
pub open spec fn spec_input_title(is_scanning: bool) -> Seq<char> {
    if is_scanning {
        seq![' ', 'f', 'f', 'f', ' ', '\u{2022}', ' ', 's', 'c', 'a', 'n', 'n', 'i', 'n', 'g', '\u{2026}', ' ']
    } else {
        seq![' ', 'f', 'f', 'f', ' ']
    }
}

fn push_chars(s: &mut String, v: &Vec<char>)
    ensures
        final(s)@ == old(s)@ + v@,
{
    let mut i: usize = 0;
    while i < v.len()
        invariant
            i <= v.len(),
            s@ == old(s)@ + v@.take(i as int),
        decreases v.len() - i,
    {
        string_push(s, v[i]);
        i = i + 1;
        assert(s@ =~= old(s)@ + v@.take(i as int));
    }
    assert(v@.take(v@.len() as int) =~= v@);
}

/// Title of the input box: ` fff ` or, while scanning, ` fff • scanning… `.
pub fn input_title(is_scanning: bool) -> (s: String)
    ensures
        s@ == spec_input_title(is_scanning),
{
    let v: Vec<char> = if is_scanning {
        vec![' ', 'f', 'f', 'f', ' ', '\u{2022}', ' ', 's', 'c', 'a', 'n', 'n', 'i', 'n', 'g', '\u{2026}', ' ']
    } else {
        vec![' ', 'f', 'f', 'f', ' ']
    };
    let mut s = String::new();
    push_chars(&mut s, &v);
    assert(s@ =~= spec_input_title(is_scanning));
    s
}

/// Columns kept for the ` N / M ` counter: three times the digits of the
/// match count (at least 1), plus 3.
pub fn counter_width(total_matched: usize) -> (w: u16)
    ensures
        w == 3 * decimal(if total_matched >= 1 { total_matched as nat } else { 1nat }).len() + 3,
{
    let n: u64 = if total_matched >= 1 {
        total_matched as u64
    } else {
        1
    };
    let d = decimal_string(n);
    proof {
        lemma_decimal_len_bound(n as nat);
    }
    let k = d.as_str().unicode_len();
    assert(k == decimal(n as nat).len());
    (3 * k + 3) as u16
}

/// A `u64` has at most 20 decimal digits.
pub proof fn lemma_decimal_len_bound(n: nat)
    requires
        n <= u64::MAX,
    ensures
        decimal(n).len() <= 20,
{
    assert(pow10(20) == 100000000000000000000nat) by {
        reveal_with_fuel(pow10, 21);
    }
    lemma_decimal_len_le(n, 20);
}

proof fn lemma_decimal_len_le(n: nat, k: nat)
    requires
        k >= 1,
        n < pow10(k),
    ensures
        decimal(n).len() <= k,
    decreases n,
{
    if n >= 10 {
        if k == 1 {
            assert(pow10(0) == 1);
            assert(pow10(1) == 10);
        }
        assert(k >= 2);
        assert(pow10(k) == 10 * pow10((k - 1) as nat));
        assert(n / 10 < pow10((k - 1) as nat));
        lemma_decimal_len_le(n / 10, (k - 1) as nat);
    }
}

/// `10` to the power `k`.
pub open spec fn pow10(k: nat) -> nat
    decreases k,
{
    if k == 0 {
        1
    } else {
        10 * pow10((k - 1) as nat)
    }
}

/// The counter text: ` 0 / 0 ` with no results, else
/// ` {selected + 1} / {number of results} `.
pub open spec fn spec_counter_text(len: nat, selected: nat) -> Seq<char> {
    if len == 0 {
        seq![' ', '0', ' ', '/', ' ', '0', ' ']
    } else {
        seq![' '] + decimal(selected + 1) + seq![' ', '/', ' '] + decimal(len) + seq![' ']
    }
}

/// The counter text of the input box.
pub fn counter_text(state: &UiState) -> (s: String)
    requires
        state.results@.len() > 0 ==> state.selected < u64::MAX,
    ensures
        s@ == spec_counter_text(state.results@.len(), state.selected as nat),
{
    let mut s = String::new();
    if state.results.len() == 0 {
        let v = vec![' ', '0', ' ', '/', ' ', '0', ' '];
        push_chars(&mut s, &v);
        assert(s@ =~= seq![' ', '0', ' ', '/', ' ', '0', ' ']);
    } else {
        string_push(&mut s, ' ');
        push_decimal(&mut s, state.selected as u64 + 1);
        string_push(&mut s, ' ');
        string_push(&mut s, '/');
        string_push(&mut s, ' ');
        push_decimal(&mut s, state.results.len() as u64);
        string_push(&mut s, ' ');
        assert(s@ =~= spec_counter_text(state.results@.len(), state.selected as nat));
    }
    s
}

// ── Result list ─────────────────────────────────────────────────────

/// What an empty result list shows.
pub open spec fn spec_placeholder(is_scanning: bool, no_results: bool, query_empty: bool) -> Seq<char> {
    if is_scanning && no_results {
        seq!['S', 'c', 'a', 'n', 'n', 'i', 'n', 'g', ' ', 'f', 'i', 'l', 'e', 's', '\u{2026}']
    } else if query_empty {
        seq!['N', 'o', ' ', 'f', 'i', 'l', 'e', 's', ' ', 'f', 'o', 'u', 'n', 'd']
    } else {
        seq!['N', 'o', ' ', 'm', 'a', 't', 'c', 'h', 'e', 's', ' ', 'f', 'o', 'u', 'n', 'd']
    }
}

/// The text an empty result list shows: `Scanning files…` while the scan
/// runs and nothing was found yet, else `No files found` for an empty query
/// and `No matches found` otherwise.
pub fn placeholder_text(state: &UiState) -> (s: String)
    ensures
        s@ == spec_placeholder(state.is_scanning, state.results@.len() == 0, state.query@.len() == 0),
{
    let v: Vec<char> = if state.is_scanning && state.results.len() == 0 {
        vec!['S', 'c', 'a', 'n', 'n', 'i', 'n', 'g', ' ', 'f', 'i', 'l', 'e', 's', '\u{2026}']
    } else if state.query.as_str().unicode_len() == 0 {
        vec!['N', 'o', ' ', 'f', 'i', 'l', 'e', 's', ' ', 'f', 'o', 'u', 'n', 'd']
    } else {
        vec!['N', 'o', ' ', 'm', 'a', 't', 'c', 'h', 'e', 's', ' ', 'f', 'o', 'u', 'n', 'd']
    };
    let mut s = String::new();
    push_chars(&mut s, &v);
    assert(s@ =~= spec_placeholder(state.is_scanning, state.results@.len() == 0, state.query@.len() == 0));
    s
}

/// The rows a list of `vis` rows shows of `len` results: the scroll offset
/// clamped so the window stays full, the end of the window, and the
/// selected index clamped to the last result.
pub open spec fn spec_window(len: int, scroll_offset: int, selected: int, vis: int) -> (int, int, int) {
    let max_scroll = sat(len, vis);
    let scroll = if scroll_offset <= max_scroll { scroll_offset } else { max_scroll };
    let end = if scroll + vis <= len { scroll + vis } else { len };
    let last = sat(len, 1);
    (scroll, end, if selected <= last { selected } else { last })
}

/// The first row shown, the end of the shown rows and the selected row.
pub fn visible_window(len: usize, scroll_offset: usize, selected: usize, visible_count: usize) -> (r: (usize, usize, usize))
    ensures
        (r.0 as int, r.1 as int, r.2 as int) == spec_window(
            len as int,
            scroll_offset as int,
            selected as int,
            visible_count as int,
        ),
        r.0 <= r.1 <= len,
{
    let max_scroll: usize = if len >= visible_count {
        len - visible_count
    } else {
        0
    };
    let scroll = if scroll_offset <= max_scroll {
        scroll_offset
    } else {
        max_scroll
    };
    let end = if visible_count <= len - scroll {
        scroll + visible_count
    } else {
        len
    };
    let last: usize = if len >= 1 {
        len - 1
    } else {
        0
    };
    (scroll, end, if selected <= last { selected } else { last })
}

/// Whether `key` is among `keys`.
pub fn contains_key(keys: &Vec<String>, key: &String) -> (r: bool)
    ensures
        r == str_views(keys@).contains(key@),
{
    let kv = chars_of(key.as_str());
    let mut i: usize = 0;
    while i < keys.len()
        invariant
            i <= keys.len(),
            kv@ == key@,
            forall|j: int| 0 <= j < i ==> keys@[j]@ != key@,
        decreases keys.len() - i,
    {
        let v = chars_of(keys[i].as_str());
        if chars_equal(&v, &kv) {
            proof {
                assert(str_views(keys@)[i as int] == key@);
            }
            return true;
        }
        i = i + 1;
    }
    proof {
        if str_views(keys@).contains(key@) {
            let j = choose|j: int| 0 <= j < str_views(keys@).len() && str_views(keys@)[j] == key@;
            assert(keys@[j]@ == key@);
        }
    }
    false
}

/// Row `i` of the list is marked when its multi-select key is among `keys`.
pub open spec fn marked(keys: Seq<Seq<char>>, r: ResultView) -> bool {
    keys.contains(spec_selection_key(r))
}

/// The segments of the result shown in list row `i`, counted from the top
/// of the window.
pub open spec fn list_row(s: UiState, vis: int, width: int, icon: Seq<char>, i: int) -> Seq<SegView> {
    let (scroll, end, sel) = spec_window(s.results@.len() as int, s.scroll_offset as int, s.selected as int, vis);
    let r = s.results@[scroll + i]@;
    row_segs(
        r,
        s.highlight_query@,
        width,
        scroll + i == sel,
        marked(str_views(s.selected_keys@), r),
        s.group_grep,
        s.path_shorten_strategy@,
        icon,
    )
}

/// The rows of the result list `vis` rows high and `width` columns wide,
/// top to bottom; `None` exactly when a shown row cannot be laid out.
pub fn result_rows(state: &UiState, visible_count: usize, width: usize, icon: &str) -> (out: Option<Vec<Vec<Segment>>>)
    ensures
        ({
            let (scroll, end, sel) = spec_window(
                state.results@.len() as int,
                state.scroll_offset as int,
                state.selected as int,
                visible_count as int,
            );
            match out {
                Some(rows) => rows@.len() == end - scroll && (forall|i: int|
                    scroll <= i < end ==> row_ok(#[trigger] state.results@[i]@, state.highlight_query@))
                    && forall|i: int|
                    0 <= i < rows@.len() ==> segviews(#[trigger] rows@[i]@) == list_row(
                        *state,
                        visible_count as int,
                        width as int,
                        icon@,
                        i,
                    ),
                None => exists|i: int|
                    scroll <= i < end && !row_ok(#[trigger] state.results@[i]@, state.highlight_query@),
            }
        }),
{
    let (scroll, end, sel) = visible_window(state.results.len(), state.scroll_offset, state.selected, visible_count);
    let mut rows: Vec<Vec<Segment>> = Vec::new();
    let mut idx: usize = scroll;
    while idx < end
        invariant
            scroll <= idx <= end <= state.results@.len(),
            (scroll as int, end as int, sel as int) == spec_window(
                state.results@.len() as int,
                state.scroll_offset as int,
                state.selected as int,
                visible_count as int,
            ),
            rows@.len() == idx - scroll,
            forall|i: int| scroll <= i < idx ==> row_ok(#[trigger] state.results@[i]@, state.highlight_query@),
            forall|i: int|
                0 <= i < rows@.len() ==> segviews(#[trigger] rows@[i]@) == list_row(
                    *state,
                    visible_count as int,
                    width as int,
                    icon@,
                    i,
                ),
        decreases end - idx,
    {
        let r = &state.results[idx];
        let key = selection_key(r);
        let is_marked = contains_key(&state.selected_keys, &key);
        let built = build_result_row(
            r,
            state.highlight_query.as_str(),
            width,
            idx == sel,
            is_marked,
            state.group_grep,
            state.path_shorten_strategy.as_str(),
            icon,
        );
        if built.is_none() {
            proof {
                assert(!row_ok(state.results@[idx as int]@, state.highlight_query@));
                assert(scroll <= idx < end);
            }
            return None;
        }
        let row = built.unwrap();
        let ghost before = rows@;
        let ghost rv = row@;
        rows.push(row);
        proof {
            let k = idx - scroll;
            assert(rows@[k as int]@ == rv);
            assert(is_marked == marked(str_views(state.selected_keys@), state.results@[idx as int]@));
            assert(segviews(rv) == list_row(*state, visible_count as int, width as int, icon@, k as int));

            assert forall|j: int| 0 <= j < rows@.len() implies segviews(#[trigger] rows@[j]@)
                == list_row(*state, visible_count as int, width as int, icon@, j) by {
                if j < k {
                    assert(rows@[j] == before[j]);
                } else {
                    assert(j == k);
                }
            }
        }
        idx = idx + 1;
    }
    Some(rows)
}

// ── Preview pane ────────────────────────────────────────────────────

/// The file lines a preview `height` rows high shows for a result: the
/// first line, the line to mark, and how many lines. A line match is
/// centred on its line (line 1 when unknown); a file starts at line 1.
pub open spec fn spec_preview_window(r: ResultView, height: int) -> (int, Option<int>, int) {
    if r.kind == MatchKind::Line {
        let target: int = match r.line_number {
            Some(n) => n as int,
            None => 1,
        };
        let ctx = sat(height, 1) / 2;
        let start = sat(target, ctx);
        (if start >= 1 { start } else { 1 }, Some(target), height)
    } else {
        (1, None, height)
    }
}

/// The first line, the marked line and the line count of the preview of
/// `r` in a pane `inner_height` rows high.
pub fn preview_window(r: &UnifiedResult, inner_height: u16) -> (w: (u64, Option<u64>, usize))
    ensures
        ({
            let (a, b, c) = spec_preview_window(r@, inner_height as int);
            &&& w.0 == a
            &&& w.2 == c
            &&& match b {
                Some(t) => w.1 == Some(t as u64) && t == w.1.unwrap(),
                None => w.1 is None,
            }
        }),
{
    if r.kind == MatchKind::Line {
        let target: u64 = match r.line_number {
            Some(n) => n,
            None => 1,
        };
        let h = inner_height as u64;
        let ctx: u64 = if h >= 1 {
            (h - 1) / 2
        } else {
            0
        };
        let start: u64 = if target >= ctx {
            target - ctx
        } else {
            0
        };
        (if start >= 1 { start } else { 1 }, Some(target), inner_height as usize)
    } else {
        (1, None, inner_height as usize)
    }
}

/// The lines `start_line..` (numbered from 1) of a file, at most `count`
/// of them, each with its number.
pub fn window_lines(lines: &Vec<String>, start_line: u64, count: usize) -> (r: Vec<(u64, String)>)
    requires
        sat(start_line as int, 1) <= lines@.len(),
        sat(start_line as int, 1) + count <= usize::MAX,
    ensures
        ({
            let s = sat(start_line as int, 1);
            let end = if s + count <= lines@.len() { s + count } else { lines@.len() as int };
            &&& r@.len() == end - s
            &&& forall|i: int|
                0 <= i < r@.len() ==> (#[trigger] r@[i]).0 == s + i + 1 && r@[i].1@ == lines@[s + i]@
        }),
{
    let s: usize = if start_line >= 1 {
        (start_line - 1) as usize
    } else {
        0
    };
    let end: usize = if s + count <= lines.len() {
        s + count
    } else {
        lines.len()
    };
    let mut r: Vec<(u64, String)> = Vec::new();
    let mut i: usize = s;
    while i < end
        invariant
            s <= i <= end <= lines@.len(),
            s == sat(start_line as int, 1),
            r@.len() == i - s,
            forall|j: int| 0 <= j < r@.len() ==> (#[trigger] r@[j]).0 == s + j + 1 && r@[j].1@ == lines@[s + j]@,
        decreases end - i,
    {
        let ghost before = r@;
        r.push(((i + 1) as u64, lines[i].clone()));
        proof {
            assert forall|j: int| 0 <= j < r@.len() implies (#[trigger] r@[j]).0 == s + j + 1
                && r@[j].1@ == lines@[s + j]@ by {
                if j < before.len() {
                    assert(r@[j] == before[j]);
                }
            }
        }
        i = i + 1;
    }
    r
}

/// The largest number of decimal digits among the line numbers (0 for none).
pub open spec fn max_digits(lines: Seq<(u64, String)>) -> int
    decreases lines.len(),
{
    if lines.len() == 0 {
        0
    } else {
        let d = decimal(lines.last().0 as nat).len() as int;
        let m = max_digits(lines.drop_last());
        if d >= m { d } else { m }
    }
}

/// Width of the preview gutter: the widest line number, at least 3 digits,
/// plus one column.
pub fn gutter_width(lines: &Vec<(u64, String)>) -> (w: usize)
    ensures
        w == (if max_digits(lines@) >= 3 { max_digits(lines@) } else { 3 }) + 1,
{
    let mut m: usize = 0;
    let mut i: usize = 0;
    while i < lines.len()
        invariant
            i <= lines.len(),
            m == max_digits(lines@.take(i as int)),
            m <= 20,
        decreases lines.len() - i,
    {
        let d = decimal_string(lines[i].0);
        proof {
            lemma_decimal_len_bound(lines@[i as int].0 as nat);
            assert(lines@.take(i + 1).drop_last() =~= lines@.take(i as int));
        }
        let k = d.as_str().unicode_len();
        if k >= m {
            m = k;
        }
        i = i + 1;
    }
    proof {
        assert(lines@.take(lines@.len() as int) =~= lines@);
    }
    (if m >= 3 { m } else { 3 }) + 1
}

/// `n` spaces.
pub open spec fn blanks(n: int) -> Seq<char> {
    Seq::new(n as nat, |i: int| ' ')
}

/// The gutter of preview line `n` in a gutter `width` columns wide: the
/// number right-aligned in `width - 1` columns, then a space.
pub open spec fn spec_gutter_text(n: u64, width: int) -> Seq<char> {
    blanks(sat(width - 1, decimal(n as nat).len() as int)) + decimal(n as nat) + seq![' ']
}

/// The gutter text of preview line `n`.
pub fn gutter_text(n: u64, width: usize) -> (s: String)
    requires
        width >= 1,
    ensures
        s@ == spec_gutter_text(n, width as int),
{
    let d = decimal_string(n);
    let k = d.as_str().unicode_len();
    let pad: usize = if width - 1 >= k {
        width - 1 - k
    } else {
        0
    };
    let mut s = String::new();
    let mut i: usize = 0;
    while i < pad
        invariant
            i <= pad,
            s@ == blanks(i as int),
        decreases pad - i,
    {
        string_push(&mut s, ' ');
        i = i + 1;
        assert(s@ =~= blanks(i as int));
    }
    push_str(&mut s, d.as_str());
    string_push(&mut s, ' ');
    assert(s@ =~= spec_gutter_text(n, width as int));
    s
}

/// The title of the preview pane of result `r`: its path between spaces.
pub fn preview_title(r: &UnifiedResult) -> (s: String)
    ensures
        s@ == seq![' '] + r.relative_path@ + seq![' '],
{
    let mut s = String::new();
    string_push(&mut s, ' ');
    push_str(&mut s, r.relative_path.as_str());
    string_push(&mut s, ' ');
    assert(s@ =~= seq![' '] + r.relative_path@ + seq![' ']);
    s
}

/// One row of the preview pane: the gutter, the line cut to the pane, and
/// whether it is the marked line.
pub struct PreviewLine {
    pub gutter: String,
    pub text: String,
    pub marked: bool,
}

/// Columns left for the text of preview lines beside a gutter `gutter`
/// columns wide in a pane `inner_width` columns wide.
pub open spec fn preview_text_width(inner_width: u16, gutter: int) -> int {
    sat(inner_width as int, gutter)
}

/// The rows of a preview pane `inner_width` by `inner_height` showing the
/// numbered `lines`, with line `target` marked: at most one row per pane
/// row, each with its right-aligned number and its text cut to the columns
/// left beside the gutter.
pub fn preview_lines(lines: &Vec<(u64, String)>, target: Option<u64>, inner_width: u16, inner_height: u16) -> (r: Vec<PreviewLine>)
    ensures
        r@.len() == if lines@.len() <= inner_height { lines@.len() as int } else { inner_height as int },
        forall|i: int|
            0 <= i < r@.len() ==> {
                let gw = (if max_digits(lines@) >= 3 { max_digits(lines@) } else { 3 }) + 1;
                let tw = preview_text_width(inner_width, gw);
                &&& (#[trigger] r@[i]).gutter@ == spec_gutter_text(lines@[i].0, gw)
                &&& r@[i].text@ == lines@[i].1@.take(fit_len(lines@[i].1@, tw) as int)
                &&& r@[i].marked == (target == Some(lines@[i].0))
            },
{
    let gw = gutter_width(lines);
    let ghost gws = (if max_digits(lines@) >= 3 { max_digits(lines@) } else { 3 }) + 1;
    let tw: usize = if (inner_width as usize) >= gw {
        inner_width as usize - gw
    } else {
        0
    };
    let n: usize = if lines.len() <= inner_height as usize {
        lines.len()
    } else {
        inner_height as usize
    };
    let mut r: Vec<PreviewLine> = Vec::new();
    let mut i: usize = 0;
    while i < n
        invariant
            i <= n <= lines@.len(),
            gw == gws,
            gw >= 4,
            tw == preview_text_width(inner_width, gws),
            r@.len() == i,
            forall|j: int|
                0 <= j < i ==> {
                    &&& (#[trigger] r@[j]).gutter@ == spec_gutter_text(lines@[j].0, gws)
                    &&& r@[j].text@ == lines@[j].1@.take(fit_len(lines@[j].1@, tw as int) as int)
                    &&& r@[j].marked == (target == Some(lines@[j].0))
                },
        decreases n - i,
    {
        let num = lines[i].0;
        let line = PreviewLine {
            gutter: gutter_text(num, gw),
            text: truncate_line_to_width(lines[i].1.as_str(), tw),
            marked: target == Some(num),
        };
        let ghost before = r@;
        r.push(line);
        proof {
            assert forall|j: int| 0 <= j < i + 1 implies {
                &&& (#[trigger] r@[j]).gutter@ == spec_gutter_text(lines@[j].0, gws)
                &&& r@[j].text@ == lines@[j].1@.take(fit_len(lines@[j].1@, tw as int) as int)
                &&& r@[j].marked == (target == Some(lines@[j].0))
            } by {
                if j < i {
                    assert(r@[j] == before[j]);
                }
            }
        }
        i = i + 1;
    }
    r
}

// ── Status bar ──────────────────────────────────────────────────────

/// `  {n} files`.
pub open spec fn spec_files_text(n: nat) -> Seq<char> {
    seq![' ', ' '] + decimal(n) + seq![' ', 'f', 'i', 'l', 'e', 's']
}

/// The file count shown at the left of the status bar.
pub fn files_text(total_files: usize) -> (s: String)
    ensures
        s@ == spec_files_text(total_files as nat),
{
    let mut s = String::new();
    string_push(&mut s, ' ');
    string_push(&mut s, ' ');
    push_decimal(&mut s, total_files as u64);
    let v = vec![' ', 'f', 'i', 'l', 'e', 's'];
    push_chars(&mut s, &v);
    assert(s@ =~= spec_files_text(total_files as nat));
    s
}

/// The dimmed labels after the key hints: the scope unless it is unified,
/// then `[grouped]` when grep results are grouped.
pub open spec fn spec_status_labels(scope: SearchScope, group_grep: bool) -> Seq<Seq<char>> {
    let sc: Seq<Seq<char>> = match scope {
        SearchScope::Unified => Seq::empty(),
        SearchScope::FileOnly => seq![seq![' ', ' ', '[', 'f', 'i', 'l', 'e', 's', ']']],
        SearchScope::GrepOnly => seq![seq![' ', ' ', '[', 'g', 'r', 'e', 'p', ']']],
    };
    if group_grep {
        sc.push(seq![' ', ' ', '[', 'g', 'r', 'o', 'u', 'p', 'e', 'd', ']'])
    } else {
        sc
    }
}

fn string_from(v: &Vec<char>) -> (s: String)
    ensures
        s@ == v@,
{
    let mut s = String::new();
    push_chars(&mut s, v);
    assert(s@ =~= v@);
    s
}

/// The dimmed labels of the status bar.
pub fn status_labels(scope: SearchScope, group_grep: bool) -> (r: Vec<String>)
    ensures
        str_views(r@) == spec_status_labels(scope, group_grep),
{
    let mut r: Vec<String> = Vec::new();
    match scope {
        SearchScope::Unified => {},
        SearchScope::FileOnly => {
            r.push(string_from(&vec![' ', ' ', '[', 'f', 'i', 'l', 'e', 's', ']']));
        },
        SearchScope::GrepOnly => {
            r.push(string_from(&vec![' ', ' ', '[', 'g', 'r', 'e', 'p', ']']));
        },
    }
    let ghost before = str_views(r@);
    if group_grep {
        r.push(string_from(&vec![' ', ' ', '[', 'g', 'r', 'o', 'u', 'p', 'e', 'd', ']']));
        assert(str_views(r@) =~= before.push(seq![' ', ' ', '[', 'g', 'r', 'o', 'u', 'p', 'e', 'd', ']']));
    }
    assert(str_views(r@) =~= spec_status_labels(scope, group_grep));
    r
}

/// The grep mode named in the status bar: nothing in file-only scope, else
/// ` regex`, ` fuzzy` or ` plain` (regex wins over fuzzy).
pub open spec fn spec_mode_label(scope: SearchScope, mode: SearchMode) -> Seq<char> {
    if scope != SearchScope::FileOnly {
        if mode.regex {
            seq![' ', 'r', 'e', 'g', 'e', 'x']
        } else if mode.fuzzy {
            seq![' ', 'f', 'u', 'z', 'z', 'y']
        } else {
            seq![' ', 'p', 'l', 'a', 'i', 'n']
        }
    } else {
        Seq::empty()
    }
}

/// `{n} matches{mode}  v0.1.0 `, the right of the status bar.
pub open spec fn spec_status_right(total_matched: nat, scope: SearchScope, mode: SearchMode) -> Seq<char> {
    decimal(total_matched) + seq![' ', 'm', 'a', 't', 'c', 'h', 'e', 's'] + spec_mode_label(scope, mode)
        + seq![' ', ' ', 'v', '0', '.', '1', '.', '0', ' ']
}

/// The text at the right of the status bar.
pub fn status_right_text(total_matched: usize, scope: SearchScope, mode: SearchMode) -> (s: String)
    ensures
        s@ == spec_status_right(total_matched as nat, scope, mode),
{
    let mut s = String::new();
    push_decimal(&mut s, total_matched as u64);
    push_chars(&mut s, &vec![' ', 'm', 'a', 't', 'c', 'h', 'e', 's']);
    let label: Vec<char> = if scope != SearchScope::FileOnly {
        if mode.regex {
            vec![' ', 'r', 'e', 'g', 'e', 'x']
        } else if mode.fuzzy {
            vec![' ', 'f', 'u', 'z', 'z', 'y']
        } else {
            vec![' ', 'p', 'l', 'a', 'i', 'n']
        }
    } else {
        Vec::new()
    };
    assert(label@ =~= spec_mode_label(scope, mode));
    push_chars(&mut s, &label);
    push_chars(&mut s, &vec![' ', ' ', 'v', '0', '.', '1', '.', '0', ' ']);
    assert(s@ =~= spec_status_right(total_matched as nat, scope, mode));
    s
}

// ── Frame dump ──────────────────────────────────────────────────────

/// Idle frames a frame dump draws after its first search: what is left of
/// the frame budget once `drawn` frames are drawn, at most 10.
pub fn idle_frames(max_frames: usize, drawn: usize) -> (n: usize)
    ensures
        n == if sat(max_frames as int, drawn as int) <= 10 { sat(max_frames as int, drawn as int) } else { 10 },
{
    let left: usize = if max_frames >= drawn {
        max_frames - drawn
    } else {
        0
    };
    if left <= 10 {
        left
    } else {
        10
    }
}

// ── Frame text ──────────────────────────────────────────────────────

/// A cell's text in a plain-text frame: its symbol, or a space when empty.
pub open spec fn cell_text(symbol: Seq<char>) -> Seq<char> {
    if symbol.len() == 0 {
        seq![' ']
    } else {
        symbol
    }
}

/// One row of cells as text.
pub open spec fn row_text(cells: Seq<Seq<char>>) -> Seq<char>
    decreases cells.len(),
{
    if cells.len() == 0 {
        Seq::empty()
    } else {
        row_text(cells.drop_last()) + cell_text(cells.last())
    }
}

/// The rows of a frame, each ended by a line feed.
pub open spec fn rows_text(rows: Seq<Seq<Seq<char>>>) -> Seq<char>
    decreases rows.len(),
{
    if rows.len() == 0 {
        Seq::empty()
    } else {
        rows_text(rows.drop_last()) + row_text(rows.last()) + seq!['\n']
    }
}

/// A frame as text: its rows joined by line feeds, with a final line feed
/// (a lone line feed for a frame without rows).
pub open spec fn spec_frame_text(rows: Seq<Seq<Seq<char>>>) -> Seq<char> {
    if rows.len() == 0 {
        seq!['\n']
    } else {
        rows_text(rows)
    }
}

/// The views of a grid of cell symbols.
pub open spec fn grid_views(rows: Seq<Vec<String>>) -> Seq<Seq<Seq<char>>> {
    rows.map_values(|r: Vec<String>| str_views(r@))
}

fn push_row_text(s: &mut String, cells: &Vec<String>)
    ensures
        final(s)@ == old(s)@ + row_text(str_views(cells@)),
{
    let ghost v = str_views(cells@);
    let mut i: usize = 0;
    while i < cells.len()
        invariant
            i <= cells.len(),
            v == str_views(cells@),
            s@ == old(s)@ + row_text(v.take(i as int)),
        decreases cells.len() - i,
    {
        proof {
            assert(v.take(i + 1).drop_last() =~= v.take(i as int));
            assert(v.take(i + 1).last() == cells@[i as int]@);
        }
        let sym = cells[i].as_str();
        if sym.unicode_len() == 0 {
            string_push(s, ' ');
        } else {
            push_str(s, sym);
        }
        i = i + 1;
        assert(s@ =~= old(s)@ + row_text(v.take(i as int)));
    }
    assert(v.take(cells@.len() as int) =~= v);
}

/// A frame as plain text, given the symbols of its cells row by row: an
/// empty cell reads as a space, rows are joined by line feeds and the text
/// ends with one.
pub fn frame_text(rows: &Vec<Vec<String>>) -> (s: String)
    ensures
        s@ == spec_frame_text(grid_views(rows@)),
{
    let ghost g = grid_views(rows@);
    let mut s = String::new();
    if rows.len() == 0 {
        string_push(&mut s, '\n');
        assert(s@ =~= seq!['\n']);
        return s;
    }
    let mut i: usize = 0;
    while i < rows.len()
        invariant
            i <= rows.len(),
            g == grid_views(rows@),
            s@ == rows_text(g.take(i as int)),
        decreases rows.len() - i,
    {
        proof {
            assert(g.take(i + 1).drop_last() =~= g.take(i as int));
            assert(g.take(i + 1).last() == str_views(rows@[i as int]@));
        }
        push_row_text(&mut s, &rows[i]);
        string_push(&mut s, '\n');
        i = i + 1;
        assert(s@ =~= rows_text(g.take(i as int)));
    }
    assert(g.take(rows@.len() as int) =~= g);
    s
}

} // verus!
