//! The picker's interactive state: the query line with its byte cursor,
//! the result list with its selection and scroll window, the multi-select
//! set, and the search toggles; and every state transition that a key
//! press causes.
use vstd::prelude::*;
use crate::text::{
    byte_len, byte_offset, char_index_at, is_char_boundary_of, is_ws, utf8_width, chars_of,
    string_of_chars, index_of_boundary, prefix_bytes, is_whitespace, char_width_utf8,
    lemma_char_index_at, lemma_byte_offset_mono, lemma_byte_offset_full, lemma_byte_offset_step,
    lemma_byte_len_append, lemma_byte_len_push, str_byte_len,
};
use crate::picker::{
    SearchMode, SearchScope, UnifiedResult, ResultView, SearchOutput, views, spec_selection_key,
    first_key_index, unique_keys, selection_key, find_key,
};

verus! {

broadcast use vstd::seq_lib::group_seq_properties;

pub struct App {
    pub query: String,
    pub highlight_query: String,
    pub results: Vec<UnifiedResult>,
    pub selected: usize,
    pub scroll_offset: usize,
    pub total_files: usize,
    pub total_matched: usize,
    pub should_quit: bool,
    pub should_select: bool,
    pub selected_items: Vec<UnifiedResult>,
    pub spinner_frame: usize,
    pub terminal_height: u16,
    pub terminal_width: u16,
    pub search_mode: SearchMode,
    pub search_scope: SearchScope,
    pub preview_enabled: bool,
    pub path_shorten_strategy: String,
    pub current_file: Option<String>,
    pub force_combo_boost: bool,
    pub exit_on_single: bool,
    pub query_history_offset: usize,
    /// Byte offset of the cursor inside `query`.
    pub cursor_position: usize,
}

// ── Word boundaries ──────────────────────────────────────────────────

/// From character index `k`, step back over whitespace.
pub open spec fn skip_ws_back(s: Seq<char>, k: int) -> int
    decreases k,
{
    if k > 0 && k <= s.len() && is_ws(s[k - 1]) {
        skip_ws_back(s, k - 1)
    } else {
        k
    }
}

/// From character index `k`, step back over non-whitespace.
pub open spec fn skip_word_back(s: Seq<char>, k: int) -> int
    decreases k,
{
    if k > 0 && k <= s.len() && !is_ws(s[k - 1]) {
        skip_word_back(s, k - 1)
    } else {
        k
    }
}

/// Start of the word before index `k`: trailing whitespace, then the word.
pub open spec fn word_start_before(s: Seq<char>, k: int) -> int {
    skip_word_back(s, skip_ws_back(s, k))
}

/// From character index `k`, step forward over non-whitespace.
pub open spec fn skip_word_fwd(s: Seq<char>, k: int) -> int
    decreases s.len() - k,
{
    if 0 <= k < s.len() && !is_ws(s[k]) {
        skip_word_fwd(s, k + 1)
    } else {
        k
    }
}

/// From character index `k`, step forward over whitespace.
pub open spec fn skip_ws_fwd(s: Seq<char>, k: int) -> int
    decreases s.len() - k,
{
    if 0 <= k < s.len() && is_ws(s[k]) {
        skip_ws_fwd(s, k + 1)
    } else {
        k
    }
}

/// Start of the next word after index `k`: the rest of the word, then whitespace.
pub open spec fn word_end_after(s: Seq<char>, k: int) -> int {
    skip_ws_fwd(s, skip_word_fwd(s, k))
}

proof fn lemma_skip_ws_back(s: Seq<char>, k: int)
    requires
        0 <= k <= s.len(),
    ensures
        0 <= skip_ws_back(s, k) <= k,
    decreases k,
{
    if k > 0 && is_ws(s[k - 1]) {
        lemma_skip_ws_back(s, k - 1);
    }
}

proof fn lemma_skip_word_back(s: Seq<char>, k: int)
    requires
        0 <= k <= s.len(),
    ensures
        0 <= skip_word_back(s, k) <= k,
    decreases k,
{
    if k > 0 && !is_ws(s[k - 1]) {
        lemma_skip_word_back(s, k - 1);
    }
}

proof fn lemma_skip_word_fwd(s: Seq<char>, k: int)
    requires
        0 <= k <= s.len(),
    ensures
        k <= skip_word_fwd(s, k) <= s.len(),
    decreases s.len() - k,
{
    if k < s.len() && !is_ws(s[k]) {
        lemma_skip_word_fwd(s, k + 1);
    }
}

proof fn lemma_skip_ws_fwd(s: Seq<char>, k: int)
    requires
        0 <= k <= s.len(),
    ensures
        k <= skip_ws_fwd(s, k) <= s.len(),
    decreases s.len() - k,
{
    if k < s.len() && is_ws(s[k]) {
        lemma_skip_ws_fwd(s, k + 1);
    }
}

fn exec_word_start_before(v: &Vec<char>, k: usize) -> (j: usize)
    requires
        k <= v.len(),
    ensures
        j == word_start_before(v@, k as int),
        j <= k,
{
    let mut i = k;
    while i > 0 && is_whitespace(v[i - 1])
        invariant
            i <= k <= v.len(),
            skip_ws_back(v@, i as int) == skip_ws_back(v@, k as int),
        decreases i,
    {
        i = i - 1;
    }
    let m = i;
    while i > 0 && !is_whitespace(v[i - 1])
        invariant
            i <= m <= k <= v.len(),
            m == skip_ws_back(v@, k as int),
            skip_word_back(v@, i as int) == skip_word_back(v@, m as int),
        decreases i,
    {
        i = i - 1;
    }
    i
}

fn exec_word_end_after(v: &Vec<char>, k: usize) -> (j: usize)
    requires
        k <= v.len(),
    ensures
        j == word_end_after(v@, k as int),
        k <= j <= v.len(),
{
    let mut i = k;
    while i < v.len() && !is_whitespace(v[i])
        invariant
            k <= i <= v.len(),
            skip_word_fwd(v@, i as int) == skip_word_fwd(v@, k as int),
        decreases v.len() - i,
    {
        i = i + 1;
    }
    let m = i;
    while i < v.len() && is_whitespace(v[i])
        invariant
            k <= m <= i <= v.len(),
            m == skip_word_fwd(v@, k as int),
            skip_ws_fwd(v@, i as int) == skip_ws_fwd(v@, m as int),
        decreases v.len() - i,
    {
        i = i + 1;
    }
    i
}

/// `v[..from] ++ v[to..]`.
fn splice_out(v: &Vec<char>, from: usize, to: usize) -> (r: Vec<char>)
    requires
        from <= to <= v.len(),
    ensures
        r@ == v@.take(from as int) + v@.skip(to as int),
{
    let mut r: Vec<char> = Vec::new();
    let mut i: usize = 0;
    while i < from
        invariant
            i <= from <= to <= v.len(),
            r@ == v@.take(i as int),
        decreases from - i,
    {
        r.push(v[i]);
        i = i + 1;
        assert(r@ =~= v@.take(i as int));
    }
    let mut j = to;
    while j < v.len()
        invariant
            from <= to <= j <= v.len(),
            r@ == v@.take(from as int) + v@.subrange(to as int, j as int),
        decreases v.len() - j,
    {
        r.push(v[j]);
        j = j + 1;
        assert(r@ =~= v@.take(from as int) + v@.subrange(to as int, j as int));
    }
    assert(v@.subrange(to as int, v@.len() as int) =~= v@.skip(to as int));
    r
}

/// `v[..at] ++ [c] ++ v[at..]`.
fn splice_in(v: &Vec<char>, at: usize, c: char) -> (r: Vec<char>)
    requires
        at <= v.len(),
    ensures
        r@ == v@.take(at as int).push(c) + v@.skip(at as int),
{
    let mut r: Vec<char> = Vec::new();
    let mut i: usize = 0;
    while i < at
        invariant
            i <= at <= v.len(),
            r@ == v@.take(i as int),
        decreases at - i,
    {
        r.push(v[i]);
        i = i + 1;
        assert(r@ =~= v@.take(i as int));
    }
    r.push(c);
    let mut j = at;
    while j < v.len()
        invariant
            at <= j <= v.len(),
            r@ == v@.take(at as int).push(c) + v@.subrange(at as int, j as int),
        decreases v.len() - j,
    {
        r.push(v[j]);
        j = j + 1;
        assert(r@ =~= v@.take(at as int).push(c) + v@.subrange(at as int, j as int));
    }
    assert(v@.subrange(at as int, v@.len() as int) =~= v@.skip(at as int));
    r
}

impl App {
    // ── Model ────────────────────────────────────────────────────────

    /// The query is short enough to be held in memory and the cursor sits
    /// on a character boundary of it.
    pub open spec fn edit_wf(&self) -> bool {
        &&& byte_len(self.query@) <= isize::MAX
        &&& is_char_boundary_of(self.query@, self.cursor_position as int)
    }

    /// Character index of the cursor.
    pub open spec fn cursor_index(&self) -> int {
        char_index_at(self.query@, self.cursor_position as int)
    }

    /// `new` is `old` with the query replaced by `q` and the cursor moved to
    /// character index `k` of `q`.
    pub open spec fn edited(old: App, new: App, q: Seq<char>, k: int) -> bool {
        &&& new.query@ == q
        &&& 0 <= k <= q.len()
        &&& new.cursor_position == byte_offset(q, k)
        &&& new == (App { query: new.query, cursor_position: new.cursor_position, ..old })
    }

    /// Cursor one character left, or unchanged at the start.
    pub open spec fn left_post(old: App, new: App) -> bool {
        let k = old.cursor_index();
        Self::edited(old, new, old.query@, if k == 0 { 0 } else { k - 1 })
    }

    /// Cursor one character right, or unchanged at the end.
    pub open spec fn right_post(old: App, new: App) -> bool {
        let k = old.cursor_index();
        Self::edited(old, new, old.query@, if k == old.query@.len() { k } else { k + 1 })
    }

    /// Cursor at the start of the word before it.
    pub open spec fn word_back_post(old: App, new: App) -> bool {
        Self::edited(old, new, old.query@, word_start_before(old.query@, old.cursor_index()))
    }

    /// Cursor past the word under it and the whitespace that follows.
    pub open spec fn word_fwd_post(old: App, new: App) -> bool {
        Self::edited(old, new, old.query@, word_end_after(old.query@, old.cursor_index()))
    }

    /// Cursor at the start of the query.
    pub open spec fn home_post(old: App, new: App) -> bool {
        Self::edited(old, new, old.query@, 0)
    }

    /// Cursor at the end of the query.
    pub open spec fn end_post(old: App, new: App) -> bool {
        Self::edited(old, new, old.query@, old.query@.len() as int)
    }

    /// The text between the start of the previous word and the cursor is
    /// removed; the cursor stays where that text began.
    pub open spec fn delete_word_post(old: App, new: App) -> bool {
        let q = old.query@;
        let k = old.cursor_index();
        let j = word_start_before(q, k);
        Self::edited(old, new, q.take(j) + q.skip(k), j)
    }

    /// `c` is inserted at the cursor, and the cursor moves past it.
    pub open spec fn insert_post(old: App, new: App, c: char) -> bool {
        let q = old.query@;
        let k = old.cursor_index();
        Self::edited(old, new, q.take(k).push(c) + q.skip(k), k + 1)
    }

    /// The character before the cursor is removed (nothing at the start).
    pub open spec fn backspace_post(old: App, new: App) -> bool {
        let q = old.query@;
        let k = old.cursor_index();
        if k == 0 {
            new == old
        } else {
            Self::edited(old, new, q.take(k - 1) + q.skip(k), k - 1)
        }
    }

    /// The character under the cursor is removed (nothing at the end).
    pub open spec fn delete_forward_post(old: App, new: App) -> bool {
        let q = old.query@;
        let k = old.cursor_index();
        if k == q.len() {
            new == old
        } else {
            Self::edited(old, new, q.take(k) + q.skip(k + 1), k)
        }
    }

    /// Everything from the cursor on is removed.
    pub open spec fn kill_post(old: App, new: App) -> bool {
        let q = old.query@;
        let k = old.cursor_index();
        if k == q.len() {
            new == old
        } else {
            Self::edited(old, new, q.take(k), k)
        }
    }

    /// The query is emptied.
    pub open spec fn clear_post(old: App, new: App) -> bool {
        Self::edited(old, new, Seq::<char>::empty(), 0)
    }

    pub fn new() -> (app: Self)
        ensures
            app.query@ == Seq::<char>::empty(),
            app.highlight_query@ == Seq::<char>::empty(),
            app.results@ == Seq::<UnifiedResult>::empty(),
            app.selected == 0,
            app.scroll_offset == 0,
            app.total_files == 0,
            app.total_matched == 0,
            !app.should_quit,
            !app.should_select,
            app.selected_items@ == Seq::<UnifiedResult>::empty(),
            app.spinner_frame == 0,
            app.terminal_height == 24,
            app.terminal_width == 80,
            app.search_mode == (SearchMode {
                case_sensitive: false,
                whole_word: false,
                regex: false,
                fixed_strings: false,
                group_grep: false,
                fuzzy: false,
            }),
            app.search_scope == SearchScope::Unified,
            app.preview_enabled,
            app.path_shorten_strategy@ == "middle_number"@,
            app.current_file is None,
            !app.force_combo_boost,
            !app.exit_on_single,
            app.query_history_offset == 0,
            app.cursor_position == 0,
            app.edit_wf(),
    {
        let app = App {
            query: String::new(),
            highlight_query: String::new(),
            results: Vec::new(),
            selected: 0,
            scroll_offset: 0,
            total_files: 0,
            total_matched: 0,
            should_quit: false,
            should_select: false,
            selected_items: Vec::new(),
            spinner_frame: 0,
            terminal_height: 24,
            terminal_width: 80,
            search_mode: SearchMode::default(),
            search_scope: SearchScope::default(),
            preview_enabled: true,
            path_shorten_strategy: String::from_str("middle_number"),
            current_file: None,
            force_combo_boost: false,
            exit_on_single: false,
            query_history_offset: 0,
            cursor_position: 0,
        };
        proof {
            assert(app.query@.take(0) =~= Seq::<char>::empty());
            assert(byte_offset(app.query@, 0) == 0);
            lemma_char_index_at(app.query@, 0);
        }
        app
    }

    /// The characters of the query and the character index of the cursor.
    fn cursor_chars(&self) -> (r: (Vec<char>, usize))
        requires
            self.edit_wf(),
        ensures
            r.0@ == self.query@,
            r.1 == self.cursor_index(),
            r.1 <= r.0@.len(),
            byte_offset(self.query@, r.1 as int) == self.cursor_position,
    {
        let v = chars_of(self.query.as_str());
        let k = index_of_boundary(&v, self.cursor_position);
        (v, k)
    }

    /// Replace the query by `v` and put the cursor at character index `k`.
    fn set_query(&mut self, v: Vec<char>, k: usize)
        requires
            k <= v.len(),
            byte_len(v@) <= isize::MAX,
        ensures
            Self::edited(*old(self), *final(self), v@, k as int),
            final(self).edit_wf(),
            final(self).cursor_index() == k,
    {
        proof {
            lemma_byte_offset_mono(v@, k as int, v@.len() as int);
            lemma_byte_offset_full(v@);
            lemma_char_index_at(v@, k as int);
        }
        let b = prefix_bytes(&v, k);
        self.query = string_of_chars(&v);
        self.cursor_position = b;
    }

    // ── Cursor movement ─────────────────────────────────────────────

    /// Move the cursor one character to the left (no move at the start).
    pub fn move_cursor_left(&mut self)
        requires
            old(self).edit_wf(),
        ensures
            final(self).edit_wf(),
            Self::left_post(*old(self), *final(self)),
    {
        if self.cursor_position == 0 {
            proof {
                lemma_char_index_at(self.query@, 0);
                assert(self.query@.take(0) =~= Seq::<char>::empty());
            }
            return;
        }
        let (v, k) = self.cursor_chars();
        proof {
            if k == 0 {
                assert(v@.take(0) =~= Seq::<char>::empty());
            }
        }
        self.cursor_position = prefix_bytes(&v, k - 1);
        proof {
            lemma_char_index_at(v@, k - 1);
        }
    }

    /// Move the cursor one character to the right (no move at the end).
    pub fn move_cursor_right(&mut self)
        requires
            old(self).edit_wf(),
        ensures
            final(self).edit_wf(),
            Self::right_post(*old(self), *final(self)),
    {
        let (v, k) = self.cursor_chars();
        proof {
            lemma_byte_offset_full(v@);
            lemma_byte_offset_mono(v@, 0, v@.len() as int);
        }
        if k == v.len() {
            return;
        }
        proof {
            lemma_byte_offset_mono(v@, k + 1, v@.len() as int);
            lemma_char_index_at(v@, k + 1);
        }
        self.cursor_position = prefix_bytes(&v, k + 1);
    }

    /// Move the cursor to the start of the previous word.
    pub fn move_cursor_word_backward(&mut self)
        requires
            old(self).edit_wf(),
        ensures
            final(self).edit_wf(),
            Self::word_back_post(*old(self), *final(self)),
    {
        let (v, k) = self.cursor_chars();
        let j = exec_word_start_before(&v, k);
        proof {
            lemma_byte_offset_mono(v@, j as int, v@.len() as int);
            lemma_byte_offset_full(v@);
            lemma_char_index_at(v@, j as int);
        }
        self.cursor_position = prefix_bytes(&v, j);
    }

    /// Move the cursor past the current word and the whitespace after it.
    pub fn move_cursor_word_forward(&mut self)
        requires
            old(self).edit_wf(),
        ensures
            final(self).edit_wf(),
            Self::word_fwd_post(*old(self), *final(self)),
    {
        let (v, k) = self.cursor_chars();
        let j = exec_word_end_after(&v, k);
        proof {
            lemma_byte_offset_mono(v@, j as int, v@.len() as int);
            lemma_byte_offset_full(v@);
            lemma_char_index_at(v@, j as int);
        }
        self.cursor_position = prefix_bytes(&v, j);
    }

    /// Move the cursor to the start of the query.
    pub fn cursor_to_start(&mut self)
        requires
            old(self).edit_wf(),
        ensures
            final(self).edit_wf(),
            Self::home_post(*old(self), *final(self)),
    {
        self.cursor_position = 0;
        proof {
            lemma_char_index_at(self.query@, 0);
            assert(self.query@.take(0) =~= Seq::<char>::empty());
        }
    }

    /// Move the cursor to the end of the query.
    pub fn cursor_to_end(&mut self)
        requires
            old(self).edit_wf(),
        ensures
            final(self).edit_wf(),
            Self::end_post(*old(self), *final(self)),
    {
        proof {
            lemma_byte_offset_full(self.query@);
            lemma_char_index_at(self.query@, self.query@.len() as int);
        }
        self.cursor_position = str_byte_len(self.query.as_str());
    }

    // ── Editing ─────────────────────────────────────────────────────

    /// Delete the word before the cursor (and the whitespace between it and
    /// the cursor).
    pub fn delete_word_backward(&mut self)
        requires
            old(self).edit_wf(),
        ensures
            final(self).edit_wf(),
            Self::delete_word_post(*old(self), *final(self)),
    {
        let (v, k) = self.cursor_chars();
        let j = exec_word_start_before(&v, k);
        let r = splice_out(&v, j, k);
        proof {
            assert(v@ =~= v@.take(j as int) + v@.subrange(j as int, k as int) + v@.skip(k as int));
            lemma_byte_len_append(v@.take(j as int) + v@.subrange(j as int, k as int), v@.skip(k as int));
            lemma_byte_len_append(v@.take(j as int), v@.subrange(j as int, k as int));
            lemma_byte_len_append(v@.take(j as int), v@.skip(k as int));
            assert(r@.take(j as int) =~= v@.take(j as int));
        }
        self.set_query(r, j);
    }

    /// Insert `c` at the cursor and move the cursor after it.
    pub fn insert_char(&mut self, c: char)
        requires
            old(self).edit_wf(),
            byte_len(old(self).query@) + utf8_width(c) <= isize::MAX,
        ensures
            final(self).edit_wf(),
            Self::insert_post(*old(self), *final(self), c),
            final(self).cursor_position == old(self).cursor_position + utf8_width(c),
    {
        let (v, k) = self.cursor_chars();
        let r = splice_in(&v, k, c);
        proof {
            assert(v@ =~= v@.take(k as int) + v@.skip(k as int));
            lemma_byte_len_append(v@.take(k as int), v@.skip(k as int));
            lemma_byte_len_append(v@.take(k as int).push(c), v@.skip(k as int));
            lemma_byte_len_push(v@.take(k as int), c);
            assert(r@.take(k + 1) =~= v@.take(k as int).push(c));
        }
        let n = r.len();
        assert(k < n);
        self.set_query(r, k + 1);
    }

    /// Delete the character before the cursor (nothing at the start).
    pub fn backspace(&mut self)
        requires
            old(self).edit_wf(),
        ensures
            final(self).edit_wf(),
            Self::backspace_post(*old(self), *final(self)),
    {
        let (v, k) = self.cursor_chars();
        if k == 0 {
            return;
        }
        let r = splice_out(&v, k - 1, k);
        proof {
            let j = k - 1;
            assert(v@ =~= v@.take(j as int) + v@.subrange(j as int, k as int) + v@.skip(k as int));
            lemma_byte_len_append(v@.take(j as int) + v@.subrange(j as int, k as int), v@.skip(k as int));
            lemma_byte_len_append(v@.take(j as int), v@.subrange(j as int, k as int));
            lemma_byte_len_append(v@.take(j as int), v@.skip(k as int));
            assert(r@.take(j as int) =~= v@.take(j as int));
        }
        self.set_query(r, k - 1);
    }

    /// Delete the character under the cursor (nothing at the end).
    pub fn delete_forward(&mut self)
        requires
            old(self).edit_wf(),
        ensures
            final(self).edit_wf(),
            Self::delete_forward_post(*old(self), *final(self)),
    {
        let (v, k) = self.cursor_chars();
        if k == v.len() {
            return;
        }
        let r = splice_out(&v, k, k + 1);
        proof {
            let j = k + 1;
            assert(v@ =~= v@.take(k as int) + v@.subrange(k as int, j as int) + v@.skip(j as int));
            lemma_byte_len_append(v@.take(k as int) + v@.subrange(k as int, j as int), v@.skip(j as int));
            lemma_byte_len_append(v@.take(k as int), v@.subrange(k as int, j as int));
            lemma_byte_len_append(v@.take(k as int), v@.skip(j as int));
            assert(r@.take(k as int) =~= v@.take(k as int));
        }
        self.set_query(r, k);
    }

    /// Delete everything from the cursor to the end of the query.
    pub fn kill_to_end(&mut self)
        requires
            old(self).edit_wf(),
        ensures
            final(self).edit_wf(),
            Self::kill_post(*old(self), *final(self)),
    {
        let (v, k) = self.cursor_chars();
        if k == v.len() {
            return;
        }
        let r = splice_out(&v, k, v.len());
        proof {
            assert(v@ =~= v@.take(k as int) + v@.skip(k as int));
            lemma_byte_len_append(v@.take(k as int), v@.skip(k as int));
            assert(v@.skip(v@.len() as int) =~= Seq::<char>::empty());
            assert(r@ =~= v@.take(k as int));
            assert(r@.take(k as int) =~= r@);
        }
        self.set_query(r, k);
    }

    /// Empty the query.
    pub fn clear_query(&mut self)
        requires
            old(self).edit_wf(),
        ensures
            final(self).edit_wf(),
            Self::clear_post(*old(self), *final(self)),
    {
        let v: Vec<char> = Vec::new();
        proof {
            assert(v@ =~= Seq::<char>::empty());
        }
        self.set_query(v, 0);
    }

    // ── Result list navigation ──────────────────────────────────────

    /// The scroll offset leaves room for a full page below it, and the
    /// selected row has a successor index.
    pub open spec fn scroll_wf(&self) -> bool {
        &&& self.scroll_offset + visible_count(self.terminal_height) <= usize::MAX
        &&& self.selected < usize::MAX
    }

    /// Number of result rows on screen: the terminal height minus the input
    /// bar (3), the status bar (1) and the list borders (2), at least 1.
    pub fn results_visible_count(&self) -> (n: usize)
        ensures
            n == visible_count(self.terminal_height),
    {
        visible_rows(self.terminal_height)
    }

    /// `new` is `old` with the scroll offset moved so that the selected row
    /// is on screen.
    pub open spec fn visible_post(old: App, new: App) -> bool {
        new == (App {
            scroll_offset: scrolled(
                old.selected as int,
                old.scroll_offset as int,
                visible_count(old.terminal_height),
            ) as usize,
            ..old
        })
    }

    /// Scroll so that the selected row is on screen.
    pub fn ensure_visible(&mut self)
        requires
            old(self).scroll_wf(),
        ensures
            Self::visible_post(*old(self), *final(self)),
            final(self).scroll_wf(),
            final(self).scroll_offset <= final(self).selected < final(self).scroll_offset
                + visible_count(final(self).terminal_height),
    {
        let visible = self.results_visible_count();
        if self.selected < self.scroll_offset {
            self.scroll_offset = self.selected;
        } else if self.selected >= self.scroll_offset + visible {
            self.scroll_offset = self.selected.saturating_sub(visible - 1);
        }
    }

    /// The selection moved by `delta` rows (clamped to the list) and
    /// scrolled into view; nothing happens on an empty list.
    pub open spec fn move_selection_post(old: App, new: App, delta: int) -> bool {
        if old.results.len() == 0 {
            new == old
        } else {
            let s = stepped_selection(old.selected as int, delta, old.results.len() as int);
            new == (App {
                selected: s as usize,
                scroll_offset: scrolled(
                    s,
                    old.scroll_offset as int,
                    visible_count(old.terminal_height),
                ) as usize,
                ..old
            })
        }
    }

    /// Move the selection by `delta` rows.
    pub fn move_selection(&mut self, delta: isize)
        requires
            old(self).scroll_wf(),
        ensures
            Self::move_selection_post(*old(self), *final(self), delta as int),
            final(self).scroll_wf(),
    {
        self.move_selection_raw(delta);
    }

    /// Move the selection by `delta` rows.
    pub fn move_selection_raw(&mut self, delta: isize)
        requires
            old(self).scroll_wf(),
        ensures
            Self::move_selection_post(*old(self), *final(self), delta as int),
            final(self).scroll_wf(),
    {
        if self.results.len() == 0 {
            return;
        }
        let new = if delta < 0 {
            let magnitude: usize = ((-(delta + 1)) as usize) + 1;
            self.selected.saturating_sub(magnitude)
        } else {
            let t = self.selected.saturating_add(delta as usize);
            let last = self.results.len() - 1;
            if t < last {
                t
            } else {
                last
            }
        };
        self.selected = new;
        self.ensure_visible();
    }

    /// Move the selection by `pages` screens.
    pub fn move_selection_page(&mut self, pages: isize)
        requires
            old(self).scroll_wf(),
            isize::MIN <= pages * visible_count(old(self).terminal_height) <= isize::MAX,
        ensures
            Self::move_selection_post(
                *old(self),
                *final(self),
                pages * visible_count(old(self).terminal_height),
            ),
            final(self).scroll_wf(),
    {
        let page_size = self.results_visible_count() as isize;
        self.move_selection_raw(pages * page_size);
    }

    /// Select the first row.
    pub fn select_first(&mut self)
        ensures
            *final(self) == (App { selected: 0, scroll_offset: 0, ..*old(self) }),
            final(self).scroll_wf(),
    {
        self.selected = 0;
        self.scroll_offset = 0;
    }

    /// Select the last row (nothing on an empty list).
    pub fn select_last(&mut self)
        requires
            old(self).scroll_wf(),
        ensures
            old(self).results.len() == 0 ==> *final(self) == *old(self),
            old(self).results.len() > 0 ==> Self::visible_post(
                App { selected: (old(self).results.len() - 1) as usize, ..*old(self) },
                *final(self),
            ),
            final(self).scroll_wf(),
    {
        if self.results.len() > 0 {
            self.selected = self.results.len() - 1;
            self.ensure_visible();
        }
    }

    /// Record a new terminal size and keep the selection on screen.
    pub fn resize(&mut self, width: u16, height: u16)
        requires
            old(self).scroll_offset + visible_count(height) <= usize::MAX,
            old(self).selected < usize::MAX,
        ensures
            Self::visible_post(
                App { terminal_width: width, terminal_height: height, ..*old(self) },
                *final(self),
            ),
            final(self).scroll_wf(),
    {
        self.terminal_width = width;
        self.terminal_height = height;
        self.ensure_visible();
    }

    // ── Multi-select ────────────────────────────────────────────────

    /// The selected row is added to the multi-selection, or removed from it
    /// when a result with the same key is already there.
    pub open spec fn toggle_post(old: App, new: App) -> bool {
        if old.selected < old.results.len() {
            let r = old.results@[old.selected as int]@;
            let items = views(old.selected_items@);
            let p = first_key_index(items, spec_selection_key(r), 0);
            &&& views(new.selected_items@) == if p >= 0 {
                items.remove(p)
            } else {
                items.push(r)
            }
            &&& new == (App { selected_items: new.selected_items, ..old })
        } else {
            new == old
        }
    }

    /// Add or remove the selected row from the multi-selection.
    pub fn toggle_selection(&mut self)
        ensures
            Self::toggle_post(*old(self), *final(self)),
    {
        if self.selected < self.results.len() {
            let key = selection_key(&self.results[self.selected]);
            match find_key(&self.selected_items, &key) {
                Some(pos) => {
                    proof {
                        crate::picker::lemma_first_key_index(views(self.selected_items@), key@, 0);
                    }
                    let ghost before = self.selected_items@;
                    self.selected_items.remove(pos);
                    proof {
                        assert(views(self.selected_items@) =~= views(before).remove(pos as int));
                    }
                },
                None => {
                    let r = self.results[self.selected].duplicate();
                    let ghost before = self.selected_items@;
                    self.selected_items.push(r);
                    proof {
                        assert(views(self.selected_items@) =~= views(before).push(r@));
                    }
                },
            }
        }
    }

    /// Add every result whose key is not yet selected, in list order.
    pub fn select_all_visible(&mut self)
        ensures
            views(final(self).selected_items@) == add_missing(
                views(old(self).selected_items@),
                views(old(self).results@),
            ),
            *final(self) == (App { selected_items: final(self).selected_items, ..*old(self) }),
    {
        let ghost rs = views(self.results@);
        let ghost start = views(self.selected_items@);
        let mut i: usize = 0;
        while i < self.results.len()
            invariant
                i <= self.results.len(),
                rs == views(self.results@),
                views(self.selected_items@) == add_missing(start, rs.take(i as int)),
                *self == (App { selected_items: self.selected_items, ..*old(self) }),
            decreases self.results.len() - i,
        {
            let key = selection_key(&self.results[i]);
            proof {
                assert(rs.take(i + 1).drop_last() =~= rs.take(i as int));
                assert(rs.take(i + 1).last() == rs[i as int]);
            }
            match find_key(&self.selected_items, &key) {
                Some(_) => {},
                None => {
                    let r = self.results[i].duplicate();
                    let ghost before = self.selected_items@;
                    self.selected_items.push(r);
                    proof {
                        assert(views(self.selected_items@) =~= views(before).push(r@));
                    }
                },
            }
            i = i + 1;
        }
        proof {
            assert(rs.take(self.results@.len() as int) =~= rs);
        }
    }

    /// Empty the multi-selection.
    pub fn deselect_all(&mut self)
        ensures
            final(self).selected_items@.len() == 0,
            *final(self) == (App { selected_items: final(self).selected_items, ..*old(self) }),
    {
        self.selected_items.clear();
    }

    /// The rows that a confirmed pick returns: the multi-selection when it is
    /// not empty, otherwise the selected row (none when it is out of range);
    /// nothing when the pick was not confirmed.
    pub fn final_selection(&self) -> (r: Option<Vec<UnifiedResult>>)
        ensures
            !self.should_select ==> r is None,
            self.should_select && self.selected_items@.len() > 0 ==> (r matches Some(v) && views(
                v@,
            ) == views(self.selected_items@)),
            self.should_select && self.selected_items@.len() == 0 && self.selected
                < self.results@.len() ==> (r matches Some(v) && views(v@) == seq![
                self.results@[self.selected as int]@,
            ]),
            self.should_select && self.selected_items@.len() == 0 && self.selected
                >= self.results@.len() ==> r is None,
    {
        if !self.should_select {
            return None;
        }
        if self.selected_items.len() == 0 {
            if self.selected < self.results.len() {
                let mut v: Vec<UnifiedResult> = Vec::new();
                v.push(self.results[self.selected].duplicate());
                proof {
                    assert(views(v@) =~= seq![self.results@[self.selected as int]@]);
                }
                Some(v)
            } else {
                None
            }
        } else {
            let mut v: Vec<UnifiedResult> = Vec::new();
            let mut i: usize = 0;
            while i < self.selected_items.len()
                invariant
                    i <= self.selected_items.len(),
                    views(v@) == views(self.selected_items@).take(i as int),
                decreases self.selected_items.len() - i,
            {
                let ghost before = v@;
                let d = self.selected_items[i].duplicate();
                v.push(d);
                proof {
                    assert(views(v@) =~= views(before).push(d@));
                    assert(views(self.selected_items@).take(i + 1) =~= views(
                        self.selected_items@,
                    ).take(i as int).push(d@));
                }
                i = i + 1;
            }
            proof {
                assert(views(self.selected_items@).take(self.selected_items@.len() as int)
                    =~= views(self.selected_items@));
            }
            Some(v)
        }
    }

    // ── Search toggles ──────────────────────────────────────────────

    /// Cycle the grep mode: plain -> regex -> fuzzy -> plain.
    pub fn cycle_grep_mode(&mut self)
        ensures
            *final(self) == (App { search_mode: cycled_grep_mode(old(self).search_mode), ..*old(self) }),
    {
        if self.search_mode.regex {
            self.search_mode.regex = false;
            self.search_mode.fuzzy = true;
        } else if self.search_mode.fuzzy {
            self.search_mode.fuzzy = false;
        } else {
            self.search_mode.regex = true;
        }
    }

    /// Cycle the scope: files -> unified -> grep -> files.
    pub fn cycle_scope(&mut self)
        ensures
            *final(self) == (App { search_scope: next_scope(old(self).search_scope), ..*old(self) }),
    {
        self.search_scope = match self.search_scope {
            SearchScope::FileOnly => SearchScope::Unified,
            SearchScope::Unified => SearchScope::GrepOnly,
            SearchScope::GrepOnly => SearchScope::FileOnly,
        };
    }

    /// Flip case sensitivity.
    pub fn toggle_case_sensitive(&mut self)
        ensures
            *final(self) == (App {
                search_mode: SearchMode {
                    case_sensitive: !old(self).search_mode.case_sensitive,
                    ..old(self).search_mode
                },
                ..*old(self)
            }),
    {
        self.search_mode.case_sensitive = !self.search_mode.case_sensitive;
    }

    /// Flip grouping of grep results by file.
    pub fn toggle_group_grep(&mut self)
        ensures
            *final(self) == (App {
                search_mode: SearchMode {
                    group_grep: !old(self).search_mode.group_grep,
                    ..old(self).search_mode
                },
                ..*old(self)
            }),
    {
        self.search_mode.group_grep = !self.search_mode.group_grep;
    }

    /// Flip regex mode; turning it on turns fixed-strings mode off.
    pub fn toggle_regex(&mut self)
        ensures
            *final(self) == (App { search_mode: regex_toggled(old(self).search_mode), ..*old(self) }),
    {
        self.search_mode.regex = !self.search_mode.regex;
        if self.search_mode.regex {
            self.search_mode.fixed_strings = false;
        }
    }

    /// Flip fixed-strings mode; turning it on turns regex mode off.
    pub fn toggle_fixed_strings(&mut self)
        ensures
            *final(self) == (App {
                search_mode: fixed_strings_toggled(old(self).search_mode),
                ..*old(self)
            }),
    {
        self.search_mode.fixed_strings = !self.search_mode.fixed_strings;
        if self.search_mode.fixed_strings {
            self.search_mode.regex = false;
        }
    }

    // ── Query history ───────────────────────────────────────────────

    /// Offset into the query history after a step of `delta` (older for a
    /// negative step, newer otherwise, never below 0).
    pub open spec fn history_target(offset: usize, delta: int) -> int {
        if delta < 0 {
            offset + 1
        } else if offset == 0 {
            0
        } else {
            offset - 1
        }
    }

    /// Stepping newer past the newest entry clears the query and the history
    /// boost; any other step asks for the history entry at the new offset
    /// (from the grep history in grep scope) and changes nothing yet.
    pub open spec fn history_post(old: App, new: App, delta: int, step: HistoryStep) -> bool {
        let target = Self::history_target(old.query_history_offset, delta);
        if target == old.query_history_offset && delta > 0 {
            &&& step == HistoryStep::Reset
            &&& Self::edited(
                App { force_combo_boost: false, ..old },
                new,
                Seq::<char>::empty(),
                0,
            )
        } else {
            &&& step == (HistoryStep::Lookup {
                offset: target as usize,
                grep: old.search_scope == SearchScope::GrepOnly,
            })
            &&& new == old
        }
    }

    /// First half of a step through the query history.
    pub fn begin_history_cycle(&mut self, delta: isize) -> (step: HistoryStep)
        requires
            old(self).edit_wf(),
            delta < 0 ==> old(self).query_history_offset < usize::MAX,
        ensures
            Self::history_post(*old(self), *final(self), delta as int, step),
            final(self).edit_wf(),
    {
        let is_grep = self.search_scope == SearchScope::GrepOnly;
        let new_offset = if delta < 0 {
            self.query_history_offset + 1
        } else {
            self.query_history_offset.saturating_sub(1)
        };
        if new_offset == self.query_history_offset && delta > 0 {
            self.force_combo_boost = false;
            self.clear_query();
            return HistoryStep::Reset;
        }
        HistoryStep::Lookup { offset: new_offset, grep: is_grep }
    }

    /// Second half of a step through the query history: a found entry
    /// becomes the query, with the cursor at its end, the history boost on
    /// and the history offset at `offset`; the result tells whether the
    /// search must be refreshed.
    pub fn finish_history_cycle(&mut self, offset: usize, found: Option<String>) -> (refresh: bool)
        requires
            old(self).edit_wf(),
            found matches Some(q) ==> byte_len(q@) <= isize::MAX,
        ensures
            final(self).edit_wf(),
            found is None ==> !refresh && *final(self) == *old(self),
            found matches Some(q) ==> refresh && Self::edited(
                App { force_combo_boost: true, query_history_offset: offset, ..*old(self) },
                *final(self),
                q@,
                q@.len() as int,
            ),
    {
        match found {
            Some(q) => {
                proof {
                    lemma_byte_offset_full(q@);
                    lemma_char_index_at(q@, q@.len() as int);
                }
                self.cursor_position = str_byte_len(q.as_str());
                self.query = q;
                self.force_combo_boost = true;
                self.query_history_offset = offset;
                true
            },
            None => false,
        }
    }

    // ── Start-up ────────────────────────────────────────────────────

    /// Start with `q` as the query and the cursor at its end.
    pub fn set_initial_query(&mut self, q: String)
        requires
            byte_len(q@) <= isize::MAX,
        ensures
            *final(self) == (App {
                query: final(self).query,
                cursor_position: final(self).cursor_position,
                ..*old(self)
            }),
            final(self).query@ == q@,
            final(self).cursor_position == byte_len(q@),
            final(self).edit_wf(),
    {
        let n = str_byte_len(q.as_str());
        proof {
            lemma_byte_offset_full(q@);
            lemma_char_index_at(q@, q@.len() as int);
        }
        self.query = q;
        self.cursor_position = n;
    }

    /// With exit-on-single set, a non-empty query whose first search gave
    /// exactly one result is answered at once, without the interface.
    pub fn exits_on_single(&self) -> (r: bool)
        ensures
            r == (self.exit_on_single && self.query@.len() > 0 && self.results@.len() == 1),
    {
        self.exit_on_single && !self.query.as_str().is_empty() && self.results.len() == 1
    }

    // ── Search results ──────────────────────────────────────────────

    /// Whether the search should be re-run on the periodic timer: while the
    /// scan runs, or while an empty query still shows no results.
    pub fn needs_refresh(&self, is_scanning: bool) -> (r: bool)
        ensures
            r == (is_scanning || (self.query@.len() == 0 && self.results@.len() == 0)),
    {
        is_scanning || (self.query.as_str().is_empty() && self.results.len() == 0)
    }

    /// Install the output of a fresh search: the selection and scroll go back
    /// to the top.
    pub fn apply_refresh(&mut self, output: SearchOutput, total_files: usize)
        requires
            output.fuzzy_total_matched + output.grep_page_matched <= usize::MAX,
        ensures
            *final(self) == (App {
                selected: 0,
                scroll_offset: 0,
                results: output.results,
                total_matched: (output.fuzzy_total_matched + output.grep_page_matched) as usize,
                highlight_query: output.highlight_query,
                total_files: total_files,
                ..*old(self)
            }),
    {
        self.selected = 0;
        self.scroll_offset = 0;
        self.results = output.results;
        self.total_matched = output.fuzzy_total_matched + output.grep_page_matched;
        self.highlight_query = output.highlight_query;
        self.total_files = total_files;
    }

    /// Install the output of a background search when it answers the current
    /// query: the selection is clamped to the new list and kept on screen.
    /// An output for an older query is dropped.
    pub fn apply_background_output(&mut self, query: &String, output: SearchOutput)
        requires
            old(self).scroll_wf(),
            output.fuzzy_total_matched + output.grep_page_matched <= usize::MAX,
        ensures
            query@ != old(self).query@ ==> *final(self) == *old(self),
            query@ == old(self).query@ ==> Self::visible_post(
                App {
                    results: output.results,
                    total_matched: (output.fuzzy_total_matched + output.grep_page_matched) as usize,
                    highlight_query: output.highlight_query,
                    selected: if output.results@.len() > 0 && old(self).selected
                        >= output.results@.len() {
                        (output.results@.len() - 1) as usize
                    } else {
                        old(self).selected
                    },
                    ..*old(self)
                },
                *final(self),
            ),
            final(self).scroll_wf(),
    {
        if self.query == *query {
            self.results = output.results;
            self.total_matched = output.fuzzy_total_matched + output.grep_page_matched;
            self.highlight_query = output.highlight_query;
            if self.results.len() > 0 && self.selected >= self.results.len() {
                self.selected = self.results.len() - 1;
            }
            self.ensure_visible();
        }
    }

    /// Advance the spinner animation by one frame.
    pub fn tick_spinner(&mut self)
        requires
            old(self).spinner_frame < usize::MAX,
        ensures
            *final(self) == (App { spinner_frame: (old(self).spinner_frame + 1) as usize, ..*old(self) }),
    {
        self.spinner_frame = self.spinner_frame + 1;
    }

    // ── Key handling ────────────────────────────────────────────────

    /// The cursor is at the end of the query.
    pub fn cursor_at_end(&self) -> (r: bool)
        requires
            self.edit_wf(),
        ensures
            r == (self.cursor_index() == self.query@.len()),
    {
        let (v, k) = self.cursor_chars();
        k == v.len()
    }

    /// The cursor is at the start of the query.
    pub fn cursor_at_start(&self) -> (r: bool)
        requires
            self.edit_wf(),
        ensures
            r == (self.cursor_index() == 0),
    {
        let (_v, k) = self.cursor_chars();
        k == 0
    }

    /// State unchanged, nothing to do.
    pub open spec fn idle(old: App, new: App, out: KeyOutcome) -> bool {
        new == old && out == KeyOutcome::Idle
    }

    /// The effect of one key press: the new state and what the caller must do.
    pub open spec fn key_post(old: App, new: App, key: KeyInput, out: KeyOutcome) -> bool {
        let m = key.modifiers;
        let k = old.cursor_index();
        let len = old.query@.len();
        match key.code {
            Key::Char(c) => if m.control && !m.alt {
                if c == 'c' {
                    new == (App { should_quit: true, ..old }) && out == KeyOutcome::Idle
                } else if c == 'n' {
                    Self::move_selection_post(old, new, 1) && out == KeyOutcome::Idle
                } else if c == 'p' {
                    Self::move_selection_post(old, new, -1) && out == KeyOutcome::Idle
                } else if c == 'a' {
                    Self::home_post(old, new) && out == KeyOutcome::Idle
                } else if c == 'e' {
                    Self::end_post(old, new) && out == KeyOutcome::Idle
                } else if c == 'd' {
                    if k < len {
                        Self::delete_forward_post(old, new) && out == KeyOutcome::Refresh
                    } else {
                        Self::idle(old, new, out)
                    }
                } else if c == 'k' {
                    if k < len {
                        Self::kill_post(old, new) && out == KeyOutcome::Refresh
                    } else {
                        Self::idle(old, new, out)
                    }
                } else if c == 'w' {
                    Self::delete_word_post(old, new) && out == KeyOutcome::Refresh
                } else if c == 'u' || c == 'l' {
                    Self::clear_post(old, new) && out == KeyOutcome::Refresh
                } else if c == 't' {
                    new == (App { search_scope: next_scope(old.search_scope), ..old }) && out
                        == KeyOutcome::Refresh
                } else if c == 'g' {
                    new == (App {
                        search_mode: SearchMode {
                            group_grep: !old.search_mode.group_grep,
                            ..old.search_mode
                        },
                        ..old
                    }) && out == KeyOutcome::Refresh
                } else {
                    Self::idle(old, new, out)
                }
            } else if m.alt {
                let l = ascii_lower(c);
                if l == 'c' {
                    new == (App {
                        search_mode: SearchMode {
                            case_sensitive: !old.search_mode.case_sensitive,
                            ..old.search_mode
                        },
                        ..old
                    }) && out == KeyOutcome::Refresh
                } else if l == 'w' {
                    Self::delete_word_post(old, new) && out == KeyOutcome::Refresh
                } else if l == 'r' {
                    new == (App { search_mode: regex_toggled(old.search_mode), ..old }) && out
                        == KeyOutcome::Refresh
                } else if l == 'f' {
                    new == (App { search_mode: fixed_strings_toggled(old.search_mode), ..old })
                        && out == KeyOutcome::Refresh
                } else if l == 'b' {
                    Self::word_back_post(old, new) && out == KeyOutcome::Idle
                } else {
                    Self::idle(old, new, out)
                }
            } else {
                Self::insert_post(old, new, c) && out == KeyOutcome::Refresh
            },
            Key::Backspace => if m.super_key {
                Self::clear_post(old, new) && out == KeyOutcome::Refresh
            } else if m.alt || m.control {
                Self::delete_word_post(old, new) && out == KeyOutcome::Refresh
            } else if k > 0 {
                Self::backspace_post(old, new) && out == KeyOutcome::Refresh
            } else {
                Self::idle(old, new, out)
            },
            Key::Delete => if m.super_key {
                Self::clear_post(old, new) && out == KeyOutcome::Refresh
            } else if m.alt || m.control {
                Self::delete_word_post(old, new) && out == KeyOutcome::Refresh
            } else if k < len {
                Self::delete_forward_post(old, new) && out == KeyOutcome::Refresh
            } else {
                Self::idle(old, new, out)
            },
            Key::Enter => if old.results.len() > 0 {
                new == (App { should_select: true, ..old }) && out == KeyOutcome::Idle
            } else {
                Self::idle(old, new, out)
            },
            Key::Tab => Self::toggle_post(old, new) && out == KeyOutcome::Idle,
            Key::Esc => new == (App { should_quit: true, ..old }) && out == KeyOutcome::Idle,
            Key::Up => if m.alt {
                exists|step: HistoryStep|
                    #![trigger Self::history_post(old, new, -1, step)]
                    Self::history_post(old, new, -1, step) && out == outcome_of(step)
            } else {
                Self::move_selection_post(old, new, -1) && out == KeyOutcome::Idle
            },
            Key::Down => if m.alt {
                exists|step: HistoryStep|
                    #![trigger Self::history_post(old, new, 1, step)]
                    Self::history_post(old, new, 1, step) && out == outcome_of(step)
            } else {
                Self::move_selection_post(old, new, 1) && out == KeyOutcome::Idle
            },
            Key::BackTab => new == (App { search_mode: cycled_grep_mode(old.search_mode), ..old })
                && out == KeyOutcome::Refresh,
            Key::PageUp => Self::move_selection_post(
                old,
                new,
                -visible_count(old.terminal_height),
            ) && out == KeyOutcome::Idle,
            Key::PageDown => Self::move_selection_post(
                old,
                new,
                visible_count(old.terminal_height),
            ) && out == KeyOutcome::Idle,
            Key::Left => (if m.alt {
                Self::word_back_post(old, new)
            } else if m.super_key {
                Self::home_post(old, new)
            } else {
                Self::left_post(old, new)
            }) && out == KeyOutcome::Idle,
            Key::Right => (if m.alt {
                Self::word_fwd_post(old, new)
            } else if m.super_key {
                Self::end_post(old, new)
            } else {
                Self::right_post(old, new)
            }) && out == KeyOutcome::Idle,
            Key::Home => (if m.control {
                new == (App { selected: 0, scroll_offset: 0, ..old })
            } else {
                Self::home_post(old, new)
            }) && out == KeyOutcome::Idle,
            Key::End => (if m.control {
                if old.results.len() > 0 {
                    Self::visible_post(
                        App { selected: (old.results.len() - 1) as usize, ..old },
                        new,
                    )
                } else {
                    new == old
                }
            } else {
                Self::end_post(old, new)
            }) && out == KeyOutcome::Idle,
            Key::Other => Self::idle(old, new, out),
        }
    }

    /// Apply one key press. Whatever the key, the cursor stays on a
    /// character boundary of the query (`edit_wf`) and the scroll window
    /// stays in range; the preconditions only rule out the query, scroll
    /// offset or history offset reaching the integer limits.
    pub fn handle_key(&mut self, key: KeyInput) -> (out: KeyOutcome)
        requires
            old(self).edit_wf(),
            old(self).scroll_wf(),
            byte_len(old(self).query@) + 4 <= isize::MAX,
            old(self).query_history_offset < usize::MAX,
        ensures
            Self::key_post(*old(self), *final(self), key, out),
            final(self).edit_wf(),
            final(self).scroll_wf(),
    {
        let m = key.modifiers;
        match key.code {
            Key::Char(c) => {
                if m.control && !m.alt {
                    if c == 'c' {
                        self.should_quit = true;
                        KeyOutcome::Idle
                    } else if c == 'n' {
                        self.move_selection(1);
                        KeyOutcome::Idle
                    } else if c == 'p' {
                        self.move_selection(-1);
                        KeyOutcome::Idle
                    } else if c == 'a' {
                        self.cursor_to_start();
                        KeyOutcome::Idle
                    } else if c == 'e' {
                        self.cursor_to_end();
                        KeyOutcome::Idle
                    } else if c == 'd' {
                        if !self.cursor_at_end() {
                            self.delete_forward();
                            KeyOutcome::Refresh
                        } else {
                            KeyOutcome::Idle
                        }
                    } else if c == 'k' {
                        if !self.cursor_at_end() {
                            self.kill_to_end();
                            KeyOutcome::Refresh
                        } else {
                            KeyOutcome::Idle
                        }
                    } else if c == 'w' {
                        self.delete_word_backward();
                        KeyOutcome::Refresh
                    } else if c == 'u' || c == 'l' {
                        self.clear_query();
                        KeyOutcome::Refresh
                    } else if c == 't' {
                        self.cycle_scope();
                        KeyOutcome::Refresh
                    } else if c == 'g' {
                        self.toggle_group_grep();
                        KeyOutcome::Refresh
                    } else {
                        KeyOutcome::Idle
                    }
                } else if m.alt {
                    let l = to_ascii_lower(c);
                    if l == 'c' {
                        self.toggle_case_sensitive();
                        KeyOutcome::Refresh
                    } else if l == 'w' {
                        self.delete_word_backward();
                        KeyOutcome::Refresh
                    } else if l == 'r' {
                        self.toggle_regex();
                        KeyOutcome::Refresh
                    } else if l == 'f' {
                        self.toggle_fixed_strings();
                        KeyOutcome::Refresh
                    } else if l == 'b' {
                        self.move_cursor_word_backward();
                        KeyOutcome::Idle
                    } else {
                        KeyOutcome::Idle
                    }
                } else {
                    proof {
                        crate::text::lemma_utf8_width_bounds(c);
                    }
                    self.insert_char(c);
                    KeyOutcome::Refresh
                }
            },
            Key::Backspace => {
                if m.super_key {
                    self.clear_query();
                    KeyOutcome::Refresh
                } else if m.alt || m.control {
                    self.delete_word_backward();
                    KeyOutcome::Refresh
                } else if !self.cursor_at_start() {
                    self.backspace();
                    KeyOutcome::Refresh
                } else {
                    KeyOutcome::Idle
                }
            },
            Key::Delete => {
                if m.super_key {
                    self.clear_query();
                    KeyOutcome::Refresh
                } else if m.alt || m.control {
                    self.delete_word_backward();
                    KeyOutcome::Refresh
                } else if !self.cursor_at_end() {
                    self.delete_forward();
                    KeyOutcome::Refresh
                } else {
                    KeyOutcome::Idle
                }
            },
            Key::Enter => {
                if self.results.len() > 0 {
                    self.should_select = true;
                }
                KeyOutcome::Idle
            },
            Key::Tab => {
                self.toggle_selection();
                KeyOutcome::Idle
            },
            Key::Esc => {
                self.should_quit = true;
                KeyOutcome::Idle
            },
            Key::Up => {
                if m.alt {
                    let step = self.begin_history_cycle(-1);
                    outcome_for(step)
                } else {
                    self.move_selection(-1);
                    KeyOutcome::Idle
                }
            },
            Key::Down => {
                if m.alt {
                    let step = self.begin_history_cycle(1);
                    outcome_for(step)
                } else {
                    self.move_selection(1);
                    KeyOutcome::Idle
                }
            },
            Key::BackTab => {
                self.cycle_grep_mode();
                KeyOutcome::Refresh
            },
            Key::PageUp => {
                self.move_selection_page(-1);
                KeyOutcome::Idle
            },
            Key::PageDown => {
                self.move_selection_page(1);
                KeyOutcome::Idle
            },
            Key::Left => {
                if m.alt {
                    self.move_cursor_word_backward();
                } else if m.super_key {
                    self.cursor_to_start();
                } else {
                    self.move_cursor_left();
                }
                KeyOutcome::Idle
            },
            Key::Right => {
                if m.alt {
                    self.move_cursor_word_forward();
                } else if m.super_key {
                    self.cursor_to_end();
                } else {
                    self.move_cursor_right();
                }
                KeyOutcome::Idle
            },
            Key::Home => {
                if m.control {
                    self.select_first();
                } else {
                    self.cursor_to_start();
                }
                KeyOutcome::Idle
            },
            Key::End => {
                if m.control {
                    self.select_last();
                } else {
                    self.cursor_to_end();
                }
                KeyOutcome::Idle
            },
            Key::Other => KeyOutcome::Idle,
        }
    }
}

/// A key, as far as the picker tells keys apart.
#[derive(Clone, Copy, Debug, PartialEq, Eq, Structural)]
pub enum Key {
    Char(char),
    Backspace,
    Delete,
    Enter,
    Tab,
    BackTab,
    Esc,
    Up,
    Down,
    PageUp,
    PageDown,
    Left,
    Right,
    Home,
    End,
    Other,
}

/// Modifier keys held during a key press.
#[derive(Clone, Copy, Debug, PartialEq, Eq, Structural)]
pub struct KeyMods {
    pub control: bool,
    pub alt: bool,
    pub super_key: bool,
    pub shift: bool,
}

/// A key press.
#[derive(Clone, Copy, Debug, PartialEq, Eq, Structural)]
pub struct KeyInput {
    pub code: Key,
    pub modifiers: KeyMods,
}

/// What the caller must do after a key press.
#[derive(Clone, Copy, Debug, PartialEq, Eq, Structural)]
pub enum KeyOutcome {
    /// Nothing more.
    Idle,
    /// Re-run the search for the new query or mode.
    Refresh,
    /// Look up a history entry, then call `finish_history_cycle`.
    HistoryLookup { offset: usize, grep: bool },
}

/// The key outcome of a history step.
pub open spec fn outcome_of(step: HistoryStep) -> KeyOutcome {
    match step {
        HistoryStep::Reset => KeyOutcome::Refresh,
        HistoryStep::Lookup { offset, grep } => KeyOutcome::HistoryLookup { offset, grep },
    }
}

fn outcome_for(step: HistoryStep) -> (out: KeyOutcome)
    ensures
        out == outcome_of(step),
{
    match step {
        HistoryStep::Reset => KeyOutcome::Refresh,
        HistoryStep::Lookup { offset, grep } => KeyOutcome::HistoryLookup { offset, grep },
    }
}

/// ASCII lower-casing of a character (other characters unchanged).
pub open spec fn ascii_lower(c: char) -> char {
    if 'A' <= c && c <= 'Z' {
        ((c as u32) + 32) as char
    } else {
        c
    }
}

fn to_ascii_lower(c: char) -> (r: char)
    ensures
        r == ascii_lower(c),
{
    if 'A' <= c && c <= 'Z' {
        ((c as u8) + 32) as char
    } else {
        c
    }
}

/// What a step through the query history asks of the backend.
#[derive(Clone, Copy, Debug, PartialEq, Eq, Structural)]
pub enum HistoryStep {
    /// The query was cleared; refresh the search.
    Reset,
    /// Look up the history entry at `offset` (grep history when `grep`).
    Lookup { offset: usize, grep: bool },
}

/// Grep mode after one step of the plain -> regex -> fuzzy cycle.
pub open spec fn cycled_grep_mode(m: SearchMode) -> SearchMode {
    if m.regex {
        SearchMode { regex: false, fuzzy: true, ..m }
    } else if m.fuzzy {
        SearchMode { fuzzy: false, ..m }
    } else {
        SearchMode { regex: true, ..m }
    }
}

/// Scope after one step of the files -> unified -> grep cycle.
pub open spec fn next_scope(s: SearchScope) -> SearchScope {
    match s {
        SearchScope::FileOnly => SearchScope::Unified,
        SearchScope::Unified => SearchScope::GrepOnly,
        SearchScope::GrepOnly => SearchScope::FileOnly,
    }
}

/// Regex flipped; fixed strings off when regex turns on.
pub open spec fn regex_toggled(m: SearchMode) -> SearchMode {
    if !m.regex {
        SearchMode { regex: true, fixed_strings: false, ..m }
    } else {
        SearchMode { regex: false, ..m }
    }
}

/// Fixed strings flipped; regex off when fixed strings turn on.
pub open spec fn fixed_strings_toggled(m: SearchMode) -> SearchMode {
    if !m.fixed_strings {
        SearchMode { fixed_strings: true, regex: false, ..m }
    } else {
        SearchMode { fixed_strings: false, ..m }
    }
}

/// `items` followed by each result of `rs`, in order, whose key is not
/// already present.
pub open spec fn add_missing(items: Seq<ResultView>, rs: Seq<ResultView>) -> Seq<ResultView>
    decreases rs.len(),
{
    if rs.len() == 0 {
        items
    } else {
        let acc = add_missing(items, rs.drop_last());
        if first_key_index(acc, spec_selection_key(rs.last()), 0) >= 0 {
            acc
        } else {
            acc.push(rs.last())
        }
    }
}

/// Number of result rows on screen for a terminal `height` rows high.
pub fn visible_rows(height: u16) -> (n: usize)
    ensures
        n == visible_count(height),
{
    let h = if height > 6 {
        height - 6
    } else {
        0
    };
    if h > 1 {
        h as usize
    } else {
        1
    }
}

/// Number of result rows on screen for a terminal of height `h`.
pub open spec fn visible_count(h: u16) -> int {
    if h <= 7 {
        1
    } else {
        h - 6
    }
}

/// Scroll offset after bringing row `sel` into a window of `vis` rows that
/// starts at `scroll`.
pub open spec fn scrolled(sel: int, scroll: int, vis: int) -> int {
    if sel < scroll {
        sel
    } else if sel >= scroll + vis {
        sel - (vis - 1)
    } else {
        scroll
    }
}

/// Row reached from `sel` by moving `delta` rows in a list of `len` rows:
/// up stops at the first row, down at the last.
pub open spec fn stepped_selection(sel: int, delta: int, len: int) -> int {
    if delta < 0 {
        if sel + delta < 0 {
            0
        } else {
            sel + delta
        }
    } else {
        let t = if sel + delta > usize::MAX {
            usize::MAX as int
        } else {
            sel + delta
        };
        if t < len - 1 {
            t
        } else {
            len - 1
        }
    }
}

} // verus!
