//! Properties that relate several operations of the picker state.
use vstd::prelude::*;
use crate::text::{byte_offset, byte_len, lemma_char_index_at, is_char_boundary_of};
use crate::app::{
    App, cycled_grep_mode, next_scope, regex_toggled, fixed_strings_toggled, word_start_before,
    visible_count, stepped_selection, scrolled,
};
use crate::picker::{
    SearchMode, SearchScope, ResultView, views, unique_keys, first_key_index, spec_selection_key,
    lemma_first_key_index,
};
use crate::app::{add_missing, Key, KeyInput, KeyMods, KeyOutcome};

verus! {

broadcast use vstd::seq_lib::group_seq_properties;

/// Inserting a character and then deleting the character before the cursor
/// gives back the query and the cursor position, and nothing else changed.
pub proof fn law_backspace_undoes_insert(a: App, b: App, c: App, ch: char)
    requires
        a.edit_wf(),
        App::insert_post(a, b, ch),
        App::backspace_post(b, c),
    ensures
        c.query@ == a.query@,
        c.cursor_position == a.cursor_position,
        c == (App { query: c.query, ..a }),
{
    let q = a.query@;
    let k = a.cursor_index();
    let q2 = q.take(k).push(ch) + q.skip(k);
    lemma_char_index_at(q2, k + 1);
    assert(b.cursor_index() == k + 1);
    assert(q2.take(k) + q2.skip(k + 1) =~= q);
    assert(q.take(k) =~= q2.take(k));
    lemma_char_index_at(q, k);
}

/// Moving right and then left returns to the same position, unless the
/// cursor started at the end of the query.
pub proof fn law_left_undoes_right(a: App, b: App, c: App)
    requires
        a.edit_wf(),
        a.cursor_index() < a.query@.len(),
        App::right_post(a, b),
        App::left_post(b, c),
    ensures
        c.query@ == a.query@,
        c.cursor_position == a.cursor_position,
        c == (App { query: c.query, ..a }),
{
    let q = a.query@;
    let k = a.cursor_index();
    lemma_char_index_at(q, k + 1);
    lemma_char_index_at(q, k);
}

/// Moving left and then right returns to the same position, unless the
/// cursor started at the start of the query.
pub proof fn law_right_undoes_left(a: App, b: App, c: App)
    requires
        a.edit_wf(),
        a.cursor_index() > 0,
        App::left_post(a, b),
        App::right_post(b, c),
    ensures
        c.query@ == a.query@,
        c.cursor_position == a.cursor_position,
        c == (App { query: c.query, ..a }),
{
    let q = a.query@;
    let k = a.cursor_index();
    lemma_char_index_at(q, k - 1);
    lemma_char_index_at(q, k);
}

/// Deleting a word backward removes exactly the text that a word-backward
/// cursor motion moves over, and leaves the cursor where that motion would.
pub proof fn law_delete_word_is_word_motion(a: App, b: App, c: App)
    requires
        a.edit_wf(),
        App::delete_word_post(a, b),
        App::word_back_post(a, c),
    ensures
        b.cursor_position == c.cursor_position,
        b.query@ == a.query@.take(c.cursor_index()) + a.query@.skip(a.cursor_index()),
{
    let q = a.query@;
    let j = word_start_before(q, a.cursor_index());
    lemma_char_index_at(q, j);
    let q2 = q.take(j) + q.skip(a.cursor_index());
    assert(q2.take(j) =~= q.take(j));
}

/// Three steps of the grep-mode cycle come back to the starting mode, for
/// every mode that is not both regex and fuzzy at once.
pub proof fn law_grep_mode_cycle_returns(m: SearchMode)
    requires
        !(m.regex && m.fuzzy),
    ensures
        cycled_grep_mode(cycled_grep_mode(cycled_grep_mode(m))) == m,
{
}

/// Three steps of the scope cycle come back to the starting scope.
pub proof fn law_scope_cycle_returns(s: SearchScope)
    ensures
        next_scope(next_scope(next_scope(s))) == s,
{
}

/// Toggling regex or fixed strings never leaves both on.
pub proof fn law_regex_fixed_exclusive(m: SearchMode)
    requires
        !(m.regex && m.fixed_strings),
    ensures
        !(regex_toggled(m).regex && regex_toggled(m).fixed_strings),
        !(fixed_strings_toggled(m).regex && fixed_strings_toggled(m).fixed_strings),
{
}

/// A selection move on a non-empty list keeps a valid selection valid and on
/// screen.
pub proof fn law_move_keeps_selection_visible(a: App, b: App, delta: int)
    requires
        a.results.len() > 0,
        a.selected < a.results.len(),
        App::move_selection_post(a, b, delta),
    ensures
        b.selected < b.results.len(),
        b.scroll_offset <= b.selected < b.scroll_offset + visible_count(b.terminal_height),
{
}

/// Bringing the selection on screen twice is the same as doing it once.
pub proof fn law_ensure_visible_idempotent(a: App, b: App, c: App)
    requires
        App::visible_post(a, b),
        App::visible_post(b, c),
    ensures
        c == b,
{
}

/// A key is found exactly when some item carries it.
proof fn lemma_key_present(items: Seq<ResultView>, key: Seq<char>, j: int)
    requires
        0 <= j < items.len(),
        spec_selection_key(items[j]) == key,
    ensures
        first_key_index(items, key, 0) >= 0,
{
    lemma_first_key_index(items, key, 0);
}

/// Toggling a row keeps the multi-selection free of duplicate keys.
pub proof fn law_toggle_keeps_keys_unique(a: App, b: App)
    requires
        App::toggle_post(a, b),
        unique_keys(views(a.selected_items@)),
    ensures
        unique_keys(views(b.selected_items@)),
{
    if a.selected < a.results.len() {
        let items = views(a.selected_items@);
        let r = a.results@[a.selected as int]@;
        let key = spec_selection_key(r);
        lemma_first_key_index(items, key, 0);
        let p = first_key_index(items, key, 0);
        let nb = views(b.selected_items@);
        if p >= 0 {
            assert forall|i: int, j: int| 0 <= i < j < nb.len() implies spec_selection_key(
                #[trigger] nb[i],
            ) != spec_selection_key(#[trigger] nb[j]) by {
                let i2 = if i < p {
                    i
                } else {
                    i + 1
                };
                let j2 = if j < p {
                    j
                } else {
                    j + 1
                };
                assert(nb[i] == items[i2]);
                assert(nb[j] == items[j2]);
            }
        } else {
            assert forall|i: int, j: int| 0 <= i < j < nb.len() implies spec_selection_key(
                #[trigger] nb[i],
            ) != spec_selection_key(#[trigger] nb[j]) by {
                if j == items.len() {
                    assert(nb[i] == items[i]);
                } else {
                    assert(nb[i] == items[i]);
                    assert(nb[j] == items[j]);
                }
            }
        }
    }
}

/// Toggling a row that is not in the multi-selection twice gives back the
/// multi-selection it started from.
pub proof fn law_toggle_twice_restores(a: App, b: App, c: App)
    requires
        a.selected < a.results.len(),
        first_key_index(
            views(a.selected_items@),
            spec_selection_key(a.results@[a.selected as int]@),
            0,
        ) == -1,
        App::toggle_post(a, b),
        App::toggle_post(b, c),
    ensures
        views(c.selected_items@) == views(a.selected_items@),
        c == (App { selected_items: c.selected_items, ..a }),
{
    let items = views(a.selected_items@);
    let r = a.results@[a.selected as int]@;
    let key = spec_selection_key(r);
    lemma_first_key_index(items, key, 0);
    let nb = views(b.selected_items@);
    assert(nb == items.push(r));
    lemma_first_key_index(nb, key, 0);
    assert(nb[items.len() as int] == r);
    assert forall|j: int| 0 <= j < items.len() implies spec_selection_key(#[trigger] nb[j])
        != key by {
        assert(nb[j] == items[j]);
    }
    assert(first_key_index(nb, key, 0) == items.len());
    assert(nb.remove(items.len() as int) =~= items);
}

/// Adding all results keeps keys unique and leaves every result's key in
/// the multi-selection.
pub proof fn law_select_all_covers_results(items: Seq<ResultView>, rs: Seq<ResultView>)
    requires
        unique_keys(items),
    ensures
        unique_keys(add_missing(items, rs)),
        forall|j: int|
            0 <= j < rs.len() ==> first_key_index(
                add_missing(items, rs),
                spec_selection_key(#[trigger] rs[j]),
                0,
            ) >= 0,
    decreases rs.len(),
{
    if rs.len() > 0 {
        let prev = rs.drop_last();
        law_select_all_covers_results(items, prev);
        let acc = add_missing(items, prev);
        let x = rs.last();
        let kx = spec_selection_key(x);
        lemma_first_key_index(acc, kx, 0);
        let res = add_missing(items, rs);
        if first_key_index(acc, kx, 0) >= 0 {
            assert(res == acc);
            assert forall|j: int| 0 <= j < rs.len() implies first_key_index(
                res,
                spec_selection_key(#[trigger] rs[j]),
                0,
            ) >= 0 by {
                if j < prev.len() {
                    assert(rs[j] == prev[j]);
                }
            }
        } else {
            assert(res == acc.push(x));
            assert forall|i: int, j: int| 0 <= i < j < res.len() implies spec_selection_key(
                #[trigger] res[i],
            ) != spec_selection_key(#[trigger] res[j]) by {
                assert(res[i] == acc[i]);
                if j < acc.len() {
                    assert(res[j] == acc[j]);
                }
            }
            assert forall|j: int| 0 <= j < rs.len() implies first_key_index(
                res,
                spec_selection_key(#[trigger] rs[j]),
                0,
            ) >= 0 by {
                if j < prev.len() {
                    assert(rs[j] == prev[j]);
                    let kj = spec_selection_key(rs[j]);
                    lemma_first_key_index(acc, kj, 0);
                    let p = first_key_index(acc, kj, 0);
                    assert(res[p] == acc[p]);
                    lemma_key_present(res, kj, p);
                } else {
                    assert(res[acc.len() as int] == x);
                    lemma_key_present(res, kx, acc.len() as int);
                }
            }
        }
    }
}

/// The multi-select keys held by `items`.
pub open spec fn key_set(items: Seq<ResultView>) -> Set<Seq<char>> {
    Set::new(|k: Seq<char>| exists|i: int| 0 <= i < items.len() && spec_selection_key(#[trigger] items[i]) == k)
}

/// Toggling the selected row of a multi-selection without duplicate keys
/// adds its key when it was absent and removes it when it was present;
/// every other key stays.
pub proof fn law_toggle_flips_key(a: App, b: App)
    requires
        a.selected < a.results.len(),
        unique_keys(views(a.selected_items@)),
        App::toggle_post(a, b),
    ensures
        ({
            let k = spec_selection_key(a.results@[a.selected as int]@);
            let before = key_set(views(a.selected_items@));
            key_set(views(b.selected_items@)) == if before.contains(k) {
                before.remove(k)
            } else {
                before.insert(k)
            }
        }),
{
    let items = views(a.selected_items@);
    let r = a.results@[a.selected as int]@;
    let k = spec_selection_key(r);
    lemma_first_key_index(items, k, 0);
    let p = first_key_index(items, k, 0);
    let nb = views(b.selected_items@);
    let before = key_set(items);
    if p >= 0 {
        assert(before.contains(k)) by {
            assert(spec_selection_key(items[p]) == k);
        }
        assert forall|x: Seq<char>| #[trigger] key_set(nb).contains(x) <==> before.remove(k).contains(x) by {
            if key_set(nb).contains(x) {
                let i = choose|i: int| 0 <= i < nb.len() && spec_selection_key(#[trigger] nb[i]) == x;
                let i2 = if i < p { i } else { i + 1 };
                assert(nb[i] == items[i2]);
                assert(i2 != p);
                assert(x != k) by {
                    if i2 < p {
                        assert(spec_selection_key(items[i2]) != spec_selection_key(items[p]));
                    } else {
                        assert(spec_selection_key(items[p]) != spec_selection_key(items[i2]));
                    }
                }
                assert(before.contains(x));
            }
            if before.remove(k).contains(x) {
                let j = choose|j: int| 0 <= j < items.len() && spec_selection_key(#[trigger] items[j]) == x;
                assert(j != p);
                let j2 = if j < p { j } else { j - 1 };
                assert(nb[j2] == items[j]);
                assert(key_set(nb).contains(x));
            }
        }
        assert(key_set(nb) =~= before.remove(k));
    } else {
        assert(!before.contains(k)) by {
            if before.contains(k) {
                let j = choose|j: int| 0 <= j < items.len() && spec_selection_key(#[trigger] items[j]) == k;
                assert(spec_selection_key(items[j]) != k);
            }
        }
        assert(nb == items.push(r));
        assert forall|x: Seq<char>| #[trigger] key_set(nb).contains(x) <==> before.insert(k).contains(x) by {
            if key_set(nb).contains(x) {
                let i = choose|i: int| 0 <= i < nb.len() && spec_selection_key(#[trigger] nb[i]) == x;
                if i < items.len() {
                    assert(nb[i] == items[i]);
                }
            }
            if before.insert(k).contains(x) {
                if x == k {
                    assert(nb[items.len() as int] == r);
                } else {
                    let j = choose|j: int| 0 <= j < items.len() && spec_selection_key(#[trigger] items[j]) == x;
                    assert(nb[j] == items[j]);
                }
            }
        }
        assert(key_set(nb) =~= before.insert(k));
    }
}

/// Toggling the selected row twice gives back the keys of the
/// multi-selection it started from, whether or not the row was marked.
pub proof fn law_toggle_twice_restores_keys(a: App, b: App, c: App)
    requires
        a.selected < a.results.len(),
        unique_keys(views(a.selected_items@)),
        App::toggle_post(a, b),
        App::toggle_post(b, c),
    ensures
        key_set(views(c.selected_items@)) == key_set(views(a.selected_items@)),
        c == (App { selected_items: c.selected_items, ..a }),
{
    law_toggle_flips_key(a, b);
    law_toggle_keeps_keys_unique(a, b);
    law_toggle_flips_key(b, c);
    let k = spec_selection_key(a.results@[a.selected as int]@);
    let sa = key_set(views(a.selected_items@));
    if sa.contains(k) {
        assert(sa.remove(k).insert(k) =~= sa);
    } else {
        assert(sa.insert(k).remove(k) =~= sa);
    }
}

/// Ctrl+P (without Alt) moves the selection up one row when there is a row
/// above it; only the selection and the scroll window change, and the
/// caller has nothing more to do.
pub proof fn law_ctrl_p_moves_up(a: App, b: App, m: KeyMods, out: KeyOutcome)
    requires
        m.control,
        !m.alt,
        0 < a.selected < a.results.len(),
        App::key_post(a, b, (KeyInput { code: Key::Char('p'), modifiers: m }), out),
    ensures
        b.selected == a.selected - 1,
        b == (App { selected: b.selected, scroll_offset: b.scroll_offset, ..a }),
        out == KeyOutcome::Idle,
{
}

/// Ctrl+N (without Alt) moves the selection down one row when there is a
/// row below it; only the selection and the scroll window change.
pub proof fn law_ctrl_n_moves_down(a: App, b: App, m: KeyMods, out: KeyOutcome)
    requires
        m.control,
        !m.alt,
        a.selected + 1 < a.results.len(),
        App::key_post(a, b, (KeyInput { code: Key::Char('n'), modifiers: m }), out),
    ensures
        b.selected == a.selected + 1,
        b == (App { selected: b.selected, scroll_offset: b.scroll_offset, ..a }),
        out == KeyOutcome::Idle,
{
}

/// At the first row Ctrl+P keeps the selection there, and at the last row
/// Ctrl+N keeps it there.
pub proof fn law_ctrl_p_n_stop_at_ends(a: App, b: App, c: App, m: KeyMods, o1: KeyOutcome, o2: KeyOutcome)
    requires
        m.control,
        !m.alt,
        a.results.len() > 0,
        App::key_post(a, b, (KeyInput { code: Key::Char('p'), modifiers: m }), o1),
        App::key_post(a, c, (KeyInput { code: Key::Char('n'), modifiers: m }), o2),
    ensures
        a.selected == 0 ==> b.selected == 0,
        a.selected + 1 == a.results.len() ==> c.selected == a.selected,
{
}

/// Ctrl+N and Ctrl+P move in opposite directions: from a row with a row
/// below it, Ctrl+N then Ctrl+P comes back to the same row.
pub proof fn law_ctrl_p_undoes_ctrl_n(a: App, b: App, c: App, m: KeyMods, o1: KeyOutcome, o2: KeyOutcome)
    requires
        m.control,
        !m.alt,
        a.selected + 1 < a.results.len(),
        App::key_post(a, b, (KeyInput { code: Key::Char('n'), modifiers: m }), o1),
        App::key_post(b, c, (KeyInput { code: Key::Char('p'), modifiers: m }), o2),
    ensures
        c.selected == a.selected,
        c.results == a.results,
        c.query == a.query,
{
    law_ctrl_n_moves_down(a, b, m, o1);
    law_ctrl_p_moves_up(b, c, m, o2);
}

} // verus!
