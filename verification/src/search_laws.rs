//! Properties of the ordering and grouping of search results, and of the
//! fuzzy-match highlight.
use vstd::prelude::*;
use crate::picker::{MatchKind, ResultView};
use crate::assemble::{
    insert_by_score, sort_by_score, grouped, header_of, exact_only, keep_min_score, line_results,
    line_result, spec_assembled, file_results, file_result, FuzzyFile, GrepFile, GrepHit,
    spec_needs_grep,
};
use crate::picker::{SearchMode, SearchScope};
use crate::text::{
    byte_offset, byte_len, is_char_boundary_of, lemma_byte_offset_full, utf8_width, lemma_utf8_width_bounds, lemma_char_index_at, lemma_byte_offset_step,
    lemma_byte_offset_mono,
};
use crate::highlight::{
    find_from, greedy_positions, ranges_of, char_len_at, lemma_find_from, spec_match_indices,
    lower_all, lower_origin, dedup, lemma_lower_origin, lowercase,
};

verus! {

broadcast use vstd::seq_lib::group_seq_properties;

/// Scores never increase along `s`.
pub open spec fn by_score_desc(s: Seq<ResultView>) -> bool {
    forall|i: int, j: int| 0 <= i < j < s.len() ==> #[trigger] s[i].score >= #[trigger] s[j].score
}

/// The elements of `s` with score `v`, in order.
pub open spec fn with_score(s: Seq<ResultView>, v: i32) -> Seq<ResultView>
    decreases s.len(),
{
    if s.len() == 0 {
        s
    } else if s.last().score == v {
        with_score(s.drop_last(), v).push(s.last())
    } else {
        with_score(s.drop_last(), v)
    }
}

proof fn lemma_insert_floor(sorted: Seq<ResultView>, x: ResultView, m: int)
    requires
        forall|i: int| 0 <= i < sorted.len() ==> #[trigger] sorted[i].score >= m,
        x.score >= m,
    ensures
        insert_by_score(sorted, x).len() == sorted.len() + 1,
        forall|i: int|
            0 <= i < insert_by_score(sorted, x).len() ==> #[trigger] insert_by_score(sorted, x)[i].score
                >= m,
    decreases sorted.len(),
{
    if sorted.len() > 0 && sorted.last().score < x.score {
        let d = sorted.drop_last();
        lemma_insert_floor(d, x, m);
        let r = insert_by_score(d, x);
        assert forall|i: int| 0 <= i < r.push(sorted.last()).len() implies #[trigger] r.push(
            sorted.last(),
        )[i].score >= m by {
            if i < r.len() {
                assert(r.push(sorted.last())[i] == r[i]);
            }
        }
    }
}

proof fn lemma_insert_keeps_order(sorted: Seq<ResultView>, x: ResultView)
    requires
        by_score_desc(sorted),
    ensures
        by_score_desc(insert_by_score(sorted, x)),
        insert_by_score(sorted, x).to_multiset() =~= sorted.to_multiset().insert(x),
    decreases sorted.len(),
{
    broadcast use vstd::seq_lib::group_to_multiset_ensures;

    if sorted.len() == 0 {
        assert(seq![x] =~= sorted.push(x));
    } else if sorted.last().score >= x.score {
        let r = sorted.push(x);
        assert forall|i: int, j: int| 0 <= i < j < r.len() implies #[trigger] r[i].score
            >= #[trigger] r[j].score by {
            assert(r[i] == sorted[i]);
            if j < sorted.len() {
                assert(r[j] == sorted[j]);
            } else if i < sorted.len() - 1 {
                assert(sorted[i].score >= sorted[sorted.len() - 1].score);
            }
        }
    } else {
        let d = sorted.drop_last();
        let l = sorted.last();
        assert(by_score_desc(d)) by {
            assert forall|i: int, j: int| 0 <= i < j < d.len() implies #[trigger] d[i].score
                >= #[trigger] d[j].score by {
                assert(d[i] == sorted[i]);
                assert(d[j] == sorted[j]);
            }
        }
        lemma_insert_keeps_order(d, x);
        assert forall|i: int| 0 <= i < d.len() implies #[trigger] d[i].score >= l.score by {
            assert(d[i] == sorted[i]);
            assert(sorted[i].score >= sorted[sorted.len() - 1].score);
        }
        lemma_insert_floor(d, x, l.score as int);
        let r = insert_by_score(d, x);
        let out = r.push(l);
        assert forall|i: int, j: int| 0 <= i < j < out.len() implies #[trigger] out[i].score
            >= #[trigger] out[j].score by {
            assert(out[i] == r[i]);
            if j < r.len() {
                assert(out[j] == r[j]);
            }
        }
        assert(sorted =~= d.push(l));
    }
}

/// Sorting by score puts the results in descending order of score and keeps
/// every result, as often as it occurs.
pub proof fn law_sort_by_score_orders(s: Seq<ResultView>)
    ensures
        by_score_desc(sort_by_score(s)),
        sort_by_score(s).to_multiset() =~= s.to_multiset(),
    decreases s.len(),
{
    broadcast use vstd::seq_lib::group_to_multiset_ensures;

    if s.len() > 0 {
        law_sort_by_score_orders(s.drop_last());
        lemma_insert_keeps_order(sort_by_score(s.drop_last()), s.last());
        assert(s =~= s.drop_last().push(s.last()));
    }
}

proof fn lemma_insert_with_score(sorted: Seq<ResultView>, x: ResultView, v: i32)
    requires
        by_score_desc(sorted),
    ensures
        with_score(insert_by_score(sorted, x), v) == if x.score == v {
            with_score(sorted, v).push(x)
        } else {
            with_score(sorted, v)
        },
    decreases sorted.len(),
{
    if sorted.len() == 0 {
        assert(seq![x].drop_last() =~= sorted);
    } else if sorted.last().score >= x.score {
        assert(sorted.push(x).drop_last() =~= sorted);
    } else {
        let d = sorted.drop_last();
        let l = sorted.last();
        assert(by_score_desc(d)) by {
            assert forall|i: int, j: int| 0 <= i < j < d.len() implies #[trigger] d[i].score
                >= #[trigger] d[j].score by {
                assert(d[i] == sorted[i]);
                assert(d[j] == sorted[j]);
            }
        }
        lemma_insert_with_score(d, x, v);
        let r = insert_by_score(d, x);
        assert(r.push(l).drop_last() =~= r);
    }
}

/// Sorting by score keeps results of equal score in the order they came in.
pub proof fn law_sort_by_score_is_stable(s: Seq<ResultView>, v: i32)
    ensures
        with_score(sort_by_score(s), v) == with_score(s, v),
    decreases s.len(),
{
    if s.len() > 0 {
        let d = s.drop_last();
        law_sort_by_score_is_stable(d, v);
        law_sort_by_score_orders(d);
        lemma_insert_with_score(sort_by_score(d), s.last(), v);
    }
}

/// `s` without its file headers.
pub open spec fn without_headers(s: Seq<ResultView>) -> Seq<ResultView>
    decreases s.len(),
{
    if s.len() == 0 {
        s
    } else if s.last().kind == MatchKind::FileHeader {
        without_headers(s.drop_last())
    } else {
        without_headers(s.drop_last()).push(s.last())
    }
}

/// `s` holds no file header.
pub open spec fn no_headers(s: Seq<ResultView>) -> bool {
    forall|i: int| 0 <= i < s.len() ==> (#[trigger] s[i]).kind != MatchKind::FileHeader
}

proof fn lemma_grouped_last(lines: Seq<ResultView>)
    requires
        lines.len() > 0,
    ensures
        grouped(lines).len() > 0,
        grouped(lines).last() == lines.last(),
{
}

/// Grouping only adds file headers: taking them out again gives the line
/// matches as they were, in order.
pub proof fn law_grouping_only_adds_headers(lines: Seq<ResultView>)
    requires
        no_headers(lines),
    ensures
        without_headers(grouped(lines)) == lines,
    decreases lines.len(),
{
    if lines.len() > 0 {
        let d = lines.drop_last();
        let r = lines.last();
        assert(no_headers(d)) by {
            assert forall|i: int| 0 <= i < d.len() implies (#[trigger] d[i]).kind != MatchKind::FileHeader by {
                assert(d[i] == lines[i]);
            }
        }
        law_grouping_only_adds_headers(d);
        let g = grouped(d);
        assert(r.kind != MatchKind::FileHeader) by {
            assert(lines[lines.len() - 1] == r);
        }
        assert(d.push(r) =~= lines);
        if lines.len() >= 2 && lines[lines.len() - 2].relative_path == r.relative_path {
            assert(grouped(lines) == g.push(r));
            assert(g.push(r).drop_last() =~= g);
            assert(without_headers(g.push(r)) == without_headers(g).push(r));
        } else {
            let gh = g.push(header_of(r));
            assert(grouped(lines) == gh.push(r));
            assert(gh.push(r).drop_last() =~= gh);
            assert(gh.drop_last() =~= g);
            assert(without_headers(gh.push(r)) == without_headers(gh).push(r));
            assert(without_headers(gh) == without_headers(g));
        }
    }
}

/// Every file header of `g` is followed by a line match of its own file,
/// and two adjacent line matches of `g` are from the same file.
pub open spec fn headers_lead(g: Seq<ResultView>) -> bool {
    &&& g.len() > 0 ==> g.last().kind != MatchKind::FileHeader
    &&& forall|i: int, j: int|
        #![trigger g[i], g[j]]
        0 <= i && j == i + 1 && j < g.len() && g[i].kind == MatchKind::FileHeader ==> g[j].kind
            != MatchKind::FileHeader && g[j].relative_path == g[i].relative_path
    &&& forall|i: int, j: int|
        #![trigger g[i], g[j]]
        0 <= i && j == i + 1 && j < g.len() && g[i].kind != MatchKind::FileHeader && g[j].kind
            != MatchKind::FileHeader ==> g[i].relative_path == g[j].relative_path
}

proof fn lemma_headers_lead_push_same(g: Seq<ResultView>, r: ResultView)
    requires
        headers_lead(g),
        g.len() > 0,
        g.last().kind != MatchKind::FileHeader,
        g.last().relative_path == r.relative_path,
        r.kind != MatchKind::FileHeader,
    ensures
        headers_lead(g.push(r)),
{
    let ng = g.push(r);
    assert forall|i: int, j: int|
        #![trigger ng[i], ng[j]]
        0 <= i && j == i + 1 && j < ng.len() && ng[i].kind == MatchKind::FileHeader implies ng[j].kind
            != MatchKind::FileHeader && ng[j].relative_path == ng[i].relative_path by {
        assert(ng[i] == g[i]);
        if j < g.len() {
            assert(ng[j] == g[j]);
        }
    }
    assert forall|i: int, j: int|
        #![trigger ng[i], ng[j]]
        0 <= i && j == i + 1 && j < ng.len() && ng[i].kind != MatchKind::FileHeader && ng[j].kind
            != MatchKind::FileHeader implies ng[i].relative_path == ng[j].relative_path by {
        assert(ng[i] == g[i]);
        if j < g.len() {
            assert(ng[j] == g[j]);
        }
    }
}

proof fn lemma_headers_lead_push_new(g: Seq<ResultView>, r: ResultView)
    requires
        headers_lead(g),
        r.kind != MatchKind::FileHeader,
    ensures
        headers_lead(g.push(header_of(r)).push(r)),
{
    let gh = g.push(header_of(r));
    let ng = gh.push(r);
    assert forall|i: int, j: int|
        #![trigger ng[i], ng[j]]
        0 <= i && j == i + 1 && j < ng.len() && ng[i].kind == MatchKind::FileHeader implies ng[j].kind
            != MatchKind::FileHeader && ng[j].relative_path == ng[i].relative_path by {
        if i < g.len() {
            assert(ng[i] == g[i]);
            if j < g.len() {
                assert(ng[j] == g[j]);
            } else {
                assert(g[i] == g.last());
            }
        }
    }
    assert forall|i: int, j: int|
        #![trigger ng[i], ng[j]]
        0 <= i && j == i + 1 && j < ng.len() && ng[i].kind != MatchKind::FileHeader && ng[j].kind
            != MatchKind::FileHeader implies ng[i].relative_path == ng[j].relative_path by {
        assert(j != g.len() + 1);
        assert(j != g.len());
        assert(ng[i] == g[i]);
        assert(ng[j] == g[j]);
    }
}

/// In grouped results the first row is a file header, every file header is
/// followed by a line match of its own file, and two adjacent line matches
/// are from the same file.
pub proof fn law_grouped_headers_lead_their_files(lines: Seq<ResultView>)
    requires
        no_headers(lines),
    ensures
        lines.len() > 0 ==> grouped(lines)[0].kind == MatchKind::FileHeader,
        headers_lead(grouped(lines)),
    decreases lines.len(),
{
    if lines.len() > 0 {
        let d = lines.drop_last();
        let r = lines.last();
        assert(no_headers(d)) by {
            assert forall|i: int| 0 <= i < d.len() implies (#[trigger] d[i]).kind != MatchKind::FileHeader by {
                assert(d[i] == lines[i]);
            }
        }
        law_grouped_headers_lead_their_files(d);
        let g = grouped(d);
        assert(r.kind != MatchKind::FileHeader) by {
            assert(lines[lines.len() - 1] == r);
        }
        if lines.len() >= 2 && lines[lines.len() - 2].relative_path == r.relative_path {
            lemma_grouped_last(d);
            assert(d.last() == lines[lines.len() - 2]);
            lemma_headers_lead_push_same(g, r);
            assert(grouped(lines) == g.push(r));
            assert(g.push(r)[0] == g[0]);
        } else {
            lemma_headers_lead_push_new(g, r);
            assert(grouped(lines) == g.push(header_of(r)).push(r));
            if g.len() > 0 {
                assert(g.push(header_of(r)).push(r)[0] == g[0]);
            }
        }
    }
}

// ── Kinds of results ────────────────────────────────────────────────

/// Every result of `s` is a file match.
pub open spec fn all_files(s: Seq<ResultView>) -> bool {
    forall|i: int| 0 <= i < s.len() ==> (#[trigger] s[i]).kind == MatchKind::File
}

/// No result of `s` is a file match.
pub open spec fn no_files(s: Seq<ResultView>) -> bool {
    forall|i: int| 0 <= i < s.len() ==> (#[trigger] s[i]).kind != MatchKind::File
}

proof fn lemma_concat_files(a: Seq<ResultView>, b: Seq<ResultView>)
    ensures
        all_files(a) && all_files(b) ==> all_files(a + b),
        no_files(a) && no_files(b) ==> no_files(a + b),
{
    assert forall|i: int| 0 <= i < (a + b).len() implies (#[trigger] (a + b)[i]) == if i < a.len() {
        a[i]
    } else {
        b[i - a.len()]
    } by {}
}

proof fn lemma_exact_only_files(s: Seq<ResultView>, e: bool)
    requires
        all_files(s),
    ensures
        all_files(exact_only(s, e)),
    decreases s.len(),
{
    if s.len() > 0 {
        let d = s.drop_last();
        assert forall|i: int| 0 <= i < d.len() implies (#[trigger] d[i]).kind == MatchKind::File by {
            assert(d[i] == s[i]);
        }
        lemma_exact_only_files(d, e);
        assert(s[s.len() - 1] == s.last());
    }
}

proof fn lemma_keep_min_files(s: Seq<ResultView>, m: int)
    requires
        all_files(s),
    ensures
        all_files(keep_min_score(s, m)),
    decreases s.len(),
{
    if s.len() > 0 {
        let d = s.drop_last();
        assert forall|i: int| 0 <= i < d.len() implies (#[trigger] d[i]).kind == MatchKind::File by {
            assert(d[i] == s[i]);
        }
        lemma_keep_min_files(d, m);
        assert(s[s.len() - 1] == s.last());
    }
}

proof fn lemma_sort_files(s: Seq<ResultView>)
    requires
        all_files(s),
    ensures
        all_files(sort_by_score(s)),
{
    broadcast use vstd::seq_lib::group_to_multiset_ensures;

    law_sort_by_score_orders(s);
    let t = sort_by_score(s);
    assert forall|i: int| 0 <= i < t.len() implies (#[trigger] t[i]).kind == MatchKind::File by {
        let x = t[i];
        assert(t.contains(x));
        assert(t.to_multiset().count(x) > 0);
        assert(s.to_multiset().count(x) > 0);
        assert(s.contains(x));
        let j = choose|j: int| 0 <= j < s.len() && s[j] == x;
        assert(s[j].kind == MatchKind::File);
    }
}

proof fn lemma_line_results_kind(files: Seq<GrepFile>, hits: Seq<GrepHit>)
    ensures
        forall|i: int|
            0 <= i < line_results(files, hits).len() ==> (#[trigger] line_results(files, hits)[i]).kind
                == MatchKind::Line,
    decreases hits.len(),
{
    if hits.len() > 0 {
        lemma_line_results_kind(files, hits.drop_last());
    }
}

proof fn lemma_grouped_no_files(lines: Seq<ResultView>)
    requires
        forall|i: int| 0 <= i < lines.len() ==> (#[trigger] lines[i]).kind == MatchKind::Line,
    ensures
        no_files(grouped(lines)),
    decreases lines.len(),
{
    if lines.len() > 0 {
        let d = lines.drop_last();
        assert forall|i: int| 0 <= i < d.len() implies (#[trigger] d[i]).kind == MatchKind::Line by {
            assert(d[i] == lines[i]);
        }
        lemma_grouped_no_files(d);
        assert(lines[lines.len() - 1] == lines.last());
    }
}

/// What a search gives is made of file matches alone in file-only scope
/// and when the highlight query is empty, and holds no file match in
/// grep-only scope.
pub proof fn law_assembled_kinds(
    highlight: Seq<char>,
    fuzzy: Seq<FuzzyFile>,
    files: Seq<GrepFile>,
    hits: Seq<GrepHit>,
    scope: SearchScope,
    mode: SearchMode,
)
    ensures
        scope == SearchScope::FileOnly ==> all_files(
            spec_assembled(highlight, file_results(fuzzy), files, hits, scope, mode),
        ),
        highlight.len() == 0 ==> all_files(
            spec_assembled(highlight, file_results(fuzzy), files, hits, scope, mode),
        ),
        scope == SearchScope::GrepOnly ==> no_files(
            spec_assembled(highlight, file_results(fuzzy), files, hits, scope, mode),
        ),
{
    let fr = file_results(fuzzy);
    assert(all_files(fr));
    let e = Seq::<ResultView>::empty();
    assert(all_files(e) && no_files(e));
    let fz = if scope != SearchScope::GrepOnly { fr } else { e };
    let lines = if spec_needs_grep(scope, highlight) { line_results(files, hits) } else { e };
    lemma_line_results_kind(files, hits);
    let exact = sort_by_score(exact_only(fz, true));
    let other = sort_by_score(exact_only(fz, false));
    let other_kept = if scope == SearchScope::Unified && lines.len() > 0 {
        keep_min_score(other, crate::assemble::min_fuzzy_score(highlight) as int)
    } else {
        other
    };
    let middle = if mode.group_grep && lines.len() > 0 { grouped(lines) } else { lines };
    assert(spec_assembled(highlight, fr, files, hits, scope, mode) == exact + middle + other_kept);
    lemma_concat_files(exact, middle);
    lemma_concat_files(exact + middle, other_kept);
    if scope != SearchScope::GrepOnly {
        lemma_exact_only_files(fz, true);
        lemma_exact_only_files(fz, false);
        lemma_sort_files(exact_only(fz, true));
        lemma_sort_files(exact_only(fz, false));
        lemma_keep_min_files(other, crate::assemble::min_fuzzy_score(highlight) as int);
        assert(all_files(exact) && all_files(other_kept));
    } else {
        assert(exact_only(e, true) == e);
        assert(exact_only(e, false) == e);
        assert(sort_by_score(e) == e);
        assert(keep_min_score(e, crate::assemble::min_fuzzy_score(highlight) as int) == e);
        assert(no_files(exact) && no_files(other_kept));
        assert(no_files(lines));
        if mode.group_grep && lines.len() > 0 {
            lemma_grouped_no_files(lines);
        }
        assert(no_files(middle));
    }
    if !spec_needs_grep(scope, highlight) {
        assert(middle == e);
    }
}

proof fn lemma_no_line_results(files: Seq<GrepFile>, hits: Seq<GrepHit>)
    requires
        forall|i: int| 0 <= i < hits.len() ==> (#[trigger] hits[i]).file_index >= files.len(),
    ensures
        line_results(files, hits).len() == 0,
    decreases hits.len(),
{
    if hits.len() > 0 {
        let d = hits.drop_last();
        assert forall|i: int| 0 <= i < d.len() implies (#[trigger] d[i]).file_index
            >= files.len() by {
            assert(d[i] == hits[i]);
        }
        lemma_no_line_results(files, d);
        assert(hits[hits.len() - 1] == hits.last());
    }
}

proof fn lemma_exact_split(s: Seq<ResultView>)
    ensures
        exact_only(s, true).to_multiset().add(exact_only(s, false).to_multiset())
            =~= s.to_multiset(),
    decreases s.len(),
{
    broadcast use vstd::seq_lib::group_to_multiset_ensures;
    broadcast use vstd::multiset::group_multiset_axioms;

    if s.len() > 0 {
        lemma_exact_split(s.drop_last());
        assert(s =~= s.drop_last().push(s.last()));
    }
}

/// In unified scope, when the content search gives no line match (no hit
/// points into a known file), no file match is left out, whatever its
/// score: the results are the fuzzy file matches, each as often as it was
/// found.
pub proof fn law_unified_without_lines_keeps_files(
    highlight: Seq<char>,
    fuzzy: Seq<FuzzyFile>,
    files: Seq<GrepFile>,
    hits: Seq<GrepHit>,
    mode: SearchMode,
)
    requires
        forall|i: int| 0 <= i < hits.len() ==> (#[trigger] hits[i]).file_index >= files.len(),
    ensures
        spec_assembled(highlight, file_results(fuzzy), files, hits, SearchScope::Unified, mode).to_multiset()
            =~= file_results(fuzzy).to_multiset(),
        forall|i: int|
            0 <= i < fuzzy.len() ==> spec_assembled(
                highlight,
                file_results(fuzzy),
                files,
                hits,
                SearchScope::Unified,
                mode,
            ).contains(#[trigger] file_result(&fuzzy[i])),
{
    broadcast use vstd::seq_lib::group_to_multiset_ensures;
    broadcast use vstd::seq_lib::lemma_multiset_commutative;

    let fr = file_results(fuzzy);
    lemma_no_line_results(files, hits);
    let exact = sort_by_score(exact_only(fr, true));
    let other = sort_by_score(exact_only(fr, false));
    let out = spec_assembled(highlight, fr, files, hits, SearchScope::Unified, mode);
    assert(out =~= exact + other);
    law_sort_by_score_orders(exact_only(fr, true));
    law_sort_by_score_orders(exact_only(fr, false));
    lemma_exact_split(fr);
    assert(out.to_multiset() =~= fr.to_multiset());
    assert forall|i: int| 0 <= i < fuzzy.len() implies out.contains(
        #[trigger] file_result(&fuzzy[i]),
    ) by {
        assert(fr[i] == file_result(&fuzzy[i]));
        assert(fr.contains(fr[i]));
        assert(fr.to_multiset().count(fr[i]) > 0);
        assert(out.to_multiset().count(fr[i]) > 0);
    }
}

// ── Highlight ───────────────────────────────────────────────────────

/// `ps` are positions in `t`, from `from` on, strictly increasing, holding
/// the characters of `q` in turn.
pub open spec fn embeds(q: Seq<char>, t: Seq<char>, from: int, ps: Seq<int>) -> bool {
    &&& ps.len() == q.len()
    &&& forall|i: int| 0 <= i < ps.len() ==> from <= #[trigger] ps[i] < t.len() && t[ps[i]] == q[i]
    &&& forall|i: int, j: int| 0 <= i < j < ps.len() ==> #[trigger] ps[i] < #[trigger] ps[j]
}

/// What the greedy match finds is an embedding of the query: one position
/// per query character, in increasing order, each holding that character.
pub proof fn law_greedy_match_embeds(q: Seq<char>, t: Seq<char>, from: int)
    requires
        0 <= from,
    ensures
        greedy_positions(q, t, from) matches Some(ps) ==> embeds(q, t, from, ps),
    decreases q.len(),
{
    if q.len() > 0 {
        let j = find_from(t, q[0], from);
        lemma_find_from(t, q[0], from);
        if j >= 0 {
            law_greedy_match_embeds(q.drop_first(), t, j + 1);
            if let Some(rest) = greedy_positions(q.drop_first(), t, j + 1) {
                let ps = seq![j] + rest;
                assert forall|i: int| 0 <= i < ps.len() implies from <= #[trigger] ps[i] < t.len()
                    && t[ps[i]] == q[i] by {
                    if i > 0 {
                        assert(ps[i] == rest[i - 1]);
                        assert(q.drop_first()[i - 1] == q[i]);
                    }
                }
                assert forall|i: int, j2: int| 0 <= i < j2 < ps.len() implies #[trigger] ps[i]
                    < #[trigger] ps[j2] by {
                    assert(ps[j2] == rest[j2 - 1]);
                    if i > 0 {
                        assert(ps[i] == rest[i - 1]);
                    }
                }
            }
        }
    }
}

proof fn lemma_find_from_first(t: Seq<char>, c: char, from: int, k: int)
    requires
        0 <= from <= k < t.len(),
        t[k] == c,
    ensures
        from <= find_from(t, c, from) <= k,
    decreases k - from,
{
    if t[from] != c {
        lemma_find_from_first(t, c, from + 1, k);
    }
}

/// The greedy match misses no embedding: whenever the characters of the
/// query occur in order in the text, it finds them.
pub proof fn law_greedy_match_complete(q: Seq<char>, t: Seq<char>, from: int, ps: Seq<int>)
    requires
        0 <= from,
        embeds(q, t, from, ps),
    ensures
        greedy_positions(q, t, from) is Some,
    decreases q.len(),
{
    if q.len() > 0 {
        lemma_find_from_first(t, q[0], from, ps[0]);
        let j = find_from(t, q[0], from);
        let rest = ps.drop_first();
        assert forall|i: int| 0 <= i < rest.len() implies j + 1 <= #[trigger] rest[i] < t.len()
            && t[rest[i]] == q.drop_first()[i] by {
            assert(rest[i] == ps[i + 1]);
            assert(ps[0] < ps[i + 1]);
        }
        assert forall|i: int, k: int| 0 <= i < k < rest.len() implies #[trigger] rest[i]
            < #[trigger] rest[k] by {
            assert(rest[i] == ps[i + 1]);
            assert(rest[k] == ps[k + 1]);
        }
        law_greedy_match_complete(q.drop_first(), t, j + 1, rest);
    }
}

/// Ranges in text order, each non-empty, each ending before the next one
/// starts.
pub open spec fn ranges_apart(rs: Seq<(int, int)>) -> bool {
    &&& forall|i: int| 0 <= i < rs.len() ==> (#[trigger] rs[i]).0 < rs[i].1
    &&& forall|i: int, j: int| 0 <= i < j < rs.len() ==> (#[trigger] rs[i]).1 < (#[trigger] rs[j]).0
}

/// Each position starts at or past the end of the character at the one
/// before.
pub open spec fn spaced(ixs: Seq<int>, t: Seq<char>) -> bool {
    forall|k: int, m: int|
        #![trigger ixs[k], ixs[m]]
        0 <= k && m == k + 1 && m < ixs.len() ==> ixs[k] + char_len_at(t, ixs[k]) <= ixs[m]
}

proof fn lemma_char_len_at_positive(t: Seq<char>, b: int)
    ensures
        char_len_at(t, b) >= 1,
{
    let k = crate::text::char_index_at(t, b);
    if k < t.len() {
        lemma_utf8_width_bounds(t[k]);
    }
}

/// Merging spaced positions gives ranges that are apart, the last one
/// ending after the character at the last position.
pub proof fn law_merged_ranges_apart(ixs: Seq<int>, t: Seq<char>)
    requires
        spaced(ixs, t),
    ensures
        ranges_apart(ranges_of(ixs, t)),
        ixs.len() > 0 ==> ranges_of(ixs, t).len() > 0 && ranges_of(ixs, t).last().1 == ixs.last()
            + char_len_at(t, ixs.last()),
    decreases ixs.len(),
{
    if ixs.len() > 0 {
        let d = ixs.drop_last();
        assert(spaced(d, t)) by {
            assert forall|k: int, m: int|
                #![trigger d[k], d[m]]
                0 <= k && m == k + 1 && m < d.len() implies d[k] + char_len_at(t, d[k]) <= d[m] by {
                assert(d[k] == ixs[k]);
                assert(d[m] == ixs[m]);
            }
        }
        law_merged_ranges_apart(d, t);
        let r = ranges_of(d, t);
        let i = ixs.last();
        let w = char_len_at(t, i);
        lemma_char_len_at_positive(t, i);
        if r.len() > 0 && i == r.last().1 {
            let nr = r.update(r.len() - 1, (r.last().0, r.last().1 + w));
            assert forall|a: int| 0 <= a < nr.len() implies (#[trigger] nr[a]).0 < nr[a].1 by {
                if a < r.len() - 1 {
                    assert(nr[a] == r[a]);
                }
            }
            assert forall|a: int, b: int| 0 <= a < b < nr.len() implies (#[trigger] nr[a]).1
                < (#[trigger] nr[b]).0 by {
                assert(nr[a] == r[a]);
                assert(nr[b].0 == r[b].0);
            }
        } else if r.len() > 0 {
            let k = d.len() - 1;
            assert(ixs[k] == d.last());
            assert(ixs[k] + char_len_at(t, ixs[k]) <= ixs[k + 1]);
            let nr = r.push((i, i + w));
            assert forall|a: int| 0 <= a < nr.len() implies (#[trigger] nr[a]).0 < nr[a].1 by {
                if a < r.len() {
                    assert(nr[a] == r[a]);
                }
            }
            assert forall|a: int, b: int| 0 <= a < b < nr.len() implies (#[trigger] nr[a]).1
                < (#[trigger] nr[b]).0 by {
                assert(nr[a] == r[a]);
                if b < r.len() {
                    assert(nr[b] == r[b]);
                } else if a < r.len() - 1 {
                    assert(r[a].1 < r[r.len() - 1].0);
                }
            }
        } else {
            assert(d.len() == 0);
        }
    }
}

/// Byte offsets of strictly increasing character indices of `t` are spaced.
pub proof fn lemma_offsets_spaced(ks: Seq<int>, t: Seq<char>)
    requires
        forall|i: int| 0 <= i < ks.len() ==> 0 <= #[trigger] ks[i] < t.len(),
        forall|i: int, j: int| 0 <= i < j < ks.len() ==> #[trigger] ks[i] < #[trigger] ks[j],
    ensures
        spaced(ks.map_values(|k: int| byte_offset(t, k) as int), t),
{
    let bs = ks.map_values(|k: int| byte_offset(t, k) as int);
    assert forall|k: int, m: int|
        #![trigger bs[k], bs[m]]
        0 <= k && m == k + 1 && m < bs.len() implies bs[k] + char_len_at(t, bs[k]) <= bs[m] by {
        assert(ks[k] < ks[m]);
        lemma_char_index_at(t, ks[k]);
        lemma_byte_offset_step(t, ks[k]);
        lemma_byte_offset_mono(t, ks[k] + 1, ks[m]);
    }
}

proof fn lemma_dedup_increasing(s: Seq<int>, n: int)
    requires
        forall|i: int| 0 <= i < s.len() ==> 0 <= #[trigger] s[i] < n,
        forall|i: int, j: int| 0 <= i <= j < s.len() ==> #[trigger] s[i] <= #[trigger] s[j],
    ensures
        forall|i: int| 0 <= i < dedup(s).len() ==> 0 <= #[trigger] dedup(s)[i] < n,
        forall|i: int, j: int| 0 <= i < j < dedup(s).len() ==> #[trigger] dedup(s)[i] < #[trigger] dedup(s)[j],
        s.len() > 0 ==> dedup(s).len() > 0 && dedup(s).last() == s.last(),
    decreases s.len(),
{
    if s.len() > 0 {
        let p = s.drop_last();
        assert forall|i: int, j: int| 0 <= i <= j < p.len() implies #[trigger] p[i] <= #[trigger] p[j] by {
            assert(p[i] == s[i]);
            assert(p[j] == s[j]);
        }
        assert forall|i: int| 0 <= i < p.len() implies 0 <= #[trigger] p[i] < n by {
            assert(p[i] == s[i]);
        }
        lemma_dedup_increasing(p, n);
        let d = dedup(p);
        if !(d.len() > 0 && d.last() == s.last()) {
            if d.len() > 0 {
                assert(p.last() == s[s.len() - 2]);
                assert(s[s.len() - 2] <= s[s.len() - 1]);
            }
            let e = d.push(s.last());
            assert forall|i: int, j: int| 0 <= i < j < e.len() implies #[trigger] e[i] < #[trigger] e[j] by {
                assert(e[i] == d[i]);
                if j < d.len() {
                    assert(e[j] == d[j]);
                } else if i < d.len() - 1 {
                    assert(d[i] < d[d.len() - 1]);
                }
            }
        }
    }
}

/// The character indices of `t` behind the highlight positions: strictly
/// increasing, inside `t`, with the positions their byte offsets.
proof fn lemma_match_chars(q: Seq<char>, t: Seq<char>) -> (ks: Seq<int>)
    ensures
        spec_match_indices(q, t) == ks.map_values(|k: int| byte_offset(t, k) as int),
        forall|i: int| 0 <= i < ks.len() ==> 0 <= #[trigger] ks[i] < t.len(),
        forall|i: int, j: int| 0 <= i < j < ks.len() ==> #[trigger] ks[i] < #[trigger] ks[j],
{
    if q.len() == 0 {
        let e = Seq::<int>::empty();
        assert(e.map_values(|k: int| byte_offset(t, k) as int) =~= Seq::<int>::empty());
        e
    } else {
        let lq = lowercase(q);
        let lt = crate::highlight::match_target(t);
        law_greedy_match_embeds(lq, lt, 0);
        lemma_lower_origin(t);
        match greedy_positions(lq, lt, 0) {
            Some(ps) => {
                let o = lower_origin(t);
                let m = ps.map_values(|j: int| o[j]);
                assert forall|i: int| 0 <= i < m.len() implies 0 <= #[trigger] m[i] < t.len() by {
                    assert(0 <= ps[i] < lt.len());
                }
                assert forall|i: int, j: int| 0 <= i <= j < m.len() implies #[trigger] m[i] <= #[trigger] m[j] by {
                    if i < j {
                        assert(ps[i] < ps[j]);
                    }
                }
                lemma_dedup_increasing(m, t.len() as int);
                dedup(m)
            },
            None => {
                let e = Seq::<int>::empty();
                assert(e.map_values(|k: int| byte_offset(t, k) as int) =~= Seq::<int>::empty());
                e
            },
        }
    }
}

/// Every highlight position starts a character of the text, and the
/// positions strictly increase.
pub proof fn law_highlight_on_characters(q: Seq<char>, t: Seq<char>)
    ensures
        forall|i: int|
            0 <= i < spec_match_indices(q, t).len() ==> is_char_boundary_of(t, #[trigger] spec_match_indices(q, t)[i])
                && spec_match_indices(q, t)[i] < byte_len(t),
        forall|i: int, j: int|
            0 <= i < j < spec_match_indices(q, t).len() ==> #[trigger] spec_match_indices(q, t)[i]
                < #[trigger] spec_match_indices(q, t)[j],
{
    let ks = lemma_match_chars(q, t);
    let ix = spec_match_indices(q, t);
    assert forall|i: int| 0 <= i < ix.len() implies is_char_boundary_of(t, #[trigger] ix[i]) && ix[i] < byte_len(t) by {
        lemma_char_index_at(t, ks[i]);
        crate::text::lemma_byte_offset_strict(t, ks[i], t.len() as int);
        lemma_byte_offset_full(t);
    }
    assert forall|i: int, j: int| 0 <= i < j < ix.len() implies #[trigger] ix[i] < #[trigger] ix[j] by {
        crate::text::lemma_byte_offset_strict(t, ks[i], ks[j]);
    }
}

/// The highlight ranges of a text come in text order and neither overlap
/// nor touch.
pub proof fn law_highlight_ranges_apart(q: Seq<char>, t: Seq<char>)
    ensures
        ranges_apart(ranges_of(spec_match_indices(q, t), t)),
{
    let ks = lemma_match_chars(q, t);
    lemma_offsets_spaced(ks, t);
    law_merged_ranges_apart(spec_match_indices(q, t), t);
}

} // verus!
