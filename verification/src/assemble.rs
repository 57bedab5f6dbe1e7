//! Assembly of a unified search output from what a search backend found:
//! fuzzy file matches and content (grep) matches, ordered, filtered and
//! optionally grouped by file; and the highlight query that a raw query
//! contributes.
use vstd::prelude::*;
use crate::text::{byte_len, str_byte_len, push_str};
use crate::picker::{
    MatchKind, SearchMode, SearchScope, UnifiedResult, ResultView, SearchOutput, views,
    opt_str_view, clone_opt_string, clone_pairs,
};
use crate::search_laws::{
    all_files, no_files, law_assembled_kinds, law_unified_without_lines_keeps_files,
};
use fff_search::{FuzzyQuery, QueryParser};

verus! {

broadcast use vstd::seq_lib::group_seq_properties;

// ── Highlight query ──────────────────────────────────────────────────

/// The fuzzy text parts that `fff_search::QueryParser::default().parse`
/// finds in a query with the characters `query` (constraint tokens such as
/// extensions or path segments, and a trailing `:line:col`, excluded).
pub uninterp spec fn fuzzy_text_parts(query: Seq<char>) -> Seq<Seq<char>>;

/// `QueryParser::parse` (fff-search, from fff-query-parser) with the file-search
/// configuration: the fuzzy text parts of `query`, in order (none for an
/// empty fuzzy query, one for a single text). How the parser splits a query
/// is not stated.
#[verifier::external_body]
fn parse_fuzzy_parts(query: &str) -> (parts: Vec<String>)
    ensures
        parts@.map_values(|s: String| s@) == fuzzy_text_parts(query@),
{
    let parser = QueryParser::default();
    match parser.parse(query).fuzzy_query {
        FuzzyQuery::Text(t) => vec![t.to_string()],
        FuzzyQuery::Parts(parts) => parts.iter().map(|p| p.to_string()).collect(),
        FuzzyQuery::Empty => Vec::new(),
    }
}

/// Concatenation of `parts`.
pub open spec fn concat_all(parts: Seq<Seq<char>>) -> Seq<char>
    decreases parts.len(),
{
    if parts.len() == 0 {
        Seq::<char>::empty()
    } else {
        concat_all(parts.drop_last()) + parts.last()
    }
}

/// The highlight query of a raw query: its fuzzy text parts, concatenated.
pub fn highlight_query_for(query: &str) -> (r: String)
    ensures
        r@ == concat_all(fuzzy_text_parts(query@)),
{
    let parts = parse_fuzzy_parts(query);
    let ghost ps = parts@.map_values(|s: String| s@);
    let mut r = String::new();
    let mut i: usize = 0;
    while i < parts.len()
        invariant
            i <= parts.len(),
            ps == parts@.map_values(|s: String| s@),
            r@ == concat_all(ps.take(i as int)),
        decreases parts.len() - i,
    {
        proof {
            assert(ps.take(i + 1).drop_last() =~= ps.take(i as int));
            assert(ps.take(i + 1).last() == parts@[i as int]@);
        }
        push_str(&mut r, parts[i].as_str());
        i = i + 1;
    }
    proof {
        assert(ps.take(parts@.len() as int) =~= ps);
    }
    r
}

// ── Ordering ────────────────────────────────────────────────────────

/// `sorted` with `x` placed after every element scoring at least as high
/// (searching from the back).
pub open spec fn insert_by_score(sorted: Seq<ResultView>, x: ResultView) -> Seq<ResultView>
    decreases sorted.len(),
{
    if sorted.len() == 0 {
        seq![x]
    } else if sorted.last().score >= x.score {
        sorted.push(x)
    } else {
        insert_by_score(sorted.drop_last(), x).push(sorted.last())
    }
}

/// `s` sorted by descending score, equal scores in the order they came in.
pub open spec fn sort_by_score(s: Seq<ResultView>) -> Seq<ResultView>
    decreases s.len(),
{
    if s.len() == 0 {
        s
    } else {
        insert_by_score(sort_by_score(s.drop_last()), s.last())
    }
}

proof fn lemma_insert_at(sorted: Seq<ResultView>, x: ResultView, p: int)
    requires
        0 <= p <= sorted.len(),
        forall|j: int| p <= j < sorted.len() ==> (#[trigger] sorted[j]).score < x.score,
        p > 0 ==> sorted[p - 1].score >= x.score,
    ensures
        insert_by_score(sorted, x) == sorted.take(p).push(x) + sorted.skip(p),
    decreases sorted.len(),
{
    if sorted.len() == 0 {
        assert(sorted.take(p).push(x) + sorted.skip(p) =~= seq![x]);
    } else if p == sorted.len() {
        assert(sorted.take(p).push(x) + sorted.skip(p) =~= sorted.push(x));
    } else {
        let d = sorted.drop_last();
        assert forall|j: int| p <= j < d.len() implies (#[trigger] d[j]).score < x.score by {
            assert(d[j] == sorted[j]);
        }
        lemma_insert_at(d, x, p);
        assert(d.take(p).push(x) + d.skip(p) + seq![sorted.last()] =~= sorted.take(p).push(x)
            + sorted.skip(p));
    }
}

/// Stable insertion of one result by descending score.
fn insert_sorted(v: &mut Vec<UnifiedResult>, x: UnifiedResult)
    ensures
        views(final(v)@) == insert_by_score(views(old(v)@), x@),
{
    let ghost old_views = views(v@);
    let mut p = v.len();
    while p > 0 && v[p - 1].score < x.score
        invariant
            p <= v.len(),
            old_views == views(v@),
            forall|j: int| p <= j < v.len() ==> (#[trigger] old_views[j]).score < x.score,
        decreases p,
    {
        p = p - 1;
    }
    proof {
        lemma_insert_at(old_views, x@, p as int);
    }
    let ghost xv = x@;
    v.insert(p, x);
    proof {
        assert(views(v@) =~= old_views.take(p as int).push(xv) + old_views.skip(p as int));
    }
}

// ── Content matches ─────────────────────────────────────────────────

/// A file that the fuzzy file search matched.
pub struct FuzzyFile {
    pub relative_path: String,
    pub absolute_path: String,
    pub score: i32,
    pub exact_match: bool,
    pub git_status: Option<String>,
}

/// The file result of a fuzzy file match.
pub open spec fn file_result(f: &FuzzyFile) -> ResultView {
    ResultView {
        kind: MatchKind::File,
        relative_path: f.relative_path@,
        absolute_path: f.absolute_path@,
        score: f.score,
        exact_match: f.exact_match,
        line_number: None,
        column: None,
        line_content: None,
        match_byte_offsets: None,
        is_definition: None,
        git_status: opt_str_view(f.git_status),
    }
}

/// The file results of the fuzzy file matches, in order.
pub open spec fn file_results(fs: Seq<FuzzyFile>) -> Seq<ResultView> {
    fs.map_values(|f: FuzzyFile| file_result(&f))
}

fn file_result_of(f: &FuzzyFile) -> (r: UnifiedResult)
    ensures
        r@ == file_result(f),
{
    UnifiedResult {
        kind: MatchKind::File,
        relative_path: f.relative_path.clone(),
        absolute_path: f.absolute_path.clone(),
        score: f.score,
        exact_match: f.exact_match,
        line_number: None,
        column: None,
        line_content: None,
        match_byte_offsets: None,
        is_definition: None,
        git_status: clone_opt_string(&f.git_status),
    }
}

fn build_files(fs: &Vec<FuzzyFile>) -> (r: Vec<UnifiedResult>)
    ensures
        views(r@) == file_results(fs@),
{
    let mut r: Vec<UnifiedResult> = Vec::new();
    let mut i: usize = 0;
    while i < fs.len()
        invariant
            i <= fs.len(),
            views(r@) == file_results(fs@).take(i as int),
        decreases fs.len() - i,
    {
        let ghost before = views(r@);
        let x = file_result_of(&fs[i]);
        r.push(x);
        proof {
            assert(views(r@) =~= before.push(x@));
            assert(file_results(fs@).take(i + 1) =~= file_results(fs@).take(i as int).push(x@));
        }
        i = i + 1;
    }
    proof {
        assert(file_results(fs@).take(fs@.len() as int) =~= file_results(fs@));
    }
    r
}

/// A file that content matches point into.
pub struct GrepFile {
    pub relative_path: String,
    pub absolute_path: String,
    pub git_status: Option<String>,
}

/// One content match.
pub struct GrepHit {
    pub file_index: usize,
    pub line_number: u64,
    pub line_content: String,
    pub match_byte_offsets: Vec<(u32, u32)>,
    pub is_definition: bool,
}

/// The line result of a content match in `file`: column is one past the
/// start of the first matched range, when there is one.
pub open spec fn line_result(file: &GrepFile, hit: &GrepHit) -> ResultView {
    ResultView {
        kind: MatchKind::Line,
        relative_path: file.relative_path@,
        absolute_path: file.absolute_path@,
        score: 0,
        exact_match: false,
        line_number: Some(hit.line_number),
        column: if hit.match_byte_offsets@.len() > 0 {
            Some((hit.match_byte_offsets@[0].0 + 1) as u32)
        } else {
            None
        },
        line_content: Some(hit.line_content@),
        match_byte_offsets: Some(hit.match_byte_offsets@),
        is_definition: Some(hit.is_definition),
        git_status: opt_str_view(file.git_status),
    }
}

/// The line results of the matches whose file index is in range, in order.
pub open spec fn line_results(files: Seq<GrepFile>, hits: Seq<GrepHit>) -> Seq<ResultView>
    decreases hits.len(),
{
    if hits.len() == 0 {
        Seq::<ResultView>::empty()
    } else {
        let rest = line_results(files, hits.drop_last());
        let h = hits.last();
        if h.file_index < files.len() {
            rest.push(line_result(&files[h.file_index as int], &h))
        } else {
            rest
        }
    }
}

/// Header row announcing the file of line result `r`.
pub open spec fn header_of(r: ResultView) -> ResultView {
    ResultView {
        kind: MatchKind::FileHeader,
        relative_path: r.relative_path,
        absolute_path: r.absolute_path,
        score: 0,
        exact_match: false,
        line_number: None,
        column: None,
        line_content: None,
        match_byte_offsets: None,
        is_definition: None,
        git_status: r.git_status,
    }
}

/// `lines` with a header row before each run of lines from the same file.
pub open spec fn grouped(lines: Seq<ResultView>) -> Seq<ResultView>
    decreases lines.len(),
{
    if lines.len() == 0 {
        lines
    } else {
        let g = grouped(lines.drop_last());
        let r = lines.last();
        if lines.len() >= 2 && lines[lines.len() - 2].relative_path == r.relative_path {
            g.push(r)
        } else {
            g.push(header_of(r)).push(r)
        }
    }
}

/// The elements of `s` scoring at least `min`.
pub open spec fn keep_min_score(s: Seq<ResultView>, min: int) -> Seq<ResultView>
    decreases s.len(),
{
    if s.len() == 0 {
        s
    } else if s.last().score >= min {
        keep_min_score(s.drop_last(), min).push(s.last())
    } else {
        keep_min_score(s.drop_last(), min)
    }
}

/// The elements of `s` that are (or are not) exact matches, in order.
pub open spec fn exact_only(s: Seq<ResultView>, exact: bool) -> Seq<ResultView>
    decreases s.len(),
{
    if s.len() == 0 {
        s
    } else if s.last().exact_match == exact {
        exact_only(s.drop_last(), exact).push(s.last())
    } else {
        exact_only(s.drop_last(), exact)
    }
}

/// Content search runs outside file-only scope, for a non-empty highlight query.
pub open spec fn spec_needs_grep(scope: SearchScope, highlight: Seq<char>) -> bool {
    scope != SearchScope::FileOnly && highlight.len() > 0
}

/// Whether a content search is to be run.
pub fn needs_grep(scope: SearchScope, highlight_query: &str) -> (r: bool)
    ensures
        r == spec_needs_grep(scope, highlight_query@),
{
    scope != SearchScope::FileOnly && !highlight_query.is_empty()
}

/// How a content search reads its pattern.
#[derive(Clone, Copy, Debug, PartialEq, Eq, Structural)]
pub enum GrepKind {
    PlainText,
    Regex,
    Fuzzy,
}

/// The content-search kind of a search mode: fuzzy wins over regex, and
/// plain text is the default.
pub fn grep_kind(mode: SearchMode) -> (k: GrepKind)
    ensures
        k == if mode.fuzzy {
            GrepKind::Fuzzy
        } else if mode.regex {
            GrepKind::Regex
        } else {
            GrepKind::PlainText
        },
{
    if mode.fuzzy {
        GrepKind::Fuzzy
    } else if mode.regex {
        GrepKind::Regex
    } else {
        GrepKind::PlainText
    }
}

/// Whether a fuzzy file search is to be run.
pub fn needs_fuzzy(scope: SearchScope) -> (r: bool)
    ensures
        r == (scope != SearchScope::GrepOnly),
{
    scope != SearchScope::GrepOnly
}

/// The minimum score of a non-exact file match kept beside content matches:
/// seven per byte of the highlight query.
pub open spec fn min_fuzzy_score(highlight: Seq<char>) -> i32 {
    (if byte_len(highlight) * 7 > usize::MAX {
        usize::MAX as int
    } else {
        (byte_len(highlight) * 7) as int
    }) as i32
}

/// The results of a search: exact file matches by score, then the line
/// matches (grouped under file headers when asked), then the other file
/// matches by score; in unified scope, when there are line matches, file
/// matches scoring below `min_fuzzy_score` are left out. File matches only
/// count outside grep-only scope, line matches only when a content search
/// runs.
pub open spec fn spec_assembled(
    highlight: Seq<char>,
    fuzzy: Seq<ResultView>,
    files: Seq<GrepFile>,
    hits: Seq<GrepHit>,
    scope: SearchScope,
    mode: SearchMode,
) -> Seq<ResultView> {
    let fz = if scope != SearchScope::GrepOnly {
        fuzzy
    } else {
        Seq::<ResultView>::empty()
    };
    let lines = if spec_needs_grep(scope, highlight) {
        line_results(files, hits)
    } else {
        Seq::<ResultView>::empty()
    };
    let exact = sort_by_score(exact_only(fz, true));
    let other = sort_by_score(exact_only(fz, false));
    let other_kept = if scope == SearchScope::Unified && lines.len() > 0 {
        keep_min_score(other, min_fuzzy_score(highlight) as int)
    } else {
        other
    };
    let middle = if mode.group_grep && lines.len() > 0 {
        grouped(lines)
    } else {
        lines
    };
    exact + middle + other_kept
}

fn line_result_of(file: &GrepFile, hit: &GrepHit) -> (r: UnifiedResult)
    requires
        hit.match_byte_offsets@.len() > 0 ==> hit.match_byte_offsets@[0].0 < u32::MAX,
    ensures
        r@ == line_result(file, hit),
{
    let column = if hit.match_byte_offsets.len() > 0 {
        Some(hit.match_byte_offsets[0].0 + 1)
    } else {
        None
    };
    UnifiedResult {
        kind: MatchKind::Line,
        relative_path: file.relative_path.clone(),
        absolute_path: file.absolute_path.clone(),
        score: 0,
        exact_match: false,
        line_number: Some(hit.line_number),
        column,
        line_content: Some(hit.line_content.clone()),
        match_byte_offsets: Some(clone_pairs(&hit.match_byte_offsets)),
        is_definition: Some(hit.is_definition),
        git_status: clone_opt_string(&file.git_status),
    }
}

fn header_result(r: &UnifiedResult) -> (h: UnifiedResult)
    ensures
        h@ == header_of(r@),
{
    UnifiedResult {
        kind: MatchKind::FileHeader,
        relative_path: r.relative_path.clone(),
        absolute_path: r.absolute_path.clone(),
        score: 0,
        exact_match: false,
        line_number: None,
        column: None,
        line_content: None,
        match_byte_offsets: None,
        is_definition: None,
        git_status: clone_opt_string(&r.git_status),
    }
}

/// Every content match with a first range starts before `u32::MAX`.
pub open spec fn hits_wf(hits: Seq<GrepHit>) -> bool {
    forall|i: int|
        0 <= i < hits.len() ==> (#[trigger] hits[i]).match_byte_offsets@.len() > 0 ==> hits[i].match_byte_offsets@[0].0
            < u32::MAX
}

fn build_lines(files: &Vec<GrepFile>, hits: &Vec<GrepHit>) -> (r: Vec<UnifiedResult>)
    requires
        hits_wf(hits@),
    ensures
        views(r@) == line_results(files@, hits@),
{
    let mut r: Vec<UnifiedResult> = Vec::new();
    let mut i: usize = 0;
    while i < hits.len()
        invariant
            i <= hits.len(),
            hits_wf(hits@),
            views(r@) == line_results(files@, hits@.take(i as int)),
        decreases hits.len() - i,
    {
        proof {
            assert(hits@.take(i + 1).drop_last() =~= hits@.take(i as int));
            assert(hits@.take(i + 1).last() == hits@[i as int]);
        }
        let h = &hits[i];
        if h.file_index < files.len() {
            let x = line_result_of(&files[h.file_index], h);
            let ghost before = views(r@);
            r.push(x);
            proof {
                assert(views(r@) =~= before.push(x@));
            }
        }
        i = i + 1;
    }
    proof {
        assert(hits@.take(hits@.len() as int) =~= hits@);
    }
    r
}

fn group_lines(lines: &Vec<UnifiedResult>) -> (r: Vec<UnifiedResult>)
    ensures
        views(r@) == grouped(views(lines@)),
{
    let ghost ls = views(lines@);
    let mut r: Vec<UnifiedResult> = Vec::new();
    let mut i: usize = 0;
    while i < lines.len()
        invariant
            i <= lines.len(),
            ls == views(lines@),
            views(r@) == grouped(ls.take(i as int)),
        decreases lines.len() - i,
    {
        proof {
            let t = ls.take(i + 1);
            assert(t.drop_last() =~= ls.take(i as int));
            assert(t.last() == lines@[i as int]@);
            if i >= 1 {
                assert(t[t.len() - 2] == lines@[i - 1]@);
            }
        }
        let same = i >= 1 && lines[i - 1].relative_path == lines[i].relative_path;
        if !same {
            let h = header_result(&lines[i]);
            let ghost before = views(r@);
            r.push(h);
            proof {
                assert(views(r@) =~= before.push(h@));
            }
        }
        let x = lines[i].duplicate();
        let ghost before2 = views(r@);
        r.push(x);
        proof {
            assert(views(r@) =~= before2.push(x@));
        }
        i = i + 1;
    }
    proof {
        assert(ls.take(lines@.len() as int) =~= ls);
    }
    r
}

/// Move the elements of `v` with the given exactness into a vector sorted
/// by descending score (stable).
fn sorted_exactness(v: &Vec<UnifiedResult>, exact: bool) -> (r: Vec<UnifiedResult>)
    ensures
        views(r@) == sort_by_score(exact_only(views(v@), exact)),
{
    let ghost vs = views(v@);
    let mut r: Vec<UnifiedResult> = Vec::new();
    let mut i: usize = 0;
    while i < v.len()
        invariant
            i <= v.len(),
            vs == views(v@),
            views(r@) == sort_by_score(exact_only(vs.take(i as int), exact)),
        decreases v.len() - i,
    {
        proof {
            assert(vs.take(i + 1).drop_last() =~= vs.take(i as int));
            assert(vs.take(i + 1).last() == v@[i as int]@);
            let e1 = exact_only(vs.take(i + 1), exact);
            if v@[i as int]@.exact_match == exact {
                assert(e1.drop_last() == exact_only(vs.take(i as int), exact));
                assert(e1.last() == v@[i as int]@);
            }
        }
        if v[i].exact_match == exact {
            let x = v[i].duplicate();
            insert_sorted(&mut r, x);
        }
        i = i + 1;
    }
    proof {
        assert(vs.take(v@.len() as int) =~= vs);
    }
    r
}

/// The elements of `v` scoring at least `min`, in order.
fn filter_min_score(v: Vec<UnifiedResult>, min: i32) -> (r: Vec<UnifiedResult>)
    ensures
        views(r@) == keep_min_score(views(v@), min as int),
{
    let ghost vs = views(v@);
    let mut r: Vec<UnifiedResult> = Vec::new();
    let mut i: usize = 0;
    while i < v.len()
        invariant
            i <= v.len(),
            vs == views(v@),
            views(r@) == keep_min_score(vs.take(i as int), min as int),
        decreases v.len() - i,
    {
        proof {
            assert(vs.take(i + 1).drop_last() =~= vs.take(i as int));
            assert(vs.take(i + 1).last() == v@[i as int]@);
        }
        if v[i].score >= min {
            let x = v[i].duplicate();
            let ghost before = views(r@);
            r.push(x);
            proof {
                assert(views(r@) =~= before.push(x@));
            }
        }
        i = i + 1;
    }
    proof {
        assert(vs.take(v@.len() as int) =~= vs);
    }
    r
}

/// Append the elements of `src` to `dst`.
fn append_all(dst: &mut Vec<UnifiedResult>, src: &Vec<UnifiedResult>)
    ensures
        views(final(dst)@) == views(old(dst)@) + views(src@),
{
    let mut i: usize = 0;
    while i < src.len()
        invariant
            i <= src.len(),
            views(dst@) == views(old(dst)@) + views(src@).take(i as int),
        decreases src.len() - i,
    {
        let x = src[i].duplicate();
        let ghost before = views(dst@);
        dst.push(x);
        proof {
            assert(views(dst@) =~= before.push(x@));
            assert(views(src@).take(i + 1) =~= views(src@).take(i as int).push(x@));
        }
        i = i + 1;
    }
    proof {
        assert(views(src@).take(src@.len() as int) =~= views(src@));
    }
}

/// Assemble the output of a search from the fuzzy file matches `fuzzy`
/// (with `fuzzy_total` matches in all) and the content matches `hits` into
/// `files`.
pub fn assemble_search_output(
    highlight_query: String,
    fuzzy: Vec<FuzzyFile>,
    fuzzy_total: usize,
    files: Vec<GrepFile>,
    hits: Vec<GrepHit>,
    scope: SearchScope,
    mode: SearchMode,
) -> (out: SearchOutput)
    requires
        hits_wf(hits@),
        fuzzy_total + hits@.len() <= usize::MAX,
    ensures
        views(out.results@) == spec_assembled(
            highlight_query@,
            file_results(fuzzy@),
            files@,
            hits@,
            scope,
            mode,
        ),
        out.highlight_query@ == highlight_query@,
        out.fuzzy_total_matched == if scope != SearchScope::GrepOnly {
            fuzzy_total
        } else {
            0
        },
        out.grep_page_matched == if spec_needs_grep(scope, highlight_query@) {
            hits@.len()
        } else {
            0
        },
        scope == SearchScope::FileOnly ==> all_files(views(out.results@)),
        highlight_query@.len() == 0 ==> all_files(views(out.results@)),
        scope == SearchScope::GrepOnly ==> no_files(views(out.results@)),
        scope == SearchScope::Unified && (forall|i: int|
            0 <= i < hits@.len() ==> (#[trigger] hits@[i]).file_index >= files@.len())
            ==> views(out.results@).to_multiset() =~= file_results(fuzzy@).to_multiset(),
{
    proof {
        law_assembled_kinds(highlight_query@, fuzzy@, files@, hits@, scope, mode);
        if scope == SearchScope::Unified && (forall|i: int|
            0 <= i < hits@.len() ==> (#[trigger] hits@[i]).file_index >= files@.len()) {
            law_unified_without_lines_keeps_files(highlight_query@, fuzzy@, files@, hits@, mode);
        }
    }
    let use_fuzzy = needs_fuzzy(scope);
    let fz: Vec<UnifiedResult> = if use_fuzzy {
        build_files(&fuzzy)
    } else {
        let e: Vec<UnifiedResult> = Vec::new();
        assert(views(e@) =~= Seq::<ResultView>::empty());
        e
    };
    let use_grep = needs_grep(scope, highlight_query.as_str());
    let lines: Vec<UnifiedResult> = if use_grep {
        build_lines(&files, &hits)
    } else {
        let e: Vec<UnifiedResult> = Vec::new();
        assert(views(e@) =~= Seq::<ResultView>::empty());
        e
    };
    let exact = sorted_exactness(&fz, true);
    let other = sorted_exactness(&fz, false);
    let other_kept = if scope == SearchScope::Unified && lines.len() > 0 {
        let n = str_byte_len(highlight_query.as_str());
        let m: usize = if n > usize::MAX / 7 {
            usize::MAX
        } else {
            n * 7
        };
        filter_min_score(other, m as i32)
    } else {
        other
    };
    let middle = if mode.group_grep && lines.len() > 0 {
        group_lines(&lines)
    } else {
        lines
    };
    let mut unified: Vec<UnifiedResult> = Vec::new();
    proof {
        assert(views(unified@) =~= Seq::<ResultView>::empty());
    }
    append_all(&mut unified, &exact);
    append_all(&mut unified, &middle);
    append_all(&mut unified, &other_kept);
    proof {
        assert(Seq::<ResultView>::empty() + views(exact@) =~= views(exact@));
    }
    let total = if use_fuzzy {
        fuzzy_total
    } else {
        0
    };
    let grep_count = if use_grep {
        hits.len()
    } else {
        0
    };
    SearchOutput {
        results: unified,
        highlight_query,
        fuzzy_total_matched: (total + grep_count).saturating_sub(grep_count),
        grep_page_matched: grep_count,
    }
}

} // verus!
