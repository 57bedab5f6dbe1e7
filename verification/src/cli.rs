//! Command-line level logic: the initial query taken from a symbol
//! breadcrumb, the scope named on the command line, and the text printed
//! for picked results.
use vstd::prelude::*;
use crate::text::{is_ws, chars_of, string_of_range, string_push, is_whitespace, push_str, chars_equal};
use crate::numfmt::{decimal, push_decimal};
use crate::picker::{SearchScope, UnifiedResult, ResultView, views};

verus! {

broadcast use vstd::seq_lib::group_seq_properties;

/// The part of `s` after the last occurrence of `c` (all of `s` when `c`
/// does not occur).
pub open spec fn last_segment(s: Seq<char>, c: char) -> Seq<char>
    decreases s.len(),
{
    if s.len() == 0 {
        s
    } else if s.last() == c {
        Seq::<char>::empty()
    } else {
        last_segment(s.drop_last(), c).push(s.last())
    }
}

/// `s` without leading whitespace.
pub open spec fn trim_start(s: Seq<char>) -> Seq<char>
    decreases s.len(),
{
    if s.len() > 0 && is_ws(s[0]) {
        trim_start(s.drop_first())
    } else {
        s
    }
}

/// `s` without trailing whitespace.
pub open spec fn trim_end(s: Seq<char>) -> Seq<char>
    decreases s.len(),
{
    if s.len() > 0 && is_ws(s.last()) {
        trim_end(s.drop_last())
    } else {
        s
    }
}

/// `s` without leading or trailing whitespace.
pub open spec fn trim(s: Seq<char>) -> Seq<char> {
    trim_end(trim_start(s))
}

/// Number of declaration keywords stripped from a symbol.
pub open spec fn keyword_count() -> int {
    14
}

/// The declaration keywords (each with its trailing space), in the order
/// in which they are tried.
pub open spec fn keyword(i: int) -> Seq<char> {
    if i == 0 {
        seq!['p', 'u', 'b', ' ']
    } else if i == 1 {
        seq!['a', 's', 'y', 'n', 'c', ' ']
    } else if i == 2 {
        seq!['u', 'n', 's', 'a', 'f', 'e', ' ']
    } else if i == 3 {
        seq!['c', 'o', 'n', 's', 't', ' ']
    } else if i == 4 {
        seq!['s', 't', 'a', 't', 'i', 'c', ' ']
    } else if i == 5 {
        seq!['f', 'n', ' ']
    } else if i == 6 {
        seq!['m', 'o', 'd', ' ']
    } else if i == 7 {
        seq!['s', 't', 'r', 'u', 'c', 't', ' ']
    } else if i == 8 {
        seq!['e', 'n', 'u', 'm', ' ']
    } else if i == 9 {
        seq!['t', 'r', 'a', 'i', 't', ' ']
    } else if i == 10 {
        seq!['i', 'm', 'p', 'l', ' ']
    } else if i == 11 {
        seq!['t', 'y', 'p', 'e', ' ']
    } else if i == 12 {
        seq!['l', 'e', 't', ' ']
    } else {
        seq!['m', 'a', 'c', 'r', 'o', ' ']
    }
}

fn keyword_chars(i: usize) -> (r: Vec<char>)
    requires
        i < 14,
    ensures
        r@ == keyword(i as int),
        r@.len() > 0,
{
    let r = if i == 0 {
        vec!['p', 'u', 'b', ' ']
    } else if i == 1 {
        vec!['a', 's', 'y', 'n', 'c', ' ']
    } else if i == 2 {
        vec!['u', 'n', 's', 'a', 'f', 'e', ' ']
    } else if i == 3 {
        vec!['c', 'o', 'n', 's', 't', ' ']
    } else if i == 4 {
        vec!['s', 't', 'a', 't', 'i', 'c', ' ']
    } else if i == 5 {
        vec!['f', 'n', ' ']
    } else if i == 6 {
        vec!['m', 'o', 'd', ' ']
    } else if i == 7 {
        vec!['s', 't', 'r', 'u', 'c', 't', ' ']
    } else if i == 8 {
        vec!['e', 'n', 'u', 'm', ' ']
    } else if i == 9 {
        vec!['t', 'r', 'a', 'i', 't', ' ']
    } else if i == 10 {
        vec!['i', 'm', 'p', 'l', ' ']
    } else if i == 11 {
        vec!['t', 'y', 'p', 'e', ' ']
    } else if i == 12 {
        vec!['l', 'e', 't', ' ']
    } else {
        vec!['m', 'a', 'c', 'r', 'o', ' ']
    };
    assert(r@ =~= keyword(i as int));
    r
}

/// Index of the first keyword, from `i` on, that `s` starts with; -1 when none.
pub open spec fn first_keyword(s: Seq<char>, i: int) -> int
    decreases keyword_count() - i,
{
    if i < 0 || i >= keyword_count() {
        -1
    } else if keyword(i).is_prefix_of(s) {
        i
    } else {
        first_keyword(s, i + 1)
    }
}

/// `s` with leading declaration keywords removed, one at a time, always the
/// first keyword of the list that matches.
pub open spec fn strip_keywords(s: Seq<char>) -> Seq<char>
    decreases s.len(),
{
    let i = first_keyword(s, 0);
    if i >= 0 && keyword(i).len() > 0 && keyword(i).len() <= s.len() {
        strip_keywords(s.skip(keyword(i).len() as int))
    } else {
        s
    }
}

/// The leaf identifier of a symbol breadcrumb such as `mod foo > fn bar`.
pub open spec fn spec_parse_symbol(s: Seq<char>) -> Seq<char> {
    strip_keywords(trim(last_segment(s, '>')))
}

proof fn lemma_first_keyword(s: Seq<char>, i: int)
    requires
        0 <= i,
    ensures
        first_keyword(s, i) == -1 || (i <= first_keyword(s, i) < keyword_count() && keyword(
            first_keyword(s, i),
        ).is_prefix_of(s)),
    decreases keyword_count() - i,
{
    if i < keyword_count() && !keyword(i).is_prefix_of(s) {
        lemma_first_keyword(s, i + 1);
    }
}

/// `v[from..]` starts with `p`.
fn starts_with_at(v: &Vec<char>, from: usize, p: &Vec<char>) -> (r: bool)
    requires
        from <= v.len(),
    ensures
        r == p@.is_prefix_of(v@.skip(from as int)),
{
    if p.len() > v.len() - from {
        return false;
    }
    let mut i: usize = 0;
    while i < p.len()
        invariant
            from <= v.len(),
            p.len() <= v.len() - from,
            i <= p.len(),
            forall|j: int| 0 <= j < i ==> p@[j] == v@.skip(from as int)[j],
        decreases p.len() - i,
    {
        if p[i] != v[from + i] {
            return false;
        }
        i = i + 1;
    }
    true
}

/// Index of the first keyword matching at `v[pos..hi]`, with its length.
fn match_keyword(v: &Vec<char>, pos: usize, hi: usize) -> (r: Option<usize>)
    requires
        pos <= hi <= v.len(),
    ensures
        match r {
            Some(n) => first_keyword(v@.subrange(pos as int, hi as int), 0) >= 0 && n == keyword(
                first_keyword(v@.subrange(pos as int, hi as int), 0),
            ).len() && 0 < n <= hi - pos,
            None => first_keyword(v@.subrange(pos as int, hi as int), 0) == -1,
        },
{
    let ghost cur = v@.subrange(pos as int, hi as int);
    let mut i: usize = 0;
    while i < 14
        invariant
            i <= 14,
            pos <= hi <= v.len(),
            cur == v@.subrange(pos as int, hi as int),
            first_keyword(cur, 0) == first_keyword(cur, i as int),
        decreases 14 - i,
    {
        let kw = keyword_chars(i);
        if kw.len() <= hi - pos {
            let h = starts_with_at(&v, pos, &kw);
            proof {
                assert(kw@.is_prefix_of(v@.skip(pos as int)) == kw@.is_prefix_of(cur)) by {
                    if kw@.is_prefix_of(cur) {
                        assert forall|j: int| 0 <= j < kw@.len() implies kw@[j] == v@.skip(
                            pos as int,
                        )[j] by {
                            assert(cur[j] == v@.skip(pos as int)[j]);
                        }
                    }
                    if kw@.is_prefix_of(v@.skip(pos as int)) {
                        assert forall|j: int| 0 <= j < kw@.len() implies kw@[j] == cur[j] by {
                            assert(cur[j] == v@.skip(pos as int)[j]);
                        }
                    }
                }
            }
            if h {
                return Some(kw.len());
            }
        } else {
            proof {
                assert(!kw@.is_prefix_of(cur));
            }
        }
        i = i + 1;
    }
    None
}

/// Start of the text after the last `'>'` of `v`.
fn segment_start(v: &Vec<char>) -> (seg: usize)
    ensures
        seg <= v.len(),
        last_segment(v@, '>') == v@.skip(seg as int),
{
    let mut seg: usize = v.len();
    proof {
        assert(v@.take(v@.len() as int) =~= v@);
        assert(v@.skip(v@.len() as int) =~= Seq::<char>::empty());
        assert(last_segment(v@, '>') =~= last_segment(v@.take(seg as int), '>') + v@.skip(seg as int));
    }
    while seg > 0 && v[seg - 1] != '>'
        invariant
            seg <= v.len(),
            last_segment(v@, '>') == last_segment(v@.take(seg as int), '>') + v@.skip(seg as int),
        decreases seg,
    {
        proof {
            let t = v@.take(seg as int);
            assert(t.drop_last() =~= v@.take(seg - 1));
            assert(v@.skip(seg - 1) =~= seq![t.last()] + v@.skip(seg as int));
            assert(last_segment(v@.take(seg - 1), '>').push(t.last()) + v@.skip(seg as int)
                =~= last_segment(v@.take(seg - 1), '>') + v@.skip(seg - 1));
        }
        seg = seg - 1;
    }
    proof {
        if seg == 0 {
            assert(v@.take(0) =~= Seq::<char>::empty());
        } else {
            assert(v@.take(seg as int).last() == '>');
        }
        assert(last_segment(v@.take(seg as int), '>') =~= Seq::<char>::empty());
        assert(last_segment(v@, '>') =~= v@.skip(seg as int));
    }
    seg
}

/// Bounds of `v[seg..]` without leading and trailing whitespace.
fn trim_bounds(v: &Vec<char>, seg: usize) -> (r: (usize, usize))
    requires
        seg <= v.len(),
    ensures
        seg <= r.0 <= r.1 <= v.len(),
        trim(v@.skip(seg as int)) == v@.subrange(r.0 as int, r.1 as int),
{
    let mut lo = seg;
    while lo < v.len() && is_whitespace(v[lo])
        invariant
            seg <= lo <= v.len(),
            trim_start(v@.skip(seg as int)) == trim_start(v@.skip(lo as int)),
        decreases v.len() - lo,
    {
        proof {
            assert(v@.skip(lo as int).drop_first() =~= v@.skip(lo + 1));
        }
        lo = lo + 1;
    }
    let mut hi = v.len();
    proof {
        assert(v@.skip(lo as int) =~= v@.subrange(lo as int, hi as int));
        assert(trim_start(v@.skip(lo as int)) == v@.skip(lo as int));
    }
    while hi > lo && is_whitespace(v[hi - 1])
        invariant
            lo <= hi <= v.len(),
            trim(v@.skip(seg as int)) == trim_end(v@.subrange(lo as int, hi as int)),
        decreases hi,
    {
        proof {
            assert(v@.subrange(lo as int, hi as int).drop_last() =~= v@.subrange(lo as int, hi - 1));
        }
        hi = hi - 1;
    }
    (lo, hi)
}

/// Parse a Zed-style symbol breadcrumb (e.g. `mod foo > fn bar`) and
/// extract the leaf identifier suitable for grepping.
pub fn parse_symbol(symbol: &str) -> (r: String)
    ensures
        r@ == spec_parse_symbol(symbol@),
{
    let v = chars_of(symbol);
    let seg = segment_start(&v);
    let (lo, hi) = trim_bounds(&v, seg);
    let mut pos = lo;
    loop
        invariant
            lo <= pos <= hi <= v.len(),
            spec_parse_symbol(symbol@) == strip_keywords(v@.subrange(pos as int, hi as int)),
        ensures
            lo <= pos <= hi <= v.len(),
            spec_parse_symbol(symbol@) == v@.subrange(pos as int, hi as int),
        decreases hi - pos,
    {
        let ghost cur = v@.subrange(pos as int, hi as int);
        proof {
            lemma_first_keyword(cur, 0);
        }
        match match_keyword(&v, pos, hi) {
            Some(n) => {
                proof {
                    assert(cur.skip(n as int) =~= v@.subrange(pos + n, hi as int));
                }
                pos = pos + n;
            },
            None => {
                proof {
                    assert(strip_keywords(cur) == cur);
                }
                break;
            },
        }
    }
    string_of_range(&v, pos, hi)
}

/// Text printed for a picked result: the absolute path, followed by
/// `:line:column` when the column is asked for and the result is a line
/// match (column 1 when unknown), or by `:line` when only the line is
/// asked for.
pub open spec fn spec_format_result(r: ResultView, line: bool, column: bool) -> Seq<char> {
    match r.line_number {
        Some(ln) => if column {
            r.absolute_path + seq![':'] + decimal(ln as nat) + seq![':'] + decimal(
                match r.column {
                    Some(c) => c as nat,
                    None => 1nat,
                },
            )
        } else if line {
            r.absolute_path + seq![':'] + decimal(ln as nat)
        } else {
            r.absolute_path
        },
        None => r.absolute_path,
    }
}

/// Text printed for a picked result.
pub fn format_result(result: &UnifiedResult, line: bool, column: bool) -> (s: String)
    ensures
        s@ == spec_format_result(result@, line, column),
{
    match result.line_number {
        Some(ln) => {
            if column {
                let mut s = result.absolute_path.clone();
                string_push(&mut s, ':');
                push_decimal(&mut s, ln);
                string_push(&mut s, ':');
                let col: u32 = match result.column {
                    Some(c) => c,
                    None => 1,
                };
                push_decimal(&mut s, col as u64);
                s
            } else if line {
                let mut s = result.absolute_path.clone();
                string_push(&mut s, ':');
                push_decimal(&mut s, ln);
                s
            } else {
                result.absolute_path.clone()
            }
        },
        None => result.absolute_path.clone(),
    }
}

/// `xs` joined with single spaces.
pub open spec fn join_spaces(xs: Seq<Seq<char>>) -> Seq<char>
    decreases xs.len(),
{
    if xs.len() == 0 {
        Seq::<char>::empty()
    } else if xs.len() == 1 {
        xs[0]
    } else {
        join_spaces(xs.drop_last()) + seq![' '] + xs.last()
    }
}

/// The formatted text of each result.
pub open spec fn formatted(rs: Seq<ResultView>, line: bool, column: bool) -> Seq<Seq<char>> {
    rs.map_values(|r: ResultView| spec_format_result(r, line, column))
}

/// The lines printed for the picked results: one line per result, or, when
/// space separation is asked for and there are several results, a single
/// line with the results separated by spaces.
pub open spec fn spec_output_lines(rs: Seq<ResultView>, line: bool, column: bool, space_separated: bool) -> Seq<Seq<char>> {
    if space_separated && rs.len() > 1 {
        seq![join_spaces(formatted(rs, line, column))]
    } else {
        formatted(rs, line, column)
    }
}

/// The lines printed for the picked results.
pub fn output_lines(results: &Vec<UnifiedResult>, line: bool, column: bool, space_separated: bool) -> (out: Vec<String>)
    ensures
        out@.map_values(|s: String| s@) == spec_output_lines(views(results@), line, column, space_separated),
{
    let ghost rs = views(results@);
    if space_separated && results.len() > 1 {
        let mut joined = format_result(&results[0], line, column);
        let mut i: usize = 1;
        proof {
            let f = formatted(rs, line, column);
            assert(f.take(1).len() == 1);
            assert(join_spaces(f.take(1)) == f.take(1)[0]);
        }
        while i < results.len()
            invariant
                1 <= i <= results.len(),
                rs == views(results@),
                joined@ == join_spaces(formatted(rs, line, column).take(i as int)),
            decreases results.len() - i,
        {
            let s = format_result(&results[i], line, column);
            string_push(&mut joined, ' ');
            push_str(&mut joined, s.as_str());
            proof {
                let f = formatted(rs, line, column);
                assert(f.take(i + 1).drop_last() =~= f.take(i as int));
                assert(f.take(i + 1).last() == s@);
            }
            i = i + 1;
        }
        proof {
            let f = formatted(rs, line, column);
            assert(f.take(results@.len() as int) =~= f);
        }
        let mut out: Vec<String> = Vec::new();
        out.push(joined);
        proof {
            assert(out@.map_values(|s: String| s@) =~= spec_output_lines(rs, line, column, space_separated));
        }
        out
    } else {
        let mut out: Vec<String> = Vec::new();
        let mut i: usize = 0;
        while i < results.len()
            invariant
                i <= results.len(),
                rs == views(results@),
                out@.map_values(|s: String| s@) == formatted(rs, line, column).take(i as int),
            decreases results.len() - i,
        {
            let s = format_result(&results[i], line, column);
            let ghost before = out@;
            out.push(s);
            proof {
                assert(rs[i as int] == results@[i as int]@);
                assert(formatted(rs, line, column)[i as int] == s@);
                assert(out@.map_values(|s: String| s@) =~= before.map_values(|s: String| s@).push(s@));
                assert(out@.map_values(|s: String| s@) =~= formatted(rs, line, column).take(i + 1));
            }
            i = i + 1;
        }
        proof {
            assert(formatted(rs, line, column).take(results@.len() as int) =~= formatted(rs, line, column));
        }
        out
    }
}

/// The scope named on the command line: `file`, `grep` or `unified`.
pub open spec fn spec_parse_scope(s: Seq<char>) -> Option<SearchScope> {
    if s == seq!['f', 'i', 'l', 'e'] {
        Some(SearchScope::FileOnly)
    } else if s == seq!['g', 'r', 'e', 'p'] {
        Some(SearchScope::GrepOnly)
    } else if s == seq!['u', 'n', 'i', 'f', 'i', 'e', 'd'] {
        Some(SearchScope::Unified)
    } else {
        None
    }
}

/// The scope named on the command line, if the name is one of `file`,
/// `grep` or `unified`.
pub fn parse_scope(s: &str) -> (r: Option<SearchScope>)
    ensures
        r == spec_parse_scope(s@),
{
    let v = chars_of(s);
    let file = vec!['f', 'i', 'l', 'e'];
    let grep = vec!['g', 'r', 'e', 'p'];
    let unified = vec!['u', 'n', 'i', 'f', 'i', 'e', 'd'];
    proof {
        assert(file@ =~= seq!['f', 'i', 'l', 'e']);
        assert(grep@ =~= seq!['g', 'r', 'e', 'p']);
        assert(unified@ =~= seq!['u', 'n', 'i', 'f', 'i', 'e', 'd']);
    }
    if chars_equal(&v, &file) {
        Some(SearchScope::FileOnly)
    } else if chars_equal(&v, &grep) {
        Some(SearchScope::GrepOnly)
    } else if chars_equal(&v, &unified) {
        Some(SearchScope::Unified)
    } else {
        None
    }
}

/// The query the picker starts with: the one given, else the leaf of the
/// symbol breadcrumb given, else none.
pub fn initial_query(query: Option<String>, symbol: &Option<String>) -> (r: Option<String>)
    ensures
        match query {
            Some(q) => r matches Some(x) && x@ == q@,
            None => match symbol {
                Some(sym) => r matches Some(x) && x@ == spec_parse_symbol(sym@),
                None => r is None,
            },
        },
{
    match query {
        Some(q) => Some(q),
        None => match symbol {
            Some(sym) => Some(parse_symbol(sym.as_str())),
            None => None,
        },
    }
}

// ── Declaration keywords of a symbol breadcrumb ─────────────────────

/// The declaration keywords that a breadcrumb leaf may start with, each
/// followed by a space.
pub open spec fn is_declaration_keyword(kw: Seq<char>) -> bool {
    ||| kw == "pub"@
    ||| kw == "async"@
    ||| kw == "unsafe"@
    ||| kw == "const"@
    ||| kw == "static"@
    ||| kw == "fn"@
    ||| kw == "mod"@
    ||| kw == "struct"@
    ||| kw == "enum"@
    ||| kw == "trait"@
    ||| kw == "impl"@
    ||| kw == "type"@
    ||| kw == "let"@
    ||| kw == "macro"@
}

spec fn is_lower_letter(c: char) -> bool {
    97 <= c as u32 <= 122
}

/// Tells the keywords of the list apart by their length and their first
/// and third characters.
spec fn keyword_index(len: int, c0: char, c2: char) -> int {
    if len == 3 {
        5
    } else if len == 4 {
        if c0 == 'p' {
            0
        } else if c0 == 'm' {
            6
        } else {
            12
        }
    } else if len == 5 {
        if c0 == 'e' {
            8
        } else if c0 == 'i' {
            10
        } else {
            11
        }
    } else if len == 6 {
        if c0 == 'a' {
            1
        } else if c0 == 'c' {
            3
        } else if c0 == 't' {
            9
        } else {
            13
        }
    } else if c0 == 'u' {
        2
    } else if c2 == 'a' {
        4
    } else {
        7
    }
}

proof fn lemma_keyword_shape(i: int)
    requires
        0 <= i < keyword_count(),
    ensures
        3 <= keyword(i).len() <= 7,
        keyword(i).last() == ' ',
        forall|j: int| 0 <= j < keyword(i).len() - 1 ==> is_lower_letter(#[trigger] keyword(i)[j]),
        keyword_index(keyword(i).len() as int, keyword(i)[0], keyword(i)[2]) == i,
{
}

proof fn lemma_last_segment_after(p: Seq<char>, r: Seq<char>, c: char)
    requires
        p.len() == 0 || p.last() == c,
        forall|i: int| 0 <= i < r.len() ==> (#[trigger] r[i]) != c,
    ensures
        last_segment(p + r, c) == r,
    decreases r.len(),
{
    if r.len() == 0 {
        assert(p + r =~= p);
    } else {
        let d = r.drop_last();
        assert forall|i: int| 0 <= i < d.len() implies (#[trigger] d[i]) != c by {
            assert(d[i] == r[i]);
        }
        lemma_last_segment_after(p, d, c);
        assert((p + r).drop_last() =~= p + d);
        assert((p + r).last() == r[r.len() - 1]);
        assert(d.push(r.last()) =~= r);
    }
}

proof fn lemma_trim_start_skips(w: Seq<char>, t: Seq<char>)
    requires
        forall|i: int| 0 <= i < w.len() ==> is_ws(#[trigger] w[i]),
    ensures
        trim_start(w + t) == trim_start(t),
    decreases w.len(),
{
    if w.len() == 0 {
        assert(w + t =~= t);
    } else {
        let d = w.drop_first();
        assert forall|i: int| 0 <= i < d.len() implies is_ws(#[trigger] d[i]) by {
            assert(d[i] == w[i + 1]);
        }
        lemma_trim_start_skips(d, t);
        assert((w + t).drop_first() =~= d + t);
        assert((w + t)[0] == w[0]);
    }
}

proof fn lemma_first_keyword_none(s: Seq<char>, i: int)
    requires
        0 <= i,
        forall|j: int| i <= j < keyword_count() ==> !(#[trigger] keyword(j)).is_prefix_of(s),
    ensures
        first_keyword(s, i) == -1,
    decreases keyword_count() - i,
{
    if i < keyword_count() {
        lemma_first_keyword_none(s, i + 1);
    }
}

proof fn lemma_first_keyword_at(s: Seq<char>, i: int, k: int)
    requires
        0 <= i <= k < keyword_count(),
        keyword(k).is_prefix_of(s),
        forall|j: int| i <= j < k ==> !(#[trigger] keyword(j)).is_prefix_of(s),
    ensures
        first_keyword(s, i) == k,
    decreases k - i,
{
    if i < k {
        lemma_first_keyword_at(s, i + 1, k);
    }
}

/// No keyword starts a word without whitespace: each ends with a space.
proof fn lemma_no_keyword_prefix(x: Seq<char>, j: int)
    requires
        0 <= j < keyword_count(),
        forall|i: int| 0 <= i < x.len() ==> !is_ws(#[trigger] x[i]),
    ensures
        !keyword(j).is_prefix_of(x),
{
    lemma_keyword_shape(j);
    let k = keyword(j);
    if k.is_prefix_of(x) {
        assert(k[k.len() - 1] == x.subrange(0, k.len() as int)[k.len() - 1]);
        assert(x[k.len() - 1] == ' ');
    }
}

/// After keyword `k`, a word without whitespace: keyword `k` is the first
/// of the list to match.
proof fn lemma_keyword_then_word(k: int, x: Seq<char>)
    requires
        0 <= k < keyword_count(),
        forall|i: int| 0 <= i < x.len() ==> !is_ws(#[trigger] x[i]),
    ensures
        first_keyword(keyword(k) + x, 0) == k,
{
    let t = keyword(k) + x;
    let b = keyword(k).len() as int;
    lemma_keyword_shape(k);
    assert(t.subrange(0, b) =~= keyword(k));
    assert forall|j: int| 0 <= j < k implies !(#[trigger] keyword(j)).is_prefix_of(t) by {
        lemma_keyword_shape(j);
        let a = keyword(j).len() as int;
        if keyword(j).is_prefix_of(t) {
            assert(keyword(j)[a - 1] == t.subrange(0, a)[a - 1]);
            assert(t[a - 1] == ' ');
            if a < b {
                assert(t[a - 1] == keyword(k)[a - 1]);
                assert(is_lower_letter(keyword(k)[a - 1]));
            } else if a > b {
                assert(t[a - 1] == x[a - 1 - b]);
            } else {
                assert(keyword(j) =~= keyword(k));
            }
        }
    }
    lemma_first_keyword_at(t, 0, k);
}

/// Keyword `k` followed by a word without whitespace loses the keyword.
proof fn lemma_strip_one_keyword(k: int, x: Seq<char>)
    requires
        0 <= k < keyword_count(),
        forall|i: int| 0 <= i < x.len() ==> !is_ws(#[trigger] x[i]),
    ensures
        strip_keywords(keyword(k) + x) == x,
{
    let t = keyword(k) + x;
    lemma_keyword_shape(k);
    lemma_keyword_then_word(k, x);
    assert forall|j: int| 0 <= j < keyword_count() implies !(#[trigger] keyword(j)).is_prefix_of(
        x,
    ) by {
        lemma_no_keyword_prefix(x, j);
    }
    lemma_first_keyword_none(x, 0);
    assert(strip_keywords(x) == x);
    assert(t.skip(keyword(k).len() as int) =~= x);
}

/// The place in the list of a declaration keyword, with its space.
proof fn lemma_declaration_keyword_index(kw: Seq<char>) -> (k: int)
    requires
        is_declaration_keyword(kw),
    ensures
        0 <= k < keyword_count(),
        kw.push(' ') == keyword(k),
{
    reveal_strlit("pub");
    reveal_strlit("async");
    reveal_strlit("unsafe");
    reveal_strlit("const");
    reveal_strlit("static");
    reveal_strlit("fn");
    reveal_strlit("mod");
    reveal_strlit("struct");
    reveal_strlit("enum");
    reveal_strlit("trait");
    reveal_strlit("impl");
    reveal_strlit("type");
    reveal_strlit("let");
    reveal_strlit("macro");
    if kw == "pub"@ {
        assert(kw.push(' ') =~= keyword(0));
        0
    } else if kw == "async"@ {
        assert(kw.push(' ') =~= keyword(1));
        1
    } else if kw == "unsafe"@ {
        assert(kw.push(' ') =~= keyword(2));
        2
    } else if kw == "const"@ {
        assert(kw.push(' ') =~= keyword(3));
        3
    } else if kw == "static"@ {
        assert(kw.push(' ') =~= keyword(4));
        4
    } else if kw == "fn"@ {
        assert(kw.push(' ') =~= keyword(5));
        5
    } else if kw == "mod"@ {
        assert(kw.push(' ') =~= keyword(6));
        6
    } else if kw == "struct"@ {
        assert(kw.push(' ') =~= keyword(7));
        7
    } else if kw == "enum"@ {
        assert(kw.push(' ') =~= keyword(8));
        8
    } else if kw == "trait"@ {
        assert(kw.push(' ') =~= keyword(9));
        9
    } else if kw == "impl"@ {
        assert(kw.push(' ') =~= keyword(10));
        10
    } else if kw == "type"@ {
        assert(kw.push(' ') =~= keyword(11));
        11
    } else if kw == "let"@ {
        assert(kw.push(' ') =~= keyword(12));
        12
    } else {
        assert(kw.push(' ') =~= keyword(13));
        13
    }
}

/// A breadcrumb whose leaf is a declaration keyword, a space and a word
/// without whitespace or `>` gives that word: whatever comes up to the
/// last `>`, the whitespace after it and the keyword are all dropped,
/// whichever declaration keyword it is.
pub proof fn law_parse_symbol_strips_declaration_keyword(
    p: Seq<char>,
    w: Seq<char>,
    kw: Seq<char>,
    x: Seq<char>,
)
    requires
        p.len() == 0 || p.last() == '>',
        forall|i: int| 0 <= i < w.len() ==> is_ws(#[trigger] w[i]),
        is_declaration_keyword(kw),
        x.len() > 0,
        forall|i: int| 0 <= i < x.len() ==> !is_ws(#[trigger] x[i]) && x[i] != '>',
    ensures
        spec_parse_symbol(p + w + kw + seq![' '] + x) == x,
{
    let k = lemma_declaration_keyword_index(kw);
    lemma_keyword_shape(k);
    let t = keyword(k) + x;
    let r = w + t;
    assert(p + w + kw + seq![' '] + x =~= p + r);
    assert forall|i: int| 0 <= i < r.len() implies (#[trigger] r[i]) != '>' by {
        if i < w.len() {
            assert(r[i] == w[i]);
        } else if i < w.len() + keyword(k).len() {
            assert(r[i] == keyword(k)[i - w.len()]);
        } else {
            assert(r[i] == x[i - w.len() - keyword(k).len()]);
        }
    }
    lemma_last_segment_after(p, r, '>');
    lemma_trim_start_skips(w, t);
    assert(t[0] == keyword(k)[0]);
    assert(trim_start(t) == t);
    assert(t.last() == x.last());
    assert(trim_end(t) == t);
    lemma_strip_one_keyword(k, x);
}

} // verus!

