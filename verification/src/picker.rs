//! Search modes and scopes, unified search results, the multi-select key
//! of a result, and the assembly of a search output from the fuzzy file
//! matches and the content (grep) matches that a search backend produced.
use vstd::prelude::*;
use crate::text::string_push;
use crate::numfmt::{decimal, push_decimal};

verus! {

broadcast use vstd::seq_lib::group_seq_properties;

/// Search behaviour toggles (case sensitivity, regex, etc.).
#[derive(Clone, Copy, Debug)]
pub struct SearchMode {
    pub case_sensitive: bool,
    pub whole_word: bool,
    pub regex: bool,
    pub fixed_strings: bool,
    pub group_grep: bool,
    pub fuzzy: bool,
}

impl Default for SearchMode {
    /// Every toggle off.
    fn default() -> (r: Self)
        ensures
            r == (SearchMode {
                case_sensitive: false,
                whole_word: false,
                regex: false,
                fixed_strings: false,
                group_grep: false,
                fuzzy: false,
            }),
    {
        SearchMode {
            case_sensitive: false,
            whole_word: false,
            regex: false,
            fixed_strings: false,
            group_grep: false,
            fuzzy: false,
        }
    }
}

/// Which result types to include in a search.
#[derive(Clone, Copy, Debug, PartialEq, Eq, Structural)]
pub enum SearchScope {
    Unified,
    FileOnly,
    GrepOnly,
}

impl Default for SearchScope {
    /// Unified search (files and content).
    fn default() -> (r: Self)
        ensures
            r == SearchScope::Unified,
    {
        SearchScope::Unified
    }
}

/// The kind of search result.
#[derive(Clone, Copy, Debug, PartialEq, Eq, Structural)]
pub enum MatchKind {
    File,
    Line,
    FileHeader,
}

impl Default for MatchKind {
    /// A file match.
    fn default() -> (r: Self)
        ensures
            r == MatchKind::File,
    {
        MatchKind::File
    }
}

/// A unified search result — either a file path match or a content line match.
#[derive(Clone, Debug, Default)]
pub struct UnifiedResult {
    pub kind: MatchKind,
    pub relative_path: String,
    pub absolute_path: String,
    pub score: i32,
    pub exact_match: bool,
    /// Line-only fields
    pub line_number: Option<u64>,
    pub column: Option<u32>,
    pub line_content: Option<String>,
    pub match_byte_offsets: Option<Vec<(u32, u32)>>,
    pub is_definition: Option<bool>,
    pub git_status: Option<String>,
}

/// The mathematical content of a [`UnifiedResult`].
pub struct ResultView {
    pub kind: MatchKind,
    pub relative_path: Seq<char>,
    pub absolute_path: Seq<char>,
    pub score: i32,
    pub exact_match: bool,
    pub line_number: Option<u64>,
    pub column: Option<u32>,
    pub line_content: Option<Seq<char>>,
    pub match_byte_offsets: Option<Seq<(u32, u32)>>,
    pub is_definition: Option<bool>,
    pub git_status: Option<Seq<char>>,
}

pub open spec fn opt_str_view(o: Option<String>) -> Option<Seq<char>> {
    match o {
        Some(s) => Some(s@),
        None => None,
    }
}

pub open spec fn opt_vec_view(o: Option<Vec<(u32, u32)>>) -> Option<Seq<(u32, u32)>> {
    match o {
        Some(v) => Some(v@),
        None => None,
    }
}

impl View for UnifiedResult {
    type V = ResultView;

    open spec fn view(&self) -> ResultView {
        ResultView {
            kind: self.kind,
            relative_path: self.relative_path@,
            absolute_path: self.absolute_path@,
            score: self.score,
            exact_match: self.exact_match,
            line_number: self.line_number,
            column: self.column,
            line_content: opt_str_view(self.line_content),
            match_byte_offsets: opt_vec_view(self.match_byte_offsets),
            is_definition: self.is_definition,
            git_status: opt_str_view(self.git_status),
        }
    }
}

/// The views of a sequence of results.
pub open spec fn views(s: Seq<UnifiedResult>) -> Seq<ResultView> {
    s.map_values(|r: UnifiedResult| r@)
}

pub fn clone_opt_string(o: &Option<String>) -> (r: Option<String>)
    ensures
        opt_str_view(r) == opt_str_view(*o),
{
    match o {
        Some(s) => Some(s.clone()),
        None => None,
    }
}

pub fn clone_pairs(v: &Vec<(u32, u32)>) -> (r: Vec<(u32, u32)>)
    ensures
        r@ == v@,
{
    let mut r: Vec<(u32, u32)> = Vec::new();
    let mut i: usize = 0;
    while i < v.len()
        invariant
            i <= v.len(),
            r@ == v@.take(i as int),
        decreases v.len() - i,
    {
        r.push(v[i]);
        i = i + 1;
        assert(r@ =~= v@.take(i as int));
    }
    assert(v@.take(v@.len() as int) =~= v@);
    r
}

impl UnifiedResult {
    /// A copy of this result with the same content.
    pub fn duplicate(&self) -> (r: UnifiedResult)
        ensures
            r@ == self@,
    {
        UnifiedResult {
            kind: self.kind,
            relative_path: self.relative_path.clone(),
            absolute_path: self.absolute_path.clone(),
            score: self.score,
            exact_match: self.exact_match,
            line_number: self.line_number,
            column: self.column,
            line_content: clone_opt_string(&self.line_content),
            match_byte_offsets: match &self.match_byte_offsets {
                Some(v) => Some(clone_pairs(v)),
                None => None,
            },
            is_definition: self.is_definition,
            git_status: clone_opt_string(&self.git_status),
        }
    }
}

/// Unique key for a result used in multi-select: the absolute path, and for
/// a line match also `:line:column` (column 1 when unknown).
pub open spec fn spec_selection_key(r: ResultView) -> Seq<char> {
    match r.line_number {
        Some(ln) => r.absolute_path + seq![':'] + decimal(ln as nat) + seq![':'] + decimal(
            match r.column {
                Some(c) => c as nat,
                None => 1nat,
            },
        ),
        None => r.absolute_path,
    }
}

/// Unique key for a result used in multi-select.
pub fn selection_key(result: &UnifiedResult) -> (key: String)
    ensures
        key@ == spec_selection_key(result@),
{
    match result.line_number {
        Some(ln) => {
            let mut s = result.absolute_path.clone();
            string_push(&mut s, ':');
            push_decimal(&mut s, ln);
            string_push(&mut s, ':');
            let col: u32 = match result.column {
                Some(c) => c,
                None => 1,
            };
            push_decimal(&mut s, col as u64);
            s
        },
        None => result.absolute_path.clone(),
    }
}

/// Output of a search operation.
pub struct SearchOutput {
    pub results: Vec<UnifiedResult>,
    pub highlight_query: String,
    pub fuzzy_total_matched: usize,
    pub grep_page_matched: usize,
}

impl SearchOutput {
    /// No results; the highlight query is the raw query.
    pub fn empty(query: &str) -> (out: Self)
        ensures
            out.results@.len() == 0,
            out.highlight_query@ == query@,
            out.fuzzy_total_matched == 0,
            out.grep_page_matched == 0,
    {
        SearchOutput {
            results: Vec::new(),
            highlight_query: String::from_str(query),
            fuzzy_total_matched: 0,
            grep_page_matched: 0,
        }
    }
}

/// Index of the first item whose selection key is `key`, searching from
/// index `i`; -1 when there is none.
pub open spec fn first_key_index(items: Seq<ResultView>, key: Seq<char>, i: int) -> int
    decreases items.len() - i,
{
    if i < 0 || i >= items.len() {
        -1
    } else if spec_selection_key(items[i]) == key {
        i
    } else {
        first_key_index(items, key, i + 1)
    }
}

/// The first matching index is in range and carries the key, and no item
/// before it does.
pub proof fn lemma_first_key_index(items: Seq<ResultView>, key: Seq<char>, i: int)
    requires
        0 <= i,
    ensures
        first_key_index(items, key, i) == -1 || (i <= first_key_index(items, key, i) < items.len()
            && spec_selection_key(items[first_key_index(items, key, i)]) == key),
        forall|j: int|
            i <= j < items.len() && (first_key_index(items, key, i) == -1 || j < first_key_index(
                items,
                key,
                i,
            )) ==> spec_selection_key(#[trigger] items[j]) != key,
    decreases items.len() - i,
{
    if i < items.len() && spec_selection_key(items[i]) != key {
        lemma_first_key_index(items, key, i + 1);
    }
}

/// No two items share a selection key.
pub open spec fn unique_keys(items: Seq<ResultView>) -> bool {
    forall|i: int, j: int|
        0 <= i < j < items.len() ==> spec_selection_key(#[trigger] items[i])
            != spec_selection_key(#[trigger] items[j])
}

/// Index of the first item of `items` whose key is `key` (-1 when absent).
pub fn find_key(items: &Vec<UnifiedResult>, key: &String) -> (p: Option<usize>)
    ensures
        match p {
            Some(i) => i == first_key_index(views(items@), key@, 0),
            None => first_key_index(views(items@), key@, 0) == -1,
        },
{
    let ghost vs = views(items@);
    let mut i: usize = 0;
    while i < items.len()
        invariant
            i <= items.len(),
            vs == views(items@),
            first_key_index(vs, key@, 0) == first_key_index(vs, key@, i as int),
        decreases items.len() - i,
    {
        let k = selection_key(&items[i]);
        if k == *key {
            return Some(i);
        }
        i = i + 1;
    }
    None
}

} // verus!
