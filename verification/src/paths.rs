//! Shortening of directory paths to a column budget.
use vstd::prelude::*;
use crate::text::{chars_of, string_of_range, string_push, push_str, string_of_chars, chars_equal};
use crate::numfmt::{decimal, push_decimal};
use crate::cli::last_segment;
use crate::width::{str_width, text_width, fit_len, truncate_to_width, all_printable};

verus! {

broadcast use vstd::seq_lib::group_seq_properties;

/// Number of occurrences of `c` in `s`.
pub open spec fn count_char(s: Seq<char>, c: char) -> nat
    decreases s.len(),
{
    if s.len() == 0 {
        0
    } else {
        count_char(s.drop_last(), c) + if s.last() == c {
            1nat
        } else {
            0nat
        }
    }
}

/// The part of `s` before the first occurrence of `c` (all of `s` when `c`
/// does not occur).
pub open spec fn first_segment(s: Seq<char>, c: char) -> Seq<char>
    decreases s.len(),
{
    if s.len() == 0 {
        s
    } else if s[0] == c {
        Seq::<char>::empty()
    } else {
        seq![s[0]] + first_segment(s.drop_first(), c)
    }
}

/// The horizontal ellipsis.
pub open spec fn ellipsis() -> char {
    '\u{2026}'
}

/// `s` cut to fit `max - 1` columns and followed by an ellipsis, unless
/// nothing of `s` fits.
pub open spec fn ellipsized(s: Seq<char>, max: int) -> Option<Seq<char>> {
    let budget = if max >= 1 {
        max - 1
    } else {
        0
    };
    let t = s.take(fit_len(s, budget) as int);
    if t.len() > 0 {
        Some(t.push(ellipsis()))
    } else {
        None
    }
}

pub open spec fn dots3() -> Seq<char> {
    seq!['.', '.', '.']
}

/// `candidate` if it fits in `max` columns, else `.../last` if that fits.
pub open spec fn fitting(candidate: Seq<char>, last: Seq<char>, max: int) -> Option<Seq<char>> {
    let alt = dots3() + seq!['/'] + last;
    if str_width(candidate) <= max {
        Some(candidate)
    } else if str_width(alt) <= max {
        Some(alt)
    } else {
        None
    }
}

/// `dir_path` shortened to `max_width` columns by `strategy`:
/// `middle` keeps the first and last components around `...`,
/// `middle_number` does the same but writes `.N.` for more than three
/// hidden components, `end` cuts the end off with an ellipsis. A path that
/// fits, or is empty, is kept; paths of at most two components, and
/// strategies that fail, fall back to cutting the end off; when not even
/// one character fits, the path is kept.
pub open spec fn spec_shorten_dir_path(d: Seq<char>, max: int, strategy: Seq<char>) -> Seq<char> {
    let fallback = match ellipsized(d, max) {
        Some(t) => t,
        None => d,
    };
    if d.len() == 0 || str_width(d) <= max {
        d
    } else if count_char(d, '/') + 1 <= 2 {
        fallback
    } else {
        let first = first_segment(d, '/');
        let last = last_segment(d, '/');
        let hidden = count_char(d, '/') - 1;
        let attempt = if strategy == seq!['m', 'i', 'd', 'd', 'l', 'e'] {
            fitting(first + seq!['/'] + dots3() + seq!['/'] + last, last, max)
        } else if strategy == seq![
            'm',
            'i',
            'd',
            'd',
            'l',
            'e',
            '_',
            'n',
            'u',
            'm',
            'b',
            'e',
            'r',
        ] {
            let middle = if hidden <= 3 {
                dots3()
            } else {
                seq!['.'] + decimal(hidden as nat) + seq!['.']
            };
            fitting(first + seq!['/'] + middle + seq!['/'] + last, last, max)
        } else if strategy == seq!['e', 'n', 'd'] {
            ellipsized(d, max)
        } else {
            None
        };
        match attempt {
            Some(x) => x,
            None => fallback,
        }
    }
}

/// Number of `'/'` in `v`.
fn count_slashes(v: &Vec<char>) -> (n: usize)
    ensures
        n == count_char(v@, '/'),
{
    let mut count: usize = 0;
    let mut i: usize = 0;
    while i < v.len()
        invariant
            i <= v.len(),
            count == count_char(v@.take(i as int), '/'),
            count <= i,
        decreases v.len() - i,
    {
        proof {
            assert(v@.take(i + 1).drop_last() =~= v@.take(i as int));
        }
        if v[i] == '/' {
            count = count + 1;
        }
        i = i + 1;
    }
    proof {
        assert(v@.take(v@.len() as int) =~= v@);
    }
    count
}

/// Index just before the first `'/'` of `v` (its length when none).
fn first_slash(v: &Vec<char>) -> (f: usize)
    ensures
        f <= v.len(),
        v@.take(f as int) == first_segment(v@, '/'),
{
    let mut i: usize = 0;
    while i < v.len() && v[i] != '/'
        invariant
            i <= v.len(),
            forall|j: int| 0 <= j < i ==> v@[j] != '/',
        decreases v.len() - i,
    {
        i = i + 1;
    }
    proof {
        lemma_first_segment(v@, i as int);
    }
    i
}

/// Index just after the last `'/'` of `v` (0 when none).
fn last_slash(v: &Vec<char>) -> (l: usize)
    ensures
        l <= v.len(),
        v@.skip(l as int) == last_segment(v@, '/'),
{
    let mut i: usize = v.len();
    while i > 0 && v[i - 1] != '/'
        invariant
            i <= v.len(),
            forall|j: int| i <= j < v.len() ==> v@[j] != '/',
        decreases i,
    {
        i = i - 1;
    }
    proof {
        lemma_last_segment(v@, i as int);
    }
    i
}

/// Number of `'/'` in `v`, and the indices just before the first and just
/// after the last one.
fn slash_layout(v: &Vec<char>) -> (r: (usize, usize, usize))
    ensures
        r.0 == count_char(v@, '/'),
        r.1 <= v.len(),
        r.2 <= v.len(),
        v@.take(r.1 as int) == first_segment(v@, '/'),
        v@.skip(r.2 as int) == last_segment(v@, '/'),
{
    (count_slashes(v), first_slash(v), last_slash(v))
}

proof fn lemma_first_segment(s: Seq<char>, f: int)
    requires
        0 <= f <= s.len(),
        f < s.len() ==> s[f] == '/',
        forall|j: int| 0 <= j < f ==> s[j] != '/',
    ensures
        s.take(f) == first_segment(s, '/'),
    decreases s.len(),
{
    if s.len() == 0 {
    } else if f == 0 {
        assert(s.take(0) =~= Seq::<char>::empty());
    } else {
        lemma_first_segment(s.drop_first(), f - 1);
        assert(s.take(f) =~= seq![s[0]] + s.drop_first().take(f - 1));
    }
}

proof fn lemma_last_segment(s: Seq<char>, l: int)
    requires
        0 <= l <= s.len(),
        l > 0 ==> s[l - 1] == '/',
        forall|j: int| l <= j < s.len() ==> s[j] != '/',
    ensures
        s.skip(l) == last_segment(s, '/'),
    decreases s.len(),
{
    if s.len() == 0 {
        assert(s.skip(l) =~= s);
    } else if l == s.len() {
        assert(s.skip(l) =~= Seq::<char>::empty());
    } else {
        lemma_last_segment(s.drop_last(), l);
        assert(s.skip(l) =~= s.drop_last().skip(l).push(s.last()));
    }
}

/// `s` cut to `max - 1` columns with an ellipsis, if anything fits.
fn exec_ellipsized(s: &str, max: usize) -> (r: Option<String>)
    ensures
        match r {
            Some(t) => ellipsized(s@, max as int) == Some(t@),
            None => ellipsized(s@, max as int) is None,
        },
        s@.len() > 0 && all_printable(s@) && max >= 2 ==> (r matches Some(t) && t@.len() > 0
            && str_width(t@) <= max),
{
    let budget = if max >= 1 {
        max - 1
    } else {
        0
    };
    let (t, _w) = truncate_to_width(s, budget);
    if t.unicode_len() > 0 {
        let mut out = String::from_str(t);
        string_push(&mut out, '\u{2026}');
        // The width of the result, which the contract states for ASCII text.
        let _cols = text_width(out.as_str());
        proof {
            crate::width::lemma_fit_len(s@, budget as int);
            if all_printable(s@) {
                assert(out@ =~= t@.push('\u{2026}'));
                assert forall|i: int| 0 <= i < out@.len() - 1 implies crate::width::is_printable_ascii(
                    #[trigger] out@[i],
                ) by {
                    assert(out@[i] == t@[i]);
                    assert(t@[i] == s@[i]);
                }
            }
        }
        Some(out)
    } else {
        None
    }
}

/// `candidate`, or `.../last`, whichever first fits in `max` columns.
fn exec_fitting(candidate: String, last: &String, max: usize) -> (r: Option<String>)
    ensures
        match r {
            Some(t) => fitting(candidate@, last@, max as int) == Some(t@),
            None => fitting(candidate@, last@, max as int) is None,
        },
{
    if text_width(candidate.as_str()) <= max {
        return Some(candidate);
    }
    let mut alt = String::new();
    push_str(&mut alt, "...");
    string_push(&mut alt, '/');
    push_str(&mut alt, last.as_str());
    proof {
        reveal_strlit("...");
        assert(alt@ =~= dots3() + seq!['/'] + last@);
    }
    if text_width(alt.as_str()) <= max {
        Some(alt)
    } else {
        None
    }
}

/// Shorten a directory path to fit in `max_width` columns.
pub fn shorten_dir_path(dir_path: &str, max_width: usize, strategy: &str) -> (r: String)
    ensures
        r@ == spec_shorten_dir_path(dir_path@, max_width as int, strategy@),
        dir_path@.len() > 0 && all_printable(dir_path@) && max_width >= 2 ==> r@.len() > 0
            && str_width(r@) <= max_width,
{
    let fallback = match exec_ellipsized(dir_path, max_width) {
        Some(t) => t,
        None => String::from_str(dir_path),
    };
    if dir_path.unicode_len() == 0 || text_width(dir_path) <= max_width {
        return String::from_str(dir_path);
    }
    let v = chars_of(dir_path);
    let (count, first_end, last_start) = slash_layout(&v);
    if count <= 1 {
        return fallback;
    }
    let first = string_of_range(&v, 0, first_end);
    let last = string_of_range(&v, last_start, v.len());
    proof {
        assert(v@.subrange(0, first_end as int) =~= v@.take(first_end as int));
        assert(v@.subrange(last_start as int, v@.len() as int) =~= v@.skip(last_start as int));
    }
    let hidden = count - 1;
    let sv = chars_of(strategy);
    let middle_lit = vec!['m', 'i', 'd', 'd', 'l', 'e'];
    let middle_number_lit = vec!['m', 'i', 'd', 'd', 'l', 'e', '_', 'n', 'u', 'm', 'b', 'e', 'r'];
    let end_lit = vec!['e', 'n', 'd'];
    proof {
        assert(middle_lit@ =~= seq!['m', 'i', 'd', 'd', 'l', 'e']);
        assert(middle_number_lit@ =~= seq![
            'm',
            'i',
            'd',
            'd',
            'l',
            'e',
            '_',
            'n',
            'u',
            'm',
            'b',
            'e',
            'r',
        ]);
        assert(end_lit@ =~= seq!['e', 'n', 'd']);
        reveal_strlit("...");
    }
    let attempt = if chars_equal(&sv, &middle_lit) {
        let mut c = first.clone();
        string_push(&mut c, '/');
        push_str(&mut c, "...");
        string_push(&mut c, '/');
        push_str(&mut c, last.as_str());
        proof {
            assert(c@ =~= first@ + seq!['/'] + dots3() + seq!['/'] + last@);
        }
        exec_fitting(c, &last, max_width)
    } else if chars_equal(&sv, &middle_number_lit) {
        let mut c = first.clone();
        string_push(&mut c, '/');
        let ghost before = c@;
        if hidden <= 3 {
            push_str(&mut c, "...");
            proof {
                assert(c@ =~= before + dots3());
            }
        } else {
            string_push(&mut c, '.');
            push_decimal(&mut c, hidden as u64);
            string_push(&mut c, '.');
            proof {
                assert(c@ =~= before + (seq!['.'] + decimal(hidden as nat) + seq!['.']));
            }
        }
        string_push(&mut c, '/');
        push_str(&mut c, last.as_str());
        proof {
            let middle = if hidden <= 3 {
                dots3()
            } else {
                seq!['.'] + decimal(hidden as nat) + seq!['.']
            };
            assert(c@ =~= first@ + seq!['/'] + middle + seq!['/'] + last@);
        }
        exec_fitting(c, &last, max_width)
    } else if chars_equal(&sv, &end_lit) {
        exec_ellipsized(dir_path, max_width)
    } else {
        None
    };
    match attempt {
        Some(x) => x,
        None => fallback,
    }
}

} // verus!
