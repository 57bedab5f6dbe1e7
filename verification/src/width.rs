//! Display widths of characters and strings in terminal columns, and the
//! width-bounded truncation of text.
use vstd::prelude::*;
use crate::text::{byte_len, byte_offset, is_ws, chars_of, string_of_range, prefix_bytes, str_byte_len, is_whitespace};
use unicode_width::{UnicodeWidthChar, UnicodeWidthStr};

verus! {

broadcast use vstd::seq_lib::group_seq_properties;

/// What `UnicodeWidthChar::width` returns for `c`: its column width, or
/// `None` for a control character.
pub uninterp spec fn char_width(c: char) -> Option<usize>;

/// What `UnicodeWidthStr::width` returns for a string with the characters `s`.
pub uninterp spec fn str_width(s: Seq<char>) -> usize;

/// A printable ASCII character (space through tilde).
pub open spec fn is_printable_ascii(c: char) -> bool {
    0x20 <= (c as u32) < 0x7F
}

/// `UnicodeWidthChar::width` (unicode-width): the column width of `c`, or
/// `None` for a control character. The source answers `None` below U+0020
/// and from U+007F up to U+00A0, 1 for the other ASCII characters, and a
/// table value of at most 3 from U+00A0 on; of the table only the entry of
/// the ellipsis U+2026 (one column) is stated.
#[verifier::external_body]
pub(crate) fn char_display_width(c: char) -> (r: Option<usize>)
    ensures
        r == char_width(c),
        (c as u32) < 0x20 ==> r == None::<usize>,
        0x20 <= (c as u32) < 0x7F ==> r == Some(1usize),
        0x7F <= (c as u32) < 0xA0 ==> r == None::<usize>,
        0xA0 <= (c as u32) ==> r.is_some() && r.unwrap() <= 3,
        c == '\u{2026}' ==> r == Some(1usize),
{
    UnicodeWidthChar::width(c)
}

/// `UnicodeWidthStr::width` (unicode-width): the column width of `s`. The
/// source sums character widths except inside some multi-character
/// sequences (emoji and script ligatures, `"\r\n"`), all of which involve a
/// character outside printable ASCII other than the ellipsis U+2026 (one
/// column, and it starts no such sequence); so a printable-ASCII string is
/// as wide as it is long, and so is one that ends in an ellipsis after
/// printable ASCII. Other strings are not stated.
#[verifier::external_body]
pub(crate) fn text_width(s: &str) -> (r: usize)
    ensures
        r == str_width(s@),
        (forall|i: int| 0 <= i < s@.len() ==> is_printable_ascii(#[trigger] s@[i])) ==> r
            == s@.len(),
        s@.len() > 0 && s@.last() == '\u{2026}' && (forall|i: int|
            0 <= i < s@.len() - 1 ==> is_printable_ascii(#[trigger] s@[i])) ==> r == s@.len(),
{
    UnicodeWidthStr::width(s)
}

/// Every character of `s` is printable ASCII.
pub open spec fn all_printable(s: Seq<char>) -> bool {
    forall|i: int| 0 <= i < s.len() ==> is_printable_ascii(#[trigger] s[i])
}

/// Column width of `c` counted as 0 for a control character.
pub open spec fn cw(c: char) -> int {
    match char_width(c) {
        Some(w) => w as int,
        None => 0,
    }
}

/// Sum of the column widths of `s`, control characters counted as 0.
pub open spec fn chars_width(s: Seq<char>) -> int
    decreases s.len(),
{
    if s.len() == 0 {
        0
    } else {
        cw(s[0]) + chars_width(s.drop_first())
    }
}

/// Number of leading characters of `s` that fit in `max` columns, taking
/// characters one by one until the next one would overflow.
pub open spec fn fit_len(s: Seq<char>, max: int) -> nat
    decreases s.len(),
{
    if s.len() == 0 {
        0
    } else if cw(s[0]) <= max {
        1 + fit_len(s.drop_first(), max - cw(s[0]))
    } else {
        0
    }
}

proof fn lemma_width_nonneg(c: char)
    ensures
        0 <= cw(c),
{
}

pub proof fn lemma_fit_len(s: Seq<char>, max: int)
    requires
        max >= 0,
    ensures
        fit_len(s, max) <= s.len(),
        0 <= chars_width(s.take(fit_len(s, max) as int)) <= max,
    decreases s.len(),
{
    if s.len() > 0 && cw(s[0]) <= max {
        lemma_width_nonneg(s[0]);
        lemma_fit_len(s.drop_first(), max - cw(s[0]));
        let k = fit_len(s, max) as int;
        assert(s.take(k).drop_first() =~= s.drop_first().take(k - 1));
    } else {
        assert(s.take(0) =~= Seq::<char>::empty());
    }
}

/// `cw` of one character as a machine integer.
fn exec_cw(c: char) -> (w: usize)
    ensures
        w == cw(c),
        w <= 3,
        is_printable_ascii(c) ==> w == 1,
{
    match char_display_width(c) {
        Some(w) => w,
        None => 0,
    }
}

/// Number of leading characters of `v` that fit in `max` columns, and
/// their width.
pub(crate) fn fit_prefix(v: &Vec<char>, max: usize) -> (r: (usize, usize))
    ensures
        r.0 == fit_len(v@, max as int),
        r.1 == chars_width(v@.take(r.0 as int)),
        r.0 <= v.len(),
        r.1 <= max,
        all_printable(v@) ==> r.0 == if v@.len() <= max { v@.len() as int } else { max as int },
{
    let ghost ascii = all_printable(v@);
    let mut width: usize = 0;
    let mut i: usize = 0;
    while i < v.len()
        invariant
            i <= v.len(),
            width <= max,
            width == chars_width(v@.take(i as int)),
            fit_len(v@, max as int) == i + fit_len(v@.skip(i as int), max - width),
            ascii == all_printable(v@),
            ascii ==> width == i,
        ensures
            i <= v.len(),
            width <= max,
            width == chars_width(v@.take(i as int)),
            fit_len(v@, max as int) == i,
            ascii ==> i == if v@.len() <= max { v@.len() as int } else { max as int },
        decreases v.len() - i,
    {
        let w = exec_cw(v[i]);
        proof {
            assert(v@.skip(i as int)[0] == v@[i as int]);
            assert(v@.skip(i as int).drop_first() =~= v@.skip(i + 1));
        }
        if w > max - width {
            proof {
                assert(fit_len(v@.skip(i as int), max - width) == 0);
            }
            break;
        }
        proof {
            lemma_chars_width_push(v@.take(i as int), v@[i as int]);
            assert(v@.take(i + 1) =~= v@.take(i as int).push(v@[i as int]));
        }
        width = width + w;
        i = i + 1;
        proof {
            if i == v.len() {
                assert(v@.skip(i as int) =~= Seq::<char>::empty());
            }
        }
    }
    (i, width)
}

pub proof fn lemma_chars_width_push(s: Seq<char>, c: char)
    ensures
        chars_width(s.push(c)) == chars_width(s) + cw(c),
    decreases s.len(),
{
    if s.len() == 0 {
        assert(s.push(c).drop_first() =~= Seq::<char>::empty());
    } else {
        assert(s.push(c).drop_first() =~= s.drop_first().push(c));
        lemma_chars_width_push(s.drop_first(), c);
    }
}

/// The longest prefix of `s` (in whole characters) that fits in
/// `max_width` columns, and its width.
pub fn truncate_to_width(s: &str, max_width: usize) -> (r: (&str, usize))
    ensures
        r.0@ == s@.take(fit_len(s@, max_width as int) as int),
        r.1 == chars_width(r.0@),
        r.1 <= max_width,
        all_printable(s@) ==> r.0@.len() == if s@.len() <= max_width {
            s@.len() as int
        } else {
            max_width as int
        },
{
    let v = chars_of(s);
    let (k, w) = fit_prefix(&v, max_width);
    let t = s.substring_char(0, k);
    proof {
        assert(s@.subrange(0, k as int) =~= s@.take(k as int));
    }
    (t, w)
}

/// The longest prefix of `line` (in whole characters) that fits in
/// `max_width` columns.
pub fn truncate_line_to_width(line: &str, max_width: usize) -> (r: String)
    ensures
        r@ == line@.take(fit_len(line@, max_width as int) as int),
{
    let v = chars_of(line);
    let (k, _w) = fit_prefix(&v, max_width);
    let r = string_of_range(&v, 0, k);
    proof {
        assert(v@.subrange(0, k as int) =~= v@.take(k as int));
    }
    r
}

/// Number of leading whitespace characters of `s`.
pub open spec fn leading_ws(s: Seq<char>) -> nat
    decreases s.len(),
{
    if s.len() > 0 && is_ws(s[0]) {
        1 + leading_ws(s.drop_first())
    } else {
        0
    }
}

proof fn lemma_leading_ws(s: Seq<char>)
    ensures
        leading_ws(s) <= s.len(),
    decreases s.len(),
{
    if s.len() > 0 && is_ws(s[0]) {
        lemma_leading_ws(s.drop_first());
    }
}

/// Strip leading whitespace from a string and return the number of bytes
/// stripped.
pub fn strip_leading_whitespace(s: &str) -> (r: (&str, usize))
    ensures
        r.0@ == s@.skip(leading_ws(s@) as int),
        r.1 == byte_offset(s@, leading_ws(s@) as int),
{
    let v = chars_of(s);
    let n = str_byte_len(s);
    let mut k: usize = 0;
    while k < v.len() && is_whitespace(v[k])
        invariant
            k <= v.len(),
            leading_ws(v@) == k + leading_ws(v@.skip(k as int)),
        decreases v.len() - k,
    {
        proof {
            assert(v@.skip(k as int).drop_first() =~= v@.skip(k + 1));
        }
        k = k + 1;
    }
    proof {
        if k == v.len() {
            assert(v@.skip(k as int) =~= Seq::<char>::empty());
        }
        assert(leading_ws(v@.skip(k as int)) == 0);
    }
    let shift = prefix_bytes(&v, k);
    let t = s.substring_char(k, v.len());
    proof {
        assert(s@.subrange(k as int, s@.len() as int) =~= s@.skip(k as int));
    }
    (t, shift)
}

} // verus!
