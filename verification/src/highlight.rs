//! Fuzzy-match highlighting: the byte positions at which the characters of
//! a query are found, greedily and case-insensitively, in a text; and the
//! merging of those positions into byte ranges.
use vstd::prelude::*;
use crate::text::{
    byte_len, byte_offset, utf8_width, chars_of, prefix_bytes, str_byte_len, char_width_utf8,
    is_char_boundary_of, char_index_at, index_of_boundary, lemma_byte_offset_mono,
    lemma_byte_offset_full, lemma_byte_offset_step, lemma_char_index_at, lemma_utf8_width_bounds,
};

verus! {

broadcast use vstd::seq_lib::group_seq_properties;

/// What `str::to_lowercase` returns for a string with the characters `s`
/// (full Unicode lower-casing, which can change lengths).
pub uninterp spec fn lowercase(s: Seq<char>) -> Seq<char>;

/// `str::to_lowercase`: the lower-case form of `s`.
#[verifier::external_body]
fn to_lowercase(s: &str) -> (r: String)
    ensures
        r@ == lowercase(s@),
{
    s.to_lowercase()
}

/// First character index at or after `from` where `t` holds `c`; -1 when none.
pub open spec fn find_from(t: Seq<char>, c: char, from: int) -> int
    decreases t.len() - from,
{
    if from < 0 || from >= t.len() {
        -1
    } else if t[from] == c {
        from
    } else {
        find_from(t, c, from + 1)
    }
}

/// Character indices at which the characters of `q` are found in `t`, each
/// search starting just after the previous find, from index `from`; `None`
/// when some character is not found.
pub open spec fn greedy_positions(q: Seq<char>, t: Seq<char>, from: int) -> Option<Seq<int>>
    decreases q.len(),
{
    if q.len() == 0 {
        Some(Seq::<int>::empty())
    } else {
        let j = find_from(t, q[0], from);
        if j < 0 {
            None
        } else {
            match greedy_positions(q.drop_first(), t, j + 1) {
                Some(rest) => Some(seq![j] + rest),
                None => None,
            }
        }
    }
}

/// What `char::to_lowercase` yields for `c`.
pub uninterp spec fn char_lower(c: char) -> Seq<char>;

/// `char::to_lowercase`: the lower-case mapping of `c` as one or more
/// characters (documented to be the character itself when it has none).
/// Which characters the mapping gives is not stated.
#[verifier::external_body]
fn lower_char(c: char) -> (r: Vec<char>)
    ensures
        r@ == char_lower(c),
        r@.len() >= 1,
{
    c.to_lowercase().collect()
}

/// `t` with each character lower-cased on its own.
pub open spec fn lower_all(t: Seq<char>) -> Seq<char>
    decreases t.len(),
{
    if t.len() == 0 {
        Seq::<char>::empty()
    } else {
        lower_all(t.drop_last()) + char_lower(t.last())
    }
}

/// For each character of `lower_all(t)`, the index in `t` of the character
/// it comes from.
pub open spec fn lower_origin(t: Seq<char>) -> Seq<int>
    decreases t.len(),
{
    if t.len() == 0 {
        Seq::<int>::empty()
    } else {
        lower_origin(t.drop_last()) + Seq::new(char_lower(t.last()).len(), |i: int| t.len() - 1)
    }
}

/// `s` with each run of equal neighbours kept once.
pub open spec fn dedup(s: Seq<int>) -> Seq<int>
    decreases s.len(),
{
    if s.len() == 0 {
        s
    } else {
        let d = dedup(s.drop_last());
        if d.len() > 0 && d.last() == s.last() {
            d
        } else {
            d.push(s.last())
        }
    }
}

/// The origins are a non-decreasing map onto the character indices of `t`,
/// one per lower-cased character.
pub proof fn lemma_lower_origin(t: Seq<char>)
    ensures
        lower_origin(t).len() == lower_all(t).len(),
        forall|i: int| 0 <= i < lower_origin(t).len() ==> 0 <= #[trigger] lower_origin(t)[i] < t.len(),
        forall|i: int, j: int|
            0 <= i <= j < lower_origin(t).len() ==> #[trigger] lower_origin(t)[i]
                <= #[trigger] lower_origin(t)[j],
    decreases t.len(),
{
    if t.len() > 0 {
        let d = t.drop_last();
        lemma_lower_origin(d);
        let a = lower_origin(d);
        let b = Seq::new(char_lower(t.last()).len(), |i: int| t.len() - 1);
        let o = a + b;
        assert forall|i: int| 0 <= i < o.len() implies 0 <= #[trigger] o[i] < t.len() by {
            if i < a.len() {
                assert(o[i] == a[i]);
            } else {
                assert(o[i] == b[i - a.len()]);
            }
        }
        assert forall|i: int, j: int| 0 <= i <= j < o.len() implies #[trigger] o[i] <= #[trigger] o[j] by {
            if j < a.len() {
                assert(o[i] == a[i]);
                assert(o[j] == a[j]);
            } else if i < a.len() {
                assert(o[i] == a[i]);
                assert(o[j] == b[j - a.len()]);
            } else {
                assert(o[i] == b[i - a.len()]);
                assert(o[j] == b[j - a.len()]);
            }
        }
    }
}

/// `acc` in front of a possible continuation.
pub open spec fn prepend(acc: Seq<int>, rest: Option<Seq<int>>) -> Option<Seq<int>> {
    match rest {
        Some(r) => Some(acc + r),
        None => None,
    }
}

pub proof fn lemma_find_from(t: Seq<char>, c: char, from: int)
    requires
        0 <= from,
    ensures
        find_from(t, c, from) == -1 || (from <= find_from(t, c, from) < t.len() && t[find_from(
            t,
            c,
            from,
        )] == c),
    decreases t.len() - from,
{
    if from < t.len() && t[from] != c {
        lemma_find_from(t, c, from + 1);
    }
}

fn exec_find_from(t: &Vec<char>, c: char, from: usize) -> (j: Option<usize>)
    ensures
        match j {
            Some(j) => j == find_from(t@, c, from as int),
            None => find_from(t@, c, from as int) == -1,
        },
{
    let mut i = from;
    while i < t.len()
        invariant
            from <= i,
            find_from(t@, c, from as int) == find_from(t@, c, i as int),
        decreases t.len() - i,
    {
        if t[i] == c {
            return Some(i);
        }
        i = i + 1;
    }
    None
}

/// Character positions in `t` of a greedy left-to-right match of the
/// characters of `q`; `None` when some character is missing.
fn greedy_char_positions(q: &Vec<char>, t: &Vec<char>) -> (r: Option<Vec<usize>>)
    ensures
        match r {
            Some(v) => greedy_positions(q@, t@, 0) == Some(v@.map_values(|x: usize| x as int)),
            None => greedy_positions(q@, t@, 0) is None,
        },
{
    let mut res: Vec<usize> = Vec::new();
    let ghost mut acc: Seq<int> = Seq::empty();
    let mut tp: usize = 0;
    let mut i: usize = 0;
    while i < q.len()
        invariant
            i <= q.len(),
            tp <= t.len(),
            greedy_positions(q@, t@, 0) == prepend(acc, greedy_positions(q@.skip(i as int), t@, tp as int)),
            res@.map_values(|x: usize| x as int) == acc,
        decreases q.len() - i,
    {
        let c = q[i];
        proof {
            assert(q@.skip(i as int)[0] == c);
            assert(q@.skip(i as int).drop_first() =~= q@.skip(i + 1));
            lemma_find_from(t@, c, tp as int);
        }
        match exec_find_from(t, c, tp) {
            Some(j) => {
                proof {
                    assert(acc + (seq![j as int] + greedy_positions(q@.skip(i + 1), t@, j + 1).unwrap())
                        =~= acc.push(j as int) + greedy_positions(q@.skip(i + 1), t@, j + 1).unwrap());
                }
                res.push(j);
                proof {
                    acc = acc.push(j as int);
                    assert(res@.map_values(|x: usize| x as int) =~= acc);
                }
                tp = j + 1;
            },
            None => {
                return None;
            },
        }
        i = i + 1;
    }
    proof {
        assert(q@.skip(q@.len() as int) =~= Seq::<char>::empty());
        assert(acc + Seq::<int>::empty() =~= acc);
    }
    Some(res)
}

/// `t` lower-cased character by character, with the index in `t` that each
/// lower-cased character comes from.
fn lower_text(t: &Vec<char>) -> (r: (Vec<char>, Vec<usize>))
    ensures
        r.0@ == lower_all(t@),
        r.1@.map_values(|x: usize| x as int) == lower_origin(t@),
{
    let mut lv: Vec<char> = Vec::new();
    let mut og: Vec<usize> = Vec::new();
    let mut i: usize = 0;
    proof {
        assert(t@.take(0) =~= Seq::<char>::empty());
        assert(og@.map_values(|x: usize| x as int) =~= Seq::<int>::empty());
    }
    while i < t.len()
        invariant
            i <= t.len(),
            lv@ == lower_all(t@.take(i as int)),
            og@.map_values(|x: usize| x as int) == lower_origin(t@.take(i as int)),
        decreases t.len() - i,
    {
        let lc = lower_char(t[i]);
        let ghost lv0 = lv@;
        let ghost og0 = og@.map_values(|x: usize| x as int);
        let mut j: usize = 0;
        while j < lc.len()
            invariant
                j <= lc.len(),
                i < t.len(),
                lv@ == lv0 + lc@.take(j as int),
                og@.map_values(|x: usize| x as int) == og0 + Seq::new(j as nat, |k: int| i as int),
            decreases lc.len() - j,
        {
            let ghost ogm = og@.map_values(|x: usize| x as int);
            lv.push(lc[j]);
            og.push(i);
            proof {
                assert(og@.map_values(|x: usize| x as int) =~= ogm.push(i as int));
                assert(ogm.push(i as int) =~= og0 + Seq::new((j + 1) as nat, |k: int| i as int));
            }
            j = j + 1;
            proof {
                assert(lv@ =~= lv0 + lc@.take(j as int));
            }
        }
        proof {
            let tk = t@.take(i + 1);
            assert(tk.drop_last() =~= t@.take(i as int));
            assert(tk.last() == t@[i as int]);
            assert(lc@.take(lc@.len() as int) =~= lc@);
            assert(lv@ =~= lower_all(tk));
            assert(og@.map_values(|x: usize| x as int) =~= lower_origin(tk));
        }
        i = i + 1;
    }
    proof {
        assert(t@.take(t@.len() as int) =~= t@);
    }
    (lv, og)
}

/// The lower-cased text that the query is matched in: the text lower-cased
/// as a whole, when that has as many characters as the text lower-cased
/// character by character (so that each of its characters can be taken back
/// to the character of the text it comes from); otherwise the latter.
pub open spec fn match_target(text: Seq<char>) -> Seq<char> {
    if lowercase(text).len() == lower_all(text).len() {
        lowercase(text)
    } else {
        lower_all(text)
    }
}

/// Highlight positions of `query` in `text`: none for an empty query;
/// otherwise the greedy left-to-right match of the lower-cased query in the
/// lower-cased text (`match_target`), each matched character taken back to
/// the character of `text` it comes from (once per character), and given
/// as that character's byte offset in `text`.
pub open spec fn spec_match_indices(query: Seq<char>, text: Seq<char>) -> Seq<int> {
    if query.len() == 0 {
        Seq::<int>::empty()
    } else {
        match greedy_positions(lowercase(query), match_target(text), 0) {
            Some(ps) => dedup(ps.map_values(|j: int| lower_origin(text)[j])).map_values(
                |k: int| byte_offset(text, k) as int,
            ),
            None => Seq::<int>::empty(),
        }
    }
}

/// Fuzzy-match highlight positions of `query` in `text`: the byte offsets in
/// `text` of the characters that a greedy left-to-right match of the
/// lower-cased query's characters lands on in the lower-cased text (a word
/// final capital sigma lowers to a final sigma there). Empty for an empty
/// query or when some character of the query is missing.
pub fn find_match_indices(query: &str, text: &str) -> (r: Vec<usize>)
    ensures
        r@.map_values(|x: usize| x as int) == spec_match_indices(query@, text@),
{
    let empty: Vec<usize> = Vec::new();
    proof {
        assert(empty@.map_values(|x: usize| x as int) =~= Seq::<int>::empty());
    }
    if query.is_empty() {
        return empty;
    }
    let query_lower = to_lowercase(query);
    let q = chars_of(query_lower.as_str());
    let tv = chars_of(text);
    let _n = str_byte_len(text);
    let (lv, og) = lower_text(&tv);
    let text_lower = to_lowercase(text);
    let whole = chars_of(text_lower.as_str());
    let target = if whole.len() == lv.len() {
        whole
    } else {
        lv
    };
    proof {
        assert(target@ == match_target(text@));
    }
    let ps = match greedy_char_positions(&q, &target) {
        Some(ps) => ps,
        None => return empty,
    };
    let ghost psi = ps@.map_values(|x: usize| x as int);
    let ghost ogi = og@.map_values(|x: usize| x as int);
    let ghost m = psi.map_values(|j: int| lower_origin(text@)[j]);
    proof {
        crate::search_laws::law_greedy_match_embeds(q@, target@, 0);
        lemma_lower_origin(text@);
    }
    let mut res: Vec<usize> = Vec::new();
    let mut last: usize = 0;
    let mut i: usize = 0;
    while i < ps.len()
        invariant
            i <= ps.len(),
            tv@ == text@,
            byte_len(tv@) <= usize::MAX,
            psi == ps@.map_values(|x: usize| x as int),
            ogi == og@.map_values(|x: usize| x as int),
            ogi == lower_origin(text@),
            m == psi.map_values(|j: int| lower_origin(text@)[j]),
            forall|a: int| 0 <= a < psi.len() ==> 0 <= #[trigger] psi[a] < lower_all(text@).len(),
            lower_origin(text@).len() == lower_all(text@).len(),
            forall|a: int| 0 <= a < lower_origin(text@).len() ==> 0 <= #[trigger] lower_origin(text@)[a] < text@.len(),
            res@.map_values(|x: usize| x as int) == dedup(m.take(i as int)).map_values(
                |k: int| byte_offset(text@, k) as int,
            ),
            i > 0 ==> dedup(m.take(i as int)).len() > 0 && last == dedup(m.take(i as int)).last(),
        decreases ps.len() - i,
    {
        let p = ps[i];
        proof {
            assert(psi[i as int] == p);
        }
        let k = og[p];
        proof {
            assert(ogi[p as int] == k);
            assert(m[i as int] == k);
            assert(m.take(i + 1).drop_last() =~= m.take(i as int));
            assert(m.take(i + 1).last() == k);
        }
        let ghost d0 = dedup(m.take(i as int));
        if i == 0 || k != last {
            let b = prefix_bytes(&tv, k);
            let ghost r0 = res@.map_values(|x: usize| x as int);
            res.push(b);
            proof {
                assert(res@.map_values(|x: usize| x as int) =~= r0.push(b as int));
                assert(d0.push(k as int).map_values(|k2: int| byte_offset(text@, k2) as int)
                    =~= d0.map_values(|k2: int| byte_offset(text@, k2) as int).push(b as int));
            }
            last = k;
        }
        i = i + 1;
    }
    proof {
        assert(m.take(ps@.len() as int) =~= m);
        match greedy_positions(lowercase(query@), match_target(text@), 0) {
            Some(g) => {
                assert(g == psi);
            },
            None => {},
        }
    }
    res
}

/// Byte length of the character that starts at byte `b` of `t`, or 1 at
/// the end of `t`.
pub open spec fn char_len_at(t: Seq<char>, b: int) -> int {
    let k = char_index_at(t, b);
    if k < t.len() {
        utf8_width(t[k]) as int
    } else {
        1
    }
}

/// Byte length of the character at byte `byte_pos` of `s` (1 at the end).
pub fn char_at_byte_len(s: &str, byte_pos: usize) -> (n: usize)
    requires
        is_char_boundary_of(s@, byte_pos as int),
    ensures
        n == char_len_at(s@, byte_pos as int),
        1 <= n <= 4,
{
    let v = chars_of(s);
    let _ = str_byte_len(s);
    let k = index_of_boundary(&v, byte_pos);
    if k < v.len() {
        proof {
            lemma_utf8_width_bounds(v@[k as int]);
        }
        char_width_utf8(v[k])
    } else {
        1
    }
}

/// The ranges covered by the characters at byte positions `ixs` of `t`,
/// adjacent ranges merged, in order.
pub open spec fn ranges_of(ixs: Seq<int>, t: Seq<char>) -> Seq<(int, int)>
    decreases ixs.len(),
{
    if ixs.len() == 0 {
        Seq::<(int, int)>::empty()
    } else {
        let r = ranges_of(ixs.drop_last(), t);
        let i = ixs.last();
        let w = char_len_at(t, i);
        if r.len() > 0 && i == r.last().1 {
            r.update(r.len() - 1, (r.last().0, r.last().1 + w))
        } else {
            r.push((i, i + w))
        }
    }
}

/// The integer view of a list of byte ranges.
pub open spec fn int_ranges(v: Seq<(usize, usize)>) -> Seq<(int, int)> {
    v.map_values(|p: (usize, usize)| (p.0 as int, p.1 as int))
}

/// Convert a list of byte indices into a list of (start, end) byte ranges,
/// merging contiguous ranges.
pub fn indices_to_ranges(indices: &[usize], text: &str) -> (r: Vec<(usize, usize)>)
    requires
        forall|i: int| 0 <= i < indices@.len() ==> is_char_boundary_of(text@, #[trigger] indices@[i] as int),
        byte_len(text@) + 4 <= usize::MAX,
    ensures
        int_ranges(r@) == ranges_of(indices@.map_values(|x: usize| x as int), text@),
{
    let ghost ixs = indices@.map_values(|x: usize| x as int);
    if indices.len() == 0 {
        let e: Vec<(usize, usize)> = Vec::new();
        proof {
            assert(int_ranges(e@) =~= Seq::<(int, int)>::empty());
        }
        return e;
    }
    let mut ranges: Vec<(usize, usize)> = Vec::new();
    let mut start = indices[0];
    proof {
        let t = text@;
        let k = char_index_at(t, start as int);
        lemma_byte_offset_mono(t, k, t.len() as int);
        lemma_byte_offset_full(t);
        assert(ixs.take(1).drop_last() =~= Seq::<int>::empty());
        assert(ixs.take(1).last() == start);
    }
    let mut end = start + char_at_byte_len(text, start);
    proof {
        assert(ranges_of(Seq::<int>::empty(), text@) =~= Seq::<(int, int)>::empty());
        assert(int_ranges(ranges@) =~= Seq::<(int, int)>::empty());
        assert(ranges_of(ixs.take(1), text@) =~= seq![(start as int, end as int)]);
    }
    let mut i: usize = 1;
    while i < indices.len()
        invariant
            1 <= i <= indices@.len(),
            ixs == indices@.map_values(|x: usize| x as int),
            forall|m: int| 0 <= m < indices@.len() ==> is_char_boundary_of(text@, #[trigger] indices@[m] as int),
            byte_len(text@) + 4 <= usize::MAX,
            end <= byte_len(text@) + 4,
            ranges_of(ixs.take(i as int), text@) == int_ranges(ranges@).push((start as int, end as int)),
        decreases indices@.len() - i,
    {
        let idx = indices[i];
        proof {
            let t = text@;
            let k = char_index_at(t, idx as int);
            lemma_byte_offset_mono(t, k, t.len() as int);
            lemma_byte_offset_full(t);
            assert(ixs.take(i + 1).drop_last() =~= ixs.take(i as int));
            assert(ixs.take(i + 1).last() == idx as int);
        }
        let ch_len = char_at_byte_len(text, idx);
        if idx == end {
            end = end + ch_len;
        } else {
            let ghost before = ranges@;
            ranges.push((start, end));
            proof {
                assert(int_ranges(ranges@) =~= int_ranges(before).push((start as int, end as int)));
            }
            start = idx;
            end = idx + ch_len;
        }
        i = i + 1;
    }
    let ghost before = ranges@;
    ranges.push((start, end));
    proof {
        assert(int_ranges(ranges@) =~= int_ranges(before).push((start as int, end as int)));
        assert(ixs.take(indices@.len() as int) =~= ixs);
    }
    ranges
}

} // verus!
