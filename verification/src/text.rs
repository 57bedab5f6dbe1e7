//! A byte-level model of UTF-8 text: byte lengths of characters and
//! prefixes, char boundaries, whitespace, and conversions between
//! `String` values and character vectors.
use vstd::prelude::*;
use vstd::utf8::*;
use vstd::string::*;

verus! {

broadcast use vstd::seq_lib::group_seq_properties;

/// Number of bytes that `c` occupies in UTF-8.
pub open spec fn utf8_width(c: char) -> nat {
    let v = c as u32;
    if v <= 0x7F {
        1
    } else if v <= 0x7FF {
        2
    } else if v <= 0xFFFF {
        3
    } else {
        4
    }
}

/// Number of bytes that the character sequence `s` occupies in UTF-8.
pub open spec fn byte_len(s: Seq<char>) -> nat
    decreases s.len(),
{
    if s.len() == 0 {
        0
    } else {
        utf8_width(s[0]) + byte_len(s.drop_first())
    }
}

/// Byte offset of the character at index `k` of `s` (the byte length of the
/// first `k` characters).
pub open spec fn byte_offset(s: Seq<char>, k: int) -> nat {
    byte_len(s.take(k))
}

/// `b` is a byte offset that falls on a character boundary of `s`.
pub open spec fn is_char_boundary_of(s: Seq<char>, b: int) -> bool {
    exists|k: int| 0 <= k <= s.len() && #[trigger] byte_offset(s, k) == b
}

/// The character index whose byte offset is `b` (meaningful when `b` is a
/// char boundary of `s`).
pub open spec fn char_index_at(s: Seq<char>, b: int) -> int {
    choose|k: int| 0 <= k <= s.len() && #[trigger] byte_offset(s, k) == b
}

/// Unicode `White_Space` property, as used by `char::is_whitespace`.
pub open spec fn is_ws(c: char) -> bool {
    let v = c as u32;
    ||| 0x09 <= v <= 0x0D
    ||| v == 0x20
    ||| v == 0x85
    ||| v == 0xA0
    ||| v == 0x1680
    ||| 0x2000 <= v <= 0x200A
    ||| v == 0x2028
    ||| v == 0x2029
    ||| v == 0x202F
    ||| v == 0x205F
    ||| v == 0x3000
}

pub proof fn lemma_utf8_width_bounds(c: char)
    ensures
        1 <= utf8_width(c) <= 4,
{
}

pub proof fn lemma_byte_len_append(a: Seq<char>, b: Seq<char>)
    ensures
        byte_len(a + b) == byte_len(a) + byte_len(b),
    decreases a.len(),
{
    if a.len() == 0 {
        assert(a + b =~= b);
    } else {
        assert((a + b).drop_first() =~= a.drop_first() + b);
        lemma_byte_len_append(a.drop_first(), b);
    }
}

pub proof fn lemma_byte_len_single(c: char)
    ensures
        byte_len(seq![c]) == utf8_width(c),
{
    assert(seq![c].drop_first() =~= Seq::<char>::empty());
    assert(byte_len(Seq::<char>::empty()) == 0);
    assert(seq![c][0] == c);
}

pub proof fn lemma_byte_len_push(s: Seq<char>, c: char)
    ensures
        byte_len(s.push(c)) == byte_len(s) + utf8_width(c),
{
    assert(s.push(c) =~= s + seq![c]);
    lemma_byte_len_append(s, seq![c]);
    lemma_byte_len_single(c);
}

/// The byte offset of index `k + 1` is that of `k` plus the width of `s[k]`.
pub proof fn lemma_byte_offset_step(s: Seq<char>, k: int)
    requires
        0 <= k < s.len(),
    ensures
        byte_offset(s, k + 1) == byte_offset(s, k) + utf8_width(s[k]),
{
    assert(s.take(k + 1) =~= s.take(k).push(s[k]));
    lemma_byte_len_push(s.take(k), s[k]);
}

/// Byte offsets grow strictly with the character index.
pub proof fn lemma_byte_offset_strict(s: Seq<char>, j: int, k: int)
    requires
        0 <= j < k <= s.len(),
    ensures
        byte_offset(s, j) < byte_offset(s, k),
    decreases k - j,
{
    lemma_byte_offset_step(s, k - 1);
    if j < k - 1 {
        lemma_byte_offset_strict(s, j, k - 1);
    }
}

pub proof fn lemma_byte_offset_mono(s: Seq<char>, j: int, k: int)
    requires
        0 <= j <= k <= s.len(),
    ensures
        byte_offset(s, j) <= byte_offset(s, k),
{
    if j < k {
        lemma_byte_offset_strict(s, j, k);
    }
}

pub proof fn lemma_byte_offset_full(s: Seq<char>)
    ensures
        byte_offset(s, s.len() as int) == byte_len(s),
{
    assert(s.take(s.len() as int) =~= s);
}

/// The index of a char boundary is unique.
pub proof fn lemma_char_index_at(s: Seq<char>, k: int)
    requires
        0 <= k <= s.len(),
    ensures
        is_char_boundary_of(s, byte_offset(s, k) as int),
        char_index_at(s, byte_offset(s, k) as int) == k,
{
    let b = byte_offset(s, k) as int;
    assert(0 <= k <= s.len() && byte_offset(s, k) == b);
    let j = char_index_at(s, b);
    if j < k {
        lemma_byte_offset_strict(s, j, k);
    } else if k < j {
        lemma_byte_offset_strict(s, k, j);
    }
}

/// The byte length of a sequence is the length of its UTF-8 encoding.
pub proof fn lemma_byte_len_encode(s: Seq<char>)
    ensures
        encode_utf8(s).len() == byte_len(s),
    decreases s.len(),
{
    if s.len() > 0 {
        char_is_scalar(s[0]);
        lemma_byte_len_encode(s.drop_first());
    }
}

/// UTF-8 width of a character.
pub fn char_width_utf8(c: char) -> (r: usize)
    ensures
        r == utf8_width(c),
{
    let v = c as u32;
    if v <= 0x7F {
        1
    } else if v <= 0x7FF {
        2
    } else if v <= 0xFFFF {
        3
    } else {
        4
    }
}

/// Whether `c` is Unicode whitespace.
pub fn is_whitespace(c: char) -> (r: bool)
    ensures
        r == is_ws(c),
{
    let v = c as u32;
    (0x09 <= v && v <= 0x0D) || v == 0x20 || v == 0x85 || v == 0xA0 || v == 0x1680 || (0x2000
        <= v && v <= 0x200A) || v == 0x2028 || v == 0x2029 || v == 0x202F || v == 0x205F || v
        == 0x3000
}

/// `String::push`: appends one character.
#[verifier::external_body]
pub(crate) fn string_push(s: &mut String, c: char)
    ensures
        final(s)@ == old(s)@.push(c),
{
    s.push(c);
}

/// The characters of `s`.
pub fn chars_of(s: &str) -> (v: Vec<char>)
    ensures
        v@ == s@,
{
    let n = s.unicode_len();
    let mut v: Vec<char> = Vec::new();
    let mut i: usize = 0;
    while i < n
        invariant
            n == s@.len(),
            i <= n,
            v@ == s@.take(i as int),
        decreases n - i,
    {
        let c = s.get_char(i);
        v.push(c);
        i = i + 1;
        assert(v@ =~= s@.take(i as int));
    }
    assert(s@.take(n as int) =~= s@);
    v
}

/// A `String` holding the characters `v[from..to]`.
pub fn string_of_range(v: &Vec<char>, from: usize, to: usize) -> (s: String)
    requires
        from <= to <= v.len(),
    ensures
        s@ == v@.subrange(from as int, to as int),
{
    let mut s = String::new();
    let mut i = from;
    while i < to
        invariant
            from <= i <= to <= v.len(),
            s@ == v@.subrange(from as int, i as int),
        decreases to - i,
    {
        string_push(&mut s, v[i]);
        i = i + 1;
        assert(s@ =~= v@.subrange(from as int, i as int));
    }
    s
}

/// A `String` holding all the characters of `v`.
pub fn string_of_chars(v: &Vec<char>) -> (s: String)
    ensures
        s@ == v@,
{
    let s = string_of_range(v, 0, v.len());
    assert(v@.subrange(0, v@.len() as int) =~= v@);
    s
}

/// Appends the characters of `t` to `s`.
pub fn push_str(s: &mut String, t: &str)
    ensures
        final(s)@ == old(s)@ + t@,
{
    let n = t.unicode_len();
    let mut i: usize = 0;
    while i < n
        invariant
            n == t@.len(),
            i <= n,
            s@ == old(s)@ + t@.take(i as int),
        decreases n - i,
    {
        let c = t.get_char(i);
        string_push(s, c);
        i = i + 1;
        assert(s@ =~= old(s)@ + t@.take(i as int));
    }
    assert(t@.take(n as int) =~= t@);
}

/// Byte offset of character index `k` of `v`.
pub fn prefix_bytes(v: &Vec<char>, k: usize) -> (b: usize)
    requires
        k <= v.len(),
        byte_len(v@) <= usize::MAX,
    ensures
        b == byte_offset(v@, k as int),
{
    let mut b: usize = 0;
    let mut i: usize = 0;
    while i < k
        invariant
            i <= k <= v.len(),
            byte_len(v@) <= usize::MAX,
            b == byte_offset(v@, i as int),
        decreases k - i,
    {
        proof {
            lemma_byte_offset_step(v@, i as int);
            lemma_byte_offset_mono(v@, i + 1, v@.len() as int);
            lemma_byte_offset_full(v@);
        }
        b = b + char_width_utf8(v[i]);
        i = i + 1;
    }
    b
}

/// Character index of the char boundary at byte offset `b`.
pub fn index_of_boundary(v: &Vec<char>, b: usize) -> (k: usize)
    requires
        is_char_boundary_of(v@, b as int),
        byte_len(v@) <= usize::MAX,
    ensures
        k <= v.len(),
        byte_offset(v@, k as int) == b,
        k == char_index_at(v@, b as int),
{
    let ghost target = char_index_at(v@, b as int);
    let mut off: usize = 0;
    let mut i: usize = 0;
    while off < b
        invariant
            0 <= target <= v.len(),
            byte_offset(v@, target) == b,
            byte_len(v@) <= usize::MAX,
            i <= target,
            off == byte_offset(v@, i as int),
        decreases target - i,
    {
        proof {
            if i == target {
                assert(false);
            }
            lemma_byte_offset_step(v@, i as int);
            lemma_byte_offset_mono(v@, i + 1, target);
        }
        off = off + char_width_utf8(v[i]);
        i = i + 1;
    }
    proof {
        if i < target {
            lemma_byte_offset_strict(v@, i as int, target);
        }
    }
    i
}

/// Byte length of `s`, read from the string itself.
pub fn str_byte_len(s: &str) -> (n: usize)
    ensures
        n == byte_len(s@),
{
    proof {
        lemma_byte_len_encode(s@);
    }
    let bytes = s.as_bytes();
    bytes.len()
}

/// Whether `a` and `b` hold the same characters.
pub fn chars_equal(a: &Vec<char>, b: &Vec<char>) -> (r: bool)
    ensures
        r == (a@ == b@),
{
    if a.len() != b.len() {
        return false;
    }
    let mut i: usize = 0;
    while i < a.len()
        invariant
            a.len() == b.len(),
            i <= a.len(),
            forall|j: int| 0 <= j < i ==> a@[j] == b@[j],
        decreases a.len() - i,
    {
        if a[i] != b[i] {
            return false;
        }
        i = i + 1;
    }
    assert(a@ =~= b@);
    true
}

/// Whether byte offset `b` falls on a character boundary of `v`.
pub fn is_boundary(v: &Vec<char>, b: usize) -> (r: bool)
    ensures
        r == is_char_boundary_of(v@, b as int),
{
    let mut off: usize = 0;
    let mut i: usize = 0;
    while i < v.len() && off < b
        invariant
            i <= v.len(),
            off == byte_offset(v@, i as int),
            off <= b,
            forall|k: int| 0 <= k < i ==> byte_offset(v@, k) < b,
        decreases v.len() - i,
    {
        proof {
            lemma_byte_offset_step(v@, i as int);
            lemma_utf8_width_bounds(v@[i as int]);
        }
        let w = char_width_utf8(v[i]);
        if w > b - off {
            proof {
                assert forall|k: int| 0 <= k <= v@.len() implies byte_offset(v@, k) != b by {
                    if k > i {
                        lemma_byte_offset_mono(v@, i + 1, k);
                    }
                }
            }
            return false;
        }
        off = off + w;
        i = i + 1;
    }
    if off == b {
        true
    } else {
        proof {
            assert(i == v.len());
            assert forall|k: int| 0 <= k <= v@.len() implies byte_offset(v@, k) != b by {
                if k < i {
                } else {
                    assert(k == i);
                }
            }
        }
        false
    }
}

/// The characters of `t` between byte offsets `a` and `b`.
pub open spec fn bslice(t: Seq<char>, a: int, b: int) -> Seq<char> {
    t.subrange(char_index_at(t, a), char_index_at(t, b))
}

/// The characters of `v` between the char boundaries at bytes `a` and `b`.
pub fn byte_substring(v: &Vec<char>, a: usize, b: usize) -> (r: String)
    requires
        is_char_boundary_of(v@, a as int),
        is_char_boundary_of(v@, b as int),
        a <= b,
        byte_len(v@) <= usize::MAX,
    ensures
        r@ == bslice(v@, a as int, b as int),
{
    let ka = index_of_boundary(v, a);
    let kb = index_of_boundary(v, b);
    proof {
        if kb < ka {
            lemma_byte_offset_strict(v@, kb as int, ka as int);
        }
    }
    string_of_range(v, ka, kb)
}

} // verus!
