//! Character-level helpers on strings, each with an exact contract over `Seq<char>`.
use vstd::prelude::*;

verus! {

/// No character of `s` is `c`.
pub open spec fn char_free(s: Seq<char>, c: char) -> bool {
    forall|i: int| 0 <= i < s.len() ==> s[i] != c
}

/// `k` is the index of the first `c` in `s`.
pub open spec fn is_first_index(s: Seq<char>, c: char, k: int) -> bool {
    &&& 0 <= k < s.len()
    &&& s[k] == c
    &&& char_free(s.take(k), c)
}

/// The part of `s` before its first `c` and the part after it; `None` when `s` holds no `c`.
pub open spec fn split_once(s: Seq<char>, c: char) -> Option<(Seq<char>, Seq<char>)> {
    if char_free(s, c) {
        None
    } else {
        let k = choose|k: int| is_first_index(s, c, k);
        Some((s.take(k), s.skip(k + 1)))
    }
}

/// `needle` occurs in `hay` starting at `i`.
pub open spec fn occurs_at(hay: Seq<char>, needle: Seq<char>, i: int) -> bool {
    0 <= i && i + needle.len() <= hay.len() && hay.subrange(i, i + needle.len()) == needle
}

/// `needle` occurs somewhere in `hay` (the empty sequence occurs everywhere).
pub open spec fn contains_seq(hay: Seq<char>, needle: Seq<char>) -> bool {
    exists|i: int| occurs_at(hay, needle, i)
}

/// Unicode's `White_Space` property, the set that `char::is_whitespace` and `str::trim` use.
pub open spec fn is_white_space(c: char) -> bool {
    let u = c as u32;
    ||| 0x09 <= u <= 0x0d
    ||| u == 0x20
    ||| u == 0x85
    ||| u == 0xa0
    ||| u == 0x1680
    ||| 0x2000 <= u <= 0x200a
    ||| u == 0x2028
    ||| u == 0x2029
    ||| u == 0x202f
    ||| u == 0x205f
    ||| u == 0x3000
}

/// Every character of `s` is white space, so `s.trim()` is empty.
pub open spec fn is_blank(s: Seq<char>) -> bool {
    forall|i: int| 0 <= i < s.len() ==> is_white_space(s[i])
}

/// The code of `c` with ASCII letters folded to lower case.
pub open spec fn lower_code(c: char) -> u32 {
    if 'A' <= c <= 'Z' {
        ((c as u32) + 32) as u32
    } else {
        c as u32
    }
}

/// `s`, with its ASCII letters folded to lower case, is `w`.
pub open spec fn ascii_lower_eq(s: Seq<char>, w: Seq<char>) -> bool {
    s.len() == w.len() && forall|i: int| 0 <= i < s.len() ==> lower_code(s[i]) == w[i] as u32
}

/// Two first indices of the same character are the same index.
pub proof fn lemma_first_index_unique(s: Seq<char>, c: char, k1: int, k2: int)
    requires
        is_first_index(s, c, k1),
        is_first_index(s, c, k2),
    ensures
        k1 == k2,
{
    if k1 < k2 {
        assert(s.take(k2)[k1] == s[k1]);
    } else if k2 < k1 {
        assert(s.take(k1)[k2] == s[k2]);
    }
}

/// A first index determines what `split_once` gives.
pub proof fn lemma_split_once_at(s: Seq<char>, c: char, k: int)
    requires
        is_first_index(s, c, k),
    ensures
        split_once(s, c) == Some((s.take(k), s.skip(k + 1))),
{
    assert(!char_free(s, c));
    let k2 = choose|k: int| is_first_index(s, c, k);
    lemma_first_index_unique(s, c, k, k2);
}

/// The characters of `s`, one by one.
pub fn chars_of(s: &str) -> (v: Vec<char>)
    ensures
        v@ == s@,
{
    let n = s.unicode_len();
    let mut v: Vec<char> = Vec::new();
    for i in 0..n
        invariant
            n == s@.len(),
            v@ == s@.subrange(0, i as int),
    {
        v.push(s.get_char(i));
        assert(v@ =~= s@.subrange(0, i + 1));
    }
    assert(v@ =~= s@);
    v
}

/// The string made of the given characters, in order.
#[verifier::external_body]
pub(crate) fn string_from_chars(chars: &[char]) -> (r: String)
    ensures
        r@ == chars@,
{
    chars.iter().collect()
}

/// The string made of `v[from..to]`.
pub fn substring(v: &Vec<char>, from: usize, to: usize) -> (r: String)
    requires
        from <= to <= v@.len(),
    ensures
        r@ == v@.subrange(from as int, to as int),
{
    string_from_chars(&v.as_slice()[from..to])
}

/// Whether two strings hold the same characters.
pub fn str_eq(a: &str, b: &str) -> (r: bool)
    ensures
        r == (a@ == b@),
{
    let x = chars_of(a);
    let y = chars_of(b);
    seq_eq(&x, &y)
}

/// Whether two character vectors hold the same characters.
pub fn seq_eq(x: &Vec<char>, y: &Vec<char>) -> (r: bool)
    ensures
        r == (x@ == y@),
{
    if x.len() != y.len() {
        return false;
    }
    for i in 0..x.len()
        invariant
            x@.len() == y@.len(),
            forall|j: int| 0 <= j < i ==> x@[j] == y@[j],
    {
        if x[i] != y[i] {
            assert(x@[i as int] != y@[i as int]);
            return false;
        }
    }
    assert(x@ =~= y@);
    true
}

/// The first index at or after `from` that holds `c`.
pub fn find_char(v: &Vec<char>, c: char, from: usize) -> (r: Option<usize>)
    ensures
        r matches Some(k) ==> from <= k < v@.len() && v@[k as int] == c,
        r matches Some(k) ==> forall|j: int| from <= j < k ==> v@[j] != c,
        r is None ==> forall|j: int| from <= j < v@.len() ==> v@[j] != c,
{
    let mut i = from;
    while i < v.len()
        invariant
            from <= i || v@.len() <= i,
            forall|j: int| from <= j < i && j < v@.len() ==> v@[j] != c,
        decreases v@.len() - i,
    {
        if v[i] == c {
            return Some(i);
        }
        i = i + 1;
    }
    None
}

/// The last index in `lo..hi` that holds `c`.
pub fn find_last_char(v: &Vec<char>, c: char, lo: usize, hi: usize) -> (r: Option<usize>)
    requires
        lo <= hi <= v@.len(),
    ensures
        r matches Some(k) ==> lo <= k < hi && v@[k as int] == c,
        r matches Some(k) ==> forall|j: int| k < j < hi ==> v@[j] != c,
        r is None ==> forall|j: int| lo <= j < hi ==> v@[j] != c,
{
    let mut i = hi;
    while i > lo
        invariant
            lo <= i <= hi <= v@.len(),
            forall|j: int| i <= j < hi ==> v@[j] != c,
        decreases i,
    {
        if v[i - 1] == c {
            return Some(i - 1);
        }
        i = i - 1;
    }
    None
}

/// The first index at which `needle` occurs in `hay`.
pub fn find_seq(hay: &Vec<char>, needle: &Vec<char>) -> (r: Option<usize>)
    ensures
        r matches Some(k) ==> occurs_at(hay@, needle@, k as int),
        r matches Some(k) ==> forall|j: int| 0 <= j < k ==> !occurs_at(hay@, needle@, j),
        r is None ==> !contains_seq(hay@, needle@),
{
    if needle.len() > hay.len() {
        assert forall|j: int| !occurs_at(hay@, needle@, j) by {}
        return None;
    }
    if needle.len() == 0 {
        assert(hay@.subrange(0, 0) =~= needle@);
        return Some(0);
    }
    let last = hay.len() - needle.len();
    let mut i: usize = 0;
    while i <= last
        invariant
            last == hay@.len() - needle@.len(),
            1 <= needle@.len() <= hay@.len() <= usize::MAX,
            forall|j: int| 0 <= j < i ==> !occurs_at(hay@, needle@, j),
        decreases last + 1 - i,
    {
        let mut m: usize = 0;
        let mut same = true;
        while m < needle.len()
            invariant
                i <= last,
                last == hay@.len() - needle@.len(),
                1 <= needle@.len() <= hay@.len() <= usize::MAX,
                m <= needle@.len(),
                same ==> forall|t: int| 0 <= t < m ==> hay@[i + t] == needle@[t],
                !same ==> exists|t: int| 0 <= t < needle@.len() && hay@[i + t] != needle@[t],
            decreases needle@.len() - m,
        {
            if hay[i + m] != needle[m] {
                same = false;
            }
            m = m + 1;
        }
        if same {
            assert(hay@.subrange(i as int, i + needle@.len()) =~= needle@);
            return Some(i);
        }
        assert(!occurs_at(hay@, needle@, i as int)) by {
            let t = choose|t: int| 0 <= t < needle@.len() && hay@[i + t] != needle@[t];
            assert(hay@.subrange(i as int, i + needle@.len())[t] == hay@[i + t]);
        }
        i = i + 1;
    }
    assert forall|j: int| !occurs_at(hay@, needle@, j) by {
        if 0 <= j && j <= last {
        }
    }
    None
}

/// Whether `needle` occurs in `hay`.
pub fn contains(hay: &Vec<char>, needle: &Vec<char>) -> (r: bool)
    ensures
        r == contains_seq(hay@, needle@),
{
    find_seq(hay, needle).is_some()
}

/// Whether `c` has Unicode's `White_Space` property.
pub fn is_white_space_char(c: char) -> (r: bool)
    ensures
        r == is_white_space(c),
{
    let u = c as u32;
    (0x09 <= u && u <= 0x0d) || u == 0x20 || u == 0x85 || u == 0xa0 || u == 0x1680 || (0x2000
        <= u && u <= 0x200a) || u == 0x2028 || u == 0x2029 || u == 0x202f || u == 0x205f || u
        == 0x3000
}

/// Whether every character of `v` is white space.
pub fn is_blank_chars(v: &Vec<char>) -> (r: bool)
    ensures
        r == is_blank(v@),
{
    for i in 0..v.len()
        invariant
            forall|j: int| 0 <= j < i ==> is_white_space(v@[j]),
    {
        if !is_white_space_char(v[i]) {
            return false;
        }
    }
    true
}

/// Whether `s`, with its ASCII letters folded to lower case, is `w`.
pub fn ascii_lower_eq_chars(s: &Vec<char>, w: &Vec<char>) -> (r: bool)
    ensures
        r == ascii_lower_eq(s@, w@),
{
    if s.len() != w.len() {
        return false;
    }
    for i in 0..s.len()
        invariant
            s@.len() == w@.len(),
            forall|j: int| 0 <= j < i ==> lower_code(s@[j]) == w@[j] as u32,
    {
        let c = s[i];
        let code: u32 = if 'A' <= c && c <= 'Z' {
            (c as u32) + 32
        } else {
            c as u32
        };
        if code != w[i] as u32 {
            return false;
        }
    }
    true
}

} // verus!
