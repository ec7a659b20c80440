//! Character-level scanning over `&str`, stated over `Seq<char>` positions.
use vstd::prelude::*;

verus! {

/// Unicode `White_Space`, the set that `char::is_whitespace` tests.
pub open spec fn is_ws(c: char) -> bool {
    let u = c as u32;
    (9 <= u && u <= 13) || u == 32 || u == 0x85 || u == 0xA0 || u == 0x1680 || (0x2000 <= u && u
        <= 0x200A) || u == 0x2028 || u == 0x2029 || u == 0x202F || u == 0x205F || u == 0x3000
}

/// ASCII lowercase of a code point; other code points are unchanged.
pub open spec fn ascii_lower(u: u32) -> u32 {
    if 65 <= u && u <= 90 {
        (u + 32) as u32
    } else {
        u
    }
}

/// `a` and `b` are equal up to ASCII case.
pub open spec fn eq_ignore_case(a: Seq<char>, b: Seq<char>) -> bool {
    &&& a.len() == b.len()
    &&& forall|i: int| 0 <= i < a.len() ==> ascii_lower(#[trigger] a[i] as u32) == ascii_lower(b[i] as u32)
}

/// First position at or after `i` (and below `hi`) that is not whitespace, else `hi`.
pub open spec fn skip_ws(s: Seq<char>, i: int, hi: int) -> int
    decreases hi - i,
{
    if i < hi && i < s.len() && is_ws(s[i]) {
        skip_ws(s, i + 1, hi)
    } else {
        i
    }
}

/// First position at or after `i` (and below `hi`) that is whitespace, else `hi`.
pub open spec fn skip_word(s: Seq<char>, i: int, hi: int) -> int
    decreases hi - i,
{
    if i < hi && i < s.len() && !is_ws(s[i]) {
        skip_word(s, i + 1, hi)
    } else {
        i
    }
}

/// First position at or after `i` (and below `hi`) holding a newline, else `hi`.
pub open spec fn find_nl(s: Seq<char>, i: int, hi: int) -> int
    decreases hi - i,
{
    if i < hi && i < s.len() && s[i] != '\n' {
        find_nl(s, i + 1, hi)
    } else {
        i
    }
}

/// Walking back from `j` to no lower than `lo`, the end of the last non-whitespace character.
pub open spec fn ws_back(s: Seq<char>, lo: int, j: int) -> int
    decreases j - lo,
{
    if lo < j && j <= s.len() && is_ws(s[j - 1]) {
        ws_back(s, lo, j - 1)
    } else {
        j
    }
}

/// Start of `s[lo..hi]` with surrounding whitespace removed.
pub open spec fn trim_lo(s: Seq<char>, lo: int, hi: int) -> int {
    skip_ws(s, lo, hi)
}

/// End of `s[lo..hi]` with surrounding whitespace removed.
pub open spec fn trim_hi(s: Seq<char>, lo: int, hi: int) -> int {
    ws_back(s, skip_ws(s, lo, hi), hi)
}

/// `s[lo..hi]` with leading and trailing whitespace removed.
pub open spec fn trim_range(s: Seq<char>, lo: int, hi: int) -> Seq<char> {
    s.subrange(trim_lo(s, lo, hi), trim_hi(s, lo, hi))
}

/// `s` with leading and trailing whitespace removed (as `str::trim`).
pub open spec fn trim(s: Seq<char>) -> Seq<char> {
    trim_range(s, 0, s.len() as int)
}

pub proof fn lemma_skip_ws_bounds(s: Seq<char>, i: int, hi: int)
    requires
        i <= hi,
    ensures
        i <= skip_ws(s, i, hi) <= hi,
        forall|k: int| i <= k < skip_ws(s, i, hi) ==> is_ws(#[trigger] s[k]) && k < s.len(),
        skip_ws(s, i, hi) < hi && skip_ws(s, i, hi) < s.len() ==> !is_ws(s[skip_ws(s, i, hi)]),
    decreases hi - i,
{
    if i < hi && i < s.len() && is_ws(s[i]) {
        lemma_skip_ws_bounds(s, i + 1, hi);
    }
}

pub proof fn lemma_skip_word_bounds(s: Seq<char>, i: int, hi: int)
    requires
        i <= hi,
    ensures
        i <= skip_word(s, i, hi) <= hi,
        forall|k: int| i <= k < skip_word(s, i, hi) ==> !is_ws(#[trigger] s[k]) && k < s.len(),
        skip_word(s, i, hi) < hi && skip_word(s, i, hi) < s.len() ==> is_ws(
            s[skip_word(s, i, hi)],
        ),
    decreases hi - i,
{
    if i < hi && i < s.len() && !is_ws(s[i]) {
        lemma_skip_word_bounds(s, i + 1, hi);
    }
}

pub proof fn lemma_find_nl_bounds(s: Seq<char>, i: int, hi: int)
    requires
        i <= hi,
    ensures
        i <= find_nl(s, i, hi) <= hi,
    decreases hi - i,
{
    if i < hi && i < s.len() && s[i] != '\n' {
        lemma_find_nl_bounds(s, i + 1, hi);
    }
}

pub proof fn lemma_ws_back_bounds(s: Seq<char>, lo: int, j: int)
    requires
        lo <= j,
    ensures
        lo <= ws_back(s, lo, j) <= j,
    decreases j - lo,
{
    if lo < j && j <= s.len() && is_ws(s[j - 1]) {
        lemma_ws_back_bounds(s, lo, j - 1);
    }
}

pub proof fn lemma_trim_bounds(s: Seq<char>, lo: int, hi: int)
    requires
        0 <= lo <= hi <= s.len(),
    ensures
        lo <= trim_lo(s, lo, hi) <= trim_hi(s, lo, hi) <= hi,
{
    lemma_skip_ws_bounds(s, lo, hi);
    lemma_ws_back_bounds(s, skip_ws(s, lo, hi), hi);
}

/// `char::is_whitespace`, decided over the same set as `is_ws`.
pub fn char_is_ws(c: char) -> (r: bool)
    ensures
        r == is_ws(c),
{
    let u = c as u32;
    (9 <= u && u <= 13) || u == 32 || u == 0x85 || u == 0xA0 || u == 0x1680 || (0x2000 <= u && u
        <= 0x200A) || u == 0x2028 || u == 0x2029 || u == 0x202F || u == 0x205F || u == 0x3000
}

pub fn scan_ws(s: &str, i: usize, hi: usize) -> (r: usize)
    requires
        i <= hi <= s@.len(),
    ensures
        r == skip_ws(s@, i as int, hi as int),
        i <= r <= hi,
{
    proof {
        lemma_skip_ws_bounds(s@, i as int, hi as int);
    }
    let mut k: usize = i;
    while k < hi && char_is_ws(s.get_char(k))
        invariant
            i <= k <= hi <= s@.len(),
            skip_ws(s@, k as int, hi as int) == skip_ws(s@, i as int, hi as int),
        decreases hi - k,
    {
        k = k + 1;
    }
    k
}

pub fn scan_word(s: &str, i: usize, hi: usize) -> (r: usize)
    requires
        i <= hi <= s@.len(),
    ensures
        r == skip_word(s@, i as int, hi as int),
        i <= r <= hi,
{
    proof {
        lemma_skip_word_bounds(s@, i as int, hi as int);
    }
    let mut k: usize = i;
    while k < hi && !char_is_ws(s.get_char(k))
        invariant
            i <= k <= hi <= s@.len(),
            skip_word(s@, k as int, hi as int) == skip_word(s@, i as int, hi as int),
        decreases hi - k,
    {
        k = k + 1;
    }
    k
}

pub fn scan_nl(s: &str, i: usize, hi: usize) -> (r: usize)
    requires
        i <= hi <= s@.len(),
    ensures
        r == find_nl(s@, i as int, hi as int),
        i <= r <= hi,
{
    proof {
        lemma_find_nl_bounds(s@, i as int, hi as int);
    }
    let mut k: usize = i;
    while k < hi && s.get_char(k) != '\n'
        invariant
            i <= k <= hi <= s@.len(),
            find_nl(s@, k as int, hi as int) == find_nl(s@, i as int, hi as int),
        decreases hi - k,
    {
        k = k + 1;
    }
    k
}

pub fn scan_back(s: &str, lo: usize, j: usize) -> (r: usize)
    requires
        lo <= j <= s@.len(),
    ensures
        r == ws_back(s@, lo as int, j as int),
        lo <= r <= j,
{
    proof {
        lemma_ws_back_bounds(s@, lo as int, j as int);
    }
    let mut k: usize = j;
    while k > lo && char_is_ws(s.get_char(k - 1))
        invariant
            lo <= k <= j <= s@.len(),
            ws_back(s@, lo as int, k as int) == ws_back(s@, lo as int, j as int),
        decreases k - lo,
    {
        k = k - 1;
    }
    k
}

/// Bounds of `s[lo..hi]` with surrounding whitespace removed.
pub fn trim_bounds(s: &str, lo: usize, hi: usize) -> (r: (usize, usize))
    requires
        lo <= hi <= s@.len(),
    ensures
        r.0 == trim_lo(s@, lo as int, hi as int),
        r.1 == trim_hi(s@, lo as int, hi as int),
        lo <= r.0 <= r.1 <= hi,
{
    let a = scan_ws(s, lo, hi);
    let b = scan_back(s, a, hi);
    (a, b)
}

/// `s[lo..hi]`, trimmed, as an owned string.
pub fn trimmed_range(s: &str, lo: usize, hi: usize) -> (r: String)
    requires
        lo <= hi <= s@.len(),
    ensures
        r@ == trim_range(s@, lo as int, hi as int),
{
    let (a, b) = trim_bounds(s, lo, hi);
    s.substring_char(a, b).to_owned()
}

/// `s`, trimmed, as an owned string.
pub fn trimmed(s: &str) -> (r: String)
    ensures
        r@ == trim(s@),
{
    let n = s.unicode_len();
    trimmed_range(s, 0, n)
}

/// Whether `s[lo..hi]` equals `name` up to ASCII case.
pub fn range_eq_ignore_case(s: &str, lo: usize, hi: usize, name: &str) -> (r: bool)
    requires
        lo <= hi <= s@.len(),
    ensures
        r == eq_ignore_case(s@.subrange(lo as int, hi as int), name@),
{
    let n = name.unicode_len();
    if hi - lo != n {
        return false;
    }
    let mut k: usize = 0;
    while k < n
        invariant
            lo <= hi <= s@.len(),
            hi - lo == n == name@.len(),
            k <= n,
            forall|i: int|
                0 <= i < k ==> ascii_lower(#[trigger] s@.subrange(lo as int, hi as int)[i] as u32)
                    == ascii_lower(name@[i] as u32),
        decreases n - k,
    {
        let a = s.get_char(lo + k) as u32;
        let b = name.get_char(k) as u32;
        let la = if 65 <= a && a <= 90 {
            a + 32
        } else {
            a
        };
        let lb = if 65 <= b && b <= 90 {
            b + 32
        } else {
            b
        };
        if la != lb {
            assert(s@.subrange(lo as int, hi as int)[k as int] == s@[lo + k]);
            return false;
        }
        k = k + 1;
    }
    true
}

} // verus!
