//! Verified string utilities: substring search, tail windows, suffix tests,
//! and decimal formatting. These are the building blocks of the tool-call
//! detector and of the messages the engine emits.

use vstd::prelude::*;

verus! {

/// `pat` occurs in `s` starting at character position `i`.
pub open spec fn match_at(s: Seq<char>, pat: Seq<char>, i: int) -> bool {
    &&& 0 <= i
    &&& i + pat.len() <= s.len()
    &&& forall|j: int| 0 <= j < pat.len() ==> s[i + j] == pat[j]
}

/// Position of the first occurrence of `pat` in `s` at or after position `i`.
pub open spec fn find_from(s: Seq<char>, pat: Seq<char>, i: int) -> Option<int>
    decreases s.len() - i,
{
    if i < 0 || i + pat.len() > s.len() {
        None
    } else if match_at(s, pat, i) {
        Some(i)
    } else {
        find_from(s, pat, i + 1)
    }
}

/// Position of the first occurrence of `pat` in `s`.
pub open spec fn find_in(s: Seq<char>, pat: Seq<char>) -> Option<int> {
    find_from(s, pat, 0)
}

pub proof fn lemma_find_from_some(s: Seq<char>, pat: Seq<char>, start: int, i: int)
    requires
        0 <= start <= i,
        match_at(s, pat, i),
        forall|k: int| start <= k < i ==> !match_at(s, pat, k),
    ensures
        find_from(s, pat, start) == Some(i),
    decreases i - start,
{
    if start == i {
    } else {
        lemma_find_from_some(s, pat, start + 1, i);
    }
}

pub proof fn lemma_find_from_none(s: Seq<char>, pat: Seq<char>, start: int)
    requires
        0 <= start,
        forall|k: int| start <= k ==> !match_at(s, pat, k),
    ensures
        find_from(s, pat, start) is None,
    decreases s.len() - start,
{
    if start + pat.len() > s.len() {
    } else {
        lemma_find_from_none(s, pat, start + 1);
    }
}

pub proof fn lemma_find_from_is_match(s: Seq<char>, pat: Seq<char>, start: int, i: int)
    requires
        0 <= start,
        find_from(s, pat, start) == Some(i),
    ensures
        start <= i,
        match_at(s, pat, i),
        forall|k: int| start <= k < i ==> !match_at(s, pat, k),
    decreases s.len() - start,
{
    if start + pat.len() > s.len() {
    } else if match_at(s, pat, start) {
    } else {
        lemma_find_from_is_match(s, pat, start + 1, i);
    }
}

/// First occurrence of `pat` in `s`, by character position.
pub fn find_sub(s: &str, pat: &str) -> (r: Option<usize>)
    ensures
        r matches Some(i) ==> find_in(s@, pat@) == Some(i as int),
        r is None ==> find_in(s@, pat@) is None,
{
    let n = s.unicode_len();
    let m = pat.unicode_len();
    if m > n {
        proof {
            lemma_find_from_none(s@, pat@, 0);
        }
        return None;
    }
    let mut i: usize = 0;
    while i <= n - m
        invariant
            m <= n,
            n == s@.len(),
            m == pat@.len(),
            i <= n - m + 1,
            forall|k: int| 0 <= k < i ==> !match_at(s@, pat@, k),
        decreases n - m - i + 1,
    {
        let mut j: usize = 0;
        let mut is_match = true;
        while is_match && j < m
            invariant
                m <= n,
                n == s@.len(),
                m == pat@.len(),
                i <= n - m,
                j <= m,
                is_match ==> forall|l: int| 0 <= l < j ==> s@[i + l] == pat@[l],
                !is_match ==> j < m && s@[i + j] != pat@[j as int],
            decreases m - j + (if is_match { 1int } else { 0int }),
        {
            if s.get_char(i + j) != pat.get_char(j) {
                is_match = false;
            } else {
                j += 1;
            }
        }
        if is_match {
            proof {
                assert(match_at(s@, pat@, i as int));
                lemma_find_from_some(s@, pat@, 0, i as int);
            }
            return Some(i);
        }
        proof {
            assert(!match_at(s@, pat@, i as int));
        }
        i += 1;
    }
    proof {
        assert forall|k: int| 0 <= k implies !match_at(s@, pat@, k) by {
            if k < i {
            } else {
                assert(k + pat@.len() > s@.len());
            }
        }
        lemma_find_from_none(s@, pat@, 0);
    }
    None
}

/// The trailing window of `s`: the whole string if it has at most `w`
/// characters, its last `w` characters otherwise.
pub open spec fn spec_tail(s: Seq<char>, w: int) -> Seq<char> {
    if s.len() <= w {
        s
    } else {
        s.subrange(s.len() - w, s.len() as int)
    }
}

pub fn tail_window(s: &str, w: usize) -> (r: &str)
    ensures
        r@ == spec_tail(s@, w as int),
{
    let n = s.unicode_len();
    if n <= w {
        s
    } else {
        s.substring_char(n - w, n)
    }
}

/// `s` ends with `suf`.
pub open spec fn has_suffix(s: Seq<char>, suf: Seq<char>) -> bool {
    suf.len() <= s.len() && match_at(s, suf, s.len() - suf.len())
}

pub fn ends_with_sub(s: &str, suf: &str) -> (r: bool)
    ensures
        r == has_suffix(s@, suf@),
{
    let n = s.unicode_len();
    let m = suf.unicode_len();
    if m > n {
        return false;
    }
    let start = n - m;
    let mut j: usize = 0;
    while j < m
        invariant
            m <= n,
            n == s@.len(),
            m == suf@.len(),
            start == n - m,
            j <= m,
            forall|l: int| 0 <= l < j ==> s@[start + l] == suf@[l],
        decreases m - j,
    {
        if s.get_char(start + j) != suf.get_char(j) {
            proof {
                assert(!match_at(s@, suf@, (n - m) as int));
            }
            return false;
        }
        j += 1;
    }
    true
}

/// The decimal digit character for `d`.
pub open spec fn dec_digit(d: int) -> char {
    if d == 0 {
        '0'
    } else if d == 1 {
        '1'
    } else if d == 2 {
        '2'
    } else if d == 3 {
        '3'
    } else if d == 4 {
        '4'
    } else if d == 5 {
        '5'
    } else if d == 6 {
        '6'
    } else if d == 7 {
        '7'
    } else if d == 8 {
        '8'
    } else {
        '9'
    }
}

/// Decimal representation of a non-negative integer, most significant digit
/// first, with no leading zeros (except for zero itself).
pub open spec fn spec_dec(n: int) -> Seq<char>
    decreases n,
{
    if n < 10 {
        seq![dec_digit(n)]
    } else {
        spec_dec(n / 10) + seq![dec_digit(n % 10)]
    }
}

fn digit_str(d: u64) -> (r: &'static str)
    requires
        d < 10,
    ensures
        r@ == seq![dec_digit(d as int)],
{
    proof {
        reveal_strlit("0");
        reveal_strlit("1");
        reveal_strlit("2");
        reveal_strlit("3");
        reveal_strlit("4");
        reveal_strlit("5");
        reveal_strlit("6");
        reveal_strlit("7");
        reveal_strlit("8");
        reveal_strlit("9");
    }
    let r = match d {
        0 => "0",
        1 => "1",
        2 => "2",
        3 => "3",
        4 => "4",
        5 => "5",
        6 => "6",
        7 => "7",
        8 => "8",
        _ => "9",
    };
    proof {
        assert(r@ =~= seq![dec_digit(d as int)]);
    }
    r
}

/// Formats `n` in decimal.
pub fn u64_to_dec(n: u64) -> (r: String)
    ensures
        r@ == spec_dec(n as int),
    decreases n,
{
    if n < 10 {
        digit_str(n).to_owned()
    } else {
        let mut s = u64_to_dec(n / 10);
        let d = digit_str(n % 10);
        s.append(d);
        s
    }
}

/// Formats `n` in decimal.
pub fn usize_to_dec(n: usize) -> (r: String)
    ensures
        r@ == spec_dec(n as int),
{
    u64_to_dec(n as u64)
}

} // verus!
