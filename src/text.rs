//! Character-level helpers: whitespace trimming, ASCII case-insensitive
//! prefixes, and the first-match attribute captures used by the playlist
//! reader and the keyword matcher.
use vstd::prelude::*;

verus! {

/// Relies on str::chars: the characters of the string, in order.
#[verifier::external_body]
pub(crate) fn chars_of(s: &str) -> (r: Vec<char>)
    ensures
        r@ == s@,
{
    s.chars().collect()
}

/// Relies on String's FromIterator<&char>: the string of those characters, in order.
#[verifier::external_body]
pub(crate) fn string_of(v: &Vec<char>) -> (r: String)
    ensures
        r@ == v@,
{
    v.iter().collect()
}

/// The Unicode White_Space characters, which `str::trim` removes.
pub open spec fn is_ws(c: char) -> bool {
    ('\u{9}' <= c && c <= '\u{d}') || c == ' ' || c == '\u{85}' || c == '\u{a0}' || c
        == '\u{1680}' || ('\u{2000}' <= c && c <= '\u{200a}') || c == '\u{2028}' || c
        == '\u{2029}' || c == '\u{202f}' || c == '\u{205f}' || c == '\u{3000}'
}

pub fn is_whitespace(c: char) -> (r: bool)
    ensures
        r == is_ws(c),
{
    ('\u{9}' <= c && c <= '\u{d}') || c == ' ' || c == '\u{85}' || c == '\u{a0}' || c
        == '\u{1680}' || ('\u{2000}' <= c && c <= '\u{200a}') || c == '\u{2028}' || c
        == '\u{2029}' || c == '\u{202f}' || c == '\u{205f}' || c == '\u{3000}'
}

/// Every character is whitespace (an empty text counts as blank).
pub open spec fn is_blank(s: Seq<char>) -> bool {
    forall|i: int| 0 <= i < s.len() ==> is_ws(#[trigger] s[i])
}

/// Index of the first non-whitespace character at or after `i`.
pub open spec fn lead_end(s: Seq<char>, i: int) -> int
    decreases s.len() - i,
{
    if i < 0 || i >= s.len() {
        i
    } else if is_ws(s[i]) {
        lead_end(s, i + 1)
    } else {
        i
    }
}

/// One past the last non-whitespace character before `j`, not going below `lo`.
pub open spec fn trail_start(s: Seq<char>, lo: int, j: int) -> int
    decreases j - lo,
{
    if j <= lo || j > s.len() {
        j
    } else if is_ws(s[j - 1]) {
        trail_start(s, lo, j - 1)
    } else {
        j
    }
}

/// `s` without leading and trailing whitespace.
pub open spec fn trimmed(s: Seq<char>) -> Seq<char> {
    let a = lead_end(s, 0);
    s.subrange(a, trail_start(s, a, s.len() as int))
}

pub fn is_blank_chars(s: &Vec<char>) -> (r: bool)
    ensures
        r == is_blank(s@),
{
    let mut i: usize = 0;
    while i < s.len()
        invariant
            i <= s.len(),
            forall|k: int| 0 <= k < i ==> is_ws(#[trigger] s@[k]),
        decreases s.len() - i,
    {
        if !is_whitespace(s[i]) {
            return false;
        }
        i += 1;
    }
    true
}

pub fn trim_chars(s: &Vec<char>) -> (r: Vec<char>)
    ensures
        r@ == trimmed(s@),
{
    let mut a: usize = 0;
    while a < s.len() && is_whitespace(s[a])
        invariant
            a <= s.len(),
            lead_end(s@, 0) == lead_end(s@, a as int),
        decreases s.len() - a,
    {
        a += 1;
    }
    let mut b: usize = s.len();
    while b > a && is_whitespace(s[b - 1])
        invariant
            a <= b <= s.len(),
            trail_start(s@, a as int, s.len() as int) == trail_start(s@, a as int, b as int),
        decreases b - a,
    {
        b -= 1;
    }
    let mut r: Vec<char> = Vec::new();
    let mut k: usize = a;
    while k < b
        invariant
            a <= k <= b <= s.len(),
            r@ == s@.subrange(a as int, k as int),
        decreases b - k,
    {
        r.push(s[k]);
        k += 1;
    }
    r
}

/// The trimmed text of a string.
pub fn trim_string(s: &String) -> (r: String)
    ensures
        r@ == trimmed(s@),
{
    let v = chars_of(s.as_str());
    let t = trim_chars(&v);
    string_of(&t)
}

/// `c` equals `t` up to ASCII case.
pub open spec fn eq_ascii_ci(c: char, t: char) -> bool {
    c == t || ('a' <= t <= 'z' && c as int + 32 == t as int) || ('A' <= t <= 'Z' && c as int
        == t as int + 32)
}

pub fn eq_ascii_ci_char(c: char, t: char) -> (r: bool)
    ensures
        r == eq_ascii_ci(c, t),
{
    let cu = c as u32;
    let tu = t as u32;
    c == t || ('a' <= t && t <= 'z' && cu == tu - 32) || ('A' <= t && t <= 'Z' && cu == tu + 32)
}

/// `s` begins with `p`, ASCII letters compared without regard to case.
pub open spec fn starts_with_ci(s: Seq<char>, p: Seq<char>) -> bool {
    p.len() <= s.len() && forall|i: int| 0 <= i < p.len() ==> eq_ascii_ci(s[i], #[trigger] p[i])
}

pub fn starts_with_ci_chars(s: &Vec<char>, p: &Vec<char>) -> (r: bool)
    ensures
        r == starts_with_ci(s@, p@),
{
    if p.len() > s.len() {
        return false;
    }
    let mut i: usize = 0;
    while i < p.len()
        invariant
            p.len() <= s.len(),
            i <= p.len(),
            forall|k: int| 0 <= k < i ==> eq_ascii_ci(s@[k], #[trigger] p@[k]),
        decreases p.len() - i,
    {
        if !eq_ascii_ci_char(s[i], p[i]) {
            return false;
        }
        i += 1;
    }
    true
}

/// `k` occurs in `s` starting at index `i`.
pub open spec fn occurs_at(s: Seq<char>, k: Seq<char>, i: int) -> bool {
    0 <= i && i + k.len() <= s.len() && s.subrange(i, i + k.len()) == k
}

pub fn occurs_at_chars(s: &Vec<char>, k: &Vec<char>, i: usize) -> (r: bool)
    ensures
        r == occurs_at(s@, k@, i as int),
{
    if i > s.len() || k.len() > s.len() - i {
        return false;
    }
    let mut j: usize = 0;
    while j < k.len()
        invariant
            i + k.len() <= s.len(),
            j <= k.len(),
            forall|m: int| 0 <= m < j ==> s@[i + m] == #[trigger] k@[m],
        decreases k.len() - j,
    {
        if s[i + j] != k[j] {
            assert(s@.subrange(i as int, i + k.len())[j as int] != k@[j as int]);
            return false;
        }
        j += 1;
    }
    assert(s@.subrange(i as int, i + k.len()) =~= k@);
    true
}

pub fn contains_char(v: &Vec<char>, c: char) -> (r: bool)
    ensures
        r == v@.contains(c),
{
    let mut i: usize = 0;
    while i < v.len()
        invariant
            i <= v.len(),
            forall|k: int| 0 <= k < i ==> v@[k] != c,
        decreases v.len() - i,
    {
        if v[i] == c {
            return true;
        }
        i += 1;
    }
    false
}

/// The first index at or after `j` whose character is one of `stops`, or the length.
pub open spec fn scan_to(s: Seq<char>, j: int, stops: Seq<char>) -> int
    decreases s.len() - j,
{
    if j < 0 || j >= s.len() {
        s.len() as int
    } else if stops.contains(s[j]) {
        j
    } else {
        scan_to(s, j + 1, stops)
    }
}

pub fn scan_to_chars(s: &Vec<char>, j: usize, stops: &Vec<char>) -> (r: usize)
    requires
        j <= s.len(),
    ensures
        r as int == scan_to(s@, j as int, stops@),
        j <= r <= s.len(),
{
    let mut k: usize = j;
    while k < s.len() && !contains_char(stops, s[k])
        invariant
            j <= k <= s.len(),
            scan_to(s@, j as int, stops@) == scan_to(s@, k as int, stops@),
        decreases s.len() - k,
    {
        k += 1;
    }
    k
}

/// The first capture, scanning from index `i`, of the pattern "`key`, then a run
/// of characters up to the first of `stops`": where `closed`, one of `stops` must
/// end the run; the run holds at least `min_len` characters. The leftmost
/// position at which the pattern matches wins.
pub open spec fn find_capture(
    s: Seq<char>,
    key: Seq<char>,
    stops: Seq<char>,
    closed: bool,
    min_len: int,
    i: int,
) -> Option<Seq<char>>
    decreases s.len() + 1 - i,
{
    if i < 0 || i + key.len() > s.len() {
        None
    } else {
        let e = scan_to(s, i + key.len(), stops);
        if occurs_at(s, key, i) && (!closed || e < s.len()) && e - (i + key.len()) >= min_len {
            Some(s.subrange(i + key.len(), e))
        } else {
            find_capture(s, key, stops, closed, min_len, i + 1)
        }
    }
}

pub fn find_capture_chars(
    s: &Vec<char>,
    key: &Vec<char>,
    stops: &Vec<char>,
    closed: bool,
    min_len: usize,
) -> (r: Option<Vec<char>>)
    ensures
        r.deep_view() == find_capture(s@, key@, stops@, closed, min_len as int, 0),
{
    if key.len() > s.len() {
        return None;
    }
    let mut i: usize = 0;
    while i <= s.len() - key.len()
        invariant
            key.len() <= s.len(),
            i <= s.len() - key.len() + 1,
            find_capture(s@, key@, stops@, closed, min_len as int, 0) == find_capture(
                s@,
                key@,
                stops@,
                closed,
                min_len as int,
                i as int,
            ),
        decreases s.len() - i,
    {
        let e = scan_to_chars(s, i + key.len(), stops);
        if occurs_at_chars(s, key, i) && (!closed || e < s.len()) && e - (i + key.len())
            >= min_len {
            let mut out: Vec<char> = Vec::new();
            let mut k: usize = i + key.len();
            while k < e
                invariant
                    i + key.len() <= k <= e <= s.len(),
                    out@ == s@.subrange(i + key.len(), k as int),
                decreases e - k,
            {
                out.push(s[k]);
                k += 1;
            }
            let r = Some(out);
            assert(r.deep_view() == Some(out@));
            return r;
        }
        if i == s.len() - key.len() {
            assert(find_capture(s@, key@, stops@, closed, min_len as int, i + 1) == None::<
                Seq<char>,
            >);
            return None;
        }
        i += 1;
    }
    None
}

/// A capture that counts only when it is not blank.
pub open spec fn non_blank(o: Option<Seq<char>>) -> Option<Seq<char>> {
    match o {
        Some(v) => if is_blank(v) {
            None
        } else {
            Some(v)
        },
        None => None,
    }
}

pub fn non_blank_chars(o: Option<Vec<char>>) -> (r: Option<Vec<char>>)
    ensures
        r.deep_view() == non_blank(o.deep_view()),
{
    match o {
        Some(v) => {
            if is_blank_chars(&v) {
                None
            } else {
                let r = Some(v);
                assert(r.deep_view() == Some(v@));
                r
            }
        },
        None => None,
    }
}

/// Case-insensitive (ASCII) containment, the meaning of a `LIKE '%t%'` test.
pub open spec fn contains_ci(s: Seq<char>, t: Seq<char>) -> bool {
    exists|i: int| 0 <= i && i + t.len() <= s.len() && #[trigger] starts_with_ci(s.skip(i), t)
}

pub fn contains_ci_chars(s: &Vec<char>, t: &Vec<char>) -> (r: bool)
    ensures
        r == contains_ci(s@, t@),
{
    if t.len() > s.len() {
        return false;
    }
    let mut i: usize = 0;
    while i <= s.len() - t.len()
        invariant
            t.len() <= s.len(),
            i <= s.len() - t.len() + 1,
            forall|k: int| 0 <= k < i ==> !#[trigger] starts_with_ci(s@.skip(k), t@),
        decreases s.len() - i,
    {
        let mut j: usize = 0;
        let mut ok = true;
        while j < t.len()
            invariant
                i + t.len() <= s.len(),
                j <= t.len(),
                ok ==> forall|m: int| 0 <= m < j ==> eq_ascii_ci(s@[i + m], #[trigger] t@[m]),
                !ok ==> !starts_with_ci(s@.skip(i as int), t@),
            decreases t.len() - j,
        {
            if ok && !eq_ascii_ci_char(s[i + j], t[j]) {
                ok = false;
                assert(s@.skip(i as int)[j as int] == s@[i + j]);
            }
            j += 1;
        }
        if ok {
            assert forall|m: int| 0 <= m < t@.len() implies eq_ascii_ci(
                s@.skip(i as int)[m],
                #[trigger] t@[m],
            ) by {
                assert(s@.skip(i as int)[m] == s@[i + m]);
            }
            assert(starts_with_ci(s@.skip(i as int), t@));
            return true;
        }
        if i == s.len() - t.len() {
            assert forall|k: int| 0 <= k < s@.len() - t@.len() + 1 implies !#[trigger] starts_with_ci(
                s@.skip(k),
                t@,
            ) by {}
            return false;
        }
        i += 1;
    }
    false
}

} // verus!
