//! Byte-level scanners shared by the argument parser and the function parser.
//!
//! All grammar work in this crate happens over ASCII byte sequences. Each
//! executable scanner mirrors a specification-level scanner exactly, so the
//! parsers' contracts can be stated over the specification scanners alone.

use vstd::prelude::*;

verus! {

/// ASCII whitespace that may separate tokens: space, tab, newline, carriage return.
pub open spec fn is_ws(c: u8) -> bool {
    c == 32 || c == 9 || c == 10 || c == 13
}

/// Bytes that may begin an identifier: ASCII letters and underscore.
pub open spec fn is_ident_start(c: u8) -> bool {
    (65 <= c && c <= 90) || (97 <= c && c <= 122) || c == 95
}

/// Bytes that may continue an identifier: letters, digits, underscore.
pub open spec fn is_ident_cont(c: u8) -> bool {
    is_ident_start(c) || (48 <= c && c <= 57)
}

/// Index of the first byte at or after `i` that is not whitespace, or `s.len()`.
pub open spec fn spec_skip_ws(s: Seq<u8>, i: int) -> int
    decreases s.len() - i when 0 <= i <= s.len()
{
    if i >= s.len() {
        s.len() as int
    } else if is_ws(s[i]) {
        spec_skip_ws(s, i + 1)
    } else {
        i
    }
}

pub proof fn lemma_skip_ws_bounds(s: Seq<u8>, i: int)
    requires
        0 <= i <= s.len(),
    ensures
        i <= spec_skip_ws(s, i) <= s.len(),
    decreases s.len() - i,
{
    if i < s.len() && is_ws(s[i]) {
        lemma_skip_ws_bounds(s, i + 1);
    }
}

/// End of the run of identifier bytes beginning at `i` (possibly `i` itself).
pub open spec fn spec_scan_ident(s: Seq<u8>, i: int) -> int
    decreases s.len() - i when 0 <= i <= s.len()
{
    if i >= s.len() {
        i
    } else if is_ident_cont(s[i]) {
        spec_scan_ident(s, i + 1)
    } else {
        i
    }
}

pub proof fn lemma_scan_ident_bounds(s: Seq<u8>, i: int)
    requires
        0 <= i <= s.len(),
    ensures
        i <= spec_scan_ident(s, i) <= s.len(),
    decreases s.len() - i,
{
    if i < s.len() && is_ident_cont(s[i]) {
        lemma_scan_ident_bounds(s, i + 1);
    }
}

/// Scans forward from `i` with `depth` many `open` delimiters already
/// unmatched, and yields the index just past the delimiter that closes the
/// outermost one, or `None` when the input ends first.
pub open spec fn spec_match_delim(s: Seq<u8>, i: int, depth: int, open: u8, close: u8) -> Option<
    int,
>
    decreases s.len() - i when 0 <= i <= s.len() && depth >= 1
{
    if i >= s.len() {
        None
    } else if s[i] == open {
        spec_match_delim(s, i + 1, depth + 1, open, close)
    } else if s[i] == close {
        if depth == 1 {
            Some(i + 1)
        } else {
            spec_match_delim(s, i + 1, depth - 1, open, close)
        }
    } else {
        spec_match_delim(s, i + 1, depth, open, close)
    }
}

pub proof fn lemma_match_delim_bounds(s: Seq<u8>, i: int, depth: int, open: u8, close: u8)
    requires
        0 <= i <= s.len(),
        depth >= 1,
    ensures
        spec_match_delim(s, i, depth, open, close) matches Some(m) ==> i < m <= s.len() && s[m - 1]
            == close,
    decreases s.len() - i,
{
    if i < s.len() {
        if s[i] == open {
            lemma_match_delim_bounds(s, i + 1, depth + 1, open, close);
        } else if s[i] == close {
            if depth != 1 {
                lemma_match_delim_bounds(s, i + 1, depth - 1, open, close);
            }
        } else {
            lemma_match_delim_bounds(s, i + 1, depth, open, close);
        }
    }
}

/// Index of the first `{` at parenthesis/bracket depth zero at or after `i`,
/// or `None` when the input ends first or a closer appears at depth zero.
pub open spec fn spec_find_body_open(s: Seq<u8>, i: int, depth: int) -> Option<int>
    decreases s.len() - i when 0 <= i <= s.len() && depth >= 0
{
    if i >= s.len() {
        None
    } else if depth == 0 && s[i] == 123 {
        Some(i)
    } else if s[i] == 40 || s[i] == 91 {
        spec_find_body_open(s, i + 1, depth + 1)
    } else if s[i] == 41 || s[i] == 93 {
        if depth == 0 {
            None
        } else {
            spec_find_body_open(s, i + 1, depth - 1)
        }
    } else {
        spec_find_body_open(s, i + 1, depth)
    }
}

pub proof fn lemma_find_body_open_bounds(s: Seq<u8>, i: int, depth: int)
    requires
        0 <= i <= s.len(),
        depth >= 0,
    ensures
        spec_find_body_open(s, i, depth) matches Some(t) ==> i <= t < s.len() && s[t] == 123,
    decreases s.len() - i,
{
    if i < s.len() && !(depth == 0 && s[i] == 123) {
        if s[i] == 40 || s[i] == 91 {
            lemma_find_body_open_bounds(s, i + 1, depth + 1);
        } else if s[i] == 41 || s[i] == 93 {
            if depth != 0 {
                lemma_find_body_open_bounds(s, i + 1, depth - 1);
            }
        } else {
            lemma_find_body_open_bounds(s, i + 1, depth);
        }
    }
}

/// Start of the run of whitespace that ends at `i`; `i` itself when `s[i-1]`
/// is not whitespace.
pub open spec fn spec_rtrim(s: Seq<u8>, i: int) -> int
    decreases i when 0 <= i <= s.len()
{
    if i <= 0 {
        0
    } else if is_ws(s[i - 1]) {
        spec_rtrim(s, i - 1)
    } else {
        i
    }
}

pub proof fn lemma_rtrim_bounds(s: Seq<u8>, i: int)
    requires
        0 <= i <= s.len(),
    ensures
        0 <= spec_rtrim(s, i) <= i,
    decreases i,
{
    if i > 0 && is_ws(s[i - 1]) {
        lemma_rtrim_bounds(s, i - 1);
    }
}

pub fn is_ws_byte(c: u8) -> (r: bool)
    ensures
        r == is_ws(c),
{
    c == 32 || c == 9 || c == 10 || c == 13
}

pub fn is_ident_start_byte(c: u8) -> (r: bool)
    ensures
        r == is_ident_start(c),
{
    (65 <= c && c <= 90) || (97 <= c && c <= 122) || c == 95
}

pub fn is_ident_cont_byte(c: u8) -> (r: bool)
    ensures
        r == is_ident_cont(c),
{
    is_ident_start_byte(c) || (48 <= c && c <= 57)
}

pub fn skip_ws(s: &Vec<u8>, i: usize) -> (r: usize)
    requires
        i <= s.len(),
    ensures
        r as int == spec_skip_ws(s@, i as int),
        i <= r <= s.len(),
{
    let mut j: usize = i;
    while j < s.len() && is_ws_byte(s[j])
        invariant
            i <= j <= s.len(),
            spec_skip_ws(s@, i as int) == spec_skip_ws(s@, j as int),
        decreases s.len() - j,
    {
        j = j + 1;
    }
    j
}

pub fn scan_ident(s: &Vec<u8>, i: usize) -> (r: usize)
    requires
        i <= s.len(),
    ensures
        r as int == spec_scan_ident(s@, i as int),
        i <= r <= s.len(),
{
    let mut j: usize = i;
    while j < s.len() && is_ident_cont_byte(s[j])
        invariant
            i <= j <= s.len(),
            spec_scan_ident(s@, i as int) == spec_scan_ident(s@, j as int),
        decreases s.len() - j,
    {
        j = j + 1;
    }
    j
}

pub fn rtrim(s: &Vec<u8>, i: usize) -> (r: usize)
    requires
        i <= s.len(),
    ensures
        r as int == spec_rtrim(s@, i as int),
        r <= i,
{
    let mut j: usize = i;
    while j > 0 && is_ws_byte(s[j - 1])
        invariant
            0 <= j <= i <= s.len(),
            spec_rtrim(s@, i as int) == spec_rtrim(s@, j as int),
        decreases j,
    {
        j = j - 1;
    }
    j
}

/// Lifts an executable index option to a specification-level one.
pub open spec fn opt_as_int(o: Option<usize>) -> Option<int> {
    match o {
        Some(m) => Some(m as int),
        None => None,
    }
}

pub fn match_delim(s: &Vec<u8>, i: usize, open: u8, close: u8) -> (r: Option<usize>)
    requires
        i <= s.len(),
    ensures
        opt_as_int(r) == spec_match_delim(s@, i as int, 1, open, close),
        r matches Some(m) ==> i < m <= s.len(),
{
    let n = s.len();
    let mut j: usize = i;
    let mut depth: u128 = 1;
    loop
        invariant
            n == s@.len(),
            i <= j <= n,
            1 <= depth <= j - i + 1,
            spec_match_delim(s@, i as int, 1, open, close) == spec_match_delim(
                s@,
                j as int,
                depth as int,
                open,
                close,
            ),
        decreases s.len() - j,
    {
        if j == s.len() {
            return None;
        }
        let c = s[j];
        if c == open {
            depth = depth + 1;
            j = j + 1;
        } else if c == close {
            if depth == 1 {
                return Some(j + 1);
            }
            depth = depth - 1;
            j = j + 1;
        } else {
            j = j + 1;
        }
    }
}

pub fn find_body_open(s: &Vec<u8>, i: usize) -> (r: Option<usize>)
    requires
        i <= s.len(),
    ensures
        opt_as_int(r) == spec_find_body_open(s@, i as int, 0),
        r matches Some(t) ==> i <= t < s.len(),
{
    let n = s.len();
    let mut j: usize = i;
    let mut depth: u128 = 0;
    loop
        invariant
            n == s@.len(),
            i <= j <= n,
            depth <= j - i,
            spec_find_body_open(s@, i as int, 0) == spec_find_body_open(
                s@,
                j as int,
                depth as int,
            ),
        decreases s.len() - j,
    {
        if j == s.len() {
            return None;
        }
        let c = s[j];
        if depth == 0 && c == 123 {
            return Some(j);
        }
        if c == 40 || c == 91 {
            depth = depth + 1;
            j = j + 1;
        } else if c == 41 || c == 93 {
            if depth == 0 {
                return None;
            }
            depth = depth - 1;
            j = j + 1;
        } else {
            j = j + 1;
        }
    }
}

/// Copies the bytes of `s` in the half-open range `[a, b)` into a fresh vector.
pub fn copy_range(s: &Vec<u8>, a: usize, b: usize) -> (r: Vec<u8>)
    requires
        a <= b <= s.len(),
    ensures
        r@ == s@.subrange(a as int, b as int),
{
    let mut r: Vec<u8> = Vec::new();
    let mut j: usize = a;
    while j < b
        invariant
            a <= j <= b <= s.len(),
            r@ == s@.subrange(a as int, j as int),
        decreases b - j,
    {
        r.push(s[j]);
        j = j + 1;
        proof {
            assert(s@.subrange(a as int, j as int) =~= s@.subrange(a as int, j - 1).push(
                s@[j - 1],
            ));
        }
    }
    r
}

} // verus!
