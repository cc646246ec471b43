//! The fixed textual patterns of the board's dialect: the posting
//! date with its weekday, the poster id, the drawing title line, the
//! back-reference fragment, and the drawing container id. Each is a
//! verified scanner with leftmost-match semantics; digits are ASCII
//! digits, word characters as `chars::is_word_char`.

use vstd::prelude::*;
use vstd::string::*;
use crate::chars::{
    is_space,
    is_word_char,
    is_digit,
    all_digits,
    digits_value,
    exec_is_space,
    exec_is_word_char,
    exec_is_digit,
    digits_val_at,
    sub_chars,
};

verus! {

/// End of the run of word characters that starts at `j`.
pub open spec fn word_run_end(s: Seq<char>, j: int) -> int
    decreases s.len() - j,
{
    if j < 0 || j >= s.len() {
        s.len() as int
    } else if is_word_char(s[j]) {
        word_run_end(s, j + 1)
    } else {
        j
    }
}

/// End of the run of dialect whitespace that starts at `j`.
pub open spec fn space_run_end(s: Seq<char>, j: int) -> int
    decreases s.len() - j,
{
    if j < 0 || j >= s.len() {
        s.len() as int
    } else if is_space(s[j]) {
        space_run_end(s, j + 1)
    } else {
        j
    }
}

/// End of the run of poster-id characters (word characters, `+`, `/`)
/// that starts at `j`.
pub open spec fn is_id_char(c: char) -> bool {
    is_word_char(c) || c == '+' || c == '/'
}

pub open spec fn id_run_end(s: Seq<char>, j: int) -> int
    decreases s.len() - j,
{
    if j < 0 || j >= s.len() {
        s.len() as int
    } else if is_id_char(s[j]) {
        id_run_end(s, j + 1)
    } else {
        j
    }
}

pub proof fn lemma_space_run_bounds(s: Seq<char>, j: int)
    requires
        0 <= j <= s.len(),
    ensures
        j <= space_run_end(s, j) <= s.len(),
    decreases s.len() - j,
{
    if j < s.len() && is_space(s[j]) {
        lemma_space_run_bounds(s, j + 1);
    }
}

pub proof fn lemma_id_run_bounds(s: Seq<char>, j: int)
    requires
        0 <= j <= s.len(),
    ensures
        j <= id_run_end(s, j) <= s.len(),
    decreases s.len() - j,
{
    if j < s.len() && is_id_char(s[j]) {
        lemma_id_run_bounds(s, j + 1);
    }
}

fn exec_word_run_end(s: &str, n: usize, j: usize) -> (r: usize)
    requires
        n == s@.len(),
        j <= n,
    ensures
        r == word_run_end(s@, j as int),
        j <= r <= n,
{
    let mut k: usize = j;
    while k < n
        invariant
            j <= k <= n,
            n == s@.len(),
            word_run_end(s@, j as int) == word_run_end(s@, k as int),
        decreases n - k,
    {
        if !exec_is_word_char(s.get_char(k)) {
            assert(word_run_end(s@, k as int) == k);
            return k;
        }
        k = k + 1;
    }
    assert(word_run_end(s@, n as int) == n);
    n
}

fn exec_space_run_end(s: &str, n: usize, j: usize) -> (r: usize)
    requires
        n == s@.len(),
        j <= n,
    ensures
        r == space_run_end(s@, j as int),
        j <= r <= n,
{
    let mut k: usize = j;
    while k < n
        invariant
            j <= k <= n,
            n == s@.len(),
            space_run_end(s@, j as int) == space_run_end(s@, k as int),
        decreases n - k,
    {
        if !exec_is_space(s.get_char(k)) {
            assert(space_run_end(s@, k as int) == k);
            return k;
        }
        k = k + 1;
    }
    assert(space_run_end(s@, n as int) == n);
    n
}

fn exec_id_run_end(s: &str, n: usize, j: usize) -> (r: usize)
    requires
        n == s@.len(),
        j <= n,
    ensures
        r == id_run_end(s@, j as int),
        j <= r <= n,
{
    let mut k: usize = j;
    while k < n
        invariant
            j <= k <= n,
            n == s@.len(),
            id_run_end(s@, j as int) == id_run_end(s@, k as int),
        decreases n - k,
    {
        let c = s.get_char(k);
        if !(exec_is_word_char(c) || c == '+' || c == '/') {
            assert(id_run_end(s@, k as int) == k);
            return k;
        }
        k = k + 1;
    }
    assert(id_run_end(s@, n as int) == n);
    n
}

/// The posting-date pattern `YYYY/MM/DD(weekday) HH:MM:SS` matches in
/// `s` at position `i`; the weekday is a non-empty run of word
/// characters.
pub open spec fn datetime_match_at(s: Seq<char>, i: int) -> bool {
    let w = word_run_end(s, i + 11);
    &&& 0 <= i
    &&& i + 11 <= s.len()
    &&& all_digits(s.subrange(i, i + 4))
    &&& s[i + 4] == '/'
    &&& all_digits(s.subrange(i + 5, i + 7))
    &&& s[i + 7] == '/'
    &&& all_digits(s.subrange(i + 8, i + 10))
    &&& s[i + 10] == '('
    &&& w > i + 11
    &&& w + 10 <= s.len()
    &&& s[w] == ')'
    &&& s[w + 1] == ' '
    &&& all_digits(s.subrange(w + 2, w + 4))
    &&& s[w + 4] == ':'
    &&& all_digits(s.subrange(w + 5, w + 7))
    &&& s[w + 7] == ':'
    &&& all_digits(s.subrange(w + 8, w + 10))
}

fn check_digits_at(s: &str, n: usize, a: usize, b: usize) -> (r: bool)
    requires
        n == s@.len(),
        a <= b <= n,
    ensures
        r == all_digits(s@.subrange(a as int, b as int)),
{
    let mut k: usize = a;
    while k < b
        invariant
            a <= k <= b <= n,
            n == s@.len(),
            forall|j: int| a <= j < k ==> is_digit(#[trigger] s@[j]),
        decreases b - k,
    {
        if !exec_is_digit(s.get_char(k)) {
            assert(s@.subrange(a as int, b as int)[k - a] == s@[k as int]);
            return false;
        }
        k = k + 1;
    }
    assert forall|j: int| 0 <= j < b - a implies is_digit(
        #[trigger] s@.subrange(a as int, b as int)[j],
    ) by {}
    true
}

/// Tests the posting-date pattern at one position.
fn check_datetime_at(s: &str, n: usize, i: usize) -> (r: Option<usize>)
    requires
        n == s@.len(),
        i <= n,
    ensures
        match r {
            Some(w) => datetime_match_at(s@, i as int) && w == word_run_end(s@, i as int + 11),
            None => !datetime_match_at(s@, i as int),
        },
{
    if n - i < 11 {
        return None;
    }
    if !check_digits_at(s, n, i, i + 4) {
        return None;
    }
    if s.get_char(i + 4) != '/' {
        return None;
    }
    if !check_digits_at(s, n, i + 5, i + 7) {
        return None;
    }
    if s.get_char(i + 7) != '/' {
        return None;
    }
    if !check_digits_at(s, n, i + 8, i + 10) {
        return None;
    }
    if s.get_char(i + 10) != '(' {
        return None;
    }
    let w = exec_word_run_end(s, n, i + 11);
    if w == i + 11 {
        return None;
    }
    if n - w < 10 {
        return None;
    }
    if s.get_char(w) != ')' {
        return None;
    }
    if s.get_char(w + 1) != ' ' {
        return None;
    }
    if !check_digits_at(s, n, w + 2, w + 4) {
        return None;
    }
    if s.get_char(w + 4) != ':' {
        return None;
    }
    if !check_digits_at(s, n, w + 5, w + 7) {
        return None;
    }
    if s.get_char(w + 7) != ':' {
        return None;
    }
    if !check_digits_at(s, n, w + 8, w + 10) {
        return None;
    }
    Some(w)
}

/// Leftmost match of the posting-date pattern: the match's start and
/// the end of its weekday run.
pub fn find_datetime(s: &str) -> (r: Option<(usize, usize)>)
    ensures
        match r {
            Some(p) => datetime_match_at(s@, p.0 as int) && p.1 == word_run_end(
                s@,
                p.0 as int + 11,
            ) && forall|j: int| 0 <= j < p.0 ==> !datetime_match_at(s@, j),
            None => forall|j: int| !datetime_match_at(s@, j),
        },
{
    let n = s.unicode_len();
    let mut i: usize = 0;
    while i < n
        invariant
            0 <= i <= n,
            n == s@.len(),
            forall|j: int| 0 <= j < i ==> !datetime_match_at(s@, j),
        decreases n - i,
    {
        match check_datetime_at(s, n, i) {
            Some(w) => {
                return Some((i, w));
            },
            None => {},
        }
        i = i + 1;
    }
    assert forall|j: int| !datetime_match_at(s@, j) by {
        if datetime_match_at(s@, j) {
            assert(0 <= j < n);
        }
    }
    None
}

/// The poster-id pattern `ID:` followed by optional whitespace and a
/// non-empty run of id characters matches in `s` at position `i`.
pub open spec fn id_match_at(s: Seq<char>, i: int) -> bool {
    let sp = space_run_end(s, i + 3);
    let e = id_run_end(s, sp);
    &&& 0 <= i
    &&& i + 3 <= s.len()
    &&& s.subrange(i, i + 3) == "ID:"@
    &&& e > sp
}

/// Start and end of the captured poster id for a match at `i`.
pub open spec fn id_capture(s: Seq<char>, i: int) -> Seq<char> {
    let sp = space_run_end(s, i + 3);
    let e = id_run_end(s, sp);
    s.subrange(sp, e)
}

fn check_id_at(s: &str, n: usize, i: usize) -> (r: Option<(usize, usize)>)
    requires
        n == s@.len(),
        i <= n,
    ensures
        match r {
            Some(p) => id_match_at(s@, i as int) && p.0 == space_run_end(s@, i as int + 3) && p.1
                == id_run_end(s@, p.0 as int) && p.0 < p.1 <= s@.len(),
            None => !id_match_at(s@, i as int),
        },
{
    if !crate::chars::match_at(s, n, i, "ID:") {
        proof {
            reveal_strlit("ID:");
        }
        return None;
    }
    proof {
        reveal_strlit("ID:");
    }
    let sp = exec_space_run_end(s, n, i + 3);
    let e = exec_id_run_end(s, n, sp);
    if e > sp {
        Some((sp, e))
    } else {
        None
    }
}

/// Leftmost match of the poster-id pattern: the captured id text.
pub fn find_poster_id(s: &str) -> (r: Option<Vec<char>>)
    ensures
        match r {
            Some(v) => (exists|i: int|
                #[trigger] id_match_at(s@, i) && v@ == id_capture(s@, i) && forall|j: int|
                    0 <= j < i ==> !id_match_at(s@, j)),
            None => forall|j: int| !id_match_at(s@, j),
        },
{
    let n = s.unicode_len();
    let mut i: usize = 0;
    while i < n
        invariant
            0 <= i <= n,
            n == s@.len(),
            forall|j: int| 0 <= j < i ==> !id_match_at(s@, j),
        decreases n - i,
    {
        match check_id_at(s, n, i) {
            Some(p) => {
                let v = sub_chars(s, p.0, p.1);
                assert(id_match_at(s@, i as int) && v@ == id_capture(s@, i as int));
                return Some(v);
            },
            None => {},
        }
        i = i + 1;
    }
    assert forall|j: int| !id_match_at(s@, j) by {
        if id_match_at(s@, j) {
            assert(0 <= j < n);
        }
    }
    None
}

/// End of the captured line: the first newline at or after `j`, or the
/// end of the text.
pub open spec fn line_end(s: Seq<char>, j: int) -> int
    decreases s.len() - j,
{
    if j < 0 || j >= s.len() {
        s.len() as int
    } else if s[j] == '\n' {
        j
    } else {
        line_end(s, j + 1)
    }
}

fn exec_line_end(s: &str, n: usize, j: usize) -> (r: usize)
    requires
        n == s@.len(),
        j <= n,
    ensures
        r == line_end(s@, j as int),
        j <= r <= n,
{
    let mut k: usize = j;
    while k < n
        invariant
            j <= k <= n,
            n == s@.len(),
            line_end(s@, j as int) == line_end(s@, k as int),
        decreases n - k,
    {
        if s.get_char(k) == '\n' {
            assert(line_end(s@, k as int) == k);
            return k;
        }
        k = k + 1;
    }
    assert(line_end(s@, n as int) == n);
    n
}

/// The drawing-title pattern: optional leading whitespace, the literal
/// title marker, then the rest of the line as the captured title.
pub open spec fn title_match(s: Seq<char>) -> bool {
    let sp = space_run_end(s, 0);
    sp + 5 <= s.len() && s.subrange(sp, sp + 5) == "\u{30bf}\u{30a4}\u{30c8}\u{30eb}:"@
}

/// The captured title text of a title-line match.
pub open spec fn title_capture(s: Seq<char>) -> Seq<char> {
    let sp = space_run_end(s, 0);
    s.subrange(sp + 5, line_end(s, sp + 5))
}

/// Matches the drawing-title line and returns the captured title.
pub fn find_title(s: &str) -> (r: Option<Vec<char>>)
    ensures
        match r {
            Some(v) => title_match(s@) && v@ == title_capture(s@),
            None => !title_match(s@),
        },
{
    let n = s.unicode_len();
    let sp = exec_space_run_end(s, n, 0);
    if !crate::chars::match_at(s, n, sp, "\u{30bf}\u{30a4}\u{30c8}\u{30eb}:") {
        proof {
            reveal_strlit("\u{30bf}\u{30a4}\u{30c8}\u{30eb}:");
        }
        return None;
    }
    proof {
        reveal_strlit("\u{30bf}\u{30a4}\u{30c8}\u{30eb}:");
    }
    let e = exec_line_end(s, n, sp + 5);
    Some(sub_chars(s, sp + 5, e))
}

/// The back-reference fragment pattern: the first `#` in the link
/// target, capturing the rest of its line.
pub open spec fn fragment_match(s: Seq<char>) -> bool {
    exists|i: int| 0 <= i < s.len() && s[i] == '#'
}

/// The captured fragment text after the first `#`.
pub open spec fn first_hash(s: Seq<char>, j: int) -> int
    decreases s.len() - j,
{
    if j < 0 || j >= s.len() {
        s.len() as int
    } else if s[j] == '#' {
        j
    } else {
        first_hash(s, j + 1)
    }
}

pub open spec fn fragment_capture(s: Seq<char>) -> Seq<char> {
    let i = first_hash(s, 0);
    s.subrange(i + 1, line_end(s, i + 1))
}

/// Finds the first `#` and returns the rest of its line.
pub fn find_fragment(s: &str) -> (r: Option<Vec<char>>)
    ensures
        match r {
            Some(v) => fragment_match(s@) && v@ == fragment_capture(s@),
            None => !fragment_match(s@),
        },
{
    let n = s.unicode_len();
    let mut k: usize = 0;
    while k < n
        invariant
            0 <= k <= n,
            n == s@.len(),
            first_hash(s@, 0) == first_hash(s@, k as int),
            forall|j: int| 0 <= j < k ==> s@[j] != '#',
        decreases n - k,
    {
        if s.get_char(k) == '#' {
            assert(first_hash(s@, k as int) == k);
            let e = exec_line_end(s, n, k + 1);
            let v = sub_chars(s, k + 1, e);
            assert(fragment_match(s@));
            return Some(v);
        }
        k = k + 1;
    }
    assert forall|j: int| !(0 <= j < s@.len() && s@[j] == '#') by {}
    None
}

/// The drawing container id pattern: the literal prefix `oekaki`
/// followed by a non-empty remainder with no newline, captured whole.
pub open spec fn oekaki_id_match(s: Seq<char>) -> bool {
    s.len() > 6 && s.subrange(0, 6) == "oekaki"@ && (forall|j: int|
        6 <= j < s.len() ==> s[j] != '\n')
}

pub open spec fn oekaki_id_capture(s: Seq<char>) -> Seq<char> {
    s.subrange(6, s.len() as int)
}

/// Matches the drawing container id and returns the captured
/// remainder.
pub fn find_oekaki_id(s: &str) -> (r: Option<Vec<char>>)
    ensures
        match r {
            Some(v) => oekaki_id_match(s@) && v@ == oekaki_id_capture(s@),
            None => !oekaki_id_match(s@),
        },
{
    let n = s.unicode_len();
    if !crate::chars::match_at(s, n, 0, "oekaki") {
        proof {
            reveal_strlit("oekaki");
        }
        return None;
    }
    proof {
        reveal_strlit("oekaki");
    }
    if n <= 6 {
        return None;
    }
    let e = exec_line_end(s, n, 6);
    if e < n {
        assert(s@[e as int] == '\n') by {
            lemma_line_end_newline(s@, 6, e as int);
        }
        return None;
    }
    proof {
        lemma_line_end_no_newline(s@, 6, n as int);
    }
    Some(sub_chars(s, 6, n))
}

/// First index at or after `j` holding the character `c`, or the end
/// of the text.
pub open spec fn scan_to(s: Seq<char>, j: int, c: char) -> int
    decreases s.len() - j,
{
    if j < 0 || j >= s.len() {
        s.len() as int
    } else if s[j] == c {
        j
    } else {
        scan_to(s, j + 1, c)
    }
}

/// Finds the first occurrence of `c` at or after `j`.
pub fn exec_scan_to(s: &str, n: usize, j: usize, c: char) -> (r: usize)
    requires
        n == s@.len(),
        j <= n,
    ensures
        r == scan_to(s@, j as int, c),
        j <= r <= n,
        r < n ==> s@[r as int] == c,
{
    let mut k: usize = j;
    while k < n
        invariant
            j <= k <= n,
            n == s@.len(),
            scan_to(s@, j as int, c) == scan_to(s@, k as int, c),
        decreases n - k,
    {
        if s.get_char(k) == c {
            assert(scan_to(s@, k as int, c) == k);
            return k;
        }
        k = k + 1;
    }
    assert(scan_to(s@, n as int, c) == n);
    n
}

proof fn lemma_line_end_newline(s: Seq<char>, j: int, e: int)
    requires
        0 <= j <= s.len(),
        e == line_end(s, j),
        e < s.len(),
    ensures
        s[e] == '\n',
    decreases s.len() - j,
{
    if j < s.len() && s[j] != '\n' {
        lemma_line_end_newline(s, j + 1, e);
    }
}

proof fn lemma_line_end_no_newline(s: Seq<char>, j: int, e: int)
    requires
        0 <= j <= s.len(),
        e == line_end(s, j),
        e == s.len(),
    ensures
        forall|k: int| j <= k < s.len() ==> s[k] != '\n',
    decreases s.len() - j,
{
    if j < s.len() && s[j] != '\n' {
        lemma_line_end_no_newline(s, j + 1, e);
    }
}

} // verus!
