//! Character classes and text primitives of the board's markup
//! dialect: digit runs, decimal rendering, entity encoding for the
//! sanitized-HTML buffer, and ASCII-only trimming.

use vstd::prelude::*;
use vstd::string::*;

verus! {

/// ASCII whitespace. Trimming of the finished body buffers uses only
/// this set: full-width spaces are deliberately kept.
pub open spec fn is_ascii_space(c: char) -> bool {
    c == ' ' || c == '\t' || c == '\n' || c == '\r' || c == '\x0c'
}

/// Whitespace as the dialect's patterns understand it: ASCII
/// whitespace plus the no-break and full-width spaces that the board's
/// pages use.
pub open spec fn is_space(c: char) -> bool {
    is_ascii_space(c) || c == '\u{a0}' || c == '\u{3000}'
}

/// Word characters of the dialect's patterns: ASCII alphanumerics,
/// underscore, and everything outside ASCII that is not whitespace
/// (the weekday names and poster ids are Japanese text).
pub open spec fn is_word_char(c: char) -> bool {
    ('a' <= c && c <= 'z') || ('A' <= c && c <= 'Z') || ('0' <= c && c <= '9') || c == '_' || ((
    c as u32) > 127 && !is_space(c))
}

pub open spec fn is_digit(c: char) -> bool {
    '0' <= c && c <= '9'
}

pub open spec fn digit_val(c: char) -> int {
    c as int - '0' as int
}

pub open spec fn all_digits(s: Seq<char>) -> bool {
    forall|i: int| 0 <= i < s.len() ==> is_digit(#[trigger] s[i])
}

/// Value of a run of decimal digits, most significant first.
pub open spec fn digits_value(s: Seq<char>) -> int
    decreases s.len(),
{
    if s.len() == 0 {
        0
    } else {
        digits_value(s.drop_last()) * 10 + digit_val(s.last())
    }
}

pub fn exec_is_ascii_space(c: char) -> (r: bool)
    ensures
        r == is_ascii_space(c),
{
    c == ' ' || c == '\t' || c == '\n' || c == '\r' || c == '\x0c'
}

pub fn exec_is_space(c: char) -> (r: bool)
    ensures
        r == is_space(c),
{
    exec_is_ascii_space(c) || c == '\u{a0}' || c == '\u{3000}'
}

pub fn exec_is_word_char(c: char) -> (r: bool)
    ensures
        r == is_word_char(c),
{
    ('a' <= c && c <= 'z') || ('A' <= c && c <= 'Z') || ('0' <= c && c <= '9') || c == '_' || ((
    c as u32) > 127 && !exec_is_space(c))
}

pub fn exec_is_digit(c: char) -> (r: bool)
    ensures
        r == is_digit(c),
{
    '0' <= c && c <= '9'
}

proof fn lemma_digits_value_nonneg(s: Seq<char>)
    requires
        all_digits(s),
    ensures
        digits_value(s) >= 0,
    decreases s.len(),
{
    if s.len() > 0 {
        assert(all_digits(s.drop_last()));
        lemma_digits_value_nonneg(s.drop_last());
    }
}

proof fn lemma_digits_value_prefix(s: Seq<char>, i: int)
    requires
        all_digits(s),
        0 <= i <= s.len(),
    ensures
        digits_value(s.take(i)) <= digits_value(s),
    decreases s.len() - i,
{
    if i < s.len() {
        lemma_digits_value_prefix(s, i + 1);
        let t = s.take(i + 1);
        assert(t.drop_last() =~= s.take(i));
        assert(all_digits(s.take(i)));
        lemma_digits_value_nonneg(s.take(i));
        assert(digits_value(t) == digits_value(s.take(i)) * 10 + digit_val(s[i]));
    } else {
        assert(s.take(i) =~= s);
    }
}

/// Parses a non-empty run of decimal digits as an `i32`, as the
/// dialect's numeric attributes and fragments are written. Returns
/// `None` when the text is empty, holds a non-digit, or exceeds
/// `i32::MAX`.
pub fn parse_i32_digits(s: &str) -> (r: Option<i32>)
    ensures
        match r {
            Some(v) => s@.len() >= 1 && all_digits(s@) && v == digits_value(s@) && 0 <= v,
            None => s@.len() == 0 || !all_digits(s@) || digits_value(s@) > i32::MAX,
        },
{
    let n = s.unicode_len();
    if n == 0 {
        return None;
    }
    let mut acc: u64 = 0;
    let mut i: usize = 0;
    while i < n
        invariant
            0 <= i <= n,
            n == s@.len(),
            all_digits(s@.take(i as int)),
            acc == digits_value(s@.take(i as int)),
            acc <= i32::MAX,
        decreases n - i,
    {
        let c = s.get_char(i);
        if !exec_is_digit(c) {
            assert(!all_digits(s@));
            return None;
        }
        assert(c as u32 >= '0' as u32 && c as u32 <= '9' as u32);
        let d: u64 = (c as u32 as u64) - ('0' as u32 as u64);
        assert(d == digit_val(c));
        let next: u64 = acc * 10 + d;
        assert(s@.take(i as int + 1).drop_last() =~= s@.take(i as int));
        assert(next == digits_value(s@.take(i as int + 1)));
        if next > i32::MAX as u64 {
            proof {
                if all_digits(s@) {
                    lemma_digits_value_prefix(s@, i as int + 1);
                    assert(s@.take(s@.len() as int) =~= s@);
                }
            }
            return None;
        }
        acc = next;
        i = i + 1;
    }
    assert(s@.take(n as int) =~= s@);
    Some(acc as i32)
}

pub open spec fn digit_char(d: int) -> char {
    if d == 0 {
        '0'
    } else if d == 1 {
        '1'
    } else if d == 2 {
        '2'
    } else if d == 3 {
        '3'
    } else if d == 4 {
        '4'
    } else if d == 5 {
        '5'
    } else if d == 6 {
        '6'
    } else if d == 7 {
        '7'
    } else if d == 8 {
        '8'
    } else {
        '9'
    }
}

/// Decimal rendering of a non-negative integer, most significant digit
/// first, no leading zeros (except for zero itself).
pub open spec fn dec_rep(n: int) -> Seq<char>
    decreases n,
{
    if n <= 9 {
        seq![digit_char(if n < 0 { 0 } else { n })]
    } else {
        dec_rep(n / 10).push(digit_char(n % 10))
    }
}

fn exec_digit_char(d: u32) -> (c: char)
    requires
        d <= 9,
    ensures
        c == digit_char(d as int),
{
    if d == 0 {
        '0'
    } else if d == 1 {
        '1'
    } else if d == 2 {
        '2'
    } else if d == 3 {
        '3'
    } else if d == 4 {
        '4'
    } else if d == 5 {
        '5'
    } else if d == 6 {
        '6'
    } else if d == 7 {
        '7'
    } else if d == 8 {
        '8'
    } else {
        '9'
    }
}

/// Appends the decimal rendering of `n` to `out`.
pub fn push_dec(out: &mut Vec<char>, n: u32)
    ensures
        final (out)@ == old(out)@ + dec_rep(n as int),
    decreases n,
{
    let ghost base = out@;
    if n <= 9 {
        let c = exec_digit_char(n);
        out.push(c);
        assert(out@ =~= base + dec_rep(n as int));
    } else {
        push_dec(out, n / 10);
        let c = exec_digit_char(n % 10);
        out.push(c);
        assert(out@ =~= base + dec_rep(n as int));
    }
}

/// HTML entity encoding of one character for the sanitized-HTML
/// buffer: the three markup-significant characters become entities.
pub open spec fn encode_char(c: char) -> Seq<char> {
    if c == '&' {
        seq!['&', 'a', 'm', 'p', ';']
    } else if c == '<' {
        seq!['&', 'l', 't', ';']
    } else if c == '>' {
        seq!['&', 'g', 't', ';']
    } else {
        seq![c]
    }
}

/// Entity encoding of a whole text run.
pub open spec fn encode_text_spec(s: Seq<char>) -> Seq<char>
    decreases s.len(),
{
    if s.len() == 0 {
        Seq::empty()
    } else {
        encode_text_spec(s.drop_last()) + encode_char(s.last())
    }
}

/// Appends the entity-encoded form of `s` to `out`.
pub fn push_encoded(out: &mut Vec<char>, s: &str)
    ensures
        final (out)@ == old(out)@ + encode_text_spec(s@),
{
    let ghost base = out@;
    let n = s.unicode_len();
    let mut i: usize = 0;
    assert(s@.take(0) =~= Seq::<char>::empty());
    assert(out@ =~= base + encode_text_spec(s@.take(0)));
    while i < n
        invariant
            0 <= i <= n,
            n == s@.len(),
            out@ == base + encode_text_spec(s@.take(i as int)),
        decreases n - i,
    {
        let c = s.get_char(i);
        if c == '&' {
            out.push('&');
            out.push('a');
            out.push('m');
            out.push('p');
            out.push(';');
        } else if c == '<' {
            out.push('&');
            out.push('l');
            out.push('t');
            out.push(';');
        } else if c == '>' {
            out.push('&');
            out.push('g');
            out.push('t');
            out.push(';');
        } else {
            out.push(c);
        }
        assert(s@.take(i + 1).drop_last() =~= s@.take(i as int));
        assert(s@.take(i + 1).last() == s@[i as int]);
        assert(out@ =~= base + encode_text_spec(s@.take(i + 1)));
        i = i + 1;
    }
    assert(s@.take(n as int) =~= s@);
}

/// Appends the characters of `s` to `out` unchanged.
pub fn push_chars(out: &mut Vec<char>, s: &str)
    ensures
        final (out)@ == old(out)@ + s@,
{
    let ghost base = out@;
    let n = s.unicode_len();
    let mut i: usize = 0;
    while i < n
        invariant
            0 <= i <= n,
            n == s@.len(),
            out@ == base + s@.take(i as int),
        decreases n - i,
    {
        let c = s.get_char(i);
        out.push(c);
        assert(out@ =~= base + s@.take(i + 1));
        i = i + 1;
    }
    assert(s@.take(n as int) =~= s@);
}

/// Index of the first character of `s` that is not ASCII whitespace
/// (`s.len()` when all of `s` is whitespace).
pub open spec fn trim_start_idx(s: Seq<char>, from: int) -> int
    decreases s.len() - from,
{
    if from < 0 || from >= s.len() {
        s.len() as int
    } else if is_ascii_space(s[from]) {
        trim_start_idx(s, from + 1)
    } else {
        from
    }
}

/// One past the index of the last character of `s` that is not ASCII
/// whitespace (`0` when all of `s` is whitespace).
pub open spec fn trim_end_idx(s: Seq<char>, upto: int) -> int
    decreases upto,
{
    if upto <= 0 || upto > s.len() {
        0
    } else if is_ascii_space(s[upto - 1]) {
        trim_end_idx(s, upto - 1)
    } else {
        upto
    }
}

/// `s` with leading and trailing ASCII whitespace removed; full-width
/// spaces are kept.
pub open spec fn trim_spec(s: Seq<char>) -> Seq<char> {
    let a = trim_start_idx(s, 0);
    let b = trim_end_idx(s, s.len() as int);
    if a <= b {
        s.subrange(a, b)
    } else {
        Seq::empty()
    }
}

/// First index of `v` that holds no ASCII whitespace.
fn first_non_space(v: &Vec<char>) -> (a: usize)
    ensures
        a == trim_start_idx(v@, 0),
        a <= v@.len(),
        forall|j: int| 0 <= j < a ==> is_ascii_space(v@[j]),
{
    let n = v.len();
    let mut i: usize = 0;
    while i < n
        invariant
            0 <= i <= n,
            n == v@.len(),
            trim_start_idx(v@, 0) == trim_start_idx(v@, i as int),
            forall|j: int| 0 <= j < i ==> is_ascii_space(v@[j]),
        decreases n - i,
    {
        if !exec_is_ascii_space(v[i]) {
            assert(trim_start_idx(v@, i as int) == i);
            return i;
        }
        i = i + 1;
    }
    assert(trim_start_idx(v@, n as int) == n);
    n
}

/// One past the last index of `v` that holds no ASCII whitespace,
/// scanning down to `a` (with everything below `a` known whitespace).
fn last_non_space_end(v: &Vec<char>, a: usize) -> (b: usize)
    requires
        a <= v@.len(),
        forall|j: int| 0 <= j < a ==> is_ascii_space(v@[j]),
    ensures
        b == trim_end_idx(v@, v@.len() as int),
        b == 0 || a <= b <= v@.len(),
{
    let n = v.len();
    let mut i: usize = n;
    while i > a
        invariant
            a <= i <= n,
            n == v@.len(),
            trim_end_idx(v@, n as int) == trim_end_idx(v@, i as int),
        decreases i,
    {
        if !exec_is_ascii_space(v[i - 1]) {
            assert(trim_end_idx(v@, i as int) == i);
            return i;
        }
        i = i - 1;
    }
    proof {
        lemma_trim_end_of_spaces(v@, a as int);
    }
    0
}

proof fn lemma_trim_end_of_spaces(s: Seq<char>, b: int)
    requires
        0 <= b <= s.len(),
        forall|j: int| 0 <= j < b ==> is_ascii_space(s[j]),
    ensures
        trim_end_idx(s, b) == 0,
    decreases b,
{
    if b > 0 {
        lemma_trim_end_of_spaces(s, b - 1);
    }
}

/// Removes leading and trailing ASCII whitespace from `v`.
pub fn trim_ascii(v: &Vec<char>) -> (r: Vec<char>)
    ensures
        r@ == trim_spec(v@),
{
    let a = first_non_space(v);
    let b = last_non_space_end(v, a);
    let mut r: Vec<char> = Vec::new();
    if b <= a {
        assert(r@ =~= trim_spec(v@));
        return r;
    }
    let mut i: usize = a;
    while i < b
        invariant
            a <= i <= b <= v@.len(),
            r@ == v@.subrange(a as int, i as int),
        decreases b - i,
    {
        let c = v[i];
        r.push(c);
        assert(r@ =~= v@.subrange(a as int, i as int + 1));
        i = i + 1;
    }
    assert(r@ =~= trim_spec(v@));
    r
}

/// Concatenation of a sequence of text segments.
pub open spec fn join_segs(segs: Seq<Seq<char>>) -> Seq<char>
    decreases segs.len(),
{
    if segs.len() == 0 {
        Seq::empty()
    } else {
        join_segs(segs.drop_last()) + segs.last()
    }
}

/// View of a vector of owned segments as a sequence of char
/// sequences.
pub open spec fn segs_view(v: Seq<Vec<char>>) -> Seq<Seq<char>> {
    v.map_values(|s: Vec<char>| s@)
}

/// Joins the segments of `v` into one character buffer.
pub fn join_segments(v: &Vec<Vec<char>>) -> (r: Vec<char>)
    ensures
        r@ == join_segs(segs_view(v@)),
{
    let mut r: Vec<char> = Vec::new();
    let n = v.len();
    let mut i: usize = 0;
    assert(segs_view(v@).take(0) =~= Seq::<Seq<char>>::empty());
    while i < n
        invariant
            0 <= i <= n,
            n == v@.len(),
            r@ == join_segs(segs_view(v@).take(i as int)),
        decreases n - i,
    {
        push_char_vec(&mut r, &v[i]);
        assert(segs_view(v@).take(i as int + 1).drop_last() =~= segs_view(v@).take(i as int));
        assert(segs_view(v@).take(i as int + 1).last() == v@[i as int]@);
        i = i + 1;
    }
    assert(segs_view(v@).take(n as int) =~= segs_view(v@));
    r
}

/// Appends the entity-encoded form of the buffer `v` to `out`.
pub fn push_encoded_vec(out: &mut Vec<char>, v: &Vec<char>)
    ensures
        final (out)@ == old(out)@ + encode_text_spec(v@),
{
    let ghost base = out@;
    let n = v.len();
    let mut i: usize = 0;
    assert(v@.take(0) =~= Seq::<char>::empty());
    assert(out@ =~= base + encode_text_spec(v@.take(0)));
    while i < n
        invariant
            0 <= i <= n,
            n == v@.len(),
            out@ == base + encode_text_spec(v@.take(i as int)),
        decreases n - i,
    {
        let c = v[i];
        if c == '&' {
            out.push('&');
            out.push('a');
            out.push('m');
            out.push('p');
            out.push(';');
        } else if c == '<' {
            out.push('&');
            out.push('l');
            out.push('t');
            out.push(';');
        } else if c == '>' {
            out.push('&');
            out.push('g');
            out.push('t');
            out.push(';');
        } else {
            out.push(c);
        }
        assert(v@.take(i as int + 1).drop_last() =~= v@.take(i as int));
        assert(v@.take(i as int + 1).last() == v@[i as int]);
        assert(out@ =~= base + encode_text_spec(v@.take(i as int + 1)));
        i = i + 1;
    }
    assert(v@.take(n as int) =~= v@);
}

/// Value of the digit run `s[a..b]`, at most four digits long.
pub fn digits_val_at(s: &str, n: usize, a: usize, b: usize) -> (r: u32)
    requires
        n == s@.len(),
        a <= b <= n,
        b - a <= 4,
        all_digits(s@.subrange(a as int, b as int)),
    ensures
        r == digits_value(s@.subrange(a as int, b as int)),
        r <= 9999,
{
    let mut acc: u32 = 0;
    let mut k: usize = a;
    assert(s@.subrange(a as int, a as int) =~= Seq::<char>::empty());
    while k < b
        invariant
            a <= k <= b <= n,
            n == s@.len(),
            b - a <= 4,
            all_digits(s@.subrange(a as int, b as int)),
            acc == digits_value(s@.subrange(a as int, k as int)),
            k - a == 0 ==> acc == 0,
            k - a == 1 ==> acc <= 9,
            k - a == 2 ==> acc <= 99,
            k - a == 3 ==> acc <= 999,
            k - a == 4 ==> acc <= 9999,
        decreases b - k,
    {
        let c = s.get_char(k);
        assert(s@.subrange(a as int, b as int)[k - a] == s@[k as int]);
        assert(is_digit(c));
        assert(c as u32 >= '0' as u32 && c as u32 <= '9' as u32);
        let d: u32 = c as u32 - '0' as u32;
        acc = acc * 10 + d;
        assert(s@.subrange(a as int, k as int + 1).drop_last() =~= s@.subrange(a as int, k as int));
        assert(s@.subrange(a as int, k as int + 1).last() == s@[k as int]);
        k = k + 1;
    }
    acc
}

/// The characters `s[a..b]` as an owned buffer.
pub fn sub_chars(s: &str, a: usize, b: usize) -> (r: Vec<char>)
    requires
        a <= b <= s@.len(),
    ensures
        r@ == s@.subrange(a as int, b as int),
{
    let mut r: Vec<char> = Vec::new();
    let mut i: usize = a;
    assert(s@.subrange(a as int, a as int) =~= Seq::<char>::empty());
    while i < b
        invariant
            a <= i <= b <= s@.len(),
            r@ == s@.subrange(a as int, i as int),
        decreases b - i,
    {
        let c = s.get_char(i);
        r.push(c);
        assert(r@ =~= s@.subrange(a as int, i as int + 1));
        i = i + 1;
    }
    r
}

/// Relies on std's FromIterator for String: collects the characters
/// into one owned string, in order.
#[verifier::external_body]
pub fn string_from_chars(v: &Vec<char>) -> (r: String)
    ensures
        r@ == v@,
{
    v.iter().collect()
}

/// Appends the characters of `v` to `out`.
pub fn push_char_vec(out: &mut Vec<char>, v: &Vec<char>)
    ensures
        final (out)@ == old(out)@ + v@,
{
    let ghost base = out@;
    let n = v.len();
    let mut i: usize = 0;
    while i < n
        invariant
            0 <= i <= n,
            n == v@.len(),
            out@ == base + v@.take(i as int),
        decreases n - i,
    {
        let c = v[i];
        out.push(c);
        assert(out@ =~= base + v@.take(i as int + 1));
        i = i + 1;
    }
    assert(v@.take(n as int) =~= v@);
}

/// Whether the buffer holds exactly the characters of `s`.
pub fn chars_eq_str(v: &Vec<char>, s: &str) -> (r: bool)
    ensures
        r == (v@ == s@),
{
    let n = v.len();
    let m = s.unicode_len();
    if n != m {
        assert(v@ != s@);
        return false;
    }
    let mut i: usize = 0;
    while i < n
        invariant
            0 <= i <= n,
            n == v@.len(),
            n == s@.len(),
            forall|j: int| 0 <= j < i ==> v@[j] == s@[j],
        decreases n - i,
    {
        if v[i] != s.get_char(i) {
            assert(v@[i as int] != s@[i as int]);
            return false;
        }
        i = i + 1;
    }
    assert(v@ =~= s@);
    true
}

/// Parses a non-empty run of decimal digits as an `i32`, from an owned
/// character buffer.
pub fn parse_i32_chars(v: &Vec<char>) -> (r: Option<i32>)
    ensures
        match r {
            Some(x) => v@.len() >= 1 && all_digits(v@) && x == digits_value(v@) && 0 <= x,
            None => v@.len() == 0 || !all_digits(v@) || digits_value(v@) > i32::MAX,
        },
{
    let n = v.len();
    if n == 0 {
        return None;
    }
    let mut acc: u64 = 0;
    let mut i: usize = 0;
    while i < n
        invariant
            0 <= i <= n,
            n == v@.len(),
            all_digits(v@.take(i as int)),
            acc == digits_value(v@.take(i as int)),
            acc <= i32::MAX,
        decreases n - i,
    {
        let c = v[i];
        if !exec_is_digit(c) {
            assert(!is_digit(v@[i as int]));
            return None;
        }
        assert(c as u32 >= '0' as u32 && c as u32 <= '9' as u32);
        let d: u64 = (c as u32 as u64) - ('0' as u32 as u64);
        assert(d == digit_val(c));
        let next: u64 = acc * 10 + d;
        assert(v@.take(i as int + 1).drop_last() =~= v@.take(i as int));
        assert(next == digits_value(v@.take(i as int + 1)));
        if next > i32::MAX as u64 {
            proof {
                if all_digits(v@) {
                    lemma_digits_value_prefix(v@, i as int + 1);
                    assert(v@.take(v@.len() as int) =~= v@);
                }
            }
            return None;
        }
        acc = next;
        i = i + 1;
    }
    assert(v@.take(n as int) =~= v@);
    Some(acc as i32)
}

/// Character-for-character string equality.
pub fn str_eq(a: &str, b: &str) -> (r: bool)
    ensures
        r == (a@ == b@),
{
    let na = a.unicode_len();
    let nb = b.unicode_len();
    if na != nb {
        assert(a@ != b@);
        return false;
    }
    let mut i: usize = 0;
    while i < na
        invariant
            0 <= i <= na,
            na == a@.len(),
            na == b@.len(),
            forall|j: int| 0 <= j < i ==> a@[j] == b@[j],
        decreases na - i,
    {
        if a.get_char(i) != b.get_char(i) {
            assert(a@[i as int] != b@[i as int]);
            return false;
        }
        i = i + 1;
    }
    assert(a@ =~= b@);
    true
}

/// The pattern `pat` occurs in `s` starting at index `i`.
pub open spec fn occurs_at(s: Seq<char>, pat: Seq<char>, i: int) -> bool {
    0 <= i && i + pat.len() <= s.len() && s.subrange(i, i + pat.len()) == pat
}

/// Some occurrence of `pat` exists in `s`.
pub open spec fn contains_sub(s: Seq<char>, pat: Seq<char>) -> bool {
    exists|i: int| occurs_at(s, pat, i)
}

/// Tests whether `pat` occurs in `s` at position `i`.
pub fn match_at(s: &str, n: usize, i: usize, pat: &str) -> (r: bool)
    requires
        n == s@.len(),
        i <= n,
    ensures
        r == occurs_at(s@, pat@, i as int),
{
    let m = pat.unicode_len();
    if m > n - i {
        assert(!occurs_at(s@, pat@, i as int));
        return false;
    }
    let mut k: usize = 0;
    while k < m
        invariant
            0 <= k <= m,
            m == pat@.len(),
            n == s@.len(),
            i + m <= n,
            forall|j: int| 0 <= j < k ==> s@[i + j] == pat@[j],
        decreases m - k,
    {
        if s.get_char(i + k) != pat.get_char(k) {
            assert(s@[i + k as int] != pat@[k as int]);
            assert(!occurs_at(s@, pat@, i as int)) by {
                if occurs_at(s@, pat@, i as int) {
                    assert(s@.subrange(i as int, i + pat@.len())[k as int] == pat@[k as int]);
                }
            }
            return false;
        }
        k = k + 1;
    }
    assert(s@.subrange(i as int, i + pat@.len()) =~= pat@);
    true
}

/// Leftmost occurrence of `pat` in `s`, if any.
pub fn find_first(s: &str, pat: &str) -> (r: Option<usize>)
    ensures
        match r {
            Some(i) => occurs_at(s@, pat@, i as int) && forall|j: int|
                0 <= j < i ==> !occurs_at(s@, pat@, j),
            None => forall|j: int| !occurs_at(s@, pat@, j),
        },
{
    let n = s.unicode_len();
    let m = pat.unicode_len();
    if m == 0 {
        assert(s@.subrange(0, 0) =~= pat@);
        assert(occurs_at(s@, pat@, 0));
        return Some(0);
    }
    if m > n {
        assert(forall|j: int| !occurs_at(s@, pat@, j));
        return None;
    }
    let mut i: usize = 0;
    while i <= n - m
        invariant
            0 <= i <= n - m + 1,
            1 <= m <= n,
            n == s@.len(),
            m == pat@.len(),
            forall|j: int| 0 <= j < i ==> !occurs_at(s@, pat@, j),
        decreases n - i,
    {
        if match_at(s, n, i, pat) {
            return Some(i);
        }
        i = i + 1;
    }
    assert forall|j: int| !occurs_at(s@, pat@, j) by {
        if occurs_at(s@, pat@, j) {
            assert(0 <= j < i);
        }
    }
    None
}

} // verus!
