//! Character classes and scanning helpers over character sequences.
//!
//! Source text is handled as a sequence of characters; every position in
//! this crate is a character index.

use vstd::prelude::*;
use vstd::slice::slice_subrange;
use vstd::std_specs::iter::IteratorSpec;

verus! {

/// Whether `c` has the Unicode `White_Space` property.
pub open spec fn is_whitespace(c: char) -> bool {
    let n = c as u32;
    ||| 0x09 <= n <= 0x0d
    ||| n == 0x20
    ||| n == 0x85
    ||| n == 0xa0
    ||| n == 0x1680
    ||| 0x2000 <= n <= 0x200a
    ||| n == 0x2028
    ||| n == 0x2029
    ||| n == 0x202f
    ||| n == 0x205f
    ||| n == 0x3000
}

/// Whether `c` is an ASCII space, tab, line feed, form feed or carriage
/// return.
pub open spec fn is_ascii_whitespace(c: char) -> bool {
    c == ' ' || c == '\t' || c == '\n' || c == '\x0c' || c == '\r'
}

/// Whether `c` is an ASCII letter.
pub open spec fn is_ascii_letter(c: char) -> bool {
    ('a' <= c && c <= 'z') || ('A' <= c && c <= 'Z')
}

/// Whether `c` is an ASCII decimal digit.
pub open spec fn is_ascii_digit(c: char) -> bool {
    '0' <= c && c <= '9'
}

/// Whether `c` can start an identifier: an ASCII letter or `_`.
pub open spec fn is_identifier_start(c: char) -> bool {
    is_ascii_letter(c) || c == '_'
}

/// Whether `c` can continue an identifier: an ASCII letter, digit or `_`.
pub open spec fn is_identifier_char(c: char) -> bool {
    is_ascii_letter(c) || is_ascii_digit(c) || c == '_'
}

/// Whether `c` is whitespace.
pub fn char_is_whitespace(c: char) -> (b: bool)
    ensures
        b == is_whitespace(c),
{
    let n: u32 = c as u32;
    (0x09 <= n && n <= 0x0d) || n == 0x20 || n == 0x85 || n == 0xa0 || n == 0x1680 || (0x2000 <= n
        && n <= 0x200a) || n == 0x2028 || n == 0x2029 || n == 0x202f || n == 0x205f || n == 0x3000
}

/// Whether `c` is ASCII whitespace.
pub fn char_is_ascii_whitespace(c: char) -> (b: bool)
    ensures
        b == is_ascii_whitespace(c),
{
    c == ' ' || c == '\t' || c == '\n' || c == '\x0c' || c == '\r'
}

/// Whether `c` can start an identifier.
pub fn char_is_identifier_start(c: char) -> (b: bool)
    ensures
        b == is_identifier_start(c),
{
    ('a' <= c && c <= 'z') || ('A' <= c && c <= 'Z') || c == '_'
}

/// Whether `c` can continue an identifier.
pub fn char_is_identifier_char(c: char) -> (b: bool)
    ensures
        b == is_identifier_char(c),
{
    ('a' <= c && c <= 'z') || ('A' <= c && c <= 'Z') || ('0' <= c && c <= '9') || c == '_'
}

/// First position at or after `i` that holds no whitespace, or the end.
pub open spec fn skip_whitespace(s: Seq<char>, i: int) -> int
    decreases s.len() - i,
{
    if 0 <= i < s.len() && is_whitespace(s[i]) {
        skip_whitespace(s, i + 1)
    } else {
        i
    }
}

/// First position at or after `i` that holds whitespace, or the end.
pub open spec fn skip_non_whitespace(s: Seq<char>, i: int) -> int
    decreases s.len() - i,
{
    if 0 <= i < s.len() && !is_whitespace(s[i]) {
        skip_non_whitespace(s, i + 1)
    } else {
        i
    }
}

/// First position at or after `i` that holds no ASCII whitespace, or the
/// end.
pub open spec fn skip_ascii_whitespace(s: Seq<char>, i: int) -> int
    decreases s.len() - i,
{
    if 0 <= i < s.len() && is_ascii_whitespace(s[i]) {
        skip_ascii_whitespace(s, i + 1)
    } else {
        i
    }
}

/// First position at or after `i` that holds no identifier character, or
/// the end.
pub open spec fn skip_identifier(s: Seq<char>, i: int) -> int
    decreases s.len() - i,
{
    if 0 <= i < s.len() && is_identifier_char(s[i]) {
        skip_identifier(s, i + 1)
    } else {
        i
    }
}

/// First position at or after `i` that holds `c`, or the end.
pub open spec fn find_char(s: Seq<char>, i: int, c: char) -> int
    decreases s.len() - i,
{
    if 0 <= i < s.len() && s[i] != c {
        find_char(s, i + 1, c)
    } else {
        i
    }
}

/// Smallest `j` at or below `j0` such that everything from `j` up to `j0`
/// is whitespace.
pub open spec fn skip_whitespace_back(s: Seq<char>, j: int) -> int
    decreases j,
{
    if 0 < j <= s.len() && is_whitespace(s[j - 1]) {
        skip_whitespace_back(s, j - 1)
    } else {
        j
    }
}

/// `s` without its leading and trailing whitespace.
pub open spec fn trimmed(s: Seq<char>) -> Seq<char> {
    let a = skip_whitespace(s, 0);
    let b = skip_whitespace_back(s, s.len() as int);
    if a < b {
        s.subrange(a, b)
    } else {
        Seq::empty()
    }
}

/// Whether `pat` occurs in `s` at position `i`.
pub open spec fn matches_at(s: Seq<char>, i: int, pat: Seq<char>) -> bool {
    0 <= i && i + pat.len() <= s.len() && s.subrange(i, i + pat.len()) == pat
}

/// Skipping whitespace moves forward and stays inside the text.
pub proof fn lemma_skip_whitespace_bounds(s: Seq<char>, i: int)
    requires
        0 <= i <= s.len(),
    ensures
        i <= skip_whitespace(s, i) <= s.len(),
    decreases s.len() - i,
{
    if i < s.len() && is_whitespace(s[i]) {
        lemma_skip_whitespace_bounds(s, i + 1);
    }
}

/// First position at or after `start` that holds no whitespace.
pub fn skip_whitespace_from(s: &[char], start: usize) -> (r: usize)
    requires
        start <= s.len(),
    ensures
        r == skip_whitespace(s@, start as int),
        start <= r <= s.len(),
{
    let mut i: usize = start;
    while i < s.len() && char_is_whitespace(s[i])
        invariant
            start <= i <= s.len(),
            skip_whitespace(s@, i as int) == skip_whitespace(s@, start as int),
        decreases s.len() - i,
    {
        i += 1;
    }
    i
}

/// First position at or after `start` that holds whitespace.
pub fn skip_non_whitespace_from(s: &[char], start: usize) -> (r: usize)
    requires
        start <= s.len(),
    ensures
        r == skip_non_whitespace(s@, start as int),
        start <= r <= s.len(),
{
    let mut i: usize = start;
    while i < s.len() && !char_is_whitespace(s[i])
        invariant
            start <= i <= s.len(),
            skip_non_whitespace(s@, i as int) == skip_non_whitespace(s@, start as int),
        decreases s.len() - i,
    {
        i += 1;
    }
    i
}

/// First position at or after `start` that holds no ASCII whitespace.
pub fn skip_ascii_whitespace_from(s: &[char], start: usize) -> (r: usize)
    requires
        start <= s.len(),
    ensures
        r == skip_ascii_whitespace(s@, start as int),
        start <= r <= s.len(),
{
    let mut i: usize = start;
    while i < s.len() && char_is_ascii_whitespace(s[i])
        invariant
            start <= i <= s.len(),
            skip_ascii_whitespace(s@, i as int) == skip_ascii_whitespace(s@, start as int),
        decreases s.len() - i,
    {
        i += 1;
    }
    i
}

/// First position at or after `start` that holds no identifier character.
pub fn skip_identifier_from(s: &[char], start: usize) -> (r: usize)
    requires
        start <= s.len(),
    ensures
        r == skip_identifier(s@, start as int),
        start <= r <= s.len(),
{
    let mut i: usize = start;
    while i < s.len() && char_is_identifier_char(s[i])
        invariant
            start <= i <= s.len(),
            skip_identifier(s@, i as int) == skip_identifier(s@, start as int),
        decreases s.len() - i,
    {
        i += 1;
    }
    i
}

/// First position at or after `start` that holds `c`, or the end.
pub fn find_char_from(s: &[char], start: usize, c: char) -> (r: usize)
    requires
        start <= s.len(),
    ensures
        r == find_char(s@, start as int, c),
        start <= r <= s.len(),
{
    let mut i: usize = start;
    while i < s.len() && s[i] != c
        invariant
            start <= i <= s.len(),
            find_char(s@, i as int, c) == find_char(s@, start as int, c),
        decreases s.len() - i,
    {
        i += 1;
    }
    i
}

/// Start of the whitespace that ends at `end`.
pub fn skip_whitespace_back_from(s: &[char], end: usize) -> (r: usize)
    requires
        end <= s.len(),
    ensures
        r == skip_whitespace_back(s@, end as int),
        r <= end,
{
    let mut j: usize = end;
    while j > 0 && char_is_whitespace(s[j - 1])
        invariant
            j <= end <= s.len(),
            skip_whitespace_back(s@, j as int) == skip_whitespace_back(s@, end as int),
        decreases j,
    {
        j -= 1;
    }
    j
}

/// The part of `s` between its leading and trailing whitespace.
pub fn trim(s: &[char]) -> (r: &[char])
    ensures
        r@ == trimmed(s@),
{
    let a = skip_whitespace_from(s, 0);
    let b = skip_whitespace_back_from(s, s.len());
    if a < b {
        slice_subrange(s, a, b)
    } else {
        slice_subrange(s, 0, 0)
    }
}

/// Whether the two slices hold the same characters.
pub fn same_chars(a: &[char], b: &[char]) -> (r: bool)
    ensures
        r == (a@ == b@),
{
    if a.len() != b.len() {
        return false;
    }
    let mut i: usize = 0;
    while i < a.len()
        invariant
            i <= a.len(),
            a.len() == b.len(),
            a@.take(i as int) == b@.take(i as int),
        decreases a.len() - i,
    {
        if a[i] != b[i] {
            return false;
        }
        assert(a@.take(i + 1) =~= a@.take(i as int).push(a@[i as int]));
        assert(b@.take(i + 1) =~= b@.take(i as int).push(b@[i as int]));
        i += 1;
    }
    assert(a@ =~= a@.take(a.len() as int));
    assert(b@ =~= b@.take(b.len() as int));
    true
}

/// Whether `pat` occurs in `s` at position `i`.
pub fn occurs_at(s: &[char], i: usize, pat: &[char]) -> (r: bool)
    ensures
        r == matches_at(s@, i as int, pat@),
{
    if pat.len() > s.len() || i > s.len() - pat.len() {
        return false;
    }
    same_chars(slice_subrange(s, i, i + pat.len()), pat)
}

/// The characters of `s`, in order.
pub fn chars_of(s: &str) -> (v: Vec<char>)
    ensures
        v@ == s@,
{
    let mut v: Vec<char> = Vec::new();
    for c in it: s.chars()
        invariant
            v@ == it.seq().take(it.index() as int),
            it.seq() == s@,
    {
        v.push(c);
    }
    v
}

/// Appends one character to `s` with `String::push`: the new contents are
/// the old ones followed by `c`.
#[verifier::external_body]
fn push_char(s: &mut String, c: char)
    ensures
        final(s)@ == old(s)@.push(c),
{
    s.push(c);
}

/// The string made of the characters of `v`, in order.
pub fn string_of(v: &[char]) -> (s: String)
    ensures
        s@ == v@,
{
    let mut s = String::new();
    let mut i: usize = 0;
    while i < v.len()
        invariant
            i <= v.len(),
            s@ == v@.take(i as int),
        decreases v.len() - i,
    {
        push_char(&mut s, v[i]);
        i += 1;
    }
    s
}

/// Whether `s` spells the text `lit`.
pub fn equals_str(s: &[char], lit: &str) -> (r: bool)
    ensures
        r == (s@ == lit@),
{
    let v = chars_of(lit);
    same_chars(s, v.as_slice())
}

/// Whether the text `lit` occurs in `s` at position `i`.
pub fn str_occurs_at(s: &[char], i: usize, lit: &str) -> (r: bool)
    ensures
        r == matches_at(s@, i as int, lit@),
{
    let v = chars_of(lit);
    occurs_at(s, i, v.as_slice())
}

/// Appends the characters of `other` to `v`.
pub fn append_chars(v: &mut Vec<char>, other: &[char])
    ensures
        final(v)@ == old(v)@ + other@,
{
    let mut i: usize = 0;
    while i < other.len()
        invariant
            i <= other.len(),
            v@ == old(v)@ + other@.take(i as int),
        decreases other.len() - i,
    {
        v.push(other[i]);
        assert(other@.take(i + 1) =~= other@.take(i as int).push(other@[i as int]));
        i += 1;
    }
    assert(other@ =~= other@.take(other.len() as int));
}

/// Appends the characters of the text `lit` to `v`.
pub fn append_str(v: &mut Vec<char>, lit: &str)
    ensures
        final(v)@ == old(v)@ + lit@,
{
    let w = chars_of(lit);
    append_chars(v, w.as_slice());
}

/// A fresh copy of the characters of `s`.
pub fn copy_chars(s: &[char]) -> (v: Vec<char>)
    ensures
        v@ == s@,
{
    let mut v: Vec<char> = Vec::new();
    append_chars(&mut v, s);
    v
}

/// The decimal digit for `d`, which is below ten.
pub open spec fn digit_char(d: nat) -> char {
    if d == 0 {
        '0'
    } else if d == 1 {
        '1'
    } else if d == 2 {
        '2'
    } else if d == 3 {
        '3'
    } else if d == 4 {
        '4'
    } else if d == 5 {
        '5'
    } else if d == 6 {
        '6'
    } else if d == 7 {
        '7'
    } else if d == 8 {
        '8'
    } else {
        '9'
    }
}

/// `n` written in decimal, without leading zeros.
pub open spec fn decimal(n: nat) -> Seq<char>
    decreases n,
{
    if n < 10 {
        seq![digit_char(n)]
    } else {
        decimal(n / 10).push(digit_char(n % 10))
    }
}

/// The decimal digit for `d`.
fn digit_char_of(d: usize) -> (c: char)
    requires
        d < 10,
    ensures
        c == digit_char(d as nat),
{
    if d == 0 {
        '0'
    } else if d == 1 {
        '1'
    } else if d == 2 {
        '2'
    } else if d == 3 {
        '3'
    } else if d == 4 {
        '4'
    } else if d == 5 {
        '5'
    } else if d == 6 {
        '6'
    } else if d == 7 {
        '7'
    } else if d == 8 {
        '8'
    } else {
        '9'
    }
}

/// `n` written in decimal.
pub fn decimal_digits(n: usize) -> (v: Vec<char>)
    ensures
        v@ == decimal(n as nat),
    decreases n,
{
    if n < 10 {
        let mut v: Vec<char> = Vec::new();
        v.push(digit_char_of(n));
        v
    } else {
        let mut v = decimal_digits(n / 10);
        v.push(digit_char_of(n % 10));
        v
    }
}

/// `s` from position `i` on, with every occurrence of `pat` replaced by
/// `rep`, appended to `acc`. Occurrences are taken from left to right and do
/// not overlap.
pub open spec fn replaced_from(
    s: Seq<char>,
    i: int,
    pat: Seq<char>,
    rep: Seq<char>,
    acc: Seq<char>,
) -> Seq<char>
    decreases s.len() - i,
{
    if 0 <= i < s.len() {
        if pat.len() > 0 && matches_at(s, i, pat) {
            replaced_from(s, i + pat.len(), pat, rep, acc + rep)
        } else {
            replaced_from(s, i + 1, pat, rep, acc.push(s[i]))
        }
    } else {
        acc
    }
}

/// `s` with every occurrence of `pat` replaced by `rep`.
pub open spec fn replaced(s: Seq<char>, pat: Seq<char>, rep: Seq<char>) -> Seq<char> {
    replaced_from(s, 0, pat, rep, Seq::empty())
}

/// Replaces every occurrence of `pat` in `s` by `rep`.
pub fn replace_text(s: &[char], pat: &[char], rep: &[char]) -> (r: Vec<char>)
    requires
        pat.len() > 0,
    ensures
        r@ == replaced(s@, pat@, rep@),
{
    let mut r: Vec<char> = Vec::new();
    let mut i: usize = 0;
    while i < s.len()
        invariant
            i <= s.len(),
            pat.len() > 0,
            replaced_from(s@, i as int, pat@, rep@, r@) == replaced(s@, pat@, rep@),
        decreases s.len() - i,
    {
        if occurs_at(s, i, pat) {
            append_chars(&mut r, rep);
            i += pat.len();
        } else {
            r.push(s[i]);
            i += 1;
        }
    }
    r
}

/// `s` from position `i` on without its whitespace, appended to `acc`.
pub open spec fn without_whitespace_from(s: Seq<char>, i: int, acc: Seq<char>) -> Seq<char>
    decreases s.len() - i,
{
    if 0 <= i < s.len() {
        if is_whitespace(s[i]) {
            without_whitespace_from(s, i + 1, acc)
        } else {
            without_whitespace_from(s, i + 1, acc.push(s[i]))
        }
    } else {
        acc
    }
}

/// `s` without its whitespace.
pub open spec fn without_whitespace(s: Seq<char>) -> Seq<char> {
    without_whitespace_from(s, 0, Seq::empty())
}

/// Removes all whitespace from `s`.
pub fn remove_whitespace(s: &[char]) -> (r: Vec<char>)
    ensures
        r@ == without_whitespace(s@),
{
    let mut r: Vec<char> = Vec::new();
    let mut i: usize = 0;
    while i < s.len()
        invariant
            i <= s.len(),
            without_whitespace_from(s@, i as int, r@) == without_whitespace(s@),
        decreases s.len() - i,
    {
        if !char_is_whitespace(s[i]) {
            r.push(s[i]);
        }
        i += 1;
    }
    r
}

/// Searching a character moves forward and stays inside the text.
pub proof fn lemma_find_char_bounds(s: Seq<char>, i: int, c: char)
    requires
        0 <= i <= s.len(),
    ensures
        i <= find_char(s, i, c) <= s.len(),
    decreases s.len() - i,
{
    if i < s.len() && s[i] != c {
        lemma_find_char_bounds(s, i + 1, c);
    }
}

/// Skipping an identifier moves forward and stays inside the text.
pub proof fn lemma_skip_identifier_bounds(s: Seq<char>, i: int)
    requires
        0 <= i <= s.len(),
    ensures
        i <= skip_identifier(s, i) <= s.len(),
    decreases s.len() - i,
{
    if i < s.len() && is_identifier_char(s[i]) {
        lemma_skip_identifier_bounds(s, i + 1);
    }
}

} // verus!
