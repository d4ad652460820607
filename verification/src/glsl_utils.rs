//! Comment stripping and replacement inside conditional directives.

use std::borrow::Cow;
use vstd::prelude::*;
use vstd::slice::slice_subrange;

use crate::text::{
    append_chars, chars_of, find_char, find_char_from, lemma_find_char_bounds,
    lemma_skip_whitespace_bounds, matches_at, skip_whitespace, skip_whitespace_from, str_occurs_at,
    string_of,
};
use crate::word_regex::{replace_word, word_replaced};

verus! {

/// Where the comment scanner is.
#[derive(Clone, Copy, Debug, PartialEq, Eq, Structural)]
pub enum ScanState {
    Outside,
    InString,
    InLineComment,
    InBlockComment,
}

/// Whether `//` or `/*` stands at position `i` of `s`.
pub open spec fn is_comment_start(s: Seq<char>, i: int) -> bool {
    0 <= i && i + 1 < s.len() && s[i] == '/' && (s[i + 1] == '/' || s[i + 1] == '*')
}

/// Whether `s` holds `//` or `/*` anywhere.
pub open spec fn has_comment_start(s: Seq<char>) -> bool {
    exists|i: int| is_comment_start(s, i)
}

/// One step of the comment scanner.
pub struct ScanStep {
    /// Position after the step.
    pub next: int,
    /// State after the step.
    pub state: ScanState,
    /// What the step writes to the output.
    pub emitted: Seq<char>,
}

/// The step the scanner takes at position `i` of `s` in `state`.
///
/// Outside a string, `"` opens a string, `//` and `/*` open a comment and
/// write one space, and anything else is copied. Inside a string a backslash
/// is copied together with the character after it, `"` closes the string,
/// and anything else is copied. A line comment ends at a line feed, which is
/// copied; a block comment ends after `*/`; nothing else of a comment is
/// copied.
pub open spec fn scan_step(s: Seq<char>, i: int, state: ScanState) -> ScanStep
    recommends
        0 <= i < s.len(),
{
    let c = s[i];
    match state {
        ScanState::Outside => {
            if c == '"' {
                ScanStep { next: i + 1, state: ScanState::InString, emitted: seq![c] }
            } else if is_comment_start(s, i) {
                ScanStep {
                    next: i + 2,
                    state: if s[i + 1] == '/' {
                        ScanState::InLineComment
                    } else {
                        ScanState::InBlockComment
                    },
                    emitted: seq![' '],
                }
            } else {
                ScanStep { next: i + 1, state: ScanState::Outside, emitted: seq![c] }
            }
        },
        ScanState::InString => {
            if c == '\\' {
                if i + 1 < s.len() {
                    ScanStep { next: i + 2, state: ScanState::InString, emitted: seq![c, s[i + 1]] }
                } else {
                    ScanStep { next: i + 1, state: ScanState::InString, emitted: seq![c] }
                }
            } else if c == '"' {
                ScanStep { next: i + 1, state: ScanState::Outside, emitted: seq![c] }
            } else {
                ScanStep { next: i + 1, state: ScanState::InString, emitted: seq![c] }
            }
        },
        ScanState::InLineComment => {
            if c == '\n' {
                ScanStep { next: i + 1, state: ScanState::Outside, emitted: seq![c] }
            } else {
                ScanStep { next: i + 1, state: ScanState::InLineComment, emitted: Seq::empty() }
            }
        },
        ScanState::InBlockComment => {
            if c == '*' && i + 1 < s.len() && s[i + 1] == '/' {
                ScanStep { next: i + 2, state: ScanState::Outside, emitted: Seq::empty() }
            } else {
                ScanStep { next: i + 1, state: ScanState::InBlockComment, emitted: Seq::empty() }
            }
        },
    }
}

/// Output of the scanner that stands at position `i` of `s` in `state` and
/// has written `out` so far.
pub open spec fn strip_from(s: Seq<char>, i: int, state: ScanState, out: Seq<char>) -> Seq<char>
    decreases s.len() - i,
{
    if 0 <= i < s.len() {
        let step = scan_step(s, i, state);
        strip_from(s, step.next, step.state, out + step.emitted)
    } else {
        out
    }
}

/// `s` with every comment replaced by one space; the line feed that ends a
/// line comment stays.
pub open spec fn stripped(s: Seq<char>) -> Seq<char> {
    strip_from(s, 0, ScanState::Outside, Seq::empty())
}

/// A scanner that is not inside a comment copies a text without comment
/// starts unchanged.
pub proof fn lemma_strip_without_comments(s: Seq<char>, i: int, state: ScanState, out: Seq<char>)
    requires
        !has_comment_start(s),
        0 <= i <= s.len(),
        state == ScanState::Outside || state == ScanState::InString,
    ensures
        strip_from(s, i, state, out) == out + s.subrange(i, s.len() as int),
    decreases s.len() - i,
{
    if i < s.len() {
        let step = scan_step(s, i, state);
        assert(!is_comment_start(s, i));
        lemma_strip_without_comments(s, step.next, step.state, out + step.emitted);
        assert(out + step.emitted + s.subrange(step.next, s.len() as int) =~= out + s.subrange(
            i,
            s.len() as int,
        ));
    } else {
        assert(out + s.subrange(i, s.len() as int) =~= out);
    }
}

/// Whether no string literal that the scanner meets from position `i` on
/// holds `//` or `/*`.
pub open spec fn strings_clean_from(s: Seq<char>, i: int, state: ScanState) -> bool
    decreases s.len() - i,
{
    if 0 <= i < s.len() {
        let step = scan_step(s, i, state);
        &&& state == ScanState::InString ==> !is_comment_start(s, i) && (step.next == i + 2
            ==> !is_comment_start(s, i + 1))
        &&& strings_clean_from(s, step.next, step.state)
    } else {
        true
    }
}

/// Whether no string literal of `s` holds `//` or `/*`.
pub open spec fn strings_clean(s: Seq<char>) -> bool {
    strings_clean_from(s, 0, ScanState::Outside)
}

/// Whether `c` can follow the output `out` without making a comment start
/// together with its last character.
pub open spec fn joins_safely(out: Seq<char>, c: char) -> bool {
    !(out.len() > 0 && out.last() == '/' && (c == '/' || c == '*'))
}

/// A character that joins safely adds no comment start.
proof fn lemma_push_keeps_clean(out: Seq<char>, c: char)
    requires
        !has_comment_start(out),
        joins_safely(out, c),
    ensures
        !has_comment_start(out.push(c)),
{
    assert forall|k: int| !is_comment_start(out.push(c), k) by {
        if is_comment_start(out.push(c), k) {
            if k + 1 < out.len() {
                assert(is_comment_start(out, k));
            }
        }
    }
}

/// The output of a scan over a text whose strings hold no comment start
/// holds no comment start.
proof fn lemma_strip_output_clean(s: Seq<char>, i: int, state: ScanState, out: Seq<char>)
    requires
        0 <= i <= s.len(),
        strings_clean_from(s, i, state),
        !has_comment_start(out),
        out.len() > 0 && out.last() == '/' ==> (state == ScanState::Outside || state
            == ScanState::InString) && (i >= s.len() || (s[i] != '/' && s[i] != '*')),
    ensures
        !has_comment_start(strip_from(s, i, state, out)),
    decreases s.len() - i,
{
    if i < s.len() {
        let step = scan_step(s, i, state);
        let c = s[i];
        let next_out = out + step.emitted;
        if step.emitted.len() == 0 {
            assert(next_out =~= out);
        } else if step.emitted.len() == 1 {
            assert(next_out =~= out.push(step.emitted[0]));
            lemma_push_keeps_clean(out, step.emitted[0]);
        } else {
            assert(next_out =~= out.push(c).push(s[i + 1]));
            lemma_push_keeps_clean(out, c);
            lemma_push_keeps_clean(out.push(c), s[i + 1]);
        }
        lemma_strip_output_clean(s, step.next, step.state, next_out);
    }
}

/// Stripping comments twice gives what stripping once gives, for every
/// text whose string literals hold neither `//` nor `/*`.
pub proof fn lemma_strip_idempotent(s: Seq<char>)
    requires
        strings_clean(s),
    ensures
        stripped(stripped(s)) == stripped(s),
{
    lemma_strip_output_clean(s, 0, ScanState::Outside, Seq::empty());
    let t = stripped(s);
    lemma_strip_without_comments(t, 0, ScanState::Outside, Seq::empty());
    assert(Seq::<char>::empty() + t.subrange(0, t.len() as int) =~= t);
}

/// Whether `s` holds `//` or `/*`.
pub fn contains_comment_start(s: &[char]) -> (r: bool)
    ensures
        r == has_comment_start(s@),
{
    let n = s.len();
    if n < 2 {
        return false;
    }
    let mut i: usize = 0;
    while i < n - 1
        invariant
            n == s.len(),
            n >= 2,
            forall|k: int| 0 <= k < i ==> !is_comment_start(s@, k),
        decreases n - i,
    {
        if s[i] == '/' && (s[i + 1] == '/' || s[i + 1] == '*') {
            assert(is_comment_start(s@, i as int));
            return true;
        }
        i += 1;
    }
    false
}

/// Replaces every comment of `s` by one space.
pub fn strip_comment_chars(s: &[char]) -> (out: Vec<char>)
    ensures
        out@ == stripped(s@),
{
    let mut out: Vec<char> = Vec::new();
    let mut state = ScanState::Outside;
    let mut i: usize = 0;
    let n = s.len();
    while i < n
        invariant
            n == s.len(),
            i <= n,
            strip_from(s@, i as int, state, out@) == stripped(s@),
        decreases n - i,
    {
        let c = s[i];
        let ghost step = scan_step(s@, i as int, state);
        let ghost before = out@;
        match state {
            ScanState::Outside => {
                if c == '"' {
                    out.push(c);
                    state = ScanState::InString;
                    i += 1;
                } else if c == '/' && i + 1 < n && (s[i + 1] == '/' || s[i + 1] == '*') {
                    out.push(' ');
                    state = if s[i + 1] == '/' {
                        ScanState::InLineComment
                    } else {
                        ScanState::InBlockComment
                    };
                    i += 2;
                } else {
                    out.push(c);
                    i += 1;
                }
            },
            ScanState::InString => {
                if c == '\\' {
                    out.push(c);
                    if i + 1 < n {
                        out.push(s[i + 1]);
                        i += 2;
                    } else {
                        i += 1;
                    }
                } else if c == '"' {
                    out.push(c);
                    state = ScanState::Outside;
                    i += 1;
                } else {
                    out.push(c);
                    i += 1;
                }
            },
            ScanState::InLineComment => {
                if c == '\n' {
                    out.push(c);
                    state = ScanState::Outside;
                }
                i += 1;
            },
            ScanState::InBlockComment => {
                if c == '*' && i + 1 < n && s[i + 1] == '/' {
                    state = ScanState::Outside;
                    i += 2;
                } else {
                    i += 1;
                }
            },
        }
        assert(out@ =~= before + step.emitted);
        assert(i == step.next && state == step.state);
    }
    out
}

/// Removes `//` and `/* */` comments from `source`, leaving one space for
/// each; string literals are copied as they are.
///
/// A source without `//` and `/*` is handed back borrowed.
pub fn strip_comments<'a>(source: &'a str) -> (r: Cow<'a, str>)
    ensures
        r@ == stripped(source@),
        (r is Borrowed) == !has_comment_start(source@),
{
    let chars = chars_of(source);
    if !contains_comment_start(chars.as_slice()) {
        proof {
            lemma_strip_without_comments(source@, 0, ScanState::Outside, Seq::empty());
            assert(Seq::<char>::empty() + source@.subrange(0, source@.len() as int) =~= source@);
        }
        return Cow::Borrowed(source);
    }
    let out = strip_comment_chars(chars.as_slice());
    Cow::Owned(string_of(out.as_slice()))
}

/// The condition of an `#if` or `#elif`.
pub struct ConditionSpan {
    pub start: int,
    pub end: int,
}

/// The condition of the `#if` or `#elif` that the line at position `p`
/// holds: after optional whitespace come `#if` or `#elif` and at least one
/// whitespace character, and the condition is the rest of the line on which
/// that whitespace ends.
pub open spec fn conditional_at(s: Seq<char>, p: int) -> Option<ConditionSpan> {
    let hash = skip_whitespace(s, p);
    let word_end = if matches_at(s, hash + 1, "if"@) {
        hash + 1 + "if"@.len()
    } else {
        hash + 1 + "elif"@.len()
    };
    let start = skip_whitespace(s, word_end);
    if 0 <= p && hash < s.len() && s[hash] == '#' && (matches_at(s, hash + 1, "if"@) || matches_at(
        s,
        hash + 1,
        "elif"@,
    )) && word_end < start {
        Some(ConditionSpan { start, end: find_char(s, start, '\n') })
    } else {
        None
    }
}

/// A condition begins after the line start and ends inside the text.
pub proof fn lemma_conditional_bounds(s: Seq<char>, p: int)
    requires
        0 <= p <= s.len(),
    ensures
        conditional_at(s, p) matches Some(c) ==> p < c.start <= c.end <= s.len(),
{
    reveal_strlit("if");
    reveal_strlit("elif");
    lemma_skip_whitespace_bounds(s, p);
    let hash = skip_whitespace(s, p);
    if hash < s.len() {
        if hash + 3 <= s.len() {
            lemma_skip_whitespace_bounds(s, hash + 3);
            lemma_find_char_bounds(s, skip_whitespace(s, hash + 3), '\n');
        }
        if hash + 5 <= s.len() {
            lemma_skip_whitespace_bounds(s, hash + 5);
            lemma_find_char_bounds(s, skip_whitespace(s, hash + 5), '\n');
        }
    }
}

/// `s` from the line start `p` on, appended to `acc`, with every whole-word
/// occurrence of `find` in the condition of an `#if` or `#elif` replaced by
/// `replace`.
pub open spec fn conditionals_replaced_from(
    s: Seq<char>,
    p: int,
    find: Seq<char>,
    replace: Seq<char>,
    acc: Seq<char>,
) -> Seq<char>
    decreases s.len() + 1 - p,
{
    if 0 <= p < s.len() {
        proof {
            lemma_conditional_bounds(s, p);
            lemma_find_char_bounds(s, p, '\n');
        }
        match conditional_at(s, p) {
            Some(c) => {
                let done = acc + s.subrange(p, c.start) + word_replaced(
                    s.subrange(c.start, c.end),
                    find,
                    replace,
                );
                if c.end < s.len() {
                    conditionals_replaced_from(s, c.end + 1, find, replace, done.push('\n'))
                } else {
                    done
                }
            },
            None => {
                let end = find_char(s, p, '\n');
                if end < s.len() {
                    conditionals_replaced_from(
                        s,
                        end + 1,
                        find,
                        replace,
                        acc + s.subrange(p, end + 1),
                    )
                } else {
                    acc + s.subrange(p, end)
                }
            },
        }
    } else {
        acc
    }
}

/// `code` with every whole-word occurrence of `find` in the condition of an
/// `#if` or `#elif` replaced by `replace`; the rest of `code` is unchanged.
pub open spec fn conditionals_replaced(
    code: Seq<char>,
    find: Seq<char>,
    replace: Seq<char>,
) -> Seq<char> {
    conditionals_replaced_from(code, 0, find, replace, Seq::empty())
}

/// The condition of the `#if` or `#elif` that the line at position `p`
/// holds.
pub fn find_conditional(s: &[char], p: usize) -> (r: Option<(usize, usize)>)
    requires
        p <= s.len(),
    ensures
        match conditional_at(s@, p as int) {
            Some(c) => r == Some((c.start as usize, c.end as usize)) && p < c.start <= c.end
                <= s.len(),
            None => r is None,
        },
{
    proof {
        lemma_conditional_bounds(s@, p as int);
        reveal_strlit("if");
        reveal_strlit("elif");
    }
    let n = s.len();
    let hash = skip_whitespace_from(s, p);
    if hash >= n || s[hash] != '#' {
        return None;
    }
    let word_end = if str_occurs_at(s, hash + 1, "if") {
        hash + 3
    } else if str_occurs_at(s, hash + 1, "elif") {
        hash + 5
    } else {
        return None;
    };
    let start = skip_whitespace_from(s, word_end);
    if word_end < start {
        Some((start, find_char_from(s, start, '\n')))
    } else {
        None
    }
}

/// Replaces every whole-word occurrence of `find` by `replace` in the
/// conditions of the `#if` and `#elif` lines of `code`, and nowhere else.
pub fn replace_in_preprocessor_conditionals(code: &str, find: &str, replace: &str) -> (r: String)
    ensures
        r@ == conditionals_replaced(code@, find@, replace@),
{
    let chars = chars_of(code);
    let s = chars.as_slice();
    let n = s.len();
    let mut out: Vec<char> = Vec::new();
    let mut p: usize = 0;
    while p < n
        invariant
            n == s.len(),
            s@ == code@,
            p <= n,
            conditionals_replaced_from(s@, p as int, find@, replace@, out@)
                == conditionals_replaced(code@, find@, replace@),
        decreases n - p,
    {
        match find_conditional(s, p) {
            Some((start, end)) => {
                append_chars(&mut out, slice_subrange(s, p, start));
                let condition = string_of(slice_subrange(s, start, end));
                let replaced = replace_word(condition.as_str(), find, replace);
                append_chars(&mut out, chars_of(replaced.as_str()).as_slice());
                if end < n {
                    out.push('\n');
                    p = end + 1;
                } else {
                    p = n;
                }
            },
            None => {
                let end = find_char_from(s, p, '\n');
                if end < n {
                    append_chars(&mut out, slice_subrange(s, p, end + 1));
                    p = end + 1;
                } else {
                    append_chars(&mut out, slice_subrange(s, p, end));
                    p = n;
                }
            },
        }
    }
    string_of(out.as_slice())
}

} // verus!
