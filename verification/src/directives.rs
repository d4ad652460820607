//! The text of single directives: `#define` lines and the conditions of
//! `#if` and `#elif`.

use vstd::prelude::*;
use vstd::slice::slice_subrange;

use crate::expression::{evaluate_tokens, tokenize, tokens_of, tokens_true};
use crate::macros::{
    expand_macros, expanded, MacroDefinition, MacroModel, Macros, MacroTable, MAX_EXPANSIONS,
};
use crate::text::{
    char_is_identifier_start, copy_chars, find_char, find_char_from, is_identifier_start,
    lemma_skip_identifier_bounds, lemma_skip_whitespace_bounds, matches_at, remove_whitespace,
    skip_identifier, skip_identifier_from, skip_whitespace, skip_whitespace_from, str_occurs_at,
    string_of, trim, trimmed, without_whitespace,
};
use crate::word_regex::views;

verus! {

/// The pieces of `s` between commas, each without surrounding whitespace.
/// The scan stands at position `i`, the current piece began at `start`, and
/// `acc` holds the pieces before it.
pub open spec fn split_params_from(
    s: Seq<char>,
    i: int,
    start: int,
    acc: Seq<Seq<char>>,
) -> Seq<Seq<char>>
    decreases s.len() - i,
{
    if 0 <= i < s.len() {
        if s[i] == ',' {
            split_params_from(s, i + 1, i + 1, acc.push(trimmed(s.subrange(start, i))))
        } else {
            split_params_from(s, i + 1, start, acc)
        }
    } else {
        acc.push(trimmed(s.subrange(start, s.len() as int)))
    }
}

/// The parameter names that the text between the parentheses of a
/// `#define` gives: none for an empty text, else one for each piece between
/// commas.
pub open spec fn params_of(s: Seq<char>) -> Seq<Seq<char>> {
    if s.len() == 0 {
        Seq::empty()
    } else {
        split_params_from(s, 0, 0, Seq::empty())
    }
}

/// A parsed `#define`.
pub struct DefineModel {
    pub name: Seq<char>,
    pub definition: MacroModel,
}

/// What the rest of a `#define` line defines; `from` is the position after
/// the word `define`.
///
/// After whitespace comes the name, an identifier. If `(` follows it
/// directly and a `)` comes later, the macro is function-like: its
/// parameters stand between the two and its body after the `)`. Otherwise
/// it is object-like and its body is all that follows the name. A body has
/// no whitespace around it. Without a name nothing is defined.
pub open spec fn parsed_define(line: Seq<char>, from: int) -> Option<DefineModel> {
    let name_start = skip_whitespace(line, from);
    let name_end = skip_identifier(line, name_start + 1);
    let close = find_char(line, name_end + 1, ')');
    if from < name_start < line.len() && is_identifier_start(line[name_start]) {
        if name_end < line.len() && line[name_end] == '(' && close < line.len() {
            Some(
                DefineModel {
                    name: line.subrange(name_start, name_end),
                    definition: MacroModel {
                        params: Some(params_of(line.subrange(name_end + 1, close))),
                        body: trimmed(line.subrange(close + 1, line.len() as int)),
                    },
                },
            )
        } else {
            Some(
                DefineModel {
                    name: line.subrange(name_start, name_end),
                    definition: MacroModel {
                        params: None,
                        body: trimmed(line.subrange(name_end, line.len() as int)),
                    },
                },
            )
        }
    } else {
        None
    }
}

/// Splits the text between the parentheses of a `#define` into parameter
/// names.
pub fn split_params(s: &[char]) -> (r: Vec<String>)
    ensures
        views(r@) == params_of(s@),
{
    let mut r: Vec<String> = Vec::new();
    assert(views(r@) =~= Seq::<Seq<char>>::empty());
    if s.len() == 0 {
        return r;
    }
    let mut start: usize = 0;
    let mut i: usize = 0;
    while i < s.len()
        invariant
            start <= i <= s.len(),
            split_params_from(s@, i as int, start as int, views(r@)) == params_of(s@),
            s.len() > 0,
        decreases s.len() - i,
    {
        if s[i] == ',' {
            let ghost before = views(r@);
            r.push(string_of(trim(slice_subrange(s, start, i))));
            assert(views(r@) =~= before.push(trimmed(s@.subrange(start as int, i as int))));
            start = i + 1;
        }
        i += 1;
    }
    let ghost before = views(r@);
    r.push(string_of(trim(slice_subrange(s, start, s.len()))));
    assert(views(r@) =~= before.push(trimmed(s@.subrange(start as int, s.len() as int))));
    r
}

/// Parses the rest of a `#define` line; `from` is the position after the
/// word `define`.
pub fn parse_define(line: &[char], from: usize) -> (r: Option<(Vec<char>, MacroDefinition)>)
    requires
        from <= line.len(),
    ensures
        match parsed_define(line@, from as int) {
            Some(d) => r matches Some(p) && p.0@ == d.name && p.1.model() == d.definition,
            None => r is None,
        },
{
    let n = line.len();
    let name_start = skip_whitespace_from(line, from);
    if name_start <= from || name_start >= n || !char_is_identifier_start(line[name_start]) {
        return None;
    }
    let name_end = skip_identifier_from(line, name_start + 1);
    let name = copy_chars(slice_subrange(line, name_start, name_end));
    if name_end < n && line[name_end] == '(' {
        let close = find_char_from(line, name_end + 1, ')');
        if close < n {
            let params = split_params(slice_subrange(line, name_end + 1, close));
            let body = copy_chars(trim(slice_subrange(line, close + 1, n)));
            return Some((name, MacroDefinition { params: Some(params), body }));
        }
    }
    let body = copy_chars(trim(slice_subrange(line, name_end, n)));
    Some((name, MacroDefinition { params: None, body }))
}

/// One use of the `defined` operator.
pub struct DefinedUse {
    /// The name that is asked for.
    pub name: Seq<char>,
    /// Position after the use.
    pub end: int,
}

/// The use of `defined` that begins at position `i`: the word `defined`,
/// then either a name in parentheses, with whitespace allowed everywhere
/// between, or whitespace and a name.
pub open spec fn defined_at(s: Seq<char>, i: int) -> Option<DefinedUse> {
    let word_end = i + "defined"@.len();
    let k = skip_whitespace(s, word_end);
    let a = skip_whitespace(s, k + 1);
    let b = skip_identifier(s, a + 1);
    let c = skip_whitespace(s, b);
    let e = skip_identifier(s, k + 1);
    if !matches_at(s, i, "defined"@) {
        None
    } else if k < s.len() && s[k] == '(' && a < s.len() && is_identifier_start(s[a]) && c < s.len()
        && s[c] == ')' {
        Some(DefinedUse { name: s.subrange(a, b), end: c + 1 })
    } else if word_end < k < s.len() && is_identifier_start(s[k]) {
        Some(DefinedUse { name: s.subrange(k, e), end: e })
    } else {
        None
    }
}

/// A use of `defined` is at least as long as that word and ends inside the
/// text.
pub proof fn lemma_defined_bounds(s: Seq<char>, i: int)
    requires
        0 <= i < s.len(),
    ensures
        defined_at(s, i) matches Some(u) ==> i < u.end <= s.len(),
{
    reveal_strlit("defined");
    let word_end = i + 7;
    if word_end <= s.len() {
        lemma_skip_whitespace_bounds(s, word_end);
        let k = skip_whitespace(s, word_end);
        if k < s.len() {
            lemma_skip_whitespace_bounds(s, k + 1);
            lemma_skip_identifier_bounds(s, k + 1);
            let a = skip_whitespace(s, k + 1);
            if a < s.len() {
                lemma_skip_identifier_bounds(s, a + 1);
                lemma_skip_whitespace_bounds(s, skip_identifier(s, a + 1));
            }
        }
    }
}

/// `s` from position `i` on, appended to `acc`, with each use of `defined`
/// replaced by `1` if `macros` holds the name and by `0` if not.
pub open spec fn defined_rewritten_from(
    s: Seq<char>,
    i: int,
    macros: Macros,
    acc: Seq<char>,
) -> Seq<char>
    decreases s.len() - i,
{
    if 0 <= i < s.len() {
        match defined_at(s, i) {
            Some(u) => {
                proof {
                    lemma_defined_bounds(s, i);
                }
                defined_rewritten_from(
                    s,
                    u.end,
                    macros,
                    acc.push(
                        if macros.contains_key(u.name) {
                            '1'
                        } else {
                            '0'
                        },
                    ),
                )
            },
            None => defined_rewritten_from(s, i + 1, macros, acc.push(s[i])),
        }
    } else {
        acc
    }
}

/// `s` with each use of `defined` replaced by `1` or `0`.
pub open spec fn defined_rewritten(s: Seq<char>, macros: Macros) -> Seq<char> {
    defined_rewritten_from(s, 0, macros, Seq::empty())
}

/// Whether the condition of an `#if` or `#elif` holds: uses of `defined`
/// are replaced, macros expanded, whitespace removed, and what is left is
/// read as one integer expression. A text that is no such expression does
/// not hold.
pub open spec fn condition_holds(condition: Seq<char>, macros: Macros) -> bool {
    match tokens_of(
        without_whitespace(
            expanded(defined_rewritten(condition, macros), macros, MAX_EXPANSIONS as nat),
        ),
    ) {
        Some(tokens) => tokens_true(tokens),
        None => false,
    }
}

/// The use of `defined` at position `i`: the positions of the name and of
/// the end of the use.
pub fn find_defined(s: &[char], i: usize) -> (r: Option<(usize, usize, usize)>)
    requires
        i < s.len(),
    ensures
        match defined_at(s@, i as int) {
            Some(u) => r matches Some(p) && p.0 <= p.1 <= p.2 <= s.len() && i < p.2 && u.name
                == s@.subrange(p.0 as int, p.1 as int) && u.end == p.2,
            None => r is None,
        },
{
    let n = s.len();
    if !str_occurs_at(s, i, "defined") {
        return None;
    }
    proof {
        reveal_strlit("defined");
    }
    let word_end = i + 7;
    let k = skip_whitespace_from(s, word_end);
    if k < n && s[k] == '(' {
        let a = skip_whitespace_from(s, k + 1);
        if a < n && char_is_identifier_start(s[a]) {
            let b = skip_identifier_from(s, a + 1);
            let c = skip_whitespace_from(s, b);
            if c < n && s[c] == ')' {
                return Some((a, b, c + 1));
            }
        }
    }
    if word_end < k && k < n && char_is_identifier_start(s[k]) {
        let e = skip_identifier_from(s, k + 1);
        return Some((k, e, e));
    }
    None
}

/// Replaces each use of `defined` in `s` by `1` or `0`.
pub fn rewrite_defined(s: &[char], table: &MacroTable) -> (r: Vec<char>)
    ensures
        r@ == defined_rewritten(s@, table@),
{
    let mut r: Vec<char> = Vec::new();
    let mut i: usize = 0;
    while i < s.len()
        invariant
            i <= s.len(),
            defined_rewritten_from(s@, i as int, table@, r@) == defined_rewritten(s@, table@),
        decreases s.len() - i,
    {
        match find_defined(s, i) {
            Some((name_start, name_end, end)) => {
                if table.contains(slice_subrange(s, name_start, name_end)) {
                    r.push('1');
                } else {
                    r.push('0');
                }
                i = end;
            },
            None => {
                r.push(s[i]);
                i += 1;
            },
        }
    }
    r
}

/// Evaluates the condition of an `#if` or `#elif`.
pub fn evaluate_condition(condition: &[char], table: &MacroTable) -> (r: bool)
    ensures
        r == condition_holds(condition@, table@),
{
    let rewritten = rewrite_defined(condition, table);
    let expanded_text = expand_macros(rewritten.as_slice(), table);
    let compact = remove_whitespace(expanded_text.as_slice());
    match tokenize(compact.as_slice()) {
        Some(tokens) => evaluate_tokens(tokens.as_slice()),
        None => false,
    }
}

} // verus!
