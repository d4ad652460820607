//! Variable declarations: where they end and how they are rewritten.

use vstd::prelude::*;
use vstd::slice::slice_subrange;

use crate::defaults::{
    default_value, join_texts, joined, make_default_value, MAX_STRUCT_DEPTH, Structs, StructTable,
    texts,
};
use crate::glsl_depth_tracker::{depth_closed, DepthModel, GlslDepthTracker};
use crate::struct_parser::{bracket_end, find_bracket_end};
use crate::text::{
    append_chars, append_str, char_is_identifier_start, copy_chars, find_char, find_char_from,
    is_identifier_start, same_chars, skip_ascii_whitespace, skip_ascii_whitespace_from,
    skip_identifier, skip_identifier_from, trim, trimmed,
};

verus! {

/// The byte that the tracker sees for `c`: the character itself if it is
/// ASCII, and zero, which is no bracket, if it is not.
pub open spec fn char_byte(c: char) -> u8 {
    if (c as u32) < 128 {
        (c as u32) as u8
    } else {
        0
    }
}

/// The tracker after it has seen `c`, first as a bracket and then for the
/// for-loop tracking.
pub open spec fn depth_after(m: DepthModel, c: char) -> DepthModel {
    m.brackets_updated(char_byte(c)).for_loop_updated(char_byte(c))
}

/// The byte that the tracker sees for `c`.
pub fn byte_of(c: char) -> (b: u8)
    ensures
        b == char_byte(c),
{
    let n: u32 = c as u32;
    if n < 128 {
        n as u8
    } else {
        0
    }
}

/// Shows `c` to the tracker.
pub fn track(tracker: &mut GlslDepthTracker, c: char)
    ensures
        final(tracker)@ == depth_after(old(tracker)@, c),
{
    let b = byte_of(c);
    tracker.update_brackets(b);
    tracker.update_for_loop(b);
}

/// Whether `c` opens a bracket of any kind.
pub open spec fn is_opening(c: char) -> bool {
    c == '(' || c == '[' || c == '{'
}

/// Whether `c` closes a bracket of any kind.
pub open spec fn is_closing(c: char) -> bool {
    c == ')' || c == ']' || c == '}'
}

/// The pieces of `s` between the commas that stand outside all brackets,
/// appended to `acc`. The scan stands at position `i` at nesting `depth`,
/// which never falls below zero, and the current piece began at `start`.
pub open spec fn split_from(
    s: Seq<char>,
    i: int,
    start: int,
    depth: nat,
    acc: Seq<Seq<char>>,
) -> Seq<Seq<char>>
    decreases s.len() - i,
{
    if 0 <= i < s.len() {
        if is_opening(s[i]) {
            split_from(s, i + 1, start, depth + 1, acc)
        } else if is_closing(s[i]) {
            split_from(s, i + 1, start, depth_closed(depth), acc)
        } else if s[i] == ',' && depth == 0 {
            split_from(s, i + 1, i + 1, depth, acc.push(s.subrange(start, i)))
        } else {
            split_from(s, i + 1, start, depth, acc)
        }
    } else {
        acc.push(s.subrange(start, s.len() as int))
    }
}

/// The declarators of a declaration: its pieces between top-level commas.
pub open spec fn split_by_commas(s: Seq<char>) -> Seq<Seq<char>> {
    split_from(s, 0, 0, 0, Seq::empty())
}

/// Whether `s` holds `c`.
pub open spec fn has_char(s: Seq<char>, c: char) -> bool {
    find_char(s, 0, c) < s.len()
}

/// Position after the last `c` before position `j`, or zero if there is
/// none.
pub open spec fn after_last(s: Seq<char>, j: int, c: char) -> int
    decreases j,
{
    if 0 < j <= s.len() {
        if s[j - 1] == c {
            j
        } else {
            after_last(s, j - 1, c)
        }
    } else {
        0
    }
}

/// The array specifier of a declarator: if the declarator begins with `[`,
/// all up to its last `]`; else all from its first `[` on, if it has one.
pub open spec fn declarator_array_spec(t: Seq<char>) -> Option<Seq<char>> {
    if t.len() > 0 && t[0] == '[' {
        Some(t.subrange(0, after_last(t, t.len() as int, ']')))
    } else if has_char(t, '[') {
        Some(t.subrange(find_char(t, 0, '['), t.len() as int))
    } else {
        None
    }
}

/// The part of a type before its first `[`, without surrounding
/// whitespace.
pub open spec fn type_base(glsl_type: Seq<char>) -> Seq<char> {
    trimmed(glsl_type.subrange(0, find_char(glsl_type, 0, '[')))
}

/// The part of a type from its first `[` on, if it has one.
pub open spec fn type_array_spec(glsl_type: Seq<char>) -> Option<Seq<char>> {
    if has_char(glsl_type, '[') {
        Some(glsl_type.subrange(find_char(glsl_type, 0, '['), glsl_type.len() as int))
    } else {
        None
    }
}

/// The array specifier of the type followed by that of the declarator.
pub open spec fn merged_spec(a: Option<Seq<char>>, b: Option<Seq<char>>) -> Option<Seq<char>> {
    match (a, b) {
        (Some(x), Some(y)) => Some(x + y),
        (Some(x), None) => Some(x),
        (None, Some(y)) => Some(y),
        (None, None) => None,
    }
}

/// One declarator, rewritten: without surrounding whitespace, and followed
/// by ` = ` and the default value of its type if it holds neither `=` nor
/// `(` and its type has a default value.
pub open spec fn declarator_rewritten(
    part: Seq<char>,
    glsl_type: Seq<char>,
    structs: Structs,
) -> Seq<char> {
    let t = trimmed(part);
    if t.len() == 0 || has_char(t, '=') || has_char(t, '(') {
        t
    } else {
        match default_value(
            type_base(glsl_type),
            merged_spec(type_array_spec(glsl_type), declarator_array_spec(t)),
            structs,
            MAX_STRUCT_DEPTH as nat,
        ) {
            Some(value) => t + " = "@ + value,
            None => t,
        }
    }
}

/// The declarators, each rewritten.
pub open spec fn declarators_rewritten(
    parts: Seq<Seq<char>>,
    glsl_type: Seq<char>,
    structs: Structs,
) -> Seq<Seq<char>>
    decreases parts.len(),
{
    if parts.len() == 0 {
        Seq::empty()
    } else {
        declarators_rewritten(parts.drop_last(), glsl_type, structs).push(
            declarator_rewritten(parts.last(), glsl_type, structs),
        )
    }
}

/// The text between a type and the `;` of its declaration, rewritten: the
/// declarators with their initializers, joined by `, `.
pub open spec fn declaration_rewritten(
    decl: Seq<char>,
    glsl_type: Seq<char>,
    structs: Structs,
) -> Seq<char> {
    joined(declarators_rewritten(split_by_commas(decl), glsl_type, structs), ", "@)
}

/// Whether a function declaration or definition begins at position `i`: an
/// identifier, a parenthesized list, and then `;` or `{`, with ASCII
/// whitespace allowed between.
pub open spec fn is_function_definition(s: Seq<char>, i: int) -> bool {
    let name_end = skip_identifier(s, i);
    let open = skip_ascii_whitespace(s, name_end);
    let after = skip_ascii_whitespace(s, bracket_end(s, open + 1, 1, '(', ')').end);
    &&& 0 <= i < s.len()
    &&& is_identifier_start(s[i])
    &&& open < s.len()
    &&& s[open] == '('
    &&& after < s.len()
    &&& (s[after] == ';' || s[after] == '{')
}

/// Position of the `;` that ends the declaration scanned from position `i`
/// on: the first `;` at which the bracket depths are those of `start`.
/// A `"` before it, and the end of the text, end the search without result.
pub open spec fn declaration_end_from(
    s: Seq<char>,
    i: int,
    local: DepthModel,
    start: DepthModel,
) -> Option<int>
    decreases s.len() - i,
{
    if 0 <= i < s.len() {
        if s[i] == '"' {
            None
        } else if s[i] == ';' && depth_after(local, s[i]).same_depth(start) {
            Some(i)
        } else {
            declaration_end_from(s, i + 1, depth_after(local, s[i]), start)
        }
    } else {
        None
    }
}

/// A replacement of a part of the source.
pub struct ModificationModel {
    pub start: int,
    pub end: int,
    pub replacement: Seq<char>,
}

/// What the scanner does with a declaration.
pub struct DeclarationModel {
    pub modification: ModificationModel,
    /// Where the scan goes on: after the `;`.
    pub next: int,
}

/// The rewriting of the declaration whose type `glsl_type` ends at position
/// `pos`, if there is one to make.
///
/// Nothing is rewritten inside parentheses or square brackets, except in
/// the initialization of a `for` header; nor a function declaration at
/// global scope; nor a declaration without its `;`; nor one that the
/// rewriting leaves empty or unchanged.
pub open spec fn type_declaration(
    s: Seq<char>,
    glsl_type: Seq<char>,
    pos: int,
    depth: DepthModel,
    structs: Structs,
) -> Option<DeclarationModel> {
    let begin = skip_ascii_whitespace(s, pos);
    if glsl_type == "void"@ {
        None
    } else if (depth.paren > 0 || depth.bracket > 0) && depth.for_part != 1 {
        None
    } else if depth.at_global_scope() && is_function_definition(s, begin) {
        None
    } else {
        match declaration_end_from(s, begin, depth, depth) {
            Some(semicolon) => {
                let decl = s.subrange(begin, semicolon);
                let rewritten = declaration_rewritten(decl, glsl_type, structs);
                if rewritten.len() > 0 && rewritten != decl {
                    Some(
                        DeclarationModel {
                            modification: ModificationModel {
                                start: begin,
                                end: semicolon,
                                replacement: rewritten,
                            },
                            next: semicolon + 1,
                        },
                    )
                } else {
                    None
                }
            },
            None => None,
        }
    }
}

/// A replacement of a part of the source, by character positions.
pub struct Modification {
    pub start: usize,
    pub end: usize,
    pub replacement: Vec<char>,
}

impl View for Modification {
    type V = ModificationModel;

    open spec fn view(&self) -> ModificationModel {
        ModificationModel {
            start: self.start as int,
            end: self.end as int,
            replacement: self.replacement@,
        }
    }
}

/// Splits a declaration at the commas outside all brackets.
pub fn split_declarators(s: &[char]) -> (parts: Vec<Vec<char>>)
    ensures
        texts(parts@) == split_by_commas(s@),
{
    let mut parts: Vec<Vec<char>> = Vec::new();
    assert(texts(parts@) =~= Seq::empty());
    let mut depth: usize = 0;
    let mut start: usize = 0;
    let mut i: usize = 0;
    while i < s.len()
        invariant
            start <= i <= s.len(),
            depth <= i,
            split_from(s@, i as int, start as int, depth as nat, texts(parts@)) == split_by_commas(
                s@,
            ),
        decreases s.len() - i,
    {
        let c = s[i];
        if c == '(' || c == '[' || c == '{' {
            depth += 1;
        } else if c == ')' || c == ']' || c == '}' {
            if depth > 0 {
                depth -= 1;
            }
        } else if c == ',' && depth == 0 {
            let ghost before = texts(parts@);
            parts.push(copy_chars(slice_subrange(s, start, i)));
            assert(texts(parts@) =~= before.push(s@.subrange(start as int, i as int)));
            start = i + 1;
        }
        i += 1;
    }
    let ghost before = texts(parts@);
    parts.push(copy_chars(slice_subrange(s, start, s.len())));
    assert(texts(parts@) =~= before.push(s@.subrange(start as int, s.len() as int)));
    parts
}

/// Whether `s` holds `c`.
pub fn contains_char(s: &[char], c: char) -> (r: bool)
    ensures
        r == has_char(s@, c),
{
    find_char_from(s, 0, c) < s.len()
}

/// Position after the last `c` of `s`, or zero.
pub fn find_after_last(s: &[char], c: char) -> (r: usize)
    ensures
        r == after_last(s@, s.len() as int, c),
        r <= s.len(),
{
    let mut j: usize = s.len();
    while j > 0 && s[j - 1] != c
        invariant
            j <= s.len(),
            after_last(s@, j as int, c) == after_last(s@, s.len() as int, c),
        decreases j,
    {
        j -= 1;
    }
    j
}

/// Rewrites one declarator.
pub fn rewrite_declarator(part: &[char], glsl_type: &[char], table: &StructTable) -> (r: Vec<char>)
    ensures
        r@ == declarator_rewritten(part@, glsl_type@, table@),
{
    let t = trim(part);
    if t.len() == 0 || contains_char(t, '=') || contains_char(t, '(') {
        return copy_chars(t);
    }
    let type_cut = find_char_from(glsl_type, 0, '[');
    let base = trim(slice_subrange(glsl_type, 0, type_cut));
    let mut merged: Vec<char> = Vec::new();
    let mut has_spec = false;
    if type_cut < glsl_type.len() {
        append_chars(&mut merged, slice_subrange(glsl_type, type_cut, glsl_type.len()));
        has_spec = true;
    }
    if t[0] == '[' {
        append_chars(&mut merged, slice_subrange(t, 0, find_after_last(t, ']')));
        has_spec = true;
    } else {
        let cut = find_char_from(t, 0, '[');
        if cut < t.len() {
            append_chars(&mut merged, slice_subrange(t, cut, t.len()));
            has_spec = true;
        }
    }
    let ghost wanted = merged_spec(type_array_spec(glsl_type@), declarator_array_spec(t@));
    assert(match wanted {
        Some(w) => has_spec && merged@ =~= w,
        None => !has_spec,
    });
    let value = if has_spec {
        make_default_value(base, Some(merged.as_slice()), table, MAX_STRUCT_DEPTH)
    } else {
        make_default_value(base, None, table, MAX_STRUCT_DEPTH)
    };
    let mut r = copy_chars(t);
    match value {
        Some(v) => {
            append_str(&mut r, " = ");
            append_chars(&mut r, v.as_slice());
        },
        None => {},
    }
    r
}

/// Rewrites the text between a type and the `;` of its declaration.
pub fn process_variable_declarations(decl: &[char], glsl_type: &[char], table: &StructTable) -> (r:
    Vec<char>)
    ensures
        r@ == declaration_rewritten(decl@, glsl_type@, table@),
{
    let parts = split_declarators(decl);
    let mut rewritten: Vec<Vec<char>> = Vec::new();
    let mut i: usize = 0;
    assert(texts(parts@).take(0) =~= Seq::empty());
    assert(texts(rewritten@) =~= Seq::empty());
    while i < parts.len()
        invariant
            i <= parts.len(),
            texts(rewritten@) == declarators_rewritten(
                texts(parts@).take(i as int),
                glsl_type@,
                table@,
            ),
        decreases parts.len() - i,
    {
        let ghost before = texts(rewritten@);
        let piece = rewrite_declarator(parts[i].as_slice(), glsl_type, table);
        rewritten.push(piece);
        proof {
            let prefix = texts(parts@).take(i + 1);
            assert(prefix.drop_last() =~= texts(parts@).take(i as int));
            assert(prefix.last() == parts@[i as int]@);
            assert(texts(rewritten@) =~= before.push(piece@));
        }
        i += 1;
    }
    assert(texts(parts@).take(parts.len() as int) =~= texts(parts@));
    join_texts(&rewritten, ", ")
}

/// Whether a function declaration or definition begins at position `i`.
pub fn begins_function(s: &[char], i: usize) -> (r: bool)
    requires
        i <= s.len(),
    ensures
        r == is_function_definition(s@, i as int),
{
    let n = s.len();
    if i >= n || !char_is_identifier_start(s[i]) {
        return false;
    }
    let name_end = skip_identifier_from(s, i);
    let open = skip_ascii_whitespace_from(s, name_end);
    if open >= n || s[open] != '(' {
        return false;
    }
    let (close, _closed) = find_bracket_end(s, open + 1, '(', ')');
    let after = skip_ascii_whitespace_from(s, close);
    after < n && (s[after] == ';' || s[after] == '{')
}

/// Finds the `;` that ends the declaration scanned from position `i` on.
pub fn find_declaration_end(s: &[char], i: usize, start_depth: GlslDepthTracker) -> (r: Option<
    usize,
>)
    requires
        i <= s.len(),
    ensures
        match declaration_end_from(s@, i as int, start_depth@, start_depth@) {
            Some(e) => r == Some(e as usize) && i <= e < s.len(),
            None => r is None,
        },
{
    let mut local = start_depth;
    let mut k: usize = i;
    while k < s.len()
        invariant
            i <= k <= s.len(),
            declaration_end_from(s@, k as int, local@, start_depth@) == declaration_end_from(
                s@,
                i as int,
                start_depth@,
                start_depth@,
            ),
        decreases s.len() - k,
    {
        let c = s[k];
        if c == '"' {
            return None;
        }
        track(&mut local, c);
        if c == ';' && local == start_depth {
            return Some(k);
        }
        k += 1;
    }
    None
}

/// Rewrites the declaration whose type ends at position `pos`, if there is
/// something to rewrite; returns the replacement and where the scan goes on.
pub fn process_type_declaration(
    s: &[char],
    glsl_type: &[char],
    pos: usize,
    depth: &GlslDepthTracker,
    table: &StructTable,
) -> (r: Option<(Modification, usize)>)
    requires
        pos <= s.len(),
    ensures
        match type_declaration(s@, glsl_type@, pos as int, depth@, table@) {
            Some(d) => r matches Some(p) && p.0@ == d.modification && p.1 == d.next && pos
                <= p.0.start <= p.0.end < p.1 <= s.len(),
            None => r is None,
        },
{
    if crate::text::equals_str(glsl_type, "void") {
        return None;
    }
    if (depth.in_parentheses() || depth.in_square_brackets())
        && !depth.in_for_loop_initialization() {
        return None;
    }
    let begin = skip_ascii_whitespace_from(s, pos);
    if depth.at_global_scope() && begins_function(s, begin) {
        return None;
    }
    match find_declaration_end(s, begin, *depth) {
        None => None,
        Some(semicolon) => {
            let decl = slice_subrange(s, begin, semicolon);
            let rewritten = process_variable_declarations(decl, glsl_type, table);
            if rewritten.len() > 0 && !same_chars(rewritten.as_slice(), decl) {
                Some(
                    (
                        Modification { start: begin, end: semicolon, replacement: rewritten },
                        semicolon + 1,
                    ),
                )
            } else {
                None
            }
        },
    }
}

} // verus!
