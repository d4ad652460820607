//! Default initializers for declarations that have none.

use vstd::prelude::*;
use vstd::slice::slice_subrange;

use crate::declarations::{
    char_byte, declaration_end_from, depth_after, Modification, ModificationModel,
    process_type_declaration, track, type_declaration,
};
use crate::defaults::{Structs, StructTable};
use crate::error::ShaderError;
use crate::glsl_depth_tracker::{DepthModel, GlslDepthTracker};
use crate::glsl_preprocessor::{Failure, preprocess_chars, preprocessed};
use crate::macros::{splice, spliced};
use crate::struct_parser::{lemma_bracket_end_bounds, parse_struct_definition, struct_parsed};
use crate::text::{
    append_chars, char_is_identifier_start, chars_of, equals_str, find_char, find_char_from,
    is_identifier_start, lemma_find_char_bounds, lemma_skip_identifier_bounds,
    skip_ascii_whitespace, skip_identifier, skip_identifier_from, string_of, trim, trimmed,
};

verus! {

/// Whether `t` names a built-in scalar, vector or matrix type.
pub open spec fn is_builtin_type(t: Seq<char>) -> bool {
    ||| t == "float"@
    ||| t == "int"@
    ||| t == "uint"@
    ||| t == "bool"@
    ||| t == "vec2"@
    ||| t == "vec3"@
    ||| t == "vec4"@
    ||| t == "mat2"@
    ||| t == "mat3"@
    ||| t == "mat4"@
    ||| t == "mat2x2"@
    ||| t == "mat2x3"@
    ||| t == "mat2x4"@
    ||| t == "mat3x2"@
    ||| t == "mat3x3"@
    ||| t == "mat3x4"@
    ||| t == "mat4x2"@
    ||| t == "mat4x3"@
    ||| t == "mat4x4"@
    ||| t == "ivec2"@
    ||| t == "ivec3"@
    ||| t == "ivec4"@
    ||| t == "uvec2"@
    ||| t == "uvec3"@
    ||| t == "uvec4"@
    ||| t == "bvec2"@
    ||| t == "bvec3"@
    ||| t == "bvec4"@
}

/// Whether `t` is a storage qualifier whose declarations are left alone.
pub open spec fn is_skip_qualifier(t: Seq<char>) -> bool {
    t == "const"@ || t == "uniform"@ || t == "in"@ || t == "out"@ || t == "varying"@
}

/// Position after the `;` that ends the declaration scanned from position
/// `i` on: the first `;` outside strings at which `depth`, which counts the
/// brackets since the declaration began, is zero. Without such a `;` the
/// end of the text.
pub open spec fn declaration_skip_from(s: Seq<char>, i: int, depth: DepthModel, in_string: bool) -> int
    decreases s.len() - i,
{
    if 0 <= i < s.len() {
        if in_string {
            if s[i] == '"' {
                declaration_skip_from(s, i + 1, depth, false)
            } else if s[i] == '\\' && i + 1 < s.len() {
                declaration_skip_from(s, i + 2, depth, true)
            } else {
                declaration_skip_from(s, i + 1, depth, true)
            }
        } else {
            let counted = depth.brackets_updated(char_byte(s[i]));
            if s[i] == '"' {
                declaration_skip_from(s, i + 1, counted, true)
            } else if s[i] == ';' && counted.at_global_scope() {
                i + 1
            } else {
                declaration_skip_from(s, i + 1, counted, false)
            }
        }
    } else {
        i
    }
}

/// The scanner between two steps.
pub struct ScanModel {
    /// Whether the scanner is inside a string literal.
    pub in_string: bool,
    pub depth: DepthModel,
    /// Whether `for` was read and its `(` is awaited.
    pub expect_for: bool,
    /// The structs declared so far.
    pub structs: Structs,
}

/// One step of the scanner.
pub struct ScanStepModel {
    pub next: int,
    pub state: ScanModel,
    /// The replacement that the step found, if any.
    pub modification: Option<ModificationModel>,
}

/// The step that begins with the identifier at position `i`, which ends at
/// `e`; `st` holds the depth after the identifier's first character was
/// seen.
///
/// `for` arms the for-loop tracking. `struct` reads a struct declaration and
/// registers it. A storage qualifier at global scope skips its declaration.
/// The name of a built-in type or of a known struct rewrites the
/// declaration that follows, if there is something to rewrite. Any other
/// identifier is passed over.
pub open spec fn identifier_step(s: Seq<char>, i: int, e: int, st: ScanModel) -> ScanStepModel {
    let token = s.subrange(i, e);
    let parsed = struct_parsed(s, e);
    if token == "for"@ {
        ScanStepModel { next: e, state: ScanModel { expect_for: true, ..st }, modification: None }
    } else if token == "struct"@ {
        ScanStepModel {
            next: parsed.end,
            state: ScanModel {
                structs: if parsed.found {
                    st.structs.insert(parsed.name, parsed.members)
                } else {
                    st.structs
                },
                ..st
            },
            modification: None,
        }
    } else if is_skip_qualifier(token) && st.depth.at_global_scope() {
        ScanStepModel {
            next: declaration_skip_from(s, e, DepthModel::start(), false),
            state: st,
            modification: None,
        }
    } else if is_builtin_type(token) || st.structs.contains_key(token) {
        match type_declaration(s, token, e, st.depth, st.structs) {
            Some(d) => ScanStepModel {
                next: d.next,
                state: st,
                modification: Some(d.modification),
            },
            None => ScanStepModel { next: e, state: st, modification: None },
        }
    } else {
        ScanStepModel { next: e, state: st, modification: None }
    }
}

/// The step that the scanner takes at position `i` of `s`.
///
/// Inside a string a backslash hides the next character and `"` ends the
/// string. Outside, `"` opens a string, `#` skips the rest of the line, and
/// any other character is shown to the depth tracker; the first `(` after
/// `for` starts the for-loop tracking. A character that can begin an
/// identifier begins an identifier step.
pub open spec fn scan_step(s: Seq<char>, i: int, st: ScanModel) -> ScanStepModel
    recommends
        0 <= i < s.len(),
{
    let c = s[i];
    let seen = depth_after(st.depth, c);
    let starts_for = seen.paren > 0 && st.expect_for;
    let after = ScanModel {
        depth: if starts_for {
            seen.for_loop_started()
        } else {
            seen
        },
        expect_for: st.expect_for && !starts_for,
        ..st
    };
    if st.in_string {
        if c == '"' {
            ScanStepModel {
                next: i + 1,
                state: ScanModel { in_string: false, ..st },
                modification: None,
            }
        } else if c == '\\' && i + 1 < s.len() {
            ScanStepModel { next: i + 2, state: st, modification: None }
        } else {
            ScanStepModel { next: i + 1, state: st, modification: None }
        }
    } else if c == '"' {
        ScanStepModel {
            next: i + 1,
            state: ScanModel { in_string: true, ..st },
            modification: None,
        }
    } else if c == '#' {
        ScanStepModel { next: find_char(s, i + 1, '\n'), state: st, modification: None }
    } else if is_identifier_start(c) {
        identifier_step(s, i, skip_identifier(s, i + 1), after)
    } else {
        ScanStepModel { next: i + 1, state: after, modification: None }
    }
}

/// Skipping ASCII whitespace moves forward and stays inside the text.
pub proof fn lemma_skip_ascii_whitespace_bounds(s: Seq<char>, i: int)
    requires
        0 <= i <= s.len(),
    ensures
        i <= skip_ascii_whitespace(s, i) <= s.len(),
    decreases s.len() - i,
{
    if i < s.len() && crate::text::is_ascii_whitespace(s[i]) {
        lemma_skip_ascii_whitespace_bounds(s, i + 1);
    }
}

/// Skipping a declaration moves forward and stays inside the text.
pub proof fn lemma_declaration_skip_bounds(s: Seq<char>, i: int, depth: DepthModel, in_string: bool)
    requires
        0 <= i <= s.len(),
    ensures
        i <= declaration_skip_from(s, i, depth, in_string) <= s.len(),
    decreases s.len() - i,
{
    if i < s.len() {
        if in_string {
            if s[i] == '"' {
                lemma_declaration_skip_bounds(s, i + 1, depth, false);
            } else if s[i] == '\\' && i + 1 < s.len() {
                lemma_declaration_skip_bounds(s, i + 2, depth, true);
            } else {
                lemma_declaration_skip_bounds(s, i + 1, depth, true);
            }
        } else {
            let counted = depth.brackets_updated(char_byte(s[i]));
            if s[i] == '"' {
                lemma_declaration_skip_bounds(s, i + 1, counted, true);
            } else if s[i] == ';' && counted.at_global_scope() {
            } else {
                lemma_declaration_skip_bounds(s, i + 1, counted, false);
            }
        }
    }
}

/// The `;` that ends a declaration stands at or after the start of the
/// search.
pub proof fn lemma_declaration_end_bounds(s: Seq<char>, i: int, local: DepthModel, start: DepthModel)
    requires
        0 <= i <= s.len(),
    ensures
        declaration_end_from(s, i, local, start) matches Some(e) ==> i <= e < s.len(),
    decreases s.len() - i,
{
    if i < s.len() {
        if s[i] == '"' {
        } else if s[i] == ';' && depth_after(local, s[i]).same_depth(start) {
        } else {
            lemma_declaration_end_bounds(s, i + 1, depth_after(local, s[i]), start);
        }
    }
}

/// Reading a struct declaration moves forward and stays inside the text.
pub proof fn lemma_struct_parsed_bounds(s: Seq<char>, i: int)
    requires
        0 <= i <= s.len(),
    ensures
        i <= struct_parsed(s, i).end <= s.len(),
{
    lemma_skip_ascii_whitespace_bounds(s, i);
    let name_start = skip_ascii_whitespace(s, i);
    if name_start < s.len() {
        lemma_skip_identifier_bounds(s, name_start + 1);
    }
    let named = name_start < s.len() && is_identifier_start(s[name_start]);
    let name_end = if named {
        skip_identifier(s, name_start + 1)
    } else {
        name_start
    };
    lemma_find_char_bounds(s, name_end, '{');
    let open = find_char(s, name_end, '{');
    if open < s.len() {
        lemma_bracket_end_bounds(s, open + 1, 1, '{', '}');
    }
}

/// Every step moves the scanner forward and keeps it inside the text.
pub proof fn lemma_scan_step_advances(s: Seq<char>, i: int, st: ScanModel)
    requires
        0 <= i < s.len(),
    ensures
        i < scan_step(s, i, st).next <= s.len(),
{
    lemma_find_char_bounds(s, i + 1, '\n');
    lemma_skip_identifier_bounds(s, i + 1);
    let e = skip_identifier(s, i + 1);
    lemma_struct_parsed_bounds(s, e);
    lemma_declaration_skip_bounds(s, e, DepthModel::start(), false);
    lemma_skip_ascii_whitespace_bounds(s, e);
    let begin = skip_ascii_whitespace(s, e);
    let step = scan_step(s, i, st);
    let depth = step.state.depth;
    lemma_declaration_end_bounds(s, begin, depth, depth);
}

/// The replacements that the scanner finds from position `i` on, appended
/// to `acc`.
pub open spec fn modifications_from(
    s: Seq<char>,
    i: int,
    st: ScanModel,
    acc: Seq<ModificationModel>,
) -> Seq<ModificationModel>
    decreases s.len() - i,
{
    if 0 <= i < s.len() {
        let step = scan_step(s, i, st);
        proof {
            lemma_scan_step_advances(s, i, st);
        }
        modifications_from(
            s,
            step.next,
            step.state,
            match step.modification {
                Some(m) => acc.push(m),
                None => acc,
            },
        )
    } else {
        acc
    }
}

/// The scanner only adds replacements, and each one it adds begins at or
/// after the position from which it scans.
pub proof fn lemma_modifications_begin_later(
    s: Seq<char>,
    i: int,
    st: ScanModel,
    acc: Seq<ModificationModel>,
)
    requires
        0 <= i,
    ensures
        modifications_from(s, i, st, acc).len() >= acc.len(),
        modifications_from(s, i, st, acc).take(acc.len() as int) == acc,
        forall|k: int|
            acc.len() <= k < modifications_from(s, i, st, acc).len() ==> (
            #[trigger] modifications_from(s, i, st, acc)[k]).start >= i,
    decreases s.len() - i,
{
    let all = modifications_from(s, i, st, acc);
    if i < s.len() {
        let step = scan_step(s, i, st);
        lemma_scan_step_advances(s, i, st);
        let next_acc = match step.modification {
            Some(m) => acc.push(m),
            None => acc,
        };
        lemma_modifications_begin_later(s, step.next, step.state, next_acc);
        assert(all.take(next_acc.len() as int) == next_acc);
        assert(all.take(acc.len() as int) =~= next_acc.take(acc.len() as int));
        assert(next_acc.take(acc.len() as int) =~= acc);
        match step.modification {
            Some(m) => {
                let e = skip_identifier(s, i + 1);
                lemma_skip_identifier_bounds(s, i + 1);
                lemma_skip_ascii_whitespace_bounds(s, e);
                assert(m.start >= i);
                assert(all[acc.len() as int] == next_acc[acc.len() as int]);
            },
            None => {},
        }
    } else {
        assert(all.take(acc.len() as int) =~= acc);
    }
}

/// A declaration that begins with a storage qualifier at global scope is
/// exempt: the scanner passes over it up to the end of its `;`, and no
/// replacement that it finds from there on reaches back into it.
pub proof fn lemma_qualified_declaration_is_exempt(
    s: Seq<char>,
    i: int,
    st: ScanModel,
    acc: Seq<ModificationModel>,
)
    requires
        0 <= i < s.len(),
        !st.in_string,
        is_identifier_start(s[i]),
        is_skip_qualifier(s.subrange(i, skip_identifier(s, i + 1))),
        scan_step(s, i, st).state.depth.at_global_scope(),
    ensures
        scan_step(s, i, st).modification is None,
        scan_step(s, i, st).next == declaration_skip_from(
            s,
            skip_identifier(s, i + 1),
            DepthModel::start(),
            false,
        ),
        forall|k: int|
            acc.len() <= k < modifications_from(s, i, st, acc).len() ==> (
            #[trigger] modifications_from(s, i, st, acc)[k]).start >= scan_step(s, i, st).next,
{
    reveal_strlit("for");
    reveal_strlit("struct");
    reveal_strlit("const");
    reveal_strlit("uniform");
    reveal_strlit("in");
    reveal_strlit("out");
    reveal_strlit("varying");
    let token = s.subrange(i, skip_identifier(s, i + 1));
    assert(token != "for"@) by {
        if token == "for"@ {
            assert(token[0] == 'f');
        }
    }
    assert(token != "struct"@) by {
        if token == "struct"@ {
            assert(token[0] == 's');
        }
    }
    let step = scan_step(s, i, st);
    lemma_scan_step_advances(s, i, st);
    lemma_modifications_begin_later(s, step.next, step.state, acc);
}

/// The state in which the scanner starts.
pub open spec fn scan_start() -> ScanModel {
    ScanModel {
        in_string: false,
        depth: DepthModel::start(),
        expect_for: false,
        structs: Map::empty(),
    }
}

/// The replacements that give every uninitialized declaration of `s` its
/// default initializer, in the order of their positions.
pub open spec fn modifications_of(s: Seq<char>) -> Seq<ModificationModel> {
    modifications_from(s, 0, scan_start(), Seq::empty())
}

/// `source` with the replacements made, the last one first.
pub open spec fn applied(source: Seq<char>, modifications: Seq<ModificationModel>) -> Seq<char>
    decreases modifications.len(),
{
    if modifications.len() == 0 {
        source
    } else {
        applied(
            spliced(
                source,
                modifications.last().start,
                modifications.last().end,
                modifications.last().replacement,
            ),
            modifications.drop_last(),
        )
    }
}

/// Where the content of the line from `pos` up to the line feed or end at
/// `end` stops: before a carriage return that precedes the line feed.
pub open spec fn content_end(s: Seq<char>, pos: int, end: int) -> int {
    if pos < end < s.len() && s[end - 1] == '\r' {
        end - 1
    } else {
        end
    }
}

/// The lines of `s` from position `pos` on that hold more than whitespace,
/// appended to `acc` with a line feed between lines; `first` says that
/// `acc` holds no line yet.
pub open spec fn nonblank_lines_from(s: Seq<char>, pos: int, acc: Seq<char>, first: bool) -> Seq<
    char,
>
    decreases s.len() + 1 - pos,
{
    if 0 <= pos < s.len() {
        let end = find_char(s, pos, '\n');
        let line = s.subrange(pos, content_end(s, pos, end));
        proof {
            lemma_find_char_bounds(s, pos, '\n');
        }
        if trimmed(line).len() == 0 {
            nonblank_lines_from(s, end + 1, acc, first)
        } else if first {
            nonblank_lines_from(s, end + 1, acc + line, false)
        } else {
            nonblank_lines_from(s, end + 1, acc + seq!['\n'] + line, false)
        }
    } else {
        acc
    }
}

/// `s` without its blank lines and without a line feed at the end.
pub open spec fn without_blank_lines(s: Seq<char>) -> Seq<char> {
    nonblank_lines_from(s, 0, Seq::empty(), true)
}

/// The preprocessed text of `source` with a default initializer added to
/// every declaration that lacks one, and without blank lines; or the
/// failure of the preprocessor.
pub open spec fn initialized(source: Seq<char>) -> Result<Seq<char>, Failure> {
    match preprocessed(source) {
        Ok(text) => Ok(without_blank_lines(applied(text, modifications_of(text)))),
        Err(f) => Err(f),
    }
}

/// The replacements as plain values.
pub open spec fn models(v: Seq<Modification>) -> Seq<ModificationModel> {
    v.map_values(|m: Modification| m@)
}

/// Whether the replacements lie before `limit`, one after the other,
/// without touching.
pub open spec fn ordered_within(modifications: Seq<ModificationModel>, limit: int) -> bool {
    &&& forall|k: int|
        0 <= k < modifications.len() ==> 0 <= (#[trigger] modifications[k]).start
            <= modifications[k].end < limit
    &&& forall|k: int, m: int|
        0 <= k < m < modifications.len() ==> (#[trigger] modifications[k]).end < (
        #[trigger] modifications[m]).start
}

/// Whether `t` names a built-in type.
pub fn names_builtin_type(t: &[char]) -> (r: bool)
    ensures
        r == is_builtin_type(t@),
{
    equals_str(t, "float") || equals_str(t, "int") || equals_str(t, "uint") || equals_str(t, "bool")
        || equals_str(t, "vec2") || equals_str(t, "vec3") || equals_str(t, "vec4") || equals_str(
        t,
        "mat2",
    ) || equals_str(t, "mat3") || equals_str(t, "mat4") || equals_str(t, "mat2x2") || equals_str(
        t,
        "mat2x3",
    ) || equals_str(t, "mat2x4") || equals_str(t, "mat3x2") || equals_str(t, "mat3x3")
        || equals_str(t, "mat3x4") || equals_str(t, "mat4x2") || equals_str(t, "mat4x3")
        || equals_str(t, "mat4x4") || equals_str(t, "ivec2") || equals_str(t, "ivec3")
        || equals_str(t, "ivec4") || equals_str(t, "uvec2") || equals_str(t, "uvec3") || equals_str(
        t,
        "uvec4",
    ) || equals_str(t, "bvec2") || equals_str(t, "bvec3") || equals_str(t, "bvec4")
}

/// Whether `t` is a storage qualifier whose declarations are left alone.
pub fn names_skip_qualifier(t: &[char]) -> (r: bool)
    ensures
        r == is_skip_qualifier(t@),
{
    equals_str(t, "const") || equals_str(t, "uniform") || equals_str(t, "in") || equals_str(
        t,
        "out",
    ) || equals_str(t, "varying")
}

/// Skips the declaration that is scanned from position `i` on.
pub fn skip_to_declaration_end(s: &[char], i: usize) -> (r: usize)
    requires
        i <= s.len(),
    ensures
        r == declaration_skip_from(s@, i as int, DepthModel::start(), false),
        i <= r <= s.len(),
{
    proof {
        lemma_declaration_skip_bounds(s@, i as int, DepthModel::start(), false);
    }
    let n = s.len();
    let mut depth = GlslDepthTracker::new();
    let mut in_string = false;
    let mut k: usize = i;
    while k < n
        invariant
            n == s.len(),
            i <= k <= n,
            declaration_skip_from(s@, k as int, depth@, in_string) == declaration_skip_from(
                s@,
                i as int,
                DepthModel::start(),
                false,
            ),
        decreases n - k,
    {
        let c = s[k];
        if in_string {
            if c == '"' {
                in_string = false;
            } else if c == '\\' && k + 1 < n {
                k += 1;
            }
        } else {
            depth.update_brackets(crate::declarations::byte_of(c));
            if c == '"' {
                in_string = true;
            } else if c == ';' && depth.at_global_scope() {
                return k + 1;
            }
        }
        k += 1;
    }
    k
}

/// The scanner of one source text.
pub struct GlslInitializer<'a> {
    source: &'a [char],
    struct_defs: StructTable,
}

impl<'a> GlslInitializer<'a> {
    /// A scanner for `source` that knows no struct yet.
    pub fn new(source: &'a [char]) -> (r: GlslInitializer<'a>)
        ensures
            r.text() == source@,
    {
        GlslInitializer { source, struct_defs: StructTable::new() }
    }

    /// The text that is scanned.
    pub closed spec fn text(&self) -> Seq<char> {
        self.source@
    }

    /// Scans the source once and collects the replacements that add the
    /// missing initializers.
    pub fn modifications(&mut self) -> (r: Vec<Modification>)
        ensures
            models(r@) == modifications_of(old(self).text()),
            ordered_within(models(r@), old(self).text().len() as int),
            final(self).text() == old(self).text(),
    {
        let s = self.source;
        let n = s.len();
        self.struct_defs = StructTable::new();
        let mut in_string = false;
        let mut tracker = GlslDepthTracker::new();
        let mut expect_for = false;
        let mut found: Vec<Modification> = Vec::new();
        let mut i: usize = 0;
        assert(models(found@) =~= Seq::empty());
        while i < n
            invariant
                n == s.len(),
                s@ == old(self).text(),
                self.source@ == s@,
                i <= n,
                ordered_within(models(found@), i as int),
                modifications_from(
                    s@,
                    i as int,
                    ScanModel {
                        in_string,
                        depth: tracker@,
                        expect_for,
                        structs: self.struct_defs@,
                    },
                    models(found@),
                ) == modifications_of(s@),
            decreases n - i,
        {
            let ghost st = ScanModel {
                in_string,
                depth: tracker@,
                expect_for,
                structs: self.struct_defs@,
            };
            let ghost step = scan_step(s@, i as int, st);
            let ghost before = models(found@);
            proof {
                lemma_scan_step_advances(s@, i as int, st);
            }
            let c = s[i];
            if in_string {
                if c == '"' {
                    in_string = false;
                } else if c == '\\' && i + 1 < n {
                    i += 1;
                }
                i += 1;
            } else if c == '"' {
                in_string = true;
                i += 1;
            } else if c == '#' {
                i = find_char_from(s, i + 1, '\n');
            } else {
                track(&mut tracker, c);
                if tracker.in_parentheses() && expect_for {
                    tracker.start_for_loop_tracking();
                    expect_for = false;
                }
                if char_is_identifier_start(c) {
                    let e = skip_identifier_from(s, i + 1);
                    let token = slice_subrange(s, i, e);
                    if equals_str(token, "for") {
                        expect_for = true;
                        i = e;
                    } else if equals_str(token, "struct") {
                        let (end, definition) = parse_struct_definition(s, e);
                        match definition {
                            Some(d) => {
                                self.struct_defs.register(d);
                            },
                            None => {},
                        }
                        i = end;
                    } else if names_skip_qualifier(token) && tracker.at_global_scope() {
                        i = skip_to_declaration_end(s, e);
                    } else if names_builtin_type(token) || self.struct_defs.contains(token) {
                        match process_type_declaration(s, token, e, &tracker, &self.struct_defs) {
                            Some((modification, next)) => {
                                found.push(modification);
                                assert(models(found@) =~= before.push(modification@));
                                i = next;
                            },
                            None => {
                                i = e;
                            },
                        }
                    } else {
                        i = e;
                    }
                } else {
                    i += 1;
                }
            }
            assert(i == step.next);
            assert(ScanModel {
                in_string,
                depth: tracker@,
                expect_for,
                structs: self.struct_defs@,
            } == step.state);
            assert(models(found@) == match step.modification {
                Some(m) => before.push(m),
                None => before,
            });
        }
        found
    }
}

/// Makes the replacements in `source`, the last one first.
pub fn apply_modifications(source: &[char], modifications: &Vec<Modification>) -> (r: Vec<char>)
    requires
        ordered_within(models(modifications@), source.len() as int),
    ensures
        r@ == applied(source@, models(modifications@)),
{
    let mut current = crate::text::copy_chars(source);
    let mut j: usize = modifications.len();
    assert(models(modifications@).take(j as int) =~= models(modifications@));
    assert(j > 0 ==> models(modifications@)[j - 1] == modifications@[j - 1]@);
    while j > 0
        invariant
            j <= modifications.len(),
            ordered_within(models(modifications@), source.len() as int),
            j > 0 ==> modifications@[j - 1].end < current.len(),
            applied(current@, models(modifications@).take(j as int)) == applied(
                source@,
                models(modifications@),
            ),
        decreases j,
    {
        j -= 1;
        let m = &modifications[j];
        proof {
            let all = models(modifications@);
            assert(all.take(j + 1).last() == all[j as int]);
            assert(all.take(j + 1).drop_last() =~= all.take(j as int));
            assert(all[j as int] == m@);
            if j > 0 {
                assert(all[j - 1].end < all[j as int].start);
            }
        }
        current = splice(current.as_slice(), m.start, m.end, m.replacement.as_slice());
    }
    current
}

/// Drops the blank lines of `s` and joins the others with line feeds.
pub fn remove_blank_lines(s: &[char]) -> (r: Vec<char>)
    ensures
        r@ == without_blank_lines(s@),
{
    let n = s.len();
    let mut r: Vec<char> = Vec::new();
    let mut first = true;
    let mut pos: usize = 0;
    while pos < n
        invariant
            n == s.len(),
            pos <= n,
            nonblank_lines_from(s@, pos as int, r@, first) == without_blank_lines(s@),
        decreases n - pos,
    {
        let end = find_char_from(s, pos, '\n');
        let stop = if pos < end && end < n && s[end - 1] == '\r' {
            end - 1
        } else {
            end
        };
        let line = slice_subrange(s, pos, stop);
        let ghost before = r@;
        if trim(line).len() > 0 {
            if !first {
                r.push('\n');
                assert(r@ =~= before + seq!['\n']);
            }
            append_chars(&mut r, line);
            first = false;
        }
        assert(nonblank_lines_from(s@, n + 1, r@, first) == nonblank_lines_from(
            s@,
            n as int,
            r@,
            first,
        ));
        pos = if end < n {
            end + 1
        } else {
            n
        };
    }
    r
}

/// Adds default initializers to a text given as characters.
pub fn initialize_chars(source: &[char]) -> (r: Result<Vec<char>, ShaderError>)
    ensures
        match initialized(source@) {
            Ok(text) => r matches Ok(v) && v@ == text,
            Err(f) => r matches Err(ShaderError::PreprocessError(m, l)) && m@ == f.message && l
                == f.line,
        },
{
    match preprocess_chars(source) {
        Err(e) => Err(e),
        Ok(text) => {
            let mut scanner = GlslInitializer::new(text.as_slice());
            let modifications = scanner.modifications();
            let patched = apply_modifications(text.as_slice(), &modifications);
            Ok(remove_blank_lines(patched.as_slice()))
        },
    }
}

/// Runs the preprocessor over `source` and gives every variable
/// declaration without an initializer the default value of its type.
///
/// Declarations with a storage qualifier at global scope, function
/// parameters and function declarations are left as they are. Blank lines
/// are removed from the result.
pub fn initialize_uninitialized_variables(source: &str) -> (r: Result<String, ShaderError>)
    ensures
        match initialized(source@) {
            Ok(text) => r matches Ok(s) && s@ == text,
            Err(f) => r matches Err(ShaderError::PreprocessError(m, l)) && m@ == f.message && l
                == f.line,
        },
{
    match initialize_chars(chars_of(source).as_slice()) {
        Ok(v) => Ok(string_of(v.as_slice())),
        Err(e) => Err(e),
    }
}

/// A source whose scan finds nothing to replace comes out as the
/// preprocessor left it, but for its blank lines.
pub proof fn lemma_no_modification_keeps_text(source: Seq<char>, text: Seq<char>)
    requires
        preprocessed(source) == Ok::<Seq<char>, Failure>(text),
        modifications_of(text).len() == 0,
    ensures
        initialized(source) == Ok::<Seq<char>, Failure>(without_blank_lines(text)),
{
}

} // verus!
