//! Reading `struct` declarations.

use vstd::prelude::*;
use vstd::slice::slice_subrange;

use crate::defaults::{member_models, MemberModel, StructDefinition, StructMember};
use crate::text::{
    char_is_identifier_start, copy_chars, find_char, find_char_from, is_identifier_start,
    remove_whitespace, skip_ascii_whitespace, skip_ascii_whitespace_from, skip_identifier,
    skip_identifier_from, skip_non_whitespace, skip_non_whitespace_from, skip_whitespace,
    skip_whitespace_from, without_whitespace,
};

verus! {

/// `acc` with the member that `piece` declares: a name, or a name followed
/// by an array specifier that begins at the first `[`. An empty piece
/// declares nothing.
pub open spec fn with_member(
    acc: Seq<MemberModel>,
    glsl_type: Seq<char>,
    piece: Seq<char>,
) -> Seq<MemberModel> {
    let k = find_char(piece, 0, '[');
    if piece.len() == 0 {
        acc
    } else if k < piece.len() {
        acc.push(
            MemberModel {
                glsl_type,
                name: piece.subrange(0, k),
                array_specifier: Some(piece.subrange(k, piece.len() as int)),
            },
        )
    } else {
        acc.push(MemberModel { glsl_type, name: piece, array_specifier: None })
    }
}

/// `acc` with the members that the comma-separated `names` declare. The
/// scan stands at position `i` and the current piece began at `start`.
pub open spec fn with_names(
    acc: Seq<MemberModel>,
    glsl_type: Seq<char>,
    names: Seq<char>,
    i: int,
    start: int,
) -> Seq<MemberModel>
    decreases names.len() - i,
{
    if 0 <= i < names.len() {
        if names[i] == ',' {
            with_names(
                with_member(acc, glsl_type, names.subrange(start, i)),
                glsl_type,
                names,
                i + 1,
                i + 1,
            )
        } else {
            with_names(acc, glsl_type, names, i + 1, start)
        }
    } else {
        with_member(acc, glsl_type, names.subrange(start, names.len() as int))
    }
}

/// `acc` with the members that one member declaration declares: its first
/// word is the type, and the rest, taken without whitespace, holds the
/// names. A declaration of fewer than two words declares nothing.
pub open spec fn with_declaration(acc: Seq<MemberModel>, decl: Seq<char>) -> Seq<MemberModel> {
    let a = skip_whitespace(decl, 0);
    let e = skip_non_whitespace(decl, a);
    let names = without_whitespace(decl.subrange(e, decl.len() as int));
    if a >= decl.len() || names.len() == 0 {
        acc
    } else {
        with_names(acc, decl.subrange(a, e), names, 0, 0)
    }
}

/// `acc` with the members of a struct body, whose declarations end in `;`.
/// The scan stands at position `i` and the current declaration began at
/// `start`.
pub open spec fn struct_members_from(
    body: Seq<char>,
    i: int,
    start: int,
    acc: Seq<MemberModel>,
) -> Seq<MemberModel>
    decreases body.len() - i,
{
    if 0 <= i < body.len() {
        if body[i] == ';' {
            struct_members_from(
                body,
                i + 1,
                i + 1,
                with_declaration(acc, body.subrange(start, i)),
            )
        } else {
            struct_members_from(body, i + 1, start, acc)
        }
    } else {
        with_declaration(acc, body.subrange(start, body.len() as int))
    }
}

/// The members that a struct body declares, in order.
pub open spec fn struct_members(body: Seq<char>) -> Seq<MemberModel> {
    struct_members_from(body, 0, 0, Seq::empty())
}

/// Where a scan for a closing bracket stopped.
pub struct BracketScan {
    /// Position after the bracket that closed the last level, or the end of
    /// the text.
    pub end: int,
    /// Levels that are still open.
    pub depth: nat,
}

/// Scans from position `i` at nesting `depth` for the bracket `close` that
/// brings the nesting to zero; `open` deepens it.
pub open spec fn bracket_end(s: Seq<char>, i: int, depth: nat, open: char, close: char) -> BracketScan
    decreases s.len() - i,
{
    if 0 <= i < s.len() && depth > 0 {
        if s[i] == open {
            bracket_end(s, i + 1, depth + 1, open, close)
        } else if s[i] == close {
            bracket_end(s, i + 1, (depth - 1) as nat, open, close)
        } else {
            bracket_end(s, i + 1, depth, open, close)
        }
    } else {
        BracketScan { end: i, depth }
    }
}

/// The scan for a closing bracket moves forward and stays inside the text;
/// where it closes the nesting it has passed at least the closing bracket.
pub proof fn lemma_bracket_end_bounds(s: Seq<char>, i: int, depth: nat, open: char, close: char)
    requires
        0 <= i <= s.len(),
    ensures
        i <= bracket_end(s, i, depth, open, close).end <= s.len(),
        depth > 0 && bracket_end(s, i, depth, open, close).depth == 0 ==> i < bracket_end(
            s,
            i,
            depth,
            open,
            close,
        ).end,
    decreases s.len() - i,
{
    if i < s.len() && depth > 0 {
        if s[i] == open {
            lemma_bracket_end_bounds(s, i + 1, depth + 1, open, close);
        } else if s[i] == close {
            lemma_bracket_end_bounds(s, i + 1, (depth - 1) as nat, open, close);
        } else {
            lemma_bracket_end_bounds(s, i + 1, depth, open, close);
        }
    }
}

/// A struct declaration as it was read.
pub struct StructParse {
    /// Where the scan goes on: after the closing `}`, or at the end of the
    /// text when the body is not closed.
    pub end: int,
    /// Whether a named struct with a closed body was found.
    pub found: bool,
    pub name: Seq<char>,
    pub members: Seq<MemberModel>,
}

/// The struct declaration that follows the keyword `struct`, which ends at
/// position `i`: an optional name, anything up to `{`, and the body up to
/// the matching `}`.
pub open spec fn struct_parsed(s: Seq<char>, i: int) -> StructParse {
    let name_start = skip_ascii_whitespace(s, i);
    let named = name_start < s.len() && is_identifier_start(s[name_start]);
    let name_end = if named {
        skip_identifier(s, name_start + 1)
    } else {
        name_start
    };
    let open = find_char(s, name_end, '{');
    let scan = bracket_end(s, open + 1, 1, '{', '}');
    if open >= s.len() {
        StructParse { end: open, found: false, name: Seq::empty(), members: Seq::empty() }
    } else if scan.depth == 0 && named {
        StructParse {
            end: scan.end,
            found: true,
            name: s.subrange(name_start, name_end),
            members: struct_members(s.subrange(open + 1, scan.end - 1)),
        }
    } else {
        StructParse { end: scan.end, found: false, name: Seq::empty(), members: Seq::empty() }
    }
}

/// Scans for the bracket that closes the nesting; `start` is the position
/// after the bracket that opened it.
pub fn find_bracket_end(s: &[char], start: usize, open: char, close: char) -> (r: (usize, bool))
    requires
        0 < start <= s.len(),
    ensures
        r.0 == bracket_end(s@, start as int, 1, open, close).end,
        r.1 == (bracket_end(s@, start as int, 1, open, close).depth == 0),
        start <= r.0 <= s.len(),
        r.1 ==> start < r.0,
{
    proof {
        lemma_bracket_end_bounds(s@, start as int, 1, open, close);
    }
    let mut i: usize = start;
    let mut depth: usize = 1;
    while i < s.len() && depth > 0
        invariant
            0 < start <= i <= s.len(),
            depth <= i - start + 1,
            bracket_end(s@, i as int, depth as nat, open, close) == bracket_end(
                s@,
                start as int,
                1,
                open,
                close,
            ),
        decreases s.len() - i,
    {
        if s[i] == open {
            depth += 1;
        } else if s[i] == close {
            depth -= 1;
        }
        i += 1;
    }
    (i, depth == 0)
}

/// Adds the member that `piece` declares.
fn push_member(members: &mut Vec<StructMember>, glsl_type: &[char], piece: &[char])
    ensures
        member_models(final(members)@) == with_member(
            member_models(old(members)@),
            glsl_type@,
            piece@,
        ),
{
    let ghost before = member_models(members@);
    if piece.len() == 0 {
        return ;
    }
    let k = find_char_from(piece, 0, '[');
    if k < piece.len() {
        members.push(
            StructMember {
                glsl_type: copy_chars(glsl_type),
                name: copy_chars(slice_subrange(piece, 0, k)),
                array_specifier: Some(copy_chars(slice_subrange(piece, k, piece.len()))),
            },
        );
    } else {
        members.push(
            StructMember {
                glsl_type: copy_chars(glsl_type),
                name: copy_chars(piece),
                array_specifier: None,
            },
        );
    }
    assert(member_models(members@) =~= before.push(members@.last().model()));
}

/// Adds the members that one member declaration declares.
fn push_declaration(members: &mut Vec<StructMember>, decl: &[char])
    ensures
        member_models(final(members)@) == with_declaration(member_models(old(members)@), decl@),
{
    let a = skip_whitespace_from(decl, 0);
    if a >= decl.len() {
        return ;
    }
    let e = skip_non_whitespace_from(decl, a);
    let names = remove_whitespace(slice_subrange(decl, e, decl.len()));
    if names.len() == 0 {
        return ;
    }
    let glsl_type = slice_subrange(decl, a, e);
    let mut start: usize = 0;
    let mut i: usize = 0;
    while i < names.len()
        invariant
            start <= i <= names.len(),
            with_names(member_models(members@), glsl_type@, names@, i as int, start as int)
                == with_names(member_models(old(members)@), glsl_type@, names@, 0, 0),
        decreases names.len() - i,
    {
        if names[i] == ',' {
            push_member(members, glsl_type, slice_subrange(names.as_slice(), start, i));
            start = i + 1;
        }
        i += 1;
    }
    push_member(members, glsl_type, slice_subrange(names.as_slice(), start, names.len()));
}

/// Reads the members of a struct body.
pub fn parse_struct_body(body: &[char]) -> (members: Vec<StructMember>)
    ensures
        member_models(members@) == struct_members(body@),
{
    let mut members: Vec<StructMember> = Vec::new();
    assert(member_models(members@) =~= Seq::empty());
    let mut start: usize = 0;
    let mut i: usize = 0;
    while i < body.len()
        invariant
            start <= i <= body.len(),
            struct_members_from(body@, i as int, start as int, member_models(members@))
                == struct_members(body@),
        decreases body.len() - i,
    {
        if body[i] == ';' {
            push_declaration(&mut members, slice_subrange(body, start, i));
            start = i + 1;
        }
        i += 1;
    }
    push_declaration(&mut members, slice_subrange(body, start, body.len()));
    members
}

/// Reads the struct declaration that follows the keyword `struct`, which
/// ends at position `i`. Returns where the scan goes on and the struct, if a
/// named one with a closed body was found.
pub fn parse_struct_definition(s: &[char], i: usize) -> (r: (usize, Option<StructDefinition>))
    requires
        i <= s.len(),
    ensures
        r.0 == struct_parsed(s@, i as int).end,
        i <= r.0 <= s.len(),
        match r.1 {
            Some(d) => struct_parsed(s@, i as int).found && d.name@ == struct_parsed(
                s@,
                i as int,
            ).name && member_models(d.members@) == struct_parsed(s@, i as int).members,
            None => !struct_parsed(s@, i as int).found,
        },
{
    let n = s.len();
    let name_start = skip_ascii_whitespace_from(s, i);
    let named = name_start < n && char_is_identifier_start(s[name_start]);
    let name_end = if named {
        skip_identifier_from(s, name_start + 1)
    } else {
        name_start
    };
    let open = find_char_from(s, name_end, '{');
    if open >= n {
        return (open, None);
    }
    let (end, closed) = find_bracket_end(s, open + 1, '{', '}');
    if closed && named {
        let members = parse_struct_body(slice_subrange(s, open + 1, end - 1));
        let name = copy_chars(slice_subrange(s, name_start, name_end));
        (end, Some(StructDefinition { name, members }))
    } else {
        (end, None)
    }
}

} // verus!
