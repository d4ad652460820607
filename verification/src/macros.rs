//! Macro definitions and their expansion.

use vstd::prelude::*;
use vstd::slice::slice_subrange;

use crate::text::{
    append_chars, char_is_identifier_char, chars_of, is_identifier_char, same_chars,
    skip_identifier, skip_identifier_from, skip_whitespace, skip_whitespace_from, string_of, trim,
    trimmed,
};
use crate::word_regex::{substitute, substituted, views};

verus! {

/// Most replacements that one call of `expand_macros` makes. A macro that
/// expands to its own invocation stops here.
pub const MAX_EXPANSIONS: usize = 1_000_000;

/// What a macro name stands for.
pub struct MacroDefinition {
    /// Parameter names of a function-like macro, possibly none; `None` for
    /// an object-like macro.
    pub params: Option<Vec<String>>,
    /// Replacement text, unexpanded.
    pub body: Vec<char>,
}

/// A macro definition as plain values.
pub struct MacroModel {
    pub params: Option<Seq<Seq<char>>>,
    pub body: Seq<char>,
}

/// The macros in force: a mapping from names to definitions.
pub type Macros = Map<Seq<char>, MacroModel>;

impl MacroDefinition {
    /// The definition as plain values.
    pub open spec fn model(&self) -> MacroModel {
        MacroModel {
            params: match self.params {
                Some(p) => Some(views(p@)),
                None => None,
            },
            body: self.body@,
        }
    }
}

/// One `#define` or `#undef`, kept in the order in which they came.
pub struct MacroEntry {
    pub name: Vec<char>,
    /// `None` for an `#undef`.
    pub definition: Option<MacroDefinition>,
}

/// The mapping that a sequence of `#define`s and `#undef`s leaves.
pub open spec fn table_of(entries: Seq<MacroEntry>) -> Macros
    decreases entries.len(),
{
    if entries.len() == 0 {
        Map::empty()
    } else {
        let rest = table_of(entries.drop_last());
        match entries.last().definition {
            Some(d) => rest.insert(entries.last().name@, d.model()),
            None => rest.remove(entries.last().name@),
        }
    }
}

/// The macro definitions of one preprocessing pass.
pub struct MacroTable {
    entries: Vec<MacroEntry>,
}

impl View for MacroTable {
    type V = Macros;

    closed spec fn view(&self) -> Macros {
        table_of(self.entries@)
    }
}

impl MacroTable {
    /// A table without definitions.
    pub fn new() -> (t: MacroTable)
        ensures
            t@ == Map::<Seq<char>, MacroModel>::empty(),
    {
        MacroTable { entries: Vec::new() }
    }

    /// Defines `name`, replacing an earlier definition.
    pub fn define(&mut self, name: Vec<char>, definition: MacroDefinition)
        ensures
            final(self)@ == old(self)@.insert(name@, definition.model()),
    {
        self.entries.push(MacroEntry { name, definition: Some(definition) });
        assert(self.entries@.drop_last() =~= old(self).entries@);
    }

    /// Removes the definition of `name`, if there is one.
    pub fn undefine(&mut self, name: Vec<char>)
        ensures
            final(self)@ == old(self)@.remove(name@),
    {
        self.entries.push(MacroEntry { name, definition: None });
        assert(self.entries@.drop_last() =~= old(self).entries@);
    }

    /// The definition of `name`.
    pub fn get(&self, name: &[char]) -> (r: Option<&MacroDefinition>)
        ensures
            match r {
                Some(d) => self@.contains_key(name@) && self@[name@] == d.model(),
                None => !self@.contains_key(name@),
            },
    {
        let mut k: usize = self.entries.len();
        assert(self.entries@.take(k as int) =~= self.entries@);
        while k > 0
            invariant
                k <= self.entries.len(),
                table_of(self.entries@.take(k as int)).contains_key(name@) == self@.contains_key(
                    name@,
                ),
                self@.contains_key(name@) ==> table_of(self.entries@.take(k as int))[name@]
                    == self@[name@],
            decreases k,
        {
            k -= 1;
            assert(self.entries@.take(k + 1).drop_last() =~= self.entries@.take(k as int));
            assert(self.entries@.take(k + 1).last() == self.entries@[k as int]);
            if same_chars(self.entries[k].name.as_slice(), name) {
                return match &self.entries[k].definition {
                    Some(d) => Some(d),
                    None => None,
                };
            }
        }
        None
    }

    /// Whether `name` is defined.
    pub fn contains(&self, name: &[char]) -> (r: bool)
        ensures
            r == self@.contains_key(name@),
    {
        self.get(name).is_some()
    }
}

/// The argument list of a macro invocation.
pub struct MacroArgs {
    /// Position after the closing parenthesis.
    pub end: int,
    /// The arguments, each without surrounding whitespace.
    pub args: Seq<Seq<char>>,
}

/// Reads arguments from position `i` on. `level` is the parenthesis depth,
/// one directly inside the invocation; the current argument began at
/// `arg_start`; `args` are the arguments before it. A comma at depth one
/// ends an argument, the parenthesis that closes depth one ends the list,
/// and the end of the text ends it without a result.
pub open spec fn scan_args(
    text: Seq<char>,
    i: int,
    level: nat,
    arg_start: int,
    args: Seq<Seq<char>>,
) -> Option<MacroArgs>
    decreases text.len() - i,
{
    if 0 <= i < text.len() {
        let c = text[i];
        if c == ')' {
            if level <= 1 {
                Some(
                    MacroArgs { end: i + 1, args: args.push(trimmed(text.subrange(arg_start, i))) },
                )
            } else {
                scan_args(text, i + 1, (level - 1) as nat, arg_start, args)
            }
        } else if c == '(' {
            scan_args(text, i + 1, level + 1, arg_start, args)
        } else if c == ',' && level == 1 {
            scan_args(text, i + 1, level, i + 1, args.push(trimmed(text.subrange(arg_start, i))))
        } else {
            scan_args(text, i + 1, level, arg_start, args)
        }
    } else {
        None
    }
}

/// The argument list that follows position `start`, for a macro of `count`
/// parameters: optional whitespace, `(`, the arguments, `)`. A macro without
/// parameters takes only whitespace between the parentheses; any other one
/// takes exactly `count` arguments.
pub open spec fn macro_args(text: Seq<char>, start: int, count: nat) -> Option<MacroArgs> {
    let open = skip_whitespace(text, start);
    if 0 <= open < text.len() && text[open] == '(' {
        if count == 0 {
            let close = skip_whitespace(text, open + 1);
            if close < text.len() && text[close] == ')' {
                Some(MacroArgs { end: close + 1, args: Seq::empty() })
            } else {
                None
            }
        } else {
            match scan_args(text, open + 1, 1, open + 1, Seq::empty()) {
                Some(a) => if a.args.len() == count {
                    Some(a)
                } else {
                    None
                },
                None => None,
            }
        }
    } else {
        None
    }
}

/// Reads the argument list of an invocation of a macro with `count`
/// parameters; the macro's name ends at `start`.
pub fn parse_macro_args(text: &[char], start: usize, count: usize) -> (r: Option<
    (usize, Vec<String>),
>)
    requires
        start <= text.len(),
    ensures
        match macro_args(text@, start as int, count as nat) {
            Some(a) => r matches Some(p) && p.0 == a.end && views(p.1@) == a.args && start < p.0
                <= text.len(),
            None => r is None,
        },
{
    let n = text.len();
    let open = skip_whitespace_from(text, start);
    if open >= n || text[open] != '(' {
        return None;
    }
    if count == 0 {
        let close = skip_whitespace_from(text, open + 1);
        if close < n && text[close] == ')' {
            assert(views(Seq::<String>::empty()) =~= Seq::<Seq<char>>::empty());
            return Some((close + 1, Vec::new()));
        } else {
            return None;
        }
    }
    let mut args: Vec<String> = Vec::new();
    let mut level: usize = 1;
    let mut arg_start: usize = open + 1;
    let mut i: usize = open + 1;
    assert(views(args@) =~= Seq::<Seq<char>>::empty());
    while i < n
        invariant
            n == text.len(),
            count > 0,
            start <= open == skip_whitespace(text@, start as int),
            text@[open as int] == '(',
            open < i <= n,
            open < arg_start <= i,
            1 <= level <= i,
            scan_args(text@, i as int, level as nat, arg_start as int, views(args@)) == scan_args(
                text@,
                open + 1,
                1,
                open + 1,
                Seq::empty(),
            ),
        decreases n - i,
    {
        let c = text[i];
        if c == ')' {
            if level <= 1 {
                let ghost before = views(args@);
                let arg = string_of(trim(slice_subrange(text, arg_start, i)));
                args.push(arg);
                assert(views(args@) =~= before.push(trimmed(text@.subrange(arg_start as int, i as int))));
                if args.len() == count {
                    return Some((i + 1, args));
                } else {
                    return None;
                }
            }
            level -= 1;
        } else if c == '(' {
            level += 1;
        } else if c == ',' && level == 1 {
            let ghost before = views(args@);
            let arg = string_of(trim(slice_subrange(text, arg_start, i)));
            args.push(arg);
            assert(views(args@) =~= before.push(trimmed(text@.subrange(arg_start as int, i as int))));
            arg_start = i + 1;
        }
        i += 1;
    }
    None
}

/// One replacement in a text.
pub struct Expansion {
    /// Where the macro's name begins.
    pub start: int,
    /// Where the invocation ends: after the name, or after the argument
    /// list.
    pub end: int,
    /// What takes the invocation's place.
    pub replacement: Seq<char>,
}

/// Whether a run of identifier characters begins at position `p`.
pub open spec fn is_word_start(text: Seq<char>, p: int) -> bool {
    0 <= p < text.len() && is_identifier_char(text[p]) && (p == 0 || !is_identifier_char(
        text[p - 1],
    ))
}

/// The replacement for the word at position `p`, if that word is a whole
/// run of identifier characters and names a macro, and, for a function-like
/// macro, an argument list of the right length follows.
pub open spec fn expansion_at(text: Seq<char>, p: int, macros: Macros) -> Option<Expansion> {
    let end = skip_identifier(text, p);
    let name = text.subrange(p, end);
    if is_word_start(text, p) && macros.contains_key(name) {
        match macros[name].params {
            None => Some(Expansion { start: p, end, replacement: macros[name].body }),
            Some(params) => match macro_args(text, end, params.len()) {
                Some(a) => Some(
                    Expansion {
                        start: p,
                        end: a.end,
                        replacement: substituted(macros[name].body, params, a.args),
                    },
                ),
                None => None,
            },
        }
    } else {
        None
    }
}

/// The leftmost replacement at or after position `from`.
pub open spec fn next_expansion(text: Seq<char>, from: int, macros: Macros) -> Option<Expansion>
    decreases text.len() - from,
{
    if 0 <= from < text.len() {
        match expansion_at(text, from, macros) {
            Some(x) => Some(x),
            None => next_expansion(text, from + 1, macros),
        }
    } else {
        None
    }
}

/// `text` with the part from `start` up to `end` replaced.
pub open spec fn spliced(text: Seq<char>, start: int, end: int, replacement: Seq<char>) -> Seq<
    char,
> {
    text.subrange(0, start) + replacement + text.subrange(end, text.len() as int)
}

/// `text` after the leftmost replacement has been made, again and again,
/// until none is left or `fuel` replacements have been made.
pub open spec fn expanded(text: Seq<char>, macros: Macros, fuel: nat) -> Seq<char>
    decreases fuel,
{
    if fuel == 0 {
        text
    } else {
        match next_expansion(text, 0, macros) {
            Some(x) => expanded(
                spliced(text, x.start, x.end, x.replacement),
                macros,
                (fuel - 1) as nat,
            ),
            None => text,
        }
    }
}

/// Number of replacements that `expanded` makes.
pub open spec fn replacements_made(text: Seq<char>, macros: Macros, fuel: nat) -> nat
    decreases fuel,
{
    if fuel == 0 {
        0
    } else {
        match next_expansion(text, 0, macros) {
            Some(x) => 1 + replacements_made(
                spliced(text, x.start, x.end, x.replacement),
                macros,
                (fuel - 1) as nat,
            ),
            None => 0,
        }
    }
}

/// Expansion does not stop after one level: unless all `fuel` replacements
/// were made, the expanded text holds no invocation that could still be
/// replaced.
pub proof fn lemma_expansion_runs_to_the_end(text: Seq<char>, macros: Macros, fuel: nat)
    ensures
        replacements_made(text, macros, fuel) <= fuel,
        replacements_made(text, macros, fuel) < fuel ==> next_expansion(
            expanded(text, macros, fuel),
            0,
            macros,
        ) is None,
    decreases fuel,
{
    if fuel > 0 {
        match next_expansion(text, 0, macros) {
            Some(x) => {
                lemma_expansion_runs_to_the_end(
                    spliced(text, x.start, x.end, x.replacement),
                    macros,
                    (fuel - 1) as nat,
                );
            },
            None => {},
        }
    }
}

/// `text` with the part from `start` up to `end` replaced.
pub fn splice(text: &[char], start: usize, end: usize, replacement: &[char]) -> (r: Vec<char>)
    requires
        start <= end <= text.len(),
    ensures
        r@ == spliced(text@, start as int, end as int, replacement@),
{
    let mut r: Vec<char> = Vec::new();
    append_chars(&mut r, slice_subrange(text, 0, start));
    append_chars(&mut r, replacement);
    append_chars(&mut r, slice_subrange(text, end, text.len()));
    r
}

/// The replacement for the word at position `p`: the position where the
/// invocation ends and the text that takes its place.
pub fn expand_at(text: &[char], p: usize, table: &MacroTable) -> (r: Option<(usize, Vec<char>)>)
    requires
        p < text.len(),
    ensures
        match expansion_at(text@, p as int, table@) {
            Some(x) => r matches Some(e) && e.0 == x.end && e.1@ == x.replacement && x.start == p
                && p < e.0 <= text.len(),
            None => r is None,
        },
{
    if !char_is_identifier_char(text[p]) || (p > 0 && char_is_identifier_char(text[p - 1])) {
        return None;
    }
    let end = skip_identifier_from(text, p + 1);
    let name = slice_subrange(text, p, end);
    match table.get(name) {
        None => None,
        Some(definition) => {
            match &definition.params {
                None => Some((end, crate::text::copy_chars(definition.body.as_slice()))),
                Some(params) => {
                    match parse_macro_args(text, end, params.len()) {
                        None => None,
                        Some((args_end, args)) => {
                            let body = string_of(definition.body.as_slice());
                            let replaced = substitute(body.as_str(), params, &args);
                            Some((args_end, chars_of(replaced.as_str())))
                        },
                    }
                },
            }
        },
    }
}

/// The leftmost replacement in `text`: where it starts, where it ends and
/// what takes its place.
pub fn find_expansion(text: &[char], table: &MacroTable) -> (r: Option<(usize, usize, Vec<char>)>)
    ensures
        match next_expansion(text@, 0, table@) {
            Some(x) => r matches Some(e) && e.0 == x.start && e.1 == x.end && e.2@ == x.replacement
                && e.0 < e.1 <= text.len(),
            None => r is None,
        },
{
    let mut p: usize = 0;
    while p < text.len()
        invariant
            p <= text.len(),
            next_expansion(text@, p as int, table@) == next_expansion(text@, 0, table@),
        decreases text.len() - p,
    {
        match expand_at(text, p, table) {
            Some((end, replacement)) => {
                return Some((p, end, replacement));
            },
            None => {},
        }
        p += 1;
    }
    None
}

/// Expands the macros of `table` in `text`: the leftmost invocation is
/// replaced, and the whole text is scanned again, until no invocation is
/// left or `MAX_EXPANSIONS` replacements have been made.
pub fn expand_macros(text: &[char], table: &MacroTable) -> (r: Vec<char>)
    ensures
        r@ == expanded(text@, table@, MAX_EXPANSIONS as nat),
{
    let mut current = crate::text::copy_chars(text);
    let mut left: usize = MAX_EXPANSIONS;
    while left > 0
        invariant
            expanded(current@, table@, left as nat) == expanded(
                text@,
                table@,
                MAX_EXPANSIONS as nat,
            ),
        decreases left,
    {
        match find_expansion(current.as_slice(), table) {
            None => {
                return current;
            },
            Some((start, end, replacement)) => {
                current = splice(current.as_slice(), start, end, replacement.as_slice());
                left -= 1;
            },
        }
    }
    current
}

} // verus!
