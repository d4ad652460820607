//! The macro preprocessor: `#define`, `#undef`, conditionals and `#error`.

use vstd::prelude::*;
use vstd::slice::slice_subrange;

use crate::directives::{condition_holds, evaluate_condition, parse_define, parsed_define};
use crate::error::ShaderError;
use crate::glsl_utils::{strip_comment_chars, stripped};
use crate::macros::{expand_macros, expanded, Macros, MacroTable, MAX_EXPANSIONS};
use crate::text::{
    append_chars, chars_of, copy_chars, equals_str, find_char, find_char_from,
    lemma_find_char_bounds, replace_text, replaced, skip_non_whitespace, skip_non_whitespace_from,
    skip_whitespace, skip_whitespace_from, string_of, trim, trimmed,
};

verus! {

/// Where one `#if` block stands.
#[derive(Clone, Copy, Debug, PartialEq, Eq, Structural)]
pub enum BranchState {
    /// No branch was taken yet.
    Searching,
    /// The current branch is taken.
    Active,
    /// A branch was taken before; the rest is skipped.
    Done,
}

/// Why preprocessing stopped.
pub struct Failure {
    pub message: Seq<char>,
    /// 1-based number of the line of the directive.
    pub line: nat,
}

/// The preprocessor between two lines.
pub struct PassState {
    pub macros: Macros,
    /// One state for each open `#if` block, the innermost last.
    pub stack: Seq<BranchState>,
    /// Number of lines read.
    pub line_number: nat,
    /// Text that is finished.
    pub output: Seq<char>,
    /// Lines that wait for macro expansion.
    pub buffer: Seq<char>,
}

/// Whether lines are copied: outside any block, or in a taken branch.
pub open spec fn is_active(stack: Seq<BranchState>) -> bool {
    stack.len() == 0 || stack.last() == BranchState::Active
}

/// Position of the directive's name in a line that begins with `#`.
pub open spec fn name_start(line: Seq<char>) -> int {
    skip_whitespace(line, 1)
}

/// Position after the directive's name.
pub open spec fn name_end(line: Seq<char>) -> int {
    skip_non_whitespace(line, name_start(line))
}

/// The directive's name: the first word after `#`, if there is one.
pub open spec fn directive_name(line: Seq<char>) -> Option<Seq<char>> {
    if name_start(line) < line.len() {
        Some(line.subrange(name_start(line), name_end(line)))
    } else {
        None
    }
}

/// The word after the directive's name, if there is one.
pub open spec fn second_word(line: Seq<char>) -> Option<Seq<char>> {
    let start = skip_whitespace(line, name_end(line));
    if start < line.len() {
        Some(line.subrange(start, skip_non_whitespace(line, start)))
    } else {
        None
    }
}

/// What follows the directive's name, without surrounding whitespace.
pub open spec fn argument_text(line: Seq<char>) -> Seq<char> {
    trimmed(line.subrange(name_end(line), line.len() as int))
}

/// The state with the waiting lines expanded and moved to the output, if
/// lines are being copied and some wait.
pub open spec fn flushed(st: PassState) -> PassState {
    if is_active(st.stack) && st.buffer.len() > 0 {
        PassState {
            output: st.output + expanded(st.buffer, st.macros, MAX_EXPANSIONS as nat),
            buffer: Seq::empty(),
            ..st
        }
    } else {
        st
    }
}

/// The innermost state after `#else`, or after `#elif` with a condition
/// that holds.
pub open spec fn branch_switched(state: BranchState) -> BranchState {
    match state {
        BranchState::Searching => BranchState::Active,
        BranchState::Active => BranchState::Done,
        BranchState::Done => BranchState::Done,
    }
}

/// The message of an `#error`: the text after the name without a pair of
/// surrounding `"` or `'`, or a fixed text if there is none.
pub open spec fn error_message(line: Seq<char>) -> Seq<char> {
    let m = argument_text(line);
    if m.len() == 0 {
        "Error directive encountered"@
    } else if m.len() >= 2 && ((m.first() == '"' && m.last() == '"') || (m.first() == '\''
        && m.last() == '\'')) {
        m.subrange(1, m.len() - 1)
    } else {
        m
    }
}

/// The stack after an `#ifdef` or `#ifndef` whose test gave `taken`.
pub open spec fn block_opened(stack: Seq<BranchState>, taken: bool) -> Seq<BranchState> {
    stack.push(
        if !is_active(stack) {
            BranchState::Done
        } else if taken {
            BranchState::Active
        } else {
            BranchState::Searching
        },
    )
}

/// The state after the directive `line`, which has no whitespace around it
/// and begins with `#`. `st` is the state after the waiting lines were
/// flushed and the line was counted.
pub open spec fn after_directive(st: PassState, line: Seq<char>) -> Result<PassState, Failure> {
    let active = is_active(st.stack);
    match directive_name(line) {
        None => Ok(st),
        Some(name) => {
            if name == "define"@ {
                match parsed_define(line, name_end(line)) {
                    Some(d) => if active {
                        Ok(PassState { macros: st.macros.insert(d.name, d.definition), ..st })
                    } else {
                        Ok(st)
                    },
                    None => Ok(st),
                }
            } else if name == "undef"@ {
                match second_word(line) {
                    Some(w) => if active {
                        Ok(PassState { macros: st.macros.remove(w), ..st })
                    } else {
                        Ok(st)
                    },
                    None => Ok(st),
                }
            } else if name == "ifdef"@ {
                match second_word(line) {
                    Some(w) => Ok(
                        PassState {
                            stack: block_opened(st.stack, st.macros.contains_key(w)),
                            ..st
                        },
                    ),
                    None => Ok(st),
                }
            } else if name == "ifndef"@ {
                match second_word(line) {
                    Some(w) => Ok(
                        PassState {
                            stack: block_opened(st.stack, !st.macros.contains_key(w)),
                            ..st
                        },
                    ),
                    None => Ok(st),
                }
            } else if name == "if"@ {
                Ok(
                    PassState {
                        stack: block_opened(
                            st.stack,
                            active && condition_holds(argument_text(line), st.macros),
                        ),
                        ..st
                    },
                )
            } else if name == "elif"@ {
                if st.stack.len() == 0 {
                    Ok(st)
                } else if st.stack.last() == BranchState::Searching && !condition_holds(
                    argument_text(line),
                    st.macros,
                ) {
                    Ok(st)
                } else {
                    Ok(
                        PassState {
                            stack: st.stack.drop_last().push(branch_switched(st.stack.last())),
                            ..st
                        },
                    )
                }
            } else if name == "else"@ {
                if st.stack.len() == 0 {
                    Ok(st)
                } else {
                    Ok(
                        PassState {
                            stack: st.stack.drop_last().push(branch_switched(st.stack.last())),
                            ..st
                        },
                    )
                }
            } else if name == "endif"@ {
                if st.stack.len() == 0 {
                    Ok(st)
                } else {
                    Ok(PassState { stack: st.stack.drop_last(), ..st })
                }
            } else if name == "error"@ {
                if active {
                    Err(Failure { message: error_message(line), line: st.line_number })
                } else {
                    Ok(st)
                }
            } else if name == "pragma"@ || name == "extension"@ || name == "version"@ || name
                == "line"@ {
                Ok(st)
            } else {
                Err(
                    Failure {
                        message: "Unknown directive ("@ + name + ")"@,
                        line: st.line_number,
                    },
                )
            }
        },
    }
}

/// The state after one more line of the source, given without its line
/// feed. A line whose first character after whitespace is `#` is a
/// directive: the waiting lines are flushed, then the directive acts. Any
/// other line joins the waiting lines if lines are being copied, and is
/// dropped if not.
pub open spec fn after_line(st: PassState, line: Seq<char>) -> Result<PassState, Failure> {
    let counted = PassState { line_number: st.line_number + 1, ..st };
    let t = trimmed(line);
    if t.len() > 0 && t[0] == '#' {
        after_directive(flushed(counted), t)
    } else if is_active(st.stack) {
        Ok(PassState { buffer: counted.buffer + line + seq!['\n'], ..counted })
    } else {
        Ok(counted)
    }
}

/// The output of the preprocessor that stands at position `pos` of `s` in
/// state `st`: the lines are read one by one, and at the end the waiting
/// lines are expanded and written.
pub open spec fn run_from(s: Seq<char>, pos: int, st: PassState) -> Result<Seq<char>, Failure>
    decreases s.len() + 1 - pos,
{
    if 0 <= pos < s.len() {
        let end = find_char(s, pos, '\n');
        proof {
            lemma_find_char_bounds(s, pos, '\n');
        }
        match after_line(st, s.subrange(pos, end)) {
            Ok(next) => run_from(s, end + 1, next),
            Err(f) => Err(f),
        }
    } else if st.buffer.len() > 0 {
        Ok(st.output + expanded(st.buffer, st.macros, MAX_EXPANSIONS as nat))
    } else {
        Ok(st.output)
    }
}

/// `source` with every line ending turned into a line feed and every
/// backslash before a line feed removed together with the line feed.
pub open spec fn normalized(source: Seq<char>) -> Seq<char> {
    replaced(
        replaced(
            replaced(replaced(source, seq!['\r', '\n'], seq!['\n']), seq!['\n', '\r'], seq!['\n']),
            seq!['\r'],
            seq!['\n'],
        ),
        seq!['\\', '\n'],
        Seq::empty(),
    )
}

/// The state in which preprocessing starts.
pub open spec fn initial_state() -> PassState {
    PassState {
        macros: Map::empty(),
        stack: Seq::empty(),
        line_number: 0,
        output: Seq::empty(),
        buffer: Seq::empty(),
    }
}

/// The preprocessed text of `source`, or the failure that stopped it.
pub open spec fn preprocessed(source: Seq<char>) -> Result<Seq<char>, Failure> {
    run_from(stripped(normalized(source)), 0, initial_state())
}

/// Position at which line number `k` of `s` begins; lines are numbered
/// from one.
pub open spec fn line_start(s: Seq<char>, k: nat) -> int
    decreases k,
{
    if k <= 1 {
        0
    } else {
        find_char(s, line_start(s, (k - 1) as nat), '\n') + 1
    }
}

/// Whether `line` is a directive that stops the preprocessor with `f` when
/// it is the line numbered `f.line`: an `#error` with that message, or a
/// directive of an unknown name.
pub open spec fn stops_with(line: Seq<char>, f: Failure) -> bool {
    let t = trimmed(line);
    &&& t.len() > 0
    &&& t[0] == '#'
    &&& directive_name(t) matches Some(name) && if name == "error"@ {
        f.message == error_message(t)
    } else {
        f.message == "Unknown directive ("@ + name + ")"@
    }
}

/// A line that stops the preprocessor is a directive, and the failure
/// carries the number of that line.
pub proof fn lemma_failure_of_line(st: PassState, line: Seq<char>)
    ensures
        after_line(st, line) matches Err(f) ==> f.line == st.line_number + 1 && stops_with(line, f),
        after_line(st, line) matches Ok(next) ==> next.line_number == st.line_number + 1,
{
}

/// The failure of a run names the line on which it arose: the scan from
/// the start of line `st.line_number + 1` fails with the number of a line
/// at or after it, and that line stops the preprocessor.
pub proof fn lemma_failure_line_from(s: Seq<char>, pos: int, st: PassState)
    requires
        0 <= pos,
        pos == line_start(s, st.line_number + 1),
    ensures
        run_from(s, pos, st) matches Err(f) ==> f.line > st.line_number && 0 <= line_start(
            s,
            f.line,
        ) < s.len() && stops_with(
            s.subrange(line_start(s, f.line), find_char(s, line_start(s, f.line), '\n')),
            f,
        ),
    decreases s.len() + 1 - pos,
{
    if pos < s.len() {
        let end = find_char(s, pos, '\n');
        lemma_find_char_bounds(s, pos, '\n');
        lemma_failure_of_line(st, s.subrange(pos, end));
        match after_line(st, s.subrange(pos, end)) {
            Ok(next) => {
                assert(line_start(s, next.line_number + 1) == end + 1);
                lemma_failure_line_from(s, end + 1, next);
            },
            Err(f) => {},
        }
    }
}

/// An error of the preprocessor carries the number of the line on which its
/// directive stands, counted over the source after line endings were
/// normalized, continuation lines joined and comments stripped.
pub proof fn lemma_error_line_is_exact(source: Seq<char>)
    ensures
        preprocessed(source) matches Err(f) ==> {
            let text = stripped(normalized(source));
            &&& f.line >= 1
            &&& 0 <= line_start(text, f.line) < text.len()
            &&& stops_with(
                text.subrange(
                    line_start(text, f.line),
                    find_char(text, line_start(text, f.line), '\n'),
                ),
                f,
            )
        },
{
    lemma_failure_line_from(stripped(normalized(source)), 0, initial_state());
}

/// The state of one preprocessing pass.
pub struct GlslPreprocessor {
    defines: MacroTable,
    if_stack: Vec<BranchState>,
    line_number: usize,
    output: Vec<char>,
    buffer: Vec<char>,
}

impl View for GlslPreprocessor {
    type V = PassState;

    closed spec fn view(&self) -> PassState {
        PassState {
            macros: self.defines@,
            stack: self.if_stack@,
            line_number: self.line_number as nat,
            output: self.output@,
            buffer: self.buffer@,
        }
    }
}

/// Whether `r` reports the failure `f`.
pub open spec fn reports(r: Result<(), ShaderError>, f: Failure) -> bool {
    r matches Err(ShaderError::PreprocessError(m, l)) && m@ == f.message && l == f.line
}

impl GlslPreprocessor {
    /// A preprocessor that has read nothing.
    pub fn new() -> (p: GlslPreprocessor)
        ensures
            p@ == initial_state(),
    {
        GlslPreprocessor {
            defines: MacroTable::new(),
            if_stack: Vec::new(),
            line_number: 0,
            output: Vec::new(),
            buffer: Vec::new(),
        }
    }

    /// Whether lines are being copied.
    pub fn is_active(&self) -> (b: bool)
        ensures
            b == is_active(self@.stack),
    {
        let n = self.if_stack.len();
        n == 0 || self.if_stack[n - 1] == BranchState::Active
    }

    /// Expands the waiting lines and moves them to the output.
    pub fn flush(&mut self)
        ensures
            final(self)@ == flushed(old(self)@),
    {
        if self.is_active() && self.buffer.len() > 0 {
            let text = expand_macros(self.buffer.as_slice(), &self.defines);
            append_chars(&mut self.output, text.as_slice());
            self.buffer = Vec::new();
        }
    }

    /// Opens a block for `#ifdef`, `#ifndef` and `#if`.
    fn open_block(&mut self, taken: bool)
        ensures
            final(self)@ == (PassState {
                stack: block_opened(old(self)@.stack, taken),
                ..old(self)@
            }),
    {
        let state = if !self.is_active() {
            BranchState::Done
        } else if taken {
            BranchState::Active
        } else {
            BranchState::Searching
        };
        self.if_stack.push(state);
    }

    /// Moves the innermost block on to its next state.
    fn switch_branch(&mut self)
        requires
            old(self)@.stack.len() > 0,
        ensures
            final(self)@ == (PassState {
                stack: old(self)@.stack.drop_last().push(branch_switched(old(self)@.stack.last())),
                ..old(self)@
            }),
    {
        let top = self.if_stack.pop().unwrap();
        let next = match top {
            BranchState::Searching => BranchState::Active,
            BranchState::Active => BranchState::Done,
            BranchState::Done => BranchState::Done,
        };
        self.if_stack.push(next);
        assert(old(self).if_stack@.drop_last() =~= old(self).if_stack@.subrange(
            0,
            old(self).if_stack@.len() - 1,
        ));
    }

    /// Acts on a directive line, which has no whitespace around it and
    /// begins with `#`.
    pub fn handle_directive(&mut self, line: &[char]) -> (r: Result<(), ShaderError>)
        ensures
            match after_directive(old(self)@, line@) {
                Ok(st) => r is Ok && final(self)@ == st,
                Err(f) => reports(r, f),
            },
    {
        let n = line.len();
        if n == 0 {
            return Ok(());
        }
        let start = skip_whitespace_from(line, 1);
        if start >= n {
            return Ok(());
        }
        let end = skip_non_whitespace_from(line, start);
        let name = slice_subrange(line, start, end);
        let word_start = skip_whitespace_from(line, end);
        let word_end = if word_start < n {
            skip_non_whitespace_from(line, word_start)
        } else {
            word_start
        };
        let has_word = word_start < n;
        let active = self.is_active();
        if equals_str(name, "define") {
            if let Some((macro_name, definition)) = parse_define(line, end) {
                if active {
                    self.defines.define(macro_name, definition);
                }
            }
            Ok(())
        } else if equals_str(name, "undef") {
            if has_word && active {
                self.defines.undefine(copy_chars(slice_subrange(line, word_start, word_end)));
            }
            Ok(())
        } else if equals_str(name, "ifdef") {
            if has_word {
                let defined = self.defines.contains(slice_subrange(line, word_start, word_end));
                self.open_block(defined);
            }
            Ok(())
        } else if equals_str(name, "ifndef") {
            if has_word {
                let defined = self.defines.contains(slice_subrange(line, word_start, word_end));
                self.open_block(!defined);
            }
            Ok(())
        } else if equals_str(name, "if") {
            let holds = active && evaluate_condition(
                trim(slice_subrange(line, end, n)),
                &self.defines,
            );
            self.open_block(holds);
            Ok(())
        } else if equals_str(name, "elif") {
            let depth = self.if_stack.len();
            if depth > 0 {
                let searching = self.if_stack[depth - 1] == BranchState::Searching;
                if !(searching && !evaluate_condition(
                    trim(slice_subrange(line, end, n)),
                    &self.defines,
                )) {
                    self.switch_branch();
                }
            }
            Ok(())
        } else if equals_str(name, "else") {
            if self.if_stack.len() > 0 {
                self.switch_branch();
            }
            Ok(())
        } else if equals_str(name, "endif") {
            if self.if_stack.len() > 0 {
                self.if_stack.pop();
                assert(self.if_stack@ =~= old(self).if_stack@.drop_last());
            }
            Ok(())
        } else if equals_str(name, "error") {
            if active {
                let m = trim(slice_subrange(line, end, n));
                let k = m.len();
                let message = if k == 0 {
                    String::from_str("Error directive encountered")
                } else if k >= 2 && ((m[0] == '"' && m[k - 1] == '"') || (m[0] == '\''
                    && m[k - 1] == '\'')) {
                    string_of(slice_subrange(m, 1, k - 1))
                } else {
                    string_of(m)
                };
                Err(ShaderError::PreprocessError(message, self.line_number))
            } else {
                Ok(())
            }
        } else if equals_str(name, "pragma") || equals_str(name, "extension") || equals_str(
            name,
            "version",
        ) || equals_str(name, "line") {
            Ok(())
        } else {
            let mut message = String::from_str("Unknown directive (");
            message.append(string_of(name).as_str());
            message.append(")");
            Err(ShaderError::PreprocessError(message, self.line_number))
        }
    }

    /// Reads one line of the source, given without its line feed.
    pub fn handle_line(&mut self, line: &[char]) -> (r: Result<(), ShaderError>)
        requires
            old(self)@.line_number < usize::MAX,
        ensures
            match after_line(old(self)@, line@) {
                Ok(st) => r is Ok && final(self)@ == st,
                Err(f) => reports(r, f),
            },
    {
        self.line_number = self.line_number + 1;
        let t = trim(line);
        if t.len() > 0 && t[0] == '#' {
            self.flush();
            self.handle_directive(t)
        } else {
            if self.is_active() {
                append_chars(&mut self.buffer, line);
                self.buffer.push('\n');
                assert(self.buffer@ =~= old(self).buffer@ + line@ + seq!['\n']);
            }
            Ok(())
        }
    }

    /// Starts afresh, reads all lines of `source`, which holds neither
    /// comments nor carriage returns, and hands back the finished text.
    pub fn run(&mut self, source: &[char]) -> (r: Result<Vec<char>, ShaderError>)
        ensures
            match run_from(source@, 0, initial_state()) {
                Ok(text) => r matches Ok(v) && v@ == text,
                Err(f) => r matches Err(ShaderError::PreprocessError(m, l)) && m@ == f.message && l
                    == f.line,
            },
    {
        let n = source.len();
        self.defines = MacroTable::new();
        self.if_stack = Vec::new();
        self.line_number = 0;
        self.output = Vec::new();
        self.buffer = Vec::new();
        let mut pos: usize = 0;
        while pos < n
            invariant
                n == source.len(),
                pos <= n,
                self@.line_number <= pos,
                run_from(source@, pos as int, self@) == run_from(source@, 0, initial_state()),
            decreases n - pos,
        {
            let end = find_char_from(source, pos, '\n');
            match self.handle_line(slice_subrange(source, pos, end)) {
                Ok(()) => {},
                Err(e) => {
                    return Err(e);
                },
            }
            assert(run_from(source@, n + 1, self@) == run_from(source@, n as int, self@));
            pos = if end < n {
                end + 1
            } else {
                n
            };
        }
        if self.buffer.len() > 0 {
            let text = expand_macros(self.buffer.as_slice(), &self.defines);
            append_chars(&mut self.output, text.as_slice());
        }
        Ok(copy_chars(self.output.as_slice()))
    }
}

/// Turns every line ending into a line feed and joins lines that end in a
/// backslash with the next one.
pub fn normalize(source: &[char]) -> (r: Vec<char>)
    ensures
        r@ == normalized(source@),
{
    let crlf = vec!['\r', '\n'];
    let lfcr = vec!['\n', '\r'];
    let cr = vec!['\r'];
    let lf = vec!['\n'];
    let continuation = vec!['\\', '\n'];
    let nothing: Vec<char> = Vec::new();
    assert(crlf@ =~= seq!['\r', '\n']);
    assert(lfcr@ =~= seq!['\n', '\r']);
    assert(cr@ =~= seq!['\r']);
    assert(lf@ =~= seq!['\n']);
    assert(continuation@ =~= seq!['\\', '\n']);
    assert(nothing@ =~= Seq::<char>::empty());
    let a = replace_text(source, crlf.as_slice(), lf.as_slice());
    let b = replace_text(a.as_slice(), lfcr.as_slice(), lf.as_slice());
    let c = replace_text(b.as_slice(), cr.as_slice(), lf.as_slice());
    replace_text(c.as_slice(), continuation.as_slice(), nothing.as_slice())
}

/// Runs the preprocessor over a text given as characters.
pub fn preprocess_chars(source: &[char]) -> (r: Result<Vec<char>, ShaderError>)
    ensures
        match preprocessed(source@) {
            Ok(text) => r matches Ok(v) && v@ == text,
            Err(f) => r matches Err(ShaderError::PreprocessError(m, l)) && m@ == f.message && l
                == f.line,
        },
{
    let clean = strip_comment_chars(normalize(source).as_slice());
    let mut preprocessor = GlslPreprocessor::new();
    preprocessor.run(clean.as_slice())
}

/// Expands macros and evaluates conditional directives in `source`.
///
/// The result is the text of the lines in taken branches, macros expanded,
/// without the directive lines; or the error of the first `#error` in a
/// taken branch or of the first directive with an unknown name, with its
/// line number.
pub fn preprocess(source: &str) -> (r: Result<String, ShaderError>)
    ensures
        match preprocessed(source@) {
            Ok(text) => r matches Ok(s) && s@ == text,
            Err(f) => r matches Err(ShaderError::PreprocessError(m, l)) && m@ == f.message && l
                == f.line,
        },
{
    match preprocess_chars(chars_of(source).as_slice()) {
        Ok(v) => Ok(string_of(v.as_slice())),
        Err(e) => Err(e),
    }
}

} // verus!
