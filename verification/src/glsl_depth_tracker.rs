//! Nesting tracker for `()`, `{}`, `[]` and the three parts of a `for` header.

use vstd::prelude::*;

verus! {

/// ASCII code of `(`.
pub const PAREN_OPEN: u8 = 0x28;

/// ASCII code of `)`.
pub const PAREN_CLOSE: u8 = 0x29;

/// ASCII code of `{`.
pub const BRACE_OPEN: u8 = 0x7b;

/// ASCII code of `}`.
pub const BRACE_CLOSE: u8 = 0x7d;

/// ASCII code of `[`.
pub const BRACKET_OPEN: u8 = 0x5b;

/// ASCII code of `]`.
pub const BRACKET_CLOSE: u8 = 0x5d;

/// ASCII code of `;`.
pub const SEMICOLON: u8 = 0x3b;

/// Depth after one more opening bracket: it grows by one and saturates at
/// the top of the counter's range.
pub open spec fn depth_opened(depth: nat) -> nat {
    if depth < u32::MAX {
        depth + 1
    } else {
        depth
    }
}

/// Depth after one more closing bracket: it shrinks by one and saturates at
/// zero.
pub open spec fn depth_closed(depth: nat) -> nat {
    if depth > 0 {
        (depth - 1) as nat
    } else {
        0
    }
}

/// What a tracker holds.
pub struct DepthModel {
    /// Depth of `{}`.
    pub brace: nat,
    /// Depth of `[]`.
    pub bracket: nat,
    /// Depth of `()`.
    pub paren: nat,
    /// Part of the `for` header being scanned: 0 outside any header,
    /// 1 initialization, 2 condition, 3 increment.
    pub for_part: nat,
}

impl DepthModel {
    /// The tracker outside every bracket and every `for` header.
    pub open spec fn start() -> DepthModel {
        DepthModel { brace: 0, bracket: 0, paren: 0, for_part: 0 }
    }

    /// The state after `byte` was counted as a bracket. Any byte but
    /// `( ) { } [ ]` changes nothing.
    pub open spec fn brackets_updated(self, byte: u8) -> DepthModel {
        if byte == PAREN_OPEN {
            DepthModel { paren: depth_opened(self.paren), ..self }
        } else if byte == PAREN_CLOSE {
            DepthModel { paren: depth_closed(self.paren), ..self }
        } else if byte == BRACE_OPEN {
            DepthModel { brace: depth_opened(self.brace), ..self }
        } else if byte == BRACE_CLOSE {
            DepthModel { brace: depth_closed(self.brace), ..self }
        } else if byte == BRACKET_OPEN {
            DepthModel { bracket: depth_opened(self.bracket), ..self }
        } else if byte == BRACKET_CLOSE {
            DepthModel { bracket: depth_closed(self.bracket), ..self }
        } else {
            self
        }
    }

    /// The state after `byte` was seen by the for-loop tracking: inside a
    /// header a `;` moves on to the next part, up to the third, and a `)`
    /// seen at parenthesis depth zero leaves the header.
    pub open spec fn for_loop_updated(self, byte: u8) -> DepthModel {
        if self.for_part == 0 {
            self
        } else if byte == SEMICOLON && self.for_part < 3 {
            DepthModel { for_part: self.for_part + 1, ..self }
        } else if byte == PAREN_CLOSE && self.paren == 0 {
            DepthModel { for_part: 0, ..self }
        } else {
            self
        }
    }

    /// The state at the start of a `for` header.
    pub open spec fn for_loop_started(self) -> DepthModel {
        DepthModel { for_part: 1, ..self }
    }

    /// Whether all three bracket depths are zero.
    pub open spec fn at_global_scope(self) -> bool {
        self.brace == 0 && self.paren == 0 && self.bracket == 0
    }

    /// Whether the three bracket depths agree with those of `other`.
    pub open spec fn same_depth(self, other: DepthModel) -> bool {
        self.brace == other.brace && self.bracket == other.bracket && self.paren == other.paren
    }
}

/// Nesting depths of the three bracket kinds plus the position inside a
/// `for` header.
///
/// Two trackers are equal when their three bracket depths agree; the
/// for-loop part takes no part in the comparison.
#[derive(Debug, Clone, Copy)]
pub struct GlslDepthTracker {
    brace: u32,
    bracket: u32,
    paren: u32,
    for_loop_part: u8,
}

impl View for GlslDepthTracker {
    type V = DepthModel;

    closed spec fn view(&self) -> DepthModel {
        DepthModel {
            brace: self.brace as nat,
            bracket: self.bracket as nat,
            paren: self.paren as nat,
            for_part: self.for_loop_part as nat,
        }
    }
}

impl GlslDepthTracker {
    /// A tracker outside every bracket and outside any `for` header.
    pub fn new() -> (t: GlslDepthTracker)
        ensures
            t@ == DepthModel::start(),
    {
        GlslDepthTracker { brace: 0, bracket: 0, paren: 0, for_loop_part: 0 }
    }

    /// Counts `byte` if it is one of `( ) { } [ ]`; any other byte leaves the
    /// tracker unchanged.
    pub fn update_brackets(&mut self, byte: u8)
        ensures
            final(self)@ == old(self)@.brackets_updated(byte),
    {
        if byte == PAREN_OPEN {
            self.paren = self.paren.saturating_add(1);
        } else if byte == PAREN_CLOSE {
            self.paren = self.paren.saturating_sub(1);
        } else if byte == BRACE_OPEN {
            self.brace = self.brace.saturating_add(1);
        } else if byte == BRACE_CLOSE {
            self.brace = self.brace.saturating_sub(1);
        } else if byte == BRACKET_OPEN {
            self.bracket = self.bracket.saturating_add(1);
        } else if byte == BRACKET_CLOSE {
            self.bracket = self.bracket.saturating_sub(1);
        }
    }

    /// Advances the for-loop part on `byte`; the bracket depths stay as they
    /// are.
    pub fn update_for_loop(&mut self, byte: u8)
        ensures
            final(self)@ == old(self)@.for_loop_updated(byte),
    {
        if self.for_loop_part > 0 {
            if byte == SEMICOLON && self.for_loop_part < 3 {
                self.for_loop_part = self.for_loop_part + 1;
            } else if byte == PAREN_CLOSE && self.paren == 0 {
                self.for_loop_part = 0;
            }
        }
    }

    /// Whether the tracker is inside at least one `(`.
    pub fn in_parentheses(&self) -> (b: bool)
        ensures
            b == (self@.paren > 0),
    {
        self.paren > 0
    }

    /// Whether the tracker is inside at least one `[`.
    pub fn in_square_brackets(&self) -> (b: bool)
        ensures
            b == (self@.bracket > 0),
    {
        self.bracket > 0
    }

    /// Whether all three bracket depths are zero.
    pub fn at_global_scope(&self) -> (b: bool)
        ensures
            b == self@.at_global_scope(),
    {
        self.brace == 0 && self.paren == 0 && self.bracket == 0
    }

    /// Whether the tracker is in the initialization part of a `for` header.
    pub fn in_for_loop_initialization(&self) -> (b: bool)
        ensures
            b == (self@.for_part == 1),
    {
        self.for_loop_part == 1
    }

    /// Enters the initialization part of a `for` header.
    pub fn start_for_loop_tracking(&mut self)
        ensures
            final(self)@ == old(self)@.for_loop_started(),
    {
        self.for_loop_part = 1;
    }
}

impl Default for GlslDepthTracker {
    /// A tracker outside every bracket and outside any `for` header.
    fn default() -> (t: GlslDepthTracker)
        ensures
            t@ == DepthModel::start(),
    {
        GlslDepthTracker::new()
    }
}

impl PartialEq for GlslDepthTracker {
    /// Whether the three bracket depths agree.
    fn eq(&self, other: &GlslDepthTracker) -> (r: bool) {
        self.brace == other.brace && self.bracket == other.bracket && self.paren == other.paren
    }
}

impl Eq for GlslDepthTracker {}

impl vstd::std_specs::cmp::PartialEqSpecImpl for GlslDepthTracker {
    open spec fn obeys_eq_spec() -> bool {
        true
    }

    open spec fn eq_spec(&self, other: &GlslDepthTracker) -> bool {
        self@.same_depth(other@)
    }
}

} // verus!
