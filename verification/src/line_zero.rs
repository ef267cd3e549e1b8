//! The builtin-preamble filter: a two-state machine that drops the
//! synthetic line-0 block most preprocessors emit at program start to
//! declare builtin macros, bracketed by its own enter/leave markers.
use vstd::prelude::*;

use crate::include_line::{FlagStatus, IncludeDirective};

verus! {

/// Whether the current position lies inside the compiler's synthetic
/// line-0 block.
pub struct LineZeroState {
    in_line_zero: bool,
}

/// Whether the directive just fed was consumed by the filter.
pub struct Skip(pub bool);

/// What feeding a directive does to the filter: outside the builtin
/// block, a line number of zero enters it; inside, a closing directive
/// leaves it.
pub open spec fn line_zero_next(inside: bool, line_number_zero: bool, status: FlagStatus) -> bool {
    if inside {
        !(status is Close)
    } else {
        line_number_zero
    }
}

/// Whether the directive fed in that position is suppressed.
pub open spec fn line_zero_skip(inside: bool, line_number_zero: bool) -> bool {
    inside || line_number_zero
}

impl LineZeroState {
    /// The position inside the builtin block, as the contracts speak of
    /// it.
    pub closed spec fn inside(&self) -> bool {
        self.in_line_zero
    }

    /// Starts outside the builtin block.
    pub fn new() -> (r: LineZeroState)
        ensures
            !r.inside(),
    {
        LineZeroState { in_line_zero: false }
    }

    /// While inside the builtin block, every plain line is suppressed.
    pub fn ignore_line(&self) -> (r: bool)
        ensures
            r == self.inside(),
    {
        self.in_line_zero
    }

    /// Feeds one directive through the filter.
    pub fn feed(&mut self, include_info: &IncludeDirective) -> (r: Skip)
        ensures
            r.0 == line_zero_skip(old(self).inside(), include_info.linenum == 0),
            final(self).inside() == (if r.0 {
                line_zero_next(
                    old(self).inside(),
                    include_info.linenum == 0,
                    include_info.state.status,
                )
            } else {
                old(self).inside()
            }),
    {
        if include_info.linenum != 0 && !self.in_line_zero {
            return Skip(false);
        }
        if !self.in_line_zero {
            self.in_line_zero = true;
        } else if matches!(include_info.state.status, FlagStatus::Close) {
            self.in_line_zero = false;
        }
        Skip(true)
    }
}

} // verus!
