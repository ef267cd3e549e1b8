//! The builtin-preamble filter, fed directive by directive.
use single_header::include_line::{FlagStatus, IncludeDirective, IncludeState};
use single_header::line_zero::LineZeroState;

fn directive(linenum: u32, status: FlagStatus) -> IncludeDirective {
    IncludeDirective {
        linenum,
        filename: "x".to_string(),
        state: IncludeState { status, system_header: false, extern_c: false },
    }
}

#[test]
fn starts_outside_the_builtin_block() {
    let s = LineZeroState::new();
    assert!(!s.ignore_line());
}

#[test]
fn nonzero_line_outside_is_not_consumed() {
    let mut s = LineZeroState::new();
    let skip = s.feed(&directive(5, FlagStatus::Open));
    assert!(!skip.0);
    assert!(!s.ignore_line());
}

#[test]
fn line_zero_enters_the_builtin_block() {
    let mut s = LineZeroState::new();
    let skip = s.feed(&directive(0, FlagStatus::NotSet));
    assert!(skip.0);
    assert!(s.ignore_line());
}

#[test]
fn only_a_leave_ends_the_builtin_block() {
    let mut s = LineZeroState::new();
    assert!(s.feed(&directive(0, FlagStatus::NotSet)).0);
    // Inside: every directive is consumed, whatever its line number.
    assert!(s.feed(&directive(0, FlagStatus::Open)).0);
    assert!(s.feed(&directive(7, FlagStatus::NotSet)).0);
    assert!(s.ignore_line());
    // The closing directive is consumed too, and ends the block.
    assert!(s.feed(&directive(0, FlagStatus::Close)).0);
    assert!(!s.ignore_line());
    // Afterwards processing resumes normally.
    assert!(!s.feed(&directive(3, FlagStatus::Open)).0);
}
