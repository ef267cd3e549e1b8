//! The directive parser on concrete lines.
use single_header::include_line::{try_parse, FlagStatus, IncludeState};

#[test]
fn parses_enter_system_header() {
    let d = try_parse("# 1 \"/usr/include/stdio.h\" 1 3").expect("directive");
    assert_eq!(d.linenum, 1);
    assert_eq!(d.filename, "/usr/include/stdio.h");
    assert!(matches!(d.state.status, FlagStatus::Open));
    assert!(d.state.system_header);
    assert!(!d.state.extern_c);
}

#[test]
fn parses_leave() {
    let d = try_parse("# 12 \"/a/b.h\" 2").expect("directive");
    assert_eq!(d.linenum, 12);
    assert!(matches!(d.state.status, FlagStatus::Close));
    assert!(!d.state.system_header);
}

#[test]
fn parses_no_flags_as_ignorable() {
    let d = try_parse("# 42 \"foo.c\"").expect("directive");
    assert_eq!(d.linenum, 42);
    assert_eq!(d.filename, "foo.c");
    assert!(d.state.ignorable());
}

#[test]
fn parses_extern_c_flag() {
    let d = try_parse("# 3 \"x.h\" 1 3 4").expect("directive");
    assert!(matches!(d.state.status, FlagStatus::Open));
    assert!(d.state.system_header);
    assert!(d.state.extern_c);
}

#[test]
fn unknown_flag_values_are_ignored() {
    let d = try_parse("# 1 \"f\" 7 3").expect("directive");
    assert!(matches!(d.state.status, FlagStatus::NotSet));
    assert!(d.state.system_header);
}

#[test]
fn last_transition_flag_wins() {
    let d = try_parse("# 1 \"f\" 1 2").expect("directive");
    assert!(matches!(d.state.status, FlagStatus::Close));
}

#[test]
fn tight_whitespace_is_accepted() {
    let d = try_parse("#1\"f\"1").expect("directive");
    assert_eq!(d.linenum, 1);
    assert_eq!(d.filename, "f");
    assert!(matches!(d.state.status, FlagStatus::Open));
}

#[test]
fn plain_content_is_not_a_directive() {
    assert!(try_parse("int x = 0;").is_none());
    assert!(try_parse("").is_none());
    assert!(try_parse("#").is_none());
    assert!(try_parse("# x \"f\"").is_none());
    assert!(try_parse("# 1 'f'").is_none());
    assert!(try_parse("#define FOO 1").is_none());
}

#[test]
fn synthesized_include_is_not_a_directive() {
    assert!(try_parse("#include <vector>").is_none());
    assert!(try_parse("#include <bits/stdc++.h>").is_none());
}

#[test]
fn unterminated_quote_is_plain_content() {
    assert!(try_parse("# 1 \"unterminated").is_none());
}

#[test]
fn garbage_after_flags_is_plain_content() {
    assert!(try_parse("# 1 \"f\" 3x").is_none());
    assert!(try_parse("# 1 \"f\" 1 two").is_none());
}

#[test]
fn huge_line_number_is_clipped() {
    let d = try_parse("# 99999999999999999999 \"f\"").expect("directive");
    assert_eq!(d.linenum, u32::MAX);
}

#[test]
fn fresh_state_is_ignorable() {
    let s = IncludeState::new();
    assert!(matches!(s.status, FlagStatus::NotSet));
    assert!(!s.system_header);
    assert!(!s.extern_c);
    assert!(s.ignorable());
}
