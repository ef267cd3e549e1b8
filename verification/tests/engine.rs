//! Whole passes of the reconstruction engine over concrete line
//! streams, with the indices built from directories that exist on this
//! machine.
use single_header::errors::Error;
use single_header::inline_paths::InlinePaths;
use single_header::process::process_lines;
use single_header::system_paths::SearchPaths;

fn search_paths_of(dirs: &[&str]) -> SearchPaths {
    let mut lines: Vec<String> = Vec::new();
    lines.push("ignored preamble".to_string());
    lines.push("#include <...> search starts here:".to_string());
    for d in dirs {
        lines.push(format!(" {d}"));
    }
    lines.push("End of search list.".to_string());
    SearchPaths::new(lines).expect("search directories must exist")
}

fn no_inline() -> InlinePaths {
    InlinePaths::new(Vec::new()).expect("empty inline set")
}

fn strings(lines: &[&str]) -> Vec<String> {
    lines.iter().map(|l| l.to_string()).collect()
}

#[test]
fn plain_input_passes_through_unchanged() {
    let sp = search_paths_of(&["/opt/verus"]);
    let out = process_lines(
        strings(&["int a;", "", "struct S {};", "a b c"]),
        sp,
        no_inline(),
    )
    .expect("run");
    assert_eq!(out, vec!["int a;", "", "struct S {};", "a b c"]);
}

#[test]
fn system_header_becomes_one_include_line() {
    let sp = search_paths_of(&["/opt/verus", "/opt/verus/vstd"]);
    let out = process_lines(
        strings(&[
            "before",
            "# 1 \"/opt/verus/vstd/seq.rs\" 1 3",
            "hidden line one",
            "hidden line two",
            "# 5 \"/opt/verus\" 2",
            "after",
        ]),
        sp,
        no_inline(),
    )
    .expect("run");
    // The deeper search directory wins: the name is relative to it.
    assert_eq!(out, vec!["before", "#include <seq.rs>", "after"]);
}

#[test]
fn shallower_directory_used_when_deeper_does_not_cover() {
    let sp = search_paths_of(&["/opt", "/opt/verus"]);
    let out = process_lines(
        strings(&[
            "# 1 \"/opt/verus/vstd/seq.rs\" 1 3",
            "hidden",
            "# 5 \"/opt/verus\" 2",
        ]),
        sp,
        no_inline(),
    )
    .expect("run");
    assert_eq!(out, vec!["#include <vstd/seq.rs>"]);
}

#[test]
fn nested_system_header_stays_hidden() {
    let sp = search_paths_of(&["/opt/verus/vstd"]);
    let out = process_lines(
        strings(&[
            "# 1 \"/opt/verus/vstd/seq.rs\" 1 3",
            "outer hidden",
            "# 1 \"/opt/verus/vstd/set.rs\" 1 3",
            "inner hidden",
            "# 7 \"/opt/verus/vstd/seq.rs\" 2",
            "outer hidden again",
            "# 9 \"/opt/verus\" 2",
            "visible tail",
        ]),
        sp,
        no_inline(),
    )
    .expect("run");
    // Only the outer replacement appears.
    assert_eq!(out, vec!["#include <seq.rs>", "visible tail"]);
}

#[test]
fn inline_override_keeps_content_expanded() {
    let sp = search_paths_of(&["/opt/verus"]);
    let inline = InlinePaths::new(vec!["/opt/verus/vstd".to_string()]).expect("inline path");
    let out = process_lines(
        strings(&[
            "# 1 \"/opt/verus/vstd/seq.rs\" 1 3",
            "kept content",
            "# 5 \"/opt/verus\" 2",
            "tail",
        ]),
        sp,
        inline,
    )
    .expect("run");
    // No synthesized include; the header's own lines survive.
    assert_eq!(out, vec!["kept content", "tail"]);
}

#[test]
fn builtin_preamble_is_dropped_whole() {
    let sp = search_paths_of(&["/opt/verus"]);
    let out = process_lines(
        strings(&[
            "# 0 \"<built-in>\"",
            "#define __STDC__ 1",
            "# 0 \"<command-line>\"",
            "# 0 \"<built-in>\" 2",
            "visible",
        ]),
        sp,
        no_inline(),
    )
    .expect("run");
    assert_eq!(out, vec!["visible"]);
}

#[test]
fn unmatched_leave_is_ignored() {
    let sp = search_paths_of(&["/opt/verus"]);
    let out = process_lines(
        strings(&["a", "# 1 \"/opt/verus\" 2", "b"]),
        sp,
        no_inline(),
    )
    .expect("run");
    assert_eq!(out, vec!["a", "b"]);
}

#[test]
fn reconstruction_is_idempotent_on_its_output() {
    let input = strings(&[
        "before",
        "# 1 \"/opt/verus/vstd/seq.rs\" 1 3",
        "hidden",
        "# 5 \"/opt/verus\" 2",
        "after",
    ]);
    let first = process_lines(input, search_paths_of(&["/opt/verus"]), no_inline())
        .expect("first run");
    let second = process_lines(
        first.clone(),
        search_paths_of(&["/opt/verus"]),
        no_inline(),
    )
    .expect("second run");
    assert_eq!(second, first);
}

#[test]
fn unresolvable_directive_path_is_fatal() {
    let sp = search_paths_of(&["/opt/verus"]);
    let r = process_lines(
        strings(&["# 1 \"/no/such/file/anywhere.h\" 1"]),
        sp,
        no_inline(),
    );
    assert_eq!(
        r,
        Err(Error::PathNotFound { filename: "/no/such/file/anywhere.h".to_string() })
    );
}

#[test]
fn replaceable_header_outside_search_paths_is_fatal() {
    let sp = search_paths_of(&["/opt/verus"]);
    let r = process_lines(strings(&["# 1 \"/etc/hostname\" 1 3"]), sp, no_inline());
    assert_eq!(r, Err(Error::NotInSearchPaths { path: "/etc/hostname".to_string() }));
}

#[test]
fn local_header_content_is_kept() {
    // Enter without the system-header flag: nothing synthesized, body kept.
    let sp = search_paths_of(&["/opt/verus"]);
    let out = process_lines(
        strings(&[
            "# 1 \"/etc/hostname\" 1",
            "local content",
            "# 5 \"/opt/verus\" 2",
        ]),
        sp,
        no_inline(),
    )
    .expect("run");
    assert_eq!(out, vec!["local content"]);
}

#[test]
fn pure_line_marker_is_dropped() {
    let sp = search_paths_of(&["/opt/verus"]);
    let out = process_lines(
        strings(&["a", "# 10 \"/does/not/need/to/exist.h\"", "b"]),
        sp,
        no_inline(),
    )
    .expect("run");
    assert_eq!(out, vec!["a", "b"]);
}

#[test]
fn cleanup_path_strips_deepest_ancestor() {
    let sp = search_paths_of(&["/opt/verus", "/opt/verus/vstd"]);
    let name = sp.cleanup_path("/opt/verus/vstd/seq.rs").expect("covered");
    assert_eq!(name, "seq.rs");
    let name2 = sp.cleanup_path("/opt/verus/source/x.rs").expect("covered");
    assert_eq!(name2, "source/x.rs");
}

#[test]
fn cleanup_path_fails_outside_every_search_directory() {
    let sp = search_paths_of(&["/opt/verus/vstd"]);
    let r = sp.cleanup_path("/etc/hostname");
    assert_eq!(r, Err(Error::NotInSearchPaths { path: "/etc/hostname".to_string() }));
}

#[test]
fn search_listing_stops_at_end_marker() {
    // The directory after the end marker does not exist; it must not be
    // read, or construction would fail.
    let lines = strings(&[
        "#include <...> search starts here:",
        " /opt/verus",
        "End of search list.",
        " /no/such/search/dir",
    ]);
    let sp = SearchPaths::new(lines).expect("listing ends at the marker");
    assert!(sp.cleanup_path("/opt/verus/vstd/seq.rs").is_ok());
}

#[test]
fn search_listing_ignores_lines_before_start_marker() {
    let lines = strings(&[
        " /no/such/search/dir",
        "#include <...> search starts here:",
        " /opt/verus",
        "End of search list.",
    ]);
    let sp = SearchPaths::new(lines).expect("only the bracketed lines count");
    assert!(sp.cleanup_path("/opt/verus/vstd/seq.rs").is_ok());
}

#[test]
fn nonexistent_search_directory_is_fatal() {
    let lines = strings(&[
        "#include <...> search starts here:",
        " /no/such/search/dir",
        "End of search list.",
    ]);
    let r = SearchPaths::new(lines);
    assert_eq!(
        r.err(),
        Some(Error::SearchPathInvalid { path: "/no/such/search/dir".to_string() })
    );
}

#[test]
fn inline_paths_cover_themselves_and_descendants() {
    let ip = InlinePaths::new(vec!["/opt/verus/vstd".to_string()]).expect("exists");
    assert!(ip.should_inline("/opt/verus/vstd"));
    assert!(ip.should_inline("/opt/verus/vstd/seq.rs"));
    assert!(!ip.should_inline("/opt/verus"));
    assert!(!ip.should_inline("/opt/verus/vstd2"));
}

#[test]
fn nonexistent_inline_path_is_fatal() {
    let r = InlinePaths::new(vec!["/no/such/inline/path".to_string()]);
    assert_eq!(
        r.err(),
        Some(Error::InlinePathInvalid { path: "/no/such/inline/path".to_string() })
    );
}
