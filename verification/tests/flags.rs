//! Flag recovery from compilation-database records.
use single_header::cmake::{cmake_options, CompileCommand};
use single_header::errors::Error;

fn record(
    file: &str,
    command: Option<&str>,
    arguments: Option<&[&str]>,
) -> CompileCommand {
    CompileCommand {
        directory: "/tmp".to_string(),
        command: command.map(|c| c.to_string()),
        arguments: arguments.map(|a| a.iter().map(|s| s.to_string()).collect()),
        file: file.to_string(),
        output: "out.o".to_string(),
    }
}

#[test]
fn keeps_only_preprocessing_arguments() {
    let cmds = vec![record(
        "/src/a.c",
        None,
        Some(&[
            "gcc",
            "-I/usr/include",
            "-D",
            "FOO=1",
            "-o",
            "out.o",
            "-std=c++17",
            "-Wall",
            "/src/a.c",
        ]),
    )];
    let flags = cmake_options(cmds, "/src/a.c").expect("flags");
    assert_eq!(flags, vec!["-I/usr/include", "-D", "FOO=1", "-std=c++17"]);
}

#[test]
fn exact_option_takes_the_following_token() {
    let cmds = vec![record(
        "/src/a.c",
        None,
        Some(&["-I", "/first", "-isystem", "/second", "-U", "NDEBUG"]),
    )];
    let flags = cmake_options(cmds, "/src/a.c").expect("flags");
    assert_eq!(flags, vec!["-I", "/first", "-isystem", "/second", "-U", "NDEBUG"]);
}

#[test]
fn command_string_is_split_into_words() {
    let cmds = vec![record("/src/a.c", Some("gcc -I /inc -DBAR=2 'a b' -iquote/q a.c"), None)];
    let flags = cmake_options(cmds, "/src/a.c").expect("flags");
    assert_eq!(flags, vec!["-I", "/inc", "-DBAR=2", "-iquote/q"]);
}

#[test]
fn unparseable_command_string_is_fatal() {
    let cmds = vec![record("/src/a.c", Some("gcc 'unclosed -I/x"), None)];
    let r = cmake_options(cmds, "/src/a.c");
    assert_eq!(
        r,
        Err(Error::CommandParseFailed { command: "gcc 'unclosed -I/x".to_string() })
    );
}

#[test]
fn record_without_command_or_arguments_is_fatal() {
    let cmds = vec![record("/src/a.c", None, None)];
    let r = cmake_options(cmds, "/src/a.c");
    assert_eq!(r, Err(Error::MissingCommandEntry));
}

#[test]
fn missing_record_yields_no_flags() {
    let cmds = vec![record("/src/other.c", None, Some(&["-I/x"]))];
    let flags = cmake_options(cmds, "/src/a.c").expect("flags");
    assert_eq!(flags, Vec::<String>::new());
}

#[test]
fn first_matching_record_wins() {
    let cmds = vec![
        record("/src/b.c", None, Some(&["-I/ignored"])),
        record("/src/a.c", None, Some(&["-I/first"])),
        record("/src/a.c", None, Some(&["-I/second"])),
    ];
    let flags = cmake_options(cmds, "/src/a.c").expect("flags");
    assert_eq!(flags, vec!["-I/first"]);
}

#[test]
fn arguments_list_wins_over_command_string() {
    let cmds = vec![record("/src/a.c", Some("gcc -I/from-command a.c"), Some(&["-I/from-args"]))];
    let flags = cmake_options(cmds, "/src/a.c").expect("flags");
    assert_eq!(flags, vec!["-I/from-args"]);
}
