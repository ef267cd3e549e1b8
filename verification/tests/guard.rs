//! Configuration values and include-guard wrapping.
use single_header::args::{base_args, Lang, Preprocessor, Protection};
use single_header::errors::Error;
use single_header::utils::merge;

#[test]
fn preprocessor_names() {
    assert_eq!(Preprocessor::Cpp.as_str(), "cpp");
    assert_eq!(Preprocessor::Gcc.as_str(), "gcc");
    assert_eq!(Preprocessor::Clang.as_str(), "clang");
}

#[test]
fn preprocessor_required_args() {
    assert_eq!(Preprocessor::Cpp.required_args(), Vec::<&str>::new());
    assert_eq!(Preprocessor::Gcc.required_args(), vec!["-E"]);
    assert_eq!(Preprocessor::Clang.required_args(), vec!["-E"]);
}

#[test]
fn lang_names() {
    assert_eq!(Lang::C.as_str(), "c");
    assert_eq!(Lang::Cpp.as_str(), "c++");
}

#[test]
fn base_args_order() {
    let args = base_args(Preprocessor::Gcc.required_args(), Lang::Cpp);
    assert_eq!(args, vec!["-E", "-x", "c++", "-fdirectives-only"]);
    let args_c = base_args(Preprocessor::Cpp.required_args(), Lang::C);
    assert_eq!(args_c, vec!["-x", "c", "-fdirectives-only"]);
}

#[test]
fn merge_concatenates_in_order() {
    assert_eq!(merge(vec![1, 2], vec![3]), vec![1, 2, 3]);
    assert_eq!(merge(Vec::<u8>::new(), vec![7]), vec![7]);
}

#[test]
fn pragma_once_wraps_in_front() {
    let body = vec!["int x;".to_string(), "int y;".to_string()];
    let out = Protection::Once.protect(body, "foo.h".to_string());
    assert_eq!(out, vec!["#pragma once", "int x;", "int y;"]);
}

#[test]
fn ifndef_guard_uses_sanitized_uppercase_name() {
    let body = vec!["int x;".to_string()];
    let out = Protection::Ifndef.protect(body, "my-header.v2.h".to_string());
    assert_eq!(
        out,
        vec![
            "#ifndef MY_HEADER_V2_H_SINGLE_HEADER",
            "# define MY_HEADER_V2_H_SINGLE_HEADER",
            "int x;",
            "#endif // MY_HEADER_V2_H_SINGLE_HEADER",
        ]
    );
}

#[test]
fn ifndef_guard_on_empty_body() {
    let out = Protection::Ifndef.protect(Vec::new(), "a.h".to_string());
    assert_eq!(
        out,
        vec!["#ifndef A_H_SINGLE_HEADER", "# define A_H_SINGLE_HEADER", "#endif // A_H_SINGLE_HEADER"]
    );
}

#[test]
fn error_descriptions_name_the_cause() {
    assert_eq!(
        Error::MissingCommandEntry.describe(),
        "compile_commands.json: no command or arguments"
    );
    assert_eq!(
        Error::PathNotFound { filename: "f.h".to_string() }.describe(),
        "include file in preprocessor output does not exist: f.h"
    );
    assert_eq!(
        Error::NotInSearchPaths { path: "/p".to_string() }.describe(),
        "path is not in search paths: /p"
    );
}
