//! Reconstruction of a portable single-header source file from the
//! annotated output of a C/C++ preprocessor.
//!
//! The preprocessor is run elsewhere, in a mode that evaluates
//! conditional compilation but not macro expansion, and marks every
//! change of logical source file with a line-marker directive. This
//! crate holds the engine that interprets that marker stream: it decides,
//! line by line, whether to pass content through, suppress it, or replace
//! a system header's expansion with a synthesized `#include` directive.

pub mod args;
pub mod cmake;
pub mod errors;
pub mod include_line;
pub mod inline_paths;
pub mod laws;
pub mod line_zero;
pub mod paths;
pub mod process;
pub mod system_paths;
pub mod text;
pub mod utils;
