//! Verified core of a compilation database generator: recognising compiler
//! invocations, turning them into compilation database entries, and computing
//! the environment of the intercepted build.

pub mod clang;
pub mod config;
pub mod formatter;
pub mod generic;
pub mod intercept;
pub mod paths;
pub mod semantic;
pub mod source;
pub mod text;
