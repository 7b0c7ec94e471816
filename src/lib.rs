//! Views over null-terminated strings handed out by LLVM's C API, and an
//! owning wrapper for the ones that must be released.

mod string;

pub use string::{llvm_str, Str, String};
