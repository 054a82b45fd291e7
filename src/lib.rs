//! Verified pieces of a front end for a small Rust-like language: the
//! comment-stripping preprocessor, the lexer, scopes with shadowing, struct
//! literal and method receiver checks, operator precedence, flattened
//! struct layout and the runtime intrinsics; together with the verified
//! logic of the sample programs written in that language: arithmetic,
//! loops with `break` and `continue`, values passed by copy or by
//! reference, methods on arrays of structs, a dynamic programming table
//! and an arena-indexed segment tree.
pub mod arith;
pub mod cfg;
pub mod intrinsics;
pub mod layout;
pub mod lcs;
pub mod lex;
pub mod literal;
pub mod methods;
pub mod operators;
pub mod preprocess;
pub mod receiver;
pub mod records;
pub mod scope;
pub mod segtree;
pub mod semantic;
pub mod types;
