//! A code-completion resolver for an Unreal-flavored C++ dialect: given a
//! parsed source buffer, a cursor position, and a read-only symbol database,
//! it assembles the member symbols that are valid at that position.

pub mod chars;
pub mod clean;
pub mod db;
pub mod infer;
pub mod outside;
pub mod resolve;
pub mod tree;
