//! Lowering passes: rewrites of a stub that make its commands legal in a
//! family of target languages.

pub mod init_read_declarations;
pub mod lisp_like;
pub mod order;
