//! A small compiler pipeline for single-assignment arithmetic statements:
//! a parser, a lowering pass to a flat instruction list, and an interpreter
//! that runs the instructions against a pluggable arithmetic backend.
//!
//! The pipeline, from text to values:
//!
//! - [`grammar`] says what a statement is and [`parser`] reads one;
//!   [`rendering`] shows that every statement can be written down and read
//!   back.
//! - [`translator`] lowers statements to the instructions of [`ir`];
//!   [`labels`] and [`numbering`] say how intermediate values are named.
//! - [`executor`] runs instructions on a [`backend`]; [`discipline`] and
//!   [`agreement`] show that lowered programs are sound input for it, and
//!   [`tracking`], [`evaluation`] and [`masking`] say what they compute.
//! - [`program`] compiles a text of several lines.
//! - [`scheme`] is the toy masking scheme behind [`backend::ToyBackend`].

pub mod agreement;
pub mod ast;
pub mod backend;
pub mod discipline;
pub mod evaluation;
pub mod executor;
pub mod grammar;
pub mod ir;
pub mod labels;
pub mod masking;
pub mod numbering;
pub mod parser;
pub mod program;
pub mod rendering;
pub mod scheme;
pub mod text;
pub mod tracking;
pub mod translator;

pub use ast::{Expr, Statement};
pub use backend::{Backend, PlainBackend, ToyBackend};
pub use executor::{execute, ExecError, Inputs, Outputs};
pub use ir::Op;
pub use parser::{parse_dsl, ParseError};
pub use program::{compile_dsl, CompileError};
pub use scheme::{
    decrypt, encrypt, encrypt_with, homomorphic_add, homomorphic_mul, keygen, PublicKey, SecretKey,
};
pub use translator::{compile_ast, LoweringContext};
