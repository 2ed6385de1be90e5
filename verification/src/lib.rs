//! The middle stage of a small C compiler: a tree-shaped syntax tree is lowered
//! into a graph of basic blocks, with canonical (interned) types and layouts.
//!
//! - [`ast`] is the syntax tree that comes in, [`ir`] the representation that
//!   goes out, with [`ir::visit`] to walk over it; [`ty`] holds the types.
//! - [`lower::cx`] is the interner, [`lower::builder`] the builder of one
//!   function's blocks, and [`lower`] the pass itself.
//! - [`lower::model`] says what the pass computes, as mathematical functions,
//!   and [`lower::laws`] what holds of that whatever is lowered.
//! - [`lower::backing`] holds what is taken on trust of the arena and the hash
//!   tables underneath.
//!
//! The pass never aborts: what it cannot lower it reports as an [`error::Error`].

pub mod ast;
pub mod error;
pub mod ir;
pub mod lower;
pub mod span;
pub mod ty;
