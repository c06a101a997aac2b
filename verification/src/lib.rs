//! A retargetable toolkit for graph-shaped intermediate representations.
//!
//! A representation takes part by implementing the contracts of [`compat`]: a module is
//! an arena of functions and an arena of data, a function an arena of values and one
//! terminator. On those contracts stand
//!
//! - the reconstruction of structured control flow: [`compat::tree`] walks the successor
//!   graph of a function and has it shaped, [`compat::ast`] assembles the shaped tree to
//!   statements;
//! - the translation of whole modules: [`pass`] translates every node once, also where
//!   nodes depend on each other in a cycle, and [`pass_old`] does the same for behaviors
//!   that cannot fail;
//! - the projection of values to a representation-independent form ([`compat::stmt`]),
//!   their types ([`compat::typed`]) and the making of calls ([`compat::call`]).
//!
//! [`ir`] is a plain representation that implements the contracts; [`compat::waffle`]
//! holds a WebAssembly-shaped one as plain data, with the operations on it.
pub mod compat;
pub mod ir;
pub mod pass;
pub mod pass_old;
pub mod utils;

pub use crate::ir::{Arena, Fun, Module, Params, ValueDef, ValueRef};
