//! Abstract syntax for writing down graph rewriting systems: the
//! [`canonical`] form with explicit node ids, and the [`shorthand`]
//! notation that elides ids and nests nodes.

pub mod canonical;
pub mod shorthand;
