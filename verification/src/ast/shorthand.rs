//! The abstract syntax of the shorthand rule notation: node ids may
//! be elided when they are clear from context, and nodes may nest, as
//! in a term rewriting system.  Naming a node keeps cyclical patterns
//! and data expressible.  A simple flattening turns this form into
//! the canonical one.

use vstd::prelude::*;

use crate::grs::Types;

verus! {

/// A shorthand node: empty, anonymous with arguments, or labeled
/// with an id.
pub enum Node<NodeId, Val> {
    Empty,
    Anon(Vec<Arg<NodeId, Val>>),
    Labeled(NodeId, Vec<Arg<NodeId, Val>>),
}

/// One argument of a shorthand node: a reference to a named node, a
/// labeled value, or a nested subterm with an optional label.
pub enum Arg<NodeId, Val> {
    Ref(NodeId),
    Label(NodeId, Val),
    SubTerm(Option<NodeId>, Box<Node<NodeId, Val>>),
}

/// A shorthand graph: a list of shorthand nodes.
pub struct Graph<NodeId, Val>(pub Vec<Node<NodeId, Val>>);

/// A shorthand rule: a reduction, a redirection, or both.
pub enum Rule<T: Types> {
    Reduce(Graph<T::Var, T::Val>, Graph<T::Var, T::Val>),
    Redirect(Graph<T::Var, T::Val>, (T::Var, T::Var)),
    ReduceAndRedirect(Graph<T::Var, T::Val>, Graph<T::Var, T::Val>, (T::Var, T::Var)),
}

/// A shorthand graph rewriting system: rules in priority order.
pub struct GRS<T: Types>(pub Vec<Rule<T>>);

} // verus!
