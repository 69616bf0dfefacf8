//! The abstract syntax of a canonical graph rewriting system: every
//! node carries an explicit identifier, a value and a flat argument
//! list.  Shorthand notation is flattened to this form before a
//! concrete system is built from it.

use vstd::prelude::*;

use crate::grs::Types;

verus! {

/// One canonical node: its identifier, its value, and its arguments
/// by identifier.
pub struct Node<NodeId, Val>(pub NodeId, pub Val, pub Vec<NodeId>);

/// A canonical graph: a flat list of nodes.
pub struct Graph<NodeId, Val>(pub Vec<Node<NodeId, Val>>);

/// A canonical rule: redex and contractum patterns over pattern
/// variables, and a redirection pair.
pub struct Rule<T: Types> {
    pub redex: Graph<T::Var, T::Val>,
    pub contractum: Graph<T::Var, T::Val>,
    pub redirection: (T::Var, T::Var),
}

/// A canonical graph rewriting system: rules in priority order.
pub struct GRS<T: Types>(pub Vec<Rule<T>>);

} // verus!
