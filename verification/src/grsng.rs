//! Rules in canonical form, anchored at the graph root.
//!
//! A [`CanonicalRule`] couples the same three parts as
//! [`crate::grs::Rule`] — redex, contractum and redirection — but its
//! operations always start at the data graph's root rather than at a
//! caller-chosen node: `matches` asks whether the redex matches the
//! root, and `rewrite` applies the whole rule there, reporting success
//! as a plain boolean.

use vstd::prelude::*;

use crate::grs::DataGraph;
use crate::grs::Mapping;
use crate::grs::NodeId;
use crate::grs::Pattern;
use crate::grs::PatternVar;
use crate::grs::Rule;
use crate::grs::reduce_effect;
use crate::grs::rule_applicable;
use crate::grs::rule_match_spec;

verus! {

/// A rewrite rule in canonical form: applied only at the graph root.
pub struct CanonicalRule {
    rule: Rule,
}

impl CanonicalRule {
    /// The underlying rule.
    pub closed spec fn rule_of(self) -> Rule {
        self.rule
    }

    /// See [`Rule::wf`].
    pub open spec fn wf(self) -> bool {
        self.rule_of().wf()
    }

    /// Couples a redex, a contractum and a redirection into a
    /// canonical rule; refuses an empty redex.
    pub fn new(redex: Pattern, contractum: Pattern, redirection: (PatternVar, PatternVar))
        -> (r: Option<CanonicalRule>)
        requires
            redex.wf(),
            contractum.wf(),
        ensures
            r is Some <==> redex.size() > 0,
            r matches Some(cr) ==> cr.wf()
                && cr.rule_of().redex_of() == redex
                && cr.rule_of().contractum_of() == contractum
                && cr.rule_of().redirection_of() == redirection,
    {
        match Rule::new(redex, contractum, redirection) {
            Some(rule) => Some(CanonicalRule { rule }),
            None => None,
        }
    }

    /// If the redex matches the subgraph rooted at the graph's root,
    /// returns the binding table of the match; `None` otherwise.  The
    /// graph is never touched.
    pub fn matches(&self, data: &DataGraph) -> (r: Option<Mapping>)
        requires
            self.wf(),
            data.wf(),
            data.node_count() > 0,
        ensures
            match rule_match_spec(self.rule_of(), *data, NodeId(0)) {
                Some(mm) => r matches Some(m) && m.model() == mm
                    && m@.len() == self.rule_of().redex_of().var_limit(),
                None => r is None,
            },
    {
        let node = data.root();
        self.rule.matches(data, node)
    }

    /// Tries to apply the whole rule at the graph's root: match,
    /// instantiate the contractum, redirect.  Returns `true` on
    /// success; on failure the graph is bit-for-bit unchanged.
    pub fn rewrite(&self, data: &mut DataGraph) -> (b: bool)
        requires
            self.wf(),
            old(data).wf(),
            old(data).node_count() > 0,
        ensures
            final(data).wf(),
            b == rule_applicable(self.rule_of(), *old(data), NodeId(0)),
            b ==> reduce_effect(self.rule_of(), *old(data), *final(data), NodeId(0)),
            !b ==> *final(data) == *old(data),
    {
        let node = data.root();
        match self.rule.reduce(data, node) {
            Some(()) => true,
            None => false,
        }
    }
}

} // verus!
