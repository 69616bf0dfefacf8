//! A toy term rewriting system.
//!
//! A [`Term`] is a tree of constants, variables and subterms; a
//! [`Rule`] pairs a left-hand side — a head constant and its argument
//! terms — with a right-hand side; a [`TermReductionSystem`] is a list
//! of rules.  The one operation is the left-normality scan
//! [`Rule::is_left_normal`], which walks a rule's left-hand side and
//! checks that no constant follows once a variable has been seen.

use vstd::prelude::*;

use crate::grs::Types;

verus! {

broadcast use vstd::std_specs::vec::axiom_vec_index_decreases;

/// A term: a variable, a constant, or a constant applied to subterms.
#[derive(Debug)]
#[verifier::reject_recursive_types(T)]
pub enum Term<T: Types> {
    Var(T::Sym),
    Const(T::Val),
    SubTerm(T::Val, Vec<Term<T>>),
}

/// A rewrite rule: the left-hand side's head constant and argument
/// terms, and the right-hand side's terms.
#[derive(Debug)]
#[verifier::reject_recursive_types(T)]
pub struct Rule<T: Types>(pub T::Val, pub Vec<Term<T>>, pub Vec<Term<T>>);

/// A list of rewrite rules.
#[derive(Debug)]
#[verifier::reject_recursive_types(T)]
pub struct TermReductionSystem<T: Types>(pub Vec<Rule<T>>);

/// One step of the left-normality scan on a single term, threading
/// the seen-a-variable flag: while the flag is still clear the term
/// is accepted without being walked; once it is set, a variable is
/// accepted, a constant is rejected, and a subterm is scanned
/// element by element.
pub open spec fn left_normal_term<T: Types>(t: Term<T>, seen: bool) -> (bool, bool)
    decreases t, 0int,
{
    if !seen {
        (true, seen)
    } else {
        match t {
            Term::Var(_) => (true, true),
            Term::Const(_) => (!seen, seen),
            Term::SubTerm(_, ts) => left_normal_terms(ts, 0, seen),
        }
    }
}

/// The left-normality scan over a term list from position `i` on,
/// stopping at the first rejected term.
pub open spec fn left_normal_terms<T: Types>(ts: Vec<Term<T>>, i: int, seen: bool) -> (bool, bool)
    decreases ts, ts@.len() - i,
{
    if i < 0 || i >= ts@.len() {
        (true, seen)
    } else {
        let (ok, seen2) = left_normal_term(ts@[i], seen);
        if !ok {
            (false, seen2)
        } else {
            left_normal_terms(ts, i + 1, seen2)
        }
    }
}

/// What [`Rule::is_left_normal`] computes: the left-normality scan
/// over the rule's left-hand argument terms, starting with the
/// seen-a-variable flag clear.
pub open spec fn rule_left_normal<T: Types>(rule: Rule<T>) -> bool {
    left_normal_terms(rule.1, 0, false).0
}

/// Every rule of the system passes the left-normality scan.
pub open spec fn trs_left_normal<T: Types>(trs: TermReductionSystem<T>) -> bool {
    forall|i: int| 0 <= i < trs.0@.len() ==> rule_left_normal(#[trigger] trs.0@[i])
}

impl<T: Types> Rule<T> {
    /// Runs the left-normality scan over this rule's left-hand
    /// argument terms.
    pub fn is_left_normal(&self) -> (r: bool)
        ensures
            r == rule_left_normal(*self),
    {
        let mut seen_var = false;
        let n = self.1.len();
        let mut i: usize = 0;
        while i < n
            invariant
                n == self.1@.len(),
                i <= n,
                left_normal_terms(self.1, 0, false)
                    == left_normal_terms(self.1, i as int, seen_var),
            decreases n - i,
        {
            let ok = Self::is_left_normal_rec(&self.1[i], &mut seen_var);
            if !ok {
                return false;
            }
            i = i + 1;
        }
        true
    }

    /// One step of the scan, updating the seen-a-variable flag in
    /// place.
    fn is_left_normal_rec(t: &Term<T>, seen_var: &mut bool) -> (r: bool)
        ensures
            ({
                let (ok, seen2) = left_normal_term(*t, *old(seen_var));
                r == ok && *final(seen_var) == seen2
            }),
        decreases *t, 0int,
    {
        if !*seen_var {
            return true;
        }
        match t {
            Term::Var(_) => {
                *seen_var = true;
                true
            },
            Term::Const(_) => !*seen_var,
            Term::SubTerm(_, ts) => {
                let n = ts.len();
                let mut k: usize = 0;
                while k < n
                    invariant
                        n == ts@.len(),
                        k <= n,
                        *old(seen_var) == true,
                        t matches Term::SubTerm(_, tsx) && *tsx == *ts,
                        left_normal_term(*t, *old(seen_var))
                            == left_normal_terms(*ts, k as int, *seen_var),
                    decreases n - k,
                {
                    let ok = Self::is_left_normal_rec(&ts[k], seen_var);
                    if !ok {
                        return false;
                    }
                    k = k + 1;
                }
                true
            },
        }
    }
}

impl<T: Types> TermReductionSystem<T> {
    /// Runs the left-normality scan over every rule of the system.
    pub fn is_left_normal(&self) -> (r: bool)
        ensures
            r == trs_left_normal(*self),
    {
        let n = self.0.len();
        let mut i: usize = 0;
        while i < n
            invariant
                n == self.0@.len(),
                i <= n,
                forall|j: int| 0 <= j < i ==> rule_left_normal(#[trigger] self.0@[j]),
            decreases n - i,
        {
            if !self.0[i].is_left_normal() {
                return false;
            }
            i = i + 1;
        }
        true
    }
}

} // verus!
