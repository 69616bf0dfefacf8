//! The graph rewriting engine.
//!
//! A [`DataGraph`] is a mutable store of nodes, each carrying a
//! [`Value`] and an ordered argument list of [`NodeId`]s.  A
//! [`Pattern`] is an immutable store of pattern nodes addressed by
//! [`PatternVar`]s; the two identifier spaces are distinct types, and
//! the only bridge between them is a [`Mapping`] built during
//! matching.  A [`Rule`] couples a redex pattern, a contractum pattern
//! and a redirection pair; a [`GRS`] is an ordered list of rules; a
//! [`Strategy`] picks where to reduce next and [`reduce`] drives the
//! whole system to completion.

use vstd::prelude::*;

verus! {

/// The payload carried by every node: a function symbol or constant.
/// Compared for equality during matching, never mutated afterwards.
#[derive(Clone, Copy, PartialEq, Eq, Structural, Debug)]
pub struct Value(pub u64);

/// An opaque handle identifying a node inside one [`DataGraph`].
/// Stable for the lifetime of the node; ids from different graphs must
/// not be mixed.
#[derive(Clone, Copy, PartialEq, Eq, Structural, Debug)]
pub struct NodeId(pub usize);

/// An opaque handle identifying a node inside one [`Pattern`].  A
/// pattern variable is never usable as a data-graph identifier.
#[derive(Clone, Copy, PartialEq, Eq, Structural, Debug)]
pub struct PatternVar(pub usize);

/// One slot of the data-graph store.  `fwd` is the forwarding pointer
/// installed by [`DataGraph::redirect`]: a slot that carries
/// `fwd == Some(j)` behaves, for every lookup, as an alias of slot `j`.
#[derive(Clone, Debug, PartialEq)]
struct GraphNode {
    value: Value,
    args: Vec<NodeId>,
    fwd: Option<NodeId>,
}

/// A mutable store of nodes reachable by opaque identifiers.
///
/// Redirection is implemented as true indirection rather than slot
/// swapping: `redirect(src, dst)` installs a forwarding pointer, and
/// every `value`/`args` lookup transparently follows it.  The store
/// keeps forwarding chains fully compressed (a forwarded slot always
/// points at an unforwarded one), so lookups take at most one hop.
#[derive(Clone, Debug, PartialEq)]
pub struct DataGraph {
    nodes: Vec<GraphNode>,
}

impl DataGraph {
    /// How many nodes have ever been allocated in this store.
    pub closed spec fn node_count(self) -> int {
        self.nodes@.len() as int
    }

    /// Does `id` denote a node of this store?
    pub closed spec fn live(self, id: NodeId) -> bool {
        id.0 < self.nodes@.len()
    }

    /// The representative that `id` currently aliases: the target of
    /// its forwarding pointer, or `id` itself when it has none.
    pub closed spec fn canon(self, id: NodeId) -> NodeId {
        match self.nodes@[id.0 as int].fwd {
            Some(j) => j,
            None => id,
        }
    }

    /// The value observed at `id`, following the forwarding pointer.
    pub closed spec fn value_of(self, id: NodeId) -> Value {
        self.nodes@[self.canon(id).0 as int].value
    }

    /// The argument list observed at `id`, following the forwarding
    /// pointer.
    pub closed spec fn args_of(self, id: NodeId) -> Seq<NodeId> {
        self.nodes@[self.canon(id).0 as int].args@
    }

    /// Store invariant: forwarding pointers land on live, unforwarded
    /// slots (chains are compressed), and every stored argument is a
    /// live id.
    pub closed spec fn wf(self) -> bool {
        &&& forall|i: int| 0 <= i < self.nodes@.len() ==> match (#[trigger] self.nodes@[i]).fwd {
            Some(j) => j.0 < self.nodes@.len() && self.nodes@[j.0 as int].fwd is None,
            None => true,
        }
        &&& forall|i: int, k: int|
            0 <= i < self.nodes@.len() && 0 <= k < self.nodes@[i].args@.len()
                ==> (#[trigger] self.nodes@[i].args@[k]).0 < self.nodes@.len()
    }

    /// Creates an empty store.
    pub fn new() -> (g: DataGraph)
        ensures
            g.wf(),
            g.node_count() == 0,
    {
        DataGraph { nodes: Vec::new() }
    }

    /// The number of allocated nodes.
    pub fn len(&self) -> (n: usize)
        ensures
            n == self.node_count(),
    {
        self.nodes.len()
    }

    /// The distinguished entry point of the graph: by convention the
    /// first-allocated node.
    pub fn root(&self) -> (r: NodeId)
        requires
            self.node_count() > 0,
        ensures
            r == (NodeId(0)),
            self.live(r),
    {
        NodeId(0)
    }

    /// The live, unforwarded representative of `id`.
    fn resolve(&self, id: NodeId) -> (r: NodeId)
        requires
            self.wf(),
            self.live(id),
        ensures
            r == self.canon(id),
            self.live(r),
            self.canon(r) == r,
    {
        match self.nodes[id.0].fwd {
            Some(j) => j,
            None => id,
        }
    }

    /// The value stored at the node `id` aliases.
    pub fn value(&self, id: NodeId) -> (v: Value)
        requires
            self.wf(),
            self.live(id),
        ensures
            v == self.value_of(id),
    {
        let c = self.resolve(id);
        self.nodes[c.0].value
    }

    /// An owned copy of the argument list of the node `id` aliases.
    pub fn args(&self, id: NodeId) -> (a: Vec<NodeId>)
        requires
            self.wf(),
            self.live(id),
        ensures
            a@ == self.args_of(id),
    {
        let c = self.resolve(id);
        let stored = &self.nodes[c.0].args;
        let mut out: Vec<NodeId> = Vec::new();
        let n = stored.len();
        let mut k: usize = 0;
        while k < n
            invariant
                n == stored@.len(),
                k <= n,
                out@ == stored@.subrange(0, k as int),
            decreases n - k,
        {
            out.push(stored[k]);
            assert(out@ == stored@.subrange(0, k + 1 as int));
            k = k + 1;
        }
        assert(stored@.subrange(0, n as int) == stored@);
        out
    }

    /// Creates a new node with the given value and no arguments yet.
    /// Previously issued ids stay valid and observe exactly what they
    /// observed before.
    pub fn alloc_node(&mut self, value: Value) -> (r: NodeId)
        requires
            old(self).wf(),
        ensures
            final(self).wf(),
            final(self).node_count() == old(self).node_count() + 1,
            r.0 == old(self).node_count(),
            final(self).live(r),
            final(self).canon(r) == r,
            final(self).value_of(r) == value,
            final(self).args_of(r) == Seq::<NodeId>::empty(),
            forall|x: NodeId| old(self).live(x) ==> final(self).live(x)
                && (#[trigger] final(self).canon(x)) == old(self).canon(x)
                && final(self).value_of(x) == old(self).value_of(x)
                && final(self).args_of(x) == old(self).args_of(x),
    {
        let r = NodeId(self.nodes.len());
        self.nodes.push(GraphNode { value, args: Vec::new(), fwd: None });
        proof {
            let pre = old(self).nodes@;
            let post = self.nodes@;
            assert(forall|i: int| 0 <= i < pre.len() ==> (#[trigger] post[i]) == pre[i]);
            assert(post[pre.len() as int].fwd is None);
            assert(post[pre.len() as int].args@.len() == 0);
            assert forall|i: int| 0 <= i < post.len() implies match (#[trigger] post[i]).fwd {
                Some(j) => j.0 < post.len() && post[j.0 as int].fwd is None,
                None => true,
            } by {
                if i < pre.len() {
                    assert(pre[i] == post[i]);
                    match pre[i].fwd {
                        Some(j) => {
                            assert(j.0 < pre.len() && pre[j.0 as int].fwd is None);
                        },
                        None => {},
                    }
                }
            }
            assert forall|i: int, k: int|
                0 <= i < post.len() && 0 <= k < post[i].args@.len()
                implies (#[trigger] post[i].args@[k]).0 < post.len() by {
                if i < pre.len() {
                    assert(pre[i].args@[k].0 < pre.len());
                }
            }
        }
        r
    }

    /// Appends `arg` to the end of the argument list of the node `id`
    /// aliases.  Every id that aliases the same node observes the
    /// appended list; all other nodes are untouched.
    pub fn append_arg(&mut self, id: NodeId, arg: NodeId)
        requires
            old(self).wf(),
            old(self).live(id),
            old(self).live(arg),
        ensures
            final(self).wf(),
            final(self).node_count() == old(self).node_count(),
            forall|x: NodeId| old(self).live(x) ==> final(self).live(x)
                && (#[trigger] final(self).canon(x)) == old(self).canon(x)
                && final(self).value_of(x) == old(self).value_of(x),
            forall|x: NodeId| old(self).live(x)
                ==> (#[trigger] final(self).args_of(x)) == if old(self).canon(x) == old(self).canon(id) {
                    old(self).args_of(x).push(arg)
                } else {
                    old(self).args_of(x)
                },
    {
        let c = self.resolve(id);
        self.nodes[c.0].args.push(arg);
        proof {
            let pre = old(self).nodes@;
            let post = self.nodes@;
            let ci = c.0 as int;
            assert(post.len() == pre.len());
            assert(forall|i: int| 0 <= i < pre.len() && i != ci ==> (#[trigger] post[i]) == pre[i]);
            assert(post[ci].args@ == pre[ci].args@.push(arg));
            assert(post[ci].fwd == pre[ci].fwd);
            assert forall|i: int| 0 <= i < post.len() implies match (#[trigger] post[i]).fwd {
                Some(j) => j.0 < post.len() && post[j.0 as int].fwd is None,
                None => true,
            } by {
                match pre[i].fwd {
                    Some(j) => {
                        assert(j.0 < pre.len() && pre[j.0 as int].fwd is None);
                        assert(post[j.0 as int].fwd == pre[j.0 as int].fwd);
                    },
                    None => {},
                }
                assert(post[i].fwd == pre[i].fwd);
            }
            assert forall|i: int, k: int|
                0 <= i < post.len() && 0 <= k < post[i].args@.len()
                implies (#[trigger] post[i].args@[k]).0 < post.len() by {
                if i != ci {
                    assert(pre[i].args@[k].0 < pre.len());
                } else {
                    if k < pre[ci].args@.len() {
                        assert(pre[ci].args@[k].0 < pre.len());
                        assert(post[ci].args@[k] == pre[ci].args@[k]);
                    } else {
                        assert(post[ci].args@[k] == arg);
                    }
                }
            }
        }
    }

    /// The sharing-preservation primitive: after `redirect(src, dst)`,
    /// every id that aliased `src`'s node observes `dst`'s node, now
    /// and after any future mutation.  Nothing else changes.
    pub fn redirect(&mut self, src: NodeId, dst: NodeId)
        requires
            old(self).wf(),
            old(self).live(src),
            old(self).live(dst),
        ensures
            final(self).wf(),
            final(self).node_count() == old(self).node_count(),
            forall|x: NodeId| old(self).live(x) ==> final(self).live(x)
                && (#[trigger] final(self).canon(x)) == if old(self).canon(x) == old(self).canon(src) {
                    old(self).canon(dst)
                } else {
                    old(self).canon(x)
                },
            forall|x: NodeId| old(self).live(x)
                ==> (#[trigger] final(self).value_of(x)) == if old(self).canon(x) == old(self).canon(src) {
                    old(self).value_of(dst)
                } else {
                    old(self).value_of(x)
                },
            forall|x: NodeId| old(self).live(x)
                ==> (#[trigger] final(self).args_of(x)) == if old(self).canon(x) == old(self).canon(src) {
                    old(self).args_of(dst)
                } else {
                    old(self).args_of(x)
                },
    {
        let s = self.resolve(src);
        let d = self.resolve(dst);
        if s.0 == d.0 {
            return;
        }
        let n = self.nodes.len();
        let mut i: usize = 0;
        while i < n
            invariant
                n == self.nodes@.len(),
                i <= n,
                s.0 < n,
                d.0 < n,
                s.0 != d.0,
                self.nodes@[s.0 as int].fwd is None,
                self.nodes@[d.0 as int].fwd is None,
                forall|j: int| 0 <= j < n ==> (#[trigger] self.nodes@[j]).value
                    == old(self).nodes@[j].value
                    && self.nodes@[j].args == old(self).nodes@[j].args,
                forall|j: int| 0 <= j < i
                    ==> (#[trigger] self.nodes@[j].fwd) == if old(self).nodes@[j].fwd == Some(s) {
                        Some(d)
                    } else {
                        old(self).nodes@[j].fwd
                    },
                forall|j: int| i <= j < n
                    ==> (#[trigger] self.nodes@[j].fwd) == old(self).nodes@[j].fwd,
                old(self).wf(),
            decreases n - i,
        {
            let hit = match self.nodes[i].fwd {
                Some(t) => t.0 == s.0,
                None => false,
            };
            if hit {
                self.nodes[i].fwd = Some(d);
            }
            i = i + 1;
        }
        self.nodes[s.0].fwd = Some(d);
        proof {
            assert forall|x: NodeId| old(self).live(x)
                implies self.canon(x) == if old(self).canon(x) == old(self).canon(src) {
                    old(self).canon(dst)
                } else {
                    old(self).canon(x)
                } by {
                let xi = x.0 as int;
                assert(old(self).canon(src) == s && old(self).canon(dst) == d);
                match old(self).nodes@[xi].fwd {
                    Some(t) => {},
                    None => {},
                }
            }
        }
    }

    /// Hook for external reclamation of unreachable nodes.  The engine
    /// never relies on it doing anything, and this store leaves the
    /// graph untouched.
    pub fn gc(&mut self)
        ensures
            *final(self) == *old(self),
    {
    }
}

/// One node of a pattern: a value and an ordered list of argument
/// variables.
#[derive(Clone, Debug, PartialEq)]
pub struct PatternNode {
    pub value: Value,
    pub args: Vec<PatternVar>,
}

/// When a node list, a variable-space size and a root describe a
/// well-formed pattern: see [`Pattern::wf`].
pub open spec fn pattern_input_wf(nodes: Seq<PatternNode>, vars: int, root: PatternVar) -> bool {
    &&& nodes.len() <= vars
    &&& nodes.len() > 0 ==> root.0 < nodes.len()
    &&& forall|i: int, k: int|
        0 <= i < nodes.len() && 0 <= k < nodes[i].args@.len()
            ==> (#[trigger] nodes[i].args@[k]).0 < vars
    &&& forall|i: int, k: int|
        0 <= i < nodes.len() && 0 <= k < nodes[i].args@.len()
            && (#[trigger] nodes[i].args@[k]).0 < nodes.len()
            ==> nodes[i].args@[k].0 > i
}

/// An immutable store of pattern nodes.
///
/// The variable space of a pattern is `0 .. var_limit()`.  Variables
/// below `size()` are *internal*: variable `v` names the node stored
/// at position `v`, which is matched recursively.  Variables from
/// `size()` up to `var_limit()` are *leaves*: they appear only in
/// argument position and bind directly to whatever data id occupies
/// that position.  Internal argument references always point at a
/// strictly later node (the nodes stand in topological order), which
/// is what makes matching and rewriting terminate.
#[derive(Clone, Debug, PartialEq)]
pub struct Pattern {
    nodes: Vec<PatternNode>,
    vars: usize,
    root: PatternVar,
}

impl Pattern {
    /// The number of internal nodes.
    pub closed spec fn size(self) -> int {
        self.nodes@.len() as int
    }

    /// The size of the variable space; every argument variable lies
    /// below it.
    pub closed spec fn var_limit(self) -> int {
        self.vars as int
    }

    /// Is `v` the identifying variable of a pattern node?
    pub closed spec fn is_internal(self, v: int) -> bool {
        0 <= v < self.nodes@.len()
    }

    /// The value of internal node `v`.
    pub closed spec fn node_value(self, v: int) -> Value {
        self.nodes@[v].value
    }

    /// The argument variables of internal node `v`.
    pub closed spec fn node_args(self, v: int) -> Seq<PatternVar> {
        self.nodes@[v].args@
    }

    /// The variable at which matching and rewriting start.
    pub closed spec fn root_var(self) -> PatternVar {
        self.root
    }

    /// Pattern invariant: the variable space covers all nodes, the
    /// root is internal (when the pattern is nonempty), every argument
    /// variable lies inside the variable space, and internal argument
    /// references point strictly forward.
    pub closed spec fn wf(self) -> bool {
        pattern_input_wf(self.nodes@, self.vars as int, self.root)
    }

    /// Builds a pattern from its node list, variable-space size and
    /// root, after validating the pattern invariant; returns `None`
    /// when the input breaks it.
    pub fn new(nodes: Vec<PatternNode>, vars: usize, root: PatternVar) -> (r: Option<Pattern>)
        ensures
            r is Some <==> pattern_input_wf(nodes@, vars as int, root),
            r matches Some(p) ==> p.wf()
                && p.size() == nodes@.len()
                && p.var_limit() == vars
                && p.root_var() == root
                && (forall|i: int| 0 <= i < nodes@.len()
                    ==> p.node_value(i) == nodes@[i].value
                        && #[trigger] p.node_args(i) == nodes@[i].args@),
    {
        let n = nodes.len();
        if n > vars {
            return None;
        }
        if n > 0 && root.0 >= n {
            return None;
        }
        let mut i: usize = 0;
        while i < n
            invariant
                n == nodes@.len(),
                n <= vars,
                i <= n,
                forall|j: int, k: int|
                    0 <= j < i && 0 <= k < nodes@[j].args@.len()
                        ==> (#[trigger] nodes@[j].args@[k]).0 < vars
                        && (nodes@[j].args@[k].0 < n ==> nodes@[j].args@[k].0 > j),
            decreases n - i,
        {
            let node_args_len = nodes[i].args.len();
            let mut k: usize = 0;
            while k < node_args_len
                invariant
                    n == nodes@.len(),
                    i < n,
                    node_args_len == nodes@[i as int].args@.len(),
                    k <= node_args_len,
                    forall|kk: int|
                        0 <= kk < k
                            ==> (#[trigger] nodes@[i as int].args@[kk]).0 < vars
                            && (nodes@[i as int].args@[kk].0 < n
                                ==> nodes@[i as int].args@[kk].0 > i),
                decreases node_args_len - k,
            {
                let w = nodes[i].args[k];
                if w.0 >= vars {
                    return None;
                }
                if w.0 < n && w.0 <= i {
                    return None;
                }
                k = k + 1;
            }
            i = i + 1;
        }
        Some(Pattern { nodes, vars, root })
    }

    /// True iff `id` is the identifying variable of a pattern node
    /// (an internal variable, matched recursively), as opposed to a
    /// leaf variable.
    pub fn contains(&self, id: PatternVar) -> (r: bool)
        ensures
            r == self.is_internal(id.0 as int),
    {
        id.0 < self.nodes.len()
    }

    /// The value of the pattern node named by `id`.
    pub fn value(&self, id: PatternVar) -> (v: Value)
        requires
            self.is_internal(id.0 as int),
        ensures
            v == self.node_value(id.0 as int),
    {
        self.nodes[id.0].value
    }

    /// An owned copy of the argument variables of the pattern node
    /// named by `id`.
    pub fn args(&self, id: PatternVar) -> (a: Vec<PatternVar>)
        requires
            self.is_internal(id.0 as int),
        ensures
            a@ == self.node_args(id.0 as int),
    {
        let stored = &self.nodes[id.0].args;
        let n = stored.len();
        let mut out: Vec<PatternVar> = Vec::new();
        let mut k: usize = 0;
        while k < n
            invariant
                n == stored@.len(),
                k <= n,
                out@ == stored@.subrange(0, k as int),
            decreases n - k,
        {
            out.push(stored[k]);
            assert(out@ == stored@.subrange(0, k + 1 as int));
            k = k + 1;
        }
        assert(stored@.subrange(0, n as int) == stored@);
        out
    }

    /// The variable at which matching and rewriting start.
    pub fn root(&self) -> (r: PatternVar)
        requires
            self.wf(),
            self.size() > 0,
        ensures
            r == self.root_var(),
            self.is_internal(r.0 as int),
    {
        self.root
    }
}

/// A binding table from pattern variables to data-graph node ids,
/// built during matching and read during rewriting.
#[derive(Clone, Debug, PartialEq)]
pub struct Mapping {
    slots: Vec<Option<NodeId>>,
}

impl View for Mapping {
    type V = Seq<Option<NodeId>>;

    closed spec fn view(&self) -> Seq<Option<NodeId>> {
        self.slots@
    }
}

impl Mapping {
    /// The id bound to variable `v`, if any.
    pub closed spec fn maps(self, v: int) -> Option<NodeId> {
        if 0 <= v < self.slots@.len() {
            self.slots@[v]
        } else {
            None
        }
    }

    /// The binding table as a map from variable indices to node ids.
    pub open spec fn model(self) -> Map<int, NodeId> {
        Map::new(|v: int| self.maps(v) is Some, |v: int| self.maps(v).unwrap())
    }

    /// Creates an empty binding table.
    pub fn new() -> (m: Mapping)
        ensures
            m@.len() == 0,
            forall|v: int| #[trigger] m.maps(v) is None,
    {
        Mapping { slots: Vec::new() }
    }

    /// The id bound to `var`, or `None` when `var` is unbound.
    pub fn get(&self, var: PatternVar) -> (r: Option<NodeId>)
        ensures
            r == self.maps(var.0 as int),
    {
        if var.0 < self.slots.len() {
            self.slots[var.0]
        } else {
            None
        }
    }

    /// Binds `var` to `id`, overwriting any earlier binding of `var`
    /// and leaving every other variable untouched.
    pub fn bind(&mut self, var: PatternVar, id: NodeId)
        requires
            var.0 < usize::MAX,
        ensures
            final(self)@.len() == if old(self)@.len() >= var.0 + 1 {
                old(self)@.len() as int
            } else {
                var.0 + 1
            },
            forall|v: int| (#[trigger] final(self).maps(v)) == if v == var.0 as int {
                Some(id)
            } else {
                old(self).maps(v)
            },
    {
        while self.slots.len() <= var.0
            invariant
                old(self)@.len() <= self.slots@.len(),
                self.slots@.len() <= old(self)@.len() || self.slots@.len() <= var.0 + 1,
                forall|v: int| 0 <= v < old(self)@.len()
                    ==> (#[trigger] self.slots@[v]) == old(self)@[v],
                forall|v: int| old(self)@.len() <= v < self.slots@.len()
                    ==> #[trigger] self.slots@[v] is None,
            decreases var.0 + 1 - self.slots@.len(),
        {
            self.slots.push(None);
        }
        self.slots[var.0] = Some(id);
    }

    /// Creates a table with `n` empty slots; used to give every match
    /// result of one rule the same shape.
    fn with_slots(n: usize) -> (m: Mapping)
        ensures
            m@.len() == n,
            forall|v: int| #[trigger] m.maps(v) is None,
    {
        let mut slots: Vec<Option<NodeId>> = Vec::new();
        let mut i: usize = 0;
        while i < n
            invariant
                i <= n,
                slots@.len() == i,
                forall|v: int| 0 <= v < i ==> #[trigger] slots@[v] is None,
            decreases n - i,
        {
            slots.push(None);
            i = i + 1;
        }
        Mapping { slots }
    }
}

/// What a successful structural match of pattern node `v` against data
/// node `id` yields, starting from the bindings `m`: `None` for a
/// mismatch, or the extended binding table.  The pattern node's value
/// must equal the data node's value; then the argument lists are
/// zipped pairwise, stopping at the shorter one, with internal
/// argument variables matched recursively and leaf variables bound
/// directly.
pub closed spec fn match_at(p: Pattern, v: int, g: DataGraph, id: NodeId, m: Map<int, NodeId>)
    -> Option<Map<int, NodeId>>
    decreases p.size() - v, p.node_args(v).len() + 1,
{
    if p.node_value(v) == g.value_of(id) {
        match_args(p, v, g, id, 0, m.insert(v, id))
    } else {
        None
    }
}

/// The argument-zipping phase of [`match_at`], from argument position
/// `k` on.
pub closed spec fn match_args(p: Pattern, v: int, g: DataGraph, id: NodeId, k: int, m: Map<int, NodeId>)
    -> Option<Map<int, NodeId>>
    decreases p.size() - v, p.node_args(v).len() - k,
{
    let pa = p.node_args(v);
    let da = g.args_of(id);
    let n = if pa.len() <= da.len() { pa.len() as int } else { da.len() as int };
    if k < 0 || k >= n {
        Some(m)
    } else {
        let w = pa[k].0 as int;
        let child = da[k];
        if p.is_internal(w) {
            if v < w {
                match match_at(p, w, g, child, m) {
                    Some(m2) => match_args(p, v, g, id, k + 1, m2),
                    None => None,
                }
            } else {
                None
            }
        } else {
            match_args(p, v, g, id, k + 1, m.insert(w, child))
        }
    }
}

impl Pattern {
    /// Matches the subpattern rooted at internal variable `redex`
    /// against the data subgraph rooted at `node`, extending `mapping`
    /// with the bindings made along the way.  Returns `Some(())`
    /// exactly when [`match_at`] succeeds from the bindings `mapping`
    /// held on entry, and then leaves precisely those bindings in
    /// `mapping`; on failure `mapping` may hold partial bindings and
    /// should be discarded.  The data graph is never touched.
    pub fn matches(&self, redex: PatternVar, data: &DataGraph, node: NodeId, mapping: &mut Mapping)
        -> (r: Option<()>)
        requires
            self.wf(),
            data.wf(),
            self.is_internal(redex.0 as int),
            data.live(node),
        ensures
            old(mapping)@.len() <= final(mapping)@.len(),
            final(mapping)@.len() <= old(mapping)@.len() || final(mapping)@.len() <= self.var_limit(),
            match match_at(*self, redex.0 as int, *data, node, old(mapping).model()) {
                Some(m2) => r is Some && final(mapping).model() == m2,
                None => r is None,
            },
        decreases self.size() - redex.0,
    {
        let ghost m0 = mapping.model();
        let ghost target = match_at(*self, redex.0 as int, *data, node, m0);
        let rv = self.nodes[redex.0].value;
        let dv = data.value(node);
        if rv.0 != dv.0 {
            return None;
        }
        assert(rv == dv);
        mapping.bind(redex, node);
        proof {
            assert(mapping.model() =~= m0.insert(redex.0 as int, node));
        }
        let pa = &self.nodes[redex.0].args;
        let da = data.args(node);
        let pn = pa.len();
        let dn = da.len();
        let n = if pn <= dn { pn } else { dn };
        let mut k: usize = 0;
        while k < n
            invariant
                self.wf(),
                data.wf(),
                self.is_internal(redex.0 as int),
                data.live(node),
                pa@ == self.node_args(redex.0 as int),
                da@ == data.args_of(node),
                n == if pa@.len() <= da@.len() { pa@.len() as int } else { da@.len() as int },
                k <= n,
                old(mapping)@.len() <= mapping@.len(),
                mapping@.len() <= old(mapping)@.len() || mapping@.len() <= self.var_limit(),
                target == match_at(*self, redex.0 as int, *data, node, old(mapping).model()),
                target == match_args(*self, redex.0 as int, *data, node, k as int, mapping.model()),
            decreases n - k,
        {
            let w = pa[k];
            let child = da[k];
            proof {
                assert(data.live(child)) by {
                    let c = data.canon(node);
                    assert(data.nodes@[c.0 as int].args@[k as int].0 < data.nodes@.len());
                }
            }
            if w.0 < self.nodes.len() {
                assert(self.node_args(redex.0 as int)[k as int] == w);
                assert(redex.0 < w.0);
                let ghost mpre = mapping.model();
                let rec = self.matches(w, data, child, mapping);
                if rec.is_none() {
                    proof {
                        assert(match_at(*self, w.0 as int, *data, child, mpre) is None);
                        assert(target == match_args(*self, redex.0 as int, *data, node, k as int, mpre));
                        assert(target is None);
                    }
                    return None;
                }
                proof {
                    assert(match_at(*self, w.0 as int, *data, child, mpre) matches Some(m2)
                        && mapping.model() == m2);
                }
            } else {
                assert(w.0 < self.vars);
                let ghost mprev = mapping.model();
                mapping.bind(w, child);
                proof {
                    assert(mapping.model() =~= mprev.insert(w.0 as int, child));
                }
            }
            k = k + 1;
        }
        Some(())
    }
}

/// All ids a match can bind are live: matching only ever binds a
/// variable to the node it is standing at or to one of that node's
/// arguments, and a well-formed graph stores only live ids.
proof fn lemma_match_at_bindings(p: Pattern, v: int, g: DataGraph, id: NodeId, m: Map<int, NodeId>)
    requires
        p.wf(),
        g.wf(),
        p.is_internal(v),
        g.live(id),
        forall|x: int| #[trigger] m.contains_key(x) ==> 0 <= x < p.var_limit() && g.live(m[x]),
    ensures
        match match_at(p, v, g, id, m) {
            Some(m2) => forall|x: int| #[trigger] m2.contains_key(x)
                ==> 0 <= x < p.var_limit() && g.live(m2[x]),
            None => true,
        },
    decreases p.size() - v, p.node_args(v).len() + 1,
{
    if p.node_value(v) == g.value_of(id) {
        let m1 = m.insert(v, id);
        assert(forall|x: int| #[trigger] m1.contains_key(x)
            ==> 0 <= x < p.var_limit() && g.live(m1[x]));
        lemma_match_args_bindings(p, v, g, id, 0, m1);
    }
}

/// Companion of [`lemma_match_at_bindings`] for the argument-zipping
/// phase.
proof fn lemma_match_args_bindings(p: Pattern, v: int, g: DataGraph, id: NodeId, k: int, m: Map<int, NodeId>)
    requires
        p.wf(),
        g.wf(),
        p.is_internal(v),
        g.live(id),
        forall|x: int| #[trigger] m.contains_key(x) ==> 0 <= x < p.var_limit() && g.live(m[x]),
    ensures
        match match_args(p, v, g, id, k, m) {
            Some(m2) => forall|x: int| #[trigger] m2.contains_key(x)
                ==> 0 <= x < p.var_limit() && g.live(m2[x]),
            None => true,
        },
    decreases p.size() - v, p.node_args(v).len() - k,
{
    let pa = p.node_args(v);
    let da = g.args_of(id);
    let n = if pa.len() <= da.len() { pa.len() as int } else { da.len() as int };
    if 0 <= k < n {
        let w = pa[k].0 as int;
        let child = da[k];
        assert(g.live(child)) by {
            let c = g.canon(id);
            assert(g.nodes@[c.0 as int].args@[k].0 < g.nodes@.len());
        }
        assert(0 <= w < p.var_limit()) by {
            let c = v;
            assert(p.nodes@[c].args@[k].0 < p.vars);
        }
        if p.is_internal(w) {
            if v < w {
                lemma_match_at_bindings(p, w, g, child, m);
                match match_at(p, w, g, child, m) {
                    Some(m2) => {
                        lemma_match_args_bindings(p, v, g, id, k + 1, m2);
                    },
                    None => {},
                }
            }
        } else {
            let m1 = m.insert(w, child);
            assert(forall|x: int| #[trigger] m1.contains_key(x)
                ==> 0 <= x < p.var_limit() && g.live(m1[x]));
            lemma_match_args_bindings(p, v, g, id, k + 1, m1);
        }
    }
}

/// A rewrite rule: a redex pattern to match, a contractum pattern to
/// instantiate, and a redirection pair of redex variables whose
/// resolved data ids name the old and the new root.
pub struct Rule {
    redex: Pattern,
    contractum: Pattern,
    redirection: (PatternVar, PatternVar),
}

impl Rule {
    /// The left-hand pattern.
    pub closed spec fn redex_of(self) -> Pattern {
        self.redex
    }

    /// The right-hand pattern.
    pub closed spec fn contractum_of(self) -> Pattern {
        self.contractum
    }

    /// The redirection pair.
    pub closed spec fn redirection_of(self) -> (PatternVar, PatternVar) {
        self.redirection
    }

    /// Rule invariant: both patterns are well formed and the redex has
    /// a node to match at.
    pub open spec fn wf(self) -> bool {
        &&& self.redex_of().wf()
        &&& self.contractum_of().wf()
        &&& self.redex_of().size() > 0
    }

    /// Couples a redex, a contractum and a redirection into a rule;
    /// refuses an empty redex, which would have nothing to match.
    pub fn new(redex: Pattern, contractum: Pattern, redirection: (PatternVar, PatternVar))
        -> (r: Option<Rule>)
        requires
            redex.wf(),
            contractum.wf(),
        ensures
            r is Some <==> redex.size() > 0,
            r matches Some(rule) ==> rule.wf()
                && rule.redex_of() == redex
                && rule.contractum_of() == contractum
                && rule.redirection_of() == redirection,
    {
        if redex.nodes.len() > 0 {
            Some(Rule { redex, contractum, redirection })
        } else {
            None
        }
    }
}

/// What matching `rule`'s redex at `node` yields: `None` for a
/// mismatch, or the completed binding table, starting from no
/// bindings at the redex root.
pub open spec fn rule_match_spec(rule: Rule, g: DataGraph, node: NodeId) -> Option<Map<int, NodeId>> {
    match_at(rule.redex_of(), rule.redex_of().root_var().0 as int, g, node, Map::empty())
}

impl Rule {
    /// If the redex matches the subgraph rooted at `node`, returns the
    /// binding table of the match, with one slot for each redex
    /// variable; returns `None`, reading but never touching the graph,
    /// when it does not.
    pub fn matches(&self, data: &DataGraph, node: NodeId) -> (r: Option<Mapping>)
        requires
            self.wf(),
            data.wf(),
            data.live(node),
        ensures
            match rule_match_spec(*self, *data, node) {
                Some(mm) => r matches Some(m) && m.model() == mm
                    && m@.len() == self.redex_of().var_limit(),
                None => r is None,
            },
    {
        let mut m = Mapping::with_slots(self.redex.vars);
        proof {
            assert(m.model() =~= Map::<int, NodeId>::empty());
        }
        match self.redex.matches(self.redex.root, data, node, &mut m) {
            Some(()) => Some(m),
            None => None,
        }
    }
}

/// Does data node `id` hold a fresh instantiation of the subpattern
/// rooted at internal variable `v`?  The node must be live and
/// unforwarded, carry the pattern node's value, and have exactly one
/// argument per pattern argument: a fresh instantiation of the
/// subpattern for an internal argument variable (always a
/// later-allocated node), or the id bound in `mm` for a leaf.
pub closed spec fn instantiated(p: Pattern, v: int, g: DataGraph, id: NodeId, mm: Map<int, NodeId>)
    -> bool
    decreases p.size() - v, p.node_args(v).len() + 1,
{
    &&& g.live(id)
    &&& g.canon(id) == id
    &&& g.value_of(id) == p.node_value(v)
    &&& g.args_of(id).len() == p.node_args(v).len()
    &&& instantiated_args(p, v, g, id, 0, mm)
}

/// The `k`-th argument condition of [`instantiated`].
pub closed spec fn inst_arg(p: Pattern, v: int, g: DataGraph, id: NodeId, k: int, mm: Map<int, NodeId>)
    -> bool
    decreases p.size() - v, 0int,
{
    let w = p.node_args(v)[k].0 as int;
    let a = g.args_of(id)[k];
    if p.is_internal(w) {
        v < w && a.0 > id.0 && instantiated(p, w, g, a, mm)
    } else {
        mm.contains_key(w) && a == mm[w]
    }
}

/// The argument conditions of [`instantiated`] from position `k` on.
pub closed spec fn instantiated_args(p: Pattern, v: int, g: DataGraph, id: NodeId, k: int, mm: Map<int, NodeId>)
    -> bool
    decreases p.size() - v, p.node_args(v).len() - k,
{
    if k < 0 || k >= p.node_args(v).len() {
        true
    } else {
        inst_arg(p, v, g, id, k, mm) && instantiated_args(p, v, g, id, k + 1, mm)
    }
}

/// How many nodes instantiating the subpattern rooted at `v`
/// allocates: one per internal pattern node, counted with
/// multiplicity.
pub closed spec fn build_size(p: Pattern, v: int) -> int
    decreases p.size() - v, p.node_args(v).len() + 1,
{
    1 + build_args_size(p, v, 0)
}

/// The allocation count of the argument subtrees of `v` from position
/// `k` on.
pub closed spec fn build_args_size(p: Pattern, v: int, k: int) -> int
    decreases p.size() - v, p.node_args(v).len() - k,
{
    if k < 0 || k >= p.node_args(v).len() {
        0
    } else {
        let w = p.node_args(v)[k].0 as int;
        (if p.is_internal(w) && v < w {
            build_size(p, w)
        } else {
            0
        }) + build_args_size(p, v, k + 1)
    }
}

/// Every leaf variable that occurs anywhere in `p` is bound by `mm`
/// to a live id of `g`: what rewriting needs in order to resolve leaf
/// arguments.
pub open spec fn leaves_bound(p: Pattern, g: DataGraph, mm: Map<int, NodeId>) -> bool {
    forall|i: int, k: int|
        0 <= i < p.size() && 0 <= k < p.node_args(i).len()
            && !p.is_internal((#[trigger] p.node_args(i)[k]).0 as int)
            ==> mm.contains_key(p.node_args(i)[k].0 as int)
                && g.live(mm[p.node_args(i)[k].0 as int])
}

/// Node `x` is untouched between the two graph states: still live,
/// still unforwarded, observing the same value and arguments.
pub closed spec fn preserved_node(g1: DataGraph, g2: DataGraph, x: NodeId) -> bool {
    &&& g2.live(x)
    &&& g2.canon(x) == x
    &&& g2.value_of(x) == g1.value_of(x)
    &&& g2.args_of(x) == g1.args_of(x)
}

/// Every node id at or above `lo` that was live and unforwarded in
/// the first state is untouched in the second.
pub closed spec fn preserves_from(g1: DataGraph, g2: DataGraph, lo: int) -> bool {
    forall|x: NodeId| g1.live(x) && g1.canon(x) == x && x.0 >= lo
        ==> #[trigger] preserved_node(g1, g2, x)
}

/// An instantiation only mentions nodes at or above its root id, so
/// any change that leaves those nodes' observations alone leaves the
/// instantiation intact.
proof fn lemma_instantiated_stable(p: Pattern, v: int, g1: DataGraph, g2: DataGraph, id: NodeId, mm: Map<int, NodeId>)
    requires
        instantiated(p, v, g1, id, mm),
        preserves_from(g1, g2, id.0 as int),
    ensures
        instantiated(p, v, g2, id, mm),
    decreases p.size() - v, p.node_args(v).len() + 1,
{
    assert(g1.live(id) && g1.canon(id) == id);
    assert(preserved_node(g1, g2, id));
    lemma_instantiated_args_stable(p, v, g1, g2, id, 0, mm);
    assert(instantiated(p, v, g2, id, mm));
}

/// Companion of [`lemma_instantiated_stable`] for the argument
/// conditions.
proof fn lemma_instantiated_args_stable(p: Pattern, v: int, g1: DataGraph, g2: DataGraph, id: NodeId, k: int, mm: Map<int, NodeId>)
    requires
        g1.live(id),
        g1.canon(id) == id,
        instantiated_args(p, v, g1, id, k, mm),
        preserves_from(g1, g2, id.0 as int),
    ensures
        instantiated_args(p, v, g2, id, k, mm),
    decreases p.size() - v, p.node_args(v).len() - k,
{
    assert(preserved_node(g1, g2, id));
    assert(g2.args_of(id) == g1.args_of(id));
    if 0 <= k < p.node_args(v).len() {
        let w = p.node_args(v)[k].0 as int;
        let a = g1.args_of(id)[k];
        assert(inst_arg(p, v, g1, id, k, mm));
        if p.is_internal(w) {
            assert(v < w && a.0 > id.0 && instantiated(p, w, g1, a, mm));
            lemma_preserves_weaken(g1, g2, id.0 as int, a.0 as int);
            lemma_instantiated_stable(p, w, g1, g2, a, mm);
        }
        assert(inst_arg(p, v, g2, id, k, mm));
        lemma_instantiated_args_stable(p, v, g1, g2, id, k + 1, mm);
        assert(instantiated_args(p, v, g2, id, k, mm));
    }
}

/// Raising the floor weakens [`preserves_from`].
proof fn lemma_preserves_weaken(g1: DataGraph, g2: DataGraph, lo: int, hi: int)
    requires
        preserves_from(g1, g2, lo),
        lo <= hi,
    ensures
        preserves_from(g1, g2, hi),
{
    assert forall|x: NodeId| g1.live(x) && g1.canon(x) == x && x.0 >= hi
        implies #[trigger] preserved_node(g1, g2, x) by {
        assert(x.0 >= lo);
    }
}

/// Pointwise argument conditions assemble into [`instantiated_args`].
proof fn lemma_inst_args_from_pointwise(p: Pattern, v: int, g: DataGraph, id: NodeId, k: int, mm: Map<int, NodeId>)
    requires
        forall|j: int| k <= j < p.node_args(v).len() ==> inst_arg(p, v, g, id, j, mm),
    ensures
        instantiated_args(p, v, g, id, k, mm),
    decreases p.node_args(v).len() - k + 1,
{
    if 0 <= k < p.node_args(v).len() {
        assert(inst_arg(p, v, g, id, k, mm));
        lemma_inst_args_from_pointwise(p, v, g, id, k + 1, mm);
        assert(instantiated_args(p, v, g, id, k, mm));
    } else {
        if k < 0 {
            lemma_inst_args_from_pointwise(p, v, g, id, 0, mm);
            assert(instantiated_args(p, v, g, id, k, mm));
        }
    }
}

impl Pattern {
    /// Materializes the subpattern rooted at internal variable
    /// `contractum` into the data graph: allocates one fresh node per
    /// internal pattern node (the root first), appends arguments in
    /// left-to-right pattern order, and resolves leaf variables
    /// through `mapping`.  Existing nodes are never mutated or reused;
    /// the result is the id of the fresh root.
    pub fn rewrite(&self, contractum: PatternVar, data: &mut DataGraph, mapping: &Mapping)
        -> (r: NodeId)
        requires
            self.wf(),
            old(data).wf(),
            self.is_internal(contractum.0 as int),
            leaves_bound(*self, *old(data), mapping.model()),
        ensures
            final(data).wf(),
            final(data).node_count() == old(data).node_count()
                + build_size(*self, contractum.0 as int),
            r.0 == old(data).node_count(),
            final(data).live(r),
            forall|x: NodeId| old(data).live(x) ==> final(data).live(x)
                && (#[trigger] final(data).canon(x)) == old(data).canon(x)
                && final(data).value_of(x) == old(data).value_of(x)
                && final(data).args_of(x) == old(data).args_of(x),
            instantiated(*self, contractum.0 as int, *final(data), r, mapping.model()),
        decreases self.size() - contractum.0,
    {
        let ghost v = contractum.0 as int;
        let ghost mm = mapping.model();
        let ghost bas0 = build_args_size(*self, v, 0);
        let id = data.alloc_node(self.nodes[contractum.0].value);
        let pa = &self.nodes[contractum.0].args;
        let n = pa.len();
        let mut k: usize = 0;
        while k < n
            invariant
                self.wf(),
                self.is_internal(v),
                v == contractum.0 as int,
                mm == mapping.model(),
                bas0 == build_args_size(*self, v, 0),
                pa@ == self.node_args(v),
                n == pa@.len(),
                k <= n,
                old(data).wf(),
                data.wf(),
                leaves_bound(*self, *old(data), mm),
                id.0 == old(data).node_count(),
                data.node_count() == old(data).node_count() + 1
                    + bas0 - build_args_size(*self, v, k as int),
                data.live(id),
                data.canon(id) == id,
                data.value_of(id) == self.node_value(v),
                data.args_of(id).len() == k,
                forall|x: NodeId| old(data).live(x) ==> data.live(x)
                    && (#[trigger] data.canon(x)) == old(data).canon(x)
                    && data.value_of(x) == old(data).value_of(x)
                    && data.args_of(x) == old(data).args_of(x),
                forall|j: int| 0 <= j < k ==> inst_arg(*self, v, *data, id, j, mm),
            decreases n - k,
        {
            let w = pa[k];
            let ghost data_iter = *data;
            if w.0 < self.nodes.len() {
                proof {
                    assert(self.node_args(v)[k as int] == w);
                    assert(v < w.0 as int);
                    assert forall|i: int, kk: int|
                        0 <= i < self.size() && 0 <= kk < self.node_args(i).len()
                            && !self.is_internal((#[trigger] self.node_args(i)[kk]).0 as int)
                        implies mm.contains_key(self.node_args(i)[kk].0 as int)
                            && data.live(mm[self.node_args(i)[kk].0 as int]) by {
                        assert(old(data).live(mm[self.node_args(i)[kk].0 as int]));
                    }
                }
                let cid = self.rewrite(w, data, mapping);
                let ghost data_rec = *data;
                data.append_arg(id, cid);
                proof {
                    assert(data.args_of(id) == data_rec.args_of(id).push(cid));
                    assert(data_rec.args_of(id) == data_iter.args_of(id));
                    assert forall|x: NodeId| data_rec.live(x) && data_rec.canon(x) == x
                        && x.0 >= id.0 + 1
                        implies #[trigger] preserved_node(data_rec, *data, x) by {
                        assert(data.canon(x) == x);
                        assert(data_rec.canon(id) == id);
                        assert(data_rec.canon(x) != data_rec.canon(id));
                    }
                    assert(preserves_from(data_rec, *data, id.0 + 1));
                    assert forall|x: NodeId| data_iter.live(x) && data_iter.canon(x) == x
                        && x.0 >= id.0 + 1
                        implies #[trigger] preserved_node(data_iter, *data, x) by {
                        assert(data_rec.canon(x) == x);
                        assert(data_rec.live(x));
                        assert(data_rec.value_of(x) == data_iter.value_of(x));
                        assert(data_rec.args_of(x) == data_iter.args_of(x));
                        assert(data.canon(x) == x);
                        assert(data_rec.canon(id) == id);
                        assert(data_rec.canon(x) != data_rec.canon(id));
                        assert(data.live(x));
                        assert(data.value_of(x) == data_rec.value_of(x));
                        assert(data.args_of(x) == data_rec.args_of(x));
                    }
                    assert(preserves_from(data_iter, *data, id.0 + 1));
                    assert(inst_arg(*self, v, *data, id, k as int, mm)) by {
                        assert(data.args_of(id)[k as int] == cid);
                        assert(cid.0 > id.0);
                        assert(instantiated(*self, w.0 as int, data_rec, cid, mm));
                        lemma_preserves_weaken(data_rec, *data, id.0 + 1, cid.0 as int);
                        lemma_instantiated_stable(*self, w.0 as int, data_rec, *data, cid, mm);
                    }
                    assert forall|j: int| 0 <= j < k implies inst_arg(*self, v, *data, id, j, mm) by {
                        assert(inst_arg(*self, v, data_iter, id, j, mm));
                        assert(data.args_of(id)[j] == data_iter.args_of(id)[j]);
                        let wj = self.node_args(v)[j].0 as int;
                        if self.is_internal(wj) {
                            let aj = data_iter.args_of(id)[j];
                            assert(instantiated(*self, wj, data_iter, aj, mm));
                            lemma_preserves_weaken(data_iter, *data, id.0 + 1, aj.0 as int);
                            lemma_instantiated_stable(*self, wj, data_iter, *data, aj, mm);
                        }
                    }
                    assert forall|x: NodeId| old(data).live(x) implies data.live(x)
                        && (#[trigger] data.canon(x)) == old(data).canon(x)
                        && data.value_of(x) == old(data).value_of(x)
                        && data.args_of(x) == old(data).args_of(x) by {
                        assert(data_iter.live(x));
                        assert(data_iter.canon(x) == old(data).canon(x));
                        assert(data_rec.live(x));
                        assert(data_rec.canon(x) == data_iter.canon(x));
                        assert(data.live(x));
                        assert(data.canon(x) == data_rec.canon(x));
                        assert(old(data).live(old(data).canon(x)));
                        assert(old(data).canon(x).0 < id.0);
                        assert(data_rec.canon(x) != data_rec.canon(id));
                    }
                }
            } else {
                proof {
                    assert(self.node_args(v)[k as int] == w);
                    assert(!self.is_internal(w.0 as int));
                    assert(mm.contains_key(w.0 as int) && old(data).live(mm[w.0 as int]));
                    assert(mapping.maps(w.0 as int) is Some);
                }
                let a = mapping.get(w).unwrap();
                data.append_arg(id, a);
                proof {
                    assert(data.args_of(id) == data_iter.args_of(id).push(a));
                    assert forall|x: NodeId| data_iter.live(x) && data_iter.canon(x) == x
                        && x.0 >= id.0 + 1
                        implies #[trigger] preserved_node(data_iter, *data, x) by {
                        assert(data.canon(x) == x);
                        assert(data_iter.canon(id) == id);
                        assert(data_iter.canon(x) != data_iter.canon(id));
                        assert(data.live(x));
                        assert(data.value_of(x) == data_iter.value_of(x));
                        assert(data.args_of(x) == data_iter.args_of(x));
                    }
                    assert(preserves_from(data_iter, *data, id.0 + 1));
                    assert(inst_arg(*self, v, *data, id, k as int, mm)) by {
                        assert(data.args_of(id)[k as int] == a);
                        assert(a == mm[w.0 as int]);
                    }
                    assert forall|j: int| 0 <= j < k implies inst_arg(*self, v, *data, id, j, mm) by {
                        assert(inst_arg(*self, v, data_iter, id, j, mm));
                        assert(data.args_of(id)[j] == data_iter.args_of(id)[j]);
                        let wj = self.node_args(v)[j].0 as int;
                        if self.is_internal(wj) {
                            let aj = data_iter.args_of(id)[j];
                            assert(instantiated(*self, wj, data_iter, aj, mm));
                            lemma_preserves_weaken(data_iter, *data, id.0 + 1, aj.0 as int);
                            lemma_instantiated_stable(*self, wj, data_iter, *data, aj, mm);
                        }
                    }
                    assert forall|x: NodeId| old(data).live(x) implies data.live(x)
                        && (#[trigger] data.canon(x)) == old(data).canon(x)
                        && data.value_of(x) == old(data).value_of(x)
                        && data.args_of(x) == old(data).args_of(x) by {
                        assert(data_iter.live(x));
                        assert(data_iter.canon(x) == old(data).canon(x));
                        assert(data.live(x));
                        assert(data.canon(x) == data_iter.canon(x));
                        assert(old(data).live(old(data).canon(x)));
                        assert(old(data).canon(x).0 < id.0);
                        assert(data_iter.canon(x) != data_iter.canon(id));
                    }
                }
            }
            k = k + 1;
        }
        proof {
            lemma_inst_args_from_pointwise(*self, v, *data, id, 0, mm);
            assert(instantiated(*self, v, *data, id, mm));
        }
        id
    }
}

impl Pattern {
    /// Checks that every leaf variable of this pattern is bound by `m`
    /// to a live id of `g`: the condition under which rewriting can
    /// resolve every leaf argument.
    fn leaves_ready(&self, g: &DataGraph, m: &Mapping) -> (b: bool)
        requires
            self.wf(),
            g.wf(),
        ensures
            b == leaves_bound(*self, *g, m.model()),
    {
        let n = self.nodes.len();
        let glen = g.len();
        let mut i: usize = 0;
        while i < n
            invariant
                self.wf(),
                g.wf(),
                n == self.nodes@.len(),
                glen == g.node_count(),
                i <= n,
                forall|ii: int, kk: int|
                    0 <= ii < i && 0 <= kk < self.node_args(ii).len()
                        && !self.is_internal((#[trigger] self.node_args(ii)[kk]).0 as int)
                        ==> m.model().contains_key(self.node_args(ii)[kk].0 as int)
                            && g.live(m.model()[self.node_args(ii)[kk].0 as int]),
            decreases n - i,
        {
            let alen = self.nodes[i].args.len();
            let mut k: usize = 0;
            while k < alen
                invariant
                    self.wf(),
                    g.wf(),
                    n == self.nodes@.len(),
                    glen == g.node_count(),
                    i < n,
                    alen == self.node_args(i as int).len(),
                    k <= alen,
                    forall|kk: int|
                        0 <= kk < k
                            && !self.is_internal((#[trigger] self.node_args(i as int)[kk]).0 as int)
                            ==> m.model().contains_key(self.node_args(i as int)[kk].0 as int)
                                && g.live(m.model()[self.node_args(i as int)[kk].0 as int]),
                decreases alen - k,
            {
                let w = self.nodes[i].args[k];
                proof {
                    assert(self.node_args(i as int)[k as int] == w);
                }
                if w.0 >= n {
                    let bound = m.get(w);
                    let ok = match bound {
                        Some(a) => a.0 < glen,
                        None => false,
                    };
                    if !ok {
                        proof {
                            if leaves_bound(*self, *g, m.model()) {
                                assert(m.model().contains_key(w.0 as int)
                                    && g.live(m.model()[w.0 as int]));
                            }
                        }
                        return false;
                    }
                    proof {
                        assert(m.model().contains_key(w.0 as int));
                        assert(g.live(m.model()[w.0 as int]));
                    }
                }
                k = k + 1;
            }
            i = i + 1;
        }
        true
    }
}

/// A rule applies at `node` when its redex matches there, the match
/// binds both redirection variables, and it binds every leaf variable
/// of the contractum (so that rewriting can resolve them).
pub open spec fn rule_applicable(rule: Rule, g: DataGraph, node: NodeId) -> bool {
    match rule_match_spec(rule, g, node) {
        Some(mm) => leaves_bound(rule.contractum_of(), g, mm)
            && mm.contains_key(rule.redirection_of().0.0 as int)
            && mm.contains_key(rule.redirection_of().1.0 as int),
        None => false,
    }
}

/// What one successful application of `rule` at `node` does to the
/// graph, relating the state before (`g1`) and after (`g2`): the
/// contractum has been instantiated into fresh nodes rooted at the
/// first new id (when it is nonempty), nothing already allocated has
/// been touched except through the final redirection, and every id
/// that aliased the node bound to the first redirection variable now
/// observes the node bound to the second.
pub open spec fn reduce_effect(rule: Rule, g1: DataGraph, g2: DataGraph, node: NodeId) -> bool {
    let mm = rule_match_spec(rule, g1, node).unwrap();
    let ms = mm[rule.redirection_of().0.0 as int];
    let md = mm[rule.redirection_of().1.0 as int];
    let c = rule.contractum_of();
    let grown = if c.size() > 0 {
        build_size(c, c.root_var().0 as int)
    } else {
        0
    };
    &&& g2.wf()
    &&& g2.node_count() == g1.node_count() + grown
    &&& forall|x: NodeId| g1.live(x) ==> g2.live(x)
        && (#[trigger] g2.canon(x)) == if g1.canon(x) == g1.canon(ms) {
            g1.canon(md)
        } else {
            g1.canon(x)
        }
    &&& forall|x: NodeId| g1.live(x)
        ==> (#[trigger] g2.value_of(x)) == if g1.canon(x) == g1.canon(ms) {
            g1.value_of(md)
        } else {
            g1.value_of(x)
        }
    &&& forall|x: NodeId| g1.live(x)
        ==> (#[trigger] g2.args_of(x)) == if g1.canon(x) == g1.canon(ms) {
            g1.args_of(md)
        } else {
            g1.args_of(x)
        }
    &&& c.size() > 0 ==> instantiated(c, c.root_var().0 as int, g2, NodeId(g1.node_count() as usize), mm)
}

impl Rule {
    /// Tries to apply this rule at `node`: match the redex, check that
    /// the match reaches both redirection variables and every
    /// contractum leaf, instantiate the contractum, and redirect the
    /// data id bound to the first redirection variable to the one
    /// bound to the second.  Returns `None` with the graph bit-for-bit
    /// unchanged when any of those checks fails; no partial mutation
    /// ever escapes.
    pub fn reduce(&self, data: &mut DataGraph, node: NodeId) -> (r: Option<()>)
        requires
            self.wf(),
            old(data).wf(),
            old(data).live(node),
        ensures
            final(data).wf(),
            rule_applicable(*self, *old(data), node) ==> r is Some
                && reduce_effect(*self, *old(data), *final(data), node),
            !rule_applicable(*self, *old(data), node) ==> r is None
                && *final(data) == *old(data),
    {
        let ghost g0 = *old(data);
        let m = match self.matches(data, node) {
            Some(m) => m,
            None => {
                return None;
            },
        };
        let ghost mm = rule_match_spec(*self, g0, node).unwrap();
        let ms = match m.get(self.redirection.0) {
            Some(x) => x,
            None => {
                return None;
            },
        };
        let md = match m.get(self.redirection.1) {
            Some(x) => x,
            None => {
                return None;
            },
        };
        if !self.contractum.leaves_ready(data, &m) {
            return None;
        }
        proof {
            assert(rule_applicable(*self, g0, node));
            lemma_match_at_bindings(
                self.redex,
                self.redex.root.0 as int,
                g0,
                node,
                Map::empty(),
            );
            assert(g0.live(ms) && g0.live(md));
        }
        if self.contractum.nodes.len() > 0 {
            let croot = self.contractum.root;
            let _fresh = self.contractum.rewrite(croot, data, &m);
        }
        let ghost g1 = *data;
        data.redirect(ms, md);
        proof {
            let c = self.contractum_of();
            let fresh = NodeId(g0.node_count() as usize);
            assert(g1.canon(ms) == g0.canon(ms));
            assert(g1.canon(md) == g0.canon(md));
            let s = g1.canon(ms);
            assert forall|x: NodeId| g0.live(x) implies data.live(x)
                && (#[trigger] data.canon(x)) == if g0.canon(x) == g0.canon(ms) {
                    g0.canon(md)
                } else {
                    g0.canon(x)
                }
                && data.value_of(x) == if g0.canon(x) == g0.canon(ms) {
                    g0.value_of(md)
                } else {
                    g0.value_of(x)
                }
                && data.args_of(x) == if g0.canon(x) == g0.canon(ms) {
                    g0.args_of(md)
                } else {
                    g0.args_of(x)
                } by {
                assert(g1.live(x));
                assert(g1.canon(x) == g0.canon(x));
                assert(g1.value_of(x) == g0.value_of(x));
                assert(g1.args_of(x) == g0.args_of(x));
                assert(g1.value_of(md) == g0.value_of(md));
                assert(g1.args_of(md) == g0.args_of(md));
                assert(data.canon(x) == if g1.canon(x) == g1.canon(ms) {
                    g1.canon(md)
                } else {
                    g1.canon(x)
                });
            }
            if c.size() > 0 {
                assert(instantiated(c, c.root_var().0 as int, g1, fresh, mm));
                assert forall|x: NodeId| g1.live(x) && g1.canon(x) == x && x.0 >= fresh.0
                    implies #[trigger] preserved_node(g1, *data, x) by {
                    assert(g0.live(s));
                    assert(s.0 < g0.node_count());
                    assert(x != s);
                    assert(data.canon(x) == x);
                    assert(data.value_of(x) == g1.value_of(x));
                    assert(data.args_of(x) == g1.args_of(x));
                }
                assert(preserves_from(g1, *data, fresh.0 as int));
                lemma_instantiated_stable(c, c.root_var().0 as int, g1, *data, fresh, mm);
            }
            assert(reduce_effect(*self, g0, *data, node));
        }
        Some(())
    }
}

/// An ordered set of rules.  Order encodes priority: at a given node
/// the first rule in sequence whose application succeeds is the one
/// applied.
pub struct GRS(Vec<Rule>);

/// The index of the first rule at or after position `k` that applies
/// at `node`, if any.
pub open spec fn first_applicable_from(rules: Seq<Rule>, g: DataGraph, node: NodeId, k: int)
    -> Option<int>
    decreases rules.len() - k,
{
    if k < 0 || k >= rules.len() {
        None
    } else if rule_applicable(rules[k], g, node) {
        Some(k)
    } else {
        first_applicable_from(rules, g, node, k + 1)
    }
}

impl GRS {
    /// The rules, in priority order.
    pub closed spec fn rules(self) -> Seq<Rule> {
        self.0@
    }

    /// Every rule of the set is well formed.
    pub open spec fn wf(self) -> bool {
        forall|i: int| 0 <= i < self.rules().len() ==> (#[trigger] self.rules()[i]).wf()
    }

    /// Builds a rule set from a priority-ordered list.
    pub fn new(rules: Vec<Rule>) -> (g: GRS)
        ensures
            g.rules() == rules@,
    {
        GRS(rules)
    }

    /// Performs one reduction step at `node`: tries each rule in
    /// sequence order and commits to the first whose application
    /// succeeds.  Returns `None` with the graph unchanged when no rule
    /// applies; a rule that fails to apply leaves no trace, so later
    /// rules are tried against the untouched graph.
    pub fn reduce(&self, data: &mut DataGraph, node: NodeId) -> (r: Option<()>)
        requires
            self.wf(),
            old(data).wf(),
            old(data).live(node),
        ensures
            final(data).wf(),
            match first_applicable_from(self.rules(), *old(data), node, 0) {
                Some(i) => r is Some
                    && reduce_effect(self.rules()[i], *old(data), *final(data), node),
                None => r is None && *final(data) == *old(data),
            },
    {
        let n = self.0.len();
        let mut i: usize = 0;
        while i < n
            invariant
                self.wf(),
                n == self.rules().len(),
                i <= n,
                old(data).wf(),
                old(data).live(node),
                *data == *old(data),
                first_applicable_from(self.rules(), *old(data), node, 0)
                    == first_applicable_from(self.rules(), *old(data), node, i as int),
            decreases n - i,
        {
            let applied = self.0[i].reduce(data, node);
            if applied.is_some() {
                proof {
                    assert(rule_applicable(self.rules()[i as int], *old(data), node));
                    assert(first_applicable_from(self.rules(), *old(data), node, i as int)
                        == Some(i as int));
                }
                return Some(());
            }
            proof {
                assert(!rule_applicable(self.rules()[i as int], *old(data), node));
                assert(first_applicable_from(self.rules(), *old(data), node, i as int)
                    == first_applicable_from(self.rules(), *old(data), node, i + 1));
            }
            i = i + 1;
        }
        None
    }
}

/// A strategy supplies the next candidate redex node.  It may keep
/// traversal state of its own; each proposal must come with progress
/// (a strictly decreasing measure), which is what bounds a whole
/// reduction run.
pub trait Strategy {
    /// An upper bound on how many more proposals this strategy can
    /// make.
    spec fn measure(&self) -> nat;

    /// The next candidate redex, or `None` when the strategy judges
    /// the graph to be in normal form under its own policy.
    fn next_redex(&mut self, dg: &DataGraph) -> (r: Option<NodeId>)
        requires
            dg.wf(),
        ensures
            r matches Some(id) ==> dg.live(id)
                && final(self).measure() < old(self).measure(),
    ;
}

/// The serial strategy: proposes the graph root, at most a fixed
/// number of times, and reports normal form on an empty graph.
pub struct RootStrategy {
    remaining: usize,
}

impl RootStrategy {
    /// A strategy that proposes the root at most `steps` times.
    pub fn new(steps: usize) -> (s: RootStrategy)
        ensures
            s.measure() == steps,
    {
        RootStrategy { remaining: steps }
    }
}

impl Strategy for RootStrategy {
    closed spec fn measure(&self) -> nat {
        self.remaining as nat
    }

    fn next_redex(&mut self, dg: &DataGraph) -> (r: Option<NodeId>) {
        if self.remaining == 0 {
            None
        } else if dg.len() == 0 {
            None
        } else {
            self.remaining = self.remaining - 1;
            Some(dg.root())
        }
    }
}

/// One reduction step of the whole system somewhere in the graph.
pub open spec fn grs_step(grs: GRS, g1: DataGraph, g2: DataGraph) -> bool {
    exists|node: NodeId, i: int|
        g1.live(node)
            && first_applicable_from(grs.rules(), g1, node, 0) == Some(i)
            && #[trigger] reduce_effect(grs.rules()[i], g1, g2, node)
}

/// `g2` results from `g1` by exactly `n` reduction steps of `grs`.
pub open spec fn steps_to(grs: GRS, g1: DataGraph, g2: DataGraph, n: nat) -> bool
    decreases n,
{
    if n == 0 {
        g1 == g2
    } else {
        exists|gm: DataGraph| #[trigger] grs_step(grs, g1, gm)
            && steps_to(grs, gm, g2, (n - 1) as nat)
    }
}

/// A step sequence extends on the right by one more step.
proof fn lemma_steps_extend(grs: GRS, g1: DataGraph, g2: DataGraph, g3: DataGraph, n: nat)
    requires
        steps_to(grs, g1, g2, n),
        grs_step(grs, g2, g3),
    ensures
        steps_to(grs, g1, g3, n + 1),
    decreases n,
{
    if n == 0 {
        assert(g1 == g2);
        assert(steps_to(grs, g3, g3, 0));
        assert(steps_to(grs, g1, g3, 1)) by {
            assert(grs_step(grs, g1, g3) && steps_to(grs, g3, g3, 0));
        }
    } else {
        let gm = choose|gm: DataGraph| #[trigger] grs_step(grs, g1, gm)
            && steps_to(grs, gm, g2, (n - 1) as nat);
        lemma_steps_extend(grs, gm, g2, g3, (n - 1) as nat);
        assert(steps_to(grs, g1, g3, n + 1)) by {
            assert(grs_step(grs, g1, gm) && steps_to(grs, gm, g3, n));
        }
    }
}

/// The reduction driver: repeatedly asks the strategy for a redex and
/// the rule set for a reduction there, until the strategy reports
/// normal form (`Some`), or a proposed node has no applicable rule,
/// which aborts the whole run (`None`).  Either way the final graph
/// results from the initial one by a sequence of valid reduction
/// steps.
pub fn reduce<S: Strategy>(grs: &GRS, data: &mut DataGraph, strategy: S) -> (r: Option<()>)
    requires
        grs.wf(),
        old(data).wf(),
    ensures
        final(data).wf(),
        exists|n: nat| #[trigger] steps_to(*grs, *old(data), *final(data), n),
        r is None ==> exists|node: NodeId| final(data).live(node)
            && #[trigger] first_applicable_from(grs.rules(), *final(data), node, 0) is None,
{
    let mut strategy = strategy;
    let ghost mut steps: nat = 0;
    loop
        invariant
            grs.wf(),
            data.wf(),
            old(data).wf(),
            steps_to(*grs, *old(data), *data, steps),
        decreases strategy.measure(),
    {
        match strategy.next_redex(data) {
            None => {
                proof {
                    assert(steps_to(*grs, *old(data), *data, steps));
                }
                return Some(());
            },
            Some(node) => {
                let ghost g_before = *data;
                match grs.reduce(data, node) {
                    Some(()) => {
                        proof {
                            let i = first_applicable_from(grs.rules(), g_before, node, 0).unwrap();
                            assert(grs_step(*grs, g_before, *data)) by {
                                assert(g_before.live(node)
                                    && first_applicable_from(grs.rules(), g_before, node, 0)
                                        == Some(i)
                                    && reduce_effect(grs.rules()[i], g_before, *data, node));
                            }
                            lemma_steps_extend(*grs, *old(data), g_before, *data, steps);
                            steps = steps + 1;
                        }
                    },
                    None => {
                        return None;
                    },
                }
            },
        }
    }
}

/// Matching is deterministic: two binding tables produced by matching
/// the same rule at the same node of the same, unmutated graph are
/// equal.  This is immediate from the contract of [`Rule::matches`],
/// which pins the table down to a function of its inputs.
pub proof fn lemma_matching_deterministic(rule: Rule, g: DataGraph, node: NodeId, m1: Mapping, m2: Mapping)
    requires
        rule_match_spec(rule, g, node) is Some,
        m1.model() == rule_match_spec(rule, g, node).unwrap(),
        m1@.len() == rule.redex_of().var_limit(),
        m2.model() == rule_match_spec(rule, g, node).unwrap(),
        m2@.len() == rule.redex_of().var_limit(),
    ensures
        m1@ == m2@,
{
    assert forall|v: int| 0 <= v < m1@.len() implies m1@[v] == m2@[v] by {
        assert(m1.maps(v) == m1@[v]);
        assert(m2.maps(v) == m2@[v]);
        if m1.model().contains_key(v) {
            assert(m1.maps(v) is Some);
            assert(m1.model()[v] == m1.maps(v).unwrap());
            assert(m2.model()[v] == m2.maps(v).unwrap());
            assert(m2.maps(v) is Some);
        } else {
            assert(m1.maps(v) is None);
            assert(!m2.model().contains_key(v));
            assert(m2.maps(v) is None);
        }
    }
    assert(m1@ =~= m2@);
}

/// Redirection semantics: after a rule has been applied, every id
/// that aliased the data node bound to the first redirection variable
/// observes exactly the value and arguments that the node bound to
/// the second redirection variable had before the application.
pub proof fn lemma_redirection_observed(rule: Rule, g1: DataGraph, g2: DataGraph, node: NodeId)
    requires
        rule.wf(),
        g1.wf(),
        g1.live(node),
        rule_applicable(rule, g1, node),
        reduce_effect(rule, g1, g2, node),
    ensures
        ({
            let mm = rule_match_spec(rule, g1, node).unwrap();
            let ms = mm[rule.redirection_of().0.0 as int];
            let md = mm[rule.redirection_of().1.0 as int];
            &&& g2.value_of(ms) == g1.value_of(md)
            &&& g2.args_of(ms) == g1.args_of(md)
            &&& forall|x: NodeId| g1.live(x) && g1.canon(x) == g1.canon(ms)
                ==> #[trigger] g2.value_of(x) == g1.value_of(md)
                    && g2.args_of(x) == g1.args_of(md)
        }),
{
    let mm = rule_match_spec(rule, g1, node).unwrap();
    let ms = mm[rule.redirection_of().0.0 as int];
    let md = mm[rule.redirection_of().1.0 as int];
    lemma_match_at_bindings(
        rule.redex_of(),
        rule.redex_of().root_var().0 as int,
        g1,
        node,
        Map::empty(),
    );
    assert(g1.live(ms));
    assert(g2.value_of(ms) == g1.value_of(md));
    assert forall|x: NodeId| g1.live(x) && g1.canon(x) == g1.canon(ms)
        implies #[trigger] g2.value_of(x) == g1.value_of(md)
            && g2.args_of(x) == g1.args_of(md) by {
        assert(g2.value_of(x) == if g1.canon(x) == g1.canon(ms) {
            g1.value_of(md)
        } else {
            g1.value_of(x)
        });
        assert(g2.args_of(x) == if g1.canon(x) == g1.canon(ms) {
            g1.args_of(md)
        } else {
            g1.args_of(x)
        });
    }
}

/// A failed reduction is idempotent: when no rule of the set applies
/// at `node`, the attempt leaves the graph bit-for-bit unchanged (the
/// contract of [`GRS::reduce`]), and against that unchanged graph
/// still no rule applies, so a second attempt fails identically.
pub proof fn lemma_failed_reduction_idempotent(grs: GRS, g1: DataGraph, g2: DataGraph, node: NodeId)
    requires
        first_applicable_from(grs.rules(), g1, node, 0) is None,
        g2 == g1,
    ensures
        first_applicable_from(grs.rules(), g2, node, 0) is None,
{
}

/// Operations external to pure lambda calculus: how one value applies
/// to another.  Implement it for a value type to extend the
/// tree-rewriting modules with built-in operators; the default is
/// that no application is defined.
pub trait SigmaRules: Sized {
    type Error: Default + core::fmt::Debug;

    fn apply(_f: Self, _x: Self) -> Result<Self, Self::Error> {
        Err(Self::Error::default())
    }
}

/// Plain integers admit no sigma application.
impl SigmaRules for i32 {
    type Error = ();
}

/// The type context for the tree-rewriting companions of this crate
/// ([`crate::expr`] and [`crate::trs`]): one place for the choice of
/// symbol, value and identifier types, instead of repeated bounds.
pub trait Types {
    /// Variable names ("symbols").
    type Sym: Copy + PartialEq + core::fmt::Debug;

    /// Constant values.
    type Val: Copy + SigmaRules + core::fmt::Debug;

    /// Ids of nodes in a data graph.
    type Id: Copy + PartialEq + core::fmt::Debug;

    /// Ids of nodes in a pattern.
    type Var: Copy + PartialEq + core::fmt::Debug;
}

} // verus!
