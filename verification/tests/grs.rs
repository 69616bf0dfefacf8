use fgrs::grs::reduce;
use fgrs::grs::DataGraph;
use fgrs::grs::Mapping;
use fgrs::grs::NodeId;
use fgrs::grs::Pattern;
use fgrs::grs::PatternNode;
use fgrs::grs::PatternVar;
use fgrs::grs::RootStrategy;
use fgrs::grs::Rule;
use fgrs::grs::Value;
use fgrs::grs::GRS;

#[test]
fn test_grs() {}

// Symbolic values for the classical addition-on-Peano-numerals
// example: Add is Value(1), Zero is Value(2), Succ is Value(3).
fn peano_graph() -> (DataGraph, NodeId, NodeId) {
    // { 0: Add(1, 1), 1: Zero }
    let mut g = DataGraph::new();
    let n0 = g.alloc_node(Value(1));
    let n1 = g.alloc_node(Value(2));
    g.append_arg(n0, n1);
    g.append_arg(n0, n1);
    (g, n0, n1)
}

// x: Add(y, z), z: Zero  ->  {}  with redirection x := z.
// Variable 0 is x (the Add node), variable 1 is z (the Zero node),
// variable 2 is the leaf y.
fn peano_rule() -> Rule {
    let redex = Pattern::new(
        vec![
            PatternNode { value: Value(1), args: vec![PatternVar(2), PatternVar(1)] },
            PatternNode { value: Value(2), args: vec![] },
        ],
        3,
        PatternVar(0),
    )
    .unwrap();
    let contractum = Pattern::new(vec![], 0, PatternVar(0)).unwrap();
    Rule::new(redex, contractum, (PatternVar(0), PatternVar(1))).unwrap()
}

#[test]
fn test_peano_match_mapping() {
    let (g, n0, n1) = peano_graph();
    let rule = peano_rule();

    let m = rule.matches(&g, n0).expect("the rule matches at the root");
    // { x |-> 0, y |-> 1, z |-> 1 }
    assert_eq!(m.get(PatternVar(0)), Some(n0));
    assert_eq!(m.get(PatternVar(2)), Some(n1));
    assert_eq!(m.get(PatternVar(1)), Some(n1));
}

#[test]
fn test_peano_reduce_redirects() {
    let (mut g, n0, n1) = peano_graph();
    let rule = peano_rule();

    assert_eq!(rule.reduce(&mut g, n0), Some(()));
    // Node 0 now behaves as an alias of node 1 (Zero).
    assert_eq!(g.value(n0), Value(2));
    assert_eq!(g.args(n0), vec![]);
    assert_eq!(g.value(n1), Value(2));
    // The empty contractum allocated nothing.
    assert_eq!(g.len(), 2);
}

#[test]
fn test_peano_succ_no_match() {
    // { 0: Add(1, 1), 1: Succ } : the z: Zero part fails to match.
    let mut g = DataGraph::new();
    let n0 = g.alloc_node(Value(1));
    let n1 = g.alloc_node(Value(3));
    g.append_arg(n0, n1);
    g.append_arg(n0, n1);
    let rule = peano_rule();

    assert!(rule.matches(&g, n0).is_none());

    let before = g.clone();
    assert_eq!(rule.reduce(&mut g, n0), None);
    assert_eq!(g, before);
}

#[test]
fn test_matching_deterministic() {
    let (g, n0, _) = peano_graph();
    let rule = peano_rule();

    let m1 = rule.matches(&g, n0).unwrap();
    let m2 = rule.matches(&g, n0).unwrap();
    assert_eq!(m1, m2);
}

#[test]
fn test_arity_zip_ignores_extra_pattern_args() {
    // A pattern head with three argument variables against a data
    // node with two arguments: zipping stops at the shorter side and
    // the match still succeeds, leaving the extra variable unbound.
    let (g, n0, n1) = peano_graph();
    let redex = Pattern::new(
        vec![
            PatternNode {
                value: Value(1),
                args: vec![PatternVar(1), PatternVar(2), PatternVar(3)],
            },
        ],
        4,
        PatternVar(0),
    )
    .unwrap();
    let contractum = Pattern::new(vec![], 0, PatternVar(0)).unwrap();
    let rule = Rule::new(redex, contractum, (PatternVar(0), PatternVar(1))).unwrap();

    let m = rule.matches(&g, n0).expect("extra pattern args are ignored");
    assert_eq!(m.get(PatternVar(1)), Some(n1));
    assert_eq!(m.get(PatternVar(2)), Some(n1));
    assert_eq!(m.get(PatternVar(3)), None);
}

#[test]
fn test_rule_ordering_first_wins() {
    // { 0: Add(1, 2), 1: A, 2: B } with two rules that both match at
    // node 0: the first redirects the root to its first argument, the
    // second to its second argument.  Only the first rule's effect is
    // observed.
    let mut g = DataGraph::new();
    let n0 = g.alloc_node(Value(1));
    let n1 = g.alloc_node(Value(10));
    let n2 = g.alloc_node(Value(11));
    g.append_arg(n0, n1);
    g.append_arg(n0, n2);

    fn redex() -> Pattern {
        Pattern::new(
            vec![PatternNode { value: Value(1), args: vec![PatternVar(1), PatternVar(2)] }],
            3,
            PatternVar(0),
        )
        .unwrap()
    }
    fn contractum() -> Pattern {
        Pattern::new(vec![], 0, PatternVar(0)).unwrap()
    }
    let to_first = Rule::new(redex(), contractum(), (PatternVar(0), PatternVar(1))).unwrap();
    let to_second = Rule::new(redex(), contractum(), (PatternVar(0), PatternVar(2))).unwrap();

    let grs = GRS::new(vec![to_first, to_second]);
    assert_eq!(grs.reduce(&mut g, n0), Some(()));
    assert_eq!(g.value(n0), Value(10));
}

#[test]
fn test_failed_reduction_idempotent() {
    // A graph at which the rule set has nothing to say: both attempts
    // fail identically and the graph never diverges.
    let mut g = DataGraph::new();
    let n0 = g.alloc_node(Value(7));
    let grs = GRS::new(vec![peano_rule()]);

    let before = g.clone();
    assert_eq!(grs.reduce(&mut g, n0), None);
    assert_eq!(g, before);
    assert_eq!(grs.reduce(&mut g, n0), None);
    assert_eq!(g, before);
}

#[test]
fn test_redirection_observed_through_parent() {
    // { 0: Top(1), 1: Add(2, 2), 2: Zero }: reducing at node 1 makes
    // the parent's argument observe Zero.
    let mut g = DataGraph::new();
    let top = g.alloc_node(Value(9));
    let add = g.alloc_node(Value(1));
    let zero = g.alloc_node(Value(2));
    g.append_arg(top, add);
    g.append_arg(add, zero);
    g.append_arg(add, zero);

    let rule = peano_rule();
    assert_eq!(rule.reduce(&mut g, add), Some(()));

    let top_args = g.args(top);
    assert_eq!(top_args.len(), 1);
    assert_eq!(g.value(top_args[0]), Value(2));
    assert_eq!(g.args(top_args[0]), vec![]);
}

#[test]
fn test_rewrite_builds_contractum() {
    // x: Add(y, z), y: Succ(a)  ->  m: Succ(n), n: Add(a, z), x := m
    // on { 0: Add(1, 2), 1: Succ(2), 2: Zero }: one step of the
    // Peano addition that peels a Succ off the first summand.
    let mut g = DataGraph::new();
    let n0 = g.alloc_node(Value(1));
    let n1 = g.alloc_node(Value(3));
    let n2 = g.alloc_node(Value(2));
    g.append_arg(n0, n1);
    g.append_arg(n0, n2);
    g.append_arg(n1, n2);

    // Redex variables: 0 = x (Add), 1 = y (Succ), leaves 2 = z, 3 = a.
    let redex = Pattern::new(
        vec![
            PatternNode { value: Value(1), args: vec![PatternVar(1), PatternVar(2)] },
            PatternNode { value: Value(3), args: vec![PatternVar(3)] },
        ],
        4,
        PatternVar(0),
    )
    .unwrap();
    // Contractum: m: Succ(n), n: Add(a, z) over the same variable
    // space; 0 = m, 1 = n, with leaves 2 = z and 3 = a bound by the
    // redex.  The redirection x := m cannot name the contractum node
    // m (redirections resolve through the match), so this rule
    // redirects x := a instead, exercising rewrite and redirect
    // together.
    let contractum = Pattern::new(
        vec![
            PatternNode { value: Value(3), args: vec![PatternVar(1)] },
            PatternNode { value: Value(1), args: vec![PatternVar(3), PatternVar(2)] },
        ],
        4,
        PatternVar(0),
    )
    .unwrap();
    let rule = Rule::new(redex, contractum, (PatternVar(0), PatternVar(3))).unwrap();

    assert_eq!(rule.reduce(&mut g, n0), Some(()));
    // Two fresh nodes were allocated for the contractum.
    assert_eq!(g.len(), 5);
    // The fresh root is Succ(Add(a, z)).
    let fresh = NodeId(3);
    assert_eq!(g.value(fresh), Value(3));
    let fresh_args = g.args(fresh);
    assert_eq!(fresh_args.len(), 1);
    assert_eq!(g.value(fresh_args[0]), Value(1));
    assert_eq!(g.args(fresh_args[0]), vec![n2, n2]);
    // The redirection made the old root an alias of a = node 2.
    assert_eq!(g.value(n0), Value(2));
}

#[test]
fn test_unbound_redirection_refused() {
    // The redirection names a variable the match never binds (the
    // extra argument position of the arity-zip case): the rule
    // refuses to apply and the graph is untouched.
    let (mut g, n0, _) = peano_graph();
    let redex = Pattern::new(
        vec![
            PatternNode {
                value: Value(1),
                args: vec![PatternVar(1), PatternVar(2), PatternVar(3)],
            },
        ],
        4,
        PatternVar(0),
    )
    .unwrap();
    let contractum = Pattern::new(vec![], 0, PatternVar(0)).unwrap();
    let rule = Rule::new(redex, contractum, (PatternVar(0), PatternVar(3))).unwrap();

    assert!(rule.matches(&g, n0).is_some());
    let before = g.clone();
    assert_eq!(rule.reduce(&mut g, n0), None);
    assert_eq!(g, before);
}

#[test]
fn test_driver_runs_to_bound() {
    // One driver step on the Peano graph: the strategy proposes the
    // root once, the rule redirects it to Zero, and the run ends in
    // normal form as far as the strategy is concerned.
    let (mut g, n0, _) = peano_graph();
    let grs = GRS::new(vec![peano_rule()]);

    assert_eq!(reduce(&grs, &mut g, RootStrategy::new(1)), Some(()));
    assert_eq!(g.value(n0), Value(2));
}

#[test]
fn test_driver_aborts_on_unreducible_node() {
    // After the first step the root behaves as Zero, where no rule
    // matches: the driver treats the strategy's next proposal as a
    // failure of the whole run.
    let (mut g, _, _) = peano_graph();
    let grs = GRS::new(vec![peano_rule()]);

    assert_eq!(reduce(&grs, &mut g, RootStrategy::new(5)), None);
}

#[test]
fn test_pattern_new_validates() {
    // A backward internal reference breaks the topological order.
    assert!(Pattern::new(
        vec![
            PatternNode { value: Value(1), args: vec![] },
            PatternNode { value: Value(1), args: vec![PatternVar(0)] },
        ],
        2,
        PatternVar(0),
    )
    .is_none());
    // The root must name a node.
    assert!(Pattern::new(
        vec![PatternNode { value: Value(1), args: vec![] }],
        1,
        PatternVar(1),
    )
    .is_none());
    // Argument variables must lie inside the variable space.
    assert!(Pattern::new(
        vec![PatternNode { value: Value(1), args: vec![PatternVar(5)] }],
        2,
        PatternVar(0),
    )
    .is_none());
    // The variable space must cover the nodes.
    assert!(Pattern::new(
        vec![PatternNode { value: Value(1), args: vec![] }],
        0,
        PatternVar(0),
    )
    .is_none());
}

#[test]
fn test_rule_new_refuses_empty_redex() {
    let empty = Pattern::new(vec![], 0, PatternVar(0)).unwrap();
    let also_empty = Pattern::new(vec![], 0, PatternVar(0)).unwrap();
    assert!(Rule::new(empty, also_empty, (PatternVar(0), PatternVar(0))).is_none());
}

#[test]
fn test_mapping_bind_get() {
    let mut m = Mapping::new();
    assert_eq!(m.get(PatternVar(0)), None);
    m.bind(PatternVar(2), NodeId(7));
    assert_eq!(m.get(PatternVar(2)), Some(NodeId(7)));
    assert_eq!(m.get(PatternVar(0)), None);
    m.bind(PatternVar(2), NodeId(9));
    assert_eq!(m.get(PatternVar(2)), Some(NodeId(9)));
}

#[test]
fn test_gc_is_a_no_op() {
    let (mut g, _, _) = peano_graph();
    let before = g.clone();
    g.gc();
    assert_eq!(g, before);
}
