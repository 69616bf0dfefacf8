use fgrs::grs::DataGraph;
use fgrs::grs::Pattern;
use fgrs::grs::PatternNode;
use fgrs::grs::PatternVar;
use fgrs::grs::Value;
use fgrs::grsng::CanonicalRule;

// The Peano-addition base rule in canonical form:
// x: Add(y, z), z: Zero  ->  {}  with redirection x := z.
fn canonical_peano_rule() -> CanonicalRule {
    let redex = Pattern::new(
        vec![
            PatternNode { value: Value(1), args: vec![PatternVar(2), PatternVar(1)] },
            PatternNode { value: Value(2), args: vec![] },
        ],
        3,
        PatternVar(0),
    )
    .unwrap();
    let contractum = Pattern::new(vec![], 0, PatternVar(0)).unwrap();
    CanonicalRule::new(redex, contractum, (PatternVar(0), PatternVar(1))).unwrap()
}

#[test]
fn test_canonical_matches_at_root() {
    // { 0: Add(1, 1), 1: Zero }
    let mut g = DataGraph::new();
    let n0 = g.alloc_node(Value(1));
    let n1 = g.alloc_node(Value(2));
    g.append_arg(n0, n1);
    g.append_arg(n0, n1);

    let rule = canonical_peano_rule();
    let m = rule.matches(&g).expect("the redex matches at the root");
    assert_eq!(m.get(PatternVar(0)), Some(n0));
    assert_eq!(m.get(PatternVar(1)), Some(n1));
    assert_eq!(m.get(PatternVar(2)), Some(n1));
}

#[test]
fn test_canonical_rewrite_redirects_root() {
    let mut g = DataGraph::new();
    let n0 = g.alloc_node(Value(1));
    let n1 = g.alloc_node(Value(2));
    g.append_arg(n0, n1);
    g.append_arg(n0, n1);

    let rule = canonical_peano_rule();
    assert!(rule.rewrite(&mut g));
    assert_eq!(g.value(n0), Value(2));
    assert_eq!(g.args(n0), vec![]);
}

#[test]
fn test_canonical_rewrite_failure_leaves_graph() {
    // { 0: Succ(0) } : the redex does not match at the root.
    let mut g = DataGraph::new();
    let n0 = g.alloc_node(Value(3));
    g.append_arg(n0, n0);

    let rule = canonical_peano_rule();
    let before = g.clone();
    assert!(!rule.rewrite(&mut g));
    assert_eq!(g, before);
}
