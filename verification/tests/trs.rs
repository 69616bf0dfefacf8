use fgrs::grs::SigmaRules;
use fgrs::grs::Types;
use fgrs::trs::Rule;
use fgrs::trs::Term;
use fgrs::trs::TermReductionSystem;

use fgrs::trs::Term::Const;
use fgrs::trs::Term::SubTerm;
use fgrs::trs::Term::Var;
use self::Symbols::a;
use self::Symbols::b;
use self::Symbols::c;
use self::Symbols::d;
use self::Symbols::x;
use self::Symbols::y;
use self::Values::Cons;
use self::Values::F;
use self::Values::False;
use self::Values::G;
use self::Values::Hd;
use self::Values::If;
use self::Values::Int;
use self::Values::True;
use self::Values::W;

// We can get away with a limited set of identifiers for tests. These
// are lower-case to match the literature. Variables in rules are
// typically lower case, while constants are CamelCase or just a
// capital letter.
#[allow(non_camel_case_types)]
#[allow(dead_code)]
#[derive(Copy, Clone, Debug, PartialEq)]
enum Symbols {
    a,
    b,
    c,
    d,
    x,
    y,
}

// We can get away with a limited set of "constant" values as well.
#[allow(dead_code)]
#[derive(Copy, Clone, Debug, PartialEq)]
enum Values {
    If,
    True,
    False,
    Int(i8),
    F,
    G,
    W,
    Hd,
    Cons,
}

// We can punt on sigma rules for now.
impl SigmaRules for Values {
    type Error = ();
}

#[derive(Copy, Clone, Debug, PartialEq)]
struct TestTrsTypes;

impl Types for TestTrsTypes {
    type Sym = Symbols;
    type Val = Values;
    type Id = ();
    type Var = ();
}

type TestTrs = TermReductionSystem<TestTrsTypes>;
type TestRule = Rule<TestTrsTypes>;

#[test]
fn test_rules() {
    // Example from the book
    let trs: TestTrs = TermReductionSystem(vec![
        // LHS                                       RHS
        Rule(If, vec![Const(True), Var(x), Var(y)], vec![Var(x)]),
        Rule(If, vec![Const(False), Var(x), Var(y)], vec![Var(y)]),
    ]);

    // Another example from the book.
    let trs: TestTrs = TermReductionSystem(vec![
        // LHS                                         RHS
        Rule(F, vec![Const(F), Var(x), Const(Int(0))], vec![Const(Int(1))]),
        Rule(G, vec![], vec![Const(Int(1))]),
        Rule(W, vec![Const(W)], vec![Const(W)]),
    ]);
    let _ = trs;
    assert!(true);
}

#[test]
fn test_is_left_normal() {
    let r1: TestRule = Rule(Hd, vec![SubTerm(Cons, vec![Var(a), Var(b)])], vec![Var(b)]);

    let r2: TestRule = Rule(F, vec![Var(a), Const(Cons)], vec![]);

    let r3: TestRule = Rule(F, vec![SubTerm(Cons, vec![Var(a)]), Const(F)], vec![]);

    let r4: TestRule = Rule(
        F,
        vec![
            SubTerm(Cons, vec![Var(a), Var(b)]),
            SubTerm(Cons, vec![Var(c), Var(d)]),
        ],
        vec![Const(Int(0))],
    );
    let _ = (r2, r3, r4);

    assert_eq!(r1.is_left_normal(), true);
}

#[test]
fn test_trs_is_left_normal() {
    // The scan accepts every rule while no variable has been seen:
    // the whole system passes.
    let trs: TestTrs = TermReductionSystem(vec![
        Rule(If, vec![Const(True), Var(x), Var(y)], vec![Var(x)]),
        Rule(F, vec![Var(a), Const(Cons)], vec![]),
    ]);
    assert_eq!(trs.is_left_normal(), true);
}
