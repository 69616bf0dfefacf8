use fgrs::expr::Expr;
use fgrs::expr::ParseError;
use fgrs::expr::ReduceError;
use fgrs::expr::Token;
use fgrs::grs::SigmaRules;
use fgrs::grs::Types;

/* This shows how to implement Types for this crate */
#[derive(Clone, Debug, PartialEq)]
struct MyTypes;

impl Types for MyTypes {
    type Val = i32;
    type Sym = &'static str;
    type Id = ();
    type Var = ();
}

type Tok = Token<MyTypes>;
type Exp = Expr<MyTypes>;

use self::BinOp::And;
use self::BinOp::Xor;
use self::SigmaTestVal::Binary;
use self::SigmaTestVal::Not;
use self::SigmaTestVal::Partial;
use self::SigmaTestVal::Prim;

#[test]
fn test_parse_simple0() {
    let got = Exp::parse(&vec![Tok::id("x"), Tok::id("y"), Tok::Apply]).unwrap();

    let expected = Exp::apply(Exp::var("x"), Exp::var("y"));
    assert_eq!(got, expected);
}

#[test]
fn test_parse_simple1() {
    let got = Exp::parse(&vec![Tok::id("x"), Tok::id("y"), Tok::Lambda]).unwrap();

    let expected = Exp::lambda("x", Exp::var("y"));
    assert_eq!(got, expected);
}

#[test]
fn test_parse_simple2() {
    let got = Exp::parse(&vec![
        Tok::id("x"),
        Tok::id("y"),
        Tok::Lambda,
        Tok::id("z"),
        Tok::Apply,
    ])
    .unwrap();

    let expected = Exp::apply(Exp::lambda("x", Exp::var("y")), Exp::var("z"));

    assert_eq!(got, expected);
}

#[test]
fn test_beta_reduction() {
    type E = Exp;

    // (\x.x) 0 -b-> 0
    assert_eq!(
        E::apply(E::lambda("x", E::var("x")), E::val(0)).reduce().unwrap(),
        E::val(0)
    );

    // (\x.(\y.x)) 0 -b-> (\y.0)
    assert_eq!(
        E::apply(E::lambda("x", E::lambda("y", E::var("x"))), E::val(0))
            .reduce()
            .unwrap(),
        E::lambda("y", E::val(0))
    );

    // (\f.f 0) (\x.x) -b-> (\x.x) 0 -b-> 0
    assert_eq!(
        E::apply(
            E::lambda("f", E::apply(E::var("f"), E::val(0))),
            E::lambda("x", E::var("x"))
        )
        .reduce()
        .unwrap()
        .reduce()
        .unwrap(),
        E::val(0)
    )
}

/**
 * This section demonstrates extending the pure lambda calc with sigma rules.
 */
#[derive(Clone, Debug, PartialEq)]
struct SigmaTestTypes;

#[derive(Copy, Clone, Debug, PartialEq)]
enum BinOp {
    And,
    Or,
    Xor,
}

#[derive(Copy, Clone, Debug, PartialEq)]
enum SigmaTestVal {
    // negation is the only unary operator here
    Not,
    // primitive value
    Prim(bool),
    Binary(BinOp),
    // partially applied binary operator
    Partial(BinOp, bool),
}

impl SigmaTestVal {
    fn binary(op: BinOp, x: bool, y: bool) -> Self {
        match op {
            BinOp::And => Self::Prim(x && y),
            BinOp::Or => Self::Prim(x || y),
            BinOp::Xor => Self::Prim(x ^ y),
        }
    }
}

#[derive(Debug)]
enum SigmaTestError {
    NotImplemented,
    NotABool,
    NotAnOperator,
}

impl Default for SigmaTestError {
    fn default() -> Self {
        Self::NotImplemented
    }
}

impl Types for SigmaTestTypes {
    type Val = SigmaTestVal;
    type Sym = &'static str;
    type Id = ();
    type Var = ();
}

impl SigmaRules for SigmaTestVal {
    type Error = SigmaTestError;

    fn apply(f: Self, x: Self) -> Result<Self, Self::Error> {
        // Binary operations return a partial with their inner
        // argument; only applying a partial to its second value
        // gives a result.
        match (f, x) {
            (Not, Prim(x)) => Ok(Prim(!x)),
            (Not, _) => Err(SigmaTestError::NotABool),
            (Binary(o), Prim(x)) => Ok(Partial(o, x)),
            (Partial(o, v), Prim(x)) => Ok(Self::binary(o, v, x)),
            (Prim(_), _) => Err(SigmaTestError::NotAnOperator),
            _ => Err(SigmaTestError::NotImplemented),
        }
    }
}

#[test]
fn test_sigma_reduction() {
    type E = Expr<SigmaTestTypes>;

    assert_eq!(
        E::apply(E::val(Not), E::val(Prim(true))).reduce().unwrap(),
        E::val(Prim(false))
    );

    assert_eq!(
        E::apply(E::val(Binary(And)), E::val(Prim(true))).reduce().unwrap(),
        E::val(Partial(And, true))
    );

    assert_eq!(
        E::apply(E::val(Partial(And, true)), E::val(Prim(true)))
            .reduce()
            .unwrap(),
        E::val(Prim(true))
    );

    assert_eq!(
        E::apply(
            E::apply(E::val(Binary(Xor)), E::val(Prim(true))).reduce().unwrap(),
            E::val(Prim(true))
        )
        .reduce()
        .unwrap(),
        E::val(Prim(false))
    );
}

#[test]
fn test_parse_underflow() {
    let got = Exp::parse(&vec![Tok::Apply]);
    assert!(matches!(got, Err(ParseError::Underflow)));
}

#[test]
fn test_parse_lambda_underflow() {
    let got = Exp::parse(&vec![Tok::id("x"), Tok::Lambda]);
    assert!(matches!(got, Err(ParseError::Underflow)));
}

#[test]
fn test_parse_not_a_var() {
    let got = Exp::parse(&vec![Tok::val(0), Tok::val(1), Tok::Lambda]);
    assert!(matches!(got, Err(ParseError::NotAVar)));
}

#[test]
fn test_parse_eof() {
    let empty = Exp::parse(&vec![]);
    assert!(matches!(empty, Err(ParseError::EOF)));

    let two = Exp::parse(&vec![Tok::id("x"), Tok::id("y")]);
    assert!(matches!(two, Err(ParseError::EOF)));
}

#[test]
fn test_reduce_not_beta_reducible() {
    let got = Exp::var("x").reduce();
    assert!(matches!(got, Err(ReduceError::NotBetaReducible)));
}

#[test]
fn test_reduce_not_applicable() {
    let got = Exp::apply(Exp::var("f"), Exp::val(0)).reduce();
    assert!(matches!(got, Err(ReduceError::NotApplicable)));
}

#[test]
fn test_reduce_name_collision() {
    // (\x.\x.x) 0 : substitution walks under a lambda that rebinds x
    let got = Exp::apply(
        Exp::lambda("x", Exp::lambda("x", Exp::var("x"))),
        Exp::val(0),
    )
    .reduce();
    assert!(matches!(got, Err(ReduceError::NameCollision)));
}

#[test]
fn test_reduce_not_sigma_reducible() {
    type E = Expr<SigmaTestTypes>;

    let got = E::apply(E::val(Prim(true)), E::val(Prim(false))).reduce();
    assert!(matches!(
        got,
        Err(ReduceError::NotSigmaReducible(SigmaTestError::NotAnOperator))
    ));
}
