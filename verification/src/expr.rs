//! A small lambda-expression evaluator.
//!
//! [`Expr`] is a classic lambda expression tree over a caller-chosen
//! type context [`Types`]: constants, variables, abstractions and
//! applications.  [`Expr::reduce`] performs one reduction pass: beta
//! reduction when a lambda stands in function position, sigma
//! reduction — delegated to the value type's [`SigmaRules`] — when a
//! constant does.  [`Expr::parse`] builds a tree from a postfix token
//! sequence.

use vstd::prelude::*;
use vstd::pervasive::unreached;
use vstd::std_specs::cmp::PartialEqSpec;

use crate::grs::SigmaRules;
use crate::grs::Types;

verus! {

/// One token of the postfix notation [`Expr::parse`] consumes: a
/// constant, a variable name, or one of the two constructors, which
/// pop their operands off the parse stack.
#[derive(Clone, Debug, PartialEq)]
pub enum Token<T: Types> {
    Val(T::Val),
    Id(T::Sym),
    Lambda,
    Apply,
}

impl<T: Types> Token<T> {
    /// A variable-name token.
    pub fn id(s: T::Sym) -> (t: Self)
        ensures
            t == Token::<T>::Id(s),
    {
        Token::Id(s)
    }

    /// A constant token.
    pub fn val(v: T::Val) -> (t: Self)
        ensures
            t == Token::<T>::Val(v),
    {
        Token::Val(v)
    }
}

/// A lambda expression tree.
#[derive(Debug, PartialEq)]
#[verifier::reject_recursive_types(T)]
pub enum Expr<T: Types> {
    Lambda(T::Sym, Box<Expr<T>>),
    Val(T::Val),
    Var(T::Sym),
    App(Box<Expr<T>>, Box<Expr<T>>),
}

/// Why parsing stopped.
#[derive(Debug)]
pub enum ParseError<T: Types> {
    /// A token that no rule of the grammar accepts here.
    Unexpected(Token<T>),
    /// Opening and closing constructs that do not pair up.
    Mismatched,
    /// A constructor token found fewer operands than it pops.
    Underflow,
    /// A lambda token whose argument operand is not a variable.
    NotAVar,
    /// The input ended without exactly one expression on the stack.
    EOF,
}

/// Why a reduction step was refused.
#[derive(Debug)]
pub enum ReduceError<T: Types> {
    /// Substituting under a lambda that rebinds the same variable.
    NameCollision,
    /// The function position holds a variable or an application.
    NotApplicable,
    /// The expression is not an application at all.
    NotBetaReducible,
    /// The value type's sigma rules refused the application.
    NotSigmaReducible(<T::Val as SigmaRules>::Error),
}

/// What substituting `exp` for the free occurrences of `var` in `e`
/// yields, under the value type's equality: `NameCollision` when the
/// substitution walks under a lambda that rebinds `var`, the
/// substituted tree otherwise.
pub open spec fn beta_spec<T: Types>(e: Expr<T>, var: T::Sym, exp: Expr<T>)
    -> Result<Expr<T>, ReduceError<T>>
    decreases e,
{
    match e {
        Expr::Var(v) => if v.eq_spec(&var) {
            Ok(exp)
        } else {
            Ok(Expr::Var(v))
        },
        Expr::Lambda(a, b) => if a.eq_spec(&var) {
            Err(ReduceError::NameCollision)
        } else {
            match beta_spec(*b, var, exp) {
                Ok(b2) => Ok(Expr::Lambda(a, Box::new(b2))),
                Err(e2) => Err(e2),
            }
        },
        Expr::App(f, x) => match beta_spec(*f, var, exp) {
            Ok(f2) => match beta_spec(*x, var, exp) {
                Ok(x2) => Ok(Expr::App(Box::new(f2), Box::new(x2))),
                Err(e2) => Err(e2),
            },
            Err(e2) => Err(e2),
        },
        Expr::Val(v) => Ok(Expr::Val(v)),
    }
}

/// An executable reduction result agrees with a specification-level
/// one: same success or failure, boxed tree equal to the plain one.
pub open spec fn reduce_result_matches<T: Types>(
    r: Result<Box<Expr<T>>, ReduceError<T>>,
    s: Result<Expr<T>, ReduceError<T>>,
) -> bool {
    match (r, s) {
        (Ok(b), Ok(e)) => *b == e,
        (Err(e1), Err(e2)) => e1 == e2,
        _ => false,
    }
}

/// What parsing the postfix tokens from position `i` on yields, given
/// the expressions already on the stack: constants and variables
/// push, `Lambda` and `Apply` pop their operands and push the built
/// node, and the input must end with exactly one expression on the
/// stack.
pub open spec fn parse_spec<T: Types>(toks: Seq<Token<T>>, i: int, stack: Seq<Expr<T>>)
    -> Result<Expr<T>, ParseError<T>>
    decreases toks.len() - i,
{
    if i < 0 || i >= toks.len() {
        if stack.len() == 1 {
            Ok(stack[0])
        } else {
            Err(ParseError::EOF)
        }
    } else {
        match toks[i] {
            Token::Val(v) => parse_spec(toks, i + 1, stack.push(Expr::Val(v))),
            Token::Id(s) => parse_spec(toks, i + 1, stack.push(Expr::Var(s))),
            Token::Lambda => if stack.len() < 2 {
                Err(ParseError::Underflow)
            } else {
                let body = stack[stack.len() - 1];
                let arg = stack[stack.len() - 2];
                match arg {
                    Expr::Var(s) => parse_spec(
                        toks,
                        i + 1,
                        stack.take(stack.len() - 2).push(Expr::Lambda(s, Box::new(body))),
                    ),
                    _ => Err(ParseError::NotAVar),
                }
            },
            Token::Apply => if stack.len() < 2 {
                Err(ParseError::Underflow)
            } else {
                let arg = stack[stack.len() - 1];
                let func = stack[stack.len() - 2];
                parse_spec(
                    toks,
                    i + 1,
                    stack.take(stack.len() - 2).push(Expr::App(Box::new(func), Box::new(arg))),
                )
            },
        }
    }
}

/// The precondition of [`Expr::reduce`]: a constant in function
/// position is only ever applied to a constant.
pub open spec fn reduce_pre<T: Types>(e: Expr<T>) -> bool {
    match e {
        Expr::App(f, x) => match *f {
            Expr::Val(_) => (*x) is Val,
            _ => true,
        },
        _ => true,
    }
}

/// The postcondition of [`Expr::reduce`]: a lambda in function
/// position beta-reduces (exactly, under the symbol type's equality);
/// a constant in function position yields whatever the sigma rules
/// decided, a constant or their refusal; anything else is refused
/// with the matching error.
pub open spec fn reduce_post<T: Types>(e: Expr<T>, r: Result<Box<Expr<T>>, ReduceError<T>>) -> bool {
    match e {
        Expr::App(f, x) => match *f {
            Expr::Lambda(a, b) => T::Sym::obeys_eq_spec()
                ==> reduce_result_matches(r, beta_spec(*b, a, *x)),
            Expr::Val(_) => (r matches Ok(bb) && (*bb) is Val)
                || (r matches Err(er) && er is NotSigmaReducible),
            _ => r matches Err(er) && er is NotApplicable,
        },
        _ => r matches Err(er) && er is NotBetaReducible,
    }
}

/// An executable parse result agrees with a specification-level one.
pub open spec fn parse_result_matches<T: Types>(
    r: Result<Box<Expr<T>>, ParseError<T>>,
    s: Result<Expr<T>, ParseError<T>>,
) -> bool {
    match (r, s) {
        (Ok(b), Ok(e)) => *b == e,
        (Err(e1), Err(e2)) => e1 == e2,
        _ => false,
    }
}

impl<T: Types> Expr<T> {
    /// A boxed constant.
    pub fn val(v: T::Val) -> (r: Box<Self>)
        ensures
            *r == Expr::<T>::Val(v),
    {
        Box::new(Expr::Val(v))
    }

    /// A boxed abstraction.
    pub fn lambda(arg: T::Sym, body: Box<Self>) -> (r: Box<Self>)
        ensures
            *r == Expr::<T>::Lambda(arg, body),
    {
        Box::new(Expr::Lambda(arg, body))
    }

    /// A boxed variable.
    pub fn var(name: T::Sym) -> (r: Box<Self>)
        ensures
            *r == Expr::<T>::Var(name),
    {
        Box::new(Expr::Var(name))
    }

    /// A boxed application.
    pub fn apply(func: Box<Self>, arg: Box<Self>) -> (r: Box<Self>)
        ensures
            *r == Expr::<T>::App(func, arg),
    {
        Box::new(Expr::App(func, arg))
    }

    /// A structural copy of the tree.
    fn duplicate(&self) -> (r: Self)
        ensures
            r == *self,
        decreases self,
    {
        match self {
            Expr::Lambda(a, b) => Expr::Lambda(*a, Box::new(b.duplicate())),
            Expr::Val(v) => Expr::Val(*v),
            Expr::Var(s) => Expr::Var(*s),
            Expr::App(f, x) => Expr::App(Box::new(f.duplicate()), Box::new(x.duplicate())),
        }
    }

    /// Performs one reduction pass: beta reduction when the function
    /// position holds a lambda, sigma reduction when it holds a
    /// constant, and the matching error otherwise.  The result may
    /// itself still be reducible.  A constant can only be applied to
    /// a constant; other operands of a constant are excluded by the
    /// precondition.
    pub fn reduce(self) -> (r: Result<Box<Expr<T>>, ReduceError<T>>)
        requires
            reduce_pre(self),
        ensures
            reduce_post(self, r),
    {
        match self {
            Expr::App(f, x) => match *f {
                Expr::Lambda(a, b) => b.beta_reduce(a, &x),
                Expr::Val(v) => Self::sigma_reduce(v, x),
                _ => Err(ReduceError::NotApplicable),
            },
            _ => Err(ReduceError::NotBetaReducible),
        }
    }

    /// Performs the substitution implied by a beta reduction:
    /// substitutes `exp` for the free occurrences of `var` in `self`.
    fn beta_reduce(self, var: T::Sym, exp: &Expr<T>) -> (r: Result<Box<Expr<T>>, ReduceError<T>>)
        ensures
            T::Sym::obeys_eq_spec() ==> reduce_result_matches(r, beta_spec(self, var, *exp)),
        decreases self,
    {
        match self {
            Expr::Var(v) => if v == var {
                Ok(Box::new(exp.duplicate()))
            } else {
                Ok(Box::new(Expr::Var(v)))
            },
            Expr::Lambda(a, b) => if a == var {
                Err(ReduceError::NameCollision)
            } else {
                match (*b).beta_reduce(var, exp) {
                    Ok(b2) => Ok(Self::lambda(a, b2)),
                    Err(e) => Err(e),
                }
            },
            Expr::App(f, x) => match (*f).beta_reduce(var, exp) {
                Ok(f2) => match (*x).beta_reduce(var, exp) {
                    Ok(x2) => Ok(Self::apply(f2, x2)),
                    Err(e) => Err(e),
                },
                Err(e) => Err(e),
            },
            Expr::Val(v) => Ok(Box::new(Expr::Val(v))),
        }
    }

    /// Sigma reduction is delegated to the value type's
    /// [`SigmaRules`]: whatever applying one constant to another
    /// yields — a new constant, or the sigma rules' refusal.
    fn sigma_reduce(func: T::Val, arg: Box<Self>) -> (r: Result<Box<Expr<T>>, ReduceError<T>>)
        requires
            (*arg) matches Expr::Val(_),
        ensures
            (r matches Ok(b) && (*b) is Val) || (r matches Err(e) && e is NotSigmaReducible),
    {
        match *arg {
            Expr::Val(x) => match T::Val::apply(func, x) {
                Ok(v) => Ok(Self::val(v)),
                Err(e) => Err(ReduceError::NotSigmaReducible(e)),
            },
            _ => unreached(),
        }
    }

    /// Parses a postfix token sequence into an expression tree, via
    /// an explicit stack: values and variables push, `Lambda` and
    /// `Apply` pop their operands.
    pub fn parse(tokens: &Vec<Token<T>>) -> (r: Result<Box<Expr<T>>, ParseError<T>>)
        ensures
            parse_result_matches(r, parse_spec(tokens@, 0, Seq::<Expr<T>>::empty())),
    {
        let ghost target = parse_spec(tokens@, 0, Seq::<Expr<T>>::empty());
        let mut stack: Vec<Expr<T>> = Vec::new();
        let n = tokens.len();
        let mut i: usize = 0;
        while i < n
            invariant
                n == tokens@.len(),
                i <= n,
                target == parse_spec(tokens@, 0, Seq::<Expr<T>>::empty()),
                target == parse_spec(tokens@, i as int, stack@),
            decreases n - i,
        {
            let ghost stack0 = stack@;
            match &tokens[i] {
                Token::Val(v) => {
                    stack.push(Expr::Val(*v));
                },
                Token::Id(s) => {
                    stack.push(Expr::Var(*s));
                },
                Token::Lambda => {
                    let body = match stack.pop() {
                        Some(b) => b,
                        None => {
                            return Err(ParseError::Underflow);
                        },
                    };
                    let arg = match stack.pop() {
                        Some(a) => a,
                        None => {
                            return Err(ParseError::Underflow);
                        },
                    };
                    match arg {
                        Expr::Var(s) => {
                            stack.push(Expr::Lambda(s, Box::new(body)));
                            proof {
                                assert(stack@ =~= stack0.take(stack0.len() - 2).push(
                                    Expr::Lambda(s, Box::new(body)),
                                ));
                            }
                        },
                        _ => {
                            return Err(ParseError::NotAVar);
                        },
                    }
                },
                Token::Apply => {
                    let arg = match stack.pop() {
                        Some(a) => a,
                        None => {
                            return Err(ParseError::Underflow);
                        },
                    };
                    let func = match stack.pop() {
                        Some(f) => f,
                        None => {
                            return Err(ParseError::Underflow);
                        },
                    };
                    stack.push(Expr::App(Box::new(func), Box::new(arg)));
                    proof {
                        assert(stack@ =~= stack0.take(stack0.len() - 2).push(
                            Expr::App(Box::new(stack0[stack0.len() - 2]), Box::new(stack0[stack0.len() - 1])),
                        ));
                    }
                },
            }
            i = i + 1;
        }
        if stack.len() == 1 {
            let e = stack.pop().unwrap();
            Ok(Box::new(e))
        } else {
            Err(ParseError::EOF)
        }
    }
}

} // verus!
