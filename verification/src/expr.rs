//! The values of the interpreter.
use vstd::prelude::*;
use crate::error::ScmResult;
use crate::rational::Rational;

verus! {

broadcast use vstd::std_specs::vec::group_vec_axioms;

/// The procedures that the interpreter provides itself.
#[derive(Clone, Copy, Debug, PartialEq, Eq)]
pub enum Builtin {
    Add,
    Sub,
    Mul,
    Div,
    IsEmpty,
    Length,
    NumEq,
    Greater,
    Less,
    GreaterEq,
    LessEq,
    Display,
    Cons,
    Car,
    Cdr,
    List,
    Flip,
    Reverse,
    Println,
    Readln,
    Die,
    Exit,
    AllocBox,
    DerefBox,
    Begin,
}

/// A procedure made by `lambda`: its parameter list and its body.
#[derive(Debug, PartialEq)]
pub struct ScmLambda {
    pub params: Box<Expr>,
    pub body: Box<Expr>,
}

/// A macro made by `defmacro`: its parameter list and its body.
#[derive(Debug, PartialEq)]
pub struct ScmMacro {
    pub params: Box<Expr>,
    pub body: Box<Expr>,
}

/// A value of the interpreter.
#[derive(Debug, PartialEq)]
pub enum Expr {
    /// A floating-point number, by its IEEE 754 bits.
    Floating(u64),
    Rational(Rational),
    Integral(i128),
    Symbol(String),
    String(String),
    List(Vec<Expr>),
    Func(Builtin),
    Lambda(ScmLambda),
    Macro(ScmMacro),
    Bool(bool),
    Quote(Box<Expr>),
    /// A box on the heap, by its place there.
    Ptr(usize),
    Void,
}

/// A value as contracts see it.
pub enum Val {
    Floating(u64),
    Rational(Rational),
    Integral(i128),
    Symbol(Seq<char>),
    Str(Seq<char>),
    List(Seq<Val>),
    Func(Builtin),
    Lambda(Box<Val>, Box<Val>),
    Macro(Box<Val>, Box<Val>),
    Bool(bool),
    Quote(Box<Val>),
    Ptr(usize),
    Void,
}

/// The value that an expression stands for.
pub open spec fn val_of(e: Expr) -> Val
    decreases e,
{
    match e {
        Expr::Floating(b) => Val::Floating(b),
        Expr::Rational(r) => Val::Rational(r),
        Expr::Integral(i) => Val::Integral(i),
        Expr::Symbol(s) => Val::Symbol(s@),
        Expr::String(s) => Val::Str(s@),
        Expr::List(v) => Val::List(
            Seq::new(
                v@.len(),
                |i: int|
                    if 0 <= i < v@.len() {
                        val_of(v@[i])
                    } else {
                        Val::Void
                    },
            ),
        ),
        Expr::Func(b) => Val::Func(b),
        Expr::Lambda(l) => Val::Lambda(Box::new(val_of(*l.params)), Box::new(val_of(*l.body))),
        Expr::Macro(m) => Val::Macro(Box::new(val_of(*m.params)), Box::new(val_of(*m.body))),
        Expr::Bool(b) => Val::Bool(b),
        Expr::Quote(q) => Val::Quote(Box::new(val_of(*q))),
        Expr::Ptr(p) => Val::Ptr(p),
        Expr::Void => Val::Void,
    }
}

/// The values of a sequence of expressions.
pub open spec fn vals_of(v: Seq<Expr>) -> Seq<Val> {
    Seq::new(v.len(), |i: int| val_of(v[i]))
}

/// What a step of evaluation gives, as contracts see it: a value or an error message.
pub open spec fn outcome(r: ScmResult<Expr>) -> Result<Val, Seq<char>> {
    match r {
        Ok(e) => Ok(e@),
        Err(e) => Err(e.message()),
    }
}

impl View for Expr {
    type V = Val;

    open spec fn view(&self) -> Val {
        val_of(*self)
    }
}

/// The value of a list expression is the list of its elements' values.
pub proof fn lemma_val_of_list(v: Vec<Expr>)
    ensures
        val_of(Expr::List(v)) == Val::List(vals_of(v@)),
{
    match val_of(Expr::List(v)) {
        Val::List(s) => {
            assert(s =~= vals_of(v@));
        },
        _ => {},
    }
}

/// A copy of each expression of `v`, in order.
pub fn copy_all(v: &Vec<Expr>) -> (r: Vec<Expr>)
    ensures
        vals_of(r@) == vals_of(v@),
{
    let mut out: Vec<Expr> = Vec::new();
    let mut i: usize = 0;
    while i < v.len()
        invariant
            i <= v.len(),
            out@.len() == i,
            forall|j: int| 0 <= j < i ==> val_of(#[trigger] out@[j]) == val_of(v@[j]),
        decreases v.len() - i,
    {
        out.push(v[i].copy());
        i = i + 1;
    }
    proof {
        assert(vals_of(out@) =~= vals_of(v@));
    }
    out
}

impl Expr {
    /// A copy of the expression, all the way down.
    pub fn copy(&self) -> (r: Expr)
        ensures
            r@ == self@,
        decreases self,
    {
        match self {
            Expr::Floating(b) => Expr::Floating(*b),
            Expr::Rational(r) => Expr::Rational(*r),
            Expr::Integral(i) => Expr::Integral(*i),
            Expr::Symbol(s) => Expr::Symbol(s.clone()),
            Expr::String(s) => Expr::String(s.clone()),
            Expr::List(v) => {
                let mut out: Vec<Expr> = Vec::new();
                let mut i: usize = 0;
                while i < v.len()
                    invariant
                        *self == Expr::List(*v),
                        i <= v.len(),
                        out@.len() == i,
                        forall|j: int| 0 <= j < i ==> val_of(#[trigger] out@[j]) == val_of(v@[j]),
                    decreases v.len() - i,
                {
                    proof {
                        assert(decreases_to!(*self => self->List_0));
                        assert(decreases_to!(*v => v[i as int]));
                        assert(decreases_to!(*self => v[i as int]));
                    }
                    out.push(v[i].copy());
                    i = i + 1;
                }
                proof {
                    lemma_val_of_list(out);
                    lemma_val_of_list(*v);
                    assert(vals_of(out@) =~= vals_of(v@));
                }
                Expr::List(out)
            },
            Expr::Func(b) => Expr::Func(*b),
            Expr::Lambda(l) => Expr::Lambda(
                ScmLambda { params: Box::new(l.params.copy()), body: Box::new(l.body.copy()) },
            ),
            Expr::Macro(m) => Expr::Macro(
                ScmMacro { params: Box::new(m.params.copy()), body: Box::new(m.body.copy()) },
            ),
            Expr::Bool(b) => Expr::Bool(*b),
            Expr::Quote(q) => Expr::Quote(Box::new(q.copy())),
            Expr::Ptr(p) => Expr::Ptr(*p),
            Expr::Void => Expr::Void,
        }
    }
}

} // verus!
