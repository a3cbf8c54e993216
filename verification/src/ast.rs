use vstd::prelude::*;

use crate::token::Token;

verus! {

broadcast use {vstd::seq::axiom_seq_index_decreases, vstd::seq::axiom_seq_subrange_decreases};

/// A literal written in the source.
#[derive(Debug)]
pub enum Literal {
    Number(Token),
    String(Token),
    Bool(Token),
    Nil(Token),
    List(Vec<Expr>),
    Object(Vec<(Token, Expr)>),
}

/// An expression tree. Each node keeps the token that produced it.
#[derive(Debug)]
pub enum Expr {
    Variable(Token),
    Literal(Literal),
    Unary(Token, Box<Expr>),
    Binary(Token, Box<Expr>, Box<Expr>),
    Call(Token, Box<Expr>, Vec<Expr>),
    Get(Token, Box<Expr>, Box<Expr>),
    SetItem(Token, Box<Expr>, Box<Expr>, Box<Expr>),
}

/// The mathematical form of an expression tree: the same shape, with
/// sequences in place of vectors.
pub enum SExpr {
    Variable(Token),
    Number(Token),
    Str(Token),
    Bool(Token),
    Nil(Token),
    List(Seq<SExpr>),
    Object(Seq<(Token, SExpr)>),
    Unary(Token, Box<SExpr>),
    Binary(Token, Box<SExpr>, Box<SExpr>),
    Call(Token, Box<SExpr>, Seq<SExpr>),
    Get(Token, Box<SExpr>, Box<SExpr>),
    SetItem(Token, Box<SExpr>, Box<SExpr>, Box<SExpr>),
}

pub open spec fn expr_view(e: Expr) -> SExpr
    decreases e,
{
    match e {
        Expr::Variable(t) => SExpr::Variable(t),
        Expr::Literal(l) => match l {
            Literal::Number(t) => SExpr::Number(t),
            Literal::String(t) => SExpr::Str(t),
            Literal::Bool(t) => SExpr::Bool(t),
            Literal::Nil(t) => SExpr::Nil(t),
            Literal::List(items) => SExpr::List(exprs_view(items@)),
            Literal::Object(items) => SExpr::Object(props_view(items@)),
        },
        Expr::Unary(t, r) => SExpr::Unary(t, Box::new(expr_view(*r))),
        Expr::Binary(t, l, r) => SExpr::Binary(t, Box::new(expr_view(*l)), Box::new(expr_view(*r))),
        Expr::Call(t, c, args) => SExpr::Call(t, Box::new(expr_view(*c)), exprs_view(args@)),
        Expr::Get(t, o, k) => SExpr::Get(t, Box::new(expr_view(*o)), Box::new(expr_view(*k))),
        Expr::SetItem(t, o, k, v) => SExpr::SetItem(
            t,
            Box::new(expr_view(*o)),
            Box::new(expr_view(*k)),
            Box::new(expr_view(*v)),
        ),
    }
}

pub open spec fn exprs_view(s: Seq<Expr>) -> Seq<SExpr>
    decreases s,
{
    if s.len() == 0 {
        Seq::empty()
    } else {
        exprs_view(s.drop_last()).push(expr_view(s.last()))
    }
}

pub open spec fn props_view(s: Seq<(Token, Expr)>) -> Seq<(Token, SExpr)>
    decreases s,
{
    if s.len() == 0 {
        Seq::empty()
    } else {
        props_view(s.drop_last()).push((s.last().0, expr_view(s.last().1)))
    }
}

impl View for Expr {
    type V = SExpr;

    open spec fn view(&self) -> SExpr {
        expr_view(*self)
    }
}

} // verus!
