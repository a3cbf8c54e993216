pub mod completion;
pub mod embedding;
pub mod report;
pub mod laws;
pub mod spec;

use vstd::prelude::*;

use crate::ast::{expr_view, exprs_view, props_view, Expr, Literal, SExpr};
use crate::operators::{operator_row, Associativity};
use crate::parser::report::{ParseMessage, Report};
use crate::operators::lemma_operator_table_shape;
use crate::parser::spec::{
    carry, cur_is, lemma_advance, lemma_consume, lemma_next, literal_rank, settled, skip_comments,
    spec_advance, spec_consume, spec_expr, spec_expr_loop, spec_exprs, spec_exprs_loop,
    spec_group, spec_list, spec_literal, spec_member_tail, spec_next, spec_object,
    spec_object_loop, spec_parse_expr, spec_property, spec_unary, state_ok, state_wf, tokens_wf,
    PState, Step,
};
use crate::parser::completion::parse_ends;
use crate::token::{Token, TokenType};

verus! {

/// A precedence-climbing parser over the token stream of one source text.
/// Errors are kept, in order, as reports.
pub struct Parser {
    tokens: Vec<Token>,
    pos: usize,
    current: Option<Token>,
    previous: Option<Token>,
    reports: Vec<Report>,
}

/// The reports after a step that files `r`, if any, on top of `before`.
pub open spec fn with_report(before: Seq<Report>, r: Option<Report>) -> Seq<Report> {
    match r {
        Some(x) => before.push(x),
        None => before,
    }
}

/// A call with result `value` (`None` for an error) took the parser from
/// `before` to `after` as the step `step` says.
pub open spec fn agrees<T>(step: Step<T>, value: Option<T>, before: Parser, after: Parser) -> bool {
    &&& after.token_seq() == before.token_seq()
    &&& match step {
        Step::Done(v, st) => value == Some(v) && after.state() == st && after.reported()
            == before.reported(),
        Step::Failed(r, st) => value is None && after.state() == st && after.reported()
            == with_report(before.reported(), r),
        _ => false,
    }
}

pub open spec fn expr_result(res: Result<Expr, ()>) -> Option<SExpr> {
    match res {
        Ok(e) => Some(expr_view(e)),
        Err(_) => None,
    }
}

pub open spec fn exprs_result(res: Result<Vec<Expr>, ()>) -> Option<Seq<SExpr>> {
    match res {
        Ok(v) => Some(exprs_view(v@)),
        Err(_) => None,
    }
}

pub open spec fn prop_result(res: Result<(Token, Expr), ()>) -> Option<(Token, SExpr)> {
    match res {
        Ok(p) => Some((p.0, expr_view(p.1))),
        Err(_) => None,
    }
}

pub proof fn lemma_exprs_view_push(s: Seq<Expr>, e: Expr)
    ensures
        exprs_view(s.push(e)) == exprs_view(s).push(expr_view(e)),
{
    assert(s.push(e).drop_last() =~= s);
}

pub proof fn lemma_props_view_push(s: Seq<(Token, Expr)>, p: (Token, Expr))
    ensures
        props_view(s.push(p)) == props_view(s).push((p.0, expr_view(p.1))),
{
    assert(s.push(p).drop_last() =~= s);
}

pub open spec fn unit_result(res: Result<(), ()>) -> Option<()> {
    match res {
        Ok(_) => Some(()),
        Err(_) => None,
    }
}

impl Parser {
    /// The token stream the parser reads.
    pub closed spec fn token_seq(&self) -> Seq<Token> {
        self.tokens@
    }

    /// Where the parser stands in its stream.
    pub closed spec fn state(&self) -> PState {
        PState { pos: self.pos as int, current: self.current, previous: self.previous }
    }

    /// The errors reported so far, oldest first.
    pub closed spec fn reported(&self) -> Seq<Report> {
        self.reports@
    }

    /// The parser's state agrees with its stream.
    pub open spec fn inv(&self) -> bool {
        state_wf(self.token_seq(), self.state())
    }

    /// The parser has pulled its first token.
    pub open spec fn ready(&self) -> bool {
        state_ok(self.token_seq(), self.state())
    }

    /// A parser at the start of `tokens`, which must end with `EOF` as the
    /// tokenizer's output does.
    pub fn new(tokens: Vec<Token>) -> (p: Parser)
        requires
            tokens_wf(tokens@),
        ensures
            p.token_seq() == tokens@,
            p.state() == (PState { pos: 0, current: None, previous: None }),
            p.reported() == Seq::<Report>::empty(),
            p.inv(),
    {
        Parser { tokens, pos: 0, current: None, previous: None, reports: Vec::new() }
    }

    /// The errors reported so far, oldest first.
    pub fn reports(&self) -> (r: &Vec<Report>)
        ensures
            r@ == self.reported(),
    {
        &self.reports
    }

    fn check_current(&self) -> (res: Result<(), ()>)
        requires
            self.current is Some,
        ensures
            res is Err <==> self.current.unwrap().typ.spec_is_invalid(),
    {
        match &self.current {
            Some(token) => {
                if token.typ.is_invalid() {
                    return Err(());
                }
                return Ok(());
            },
            None => Err(()),
        }
    }

    /// Pulls the next token of the stream.
    fn next_token(&mut self) -> (t: Token)
        requires
            old(self).pos < old(self).tokens@.len(),
        ensures
            t == old(self).tokens@[old(self).pos as int],
            final(self).pos == old(self).pos + 1,
            final(self).tokens == old(self).tokens,
            final(self).current == old(self).current,
            final(self).previous == old(self).previous,
            final(self).reports == old(self).reports,
    {
        let t = self.tokens[self.pos];
        let len = self.tokens.len();
        assert(self.pos < len);
        self.pos = self.pos + 1;
        t
    }

    fn advance(&mut self) -> (res: Result<(), ()>)
        requires
            old(self).inv(),
        ensures
            final(self).ready(),
            agrees(spec_advance(old(self).token_seq(), old(self).state()), unit_result(res), *old(self), *final(self)),
    {
        proof {
            lemma_advance(self.tokens@, self.state());
        }
        match &self.current {
            Some(token) => {
                if token.typ == TokenType::EOF {
                    return Ok(());
                }
            },
            None => {},
        };
        let ghost ts = self.tokens@;
        let ghost start = self.pos as int;
        proof {
            if start > 0 {
                assert(start - 1 != ts.len() - 1);
            }
        }
        self.previous = self.current;
        let mut next_token = self.next_token();
        while next_token.typ == TokenType::Comment
            invariant
                self.tokens@ == ts,
                tokens_wf(ts),
                0 < self.pos <= ts.len(),
                0 <= start < ts.len(),
                next_token == ts[self.pos - 1],
                skip_comments(ts, start) == skip_comments(ts, self.pos - 1),
                self.previous == old(self).current,
                self.reports == old(self).reports,
            decreases ts.len() - self.pos,
        {
            assert(self.pos - 1 != ts.len() - 1);
            next_token = self.next_token();
        }
        self.current = Some(next_token);
        self.check_current()?;
        Ok(())
    }

    fn next(&mut self) -> (res: Result<Token, ()>)
        requires
            old(self).inv(),
            spec_next(old(self).token_seq(), old(self).state()).completes(),
        ensures
            final(self).ready(),
            agrees(spec_next(old(self).token_seq(), old(self).state()), res.ok(), *old(self), *final(self)),
    {
        self.advance()?;
        match &self.previous {
            Some(token) => Ok(*token),
            None => Err(()),
        }
    }

    fn consume(&mut self, typ: TokenType, msg: ParseMessage) -> (res: Result<(), ()>)
        requires
            old(self).ready(),
        ensures
            final(self).ready(),
            agrees(spec_consume(old(self).token_seq(), old(self).state(), typ, msg), unit_result(res), *old(self), *final(self)),
    {
        if self.check(typ) {
            self.advance()
        } else {
            let report = Report::new(msg, self.peek());
            self.reports.push(report);
            Err(())
        }
    }

    fn peek(&self) -> (t: Token)
        requires
            self.current is Some,
        ensures
            t == self.current.unwrap(),
    {
        match &self.current {
            Some(token) => *token,
            None => self.tokens[0],
        }
    }

    fn check(&self, typ: TokenType) -> (b: bool)
        requires
            self.current is Some,
        ensures
            b == cur_is(self.state(), typ),
    {
        if self.peek().typ == typ {
            return true;
        }
        false
    }

    fn at_end(&self) -> (b: bool)
        requires
            self.current is Some,
        ensures
            b == cur_is(self.state(), TokenType::EOF),
    {
        self.check(TokenType::EOF)
    }

    fn literal(&mut self) -> (res: Result<Expr, ()>)
        requires
            old(self).ready(),
            spec_literal(old(self).token_seq(), old(self).state()).completes(),
        ensures
            final(self).ready(),
            agrees(spec_literal(old(self).token_seq(), old(self).state()), expr_result(res), *old(self), *final(self)),
        decreases old(self).token_seq().len() - old(self).state().pos, literal_rank(old(self).state()),
    {
        let token = match &self.previous {
            Some(t) => *t,
            None => return Err(()),
        };
        match token.typ {
            TokenType::Identifier => Ok(Expr::Variable(token)),
            TokenType::Number => Ok(Expr::Literal(Literal::Number(token))),
            TokenType::String => Ok(Expr::Literal(Literal::String(token))),
            TokenType::True | TokenType::False => Ok(Expr::Literal(Literal::Bool(token))),
            TokenType::Nil => Ok(Expr::Literal(Literal::Nil(token))),
            TokenType::OBracket => self.list(),
            TokenType::OBrace => self.object(),
            _ => Err(()),
        }
    }

    fn list(&mut self) -> (res: Result<Expr, ()>)
        requires
            old(self).ready(),
            spec_list(old(self).token_seq(), old(self).state()).completes(),
        ensures
            final(self).ready(),
            agrees(spec_list(old(self).token_seq(), old(self).state()), expr_result(res), *old(self), *final(self)),
        decreases old(self).token_seq().len() - old(self).state().pos, 5nat,
    {
        let items = if self.check(TokenType::CBracket) {
            Vec::new()
        } else {
            self.exprs()?
        };
        let ghost item_views = exprs_view(items@);
        self.consume(TokenType::CBracket, ParseMessage::ExpectedListEnd)?;
        Ok(Expr::Literal(Literal::List(items)))
    }

    fn exprs(&mut self) -> (res: Result<Vec<Expr>, ()>)
        requires
            old(self).ready(),
            spec_exprs(old(self).token_seq(), old(self).state()).completes(),
        ensures
            final(self).ready(),
            agrees(spec_exprs(old(self).token_seq(), old(self).state()), exprs_result(res), *old(self), *final(self)),
        decreases old(self).token_seq().len() - old(self).state().pos, 4nat,
    {
        let ghost ts = self.tokens@;
        let ghost target = spec_exprs(ts, self.state());
        let first = self.expr(9, true)?;
        let mut items: Vec<Expr> = Vec::new();
        items.push(first);
        proof {
            lemma_exprs_view_push(Seq::empty(), first);
            assert(items@ == Seq::<Expr>::empty().push(first));
        }
        loop
            invariant
                self.tokens@ == ts,
                ts == old(self).tokens@,
                target == spec_exprs(ts, old(self).state()),
                self.ready(),
                self.pos >= old(self).pos,
                self.reports@ == old(self).reports@,
                target == spec_exprs_loop(ts, self.state(), exprs_view(items@)),
                target.completes(),
            decreases ts.len() - self.pos,
        {
            proof {
                lemma_advance(ts, self.state());
            }
            if !self.check(TokenType::Comma) {
                return Ok(items);
            }
            self.advance()?;
            if self.check(TokenType::CBracket) || self.check(TokenType::CParen) {
                return Ok(items);
            }
            let e = self.expr(9, true)?;
            proof {
                lemma_exprs_view_push(items@, e);
            }
            items.push(e);
        }
    }

    fn property(&mut self) -> (res: Result<(Token, Expr), ()>)
        requires
            old(self).ready(),
            spec_property(old(self).token_seq(), old(self).state()).completes(),
        ensures
            final(self).ready(),
            agrees(spec_property(old(self).token_seq(), old(self).state()), prop_result(res), *old(self), *final(self)),
        decreases old(self).token_seq().len() - old(self).state().pos, 0nat,
    {
        proof {
            lemma_consume(self.tokens@, self.state(), TokenType::Identifier, ParseMessage::ExpectedPropertyName);
        }
        self.consume(TokenType::Identifier, ParseMessage::ExpectedPropertyName)?;
        let key = match &self.previous {
            Some(token) => *token,
            None => return Err(()),
        };
        proof {
            lemma_consume(self.tokens@, self.state(), TokenType::Colon, ParseMessage::ExpectedColon);
        }
        self.consume(TokenType::Colon, ParseMessage::ExpectedColon)?;
        let value = self.expr(9, true)?;
        Ok((key, value))
    }

    fn object(&mut self) -> (res: Result<Expr, ()>)
        requires
            old(self).ready(),
            spec_object(old(self).token_seq(), old(self).state()).completes(),
        ensures
            final(self).ready(),
            agrees(spec_object(old(self).token_seq(), old(self).state()), expr_result(res), *old(self), *final(self)),
        decreases old(self).token_seq().len() - old(self).state().pos, 1nat,
    {
        let ghost ts = self.tokens@;
        let mut items: Vec<(Token, Expr)> = Vec::new();
        if !self.check(TokenType::CBrace) {
            let first = self.property()?;
            items.push(first);
            proof {
                lemma_props_view_push(Seq::empty(), first);
                assert(items@ == Seq::<(Token, Expr)>::empty().push(first));
            }
            let ghost rest = spec_object_loop(ts, self.state(), props_view(items@));
            assert(!(rest is Done) ==> spec_object(ts, old(self).state()) == carry::<
                Seq<(Token, SExpr)>,
                SExpr,
            >(rest));
            assert(rest.completes());
            loop
                invariant
                    !(rest is Done) ==> spec_object(ts, old(self).state()) == carry::<
                        Seq<(Token, SExpr)>,
                        SExpr,
                    >(rest),
                    self.tokens@ == ts,
                    ts == old(self).tokens@,
                    self.ready(),
                    self.pos >= old(self).pos,
                    self.reports@ == old(self).reports@,
                    rest == spec_object_loop(ts, self.state(), props_view(items@)),
                    rest.completes(),
                ensures
                    self.tokens@ == ts,
                    self.ready(),
                    self.reports@ == old(self).reports@,
                    rest == Step::Done(props_view(items@), self.state()),
                decreases ts.len() - self.pos,
            {
                proof {
                    lemma_advance(ts, self.state());
                }
                if !self.check(TokenType::Comma) {
                    break;
                }
                self.advance()?;
                if self.check(TokenType::CBrace) {
                    break;
                }
                let p = self.property()?;
                proof {
                    lemma_props_view_push(items@, p);
                }
                items.push(p);
            }
        }
        self.consume(TokenType::CBrace, ParseMessage::ExpectedObjectEnd)?;
        Ok(Expr::Literal(Literal::Object(items)))
    }

    fn unary(&mut self) -> (res: Result<Expr, ()>)
        requires
            old(self).ready(),
            spec_unary(old(self).token_seq(), old(self).state()).completes(),
        ensures
            final(self).ready(),
            agrees(spec_unary(old(self).token_seq(), old(self).state()), expr_result(res), *old(self), *final(self)),
        decreases old(self).token_seq().len() - old(self).state().pos, 4nat,
    {
        let token = match &self.previous {
            Some(token) => *token,
            None => return Err(()),
        };
        let row = token.typ.row();
        let prefix_precedence = match operator_row(row).prefix {
            Some(precedence) => precedence,
            None => return Err(()),
        };
        let right = self.expr(prefix_precedence, false)?;
        Ok(Expr::Unary(token, Box::new(right)))
    }

    fn group(&mut self) -> (res: Result<Expr, ()>)
        requires
            old(self).ready(),
            spec_group(old(self).token_seq(), old(self).state()).completes(),
        ensures
            final(self).ready(),
            agrees(spec_group(old(self).token_seq(), old(self).state()), expr_result(res), *old(self), *final(self)),
        decreases old(self).token_seq().len() - old(self).state().pos, 4nat,
    {
        let expr = self.expr(9, true)?;
        self.consume(TokenType::CParen, ParseMessage::ExpectedGroupEnd)?;
        return Ok(expr);
    }

    /// Parses any expression whose operators bind at least as tightly as
    /// `min_precedence`.
    fn expr(&mut self, min_precedence: u8, can_assign: bool) -> (res: Result<Expr, ()>)
        requires
            old(self).ready(),
            spec_expr(old(self).token_seq(), old(self).state(), min_precedence, can_assign).completes(),
        ensures
            final(self).ready(),
            agrees(spec_expr(old(self).token_seq(), old(self).state(), min_precedence, can_assign), expr_result(res), *old(self), *final(self)),
        decreases old(self).token_seq().len() - old(self).state().pos, 3nat,
    {
        let ghost ts = self.tokens@;
        let ghost st0 = self.state();
        let ghost target = spec_expr(ts, st0, min_precedence, can_assign);
        proof {
            lemma_next(ts, st0);
        }
        let mut assignable = can_assign;
        let token = self.next()?;
        let mut expr = match token.typ {
            TokenType::Identifier | TokenType::Number | TokenType::String | TokenType::True
            | TokenType::False | TokenType::Nil | TokenType::OBracket | TokenType::OBrace => {
                self.literal()?
            },
            TokenType::Minus | TokenType::Bang => self.unary()?,
            TokenType::OParen => self.group()?,
            _ => {
                let report = Report::new(ParseMessage::ExpectedExpression, token);
                self.reports.push(report);
                return Err(());
            },
        };
        loop
            invariant
                self.tokens@ == ts,
                ts == old(self).tokens@,
                st0 == old(self).state(),
                target == spec_expr(ts, st0, min_precedence, can_assign),
                self.ready(),
                self.pos >= st0.pos,
                self.reports@ == old(self).reports@,
                target == spec_expr_loop(ts, self.state(), expr_view(expr), min_precedence, assignable),
                target.completes(),
            ensures
                self.tokens@ == ts,
                self.ready(),
                self.reports@ == old(self).reports@,
                target == Step::Done(expr_view(expr), self.state()),
            decreases ts.len() - self.pos,
        {
            proof {
                lemma_advance(ts, self.state());
            }
            if self.at_end() {
                break;
            }
            let token = self.peek();
            let ops = operator_row(token.typ.row());
            proof {
                lemma_operator_table_shape(token.typ.spec_row() as usize);
            }
            if let Some(infix_precedence) = ops.infix {
                let associativity = match ops.associativity {
                    Some(a) => a,
                    None => return Err(()),
                };
                if min_precedence < infix_precedence {
                    break;
                }
                if token.typ != TokenType::Equal {
                    assignable = false;
                }
                self.advance()?;
                if token.typ == TokenType::Equal && !assignable {
                    let report = Report::new(ParseMessage::InvalidAssignmentTarget, token);
                    self.reports.push(report);
                    return Err(());
                }
                let rhs_precedence = match associativity {
                    Associativity::Right => infix_precedence,
                    Associativity::Left => infix_precedence - 1,
                };
                let rhs = self.expr(rhs_precedence, assignable)?;
                expr = Expr::Binary(token, Box::new(expr), Box::new(rhs));
                assert(target == spec_expr_loop(ts, self.state(), expr_view(expr), min_precedence, assignable));
            } else if let Some(postfix_precedence) = ops.postfix {
                if min_precedence < postfix_precedence {
                    break;
                }
                self.advance()?;
                match token.typ {
                    TokenType::OParen => {
                        let ghost st1 = self.state();
                        let args = if self.check(TokenType::CParen) {
                            let none: Vec<Expr> = Vec::new();
                            assert(exprs_view(none@) == Seq::<SExpr>::empty());
                            none
                        } else {
                            self.exprs()?
                        };
                        let ghost st2 = self.state();
                        assert(settled(ts, st1, st2));
                        proof {
                            lemma_consume(ts, self.state(), TokenType::CParen, ParseMessage::ExpectedArgumentsEnd);
                        }
                        self.consume(TokenType::CParen, ParseMessage::ExpectedArgumentsEnd)?;
                        expr = Expr::Call(token, Box::new(expr), args);
                        assert(target == spec_expr_loop(ts, self.state(), expr_view(expr), min_precedence, assignable));
                    },
                    TokenType::Period => {
                        proof {
                            lemma_consume(ts, self.state(), TokenType::Identifier, ParseMessage::ExpectedPropertyName);
                        }
                        self.consume(TokenType::Identifier, ParseMessage::ExpectedPropertyName)?;
                        let name = match &self.previous {
                            Some(token) => *token,
                            None => return Err(()),
                        };
                        let key = Expr::Variable(name);
                        proof {
                            lemma_next(ts, self.state());
                            let tail = spec_member_tail(
                                ts,
                                self.state(),
                                token,
                                expr_view(expr),
                                expr_view(key),
                                postfix_precedence,
                                min_precedence,
                                assignable,
                            );
                            assert(target == tail);
                        }
                        if self.check(TokenType::Equal) {
                            let eq = self.next()?;
                            if !assignable {
                                let report = Report::new(ParseMessage::InvalidAssignmentTarget, eq);
                                self.reports.push(report);
                                return Err(());
                            }
                            let value = self.expr(postfix_precedence, true)?;
                            expr = Expr::SetItem(eq, Box::new(expr), Box::new(key), Box::new(value));
                        } else {
                            expr = Expr::Get(token, Box::new(expr), Box::new(key));
                        }
                    },
                    TokenType::OBracket => {
                        let key = self.expr(9, true)?;
                        proof {
                            lemma_consume(ts, self.state(), TokenType::CBracket, ParseMessage::ExpectedIndexEnd);
                        }
                        self.consume(TokenType::CBracket, ParseMessage::ExpectedIndexEnd)?;
                        proof {
                            lemma_next(ts, self.state());
                            let tail = spec_member_tail(
                                ts,
                                self.state(),
                                token,
                                expr_view(expr),
                                expr_view(key),
                                postfix_precedence,
                                min_precedence,
                                assignable,
                            );
                            assert(target == tail);
                        }
                        if self.check(TokenType::Equal) {
                            let eq = self.next()?;
                            if !assignable {
                                let report = Report::new(ParseMessage::InvalidAssignmentTarget, eq);
                                self.reports.push(report);
                                return Err(());
                            }
                            let value = self.expr(postfix_precedence, true)?;
                            expr = Expr::SetItem(eq, Box::new(expr), Box::new(key), Box::new(value));
                        } else {
                            expr = Expr::Get(token, Box::new(expr), Box::new(key));
                        }
                    },
                    _ => return Err(()),
                }
            } else {
                break;
            }
        }
        Ok(expr)
    }

    /// Parses one expression from the start of `tokens`, where that parse
    /// ends (see `parse_ends`); otherwise gives `None`. With the expression
    /// or the error comes the parser as it stands after it.
    pub fn parse_whole(tokens: Vec<Token>) -> (r: Option<(Result<Expr, ()>, Parser)>)
        ensures
            r is Some <==> tokens_wf(tokens@) && spec_parse_expr(
                tokens@,
                PState { pos: 0, current: None, previous: None },
            ).completes(),
            r matches Some((res, p)) ==> p.inv() && p.token_seq() == tokens@ && match spec_parse_expr(
                tokens@,
                PState { pos: 0, current: None, previous: None },
            ) {
                Step::Done(v, st) => expr_result(res) == Some(v) && p.state() == st && p.reported()
                    == Seq::<Report>::empty(),
                Step::Failed(rep, st) => res is Err && p.state() == st && p.reported() == with_report(
                    Seq::<Report>::empty(),
                    rep,
                ),
                _ => false,
            },
    {
        if !parse_ends(&tokens) {
            return None;
        }
        let mut p = Parser::new(tokens);
        let res = p.parse_expr();
        Some((res, p))
    }

    /// Parses one expression from the current position of the stream.
    pub fn parse_expr(&mut self) -> (res: Result<Expr, ()>)
        requires
            old(self).inv(),
            spec_parse_expr(old(self).token_seq(), old(self).state()).completes(),
        ensures
            final(self).inv(),
            agrees(spec_parse_expr(old(self).token_seq(), old(self).state()), expr_result(res), *old(self), *final(self)),
    {
        self.advance()?;
        self.expr(9, true)
    }
}

} // verus!
