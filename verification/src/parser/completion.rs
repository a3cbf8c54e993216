use vstd::prelude::*;

use crate::ast::SExpr;
use crate::operators::{lemma_operator_table_shape, operator_table, Associativity};
use crate::parser::report::{ParseMessage, Report};
use crate::parser::spec::{
    cur_is, lemma_advance, lemma_consume, lemma_expr_settles, lemma_exprs_settles,
    lemma_group_settles, lemma_literal_settles, lemma_object_loop_settles, lemma_next, lemma_property_settles,
    lemma_skip_comments, lemma_unary_settles, recurses_at_end, settled, skip_comments,
    spec_advance, spec_consume, spec_expr, spec_expr_loop, spec_exprs, spec_exprs_loop, spec_group,
    spec_list, spec_literal, spec_member_tail, spec_next, spec_object, spec_object_loop,
    spec_parse_expr, spec_property, spec_unary, starts_literal, state_ok, state_wf, tokens_wf,
    PState, Step, literal_rank,
};
use crate::operators::operator_row;
use crate::parser::Parser;
use crate::token::{Token, TokenType};

verus! {

/// The index of the last token at or before `i` that is not a comment, or
/// -1 if there is none.
pub open spec fn last_real(ts: Seq<Token>, i: int) -> int
    decreases i + 1,
{
    if i < 0 {
        -1
    } else if ts[i].typ != TokenType::Comment {
        i
    } else {
        last_real(ts, i - 1)
    }
}

/// A stream on which parsing an expression from the start ends: `EOF`
/// comes only at its end, some token before it is not a comment, and the
/// last such token is not one after which an expression at the end of the
/// input makes the parser call itself without end (`-`, `!`, `(`, `[`).
pub open spec fn ends_well(ts: Seq<Token>) -> bool {
    &&& tokens_wf(ts)
    &&& forall|i: int| 0 <= i < ts.len() - 1 ==> #[trigger] ts[i].typ != TokenType::EOF
    &&& last_real(ts, ts.len() - 2) >= 0
    &&& !recurses_at_end(ts[last_real(ts, ts.len() - 2)].typ)
}

/// A state from which every parsing step ends: it has pulled a token that
/// is not a comment, and at the end of the input the token before `EOF` is
/// the last one that is not a comment.
pub open spec fn fine(ts: Seq<Token>, st: PState) -> bool {
    &&& state_ok(ts, st)
    &&& st.current.unwrap().typ != TokenType::Comment
    &&& cur_is(st, TokenType::EOF) ==> st.previous == Some(ts[last_real(ts, ts.len() - 2)])
}

/// The step ends, with a value or an error, in a fine state.
pub open spec fn ends_fine<T>(ts: Seq<Token>, step: Step<T>) -> bool {
    match step {
        Step::Done(_, st1) => fine(ts, st1),
        Step::Failed(_, st1) => fine(ts, st1),
        _ => false,
    }
}

proof fn lemma_last_real_bounds(ts: Seq<Token>, i: int)
    ensures
        -1 <= last_real(ts, i) <= i || i < -1,
        last_real(ts, i) >= 0 ==> ts[last_real(ts, i)].typ != TokenType::Comment,
    decreases i + 1,
{
    if i >= 0 && ts[i].typ == TokenType::Comment {
        lemma_last_real_bounds(ts, i - 1);
    }
}

/// Skipping comments from `p` up to the final `EOF` means that the last
/// token that is not a comment lies before `p`.
proof fn lemma_skip_to_end(ts: Seq<Token>, p: int)
    requires
        tokens_wf(ts),
        0 <= p <= ts.len() - 1,
        skip_comments(ts, p) == ts.len() - 1,
    ensures
        last_real(ts, ts.len() - 2) == last_real(ts, p - 1),
    decreases ts.len() - p,
{
    if p < ts.len() - 1 {
        assert(ts[p].typ == TokenType::Comment);
        lemma_skip_to_end(ts, p + 1);
    }
}

proof fn lemma_advance_fine(ts: Seq<Token>, st: PState)
    requires
        ends_well(ts),
        fine(ts, st),
    ensures
        ends_fine(ts, spec_advance(ts, st)),
        !cur_is(st, TokenType::EOF) ==> (spec_advance(ts, st) matches Step::Done(_, st1)
            ==> st1.previous == st.current),
        cur_is(st, TokenType::EOF) ==> spec_advance(ts, st) == Step::Done((), st),
{
    lemma_advance(ts, st);
    if !cur_is(st, TokenType::EOF) {
        let j = skip_comments(ts, st.pos);
        lemma_skip_comments(ts, st.pos);
        if ts[j].typ == TokenType::EOF {
            assert(j == ts.len() - 1);
            lemma_skip_to_end(ts, st.pos);
        }
    }
}

proof fn lemma_next_fine(ts: Seq<Token>, st: PState)
    requires
        ends_well(ts),
        fine(ts, st),
    ensures
        ends_fine(ts, spec_next(ts, st)),
        spec_next(ts, st) matches Step::Done(t, st1) ==> st1.previous == Some(t),
        spec_next(ts, st) matches Step::Done(t, st1) ==> (if cur_is(st, TokenType::EOF) {
            st1 == st && !recurses_at_end(t.typ)
        } else {
            Some(t) == st.current
        }),
{
    lemma_advance_fine(ts, st);
}

proof fn lemma_consume_fine(ts: Seq<Token>, st: PState, typ: TokenType, msg: ParseMessage)
    requires
        ends_well(ts),
        fine(ts, st),
        typ != TokenType::EOF,
    ensures
        ends_fine(ts, spec_consume(ts, st, typ, msg)),
        spec_consume(ts, st, typ, msg) matches Step::Done(_, st1) ==> st1.previous is Some,
{
    lemma_advance_fine(ts, st);
    lemma_consume(ts, st, typ, msg);
}

/// The kinds whose row has a postfix precedence.
proof fn lemma_postfix_kinds(t: TokenType)
    ensures
        operator_table(t.spec_row() as usize).postfix is Some ==> t == TokenType::OParen || t
            == TokenType::Period || t == TokenType::OBracket,
        t == TokenType::Minus || t == TokenType::Bang ==> operator_table(
            t.spec_row() as usize,
        ).prefix is Some,
{
}

proof fn lemma_expr_fine(ts: Seq<Token>, st: PState, min_prec: u8, can_assign: bool)
    requires
        ends_well(ts),
        fine(ts, st),
    ensures
        ends_fine(ts, spec_expr(ts, st, min_prec, can_assign)),
    decreases ts.len() - st.pos, 3nat,
{
    lemma_next_fine(ts, st);
    lemma_next(ts, st);
    match spec_next(ts, st) {
        Step::Done(tok, st1) => {
            lemma_postfix_kinds(tok.typ);
            if starts_literal(tok.typ) {
                lemma_literal_fine(ts, st1);
                lemma_literal_settles(ts, st1);
            } else if tok.typ == TokenType::Minus || tok.typ == TokenType::Bang {
                lemma_unary_fine(ts, st1);
                lemma_unary_settles(ts, st1);
            } else if tok.typ == TokenType::OParen {
                lemma_group_fine(ts, st1);
                lemma_group_settles(ts, st1);
            }
            let prefix = if starts_literal(tok.typ) {
                spec_literal(ts, st1)
            } else if tok.typ == TokenType::Minus || tok.typ == TokenType::Bang {
                spec_unary(ts, st1)
            } else if tok.typ == TokenType::OParen {
                spec_group(ts, st1)
            } else {
                Step::Failed(
                    Some(Report { message: ParseMessage::ExpectedExpression, token: tok }),
                    st1,
                )
            };
            if let Step::Done(e, st2) = prefix {
                lemma_loop_fine(ts, st2, e, min_prec, can_assign);
            }
        },
        _ => {},
    }
}

proof fn lemma_loop_fine(ts: Seq<Token>, st: PState, lhs: SExpr, min_prec: u8, can_assign: bool)
    requires
        ends_well(ts),
        fine(ts, st),
    ensures
        ends_fine(ts, spec_expr_loop(ts, st, lhs, min_prec, can_assign)),
    decreases ts.len() - st.pos, 0nat,
{
    lemma_advance(ts, st);
    lemma_advance_fine(ts, st);
    if !cur_is(st, TokenType::EOF) {
        let tok = st.current.unwrap();
        let row = operator_table(tok.typ.spec_row() as usize);
        lemma_operator_table_shape(tok.typ.spec_row() as usize);
        lemma_postfix_kinds(tok.typ);
        if row.infix is Some {
            let infix_prec = row.infix.unwrap();
            if !(min_prec < infix_prec) {
                let can_assign1 = if tok.typ != TokenType::Equal {
                    false
                } else {
                    can_assign
                };
                if let Step::Done(_, st1) = spec_advance(ts, st) {
                    if !(tok.typ == TokenType::Equal && !can_assign1) {
                        let rhs_prec: u8 = if row.associativity == Some(Associativity::Right) {
                            infix_prec
                        } else {
                            (infix_prec - 1) as u8
                        };
                        lemma_expr_fine(ts, st1, rhs_prec, can_assign1);
                        lemma_expr_settles(ts, st1, rhs_prec, can_assign1);
                        if let Step::Done(rhs, st2) = spec_expr(ts, st1, rhs_prec, can_assign1) {
                            lemma_loop_fine(
                                ts,
                                st2,
                                SExpr::Binary(tok, Box::new(lhs), Box::new(rhs)),
                                min_prec,
                                can_assign1,
                            );
                        }
                    }
                }
            }
        } else if row.postfix is Some {
            let postfix_prec = row.postfix.unwrap();
            if !(min_prec < postfix_prec) {
                if let Step::Done(_, st1) = spec_advance(ts, st) {
                    if tok.typ == TokenType::OParen {
                        if !cur_is(st1, TokenType::CParen) {
                            lemma_exprs_fine(ts, st1);
                            lemma_exprs_settles(ts, st1);
                        }
                        let args = if cur_is(st1, TokenType::CParen) {
                            Step::Done(Seq::empty(), st1)
                        } else {
                            spec_exprs(ts, st1)
                        };
                        if let Step::Done(a, st2) = args {
                            lemma_consume_fine(
                                ts,
                                st2,
                                TokenType::CParen,
                                ParseMessage::ExpectedArgumentsEnd,
                            );
                            lemma_consume(
                                ts,
                                st2,
                                TokenType::CParen,
                                ParseMessage::ExpectedArgumentsEnd,
                            );
                            if let Step::Done(_, st3) = spec_consume(
                                ts,
                                st2,
                                TokenType::CParen,
                                ParseMessage::ExpectedArgumentsEnd,
                            ) {
                                lemma_loop_fine(
                                    ts,
                                    st3,
                                    SExpr::Call(tok, Box::new(lhs), a),
                                    min_prec,
                                    can_assign,
                                );
                            }
                        }
                    } else if tok.typ == TokenType::Period {
                        lemma_consume_fine(
                            ts,
                            st1,
                            TokenType::Identifier,
                            ParseMessage::ExpectedPropertyName,
                        );
                        lemma_consume(
                            ts,
                            st1,
                            TokenType::Identifier,
                            ParseMessage::ExpectedPropertyName,
                        );
                        if let Step::Done(_, st2) = spec_consume(
                            ts,
                            st1,
                            TokenType::Identifier,
                            ParseMessage::ExpectedPropertyName,
                        ) {
                            lemma_member_tail_fine(
                                ts,
                                st2,
                                tok,
                                lhs,
                                SExpr::Variable(st2.previous.unwrap()),
                                postfix_prec,
                                min_prec,
                                can_assign,
                            );
                        }
                    } else {
                        lemma_expr_fine(ts, st1, 9, true);
                        lemma_expr_settles(ts, st1, 9, true);
                        if let Step::Done(key, st2) = spec_expr(ts, st1, 9, true) {
                            lemma_consume_fine(
                                ts,
                                st2,
                                TokenType::CBracket,
                                ParseMessage::ExpectedIndexEnd,
                            );
                            lemma_consume(
                                ts,
                                st2,
                                TokenType::CBracket,
                                ParseMessage::ExpectedIndexEnd,
                            );
                            if let Step::Done(_, st3) = spec_consume(
                                ts,
                                st2,
                                TokenType::CBracket,
                                ParseMessage::ExpectedIndexEnd,
                            ) {
                                lemma_member_tail_fine(
                                    ts,
                                    st3,
                                    tok,
                                    lhs,
                                    key,
                                    postfix_prec,
                                    min_prec,
                                    can_assign,
                                );
                            }
                        }
                    }
                }
            }
        }
    }
}

proof fn lemma_member_tail_fine(
    ts: Seq<Token>,
    st: PState,
    tok: Token,
    lhs: SExpr,
    key: SExpr,
    postfix_prec: u8,
    min_prec: u8,
    can_assign: bool,
)
    requires
        ends_well(ts),
        fine(ts, st),
    ensures
        ends_fine(ts, spec_member_tail(ts, st, tok, lhs, key, postfix_prec, min_prec, can_assign)),
    decreases ts.len() - st.pos, 1nat,
{
    lemma_next(ts, st);
    lemma_next_fine(ts, st);
    if cur_is(st, TokenType::Equal) {
        if let Step::Done(eq, st1) = spec_next(ts, st) {
            if can_assign {
                lemma_expr_fine(ts, st1, postfix_prec, true);
                lemma_expr_settles(ts, st1, postfix_prec, true);
                if let Step::Done(value, st2) = spec_expr(ts, st1, postfix_prec, true) {
                    lemma_loop_fine(
                        ts,
                        st2,
                        SExpr::SetItem(eq, Box::new(lhs), Box::new(key), Box::new(value)),
                        min_prec,
                        can_assign,
                    );
                }
            }
        }
    } else {
        lemma_loop_fine(ts, st, SExpr::Get(tok, Box::new(lhs), Box::new(key)), min_prec, can_assign);
    }
}

proof fn lemma_literal_fine(ts: Seq<Token>, st: PState)
    requires
        ends_well(ts),
        fine(ts, st),
        st.previous matches Some(t) && starts_literal(t.typ),
    ensures
        ends_fine(ts, spec_literal(ts, st)),
    decreases ts.len() - st.pos, literal_rank(st),
{
    let tok = st.previous.unwrap();
    if tok.typ == TokenType::OBracket {
        lemma_list_fine(ts, st);
    } else if tok.typ == TokenType::OBrace {
        lemma_object_fine(ts, st);
    }
}

proof fn lemma_list_fine(ts: Seq<Token>, st: PState)
    requires
        ends_well(ts),
        fine(ts, st),
    ensures
        ends_fine(ts, spec_list(ts, st)),
    decreases ts.len() - st.pos, 5nat,
{
    if !cur_is(st, TokenType::CBracket) {
        lemma_exprs_fine(ts, st);
    }
    let items = if cur_is(st, TokenType::CBracket) {
        Step::Done(Seq::empty(), st)
    } else {
        spec_exprs(ts, st)
    };
    if let Step::Done(_, st1) = items {
        lemma_consume_fine(ts, st1, TokenType::CBracket, ParseMessage::ExpectedListEnd);
    }
}

proof fn lemma_exprs_fine(ts: Seq<Token>, st: PState)
    requires
        ends_well(ts),
        fine(ts, st),
    ensures
        ends_fine(ts, spec_exprs(ts, st)),
    decreases ts.len() - st.pos, 4nat,
{
    lemma_expr_fine(ts, st, 9, true);
    lemma_expr_settles(ts, st, 9, true);
    if let Step::Done(e, st1) = spec_expr(ts, st, 9, true) {
        lemma_exprs_loop_fine(ts, st1, seq![e]);
    }
}

proof fn lemma_exprs_loop_fine(ts: Seq<Token>, st: PState, items: Seq<SExpr>)
    requires
        ends_well(ts),
        fine(ts, st),
    ensures
        ends_fine(ts, spec_exprs_loop(ts, st, items)),
    decreases ts.len() - st.pos, 0nat,
{
    lemma_advance(ts, st);
    lemma_advance_fine(ts, st);
    if cur_is(st, TokenType::Comma) {
        if let Step::Done(_, st1) = spec_advance(ts, st) {
            if !(cur_is(st1, TokenType::CBracket) || cur_is(st1, TokenType::CParen)) {
                lemma_expr_fine(ts, st1, 9, true);
                lemma_expr_settles(ts, st1, 9, true);
                if let Step::Done(e, st2) = spec_expr(ts, st1, 9, true) {
                    lemma_exprs_loop_fine(ts, st2, items.push(e));
                }
            }
        }
    }
}

proof fn lemma_property_fine(ts: Seq<Token>, st: PState)
    requires
        ends_well(ts),
        fine(ts, st),
    ensures
        ends_fine(ts, spec_property(ts, st)),
    decreases ts.len() - st.pos, 0nat,
{
    lemma_consume(ts, st, TokenType::Identifier, ParseMessage::ExpectedPropertyName);
    lemma_consume_fine(ts, st, TokenType::Identifier, ParseMessage::ExpectedPropertyName);
    if let Step::Done(_, st1) = spec_consume(
        ts,
        st,
        TokenType::Identifier,
        ParseMessage::ExpectedPropertyName,
    ) {
        lemma_consume(ts, st1, TokenType::Colon, ParseMessage::ExpectedColon);
        lemma_consume_fine(ts, st1, TokenType::Colon, ParseMessage::ExpectedColon);
        if let Step::Done(_, st2) = spec_consume(ts, st1, TokenType::Colon, ParseMessage::ExpectedColon) {
            lemma_expr_fine(ts, st2, 9, true);
        }
    }
}

proof fn lemma_object_fine(ts: Seq<Token>, st: PState)
    requires
        ends_well(ts),
        fine(ts, st),
    ensures
        ends_fine(ts, spec_object(ts, st)),
    decreases ts.len() - st.pos, 1nat,
{
    if !cur_is(st, TokenType::CBrace) {
        lemma_property_fine(ts, st);
        lemma_property_settles(ts, st);
        if let Step::Done(p, st1) = spec_property(ts, st) {
            lemma_object_loop_fine(ts, st1, seq![p]);
        }
    }
    let items = if cur_is(st, TokenType::CBrace) {
        Step::Done(Seq::empty(), st)
    } else {
        match spec_property(ts, st) {
            Step::Done(p, st1) => if settled(ts, st, st1) {
                spec_object_loop(ts, st1, seq![p])
            } else {
                Step::Aborts
            },
            other => crate::parser::spec::carry(other),
        }
    };
    if let Step::Done(_, st1) = items {
        lemma_consume_fine(ts, st1, TokenType::CBrace, ParseMessage::ExpectedObjectEnd);
    }
}

proof fn lemma_object_loop_fine(ts: Seq<Token>, st: PState, items: Seq<(Token, SExpr)>)
    requires
        ends_well(ts),
        fine(ts, st),
    ensures
        ends_fine(ts, spec_object_loop(ts, st, items)),
    decreases ts.len() - st.pos, 0nat,
{
    lemma_advance(ts, st);
    lemma_advance_fine(ts, st);
    if cur_is(st, TokenType::Comma) {
        if let Step::Done(_, st1) = spec_advance(ts, st) {
            if !cur_is(st1, TokenType::CBrace) {
                lemma_property_fine(ts, st1);
                lemma_property_settles(ts, st1);
                if let Step::Done(p, st2) = spec_property(ts, st1) {
                    lemma_object_loop_fine(ts, st2, items.push(p));
                }
            }
        }
    }
}

proof fn lemma_unary_fine(ts: Seq<Token>, st: PState)
    requires
        ends_well(ts),
        fine(ts, st),
        st.previous matches Some(t) && (t.typ == TokenType::Minus || t.typ == TokenType::Bang),
    ensures
        ends_fine(ts, spec_unary(ts, st)),
    decreases ts.len() - st.pos, 4nat,
{
    let tok = st.previous.unwrap();
    lemma_postfix_kinds(tok.typ);
    lemma_operator_table_shape(tok.typ.spec_row() as usize);
    lemma_expr_fine(ts, st, 2, false);
}

proof fn lemma_group_fine(ts: Seq<Token>, st: PState)
    requires
        ends_well(ts),
        fine(ts, st),
    ensures
        ends_fine(ts, spec_group(ts, st)),
    decreases ts.len() - st.pos, 4nat,
{
    lemma_expr_fine(ts, st, 9, true);
    if let Step::Done(_, st1) = spec_expr(ts, st, 9, true) {
        lemma_consume_fine(ts, st1, TokenType::CParen, ParseMessage::ExpectedGroupEnd);
    }
}

/// On a stream that ends well, parsing an expression from the start ends,
/// with an expression or an error; it neither panics nor recurses without
/// end.
pub proof fn law_parse_completes(ts: Seq<Token>)
    requires
        ends_well(ts),
    ensures
        spec_parse_expr(ts, PState { pos: 0, current: None, previous: None }).completes(),
{
    let st0 = PState { pos: 0, current: None, previous: None };
    lemma_advance(ts, st0);
    lemma_skip_comments(ts, 0);
    let j = skip_comments(ts, 0);
    if ts[j].typ == TokenType::EOF {
        assert(j == ts.len() - 1);
        lemma_skip_to_end(ts, 0);
    }
    if let Step::Done(_, st1) = spec_advance(ts, st0) {
        lemma_expr_fine(ts, st1, 9, true);
    }
}

/// How a parsing step that was only traced (no tree built) came out.
pub enum Ends {
    Done,
    Failed,
    Stuck,
}

/// `r` tells how the step `step` comes out, and where a value comes out,
/// the parser stands where the step leaves it.
pub open spec fn ends_as<T>(r: Ends, step: Step<T>, after: PState) -> bool {
    match step {
        Step::Done(_, st) => r is Done && after == st,
        Step::Failed(_, _) => r is Failed,
        _ => r is Stuck,
    }
}

/// A token kind after which an expression at the end of the input makes
/// the parser call itself without end.
fn recurses_at_end_exec(typ: TokenType) -> (b: bool)
    ensures
        b == recurses_at_end(typ),
{
    typ == TokenType::Minus || typ == TokenType::Bang || typ == TokenType::OParen || typ
        == TokenType::OBracket
}

impl Parser {
    /// Traces `expr`: whether it gives an expression (and where it leaves
    /// the parser), reports an error, or would not return.
    fn trace_expr(&mut self, min_prec: u8, can_assign: bool) -> (r: Ends)
        requires
            old(self).ready(),
        ensures
            final(self).inv(),
            final(self).token_seq() == old(self).token_seq(),
            ends_as(r, spec_expr(old(self).token_seq(), old(self).state(), min_prec, can_assign), final(self).state()),
        decreases old(self).token_seq().len() - old(self).state().pos, 3nat,
    {
        let ghost ts = self.token_seq();
        let ghost st = self.state();
        proof {
            lemma_next(ts, st);
            lemma_advance(ts, st);
        }
        let was_end = self.at_end();
        match self.advance() {
            Ok(()) => {},
            Err(()) => {
                return Ends::Failed;
            },
        }
        let tok = match self.previous {
            Some(t) => t,
            None => {
                return Ends::Stuck;
            },
        };
        let ghost st1 = self.state();
        if was_end && recurses_at_end_exec(tok.typ) {
            return Ends::Stuck;
        }
        let ghost prefix = if starts_literal(tok.typ) {
            spec_literal(ts, st1)
        } else if tok.typ == TokenType::Minus || tok.typ == TokenType::Bang {
            spec_unary(ts, st1)
        } else if tok.typ == TokenType::OParen {
            spec_group(ts, st1)
        } else {
            Step::Failed(Some(Report { message: ParseMessage::ExpectedExpression, token: tok }), st1)
        };
        let r = match tok.typ {
            TokenType::Identifier | TokenType::Number | TokenType::String | TokenType::True
            | TokenType::False | TokenType::Nil | TokenType::OBracket | TokenType::OBrace => {
                proof {
                    lemma_literal_settles(ts, st1);
                }
                self.trace_literal()
            },
            TokenType::Minus | TokenType::Bang => {
                proof {
                    lemma_unary_settles(ts, st1);
                }
                self.trace_unary()
            },
            TokenType::OParen => {
                proof {
                    lemma_group_settles(ts, st1);
                }
                self.trace_group()
            },
            _ => {
                return Ends::Failed;
            },
        };
        match r {
            Ends::Done => {},
            other => {
                return other;
            },
        }
        let ghost e = prefix->Done_0;
        self.trace_loop(min_prec, can_assign, Ghost(e))
    }

    /// Traces the operator loop of `expr` after `lhs`.
    fn trace_loop(&mut self, min_prec: u8, can_assign: bool, lhs: Ghost<SExpr>) -> (r: Ends)
        requires
            old(self).ready(),
        ensures
            final(self).inv(),
            final(self).token_seq() == old(self).token_seq(),
            ends_as(r, spec_expr_loop(old(self).token_seq(), old(self).state(), lhs@, min_prec, can_assign), final(self).state()),
        decreases old(self).token_seq().len() - old(self).state().pos, 0nat,
    {
        let ghost ts = self.token_seq();
        let ghost st = self.state();
        proof {
            lemma_advance(ts, st);
        }
        if self.at_end() {
            return Ends::Done;
        }
        let tok = self.peek();
        let row = operator_row(tok.typ.row());
        proof {
            lemma_operator_table_shape(tok.typ.spec_row() as usize);
        }
        match row.infix {
            Some(infix_prec) => {
                let assoc = match row.associativity {
                    Some(a) => a,
                    None => {
                        return Ends::Stuck;
                    },
                };
                if min_prec < infix_prec {
                    return Ends::Done;
                }
                let can_assign1 = if tok.typ != TokenType::Equal {
                    false
                } else {
                    can_assign
                };
                match self.advance() {
                    Ok(()) => {},
                    Err(()) => {
                        return Ends::Failed;
                    },
                }
                if tok.typ == TokenType::Equal && !can_assign1 {
                    return Ends::Failed;
                }
                let rhs_prec: u8 = match assoc {
                    Associativity::Right => infix_prec,
                    Associativity::Left => infix_prec - 1,
                };
                let ghost st1 = self.state();
                let ghost rhs_step = spec_expr(ts, st1, rhs_prec, can_assign1);
                proof {
                    lemma_expr_settles(ts, st1, rhs_prec, can_assign1);
                }
                match self.trace_expr(rhs_prec, can_assign1) {
                    Ends::Done => {},
                    other => {
                        return other;
                    },
                }
                let ghost rhs = rhs_step->Done_0;
                self.trace_loop(min_prec, can_assign1, Ghost(SExpr::Binary(tok, Box::new(lhs@), Box::new(rhs))))
            },
            None => match row.postfix {
                Some(postfix_prec) => {
                    if min_prec < postfix_prec {
                        return Ends::Done;
                    }
                    match self.advance() {
                        Ok(()) => {},
                        Err(()) => {
                            return Ends::Failed;
                        },
                    }
                    let ghost st1 = self.state();
                    if tok.typ == TokenType::OParen {
                        let ghost args_step = if cur_is(st1, TokenType::CParen) {
                            Step::Done(Seq::<SExpr>::empty(), st1)
                        } else {
                            spec_exprs(ts, st1)
                        };
                        if !self.check(TokenType::CParen) {
                            proof {
                                lemma_exprs_settles(ts, st1);
                            }
                            match self.trace_exprs() {
                                Ends::Done => {},
                                other => {
                                    return other;
                                },
                            }
                        }
                        let ghost a = args_step->Done_0;
                        let ghost st2 = self.state();
                        proof {
                            lemma_consume(ts, st2, TokenType::CParen, ParseMessage::ExpectedArgumentsEnd);
                        }
                        match self.consume(TokenType::CParen, ParseMessage::ExpectedArgumentsEnd) {
                            Ok(()) => {},
                            Err(()) => {
                                return Ends::Failed;
                            },
                        }
                        self.trace_loop(min_prec, can_assign, Ghost(SExpr::Call(tok, Box::new(lhs@), a)))
                    } else if tok.typ == TokenType::Period {
                        proof {
                            lemma_consume(ts, st1, TokenType::Identifier, ParseMessage::ExpectedPropertyName);
                        }
                        match self.consume(TokenType::Identifier, ParseMessage::ExpectedPropertyName) {
                            Ok(()) => {},
                            Err(()) => {
                                return Ends::Failed;
                            },
                        }
                        let name = match self.previous {
                            Some(n) => n,
                            None => {
                                return Ends::Stuck;
                            },
                        };
                        self.trace_member_tail(
                            tok,
                            lhs,
                            Ghost(SExpr::Variable(name)),
                            postfix_prec,
                            min_prec,
                            can_assign,
                        )
                    } else if tok.typ == TokenType::OBracket {
                        let ghost key_step = spec_expr(ts, st1, 9, true);
                        proof {
                            lemma_expr_settles(ts, st1, 9, true);
                        }
                        match self.trace_expr(9, true) {
                            Ends::Done => {},
                            other => {
                                return other;
                            },
                        }
                        let ghost key = key_step->Done_0;
                        let ghost st2 = self.state();
                        proof {
                            lemma_consume(ts, st2, TokenType::CBracket, ParseMessage::ExpectedIndexEnd);
                        }
                        match self.consume(TokenType::CBracket, ParseMessage::ExpectedIndexEnd) {
                            Ok(()) => {},
                            Err(()) => {
                                return Ends::Failed;
                            },
                        }
                        self.trace_member_tail(tok, lhs, Ghost(key), postfix_prec, min_prec, can_assign)
                    } else {
                        Ends::Stuck
                    }
                },
                None => Ends::Done,
            },
        }
    }

    /// Traces what follows `lhs.key` or `lhs[key]`.
    fn trace_member_tail(
        &mut self,
        tok: Token,
        lhs: Ghost<SExpr>,
        key: Ghost<SExpr>,
        postfix_prec: u8,
        min_prec: u8,
        can_assign: bool,
    ) -> (r: Ends)
        requires
            old(self).ready(),
        ensures
            final(self).inv(),
            final(self).token_seq() == old(self).token_seq(),
            ends_as(
                r,
                spec_member_tail(old(self).token_seq(), old(self).state(), tok, lhs@, key@, postfix_prec, min_prec, can_assign),
                final(self).state(),
            ),
        decreases old(self).token_seq().len() - old(self).state().pos, 1nat,
    {
        let ghost ts = self.token_seq();
        let ghost st = self.state();
        proof {
            lemma_next(ts, st);
            lemma_advance(ts, st);
        }
        if self.check(TokenType::Equal) {
            match self.advance() {
                Ok(()) => {},
                Err(()) => {
                    return Ends::Failed;
                },
            }
            let eq = match self.previous {
                Some(t) => t,
                None => {
                    return Ends::Stuck;
                },
            };
            if !can_assign {
                return Ends::Failed;
            }
            let ghost st1 = self.state();
            let ghost value_step = spec_expr(ts, st1, postfix_prec, true);
            proof {
                lemma_expr_settles(ts, st1, postfix_prec, true);
            }
            match self.trace_expr(postfix_prec, true) {
                Ends::Done => {},
                other => {
                    return other;
                },
            }
            let ghost value = value_step->Done_0;
            self.trace_loop(
                min_prec,
                can_assign,
                Ghost(SExpr::SetItem(eq, Box::new(lhs@), Box::new(key@), Box::new(value))),
            )
        } else {
            self.trace_loop(min_prec, can_assign, Ghost(SExpr::Get(tok, Box::new(lhs@), Box::new(key@))))
        }
    }

    /// Traces `literal`.
    fn trace_literal(&mut self) -> (r: Ends)
        requires
            old(self).ready(),
        ensures
            final(self).inv(),
            final(self).token_seq() == old(self).token_seq(),
            ends_as(r, spec_literal(old(self).token_seq(), old(self).state()), final(self).state()),
        decreases old(self).token_seq().len() - old(self).state().pos, literal_rank(old(self).state()),
    {
        let tok = match self.previous {
            Some(t) => t,
            None => {
                return Ends::Stuck;
            },
        };
        match tok.typ {
            TokenType::Identifier | TokenType::Number | TokenType::String | TokenType::True
            | TokenType::False | TokenType::Nil => Ends::Done,
            TokenType::OBracket => self.trace_list(),
            TokenType::OBrace => self.trace_object(),
            _ => Ends::Stuck,
        }
    }

    /// Traces `list`.
    fn trace_list(&mut self) -> (r: Ends)
        requires
            old(self).ready(),
        ensures
            final(self).inv(),
            final(self).token_seq() == old(self).token_seq(),
            ends_as(r, spec_list(old(self).token_seq(), old(self).state()), final(self).state()),
        decreases old(self).token_seq().len() - old(self).state().pos, 5nat,
    {
        let ghost ts = self.token_seq();
        let ghost st = self.state();
        if !self.check(TokenType::CBracket) {
            proof {
                lemma_exprs_settles(ts, st);
            }
            match self.trace_exprs() {
                Ends::Done => {},
                other => {
                    return other;
                },
            }
        }
        let ghost st1 = self.state();
        proof {
            lemma_consume(ts, st1, TokenType::CBracket, ParseMessage::ExpectedListEnd);
        }
        match self.consume(TokenType::CBracket, ParseMessage::ExpectedListEnd) {
            Ok(()) => Ends::Done,
            Err(()) => Ends::Failed,
        }
    }

    /// Traces `exprs`.
    fn trace_exprs(&mut self) -> (r: Ends)
        requires
            old(self).ready(),
        ensures
            final(self).inv(),
            final(self).token_seq() == old(self).token_seq(),
            ends_as(r, spec_exprs(old(self).token_seq(), old(self).state()), final(self).state()),
        decreases old(self).token_seq().len() - old(self).state().pos, 4nat,
    {
        let ghost ts = self.token_seq();
        let ghost st = self.state();
        let ghost first = spec_expr(ts, st, 9, true);
        proof {
            lemma_expr_settles(ts, st, 9, true);
        }
        match self.trace_expr(9, true) {
            Ends::Done => {},
            other => {
                return other;
            },
        }
        let ghost items = seq![first->Done_0];
        self.trace_exprs_loop(Ghost(items))
    }

    /// Traces the rest of `exprs` after `items`.
    fn trace_exprs_loop(&mut self, items: Ghost<Seq<SExpr>>) -> (r: Ends)
        requires
            old(self).ready(),
        ensures
            final(self).inv(),
            final(self).token_seq() == old(self).token_seq(),
            ends_as(r, spec_exprs_loop(old(self).token_seq(), old(self).state(), items@), final(self).state()),
        decreases old(self).token_seq().len() - old(self).state().pos, 0nat,
    {
        let ghost ts = self.token_seq();
        let ghost st = self.state();
        proof {
            lemma_advance(ts, st);
        }
        if !self.check(TokenType::Comma) {
            return Ends::Done;
        }
        match self.advance() {
            Ok(()) => {},
            Err(()) => {
                return Ends::Failed;
            },
        }
        if self.check(TokenType::CBracket) || self.check(TokenType::CParen) {
            return Ends::Done;
        }
        let ghost st1 = self.state();
        let ghost next_step = spec_expr(ts, st1, 9, true);
        proof {
            lemma_expr_settles(ts, st1, 9, true);
        }
        match self.trace_expr(9, true) {
            Ends::Done => {},
            other => {
                return other;
            },
        }
        self.trace_exprs_loop(Ghost(items@.push(next_step->Done_0)))
    }

    /// Traces `property`.
    fn trace_property(&mut self) -> (r: Ends)
        requires
            old(self).ready(),
        ensures
            final(self).inv(),
            final(self).token_seq() == old(self).token_seq(),
            ends_as(r, spec_property(old(self).token_seq(), old(self).state()), final(self).state()),
        decreases old(self).token_seq().len() - old(self).state().pos, 0nat,
    {
        let ghost ts = self.token_seq();
        let ghost st = self.state();
        proof {
            lemma_consume(ts, st, TokenType::Identifier, ParseMessage::ExpectedPropertyName);
        }
        match self.consume(TokenType::Identifier, ParseMessage::ExpectedPropertyName) {
            Ok(()) => {},
            Err(()) => {
                return Ends::Failed;
            },
        }
        match self.previous {
            Some(_) => {},
            None => {
                return Ends::Stuck;
            },
        }
        let ghost st1 = self.state();
        proof {
            lemma_consume(ts, st1, TokenType::Colon, ParseMessage::ExpectedColon);
        }
        match self.consume(TokenType::Colon, ParseMessage::ExpectedColon) {
            Ok(()) => {},
            Err(()) => {
                return Ends::Failed;
            },
        }
        match self.trace_expr(9, true) {
            Ends::Done => Ends::Done,
            Ends::Failed => Ends::Failed,
            Ends::Stuck => Ends::Stuck,
        }
    }

    /// Traces `object`.
    fn trace_object(&mut self) -> (r: Ends)
        requires
            old(self).ready(),
        ensures
            final(self).inv(),
            final(self).token_seq() == old(self).token_seq(),
            ends_as(r, spec_object(old(self).token_seq(), old(self).state()), final(self).state()),
        decreases old(self).token_seq().len() - old(self).state().pos, 1nat,
    {
        let ghost ts = self.token_seq();
        let ghost st = self.state();
        if !self.check(TokenType::CBrace) {
            let ghost first = spec_property(ts, st);
            proof {
                lemma_property_settles(ts, st);
            }
            match self.trace_property() {
                Ends::Done => {},
                other => {
                    return other;
                },
            }
            let ghost items = seq![first->Done_0];
            proof {
                lemma_object_loop_settles(ts, self.state(), items);
            }
            match self.trace_object_loop(Ghost(items)) {
                Ends::Done => {},
                other => {
                    return other;
                },
            }
        }
        let ghost st1 = self.state();
        proof {
            lemma_consume(ts, st1, TokenType::CBrace, ParseMessage::ExpectedObjectEnd);
        }
        match self.consume(TokenType::CBrace, ParseMessage::ExpectedObjectEnd) {
            Ok(()) => Ends::Done,
            Err(()) => Ends::Failed,
        }
    }

    /// Traces the remaining properties of `object` after `items`.
    fn trace_object_loop(&mut self, items: Ghost<Seq<(Token, SExpr)>>) -> (r: Ends)
        requires
            old(self).ready(),
        ensures
            final(self).inv(),
            final(self).token_seq() == old(self).token_seq(),
            ends_as(r, spec_object_loop(old(self).token_seq(), old(self).state(), items@), final(self).state()),
        decreases old(self).token_seq().len() - old(self).state().pos, 0nat,
    {
        let ghost ts = self.token_seq();
        let ghost st = self.state();
        proof {
            lemma_advance(ts, st);
        }
        if !self.check(TokenType::Comma) {
            return Ends::Done;
        }
        match self.advance() {
            Ok(()) => {},
            Err(()) => {
                return Ends::Failed;
            },
        }
        if self.check(TokenType::CBrace) {
            return Ends::Done;
        }
        let ghost st1 = self.state();
        let ghost next_step = spec_property(ts, st1);
        proof {
            lemma_property_settles(ts, st1);
        }
        match self.trace_property() {
            Ends::Done => {},
            other => {
                return other;
            },
        }
        self.trace_object_loop(Ghost(items@.push(next_step->Done_0)))
    }

    /// Traces `unary`.
    fn trace_unary(&mut self) -> (r: Ends)
        requires
            old(self).ready(),
        ensures
            final(self).inv(),
            final(self).token_seq() == old(self).token_seq(),
            ends_as(r, spec_unary(old(self).token_seq(), old(self).state()), final(self).state()),
        decreases old(self).token_seq().len() - old(self).state().pos, 4nat,
    {
        let tok = match self.previous {
            Some(t) => t,
            None => {
                return Ends::Stuck;
            },
        };
        match operator_row(tok.typ.row()).prefix {
            Some(prec) => match self.trace_expr(prec, false) {
                Ends::Done => Ends::Done,
                Ends::Failed => Ends::Failed,
                Ends::Stuck => Ends::Stuck,
            },
            None => Ends::Stuck,
        }
    }

    /// Traces `group`.
    fn trace_group(&mut self) -> (r: Ends)
        requires
            old(self).ready(),
        ensures
            final(self).inv(),
            final(self).token_seq() == old(self).token_seq(),
            ends_as(r, spec_group(old(self).token_seq(), old(self).state()), final(self).state()),
        decreases old(self).token_seq().len() - old(self).state().pos, 4nat,
    {
        let ghost ts = self.token_seq();
        proof {
            lemma_expr_settles(ts, self.state(), 9, true);
        }
        match self.trace_expr(9, true) {
            Ends::Done => {},
            other => {
                return other;
            },
        }
        let ghost st1 = self.state();
        proof {
            lemma_consume(ts, st1, TokenType::CParen, ParseMessage::ExpectedGroupEnd);
        }
        match self.consume(TokenType::CParen, ParseMessage::ExpectedGroupEnd) {
            Ok(()) => Ends::Done,
            Err(()) => Ends::Failed,
        }
    }
}

/// Whether parsing an expression from the start of `tokens` ends, with an
/// expression or an error: the stream ends with `EOF`, and the parse
/// neither meets the case it cannot handle (an empty stream) nor calls
/// itself without end (an expression wanted at the end of the input right
/// after `-`, `!`, `(` or `[`). Decided by tracing the parse.
pub fn parse_ends(tokens: &Vec<Token>) -> (b: bool)
    ensures
        b == (tokens_wf(tokens@) && spec_parse_expr(
            tokens@,
            PState { pos: 0, current: None, previous: None },
        ).completes()),
{
    let n = tokens.len();
    if n == 0 || tokens[n - 1].typ != TokenType::EOF {
        return false;
    }
    let mut copy: Vec<Token> = Vec::new();
    for i in 0..n
        invariant
            n == tokens@.len(),
            copy@ == tokens@.take(i as int),
    {
        copy.push(tokens[i]);
        assert(copy@ =~= tokens@.take(i + 1));
    }
    assert(copy@ =~= tokens@);
    let mut p = Parser::new(copy);
    let ghost ts = p.token_seq();
    let ghost st0 = p.state();
    proof {
        lemma_advance(ts, st0);
    }
    match p.advance() {
        Ok(()) => {},
        Err(()) => {
            return true;
        },
    }
    match p.trace_expr(9, true) {
        Ends::Stuck => false,
        _ => true,
    }
}

} // verus!
