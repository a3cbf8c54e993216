use vstd::prelude::*;

use crate::ast::SExpr;
use crate::operators::{operator_table, Associativity};
use crate::parser::report::{ParseMessage, Report};
use crate::parser::spec::{
    carry, cur_is, lemma_advance, lemma_consume, lemma_expr_settles, lemma_exprs_settles,
    lemma_group_settles, lemma_literal_settles, lemma_next, lemma_unary_settles, lemma_object_loop_settles, lemma_property_settles,
    lemma_skip_comments, literal_rank, recurses_at_end, settled, skip_comments, spec_advance,
    spec_consume, spec_expr, spec_expr_loop, spec_exprs, spec_exprs_loop, spec_group, spec_list,
    spec_literal, spec_member_tail, spec_next, spec_object, spec_object_loop, spec_property,
    spec_unary, starts_literal, state_ok, tokens_wf, PState, Step,
};
use crate::token::{Token, TokenType};

verus! {

/// `big` holds the whole of the stream `small` from index `d` on: the same
/// tokens, `d` places later, up to the same end.
pub open spec fn embeds(small: Seq<Token>, big: Seq<Token>, d: int) -> bool {
    &&& tokens_wf(small)
    &&& d >= 0
    &&& big.len() == small.len() + d
    &&& forall|i: int| 0 <= i < small.len() ==> big[i + d] == #[trigger] small[i]
}

/// The same state, `d` places later in the stream.
pub open spec fn moved(st: PState, d: int) -> PState {
    PState { pos: st.pos + d, current: st.current, previous: st.previous }
}

/// The same step, with its state `d` places later in the stream.
pub open spec fn moved_step<T>(s: Step<T>, d: int) -> Step<T> {
    match s {
        Step::Done(v, st) => Step::Done(v, moved(st, d)),
        Step::Failed(r, st) => Step::Failed(r, moved(st, d)),
        Step::Aborts => Step::Aborts,
        Step::Diverges => Step::Diverges,
    }
}

pub proof fn lemma_skip_moved(small: Seq<Token>, big: Seq<Token>, d: int, i: int)
    requires
        embeds(small, big, d),
        0 <= i <= small.len(),
    ensures
        skip_comments(big, i + d) == skip_comments(small, i) + d,
    decreases small.len() - i,
{
    if i < small.len() {
        assert(big[i + d] == small[i]);
        if small[i].typ == TokenType::Comment {
            lemma_skip_moved(small, big, d, i + 1);
        }
    }
}

pub proof fn lemma_state_moved(small: Seq<Token>, big: Seq<Token>, d: int, st: PState)
    requires
        embeds(small, big, d),
        st.pos >= 1,
    ensures
        state_ok(big, moved(st, d)) == state_ok(small, st),
{
    assert(big[small.len() - 1 + d] == small[small.len() - 1]);
    if st.pos <= small.len() {
        assert(big[st.pos - 1 + d] == small[st.pos - 1]);
    }
}

pub proof fn lemma_settled_moved(small: Seq<Token>, big: Seq<Token>, d: int, a: PState, b: PState)
    requires
        embeds(small, big, d),
        state_ok(small, a),
    ensures
        settled(big, moved(a, d), moved(b, d)) == settled(small, a, b),
{
    if b.pos >= 1 {
        lemma_state_moved(small, big, d, b);
    }
}

proof fn lemma_carry_moved<A, B>(s: Step<A>, d: int)
    ensures
        carry::<A, B>(moved_step(s, d)) == moved_step(carry::<A, B>(s), d),
{
}

pub proof fn lemma_advance_moved(small: Seq<Token>, big: Seq<Token>, d: int, st: PState)
    requires
        embeds(small, big, d),
        state_ok(small, st),
    ensures
        spec_advance(big, moved(st, d)) == moved_step(spec_advance(small, st), d),
{
    if !cur_is(st, TokenType::EOF) {
        assert(st.pos - 1 != small.len() - 1);
        lemma_skip_comments(small, st.pos);
        lemma_skip_moved(small, big, d, st.pos);
        let j = skip_comments(small, st.pos);
        assert(big[j + d] == small[j]);
    }
}

pub proof fn lemma_next_moved(small: Seq<Token>, big: Seq<Token>, d: int, st: PState)
    requires
        embeds(small, big, d),
        state_ok(small, st),
    ensures
        spec_next(big, moved(st, d)) == moved_step(spec_next(small, st), d),
{
    lemma_advance_moved(small, big, d, st);
    lemma_carry_moved::<(), Token>(spec_advance(small, st), d);
}

pub proof fn lemma_consume_moved(
    small: Seq<Token>,
    big: Seq<Token>,
    d: int,
    st: PState,
    typ: TokenType,
    msg: ParseMessage,
)
    requires
        embeds(small, big, d),
        state_ok(small, st),
    ensures
        spec_consume(big, moved(st, d), typ, msg) == moved_step(spec_consume(small, st, typ, msg), d),
{
    lemma_advance_moved(small, big, d, st);
}

/// Parsing an expression reads only the tokens from its state on: in a
/// stream that holds `small` `d` places later, it gives the same result
/// `d` places later. The token before the start may differ, unless the
/// parse starts at the end of the input.
pub proof fn lemma_expr_moved(
    small: Seq<Token>,
    big: Seq<Token>,
    d: int,
    st: PState,
    st2: PState,
    min_prec: u8,
    can_assign: bool,
)
    requires
        embeds(small, big, d),
        state_ok(small, st),
        st2.pos == st.pos + d,
        st2.current == st.current,
        st2.previous == st.previous || !cur_is(st, TokenType::EOF),
    ensures
        spec_expr(big, st2, min_prec, can_assign) == moved_step(
            spec_expr(small, st, min_prec, can_assign),
            d,
        ),
    decreases small.len() - st.pos, 3nat,
{
    lemma_state_moved(small, big, d, st);
    lemma_next(small, st);
    lemma_next_moved(small, big, d, st);
    if !cur_is(st, TokenType::EOF) {
        assert(spec_advance(big, st2) == spec_advance(big, moved(st, d)));
    } else {
        assert(st2 == moved(st, d));
    }
    assert(spec_next(big, st2) == moved_step(spec_next(small, st), d));
    lemma_carry_moved::<Token, SExpr>(spec_next(small, st), d);
    if let Step::Done(tok, st1) = spec_next(small, st) {
        if !(cur_is(st, TokenType::EOF) && recurses_at_end(tok.typ)) {
            if starts_literal(tok.typ) {
                lemma_literal_moved(small, big, d, st1);
                lemma_literal_settles(small, st1);
            } else if tok.typ == TokenType::Minus || tok.typ == TokenType::Bang {
                lemma_unary_moved(small, big, d, st1);
                lemma_unary_settles(small, st1);
            } else if tok.typ == TokenType::OParen {
                lemma_group_moved(small, big, d, st1);
                lemma_group_settles(small, st1);
            }
            let prefix = if starts_literal(tok.typ) {
                spec_literal(small, st1)
            } else if tok.typ == TokenType::Minus || tok.typ == TokenType::Bang {
                spec_unary(small, st1)
            } else if tok.typ == TokenType::OParen {
                spec_group(small, st1)
            } else {
                Step::Failed(
                    Some(Report { message: ParseMessage::ExpectedExpression, token: tok }),
                    st1,
                )
            };
            if let Step::Done(e, s2) = prefix {
                lemma_settled_moved(small, big, d, st1, s2);
                if settled(small, st1, s2) {
                    lemma_expr_loop_moved(small, big, d, s2, e, min_prec, can_assign);
                }
            }
        }
    }
}

#[verifier::rlimit(40)]
pub proof fn lemma_expr_loop_moved(
    small: Seq<Token>,
    big: Seq<Token>,
    d: int,
    st: PState,
    lhs: SExpr,
    min_prec: u8,
    can_assign: bool,
)
    requires
        embeds(small, big, d),
        state_ok(small, st),
    ensures
        spec_expr_loop(big, moved(st, d), lhs, min_prec, can_assign) == moved_step(
            spec_expr_loop(small, st, lhs, min_prec, can_assign),
            d,
        ),
    decreases small.len() - st.pos, 0nat,
{
    lemma_state_moved(small, big, d, st);
    lemma_advance(small, st);
    lemma_advance_moved(small, big, d, st);
    lemma_carry_moved::<(), SExpr>(spec_advance(small, st), d);
    if !cur_is(st, TokenType::EOF) {
        let tok = st.current.unwrap();
        let row = operator_table(tok.typ.spec_row() as usize);
        if row.infix is Some {
            let infix_prec = row.infix.unwrap();
            if row.associativity is Some && !(min_prec < infix_prec) {
                let can_assign1 = if tok.typ != TokenType::Equal {
                    false
                } else {
                    can_assign
                };
                if let Step::Done(_, st1) = spec_advance(small, st) {
                    if !(tok.typ == TokenType::Equal && !can_assign1) {
                        let rhs_prec: u8 = if row.associativity == Some(Associativity::Right) {
                            infix_prec
                        } else {
                            (infix_prec - 1) as u8
                        };
                        lemma_expr_settles(small, st1, rhs_prec, can_assign1);
                        lemma_expr_moved(small, big, d, st1, moved(st1, d), rhs_prec, can_assign1);
                        if let Step::Done(rhs, st2) = spec_expr(small, st1, rhs_prec, can_assign1) {
                            lemma_settled_moved(small, big, d, st1, st2);
                            if settled(small, st1, st2) {
                                lemma_expr_loop_moved(
                                    small,
                                    big,
                                    d,
                                    st2,
                                    SExpr::Binary(tok, Box::new(lhs), Box::new(rhs)),
                                    min_prec,
                                    can_assign1,
                                );
                            }
                        }
                    }
                }
            }
        } else if row.postfix is Some {
            let postfix_prec = row.postfix.unwrap();
            if !(min_prec < postfix_prec) {
                if let Step::Done(_, st1) = spec_advance(small, st) {
                    if tok.typ == TokenType::OParen {
                        if !cur_is(st1, TokenType::CParen) {
                            lemma_exprs_settles(small, st1);
                            lemma_exprs_moved(small, big, d, st1);
                        }
                        let args = if cur_is(st1, TokenType::CParen) {
                            Step::Done(Seq::empty(), st1)
                        } else {
                            spec_exprs(small, st1)
                        };
                        lemma_carry_moved::<Seq<SExpr>, SExpr>(args, d);
                        if let Step::Done(a, st2) = args {
                            lemma_settled_moved(small, big, d, st1, st2);
                            if settled(small, st1, st2) {
                                lemma_consume(
                                    small,
                                    st2,
                                    TokenType::CParen,
                                    ParseMessage::ExpectedArgumentsEnd,
                                );
                                lemma_consume_moved(
                                    small,
                                    big,
                                    d,
                                    st2,
                                    TokenType::CParen,
                                    ParseMessage::ExpectedArgumentsEnd,
                                );
                                let c = spec_consume(
                                    small,
                                    st2,
                                    TokenType::CParen,
                                    ParseMessage::ExpectedArgumentsEnd,
                                );
                                lemma_carry_moved::<(), SExpr>(c, d);
                                if let Step::Done(_, st3) = c {
                                    lemma_expr_loop_moved(
                                        small,
                                        big,
                                        d,
                                        st3,
                                        SExpr::Call(tok, Box::new(lhs), a),
                                        min_prec,
                                        can_assign,
                                    );
                                }
                            }
                        }
                    } else if tok.typ == TokenType::Period {
                        lemma_consume(
                            small,
                            st1,
                            TokenType::Identifier,
                            ParseMessage::ExpectedPropertyName,
                        );
                        lemma_consume_moved(
                            small,
                            big,
                            d,
                            st1,
                            TokenType::Identifier,
                            ParseMessage::ExpectedPropertyName,
                        );
                        let c = spec_consume(
                            small,
                            st1,
                            TokenType::Identifier,
                            ParseMessage::ExpectedPropertyName,
                        );
                        lemma_carry_moved::<(), SExpr>(c, d);
                        if let Step::Done(_, st2) = c {
                            if let Some(name) = st2.previous {
                                lemma_member_tail_moved(
                                    small,
                                    big,
                                    d,
                                    st2,
                                    tok,
                                    lhs,
                                    SExpr::Variable(name),
                                    postfix_prec,
                                    min_prec,
                                    can_assign,
                                );
                            }
                        }
                    } else if tok.typ == TokenType::OBracket {
                        lemma_expr_settles(small, st1, 9, true);
                        lemma_expr_moved(small, big, d, st1, moved(st1, d), 9, true);
                        if let Step::Done(key, st2) = spec_expr(small, st1, 9, true) {
                            lemma_settled_moved(small, big, d, st1, st2);
                            if settled(small, st1, st2) {
                                lemma_consume(
                                    small,
                                    st2,
                                    TokenType::CBracket,
                                    ParseMessage::ExpectedIndexEnd,
                                );
                                lemma_consume_moved(
                                    small,
                                    big,
                                    d,
                                    st2,
                                    TokenType::CBracket,
                                    ParseMessage::ExpectedIndexEnd,
                                );
                                let c = spec_consume(
                                    small,
                                    st2,
                                    TokenType::CBracket,
                                    ParseMessage::ExpectedIndexEnd,
                                );
                                lemma_carry_moved::<(), SExpr>(c, d);
                                if let Step::Done(_, st3) = c {
                                    lemma_member_tail_moved(
                                        small,
                                        big,
                                        d,
                                        st3,
                                        tok,
                                        lhs,
                                        key,
                                        postfix_prec,
                                        min_prec,
                                        can_assign,
                                    );
                                }
                            }
                        }
                    }
                }
            }
        }
    }
}

pub proof fn lemma_member_tail_moved(
    small: Seq<Token>,
    big: Seq<Token>,
    d: int,
    st: PState,
    tok: Token,
    lhs: SExpr,
    key: SExpr,
    postfix_prec: u8,
    min_prec: u8,
    can_assign: bool,
)
    requires
        embeds(small, big, d),
        state_ok(small, st),
    ensures
        spec_member_tail(big, moved(st, d), tok, lhs, key, postfix_prec, min_prec, can_assign)
            == moved_step(
            spec_member_tail(small, st, tok, lhs, key, postfix_prec, min_prec, can_assign),
            d,
        ),
    decreases small.len() - st.pos, 1nat,
{
    lemma_state_moved(small, big, d, st);
    lemma_next(small, st);
    lemma_next_moved(small, big, d, st);
    lemma_carry_moved::<Token, SExpr>(spec_next(small, st), d);
    if cur_is(st, TokenType::Equal) {
        if let Step::Done(eq, st1) = spec_next(small, st) {
            if can_assign {
                lemma_expr_settles(small, st1, postfix_prec, true);
                lemma_expr_moved(small, big, d, st1, moved(st1, d), postfix_prec, true);
                if let Step::Done(value, st2) = spec_expr(small, st1, postfix_prec, true) {
                    lemma_settled_moved(small, big, d, st1, st2);
                    if settled(small, st1, st2) {
                        lemma_expr_loop_moved(
                            small,
                            big,
                            d,
                            st2,
                            SExpr::SetItem(eq, Box::new(lhs), Box::new(key), Box::new(value)),
                            min_prec,
                            can_assign,
                        );
                    }
                }
            }
        }
    } else {
        lemma_expr_loop_moved(
            small,
            big,
            d,
            st,
            SExpr::Get(tok, Box::new(lhs), Box::new(key)),
            min_prec,
            can_assign,
        );
    }
}

pub proof fn lemma_literal_moved(small: Seq<Token>, big: Seq<Token>, d: int, st: PState)
    requires
        embeds(small, big, d),
        state_ok(small, st),
    ensures
        spec_literal(big, moved(st, d)) == moved_step(spec_literal(small, st), d),
    decreases small.len() - st.pos, literal_rank(st),
{
    lemma_state_moved(small, big, d, st);
    if let Some(tok) = st.previous {
        if tok.typ == TokenType::OBracket {
            lemma_list_moved(small, big, d, st);
        } else if tok.typ == TokenType::OBrace {
            lemma_object_moved(small, big, d, st);
        }
    }
}

pub proof fn lemma_list_moved(small: Seq<Token>, big: Seq<Token>, d: int, st: PState)
    requires
        embeds(small, big, d),
        state_ok(small, st),
    ensures
        spec_list(big, moved(st, d)) == moved_step(spec_list(small, st), d),
    decreases small.len() - st.pos, 5nat,
{
    lemma_state_moved(small, big, d, st);
    if !cur_is(st, TokenType::CBracket) {
        lemma_exprs_settles(small, st);
        lemma_exprs_moved(small, big, d, st);
    }
    let items = if cur_is(st, TokenType::CBracket) {
        Step::Done(Seq::empty(), st)
    } else {
        spec_exprs(small, st)
    };
    lemma_carry_moved::<Seq<SExpr>, SExpr>(items, d);
    if let Step::Done(_, st1) = items {
        lemma_consume(small, st1, TokenType::CBracket, ParseMessage::ExpectedListEnd);
        lemma_consume_moved(small, big, d, st1, TokenType::CBracket, ParseMessage::ExpectedListEnd);
        lemma_carry_moved::<(), SExpr>(
            spec_consume(small, st1, TokenType::CBracket, ParseMessage::ExpectedListEnd),
            d,
        );
    }
}

pub proof fn lemma_exprs_moved(small: Seq<Token>, big: Seq<Token>, d: int, st: PState)
    requires
        embeds(small, big, d),
        state_ok(small, st),
    ensures
        spec_exprs(big, moved(st, d)) == moved_step(spec_exprs(small, st), d),
    decreases small.len() - st.pos, 4nat,
{
    lemma_state_moved(small, big, d, st);
    lemma_expr_settles(small, st, 9, true);
    lemma_expr_moved(small, big, d, st, moved(st, d), 9, true);
    lemma_carry_moved::<SExpr, Seq<SExpr>>(spec_expr(small, st, 9, true), d);
    if let Step::Done(e, st1) = spec_expr(small, st, 9, true) {
        lemma_settled_moved(small, big, d, st, st1);
        if settled(small, st, st1) {
            lemma_exprs_loop_moved(small, big, d, st1, seq![e]);
        }
    }
}

pub proof fn lemma_exprs_loop_moved(
    small: Seq<Token>,
    big: Seq<Token>,
    d: int,
    st: PState,
    items: Seq<SExpr>,
)
    requires
        embeds(small, big, d),
        state_ok(small, st),
    ensures
        spec_exprs_loop(big, moved(st, d), items) == moved_step(spec_exprs_loop(small, st, items), d),
    decreases small.len() - st.pos, 0nat,
{
    lemma_state_moved(small, big, d, st);
    lemma_advance(small, st);
    lemma_advance_moved(small, big, d, st);
    lemma_carry_moved::<(), Seq<SExpr>>(spec_advance(small, st), d);
    if cur_is(st, TokenType::Comma) {
        if let Step::Done(_, st1) = spec_advance(small, st) {
            if !(cur_is(st1, TokenType::CBracket) || cur_is(st1, TokenType::CParen)) {
                lemma_expr_settles(small, st1, 9, true);
                lemma_expr_moved(small, big, d, st1, moved(st1, d), 9, true);
                lemma_carry_moved::<SExpr, Seq<SExpr>>(spec_expr(small, st1, 9, true), d);
                if let Step::Done(e, st2) = spec_expr(small, st1, 9, true) {
                    lemma_settled_moved(small, big, d, st1, st2);
                    if settled(small, st1, st2) {
                        lemma_exprs_loop_moved(small, big, d, st2, items.push(e));
                    }
                }
            }
        }
    }
}

pub proof fn lemma_property_moved(small: Seq<Token>, big: Seq<Token>, d: int, st: PState)
    requires
        embeds(small, big, d),
        state_ok(small, st),
    ensures
        spec_property(big, moved(st, d)) == moved_step(spec_property(small, st), d),
    decreases small.len() - st.pos, 0nat,
{
    lemma_state_moved(small, big, d, st);
    lemma_consume(small, st, TokenType::Identifier, ParseMessage::ExpectedPropertyName);
    lemma_consume_moved(small, big, d, st, TokenType::Identifier, ParseMessage::ExpectedPropertyName);
    let c = spec_consume(small, st, TokenType::Identifier, ParseMessage::ExpectedPropertyName);
    lemma_carry_moved::<(), (Token, SExpr)>(c, d);
    if let Step::Done(_, st1) = c {
        if let Some(key) = st1.previous {
            lemma_consume(small, st1, TokenType::Colon, ParseMessage::ExpectedColon);
            lemma_consume_moved(small, big, d, st1, TokenType::Colon, ParseMessage::ExpectedColon);
            let c1 = spec_consume(small, st1, TokenType::Colon, ParseMessage::ExpectedColon);
            lemma_carry_moved::<(), (Token, SExpr)>(c1, d);
            if let Step::Done(_, st2) = c1 {
                lemma_expr_moved(small, big, d, st2, moved(st2, d), 9, true);
                lemma_carry_moved::<SExpr, (Token, SExpr)>(spec_expr(small, st2, 9, true), d);
            }
        }
    }
}

pub proof fn lemma_object_moved(small: Seq<Token>, big: Seq<Token>, d: int, st: PState)
    requires
        embeds(small, big, d),
        state_ok(small, st),
    ensures
        spec_object(big, moved(st, d)) == moved_step(spec_object(small, st), d),
    decreases small.len() - st.pos, 1nat,
{
    lemma_state_moved(small, big, d, st);
    if !cur_is(st, TokenType::CBrace) {
        lemma_property_settles(small, st);
        lemma_property_moved(small, big, d, st);
        lemma_carry_moved::<(Token, SExpr), Seq<(Token, SExpr)>>(spec_property(small, st), d);
        if let Step::Done(p, st1) = spec_property(small, st) {
            lemma_settled_moved(small, big, d, st, st1);
            if settled(small, st, st1) {
                lemma_object_loop_settles(small, st1, seq![p]);
                lemma_object_loop_moved(small, big, d, st1, seq![p]);
            }
        }
    }
    let items = if cur_is(st, TokenType::CBrace) {
        Step::Done(Seq::empty(), st)
    } else {
        match spec_property(small, st) {
            Step::Done(p, st1) => if settled(small, st, st1) {
                spec_object_loop(small, st1, seq![p])
            } else {
                Step::Aborts
            },
            other => carry(other),
        }
    };
    lemma_carry_moved::<Seq<(Token, SExpr)>, SExpr>(items, d);
    if let Step::Done(_, st1) = items {
        lemma_consume(small, st1, TokenType::CBrace, ParseMessage::ExpectedObjectEnd);
        lemma_consume_moved(small, big, d, st1, TokenType::CBrace, ParseMessage::ExpectedObjectEnd);
        lemma_carry_moved::<(), SExpr>(
            spec_consume(small, st1, TokenType::CBrace, ParseMessage::ExpectedObjectEnd),
            d,
        );
    }
}

pub proof fn lemma_object_loop_moved(
    small: Seq<Token>,
    big: Seq<Token>,
    d: int,
    st: PState,
    items: Seq<(Token, SExpr)>,
)
    requires
        embeds(small, big, d),
        state_ok(small, st),
    ensures
        spec_object_loop(big, moved(st, d), items) == moved_step(
            spec_object_loop(small, st, items),
            d,
        ),
    decreases small.len() - st.pos, 0nat,
{
    lemma_state_moved(small, big, d, st);
    lemma_advance(small, st);
    lemma_advance_moved(small, big, d, st);
    lemma_carry_moved::<(), Seq<(Token, SExpr)>>(spec_advance(small, st), d);
    if cur_is(st, TokenType::Comma) {
        if let Step::Done(_, st1) = spec_advance(small, st) {
            if !cur_is(st1, TokenType::CBrace) {
                lemma_property_settles(small, st1);
                lemma_property_moved(small, big, d, st1);
                lemma_carry_moved::<(Token, SExpr), Seq<(Token, SExpr)>>(
                    spec_property(small, st1),
                    d,
                );
                if let Step::Done(p, st2) = spec_property(small, st1) {
                    lemma_settled_moved(small, big, d, st1, st2);
                    if settled(small, st1, st2) {
                        lemma_object_loop_moved(small, big, d, st2, items.push(p));
                    }
                }
            }
        }
    }
}

pub proof fn lemma_unary_moved(small: Seq<Token>, big: Seq<Token>, d: int, st: PState)
    requires
        embeds(small, big, d),
        state_ok(small, st),
    ensures
        spec_unary(big, moved(st, d)) == moved_step(spec_unary(small, st), d),
    decreases small.len() - st.pos, 4nat,
{
    lemma_state_moved(small, big, d, st);
    if let Some(tok) = st.previous {
        if let Some(prec) = operator_table(tok.typ.spec_row() as usize).prefix {
            lemma_expr_moved(small, big, d, st, moved(st, d), prec, false);
        }
    }
}

pub proof fn lemma_group_moved(small: Seq<Token>, big: Seq<Token>, d: int, st: PState)
    requires
        embeds(small, big, d),
        state_ok(small, st),
    ensures
        spec_group(big, moved(st, d)) == moved_step(spec_group(small, st), d),
    decreases small.len() - st.pos, 4nat,
{
    lemma_state_moved(small, big, d, st);
    lemma_expr_settles(small, st, 9, true);
    lemma_expr_moved(small, big, d, st, moved(st, d), 9, true);
    if let Step::Done(_, st1) = spec_expr(small, st, 9, true) {
        lemma_consume(small, st1, TokenType::CParen, ParseMessage::ExpectedGroupEnd);
        lemma_consume_moved(small, big, d, st1, TokenType::CParen, ParseMessage::ExpectedGroupEnd);
        lemma_carry_moved::<(), SExpr>(
            spec_consume(small, st1, TokenType::CParen, ParseMessage::ExpectedGroupEnd),
            d,
        );
    }
}

} // verus!
