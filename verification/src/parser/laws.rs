use vstd::prelude::*;

use crate::ast::SExpr;
use crate::operators::{lemma_operator_table_shape, operator_table, Associativity};
use crate::parser::report::{ParseMessage, Report};
use crate::parser::spec::{
    cur_is, lemma_advance, lemma_consume, lemma_next, recurses_at_end, settled, skip_comments,
    spec_advance, spec_consume, spec_expr, spec_expr_loop, spec_exprs, spec_exprs_loop, spec_group,
    spec_literal,
    spec_member_tail, spec_list, spec_next, spec_object, spec_object_loop, spec_parse_expr, spec_property,
    spec_unary, starts_literal, state_ok, PState,
    Step,
};
use crate::parser::embedding::{
    embeds, lemma_expr_moved, lemma_settled_moved, lemma_skip_moved, lemma_state_moved, moved,
};
use crate::parser::spec::{lemma_expr_settles, lemma_skip_comments};
use crate::token::{Token, TokenType};

verus! {

/// Token kinds that make a whole expression by themselves.
pub open spec fn is_primary(typ: TokenType) -> bool {
    typ == TokenType::Identifier || typ == TokenType::Number || typ == TokenType::String || typ
        == TokenType::True || typ == TokenType::False || typ == TokenType::Nil
}

/// The expression a primary token makes.
pub open spec fn atom(t: Token) -> SExpr {
    if t.typ == TokenType::Identifier {
        SExpr::Variable(t)
    } else if t.typ == TokenType::Number {
        SExpr::Number(t)
    } else if t.typ == TokenType::String {
        SExpr::Str(t)
    } else if t.typ == TokenType::Nil {
        SExpr::Nil(t)
    } else {
        SExpr::Bool(t)
    }
}

/// The binding power of a token kind used as an infix operator.
pub open spec fn infix_power(typ: TokenType) -> Option<u8> {
    operator_table(typ.spec_row() as usize).infix
}

/// A binary operator other than assignment.
pub open spec fn is_plain_binary(typ: TokenType) -> bool {
    infix_power(typ) is Some && typ != TokenType::Equal
}

/// The state after `pos` tokens of `ts` have been pulled (none skipped).
pub open spec fn at(ts: Seq<Token>, pos: int) -> PState {
    PState { pos, current: Some(ts[pos - 1]), previous: if pos >= 2 { Some(ts[pos - 2]) } else { None } }
}

pub open spec fn start() -> PState {
    PState { pos: 0, current: None, previous: None }
}

proof fn lemma_pull(ts: Seq<Token>, pos: int)
    requires
        0 <= pos < ts.len(),
        ts[pos].typ != TokenType::Comment,
        ts[pos].typ != TokenType::Unknown,
        pos > 0 ==> ts[pos - 1].typ != TokenType::EOF,
        ts.last().typ == TokenType::EOF,
    ensures
        spec_advance(ts, if pos == 0 { start() } else { at(ts, pos) }) == Step::Done::<()>((), at(ts, pos + 1)),
{
    assert(skip_comments(ts, pos) == pos);
}

/// A primary token followed by the end of input is that expression.
pub proof fn law_single_primary(a: Token, eof: Token)
    requires
        is_primary(a.typ),
        eof.typ == TokenType::EOF,
    ensures
        spec_parse_expr(seq![a, eof], start()) == Step::Done(atom(a), at(seq![a, eof], 2)),
{
    let ts = seq![a, eof];
    lemma_pull(ts, 0);
    lemma_pull(ts, 1);
    assert(spec_next(ts, at(ts, 1)) == Step::Done(a, at(ts, 2)));
    assert(spec_literal(ts, at(ts, 2)) == Step::Done(atom(a), at(ts, 2)));
    assert(spec_expr_loop(ts, at(ts, 2), atom(a), 9, true) == Step::Done(atom(a), at(ts, 2)));
}

/// Two binary operators between three primaries group by binding power:
/// the right operator takes `b` only if it binds strictly tighter than the
/// left one; otherwise the left operator takes it (left grouping).
pub proof fn law_binary_precedence(a: Token, op1: Token, b: Token, op2: Token, c: Token, eof: Token)
    requires
        is_primary(a.typ),
        is_primary(b.typ),
        is_primary(c.typ),
        is_plain_binary(op1.typ),
        is_plain_binary(op2.typ),
        eof.typ == TokenType::EOF,
    ensures
        spec_parse_expr(seq![a, op1, b, op2, c, eof], start()) matches Step::Done(e, _) && e == if infix_power(op2.typ).unwrap()
            < infix_power(op1.typ).unwrap() {
            SExpr::Binary(
                op1,
                Box::new(atom(a)),
                Box::new(SExpr::Binary(op2, Box::new(atom(b)), Box::new(atom(c)))),
            )
        } else {
            SExpr::Binary(
                op2,
                Box::new(SExpr::Binary(op1, Box::new(atom(a)), Box::new(atom(b)))),
                Box::new(atom(c)),
            )
        },
{
    let ts = seq![a, op1, b, op2, c, eof];
    lemma_operator_table_shape(op1.typ.spec_row() as usize);
    lemma_operator_table_shape(op2.typ.spec_row() as usize);
    let p1 = infix_power(op1.typ).unwrap();
    let p2 = infix_power(op2.typ).unwrap();
    assert(op1.typ != TokenType::Comment && op1.typ != TokenType::Unknown && op1.typ != TokenType::EOF);
    assert(op2.typ != TokenType::Comment && op2.typ != TokenType::Unknown && op2.typ != TokenType::EOF);
    lemma_pull(ts, 0);
    lemma_pull(ts, 1);
    lemma_pull(ts, 2);
    lemma_pull(ts, 3);
    lemma_pull(ts, 4);
    lemma_pull(ts, 5);
    let (ea, eb, ec) = (atom(a), atom(b), atom(c));
    // `c` at the end of the input.
    assert(spec_literal(ts, at(ts, 6)) == Step::Done(ec, at(ts, 6)));
    assert(spec_expr_loop(ts, at(ts, 6), ec, (p2 - 1) as u8, false) == Step::Done(ec, at(ts, 6)));
    assert(spec_next(ts, at(ts, 5)) == Step::Done(c, at(ts, 6)));
    assert(spec_expr(ts, at(ts, 5), (p2 - 1) as u8, false) == Step::Done(ec, at(ts, 6)));
    assert(spec_literal(ts, at(ts, 4)) == Step::Done(eb, at(ts, 4)));
    assert(spec_next(ts, at(ts, 3)) == Step::Done(b, at(ts, 4)));
    assert(spec_literal(ts, at(ts, 2)) == Step::Done(ea, at(ts, 2)));
    assert(spec_next(ts, at(ts, 1)) == Step::Done(a, at(ts, 2)));
    if p2 < p1 {
        let right = SExpr::Binary(op2, Box::new(eb), Box::new(ec));
        let whole = SExpr::Binary(op1, Box::new(ea), Box::new(right));
        assert(spec_expr_loop(ts, at(ts, 6), right, (p1 - 1) as u8, false) == Step::Done(right, at(ts, 6)));
        assert(spec_expr_loop(ts, at(ts, 4), eb, (p1 - 1) as u8, false) == Step::Done(right, at(ts, 6)));
        assert(spec_expr(ts, at(ts, 3), (p1 - 1) as u8, false) == Step::Done(right, at(ts, 6)));
        assert(spec_expr_loop(ts, at(ts, 6), whole, 9, false) == Step::Done(whole, at(ts, 6)));
        assert(spec_expr_loop(ts, at(ts, 2), ea, 9, true) == Step::Done(whole, at(ts, 6)));
    } else {
        let left = SExpr::Binary(op1, Box::new(ea), Box::new(eb));
        let whole = SExpr::Binary(op2, Box::new(left), Box::new(ec));
        assert(spec_expr_loop(ts, at(ts, 4), eb, (p1 - 1) as u8, false) == Step::Done(eb, at(ts, 4)));
        assert(spec_expr(ts, at(ts, 3), (p1 - 1) as u8, false) == Step::Done(eb, at(ts, 4)));
        assert(spec_expr_loop(ts, at(ts, 6), whole, 9, false) == Step::Done(whole, at(ts, 6)));
        assert(spec_expr_loop(ts, at(ts, 4), left, 9, false) == Step::Done(whole, at(ts, 6)));
        assert(spec_expr_loop(ts, at(ts, 2), ea, 9, true) == Step::Done(whole, at(ts, 6)));
    }
}


/// Assignment groups to the right: `a = b = c` assigns `b = c` to `a`.
pub proof fn law_assignment_groups_right(a: Token, eq1: Token, b: Token, eq2: Token, c: Token, eof: Token)
    requires
        is_primary(a.typ),
        is_primary(b.typ),
        is_primary(c.typ),
        eq1.typ == TokenType::Equal,
        eq2.typ == TokenType::Equal,
        eof.typ == TokenType::EOF,
    ensures
        spec_parse_expr(seq![a, eq1, b, eq2, c, eof], start()) == Step::Done(
            SExpr::Binary(
                eq1,
                Box::new(atom(a)),
                Box::new(SExpr::Binary(eq2, Box::new(atom(b)), Box::new(atom(c)))),
            ),
            at(seq![a, eq1, b, eq2, c, eof], 6),
        ),
{
    let ts = seq![a, eq1, b, eq2, c, eof];
    lemma_operator_table_shape(eq1.typ.spec_row() as usize);
    lemma_pull(ts, 0);
    lemma_pull(ts, 1);
    lemma_pull(ts, 2);
    lemma_pull(ts, 3);
    lemma_pull(ts, 4);
    lemma_pull(ts, 5);
    let (ea, eb, ec) = (atom(a), atom(b), atom(c));
    let right = SExpr::Binary(eq2, Box::new(eb), Box::new(ec));
    let whole = SExpr::Binary(eq1, Box::new(ea), Box::new(right));
    assert(spec_literal(ts, at(ts, 6)) == Step::Done(ec, at(ts, 6)));
    assert(spec_expr_loop(ts, at(ts, 6), ec, 9, true) == Step::Done(ec, at(ts, 6)));
    assert(spec_next(ts, at(ts, 5)) == Step::Done(c, at(ts, 6)));
    assert(spec_expr(ts, at(ts, 5), 9, true) == Step::Done(ec, at(ts, 6)));
    assert(spec_literal(ts, at(ts, 4)) == Step::Done(eb, at(ts, 4)));
    assert(spec_next(ts, at(ts, 3)) == Step::Done(b, at(ts, 4)));
    assert(spec_expr_loop(ts, at(ts, 6), right, 9, true) == Step::Done(right, at(ts, 6)));
    assert(spec_expr_loop(ts, at(ts, 4), eb, 9, true) == Step::Done(right, at(ts, 6)));
    assert(spec_expr(ts, at(ts, 3), 9, true) == Step::Done(right, at(ts, 6)));
    assert(spec_literal(ts, at(ts, 2)) == Step::Done(ea, at(ts, 2)));
    assert(spec_next(ts, at(ts, 1)) == Step::Done(a, at(ts, 2)));
    assert(spec_expr_loop(ts, at(ts, 6), whole, 9, true) == Step::Done(whole, at(ts, 6)));
    assert(spec_expr_loop(ts, at(ts, 2), ea, 9, true) == Step::Done(whole, at(ts, 6)));
}

/// An assignment whose left side is a binary expression is refused: the
/// parser reports an invalid assignment at the `=`.
pub proof fn law_assignment_to_operation_refused(a: Token, op: Token, b: Token, eq: Token, c: Token, eof: Token)
    requires
        is_primary(a.typ),
        is_primary(b.typ),
        is_primary(c.typ),
        is_plain_binary(op.typ),
        eq.typ == TokenType::Equal,
        eof.typ == TokenType::EOF,
    ensures
        spec_parse_expr(seq![a, op, b, eq, c, eof], start()) == Step::Failed::<SExpr>(
            Some(Report { message: ParseMessage::InvalidAssignmentTarget, token: eq }),
            at(seq![a, op, b, eq, c, eof], 5),
        ),
{
    let ts = seq![a, op, b, eq, c, eof];
    lemma_operator_table_shape(op.typ.spec_row() as usize);
    lemma_operator_table_shape(eq.typ.spec_row() as usize);
    let p = infix_power(op.typ).unwrap();
    assert(op.typ != TokenType::Comment && op.typ != TokenType::Unknown && op.typ != TokenType::EOF);
    lemma_pull(ts, 0);
    lemma_pull(ts, 1);
    lemma_pull(ts, 2);
    lemma_pull(ts, 3);
    lemma_pull(ts, 4);
    let (ea, eb) = (atom(a), atom(b));
    let left = SExpr::Binary(op, Box::new(ea), Box::new(eb));
    assert(spec_literal(ts, at(ts, 4)) == Step::Done(eb, at(ts, 4)));
    assert(spec_next(ts, at(ts, 3)) == Step::Done(b, at(ts, 4)));
    assert(spec_expr_loop(ts, at(ts, 4), eb, (p - 1) as u8, false) == Step::Done(eb, at(ts, 4)));
    assert(spec_expr(ts, at(ts, 3), (p - 1) as u8, false) == Step::Done(eb, at(ts, 4)));
    assert(spec_literal(ts, at(ts, 2)) == Step::Done(ea, at(ts, 2)));
    assert(spec_next(ts, at(ts, 1)) == Step::Done(a, at(ts, 2)));
    assert(spec_expr_loop(ts, at(ts, 4), left, 9, false) == Step::Failed::<SExpr>(
        Some(Report { message: ParseMessage::InvalidAssignmentTarget, token: eq }),
        at(ts, 5),
    ));
    assert(spec_expr_loop(ts, at(ts, 2), ea, 9, true) == Step::Failed::<SExpr>(
        Some(Report { message: ParseMessage::InvalidAssignmentTarget, token: eq }),
        at(ts, 5),
    ));
}

/// `a.name = c` stores `c` under `name` in `a`.
pub proof fn law_property_store(a: Token, dot: Token, name: Token, eq: Token, c: Token, eof: Token)
    requires
        is_primary(a.typ),
        dot.typ == TokenType::Period,
        name.typ == TokenType::Identifier,
        eq.typ == TokenType::Equal,
        is_primary(c.typ),
        eof.typ == TokenType::EOF,
    ensures
        spec_parse_expr(seq![a, dot, name, eq, c, eof], start()) == Step::Done(
            SExpr::SetItem(
                eq,
                Box::new(atom(a)),
                Box::new(SExpr::Variable(name)),
                Box::new(atom(c)),
            ),
            at(seq![a, dot, name, eq, c, eof], 6),
        ),
{
    let ts = seq![a, dot, name, eq, c, eof];
    lemma_pull(ts, 0);
    lemma_pull(ts, 1);
    lemma_pull(ts, 2);
    lemma_pull(ts, 3);
    lemma_pull(ts, 4);
    lemma_pull(ts, 5);
    let (ea, ec) = (atom(a), atom(c));
    let whole = SExpr::SetItem(eq, Box::new(ea), Box::new(SExpr::Variable(name)), Box::new(ec));
    assert(spec_literal(ts, at(ts, 6)) == Step::Done(ec, at(ts, 6)));
    assert(spec_expr_loop(ts, at(ts, 6), ec, 1, true) == Step::Done(ec, at(ts, 6)));
    assert(spec_next(ts, at(ts, 5)) == Step::Done(c, at(ts, 6)));
    assert(spec_expr(ts, at(ts, 5), 1, true) == Step::Done(ec, at(ts, 6)));
    assert(spec_next(ts, at(ts, 4)) == Step::Done(eq, at(ts, 5)));
    assert(spec_expr_loop(ts, at(ts, 6), whole, 9, true) == Step::Done(whole, at(ts, 6)));
    assert(spec_member_tail(ts, at(ts, 4), dot, ea, SExpr::Variable(name), 1, 9, true)
        == Step::Done(whole, at(ts, 6)));
    assert(spec_consume(ts, at(ts, 3), TokenType::Identifier, ParseMessage::ExpectedPropertyName)
        == Step::Done::<()>((), at(ts, 4)));
    assert(spec_literal(ts, at(ts, 2)) == Step::Done(ea, at(ts, 2)));
    assert(spec_next(ts, at(ts, 1)) == Step::Done(a, at(ts, 2)));
    assert(spec_expr_loop(ts, at(ts, 2), ea, 9, true) == Step::Done(whole, at(ts, 6)));
}

/// Where the operator loop of an expression at level `min_prec` stops: at
/// the end of the input, at an infix or postfix operator that binds looser
/// than the level (its precedence number is above `min_prec`), or at a
/// token that neither joins nor follows an expression.
pub open spec fn stops_at(st: PState, min_prec: u8) -> bool {
    ||| cur_is(st, TokenType::EOF)
    ||| {
        let row = operator_table(st.current.unwrap().typ.spec_row() as usize);
        if row.infix is Some {
            min_prec < row.infix.unwrap()
        } else if row.postfix is Some {
            min_prec < row.postfix.unwrap()
        } else {
            true
        }
    }
}

/// An expression parsed at level `min_prec` ends only where `stops_at`
/// says: at the end of the input, at an operator binding looser than the
/// level, or at a token that cannot continue an expression.
pub proof fn law_expr_stops(ts: Seq<Token>, st: PState, min_prec: u8, can_assign: bool)
    requires
        state_ok(ts, st),
    ensures
        spec_expr(ts, st, min_prec, can_assign) matches Step::Done(_, st1) ==> stops_at(st1, min_prec),
{
    lemma_next(ts, st);
    match spec_next(ts, st) {
        Step::Done(tok, st1) => {
            if !(cur_is(st, TokenType::EOF) && recurses_at_end(tok.typ)) {
                let prefix = if starts_literal(tok.typ) {
                    spec_literal(ts, st1)
                } else if tok.typ == TokenType::Minus || tok.typ == TokenType::Bang {
                    spec_unary(ts, st1)
                } else if tok.typ == TokenType::OParen {
                    spec_group(ts, st1)
                } else {
                    Step::Failed(
                        Some(Report { message: ParseMessage::ExpectedExpression, token: tok }),
                        st1,
                    )
                };
                match prefix {
                    Step::Done(e, st2) => if settled(ts, st1, st2) {
                        lemma_loop_stops(ts, st2, e, min_prec, can_assign);
                    },
                    _ => {},
                }
            }
        },
        _ => {},
    }
}

proof fn lemma_loop_stops(ts: Seq<Token>, st: PState, lhs: SExpr, min_prec: u8, can_assign: bool)
    requires
        state_ok(ts, st),
    ensures
        spec_expr_loop(ts, st, lhs, min_prec, can_assign) matches Step::Done(_, st1) ==> stops_at(
            st1,
            min_prec,
        ),
    decreases ts.len() - st.pos, 0nat,
{
    lemma_advance(ts, st);
    if !cur_is(st, TokenType::EOF) {
        let tok = st.current.unwrap();
        let row = operator_table(tok.typ.spec_row() as usize);
        if row.infix is Some {
            let infix_prec = row.infix.unwrap();
            if row.associativity is Some && !(min_prec < infix_prec) {
                let can_assign1 = if tok.typ != TokenType::Equal {
                    false
                } else {
                    can_assign
                };
                match spec_advance(ts, st) {
                    Step::Done(_, st1) => {
                        if !(tok.typ == TokenType::Equal && !can_assign1) {
                            let rhs_prec: u8 = if row.associativity == Some(Associativity::Right) {
                                infix_prec
                            } else {
                                (infix_prec - 1) as u8
                            };
                            match spec_expr(ts, st1, rhs_prec, can_assign1) {
                                Step::Done(rhs, st2) => if settled(ts, st1, st2) {
                                    lemma_loop_stops(
                                        ts,
                                        st2,
                                        SExpr::Binary(tok, Box::new(lhs), Box::new(rhs)),
                                        min_prec,
                                        can_assign1,
                                    );
                                },
                                _ => {},
                            }
                        }
                    },
                    _ => {},
                }
            }
        } else if row.postfix is Some {
            let postfix_prec = row.postfix.unwrap();
            if !(min_prec < postfix_prec) {
                match spec_advance(ts, st) {
                    Step::Done(_, st1) => {
                        if tok.typ == TokenType::OParen {
                            let args = if cur_is(st1, TokenType::CParen) {
                                Step::Done(Seq::empty(), st1)
                            } else {
                                spec_exprs(ts, st1)
                            };
                            match args {
                                Step::Done(a, st2) => if settled(ts, st1, st2) {
                                    lemma_consume(
                                        ts,
                                        st2,
                                        TokenType::CParen,
                                        ParseMessage::ExpectedArgumentsEnd,
                                    );
                                    match spec_consume(
                                        ts,
                                        st2,
                                        TokenType::CParen,
                                        ParseMessage::ExpectedArgumentsEnd,
                                    ) {
                                        Step::Done(_, st3) => lemma_loop_stops(
                                            ts,
                                            st3,
                                            SExpr::Call(tok, Box::new(lhs), a),
                                            min_prec,
                                            can_assign,
                                        ),
                                        _ => {},
                                    }
                                },
                                _ => {},
                            }
                        } else if tok.typ == TokenType::Period {
                            lemma_consume(
                                ts,
                                st1,
                                TokenType::Identifier,
                                ParseMessage::ExpectedPropertyName,
                            );
                            match spec_consume(
                                ts,
                                st1,
                                TokenType::Identifier,
                                ParseMessage::ExpectedPropertyName,
                            ) {
                                Step::Done(_, st2) => match st2.previous {
                                    Some(name) => lemma_member_tail_stops(
                                        ts,
                                        st2,
                                        tok,
                                        lhs,
                                        SExpr::Variable(name),
                                        postfix_prec,
                                        min_prec,
                                        can_assign,
                                    ),
                                    None => {},
                                },
                                _ => {},
                            }
                        } else if tok.typ == TokenType::OBracket {
                            match spec_expr(ts, st1, 9, true) {
                                Step::Done(key, st2) => if settled(ts, st1, st2) {
                                    lemma_consume(
                                        ts,
                                        st2,
                                        TokenType::CBracket,
                                        ParseMessage::ExpectedIndexEnd,
                                    );
                                    match spec_consume(
                                        ts,
                                        st2,
                                        TokenType::CBracket,
                                        ParseMessage::ExpectedIndexEnd,
                                    ) {
                                        Step::Done(_, st3) => lemma_member_tail_stops(
                                            ts,
                                            st3,
                                            tok,
                                            lhs,
                                            key,
                                            postfix_prec,
                                            min_prec,
                                            can_assign,
                                        ),
                                        _ => {},
                                    }
                                },
                                _ => {},
                            }
                        }
                    },
                    _ => {},
                }
            }
        }
    }
}

proof fn lemma_member_tail_stops(
    ts: Seq<Token>,
    st: PState,
    tok: Token,
    lhs: SExpr,
    key: SExpr,
    postfix_prec: u8,
    min_prec: u8,
    can_assign: bool,
)
    requires
        state_ok(ts, st),
    ensures
        spec_member_tail(ts, st, tok, lhs, key, postfix_prec, min_prec, can_assign) matches Step::Done(
            _,
            st1,
        ) ==> stops_at(st1, min_prec),
    decreases ts.len() - st.pos, 1nat,
{
    lemma_next(ts, st);
    if cur_is(st, TokenType::Equal) {
        match spec_next(ts, st) {
            Step::Done(eq, st1) => if can_assign {
                match spec_expr(ts, st1, postfix_prec, true) {
                    Step::Done(value, st2) => if settled(ts, st1, st2) {
                        lemma_loop_stops(
                            ts,
                            st2,
                            SExpr::SetItem(eq, Box::new(lhs), Box::new(key), Box::new(value)),
                            min_prec,
                            can_assign,
                        );
                    },
                    _ => {},
                }
            },
            _ => {},
        }
    } else {
        lemma_loop_stops(ts, st, SExpr::Get(tok, Box::new(lhs), Box::new(key)), min_prec, can_assign);
    }
}

/// The precedence order of the binary operators, tightest first: `*` `/`
/// `%`, then `+` `-`, then the comparisons `>` `>=` `<` `<=`, then `==`
/// `!=`, then `and`, then `or`. Zero for the other kinds.
pub open spec fn tier(typ: TokenType) -> nat {
    match typ {
        TokenType::Star | TokenType::Slash | TokenType::Percent => 1,
        TokenType::Plus | TokenType::Minus => 2,
        TokenType::Greater | TokenType::GreaterEqual | TokenType::Less | TokenType::LessEqual => 3,
        TokenType::EqualEqual | TokenType::BangEqual => 4,
        TokenType::And => 5,
        TokenType::Or => 6,
        _ => 0,
    }
}

/// The operator table orders the binary operators as `tier` does.
proof fn lemma_tiers_match_table(op1: TokenType, op2: TokenType)
    requires
        tier(op1) > 0,
        tier(op2) > 0,
    ensures
        is_plain_binary(op1),
        is_plain_binary(op2),
        infix_power(op2).unwrap() < infix_power(op1).unwrap() <==> tier(op2) < tier(op1),
{
}

/// Binary operators group by the precedence order: in `a op1 b op2 c`, the
/// right operator takes `b` only when it is in a tighter tier than the left
/// one; otherwise the left one takes it (operators of one tier group to
/// the left). So `x > y + 1` is `x > (y + 1)`, `x + y > 1` is
/// `(x + y) > 1`, and `a * b + c` is `(a * b) + c`.
pub proof fn law_precedence_order(a: Token, op1: Token, b: Token, op2: Token, c: Token, eof: Token)
    requires
        is_primary(a.typ),
        is_primary(b.typ),
        is_primary(c.typ),
        tier(op1.typ) > 0,
        tier(op2.typ) > 0,
        eof.typ == TokenType::EOF,
    ensures
        spec_parse_expr(seq![a, op1, b, op2, c, eof], start()) matches Step::Done(e, _) && e == if tier(
            op2.typ,
        ) < tier(op1.typ) {
            SExpr::Binary(
                op1,
                Box::new(atom(a)),
                Box::new(SExpr::Binary(op2, Box::new(atom(b)), Box::new(atom(c)))),
            )
        } else {
            SExpr::Binary(
                op2,
                Box::new(SExpr::Binary(op1, Box::new(atom(a)), Box::new(atom(b)))),
                Box::new(atom(c)),
            )
        },
{
    lemma_tiers_match_table(op1.typ, op2.typ);
    law_binary_precedence(a, op1, b, op2, c, eof);
}

/// The key of an index is a whole expression, not cut at the index's own
/// binding power: `a [ i op n ]` reads `a` at `i op n`, for every binary
/// operator `op` (assignment aside).
pub proof fn law_index_key_is_whole(
    a: Token,
    open: Token,
    i: Token,
    op: Token,
    n: Token,
    close: Token,
    eof: Token,
)
    requires
        is_primary(a.typ),
        open.typ == TokenType::OBracket,
        is_primary(i.typ),
        is_plain_binary(op.typ),
        is_primary(n.typ),
        close.typ == TokenType::CBracket,
        eof.typ == TokenType::EOF,
    ensures
        spec_parse_expr(seq![a, open, i, op, n, close, eof], start()) matches Step::Done(e, _) && e
            == SExpr::Get(
            open,
            Box::new(atom(a)),
            Box::new(SExpr::Binary(op, Box::new(atom(i)), Box::new(atom(n)))),
        ),
{
    let ts = seq![a, open, i, op, n, close, eof];
    lemma_operator_table_shape(op.typ.spec_row() as usize);
    let p = infix_power(op.typ).unwrap();
    assert(op.typ != TokenType::Comment && op.typ != TokenType::Unknown && op.typ != TokenType::EOF);
    lemma_pull(ts, 0);
    lemma_pull(ts, 1);
    lemma_pull(ts, 2);
    lemma_pull(ts, 3);
    lemma_pull(ts, 4);
    lemma_pull(ts, 5);
    lemma_pull(ts, 6);
    let (ea, ei, en) = (atom(a), atom(i), atom(n));
    let key = SExpr::Binary(op, Box::new(ei), Box::new(en));
    let whole = SExpr::Get(open, Box::new(ea), Box::new(key));
    // `n` and the key, which end at `]`.
    assert(spec_next(ts, at(ts, 5)) == Step::Done(n, at(ts, 6)));
    assert(spec_literal(ts, at(ts, 6)) == Step::Done(en, at(ts, 6)));
    assert(spec_expr_loop(ts, at(ts, 6), en, (p - 1) as u8, false) == Step::Done(en, at(ts, 6)));
    assert(spec_expr(ts, at(ts, 5), (p - 1) as u8, false) == Step::Done(en, at(ts, 6)));
    assert(spec_expr_loop(ts, at(ts, 6), key, 9, false) == Step::Done(key, at(ts, 6)));
    assert(spec_next(ts, at(ts, 3)) == Step::Done(i, at(ts, 4)));
    assert(spec_literal(ts, at(ts, 4)) == Step::Done(ei, at(ts, 4)));
    assert(spec_expr_loop(ts, at(ts, 4), ei, 9, true) == Step::Done(key, at(ts, 6)));
    assert(spec_expr(ts, at(ts, 3), 9, true) == Step::Done(key, at(ts, 6)));
    // `]`, then the read of `a` at the key.
    assert(spec_consume(ts, at(ts, 6), TokenType::CBracket, ParseMessage::ExpectedIndexEnd)
        == Step::Done::<()>((), at(ts, 7)));
    assert(spec_expr_loop(ts, at(ts, 7), whole, 9, true) == Step::Done(whole, at(ts, 7)));
    assert(spec_member_tail(ts, at(ts, 7), open, ea, key, 1, 9, true) == Step::Done(whole, at(ts, 7)));
    assert(spec_next(ts, at(ts, 1)) == Step::Done(a, at(ts, 2)));
    assert(spec_literal(ts, at(ts, 2)) == Step::Done(ea, at(ts, 2)));
    assert(spec_expr_loop(ts, at(ts, 2), ea, 9, true) == Step::Done(whole, at(ts, 7)));
}

/// The value of a property is a whole expression: `{ name : x op y }` is
/// the object whose one property `name` holds `x op y`, for every binary
/// operator `op` (assignment aside).
pub proof fn law_property_value_is_whole(
    open: Token,
    name: Token,
    colon: Token,
    x: Token,
    op: Token,
    y: Token,
    close: Token,
    eof: Token,
)
    requires
        open.typ == TokenType::OBrace,
        name.typ == TokenType::Identifier,
        colon.typ == TokenType::Colon,
        is_primary(x.typ),
        is_plain_binary(op.typ),
        is_primary(y.typ),
        close.typ == TokenType::CBrace,
        eof.typ == TokenType::EOF,
    ensures
        spec_parse_expr(seq![open, name, colon, x, op, y, close, eof], start()) matches Step::Done(
            e,
            _,
        ) && e == SExpr::Object(
            seq![(name, SExpr::Binary(op, Box::new(atom(x)), Box::new(atom(y))))],
        ),
{
    let ts = seq![open, name, colon, x, op, y, close, eof];
    lemma_operator_table_shape(op.typ.spec_row() as usize);
    let p = infix_power(op.typ).unwrap();
    assert(op.typ != TokenType::Comment && op.typ != TokenType::Unknown && op.typ != TokenType::EOF);
    lemma_pull(ts, 0);
    lemma_pull(ts, 1);
    lemma_pull(ts, 2);
    lemma_pull(ts, 3);
    lemma_pull(ts, 4);
    lemma_pull(ts, 5);
    lemma_pull(ts, 6);
    lemma_pull(ts, 7);
    let (ex, ey) = (atom(x), atom(y));
    let value = SExpr::Binary(op, Box::new(ex), Box::new(ey));
    let items = seq![(name, value)];
    let whole = SExpr::Object(items);
    // The value, which ends at `}`.
    assert(spec_next(ts, at(ts, 6)) == Step::Done(y, at(ts, 7)));
    assert(spec_literal(ts, at(ts, 7)) == Step::Done(ey, at(ts, 7)));
    assert(spec_expr_loop(ts, at(ts, 7), ey, (p - 1) as u8, false) == Step::Done(ey, at(ts, 7)));
    assert(spec_expr(ts, at(ts, 6), (p - 1) as u8, false) == Step::Done(ey, at(ts, 7)));
    assert(spec_expr_loop(ts, at(ts, 7), value, 9, false) == Step::Done(value, at(ts, 7)));
    assert(spec_next(ts, at(ts, 4)) == Step::Done(x, at(ts, 5)));
    assert(spec_literal(ts, at(ts, 5)) == Step::Done(ex, at(ts, 5)));
    assert(spec_expr_loop(ts, at(ts, 5), ex, 9, true) == Step::Done(value, at(ts, 7)));
    assert(spec_expr(ts, at(ts, 4), 9, true) == Step::Done(value, at(ts, 7)));
    // The property, the end of the list of properties, and `}`.
    assert(spec_consume(ts, at(ts, 2), TokenType::Identifier, ParseMessage::ExpectedPropertyName)
        == Step::Done::<()>((), at(ts, 3)));
    assert(spec_consume(ts, at(ts, 3), TokenType::Colon, ParseMessage::ExpectedColon)
        == Step::Done::<()>((), at(ts, 4)));
    assert(spec_property(ts, at(ts, 2)) == Step::Done((name, value), at(ts, 7)));
    assert(spec_object_loop(ts, at(ts, 7), items) == Step::Done(items, at(ts, 7)));
    assert(spec_consume(ts, at(ts, 7), TokenType::CBrace, ParseMessage::ExpectedObjectEnd)
        == Step::Done::<()>((), at(ts, 8)));
    assert(spec_object(ts, at(ts, 2)) == Step::Done(whole, at(ts, 8)));
    assert(spec_next(ts, at(ts, 1)) == Step::Done(open, at(ts, 2)));
    assert(spec_literal(ts, at(ts, 2)) == Step::Done(whole, at(ts, 8)));
    assert(spec_expr_loop(ts, at(ts, 8), whole, 9, true) == Step::Done(whole, at(ts, 8)));
}

/// A prefix operator binds tighter than every binary operator: `- a op b`
/// and `! a op b` apply the prefix operator to `a` alone.
pub proof fn law_prefix_binds_tightest(pre: Token, a: Token, op: Token, b: Token, eof: Token)
    requires
        pre.typ == TokenType::Minus || pre.typ == TokenType::Bang,
        is_primary(a.typ),
        is_plain_binary(op.typ),
        is_primary(b.typ),
        eof.typ == TokenType::EOF,
    ensures
        spec_parse_expr(seq![pre, a, op, b, eof], start()) matches Step::Done(e, _) && e
            == SExpr::Binary(op, Box::new(SExpr::Unary(pre, Box::new(atom(a)))), Box::new(atom(b))),
{
    let ts = seq![pre, a, op, b, eof];
    lemma_operator_table_shape(op.typ.spec_row() as usize);
    lemma_operator_table_shape(pre.typ.spec_row() as usize);
    let p = infix_power(op.typ).unwrap();
    assert(op.typ != TokenType::Comment && op.typ != TokenType::Unknown && op.typ != TokenType::EOF);
    lemma_pull(ts, 0);
    lemma_pull(ts, 1);
    lemma_pull(ts, 2);
    lemma_pull(ts, 3);
    lemma_pull(ts, 4);
    let (ea, eb) = (atom(a), atom(b));
    let neg = SExpr::Unary(pre, Box::new(ea));
    let whole = SExpr::Binary(op, Box::new(neg), Box::new(eb));
    assert(spec_next(ts, at(ts, 4)) == Step::Done(b, at(ts, 5)));
    assert(spec_literal(ts, at(ts, 5)) == Step::Done(eb, at(ts, 5)));
    assert(spec_expr_loop(ts, at(ts, 5), eb, (p - 1) as u8, false) == Step::Done(eb, at(ts, 5)));
    assert(spec_expr(ts, at(ts, 4), (p - 1) as u8, false) == Step::Done(eb, at(ts, 5)));
    assert(spec_expr_loop(ts, at(ts, 5), whole, 9, false) == Step::Done(whole, at(ts, 5)));
    assert(spec_next(ts, at(ts, 2)) == Step::Done(a, at(ts, 3)));
    assert(spec_literal(ts, at(ts, 3)) == Step::Done(ea, at(ts, 3)));
    assert(spec_expr_loop(ts, at(ts, 3), ea, 2, false) == Step::Done(ea, at(ts, 3)));
    assert(spec_expr(ts, at(ts, 2), 2, false) == Step::Done(ea, at(ts, 3)));
    assert(spec_unary(ts, at(ts, 2)) == Step::Done(neg, at(ts, 3)));
    assert(spec_next(ts, at(ts, 1)) == Step::Done(pre, at(ts, 2)));
    assert(spec_expr_loop(ts, at(ts, 3), neg, 9, true) == Step::Done(whole, at(ts, 5)));
}

/// A postfix operator binds tighter than a prefix one: `- a . name` and
/// `! a . name` apply the prefix operator to the property `a . name`.
pub proof fn law_postfix_binds_before_prefix(pre: Token, a: Token, dot: Token, name: Token, eof: Token)
    requires
        pre.typ == TokenType::Minus || pre.typ == TokenType::Bang,
        is_primary(a.typ),
        dot.typ == TokenType::Period,
        name.typ == TokenType::Identifier,
        eof.typ == TokenType::EOF,
    ensures
        spec_parse_expr(seq![pre, a, dot, name, eof], start()) matches Step::Done(e, _) && e
            == SExpr::Unary(
            pre,
            Box::new(SExpr::Get(dot, Box::new(atom(a)), Box::new(SExpr::Variable(name)))),
        ),
{
    let ts = seq![pre, a, dot, name, eof];
    lemma_operator_table_shape(pre.typ.spec_row() as usize);
    lemma_pull(ts, 0);
    lemma_pull(ts, 1);
    lemma_pull(ts, 2);
    lemma_pull(ts, 3);
    lemma_pull(ts, 4);
    let ea = atom(a);
    let get = SExpr::Get(dot, Box::new(ea), Box::new(SExpr::Variable(name)));
    let whole = SExpr::Unary(pre, Box::new(get));
    assert(spec_expr_loop(ts, at(ts, 5), get, 2, false) == Step::Done(get, at(ts, 5)));
    assert(spec_member_tail(ts, at(ts, 5), dot, ea, SExpr::Variable(name), 1, 2, false)
        == Step::Done(get, at(ts, 5)));
    assert(spec_consume(ts, at(ts, 4), TokenType::Identifier, ParseMessage::ExpectedPropertyName)
        == Step::Done::<()>((), at(ts, 5)));
    assert(spec_next(ts, at(ts, 2)) == Step::Done(a, at(ts, 3)));
    assert(spec_literal(ts, at(ts, 3)) == Step::Done(ea, at(ts, 3)));
    assert(spec_expr_loop(ts, at(ts, 3), ea, 2, false) == Step::Done(get, at(ts, 5)));
    assert(spec_expr(ts, at(ts, 2), 2, false) == Step::Done(get, at(ts, 5)));
    assert(spec_unary(ts, at(ts, 2)) == Step::Done(whole, at(ts, 5)));
    assert(spec_next(ts, at(ts, 1)) == Step::Done(pre, at(ts, 2)));
    assert(spec_expr_loop(ts, at(ts, 5), whole, 9, true) == Step::Done(whole, at(ts, 5)));
}

/// An argument of a call is a whole expression: `f ( x op y )` calls `f`
/// with the one argument `x op y`, for every binary operator `op`.
pub proof fn law_call_argument_is_whole(
    f: Token,
    open: Token,
    x: Token,
    op: Token,
    y: Token,
    close: Token,
    eof: Token,
)
    requires
        is_primary(f.typ),
        open.typ == TokenType::OParen,
        is_primary(x.typ),
        is_plain_binary(op.typ),
        is_primary(y.typ),
        close.typ == TokenType::CParen,
        eof.typ == TokenType::EOF,
    ensures
        spec_parse_expr(seq![f, open, x, op, y, close, eof], start()) matches Step::Done(e, _) && e
            == SExpr::Call(
            open,
            Box::new(atom(f)),
            seq![SExpr::Binary(op, Box::new(atom(x)), Box::new(atom(y)))],
        ),
{
    let ts = seq![f, open, x, op, y, close, eof];
    lemma_operator_table_shape(op.typ.spec_row() as usize);
    let p = infix_power(op.typ).unwrap();
    assert(op.typ != TokenType::Comment && op.typ != TokenType::Unknown && op.typ != TokenType::EOF);
    lemma_pull(ts, 0);
    lemma_pull(ts, 1);
    lemma_pull(ts, 2);
    lemma_pull(ts, 3);
    lemma_pull(ts, 4);
    lemma_pull(ts, 5);
    lemma_pull(ts, 6);
    let (ef, ex, ey) = (atom(f), atom(x), atom(y));
    let arg = SExpr::Binary(op, Box::new(ex), Box::new(ey));
    let args = seq![arg];
    let whole = SExpr::Call(open, Box::new(ef), args);
    assert(spec_next(ts, at(ts, 5)) == Step::Done(y, at(ts, 6)));
    assert(spec_literal(ts, at(ts, 6)) == Step::Done(ey, at(ts, 6)));
    assert(spec_expr_loop(ts, at(ts, 6), ey, (p - 1) as u8, false) == Step::Done(ey, at(ts, 6)));
    assert(spec_expr(ts, at(ts, 5), (p - 1) as u8, false) == Step::Done(ey, at(ts, 6)));
    assert(spec_expr_loop(ts, at(ts, 6), arg, 9, false) == Step::Done(arg, at(ts, 6)));
    assert(spec_next(ts, at(ts, 3)) == Step::Done(x, at(ts, 4)));
    assert(spec_literal(ts, at(ts, 4)) == Step::Done(ex, at(ts, 4)));
    assert(spec_expr_loop(ts, at(ts, 4), ex, 9, true) == Step::Done(arg, at(ts, 6)));
    assert(spec_expr(ts, at(ts, 3), 9, true) == Step::Done(arg, at(ts, 6)));
    assert(spec_exprs_loop(ts, at(ts, 6), args) == Step::Done(args, at(ts, 6)));
    assert(spec_exprs(ts, at(ts, 3)) == Step::Done(args, at(ts, 6)));
    assert(spec_consume(ts, at(ts, 6), TokenType::CParen, ParseMessage::ExpectedArgumentsEnd)
        == Step::Done::<()>((), at(ts, 7)));
    assert(spec_expr_loop(ts, at(ts, 7), whole, 9, true) == Step::Done(whole, at(ts, 7)));
    assert(spec_next(ts, at(ts, 1)) == Step::Done(f, at(ts, 2)));
    assert(spec_literal(ts, at(ts, 2)) == Step::Done(ef, at(ts, 2)));
    assert(spec_expr_loop(ts, at(ts, 2), ef, 9, true) == Step::Done(whole, at(ts, 7)));
}

/// An item of a list literal is a whole expression: `[ x op y ]` is the
/// list whose one item is `x op y`, for every binary operator `op`.
pub proof fn law_list_item_is_whole(open: Token, x: Token, op: Token, y: Token, close: Token, eof: Token)
    requires
        open.typ == TokenType::OBracket,
        is_primary(x.typ),
        is_plain_binary(op.typ),
        is_primary(y.typ),
        close.typ == TokenType::CBracket,
        eof.typ == TokenType::EOF,
    ensures
        spec_parse_expr(seq![open, x, op, y, close, eof], start()) matches Step::Done(e, _) && e
            == SExpr::List(seq![SExpr::Binary(op, Box::new(atom(x)), Box::new(atom(y)))]),
{
    let ts = seq![open, x, op, y, close, eof];
    lemma_operator_table_shape(op.typ.spec_row() as usize);
    let p = infix_power(op.typ).unwrap();
    assert(op.typ != TokenType::Comment && op.typ != TokenType::Unknown && op.typ != TokenType::EOF);
    lemma_pull(ts, 0);
    lemma_pull(ts, 1);
    lemma_pull(ts, 2);
    lemma_pull(ts, 3);
    lemma_pull(ts, 4);
    lemma_pull(ts, 5);
    let (ex, ey) = (atom(x), atom(y));
    let item = SExpr::Binary(op, Box::new(ex), Box::new(ey));
    let items = seq![item];
    let whole = SExpr::List(items);
    assert(spec_next(ts, at(ts, 4)) == Step::Done(y, at(ts, 5)));
    assert(spec_literal(ts, at(ts, 5)) == Step::Done(ey, at(ts, 5)));
    assert(spec_expr_loop(ts, at(ts, 5), ey, (p - 1) as u8, false) == Step::Done(ey, at(ts, 5)));
    assert(spec_expr(ts, at(ts, 4), (p - 1) as u8, false) == Step::Done(ey, at(ts, 5)));
    assert(spec_expr_loop(ts, at(ts, 5), item, 9, false) == Step::Done(item, at(ts, 5)));
    assert(spec_next(ts, at(ts, 2)) == Step::Done(x, at(ts, 3)));
    assert(spec_literal(ts, at(ts, 3)) == Step::Done(ex, at(ts, 3)));
    assert(spec_expr_loop(ts, at(ts, 3), ex, 9, true) == Step::Done(item, at(ts, 5)));
    assert(spec_expr(ts, at(ts, 2), 9, true) == Step::Done(item, at(ts, 5)));
    assert(spec_exprs_loop(ts, at(ts, 5), items) == Step::Done(items, at(ts, 5)));
    assert(spec_exprs(ts, at(ts, 2)) == Step::Done(items, at(ts, 5)));
    assert(spec_consume(ts, at(ts, 5), TokenType::CBracket, ParseMessage::ExpectedListEnd)
        == Step::Done::<()>((), at(ts, 6)));
    assert(spec_list(ts, at(ts, 2)) == Step::Done(whole, at(ts, 6)));
    assert(spec_next(ts, at(ts, 1)) == Step::Done(open, at(ts, 2)));
    assert(spec_literal(ts, at(ts, 2)) == Step::Done(whole, at(ts, 6)));
    assert(spec_expr_loop(ts, at(ts, 6), whole, 9, true) == Step::Done(whole, at(ts, 6)));
}

/// Parentheses group first, whatever the operators' powers:
/// `( a op1 b ) op2 c` applies `op2` to `a op1 b` and `c`.
pub proof fn law_group_binds_first(
    open: Token,
    a: Token,
    op1: Token,
    b: Token,
    close: Token,
    op2: Token,
    c: Token,
    eof: Token,
)
    requires
        open.typ == TokenType::OParen,
        is_primary(a.typ),
        is_plain_binary(op1.typ),
        is_primary(b.typ),
        close.typ == TokenType::CParen,
        is_plain_binary(op2.typ),
        is_primary(c.typ),
        eof.typ == TokenType::EOF,
    ensures
        spec_parse_expr(seq![open, a, op1, b, close, op2, c, eof], start()) matches Step::Done(e, _)
            && e == SExpr::Binary(
            op2,
            Box::new(SExpr::Binary(op1, Box::new(atom(a)), Box::new(atom(b)))),
            Box::new(atom(c)),
        ),
{
    let ts = seq![open, a, op1, b, close, op2, c, eof];
    lemma_operator_table_shape(op1.typ.spec_row() as usize);
    lemma_operator_table_shape(op2.typ.spec_row() as usize);
    let p1 = infix_power(op1.typ).unwrap();
    let p2 = infix_power(op2.typ).unwrap();
    assert(op1.typ != TokenType::Comment && op1.typ != TokenType::Unknown && op1.typ != TokenType::EOF);
    assert(op2.typ != TokenType::Comment && op2.typ != TokenType::Unknown && op2.typ != TokenType::EOF);
    lemma_pull(ts, 0);
    lemma_pull(ts, 1);
    lemma_pull(ts, 2);
    lemma_pull(ts, 3);
    lemma_pull(ts, 4);
    lemma_pull(ts, 5);
    lemma_pull(ts, 6);
    lemma_pull(ts, 7);
    let (ea, eb, ec) = (atom(a), atom(b), atom(c));
    let inner = SExpr::Binary(op1, Box::new(ea), Box::new(eb));
    let whole = SExpr::Binary(op2, Box::new(inner), Box::new(ec));
    assert(spec_next(ts, at(ts, 4)) == Step::Done(b, at(ts, 5)));
    assert(spec_literal(ts, at(ts, 5)) == Step::Done(eb, at(ts, 5)));
    assert(spec_expr_loop(ts, at(ts, 5), eb, (p1 - 1) as u8, false) == Step::Done(eb, at(ts, 5)));
    assert(spec_expr(ts, at(ts, 4), (p1 - 1) as u8, false) == Step::Done(eb, at(ts, 5)));
    assert(spec_expr_loop(ts, at(ts, 5), inner, 9, false) == Step::Done(inner, at(ts, 5)));
    assert(spec_next(ts, at(ts, 2)) == Step::Done(a, at(ts, 3)));
    assert(spec_literal(ts, at(ts, 3)) == Step::Done(ea, at(ts, 3)));
    assert(spec_expr_loop(ts, at(ts, 3), ea, 9, true) == Step::Done(inner, at(ts, 5)));
    assert(spec_expr(ts, at(ts, 2), 9, true) == Step::Done(inner, at(ts, 5)));
    assert(spec_consume(ts, at(ts, 5), TokenType::CParen, ParseMessage::ExpectedGroupEnd)
        == Step::Done::<()>((), at(ts, 6)));
    assert(spec_group(ts, at(ts, 2)) == Step::Done(inner, at(ts, 6)));
    assert(spec_next(ts, at(ts, 7)) == Step::Done(c, at(ts, 8)));
    assert(spec_literal(ts, at(ts, 8)) == Step::Done(ec, at(ts, 8)));
    assert(spec_expr_loop(ts, at(ts, 8), ec, (p2 - 1) as u8, false) == Step::Done(ec, at(ts, 8)));
    assert(spec_expr(ts, at(ts, 7), (p2 - 1) as u8, false) == Step::Done(ec, at(ts, 8)));
    assert(spec_expr_loop(ts, at(ts, 8), whole, 9, false) == Step::Done(whole, at(ts, 8)));
    assert(spec_next(ts, at(ts, 1)) == Step::Done(open, at(ts, 2)));
    assert(spec_expr_loop(ts, at(ts, 6), inner, 9, true) == Step::Done(whole, at(ts, 8)));
}

/// The state `s1` of a stream that starts with `small`, seen in a stream
/// that holds `small` `d` places later, after the token `prev`.
pub open spec fn seen_after(s1: PState, d: int, prev: Token) -> PState {
    PState { pos: s1.pos + d, current: s1.current, previous: Some(prev) }
}

/// The first pull of `small` alone, and the pull in `big` past its first
/// `d` tokens (none of them the end), reach the same token.
proof fn lemma_first_pull_moved(small: Seq<Token>, big: Seq<Token>, d: int)
    requires
        embeds(small, big, d),
        d >= 1,
        big[d - 1].typ != TokenType::EOF,
    ensures
        (spec_advance(small, start()) is Done) ==> state_ok(small, spec_advance(small, start())->Done_1),
        (spec_advance(small, start()) is Done) ==> spec_advance(big, at(big, d)) == Step::Done::<()>(
            (),
            seen_after(spec_advance(small, start())->Done_1, d, big[d - 1]),
        ),
{
    lemma_advance(small, start());
    lemma_skip_comments(small, 0);
    lemma_skip_moved(small, big, d, 0);
    let j = skip_comments(small, 0);
    assert(big[j + d] == small[j]);
}

/// `body`, read on its own up to a closing token, parses to `e` and stops
/// there; behind a `prefix` (whose last token is not the end), the same
/// tokens parse to the same expression, from the state that the pull past
/// the prefix reaches, and stop at the same closing token, which is the
/// last before the end.
proof fn lemma_closed_body(
    prefix: Seq<Token>,
    body: Seq<Token>,
    close: Token,
    eof: Token,
    e: SExpr,
    small: Seq<Token>,
    big: Seq<Token>,
) -> (r: (PState, PState))
    requires
        prefix.len() >= 1,
        prefix.last().typ != TokenType::EOF,
        close.typ == TokenType::CParen || close.typ == TokenType::CBracket || close.typ
            == TokenType::CBrace,
        eof.typ == TokenType::EOF,
        small == body + seq![close, eof],
        big == prefix + small,
        spec_parse_expr(small, start()) matches Step::Done(v, st) && v == e && st.pos == body.len()
            + 1,
    ensures
        spec_advance(big, at(big, prefix.len() as int)) == Step::Done::<()>((), r.0),
        state_ok(big, r.0),
        !cur_is(r.0, close.typ),
        spec_expr(big, r.0, 9, true) == Step::Done(e, r.1),
        settled(big, r.0, r.1),
        r.1.pos == big.len() - 1,
        r.1.current == Some(close),
        spec_advance(big, r.1) == Step::Done::<()>((), at(big, big.len() as int)),
{
    let d = prefix.len() as int;
    assert(small[small.len() - 1] == eof);
    assert(big[d - 1] == prefix.last() && big.last() == eof);
    assert forall|i: int| 0 <= i < small.len() implies big[i + d] == #[trigger] small[i] by {}
    assert(embeds(small, big, d));
    lemma_first_pull_moved(small, big, d);
    let s1 = spec_advance(small, start())->Done_1;
    let b1 = spec_advance(big, at(big, d))->Done_1;
    lemma_next(small, s1);
    if cur_is(s1, TokenType::EOF) {
        assert(spec_next(small, s1) == Step::Aborts::<Token>);
    }
    if cur_is(s1, close.typ) {
        assert(spec_next(small, s1) matches Step::Done(t, _) && t == close);
        assert(spec_expr(small, s1, 9, true) is Failed);
    }
    lemma_expr_moved(small, big, d, s1, b1, 9, true);
    lemma_expr_settles(small, s1, 9, true);
    let st = spec_expr(small, s1, 9, true)->Done_1;
    assert(small[body.len() as int] == close);
    lemma_settled_moved(small, big, d, s1, st);
    lemma_state_moved(small, big, d, s1);
    let m = moved(st, d);
    assert(big[big.len() - 1] == eof);
    assert(big[big.len() - 2] == close);
    assert(skip_comments(big, big.len() - 1) == big.len() - 1);
    (b1, m)
}

/// The key of an index is a whole expression at the loosest level: for any
/// tokens `body` that, read on their own up to a closing `]`, parse to `e`
/// and stop at that `]`, `a [ body ]` reads `a` at `e`, to the end of the
/// input.
#[verifier::rlimit(40)]
pub proof fn law_index_key_any_expression(
    a: Token,
    open: Token,
    body: Seq<Token>,
    close: Token,
    eof: Token,
    e: SExpr,
)
    requires
        is_primary(a.typ),
        open.typ == TokenType::OBracket,
        close.typ == TokenType::CBracket,
        eof.typ == TokenType::EOF,
        spec_parse_expr(body + seq![close, eof], start()) matches Step::Done(v, st) && v == e && st.pos
            == body.len() + 1,
    ensures
        spec_parse_expr(seq![a, open] + (body + seq![close, eof]), start()) matches Step::Done(v, st)
            && v == SExpr::Get(open, Box::new(atom(a)), Box::new(e)) && st.pos == body.len() + 4,
{
    let small = body + seq![close, eof];
    let big = seq![a, open] + small;
    assert(seq![a, open].last() == open);
    let (b1, m) = lemma_closed_body(seq![a, open], body, close, eof, e, small, big);
    let last = at(big, big.len() as int);
    assert(big[0] == a && big[1] == open && big.last() == eof);
    lemma_pull(big, 0);
    lemma_pull(big, 1);
    // `]`, then the read of `a` at the key, at the end of the input.
    assert(spec_consume(big, m, TokenType::CBracket, ParseMessage::ExpectedIndexEnd) == Step::Done::<()>((), last));
    let ea = atom(a);
    let whole = SExpr::Get(open, Box::new(ea), Box::new(e));
    assert(spec_expr_loop(big, last, whole, 9, true) == Step::Done(whole, last));
    assert(spec_member_tail(big, last, open, ea, e, 1, 9, true) == Step::Done(whole, last));
    assert(spec_next(big, at(big, 1)) == Step::Done(a, at(big, 2)));
    assert(spec_literal(big, at(big, 2)) == Step::Done(ea, at(big, 2)));
    assert(spec_expr_loop(big, at(big, 2), ea, 9, true) == Step::Done(whole, last));
}

/// The value of a property is a whole expression at the loosest level: for
/// any tokens `body` that, read on their own up to a closing `}`, parse to
/// `e` and stop at that `}`, `{ name : body }` is the object whose one
/// property `name` holds `e`, to the end of the input.
#[verifier::rlimit(40)]
pub proof fn law_property_value_any_expression(
    open: Token,
    name: Token,
    colon: Token,
    body: Seq<Token>,
    close: Token,
    eof: Token,
    e: SExpr,
)
    requires
        open.typ == TokenType::OBrace,
        name.typ == TokenType::Identifier,
        colon.typ == TokenType::Colon,
        close.typ == TokenType::CBrace,
        eof.typ == TokenType::EOF,
        spec_parse_expr(body + seq![close, eof], start()) matches Step::Done(v, st) && v == e && st.pos
            == body.len() + 1,
    ensures
        spec_parse_expr(seq![open, name, colon] + (body + seq![close, eof]), start()) matches Step::Done(
            v,
            st,
        ) && v == SExpr::Object(seq![(name, e)]) && st.pos == body.len() + 5,
{
    let small = body + seq![close, eof];
    let big = seq![open, name, colon] + small;
    assert(seq![open, name, colon].last() == colon);
    let (b1, m) = lemma_closed_body(seq![open, name, colon], body, close, eof, e, small, big);
    let last = at(big, big.len() as int);
    assert(big[0] == open && big[1] == name && big[2] == colon && big.last() == eof);
    lemma_pull(big, 0);
    lemma_pull(big, 1);
    lemma_pull(big, 2);
    // The property, the end of the list of properties, and `}`.
    let items = seq![(name, e)];
    let whole = SExpr::Object(items);
    assert(spec_consume(big, at(big, 2), TokenType::Identifier, ParseMessage::ExpectedPropertyName)
        == Step::Done::<()>((), at(big, 3)));
    assert(spec_consume(big, at(big, 3), TokenType::Colon, ParseMessage::ExpectedColon)
        == Step::Done::<()>((), b1));
    assert(spec_property(big, at(big, 2)) == Step::Done((name, e), m));
    assert(settled(big, at(big, 2), m));
    assert(spec_object_loop(big, m, items) == Step::Done(items, m));
    assert(spec_consume(big, m, TokenType::CBrace, ParseMessage::ExpectedObjectEnd) == Step::Done::<()>((), last));
    assert(spec_object(big, at(big, 2)) == Step::Done(whole, last));
    assert(spec_next(big, at(big, 1)) == Step::Done(open, at(big, 2)));
    assert(spec_literal(big, at(big, 2)) == Step::Done(whole, last));
    assert(spec_expr_loop(big, last, whole, 9, true) == Step::Done(whole, last));
}

/// A group is transparent: for any tokens `body` that, read on their own up
/// to a closing `)`, parse to `e` and stop at that `)`, `( body )` parses to
/// `e` itself, to the end of the input.
pub proof fn law_group_is_transparent(open: Token, body: Seq<Token>, close: Token, eof: Token, e: SExpr)
    requires
        open.typ == TokenType::OParen,
        close.typ == TokenType::CParen,
        eof.typ == TokenType::EOF,
        spec_parse_expr(body + seq![close, eof], start()) matches Step::Done(v, st) && v == e && st.pos
            == body.len() + 1,
    ensures
        spec_parse_expr(seq![open] + (body + seq![close, eof]), start()) matches Step::Done(v, st) && v
            == e && st.pos == body.len() + 3,
{
    let small = body + seq![close, eof];
    let big = seq![open] + small;
    assert(seq![open].last() == open);
    let (b1, m) = lemma_closed_body(seq![open], body, close, eof, e, small, big);
    let last = at(big, big.len() as int);
    assert(big[0] == open && big.last() == eof);
    lemma_pull(big, 0);
    assert(spec_consume(big, m, TokenType::CParen, ParseMessage::ExpectedGroupEnd) == Step::Done::<()>((), last));
    assert(spec_group(big, b1) == Step::Done(e, last));
    assert(spec_next(big, at(big, 1)) == Step::Done(open, b1));
    assert(spec_expr_loop(big, last, e, 9, true) == Step::Done(e, last));
    assert(spec_expr(big, at(big, 1), 9, true) == Step::Done(e, last));
}

/// An argument of a call is a whole expression at the loosest level: for
/// any tokens `body` that, read on their own up to a closing `)`, parse to
/// `e` and stop at that `)`, `f ( body )` calls `f` with `e` alone, to the
/// end of the input.
pub proof fn law_call_argument_any_expression(
    f: Token,
    open: Token,
    body: Seq<Token>,
    close: Token,
    eof: Token,
    e: SExpr,
)
    requires
        is_primary(f.typ),
        open.typ == TokenType::OParen,
        close.typ == TokenType::CParen,
        eof.typ == TokenType::EOF,
        spec_parse_expr(body + seq![close, eof], start()) matches Step::Done(v, st) && v == e && st.pos
            == body.len() + 1,
    ensures
        spec_parse_expr(seq![f, open] + (body + seq![close, eof]), start()) matches Step::Done(v, st)
            && v == SExpr::Call(open, Box::new(atom(f)), seq![e]) && st.pos == body.len() + 4,
{
    let small = body + seq![close, eof];
    let big = seq![f, open] + small;
    assert(seq![f, open].last() == open);
    let (b1, m) = lemma_closed_body(seq![f, open], body, close, eof, e, small, big);
    let last = at(big, big.len() as int);
    assert(big[0] == f && big[1] == open && big.last() == eof);
    lemma_pull(big, 0);
    lemma_pull(big, 1);
    let ef = atom(f);
    let whole = SExpr::Call(open, Box::new(ef), seq![e]);
    assert(spec_exprs_loop(big, m, seq![e]) == Step::Done(seq![e], m));
    assert(spec_exprs(big, b1) == Step::Done(seq![e], m));
    assert(spec_consume(big, m, TokenType::CParen, ParseMessage::ExpectedArgumentsEnd) == Step::Done::<()>((), last));
    assert(spec_expr_loop(big, last, whole, 9, true) == Step::Done(whole, last));
    assert(spec_next(big, at(big, 1)) == Step::Done(f, at(big, 2)));
    assert(spec_literal(big, at(big, 2)) == Step::Done(ef, at(big, 2)));
    assert(spec_expr_loop(big, at(big, 2), ef, 9, true) == Step::Done(whole, last));
}

/// An item of a list literal is a whole expression at the loosest level:
/// for any tokens `body` that, read on their own up to a closing `]`, parse
/// to `e` and stop at that `]`, `[ body ]` is the list of `e` alone, to the
/// end of the input.
pub proof fn law_list_item_any_expression(open: Token, body: Seq<Token>, close: Token, eof: Token, e: SExpr)
    requires
        open.typ == TokenType::OBracket,
        close.typ == TokenType::CBracket,
        eof.typ == TokenType::EOF,
        spec_parse_expr(body + seq![close, eof], start()) matches Step::Done(v, st) && v == e && st.pos
            == body.len() + 1,
    ensures
        spec_parse_expr(seq![open] + (body + seq![close, eof]), start()) matches Step::Done(v, st) && v
            == SExpr::List(seq![e]) && st.pos == body.len() + 3,
{
    let small = body + seq![close, eof];
    let big = seq![open] + small;
    assert(seq![open].last() == open);
    let (b1, m) = lemma_closed_body(seq![open], body, close, eof, e, small, big);
    let last = at(big, big.len() as int);
    assert(big[0] == open && big.last() == eof);
    lemma_pull(big, 0);
    let whole = SExpr::List(seq![e]);
    assert(spec_exprs_loop(big, m, seq![e]) == Step::Done(seq![e], m));
    assert(spec_exprs(big, b1) == Step::Done(seq![e], m));
    assert(spec_consume(big, m, TokenType::CBracket, ParseMessage::ExpectedListEnd) == Step::Done::<()>((), last));
    assert(spec_list(big, b1) == Step::Done(whole, last));
    assert(spec_next(big, at(big, 1)) == Step::Done(open, b1));
    assert(spec_literal(big, b1) == Step::Done(whole, last));
    assert(spec_expr_loop(big, last, whole, 9, true) == Step::Done(whole, last));
}

} // verus!
