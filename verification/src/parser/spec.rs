use vstd::prelude::*;

use crate::ast::SExpr;
use crate::operators::{operator_table, Associativity};
use crate::parser::report::{ParseMessage, Report};
use crate::token::{Token, TokenType};

verus! {

/// Where the parser stands in its token stream: how many tokens it has
/// pulled, the token it looks at, and the one it looked at before.
pub struct PState {
    pub pos: int,
    pub current: Option<Token>,
    pub previous: Option<Token>,
}

/// What a parsing step comes to: a value and the state after it; an error
/// (with the report it files, if any) and the state at which it stopped; a
/// panic of the parser (an `unreachable!` case); or endless recursion.
pub enum Step<T> {
    Done(T, PState),
    Failed(Option<Report>, PState),
    Aborts,
    Diverges,
}

impl<T> Step<T> {
    /// The step ends, with a value or with an error.
    pub open spec fn completes(self) -> bool {
        self is Done || self is Failed
    }
}

/// A failed, aborted or diverging step, carried over to another result type.
pub open spec fn carry<A, B>(s: Step<A>) -> Step<B> {
    match s {
        Step::Failed(r, st) => Step::Failed(r, st),
        Step::Diverges => Step::Diverges,
        _ => Step::Aborts,
    }
}

/// A token stream as the tokenizer hands it over: it ends with `EOF`.
pub open spec fn tokens_wf(ts: Seq<Token>) -> bool {
    ts.len() > 0 && ts.last().typ == TokenType::EOF
}

/// The state agrees with the stream: the current token is the last one
/// pulled, and none is current before the first pull.
pub open spec fn state_wf(ts: Seq<Token>, st: PState) -> bool {
    &&& tokens_wf(ts)
    &&& 0 <= st.pos <= ts.len()
    &&& (st.pos == 0 <==> st.current is None)
    &&& (st.pos > 0 ==> st.current == Some(ts[st.pos - 1]))
}

/// A well-formed state after the first pull.
pub open spec fn state_ok(ts: Seq<Token>, st: PState) -> bool {
    state_wf(ts, st) && st.current is Some
}

/// `to` lies at or after `from`, within the stream.
pub open spec fn moved_on(ts: Seq<Token>, from: PState, to: PState) -> bool {
    from.pos <= to.pos <= ts.len()
}

/// `to` is a well-formed state at or after `from`. Every step ends in such
/// a state (`lemma_steps_settle`); the parsing functions test it before they
/// go on from the result of a nested step.
pub open spec fn settled(ts: Seq<Token>, from: PState, to: PState) -> bool {
    moved_on(ts, from, to) && state_ok(ts, to)
}

/// The current token has the given kind.
pub open spec fn cur_is(st: PState, typ: TokenType) -> bool {
    st.current matches Some(t) && t.typ == typ
}

/// The index of the first token at or after `i` that is not a comment.
pub open spec fn skip_comments(ts: Seq<Token>, i: int) -> int
    decreases ts.len() - i,
{
    if 0 <= i < ts.len() && ts[i].typ == TokenType::Comment {
        skip_comments(ts, i + 1)
    } else {
        i
    }
}

pub proof fn lemma_skip_comments(ts: Seq<Token>, i: int)
    requires
        tokens_wf(ts),
        0 <= i < ts.len(),
    ensures
        i <= skip_comments(ts, i) < ts.len(),
        ts[skip_comments(ts, i)].typ != TokenType::Comment,
    decreases ts.len() - i,
{
    if ts[i].typ == TokenType::Comment {
        lemma_skip_comments(ts, i + 1);
    }
}

/// Moves to the next token that is not a comment, unless the current token
/// is `EOF`. Fails, without a report, on a token that only a failed scan
/// produces.
pub open spec fn spec_advance(ts: Seq<Token>, st: PState) -> Step<()> {
    if cur_is(st, TokenType::EOF) {
        Step::Done((), st)
    } else {
        let j = skip_comments(ts, st.pos);
        let st1 = PState { pos: j + 1, current: Some(ts[j]), previous: st.current };
        if ts[j].typ.spec_is_invalid() {
            Step::Failed(None, st1)
        } else {
            Step::Done((), st1)
        }
    }
}

pub proof fn lemma_advance(ts: Seq<Token>, st: PState)
    requires
        state_wf(ts, st),
    ensures
        spec_advance(ts, st).completes(),
        spec_advance(ts, st) matches Step::Done(_, st1) ==> state_ok(ts, st1) && moved_on(ts, st, st1),
        spec_advance(ts, st) matches Step::Failed(r, st1) ==> state_ok(ts, st1) && moved_on(ts, st, st1)
            && r is None,
        !cur_is(st, TokenType::EOF) ==> (spec_advance(ts, st) matches Step::Done(_, st1) ==> st1.pos
            > st.pos),
        !cur_is(st, TokenType::EOF) ==> (spec_advance(ts, st) matches Step::Failed(_, st1) ==> st1.pos
            > st.pos),
        cur_is(st, TokenType::EOF) ==> spec_advance(ts, st) == Step::Done((), st),
{
    if !cur_is(st, TokenType::EOF) {
        if st.pos > 0 {
            assert(st.pos - 1 != ts.len() - 1);
        }
        lemma_skip_comments(ts, st.pos);
    }
}

/// Advances and hands back the token that was current before.
pub open spec fn spec_next(ts: Seq<Token>, st: PState) -> Step<Token> {
    match spec_advance(ts, st) {
        Step::Done(_, st1) => match st1.previous {
            Some(t) => Step::Done(t, st1),
            None => Step::Aborts,
        },
        other => carry(other),
    }
}

/// Advances past a token of the given kind, or files `msg` at the current
/// token.
pub open spec fn spec_consume(ts: Seq<Token>, st: PState, typ: TokenType, msg: ParseMessage) -> Step<
    (),
> {
    match st.current {
        Some(t) => if t.typ == typ {
            spec_advance(ts, st)
        } else {
            Step::Failed(Some(Report { message: msg, token: t }), st)
        },
        None => Step::Aborts,
    }
}

pub proof fn lemma_next(ts: Seq<Token>, st: PState)
    requires
        state_wf(ts, st),
    ensures
        spec_next(ts, st) matches Step::Done(_, st1) ==> state_ok(ts, st1) && moved_on(ts, st, st1),
        spec_next(ts, st) matches Step::Failed(r, st1) ==> state_ok(ts, st1) && moved_on(ts, st, st1)
            && r is None,
        !(spec_next(ts, st) is Diverges),
        !cur_is(st, TokenType::EOF) ==> (spec_next(ts, st) matches Step::Done(_, st1) ==> st1.pos
            > st.pos),
        cur_is(st, TokenType::EOF) ==> (spec_next(ts, st) matches Step::Done(t, st1) ==> st1 == st
            && st.previous == Some(t)),
{
    lemma_advance(ts, st);
}

pub proof fn lemma_consume(ts: Seq<Token>, st: PState, typ: TokenType, msg: ParseMessage)
    requires
        state_ok(ts, st),
        typ != TokenType::EOF,
    ensures
        spec_consume(ts, st, typ, msg).completes(),
        spec_consume(ts, st, typ, msg) matches Step::Done(_, st1) ==> state_ok(ts, st1) && st.pos
            < st1.pos <= ts.len() && st1.previous == st.current,
        spec_consume(ts, st, typ, msg) matches Step::Failed(_, st1) ==> state_ok(ts, st1)
            && moved_on(ts, st, st1),
{
    lemma_advance(ts, st);
}

/// Token kinds after which an expression at the end of the input makes the
/// parser call itself again on the same state, without end.
pub open spec fn recurses_at_end(typ: TokenType) -> bool {
    typ == TokenType::Minus || typ == TokenType::Bang || typ == TokenType::OParen || typ
        == TokenType::OBracket
}

/// Token kinds that begin a literal or a variable.
pub open spec fn starts_literal(typ: TokenType) -> bool {
    typ == TokenType::Identifier || typ == TokenType::Number || typ == TokenType::String || typ
        == TokenType::True || typ == TokenType::False || typ == TokenType::Nil || typ
        == TokenType::OBracket || typ == TokenType::OBrace
}

/// The rank of the literal step in the termination measure: a list literal
/// leads back to full expressions without consuming a token.
pub open spec fn literal_rank(st: PState) -> nat {
    if st.previous matches Some(t) && t.typ == TokenType::OBracket {
        6
    } else {
        2
    }
}

/// Parses an expression whose operators bind at least as tightly as
/// `min_prec` (a smaller number binds tighter); `can_assign` says whether an
/// assignment may appear at this level.
pub open spec fn spec_expr(ts: Seq<Token>, st: PState, min_prec: u8, can_assign: bool) -> Step<
    SExpr,
>
    decreases ts.len() - st.pos, 3nat,
    when state_ok(ts, st)
{
    proof {
        lemma_next(ts, st);
    }
    match spec_next(ts, st) {
        Step::Done(tok, st1) => {
            if cur_is(st, TokenType::EOF) && recurses_at_end(tok.typ) {
                Step::Diverges
            } else {
                let prefix = if starts_literal(tok.typ) {
                    spec_literal(ts, st1)
                } else if tok.typ == TokenType::Minus || tok.typ == TokenType::Bang {
                    spec_unary(ts, st1)
                } else if tok.typ == TokenType::OParen {
                    spec_group(ts, st1)
                } else {
                    Step::Failed(
                        Some(Report { message: ParseMessage::ExpectedExpression, token: tok }),
                        st1,
                    )
                };
                match prefix {
                    Step::Done(e, st2) => if settled(ts, st1, st2) {
                        spec_expr_loop(ts, st2, e, min_prec, can_assign)
                    } else {
                        Step::Aborts
                    },
                    other => other,
                }
            }
        },
        other => carry(other),
    }
}

/// Extends `lhs` with the infix and postfix operators that follow it, as
/// long as they bind at least as tightly as `min_prec`.
pub open spec fn spec_expr_loop(
    ts: Seq<Token>,
    st: PState,
    lhs: SExpr,
    min_prec: u8,
    can_assign: bool,
) -> Step<SExpr>
    decreases ts.len() - st.pos, 0nat,
    when state_ok(ts, st)
{
    proof {
        lemma_advance(ts, st);
    }
    if cur_is(st, TokenType::EOF) {
        Step::Done(lhs, st)
    } else {
        let tok = st.current.unwrap();
        let row = operator_table(tok.typ.spec_row() as usize);
        if row.infix is Some {
            let infix_prec = row.infix.unwrap();
            if row.associativity is None {
                Step::Aborts
            } else if min_prec < infix_prec {
                Step::Done(lhs, st)
            } else {
                let can_assign1 = if tok.typ != TokenType::Equal {
                    false
                } else {
                    can_assign
                };
                match spec_advance(ts, st) {
                    Step::Done(_, st1) => {
                        if tok.typ == TokenType::Equal && !can_assign1 {
                            Step::Failed(
                                Some(
                                    Report {
                                        message: ParseMessage::InvalidAssignmentTarget,
                                        token: tok,
                                    },
                                ),
                                st1,
                            )
                        } else {
                            let rhs_prec: u8 = if row.associativity == Some(Associativity::Right) {
                                infix_prec
                            } else {
                                (infix_prec - 1) as u8
                            };
                            match spec_expr(ts, st1, rhs_prec, can_assign1) {
                                Step::Done(rhs, st2) => if settled(ts, st1, st2) {
                                    spec_expr_loop(
                                        ts,
                                        st2,
                                        SExpr::Binary(tok, Box::new(lhs), Box::new(rhs)),
                                        min_prec,
                                        can_assign1,
                                    )
                                } else {
                                    Step::Aborts
                                },
                                other => other,
                            }
                        }
                    },
                    other => carry(other),
                }
            }
        } else if row.postfix is Some {
            let postfix_prec = row.postfix.unwrap();
            if min_prec < postfix_prec {
                Step::Done(lhs, st)
            } else {
                match spec_advance(ts, st) {
                    Step::Done(_, st1) => {
                        if tok.typ == TokenType::OParen {
                            let args = if cur_is(st1, TokenType::CParen) {
                                Step::Done(Seq::empty(), st1)
                            } else {
                                spec_exprs(ts, st1)
                            };
                            match args {
                                Step::Done(a, st2) => if settled(ts, st1, st2) {
                                    proof {
                                        lemma_consume(
                                            ts,
                                            st2,
                                            TokenType::CParen,
                                            ParseMessage::ExpectedArgumentsEnd,
                                        );
                                    }
                                    match spec_consume(
                                        ts,
                                        st2,
                                        TokenType::CParen,
                                        ParseMessage::ExpectedArgumentsEnd,
                                    ) {
                                        Step::Done(_, st3) => spec_expr_loop(
                                            ts,
                                            st3,
                                            SExpr::Call(tok, Box::new(lhs), a),
                                            min_prec,
                                            can_assign,
                                        ),
                                        other => carry(other),
                                    }
                                } else {
                                    Step::Aborts
                                },
                                other => carry(other),
                            }
                        } else if tok.typ == TokenType::Period {
                            proof {
                                lemma_consume(
                                    ts,
                                    st1,
                                    TokenType::Identifier,
                                    ParseMessage::ExpectedPropertyName,
                                );
                            }
                            match spec_consume(
                                ts,
                                st1,
                                TokenType::Identifier,
                                ParseMessage::ExpectedPropertyName,
                            ) {
                                Step::Done(_, st2) => match st2.previous {
                                    Some(name) => spec_member_tail(
                                        ts,
                                        st2,
                                        tok,
                                        lhs,
                                        SExpr::Variable(name),
                                        postfix_prec,
                                        min_prec,
                                        can_assign,
                                    ),
                                    None => Step::Aborts,
                                },
                                other => carry(other),
                            }
                        } else if tok.typ == TokenType::OBracket {
                            match spec_expr(ts, st1, 9, true) {
                                Step::Done(key, st2) => if settled(ts, st1, st2) {
                                    proof {
                                        lemma_consume(
                                            ts,
                                            st2,
                                            TokenType::CBracket,
                                            ParseMessage::ExpectedIndexEnd,
                                        );
                                    }
                                    match spec_consume(
                                        ts,
                                        st2,
                                        TokenType::CBracket,
                                        ParseMessage::ExpectedIndexEnd,
                                    ) {
                                        Step::Done(_, st3) => spec_member_tail(
                                            ts,
                                            st3,
                                            tok,
                                            lhs,
                                            key,
                                            postfix_prec,
                                            min_prec,
                                            can_assign,
                                        ),
                                        other => carry(other),
                                    }
                                } else {
                                    Step::Aborts
                                },
                                other => other,
                            }
                        } else {
                            Step::Aborts
                        }
                    },
                    other => carry(other),
                }
            }
        } else {
            Step::Done(lhs, st)
        }
    }
}

/// After `lhs.key` or `lhs[key]`: an assignment `= value` makes a store,
/// anything else a read; then the operator loop goes on.
pub open spec fn spec_member_tail(
    ts: Seq<Token>,
    st: PState,
    tok: Token,
    lhs: SExpr,
    key: SExpr,
    postfix_prec: u8,
    min_prec: u8,
    can_assign: bool,
) -> Step<SExpr>
    decreases ts.len() - st.pos, 1nat,
    when state_ok(ts, st)
{
    proof {
        lemma_next(ts, st);
    }
    if cur_is(st, TokenType::Equal) {
        match spec_next(ts, st) {
            Step::Done(eq, st1) => if !can_assign {
                Step::Failed(
                    Some(Report { message: ParseMessage::InvalidAssignmentTarget, token: eq }),
                    st1,
                )
            } else {
                match spec_expr(ts, st1, postfix_prec, true) {
                    Step::Done(value, st2) => if settled(ts, st1, st2) {
                        spec_expr_loop(
                            ts,
                            st2,
                            SExpr::SetItem(eq, Box::new(lhs), Box::new(key), Box::new(value)),
                            min_prec,
                            can_assign,
                        )
                    } else {
                        Step::Aborts
                    },
                    other => other,
                }
            },
            other => carry(other),
        }
    } else {
        spec_expr_loop(ts, st, SExpr::Get(tok, Box::new(lhs), Box::new(key)), min_prec, can_assign)
    }
}

/// The literal or variable that the previous token begins.
pub open spec fn spec_literal(ts: Seq<Token>, st: PState) -> Step<SExpr>
    decreases ts.len() - st.pos, literal_rank(st),
    when state_ok(ts, st)
{
    match st.previous {
        Some(tok) => {
            if tok.typ == TokenType::Identifier {
                Step::Done(SExpr::Variable(tok), st)
            } else if tok.typ == TokenType::Number {
                Step::Done(SExpr::Number(tok), st)
            } else if tok.typ == TokenType::String {
                Step::Done(SExpr::Str(tok), st)
            } else if tok.typ == TokenType::True || tok.typ == TokenType::False {
                Step::Done(SExpr::Bool(tok), st)
            } else if tok.typ == TokenType::Nil {
                Step::Done(SExpr::Nil(tok), st)
            } else if tok.typ == TokenType::OBracket {
                spec_list(ts, st)
            } else if tok.typ == TokenType::OBrace {
                spec_object(ts, st)
            } else {
                Step::Aborts
            }
        },
        None => Step::Aborts,
    }
}

/// The items of a list literal after `[`, and the closing `]`.
pub open spec fn spec_list(ts: Seq<Token>, st: PState) -> Step<SExpr>
    decreases ts.len() - st.pos, 5nat,
    when state_ok(ts, st)
{
    let items = if cur_is(st, TokenType::CBracket) {
        Step::Done(Seq::empty(), st)
    } else {
        spec_exprs(ts, st)
    };
    match items {
        Step::Done(items, st1) => match spec_consume(
            ts,
            st1,
            TokenType::CBracket,
            ParseMessage::ExpectedListEnd,
        ) {
            Step::Done(_, st2) => Step::Done(SExpr::List(items), st2),
            other => carry(other),
        },
        other => carry(other),
    }
}

/// A comma-separated list of expressions; a comma before `]` or `)` ends it.
pub open spec fn spec_exprs(ts: Seq<Token>, st: PState) -> Step<Seq<SExpr>>
    decreases ts.len() - st.pos, 4nat,
    when state_ok(ts, st)
{
    match spec_expr(ts, st, 9, true) {
        Step::Done(e, st1) => if settled(ts, st, st1) {
            spec_exprs_loop(ts, st1, seq![e])
        } else {
            Step::Aborts
        },
        other => carry(other),
    }
}

/// The rest of a comma-separated list, after the items already read.
pub open spec fn spec_exprs_loop(ts: Seq<Token>, st: PState, items: Seq<SExpr>) -> Step<Seq<SExpr>>
    decreases ts.len() - st.pos, 0nat,
    when state_ok(ts, st)
{
    proof {
        lemma_advance(ts, st);
    }
    if cur_is(st, TokenType::Comma) {
        match spec_advance(ts, st) {
            Step::Done(_, st1) => if cur_is(st1, TokenType::CBracket) || cur_is(
                st1,
                TokenType::CParen,
            ) {
                Step::Done(items, st1)
            } else {
                match spec_expr(ts, st1, 9, true) {
                    Step::Done(e, st2) => if settled(ts, st1, st2) {
                        spec_exprs_loop(ts, st2, items.push(e))
                    } else {
                        Step::Aborts
                    },
                    other => carry(other),
                }
            },
            other => carry(other),
        }
    } else {
        Step::Done(items, st)
    }
}

/// One `name: value` pair of an object literal.
pub open spec fn spec_property(ts: Seq<Token>, st: PState) -> Step<(Token, SExpr)>
    decreases ts.len() - st.pos, 0nat,
    when state_ok(ts, st)
{
    proof {
        lemma_consume(ts, st, TokenType::Identifier, ParseMessage::ExpectedPropertyName);
    }
    match spec_consume(ts, st, TokenType::Identifier, ParseMessage::ExpectedPropertyName) {
        Step::Done(_, st1) => match st1.previous {
            Some(key) => {
                proof {
                    lemma_consume(ts, st1, TokenType::Colon, ParseMessage::ExpectedColon);
                }
                match spec_consume(ts, st1, TokenType::Colon, ParseMessage::ExpectedColon) {
                    Step::Done(_, st2) => match spec_expr(ts, st2, 9, true) {
                        Step::Done(value, st3) => Step::Done((key, value), st3),
                        other => carry(other),
                    },
                    other => carry(other),
                }
            },
            None => Step::Aborts,
        },
        other => carry(other),
    }
}

/// The properties of an object literal after `{`, and the closing `}`.
pub open spec fn spec_object(ts: Seq<Token>, st: PState) -> Step<SExpr>
    decreases ts.len() - st.pos, 1nat,
    when state_ok(ts, st)
{
    let items = if cur_is(st, TokenType::CBrace) {
        Step::Done(Seq::empty(), st)
    } else {
        match spec_property(ts, st) {
            Step::Done(p, st1) => if settled(ts, st, st1) {
                spec_object_loop(ts, st1, seq![p])
            } else {
                Step::Aborts
            },
            other => carry(other),
        }
    };
    match items {
        Step::Done(items, st1) => match spec_consume(
            ts,
            st1,
            TokenType::CBrace,
            ParseMessage::ExpectedObjectEnd,
        ) {
            Step::Done(_, st2) => Step::Done(SExpr::Object(items), st2),
            other => carry(other),
        },
        other => carry(other),
    }
}

/// The remaining properties of an object literal.
pub open spec fn spec_object_loop(ts: Seq<Token>, st: PState, items: Seq<(Token, SExpr)>) -> Step<
    Seq<(Token, SExpr)>,
>
    decreases ts.len() - st.pos, 0nat,
    when state_ok(ts, st)
{
    proof {
        lemma_advance(ts, st);
    }
    if cur_is(st, TokenType::Comma) {
        match spec_advance(ts, st) {
            Step::Done(_, st1) => if cur_is(st1, TokenType::CBrace) {
                Step::Done(items, st1)
            } else {
                match spec_property(ts, st1) {
                    Step::Done(p, st2) => if settled(ts, st1, st2) {
                        spec_object_loop(ts, st2, items.push(p))
                    } else {
                        Step::Aborts
                    },
                    other => carry(other),
                }
            },
            other => carry(other),
        }
    } else {
        Step::Done(items, st)
    }
}

/// A prefix operator (the previous token) and its operand.
pub open spec fn spec_unary(ts: Seq<Token>, st: PState) -> Step<SExpr>
    decreases ts.len() - st.pos, 4nat,
    when state_ok(ts, st)
{
    match st.previous {
        Some(tok) => match operator_table(tok.typ.spec_row() as usize).prefix {
            Some(prec) => match spec_expr(ts, st, prec, false) {
                Step::Done(right, st1) => Step::Done(SExpr::Unary(tok, Box::new(right)), st1),
                other => other,
            },
            None => Step::Aborts,
        },
        None => Step::Aborts,
    }
}

/// The expression inside parentheses, and the closing `)`.
pub open spec fn spec_group(ts: Seq<Token>, st: PState) -> Step<SExpr>
    decreases ts.len() - st.pos, 4nat,
    when state_ok(ts, st)
{
    match spec_expr(ts, st, 9, true) {
        Step::Done(e, st1) => match spec_consume(
            ts,
            st1,
            TokenType::CParen,
            ParseMessage::ExpectedGroupEnd,
        ) {
            Step::Done(_, st2) => Step::Done(e, st2),
            other => carry(other),
        },
        other => other,
    }
}

/// A whole expression: the first pull, then an expression at the loosest
/// level, where assignment is allowed.
pub open spec fn spec_parse_expr(ts: Seq<Token>, st: PState) -> Step<SExpr> {
    match spec_advance(ts, st) {
        Step::Done(_, st1) => spec_expr(ts, st1, 9, true),
        other => carry(other),
    }
}


/// A step that ends, ends in a well-formed state at or after the one it
/// started from.
pub open spec fn ends_settled<T>(ts: Seq<Token>, st: PState, step: Step<T>) -> bool {
    match step {
        Step::Done(_, st1) => settled(ts, st, st1),
        Step::Failed(_, st1) => settled(ts, st, st1),
        _ => true,
    }
}

/// Every parsing step ends in a well-formed state at or after its start,
/// so the parser never moves backwards in its stream, and the tests of
/// `settled` in the parsing functions never fail.
pub proof fn lemma_expr_settles(ts: Seq<Token>, st: PState, min_prec: u8, can_assign: bool)
    requires
        state_ok(ts, st),
    ensures
        ends_settled(ts, st, spec_expr(ts, st, min_prec, can_assign)),
    decreases ts.len() - st.pos, 3nat,
{
    lemma_next(ts, st);
    match spec_next(ts, st) {
        Step::Done(tok, st1) => {
            if !(cur_is(st, TokenType::EOF) && recurses_at_end(tok.typ)) {
                if starts_literal(tok.typ) {
                    lemma_literal_settles(ts, st1);
                } else if tok.typ == TokenType::Minus || tok.typ == TokenType::Bang {
                    lemma_unary_settles(ts, st1);
                } else if tok.typ == TokenType::OParen {
                    lemma_group_settles(ts, st1);
                }
                let prefix = if starts_literal(tok.typ) {
                    spec_literal(ts, st1)
                } else if tok.typ == TokenType::Minus || tok.typ == TokenType::Bang {
                    spec_unary(ts, st1)
                } else if tok.typ == TokenType::OParen {
                    spec_group(ts, st1)
                } else {
                    Step::Failed(
                        Some(Report { message: ParseMessage::ExpectedExpression, token: tok }),
                        st1,
                    )
                };
                if let Step::Done(e, st2) = prefix {
                    if settled(ts, st1, st2) {
                        lemma_expr_loop_settles(ts, st2, e, min_prec, can_assign);
                    }
                }
            }
        },
        _ => {},
    }
}

pub proof fn lemma_expr_loop_settles(
    ts: Seq<Token>,
    st: PState,
    lhs: SExpr,
    min_prec: u8,
    can_assign: bool,
)
    requires
        state_ok(ts, st),
    ensures
        ends_settled(ts, st, spec_expr_loop(ts, st, lhs, min_prec, can_assign)),
    decreases ts.len() - st.pos, 0nat,
{
    lemma_advance(ts, st);
    if !cur_is(st, TokenType::EOF) {
        let tok = st.current.unwrap();
        let row = operator_table(tok.typ.spec_row() as usize);
        if row.infix is Some {
            let infix_prec = row.infix.unwrap();
            if row.associativity is Some && !(min_prec < infix_prec) {
                let can_assign1 = if tok.typ != TokenType::Equal {
                    false
                } else {
                    can_assign
                };
                if let Step::Done(_, st1) = spec_advance(ts, st) {
                    if !(tok.typ == TokenType::Equal && !can_assign1) {
                        let rhs_prec: u8 = if row.associativity == Some(Associativity::Right) {
                            infix_prec
                        } else {
                            (infix_prec - 1) as u8
                        };
                        lemma_expr_settles(ts, st1, rhs_prec, can_assign1);
                        if let Step::Done(rhs, st2) = spec_expr(ts, st1, rhs_prec, can_assign1) {
                            if settled(ts, st1, st2) {
                                lemma_expr_loop_settles(
                                    ts,
                                    st2,
                                    SExpr::Binary(tok, Box::new(lhs), Box::new(rhs)),
                                    min_prec,
                                    can_assign1,
                                );
                            }
                        }
                    }
                }
            }
        } else if row.postfix is Some {
            let postfix_prec = row.postfix.unwrap();
            if !(min_prec < postfix_prec) {
                if let Step::Done(_, st1) = spec_advance(ts, st) {
                    if tok.typ == TokenType::OParen {
                        if !cur_is(st1, TokenType::CParen) {
                            lemma_exprs_settles(ts, st1);
                        }
                        let args = if cur_is(st1, TokenType::CParen) {
                            Step::Done(Seq::empty(), st1)
                        } else {
                            spec_exprs(ts, st1)
                        };
                        if let Step::Done(a, st2) = args {
                            if settled(ts, st1, st2) {
                                lemma_consume(
                                    ts,
                                    st2,
                                    TokenType::CParen,
                                    ParseMessage::ExpectedArgumentsEnd,
                                );
                                if let Step::Done(_, st3) = spec_consume(
                                    ts,
                                    st2,
                                    TokenType::CParen,
                                    ParseMessage::ExpectedArgumentsEnd,
                                ) {
                                    lemma_expr_loop_settles(
                                        ts,
                                        st3,
                                        SExpr::Call(tok, Box::new(lhs), a),
                                        min_prec,
                                        can_assign,
                                    );
                                }
                            }
                        }
                    } else if tok.typ == TokenType::Period {
                        lemma_consume(
                            ts,
                            st1,
                            TokenType::Identifier,
                            ParseMessage::ExpectedPropertyName,
                        );
                        if let Step::Done(_, st2) = spec_consume(
                            ts,
                            st1,
                            TokenType::Identifier,
                            ParseMessage::ExpectedPropertyName,
                        ) {
                            if let Some(name) = st2.previous {
                                lemma_member_tail_settles(
                                    ts,
                                    st2,
                                    tok,
                                    lhs,
                                    SExpr::Variable(name),
                                    postfix_prec,
                                    min_prec,
                                    can_assign,
                                );
                            }
                        }
                    } else if tok.typ == TokenType::OBracket {
                        lemma_expr_settles(ts, st1, 9, true);
                        if let Step::Done(key, st2) = spec_expr(ts, st1, 9, true) {
                            if settled(ts, st1, st2) {
                                lemma_consume(
                                    ts,
                                    st2,
                                    TokenType::CBracket,
                                    ParseMessage::ExpectedIndexEnd,
                                );
                                if let Step::Done(_, st3) = spec_consume(
                                    ts,
                                    st2,
                                    TokenType::CBracket,
                                    ParseMessage::ExpectedIndexEnd,
                                ) {
                                    lemma_member_tail_settles(
                                        ts,
                                        st3,
                                        tok,
                                        lhs,
                                        key,
                                        postfix_prec,
                                        min_prec,
                                        can_assign,
                                    );
                                }
                            }
                        }
                    }
                }
            }
        }
    }
}

pub proof fn lemma_member_tail_settles(
    ts: Seq<Token>,
    st: PState,
    tok: Token,
    lhs: SExpr,
    key: SExpr,
    postfix_prec: u8,
    min_prec: u8,
    can_assign: bool,
)
    requires
        state_ok(ts, st),
    ensures
        ends_settled(
            ts,
            st,
            spec_member_tail(ts, st, tok, lhs, key, postfix_prec, min_prec, can_assign),
        ),
    decreases ts.len() - st.pos, 1nat,
{
    lemma_next(ts, st);
    if cur_is(st, TokenType::Equal) {
        if let Step::Done(eq, st1) = spec_next(ts, st) {
            if can_assign {
                lemma_expr_settles(ts, st1, postfix_prec, true);
                if let Step::Done(value, st2) = spec_expr(ts, st1, postfix_prec, true) {
                    if settled(ts, st1, st2) {
                        lemma_expr_loop_settles(
                            ts,
                            st2,
                            SExpr::SetItem(eq, Box::new(lhs), Box::new(key), Box::new(value)),
                            min_prec,
                            can_assign,
                        );
                    }
                }
            }
        }
    } else {
        lemma_expr_loop_settles(
            ts,
            st,
            SExpr::Get(tok, Box::new(lhs), Box::new(key)),
            min_prec,
            can_assign,
        );
    }
}

pub proof fn lemma_literal_settles(ts: Seq<Token>, st: PState)
    requires
        state_ok(ts, st),
    ensures
        ends_settled(ts, st, spec_literal(ts, st)),
    decreases ts.len() - st.pos, literal_rank(st),
{
    if let Some(tok) = st.previous {
        if tok.typ == TokenType::OBracket {
            lemma_list_settles(ts, st);
        } else if tok.typ == TokenType::OBrace {
            lemma_object_settles(ts, st);
        }
    }
}

pub proof fn lemma_list_settles(ts: Seq<Token>, st: PState)
    requires
        state_ok(ts, st),
    ensures
        ends_settled(ts, st, spec_list(ts, st)),
    decreases ts.len() - st.pos, 5nat,
{
    if !cur_is(st, TokenType::CBracket) {
        lemma_exprs_settles(ts, st);
    }
    let items = if cur_is(st, TokenType::CBracket) {
        Step::Done(Seq::empty(), st)
    } else {
        spec_exprs(ts, st)
    };
    if let Step::Done(_, st1) = items {
        lemma_consume(ts, st1, TokenType::CBracket, ParseMessage::ExpectedListEnd);
    }
}

pub proof fn lemma_exprs_settles(ts: Seq<Token>, st: PState)
    requires
        state_ok(ts, st),
    ensures
        ends_settled(ts, st, spec_exprs(ts, st)),
    decreases ts.len() - st.pos, 4nat,
{
    lemma_expr_settles(ts, st, 9, true);
    if let Step::Done(e, st1) = spec_expr(ts, st, 9, true) {
        if settled(ts, st, st1) {
            lemma_exprs_loop_settles(ts, st1, seq![e]);
        }
    }
}

pub proof fn lemma_exprs_loop_settles(ts: Seq<Token>, st: PState, items: Seq<SExpr>)
    requires
        state_ok(ts, st),
    ensures
        ends_settled(ts, st, spec_exprs_loop(ts, st, items)),
    decreases ts.len() - st.pos, 0nat,
{
    lemma_advance(ts, st);
    if cur_is(st, TokenType::Comma) {
        if let Step::Done(_, st1) = spec_advance(ts, st) {
            if !(cur_is(st1, TokenType::CBracket) || cur_is(st1, TokenType::CParen)) {
                lemma_expr_settles(ts, st1, 9, true);
                if let Step::Done(e, st2) = spec_expr(ts, st1, 9, true) {
                    if settled(ts, st1, st2) {
                        lemma_exprs_loop_settles(ts, st2, items.push(e));
                    }
                }
            }
        }
    }
}

pub proof fn lemma_property_settles(ts: Seq<Token>, st: PState)
    requires
        state_ok(ts, st),
    ensures
        ends_settled(ts, st, spec_property(ts, st)),
    decreases ts.len() - st.pos, 0nat,
{
    lemma_consume(ts, st, TokenType::Identifier, ParseMessage::ExpectedPropertyName);
    if let Step::Done(_, st1) = spec_consume(
        ts,
        st,
        TokenType::Identifier,
        ParseMessage::ExpectedPropertyName,
    ) {
        if let Some(key) = st1.previous {
            lemma_consume(ts, st1, TokenType::Colon, ParseMessage::ExpectedColon);
            if let Step::Done(_, st2) = spec_consume(
                ts,
                st1,
                TokenType::Colon,
                ParseMessage::ExpectedColon,
            ) {
                lemma_expr_settles(ts, st2, 9, true);
            }
        }
    }
}

pub proof fn lemma_object_settles(ts: Seq<Token>, st: PState)
    requires
        state_ok(ts, st),
    ensures
        ends_settled(ts, st, spec_object(ts, st)),
    decreases ts.len() - st.pos, 1nat,
{
    if !cur_is(st, TokenType::CBrace) {
        lemma_property_settles(ts, st);
        if let Step::Done(p, st1) = spec_property(ts, st) {
            if settled(ts, st, st1) {
                lemma_object_loop_settles(ts, st1, seq![p]);
            }
        }
    }
    let items = if cur_is(st, TokenType::CBrace) {
        Step::Done(Seq::empty(), st)
    } else {
        match spec_property(ts, st) {
            Step::Done(p, st1) => if settled(ts, st, st1) {
                spec_object_loop(ts, st1, seq![p])
            } else {
                Step::Aborts
            },
            other => carry(other),
        }
    };
    if let Step::Done(_, st1) = items {
        lemma_consume(ts, st1, TokenType::CBrace, ParseMessage::ExpectedObjectEnd);
    }
}

pub proof fn lemma_object_loop_settles(ts: Seq<Token>, st: PState, items: Seq<(Token, SExpr)>)
    requires
        state_ok(ts, st),
    ensures
        ends_settled(ts, st, spec_object_loop(ts, st, items)),
    decreases ts.len() - st.pos, 0nat,
{
    lemma_advance(ts, st);
    if cur_is(st, TokenType::Comma) {
        if let Step::Done(_, st1) = spec_advance(ts, st) {
            if !cur_is(st1, TokenType::CBrace) {
                lemma_property_settles(ts, st1);
                if let Step::Done(p, st2) = spec_property(ts, st1) {
                    if settled(ts, st1, st2) {
                        lemma_object_loop_settles(ts, st2, items.push(p));
                    }
                }
            }
        }
    }
}

pub proof fn lemma_unary_settles(ts: Seq<Token>, st: PState)
    requires
        state_ok(ts, st),
    ensures
        ends_settled(ts, st, spec_unary(ts, st)),
    decreases ts.len() - st.pos, 4nat,
{
    if let Some(tok) = st.previous {
        if let Some(prec) = operator_table(tok.typ.spec_row() as usize).prefix {
            lemma_expr_settles(ts, st, prec, false);
        }
    }
}

pub proof fn lemma_group_settles(ts: Seq<Token>, st: PState)
    requires
        state_ok(ts, st),
    ensures
        ends_settled(ts, st, spec_group(ts, st)),
    decreases ts.len() - st.pos, 4nat,
{
    lemma_expr_settles(ts, st, 9, true);
    if let Step::Done(_, st1) = spec_expr(ts, st, 9, true) {
        lemma_consume(ts, st1, TokenType::CParen, ParseMessage::ExpectedGroupEnd);
    }
}

} // verus!
