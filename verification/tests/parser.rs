use qalam::ast::{Expr, Literal};
use qalam::parser::report::ParseMessage;
use qalam::parser::completion::parse_ends;
use qalam::parser::Parser;
use qalam::operators::{operator_row, Associativity};
use qalam::token::{Token, TokenType};
use qalam::token::TokenType::{
    And, Bang, CBrace, CBracket, CParen, Colon, Comma, Comment, Equal, EqualEqual, False,
    Identifier, Less, Minus, Nil, Number, OBrace, OBracket, OParen, Or, Percent, Period, Plus,
    Slash, Star, True, Unknown,
};

fn tok(typ: TokenType, col: usize) -> Token {
    Token { typ, start: col, length: 1, line: 1, col }
}

fn stream(types: &[TokenType]) -> Vec<Token> {
    let mut tokens: Vec<Token> = types.iter().enumerate().map(|(i, t)| tok(*t, i)).collect();
    tokens.push(tok(TokenType::EOF, types.len()));
    tokens
}

fn parse(types: &[TokenType]) -> (Result<Expr, ()>, Vec<(ParseMessage, usize)>) {
    let mut parser = Parser::new(stream(types));
    let res = parser.parse_expr();
    let reports = parser.reports().iter().map(|r| (r.message, r.token.col)).collect();
    (res, reports)
}

/// A compact rendering of a tree: operators by token kind, leaves by column.
fn show(e: &Expr) -> String {
    match e {
        Expr::Variable(t) => format!("v{}", t.col),
        Expr::Literal(Literal::Number(t)) => format!("n{}", t.col),
        Expr::Literal(Literal::String(t)) => format!("s{}", t.col),
        Expr::Literal(Literal::Bool(t)) => format!("b{}", t.col),
        Expr::Literal(Literal::Nil(t)) => format!("nil{}", t.col),
        Expr::Literal(Literal::List(items)) => {
            format!("[{}]", items.iter().map(show).collect::<Vec<_>>().join(","))
        }
        Expr::Literal(Literal::Object(items)) => format!(
            "{{{}}}",
            items
                .iter()
                .map(|(k, v)| format!("{}:{}", k.col, show(v)))
                .collect::<Vec<_>>()
                .join(",")
        ),
        Expr::Unary(t, r) => format!("({:?} {})", t.typ, show(r)),
        Expr::Binary(t, l, r) => format!("({:?} {} {})", t.typ, show(l), show(r)),
        Expr::Call(_, c, args) => {
            format!("{}({})", show(c), args.iter().map(show).collect::<Vec<_>>().join(","))
        }
        Expr::Get(_, o, k) => format!("{}[{}]", show(o), show(k)),
        Expr::SetItem(_, o, k, v) => format!("{}[{}]={}", show(o), show(k), show(v)),
    }
}

fn parsed(types: &[TokenType]) -> String {
    let (res, reports) = parse(types);
    assert!(reports.is_empty());
    show(&res.expect("parse"))
}


#[test]
fn single_number() {
    assert_eq!(parsed(&[Number]), "n0");
}

#[test]
fn single_primaries() {
    assert_eq!(parsed(&[Identifier]), "v0");
    assert_eq!(parsed(&[TokenType::String]), "s0");
    assert_eq!(parsed(&[True]), "b0");
    assert_eq!(parsed(&[False]), "b0");
    assert_eq!(parsed(&[Nil]), "nil0");
}

#[test]
fn multiplication_binds_tighter_than_addition() {
    assert_eq!(parsed(&[Number, Plus, Number, Star, Number]), "(Plus n0 (Star n2 n4))");
    assert_eq!(parsed(&[Number, Star, Number, Plus, Number]), "(Plus (Star n0 n2) n4)");
}

#[test]
fn equal_powers_group_left() {
    assert_eq!(parsed(&[Number, Minus, Number, Minus, Number]), "(Minus (Minus n0 n2) n4)");
    assert_eq!(parsed(&[Number, Slash, Number, Percent, Number]), "(Percent (Slash n0 n2) n4)");
}

#[test]
fn comparison_and_logic_powers() {
    assert_eq!(
        parsed(&[Identifier, Less, Number, And, Identifier, Or, Identifier]),
        "(Or (And (Less v0 n2) v4) v6)"
    );
    assert_eq!(
        parsed(&[Identifier, EqualEqual, Number, Plus, Number]),
        "(EqualEqual v0 (Plus n2 n4))"
    );
}

#[test]
fn assignment_groups_right() {
    assert_eq!(parsed(&[Identifier, Equal, Identifier, Equal, Number]), "(Equal v0 (Equal v2 n4))");
}

#[test]
fn assignment_to_an_operation_is_refused() {
    let (res, reports) = parse(&[Identifier, Plus, Identifier, Equal, Number]);
    assert!(res.is_err());
    assert_eq!(reports, vec![(ParseMessage::InvalidAssignmentTarget, 3)]);
}

#[test]
fn unary_operators_bind_tightest() {
    assert_eq!(parsed(&[Minus, Number, Star, Number]), "(Star (Minus n1) n3)");
    assert_eq!(parsed(&[Bang, Bang, True]), "(Bang (Bang b2))");
}

#[test]
fn unary_operand_cannot_be_assigned() {
    let (res, reports) = parse(&[Minus, Identifier, Equal, Number]);
    assert!(res.is_ok());
    assert!(reports.is_empty());
    assert_eq!(show(&res.unwrap()), "(Equal (Minus v1) n3)");
}

#[test]
fn groups_override_powers() {
    assert_eq!(
        parsed(&[OParen, Number, Plus, Number, CParen, Star, Number]),
        "(Star (Plus n1 n3) n6)"
    );
}

#[test]
fn unclosed_group_is_reported() {
    let (res, reports) = parse(&[OParen, Number, Number]);
    assert!(res.is_err());
    assert_eq!(reports, vec![(ParseMessage::ExpectedGroupEnd, 2)]);
}

#[test]
fn list_literals() {
    assert_eq!(parsed(&[OBracket, CBracket]), "[]");
    assert_eq!(parsed(&[OBracket, Number, Comma, Number, CBracket]), "[n1,n3]");
    assert_eq!(parsed(&[OBracket, Number, Comma, Number, Comma, CBracket]), "[n1,n3]");
}

#[test]
fn unclosed_list_is_reported() {
    let (res, reports) = parse(&[OBracket, Number, Number]);
    assert!(res.is_err());
    assert_eq!(reports, vec![(ParseMessage::ExpectedListEnd, 2)]);
}

#[test]
fn object_literals() {
    assert_eq!(parsed(&[OBrace, CBrace]), "{}");
    assert_eq!(
        parsed(&[OBrace, Identifier, Colon, Number, Comma, Identifier, Colon, TokenType::String, Comma, CBrace]),
        "{1:n3,5:s7}"
    );
}

#[test]
fn object_literal_errors() {
    let (_, reports) = parse(&[OBrace, Number]);
    assert_eq!(reports, vec![(ParseMessage::ExpectedPropertyName, 1)]);
    let (_, reports) = parse(&[OBrace, Identifier, Number]);
    assert_eq!(reports, vec![(ParseMessage::ExpectedColon, 2)]);
    let (_, reports) = parse(&[OBrace, Identifier, Colon, Number, Number]);
    assert_eq!(reports, vec![(ParseMessage::ExpectedObjectEnd, 4)]);
}

#[test]
fn calls() {
    assert_eq!(parsed(&[Identifier, OParen, CParen]), "v0()");
    assert_eq!(parsed(&[Identifier, OParen, Number, Comma, Number, CParen]), "v0(n2,n4)");
    assert_eq!(parsed(&[Identifier, OParen, Number, Comma, CParen]), "v0(n2)");
    assert_eq!(parsed(&[Identifier, OParen, CParen, OParen, CParen]), "v0()()");
    let (_, reports) = parse(&[Identifier, OParen, Number, Number]);
    assert_eq!(reports, vec![(ParseMessage::ExpectedArgumentsEnd, 3)]);
}

#[test]
fn property_and_index_reads() {
    assert_eq!(parsed(&[Identifier, Period, Identifier]), "v0[v2]");
    assert_eq!(parsed(&[Identifier, OBracket, Number, CBracket]), "v0[n2]");
    assert_eq!(
        parsed(&[Identifier, Period, Identifier, Plus, Number]),
        "(Plus v0[v2] n4)"
    );
    let (_, reports) = parse(&[Identifier, Period, Number]);
    assert_eq!(reports, vec![(ParseMessage::ExpectedPropertyName, 2)]);
    let (_, reports) = parse(&[Identifier, OBracket, Number, Number]);
    assert_eq!(reports, vec![(ParseMessage::ExpectedIndexEnd, 3)]);
}

#[test]
fn property_and_index_stores() {
    assert_eq!(parsed(&[Identifier, Period, Identifier, Equal, Number]), "v0[v2]=n4");
    assert_eq!(
        parsed(&[Identifier, OBracket, Number, CBracket, Equal, Number]),
        "v0[n2]=n5"
    );
}

#[test]
fn store_after_operator_is_refused() {
    let (res, reports) = parse(&[Number, Plus, Identifier, Period, Identifier, Equal, Number]);
    assert!(res.is_err());
    assert_eq!(reports, vec![(ParseMessage::InvalidAssignmentTarget, 5)]);
}

#[test]
fn token_that_cannot_start_is_reported() {
    let (res, reports) = parse(&[CParen]);
    assert!(res.is_err());
    assert_eq!(reports, vec![(ParseMessage::ExpectedExpression, 0)]);
    let (res, reports) = parse(&[Number, Plus, Star]);
    assert!(res.is_err());
    assert_eq!(reports, vec![(ParseMessage::ExpectedExpression, 2)]);
}

#[test]
fn comments_are_skipped() {
    assert_eq!(
        parsed(&[Comment, Number, Comment, Plus, Comment, Comment, Number]),
        "(Plus n1 n6)"
    );
}

#[test]
fn scan_errors_stop_without_report() {
    let (res, reports) = parse(&[Number, Plus, Unknown]);
    assert!(res.is_err());
    assert!(reports.is_empty());
}

#[test]
fn parsing_stops_at_a_token_that_continues_nothing() {
    let (res, reports) = parse(&[Number, Number]);
    assert_eq!(show(&res.unwrap()), "n0");
    assert!(reports.is_empty());
}

#[test]
fn consecutive_expressions_from_one_stream() {
    let mut parser = Parser::new(stream(&[Number, Plus, Number, Identifier]));
    assert_eq!(show(&parser.parse_expr().unwrap()), "(Plus n0 n2)");
    assert_eq!(show(&parser.parse_expr().unwrap()), "v3");
}

#[test]
fn messages_have_their_texts() {
    assert_eq!(ParseMessage::ExpectedExpression.text(), "توقعت عبارة");
    assert_eq!(ParseMessage::ExpectedGroupEnd.text(), "توقعت ')' لإغلاق المجموعة");
    assert_eq!(ParseMessage::InvalidAssignmentTarget.text(), "الجانب الأيمن غير صحيح");
}

#[test]
fn operator_rows() {
    assert_eq!(TokenType::Equal.row(), 15);
    let row = operator_row(Minus.row());
    assert_eq!(row.prefix, Some(2));
    assert_eq!(row.infix, Some(4));
    assert_eq!(row.associativity, Some(Associativity::Left));
    assert_eq!(operator_row(Equal.row()).associativity, Some(Associativity::Right));
    assert_eq!(operator_row(Period.row()).postfix, Some(1));
    assert_eq!(operator_row(Comma.row()).infix, None);
}

#[test]
fn streams_that_end_after_an_opening_token_do_not_parse() {
    assert!(!parse_ends(&stream(&[Minus])));
    assert!(!parse_ends(&stream(&[Identifier, Plus, OParen])));
    assert!(!parse_ends(&stream(&[Identifier, OBracket, Comment])));
    assert!(!parse_ends(&stream(&[])));
    assert!(!parse_ends(&stream(&[Comment])));
    assert!(Parser::parse_whole(stream(&[Bang])).is_none());
}

#[test]
fn whole_streams_parse_when_they_end_well() {
    assert!(parse_ends(&stream(&[Identifier, Comment])));
    match Parser::parse_whole(stream(&[Identifier, Plus, Number, Star, Number])) {
        Some((Ok(e), _)) => assert_eq!(show(&e), "(Plus v0 (Star n2 n4))"),
        _ => panic!("expected an expression"),
    }
    match Parser::parse_whole(stream(&[Identifier, Plus])) {
        Some((Err(()), p)) => assert_eq!(p.reports().len(), 1),
        _ => panic!("expected an error"),
    }
}

#[test]
fn streams_that_fail_before_their_end_still_parse() {
    assert!(parse_ends(&stream(&[Identifier, Period, Minus])));
    match Parser::parse_whole(stream(&[Identifier, Period, Minus])) {
        Some((Err(()), p)) => {
            assert_eq!(p.reports().len(), 1);
            assert_eq!(p.reports()[0].message, ParseMessage::ExpectedPropertyName);
        }
        _ => panic!("expected the missing property name"),
    }
    assert!(parse_ends(&stream(&[Identifier, CParen, Minus])));
    assert!(matches!(Parser::parse_whole(stream(&[Identifier, CParen, Minus])), Some((Ok(_), _))));
}
