use vstd::prelude::*;

verus! {

/// How an infix operator groups with operators of the same precedence.
#[derive(Clone, Copy, Debug, PartialEq, Eq, Structural)]
pub enum Associativity {
    Left,
    Right,
}

/// One row of the operator table: the binding power of a token kind used as
/// a prefix, infix or postfix operator (a smaller number binds tighter), and
/// the grouping of the infix use.
#[derive(Clone, Copy, Debug, PartialEq, Eq, Structural)]
pub struct OperatorRow {
    pub prefix: Option<u8>,
    pub infix: Option<u8>,
    pub postfix: Option<u8>,
    pub associativity: Option<Associativity>,
}

/// The operator table, indexed by the row of a token kind.
pub open spec fn operator_table(row: usize) -> OperatorRow {
    match row {
        0 => OperatorRow { prefix: None, infix: None, postfix: Some(1), associativity: None },
        4 => OperatorRow { prefix: None, infix: None, postfix: Some(1), associativity: None },
        6 => OperatorRow { prefix: None, infix: None, postfix: Some(1), associativity: None },
        7 => OperatorRow { prefix: None, infix: Some(4), postfix: None, associativity: Some(Associativity::Left) },
        8 => OperatorRow { prefix: Some(2), infix: Some(4), postfix: None, associativity: Some(Associativity::Left) },
        9 => OperatorRow { prefix: None, infix: Some(3), postfix: None, associativity: Some(Associativity::Left) },
        10 => OperatorRow { prefix: None, infix: Some(3), postfix: None, associativity: Some(Associativity::Left) },
        11 => OperatorRow { prefix: None, infix: Some(3), postfix: None, associativity: Some(Associativity::Left) },
        15 => OperatorRow { prefix: None, infix: Some(9), postfix: None, associativity: Some(Associativity::Right) },
        16 => OperatorRow { prefix: None, infix: Some(6), postfix: None, associativity: Some(Associativity::Left) },
        17 => OperatorRow { prefix: Some(2), infix: None, postfix: None, associativity: None },
        18 => OperatorRow { prefix: None, infix: Some(6), postfix: None, associativity: Some(Associativity::Left) },
        19 => OperatorRow { prefix: None, infix: Some(5), postfix: None, associativity: Some(Associativity::Left) },
        20 => OperatorRow { prefix: None, infix: Some(5), postfix: None, associativity: Some(Associativity::Left) },
        21 => OperatorRow { prefix: None, infix: Some(5), postfix: None, associativity: Some(Associativity::Left) },
        22 => OperatorRow { prefix: None, infix: Some(5), postfix: None, associativity: Some(Associativity::Left) },
        23 => OperatorRow { prefix: None, infix: Some(7), postfix: None, associativity: Some(Associativity::Left) },
        24 => OperatorRow { prefix: None, infix: Some(8), postfix: None, associativity: Some(Associativity::Left) },
        _ => OperatorRow { prefix: None, infix: None, postfix: None, associativity: None },
    }
}

/// Looks up a row of the operator table.
pub fn operator_row(row: usize) -> (r: OperatorRow)
    ensures
        r == operator_table(row),
{
    match row {
        0 => OperatorRow { prefix: None, infix: None, postfix: Some(1), associativity: None },
        4 => OperatorRow { prefix: None, infix: None, postfix: Some(1), associativity: None },
        6 => OperatorRow { prefix: None, infix: None, postfix: Some(1), associativity: None },
        7 => OperatorRow { prefix: None, infix: Some(4), postfix: None, associativity: Some(Associativity::Left) },
        8 => OperatorRow { prefix: Some(2), infix: Some(4), postfix: None, associativity: Some(Associativity::Left) },
        9 => OperatorRow { prefix: None, infix: Some(3), postfix: None, associativity: Some(Associativity::Left) },
        10 => OperatorRow { prefix: None, infix: Some(3), postfix: None, associativity: Some(Associativity::Left) },
        11 => OperatorRow { prefix: None, infix: Some(3), postfix: None, associativity: Some(Associativity::Left) },
        15 => OperatorRow { prefix: None, infix: Some(9), postfix: None, associativity: Some(Associativity::Right) },
        16 => OperatorRow { prefix: None, infix: Some(6), postfix: None, associativity: Some(Associativity::Left) },
        17 => OperatorRow { prefix: Some(2), infix: None, postfix: None, associativity: None },
        18 => OperatorRow { prefix: None, infix: Some(6), postfix: None, associativity: Some(Associativity::Left) },
        19 => OperatorRow { prefix: None, infix: Some(5), postfix: None, associativity: Some(Associativity::Left) },
        20 => OperatorRow { prefix: None, infix: Some(5), postfix: None, associativity: Some(Associativity::Left) },
        21 => OperatorRow { prefix: None, infix: Some(5), postfix: None, associativity: Some(Associativity::Left) },
        22 => OperatorRow { prefix: None, infix: Some(5), postfix: None, associativity: Some(Associativity::Left) },
        23 => OperatorRow { prefix: None, infix: Some(7), postfix: None, associativity: Some(Associativity::Left) },
        24 => OperatorRow { prefix: None, infix: Some(8), postfix: None, associativity: Some(Associativity::Left) },
        _ => OperatorRow { prefix: None, infix: None, postfix: None, associativity: None },
    }
}

/// Every infix row carries a grouping, and infix binding powers lie in 3..=9;
/// prefix and postfix powers are small and positive.
pub proof fn lemma_operator_table_shape(row: usize)
    ensures
        operator_table(row).infix is Some <==> operator_table(row).associativity is Some,
        operator_table(row).infix matches Some(p) ==> 3 <= p <= 9,
        operator_table(row).prefix matches Some(p) ==> p == 2,
        operator_table(row).postfix matches Some(p) ==> p == 1,
{
}

} // verus!
