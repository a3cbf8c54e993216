use vstd::prelude::*;

use crate::token::Token;

verus! {

/// What a parse error says.
#[derive(Clone, Copy, Debug, PartialEq, Eq, Structural)]
pub enum ParseMessage {
    /// `]` missing after the items of a list literal.
    ExpectedListEnd,
    /// A property name is missing (in an object literal or after `.`).
    ExpectedPropertyName,
    /// `:` missing after a property name in an object literal.
    ExpectedColon,
    /// `}` missing after the properties of an object literal.
    ExpectedObjectEnd,
    /// `)` missing to close a parenthesised group.
    ExpectedGroupEnd,
    /// A token that cannot start an expression.
    ExpectedExpression,
    /// An assignment whose left side cannot be assigned to.
    InvalidAssignmentTarget,
    /// `)` missing after the arguments of a call.
    ExpectedArgumentsEnd,
    /// `]` missing after an index expression.
    ExpectedIndexEnd,
}

/// The text shown to the user for a message.
pub open spec fn message_text(m: ParseMessage) -> Seq<char> {
    match m {
        ParseMessage::ExpectedListEnd => "توقعت ']' بعد القائمة"@,
        ParseMessage::ExpectedPropertyName => "توقعت اسم الخاصية"@,
        ParseMessage::ExpectedColon => "توقعت ':' بعد الاسم"@,
        ParseMessage::ExpectedObjectEnd => "توقعت '}' بعد القائمة"@,
        ParseMessage::ExpectedGroupEnd => "توقعت ')' لإغلاق المجموعة"@,
        ParseMessage::ExpectedExpression => "توقعت عبارة"@,
        ParseMessage::InvalidAssignmentTarget => "الجانب الأيمن غير صحيح"@,
        ParseMessage::ExpectedArgumentsEnd => "توقعت ')' بعد القائمة"@,
        ParseMessage::ExpectedIndexEnd => "توقعت ']' بعد العبارة"@,
    }
}

impl ParseMessage {
    /// The text shown to the user for this message.
    pub fn text(&self) -> (r: &'static str)
        ensures
            r@ == message_text(*self),
    {
        match self {
            ParseMessage::ExpectedListEnd => "توقعت ']' بعد القائمة",
            ParseMessage::ExpectedPropertyName => "توقعت اسم الخاصية",
            ParseMessage::ExpectedColon => "توقعت ':' بعد الاسم",
            ParseMessage::ExpectedObjectEnd => "توقعت '}' بعد القائمة",
            ParseMessage::ExpectedGroupEnd => "توقعت ')' لإغلاق المجموعة",
            ParseMessage::ExpectedExpression => "توقعت عبارة",
            ParseMessage::InvalidAssignmentTarget => "الجانب الأيمن غير صحيح",
            ParseMessage::ExpectedArgumentsEnd => "توقعت ')' بعد القائمة",
            ParseMessage::ExpectedIndexEnd => "توقعت ']' بعد العبارة",
        }
    }
}

/// A parse error: what went wrong and the token at which it was found.
#[derive(Clone, Copy, Debug, PartialEq, Eq, Structural)]
pub struct Report {
    pub message: ParseMessage,
    pub token: Token,
}

impl Report {
    pub fn new(message: ParseMessage, token: Token) -> (r: Report)
        ensures
            r == (Report { message, token }),
    {
        Report { message, token }
    }
}

} // verus!
