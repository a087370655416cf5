//! The binding strength of each operator, as a prefix and as an infix.

use vstd::prelude::*;
use crate::lexer::token::{KindModel, TokenKind};

verus! {

/// The precedence of a token when it begins an expression (`prefix`) and
/// when it continues one after a left operand (`infix`). `None` means that
/// the token cannot serve in that role.
#[derive(Debug, Clone, Copy, PartialEq, Eq, Structural)]
pub struct Precedence {
    pub prefix: Option<u8>,
    pub infix: Option<u8>,
}

impl Precedence {
    /// Create a precedence from its two levels.
    pub fn new(prefix: Option<u8>, infix: Option<u8>) -> (r: Precedence)
        ensures
            r == (Precedence { prefix, infix }),
    {
        Precedence { prefix, infix }
    }
}

/// The table of levels. Assignments bind loosest; then `||`, `&&`,
/// equality, comparison, terms, factors; prefix `-` and `!` bind tighter
/// than any binary operator, and calls tightest of all.
pub open spec fn precedence_of(k: KindModel) -> Precedence {
    match k {
        KindModel::Equal | KindModel::PlusEqual | KindModel::MinusEqual | KindModel::StarEqual
        | KindModel::SlashEqual => Precedence { prefix: None, infix: Some(1) },
        KindModel::Or => Precedence { prefix: None, infix: Some(2) },
        KindModel::And => Precedence { prefix: None, infix: Some(3) },
        KindModel::EqualEqual | KindModel::BangEqual => Precedence { prefix: None, infix: Some(4) },
        KindModel::Greater | KindModel::GreaterEqual | KindModel::Less | KindModel::LessEqual => {
            Precedence { prefix: None, infix: Some(5) }
        },
        KindModel::Plus => Precedence { prefix: None, infix: Some(6) },
        KindModel::Minus => Precedence { prefix: Some(8), infix: Some(6) },
        KindModel::Star | KindModel::Slash => Precedence { prefix: None, infix: Some(7) },
        KindModel::Bang => Precedence { prefix: Some(8), infix: None },
        KindModel::OpenParen | KindModel::Dot => Precedence { prefix: None, infix: Some(9) },
        _ => Precedence { prefix: None, infix: None },
    }
}

/// The precedence levels of `op`.
pub fn get_precedence(op: &TokenKind) -> (r: Precedence)
    ensures
        r == precedence_of(op@),
{
    match op {
        TokenKind::Equal | TokenKind::PlusEqual | TokenKind::MinusEqual | TokenKind::StarEqual
        | TokenKind::SlashEqual => Precedence::new(None, Some(1)),
        TokenKind::Or => Precedence::new(None, Some(2)),
        TokenKind::And => Precedence::new(None, Some(3)),
        TokenKind::EqualEqual | TokenKind::BangEqual => Precedence::new(None, Some(4)),
        TokenKind::Greater | TokenKind::GreaterEqual | TokenKind::Less | TokenKind::LessEqual => {
            Precedence::new(None, Some(5))
        },
        TokenKind::Plus => Precedence::new(None, Some(6)),
        TokenKind::Minus => Precedence::new(Some(8), Some(6)),
        TokenKind::Star | TokenKind::Slash => Precedence::new(None, Some(7)),
        TokenKind::Bang => Precedence::new(Some(8), None),
        TokenKind::OpenParen | TokenKind::Dot => Precedence::new(None, Some(9)),
        _ => Precedence::new(None, None),
    }
}

} // verus!
