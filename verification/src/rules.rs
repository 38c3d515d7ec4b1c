//! The precedence table: the single source of truth for operator binding.
//! Each token kind maps to an optional prefix handler, an optional infix
//! handler, and a binding precedence; the parser drives itself entirely off
//! this table.

use vstd::prelude::*;
use crate::scanner::TokenType;

verus! {

/// Binding precedence, strictly ordered from loosest (`Lowest`, for tokens
/// that are no operators) to tightest.
/// `Overflow` is a sentinel one past `Primary`, unreachable in practice.
#[derive(Clone, Copy, Debug, PartialEq, Eq, Structural)]
pub enum Precedence {
    Lowest,
    /// `=`
    Assignment,
    /// `||`
    Or,
    /// `&&`
    And,
    /// `==` `!=`
    Equality,
    /// `<` `>` `<=` `>=`
    Comparison,
    /// `+` `-`
    Term,
    /// `*` `/`
    Factor,
    /// `!` `-`
    Unary,
    /// `.` `()`
    Call,
    Primary,
    Overflow,
}

/// The numeric rank of a precedence level; the order the enum declares.
pub open spec fn spec_prec_rank(p: Precedence) -> int {
    match p {
        Precedence::Lowest => 0,
        Precedence::Assignment => 1,
        Precedence::Or => 2,
        Precedence::And => 3,
        Precedence::Equality => 4,
        Precedence::Comparison => 5,
        Precedence::Term => 6,
        Precedence::Factor => 7,
        Precedence::Unary => 8,
        Precedence::Call => 9,
        Precedence::Primary => 10,
        Precedence::Overflow => 11,
    }
}

impl Precedence {
    /// The numeric rank of this level.
    pub fn rank(&self) -> (r: u8)
        ensures
            r == spec_prec_rank(*self),
    {
        match self {
            Precedence::Lowest => 0,
            Precedence::Assignment => 1,
            Precedence::Or => 2,
            Precedence::And => 3,
            Precedence::Equality => 4,
            Precedence::Comparison => 5,
            Precedence::Term => 6,
            Precedence::Factor => 7,
            Precedence::Unary => 8,
            Precedence::Call => 9,
            Precedence::Primary => 10,
            Precedence::Overflow => 11,
        }
    }

    /// The next tighter level: left-associative operators re-enter the
    /// parser one level above their own.
    pub fn add_one(&self) -> (r: Self)
        requires
            *self != Precedence::Overflow,
        ensures
            spec_prec_rank(r) == spec_prec_rank(*self) + 1,
    {
        match self {
            Precedence::Lowest => Precedence::Assignment,
            Precedence::Assignment => Precedence::Or,
            Precedence::Or => Precedence::And,
            Precedence::And => Precedence::Equality,
            Precedence::Equality => Precedence::Comparison,
            Precedence::Comparison => Precedence::Term,
            Precedence::Term => Precedence::Factor,
            Precedence::Factor => Precedence::Unary,
            Precedence::Unary => Precedence::Call,
            Precedence::Call => Precedence::Primary,
            Precedence::Primary => Precedence::Overflow,
            Precedence::Overflow => Precedence::Overflow,
        }
    }
}

/// The prefix handlers a token kind can name.
#[derive(Clone, Copy, Debug, PartialEq, Eq, Structural)]
pub enum PrefixFn {
    Grouping,
    Unary,
    Number,
    StringLit,
    Variable,
    Literal,
}

/// The infix handlers a token kind can name.
#[derive(Clone, Copy, Debug, PartialEq, Eq, Structural)]
pub enum InfixFn {
    Binary,
}

/// One row of the precedence table.
#[derive(Clone, Copy, Debug, PartialEq, Eq, Structural)]
pub struct ParseRule {
    pub prefix: Option<PrefixFn>,
    pub infix: Option<InfixFn>,
    pub precedence: Precedence,
}

/// The table itself: which handlers drive each token kind, and how tightly
/// the kind binds as an operator. Kinds missing from the grammar map to no
/// handlers at the `Lowest` precedence.
pub open spec fn spec_get_rule(id: TokenType) -> ParseRule {
    match id {
        TokenType::LeftParen => ParseRule {
            prefix: Some(PrefixFn::Grouping),
            infix: None,
            precedence: Precedence::Lowest,
        },
        TokenType::Minus => ParseRule {
            prefix: Some(PrefixFn::Unary),
            infix: Some(InfixFn::Binary),
            precedence: Precedence::Term,
        },
        TokenType::Plus => ParseRule {
            prefix: None,
            infix: Some(InfixFn::Binary),
            precedence: Precedence::Term,
        },
        TokenType::Star => ParseRule {
            prefix: None,
            infix: Some(InfixFn::Binary),
            precedence: Precedence::Factor,
        },
        TokenType::Slash => ParseRule {
            prefix: None,
            infix: Some(InfixFn::Binary),
            precedence: Precedence::Factor,
        },
        TokenType::Bang => ParseRule {
            prefix: Some(PrefixFn::Unary),
            infix: None,
            precedence: Precedence::Lowest,
        },
        TokenType::BangEqual => ParseRule {
            prefix: None,
            infix: Some(InfixFn::Binary),
            precedence: Precedence::Equality,
        },
        TokenType::EqualEqual => ParseRule {
            prefix: None,
            infix: Some(InfixFn::Binary),
            precedence: Precedence::Equality,
        },
        TokenType::Greater => ParseRule {
            prefix: None,
            infix: Some(InfixFn::Binary),
            precedence: Precedence::Comparison,
        },
        TokenType::GreaterEqual => ParseRule {
            prefix: None,
            infix: Some(InfixFn::Binary),
            precedence: Precedence::Comparison,
        },
        TokenType::Less => ParseRule {
            prefix: None,
            infix: Some(InfixFn::Binary),
            precedence: Precedence::Comparison,
        },
        TokenType::LessEqual => ParseRule {
            prefix: None,
            infix: Some(InfixFn::Binary),
            precedence: Precedence::Comparison,
        },
        TokenType::Number => ParseRule {
            prefix: Some(PrefixFn::Number),
            infix: None,
            precedence: Precedence::Lowest,
        },
        TokenType::String => ParseRule {
            prefix: Some(PrefixFn::StringLit),
            infix: None,
            precedence: Precedence::Lowest,
        },
        TokenType::Identifier => ParseRule {
            prefix: Some(PrefixFn::Variable),
            infix: None,
            precedence: Precedence::Lowest,
        },
        TokenType::True => ParseRule {
            prefix: Some(PrefixFn::Literal),
            infix: None,
            precedence: Precedence::Lowest,
        },
        TokenType::False => ParseRule {
            prefix: Some(PrefixFn::Literal),
            infix: None,
            precedence: Precedence::Lowest,
        },
        TokenType::Nil => ParseRule {
            prefix: Some(PrefixFn::Literal),
            infix: None,
            precedence: Precedence::Lowest,
        },
        _ => ParseRule { prefix: None, infix: None, precedence: Precedence::Lowest },
    }
}

/// Looks a token kind's rule up.
pub fn get_rule(id: TokenType) -> (r: ParseRule)
    ensures
        r == spec_get_rule(id),
{
    match id {
        TokenType::LeftParen => ParseRule {
            prefix: Some(PrefixFn::Grouping),
            infix: None,
            precedence: Precedence::Lowest,
        },
        TokenType::Minus => ParseRule {
            prefix: Some(PrefixFn::Unary),
            infix: Some(InfixFn::Binary),
            precedence: Precedence::Term,
        },
        TokenType::Plus => ParseRule {
            prefix: None,
            infix: Some(InfixFn::Binary),
            precedence: Precedence::Term,
        },
        TokenType::Star => ParseRule {
            prefix: None,
            infix: Some(InfixFn::Binary),
            precedence: Precedence::Factor,
        },
        TokenType::Slash => ParseRule {
            prefix: None,
            infix: Some(InfixFn::Binary),
            precedence: Precedence::Factor,
        },
        TokenType::Bang => ParseRule {
            prefix: Some(PrefixFn::Unary),
            infix: None,
            precedence: Precedence::Lowest,
        },
        TokenType::BangEqual => ParseRule {
            prefix: None,
            infix: Some(InfixFn::Binary),
            precedence: Precedence::Equality,
        },
        TokenType::EqualEqual => ParseRule {
            prefix: None,
            infix: Some(InfixFn::Binary),
            precedence: Precedence::Equality,
        },
        TokenType::Greater => ParseRule {
            prefix: None,
            infix: Some(InfixFn::Binary),
            precedence: Precedence::Comparison,
        },
        TokenType::GreaterEqual => ParseRule {
            prefix: None,
            infix: Some(InfixFn::Binary),
            precedence: Precedence::Comparison,
        },
        TokenType::Less => ParseRule {
            prefix: None,
            infix: Some(InfixFn::Binary),
            precedence: Precedence::Comparison,
        },
        TokenType::LessEqual => ParseRule {
            prefix: None,
            infix: Some(InfixFn::Binary),
            precedence: Precedence::Comparison,
        },
        TokenType::Number => ParseRule {
            prefix: Some(PrefixFn::Number),
            infix: None,
            precedence: Precedence::Lowest,
        },
        TokenType::String => ParseRule {
            prefix: Some(PrefixFn::StringLit),
            infix: None,
            precedence: Precedence::Lowest,
        },
        TokenType::Identifier => ParseRule {
            prefix: Some(PrefixFn::Variable),
            infix: None,
            precedence: Precedence::Lowest,
        },
        TokenType::True => ParseRule {
            prefix: Some(PrefixFn::Literal),
            infix: None,
            precedence: Precedence::Lowest,
        },
        TokenType::False => ParseRule {
            prefix: Some(PrefixFn::Literal),
            infix: None,
            precedence: Precedence::Lowest,
        },
        TokenType::Nil => ParseRule {
            prefix: Some(PrefixFn::Literal),
            infix: None,
            precedence: Precedence::Lowest,
        },
        _ => ParseRule { prefix: None, infix: None, precedence: Precedence::Lowest },
    }
}

/// Every kind that binds as an operator has an infix handler: the infix
/// dispatch in the parser can rely on the table alone.
pub proof fn lemma_infix_present(id: TokenType)
    ensures
        spec_prec_rank(spec_get_rule(id).precedence) >= 1 ==> spec_get_rule(id).infix is Some,
{
}

} // verus!
