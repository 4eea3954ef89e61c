//! The operators of the claim language, ranked by binding strength.
use vstd::prelude::*;

verus! {

use core::cmp::Ordering;

#[derive(Debug, Clone, Copy, PartialEq, Eq, Structural)]
pub enum Operator {
    Or,
    And,
    Less,
    LessEquals,
    Greater,
    GreaterEquals,
    Equals,
    NotEquals,
    Not,
    Plus,
    Minus,
    Multiply,
    Modulus,
    Divide,
    Negate,
}

impl Operator {
    /// The binding strength of the operator; a larger number binds tighter.
    pub open spec fn spec_precedence(self) -> int {
        match self {
            Operator::Or => 0,
            Operator::And => 1,
            Operator::Less => 2,
            Operator::LessEquals => 2,
            Operator::Greater => 2,
            Operator::GreaterEquals => 2,
            Operator::Equals => 3,
            Operator::NotEquals => 3,
            Operator::Not => 3,
            Operator::Plus => 4,
            Operator::Minus => 4,
            Operator::Multiply => 5,
            Operator::Divide => 5,
            Operator::Modulus => 5,
            Operator::Negate => 6,
        }
    }

    pub fn precedence(&self) -> (p: usize)
        ensures
            p == self.spec_precedence(),
    {
        match self {
            Operator::Or => 0,
            Operator::And => 1,
            Operator::Less => 2,
            Operator::LessEquals => 2,
            Operator::Greater => 2,
            Operator::GreaterEquals => 2,
            Operator::Equals => 3,
            Operator::NotEquals => 3,
            Operator::Not => 3,
            Operator::Plus => 4,
            Operator::Minus => 4,
            Operator::Multiply => 5,
            Operator::Divide => 5,
            Operator::Modulus => 5,
            Operator::Negate => 6,
        }
    }

    /// How this operator's binding strength compares with another's.
    pub fn precedes(&self, other: &Self) -> (r: Ordering)
        ensures
            r == Ordering::Less <==> self.spec_precedence() < other.spec_precedence(),
            r == Ordering::Equal <==> self.spec_precedence() == other.spec_precedence(),
            r == Ordering::Greater <==> self.spec_precedence() > other.spec_precedence(),
    {
        let a = self.precedence();
        let b = other.precedence();
        if a < b {
            Ordering::Less
        } else if a == b {
            Ordering::Equal
        } else {
            Ordering::Greater
        }
    }

    pub fn is_unary(&self) -> (r: bool)
        ensures
            r == (*self == Operator::Not || *self == Operator::Negate),
    {
        match self {
            Operator::Not => true,
            Operator::Negate => true,
            _ => false,
        }
    }

    pub fn is_double_width(&self) -> (r: bool)
        ensures
            r == (*self == Operator::LessEquals || *self == Operator::GreaterEquals || *self
                == Operator::Equals || *self == Operator::NotEquals),
    {
        match self {
            Operator::LessEquals => true,
            Operator::GreaterEquals => true,
            Operator::Equals => true,
            Operator::NotEquals => true,
            _ => false,
        }
    }
}

} // verus!
