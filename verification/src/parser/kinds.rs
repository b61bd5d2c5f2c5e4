use vstd::prelude::*;
use crate::parser::grammar::{operator_of, starts_declaration, Level};
use crate::token::{lemma_kind_view, TokenType};

verus! {

/// Whether `kind` is an operator of the level.
pub fn is_operator(level: Level, kind: &TokenType) -> (yes: bool)
    ensures
        yes == operator_of(level, kind@),
{
    proof {
        lemma_kind_view(*kind);
    }
    match level {
        Level::Factor => match kind {
            TokenType::Slash => true,
            TokenType::Star => true,
            _ => false,
        },
        Level::Term => match kind {
            TokenType::Plus => true,
            TokenType::Minus => true,
            _ => false,
        },
        Level::Comparison => match kind {
            TokenType::Greater => true,
            TokenType::GreaterEqual => true,
            TokenType::Less => true,
            TokenType::LessEqual => true,
            _ => false,
        },
        Level::Equality => match kind {
            TokenType::BangEqual => true,
            TokenType::EqualEqual => true,
            _ => false,
        },
        Level::And => match kind {
            TokenType::And => true,
            _ => false,
        },
        Level::Or => match kind {
            TokenType::Or => true,
            _ => false,
        },
    }
}

/// Whether a declaration may start with a token of this kind.
pub fn may_start_declaration(kind: &TokenType) -> (yes: bool)
    ensures
        yes == starts_declaration(kind@),
{
    proof {
        lemma_kind_view(*kind);
    }
    match kind {
        TokenType::Class
        | TokenType::For
        | TokenType::Fun
        | TokenType::If
        | TokenType::Print
        | TokenType::Return
        | TokenType::Var
        | TokenType::While => true,
        _ => false,
    }
}

} // verus!
