use vstd::prelude::*;
use crate::token::{lemma_kind_view, Token, TokenType, TokenTypeView, TokenView};

verus! {

/// A literal of the source. A number is kept as the digits that were
/// written; its numeric value belongs to whoever runs the program.
#[derive(Debug, Clone)]
pub enum Literal {
    Number(String),
    String(String),
    Boolean(bool),
    Nil,
}

/// The mathematical model of a [`Literal`].
pub enum LiteralView {
    Number(Seq<char>),
    String(Seq<char>),
    Boolean(bool),
    Nil,
}

impl View for Literal {
    type V = LiteralView;

    open spec fn view(&self) -> LiteralView {
        match self {
            Literal::Number(digits) => LiteralView::Number(digits@),
            Literal::String(text) => LiteralView::String(text@),
            Literal::Boolean(b) => LiteralView::Boolean(*b),
            Literal::Nil => LiteralView::Nil,
        }
    }
}

/// The literal that a token of the kind `kind` writes, if it writes one.
pub open spec fn literal_of(kind: TokenTypeView) -> Option<LiteralView> {
    match kind {
        TokenTypeView::True => Some(LiteralView::Boolean(true)),
        TokenTypeView::False => Some(LiteralView::Boolean(false)),
        TokenTypeView::Nil => Some(LiteralView::Nil),
        TokenTypeView::Number(digits) => Some(LiteralView::Number(digits)),
        TokenTypeView::String(text) => Some(LiteralView::String(text)),
        _ => None,
    }
}

impl Literal {
    /// The literal that `token` writes, if it writes one.
    pub fn from_token(token: &Token) -> (literal: Option<Literal>)
        ensures
            match literal {
                Some(l) => literal_of(token@.kind) == Some(l@),
                None => literal_of(token@.kind) is None,
            },
    {
        proof {
            lemma_kind_view(token.kind);
        }
        match &token.kind {
            TokenType::True => Some(Literal::Boolean(true)),
            TokenType::False => Some(Literal::Boolean(false)),
            TokenType::Nil => Some(Literal::Nil),
            TokenType::Number(n) => Some(Literal::Number(n.clone())),
            TokenType::String(s) => Some(Literal::String(s.clone())),
            _ => None,
        }
    }
}

/// An expression. `Variable` and `Assign` end with the node's identifier,
/// under which the resolver records how many scopes lie between the use of
/// the name and its declaration.
#[derive(Debug)]
pub enum Expr {
    Assign(Token, Box<Expr>, usize),
    Binary(Box<Expr>, Token, Box<Expr>),
    Call(Box<Expr>, Token, Vec<Box<Expr>>),
    Grouping(Box<Expr>),
    Literal(Literal),
    Logical(Box<Expr>, Token, Box<Expr>),
    Unary(Token, Box<Expr>),
    Variable(Token, usize),
}

/// The mathematical model of an [`Expr`].
pub enum ExprView {
    Assign(TokenView, Box<ExprView>, usize),
    Binary(Box<ExprView>, TokenView, Box<ExprView>),
    Call(Box<ExprView>, TokenView, Seq<ExprView>),
    Grouping(Box<ExprView>),
    Literal(LiteralView),
    Logical(Box<ExprView>, TokenView, Box<ExprView>),
    Unary(TokenView, Box<ExprView>),
    Variable(TokenView, usize),
}

impl Expr {
    /// The mathematical model of this tree.
    pub open spec fn model(&self) -> ExprView
        decreases self,
    {
        match self {
            Expr::Assign(name, value, id) => ExprView::Assign(
                name@,
                Box::new(value.model()),
                *id,
            ),
            Expr::Binary(left, op, right) => ExprView::Binary(
                Box::new(left.model()),
                op@,
                Box::new(right.model()),
            ),
            Expr::Call(callee, paren, args) => ExprView::Call(
                Box::new(callee.model()),
                paren@,
                Seq::new(
                    args@.len(),
                    |i: int|
                        if 0 <= i < args@.len() {
                            args@[i].model()
                        } else {
                            ExprView::Literal(LiteralView::Nil)
                        },
                ),
            ),
            Expr::Grouping(inner) => ExprView::Grouping(Box::new(inner.model())),
            Expr::Literal(literal) => ExprView::Literal(literal@),
            Expr::Logical(left, op, right) => ExprView::Logical(
                Box::new(left.model()),
                op@,
                Box::new(right.model()),
            ),
            Expr::Unary(op, right) => ExprView::Unary(op@, Box::new(right.model())),
            Expr::Variable(name, id) => ExprView::Variable(name@, *id),
        }
    }
}

impl View for Expr {
    type V = ExprView;

    open spec fn view(&self) -> ExprView {
        self.model()
    }
}

/// The models of a list of expressions.
pub open spec fn expr_views(list: Seq<Box<Expr>>) -> Seq<ExprView> {
    Seq::new(list.len(), |i: int| list[i]@)
}

/// The arguments of a call's model are the models of the call's arguments.
pub proof fn lemma_call_view(callee: Box<Expr>, paren: Token, args: Vec<Box<Expr>>)
    ensures
        Expr::Call(callee, paren, args)@ == ExprView::Call(
            Box::new(callee@),
            paren@,
            expr_views(args@),
        ),
{
    let e = Expr::Call(callee, paren, args);
    assert(e@->Call_2 =~= expr_views(args@));
}

/// The expression `nil`.
pub fn nil_expression() -> (e: Box<Expr>)
    ensures
        e@ == ExprView::Literal(LiteralView::Nil),
{
    Box::new(Expr::Literal(Literal::Nil))
}

/// The expression `true` or `false`.
pub fn bool_expression(which: bool) -> (e: Box<Expr>)
    ensures
        e@ == ExprView::Literal(LiteralView::Boolean(which)),
{
    Box::new(Expr::Literal(Literal::Boolean(which)))
}

} // verus!
