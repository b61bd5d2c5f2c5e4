use vstd::prelude::*;
use crate::expr::{Expr, ExprView};
use crate::token::token_views;
use crate::token::{Token, TokenView};

verus! {

#[derive(Debug)]
pub enum Stmt {
    /// Does nothing; stands for an `else` that was not written.
    Empty,
    Block(Vec<Stmt>),
    Expression(Box<Expr>),
    /// A function's name, its parameters and its body.
    Function(Token, Vec<Token>, Vec<Stmt>),
    If(Box<Expr>, Box<Stmt>, Box<Stmt>),
    Print(Box<Expr>),
    /// The `return` keyword and the value returned.
    Return(Token, Box<Expr>),
    /// A variable's name and its initializer, `nil` where none was written.
    Var(String, Box<Expr>),
    While(Box<Expr>, Box<Stmt>),
}

/// The mathematical model of a [`Stmt`].
pub enum StmtView {
    Empty,
    Block(Seq<StmtView>),
    Expression(ExprView),
    Function(TokenView, Seq<TokenView>, Seq<StmtView>),
    If(ExprView, Box<StmtView>, Box<StmtView>),
    Print(ExprView),
    Return(TokenView, ExprView),
    Var(Seq<char>, ExprView),
    While(ExprView, Box<StmtView>),
}

impl Stmt {
    /// The mathematical model of this tree.
    pub open spec fn model(&self) -> StmtView
        decreases self,
    {
        match self {
            Stmt::Empty => StmtView::Empty,
            Stmt::Block(list) => StmtView::Block(
                Seq::new(
                    list@.len(),
                    |i: int|
                        if 0 <= i < list@.len() {
                            list@[i].model()
                        } else {
                            StmtView::Empty
                        },
                ),
            ),
            Stmt::Expression(e) => StmtView::Expression(e.model()),
            Stmt::Function(name, params, body) => StmtView::Function(
                name@,
                token_views(params@),
                Seq::new(
                    body@.len(),
                    |i: int|
                        if 0 <= i < body@.len() {
                            body@[i].model()
                        } else {
                            StmtView::Empty
                        },
                ),
            ),
            Stmt::If(cond, then_branch, else_branch) => StmtView::If(
                cond.model(),
                Box::new(then_branch.model()),
                Box::new(else_branch.model()),
            ),
            Stmt::Print(e) => StmtView::Print(e.model()),
            Stmt::Return(keyword, e) => StmtView::Return(keyword@, e.model()),
            Stmt::Var(name, init) => StmtView::Var(name@, init.model()),
            Stmt::While(cond, body) => StmtView::While(cond.model(), Box::new(body.model())),
        }
    }
}

impl View for Stmt {
    type V = StmtView;

    open spec fn view(&self) -> StmtView {
        self.model()
    }
}

/// The models of a list of statements.
pub open spec fn stmt_views(list: Seq<Stmt>) -> Seq<StmtView> {
    Seq::new(list.len(), |i: int| list[i]@)
}

/// The statements of a block's model are the models of the block's
/// statements.
pub proof fn lemma_block_view(list: Vec<Stmt>)
    ensures
        Stmt::Block(list)@ == StmtView::Block(stmt_views(list@)),
{
    assert(Stmt::Block(list)@->Block_0 =~= stmt_views(list@));
}

/// The body of a function's model is the models of the function's
/// statements.
pub proof fn lemma_function_view(name: Token, params: Vec<Token>, body: Vec<Stmt>)
    ensures
        Stmt::Function(name, params, body)@ == StmtView::Function(
            name@,
            token_views(params@),
            stmt_views(body@),
        ),
{
    assert(Stmt::Function(name, params, body)@->Function_2 =~= stmt_views(body@));
}

} // verus!
