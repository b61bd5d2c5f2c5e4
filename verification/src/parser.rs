pub mod grammar;
pub mod kinds;
pub mod progress;
pub mod sentences;

use vstd::prelude::*;
use vstd::string::*;
use crate::errors::{Error, ErrorView};
use crate::expr::{
    bool_expression, expr_views, lemma_call_view, nil_expression, Expr, ExprView, Literal,
};
use crate::parser::grammar::{
    arguments, arguments_rest, assigned, assignment, at_end, binary, binary_rest, block,
    block_rest, block_statement, call, call_rest, check, clause, condition, declaration,
    desugar_for, else_branch, expect, expression, expression_statement,
    expression_then_semicolon, finish_call, for_clauses, for_initializer, for_statement,
    function, if_statement, initializer, law_synchronize_progress, node, operand,
    parameters, parameters_rest, primary, print_statement, program, rank, resume_at,
    return_statement, signature, statement, synchronize, unary, var_declaration,
    while_statement, ForClauses, Level, Parse, Program, Signature,
};
use crate::parser::kinds::{is_operator, may_start_declaration};
use crate::errors::error_views;
use crate::token::token_views;
use crate::stmt::{lemma_block_view, lemma_function_view, stmt_views, Stmt, StmtView};
use crate::token::{lemma_kind_view, Token, TokenType, TokenTypeView, TokenView};

verus! {

/// A token list as the parser reads it: one that does not end with the
/// end-of-input token is read as if that token followed, on the line of
/// the last token.
pub open spec fn terminated(ts: Seq<TokenView>) -> Seq<TokenView> {
    if ts.len() > 0 && ts.last().kind is EOF {
        ts
    } else {
        ts.push(
            TokenView {
                kind: TokenTypeView::EOF,
                line: if ts.len() > 0 {
                    ts.last().line
                } else {
                    1
                },
            },
        )
    }
}

/// Whether a result is the outcome of a rule.
pub open spec fn expr_is(result: Result<Box<Expr>, Error>, parse: Parse<ExprView>) -> bool {
    match result {
        Ok(e) => parse.result == Ok::<ExprView, ErrorView>(e@),
        Err(err) => parse.result == Err::<ExprView, ErrorView>(err@),
    }
}

/// Whether a result is the outcome of a rule.
pub open spec fn stmt_is(result: Result<Stmt, Error>, parse: Parse<StmtView>) -> bool {
    match result {
        Ok(s) => parse.result == Ok::<StmtView, ErrorView>(s@),
        Err(err) => parse.result == Err::<StmtView, ErrorView>(err@),
    }
}

/// Whether a result is the outcome of a rule.
pub open spec fn stmts_are(result: Result<Vec<Stmt>, Error>, parse: Parse<Seq<StmtView>>) -> bool {
    match result {
        Ok(list) => parse.result == Ok::<Seq<StmtView>, ErrorView>(stmt_views(list@)),
        Err(err) => parse.result == Err::<Seq<StmtView>, ErrorView>(err@),
    }
}

/// Whether a result is the outcome of a rule.
pub open spec fn exprs_are(result: Result<Vec<Box<Expr>>, Error>, parse: Parse<Seq<ExprView>>)
    -> bool {
    match result {
        Ok(list) => parse.result == Ok::<Seq<ExprView>, ErrorView>(expr_views(list@)),
        Err(err) => parse.result == Err::<Seq<ExprView>, ErrorView>(err@),
    }
}

/// Whether a result is the outcome of a rule.
pub open spec fn tokens_are(result: Result<Vec<Token>, Error>, parse: Parse<Seq<TokenView>>)
    -> bool {
    match result {
        Ok(list) => parse.result == Ok::<Seq<TokenView>, ErrorView>(token_views(list@)),
        Err(err) => parse.result == Err::<Seq<TokenView>, ErrorView>(err@),
    }
}

/// Whether a result is the outcome of a rule.
pub open spec fn token_is(result: Result<Token, Error>, parse: Parse<TokenView>) -> bool {
    match result {
        Ok(token) => parse.result == Ok::<TokenView, ErrorView>(token@),
        Err(err) => parse.result == Err::<TokenView, ErrorView>(err@),
    }
}

/// The model of an optional expression.
pub open spec fn optional_expr(e: Option<Box<Expr>>) -> Option<ExprView> {
    match e {
        Some(e) => Some(e@),
        None => None,
    }
}

/// The model of an optional statement.
pub open spec fn optional_stmt(s: Option<Stmt>) -> Option<StmtView> {
    match s {
        Some(s) => Some(s@),
        None => None,
    }
}

fn make_node(level: Level, l: Box<Expr>, op: Token, r: Box<Expr>) -> (e: Box<Expr>)
    ensures
        e@ == node(level, l@, op@, r@),
{
    match level {
        Level::And => Box::new(Expr::Logical(l, op, r)),
        Level::Or => Box::new(Expr::Logical(l, op, r)),
        _ => Box::new(Expr::Binary(l, op, r)),
    }
}

fn parse_error(token: &Token, msg: &str) -> (e: Error)
    ensures
        e@ == ErrorView::Parse(token@, msg@),
{
    Error::Parse(token.duplicate(), String::from_str(msg))
}

/// Takes the sugar off a `for`: the increment goes to the end of the body,
/// the condition in front of it, and the initializer before the whole.
fn desugar(
    initializer: Option<Stmt>,
    cond: Option<Box<Expr>>,
    inc: Option<Box<Expr>>,
    body: Stmt,
) -> (stmt: Stmt)
    ensures
        stmt@ == desugar_for(
            optional_stmt(initializer),
            optional_expr(cond),
            optional_expr(inc),
            body@,
        ),
{
    let mut body = body;
    // desugar the increment onto the end of the block
    if let Some(increment) = inc {
        let mut list = Vec::new();
        list.push(body);
        list.push(Stmt::Expression(increment));
        proof {
            lemma_block_view(list);
            assert(stmt_views(list@) =~= seq![list@[0]@, list@[1]@]);
        }
        body = Stmt::Block(list);
    }
    // and the condition onto the front of it
    let condition = match cond {
        Some(c) => c,
        None => bool_expression(true),
    };
    body = Stmt::While(condition, Box::new(body));
    // and the initializer before the whole thing
    if let Some(init) = initializer {
        let mut list = Vec::new();
        list.push(init);
        list.push(body);
        proof {
            lemma_block_view(list);
            assert(stmt_views(list@) =~= seq![list@[0]@, list@[1]@]);
        }
        body = Stmt::Block(list);
    }
    body
}

/// Turns tokens into statements by recursive descent.
#[derive(Debug)]
pub struct Parser {
    tokens: Vec<Token>,
    current: usize,
    errors: Vec<Error>,
}

/// What stands between the brackets of a `for`.
struct Clauses {
    initializer: Option<Stmt>,
    condition: Option<Box<Expr>>,
    increment: Option<Box<Expr>>,
}

impl Parser {
    /// The tokens that the parser reads.
    pub closed spec fn tokens(&self) -> Seq<TokenView> {
        token_views(self.tokens@)
    }

    /// The place of the next token to read.
    pub closed spec fn position(&self) -> nat {
        self.current as nat
    }

    /// The parse errors collected so far, in the order of the source.
    pub closed spec fn found(&self) -> Seq<ErrorView> {
        error_views(self.errors@)
    }

    /// The tokens end with the end-of-input token, and the parser is at a
    /// token or just past the last.
    pub closed spec fn wf(&self) -> bool {
        &&& 0 < self.tokens@.len() <= usize::MAX
        &&& self.tokens().last().kind is EOF
        &&& self.current <= self.tokens@.len()
    }

    /// The parser is at a token.
    spec fn inv(&self) -> bool {
        &&& 0 < self.tokens@.len() <= usize::MAX
        &&& self.tokens().last().kind is EOF
        &&& self.current < self.tokens@.len()
    }

    /// The parser has read on from where `before` was, up to `next`.
    spec fn reads(&self, before: &Parser, next: nat) -> bool {
        &&& self.inv()
        &&& self.tokens == before.tokens
        &&& self.errors == before.errors
        &&& self.current == next
        &&& self.current >= before.current
    }

    /// A parser at the first of the tokens, with no error collected.
    pub fn new(tokens: Vec<Token>) -> (parser: Parser)
        ensures
            parser.wf(),
            parser.tokens() == terminated(token_views(tokens@)),
            parser.position() == 0,
            parser.found().len() == 0,
    {
        let mut tokens = tokens;
        let ghost given = token_views(tokens@);
        let n = tokens.len();
        proof {
            lemma_kind_view(TokenType::EOF);
        }
        if n == 0 {
            tokens.push(Token::new(TokenType::EOF, 1));
        } else if !tokens[n - 1].kind_matches(&TokenType::EOF) {
            let line = tokens[n - 1].line;
            tokens.push(Token::new(TokenType::EOF, line));
        }
        assert(token_views(tokens@) =~= terminated(given));
        let total = tokens.len();
        assert(0 < total <= usize::MAX);
        Parser { tokens, current: 0, errors: Vec::new() }
    }

    /// The place of the next token to read.
    pub fn cursor(&self) -> (place: usize)
        ensures
            place == self.position(),
    {
        self.current
    }

    /// Whether a parse error has been collected.
    pub fn has_errors(&self) -> (yes: bool)
        ensures
            yes == (self.found().len() > 0),
    {
        !self.errors.is_empty()
    }

    /// The parse errors collected so far, in the order of the source.
    pub fn errors(&self) -> (errors: &Vec<Error>)
        ensures
            error_views(errors@) == self.found(),
    {
        &self.errors
    }

    /// Parses the tokens from the parser's place on. A declaration that
    /// does not parse leaves its error among the collected errors, and
    /// parsing is taken up after it. The statements are returned where no
    /// error is collected at the end.
    pub fn parse(&mut self) -> (result: Result<Vec<Stmt>, Error>)
        requires
            old(self).wf(),
        ensures
            final(self).wf(),
            final(self).tokens() == old(self).tokens(),
            final(self).found() == program(
                old(self).tokens(),
                old(self).position(),
                Program { statements: Seq::empty(), errors: old(self).found() },
            ).errors,
            match result {
                Ok(statements) => final(self).found().len() == 0 && stmt_views(statements@)
                    == program(
                    old(self).tokens(),
                    old(self).position(),
                    Program { statements: Seq::empty(), errors: old(self).found() },
                ).statements,
                Err(e) => final(self).found().len() > 0 && e@ == ErrorView::ParseFailed,
            },
    {
        let mut statements: Vec<Stmt> = Vec::new();
        let ghost ts = self.tokens();
        assert(stmt_views(statements@) =~= Seq::<StmtView>::empty());
        while !self.is_at_end()
            invariant
                self.wf(),
                ts == self.tokens(),
                ts == old(self).tokens(),
                program(
                    ts,
                    old(self).current as nat,
                    Program { statements: Seq::empty(), errors: error_views(old(self).errors@) },
                ) == program(
                    ts,
                    self.current as nat,
                    Program {
                        statements: stmt_views(statements@),
                        errors: error_views(self.errors@),
                    },
                ),
            decreases self.tokens@.len() - self.current,
        {
            let ghost parsed = stmt_views(statements@);
            let ghost found = error_views(self.errors@);
            match self.declaration() {
                Ok(stmt) => {
                    statements.push(stmt);
                    assert(stmt_views(statements@) =~= parsed.push(stmt@));
                },
                Err(e) => {
                    self.errors.push(e);
                    assert(error_views(self.errors@) =~= found.push(e@));
                    self.synchronize();
                },
            }
        }
        if self.errors.is_empty() {
            Ok(statements)
        } else {
            Err(Error::ParseFailed)
        }
    }

    /// declaration := varDecl | funDecl | statement
    fn declaration(&mut self) -> (result: Result<Stmt, Error>)
        requires
            old(self).inv(),
        ensures
            final(self).reads(old(self), declaration(old(self).tokens(), old(self).position()).next),
            stmt_is(result, declaration(old(self).tokens(), old(self).position())),
            result is Ok ==> final(self).current > old(self).current,
        decreases old(self).tokens@.len() - old(self).current, 38nat,
    {
        if self.next_matches(&TokenType::Var) {
            self.var_declaration()
        } else if self.next_matches(&TokenType::Fun) {
            self.function()
        } else {
            self.statement()
        }
    }

    /// ("=" expression)? after the name of a variable.
    fn initializer(&mut self) -> (result: Result<Box<Expr>, Error>)
        requires
            old(self).inv(),
        ensures
            final(self).reads(old(self), initializer(old(self).tokens(), old(self).position()).next),
            expr_is(result, initializer(old(self).tokens(), old(self).position())),
        decreases old(self).tokens@.len() - old(self).current, 26nat,
    {
        if self.next_matches(&TokenType::Equal) {
            self.expression()
        } else {
            Ok(nil_expression())
        }
    }

    /// varDecl := "var" IDENT ("=" expression)? ";", after the keyword.
    fn var_declaration(&mut self) -> (result: Result<Stmt, Error>)
        requires
            old(self).inv(),
        ensures
            final(self).reads(
                old(self),
                var_declaration(old(self).tokens(), old(self).position()).next,
            ),
            stmt_is(result, var_declaration(old(self).tokens(), old(self).position())),
            result is Ok ==> final(self).current > old(self).current,
        decreases old(self).tokens@.len() - old(self).current, 28nat,
    {
        let name = match self.consume(&TokenType::Identifier(String::new()), "Expect variable name") {
            Ok(name) => name,
            Err(e) => {
                return Err(e);
            },
        };
        let initializer = match self.initializer() {
            Ok(e) => e,
            Err(e) => {
                return Err(e);
            },
        };
        match self.consume(&TokenType::Semicolon, "Expect ';' after variable declaration.") {
            Ok(_) => Ok(Stmt::Var(name.lexeme(), initializer)),
            Err(e) => Err(e),
        }
    }

    /// IDENT "(" params? ")" "{": the name and the parameters of a
    /// function, up to the opening brace of its body.
    fn signature(&mut self) -> (result: Result<(Token, Vec<Token>), Error>)
        requires
            old(self).inv(),
        ensures
            final(self).reads(old(self), signature(old(self).tokens(), old(self).position()).next),
            match result {
                Ok(s) => signature(old(self).tokens(), old(self).position()).result == Ok::<
                    Signature,
                    ErrorView,
                >(Signature { name: s.0@, params: token_views(s.1@) }),
                Err(e) => signature(old(self).tokens(), old(self).position()).result == Err::<
                    Signature,
                    ErrorView,
                >(e@),
            },
            result is Ok ==> final(self).current > old(self).current,
    {
        let name = match self.consume(&TokenType::Identifier(String::new()), "Expect function name.") {
            Ok(name) => name,
            Err(e) => {
                return Err(e);
            },
        };
        match self.consume(&TokenType::LeftParen, "Expect '(' after function name.") {
            Ok(_) => {},
            Err(e) => {
                return Err(e);
            },
        }
        let params = match self.parameters() {
            Ok(params) => params,
            Err(e) => {
                return Err(e);
            },
        };
        match self.consume(&TokenType::RightParen, "Expect ')' after parameters.") {
            Ok(_) => {},
            Err(e) => {
                return Err(e);
            },
        }
        match self.consume(&TokenType::LeftBrace, "Expect '{' before function body.") {
            Ok(_) => Ok((name, params)),
            Err(e) => Err(e),
        }
    }

    /// funDecl := "fun" IDENT "(" params? ")" block, after the keyword.
    fn function(&mut self) -> (result: Result<Stmt, Error>)
        requires
            old(self).inv(),
        ensures
            final(self).reads(old(self), function(old(self).tokens(), old(self).position()).next),
            stmt_is(result, function(old(self).tokens(), old(self).position())),
            result is Ok ==> final(self).current > old(self).current,
        decreases old(self).tokens@.len() - old(self).current, 36nat,
    {
        let (name, params) = match self.signature() {
            Ok(head) => head,
            Err(e) => {
                return Err(e);
            },
        };
        match self.block() {
            Ok(body) => {
                proof {
                    lemma_function_view(name, params, body);
                }
                Ok(Stmt::Function(name, params, body))
            },
            Err(e) => Err(e),
        }
    }

    /// params? := (IDENT ("," IDENT)*)?, up to the closing bracket.
    fn parameters(&mut self) -> (result: Result<Vec<Token>, Error>)
        requires
            old(self).inv(),
        ensures
            final(self).reads(old(self), parameters(old(self).tokens(), old(self).position()).next),
            tokens_are(result, parameters(old(self).tokens(), old(self).position())),
    {
        let mut params: Vec<Token> = Vec::new();
        if self.check(&TokenType::RightParen) {
            assert(token_views(params@) =~= Seq::<TokenView>::empty());
            return Ok(params);
        }
        match self.consume(&TokenType::Identifier(String::new()), "Expect parameter name.") {
            Ok(name) => {
                params.push(name);
                assert(token_views(params@) =~= seq![name@]);
            },
            Err(e) => {
                return Err(e);
            },
        }
        let ghost ts = self.tokens();

        while self.check(&TokenType::Comma)
            invariant
                self.inv(),
                self.tokens == old(self).tokens,
                self.errors == old(self).errors,
                ts == self.tokens(),
                old(self).current < self.current,
                parameters(ts, old(self).current as nat) == parameters_rest(
                    ts,
                    token_views(params@),
                    self.current as nat,
                ),
            decreases self.tokens@.len() - self.current,
        {
            if params.len() >= 255 {
                return Err(parse_error(self.peek(), "Can't have more than 255 parameters."));
            }
            self.advance();
            let ghost before = token_views(params@);
            match self.consume(&TokenType::Identifier(String::new()), "Expect parameter name.") {
                Ok(name) => {
                    params.push(name);
                    assert(token_views(params@) =~= before.push(name@));
                },
                Err(e) => {
                    return Err(e);
                },
            }
        }
        Ok(params)
    }

    /// statement := exprStmt | printStmt | block | ifStmt | whileStmt
    ///            | forStmt | returnStmt
    #[verifier::rlimit(50)]
    fn statement(&mut self) -> (result: Result<Stmt, Error>)
        requires
            old(self).inv(),
        ensures
            final(self).reads(old(self), statement(old(self).tokens(), old(self).position()).next),
            stmt_is(result, statement(old(self).tokens(), old(self).position())),
            result is Ok ==> final(self).current > old(self).current,
        decreases old(self).tokens@.len() - old(self).current, 37nat,
    {
        let ghost ts = self.tokens();
        let ghost p = self.position();
        if self.check(&TokenType::Print) {
            assert(statement(ts, p) == print_statement(ts, p + 1));
            self.advance();
            self.print_statement()
        } else if self.check(&TokenType::LeftBrace) {
            assert(statement(ts, p) == block_statement(ts, p + 1));
            self.advance();
            self.block_statement()
        } else if self.check(&TokenType::If) {
            assert(statement(ts, p) == if_statement(ts, p + 1));
            self.advance();
            self.if_statement()
        } else if self.check(&TokenType::While) {
            assert(statement(ts, p) == while_statement(ts, p + 1));
            self.advance();
            self.while_statement()
        } else if self.check(&TokenType::For) {
            assert(statement(ts, p) == for_statement(ts, p + 1));
            self.advance();
            self.for_statement()
        } else if self.check(&TokenType::Return) {
            assert(statement(ts, p) == return_statement(ts, p + 1, ts[p as int]));
            let keyword = self.peek().duplicate();
            self.advance();
            self.return_statement(keyword)
        } else {
            assert(statement(ts, p) == expression_statement(ts, p));
            self.expression_statement()
        }
    }

    /// A block as a statement, after the opening brace.
    fn block_statement(&mut self) -> (result: Result<Stmt, Error>)
        requires
            old(self).inv(),
        ensures
            final(self).reads(
                old(self),
                block_statement(old(self).tokens(), old(self).position()).next,
            ),
            stmt_is(result, block_statement(old(self).tokens(), old(self).position())),
            result is Ok ==> final(self).current > old(self).current,
        decreases old(self).tokens@.len() - old(self).current, 41nat,
    {
        match self.block() {
            Ok(list) => {
                proof {
                    lemma_block_view(list);
                }
                Ok(Stmt::Block(list))
            },
            Err(e) => Err(e),
        }
    }

    /// An expression and the semicolon after it.
    fn expression_then_semicolon(&mut self, msg: &str) -> (result: Result<Box<Expr>, Error>)
        requires
            old(self).inv(),
        ensures
            final(self).reads(
                old(self),
                expression_then_semicolon(old(self).tokens(), old(self).position(), msg@).next,
            ),
            expr_is(
                result,
                expression_then_semicolon(old(self).tokens(), old(self).position(), msg@),
            ),
            result is Ok ==> final(self).current > old(self).current,
        decreases old(self).tokens@.len() - old(self).current, 26nat,
    {
        let value = match self.expression() {
            Ok(value) => value,
            Err(e) => {
                return Err(e);
            },
        };
        match self.consume(&TokenType::Semicolon, msg) {
            Ok(_) => Ok(value),
            Err(e) => Err(e),
        }
    }

    /// printStmt := "print" expression ";", after the keyword.
    fn print_statement(&mut self) -> (result: Result<Stmt, Error>)
        requires
            old(self).inv(),
        ensures
            final(self).reads(
                old(self),
                print_statement(old(self).tokens(), old(self).position()).next,
            ),
            stmt_is(result, print_statement(old(self).tokens(), old(self).position())),
            result is Ok ==> final(self).current > old(self).current,
        decreases old(self).tokens@.len() - old(self).current, 28nat,
    {
        match self.expression_then_semicolon("Expect ';' after value.") {
            Ok(value) => Ok(Stmt::Print(value)),
            Err(e) => Err(e),
        }
    }

    /// returnStmt := "return" expression? ";", after the keyword.
    fn return_statement(&mut self, keyword: Token) -> (result: Result<Stmt, Error>)
        requires
            old(self).inv(),
        ensures
            final(self).reads(
                old(self),
                return_statement(old(self).tokens(), old(self).position(), keyword@).next,
            ),
            stmt_is(result, return_statement(old(self).tokens(), old(self).position(), keyword@)),
            result is Ok ==> final(self).current > old(self).current,
        decreases old(self).tokens@.len() - old(self).current, 28nat,
    {
        if self.next_matches(&TokenType::Semicolon) {
            return Ok(Stmt::Return(keyword, nil_expression()));
        }
        match self.expression_then_semicolon("Expect ';' after return value.") {
            Ok(value) => Ok(Stmt::Return(keyword, value)),
            Err(e) => Err(e),
        }
    }

    /// "(" expression ")": a condition in its brackets.
    fn condition(&mut self, opening: &str, closing: &str) -> (result: Result<Box<Expr>, Error>)
        requires
            old(self).inv(),
        ensures
            final(self).reads(
                old(self),
                condition(old(self).tokens(), old(self).position(), opening@, closing@).next,
            ),
            expr_is(
                result,
                condition(old(self).tokens(), old(self).position(), opening@, closing@),
            ),
            result is Ok ==> final(self).current > old(self).current,
        decreases old(self).tokens@.len() - old(self).current, 26nat,
    {
        match self.consume(&TokenType::LeftParen, opening) {
            Ok(_) => {},
            Err(e) => {
                return Err(e);
            },
        }
        let cond = match self.expression() {
            Ok(cond) => cond,
            Err(e) => {
                return Err(e);
            },
        };
        match self.consume(&TokenType::RightParen, closing) {
            Ok(_) => Ok(cond),
            Err(e) => Err(e),
        }
    }

    /// ("else" statement)? after the first branch of an `if`.
    fn else_branch(&mut self) -> (result: Result<Stmt, Error>)
        requires
            old(self).inv(),
        ensures
            final(self).reads(old(self), else_branch(old(self).tokens(), old(self).position()).next),
            stmt_is(result, else_branch(old(self).tokens(), old(self).position())),
        decreases old(self).tokens@.len() - old(self).current, 27nat,
    {
        if self.next_matches(&TokenType::Else) {
            self.statement()
        } else {
            Ok(Stmt::Empty)
        }
    }

    /// ifStmt := "if" "(" expression ")" statement ("else" statement)?,
    /// after the keyword.
    fn if_statement(&mut self) -> (result: Result<Stmt, Error>)
        requires
            old(self).inv(),
        ensures
            final(self).reads(old(self), if_statement(old(self).tokens(), old(self).position()).next),
            stmt_is(result, if_statement(old(self).tokens(), old(self).position())),
            result is Ok ==> final(self).current > old(self).current,
        decreases old(self).tokens@.len() - old(self).current, 28nat,
    {
        let cond = match self.condition("Expect '(' after 'if'.", "Expect ')' after if condition.") {
            Ok(cond) => cond,
            Err(e) => {
                return Err(e);
            },
        };
        let then_branch = match self.statement() {
            Ok(s) => s,
            Err(e) => {
                return Err(e);
            },
        };
        match self.else_branch() {
            Ok(else_branch) => Ok(Stmt::If(cond, Box::new(then_branch), Box::new(else_branch))),
            Err(e) => Err(e),
        }
    }

    /// whileStmt := "while" "(" expression ")" statement, after the
    /// keyword.
    fn while_statement(&mut self) -> (result: Result<Stmt, Error>)
        requires
            old(self).inv(),
        ensures
            final(self).reads(
                old(self),
                while_statement(old(self).tokens(), old(self).position()).next,
            ),
            stmt_is(result, while_statement(old(self).tokens(), old(self).position())),
            result is Ok ==> final(self).current > old(self).current,
        decreases old(self).tokens@.len() - old(self).current, 28nat,
    {
        let cond = match self.condition(
            "Expect '(' after 'while'.",
            "Expect ')' after while condition.",
        ) {
            Ok(cond) => cond,
            Err(e) => {
                return Err(e);
            },
        };
        match self.statement() {
            Ok(body) => Ok(Stmt::While(cond, Box::new(body))),
            Err(e) => Err(e),
        }
    }

    /// The first clause of a `for`.
    fn for_initializer(&mut self) -> (result: Result<Option<Stmt>, Error>)
        requires
            old(self).inv(),
        ensures
            final(self).reads(
                old(self),
                for_initializer(old(self).tokens(), old(self).position()).next,
            ),
            match result {
                Ok(s) => for_initializer(old(self).tokens(), old(self).position()).result == Ok::<
                    Option<StmtView>,
                    ErrorView,
                >(optional_stmt(s)),
                Err(e) => for_initializer(old(self).tokens(), old(self).position()).result == Err::<
                    Option<StmtView>,
                    ErrorView,
                >(e@),
            },
            result is Ok ==> final(self).current > old(self).current,
        decreases old(self).tokens@.len() - old(self).current, 29nat,
    {
        if self.next_matches(&TokenType::Semicolon) {
            Ok(None)
        } else if self.next_matches(&TokenType::Var) {
            match self.var_declaration() {
                Ok(s) => Ok(Some(s)),
                Err(e) => Err(e),
            }
        } else {
            match self.expression_statement() {
                Ok(s) => Ok(Some(s)),
                Err(e) => Err(e),
            }
        }
    }

    /// An expression, unless the next token is of the kind `closing`; then
    /// the token of that kind.
    fn clause(&mut self, closing: &TokenType, msg: &str) -> (result: Result<
        Option<Box<Expr>>,
        Error,
    >)
        requires
            old(self).inv(),
        ensures
            final(self).reads(
                old(self),
                clause(old(self).tokens(), old(self).position(), closing.model(), msg@).next,
            ),
            match result {
                Ok(e) => clause(
                    old(self).tokens(),
                    old(self).position(),
                    closing.model(),
                    msg@,
                ).result == Ok::<Option<ExprView>, ErrorView>(optional_expr(e)),
                Err(e) => clause(
                    old(self).tokens(),
                    old(self).position(),
                    closing.model(),
                    msg@,
                ).result == Err::<Option<ExprView>, ErrorView>(e@),
            },
            result is Ok ==> final(self).current > old(self).current,
        decreases old(self).tokens@.len() - old(self).current, 29nat,
    {
        if self.next_matches(closing) {
            return Ok(None);
        }
        let value = match self.expression() {
            Ok(value) => value,
            Err(e) => {
                return Err(e);
            },
        };
        match self.consume(closing, msg) {
            Ok(_) => Ok(Some(value)),
            Err(e) => Err(e),
        }
    }

    /// What stands between the brackets of a `for`, with the brackets.
    fn for_clauses(&mut self) -> (result: Result<Clauses, Error>)
        requires
            old(self).inv(),
        ensures
            final(self).reads(old(self), for_clauses(old(self).tokens(), old(self).position()).next),
            match result {
                Ok(c) => for_clauses(old(self).tokens(), old(self).position()).result == Ok::<
                    ForClauses,
                    ErrorView,
                >(
                    ForClauses {
                        initializer: optional_stmt(c.initializer),
                        condition: optional_expr(c.condition),
                        increment: optional_expr(c.increment),
                    },
                ),
                Err(e) => for_clauses(old(self).tokens(), old(self).position()).result == Err::<
                    ForClauses,
                    ErrorView,
                >(e@),
            },
            result is Ok ==> final(self).current > old(self).current,
        decreases old(self).tokens@.len() - old(self).current, 30nat,
    {
        match self.consume(&TokenType::LeftParen, "Expect '(' after 'for'.") {
            Ok(_) => {},
            Err(e) => {
                return Err(e);
            },
        }
        let initializer = match self.for_initializer() {
            Ok(initializer) => initializer,
            Err(e) => {
                return Err(e);
            },
        };
        let condition = match self.clause(&TokenType::Semicolon, "Expect ';' after loop condition.") {
            Ok(cond) => cond,
            Err(e) => {
                return Err(e);
            },
        };
        match self.clause(&TokenType::RightParen, "Expect ')' after for clauses.") {
            Ok(increment) => Ok(Clauses { initializer, condition, increment }),
            Err(e) => Err(e),
        }
    }

    /// A `for` statement is sugar for a `while`; this parses it and takes
    /// the sugar off.
    fn for_statement(&mut self) -> (result: Result<Stmt, Error>)
        requires
            old(self).inv(),
        ensures
            final(self).reads(
                old(self),
                for_statement(old(self).tokens(), old(self).position()).next,
            ),
            stmt_is(result, for_statement(old(self).tokens(), old(self).position())),
            result is Ok ==> final(self).current > old(self).current,
        decreases old(self).tokens@.len() - old(self).current, 31nat,
    {
        // first parse
        let clauses = match self.for_clauses() {
            Ok(clauses) => clauses,
            Err(e) => {
                return Err(e);
            },
        };
        // now, desugar
        match self.statement() {
            Ok(body) => Ok(
                desugar(clauses.initializer, clauses.condition, clauses.increment, body),
            ),
            Err(e) => Err(e),
        }
    }

    /// block := "{" declaration* "}", after the opening brace.
    fn block(&mut self) -> (result: Result<Vec<Stmt>, Error>)
        requires
            old(self).inv(),
        ensures
            final(self).reads(old(self), block(old(self).tokens(), old(self).position()).next),
            stmts_are(result, block(old(self).tokens(), old(self).position())),
            result is Ok ==> final(self).current > old(self).current,
        decreases old(self).tokens@.len() - old(self).current, 40nat,
    {
        let mut statements: Vec<Stmt> = Vec::new();
        let ghost ts = self.tokens();

        assert(stmt_views(statements@) =~= Seq::<StmtView>::empty());
        while !self.check(&TokenType::RightBrace) && !self.is_at_end()
            invariant
                self.inv(),
                self.tokens == old(self).tokens,
                self.errors == old(self).errors,
                ts == self.tokens(),
                old(self).current <= self.current,
                block(ts, old(self).current as nat) == block_rest(
                    ts,
                    stmt_views(statements@),
                    self.current as nat,
                ),
            decreases self.tokens@.len() - self.current,
        {
            let ghost before = stmt_views(statements@);
            match self.declaration() {
                Ok(stmt) => {
                    statements.push(stmt);
                    assert(stmt_views(statements@) =~= before.push(stmt@));
                },
                Err(e) => {
                    return Err(e);
                },
            }
        }
        match self.consume(&TokenType::RightBrace, "Expect '}' after block.") {
            Ok(_) => Ok(statements),
            Err(e) => Err(e),
        }
    }

    /// exprStmt := expression ";"
    fn expression_statement(&mut self) -> (result: Result<Stmt, Error>)
        requires
            old(self).inv(),
        ensures
            final(self).reads(
                old(self),
                expression_statement(old(self).tokens(), old(self).position()).next,
            ),
            stmt_is(result, expression_statement(old(self).tokens(), old(self).position())),
            result is Ok ==> final(self).current > old(self).current,
        decreases old(self).tokens@.len() - old(self).current, 28nat,
    {
        match self.expression_then_semicolon("Expect ';' after value.") {
            Ok(value) => Ok(Stmt::Expression(value)),
            Err(e) => Err(e),
        }
    }

    /// expression := assignment
    fn expression(&mut self) -> (result: Result<Box<Expr>, Error>)
        requires
            old(self).inv(),
        ensures
            final(self).reads(old(self), expression(old(self).tokens(), old(self).position()).next),
            expr_is(result, expression(old(self).tokens(), old(self).position())),
            result is Ok ==> final(self).current > old(self).current,
        decreases old(self).tokens@.len() - old(self).current, 25nat,
    {
        self.assignment()
    }

    /// "=" assignment after the target `target`; the parser is at the
    /// `=`.
    fn assigned(&mut self, target: Box<Expr>) -> (result: Result<Box<Expr>, Error>)
        requires
            old(self).inv(),
            old(self).current + 1 < old(self).tokens@.len(),
        ensures
            final(self).reads(
                old(self),
                assigned(old(self).tokens(), target@, old(self).position()).next,
            ),
            expr_is(result, assigned(old(self).tokens(), target@, old(self).position())),
            final(self).current > old(self).current,
        decreases old(self).tokens@.len() - old(self).current, 23nat,
    {
        let equals = self.peek().duplicate();
        self.advance();
        let value = match self.assignment() {
            Ok(value) => value,
            Err(e) => {
                return Err(e);
            },
        };
        if let Expr::Variable(tok, id) = *target {
            Ok(Box::new(Expr::Assign(tok, value, id)))
        } else {
            Err(parse_error(&equals, "invalid assignment target"))
        }
    }

    /// assignment := IDENT "=" assignment | logic_or
    fn assignment(&mut self) -> (result: Result<Box<Expr>, Error>)
        requires
            old(self).inv(),
        ensures
            final(self).reads(old(self), assignment(old(self).tokens(), old(self).position()).next),
            expr_is(result, assignment(old(self).tokens(), old(self).position())),
            result is Ok ==> final(self).current > old(self).current,
        decreases old(self).tokens@.len() - old(self).current, 24nat,
    {
        let expr = match self.or() {
            Ok(expr) => expr,
            Err(e) => {
                return Err(e);
            },
        };
        if self.check(&TokenType::Equal) {
            self.assigned(expr)
        } else {
            Ok(expr)
        }
    }

    /// logic_or := logic_and ("or" logic_and)*
    fn or(&mut self) -> (result: Result<Box<Expr>, Error>)
        requires
            old(self).inv(),
        ensures
            final(self).reads(
                old(self),
                binary(old(self).tokens(), old(self).position(), Level::Or).next,
            ),
            expr_is(result, binary(old(self).tokens(), old(self).position(), Level::Or)),
            result is Ok ==> final(self).current > old(self).current,
        decreases old(self).tokens@.len() - old(self).current, 22nat,
    {
        self.binary(Level::Or)
    }

    /// logic_and := equality ("and" equality)*
    fn and(&mut self) -> (result: Result<Box<Expr>, Error>)
        requires
            old(self).inv(),
        ensures
            final(self).reads(
                old(self),
                binary(old(self).tokens(), old(self).position(), Level::And).next,
            ),
            expr_is(result, binary(old(self).tokens(), old(self).position(), Level::And)),
            result is Ok ==> final(self).current > old(self).current,
        decreases old(self).tokens@.len() - old(self).current, 19nat,
    {
        self.binary(Level::And)
    }

    /// equality := comparison (("==" | "!=") comparison)*
    fn equality(&mut self) -> (result: Result<Box<Expr>, Error>)
        requires
            old(self).inv(),
        ensures
            final(self).reads(
                old(self),
                binary(old(self).tokens(), old(self).position(), Level::Equality).next,
            ),
            expr_is(result, binary(old(self).tokens(), old(self).position(), Level::Equality)),
            result is Ok ==> final(self).current > old(self).current,
        decreases old(self).tokens@.len() - old(self).current, 16nat,
    {
        self.binary(Level::Equality)
    }

    /// comparison := term ((">" | ">=" | "<" | "<=") term)*
    fn comparison(&mut self) -> (result: Result<Box<Expr>, Error>)
        requires
            old(self).inv(),
        ensures
            final(self).reads(
                old(self),
                binary(old(self).tokens(), old(self).position(), Level::Comparison).next,
            ),
            expr_is(result, binary(old(self).tokens(), old(self).position(), Level::Comparison)),
            result is Ok ==> final(self).current > old(self).current,
        decreases old(self).tokens@.len() - old(self).current, 13nat,
    {
        self.binary(Level::Comparison)
    }

    /// term := factor (("+" | "-") factor)*
    fn term(&mut self) -> (result: Result<Box<Expr>, Error>)
        requires
            old(self).inv(),
        ensures
            final(self).reads(
                old(self),
                binary(old(self).tokens(), old(self).position(), Level::Term).next,
            ),
            expr_is(result, binary(old(self).tokens(), old(self).position(), Level::Term)),
            result is Ok ==> final(self).current > old(self).current,
        decreases old(self).tokens@.len() - old(self).current, 10nat,
    {
        self.binary(Level::Term)
    }

    /// factor := unary (("*" | "/") unary)*
    fn factor(&mut self) -> (result: Result<Box<Expr>, Error>)
        requires
            old(self).inv(),
        ensures
            final(self).reads(
                old(self),
                binary(old(self).tokens(), old(self).position(), Level::Factor).next,
            ),
            expr_is(result, binary(old(self).tokens(), old(self).position(), Level::Factor)),
            result is Ok ==> final(self).current > old(self).current,
        decreases old(self).tokens@.len() - old(self).current, 7nat,
    {
        self.binary(Level::Factor)
    }

    /// An operand of the level: an expression of the level below.
    fn operand(&mut self, level: Level) -> (result: Result<Box<Expr>, Error>)
        requires
            old(self).inv(),
        ensures
            final(self).reads(
                old(self),
                operand(old(self).tokens(), old(self).position(), level).next,
            ),
            expr_is(result, operand(old(self).tokens(), old(self).position(), level)),
            result is Ok ==> final(self).current > old(self).current,
        decreases old(self).tokens@.len() - old(self).current, 4 + 3 * rank(level) + 1,
    {
        match level {
            Level::Factor => self.unary(),
            Level::Term => self.factor(),
            Level::Comparison => self.term(),
            Level::Equality => self.comparison(),
            Level::And => self.equality(),
            Level::Or => self.and(),
        }
    }

    /// level := operand (operator operand)*
    fn binary(&mut self, level: Level) -> (result: Result<Box<Expr>, Error>)
        requires
            old(self).inv(),
        ensures
            final(self).reads(
                old(self),
                binary(old(self).tokens(), old(self).position(), level).next,
            ),
            expr_is(result, binary(old(self).tokens(), old(self).position(), level)),
            result is Ok ==> final(self).current > old(self).current,
        decreases old(self).tokens@.len() - old(self).current, 4 + 3 * rank(level) + 2,
    {
        let mut expr = match self.operand(level) {
            Ok(expr) => expr,
            Err(e) => {
                return Err(e);
            },
        };
        let ghost ts = self.tokens();

        while !self.is_at_end() && is_operator(level, &self.peek().kind)
            invariant
                self.inv(),
                self.tokens == old(self).tokens,
                self.errors == old(self).errors,
                ts == self.tokens(),
                old(self).current < self.current,
                binary(ts, old(self).current as nat, level) == binary_rest(
                    ts,
                    expr@,
                    self.current as nat,
                    level,
                ),
            decreases self.tokens@.len() - self.current,
        {
            let op = self.peek().duplicate();
            self.advance();
            let right = match self.operand(level) {
                Ok(right) => right,
                Err(e) => {
                    return Err(e);
                },
            };
            expr = make_node(level, expr, op, right);
        }
        Ok(expr)
    }

    /// unary := ("!" | "-") unary | call
    fn unary(&mut self) -> (result: Result<Box<Expr>, Error>)
        requires
            old(self).inv(),
        ensures
            final(self).reads(old(self), unary(old(self).tokens(), old(self).position()).next),
            expr_is(result, unary(old(self).tokens(), old(self).position())),
            result is Ok ==> final(self).current > old(self).current,
        decreases old(self).tokens@.len() - old(self).current, 3nat,
    {
        if self.check(&TokenType::Bang) || self.check(&TokenType::Minus) {
            let op = self.peek().duplicate();
            self.advance();
            match self.unary() {
                Ok(right) => Ok(Box::new(Expr::Unary(op, right))),
                Err(e) => Err(e),
            }
        } else {
            self.call()
        }
    }

    /// call := primary ("(" args? ")")*
    fn call(&mut self) -> (result: Result<Box<Expr>, Error>)
        requires
            old(self).inv(),
        ensures
            final(self).reads(old(self), call(old(self).tokens(), old(self).position()).next),
            expr_is(result, call(old(self).tokens(), old(self).position())),
            result is Ok ==> final(self).current > old(self).current,
        decreases old(self).tokens@.len() - old(self).current, 2nat,
    {
        let mut expr = match self.primary() {
            Ok(expr) => expr,
            Err(e) => {
                return Err(e);
            },
        };
        let ghost ts = self.tokens();

        while self.check(&TokenType::LeftParen)
            invariant
                self.inv(),
                self.tokens == old(self).tokens,
                self.errors == old(self).errors,
                ts == self.tokens(),
                old(self).current < self.current,
                call(ts, old(self).current as nat) == call_rest(ts, expr@, self.current as nat),
            decreases self.tokens@.len() - self.current,
        {
            self.advance();
            expr = match self.finish_call(expr) {
                Ok(expr) => expr,
                Err(e) => {
                    return Err(e);
                },
            };
        }
        Ok(expr)
    }

    /// args? := (expression ("," expression)*)?, up to the closing
    /// bracket.
    fn arguments(&mut self) -> (result: Result<Vec<Box<Expr>>, Error>)
        requires
            old(self).inv(),
        ensures
            final(self).reads(old(self), arguments(old(self).tokens(), old(self).position()).next),
            exprs_are(result, arguments(old(self).tokens(), old(self).position())),
        decreases old(self).tokens@.len() - old(self).current, 26nat,
    {
        let mut args: Vec<Box<Expr>> = Vec::new();
        if self.check(&TokenType::RightParen) {
            assert(expr_views(args@) =~= Seq::<ExprView>::empty());
            return Ok(args);
        }
        match self.expression() {
            Ok(e) => {
                args.push(e);
                assert(expr_views(args@) =~= seq![e@]);
            },
            Err(e) => {
                return Err(e);
            },
        }
        let ghost ts = self.tokens();

        while self.check(&TokenType::Comma)
            invariant
                self.inv(),
                self.tokens == old(self).tokens,
                self.errors == old(self).errors,
                ts == self.tokens(),
                old(self).current < self.current,
                arguments(ts, old(self).current as nat) == arguments_rest(
                    ts,
                    expr_views(args@),
                    self.current as nat,
                ),
            decreases self.tokens@.len() - self.current,
        {
            if args.len() >= 255 {
                return Err(parse_error(self.peek(), "Can't have more than 255 arguments."));
            }
            self.advance();
            let ghost before = expr_views(args@);
            match self.expression() {
                Ok(e) => {
                    args.push(e);
                    assert(expr_views(args@) =~= before.push(e@));
                },
                Err(e) => {
                    return Err(e);
                },
            }
        }
        Ok(args)
    }

    /// args? ")" after the opening bracket of a call of `callee`.
    fn finish_call(&mut self, callee: Box<Expr>) -> (result: Result<Box<Expr>, Error>)
        requires
            old(self).inv(),
        ensures
            final(self).reads(
                old(self),
                finish_call(old(self).tokens(), callee@, old(self).position()).next,
            ),
            expr_is(result, finish_call(old(self).tokens(), callee@, old(self).position())),
            result is Ok ==> final(self).current > old(self).current,
        decreases old(self).tokens@.len() - old(self).current, 27nat,
    {
        let args = match self.arguments() {
            Ok(args) => args,
            Err(e) => {
                return Err(e);
            },
        };
        match self.consume(&TokenType::RightParen, "Expect ')' after argument list.") {
            Ok(paren) => {
                proof {
                    lemma_call_view(callee, paren, args);
                }
                Ok(Box::new(Expr::Call(callee, paren, args)))
            },
            Err(e) => Err(e),
        }
    }

    /// "(" expression ")", after the opening bracket.
    fn grouping(&mut self) -> (result: Result<Box<Expr>, Error>)
        requires
            old(self).inv(),
        ensures
            final(self).reads(
                old(self),
                match expression(old(self).tokens(), old(self).position()).result {
                    Err(_) => expression(old(self).tokens(), old(self).position()).next,
                    Ok(_) => expect(
                        old(self).tokens(),
                        expression(old(self).tokens(), old(self).position()).next,
                        TokenTypeView::RightParen,
                        "Expect ')' after expression."@,
                    ).next,
                },
            ),
            match expression(old(self).tokens(), old(self).position()).result {
                Err(e) => result is Err && result->Err_0@ == e,
                Ok(e) => match expect(
                    old(self).tokens(),
                    expression(old(self).tokens(), old(self).position()).next,
                    TokenTypeView::RightParen,
                    "Expect ')' after expression."@,
                ).result {
                    Err(err) => result is Err && result->Err_0@ == err,
                    Ok(_) => result is Ok && result->Ok_0@ == ExprView::Grouping(Box::new(e)),
                },
            },
        decreases old(self).tokens@.len() - old(self).current, 26nat,
    {
        let inner = match self.expression() {
            Ok(inner) => inner,
            Err(e) => {
                return Err(e);
            },
        };
        match self.consume(&TokenType::RightParen, "Expect ')' after expression.") {
            Ok(_) => Ok(Box::new(Expr::Grouping(inner))),
            Err(e) => Err(e),
        }
    }

    /// primary := "true" | "false" | "nil" | NUMBER | STRING | IDENT
    ///          | "(" expression ")"
    fn primary(&mut self) -> (result: Result<Box<Expr>, Error>)
        requires
            old(self).inv(),
        ensures
            final(self).reads(old(self), primary(old(self).tokens(), old(self).position()).next),
            expr_is(result, primary(old(self).tokens(), old(self).position())),
            result is Ok ==> final(self).current > old(self).current,
        decreases old(self).tokens@.len() - old(self).current, 0nat,
    {
        if self.check(&TokenType::LeftParen) {
            self.advance();
            return self.grouping();
        }
        let next = self.peek();
        let expr = match Literal::from_token(next) {
            Some(literal) => Expr::Literal(literal),
            None => if next.is_identifier() {
                Expr::Variable(next.duplicate(), self.current)
            } else {
                let mut msg = String::from_str("expect expression, got ");
                msg.append(next.kind.as_str());
                return Err(Error::Parse(next.duplicate(), msg));
            },
        };
        self.skip();
        Ok(Box::new(expr))
    }

    // helpers
    fn is_at_end(&self) -> (yes: bool)
        requires
            self.wf(),
        ensures
            yes == at_end(self.tokens(), self.position()),
            !yes ==> self.inv() && self.current + 1 < self.tokens@.len(),
    {
        proof {
            lemma_kind_view(TokenType::EOF);
        }
        if self.current >= self.tokens.len() {
            true
        } else {
            self.tokens[self.current].kind_matches(&TokenType::EOF)
        }
    }

    fn next_matches(&mut self, kind: &TokenType) -> (yes: bool)
        requires
            old(self).inv(),
        ensures
            yes == check(old(self).tokens(), old(self).position(), kind.model()),
            final(self).reads(
                old(self),
                if yes {
                    old(self).position() + 1
                } else {
                    old(self).position()
                },
            ),
    {
        if self.check(kind) {
            self.advance();
            true
        } else {
            false
        }
    }

    fn check(&self, kind: &TokenType) -> (yes: bool)
        requires
            self.inv(),
        ensures
            yes == check(self.tokens(), self.position(), kind.model()),
            yes ==> self.current + 1 < self.tokens@.len(),
    {
        if self.is_at_end() {
            false
        } else {
            self.peek().kind_matches(kind)
        }
    }

    fn peek(&self) -> (token: &Token)
        requires
            self.inv(),
        ensures
            token@ == self.tokens()[self.position() as int],
    {
        &self.tokens[self.current]
    }

    /// Passes over a token that is not the last.
    fn advance(&mut self)
        requires
            old(self).inv(),
            old(self).current + 1 < old(self).tokens@.len(),
        ensures
            final(self).reads(old(self), old(self).position() + 1),
    {
        self.current += 1;
    }

    /// Passes over a token that is not the end-of-input token.
    fn skip(&mut self)
        requires
            old(self).inv(),
            !(old(self).tokens()[old(self).position() as int].kind is EOF),
        ensures
            final(self).reads(old(self), old(self).position() + 1),
    {
        self.current += 1;
    }

    /// The next token, which must be of the kind `kind`.
    fn consume(&mut self, kind: &TokenType, err: &str) -> (result: Result<Token, Error>)
        requires
            old(self).inv(),
        ensures
            final(self).reads(
                old(self),
                expect(old(self).tokens(), old(self).position(), kind.model(), err@).next,
            ),
            token_is(result, expect(old(self).tokens(), old(self).position(), kind.model(), err@)),
            result is Ok ==> final(self).current > old(self).current,
    {
        if self.check(kind) {
            let token = self.peek().duplicate();
            self.advance();
            Ok(token)
        } else {
            Err(parse_error(self.peek(), err))
        }
    }

    /// Recovery after a parse error: passes over the token at which the
    /// parser stands, and then over tokens up to a likely start of a
    /// declaration. The parser goes on at a later token, within the tokens;
    /// the tokens and the collected errors stay as they are.
    pub fn synchronize(&mut self)
        requires
            old(self).wf(),
            old(self).position() < old(self).tokens().len(),
        ensures
            final(self).wf(),
            final(self).tokens() == old(self).tokens(),
            final(self).found() == old(self).found(),
            final(self).position() == synchronize(old(self).tokens(), old(self).position()),
            old(self).position() + 1 <= final(self).position() <= old(self).tokens().len(),
    {
        proof {
            law_synchronize_progress(self.tokens(), self.position());
        }
        self.current += 1;
        while !self.is_at_end()
            invariant
                self.wf(),
                self.tokens == old(self).tokens,
                self.errors == old(self).errors,
                self.current > old(self).current,
                resume_at(self.tokens(), self.current as nat) == synchronize(
                    old(self).tokens(),
                    old(self).position(),
                ),
            decreases self.tokens@.len() - self.current,
        {
            proof {
                lemma_kind_view(TokenType::Semicolon);
            }
            if self.tokens[self.current - 1].kind_matches(&TokenType::Semicolon) {
                return ;
            }
            if may_start_declaration(&self.peek().kind) {
                return ;
            }
            self.advance();
        }
    }
}

} // verus!
