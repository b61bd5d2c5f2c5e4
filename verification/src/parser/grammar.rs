use vstd::prelude::*;
use crate::errors::ErrorView;
use crate::expr::{literal_of, ExprView, LiteralView};
use crate::stmt::StmtView;
use crate::token::{TokenTypeView, TokenView};

verus! {

/// What a rule of the grammar made of the tokens from some place on: the
/// tree it built or the error it met, and the place of the first token
/// that it did not read.
pub struct Parse<T> {
    pub result: Result<T, ErrorView>,
    pub next: nat,
}

/// The rule built `value` and read up to `next`.
pub open spec fn done<T>(value: T, next: nat) -> Parse<T> {
    Parse { result: Ok(value), next }
}

/// The rule met an error at `token`, having read up to `next`.
pub open spec fn failed<T>(token: TokenView, msg: Seq<char>, next: nat) -> Parse<T> {
    Parse { result: Err(ErrorView::Parse(token, msg)), next }
}

/// The rule stopped with the error `e` of a rule within it, at `next`.
pub open spec fn stopped<T>(e: ErrorView, next: nat) -> Parse<T> {
    Parse { result: Err(e), next }
}

/// The place `q`, reached by reading on from `p`. No rule goes back (see
/// `law_rules_read_on`), so this is `q`; written so, a rule that goes on
/// at such a place is seen to come to an end.
pub open spec fn onward(p: nat, q: nat) -> nat {
    if q >= p {
        q
    } else {
        p
    }
}

/// The number of tokens from `p` on.
pub open spec fn left(ts: Seq<TokenView>, p: nat) -> nat {
    if p < ts.len() {
        (ts.len() - p) as nat
    } else {
        0
    }
}

/// Whether the tokens are read up: `p` is at the end-of-input token, or
/// past the last token.
pub open spec fn at_end(ts: Seq<TokenView>, p: nat) -> bool {
    p >= ts.len() || ts[p as int].kind is EOF
}

/// Whether the token at `p` is of the kind `kind`.
pub open spec fn check(ts: Seq<TokenView>, p: nat, kind: TokenTypeView) -> bool {
    !at_end(ts, p) && ts[p as int].kind.same_kind(kind)
}

/// The token at `p`, which must be of the kind `kind`.
pub open spec fn expect(ts: Seq<TokenView>, p: nat, kind: TokenTypeView, msg: Seq<char>) -> Parse<
    TokenView,
> {
    if check(ts, p, kind) {
        done(ts[p as int], p + 1)
    } else {
        failed(ts[p as int], msg, p)
    }
}

/// A kind that carries a name, for `check` and `expect`.
pub open spec fn identifier() -> TokenTypeView {
    TokenTypeView::Identifier(Seq::empty())
}

/// The levels of binary operators, from the one that binds tightest.
#[derive(Debug, Clone, Copy, PartialEq, Eq, Structural)]
pub enum Level {
    Factor,
    Term,
    Comparison,
    Equality,
    And,
    Or,
}

/// The place of a level among the levels, from the tightest.
pub open spec fn rank(level: Level) -> nat {
    match level {
        Level::Factor => 0,
        Level::Term => 1,
        Level::Comparison => 2,
        Level::Equality => 3,
        Level::And => 4,
        Level::Or => 5,
    }
}

/// The level of the operands of a level; the operands of a factor are
/// unary expressions.
pub open spec fn lower(level: Level) -> Option<Level> {
    match level {
        Level::Factor => None,
        Level::Term => Some(Level::Factor),
        Level::Comparison => Some(Level::Term),
        Level::Equality => Some(Level::Comparison),
        Level::And => Some(Level::Equality),
        Level::Or => Some(Level::And),
    }
}

/// Whether `kind` is an operator of the level.
pub open spec fn operator_of(level: Level, kind: TokenTypeView) -> bool {
    match level {
        Level::Factor => kind is Slash || kind is Star,
        Level::Term => kind is Plus || kind is Minus,
        Level::Comparison => kind is Greater || kind is GreaterEqual || kind is Less
            || kind is LessEqual,
        Level::Equality => kind is BangEqual || kind is EqualEqual,
        Level::And => kind is And,
        Level::Or => kind is Or,
    }
}

/// The node for an operator of the level between two operands.
pub open spec fn node(level: Level, l: ExprView, op: TokenView, r: ExprView) -> ExprView {
    match level {
        Level::And => ExprView::Logical(Box::new(l), op, Box::new(r)),
        Level::Or => ExprView::Logical(Box::new(l), op, Box::new(r)),
        _ => ExprView::Binary(Box::new(l), op, Box::new(r)),
    }
}

/// The message for a token of the kind `kind` where an expression is
/// to start.
pub open spec fn expect_expression(kind: TokenTypeView) -> Seq<char> {
    "expect expression, got "@ + kind.text()
}

/// The most arguments of a call, and the most parameters of a function.
pub open spec fn max_arity() -> nat {
    255
}

/// primary := "true" | "false" | "nil" | NUMBER | STRING | IDENT
///          | "(" expression ")"
///
/// A variable gets the place of its name among the tokens as its node
/// identifier.
pub open spec fn primary(ts: Seq<TokenView>, p: nat) -> Parse<ExprView>
    decreases left(ts, p), 0nat,
{
    if check(ts, p, TokenTypeView::LeftParen) {
        let inner = expression(ts, p + 1);
        match inner.result {
            Err(e) => inner,
            Ok(e) => {
                let close = expect(
                    ts,
                    inner.next,
                    TokenTypeView::RightParen,
                    "Expect ')' after expression."@,
                );
                match close.result {
                    Err(err) => stopped(err, close.next),
                    Ok(_) => done(ExprView::Grouping(Box::new(e)), close.next),
                }
            },
        }
    } else {
        match literal_of(ts[p as int].kind) {
            Some(literal) => done(ExprView::Literal(literal), p + 1),
            None => if ts[p as int].kind is Identifier {
                done(ExprView::Variable(ts[p as int], p as usize), p + 1)
            } else {
                failed(ts[p as int], expect_expression(ts[p as int].kind), p)
            },
        }
    }
}

/// The arguments after the first: ("," expression)*, at most 255 in all.
pub open spec fn arguments_rest(ts: Seq<TokenView>, list: Seq<ExprView>, p: nat) -> Parse<
    Seq<ExprView>,
>
    decreases left(ts, p), 25nat,
{
    if check(ts, p, TokenTypeView::Comma) {
        if list.len() >= max_arity() {
            failed(ts[p as int], "Can't have more than 255 arguments."@, p)
        } else {
            let next = expression(ts, p + 1);
            match next.result {
                Err(e) => stopped(e, next.next),
                Ok(e) => arguments_rest(ts, list.push(e), onward(p + 1, next.next)),
            }
        }
    } else {
        done(list, p)
    }
}

/// args? := (expression ("," expression)*)?, up to the closing bracket.
pub open spec fn arguments(ts: Seq<TokenView>, p: nat) -> Parse<Seq<ExprView>>
    decreases left(ts, p), 26nat,
{
    if check(ts, p, TokenTypeView::RightParen) {
        done(Seq::empty(), p)
    } else {
        let first = expression(ts, p);
        match first.result {
            Err(e) => stopped(e, first.next),
            Ok(e) => arguments_rest(ts, seq![e], onward(p, first.next)),
        }
    }
}

/// args? ")" after the opening bracket of a call of `callee`.
pub open spec fn finish_call(ts: Seq<TokenView>, callee: ExprView, p: nat) -> Parse<ExprView>
    decreases left(ts, p), 27nat,
{
    let args = arguments(ts, p);
    match args.result {
        Err(e) => stopped(e, args.next),
        Ok(list) => {
            let close = expect(
                ts,
                args.next,
                TokenTypeView::RightParen,
                "Expect ')' after argument list."@,
            );
            match close.result {
                Err(e) => stopped(e, close.next),
                Ok(paren) => done(ExprView::Call(Box::new(callee), paren, list), close.next),
            }
        },
    }
}

/// ("(" args? ")")* after a callee.
pub open spec fn call_rest(ts: Seq<TokenView>, callee: ExprView, p: nat) -> Parse<ExprView>
    decreases left(ts, p), 1nat,
{
    if check(ts, p, TokenTypeView::LeftParen) {
        let called = finish_call(ts, callee, p + 1);
        match called.result {
            Err(e) => called,
            Ok(e) => call_rest(ts, e, onward(p + 1, called.next)),
        }
    } else {
        done(callee, p)
    }
}

/// call := primary ("(" args? ")")*
pub open spec fn call(ts: Seq<TokenView>, p: nat) -> Parse<ExprView>
    decreases left(ts, p), 2nat,
{
    let callee = primary(ts, p);
    match callee.result {
        Err(e) => callee,
        Ok(e) => call_rest(ts, e, onward(p, callee.next)),
    }
}

/// unary := ("!" | "-") unary | call
pub open spec fn unary(ts: Seq<TokenView>, p: nat) -> Parse<ExprView>
    decreases left(ts, p), 3nat,
{
    if check(ts, p, TokenTypeView::Bang) || check(ts, p, TokenTypeView::Minus) {
        let right = unary(ts, p + 1);
        match right.result {
            Err(e) => right,
            Ok(r) => done(ExprView::Unary(ts[p as int], Box::new(r)), right.next),
        }
    } else {
        call(ts, p)
    }
}

/// An operand of the level: an expression of the level below.
pub open spec fn operand(ts: Seq<TokenView>, p: nat, level: Level) -> Parse<ExprView>
    decreases left(ts, p), 4 + 3 * rank(level) + 1,
{
    match lower(level) {
        None => unary(ts, p),
        Some(below) => binary(ts, p, below),
    }
}

/// (operator operand)* after a left operand: the operators of one level
/// associate to the left.
pub open spec fn binary_rest(ts: Seq<TokenView>, l: ExprView, p: nat, level: Level) -> Parse<
    ExprView,
>
    decreases left(ts, p), 4 + 3 * rank(level) + 2,
{
    if !at_end(ts, p) && operator_of(level, ts[p as int].kind) {
        let right = operand(ts, p + 1, level);
        match right.result {
            Err(e) => right,
            Ok(r) => binary_rest(
                ts,
                node(level, l, ts[p as int], r),
                onward(p + 1, right.next),
                level,
            ),
        }
    } else {
        done(l, p)
    }
}

/// level := operand (operator operand)*
///
/// logic_or, logic_and, equality, comparison, term and factor are this
/// rule at their levels.
pub open spec fn binary(ts: Seq<TokenView>, p: nat, level: Level) -> Parse<ExprView>
    decreases left(ts, p), 4 + 3 * rank(level) + 3,
{
    let first = operand(ts, p, level);
    match first.result {
        Err(e) => first,
        Ok(l) => binary_rest(ts, l, onward(p, first.next), level),
    }
}

/// "=" assignment after the target `target`, which must be a variable;
/// else the error is at the `=`, whose place is `p`.
pub open spec fn assigned(ts: Seq<TokenView>, target: ExprView, p: nat) -> Parse<ExprView>
    decreases left(ts, p), 23nat,
{
    if p >= ts.len() {
        failed(ts[p as int], "invalid assignment target"@, p)
    } else {
        let value = assignment(ts, p + 1);
        match value.result {
            Err(e) => value,
            Ok(v) => match target {
                ExprView::Variable(name, id) => done(
                    ExprView::Assign(name, Box::new(v), id),
                    value.next,
                ),
                _ => failed(ts[p as int], "invalid assignment target"@, value.next),
            },
        }
    }
}

/// assignment := IDENT "=" assignment | logic_or
///
/// The left side is read as an expression.
pub open spec fn assignment(ts: Seq<TokenView>, p: nat) -> Parse<ExprView>
    decreases left(ts, p), 24nat,
{
    let target = binary(ts, p, Level::Or);
    match target.result {
        Err(e) => target,
        Ok(t) => if check(ts, target.next, TokenTypeView::Equal) {
            assigned(ts, t, onward(p, target.next))
        } else {
            target
        },
    }
}

/// expression := assignment
pub open spec fn expression(ts: Seq<TokenView>, p: nat) -> Parse<ExprView>
    decreases left(ts, p), 25nat,
{
    assignment(ts, p)
}

/// The parameters after the first: ("," IDENT)*, at most 255 in all.
pub open spec fn parameters_rest(ts: Seq<TokenView>, list: Seq<TokenView>, p: nat) -> Parse<
    Seq<TokenView>,
>
    decreases left(ts, p),
{
    if check(ts, p, TokenTypeView::Comma) {
        if list.len() >= max_arity() {
            failed(ts[p as int], "Can't have more than 255 parameters."@, p)
        } else {
            let name = expect(ts, p + 1, identifier(), "Expect parameter name."@);
            match name.result {
                Err(e) => stopped(e, name.next),
                Ok(token) => parameters_rest(ts, list.push(token), p + 2),
            }
        }
    } else {
        done(list, p)
    }
}

/// params? := (IDENT ("," IDENT)*)?, up to the closing bracket.
pub open spec fn parameters(ts: Seq<TokenView>, p: nat) -> Parse<Seq<TokenView>> {
    if check(ts, p, TokenTypeView::RightParen) {
        done(Seq::empty(), p)
    } else {
        let name = expect(ts, p, identifier(), "Expect parameter name."@);
        match name.result {
            Err(e) => stopped(e, name.next),
            Ok(token) => parameters_rest(ts, seq![token], p + 1),
        }
    }
}

/// The statement that a `for` loop stands for: the body with the increment
/// after it, in a `while` on the condition (`true` where none is written),
/// with the initializer before it.
pub open spec fn desugar_for(
    init: Option<StmtView>,
    cond: Option<ExprView>,
    inc: Option<ExprView>,
    body: StmtView,
) -> StmtView {
    let stepped = match inc {
        Some(increment) => StmtView::Block(seq![body, StmtView::Expression(increment)]),
        None => body,
    };
    let condition = match cond {
        Some(c) => c,
        None => ExprView::Literal(LiteralView::Boolean(true)),
    };
    let looped = StmtView::While(condition, Box::new(stepped));
    match init {
        Some(first) => StmtView::Block(seq![first, looped]),
        None => looped,
    }
}

/// An expression and the semicolon after it; `msg` is the error where the
/// semicolon is missing.
pub open spec fn expression_then_semicolon(ts: Seq<TokenView>, p: nat, msg: Seq<char>) -> Parse<
    ExprView,
>
    decreases left(ts, p), 26nat,
{
    let value = expression(ts, p);
    match value.result {
        Err(e) => value,
        Ok(e) => {
            let semicolon = expect(ts, value.next, TokenTypeView::Semicolon, msg);
            match semicolon.result {
                Err(err) => stopped(err, semicolon.next),
                Ok(_) => done(e, semicolon.next),
            }
        },
    }
}

/// exprStmt := expression ";"
pub open spec fn expression_statement(ts: Seq<TokenView>, p: nat) -> Parse<StmtView>
    decreases left(ts, p), 28nat,
{
    let value = expression_then_semicolon(ts, p, "Expect ';' after value."@);
    match value.result {
        Err(e) => stopped(e, value.next),
        Ok(e) => done(StmtView::Expression(e), value.next),
    }
}

/// printStmt := "print" expression ";", after the keyword.
pub open spec fn print_statement(ts: Seq<TokenView>, p: nat) -> Parse<StmtView>
    decreases left(ts, p), 28nat,
{
    let value = expression_then_semicolon(ts, p, "Expect ';' after value."@);
    match value.result {
        Err(e) => stopped(e, value.next),
        Ok(e) => done(StmtView::Print(e), value.next),
    }
}

/// returnStmt := "return" expression? ";", after the keyword `keyword`.
pub open spec fn return_statement(ts: Seq<TokenView>, p: nat, keyword: TokenView) -> Parse<StmtView>
    decreases left(ts, p), 28nat,
{
    if check(ts, p, TokenTypeView::Semicolon) {
        done(StmtView::Return(keyword, ExprView::Literal(LiteralView::Nil)), p + 1)
    } else {
        let value = expression_then_semicolon(ts, p, "Expect ';' after return value."@);
        match value.result {
            Err(e) => stopped(e, value.next),
            Ok(e) => done(StmtView::Return(keyword, e), value.next),
        }
    }
}

/// ("=" expression)? after the name of a variable: the initializer, `nil`
/// where none is written.
pub open spec fn initializer(ts: Seq<TokenView>, p: nat) -> Parse<ExprView>
    decreases left(ts, p), 26nat,
{
    if check(ts, p, TokenTypeView::Equal) {
        expression(ts, p + 1)
    } else {
        done(ExprView::Literal(LiteralView::Nil), p)
    }
}

/// varDecl := "var" IDENT ("=" expression)? ";", after the keyword.
pub open spec fn var_declaration(ts: Seq<TokenView>, p: nat) -> Parse<StmtView>
    decreases left(ts, p), 28nat,
{
    let name = expect(ts, p, identifier(), "Expect variable name"@);
    match name.result {
        Err(e) => stopped(e, name.next),
        Ok(token) => {
            let init = initializer(ts, p + 1);
            match init.result {
                Err(e) => stopped(e, init.next),
                Ok(e) => {
                    let semicolon = expect(
                        ts,
                        init.next,
                        TokenTypeView::Semicolon,
                        "Expect ';' after variable declaration."@,
                    );
                    match semicolon.result {
                        Err(err) => stopped(err, semicolon.next),
                        Ok(_) => done(StmtView::Var(token.kind.lexeme(), e), semicolon.next),
                    }
                },
            }
        },
    }
}

/// "(" expression ")": a condition in its brackets. `opening` and
/// `closing` are the errors where a bracket is missing.
pub open spec fn condition(ts: Seq<TokenView>, p: nat, opening: Seq<char>, closing: Seq<char>)
    -> Parse<ExprView>
    decreases left(ts, p), 26nat,
{
    let open = expect(ts, p, TokenTypeView::LeftParen, opening);
    match open.result {
        Err(e) => stopped(e, open.next),
        Ok(_) => {
            let cond = expression(ts, p + 1);
            match cond.result {
                Err(e) => cond,
                Ok(c) => {
                    let close = expect(ts, cond.next, TokenTypeView::RightParen, closing);
                    match close.result {
                        Err(e) => stopped(e, close.next),
                        Ok(_) => done(c, close.next),
                    }
                },
            }
        },
    }
}

/// ("else" statement)? after the first branch of an `if`: the second
/// branch, the empty statement where none is written.
pub open spec fn else_branch(ts: Seq<TokenView>, p: nat) -> Parse<StmtView>
    decreases left(ts, p), 27nat,
{
    if check(ts, p, TokenTypeView::Else) {
        statement(ts, p + 1)
    } else {
        done(StmtView::Empty, p)
    }
}

/// ifStmt := "if" "(" expression ")" statement ("else" statement)?,
/// after the keyword; `p` is not at the end.
pub open spec fn if_statement(ts: Seq<TokenView>, p: nat) -> Parse<StmtView>
    decreases left(ts, p), 28nat,
{
    let cond = condition(ts, p, "Expect '(' after 'if'."@, "Expect ')' after if condition."@);
    match cond.result {
        Err(e) => stopped(e, cond.next),
        Ok(c) => {
            let first = statement(ts, onward(p + 1, cond.next));
            match first.result {
                Err(e) => first,
                Ok(t) => {
                    let second = else_branch(ts, onward(p + 1, first.next));
                    match second.result {
                        Err(e) => second,
                        Ok(f) => done(StmtView::If(c, Box::new(t), Box::new(f)), second.next),
                    }
                },
            }
        },
    }
}

/// whileStmt := "while" "(" expression ")" statement, after the keyword.
pub open spec fn while_statement(ts: Seq<TokenView>, p: nat) -> Parse<StmtView>
    decreases left(ts, p), 28nat,
{
    let cond = condition(
        ts,
        p,
        "Expect '(' after 'while'."@,
        "Expect ')' after while condition."@,
    );
    match cond.result {
        Err(e) => stopped(e, cond.next),
        Ok(c) => {
            let body = statement(ts, onward(p + 1, cond.next));
            match body.result {
                Err(e) => body,
                Ok(b) => done(StmtView::While(c, Box::new(b)), body.next),
            }
        },
    }
}

/// The first clause of a `for`: ";" for none, a variable declaration, or
/// an expression statement.
pub open spec fn for_initializer(ts: Seq<TokenView>, p: nat) -> Parse<Option<StmtView>>
    decreases left(ts, p), 29nat,
{
    if check(ts, p, TokenTypeView::Semicolon) {
        done(None, p + 1)
    } else if check(ts, p, TokenTypeView::Var) {
        let declared = var_declaration(ts, p + 1);
        match declared.result {
            Err(e) => stopped(e, declared.next),
            Ok(s) => done(Some(s), declared.next),
        }
    } else {
        let first = expression_statement(ts, p);
        match first.result {
            Err(e) => stopped(e, first.next),
            Ok(s) => done(Some(s), first.next),
        }
    }
}

/// An expression, unless the token at `p` is of the kind `closing`; then
/// the token of that kind. `msg` is the error where that token is missing.
pub open spec fn clause(ts: Seq<TokenView>, p: nat, closing: TokenTypeView, msg: Seq<char>)
    -> Parse<Option<ExprView>>
    decreases left(ts, p), 29nat,
{
    if check(ts, p, closing) {
        done(None, p + 1)
    } else {
        let value = expression(ts, p);
        match value.result {
            Err(e) => stopped(e, value.next),
            Ok(e) => {
                let close = expect(ts, value.next, closing, msg);
                match close.result {
                    Err(err) => stopped(err, close.next),
                    Ok(_) => done(Some(e), close.next),
                }
            },
        }
    }
}

/// What stands between the brackets of a `for`.
pub struct ForClauses {
    pub initializer: Option<StmtView>,
    pub condition: Option<ExprView>,
    pub increment: Option<ExprView>,
}

/// "(" (varDecl | exprStmt | ";") expression? ";" expression? ")"
pub open spec fn for_clauses(ts: Seq<TokenView>, p: nat) -> Parse<ForClauses>
    decreases left(ts, p), 30nat,
{
    let open = expect(ts, p, TokenTypeView::LeftParen, "Expect '(' after 'for'."@);
    match open.result {
        Err(e) => stopped(e, open.next),
        Ok(_) => {
            let init = for_initializer(ts, p + 1);
            match init.result {
                Err(e) => stopped(e, init.next),
                Ok(initializer) => {
                    let cond = clause(
                        ts,
                        onward(p + 1, init.next),
                        TokenTypeView::Semicolon,
                        "Expect ';' after loop condition."@,
                    );
                    match cond.result {
                        Err(e) => stopped(e, cond.next),
                        Ok(condition) => {
                            let inc = clause(
                                ts,
                                onward(p + 1, cond.next),
                                TokenTypeView::RightParen,
                                "Expect ')' after for clauses."@,
                            );
                            match inc.result {
                                Err(e) => stopped(e, inc.next),
                                Ok(increment) => done(
                                    ForClauses { initializer, condition, increment },
                                    inc.next,
                                ),
                            }
                        },
                    }
                },
            }
        },
    }
}

/// forStmt := "for" "(" (varDecl | exprStmt | ";") expression? ";"
///            expression? ")" statement, after the keyword.
pub open spec fn for_statement(ts: Seq<TokenView>, p: nat) -> Parse<StmtView>
    decreases left(ts, p), 31nat,
{
    let clauses = for_clauses(ts, p);
    match clauses.result {
        Err(e) => stopped(e, clauses.next),
        Ok(c) => {
            let body = statement(ts, onward(p + 1, clauses.next));
            match body.result {
                Err(e) => body,
                Ok(b) => done(
                    desugar_for(c.initializer, c.condition, c.increment, b),
                    body.next,
                ),
            }
        },
    }
}

/// declaration* "}" after the opening brace. A declaration reads at least
/// one token.
pub open spec fn block_rest(ts: Seq<TokenView>, list: Seq<StmtView>, p: nat) -> Parse<
    Seq<StmtView>,
>
    decreases left(ts, p), 39nat,
{
    if !check(ts, p, TokenTypeView::RightBrace) && !at_end(ts, p) {
        let next = declaration(ts, p);
        match next.result {
            Err(e) => stopped(e, next.next),
            Ok(s) => block_rest(ts, list.push(s), onward(p + 1, next.next)),
        }
    } else {
        let close = expect(ts, p, TokenTypeView::RightBrace, "Expect '}' after block."@);
        match close.result {
            Err(e) => stopped(e, close.next),
            Ok(_) => done(list, close.next),
        }
    }
}

/// block := "{" declaration* "}", after the opening brace.
pub open spec fn block(ts: Seq<TokenView>, p: nat) -> Parse<Seq<StmtView>>
    decreases left(ts, p), 40nat,
{
    block_rest(ts, Seq::empty(), p)
}

/// IDENT "(" params? ")" "{": the name and the parameters of a function,
/// up to the opening brace of its body.
pub struct Signature {
    pub name: TokenView,
    pub params: Seq<TokenView>,
}

/// The head of a function, after the keyword.
pub open spec fn signature(ts: Seq<TokenView>, p: nat) -> Parse<Signature> {
    let name = expect(ts, p, identifier(), "Expect function name."@);
    match name.result {
        Err(e) => stopped(e, name.next),
        Ok(token) => {
            let open = expect(
                ts,
                p + 1,
                TokenTypeView::LeftParen,
                "Expect '(' after function name."@,
            );
            match open.result {
                Err(e) => stopped(e, open.next),
                Ok(_) => {
                    let params = parameters(ts, p + 2);
                    match params.result {
                        Err(e) => stopped(e, params.next),
                        Ok(names) => {
                            let close = expect(
                                ts,
                                params.next,
                                TokenTypeView::RightParen,
                                "Expect ')' after parameters."@,
                            );
                            match close.result {
                                Err(e) => stopped(e, close.next),
                                Ok(_) => {
                                    let brace = expect(
                                        ts,
                                        close.next,
                                        TokenTypeView::LeftBrace,
                                        "Expect '{' before function body."@,
                                    );
                                    match brace.result {
                                        Err(e) => stopped(e, brace.next),
                                        Ok(_) => done(
                                            Signature { name: token, params: names },
                                            brace.next,
                                        ),
                                    }
                                },
                            }
                        },
                    }
                },
            }
        },
    }
}

/// funDecl := "fun" IDENT "(" params? ")" block, after the keyword; `p`
/// is not at the end.
pub open spec fn function(ts: Seq<TokenView>, p: nat) -> Parse<StmtView>
    decreases left(ts, p), 36nat,
{
    let head = signature(ts, p);
    match head.result {
        Err(e) => stopped(e, head.next),
        Ok(s) => {
            let body = block(ts, onward(p + 1, head.next));
            match body.result {
                Err(e) => stopped(e, body.next),
                Ok(list) => done(StmtView::Function(s.name, s.params, list), body.next),
            }
        },
    }
}

/// A block as a statement, after the opening brace.
pub open spec fn block_statement(ts: Seq<TokenView>, p: nat) -> Parse<StmtView>
    decreases left(ts, p), 41nat,
{
    let body = block(ts, p);
    match body.result {
        Err(e) => stopped(e, body.next),
        Ok(list) => done(StmtView::Block(list), body.next),
    }
}

/// statement := exprStmt | printStmt | block | ifStmt | whileStmt
///            | forStmt | returnStmt
pub open spec fn statement(ts: Seq<TokenView>, p: nat) -> Parse<StmtView>
    decreases left(ts, p), 37nat,
{
    if check(ts, p, TokenTypeView::Print) {
        print_statement(ts, p + 1)
    } else if check(ts, p, TokenTypeView::LeftBrace) {
        block_statement(ts, p + 1)
    } else if check(ts, p, TokenTypeView::If) {
        if_statement(ts, p + 1)
    } else if check(ts, p, TokenTypeView::While) {
        while_statement(ts, p + 1)
    } else if check(ts, p, TokenTypeView::For) {
        for_statement(ts, p + 1)
    } else if check(ts, p, TokenTypeView::Return) {
        return_statement(ts, p + 1, ts[p as int])
    } else {
        expression_statement(ts, p)
    }
}

/// declaration := varDecl | funDecl | statement
pub open spec fn declaration(ts: Seq<TokenView>, p: nat) -> Parse<StmtView>
    decreases left(ts, p), 38nat,
{
    if check(ts, p, TokenTypeView::Var) {
        var_declaration(ts, p + 1)
    } else if check(ts, p, TokenTypeView::Fun) {
        function(ts, p + 1)
    } else {
        statement(ts, p)
    }
}

/// Whether a declaration may start with a token of this kind.
pub open spec fn starts_declaration(kind: TokenTypeView) -> bool {
    kind is Class || kind is For || kind is Fun || kind is If || kind is Print || kind is Return
        || kind is Var || kind is While
}

/// The place at which parsing is taken up from `p` on: the end, the place
/// after a semicolon, or a token with which a declaration may start.
pub open spec fn resume_at(ts: Seq<TokenView>, p: nat) -> nat
    decreases left(ts, p),
{
    if at_end(ts, p) {
        p
    } else if p >= 1 && ts[p - 1].kind is Semicolon {
        p
    } else if starts_declaration(ts[p as int].kind) {
        p
    } else {
        resume_at(ts, p + 1)
    }
}

/// The place at which parsing is taken up after an error at `p`: the
/// token at `p` is passed over, and then tokens up to a likely start of a
/// declaration.
pub open spec fn synchronize(ts: Seq<TokenView>, p: nat) -> nat {
    resume_at(ts, p + 1)
}

/// What parsing from some place on gives: the statements of the
/// declarations that parsed, and the errors of those that did not, each
/// list in the order of the source.
pub struct Program {
    pub statements: Seq<StmtView>,
    pub errors: Seq<ErrorView>,
}

/// Taking up parsing never goes back, and stays within the tokens.
pub proof fn lemma_resume_at_bounds(ts: Seq<TokenView>, p: nat)
    ensures
        p <= resume_at(ts, p),
        p <= ts.len() ==> resume_at(ts, p) <= ts.len(),
    decreases left(ts, p),
{
    if at_end(ts, p) {
    } else if p >= 1 && ts[p - 1].kind is Semicolon {
    } else if starts_declaration(ts[p as int].kind) {
    } else {
        lemma_resume_at_bounds(ts, p + 1);
    }
}

/// After a parse error the parser goes on at a later token: recovery
/// passes over at least one.
pub proof fn law_synchronize_progress(ts: Seq<TokenView>, p: nat)
    ensures
        synchronize(ts, p) > p,
        p < ts.len() ==> synchronize(ts, p) <= ts.len(),
{
    lemma_resume_at_bounds(ts, p + 1);
}

/// program := declaration* EOF, with recovery: after a declaration that
/// did not parse, parsing is taken up at the next likely start of one.
/// `so_far` is what parsing gave up to `p`.
pub open spec fn program(ts: Seq<TokenView>, p: nat, so_far: Program) -> Program
    decreases left(ts, p),
{
    if at_end(ts, p) {
        so_far
    } else {
        let next = declaration(ts, p);
        match next.result {
            Ok(s) => program(
                ts,
                onward(p + 1, next.next),
                Program { statements: so_far.statements.push(s), errors: so_far.errors },
            ),
            Err(e) => {
                proof {
                    law_synchronize_progress(ts, onward(p, next.next));
                }
                program(
                    ts,
                    synchronize(ts, onward(p, next.next)),
                    Program { statements: so_far.statements, errors: so_far.errors.push(e) },
                )
            },
        }
    }
}

} // verus!
