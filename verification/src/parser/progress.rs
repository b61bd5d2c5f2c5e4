use vstd::prelude::*;
use crate::expr::ExprView;
use crate::parser::grammar::{
    arguments, arguments_rest, assigned, assignment, at_end, binary, binary_rest, block,
    block_rest, block_statement, call, call_rest, check, clause, condition, declaration,
    else_branch, expect, expression, expression_statement, expression_then_semicolon,
    finish_call, for_clauses, for_initializer, for_statement, function, identifier,
    if_statement, initializer, left, lower, onward, operand, operator_of,
    parameters_rest, primary, print_statement, rank, return_statement, signature, statement,
    unary, var_declaration, while_statement, Level, Parse,
};
use crate::stmt::StmtView;
use crate::token::{TokenTypeView, TokenView};

verus! {

/// The tokens end with the end-of-input token.
pub open spec fn ended(ts: Seq<TokenView>) -> bool {
    ts.len() > 0 && ts.last().kind is EOF
}

/// The outcome `r` of a rule at `p` does not go back, and does not read
/// the last token.
pub open spec fn reads_on<T>(ts: Seq<TokenView>, p: nat, r: Parse<T>) -> bool {
    p <= r.next && (p < ts.len() ==> r.next < ts.len())
}

/// The outcome `r` of a rule at `p` does not go back, and where the rule
/// succeeded it has read at least one token.
pub open spec fn reads_more<T>(ts: Seq<TokenView>, p: nat, r: Parse<T>) -> bool {
    reads_on(ts, p, r) && (r.result is Ok ==> p < r.next)
}

proof fn lemma_expect(ts: Seq<TokenView>, p: nat, kind: TokenTypeView, msg: Seq<char>)
    requires
        ended(ts),
    ensures
        reads_more(ts, p, expect(ts, p, kind, msg)),
{
}

proof fn lemma_primary(ts: Seq<TokenView>, p: nat)
    requires
        ended(ts),
        p < ts.len(),
    ensures
        reads_more(ts, p, primary(ts, p)),
    decreases left(ts, p), 0nat,
{
    if check(ts, p, TokenTypeView::LeftParen) {
        lemma_expression(ts, p + 1);
        let inner = expression(ts, p + 1);
        lemma_expect(ts, inner.next, TokenTypeView::RightParen, "Expect ')' after expression."@);
    }
}

proof fn lemma_arguments_rest(ts: Seq<TokenView>, list: Seq<ExprView>, p: nat)
    requires
        ended(ts),
        p < ts.len(),
    ensures
        reads_on(ts, p, arguments_rest(ts, list, p)),
    decreases left(ts, p), 25nat,
{
    if check(ts, p, TokenTypeView::Comma) && list.len() < 255 {
        lemma_expression(ts, p + 1);
        let next = expression(ts, p + 1);
        if next.result is Ok {
            lemma_arguments_rest(ts, list.push(next.result->Ok_0), onward(p + 1, next.next));
        }
    }
}

proof fn lemma_arguments(ts: Seq<TokenView>, p: nat)
    requires
        ended(ts),
        p < ts.len(),
    ensures
        reads_on(ts, p, arguments(ts, p)),
    decreases left(ts, p), 26nat,
{
    if !check(ts, p, TokenTypeView::RightParen) {
        lemma_expression(ts, p);
        let first = expression(ts, p);
        if first.result is Ok {
            lemma_arguments_rest(ts, seq![first.result->Ok_0], onward(p, first.next));
        }
    }
}

proof fn lemma_finish_call(ts: Seq<TokenView>, callee: ExprView, p: nat)
    requires
        ended(ts),
        p < ts.len(),
    ensures
        reads_more(ts, p, finish_call(ts, callee, p)),
    decreases left(ts, p), 27nat,
{
    lemma_arguments(ts, p);
    let args = arguments(ts, p);
    lemma_expect(ts, args.next, TokenTypeView::RightParen, "Expect ')' after argument list."@);
}

proof fn lemma_call_rest(ts: Seq<TokenView>, callee: ExprView, p: nat)
    requires
        ended(ts),
        p < ts.len(),
    ensures
        reads_on(ts, p, call_rest(ts, callee, p)),
    decreases left(ts, p), 1nat,
{
    if check(ts, p, TokenTypeView::LeftParen) {
        lemma_finish_call(ts, callee, p + 1);
        let called = finish_call(ts, callee, p + 1);
        if called.result is Ok {
            lemma_call_rest(ts, called.result->Ok_0, onward(p + 1, called.next));
        }
    }
}

proof fn lemma_call(ts: Seq<TokenView>, p: nat)
    requires
        ended(ts),
        p < ts.len(),
    ensures
        reads_more(ts, p, call(ts, p)),
    decreases left(ts, p), 2nat,
{
    lemma_primary(ts, p);
    let callee = primary(ts, p);
    if callee.result is Ok {
        lemma_call_rest(ts, callee.result->Ok_0, onward(p, callee.next));
    }
}

proof fn lemma_unary(ts: Seq<TokenView>, p: nat)
    requires
        ended(ts),
        p < ts.len(),
    ensures
        reads_more(ts, p, unary(ts, p)),
    decreases left(ts, p), 3nat,
{
    if check(ts, p, TokenTypeView::Bang) || check(ts, p, TokenTypeView::Minus) {
        lemma_unary(ts, p + 1);
    } else {
        lemma_call(ts, p);
    }
}

proof fn lemma_operand(ts: Seq<TokenView>, p: nat, level: Level)
    requires
        ended(ts),
        p < ts.len(),
    ensures
        reads_more(ts, p, operand(ts, p, level)),
    decreases left(ts, p), 4 + 3 * rank(level) + 1,
{
    match lower(level) {
        None => lemma_unary(ts, p),
        Some(below) => lemma_binary(ts, p, below),
    }
}

proof fn lemma_binary_rest(ts: Seq<TokenView>, l: ExprView, p: nat, level: Level)
    requires
        ended(ts),
        p < ts.len(),
    ensures
        reads_on(ts, p, binary_rest(ts, l, p, level)),
    decreases left(ts, p), 4 + 3 * rank(level) + 2,
{
    if !at_end(ts, p) && operator_of(level, ts[p as int].kind) {
        lemma_operand(ts, p + 1, level);
        let right = operand(ts, p + 1, level);
        if right.result is Ok {
            lemma_binary_rest(
                ts,
                crate::parser::grammar::node(level, l, ts[p as int], right.result->Ok_0),
                onward(p + 1, right.next),
                level,
            );
        }
    }
}

proof fn lemma_binary(ts: Seq<TokenView>, p: nat, level: Level)
    requires
        ended(ts),
        p < ts.len(),
    ensures
        reads_more(ts, p, binary(ts, p, level)),
    decreases left(ts, p), 4 + 3 * rank(level) + 3,
{
    lemma_operand(ts, p, level);
    let first = operand(ts, p, level);
    if first.result is Ok {
        lemma_binary_rest(ts, first.result->Ok_0, onward(p, first.next), level);
    }
}

proof fn lemma_assigned(ts: Seq<TokenView>, target: ExprView, p: nat)
    requires
        ended(ts),
        p + 1 < ts.len(),
    ensures
        reads_more(ts, p, assigned(ts, target, p)),
        p < assigned(ts, target, p).next,
    decreases left(ts, p), 23nat,
{
    lemma_assignment(ts, p + 1);
}

proof fn lemma_assignment(ts: Seq<TokenView>, p: nat)
    requires
        ended(ts),
        p < ts.len(),
    ensures
        reads_more(ts, p, assignment(ts, p)),
    decreases left(ts, p), 24nat,
{
    lemma_binary(ts, p, Level::Or);
    let target = binary(ts, p, Level::Or);
    if target.result is Ok && check(ts, target.next, TokenTypeView::Equal) {
        lemma_assigned(ts, target.result->Ok_0, onward(p, target.next));
    }
}

/// expression reads on, and reads a token where it succeeds.
pub proof fn lemma_expression(ts: Seq<TokenView>, p: nat)
    requires
        ended(ts),
        p < ts.len(),
    ensures
        reads_more(ts, p, expression(ts, p)),
    decreases left(ts, p), 25nat,
{
    lemma_assignment(ts, p);
}

proof fn lemma_expression_then_semicolon(ts: Seq<TokenView>, p: nat, msg: Seq<char>)
    requires
        ended(ts),
        p < ts.len(),
    ensures
        reads_more(ts, p, expression_then_semicolon(ts, p, msg)),
    decreases left(ts, p), 26nat,
{
    lemma_expression(ts, p);
}

proof fn lemma_expression_statement(ts: Seq<TokenView>, p: nat)
    requires
        ended(ts),
        p < ts.len(),
    ensures
        reads_more(ts, p, expression_statement(ts, p)),
    decreases left(ts, p), 28nat,
{
    lemma_expression_then_semicolon(ts, p, "Expect ';' after value."@);
}

proof fn lemma_print_statement(ts: Seq<TokenView>, p: nat)
    requires
        ended(ts),
        p < ts.len(),
    ensures
        reads_more(ts, p, print_statement(ts, p)),
    decreases left(ts, p), 28nat,
{
    lemma_expression_then_semicolon(ts, p, "Expect ';' after value."@);
}

proof fn lemma_return_statement(ts: Seq<TokenView>, p: nat, keyword: TokenView)
    requires
        ended(ts),
        p < ts.len(),
    ensures
        reads_more(ts, p, return_statement(ts, p, keyword)),
    decreases left(ts, p), 28nat,
{
    if !check(ts, p, TokenTypeView::Semicolon) {
        lemma_expression_then_semicolon(ts, p, "Expect ';' after return value."@);
    }
}

proof fn lemma_initializer(ts: Seq<TokenView>, p: nat)
    requires
        ended(ts),
        p < ts.len(),
    ensures
        reads_on(ts, p, initializer(ts, p)),
    decreases left(ts, p), 26nat,
{
    if check(ts, p, TokenTypeView::Equal) {
        lemma_expression(ts, p + 1);
    }
}

proof fn lemma_var_declaration(ts: Seq<TokenView>, p: nat)
    requires
        ended(ts),
        p < ts.len(),
    ensures
        reads_more(ts, p, var_declaration(ts, p)),
    decreases left(ts, p), 28nat,
{
    if expect(ts, p, identifier(), "Expect variable name"@).result is Ok {
        lemma_initializer(ts, p + 1);
    }
}

proof fn lemma_condition(ts: Seq<TokenView>, p: nat, opening: Seq<char>, closing: Seq<char>)
    requires
        ended(ts),
        p < ts.len(),
    ensures
        reads_more(ts, p, condition(ts, p, opening, closing)),
    decreases left(ts, p), 26nat,
{
    if expect(ts, p, TokenTypeView::LeftParen, opening).result is Ok {
        lemma_expression(ts, p + 1);
    }
}

proof fn lemma_else_branch(ts: Seq<TokenView>, p: nat)
    requires
        ended(ts),
        p < ts.len(),
    ensures
        reads_on(ts, p, else_branch(ts, p)),
    decreases left(ts, p), 27nat,
{
    if check(ts, p, TokenTypeView::Else) {
        lemma_statement(ts, p + 1);
    }
}

proof fn lemma_if_statement(ts: Seq<TokenView>, p: nat)
    requires
        ended(ts),
        p < ts.len(),
    ensures
        reads_more(ts, p, if_statement(ts, p)),
    decreases left(ts, p), 28nat,
{
    lemma_condition(ts, p, "Expect '(' after 'if'."@, "Expect ')' after if condition."@);
    let cond = condition(ts, p, "Expect '(' after 'if'."@, "Expect ')' after if condition."@);
    if cond.result is Ok {
        lemma_statement(ts, onward(p + 1, cond.next));
        let first = statement(ts, onward(p + 1, cond.next));
        if first.result is Ok {
            lemma_else_branch(ts, onward(p + 1, first.next));
        }
    }
}

proof fn lemma_while_statement(ts: Seq<TokenView>, p: nat)
    requires
        ended(ts),
        p < ts.len(),
    ensures
        reads_more(ts, p, while_statement(ts, p)),
    decreases left(ts, p), 28nat,
{
    lemma_condition(ts, p, "Expect '(' after 'while'."@, "Expect ')' after while condition."@);
    let cond = condition(
        ts,
        p,
        "Expect '(' after 'while'."@,
        "Expect ')' after while condition."@,
    );
    if cond.result is Ok {
        lemma_statement(ts, onward(p + 1, cond.next));
    }
}

proof fn lemma_for_initializer(ts: Seq<TokenView>, p: nat)
    requires
        ended(ts),
        p < ts.len(),
    ensures
        reads_more(ts, p, for_initializer(ts, p)),
    decreases left(ts, p), 29nat,
{
    if check(ts, p, TokenTypeView::Semicolon) {
    } else if check(ts, p, TokenTypeView::Var) {
        lemma_var_declaration(ts, p + 1);
    } else {
        lemma_expression_statement(ts, p);
    }
}

proof fn lemma_clause(ts: Seq<TokenView>, p: nat, closing: TokenTypeView, msg: Seq<char>)
    requires
        ended(ts),
        p < ts.len(),
    ensures
        reads_more(ts, p, clause(ts, p, closing, msg)),
    decreases left(ts, p), 29nat,
{
    if !check(ts, p, closing) {
        lemma_expression(ts, p);
    }
}

proof fn lemma_for_clauses(ts: Seq<TokenView>, p: nat)
    requires
        ended(ts),
        p < ts.len(),
    ensures
        reads_more(ts, p, for_clauses(ts, p)),
    decreases left(ts, p), 30nat,
{
    if expect(ts, p, TokenTypeView::LeftParen, "Expect '(' after 'for'."@).result is Ok {
        lemma_for_initializer(ts, p + 1);
        let init = for_initializer(ts, p + 1);
        if init.result is Ok {
            lemma_clause(
                ts,
                onward(p + 1, init.next),
                TokenTypeView::Semicolon,
                "Expect ';' after loop condition."@,
            );
            let cond = clause(
                ts,
                onward(p + 1, init.next),
                TokenTypeView::Semicolon,
                "Expect ';' after loop condition."@,
            );
            if cond.result is Ok {
                lemma_clause(
                    ts,
                    onward(p + 1, cond.next),
                    TokenTypeView::RightParen,
                    "Expect ')' after for clauses."@,
                );
            }
        }
    }
}

proof fn lemma_for_statement(ts: Seq<TokenView>, p: nat)
    requires
        ended(ts),
        p < ts.len(),
    ensures
        reads_more(ts, p, for_statement(ts, p)),
    decreases left(ts, p), 31nat,
{
    lemma_for_clauses(ts, p);
    let clauses = for_clauses(ts, p);
    if clauses.result is Ok {
        lemma_statement(ts, onward(p + 1, clauses.next));
    }
}

proof fn lemma_block_rest(ts: Seq<TokenView>, list: Seq<StmtView>, p: nat)
    requires
        ended(ts),
        p < ts.len(),
    ensures
        reads_more(ts, p, block_rest(ts, list, p)),
    decreases left(ts, p), 39nat,
{
    if !check(ts, p, TokenTypeView::RightBrace) && !at_end(ts, p) {
        lemma_declaration(ts, p);
        let next = declaration(ts, p);
        if next.result is Ok {
            lemma_block_rest(ts, list.push(next.result->Ok_0), onward(p + 1, next.next));
        }
    }
}

proof fn lemma_block(ts: Seq<TokenView>, p: nat)
    requires
        ended(ts),
        p < ts.len(),
    ensures
        reads_more(ts, p, block(ts, p)),
    decreases left(ts, p), 40nat,
{
    lemma_block_rest(ts, Seq::empty(), p);
}

proof fn lemma_block_statement(ts: Seq<TokenView>, p: nat)
    requires
        ended(ts),
        p < ts.len(),
    ensures
        reads_more(ts, p, block_statement(ts, p)),
    decreases left(ts, p), 41nat,
{
    lemma_block(ts, p);
}

proof fn lemma_parameters_rest(ts: Seq<TokenView>, list: Seq<TokenView>, p: nat)
    requires
        ended(ts),
        p < ts.len(),
    ensures
        reads_on(ts, p, parameters_rest(ts, list, p)),
    decreases left(ts, p),
{
    if check(ts, p, TokenTypeView::Comma) && list.len() < 255 {
        let name = expect(ts, p + 1, identifier(), "Expect parameter name."@);
        if name.result is Ok {
            lemma_parameters_rest(ts, list.push(name.result->Ok_0), p + 2);
        }
    }
}

proof fn lemma_signature(ts: Seq<TokenView>, p: nat)
    requires
        ended(ts),
        p < ts.len(),
    ensures
        reads_more(ts, p, signature(ts, p)),
{
    let name = expect(ts, p, identifier(), "Expect function name."@);
    if name.result is Ok {
        let open = expect(ts, p + 1, TokenTypeView::LeftParen, "Expect '(' after function name."@);
        if open.result is Ok {
            if !check(ts, p + 2, TokenTypeView::RightParen) {
                let first = expect(ts, p + 2, identifier(), "Expect parameter name."@);
                if first.result is Ok {
                    lemma_parameters_rest(ts, seq![first.result->Ok_0], p + 3);
                }
            }
        }
    }
}

proof fn lemma_function(ts: Seq<TokenView>, p: nat)
    requires
        ended(ts),
        p < ts.len(),
    ensures
        reads_more(ts, p, function(ts, p)),
    decreases left(ts, p), 36nat,
{
    lemma_signature(ts, p);
    let head = signature(ts, p);
    if head.result is Ok {
        lemma_block(ts, onward(p + 1, head.next));
    }
}

/// statement reads on, and reads a token where it succeeds.
pub proof fn lemma_statement(ts: Seq<TokenView>, p: nat)
    requires
        ended(ts),
        p < ts.len(),
    ensures
        reads_more(ts, p, statement(ts, p)),
    decreases left(ts, p), 37nat,
{
    if check(ts, p, TokenTypeView::Print) {
        lemma_print_statement(ts, p + 1);
    } else if check(ts, p, TokenTypeView::LeftBrace) {
        lemma_block_statement(ts, p + 1);
    } else if check(ts, p, TokenTypeView::If) {
        lemma_if_statement(ts, p + 1);
    } else if check(ts, p, TokenTypeView::While) {
        lemma_while_statement(ts, p + 1);
    } else if check(ts, p, TokenTypeView::For) {
        lemma_for_statement(ts, p + 1);
    } else if check(ts, p, TokenTypeView::Return) {
        lemma_return_statement(ts, p + 1, ts[p as int]);
    } else {
        lemma_expression_statement(ts, p);
    }
}

/// declaration reads on, and reads a token where it succeeds.
pub proof fn lemma_declaration(ts: Seq<TokenView>, p: nat)
    requires
        ended(ts),
        p < ts.len(),
    ensures
        reads_more(ts, p, declaration(ts, p)),
    decreases left(ts, p), 38nat,
{
    if check(ts, p, TokenTypeView::Var) {
        lemma_var_declaration(ts, p + 1);
    } else if check(ts, p, TokenTypeView::Fun) {
        lemma_function(ts, p + 1);
    } else {
        lemma_statement(ts, p);
    }
}

/// No rule goes back, and a rule that succeeds reads at least one token:
/// wherever a rule goes on at the place that another rule reached, that
/// place is the one written there with `onward`.
pub proof fn law_rules_read_on(ts: Seq<TokenView>, p: nat)
    requires
        ended(ts),
        p < ts.len(),
    ensures
        reads_more(ts, p, expression(ts, p)),
        reads_more(ts, p, statement(ts, p)),
        reads_more(ts, p, declaration(ts, p)),
        onward(p, expression(ts, p).next) == expression(ts, p).next,
        onward(p, statement(ts, p).next) == statement(ts, p).next,
        onward(p, declaration(ts, p).next) == declaration(ts, p).next,
        declaration(ts, p).result is Ok ==> onward(p + 1, declaration(ts, p).next) == declaration(
            ts,
            p,
        ).next,
{
    lemma_expression(ts, p);
    lemma_statement(ts, p);
    lemma_declaration(ts, p);
}

} // verus!
