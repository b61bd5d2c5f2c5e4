use vstd::prelude::*;
use crate::expr::{literal_of, ExprView, LiteralView};
use crate::parser::grammar::{
    arguments, arguments_rest, assigned, assignment, at_end, binary, binary_rest, call,
    block, block_rest, block_statement, call_rest, check, clause, condition, declaration,
    desugar_for, done, else_branch, expect, expression, for_clauses, for_initializer,
    for_statement, function, if_statement, program, while_statement, ForClauses, Program,
    expression_statement, expression_then_semicolon, finish_call, identifier, initializer,
    lower, node, onward, operand, parameters, parameters_rest, print_statement,
    return_statement, signature, statement, var_declaration, Signature,
    operator_of, primary, rank, unary, Level, Parse,
};
use crate::parser::progress::ended;
use crate::stmt::StmtView;
use crate::token::{TokenTypeView, TokenView};

verus! {

/// The rules for expressions, from the one that binds tightest.
pub enum Rule {
    Primary,
    Call,
    Unary,
    Binary(Level),
    Assignment,
}

/// The rule for the operands of a rule.
pub open spec fn below(rule: Rule) -> Rule {
    match rule {
        Rule::Assignment => Rule::Binary(Level::Or),
        Rule::Binary(level) => match lower(level) {
            Some(b) => Rule::Binary(b),
            None => Rule::Unary,
        },
        Rule::Unary => Rule::Call,
        Rule::Call => Rule::Primary,
        Rule::Primary => Rule::Primary,
    }
}

/// The place of a rule among the rules, from the tightest.
pub open spec fn rule_rank(rule: Rule) -> nat {
    match rule {
        Rule::Primary => 0,
        Rule::Call => 1,
        Rule::Unary => 2,
        Rule::Binary(level) => 3 + rank(level),
        Rule::Assignment => 9,
    }
}

/// What a rule makes of the tokens from `p` on.
pub open spec fn parse(ts: Seq<TokenView>, p: nat, rule: Rule) -> Parse<ExprView> {
    match rule {
        Rule::Primary => primary(ts, p),
        Rule::Call => call(ts, p),
        Rule::Unary => unary(ts, p),
        Rule::Binary(level) => binary(ts, p, level),
        Rule::Assignment => assignment(ts, p),
    }
}

/// Whether the expression is one that the rule derives: each operand of
/// an operator is derived by the rule for operands of that operator, and
/// what stands in brackets or as an argument is any expression.
pub open spec fn shaped(e: ExprView, rule: Rule) -> bool
    decreases e, rule_rank(rule),
{
    match rule {
        Rule::Assignment => match e {
            ExprView::Assign(_, value, _) => shaped(*value, Rule::Assignment),
            _ => shaped(e, Rule::Binary(Level::Or)),
        },
        Rule::Binary(level) => match e {
            ExprView::Binary(left, op, right) => if !(level is And || level is Or) && operator_of(
                level,
                op.kind,
            ) {
                shaped(*left, rule) && shaped(*right, below(rule))
            } else {
                shaped(e, below(rule))
            },
            ExprView::Logical(left, op, right) => if (level is And || level is Or) && operator_of(
                level,
                op.kind,
            ) {
                shaped(*left, rule) && shaped(*right, below(rule))
            } else {
                shaped(e, below(rule))
            },
            _ => shaped(e, below(rule)),
        },
        Rule::Unary => match e {
            ExprView::Unary(_, right) => shaped(*right, Rule::Unary),
            _ => shaped(e, Rule::Call),
        },
        Rule::Call => match e {
            ExprView::Call(callee, _, args) => shaped(*callee, Rule::Call) && args.len() <= 255
                && forall|i: int| 0 <= i < args.len() ==> shaped(#[trigger] args[i], Rule::Assignment),
            _ => shaped(e, Rule::Primary),
        },
        Rule::Primary => match e {
            ExprView::Literal(_) => true,
            ExprView::Variable(_, _) => true,
            ExprView::Grouping(inner) => shaped(*inner, Rule::Assignment),
            _ => false,
        },
    }
}

/// The number of tokens that write the expression.
pub open spec fn width(e: ExprView) -> nat
    decreases e, 0nat,
{
    match e {
        ExprView::Literal(_) => 1,
        ExprView::Variable(_, _) => 1,
        ExprView::Grouping(inner) => width(*inner) + 2,
        ExprView::Unary(_, right) => width(*right) + 1,
        ExprView::Binary(left, _, right) => width(*left) + 1 + width(*right),
        ExprView::Logical(left, _, right) => width(*left) + 1 + width(*right),
        ExprView::Assign(_, value, _) => width(*value) + 2,
        ExprView::Call(callee, _, args) => width(*callee) + 2 + list_width(args, args.len()),
    }
}

/// The number of tokens that write the first `n` expressions of a list,
/// with the commas between them.
pub open spec fn list_width(list: Seq<ExprView>, n: nat) -> nat
    decreases list, n,
{
    if n == 0 || n > list.len() {
        0
    } else if n == 1 {
        width(list[0])
    } else {
        list_width(list, (n - 1) as nat) + 1 + width(list[n - 1])
    }
}

/// Whether the tokens from `p` on write the expression: they are its
/// tokens in order, each variable has its place as its identifier, and
/// the brackets, commas and equals signs stand where they belong.
pub open spec fn written(ts: Seq<TokenView>, p: nat, e: ExprView) -> bool
    decreases e, 0nat,
{
    match e {
        ExprView::Literal(literal) => p < ts.len() && literal_of(ts[p as int].kind) == Some(
            literal,
        ),
        ExprView::Variable(name, id) => p < ts.len() && ts[p as int] == name
            && name.kind is Identifier && id == p,
        ExprView::Grouping(inner) => check(ts, p, TokenTypeView::LeftParen) && written(
            ts,
            p + 1,
            *inner,
        ) && check(ts, p + 1 + width(*inner), TokenTypeView::RightParen),
        ExprView::Unary(op, right) => (check(ts, p, TokenTypeView::Bang) || check(
            ts,
            p,
            TokenTypeView::Minus,
        )) && ts[p as int] == op && written(ts, p + 1, *right),
        ExprView::Binary(left, op, right) => written(ts, p, *left) && !at_end(
            ts,
            p + width(*left),
        ) && ts[(p + width(*left)) as int] == op && written(ts, p + width(*left) + 1, *right),
        ExprView::Logical(left, op, right) => written(ts, p, *left) && !at_end(
            ts,
            p + width(*left),
        ) && ts[(p + width(*left)) as int] == op && written(ts, p + width(*left) + 1, *right),
        ExprView::Assign(name, value, id) => p < ts.len() && ts[p as int] == name
            && name.kind is Identifier && id == p && check(ts, p + 1, TokenTypeView::Equal)
            && written(ts, p + 2, *value),
        ExprView::Call(callee, paren, args) => {
            let open = p + width(*callee);
            let close = open + 1 + list_width(args, args.len());
            &&& written(ts, p, *callee)
            &&& check(ts, open, TokenTypeView::LeftParen)
            &&& written_list(ts, open + 1, args, args.len())
            &&& check(ts, close, TokenTypeView::RightParen)
            &&& ts[close as int] == paren
        },
    }
}

/// Whether the tokens from `p` on write the first `n` expressions of a
/// list, with commas between them.
pub open spec fn written_list(ts: Seq<TokenView>, p: nat, list: Seq<ExprView>, n: nat) -> bool
    decreases list, n,
{
    if n == 0 || n > list.len() {
        true
    } else if n == 1 {
        written(ts, p, list[0])
    } else {
        let comma = p + list_width(list, (n - 1) as nat);
        &&& written_list(ts, p, list, (n - 1) as nat)
        &&& check(ts, comma, TokenTypeView::Comma)
        &&& written(ts, comma + 1, list[n - 1])
    }
}

/// Whether a token of the kind is an operator of the level or of a level
/// that binds tighter.
pub open spec fn operator_up_to(level: Level, kind: TokenTypeView) -> bool
    decreases rank(level),
{
    operator_of(level, kind) || match lower(level) {
        Some(b) => operator_up_to(b, kind),
        None => false,
    }
}

/// Whether a token of the kind, standing after an expression, ends what
/// the rule reads: the rule would not go on with it.
pub open spec fn stops(rule: Rule, kind: TokenTypeView) -> bool {
    match rule {
        Rule::Primary => true,
        Rule::Call => !(kind is LeftParen),
        Rule::Unary => !(kind is LeftParen),
        Rule::Binary(level) => !(kind is LeftParen) && !operator_up_to(level, kind),
        Rule::Assignment => !(kind is LeftParen) && !operator_up_to(Level::Or, kind) && !(
        kind is Equal),
    }
}

/// Whether an expression may start with a token of the kind.
pub open spec fn starts_expression(kind: TokenTypeView) -> bool {
    literal_of(kind) is Some || kind is Identifier || kind is LeftParen || kind is Bang
        || kind is Minus
}

/// The tokens that write an expression are tokens before the last, and
/// the first is one with which an expression may start.
pub proof fn lemma_written_bounds(ts: Seq<TokenView>, p: nat, e: ExprView)
    requires
        ended(ts),
        written(ts, p, e),
    ensures
        p + width(e) < ts.len(),
        !at_end(ts, p),
        starts_expression(ts[p as int].kind),
        shaped(e, Rule::Call) ==> !(ts[p as int].kind is Bang) && !(ts[p as int].kind is Minus),
    decreases e, 0nat,
{
    reveal_with_fuel(shaped, 3);
    match e {
        ExprView::Literal(_) => {},
        ExprView::Variable(_, _) => {},
        ExprView::Grouping(inner) => {
            lemma_written_bounds(ts, p + 1, *inner);
        },
        ExprView::Unary(_, right) => {
            lemma_written_bounds(ts, p + 1, *right);
        },
        ExprView::Binary(left, _, right) => {
            lemma_written_bounds(ts, p, *left);
            lemma_written_bounds(ts, p + width(*left) + 1, *right);
        },
        ExprView::Logical(left, _, right) => {
            lemma_written_bounds(ts, p, *left);
            lemma_written_bounds(ts, p + width(*left) + 1, *right);
        },
        ExprView::Assign(_, value, _) => {
            lemma_written_bounds(ts, p + 2, *value);
        },
        ExprView::Call(callee, _, args) => {
            lemma_written_bounds(ts, p, *callee);
        },
    }
}

/// A list that is written is written up to each of its places.
proof fn lemma_list_prefix(ts: Seq<TokenView>, p: nat, list: Seq<ExprView>, n: nat, k: nat)
    requires
        written_list(ts, p, list, n),
        k <= n <= list.len(),
    ensures
        written_list(ts, p, list, k),
    decreases n - k,
{
    if k < n {
        if n >= 2 {
            lemma_list_prefix(ts, p, list, (n - 1) as nat, k);
        }
    }
}

/// An operator of a level is no bracket and no operator of a level that
/// binds tighter: it ends what the rule for operands reads.
proof fn lemma_operator_stops_operand(level: Level, kind: TokenTypeView)
    requires
        operator_of(level, kind),
    ensures
        stops(below(Rule::Binary(level)), kind),
{
    reveal_with_fuel(operator_up_to, 7);
}

/// What ends a rule ends the rule for its operands.
proof fn lemma_stops_below(rule: Rule, kind: TokenTypeView)
    requires
        stops(rule, kind),
    ensures
        stops(below(rule), kind),
{
    reveal_with_fuel(operator_up_to, 7);
}

/// A comma, a closing bracket and a semicolon end every expression.
proof fn lemma_separators_stop(kind: TokenTypeView)
    requires
        kind is Comma || kind is RightParen || kind is Semicolon,
    ensures
        stops(Rule::Assignment, kind),
{
    reveal_with_fuel(operator_up_to, 7);
}

/// A name before an equals sign is read as a variable by every binary
/// rule.
proof fn lemma_target_parses_at(ts: Seq<TokenView>, p: nat, level: Level)
    requires
        p < ts.len(),
        ts[p as int].kind is Identifier,
        check(ts, p + 1, TokenTypeView::Equal),
    ensures
        binary(ts, p, level) == done(ExprView::Variable(ts[p as int], p as usize), p + 1),
    decreases rank(level),
{
    let target = ExprView::Variable(ts[p as int], p as usize);
    match lower(level) {
        Some(b) => {
            lemma_target_parses_at(ts, p, b);
        },
        None => {
            assert(primary(ts, p) == done(target, p + 1));
            assert(call_rest(ts, target, p + 1) == done(target, p + 1));
            assert(call(ts, p) == done(target, p + 1));
            assert(unary(ts, p) == done(target, p + 1));
        },
    }
    assert(operand(ts, p, level) == done(target, p + 1));
    assert(binary_rest(ts, target, p + 1, level) == done(target, p + 1));
}

/// A name before an equals sign is read as a variable by the rule for
/// what stands left of the sign.
proof fn lemma_target_parses(ts: Seq<TokenView>, p: nat)
    requires
        p < ts.len(),
        ts[p as int].kind is Identifier,
        check(ts, p + 1, TokenTypeView::Equal),
    ensures
        binary(ts, p, Level::Or) == done(ExprView::Variable(ts[p as int], p as usize), p + 1),
{
    lemma_target_parses_at(ts, p, Level::Or);
}

proof fn lemma_primary_parses(ts: Seq<TokenView>, p: nat, e: ExprView)
    requires
        ended(ts),
        written(ts, p, e),
        shaped(e, Rule::Primary),
    ensures
        primary(ts, p) == done(e, p + width(e)),
    decreases e, 6nat,
{
    lemma_written_bounds(ts, p, e);
    match e {
        ExprView::Grouping(inner) => {
            let close = p + 1 + width(*inner);
            lemma_separators_stop(ts[close as int].kind);
            lemma_assignment_parses(ts, p + 1, *inner);
        },
        _ => {},
    }
}

/// The arguments from the `k`th on are read into the list.
proof fn lemma_arguments_rest_parse(ts: Seq<TokenView>, a: nat, list: Seq<ExprView>, k: nat)
    requires
        ended(ts),
        written_list(ts, a, list, list.len()),
        1 <= k <= list.len() <= 255,
        forall|i: int| 0 <= i < list.len() ==> shaped(#[trigger] list[i], Rule::Assignment),
        check(ts, a + list_width(list, list.len()), TokenTypeView::RightParen),
    ensures
        arguments_rest(ts, list.take(k as int), a + list_width(list, k)) == done(
            list,
            a + list_width(list, list.len()),
        ),
    decreases list, list.len() - k,
{
    let here = a + list_width(list, k);
    if k == list.len() {
        assert(list.take(k as int) =~= list);
    } else {
        lemma_list_prefix(ts, a, list, list.len(), k + 1);
        let item = list[k as int];
        assert(shaped(item, Rule::Assignment));
        lemma_written_bounds(ts, here + 1, item);
        let after = a + list_width(list, k + 1);
        assert(after == here + 1 + width(item));
        if k + 1 < list.len() {
            lemma_list_prefix(ts, a, list, list.len(), k + 2);
        }
        lemma_separators_stop(ts[after as int].kind);
        lemma_assignment_parses(ts, here + 1, item);
        assert(list.take(k as int).push(item) =~= list.take((k + 1) as int));
        lemma_arguments_rest_parse(ts, a, list, k + 1);
    }
}

/// The arguments of a call are read into the list.
proof fn lemma_arguments_parse(ts: Seq<TokenView>, a: nat, list: Seq<ExprView>)
    requires
        ended(ts),
        written_list(ts, a, list, list.len()),
        list.len() <= 255,
        forall|i: int| 0 <= i < list.len() ==> shaped(#[trigger] list[i], Rule::Assignment),
        check(ts, a + list_width(list, list.len()), TokenTypeView::RightParen),
    ensures
        arguments(ts, a) == done(list, a + list_width(list, list.len())),
    decreases list, list.len() + 1,
{
    if list.len() == 0 {
        assert(list =~= Seq::<ExprView>::empty());
    } else {
        lemma_list_prefix(ts, a, list, list.len(), 1);
        let first = list[0];
        assert(shaped(first, Rule::Assignment));
        lemma_written_bounds(ts, a, first);
        let after = a + list_width(list, 1);
        if list.len() > 1 {
            lemma_list_prefix(ts, a, list, list.len(), 2);
        }
        lemma_separators_stop(ts[after as int].kind);
        lemma_assignment_parses(ts, a, first);
        assert(seq![first] =~= list.take(1));
        lemma_arguments_rest_parse(ts, a, list, 1);
    }
}

/// What the call rule makes of an expression of its shape is what it
/// makes of the tokens after it, with the expression as the callee.
proof fn lemma_call_reads(ts: Seq<TokenView>, p: nat, e: ExprView)
    requires
        ended(ts),
        written(ts, p, e),
        shaped(e, Rule::Call),
    ensures
        call(ts, p) == call_rest(ts, e, p + width(e)),
    decreases e, 7nat,
{
    lemma_written_bounds(ts, p, e);
    match e {
        ExprView::Call(callee, paren, args) => {
            lemma_call_reads(ts, p, *callee);
            lemma_written_bounds(ts, p, *callee);
            let open = p + width(*callee);
            lemma_arguments_parse(ts, open + 1, args);
            let close = open + 1 + list_width(args, args.len());
            assert(finish_call(ts, *callee, open + 1) == done(e, close + 1));
        },
        _ => {
            lemma_primary_parses(ts, p, e);
        },
    }
}

proof fn lemma_call_parses(ts: Seq<TokenView>, p: nat, e: ExprView)
    requires
        ended(ts),
        written(ts, p, e),
        shaped(e, Rule::Call),
        stops(Rule::Call, ts[(p + width(e)) as int].kind),
    ensures
        call(ts, p) == done(e, p + width(e)),
    decreases e, 8nat,
{
    lemma_call_reads(ts, p, e);
}

proof fn lemma_unary_parses(ts: Seq<TokenView>, p: nat, e: ExprView)
    requires
        ended(ts),
        written(ts, p, e),
        shaped(e, Rule::Unary),
        stops(Rule::Unary, ts[(p + width(e)) as int].kind),
    ensures
        unary(ts, p) == done(e, p + width(e)),
    decreases e, 9nat,
{
    lemma_written_bounds(ts, p, e);
    match e {
        ExprView::Unary(op, right) => {
            lemma_unary_parses(ts, p + 1, *right);
        },
        _ => {
            lemma_call_parses(ts, p, e);
        },
    }
}

proof fn lemma_operand_parses(ts: Seq<TokenView>, p: nat, e: ExprView, level: Level)
    requires
        ended(ts),
        written(ts, p, e),
        shaped(e, below(Rule::Binary(level))),
        stops(below(Rule::Binary(level)), ts[(p + width(e)) as int].kind),
    ensures
        operand(ts, p, level) == done(e, p + width(e)),
    decreases e, 10 + 3 * rank(level),
{
    match lower(level) {
        None => lemma_unary_parses(ts, p, e),
        Some(b) => lemma_binary_parses(ts, p, e, b),
    }
}

/// What a binary rule makes of an expression of its shape is what it
/// makes of the tokens after it, with the expression as the left operand.
proof fn lemma_binary_reads(ts: Seq<TokenView>, p: nat, e: ExprView, level: Level)
    requires
        ended(ts),
        written(ts, p, e),
        shaped(e, Rule::Binary(level)),
        stops(below(Rule::Binary(level)), ts[(p + width(e)) as int].kind),
    ensures
        binary(ts, p, level) == binary_rest(ts, e, p + width(e), level),
    decreases e, 10 + 3 * rank(level) + 1,
{
    lemma_written_bounds(ts, p, e);
    match e {
        ExprView::Binary(left, op, right) => {
            if !(level is And || level is Or) && operator_of(level, op.kind) {
                let at = p + width(*left);
                lemma_written_bounds(ts, p, *left);
                lemma_operator_stops_operand(level, op.kind);
                lemma_binary_reads(ts, p, *left, level);
                lemma_written_bounds(ts, at + 1, *right);
                lemma_operand_parses(ts, at + 1, *right, level);
                assert(node(level, *left, ts[at as int], *right) == e);
            } else {
                lemma_operand_parses(ts, p, e, level);
            }
        },
        ExprView::Logical(left, op, right) => {
            if (level is And || level is Or) && operator_of(level, op.kind) {
                let at = p + width(*left);
                lemma_written_bounds(ts, p, *left);
                lemma_operator_stops_operand(level, op.kind);
                lemma_binary_reads(ts, p, *left, level);
                lemma_written_bounds(ts, at + 1, *right);
                lemma_operand_parses(ts, at + 1, *right, level);
                assert(node(level, *left, ts[at as int], *right) == e);
            } else {
                lemma_operand_parses(ts, p, e, level);
            }
        },
        _ => {
            lemma_operand_parses(ts, p, e, level);
        },
    }
}

proof fn lemma_binary_parses(ts: Seq<TokenView>, p: nat, e: ExprView, level: Level)
    requires
        ended(ts),
        written(ts, p, e),
        shaped(e, Rule::Binary(level)),
        stops(Rule::Binary(level), ts[(p + width(e)) as int].kind),
    ensures
        binary(ts, p, level) == done(e, p + width(e)),
    decreases e, 10 + 3 * rank(level) + 2,
{
    lemma_written_bounds(ts, p, e);
    lemma_stops_below(Rule::Binary(level), ts[(p + width(e)) as int].kind);
    lemma_binary_reads(ts, p, e, level);
    reveal_with_fuel(operator_up_to, 1);
}

proof fn lemma_assignment_parses(ts: Seq<TokenView>, p: nat, e: ExprView)
    requires
        ended(ts),
        written(ts, p, e),
        shaped(e, Rule::Assignment),
        stops(Rule::Assignment, ts[(p + width(e)) as int].kind),
    ensures
        assignment(ts, p) == done(e, p + width(e)),
        expression(ts, p) == done(e, p + width(e)),
    decreases e, 40nat,
{
    lemma_written_bounds(ts, p, e);
    match e {
        ExprView::Assign(name, value, id) => {
            lemma_target_parses(ts, p);
            lemma_written_bounds(ts, p + 2, *value);
            lemma_assignment_parses(ts, p + 2, *value);
        },
        _ => {
            lemma_binary_parses(ts, p, e, Level::Or);
        },
    }
}

/// Every expression that the grammar derives parses to itself: where the
/// tokens from `p` on write an expression of the shape that the rules
/// derive, and the token after them is none with which the expression
/// could go on, the expression rule reads just these tokens and gives
/// just this expression.
pub proof fn law_expression_parses_to_itself(ts: Seq<TokenView>, p: nat, e: ExprView)
    requires
        ended(ts),
        written(ts, p, e),
        shaped(e, Rule::Assignment),
        stops(Rule::Assignment, ts[(p + width(e)) as int].kind),
    ensures
        expression(ts, p) == done(e, p + width(e)),
{
    lemma_assignment_parses(ts, p, e);
}

/// An expression that is written with its closing token after it is read
/// up to that token.
proof fn lemma_closed_parses(ts: Seq<TokenView>, p: nat, e: ExprView, closing: TokenTypeView)
    requires
        ended(ts),
        written_closed(ts, p, e, closing),
        closing is Semicolon || closing is RightParen,
    ensures
        expression(ts, p) == done(e, p + width(e)),
        p + width(e) + 1 < ts.len(),
        !at_end(ts, p),
        starts_expression(ts[p as int].kind),
{
    lemma_written_bounds(ts, p, e);
    lemma_separators_stop(ts[(p + width(e)) as int].kind);
    lemma_assignment_parses(ts, p, e);
}

/// A clause that is written is read with its closing token.
proof fn lemma_clause_parses(
    ts: Seq<TokenView>,
    p: nat,
    e: Option<ExprView>,
    closing: TokenTypeView,
    msg: Seq<char>,
)
    requires
        ended(ts),
        written_clause(ts, p, e, closing),
        closing is Semicolon || closing is RightParen,
    ensures
        clause(ts, p, closing, msg) == done(e, p + clause_width(e)),
        p + clause_width(e) < ts.len(),
{
    match e {
        Some(e) => {
            lemma_closed_parses(ts, p, e, closing);
        },
        None => {},
    }
}

proof fn lemma_expression_then_semicolon_parses(
    ts: Seq<TokenView>,
    p: nat,
    e: ExprView,
    msg: Seq<char>,
)
    requires
        ended(ts),
        written_closed(ts, p, e, TokenTypeView::Semicolon),
    ensures
        expression_then_semicolon(ts, p, msg) == done(e, p + width(e) + 1),
        p + width(e) + 1 < ts.len(),
        !at_end(ts, p),
        starts_expression(ts[p as int].kind),
{
    lemma_closed_parses(ts, p, e, TokenTypeView::Semicolon);
}

proof fn lemma_expression_statement_parses(ts: Seq<TokenView>, p: nat, e: ExprView)
    requires
        ended(ts),
        written_sentence(ts, p, Sentence::Expression(e)),
    ensures
        expression_statement(ts, p) == done(
            meaning(Sentence::Expression(e)),
            p + sentence_width(Sentence::Expression(e)),
        ),
        statement(ts, p) == expression_statement(ts, p),
        declaration(ts, p) == expression_statement(ts, p),
{
    lemma_expression_then_semicolon_parses(ts, p, e, "Expect ';' after value."@);
}

proof fn lemma_print_parses(ts: Seq<TokenView>, p: nat, e: ExprView)
    requires
        ended(ts),
        written_sentence(ts, p, Sentence::Print(e)),
    ensures
        statement(ts, p) == done(
            meaning(Sentence::Print(e)),
            p + sentence_width(Sentence::Print(e)),
        ),
{
    lemma_expression_then_semicolon_parses(ts, p + 1, e, "Expect ';' after value."@);
    assert(print_statement(ts, p + 1) == done(StmtView::Print(e), p + width(e) + 2));
}

proof fn lemma_return_parses(ts: Seq<TokenView>, p: nat, keyword: TokenView, value: Option<ExprView>)
    requires
        ended(ts),
        written_sentence(ts, p, Sentence::Return(keyword, value)),
    ensures
        statement(ts, p) == done(
            meaning(Sentence::Return(keyword, value)),
            p + sentence_width(Sentence::Return(keyword, value)),
        ),
{
    match value {
        Some(e) => {
            lemma_expression_then_semicolon_parses(
                ts,
                p + 1,
                e,
                "Expect ';' after return value."@,
            );
            assert(return_statement(ts, p + 1, keyword) == done(
                StmtView::Return(keyword, e),
                p + width(e) + 2,
            ));
        },
        None => {
            assert(return_statement(ts, p + 1, keyword) == done(
                StmtView::Return(keyword, ExprView::Literal(LiteralView::Nil)),
                p + 2,
            ));
        },
    }
}

/// A declaration of a variable that is written is read by its rule, from
/// the token after `var` on.
proof fn lemma_var_parses(ts: Seq<TokenView>, p: nat, name: TokenView, init: Option<ExprView>)
    requires
        ended(ts),
        written_sentence(ts, p, Sentence::Var(name, init)),
    ensures
        var_declaration(ts, p + 1) == done(
            meaning(Sentence::Var(name, init)),
            p + sentence_width(Sentence::Var(name, init)),
        ),
        declaration(ts, p) == var_declaration(ts, p + 1),
{
    match init {
        Some(e) => {
            lemma_closed_parses(ts, p + 3, e, TokenTypeView::Semicolon);
            assert(initializer(ts, p + 2) == done(e, p + 3 + width(e)));
        },
        None => {
            assert(initializer(ts, p + 2) == done(
                ExprView::Literal(LiteralView::Nil),
                p + 2,
            ));
        },
    }
}

/// The parameters from the `k`th on are read into the list.
proof fn lemma_parameters_rest_parse(ts: Seq<TokenView>, a: nat, params: Seq<TokenView>, k: nat)
    requires
        ended(ts),
        written_params(ts, a, params, params.len()),
        1 <= k <= params.len() <= 255,
        check(ts, a + params_width(params.len()), TokenTypeView::RightParen),
    ensures
        parameters_rest(ts, params.take(k as int), a + params_width(k)) == done(
            params,
            a + params_width(params.len()),
        ),
    decreases params.len() - k,
{
    if k == params.len() {
        assert(params.take(k as int) =~= params);
    } else {
        lemma_params_prefix(ts, a, params, params.len(), k + 1);
        assert(params.take(k as int).push(params[k as int]) =~= params.take((k + 1) as int));
        lemma_parameters_rest_parse(ts, a, params, k + 1);
    }
}

/// Parameters that are written are written up to each of their places.
proof fn lemma_params_prefix(ts: Seq<TokenView>, p: nat, params: Seq<TokenView>, n: nat, k: nat)
    requires
        written_params(ts, p, params, n),
        k <= n <= params.len(),
    ensures
        written_params(ts, p, params, k),
    decreases n - k,
{
    if k < n {
        lemma_params_prefix(ts, p, params, (n - 1) as nat, k);
    }
}

/// The head of a function that is written is read by its rule, from the
/// token after `fun` on.
proof fn lemma_signature_parses(
    ts: Seq<TokenView>,
    p: nat,
    name: TokenView,
    params: Seq<TokenView>,
    body: Seq<Sentence>,
)
    requires
        ended(ts),
        written_sentence(ts, p, Sentence::Function(name, params, body)),
    ensures
        signature(ts, p + 1) == done(
            Signature { name, params },
            p + 5 + params_width(params.len()),
        ),
{
    let a = p + 3;
    if params.len() == 0 {
        assert(params =~= Seq::<TokenView>::empty());
        assert(parameters(ts, a) == done(params, a));
    } else {
        lemma_params_prefix(ts, a, params, params.len(), 1);
        assert(seq![params[0]] =~= params.take(1));
        lemma_parameters_rest_parse(ts, a, params, 1);
        assert(parameters(ts, a) == done(params, a + params_width(params.len())));
    }
}

/// A statement as it is written: the trees that the rules for
/// declarations and statements derive, before a `for` is turned into the
/// `while` that it stands for.
pub enum Sentence {
    /// expression ";"
    Expression(ExprView),
    /// "print" expression ";"
    Print(ExprView),
    /// "var" IDENT ("=" expression)? ";", with the token of the name
    Var(TokenView, Option<ExprView>),
    /// "{" declaration* "}"
    Block(Seq<Sentence>),
    /// "if" "(" expression ")" statement ("else" statement)?
    If(ExprView, Box<Sentence>, Option<Box<Sentence>>),
    /// "while" "(" expression ")" statement
    While(ExprView, Box<Sentence>),
    /// "for" "(" (varDecl | exprStmt | ";") expression? ";" expression?
    /// ")" statement
    For(Option<Box<Sentence>>, Option<ExprView>, Option<ExprView>, Box<Sentence>),
    /// "fun" IDENT "(" params? ")" "{" declaration* "}"
    Function(TokenView, Seq<TokenView>, Seq<Sentence>),
    /// "return" expression? ";", with the token of the keyword
    Return(TokenView, Option<ExprView>),
}

/// The expression that is written, or `nil` where none is.
pub open spec fn or_nil(e: Option<ExprView>) -> ExprView {
    match e {
        Some(e) => e,
        None => ExprView::Literal(LiteralView::Nil),
    }
}

/// The statement that a sentence means: the tree that the parser builds
/// for it.
pub open spec fn meaning(s: Sentence) -> StmtView
    decreases s,
{
    match s {
        Sentence::Expression(e) => StmtView::Expression(e),
        Sentence::Print(e) => StmtView::Print(e),
        Sentence::Var(name, init) => StmtView::Var(name.kind.lexeme(), or_nil(init)),
        Sentence::Block(list) => StmtView::Block(
            Seq::new(
                list.len(),
                |i: int|
                    if 0 <= i < list.len() {
                        meaning(list[i])
                    } else {
                        StmtView::Empty
                    },
            ),
        ),
        Sentence::If(cond, first, second) => StmtView::If(
            cond,
            Box::new(meaning(*first)),
            Box::new(
                match second {
                    Some(other) => meaning(*other),
                    None => StmtView::Empty,
                },
            ),
        ),
        Sentence::While(cond, body) => StmtView::While(cond, Box::new(meaning(*body))),
        Sentence::For(init, cond, inc, body) => desugar_for(
            match init {
                Some(first) => Some(meaning(*first)),
                None => None,
            },
            cond,
            inc,
            meaning(*body),
        ),
        Sentence::Function(name, params, body) => StmtView::Function(
            name,
            params,
            Seq::new(
                body.len(),
                |i: int|
                    if 0 <= i < body.len() {
                        meaning(body[i])
                    } else {
                        StmtView::Empty
                    },
            ),
        ),
        Sentence::Return(keyword, value) => StmtView::Return(keyword, or_nil(value)),
    }
}

/// The statements that the sentences of a list mean.
pub open spec fn meanings(list: Seq<Sentence>) -> Seq<StmtView> {
    Seq::new(list.len(), |i: int| meaning(list[i]))
}

/// The number of tokens that write an expression where one may stand,
/// with the token that closes it.
pub open spec fn clause_width(e: Option<ExprView>) -> nat {
    match e {
        Some(e) => width(e) + 1,
        None => 1,
    }
}

/// The number of tokens that write `n` parameters, with the commas between
/// them.
pub open spec fn params_width(n: nat) -> nat {
    if n == 0 {
        0
    } else {
        (2 * n - 1) as nat
    }
}

/// The number of tokens that write the sentence.
pub open spec fn sentence_width(s: Sentence) -> nat
    decreases s, 0nat,
{
    match s {
        Sentence::Expression(e) => width(e) + 1,
        Sentence::Print(e) => width(e) + 2,
        Sentence::Var(_, init) => match init {
            Some(e) => width(e) + 4,
            None => 3,
        },
        Sentence::Block(list) => sentences_width(list, list.len()) + 2,
        Sentence::If(cond, first, second) => width(cond) + 3 + sentence_width(*first) + match second {
            Some(other) => sentence_width(*other) + 1,
            None => 0,
        },
        Sentence::While(cond, body) => width(cond) + 3 + sentence_width(*body),
        Sentence::For(init, cond, inc, body) => 2 + match init {
            Some(first) => sentence_width(*first),
            None => 1,
        } + clause_width(cond) + clause_width(inc) + sentence_width(*body),
        Sentence::Function(_, params, body) => 5 + params_width(params.len()) + sentences_width(
            body,
            body.len(),
        ) + 1,
        Sentence::Return(_, value) => match value {
            Some(e) => width(e) + 2,
            None => 2,
        },
    }
}

/// The number of tokens that write the first `n` sentences of a list.
pub open spec fn sentences_width(list: Seq<Sentence>, n: nat) -> nat
    decreases list, n,
{
    if n == 0 || n > list.len() {
        0
    } else {
        sentences_width(list, (n - 1) as nat) + sentence_width(list[n - 1])
    }
}

/// Whether an `else` after the sentence would belong to an `if` in it.
pub open spec fn open_if(s: Sentence) -> bool
    decreases s,
{
    match s {
        Sentence::If(_, _, second) => match second {
            Some(other) => open_if(*other),
            None => true,
        },
        Sentence::While(_, body) => open_if(*body),
        Sentence::For(_, _, _, body) => open_if(*body),
        _ => false,
    }
}

/// Whether the sentence is a statement: no declaration of a variable or
/// of a function.
pub open spec fn is_statement(s: Sentence) -> bool {
    !(s is Var) && !(s is Function)
}

/// Whether the tokens from `p` on write an expression that the grammar
/// derives, and after it a token of the kind `closing`.
pub open spec fn written_closed(ts: Seq<TokenView>, p: nat, e: ExprView, closing: TokenTypeView)
    -> bool {
    written(ts, p, e) && shaped(e, Rule::Assignment) && check(ts, p + width(e), closing)
}

/// Whether the tokens from `p` on write an expression with the token of
/// the kind `closing` after it, or that token alone.
pub open spec fn written_clause(
    ts: Seq<TokenView>,
    p: nat,
    e: Option<ExprView>,
    closing: TokenTypeView,
) -> bool {
    match e {
        Some(e) => written_closed(ts, p, e, closing),
        None => check(ts, p, closing),
    }
}

/// Whether the tokens from `p` on write the first `n` parameters of a
/// list, with commas between them.
pub open spec fn written_params(ts: Seq<TokenView>, p: nat, params: Seq<TokenView>, n: nat)
    -> bool
    decreases n,
{
    if n == 0 || n > params.len() {
        true
    } else {
        let at = p + 2 * (n - 1);
        &&& written_params(ts, p, params, (n - 1) as nat)
        &&& n >= 2 ==> check(ts, (at - 1) as nat, TokenTypeView::Comma)
        &&& check(ts, at as nat, identifier())
        &&& ts[at] == params[n - 1]
    }
}

/// Whether the tokens from `p` on write the sentence, as the grammar
/// derives it: the keywords, brackets and semicolons stand where they
/// belong, the expressions are such as the grammar derives, and an `if`
/// with an `else` has no open `if` before the `else`.
pub open spec fn written_sentence(ts: Seq<TokenView>, p: nat, s: Sentence) -> bool
    decreases s, 0nat,
{
    match s {
        Sentence::Expression(e) => written_closed(ts, p, e, TokenTypeView::Semicolon),
        Sentence::Print(e) => check(ts, p, TokenTypeView::Print) && written_closed(
            ts,
            p + 1,
            e,
            TokenTypeView::Semicolon,
        ),
        Sentence::Var(name, init) => check(ts, p, TokenTypeView::Var) && check(
            ts,
            p + 1,
            identifier(),
        ) && ts[(p + 1) as int] == name && match init {
            Some(e) => check(ts, p + 2, TokenTypeView::Equal) && written_closed(
                ts,
                p + 3,
                e,
                TokenTypeView::Semicolon,
            ),
            None => check(ts, p + 2, TokenTypeView::Semicolon),
        },
        Sentence::Block(list) => check(ts, p, TokenTypeView::LeftBrace) && written_sentences(
            ts,
            p + 1,
            list,
            list.len(),
        ) && check(ts, p + 1 + sentences_width(list, list.len()), TokenTypeView::RightBrace),
        Sentence::If(cond, first, second) => {
            let then_at = p + 3 + width(cond);
            let else_at = then_at + sentence_width(*first);
            &&& check(ts, p, TokenTypeView::If)
            &&& check(ts, p + 1, TokenTypeView::LeftParen)
            &&& written_closed(ts, p + 2, cond, TokenTypeView::RightParen)
            &&& is_statement(*first)
            &&& written_sentence(ts, then_at, *first)
            &&& match second {
                Some(other) => !open_if(*first) && check(ts, else_at, TokenTypeView::Else)
                    && is_statement(*other) && written_sentence(ts, else_at + 1, *other),
                None => true,
            }
        },
        Sentence::While(cond, body) => check(ts, p, TokenTypeView::While) && check(
            ts,
            p + 1,
            TokenTypeView::LeftParen,
        ) && written_closed(ts, p + 2, cond, TokenTypeView::RightParen) && is_statement(*body)
            && written_sentence(ts, p + 3 + width(cond), *body),
        Sentence::For(init, cond, inc, body) => {
            let cond_at = p + 2 + match init {
                Some(first) => sentence_width(*first),
                None => 1,
            };
            let inc_at = cond_at + clause_width(cond);
            let body_at = inc_at + clause_width(inc);
            &&& check(ts, p, TokenTypeView::For)
            &&& check(ts, p + 1, TokenTypeView::LeftParen)
            &&& match init {
                Some(first) => (*first is Var || *first is Expression) && written_sentence(
                    ts,
                    p + 2,
                    *first,
                ),
                None => check(ts, p + 2, TokenTypeView::Semicolon),
            }
            &&& written_clause(ts, cond_at, cond, TokenTypeView::Semicolon)
            &&& written_clause(ts, inc_at, inc, TokenTypeView::RightParen)
            &&& is_statement(*body)
            &&& written_sentence(ts, body_at, *body)
        },
        Sentence::Function(name, params, body) => {
            let close = p + 3 + params_width(params.len());
            &&& check(ts, p, TokenTypeView::Fun)
            &&& check(ts, p + 1, identifier())
            &&& ts[(p + 1) as int] == name
            &&& check(ts, p + 2, TokenTypeView::LeftParen)
            &&& params.len() <= 255
            &&& written_params(ts, p + 3, params, params.len())
            &&& check(ts, close, TokenTypeView::RightParen)
            &&& check(ts, close + 1, TokenTypeView::LeftBrace)
            &&& written_sentences(ts, close + 2, body, body.len())
            &&& check(
                ts,
                close + 2 + sentences_width(body, body.len()),
                TokenTypeView::RightBrace,
            )
        },
        Sentence::Return(keyword, value) => check(ts, p, TokenTypeView::Return) && ts[p as int]
            == keyword && written_clause(ts, p + 1, value, TokenTypeView::Semicolon),
    }
}

/// Whether the tokens from `p` on write the first `n` sentences of a
/// list, one after the other.
pub open spec fn written_sentences(ts: Seq<TokenView>, p: nat, list: Seq<Sentence>, n: nat) -> bool
    decreases list, n,
{
    if n == 0 || n > list.len() {
        true
    } else {
        written_sentences(ts, p, list, (n - 1) as nat) && written_sentence(
            ts,
            p + sentences_width(list, (n - 1) as nat),
            list[n - 1],
        )
    }
}

/// Whether a sentence may start with a token of the kind.
pub open spec fn starts_sentence(kind: TokenTypeView) -> bool {
    starts_expression(kind) || kind is Print || kind is Var || kind is LeftBrace || kind is If
        || kind is While || kind is For || kind is Fun || kind is Return
}

/// The tokens that write a sentence are tokens before the last, and the
/// first is one with which a sentence may start.
proof fn lemma_sentence_bounds(ts: Seq<TokenView>, p: nat, s: Sentence)
    requires
        ended(ts),
        written_sentence(ts, p, s),
    ensures
        p + sentence_width(s) < ts.len(),
        !at_end(ts, p),
        starts_sentence(ts[p as int].kind),
        s is Expression ==> starts_expression(ts[p as int].kind),
    decreases s, 0nat,
{
    match s {
        Sentence::Expression(e) => {
            lemma_closed_parses(ts, p, e, TokenTypeView::Semicolon);
        },
        Sentence::Print(e) => {
            lemma_closed_parses(ts, p + 1, e, TokenTypeView::Semicolon);
        },
        Sentence::Var(_, init) => {
            match init {
                Some(e) => lemma_closed_parses(ts, p + 3, e, TokenTypeView::Semicolon),
                None => {},
            }
        },
        Sentence::Block(_) => {},
        Sentence::If(cond, first, second) => {
            lemma_sentence_bounds(ts, p + 3 + width(cond), *first);
            match second {
                Some(other) => {
                    lemma_sentence_bounds(
                        ts,
                        p + 3 + width(cond) + sentence_width(*first) + 1,
                        *other,
                    );
                },
                None => {},
            }
        },
        Sentence::While(cond, body) => {
            lemma_sentence_bounds(ts, p + 3 + width(cond), *body);
        },
        Sentence::For(init, cond, inc, body) => {
            let cond_at = p + 2 + match init {
                Some(first) => sentence_width(*first),
                None => 1,
            };
            lemma_sentence_bounds(ts, cond_at + clause_width(cond) + clause_width(inc), *body);
        },
        Sentence::Function(_, _, _) => {},
        Sentence::Return(_, value) => {
            match value {
                Some(e) => lemma_closed_parses(ts, p + 1, e, TokenTypeView::Semicolon),
                None => {},
            }
        },
    }
}

/// Sentences that are written are written up to each of their places.
proof fn lemma_sentences_prefix(ts: Seq<TokenView>, p: nat, list: Seq<Sentence>, n: nat, k: nat)
    requires
        written_sentences(ts, p, list, n),
        k <= n <= list.len(),
    ensures
        written_sentences(ts, p, list, k),
    decreases n - k,
{
    if k < n {
        lemma_sentences_prefix(ts, p, list, (n - 1) as nat, k);
    }
}

/// The sentence at the place `k` of a list that is written: where it is
/// written, and that no `else` follows it.
proof fn lemma_sentence_in_list(
    ts: Seq<TokenView>,
    a: nat,
    list: Seq<Sentence>,
    k: nat,
    closing: TokenTypeView,
)
    requires
        ended(ts),
        written_sentences(ts, a, list, list.len()),
        k < list.len(),
        closing is RightBrace || closing is EOF,
        closing is RightBrace ==> check(ts, a + sentences_width(list, list.len()), closing),
        closing is EOF ==> at_end(ts, a + sentences_width(list, list.len())),
    ensures
        written_sentence(ts, a + sentences_width(list, k), list[k as int]),
        sentences_width(list, k + 1) == sentences_width(list, k) + sentence_width(list[k as int]),
        !check(ts, a + sentences_width(list, k + 1), TokenTypeView::Else),
        a + sentences_width(list, k + 1) < ts.len(),
        !at_end(ts, a + sentences_width(list, k)),
        !check(ts, a + sentences_width(list, k), TokenTypeView::RightBrace),
{
    lemma_sentences_prefix(ts, a, list, list.len(), k + 1);
    lemma_sentence_bounds(ts, a + sentences_width(list, k), list[k as int]);
    if k + 1 < list.len() {
        lemma_sentences_prefix(ts, a, list, list.len(), k + 2);
        lemma_sentence_bounds(ts, a + sentences_width(list, k + 1), list[(k + 1) as int]);
    }
}

proof fn lemma_block_statement_parses(ts: Seq<TokenView>, p: nat, s: Sentence)
    requires
        ended(ts),
        written_sentence(ts, p, s),
        s is Block,
    ensures
        block_statement(ts, p + 1) == done(meaning(s), p + sentence_width(s)),
    decreases s, 0nat,
{
    match s {
        Sentence::Block(list) => {
            lemma_block_parses(ts, p + 1, list, 0);
            assert(list.take(0) =~= Seq::<Sentence>::empty());
            assert(meanings(list.take(0)) =~= Seq::<StmtView>::empty());
            assert(block(ts, p + 1) == done(
                meanings(list),
                p + 2 + sentences_width(list, list.len()),
            ));
            assert(meaning(s) == StmtView::Block(meanings(list))) by {
                assert(meaning(s)->Block_0 =~= meanings(list));
            }
        },
        _ => {},
    }
}

proof fn lemma_if_parses(ts: Seq<TokenView>, p: nat, s: Sentence)
    requires
        ended(ts),
        written_sentence(ts, p, s),
        s is If,
        open_if(s) ==> !check(ts, p + sentence_width(s), TokenTypeView::Else),
    ensures
        if_statement(ts, p + 1) == done(meaning(s), p + sentence_width(s)),
    decreases s, 0nat,
{
    match s {
        Sentence::If(cond, first, second) => {
            lemma_closed_parses(ts, p + 2, cond, TokenTypeView::RightParen);
            let then_at = p + 3 + width(cond);
            let else_at = then_at + sentence_width(*first);
            assert(condition(
                ts,
                p + 1,
                "Expect '(' after 'if'."@,
                "Expect ')' after if condition."@,
            ) == done(cond, then_at));
            lemma_sentence_bounds(ts, then_at, *first);
            lemma_statement_parses(ts, then_at, *first);
            assert(statement(ts, then_at) == done(meaning(*first), else_at));
            match second {
                Some(other) => {
                    lemma_sentence_bounds(ts, else_at + 1, *other);
                    lemma_statement_parses(ts, else_at + 1, *other);
                    assert(else_branch(ts, else_at) == done(
                        meaning(*other),
                        else_at + 1 + sentence_width(*other),
                    ));
                },
                None => {
                    assert(else_branch(ts, else_at) == done(StmtView::Empty, else_at));
                },
            }
        },
        _ => {},
    }
}

proof fn lemma_while_parses(ts: Seq<TokenView>, p: nat, s: Sentence)
    requires
        ended(ts),
        written_sentence(ts, p, s),
        s is While,
        open_if(s) ==> !check(ts, p + sentence_width(s), TokenTypeView::Else),
    ensures
        while_statement(ts, p + 1) == done(meaning(s), p + sentence_width(s)),
    decreases s, 0nat,
{
    match s {
        Sentence::While(cond, body) => {
            lemma_closed_parses(ts, p + 2, cond, TokenTypeView::RightParen);
            let body_at = p + 3 + width(cond);
            assert(condition(
                ts,
                p + 1,
                "Expect '(' after 'while'."@,
                "Expect ')' after while condition."@,
            ) == done(cond, body_at));
            lemma_sentence_bounds(ts, body_at, *body);
            lemma_statement_parses(ts, body_at, *body);
        },
        _ => {},
    }
}

/// The clauses of a `for` that is written are read by their rule.
proof fn lemma_for_clauses_parse(ts: Seq<TokenView>, p: nat, s: Sentence)
    requires
        ended(ts),
        written_sentence(ts, p, s),
        s is For,
    ensures
        for_clauses(ts, p + 1) == done(
            ForClauses {
                initializer: match s->For_0 {
                    Some(first) => Some(meaning(*first)),
                    None => None,
                },
                condition: s->For_1,
                increment: s->For_2,
            },
            p + 2 + match s->For_0 {
                Some(first) => sentence_width(*first),
                None => 1,
            } + clause_width(s->For_1) + clause_width(s->For_2),
        ),
{
    match s {
        Sentence::For(init, cond, inc, body) => {
            let init_meaning = match init {
                Some(first) => Some(meaning(*first)),
                None => None,
            };
            let cond_at = p + 2 + match init {
                Some(first) => sentence_width(*first),
                None => 1,
            };
            let inc_at = cond_at + clause_width(cond);
            match init {
                Some(first) => {
                    lemma_sentence_bounds(ts, p + 2, *first);
                    match *first {
                        Sentence::Var(name, value) => {
                            lemma_var_parses(ts, p + 2, name, value);
                        },
                        Sentence::Expression(e) => {
                            lemma_expression_statement_parses(ts, p + 2, e);
                        },
                        _ => {},
                    }
                },
                None => {},
            }
            assert(for_initializer(ts, p + 2) == done(init_meaning, cond_at));
            lemma_clause_parses(
                ts,
                cond_at,
                cond,
                TokenTypeView::Semicolon,
                "Expect ';' after loop condition."@,
            );
            lemma_clause_parses(
                ts,
                inc_at,
                inc,
                TokenTypeView::RightParen,
                "Expect ')' after for clauses."@,
            );
        },
        _ => {},
    }
}

proof fn lemma_for_parses(ts: Seq<TokenView>, p: nat, s: Sentence)
    requires
        ended(ts),
        written_sentence(ts, p, s),
        s is For,
        open_if(s) ==> !check(ts, p + sentence_width(s), TokenTypeView::Else),
    ensures
        for_statement(ts, p + 1) == done(meaning(s), p + sentence_width(s)),
    decreases s, 0nat,
{
    lemma_for_clauses_parse(ts, p, s);
    match s {
        Sentence::For(init, cond, inc, body) => {
            let body_at = p + 2 + match init {
                Some(first) => sentence_width(*first),
                None => 1,
            } + clause_width(cond) + clause_width(inc);
            lemma_sentence_bounds(ts, body_at, *body);
            lemma_statement_parses(ts, body_at, *body);
        },
        _ => {},
    }
}

/// A statement that is written is read by the rule for statements.
proof fn lemma_statement_parses(ts: Seq<TokenView>, p: nat, s: Sentence)
    requires
        ended(ts),
        written_sentence(ts, p, s),
        is_statement(s),
        open_if(s) ==> !check(ts, p + sentence_width(s), TokenTypeView::Else),
    ensures
        statement(ts, p) == done(meaning(s), p + sentence_width(s)),
    decreases s, 1nat,
{
    lemma_sentence_bounds(ts, p, s);
    match s {
        Sentence::Expression(e) => {
            lemma_expression_statement_parses(ts, p, e);
        },
        Sentence::Print(e) => {
            lemma_print_parses(ts, p, e);
        },
        Sentence::Return(keyword, value) => {
            lemma_return_parses(ts, p, keyword, value);
        },
        Sentence::Block(_) => {
            lemma_block_statement_parses(ts, p, s);
        },
        Sentence::If(_, _, _) => {
            lemma_if_parses(ts, p, s);
        },
        Sentence::While(_, _) => {
            lemma_while_parses(ts, p, s);
        },
        Sentence::For(_, _, _, _) => {
            lemma_for_parses(ts, p, s);
        },
        _ => {},
    }
}

proof fn lemma_function_parses(ts: Seq<TokenView>, p: nat, s: Sentence)
    requires
        ended(ts),
        written_sentence(ts, p, s),
        s is Function,
    ensures
        function(ts, p + 1) == done(meaning(s), p + sentence_width(s)),
    decreases s, 0nat,
{
    match s {
        Sentence::Function(name, params, body) => {
            lemma_signature_parses(ts, p, name, params, body);
            let open = p + 5 + params_width(params.len());
            lemma_block_parses(ts, open, body, 0);
            assert(body.take(0) =~= Seq::<Sentence>::empty());
            assert(meanings(body.take(0)) =~= Seq::<StmtView>::empty());
            assert(block(ts, open) == done(
                meanings(body),
                open + sentences_width(body, body.len()) + 1,
            ));
            assert(meaning(s) == StmtView::Function(name, params, meanings(body))) by {
                assert(meaning(s)->Function_2 =~= meanings(body));
            }
        },
        _ => {},
    }
}

/// A declaration that is written is read by the rule for declarations.
proof fn lemma_declaration_parses(ts: Seq<TokenView>, p: nat, s: Sentence)
    requires
        ended(ts),
        written_sentence(ts, p, s),
        open_if(s) ==> !check(ts, p + sentence_width(s), TokenTypeView::Else),
    ensures
        declaration(ts, p) == done(meaning(s), p + sentence_width(s)),
    decreases s, 2nat,
{
    lemma_sentence_bounds(ts, p, s);
    match s {
        Sentence::Var(name, init) => {
            lemma_var_parses(ts, p, name, init);
        },
        Sentence::Function(_, _, _) => {
            lemma_function_parses(ts, p, s);
        },
        _ => {
            lemma_statement_parses(ts, p, s);
        },
    }
}

/// The declarations of a block from the `k`th on are read into the list.
proof fn lemma_block_parses(ts: Seq<TokenView>, a: nat, list: Seq<Sentence>, k: nat)
    requires
        ended(ts),
        written_sentences(ts, a, list, list.len()),
        k <= list.len(),
        check(ts, a + sentences_width(list, list.len()), TokenTypeView::RightBrace),
    ensures
        block_rest(ts, meanings(list.take(k as int)), a + sentences_width(list, k)) == done(
            meanings(list),
            a + sentences_width(list, list.len()) + 1,
        ),
    decreases list, list.len() - k,
{
    if k == list.len() {
        assert(list.take(k as int) =~= list);
    } else {
        lemma_sentence_in_list(ts, a, list, k, TokenTypeView::RightBrace);
        let item = list[k as int];
        let here = a + sentences_width(list, k);
        lemma_declaration_parses(ts, here, item);
        assert(meanings(list.take(k as int)).push(meaning(item)) =~= meanings(
            list.take((k + 1) as int),
        ));
        lemma_block_parses(ts, a, list, k + 1);
    }
}

/// The declarations of a program from the `k`th on are read into the
/// statements, and no error is met.
proof fn lemma_program_parses(
    ts: Seq<TokenView>,
    list: Seq<Sentence>,
    k: nat,
    errors: Seq<crate::errors::ErrorView>,
)
    requires
        ended(ts),
        written_sentences(ts, 0, list, list.len()),
        k <= list.len(),
        at_end(ts, sentences_width(list, list.len())),
    ensures
        program(
            ts,
            sentences_width(list, k),
            Program { statements: meanings(list.take(k as int)), errors },
        ) == (Program { statements: meanings(list), errors }),
    decreases list.len() - k,
{
    if k == list.len() {
        assert(list.take(k as int) =~= list);
    } else {
        lemma_sentence_in_list(ts, 0, list, k, TokenTypeView::EOF);
        let item = list[k as int];
        let here = sentences_width(list, k);
        lemma_declaration_parses(ts, here, item);
        assert(meanings(list.take(k as int)).push(meaning(item)) =~= meanings(
            list.take((k + 1) as int),
        ));
        lemma_program_parses(ts, list, k + 1, errors);
    }
}

/// Every program that the grammar derives parses to exactly one list of
/// statements, with no error: where the tokens write a list of
/// declarations as the grammar derives them and then end, parsing gives
/// the statements that these declarations mean.
pub proof fn law_program_parses_to_its_meaning(ts: Seq<TokenView>, list: Seq<Sentence>)
    requires
        ended(ts),
        written_sentences(ts, 0, list, list.len()),
        at_end(ts, sentences_width(list, list.len())),
    ensures
        program(ts, 0, Program { statements: Seq::empty(), errors: Seq::empty() }) == (Program {
            statements: meanings(list),
            errors: Seq::empty(),
        }),
{
    lemma_program_parses(ts, list, 0, Seq::empty());
    assert(list.take(0) =~= Seq::<Sentence>::empty());
    assert(meanings(list.take(0)) =~= Seq::<StmtView>::empty());
}

} // verus!
