use vstd::prelude::*;
use vstd::string::*;
use crate::expr::{expr_views, lemma_call_view, Expr, ExprView, Literal, LiteralView};
use crate::text::push_char;

verus! {

/// How a literal is written.
pub open spec fn render_literal(literal: LiteralView) -> Seq<char> {
    match literal {
        LiteralView::Number(digits) => digits,
        LiteralView::String(text) => text,
        LiteralView::Boolean(b) => if b {
            "true"@
        } else {
            "false"@
        },
        LiteralView::Nil => "nil"@,
    }
}

/// An opening bracket and the name of what follows.
pub open spec fn opened(name: Seq<char>) -> Seq<char> {
    seq!['('] + name
}

/// What is written so far, a space, and one more part.
pub open spec fn with_part(so_far: Seq<char>, part: Seq<char>) -> Seq<char> {
    so_far + seq![' '] + part
}

/// What is written so far, and the closing bracket.
pub open spec fn closed(so_far: Seq<char>) -> Seq<char> {
    so_far + seq![')']
}

/// An expression in prefix form: an operator or a name first, then the
/// operands, all in one pair of brackets.
pub open spec fn render(e: ExprView) -> Seq<char>
    decreases e, 0nat,
{
    match e {
        ExprView::Binary(left, op, right) => closed(
            with_part(with_part(opened(op.kind.lexeme()), render(*left)), render(*right)),
        ),
        ExprView::Logical(left, op, right) => closed(
            with_part(with_part(opened(op.kind.lexeme()), render(*left)), render(*right)),
        ),
        ExprView::Grouping(inner) => closed(with_part(opened("group"@), render(*inner))),
        ExprView::Unary(op, right) => closed(with_part(opened(op.kind.lexeme()), render(*right))),
        ExprView::Literal(literal) => render_literal(literal),
        ExprView::Variable(name, _) => name.kind.lexeme(),
        ExprView::Assign(name, value, _) => closed(
            with_part(with_part(opened("="@), name.kind.lexeme()), render(*value)),
        ),
        ExprView::Call(callee, _, args) => closed(
            render_parts(with_part(opened("call"@), render(*callee)), args, args.len()),
        ),
    }
}

/// What is written so far, with the first `n` expressions of a list after
/// it.
pub open spec fn render_parts(so_far: Seq<char>, list: Seq<ExprView>, n: nat) -> Seq<char>
    decreases list, n,
{
    if n == 0 || n > list.len() {
        so_far
    } else {
        with_part(render_parts(so_far, list, (n - 1) as nat), render(list[n - 1]))
    }
}

fn open(name: &str) -> (text: String)
    ensures
        text@ == opened(name@),
{
    let mut text = String::new();
    push_char(&mut text, '(');
    text.append(name);
    assert(text@ =~= opened(name@));
    text
}

fn add_part(text: &mut String, part: &str)
    ensures
        final(text)@ == with_part(old(text)@, part@),
{
    push_char(text, ' ');
    text.append(part);
}

fn close(text: String) -> (done: String)
    ensures
        done@ == closed(text@),
{
    let mut text = text;
    push_char(&mut text, ')');
    text
}

/// The name and the parts after it, all in one pair of brackets.
fn parenthesize(name: &str, first: &str, second: Option<&str>) -> (text: String)
    ensures
        text@ == match second {
            Some(part) => closed(with_part(with_part(opened(name@), first@), part@)),
            None => closed(with_part(opened(name@), first@)),
        },
{
    let mut s = open(name);
    add_part(&mut s, first);
    if let Some(part) = second {
        add_part(&mut s, part);
    }
    close(s)
}

/// An expression in prefix form.
pub fn to_string(expr: &Expr) -> (text: String)
    ensures
        text@ == render(expr@),
    decreases expr,
{
    match expr {
        Expr::Binary(left, op, right) => {
            let name = op.lexeme();
            let first = to_string(left);
            let second = to_string(right);
            parenthesize(name.as_str(), first.as_str(), Some(second.as_str()))
        },
        Expr::Logical(left, op, right) => {
            let name = op.lexeme();
            let first = to_string(left);
            let second = to_string(right);
            parenthesize(name.as_str(), first.as_str(), Some(second.as_str()))
        },
        Expr::Grouping(e) => {
            let inner = to_string(e);
            parenthesize("group", inner.as_str(), None)
        },
        Expr::Unary(op, right) => {
            let name = op.lexeme();
            let operand = to_string(right);
            parenthesize(name.as_str(), operand.as_str(), None)
        },
        Expr::Literal(val) => match val {
            Literal::Number(digits) => digits.clone(),
            Literal::String(text) => text.clone(),
            Literal::Boolean(b) => if *b {
                String::from_str("true")
            } else {
                String::from_str("false")
            },
            Literal::Nil => String::from_str("nil"),
        },
        Expr::Variable(name, _) => name.lexeme(),
        Expr::Assign(name, value, _) => {
            let target = name.lexeme();
            let part = to_string(value);
            parenthesize("=", target.as_str(), Some(part.as_str()))
        },
        Expr::Call(callee, paren, args) => {
            proof {
                lemma_call_view(*callee, *paren, *args);
            }
            let mut s = open("call");
            let part = to_string(callee);
            add_part(&mut s, part.as_str());
            let ghost start = s@;
            let mut i: usize = 0;
            while i < args.len()
                invariant
                    i <= args@.len(),
                    s@ == render_parts(start, expr_views(args@), i as nat),
                    forall|j: int| 0 <= j < args@.len() ==> decreases_to!(expr => args@[j]),
                decreases args@.len() - i,
            {
                let part = to_string(&args[i]);
                add_part(&mut s, part.as_str());
                i += 1;
            }
            close(s)
        },
    }
}

} // verus!
