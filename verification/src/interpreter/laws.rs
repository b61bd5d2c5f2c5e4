use vstd::prelude::*;
use crate::environment::lemma_binder_in_range;
use crate::expr::ExprView;
use crate::environment::{bind_at, undefined_variable};
use crate::interpreter::machine::{
    bind_params, closes_scope, invoke, open_scopes, read_variable, run, step, step_eval,
    step_exec, step_frame, step_unary, unwind, write_variable, ControlView, FrameView, Reply,
    RequestView, State,
};
use crate::resolver::local_depth;
use crate::stmt::StmtView;
use crate::token::TokenView;
use crate::value::{CallableView, DispatchView, ValueView};

verus! {

/// A frame more is an open scope more where the frame closes one.
pub proof fn lemma_open_scopes_push(frames: Seq<FrameView>, frame: FrameView)
    ensures
        open_scopes(frames.push(frame)) == open_scopes(frames) + if closes_scope(frame) {
            1nat
        } else {
            0nat
        },
{
    assert(frames.push(frame).drop_last() =~= frames);
}

/// Leaving a call keeps the scopes and the frames in balance.
pub proof fn lemma_unwind_balanced(s: State, keyword: TokenView, v: ValueView)
    requires
        s.balanced(),
    ensures
        unwind(s, keyword, v).0.balanced(),
    decreases s.frames.len(),
{
    if s.frames.len() == 0 {
        assert(s.env.take(1).len() == 1);
    } else {
        let rest = State { frames: s.frames.drop_last(), ..s };
        match s.frames.last() {
            FrameView::EndCall => {},
            FrameView::PopScope => {
                lemma_unwind_balanced(State { env: s.env.drop_last(), ..rest }, keyword, v);
            },
            _ => {
                lemma_unwind_balanced(rest, keyword, v);
            },
        }
    }
}

/// Starting a call keeps the scopes and the frames in balance.
pub proof fn lemma_invoke_balanced(s: State, callee: CallableView, values: Seq<ValueView>)
    requires
        s.balanced(),
    ensures
        invoke(s, callee, values).0.balanced(),
{
    match callee.dispatch {
        DispatchView::Clock => {},
        DispatchView::Declared(params, body) => {
            let entered = State {
                env: s.env.push(bind_params(params, values, params.len())),
                ..s
            };
            lemma_open_scopes_push(entered.frames, FrameView::EndCall);
            lemma_open_scopes_push(
                entered.push(FrameView::EndCall).frames,
                FrameView::Sequence(body, 0),
            );
        },
    }
}

/// Handing a value to the innermost frame keeps the scopes and the frames
/// in balance.
pub proof fn lemma_step_frame_balanced(s: State, frame: FrameView, v: ValueView)
    requires
        s.push(frame).balanced(),
    ensures
        step_frame(s, frame, v).0.balanced(),
{
    lemma_open_scopes_push(s.frames, frame);
    assert(s.env.take(1).len() == 1);
    match frame {
        FrameView::BinaryRight(op, right) => {
            lemma_open_scopes_push(s.frames, FrameView::BinaryApply(op, v));
        },
        FrameView::Callee(paren, args) => {
            match v {
                ValueView::Function(callee) => {
                    lemma_invoke_balanced(s, callee, Seq::empty());
                    lemma_open_scopes_push(
                        s.frames,
                        FrameView::Argument(paren, callee, args, Seq::empty()),
                    );
                },
                _ => {},
            }
        },
        FrameView::Argument(paren, callee, args, done) => {
            lemma_invoke_balanced(s, callee, done.push(v));
            lemma_open_scopes_push(
                s.frames,
                FrameView::Argument(paren, callee, args, done.push(v)),
            );
        },
        FrameView::LoopTest(cond, body) => {
            lemma_open_scopes_push(s.frames, FrameView::LoopBody(cond, body));
        },
        FrameView::LoopBody(cond, body) => {
            lemma_open_scopes_push(s.frames, FrameView::LoopTest(cond, body));
        },
        FrameView::Sequence(list, next) => {
            lemma_open_scopes_push(s.frames, FrameView::Sequence(list, next + 1));
        },
        FrameView::Return(keyword) => {
            lemma_unwind_balanced(s, keyword, v);
        },
        _ => {},
    }
}

/// The first step of an expression keeps the scopes and the frames in
/// balance.
pub proof fn lemma_step_eval_balanced(s: State, e: ExprView)
    requires
        s.balanced(),
    ensures
        step_eval(s, e).0.balanced(),
{
    assert(s.env.take(1).len() == 1);
    match e {
        ExprView::Unary(op, right) => {
            lemma_open_scopes_push(s.frames, FrameView::Unary(op));
        },
        ExprView::Binary(left, op, right) => {
            lemma_open_scopes_push(s.frames, FrameView::BinaryRight(op, *right));
        },
        ExprView::Logical(left, op, right) => {
            lemma_open_scopes_push(s.frames, FrameView::Logical(op, *right));
        },
        ExprView::Assign(name, value, id) => {
            lemma_open_scopes_push(s.frames, FrameView::Assign(name, id));
        },
        ExprView::Call(callee, paren, args) => {
            lemma_open_scopes_push(s.frames, FrameView::Callee(paren, args));
        },
        _ => {},
    }
}

/// The first step of a statement keeps the scopes and the frames in
/// balance.
pub proof fn lemma_step_exec_balanced(s: State, stmt: StmtView)
    requires
        s.balanced(),
    ensures
        step_exec(s, stmt).0.balanced(),
{
    match stmt {
        StmtView::Print(e) => {
            lemma_open_scopes_push(s.frames, FrameView::Print);
        },
        StmtView::Var(name, init) => {
            lemma_open_scopes_push(s.frames, FrameView::Define(name));
        },
        StmtView::Block(list) => {
            lemma_open_scopes_push(s.frames, FrameView::PopScope);
            lemma_open_scopes_push(s.frames.push(FrameView::PopScope), FrameView::Sequence(list, 0));
        },
        StmtView::If(cond, then_branch, else_branch) => {
            lemma_open_scopes_push(s.frames, FrameView::Branch(*then_branch, *else_branch));
        },
        StmtView::While(cond, body) => {
            lemma_open_scopes_push(s.frames, FrameView::LoopTest(cond, *body));
        },
        StmtView::Return(keyword, e) => {
            lemma_open_scopes_push(s.frames, FrameView::Return(keyword));
        },
        _ => {},
    }
}

/// Leaving a call does not depend on what the machine was about to do.
pub proof fn lemma_unwind_ignores_control(s: State, c: ControlView, keyword: TokenView, v: ValueView)
    ensures
        unwind(State { control: c, ..s }, keyword, v) == unwind(s, keyword, v),
    decreases s.frames.len(),
{
    let t = State { control: c, ..s };
    if s.frames.len() > 0 {
        let rest = State { frames: s.frames.drop_last(), ..s };
        match s.frames.last() {
            FrameView::EndCall => {},
            FrameView::PopScope => {
                lemma_unwind_ignores_control(
                    State { env: s.env.drop_last(), ..rest },
                    c,
                    keyword,
                    v,
                );
            },
            _ => {
                lemma_unwind_ignores_control(rest, c, keyword, v);
            },
        }
    }
}

/// What a step does once it has taken up what was to do next depends on
/// the scopes, the depths and the frames alone.
pub proof fn lemma_step_ignores_control(s: State, c: ControlView)
    ensures
        forall|e: ExprView| #[trigger] step_eval(State { control: c, ..s }, e) == step_eval(s, e),
        forall|stmt: StmtView| #[trigger]
            step_exec(State { control: c, ..s }, stmt) == step_exec(s, stmt),
        forall|frame: FrameView, v: ValueView| #[trigger]
            step_frame(
                State { frames: s.frames.drop_last(), control: c, ..s },
                frame,
                v,
            ) == step_frame(State { frames: s.frames.drop_last(), ..s }, frame, v),
{
    assert forall|frame: FrameView, v: ValueView| #[trigger]
        step_frame(State { frames: s.frames.drop_last(), control: c, ..s }, frame, v)
            == step_frame(State { frames: s.frames.drop_last(), ..s }, frame, v) by {
        match frame {
            FrameView::Return(keyword) => {
                lemma_unwind_ignores_control(
                    State { frames: s.frames.drop_last(), ..s },
                    c,
                    keyword,
                    v,
                );
            },
            _ => {},
        }
    }
}

/// Every step keeps the scopes and the frames in balance: beside the
/// global scope there is exactly one scope for each block and each call
/// that has been entered and not yet left.
pub proof fn lemma_step_balanced(s: State, reply: Reply)
    requires
        s.balanced(),
    ensures
        step(s, reply).0.balanced(),
{
    match s.control {
        ControlView::Await => {},
        ControlView::Eval(e) => {
            lemma_step_eval_balanced(s, e);
        },
        ControlView::Exec(stmt) => {
            lemma_step_exec_balanced(s, stmt);
        },
        ControlView::Value(v) => {
            if s.frames.len() > 0 {
                let rest = State { frames: s.frames.drop_last(), ..s };
                assert(rest.frames.push(s.frames.last()) =~= s.frames);
                lemma_step_frame_balanced(rest, s.frames.last(), v);
            }
        },
    }
}

/// A run of any length keeps the scopes and the frames in balance.
pub proof fn law_run_keeps_balance(s: State, reply: Reply, budget: nat)
    requires
        s.balanced(),
    ensures
        run(s, reply, budget).0.balanced(),
    decreases budget,
{
    if budget > 0 {
        lemma_step_balanced(s, reply);
        let (next, request) = step(s, reply);
        if request is Continue {
            law_run_keeps_balance(next, Reply::Nothing, (budget - 1) as nat);
        }
    }
}

/// Scopes are opened and closed last in, first out: whenever a run is back
/// at the frames at which a block or a call began, it has as many scopes
/// as it had there.
pub proof fn law_scopes_are_lifo(before: State, after: State)
    requires
        before.balanced(),
        after.balanced(),
        after.frames == before.frames,
    ensures
        after.env.len() == before.env.len(),
{
}

/// A block that has run to its end leaves as many scopes as it found:
/// entering it opens one scope and puts its closing frame on the frames,
/// and the step at that frame closes the scope again.
pub proof fn law_block_restores_scopes(s: State, list: Seq<StmtView>, v: ValueView)
    requires
        s.balanced(),
    ensures
        ({
            let entered = step_exec(s, StmtView::Block(list)).0;
            let left = step_frame(
                State { frames: entered.frames.drop_last().drop_last(), ..entered },
                FrameView::PopScope,
                v,
            ).0;
            &&& entered.env.len() == s.env.len() + 1
            &&& entered.frames.drop_last().last() == FrameView::PopScope
            &&& left.env.len() == s.env.len()
            &&& left.frames == s.frames
        }),
{
    let entered = step_exec(s, StmtView::Block(list)).0;
    assert(entered.frames.drop_last() =~= s.frames.push(FrameView::PopScope));
    assert(entered.frames.drop_last().drop_last() =~= s.frames);
}

/// `and` and `or` short-circuit: where the left operand decides, the step
/// at the frame of the operator hands that operand on as the value and
/// leaves nothing of the right operand in the machine.
pub proof fn law_short_circuit(s: State, op: TokenView, right: ExprView, v: ValueView)
    requires
        (op.kind is Or) == v.is_truthy(),
    ensures
        step_frame(s, FrameView::Logical(op, right), v) == (
            State { control: ControlView::Value(v), ..s },
            RequestView::Continue,
        ),
{
}

/// Where the left operand does not decide, the right operand is evaluated
/// next, and its value is the value of the whole.
pub proof fn law_no_short_circuit(s: State, op: TokenView, right: ExprView, v: ValueView)
    requires
        (op.kind is Or) != v.is_truthy(),
    ensures
        step_frame(s, FrameView::Logical(op, right), v) == (
            State { control: ControlView::Eval(right), ..s },
            RequestView::Continue,
        ),
{
}

/// The value of `!v`.
pub open spec fn negation(v: ValueView) -> ValueView {
    ValueView::Boolean(!v.is_truthy())
}

/// `!!x` is `true` exactly when `x` is neither `nil` nor `false`.
pub proof fn law_truthiness(x: ValueView)
    ensures
        negation(negation(x)) == ValueView::Boolean(true) <==> !(x is Nil) && x
            != ValueView::Boolean(false),
        negation(negation(x)) == ValueView::Boolean(x.is_truthy()),
{
}

/// Applying `!` is a step that yields the negation.
pub proof fn law_bang_negates(s: State, op: TokenView, v: ValueView)
    requires
        op.kind is Bang,
    ensures
        step_unary(s, op, v) == s.value(negation(v)),
{
}

/// A name for which no depth is recorded is global: it is read and
/// written in the global scope alone, whatever the other scopes bind, and
/// is undefined where the global scope does not bind it.
pub proof fn law_name_without_depth_is_global(s: State, name: TokenView, id: usize, v: ValueView)
    requires
        !s.depths.contains_key(id),
    ensures
        ({
            let text = name.kind.lexeme();
            if s.env[0].contains_key(text) {
                &&& read_variable(s, name, id) == s.value(s.env[0][text])
                &&& write_variable(s, name, id, v) == (State {
                    env: bind_at(s.env, 0, text, v),
                    ..s
                }).value(v)
            } else {
                &&& read_variable(s, name, id) == s.fail(name, undefined_variable(text))
                &&& write_variable(s, name, id, v) == s.fail(name, undefined_variable(text))
            }
        }),
{
}

/// An assignment declares nothing: writing a variable leaves every scope
/// with the names it had.
pub proof fn law_assignment_adds_no_name(s: State, name: TokenView, id: usize, v: ValueView, i: int)
    requires
        s.env.len() >= 1,
        0 <= i < s.env.len(),
        i < write_variable(s, name, id, v).0.env.len(),
    ensures
        write_variable(s, name, id, v).0.env[i].dom() == s.env[i].dom(),
{
    let text = name.kind.lexeme();
    let after = write_variable(s, name, id, v).0;
    assert(after.env[i].dom() =~= s.env[i].dom());
}

/// Leaving a call closes scopes from the innermost in and changes none of
/// those that stay.
pub proof fn lemma_unwind_keeps_scopes(s: State, keyword: TokenView, v: ValueView)
    requires
        s.balanced(),
    ensures
        unwind(s, keyword, v).0.env.len() <= s.env.len(),
        forall|i: int|
            0 <= i < unwind(s, keyword, v).0.env.len() ==> #[trigger] unwind(s, keyword, v).0.env[i]
                == s.env[i],
    decreases s.frames.len(),
{
    if s.frames.len() > 0 {
        let rest = State { frames: s.frames.drop_last(), ..s };
        match s.frames.last() {
            FrameView::EndCall => {},
            FrameView::PopScope => {
                lemma_unwind_keeps_scopes(State { env: s.env.drop_last(), ..rest }, keyword, v);
            },
            _ => {
                lemma_unwind_keeps_scopes(rest, keyword, v);
            },
        }
    }
}

/// Whether the step from `s` writes a variable.
pub open spec fn writes_variable(s: State) -> bool {
    s.control is Value && s.frames.len() > 0 && s.frames.last() is Assign
}

/// What a step leaves of the scope `i`, where that scope is there before
/// and after: a scope loses no name; a scope that is not the innermost
/// gains none either, and changes only where the step writes a variable.
/// So what a block or a call declares is declared in its own scope, and
/// is gone with that scope.
pub proof fn law_step_keeps_names(s: State, reply: Reply, i: int)
    requires
        s.balanced(),
        0 <= i < s.env.len(),
        i < step(s, reply).0.env.len(),
    ensures
        s.env[i].dom().subset_of(step(s, reply).0.env[i].dom()),
        i + 1 < s.env.len() ==> step(s, reply).0.env[i].dom() == s.env[i].dom(),
        i + 1 < s.env.len() && !writes_variable(s) ==> step(s, reply).0.env[i] == s.env[i],
{
    let next = step(s, reply).0;
    match s.control {
        ControlView::Await => {},
        ControlView::Eval(e) => {},
        ControlView::Exec(stmt) => {},
        ControlView::Value(v) => {
            if s.frames.len() > 0 {
                let rest = State { frames: s.frames.drop_last(), ..s };
                assert(rest.frames.push(s.frames.last()) =~= s.frames);
                lemma_open_scopes_push(rest.frames, s.frames.last());
                match s.frames.last() {
                    FrameView::Return(keyword) => {
                        lemma_unwind_keeps_scopes(rest, keyword, v);
                    },
                    _ => {},
                }
            }
        },
    }
    assert(next.env[i].dom() =~= s.env[i].dom() || i + 1 == s.env.len());
}

/// Whether the scope `i` is there and is not the innermost at the start
/// of every step of a run, and is there at its end.
pub open spec fn stays_outer(s: State, reply: Reply, budget: nat, i: int) -> bool
    decreases budget,
{
    if budget == 0 {
        true
    } else {
        let (next, request) = step(s, reply);
        &&& i + 1 < s.env.len()
        &&& i < next.env.len()
        &&& request is Continue ==> stays_outer(next, Reply::Nothing, (budget - 1) as nat, i)
    }
}

/// A run gives a scope no name and takes none from it while the scope is
/// not the innermost: what is declared during the run is declared in
/// scopes further in.
pub proof fn law_run_keeps_outer_names(s: State, reply: Reply, budget: nat, i: int)
    requires
        s.balanced(),
        0 <= i < s.env.len(),
        stays_outer(s, reply, budget, i),
    ensures
        i < run(s, reply, budget).0.env.len(),
        run(s, reply, budget).0.env[i].dom() == s.env[i].dom(),
    decreases budget,
{
    if budget > 0 {
        lemma_step_balanced(s, reply);
        law_step_keeps_names(s, reply, i);
        let (next, request) = step(s, reply);
        if request is Continue {
            law_run_keeps_outer_names(next, Reply::Nothing, (budget - 1) as nat, i);
        }
    }
}

/// A block closes the scope that it opened: the step at its closing frame
/// leaves the scopes that were there when the block was entered, and with
/// the scope of the block whatever the block declared is gone.
pub proof fn law_block_scope_is_dropped(s: State, v: ValueView)
    requires
        s.frames.len() > 0,
        s.frames.last() is PopScope,
        s.control == ControlView::Value(v),
    ensures
        step(s, Reply::Nothing).0.env == s.env.drop_last(),
        step(s, Reply::Nothing).0.frames == s.frames.drop_last(),
{
}

/// `and` and `or` evaluate the left operand first, with the right one kept
/// in a frame; nothing else changes.
pub proof fn law_logical_starts_left(
    s: State,
    left: ExprView,
    op: TokenView,
    right: ExprView,
    reply: Reply,
)
    requires
        s.control == ControlView::Eval(ExprView::Logical(Box::new(left), op, Box::new(right))),
    ensures
        step(s, reply) == (
            State {
                control: ControlView::Eval(left),
                frames: s.frames.push(FrameView::Logical(op, right)),
                ..s
            },
            RequestView::Continue,
        ),
{
}

/// Short circuit, as a step of the machine: when the value of the left
/// operand arrives and decides (falsy for `and`, truthy for `or`), the
/// step drops the frame that holds the right operand and goes on with that
/// very value. The right operand is never made what to do next: nothing of
/// it is evaluated, no scope changes, and nothing is asked of the host.
pub proof fn law_short_circuit_step(s: State, op: TokenView, right: ExprView, v: ValueView, reply: Reply)
    requires
        s.control == ControlView::Value(v),
        s.frames.len() > 0,
        s.frames.last() == FrameView::Logical(op, right),
        (op.kind is Or) == v.is_truthy(),
    ensures
        step(s, reply) == (
            State { control: ControlView::Value(v), frames: s.frames.drop_last(), ..s },
            RequestView::Continue,
        ),
{
}

/// `!`, as a step of the machine: whatever value arrives, the step goes on
/// with `true` or `false`, the negation of the value's truthiness, and
/// fails for no value.
pub proof fn law_bang_step(s: State, op: TokenView, v: ValueView, reply: Reply)
    requires
        s.control == ControlView::Value(v),
        s.frames.len() > 0,
        s.frames.last() == FrameView::Unary(op),
        op.kind is Bang,
    ensures
        step(s, reply) == (
            State {
                control: ControlView::Value(ValueView::Boolean(!v.is_truthy())),
                frames: s.frames.drop_last(),
                ..s
            },
            RequestView::Continue,
        ),
{
}

/// Whether the scopes of a running program hold the names that the
/// resolver's scopes hold, scope by scope from the innermost out.
pub open spec fn covers(
    env: Seq<Map<Seq<char>, ValueView>>,
    scopes: Seq<Map<Seq<char>, bool>>,
) -> bool {
    &&& scopes.len() <= env.len()
    &&& forall|k: int, name: Seq<char>|
        0 <= k < scopes.len() && #[trigger] scopes[scopes.len() - 1 - k].contains_key(name)
            ==> #[trigger] env[env.len() - 1 - k].contains_key(name)
}

/// A resolved depth leads to the name: where the resolver found `name` in
/// one of its scopes and recorded the depth, and the program runs with
/// scopes that hold what the resolver's scopes hold, reading the variable
/// finds it in the scope that many scopes out from the innermost.
pub proof fn law_resolved_depth_finds_the_name(
    s: State,
    scopes: Seq<Map<Seq<char>, bool>>,
    name: TokenView,
    id: usize,
)
    requires
        covers(s.env, scopes),
        local_depth(scopes, name.kind.lexeme()) matches Some(d) && s.depths.contains_key(id)
            && s.depths[id] == d,
    ensures
        ({
            let d = s.depths[id];
            &&& d < s.env.len()
            &&& s.env[s.env.len() - 1 - d].contains_key(name.kind.lexeme())
            &&& read_variable(s, name, id) == s.value(
                s.env[s.env.len() - 1 - d][name.kind.lexeme()],
            )
        }),
{
    let text = name.kind.lexeme();
    lemma_binder_in_range(scopes, text);
    let d = local_depth(scopes, text)->0;
    assert(scopes[scopes.len() - 1 - d].contains_key(text));
}

/// A resolved depth leads to the name for an assignment too: under the
/// same conditions, writing the variable gives it the value in the scope
/// that many scopes out from the innermost, and fails in no case.
pub proof fn law_resolved_depth_takes_the_value(
    s: State,
    scopes: Seq<Map<Seq<char>, bool>>,
    name: TokenView,
    id: usize,
    v: ValueView,
)
    requires
        covers(s.env, scopes),
        local_depth(scopes, name.kind.lexeme()) matches Some(d) && s.depths.contains_key(id)
            && s.depths[id] == d,
    ensures
        ({
            let d = s.depths[id];
            &&& d < s.env.len()
            &&& write_variable(s, name, id, v) == (State {
                env: bind_at(s.env, s.env.len() - 1 - d, name.kind.lexeme(), v),
                ..s
            }).value(v)
        }),
{
    let text = name.kind.lexeme();
    lemma_binder_in_range(scopes, text);
    let d = local_depth(scopes, text)->0;
    assert(scopes[scopes.len() - 1 - d].contains_key(text));
}

} // verus!
