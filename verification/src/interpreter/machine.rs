use vstd::prelude::*;
use crate::environment::{bind_at, undefined_variable};
use crate::errors::ErrorView;
use crate::expr::ExprView;
use crate::stmt::StmtView;
use crate::text::decimal;
use crate::token::{TokenTypeView, TokenView};
use crate::value::{literal_value, CallableView, DispatchView, ValueView};

verus! {

/// An operation on two numbers that the host computes.
#[derive(Debug, Clone, Copy, PartialEq, Eq, Structural)]
pub enum NumberOp {
    Add,
    Subtract,
    Multiply,
    Divide,
    Greater,
    GreaterEqual,
    Less,
    LessEqual,
    Equal,
    NotEqual,
}

/// What the host hands back for the request before: nothing, a number, or
/// the outcome of a comparison.
#[derive(Debug, Clone, Copy, PartialEq, Eq, Structural)]
pub enum Reply {
    Nothing,
    Number(u64),
    Truth(bool),
}

/// The model of what a step asks of the host.
pub enum RequestView {
    /// Nothing is asked; the run goes on with the next step.
    Continue,
    /// The program has run to its end.
    Finished,
    /// The run was given up with this error.
    Failed(ErrorView),
    /// Write this line.
    Print(Seq<char>),
    /// Write this number on a line.
    PrintNumber(u64),
    /// Reply with the number that these digits denote.
    Number(Seq<char>),
    /// Reply with the negation of this number.
    Negate(u64),
    /// Reply with the outcome of this operation on these two numbers.
    Calculate(NumberOp, u64, u64),
    /// Reply with the time in seconds.
    Clock,
}

/// The model of a frame: work that waits for a value.
pub enum FrameView {
    Unary(TokenView),
    BinaryRight(TokenView, ExprView),
    BinaryApply(TokenView, ValueView),
    Logical(TokenView, ExprView),
    Assign(TokenView, usize),
    Callee(TokenView, Seq<ExprView>),
    Argument(TokenView, CallableView, Seq<ExprView>, Seq<ValueView>),
    Print,
    Define(Seq<char>),
    Branch(StmtView, StmtView),
    LoopTest(ExprView, StmtView),
    LoopBody(ExprView, StmtView),
    Sequence(Seq<StmtView>, nat),
    PopScope,
    Return(TokenView),
    EndCall,
}

/// The model of what the machine does next.
pub enum ControlView {
    Eval(ExprView),
    Exec(StmtView),
    Value(ValueView),
    Await,
}

/// The model of the machine: the scopes, the resolved depths by node, the
/// frames (the innermost last), and what to do next.
pub struct State {
    pub env: Seq<Map<Seq<char>, ValueView>>,
    pub depths: Map<usize, usize>,
    pub frames: Seq<FrameView>,
    pub control: ControlView,
}

/// The message for `-` before a value that is no number.
pub open spec fn minus_needs_number() -> Seq<char> {
    "unary minus only applicable to numbers"@
}

/// The message for a token that is no operator where one is applied.
pub open spec fn unknown_operator() -> Seq<char> {
    "unknown operator"@
}

/// The message for an operator on numbers between other values.
pub open spec fn needs_two_numbers() -> Seq<char> {
    "operands must be two numbers"@
}

/// The message for `+` between values that are neither two numbers nor
/// two strings.
pub open spec fn plus_needs_alike() -> Seq<char> {
    "+ needs either strings or numbers"@
}

/// The message for a call of a value that cannot be called.
pub open spec fn not_callable() -> Seq<char> {
    "can only call functions and classes"@
}

/// The message for a `return` that no call encloses.
pub open spec fn return_outside_function() -> Seq<char> {
    "can't return from top-level code"@
}

/// The message for a call with the wrong number of arguments.
pub open spec fn wrong_arity(expected: nat, got: nat) -> Seq<char> {
    "Expected "@ + decimal(expected) + " arguments but got "@ + decimal(got) + "."@
}

/// The value that a reply stands for.
pub open spec fn reply_value(reply: Reply) -> ValueView {
    match reply {
        Reply::Nothing => ValueView::Nil,
        Reply::Number(bits) => ValueView::Number(bits),
        Reply::Truth(b) => ValueView::Boolean(b),
    }
}

/// Whether a frame closes a scope when it is left.
pub open spec fn closes_scope(frame: FrameView) -> bool {
    frame is PopScope || frame is EndCall
}

/// The number of frames that close a scope.
pub open spec fn open_scopes(frames: Seq<FrameView>) -> nat
    decreases frames.len(),
{
    if frames.len() == 0 {
        0
    } else if closes_scope(frames.last()) {
        open_scopes(frames.drop_last()) + 1
    } else {
        open_scopes(frames.drop_last())
    }
}

impl State {
    /// Beside the global scope there is one scope for each frame that
    /// closes one.
    pub open spec fn balanced(self) -> bool {
        self.env.len() == 1 + open_scopes(self.frames)
    }

    /// Going on with the value `v` for the innermost frame.
    pub open spec fn value(self, v: ValueView) -> (State, RequestView) {
        (State { control: ControlView::Value(v), ..self }, RequestView::Continue)
    }

    /// Going on with the evaluation of `e`.
    pub open spec fn eval(self, e: ExprView) -> (State, RequestView) {
        (State { control: ControlView::Eval(e), ..self }, RequestView::Continue)
    }

    /// Going on with the execution of `s`.
    pub open spec fn exec(self, s: StmtView) -> (State, RequestView) {
        (State { control: ControlView::Exec(s), ..self }, RequestView::Continue)
    }

    /// Asking the host, and waiting for its reply.
    pub open spec fn ask(self, request: RequestView) -> (State, RequestView) {
        (State { control: ControlView::Await, ..self }, request)
    }

    /// One frame more, as the innermost.
    pub open spec fn push(self, frame: FrameView) -> State {
        State { frames: self.frames.push(frame), ..self }
    }

    /// Giving up: the frames are dropped and the global scope alone is
    /// left.
    pub open spec fn fail(self, token: TokenView, msg: Seq<char>) -> (State, RequestView) {
        (
            State {
                env: self.env.take(1),
                frames: Seq::empty(),
                control: ControlView::Value(ValueView::Nil),
                ..self
            },
            RequestView::Failed(ErrorView::Runtime(token, msg)),
        )
    }
}

/// The index of the scope in which the variable at the node `id` lives:
/// the scope as many scopes out from the innermost as the depth recorded
/// for the node says, or the global scope where no depth is recorded. There
/// is none where the depth leads out of the scopes.
pub open spec fn home_scope(s: State, id: usize) -> Option<int> {
    if s.depths.contains_key(id) {
        if s.depths[id] < s.env.len() {
            Some(s.env.len() - 1 - s.depths[id])
        } else {
            None
        }
    } else {
        Some(0)
    }
}

/// Reading the variable that `name` names, at the node `id`: the value
/// that the variable's scope binds the name to. Where that scope does not
/// bind the name, the variable is undefined.
pub open spec fn read_variable(s: State, name: TokenView, id: usize) -> (State, RequestView) {
    let text = name.kind.lexeme();
    match home_scope(s, id) {
        Some(i) => if s.env[i].contains_key(text) {
            s.value(s.env[i][text])
        } else {
            s.fail(name, undefined_variable(text))
        },
        None => s.fail(name, undefined_variable(text)),
    }
}

/// Writing `v` to the variable that `name` names, at the node `id`: the
/// variable's scope binds the name to `v` from now on. Where that scope
/// does not bind the name, the variable is undefined and no scope changes.
pub open spec fn write_variable(s: State, name: TokenView, id: usize, v: ValueView) -> (
    State,
    RequestView,
) {
    let text = name.kind.lexeme();
    match home_scope(s, id) {
        Some(i) => if s.env[i].contains_key(text) {
            State { env: bind_at(s.env, i, text, v), ..s }.value(v)
        } else {
            s.fail(name, undefined_variable(text))
        },
        None => s.fail(name, undefined_variable(text)),
    }
}

/// The first step of evaluating an expression.
pub open spec fn step_eval(s: State, e: ExprView) -> (State, RequestView) {
    match e {
        ExprView::Literal(literal) => match literal_value(literal) {
            Some(v) => s.value(v),
            None => s.ask(RequestView::Number(literal->Number_0)),
        },
        ExprView::Grouping(inner) => s.eval(*inner),
        ExprView::Unary(op, right) => s.push(FrameView::Unary(op)).eval(*right),
        ExprView::Binary(left, op, right) => s.push(FrameView::BinaryRight(op, *right)).eval(*left),
        ExprView::Logical(left, op, right) => s.push(FrameView::Logical(op, *right)).eval(*left),
        ExprView::Variable(name, id) => read_variable(s, name, id),
        ExprView::Assign(name, value, id) => s.push(FrameView::Assign(name, id)).eval(*value),
        ExprView::Call(callee, paren, args) => s.push(FrameView::Callee(paren, args)).eval(*callee),
    }
}

/// The callable that a function declaration makes.
pub open spec fn declared(name: TokenView, params: Seq<TokenView>, body: Seq<StmtView>)
    -> ValueView {
    ValueView::Function(
        CallableView {
            name: name.kind.lexeme(),
            arity: params.len(),
            dispatch: DispatchView::Declared(params, body),
        },
    )
}

/// The first step of executing a statement.
pub open spec fn step_exec(s: State, stmt: StmtView) -> (State, RequestView) {
    match stmt {
        StmtView::Empty => s.value(ValueView::Nil),
        StmtView::Expression(e) => s.eval(e),
        StmtView::Print(e) => s.push(FrameView::Print).eval(e),
        StmtView::Var(name, init) => s.push(FrameView::Define(name)).eval(init),
        StmtView::Block(list) => State { env: s.env.push(Map::empty()), ..s }.push(
            FrameView::PopScope,
        ).push(FrameView::Sequence(list, 0)).value(ValueView::Nil),
        StmtView::If(cond, then_branch, else_branch) => s.push(
            FrameView::Branch(*then_branch, *else_branch),
        ).eval(cond),
        StmtView::While(cond, body) => s.push(FrameView::LoopTest(cond, *body)).eval(cond),
        StmtView::Function(name, params, body) => State {
            env: bind_at(s.env, s.env.len() - 1, name.kind.lexeme(), declared(name, params, body)),
            ..s
        }.value(ValueView::Nil),
        StmtView::Return(keyword, e) => s.push(FrameView::Return(keyword)).eval(e),
    }
}

/// The operation on two numbers that an operator stands for.
pub open spec fn number_op(kind: TokenTypeView) -> Option<NumberOp> {
    match kind {
        TokenTypeView::Plus => Some(NumberOp::Add),
        TokenTypeView::Minus => Some(NumberOp::Subtract),
        TokenTypeView::Star => Some(NumberOp::Multiply),
        TokenTypeView::Slash => Some(NumberOp::Divide),
        TokenTypeView::Greater => Some(NumberOp::Greater),
        TokenTypeView::GreaterEqual => Some(NumberOp::GreaterEqual),
        TokenTypeView::Less => Some(NumberOp::Less),
        TokenTypeView::LessEqual => Some(NumberOp::LessEqual),
        TokenTypeView::EqualEqual => Some(NumberOp::Equal),
        TokenTypeView::BangEqual => Some(NumberOp::NotEqual),
        _ => None,
    }
}

/// Applying a unary operator to a value.
pub open spec fn step_unary(s: State, op: TokenView, v: ValueView) -> (State, RequestView) {
    match op.kind {
        TokenTypeView::Bang => s.value(ValueView::Boolean(!v.is_truthy())),
        TokenTypeView::Minus => match v {
            ValueView::Number(bits) => s.ask(RequestView::Negate(bits)),
            _ => s.fail(op, minus_needs_number()),
        },
        _ => s.fail(op, unknown_operator()),
    }
}

/// Applying a binary operator to two values.
pub open spec fn step_binary(s: State, op: TokenView, left: ValueView, right: ValueView) -> (
    State,
    RequestView,
) {
    match number_op(op.kind) {
        None => s.fail(op, unknown_operator()),
        Some(operation) => match (left, right) {
            (ValueView::Number(a), ValueView::Number(b)) => s.ask(
                RequestView::Calculate(operation, a, b),
            ),
            _ => match operation {
                NumberOp::Equal => s.value(ValueView::Boolean(left.equals(right) == Some(true))),
                NumberOp::NotEqual => s.value(
                    ValueView::Boolean(left.equals(right) != Some(true)),
                ),
                NumberOp::Add => match (left, right) {
                    (ValueView::String(a), ValueView::String(b)) => s.value(
                        ValueView::String(a + b),
                    ),
                    _ => s.fail(op, plus_needs_alike()),
                },
                _ => s.fail(op, needs_two_numbers()),
            },
        },
    }
}

/// The scope of a call: the first `n` parameters bound to the arguments
/// at the same places.
pub open spec fn bind_params(params: Seq<TokenView>, values: Seq<ValueView>, n: nat) -> Map<
    Seq<char>,
    ValueView,
>
    decreases n,
{
    if n == 0 {
        Map::empty()
    } else {
        let i = (n - 1) as nat;
        let rest = bind_params(params, values, i);
        if i < params.len() && i < values.len() {
            rest.insert(params[i as int].kind.lexeme(), values[i as int])
        } else {
            rest
        }
    }
}

/// Calling `callee` with the argument values `values`.
pub open spec fn invoke(s: State, callee: CallableView, values: Seq<ValueView>) -> (
    State,
    RequestView,
) {
    match callee.dispatch {
        DispatchView::Clock => s.ask(RequestView::Clock),
        DispatchView::Declared(params, body) => State {
            env: s.env.push(bind_params(params, values, params.len())),
            ..s
        }.push(FrameView::EndCall).push(FrameView::Sequence(body, 0)).value(ValueView::Nil),
    }
}

/// Leaving the innermost call with the value `v`: frames are dropped up to
/// the end of the call, and with each frame that closes a scope, a scope.
pub open spec fn unwind(s: State, keyword: TokenView, v: ValueView) -> (State, RequestView)
    decreases s.frames.len(),
{
    if s.frames.len() == 0 {
        s.fail(keyword, return_outside_function())
    } else {
        let rest = State { frames: s.frames.drop_last(), ..s };
        match s.frames.last() {
            FrameView::EndCall => State { env: s.env.drop_last(), ..rest }.value(v),
            FrameView::PopScope => unwind(State { env: s.env.drop_last(), ..rest }, keyword, v),
            _ => unwind(rest, keyword, v),
        }
    }
}

/// Handing the value `v` to the frame `frame`, which has left the frames.
pub open spec fn step_frame(s: State, frame: FrameView, v: ValueView) -> (State, RequestView) {
    match frame {
        FrameView::Unary(op) => step_unary(s, op, v),
        FrameView::BinaryRight(op, right) => s.push(FrameView::BinaryApply(op, v)).eval(right),
        FrameView::BinaryApply(op, left) => step_binary(s, op, left, v),
        FrameView::Logical(op, right) => if (op.kind is Or) == v.is_truthy() {
            s.value(v)
        } else {
            s.eval(right)
        },
        FrameView::Assign(name, id) => write_variable(s, name, id, v),
        FrameView::Callee(paren, args) => match v {
            ValueView::Function(callee) => if args.len() != callee.arity {
                s.fail(paren, wrong_arity(callee.arity, args.len()))
            } else if args.len() == 0 {
                invoke(s, callee, Seq::empty())
            } else {
                s.push(FrameView::Argument(paren, callee, args, Seq::empty())).eval(args[0])
            },
            _ => s.fail(paren, not_callable()),
        },
        FrameView::Argument(paren, callee, args, done) => {
            let values = done.push(v);
            if values.len() < args.len() {
                s.push(FrameView::Argument(paren, callee, args, values)).eval(
                    args[values.len() as int],
                )
            } else {
                invoke(s, callee, values)
            }
        },
        FrameView::Print => match v.display() {
            Some(text) => (
                State { control: ControlView::Value(ValueView::Nil), ..s },
                RequestView::Print(text),
            ),
            None => (
                State { control: ControlView::Value(ValueView::Nil), ..s },
                RequestView::PrintNumber(v->Number_0),
            ),
        },
        FrameView::Define(name) => State {
            env: bind_at(s.env, s.env.len() - 1, name, v),
            ..s
        }.value(ValueView::Nil),
        FrameView::Branch(then_branch, else_branch) => if v.is_truthy() {
            s.exec(then_branch)
        } else {
            s.exec(else_branch)
        },
        FrameView::LoopTest(cond, body) => if v.is_truthy() {
            s.push(FrameView::LoopBody(cond, body)).exec(body)
        } else {
            s.value(ValueView::Nil)
        },
        FrameView::LoopBody(cond, body) => s.push(FrameView::LoopTest(cond, body)).eval(cond),
        FrameView::Sequence(list, next) => if next < list.len() {
            s.push(FrameView::Sequence(list, next + 1)).exec(list[next as int])
        } else {
            s.value(ValueView::Nil)
        },
        FrameView::PopScope => State { env: s.env.drop_last(), ..s }.value(ValueView::Nil),
        FrameView::Return(keyword) => unwind(s, keyword, v),
        FrameView::EndCall => State { env: s.env.drop_last(), ..s }.value(ValueView::Nil),
    }
}

/// One step of the machine. `reply` answers the request of the step
/// before, and counts only where the machine waits for it.
pub open spec fn step(s: State, reply: Reply) -> (State, RequestView) {
    match s.control {
        ControlView::Await => s.value(reply_value(reply)),
        ControlView::Eval(e) => step_eval(s, e),
        ControlView::Exec(stmt) => step_exec(s, stmt),
        ControlView::Value(v) => if s.frames.len() == 0 {
            (s, RequestView::Finished)
        } else {
            step_frame(State { frames: s.frames.drop_last(), ..s }, s.frames.last(), v)
        },
    }
}

/// Up to `budget` steps, ending with the first that asks something of the
/// host.
pub open spec fn run(s: State, reply: Reply, budget: nat) -> (State, RequestView)
    decreases budget,
{
    if budget == 0 {
        (s, RequestView::Continue)
    } else {
        let (next, request) = step(s, reply);
        if request is Continue {
            run(next, Reply::Nothing, (budget - 1) as nat)
        } else {
            (next, request)
        }
    }
}

/// The state in which the program `program` is about to start, in the
/// global scope of `s`.
pub open spec fn loaded(s: State, program: Seq<StmtView>) -> State {
    State {
        env: s.env.take(1),
        depths: s.depths,
        frames: seq![FrameView::Sequence(program, 0)],
        control: ControlView::Value(ValueView::Nil),
    }
}

} // verus!
