pub mod globals;
pub mod laws;
pub mod machine;

use std::collections::HashMap;
use vstd::prelude::*;
use vstd::string::*;
use crate::environment::{undefined, Environment};
use crate::errors::{Error, ErrorView};
use crate::expr::{expr_views, lemma_call_view, Expr, Literal};
use crate::interpreter::laws::{
    lemma_invoke_balanced, lemma_open_scopes_push, lemma_step_balanced,
    lemma_step_ignores_control,
};
use crate::interpreter::machine::{
    bind_params, home_scope, invoke, loaded, number_op, read_variable, run, step,
    step_binary,
    step_eval, step_exec, step_frame, step_unary, unwind, write_variable,
    ControlView, FrameView, NumberOp, Reply, RequestView, State,
};
use crate::token::token_views;
use crate::stmt::{lemma_block_view, lemma_function_view, stmt_views, Stmt};
use crate::text::decimal_string;
use crate::token::{lemma_kind_view, Token, TokenType};
use crate::value::{Callable, Dispatch, LoxValue, ValueView};

verus! {

/// What a step asks of the host. The host answers a request for a number
/// or for the outcome of an operation with the next step's reply.
#[derive(Debug)]
pub enum Request {
    /// Nothing is asked; the run goes on with the next step.
    Continue,
    /// The program has run to its end.
    Finished,
    /// The run was given up with this error.
    Failed(Error),
    /// Write this line.
    Print(String),
    /// Write this number on a line.
    PrintNumber(u64),
    /// Reply with the number that these digits denote.
    Number(String),
    /// Reply with the negation of this number.
    Negate(u64),
    /// Reply with the outcome of this operation on these two numbers.
    Calculate(NumberOp, u64, u64),
    /// Reply with the time in seconds.
    Clock,
}

impl View for Request {
    type V = RequestView;

    open spec fn view(&self) -> RequestView {
        match self {
            Request::Continue => RequestView::Continue,
            Request::Finished => RequestView::Finished,
            Request::Failed(e) => RequestView::Failed(e@),
            Request::Print(text) => RequestView::Print(text@),
            Request::PrintNumber(bits) => RequestView::PrintNumber(*bits),
            Request::Number(digits) => RequestView::Number(digits@),
            Request::Negate(bits) => RequestView::Negate(*bits),
            Request::Calculate(op, a, b) => RequestView::Calculate(*op, *a, *b),
            Request::Clock => RequestView::Clock,
        }
    }
}

/// The models of a list of values.
pub open spec fn value_seq(values: Seq<LoxValue>) -> Seq<ValueView> {
    Seq::new(values.len(), |i: int| values[i]@)
}

/// Work that waits for a value: the rest of an expression or of a
/// statement, to be taken up when the part before it has its value.
#[derive(Debug)]
pub enum Frame<'a> {
    /// Apply a unary operator.
    Unary(&'a Token),
    /// The left operand arrives; the right one is evaluated next.
    BinaryRight(&'a Token, &'a Expr),
    /// The right operand arrives; the operator is applied to both.
    BinaryApply(&'a Token, LoxValue<'a>),
    /// The left operand of `and` or `or` arrives.
    Logical(&'a Token, &'a Expr),
    /// The value to assign arrives.
    Assign(&'a Token, usize),
    /// The callee arrives.
    Callee(&'a Token, &'a Vec<Box<Expr>>),
    /// An argument arrives.
    Argument(&'a Token, Callable<'a>, &'a Vec<Box<Expr>>, Vec<LoxValue<'a>>),
    /// The value to print arrives.
    Print,
    /// The initial value of a variable arrives.
    Define(&'a String),
    /// The condition of an `if` arrives.
    Branch(&'a Stmt, &'a Stmt),
    /// The condition of a `while` arrives.
    LoopTest(&'a Expr, &'a Stmt),
    /// The body of a `while` has run.
    LoopBody(&'a Expr, &'a Stmt),
    /// The statements of a list from the given place on are still to run.
    Sequence(&'a Vec<Stmt>, usize),
    /// A block ends: its scope is closed.
    PopScope,
    /// The value to return arrives.
    Return(&'a Token),
    /// A call ends: its scope is closed.
    EndCall,
}

impl<'a> View for Frame<'a> {
    type V = FrameView;

    open spec fn view(&self) -> FrameView {
        match self {
            Frame::Unary(op) => FrameView::Unary(op@),
            Frame::BinaryRight(op, right) => FrameView::BinaryRight(op@, right@),
            Frame::BinaryApply(op, left) => FrameView::BinaryApply(op@, left@),
            Frame::Logical(op, right) => FrameView::Logical(op@, right@),
            Frame::Assign(name, id) => FrameView::Assign(name@, *id),
            Frame::Callee(paren, args) => FrameView::Callee(paren@, expr_views(args@)),
            Frame::Argument(paren, callee, args, done) => FrameView::Argument(
                paren@,
                callee@,
                expr_views(args@),
                value_seq(done@),
            ),
            Frame::Print => FrameView::Print,
            Frame::Define(name) => FrameView::Define(name@),
            Frame::Branch(then_branch, else_branch) => FrameView::Branch(
                then_branch@,
                else_branch@,
            ),
            Frame::LoopTest(cond, body) => FrameView::LoopTest(cond@, body@),
            Frame::LoopBody(cond, body) => FrameView::LoopBody(cond@, body@),
            Frame::Sequence(list, next) => FrameView::Sequence(stmt_views(list@), *next as nat),
            Frame::PopScope => FrameView::PopScope,
            Frame::Return(keyword) => FrameView::Return(keyword@),
            Frame::EndCall => FrameView::EndCall,
        }
    }
}

/// The models of a list of frames.
pub open spec fn frame_views(frames: Seq<Frame>) -> Seq<FrameView> {
    Seq::new(frames.len(), |i: int| frames[i]@)
}

/// What the machine does next: evaluate an expression, execute a
/// statement, hand a value to the innermost frame, or wait for the host's
/// reply.
#[derive(Debug)]
pub enum Control<'a> {
    Eval(&'a Expr),
    Exec(&'a Stmt),
    Value(LoxValue<'a>),
    Await,
}

impl<'a> View for Control<'a> {
    type V = ControlView;

    open spec fn view(&self) -> ControlView {
        match self {
            Control::Eval(e) => ControlView::Eval(e@),
            Control::Exec(stmt) => ControlView::Exec(stmt@),
            Control::Value(v) => ControlView::Value(v@),
            Control::Await => ControlView::Await,
        }
    }
}

/// The state of a fresh interpreter: the global scope with the builtins,
/// no resolved depth, nothing to run.
pub open spec fn initial() -> State {
    State {
        env: seq![Map::<Seq<char>, ValueView>::empty().insert("clock"@, globals::clock_view())],
        depths: Map::empty(),
        frames: Seq::empty(),
        control: ControlView::Value(ValueView::Nil),
    }
}

fn runtime(token: &Token, msg: &str) -> (e: Error)
    ensures
        e@ == ErrorView::Runtime(token@, msg@),
{
    Error::Runtime(token.duplicate(), String::from_str(msg))
}

/// That both operands are numbers.
fn assert_two_numbers(op: &Token, left: &LoxValue, right: &LoxValue) -> (result: Result<(), Error>)
    ensures
        match result {
            Ok(_) => left@ is Number && right@ is Number,
            Err(e) => !(left@ is Number && right@ is Number) && e@ == ErrorView::Runtime(
                op@,
                machine::needs_two_numbers(),
            ),
        },
{
    if left.type_matches(right) && left.is_number() {
        Ok(())
    } else {
        Err(runtime(op, "operands must be two numbers"))
    }
}

fn number_op_of(kind: &TokenType) -> (op: Option<NumberOp>)
    ensures
        op == number_op(kind@),
{
    proof {
        lemma_kind_view(*kind);
    }
    match kind {
        TokenType::Plus => Some(NumberOp::Add),
        TokenType::Minus => Some(NumberOp::Subtract),
        TokenType::Star => Some(NumberOp::Multiply),
        TokenType::Slash => Some(NumberOp::Divide),
        TokenType::Greater => Some(NumberOp::Greater),
        TokenType::GreaterEqual => Some(NumberOp::GreaterEqual),
        TokenType::Less => Some(NumberOp::Less),
        TokenType::LessEqual => Some(NumberOp::LessEqual),
        TokenType::EqualEqual => Some(NumberOp::Equal),
        TokenType::BangEqual => Some(NumberOp::NotEqual),
        _ => None,
    }
}

/// A tree-walking interpreter, run step by step. It decides what happens
/// next; what only the host can do (arithmetic on numbers, reading digits,
/// the clock, writing a line) it asks of the host with a [`Request`].
#[derive(Debug)]
pub struct Interpreter<'a> {
    env: Environment<'a>,
    depths: HashMap<usize, usize>,
    frames: Vec<Frame<'a>>,
    control: Control<'a>,
}

impl<'a> View for Interpreter<'a> {
    type V = State;

    closed spec fn view(&self) -> State {
        State {
            env: self.env@,
            depths: self.depths@,
            frames: frame_views(self.frames@),
            control: self.control@,
        }
    }
}

impl<'a> Interpreter<'a> {
    /// Beside the global scope there is one scope for each block and each
    /// call that has been entered and not yet left.
    pub open spec fn wf(&self) -> bool {
        self@.balanced()
    }

    /// An interpreter with the builtins in its global scope and nothing to
    /// run.
    pub fn new() -> (interp: Interpreter<'a>)
        ensures
            interp.wf(),
            interp@ == initial(),
    {
        let mut interp = Interpreter {
            env: Environment::new(),
            depths: HashMap::new(),
            frames: Vec::new(),
            control: Control::Value(LoxValue::Nil),
        };
        globals::install_in(&mut interp.env);
        proof {
            assert(interp@.env =~= initial().env);
            assert(interp@.frames =~= initial().frames);
            assert(interp@.depths =~= initial().depths);
        }
        interp
    }

    /// Records that the variable used at node `id` lives `depth` scopes
    /// out from the innermost.
    pub fn resolve(&mut self, id: usize, depth: usize)
        ensures
            final(self)@ == (State { depths: old(self)@.depths.insert(id, depth), ..old(self)@ }),
    {
        broadcast use vstd::std_specs::hash::group_hash_axioms;

        self.depths.insert(id, depth);
    }

    /// Takes over the depths that a resolver recorded, in place of those
    /// recorded before.
    pub fn install(&mut self, depths: HashMap<usize, usize>)
        ensures
            final(self)@ == (State { depths: depths@, ..old(self)@ }),
    {
        self.depths = depths;
    }

    /// Makes `statements` the program to run: whatever ran before is
    /// dropped, and the global scope alone is kept.
    pub fn interpret(&mut self, statements: &'a Vec<Stmt>)
        requires
            old(self).wf(),
        ensures
            final(self).wf(),
            final(self)@ == loaded(old(self)@, stmt_views(statements@)),
    {
        self.drop_to_global();
        self.frames.push(Frame::Sequence(statements, 0));
        proof {
            assert(self@.frames =~= seq![FrameView::Sequence(stmt_views(statements@), 0)]);
            lemma_open_scopes_push(Seq::empty(), FrameView::Sequence(stmt_views(statements@), 0));
            assert(old(self)@.env.take(1).len() == 1);
        }
    }

    /// Drops the frames and every scope but the global one.
    fn drop_to_global(&mut self)
        requires
            old(self).env@.len() >= 1,
        ensures
            final(self)@ == (State {
                env: old(self)@.env.take(1),
                frames: Seq::empty(),
                control: ControlView::Value(ValueView::Nil),
                ..old(self)@
            }),
    {
        assert(self.env@.take(self.env@.len() as int) =~= self.env@);
        while self.env.depth() > 1
            invariant
                1 <= self.env@.len() <= old(self).env@.len(),
                self.env@ == old(self).env@.take(self.env@.len() as int),
                self.depths == old(self).depths,
            decreases self.env@.len(),
        {
            self.env.pop_scope();
            assert(old(self).env@.take(self.env@.len() as int + 1).drop_last() =~= old(self).env@.take(
                self.env@.len() as int,
            ));
        }
        self.frames = Vec::new();
        self.control = Control::Value(LoxValue::Nil);
        assert(self@.frames =~= Seq::<FrameView>::empty());
    }

    /// Gives the run up with the error `e`.
    fn fail(&mut self, e: Error) -> (request: Request)
        requires
            old(self).env@.len() >= 1,
        ensures
            request@ == RequestView::Failed(e@),
            final(self)@ == (State {
                env: old(self)@.env.take(1),
                frames: Seq::empty(),
                control: ControlView::Value(ValueView::Nil),
                ..old(self)@
            }),
    {
        self.drop_to_global();
        Request::Failed(e)
    }

    fn push_frame(&mut self, frame: Frame<'a>)
        ensures
            final(self)@ == old(self)@.push(frame@),
    {
        self.frames.push(frame);
        assert(self@.frames =~= old(self)@.frames.push(frame@));
    }

    /// How many scopes out from the innermost the variable at the node `id`
    /// lives: the depth recorded for the node, or the way out to the global
    /// scope where none is recorded.
    fn distance(&self, id: usize) -> (dist: usize)
        requires
            self.env@.len() >= 1,
        ensures
            match home_scope(self@, id) {
                Some(i) => dist < self.env@.len() && i == self.env@.len() - 1 - dist,
                None => dist >= self.env@.len(),
            },
    {
        broadcast use vstd::std_specs::hash::group_hash_axioms;

        match self.depths.get(&id) {
            Some(d) => *d,
            None => self.env.depth() - 1,
        }
    }

    fn read_variable(&mut self, name: &'a Token, id: usize) -> (request: Request)
        requires
            old(self).env@.len() >= 1,
        ensures
            (final(self)@, request@) == read_variable(old(self)@, name@, id),
    {
        let dist = self.distance(id);
        if self.env.has_at(dist, name) {
            match self.env.get_at(dist, name) {
                Ok(v) => {
                    self.control = Control::Value(v);
                    Request::Continue
                },
                Err(e) => self.fail(e),
            }
        } else {
            let text = name.lexeme();
            self.fail(undefined(name, &text))
        }
    }

    fn write_variable(&mut self, name: &'a Token, id: usize, v: LoxValue<'a>) -> (request: Request)
        requires
            old(self).env@.len() >= 1,
        ensures
            (final(self)@, request@) == write_variable(old(self)@, name@, id, v@),
    {
        let dist = self.distance(id);
        if self.env.has_at(dist, name) {
            match self.env.assign_at(dist, name, v.duplicate()) {
                Ok(_) => {
                    self.control = Control::Value(v);
                    Request::Continue
                },
                Err(e) => self.fail(e),
            }
        } else {
            let text = name.lexeme();
            self.fail(undefined(name, &text))
        }
    }

    /// The first step of evaluating an expression.
    fn eval_expr(&mut self, expr: &'a Expr) -> (request: Request)
        requires
            old(self).env@.len() >= 1,
        ensures
            (final(self)@, request@) == step_eval(old(self)@, expr@),
    {
        match expr {
            Expr::Literal(literal) => match LoxValue::from_literal(literal) {
                Some(v) => {
                    self.control = Control::Value(v);
                    Request::Continue
                },
                None => {
                    self.control = Control::Await;
                    match literal {
                        Literal::Number(digits) => Request::Number(digits.clone()),
                        _ => vstd::pervasive::unreached(),
                    }
                },
            },
            Expr::Grouping(inner) => {
                self.control = Control::Eval(&**inner);
                Request::Continue
            },
            Expr::Unary(op, right) => {
                self.push_frame(Frame::Unary(op));
                self.control = Control::Eval(&**right);
                Request::Continue
            },
            Expr::Binary(left, op, right) => {
                self.push_frame(Frame::BinaryRight(op, &**right));
                self.control = Control::Eval(&**left);
                Request::Continue
            },
            Expr::Logical(left, op, right) => {
                self.push_frame(Frame::Logical(op, &**right));
                self.control = Control::Eval(&**left);
                Request::Continue
            },
            Expr::Variable(name, id) => self.read_variable(name, *id),
            Expr::Assign(name, value, id) => {
                self.push_frame(Frame::Assign(name, *id));
                self.control = Control::Eval(&**value);
                Request::Continue
            },
            Expr::Call(callee, paren, args) => {
                proof {
                    lemma_call_view(*callee, *paren, *args);
                }
                self.push_frame(Frame::Callee(paren, args));
                self.control = Control::Eval(&**callee);
                Request::Continue
            },
        }
    }

    /// The first step of executing a statement.
    fn execute(&mut self, stmt: &'a Stmt) -> (request: Request)
        requires
            old(self).env@.len() >= 1,
        ensures
            (final(self)@, request@) == step_exec(old(self)@, stmt@),
    {
        match stmt {
            Stmt::Empty => {
                self.control = Control::Value(LoxValue::Nil);
            },
            Stmt::Block(block) => {
                proof {
                    lemma_block_view(*block);
                }
                self.execute_block(block);
            },
            Stmt::Expression(e) => {
                self.control = Control::Eval(&**e);
            },
            Stmt::Print(e) => {
                self.push_frame(Frame::Print);
                self.control = Control::Eval(&**e);
            },
            Stmt::Var(name, init) => {
                self.push_frame(Frame::Define(name));
                self.control = Control::Eval(&**init);
            },
            Stmt::Function(name, params, body) => {
                proof {
                    lemma_function_view(*name, *params, *body);
                }
                let callable = Callable::new(
                    name.lexeme(),
                    params.len(),
                    Dispatch::Declared(params, body),
                );
                let text = name.lexeme();
                self.env.define(text.as_str(), LoxValue::Function(Box::new(callable)));
                self.control = Control::Value(LoxValue::Nil);
            },
            Stmt::If(cond, then_branch, else_branch) => {
                self.push_frame(Frame::Branch(&**then_branch, &**else_branch));
                self.control = Control::Eval(&**cond);
            },
            Stmt::While(cond, body) => {
                self.push_frame(Frame::LoopTest(&**cond, &**body));
                self.control = Control::Eval(&**cond);
            },
            Stmt::Return(keyword, e) => {
                self.push_frame(Frame::Return(keyword));
                self.control = Control::Eval(&**e);
            },
        }
        Request::Continue
    }

    /// Enters a block: a scope is opened, to be closed when the statements
    /// have run.
    fn execute_block(&mut self, block: &'a Vec<Stmt>)
        ensures
            final(self)@ == (State {
                env: old(self)@.env.push(Map::empty()),
                control: ControlView::Value(ValueView::Nil),
                ..old(self)@
            }).push(FrameView::PopScope).push(FrameView::Sequence(stmt_views(block@), 0)),
    {
        self.env.push_scope();
        self.push_frame(Frame::PopScope);
        self.push_frame(Frame::Sequence(block, 0));
        self.control = Control::Value(LoxValue::Nil);
    }

    /// Applies a unary operator to the value of its operand.
    fn eval_unary_expr(&mut self, op: &Token, right: LoxValue<'a>) -> (request: Request)
        requires
            old(self).env@.len() >= 1,
        ensures
            (final(self)@, request@) == step_unary(old(self)@, op@, right@),
    {
        proof {
            lemma_kind_view(op.kind);
        }
        match op.kind {
            TokenType::Bang => {
                self.control = Control::Value(LoxValue::Boolean(!right.is_truthy()));
                Request::Continue
            },
            TokenType::Minus => {
                if let LoxValue::Number(n) = right {
                    self.control = Control::Await;
                    Request::Negate(n)
                } else {
                    self.fail(runtime(op, "unary minus only applicable to numbers"))
                }
            },
            _ => self.fail(runtime(op, "unknown operator")),
        }
    }

    /// Applies a binary operator to the values of its operands.
    fn eval_binary_expr(&mut self, op: &Token, left: LoxValue<'a>, right: LoxValue<'a>) -> (request:
        Request)
        requires
            old(self).env@.len() >= 1,
        ensures
            (final(self)@, request@) == step_binary(old(self)@, op@, left@, right@),
    {
        let operation = match number_op_of(&op.kind) {
            Some(operation) => operation,
            None => {
                return self.fail(runtime(op, "unknown operator"));
            },
        };
        match assert_two_numbers(op, &left, &right) {
            Ok(_) => {
                self.control = Control::Await;
                Request::Calculate(operation, left.as_number(), right.as_number())
            },
            Err(e) => match operation {
                // can take any two types
                NumberOp::Equal => {
                    let same = match left.equals(&right) {
                        Some(true) => true,
                        _ => false,
                    };
                    self.control = Control::Value(LoxValue::Boolean(same));
                    Request::Continue
                },
                NumberOp::NotEqual => {
                    let same = match left.equals(&right) {
                        Some(true) => true,
                        _ => false,
                    };
                    self.control = Control::Value(LoxValue::Boolean(!same));
                    Request::Continue
                },
                // plus is overloaded, to work on strings or numbers
                NumberOp::Add => match (left, right) {
                    (LoxValue::String(a), LoxValue::String(b)) => {
                        self.control = Control::Value(LoxValue::String(a.concat(b.as_str())));
                        Request::Continue
                    },
                    _ => self.fail(runtime(op, "+ needs either strings or numbers")),
                },
                // need numbers
                _ => self.fail(e),
            },
        }
    }

    /// Starts a call of `callee` with the argument values `values`.
    fn invoke(&mut self, callee: &Callable<'a>, values: Vec<LoxValue<'a>>) -> (request: Request)
        ensures
            (final(self)@, request@) == invoke(old(self)@, callee@, value_seq(values@)),
    {
        match callee.dispatch {
            Dispatch::Clock => {
                self.control = Control::Await;
                Request::Clock
            },
            Dispatch::Declared(params, body) => {
                self.env.push_scope();
                let ghost names = token_views(params@);
                let ghost given = value_seq(values@);
                let mut i: usize = 0;
                while i < params.len()
                    invariant
                        i <= params@.len(),
                        names == token_views(params@),
                        given == value_seq(values@),
                        self.env@ == old(self).env@.push(bind_params(names, given, i as nat)),
                        self.depths == old(self).depths,
                        self.frames == old(self).frames,
                    decreases params@.len() - i,
                {
                    if i < values.len() {
                        let name = params[i].lexeme();
                        self.env.define(name.as_str(), values[i].duplicate());
                    }
                    i += 1;
                    assert(self.env@ =~= old(self).env@.push(bind_params(names, given, i as nat)));
                }
                self.push_frame(Frame::EndCall);
                self.push_frame(Frame::Sequence(body, 0));
                self.control = Control::Value(LoxValue::Nil);
                Request::Continue
            },
        }
    }

    /// Leaves the innermost call with the value `v`.
    fn unwind(&mut self, keyword: &Token, v: LoxValue<'a>) -> (request: Request)
        requires
            old(self)@.balanced(),
        ensures
            (final(self)@, request@) == unwind(old(self)@, keyword@, v@),
    {
        loop
            invariant
                self@.balanced(),
                unwind(self@, keyword@, v@) == unwind(old(self)@, keyword@, v@),
            decreases self.frames@.len(),
        {
            let ghost before = self@;
            match self.frames.pop() {
                None => {
                    return self.fail(runtime(keyword, "can't return from top-level code"));
                },
                Some(frame) => {
                    assert(frame_views(self.frames@) =~= before.frames.drop_last());
                    assert(frame@ == before.frames.last());
                    match frame {
                        Frame::EndCall => {
                            self.env.pop_scope();
                            self.control = Control::Value(v);
                            return Request::Continue;
                        },
                        Frame::PopScope => {
                            self.env.pop_scope();
                        },
                        _ => {},
                    }
                },
            }
        }
    }

    /// Hands the value `v` to `frame`, which has left the frames.
    fn resume(&mut self, frame: Frame<'a>, v: LoxValue<'a>) -> (request: Request)
        requires
            old(self)@.push(frame@).balanced(),
        ensures
            (final(self)@, request@) == step_frame(old(self)@, frame@, v@),
    {
        proof {
            lemma_open_scopes_push(self@.frames, frame@);
        }
        match frame {
            Frame::Unary(op) => self.eval_unary_expr(op, v),
            Frame::BinaryRight(op, right) => {
                self.push_frame(Frame::BinaryApply(op, v));
                self.control = Control::Eval(right);
                Request::Continue
            },
            Frame::BinaryApply(op, left) => self.eval_binary_expr(op, left, v),
            Frame::Logical(op, right) => {
                let is_or = op.kind_matches(&TokenType::Or);
                if is_or == v.is_truthy() {
                    self.control = Control::Value(v);
                } else {
                    self.control = Control::Eval(right);
                }
                Request::Continue
            },
            Frame::Assign(name, id) => self.write_variable(name, id, v),
            Frame::Callee(paren, args) => {
                if !v.is_callable() {
                    return self.fail(runtime(paren, "can only call functions and classes"));
                }
                let func = v.as_callable().duplicate();
                if args.len() != func.arity {
                    let mut msg = String::from_str("Expected ");
                    msg.append(decimal_string(func.arity).as_str());
                    msg.append(" arguments but got ");
                    msg.append(decimal_string(args.len()).as_str());
                    msg.append(".");
                    return self.fail(Error::Runtime(paren.duplicate(), msg));
                }
                if args.len() == 0 {
                    let values = Vec::new();
                    assert(value_seq(values@) =~= Seq::<ValueView>::empty());
                    self.invoke(&func, values)
                } else {
                    let done = Vec::new();
                    assert(value_seq(done@) =~= Seq::<ValueView>::empty());
                    self.push_frame(Frame::Argument(paren, func, args, done));
                    self.control = Control::Eval(&*args[0]);
                    Request::Continue
                }
            },
            Frame::Argument(paren, callee, args, done) => {
                let mut values = done;
                values.push(v);
                assert(value_seq(values@) =~= value_seq(done@).push(v@));
                let next = values.len();
                if next < args.len() {
                    self.push_frame(Frame::Argument(paren, callee, args, values));
                    self.control = Control::Eval(&*args[next]);
                    Request::Continue
                } else {
                    self.invoke(&callee, values)
                }
            },
            Frame::Print => {
                self.control = Control::Value(LoxValue::Nil);
                match v.display() {
                    Some(text) => Request::Print(text),
                    None => Request::PrintNumber(v.as_number()),
                }
            },
            Frame::Define(name) => {
                self.env.define(name.as_str(), v);
                self.control = Control::Value(LoxValue::Nil);
                Request::Continue
            },
            Frame::Branch(then_branch, else_branch) => {
                if v.is_truthy() {
                    self.control = Control::Exec(then_branch);
                } else {
                    self.control = Control::Exec(else_branch);
                }
                Request::Continue
            },
            Frame::LoopTest(cond, body) => {
                if v.is_truthy() {
                    self.push_frame(Frame::LoopBody(cond, body));
                    self.control = Control::Exec(body);
                } else {
                    self.control = Control::Value(LoxValue::Nil);
                }
                Request::Continue
            },
            Frame::LoopBody(cond, body) => {
                self.push_frame(Frame::LoopTest(cond, body));
                self.control = Control::Eval(cond);
                Request::Continue
            },
            Frame::Sequence(list, next) => {
                if next < list.len() {
                    self.push_frame(Frame::Sequence(list, next + 1));
                    self.control = Control::Exec(&list[next]);
                } else {
                    self.control = Control::Value(LoxValue::Nil);
                }
                Request::Continue
            },
            Frame::PopScope => {
                self.env.pop_scope();
                self.control = Control::Value(LoxValue::Nil);
                Request::Continue
            },
            Frame::Return(keyword) => self.unwind(keyword, v),
            Frame::EndCall => {
                self.env.pop_scope();
                self.control = Control::Value(LoxValue::Nil);
                Request::Continue
            },
        }
    }

    /// One step of the run. `reply` answers the request of the step
    /// before; it counts only where that request asked for an answer.
    pub fn step(&mut self, reply: Reply) -> (request: Request)
        requires
            old(self).wf(),
        ensures
            final(self).wf(),
            (final(self)@, request@) == step(old(self)@, reply),
    {
        proof {
            lemma_step_balanced(self@, reply);
        }
        let mut control = Control::Await;
        std::mem::swap(&mut control, &mut self.control);
        proof {
            lemma_step_ignores_control(old(self)@, ControlView::Await);
        }
        match control {
            Control::Await => {
                self.control = Control::Value(
                    match reply {
                        Reply::Nothing => LoxValue::Nil,
                        Reply::Number(bits) => LoxValue::Number(bits),
                        Reply::Truth(b) => LoxValue::Boolean(b),
                    },
                );
                Request::Continue
            },
            Control::Eval(e) => self.eval_expr(e),
            Control::Exec(stmt) => self.execute(stmt),
            Control::Value(v) => {
                let ghost before = self@;
                match self.frames.pop() {
                    None => {
                        self.control = Control::Value(v);
                        Request::Finished
                    },
                    Some(frame) => {
                        assert(frame_views(self.frames@) =~= before.frames.drop_last());
                        assert(frame@ == before.frames.last());
                        assert(self@.frames.push(frame@) =~= before.frames);
                        self.resume(frame, v)
                    },
                }
            },
        }
    }

    /// Up to `budget` steps of the run, ending with the first that asks
    /// something of the host. `Continue` means that the budget is spent and
    /// the run can go on.
    pub fn run(&mut self, reply: Reply, budget: usize) -> (request: Request)
        requires
            old(self).wf(),
        ensures
            final(self).wf(),
            (final(self)@, request@) == run(old(self)@, reply, budget as nat),
    {
        let mut left = budget;
        let mut answer = reply;
        while left > 0
            invariant
                self.wf(),
                run(self@, answer, left as nat) == run(old(self)@, reply, budget as nat),
            decreases left,
        {
            let request = self.step(answer);
            match request {
                Request::Continue => {},
                _ => {
                    return request;
                },
            }
            answer = Reply::Nothing;
            left -= 1;
        }
        Request::Continue
    }
}

impl<'a> Callable<'a> {
    /// Starts a call of this callable in `interp`, with the argument values
    /// `args`.
    pub fn call(&self, interp: &mut Interpreter<'a>, args: Vec<LoxValue<'a>>) -> (request: Request)
        requires
            old(interp).wf(),
        ensures
            final(interp).wf(),
            (final(interp)@, request@) == invoke(old(interp)@, self@, value_seq(args@)),
    {
        proof {
            lemma_invoke_balanced(interp@, self@, value_seq(args@));
        }
        interp.invoke(self, args)
    }
}

} // verus!
