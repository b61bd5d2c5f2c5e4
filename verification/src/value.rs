use vstd::prelude::*;
use vstd::string::*;
use crate::expr::{Literal, LiteralView};
use crate::token::token_views;
use crate::stmt::{stmt_views, Stmt, StmtView};
use crate::token::{Token, TokenView};

verus! {

/// What a call of a callable runs.
#[derive(Debug, Clone, Copy)]
pub enum Dispatch<'a> {
    /// The builtin `clock`: asks for the time in seconds.
    Clock,
    /// A declared function: its parameters and its body.
    Declared(&'a Vec<Token>, &'a Vec<Stmt>),
}

/// The mathematical model of a [`Dispatch`].
pub enum DispatchView {
    Clock,
    Declared(Seq<TokenView>, Seq<StmtView>),
}

impl<'a> View for Dispatch<'a> {
    type V = DispatchView;

    open spec fn view(&self) -> DispatchView {
        match self {
            Dispatch::Clock => DispatchView::Clock,
            Dispatch::Declared(params, body) => DispatchView::Declared(
                token_views(params@),
                stmt_views(body@),
            ),
        }
    }
}

/// A value that can be called: its name, the number of arguments it takes,
/// and what a call runs.
#[derive(Debug, Clone)]
pub struct Callable<'a> {
    pub name: String,
    pub arity: usize,
    pub dispatch: Dispatch<'a>,
}

/// The mathematical model of a [`Callable`].
pub struct CallableView {
    pub name: Seq<char>,
    pub arity: nat,
    pub dispatch: DispatchView,
}

impl<'a> View for Callable<'a> {
    type V = CallableView;

    open spec fn view(&self) -> CallableView {
        CallableView { name: self.name@, arity: self.arity as nat, dispatch: self.dispatch@ }
    }
}

impl<'a> Callable<'a> {
    /// A callable of the name `name` that takes `arity` arguments.
    pub fn new(name: String, arity: usize, dispatch: Dispatch<'a>) -> (callable: Callable<'a>)
        ensures
            callable.name == name,
            callable.arity == arity,
            callable.dispatch == dispatch,
    {
        Callable { name, arity, dispatch }
    }

    /// A copy of this callable.
    pub fn duplicate(&self) -> (copy: Callable<'a>)
        ensures
            copy == *self,
    {
        Callable { name: self.name.clone(), arity: self.arity, dispatch: self.dispatch }
    }
}

/// A value of a running program. A number is held as the 64 bits of its
/// binary64 encoding; the library moves such a value about and never looks
/// into it.
#[derive(Debug, Clone)]
pub enum LoxValue<'a> {
    Number(u64),
    String(String),
    Boolean(bool),
    Function(Box<Callable<'a>>),
    Nil,
}

/// The mathematical model of a [`LoxValue`].
pub enum ValueView {
    Number(u64),
    String(Seq<char>),
    Boolean(bool),
    Function(CallableView),
    Nil,
}

impl<'a> View for LoxValue<'a> {
    type V = ValueView;

    open spec fn view(&self) -> ValueView {
        match self {
            LoxValue::Number(bits) => ValueView::Number(*bits),
            LoxValue::String(text) => ValueView::String(text@),
            LoxValue::Boolean(b) => ValueView::Boolean(*b),
            LoxValue::Function(callable) => ValueView::Function(callable@),
            LoxValue::Nil => ValueView::Nil,
        }
    }
}

impl ValueView {
    /// Everything is truthy but `nil` and `false`.
    pub open spec fn is_truthy(self) -> bool {
        !(self is Nil) && self != ValueView::Boolean(false)
    }

    /// Whether two values are of the same type.
    pub open spec fn same_type(self, other: ValueView) -> bool {
        match (self, other) {
            (ValueView::Number(_), ValueView::Number(_)) => true,
            (ValueView::String(_), ValueView::String(_)) => true,
            (ValueView::Boolean(_), ValueView::Boolean(_)) => true,
            (ValueView::Function(_), ValueView::Function(_)) => true,
            (ValueView::Nil, ValueView::Nil) => true,
            _ => false,
        }
    }

    /// Whether two values are equal, where that is known without comparing
    /// two numbers: values of different types are unequal, `nil` equals
    /// `nil`, and no function equals any function.
    pub open spec fn equals(self, other: ValueView) -> Option<bool> {
        match (self, other) {
            (ValueView::Number(_), ValueView::Number(_)) => None,
            (ValueView::String(a), ValueView::String(b)) => Some(a == b),
            (ValueView::Boolean(a), ValueView::Boolean(b)) => Some(a == b),
            (ValueView::Nil, ValueView::Nil) => Some(true),
            _ => Some(false),
        }
    }

    /// How a value that is no number is printed.
    pub open spec fn display(self) -> Option<Seq<char>> {
        match self {
            ValueView::Number(_) => None,
            ValueView::String(text) => Some(text),
            ValueView::Boolean(b) => Some(
                if b {
                    "true"@
                } else {
                    "false"@
                },
            ),
            ValueView::Function(callable) => Some("<fn "@ + callable.name + ">"@),
            ValueView::Nil => Some("nil"@),
        }
    }
}

/// The value of a literal that is no number.
pub open spec fn literal_value(literal: LiteralView) -> Option<ValueView> {
    match literal {
        LiteralView::Number(_) => None,
        LiteralView::String(text) => Some(ValueView::String(text)),
        LiteralView::Boolean(b) => Some(ValueView::Boolean(b)),
        LiteralView::Nil => Some(ValueView::Nil),
    }
}

impl<'a> LoxValue<'a> {
    /// Whether the value counts as true: every value but `nil` and `false`
    /// does.
    pub fn is_truthy(&self) -> (yes: bool)
        ensures
            yes == self@.is_truthy(),
    {
        match self {
            LoxValue::Nil => false,
            LoxValue::Boolean(val) => *val,
            _ => true,
        }
    }

    /// Whether the value is a number.
    pub fn is_number(&self) -> (yes: bool)
        ensures
            yes == (self@ is Number),
    {
        match self {
            LoxValue::Number(_) => true,
            _ => false,
        }
    }

    /// The bits of a number.
    pub fn as_number(&self) -> (bits: u64)
        requires
            self@ is Number,
        ensures
            self@ == ValueView::Number(bits),
    {
        match self {
            LoxValue::Number(bits) => *bits,
            _ => vstd::pervasive::unreached(),
        }
    }

    /// Whether the value can be called.
    pub fn is_callable(&self) -> (yes: bool)
        ensures
            yes == (self@ is Function),
    {
        match self {
            LoxValue::Function(_) => true,
            _ => false,
        }
    }

    /// The callable of a function value.
    pub fn as_callable(&self) -> (callable: &Callable<'a>)
        requires
            self@ is Function,
        ensures
            *self == LoxValue::Function(Box::new(*callable)),
    {
        match self {
            LoxValue::Function(c) => &**c,
            _ => vstd::pervasive::unreached(),
        }
    }

    /// Whether the two values are of the same type.
    pub fn type_matches(&self, other: &LoxValue<'a>) -> (same: bool)
        ensures
            same == self@.same_type(other@),
    {
        match (self, other) {
            (LoxValue::Number(_), LoxValue::Number(_)) => true,
            (LoxValue::String(_), LoxValue::String(_)) => true,
            (LoxValue::Boolean(_), LoxValue::Boolean(_)) => true,
            (LoxValue::Function(_), LoxValue::Function(_)) => true,
            (LoxValue::Nil, LoxValue::Nil) => true,
            _ => false,
        }
    }

    /// The value of a literal, unless the literal is a number.
    pub fn from_literal(literal: &Literal) -> (value: Option<LoxValue<'a>>)
        ensures
            match value {
                Some(v) => literal_value(literal@) == Some(v@),
                None => literal_value(literal@) is None,
            },
    {
        match literal {
            Literal::Number(_) => None,
            Literal::String(text) => Some(LoxValue::String(text.clone())),
            Literal::Boolean(b) => Some(LoxValue::Boolean(*b)),
            Literal::Nil => Some(LoxValue::Nil),
        }
    }

    /// Whether two values are equal, unless both are numbers.
    pub fn equals(&self, other: &LoxValue<'a>) -> (same: Option<bool>)
        ensures
            same == self@.equals(other@),
    {
        match (self, other) {
            (LoxValue::Number(_), LoxValue::Number(_)) => None,
            (LoxValue::String(a), LoxValue::String(b)) => Some(*a == *b),
            (LoxValue::Boolean(a), LoxValue::Boolean(b)) => Some(*a == *b),
            (LoxValue::Nil, LoxValue::Nil) => Some(true),
            _ => Some(false),
        }
    }

    /// How the value is printed, unless it is a number.
    pub fn display(&self) -> (text: Option<String>)
        ensures
            match text {
                Some(t) => self@.display() == Some(t@),
                None => self@.display() is None,
            },
    {
        match self {
            LoxValue::Number(_) => None,
            LoxValue::String(text) => Some(text.clone()),
            LoxValue::Boolean(b) => Some(
                if *b {
                    String::from_str("true")
                } else {
                    String::from_str("false")
                },
            ),
            LoxValue::Function(callable) => {
                let mut text = String::from_str("<fn ");
                text.append(callable.name.as_str());
                text.append(">");
                Some(text)
            },
            LoxValue::Nil => Some(String::from_str("nil")),
        }
    }

    /// A copy of this value.
    pub fn duplicate(&self) -> (copy: LoxValue<'a>)
        ensures
            copy == *self,
    {
        match self {
            LoxValue::Number(bits) => LoxValue::Number(*bits),
            LoxValue::String(text) => LoxValue::String(text.clone()),
            LoxValue::Boolean(b) => LoxValue::Boolean(*b),
            LoxValue::Function(callable) => LoxValue::Function(Box::new(callable.duplicate())),
            LoxValue::Nil => LoxValue::Nil,
        }
    }
}

} // verus!
