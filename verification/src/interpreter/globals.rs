use vstd::prelude::*;
use vstd::string::*;
use crate::environment::{bind_at, Environment};
use crate::value::{Callable, CallableView, Dispatch, DispatchView, LoxValue, ValueView};

verus! {

/// The model of the builtin `clock`: it takes no argument.
pub open spec fn clock_view() -> ValueView {
    ValueView::Function(CallableView { name: "clock"@, arity: 0, dispatch: DispatchView::Clock })
}

/// Binds the builtins in the innermost scope of `env`.
pub fn install_in<'a>(env: &mut Environment<'a>)
    requires
        old(env).wf(),
    ensures
        final(env)@ == bind_at(old(env)@, old(env)@.len() - 1, "clock"@, clock_view()),
{
    env.define("clock", clock());
}

/// The builtin `clock`.
pub fn clock<'a>() -> (value: LoxValue<'a>)
    ensures
        value@ == clock_view(),
{
    LoxValue::Function(Box::new(Callable::new(String::from_str("clock"), 0, Dispatch::Clock)))
}

} // verus!
