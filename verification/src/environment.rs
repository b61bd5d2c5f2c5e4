use vstd::prelude::*;
use vstd::string::*;
use crate::errors::{Error, ErrorView};
use crate::scope::Scope;
use crate::token::Token;
use crate::value::{LoxValue, ValueView};

verus! {

/// The model of one scope of values.
pub open spec fn value_views(scope: Map<Seq<char>, LoxValue>) -> Map<Seq<char>, ValueView> {
    scope.map_values(|v: LoxValue| v@)
}

/// The index of the innermost scope that binds `name`, if any does.
pub open spec fn binder<V>(scopes: Seq<Map<Seq<char>, V>>, name: Seq<char>) -> Option<int>
    decreases scopes.len(),
{
    if scopes.len() == 0 {
        None
    } else if scopes.last().contains_key(name) {
        Some(scopes.len() - 1)
    } else {
        binder(scopes.drop_last(), name)
    }
}

/// What `name` is bound to in the innermost scope that binds it.
pub open spec fn lookup(scopes: Seq<Map<Seq<char>, ValueView>>, name: Seq<char>) -> Option<
    ValueView,
> {
    match binder(scopes, name) {
        Some(i) => Some(scopes[i][name]),
        None => None,
    }
}

/// The scopes after `name` is bound to `value` in the scope at `index`.
pub open spec fn bind_at(
    scopes: Seq<Map<Seq<char>, ValueView>>,
    index: int,
    name: Seq<char>,
    value: ValueView,
) -> Seq<Map<Seq<char>, ValueView>> {
    scopes.update(index, scopes[index].insert(name, value))
}

/// The message for a name that no scope binds.
pub open spec fn undefined_variable(name: Seq<char>) -> Seq<char> {
    "undefined variable '"@ + name + "'"@
}

/// The binder of a name is the innermost scope that binds it.
pub proof fn lemma_binder_in_range<V>(scopes: Seq<Map<Seq<char>, V>>, name: Seq<char>)
    ensures
        match binder(scopes, name) {
            Some(i) => 0 <= i < scopes.len() && scopes[i].contains_key(name) && forall|j: int|
                i < j < scopes.len() ==> !scopes[j].contains_key(name),
            None => forall|j: int| 0 <= j < scopes.len() ==> !scopes[j].contains_key(name),
        },
    decreases scopes.len(),
{
    if scopes.len() > 0 && !scopes.last().contains_key(name) {
        lemma_binder_in_range(scopes.drop_last(), name);
        match binder(scopes, name) {
            None => {
                assert forall|j: int| 0 <= j < scopes.len() implies !scopes[j].contains_key(
                    name,
                ) by {
                    if j < scopes.len() - 1 {
                        assert(scopes.drop_last()[j] == scopes[j]);
                    }
                }
            },
            Some(i) => {
                assert forall|j: int| i < j < scopes.len() implies !scopes[j].contains_key(
                    name,
                ) by {
                    if j < scopes.len() - 1 {
                        assert(scopes.drop_last()[j] == scopes[j]);
                    }
                }
            },
        }
    }
}

/// The scopes of a running program, the global scope first and the
/// innermost scope last.
#[derive(Debug)]
pub struct Environment<'a> {
    scopes: Vec<Scope<LoxValue<'a>>>,
}

impl<'a> View for Environment<'a> {
    type V = Seq<Map<Seq<char>, ValueView>>;

    closed spec fn view(&self) -> Seq<Map<Seq<char>, ValueView>> {
        Seq::new(self.scopes@.len(), |i: int| value_views(self.scopes@[i]@))
    }
}

pub(crate) fn undefined(tok: &Token, name: &String) -> (e: Error)
    ensures
        e@ == ErrorView::Runtime(tok@, undefined_variable(name@)),
{
    let mut msg = String::from_str("undefined variable '");
    msg.append(name.as_str());
    msg.append("'");
    Error::Runtime(tok.duplicate(), msg)
}

impl<'a> Environment<'a> {
    /// There is always a global scope.
    pub open spec fn wf(&self) -> bool {
        self@.len() >= 1
    }

    /// An environment with the global scope alone, and nothing in it.
    pub fn new() -> (env: Environment<'a>)
        ensures
            env.wf(),
            env@ == seq![Map::<Seq<char>, ValueView>::empty()],
    {
        let mut scopes = Vec::new();
        scopes.push(Scope::new());
        let env = Environment { scopes };
        assert(env@ =~= seq![Map::<Seq<char>, ValueView>::empty()]) by {
            assert(value_views(Map::<Seq<char>, LoxValue>::empty()) =~= Map::<
                Seq<char>,
                ValueView,
            >::empty());
        }
        env
    }

    /// The number of scopes.
    pub fn depth(&self) -> (n: usize)
        ensures
            n == self@.len(),
    {
        self.scopes.len()
    }

    /// Opens a new innermost scope.
    pub fn push_scope(&mut self)
        ensures
            final(self)@ == old(self)@.push(Map::<Seq<char>, ValueView>::empty()),
    {
        self.scopes.push(Scope::new());
        assert(self@ =~= old(self)@.push(Map::<Seq<char>, ValueView>::empty())) by {
            assert(value_views(Map::<Seq<char>, LoxValue>::empty()) =~= Map::<
                Seq<char>,
                ValueView,
            >::empty());
        }
    }

    /// Closes the innermost scope. The global scope is never closed.
    pub fn pop_scope(&mut self)
        requires
            old(self)@.len() > 1,
        ensures
            final(self)@ == old(self)@.drop_last(),
    {
        self.scopes.pop();
        assert(self@ =~= old(self)@.drop_last());
    }

    /// Binds `name` to `value` in the innermost scope.
    pub fn define(&mut self, name: &str, value: LoxValue<'a>)
        requires
            old(self).wf(),
        ensures
            final(self)@ == bind_at(old(self)@, old(self)@.len() - 1, name@, value@),
    {
        let last = self.scopes.len() - 1;
        self.insert_at(last, String::from_str(name), value);
    }

    fn insert_at(&mut self, index: usize, name: String, value: LoxValue<'a>)
        requires
            index < old(self)@.len(),
        ensures
            final(self)@ == bind_at(old(self)@, index as int, name@, value@),
    {
        let ghost before = self.scopes@[index as int]@;
        let mut scope = Scope::new();
        std::mem::swap(&mut scope, &mut self.scopes[index]);
        scope.insert(name, value);
        self.scopes.set(index, scope);
        assert(self@ =~= bind_at(old(self)@, index as int, name@, value@)) by {
            assert(value_views(before.insert(name@, value)) =~= value_views(before).insert(
                name@,
                value@,
            ));
        }
    }

    fn find(&self, name: &str) -> (place: Option<usize>)
        ensures
            match place {
                Some(i) => binder(self@, name@) == Some(i as int) && i < self@.len()
                    && self.scopes@[i as int]@.contains_key(name@),
                None => binder(self@, name@) is None,
            },
    {
        let mut i: usize = self.scopes.len();
        assert(self@.take(i as int) =~= self@);
        while i > 0
            invariant
                i <= self.scopes@.len(),
                self@.len() == self.scopes@.len(),
                binder(self@, name@) == binder(self@.take(i as int), name@),
            decreases i,
        {
            i -= 1;
            assert(self@.take(i + 1).drop_last() =~= self@.take(i as int));
            assert(self@.take(i + 1).last() == self@[i as int]);
            if self.scopes[i].contains(name) {
                return Some(i);
            }
        }
        assert(self@.take(0).len() == 0);
        None
    }

    /// The value of the variable that `tok` names, from the innermost scope
    /// that binds it.
    pub fn get(&self, tok: &Token) -> (result: Result<LoxValue<'a>, Error>)
        ensures
            match result {
                Ok(value) => lookup(self@, tok@.kind.lexeme()) == Some(value@),
                Err(e) => lookup(self@, tok@.kind.lexeme()) is None && e@ == ErrorView::Runtime(
                    tok@,
                    undefined_variable(tok@.kind.lexeme()),
                ),
            },
    {
        let name = tok.lexeme();
        match self.find(name.as_str()) {
            Some(i) => match self.scopes[i].get(name.as_str()) {
                Some(value) => Ok(value.duplicate()),
                None => Err(undefined(tok, &name)),
            },
            None => Err(undefined(tok, &name)),
        }
    }

    /// Whether the scope `dist` scopes out from the innermost binds the
    /// variable that `tok` names.
    pub fn has_at(&self, dist: usize, tok: &Token) -> (yes: bool)
        ensures
            yes == (dist < self@.len() && self@[self@.len() - 1 - dist].contains_key(
                tok@.kind.lexeme(),
            )),
    {
        if dist >= self.scopes.len() {
            return false;
        }
        let name = tok.lexeme();
        self.scopes[self.scopes.len() - 1 - dist].contains(name.as_str())
    }

    /// The value of the variable that `tok` names, in the scope `dist`
    /// scopes out from the innermost, which must bind it.
    pub fn get_at(&self, dist: usize, tok: &Token) -> (result: Result<LoxValue<'a>, Error>)
        requires
            dist < self@.len(),
            self@[self@.len() - 1 - dist].contains_key(tok@.kind.lexeme()),
        ensures
            result is Ok,
            result->Ok_0@ == self@[self@.len() - 1 - dist][tok@.kind.lexeme()],
    {
        let name = tok.lexeme();
        match self.scopes[self.scopes.len() - 1 - dist].get(name.as_str()) {
            Some(value) => Ok(value.duplicate()),
            None => Err(undefined(tok, &name)),
        }
    }

    /// Gives a new value to the variable that `tok` names, in the innermost
    /// scope that binds it.
    pub fn assign(&mut self, tok: &Token, new_value: LoxValue<'a>) -> (result: Result<(), Error>)
        ensures
            match binder(old(self)@, tok@.kind.lexeme()) {
                Some(i) => result is Ok && final(self)@ == bind_at(
                    old(self)@,
                    i,
                    tok@.kind.lexeme(),
                    new_value@,
                ),
                None => final(self)@ == old(self)@ && result is Err && result->Err_0@
                    == ErrorView::Runtime(tok@, undefined_variable(tok@.kind.lexeme())),
            },
    {
        let name = tok.lexeme();
        match self.find(name.as_str()) {
            Some(i) => {
                self.insert_at(i, name, new_value);
                Ok(())
            },
            None => Err(undefined(tok, &name)),
        }
    }

    /// Gives a new value to the variable that `tok` names, in the scope
    /// `dist` scopes out from the innermost, which must bind it.
    pub fn assign_at(&mut self, dist: usize, tok: &Token, new_value: LoxValue<'a>) -> (result:
        Result<(), Error>)
        requires
            dist < old(self)@.len(),
            old(self)@[old(self)@.len() - 1 - dist].contains_key(tok@.kind.lexeme()),
        ensures
            result is Ok,
            final(self)@ == bind_at(
                old(self)@,
                old(self)@.len() - 1 - dist,
                tok@.kind.lexeme(),
                new_value@,
            ),
    {
        let name = tok.lexeme();
        let index = self.scopes.len() - 1 - dist;
        self.insert_at(index, name, new_value);
        Ok(())
    }
}

} // verus!
