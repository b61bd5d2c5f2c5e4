use std::collections::HashMap;
use vstd::prelude::*;
use vstd::string::*;
use crate::environment::{binder, lemma_binder_in_range};
use crate::errors::{error_views, Error, ErrorView};
use crate::expr::{expr_views, lemma_call_view, Expr, ExprView};
use crate::token::token_views;
use crate::scope::Scope;
use crate::stmt::{lemma_block_view, lemma_function_view, stmt_views, Stmt, StmtView};
use crate::token::{Token, TokenView};

verus! {

/// The model of a resolver: the scopes it is in (for each name, whether
/// its initializer is done), the depths it has recorded by node, and the
/// errors it has found.
pub struct Resolved {
    pub scopes: Seq<Map<Seq<char>, bool>>,
    pub depths: Map<usize, usize>,
    pub errors: Seq<ErrorView>,
}

/// The message for a variable that is read in its own initializer.
pub open spec fn reads_own_initializer() -> Seq<char> {
    "Can't read local variable in its own initializer"@
}

/// How many scopes lie between the innermost scope and the innermost one
/// that holds `name`, if any holds it.
pub open spec fn local_depth(scopes: Seq<Map<Seq<char>, bool>>, name: Seq<char>) -> Option<int> {
    match binder(scopes, name) {
        Some(i) => Some(scopes.len() - 1 - i),
        None => None,
    }
}

impl Resolved {
    /// Entering the name in the innermost scope, if there is one.
    pub open spec fn mark(self, name: Seq<char>, ready: bool) -> Resolved {
        if self.scopes.len() == 0 {
            self
        } else {
            Resolved {
                scopes: self.scopes.update(
                    self.scopes.len() - 1,
                    self.scopes.last().insert(name, ready),
                ),
                ..self
            }
        }
    }

    /// A name is declared: it exists, its initializer is not done.
    pub open spec fn declare(self, name: Seq<char>) -> Resolved {
        self.mark(name, false)
    }

    /// A name is defined: its initializer is done.
    pub open spec fn define(self, name: Seq<char>) -> Resolved {
        self.mark(name, true)
    }

    /// Entering a scope.
    pub open spec fn push_scope(self) -> Resolved {
        Resolved { scopes: self.scopes.push(Map::empty()), ..self }
    }

    /// Leaving the innermost scope.
    pub open spec fn pop_scope(self) -> Resolved {
        if self.scopes.len() == 0 {
            self
        } else {
            Resolved { scopes: self.scopes.drop_last(), ..self }
        }
    }

    /// The use of `name` at node `id`: where a scope holds the name, the
    /// depth of the innermost such scope is recorded; where none does, the
    /// name is global and nothing is recorded.
    pub open spec fn resolve_local(self, id: usize, name: Seq<char>) -> Resolved {
        match local_depth(self.scopes, name) {
            Some(d) => Resolved { depths: self.depths.insert(id, d as usize), ..self },
            None => self,
        }
    }

    /// Reading a variable: an error where the innermost scope holds the
    /// name with its initializer not done; then the use is resolved.
    pub open spec fn read(self, name: TokenView, id: usize) -> Resolved {
        let text = name.kind.lexeme();
        let checked = if self.scopes.len() > 0 && self.scopes.last().contains_key(text)
            && !self.scopes.last()[text] {
            Resolved {
                errors: self.errors.push(ErrorView::Resolve(name, reads_own_initializer())),
                ..self
            }
        } else {
            self
        };
        checked.resolve_local(id, text)
    }

    /// The first `n` parameters declared and defined.
    pub open spec fn params(self, params: Seq<TokenView>, n: nat) -> Resolved
        decreases n,
    {
        if n == 0 || n > params.len() {
            self
        } else {
            let name = params[n - 1].kind.lexeme();
            self.params(params, (n - 1) as nat).declare(name).define(name)
        }
    }
}

/// The resolver after an expression.
pub open spec fn resolve_expr(r: Resolved, e: ExprView) -> Resolved
    decreases e, 0nat,
{
    match e {
        ExprView::Variable(name, id) => r.read(name, id),
        ExprView::Assign(name, value, id) => resolve_expr(r, *value).resolve_local(
            id,
            name.kind.lexeme(),
        ),
        ExprView::Binary(left, _, right) => resolve_expr(resolve_expr(r, *left), *right),
        ExprView::Logical(left, _, right) => resolve_expr(resolve_expr(r, *left), *right),
        ExprView::Unary(_, right) => resolve_expr(r, *right),
        ExprView::Call(callee, _, args) => resolve_exprs(resolve_expr(r, *callee), args, args.len()),
        ExprView::Grouping(inner) => resolve_expr(r, *inner),
        ExprView::Literal(_) => r,
    }
}

/// The resolver after the first `n` expressions of a list.
pub open spec fn resolve_exprs(r: Resolved, list: Seq<ExprView>, n: nat) -> Resolved
    decreases list, n,
{
    if n == 0 || n > list.len() {
        r
    } else {
        resolve_expr(resolve_exprs(r, list, (n - 1) as nat), list[n - 1])
    }
}

/// The resolver after a statement.
pub open spec fn resolve_stmt(r: Resolved, stmt: StmtView) -> Resolved
    decreases stmt, 0nat,
{
    match stmt {
        StmtView::Block(list) => resolve_stmts(r.push_scope(), list, list.len()).pop_scope(),
        StmtView::Var(name, init) => resolve_expr(r.declare(name), init).define(name),
        StmtView::Function(name, params, body) => {
            let text = name.kind.lexeme();
            resolve_stmts(
                r.declare(text).define(text).push_scope().params(params, params.len()),
                body,
                body.len(),
            ).pop_scope()
        },
        StmtView::Expression(e) => resolve_expr(r, e),
        StmtView::If(cond, then_branch, else_branch) => resolve_stmt(
            resolve_stmt(resolve_expr(r, cond), *then_branch),
            *else_branch,
        ),
        StmtView::Print(e) => resolve_expr(r, e),
        StmtView::Return(_, e) => resolve_expr(r, e),
        StmtView::While(cond, body) => resolve_stmt(resolve_expr(r, cond), *body),
        StmtView::Empty => r,
    }
}

/// The resolver after the first `n` statements of a list.
pub open spec fn resolve_stmts(r: Resolved, list: Seq<StmtView>, n: nat) -> Resolved
    decreases list, n,
{
    if n == 0 || n > list.len() {
        r
    } else {
        resolve_stmt(resolve_stmts(r, list, (n - 1) as nat), list[n - 1])
    }
}

/// What is recorded for a name that a scope holds is the distance to the
/// innermost scope that holds it: that scope holds the name, and no scope
/// further in does. For a name that no scope holds nothing is recorded.
pub proof fn law_recorded_depth_is_sound(r: Resolved, id: usize, name: Seq<char>)
    requires
        r.scopes.len() <= usize::MAX,
    ensures
        match local_depth(r.scopes, name) {
            Some(d) => {
                &&& 0 <= d < r.scopes.len()
                &&& r.resolve_local(id, name).depths.contains_key(id)
                &&& r.resolve_local(id, name).depths[id] == d
                &&& r.scopes[r.scopes.len() - 1 - d].contains_key(name)
                &&& forall|j: int|
                    r.scopes.len() - 1 - d < j < r.scopes.len() ==> !r.scopes[j].contains_key(name)
            },
            None => {
                &&& r.resolve_local(id, name) == r
                &&& forall|k: int| 0 <= k < r.scopes.len() ==> !r.scopes[k].contains_key(name)
            },
        },
{
    lemma_binder_in_range(r.scopes, name);
}

/// Resolves names: finds, for each use of a local variable, how many
/// scopes out from the use its declaration lies.
#[derive(Debug)]
pub struct Resolver {
    scopes: Vec<Scope<bool>>,
    depths: HashMap<usize, usize>,
    errors: Vec<Error>,
}

impl View for Resolver {
    type V = Resolved;

    closed spec fn view(&self) -> Resolved {
        Resolved {
            scopes: Seq::new(self.scopes@.len(), |i: int| self.scopes@[i]@),
            depths: self.depths@,
            errors: error_views(self.errors@),
        }
    }
}

impl Resolver {
    /// A resolver outside every scope, with nothing recorded.
    pub fn new() -> (resolver: Resolver)
        ensures
            resolver@ == (Resolved {
                scopes: Seq::empty(),
                depths: Map::empty(),
                errors: Seq::empty(),
            }),
    {
        let resolver = Resolver { scopes: Vec::new(), depths: HashMap::new(), errors: Vec::new() };
        proof {
            assert(resolver@.scopes =~= Seq::<Map<Seq<char>, bool>>::empty());
            assert(resolver@.errors =~= Seq::<ErrorView>::empty());
            assert(resolver@.depths =~= Map::<usize, usize>::empty());
        }
        resolver
    }

    /// Whether an error was found.
    pub fn has_errors(&self) -> (yes: bool)
        ensures
            yes == (self@.errors.len() > 0),
    {
        self.errors.len() > 0
    }

    /// Hands out what was recorded: the depths by node, and the errors in
    /// the order in which they were found.
    pub fn finish(self) -> (found: (HashMap<usize, usize>, Vec<Error>))
        ensures
            found.0@ == self@.depths,
            error_views(found.1@) == self@.errors,
    {
        (self.depths, self.errors)
    }

    /// Resolves a list of statements.
    pub fn resolve(&mut self, statements: &Vec<Stmt>)
        ensures
            final(self)@ == resolve_stmts(
                old(self)@,
                stmt_views(statements@),
                statements@.len(),
            ),
        decreases statements, 0nat,
    {
        let mut i: usize = 0;
        while i < statements.len()
            invariant
                i <= statements@.len(),
                self@ == resolve_stmts(old(self)@, stmt_views(statements@), i as nat),
            decreases statements@.len() - i,
        {
            self.resolve_stmt(&statements[i]);
            i += 1;
        }
    }

    fn resolve_stmt(&mut self, statement: &Stmt)
        ensures
            final(self)@ == resolve_stmt(old(self)@, statement@),
        decreases statement, 0nat,
    {
        match statement {
            Stmt::Block(block) => {
                proof {
                    lemma_block_view(*block);
                }
                self.push_scope();
                self.resolve(block);
                self.pop_scope();
            },
            Stmt::Var(name, init) => {
                self.declare(name.as_str());
                self.resolve_expr(init);
                self.define(name.as_str());
            },
            Stmt::Function(name, params, body) => {
                proof {
                    lemma_function_view(*name, *params, *body);
                }
                let name = name.lexeme();
                self.declare(name.as_str());
                self.define(name.as_str());
                self.resolve_function(params, body);
            },
            Stmt::Expression(expr) => {
                self.resolve_expr(expr);
            },
            Stmt::If(cond, then_branch, else_branch) => {
                self.resolve_expr(cond);
                self.resolve_stmt(then_branch);
                self.resolve_stmt(else_branch);
            },
            Stmt::Print(expr) => {
                self.resolve_expr(expr);
            },
            Stmt::Return(_, expr) => {
                self.resolve_expr(expr);
            },
            Stmt::While(cond, body) => {
                self.resolve_expr(cond);
                self.resolve_stmt(body);
            },
            Stmt::Empty => (),
        }
    }

    fn resolve_expr(&mut self, expr: &Expr)
        ensures
            final(self)@ == resolve_expr(old(self)@, expr@),
        decreases expr, 0nat,
    {
        match expr {
            Expr::Variable(token, id) => {
                let name = token.lexeme();
                if self.scopes.len() > 0 {
                    if let Some(false) = self.scopes[self.scopes.len() - 1].get(name.as_str()) {
                        self.errors.push(
                            Error::Resolve(
                                token.duplicate(),
                                String::from_str("Can't read local variable in its own initializer"),
                            ),
                        );
                        assert(self@.errors =~= old(self)@.errors.push(
                            ErrorView::Resolve(token@, reads_own_initializer()),
                        ));
                    }
                }
                self.resolve_local(*id, name.as_str());
            },
            Expr::Assign(token, value, id) => {
                self.resolve_expr(value);
                let name = token.lexeme();
                self.resolve_local(*id, name.as_str());
            },
            Expr::Binary(left, _, right) => {
                self.resolve_expr(left);
                self.resolve_expr(right);
            },
            Expr::Logical(left, _, right) => {
                self.resolve_expr(left);
                self.resolve_expr(right);
            },
            Expr::Unary(_, right) => {
                self.resolve_expr(right);
            },
            Expr::Call(callee, paren, args) => {
                proof {
                    lemma_call_view(*callee, *paren, *args);
                }
                self.resolve_expr(callee);
                self.resolve_args(args);
            },
            Expr::Grouping(inner) => {
                self.resolve_expr(inner);
            },
            Expr::Literal(_) => (),
        }
    }

    fn resolve_args(&mut self, args: &Vec<Box<Expr>>)
        ensures
            final(self)@ == resolve_exprs(old(self)@, expr_views(args@), args@.len()),
        decreases args, 0nat,
    {
        let mut i: usize = 0;
        while i < args.len()
            invariant
                i <= args@.len(),
                self@ == resolve_exprs(old(self)@, expr_views(args@), i as nat),
            decreases args@.len() - i,
        {
            self.resolve_expr(&args[i]);
            i += 1;
        }
    }

    fn resolve_function(&mut self, params: &Vec<Token>, body: &Vec<Stmt>)
        ensures
            final(self)@ == resolve_stmts(
                old(self)@.push_scope().params(token_views(params@), params@.len()),
                stmt_views(body@),
                body@.len(),
            ).pop_scope(),
        decreases body, 1nat,
    {
        self.push_scope();
        let ghost start = self@;
        let mut i: usize = 0;
        while i < params.len()
            invariant
                i <= params@.len(),
                self@ == start.params(token_views(params@), i as nat),
            decreases params@.len() - i,
        {
            let name = params[i].lexeme();
            self.declare(name.as_str());
            self.define(name.as_str());
            i += 1;
        }
        self.resolve(body);
        self.pop_scope();
    }

    fn push_scope(&mut self)
        ensures
            final(self)@ == old(self)@.push_scope(),
    {
        self.scopes.push(Scope::new());
        assert(self@.scopes =~= old(self)@.scopes.push(Map::empty()));
    }

    fn pop_scope(&mut self)
        ensures
            final(self)@ == old(self)@.pop_scope(),
    {
        self.scopes.pop();
        assert(self@.scopes =~= old(self)@.pop_scope().scopes);
    }

    fn mark(&mut self, name: &str, ready: bool)
        ensures
            final(self)@ == old(self)@.mark(name@, ready),
    {
        if self.scopes.len() == 0 {
            return ;
        }
        let last = self.scopes.len() - 1;
        let mut scope = Scope::new();
        std::mem::swap(&mut scope, &mut self.scopes[last]);
        scope.insert(String::from_str(name), ready);
        self.scopes.set(last, scope);
        assert(self@.scopes =~= old(self)@.mark(name@, ready).scopes);
    }

    fn declare(&mut self, name: &str)
        ensures
            final(self)@ == old(self)@.declare(name@),
    {
        self.mark(name, false);
    }

    fn define(&mut self, name: &str)
        ensures
            final(self)@ == old(self)@.define(name@),
    {
        self.mark(name, true);
    }

    fn resolve_local(&mut self, id: usize, name: &str)
        ensures
            final(self)@ == old(self)@.resolve_local(id, name@),
    {
        broadcast use vstd::std_specs::hash::group_hash_axioms;

        let mut i: usize = self.scopes.len();
        assert(self@.scopes.take(i as int) =~= self@.scopes);
        while i > 0
            invariant
                i <= self.scopes@.len(),
                self@.scopes.len() == self.scopes@.len(),
                *self == *old(self),
                binder(self@.scopes, name@) == binder(self@.scopes.take(i as int), name@),
            decreases i,
        {
            i -= 1;
            assert(self@.scopes.take(i + 1).drop_last() =~= self@.scopes.take(i as int));
            assert(self@.scopes.take(i + 1).last() == self@.scopes[i as int]);
            if self.scopes[i].contains(name) {
                let depth = self.scopes.len() - 1 - i;
                self.depths.insert(id, depth);
                return ;
            }
        }
        assert(self@.scopes.take(0).len() == 0);
    }
}

} // verus!
