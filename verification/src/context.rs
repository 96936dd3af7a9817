use vstd::prelude::*;

use crate::raw_expr::{DeBruijnIndex, Param, RawAppExpr, RawExpr, RawLambdaExpr};

verus! {

/// The binder context: an immutable chain of parameter names, innermost
/// binder first, used by the parser and the printer to translate between
/// names and De Bruijn indices. The reducer never consults it.
pub enum Context {
    Root,
    Var { param: Param, parent: Box<Context> },
}

/// A context viewed as the sequence of its names, innermost binder at index 0.
pub open spec fn ctx_view(c: Context) -> Seq<Seq<char>>
    decreases c,
{
    match c {
        Context::Root => Seq::empty(),
        Context::Var { param, parent } => seq![param@] + ctx_view(*parent),
    }
}

impl View for Context {
    type V = Seq<Seq<char>>;

    open spec fn view(&self) -> Seq<Seq<char>> {
        ctx_view(*self)
    }
}

/// The index of the innermost binder named `name`, or `None` when no binder
/// of the chain carries that name.
pub open spec fn ctx_lookup(ctx: Seq<Seq<char>>, name: Seq<char>) -> Option<nat>
    decreases ctx.len(),
{
    if ctx.len() == 0 {
        None
    } else if ctx[0] == name {
        Some(0)
    } else {
        match ctx_lookup(ctx.skip(1), name) {
            Some(i) => Some(i + 1),
            None => None,
        }
    }
}

/// A successful lookup always yields an index inside the chain, naming an
/// entry equal to the name looked up.
pub proof fn lemma_ctx_lookup_in_range(ctx: Seq<Seq<char>>, name: Seq<char>)
    ensures
        ctx_lookup(ctx, name) matches Some(i) ==> i < ctx.len() && ctx[i as int] == name,
    decreases ctx.len(),
{
    if ctx.len() == 0 {
    } else if ctx[0] == name {
    } else {
        lemma_ctx_lookup_in_range(ctx.skip(1), name);
    }
}

impl Context {
    /// The parameter that De Bruijn index `idx` names in this context. An
    /// index outside the chain is a caller error, excluded by contract.
    pub fn get_var(&self, idx: DeBruijnIndex) -> (p: &Param)
        requires
            (idx as nat) < self@.len(),
        ensures
            p@ == self@[idx as int],
        decreases *self,
    {
        match self {
            Context::Root => {
                vstd::pervasive::unreached()
            }
            Context::Var { param, parent } => {
                if idx == 0 {
                    param
                } else {
                    proof {
                        assert(self@.skip(1) =~= parent@);
                    }
                    parent.get_var(idx - 1)
                }
            }
        }
    }

    /// The De Bruijn index of the innermost binder whose name equals `name`,
    /// or `None` when no enclosing binder matches.
    pub fn get_var_index(&self, name: &String) -> (r: Option<DeBruijnIndex>)
        requires
            self@.len() <= u32::MAX,
        ensures
            match r {
                Some(i) => ctx_lookup(self@, name@) == Some(i as nat),
                None => ctx_lookup(self@, name@) is None,
            },
        decreases *self,
    {
        match self {
            Context::Root => None,
            Context::Var { param, parent } => {
                proof {
                    assert(self@.skip(1) =~= parent@);
                }
                if param.name == *name {
                    Some(0)
                } else {
                    match parent.get_var_index(name) {
                        Some(i) => {
                            proof {
                                lemma_ctx_lookup_in_range(parent@, name@);
                            }
                            Some(i + 1)
                        }
                        None => None,
                    }
                }
            }
        }
    }

    /// A copy of the chain that views the same sequence of names.
    pub fn duplicate(&self) -> (c: Context)
        ensures
            c@ == self@,
        decreases *self,
    {
        match self {
            Context::Root => Context::Root,
            Context::Var { param, parent } => Context::Var {
                param: Param { name: param.name.clone() },
                parent: Box::new(parent.duplicate()),
            },
        }
    }
}

/// An object paired with the binder context it lives under and the
/// parenthesization the surrounding text demands of it.
pub struct WithContext<T> {
    pub context: Context,
    pub obj: T,
    pub parens_for_app: bool,
    pub parens_for_lambda: bool,
}

impl<T> WithContext<T> {
    /// Wrap an object at top level: no enclosing binders, no parentheses.
    pub fn root(obj: T) -> (w: WithContext<T>)
        ensures
            w.context@ == Seq::<Seq<char>>::empty(),
            w.obj == obj,
            !w.parens_for_app,
            !w.parens_for_lambda,
    {
        WithContext { context: Context::Root, obj, parens_for_app: false, parens_for_lambda: false }
    }

    /// The same context and parenthesization, carried over to another object.
    fn propagate<T2>(&self, obj: T2) -> (w: WithContext<T2>)
        ensures
            w.context@ == self.context@,
            w.obj == obj,
            w.parens_for_app == self.parens_for_app,
            w.parens_for_lambda == self.parens_for_lambda,
    {
        WithContext {
            context: self.context.duplicate(),
            obj,
            parens_for_app: self.parens_for_app,
            parens_for_lambda: self.parens_for_lambda,
        }
    }
}

impl WithContext<DeBruijnIndex> {
    /// The parameter this variable index names.
    pub fn get_param(&self) -> (p: &Param)
        requires
            (self.obj as nat) < self.context@.len(),
        ensures
            p@ == self.context@[self.obj as int],
    {
        self.context.get_var(self.obj)
    }
}

impl<'a> WithContext<&'a RawAppExpr> {
    /// The function side: never parenthesized as an application, always as an
    /// abstraction, so `(λx.x) y` stays distinct from `λx.x y`.
    pub fn get_fun(&self) -> (w: WithContext<&'a RawExpr>)
        ensures
            w.context@ == self.context@,
            w.obj@ == self.obj.fun@,
            !w.parens_for_app,
            w.parens_for_lambda,
    {
        WithContext {
            context: self.context.duplicate(),
            obj: &self.obj.fun,
            parens_for_app: false,
            parens_for_lambda: true,
        }
    }

    /// The argument side: parenthesized whenever it is itself an application
    /// or an abstraction.
    pub fn get_arg(&self) -> (w: WithContext<&'a RawExpr>)
        ensures
            w.context@ == self.context@,
            w.obj@ == self.obj.arg@,
            w.parens_for_app,
            w.parens_for_lambda,
    {
        WithContext {
            context: self.context.duplicate(),
            obj: &self.obj.arg,
            parens_for_app: true,
            parens_for_lambda: true,
        }
    }
}

impl<'a> WithContext<&'a RawLambdaExpr> {
    /// The abstraction's body, under a context extended with its parameter.
    pub fn get_body(&self) -> (w: WithContext<&'a RawExpr>)
        ensures
            w.context@ == seq![self.obj.param@] + self.context@,
            w.obj@ == self.obj.body@,
            w.parens_for_app,
            !w.parens_for_lambda,
    {
        WithContext {
            context: Context::Var {
                param: Param { name: self.obj.param.name.clone() },
                parent: Box::new(self.context.duplicate()),
            },
            obj: &self.obj.body,
            parens_for_app: true,
            parens_for_lambda: false,
        }
    }
}

/// The three shapes an expression under a context can take.
pub enum ContextExprInfo<'a> {
    Var(WithContext<DeBruijnIndex>),
    App(WithContext<&'a RawAppExpr>),
    Lambda(WithContext<&'a RawLambdaExpr>),
}

impl<'a> WithContext<&'a RawExpr> {
    /// Split by the expression's shape, carrying context and parenthesization
    /// along unchanged.
    pub fn info(&self) -> (r: ContextExprInfo<'a>)
        ensures
            match r {
                ContextExprInfo::Var(w) => self.obj@ == crate::model::SpecExpr::Var(w.obj as nat)
                    && w.context@ == self.context@ && w.parens_for_app == self.parens_for_app
                    && w.parens_for_lambda == self.parens_for_lambda,
                ContextExprInfo::App(w) => self.obj@ == w.obj@ && w.context@ == self.context@
                    && w.parens_for_app == self.parens_for_app && w.parens_for_lambda
                    == self.parens_for_lambda,
                ContextExprInfo::Lambda(w) => self.obj@ == w.obj@ && w.context@ == self.context@
                    && w.parens_for_app == self.parens_for_app && w.parens_for_lambda
                    == self.parens_for_lambda,
            },
    {
        match self.obj {
            RawExpr::Var(var) => ContextExprInfo::Var(self.propagate(*var)),
            RawExpr::App(app) => ContextExprInfo::App(self.propagate(&**app)),
            RawExpr::Lambda(lambda) => ContextExprInfo::Lambda(self.propagate(&**lambda)),
        }
    }
}

} // verus!
