use vstd::prelude::*;

use crate::model::{
    can_unshift, height, lemma_subst_absent, lemma_unshift_revert, reduce_spec, shift_fits,
    shifted, subst, subst_fits, unshift_fits, unshifted, vars_fit, SpecExpr,
};

verus! {

/// A De Bruijn index: the number of binders between a variable occurrence and
/// the binder it refers to (0 names the innermost enclosing binder).
pub type DeBruijnIndex = u32;

/// A binder's parameter name. Cosmetic: only parsing and printing read it.
pub struct Param {
    pub name: String,
}

impl View for Param {
    type V = Seq<char>;

    open spec fn view(&self) -> Seq<char> {
        self.name@
    }
}

/// An expression tree: variable by index, application, or abstraction.
pub enum RawExpr {
    Var(DeBruijnIndex),
    App(Box<RawAppExpr>),
    Lambda(Box<RawLambdaExpr>),
}

/// An application node; it exclusively owns both children.
pub struct RawAppExpr {
    pub fun: RawExpr,
    pub arg: RawExpr,
}

/// An abstraction node; it owns its parameter name and its body.
pub struct RawLambdaExpr {
    pub param: Param,
    pub body: RawExpr,
}

pub open spec fn expr_view(e: RawExpr) -> SpecExpr
    decreases e,
{
    match e {
        RawExpr::Var(v) => SpecExpr::Var(v as nat),
        RawExpr::App(app) => SpecExpr::App(
            Box::new(expr_view(app.fun)),
            Box::new(expr_view(app.arg)),
        ),
        RawExpr::Lambda(l) => SpecExpr::Lambda(l.param@, Box::new(expr_view(l.body))),
    }
}

impl View for RawExpr {
    type V = SpecExpr;

    open spec fn view(&self) -> SpecExpr {
        expr_view(*self)
    }
}

impl View for RawAppExpr {
    type V = SpecExpr;

    open spec fn view(&self) -> SpecExpr {
        SpecExpr::App(Box::new(self.fun@), Box::new(self.arg@))
    }
}

impl View for RawLambdaExpr {
    type V = SpecExpr;

    open spec fn view(&self) -> SpecExpr {
        SpecExpr::Lambda(self.param@, Box::new(self.body@))
    }
}

/// The view of any expression the executable code can hold has every index
/// within `u32` range, since that is the index type the nodes store.
pub proof fn lemma_view_vars_fit(e: RawExpr)
    ensures
        vars_fit(expr_view(e)),
    decreases e,
{
    match e {
        RawExpr::Var(_) => {}
        RawExpr::App(app) => {
            lemma_view_vars_fit(app.fun);
            lemma_view_vars_fit(app.arg);
        }
        RawExpr::Lambda(l) => {
            lemma_view_vars_fit(l.body);
        }
    }
}

impl Default for RawExpr {
    /// The placeholder left where a value has been moved out: a variable
    /// index no well-formed tree reaches.
    fn default() -> (r: RawExpr)
        ensures
            r@ == SpecExpr::Var(u32::MAX as nat),
    {
        RawExpr::Var(u32::MAX)
    }
}

impl RawExpr {
    /// Mutating shift: add `count` to every variable index at or above `start`,
    /// raising `start` by one under each binder.
    pub fn shift(&mut self, start: u32, count: u32)
        requires
            shift_fits(old(self)@, start as nat, count as nat),
        ensures
            final(self)@ == shifted(old(self)@, start as nat, count as nat),
        decreases *old(self),
    {
        match self {
            RawExpr::Var(var) => {
                if *var >= start {
                    *var = *var + count;
                }
            }
            RawExpr::App(app) => app.shift(start, count),
            RawExpr::Lambda(lambda) => lambda.shift(start, count),
        }
    }

    /// Copying shift: a fresh tree with every variable index at or above
    /// `start` grown by `count`.
    pub fn shifted(&self, start: u32, count: u32) -> (r: RawExpr)
        requires
            shift_fits(self@, start as nat, count as nat),
        ensures
            r@ == shifted(self@, start as nat, count as nat),
        decreases *self,
    {
        match self {
            RawExpr::Var(var) => RawExpr::Var(if *var >= start { *var + count } else { *var }),
            RawExpr::App(app) => RawExpr::App(Box::new(app.shifted(start, count))),
            RawExpr::Lambda(lambda) => RawExpr::Lambda(Box::new(lambda.shifted(start, count))),
        }
    }
}

impl RawExpr {
    /// Reverse of `shift`: if the expression references none of the binders in
    /// the band `[start, start + count)`, drop every index at or above the
    /// band by `count` and report success; otherwise leave the tree as it was
    /// and report failure.
    pub fn try_unshift(&mut self, start: u32, count: u32) -> (r: bool)
        requires
            unshift_fits(old(self)@, start as nat, count as nat),
        ensures
            r == can_unshift(old(self)@, start as nat, count as nat),
            r ==> final(self)@ == unshifted(old(self)@, start as nat, count as nat),
            !r ==> final(self)@ == old(self)@,
        decreases *old(self),
    {
        match self {
            RawExpr::Var(var) => {
                if (*var as u64) >= (start as u64) + (count as u64) {
                    *var = *var - count;
                    true
                } else {
                    *var < start
                }
            }
            RawExpr::App(app) => app.try_unshift(start, count),
            RawExpr::Lambda(lambda) => lambda.try_unshift(start, count),
        }
    }

    /// Replace every occurrence of `Var(idx)` with `value`, shifted by the
    /// binders crossed on the way down; indices above `idx` drop by one. When
    /// `may_take_value` holds the tree may move `value` out instead of cloning
    /// it, once at most, so the caller must treat `value` as spent.
    pub fn substitute(&mut self, idx: u32, value: &mut RawExpr, may_take_value: bool)
        requires
            subst_fits(old(self)@, idx as nat, old(value)@, may_take_value),
        ensures
            final(self)@ == subst(old(self)@, idx as nat, old(value)@),
            !may_take_value ==> final(value)@ == old(value)@,
        decreases height(old(self)@), 1int,
    {
        match self {
            RawExpr::Var(var) => {
                if *var == idx {
                    if may_take_value {
                        let mut taken = RawExpr::Var(u32::MAX);
                        core::mem::swap(&mut taken, value);
                        taken.shift(0, idx);
                        *self = taken;
                    } else {
                        *self = value.shifted(0, idx);
                    }
                } else if *var > idx {
                    *var = *var - 1;
                }
            }
            RawExpr::App(app) => app.substitute(idx, value, may_take_value),
            RawExpr::Lambda(lambda) => lambda.substitute(idx, value, may_take_value),
        }
    }

    /// Reduce the expression as far as possible within the given step budget,
    /// rewriting it in place. Each beta or eta step costs one unit of budget;
    /// the budget never grows, and the call reports whether any step fired at
    /// all. The required machine bound says every index the run computes fits
    /// in a `u32`.
    pub fn reduce(&mut self, limit: &mut u32) -> (r: bool)
        requires
            reduce_spec(old(self)@, *old(limit) as nat).fits,
        ensures
            *final(limit) <= *old(limit),
            r == (*final(limit) < *old(limit)),
            final(self)@ == reduce_spec(old(self)@, *old(limit) as nat).expr,
            *final(limit) as nat == reduce_spec(old(self)@, *old(limit) as nat).fuel,
        decreases *old(limit), height(old(self)@),
    {
        let ghost e0: SpecExpr = (*self)@;
        let ghost f0: nat = *limit as nat;
        let mut cur = RawExpr::Var(u32::MAX);
        core::mem::swap(&mut cur, self);
        let mut reduced = false;
        loop
            invariant_except_break
                f0 == *old(limit) as nat,
                e0 == old(self)@,
                *limit as nat <= f0,
                reduced == ((*limit as nat) < f0),
                reduce_spec(e0, f0).expr == reduce_spec(cur@, *limit as nat).expr,
                reduce_spec(e0, f0).fuel == reduce_spec(cur@, *limit as nat).fuel,
                reduce_spec(cur@, *limit as nat).fits,
                *limit as nat == f0 ==> cur@ == e0,
            ensures
                *limit as nat <= f0,
                reduced == ((*limit as nat) < f0),
                cur@ == reduce_spec(e0, f0).expr,
                *limit as nat == reduce_spec(e0, f0).fuel,
            decreases *limit,
        {
            if *limit == 0 {
                break;
            }
            let ghost cv: SpecExpr = cur@;
            let ghost fv: nat = *limit as nat;
            match cur {
                RawExpr::Var(v) => {
                    cur = RawExpr::Var(v);
                    proof {
                        assert(reduce_spec(cv, fv).expr == cv);
                    }
                    break;
                }
                RawExpr::App(mut app) => {
                    proof {
                        assert(cv == SpecExpr::App(Box::new(app.fun@), Box::new(app.arg@)));
                    }
                    let ghost fun0: SpecExpr = app.fun@;
                    let ghost arg0: SpecExpr = app.arg@;
                    if let Some(beta_red) = app.try_get_beta_reduced() {
                        cur = beta_red;
                        reduced = true;
                        *limit = *limit - 1;
                        proof {
                            assert(fun0 matches SpecExpr::Lambda(p, b) && cur@ == subst(
                                *b,
                                0,
                                arg0,
                            ));
                        }
                    } else {
                        proof {
                            assert(app.fun@ == fun0 && app.arg@ == arg0);
                            assert(!(fun0 matches SpecExpr::Lambda(p, b)));
                            assert(reduce_spec(fun0, fv).fits);
                            if fv == f0 {
                                assert(cv == e0);
                                assert(height(app.fun@) < height(e0));
                            }
                        }
                        let fun_reduced = app.fun.reduce(limit);
                        if fun_reduced {
                            reduced = true;
                            cur = RawExpr::App(app);
                            proof {
                                assert(cur@ == SpecExpr::App(
                                    Box::new(reduce_spec(fun0, fv).expr),
                                    Box::new(arg0),
                                ));
                                assert(reduce_spec(cv, fv).expr == reduce_spec(
                                    cur@,
                                    *limit as nat,
                                ).expr);
                                assert(reduce_spec(cv, fv).fuel == reduce_spec(
                                    cur@,
                                    *limit as nat,
                                ).fuel);
                                assert(reduce_spec(cur@, *limit as nat).fits);
                            }
                        } else {
                            proof {
                                assert(reduce_spec(arg0, fv).fits);
                                if fv == f0 {
                                    assert(height(app.arg@) < height(e0));
                                }
                            }
                            let arg_reduced = app.arg.reduce(limit);
                            cur = RawExpr::App(app);
                            proof {
                                assert(cur@ == SpecExpr::App(
                                    Box::new(reduce_spec(fun0, fv).expr),
                                    Box::new(reduce_spec(arg0, fv).expr),
                                ));
                            }
                            if arg_reduced {
                                reduced = true;
                                proof {
                                    assert(reduce_spec(cv, fv).expr == reduce_spec(
                                        cur@,
                                        *limit as nat,
                                    ).expr);
                                    assert(reduce_spec(cv, fv).fuel == reduce_spec(
                                        cur@,
                                        *limit as nat,
                                    ).fuel);
                                    assert(reduce_spec(cur@, *limit as nat).fits);
                                }
                            } else {
                                proof {
                                    assert(reduce_spec(cv, fv).expr == cur@);
                                    assert(reduce_spec(cv, fv).fuel == fv);
                                }
                                break;
                            }
                        }
                    }
                }
                RawExpr::Lambda(mut lambda) => {
                    proof {
                        assert(cv == SpecExpr::Lambda(lambda.param@, Box::new(lambda.body@)));
                    }
                    let ghost param0: Seq<char> = lambda.param@;
                    let ghost body0: SpecExpr = lambda.body@;
                    if let Some(eta_red) = lambda.try_get_eta_reduced() {
                        cur = eta_red;
                        reduced = true;
                        *limit = *limit - 1;
                        proof {
                            assert(body0 matches SpecExpr::App(g, barg) && *barg == SpecExpr::Var(0)
                                && can_unshift(*g, 0, 1) && cur@ == unshifted(*g, 0, 1));
                        }
                    } else {
                        proof {
                            assert(lambda.param@ == param0 && lambda.body@ == body0);
                            assert(reduce_spec(body0, fv).fits);
                            if fv == f0 {
                                assert(height(lambda.body@) < height(e0));
                            }
                        }
                        let body_reduced = lambda.body.reduce(limit);
                        cur = RawExpr::Lambda(lambda);
                        proof {
                            assert(cur@ == SpecExpr::Lambda(
                                param0,
                                Box::new(reduce_spec(body0, fv).expr),
                            ));
                        }
                        if body_reduced {
                            reduced = true;
                            proof {
                                assert(reduce_spec(cv, fv).expr == reduce_spec(
                                    cur@,
                                    *limit as nat,
                                ).expr);
                                assert(reduce_spec(cv, fv).fuel == reduce_spec(
                                    cur@,
                                    *limit as nat,
                                ).fuel);
                                assert(reduce_spec(cur@, *limit as nat).fits);
                            }
                        } else {
                            proof {
                                assert(reduce_spec(cv, fv).expr == cur@);
                                assert(reduce_spec(cv, fv).fuel == fv);
                            }
                            break;
                        }
                    }
                }
            }
        }
        *self = cur;
        reduced
    }
}

impl RawAppExpr {
    pub fn shift(&mut self, start: u32, count: u32)
        requires
            shift_fits(old(self).fun@, start as nat, count as nat),
            shift_fits(old(self).arg@, start as nat, count as nat),
        ensures
            final(self).fun@ == shifted(old(self).fun@, start as nat, count as nat),
            final(self).arg@ == shifted(old(self).arg@, start as nat, count as nat),
        decreases *old(self),
    {
        self.fun.shift(start, count);
        self.arg.shift(start, count);
    }

    /// Attempt one beta step at this node: when the function side is an
    /// abstraction, substitute the argument for its bound variable throughout
    /// the body and hand the body back. A `Some` result invalidates `self`;
    /// the caller must replace the whole node with it.
    pub fn try_get_beta_reduced(&mut self) -> (r: Option<RawExpr>)
        requires
            old(self).fun@ matches SpecExpr::Lambda(p, b) ==> subst_fits(
                *b,
                0,
                old(self).arg@,
                true,
            ),
        ensures
            match old(self).fun@ {
                SpecExpr::Lambda(p, b) => r matches Some(e) && e@ == subst(*b, 0, old(self).arg@),
                _ => r is None && final(self)@ == old(self)@,
            },
    {
        if let RawExpr::Lambda(lambda) = &mut self.fun {
            lambda.body.substitute(0, &mut self.arg, true);
            let mut result = RawExpr::Var(u32::MAX);
            core::mem::swap(&mut result, &mut lambda.body);
            return Some(result);
        }
        None
    }

    pub fn try_unshift(&mut self, start: u32, count: u32) -> (r: bool)
        requires
            unshift_fits(old(self).fun@, start as nat, count as nat),
            unshift_fits(old(self).arg@, start as nat, count as nat),
        ensures
            r == (can_unshift(old(self).fun@, start as nat, count as nat) && can_unshift(
                old(self).arg@,
                start as nat,
                count as nat,
            )),
            r ==> final(self).fun@ == unshifted(old(self).fun@, start as nat, count as nat)
                && final(self).arg@ == unshifted(old(self).arg@, start as nat, count as nat),
            !r ==> final(self)@ == old(self)@,
        decreases *old(self),
    {
        proof {
            lemma_view_vars_fit(self.fun);
        }
        if !self.fun.try_unshift(start, count) {
            return false;
        }
        if !self.arg.try_unshift(start, count) {
            proof {
                lemma_unshift_revert((*old(self)).fun@, start as nat, count as nat);
            }
            self.fun.shift(start, count);
            return false;
        }
        true
    }

    pub fn substitute(&mut self, idx: u32, value: &mut RawExpr, may_take_value: bool)
        requires
            subst_fits(old(self)@, idx as nat, old(value)@, may_take_value),
        ensures
            final(self).fun@ == subst(old(self).fun@, idx as nat, old(value)@),
            final(self).arg@ == subst(old(self).arg@, idx as nat, old(value)@),
            !may_take_value ==> final(value)@ == old(value)@,
        decreases height(old(self)@), 0int,
    {
        // When the argument provably ignores the eliminated variable, the
        // single ownership-transfer right can be granted to the function side.
        if may_take_value && self.arg.try_unshift(idx, 1) {
            proof {
                lemma_subst_absent(old(self).arg@, idx as nat, old(value)@);
            }
            self.fun.substitute(idx, value, may_take_value);
            return;
        }
        self.fun.substitute(idx, value, false);
        self.arg.substitute(idx, value, may_take_value);
    }

    pub fn shifted(&self, start: u32, count: u32) -> (r: RawAppExpr)
        requires
            shift_fits(self.fun@, start as nat, count as nat),
            shift_fits(self.arg@, start as nat, count as nat),
        ensures
            r.fun@ == shifted(self.fun@, start as nat, count as nat),
            r.arg@ == shifted(self.arg@, start as nat, count as nat),
        decreases *self,
    {
        RawAppExpr {
            fun: self.fun.shifted(start, count),
            arg: self.arg.shifted(start, count),
        }
    }
}

impl RawLambdaExpr {
    pub fn shift(&mut self, start: u32, count: u32)
        requires
            start + 1 <= u32::MAX,
            shift_fits(old(self).body@, start as nat + 1, count as nat),
        ensures
            final(self).body@ == shifted(old(self).body@, start as nat + 1, count as nat),
            final(self).param == old(self).param,
        decreases *old(self),
    {
        self.body.shift(start + 1, count);
    }

    /// Attempt one eta step at this node: when the body applies some function
    /// to exactly `Var(0)` and that function never references `Var(0)`, hand
    /// back the function lowered out of the binder. A `Some` result
    /// invalidates `self`; the caller must replace the whole node with it.
    pub fn try_get_eta_reduced(&mut self) -> (r: Option<RawExpr>)
        requires
            match old(self).body@ {
                SpecExpr::App(g, barg) => *barg == SpecExpr::Var(0) ==> unshift_fits(*g, 0, 1),
                _ => true,
            },
        ensures
            match old(self).body@ {
                SpecExpr::App(g, barg) => if *barg == SpecExpr::Var(0) && can_unshift(*g, 0, 1) {
                    r matches Some(e) && e@ == unshifted(*g, 0, 1)
                } else {
                    r is None && final(self)@ == old(self)@
                },
                _ => r is None && final(self)@ == old(self)@,
            },
    {
        let mut body = RawExpr::Var(u32::MAX);
        core::mem::swap(&mut body, &mut self.body);
        proof {
            assert(body == old(self).body);
        }
        match body {
            RawExpr::App(mut app) => {
                proof {
                    assert(old(self).body@ == SpecExpr::App(Box::new(app.fun@), Box::new(app.arg@)));
                }
                let arg_is_var_zero = match &app.arg {
                    RawExpr::Var(v) => *v == 0,
                    _ => false,
                };
                proof {
                    assert(arg_is_var_zero ==> app.arg@ == SpecExpr::Var(0));
                }
                if arg_is_var_zero && app.fun.try_unshift(0, 1) {
                    let inner = *app;
                    return Some(inner.fun);
                }
                self.body = RawExpr::App(app);
                None
            }
            other => {
                self.body = other;
                None
            }
        }
    }

    pub fn try_unshift(&mut self, start: u32, count: u32) -> (r: bool)
        requires
            start + 1 <= u32::MAX,
            unshift_fits(old(self).body@, start as nat + 1, count as nat),
        ensures
            r == can_unshift(old(self).body@, start as nat + 1, count as nat),
            r ==> final(self).body@ == unshifted(old(self).body@, start as nat + 1, count as nat),
            final(self).param@ == old(self).param@,
            !r ==> final(self)@ == old(self)@,
        decreases *old(self),
    {
        self.body.try_unshift(start + 1, count)
    }

    pub fn substitute(&mut self, idx: u32, value: &mut RawExpr, may_take_value: bool)
        requires
            idx + 1 <= u32::MAX,
            subst_fits(old(self).body@, idx as nat + 1, old(value)@, may_take_value),
        ensures
            final(self).body@ == subst(old(self).body@, idx as nat + 1, old(value)@),
            final(self).param@ == old(self).param@,
            !may_take_value ==> final(value)@ == old(value)@,
        decreases height(old(self)@), 0int,
    {
        self.body.substitute(idx + 1, value, may_take_value)
    }

    pub fn shifted(&self, start: u32, count: u32) -> (r: RawLambdaExpr)
        requires
            start + 1 <= u32::MAX,
            shift_fits(self.body@, start as nat + 1, count as nat),
        ensures
            r.body@ == shifted(self.body@, start as nat + 1, count as nat),
            r.param@ == self.param@,
        decreases *self,
    {
        RawLambdaExpr {
            param: Param { name: self.param.name.clone() },
            body: self.body.shifted(start + 1, count),
        }
    }
}

} // verus!
