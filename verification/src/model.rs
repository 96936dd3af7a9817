use vstd::prelude::*;

verus! {

/// The mathematical model of an expression: a De Bruijn-indexed lambda term.
/// A `Var` counts binders outward from its occurrence to the binder it names;
/// a `Lambda` keeps the parameter name it was written with, which only
/// parsing and printing consult.
#[verifier::ext_equal]
pub enum SpecExpr {
    Var(nat),
    App(Box<SpecExpr>, Box<SpecExpr>),
    Lambda(Seq<char>, Box<SpecExpr>),
}

/// Well-formedness at `depth` enclosing binders: every variable refers either
/// to a binder inside the tree or to one of the `depth` outer slots.
pub open spec fn wf_expr(e: SpecExpr, depth: nat) -> bool
    decreases e,
{
    match e {
        SpecExpr::Var(v) => v < depth,
        SpecExpr::App(f, a) => wf_expr(*f, depth) && wf_expr(*a, depth),
        SpecExpr::Lambda(_, b) => wf_expr(*b, depth + 1),
    }
}

/// Relocation into `count` additional binders: every variable index at or
/// above `start` grows by `count`; `start` grows by one under each binder, so
/// that references to binders inside the tree stay untouched.
pub open spec fn shifted(e: SpecExpr, start: nat, count: nat) -> SpecExpr
    decreases e,
{
    match e {
        SpecExpr::Var(v) => SpecExpr::Var(if v >= start { v + count } else { v }),
        SpecExpr::App(f, a) => SpecExpr::App(
            Box::new(shifted(*f, start, count)),
            Box::new(shifted(*a, start, count)),
        ),
        SpecExpr::Lambda(p, b) => SpecExpr::Lambda(p, Box::new(shifted(*b, start + 1, count))),
    }
}

/// The machine bound for a shift: every grown index still fits in a `u32`,
/// and so does the running `start` of the traversal.
pub open spec fn shift_fits(e: SpecExpr, start: nat, count: nat) -> bool
    decreases e,
{
    match e {
        SpecExpr::Var(v) => v >= start ==> v + count <= u32::MAX,
        SpecExpr::App(f, a) => shift_fits(*f, start, count) && shift_fits(*a, start, count),
        SpecExpr::Lambda(_, b) => start + 1 <= u32::MAX && shift_fits(*b, start + 1, count),
    }
}

/// Whether `e` references none of the `count` binders in the band
/// `[start, start + count)`, so that those binders could be removed.
pub open spec fn can_unshift(e: SpecExpr, start: nat, count: nat) -> bool
    decreases e,
{
    match e {
        SpecExpr::Var(v) => v < start || v >= start + count,
        SpecExpr::App(f, a) => can_unshift(*f, start, count) && can_unshift(*a, start, count),
        SpecExpr::Lambda(_, b) => can_unshift(*b, start + 1, count),
    }
}

/// The tree after removing the `count` binders of the band: indices at or
/// above `start + count` drop by `count`. Meaningful when `can_unshift` holds.
pub open spec fn unshifted(e: SpecExpr, start: nat, count: nat) -> SpecExpr
    decreases e,
{
    match e {
        SpecExpr::Var(v) => SpecExpr::Var(
            if v >= start + count {
                (v - count) as nat
            } else {
                v
            },
        ),
        SpecExpr::App(f, a) => SpecExpr::App(
            Box::new(unshifted(*f, start, count)),
            Box::new(unshifted(*a, start, count)),
        ),
        SpecExpr::Lambda(p, b) => SpecExpr::Lambda(p, Box::new(unshifted(*b, start + 1, count))),
    }
}

/// The machine bound for an unshift traversal: the running `start` stays a `u32`.
pub open spec fn unshift_fits(e: SpecExpr, start: nat, count: nat) -> bool
    decreases e,
{
    match e {
        SpecExpr::Var(_) => true,
        SpecExpr::App(f, a) => unshift_fits(*f, start, count) && unshift_fits(*a, start, count),
        SpecExpr::Lambda(_, b) => start + 1 <= u32::MAX && unshift_fits(*b, start + 1, count),
    }
}

/// Every variable index of the tree fits in a `u32`. Holds of the view of
/// every expression the executable code can build.
pub open spec fn vars_fit(e: SpecExpr) -> bool
    decreases e,
{
    match e {
        SpecExpr::Var(v) => v <= u32::MAX,
        SpecExpr::App(f, a) => vars_fit(*f) && vars_fit(*a),
        SpecExpr::Lambda(_, b) => vars_fit(*b),
    }
}

/// Capture-avoiding substitution: every occurrence of `Var(idx)` becomes
/// `value` shifted by the binders crossed since the call began; other indices
/// above `idx` drop by one, because the binder being eliminated leaves the
/// index space.
pub open spec fn subst(e: SpecExpr, idx: nat, value: SpecExpr) -> SpecExpr
    decreases e,
{
    match e {
        SpecExpr::Var(v) => if v == idx {
            shifted(value, 0, idx)
        } else if v > idx {
            SpecExpr::Var((v - 1) as nat)
        } else {
            SpecExpr::Var(v)
        },
        SpecExpr::App(f, a) => SpecExpr::App(
            Box::new(subst(*f, idx, value)),
            Box::new(subst(*a, idx, value)),
        ),
        SpecExpr::Lambda(p, b) => SpecExpr::Lambda(p, Box::new(subst(*b, idx + 1, value))),
    }
}

/// The machine bound for a substitution pass, mirroring the traversal the
/// executable code makes: the shift applied at each matched occurrence fits,
/// the running `idx` stays a `u32`, and the ownership-transfer probe at an
/// application (only made when `may_take` holds) fits too.
pub open spec fn subst_fits(e: SpecExpr, idx: nat, value: SpecExpr, may_take: bool) -> bool
    decreases e,
{
    match e {
        SpecExpr::Var(v) => v == idx ==> shift_fits(value, 0, idx),
        SpecExpr::App(f, a) => if may_take {
            unshift_fits(*a, idx, 1) && if can_unshift(*a, idx, 1) {
                subst_fits(*f, idx, value, true)
            } else {
                subst_fits(*f, idx, value, false) && subst_fits(*a, idx, value, true)
            }
        } else {
            subst_fits(*f, idx, value, false) && subst_fits(*a, idx, value, false)
        },
        SpecExpr::Lambda(_, b) => idx + 1 <= u32::MAX && subst_fits(*b, idx + 1, value, may_take),
    }
}

/// An unshift that succeeds can be undone: shifting the result by the same
/// band gives the original tree back, and that shift fits whenever the
/// original indices fit.
pub proof fn lemma_unshift_revert(e: SpecExpr, start: nat, count: nat)
    requires
        can_unshift(e, start, count),
        unshift_fits(e, start, count),
        vars_fit(e),
    ensures
        shift_fits(unshifted(e, start, count), start, count),
        shifted(unshifted(e, start, count), start, count) == e,
    decreases e,
{
    match e {
        SpecExpr::Var(_) => {}
        SpecExpr::App(f, a) => {
            lemma_unshift_revert(*f, start, count);
            lemma_unshift_revert(*a, start, count);
            assert(shifted(unshifted(e, start, count), start, count) == e);
        }
        SpecExpr::Lambda(p, b) => {
            lemma_unshift_revert(*b, start + 1, count);
            assert(shifted(unshifted(e, start, count), start, count) == e);
        }
    }
}

/// On a tree that never mentions `Var(idx)`, substitution at `idx` only
/// renumbers: it agrees with removing the one-binder band at `idx`, whatever
/// the substituted value is.
pub proof fn lemma_subst_absent(e: SpecExpr, idx: nat, value: SpecExpr)
    requires
        can_unshift(e, idx, 1),
    ensures
        subst(e, idx, value) == unshifted(e, idx, 1),
    decreases e,
{
    match e {
        SpecExpr::Var(_) => {}
        SpecExpr::App(f, a) => {
            lemma_subst_absent(*f, idx, value);
            lemma_subst_absent(*a, idx, value);
            assert(subst(e, idx, value) == unshifted(e, idx, 1));
        }
        SpecExpr::Lambda(p, b) => {
            lemma_subst_absent(*b, idx + 1, value);
            assert(subst(e, idx, value) == unshifted(e, idx, 1));
        }
    }
}

/// The height of a tree, the measure that bounds every traversal.
pub open spec fn height(e: SpecExpr) -> nat
    decreases e,
{
    match e {
        SpecExpr::Var(_) => 0,
        SpecExpr::App(f, a) => 1 + if height(*f) >= height(*a) {
            height(*f)
        } else {
            height(*a)
        },
        SpecExpr::Lambda(_, b) => 1 + height(*b),
    }
}

/// What one full run of the reducer leaves behind: the tree it stops on, the
/// fuel it has left, and whether every index adjustment along the run fits in
/// a `u32` (the machine bound the executable reducer requires).
pub struct ReduceOutcome {
    pub expr: SpecExpr,
    pub fuel: nat,
    pub fits: bool,
}

/// The reduction driver. At an application, beta fires when the function side
/// is an abstraction; otherwise the function subtree is retried before the
/// argument subtree. At an abstraction, eta fires when the body applies a
/// function that ignores the bound variable to exactly that variable;
/// otherwise the body is retried. Each fired step costs one unit of fuel, and
/// the node is revisited after every step until nothing fires or fuel is gone.
pub open spec fn reduce_spec(e: SpecExpr, fuel: nat) -> ReduceOutcome
    decreases fuel, height(e),
{
    if fuel == 0 {
        ReduceOutcome { expr: e, fuel: 0, fits: true }
    } else {
        match e {
            SpecExpr::Var(_) => ReduceOutcome { expr: e, fuel, fits: true },
            SpecExpr::App(f, a) => match *f {
                SpecExpr::Lambda(p, b) => {
                    let rest = reduce_spec(subst(*b, 0, *a), (fuel - 1) as nat);
                    ReduceOutcome {
                        expr: rest.expr,
                        fuel: rest.fuel,
                        fits: subst_fits(*b, 0, *a, true) && rest.fits,
                    }
                }
                _ => {
                    let rf = reduce_spec(*f, fuel);
                    let fuel_f = if rf.fuel <= fuel {
                        rf.fuel
                    } else {
                        fuel
                    };
                    if fuel_f < fuel {
                        let rest = reduce_spec(
                            SpecExpr::App(Box::new(rf.expr), a),
                            fuel_f,
                        );
                        ReduceOutcome {
                            expr: rest.expr,
                            fuel: rest.fuel,
                            fits: rf.fits && rest.fits,
                        }
                    } else {
                        let ra = reduce_spec(*a, fuel);
                        let fuel_a = if ra.fuel <= fuel {
                            ra.fuel
                        } else {
                            fuel
                        };
                        if fuel_a < fuel {
                            let rest = reduce_spec(
                                SpecExpr::App(Box::new(rf.expr), Box::new(ra.expr)),
                                fuel_a,
                            );
                            ReduceOutcome {
                                expr: rest.expr,
                                fuel: rest.fuel,
                                fits: rf.fits && ra.fits && rest.fits,
                            }
                        } else {
                            ReduceOutcome {
                                expr: SpecExpr::App(Box::new(rf.expr), Box::new(ra.expr)),
                                fuel,
                                fits: rf.fits && ra.fits,
                            }
                        }
                    }
                }
            },
            SpecExpr::Lambda(p, b) => match *b {
                SpecExpr::App(g, barg) if *barg == SpecExpr::Var(0) => {
                    if can_unshift(*g, 0, 1) {
                        let rest = reduce_spec(unshifted(*g, 0, 1), (fuel - 1) as nat);
                        ReduceOutcome {
                            expr: rest.expr,
                            fuel: rest.fuel,
                            fits: unshift_fits(*g, 0, 1) && rest.fits,
                        }
                    } else {
                        let rb = reduce_spec(*b, fuel);
                        let fuel_b = if rb.fuel <= fuel {
                            rb.fuel
                        } else {
                            fuel
                        };
                        if fuel_b < fuel {
                            let rest = reduce_spec(SpecExpr::Lambda(p, Box::new(rb.expr)), fuel_b);
                            ReduceOutcome {
                                expr: rest.expr,
                                fuel: rest.fuel,
                                fits: unshift_fits(*g, 0, 1) && rb.fits && rest.fits,
                            }
                        } else {
                            ReduceOutcome {
                                expr: SpecExpr::Lambda(p, Box::new(rb.expr)),
                                fuel,
                                fits: unshift_fits(*g, 0, 1) && rb.fits,
                            }
                        }
                    }
                }
                _ => {
                    let rb = reduce_spec(*b, fuel);
                    let fuel_b = if rb.fuel <= fuel {
                        rb.fuel
                    } else {
                        fuel
                    };
                    if fuel_b < fuel {
                        let rest = reduce_spec(SpecExpr::Lambda(p, Box::new(rb.expr)), fuel_b);
                        ReduceOutcome { expr: rest.expr, fuel: rest.fuel, fits: rb.fits && rest.fits }
                    } else {
                        ReduceOutcome {
                            expr: SpecExpr::Lambda(p, Box::new(rb.expr)),
                            fuel,
                            fits: rb.fits,
                        }
                    }
                }
            },
        }
    }
}

} // verus!
