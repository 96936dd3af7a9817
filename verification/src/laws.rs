use vstd::prelude::*;

use crate::model::{
    can_unshift, height, reduce_spec, shift_fits, shifted, subst, subst_fits, unshift_fits,
    unshifted, wf_expr, SpecExpr,
};

verus! {

/// A normal form: no beta redex (an application whose function side is an
/// abstraction) and no eta redex (an abstraction whose body applies a function
/// that ignores the bound variable to exactly that variable) anywhere.
pub open spec fn is_normal(e: SpecExpr) -> bool
    decreases e,
{
    match e {
        SpecExpr::Var(_) => true,
        SpecExpr::App(f, a) => !(*f matches SpecExpr::Lambda(_, _)) && is_normal(*f) && is_normal(
            *a,
        ),
        SpecExpr::Lambda(_, b) => {
            let no_eta = match *b {
                SpecExpr::App(g, barg) => !(*barg == SpecExpr::Var(0) && can_unshift(*g, 0, 1)),
                _ => true,
            };
            no_eta && is_normal(*b)
        },
    }
}

/// Budget monotonicity: a run never hands back more fuel than it was given,
/// so the steps taken (fuel in minus fuel out) never exceed the budget.
pub proof fn lemma_reduce_fuel_monotone(e: SpecExpr, fuel: nat)
    ensures
        reduce_spec(e, fuel).fuel <= fuel,
    decreases fuel, height(e),
{
    if fuel == 0 {
    } else {
        match e {
            SpecExpr::Var(_) => {}
            SpecExpr::App(f, a) => match *f {
                SpecExpr::Lambda(p, b) => {
                    lemma_reduce_fuel_monotone(subst(*b, 0, *a), (fuel - 1) as nat);
                }
                _ => {
                    lemma_reduce_fuel_monotone(*f, fuel);
                    let rf = reduce_spec(*f, fuel);
                    let fuel_f = if rf.fuel <= fuel {
                        rf.fuel
                    } else {
                        fuel
                    };
                    if fuel_f < fuel {
                        lemma_reduce_fuel_monotone(SpecExpr::App(Box::new(rf.expr), a), fuel_f);
                    } else {
                        lemma_reduce_fuel_monotone(*a, fuel);
                        let ra = reduce_spec(*a, fuel);
                        let fuel_a = if ra.fuel <= fuel {
                            ra.fuel
                        } else {
                            fuel
                        };
                        if fuel_a < fuel {
                            lemma_reduce_fuel_monotone(
                                SpecExpr::App(Box::new(rf.expr), Box::new(ra.expr)),
                                fuel_a,
                            );
                        }
                    }
                }
            },
            SpecExpr::Lambda(p, b) => match *b {
                SpecExpr::App(g, barg) if *barg == SpecExpr::Var(0) => {
                    if can_unshift(*g, 0, 1) {
                        lemma_reduce_fuel_monotone(unshifted(*g, 0, 1), (fuel - 1) as nat);
                    } else {
                        lemma_reduce_fuel_monotone(*b, fuel);
                        let rb = reduce_spec(*b, fuel);
                        let fuel_b = if rb.fuel <= fuel {
                            rb.fuel
                        } else {
                            fuel
                        };
                        if fuel_b < fuel {
                            lemma_reduce_fuel_monotone(
                                SpecExpr::Lambda(p, Box::new(rb.expr)),
                                fuel_b,
                            );
                        }
                    }
                }
                _ => {
                    lemma_reduce_fuel_monotone(*b, fuel);
                    let rb = reduce_spec(*b, fuel);
                    let fuel_b = if rb.fuel <= fuel {
                        rb.fuel
                    } else {
                        fuel
                    };
                    if fuel_b < fuel {
                        lemma_reduce_fuel_monotone(SpecExpr::Lambda(p, Box::new(rb.expr)), fuel_b);
                    }
                }
            },
        }
    }
}

/// A run with fuel to spare that takes no step was looking at a normal form,
/// and such a run leaves the tree exactly as it found it.
pub proof fn lemma_no_step_is_normal(e: SpecExpr, fuel: nat)
    requires
        fuel >= 1,
        reduce_spec(e, fuel).fuel == fuel,
    ensures
        is_normal(e),
        reduce_spec(e, fuel).expr == e,
    decreases fuel, height(e),
{
    match e {
        SpecExpr::Var(_) => {}
        SpecExpr::App(f, a) => match *f {
            SpecExpr::Lambda(p, b) => {
                lemma_reduce_fuel_monotone(subst(*b, 0, *a), (fuel - 1) as nat);
            }
            _ => {
                lemma_reduce_fuel_monotone(*f, fuel);
                let rf = reduce_spec(*f, fuel);
                if rf.fuel < fuel {
                    lemma_reduce_fuel_monotone(SpecExpr::App(Box::new(rf.expr), a), rf.fuel);
                } else {
                    lemma_reduce_fuel_monotone(*a, fuel);
                    let ra = reduce_spec(*a, fuel);
                    if ra.fuel < fuel {
                        lemma_reduce_fuel_monotone(
                            SpecExpr::App(Box::new(rf.expr), Box::new(ra.expr)),
                            ra.fuel,
                        );
                    } else {
                        lemma_no_step_is_normal(*f, fuel);
                        lemma_no_step_is_normal(*a, fuel);
                        assert(reduce_spec(e, fuel).expr == e);
                    }
                }
            }
        },
        SpecExpr::Lambda(p, b) => match *b {
            SpecExpr::App(g, barg) if *barg == SpecExpr::Var(0) => {
                if can_unshift(*g, 0, 1) {
                    lemma_reduce_fuel_monotone(unshifted(*g, 0, 1), (fuel - 1) as nat);
                } else {
                    lemma_reduce_fuel_monotone(*b, fuel);
                    let rb = reduce_spec(*b, fuel);
                    if rb.fuel < fuel {
                        lemma_reduce_fuel_monotone(SpecExpr::Lambda(p, Box::new(rb.expr)), rb.fuel);
                    } else {
                        lemma_no_step_is_normal(*b, fuel);
                        assert(reduce_spec(e, fuel).expr == e);
                    }
                }
            }
            _ => {
                lemma_reduce_fuel_monotone(*b, fuel);
                let rb = reduce_spec(*b, fuel);
                if rb.fuel < fuel {
                    lemma_reduce_fuel_monotone(SpecExpr::Lambda(p, Box::new(rb.expr)), rb.fuel);
                } else {
                    lemma_no_step_is_normal(*b, fuel);
                    assert(reduce_spec(e, fuel).expr == e);
                }
            }
        },
    }
}

/// A normal form is a fixed point of the reducer: with any budget at all, no
/// step fires, no fuel is spent, and the tree is handed back unchanged.
pub proof fn lemma_normal_fixed_point(e: SpecExpr, fuel: nat)
    requires
        is_normal(e),
    ensures
        reduce_spec(e, fuel).expr == e,
        reduce_spec(e, fuel).fuel == fuel,
    decreases fuel, height(e),
{
    if fuel == 0 {
    } else {
        match e {
            SpecExpr::Var(_) => {}
            SpecExpr::App(f, a) => {
                lemma_normal_fixed_point(*f, fuel);
                lemma_normal_fixed_point(*a, fuel);
                assert(reduce_spec(e, fuel).expr == e);
            }
            SpecExpr::Lambda(p, b) => {
                lemma_normal_fixed_point(*b, fuel);
                assert(reduce_spec(e, fuel).expr == e);
            }
        }
    }
}

/// Idempotence of normal forms: when a run with fuel to spare reports that no
/// step was possible, every later run, with any budget, again takes no step
/// and leaves the tree untouched.
pub proof fn lemma_normal_form_idempotent(e: SpecExpr, fuel1: nat, fuel2: nat)
    requires
        fuel1 >= 1,
        reduce_spec(e, fuel1).fuel == fuel1,
    ensures
        reduce_spec(e, fuel2).expr == e,
        reduce_spec(e, fuel2).fuel == fuel2,
{
    lemma_no_step_is_normal(e, fuel1);
    lemma_normal_fixed_point(e, fuel2);
}

/// A shift by zero moves nothing.
pub proof fn lemma_shift_zero(e: SpecExpr, start: nat)
    ensures
        shifted(e, start, 0) == e,
    decreases e,
{
    match e {
        SpecExpr::Var(_) => {}
        SpecExpr::App(f, a) => {
            lemma_shift_zero(*f, start);
            lemma_shift_zero(*a, start);
            assert(shifted(e, start, 0) == e);
        }
        SpecExpr::Lambda(p, b) => {
            lemma_shift_zero(*b, start + 1);
            assert(shifted(e, start, 0) == e);
        }
    }
}

/// Beta correctness: applying the identity abstraction to an argument already
/// in normal form consumes exactly one step and yields that argument.
pub proof fn lemma_beta_identity(p: Seq<char>, a: SpecExpr, fuel: nat)
    requires
        fuel >= 1,
        is_normal(a),
    ensures
        ({
            let redex = SpecExpr::App(
                Box::new(SpecExpr::Lambda(p, Box::new(SpecExpr::Var(0)))),
                Box::new(a),
            );
            reduce_spec(redex, fuel).expr == a && reduce_spec(redex, fuel).fuel == fuel - 1
        }),
{
    lemma_shift_zero(a, 0);
    assert(subst(SpecExpr::Var(0), 0, a) == a);
    lemma_normal_fixed_point(a, (fuel - 1) as nat);
}

/// Eta correctness: an abstraction whose body applies a function that ignores
/// the bound variable to exactly that variable consumes one step and yields
/// the function lowered out of the binder, provided that result is normal.
pub proof fn lemma_eta_reduces(p: Seq<char>, g: SpecExpr, fuel: nat)
    requires
        fuel >= 1,
        can_unshift(g, 0, 1),
        is_normal(unshifted(g, 0, 1)),
    ensures
        ({
            let redex = SpecExpr::Lambda(
                p,
                Box::new(SpecExpr::App(Box::new(g), Box::new(SpecExpr::Var(0)))),
            );
            reduce_spec(redex, fuel).expr == unshifted(g, 0, 1) && reduce_spec(redex, fuel).fuel
                == fuel - 1
        }),
{
    lemma_normal_fixed_point(unshifted(g, 0, 1), (fuel - 1) as nat);
}

/// The self-application abstraction is no eta redex: its body applies the
/// bound variable itself, so the reducer takes no step on it, whatever the
/// budget.
pub proof fn lemma_eta_self_application(p: Seq<char>, fuel: nat)
    ensures
        ({
            let term = SpecExpr::Lambda(
                p,
                Box::new(
                    SpecExpr::App(Box::new(SpecExpr::Var(0)), Box::new(SpecExpr::Var(0))),
                ),
            );
            reduce_spec(term, fuel).expr == term && reduce_spec(term, fuel).fuel == fuel
        }),
{
    let term = SpecExpr::Lambda(
        p,
        Box::new(SpecExpr::App(Box::new(SpecExpr::Var(0)), Box::new(SpecExpr::Var(0)))),
    );
    let body = SpecExpr::App(Box::new(SpecExpr::Var(0)), Box::new(SpecExpr::Var(0)));
    assert(!can_unshift(SpecExpr::Var(0), 0, 1));
    assert(is_normal(SpecExpr::Var(0)));
    assert(is_normal(body));
    assert(is_normal(term));
    lemma_normal_fixed_point(term, fuel);
}

/// Non-termination containment: reducing the self-application of the omega
/// combinator with a budget of one performs exactly that one step and
/// reproduces the original tree; with a budget of zero it performs none.
/// Every index adjustment of such a run fits the machine bound.
pub proof fn lemma_omega_contained(p: Seq<char>, q: Seq<char>)
    ensures
        ({
            let omega = SpecExpr::Lambda(
                p,
                Box::new(
                    SpecExpr::App(Box::new(SpecExpr::Var(0)), Box::new(SpecExpr::Var(0))),
                ),
            );
            let omega2 = SpecExpr::Lambda(
                q,
                Box::new(
                    SpecExpr::App(Box::new(SpecExpr::Var(0)), Box::new(SpecExpr::Var(0))),
                ),
            );
            let term = SpecExpr::App(Box::new(omega), Box::new(omega2));
            reduce_spec(term, 1).expr == SpecExpr::App(Box::new(omega2), Box::new(omega2))
                && reduce_spec(term, 1).fuel == 0 && reduce_spec(term, 1).fits && reduce_spec(
                term,
                0,
            ).expr == term && reduce_spec(term, 0).fuel == 0 && reduce_spec(term, 0).fits
        }),
{
    let omega2 = SpecExpr::Lambda(
        q,
        Box::new(SpecExpr::App(Box::new(SpecExpr::Var(0)), Box::new(SpecExpr::Var(0)))),
    );
    lemma_shift_zero(omega2, 0);
    let body = SpecExpr::App(Box::new(SpecExpr::Var(0)), Box::new(SpecExpr::Var(0)));
    assert(subst(SpecExpr::Var(0), 0, omega2) == omega2);
    assert(subst(body, 0, omega2) == SpecExpr::App(Box::new(omega2), Box::new(omega2)));
    assert(shift_fits(SpecExpr::Var(0), 1, 0));
    assert(shift_fits(body, 1, 0));
    assert(shift_fits(omega2, 0, 0));
    assert(subst_fits(SpecExpr::Var(0), 0, omega2, true));
    assert(subst_fits(SpecExpr::Var(0), 0, omega2, false));
    assert(!can_unshift(SpecExpr::Var(0), 0, 1));
    assert(unshift_fits(SpecExpr::Var(0), 0, 1));
    assert(subst_fits(body, 0, omega2, true));
    let omega_omega = SpecExpr::App(Box::new(omega2), Box::new(omega2));
    assert(reduce_spec(omega_omega, 0).expr == omega_omega && reduce_spec(omega_omega, 0).fuel
        == 0 && reduce_spec(omega_omega, 0).fits);
}

/// Shifting into `count` extra binders keeps a tree well formed, at a depth
/// grown by the same count.
pub proof fn lemma_shift_preserves_wf(e: SpecExpr, start: nat, count: nat, depth: nat)
    requires
        wf_expr(e, depth),
    ensures
        wf_expr(shifted(e, start, count), depth + count),
    decreases e,
{
    match e {
        SpecExpr::Var(_) => {}
        SpecExpr::App(f, a) => {
            lemma_shift_preserves_wf(*f, start, count, depth);
            lemma_shift_preserves_wf(*a, start, count, depth);
        }
        SpecExpr::Lambda(_, b) => {
            lemma_shift_preserves_wf(*b, start + 1, count, depth + 1);
        }
    }
}

/// Removing an unreferenced band of `count` binders keeps a tree well formed,
/// at a depth lowered by the same count.
pub proof fn lemma_unshift_preserves_wf(e: SpecExpr, start: nat, count: nat, depth: nat)
    requires
        wf_expr(e, depth),
        can_unshift(e, start, count),
        start + count <= depth,
    ensures
        wf_expr(unshifted(e, start, count), (depth - count) as nat),
    decreases e,
{
    match e {
        SpecExpr::Var(_) => {}
        SpecExpr::App(f, a) => {
            lemma_unshift_preserves_wf(*f, start, count, depth);
            lemma_unshift_preserves_wf(*a, start, count, depth);
        }
        SpecExpr::Lambda(_, b) => {
            lemma_unshift_preserves_wf(*b, start + 1, count, depth + 1);
        }
    }
}

/// Substitution eliminates one binder: a tree well formed under `depth`
/// binders, with a value well formed where the eliminated binder was
/// introduced, stays well formed under one binder fewer.
pub proof fn lemma_subst_preserves_wf(e: SpecExpr, idx: nat, value: SpecExpr, depth: nat)
    requires
        wf_expr(e, depth),
        idx < depth,
        wf_expr(value, (depth - idx - 1) as nat),
    ensures
        wf_expr(subst(e, idx, value), (depth - 1) as nat),
    decreases e,
{
    match e {
        SpecExpr::Var(v) => {
            if v == idx {
                lemma_shift_preserves_wf(value, 0, idx, (depth - idx - 1) as nat);
            }
        }
        SpecExpr::App(f, a) => {
            lemma_subst_preserves_wf(*f, idx, value, depth);
            lemma_subst_preserves_wf(*a, idx, value, depth);
        }
        SpecExpr::Lambda(_, b) => {
            lemma_subst_preserves_wf(*b, idx + 1, value, depth + 1);
        }
    }
}

/// The reducer hands back a tree well formed at the same depth it was given,
/// so what it leaves behind the printer always accepts.
pub proof fn lemma_reduce_preserves_wf(e: SpecExpr, fuel: nat, depth: nat)
    requires
        wf_expr(e, depth),
    ensures
        wf_expr(reduce_spec(e, fuel).expr, depth),
    decreases fuel, height(e),
{
    if fuel == 0 {
    } else {
        match e {
            SpecExpr::Var(_) => {}
            SpecExpr::App(f, a) => match *f {
                SpecExpr::Lambda(p, b) => {
                    assert(wf_expr(SpecExpr::Lambda(p, b), depth));
                    assert(wf_expr(*b, depth + 1));
                    lemma_subst_preserves_wf(*b, 0, *a, depth + 1);
                    lemma_reduce_preserves_wf(subst(*b, 0, *a), (fuel - 1) as nat, depth);
                }
                _ => {
                    lemma_reduce_preserves_wf(*f, fuel, depth);
                    let rf = reduce_spec(*f, fuel);
                    let fuel_f = if rf.fuel <= fuel {
                        rf.fuel
                    } else {
                        fuel
                    };
                    if fuel_f < fuel {
                        lemma_reduce_preserves_wf(
                            SpecExpr::App(Box::new(rf.expr), a),
                            fuel_f,
                            depth,
                        );
                    } else {
                        lemma_reduce_preserves_wf(*a, fuel, depth);
                        let ra = reduce_spec(*a, fuel);
                        let fuel_a = if ra.fuel <= fuel {
                            ra.fuel
                        } else {
                            fuel
                        };
                        if fuel_a < fuel {
                            lemma_reduce_preserves_wf(
                                SpecExpr::App(Box::new(rf.expr), Box::new(ra.expr)),
                                fuel_a,
                                depth,
                            );
                        }
                    }
                }
            },
            SpecExpr::Lambda(p, b) => match *b {
                SpecExpr::App(g, barg) if *barg == SpecExpr::Var(0) => {
                    if can_unshift(*g, 0, 1) {
                        assert(wf_expr(*b, depth + 1));
                        assert(wf_expr(*g, depth + 1));
                        lemma_unshift_preserves_wf(*g, 0, 1, depth + 1);
                        lemma_reduce_preserves_wf(unshifted(*g, 0, 1), (fuel - 1) as nat, depth);
                    } else {
                        lemma_reduce_preserves_wf(*b, fuel, depth + 1);
                        let rb = reduce_spec(*b, fuel);
                        let fuel_b = if rb.fuel <= fuel {
                            rb.fuel
                        } else {
                            fuel
                        };
                        if fuel_b < fuel {
                            lemma_reduce_preserves_wf(
                                SpecExpr::Lambda(p, Box::new(rb.expr)),
                                fuel_b,
                                depth,
                            );
                        }
                    }
                }
                _ => {
                    lemma_reduce_preserves_wf(*b, fuel, depth + 1);
                    let rb = reduce_spec(*b, fuel);
                    let fuel_b = if rb.fuel <= fuel {
                        rb.fuel
                    } else {
                        fuel
                    };
                    if fuel_b < fuel {
                        lemma_reduce_preserves_wf(
                            SpecExpr::Lambda(p, Box::new(rb.expr)),
                            fuel_b,
                            depth,
                        );
                    }
                }
            },
        }
    }
}

} // verus!
