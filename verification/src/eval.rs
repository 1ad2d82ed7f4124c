//! The normal-order beta-reduction evaluator.
//!
//! `spec_step` is the single leftmost-outermost reduction step; `spec_steps`
//! iterates it.  `DBExpr::eval` loops until no step applies and is proved to
//! return a normal form reached from its input by reduction steps.  Since
//! every verified loop must terminate, `eval` requires its input to
//! normalize; the step relation itself is defined for every term.
//!
//! Evaluation is idempotent (`lemma_evaluate_idempotent`) and deterministic
//! (`lemma_evaluate_deterministic`): normal forms are fixed points, and a term
//! has at most one evaluation result.

use vstd::prelude::*;

use crate::debruijn::db_height;
use crate::debruijn::db_view;
use crate::debruijn::db_wf;
use crate::debruijn::DBExpr;
use crate::debruijn::DbView;

verus! {

// ---------------------------------------------------------------------------
// Substitution
// ---------------------------------------------------------------------------
/// The term with every index of a variable free in `d` (one bound by a binder
/// outside `depth` levels) incremented by `n`: the shift that keeps an
/// argument's free variables pointing outward when it moves under binders.
pub open spec fn spec_shift(d: DbView, n: nat, depth: nat) -> DbView
    decreases d,
{
    match d {
        DbView::Var(i) => if i >= depth {
            DbView::Var((i + n) as nat)
        } else {
            DbView::Var(i)
        },
        DbView::Fun(b) => DbView::Fun(Box::new(spec_shift(*b, n, depth + 1))),
        DbView::App(f, a) => DbView::App(
            Box::new(spec_shift(*f, n, depth)),
            Box::new(spec_shift(*a, n, depth)),
        ),
    }
}

/// Capture-avoiding substitution at a redex: in `d`, the body of the
/// abstraction being applied, replaces the variable bound by that abstraction
/// (index `depth`) with `arg`, shifting `arg`'s free indices by `depth` and
/// decrementing indices that pointed outside the eliminated binder.
pub open spec fn spec_replace(d: DbView, arg: DbView, depth: nat) -> DbView
    decreases d,
{
    match d {
        DbView::Var(i) => if i == depth {
            spec_shift(arg, depth, 0)
        } else if i > depth {
            DbView::Var((i - 1) as nat)
        } else {
            DbView::Var(i)
        },
        DbView::Fun(b) => DbView::Fun(Box::new(spec_replace(*b, arg, depth + 1))),
        DbView::App(f, a) => DbView::App(
            Box::new(spec_replace(*f, arg, depth)),
            Box::new(spec_replace(*a, arg, depth)),
        ),
    }
}

// ---------------------------------------------------------------------------
// The step relation
// ---------------------------------------------------------------------------
/// One normal-order (leftmost-outermost) reduction step, or `None` if the
/// term is a normal form: a redex at the head of an application reduces
/// first, then the function side, then the argument side, then under the
/// abstraction.
pub open spec fn spec_step(d: DbView) -> Option<DbView>
    decreases d,
{
    match d {
        DbView::Var(_) => None,
        DbView::Fun(b) => match spec_step(*b) {
            Some(nb) => Some(DbView::Fun(Box::new(nb))),
            None => None,
        },
        DbView::App(f, a) => {
            if *f is Fun {
                Some(spec_replace(*f->Fun_0, *a, 0))
            } else {
                match spec_step(*f) {
                    Some(nf) => Some(DbView::App(Box::new(nf), a)),
                    None => match spec_step(*a) {
                        Some(na) => Some(DbView::App(f, Box::new(na))),
                        None => None,
                    },
                }
            }
        },
    }
}

/// A term with no redex: reduction has nothing left to do.
pub open spec fn normal_form(d: DbView) -> bool {
    spec_step(d) is None
}

/// The term after `n` reduction steps (stopping early at a normal form).
pub open spec fn spec_steps(d: DbView, n: nat) -> DbView
    decreases n,
{
    if n == 0 {
        d
    } else {
        match spec_step(d) {
            Some(u) => spec_steps(u, (n - 1) as nat),
            None => d,
        }
    }
}

/// A term whose reduction reaches a normal form.
pub open spec fn normalizes(d: DbView) -> bool {
    exists|n: nat| normal_form(spec_steps(d, n))
}

/// `r` is what evaluating `t` returns: a normal form reached from `t` by
/// reduction steps.  This is exactly the postcondition of `DBExpr::eval`.
pub open spec fn is_evaluation(t: DbView, r: DbView) -> bool {
    normal_form(r) && exists|n: nat| r == spec_steps(t, n)
}

/// Every index appearing in the term is below `b`.
pub open spec fn indices_below(d: DbView, b: nat) -> bool
    decreases d,
{
    match d {
        DbView::Var(i) => i < b,
        DbView::Fun(bd) => indices_below(*bd, b),
        DbView::App(f, a) => indices_below(*f, b) && indices_below(*a, b),
    }
}

/// What one machine step needs of a term: its height and its indices fit the
/// machine's word size.  Any term actually held in memory satisfies this.
pub open spec fn reduction_fits(d: DbView) -> bool {
    db_height(d) <= usize::MAX && indices_below(d, usize::MAX as nat + 1)
}

/// What `eval` requires of a term: it normalizes, and every term its
/// reduction passes through fits the machine.
pub open spec fn eval_safe(d: DbView) -> bool {
    normalizes(d) && forall|n: nat| #![trigger spec_steps(d, n)] reduction_fits(spec_steps(d, n))
}

// ---------------------------------------------------------------------------
// Properties of the step relation
// ---------------------------------------------------------------------------
/// Unrolls `spec_steps` at the far end: one more step after `n`.
pub proof fn lemma_steps_unfold(d: DbView, n: nat)
    ensures
        spec_steps(d, n + 1) == match spec_step(spec_steps(d, n)) {
            Some(u) => u,
            None => spec_steps(d, n),
        },
    decreases n,
{
    match spec_step(d) {
        Some(u) => {
            assert(spec_steps(d, n + 1) == spec_steps(u, n));
            if n == 0 {
                assert(spec_steps(u, 0) == u);
                assert(spec_steps(d, 0) == d);
            } else {
                lemma_steps_unfold(u, (n - 1) as nat);
                assert(spec_steps(d, n) == spec_steps(u, (n - 1) as nat));
            }
        },
        None => {
            assert(spec_steps(d, n + 1) == d);
            lemma_steps_stable(d, n);
        },
    }
}

/// A normal form is a fixed point of reduction.
pub proof fn lemma_steps_stable(d: DbView, n: nat)
    requires
        normal_form(d),
    ensures
        spec_steps(d, n) == d,
{
}

/// Reduction steps compose.
pub proof fn lemma_steps_add(d: DbView, m: nat, n: nat)
    ensures
        spec_steps(d, m + n) == spec_steps(spec_steps(d, m), n),
    decreases m,
{
    if m > 0 {
        match spec_step(d) {
            Some(u) => {
                lemma_steps_add(u, (m - 1) as nat, n);
            },
            None => {
                lemma_steps_stable(d, m + n);
                lemma_steps_stable(d, m);
            },
        }
    }
}

/// Evaluator idempotence: evaluating an evaluation result returns it
/// unchanged — normal forms are fixed points, so
/// `evaluate(evaluate(t)) == evaluate(t)`.
pub proof fn lemma_evaluate_idempotent(t: DbView, r1: DbView, r2: DbView)
    requires
        is_evaluation(t, r1),
        is_evaluation(r1, r2),
    ensures
        r2 == r1,
{
    let n2 = choose|n: nat| r2 == spec_steps(r1, n);
    lemma_steps_stable(r1, n2);
}

/// Evaluation is deterministic: a term has at most one evaluation result.
pub proof fn lemma_evaluate_deterministic(t: DbView, r1: DbView, r2: DbView)
    requires
        is_evaluation(t, r1),
        is_evaluation(t, r2),
    ensures
        r1 == r2,
{
    let n1 = choose|n: nat| r1 == spec_steps(t, n);
    let n2 = choose|n: nat| r2 == spec_steps(t, n);
    if n1 <= n2 {
        lemma_steps_add(t, n1, (n2 - n1) as nat);
        lemma_steps_stable(r1, (n2 - n1) as nat);
    } else {
        lemma_steps_add(t, n2, (n1 - n2) as nat);
        lemma_steps_stable(r2, (n1 - n2) as nat);
    }
}

// ---------------------------------------------------------------------------
// Subject reduction: steps preserve well-formedness
// ---------------------------------------------------------------------------
proof fn lemma_shift_wf(d: DbView, n: nat, depth: nat, c: nat)
    requires
        db_wf(d, depth + c),
    ensures
        db_wf(spec_shift(d, n, depth), depth + c + n),
    decreases d,
{
    match d {
        DbView::Var(_) => {},
        DbView::Fun(b) => {
            lemma_shift_wf(*b, n, depth + 1, c);
        },
        DbView::App(f, a) => {
            lemma_shift_wf(*f, n, depth, c);
            lemma_shift_wf(*a, n, depth, c);
        },
    }
}

proof fn lemma_replace_wf(d: DbView, arg: DbView, depth: nat, c: nat)
    requires
        db_wf(d, depth + 1 + c),
        db_wf(arg, c),
    ensures
        db_wf(spec_replace(d, arg, depth), depth + c),
    decreases d,
{
    match d {
        DbView::Var(i) => {
            if i == depth {
                lemma_shift_wf(arg, depth, 0, c);
            }
        },
        DbView::Fun(b) => {
            lemma_replace_wf(*b, arg, depth + 1, c);
        },
        DbView::App(f, a) => {
            lemma_replace_wf(*f, arg, depth, c);
            lemma_replace_wf(*a, arg, depth, c);
        },
    }
}

/// Subject reduction: one step preserves well-formedness.
pub proof fn lemma_step_wf(d: DbView, c: nat)
    requires
        db_wf(d, c),
    ensures
        spec_step(d) matches Some(u) ==> db_wf(u, c),
    decreases d,
{
    match d {
        DbView::Var(_) => {},
        DbView::Fun(b) => {
            lemma_step_wf(*b, c + 1);
        },
        DbView::App(f, a) => {
            if *f is Fun {
                assert(db_wf(*f, c));
                assert(db_wf(*f->Fun_0, c + 1));
                lemma_replace_wf(*f->Fun_0, *a, 0, c);
            } else {
                lemma_step_wf(*f, c);
                lemma_step_wf(*a, c);
            }
        },
    }
}

/// Subject reduction, iterated: every reduct of a well-formed term is
/// well-formed.
pub proof fn lemma_steps_wf(d: DbView, n: nat, c: nat)
    requires
        db_wf(d, c),
    ensures
        db_wf(spec_steps(d, n), c),
    decreases n,
{
    if n > 0 {
        lemma_step_wf(d, c);
        match spec_step(d) {
            Some(u) => {
                lemma_steps_wf(u, (n - 1) as nat, c);
            },
            None => {},
        }
    }
}

// ---------------------------------------------------------------------------
// The executable evaluator
// ---------------------------------------------------------------------------
/// Shifts the free variables of `e` (those at or above `depth`) up by `n`.
fn increment_free_vars(e: &DBExpr, n: usize, depth: usize) -> (r: DBExpr)
    requires
        depth + db_height(e@) <= usize::MAX,
        indices_below(spec_shift(e@, n as nat, depth as nat), usize::MAX as nat + 1),
    ensures
        r@ == spec_shift(e@, n as nat, depth as nat),
    decreases e,
{
    match e {
        DBExpr::Var(i) => {
            if *i >= depth {
                DBExpr::Var(*i + n)
            } else {
                DBExpr::Var(*i)
            }
        },
        DBExpr::Fun(body) => DBExpr::Fun(Box::new(increment_free_vars(body, n, depth + 1))),
        DBExpr::App(f, a) => DBExpr::App(
            Box::new(increment_free_vars(f, n, depth)),
            Box::new(increment_free_vars(a, n, depth)),
        ),
    }
}

/// Substitutes `arg` for the variable bound at `depth` in `e`, shifting as
/// capture avoidance demands.
fn replace(e: &DBExpr, arg: &DBExpr, depth: usize) -> (r: DBExpr)
    requires
        depth + db_height(e@) <= usize::MAX,
        db_height(arg@) <= usize::MAX,
        indices_below(spec_replace(e@, arg@, depth as nat), usize::MAX as nat + 1),
    ensures
        r@ == spec_replace(e@, arg@, depth as nat),
    decreases e,
{
    match e {
        DBExpr::Var(i) => {
            if *i == depth {
                // This variable is bound by the lambda being eliminated.
                increment_free_vars(arg, depth, 0)
            } else if *i > depth {
                // Bound by a lambda outside the eliminated one, which is now
                // one level closer.
                DBExpr::Var(*i - 1)
            } else {
                // Bound by a lambda between the redex and this occurrence.
                DBExpr::Var(*i)
            }
        },
        DBExpr::Fun(body) => DBExpr::Fun(Box::new(replace(body, arg, depth + 1))),
        DBExpr::App(f, a) => DBExpr::App(
            Box::new(replace(f, arg, depth)),
            Box::new(replace(a, arg, depth)),
        ),
    }
}

/// Attempts a single normal-order beta reduction; `None` means the term is a
/// normal form.
fn try_beta_reduce(e: &DBExpr) -> (r: Option<Box<DBExpr>>)
    requires
        db_height(e@) <= usize::MAX,
        spec_step(e@) matches Some(u) ==> indices_below(u, usize::MAX as nat + 1),
    ensures
        match spec_step(e@) {
            Some(u) => r matches Some(b) && b@ == u,
            None => r is None,
        },
    decreases e,
{
    match e {
        DBExpr::Var(_) => None,
        DBExpr::Fun(body) => match try_beta_reduce(body) {
            Some(nb) => Some(Box::new(DBExpr::Fun(nb))),
            None => None,
        },
        DBExpr::App(f, arg) => {
            match &**f {
                DBExpr::Fun(body) => {
                    proof {
                        assert(e@ == DbView::App(Box::new(f@), Box::new(arg@)));
                        assert(f@ == DbView::Fun(Box::new(body@)));
                        assert(db_height(f@) == 1 + db_height(body@));
                        assert(db_height(e@) >= 1 + db_height(f@));
                        assert(db_height(e@) >= 1 + db_height(arg@));
                        assert(spec_step(e@) == Some(spec_replace(body@, arg@, 0)));
                    }
                    return Some(Box::new(replace(body, arg, 0)));
                },
                _ => {},
            }
            match try_beta_reduce(f) {
                Some(nf) => {
                    return Some(Box::new(DBExpr::App(nf, Box::new((**arg).clone()))));
                },
                None => {},
            }
            match try_beta_reduce(arg) {
                Some(na) => Some(Box::new(DBExpr::App(Box::new((**f).clone()), na))),
                None => None,
            }
        },
    }
}

impl DBExpr {
    /// Reduces the term to its beta-normal form by repeated single steps.
    /// The input must normalize: the reduction loop, like every verified
    /// loop, has to terminate.
    pub fn eval(&self) -> (r: Box<DBExpr>)
        requires
            eval_safe(self@),
        ensures
            is_evaluation(self@, r@),
            normal_form(self@) ==> r@ == self@,
    {
        let mut ee = Box::new(self.clone());
        let ghost n0 = choose|n: nat| normal_form(spec_steps(self@, n));
        let ghost mut k: nat = 0;
        loop
            invariant
                k <= n0,
                ee@ == spec_steps(self@, k),
                normal_form(spec_steps(self@, n0)),
                eval_safe(self@),
                normal_form(self@) ==> ee@ == self@,
            decreases n0 - k,
        {
            proof {
                assert(reduction_fits(spec_steps(self@, k)));
                assert(reduction_fits(spec_steps(self@, k + 1)));
                lemma_steps_unfold(self@, k);
            }
            match try_beta_reduce(&ee) {
                Some(e2) => {
                    proof {
                        if k == n0 {
                            assert(normal_form(ee@));
                            assert(false);
                        }
                    }
                    ee = e2;
                    proof {
                        k = k + 1;
                    }
                },
                None => {
                    proof {
                        assert(normal_form(ee@));
                        if normal_form(self@) {
                            lemma_steps_stable(self@, k);
                        }
                    }
                    return ee;
                },
            }
        }
    }
}

} // verus!
