use vstd::prelude::*;
use crate::term::Term;
use crate::subst::{beta_ok, lemma_beta_closed, subst_stop, substituted_top};

verus! {

/// One step of call-by-value reduction, or `None` where no rule applies.
/// A redex `(λ. b) v` with `v` a value reduces; otherwise the function part
/// steps if it can, and else the argument.
pub open spec fn step(t: Term) -> Option<Term>
    decreases t,
{
    match t {
        Term::App(t1, t2) => {
            if *t1 is Abs && t2.is_value() {
                Some(substituted_top(*t2, *(*t1)->Abs_1))
            } else {
                match step(*t1) {
                    Some(u1) => Some(Term::App(Box::new(u1), t2)),
                    None => match step(*t2) {
                        Some(u2) => Some(Term::App(t1, Box::new(u2))),
                        None => None,
                    },
                }
            }
        },
        _ => None,
    }
}

/// At most `n` steps of reduction from `t`, stopping early at a normal form
/// or at a term without room for another step.
pub open spec fn run(t: Term, n: nat) -> Term
    decreases n,
{
    if n == 0 || !t.fits() {
        t
    } else {
        match step(t) {
            Some(u) => run(u, (n - 1) as nat),
            None => t,
        }
    }
}

/// Big-step evaluation with a nesting budget `fuel`: `None` when the budget
/// runs out or a beta step would leave the machine's indices. A stuck
/// application evaluates to itself, unreduced.
pub open spec fn big(t: Term, fuel: nat) -> Option<Term>
    decreases fuel,
{
    match t {
        Term::App(t1, t2) => if fuel == 0 {
            None
        } else {
            match big(*t1, (fuel - 1) as nat) {
                None => None,
                Some(v1) => match v1 {
                    Term::Abs(_, b) => match big(*t2, (fuel - 1) as nat) {
                        None => None,
                        Some(v2) => if !v2.is_value() {
                            Some(t)
                        } else if !beta_ok(v2, *b) {
                            None
                        } else {
                            big(substituted_top(v2, *b), (fuel - 1) as nat)
                        },
                    },
                    _ => Some(t),
                },
            }
        },
        _ => Some(t),
    }
}

proof fn lemma_fits_parts(t: Term)
    requires
        t.fits(),
    ensures
        t matches Term::App(t1, t2) ==> t1.fits() && t2.fits() && (*t1 matches Term::Abs(_, b)
            ==> beta_ok(*t2, *b)),
{
    if let Term::App(t1, t2) = t {
        assert(t1.span() <= t.span() && t2.span() <= t.span());
        if let Term::Abs(_, b) = *t1 {
            assert(b.span() + 1 == t1.span());
        }
    }
}

/// One reduction step.
pub fn eval1(t: &Term) -> (r: Option<Term>)
    requires
        t.fits(),
    ensures
        r == step(*t),
    decreases t,
{
    proof {
        lemma_fits_parts(*t);
    }
    match t {
        Term::App(t1, t2) => {
            if let Term::Abs(_, b) = &**t1 {
                if t2.is_val() {
                    return Some(subst_stop(&**t2, &**b));
                }
            }
            match eval1(&**t1) {
                Some(u1) => Some(Term::App(Box::new(u1), Box::new((**t2).copy()))),
                None => match eval1(&**t2) {
                    Some(u2) => Some(Term::App(Box::new((**t1).copy()), Box::new(u2))),
                    None => None,
                },
            }
        },
        _ => None,
    }
}

/// Whether no reduction rule applies to `t`.
pub fn is_normal(t: &Term) -> (r: bool)
    ensures
        r == (step(*t) is None),
    decreases t,
{
    match t {
        Term::App(t1, t2) => {
            if t1.is_val() && t2.is_val() {
                false
            } else {
                is_normal(&**t1) && is_normal(&**t2)
            }
        },
        _ => true,
    }
}

/// Reduces `t` step by step, at most `fuel` times; the result is a normal
/// form unless the budget ran out or the term outgrew the machine's indices.
pub fn small_step(t: Term, fuel: u64) -> (r: Term)
    ensures
        r == run(t, fuel as nat),
        forall|n: nat| t.closed_at(n) ==> r.closed_at(n),
{
    proof {
        assert forall|n: nat| t.closed_at(n) implies run(t, fuel as nat).closed_at(n) by {
            lemma_run_closed(t, fuel as nat, n);
        }
    }
    let mut cur = t;
    let mut i: u64 = 0;
    while i < fuel
        invariant
            i <= fuel,
            run(cur, (fuel - i) as nat) == run(t, fuel as nat),
            forall|n: nat| t.closed_at(n) ==> run(t, fuel as nat).closed_at(n),
        decreases fuel - i,
    {
        if !cur.has_room() {
            assert(run(cur, (fuel - i) as nat) == cur);
            return cur;
        }
        match eval1(&cur) {
            Some(u) => {
                cur = u;
            },
            None => {
                assert(run(cur, (fuel - i) as nat) == cur);
                return cur;
            },
        }
        i = i + 1;
    }
    cur
}

/// Evaluates `t` by recursion on its structure, with nesting budget `fuel`.
pub fn big_step(t: &Term, fuel: u64) -> (r: Option<Term>)
    ensures
        r == big(*t, fuel as nat),
        forall|n: nat| t.closed_at(n) && r is Some ==> r->Some_0.closed_at(n),
    decreases fuel,
{
    proof {
        assert forall|n: nat| t.closed_at(n) && big(*t, fuel as nat) is Some implies big(
            *t,
            fuel as nat,
        )->Some_0.closed_at(n) by {
            lemma_big_closed(*t, fuel as nat, n);
        }
    }
    match t {
        Term::App(t1, t2) => {
            if fuel == 0 {
                return None;
            }
            let v1 = match big_step(&**t1, fuel - 1) {
                Some(v) => v,
                None => return None,
            };
            match v1 {
                Term::Abs(_, b) => {
                    let v2 = match big_step(&**t2, fuel - 1) {
                        Some(v) => v,
                        None => return None,
                    };
                    if !v2.is_val() {
                        Some(t.copy())
                    } else {
                        let sv = v2.span_capped();
                        let sb = b.span_capped();
                        if sv < usize::MAX - sb {
                            big_step(&subst_stop(&v2, &*b), fuel - 1)
                        } else {
                            None
                        }
                    }
                },
                _ => Some(t.copy()),
            }
        },
        _ => Some(t.copy()),
    }
}

proof fn lemma_big_mono(t: Term, f: nat)
    requires
        big(t, f) is Some,
    ensures
        big(t, f + 1) == big(t, f),
    decreases f,
{
    if let Term::App(t1, t2) = t {
        if f > 0 {
            let g = (f - 1) as nat;
            lemma_big_mono(*t1, g);
            if let Some(Term::Abs(_, b)) = big(*t1, g) {
                lemma_big_mono(*t2, g);
                let v2 = big(*t2, g)->Some_0;
                if v2.is_value() && beta_ok(v2, *b) {
                    lemma_big_mono(substituted_top(v2, *b), g);
                }
            }
        }
    }
}

proof fn lemma_big_mono_le(t: Term, f: nat, g: nat)
    requires
        f <= g,
        big(t, f) is Some,
    ensures
        big(t, g) == big(t, f),
    decreases g - f,
{
    if f < g {
        lemma_big_mono(t, f);
        lemma_big_mono_le(t, f + 1, g);
    }
}

proof fn lemma_big_normal(t: Term, f: nat)
    requires
        step(t) is None,
        big(t, f) is Some,
    ensures
        big(t, f) == Some(t),
    decreases t,
{
    if let Term::App(t1, t2) = t {
        let g = (f - 1) as nat;
        lemma_big_normal(*t1, g);
        if *t1 is Abs {
            lemma_big_normal(*t2, g);
        }
    }
}

/// A term to which no rule applies is left as it is: small-step reduction
/// stops on it at once, and big-step evaluation returns it unchanged.
pub proof fn lemma_normal_form_fixed(t: Term, n: nat, f: nat)
    requires
        step(t) is None,
    ensures
        run(t, n) == t,
        big(t, f) is Some ==> big(t, f) == Some(t),
{
    if big(t, f) is Some {
        lemma_big_normal(t, f);
    }
}

proof fn lemma_big_expand(t: Term, u: Term, f: nat, v: Term)
    requires
        t.fits(),
        step(t) == Some(u),
        big(u, f) == Some(v),
        v.is_value(),
    ensures
        big(t, f + 1) == Some(v),
    decreases t,
{
    lemma_fits_parts(t);
    if let Term::App(t1, t2) = t {
        if *t1 is Abs && t2.is_value() {
            assert(big(*t1, f) == Some(*t1));
            assert(big(*t2, f) == Some(*t2));
            assert(big(t, f + 1) == Some(v));
        } else if step(*t1) is Some {
            let u1 = step(*t1)->Some_0;
            let g = (f - 1) as nat;
            let w1 = big(u1, g)->Some_0;
            let b = w1->Abs_1;
            let v2 = big(*t2, g)->Some_0;
            lemma_big_expand(*t1, u1, g, w1);
            lemma_big_mono(*t2, g);
            lemma_big_mono(substituted_top(v2, *b), g);
            assert(big(*t1, g + 1) == Some(w1));
            assert(big(t, f + 1) == Some(v));
        } else {
            let u2 = step(*t2)->Some_0;
            let g = (f - 1) as nat;
            lemma_big_normal(*t1, g);
            let b = t1->Abs_1;
            let v2 = big(u2, g)->Some_0;
            lemma_big_expand(*t2, u2, g, v2);
            lemma_big_mono(substituted_top(v2, *b), g);
            assert(big(*t1, g + 1) == Some(*t1));
            assert(big(t, f + 1) == Some(v));
        }
    }
}

/// A closed term to which no rule applies is a value.
pub proof fn lemma_progress(t: Term)
    requires
        t.closed_at(0),
        step(t) is None,
    ensures
        t.is_value(),
    decreases t,
{
    if let Term::App(t1, t2) = t {
        lemma_progress(*t1);
        lemma_progress(*t2);
    }
}

proof fn lemma_preservation(t: Term, n: nat)
    requires
        t.closed_at(n),
        t.fits(),
        step(t) is Some,
    ensures
        step(t)->Some_0.closed_at(n),
    decreases t,
{
    lemma_fits_parts(t);
    if let Term::App(t1, t2) = t {
        if *t1 is Abs && t2.is_value() {
            assert(t1.closed_at(n) && t2.closed_at(n));
            if let Term::Abs(_, b) = *t1 {
                assert(b.closed_at(n + 1));
                lemma_beta_closed(*t2, *b, n);
            }
        } else if step(*t1) is Some {
            lemma_preservation(*t1, n);
        } else {
            lemma_preservation(*t2, n);
        }
    }
}

/// The two evaluators agree: when small-step reduction of a closed term
/// reaches a normal form, that normal form is a value, and big-step
/// evaluation with enough budget returns the very same term.
pub proof fn lemma_evaluators_agree(t: Term, n: nat) -> (f: nat)
    requires
        t.closed_at(0),
        step(run(t, n)) is None,
    ensures
        run(t, n).is_value(),
        big(t, f) == Some(run(t, n)),
    decreases n,
{
    if n == 0 || !t.fits() || step(t) is None {
        lemma_progress(t);
        0
    } else {
        let u = step(t)->Some_0;
        lemma_preservation(t, 0);
        let g = lemma_evaluators_agree(u, (n - 1) as nat);
        lemma_big_expand(t, u, g, run(u, (n - 1) as nat));
        g + 1
    }
}

proof fn lemma_run_closed(t: Term, k: nat, n: nat)
    requires
        t.closed_at(n),
    ensures
        run(t, k).closed_at(n),
    decreases k,
{
    if k > 0 && t.fits() && step(t) is Some {
        lemma_preservation(t, n);
        lemma_run_closed(step(t)->Some_0, (k - 1) as nat, n);
    }
}

proof fn lemma_big_closed(t: Term, f: nat, n: nat)
    requires
        t.closed_at(n),
        big(t, f) is Some,
    ensures
        big(t, f)->Some_0.closed_at(n),
    decreases f,
{
    if let Term::App(t1, t2) = t {
        let g = (f - 1) as nat;
        lemma_big_closed(*t1, g, n);
        if let Some(Term::Abs(_, b)) = big(*t1, g) {
            assert(b.closed_at(n + 1));
            lemma_big_closed(*t2, g, n);
            let v2 = big(*t2, g)->Some_0;
            if v2.is_value() && beta_ok(v2, *b) {
                lemma_beta_closed(v2, *b, n);
                lemma_big_closed(substituted_top(v2, *b), g, n);
            }
        }
    }
}

} // verus!
