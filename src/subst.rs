use vstd::prelude::*;
use crate::term::Term;

verus! {

/// Adds `d` to every variable of `t` at or above the cutoff `c`; the cutoff
/// grows by one under each binder.
pub open spec fn shifted(d: int, c: nat, t: Term) -> Term
    decreases t,
{
    match t {
        Term::Var(k) => if k < c {
            Term::Var(k)
        } else {
            Term::Var((k + d) as usize)
        },
        Term::Abs(x, b) => Term::Abs(x, Box::new(shifted(d, c + 1, *b))),
        Term::App(a, b) => Term::App(Box::new(shifted(d, c, *a)), Box::new(shifted(d, c, *b))),
    }
}

/// Every index that `shifted(d, c, t)` moves stays within `0..=usize::MAX`.
pub open spec fn shift_ok(d: int, c: nat, t: Term) -> bool
    decreases t,
{
    match t {
        Term::Var(k) => k < c || (0 <= k + d && k + d <= usize::MAX),
        Term::Abs(_, b) => shift_ok(d, c + 1, *b),
        Term::App(a, b) => shift_ok(d, c, *a) && shift_ok(d, c, *b),
    }
}

/// Replaces `Var(j)` by `s` in `t`; under each binder `j` grows by one and
/// `s` is shifted up by one.
pub open spec fn substituted(j: nat, s: Term, t: Term) -> Term
    decreases t,
{
    match t {
        Term::Var(k) => if k == j {
            s
        } else {
            Term::Var(k)
        },
        Term::Abs(x, b) => Term::Abs(x, Box::new(substituted(j + 1, shifted(1, 0, s), *b))),
        Term::App(a, b) => Term::App(
            Box::new(substituted(j, s, *a)),
            Box::new(substituted(j, s, *b)),
        ),
    }
}

/// Beta reduction of `(λ. t) s`: the body `t` with `s` put for its binder.
pub open spec fn substituted_top(s: Term, t: Term) -> Term {
    shifted(-1, 0, substituted(0, shifted(1, 0, s), t))
}

/// A beta step that puts `s` into `t` stays within the machine's indices.
pub open spec fn beta_ok(s: Term, t: Term) -> bool {
    s.span() + t.span() < usize::MAX
}

proof fn lemma_shift_beyond(d: int, c: nat, t: Term)
    requires
        c > usize::MAX,
    ensures
        shifted(d, c, t) == t,
    decreases t,
{
    match t {
        Term::Var(k) => {},
        Term::Abs(_, b) => lemma_shift_beyond(d, c + 1, *b),
        Term::App(a, b) => {
            lemma_shift_beyond(d, c, *a);
            lemma_shift_beyond(d, c, *b);
        },
    }
}

proof fn lemma_subst_beyond(j: nat, s: Term, t: Term)
    requires
        j > usize::MAX,
    ensures
        substituted(j, s, t) == t,
    decreases t,
{
    match t {
        Term::Var(k) => {},
        Term::Abs(_, b) => lemma_subst_beyond(j + 1, shifted(1, 0, s), *b),
        Term::App(a, b) => {
            lemma_subst_beyond(j, s, *a);
            lemma_subst_beyond(j, s, *b);
        },
    }
}

pub proof fn lemma_shift_up_ok(c: nat, s: Term)
    requires
        s.span() < usize::MAX,
    ensures
        shift_ok(1, c, s),
        shifted(1, c, s).span() <= s.span() + 1,
    decreases s,
{
    match s {
        Term::Var(k) => {},
        Term::Abs(_, b) => lemma_shift_up_ok(c + 1, *b),
        Term::App(a, b) => {
            lemma_shift_up_ok(c, *a);
            lemma_shift_up_ok(c, *b);
        },
    }
}

proof fn lemma_shift_down_above_zero(c: nat, t: Term)
    requires
        c >= 1,
    ensures
        shift_ok(-1, c, t),
    decreases t,
{
    match t {
        Term::Var(k) => {},
        Term::Abs(_, b) => lemma_shift_down_above_zero(c + 1, *b),
        Term::App(a, b) => {
            lemma_shift_down_above_zero(c, *a);
            lemma_shift_down_above_zero(c, *b);
        },
    }
}

proof fn lemma_shift_up_then_down(c: nat, s: Term)
    requires
        shift_ok(1, c, s),
    ensures
        shift_ok(-1, c, shifted(1, c, s)),
    decreases s,
{
    match s {
        Term::Var(k) => {},
        Term::Abs(_, b) => lemma_shift_up_then_down(c + 1, *b),
        Term::App(a, b) => {
            lemma_shift_up_then_down(c, *a);
            lemma_shift_up_then_down(c, *b);
        },
    }
}

proof fn lemma_subst_then_down(j: nat, s: Term, t: Term)
    requires
        shift_ok(-1, j, s),
    ensures
        shift_ok(-1, j, substituted(j, s, t)),
    decreases t,
{
    match t {
        Term::Var(k) => {},
        Term::Abs(_, b) => lemma_shift_down_above_zero(j + 1, substituted(j + 1, shifted(1, 0, s), *b)),
        Term::App(a, b) => {
            lemma_subst_then_down(j, s, *a);
            lemma_subst_then_down(j, s, *b);
        },
    }
}

/// Adds `d` to every free index of `t` at or above the cutoff `c`.
pub fn shift(d: isize, c: usize, t: &Term) -> (r: Term)
    requires
        shift_ok(d as int, c as nat, *t),
    ensures
        r == shifted(d as int, c as nat, *t),
    decreases t,
{
    match t {
        Term::Var(k) => {
            if *k < c {
                Term::Var(*k)
            } else if d >= 0 {
                Term::Var(*k + d as usize)
            } else {
                let m = (-(d + 1)) as usize + 1;
                Term::Var(*k - m)
            }
        },
        Term::Abs(x, b) => {
            if c == usize::MAX {
                proof {
                    lemma_shift_beyond(d as int, (c + 1) as nat, **b);
                }
                Term::Abs(x.clone(), Box::new((**b).copy()))
            } else {
                Term::Abs(x.clone(), Box::new(shift(d, c + 1, &**b)))
            }
        },
        Term::App(a, b) => Term::App(Box::new(shift(d, c, &**a)), Box::new(shift(d, c, &**b))),
    }
}

/// Replaces `Var(j)` by `s` in `t`, shifting `s` up under each binder.
pub fn subst(j: usize, s: &Term, t: &Term) -> (r: Term)
    requires
        s.span() + t.span() <= usize::MAX,
    ensures
        r == substituted(j as nat, *s, *t),
    decreases t,
{
    match t {
        Term::Var(k) => {
            if *k == j {
                s.copy()
            } else {
                Term::Var(*k)
            }
        },
        Term::Abs(x, b) => {
            if j == usize::MAX {
                proof {
                    lemma_subst_beyond((j + 1) as nat, shifted(1, 0, *s), **b);
                }
                Term::Abs(x.clone(), Box::new((**b).copy()))
            } else {
                proof {
                    lemma_shift_up_ok(0, *s);
                }
                let s1 = shift(1, 0, s);
                Term::Abs(x.clone(), Box::new(subst(j + 1, &s1, &**b)))
            }
        },
        Term::App(a, b) => Term::App(Box::new(subst(j, s, &**a)), Box::new(subst(j, s, &**b))),
    }
}

/// Beta reduction: puts the argument `s` into the body `t` of an abstraction.
pub fn subst_stop(s: &Term, t: &Term) -> (r: Term)
    requires
        beta_ok(*s, *t),
    ensures
        r == substituted_top(*s, *t),
{
    proof {
        lemma_shift_up_ok(0, *s);
        lemma_shift_up_then_down(0, *s);
    }
    let s1 = shift(1, 0, s);
    let r1 = subst(0, &s1, t);
    proof {
        lemma_subst_then_down(0, s1, *t);
    }
    shift(-1, 0, &r1)
}

/// Whether `t` has a variable that refers to the outer index `i`.
pub open spec fn mentions(t: Term, i: nat) -> bool
    decreases t,
{
    match t {
        Term::Var(k) => k == i,
        Term::Abs(_, b) => mentions(*b, i + 1),
        Term::App(a, b) => mentions(*a, i) || mentions(*b, i),
    }
}

proof fn lemma_shift_up_closed(c: nat, n: nat, t: Term)
    requires
        shift_ok(1, c, t),
        t.closed_at(n),
    ensures
        shifted(1, c, t).closed_at(n + 1),
    decreases t,
{
    match t {
        Term::Var(k) => {},
        Term::Abs(_, b) => lemma_shift_up_closed(c + 1, n + 1, *b),
        Term::App(a, b) => {
            lemma_shift_up_closed(c, n, *a);
            lemma_shift_up_closed(c, n, *b);
        },
    }
}

proof fn lemma_shift_up_skips(c: nat, i: nat, s: Term)
    requires
        shift_ok(1, c, s),
        i == c || (i > c && !mentions(s, (i - 1) as nat)),
    ensures
        !mentions(shifted(1, c, s), i),
    decreases s,
{
    match s {
        Term::Var(k) => {},
        Term::Abs(_, b) => lemma_shift_up_skips(c + 1, i + 1, *b),
        Term::App(a, b) => {
            lemma_shift_up_skips(c, i, *a);
            lemma_shift_up_skips(c, i, *b);
        },
    }
}

proof fn lemma_subst_closed(j: nat, m: nat, s: Term, t: Term)
    requires
        s.span() + t.span() <= usize::MAX,
        s.closed_at(m),
        t.closed_at(m),
        !mentions(s, j),
    ensures
        substituted(j, s, t).closed_at(m),
        !mentions(substituted(j, s, t), j),
    decreases t,
{
    match t {
        Term::Var(k) => {},
        Term::Abs(_, b) => {
            lemma_shift_up_ok(0, s);
            lemma_shift_up_closed(0, m, s);
            lemma_shift_up_skips(0, j + 1, s);
            lemma_subst_closed(j + 1, m + 1, shifted(1, 0, s), *b);
        },
        Term::App(a, b) => {
            lemma_subst_closed(j, m, s, *a);
            lemma_subst_closed(j, m, s, *b);
        },
    }
}

proof fn lemma_shift_down_closed(c: nat, m: nat, r: Term)
    requires
        c <= m,
        r.closed_at(m + 1),
        !mentions(r, c),
    ensures
        shifted(-1, c, r).closed_at(m),
    decreases r,
{
    match r {
        Term::Var(k) => {},
        Term::Abs(_, b) => lemma_shift_down_closed(c + 1, m + 1, *b),
        Term::App(a, b) => {
            lemma_shift_down_closed(c, m, *a);
            lemma_shift_down_closed(c, m, *b);
        },
    }
}

/// Beta reduction leaves no dangling index: putting a term closed under `n`
/// outer names into the body of an abstraction closed under the same names
/// gives a term closed under them.
pub proof fn lemma_beta_closed(v: Term, b: Term, n: nat)
    requires
        v.closed_at(n),
        b.closed_at(n + 1),
        beta_ok(v, b),
    ensures
        substituted_top(v, b).closed_at(n),
{
    lemma_shift_up_ok(0, v);
    lemma_shift_up_closed(0, n, v);
    lemma_shift_up_skips(0, 0, v);
    let s1 = shifted(1, 0, v);
    lemma_subst_closed(0, n + 1, s1, b);
    lemma_shift_down_closed(0, n, substituted(0, s1, b));
}

} // verus!
