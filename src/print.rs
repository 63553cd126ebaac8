use vstd::prelude::*;
use crate::term::Term;

verus! {

/// The character sequences of a list of names.
pub open spec fn names(v: Seq<String>) -> Seq<Seq<char>> {
    v.map_values(|s: String| s@)
}

/// The length of the longest name in `ctx`.
pub open spec fn longest(ctx: Seq<Seq<char>>) -> nat
    decreases ctx.len(),
{
    if ctx.len() == 0 {
        0
    } else {
        let l = longest(ctx.drop_last());
        if ctx.last().len() > l {
            ctx.last().len()
        } else {
            l
        }
    }
}

/// `s` followed by as many primes as needed, up to `tries`, to leave `ctx`.
pub open spec fn fresh_try(ctx: Seq<Seq<char>>, s: Seq<char>, tries: nat) -> Seq<char>
    decreases tries,
{
    if tries == 0 || !ctx.contains(s) {
        s
    } else {
        fresh_try(ctx, s.push('\''), (tries - 1) as nat)
    }
}

/// The first of `s`, `s'`, `s''`, ... that is not in `ctx`.
pub open spec fn fresh(ctx: Seq<Seq<char>>, s: Seq<char>) -> Seq<char> {
    fresh_try(
        ctx,
        s,
        if s.len() > longest(ctx) {
            0
        } else {
            (longest(ctx) + 1 - s.len()) as nat
        },
    )
}

/// The surface syntax of `t`, where `ctx[k]` names the free index `k`.
pub open spec fn render(t: Term, ctx: Seq<Seq<char>>) -> Seq<char>
    decreases t,
{
    match t {
        Term::Var(k) => ctx[k as int],
        Term::Abs(x, b) => {
            let n = fresh(ctx, x@);
            seq!['(', 'λ'] + n + seq!['.'] + render(*b, seq![n] + ctx) + seq![')']
        },
        Term::App(a, b) => seq!['('] + render(*a, ctx) + seq![' '] + render(*b, ctx) + seq![')'],
    }
}

/// The decimal digits of `n`.
pub open spec fn decimal(n: nat) -> Seq<char>
    decreases n,
{
    let d = seq!['0', '1', '2', '3', '4', '5', '6', '7', '8', '9'][(n % 10) as int];
    if n < 10 {
        seq![d]
    } else {
        decimal(n / 10).push(d)
    }
}

/// The term with bare indices in place of names.
pub open spec fn de_bruijn(t: Term) -> Seq<char>
    decreases t,
{
    match t {
        Term::Var(k) => decimal(k as nat),
        Term::Abs(_, b) => seq!['(', 'λ', '.'] + de_bruijn(*b) + seq![')'],
        Term::App(a, b) => seq!['('] + de_bruijn(*a) + seq![' '] + de_bruijn(*b) + seq![')'],
    }
}

proof fn lemma_longest(ctx: Seq<Seq<char>>, x: Seq<char>)
    requires
        ctx.contains(x),
    ensures
        x.len() <= longest(ctx),
    decreases ctx.len(),
{
    if ctx.last() != x {
        let i = choose|i: int| 0 <= i < ctx.len() && ctx[i] == x;
        assert(ctx.drop_last()[i] == x);
        lemma_longest(ctx.drop_last(), x);
    }
}

proof fn lemma_fresh_try_free(ctx: Seq<Seq<char>>, s: Seq<char>, tries: nat)
    requires
        tries + s.len() > longest(ctx),
    ensures
        !ctx.contains(fresh_try(ctx, s, tries)),
    decreases tries,
{
    if tries == 0 {
        if ctx.contains(s) {
            lemma_longest(ctx, s);
        }
    } else if ctx.contains(s) {
        lemma_fresh_try_free(ctx, s.push('\''), (tries - 1) as nat);
    }
}

/// The name printing picks for a binder is used by no active binding, so
/// a display context without repeated names stays without repeats as
/// printing enters the binder.
pub proof fn lemma_fresh_name_unique(ctx: Seq<Seq<char>>, s: Seq<char>)
    ensures
        !ctx.contains(fresh(ctx, s)),
        ctx.no_duplicates() ==> (seq![fresh(ctx, s)] + ctx).no_duplicates(),
{
    let n = fresh(ctx, s);
    lemma_fresh_try_free(
        ctx,
        s,
        if s.len() > longest(ctx) {
            0
        } else {
            (longest(ctx) + 1 - s.len()) as nat
        },
    );
    let e = seq![n] + ctx;
    if ctx.no_duplicates() {
        assert forall|i: int, j: int| 0 <= i < e.len() && 0 <= j < e.len() && i != j implies e[i]
            != e[j] by {
            if i == 0 {
                assert(e[j] == ctx[j - 1]);
            } else if j == 0 {
                assert(e[i] == ctx[i - 1]);
            }
        }
    }
}

/// Whether `ctx` holds the name `s`.
pub fn contains(ctx: &Vec<String>, s: &String) -> (r: bool)
    ensures
        r == names(ctx@).contains(s@),
{
    let mut i: usize = 0;
    while i < ctx.len()
        invariant
            i <= ctx@.len(),
            forall|j: int| 0 <= j < i ==> ctx@[j]@ != s@,
        decreases ctx.len() - i,
    {
        if ctx[i] == *s {
            assert(names(ctx@)[i as int] == s@);
            return true;
        }
        i = i + 1;
    }
    proof {
        if names(ctx@).contains(s@) {
            let j = choose|j: int| 0 <= j < names(ctx@).len() && names(ctx@)[j] == s@;
            assert(ctx@[j]@ == s@);
        }
    }
    false
}

/// `ctx` with `name` put in front.
pub fn cons(name: &String, ctx: &Vec<String>) -> (r: Vec<String>)
    ensures
        names(r@) == seq![name@] + names(ctx@),
{
    let mut r: Vec<String> = Vec::new();
    r.push(name.clone());
    let mut i: usize = 0;
    while i < ctx.len()
        invariant
            i <= ctx@.len(),
            r@.len() == i + 1,
            r@[0]@ == name@,
            forall|j: int| 0 <= j < i ==> r@[j + 1]@ == ctx@[j]@,
        decreases ctx.len() - i,
    {
        r.push(ctx[i].clone());
        i = i + 1;
    }
    assert(names(r@) =~= seq![name@] + names(ctx@));
    r
}

/// Picks the first of `s`, `s'`, `s''`, ... not in `ctx`, and returns it
/// together with `ctx` extended by it in front.
pub fn pick_fresh_name(ctx: &Vec<String>, s: String) -> (r: (Vec<String>, String))
    ensures
        r.1@ == fresh(names(ctx@), s@),
        names(r.0@) == seq![r.1@] + names(ctx@),
{
    let ghost v = names(ctx@);
    let ghost s0 = s@;
    let mut cand = s;
    while contains(ctx, &cand)
        invariant
            v == names(ctx@),
            fresh(v, s0) == fresh(v, cand@),
        decreases longest(v) + 1 - cand@.len(),
    {
        proof {
            lemma_longest(v, cand@);
        }
        let ghost c0 = cand@;
        cand.append("'");
        proof {
            reveal_strlit("'");
        }
        assert(cand@ =~= c0.push('\''));
        assert(fresh(v, c0) == fresh_try(v, cand@, (longest(v) - c0.len()) as nat));
    }
    (cons(&cand, ctx), cand)
}

fn digit_str(d: usize) -> (r: &'static str)
    requires
        d < 10,
    ensures
        r@ == seq![seq!['0', '1', '2', '3', '4', '5', '6', '7', '8', '9'][d as int]],
{
    proof {
        reveal_strlit("0");
        reveal_strlit("1");
        reveal_strlit("2");
        reveal_strlit("3");
        reveal_strlit("4");
        reveal_strlit("5");
        reveal_strlit("6");
        reveal_strlit("7");
        reveal_strlit("8");
        reveal_strlit("9");
    }
    match d {
        0 => "0",
        1 => "1",
        2 => "2",
        3 => "3",
        4 => "4",
        5 => "5",
        6 => "6",
        7 => "7",
        8 => "8",
        _ => "9",
    }
}

fn write_decimal(n: usize, out: &mut String)
    ensures
        final(out)@ == old(out)@ + decimal(n as nat),
    decreases n,
{
    if n >= 10 {
        write_decimal(n / 10, out);
    }
    out.append(digit_str(n % 10));
}

impl Term {
    /// The term with bare indices in place of names.
    pub fn de_bruijn_string(&self) -> (r: String)
        ensures
            r@ == de_bruijn(*self),
        decreases self,
    {
        proof {
            reveal_strlit("(λ.");
            reveal_strlit("(");
            reveal_strlit(" ");
            reveal_strlit(")");
        }
        match self {
            Term::Var(k) => {
                let mut r = String::new();
                write_decimal(*k, &mut r);
                r
            },
            Term::Abs(_, b) => {
                let body = (**b).de_bruijn_string();
                let mut r = String::from_str("(λ.");
                r.append(body.as_str());
                r.append(")");
                r
            },
            Term::App(a, b) => {
                let fa = (**a).de_bruijn_string();
                let fb = (**b).de_bruijn_string();
                let mut r = String::from_str("(");
                r.append(fa.as_str());
                r.append(" ");
                r.append(fb.as_str());
                r.append(")");
                r
            },
        }
    }

    /// The surface syntax of the term, where `ctx[k]` names the free index
    /// `k`; each binder gets the first primed form of its name that is not
    /// already in use.
    pub fn context_string(&self, ctx: &Vec<String>) -> (r: String)
        requires
            self.closed_at(ctx@.len()),
        ensures
            r@ == render(*self, names(ctx@)),
        decreases self,
    {
        proof {
            reveal_strlit("(λ");
            reveal_strlit(".");
            reveal_strlit("(");
            reveal_strlit(" ");
            reveal_strlit(")");
        }
        match self {
            Term::Var(k) => ctx[*k].clone(),
            Term::Abs(x, b) => {
                let (inner, n) = pick_fresh_name(ctx, x.clone());
                assert(names(inner@).len() == inner@.len());
                assert(names(ctx@).len() == ctx@.len());
                let body = (**b).context_string(&inner);
                let mut r = String::from_str("(λ");
                r.append(n.as_str());
                r.append(".");
                r.append(body.as_str());
                r.append(")");
                r
            },
            Term::App(a, b) => {
                let fa = (**a).context_string(ctx);
                let fb = (**b).context_string(ctx);
                let mut r = String::from_str("(");
                r.append(fa.as_str());
                r.append(" ");
                r.append(fb.as_str());
                r.append(")");
                r
            },
        }
    }
}

} // verus!
