//! Printing and parsing fit together: the tokens of a printed term parse back
//! to a term of the same shape that prints the same.
use vstd::prelude::*;
use crate::term::Term;
use crate::print::{fresh, fresh_try, lemma_fresh_name_unique, longest, names, render};
use crate::parse::{expr_spec, find_from, paren_spec, program_spec, single_spec};
use crate::eval::{big, lemma_normal_form_fixed, lemma_progress, run, step};
use crate::scan::{
    at_boundary, is_space, is_symbol, is_word, lemma_tokens_space, lemma_tokens_symbol,
    lemma_tokens_word, tokens,
};

verus! {

/// A name that is not one of the one-character symbols `(`, `)`, `.`, `λ`.
pub open spec fn plain(x: Seq<char>) -> bool {
    x != seq!['('] && x != seq![')'] && x != seq!['.'] && x != seq!['λ']
}

/// Every binder name of `t` is plain.
pub open spec fn plain_names(t: Term) -> bool
    decreases t,
{
    match t {
        Term::Var(_) => true,
        Term::Abs(x, b) => plain(x@) && plain_names(*b),
        Term::App(a, b) => plain_names(*a) && plain_names(*b),
    }
}

/// The tokens of the printed form of `t` under the display context `ctx`.
pub open spec fn token_list(t: Term, ctx: Seq<Seq<char>>) -> Seq<Seq<char>>
    decreases t,
{
    match t {
        Term::Var(k) => seq![ctx[k as int]],
        Term::Abs(x, b) => {
            let n = fresh(ctx, x@);
            seq![seq!['('], seq!['λ'], n, seq!['.']] + token_list(*b, seq![n] + ctx) + seq![
                seq![')'],
            ]
        },
        Term::App(a, b) => seq![seq!['(']] + token_list(*a, ctx) + token_list(*b, ctx) + seq![
            seq![')'],
        ],
    }
}

/// The two terms differ at most in their binder names.
pub open spec fn same_shape(t: Term, u: Term) -> bool
    decreases t,
{
    match t {
        Term::Var(k) => u == Term::Var(k),
        Term::Abs(_, b) => match u {
            Term::Abs(_, c) => same_shape(*b, *c),
            _ => false,
        },
        Term::App(a, b) => match u {
            Term::App(c, d) => same_shape(*a, *c) && same_shape(*b, *d),
            _ => false,
        },
    }
}

proof fn lemma_fresh_try_shape(ctx: Seq<Seq<char>>, s: Seq<char>, tries: nat)
    ensures
        fresh_try(ctx, s, tries) == s || (fresh_try(ctx, s, tries).len() > 0 && fresh_try(
            ctx,
            s,
            tries,
        ).last() == '\''),
    decreases tries,
{
    if tries > 0 && ctx.contains(s) {
        lemma_fresh_try_shape(ctx, s.push('\''), (tries - 1) as nat);
    }
}

proof fn lemma_fresh_plain(ctx: Seq<Seq<char>>, s: Seq<char>)
    requires
        plain(s),
    ensures
        plain(fresh(ctx, s)),
{
    lemma_fresh_try_shape(
        ctx,
        s,
        if s.len() > longest(ctx) {
            0
        } else {
            (longest(ctx) + 1 - s.len()) as nat
        },
    );
    let n = fresh(ctx, s);
    if n != s {
        assert(n.last() == '\'');
        assert(n != seq!['('] && n != seq![')'] && n != seq!['.'] && n != seq!['λ']) by {
            if n.len() == 1 {
                assert(n[0] == '\'');
            }
        }
    }
}

proof fn lemma_fresh_of_free(ctx: Seq<Seq<char>>, s: Seq<char>)
    requires
        !ctx.contains(s),
    ensures
        fresh(ctx, s) == s,
{
}

proof fn lemma_find_distinct(ctx: Seq<String>, k: int, i: int)
    requires
        names(ctx).no_duplicates(),
        0 <= i <= k < ctx.len(),
    ensures
        find_from(ctx, ctx[k]@, i) == Some(k),
    decreases k - i,
{
    if i < k {
        assert(names(ctx)[i] != names(ctx)[k]);
        lemma_find_distinct(ctx, k, i + 1);
    }
}

proof fn lemma_first_token(t: Term, ctx: Seq<Seq<char>>)
    requires
        t.closed_at(ctx.len()),
        forall|i: int| 0 <= i < ctx.len() ==> plain(#[trigger] ctx[i]),
    ensures
        token_list(t, ctx).len() >= 1,
        token_list(t, ctx)[0] != seq![')'],
{
    let open: Seq<char> = seq!['('];
    assert(open[0] != seq![')'][0]);
    match t {
        Term::Var(k) => {
            assert(plain(ctx[k as int]));
        },
        _ => {
            assert(token_list(t, ctx)[0] == open);
        },
    }
}

proof fn lemma_window(s: Seq<Seq<char>>, pos: int, t: Seq<Seq<char>>, off: int, len: int)
    requires
        0 <= pos,
        pos + t.len() <= s.len(),
        s.subrange(pos, pos + t.len()) == t,
        0 <= off,
        0 <= len,
        off + len <= t.len(),
    ensures
        s.subrange(pos + off, pos + off + len) == t.subrange(off, off + len),
{
    let a = s.subrange(pos + off, pos + off + len);
    let b = t.subrange(off, off + len);
    assert forall|i: int| 0 <= i < len implies #[trigger] a[i] == b[i] by {
        assert(s.subrange(pos, pos + t.len())[off + i] == s[pos + off + i]);
    }
    assert(a =~= b);
}

proof fn lemma_symbols_differ()
    ensures
        seq!['('] != seq![')'],
        seq!['('] != seq!['.'],
        seq!['('] != seq!['λ'],
        seq![')'] != seq!['.'],
        seq![')'] != seq!['λ'],
        seq!['.'] != seq!['λ'],
{
    assert(seq!['('][0] != seq![')'][0]);
    assert(seq!['('][0] != seq!['.'][0]);
    assert(seq!['('][0] != seq!['λ'][0]);
    assert(seq![')'][0] != seq!['.'][0]);
    assert(seq![')'][0] != seq!['λ'][0]);
    assert(seq!['.'][0] != seq!['λ'][0]);
}

proof fn lemma_parse_printed(t: Term, ctx: Seq<String>, toks: Seq<String>, pos: int)
    requires
        t.closed_at(ctx.len()),
        plain_names(t),
        names(ctx).no_duplicates(),
        forall|i: int| 0 <= i < ctx.len() ==> plain(#[trigger] names(ctx)[i]),
        0 <= pos,
        pos + token_list(t, names(ctx)).len() <= toks.len(),
        names(toks).subrange(pos, pos + token_list(t, names(ctx)).len()) == token_list(
            t,
            names(ctx),
        ),
    ensures
        single_spec(ctx, toks, pos) is Ok,
        single_spec(ctx, toks, pos)->Ok_0.1 == pos + token_list(t, names(ctx)).len(),
        same_shape(t, single_spec(ctx, toks, pos)->Ok_0.0),
        render(single_spec(ctx, toks, pos)->Ok_0.0, names(ctx)) == render(t, names(ctx)),
    decreases t,
{
    lemma_symbols_differ();
    let d = names(ctx);
    let tl = token_list(t, d);
    let s = names(toks);
    assert forall|i: int| 0 <= i < tl.len() implies s[pos + i] == #[trigger] tl[i] by {
        assert(s.subrange(pos, pos + tl.len())[i] == s[pos + i]);
    }
    match t {
        Term::Var(k) => {
            assert(s[pos] == tl[0]);
            assert(toks[pos]@ == ctx[k as int]@);
            assert(plain(d[k as int]));
            lemma_find_distinct(ctx, k as int, 0);
        },
        Term::App(a, b) => {
            let ta = token_list(*a, d);
            let tb = token_list(*b, d);
            let la = ta.len() as int;
            let lb = tb.len() as int;
            assert(tl == seq![seq!['(']] + ta + tb + seq![seq![')']]);
            assert(s[pos] == tl[0]);
            lemma_window(s, pos, tl, 1, la);
            assert(tl.subrange(1, 1 + la) =~= ta);
            lemma_parse_printed(*a, ctx, toks, pos + 1);
            let j1 = pos + 1 + la;
            lemma_window(s, pos, tl, 1 + la, lb);
            assert(tl.subrange(1 + la, 1 + la + lb) =~= tb);
            lemma_parse_printed(*b, ctx, toks, j1);
            lemma_first_token(*b, d);
            assert(s[j1] == tl[1 + la]);
            let j2 = j1 + lb;
            assert(s[j2] == tl[tl.len() - 1]);
            let a1 = single_spec(ctx, toks, pos + 1)->Ok_0.0;
            let b1 = single_spec(ctx, toks, j1)->Ok_0.0;
            assert(expr_spec(ctx, toks, pos + 1) == Ok::<(Term, int), crate::parse::ParseError>(
                (Term::App(Box::new(a1), Box::new(b1)), j2),
            ));
            assert(paren_spec(ctx, toks, pos + 1) == Ok::<(Term, int), crate::parse::ParseError>(
                (Term::App(Box::new(a1), Box::new(b1)), j2 + 1),
            ));
        },
        Term::Abs(x, b) => {
            let n = fresh(d, x@);
            let d2 = seq![n] + d;
            let tb = token_list(*b, d2);
            let lb = tb.len() as int;
            assert(tl == seq![seq!['('], seq!['λ'], n, seq!['.']] + tb + seq![seq![')']]);
            assert(s[pos] == tl[0]);
            assert(s[pos + 1] == tl[1]);
            assert(s[pos + 2] == tl[2]);
            assert(s[pos + 3] == tl[3]);
            let ctx2 = seq![toks[pos + 2]] + ctx;
            assert(names(ctx2) =~= d2);
            lemma_fresh_name_unique(d, x@);
            lemma_fresh_plain(d, x@);
            lemma_fresh_of_free(d, n);
            assert forall|i: int| 0 <= i < ctx2.len() implies plain(#[trigger] names(ctx2)[i]) by {
                if i > 0 {
                    assert(names(ctx2)[i] == d[i - 1]);
                }
            }
            lemma_window(s, pos, tl, 4, lb);
            assert(tl.subrange(4, 4 + lb) =~= tb);
            lemma_parse_printed(*b, ctx2, toks, pos + 4);
            let p = pos + 4 + lb;
            assert(s[p] == tl[tl.len() - 1]);
            let b1 = single_spec(ctx2, toks, pos + 4)->Ok_0.0;
            let t1 = Term::Abs(toks[pos + 2], Box::new(b1));
            assert(expr_spec(ctx2, toks, pos + 4) == Ok::<(Term, int), crate::parse::ParseError>(
                (b1, p),
            ));
            assert(single_spec(ctx, toks, pos + 1) == Ok::<(Term, int), crate::parse::ParseError>(
                (t1, p),
            ));
            assert(expr_spec(ctx, toks, pos + 1) == Ok::<(Term, int), crate::parse::ParseError>(
                (t1, p),
            ));
            assert(render(t1, d) == render(t, d));
        },
    }
}

/// Every binder name of `t` is a word.
pub open spec fn word_names(t: Term) -> bool
    decreases t,
{
    match t {
        Term::Var(_) => true,
        Term::Abs(x, b) => is_word(x@) && word_names(*b),
        Term::App(a, b) => word_names(*a) && word_names(*b),
    }
}

proof fn lemma_word_plain(w: Seq<char>)
    requires
        is_word(w),
    ensures
        plain(w),
{
    assert(!is_symbol(w[0]));
}

proof fn lemma_word_names_plain(t: Term)
    requires
        word_names(t),
    ensures
        plain_names(t),
    decreases t,
{
    match t {
        Term::Var(_) => {},
        Term::Abs(x, b) => {
            lemma_word_plain(x@);
            lemma_word_names_plain(*b);
        },
        Term::App(a, b) => {
            lemma_word_names_plain(*a);
            lemma_word_names_plain(*b);
        },
    }
}

proof fn lemma_fresh_try_word(ctx: Seq<Seq<char>>, s: Seq<char>, tries: nat)
    requires
        is_word(s),
    ensures
        is_word(fresh_try(ctx, s, tries)),
    decreases tries,
{
    if tries > 0 && ctx.contains(s) {
        let s1 = s.push('\'');
        assert forall|i: int| 0 <= i < s1.len() implies !is_space(#[trigger] s1[i]) && !is_symbol(
            s1[i],
        ) by {
            if i < s.len() {
                assert(s1[i] == s[i]);
            }
        }
        lemma_fresh_try_word(ctx, s1, (tries - 1) as nat);
    }
}

proof fn lemma_tokens_render(t: Term, d: Seq<Seq<char>>, x: Seq<char>)
    requires
        t.closed_at(d.len()),
        word_names(t),
        forall|i: int| 0 <= i < d.len() ==> is_word(#[trigger] d[i]),
        at_boundary(x),
    ensures
        tokens(render(t, d) + x) == token_list(t, d) + tokens(x),
    decreases t,
{
    match t {
        Term::Var(k) => {
            lemma_tokens_word(d[k as int], x);
        },
        Term::Abs(y, b) => {
            let n = fresh(d, y@);
            let d2 = seq![n] + d;
            lemma_fresh_try_word(
                d,
                y@,
                if y@.len() > longest(d) {
                    0
                } else {
                    (longest(d) + 1 - y@.len()) as nat
                },
            );
            assert forall|i: int| 0 <= i < d2.len() implies is_word(#[trigger] d2[i]) by {
                if i > 0 {
                    assert(d2[i] == d[i - 1]);
                }
            }
            let body = render(*b, d2);
            let tail = seq![')'] + x;
            lemma_tokens_render(*b, d2, tail);
            lemma_tokens_symbol(')', x);
            let w3 = seq!['.'] + (body + tail);
            lemma_tokens_symbol('.', body + tail);
            let w2 = n + w3;
            lemma_tokens_word(n, w3);
            let w1 = seq!['λ'] + w2;
            lemma_tokens_symbol('λ', w2);
            let w0 = seq!['('] + w1;
            lemma_tokens_symbol('(', w1);
            assert(render(t, d) + x =~= w0);
            assert(tokens(w0) =~= token_list(t, d) + tokens(x));
        },
        Term::App(a, b) => {
            let tail = seq![')'] + x;
            lemma_tokens_render(*b, d, tail);
            lemma_tokens_symbol(')', x);
            let w2 = seq![' '] + (render(*b, d) + tail);
            lemma_tokens_space(' ', render(*b, d) + tail);
            lemma_tokens_render(*a, d, w2);
            let w0 = seq!['('] + (render(*a, d) + w2);
            lemma_tokens_symbol('(', render(*a, d) + w2);
            assert(render(t, d) + x =~= w0);
            assert(tokens(w0) =~= token_list(t, d) + tokens(x));
        },
    }
}

proof fn lemma_round_trip_tokens(t: Term, toks: Seq<String>)
    requires
        t.closed_at(0),
        plain_names(t),
        names(toks) == token_list(t, seq![]),
    ensures
        program_spec(toks) is Ok,
        same_shape(t, program_spec(toks)->Ok_0),
        render(program_spec(toks)->Ok_0, seq![]) == render(t, seq![]),
        step(t) is None ==> forall|n: nat| #[trigger]
            run(program_spec(toks)->Ok_0, n) == program_spec(toks)->Ok_0,
        step(t) is None ==> forall|f: nat| #[trigger]
            big(program_spec(toks)->Ok_0, f) == Some(program_spec(toks)->Ok_0),
{
    let ctx: Seq<String> = seq![];
    assert(names(ctx) =~= seq![]);
    assert(names(toks).subrange(0, names(toks).len() as int) =~= names(toks));
    lemma_parse_printed(t, ctx, toks, 0);
    let u = single_spec(ctx, toks, 0)->Ok_0.0;
    assert(expr_spec(ctx, toks, 0) == Ok::<(Term, int), crate::parse::ParseError>(
        (u, toks.len() as int),
    ));
    assert(program_spec(toks) == Ok::<Term, crate::parse::ParseError>(u));
    if step(t) is None {
        lemma_progress(t);
        assert(u is Abs);
        assert forall|n: nat| #[trigger] run(u, n) == u by {
            lemma_normal_form_fixed(u, n, 0);
        }
    }
}

/// Round trip: scanning and parsing the printed form of a closed term whose
/// binder names are words gives a term of the same shape that prints the
/// same. Where the printed term is a normal form, the parsed term is one too,
/// so evaluating it again by either evaluator returns it unchanged, and the
/// output is printed again exactly.
pub proof fn lemma_round_trip(t: Term, toks: Seq<String>)
    requires
        t.closed_at(0),
        word_names(t),
        names(toks) == tokens(render(t, seq![])),
    ensures
        program_spec(toks) is Ok,
        same_shape(t, program_spec(toks)->Ok_0),
        render(program_spec(toks)->Ok_0, seq![]) == render(t, seq![]),
        step(t) is None ==> forall|n: nat| #[trigger]
            run(program_spec(toks)->Ok_0, n) == program_spec(toks)->Ok_0,
        step(t) is None ==> forall|f: nat| #[trigger]
            big(program_spec(toks)->Ok_0, f) == Some(program_spec(toks)->Ok_0),
{
    let e: Seq<char> = seq![];
    lemma_tokens_render(t, seq![], e);
    assert(render(t, seq![]) + e =~= render(t, seq![]));
    assert(tokens(e) =~= seq![]);
    assert(token_list(t, seq![]) + tokens(e) =~= token_list(t, seq![]));
    lemma_word_names_plain(t);
    lemma_round_trip_tokens(t, toks);
}

} // verus!
