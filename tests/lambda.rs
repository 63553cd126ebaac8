use untyped::eval::{big_step, eval1, is_normal, small_step};
use untyped::parse::{parse_program, ParseError, Want};
use untyped::print::pick_fresh_name;
use untyped::scan::scan;
use untyped::subst::{shift, subst, subst_stop};
use untyped::term::Term;

fn read(src: &str) -> Result<Term, ParseError> {
    parse_program(&scan(src))
}

fn show(t: &Term) -> String {
    t.context_string(&Vec::new())
}

fn by_big_step(src: &str) -> String {
    let t = read(src).unwrap();
    show(&big_step(&t, 1000).unwrap())
}

fn by_small_step(src: &str) -> String {
    let t = read(src).unwrap();
    let r = small_step(t, 1000);
    assert!(is_normal(&r));
    show(&r)
}

fn var(k: usize) -> Term {
    Term::Var(k)
}

fn abs(x: &str, b: Term) -> Term {
    Term::Abs(x.to_string(), Box::new(b))
}

fn app(a: Term, b: Term) -> Term {
    Term::App(Box::new(a), Box::new(b))
}

fn strings(v: &[&str]) -> Vec<String> {
    v.iter().map(|s| s.to_string()).collect()
}

#[test]
fn identity_applied_to_identity_big_step() {
    assert_eq!(by_big_step("(λx.x) (λy.y)"), "(λy.y)");
}

#[test]
fn self_application_small_step() {
    assert_eq!(by_small_step("(λx. x x) (λy. y)"), "(λy.y)");
}

#[test]
fn value_is_unchanged_in_both_modes() {
    assert_eq!(by_big_step("λx.x"), "(λx.x)");
    assert_eq!(by_small_step("λx.x"), "(λx.x)");
}

#[test]
fn missing_close_paren() {
    assert_eq!(read("(λx.x"), Err(ParseError::ExpectedGotToken(Want::CloseParen, None)));
}

#[test]
fn free_variable_is_undefined() {
    assert_eq!(read("x"), Err(ParseError::UndefinedVariable("x".to_string())));
}

#[test]
fn first_unresolved_name_is_reported() {
    assert_eq!(read("(λx.λy. x) a b"), Err(ParseError::UndefinedVariable("a".to_string())));
}

#[test]
fn leftover_token_is_reported() {
    assert_eq!(
        read("(λx.x) (λx.x) (λx.x)"),
        Err(ParseError::ExpectedGotToken(Want::End, Some("(".to_string())))
    );
}

#[test]
fn unexpected_tokens() {
    assert_eq!(read(""), Err(ParseError::UnexpectedToken(None)));
    assert_eq!(read(")"), Err(ParseError::UnexpectedToken(Some(")".to_string()))));
    assert_eq!(read(". x"), Err(ParseError::UnexpectedToken(Some(".".to_string()))));
    assert_eq!(read("("), Err(ParseError::UnexpectedToken(None)));
}

#[test]
fn lambda_errors() {
    assert_eq!(read("λ"), Err(ParseError::ExpectedIdentifier));
    assert_eq!(read("λx"), Err(ParseError::ExpectedGotToken(Want::Dot, None)));
    assert_eq!(
        read("λx x"),
        Err(ParseError::ExpectedGotToken(Want::Dot, Some("x".to_string())))
    );
    assert_eq!(
        read("(λx.x x"),
        Err(ParseError::ExpectedGotToken(Want::CloseParen, None))
    );
}

#[test]
fn scanner_splits_around_symbols() {
    assert_eq!(scan("(λx. x y)"), strings(&["(", "λ", "x", ".", "x", "y", ")"]));
    assert_eq!(scan("  ab\tc\n(d)).e\r\x0cλfoo"), strings(&["ab", "c", "(", "d", ")", ")", ".", "e", "λ", "foo"]));
    assert_eq!(scan(""), Vec::<String>::new());
    assert_eq!(scan("   "), Vec::<String>::new());
}

#[test]
fn parser_builds_de_bruijn_indices() {
    let t = read("λx.λy.x y").unwrap();
    assert_eq!(t, abs("x", abs("y", app(var(1), var(0)))));
    assert_eq!(t.de_bruijn_string(), "(λ.(λ.(1 0)))");
    let shadow = read("λx.λx.x").unwrap();
    assert_eq!(shadow, abs("x", abs("x", var(0))));
}

#[test]
fn application_groups_two_atoms() {
    let t = read("(λx.x x) (λy.y)").unwrap();
    assert_eq!(t, app(abs("x", app(var(0), var(0))), abs("y", var(0))));
}

#[test]
fn shift_moves_free_indices_only() {
    let t = abs("x", app(var(0), var(2)));
    assert_eq!(shift(3, 0, &t), abs("x", app(var(0), var(5))));
    assert_eq!(shift(-1, 0, &t), abs("x", app(var(0), var(1))));
    assert_eq!(shift(1, 1, &app(var(0), var(1))), app(var(0), var(2)));
}

#[test]
fn subst_replaces_and_shifts_under_binders() {
    let t = app(var(0), abs("y", var(1)));
    assert_eq!(subst(0, &var(4), &t), app(var(4), abs("y", var(5))));
    assert_eq!(subst(2, &var(4), &t), t);
}

#[test]
fn subst_stop_performs_beta() {
    // (λx.λy.x) applied to the free variable 0 gives λy.1
    let body = abs("y", var(1));
    assert_eq!(subst_stop(&var(0), &body), abs("y", var(1)));
    // (λx.x) applied to λz.z gives λz.z
    let id = abs("z", var(0));
    assert_eq!(subst_stop(&id, &var(0)), abs("z", var(0)));
    // the body's own free index 1 drops to 0
    assert_eq!(subst_stop(&id, &app(var(0), var(1))), app(abs("z", var(0)), var(0)));
}

#[test]
fn eval1_takes_one_step() {
    let t = read("(λx.x) ((λy.y) (λz.z))").unwrap();
    let u = eval1(&t).unwrap();
    assert_eq!(show(&u), "((λx.x) (λz.z))");
    let v = eval1(&u).unwrap();
    assert_eq!(show(&v), "(λz.z)");
    assert!(eval1(&v).is_none());
}

#[test]
fn eval1_steps_argument_of_stuck_function() {
    // under one outer name, `f ((λy.y) (λz.z))` steps in the argument
    let t = app(var(0), app(abs("y", var(0)), abs("z", var(0))));
    assert_eq!(eval1(&t), Some(app(var(0), abs("z", var(0)))));
}

#[test]
fn normal_form_is_left_unchanged() {
    let t = read("λx.(λy.y) x").unwrap();
    assert!(is_normal(&t));
    assert!(eval1(&t).is_none());
    assert_eq!(small_step(read("λx.(λy.y) x").unwrap(), 10), t);
    assert_eq!(big_step(&t, 10), Some(read("λx.(λy.y) x").unwrap()));
}

#[test]
fn evaluators_agree_on_terminating_terms() {
    for src in [
        "(λx.x) (λy.y)",
        "(λx. x x) (λy. y)",
        "((λt.λf.t) (λa.a)) (λb.b)",
        "((λt.λf.f) (λa.a)) (λb.b)",
        "(λx.λy.x) ((λz.z) (λw.w))",
    ] {
        assert_eq!(by_small_step(src), by_big_step(src), "{src}");
    }
}

#[test]
fn budget_runs_out_on_divergent_term() {
    let omega = read("(λx.x x) (λx.x x)").unwrap();
    let r = small_step(omega, 5);
    assert!(!is_normal(&r));
    let omega = read("(λx.x x) (λx.x x)").unwrap();
    assert_eq!(big_step(&omega, 20), None);
}

#[test]
fn big_step_returns_stuck_application_unchanged() {
    // under one outer name: ((λy.y) (λz.z)) f is stuck on the free f
    let t = app(app(abs("y", var(0)), abs("z", var(0))), var(0));
    assert_eq!(big_step(&t, 10), Some(app(app(abs("y", var(0)), abs("z", var(0))), var(0))));
    let r = small_step(app(app(abs("y", var(0)), abs("z", var(0))), var(0)), 10);
    assert_eq!(r, app(abs("z", var(0)), var(0)));
}

#[test]
fn printer_primes_clashing_names() {
    assert_eq!(show(&read("λx.λx.x").unwrap()), "(λx.(λx'.x'))");
    assert_eq!(show(&read("λx.λx.λx.x").unwrap()), "(λx.(λx'.(λx''.x'')))");
    let t = abs("x", app(var(0), var(1)));
    assert_eq!(t.context_string(&strings(&["x"])), "(λx'.(x' x))");
}

#[test]
fn fresh_names_are_unique_in_context() {
    let ctx = strings(&["x", "x'", "y"]);
    let (grown, name) = pick_fresh_name(&ctx, "x".to_string());
    assert_eq!(name, "x''");
    assert_eq!(grown, strings(&["x''", "x", "x'", "y"]));
    let (_, name) = pick_fresh_name(&ctx, "z".to_string());
    assert_eq!(name, "z");
}

#[test]
fn printed_output_parses_back_to_the_same_output() {
    for src in ["λx.λx.x", "λa.λb.(a b) a", "(λx. x x) (λy. λy. y)", "λf.λx.f (f x)"] {
        let out = by_big_step(src);
        assert_eq!(by_big_step(&out), out);
        assert_eq!(by_small_step(&out), out);
    }
}

#[test]
fn de_bruijn_string_of_large_index() {
    assert_eq!(var(1234).de_bruijn_string(), "1234");
    assert_eq!(var(0).de_bruijn_string(), "0");
}

#[test]
fn huge_indices_leave_no_room_to_step() {
    let big_index = Term::Var(usize::MAX - 1);
    assert!(!big_index.has_room());
    assert!(var(3).has_room());
    // a redex whose argument holds a huge index is not reduced
    let t = app(abs("x", var(0)), abs("y", var(usize::MAX - 1)));
    assert_eq!(small_step(app(abs("x", var(0)), abs("y", var(usize::MAX - 1))), 10), t);
    assert_eq!(big_step(&t, 10), None);
}
