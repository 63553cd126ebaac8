use untyped::arith::{big_step, eval1, parse_program, small_step, ArithError, Term, Token};

fn words(s: &str) -> Vec<String> {
    s.split_whitespace().map(|w| w.to_string()).collect()
}

fn read(s: &str) -> Result<Term, ArithError> {
    parse_program(&words(s))
}

fn num(n: usize) -> Term {
    let mut t = Term::Zero;
    for _ in 0..n {
        t = Term::Succ(Box::new(t));
    }
    t
}

#[test]
fn conditional_on_iszero() {
    let t = read("if iszero 0 then succ 0 else 0").unwrap();
    assert_eq!(
        t,
        Term::If(Box::new(Term::IsZero(Box::new(Term::Zero))), Box::new(num(1)), Box::new(num(0)))
    );
    assert_eq!(big_step(t.copy()), num(1));
    assert_eq!(small_step(t), num(1));
}

#[test]
fn predecessor_and_zero_test() {
    assert_eq!(big_step(read("pred succ succ 0").unwrap()), num(1));
    assert_eq!(small_step(read("pred succ succ 0").unwrap()), num(1));
    assert_eq!(small_step(read("pred 0").unwrap()), num(0));
    assert_eq!(big_step(read("iszero pred succ 0").unwrap()), Term::True);
    assert_eq!(small_step(read("iszero succ pred 0").unwrap()), Term::False);
}

#[test]
fn stuck_terms() {
    assert_eq!(big_step(read("succ true").unwrap()), read("succ true").unwrap());
    assert_eq!(small_step(read("succ true").unwrap()), read("succ true").unwrap());
    assert_eq!(small_step(read("if 0 then true else false").unwrap()), read("if 0 then true else false").unwrap());
    assert_eq!(big_step(read("pred succ true").unwrap()), Term::True);
    assert_eq!(small_step(read("pred succ true").unwrap()), read("pred succ true").unwrap());
}

#[test]
fn one_step_at_a_time() {
    let t = read("if true then pred succ 0 else false").unwrap();
    let u = eval1(t).unwrap();
    assert_eq!(u, read("pred succ 0").unwrap());
    let v = eval1(u).unwrap();
    assert_eq!(v, num(0));
    assert_eq!(eval1(v), Err(ArithError::NoRuleApplies));
}

#[test]
fn parse_errors() {
    assert_eq!(read("if true then 0"), Err(ArithError::ExpectedGotToken(Token::Else, Token::EoF)));
    assert_eq!(read("if true 0"), Err(ArithError::ExpectedGotToken(Token::Then, Token::Zero)));
    assert_eq!(read("foo"), Err(ArithError::UnknownWord("foo".to_string())));
    assert_eq!(read("succ bar"), Err(ArithError::UnknownWord("bar".to_string())));
    assert_eq!(read("then"), Err(ArithError::UnexpectedToken(Token::Then)));
    assert_eq!(read(""), Err(ArithError::UnexpectedToken(Token::EoF)));
    assert_eq!(read("0 0"), Err(ArithError::ExpectedGotToken(Token::EoF, Token::Zero)));
    assert_eq!(read("0 x"), Err(ArithError::UnknownWord("x".to_string())));
}

#[test]
fn words_to_tokens() {
    assert_eq!(Token::from_word(&"iszero".to_string()), Ok(Token::IsZero));
    assert_eq!(Token::from_word(&"0".to_string()), Ok(Token::Zero));
    assert_eq!(Token::from_word(&"zero".to_string()), Err(ArithError::UnknownWord("zero".to_string())));
}

#[test]
fn tree_drawing() {
    let t = read("if iszero 0 then succ 0 else 0").unwrap();
    assert_eq!(t.name(), "if");
    assert_eq!(t.tree_string(), "if\n├─iszero\n│ └─0\n├─succ\n│ └─0\n└─0\n");
    assert_eq!(num(0).tree_string(), "0\n");
}
