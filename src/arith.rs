//! The companion calculus of booleans and natural numbers.
use vstd::prelude::*;

verus! {

/// A term of the calculus of booleans and numbers.
#[derive(Debug, PartialEq, Eq)]
pub enum Term {
    True,
    False,
    Zero,
    Succ(Box<Term>),
    Pred(Box<Term>),
    IsZero(Box<Term>),
    If(Box<Term>, Box<Term>, Box<Term>),
}

/// A word of the input language, or the end of input.
#[derive(Debug, Clone, Copy, PartialEq, Eq, Structural)]
pub enum Token {
    EoF,
    True,
    False,
    If,
    Then,
    Else,
    Zero,
    Succ,
    Pred,
    IsZero,
}

/// Why evaluation or parsing stopped.
#[derive(Debug, PartialEq, Eq)]
pub enum ArithError {
    /// A word that is no token of the language.
    UnknownWord(String),
    /// A token, or the end of input, where a term should begin.
    UnexpectedToken(Token),
    /// The first token was required and the second came instead.
    ExpectedGotToken(Token, Token),
    /// No evaluation rule applies to the term.
    NoRuleApplies,
}

/// The token that a word stands for.
pub open spec fn word_token(w: Seq<char>) -> Option<Token> {
    if w == seq!['t', 'r', 'u', 'e'] {
        Some(Token::True)
    } else if w == seq!['f', 'a', 'l', 's', 'e'] {
        Some(Token::False)
    } else if w == seq!['i', 'f'] {
        Some(Token::If)
    } else if w == seq!['t', 'h', 'e', 'n'] {
        Some(Token::Then)
    } else if w == seq!['e', 'l', 's', 'e'] {
        Some(Token::Else)
    } else if w == seq!['0'] {
        Some(Token::Zero)
    } else if w == seq!['s', 'u', 'c', 'c'] {
        Some(Token::Succ)
    } else if w == seq!['p', 'r', 'e', 'd'] {
        Some(Token::Pred)
    } else if w == seq!['i', 's', 'z', 'e', 'r', 'o'] {
        Some(Token::IsZero)
    } else {
        None
    }
}

impl Term {
    /// `0` and any number of `succ` around it.
    pub open spec fn is_numeric(self) -> bool
        decreases self,
    {
        match self {
            Term::Zero => true,
            Term::Succ(t) => t.is_numeric(),
            _ => false,
        }
    }

    /// A boolean or a numeric value.
    pub open spec fn is_value(self) -> bool {
        self is True || self is False || self.is_numeric()
    }

    pub open spec fn size(self) -> nat
        decreases self,
    {
        match self {
            Term::Succ(t) => t.size() + 1,
            Term::Pred(t) => t.size() + 1,
            Term::IsZero(t) => t.size() + 1,
            Term::If(a, b, c) => a.size() + b.size() + c.size() + 1,
            _ => 1,
        }
    }

    pub fn is_numeric_val(&self) -> (r: bool)
        ensures
            r == self.is_numeric(),
        decreases self,
    {
        match self {
            Term::Zero => true,
            Term::Succ(t) => (**t).is_numeric_val(),
            _ => false,
        }
    }

    pub fn is_val(&self) -> (r: bool)
        ensures
            r == self.is_value(),
    {
        match self {
            Term::True | Term::False => true,
            _ => self.is_numeric_val(),
        }
    }

    /// A deep copy.
    pub fn copy(&self) -> (r: Term)
        ensures
            r == *self,
        decreases self,
    {
        match self {
            Term::True => Term::True,
            Term::False => Term::False,
            Term::Zero => Term::Zero,
            Term::Succ(t) => Term::Succ(Box::new((**t).copy())),
            Term::Pred(t) => Term::Pred(Box::new((**t).copy())),
            Term::IsZero(t) => Term::IsZero(Box::new((**t).copy())),
            Term::If(a, b, c) => Term::If(
                Box::new((**a).copy()),
                Box::new((**b).copy()),
                Box::new((**c).copy()),
            ),
        }
    }
}

/// One step of evaluation, or `None` where no rule applies.
pub open spec fn step(t: Term) -> Option<Term>
    decreases t,
{
    match t {
        Term::If(c, a, b) => match *c {
            Term::True => Some(*a),
            Term::False => Some(*b),
            _ => match step(*c) {
                Some(c1) => Some(Term::If(Box::new(c1), a, b)),
                None => None,
            },
        },
        Term::Succ(u) => match step(*u) {
            Some(u1) => Some(Term::Succ(Box::new(u1))),
            None => None,
        },
        Term::Pred(u) => match *u {
            Term::Zero => Some(Term::Zero),
            Term::Succ(n) => if n.is_numeric() {
                Some(*n)
            } else {
                match step(*u) {
                    Some(u1) => Some(Term::Pred(Box::new(u1))),
                    None => None,
                }
            },
            _ => match step(*u) {
                Some(u1) => Some(Term::Pred(Box::new(u1))),
                None => None,
            },
        },
        Term::IsZero(u) => match *u {
            Term::Zero => Some(Term::True),
            Term::Succ(n) => if n.is_numeric() {
                Some(Term::False)
            } else {
                match step(*u) {
                    Some(u1) => Some(Term::IsZero(Box::new(u1))),
                    None => None,
                }
            },
            _ => match step(*u) {
                Some(u1) => Some(Term::IsZero(Box::new(u1))),
                None => None,
            },
        },
        _ => None,
    }
}

/// Steps until no rule applies.
pub open spec fn normal_form(t: Term) -> Term
    decreases t.size(),
{
    match step(t) {
        Some(u) => if u.size() < t.size() {
            normal_form(u)
        } else {
            t
        },
        None => t,
    }
}

/// Evaluation by recursion on the structure; a stuck term evaluates to itself.
pub open spec fn big(t: Term) -> Term
    decreases t,
{
    match t {
        Term::If(c, a, b) => match big(*c) {
            Term::True => big(*a),
            Term::False => big(*b),
            _ => t,
        },
        Term::Succ(u) => {
            let v = big(*u);
            if v.is_numeric() {
                Term::Succ(Box::new(v))
            } else {
                t
            }
        },
        Term::Pred(u) => match big(*u) {
            Term::Zero => Term::Zero,
            Term::Succ(n) => *n,
            _ => t,
        },
        Term::IsZero(u) => match big(*u) {
            Term::Zero => Term::True,
            Term::Succ(_) => Term::False,
            _ => t,
        },
        _ => t,
    }
}

/// Every step makes the term smaller, so evaluation always ends.
pub proof fn lemma_step_shrinks(t: Term)
    requires
        step(t) is Some,
    ensures
        step(t)->Some_0.size() < t.size(),
    decreases t,
{
    match t {
        Term::If(c, a, b) => {
            assert(t.size() == c.size() + a.size() + b.size() + 1);
            if !(*c is True || *c is False) {
                lemma_step_shrinks(*c);
                let c1 = step(*c)->Some_0;
                let r = Term::If(Box::new(c1), a, b);
                assert(step(t) == Some(r));
                assert(r.size() == c1.size() + a.size() + b.size() + 1);
            } else if *c is True {
                assert(step(t) == Some(*a));
            } else {
                assert(step(t) == Some(*b));
            }
        },
        Term::Succ(u) => {
            lemma_step_shrinks(*u);
            assert(Term::Succ(Box::new(step(*u)->Some_0)).size() == step(*u)->Some_0.size() + 1);
        },
        Term::Pred(u) => {
            assert(t.size() == u.size() + 1);
            if let Term::Succ(n) = *u {
                assert(u.size() == n.size() + 1);
                if !n.is_numeric() {
                    lemma_step_shrinks(*u);
                    assert(Term::Pred(Box::new(step(*u)->Some_0)).size() == step(*u)->Some_0.size()
                        + 1);
                }
            } else if !(*u is Zero) {
                lemma_step_shrinks(*u);
                assert(Term::Pred(Box::new(step(*u)->Some_0)).size() == step(*u)->Some_0.size()
                    + 1);
            }
        },
        Term::IsZero(u) => {
            assert(t.size() == u.size() + 1);
            if let Term::Succ(n) = *u {
                assert(u.size() == n.size() + 1);
                if !n.is_numeric() {
                    lemma_step_shrinks(*u);
                    assert(Term::IsZero(Box::new(step(*u)->Some_0)).size() == step(
                        *u,
                    )->Some_0.size() + 1);
                }
            } else if !(*u is Zero) {
                lemma_step_shrinks(*u);
                assert(Term::IsZero(Box::new(step(*u)->Some_0)).size() == step(*u)->Some_0.size()
                    + 1);
            }
        },
        _ => {},
    }
}

/// One step of evaluation.
pub fn eval1(t: Term) -> (r: Result<Term, ArithError>)
    ensures
        match r {
            Ok(u) => step(t) == Some(u),
            Err(e) => step(t) is None && e == ArithError::NoRuleApplies,
        },
    decreases t,
{
    match t {
        Term::If(c, a, b) => match *c {
            Term::True => Ok(*a),
            Term::False => Ok(*b),
            c => {
                let c1 = eval1(c)?;
                Ok(Term::If(Box::new(c1), a, b))
            },
        },
        Term::Succ(u) => {
            let u1 = eval1(*u)?;
            Ok(Term::Succ(Box::new(u1)))
        },
        Term::Pred(u) => match *u {
            Term::Zero => Ok(Term::Zero),
            Term::Succ(n) => {
                if n.is_numeric_val() {
                    Ok(*n)
                } else {
                    let u1 = eval1(Term::Succ(n))?;
                    Ok(Term::Pred(Box::new(u1)))
                }
            },
            u => {
                let u1 = eval1(u)?;
                Ok(Term::Pred(Box::new(u1)))
            },
        },
        Term::IsZero(u) => match *u {
            Term::Zero => Ok(Term::True),
            Term::Succ(n) => {
                if n.is_numeric_val() {
                    Ok(Term::False)
                } else {
                    let u1 = eval1(Term::Succ(n))?;
                    Ok(Term::IsZero(Box::new(u1)))
                }
            },
            u => {
                let u1 = eval1(u)?;
                Ok(Term::IsZero(Box::new(u1)))
            },
        },
        _ => Err(ArithError::NoRuleApplies),
    }
}

/// Evaluates step by step until no rule applies.
pub fn small_step(t: Term) -> (r: Term)
    ensures
        r == normal_form(t),
    decreases t.size(),
{
    let c = t.copy();
    match eval1(c) {
        Ok(u) => {
            proof {
                lemma_step_shrinks(t);
            }
            small_step(u)
        },
        Err(_) => t,
    }
}

/// Evaluates by recursion on the structure of `t`.
pub fn big_step(t: Term) -> (r: Term)
    ensures
        r == big(t),
    decreases t,
{
    if t.is_val() {
        proof {
            lemma_value_big(t);
        }
        return t;
    }
    match &t {
        Term::If(c, a, b) => {
            match big_step((**c).copy()) {
                Term::True => big_step((**a).copy()),
                Term::False => big_step((**b).copy()),
                _ => t,
            }
        },
        Term::Succ(u) => {
            let v = big_step((**u).copy());
            if v.is_numeric_val() {
                Term::Succ(Box::new(v))
            } else {
                t
            }
        },
        Term::Pred(u) => match big_step((**u).copy()) {
            Term::Zero => Term::Zero,
            Term::Succ(n) => *n,
            _ => t,
        },
        Term::IsZero(u) => match big_step((**u).copy()) {
            Term::Zero => Term::True,
            Term::Succ(_) => Term::False,
            _ => t,
        },
        _ => t,
    }
}

proof fn lemma_value_big(t: Term)
    requires
        t.is_value(),
    ensures
        big(t) == t,
    decreases t,
{
    if let Term::Succ(u) = t {
        lemma_value_big(*u);
    }
}

/// The token at `pos`, the end of input past the last word.
pub open spec fn read_token(words: Seq<String>, pos: int) -> Result<Token, ArithError> {
    if pos >= words.len() {
        Ok(Token::EoF)
    } else {
        match word_token(words[pos]@) {
            Some(t) => Ok(t),
            None => Err(ArithError::UnknownWord(words[pos])),
        }
    }
}

/// Requires the token `want` at `pos`; on success the position after it.
pub open spec fn expect_spec(words: Seq<String>, pos: int, want: Token) -> Result<int, ArithError> {
    match read_token(words, pos) {
        Err(e) => Err(e),
        Ok(got) => if got != want {
            Err(ArithError::ExpectedGotToken(want, got))
        } else if pos >= words.len() {
            Ok(pos)
        } else {
            Ok(pos + 1)
        },
    }
}

/// One term starting at `pos`, and the position after it.
pub open spec fn parse_spec(words: Seq<String>, pos: int) -> Result<(Term, int), ArithError>
    decreases words.len() - pos,
{
    if pos < 0 || pos >= words.len() {
        Err(ArithError::UnexpectedToken(Token::EoF))
    } else {
        match read_token(words, pos) {
            Err(e) => Err(e),
            Ok(tok) => match tok {
                Token::True => Ok((Term::True, pos + 1)),
                Token::False => Ok((Term::False, pos + 1)),
                Token::Zero => Ok((Term::Zero, pos + 1)),
                Token::Succ => match parse_spec(words, pos + 1) {
                    Ok((t, p)) => Ok((Term::Succ(Box::new(t)), p)),
                    Err(e) => Err(e),
                },
                Token::Pred => match parse_spec(words, pos + 1) {
                    Ok((t, p)) => Ok((Term::Pred(Box::new(t)), p)),
                    Err(e) => Err(e),
                },
                Token::IsZero => match parse_spec(words, pos + 1) {
                    Ok((t, p)) => Ok((Term::IsZero(Box::new(t)), p)),
                    Err(e) => Err(e),
                },
                Token::If => match parse_spec(words, pos + 1) {
                    Err(e) => Err(e),
                    Ok((c, j1)) => match expect_spec(words, j1, Token::Then) {
                        Err(e) => Err(e),
                        Ok(j2) => if j2 <= pos {
                            Err(ArithError::UnexpectedToken(Token::EoF))
                        } else {
                            match parse_spec(words, j2) {
                                Err(e) => Err(e),
                                Ok((a, j3)) => match expect_spec(words, j3, Token::Else) {
                                    Err(e) => Err(e),
                                    Ok(j4) => if j4 <= pos {
                                        Err(ArithError::UnexpectedToken(Token::EoF))
                                    } else {
                                        match parse_spec(words, j4) {
                                            Err(e) => Err(e),
                                            Ok((b, j5)) => Ok(
                                                (
                                                    Term::If(Box::new(c), Box::new(a), Box::new(b)),
                                                    j5,
                                                ),
                                            ),
                                        }
                                    },
                                },
                            }
                        },
                    },
                },
                _ => Err(ArithError::UnexpectedToken(tok)),
            },
        }
    }
}

/// A whole program: one term, then the end of input.
pub open spec fn program_spec(words: Seq<String>) -> Result<Term, ArithError> {
    match parse_spec(words, 0) {
        Err(e) => Err(e),
        Ok((t, p)) => match expect_spec(words, p, Token::EoF) {
            Err(e) => Err(e),
            Ok(_) => Ok(t),
        },
    }
}

fn is_word(w: &String, lit: &str) -> (r: bool)
    ensures
        r == (w@ == lit@),
{
    *w == String::from_str(lit)
}

impl Token {
    /// The token that a word stands for.
    pub fn from_word(w: &String) -> (r: Result<Token, ArithError>)
        ensures
            r == match word_token(w@) {
                Some(t) => Ok::<Token, ArithError>(t),
                None => Err(ArithError::UnknownWord(*w)),
            },
    {
        proof {
            reveal_strlit("true");
            assert("true"@ =~= seq!['t', 'r', 'u', 'e']);
            reveal_strlit("false");
            assert("false"@ =~= seq!['f', 'a', 'l', 's', 'e']);
            reveal_strlit("if");
            assert("if"@ =~= seq!['i', 'f']);
            reveal_strlit("then");
            assert("then"@ =~= seq!['t', 'h', 'e', 'n']);
            reveal_strlit("else");
            assert("else"@ =~= seq!['e', 'l', 's', 'e']);
            reveal_strlit("0");
            assert("0"@ =~= seq!['0']);
            reveal_strlit("succ");
            assert("succ"@ =~= seq!['s', 'u', 'c', 'c']);
            reveal_strlit("pred");
            assert("pred"@ =~= seq!['p', 'r', 'e', 'd']);
            reveal_strlit("iszero");
            assert("iszero"@ =~= seq!['i', 's', 'z', 'e', 'r', 'o']);
        }
        if is_word(w, "true") {
            Ok(Token::True)
        } else if is_word(w, "false") {
            Ok(Token::False)
        } else if is_word(w, "if") {
            Ok(Token::If)
        } else if is_word(w, "then") {
            Ok(Token::Then)
        } else if is_word(w, "else") {
            Ok(Token::Else)
        } else if is_word(w, "0") {
            Ok(Token::Zero)
        } else if is_word(w, "succ") {
            Ok(Token::Succ)
        } else if is_word(w, "pred") {
            Ok(Token::Pred)
        } else if is_word(w, "iszero") {
            Ok(Token::IsZero)
        } else {
            Err(ArithError::UnknownWord(w.clone()))
        }
    }
}

fn next_token(words: &Vec<String>, pos: usize) -> (r: Result<Token, ArithError>)
    ensures
        r == read_token(words@, pos as int),
{
    if pos >= words.len() {
        Ok(Token::EoF)
    } else {
        Token::from_word(&words[pos])
    }
}

/// Requires the token `want` at `pos`.
pub fn expect(words: &Vec<String>, pos: usize, want: Token) -> (r: Result<usize, ArithError>)
    requires
        pos <= words@.len(),
    ensures
        match r {
            Ok(q) => expect_spec(words@, pos as int, want) == Ok::<int, ArithError>(q as int),
            Err(e) => expect_spec(words@, pos as int, want) == Err::<int, ArithError>(e),
        },
        r matches Ok(q) ==> pos <= q <= words@.len(),
{
    let got = next_token(words, pos)?;
    if got != want {
        Err(ArithError::ExpectedGotToken(want, got))
    } else if pos >= words.len() {
        Ok(pos)
    } else {
        Ok(pos + 1)
    }
}

/// Parses one term at `pos`.
pub fn parse(words: &Vec<String>, pos: usize) -> (r: Result<(Term, usize), ArithError>)
    requires
        pos <= words@.len(),
    ensures
        match r {
            Ok((t, q)) => parse_spec(words@, pos as int) == Ok::<(Term, int), ArithError>(
                (t, q as int),
            ) && pos < q <= words@.len(),
            Err(e) => parse_spec(words@, pos as int) == Err::<(Term, int), ArithError>(e),
        },
    decreases words@.len() - pos,
{
    if pos >= words.len() {
        return Err(ArithError::UnexpectedToken(Token::EoF));
    }
    let tok = next_token(words, pos)?;
    match tok {
        Token::True => Ok((Term::True, pos + 1)),
        Token::False => Ok((Term::False, pos + 1)),
        Token::Zero => Ok((Term::Zero, pos + 1)),
        Token::Succ => {
            let (t, p) = parse(words, pos + 1)?;
            Ok((Term::Succ(Box::new(t)), p))
        },
        Token::Pred => {
            let (t, p) = parse(words, pos + 1)?;
            Ok((Term::Pred(Box::new(t)), p))
        },
        Token::IsZero => {
            let (t, p) = parse(words, pos + 1)?;
            Ok((Term::IsZero(Box::new(t)), p))
        },
        Token::If => {
            let (c, j1) = parse(words, pos + 1)?;
            let j2 = expect(words, j1, Token::Then)?;
            let (a, j3) = parse(words, j2)?;
            let j4 = expect(words, j3, Token::Else)?;
            let (b, j5) = parse(words, j4)?;
            Ok((Term::If(Box::new(c), Box::new(a), Box::new(b)), j5))
        },
        _ => Err(ArithError::UnexpectedToken(tok)),
    }
}

/// Parses a whole program: one term, then the end of input.
pub fn parse_program(words: &Vec<String>) -> (r: Result<Term, ArithError>)
    ensures
        r == program_spec(words@),
{
    let (t, p) = parse(words, 0)?;
    expect(words, p, Token::EoF)?;
    Ok(t)
}

/// The name of the outermost constructor of `t`.
pub open spec fn name_of(t: Term) -> Seq<char> {
    match t {
        Term::True => "true"@,
        Term::False => "false"@,
        Term::Zero => "0"@,
        Term::Succ(_) => "succ"@,
        Term::Pred(_) => "pred"@,
        Term::IsZero(_) => "iszero"@,
        Term::If(..) => "if"@,
    }
}

/// The lines that draw the subterms of `t` as a tree, each after `indent`.
pub open spec fn children(t: Term, indent: Seq<char>) -> Seq<char>
    decreases t,
{
    match t {
        Term::Succ(u) => indent + "└─"@ + name_of(*u) + "\n"@ + children(*u, indent + "  "@),
        Term::Pred(u) => indent + "└─"@ + name_of(*u) + "\n"@ + children(*u, indent + "  "@),
        Term::IsZero(u) => indent + "└─"@ + name_of(*u) + "\n"@ + children(*u, indent + "  "@),
        Term::If(a, b, c) => indent + "├─"@ + name_of(*a) + "\n"@ + children(*a, indent + "│ "@)
            + indent + "├─"@ + name_of(*b) + "\n"@ + children(*b, indent + "│ "@) + indent
            + "└─"@ + name_of(*c) + "\n"@ + children(*c, indent + "  "@),
        _ => seq![],
    }
}

/// `t` drawn as a tree: its name, then its subterms below it.
pub open spec fn tree(t: Term) -> Seq<char> {
    name_of(t) + "\n"@ + children(t, seq![])
}

/// One branch of the tree: `indent`, the connector, the child's name and
/// the child's own subtree below it.
fn branch(indent: &String, connector: &str, below: &str, t: &Term) -> (r: String)
    ensures
        r@ == indent@ + connector@ + name_of(*t) + "\n"@ + children(*t, indent@ + below@),
    decreases t, 1nat,
{
    let mut r = indent.clone();
    r.append(connector);
    r.append(t.name());
    r.append("\n");
    let mut inner = indent.clone();
    inner.append(below);
    let rest = t.fmt_children(&inner);
    r.append(rest.as_str());
    r
}

impl Term {
    /// The name of the outermost constructor.
    pub fn name(&self) -> (r: &'static str)
        ensures
            r@ == name_of(*self),
    {
        match self {
            Term::True => "true",
            Term::False => "false",
            Term::Zero => "0",
            Term::Succ(_) => "succ",
            Term::Pred(_) => "pred",
            Term::IsZero(_) => "iszero",
            Term::If(..) => "if",
        }
    }

    /// The lines that draw the subterms as a tree, each after `indent`.
    pub fn fmt_children(&self, indent: &String) -> (r: String)
        ensures
            r@ == children(*self, indent@),
        decreases self, 0nat,
    {
        match self {
            Term::Succ(u) | Term::Pred(u) | Term::IsZero(u) => branch(indent, "└─", "  ", &**u),
            Term::If(a, b, c) => {
                let mut r = branch(indent, "├─", "│ ", &**a);
                let rb = branch(indent, "├─", "│ ", &**b);
                let rc = branch(indent, "└─", "  ", &**c);
                r.append(rb.as_str());
                r.append(rc.as_str());
                r
            },
            _ => String::new(),
        }
    }

    /// The term drawn as a tree: its name, then its subterms below it.
    pub fn tree_string(&self) -> (r: String)
        ensures
            r@ == tree(*self),
    {
        let mut r = String::from_str(self.name());
        r.append("\n");
        let rest = self.fmt_children(&String::new());
        r.append(rest.as_str());
        r
    }
}

} // verus!
