use vstd::prelude::*;
use crate::term::Term;

verus! {

/// A token that the parser required at some point.
#[derive(Debug, PartialEq, Eq)]
pub enum Want {
    Dot,
    CloseParen,
    End,
}

/// Why a token sequence is not a term. `None` stands for the end of input.
#[derive(Debug, PartialEq, Eq)]
pub enum ParseError {
    /// A `)` or `.`, or the end of input, where a term should begin.
    UnexpectedToken(Option<String>),
    /// A required token is missing; the second field is what came instead.
    ExpectedGotToken(Want, Option<String>),
    /// The input ended where a binder name should be.
    ExpectedIdentifier,
    /// A name that no enclosing binder introduces.
    UndefinedVariable(String),
}

/// The result of parsing from some position: a term and the position after it.
pub type Parsed = Result<(Term, usize), ParseError>;

/// The mathematical form of a `Parsed`.
pub open spec fn as_spec(r: Parsed) -> Result<(Term, int), ParseError> {
    match r {
        Ok((t, p)) => Ok((t, p as int)),
        Err(e) => Err(e),
    }
}

pub open spec fn want_char(w: Want) -> char {
    match w {
        Want::Dot => '.',
        Want::CloseParen => ')',
        Want::End => ' ',
    }
}

/// The first position at or after `i` where `ctx` holds the name `x`.
pub open spec fn find_from(ctx: Seq<String>, x: Seq<char>, i: int) -> Option<int>
    decreases ctx.len() - i,
{
    if i < 0 || i >= ctx.len() {
        None
    } else if ctx[i]@ == x {
        Some(i)
    } else {
        find_from(ctx, x, i + 1)
    }
}

/// Requires the token `want` at `pos`; on success the position after it.
pub open spec fn expect_spec(want: Want, toks: Seq<String>, pos: int) -> Result<int, ParseError> {
    if pos >= toks.len() {
        Err(ParseError::ExpectedGotToken(want, None))
    } else if toks[pos]@ != seq![want_char(want)] {
        Err(ParseError::ExpectedGotToken(want, Some(toks[pos])))
    } else {
        Ok(pos + 1)
    }
}

/// One atom: a variable, a parenthesised expression or an abstraction.
pub open spec fn single_spec(ctx: Seq<String>, toks: Seq<String>, pos: int) -> Result<
    (Term, int),
    ParseError,
>
    decreases toks.len() - pos, 1int,
{
    if pos < 0 || pos >= toks.len() {
        Err(ParseError::UnexpectedToken(None))
    } else {
        let tok = toks[pos];
        if tok@ == seq![')'] || tok@ == seq!['.'] {
            Err(ParseError::UnexpectedToken(Some(tok)))
        } else if tok@ == seq!['('] {
            paren_spec(ctx, toks, pos + 1)
        } else if tok@ == seq!['λ'] {
            lambda_spec(ctx, toks, pos + 1)
        } else {
            match find_from(ctx, tok@, 0) {
                Some(i) => Ok((Term::Var(i as usize), pos + 1)),
                None => Err(ParseError::UndefinedVariable(tok)),
            }
        }
    }
}

/// The inside of parentheses, opened just before `pos`, and the `)`.
pub open spec fn paren_spec(ctx: Seq<String>, toks: Seq<String>, pos: int) -> Result<
    (Term, int),
    ParseError,
>
    decreases toks.len() - pos, 3int,
{
    if pos < 0 || pos >= toks.len() {
        Err(ParseError::UnexpectedToken(None))
    } else {
        match expr_spec(ctx, toks, pos) {
            Err(e) => Err(e),
            Ok((t, p)) => match expect_spec(Want::CloseParen, toks, p) {
                Err(e) => Err(e),
                Ok(q) => Ok((t, q)),
            },
        }
    }
}

/// The rest of an abstraction after `λ`: a name, `.`, and the body.
pub open spec fn lambda_spec(ctx: Seq<String>, toks: Seq<String>, pos: int) -> Result<
    (Term, int),
    ParseError,
>
    decreases toks.len() - pos, 0int,
{
    if pos < 0 || pos >= toks.len() {
        Err(ParseError::ExpectedIdentifier)
    } else {
        match expect_spec(Want::Dot, toks, pos + 1) {
            Err(e) => Err(e),
            Ok(q) => match expr_spec(seq![toks[pos]] + ctx, toks, q) {
                Err(e) => Err(e),
                Ok((b, p)) => Ok((Term::Abs(toks[pos], Box::new(b)), p)),
            },
        }
    }
}

/// An expression: one atom, or two juxtaposed atoms as an application.
pub open spec fn expr_spec(ctx: Seq<String>, toks: Seq<String>, pos: int) -> Result<
    (Term, int),
    ParseError,
>
    decreases toks.len() - pos, 2int,
{
    match single_spec(ctx, toks, pos) {
        Err(e) => Err(e),
        Ok((a, p)) => if p >= toks.len() || toks[p]@ == seq![')'] {
            Ok((a, p))
        } else if p <= pos || p < 0 {
            Err(ParseError::UnexpectedToken(None))
        } else {
            match single_spec(ctx, toks, p) {
                Err(e) => Err(e),
                Ok((b, q)) => Ok((Term::App(Box::new(a), Box::new(b)), q)),
            }
        },
    }
}

/// A whole program: one expression and then the end of input.
pub open spec fn program_spec(toks: Seq<String>) -> Result<Term, ParseError> {
    match expr_spec(seq![], toks, 0) {
        Err(e) => Err(e),
        Ok((t, p)) => if p < toks.len() {
            Err(ParseError::ExpectedGotToken(Want::End, Some(toks[p])))
        } else {
            Ok(t)
        },
    }
}

/// Whether the token is the one-character text `c`.
fn is_tok(tok: &String, c: char) -> (r: bool)
    ensures
        r == (tok@ == seq![c]),
{
    let s = tok.as_str();
    if s.unicode_len() == 1 {
        let d = s.get_char(0);
        assert(d == c ==> s@ =~= seq![c]);
        d == c
    } else {
        false
    }
}

/// The first position of the name `x` in `ctx`.
fn position(ctx: &Vec<String>, x: &String) -> (r: Option<usize>)
    ensures
        match r {
            Some(i) => find_from(ctx@, x@, 0) == Some(i as int),
            None => find_from(ctx@, x@, 0) is None,
        },
        r matches Some(i) ==> i < ctx@.len(),
{
    let mut i: usize = 0;
    while i < ctx.len()
        invariant
            i <= ctx@.len(),
            find_from(ctx@, x@, 0) == find_from(ctx@, x@, i as int),
        decreases ctx.len() - i,
    {
        if ctx[i] == *x {
            return Some(i);
        }
        i = i + 1;
    }
    None
}

/// The error for a token that cannot begin a term.
pub fn unexpected(tok: Option<String>) -> (r: ParseError)
    ensures
        r == ParseError::UnexpectedToken(tok),
{
    ParseError::UnexpectedToken(tok)
}

/// Requires the token `want` (`.` or `)`) at `pos`.
pub fn expect(want: Want, toks: &Vec<String>, pos: usize) -> (r: Result<usize, ParseError>)
    requires
        want != Want::End,
        pos <= toks@.len(),
    ensures
        match r {
            Ok(q) => expect_spec(want, toks@, pos as int) == Ok::<int, ParseError>(q as int),
            Err(e) => expect_spec(want, toks@, pos as int) == Err::<int, ParseError>(e),
        },
        r matches Ok(q) ==> q == pos + 1 && q <= toks@.len(),
{
    if pos >= toks.len() {
        return Err(ParseError::ExpectedGotToken(want, None));
    }
    let c = match want {
        Want::Dot => '.',
        _ => ')',
    };
    if !is_tok(&toks[pos], c) {
        return Err(ParseError::ExpectedGotToken(want, Some(toks[pos].clone())));
    }
    Ok(pos + 1)
}

/// Parses one atom at `pos`.
pub fn parse_single(ctx: &Vec<String>, toks: &Vec<String>, pos: usize) -> (r: Parsed)
    requires
        pos <= toks@.len(),
    ensures
        as_spec(r) == single_spec(ctx@, toks@, pos as int),
        r matches Ok((t, q)) ==> pos < q <= toks@.len() && t.closed_at(ctx@.len()),
    decreases toks@.len() - pos, 1int,
{
    if pos >= toks.len() {
        return Err(unexpected(None));
    }
    let tok = &toks[pos];
    if is_tok(tok, ')') || is_tok(tok, '.') {
        Err(unexpected(Some(tok.clone())))
    } else if is_tok(tok, '(') {
        parse_paren_expr(ctx, toks, pos + 1)
    } else if is_tok(tok, 'λ') {
        parse_lambda(ctx, toks, pos + 1)
    } else {
        match position(ctx, tok) {
            Some(i) => Ok((Term::Var(i), pos + 1)),
            None => Err(ParseError::UndefinedVariable(tok.clone())),
        }
    }
}

/// Parses the inside of parentheses opened just before `pos`, and the `)`.
pub fn parse_paren_expr(ctx: &Vec<String>, toks: &Vec<String>, pos: usize) -> (r: Parsed)
    requires
        pos <= toks@.len(),
    ensures
        as_spec(r) == paren_spec(ctx@, toks@, pos as int),
        r matches Ok((t, q)) ==> pos < q <= toks@.len() && t.closed_at(ctx@.len()),
    decreases toks@.len() - pos, 3int,
{
    if pos >= toks.len() {
        return Err(unexpected(None));
    }
    let (t, p) = match parse(ctx, toks, pos) {
        Ok(x) => x,
        Err(e) => return Err(e),
    };
    match expect(Want::CloseParen, toks, p) {
        Ok(q) => Ok((t, q)),
        Err(e) => Err(e),
    }
}

/// Parses the rest of an abstraction after `λ`.
pub fn parse_lambda(ctx: &Vec<String>, toks: &Vec<String>, pos: usize) -> (r: Parsed)
    requires
        pos <= toks@.len(),
    ensures
        as_spec(r) == lambda_spec(ctx@, toks@, pos as int),
        r matches Ok((t, q)) ==> pos < q <= toks@.len() && t.closed_at(ctx@.len()),
    decreases toks@.len() - pos, 0int,
{
    if pos >= toks.len() {
        return Err(ParseError::ExpectedIdentifier);
    }
    let q = match expect(Want::Dot, toks, pos + 1) {
        Ok(q) => q,
        Err(e) => return Err(e),
    };
    let mut inner: Vec<String> = Vec::new();
    inner.push(toks[pos].clone());
    let mut i: usize = 0;
    while i < ctx.len()
        invariant
            i <= ctx@.len(),
            inner@ == seq![toks@[pos as int]] + ctx@.take(i as int),
        decreases ctx.len() - i,
    {
        inner.push(ctx[i].clone());
        i = i + 1;
        assert(inner@ =~= seq![toks@[pos as int]] + ctx@.take(i as int));
    }
    assert(ctx@.take(i as int) =~= ctx@);
    match parse(&inner, toks, q) {
        Ok((b, p)) => Ok((Term::Abs(toks[pos].clone(), Box::new(b)), p)),
        Err(e) => Err(e),
    }
}

/// Parses an expression at `pos`: one atom, or two as an application.
pub fn parse(ctx: &Vec<String>, toks: &Vec<String>, pos: usize) -> (r: Parsed)
    requires
        pos <= toks@.len(),
    ensures
        as_spec(r) == expr_spec(ctx@, toks@, pos as int),
        r matches Ok((t, q)) ==> pos < q <= toks@.len() && t.closed_at(ctx@.len()),
    decreases toks@.len() - pos, 2int,
{
    let (a, p) = match parse_single(ctx, toks, pos) {
        Ok(x) => x,
        Err(e) => return Err(e),
    };
    if p >= toks.len() || is_tok(&toks[p], ')') {
        return Ok((a, p));
    }
    match parse_single(ctx, toks, p) {
        Ok((b, q)) => Ok((Term::App(Box::new(a), Box::new(b)), q)),
        Err(e) => Err(e),
    }
}

/// Parses a whole program: one expression over no outer names, then the end
/// of input.
pub fn parse_program(toks: &Vec<String>) -> (r: Result<Term, ParseError>)
    ensures
        r == program_spec(toks@),
        r matches Ok(t) ==> t.closed_at(0),
{
    let empty: Vec<String> = Vec::new();
    let (t, p) = match parse(&empty, toks, 0) {
        Ok(x) => x,
        Err(e) => return Err(e),
    };
    if p < toks.len() {
        return Err(ParseError::ExpectedGotToken(Want::End, Some(toks[p].clone())));
    }
    Ok(t)
}

} // verus!
