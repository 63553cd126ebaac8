use vstd::prelude::*;

verus! {

/// A lambda term. Variables are de Bruijn indices: `Var(0)` refers to the
/// nearest enclosing binder. The binder name of an abstraction is cosmetic:
/// it is only used to pick display names when printing.
#[derive(Debug, PartialEq, Eq)]
pub enum Term {
    Var(usize),
    Abs(String, Box<Term>),
    App(Box<Term>, Box<Term>),
}

impl Term {
    /// A value is an abstraction.
    pub open spec fn is_value(self) -> bool {
        self is Abs
    }

    /// Every variable refers either to a binder inside the term or to one of
    /// `n` outer names.
    pub open spec fn closed_at(self, n: nat) -> bool
        decreases self,
    {
        match self {
            Term::Var(k) => k < n,
            Term::Abs(_, b) => b.closed_at(n + 1),
            Term::App(a, b) => a.closed_at(n) && b.closed_at(n),
        }
    }

    /// The largest value of "index plus enclosing binders" over the
    /// variables of the term: a bound on every index and on the nesting depth.
    pub open spec fn span(self) -> nat
        decreases self,
    {
        match self {
            Term::Var(k) => k as nat,
            Term::Abs(_, b) => b.span() + 1,
            Term::App(a, b) => if a.span() >= b.span() {
                a.span()
            } else {
                b.span()
            },
        }
    }

    /// The indices and the nesting of the term leave room for a beta step
    /// at any position inside it.
    pub open spec fn fits(self) -> bool {
        self.span() + self.span() < usize::MAX
    }

    pub fn is_val(&self) -> (r: bool)
        ensures
            r == self.is_value(),
    {
        match self {
            Term::Abs(..) => true,
            _ => false,
        }
    }

    /// A deep copy.
    pub fn copy(&self) -> (r: Term)
        ensures
            r == *self,
        decreases self,
    {
        match self {
            Term::Var(k) => Term::Var(*k),
            Term::Abs(x, b) => Term::Abs(x.clone(), Box::new((**b).copy())),
            Term::App(a, b) => Term::App(Box::new((**a).copy()), Box::new((**b).copy())),
        }
    }

    /// The span, or `usize::MAX` where the span does not fit in a `usize`.
    pub fn span_capped(&self) -> (r: usize)
        ensures
            r == if self.span() < usize::MAX {
                self.span()
            } else {
                usize::MAX as nat
            },
        decreases self,
    {
        match self {
            Term::Var(k) => *k,
            Term::Abs(_, b) => {
                let s = (**b).span_capped();
                if s == usize::MAX {
                    s
                } else {
                    s + 1
                }
            },
            Term::App(a, b) => {
                let x = (**a).span_capped();
                let y = (**b).span_capped();
                if x >= y {
                    x
                } else {
                    y
                }
            },
        }
    }

    /// Whether the term has room for a beta step anywhere inside it.
    pub fn has_room(&self) -> (r: bool)
        ensures
            r == self.fits(),
    {
        let s = self.span_capped();
        s < usize::MAX - s
    }
}

} // verus!
