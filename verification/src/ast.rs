//! The abstract syntax of lambda terms, with variables as De Bruijn indices.
//!
//! A variable `Var { idx }` refers to the `idx`-th enclosing binder, counted
//! from zero at the innermost one. The engine works on closed terms only; the
//! surface syntax uses one-based indices, so a shift in each direction is
//! provided.

use vstd::prelude::*;

verus! {

/// A lambda term: a variable by De Bruijn index, an abstraction, or an
/// application.
#[derive(Debug, PartialEq, Eq)]
pub enum Expr {
    Var { idx: u32 },
    Lam { bod: Box<Expr> },
    App { fun: Box<Expr>, arg: Box<Expr> },
}

/// Number of syntax nodes of a term.
pub open spec fn term_size(t: Expr) -> nat
    decreases t,
{
    match t {
        Expr::Var { .. } => 1,
        Expr::Lam { bod } => 1 + term_size(*bod),
        Expr::App { fun, arg } => 1 + term_size(*fun) + term_size(*arg),
    }
}

/// Whether every variable refers to one of the `depth` enclosing binders.
pub open spec fn closed_under(t: Expr, depth: int) -> bool
    decreases t,
{
    match t {
        Expr::Var { idx } => idx < depth,
        Expr::Lam { bod } => closed_under(*bod, depth + 1),
        Expr::App { fun, arg } => closed_under(*fun, depth) && closed_under(*arg, depth),
    }
}

/// Every index is a `u32`, so any depth of at least `0x1_0000_0000` admits
/// every variable: closedness does not distinguish such depths.
proof fn lemma_closed_under_deep(t: Expr, d1: int, d2: int)
    requires
        d1 >= 0x1_0000_0000,
        d2 >= 0x1_0000_0000,
    ensures
        closed_under(t, d1) == closed_under(t, d2),
    decreases t,
{
    match t {
        Expr::Var { idx } => {},
        Expr::Lam { bod } => {
            lemma_closed_under_deep(*bod, d1 + 1, d2 + 1);
        },
        Expr::App { fun, arg } => {
            lemma_closed_under_deep(*fun, d1, d2);
            lemma_closed_under_deep(*arg, d1, d2);
        },
    }
}

/// Whether the term is closed under `depth` enclosing binders. The running
/// depth saturates one step above the largest representable index, which
/// every variable satisfies, so the saturation is invisible in the result.
pub fn term_closed_under(t: &Expr, depth: u64) -> (r: bool)
    requires
        depth <= 0x1_0000_0000,
    ensures
        r == closed_under(*t, depth as int),
    decreases *t,
{
    match t {
        Expr::Var { idx } => (*idx as u64) < depth,
        Expr::Lam { bod } => {
            let deeper: u64 = if depth < 0x1_0000_0000 {
                depth + 1
            } else {
                depth
            };
            let r = term_closed_under(bod, deeper);
            proof {
                if depth == 0x1_0000_0000 {
                    lemma_closed_under_deep(**bod, deeper as int, depth as int + 1);
                }
            }
            r
        },
        Expr::App { fun, arg } => {
            let rf = term_closed_under(fun, depth);
            let ra = term_closed_under(arg, depth);
            rf && ra
        },
    }
}

/// Whether the term is closed: every variable has a binder.
pub fn is_closed(t: &Expr) -> (r: bool)
    ensures
        r == closed_under(*t, 0),
{
    term_closed_under(t, 0)
}

/// Largest term the encoder accepts; see `to_net`.
pub const SIZE_LIMIT: u64 = 0x0400_0000;

/// The number of syntax nodes of the term, counted exactly up to
/// `SIZE_LIMIT` and reported as `SIZE_LIMIT + 1` beyond it.
pub fn term_size_capped(t: &Expr) -> (r: u64)
    ensures
        term_size(*t) <= SIZE_LIMIT ==> r == term_size(*t),
        term_size(*t) > SIZE_LIMIT ==> r == SIZE_LIMIT + 1,
    decreases *t,
{
    match t {
        Expr::Var { .. } => 1,
        Expr::Lam { bod } => {
            let s = term_size_capped(bod);
            if s > SIZE_LIMIT - 1 {
                SIZE_LIMIT + 1
            } else {
                1 + s
            }
        },
        Expr::App { fun, arg } => {
            let sf = term_size_capped(fun);
            let sa = term_size_capped(arg);
            if sf > SIZE_LIMIT || sa > SIZE_LIMIT || sf + sa > SIZE_LIMIT - 1 {
                SIZE_LIMIT + 1
            } else {
                1 + sf + sa
            }
        },
    }
}

/// Spec mirror of `from_one_indexed`: every variable index shifted down by
/// one, structure unchanged; a zero index has no one-based reading.
pub open spec fn dec_indices(t: Expr) -> Option<Expr>
    decreases t,
{
    match t {
        Expr::Var { idx } => if idx == 0 {
            Option::None
        } else {
            Option::Some(Expr::Var { idx: (idx - 1) as u32 })
        },
        Expr::Lam { bod } => match dec_indices(*bod) {
            Option::Some(b) => Option::Some(Expr::Lam { bod: Box::new(b) }),
            Option::None => Option::None,
        },
        Expr::App { fun, arg } => match (dec_indices(*fun), dec_indices(*arg)) {
            (Option::Some(f), Option::Some(a)) => Option::Some(
                Expr::App { fun: Box::new(f), arg: Box::new(a) },
            ),
            _ => Option::None,
        },
    }
}

/// Spec mirror of `to_one_indexed`: every variable index shifted up by one,
/// structure unchanged; the largest representable index cannot be shifted.
pub open spec fn inc_indices(t: Expr) -> Option<Expr>
    decreases t,
{
    match t {
        Expr::Var { idx } => if idx == u32::MAX {
            Option::None
        } else {
            Option::Some(Expr::Var { idx: (idx + 1) as u32 })
        },
        Expr::Lam { bod } => match inc_indices(*bod) {
            Option::Some(b) => Option::Some(Expr::Lam { bod: Box::new(b) }),
            Option::None => Option::None,
        },
        Expr::App { fun, arg } => match (inc_indices(*fun), inc_indices(*arg)) {
            (Option::Some(f), Option::Some(a)) => Option::Some(
                Expr::App { fun: Box::new(f), arg: Box::new(a) },
            ),
            _ => Option::None,
        },
    }
}

/// Whether some variable of the term has index zero.
pub open spec fn has_zero_var(t: Expr) -> bool
    decreases t,
{
    match t {
        Expr::Var { idx } => idx == 0,
        Expr::Lam { bod } => has_zero_var(*bod),
        Expr::App { fun, arg } => has_zero_var(*fun) || has_zero_var(*arg),
    }
}

/// Whether some variable of the term has the largest representable index.
pub open spec fn has_max_var(t: Expr) -> bool
    decreases t,
{
    match t {
        Expr::Var { idx } => idx == u32::MAX,
        Expr::Lam { bod } => has_max_var(*bod),
        Expr::App { fun, arg } => has_max_var(*fun) || has_max_var(*arg),
    }
}

/// Shift every variable index down by one, turning a one-based term into the
/// zero-based form the engine uses. A term with a zero index is not a
/// one-based term and is refused.
pub fn from_one_indexed(t: &Expr) -> (r: Option<Expr>)
    ensures
        r == dec_indices(*t),
        r is Some <==> !has_zero_var(*t),
    decreases *t,
{
    match t {
        Expr::Var { idx } => {
            if *idx == 0 {
                None
            } else {
                Some(Expr::Var { idx: *idx - 1 })
            }
        },
        Expr::Lam { bod } => {
            match from_one_indexed(bod) {
                Some(b) => Some(Expr::Lam { bod: Box::new(b) }),
                None => None,
            }
        },
        Expr::App { fun, arg } => {
            match (from_one_indexed(fun), from_one_indexed(arg)) {
                (Some(f), Some(a)) => Some(
                    Expr::App { fun: Box::new(f), arg: Box::new(a) },
                ),
                _ => None,
            }
        },
    }
}

/// Shift every variable index up by one, turning the engine's zero-based
/// term into the one-based form of the surface syntax. A term already using
/// the largest representable index is refused.
pub fn to_one_indexed(t: &Expr) -> (r: Option<Expr>)
    ensures
        r == inc_indices(*t),
        r is Some <==> !has_max_var(*t),
    decreases *t,
{
    match t {
        Expr::Var { idx } => {
            if *idx == u32::MAX {
                None
            } else {
                Some(Expr::Var { idx: *idx + 1 })
            }
        },
        Expr::Lam { bod } => {
            match to_one_indexed(bod) {
                Some(b) => Some(Expr::Lam { bod: Box::new(b) }),
                None => None,
            }
        },
        Expr::App { fun, arg } => {
            match (to_one_indexed(fun), to_one_indexed(arg)) {
                (Some(f), Some(a)) => Some(
                    Expr::App { fun: Box::new(f), arg: Box::new(a) },
                ),
                _ => None,
            }
        },
    }
}

} // verus!
