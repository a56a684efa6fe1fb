//! The boundary to the surface syntax.
//!
//! Parsing lambda source text and pretty-printing terms are the work of the
//! `lambda_calculus` crate, an external collaborator. Its term type is
//! carried across this boundary by converting it variant for variant into
//! the library's own term, and back; what the parser reads from a text and
//! what the printer writes for a term are pure functions of their inputs,
//! so each has a name (`parsed_of`, `shown_of`) that the library's contracts
//! speak of. The crate's De Bruijn indices are one-based, the engine's
//! zero-based; the verified code checks and shifts the indices itself.

use vstd::prelude::*;

use crate::ast::Expr;

verus! {

/// `lambda_calculus`'s term type, declared so that values of it can be
/// carried through signatures; the library never looks inside one.
#[verifier::external_type_specification]
#[verifier::external_body]
pub struct ExTerm(lambda_calculus::Term);

/// Whether `lambda_calculus::parse` accepts the given text in classic
/// notation; what the parser accepts depends on the text alone.
pub uninterp spec fn parse_ok(s: Seq<char>) -> bool;

/// The term `lambda_calculus::parse` reads from accepted classic text,
/// converted variant for variant; a function of the text alone.
pub uninterp spec fn parsed_of(s: Seq<char>) -> Expr;

/// The classic rendering of a term by `lambda_calculus`'s `Display`, with
/// its generated variable names; a function of the term alone.
pub uninterp spec fn shown_of(t: Expr) -> Seq<char>;

/// Relies on `lambda_calculus::parse` with classic notation: it returns
/// `Ok` exactly on well-formed classic lambda text, rejecting unbound names,
/// and its outcome is a function of the text alone. The parsed term comes
/// back converted through `term_from_ext`; a refusal is rendered through the
/// parse error's own `Display`.
#[verifier::external_body]
pub(crate) fn parse_ext(code: &str) -> (r: Result<Expr, String>)
    ensures
        r is Ok <==> parse_ok(code@),
        r is Ok ==> r->Ok_0 == parsed_of(code@),
{
    match lambda_calculus::parse(code, lambda_calculus::Classic) {
        Ok(t) => Ok(term_from_ext(&t)),
        Err(e) => Err(format!("{}", e)),
    }
}

/// Conversion half of `parse_ext`. Relies on the shape of
/// `lambda_calculus::Term` alone: each variant is moved, field for field,
/// onto the library's own constructor of the same meaning, the one-based
/// variable indices carried over unchanged. An index beyond the 32-bit range
/// cannot occur: it would need more enclosing binders than any input could
/// hold.
#[verifier::external_body]
fn term_from_ext(t: &lambda_calculus::Term) -> Expr {
    match t {
        lambda_calculus::Term::Var(i) => Expr::Var { idx: *i as u32 },
        lambda_calculus::Term::Abs(b) => Expr::Lam { bod: Box::new(term_from_ext(b)) },
        lambda_calculus::Term::App(p) => Expr::App {
            fun: Box::new(term_from_ext(&p.0)),
            arg: Box::new(term_from_ext(&p.1)),
        },
    }
}

/// Relies on `lambda_calculus`'s `Display` for its term type: classic
/// notation with variable names generated from the term alone, applied to
/// the term converted back through `term_to_ext`.
#[verifier::external_body]
pub(crate) fn show_ext(t: &Expr) -> (r: String)
    ensures
        r@ == shown_of(*t),
{
    format!("{}", term_to_ext(t))
}

/// Conversion half of `show_ext`. Relies on the shape of
/// `lambda_calculus::Term` alone: the inverse of `term_from_ext`, built
/// through the crate's `abs` and `app` constructors, indices again carried
/// over unchanged.
#[verifier::external_body]
fn term_to_ext(t: &Expr) -> lambda_calculus::Term {
    match t {
        Expr::Var { idx } => lambda_calculus::Term::Var(*idx as usize),
        Expr::Lam { bod } => lambda_calculus::abs(term_to_ext(bod)),
        Expr::App { fun, arg } => lambda_calculus::app(
            term_to_ext(fun),
            term_to_ext(arg),
        ),
    }
}

} // verus!
