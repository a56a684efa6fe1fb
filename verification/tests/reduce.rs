//! End-to-end reduction scenarios through the surface syntax, and the
//! boundary behaviours of the whole pipeline.

use lamnet::reduce;

fn out(src: &str) -> String {
    reduce(src).expect("the program should reduce").1
}

#[test]
fn identity_applied_to_identity() {
    assert_eq!(out("(λx.x) (λy.y)"), "λa.a");
}

#[test]
fn constant_combinator_selects_its_first_argument() {
    assert_eq!(out("(λx.λy.x) (λu.λv.u) (λu.λv.v)"), "λa.λb.a");
}

#[test]
fn self_application_of_identity() {
    assert_eq!(out("(λx.x x) (λy.y)"), "λa.a");
}

#[test]
fn church_two_applied_to_successor_and_zero() {
    assert_eq!(out("(λf.λx.f (f x)) (λn.λf.λx.f (n f x)) (λf.λx.x)"), "λa.λb.a (a b)");
}

#[test]
fn argument_swap_leaves_the_argument_under_the_binder() {
    assert_eq!(out("(λx.λy.y x) (λz.z)"), "λa.a (λb.b)");
}

#[test]
fn triple_self_application_of_identity() {
    assert_eq!(out("(λx.x x x) (λy.y)"), "λa.a");
}

#[test]
fn skk_applied_to_identity_gives_identity() {
    assert_eq!(out("(λa.λb.λc.a c (b c)) (λa.λb.a) (λa.λb.a) (λz.z)"), "λa.a");
}

#[test]
fn reducing_a_normal_term_reproduces_it() {
    let (stats, shown) = reduce("λf.λx.f (f x)").expect("a normal term reduces");
    assert_eq!(shown, "λa.λb.a (a b)");
    assert!(stats.loops > 0);
    assert!(stats.rules <= stats.loops);
    assert_eq!((stats.betas, stats.dupls, stats.annis), (0, 0, 0));
}

#[test]
fn reduction_is_idempotent_on_its_output() {
    let once = out("(λx.x) (λy.λz.z y)");
    assert_eq!(out(&once), once);
}

#[test]
fn a_free_variable_is_rejected_by_the_parser() {
    let err = reduce("x").unwrap_err();
    assert!(err.contains("free variable"), "unexpected error: {}", err);
}

#[test]
fn ill_formed_text_is_rejected() {
    assert!(reduce("((").is_err());
}

#[test]
fn empty_text_is_rejected() {
    assert!(reduce("").is_err());
}

#[test]
fn backslash_stands_for_lambda_too() {
    assert_eq!(out(r"(\x.x) (\y.y)"), "λa.a");
}
