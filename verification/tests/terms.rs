//! Unit tests of the term model, the encoder, the decoder and the bounded
//! walker, working on the engine's own abstract syntax.

use lamnet::ast::{
    from_one_indexed, is_closed, term_size_capped, to_one_indexed, Expr, SIZE_LIMIT,
};
use lamnet::decode::from_net;
use lamnet::encode::to_net;
use lamnet::net::{enter, node, port, wf_check};
use lamnet::walker::{reduce, reduce_bounded};

fn var(i: u32) -> Expr {
    Expr::Var { idx: i }
}

fn lam(b: Expr) -> Expr {
    Expr::Lam { bod: Box::new(b) }
}

fn app(f: Expr, a: Expr) -> Expr {
    Expr::App { fun: Box::new(f), arg: Box::new(a) }
}

#[test]
fn closedness_follows_the_binders() {
    assert!(is_closed(&lam(var(0))));
    assert!(is_closed(&lam(lam(app(var(0), var(1))))));
    assert!(!is_closed(&var(0)));
    assert!(!is_closed(&lam(var(1))));
}

#[test]
fn term_size_counts_syntax_nodes() {
    assert_eq!(term_size_capped(&var(0)), 1);
    assert_eq!(term_size_capped(&lam(var(0))), 2);
    assert_eq!(term_size_capped(&lam(lam(app(var(0), var(1))))), 5);
    assert!(SIZE_LIMIT > 0);
}

#[test]
fn index_shifts_are_inverse_to_each_other() {
    let one_based = lam(lam(app(var(1), var(2))));
    let zero_based = from_one_indexed(&one_based).expect("indices are one-based");
    assert_eq!(zero_based, lam(lam(app(var(0), var(1)))));
    assert_eq!(to_one_indexed(&zero_based), Some(one_based));
}

#[test]
fn a_zero_index_is_not_one_based() {
    assert_eq!(from_one_indexed(&lam(var(0))), None);
}

#[test]
fn decode_reads_back_what_encode_built() {
    let term = lam(lam(app(var(0), var(1))));
    let net = to_net(&term);
    assert!(wf_check(&net));
    assert_eq!(from_net(&net), Some(term));
}

#[test]
fn encode_reduce_decode_runs_a_beta_step() {
    let term = app(lam(var(0)), lam(var(0)));
    let mut net = to_net(&term);
    let stats = reduce(&mut net);
    assert!(stats.rules > 0);
    assert_eq!(from_net(&net), Some(lam(var(0))));
}

#[test]
fn the_encoded_net_links_the_root_both_ways() {
    let net = to_net(&lam(var(0)));
    let body = enter(&net, port(0, 0));
    assert_eq!(enter(&net, body), port(0, 0));
    assert_eq!(enter(&net, port(0, 1)), port(0, 1));
    assert_eq!(enter(&net, port(0, 2)), port(0, 2));
    assert!(net.reuse.is_empty());
}

#[test]
fn a_bare_root_decodes_to_nothing() {
    let net = lamnet::net::Net { nodes: vec![0, 1, 2, 0], reuse: vec![] };
    assert_eq!(from_net(&net), None);
}

#[test]
fn wf_check_rejects_an_out_of_range_cell() {
    let mut net = lamnet::net::Net { nodes: vec![0, 1, 2, 0], reuse: vec![] };
    assert!(wf_check(&net));
    net.nodes[0] = 99;
    assert!(!wf_check(&net));
}

#[test]
fn reduce_with_no_budget_changes_nothing() {
    let term = app(lam(var(0)), lam(var(0)));
    let mut net = to_net(&term);
    let before = net.nodes.clone();
    let stats = reduce_bounded(&mut net, 0);
    assert_eq!(stats.loops, 0);
    assert_eq!(stats.rules, 0);
    assert_eq!(net.nodes, before);
}

/// Self-application has no normal form: the walker must still be busy after
/// any budget, and the store must stay intact — every cell reachable from
/// the root keeps its link symmetry, and no freed slot is reachable.
#[test]
fn self_application_never_corrupts_the_store() {
    let omega = app(lam(app(var(0), var(0))), lam(app(var(0), var(0))));
    let mut net = to_net(&omega);
    let stats = reduce_bounded(&mut net, 10_000);
    assert_eq!(stats.loops, 10_000);
    assert!(wf_check(&net));

    let mut seen = vec![false; net.nodes.len() / 4];
    let mut stack = vec![0u32];
    seen[0] = true;
    while let Some(n) = stack.pop() {
        for s in 0..3u32 {
            let p = port(n, s);
            let q = enter(&net, p);
            assert_eq!(enter(&net, q), p, "link symmetry broken at port {}", p);
            let m = node(q);
            if !seen[m as usize] {
                seen[m as usize] = true;
                stack.push(m);
            }
        }
    }
    for &r in &net.reuse {
        assert!(!seen[r as usize], "freed node {} is reachable from a live port", r);
    }
}
