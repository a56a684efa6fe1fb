//! Unit tests of the net memory and the interaction rules.

use lamnet::net::{
    enter, kind, link, meta, new_node, node, port, set_meta, slot, wf_check, Net,
};
use lamnet::rules::rewrite;

fn fresh_net() -> Net {
    Net { nodes: vec![0, 1, 2, 0], reuse: vec![] }
}

#[test]
fn port_packing_round_trips() {
    for n in [0u32, 1, 5, 1000, 0x0FFF_FFFF] {
        for s in 0..4u32 {
            let p = port(n, s);
            assert_eq!(node(p), n);
            assert_eq!(slot(p), s);
            assert_eq!(p, 4 * n + s);
        }
    }
}

#[test]
fn the_initial_net_is_well_formed() {
    assert!(wf_check(&fresh_net()));
}

#[test]
fn new_node_initializes_self_loops_and_kind() {
    let mut net = fresh_net();
    let n = new_node(&mut net, 7);
    assert_eq!(n, 1);
    assert_eq!(net.nodes.len(), 8);
    assert_eq!(enter(&net, port(n, 0)), port(n, 0));
    assert_eq!(enter(&net, port(n, 1)), port(n, 1));
    assert_eq!(enter(&net, port(n, 2)), port(n, 2));
    assert_eq!(kind(&net, n), 7);
    assert_eq!(meta(&net, n), 0);
    assert!(wf_check(&net));
}

#[test]
fn new_node_pops_the_free_list() {
    let mut net = fresh_net();
    let a = new_node(&mut net, 1);
    net.reuse.push(a);
    let b = new_node(&mut net, 2);
    assert_eq!(b, a);
    assert_eq!(net.nodes.len(), 8);
    assert!(net.reuse.is_empty());
    assert_eq!(kind(&net, b), 2);
}

#[test]
fn link_is_symmetric() {
    let mut net = fresh_net();
    let a = new_node(&mut net, 1);
    let b = new_node(&mut net, 1);
    link(&mut net, port(a, 1), port(b, 2));
    assert_eq!(enter(&net, port(a, 1)), port(b, 2));
    assert_eq!(enter(&net, port(b, 2)), port(a, 1));
}

#[test]
fn set_meta_preserves_the_kind() {
    let mut net = fresh_net();
    let n = new_node(&mut net, 9);
    set_meta(&mut net, n, 2);
    assert_eq!(kind(&net, n), 9);
    assert_eq!(meta(&net, n), 2);
    set_meta(&mut net, n, 1);
    assert_eq!(kind(&net, n), 9);
    assert_eq!(meta(&net, n), 1);
}

/// Two nodes of the same kind whose auxiliary ports are held by two observer
/// nodes: the pair must vanish onto the free list and the observers must be
/// spliced to each other.
#[test]
fn annihilation_splices_neighbours_and_frees_the_pair() {
    let mut net = fresh_net();
    let x = new_node(&mut net, 2);
    let y = new_node(&mut net, 2);
    let m = new_node(&mut net, 1);
    let n = new_node(&mut net, 1);
    link(&mut net, port(x, 0), port(y, 0));
    link(&mut net, port(x, 1), port(m, 0));
    link(&mut net, port(x, 2), port(m, 1));
    link(&mut net, port(y, 1), port(n, 0));
    link(&mut net, port(y, 2), port(n, 1));
    let cells_before = net.nodes.len();

    rewrite(&mut net, x, y);

    assert_eq!(net.nodes.len(), cells_before);
    assert_eq!(net.reuse, vec![x, y]);
    assert_eq!(enter(&net, port(m, 0)), port(n, 0));
    assert_eq!(enter(&net, port(n, 0)), port(m, 0));
    assert_eq!(enter(&net, port(m, 1)), port(n, 1));
    assert_eq!(enter(&net, port(n, 1)), port(m, 1));
    assert_eq!(kind(&net, m), 1);
    assert_eq!(kind(&net, n), 1);
    assert!(wf_check(&net));
}

/// Two nodes of different kinds with four observer ports: the pair must
/// commute, growing the store by exactly two nodes wired in the crossed
/// configuration.
#[test]
fn commutation_allocates_two_nodes_in_the_crossed_wiring() {
    let mut net = fresh_net();
    let x = new_node(&mut net, 1);
    let y = new_node(&mut net, 2);
    let m = new_node(&mut net, 3);
    let n = new_node(&mut net, 3);
    link(&mut net, port(x, 0), port(y, 0));
    link(&mut net, port(x, 1), port(m, 0));
    link(&mut net, port(x, 2), port(m, 1));
    link(&mut net, port(y, 1), port(n, 0));
    link(&mut net, port(y, 2), port(n, 1));
    let cells_before = net.nodes.len();

    rewrite(&mut net, x, y);

    assert_eq!(net.nodes.len(), cells_before + 8);
    let a = node(enter(&net, port(n, 0)));
    let b = node(enter(&net, port(m, 0)));
    assert_eq!(kind(&net, a), 1);
    assert_eq!(kind(&net, b), 2);
    assert_eq!(enter(&net, port(b, 0)), port(m, 0));
    assert_eq!(enter(&net, port(y, 0)), port(m, 1));
    assert_eq!(enter(&net, port(a, 0)), port(n, 0));
    assert_eq!(enter(&net, port(x, 0)), port(n, 1));
    assert_eq!(enter(&net, port(a, 1)), port(b, 1));
    assert_eq!(enter(&net, port(a, 2)), port(y, 1));
    assert_eq!(enter(&net, port(x, 1)), port(b, 2));
    assert_eq!(enter(&net, port(x, 2)), port(y, 2));
    assert_eq!(meta(&net, x), 0);
    assert_eq!(meta(&net, y), 0);
    assert_eq!(kind(&net, x), 1);
    assert_eq!(kind(&net, y), 2);
    assert!(wf_check(&net));
}
