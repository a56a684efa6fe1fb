//! The encoder: translating a closed lambda term into a net.
//!
//! Each application and each abstraction becomes a kind-1 combinator node; a
//! variable used once links straight to its binder's first auxiliary port,
//! and every further use goes through a fresh duplicator family, so equal
//! duplicator kinds never meet across different variables.

use vstd::prelude::*;

use crate::net::{
    alloc_spec, enter, is_wf, kind, kind_of, link, linked, meta_of, new_node, node, node_count,
    port, pt, wf_cells, Net, CELL_LIMIT,
};
use crate::ast::{closed_under, term_size, Expr, SIZE_LIMIT};

verus! {

/// While encoding, the reserved root node is untouched: its principal port
/// and both auxiliaries are self-references, its metadata cell is clear, and
/// no other port cell points into it.
pub open spec fn root_untouched(s: Seq<u32>) -> bool {
    &&& s.len() >= 4
    &&& s[0] == 0 && s[1] == 1 && s[2] == 2 && s[3] == 0
    &&& forall|p: int| 4 <= p < s.len() && p % 4 != 3 ==> (#[trigger] s[p]) >= 4
}

/// Linking two ports that lie beyond the root keeps the root untouched.
proof fn lemma_link_root_untouched(s: Seq<u32>, a: u32, b: u32)
    requires
        root_untouched(s),
        4 <= a < s.len(),
        4 <= b < s.len(),
        a % 4 != 3,
        b % 4 != 3,
    ensures
        root_untouched(linked(s, a, b)),
{
    let t = linked(s, a, b);
    assert forall|p: int| 4 <= p < t.len() && p % 4 != 3 implies (#[trigger] t[p]) >= 4 by {
        if p != a && p != b {
            assert(t[p] == s[p]);
        }
    }
}

/// Allocating with an empty free list grows the array by a fresh self-looped
/// node beyond the root, keeping the root untouched.
proof fn lemma_alloc_root_untouched(s: Seq<u32>, r: Seq<u32>, k: u32)
    requires
        root_untouched(s),
        wf_cells(s),
        r.len() == 0,
        s.len() + 4 <= CELL_LIMIT,
        k < 0x4000_0000,
    ensures
        root_untouched(alloc_spec(s, r, k).nodes),
{
    crate::rules::lemma_alloc_wf(s, r, k);
    let al = alloc_spec(s, r, k);
    let n = al.node;
    assert(n == s.len() as int / 4 && 1 <= n);
    assert forall|p: int|
        4 <= p < al.nodes.len() && p % 4 != 3 implies (#[trigger] al.nodes[p]) >= 4 by {
        if 4 * n <= p < 4 * n + 4 {
            assert(al.nodes[p] == p);
        } else {
            assert(al.nodes[p] == s[p]);
        }
    }
    assert(al.nodes[0] == s[0] && al.nodes[1] == s[1] && al.nodes[2] == s[2] && al.nodes[3]
        == s[3]);
}

/// The outcome of encoding one subterm: the cell array, the last duplicator
/// family handed out, and the port that stands for the subterm's output.
pub ghost struct Encoded {
    pub nodes: Seq<u32>,
    pub fresh_kind: u32,
    pub port: u32,
}

/// Spec-level mirror of the encoder on a store whose free list is empty:
/// exactly what `encode` does, case by case.
pub open spec fn encode_spec(s: Seq<u32>, k: u32, scope: Seq<u32>, t: Expr) -> Encoded
    decreases t,
{
    match t {
        Expr::App { fun, arg } => {
            let al = alloc_spec(s, Seq::<u32>::empty(), 1);
            let app = al.node;
            let ef = encode_spec(al.nodes, k, scope, *fun);
            let s1 = linked(ef.nodes, pt(app, 0), ef.port);
            let ea = encode_spec(s1, ef.fresh_kind, scope, *arg);
            let s2 = linked(ea.nodes, pt(app, 1), ea.port);
            Encoded { nodes: s2, fresh_kind: ea.fresh_kind, port: pt(app, 2) }
        },
        Expr::Lam { bod } => {
            let alf = alloc_spec(s, Seq::<u32>::empty(), 1);
            let fun = alf.node;
            let ale = alloc_spec(alf.nodes, Seq::<u32>::empty(), 0);
            let era = ale.node;
            let s1 = linked(ale.nodes, pt(fun, 1), pt(era, 0));
            let s2 = linked(s1, pt(era, 1), pt(era, 2));
            let eb = encode_spec(s2, k, scope.push(fun), *bod);
            let s3 = linked(eb.nodes, pt(fun, 2), eb.port);
            Encoded { nodes: s3, fresh_kind: eb.fresh_kind, port: pt(fun, 0) }
        },
        Expr::Var { idx } => {
            let lam = scope[scope.len() - 1 - idx as int];
            let occ = s[4 * lam as int + 1];
            if s[4 * (occ as int / 4) + 3] as int / 4 == 0 {
                Encoded { nodes: s, fresh_kind: k, port: pt(lam, 1) }
            } else {
                let k1 = (k + 1) as u32;
                let al = alloc_spec(s, Seq::<u32>::empty(), k1);
                let dup = al.node;
                let arg = al.nodes[4 * lam as int + 1];
                let s1 = linked(al.nodes, pt(dup, 1), arg);
                let s2 = linked(s1, pt(dup, 0), pt(lam, 1));
                Encoded { nodes: s2, fresh_kind: k1, port: pt(dup, 2) }
            }
        },
    }
}

/// Encode `term` into `net`, returning the port that stands for the term's
/// output, which the caller links into place. `scope` holds the node of each
/// enclosing abstraction, outermost first; `fresh_kind` is the last duplicator
/// family handed out.
fn encode(net: &mut Net, fresh_kind: &mut u32, scope: &mut Vec<u32>, term: &Expr) -> (p: u32)
    requires
        is_wf(*old(net)),
        root_untouched(old(net).nodes@),
        old(net).reuse@.len() == 0,
        closed_under(*term, old(scope)@.len() as int),
        forall|i: int|
            0 <= i < old(scope)@.len() ==> 1 <= (#[trigger] old(scope)@[i]) < node_count(
                *old(net),
            ),
        old(net).nodes@.len() + 8 * term_size(*term) <= CELL_LIMIT,
        *old(fresh_kind) + term_size(*term) < 0x4000_0000,
    ensures
        is_wf(*final(net)),
        root_untouched(final(net).nodes@),
        final(net).reuse@.len() == 0,
        final(scope)@ == old(scope)@,
        old(net).nodes@.len() <= final(net).nodes@.len() <= old(net).nodes@.len() + 8 * term_size(
            *term,
        ),
        *old(fresh_kind) <= *final(fresh_kind) <= *old(fresh_kind) + term_size(*term),
        4 <= p < final(net).nodes@.len() && p % 4 != 3,
        final(net).nodes@ == encode_spec(
            old(net).nodes@,
            *old(fresh_kind),
            old(scope)@,
            *term,
        ).nodes,
        *final(fresh_kind) == encode_spec(
            old(net).nodes@,
            *old(fresh_kind),
            old(scope)@,
            *term,
        ).fresh_kind,
        p == encode_spec(old(net).nodes@, *old(fresh_kind), old(scope)@, *term).port,
    decreases *term,
{
    proof {
        assert(old(net).reuse@ =~= Seq::<u32>::empty());
    }
    match term {
        Expr::App { fun, arg } => {
            let ghost e = encode_spec(old(net).nodes@, *old(fresh_kind), old(scope)@, *term);
            let app = new_node(net, 1);
            proof {
                lemma_alloc_root_untouched(old(net).nodes@, old(net).reuse@, 1);
                let al = alloc_spec(old(net).nodes@, Seq::<u32>::empty(), 1);
                assert(net.nodes@ == al.nodes && app == al.node);
            }
            let fun_p = encode(net, fresh_kind, scope, fun);
            let ghost s2 = net.nodes@;
            let pa0 = port(app, 0);
            link(net, pa0, fun_p);
            proof {
                lemma_link_root_untouched(s2, pa0, fun_p);
                assert(pa0 == pt(app, 0));
                assert(net.nodes@ == linked(s2, pt(app, 0), fun_p));
            }
            let arg_p = encode(net, fresh_kind, scope, arg);
            let ghost s4 = net.nodes@;
            let pa1 = port(app, 1);
            link(net, pa1, arg_p);
            let res = port(app, 2);
            proof {
                lemma_link_root_untouched(s4, pa1, arg_p);
                assert(pa1 == pt(app, 1) && res == pt(app, 2));
                assert(net.nodes@ == e.nodes && *fresh_kind == e.fresh_kind && res == e.port);
            }
            res
        },
        Expr::Lam { bod } => {
            let ghost e = encode_spec(old(net).nodes@, *old(fresh_kind), old(scope)@, *term);
            let fun = new_node(net, 1);
            proof {
                lemma_alloc_root_untouched(old(net).nodes@, old(net).reuse@, 1);
                let alf = alloc_spec(old(net).nodes@, Seq::<u32>::empty(), 1);
                assert(net.nodes@ == alf.nodes && fun == alf.node);
            }
            let ghost s1 = net.nodes@;
            let ghost r1 = net.reuse@;
            let era = new_node(net, 0);
            proof {
                lemma_alloc_root_untouched(s1, r1, 0);
                let ale = alloc_spec(s1, Seq::<u32>::empty(), 0);
                assert(net.nodes@ == ale.nodes && era == ale.node);
            }
            let ghost s2 = net.nodes@;
            let pf1 = port(fun, 1);
            let pe0 = port(era, 0);
            link(net, pf1, pe0);
            proof {
                lemma_link_root_untouched(s2, pf1, pe0);
                assert(net.nodes@ == linked(s2, pt(fun, 1), pt(era, 0)));
            }
            let ghost s3 = net.nodes@;
            let pe1 = port(era, 1);
            let pe2 = port(era, 2);
            link(net, pe1, pe2);
            proof {
                lemma_link_root_untouched(s3, pe1, pe2);
                assert(net.nodes@ == linked(s3, pt(era, 1), pt(era, 2)));
            }
            scope.push(fun);
            proof {
                assert(scope@ == old(scope)@.push(fun));
            }
            let bod_p = encode(net, fresh_kind, scope, bod);
            scope.pop();
            let ghost s4 = net.nodes@;
            let pf2 = port(fun, 2);
            link(net, pf2, bod_p);
            let res = port(fun, 0);
            proof {
                lemma_link_root_untouched(s4, pf2, bod_p);
                assert(scope@ == old(scope)@);
                assert(net.nodes@ == linked(s4, pt(fun, 2), bod_p));
                assert(net.nodes@ == e.nodes && *fresh_kind == e.fresh_kind && res == e.port);
            }
            res
        },
        Expr::Var { idx } => {
            let ghost e = encode_spec(old(net).nodes@, *old(fresh_kind), old(scope)@, *term);
            let lam = scope[scope.len() - 1 - (*idx as usize)];
            let occupant = enter(net, port(lam, 1));
            if kind(net, node(occupant)) == 0 {
                let res = port(lam, 1);
                proof {
                    assert(net.nodes@ == e.nodes && *fresh_kind == e.fresh_kind && res == e.port);
                }
                res
            } else {
                *fresh_kind = *fresh_kind + 1;
                let dup = new_node(net, *fresh_kind);
                proof {
                    lemma_alloc_root_untouched(old(net).nodes@, old(net).reuse@, *fresh_kind);
                    let al = alloc_spec(old(net).nodes@, Seq::<u32>::empty(), *fresh_kind);
                    assert(net.nodes@ == al.nodes && dup == al.node);
                }
                let arg = enter(net, port(lam, 1));
                proof {
                    assert(arg >= 4);
                }
                let ghost s1 = net.nodes@;
                let pd1 = port(dup, 1);
                link(net, pd1, arg);
                proof {
                    lemma_link_root_untouched(s1, pd1, arg);
                    assert(net.nodes@ == linked(s1, pt(dup, 1), arg));
                }
                let ghost s2 = net.nodes@;
                let pd0 = port(dup, 0);
                let pl1 = port(lam, 1);
                link(net, pd0, pl1);
                let res = port(dup, 2);
                proof {
                    lemma_link_root_untouched(s2, pd0, pl1);
                    assert(net.nodes@ == linked(s2, pt(dup, 0), pt(lam, 1)));
                    assert(net.nodes@ == e.nodes && *fresh_kind == e.fresh_kind && res == e.port);
                }
                res
            }
        },
    }
}

/// Build the net of a closed lambda term. Node 0 is the reserved root
/// container: after encoding, its principal port holds the port of the
/// program's body, linked back symmetrically, and its auxiliary ports are
/// self-references. The root is an eraser-kind node with a clear breadcrumb,
/// and nothing has been freed yet.
pub fn to_net(term: &Expr) -> (net: Net)
    requires
        closed_under(*term, 0),
        term_size(*term) <= SIZE_LIMIT,
    ensures
        is_wf(net),
        net.reuse@.len() == 0,
        4 <= net.nodes@[0] < net.nodes@.len(),
        net.nodes@[net.nodes@[0] as int] == 0,
        net.nodes@[1] == 1,
        net.nodes@[2] == 2,
        kind_of(net, 0) == 0,
        meta_of(net, 0) == 0,
        ({
            let e = encode_spec(seq![0u32, 1u32, 2u32, 0u32], 1, Seq::<u32>::empty(), *term);
            net.nodes@ == linked(e.nodes, 0, e.port)
        }),
{
    let mut net: Net = Net { nodes: vec![0u32, 1u32, 2u32, 0u32], reuse: vec![] };
    let mut fresh_kind: u32 = 1;
    let mut scope: Vec<u32> = Vec::new();
    proof {
        assert(net.nodes@ =~= seq![0u32, 1u32, 2u32, 0u32]);
        assert forall|p: int|
            0 <= p < net.nodes@.len() && p % 4 != 3 implies (#[trigger] net.nodes@[p])
            < net.nodes@.len() && net.nodes@[p] % 4 != 3 by {
            assert(net.nodes@[0] == 0 && net.nodes@[1] == 1 && net.nodes@[2] == 2);
        }
        assert(net.nodes@[3] == 0);
        assert forall|n: int|
            0 <= n < net.nodes@.len() as int / 4 implies #[trigger] net.nodes@[4 * n
            + 3] as int % 4 <= 2 by {
            assert(n == 0);
        }
        assert(is_wf(net));
        assert(root_untouched(net.nodes@));
    }
    let ptr: u32 = encode(&mut net, &mut fresh_kind, &mut scope, term);
    let ghost s = net.nodes@;
    link(&mut net, 0, ptr);
    proof {
        assert(net.nodes@ == linked(s, 0, ptr));
        assert(net.nodes@[0] == ptr && net.nodes@[ptr as int] == 0);
        assert(net.nodes@[1] == s[1] && net.nodes@[2] == s[2] && net.nodes@[3] == s[3]);
    }
    net
}

} // verus!
