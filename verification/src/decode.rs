//! The decoder: reading a lambda term back out of a reduced net.
//!
//! Starting from the root's principal port, kind-1 nodes are interpreted as
//! abstractions, variables or applications according to the port through
//! which they are entered; any other node left in the net is passed through,
//! an exit stack remembering which auxiliary port to take on the way back.
//! The walk is read-only on the graph; a per-node depth map records the
//! binder depth at which each abstraction was entered.

use vstd::prelude::*;

use crate::net::{enter, is_wf, kind, node, node_count, port, pt, slot, Net};
use crate::ast::{closed_under, Expr};

verus! {

/// Step budget of the readback walk. A step descends one recursion level,
/// so the budget also caps the stack the walk may use: sixteen million
/// levels is as much as a generous stack survives, and a decoded term of
/// that many syntax nodes is already beyond anything the printer or a
/// caller could usefully take, so a larger budget would only trade the
/// graceful `None` for resource exhaustion. A walk that overruns it is
/// reported as `None`, never misread; a malformed or cyclic net is likewise
/// reported instead of looping.
pub const DECODE_FUEL: u32 = 0x0100_0000;

/// A step of the readback: the term built so far and the depth map as the
/// walk left it.
pub ghost struct Decoded {
    pub term: Expr,
    pub depths: Seq<u32>,
}

/// Spec-level mirror of the readback walk from port `next` at binder depth
/// `depth`, with depth map `dm` and exit stack `exit`. `None` means the walk
/// would fall off the budget, revisit a binder out of order, or exceed the
/// representable depth: nothing a net built and reduced by this engine
/// produces.
pub open spec fn decode_spec(
    s: Seq<u32>,
    dm: Seq<u32>,
    next: u32,
    exit: Seq<u32>,
    depth: u32,
    fuel: nat,
) -> Option<Decoded>
    decreases fuel,
{
    if fuel == 0 {
        None
    } else {
        let prev = s[next as int];
        let pn = (prev as int / 4) as u32;
        let psl = prev as int % 4;
        if s[4 * pn as int + 3] as int / 4 == 1 {
            if psl == 0 {
                if depth == u32::MAX {
                    None
                } else {
                    match decode_spec(
                        s,
                        dm.update(pn as int, depth),
                        pt(pn, 2),
                        exit,
                        (depth + 1) as u32,
                        (fuel - 1) as nat,
                    ) {
                        Some(d) => Some(
                            Decoded { term: Expr::Lam { bod: Box::new(d.term) }, depths: d.depths },
                        ),
                        None => None,
                    }
                }
            } else if psl == 1 {
                if dm[pn as int] < depth {
                    Some(
                        Decoded {
                            term: Expr::Var { idx: (depth - dm[pn as int] - 1) as u32 },
                            depths: dm,
                        },
                    )
                } else {
                    None
                }
            } else {
                match decode_spec(s, dm, pt(pn, 0), exit, depth, (fuel - 1) as nat) {
                    Some(df) => match decode_spec(
                        s,
                        df.depths,
                        pt(pn, 1),
                        exit,
                        depth,
                        (fuel - 1) as nat,
                    ) {
                        Some(da) => Some(
                            Decoded {
                                term: Expr::App {
                                    fun: Box::new(df.term),
                                    arg: Box::new(da.term),
                                },
                                depths: da.depths,
                            },
                        ),
                        None => None,
                    },
                    None => None,
                }
            }
        } else {
            if psl > 0 {
                decode_spec(s, dm, pt(pn, 0), exit.push(psl as u32), depth, (fuel - 1) as nat)
            } else {
                if exit.len() == 0 {
                    None
                } else {
                    decode_spec(
                        s,
                        dm,
                        pt(pn, exit.last()),
                        exit.drop_last(),
                        depth,
                        (fuel - 1) as nat,
                    )
                }
            }
        }
    }
}

/// Whatever the readback walk returns is closed under the depth it was read
/// at: a variable is emitted only strictly below the depth of its binder's
/// entry, so no free index can escape.
pub proof fn lemma_decode_closed(
    s: Seq<u32>,
    dm: Seq<u32>,
    next: u32,
    exit: Seq<u32>,
    depth: u32,
    fuel: nat,
)
    requires
        decode_spec(s, dm, next, exit, depth, fuel) is Some,
    ensures
        closed_under(decode_spec(s, dm, next, exit, depth, fuel)->Some_0.term, depth as int),
    decreases fuel,
{
    let prev = s[next as int];
    let pn = (prev as int / 4) as u32;
    let psl = prev as int % 4;
    if s[4 * pn as int + 3] as int / 4 == 1 {
        if psl == 0 {
            lemma_decode_closed(
                s,
                dm.update(pn as int, depth),
                pt(pn, 2),
                exit,
                (depth + 1) as u32,
                (fuel - 1) as nat,
            );
        } else if psl == 1 {
        } else {
            lemma_decode_closed(s, dm, pt(pn, 0), exit, depth, (fuel - 1) as nat);
            let df = decode_spec(s, dm, pt(pn, 0), exit, depth, (fuel - 1) as nat)->Some_0;
            lemma_decode_closed(s, df.depths, pt(pn, 1), exit, depth, (fuel - 1) as nat);
        }
    } else {
        if psl > 0 {
            lemma_decode_closed(s, dm, pt(pn, 0), exit.push(psl as u32), depth, (fuel - 1) as nat);
        } else {
            lemma_decode_closed(
                s,
                dm,
                pt(pn, exit.last()),
                exit.drop_last(),
                depth,
                (fuel - 1) as nat,
            );
        }
    }
}

/// One step of the readback walk; mirrors `decode_spec` exactly, mutating
/// the depth map in place and restoring the exit stack before returning.
fn go(
    net: &Net,
    node_depth: &mut Vec<u32>,
    next: u32,
    exit: &mut Vec<u32>,
    depth: u32,
    fuel: u32,
) -> (r: Option<Expr>)
    requires
        is_wf(*net),
        next < net.nodes@.len() && next % 4 != 3,
        old(node_depth)@.len() == node_count(*net),
        forall|i: int|
            0 <= i < old(exit)@.len() ==> (#[trigger] old(exit)@[i]) == 1 || old(exit)@[i] == 2,
    ensures
        final(exit)@ == old(exit)@,
        final(node_depth)@.len() == node_count(*net),
        ({
            let d = decode_spec(
                net.nodes@,
                old(node_depth)@,
                next,
                old(exit)@,
                depth,
                fuel as nat,
            );
            &&& (r is Some <==> d is Some)
            &&& r is Some ==> r->Some_0 == d->Some_0.term && final(node_depth)@
                == d->Some_0.depths
        }),
    decreases fuel,
{
    if fuel == 0 {
        return None;
    }
    let prev = enter(net, next);
    let pn = node(prev);
    let psl = slot(prev);
    if kind(net, pn) == 1 {
        if psl == 0 {
            if depth == u32::MAX {
                return None;
            }
            node_depth[pn as usize] = depth;
            match go(net, node_depth, port(pn, 2), exit, depth + 1, fuel - 1) {
                Some(bod) => Some(Expr::Lam { bod: Box::new(bod) }),
                None => None,
            }
        } else if psl == 1 {
            if node_depth[pn as usize] < depth {
                Some(Expr::Var { idx: depth - node_depth[pn as usize] - 1 })
            } else {
                None
            }
        } else {
            match go(net, node_depth, port(pn, 0), exit, depth, fuel - 1) {
                Some(fun) => match go(net, node_depth, port(pn, 1), exit, depth, fuel - 1) {
                    Some(arg) => Some(Expr::App { fun: Box::new(fun), arg: Box::new(arg) }),
                    None => None,
                },
                None => None,
            }
        }
    } else {
        if psl > 0 {
            exit.push(psl);
            let r = go(net, node_depth, port(pn, 0), exit, depth, fuel - 1);
            exit.pop();
            proof {
                assert(exit@ =~= old(exit)@);
            }
            r
        } else {
            let e = match exit.pop() {
                Some(e) => e,
                None => {
                    return None;
                },
            };
            let r = go(net, node_depth, port(pn, e), exit, depth, fuel - 1);
            exit.push(e);
            proof {
                assert(exit@ =~= old(exit)@);
            }
            r
        }
    }
}

/// Read the term back from a reduced net, starting at the root's principal
/// port. `None` means the walk ran past its budget or met a configuration no
/// reduced program produces; the net is left untouched either way. A term
/// that does come back is closed.
pub fn from_net(net: &Net) -> (r: Option<Expr>)
    requires
        is_wf(*net),
    ensures
        ({
            let d = decode_spec(
                net.nodes@,
                Seq::new(node_count(*net) as nat, |i: int| 0u32),
                0,
                Seq::<u32>::empty(),
                0,
                DECODE_FUEL as nat,
            );
            &&& (r is Some <==> d is Some)
            &&& r is Some ==> r->Some_0 == d->Some_0.term
        }),
        r is Some ==> closed_under(r->Some_0, 0),
{
    let mut node_depth: Vec<u32> = Vec::new();
    let target = net.nodes.len() / 4;
    while node_depth.len() < target
        invariant
            node_depth@.len() <= target,
            target == node_count(*net),
            forall|i: int| 0 <= i < node_depth@.len() ==> (#[trigger] node_depth@[i]) == 0,
        decreases target - node_depth.len(),
    {
        node_depth.push(0);
    }
    proof {
        assert(node_depth@ =~= Seq::new(node_count(*net) as nat, |i: int| 0u32));
    }
    let mut exit: Vec<u32> = Vec::new();
    let r = go(net, &mut node_depth, 0, &mut exit, 0, DECODE_FUEL);
    proof {
        if r is Some {
            lemma_decode_closed(
                net.nodes@,
                Seq::new(node_count(*net) as nat, |i: int| 0u32),
                0,
                Seq::<u32>::empty(),
                0,
                DECODE_FUEL as nat,
            );
        }
    }
    r
}

} // verus!
