//! The walker: the traversal that locates active pairs and drives the
//! rewriter.
//!
//! The walker keeps three ports: `next`, the port currently inspected; `prev`,
//! the port on the other side of `next`; and `back`, a remembered return port
//! used to resume after a rewrite. Deferred branches are node indices pushed
//! on the `warp` stack; a node's two-bit breadcrumb remembers through which
//! auxiliary port the walker entered it.

use vstd::prelude::*;

use crate::net::{
    enter, is_wf, kind_of, meta, meta_of, node, node_count, port, set_meta, slot, Net, Stats,
    CELL_LIMIT,
};
use crate::rules::{annihilated, commuted, rewrite};

verus! {

/// The cell array after the rewrite of the active pair `(x, y)`: annihilation
/// when the kinds agree, commutation otherwise.
pub open spec fn rewritten_nodes(s: Seq<u32>, r: Seq<u32>, x: u32, y: u32) -> Seq<u32> {
    if s[4 * x as int + 3] as int / 4 == s[4 * y as int + 3] as int / 4 {
        annihilated(s, x, y)
    } else {
        commuted(s, r, x, y).nodes
    }
}

/// The free list after the rewrite of the active pair `(x, y)`.
pub open spec fn rewritten_reuse(s: Seq<u32>, r: Seq<u32>, x: u32, y: u32) -> Seq<u32> {
    if s[4 * x as int + 3] as int / 4 == s[4 * y as int + 3] as int / 4 {
        r.push(x).push(y)
    } else {
        commuted(s, r, x, y).reuse
    }
}

/// The port the walker inspects this iteration: `next` itself when it is
/// working, or the second auxiliary of the node popped from the warp when it
/// was idle.
pub open spec fn step_source(s: Seq<u32>, next: u32, warp: Seq<u32>) -> u32 {
    if next == 0 {
        s[4 * warp.last() as int + 2]
    } else {
        next
    }
}

/// The warp after the walker possibly pulled work from it.
pub open spec fn step_warp(next: u32, warp: Seq<u32>) -> Seq<u32> {
    if next == 0 {
        warp.drop_last()
    } else {
        warp
    }
}

/// Whether the inspected port `n0` and its neighbour `p` form an active pair
/// away from the reserved root: both are principal ports of two distinct
/// nodes, and the neighbour is not node 0.
pub open spec fn is_active(n0: u32, p: u32) -> bool {
    &&& n0 % 4 == 0
    &&& p % 4 == 0
    &&& p as int / 4 != 0
    &&& p as int / 4 != n0 as int / 4
}

/// The complete state of a single walker over the shared store: the net, the
/// walker's three ports, the deferred branches, and the two counters it
/// keeps.
pub ghost struct Walk {
    pub nodes: Seq<u32>,
    pub reuse: Seq<u32>,
    pub next: u32,
    pub prev: u32,
    pub back: u32,
    pub warp: Seq<u32>,
    pub loops: u32,
    pub rules: u32,
}

/// The walker state made from the engine's pieces.
pub open spec fn walk_of(
    net: Net,
    next: u32,
    prev: u32,
    back: u32,
    warp: Seq<u32>,
    stats: Stats,
) -> Walk {
    Walk {
        nodes: net.nodes@,
        reuse: net.reuse@,
        next,
        prev,
        back,
        warp,
        loops: stats.loops,
        rules: stats.rules,
    }
}

/// One walker iteration as a function on states: exactly what
/// `reduce_iteration` does.
pub open spec fn walk_step(w: Walk) -> Walk {
    let n0 = step_source(w.nodes, w.next, w.warp);
    let w1 = step_warp(w.next, w.warp);
    let p = w.nodes[n0 as int];
    if is_active(n0, p) {
        let x = (p as int / 4) as u32;
        let y = (n0 as int / 4) as u32;
        let bk = w.nodes[4 * (p as int / 4) + (w.nodes[4 * (p as int / 4) + 3] as int % 4)];
        let nn = rewritten_nodes(w.nodes, w.reuse, x, y);
        Walk {
            nodes: nn,
            reuse: rewritten_reuse(w.nodes, w.reuse, x, y),
            next: nn[bk as int],
            prev: p,
            back: bk,
            warp: w1,
            loops: w.loops.saturating_add(1),
            rules: w.rules.saturating_add(1),
        }
    } else if n0 % 4 == 0 {
        Walk {
            nodes: w.nodes,
            reuse: w.reuse,
            next: w.nodes[4 * (n0 as int / 4) + 1],
            prev: p,
            back: w.back,
            warp: w1.push((n0 as int / 4) as u32),
            loops: w.loops.saturating_add(1),
            rules: w.rules,
        }
    } else {
        Walk {
            nodes: w.nodes.update(
                4 * (n0 as int / 4) + 3,
                (4 * (w.nodes[4 * (n0 as int / 4) + 3] as int / 4) + n0 % 4) as u32,
            ),
            reuse: w.reuse,
            next: w.nodes[4 * (n0 as int / 4)],
            prev: p,
            back: w.back,
            warp: w1,
            loops: w.loops.saturating_add(1),
            rules: w.rules,
        }
    }
}

/// When the walk stops: idle with nothing deferred, or the store at
/// capacity, or the iteration budget spent.
pub open spec fn walk_done(w: Walk, budget: u32) -> bool {
    ||| !(w.next > 0 || w.warp.len() > 0)
    ||| !(w.nodes.len() + 8 <= CELL_LIMIT)
    ||| !(w.loops < budget)
}

/// Run the walker until it stops, stepping at most `fuel` times. With fuel
/// at least the budget this reaches the stop, since every step raises the
/// loop counter.
pub open spec fn walk_run(w: Walk, budget: u32, fuel: nat) -> Walk
    decreases fuel,
{
    if walk_done(w, budget) || fuel == 0 {
        w
    } else {
        walk_run(walk_step(w), budget, (fuel - 1) as nat)
    }
}

/// One iteration of the walker. If it is idle (`next == 0`) it pulls a
/// deferred branch from the warp. It then reads the neighbour of the
/// inspected port and classifies the configuration: an active pair is
/// rewritten and the walk resumes at the remembered `back` port; a principal
/// port entering a node descends into the first auxiliary after deferring the
/// branch on the warp; an auxiliary entry leaves its slot as the node's
/// breadcrumb and walks out through the principal port.
#[verifier::rlimit(100)]
#[verifier::spinoff_prover]
pub fn reduce_iteration(
    net: &mut Net,
    next: &mut u32,
    prev: &mut u32,
    back: &mut u32,
    warp: &mut Vec<u32>,
    stats: &mut Stats,
)
    requires
        is_wf(*old(net)),
        old(net).nodes@.len() + 8 <= CELL_LIMIT,
        *old(next) == 0 ==> old(warp)@.len() > 0,
        *old(next) != 0 ==> *old(next) < old(net).nodes@.len() && *old(next) % 4 != 3,
        forall|i: int|
            0 <= i < old(warp)@.len() ==> (#[trigger] old(warp)@[i]) < node_count(*old(net)),
    ensures
        is_wf(*final(net)),
        old(net).nodes@.len() <= final(net).nodes@.len() <= old(net).nodes@.len() + 8,
        *final(next) < final(net).nodes@.len() && *final(next) % 4 != 3,
        forall|i: int|
            0 <= i < final(warp)@.len() ==> (#[trigger] final(warp)@[i]) < node_count(
                *final(net),
            ),
        final(stats).loops == old(stats).loops.saturating_add(1),
        final(stats).betas == old(stats).betas,
        final(stats).dupls == old(stats).dupls,
        final(stats).annis == old(stats).annis,
        ({
            let s = old(net).nodes@;
            let r = old(net).reuse@;
            let n0 = step_source(s, *old(next), old(warp)@);
            let w0 = step_warp(*old(next), old(warp)@);
            let p = s[n0 as int];
            &&& *final(prev) == p
            &&& if is_active(n0, p) {
                let x = (p as int / 4) as u32;
                let y = (n0 as int / 4) as u32;
                let bk = s[4 * (p as int / 4) + meta_of(*old(net), p as int / 4)];
                &&& *final(back) == bk
                &&& final(net).nodes@ == rewritten_nodes(s, r, x, y)
                &&& final(net).reuse@ == rewritten_reuse(s, r, x, y)
                &&& *final(next) == rewritten_nodes(s, r, x, y)[bk as int]
                &&& final(warp)@ == w0
                &&& final(stats).rules == old(stats).rules.saturating_add(1)
            } else if n0 % 4 == 0 {
                &&& *final(net) == *old(net)
                &&& *final(back) == *old(back)
                &&& final(warp)@ == w0.push((n0 as int / 4) as u32)
                &&& *final(next) == s[4 * (n0 as int / 4) + 1]
                &&& final(stats).rules == old(stats).rules
            } else {
                &&& final(net).nodes@ == s.update(
                    4 * (n0 as int / 4) + 3,
                    (4 * kind_of(*old(net), n0 as int / 4) + n0 % 4) as u32,
                )
                &&& final(net).reuse@ == r
                &&& *final(back) == *old(back)
                &&& final(warp)@ == w0
                &&& *final(next) == s[4 * (n0 as int / 4)]
                &&& final(stats).rules == old(stats).rules
            }
        }),
{
    if *next == 0 {
        let w = match warp.pop() {
            Some(index) => index,
            None => 0,
        };
        *next = enter(net, port(w, 2));
    }
    *prev = enter(net, *next);
    if slot(*next) == 0 && slot(*prev) == 0 && node(*prev) != 0 && node(*prev) != node(*next) {
        stats.rules = stats.rules.saturating_add(1);
        let x = node(*prev);
        let y = node(*next);
        *back = enter(net, port(x, meta(net, x)));
        rewrite(net, x, y);
        *next = enter(net, *back);
    } else if slot(*next) == 0 {
        warp.push(node(*next));
        *next = enter(net, port(node(*next), 1));
    } else {
        set_meta(net, node(*next), slot(*next));
        *next = enter(net, port(node(*next), 0));
    }
    stats.loops = stats.loops.saturating_add(1);
}

/// Reduce the net in place: walk from the root, rewriting every active pair
/// found, until the walker is idle and no deferred branch remains. A program
/// without a normal form keeps the walker busy; the loop gives up only if the
/// store would outgrow the port index space or the 32-bit iteration counter
/// is exhausted, leaving the net well formed but only partially reduced.
pub fn reduce(net: &mut Net) -> (stats: Stats)
    requires
        is_wf(*old(net)),
    ensures
        is_wf(*final(net)),
        old(net).nodes@.len() <= final(net).nodes@.len(),
        stats.rules <= stats.loops,
        stats.betas == 0 && stats.dupls == 0 && stats.annis == 0,
        ({
            let w = walk_run(
                start_walk(*old(net)),
                u32::MAX,
                u32::MAX as nat,
            );
            &&& final(net).nodes@ == w.nodes
            &&& final(net).reuse@ == w.reuse
            &&& stats.loops == w.loops && stats.rules == w.rules
        }),
{
    reduce_bounded(net, u32::MAX)
}

/// The walker state at the start of a reduction: inspecting the port the
/// root points at, nothing deferred, counters at zero.
pub open spec fn start_walk(net: Net) -> Walk {
    Walk {
        nodes: net.nodes@,
        reuse: net.reuse@,
        next: net.nodes@[0],
        prev: 0,
        back: 0,
        warp: Seq::<u32>::empty(),
        loops: 0,
        rules: 0,
    }
}

/// Reduce the net in place as `reduce` does, but stop once the walker has
/// taken `budget` iterations. A partial run leaves the net well formed, so a
/// program with no normal form can be stepped safely for any budget.
pub fn reduce_bounded(net: &mut Net, budget: u32) -> (stats: Stats)
    requires
        is_wf(*old(net)),
    ensures
        is_wf(*final(net)),
        old(net).nodes@.len() <= final(net).nodes@.len(),
        stats.loops <= budget,
        stats.rules <= stats.loops,
        stats.betas == 0 && stats.dupls == 0 && stats.annis == 0,
        ({
            let w = walk_run(start_walk(*old(net)), budget, budget as nat);
            &&& final(net).nodes@ == w.nodes
            &&& final(net).reuse@ == w.reuse
            &&& stats.loops == w.loops && stats.rules == w.rules
        }),
{
    let mut stats = Stats { loops: 0, rules: 0, betas: 0, dupls: 0, annis: 0 };
    let mut warp: Vec<u32> = Vec::new();
    let mut next: u32 = enter(net, 0);
    let mut prev: u32 = 0;
    let mut back: u32 = 0;
    let ghost w0 = start_walk(*old(net));
    proof {
        assert(walk_of(*net, next, prev, back, warp@, stats) =~= w0);
    }
    while (next > 0 || warp.len() > 0) && net.nodes.len() + 8 <= CELL_LIMIT && stats.loops < budget
        invariant
            is_wf(*net),
            old(net).nodes@.len() <= net.nodes@.len(),
            next < net.nodes@.len() && next % 4 != 3,
            stats.loops <= budget,
            stats.rules <= stats.loops,
            stats.betas == 0 && stats.dupls == 0 && stats.annis == 0,
            forall|i: int| 0 <= i < warp@.len() ==> (#[trigger] warp@[i]) < node_count(*net),
            walk_run(w0, budget, budget as nat) == walk_run(
                walk_of(*net, next, prev, back, warp@, stats),
                budget,
                (budget - stats.loops) as nat,
            ),
        decreases budget - stats.loops,
    {
        let ghost cur = walk_of(*net, next, prev, back, warp@, stats);
        proof {
            assert(!walk_done(cur, budget));
            assert(walk_run(cur, budget, (budget - stats.loops) as nat) == walk_run(
                walk_step(cur),
                budget,
                (budget - stats.loops - 1) as nat,
            ));
        }
        reduce_iteration(net, &mut next, &mut prev, &mut back, &mut warp, &mut stats);
        proof {
            assert(walk_of(*net, next, prev, back, warp@, stats) =~= walk_step(cur));
        }
    }
    proof {
        let cur = walk_of(*net, next, prev, back, warp@, stats);
        assert(walk_done(cur, budget));
        assert(walk_run(cur, budget, (budget - stats.loops) as nat) == cur);
    }
    stats
}

} // verus!
