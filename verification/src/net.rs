//! The flat storage backing the interaction net.
//!
//! A node is four consecutive 32-bit cells: three port cells (principal port 0,
//! auxiliary ports 1 and 2) and a metadata cell (slot 3) holding the node's
//! kind in its upper 30 bits and a two-bit walker breadcrumb in its lower 2.
//! A port is packed as `node * 4 + slot`; the cell at a port stores the port it
//! is linked to.

use vstd::prelude::*;

verus! {

/// Counters kept while the walker reduces the net.
#[derive(Clone, Debug)]
pub struct Stats {
    pub loops: u32,
    pub rules: u32,
    pub betas: u32,
    pub dupls: u32,
    pub annis: u32,
}

/// The net: a dense array of cells, four per node, plus a free list of node
/// indices whose cells may be re-allocated.
#[derive(Clone, Debug)]
pub struct Net {
    pub nodes: Vec<u32>,
    pub reuse: Vec<u32>,
}

/// Upper bound on the number of cells, so that every port fits comfortably in
/// a `u32` and `node * 4 + slot` never overflows.
pub const CELL_LIMIT: usize = 0x4000_0000;

/// Number of nodes the store has room for, counting freed ones.
pub open spec fn node_count(net: Net) -> int {
    net.nodes@.len() as int / 4
}

/// The kind stored in the metadata cell of node `n`.
pub open spec fn kind_of(net: Net, n: int) -> int {
    net.nodes@[4 * n + 3] as int / 4
}

/// The walker breadcrumb stored in the metadata cell of node `n`.
pub open spec fn meta_of(net: Net, n: int) -> int {
    net.nodes@[4 * n + 3] as int % 4
}

/// Structural well-formedness of a bare cell array: it is made of whole
/// nodes, every port cell holds an in-range port that is itself a port cell
/// (never a metadata cell), and every breadcrumb names a real port slot.
pub open spec fn wf_cells(s: Seq<u32>) -> bool {
    &&& s.len() % 4 == 0
    &&& 4 <= s.len()
    &&& s.len() <= CELL_LIMIT
    &&& forall|p: int|
        0 <= p < s.len() && p % 4 != 3 ==> {
            &&& (#[trigger] s[p]) < s.len()
            &&& s[p] % 4 != 3
        }
    &&& forall|n: int| 0 <= n < s.len() as int / 4 ==> #[trigger] s[4 * n + 3] as int % 4 <= 2
}

/// Structural well-formedness of the store, maintained by every operation of
/// the engine: the cell array is well formed and the free list holds node
/// indices that exist in the array.
pub open spec fn is_wf(net: Net) -> bool {
    &&& wf_cells(net.nodes@)
    &&& forall|i: int|
        0 <= i < net.reuse@.len() ==> (#[trigger] net.reuse@[i]) < node_count(net)
}

/// Spec-level port packing: the port of slot `s` of node `n`.
pub open spec fn pt(n: u32, s: u32) -> u32 {
    (4 * n + s) as u32
}

/// Spec-level mirror of `link`: the cell array after connecting ports `a` and
/// `b`.
pub open spec fn linked(s: Seq<u32>, a: u32, b: u32) -> Seq<u32> {
    s.update(a as int, b).update(b as int, a)
}

/// The outcome of one allocation: the new cell array, the new free list, and
/// the index of the node handed out.
pub ghost struct Alloc {
    pub nodes: Seq<u32>,
    pub reuse: Seq<u32>,
    pub node: u32,
}

/// Spec-level mirror of `new_node`: pop the free list if it is non-empty,
/// otherwise grow the array by four cells; initialize the fresh node's port
/// cells to self-loops and its metadata cell to `kind * 4`.
pub open spec fn alloc_spec(s: Seq<u32>, r: Seq<u32>, k: u32) -> Alloc {
    let n: u32 = if r.len() > 0 {
        r.last()
    } else {
        (s.len() as int / 4) as u32
    };
    let s0: Seq<u32> = if r.len() > 0 {
        s
    } else {
        s + seq![0u32, 0u32, 0u32, 0u32]
    };
    let r0: Seq<u32> = if r.len() > 0 {
        r.drop_last()
    } else {
        r
    };
    let s1 = s0.update(4 * n as int + 0, pt(n, 0)).update(4 * n as int + 1, pt(n, 1)).update(
        4 * n as int + 2,
        pt(n, 2),
    ).update(4 * n as int + 3, (4 * k) as u32);
    Alloc { nodes: s1, reuse: r0, node: n }
}

/// Decide the well-formedness of the store at run time, cell by cell: the
/// unverified embedding uses this to guard the engine's preconditions, and a
/// partially reduced net can be audited with it.
pub fn wf_check(net: &Net) -> (b: bool)
    ensures
        b == is_wf(*net),
{
    let len = net.nodes.len();
    if len % 4 != 0 || len < 4 || len > CELL_LIMIT {
        return false;
    }
    let mut p: usize = 0;
    while p < len
        invariant
            len == net.nodes@.len(),
            p <= len,
            forall|q: int|
                0 <= q < p && q % 4 != 3 ==> (#[trigger] net.nodes@[q]) < len && net.nodes@[q] % 4
                    != 3,
            forall|q: int| 0 <= q < p && q % 4 == 3 ==> (#[trigger] net.nodes@[q]) as int % 4 <= 2,
        decreases len - p,
    {
        let c = net.nodes[p];
        proof {
            assert(net.nodes@[p as int] == c);
        }
        if p % 4 != 3 {
            if c as usize >= len || c % 4 == 3 {
                proof {
                    assert(!is_wf(*net));
                }
                return false;
            }
        } else {
            if c % 4 > 2 {
                proof {
                    let n = p as int / 4;
                    assert(4 * n + 3 == p as int);
                    assert(!is_wf(*net));
                }
                return false;
            }
        }
        p = p + 1;
    }
    proof {
        assert forall|n: int|
            0 <= n < node_count(*net) implies #[trigger] net.nodes@[4 * n + 3] as int % 4 <= 2 by {
            assert(0 <= 4 * n + 3 < len && (4 * n + 3) % 4 == 3);
        }
    }
    let mut i: usize = 0;
    while i < net.reuse.len()
        invariant
            len == net.nodes@.len(),
            i <= net.reuse@.len(),
            forall|j: int|
                0 <= j < i ==> (#[trigger] net.reuse@[j]) < node_count(*net),
        decreases net.reuse@.len() - i,
    {
        if net.reuse[i] as usize >= len / 4 {
            return false;
        }
        i = i + 1;
    }
    true
}

/// Pack a node index and a slot into a port.
pub fn port(node: u32, slot: u32) -> (p: u32)
    requires
        node < 0x1000_0000,
        slot < 4,
    ensures
        p == 4 * node + slot,
{
    proof {
        let n = node;
        let s = slot;
        assert((n << 2u32) | s == 4 * n + s) by (bit_vector)
            requires
                n < 0x1000_0000u32,
                s < 4u32,
        ;
    }
    (node << 2) | slot
}

/// The node index of a port.
pub fn node(port: u32) -> (n: u32)
    ensures
        n == port as int / 4,
{
    proof {
        let p = port;
        assert(p >> 2u32 == p / 4) by (bit_vector);
    }
    port >> 2
}

/// The slot of a port.
pub fn slot(port: u32) -> (s: u32)
    ensures
        s == port as int % 4,
{
    proof {
        let p = port;
        assert(p & 3 == p % 4) by (bit_vector);
    }
    port & 3
}

/// Follow a port: read the cell at `port`, which holds the port linked to it.
pub fn enter(net: &Net, port: u32) -> (r: u32)
    requires
        port < net.nodes@.len(),
    ensures
        r == net.nodes@[port as int],
{
    net.nodes[port as usize]
}

/// The kind of node `node`: the upper 30 bits of its metadata cell.
pub fn kind(net: &Net, node: u32) -> (k: u32)
    requires
        4 * node + 3 < net.nodes@.len(),
        net.nodes@.len() <= CELL_LIMIT,
    ensures
        k == kind_of(*net, node as int),
{
    let p = port(node, 3);
    let cell = net.nodes[p as usize];
    proof {
        let c = cell;
        assert(c >> 2u32 == c / 4) by (bit_vector);
    }
    cell >> 2
}

/// The walker breadcrumb of node `node`: the low 2 bits of its metadata cell.
pub fn meta(net: &Net, node: u32) -> (m: u32)
    requires
        4 * node + 3 < net.nodes@.len(),
        net.nodes@.len() <= CELL_LIMIT,
    ensures
        m == meta_of(*net, node as int),
{
    let p = port(node, 3);
    let cell = net.nodes[p as usize];
    proof {
        let c = cell;
        assert(c & 3 == c % 4) by (bit_vector);
    }
    cell & 3
}

/// Replace the low 2 bits of the metadata cell of `node`, preserving the kind.
pub fn set_meta(net: &mut Net, node: u32, meta: u32)
    requires
        4 * node + 3 < old(net).nodes@.len(),
        old(net).nodes@.len() <= CELL_LIMIT,
        meta < 4,
    ensures
        final(net).nodes@ == old(net).nodes@.update(
            4 * node + 3,
            (4 * kind_of(*old(net), node as int) + meta) as u32,
        ),
        final(net).nodes@.len() == old(net).nodes@.len(),
        final(net).reuse == old(net).reuse,
        kind_of(*final(net), node as int) == kind_of(*old(net), node as int),
        meta_of(*final(net), node as int) == meta,
        forall|p: int|
            0 <= p < old(net).nodes@.len() && p != 4 * node + 3
                ==> final(net).nodes@[p] == old(net).nodes@[p],
        is_wf(*old(net)) && meta <= 2 ==> is_wf(*final(net)),
{
    let ptr = port(node, 3) as usize;
    let cell = net.nodes[ptr];
    let new_cell = cell & 0xFFFF_FFFC | meta;
    proof {
        let c = cell;
        let m = meta;
        assert((c & 0xFFFF_FFFCu32 | m) == (c / 4) * 4 + m && (c & 0xFFFF_FFFCu32 | m) / 4 == c / 4
            && (c & 0xFFFF_FFFCu32 | m) % 4 == m) by (bit_vector)
            requires
                m < 4u32,
        ;
    }
    net.nodes[ptr] = new_cell;
    proof {
        assert(net.nodes@ =~= old(net).nodes@.update(
            4 * node + 3,
            (4 * kind_of(*old(net), node as int) + meta) as u32,
        ));
        if is_wf(*old(net)) && meta <= 2 {
            let nn = net.nodes@;
            let on = old(net).nodes@;
            assert forall|p: int|
                0 <= p < nn.len() && p % 4 != 3 implies (#[trigger] nn[p]) < nn.len() && nn[p] % 4
                != 3 by {
                assert(nn[p] == on[p]);
            }
            assert forall|n: int| 0 <= n < node_count(*net) implies #[trigger] meta_of(*net, n)
                <= 2 by {
                if n != node {
                    assert(nn[4 * n + 3] == on[4 * n + 3]);
                    assert(meta_of(*old(net), n) <= 2);
                }
            }
        }
    }
}

/// Connect two ports: write each one's cell so that it holds the other.
/// Symmetric by construction; only port cells may be linked, never a metadata
/// cell.
pub fn link(net: &mut Net, ptr_a: u32, ptr_b: u32)
    requires
        ptr_a < old(net).nodes@.len(),
        ptr_b < old(net).nodes@.len(),
        ptr_a % 4 != 3,
        ptr_b % 4 != 3,
    ensures
        final(net).nodes@ == linked(old(net).nodes@, ptr_a, ptr_b),
        final(net).reuse == old(net).reuse,
        is_wf(*old(net)) ==> is_wf(*final(net)),
{
    net.nodes[ptr_a as usize] = ptr_b;
    net.nodes[ptr_b as usize] = ptr_a;
    proof {
        assert(net.nodes@ =~= linked(old(net).nodes@, ptr_a, ptr_b));
        if is_wf(*old(net)) {
            let nn = net.nodes@;
            let on = old(net).nodes@;
            assert forall|p: int|
                0 <= p < nn.len() && p % 4 != 3 implies (#[trigger] nn[p]) < nn.len() && nn[p] % 4
                != 3 by {
                if p != ptr_a && p != ptr_b {
                    assert(nn[p] == on[p]);
                }
            }
            assert forall|n: int| 0 <= n < node_count(*net) implies #[trigger] meta_of(*net, n)
                <= 2 by {
                assert(nn[4 * n + 3] == on[4 * n + 3]);
                assert(meta_of(*old(net), n) <= 2);
            }
        }
    }
}

/// Allocate a fresh node of the given kind: pop a freed index from the free
/// list if one is available, otherwise grow the cell array by four. The fresh
/// node is topologically inert: each of its port cells points to itself, and
/// its metadata cell holds `kind * 4` (breadcrumb zero).
pub fn new_node(net: &mut Net, kind: u32) -> (node: u32)
    requires
        is_wf(*old(net)),
        old(net).nodes@.len() + 4 <= CELL_LIMIT,
        kind < 0x4000_0000,
    ensures
        is_wf(*final(net)),
        node < node_count(*final(net)),
        final(net).nodes@ == alloc_spec(old(net).nodes@, old(net).reuse@, kind).nodes,
        final(net).reuse@ == alloc_spec(old(net).nodes@, old(net).reuse@, kind).reuse,
        node == alloc_spec(old(net).nodes@, old(net).reuse@, kind).node,
        ({
            if old(net).reuse@.len() > 0 {
                &&& node == old(net).reuse@.last()
                &&& final(net).reuse@ == old(net).reuse@.drop_last()
                &&& final(net).nodes@.len() == old(net).nodes@.len()
            } else {
                &&& node == old(net).nodes@.len() as int / 4
                &&& final(net).reuse@ == old(net).reuse@
                &&& final(net).nodes@.len() == old(net).nodes@.len() + 4
            }
        }),
        final(net).nodes@[4 * node] == 4 * node,
        final(net).nodes@[4 * node + 1] == 4 * node + 1,
        final(net).nodes@[4 * node + 2] == 4 * node + 2,
        kind_of(*final(net), node as int) == kind,
        meta_of(*final(net), node as int) == 0,
        forall|p: int|
            0 <= p < old(net).nodes@.len() && !(4 * node <= p < 4 * node + 4)
                ==> final(net).nodes@[p] == old(net).nodes@[p],
{
    let node: u32 = match net.reuse.pop() {
        Some(index) => index,
        None => {
            let len = net.nodes.len();
            net.nodes.resize(len + 4, 0);
            (len as u32) / 4
        },
    };
    proof {
        let k = kind;
        assert(k << 2u32 == 4 * k) by (bit_vector)
            requires
                k < 0x4000_0000u32,
        ;
    }
    let p0 = port(node, 0);
    let p1 = port(node, 1);
    let p2 = port(node, 2);
    let p3 = port(node, 3);
    net.nodes[p0 as usize] = p0;
    net.nodes[p1 as usize] = p1;
    net.nodes[p2 as usize] = p2;
    net.nodes[p3 as usize] = kind << 2;
    proof {
        let nn = net.nodes@;
        let on = old(net).nodes@;
        assert(4 * (node as int) + 4 <= nn.len());
        assert forall|p: int|
            0 <= p < nn.len() && !(4 * node <= p < 4 * node + 4) implies nn[p] == on[p] by {
            assert(p < on.len());
        }
        assert forall|p: int|
            0 <= p < nn.len() && p % 4 != 3 implies (#[trigger] nn[p]) < nn.len() && nn[p] % 4
            != 3 by {
            if 4 * node <= p < 4 * node + 4 {
                assert(nn[p] == p);
            } else {
                assert(nn[p] == on[p]);
                assert((on[p] as int) < on.len() && on[p] % 4 != 3);
            }
        }
        assert forall|n: int| 0 <= n < node_count(*net) implies #[trigger] meta_of(*net, n)
            <= 2 by {
            if n == node {
                assert(nn[4 * n + 3] == 4 * (kind as int));
            } else {
                assert(!(4 * node <= 4 * n + 3 < 4 * node + 4));
                assert(nn[4 * n + 3] == on[4 * n + 3]);
                assert(meta_of(*old(net), n) <= 2);
            }
        }
        assert forall|i: int|
            0 <= i < net.reuse@.len() implies (#[trigger] net.reuse@[i]) < node_count(*net) by {
            assert(net.reuse@[i] == old(net).reuse@[i]);
            assert((old(net).reuse@[i] as int) < node_count(*old(net)));
        }
        assert(net.nodes@ =~= alloc_spec(old(net).nodes@, old(net).reuse@, kind).nodes);
        assert(net.reuse@ =~= alloc_spec(old(net).nodes@, old(net).reuse@, kind).reuse);
    }
    node
}

} // verus!
