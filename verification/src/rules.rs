//! The two local interaction rules.
//!
//! An active pair is two distinct nodes connected through their principal
//! ports. When their kinds are equal the pair annihilates: both nodes vanish
//! and their auxiliary neighbours are spliced together. When the kinds differ
//! the pair commutes: two fresh nodes are allocated and the four nodes are
//! rewired into the crossed configuration, the original two staying in place
//! as interior nodes.

use vstd::prelude::*;

use crate::net::{
    alloc_spec, enter, is_wf, kind, kind_of, link, linked, new_node, node_count, port, pt,
    set_meta, wf_cells, Net, CELL_LIMIT,
};

verus! {

/// Spec-level mirror of the annihilation rule on the cell array: splice the
/// first auxiliary neighbours of `x` and `y`, then the second pair, each
/// neighbour read just before it is wired. The late second read is what
/// threads a connection through a node whose own auxiliary ports were linked
/// to each other.
pub open spec fn annihilated(s: Seq<u32>, x: u32, y: u32) -> Seq<u32> {
    let s1 = linked(s, s[4 * x as int + 1], s[4 * y as int + 1]);
    linked(s1, s1[4 * x as int + 2], s1[4 * y as int + 2])
}

/// The outcome of the commutation rule: the new cell array and free list, and
/// the indices of the two freshly allocated nodes.
pub ghost struct Commuted {
    pub nodes: Seq<u32>,
    pub reuse: Seq<u32>,
    pub a: u32,
    pub b: u32,
}

/// Spec-level mirror of the commutation rule: allocate `a` with the kind of
/// `x` and `b` with the kind of `y`, then apply the eight wirings of the
/// crossed configuration, each auxiliary neighbour read just before it is
/// wired — the late reads thread connections through a pair whose auxiliary
/// ports link into the pair itself — and reset the walker breadcrumbs of `x`
/// and `y`.
pub open spec fn commuted(s: Seq<u32>, r: Seq<u32>, x: u32, y: u32) -> Commuted {
    let kx = (s[4 * x as int + 3] as int / 4) as u32;
    let ky = (s[4 * y as int + 3] as int / 4) as u32;
    let al = alloc_spec(s, r, kx);
    let bl = alloc_spec(al.nodes, al.reuse, ky);
    let a = al.node;
    let b = bl.node;
    let s2 = bl.nodes;
    let s3 = linked(s2, pt(b, 0), s2[4 * x as int + 1]);
    let s4 = linked(s3, pt(y, 0), s3[4 * x as int + 2]);
    let s5 = linked(s4, pt(a, 0), s4[4 * y as int + 1]);
    let s6 = linked(s5, pt(x, 0), s5[4 * y as int + 2]);
    let s7 = linked(s6, pt(a, 1), pt(b, 1));
    let s8 = linked(s7, pt(a, 2), pt(y, 1));
    let s9 = linked(s8, pt(x, 1), pt(b, 2));
    let s10 = linked(s9, pt(x, 2), pt(y, 2));
    let s11 = s10.update(4 * x as int + 3, (4 * (s10[4 * x as int + 3] as int / 4) + 0) as u32);
    let s12 = s11.update(4 * y as int + 3, (4 * (s11[4 * y as int + 3] as int / 4) + 0) as u32);
    Commuted { nodes: s12, reuse: bl.reuse, a, b }
}

/// Whether cell index `p` lies in the four cells of node `n`.
pub open spec fn in_node(p: int, n: u32) -> bool {
    4 * n <= p < 4 * n + 4
}

/// Linking two port cells keeps the cell array well formed and touches no
/// metadata cell.
pub proof fn lemma_linked_wf(s: Seq<u32>, a: u32, b: u32)
    requires
        wf_cells(s),
        a < s.len(),
        b < s.len(),
        a % 4 != 3,
        b % 4 != 3,
    ensures
        wf_cells(linked(s, a, b)),
        linked(s, a, b).len() == s.len(),
        forall|q: int| 0 <= q < s.len() && q % 4 == 3 ==> #[trigger] linked(s, a, b)[q] == s[q],
{
    let t = linked(s, a, b);
    assert forall|p: int|
        0 <= p < t.len() && p % 4 != 3 implies (#[trigger] t[p]) < t.len() && t[p] % 4 != 3 by {
        if p != a && p != b {
            assert(t[p] == s[p]);
        }
    }
    assert forall|n: int|
        0 <= n < t.len() as int / 4 implies #[trigger] t[4 * n + 3] as int % 4 <= 2 by {
        assert(t[4 * n + 3] == s[4 * n + 3]);
    }
}

/// Link symmetry at port `p`: the cell at `p` holds an in-range port whose
/// own cell points back at `p`.
pub open spec fn sym_at(s: Seq<u32>, p: int) -> bool {
    &&& 0 <= p < s.len()
    &&& (s[p] as int) < s.len()
    &&& s[s[p] as int] == p
}

/// Link symmetry across an annihilation: when the four auxiliary neighbours
/// of the pair lie outside the two vanishing nodes and the two new edges do
/// not collide, the spliced neighbour ports point at each other afterwards,
/// and every other cell is untouched, so symmetry holds wherever it held
/// before among the surviving ports.
pub proof fn lemma_annihilation_symmetry(s: Seq<u32>, x: u32, y: u32)
    requires
        wf_cells(s),
        x < s.len() as int / 4,
        y < s.len() as int / 4,
        x != y,
        !in_node(s[4 * x as int + 1] as int, x) && !in_node(s[4 * x as int + 1] as int, y),
        !in_node(s[4 * y as int + 1] as int, x) && !in_node(s[4 * y as int + 1] as int, y),
        !in_node(s[4 * x as int + 2] as int, x) && !in_node(s[4 * x as int + 2] as int, y),
        !in_node(s[4 * y as int + 2] as int, x) && !in_node(s[4 * y as int + 2] as int, y),
        s[4 * x as int + 1] != s[4 * x as int + 2],
        s[4 * x as int + 1] != s[4 * y as int + 2],
        s[4 * y as int + 1] != s[4 * x as int + 2],
        s[4 * y as int + 1] != s[4 * y as int + 2],
    ensures
        annihilated(s, x, y).len() == s.len(),
        ({
            let t = annihilated(s, x, y);
            let px1 = s[4 * x as int + 1];
            let py1 = s[4 * y as int + 1];
            let px2 = s[4 * x as int + 2];
            let py2 = s[4 * y as int + 2];
            &&& t[px1 as int] == py1 && t[py1 as int] == px1
            &&& t[px2 as int] == py2 && t[py2 as int] == px2
            &&& sym_at(t, px1 as int) && sym_at(t, py1 as int)
            &&& sym_at(t, px2 as int) && sym_at(t, py2 as int)
            &&& forall|p: int|
                0 <= p < s.len() && p != px1 && p != py1 && p != px2 && p != py2 ==> t[p] == s[p]
            &&& forall|p: int|
                sym_at(s, p) && p != px1 && p != py1 && p != px2 && p != py2 && s[p] != px1
                    && s[p] != py1 && s[p] != px2 && s[p] != py2 ==> sym_at(t, p)
        }),
{
    let t = annihilated(s, x, y);
    let px1 = s[4 * x as int + 1];
    let py1 = s[4 * y as int + 1];
    let px2 = s[4 * x as int + 2];
    let py2 = s[4 * y as int + 2];
    assert(t[px1 as int] == py1 && t[py1 as int] == px1);
    assert(t[px2 as int] == py2 && t[py2 as int] == px2);
    assert forall|p: int|
        sym_at(s, p) && p != px1 && p != py1 && p != px2 && p != py2 && s[p] != px1 && s[p] != py1
            && s[p] != px2 && s[p] != py2 implies sym_at(t, p) by {
        assert(t[p] == s[p]);
        assert(t[s[p] as int] == s[s[p] as int]);
    }
}

/// Link symmetry across a commutation: when the four auxiliary neighbours of
/// the pair are pairwise distinct ports lying outside the four nodes
/// involved, every one of the eight new edges is symmetric afterwards, and
/// every uninvolved cell keeps its value.
#[verifier::rlimit(100)]
#[verifier::spinoff_prover]
pub proof fn lemma_commutation_symmetry(s: Seq<u32>, r: Seq<u32>, x: u32, y: u32)
    requires
        wf_cells(s),
        s.len() + 8 <= CELL_LIMIT,
        x < s.len() as int / 4,
        y < s.len() as int / 4,
        x != y,
        forall|i: int| 0 <= i < r.len() ==> (#[trigger] r[i]) < s.len() as int / 4,
        forall|i: int, j: int| 0 <= i < j < r.len() ==> r[i] != r[j],
        forall|i: int| 0 <= i < r.len() ==> (#[trigger] r[i]) != x && r[i] != y,
        ({
            let c = commuted(s, r, x, y);
            let px1 = s[4 * x as int + 1];
            let px2 = s[4 * x as int + 2];
            let py1 = s[4 * y as int + 1];
            let py2 = s[4 * y as int + 2];
            &&& !in_node(px1 as int, x) && !in_node(px1 as int, y) && !in_node(px1 as int, c.a)
                && !in_node(px1 as int, c.b)
            &&& !in_node(px2 as int, x) && !in_node(px2 as int, y) && !in_node(px2 as int, c.a)
                && !in_node(px2 as int, c.b)
            &&& !in_node(py1 as int, x) && !in_node(py1 as int, y) && !in_node(py1 as int, c.a)
                && !in_node(py1 as int, c.b)
            &&& !in_node(py2 as int, x) && !in_node(py2 as int, y) && !in_node(py2 as int, c.a)
                && !in_node(py2 as int, c.b)
            &&& px1 != px2 && px1 != py1 && px1 != py2 && px2 != py1 && px2 != py2 && py1 != py2
        }),
    ensures
        ({
            let c = commuted(s, r, x, y);
            let t = c.nodes;
            let a = c.a;
            let b = c.b;
            let px1 = s[4 * x as int + 1];
            let px2 = s[4 * x as int + 2];
            let py1 = s[4 * y as int + 1];
            let py2 = s[4 * y as int + 2];
            &&& s.len() <= t.len() <= s.len() + 8
            &&& t[pt(b, 0) as int] == px1 && t[px1 as int] == pt(b, 0)
            &&& t[pt(y, 0) as int] == px2 && t[px2 as int] == pt(y, 0)
            &&& t[pt(a, 0) as int] == py1 && t[py1 as int] == pt(a, 0)
            &&& t[pt(x, 0) as int] == py2 && t[py2 as int] == pt(x, 0)
            &&& t[pt(a, 1) as int] == pt(b, 1) && t[pt(b, 1) as int] == pt(a, 1)
            &&& t[pt(a, 2) as int] == pt(y, 1) && t[pt(y, 1) as int] == pt(a, 2)
            &&& t[pt(x, 1) as int] == pt(b, 2) && t[pt(b, 2) as int] == pt(x, 1)
            &&& t[pt(x, 2) as int] == pt(y, 2) && t[pt(y, 2) as int] == pt(x, 2)
            &&& forall|p: int|
                0 <= p < s.len() && p != px1 && p != px2 && p != py1 && p != py2 && !in_node(p, x)
                    && !in_node(p, y) && !in_node(p, a) && !in_node(p, b) ==> t[p] == s[p]
        }),
{
    let kx = (s[4 * x as int + 3] as int / 4) as u32;
    let ky = (s[4 * y as int + 3] as int / 4) as u32;
    let al = alloc_spec(s, r, kx);
    let bl = alloc_spec(al.nodes, al.reuse, ky);
    lemma_alloc_wf(s, r, kx);
    lemma_alloc_wf(al.nodes, al.reuse, ky);
    let a = al.node;
    let b = bl.node;
    assert(a != b && a != x && a != y && b != x && b != y);
    let s2 = bl.nodes;
    assert(s2[4 * x as int + 1] == s[4 * x as int + 1]);
    assert(s2[4 * x as int + 2] == s[4 * x as int + 2]);
    assert(s2[4 * y as int + 1] == s[4 * y as int + 1]);
    assert(s2[4 * y as int + 2] == s[4 * y as int + 2]);
    assert forall|p: int|
        0 <= p < s.len() && p != s[4 * x as int + 1] && p != s[4 * x as int + 2] && p != s[4 * y
        as int + 1] && p != s[4 * y as int + 2] && !in_node(p, x) && !in_node(p, y) && !in_node(
        p,
        a,
    ) && !in_node(p, b) implies commuted(s, r, x, y).nodes[p] == s[p] by {
        assert(s2[p] == s[p]);
    }
}

/// Node-count monotonicity, annihilation half: the cell array keeps its
/// length while the free list grows by exactly the two vanished nodes, so the
/// live node count drops by two.
pub proof fn lemma_annihilation_counts(s: Seq<u32>, r: Seq<u32>, x: u32, y: u32)
    requires
        wf_cells(s),
        x < s.len() as int / 4,
        y < s.len() as int / 4,
    ensures
        annihilated(s, x, y).len() == s.len(),
        r.push(x).push(y).len() == r.len() + 2,
        annihilated(s, x, y).len() as int / 4 - r.push(x).push(y).len() == s.len() as int / 4
            - r.len() - 2,
{
}

/// Node-count monotonicity, commutation half: each of the two allocations
/// either pops the free list or grows the cell array by one node, so the live
/// node count grows by exactly two.
#[verifier::rlimit(100)]
#[verifier::spinoff_prover]
pub proof fn lemma_commutation_counts(s: Seq<u32>, r: Seq<u32>, x: u32, y: u32)
    requires
        wf_cells(s),
        s.len() + 8 <= CELL_LIMIT,
        x < s.len() as int / 4,
        y < s.len() as int / 4,
        forall|i: int| 0 <= i < r.len() ==> (#[trigger] r[i]) < s.len() as int / 4,
    ensures
        ({
            let c = commuted(s, r, x, y);
            c.nodes.len() as int / 4 - c.reuse.len() == s.len() as int / 4 - r.len() + 2
        }),
{
    let kx = (s[4 * x as int + 3] as int / 4) as u32;
    let ky = (s[4 * y as int + 3] as int / 4) as u32;
    let al = alloc_spec(s, r, kx);
    let bl = alloc_spec(al.nodes, al.reuse, ky);
    lemma_alloc_wf(s, r, kx);
    lemma_alloc_wf(al.nodes, al.reuse, ky);
    assert(al.nodes.len() as int / 4 - al.reuse.len() == s.len() as int / 4 - r.len() + 1);
    assert(bl.nodes.len() as int / 4 - bl.reuse.len() == al.nodes.len() as int / 4 - al.reuse.len()
        + 1);
    assert(commuted(s, r, x, y).nodes.len() == bl.nodes.len());
    assert(commuted(s, r, x, y).reuse == bl.reuse);
}

/// Kind stability across an annihilation: the rule touches only port cells,
/// so the metadata cell of every node, and with it its kind, is untouched.
pub proof fn lemma_annihilation_kind_stable(s: Seq<u32>, x: u32, y: u32)
    requires
        wf_cells(s),
        x < s.len() as int / 4,
        y < s.len() as int / 4,
    ensures
        forall|n: int|
            0 <= n < s.len() as int / 4 ==> #[trigger] annihilated(s, x, y)[4 * n + 3] == s[4 * n
                + 3],
{
    let t = annihilated(s, x, y);
    assert forall|n: int| 0 <= n < s.len() as int / 4 implies #[trigger] t[4 * n + 3] == s[4 * n
        + 3] by {
        assert(s[4 * x as int + 1] % 4 != 3);
        assert(s[4 * y as int + 1] % 4 != 3);
        assert(s[4 * x as int + 2] % 4 != 3);
        assert(s[4 * y as int + 2] % 4 != 3);
    }
}

/// Kind stability across a commutation: provided the free list is duplicate
/// free and holds neither node of the active pair, every node other than the
/// two allocated ones keeps its kind, and the allocated ones take the kinds
/// of the pair, exactly as `new_node` would set them.
#[verifier::rlimit(100)]
#[verifier::spinoff_prover]
pub proof fn lemma_commutation_kind_stable(s: Seq<u32>, r: Seq<u32>, x: u32, y: u32)
    requires
        wf_cells(s),
        s.len() + 8 <= CELL_LIMIT,
        x < s.len() as int / 4,
        y < s.len() as int / 4,
        x != y,
        forall|i: int| 0 <= i < r.len() ==> (#[trigger] r[i]) < s.len() as int / 4,
        forall|i: int, j: int| 0 <= i < j < r.len() ==> r[i] != r[j],
        forall|i: int| 0 <= i < r.len() ==> (#[trigger] r[i]) != x && r[i] != y,
    ensures
        ({
            let c = commuted(s, r, x, y);
            &&& c.a != c.b && c.a != x && c.a != y && c.b != x && c.b != y
            &&& forall|n: int|
                0 <= n < s.len() as int / 4 && n != c.a && n != c.b
                    ==> #[trigger] c.nodes[4 * n + 3] as int / 4 == s[4 * n + 3] as int / 4
            &&& c.nodes[4 * c.a as int + 3] as int / 4 == s[4 * x as int + 3] as int / 4
            &&& c.nodes[4 * c.b as int + 3] as int / 4 == s[4 * y as int + 3] as int / 4
        }),
{
    let kx = (s[4 * x as int + 3] as int / 4) as u32;
    let ky = (s[4 * y as int + 3] as int / 4) as u32;
    let al = alloc_spec(s, r, kx);
    let bl = alloc_spec(al.nodes, al.reuse, ky);
    let a = al.node;
    let b = bl.node;
    let c = commuted(s, r, x, y);
    lemma_alloc_wf(s, r, kx);
    lemma_alloc_wf(al.nodes, al.reuse, ky);
    assert(a != b && a != x && a != y && b != x && b != y);
    assert(bl.nodes[4 * a as int + 3] == (4 * kx) as u32);
    assert(bl.nodes[4 * b as int + 3] == (4 * ky) as u32);
    assert(kx < 0x4000_0000 && ky < 0x4000_0000);
    let s2 = bl.nodes;
    let s3 = linked(s2, pt(b, 0), s2[4 * x as int + 1]);
    let s4 = linked(s3, pt(y, 0), s3[4 * x as int + 2]);
    let s5 = linked(s4, pt(a, 0), s4[4 * y as int + 1]);
    let s6 = linked(s5, pt(x, 0), s5[4 * y as int + 2]);
    let s7 = linked(s6, pt(a, 1), pt(b, 1));
    let s8 = linked(s7, pt(a, 2), pt(y, 1));
    let s9 = linked(s8, pt(x, 1), pt(b, 2));
    let s10 = linked(s9, pt(x, 2), pt(y, 2));
    lemma_linked_wf(s2, pt(b, 0), s2[4 * x as int + 1]);
    lemma_linked_wf(s3, pt(y, 0), s3[4 * x as int + 2]);
    lemma_linked_wf(s4, pt(a, 0), s4[4 * y as int + 1]);
    lemma_linked_wf(s5, pt(x, 0), s5[4 * y as int + 2]);
    lemma_linked_wf(s6, pt(a, 1), pt(b, 1));
    lemma_linked_wf(s7, pt(a, 2), pt(y, 1));
    lemma_linked_wf(s8, pt(x, 1), pt(b, 2));
    lemma_linked_wf(s9, pt(x, 2), pt(y, 2));
    assert forall|n: int|
        0 <= n < s2.len() as int / 4 implies #[trigger] s10[4 * n + 3] == s2[4 * n + 3] by {
        assert(s3[4 * n + 3] == s2[4 * n + 3]);
        assert(s4[4 * n + 3] == s3[4 * n + 3]);
        assert(s5[4 * n + 3] == s4[4 * n + 3]);
        assert(s6[4 * n + 3] == s5[4 * n + 3]);
        assert(s7[4 * n + 3] == s6[4 * n + 3]);
        assert(s8[4 * n + 3] == s7[4 * n + 3]);
        assert(s9[4 * n + 3] == s8[4 * n + 3]);
        assert(s10[4 * n + 3] == s9[4 * n + 3]);
    }
    assert(c.nodes == s10.update(
        4 * x as int + 3,
        (4 * (s10[4 * x as int + 3] as int / 4) + 0) as u32,
    ).update(
        4 * y as int + 3,
        (4 * (s10.update(
            4 * x as int + 3,
            (4 * (s10[4 * x as int + 3] as int / 4) + 0) as u32,
        )[4 * y as int + 3] as int / 4) + 0) as u32,
    ));
    assert forall|n: int|
        0 <= n < s2.len() as int / 4 implies #[trigger] c.nodes[4 * n + 3] as int / 4 == s2[4 * n
        + 3] as int / 4 by {
        assert(s10[4 * n + 3] == s2[4 * n + 3]);
    }
    assert forall|n: int|
        0 <= n < s.len() as int / 4 && n != a && n != b implies #[trigger] c.nodes[4 * n
        + 3] as int / 4 == s[4 * n + 3] as int / 4 by {
        assert(s2[4 * n + 3] == s[4 * n + 3]);
    }
}

/// Well-formedness of an allocation, together with where the fresh node came
/// from and which cells it owns.
pub proof fn lemma_alloc_wf(s: Seq<u32>, r: Seq<u32>, k: u32)
    requires
        wf_cells(s),
        s.len() + 4 <= CELL_LIMIT,
        k < 0x4000_0000,
        forall|i: int| 0 <= i < r.len() ==> (#[trigger] r[i]) < s.len() as int / 4,
    ensures
        wf_cells(alloc_spec(s, r, k).nodes),
        ({
            let al = alloc_spec(s, r, k);
            &&& al.node < al.nodes.len() as int / 4
            &&& s.len() <= al.nodes.len() <= s.len() + 4
            &&& if r.len() > 0 {
                al.node == r.last() && al.reuse == r.drop_last() && al.nodes.len() == s.len()
            } else {
                al.node == s.len() as int / 4 && al.reuse == r && al.nodes.len() == s.len() + 4
            }
            &&& forall|p: int|
                0 <= p < s.len() && !in_node(p, al.node) ==> al.nodes[p] == s[p]
            &&& al.nodes[4 * al.node as int] == 4 * al.node
            &&& al.nodes[4 * al.node as int + 1] == 4 * al.node + 1
            &&& al.nodes[4 * al.node as int + 2] == 4 * al.node + 2
            &&& al.nodes[4 * al.node as int + 3] == (4 * k) as u32
            &&& forall|i: int| 0 <= i < al.reuse.len() ==> (#[trigger] al.reuse[i]) < al.nodes.len() as int / 4
        }),
{
    let al = alloc_spec(s, r, k);
    let n = al.node;
    assert forall|p: int|
        0 <= p < al.nodes.len() && !in_node(p, n) implies al.nodes[p] == s[p] by {
        assert(p < s.len());
    }
    assert forall|p: int|
        0 <= p < al.nodes.len() && p % 4 != 3 implies (#[trigger] al.nodes[p])
        < al.nodes.len() && al.nodes[p] % 4 != 3 by {
        if in_node(p, n) {
            assert(al.nodes[p] == p);
        } else {
            assert(al.nodes[p] == s[p]);
        }
    }
    assert forall|m: int|
        0 <= m < al.nodes.len() as int / 4 implies #[trigger] al.nodes[4 * m + 3] as int % 4
        <= 2 by {
        if m == n {
            assert(al.nodes[4 * m + 3] == (4 * k) as u32);
        } else {
            assert(!in_node(4 * m + 3, n));
            assert(al.nodes[4 * m + 3] == s[4 * m + 3]);
        }
    }
}

/// Reuse disjointness established by an annihilation: if beforehand the only
/// cells pointing into the vanishing pair, outside the pair's own cells, were
/// its four auxiliary neighbours, then afterwards no cell outside the freed
/// pair points into it, so the freed slots are unreachable from live ports.
pub proof fn lemma_annihilation_unreferenced(s: Seq<u32>, x: u32, y: u32)
    requires
        wf_cells(s),
        x < s.len() as int / 4,
        y < s.len() as int / 4,
        x != y,
        !in_node(s[4 * x as int + 1] as int, x) && !in_node(s[4 * x as int + 1] as int, y),
        !in_node(s[4 * y as int + 1] as int, x) && !in_node(s[4 * y as int + 1] as int, y),
        !in_node(s[4 * x as int + 2] as int, x) && !in_node(s[4 * x as int + 2] as int, y),
        !in_node(s[4 * y as int + 2] as int, x) && !in_node(s[4 * y as int + 2] as int, y),
        forall|p: int|
            0 <= p < s.len() && p % 4 != 3 && !in_node(p, x) && !in_node(p, y) && (in_node(
                #[trigger] s[p] as int,
                x,
            ) || in_node(s[p] as int, y)) ==> p == s[4 * x as int + 1] || p == s[4 * y as int + 1]
                || p == s[4 * x as int + 2] || p == s[4 * y as int + 2],
    ensures
        forall|p: int|
            0 <= p < s.len() && p % 4 != 3 && !in_node(p, x) && !in_node(p, y) ==> !in_node(
                #[trigger] annihilated(s, x, y)[p] as int,
                x,
            ) && !in_node(annihilated(s, x, y)[p] as int, y),
{
    let t = annihilated(s, x, y);
    let px1 = s[4 * x as int + 1];
    let py1 = s[4 * y as int + 1];
    let px2 = s[4 * x as int + 2];
    let py2 = s[4 * y as int + 2];
    assert forall|p: int|
        0 <= p < s.len() && p % 4 != 3 && !in_node(p, x) && !in_node(p, y) implies !in_node(
        #[trigger] t[p] as int,
        x,
    ) && !in_node(t[p] as int, y) by {
        if p == px1 as int {
            assert(t[p] == py1 || t[p] == py2 || t[p] == px2);
        } else if p == py1 as int {
            assert(t[p] == px1 || t[p] == py2 || t[p] == px2);
        } else if p == px2 as int {
            assert(t[p] == py2);
        } else if p == py2 as int {
            assert(t[p] == px2);
        } else {
            assert(t[p] == s[p]);
        }
    }
}

/// Apply one interaction rule to the active pair of distinct nodes `(x, y)`:
/// annihilation when the kinds are equal, commutation when they differ. Each
/// auxiliary neighbour port is read just before it is wired, never earlier:
/// when the pair's own auxiliary ports link into the pair, the earlier
/// wirings redirect them, and the late read picks the redirection up.
#[verifier::rlimit(100)]
#[verifier::spinoff_prover]
pub fn rewrite(net: &mut Net, x: u32, y: u32)
    requires
        is_wf(*old(net)),
        x < node_count(*old(net)),
        y < node_count(*old(net)),
        x != y,
        old(net).nodes@.len() + 8 <= CELL_LIMIT,
    ensures
        is_wf(*final(net)),
        old(net).nodes@.len() <= final(net).nodes@.len() <= old(net).nodes@.len() + 8,
        kind_of(*old(net), x as int) == kind_of(*old(net), y as int) ==> {
            &&& final(net).nodes@ == annihilated(old(net).nodes@, x, y)
            &&& final(net).reuse@ == old(net).reuse@.push(x).push(y)
        },
        kind_of(*old(net), x as int) != kind_of(*old(net), y as int) ==> {
            &&& final(net).nodes@ == commuted(old(net).nodes@, old(net).reuse@, x, y).nodes
            &&& final(net).reuse@ == commuted(old(net).nodes@, old(net).reuse@, x, y).reuse
        },
{
    if kind(net, x) == kind(net, y) {
        let p0 = enter(net, port(x, 1));
        let p1 = enter(net, port(y, 1));
        link(net, p0, p1);
        let p0 = enter(net, port(x, 2));
        let p1 = enter(net, port(y, 2));
        link(net, p0, p1);
        net.reuse.push(x);
        net.reuse.push(y);
        proof {
            assert(net.nodes@ == annihilated(old(net).nodes@, x, y));
            assert forall|i: int|
                0 <= i < net.reuse@.len() implies (#[trigger] net.reuse@[i]) < node_count(
                *net,
            ) by {
                if i < old(net).reuse@.len() {
                    assert(net.reuse@[i] == old(net).reuse@[i]);
                }
            }
        }
    } else {
        let ghost o_s = old(net).nodes@;
        let ghost o_r = old(net).reuse@;
        let ghost c = commuted(o_s, o_r, x, y);
        let kx = kind(net, x);
        let ky = kind(net, y);
        let a = new_node(net, kx);
        proof {
            let al = alloc_spec(o_s, o_r, kx);
            assert(net.nodes@ == al.nodes && net.reuse@ == al.reuse && a == al.node);
        }
        let b = new_node(net, ky);
        proof {
            let al = alloc_spec(o_s, o_r, kx);
            let bl = alloc_spec(al.nodes, al.reuse, ky);
            assert(net.nodes@ == bl.nodes && net.reuse@ == bl.reuse && b == bl.node);
            assert(net.reuse@ == c.reuse && a == c.a && b == c.b);
        }
        let ghost s2 = net.nodes@;
        let t = enter(net, port(x, 1));
        link(net, port(b, 0), t);
        let ghost s3 = net.nodes@;
        let t = enter(net, port(x, 2));
        link(net, port(y, 0), t);
        let ghost s4 = net.nodes@;
        let t = enter(net, port(y, 1));
        link(net, port(a, 0), t);
        let ghost s5 = net.nodes@;
        let t = enter(net, port(y, 2));
        link(net, port(x, 0), t);
        let ghost s6 = net.nodes@;
        link(net, port(a, 1), port(b, 1));
        let ghost s7 = net.nodes@;
        link(net, port(a, 2), port(y, 1));
        let ghost s8 = net.nodes@;
        link(net, port(x, 1), port(b, 2));
        let ghost s9 = net.nodes@;
        link(net, port(x, 2), port(y, 2));
        let ghost s10 = net.nodes@;
        set_meta(net, x, 0);
        let ghost s11 = net.nodes@;
        set_meta(net, y, 0);
        proof {
            assert(s3 == linked(s2, pt(b, 0), s2[4 * x as int + 1]));
            assert(s4 == linked(s3, pt(y, 0), s3[4 * x as int + 2]));
            assert(s5 == linked(s4, pt(a, 0), s4[4 * y as int + 1]));
            assert(s6 == linked(s5, pt(x, 0), s5[4 * y as int + 2]));
            assert(s7 == linked(s6, pt(a, 1), pt(b, 1)));
            assert(s8 == linked(s7, pt(a, 2), pt(y, 1)));
            assert(s9 == linked(s8, pt(x, 1), pt(b, 2)));
            assert(s10 == linked(s9, pt(x, 2), pt(y, 2)));
            assert(s11 == s10.update(
                4 * x as int + 3,
                (4 * (s10[4 * x as int + 3] as int / 4) + 0) as u32,
            ));
            assert(net.nodes@ == s11.update(
                4 * y as int + 3,
                (4 * (s11[4 * y as int + 3] as int / 4) + 0) as u32,
            ));
            assert(net.nodes@ == c.nodes);
            assert(net.reuse@ == c.reuse);
        }
    }
}

} // verus!
