use vstd::prelude::*;
use crate::fixed::Fixed;
use crate::kiwi::{
    build, children_of, children_upto, parent_of, place, place_list, root_index, translation_of,
    size_of_node, tree_of, walk_within, AbsolutePosition, KiwiNode,
};

verus! {

// ---------------------------------------------------------------------------
// Which records a placement reaches

/// The records placed by `place(nodes, idx, _, _, _, fuel)`: the record
/// itself and, with fuel left, those placed below its children.
pub open spec fn placed(nodes: Seq<KiwiNode>, idx: int, fuel: nat) -> Set<int>
    decreases fuel, 0int, 0int,
{
    if fuel == 0 {
        Set::empty()
    } else {
        let cs = children_of(nodes, nodes[idx].guid);
        placed_list(nodes, cs, cs.len() as int, (fuel - 1) as nat).insert(idx)
    }
}

/// The records placed by `place_list(nodes, cs, k, _, _, _, fuel)`.
pub open spec fn placed_list(nodes: Seq<KiwiNode>, cs: Seq<usize>, k: int, fuel: nat) -> Set<int>
    decreases fuel, 1int, k,
{
    if k <= 0 || k > cs.len() {
        Set::empty()
    } else {
        placed_list(nodes, cs, k - 1, fuel).union(placed(nodes, cs[k - 1] as int, fuel))
    }
}

/// Every record names a guid of its own.
pub open spec fn guids_distinct(nodes: Seq<KiwiNode>) -> bool {
    forall|i: int, j: int| 0 <= i < nodes.len() && 0 <= j < nodes.len() && i != j ==> nodes[i].guid != nodes[j].guid
}

proof fn lemma_children_members(nodes: Seq<KiwiNode>, g: crate::kiwi::KiwiGuid, k: int)
    requires
        0 <= k <= nodes.len() <= usize::MAX,
    ensures
        forall|i: int|
            0 <= i < children_upto(nodes, g, k).len() ==> {
                let c = #[trigger] children_upto(nodes, g, k)[i];
                &&& c < k
                &&& parent_of(nodes[c as int]) == Some(g)
            },
        forall|i: int, j: int|
            0 <= i < j < children_upto(nodes, g, k).len() ==> children_upto(nodes, g, k)[i]
                < children_upto(nodes, g, k)[j],
    decreases k,
{
    if k > 0 {
        lemma_children_members(nodes, g, k - 1);
        let c = children_upto(nodes, g, k - 1);
        let d = children_upto(nodes, g, k);
        if parent_of(nodes[k - 1]) == Some(g) {
            assert(d == c.push((k - 1) as usize));
            assert forall|i: int| 0 <= i < d.len() implies {
                let x = #[trigger] d[i];
                &&& x < k
                &&& parent_of(nodes[x as int]) == Some(g)
            } by {
                if i < c.len() {
                    assert(d[i] == c[i]);
                }
            }
            assert forall|i: int, j: int| 0 <= i < j < d.len() implies d[i] < d[j] by {
                assert(d[i] == c[i]);
                if j < c.len() {
                    assert(d[j] == c[j]);
                }
            }
        }
    }
}

/// The children of a record are records, in increasing order, naming it as parent.
proof fn lemma_children(nodes: Seq<KiwiNode>, u: int)
    requires
        0 <= u < nodes.len() <= usize::MAX,
    ensures
        forall|i: int|
            0 <= i < children_of(nodes, nodes[u].guid).len() ==> {
                let c = #[trigger] children_of(nodes, nodes[u].guid)[i];
                &&& c < nodes.len()
                &&& parent_of(nodes[c as int]) == Some(nodes[u].guid)
            },
        forall|i: int, j: int|
            0 <= i < j < children_of(nodes, nodes[u].guid).len() ==> children_of(nodes, nodes[u].guid)[i]
                < children_of(nodes, nodes[u].guid)[j],
{
    lemma_children_members(nodes, nodes[u].guid, nodes.len() as int);
}

// ---------------------------------------------------------------------------
// A placement changes only the records it reaches

proof fn lemma_place_frame(
    nodes: Seq<KiwiNode>,
    idx: int,
    px: Fixed,
    py: Fixed,
    pos: Seq<Option<AbsolutePosition>>,
    fuel: nat,
)
    requires
        0 <= idx < nodes.len() <= usize::MAX,
        pos.len() == nodes.len(),
    ensures
        place(nodes, idx, px, py, pos, fuel).len() == pos.len(),
        forall|j: int|
            0 <= j < pos.len() && !placed(nodes, idx, fuel).contains(j) ==> #[trigger] place(
                nodes,
                idx,
                px,
                py,
                pos,
                fuel,
            )[j] == pos[j],
    decreases fuel, 0int, 0int,
{
    if fuel > 0 {
        let t = translation_of(nodes[idx]);
        let z = size_of_node(nodes[idx]);
        let ax = crate::fixed::clamp_i64(px + t.0) as Fixed;
        let ay = crate::fixed::clamp_i64(py + t.1) as Fixed;
        let pos1 = pos.update(idx, Some(AbsolutePosition { x: ax, y: ay, w: z.0, h: z.1 }));
        let cs = children_of(nodes, nodes[idx].guid);
        lemma_children(nodes, idx);
        lemma_place_list_frame(nodes, cs, cs.len() as int, ax, ay, pos1, (fuel - 1) as nat);
    }
}

proof fn lemma_place_list_frame(
    nodes: Seq<KiwiNode>,
    cs: Seq<usize>,
    k: int,
    px: Fixed,
    py: Fixed,
    pos: Seq<Option<AbsolutePosition>>,
    fuel: nat,
)
    requires
        pos.len() == nodes.len() <= usize::MAX,
        forall|i: int| 0 <= i < cs.len() ==> #[trigger] cs[i] < nodes.len(),
    ensures
        place_list(nodes, cs, k, px, py, pos, fuel).len() == pos.len(),
        forall|j: int|
            0 <= j < pos.len() && !placed_list(nodes, cs, k, fuel).contains(j) ==> #[trigger] place_list(
                nodes,
                cs,
                k,
                px,
                py,
                pos,
                fuel,
            )[j] == pos[j],
    decreases fuel, 1int, k,
{
    if 0 < k <= cs.len() {
        lemma_place_list_frame(nodes, cs, k - 1, px, py, pos, fuel);
        let mid = place_list(nodes, cs, k - 1, px, py, pos, fuel);
        lemma_place_frame(nodes, cs[k - 1] as int, px, py, mid, fuel);
    }
}


// ---------------------------------------------------------------------------
// The shape of the set of records reached

proof fn lemma_placed_list_elim(nodes: Seq<KiwiNode>, cs: Seq<usize>, k: int, fuel: nat, j: int)
    requires
        placed_list(nodes, cs, k, fuel).contains(j),
    ensures
        exists|a: int| 0 <= a < k && a < cs.len() && #[trigger] placed(nodes, cs[a] as int, fuel).contains(j),
    decreases k,
{
    if 0 < k <= cs.len() {
        if placed_list(nodes, cs, k - 1, fuel).contains(j) {
            lemma_placed_list_elim(nodes, cs, k - 1, fuel, j);
        } else {
            assert(placed(nodes, cs[k - 1] as int, fuel).contains(j));
        }
    }
}

proof fn lemma_placed_list_intro(nodes: Seq<KiwiNode>, cs: Seq<usize>, k: int, fuel: nat, a: int, j: int)
    requires
        0 <= a < k <= cs.len(),
        placed(nodes, cs[a] as int, fuel).contains(j),
    ensures
        placed_list(nodes, cs, k, fuel).contains(j),
    decreases k,
{
    if a < k - 1 {
        lemma_placed_list_intro(nodes, cs, k - 1, fuel, a, j);
    }
}

proof fn lemma_walk_within_mono(nodes: Seq<KiwiNode>, idx: int, f: nat, g: nat)
    requires
        walk_within(nodes, idx, f),
        f <= g,
    ensures
        walk_within(nodes, idx, g),
    decreases f,
{
    let cs = children_of(nodes, nodes[idx].guid);
    assert forall|k: int| 0 <= k < cs.len() implies walk_within(nodes, #[trigger] cs[k] as int, (g - 1) as nat) by {
        lemma_walk_within_mono(nodes, cs[k] as int, (f - 1) as nat, (g - 1) as nat);
    }
}

proof fn lemma_placed_mono(nodes: Seq<KiwiNode>, idx: int, f: nat, g: nat, j: int)
    requires
        f <= g,
        placed(nodes, idx, f).contains(j),
    ensures
        placed(nodes, idx, g).contains(j),
    decreases f, 0int, 0int,
{
    if j != idx {
        let cs = children_of(nodes, nodes[idx].guid);
        lemma_placed_list_mono(nodes, cs, cs.len() as int, (f - 1) as nat, (g - 1) as nat, j);
    }
}

proof fn lemma_placed_list_mono(nodes: Seq<KiwiNode>, cs: Seq<usize>, k: int, f: nat, g: nat, j: int)
    requires
        f <= g,
        placed_list(nodes, cs, k, f).contains(j),
    ensures
        placed_list(nodes, cs, k, g).contains(j),
    decreases f, 1int, k,
{
    if 0 < k <= cs.len() {
        if placed_list(nodes, cs, k - 1, f).contains(j) {
            lemma_placed_list_mono(nodes, cs, k - 1, f, g, j);
        } else {
            lemma_placed_mono(nodes, cs[k - 1] as int, f, g, j);
        }
    }
}

/// With enough fuel to end the walk, more fuel reaches no more records.
proof fn lemma_placed_enough(nodes: Seq<KiwiNode>, idx: int, f: nat, g: nat, j: int)
    requires
        walk_within(nodes, idx, f),
        f <= g,
        placed(nodes, idx, g).contains(j),
    ensures
        placed(nodes, idx, f).contains(j),
    decreases f, 0int, 0int,
{
    if j != idx {
        let cs = children_of(nodes, nodes[idx].guid);
        lemma_placed_list_elim(nodes, cs, cs.len() as int, (g - 1) as nat, j);
        let a = choose|a: int| 0 <= a < cs.len() && #[trigger] placed(nodes, cs[a] as int, (g - 1) as nat).contains(j);
        assert(walk_within(nodes, cs[a] as int, (f - 1) as nat));
        lemma_placed_enough(nodes, cs[a] as int, (f - 1) as nat, (g - 1) as nat, j);
        lemma_placed_list_intro(nodes, cs, cs.len() as int, (f - 1) as nat, a, j);
    }
}

/// A record reached by a walk that ends within `fuel` levels has a walk of
/// its own that ends within them.
proof fn lemma_placed_walk_within(nodes: Seq<KiwiNode>, idx: int, fuel: nat, j: int)
    requires
        walk_within(nodes, idx, fuel),
        placed(nodes, idx, fuel).contains(j),
    ensures
        walk_within(nodes, j, fuel),
    decreases fuel,
{
    if j != idx {
        let cs = children_of(nodes, nodes[idx].guid);
        lemma_placed_list_elim(nodes, cs, cs.len() as int, (fuel - 1) as nat, j);
        let a = choose|a: int| 0 <= a < cs.len() && #[trigger] placed(nodes, cs[a] as int, (fuel - 1) as nat).contains(j);
        assert(walk_within(nodes, cs[a] as int, (fuel - 1) as nat));
        lemma_placed_walk_within(nodes, cs[a] as int, (fuel - 1) as nat, j);
        lemma_walk_within_mono(nodes, j, (fuel - 1) as nat, fuel);
    }
}

/// A record reached below `idx` (other than `idx`) is a child of a record
/// reached one level sooner.
proof fn lemma_placed_parent(nodes: Seq<KiwiNode>, idx: int, fuel: nat, j: int)
    requires
        placed(nodes, idx, fuel).contains(j),
        j != idx,
    ensures
        exists|u: int, k: int|
            #![trigger placed(nodes, idx, (fuel - 1) as nat).contains(u), children_of(nodes, nodes[u].guid)[k]]
            placed(nodes, idx, (fuel - 1) as nat).contains(u) && 0 <= k < children_of(nodes, nodes[u].guid).len()
                && children_of(nodes, nodes[u].guid)[k] == j,
    decreases fuel,
{
    let cs = children_of(nodes, nodes[idx].guid);
    lemma_placed_list_elim(nodes, cs, cs.len() as int, (fuel - 1) as nat, j);
    let a = choose|a: int| 0 <= a < cs.len() && #[trigger] placed(nodes, cs[a] as int, (fuel - 1) as nat).contains(j);
    let c = cs[a] as int;
    if j == c {
        assert(placed(nodes, idx, (fuel - 1) as nat).contains(idx));
        assert(children_of(nodes, nodes[idx].guid)[a] == j);
    } else {
        lemma_placed_parent(nodes, c, (fuel - 1) as nat, j);
        let (u, k) = choose|u: int, k: int|
            #![trigger placed(nodes, c, (fuel - 2) as nat).contains(u), children_of(nodes, nodes[u].guid)[k]]
            placed(nodes, c, (fuel - 2) as nat).contains(u) && 0 <= k < children_of(nodes, nodes[u].guid).len()
                && children_of(nodes, nodes[u].guid)[k] == j;
        lemma_placed_list_intro(nodes, cs, cs.len() as int, (fuel - 2) as nat, a, u);
        assert(placed(nodes, idx, (fuel - 1) as nat).contains(u));
    }
}


proof fn lemma_placed_in_range(nodes: Seq<KiwiNode>, idx: int, fuel: nat, j: int)
    requires
        0 <= idx < nodes.len() <= usize::MAX,
        placed(nodes, idx, fuel).contains(j),
    ensures
        0 <= j < nodes.len(),
    decreases fuel,
{
    if j != idx {
        let cs = children_of(nodes, nodes[idx].guid);
        lemma_children(nodes, idx);
        lemma_placed_list_elim(nodes, cs, cs.len() as int, (fuel - 1) as nat, j);
        let a = choose|a: int| 0 <= a < cs.len() && #[trigger] placed(nodes, cs[a] as int, (fuel - 1) as nat).contains(j);
        lemma_placed_in_range(nodes, cs[a] as int, (fuel - 1) as nat, j);
    }
}

/// With distinct guids a record is the child of one record at most.
proof fn lemma_unique_parent(nodes: Seq<KiwiNode>, u: int, k1: int, v: int, k2: int)
    requires
        guids_distinct(nodes),
        0 <= u < nodes.len() <= usize::MAX,
        0 <= v < nodes.len(),
        0 <= k1 < children_of(nodes, nodes[u].guid).len(),
        0 <= k2 < children_of(nodes, nodes[v].guid).len(),
        children_of(nodes, nodes[u].guid)[k1] == children_of(nodes, nodes[v].guid)[k2],
    ensures
        u == v,
{
    lemma_children(nodes, u);
    lemma_children(nodes, v);
    let c = children_of(nodes, nodes[u].guid)[k1];
    assert(parent_of(nodes[c as int]) == Some(nodes[u].guid));
    assert(parent_of(nodes[c as int]) == Some(nodes[v].guid));
}

/// A walk that ends never comes back to where it started.
proof fn lemma_no_cycle(nodes: Seq<KiwiNode>, x: int, a: int, f: nat)
    requires
        0 <= x < nodes.len() <= usize::MAX,
        walk_within(nodes, x, f),
        0 <= a < children_of(nodes, nodes[x].guid).len(),
    ensures
        !placed(nodes, children_of(nodes, nodes[x].guid)[a] as int, (f - 1) as nat).contains(x),
    decreases f,
{
    let c = children_of(nodes, nodes[x].guid)[a] as int;
    if placed(nodes, c, (f - 1) as nat).contains(x) {
        assert(walk_within(nodes, c, (f - 1) as nat));
        lemma_placed_walk_within(nodes, c, (f - 1) as nat, x);
        assert(walk_within(nodes, c, (f - 2) as nat));
        lemma_placed_enough(nodes, c, (f - 2) as nat, (f - 1) as nat, x);
        lemma_no_cycle(nodes, x, a, (f - 1) as nat);
    }
}

/// Two records reaching a common record: one reaches the other.
proof fn lemma_common_ancestor(nodes: Seq<KiwiNode>, y: int, g1: nat, z: int, g2: nat, j: int)
    requires
        guids_distinct(nodes),
        0 <= y < nodes.len() <= usize::MAX,
        0 <= z < nodes.len(),
        placed(nodes, y, g1).contains(j),
        placed(nodes, z, g2).contains(j),
    ensures
        placed(nodes, z, g2).contains(y) || placed(nodes, y, g1).contains(z),
    decreases g1,
{
    if j != y && j != z {
        lemma_placed_parent(nodes, y, g1, j);
        let (u1, k1) = choose|u: int, k: int|
            #![trigger placed(nodes, y, (g1 - 1) as nat).contains(u), children_of(nodes, nodes[u].guid)[k]]
            placed(nodes, y, (g1 - 1) as nat).contains(u) && 0 <= k < children_of(nodes, nodes[u].guid).len()
                && children_of(nodes, nodes[u].guid)[k] == j;
        lemma_placed_parent(nodes, z, g2, j);
        let (u2, k2) = choose|u: int, k: int|
            #![trigger placed(nodes, z, (g2 - 1) as nat).contains(u), children_of(nodes, nodes[u].guid)[k]]
            placed(nodes, z, (g2 - 1) as nat).contains(u) && 0 <= k < children_of(nodes, nodes[u].guid).len()
                && children_of(nodes, nodes[u].guid)[k] == j;
        lemma_placed_in_range(nodes, y, (g1 - 1) as nat, u1);
        lemma_placed_in_range(nodes, z, (g2 - 1) as nat, u2);
        lemma_unique_parent(nodes, u1, k1, u2, k2);
        lemma_common_ancestor(nodes, y, (g1 - 1) as nat, z, (g2 - 1) as nat, u1);
        if placed(nodes, z, (g2 - 1) as nat).contains(y) {
            lemma_placed_mono(nodes, z, (g2 - 1) as nat, g2, y);
        } else {
            lemma_placed_mono(nodes, y, (g1 - 1) as nat, g1, z);
        }
    }
}

/// The subtrees below two children of a record share no record.
proof fn lemma_siblings_apart(nodes: Seq<KiwiNode>, x: int, f: nat, a: int, b: int, j: int)
    requires
        guids_distinct(nodes),
        0 <= x < nodes.len() <= usize::MAX,
        walk_within(nodes, x, f),
        0 <= a < children_of(nodes, nodes[x].guid).len(),
        0 <= b < children_of(nodes, nodes[x].guid).len(),
        a != b,
    ensures
        !(placed(nodes, children_of(nodes, nodes[x].guid)[a] as int, (f - 1) as nat).contains(j)
            && placed(nodes, children_of(nodes, nodes[x].guid)[b] as int, (f - 1) as nat).contains(j)),
{
    let cs = children_of(nodes, nodes[x].guid);
    if placed(nodes, cs[a] as int, (f - 1) as nat).contains(j) && placed(nodes, cs[b] as int, (f - 1) as nat).contains(j) {
        lemma_children(nodes, x);
        let ca = cs[a] as int;
        let cb = cs[b] as int;
        assert(ca != cb) by {
            if a < b {
                assert(cs[a] < cs[b]);
            } else {
                assert(cs[b] < cs[a]);
            }
        }
        lemma_common_ancestor(nodes, ca, (f - 1) as nat, cb, (f - 1) as nat, j);
        if placed(nodes, ca, (f - 1) as nat).contains(cb) {
            lemma_placed_parent(nodes, ca, (f - 1) as nat, cb);
            let (u, k) = choose|u: int, k: int|
                #![trigger placed(nodes, ca, (f - 2) as nat).contains(u), children_of(nodes, nodes[u].guid)[k]]
                placed(nodes, ca, (f - 2) as nat).contains(u) && 0 <= k < children_of(nodes, nodes[u].guid).len()
                    && children_of(nodes, nodes[u].guid)[k] == cb;
            lemma_placed_in_range(nodes, ca, (f - 2) as nat, u);
            lemma_unique_parent(nodes, u, k, x, b);
            lemma_placed_mono(nodes, ca, (f - 2) as nat, (f - 1) as nat, x);
            lemma_no_cycle(nodes, x, a, f);
        } else {
            lemma_placed_parent(nodes, cb, (f - 1) as nat, ca);
            let (u, k) = choose|u: int, k: int|
                #![trigger placed(nodes, cb, (f - 2) as nat).contains(u), children_of(nodes, nodes[u].guid)[k]]
                placed(nodes, cb, (f - 2) as nat).contains(u) && 0 <= k < children_of(nodes, nodes[u].guid).len()
                    && children_of(nodes, nodes[u].guid)[k] == ca;
            lemma_placed_in_range(nodes, cb, (f - 2) as nat, u);
            lemma_unique_parent(nodes, u, k, x, a);
            lemma_placed_mono(nodes, cb, (f - 2) as nat, (f - 1) as nat, x);
            lemma_no_cycle(nodes, x, b, f);
        }
    }
}

// ---------------------------------------------------------------------------
// Each record is placed once

/// No record is placed twice below `idx`: it is not below itself, and the
/// subtrees of its children are apart.
spec fn tree_ok(nodes: Seq<KiwiNode>, idx: int, fuel: nat) -> bool
    decreases fuel, 0int, 0int,
{
    fuel == 0 || {
        let cs = children_of(nodes, nodes[idx].guid);
        &&& !placed_list(nodes, cs, cs.len() as int, (fuel - 1) as nat).contains(idx)
        &&& list_ok(nodes, cs, cs.len() as int, (fuel - 1) as nat)
    }
}

/// No record is placed twice below the first `k` records of `cs`.
spec fn list_ok(nodes: Seq<KiwiNode>, cs: Seq<usize>, k: int, fuel: nat) -> bool
    decreases fuel, 1int, k,
{
    k <= 0 || k > cs.len() || {
        &&& list_ok(nodes, cs, k - 1, fuel)
        &&& tree_ok(nodes, cs[k - 1] as int, fuel)
        &&& forall|j: int|
            !(#[trigger] placed_list(nodes, cs, k - 1, fuel).contains(j) && placed(nodes, cs[k - 1] as int, fuel).contains(j))
    }
}

proof fn lemma_tree_ok(nodes: Seq<KiwiNode>, x: int, f: nat)
    requires
        guids_distinct(nodes),
        0 <= x < nodes.len() <= usize::MAX,
        walk_within(nodes, x, f),
    ensures
        tree_ok(nodes, x, f),
    decreases f, 1int, 0int,
{
    let cs = children_of(nodes, nodes[x].guid);
    if placed_list(nodes, cs, cs.len() as int, (f - 1) as nat).contains(x) {
        lemma_placed_list_elim(nodes, cs, cs.len() as int, (f - 1) as nat, x);
        let a = choose|a: int| 0 <= a < cs.len() && #[trigger] placed(nodes, cs[a] as int, (f - 1) as nat).contains(x);
        lemma_no_cycle(nodes, x, a, f);
    }
    lemma_list_ok(nodes, x, f, cs.len() as int);
}

proof fn lemma_list_ok(nodes: Seq<KiwiNode>, x: int, f: nat, k: int)
    requires
        guids_distinct(nodes),
        0 <= x < nodes.len() <= usize::MAX,
        walk_within(nodes, x, f),
        k <= children_of(nodes, nodes[x].guid).len(),
    ensures
        list_ok(nodes, children_of(nodes, nodes[x].guid), k, (f - 1) as nat),
    decreases f, 0int, k,
{
    let cs = children_of(nodes, nodes[x].guid);
    if 0 < k {
        lemma_list_ok(nodes, x, f, k - 1);
        lemma_children(nodes, x);
        assert(walk_within(nodes, cs[k - 1] as int, (f - 1) as nat));
        lemma_tree_ok(nodes, cs[k - 1] as int, (f - 1) as nat);
        assert forall|j: int|
            !(#[trigger] placed_list(nodes, cs, k - 1, (f - 1) as nat).contains(j) && placed(
                nodes,
                cs[k - 1] as int,
                (f - 1) as nat,
            ).contains(j)) by {
            if placed_list(nodes, cs, k - 1, (f - 1) as nat).contains(j) {
                lemma_placed_list_elim(nodes, cs, k - 1, (f - 1) as nat, j);
                let a = choose|a: int| 0 <= a < k - 1 && a < cs.len() && #[trigger] placed(nodes, cs[a] as int, (f - 1) as nat).contains(j);
                lemma_siblings_apart(nodes, x, f, a, k - 1, j);
            }
        }
    }
}

/// The children of a record reached by a walk that ends are reached too.
proof fn lemma_placed_closed(nodes: Seq<KiwiNode>, x: int, f: nat, u: int, k: int)
    requires
        walk_within(nodes, x, f),
        placed(nodes, x, f).contains(u),
        0 <= k < children_of(nodes, nodes[u].guid).len(),
    ensures
        placed(nodes, x, f).contains(children_of(nodes, nodes[u].guid)[k] as int),
    decreases f,
{
    let cs = children_of(nodes, nodes[x].guid);
    if u == x {
        let c = cs[k] as int;
        assert(walk_within(nodes, c, (f - 1) as nat));
        assert(placed(nodes, c, (f - 1) as nat).contains(c));
        lemma_placed_list_intro(nodes, cs, cs.len() as int, (f - 1) as nat, k, c);
    } else {
        lemma_placed_list_elim(nodes, cs, cs.len() as int, (f - 1) as nat, u);
        let a = choose|a: int| 0 <= a < cs.len() && #[trigger] placed(nodes, cs[a] as int, (f - 1) as nat).contains(u);
        assert(walk_within(nodes, cs[a] as int, (f - 1) as nat));
        lemma_placed_closed(nodes, cs[a] as int, (f - 1) as nat, u, k);
        lemma_placed_list_intro(nodes, cs, cs.len() as int, (f - 1) as nat, a, children_of(nodes, nodes[u].guid)[k] as int);
    }
}

// ---------------------------------------------------------------------------
// The positions placed

/// The position of a record placed below a parent at `(px, py)`: the
/// parent's position plus the record's translation (each coordinate limited
/// to `i64`), with the record's size.
pub open spec fn position_below(n: KiwiNode, px: Fixed, py: Fixed) -> AbsolutePosition {
    let t = translation_of(n);
    let z = size_of_node(n);
    AbsolutePosition {
        x: crate::fixed::clamp_i64(px + t.0) as Fixed,
        y: crate::fixed::clamp_i64(py + t.1) as Fixed,
        w: z.0,
        h: z.1,
    }
}

proof fn lemma_place_values(
    nodes: Seq<KiwiNode>,
    idx: int,
    px: Fixed,
    py: Fixed,
    pos: Seq<Option<AbsolutePosition>>,
    fuel: nat,
)
    requires
        0 <= idx < nodes.len() <= usize::MAX,
        pos.len() == nodes.len(),
        walk_within(nodes, idx, fuel),
        tree_ok(nodes, idx, fuel),
    ensures
        ({
            let r = place(nodes, idx, px, py, pos, fuel);
            &&& r[idx] == Some(position_below(nodes[idx], px, py))
            &&& forall|u: int| #[trigger] placed(nodes, idx, fuel).contains(u) ==> r[u] is Some
            &&& forall|u: int, k: int|
                #![trigger placed(nodes, idx, fuel).contains(u), children_of(nodes, nodes[u].guid)[k]]
                placed(nodes, idx, fuel).contains(u) && 0 <= k < children_of(nodes, nodes[u].guid).len() ==> r[children_of(
                    nodes,
                    nodes[u].guid,
                )[k] as int] == Some(
                    position_below(nodes[children_of(nodes, nodes[u].guid)[k] as int], r[u]->0.x, r[u]->0.y),
                )
        }),
    decreases fuel, 0int, 0int,
{
    let v = position_below(nodes[idx], px, py);
    let pos1 = pos.update(idx, Some(v));
    let cs = children_of(nodes, nodes[idx].guid);
    let f1 = (fuel - 1) as nat;
    let r = place(nodes, idx, px, py, pos, fuel);
    lemma_children(nodes, idx);
    assert(r == place_list(nodes, cs, cs.len() as int, v.x, v.y, pos1, f1));
    lemma_place_list_frame(nodes, cs, cs.len() as int, v.x, v.y, pos1, f1);
    assert forall|a: int| 0 <= a < cs.len() implies walk_within(nodes, #[trigger] cs[a] as int, f1) by {}
    lemma_place_list_values(nodes, cs, cs.len() as int, v.x, v.y, pos1, f1);
    assert(r[idx] == Some(v));
    assert forall|u: int| #[trigger] placed(nodes, idx, fuel).contains(u) implies r[u] is Some by {
        if u != idx {
            assert(placed_list(nodes, cs, cs.len() as int, f1).contains(u));
        }
    }
    assert forall|u: int, k: int|
        #![trigger placed(nodes, idx, fuel).contains(u), children_of(nodes, nodes[u].guid)[k]]
        placed(nodes, idx, fuel).contains(u) && 0 <= k < children_of(nodes, nodes[u].guid).len() implies r[children_of(
            nodes,
            nodes[u].guid,
        )[k] as int] == Some(position_below(nodes[children_of(nodes, nodes[u].guid)[k] as int], r[u]->0.x, r[u]->0.y)) by {
        if u == idx {
            assert(r[cs[k] as int] == Some(position_below(nodes[cs[k] as int], v.x, v.y)));
        } else {
            assert(placed_list(nodes, cs, cs.len() as int, f1).contains(u));
        }
    }
}

proof fn lemma_place_list_values(
    nodes: Seq<KiwiNode>,
    cs: Seq<usize>,
    k: int,
    px: Fixed,
    py: Fixed,
    pos: Seq<Option<AbsolutePosition>>,
    fuel: nat,
)
    requires
        pos.len() == nodes.len() <= usize::MAX,
        k <= cs.len(),
        forall|i: int| 0 <= i < cs.len() ==> #[trigger] cs[i] < nodes.len(),
        forall|i: int| 0 <= i < cs.len() ==> walk_within(nodes, #[trigger] cs[i] as int, fuel),
        list_ok(nodes, cs, k, fuel),
    ensures
        ({
            let r = place_list(nodes, cs, k, px, py, pos, fuel);
            &&& forall|a: int| 0 <= a < k ==> r[#[trigger] cs[a] as int] == Some(position_below(nodes[cs[a] as int], px, py))
            &&& forall|u: int| #[trigger] placed_list(nodes, cs, k, fuel).contains(u) ==> r[u] is Some
            &&& forall|u: int, kk: int|
                #![trigger placed_list(nodes, cs, k, fuel).contains(u), children_of(nodes, nodes[u].guid)[kk]]
                placed_list(nodes, cs, k, fuel).contains(u) && 0 <= kk < children_of(nodes, nodes[u].guid).len() ==> r[children_of(
                    nodes,
                    nodes[u].guid,
                )[kk] as int] == Some(
                    position_below(nodes[children_of(nodes, nodes[u].guid)[kk] as int], r[u]->0.x, r[u]->0.y),
                )
        }),
    decreases fuel, 1int, k,
{
    if 0 < k {
        let mid = place_list(nodes, cs, k - 1, px, py, pos, fuel);
        let c = cs[k - 1] as int;
        let r = place_list(nodes, cs, k, px, py, pos, fuel);
        lemma_place_list_values(nodes, cs, k - 1, px, py, pos, fuel);
        lemma_place_list_frame(nodes, cs, k - 1, px, py, pos, fuel);
        lemma_place_frame(nodes, c, px, py, mid, fuel);
        lemma_place_values(nodes, c, px, py, mid, fuel);
        assert(r == place(nodes, c, px, py, mid, fuel));
        assert forall|a: int| 0 <= a < k implies r[#[trigger] cs[a] as int] == Some(position_below(nodes[cs[a] as int], px, py)) by {
            if a < k - 1 {
                assert(placed(nodes, cs[a] as int, fuel).contains(cs[a] as int));
                lemma_placed_list_intro(nodes, cs, k - 1, fuel, a, cs[a] as int);
                assert(!placed(nodes, c, fuel).contains(cs[a] as int));
            }
        }
        assert forall|u: int| #[trigger] placed_list(nodes, cs, k, fuel).contains(u) implies r[u] is Some by {
            if placed_list(nodes, cs, k - 1, fuel).contains(u) {
                lemma_placed_list_elim(nodes, cs, k - 1, fuel, u);
                let a = choose|a: int| 0 <= a < k - 1 && a < cs.len() && #[trigger] placed(nodes, cs[a] as int, fuel).contains(u);
                lemma_placed_in_range(nodes, cs[a] as int, fuel, u);
                assert(!placed(nodes, c, fuel).contains(u));
            }
        }
        assert forall|u: int, kk: int|
            #![trigger placed_list(nodes, cs, k, fuel).contains(u), children_of(nodes, nodes[u].guid)[kk]]
            placed_list(nodes, cs, k, fuel).contains(u) && 0 <= kk < children_of(nodes, nodes[u].guid).len() implies r[children_of(
                nodes,
                nodes[u].guid,
            )[kk] as int] == Some(position_below(nodes[children_of(nodes, nodes[u].guid)[kk] as int], r[u]->0.x, r[u]->0.y)) by {
            let ch = children_of(nodes, nodes[u].guid)[kk] as int;
            if placed(nodes, c, fuel).contains(u) {
            } else {
                assert(placed_list(nodes, cs, k - 1, fuel).contains(u));
                lemma_placed_list_elim(nodes, cs, k - 1, fuel, u);
                let a = choose|a: int| 0 <= a < k - 1 && a < cs.len() && #[trigger] placed(nodes, cs[a] as int, fuel).contains(u);
                lemma_placed_closed(nodes, cs[a] as int, fuel, u, kk);
                lemma_placed_in_range(nodes, cs[a] as int, fuel, u);
                lemma_children(nodes, u);
                lemma_placed_list_intro(nodes, cs, k - 1, fuel, a, ch);
                assert(!placed(nodes, c, fuel).contains(ch));
                assert(!placed(nodes, c, fuel).contains(u));
                assert(r[ch] == mid[ch]);
                assert(r[u] == mid[u]);
            }
        }
    }
}

// ---------------------------------------------------------------------------
// Laws

/// The absolute positions the tree of a capture is built with: the
/// placement from its root record at `(0, 0)`.
pub open spec fn positions_of(nodes: Seq<KiwiNode>) -> Seq<Option<AbsolutePosition>> {
    place(nodes, root_index(nodes), 0, 0, Seq::new(nodes.len(), |i: int| None), nodes.len())
}

/// Positions accumulate down the chain of translations. For a capture whose
/// records have distinct guids and whose tree exists, the tree is built
/// with `positions_of`; there the root record sits at its own translation,
/// and every record reached below it sits at its parent's position plus its
/// own translation (each coordinate limited to `i64`), with its own size.
pub proof fn lemma_positions_accumulate(nodes: Seq<KiwiNode>)
    requires
        nodes.len() <= usize::MAX,
        guids_distinct(nodes),
        tree_of(nodes) is Some,
    ensures
        ({
            let r = root_index(nodes);
            let pos = positions_of(nodes);
            &&& tree_of(nodes) == Some(build(nodes, pos, r, nodes.len()))
            &&& pos[r] == Some(position_below(nodes[r], 0, 0))
            &&& forall|u: int| #[trigger] placed(nodes, r, nodes.len()).contains(u) ==> pos[u] is Some
            &&& forall|u: int, k: int|
                #![trigger placed(nodes, r, nodes.len()).contains(u), children_of(nodes, nodes[u].guid)[k]]
                placed(nodes, r, nodes.len()).contains(u) && 0 <= k < children_of(nodes, nodes[u].guid).len()
                    ==> pos[children_of(nodes, nodes[u].guid)[k] as int] == Some(
                    position_below(nodes[children_of(nodes, nodes[u].guid)[k] as int], pos[u]->0.x, pos[u]->0.y),
                )
        }),
{
    let n = nodes.len();
    let r = root_index(nodes);
    crate::kiwi::lemma_tree_root(nodes);
    let init: Seq<Option<AbsolutePosition>> = Seq::new(n, |i: int| None);
    assert(walk_within(nodes, r, n));
    lemma_tree_ok(nodes, r, n);
    lemma_place_values(nodes, r, 0, 0, init, n);
}

} // verus!
