//! Topological ordering of the graph's nodes.

use vstd::prelude::*;
use vstd::set_lib::{lemma_int_range, lemma_len_subset, lemma_subset_equality, set_int_range};
use crate::graph::{Graph, GraphView, NodeId, TensorId};
use crate::graph::builder::{built_by_nodes, count_in, names_tensor, node_built, readers};

verus! {

broadcast use crate::graph::group_graph_model;

/// Node `u` produces a tensor that node `v` consumes.
pub open spec fn feeds(g: GraphView, u: u32, v: u32) -> bool {
    &&& g.nodes.contains_key(u)
    &&& g.nodes.contains_key(v)
    &&& exists|t: TensorId, c: NodeId|
            g.nodes[u].outputs.contains(t) && g.tensors.contains_key(t@)
            && #[trigger] g.tensors[t@].consumers.contains(c) && c@ == v
}

/// `order` lists distinct nodes of the graph, each after every node that
/// feeds it.
pub open spec fn is_topological(g: GraphView, order: Seq<NodeId>) -> bool {
    &&& order.no_duplicates()
    &&& forall|j: int| 0 <= j < order.len() ==> #[trigger] g.nodes.contains_key(order[j]@)
    &&& forall|j: int, w: u32| 0 <= j < order.len() && #[trigger] feeds(g, w, order[j]@) ==>
            exists|i: int| 0 <= i < j && order[i]@ == w
}

/// Occurrences of node `v` in a consumer list.
pub open spec fn node_count(cons: Seq<NodeId>, v: u32) -> nat
    decreases cons.len(),
{
    if cons.len() == 0 {
        0
    } else {
        node_count(cons.drop_last(), v) + if cons.last()@ == v { 1nat } else { 0nat }
    }
}

/// Edges from the listed tensors to node `v`, counted once per consumer
/// entry.
pub open spec fn edge_count(g: GraphView, outs: Seq<TensorId>, v: u32) -> nat
    decreases outs.len(),
{
    if outs.len() == 0 {
        0
    } else {
        edge_count(g, outs.drop_last(), v) + if g.tensors.contains_key(outs.last()@) {
            node_count(g.tensors[outs.last()@].consumers, v)
        } else {
            0nat
        }
    }
}

/// Edges into `v` from nodes with id below `k` that are not yet `done`.
pub open spec fn pending(g: GraphView, done: Set<int>, v: u32, k: nat) -> nat
    decreases k,
{
    if k == 0 {
        0
    } else {
        let u = (k - 1) as u32;
        pending(g, done, v, (k - 1) as nat) + if g.nodes.contains_key(u) && !done.contains(u as int) {
            edge_count(g, g.nodes[u].outputs, v)
        } else {
            0nat
        }
    }
}

/// Node `v` appears in `order`.
pub open spec fn listed(order: Seq<NodeId>, v: u32) -> bool {
    exists|j: int| 0 <= j < order.len() && order[j]@ == v
}

/// Edges into node `v` from the nodes of the graph.
pub open spec fn in_degree(g: GraphView, v: u32) -> nat {
    pending(g, Set::empty(), v, g.next_node_id as nat)
}

/// Every node's count of incoming edges fits in a `u64`.
pub open spec fn in_degrees_fit(g: GraphView) -> bool {
    forall|v: u32| #[trigger] g.nodes.contains_key(v) ==> in_degree(g, v) <= u64::MAX
}

/// Every node left out of `order` is fed by a node that was left out too,
/// so only nodes on a cycle or downstream of one are missing.
pub open spec fn leaves_out_only_cycles(g: GraphView, order: Seq<NodeId>) -> bool {
    forall|v: u32| #[trigger] g.nodes.contains_key(v) && !listed(order, v) ==>
        exists|w: u32| #[trigger] feeds(g, w, v) && !listed(order, w)
}

/// `order` lists every node of the graph.
pub open spec fn lists_all(g: GraphView, order: Seq<NodeId>) -> bool {
    forall|v: u32| #[trigger] g.nodes.contains_key(v) ==> listed(order, v)
}

/// Some ordering lists every node of the graph after each node feeding
/// it: the graph has no cycle.
pub open spec fn is_acyclic(g: GraphView) -> bool {
    exists|r: Seq<NodeId>| #[trigger] is_topological(g, r) && lists_all(g, r)
}

/// Node `v` can come next after `prefix`: it is a node of the graph, not
/// listed yet, and every node feeding it is listed.
pub open spec fn ready_after(g: GraphView, prefix: Seq<NodeId>, v: u32) -> bool {
    &&& g.nodes.contains_key(v)
    &&& !listed(prefix, v)
    &&& forall|w: u32| #[trigger] feeds(g, w, v) ==> listed(prefix, w)
}

/// The node at position `j` of `order` is ready after the nodes before it,
/// and no larger id is.
pub open spec fn picks_largest(g: GraphView, order: Seq<NodeId>, j: int) -> bool {
    &&& ready_after(g, order.take(j), order[j]@)
    &&& forall|v: u32| #[trigger] ready_after(g, order.take(j), v) ==> v <= order[j]@
}

/// `order` is what taking the largest ready node, again and again until no
/// node is ready, gives.
pub open spec fn is_largest_first(g: GraphView, order: Seq<NodeId>) -> bool {
    &&& forall|j: int| 0 <= j < order.len() ==> #[trigger] picks_largest(g, order, j)
    &&& forall|v: u32| !(#[trigger] ready_after(g, order, v))
}

/// `order` is what [`Graph::topological_order`] gives for `g`: the order
/// that takes the largest ready node first where every in-degree fits in a
/// `u64`, and the empty order where one does not.
pub open spec fn is_traversal(g: GraphView, order: Seq<NodeId>) -> bool {
    &&& is_topological(g, order)
    &&& in_degrees_fit(g) ==> is_largest_first(g, order)
    &&& !in_degrees_fit(g) ==> order.len() == 0
}

/// An order that always takes the largest ready node is topological, and
/// leaves out only nodes on or behind a cycle.
pub proof fn lemma_largest_first_is_topological(g: GraphView, r: Seq<NodeId>)
    requires
        is_largest_first(g, r),
    ensures
        is_topological(g, r),
        leaves_out_only_cycles(g, r),
{
    assert forall|a: int, b: int| 0 <= a < r.len() && 0 <= b < r.len() && a != b implies r[a] != r[b] by {
        let (lo, hi) = if a < b { (a, b) } else { (b, a) };
        assert(picks_largest(g, r, hi));
        assert(r.take(hi)[lo] == r[lo]);
    }
    assert forall|j: int| 0 <= j < r.len() implies #[trigger] g.nodes.contains_key(r[j]@) by {
        assert(picks_largest(g, r, j));
    }
    assert forall|j: int, w: u32| 0 <= j < r.len() && #[trigger] feeds(g, w, r[j]@) implies
        exists|i: int| 0 <= i < j && r[i]@ == w by {
        assert(picks_largest(g, r, j));
        let i = choose|i: int| 0 <= i < r.take(j).len() && r.take(j)[i]@ == w;
        assert(r.take(j)[i] == r[i]);
    }
    assert forall|v: u32| #[trigger] g.nodes.contains_key(v) && !listed(r, v) implies
        exists|w: u32| #[trigger] feeds(g, w, v) && !listed(r, w) by {
        assert(!ready_after(g, r, v));
    }
}

proof fn lemma_largest_first_prefix(g: GraphView, a: Seq<NodeId>, b: Seq<NodeId>, k: int)
    requires
        is_largest_first(g, a),
        is_largest_first(g, b),
        0 <= k <= a.len(),
        k <= b.len(),
    ensures
        a.take(k) == b.take(k),
    decreases k,
{
    if k > 0 {
        lemma_largest_first_prefix(g, a, b, k - 1);
        assert(picks_largest(g, a, k - 1));
        assert(picks_largest(g, b, k - 1));
        assert(a[k - 1]@ == b[k - 1]@);
        assert(a.take(k) =~= a.take(k - 1).push(a[k - 1]));
        assert(b.take(k) =~= b.take(k - 1).push(b[k - 1]));
    }
}

/// Taking the largest ready node leaves no choice: two such orders of one
/// graph are equal.
pub proof fn lemma_largest_first_unique(g: GraphView, a: Seq<NodeId>, b: Seq<NodeId>)
    requires
        is_largest_first(g, a),
        is_largest_first(g, b),
    ensures
        a == b,
{
    let m = if a.len() <= b.len() { a.len() as int } else { b.len() as int };
    lemma_largest_first_prefix(g, a, b, m);
    if a.len() < b.len() {
        assert(a.take(m) =~= a);
        assert(picks_largest(g, b, m));
        assert(ready_after(g, a, b[m]@));
    } else if b.len() < a.len() {
        assert(b.take(m) =~= b);
        assert(picks_largest(g, a, m));
        assert(ready_after(g, b, a[m]@));
    } else {
        assert(a.take(m) =~= a);
        assert(b.take(m) =~= b);
    }
}

/// The traversal order of a graph is a function of the graph: two
/// traversal orders of one graph are equal.
pub proof fn lemma_traversal_unique(g: GraphView, a: Seq<NodeId>, b: Seq<NodeId>)
    requires
        is_traversal(g, a),
        is_traversal(g, b),
    ensures
        a == b,
{
    if in_degrees_fit(g) {
        lemma_largest_first_unique(g, a, b);
    } else {
        assert(a =~= b);
    }
}

/// The nodes `c` form a cycle of `g`: each feeds the next, and the last
/// feeds the first.
pub open spec fn is_cycle(g: GraphView, c: Seq<u32>) -> bool {
    &&& c.len() > 0
    &&& forall|i: int| 0 <= i < c.len() ==> #[trigger] feeds(g, c[i], c[(i + 1) % (c.len() as int)])
}

/// Where node `v` stands in `order`.
spec fn position(order: Seq<NodeId>, v: u32) -> int {
    choose|j: int| 0 <= j < order.len() && order[j]@ == v
}

proof fn lemma_cycle_rises(g: GraphView, full: Seq<NodeId>, c: Seq<u32>, k: int)
    requires
        is_topological(g, full),
        lists_all(g, full),
        is_cycle(g, c),
        0 <= k < c.len(),
    ensures
        0 <= position(full, c[k]) < full.len(),
        full[position(full, c[k])]@ == c[k],
        position(full, c[0]) <= position(full, c[k]),
    decreases k,
{
    assert(feeds(g, c[k], c[(k + 1) % (c.len() as int)]));
    assert(g.nodes.contains_key(c[k]));
    assert(listed(full, c[k]));
    if k > 0 {
        lemma_cycle_rises(g, full, c, k - 1);
        lemma_cycle_step(g, full, c, k - 1);
        let n = c.len() as int;
        assert((k - 1 + 1) % n == k) by (nonlinear_arith)
            requires
                0 < k < n,
        ;
    }
}

proof fn lemma_cycle_step(g: GraphView, full: Seq<NodeId>, c: Seq<u32>, k: int)
    requires
        is_topological(g, full),
        lists_all(g, full),
        is_cycle(g, c),
        0 <= k < c.len(),
    ensures
        position(full, c[k]) < position(full, c[(k + 1) % (c.len() as int)]),
{
    let n = c.len() as int;
    let nx = c[(k + 1) % n];
    assert(feeds(g, c[k], nx));
    assert(listed(full, c[k]) && listed(full, nx));
    let p = position(full, nx);
    let q = position(full, c[k]);
    assert(feeds(g, c[k], full[p]@));
    let i = choose|i: int| 0 <= i < p && full[i]@ == c[k];
    assert(full[i] == full[q]) by {
        crate::graph::lemma_ids_by_number(full[i], full[q], TensorId(0), TensorId(0));
    }
}

/// A graph with a cycle has no complete topological order.
pub proof fn lemma_cycle_not_acyclic(g: GraphView, c: Seq<u32>)
    requires
        is_cycle(g, c),
    ensures
        !is_acyclic(g),
{
    if is_acyclic(g) {
        let full = choose|full: Seq<NodeId>| #[trigger] is_topological(g, full) && lists_all(g, full);
        let n = c.len() as int;
        lemma_cycle_rises(g, full, c, n - 1);
        lemma_cycle_step(g, full, c, n - 1);
        assert((n - 1 + 1) % n == 0) by (nonlinear_arith)
            requires
                n > 0,
        ;
    }
}

/// Walking back from node `v0`, left out of `r`, through nodes left out of
/// `r` that feed the previous one.
spec fn back_chain(g: GraphView, r: Seq<NodeId>, v0: u32, k: nat) -> u32
    decreases k,
{
    if k == 0 {
        v0
    } else {
        let w = back_chain(g, r, v0, (k - 1) as nat);
        choose|u: u32| #[trigger] feeds(g, u, w) && !listed(r, u)
    }
}

proof fn lemma_back_chain(g: GraphView, r: Seq<NodeId>, v0: u32, k: nat)
    requires
        leaves_out_only_cycles(g, r),
        g.nodes.contains_key(v0),
        !listed(r, v0),
    ensures
        g.nodes.contains_key(back_chain(g, r, v0, k)),
        !listed(r, back_chain(g, r, v0, k)),
        feeds(g, back_chain(g, r, v0, k + 1), back_chain(g, r, v0, k)),
    decreases k,
{
    if k > 0 {
        lemma_back_chain(g, r, v0, (k - 1) as nat);
        assert(((k - 1) as nat + 1) as nat == k);
    }
    let w = back_chain(g, r, v0, k);
    assert(g.nodes.contains_key(w) && !listed(r, w));
    assert(exists|u: u32| #[trigger] feeds(g, u, w) && !listed(r, u));
    assert(((k + 1) as nat - 1) as nat == k);
}

/// When an order leaves out only nodes on or behind a cycle, a node it
/// leaves out reveals a cycle.
pub proof fn lemma_left_out_gives_cycle(g: GraphView, r: Seq<NodeId>, v0: u32)
    requires
        g.nodes.dom().finite(),
        leaves_out_only_cycles(g, r),
        g.nodes.contains_key(v0),
        !listed(r, v0),
    ensures
        exists|c: Seq<u32>| #[trigger] is_cycle(g, c),
{
    let n = g.nodes.len() + 1;
    let s = Seq::new(n, |k: int| back_chain(g, r, v0, k as nat));
    if s.no_duplicates() {
        s.unique_seq_to_set();
        assert(s.to_set().subset_of(g.nodes.dom())) by {
            assert forall|x: u32| s.to_set().contains(x) implies g.nodes.dom().contains(x) by {
                let k = choose|k: int| 0 <= k < s.len() && s[k] == x;
                lemma_back_chain(g, r, v0, k as nat);
            }
        }
        lemma_len_subset(s.to_set(), g.nodes.dom());
        assert(false);
    }
    let (i, j) = choose|i: int, j: int| 0 <= i < s.len() && 0 <= j < s.len() && i != j && s[i] == s[j];
    let lo = if i < j { i } else { j };
    let hi = if i < j { j } else { i };
    let len = hi - lo;
    let c = Seq::new(len as nat, |m: int| back_chain(g, r, v0, (hi - m) as nat));
    assert forall|m: int| 0 <= m < c.len() implies #[trigger] feeds(g, c[m], c[(m + 1) % (c.len() as int)]) by {
        if m + 1 < len {
            assert((m + 1) % len == m + 1) by (nonlinear_arith)
                requires
                    0 <= m + 1 < len,
            ;
            lemma_back_chain(g, r, v0, (hi - m - 1) as nat);
            assert(((hi - m - 1) as nat + 1) as nat == (hi - m) as nat);
        } else {
            assert((m + 1) % len == 0) by (nonlinear_arith)
                requires
                    m + 1 == len,
                    len > 0,
            ;
            assert(s[hi] == s[lo]);
            lemma_back_chain(g, r, v0, lo as nat);
            assert((lo as nat + 1) as nat == (hi - m) as nat);
        }
    }
    assert(is_cycle(g, c));
}

/// Given an order that is topological and leaves out only nodes on or
/// behind a cycle, a graph with finitely many nodes has no cycle exactly
/// when it is acyclic.
pub proof fn lemma_acyclic_iff_no_cycle(g: GraphView, r: Seq<NodeId>)
    requires
        g.nodes.dom().finite(),
        is_topological(g, r),
        leaves_out_only_cycles(g, r),
    ensures
        is_acyclic(g) <==> !(exists|c: Seq<u32>| #[trigger] is_cycle(g, c)),
{
    if exists|c: Seq<u32>| #[trigger] is_cycle(g, c) {
        let c = choose|c: Seq<u32>| #[trigger] is_cycle(g, c);
        lemma_cycle_not_acyclic(g, c);
    }
    if !is_acyclic(g) {
        lemma_complete_order_iff_acyclic(g, r);
        let v = choose|v: u32| !(g.nodes.contains_key(v) ==> listed(r, v));
        lemma_left_out_gives_cycle(g, r, v);
    }
}

proof fn lemma_readers_member(g: GraphView, t: u32, k: nat, c: NodeId)
    requires
        k <= u32::MAX + 1,
        readers(g, t, k).contains(c),
    ensures
        exists|u: u32| (u as nat) < k && #[trigger] g.nodes.contains_key(u) && c == g.nodes[u].id
            && count_in(g.nodes[u].inputs, t) > 0,
    decreases k,
{
    let u = (k - 1) as u32;
    let prev = readers(g, t, (k - 1) as nat);
    let ext = if g.nodes.contains_key(u) {
        Seq::new(count_in(g.nodes[u].inputs, t), |_j: int| g.nodes[u].id)
    } else {
        Seq::<NodeId>::empty()
    };
    assert(readers(g, t, k) == prev + ext);
    let i = choose|i: int| 0 <= i < (prev + ext).len() && (prev + ext)[i] == c;
    if i < prev.len() {
        assert(prev[i] == c);
        lemma_readers_member(g, t, (k - 1) as nat, c);
    } else {
        assert(ext[i - prev.len()] == c);
        assert(g.nodes.contains_key(u));
    }
}

proof fn lemma_count_in_positive(ids: Seq<TensorId>, t: u32)
    requires
        count_in(ids, t) > 0,
    ensures
        exists|i: int| 0 <= i < ids.len() && #[trigger] ids[i]@ == t,
    decreases ids.len(),
{
    if ids.last()@ == t {
        assert(ids[ids.len() - 1]@ == t);
    } else {
        lemma_count_in_positive(ids.drop_last(), t);
        let i = choose|i: int| 0 <= i < ids.drop_last().len() && #[trigger] ids.drop_last()[i]@ == t;
        assert(ids[i] == ids.drop_last()[i]);
    }
}

/// A graph built node by node, with every id below the node counter in
/// use, has no cycle: its nodes by ascending id form a complete
/// topological order.
pub proof fn lemma_built_acyclic(g: GraphView)
    requires
        g.wf(),
        built_by_nodes(g),
        forall|u: u32| u < g.next_node_id ==> #[trigger] g.nodes.contains_key(u),
    ensures
        is_acyclic(g),
{
    reveal(built_by_nodes);
    let n = g.next_node_id as int;
    let order = Seq::new(n as nat, |i: int| g.nodes[i as u32].id);
    assert forall|j: int| 0 <= j < n implies #[trigger] order[j]@ == j && g.nodes.contains_key(order[j]@) by {
        assert(g.nodes.contains_key(j as u32));
    }
    assert forall|j: int, w: u32| 0 <= j < order.len() && #[trigger] feeds(g, w, order[j]@) implies
        exists|i: int| 0 <= i < j && order[i]@ == w by {
        let v = order[j]@;
        let (t, c) = choose|t: TensorId, c: NodeId|
            g.nodes[w].outputs.contains(t) && g.tensors.contains_key(t@)
            && #[trigger] g.tensors[t@].consumers.contains(c) && c@ == v;
        lemma_readers_member(g, t@, g.next_node_id as nat, c);
        let u = choose|u: u32| (u as nat) < g.next_node_id && #[trigger] g.nodes.contains_key(u) && c == g.nodes[u].id
            && count_in(g.nodes[u].inputs, t@) > 0;
        assert(u == v);
        lemma_count_in_positive(g.nodes[v].inputs, t@);
        let k = choose|k: int| 0 <= k < g.nodes[v].inputs.len() && #[trigger] g.nodes[v].inputs[k]@ == t@;
        assert(node_built(g, v));
        assert(node_built(g, w));
        let m = choose|m: int| 0 <= m < g.nodes[w].outputs.len() && g.nodes[w].outputs[m] == t;
        assert(g.nodes[w].outputs[m]@ == t@);
        assert(g.tensors[t@].producer == Some(g.nodes[w].id));
        assert(g.tensors[g.nodes[v].inputs[k]@].producer matches Some(p) ==> p@ < v);
        assert(w < v);
        assert(order[w as int]@ == w);
    }
    assert(order.no_duplicates()) by {
        assert forall|a: int, b: int| 0 <= a < order.len() && 0 <= b < order.len() && a != b implies order[a] != order[b] by {
            assert(order[a]@ == a && order[b]@ == b);
        }
    }
    assert forall|v: u32| #[trigger] g.nodes.contains_key(v) implies listed(order, v) by {
        assert(order[v as int]@ == v);
    }
    assert(is_topological(g, order) && lists_all(g, order));
}

proof fn lemma_node_count_concat(a: Seq<NodeId>, b: Seq<NodeId>, v: u32)
    ensures
        node_count(a + b, v) == node_count(a, v) + node_count(b, v),
    decreases b.len(),
{
    if b.len() == 0 {
        assert(a + b =~= a);
    } else {
        lemma_node_count_concat(a, b.drop_last(), v);
        assert((a + b).drop_last() =~= a + b.drop_last());
        assert((a + b).last() == b.last());
    }
}

proof fn lemma_node_count_repeat(m: nat, id: NodeId, v: u32)
    ensures
        node_count(Seq::new(m, |_j: int| id), v) == if id@ == v { m } else { 0 },
    decreases m,
{
    if m > 0 {
        lemma_node_count_repeat((m - 1) as nat, id, v);
        assert(Seq::new(m, |_j: int| id).drop_last() =~= Seq::new((m - 1) as nat, |_j: int| id));
    }
}

proof fn lemma_node_count_readers(g: GraphView, t: u32, v: u32, k: nat)
    requires
        g.wf(),
        k <= u32::MAX + 1,
    ensures
        node_count(readers(g, t, k), v) == if (v as nat) < k && g.nodes.contains_key(v) {
            count_in(g.nodes[v].inputs, t)
        } else {
            0
        },
    decreases k,
{
    if k > 0 {
        lemma_node_count_readers(g, t, v, (k - 1) as nat);
        let u = (k - 1) as u32;
        let ext = if g.nodes.contains_key(u) {
            Seq::new(count_in(g.nodes[u].inputs, t), |_j: int| g.nodes[u].id)
        } else {
            Seq::<NodeId>::empty()
        };
        lemma_node_count_concat(readers(g, t, (k - 1) as nat), ext, v);
        if g.nodes.contains_key(u) {
            lemma_node_count_repeat(count_in(g.nodes[u].inputs, t), g.nodes[u].id, v);
        }
    }
}

/// How many entries of `ins` name a tensor listed in `outs`.
spec fn hits(ins: Seq<TensorId>, outs: Seq<TensorId>) -> nat
    decreases ins.len(),
{
    if ins.len() == 0 {
        0
    } else {
        hits(ins.drop_last(), outs) + if names_tensor(outs, ins.last()@) { 1nat } else { 0nat }
    }
}

proof fn lemma_hits_push(ins: Seq<TensorId>, outs: Seq<TensorId>, t: TensorId)
    requires
        !names_tensor(outs, t@),
    ensures
        hits(ins, outs.push(t)) == hits(ins, outs) + count_in(ins, t@),
    decreases ins.len(),
{
    if ins.len() > 0 {
        lemma_hits_push(ins.drop_last(), outs, t);
        let a = ins.last();
        if names_tensor(outs.push(t), a@) {
            let i = choose|i: int| 0 <= i < outs.push(t).len() && #[trigger] outs.push(t)[i]@ == a@;
            if i < outs.len() {
                assert(outs[i] == outs.push(t)[i]);
            }
        }
        if names_tensor(outs, a@) {
            let i = choose|i: int| 0 <= i < outs.len() && #[trigger] outs[i]@ == a@;
            assert(outs.push(t)[i] == outs[i]);
        }
        if a@ == t@ {
            assert(outs.push(t)[outs.len() as int] == t);
        }
    }
}

/// Edges from the tensors `outs` to node `v` are the entries of `v`'s
/// inputs naming one of them.
proof fn lemma_edge_count_hits(g: GraphView, outs: Seq<TensorId>, v: u32)
    requires
        g.wf(),
        g.nodes.contains_key(v),
        outs.no_duplicates(),
        forall|i: int| 0 <= i < outs.len() ==> g.tensors.contains_key(#[trigger] outs[i]@)
            && g.tensors[outs[i]@].consumers == readers(g, outs[i]@, g.next_node_id as nat),
    ensures
        edge_count(g, outs, v) == hits(g.nodes[v].inputs, outs),
    decreases outs.len(),
{
    let ins = g.nodes[v].inputs;
    if outs.len() == 0 {
        lemma_hits_empty(ins, outs);
    } else {
        let p = outs.drop_last();
        let t = outs.last();
        assert forall|i: int| 0 <= i < p.len() implies g.tensors.contains_key(#[trigger] p[i]@)
            && g.tensors[p[i]@].consumers == readers(g, p[i]@, g.next_node_id as nat) by {
            assert(p[i] == outs[i]);
        }
        assert(p.no_duplicates()) by {
            assert forall|a: int, b: int| 0 <= a < p.len() && 0 <= b < p.len() && a != b implies p[a] != p[b] by {
                assert(p[a] == outs[a] && p[b] == outs[b]);
            }
        }
        lemma_edge_count_hits(g, p, v);
        assert(outs[outs.len() - 1] == t);
        lemma_node_count_readers(g, t@, v, g.next_node_id as nat);
        assert(!names_tensor(p, t@)) by {
            if names_tensor(p, t@) {
                let i = choose|i: int| 0 <= i < p.len() && #[trigger] p[i]@ == t@;
                assert(p[i] == outs[i]);
                assert(outs[i] == outs[outs.len() - 1]) by {
                    crate::graph::lemma_ids_by_number(NodeId(0), NodeId(0), outs[i], outs[outs.len() - 1]);
                }
            }
        }
        lemma_hits_push(ins, p, t);
        assert(p.push(t) =~= outs);
    }
}

proof fn lemma_hits_empty(ins: Seq<TensorId>, outs: Seq<TensorId>)
    requires
        outs.len() == 0,
    ensures
        hits(ins, outs) == 0,
    decreases ins.len(),
{
    if ins.len() > 0 {
        lemma_hits_empty(ins.drop_last(), outs);
        if names_tensor(outs, ins.last()@) {
            let i = choose|i: int| 0 <= i < outs.len() && #[trigger] outs[i]@ == ins.last()@;
        }
    }
}

/// Entries of `ins` naming an output of a node below `k`.
spec fn hits_below(g: GraphView, ins: Seq<TensorId>, k: nat) -> nat
    decreases ins.len(),
{
    if ins.len() == 0 {
        0
    } else {
        hits_below(g, ins.drop_last(), k) + if exists|u: u32| (u as nat) < k && #[trigger] g.nodes.contains_key(u)
            && names_tensor(g.nodes[u].outputs, ins.last()@) { 1nat } else { 0nat }
    }
}

proof fn lemma_hits_below_bound(g: GraphView, ins: Seq<TensorId>, k: nat)
    ensures
        hits_below(g, ins, k) <= ins.len(),
    decreases ins.len(),
{
    if ins.len() > 0 {
        lemma_hits_below_bound(g, ins.drop_last(), k);
    }
}

proof fn lemma_hits_below_step(g: GraphView, ins: Seq<TensorId>, k: nat)
    requires
        g.wf(),
        built_by_nodes(g),
        k <= u32::MAX,
    ensures
        hits_below(g, ins, k + 1) == hits_below(g, ins, k) + if g.nodes.contains_key(k as u32) {
            hits(ins, g.nodes[k as u32].outputs)
        } else {
            0
        },
    decreases ins.len(),
{
    reveal(built_by_nodes);
    if ins.len() == 0 {
        if g.nodes.contains_key(k as u32) {
            lemma_hits_zero_len(ins, g.nodes[k as u32].outputs);
        }
    } else {
        lemma_hits_below_step(g, ins.drop_last(), k);
        let t = ins.last()@;
        let kk = k as u32;
        let old_hit = exists|u: u32| (u as nat) < k && #[trigger] g.nodes.contains_key(u)
            && names_tensor(g.nodes[u].outputs, t);
        if g.nodes.contains_key(kk) && names_tensor(g.nodes[kk].outputs, t) && old_hit {
            let u = choose|u: u32| (u as nat) < k && #[trigger] g.nodes.contains_key(u)
                && names_tensor(g.nodes[u].outputs, t);
            assert(node_built(g, u) && node_built(g, kk));
            let i = choose|i: int| 0 <= i < g.nodes[u].outputs.len() && #[trigger] g.nodes[u].outputs[i]@ == t;
            let j = choose|j: int| 0 <= j < g.nodes[kk].outputs.len() && #[trigger] g.nodes[kk].outputs[j]@ == t;
            assert(g.tensors[t].producer == Some(g.nodes[u].id));
            assert(g.tensors[t].producer == Some(g.nodes[kk].id));
            assert(false);
        }
        if exists|u: u32| (u as nat) < k + 1 && #[trigger] g.nodes.contains_key(u) && names_tensor(g.nodes[u].outputs, t) {
            let u = choose|u: u32| (u as nat) < k + 1 && #[trigger] g.nodes.contains_key(u)
                && names_tensor(g.nodes[u].outputs, t);
            if u != kk {
                assert(old_hit);
            }
        }
        if old_hit {
            let u = choose|u: u32| (u as nat) < k && #[trigger] g.nodes.contains_key(u)
                && names_tensor(g.nodes[u].outputs, t);
            assert((u as nat) < k + 1);
        }
        if g.nodes.contains_key(kk) && names_tensor(g.nodes[kk].outputs, t) {
            assert((kk as nat) < k + 1);
        }
    }
}

proof fn lemma_hits_zero_len(ins: Seq<TensorId>, outs: Seq<TensorId>)
    requires
        ins.len() == 0,
    ensures
        hits(ins, outs) == 0,
{
}

proof fn lemma_pending_hits(g: GraphView, v: u32, k: nat)
    requires
        g.wf(),
        built_by_nodes(g),
        g.nodes.contains_key(v),
        k <= g.next_node_id,
    ensures
        pending(g, Set::empty(), v, k) == hits_below(g, g.nodes[v].inputs, k),
    decreases k,
{
    reveal(built_by_nodes);
    let ins = g.nodes[v].inputs;
    if k == 0 {
        lemma_hits_below_zero(g, ins);
    } else {
        lemma_pending_hits(g, v, (k - 1) as nat);
        let u = (k - 1) as u32;
        lemma_hits_below_step(g, ins, (k - 1) as nat);
        assert(((k - 1) as nat + 1) as nat == k);
        if g.nodes.contains_key(u) {
            assert(node_built(g, u));
            let outs = g.nodes[u].outputs;
            assert forall|i: int| 0 <= i < outs.len() implies g.tensors.contains_key(#[trigger] outs[i]@)
                && g.tensors[outs[i]@].consumers == readers(g, outs[i]@, g.next_node_id as nat) by {
            }
            lemma_edge_count_hits(g, outs, v);
        }
    }
}

proof fn lemma_hits_below_zero(g: GraphView, ins: Seq<TensorId>)
    ensures
        hits_below(g, ins, 0) == 0,
    decreases ins.len(),
{
    if ins.len() > 0 {
        lemma_hits_below_zero(g, ins.drop_last());
    }
}

/// In a graph built node by node, each node has at most as many incoming
/// edges as inputs, so every in-degree fits in a `u64`.
pub proof fn lemma_built_in_degrees_fit(g: GraphView)
    requires
        g.wf(),
        built_by_nodes(g),
    ensures
        in_degrees_fit(g),
{
    assert forall|v: u32| #[trigger] g.nodes.contains_key(v) implies in_degree(g, v) <= u64::MAX by {
        lemma_pending_hits(g, v, g.next_node_id as nat);
        lemma_hits_below_bound(g, g.nodes[v].inputs, g.next_node_id as nat);
        reveal(built_by_nodes);
        assert(node_built(g, v));
    }
}

/// The traversal order of an acyclic graph whose in-degrees fit in a
/// `u64` lists every node: it is as long as the graph has nodes.
pub proof fn lemma_traversal_complete(g: GraphView, r: Seq<NodeId>)
    requires
        g.nodes.dom().finite(),
        is_acyclic(g),
        in_degrees_fit(g),
        is_traversal(g, r),
    ensures
        lists_all(g, r),
        r.len() == g.nodes.len(),
{
    lemma_largest_first_is_topological(g, r);
    lemma_complete_order_iff_acyclic(g, r);
    lemma_order_len(g, r);
}

proof fn lemma_listed_before(g: GraphView, r: Seq<NodeId>, full: Seq<NodeId>, j: int)
    requires
        is_topological(g, full),
        leaves_out_only_cycles(g, r),
        0 <= j < full.len(),
    ensures
        listed(r, full[j]@),
    decreases j,
{
    let v = full[j]@;
    if !listed(r, v) {
        assert(g.nodes.contains_key(full[j]@));
        let w = choose|w: u32| #[trigger] feeds(g, w, v) && !listed(r, w);
        let i = choose|i: int| 0 <= i < j && full[i]@ == w;
        lemma_listed_before(g, r, full, i);
    }
}

/// An order that is topological and leaves out only nodes on or behind a
/// cycle lists every node exactly when the graph has no cycle.
pub proof fn lemma_complete_order_iff_acyclic(g: GraphView, r: Seq<NodeId>)
    requires
        is_topological(g, r),
        leaves_out_only_cycles(g, r),
    ensures
        lists_all(g, r) <==> is_acyclic(g),
{
    if is_acyclic(g) {
        let full = choose|full: Seq<NodeId>| #[trigger] is_topological(g, full) && lists_all(g, full);
        assert forall|v: u32| #[trigger] g.nodes.contains_key(v) implies listed(r, v) by {
            assert(listed(full, v));
            let j = choose|j: int| 0 <= j < full.len() && full[j]@ == v;
            lemma_listed_before(g, r, full, j);
        }
    }
}

/// A topological order of a graph with finitely many nodes lists every
/// node exactly when it is as long as the graph has nodes.
pub proof fn lemma_order_len(g: GraphView, r: Seq<NodeId>)
    requires
        is_topological(g, r),
        g.nodes.dom().finite(),
    ensures
        (r.len() == g.nodes.len()) <==> lists_all(g, r),
{
    let s = r.map_values(|x: NodeId| x@);
    assert(s.no_duplicates()) by {
        assert forall|a: int, b: int| 0 <= a < s.len() && 0 <= b < s.len() && a != b implies s[a] != s[b] by {
            assert(r[a] != r[b]);
        }
    }
    s.unique_seq_to_set();
    let st = s.to_set();
    assert(st.subset_of(g.nodes.dom())) by {
        assert forall|v: u32| st.contains(v) implies g.nodes.dom().contains(v) by {
            let j = choose|j: int| 0 <= j < s.len() && s[j] == v;
            assert(g.nodes.contains_key(r[j]@));
        }
    }
    lemma_len_subset(st, g.nodes.dom());
    if lists_all(g, r) {
        assert(g.nodes.dom().subset_of(st)) by {
            assert forall|v: u32| g.nodes.dom().contains(v) implies st.contains(v) by {
                assert(g.nodes.contains_key(v));
                let j = choose|j: int| 0 <= j < r.len() && r[j]@ == v;
                assert(s[j] == v);
            }
        }
        lemma_len_subset(g.nodes.dom(), st);
    }
    if r.len() == g.nodes.len() {
        lemma_subset_equality(st, g.nodes.dom());
        assert forall|v: u32| #[trigger] g.nodes.contains_key(v) implies listed(r, v) by {
            assert(st.contains(v));
            let j = choose|j: int| 0 <= j < s.len() && s[j] == v;
            assert(r[j]@ == v);
        }
    }
}

proof fn lemma_pending_step(g: GraphView, done: Set<int>, v: u32, u: u32)
    ensures
        pending(g, done, v, u as nat + 1) == pending(g, done, v, u as nat) + if g.nodes.contains_key(u) && !done.contains(u as int) {
            edge_count(g, g.nodes[u].outputs, v)
        } else {
            0nat
        },
{
    let k = u as nat + 1;
    assert(((k - 1) as nat) == u as nat);
    assert(((k - 1) as u32) == u);
}

proof fn lemma_pending_mono(g: GraphView, done: Set<int>, v: u32, k1: nat, k2: nat)
    requires
        k1 <= k2,
    ensures
        pending(g, done, v, k1) <= pending(g, done, v, k2),
    decreases k2,
{
    if k1 < k2 {
        lemma_pending_mono(g, done, v, k1, (k2 - 1) as nat);
    }
}

proof fn lemma_node_count_witness(cons: Seq<NodeId>, v: u32)
    requires
        node_count(cons, v) > 0,
    ensures
        exists|c: NodeId| cons.contains(c) && c@ == v,
    decreases cons.len(),
{
    if cons.last()@ == v {
        assert(cons[cons.len() - 1] == cons.last());
    } else {
        lemma_node_count_witness(cons.drop_last(), v);
        let c = choose|c: NodeId| cons.drop_last().contains(c) && c@ == v;
        let i = choose|i: int| 0 <= i < cons.drop_last().len() && cons.drop_last()[i] == c;
        assert(cons[i] == c);
    }
}

proof fn lemma_edge_count_witness(g: GraphView, outs: Seq<TensorId>, v: u32)
    requires
        edge_count(g, outs, v) > 0,
    ensures
        exists|t: TensorId, c: NodeId|
            outs.contains(t) && g.tensors.contains_key(t@)
            && #[trigger] g.tensors[t@].consumers.contains(c) && c@ == v,
    decreases outs.len(),
{
    let t = outs.last();
    if g.tensors.contains_key(t@) && node_count(g.tensors[t@].consumers, v) > 0 {
        lemma_node_count_witness(g.tensors[t@].consumers, v);
        let c = choose|c: NodeId| g.tensors[t@].consumers.contains(c) && c@ == v;
        assert(outs[outs.len() - 1] == t);
        assert(outs.contains(t));
    } else {
        lemma_edge_count_witness(g, outs.drop_last(), v);
        let (t2, c) = choose|t2: TensorId, c: NodeId|
            outs.drop_last().contains(t2) && g.tensors.contains_key(t2@)
            && #[trigger] g.tensors[t2@].consumers.contains(c) && c@ == v;
        let i = choose|i: int| 0 <= i < outs.drop_last().len() && outs.drop_last()[i] == t2;
        assert(outs[i] == t2);
    }
}

proof fn lemma_pending_witness(g: GraphView, done: Set<int>, v: u32, k: nat)
    requires
        pending(g, done, v, k) > 0,
        k <= u32::MAX + 1,
    ensures
        exists|u: u32| (u as nat) < k && #[trigger] g.nodes.contains_key(u) && !done.contains(u as int)
            && edge_count(g, g.nodes[u].outputs, v) > 0,
    decreases k,
{
    let u = (k - 1) as u32;
    if g.nodes.contains_key(u) && !done.contains(u as int) && edge_count(g, g.nodes[u].outputs, v) > 0 {
        assert((u as nat) < k);
    } else {
        lemma_pending_witness(g, done, v, (k - 1) as nat);
    }
}

proof fn lemma_pending_emit(g: GraphView, done: Set<int>, v: u32, k: nat, u: u32)
    requires
        !done.contains(u as int),
        k <= u32::MAX + 1,
    ensures
        pending(g, done.insert(u as int), v, k) + (if (u as nat) < k && g.nodes.contains_key(u) {
            edge_count(g, g.nodes[u].outputs, v)
        } else {
            0nat
        }) == pending(g, done, v, k),
    decreases k,
{
    if k > 0 {
        lemma_pending_emit(g, done, v, (k - 1) as nat, u);
    }
}

proof fn lemma_pending_covers(g: GraphView, done: Set<int>, v: u32, k: nat, u: u32)
    requires
        (u as nat) < k,
        k <= u32::MAX + 1,
        g.nodes.contains_key(u),
        !done.contains(u as int),
    ensures
        pending(g, done, v, k) >= edge_count(g, g.nodes[u].outputs, v),
    decreases k,
{
    if (u as nat) < k - 1 {
        lemma_pending_covers(g, done, v, (k - 1) as nat, u);
    }
}

proof fn lemma_node_count_prefix(cons: Seq<NodeId>, v: u32, i: int)
    requires
        0 <= i <= cons.len(),
    ensures
        node_count(cons.subrange(0, i), v) <= node_count(cons, v),
    decreases cons.len() - i,
{
    if i < cons.len() {
        assert(cons.subrange(0, i + 1).drop_last() =~= cons.subrange(0, i));
        lemma_node_count_prefix(cons, v, i + 1);
    } else {
        assert(cons.subrange(0, i) =~= cons);
    }
}

proof fn lemma_edge_count_prefix(g: GraphView, outs: Seq<TensorId>, v: u32, j: int)
    requires
        0 <= j <= outs.len(),
    ensures
        edge_count(g, outs.subrange(0, j), v) <= edge_count(g, outs, v),
    decreases outs.len() - j,
{
    if j < outs.len() {
        assert(outs.subrange(0, j + 1).drop_last() =~= outs.subrange(0, j));
        lemma_edge_count_prefix(g, outs, v, j + 1);
    } else {
        assert(outs.subrange(0, j) =~= outs);
    }
}

proof fn lemma_node_count_positive(cons: Seq<NodeId>, c: NodeId)
    requires
        cons.contains(c),
    ensures
        node_count(cons, c@) > 0,
    decreases cons.len(),
{
    if cons.last() != c {
        let i = choose|i: int| 0 <= i < cons.len() && cons[i] == c;
        assert(cons.drop_last()[i] == c);
        lemma_node_count_positive(cons.drop_last(), c);
    }
}

proof fn lemma_edge_count_positive(g: GraphView, outs: Seq<TensorId>, t: TensorId, c: NodeId)
    requires
        outs.contains(t),
        g.tensors.contains_key(t@),
        g.tensors[t@].consumers.contains(c),
    ensures
        edge_count(g, outs, c@) > 0,
    decreases outs.len(),
{
    if outs.last() == t {
        lemma_node_count_positive(g.tensors[t@].consumers, c);
    } else {
        let i = choose|i: int| 0 <= i < outs.len() && outs[i] == t;
        assert(outs.drop_last()[i] == t);
        lemma_edge_count_positive(g, outs.drop_last(), t, c);
    }
}

proof fn lemma_pending_zero_iff(g: GraphView, done: Set<int>, v: u32)
    requires
        g.wf(),
        g.nodes.contains_key(v),
    ensures
        pending(g, done, v, g.next_node_id as nat) == 0
            <==> (forall|w: u32| #[trigger] feeds(g, w, v) ==> done.contains(w as int)),
{
    let n = g.next_node_id as nat;
    if pending(g, done, v, n) > 0 {
        lemma_pending_witness(g, done, v, n);
        let w = choose|w: u32| (w as nat) < n && #[trigger] g.nodes.contains_key(w) && !done.contains(w as int)
            && edge_count(g, g.nodes[w].outputs, v) > 0;
        lemma_edge_count_witness(g, g.nodes[w].outputs, v);
        assert(feeds(g, w, v));
    } else {
        assert forall|w: u32| #[trigger] feeds(g, w, v) implies done.contains(w as int) by {
            if !done.contains(w as int) {
                let (t, c) = choose|t: TensorId, c: NodeId|
                    g.nodes[w].outputs.contains(t) && g.tensors.contains_key(t@)
                    && #[trigger] g.tensors[t@].consumers.contains(c) && c@ == v;
                lemma_edge_count_positive(g, g.nodes[w].outputs, t, c);
                lemma_pending_covers(g, done, v, n, w);
            }
        }
    }
}

impl Graph {
    /// Topologically sorted node IDs (sources first, sinks last).
    ///
    /// Every listed node comes after every node feeding it. Nodes on a
    /// cycle, and nodes downstream of one, are left out; no other node is.
    /// Among the nodes ready at each step the largest id is taken first. A
    /// graph where some node's count of incoming edges does not fit in a
    /// `u64` gets an empty order.
    pub fn topological_order(&self) -> (r: Vec<NodeId>)
        requires
            self.wf(),
        ensures
            is_topological(self@, r@),
            in_degrees_fit(self@) ==> leaves_out_only_cycles(self@, r@),
            in_degrees_fit(self@) ==> is_largest_first(self@, r@),
            is_traversal(self@, r@),
            !in_degrees_fit(self@) ==> r@.len() == 0,
    {
        let ghost g = self@;
        let n: u32 = self.next_node_id;
        let mut indeg: Vec<u64> = Vec::new();
        let mut z: u32 = 0;
        while z < n
            invariant
                z <= n,
                indeg@.len() == z,
                forall|v: int| 0 <= v < z ==> indeg@[v] == 0,
            decreases n - z,
        {
            indeg.push(0);
            z = z + 1;
        }
        // Count the edges into every node.
        let mut u: u32 = 0;
        while u < n
            invariant
                g == self@,
                g.wf(),
                n == g.next_node_id,
                u <= n,
                indeg@.len() == n,
                forall|v: u32| v < n && #[trigger] g.nodes.contains_key(v) ==>
                    indeg@[v as int] == pending(g, Set::empty(), v, u as nat),
            decreases n - u,
        {
            if let Some(node) = self.nodes.get(&u) {
                let ghost outs = node@.outputs;
                assert(outs == g.nodes[u].outputs);
                let mut j: usize = 0;
                while j < node.outputs.len()
                    invariant
                        g == self@,
                        g.wf(),
                        n == g.next_node_id,
                        u < n,
                        g.nodes.contains_key(u),
                        outs == node@.outputs,
                        outs == g.nodes[u].outputs,
                        j <= outs.len(),
                        indeg@.len() == n,
                        forall|v: u32| v < n && #[trigger] g.nodes.contains_key(v) ==>
                            indeg@[v as int] == pending(g, Set::empty(), v, u as nat) + edge_count(g, outs.subrange(0, j as int), v),
                    decreases outs.len() - j,
                {
                    proof {
                        assert(outs.subrange(0, j + 1).drop_last() =~= outs.subrange(0, j as int));
                    }
                    if let Some(t) = self.tensors.get(&node.outputs[j].0) {
                        let ghost cons = t@.consumers;
                        assert(cons == g.tensors[outs[j as int]@].consumers);
                        let mut i: usize = 0;
                        while i < t.consumers.len()
                            invariant
                                g == self@,
                                g.wf(),
                                n == g.next_node_id,
                                u < n,
                                g.nodes.contains_key(u),
                                outs == g.nodes[u].outputs,
                                j < outs.len(),
                                g.tensors.contains_key(outs[j as int]@),
                                cons == t@.consumers,
                                cons == g.tensors[outs[j as int]@].consumers,
                                i <= cons.len(),
                                indeg@.len() == n,
                                forall|v: u32| v < n && #[trigger] g.nodes.contains_key(v) ==>
                                    indeg@[v as int] == pending(g, Set::empty(), v, u as nat)
                                        + edge_count(g, outs.subrange(0, j as int), v)
                                        + node_count(cons.subrange(0, i as int), v),
                            decreases cons.len() - i,
                        {
                            proof {
                                assert(cons.subrange(0, i + 1).drop_last() =~= cons.subrange(0, i as int));
                            }
                            let c = t.consumers[i].0;
                            if c < n && self.nodes.contains_key(&c) {
                                match indeg[c as usize].checked_add(1) {
                                    Some(d) => {
                                        indeg.set(c as usize, d);
                                    },
                                    None => {
                                        proof {
                                            assert(g.nodes.contains_key(c));
                                            assert(indeg@[c as int] == u64::MAX);
                                            assert(indeg@[c as int] == pending(g, Set::empty(), c, u as nat)
                                                + edge_count(g, outs.subrange(0, j as int), c)
                                                + node_count(cons.subrange(0, i as int), c));
                                            let ci = cons.subrange(0, i + 1);
                                            assert(ci.last() == cons[i as int]);
                                            assert(node_count(ci, c) == node_count(cons.subrange(0, i as int), c) + 1);
                                            lemma_node_count_prefix(cons, c, i + 1);
                                            let pj = outs.subrange(0, j + 1);
                                            assert(pj.drop_last() =~= outs.subrange(0, j as int));
                                            assert(pj.last() == outs[j as int]);
                                            assert(edge_count(g, pj, c) == edge_count(g, outs.subrange(0, j as int), c) + node_count(cons, c));
                                            lemma_edge_count_prefix(g, outs, c, j + 1);
                                            lemma_pending_step(g, Set::empty(), c, u);
                                            lemma_pending_mono(g, Set::empty(), c, u as nat + 1, n as nat);
                                            assert(node_count(ci, c) <= node_count(cons, c));
                                            assert(edge_count(g, pj, c) <= edge_count(g, outs, c));
                                            assert(pending(g, Set::empty(), c, u as nat + 1) <= pending(g, Set::empty(), c, n as nat));
                                            assert(in_degree(g, c) > u64::MAX);
                                        }
                                        return Vec::new();
                                    },
                                }
                            }
                            i = i + 1;
                        }
                        proof {
                            assert(cons.subrange(0, cons.len() as int) =~= cons);
                        }
                    }
                    j = j + 1;
                }
                proof {
                    assert(outs.subrange(0, outs.len() as int) =~= outs);
                }
            }
            u = u + 1;
        }
        proof {
            assert forall|v: u32| #[trigger] g.nodes.contains_key(v) implies in_degree(g, v) <= u64::MAX by {
                assert(v < n);
            }
        }
        // The ready set: nodes with no pending incoming edge.
        let mut ready: Vec<u32> = Vec::new();
        let mut v0: u32 = 0;
        while v0 < n
            invariant
                g == self@,
                n == g.next_node_id,
                v0 <= n,
                indeg@.len() == n,
                ready@.no_duplicates(),
                forall|x: int| 0 <= x < ready@.len() ==> ready@[x] < v0 && g.nodes.contains_key(#[trigger] ready@[x])
                    && indeg@[ready@[x] as int] == 0,
                forall|v: u32| v < v0 && #[trigger] g.nodes.contains_key(v) && indeg@[v as int] == 0 ==> ready@.contains(v),
            decreases n - v0,
        {
            let ghost before = ready@;
            if self.nodes.contains_key(&v0) && indeg[v0 as usize] == 0 {
                ready.push(v0);
                proof {
                    assert forall|x: int| 0 <= x < ready@.len() implies ready@[x] < v0 + 1 && g.nodes.contains_key(#[trigger] ready@[x])
                        && indeg@[ready@[x] as int] == 0 by {
                        if x < before.len() {
                            assert(ready@[x] == before[x]);
                        } else {
                            assert(ready@[x] == v0);
                        }
                    }
                    assert forall|a: int, b: int| 0 <= a < ready@.len() && 0 <= b < ready@.len() && a != b
                        implies ready@[a] != ready@[b] by {
                        if a < before.len() {
                            assert(ready@[a] == before[a]);
                            assert(before[a] < v0);
                        }
                        if b < before.len() {
                            assert(ready@[b] == before[b]);
                            assert(before[b] < v0);
                        }
                    }
                    assert forall|v: u32| v < v0 + 1 && #[trigger] g.nodes.contains_key(v) && indeg@[v as int] == 0
                        implies ready@.contains(v) by {
                        if v == v0 {
                            assert(ready@[ready@.len() - 1] == v0);
                        } else {
                            let x = choose|x: int| 0 <= x < before.len() && before[x] == v;
                            assert(ready@[x] == before[x]);
                        }
                    }
                }
            }
            v0 = v0 + 1;
        }
        let mut order: Vec<NodeId> = Vec::new();
        let ghost mut done: Set<int> = Set::empty();
        proof {
            lemma_int_range(0, n as int);
        }
        while ready.len() > 0
            invariant
                g == self@,
                g.wf(),
                n == g.next_node_id,
                indeg@.len() == n,
                done.finite(),
                done.subset_of(set_int_range(0, n as int)),
                done.len() == order@.len(),
                set_int_range(0, n as int).finite(),
                set_int_range(0, n as int).len() == n,
                forall|j: int| 0 <= j < order@.len() ==> done.contains(#[trigger] order@[j]@ as int),
                forall|x: int| #[trigger] done.contains(x) ==> exists|j: int| 0 <= j < order@.len() && order@[j]@ == x,
                is_topological(g, order@),
                forall|j: int| 0 <= j < order@.len() ==> #[trigger] picks_largest(g, order@, j),
                forall|v: u32| v < n && #[trigger] g.nodes.contains_key(v) ==>
                    indeg@[v as int] == pending(g, done, v, n as nat),
                forall|d: int| #[trigger] done.contains(d) ==> indeg@[d] == 0,
                ready@.no_duplicates(),
                forall|x: int| 0 <= x < ready@.len() ==> ready@[x] < n && g.nodes.contains_key(#[trigger] ready@[x])
                    && indeg@[ready@[x] as int] == 0 && !done.contains(ready@[x] as int),
                forall|v: u32| v < n && #[trigger] g.nodes.contains_key(v) && !done.contains(v as int)
                    && indeg@[v as int] == 0 ==> ready@.contains(v),
            decreases n - order@.len(),
        {
            // Take the largest ready id.
            let mut best: usize = 0;
            let mut s: usize = 1;
            while s < ready.len()
                invariant
                    ready@.len() > 0,
                    best < ready@.len(),
                    1 <= s <= ready@.len(),
                    forall|i: int| 0 <= i < s ==> ready@[i] <= ready@[best as int],
                decreases ready@.len() - s,
            {
                if ready[s] > ready[best] {
                    best = s;
                }
                s = s + 1;
            }
            let ghost before_ready = ready@;
            let cur = ready.swap_remove(best);
            proof {
                assert(g.nodes.contains_key(before_ready[best as int]));
                // No ready node other than `cur` was removed.
                assert forall|x: int| 0 <= x < ready@.len() implies ready@[x] != cur && before_ready.contains(#[trigger] ready@[x]) by {
                    if x == best as int {
                        assert(ready@[x] == before_ready[before_ready.len() - 1]);
                    } else {
                        assert(ready@[x] == before_ready[x]);
                    }
                }
                assert(ready@.no_duplicates()) by {
                    assert forall|a: int, b: int| 0 <= a < ready@.len() && 0 <= b < ready@.len() && a != b
                        implies ready@[a] != ready@[b] by {
                        let ia = if a == best as int { before_ready.len() - 1 } else { a };
                        let ib = if b == best as int { before_ready.len() - 1 } else { b };
                        assert(ready@[a] == before_ready[ia]);
                        assert(ready@[b] == before_ready[ib]);
                    }
                }
                assert forall|v: u32| v < n && #[trigger] g.nodes.contains_key(v) && !done.contains(v as int)
                    && v != cur && indeg@[v as int] == 0 implies ready@.contains(v) by {
                    let y = choose|y: int| 0 <= y < before_ready.len() && before_ready[y] == v;
                    if y == before_ready.len() - 1 {
                        assert(ready@[best as int] == v);
                    } else {
                        assert(ready@[y] == v);
                    }
                }
                // Every node feeding `cur` has been emitted already.
                assert forall|w: u32| #[trigger] feeds(g, w, cur) implies exists|i: int| 0 <= i < order@.len() && order@[i]@ == w by {
                    if !done.contains(w as int) {
                        let (t, c) = choose|t: TensorId, c: NodeId|
                            g.nodes[w].outputs.contains(t) && g.tensors.contains_key(t@)
                            && #[trigger] g.tensors[t@].consumers.contains(c) && c@ == cur;
                        lemma_edge_count_positive(g, g.nodes[w].outputs, t, c);
                        lemma_pending_covers(g, done, cur, n as nat, w);
                        assert(false);
                    }
                }
                lemma_len_subset(done.insert(cur as int), set_int_range(0, n as int));
                assert forall|x: int| 0 <= x < ready@.len() implies ready@[x] < n && g.nodes.contains_key(#[trigger] ready@[x])
                    && indeg@[ready@[x] as int] == 0 && !done.contains(ready@[x] as int) && ready@[x] != cur by {
                    let y = choose|y: int| 0 <= y < before_ready.len() && before_ready[y] == ready@[x];
                    assert(g.nodes.contains_key(before_ready[y]));
                }
            }
            let ghost order_before = order@;
            order.push(NodeId(cur));
            proof {
                assert(order@.len() <= n);
                assert(is_topological(g, order@)) by {
                    assert forall|j: int, w: u32| 0 <= j < order@.len() && #[trigger] feeds(g, w, order@[j]@) implies
                        exists|i: int| 0 <= i < j && order@[i]@ == w by {
                        if j < order_before.len() {
                            assert(order_before[j] == order@[j]);
                            let i = choose|i: int| 0 <= i < j && order_before[i]@ == w;
                            assert(order@[i] == order_before[i]);
                        } else {
                            let i = choose|i: int| 0 <= i < order_before.len() && order_before[i]@ == w;
                            assert(order@[i] == order_before[i]);
                        }
                    }
                    assert forall|a: int, b: int| 0 <= a < order@.len() && 0 <= b < order@.len() && a != b
                        implies order@[a] != order@[b] by {
                        if a < order_before.len() && b < order_before.len() {
                            assert(order@[a] == order_before[a] && order@[b] == order_before[b]);
                        } else if a < order_before.len() {
                            assert(done.contains(order_before[a]@ as int));
                        } else if b < order_before.len() {
                            assert(done.contains(order_before[b]@ as int));
                        }
                    }
                }
            }
            proof {
                // `cur` is the largest node ready after the earlier ones.
                let k = order_before.len() as int;
                assert(order@.take(k) =~= order_before);
                assert(order@[k]@ == cur);
                assert(!listed(order_before, cur)) by {
                    if listed(order_before, cur) {
                        let j = choose|j: int| 0 <= j < order_before.len() && order_before[j]@ == cur;
                        assert(done.contains(order_before[j]@ as int));
                    }
                }
                assert forall|v: u32| #[trigger] ready_after(g, order_before, v) implies v <= cur by {
                    assert(v < n);
                    assert(!done.contains(v as int)) by {
                        if done.contains(v as int) {
                            let j = choose|j: int| 0 <= j < order_before.len() && order_before[j]@ == v as int;
                            assert(listed(order_before, v));
                        }
                    }
                    assert forall|w: u32| #[trigger] feeds(g, w, v) implies done.contains(w as int) by {
                        assert(listed(order_before, w));
                        let j = choose|j: int| 0 <= j < order_before.len() && order_before[j]@ == w;
                        assert(done.contains(order_before[j]@ as int));
                    }
                    lemma_pending_zero_iff(g, done, v);
                    assert(before_ready.contains(v));
                    let x = choose|x: int| 0 <= x < before_ready.len() && before_ready[x] == v;
                    assert(before_ready[x] <= before_ready[best as int]);
                }
                assert(picks_largest(g, order@, k));
                assert forall|j: int| 0 <= j < order@.len() implies #[trigger] picks_largest(g, order@, j) by {
                    if j < k {
                        assert(order@.take(j) =~= order_before.take(j));
                        assert(order@[j] == order_before[j]);
                        assert(picks_largest(g, order_before, j));
                    }
                }
            }
            // Release the edges out of `cur`.
            let node = match self.nodes.get(&cur) {
                Some(nd) => nd,
                None => {
                    proof {
                        assert(false);
                    }
                    return order;
                },
            };
            let ghost outs = node@.outputs;
            let mut j: usize = 0;
            while j < node.outputs.len()
                invariant
                    g == self@,
                    g.wf(),
                    n == g.next_node_id,
                    cur < n,
                    g.nodes.contains_key(cur),
                    !done.contains(cur as int),
                    done.subset_of(set_int_range(0, n as int)),
                    outs == node@.outputs,
                    outs == g.nodes[cur].outputs,
                    j <= outs.len(),
                    indeg@.len() == n,
                    indeg@[cur as int] == 0,
                    forall|v: u32| v < n && #[trigger] g.nodes.contains_key(v) ==>
                        indeg@[v as int] + edge_count(g, outs.subrange(0, j as int), v) == pending(g, done, v, n as nat),
                    forall|d: int| #[trigger] done.contains(d) ==> indeg@[d] == 0,
                    ready@.no_duplicates(),
                    forall|x: int| 0 <= x < ready@.len() ==> ready@[x] < n && g.nodes.contains_key(#[trigger] ready@[x])
                        && indeg@[ready@[x] as int] == 0 && !done.contains(ready@[x] as int) && ready@[x] != cur,
                    forall|v: u32| v < n && #[trigger] g.nodes.contains_key(v) && !done.contains(v as int)
                        && v != cur && indeg@[v as int] == 0 ==> ready@.contains(v),
                decreases outs.len() - j,
            {
                proof {
                    assert(outs.subrange(0, j + 1).drop_last() =~= outs.subrange(0, j as int));
                }
                if let Some(t) = self.tensors.get(&node.outputs[j].0) {
                    let ghost cons = t@.consumers;
                    assert(cons == g.tensors[outs[j as int]@].consumers);
                    let mut i: usize = 0;
                    while i < t.consumers.len()
                        invariant
                            g == self@,
                            n == g.next_node_id,
                            cur < n,
                            g.nodes.contains_key(cur),
                            !done.contains(cur as int),
                            done.subset_of(set_int_range(0, n as int)),
                            outs == g.nodes[cur].outputs,
                            j < outs.len(),
                            g.tensors.contains_key(outs[j as int]@),
                            cons == t@.consumers,
                            cons == g.tensors[outs[j as int]@].consumers,
                            i <= cons.len(),
                            indeg@.len() == n,
                            indeg@[cur as int] == 0,
                            forall|v: u32| v < n && #[trigger] g.nodes.contains_key(v) ==>
                                indeg@[v as int] + edge_count(g, outs.subrange(0, j as int), v)
                                    + node_count(cons.subrange(0, i as int), v) == pending(g, done, v, n as nat),
                            forall|d: int| #[trigger] done.contains(d) ==> indeg@[d] == 0,
                            ready@.no_duplicates(),
                            forall|x: int| 0 <= x < ready@.len() ==> ready@[x] < n && g.nodes.contains_key(#[trigger] ready@[x])
                                && indeg@[ready@[x] as int] == 0 && !done.contains(ready@[x] as int) && ready@[x] != cur,
                            forall|v: u32| v < n && #[trigger] g.nodes.contains_key(v) && !done.contains(v as int)
                                && v != cur && indeg@[v as int] == 0 ==> ready@.contains(v),
                        decreases cons.len() - i,
                    {
                        proof {
                            assert(cons.subrange(0, i + 1).drop_last() =~= cons.subrange(0, i as int));
                        }
                        let c = t.consumers[i].0;
                        if c < n && self.nodes.contains_key(&c) {
                            proof {
                                assert(g.nodes.contains_key(c));
                                lemma_pending_covers(g, done, c, n as nat, cur);
                                assert(pending(g, done, c, n as nat) >= edge_count(g, outs, c));
                                lemma_edge_count_prefix(g, outs, c, j + 1);
                                let pj = outs.subrange(0, j + 1);
                                assert(pj.drop_last() =~= outs.subrange(0, j as int));
                                assert(pj.last() == outs[j as int]);
                                assert(edge_count(g, pj, c) == edge_count(g, outs.subrange(0, j as int), c) + node_count(cons, c));
                                lemma_node_count_prefix(cons, c, i + 1);
                                let ci = cons.subrange(0, i + 1);
                                assert(ci.last() == cons[i as int]);
                                assert(cons[i as int]@ == c);
                                assert(node_count(ci, c) == node_count(cons.subrange(0, i as int), c) + 1);
                                assert(indeg@[c as int] > 0);
                                assert(!done.contains(c as int));
                            }
                            let ghost ready_before = ready@;
                            let d = indeg[c as usize] - 1;
                            indeg.set(c as usize, d);
                            if d == 0 {
                                proof {
                                    assert(!ready@.contains(c)) by {
                                        if ready@.contains(c) {
                                            let x = choose|x: int| 0 <= x < ready@.len() && ready@[x] == c;
                                            assert(g.nodes.contains_key(ready@[x]));
                                        }
                                    }
                                }
                                ready.push(c);
                            }
                            proof {
                                assert forall|dd: int| #[trigger] done.contains(dd) implies indeg@[dd] == 0 by {
                                    assert(dd != c as int);
                                }
                                assert forall|x: int| 0 <= x < ready@.len() implies ready@[x] < n && g.nodes.contains_key(#[trigger] ready@[x])
                                    && indeg@[ready@[x] as int] == 0 && !done.contains(ready@[x] as int) && ready@[x] != cur by {
                                    if x < ready_before.len() {
                                        assert(ready@[x] == ready_before[x]);
                                        assert(g.nodes.contains_key(ready_before[x]));
                                    }
                                }
                                assert forall|v: u32| v < n && #[trigger] g.nodes.contains_key(v) && !done.contains(v as int)
                                    && v != cur && indeg@[v as int] == 0 implies ready@.contains(v) by {
                                    if v == c {
                                        assert(ready@[ready@.len() - 1] == c);
                                    } else {
                                        assert(ready_before.contains(v));
                                        let x = choose|x: int| 0 <= x < ready_before.len() && ready_before[x] == v;
                                        assert(ready@[x] == v);
                                    }
                                }
                            }
                        }
                        i = i + 1;
                    }
                    proof {
                        assert(cons.subrange(0, cons.len() as int) =~= cons);
                    }
                }
                j = j + 1;
            }
            proof {
                assert(outs.subrange(0, outs.len() as int) =~= outs);
                assert forall|v: u32| v < n && #[trigger] g.nodes.contains_key(v) implies
                    indeg@[v as int] == pending(g, done.insert(cur as int), v, n as nat) by {
                    lemma_pending_emit(g, done, v, n as nat, cur);
                }
                assert forall|d: int| #[trigger] done.insert(cur as int).contains(d) implies indeg@[d] == 0 by {
                    if d != cur as int {
                        assert(done.contains(d));
                    }
                }
                assert forall|x: int| #[trigger] done.insert(cur as int).contains(x) implies
                    exists|j: int| 0 <= j < order@.len() && order@[j]@ == x by {
                    if x == cur as int {
                        assert(order@[order@.len() - 1]@ == cur);
                    } else {
                        let j = choose|j: int| 0 <= j < order_before.len() && order_before[j]@ == x;
                        assert(order@[j] == order_before[j]);
                    }
                }
                assert forall|j: int| 0 <= j < order@.len() implies done.insert(cur as int).contains(#[trigger] order@[j]@ as int) by {
                    if j < order_before.len() {
                        assert(order@[j] == order_before[j]);
                    }
                }
            }
            proof {
                done = done.insert(cur as int);
            }
        }
        proof {
            assert forall|v: u32| !(#[trigger] ready_after(g, order@, v)) by {
                if ready_after(g, order@, v) {
                    assert(v < n);
                    assert(!done.contains(v as int)) by {
                        if done.contains(v as int) {
                            let j = choose|j: int| 0 <= j < order@.len() && order@[j]@ == v as int;
                            assert(listed(order@, v));
                        }
                    }
                    assert forall|w: u32| #[trigger] feeds(g, w, v) implies done.contains(w as int) by {
                        assert(listed(order@, w));
                        let j = choose|j: int| 0 <= j < order@.len() && order@[j]@ == w;
                        assert(done.contains(order@[j]@ as int));
                    }
                    lemma_pending_zero_iff(g, done, v);
                    assert(ready@.contains(v));
                }
            }
            assert forall|v: u32| #[trigger] g.nodes.contains_key(v) && !listed(order@, v) implies
                exists|w: u32| #[trigger] feeds(g, w, v) && !listed(order@, w) by {
                if done.contains(v as int) {
                    let j = choose|j: int| 0 <= j < order@.len() && order@[j]@ == v as int;
                    assert(listed(order@, v));
                }
                if indeg@[v as int] == 0 {
                    assert(ready@.contains(v));
                }
                lemma_pending_witness(g, done, v, n as nat);
                let w = choose|w: u32| (w as nat) < n && #[trigger] g.nodes.contains_key(w) && !done.contains(w as int)
                    && edge_count(g, g.nodes[w].outputs, v) > 0;
                lemma_edge_count_witness(g, g.nodes[w].outputs, v);
                assert(feeds(g, w, v));
                if listed(order@, w) {
                    let j = choose|j: int| 0 <= j < order@.len() && order@[j]@ == w;
                    assert(done.contains(order@[j]@ as int));
                }
            }
        }
        order
    }
}

} // verus!
