use vstd::prelude::*;

use crate::copy_out::all_wf;
use crate::node::Node;
use crate::ring_buffer::{DEFAULT_MAX_LENGTH, RingBuffer};

verus! {

/// How a node is wired when it is registered: one output edge per entry of
/// `to`, each naming an already registered node.
pub struct GraphNodeParams {
    pub to: Vec<usize>,
}

impl Default for GraphNodeParams {
    fn default() -> (r: GraphNodeParams)
        ensures
            r.to@.len() == 0,
    {
        GraphNodeParams { to: Vec::new() }
    }
}

/// The input edges that registering node `id` with targets `to` gives node
/// `target`: one `(id, k)` for each `k` with `to[k] == target`, in order.
pub open spec fn edges_into(to: Seq<usize>, target: int, id: int) -> Seq<(usize, usize)>
    decreases to.len(),
{
    if to.len() == 0 {
        Seq::empty()
    } else {
        let rest = edges_into(to.drop_last(), target, id);
        if to.last() == target {
            rest.push((id as usize, (to.len() - 1) as usize))
        } else {
            rest
        }
    }
}

struct GraphNode<N: Node> {
    id: usize,
    params: GraphNodeParams,
    node: N,
    input_ids: Vec<(usize, usize)>,
}

impl<N: Node> GraphNode<N> {
    fn new(id: usize, params: GraphNodeParams, node: N) -> (r: GraphNode<N>)
        ensures
            r.id == id,
            r.params == params,
            r.node == node,
            r.input_ids@.len() == 0,
    {
        GraphNode { id, params, node, input_ids: Vec::new() }
    }
}

/// Owns every node and the ring buffer of every edge, and ticks the nodes
/// in reverse registration order. Since a node can only send to nodes
/// registered before it, that order runs every producer before its
/// consumers.
pub struct Graph<N: Node> {
    next_id: usize,
    nodes: Vec<GraphNode<N>>,
    inputs: Vec<RingBuffer>,
    outputs_cache: Vec<Vec<RingBuffer>>,
    order: Ghost<Seq<int>>,
    log: Ghost<Seq<(Seq<N>, Seq<Seq<RingBuffer>>)>>,
}

/// The buffers that the input edges `ids` name, in order.
pub open spec fn gathered(edges: Seq<Seq<RingBuffer>>, ids: Seq<(usize, usize)>) -> Seq<RingBuffer> {
    Seq::new(ids.len(), |e: int| edges[ids[e].0 as int][ids[e].1 as int])
}

/// After node `c` ran on the input edges `ids` and its own output edges,
/// every input edge holds what the node left in the matching input
/// (`ins2`), every output edge of `c` what it left in the matching output
/// (`outs2`), and every other edge is as it was.
pub open spec fn returned(
    edges: Seq<Seq<RingBuffer>>,
    edges2: Seq<Seq<RingBuffer>>,
    c: int,
    ids: Seq<(usize, usize)>,
    ins2: Seq<RingBuffer>,
    outs2: Seq<RingBuffer>,
) -> bool {
    &&& ins2.len() == ids.len()
    &&& outs2.len() == edges[c].len()
    &&& edges2.len() == edges.len()
    &&& forall|p: int| 0 <= p < edges.len() ==> (#[trigger] edges2[p]).len() == edges[p].len()
    &&& forall|e: int| 0 <= e < ids.len() ==> edges2[ids[e].0 as int][ids[e].1 as int] == #[trigger] ins2[e]
    &&& forall|k: int| 0 <= k < outs2.len() ==> edges2[c][k] == #[trigger] outs2[k]
    &&& forall|p: int, k: int|
        0 <= p < edges.len() && 0 <= k < edges[p].len() && p != c && !ids.contains((p as usize, k as usize))
            ==> #[trigger] edges2[p][k] == edges[p][k]
}

/// One entry of a tick: node `c` of `before` ran (its `Node::step`) on the
/// buffers of its input edges `ids` and of its own output edges, giving
/// `after`.
pub open spec fn tick_step<N: Node>(
    before: (Seq<N>, Seq<Seq<RingBuffer>>),
    after: (Seq<N>, Seq<Seq<RingBuffer>>),
    c: int,
    ids: Seq<(usize, usize)>,
) -> bool {
    exists|node2: N, ins2: Seq<RingBuffer>, outs2: Seq<RingBuffer>|
        #[trigger] before.0[c].step(gathered(before.1, ids), before.1[c], node2, ins2, outs2) && returned(
            before.1,
            after.1,
            c,
            ids,
            ins2,
            outs2,
        ) && after.0 == before.0.update(c, node2)
}

/// `a` is ticked before `b` in `order`.
pub open spec fn runs_before(order: Seq<int>, a: int, b: int) -> bool {
    exists|i: int, j: int| 0 <= i < j < order.len() && #[trigger] order[i] == a && #[trigger] order[j] == b
}

/// Ordering law: after a tick, every producer has run before each node it
/// feeds (entry `j` of `tick_order` is the node that step `j` of `tick_log`
/// ran), both along the edges a node was registered with (`targets`) and
/// along the input edges recorded at its consumers (`input_edges`). So a
/// consumer sees within the same tick what its producers wrote.
pub proof fn lemma_producers_run_first<N: Node>(g: &Graph<N>)
    requires
        g.wf(),
        g.tick_order() == Seq::new(g.node_count() as nat, |j: int| g.node_count() - 1 - j),
    ensures
        forall|p: int, k: int| 0 <= p < g.node_count() && 0 <= k < g.targets(p).len() ==>
            runs_before(g.tick_order(), p, #[trigger] g.targets(p)[k] as int),
        forall|c: int, e: int| 0 <= c < g.node_count() && 0 <= e < g.input_edges(c).len() ==>
            runs_before(g.tick_order(), #[trigger] g.input_edges(c)[e].0 as int, c),
{
    let n = g.node_count();
    let order = g.tick_order();
    assert forall|p: int, k: int| 0 <= p < n && 0 <= k < g.targets(p).len() implies
        runs_before(order, p, #[trigger] g.targets(p)[k] as int) by {
        let gn = g.nodes@[p];
        let c = g.targets(p)[k] as int;
        assert(gn.params.to@[k] < p);
        assert(order[n - 1 - p] == p);
        assert(order[n - 1 - c] == c);
    }
    assert forall|c: int, e: int| 0 <= c < n && 0 <= e < g.input_edges(c).len() implies
        runs_before(order, #[trigger] g.input_edges(c)[e].0 as int, c) by {
        let gn = g.nodes@[c];
        let p = g.input_edges(c)[e].0 as int;
        assert(gn.input_ids@[e] == g.input_edges(c)[e]);
        assert(c < p < n);
        assert(order[n - 1 - p] == p);
        assert(order[n - 1 - c] == c);
    }
}

impl<N: Node> Graph<N> {
    /// Number of registered nodes.
    pub closed spec fn node_count(&self) -> int {
        self.nodes@.len() as int
    }

    /// The node registered with id `id`.
    pub closed spec fn node(&self, id: int) -> N {
        self.nodes@[id].node
    }

    /// The nodes node `id` sends to, one per output edge.
    pub closed spec fn targets(&self, id: int) -> Seq<usize> {
        self.nodes@[id].params.to@
    }

    /// The `(producer, output edge)` pairs node `id` reads from, in order.
    pub closed spec fn input_edges(&self, id: int) -> Seq<(usize, usize)> {
        self.nodes@[id].input_ids@
    }

    /// The ring buffer of output edge `k` of node `p`.
    pub closed spec fn edge(&self, p: int, k: int) -> RingBuffer {
        self.outputs_cache@[p]@[k]
    }

    /// The node of every id.
    pub closed spec fn nodes_view(&self) -> Seq<N> {
        Seq::new(self.nodes@.len(), |i: int| self.nodes@[i].node)
    }

    /// The buffers of every node's output edges.
    pub closed spec fn edges_view(&self) -> Seq<Seq<RingBuffer>> {
        Seq::new(self.outputs_cache@.len(), |i: int| self.outputs_cache@[i]@)
    }

    /// The nodes and edge buffers before the last tick, then after each
    /// node it ran.
    pub closed spec fn tick_log(&self) -> Seq<(Seq<N>, Seq<Seq<RingBuffer>>)> {
        self.log@
    }

    /// Ids of the nodes in the order the last tick ran them.
    pub closed spec fn tick_order(&self) -> Seq<int> {
        self.order@
    }

    pub closed spec fn wf(&self) -> bool {
        &&& self.next_id == self.nodes@.len()
        &&& self.outputs_cache@.len() == self.nodes@.len()
        &&& self.inputs@.len() == 0
        &&& forall|i: int| 0 <= i < self.nodes@.len() ==> {
            let g = #[trigger] self.nodes@[i];
            &&& g.id == i
            &&& g.node.inv()
            &&& self.outputs_cache@[i]@.len() == g.params.to@.len()
            &&& all_wf(self.outputs_cache@[i]@)
            &&& forall|k: int| 0 <= k < g.params.to@.len() ==> #[trigger] g.params.to@[k] < i
            &&& forall|e: int| 0 <= e < g.input_ids@.len() ==> {
                let (p, s) = #[trigger] g.input_ids@[e];
                &&& i < p < self.nodes@.len()
                &&& s < self.outputs_cache@[p as int]@.len()
            }
            &&& forall|e1: int, e2: int| 0 <= e1 < e2 < g.input_ids@.len() ==> #[trigger] g.input_ids@[e1]
                != #[trigger] g.input_ids@[e2]
        }
    }

    pub fn new() -> (r: Graph<N>)
        ensures
            r.wf(),
            r.node_count() == 0,
    {
        Graph {
            next_id: 0,
            nodes: Vec::new(),
            inputs: Vec::new(),
            outputs_cache: Vec::new(),
            order: Ghost(Seq::empty()),
            log: Ghost(Seq::empty()),
        }
    }

    /// Registers `node` with a fresh ring buffer for each of its output
    /// edges, and records the new edges as inputs of the nodes they name.
    /// Returns the new node's id, which is the number of nodes registered
    /// before it.
    pub fn connect(&mut self, node: N, params: GraphNodeParams) -> (r: usize)
        requires
            old(self).wf(),
            node.inv(),
            old(self).node_count() < usize::MAX,
            forall|k: int| 0 <= k < params.to@.len() ==> #[trigger] params.to@[k] < old(self).node_count(),
        ensures
            final(self).wf(),
            r == old(self).node_count(),
            final(self).node_count() == old(self).node_count() + 1,
            final(self).node(r as int) == node,
            final(self).targets(r as int) == params.to@,
            final(self).input_edges(r as int).len() == 0,
            forall|k: int| 0 <= k < params.to@.len() ==> {
                let b = #[trigger] final(self).edge(r as int, k);
                &&& b.wf()
                &&& b.active
                &&& b.max_length == DEFAULT_MAX_LENGTH
                &&& b.contents().len() == 0
            },
            forall|i: int, k: int| 0 <= i < old(self).node_count() && 0 <= k < old(self).targets(i).len()
                ==> #[trigger] final(self).edge(i, k) == old(self).edge(i, k),
            forall|i: int| 0 <= i < old(self).node_count() ==> {
                &&& #[trigger] final(self).node(i) == old(self).node(i)
                &&& final(self).targets(i) == old(self).targets(i)
                &&& final(self).input_edges(i) == old(self).input_edges(i) + edges_into(params.to@, i, r as int)
            },
    {
        let id = self.next_id;
        self.next_id = self.next_id + 1;
        let mut outputs: Vec<RingBuffer> = Vec::new();
        let mut k: usize = 0;
        while k < params.to.len()
            invariant
                id == old(self).nodes@.len(),
                self.next_id == id + 1,
                self.nodes@.len() == old(self).nodes@.len(),
                self.outputs_cache@ == old(self).outputs_cache@,
                self.inputs@ == old(self).inputs@,
                k <= params.to@.len(),
                outputs@.len() == k,
                all_wf(outputs@),
                forall|j: int| 0 <= j < k ==> {
                    let b = #[trigger] outputs@[j];
                    &&& b.active
                    &&& b.max_length == DEFAULT_MAX_LENGTH
                    &&& b.contents().len() == 0
                },
                forall|j: int| 0 <= j < params.to@.len() ==> #[trigger] params.to@[j] < id,
                forall|i: int| 0 <= i < id ==> {
                    let g = #[trigger] self.nodes@[i];
                    let o = old(self).nodes@[i];
                    &&& g.id == o.id
                    &&& g.params == o.params
                    &&& g.node == o.node
                    &&& g.input_ids@ == o.input_ids@ + edges_into(params.to@.take(k as int), i, id as int)
                },
            decreases params.to@.len() - k,
        {
            let target = params.to[k];
            proof {
                assert(params.to@.take(k + 1).drop_last() =~= params.to@.take(k as int));
                assert(params.to@.take(k + 1).last() == target);
            }
            outputs.push(RingBuffer::new());
            self.nodes[target].input_ids.push((id, k));
            k += 1;
            proof {
                assert forall|i: int| 0 <= i < id implies {
                    let g = #[trigger] self.nodes@[i];
                    let o = old(self).nodes@[i];
                    g.input_ids@ == o.input_ids@ + edges_into(params.to@.take(k as int), i, id as int)
                } by {
                    if i == target {
                        assert(self.nodes@[i].input_ids@ =~= old(self).nodes@[i].input_ids@
                            + edges_into(params.to@.take(k as int), i, id as int));
                    }
                }
            }
        }
        assert(params.to@.take(k as int) =~= params.to@);
        self.outputs_cache.push(outputs);
        self.nodes.push(GraphNode::new(id, params, node));
        proof {
            assert forall|i: int| 0 <= i < self.nodes@.len() implies {
                let g = #[trigger] self.nodes@[i];
                &&& forall|e: int| 0 <= e < g.input_ids@.len() ==> {
                    let (p, s) = #[trigger] g.input_ids@[e];
                    &&& i < p < self.nodes@.len()
                    &&& s < self.outputs_cache@[p as int]@.len()
                }
                &&& forall|e1: int, e2: int| 0 <= e1 < e2 < g.input_ids@.len() ==> #[trigger] g.input_ids@[e1]
                    != #[trigger] g.input_ids@[e2]
            } by {
                if i < id {
                    let g = self.nodes@[i];
                    let o = old(self).nodes@[i];
                    lemma_edges_into(params.to@, i, id as int);
                    assert forall|e1: int, e2: int| 0 <= e1 < e2 < g.input_ids@.len() implies #[trigger] g.input_ids@[e1]
                        != #[trigger] g.input_ids@[e2] by {
                        let ol = o.input_ids@.len() as int;
                        let es = edges_into(params.to@, i, id as int);
                        if e2 < ol {
                            assert(g.input_ids@[e1] == o.input_ids@[e1]);
                            assert(g.input_ids@[e2] == o.input_ids@[e2]);
                        } else if e1 < ol {
                            assert(g.input_ids@[e1] == o.input_ids@[e1]);
                            assert(g.input_ids@[e2] == es[e2 - ol]);
                            assert(o.input_ids@[e1].0 < id);
                        } else {
                            assert(g.input_ids@[e1] == es[e1 - ol]);
                            assert(g.input_ids@[e2] == es[e2 - ol]);
                        }
                    }
                    assert forall|e: int| 0 <= e < g.input_ids@.len() implies {
                        let (p, s) = #[trigger] g.input_ids@[e];
                        &&& i < p < self.nodes@.len()
                        &&& s < self.outputs_cache@[p as int]@.len()
                    } by {
                        if e >= o.input_ids@.len() {
                            assert(g.input_ids@[e] == edges_into(params.to@, i, id as int)[e - o.input_ids@.len()]);
                        } else {
                            assert(g.input_ids@[e] == o.input_ids@[e]);
                        }
                    }
                }
            }
        }
        id
    }

    /// Same nodes, wiring and scratch as `other`, except for the state of
    /// the nodes themselves, whose invariants hold.
    spec fn same_wiring(&self, other: &Self) -> bool {
        &&& self.next_id == other.next_id
        &&& self.nodes@.len() == other.nodes@.len()
        &&& self.outputs_cache@.len() == other.outputs_cache@.len()
        &&& forall|i: int| 0 <= i < self.nodes@.len() ==> {
            let g = #[trigger] self.nodes@[i];
            let o = other.nodes@[i];
            &&& g.id == o.id
            &&& g.params == o.params
            &&& g.input_ids == o.input_ids
            &&& g.node.inv()
        }
    }

    /// Every edge slot of the cache holds a well-formed buffer.
    spec fn caches_wf(&self, other: &Self) -> bool {
        forall|i: int| 0 <= i < self.outputs_cache@.len() ==> {
            &&& (#[trigger] self.outputs_cache@[i])@.len() == other.outputs_cache@[i]@.len()
            &&& all_wf(self.outputs_cache@[i]@)
        }
    }

    /// Runs one tick: every node, from the highest id down, is updated with
    /// the buffers of its input edges (in the order they were recorded) and
    /// of its output edges. The buffers only change hands, and each is back
    /// in its edge's slot afterwards.
    pub fn update(&mut self)
        requires
            old(self).wf(),
        ensures
            final(self).wf(),
            final(self).node_count() == old(self).node_count(),
            forall|i: int| 0 <= i < old(self).node_count() ==> {
                &&& #[trigger] final(self).targets(i) == old(self).targets(i)
                &&& final(self).input_edges(i) == old(self).input_edges(i)
                &&& final(self).node(i).inv()
            },
            final(self).tick_order() == Seq::new(
                old(self).node_count() as nat,
                |j: int| old(self).node_count() - 1 - j,
            ),
            final(self).tick_log().len() == old(self).node_count() + 1,
            final(self).tick_log()[0] == (old(self).nodes_view(), old(self).edges_view()),
            final(self).tick_log()[old(self).node_count()] == (final(self).nodes_view(), final(self).edges_view()),
            forall|j: int| 0 <= j < old(self).node_count() ==> #[trigger] tick_step(
                final(self).tick_log()[j],
                final(self).tick_log()[j + 1],
                old(self).node_count() - 1 - j,
                old(self).input_edges(old(self).node_count() - 1 - j),
            ),
    {
        let mut inputs: Vec<RingBuffer> = Vec::new();
        self.order = Ghost(Seq::empty());
        std::mem::swap(&mut inputs, &mut self.inputs);
        proof {
            assert forall|i: int| 0 <= i < self.outputs_cache@.len() implies {
                &&& (#[trigger] self.outputs_cache@[i])@.len() == old(self).outputs_cache@[i]@.len()
                &&& all_wf(self.outputs_cache@[i]@)
            } by {
                let g = old(self).nodes@[i];
            }
        }
        self.log = Ghost(Seq::empty().push((self.nodes_view(), self.edges_view())));
        assert(self.nodes_view() =~= old(self).nodes_view());
        assert(self.edges_view() =~= old(self).edges_view());
        let mut idx: usize = self.nodes.len();
        assert(self.order@ =~= Seq::new((old(self).nodes@.len() - idx) as nat, |j: int| old(self).nodes@.len() - 1 - j));
        while idx > 0
            invariant
                old(self).wf(),
                idx <= self.nodes@.len(),
                inputs@.len() == 0,
                self.inputs@.len() == 0,
                self.same_wiring(old(self)),
                self.caches_wf(old(self)),
                self.order@ == Seq::new((old(self).nodes@.len() - idx) as nat, |j: int| old(self).nodes@.len() - 1 - j),
                self.log@.len() == old(self).nodes@.len() - idx + 1,
                self.log@[0] == (old(self).nodes_view(), old(self).edges_view()),
                self.log@.last() == (self.nodes_view(), self.edges_view()),
                forall|j: int| 0 <= j < old(self).nodes@.len() - idx ==> #[trigger] tick_step(
                    self.log@[j],
                    self.log@[j + 1],
                    old(self).nodes@.len() - 1 - j,
                    old(self).input_edges(old(self).nodes@.len() - 1 - j),
                ),
            decreases idx,
        {
            idx -= 1;
            self.order = Ghost(self.order@.push(idx as int));
            assert(self.order@ =~= Seq::new((old(self).nodes@.len() - idx) as nat, |j: int| old(self).nodes@.len() - 1 - j));
            let ne = self.nodes[idx].input_ids.len();
            let ghost cur = self.edges_view();
            let ghost nodes0 = self.nodes@;
            let ghost start_view = (self.nodes_view(), self.edges_view());
            let ghost log_start = self.log@;
            assert(start_view == self.log@.last());
            let ghost ids = self.nodes@[idx as int].input_ids@;
            assert(ids == old(self).input_edges(idx as int));
            let mut e: usize = 0;
            while e < ne
                invariant
                    old(self).wf(),
                    idx < self.nodes@.len(),
                    ne == self.nodes@[idx as int].input_ids@.len(),
                    e <= ne,
                    inputs@.len() == e,
                    all_wf(inputs@),
                    self.inputs@.len() == 0,
                    self.same_wiring(old(self)),
                    self.caches_wf(old(self)),
                    self.order@ == Seq::new((old(self).nodes@.len() - idx) as nat, |j: int| old(self).nodes@.len() - 1 - j),
                    self.nodes@ == nodes0,
                    self.log@ == log_start,
                    ids == self.nodes@[idx as int].input_ids@,
                    cur.len() == self.outputs_cache@.len(),
                    forall|q: int| 0 <= q < cur.len() ==> (#[trigger] cur[q]).len() == self.outputs_cache@[q]@.len(),
                    inputs@ == gathered(cur, ids).take(e as int),
                    forall|q: int, k: int|
                        0 <= q < cur.len() && 0 <= k < cur[q].len() && !ids.take(e as int).contains((q as usize, k as usize))
                            ==> #[trigger] self.outputs_cache@[q]@[k] == cur[q][k],
                decreases ne - e,
            {
                let (p, s) = self.nodes[idx].input_ids[e];
                proof {
                    assert(old(self).nodes@[idx as int].input_ids@[e as int] == (p, s));
                }
                proof {
                    assert(!ids.take(e as int).contains((p, s))) by {
                        if ids.take(e as int).contains((p, s)) {
                            let t = choose|t: int| 0 <= t < e && #[trigger] ids.take(e as int)[t] == (p, s);
                            assert(ids[t] == ids[e as int]);
                        }
                    }
                }
                let mut b = RingBuffer::new();
                std::mem::swap(&mut self.outputs_cache[p][s], &mut b);
                inputs.push(b);
                e += 1;
                proof {
                    assert(inputs@ =~= gathered(cur, ids).take(e as int));
                    assert forall|q: int, k: int|
                        0 <= q < cur.len() && 0 <= k < cur[q].len() && !ids.take(e as int).contains((q as usize, k as usize))
                            implies #[trigger] self.outputs_cache@[q]@[k] == cur[q][k] by {
                        if !ids.take(e - 1).contains((q as usize, k as usize)) {
                        } else {
                            let t = choose|t: int| 0 <= t < e - 1 && #[trigger] ids.take(e - 1)[t] == (q as usize, k as usize);
                            assert(ids.take(e as int)[t] == (q as usize, k as usize));
                        }
                        if (q, k) != (p as int, s as int) {
                        } else {
                            assert(ids.take(e as int)[e - 1] == (p, s));
                        }
                    }
                }
                proof {
                    assert forall|i: int| 0 <= i < self.outputs_cache@.len() implies {
                        &&& (#[trigger] self.outputs_cache@[i])@.len() == old(self).outputs_cache@[i]@.len()
                        &&& all_wf(self.outputs_cache@[i]@)
                    } by {}
                }
            }
            assert(inputs@ =~= gathered(cur, ids));
            let mut outs: Vec<RingBuffer> = Vec::new();
            std::mem::swap(&mut self.outputs_cache[idx], &mut outs);
            let ghost taken = outs@.len();
            assert(taken == old(self).outputs_cache@[idx as int]@.len());
            proof {
                assert forall|k: int| 0 <= k < cur[idx as int].len() implies outs@[k] == cur[idx as int][k] by {
                    if ids.contains((idx, k as usize)) {
                        let t = choose|t: int| 0 <= t < ids.len() && #[trigger] ids[t] == (idx, k as usize);
                        assert(old(self).nodes@[idx as int].input_ids@[t] == ids[t]);
                    }
                    assert(!ids.take(ne as int).contains((idx, k as usize))) by {
                        if ids.take(ne as int).contains((idx, k as usize)) {
                            let t = choose|t: int| 0 <= t < ne && #[trigger] ids.take(ne as int)[t] == (idx, k as usize);
                            assert(old(self).nodes@[idx as int].input_ids@[t] == ids[t]);
                        }
                    }
                }
                assert(outs@ =~= cur[idx as int]);
            }
            let ghost node_before = self.nodes@[idx as int].node;
            self.nodes[idx].node.update(&mut inputs, &mut outs);
            let ghost node_after = self.nodes@[idx as int].node;
            let ghost ins2 = inputs@;
            let ghost outs2 = outs@;
            assert(node_before.step(gathered(cur, ids), cur[idx as int], node_after, ins2, outs2));
            let ghost nodes1 = self.nodes@;
            assert(outs@.len() == taken);
            std::mem::swap(&mut self.outputs_cache[idx], &mut outs);
            proof {
                assert forall|i: int| 0 <= i < self.outputs_cache@.len() implies {
                    &&& (#[trigger] self.outputs_cache@[i])@.len() == old(self).outputs_cache@[i]@.len()
                    &&& all_wf(self.outputs_cache@[i]@)
                } by {}
            }
            let mut e: usize = ne;
            while e > 0
                invariant
                    old(self).wf(),
                    idx < self.nodes@.len(),
                    ne == self.nodes@[idx as int].input_ids@.len(),
                    e <= ne,
                    inputs@.len() == e,
                    all_wf(inputs@),
                    self.inputs@.len() == 0,
                    self.same_wiring(old(self)),
                    self.caches_wf(old(self)),
                    self.order@ == Seq::new((old(self).nodes@.len() - idx) as nat, |j: int| old(self).nodes@.len() - 1 - j),
                    self.nodes@ == nodes1,
                    self.log@ == log_start,
                    ids == self.nodes@[idx as int].input_ids@,
                    ins2.len() == ne,
                    inputs@ == ins2.take(e as int),
                    cur.len() == self.outputs_cache@.len(),
                    forall|q: int| 0 <= q < cur.len() ==> (#[trigger] cur[q]).len() == self.outputs_cache@[q]@.len(),
                    forall|t: int| e <= t < ne ==> self.outputs_cache@[ids[t].0 as int]@[ids[t].1 as int] == #[trigger] ins2[t],
                    forall|k: int| 0 <= k < outs2.len() ==> self.outputs_cache@[idx as int]@[k] == #[trigger] outs2[k],
                    outs2.len() == cur[idx as int].len(),
                    forall|q: int, k: int|
                        0 <= q < cur.len() && 0 <= k < cur[q].len() && q != idx && !ids.contains((q as usize, k as usize))
                            ==> #[trigger] self.outputs_cache@[q]@[k] == cur[q][k],
                decreases e,
            {
                e -= 1;
                let (p, s) = self.nodes[idx].input_ids[e];
                proof {
                    assert(old(self).nodes@[idx as int].input_ids@[e as int] == (p, s));
                }
                let b = inputs.pop().unwrap();
                proof {
                    assert(ins2.take(e + 1)[e as int] == ins2[e as int]);
                    assert(inputs@ =~= ins2.take(e as int));
                }
                self.outputs_cache[p][s] = b;
                proof {
                    assert forall|t: int| e <= t < ne implies self.outputs_cache@[ids[t].0 as int]@[ids[t].1 as int]
                        == #[trigger] ins2[t] by {
                        if t != e {
                            assert(old(self).nodes@[idx as int].input_ids@[t] != old(self).nodes@[idx as int].input_ids@[e as int]);
                        }
                    }
                    assert forall|q: int, k: int|
                        0 <= q < cur.len() && 0 <= k < cur[q].len() && q != idx && !ids.contains((q as usize, k as usize))
                            implies #[trigger] self.outputs_cache@[q]@[k] == cur[q][k] by {
                        if (q as usize, k as usize) == (p, s) {
                            assert(ids[e as int] == (p, s));
                        }
                    }
                }
                proof {
                    assert forall|i: int| 0 <= i < self.outputs_cache@.len() implies {
                        &&& (#[trigger] self.outputs_cache@[i])@.len() == old(self).outputs_cache@[i]@.len()
                        &&& all_wf(self.outputs_cache@[i]@)
                    } by {}
                }
            }
            proof {
                let before = self.log@.last();
                let after = (self.nodes_view(), self.edges_view());
                assert(before == start_view);
                assert(before.1 == cur);
                assert forall|i: int| 0 <= i < nodes1.len() && i != idx implies #[trigger] nodes1[i] == nodes0[i] by {}
                assert(after.0 =~= before.0.update(idx as int, node_after));
                assert forall|q: int, k: int|
                    0 <= q < before.1.len() && 0 <= k < before.1[q].len() && q != idx && !ids.contains((q as usize, k as usize))
                        implies #[trigger] after.1[q][k] == before.1[q][k] by {}
                assert(returned(before.1, after.1, idx as int, ids, ins2, outs2));
                assert(before.0[idx as int] == node_before);
                assert(tick_step(before, after, idx as int, ids));
            }
            let ghost log0 = self.log@;
            self.log = Ghost(log0.push((self.nodes_view(), self.edges_view())));
            proof {
                assert forall|j: int| 0 <= j < old(self).nodes@.len() - idx implies #[trigger] tick_step(
                    self.log@[j],
                    self.log@[j + 1],
                    old(self).nodes@.len() - 1 - j,
                    old(self).input_edges(old(self).nodes@.len() - 1 - j),
                ) by {
                    if j < old(self).nodes@.len() - idx - 1 {
                        assert(self.log@[j] == log0[j]);
                        assert(self.log@[j + 1] == log0[j + 1]);
                    }
                }
            }
        }
        std::mem::swap(&mut inputs, &mut self.inputs);
    }

    /// The node registered with id `id`.
    pub fn borrow(&self, id: usize) -> (r: &N)
        requires
            id < self.node_count(),
        ensures
            *r == self.node(id as int),
    {
        &self.nodes[id].node
    }
}

proof fn lemma_edges_into(to: Seq<usize>, target: int, id: int)
    requires
        0 <= id <= usize::MAX,
        to.len() <= usize::MAX,
    ensures
        forall|e: int| 0 <= e < edges_into(to, target, id).len() ==> {
            let (p, s) = #[trigger] edges_into(to, target, id)[e];
            &&& p == id
            &&& s < to.len()
        },
        forall|e1: int, e2: int| 0 <= e1 < e2 < edges_into(to, target, id).len() ==> (#[trigger] edges_into(
            to,
            target,
            id,
        )[e1]).1 < (#[trigger] edges_into(to, target, id)[e2]).1,
    decreases to.len(),
{
    if to.len() > 0 {
        let rest = edges_into(to.drop_last(), target, id);
        lemma_edges_into(to.drop_last(), target, id);
        if to.last() == target {
            assert forall|e: int| 0 <= e < rest.len() implies #[trigger] edges_into(to, target, id)[e] == rest[e] by {}
        }
    }
}

} // verus!
