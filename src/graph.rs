use vstd::prelude::*;
use crate::count::{
    count_true, lemma_count_prefix, lemma_count_true_bound, lemma_count_true_update, lemma_count_zero,
};
use crate::node::{empty_nodes, is_empty_node, Node};
use crate::processor::{input_value, input_values, Processor};

verus! {

/// Whether a connection entry is absent or names a slot and an output port
/// within capacity.
pub open spec fn edge_in_bounds<const MAX_OUT: usize, const MAX_NODES: usize>(
    e: Option<(usize, usize)>,
) -> bool {
    match e {
        Some((s, p)) => s < MAX_NODES && p < MAX_OUT,
        None => true,
    }
}

/// An opaque reference to a slot of a graph.
pub struct NodeHandle(usize);

impl NodeHandle {
    /// The slot index this handle refers to.
    pub closed spec fn slot(&self) -> int {
        self.0 as int
    }

    /// A slot index is never negative.
    pub proof fn lemma_slot_nonneg(&self)
        ensures
            0 <= self.slot(),
    {
    }

    /// The slot index, for inspection; a handle cannot be made from one.
    pub fn index(&self) -> (r: usize)
        ensures
            r as int == self.slot(),
    {
        self.0
    }
}

/// How one node changes over a tick, given whether its slot is used and the
/// inputs gathered for it from the previous tick's published outputs.
pub open spec fn node_tick<P: Processor<D, MAX_IN, MAX_OUT>, D, const MAX_IN: usize, const MAX_OUT: usize>(
    before: Node<P, D, MAX_IN, MAX_OUT>,
    after: Node<P, D, MAX_IN, MAX_OUT>,
    used: bool,
    inputs: Seq<Option<D>>,
) -> bool {
    &&& after.write == before.read
    &&& if used && before.processor is Some {
        let p = before.processor->Some_0;
        P::follows_model() ==> {
            &&& after.read@ == p.outputs(inputs)
            &&& after.processor == Some(p.next(inputs))
        }
    } else {
        &&& after.read == before.write
        &&& after.processor == before.processor
    }
}

/// The engine: a fixed table of node slots and the wiring between them.
pub struct StaticGraph<P, D, const MAX_IN: usize, const MAX_OUT: usize, const MAX_NODES: usize> {
    pub nodes: [Node<P, D, MAX_IN, MAX_OUT>; MAX_NODES],
    used: [bool; MAX_NODES],
    connections: [[Option<(usize, usize)>; MAX_IN]; MAX_NODES],
}

impl<
    P: Processor<D, MAX_IN, MAX_OUT>,
    D: Default,
    const MAX_IN: usize,
    const MAX_OUT: usize,
    const MAX_NODES: usize,
> StaticGraph<P, D, MAX_IN, MAX_OUT, MAX_NODES> {
    /// The node stored in slot `i`.
    pub closed spec fn node_at(&self, i: int) -> Node<P, D, MAX_IN, MAX_OUT> {
        self.nodes[i]
    }

    /// Whether slot `i` holds a node.
    pub closed spec fn is_used(&self, i: int) -> bool {
        self.used[i]
    }

    /// The source (slot, output port) wired to input port `j` of slot `i`.
    pub closed spec fn edge(&self, i: int, j: int) -> Option<(usize, usize)> {
        self.connections[i][j]
    }

    /// Every connection into a used slot names a slot and an output port
    /// within capacity, which a tick needs in order to read it.
    pub open spec fn sources_in_bounds(&self) -> bool {
        forall|i: int, j: int|
            0 <= i < MAX_NODES && 0 <= j < MAX_IN && self.is_used(i) ==> edge_in_bounds::<
                MAX_OUT,
                MAX_NODES,
            >(#[trigger] self.edge(i, j))
    }

    /// The value seen through one connection entry during a tick.
    pub open spec fn source_value(&self, c: Option<(usize, usize)>) -> Option<D> {
        match c {
            Some((s, p)) => Some(self.node_at(s as int).read[p as int]),
            None => None,
        }
    }

    /// The inputs that slot `i` receives on the next tick.
    pub open spec fn gathered(&self, i: int) -> Seq<Option<D>> {
        Seq::new(MAX_IN as nat, |j: int| self.source_value(self.edge(i, j)))
    }

    /// The number of used slots.
    pub closed spec fn used_count(&self) -> nat {
        count_true(self.used@)
    }

    /// Whether no slot is free.
    pub open spec fn full(&self) -> bool {
        forall|i: int| 0 <= i < MAX_NODES ==> #[trigger] self.is_used(i)
    }

    /// The same slots and wiring.
    pub open spec fn same_topology(&self, other: &Self) -> bool {
        &&& forall|i: int| 0 <= i < MAX_NODES ==> #[trigger] self.is_used(i) == other.is_used(i)
        &&& forall|i: int, j: int|
            0 <= i < MAX_NODES && 0 <= j < MAX_IN ==> #[trigger] self.edge(i, j) == other.edge(i, j)
    }

    /// Whether `after` is what one tick makes of `self`.
    pub open spec fn ticks_to(&self, after: Self) -> bool {
        &&& after.same_topology(self)
        &&& forall|i: int|
            0 <= i < MAX_NODES ==> node_tick(
                self.node_at(i),
                #[trigger] after.node_at(i),
                self.is_used(i),
                self.gathered(i),
            )
    }

    /// An empty graph: no slot used, nothing wired.
    pub fn new() -> (r: Self)
        ensures
            forall|i: int| 0 <= i < MAX_NODES ==> !#[trigger] r.is_used(i),
            r.used_count() == 0,
            forall|i: int, j: int|
                0 <= i < MAX_NODES && 0 <= j < MAX_IN ==> #[trigger] r.edge(i, j) is None,
            forall|i: int| 0 <= i < MAX_NODES ==> is_empty_node(#[trigger] r.node_at(i)),
    {
        let r = StaticGraph {
            nodes: empty_nodes(),
            used: [false; MAX_NODES],
            connections: [[None; MAX_IN]; MAX_NODES],
        };
        proof {
            lemma_count_zero(r.used@);
        }
        r
    }

    /// Runs one tick: every used slot's processor sees the outputs published
    /// by the previous tick, then all slots publish what they wrote.
    pub fn process(&mut self)
        requires
            old(self).sources_in_bounds(),
        ensures
            old(self).ticks_to(*final(self)),
    {
        let ghost pre = *self;
        let mut i: usize = 0;
        while i < MAX_NODES
            invariant
                0 <= i <= MAX_NODES,
                pre.sources_in_bounds(),
                i < MAX_NODES ==> (self.used[i as int] == pre.used[i as int]),
                self.used == pre.used,
                self.connections == pre.connections,
                forall|k: int| 0 <= k < MAX_NODES ==> #[trigger] self.nodes[k].read == pre.nodes[k].read,
                forall|k: int| i <= k < MAX_NODES ==> #[trigger] self.nodes[k] == pre.nodes[k],
                forall|k: int|
                    0 <= k < i ==> {
                        let b = #[trigger] pre.nodes[k];
                        let a = self.nodes[k];
                        if pre.used[k] && b.processor is Some {
                            let p = b.processor->Some_0;
                            P::follows_model() ==> {
                                &&& a.write@ == p.outputs(pre.gathered(k))
                                &&& a.processor == Some(p.next(pre.gathered(k)))
                            }
                        } else {
                            a.processor == b.processor && a.write == b.write
                        }
                    },
            decreases MAX_NODES - i,
        {
            if self.used[i] {
                let mut inputs: [Option<&D>; MAX_IN] = [None; MAX_IN];
                let mut j: usize = 0;
                while j < MAX_IN
                    invariant
                        0 <= j <= MAX_IN,
                        i < MAX_NODES,
                        pre.sources_in_bounds(),
                        pre.used[i as int],
                        self.connections == pre.connections,
                        forall|k: int| 0 <= k < MAX_NODES ==> #[trigger] self.nodes[k].read == pre.nodes[k].read,
                        forall|jj: int| 0 <= jj < j ==> #[trigger] input_value(inputs@[jj]) == pre.gathered(i as int)[jj],
                    decreases MAX_IN - j,
                {
                    if let Some((s, p)) = self.connections[i][j] {
                        assert(edge_in_bounds::<MAX_OUT, MAX_NODES>(pre.edge(i as int, j as int)));
                        inputs[j] = Some(&self.nodes[s].read[p]);
                    } else {
                        inputs[j] = None;
                    }
                    j = j + 1;
                }
                assert(input_values(inputs@) =~= pre.gathered(i as int));
                match &mut self.nodes[i].processor {
                    Some(processor) => {
                        let out = processor.process(&inputs);
                        self.nodes[i].write = out;
                    },
                    None => {},
                }
            }
            i = i + 1;
        }
        let mut i: usize = 0;
        while i < MAX_NODES
            invariant
                0 <= i <= MAX_NODES,
                self.used == pre.used,
                self.connections == pre.connections,
                forall|k: int|
                    0 <= k < MAX_NODES ==> {
                        let b = #[trigger] pre.nodes[k];
                        let a = self.nodes[k];
                        let w = if pre.used[k] && b.processor is Some {
                            P::follows_model() ==> a.processor == Some(b.processor->Some_0.next(pre.gathered(k)))
                        } else {
                            a.processor == b.processor
                        };
                        &&& w
                        &&& k < i ==> a.write == b.read
                        &&& k >= i ==> a.read == b.read
                        &&& (pre.used[k] && b.processor is Some && P::follows_model()) ==> (if k < i { a.read@ } else { a.write@ }) == b.processor->Some_0.outputs(pre.gathered(k))
                        &&& !(pre.used[k] && b.processor is Some) ==> (if k < i { a.read } else { a.write }) == b.write
                    },
            decreases MAX_NODES - i,
        {
            self.nodes[i].swap_buffers();
            i = i + 1;
        }
        assert forall|a: int, b: int| 0 <= a < MAX_NODES && 0 <= b < MAX_IN implies #[trigger] self.edge(a, b) == pre.edge(a, b) by {}
    }

    /// Installs `processor` in the first free slot; `None` when every slot is used.
    ///
    /// A reused slot is not reset: its buffers and its own input wiring stay
    /// as the previous occupant left them, so clear the wiring with
    /// `unset_edge` where that matters.
    pub fn add_node(&mut self, processor: P) -> (r: Option<NodeHandle>)
        requires
        ensures
            r is None <==> old(self).full(),
            r is None <==> old(self).used_count() == MAX_NODES,
            r is None ==> *final(self) == *old(self),
            r matches Some(h) ==> {
                let s = h.slot();
                &&& 0 <= s < MAX_NODES
                &&& !old(self).is_used(s)
                &&& forall|k: int| 0 <= k < s ==> #[trigger] old(self).is_used(k)
                &&& final(self).is_used(s)
                &&& final(self).used_count() == old(self).used_count() + 1
                &&& final(self).node_at(s).processor == Some(processor)
                &&& final(self).node_at(s).read == old(self).node_at(s).read
                &&& final(self).node_at(s).write == old(self).node_at(s).write
                &&& forall|k: int|
                    0 <= k < MAX_NODES && k != s ==> {
                        &&& #[trigger] final(self).is_used(k) == old(self).is_used(k)
                        &&& final(self).node_at(k) == old(self).node_at(k)
                    }
                &&& forall|a: int, b: int|
                    0 <= a < MAX_NODES && 0 <= b < MAX_IN ==> #[trigger] final(self).edge(a, b)
                        == old(self).edge(a, b)
            },
    {
        proof {
            Self::lemma_capacity(*old(self));
        }
        let mut i: usize = 0;
        while i < MAX_NODES
            invariant
                0 <= i <= MAX_NODES,
                *self == *old(self),
                old(self).full() <==> old(self).used_count() == MAX_NODES,
                forall|k: int| 0 <= k < i ==> #[trigger] self.used[k],
            decreases MAX_NODES - i,
        {
            if !self.used[i] {
                self.nodes[i].processor = Some(processor);
                self.used[i] = true;
                assert(!old(self).is_used(i as int));
                proof {
                    lemma_count_true_update(old(self).used@, i as int, true);
                    assert(self.used@ =~= old(self).used@.update(i as int, true));
                }
                return Some(NodeHandle(i));
            }
            i = i + 1;
        }
        assert(old(self).full()) by {
            assert forall|k: int| 0 <= k < MAX_NODES implies #[trigger] old(self).is_used(k) by {
                assert(self.used[k]);
            }
        }
        None
    }

    /// Frees the slot of `idx` and clears every connection that reads from it.
    /// Connections into the freed slot are kept.
    pub fn remove_node(&mut self, idx: NodeHandle)
        requires
            idx.slot() < MAX_NODES,
        ensures
            !final(self).is_used(idx.slot()),
            final(self).used_count() + (if old(self).is_used(idx.slot()) { 1int } else { 0int })
                == old(self).used_count(),
            forall|k: int|
                0 <= k < MAX_NODES && k != idx.slot() ==> #[trigger] final(self).is_used(k)
                    == old(self).is_used(k),
            forall|k: int| 0 <= k < MAX_NODES ==> #[trigger] final(self).node_at(k) == old(self).node_at(k),
            forall|a: int, b: int|
                0 <= a < MAX_NODES && 0 <= b < MAX_IN ==> #[trigger] final(self).edge(a, b) == (
                match old(self).edge(a, b) {
                    Some((s, _)) if s as int == idx.slot() => None,
                    e => e,
                }),
    {
        let idx = idx.0;
        self.used[idx] = false;
        proof {
            lemma_count_true_update(old(self).used@, idx as int, false);
            assert(self.used@ =~= old(self).used@.update(idx as int, false));
        }
        let ghost mid = *self;
        let mut i: usize = 0;
        while i < MAX_NODES
            invariant
                0 <= i <= MAX_NODES,
                idx < MAX_NODES,
                self.nodes == mid.nodes,
                self.used == mid.used,
                forall|a: int, b: int|
                    0 <= a < MAX_NODES && 0 <= b < MAX_IN ==> #[trigger] self.connections[a][b] == if a < i {
                        match mid.connections[a][b] {
                            Some((s, _)) if s == idx => None,
                            e => e,
                        }
                    } else {
                        mid.connections[a][b]
                    },
            decreases MAX_NODES - i,
        {
            let mut j: usize = 0;
            while j < MAX_IN
                invariant
                    0 <= j <= MAX_IN,
                    0 <= i < MAX_NODES,
                    idx < MAX_NODES,
                    self.nodes == mid.nodes,
                    self.used == mid.used,
                    forall|a: int, b: int|
                        0 <= a < MAX_NODES && 0 <= b < MAX_IN ==> #[trigger] self.connections[a][b] == if a < i || (a == i && b < j) {
                            match mid.connections[a][b] {
                                Some((s, _)) if s == idx => None,
                                e => e,
                            }
                        } else {
                            mid.connections[a][b]
                        },
                decreases MAX_IN - j,
            {
                if let Some((s, _)) = self.connections[i][j] {
                    if s == idx {
                        self.connections[i][j] = None;
                    }
                }
                j = j + 1;
            }
            i = i + 1;
        }
    }

    /// Wires input port `to_sink` of `to` to output port `from_source` of `from`,
    /// replacing whatever was wired there. The source is not checked here;
    /// `process` asks that the sources of used slots be within capacity.
    pub fn set_edge(&mut self, to: &NodeHandle, to_sink: usize, from: &NodeHandle, from_source: usize)
        requires
            to.slot() < MAX_NODES,
            to_sink < MAX_IN,
        ensures
            final(self).edge(to.slot(), to_sink as int) == Some((from.slot() as usize, from_source)),
            forall|a: int, b: int|
                0 <= a < MAX_NODES && 0 <= b < MAX_IN && (a, b) != (to.slot(), to_sink as int)
                    ==> #[trigger] final(self).edge(a, b) == old(self).edge(a, b),
            forall|k: int|
                0 <= k < MAX_NODES ==> #[trigger] final(self).is_used(k) == old(self).is_used(k)
                    && final(self).node_at(k) == old(self).node_at(k),
    {
        self.connections[to.0][to_sink] = Some((from.0, from_source));
    }

    /// Disconnects input port `to_sink` of `to`.
    pub fn unset_edge(&mut self, to: &NodeHandle, to_sink: usize)
        requires
            to.slot() < MAX_NODES,
            to_sink < MAX_IN,
        ensures
            final(self).edge(to.slot(), to_sink as int) is None,
            old(self).edge(to.slot(), to_sink as int) is None ==> *final(self) == *old(self),
            forall|a: int, b: int|
                0 <= a < MAX_NODES && 0 <= b < MAX_IN && (a, b) != (to.slot(), to_sink as int)
                    ==> #[trigger] final(self).edge(a, b) == old(self).edge(a, b),
            forall|k: int|
                0 <= k < MAX_NODES ==> #[trigger] final(self).is_used(k) == old(self).is_used(k)
                    && final(self).node_at(k) == old(self).node_at(k),
    {
        self.connections[to.0][to_sink] = None;
        proof {
            if old(self).edge(to.slot(), to_sink as int) is None {
                assert(self.connections[to.slot()] =~= old(self).connections[to.slot()]);
                assert(self.connections =~= old(self).connections);
            }
        }
    }

    /// The value published on output port `port` of the node of `h`.
    pub fn output(&self, h: &NodeHandle, port: usize) -> (r: &D)
        requires
            h.slot() < MAX_NODES,
            port < MAX_OUT,
        ensures
            r == self.node_at(h.slot()).read[port as int],
    {
        &self.nodes[h.0].read[port]
    }

    /// The source wired to input port `to_sink` of `to`, as (slot, output port).
    pub fn connection(&self, to: &NodeHandle, to_sink: usize) -> (r: Option<(usize, usize)>)
        requires
            to.slot() < MAX_NODES,
            to_sink < MAX_IN,
        ensures
            r == self.edge(to.slot(), to_sink as int),
    {
        self.connections[to.0][to_sink]
    }

    /// Whether the slot of `h` holds a node.
    pub fn is_occupied(&self, h: &NodeHandle) -> (r: bool)
        requires
            h.slot() < MAX_NODES,
        ensures
            r == self.is_used(h.slot()),
    {
        self.used[h.0]
    }

    /// Snapshot consistency: when input port `j` of slot `b` is wired to output
    /// port `p` of slot `a`, then during a tick `b` sees what `a` published on
    /// the tick before, and during the following tick `b` sees what `a`
    /// computed in this one.
    pub proof fn lemma_snapshot(g0: Self, g1: Self, a: usize, b: int, j: int, p: usize)
        requires
            g0.ticks_to(g1),
            0 <= b < MAX_NODES,
            0 <= j < MAX_IN,
            g0.edge(b, j) == Some((a, p)),
            a < MAX_NODES,
            g0.is_used(a as int),
            g0.node_at(a as int).processor is Some,
            P::follows_model(),
        ensures
            g0.gathered(b)[j] == Some(g0.node_at(a as int).read[p as int]),
            g1.gathered(b)[j] == Some(
                g0.node_at(a as int).processor->Some_0.outputs(g0.gathered(a as int))[p as int],
            ),
    {
        assert(g1.edge(b, j) == g0.edge(b, j));
        assert(node_tick(g0.node_at(a as int), g1.node_at(a as int), g0.is_used(a as int), g0.gathered(a as int)));
    }

    /// A tick depends only on the wiring, the processors' states and the
    /// outputs published by the previous tick: two graphs that agree on those
    /// publish the same outputs after the tick, whatever their write buffers
    /// held, cycles in the wiring included.
    pub proof fn lemma_tick_depends_on_published(g0: Self, g1: Self, h0: Self, h1: Self)
        requires
            g0.sources_in_bounds(),
            g0.ticks_to(g1),
            h0.ticks_to(h1),
            g0.same_topology(&h0),
            forall|i: int|
                0 <= i < MAX_NODES ==> (#[trigger] g0.node_at(i)).processor == h0.node_at(i).processor
                    && g0.node_at(i).read == h0.node_at(i).read,
            P::follows_model(),
        ensures
            forall|i: int|
                0 <= i < MAX_NODES && g0.is_used(i) && g0.node_at(i).processor is Some ==> (
                #[trigger] g1.node_at(i)).read == h1.node_at(i).read
                    && g1.node_at(i).processor == h1.node_at(i).processor,
    {
        assert forall|i: int|
            0 <= i < MAX_NODES && g0.is_used(i) && g0.node_at(i).processor is Some implies (
            #[trigger] g1.node_at(i)).read == h1.node_at(i).read
                && g1.node_at(i).processor == h1.node_at(i).processor by {
            assert(g0.gathered(i) =~= h0.gathered(i)) by {
                assert forall|j: int| 0 <= j < MAX_IN implies g0.gathered(i)[j] == h0.gathered(i)[j] by {
                    assert(g0.edge(i, j) == h0.edge(i, j));
                    assert(edge_in_bounds::<MAX_OUT, MAX_NODES>(g0.edge(i, j)));
                    if g0.edge(i, j) is Some {
                        let s = g0.edge(i, j)->Some_0.0 as int;
                        assert(g0.node_at(s).read == h0.node_at(s).read);
                    }
                }
            }
            assert(node_tick(g0.node_at(i), g1.node_at(i), g0.is_used(i), g0.gathered(i)));
            assert(node_tick(h0.node_at(i), h1.node_at(i), h0.is_used(i), h0.gathered(i)));
            assert(g1.node_at(i).read@ =~= h1.node_at(i).read@);
            assert(g1.node_at(i).read =~= h1.node_at(i).read);
        }
    }

    /// Capacity: a graph has a free slot exactly when fewer than `MAX_NODES`
    /// slots are used, so starting from an empty graph the first `MAX_NODES`
    /// calls of `add_node` succeed and the next one returns `None`.
    pub proof fn lemma_capacity(g: Self)
        ensures
            g.used_count() <= MAX_NODES,
            g.full() <==> g.used_count() == MAX_NODES,
    {
        lemma_count_true_bound(g.used@);
        assert(g.full() <==> forall|i: int| 0 <= i < g.used@.len() ==> #[trigger] g.used@[i]) by {
            if g.full() {
                assert forall|i: int| 0 <= i < g.used@.len() implies #[trigger] g.used@[i] by {
                    assert(g.is_used(i));
                }
            }
            if forall|i: int| 0 <= i < g.used@.len() ==> #[trigger] g.used@[i] {
                assert forall|i: int| 0 <= i < MAX_NODES implies #[trigger] g.is_used(i) by {
                    assert(g.used@[i]);
                }
            }
        }
    }

    /// Filling in order: a graph whose used slots are exactly the first `k`
    /// (the state that `k` successful calls of `add_node` leave in a new
    /// graph) counts `k` used slots, is full only when `k == MAX_NODES`, and
    /// its first free slot, which `add_node` takes next, is slot `k`.
    pub proof fn lemma_fill_order(g: Self, k: int)
        requires
            0 <= k <= MAX_NODES,
            forall|i: int| 0 <= i < MAX_NODES ==> (#[trigger] g.is_used(i) <==> i < k),
        ensures
            g.used_count() == k,
            g.full() <==> k == MAX_NODES,
            forall|s: int|
                0 <= s < MAX_NODES && !g.is_used(s) && (forall|i: int|
                    0 <= i < s ==> #[trigger] g.is_used(i)) ==> s == k,
    {
        assert forall|i: int| 0 <= i < g.used@.len() implies (#[trigger] g.used@[i] <==> i < k) by {
            assert(g.is_used(i) == g.used@[i]);
        }
        lemma_count_prefix(g.used@, k);
        Self::lemma_capacity(g);
        assert forall|s: int|
            0 <= s < MAX_NODES && !g.is_used(s) && (forall|i: int|
                0 <= i < s ==> #[trigger] g.is_used(i)) implies s == k by {
            if s > k {
                assert(g.is_used(k));
            }
        }
    }
}

} // verus!
