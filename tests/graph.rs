use static_graph::{NodeHandle, Processor, StaticGraph};

/// Test processors sharing one input and one output port.
enum Unit {
    Const(u64),
    AddOne,
    Counter(u64),
    PassThrough,
}

impl Processor<u64, 1, 1> for Unit {
    fn process(&mut self, inputs: &[Option<&u64>; 1]) -> [u64; 1] {
        match self {
            Unit::Const(v) => [*v],
            Unit::AddOne => [inputs[0].map_or(1, |x| *x + 1)],
            Unit::Counter(n) => {
                *n += 1;
                [*n]
            }
            Unit::PassThrough => [inputs[0].copied().unwrap_or(0)],
        }
    }
}

/// Processors with two inputs and two outputs.
enum Wide {
    Split(u64),
    Sum,
}

impl Processor<u64, 2, 2> for Wide {
    fn process(&mut self, inputs: &[Option<&u64>; 2]) -> [u64; 2] {
        match self {
            Wide::Split(v) => [*v, *v * 10],
            Wide::Sum => {
                let a = inputs[0].copied().unwrap_or(0);
                let b = inputs[1].copied().unwrap_or(0);
                [a + b, if inputs[1].is_some() { 1 } else { 0 }]
            }
        }
    }
}

type Pair = StaticGraph<Unit, u64, 1, 1, 2>;

fn wired() -> (Pair, NodeHandle, NodeHandle) {
    let mut g = Pair::new();
    let x = g.add_node(Unit::Const(5)).unwrap();
    let y = g.add_node(Unit::AddOne).unwrap();
    g.set_edge(&y, 0, &x, 0);
    (g, x, y)
}

#[test]
fn constant_feeds_incrementer() {
    let (mut g, x, y) = wired();
    g.process();
    assert_eq!(*g.output(&x, 0), 5);
    assert_eq!(*g.output(&y, 0), 1);
    g.process();
    assert_eq!(*g.output(&x, 0), 5);
    assert_eq!(*g.output(&y, 0), 6);
    g.process();
    assert_eq!(*g.output(&y, 0), 6);
}

#[test]
fn removing_source_disconnects_consumer() {
    let (mut g, x, y) = wired();
    g.process();
    g.process();
    assert_eq!(*g.output(&y, 0), 6);
    g.remove_node(x);
    assert_eq!(g.connection(&y, 0), None);
    g.process();
    assert_eq!(*g.output(&y, 0), 1);
}

#[test]
fn capacity_two_refuses_third_node() {
    let mut g = Pair::new();
    assert!(g.add_node(Unit::Const(1)).is_some());
    assert!(g.add_node(Unit::Const(2)).is_some());
    assert!(g.add_node(Unit::Const(3)).is_none());
}

#[test]
fn capacity_five_refuses_sixth_node() {
    let mut g: StaticGraph<Unit, u64, 1, 1, 5> = StaticGraph::new();
    for k in 0..5 {
        let h = g.add_node(Unit::Const(k)).unwrap();
        assert_eq!(h.index(), k as usize);
    }
    assert!(g.add_node(Unit::AddOne).is_none());
}

#[test]
fn zero_capacity_refuses_every_node() {
    let mut g: StaticGraph<Unit, u64, 1, 1, 0> = StaticGraph::new();
    assert!(g.add_node(Unit::Const(1)).is_none());
    g.process();
}

#[test]
fn freed_slot_is_reused_first() {
    let mut g: StaticGraph<Unit, u64, 1, 1, 3> = StaticGraph::new();
    let a = g.add_node(Unit::Const(1)).unwrap();
    let b = g.add_node(Unit::Const(2)).unwrap();
    assert_eq!(b.index(), 1);
    assert!(g.is_occupied(&a));
    g.remove_node(a);
    let c = g.add_node(Unit::Const(3)).unwrap();
    assert_eq!(c.index(), 0);
    assert!(g.is_occupied(&c));
    let d = g.add_node(Unit::Const(4)).unwrap();
    assert_eq!(d.index(), 2);
    assert!(g.add_node(Unit::Const(5)).is_none());
}

#[test]
fn remove_clears_outgoing_and_keeps_incoming() {
    let mut g: StaticGraph<Unit, u64, 1, 1, 3> = StaticGraph::new();
    let a = g.add_node(Unit::AddOne).unwrap();
    let b = g.add_node(Unit::AddOne).unwrap();
    let c = g.add_node(Unit::Const(7)).unwrap();
    g.set_edge(&b, 0, &a, 0);
    g.set_edge(&a, 0, &c, 0);
    let a_index = a.index();
    g.remove_node(a);
    assert_eq!(g.connection(&b, 0), None);
    assert_eq!(g.connection(&c, 0), None);
    let reused = g.add_node(Unit::PassThrough).unwrap();
    assert_eq!(reused.index(), a_index);
    assert_eq!(g.connection(&reused, 0), Some((c.index(), 0)));
    assert!(g.is_occupied(&reused));
    assert!(g.is_occupied(&b));
}

#[test]
fn reused_slot_keeps_old_wiring_and_buffers() {
    let mut g: StaticGraph<Unit, u64, 1, 1, 2> = StaticGraph::new();
    let a = g.add_node(Unit::Const(9)).unwrap();
    let b = g.add_node(Unit::Const(4)).unwrap();
    g.set_edge(&a, 0, &b, 0);
    g.process();
    assert_eq!(*g.output(&a, 0), 9);
    let a_index = a.index();
    g.remove_node(a);
    let n = g.add_node(Unit::PassThrough).unwrap();
    assert_eq!(n.index(), a_index);
    assert_eq!(*g.output(&n, 0), 9);
    g.process();
    assert_eq!(*g.output(&n, 0), 4);
}

#[test]
fn consumer_sees_source_one_tick_late() {
    let mut g = Pair::new();
    let a = g.add_node(Unit::Counter(0)).unwrap();
    let b = g.add_node(Unit::PassThrough).unwrap();
    g.set_edge(&b, 0, &a, 0);
    g.process();
    assert_eq!(*g.output(&a, 0), 1);
    assert_eq!(*g.output(&b, 0), 0);
    g.process();
    assert_eq!(*g.output(&a, 0), 2);
    assert_eq!(*g.output(&b, 0), 1);
    g.process();
    assert_eq!(*g.output(&a, 0), 3);
    assert_eq!(*g.output(&b, 0), 2);
}

#[test]
fn consumer_before_source_still_sees_previous_tick() {
    let mut g = Pair::new();
    let b = g.add_node(Unit::PassThrough).unwrap();
    let a = g.add_node(Unit::Counter(10)).unwrap();
    g.set_edge(&b, 0, &a, 0);
    g.process();
    assert_eq!(*g.output(&b, 0), 0);
    g.process();
    assert_eq!(*g.output(&b, 0), 11);
    assert_eq!(*g.output(&a, 0), 12);
}

#[test]
fn two_node_cycle_advances_one_step_per_tick() {
    let mut g = Pair::new();
    let a = g.add_node(Unit::AddOne).unwrap();
    let b = g.add_node(Unit::AddOne).unwrap();
    g.set_edge(&a, 0, &b, 0);
    g.set_edge(&b, 0, &a, 0);
    for tick in 1..=4u64 {
        g.process();
        assert_eq!(*g.output(&a, 0), tick);
        assert_eq!(*g.output(&b, 0), tick);
    }
}

#[test]
fn self_loop_feeds_back_previous_output() {
    let mut g: StaticGraph<Unit, u64, 1, 1, 1> = StaticGraph::new();
    let a = g.add_node(Unit::AddOne).unwrap();
    g.set_edge(&a, 0, &a, 0);
    g.process();
    assert_eq!(*g.output(&a, 0), 1);
    g.process();
    assert_eq!(*g.output(&a, 0), 2);
}

#[test]
fn unset_edge_on_absent_connection_changes_nothing() {
    let (mut g, x, y) = wired();
    g.unset_edge(&y, 0);
    assert_eq!(g.connection(&y, 0), None);
    g.unset_edge(&y, 0);
    assert_eq!(g.connection(&y, 0), None);
    assert_eq!(g.connection(&x, 0), None);
    g.unset_edge(&x, 0);
    assert_eq!(g.connection(&x, 0), None);
    g.process();
    assert_eq!(*g.output(&y, 0), 1);
}

#[test]
fn set_edge_overwrites_previous_source() {
    let mut g: StaticGraph<Unit, u64, 1, 1, 3> = StaticGraph::new();
    let a = g.add_node(Unit::Const(3)).unwrap();
    let b = g.add_node(Unit::Const(8)).unwrap();
    let c = g.add_node(Unit::PassThrough).unwrap();
    g.set_edge(&c, 0, &a, 0);
    g.set_edge(&c, 0, &b, 0);
    assert_eq!(g.connection(&c, 0), Some((b.index(), 0)));
    g.process();
    g.process();
    assert_eq!(*g.output(&c, 0), 8);
}

#[test]
fn ports_are_wired_individually() {
    let mut g: StaticGraph<Wide, u64, 2, 2, 2> = StaticGraph::new();
    let s = g.add_node(Wide::Split(3)).unwrap();
    let t = g.add_node(Wide::Sum).unwrap();
    g.set_edge(&t, 0, &s, 1);
    g.process();
    assert_eq!(*g.output(&s, 0), 3);
    assert_eq!(*g.output(&s, 1), 30);
    assert_eq!(*g.output(&t, 0), 0);
    g.process();
    assert_eq!(*g.output(&t, 0), 30);
    assert_eq!(*g.output(&t, 1), 0);
    g.set_edge(&t, 1, &s, 0);
    g.process();
    assert_eq!(*g.output(&t, 0), 33);
    assert_eq!(*g.output(&t, 1), 1);
}

#[test]
fn new_nodes_start_from_default_outputs() {
    let mut g = Pair::new();
    let a = g.add_node(Unit::Const(2)).unwrap();
    assert_eq!(*g.output(&a, 0), 0);
    assert!(g.nodes[1].processor.is_none());
    assert_eq!(g.nodes[1].read, [0]);
    assert_eq!(g.nodes[1].write, [0]);
    assert_eq!(g.connection(&a, 0), None);
}

#[test]
fn free_slot_only_swaps_buffers() {
    let mut g = Pair::new();
    let a = g.add_node(Unit::Const(6)).unwrap();
    g.process();
    assert_eq!(*g.output(&a, 0), 6);
    g.remove_node(a);
    g.process();
    assert_eq!(g.nodes[0].read, [0]);
    assert_eq!(g.nodes[0].write, [6]);
    g.process();
    assert_eq!(g.nodes[0].read, [6]);
}

#[test]
fn set_edge_stores_any_source_port() {
    let mut g = Pair::new();
    let a = g.add_node(Unit::Const(1)).unwrap();
    let b = g.add_node(Unit::PassThrough).unwrap();
    g.set_edge(&b, 0, &a, 9);
    assert_eq!(g.connection(&b, 0), Some((a.index(), 9)));
    g.set_edge(&b, 0, &a, 0);
    assert_eq!(g.connection(&b, 0), Some((a.index(), 0)));
    g.process();
    g.process();
    assert_eq!(*g.output(&b, 0), 1);
}

/// Appends a mark to whatever its input carries.
struct Mark(char);

impl Processor<String, 1, 1> for Mark {
    fn process(&mut self, inputs: &[Option<&String>; 1]) -> [String; 1] {
        let mut s = inputs[0].cloned().unwrap_or_default();
        s.push(self.0);
        [s]
    }
}

#[test]
fn owned_payload_flows_one_tick_late() {
    let mut g: StaticGraph<Mark, String, 1, 1, 2> = StaticGraph::new();
    let a = g.add_node(Mark('a')).unwrap();
    let b = g.add_node(Mark('b')).unwrap();
    assert_eq!(g.output(&a, 0).as_str(), "");
    g.set_edge(&b, 0, &a, 0);
    g.set_edge(&a, 0, &b, 0);
    g.process();
    assert_eq!(g.output(&a, 0).as_str(), "a");
    assert_eq!(g.output(&b, 0).as_str(), "b");
    g.process();
    assert_eq!(g.output(&a, 0).as_str(), "ba");
    assert_eq!(g.output(&b, 0).as_str(), "ab");
}
