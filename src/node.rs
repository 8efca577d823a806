use vstd::prelude::*;
use crate::processor::Processor;

verus! {

/// One slot of the graph: an optional processor and its double-buffered
/// outputs. `read` holds what the previous tick published, `write` what the
/// current tick produces.
pub struct Node<P, D, const MAX_IN: usize, const MAX_OUT: usize> {
    pub processor: Option<P>,
    pub read: [D; MAX_OUT],
    pub write: [D; MAX_OUT],
}

/// Whether `d` is a value that the payload's `Default` gives.
pub open spec fn is_default<D: Default>(d: D) -> bool {
    call_ensures(D::default, (), d)
}

/// Whether every entry of `b` is the payload's default value.
pub open spec fn all_default<D: Default, const N: usize>(b: [D; N]) -> bool {
    forall|k: int| 0 <= k < N ==> is_default(#[trigger] b[k])
}

/// Relies on core::array::from_fn: element `i` is the closure's result for `i`.
#[verifier::external_body]
pub(crate) fn array_from_fn<T, F: Fn(usize) -> T, const N: usize>(f: F) -> (r: [T; N])
    requires
        forall|i: usize| i < N ==> call_requires(f, (i,)),
    ensures
        forall|i: usize| i < N ==> call_ensures(f, (i,), #[trigger] r[i as int]),
{
    core::array::from_fn(f)
}

/// A buffer with every entry at the payload's default value.
fn default_buffer<D: Default, const N: usize>() -> (r: [D; N])
    ensures
        all_default(r),
{
    let f = |_i: usize| -> (d: D) ensures is_default(d) { D::default() };
    let r: [D; N] = array_from_fn(f);
    assert forall|k: int| 0 <= k < N implies is_default(#[trigger] r[k]) by {
        assert(call_ensures(f, (k as usize,), r[k]));
    }
    r
}

impl<P: Processor<D, MAX_IN, MAX_OUT>, D: Default, const MAX_IN: usize, const MAX_OUT: usize> Node<P, D, MAX_IN, MAX_OUT> {
    /// A node with both buffers filled with the payload's default value.
    pub fn new(processor: Option<P>) -> (r: Self)
        ensures
            r.processor == processor,
            all_default(r.read),
            all_default(r.write),
    {
        Node { processor, read: default_buffer(), write: default_buffer() }
    }

    /// Publishes what was written and recycles the old published buffer.
    pub fn swap_buffers(&mut self)
        ensures
            final(self).processor == old(self).processor,
            final(self).read == old(self).write,
            final(self).write == old(self).read,
    {
        core::mem::swap(&mut self.read, &mut self.write);
    }
}

/// Whether a node holds no processor and both of its buffers hold the
/// payload's default value.
pub open spec fn is_empty_node<P, D: Default, const MAX_IN: usize, const MAX_OUT: usize>(
    n: Node<P, D, MAX_IN, MAX_OUT>,
) -> bool {
    &&& n.processor is None
    &&& all_default(n.read)
    &&& all_default(n.write)
}

/// A table of empty nodes.
pub(crate) fn empty_nodes<
    P: Processor<D, MAX_IN, MAX_OUT>,
    D: Default,
    const MAX_IN: usize,
    const MAX_OUT: usize,
    const MAX_NODES: usize,
>() -> (r: [Node<P, D, MAX_IN, MAX_OUT>; MAX_NODES])
    ensures
        forall|i: int| 0 <= i < MAX_NODES ==> is_empty_node(#[trigger] r[i]),
{
    let f = |_i: usize| -> (n: Node<P, D, MAX_IN, MAX_OUT>) ensures is_empty_node(n) { Node::new(None) };
    let r: [Node<P, D, MAX_IN, MAX_OUT>; MAX_NODES] = array_from_fn(f);
    assert forall|k: int| 0 <= k < MAX_NODES implies is_empty_node(#[trigger] r[k]) by {
        assert(call_ensures(f, (k as usize,), r[k]));
    }
    r
}

} // verus!
