use vstd::prelude::*;

verus! {

/// One per-node computation unit: a stateful map from `MAX_IN` optional
/// inputs to `MAX_OUT` outputs.
///
/// An implementation that is itself verified can describe its behaviour as a
/// deterministic step by overriding `follows_model`, `outputs` and `next`;
/// the graph's tick is then specified exactly in terms of them.
pub trait Processor<D, const MAX_IN: usize, const MAX_OUT: usize>: Sized {
    /// Whether `process` behaves as `outputs` and `next` describe.
    open spec fn follows_model() -> bool {
        false
    }

    /// Outputs produced from this state on the given inputs. Only meaningful
    /// where `follows_model` holds.
    open spec fn outputs(&self, inputs: Seq<Option<D>>) -> Seq<D> {
        Seq::empty()
    }

    /// State after one step on the given inputs. Only meaningful where
    /// `follows_model` holds.
    open spec fn next(&self, inputs: Seq<Option<D>>) -> Self {
        *self
    }

    /// Consumes one tick's inputs (`None` for an unconnected port) and
    /// returns this tick's outputs.
    fn process(&mut self, inputs: &[Option<&D>; MAX_IN]) -> (r: [D; MAX_OUT])
        ensures
            Self::follows_model() ==> r@ == old(self).outputs(input_values(inputs@)),
            Self::follows_model() ==> *final(self) == old(self).next(input_values(inputs@)),
    ;
}

/// The value behind an optional input reference.
pub open spec fn input_value<D>(o: Option<&D>) -> Option<D> {
    match o {
        Some(v) => Some(*v),
        None => None,
    }
}

/// The values behind a list of optional input references.
pub open spec fn input_values<D>(inputs: Seq<Option<&D>>) -> Seq<Option<D>> {
    Seq::new(inputs.len(), |j: int| input_value(inputs[j]))
}

} // verus!
