//! Network configuration: activation and initialization choices, validation
//! of the hyperparameters, and the layer-shape plan of a multilayer
//! perceptron, including the shape law of the forward pass.

use vstd::prelude::*;
use crate::training::TerminationPolicy;

verus! {

/// The closed set of selectable hidden-layer activation functions.
#[derive(Clone, Copy, Debug, PartialEq, Eq, Structural)]
pub enum ActivationFunction {
    ReLU,
    Sigmoid,
    Tanh,
    Linear,
    LeakyReLU,
}

/// The closed set of weight-initialization policies.
#[derive(Clone, Copy, Debug, PartialEq, Eq, Structural)]
pub enum InitMethod {
    Default,
    Xavier,
}

/// A configuration the trainer rejects at construction.
#[derive(Clone, Copy, Debug, PartialEq, Eq, Structural)]
pub enum ConfigError {
    /// The layer-width sequence has fewer than two entries, so there is no
    /// transition to build.
    TooFewLayers,
    /// The batch size is zero, so no batch could ever be formed.
    ZeroBatchSize,
}

/// The shape of one layer transition: a weight matrix of `inputs` rows and
/// `outputs` columns together with a bias vector of length `outputs`.
#[derive(Clone, Copy, Debug, PartialEq, Eq, Structural)]
pub struct LayerShape {
    pub inputs: usize,
    pub outputs: usize,
}

/// The shapes `ls` are exactly the transitions of the width sequence `ws`:
/// one per adjacent pair of widths.
pub open spec fn shapes_match_widths(ls: Seq<LayerShape>, ws: Seq<usize>) -> bool {
    &&& ls.len() + 1 == ws.len()
    &&& forall|i: int|
        0 <= i < ls.len() ==> (#[trigger] ls[i]).inputs == ws[i] && ls[i].outputs == ws[i + 1]
}

/// Adjacent shapes agree: each layer feeds the next one a row of exactly the
/// width the next one consumes.
pub open spec fn shapes_chained(ls: Seq<LayerShape>) -> bool {
    forall|i: int| 0 <= i < ls.len() - 1 ==> (#[trigger] ls[i]).outputs == ls[i + 1].inputs
}

/// Turn a layer-width sequence into the shapes of its layer transitions.
///
/// Fails exactly when the sequence has fewer than two entries; otherwise the
/// result has one shape per adjacent pair of widths, and those shapes chain.
pub fn plan_layers(widths: &Vec<usize>) -> (r: Result<Vec<LayerShape>, ConfigError>)
    ensures
        widths@.len() < 2 <==> r is Err,
        (r matches Err(e) ==> e == ConfigError::TooFewLayers),
        (r matches Ok(ls) ==> shapes_match_widths(ls@, widths@) && shapes_chained(ls@)),
{
    if widths.len() < 2 {
        return Err(ConfigError::TooFewLayers);
    }
    let mut ls: Vec<LayerShape> = Vec::new();
    let mut i: usize = 0;
    while i < widths.len() - 1
        invariant
            widths@.len() >= 2,
            i <= widths@.len() - 1,
            ls@.len() == i,
            forall|j: int|
                0 <= j < i ==> (#[trigger] ls@[j]).inputs == widths@[j] && ls@[j].outputs
                    == widths@[j + 1],
        decreases widths@.len() - i,
    {
        ls.push(LayerShape { inputs: widths[i], outputs: widths[i + 1] });
        i = i + 1;
    }
    Ok(ls)
}

/// The validated configuration of a network: its layer shapes and the
/// hyperparameters the training loop consumes. The floating-point
/// hyperparameters (learning rate, tolerance) stay with the caller.
pub struct NetworkPlan {
    pub layers: Vec<LayerShape>,
    pub batch_size: usize,
    pub activation: ActivationFunction,
    pub init: InitMethod,
    pub termination: TerminationPolicy,
}

impl NetworkPlan {
    /// A usable plan: at least one layer, a positive batch size, and chained
    /// layer shapes.
    pub open spec fn wf(self) -> bool {
        &&& self.layers@.len() >= 1
        &&& self.batch_size >= 1
        &&& shapes_chained(self.layers@)
    }

    /// Validate a configuration and build its plan.
    ///
    /// Rejects a width sequence of fewer than two entries, then a zero batch
    /// size; any other configuration is accepted, and the plan carries the
    /// transitions of the width sequence unchanged.
    pub fn new(
        widths: &Vec<usize>,
        batch_size: usize,
        activation: ActivationFunction,
        init: InitMethod,
        termination: TerminationPolicy,
    ) -> (r: Result<NetworkPlan, ConfigError>)
        ensures
            widths@.len() < 2 ==> (r matches Err(e) && e == ConfigError::TooFewLayers),
            widths@.len() >= 2 && batch_size == 0 ==> (r matches Err(e) && e
                == ConfigError::ZeroBatchSize),
            widths@.len() >= 2 && batch_size >= 1 ==> (r matches Ok(p) && p.wf()
                && shapes_match_widths(p.layers@, widths@) && p.batch_size == batch_size
                && p.activation == activation && p.init == init && p.termination == termination),
    {
        let layers = match plan_layers(widths) {
            Ok(ls) => ls,
            Err(e) => {
                return Err(e);
            },
        };
        if batch_size == 0 {
            return Err(ConfigError::ZeroBatchSize);
        }
        Ok(NetworkPlan { layers, batch_size, activation, init, termination })
    }
}

/// The shapes of the forward trace of a batch of `batch` rows through chained
/// layers: the activated outputs (the input itself first, then one per
/// layer) and the linear outputs (one per layer).
///
/// The trace has as many linear entries as layers, and the final output is as
/// wide as the last layer's output, whatever the batch size.
pub fn forward_shapes(layers: &Vec<LayerShape>, batch: usize) -> (r: (
    Vec<(usize, usize)>,
    Vec<(usize, usize)>,
))
    requires
        layers@.len() >= 1,
        shapes_chained(layers@),
    ensures
        r.0@.len() == layers@.len() + 1,
        r.1@.len() == layers@.len(),
        r.0@[0] == (batch, layers@[0].inputs),
        forall|k: int|
            0 <= k < layers@.len() ==> (#[trigger] r.1@[k]) == (batch, layers@[k].outputs),
        forall|k: int| 0 <= k < layers@.len() ==> (#[trigger] r.0@[k + 1]) == r.1@[k],
        r.0@[r.0@.len() - 1].1 == layers@[layers@.len() - 1].outputs,
{
    let mut activated: Vec<(usize, usize)> = Vec::new();
    let mut linear: Vec<(usize, usize)> = Vec::new();
    activated.push((batch, layers[0].inputs));
    let mut k: usize = 0;
    while k < layers.len()
        invariant
            layers@.len() >= 1,
            k <= layers@.len(),
            activated@.len() == k + 1,
            linear@.len() == k,
            activated@[0] == (batch, layers@[0].inputs),
            forall|j: int|
                0 <= j < k ==> (#[trigger] linear@[j]) == (batch, layers@[j].outputs),
            forall|j: int| 0 <= j < k ==> (#[trigger] activated@[j + 1]) == linear@[j],
        decreases layers@.len() - k,
    {
        let shape: (usize, usize) = (batch, layers[k].outputs);
        linear.push(shape);
        activated.push(shape);
        k = k + 1;
    }
    proof {
        let l = layers@.len() as int;
        assert(activated@[(l - 1) + 1] == linear@[l - 1]);
    }
    (activated, linear)
}

} // verus!
