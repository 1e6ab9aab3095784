//! A lattice neuron simulator: a deterministic spatial connectivity
//! generator, a double-buffered charge-accumulation and firing model with a
//! temporally offset plasticity rule, and an orchestrator that wires the
//! full network and steps it in lock-step cycles.

use vstd::prelude::*;

pub mod coord_map;
pub mod ecp_geometry;
pub mod encephalon;
pub mod neuron;
pub mod reflex;
pub mod rng;

verus! {

/// A fatal configuration error, raised once at construction time.  There are
/// no recoverable runtime errors in steady-state cycling.
#[derive(Copy, Clone, PartialEq, Eq, Structural, Debug)]
pub enum ConfigError {
    /// The plastic population size is not a perfect cube.
    PlasticNotCube,
    /// `nearby_count + 1` is not a perfect cube.
    NearbyNotCube,
    /// The connection window would not fit inside the plastic cube.
    WindowTooLarge,
    /// A population was given size zero.
    EmptyPopulation,
    /// The number of supplied sensors does not match the geometry.
    SensorCountMismatch,
    /// The number of supplied actuators does not match the geometry.
    ActuatorCountMismatch,
    /// The charge accumulator must have at least one bin.
    NoChargeBins,
    /// The synaptic weight range must be non-empty (`min < max`).
    EmptyWeightRange,
    /// The excitatory:inhibitory ratio must be positive.
    NonPositiveTypeRatio,
    /// A reflex names a sensor or actuator that is not bound.
    UnknownReflexName,
}

/// Quotient bound: a dividend at most `b * d` divides to at most `b`.
pub(crate) proof fn lemma_div_at_most(x: int, d: int, b: int)
    requires
        0 < d,
        0 <= x,
        x <= b * d,
    ensures
        0 <= x / d <= b,
{
    vstd::arithmetic::div_mod::lemma_div_pos_is_pos(x, d);
    vstd::arithmetic::div_mod::lemma_fundamental_div_mod(x, d);
    vstd::arithmetic::div_mod::lemma_mod_bound(x, d);
    assert(x / d <= b) by (nonlinear_arith)
        requires 0 < d && d * (x / d) <= x && x <= b * d && 0 <= x / d;
}

/// Quotient bound: a dividend strictly below `b * d` divides to below `b`.
pub(crate) proof fn lemma_div_below(x: int, d: int, b: int)
    requires
        0 < d,
        0 <= x,
        x < b * d,
    ensures
        0 <= x / d < b,
{
    vstd::arithmetic::div_mod::lemma_div_pos_is_pos(x, d);
    vstd::arithmetic::div_mod::lemma_fundamental_div_mod(x, d);
    vstd::arithmetic::div_mod::lemma_mod_bound(x, d);
    assert(x / d < b) by (nonlinear_arith)
        requires 0 < d && d * (x / d) <= x && x < b * d && 0 <= x / d;
}

} // verus!
