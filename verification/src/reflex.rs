//! Reflex configuration records: pre-wired, non-adapting synapses from a
//! named sensor to a named actuator, consumed once during network
//! construction.

use vstd::prelude::*;
use crate::neuron::SynapseType;

verus! {

/// An immutable configuration record describing one static synapse: the
/// weight is in fixed-point millionths, as everywhere in the network.
pub struct Reflex {
    pub sensor_name: String,
    pub actuator_name: String,
    pub synapse_type: SynapseType,
    pub weight: u64,
}

impl Reflex {
    pub fn new(sensor_name: String, actuator_name: String, synapse_type: SynapseType, weight: u64) -> (r: Reflex)
        ensures
            r.sensor_name@ == sensor_name@,
            r.actuator_name@ == actuator_name@,
            r.synapse_type == synapse_type,
            r.weight == weight,
    {
        Reflex { sensor_name, actuator_name, synapse_type, weight }
    }
}

} // verus!
