//! The orchestrator: owns the whole neuron population, builds the wiring
//! graph once from the geometry, the external bindings and the reflex
//! records, then steps the network forward in lock-step cycles.
//!
//! Neurons live in arenas, one per role, in geometry enumeration order;
//! synapses address their targets by arena index.  Sensor values come in
//! and actuator values go out as plain fixed-point measures, paired with
//! the bound names positionally.

use vstd::prelude::*;
use crate::ConfigError;
use crate::coord_map::{
    CoordIndexMap, NameIndexMap, coord_map_contents, coord_map_get, coord_map_insert,
    coord_map_new, name_map_contents, name_map_get, name_map_insert, name_map_new,
};
use crate::ecp_geometry::EcpGeometry;
use crate::neuron::{
    ActuatorNeuron, ActuatorView, ChargeCycle, FireReceipt, MEASURE_SCALE, PlasticNeuron,
    PlasticView, SensoryNeuron, SensoryView, Synapse, SynapseTarget, SynapseType, WeightModifier,
    actuator_arena_wf, actuator_views, plastic_arena_wf, plastic_views, spec_empty_receipt,
    spec_sensory_begin, spec_plastic_begin, spec_actuator_cycle, spec_transmit, synapses_wf,
    transmit_synapses,
};
use crate::reflex::Reflex;
use crate::rng::{SeededRng, std_rng_range};
use vstd::pervasive::unreached;

verus! {

/// The whole network.
pub struct Encephalon<G: EcpGeometry, M: WeightModifier> {
    ecp_geometry: G,
    plastic_coords: CoordIndexMap,
    actuator_coords: CoordIndexMap,
    plastic_neurons: Vec<PlasticNeuron>,
    actuator_neurons: Vec<ActuatorNeuron>,
    sensory_neurons: Vec<SensoryNeuron>,
    sensory_interfaces: NameIndexMap,
    actuator_interfaces: NameIndexMap,
    sensor_order: Vec<usize>,
    reflexes: Vec<Reflex>,
    cycle: ChargeCycle,
    modifier: M,
}

/// Every sensory neuron of an arena is well formed.
pub open spec fn sensory_arena_wf(sv: Seq<SensoryView>) -> bool {
    forall|i: int| 0 <= i < sv.len() ==> (#[trigger] sv[i]).wf()
}

/// Every synapse list of the population addresses existing neurons.
pub open spec fn population_synapses_wf(
    sv: Seq<SensoryView>,
    pa: Seq<PlasticView>,
    aa: Seq<ActuatorView>,
) -> bool {
    &&& forall|i: int| 0 <= i < sv.len() ==> synapses_wf((#[trigger] sv[i]).plastic, pa.len(), aa.len())
    &&& forall|i: int| 0 <= i < sv.len() ==> synapses_wf((#[trigger] sv[i]).statics, pa.len(), aa.len())
    &&& forall|i: int| 0 <= i < pa.len() ==> synapses_wf((#[trigger] pa[i]).plastic, pa.len(), aa.len())
    &&& forall|i: int| 0 <= i < pa.len() ==> synapses_wf((#[trigger] pa[i]).statics, pa.len(), aa.len())
}

impl<G: EcpGeometry, M: WeightModifier> Encephalon<G, M> {
    /// The sensory arena's views.
    pub closed spec fn sensory(&self) -> Seq<SensoryView> {
        self.sensory_neurons@.map_values(|n: SensoryNeuron| n@)
    }

    /// The plastic arena's views.
    pub closed spec fn plastic(&self) -> Seq<PlasticView> {
        plastic_views(self.plastic_neurons@)
    }

    /// The actuator arena's views.
    pub closed spec fn actuators(&self) -> Seq<ActuatorView> {
        actuator_views(self.actuator_neurons@)
    }

    /// The arena index each sensor input position feeds.
    pub closed spec fn order(&self) -> Seq<usize> {
        self.sensor_order@
    }

    /// The current global parity.
    pub closed spec fn spec_cycle(&self) -> ChargeCycle {
        self.cycle
    }

    /// The plasticity rule in use.
    pub closed spec fn spec_modifier(&self) -> M {
        self.modifier
    }

    /// Everything one cycle's behaviour depends on.
    pub open spec fn net_view(&self) -> (Seq<SensoryView>, Seq<PlasticView>, Seq<ActuatorView>, Seq<usize>, ChargeCycle) {
        (self.sensory(), self.plastic(), self.actuators(), self.order(), self.spec_cycle())
    }

    /// The structural invariant: every neuron well formed, every synapse
    /// aimed at an existing neuron, every input position bound to a sensory
    /// neuron, and every bound name resolvable to a neuron.
    pub closed spec fn wf(&self) -> bool {
        &&& sensory_arena_wf(self.sensory())
        &&& plastic_arena_wf(self.plastic())
        &&& actuator_arena_wf(self.actuators())
        &&& population_synapses_wf(self.sensory(), self.plastic(), self.actuators())
        &&& self.order().len() == self.sensory().len()
        &&& forall|i: int| 0 <= i < self.order().len() ==> (#[trigger] self.order()[i]) < self.sensory().len()
        &&& forall|k: Seq<char>| name_map_contents(self.sensory_interfaces).dom().contains(k)
            ==> #[trigger] name_map_contents(self.sensory_interfaces)[k] < self.sensory().len()
        &&& forall|k: Seq<char>| name_map_contents(self.actuator_interfaces).dom().contains(k)
            ==> #[trigger] name_map_contents(self.actuator_interfaces)[k] < self.actuators().len()
    }

    /// How many sensor values one cycle consumes.
    pub fn num_sensor_inputs(&self) -> (r: usize)
        ensures
            r == self.order().len(),
    {
        self.sensor_order.len()
    }

    /// How many actuator values one cycle produces.
    pub fn num_actuator_outputs(&self) -> (r: usize)
        ensures
            r == self.actuators().len(),
    {
        self.actuator_neurons.len()
    }

    /// Build the whole network: one neuron per geometry coordinate in each
    /// family, sensors and actuators bound by name in population order, a
    /// plasticity-eligible synapse for every destination the geometry
    /// assigns with a weight drawn uniformly from `synapse_weight_range`
    /// and a type drawn by weighted coin-flip with excitatory probability
    /// `ratio / (ratio + 1)`, and one static synapse per reflex record.
    /// Construction fails fast with a configuration error on a count
    /// mismatch, an empty accumulator, a non-positive ratio, an empty
    /// weight range, or a reflex naming an unbound sensor or actuator.
    #[verifier::rlimit(100)]
    pub fn new(
        ecp_geometry: G,
        sensor_names: Vec<String>,
        actuator_names: Vec<String>,
        reflexes: Vec<Reflex>,
        charge_bins: u8,
        modifier: M,
        synaptic_type_ratio: u64,
        fire_threshold: u64,
        synapse_weight_range: (u64, u64),
        seed: u64,
    ) -> (r: Result<Encephalon<G, M>, ConfigError>)
        requires
            ecp_geometry.wf(),
        ensures
            ({
                let n_sens = ecp_geometry.spec_sensory_coords().len();
                let n_act = ecp_geometry.spec_actuator_coords().len();
                let n_pl = ecp_geometry.spec_plastic_coords().len();
                let counts_ok = sensor_names@.len() == n_sens && actuator_names@.len() == n_act;
                let params_ok = counts_ok && charge_bins >= 1 && synaptic_type_ratio >= 1
                    && synapse_weight_range.0 < synapse_weight_range.1;
                let snames = sensor_names@.map_values(|s: String| s@);
                let anames = actuator_names@.map_values(|s: String| s@);
                let reflexes_ok = forall|k: int| 0 <= k < reflexes@.len()
                    ==> snames.contains((#[trigger] reflexes@[k]).sensor_name@)
                        && anames.contains(reflexes@[k].actuator_name@);
                &&& ((r matches Err(e) && e == ConfigError::SensorCountMismatch)
                    <==> sensor_names@.len() != n_sens)
                &&& ((r matches Err(e) && e == ConfigError::ActuatorCountMismatch)
                    <==> sensor_names@.len() == n_sens && actuator_names@.len() != n_act)
                &&& ((r matches Err(e) && e == ConfigError::NoChargeBins)
                    <==> counts_ok && charge_bins == 0)
                &&& ((r matches Err(e) && e == ConfigError::NonPositiveTypeRatio)
                    <==> counts_ok && charge_bins >= 1 && synaptic_type_ratio == 0)
                &&& ((r matches Err(e) && e == ConfigError::EmptyWeightRange)
                    <==> counts_ok && charge_bins >= 1 && synaptic_type_ratio >= 1
                        && synapse_weight_range.0 >= synapse_weight_range.1)
                &&& ((r matches Err(e) && e == ConfigError::UnknownReflexName)
                    <==> params_ok && !reflexes_ok)
                &&& (r is Ok <==> params_ok && reflexes_ok)
                &&& (r matches Ok(e) ==> {
                    &&& e.wf()
                    &&& e.sensory().len() == n_sens
                    &&& e.plastic().len() == n_pl
                    &&& e.actuators().len() == n_act
                    &&& e.order() =~= Seq::new(n_sens, |i: int| i as usize)
                    &&& e.spec_cycle() == ChargeCycle::Odd
                    &&& e.spec_modifier() == modifier
                    &&& forall|i: int| 0 <= i < n_pl ==> (#[trigger] e.plastic()[i]).plastic.len()
                        == ecp_geometry.spec_nearby(ecp_geometry.spec_plastic_coords()[i]).0.len()
                            + ecp_geometry.spec_nearby(ecp_geometry.spec_plastic_coords()[i]).1.len()
                    &&& forall|i: int| 0 <= i < n_sens ==> (#[trigger] e.sensory()[i]).plastic.len()
                        == ecp_geometry.spec_nearby(ecp_geometry.spec_sensory_coords()[i]).0.len()
                            + ecp_geometry.spec_nearby(ecp_geometry.spec_sensory_coords()[i]).1.len()
                    &&& forall|i: int, j: int| 0 <= i < n_pl
                        && 0 <= j < e.plastic()[i].plastic.len()
                        ==> synapse_weight_range.0 <= (#[trigger] e.plastic()[i].plastic[j]).weight
                            < synapse_weight_range.1
                    &&& forall|i: int, j: int| 0 <= i < n_sens
                        && 0 <= j < e.sensory()[i].plastic.len()
                        ==> synapse_weight_range.0 <= (#[trigger] e.sensory()[i].plastic[j]).weight
                            < synapse_weight_range.1
                    &&& forall|i: int| 0 <= i < n_pl ==> #[trigger] e.plastic()[i] == (PlasticView {
                        plastic: spec_wired_synapses(
                            ecp_geometry,
                            ecp_geometry.spec_plastic_coords()[i],
                            seed,
                            plastic_wiring_history(
                                ecp_geometry,
                                synapse_weight_range.0,
                                synapse_weight_range.1,
                                i as nat,
                            ),
                            synapse_weight_range.0,
                            synapse_weight_range.1,
                            spec_type_threshold(synaptic_type_ratio),
                        ),
                        ..fresh_plastic_view(charge_bins, fire_threshold)
                    })
                    &&& forall|i: int| 0 <= i < n_sens ==> #[trigger] e.sensory()[i] == (SensoryView {
                        plastic: spec_wired_synapses(
                            ecp_geometry,
                            ecp_geometry.spec_sensory_coords()[i],
                            seed,
                            sensory_wiring_history(
                                ecp_geometry,
                                synapse_weight_range.0,
                                synapse_weight_range.1,
                                i as nat,
                            ),
                            synapse_weight_range.0,
                            synapse_weight_range.1,
                            spec_type_threshold(synaptic_type_ratio),
                        ),
                        statics: spec_reflex_statics(
                            reflexes@,
                            names_map_upto(snames, n_sens),
                            names_map_upto(anames, n_act),
                            i,
                            reflexes@.len(),
                        ),
                        ..fresh_sensory_view()
                    })
                    &&& forall|i: int| 0 <= i < n_act ==> #[trigger] e.actuators()[i]
                        == fresh_actuator_view(charge_bins, fire_threshold)
                    &&& e.sensor_binding() == names_map_upto(snames, n_sens)
                    &&& e.actuator_binding() == names_map_upto(anames, n_act)
                    &&& spec_built_state(
                        e.sensory(),
                        e.plastic(),
                        e.actuators(),
                        e.order(),
                        e.spec_cycle(),
                        ecp_geometry,
                        reflexes@,
                        snames,
                        anames,
                        charge_bins,
                        fire_threshold,
                        synapse_weight_range.0,
                        synapse_weight_range.1,
                        synaptic_type_ratio,
                        seed,
                    )
                })
            }),
    {
        let g = ecp_geometry;
        let n_sens = g.get_num_sensory() as usize;
        let n_act = g.get_num_actuator() as usize;
        let n_pl = g.get_num_plastic() as usize;
        if sensor_names.len() != n_sens {
            return Err(ConfigError::SensorCountMismatch);
        }
        if actuator_names.len() != n_act {
            return Err(ConfigError::ActuatorCountMismatch);
        }
        if charge_bins == 0 {
            return Err(ConfigError::NoChargeBins);
        }
        if synaptic_type_ratio == 0 {
            return Err(ConfigError::NonPositiveTypeRatio);
        }
        if synapse_weight_range.0 >= synapse_weight_range.1 {
            return Err(ConfigError::EmptyWeightRange);
        }
        proof {
            g.lemma_families_wf();
        }
        // Arenas, in geometry enumeration order.
        let mut plastic_neurons: Vec<PlasticNeuron> = Vec::new();
        let mut i: usize = 0;
        while i < n_pl
            invariant
                charge_bins >= 1,
                i <= n_pl,
                plastic_neurons@.len() == i,
                forall|k: int| 0 <= k < i ==> #[trigger] plastic_neurons@[k]@
                    == fresh_plastic_view(charge_bins, fire_threshold),
            decreases n_pl - i,
        {
            plastic_neurons.push(PlasticNeuron::new(charge_bins, fire_threshold));
            i = i + 1;
        }
        let mut actuator_neurons: Vec<ActuatorNeuron> = Vec::new();
        let mut i: usize = 0;
        while i < n_act
            invariant
                charge_bins >= 1,
                i <= n_act,
                actuator_neurons@.len() == i,
                forall|k: int| 0 <= k < i ==> #[trigger] actuator_neurons@[k]@
                    == fresh_actuator_view(charge_bins, fire_threshold),
            decreases n_act - i,
        {
            actuator_neurons.push(ActuatorNeuron::new(charge_bins, fire_threshold));
            i = i + 1;
        }
        let mut sensory_neurons: Vec<SensoryNeuron> = Vec::new();
        let mut i: usize = 0;
        while i < n_sens
            invariant
                i <= n_sens,
                sensory_neurons@.len() == i,
                forall|k: int| 0 <= k < i ==> #[trigger] sensory_neurons@[k]@
                    == fresh_sensory_view(),
            decreases n_sens - i,
        {
            sensory_neurons.push(SensoryNeuron::new());
            i = i + 1;
        }
        // Coordinate lookup tables for wiring.
        let mut plastic_coords = coord_map_new();
        let mut i: usize = 0;
        while i < n_pl
            invariant
                g.wf(),
                n_pl == g.spec_plastic_coords().len(),
                i <= n_pl,
                coord_map_contents(plastic_coords) == coords_map_upto(g.spec_plastic_coords(), i as nat),
            decreases n_pl - i,
        {
            let c = g.plastic_coord_at(i);
            coord_map_insert(&mut plastic_coords, c, i);
            i = i + 1;
        }
        let mut actuator_coords = coord_map_new();
        let mut i: usize = 0;
        while i < n_act
            invariant
                g.wf(),
                n_act == g.spec_actuator_coords().len(),
                i <= n_act,
                coord_map_contents(actuator_coords) == coords_map_upto(g.spec_actuator_coords(), i as nat),
            decreases n_act - i,
        {
            let c = g.actuator_coord_at(i);
            coord_map_insert(&mut actuator_coords, c, i);
            i = i + 1;
        }
        proof {
            lemma_coords_map_lookup(g.spec_plastic_coords(), n_pl as nat);
            lemma_coords_map_lookup(g.spec_actuator_coords(), n_act as nat);
        }
        // Name bindings, in population order.
        let ghost snames = sensor_names@.map_values(|s: String| s@);
        let ghost anames = actuator_names@.map_values(|s: String| s@);
        let mut sensory_interfaces = name_map_new();
        let mut i: usize = 0;
        while i < n_sens
            invariant
                i <= n_sens,
                n_sens == sensor_names@.len(),
                snames == sensor_names@.map_values(|s: String| s@),
                name_map_contents(sensory_interfaces) == names_map_upto(snames, i as nat),
            decreases n_sens - i,
        {
            let name = sensor_names[i].clone();
            name_map_insert(&mut sensory_interfaces, name, i);
            i = i + 1;
        }
        let mut actuator_interfaces = name_map_new();
        let mut i: usize = 0;
        while i < n_act
            invariant
                i <= n_act,
                n_act == actuator_names@.len(),
                anames == actuator_names@.map_values(|s: String| s@),
                name_map_contents(actuator_interfaces) == names_map_upto(anames, i as nat),
            decreases n_act - i,
        {
            let name = actuator_names[i].clone();
            name_map_insert(&mut actuator_interfaces, name, i);
            i = i + 1;
        }
        proof {
            lemma_names_map_lookup(snames, n_sens as nat);
            lemma_names_map_lookup(anames, n_act as nat);
        }
        // The excitatory coin-flip threshold: ratio / (ratio + 1) scaled
        // into measure units.
        let type_threshold = ((synaptic_type_ratio as u128 * MEASURE_SCALE as u128)
            / (synaptic_type_ratio as u128 + MEASURE_SCALE as u128)) as u64;
        proof {
            crate::lemma_div_at_most(
                synaptic_type_ratio as int * MEASURE_SCALE as int,
                synaptic_type_ratio as int + MEASURE_SCALE as int,
                MEASURE_SCALE as int,
            );
            assert(synaptic_type_ratio as int * MEASURE_SCALE as int
                <= MEASURE_SCALE as int * (synaptic_type_ratio as int + MEASURE_SCALE as int))
                by (nonlinear_arith)
                requires synaptic_type_ratio >= 0 && MEASURE_SCALE >= 1;
            assert(type_threshold == spec_type_threshold(synaptic_type_ratio));
        }
        let mut rng = SeededRng::new(seed);
        // Plasticity-eligible synapses for every plastic source.
        let mut i: usize = 0;
        while i < n_pl
            invariant
                g.wf(),
                n_pl == g.spec_plastic_coords().len(),
                n_act == g.spec_actuator_coords().len(),
                synapse_weight_range.0 < synapse_weight_range.1,
                coord_map_contents(plastic_coords) == coords_map_upto(g.spec_plastic_coords(), n_pl as nat),
                coord_map_contents(actuator_coords) == coords_map_upto(g.spec_actuator_coords(), n_act as nat),
                forall|k: int| 0 <= k < n_pl ==> {
                    &&& coord_map_contents(plastic_coords).dom().contains(#[trigger] g.spec_plastic_coords()[k])
                    &&& coord_map_contents(plastic_coords)[g.spec_plastic_coords()[k]] == k
                },
                forall|c: Seq<i32>| coord_map_contents(plastic_coords).dom().contains(c)
                    ==> exists|k: int| 0 <= k < n_pl && #[trigger] g.spec_plastic_coords()[k] == c,
                forall|k: int| 0 <= k < n_act ==> {
                    &&& coord_map_contents(actuator_coords).dom().contains(#[trigger] g.spec_actuator_coords()[k])
                    &&& coord_map_contents(actuator_coords)[g.spec_actuator_coords()[k]] == k
                },
                forall|c: Seq<i32>| coord_map_contents(actuator_coords).dom().contains(c)
                    ==> exists|k: int| 0 <= k < n_act && #[trigger] g.spec_actuator_coords()[k] == c,
                i <= n_pl,
                plastic_neurons@.len() == n_pl,
                rng.seed() == seed,
                rng.history() == plastic_wiring_history(g, synapse_weight_range.0, synapse_weight_range.1, i as nat),
                type_threshold == spec_type_threshold(synaptic_type_ratio),
                forall|k: int| 0 <= k < i ==> (#[trigger] plastic_neurons@[k]@).plastic
                    == spec_wired_synapses(
                        g,
                        g.spec_plastic_coords()[k],
                        seed,
                        plastic_wiring_history(g, synapse_weight_range.0, synapse_weight_range.1, k as nat),
                        synapse_weight_range.0,
                        synapse_weight_range.1,
                        type_threshold,
                    ),
                forall|k: int| 0 <= k < n_pl ==> wired_plastic_inv(
                    #[trigger] plastic_neurons@[k]@,
                    charge_bins,
                    fire_threshold,
                ),
                forall|k: int| 0 <= k < n_pl ==> synapses_wf(
                    (#[trigger] plastic_neurons@[k]@).plastic,
                    n_pl as nat,
                    n_act as nat,
                ),
                forall|k: int| i <= k < n_pl ==> (#[trigger] plastic_neurons@[k]@).plastic.len() == 0,
                forall|k: int| 0 <= k < i ==> (#[trigger] plastic_neurons@[k]@).plastic.len()
                    == g.spec_nearby(g.spec_plastic_coords()[k]).0.len()
                        + g.spec_nearby(g.spec_plastic_coords()[k]).1.len(),
                forall|k: int, j: int| 0 <= k < n_pl
                    && 0 <= j < plastic_neurons@[k]@.plastic.len()
                    ==> synapse_weight_range.0
                        <= (#[trigger] plastic_neurons@[k]@.plastic[j]).weight
                        < synapse_weight_range.1,
            decreases n_pl - i,
        {
            let loc = g.plastic_coord_at(i);
            proof {
                assert(g.spec_plastic_coords().contains(loc@)) by {
                    assert(g.spec_plastic_coords()[i as int] == loc@);
                }
                g.lemma_nearby_valid(loc@);
            }
            let (plocs, alocs) = g.get_nearby_rx_neurons(&loc);
            proof {
                assert forall|j: int| 0 <= j < plocs@.len()
                    implies coord_map_contents(plastic_coords).dom().contains(
                        (#[trigger] plocs@[j])@,
                    ) by {
                    assert(plocs@.map_values(|v: Vec<i32>| v@)[j] == plocs@[j]@);
                    let c = g.spec_nearby(loc@).0[j];
                    assert(g.spec_plastic_coords().contains(c));
                    let w = choose|w: int|
                        0 <= w < g.spec_plastic_coords().len() && g.spec_plastic_coords()[w] == c;
                    assert(coord_map_contents(plastic_coords).dom().contains(
                        g.spec_plastic_coords()[w],
                    ));
                }
                assert forall|j: int| 0 <= j < alocs@.len()
                    implies coord_map_contents(actuator_coords).dom().contains(
                        (#[trigger] alocs@[j])@,
                    ) by {
                    assert(alocs@.map_values(|v: Vec<i32>| v@)[j] == alocs@[j]@);
                    let c = g.spec_nearby(loc@).1[j];
                    assert(g.spec_actuator_coords().contains(c));
                    let w = choose|w: int|
                        0 <= w < g.spec_actuator_coords().len() && g.spec_actuator_coords()[w] == c;
                    assert(coord_map_contents(actuator_coords).dom().contains(
                        g.spec_actuator_coords()[w],
                    ));
                }
            }
            let targets = resolve_targets(
                &plocs,
                &alocs,
                &plastic_coords,
                &actuator_coords,
                Ghost(n_pl as nat),
                Ghost(n_act as nat),
            );
            proof {
                g.lemma_families_wf();
                lemma_resolved_targets_match(
                    g,
                    loc@,
                    targets@,
                    plocs@,
                    alocs@,
                    coord_map_contents(plastic_coords),
                    coord_map_contents(actuator_coords),
                );
            }
            let ghost h_entry = rng.history();
            let mut syns = draw_synapses(
                &mut rng,
                &targets,
                synapse_weight_range.0,
                synapse_weight_range.1,
                type_threshold,
            );
            proof {
                assert(syns@ =~= spec_wired_synapses(
                    g,
                    loc@,
                    seed,
                    h_entry,
                    synapse_weight_range.0,
                    synapse_weight_range.1,
                    type_threshold,
                ));
            }
            let n = &mut plastic_neurons[i];
            n.append_plastic_synapses(&mut syns);
            proof {
                assert(plastic_neurons@[i as int]@.plastic =~= spec_wired_synapses(
                    g,
                    g.spec_plastic_coords()[i as int],
                    seed,
                    plastic_wiring_history(g, synapse_weight_range.0, synapse_weight_range.1, i as nat),
                    synapse_weight_range.0,
                    synapse_weight_range.1,
                    type_threshold,
                ));
            }
            i = i + 1;
        }
        // Plasticity-eligible synapses for every sensory source.
        let mut i: usize = 0;
        while i < n_sens
            invariant
                g.wf(),
                n_pl == g.spec_plastic_coords().len(),
                n_act == g.spec_actuator_coords().len(),
                n_sens == g.spec_sensory_coords().len(),
                synapse_weight_range.0 < synapse_weight_range.1,
                forall|k: int| 0 <= k < n_pl ==> {
                    &&& coord_map_contents(plastic_coords).dom().contains(#[trigger] g.spec_plastic_coords()[k])
                    &&& coord_map_contents(plastic_coords)[g.spec_plastic_coords()[k]] == k
                },
                forall|c: Seq<i32>| coord_map_contents(plastic_coords).dom().contains(c)
                    ==> exists|k: int| 0 <= k < n_pl && #[trigger] g.spec_plastic_coords()[k] == c,
                forall|k: int| 0 <= k < n_act ==> {
                    &&& coord_map_contents(actuator_coords).dom().contains(#[trigger] g.spec_actuator_coords()[k])
                    &&& coord_map_contents(actuator_coords)[g.spec_actuator_coords()[k]] == k
                },
                forall|c: Seq<i32>| coord_map_contents(actuator_coords).dom().contains(c)
                    ==> exists|k: int| 0 <= k < n_act && #[trigger] g.spec_actuator_coords()[k] == c,
                i <= n_sens,
                sensory_neurons@.len() == n_sens,
                rng.seed() == seed,
                rng.history() == sensory_wiring_history(g, synapse_weight_range.0, synapse_weight_range.1, i as nat),
                type_threshold == spec_type_threshold(synaptic_type_ratio),
                forall|k: int| 0 <= k < i ==> (#[trigger] sensory_neurons@[k]@).plastic
                    == spec_wired_synapses(
                        g,
                        g.spec_sensory_coords()[k],
                        seed,
                        sensory_wiring_history(g, synapse_weight_range.0, synapse_weight_range.1, k as nat),
                        synapse_weight_range.0,
                        synapse_weight_range.1,
                        type_threshold,
                    ),
                forall|k: int| 0 <= k < n_sens ==> wired_sensory_inv(#[trigger] sensory_neurons@[k]@),
                forall|k: int| 0 <= k < n_sens ==> synapses_wf(
                    (#[trigger] sensory_neurons@[k]@).plastic,
                    n_pl as nat,
                    n_act as nat,
                ),
                forall|k: int| i <= k < n_sens ==> (#[trigger] sensory_neurons@[k]@).plastic.len() == 0,
                forall|k: int| 0 <= k < i ==> (#[trigger] sensory_neurons@[k]@).plastic.len()
                    == g.spec_nearby(g.spec_sensory_coords()[k]).0.len()
                        + g.spec_nearby(g.spec_sensory_coords()[k]).1.len(),
                forall|k: int, j: int| 0 <= k < n_sens
                    && 0 <= j < sensory_neurons@[k]@.plastic.len()
                    ==> synapse_weight_range.0
                        <= (#[trigger] sensory_neurons@[k]@.plastic[j]).weight
                        < synapse_weight_range.1,
                forall|k: int| 0 <= k < n_sens ==> (#[trigger] sensory_neurons@[k]@).statics.len() == 0,
            decreases n_sens - i,
        {
            let loc = g.sensory_coord_at(i);
            proof {
                assert(g.spec_sensory_coords().contains(loc@)) by {
                    assert(g.spec_sensory_coords()[i as int] == loc@);
                }
                g.lemma_nearby_valid(loc@);
            }
            let (plocs, alocs) = g.get_nearby_rx_neurons(&loc);
            proof {
                assert forall|j: int| 0 <= j < plocs@.len()
                    implies coord_map_contents(plastic_coords).dom().contains(
                        (#[trigger] plocs@[j])@,
                    ) by {
                    assert(plocs@.map_values(|v: Vec<i32>| v@)[j] == plocs@[j]@);
                    let c = g.spec_nearby(loc@).0[j];
                    assert(g.spec_plastic_coords().contains(c));
                    let w = choose|w: int|
                        0 <= w < g.spec_plastic_coords().len() && g.spec_plastic_coords()[w] == c;
                    assert(coord_map_contents(plastic_coords).dom().contains(
                        g.spec_plastic_coords()[w],
                    ));
                }
                assert forall|j: int| 0 <= j < alocs@.len()
                    implies coord_map_contents(actuator_coords).dom().contains(
                        (#[trigger] alocs@[j])@,
                    ) by {
                    assert(alocs@.map_values(|v: Vec<i32>| v@)[j] == alocs@[j]@);
                    let c = g.spec_nearby(loc@).1[j];
                    assert(g.spec_actuator_coords().contains(c));
                    let w = choose|w: int|
                        0 <= w < g.spec_actuator_coords().len() && g.spec_actuator_coords()[w] == c;
                    assert(coord_map_contents(actuator_coords).dom().contains(
                        g.spec_actuator_coords()[w],
                    ));
                }
            }
            let targets = resolve_targets(
                &plocs,
                &alocs,
                &plastic_coords,
                &actuator_coords,
                Ghost(n_pl as nat),
                Ghost(n_act as nat),
            );
            proof {
                g.lemma_families_wf();
                lemma_resolved_targets_match(
                    g,
                    loc@,
                    targets@,
                    plocs@,
                    alocs@,
                    coord_map_contents(plastic_coords),
                    coord_map_contents(actuator_coords),
                );
            }
            let ghost h_entry = rng.history();
            let mut syns = draw_synapses(
                &mut rng,
                &targets,
                synapse_weight_range.0,
                synapse_weight_range.1,
                type_threshold,
            );
            proof {
                assert(syns@ =~= spec_wired_synapses(
                    g,
                    loc@,
                    seed,
                    h_entry,
                    synapse_weight_range.0,
                    synapse_weight_range.1,
                    type_threshold,
                ));
            }
            let n = &mut sensory_neurons[i];
            n.append_plastic_synapses(&mut syns);
            proof {
                assert(sensory_neurons@[i as int]@.plastic =~= spec_wired_synapses(
                    g,
                    g.spec_sensory_coords()[i as int],
                    seed,
                    sensory_wiring_history(g, synapse_weight_range.0, synapse_weight_range.1, i as nat),
                    synapse_weight_range.0,
                    synapse_weight_range.1,
                    type_threshold,
                ));
            }
            i = i + 1;
        }
        // Static synapses from the reflex records.
        let ghost sv_wired = sensory_neurons@.map_values(|n: SensoryNeuron| n@);
        let mut k: usize = 0;
        while k < reflexes.len()
            invariant
                k <= reflexes@.len(),
                g == ecp_geometry,
                g.wf(),
                n_sens == g.spec_sensory_coords().len(),
                n_act == g.spec_actuator_coords().len(),
                n_pl == g.spec_plastic_coords().len(),
                charge_bins >= 1,
                synaptic_type_ratio >= 1,
                synapse_weight_range.0 < synapse_weight_range.1,
                n_sens == sensor_names@.len(),
                snames == sensor_names@.map_values(|s: String| s@),
                anames == actuator_names@.map_values(|s: String| s@),
                name_map_contents(sensory_interfaces) == names_map_upto(snames, n_sens as nat),
                name_map_contents(actuator_interfaces) == names_map_upto(anames, n_act as nat),
                n_act == actuator_names@.len(),
                sensory_neurons@.len() == n_sens,
                sv_wired.len() == n_sens,
                type_threshold == spec_type_threshold(synaptic_type_ratio),
                forall|q: int| 0 <= q < n_sens ==> #[trigger] sensory_neurons@[q]@
                    == (SensoryView { statics: sensory_neurons@[q]@.statics, ..sv_wired[q] }),
                forall|q: int| 0 <= q < n_sens ==> wired_sensory_inv(#[trigger] sv_wired[q]),
                forall|q: int| 0 <= q < n_sens ==> (#[trigger] sv_wired[q]).plastic
                    == spec_wired_synapses(
                        g,
                        g.spec_sensory_coords()[q],
                        seed,
                        sensory_wiring_history(g, synapse_weight_range.0, synapse_weight_range.1, q as nat),
                        synapse_weight_range.0,
                        synapse_weight_range.1,
                        type_threshold,
                    ),
                forall|q: int| 0 <= q < n_sens ==> synapses_wf(
                    (#[trigger] sensory_neurons@[q]@).statics,
                    n_pl as nat,
                    n_act as nat,
                ),
                forall|q: int| 0 <= q < n_sens ==> (#[trigger] sensory_neurons@[q]@).statics
                    == spec_reflex_statics(
                        reflexes@,
                        names_map_upto(snames, n_sens as nat),
                        names_map_upto(anames, n_act as nat),
                        q,
                        k as nat,
                    ),
                forall|q: int| 0 <= q < k ==> snames.contains((#[trigger] reflexes@[q]).sensor_name@)
                    && anames.contains(reflexes@[q].actuator_name@),
            decreases reflexes@.len() - k,
        {
            let rx = &reflexes[k];
            let si = match name_map_get(&sensory_interfaces, &rx.sensor_name) {
                Some(si) => si,
                None => {
                    proof {
                        lemma_names_map_lookup(snames, n_sens as nat);
                    }
                    return Err(ConfigError::UnknownReflexName);
                }
            };
            let ai = match name_map_get(&actuator_interfaces, &rx.actuator_name) {
                Some(ai) => ai,
                None => {
                    proof {
                        lemma_names_map_lookup(anames, n_act as nat);
                    }
                    return Err(ConfigError::UnknownReflexName);
                }
            };
            proof {
                lemma_names_map_lookup(snames, n_sens as nat);
                lemma_names_map_lookup(anames, n_act as nat);
                assert(si < n_sens);
                assert(ai < n_act);
            }
            let ghost sv_in = sensory_neurons@.map_values(|nn: SensoryNeuron| nn@);
            let n = &mut sensory_neurons[si];
            n.add_static_synapse(rx.weight, rx.synapse_type, SynapseTarget::Actuator(ai));
            proof {
                let sbind = names_map_upto(snames, n_sens as nat);
                let abind = names_map_upto(anames, n_act as nat);
                assert(si == sbind[reflexes@[k as int].sensor_name@]);
                assert(ai == abind[reflexes@[k as int].actuator_name@]);
                assert forall|q: int| 0 <= q < n_sens
                    implies (#[trigger] sensory_neurons@[q]@).statics == spec_reflex_statics(
                        reflexes@,
                        sbind,
                        abind,
                        q,
                        (k + 1) as nat,
                    ) by {
                    assert(sensory_neurons@[q]@ == if q == si { SensoryView {
                        statics: sv_in[q].statics.push(Synapse {
                            synapse_type: reflexes@[k as int].synapse_type,
                            weight: reflexes@[k as int].weight,
                            target: SynapseTarget::Actuator(ai),
                        }),
                        ..sv_in[q]
                    } } else { sv_in[q] });
                }
            }
            k = k + 1;
        }
        // The sensor input ordering starts as the population order.
        let mut sensor_order: Vec<usize> = Vec::new();
        let mut i: usize = 0;
        while i < n_sens
            invariant
                i <= n_sens,
                sensor_order@.len() == i,
                forall|q: int| 0 <= q < i ==> #[trigger] sensor_order@[q] == q,
            decreases n_sens - i,
        {
            sensor_order.push(i);
            i = i + 1;
        }
        let e = Encephalon {
            ecp_geometry: g,
            plastic_coords,
            actuator_coords,
            plastic_neurons,
            actuator_neurons,
            sensory_neurons,
            sensory_interfaces,
            actuator_interfaces,
            sensor_order,
            reflexes,
            cycle: ChargeCycle::Odd,
            modifier,
        };
        proof {
            assert(e.order() =~= Seq::new(e.sensory().len(), |i: int| i as usize));
            assert(e.wf());
        }
        Ok(e)
    }

    /// One cycle: advance the parity, pull the supplied sensor values into
    /// the sensory neurons (paired positionally with the input ordering),
    /// run every sensory neuron, then every plastic neuron, then every
    /// actuator neuron, and return every actuator's exposed measure, in
    /// population order.
    pub fn run_cycle(&mut self, sensor_values: &Vec<u64>) -> (outputs: Vec<u64>)
        requires
            old(self).wf(),
            sensor_values@.len() == old(self).order().len(),
            forall|i: int| 0 <= i < sensor_values@.len() ==> #[trigger] sensor_values@[i] <= MEASURE_SCALE,
        ensures
            final(self).wf(),
            ({
                let r = spec_run_cycle(
                    old(self).spec_modifier(),
                    old(self).sensory(),
                    old(self).plastic(),
                    old(self).actuators(),
                    old(self).order(),
                    sensor_values@,
                    old(self).spec_cycle(),
                    false,
                );
                &&& final(self).sensory() == r.0
                &&& final(self).plastic() == r.1
                &&& final(self).actuators() == r.2
                &&& final(self).spec_cycle() == r.3
                &&& outputs@ == r.4
            }),
            final(self).order() == old(self).order(),
            final(self).spec_modifier() == old(self).spec_modifier(),
            outputs@.len() == old(self).actuators().len(),
            forall|i: int| 0 <= i < outputs@.len() ==> #[trigger] outputs@[i] <= MEASURE_SCALE,
    {
        self.cycle_impl(sensor_values, false)
    }

    /// Identical staging to `run_cycle`, but every neuron takes the
    /// non-plastic path: the two-cycles-ago receipt is treated as empty, so
    /// no synapse weight can move — the wiring and every weight come out
    /// exactly as they went in.
    pub fn run_static_cycle(&mut self, sensor_values: &Vec<u64>) -> (outputs: Vec<u64>)
        requires
            old(self).wf(),
            sensor_values@.len() == old(self).order().len(),
            forall|i: int| 0 <= i < sensor_values@.len() ==> #[trigger] sensor_values@[i] <= MEASURE_SCALE,
        ensures
            final(self).wf(),
            ({
                let r = spec_run_cycle(
                    old(self).spec_modifier(),
                    old(self).sensory(),
                    old(self).plastic(),
                    old(self).actuators(),
                    old(self).order(),
                    sensor_values@,
                    old(self).spec_cycle(),
                    true,
                );
                &&& final(self).sensory() == r.0
                &&& final(self).plastic() == r.1
                &&& final(self).actuators() == r.2
                &&& final(self).spec_cycle() == r.3
                &&& outputs@ == r.4
            }),
            final(self).order() == old(self).order(),
            final(self).spec_modifier() == old(self).spec_modifier(),
            outputs@.len() == old(self).actuators().len(),
            forall|i: int| 0 <= i < outputs@.len() ==> #[trigger] outputs@[i] <= MEASURE_SCALE,
            final(self).sensory().len() == old(self).sensory().len(),
            final(self).plastic().len() == old(self).plastic().len(),
            forall|i: int| 0 <= i < old(self).sensory().len()
                ==> (#[trigger] final(self).sensory()[i]).plastic == old(self).sensory()[i].plastic
                    && final(self).sensory()[i].statics == old(self).sensory()[i].statics,
            forall|i: int| 0 <= i < old(self).plastic().len()
                ==> (#[trigger] final(self).plastic()[i]).plastic == old(self).plastic()[i].plastic
                    && final(self).plastic()[i].statics == old(self).plastic()[i].statics,
    {
        let ghost m = self.spec_modifier();
        let ghost sv0 = self.sensory();
        let ghost pa0 = self.plastic();
        let ghost aa0 = self.actuators();
        let ghost order0 = self.order();
        let ghost c0 = self.spec_cycle();
        let r = self.cycle_impl(sensor_values, true);
        proof {
            let c2 = c0.spec_next_cycle();
            let sv1 = spec_load_measures(sv0, order0, sensor_values@, 0);
            lemma_load_keeps_lists(sv0, order0, sensor_values@, 0);
            lemma_sensory_phase_static(m, sv1, pa0, aa0, c2, 0);
            let (sv2, pa1, aa1) = spec_sensory_phase(m, sv1, pa0, aa0, c2, true, 0);
            lemma_sensory_phase_arenas(m, sv1, pa0, aa0, c2, true, 0);
            lemma_plastic_phase_static(m, pa1, aa1, c2, 0, pa1.len());
        }
        r
    }

    /// The shared staging of `run_cycle` and `run_static_cycle`.
    #[verifier::rlimit(100)]
    fn cycle_impl(&mut self, sensor_values: &Vec<u64>, static_pass: bool) -> (outputs: Vec<u64>)
        requires
            old(self).wf(),
            sensor_values@.len() == old(self).order().len(),
            forall|i: int| 0 <= i < sensor_values@.len() ==> #[trigger] sensor_values@[i] <= MEASURE_SCALE,
        ensures
            final(self).wf(),
            ({
                let r = spec_run_cycle(
                    old(self).spec_modifier(),
                    old(self).sensory(),
                    old(self).plastic(),
                    old(self).actuators(),
                    old(self).order(),
                    sensor_values@,
                    old(self).spec_cycle(),
                    static_pass,
                );
                &&& final(self).sensory() == r.0
                &&& final(self).plastic() == r.1
                &&& final(self).actuators() == r.2
                &&& final(self).spec_cycle() == r.3
                &&& outputs@ == r.4
            }),
            final(self).order() == old(self).order(),
            final(self).spec_modifier() == old(self).spec_modifier(),
            outputs@.len() == old(self).actuators().len(),
            forall|i: int| 0 <= i < outputs@.len() ==> #[trigger] outputs@[i] <= MEASURE_SCALE,
            final(self).sensory().len() == old(self).sensory().len(),
            final(self).plastic().len() == old(self).plastic().len(),
    {
        let ghost m = self.spec_modifier();
        let ghost sv0 = self.sensory();
        let ghost pa0 = self.plastic();
        let ghost aa0 = self.actuators();
        let ghost order0 = self.order();
        self.cycle = self.cycle.next_cycle();
        let cycle = self.cycle;
        // Pull the fresh sensor values in.
        let mut pos: usize = 0;
        while pos < self.sensor_order.len()
            invariant
                m == self.spec_modifier(),
                self.wf(),
                pos <= self.order().len(),
                self.order() == order0,
                sensor_values@.len() == order0.len(),
                forall|i: int| 0 <= i < sensor_values@.len() ==> #[trigger] sensor_values@[i] <= MEASURE_SCALE,
                self.plastic() == pa0,
                self.actuators() == aa0,
                self.cycle == cycle,
                self.sensory().len() == sv0.len(),
                forall|q: int| 0 <= q < sv0.len() ==> #[trigger] self.sensory()[q]
                    == (SensoryView { measure: self.sensory()[q].measure, ..sv0[q] }),
                spec_load_measures(self.sensory(), order0, sensor_values@, pos as nat)
                    == spec_load_measures(sv0, order0, sensor_values@, 0),
                self.sensory_interfaces == old(self).sensory_interfaces,
                self.actuator_interfaces == old(self).actuator_interfaces,
            decreases self.sensor_order@.len() - pos,
        {
            let ghost sv_in = self.sensory();
            let idx = self.sensor_order[pos];
            let value = sensor_values[pos];
            let n = &mut self.sensory_neurons[idx];
            n.set_measure(value);
            proof {
                assert(self.sensory() =~= sv_in.update(idx as int, SensoryView {
                    measure: value,
                    ..sv_in[idx as int]
                }));
            }
            pos = pos + 1;
        }
        proof {
            assert(spec_load_measures(self.sensory(), order0, sensor_values@, order0.len())
                == self.sensory());
        }
        let ghost sv1 = self.sensory();
        // Sensory stage.
        let mut i: usize = 0;
        while i < self.sensory_neurons.len()
            invariant
                m == self.spec_modifier(),
                self.wf(),
                i <= self.sensory().len(),
                self.sensory().len() == sv1.len(),
                self.order() == order0,
                self.cycle == cycle,
                spec_sensory_phase(m, self.sensory(), self.plastic(), self.actuators(), cycle, static_pass, i as nat)
                    == spec_sensory_phase(m, sv1, pa0, aa0, cycle, static_pass, 0),
                self.plastic().len() == pa0.len(),
                self.actuators().len() == aa0.len(),
                self.sensory_interfaces == old(self).sensory_interfaces,
                self.actuator_interfaces == old(self).actuator_interfaces,
            decreases self.sensory_neurons@.len() - i,
        {
            let ghost sv_in = self.sensory();
            let ghost pa_in = self.plastic();
            let ghost aa_in = self.actuators();
            let n = &mut self.sensory_neurons[i];
            let (measure, prev) = n.begin_cycle(cycle);
            let (mut pl, mut st) = n.take_synapses();
            let ghost nv = spec_sensory_begin(sv_in[i as int], cycle).0;
            let prev_used = if static_pass {
                FireReceipt::new_empty()
            } else {
                prev
            };
            transmit_synapses(
                &self.modifier,
                &mut pl,
                true,
                cycle,
                true,
                measure,
                prev_used,
                &mut self.plastic_neurons,
                &mut self.actuator_neurons,
            );
            transmit_synapses(
                &self.modifier,
                &mut st,
                false,
                cycle,
                true,
                measure,
                prev_used,
                &mut self.plastic_neurons,
                &mut self.actuator_neurons,
            );
            let n2 = &mut self.sensory_neurons[i];
            n2.put_synapses(pl, st);
            proof {
                let (nv2, measure_s, prev_s) = spec_sensory_begin(sv_in[i as int], cycle);
                let prev_used_s = if static_pass { spec_empty_receipt() } else { prev_s };
                let (pl2, pa1, aa1) = spec_transmit(m, nv2.plastic, 0, cycle, true, measure_s, prev_used_s, true, pa_in, aa_in);
                let (st2, pa2, aa2) = spec_transmit(m, nv2.statics, 0, cycle, true, measure_s, prev_used_s, false, pa1, aa1);
                assert(self.plastic() == pa2 && self.actuators() == aa2);
                assert(self.sensory() =~= sv_in.update(i as int, SensoryView { plastic: pl2, statics: st2, ..nv2 }));
                crate::neuron::lemma_transmit_keeps_lists(m, nv2.plastic, 0, cycle, true, measure_s, prev_used_s, true, pa_in, aa_in);
                crate::neuron::lemma_transmit_keeps_lists(m, nv2.statics, 0, cycle, true, measure_s, prev_used_s, false, pa1, aa1);
                assert(self.wf());
            }
            i = i + 1;
        }
        let ghost sv2 = self.sensory();
        let ghost pa1g = self.plastic();
        let ghost aa1g = self.actuators();
        // Plastic stage.
        let ghost n_pl = pa0.len();
        let mut i: usize = 0;
        while i < self.plastic_neurons.len()
            invariant
                m == self.spec_modifier(),
                self.wf(),
                i <= self.plastic().len(),
                self.plastic().len() == n_pl,
                self.order() == order0,
                self.cycle == cycle,
                self.sensory() == sv2,
                spec_plastic_phase(m, self.plastic(), self.actuators(), cycle, static_pass, i as nat, n_pl)
                    == spec_plastic_phase(m, pa1g, aa1g, cycle, static_pass, 0, n_pl),
                self.actuators().len() == aa0.len(),
                self.sensory_interfaces == old(self).sensory_interfaces,
                self.actuator_interfaces == old(self).actuator_interfaces,
            decreases self.plastic_neurons@.len() - i,
        {
            let ghost pa_in = self.plastic();
            let ghost aa_in = self.actuators();
            let n = &mut self.plastic_neurons[i];
            let (fired, measure, prev) = n.begin_cycle(cycle);
            let (mut pl, mut st) = n.take_synapses();
            let prev_used = if static_pass {
                FireReceipt::new_empty()
            } else {
                prev
            };
            proof {
                let (pv, fired_s, measure_s, prev_s) = spec_plastic_begin(pa_in[i as int], cycle);
                assert(self.plastic() =~= pa_in.update(i as int, PlasticView {
                    plastic: Seq::empty(),
                    statics: Seq::empty(),
                    ..pv
                }));
            }
            transmit_synapses(
                &self.modifier,
                &mut pl,
                true,
                cycle,
                fired,
                measure,
                prev_used,
                &mut self.plastic_neurons,
                &mut self.actuator_neurons,
            );
            transmit_synapses(
                &self.modifier,
                &mut st,
                false,
                cycle,
                fired,
                measure,
                prev_used,
                &mut self.plastic_neurons,
                &mut self.actuator_neurons,
            );
            let n2 = &mut self.plastic_neurons[i];
            n2.put_synapses(pl, st);
            proof {
                let (pv, fired_s, measure_s, prev_s) = spec_plastic_begin(pa_in[i as int], cycle);
                let prev_used_s = if static_pass { spec_empty_receipt() } else { prev_s };
                let pa_t = pa_in.update(i as int, PlasticView { plastic: Seq::empty(), statics: Seq::empty(), ..pv });
                let (pl2, pa1, aa1) = spec_transmit(m, pv.plastic, 0, cycle, fired_s, measure_s, prev_used_s, true, pa_t, aa_in);
                let (st2, pa2, aa2) = spec_transmit(m, pv.statics, 0, cycle, fired_s, measure_s, prev_used_s, false, pa1, aa1);
                assert(self.actuators() == aa2);
                assert(self.plastic() =~= pa2.update(i as int, PlasticView { plastic: pl2, statics: st2, ..pa2[i as int] }));
                crate::neuron::lemma_transmit_keeps_lists(m, pv.plastic, 0, cycle, fired_s, measure_s, prev_used_s, true, pa_t, aa_in);
                crate::neuron::lemma_transmit_keeps_lists(m, pv.statics, 0, cycle, fired_s, measure_s, prev_used_s, false, pa1, aa1);
                assert(self.wf());
            }
            i = i + 1;
        }
        let ghost pa2g = self.plastic();
        let ghost aa2g = self.actuators();
        // Actuator stage.
        let mut i: usize = 0;
        while i < self.actuator_neurons.len()
            invariant
                m == self.spec_modifier(),
                self.wf(),
                i <= self.actuators().len(),
                self.actuators().len() == aa2g.len(),
                self.order() == order0,
                self.cycle == cycle,
                self.sensory() == sv2,
                self.plastic() == pa2g,
                spec_actuator_phase(self.actuators(), cycle, i as nat)
                    == spec_actuator_phase(aa2g, cycle, 0),
                self.sensory_interfaces == old(self).sensory_interfaces,
                self.actuator_interfaces == old(self).actuator_interfaces,
            decreases self.actuator_neurons@.len() - i,
        {
            let ghost aa_in = self.actuators();
            let n = &mut self.actuator_neurons[i];
            n.run_cycle(cycle);
            proof {
                assert(self.actuators() =~= aa_in.update(i as int, spec_actuator_cycle(aa_in[i as int], cycle)));
            }
            i = i + 1;
        }
        // Push the actuator measures out.
        let mut outputs: Vec<u64> = Vec::new();
        let mut i: usize = 0;
        while i < self.actuator_neurons.len()
            invariant
                self.wf(),
                i <= self.actuators().len(),
                outputs@.len() == i,
                forall|q: int| 0 <= q < i ==> #[trigger] outputs@[q] == self.actuators()[q].measure,
                forall|q: int| 0 <= q < i ==> #[trigger] outputs@[q] <= MEASURE_SCALE,
            decreases self.actuator_neurons@.len() - i,
        {
            let v = self.actuator_neurons[i].read_measure();
            proof {
                assert(self.actuators()[i as int].wf());
            }
            outputs.push(v);
            i = i + 1;
        }
        proof {
            assert(outputs@ =~= spec_outputs(self.actuators()));
        }
        outputs
    }

    /// How many plasticity-eligible synapses one plastic neuron owns.
    pub fn plastic_synapse_count(&self, i: usize) -> (r: usize)
        requires
            i < self.plastic().len(),
        ensures
            r == self.plastic()[i as int].plastic.len(),
    {
        self.plastic_neurons[i].get_plastic_synapses().len()
    }

    /// One plastic neuron's plasticity-eligible synapse.
    pub fn plastic_synapse(&self, i: usize, j: usize) -> (r: Synapse)
        requires
            i < self.plastic().len(),
            j < self.plastic()[i as int].plastic.len(),
        ensures
            r == self.plastic()[i as int].plastic[j as int],
    {
        self.plastic_neurons[i].get_plastic_synapses()[j]
    }

    /// How many plasticity-eligible synapses one sensory neuron owns.
    pub fn sensory_synapse_count(&self, i: usize) -> (r: usize)
        requires
            i < self.sensory().len(),
        ensures
            r == self.sensory()[i as int].plastic.len(),
    {
        self.sensory_neurons[i].get_plastic_synapses().len()
    }

    /// One sensory neuron's plasticity-eligible synapse.
    pub fn sensory_synapse(&self, i: usize, j: usize) -> (r: Synapse)
        requires
            i < self.sensory().len(),
            j < self.sensory()[i as int].plastic.len(),
        ensures
            r == self.sensory()[i as int].plastic[j as int],
    {
        self.sensory_neurons[i].get_plastic_synapses()[j]
    }

    /// How many static (reflex) synapses one sensory neuron owns.
    pub fn sensory_static_count(&self, i: usize) -> (r: usize)
        requires
            i < self.sensory().len(),
        ensures
            r == self.sensory()[i as int].statics.len(),
    {
        self.sensory_neurons[i].get_static_synapses().len()
    }

    /// One sensory neuron's static (reflex) synapse.
    pub fn sensory_static_synapse(&self, i: usize, j: usize) -> (r: Synapse)
        requires
            i < self.sensory().len(),
            j < self.sensory()[i as int].statics.len(),
        ensures
            r == self.sensory()[i as int].statics[j as int],
    {
        self.sensory_neurons[i].get_static_synapses()[j]
    }

    /// The names bound to sensory neurons.
    pub closed spec fn sensor_binding(&self) -> Map<Seq<char>, usize> {
        name_map_contents(self.sensory_interfaces)
    }

    /// The names bound to actuator neurons.
    pub closed spec fn actuator_binding(&self) -> Map<Seq<char>, usize> {
        name_map_contents(self.actuator_interfaces)
    }

    /// Late-bind one additional sensory input after initial construction,
    /// with its own set of static synapses — used to inject labelled or
    /// teaching signals.  The new neuron joins the sensor input ordering at
    /// `insertion_index` (clamped to the end).  Fails with a configuration
    /// error if a reflex names a sensor or actuator that is not bound; the
    /// partially added neuron then stays, with the synapses resolved so
    /// far, and the network remains well formed.
    pub fn add_reflex_sensor(&mut self, sensor_name: String, insertion_index: usize, reflex_list: Vec<Reflex>) -> (r: Result<(), ConfigError>)
        requires
            old(self).wf(),
        ensures
            final(self).wf(),
            final(self).sensory().len() == old(self).sensory().len() + 1,
            final(self).plastic() == old(self).plastic(),
            final(self).actuators() == old(self).actuators(),
            final(self).spec_cycle() == old(self).spec_cycle(),
            final(self).spec_modifier() == old(self).spec_modifier(),
            final(self).sensor_binding() == old(self).sensor_binding().insert(
                sensor_name@,
                old(self).sensory().len() as usize,
            ),
            final(self).actuator_binding() == old(self).actuator_binding(),
            final(self).order() == old(self).order().insert(
                if insertion_index <= old(self).order().len() {
                    insertion_index as int
                } else {
                    old(self).order().len() as int
                },
                old(self).sensory().len() as usize,
            ),
            forall|q: int| 0 <= q < final(self).sensory().len() ==> #[trigger] final(self).sensory()[q]
                == (SensoryView {
                    statics: final(self).sensory()[q].statics,
                    ..(if q < old(self).sensory().len() {
                        old(self).sensory()[q]
                    } else {
                        fresh_sensory_view()
                    })
                }),
            r is Ok ==> forall|q: int| 0 <= q < final(self).sensory().len()
                ==> (#[trigger] final(self).sensory()[q]).statics == (if q < old(self).sensory().len() {
                    old(self).sensory()[q].statics
                } else {
                    Seq::<Synapse>::empty()
                }) + spec_reflex_statics(
                    reflex_list@,
                    old(self).sensor_binding().insert(sensor_name@, old(self).sensory().len() as usize),
                    old(self).actuator_binding(),
                    q,
                    reflex_list@.len(),
                ),
            r is Err ==> r == Err::<(), ConfigError>(ConfigError::UnknownReflexName),
            (r is Ok) <==> forall|k: int| 0 <= k < reflex_list@.len() ==> {
                &&& (old(self).sensor_binding().dom().contains(
                    (#[trigger] reflex_list@[k]).sensor_name@,
                ) || reflex_list@[k].sensor_name@ == sensor_name@)
                &&& old(self).actuator_binding().dom().contains(reflex_list@[k].actuator_name@)
            },
    {
        let ghost nm = sensor_name@;
        let ghost sbind0 = self.sensor_binding();
        let ghost abind0 = self.actuator_binding();
        let ghost pa0 = self.plastic();
        let ghost aa0 = self.actuators();
        let ns = self.sensory_neurons.len();
        self.sensory_neurons.push(SensoryNeuron::new());
        name_map_insert(&mut self.sensory_interfaces, sensor_name, ns);
        let at = if insertion_index > self.sensor_order.len() {
            self.sensor_order.len()
        } else {
            insertion_index
        };
        self.sensor_order.insert(at, ns);
        proof {
            assert(self.sensory() =~= old(self).sensory().push(fresh_sensory_view()));
            assert(self.plastic() == pa0 && self.actuators() == aa0);
            assert(sensory_arena_wf(self.sensory())) by {
                assert forall|q: int| 0 <= q < self.sensory().len()
                    implies (#[trigger] self.sensory()[q]).wf() by {
                    if q < ns {
                        assert(self.sensory()[q] == old(self).sensory()[q]);
                    }
                }
            }
            assert(population_synapses_wf(self.sensory(), self.plastic(), self.actuators())) by {
                assert forall|q: int| 0 <= q < self.sensory().len()
                    implies synapses_wf((#[trigger] self.sensory()[q]).plastic, pa0.len(), aa0.len())
                        && synapses_wf(self.sensory()[q].statics, pa0.len(), aa0.len()) by {
                    if q < ns {
                        assert(self.sensory()[q] == old(self).sensory()[q]);
                    }
                }
            }
            assert(self.wf());
        }
        let ghost sv_base = self.sensory();
        let ghost order_after = self.order();
        proof {
            assert(old(self).sensory().len() == ns as nat);
            assert(sv_base == old(self).sensory().push(fresh_sensory_view()));
            assert(order_after == old(self).order().insert(
                if insertion_index <= old(self).order().len() {
                    insertion_index as int
                } else {
                    old(self).order().len() as int
                },
                ns as usize,
            ));
        }
        let mut k: usize = 0;
        while k < reflex_list.len()
            invariant
                k <= reflex_list@.len(),
                self.wf(),
                ns == old(self).sensory().len(),
                self.sensory().len() == ns + 1,
                sv_base == old(self).sensory().push(fresh_sensory_view()),
                self.plastic() == pa0,
                pa0 == old(self).plastic(),
                self.actuators() == aa0,
                aa0 == old(self).actuators(),
                self.cycle == old(self).cycle,
                self.modifier == old(self).modifier,
                self.order() == order_after,
                order_after == old(self).order().insert(
                    if insertion_index <= old(self).order().len() {
                        insertion_index as int
                    } else {
                        old(self).order().len() as int
                    },
                    old(self).sensory().len() as usize,
                ),
                name_map_contents(self.sensory_interfaces) == sbind0.insert(nm, ns),
                name_map_contents(self.actuator_interfaces) == abind0,
                sbind0 == old(self).sensor_binding(),
                abind0 == old(self).actuator_binding(),
                nm == sensor_name@,
                forall|c: Seq<char>| #[trigger] abind0.dom().contains(c)
                    ==> abind0[c] < self.actuators().len(),
                forall|q: int| 0 <= q < self.sensory().len() ==> #[trigger] self.sensory()[q]
                    == (SensoryView { statics: self.sensory()[q].statics, ..sv_base[q] }),
                forall|q: int| 0 <= q < self.sensory().len()
                    ==> (#[trigger] self.sensory()[q]).statics == sv_base[q].statics
                        + spec_reflex_statics(reflex_list@, sbind0.insert(nm, ns), abind0, q, k as nat),
                forall|q: int| 0 <= q < k ==> {
                    &&& (sbind0.dom().contains((#[trigger] reflex_list@[q]).sensor_name@)
                        || reflex_list@[q].sensor_name@ == nm)
                    &&& abind0.dom().contains(reflex_list@[q].actuator_name@)
                },
            decreases reflex_list@.len() - k,
        {
            let rx = &reflex_list[k];
            let si = match name_map_get(&self.sensory_interfaces, &rx.sensor_name) {
                Some(si) => si,
                None => {
                    proof {
                        assert(!(sbind0.dom().contains(reflex_list@[k as int].sensor_name@)
                            || reflex_list@[k as int].sensor_name@ == nm));
                    }
                    return Err(ConfigError::UnknownReflexName);
                }
            };
            let ai = match name_map_get(&self.actuator_interfaces, &rx.actuator_name) {
                Some(ai) => ai,
                None => {
                    proof {
                        assert(!abind0.dom().contains(reflex_list@[k as int].actuator_name@));
                    }
                    return Err(ConfigError::UnknownReflexName);
                }
            };
            let ghost sv_in = self.sensory();
            let n = &mut self.sensory_neurons[si];
            n.add_static_synapse(rx.weight, rx.synapse_type, SynapseTarget::Actuator(ai));
            proof {
                let sbind = sbind0.insert(nm, ns);
                let syn = Synapse {
                    synapse_type: rx.synapse_type,
                    weight: rx.weight,
                    target: SynapseTarget::Actuator(ai),
                };
                assert(self.sensory() =~= sv_in.update(si as int, SensoryView {
                    statics: sv_in[si as int].statics.push(syn),
                    ..sv_in[si as int]
                }));
                assert(si == sbind[reflex_list@[k as int].sensor_name@]);
                assert(ai == abind0[reflex_list@[k as int].actuator_name@]);
                assert forall|q: int| 0 <= q < self.sensory().len()
                    implies (#[trigger] self.sensory()[q]).statics == sv_base[q].statics
                        + spec_reflex_statics(reflex_list@, sbind, abind0, q, (k + 1) as nat) by {
                    if q == si {
                        assert(spec_reflex_statics(reflex_list@, sbind, abind0, q, (k + 1) as nat)
                            == spec_reflex_statics(reflex_list@, sbind, abind0, q, k as nat).push(syn));
                        assert(sv_base[q].statics + spec_reflex_statics(reflex_list@, sbind, abind0, q, k as nat).push(syn)
                            =~= (sv_base[q].statics + spec_reflex_statics(reflex_list@, sbind, abind0, q, k as nat)).push(syn));
                    } else {
                        assert(spec_reflex_statics(reflex_list@, sbind, abind0, q, (k + 1) as nat)
                            == spec_reflex_statics(reflex_list@, sbind, abind0, q, k as nat));
                        assert(self.sensory()[q] == sv_in[q]);
                    }
                }
            }
            k = k + 1;
        }
        proof {
            assert forall|q: int| 0 <= q < self.sensory().len()
                implies (#[trigger] self.sensory()[q]).statics == (if q < ns {
                    old(self).sensory()[q].statics
                } else {
                    Seq::<Synapse>::empty()
                }) + spec_reflex_statics(
                    reflex_list@,
                    sbind0.insert(nm, ns),
                    abind0,
                    q,
                    reflex_list@.len(),
                ) by {
                if q < ns {
                    assert(sv_base[q] == old(self).sensory()[q]);
                } else {
                    assert(sv_base[q] == fresh_sensory_view());
                }
            }
        }
        Ok(())
    }

    /// Clear every neuron's accumulators and receipts without touching the
    /// wiring or the learned weights.
    pub fn clear(&mut self)
        requires
            old(self).wf(),
        ensures
            final(self).wf(),
            final(self).sensory() =~= old(self).sensory().map_values(|v: SensoryView| SensoryView {
                receipts: (spec_empty_receipt(), spec_empty_receipt()),
                ..v
            }),
            final(self).plastic() =~= old(self).plastic().map_values(|v: PlasticView| PlasticView {
                charge: crate::neuron::spec_reset(crate::neuron::spec_reset(v.charge, ChargeCycle::Even), ChargeCycle::Odd),
                receipts: (spec_empty_receipt(), spec_empty_receipt()),
                ..v
            }),
            final(self).actuators() =~= old(self).actuators().map_values(|v: ActuatorView| ActuatorView {
                charge: crate::neuron::spec_reset(crate::neuron::spec_reset(v.charge, ChargeCycle::Even), ChargeCycle::Odd),
                receipts: (spec_empty_receipt(), spec_empty_receipt()),
                ..v
            }),
            final(self).order() == old(self).order(),
            final(self).spec_cycle() == old(self).spec_cycle(),
            final(self).spec_modifier() == old(self).spec_modifier(),
    {
        let ghost sv0 = self.sensory();
        let ghost pa0 = self.plastic();
        let ghost aa0 = self.actuators();
        let mut i: usize = 0;
        while i < self.sensory_neurons.len()
            invariant
                i <= self.sensory_neurons@.len(),
                self.sensory_neurons@.len() == sv0.len(),
                forall|k: int| 0 <= k < i ==> #[trigger] self.sensory()[k] == (SensoryView {
                    receipts: (spec_empty_receipt(), spec_empty_receipt()),
                    ..sv0[k]
                }),
                forall|k: int| i <= k < sv0.len() ==> #[trigger] self.sensory()[k] == sv0[k],
                self.plastic() == pa0,
                self.actuators() == aa0,
                self.sensor_order@ == old(self).sensor_order@,
                self.cycle == old(self).cycle,
                self.modifier == old(self).modifier,
                self.sensory_interfaces == old(self).sensory_interfaces,
                self.actuator_interfaces == old(self).actuator_interfaces,
            decreases self.sensory_neurons@.len() - i,
        {
            let ghost before = self.sensory();
            let n = &mut self.sensory_neurons[i];
            n.clear();
            proof {
                assert forall|k: int| 0 <= k < sv0.len() implies #[trigger] self.sensory()[k]
                    == (if k == i { SensoryView {
                        receipts: (spec_empty_receipt(), spec_empty_receipt()),
                        ..before[k]
                    } } else { before[k] }) by {
                    assert(self.sensory()[k] == self.sensory_neurons@[k]@);
                }
            }
            i = i + 1;
        }
        let mut i: usize = 0;
        while i < self.plastic_neurons.len()
            invariant
                i <= self.plastic_neurons@.len(),
                self.plastic_neurons@.len() == pa0.len(),
                plastic_arena_wf(pa0),
                forall|k: int| 0 <= k < i ==> #[trigger] self.plastic()[k] == (PlasticView {
                    charge: crate::neuron::spec_reset(crate::neuron::spec_reset(pa0[k].charge, ChargeCycle::Even), ChargeCycle::Odd),
                    receipts: (spec_empty_receipt(), spec_empty_receipt()),
                    ..pa0[k]
                }),
                forall|k: int| i <= k < pa0.len() ==> #[trigger] self.plastic()[k] == pa0[k],
                self.sensory() == after_sensory_clear(sv0),
                self.actuators() == aa0,
                self.sensor_order@ == old(self).sensor_order@,
                self.cycle == old(self).cycle,
                self.modifier == old(self).modifier,
                self.sensory_interfaces == old(self).sensory_interfaces,
                self.actuator_interfaces == old(self).actuator_interfaces,
            decreases self.plastic_neurons@.len() - i,
        {
            let ghost before = self.plastic();
            proof {
                assert(self.plastic()[i as int] == pa0[i as int]);
                assert(pa0[i as int].wf());
                assert(self.plastic_neurons@[i as int]@ == self.plastic()[i as int]);
            }
            let n = &mut self.plastic_neurons[i];
            n.clear();
            proof {
                assert forall|k: int| 0 <= k < pa0.len() implies #[trigger] self.plastic()[k]
                    == (if k == i { PlasticView {
                        charge: crate::neuron::spec_reset(crate::neuron::spec_reset(before[k].charge, ChargeCycle::Even), ChargeCycle::Odd),
                        receipts: (spec_empty_receipt(), spec_empty_receipt()),
                        ..before[k]
                    } } else { before[k] }) by {
                    assert(self.plastic()[k] == self.plastic_neurons@[k]@);
                }
            }
            i = i + 1;
        }
        let mut i: usize = 0;
        while i < self.actuator_neurons.len()
            invariant
                i <= self.actuator_neurons@.len(),
                self.actuator_neurons@.len() == aa0.len(),
                actuator_arena_wf(aa0),
                forall|k: int| 0 <= k < i ==> #[trigger] self.actuators()[k] == (ActuatorView {
                    charge: crate::neuron::spec_reset(crate::neuron::spec_reset(aa0[k].charge, ChargeCycle::Even), ChargeCycle::Odd),
                    receipts: (spec_empty_receipt(), spec_empty_receipt()),
                    ..aa0[k]
                }),
                forall|k: int| i <= k < aa0.len() ==> #[trigger] self.actuators()[k] == aa0[k],
                self.sensory() == after_sensory_clear(sv0),
                self.plastic() == after_plastic_clear(pa0),
                self.sensor_order@ == old(self).sensor_order@,
                self.cycle == old(self).cycle,
                self.modifier == old(self).modifier,
                self.sensory_interfaces == old(self).sensory_interfaces,
                self.actuator_interfaces == old(self).actuator_interfaces,
            decreases self.actuator_neurons@.len() - i,
        {
            let ghost before = self.actuators();
            proof {
                assert(self.actuators()[i as int] == aa0[i as int]);
                assert(aa0[i as int].wf());
                assert(self.actuator_neurons@[i as int]@ == self.actuators()[i as int]);
            }
            let n = &mut self.actuator_neurons[i];
            n.clear();
            proof {
                assert forall|k: int| 0 <= k < aa0.len() implies #[trigger] self.actuators()[k]
                    == (if k == i { ActuatorView {
                        charge: crate::neuron::spec_reset(crate::neuron::spec_reset(before[k].charge, ChargeCycle::Even), ChargeCycle::Odd),
                        receipts: (spec_empty_receipt(), spec_empty_receipt()),
                        ..before[k]
                    } } else { before[k] }) by {
                    assert(self.actuators()[k] == self.actuator_neurons@[k]@);
                }
            }
            i = i + 1;
        }
        proof {
            assert(final(self).sensory() =~= after_sensory_clear(sv0));
            assert(final(self).plastic() =~= after_plastic_clear(pa0));
            assert(final(self).actuators() =~= old(self).actuators().map_values(|v: ActuatorView| ActuatorView {
                charge: crate::neuron::spec_reset(crate::neuron::spec_reset(v.charge, ChargeCycle::Even), ChargeCycle::Odd),
                receipts: (spec_empty_receipt(), spec_empty_receipt()),
                ..v
            }));
        }
    }
}

/// Sensor values written into the sensory arena, one per input position.
pub open spec fn spec_load_measures(
    sv: Seq<SensoryView>,
    order: Seq<usize>,
    values: Seq<u64>,
    k: nat,
) -> Seq<SensoryView>
    decreases order.len() - k,
{
    if k >= order.len() || k >= values.len() {
        sv
    } else if order[k as int] < sv.len() {
        spec_load_measures(
            sv.update(order[k as int] as int, SensoryView {
                measure: values[k as int],
                ..sv[order[k as int] as int]
            }),
            order,
            values,
            k + 1,
        )
    } else {
        spec_load_measures(sv, order, values, k + 1)
    }
}

/// The sensory stage of one cycle, from neuron `k` on: each sensory neuron
/// fires with its measure, transmits down both synapse lists, and records
/// its receipt.  A static pass feeds the plasticity rule an empty
/// two-cycles-ago receipt, which disables all weight adjustment.
pub open spec fn spec_sensory_phase<M: WeightModifier>(
    m: M,
    sv: Seq<SensoryView>,
    pa: Seq<PlasticView>,
    aa: Seq<ActuatorView>,
    cycle: ChargeCycle,
    static_pass: bool,
    k: nat,
) -> (Seq<SensoryView>, Seq<PlasticView>, Seq<ActuatorView>)
    decreases sv.len() - k,
{
    if k >= sv.len() {
        (sv, pa, aa)
    } else {
        let (nv, measure, prev) = spec_sensory_begin(sv[k as int], cycle);
        let prev_used = if static_pass {
            spec_empty_receipt()
        } else {
            prev
        };
        let (pl2, pa1, aa1) = spec_transmit(m, nv.plastic, 0, cycle, true, measure, prev_used, true, pa, aa);
        let (st2, pa2, aa2) = spec_transmit(m, nv.statics, 0, cycle, true, measure, prev_used, false, pa1, aa1);
        spec_sensory_phase(
            m,
            sv.update(k as int, SensoryView { plastic: pl2, statics: st2, ..nv }),
            pa2,
            aa2,
            cycle,
            static_pass,
            k + 1,
        )
    }
}

/// The plastic stage of one cycle, from neuron `k` on: each plastic neuron
/// decides whether it fires, transmits down both synapse lists (its own
/// lists set aside while the arenas are written), records its receipt, and
/// resets this parity's histograms.
pub open spec fn spec_plastic_phase<M: WeightModifier>(
    m: M,
    pa: Seq<PlasticView>,
    aa: Seq<ActuatorView>,
    cycle: ChargeCycle,
    static_pass: bool,
    k: nat,
    n: nat,
) -> (Seq<PlasticView>, Seq<ActuatorView>)
    decreases n - k,
{
    if k >= n {
        (pa, aa)
    } else {
        let (pv, fired, measure, prev) = spec_plastic_begin(pa[k as int], cycle);
        let prev_used = if static_pass {
            spec_empty_receipt()
        } else {
            prev
        };
        let pa_t = pa.update(k as int, PlasticView { plastic: Seq::empty(), statics: Seq::empty(), ..pv });
        let (pl2, pa1, aa1) = spec_transmit(m, pv.plastic, 0, cycle, fired, measure, prev_used, true, pa_t, aa);
        let (st2, pa2, aa2) = spec_transmit(m, pv.statics, 0, cycle, fired, measure, prev_used, false, pa1, aa1);
        let pa3 = pa2.update(k as int, PlasticView { plastic: pl2, statics: st2, ..pa2[k as int] });
        spec_plastic_phase(m, pa3, aa2, cycle, static_pass, k + 1, n)
    }
}

/// The actuator stage of one cycle, from neuron `k` on.
pub open spec fn spec_actuator_phase(aa: Seq<ActuatorView>, cycle: ChargeCycle, k: nat) -> Seq<ActuatorView>
    decreases aa.len() - k,
{
    if k >= aa.len() {
        aa
    } else {
        spec_actuator_phase(aa.update(k as int, spec_actuator_cycle(aa[k as int], cycle)), cycle, k + 1)
    }
}

/// The values pushed out to the actuators after a cycle.
pub open spec fn spec_outputs(aa: Seq<ActuatorView>) -> Seq<u64> {
    aa.map_values(|v: ActuatorView| v.measure)
}

/// One whole cycle of the network, as a function of the state it touches:
/// advance the parity, pull the sensor values in, run every sensory neuron,
/// then every plastic neuron, then every actuator neuron, and read the
/// actuator measures out.
pub open spec fn spec_run_cycle<M: WeightModifier>(
    m: M,
    sv: Seq<SensoryView>,
    pa: Seq<PlasticView>,
    aa: Seq<ActuatorView>,
    order: Seq<usize>,
    values: Seq<u64>,
    cycle: ChargeCycle,
    static_pass: bool,
) -> (Seq<SensoryView>, Seq<PlasticView>, Seq<ActuatorView>, ChargeCycle, Seq<u64>) {
    let c2 = cycle.spec_next_cycle();
    let sv1 = spec_load_measures(sv, order, values, 0);
    let (sv2, pa1, aa1) = spec_sensory_phase(m, sv1, pa, aa, c2, static_pass, 0);
    let (pa2, aa2) = spec_plastic_phase(m, pa1, aa1, c2, static_pass, 0, pa1.len());
    let aa3 = spec_actuator_phase(aa2, c2, 0);
    (sv2, pa2, aa3, c2, spec_outputs(aa3))
}

/// Whatever the arenas hold, a static sensory pass returns every synapse
/// list unchanged: the weights cannot move.
pub proof fn lemma_sensory_phase_static(
    m: impl WeightModifier,
    sv: Seq<SensoryView>,
    pa: Seq<PlasticView>,
    aa: Seq<ActuatorView>,
    cycle: ChargeCycle,
    k: nat,
)
    requires
        forall|q: int| 0 <= q < sv.len() ==> synapses_wf((#[trigger] sv[q]).plastic, pa.len(), aa.len()),
        forall|q: int| 0 <= q < sv.len() ==> synapses_wf((#[trigger] sv[q]).statics, pa.len(), aa.len()),
        forall|q: int| 0 <= q < pa.len() ==> synapses_wf((#[trigger] pa[q]).plastic, pa.len(), aa.len()),
        forall|q: int| 0 <= q < pa.len() ==> synapses_wf((#[trigger] pa[q]).statics, pa.len(), aa.len()),
    ensures
        ({
            let r = spec_sensory_phase(m, sv, pa, aa, cycle, true, k);
            forall|q: int| 0 <= q < sv.len() ==> (#[trigger] r.0[q]).plastic == sv[q].plastic
                && r.0[q].statics == sv[q].statics
        }),
        spec_sensory_phase(m, sv, pa, aa, cycle, true, k).0.len() == sv.len(),
    decreases sv.len() - k,
{
    if k < sv.len() {
        let (nv, measure, prev) = spec_sensory_begin(sv[k as int], cycle);
        let (pl2, pa1, aa1) = spec_transmit(m, nv.plastic, 0, cycle, true, measure, spec_empty_receipt(), true, pa, aa);
        let (st2, pa2, aa2) = spec_transmit(m, nv.statics, 0, cycle, true, measure, spec_empty_receipt(), false, pa1, aa1);
        crate::neuron::lemma_transmit_lens(m, nv.plastic, 0, cycle, true, measure, spec_empty_receipt(), true, pa, aa);
        crate::neuron::lemma_transmit_keeps_lists(m, nv.plastic, 0, cycle, true, measure, spec_empty_receipt(), true, pa, aa);
        crate::neuron::lemma_transmit_lens(m, nv.statics, 0, cycle, true, measure, spec_empty_receipt(), false, pa1, aa1);
        crate::neuron::lemma_transmit_keeps_lists(m, nv.statics, 0, cycle, true, measure, spec_empty_receipt(), false, pa1, aa1);
        crate::neuron::lemma_static_transmission_keeps_weights(m, nv.plastic, 0, cycle, true, measure, spec_empty_receipt(), true, pa, aa);
        crate::neuron::lemma_static_transmission_keeps_weights(m, nv.statics, 0, cycle, true, measure, spec_empty_receipt(), false, pa1, aa1);
        let sv1 = sv.update(k as int, SensoryView { plastic: pl2, statics: st2, ..nv });
        lemma_sensory_phase_static(m, sv1, pa2, aa2, cycle, k + 1);
    }
}

/// Whatever the arenas hold, a static plastic pass returns every synapse
/// list unchanged.
pub proof fn lemma_plastic_phase_static(
    m: impl WeightModifier,
    pa: Seq<PlasticView>,
    aa: Seq<ActuatorView>,
    cycle: ChargeCycle,
    k: nat,
    n: nat,
)
    requires
        n == pa.len(),
        forall|q: int| 0 <= q < pa.len() ==> synapses_wf((#[trigger] pa[q]).plastic, pa.len(), aa.len()),
        forall|q: int| 0 <= q < pa.len() ==> synapses_wf((#[trigger] pa[q]).statics, pa.len(), aa.len()),
    ensures
        ({
            let r = spec_plastic_phase(m, pa, aa, cycle, true, k, n);
            forall|q: int| 0 <= q < pa.len() ==> (#[trigger] r.0[q]).plastic == pa[q].plastic
                && r.0[q].statics == pa[q].statics
        }),
        spec_plastic_phase(m, pa, aa, cycle, true, k, n).0.len() == pa.len(),
    decreases n - k,
{
    if k < n {
        let (pv, fired, measure, prev) = spec_plastic_begin(pa[k as int], cycle);
        let pa_t = pa.update(k as int, PlasticView { plastic: Seq::empty(), statics: Seq::empty(), ..pv });
        let (pl2, pa1, aa1) = spec_transmit(m, pv.plastic, 0, cycle, fired, measure, spec_empty_receipt(), true, pa_t, aa);
        let (st2, pa2, aa2) = spec_transmit(m, pv.statics, 0, cycle, fired, measure, spec_empty_receipt(), false, pa1, aa1);
        crate::neuron::lemma_transmit_lens(m, pv.plastic, 0, cycle, fired, measure, spec_empty_receipt(), true, pa_t, aa);
        crate::neuron::lemma_transmit_lens(m, pv.statics, 0, cycle, fired, measure, spec_empty_receipt(), false, pa1, aa1);
        crate::neuron::lemma_transmit_keeps_lists(m, pv.plastic, 0, cycle, fired, measure, spec_empty_receipt(), true, pa_t, aa);
        crate::neuron::lemma_transmit_keeps_lists(m, pv.statics, 0, cycle, fired, measure, spec_empty_receipt(), false, pa1, aa1);
        crate::neuron::lemma_static_transmission_keeps_weights(m, pv.plastic, 0, cycle, fired, measure, spec_empty_receipt(), true, pa_t, aa);
        crate::neuron::lemma_static_transmission_keeps_weights(m, pv.statics, 0, cycle, fired, measure, spec_empty_receipt(), false, pa1, aa1);
        let pa3 = pa2.update(k as int, PlasticView { plastic: pl2, statics: st2, ..pa2[k as int] });
        lemma_plastic_phase_static(m, pa3, aa2, cycle, k + 1, n);
        assert forall|q: int| 0 <= q < pa.len() implies (#[trigger] spec_plastic_phase(m, pa, aa, cycle, true, k, n).0[q]).plastic
            == pa[q].plastic && spec_plastic_phase(m, pa, aa, cycle, true, k, n).0[q].statics == pa[q].statics by {
            if q == k {
                assert(pa3[q].plastic == pl2 && pl2 == pv.plastic && pv.plastic == pa[q].plastic);
                assert(pa3[q].statics == st2 && st2 == pv.statics && pv.statics == pa[q].statics);
            } else {
                assert(pa3[q].plastic == pa2[q].plastic);
            }
        }
    }
}

/// Loading sensor values changes only measures: every synapse list stays.
pub proof fn lemma_load_keeps_lists(sv: Seq<SensoryView>, order: Seq<usize>, values: Seq<u64>, k: nat)
    ensures
        spec_load_measures(sv, order, values, k).len() == sv.len(),
        forall|q: int| 0 <= q < sv.len() ==> {
            &&& (#[trigger] spec_load_measures(sv, order, values, k)[q]).plastic == sv[q].plastic
            &&& spec_load_measures(sv, order, values, k)[q].statics == sv[q].statics
            &&& spec_load_measures(sv, order, values, k)[q].receipts == sv[q].receipts
        },
    decreases order.len() - k,
{
    if k < order.len() && k < values.len() && order[k as int] < sv.len() {
        let sv2 = sv.update(order[k as int] as int, SensoryView {
            measure: values[k as int],
            ..sv[order[k as int] as int]
        });
        lemma_load_keeps_lists(sv2, order, values, k + 1);
    } else if k < order.len() {
        lemma_load_keeps_lists(sv, order, values, k + 1);
    }
}

/// The sensory stage deposits into the arenas but leaves every plastic
/// neuron's own synapse lists and threshold alone, and keeps the arenas'
/// sizes.
pub proof fn lemma_sensory_phase_arenas(
    m: impl WeightModifier,
    sv: Seq<SensoryView>,
    pa: Seq<PlasticView>,
    aa: Seq<ActuatorView>,
    cycle: ChargeCycle,
    static_pass: bool,
    k: nat,
)
    requires
        forall|q: int| 0 <= q < sv.len() ==> synapses_wf((#[trigger] sv[q]).plastic, pa.len(), aa.len()),
        forall|q: int| 0 <= q < sv.len() ==> synapses_wf((#[trigger] sv[q]).statics, pa.len(), aa.len()),
    ensures
        ({
            let r = spec_sensory_phase(m, sv, pa, aa, cycle, static_pass, k);
            &&& r.1.len() == pa.len()
            &&& r.2.len() == aa.len()
            &&& forall|q: int| 0 <= q < pa.len() ==> {
                &&& (#[trigger] r.1[q]).plastic == pa[q].plastic
                &&& r.1[q].statics == pa[q].statics
                &&& r.1[q].fire_threshold == pa[q].fire_threshold
            }
        }),
    decreases sv.len() - k,
{
    if k < sv.len() {
        let (nv, measure, prev) = spec_sensory_begin(sv[k as int], cycle);
        let prev_used = if static_pass { spec_empty_receipt() } else { prev };
        let (pl2, pa1, aa1) = spec_transmit(m, nv.plastic, 0, cycle, true, measure, prev_used, true, pa, aa);
        let (st2, pa2, aa2) = spec_transmit(m, nv.statics, 0, cycle, true, measure, prev_used, false, pa1, aa1);
        crate::neuron::lemma_transmit_lens(m, nv.plastic, 0, cycle, true, measure, prev_used, true, pa, aa);
        crate::neuron::lemma_transmit_keeps_lists(m, nv.plastic, 0, cycle, true, measure, prev_used, true, pa, aa);
        crate::neuron::lemma_transmit_lens(m, nv.statics, 0, cycle, true, measure, prev_used, false, pa1, aa1);
        crate::neuron::lemma_transmit_keeps_lists(m, nv.statics, 0, cycle, true, measure, prev_used, false, pa1, aa1);
        let sv1 = sv.update(k as int, SensoryView { plastic: pl2, statics: st2, ..nv });
        assert forall|q: int| 0 <= q < sv1.len()
            implies synapses_wf((#[trigger] sv1[q]).plastic, pa2.len(), aa2.len())
                && synapses_wf(sv1[q].statics, pa2.len(), aa2.len()) by {
            if q == k {
                crate::neuron::lemma_transmit_keeps_targets(m, nv.plastic, 0, cycle, true, measure, prev_used, true, pa, aa);
                crate::neuron::lemma_transmit_keeps_targets(m, nv.statics, 0, cycle, true, measure, prev_used, false, pa1, aa1);
            } else {
                assert(sv1[q] == sv[q]);
            }
        }
        lemma_sensory_phase_arenas(m, sv1, pa2, aa2, cycle, static_pass, k + 1);
    }
}

/// A whole run: feed one sequence of sensor-value frames, one cycle each,
/// and collect every cycle's actuator outputs in order.
pub open spec fn spec_run_sequence<M: WeightModifier>(
    m: M,
    sv: Seq<SensoryView>,
    pa: Seq<PlasticView>,
    aa: Seq<ActuatorView>,
    order: Seq<usize>,
    inputs: Seq<Seq<u64>>,
    cycle: ChargeCycle,
    static_pass: bool,
) -> (Seq<SensoryView>, Seq<PlasticView>, Seq<ActuatorView>, ChargeCycle, Seq<Seq<u64>>)
    decreases inputs.len(),
{
    if inputs.len() == 0 {
        (sv, pa, aa, cycle, Seq::empty())
    } else {
        let r = spec_run_cycle(m, sv, pa, aa, order, inputs[0], cycle, static_pass);
        let rest = spec_run_sequence(m, r.0, r.1, r.2, order, inputs.drop_first(), r.3, static_pass);
        (rest.0, rest.1, rest.2, rest.3, seq![r.4] + rest.4)
    }
}

/// What `Encephalon::new` leaves behind, as a predicate over a network's
/// observable components: every neuron fresh but for the synapse lists the
/// seed and the geometry dictate, the identity input ordering, and the odd
/// starting parity.
pub open spec fn spec_built_state<G: EcpGeometry>(
    sv: Seq<SensoryView>,
    pa: Seq<PlasticView>,
    aa: Seq<ActuatorView>,
    order: Seq<usize>,
    cycle: ChargeCycle,
    g: G,
    reflexes: Seq<Reflex>,
    snames: Seq<Seq<char>>,
    anames: Seq<Seq<char>>,
    charge_bins: u8,
    fire_threshold: u64,
    wmin: u64,
    wmax: u64,
    ratio: u64,
    seed: u64,
) -> bool {
    &&& sv.len() == g.spec_sensory_coords().len()
    &&& pa.len() == g.spec_plastic_coords().len()
    &&& aa.len() == g.spec_actuator_coords().len()
    &&& order == Seq::new(sv.len(), |i: int| i as usize)
    &&& cycle == ChargeCycle::Odd
    &&& forall|i: int| 0 <= i < pa.len() ==> #[trigger] pa[i] == (PlasticView {
        plastic: spec_wired_synapses(
            g,
            g.spec_plastic_coords()[i],
            seed,
            plastic_wiring_history(g, wmin, wmax, i as nat),
            wmin,
            wmax,
            spec_type_threshold(ratio),
        ),
        ..fresh_plastic_view(charge_bins, fire_threshold)
    })
    &&& forall|i: int| 0 <= i < sv.len() ==> #[trigger] sv[i] == (SensoryView {
        plastic: spec_wired_synapses(
            g,
            g.spec_sensory_coords()[i],
            seed,
            sensory_wiring_history(g, wmin, wmax, i as nat),
            wmin,
            wmax,
            spec_type_threshold(ratio),
        ),
        statics: spec_reflex_statics(
            reflexes,
            names_map_upto(snames, sv.len()),
            names_map_upto(anames, aa.len()),
            i,
            reflexes.len(),
        ),
        ..fresh_sensory_view()
    })
    &&& forall|i: int| 0 <= i < aa.len() ==> #[trigger] aa[i] == fresh_actuator_view(
        charge_bins,
        fire_threshold,
    )
}

/// Two geometries that agree on their coordinate enumerations and their
/// destination rule resolve every source's arena targets alike.
pub proof fn lemma_wired_targets_agree<G: EcpGeometry>(g1: G, g2: G, loc: Seq<i32>)
    requires
        g1.spec_plastic_coords() == g2.spec_plastic_coords(),
        g1.spec_actuator_coords() == g2.spec_actuator_coords(),
        g1.spec_nearby(loc) == g2.spec_nearby(loc),
    ensures
        spec_wired_targets(g1, loc) == spec_wired_targets(g2, loc),
{
    assert(spec_wired_targets(g1, loc) =~= spec_wired_targets(g2, loc));
}

/// Agreeing geometries consume the random stream in lockstep: the wiring
/// histories coincide at every source.
pub proof fn lemma_wiring_histories_agree<G: EcpGeometry>(g1: G, g2: G, wmin: u64, wmax: u64, i: nat)
    requires
        g1.spec_plastic_coords() == g2.spec_plastic_coords(),
        g1.spec_actuator_coords() == g2.spec_actuator_coords(),
        g1.spec_sensory_coords() == g2.spec_sensory_coords(),
        forall|loc: Seq<i32>| #[trigger] g1.spec_nearby(loc) == g2.spec_nearby(loc),
    ensures
        plastic_wiring_history(g1, wmin, wmax, i) == plastic_wiring_history(g2, wmin, wmax, i),
        sensory_wiring_history(g1, wmin, wmax, i) == sensory_wiring_history(g2, wmin, wmax, i),
    decreases i,
{
    if i == 0 {
        lemma_plastic_histories_agree(g1, g2, wmin, wmax, g1.spec_plastic_coords().len());
    } else {
        lemma_wiring_histories_agree(g1, g2, wmin, wmax, (i - 1) as nat);
        lemma_plastic_histories_agree(g1, g2, wmin, wmax, i);
        lemma_wired_targets_agree(g1, g2, g1.spec_plastic_coords()[i - 1]);
        lemma_wired_targets_agree(g1, g2, g1.spec_sensory_coords()[i - 1]);
    }
}

/// The plastic half of `lemma_wiring_histories_agree`.
pub proof fn lemma_plastic_histories_agree<G: EcpGeometry>(g1: G, g2: G, wmin: u64, wmax: u64, i: nat)
    requires
        g1.spec_plastic_coords() == g2.spec_plastic_coords(),
        g1.spec_actuator_coords() == g2.spec_actuator_coords(),
        forall|loc: Seq<i32>| #[trigger] g1.spec_nearby(loc) == g2.spec_nearby(loc),
    ensures
        plastic_wiring_history(g1, wmin, wmax, i) == plastic_wiring_history(g2, wmin, wmax, i),
    decreases i,
{
    if i > 0 {
        lemma_plastic_histories_agree(g1, g2, wmin, wmax, (i - 1) as nat);
        lemma_wired_targets_agree(g1, g2, g1.spec_plastic_coords()[i - 1]);
    }
}

/// Reproducibility: two networks freshly built over geometries that agree
/// in every observation, with identical parameters, names, reflexes and
/// seed, hold identical state, and feeding both the same sequence of sensor
/// frames yields identical actuator outputs after every cycle.  Together
/// with `Encephalon::new`, which pins a fresh network to exactly this
/// description, and `run_cycle`, whose result is the state function the
/// conclusion ranges over, this is the reproducibility law.
pub proof fn lemma_reproducible<G: EcpGeometry, M: WeightModifier>(
    g1: G,
    g2: G,
    m: M,
    s1: (Seq<SensoryView>, Seq<PlasticView>, Seq<ActuatorView>, Seq<usize>, ChargeCycle),
    s2: (Seq<SensoryView>, Seq<PlasticView>, Seq<ActuatorView>, Seq<usize>, ChargeCycle),
    reflexes: Seq<Reflex>,
    snames: Seq<Seq<char>>,
    anames: Seq<Seq<char>>,
    charge_bins: u8,
    fire_threshold: u64,
    wmin: u64,
    wmax: u64,
    ratio: u64,
    seed: u64,
    inputs: Seq<Seq<u64>>,
    static_pass: bool,
)
    requires
        spec_built_state(s1.0, s1.1, s1.2, s1.3, s1.4, g1, reflexes, snames, anames, charge_bins, fire_threshold, wmin, wmax, ratio, seed),
        spec_built_state(s2.0, s2.1, s2.2, s2.3, s2.4, g2, reflexes, snames, anames, charge_bins, fire_threshold, wmin, wmax, ratio, seed),
        g1.spec_plastic_coords() == g2.spec_plastic_coords(),
        g1.spec_actuator_coords() == g2.spec_actuator_coords(),
        g1.spec_sensory_coords() == g2.spec_sensory_coords(),
        forall|loc: Seq<i32>| #[trigger] g1.spec_nearby(loc) == g2.spec_nearby(loc),
    ensures
        s1 == s2,
        spec_run_sequence(m, s1.0, s1.1, s1.2, s1.3, inputs, s1.4, static_pass)
            == spec_run_sequence(m, s2.0, s2.1, s2.2, s2.3, inputs, s2.4, static_pass),
{
    assert forall|i: int| 0 <= i < s1.1.len() implies #[trigger] s1.1[i] == s2.1[i] by {
        lemma_plastic_histories_agree(g1, g2, wmin, wmax, i as nat);
        lemma_wired_targets_agree(g1, g2, g1.spec_plastic_coords()[i]);
        assert(spec_wired_synapses(
            g1,
            g1.spec_plastic_coords()[i],
            seed,
            plastic_wiring_history(g1, wmin, wmax, i as nat),
            wmin,
            wmax,
            spec_type_threshold(ratio),
        ) =~= spec_wired_synapses(
            g2,
            g2.spec_plastic_coords()[i],
            seed,
            plastic_wiring_history(g2, wmin, wmax, i as nat),
            wmin,
            wmax,
            spec_type_threshold(ratio),
        ));
    }
    assert forall|i: int| 0 <= i < s1.0.len() implies #[trigger] s1.0[i] == s2.0[i] by {
        lemma_wiring_histories_agree(g1, g2, wmin, wmax, i as nat);
        lemma_wired_targets_agree(g1, g2, g1.spec_sensory_coords()[i]);
        assert(spec_wired_synapses(
            g1,
            g1.spec_sensory_coords()[i],
            seed,
            sensory_wiring_history(g1, wmin, wmax, i as nat),
            wmin,
            wmax,
            spec_type_threshold(ratio),
        ) =~= spec_wired_synapses(
            g2,
            g2.spec_sensory_coords()[i],
            seed,
            sensory_wiring_history(g2, wmin, wmax, i as nat),
            wmin,
            wmax,
            spec_type_threshold(ratio),
        ));
    }
    assert(s1.0 =~= s2.0);
    assert(s1.1 =~= s2.1);
    assert(s1.2 =~= s2.2) by {
        assert forall|i: int| 0 <= i < s1.2.len() implies #[trigger] s1.2[i] == s2.2[i] by {}
    }
    assert(s1.3 =~= s2.3);
    assert(s1 == s2) by {
        assert(s1.0 == s2.0 && s1.1 == s2.1 && s1.2 == s2.2 && s1.3 == s2.3 && s1.4 == s2.4);
    }
}

/// A plastic neuron as construction makes it, before wiring.
pub open spec fn fresh_plastic_view(bins: u8, fire_threshold: u64) -> PlasticView {
    PlasticView {
        charge: crate::neuron::spec_fresh_charge(bins as nat),
        plastic: Seq::empty(),
        statics: Seq::empty(),
        receipts: (spec_empty_receipt(), spec_empty_receipt()),
        fire_threshold,
    }
}

/// An actuator neuron as construction makes it.
pub open spec fn fresh_actuator_view(bins: u8, fire_threshold: u64) -> ActuatorView {
    ActuatorView {
        charge: crate::neuron::spec_fresh_charge(bins as nat),
        receipts: (spec_empty_receipt(), spec_empty_receipt()),
        measure: 0u64,
        fire_threshold,
    }
}

/// A sensory neuron as construction makes it, before wiring.
pub open spec fn fresh_sensory_view() -> SensoryView {
    SensoryView {
        measure: 0u64,
        plastic: Seq::empty(),
        statics: Seq::empty(),
        receipts: (spec_empty_receipt(), spec_empty_receipt()),
    }
}

/// During wiring, a plastic neuron differs from fresh only in its
/// plasticity-eligible list.
pub open spec fn wired_plastic_inv(v: PlasticView, bins: u8, fire_threshold: u64) -> bool {
    v == (PlasticView { plastic: v.plastic, ..fresh_plastic_view(bins, fire_threshold) })
}

/// During wiring, a sensory neuron differs from fresh only in its
/// plasticity-eligible list.
pub open spec fn wired_sensory_inv(v: SensoryView) -> bool {
    v == (SensoryView { plastic: v.plastic, ..fresh_sensory_view() })
}

/// The excitatory coin-flip threshold: `ratio / (ratio + 1)` scaled into
/// measure units.
pub open spec fn spec_type_threshold(ratio: u64) -> u64 {
    (ratio * MEASURE_SCALE / (ratio + MEASURE_SCALE)) as u64
}

/// The position of a coordinate in a repeat-free enumeration.
pub open spec fn coord_index(coords: Seq<Seq<i32>>, c: Seq<i32>) -> int {
    choose|i: int| 0 <= i < coords.len() && coords[i] == c
}

/// In a repeat-free enumeration, each coordinate's position is its own.
pub proof fn lemma_coord_index_of_member(coords: Seq<Seq<i32>>, k: int)
    requires
        0 <= k < coords.len(),
        forall|i: int, j: int| 0 <= i < j < coords.len() ==> coords[i] != coords[j],
    ensures
        coord_index(coords, coords[k]) == k,
{
    assert(0 <= k < coords.len() && coords[k] == coords[k]);
    let i = coord_index(coords, coords[k]);
    if i != k {
        assert(coords[i] == coords[k]);
        assert(false);
    }
}

/// The draw history after `n` synapses have been drawn: each synapse costs
/// one weight draw and one type draw.
pub open spec fn drawn_history(h0: Seq<(u64, u64)>, n: nat, wmin: u64, wmax: u64) -> Seq<(u64, u64)>
    decreases n,
{
    if n == 0 {
        h0
    } else {
        drawn_history(h0, (n - 1) as nat, wmin, wmax).push((wmin, wmax)).push((0, MEASURE_SCALE))
    }
}

/// The `j`-th synapse drawn from a generator whose history was `h0`: the
/// weight comes from the stream's next value in `[wmin, wmax)`, the type
/// from a coin-flip draw against `tt`.
pub open spec fn drawn_synapse(
    seed: u64,
    h0: Seq<(u64, u64)>,
    j: nat,
    target: SynapseTarget,
    wmin: u64,
    wmax: u64,
    tt: u64,
) -> Synapse {
    let h = drawn_history(h0, j, wmin, wmax);
    let w = std_rng_range(seed, h, wmin, wmax);
    let d = std_rng_range(seed, h.push((wmin, wmax)), 0, MEASURE_SCALE);
    Synapse {
        synapse_type: if d < tt {
            SynapseType::Excitatory
        } else {
            SynapseType::Inhibitory
        },
        weight: w,
        target,
    }
}

/// The arena targets one source's destinations resolve to, plastic
/// destinations first.
pub open spec fn spec_wired_targets<G: EcpGeometry>(g: G, loc: Seq<i32>) -> Seq<SynapseTarget> {
    let near = g.spec_nearby(loc);
    Seq::new(near.0.len() + near.1.len(), |j: int|
        if j < near.0.len() {
            SynapseTarget::Plastic(coord_index(g.spec_plastic_coords(), near.0[j]) as usize)
        } else {
            SynapseTarget::Actuator(
                coord_index(g.spec_actuator_coords(), near.1[j - near.0.len()]) as usize,
            )
        })
}

/// The generator history when wiring of plastic source `i` begins: wiring
/// proceeds in enumeration order, plastic sources first.
pub open spec fn plastic_wiring_history<G: EcpGeometry>(g: G, wmin: u64, wmax: u64, i: nat) -> Seq<(u64, u64)>
    decreases i,
{
    if i == 0 {
        Seq::empty()
    } else {
        drawn_history(
            plastic_wiring_history(g, wmin, wmax, (i - 1) as nat),
            spec_wired_targets(g, g.spec_plastic_coords()[i - 1]).len(),
            wmin,
            wmax,
        )
    }
}

/// The generator history when wiring of sensory source `i` begins: after
/// every plastic source.
pub open spec fn sensory_wiring_history<G: EcpGeometry>(g: G, wmin: u64, wmax: u64, i: nat) -> Seq<(u64, u64)>
    decreases i,
{
    if i == 0 {
        plastic_wiring_history(g, wmin, wmax, g.spec_plastic_coords().len())
    } else {
        drawn_history(
            sensory_wiring_history(g, wmin, wmax, (i - 1) as nat),
            spec_wired_targets(g, g.spec_sensory_coords()[i - 1]).len(),
            wmin,
            wmax,
        )
    }
}

/// Targets resolved through the coordinate lookup tables are the positions
/// of the destinations in the family enumerations.
proof fn lemma_resolved_targets_match<G: EcpGeometry>(
    g: G,
    loc: Seq<i32>,
    targets: Seq<SynapseTarget>,
    plocs: Seq<Vec<i32>>,
    alocs: Seq<Vec<i32>>,
    pcont: Map<Seq<i32>, usize>,
    acont: Map<Seq<i32>, usize>,
)
    requires
        g.wf(),
        g.spec_plastic_coords().contains(loc) || g.spec_sensory_coords().contains(loc),
        plocs.map_values(|v: Vec<i32>| v@) == g.spec_nearby(loc).0,
        alocs.map_values(|v: Vec<i32>| v@) == g.spec_nearby(loc).1,
        targets.len() == plocs.len() + alocs.len(),
        forall|j: int| 0 <= j < plocs.len() ==> #[trigger] targets[j] == SynapseTarget::Plastic(
            pcont[plocs[j]@],
        ),
        forall|j: int| plocs.len() <= j < targets.len() ==> #[trigger] targets[j]
            == SynapseTarget::Actuator(acont[alocs[j - plocs.len()]@]),
        forall|k: int| 0 <= k < g.spec_plastic_coords().len() ==> {
            &&& pcont.dom().contains(#[trigger] g.spec_plastic_coords()[k])
            &&& pcont[g.spec_plastic_coords()[k]] == k
        },
        forall|k: int| 0 <= k < g.spec_actuator_coords().len() ==> {
            &&& acont.dom().contains(#[trigger] g.spec_actuator_coords()[k])
            &&& acont[g.spec_actuator_coords()[k]] == k
        },
    ensures
        targets == spec_wired_targets(g, loc),
{
    g.lemma_families_wf();
    g.lemma_nearby_valid(loc);
    let near = g.spec_nearby(loc);
    assert(plocs.len() == near.0.len() && alocs.len() == near.1.len());
    assert forall|j: int| 0 <= j < targets.len()
        implies #[trigger] targets[j] == spec_wired_targets(g, loc)[j] by {
        if j < plocs.len() {
            let c = near.0[j];
            assert(plocs.map_values(|v: Vec<i32>| v@)[j] == plocs[j]@);
            assert(plocs[j]@ == c);
            assert(g.spec_plastic_coords().contains(c));
            let kw = choose|w: int|
                0 <= w < g.spec_plastic_coords().len() && g.spec_plastic_coords()[w] == c;
            assert(pcont[g.spec_plastic_coords()[kw]] == kw);
            lemma_coord_index_of_member(g.spec_plastic_coords(), kw);
        } else {
            let c = near.1[j - plocs.len()];
            assert(alocs.map_values(|v: Vec<i32>| v@)[j - plocs.len()] == alocs[j - plocs.len()]@);
            assert(alocs[j - plocs.len()]@ == c);
            assert(g.spec_actuator_coords().contains(c));
            let kw = choose|w: int|
                0 <= w < g.spec_actuator_coords().len() && g.spec_actuator_coords()[w] == c;
            assert(acont[g.spec_actuator_coords()[kw]] == kw);
            lemma_coord_index_of_member(g.spec_actuator_coords(), kw);
        }
    }
    assert(targets =~= spec_wired_targets(g, loc));
}

/// The synapse list a source ends up with: reproducible from the seed, the
/// geometry and the configuration alone.
pub open spec fn spec_wired_synapses<G: EcpGeometry>(
    g: G,
    loc: Seq<i32>,
    seed: u64,
    h0: Seq<(u64, u64)>,
    wmin: u64,
    wmax: u64,
    tt: u64,
) -> Seq<Synapse> {
    let targets = spec_wired_targets(g, loc);
    Seq::new(targets.len(), |j: int| drawn_synapse(seed, h0, j as nat, targets[j], wmin, wmax, tt))
}

/// The static synapses the first `k` reflex records give sensory neuron
/// `q`: those naming a sensor bound to `q`, each aimed at the actuator its
/// record names.
pub open spec fn spec_reflex_statics(
    reflexes: Seq<Reflex>,
    sbind: Map<Seq<char>, usize>,
    abind: Map<Seq<char>, usize>,
    q: int,
    k: nat,
) -> Seq<Synapse>
    decreases k,
{
    if k == 0 {
        Seq::empty()
    } else {
        let prev = spec_reflex_statics(reflexes, sbind, abind, q, (k - 1) as nat);
        let r = reflexes[k - 1];
        if sbind.dom().contains(r.sensor_name@) && sbind[r.sensor_name@] == q
            && abind.dom().contains(r.actuator_name@) {
            prev.push(Synapse {
                synapse_type: r.synapse_type,
                weight: r.weight,
                target: SynapseTarget::Actuator(abind[r.actuator_name@]),
            })
        } else {
            prev
        }
    }
}

/// Turn destination coordinates into arena targets through the coordinate
/// lookup tables.  Every destination is resolvable by construction.
fn resolve_targets(
    plocs: &Vec<Vec<i32>>,
    alocs: &Vec<Vec<i32>>,
    pmap: &CoordIndexMap,
    amap: &CoordIndexMap,
    Ghost(n_pl): Ghost<nat>,
    Ghost(n_act): Ghost<nat>,
) -> (r: Vec<SynapseTarget>)
    requires
        forall|j: int| 0 <= j < plocs@.len()
            ==> coord_map_contents(*pmap).dom().contains((#[trigger] plocs@[j])@),
        forall|c: Seq<i32>| #[trigger] coord_map_contents(*pmap).dom().contains(c)
            ==> coord_map_contents(*pmap)[c] < n_pl,
        forall|j: int| 0 <= j < alocs@.len()
            ==> coord_map_contents(*amap).dom().contains((#[trigger] alocs@[j])@),
        forall|c: Seq<i32>| #[trigger] coord_map_contents(*amap).dom().contains(c)
            ==> coord_map_contents(*amap)[c] < n_act,
    ensures
        r@.len() == plocs@.len() + alocs@.len(),
        forall|j: int| 0 <= j < r@.len() ==> (#[trigger] r@[j]).wf(n_pl, n_act),
        forall|j: int| 0 <= j < plocs@.len() ==> #[trigger] r@[j] == SynapseTarget::Plastic(
            coord_map_contents(*pmap)[plocs@[j]@],
        ),
        forall|j: int| plocs@.len() <= j < r@.len() ==> #[trigger] r@[j] == SynapseTarget::Actuator(
            coord_map_contents(*amap)[alocs@[j - plocs@.len()]@],
        ),
{
    let mut out: Vec<SynapseTarget> = Vec::new();
    let mut j: usize = 0;
    while j < plocs.len()
        invariant
            forall|jj: int| 0 <= jj < plocs@.len()
                ==> coord_map_contents(*pmap).dom().contains((#[trigger] plocs@[jj])@),
            forall|c: Seq<i32>| #[trigger] coord_map_contents(*pmap).dom().contains(c)
                ==> coord_map_contents(*pmap)[c] < n_pl,
            j <= plocs@.len(),
            out@.len() == j,
            forall|jj: int| 0 <= jj < out@.len() ==> (#[trigger] out@[jj]).wf(n_pl, n_act),
            forall|jj: int| 0 <= jj < out@.len() ==> #[trigger] out@[jj] == SynapseTarget::Plastic(
                coord_map_contents(*pmap)[plocs@[jj]@],
            ),
        decreases plocs@.len() - j,
    {
        let t = match coord_map_get(pmap, &plocs[j]) {
            Some(t) => t,
            None => unreached(),
        };
        out.push(SynapseTarget::Plastic(t));
        j = j + 1;
    }
    let mut j: usize = 0;
    while j < alocs.len()
        invariant
            forall|jj: int| 0 <= jj < alocs@.len()
                ==> coord_map_contents(*amap).dom().contains((#[trigger] alocs@[jj])@),
            forall|c: Seq<i32>| #[trigger] coord_map_contents(*amap).dom().contains(c)
                ==> coord_map_contents(*amap)[c] < n_act,
            forall|jj: int| 0 <= jj < plocs@.len() ==> #[trigger] out@[jj] == SynapseTarget::Plastic(
                coord_map_contents(*pmap)[plocs@[jj]@],
            ),
            j <= alocs@.len(),
            out@.len() == plocs@.len() + j,
            forall|jj: int| 0 <= jj < out@.len() ==> (#[trigger] out@[jj]).wf(n_pl, n_act),
            forall|jj: int| plocs@.len() <= jj < out@.len() ==> #[trigger] out@[jj]
                == SynapseTarget::Actuator(coord_map_contents(*amap)[alocs@[jj - plocs@.len()]@]),
        decreases alocs@.len() - j,
    {
        let t = match coord_map_get(amap, &alocs[j]) {
            Some(t) => t,
            None => unreached(),
        };
        out.push(SynapseTarget::Actuator(t));
        j = j + 1;
    }
    out
}

/// Draw one synapse per target: a weight uniform in `[wmin, wmax)` and a
/// type by weighted coin-flip against `type_threshold`.
fn draw_synapses(
    rng: &mut SeededRng,
    targets: &Vec<SynapseTarget>,
    wmin: u64,
    wmax: u64,
    type_threshold: u64,
) -> (r: Vec<Synapse>)
    requires
        wmin < wmax,
    ensures
        r@.len() == targets@.len(),
        forall|j: int| 0 <= j < r@.len() ==> (#[trigger] r@[j]).target == targets@[j],
        forall|j: int| 0 <= j < r@.len() ==> wmin <= (#[trigger] r@[j]).weight < wmax,
        forall|j: int| 0 <= j < r@.len() ==> #[trigger] r@[j] == drawn_synapse(
            old(rng).seed(),
            old(rng).history(),
            j as nat,
            targets@[j],
            wmin,
            wmax,
            type_threshold,
        ),
        final(rng).seed() == old(rng).seed(),
        final(rng).history() == drawn_history(old(rng).history(), targets@.len() as nat, wmin, wmax),
{
    let ghost h0 = rng.history();
    let mut out: Vec<Synapse> = Vec::new();
    let mut j: usize = 0;
    while j < targets.len()
        invariant
            wmin < wmax,
            j <= targets@.len(),
            out@.len() == j,
            forall|jj: int| 0 <= jj < out@.len() ==> (#[trigger] out@[jj]).target == targets@[jj],
            forall|jj: int| 0 <= jj < out@.len() ==> wmin <= (#[trigger] out@[jj]).weight < wmax,
            forall|jj: int| 0 <= jj < out@.len() ==> #[trigger] out@[jj] == drawn_synapse(
                old(rng).seed(),
                h0,
                jj as nat,
                targets@[jj],
                wmin,
                wmax,
                type_threshold,
            ),
            rng.seed() == old(rng).seed(),
            h0 == old(rng).history(),
            rng.history() == drawn_history(h0, j as nat, wmin, wmax),
        decreases targets@.len() - j,
    {
        let weight = rng.random_range(wmin, wmax);
        let d = rng.random_range(0, MEASURE_SCALE);
        let synapse_type = if d < type_threshold {
            SynapseType::Excitatory
        } else {
            SynapseType::Inhibitory
        };
        out.push(Synapse::new(synapse_type, weight, targets[j]));
        j = j + 1;
        proof {
            assert(rng.history() == drawn_history(h0, j as nat, wmin, wmax));
            assert(out@[j - 1] == drawn_synapse(
                old(rng).seed(),
                h0,
                (j - 1) as nat,
                targets@[j - 1],
                wmin,
                wmax,
                type_threshold,
            ));
        }
    }
    out
}

/// The index map holding the first `k` coordinates of an enumeration,
/// each mapped to its position.
pub open spec fn coords_map_upto(coords: Seq<Seq<i32>>, k: nat) -> Map<Seq<i32>, usize>
    decreases k,
{
    if k == 0 {
        Map::empty()
    } else {
        coords_map_upto(coords, (k - 1) as nat).insert(coords[k - 1], (k - 1) as usize)
    }
}

/// With distinct coordinates, the finished map sends each coordinate to its
/// position and holds nothing else.
pub proof fn lemma_coords_map_lookup(coords: Seq<Seq<i32>>, k: nat)
    requires
        k <= coords.len(),
        k <= usize::MAX,
        forall|i: int, j: int| 0 <= i < j < coords.len() ==> coords[i] != coords[j],
    ensures
        forall|i: int| 0 <= i < k ==> {
            &&& coords_map_upto(coords, k).dom().contains(#[trigger] coords[i])
            &&& coords_map_upto(coords, k)[coords[i]] == i
        },
        forall|c: Seq<i32>| coords_map_upto(coords, k).dom().contains(c)
            ==> exists|i: int| 0 <= i < k && #[trigger] coords[i] == c,
    decreases k,
{
    if k > 0 {
        lemma_coords_map_lookup(coords, (k - 1) as nat);
        let prev = coords_map_upto(coords, (k - 1) as nat);
        let cur = coords_map_upto(coords, k);
        assert(cur == prev.insert(coords[k - 1], (k - 1) as usize));
        assert forall|i: int| 0 <= i < k implies {
            &&& cur.dom().contains(#[trigger] coords[i])
            &&& cur[coords[i]] == i
        } by {
            if i < k - 1 {
                assert(prev.dom().contains(coords[i]) && prev[coords[i]] == i);
                assert(coords[i] != coords[k - 1]);
                assert(cur[coords[i]] == prev[coords[i]]);
            } else {
                assert(cur[coords[k - 1]] == (k - 1) as usize);
            }
        }
        assert forall|c: Seq<i32>| cur.dom().contains(c) implies exists|i: int|
            0 <= i < k && #[trigger] coords[i] == c by {
            if c != coords[k - 1] {
                assert(prev.dom().contains(c));
                let i = choose|i: int| 0 <= i < k - 1 && #[trigger] coords[i] == c;
                assert(0 <= i < k && coords[i] == c);
            } else {
                assert(coords[k - 1] == c);
            }
        }
    }
}

/// The name map after binding `names`, each to its position; a repeated
/// name keeps its last position.
pub open spec fn names_map_upto(names: Seq<Seq<char>>, k: nat) -> Map<Seq<char>, usize>
    decreases k,
{
    if k == 0 {
        Map::empty()
    } else {
        names_map_upto(names, (k - 1) as nat).insert(names[k - 1], (k - 1) as usize)
    }
}

/// The finished name map binds exactly the given names, each to some
/// position among them.
pub proof fn lemma_names_map_lookup(names: Seq<Seq<char>>, k: nat)
    requires
        k <= names.len(),
        k <= usize::MAX,
    ensures
        forall|i: int| 0 <= i < k ==> names_map_upto(names, k).dom().contains(#[trigger] names[i]),
        forall|c: Seq<char>| names_map_upto(names, k).dom().contains(c)
            ==> exists|i: int| 0 <= i < k && #[trigger] names[i] == c,
        forall|c: Seq<char>| names_map_upto(names, k).dom().contains(c)
            ==> names_map_upto(names, k)[c] < k,
    decreases k,
{
    if k > 0 {
        lemma_names_map_lookup(names, (k - 1) as nat);
        let prev = names_map_upto(names, (k - 1) as nat);
        let cur = names_map_upto(names, k);
        assert(cur == prev.insert(names[k - 1], (k - 1) as usize));
        assert forall|c: Seq<char>| cur.dom().contains(c) implies exists|i: int|
            0 <= i < k && #[trigger] names[i] == c by {
            if c != names[k - 1] {
                assert(prev.dom().contains(c));
                let i = choose|i: int| 0 <= i < k - 1 && #[trigger] names[i] == c;
                assert(0 <= i < k && names[i] == c);
            } else {
                assert(names[k - 1] == c);
            }
        }
        assert forall|c: Seq<char>| cur.dom().contains(c) implies cur[c] < k by {
            if c != names[k - 1] {
                assert(prev.dom().contains(c) && prev[c] < k - 1 + 1);
            }
        }
    }
}

/// The sensory arena after a whole-network clear.
pub open spec fn after_sensory_clear(sv: Seq<SensoryView>) -> Seq<SensoryView> {
    sv.map_values(|v: SensoryView| SensoryView {
        receipts: (spec_empty_receipt(), spec_empty_receipt()),
        ..v
    })
}

/// The plastic arena after a whole-network clear.
pub open spec fn after_plastic_clear(pa: Seq<PlasticView>) -> Seq<PlasticView> {
    pa.map_values(|v: PlasticView| PlasticView {
        charge: crate::neuron::spec_reset(crate::neuron::spec_reset(v.charge, ChargeCycle::Even), ChargeCycle::Odd),
        receipts: (spec_empty_receipt(), spec_empty_receipt()),
        ..v
    })
}

} // verus!
