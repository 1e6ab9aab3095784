use aesir::neuron::{
    ActuatorNeuron, BasicWeightModifier, ChargeCycle, FireTracker, Impulse, InternalCharge,
    MEASURE_SCALE, PlasticNeuron, SensoryNeuron, SynapseTarget, SynapseType,
    basic_weight_modifier, transmit_synapses,
};

/// Fire one sensory neuron's synapse lists into the given arenas for one
/// cycle, with the learning path enabled.
fn run_sensory(
    s: &mut SensoryNeuron,
    cycle: ChargeCycle,
    plastic_arena: &mut Vec<PlasticNeuron>,
    actuator_arena: &mut Vec<ActuatorNeuron>,
) {
    let (measure, prev) = s.begin_cycle(cycle);
    let (mut pl, mut st) = s.take_synapses();
    transmit_synapses(
        &BasicWeightModifier,
        &mut pl,
        true,
        cycle,
        true,
        measure,
        prev,
        plastic_arena,
        actuator_arena,
    );
    transmit_synapses(
        &BasicWeightModifier,
        &mut st,
        false,
        cycle,
        true,
        measure,
        prev,
        plastic_arena,
        actuator_arena,
    );
    s.put_synapses(pl, st);
}

#[test]
fn test_incr_next_charge() {
    let bins = 8;
    let mut internal_charge = InternalCharge::new(bins);

    let weight = 15_000_000;
    let measure = 200_000;

    internal_charge.incr_next_charge(ChargeCycle::Even, Impulse::new(weight, measure));

    assert_eq!(internal_charge.bin_weight(ChargeCycle::Odd, 1), 15_000_000);
    assert_eq!(internal_charge.bin_charge(ChargeCycle::Odd, 1), 3_000_000_000_000);

    let weight = 14_000_000;
    let measure = 150_000;

    internal_charge.incr_next_charge(ChargeCycle::Even, Impulse::new(weight, measure));

    assert_eq!(internal_charge.bin_weight(ChargeCycle::Odd, 1), 29_000_000);
    assert_eq!(internal_charge.bin_charge(ChargeCycle::Odd, 1), 5_100_000_000_000);

    let weight = 15_000_000;
    let measure = 200_000;

    internal_charge.incr_next_charge(ChargeCycle::Odd, Impulse::new(weight, measure));

    assert_eq!(internal_charge.bin_weight(ChargeCycle::Even, 1), 15_000_000);
    assert_eq!(internal_charge.bin_charge(ChargeCycle::Even, 1), 3_000_000_000_000);

    let weight = 14_000_000;
    let measure = 150_000;

    internal_charge.incr_next_charge(ChargeCycle::Odd, Impulse::new(weight, measure));

    assert_eq!(internal_charge.bin_weight(ChargeCycle::Even, 1), 29_000_000);
    assert_eq!(internal_charge.bin_charge(ChargeCycle::Even, 1), 5_100_000_000_000);
}

#[test]
fn test_get_and_reset_charge() {
    let bins = 8;
    let mut internal_charge = InternalCharge::new(bins);
    internal_charge.incr_next_charge(ChargeCycle::Even, Impulse::new(15_000_000, 200_000));
    internal_charge.incr_next_charge(ChargeCycle::Even, Impulse::new(14_000_000, 150_000));

    // (15 * 0.2 + 14 * 0.15) / 29 = 0.175862...
    assert_eq!(internal_charge.get_charge_weighted_average(ChargeCycle::Odd), 175_862);
    assert_eq!(internal_charge.get_weights(ChargeCycle::Odd), 29_000_000);

    internal_charge.incr_next_charge(ChargeCycle::Odd, Impulse::new(15_000_000, 200_000));
    internal_charge.incr_next_charge(ChargeCycle::Odd, Impulse::new(14_000_000, 150_000));
    internal_charge.incr_next_charge(ChargeCycle::Odd, Impulse::new(10_000_000, 500_000));

    // (15 * 0.2 + 14 * 0.15 + 10 * 0.5) / 39 = 0.258974...
    assert_eq!(internal_charge.get_charge_weighted_average(ChargeCycle::Even), 258_974);
    assert_eq!(internal_charge.get_weights(ChargeCycle::Even), 39_000_000);

    internal_charge.reset_charge(ChargeCycle::Odd);

    assert_eq!(internal_charge.bin_weight(ChargeCycle::Odd, 1), 0);
    assert_eq!(internal_charge.bin_charge(ChargeCycle::Odd, 1), 0);

    internal_charge.reset_charge(ChargeCycle::Even);

    assert_eq!(internal_charge.bin_weight(ChargeCycle::Even, 1), 0);
    assert_eq!(internal_charge.bin_charge(ChargeCycle::Even, 1), 0);
}

/// After a reset, a parity reads back as empty: total weight and weighted
/// average are both zero.
#[test]
fn reset_then_read_zero() {
    let mut ic = InternalCharge::new(8);
    ic.incr_next_charge(ChargeCycle::Odd, Impulse::new(7_000_000, 300_000));
    assert!(ic.get_weights(ChargeCycle::Even) > 0);
    ic.reset_charge(ChargeCycle::Even);
    assert_eq!(ic.get_weights(ChargeCycle::Even), 0);
    assert_eq!(ic.get_charge_weighted_average(ChargeCycle::Even), 0);
}

/// Depositing towards one parity never changes what the other buffer
/// reports.
#[test]
fn deposit_does_not_touch_other_parity() {
    let mut ic = InternalCharge::new(8);
    ic.incr_next_charge(ChargeCycle::Odd, Impulse::new(9_000_000, 600_000));
    let w_before = ic.get_weights(ChargeCycle::Even);
    let a_before = ic.get_charge_weighted_average(ChargeCycle::Even);
    // These deposits land in the Even buffer's partner, not in Even itself.
    ic.incr_next_charge(ChargeCycle::Even, Impulse::new(5_000_000, 100_000));
    ic.inhibit_next_charge(ChargeCycle::Even, Impulse::new(2_000_000, 900_000));
    assert_eq!(ic.get_weights(ChargeCycle::Even), w_before);
    assert_eq!(ic.get_charge_weighted_average(ChargeCycle::Even), a_before);
}

#[test]
fn test_fire_tracker() {
    let mut tracker = FireTracker::new();
    tracker.create_receipt(ChargeCycle::Even, true, 300_000);

    let even_receipt = tracker.check_receipt(ChargeCycle::Even);
    let odd_receipt = tracker.check_receipt(ChargeCycle::Odd);

    assert_eq!(even_receipt.measure, 300_000);
    assert_eq!(even_receipt.fired, true);
    assert_eq!(odd_receipt.measure, 0);
    assert_eq!(odd_receipt.fired, false);

    tracker.create_receipt(ChargeCycle::Odd, true, 600_000);

    let even_receipt = tracker.check_receipt(ChargeCycle::Even);
    let odd_receipt = tracker.check_receipt(ChargeCycle::Odd);

    assert_eq!(even_receipt.measure, 300_000);
    assert_eq!(even_receipt.fired, true);
    assert_eq!(odd_receipt.measure, 600_000);
    assert_eq!(odd_receipt.fired, true);
}

#[test]
fn test_sensor_plastic_fire() {
    let bins = 8;

    let mut s1 = SensoryNeuron::new();
    let mut s2 = SensoryNeuron::new();

    s1.set_measure(800_000);
    s2.set_measure(400_000);

    let fire_threshold = 10_000_000;
    let mut plastic_arena = vec![PlasticNeuron::new(bins, fire_threshold)];
    let mut actuator_arena: Vec<ActuatorNeuron> = Vec::new();

    s1.add_plastic_synapse(6_000_000, SynapseType::Excitatory, SynapseTarget::Plastic(0));
    s2.add_plastic_synapse(5_000_000, SynapseType::Excitatory, SynapseTarget::Plastic(0));

    let cycle = ChargeCycle::Even;
    run_sensory(&mut s1, cycle, &mut plastic_arena, &mut actuator_arena);
    run_sensory(&mut s2, cycle, &mut plastic_arena, &mut actuator_arena);
    let _ = plastic_arena[0].begin_cycle(cycle);

    // (6 * 0.8 + 5 * 0.4) / 11 = 0.61818...
    assert_eq!(plastic_arena[0].charge_weighted_average(ChargeCycle::Odd), 618_181);
    assert_eq!(plastic_arena[0].total_charge_weight(ChargeCycle::Odd), 11_000_000);

    assert_eq!(plastic_arena[0].charge_weighted_average(ChargeCycle::Even), 0);
    assert_eq!(plastic_arena[0].total_charge_weight(ChargeCycle::Even), 0);
}

#[test]
fn test_sensor_plastic_fire_with_inhibition() {
    let bins = 8;

    let mut s1 = SensoryNeuron::new();
    let mut s2 = SensoryNeuron::new();
    let mut s3 = SensoryNeuron::new();

    s1.set_measure(800_000);
    s2.set_measure(400_000);
    s3.set_measure(450_000);

    let fire_threshold = 10_000_000;
    let mut plastic_arena = vec![PlasticNeuron::new(bins, fire_threshold)];
    let mut actuator_arena: Vec<ActuatorNeuron> = Vec::new();

    s1.add_plastic_synapse(9_000_000, SynapseType::Excitatory, SynapseTarget::Plastic(0));
    s2.add_plastic_synapse(5_000_000, SynapseType::Excitatory, SynapseTarget::Plastic(0));
    s3.add_plastic_synapse(3_000_000, SynapseType::Inhibitory, SynapseTarget::Plastic(0));

    let cycle = ChargeCycle::Even;
    run_sensory(&mut s1, cycle, &mut plastic_arena, &mut actuator_arena);
    run_sensory(&mut s2, cycle, &mut plastic_arena, &mut actuator_arena);
    run_sensory(&mut s3, cycle, &mut plastic_arena, &mut actuator_arena);

    // Bin for 0.4 and 0.45 is shared: 5 - 3 = 2 weight, 2 - 1.35 = 0.65
    // weighted charge; the 0.8 bin holds 9 and 7.2.
    assert_eq!(plastic_arena[0].total_charge_weight(ChargeCycle::Odd), 11_000_000);
    assert_eq!(plastic_arena[0].charge_weighted_average(ChargeCycle::Odd), 713_636);
}

#[test]
fn test_sensor_static_fire() {
    let bins = 8;

    let mut s1 = SensoryNeuron::new();
    let mut s2 = SensoryNeuron::new();

    s1.set_measure(800_000);
    s2.set_measure(400_000);

    let fire_threshold = 10_000_000;
    let mut plastic_arena = vec![PlasticNeuron::new(bins, fire_threshold)];
    let mut actuator_arena: Vec<ActuatorNeuron> = Vec::new();

    s1.add_static_synapse(6_000_000, SynapseType::Excitatory, SynapseTarget::Plastic(0));
    s2.add_static_synapse(5_000_000, SynapseType::Excitatory, SynapseTarget::Plastic(0));

    let cycle = ChargeCycle::Even;
    run_sensory(&mut s1, cycle, &mut plastic_arena, &mut actuator_arena);
    run_sensory(&mut s2, cycle, &mut plastic_arena, &mut actuator_arena);
    let _ = plastic_arena[0].begin_cycle(cycle);

    assert_eq!(plastic_arena[0].charge_weighted_average(ChargeCycle::Odd), 618_181);
    assert_eq!(plastic_arena[0].total_charge_weight(ChargeCycle::Odd), 11_000_000);

    assert_eq!(plastic_arena[0].charge_weighted_average(ChargeCycle::Even), 0);
    assert_eq!(plastic_arena[0].total_charge_weight(ChargeCycle::Even), 0);

    // A static synapse fires identically but its weight is immutable.
    assert_eq!(s1.get_static_synapses()[0].weight, 6_000_000);
    assert_eq!(s2.get_static_synapses()[0].weight, 5_000_000);
}

#[test]
fn test_basic_weight_change() {
    let bins = 8;
    let fire_threshold = 10_000_000;

    let mut s1 = SensoryNeuron::new();
    let mut s2 = SensoryNeuron::new();

    let s1_measure = 500_000;
    let s2_measure = 700_000;

    s1.set_measure(s1_measure);
    s2.set_measure(s2_measure);

    let mut plastic_arena = vec![PlasticNeuron::new(bins, fire_threshold)];
    let mut actuator_arena: Vec<ActuatorNeuron> = Vec::new();

    let s1_weight = 7_200_000;
    let s2_weight = 5_800_000;

    s1.add_plastic_synapse(s1_weight, SynapseType::Excitatory, SynapseTarget::Plastic(0));
    s2.add_plastic_synapse(s2_weight, SynapseType::Excitatory, SynapseTarget::Plastic(0));

    let mut cycle = ChargeCycle::Even;
    for _ in 0..3 {
        run_sensory(&mut s1, cycle, &mut plastic_arena, &mut actuator_arena);
        run_sensory(&mut s2, cycle, &mut plastic_arena, &mut actuator_arena);
        let _ = plastic_arena[0].begin_cycle(cycle);
        cycle = cycle.next_cycle();
    }

    // The plastic neuron fired in the second cycle with the weighted
    // average of the two impulses; in the third cycle each sensory synapse
    // sees that receipt against its own two-cycles-ago measure.
    let p_charge = (s1_weight as u128 * s1_measure as u128 + s2_weight as u128 * s2_measure as u128)
        / (s1_weight as u128 + s2_weight as u128);
    assert_eq!(p_charge, 589_230);

    let new_s1 = (s1_weight as i64 + basic_weight_modifier(589_230, s1_measure)) as u64;
    let new_s2 = (s2_weight as i64 + basic_weight_modifier(589_230, s2_measure)) as u64;

    assert_eq!(s1.get_plastic_synapses()[0].weight, new_s1);
    assert_eq!(s2.get_plastic_synapses()[0].weight, new_s2);
    assert_eq!(new_s1, 7_285_704);
    assert_eq!(new_s2, 5_780_010);
}

/// A neuron whose total weight equals the threshold exactly does not fire;
/// one more unit of weight makes it fire.
#[test]
fn firing_threshold_is_strict() {
    let threshold = 10_000_000;

    let mut at_threshold = PlasticNeuron::new(8, threshold);
    at_threshold.intake_synaptic_impulse(
        ChargeCycle::Odd,
        Impulse::new(10_000_000, 500_000),
        SynapseType::Excitatory,
    );
    let (fired, measure, _) = at_threshold.begin_cycle(ChargeCycle::Even);
    assert!(!fired);
    assert_eq!(measure, 0);

    let mut above_threshold = PlasticNeuron::new(8, threshold);
    above_threshold.intake_synaptic_impulse(
        ChargeCycle::Odd,
        Impulse::new(10_000_001, 500_000),
        SynapseType::Excitatory,
    );
    let (fired, measure, _) = above_threshold.begin_cycle(ChargeCycle::Even);
    assert!(fired);
    assert_eq!(measure, 500_000);
}

/// The default modifier is one whole unit for equal measures, within
/// (-1, 1] everywhere, and a weight never goes below zero.
#[test]
fn modifier_range_and_clamping() {
    assert_eq!(basic_weight_modifier(0, 0), 1_000_000);
    assert_eq!(basic_weight_modifier(500_000, 500_000), 1_000_000);
    assert_eq!(basic_weight_modifier(MEASURE_SCALE, MEASURE_SCALE), 1_000_000);
    // Maximal disagreement: (0 - e^(-1.5)) / (1 - e^(-1.5)) = -0.2872...
    assert_eq!(basic_weight_modifier(MEASURE_SCALE, 0), -287_216);
    assert_eq!(basic_weight_modifier(0, MEASURE_SCALE), -287_216);
    // A close pair strengthens mildly.
    assert_eq!(basic_weight_modifier(300_000, 400_000), 32_857);
    let mut v: u64 = 0;
    while v <= MEASURE_SCALE {
        let d = basic_weight_modifier(v, MEASURE_SCALE - v);
        assert!(d > -1_000_000 && d <= 1_000_000);
        v += 12_345;
    }
}

/// Driving a weak synapse against a disagreeing target drains its weight to
/// the floor of zero, never below.
#[test]
fn weight_floor_clamps_at_zero() {
    let bins = 8;
    let mut s1 = SensoryNeuron::new();
    let mut teacher = SensoryNeuron::new();
    s1.set_measure(0);
    teacher.set_measure(1_000_000);

    let mut plastic_arena = vec![PlasticNeuron::new(bins, 10_000_000)];
    let mut actuator_arena: Vec<ActuatorNeuron> = Vec::new();

    // A tiny synapse whose measure disagrees with what makes the target
    // fire, and a strong driver that keeps the target firing.
    s1.add_plastic_synapse(100_000, SynapseType::Excitatory, SynapseTarget::Plastic(0));
    teacher.add_plastic_synapse(50_000_000, SynapseType::Excitatory, SynapseTarget::Plastic(0));

    let mut cycle = ChargeCycle::Even;
    for _ in 0..8 {
        run_sensory(&mut s1, cycle, &mut plastic_arena, &mut actuator_arena);
        run_sensory(&mut teacher, cycle, &mut plastic_arena, &mut actuator_arena);
        let _ = plastic_arena[0].begin_cycle(cycle);
        cycle = cycle.next_cycle();
    }
    assert_eq!(s1.get_plastic_synapses()[0].weight, 0);
}

/// Run one plastic neuron's cycle against the arenas: the local firing
/// decision, then transmission down its lists with learning enabled.
/// The neuron itself lives at `index` in the plastic arena.
fn run_plastic(
    index: usize,
    cycle: ChargeCycle,
    plastic_arena: &mut Vec<PlasticNeuron>,
    actuator_arena: &mut Vec<ActuatorNeuron>,
) {
    let (fired, measure, prev) = plastic_arena[index].begin_cycle(cycle);
    let (mut pl, mut st) = plastic_arena[index].take_synapses();
    transmit_synapses(
        &BasicWeightModifier,
        &mut pl,
        true,
        cycle,
        fired,
        measure,
        prev,
        plastic_arena,
        actuator_arena,
    );
    transmit_synapses(
        &BasicWeightModifier,
        &mut st,
        false,
        cycle,
        fired,
        measure,
        prev,
        plastic_arena,
        actuator_arena,
    );
    plastic_arena[index].put_synapses(pl, st);
}

#[test]
fn test_sensor_static_fire_with_inhibition() {
    let bins = 8;

    let mut s1 = SensoryNeuron::new();
    let mut s2 = SensoryNeuron::new();
    let mut s3 = SensoryNeuron::new();

    s1.set_measure(800_000);
    s2.set_measure(400_000);
    s3.set_measure(450_000);

    let mut plastic_arena = vec![PlasticNeuron::new(bins, 10_000_000)];
    let mut actuator_arena: Vec<ActuatorNeuron> = Vec::new();

    s1.add_static_synapse(9_000_000, SynapseType::Excitatory, SynapseTarget::Plastic(0));
    s2.add_static_synapse(5_000_000, SynapseType::Excitatory, SynapseTarget::Plastic(0));
    s3.add_static_synapse(3_000_000, SynapseType::Inhibitory, SynapseTarget::Plastic(0));

    let cycle = ChargeCycle::Even;
    run_sensory(&mut s1, cycle, &mut plastic_arena, &mut actuator_arena);
    run_sensory(&mut s2, cycle, &mut plastic_arena, &mut actuator_arena);
    run_sensory(&mut s3, cycle, &mut plastic_arena, &mut actuator_arena);

    assert_eq!(plastic_arena[0].total_charge_weight(ChargeCycle::Odd), 11_000_000);
    assert_eq!(plastic_arena[0].charge_weighted_average(ChargeCycle::Odd), 713_636);
    assert_eq!(s3.get_static_synapses()[0].weight, 3_000_000);
}

/// Two sensors drive two plastic neurons which in turn drive one actuator
/// through plasticity-eligible synapses; after three cycles the actuator
/// exposes the weighted average of the plastic layer's firing.
#[test]
fn test_plastic_plastic_fire_to_actuator() {
    let bins = 8;
    let fire_threshold = 10_000_000;

    let mut s1 = SensoryNeuron::new();
    let mut s2 = SensoryNeuron::new();
    s1.set_measure(300_000);
    s2.set_measure(400_000);

    let mut plastic_arena = vec![
        PlasticNeuron::new(bins, fire_threshold),
        PlasticNeuron::new(bins, fire_threshold),
    ];
    let mut actuator_arena = vec![ActuatorNeuron::new(bins, fire_threshold)];

    s1.add_plastic_synapse(7_000_000, SynapseType::Excitatory, SynapseTarget::Plastic(0));
    s1.add_plastic_synapse(5_000_000, SynapseType::Excitatory, SynapseTarget::Plastic(1));
    s2.add_plastic_synapse(6_000_000, SynapseType::Excitatory, SynapseTarget::Plastic(0));
    s2.add_plastic_synapse(6_500_000, SynapseType::Excitatory, SynapseTarget::Plastic(1));

    plastic_arena[0].add_plastic_synapse(5_500_000, SynapseType::Excitatory, SynapseTarget::Actuator(0));
    plastic_arena[1].add_plastic_synapse(6_000_000, SynapseType::Excitatory, SynapseTarget::Actuator(0));

    let mut cycle = ChargeCycle::Even;
    for _ in 0..3 {
        run_sensory(&mut s1, cycle, &mut plastic_arena, &mut actuator_arena);
        run_sensory(&mut s2, cycle, &mut plastic_arena, &mut actuator_arena);
        run_plastic(0, cycle, &mut plastic_arena, &mut actuator_arena);
        run_plastic(1, cycle, &mut plastic_arena, &mut actuator_arena);
        actuator_arena[0].run_cycle(cycle);
        cycle = cycle.next_cycle();
    }

    assert_eq!(actuator_arena[0].read_measure(), 351_562);
}

#[test]
fn test_plastic_plastic_fire_to_actuator_with_inhibition() {
    let bins = 8;
    let fire_threshold = 10_000_000;

    let mut s1 = SensoryNeuron::new();
    let mut s2 = SensoryNeuron::new();
    s1.set_measure(300_000);
    s2.set_measure(400_000);

    let mut plastic_arena = vec![
        PlasticNeuron::new(bins, fire_threshold),
        PlasticNeuron::new(bins, fire_threshold),
        PlasticNeuron::new(bins, fire_threshold),
    ];
    let mut actuator_arena = vec![ActuatorNeuron::new(bins, fire_threshold)];

    s1.add_plastic_synapse(7_000_000, SynapseType::Excitatory, SynapseTarget::Plastic(0));
    s1.add_plastic_synapse(5_000_000, SynapseType::Excitatory, SynapseTarget::Plastic(1));
    s1.add_plastic_synapse(8_000_000, SynapseType::Excitatory, SynapseTarget::Plastic(2));
    s2.add_plastic_synapse(6_000_000, SynapseType::Excitatory, SynapseTarget::Plastic(0));
    s2.add_plastic_synapse(6_500_000, SynapseType::Excitatory, SynapseTarget::Plastic(1));
    s2.add_plastic_synapse(3_000_000, SynapseType::Excitatory, SynapseTarget::Plastic(2));

    plastic_arena[0].add_plastic_synapse(5_500_000, SynapseType::Excitatory, SynapseTarget::Actuator(0));
    plastic_arena[1].add_plastic_synapse(8_000_000, SynapseType::Excitatory, SynapseTarget::Actuator(0));
    plastic_arena[2].add_plastic_synapse(2_000_000, SynapseType::Inhibitory, SynapseTarget::Actuator(0));

    let mut cycle = ChargeCycle::Even;
    for _ in 0..3 {
        run_sensory(&mut s1, cycle, &mut plastic_arena, &mut actuator_arena);
        run_sensory(&mut s2, cycle, &mut plastic_arena, &mut actuator_arena);
        run_plastic(0, cycle, &mut plastic_arena, &mut actuator_arena);
        run_plastic(1, cycle, &mut plastic_arena, &mut actuator_arena);
        run_plastic(2, cycle, &mut plastic_arena, &mut actuator_arena);
        actuator_arena[0].run_cycle(cycle);
        cycle = cycle.next_cycle();
    }

    assert_eq!(actuator_arena[0].read_measure(), 356_649);
}

#[test]
fn test_plastic_static_fire_to_actuator() {
    let bins = 8;
    let fire_threshold = 10_000_000;

    let mut s1 = SensoryNeuron::new();
    let mut s2 = SensoryNeuron::new();
    s1.set_measure(300_000);
    s2.set_measure(400_000);

    let mut plastic_arena = vec![
        PlasticNeuron::new(bins, fire_threshold),
        PlasticNeuron::new(bins, fire_threshold),
    ];
    let mut actuator_arena = vec![ActuatorNeuron::new(bins, fire_threshold)];

    s1.add_plastic_synapse(7_000_000, SynapseType::Excitatory, SynapseTarget::Plastic(0));
    s1.add_plastic_synapse(5_000_000, SynapseType::Excitatory, SynapseTarget::Plastic(1));
    s2.add_plastic_synapse(6_000_000, SynapseType::Excitatory, SynapseTarget::Plastic(0));
    s2.add_plastic_synapse(6_500_000, SynapseType::Excitatory, SynapseTarget::Plastic(1));

    plastic_arena[0].add_static_synapse(5_500_000, SynapseType::Excitatory, SynapseTarget::Actuator(0));
    plastic_arena[1].add_static_synapse(6_000_000, SynapseType::Excitatory, SynapseTarget::Actuator(0));

    let mut cycle = ChargeCycle::Even;
    for _ in 0..3 {
        run_sensory(&mut s1, cycle, &mut plastic_arena, &mut actuator_arena);
        run_sensory(&mut s2, cycle, &mut plastic_arena, &mut actuator_arena);
        run_plastic(0, cycle, &mut plastic_arena, &mut actuator_arena);
        run_plastic(1, cycle, &mut plastic_arena, &mut actuator_arena);
        actuator_arena[0].run_cycle(cycle);
        cycle = cycle.next_cycle();
    }

    assert_eq!(actuator_arena[0].read_measure(), 351_562);
    // The static wiring carried the same traffic but kept its weights.
    assert_eq!(plastic_arena[0].get_static_synapses()[0].weight, 5_500_000);
    assert_eq!(plastic_arena[1].get_static_synapses()[0].weight, 6_000_000);
}

#[test]
fn test_plastic_static_fire_to_actuator_with_inhibition() {
    let bins = 8;
    let fire_threshold = 10_000_000;

    let mut s1 = SensoryNeuron::new();
    let mut s2 = SensoryNeuron::new();
    s1.set_measure(300_000);
    s2.set_measure(400_000);

    let mut plastic_arena = vec![
        PlasticNeuron::new(bins, fire_threshold),
        PlasticNeuron::new(bins, fire_threshold),
        PlasticNeuron::new(bins, fire_threshold),
    ];
    let mut actuator_arena = vec![ActuatorNeuron::new(bins, fire_threshold)];

    s1.add_plastic_synapse(7_000_000, SynapseType::Excitatory, SynapseTarget::Plastic(0));
    s1.add_plastic_synapse(5_000_000, SynapseType::Excitatory, SynapseTarget::Plastic(1));
    s1.add_plastic_synapse(8_000_000, SynapseType::Excitatory, SynapseTarget::Plastic(2));
    s2.add_plastic_synapse(6_000_000, SynapseType::Excitatory, SynapseTarget::Plastic(0));
    s2.add_plastic_synapse(6_500_000, SynapseType::Excitatory, SynapseTarget::Plastic(1));
    s2.add_plastic_synapse(3_000_000, SynapseType::Excitatory, SynapseTarget::Plastic(2));

    plastic_arena[0].add_static_synapse(5_500_000, SynapseType::Excitatory, SynapseTarget::Actuator(0));
    plastic_arena[1].add_static_synapse(8_000_000, SynapseType::Excitatory, SynapseTarget::Actuator(0));
    plastic_arena[2].add_static_synapse(2_000_000, SynapseType::Inhibitory, SynapseTarget::Actuator(0));

    let mut cycle = ChargeCycle::Even;
    for _ in 0..3 {
        run_sensory(&mut s1, cycle, &mut plastic_arena, &mut actuator_arena);
        run_sensory(&mut s2, cycle, &mut plastic_arena, &mut actuator_arena);
        run_plastic(0, cycle, &mut plastic_arena, &mut actuator_arena);
        run_plastic(1, cycle, &mut plastic_arena, &mut actuator_arena);
        run_plastic(2, cycle, &mut plastic_arena, &mut actuator_arena);
        actuator_arena[0].run_cycle(cycle);
        cycle = cycle.next_cycle();
    }

    assert_eq!(actuator_arena[0].read_measure(), 356_649);
}

#[test]
fn test_plastic_weight_change() {
    let bins = 8;
    let fire_threshold = 10_000_000;

    let mut s1 = SensoryNeuron::new();
    let mut s2 = SensoryNeuron::new();
    s1.set_measure(300_000);
    s2.set_measure(400_000);

    let mut plastic_arena = vec![
        PlasticNeuron::new(bins, fire_threshold),
        PlasticNeuron::new(bins, fire_threshold),
    ];
    let mut actuator_arena = vec![ActuatorNeuron::new(bins, fire_threshold)];

    s1.add_plastic_synapse(7_000_000, SynapseType::Excitatory, SynapseTarget::Plastic(0));
    s1.add_plastic_synapse(5_000_000, SynapseType::Excitatory, SynapseTarget::Plastic(1));
    s2.add_plastic_synapse(6_000_000, SynapseType::Excitatory, SynapseTarget::Plastic(0));
    s2.add_plastic_synapse(6_500_000, SynapseType::Excitatory, SynapseTarget::Plastic(1));

    plastic_arena[0].add_plastic_synapse(5_500_000, SynapseType::Excitatory, SynapseTarget::Actuator(0));
    plastic_arena[1].add_plastic_synapse(6_000_000, SynapseType::Excitatory, SynapseTarget::Actuator(0));

    let mut cycle = ChargeCycle::Even;
    for _ in 0..4 {
        run_sensory(&mut s1, cycle, &mut plastic_arena, &mut actuator_arena);
        run_sensory(&mut s2, cycle, &mut plastic_arena, &mut actuator_arena);
        run_plastic(0, cycle, &mut plastic_arena, &mut actuator_arena);
        run_plastic(1, cycle, &mut plastic_arena, &mut actuator_arena);
        actuator_arena[0].run_cycle(cycle);
        cycle = cycle.next_cycle();
    }

    // By the fourth cycle each plastic-to-actuator synapse has seen the
    // actuator's answering receipt against its own firing from two cycles
    // earlier, and adapted.
    assert_eq!(plastic_arena[0].get_plastic_synapses()[0].weight, 6_432_225);
    assert_eq!(plastic_arena[1].get_plastic_synapses()[0].weight, 6_937_863);
}
