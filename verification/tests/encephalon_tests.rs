use aesir::ConfigError;
use aesir::ecp_geometry::{EcpBox, EcpGeometry};
use aesir::encephalon::Encephalon;
use aesir::neuron::{BasicWeightModifier, SynapseType};
use aesir::reflex::Reflex;

fn names(list: &[&str]) -> Vec<String> {
    list.iter().map(|s| (*s).to_string()).collect()
}

fn basic_reflexes() -> Vec<Reflex> {
    vec![
        Reflex::new("1".to_string(), "act1".to_string(), SynapseType::Excitatory, 20_000_000),
        Reflex::new("2".to_string(), "act1".to_string(), SynapseType::Inhibitory, 20_000_000),
        Reflex::new("1".to_string(), "act2".to_string(), SynapseType::Excitatory, 20_000_000),
        Reflex::new("3".to_string(), "act3".to_string(), SynapseType::Inhibitory, 20_000_000),
    ]
}

#[test]
fn basic_encephalon_test() {
    let ecp_g = EcpBox::new(216, 3, 4, 26).unwrap();

    let mut ecp = Encephalon::new(
        ecp_g,
        names(&["1", "2", "3", "4"]),
        names(&["act1", "act2", "act3"]),
        basic_reflexes(),
        10,
        BasicWeightModifier,
        2_000_000,
        10_000_000,
        (2_000_000, 5_000_000),
        7,
    )
    .unwrap();

    // Every plastic and sensory neuron makes exactly the nearby budget of
    // connections.
    for i in 0..216 {
        assert_eq!(26, ecp.plastic_synapse_count(i));
    }
    for i in 0..4 {
        assert_eq!(26, ecp.sensory_synapse_count(i));
    }

    // Static synapses come from the reflex records, per named sensor.
    assert_eq!(ecp.sensory_static_count(0), 2);
    assert_eq!(ecp.sensory_static_count(1), 1);
    assert_eq!(ecp.sensory_static_count(2), 1);
    assert_eq!(ecp.sensory_static_count(3), 0);

    // Drawn weights respect the configured range.
    for i in 0..216 {
        for j in 0..ecp.plastic_synapse_count(i) {
            let s = ecp.plastic_synapse(i, j);
            assert!(2_000_000 <= s.weight && s.weight < 5_000_000);
        }
    }

    // The network cycles without failing and stays in range.
    for _ in 0..10 {
        let out = ecp.run_cycle(&vec![500_000, 500_000, 500_000, 500_000]);
        assert_eq!(out.len(), 3);
        for v in out {
            assert!(v <= 1_000_000);
        }
    }
}

/// An end-to-end scenario on the smallest cube: one sensor wired to one
/// actuator through an excitatory reflex of weight 20; after 100 cycles the
/// process has not failed and the actuator's last pushed value lies in
/// [0, 1].
#[test]
fn end_to_end_reflex_scenario() {
    let ecp_g = EcpBox::new(8, 1, 1, 7).unwrap();
    let mut ecp = Encephalon::new(
        ecp_g,
        names(&["in"]),
        names(&["out"]),
        vec![Reflex::new("in".to_string(), "out".to_string(), SynapseType::Excitatory, 20_000_000)],
        10,
        BasicWeightModifier,
        2_000_000,
        10_000_000,
        (2_000_000, 5_000_000),
        11,
    )
    .unwrap();

    let mut last = 0;
    for _ in 0..100 {
        let out = ecp.run_cycle(&vec![800_000]);
        assert_eq!(out.len(), 1);
        last = out[0];
    }
    assert!(last <= 1_000_000);
    // The reflex weight of 20 is far above the firing threshold of 10, so
    // the actuator has fired and reports the sensor's measure.
    assert_eq!(last, 800_000);
}

/// Static cycles never alter any synapse's weight, even across repeated
/// calls with varying sensor input.
#[test]
fn static_cycles_keep_every_weight() {
    let ecp_g = EcpBox::new(27, 2, 4, 7).unwrap();
    let mut ecp = Encephalon::new(
        ecp_g,
        names(&["a", "b", "c", "d"]),
        names(&["x", "y"]),
        vec![Reflex::new("a".to_string(), "x".to_string(), SynapseType::Excitatory, 15_000_000)],
        8,
        BasicWeightModifier,
        4_000_000,
        5_000_000,
        (1_000_000, 9_000_000),
        3,
    )
    .unwrap();

    let mut before: Vec<u64> = Vec::new();
    for i in 0..27 {
        for j in 0..ecp.plastic_synapse_count(i) {
            before.push(ecp.plastic_synapse(i, j).weight);
        }
    }
    for i in 0..4 {
        for j in 0..ecp.sensory_synapse_count(i) {
            before.push(ecp.sensory_synapse(i, j).weight);
        }
        for j in 0..ecp.sensory_static_count(i) {
            before.push(ecp.sensory_static_synapse(i, j).weight);
        }
    }

    let inputs = [
        vec![900_000, 100_000, 500_000, 0],
        vec![0, 1_000_000, 250_000, 750_000],
        vec![333_333, 666_666, 999_999, 1],
    ];
    for _ in 0..4 {
        for input in &inputs {
            let _ = ecp.run_static_cycle(input);
        }
    }

    let mut after: Vec<u64> = Vec::new();
    for i in 0..27 {
        for j in 0..ecp.plastic_synapse_count(i) {
            after.push(ecp.plastic_synapse(i, j).weight);
        }
    }
    for i in 0..4 {
        for j in 0..ecp.sensory_synapse_count(i) {
            after.push(ecp.sensory_synapse(i, j).weight);
        }
        for j in 0..ecp.sensory_static_count(i) {
            after.push(ecp.sensory_static_synapse(i, j).weight);
        }
    }
    assert_eq!(before, after);
}

/// Two freshly constructed, identically parameterized networks with the
/// same seed, fed identical sensor sequences, produce identical actuator
/// outputs cycle for cycle.
#[test]
fn identical_seeds_reproduce_outputs() {
    let build = || {
        Encephalon::new(
            EcpBox::new(27, 2, 4, 7).unwrap(),
            names(&["a", "b", "c", "d"]),
            names(&["x", "y"]),
            vec![Reflex::new("b".to_string(), "y".to_string(), SynapseType::Excitatory, 12_000_000)],
            8,
            BasicWeightModifier,
            4_000_000,
            5_000_000,
            (1_000_000, 9_000_000),
            99,
        )
        .unwrap()
    };
    let mut e1 = build();
    let mut e2 = build();
    for step in 0..30u64 {
        let v = (step * 31_337) % 1_000_001;
        let input = vec![v, 1_000_000 - v, (v * 2) % 1_000_001, v / 2];
        let o1 = e1.run_cycle(&input);
        let o2 = e2.run_cycle(&input);
        assert_eq!(o1, o2);
    }
}

/// Learning cycles and inference cycles interleave with `clear` between
/// examples without failing; `clear` keeps the learned weights.
#[test]
fn clear_keeps_weights() {
    let mut ecp = Encephalon::new(
        EcpBox::new(8, 1, 1, 7).unwrap(),
        names(&["in"]),
        names(&["out"]),
        Vec::new(),
        10,
        BasicWeightModifier,
        2_000_000,
        3_000_000,
        (2_000_000, 5_000_000),
        5,
    )
    .unwrap();
    for _ in 0..10 {
        let _ = ecp.run_cycle(&vec![700_000]);
    }
    let mut weights: Vec<u64> = Vec::new();
    for i in 0..8 {
        for j in 0..ecp.plastic_synapse_count(i) {
            weights.push(ecp.plastic_synapse(i, j).weight);
        }
    }
    ecp.clear();
    let mut after: Vec<u64> = Vec::new();
    for i in 0..8 {
        for j in 0..ecp.plastic_synapse_count(i) {
            after.push(ecp.plastic_synapse(i, j).weight);
        }
    }
    assert_eq!(weights, after);
}

#[test]
fn encephalon_construction_errors() {
    let g = || EcpBox::new(8, 1, 1, 7).unwrap();
    let m = BasicWeightModifier;
    let r = Encephalon::new(g(), names(&["a", "b"]), names(&["x"]), Vec::new(), 10, m, 1, 1, (1, 2), 0);
    assert!(matches!(r, Err(ConfigError::SensorCountMismatch)));
    let r = Encephalon::new(g(), names(&["a"]), names(&["x", "y"]), Vec::new(), 10, m, 1, 1, (1, 2), 0);
    assert!(matches!(r, Err(ConfigError::ActuatorCountMismatch)));
    let r = Encephalon::new(g(), names(&["a"]), names(&["x"]), Vec::new(), 0, m, 1, 1, (1, 2), 0);
    assert!(matches!(r, Err(ConfigError::NoChargeBins)));
    let r = Encephalon::new(g(), names(&["a"]), names(&["x"]), Vec::new(), 10, m, 0, 1, (1, 2), 0);
    assert!(matches!(r, Err(ConfigError::NonPositiveTypeRatio)));
    let r = Encephalon::new(g(), names(&["a"]), names(&["x"]), Vec::new(), 10, m, 1, 1, (2, 2), 0);
    assert!(matches!(r, Err(ConfigError::EmptyWeightRange)));
    let bad_reflex = vec![Reflex::new("ghostly".to_string(), "x".to_string(), SynapseType::Excitatory, 1)];
    let r = Encephalon::new(g(), names(&["a"]), names(&["x"]), bad_reflex, 10, m, 1, 1, (1, 2), 0);
    assert!(matches!(r, Err(ConfigError::UnknownReflexName)));
}

/// A late-bound reflex sensor joins the input ordering and wires its static
/// synapses; a reflex naming an unbound actuator is refused.
#[test]
fn add_reflex_sensor_binds_and_wires() {
    let mut ecp = Encephalon::new(
        EcpBox::new(8, 1, 1, 7).unwrap(),
        names(&["in"]),
        names(&["out"]),
        Vec::new(),
        10,
        BasicWeightModifier,
        2_000_000,
        10_000_000,
        (2_000_000, 5_000_000),
        5,
    )
    .unwrap();
    assert_eq!(ecp.num_sensor_inputs(), 1);
    let teach = vec![Reflex::new("teach".to_string(), "out".to_string(), SynapseType::Excitatory, 40_000_000)];
    ecp.add_reflex_sensor("teach".to_string(), 0, teach).unwrap();
    assert_eq!(ecp.num_sensor_inputs(), 2);
    assert_eq!(ecp.sensory_static_count(1), 1);
    // The teaching input now comes first and drives the actuator.
    let mut last = 0;
    for _ in 0..10 {
        let out = ecp.run_cycle(&vec![900_000, 100_000]);
        last = out[0];
    }
    assert_eq!(last, 900_000);

    let bad = vec![Reflex::new("t2".to_string(), "nowhere".to_string(), SynapseType::Excitatory, 1)];
    let r = ecp.add_reflex_sensor("t2".to_string(), 9, bad);
    assert!(matches!(r, Err(ConfigError::UnknownReflexName)));
}
