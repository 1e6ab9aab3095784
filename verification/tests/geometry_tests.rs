use aesir::ConfigError;
use aesir::ecp_geometry::{EcpBox, EcpGeometry};

#[test]
fn test_get_next_plastic() {
    let ecp_box = EcpBox::new(27, 10, 10, 7).unwrap();

    let nex_loc = ecp_box.next_plastic_loc(&vec![0, 0, 0]).unwrap();
    assert_eq!(1, *nex_loc.get(0).unwrap());
    assert_eq!(0, *nex_loc.get(1).unwrap());
    assert_eq!(0, *nex_loc.get(2).unwrap());

    let nex_loc = ecp_box.next_plastic_loc(&vec![2, 0, 0]).unwrap();
    assert_eq!(0, *nex_loc.get(0).unwrap());
    assert_eq!(1, *nex_loc.get(1).unwrap());
    assert_eq!(0, *nex_loc.get(2).unwrap());

    let nex_loc = ecp_box.next_plastic_loc(&vec![2, 2, 0]).unwrap();
    assert_eq!(0, *nex_loc.get(0).unwrap());
    assert_eq!(0, *nex_loc.get(1).unwrap());
    assert_eq!(1, *nex_loc.get(2).unwrap());

    let nex_loc = ecp_box.next_plastic_loc(&vec![2, 2, 2]);
    assert_eq!(None, nex_loc);
}

#[test]
fn test_get_next_actuator() {
    let ecp_box = EcpBox::new(125, 10, 123, 7).unwrap();

    let nex_loc = ecp_box.next_actuator_loc(&vec![0, 5, 0]).unwrap();
    assert_eq!(1, *nex_loc.get(0).unwrap());
    assert_eq!(5, *nex_loc.get(1).unwrap());
    assert_eq!(0, *nex_loc.get(2).unwrap());

    let nex_loc = ecp_box.next_actuator_loc(&vec![4, 5, 0]).unwrap();
    assert_eq!(0, *nex_loc.get(0).unwrap());
    assert_eq!(5, *nex_loc.get(1).unwrap());
    assert_eq!(1, *nex_loc.get(2).unwrap());

    let nex_loc = ecp_box.next_actuator_loc(&vec![4, 5, 1]);
    assert_eq!(None, nex_loc);
}

#[test]
fn test_if_plastic_synapse_with_actuator() {
    let ecp_box = EcpBox::new(125, 10, 123, 26).unwrap();

    // Four actuators' windows (those anchored near the cube's low corner)
    // hold the plastic coordinate just under the actuator plane at (0, 4, 0):
    // they consume part of the nearby budget of 26.
    let (plastic, actuators) = ecp_box.get_nearby_rx_neurons(&vec![0, 4, 0]);
    assert_eq!(plastic.len(), 22);
    assert_eq!(actuators.len(), 4);

    let (plastic, actuators) = ecp_box.get_nearby_rx_neurons(&vec![0, 4, 2]);
    assert_eq!(plastic.len(), 22);
    assert_eq!(actuators.len(), 4);

    // The far corner of the cube sits outside every actuator window.
    let (plastic, actuators) = ecp_box.get_nearby_rx_neurons(&vec![4, 4, 4]);
    assert_eq!(plastic.len(), 26);
    assert_eq!(actuators.len(), 0);
}

/// Every plastic coordinate's destinations fill the nearby budget exactly.
#[test]
fn nearby_budget_filled_for_every_plastic_coord() {
    let g = EcpBox::new(125, 10, 123, 26).unwrap();
    for i in 0..g.get_num_plastic() as usize {
        let loc = g.plastic_coord_at(i);
        let (plastic, actuators) = g.get_nearby_rx_neurons(&loc);
        assert_eq!(plastic.len() + actuators.len(), 26);
    }
    for i in 0..(g.get_num_sensory() as usize) {
        let loc = g.sensory_coord_at(i);
        let (plastic, actuators) = g.get_nearby_rx_neurons(&loc);
        assert_eq!(plastic.len(), 26);
        assert_eq!(actuators.len(), 0);
    }
}

/// The adjacency registration is symmetric: the number of plastic
/// coordinates listing an actuator among their destinations equals the size
/// of that actuator's registration window (the window minus its corner).
#[test]
fn adjacency_registration_symmetry() {
    let g = EcpBox::new(125, 10, 123, 26).unwrap();
    let mut per_actuator = vec![0usize; 10];
    for i in 0..g.get_num_plastic() as usize {
        let loc = g.plastic_coord_at(i);
        let (_, actuators) = g.get_nearby_rx_neurons(&loc);
        for a in &actuators {
            let idx = (a[0] + 5 * a[2]) as usize;
            per_actuator[idx] += 1;
        }
    }
    for count in per_actuator {
        assert_eq!(count, 26);
    }
}

#[test]
fn geometry_construction_errors() {
    assert!(matches!(EcpBox::new(0, 1, 1, 7), Err(ConfigError::EmptyPopulation)));
    assert!(matches!(EcpBox::new(8, 0, 1, 7), Err(ConfigError::EmptyPopulation)));
    assert!(matches!(EcpBox::new(10, 1, 1, 7), Err(ConfigError::PlasticNotCube)));
    assert!(matches!(EcpBox::new(8, 1, 1, 8), Err(ConfigError::NearbyNotCube)));
    assert!(matches!(EcpBox::new(8, 1, 1, 26), Err(ConfigError::WindowTooLarge)));
    assert!(EcpBox::new(8, 1, 1, 7).is_ok());
}

#[test]
fn coordinate_enumeration_order() {
    let g = EcpBox::new(27, 2, 4, 7).unwrap();
    assert_eq!(g.plastic_coord_at(0), vec![0, 0, 0]);
    assert_eq!(g.plastic_coord_at(1), vec![1, 0, 0]);
    assert_eq!(g.plastic_coord_at(3), vec![0, 1, 0]);
    assert_eq!(g.plastic_coord_at(9), vec![0, 0, 1]);
    assert_eq!(g.actuator_coord_at(0), vec![0, 3, 0]);
    assert_eq!(g.actuator_coord_at(1), vec![1, 3, 0]);
    assert_eq!(g.sensory_coord_at(0), vec![0, -1, 0]);
    assert_eq!(g.sensory_coord_at(3), vec![1, -1, 1]);
    assert_eq!(g.first_plastic_loc(), vec![0, 0, 0]);
    assert_eq!(g.first_actuator_loc(), vec![0, 3, 0]);
    assert_eq!(g.first_sensory_loc(), vec![0, -1, 0]);
    let next = g.next_sensory_loc(&vec![1, -1, 0]).unwrap();
    assert_eq!(next, vec![0, -1, 1]);
    assert_eq!(g.next_sensory_loc(&vec![1, -1, 1]), None);
}
