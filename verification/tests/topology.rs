use debate_sim::{Topology, TopologyBuilder};

#[test]
fn test_add_connection() {
    let mut topology = Topology::new();
    let agent_a: u32 = 1;
    let agent_b: u32 = 2;

    topology.add_connection(agent_a, agent_b);

    assert!(topology.are_connected(agent_a, agent_b));
    assert!(topology.are_connected(agent_b, agent_a)); // test both directions as well
    assert_eq!(topology.get_degree(agent_a), 1);
    assert_eq!(topology.get_degree(agent_b), 1);
}

#[test]
fn test_get_neighbors() {
    let mut topology = Topology::new();
    let agent_a: u32 = 1;
    let agent_b: u32 = 2;
    let agent_c: u32 = 3;

    topology.add_connection(agent_a, agent_b);
    topology.add_connection(agent_a, agent_c);

    let neighbors = topology.get_neighbors(agent_a);
    assert_eq!(neighbors.len(), 2);
    assert!(neighbors.contains(&agent_b));
    assert!(neighbors.contains(&agent_c));
}

#[test]
fn test_fully_connected() {
    let agents: Vec<u32> = (0..4).collect();
    let topology = TopologyBuilder::fully_connected(&agents);

    // each agent should have 3 conn
    for agent in &agents {
        assert_eq!(topology.get_degree(*agent), 3);
    }
}

#[test]
fn test_add_connection_idempotent() {
    let mut topology = Topology::new();
    topology.add_connection(4, 7);
    topology.add_connection(7, 4);
    topology.add_connection(4, 7);
    topology.add_connection(5, 5);

    assert_eq!(topology.connection_count(), 1);
    assert!(!topology.are_connected(5, 5));
}

#[test]
fn test_remove_connection() {
    let mut topology = Topology::new();
    topology.add_connection(1, 2);
    topology.add_connection(1, 3);

    topology.remove_connection(2, 1);

    assert!(!topology.are_connected(1, 2));
    assert!(topology.are_connected(1, 3));
    assert_eq!(topology.connection_count(), 1);
}

#[test]
fn test_all_connections_listed_once() {
    let mut topology = Topology::new();
    topology.add_connection(2, 1);
    topology.add_connection(2, 3);

    let edges = topology.get_all_connections();
    assert_eq!(edges.len(), 2);
    assert!(edges.contains(&(1, 2)));
    assert!(edges.contains(&(2, 3)));

    let mut ids = topology.get_all_agent_ids();
    ids.sort();
    assert_eq!(ids, vec![1, 2, 3]);
}

#[test]
fn test_ring_topology() {
    let topology = TopologyBuilder::ring(&[0, 1, 2, 3]);

    assert!(topology.are_connected(0, 1));
    assert!(topology.are_connected(1, 2));
    assert!(topology.are_connected(2, 3));
    assert!(topology.are_connected(3, 0));
    assert!(!topology.are_connected(0, 2));
    assert_eq!(topology.connection_count(), 4);
}

#[test]
fn test_star_topology() {
    let topology = TopologyBuilder::star(2, &[0, 1, 3]);

    assert!(topology.are_connected(2, 0));
    assert!(topology.are_connected(2, 1));
    assert!(topology.are_connected(2, 3));
    assert!(!topology.are_connected(0, 1));
    assert_eq!(topology.get_degree(2), 3);
    assert_eq!(topology.connection_count(), 3);
}
