use migration_tool::binding::{bind_peers, fill_network_tls_info, BindingError, TlsSetupError};
use migration_tool::cert::generate_certs;
use migration_tool::current::{
    Config, ConsensusRaftConfig, ControllerConfig, ExecutorEvmConfig, GenesisBlock, KmsSmConfig,
    NetworkTlsConfig, NetworkTlsPeerConfig, StorageRocksDbConfig, SystemConfig,
};
use migration_tool::topology::{resolve, ResolutionError};

fn ep(name: &str) -> (String, u16) {
    match name {
        "A" => ("10.0.0.1".to_string(), 40000),
        "B" => ("10.0.0.2".to_string(), 40001),
        "C" => ("10.0.0.3".to_string(), 40002),
        "D" => ("10.0.0.4".to_string(), 40003),
        _ => ("192.168.9.9".to_string(), 50000),
    }
}

fn node(address: &str, peers: &[&str]) -> Config {
    Config {
        controller: ControllerConfig {
            consensus_port: 50001,
            controller_port: 50004,
            executor_port: 50002,
            storage_port: 50003,
            kms_port: 50005,
            network_port: 50000,
            key_id: 1,
            node_address: address.to_string(),
            package_limit: 30000,
        },
        consensus: ConsensusRaftConfig {
            controller_port: 50004,
            grpc_listen_port: 50001,
            network_port: 50000,
            node_addr: address.to_string(),
        },
        network: NetworkTlsConfig {
            ca_cert: None,
            cert: None,
            grpc_port: 50000,
            listen_port: 40000,
            peers: peers
                .iter()
                .map(|p| {
                    let (host, port) = ep(p);
                    NetworkTlsPeerConfig { domain: None, host, port }
                })
                .collect(),
        },
        kms: KmsSmConfig { kms_port: 50005 },
        storage: StorageRocksDbConfig { kms_port: 50005, storage_port: 50003 },
        executor: ExecutorEvmConfig { executor_port: 50002 },
        genesis_block: GenesisBlock { prevhash: "0x00".to_string(), timestamp: 1 },
        system_config: SystemConfig {
            admin: "admin".to_string(),
            block_interval: 3,
            block_limit: 100,
            chain_id: "chain".to_string(),
            version: 0,
            validators: vec![],
        },
        network_host: None,
        network_port: None,
    }
}

fn four_nodes() -> Vec<Config> {
    vec![
        node("A", &["B", "C", "D"]),
        node("B", &["A", "C", "D"]),
        node("C", &["A", "B", "D"]),
        node("D", &["A", "B", "C"]),
    ]
}

fn self_of(c: &Config) -> Option<(String, u16)> {
    match (&c.network_host, c.network_port) {
        (Some(h), Some(p)) => Some((h.clone(), p)),
        _ => None,
    }
}

#[test]
fn four_nodes_resolve_to_their_own_endpoints() {
    let mut nodes = four_nodes();
    let book = resolve(&mut nodes).ok().expect("consistent deployment resolves");
    for (c, name) in nodes.iter().zip(["A", "B", "C", "D"]) {
        assert_eq!(self_of(c), Some(ep(name)));
    }
    for name in ["A", "B", "C", "D"] {
        let (host, port) = ep(name);
        assert_eq!(book.lookup(&host, port), Some(name.to_string()));
    }
    let (host, port) = ep("X");
    assert_eq!(book.lookup(&host, port), None);
}

#[test]
fn four_nodes_bind_peer_identities() {
    let mut nodes = four_nodes();
    let book = resolve(&mut nodes).ok().expect("consistent deployment resolves");
    let addrs: Vec<String> = nodes.iter().map(|c| c.controller.node_address.clone()).collect();
    let (ca, leaves) = generate_certs(&addrs).ok().expect("issuance");
    assert!(bind_peers(&mut nodes, &book, &ca.cert, &leaves).is_ok());
    let a = &nodes[0];
    let bound: Vec<(String, u16, Option<String>)> = a
        .network
        .peers
        .iter()
        .map(|p| (p.host.clone(), p.port, p.domain.clone()))
        .collect();
    let expected: Vec<(String, u16, Option<String>)> = ["B", "C", "D"]
        .iter()
        .map(|n| {
            let (h, p) = ep(n);
            (h, p, Some(n.to_string()))
        })
        .collect();
    assert_eq!(bound, expected);
    for (i, c) in nodes.iter().enumerate() {
        assert_eq!(c.network.ca_cert.as_deref(), Some(ca.cert.as_str()));
        assert_eq!(c.network.cert.as_deref(), Some(leaves[i].cert.as_str()));
    }
}

#[test]
fn two_nodes_resolve() {
    let mut nodes = vec![node("A", &["B"]), node("B", &["A"])];
    assert!(resolve(&mut nodes).is_ok());
    assert_eq!(self_of(&nodes[0]), Some(ep("A")));
    assert_eq!(self_of(&nodes[1]), Some(ep("B")));
}

#[test]
fn resolved_endpoint_is_never_declared() {
    let mut nodes = four_nodes();
    assert!(resolve(&mut nodes).is_ok());
    for c in &nodes {
        let me = self_of(c).unwrap();
        assert!(c.network.peers.iter().all(|p| (p.host.clone(), p.port) != me));
    }
}

#[test]
fn order_after_first_two_does_not_matter() {
    let mut nodes = four_nodes();
    let mut swapped = vec![
        node("A", &["B", "C", "D"]),
        node("B", &["A", "C", "D"]),
        node("D", &["A", "B", "C"]),
        node("C", &["A", "B", "D"]),
    ];
    assert!(resolve(&mut nodes).is_ok());
    assert!(resolve(&mut swapped).is_ok());
    assert_eq!(self_of(&nodes[2]), self_of(&swapped[3]));
    assert_eq!(self_of(&nodes[3]), self_of(&swapped[2]));
    assert_eq!(self_of(&swapped[2]), Some(ep("D")));
}

#[test]
fn self_reference_is_inconsistent() {
    let mut nodes = four_nodes();
    nodes[0] = node("A", &["A", "B", "C", "D"]);
    let r = resolve(&mut nodes);
    assert!(matches!(r, Err(ResolutionError::InconsistentTopology(0))));
    assert!(nodes.iter().all(|c| self_of(c).is_none()));
}

#[test]
fn missing_peer_is_inconsistent() {
    let mut nodes = four_nodes();
    nodes[2] = node("C", &["A", "B"]);
    let r = resolve(&mut nodes);
    assert!(matches!(r, Err(ResolutionError::InconsistentTopology(2))));
    assert!(nodes.iter().all(|c| self_of(c).is_none()));
}

#[test]
fn single_node_is_inconsistent() {
    let mut nodes = vec![node("A", &["B"])];
    assert!(matches!(resolve(&mut nodes), Err(ResolutionError::InconsistentTopology(0))));
}

#[test]
fn no_nodes_resolve_trivially() {
    let mut nodes: Vec<Config> = vec![];
    let book = resolve(&mut nodes).ok().expect("nothing to resolve");
    let (host, port) = ep("A");
    assert_eq!(book.lookup(&host, port), None);
}

#[test]
fn unknown_peer_fails_binding() {
    let mut nodes = four_nodes();
    nodes[3] = node("D", &["A", "B", "C", "X"]);
    let r = fill_network_tls_info(&mut nodes);
    match r {
        Err(TlsSetupError::Binding(BindingError::UnknownPeerEndpoint(e))) => {
            assert_eq!((e.host, e.port), ep("X"));
        }
        _ => panic!("expected an unknown peer endpoint"),
    }
    assert!(nodes.iter().all(|c| self_of(c).is_none() && c.network.cert.is_none()));
    assert!(nodes.iter().all(|c| c.network.peers.iter().all(|p| p.domain.is_none())));
}

#[test]
fn inconsistent_nodes_are_left_unchanged_by_tls_setup() {
    let mut nodes = four_nodes();
    nodes[1] = node("B", &["A", "B", "C", "D"]);
    let r = fill_network_tls_info(&mut nodes);
    assert!(matches!(
        r,
        Err(TlsSetupError::Resolution(ResolutionError::InconsistentTopology(1)))
    ));
    assert!(nodes.iter().all(|c| self_of(c).is_none() && c.network.cert.is_none()));
}

#[test]
fn tls_setup_provisions_every_node() {
    let mut nodes = four_nodes();
    let ca = fill_network_tls_info(&mut nodes).ok().expect("setup succeeds");
    assert!(ca.cert.starts_with("-----BEGIN CERTIFICATE-----"));
    assert!(ca.key.contains("PRIVATE KEY"));
    for (c, name) in nodes.iter().zip(["A", "B", "C", "D"]) {
        assert_eq!(self_of(c), Some(ep(name)));
        assert_eq!(c.network.ca_cert.as_deref(), Some(ca.cert.as_str()));
        assert!(c.network.cert.is_some());
        for p in &c.network.peers {
            let expected = ["A", "B", "C", "D"]
                .iter()
                .find(|n| ep(n) == (p.host.clone(), p.port))
                .unwrap();
            assert_eq!(p.domain.as_deref(), Some(*expected));
        }
    }
}
