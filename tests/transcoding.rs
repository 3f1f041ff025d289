use migration_tool::cert::CertAndKey;
use migration_tool::current::{Config, DEFAULT_BLOCK_LIMIT, DEFAULT_PACKAGE_LIMIT};
use migration_tool::legacy::{
    ConsensusConfig, ControllerConfig, Genesis, InitSysConfig, NetworkConfig, PeerConfig,
};
use migration_tool::migrate::{
    build_meta_config, order_node_dirs, parse_decimal_u64, MigrateError, NodeConfigMigrate,
    NodeFiles,
};

fn files(key_id: &str) -> NodeFiles {
    NodeFiles {
        controller: ControllerConfig {
            network_port: 50000,
            consensus_port: 50001,
            storage_port: 50003,
            kms_port: 50005,
            executor_port: 50002,
            block_delay_number: 6,
        },
        consensus: ConsensusConfig { controller_port: 50004 },
        network: NetworkConfig {
            port: 40000,
            peers: vec![
                PeerConfig { ip: "10.0.0.2".to_string(), port: 40001 },
                PeerConfig { ip: "10.0.0.3".to_string(), port: 40002 },
            ],
        },
        node_address: "0xabc".to_string(),
        init_sys_config: InitSysConfig {
            version: 7,
            admin: "0xadmin".to_string(),
            block_interval: 3,
            chain_id: "0xchain".to_string(),
            validators: vec!["0xv1".to_string(), "0xv2".to_string()],
        },
        genesis: Genesis { timestamp: 1234, prevhash: "0x00".to_string() },
        key_id: key_id.to_string(),
        key_file: "secret".to_string(),
    }
}

#[test]
fn decimal_key_ids() {
    assert_eq!(parse_decimal_u64("42"), Some(42));
    assert_eq!(parse_decimal_u64("+7"), Some(7));
    assert_eq!(parse_decimal_u64("007"), Some(7));
    assert_eq!(parse_decimal_u64("18446744073709551615"), Some(u64::MAX));
    assert_eq!(parse_decimal_u64("18446744073709551616"), None);
    assert_eq!(parse_decimal_u64(""), None);
    assert_eq!(parse_decimal_u64("+"), None);
    assert_eq!(parse_decimal_u64("-1"), None);
    assert_eq!(parse_decimal_u64("1\n"), None);
    assert_eq!(parse_decimal_u64("1a"), None);
}

#[test]
fn extract_assembles_the_files() {
    let m = NodeConfigMigrate::extract_from(files("12")).ok().expect("valid key id");
    assert_eq!(m.key_id, 12);
    assert_eq!(m.controller_port, 50004);
    assert_eq!(m.consensus_port, 50001);
    assert_eq!(m.network_port, 50000);
    assert_eq!(m.node_addr, "0xabc");
    assert_eq!(m.kms_password, "secret");
    assert_eq!(m.block_delay_number, 6);
    assert_eq!(m.network_config.peers.len(), 2);
}

#[test]
fn invalid_key_id_is_rejected() {
    assert!(matches!(
        NodeConfigMigrate::extract_from(files("twelve")),
        Err(MigrateError::InvalidKeyId)
    ));
    assert!(matches!(NodeConfigMigrate::from_old(files("")), Err(MigrateError::InvalidKeyId)));
}

#[test]
fn upgraded_configuration_carries_the_old_fields() {
    let c: Config = NodeConfigMigrate::from_old(files("3")).ok().expect("valid key id");
    assert_eq!(c.controller.consensus_port, 50001);
    assert_eq!(c.controller.controller_port, 50004);
    assert_eq!(c.controller.executor_port, 50002);
    assert_eq!(c.controller.storage_port, 50003);
    assert_eq!(c.controller.kms_port, 50005);
    assert_eq!(c.controller.network_port, 50000);
    assert_eq!(c.controller.key_id, 3);
    assert_eq!(c.controller.node_address, "0xabc");
    assert_eq!(c.controller.package_limit, 30000);
    assert_eq!(DEFAULT_PACKAGE_LIMIT, 30000);
    assert_eq!(c.consensus.controller_port, 50004);
    assert_eq!(c.consensus.grpc_listen_port, 50001);
    assert_eq!(c.consensus.network_port, 50000);
    assert_eq!(c.consensus.node_addr, "0xabc");
    assert_eq!(c.kms.kms_port, 50005);
    assert_eq!(c.storage.kms_port, 50005);
    assert_eq!(c.storage.storage_port, 50003);
    assert_eq!(c.executor.executor_port, 50002);
    assert_eq!(c.genesis_block.prevhash, "0x00");
    assert_eq!(c.genesis_block.timestamp, 1234);
    assert_eq!(c.system_config.admin, "0xadmin");
    assert_eq!(c.system_config.block_interval, 3);
    assert_eq!(c.system_config.block_limit, 100);
    assert_eq!(DEFAULT_BLOCK_LIMIT, 100);
    assert_eq!(c.system_config.chain_id, "0xchain");
    assert_eq!(c.system_config.version, 7);
    assert_eq!(c.system_config.validators, vec!["0xv1".to_string(), "0xv2".to_string()]);
    assert_eq!(c.network.grpc_port, 50000);
    assert_eq!(c.network.listen_port, 40000);
    assert!(c.network.ca_cert.is_none() && c.network.cert.is_none());
    let peers: Vec<(Option<String>, String, u16)> =
        c.network.peers.iter().map(|p| (p.domain.clone(), p.host.clone(), p.port)).collect();
    assert_eq!(
        peers,
        vec![(None, "10.0.0.2".to_string(), 40001), (None, "10.0.0.3".to_string(), 40002)]
    );
    assert!(c.network_host.is_none() && c.network_port.is_none());
}

#[test]
fn metadata_samples_the_first_node() {
    let mut first = NodeConfigMigrate::from_old(files("3")).ok().unwrap();
    first.network_host = Some("10.0.0.1".to_string());
    first.network_port = Some(40000);
    let mut second = NodeConfigMigrate::from_old(files("4")).ok().unwrap();
    second.controller.node_address = "0xdef".to_string();
    second.controller.controller_port = 51004;
    let nodes = vec![first, second];
    let ca = CertAndKey { cert: "CERT".to_string(), key: "KEY".to_string() };
    let m = build_meta_config(&nodes, ca, &"9".to_string()).ok().expect("valid key id");
    let peers: Vec<(Option<String>, String, u16)> =
        m.network.peers.iter().map(|p| (p.domain.clone(), p.host.clone(), p.port)).collect();
    assert_eq!(
        peers,
        vec![
            (Some("0xabc".to_string()), "10.0.0.1".to_string(), 40000),
            (None, "10.0.0.2".to_string(), 40001),
            (None, "10.0.0.3".to_string(), 40002),
        ]
    );
    assert_eq!(m.current_config.ips, vec!["10.0.0.1", "10.0.0.2", "10.0.0.3"]);
    assert_eq!(m.current_config.p2p_ports, vec![40000, 40001, 40002]);
    assert_eq!(m.current_config.rpc_ports, vec![50004, 51004]);
    assert_eq!(m.current_config.addresses, vec!["0xabc", "0xdef"]);
    assert_eq!(m.current_config.count, 2);
    assert_eq!(m.current_config.ca_cert_pem, "CERT");
    assert_eq!(m.current_config.ca_key_pem, "KEY");
    assert!(!m.current_config.use_num);
    assert_eq!(m.current_config.tls_peers.peers.len(), 3);
    assert_eq!(m.admin_config.admin_address, "0xadmin");
    assert_eq!(m.admin_config.key_id, 9);
    assert_eq!(m.genesis_block.timestamp, 1234);
    assert_eq!(m.system_config.chain_id, "0xchain");
}

#[test]
fn metadata_rejects_an_invalid_admin_key_id() {
    let mut first = NodeConfigMigrate::from_old(files("3")).ok().unwrap();
    first.network_host = Some("10.0.0.1".to_string());
    first.network_port = Some(40000);
    let ca = CertAndKey { cert: "CERT".to_string(), key: "KEY".to_string() };
    assert!(matches!(
        build_meta_config(&vec![first], ca, &"x".to_string()),
        Err(MigrateError::InvalidKeyId)
    ));
}

#[test]
fn node_dirs_are_ordered_by_number() {
    let names: Vec<String> = ["chain", "chain2", "chain0", "chain10", "other", "chain1", "xchain3"]
        .iter()
        .map(|s| s.to_string())
        .collect();
    let ordered = order_node_dirs(&names, &"chain".to_string()).ok().expect("all numbered");
    assert_eq!(ordered, vec!["chain0", "chain1", "chain2", "chain10"]);
}

#[test]
fn node_dir_without_number_is_rejected() {
    let names: Vec<String> = ["chain0", "chain-meta"].iter().map(|s| s.to_string()).collect();
    match order_node_dirs(&names, &"chain".to_string()) {
        Err(MigrateError::InvalidNodeDir(n)) => assert_eq!(n, "chain-meta"),
        _ => panic!("expected an invalid node directory"),
    }
}

#[test]
fn no_node_dirs_give_an_empty_order() {
    let names: Vec<String> = vec!["chain".to_string()];
    assert_eq!(order_node_dirs(&names, &"chain".to_string()).ok(), Some(vec![]));
}
