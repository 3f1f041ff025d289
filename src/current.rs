//! Records of the upgraded configuration layout, as plain values. The
//! optional fields start unset and are filled by peer resolution and
//! certificate binding.
use vstd::prelude::*;

verus! {

/// Block limit written into every upgraded system configuration.
pub const DEFAULT_BLOCK_LIMIT: u64 = 100;

/// Package limit written into every upgraded controller configuration.
pub const DEFAULT_PACKAGE_LIMIT: u64 = 30000;

#[derive(Clone, Debug)]
pub struct ControllerConfig {
    pub consensus_port: u16,
    pub controller_port: u16,
    pub executor_port: u16,
    pub storage_port: u16,
    pub kms_port: u16,
    pub network_port: u16,
    pub key_id: u64,
    pub node_address: String,
    pub package_limit: u64,
}

#[derive(Clone, Debug)]
pub struct ConsensusRaftConfig {
    pub controller_port: u16,
    pub grpc_listen_port: u16,
    pub network_port: u16,
    pub node_addr: String,
}

#[derive(Clone, Debug)]
pub struct GenesisBlock {
    pub prevhash: String,
    pub timestamp: u64,
}

#[derive(Clone, Debug)]
pub struct SystemConfig {
    pub admin: String,
    pub block_interval: u64,
    pub block_limit: u64,
    pub chain_id: String,
    pub version: u64,
    pub validators: Vec<String>,
}

/// Network section of a node: its TLS material and its peers.
#[derive(Clone, Debug)]
pub struct NetworkTlsConfig {
    pub ca_cert: Option<String>,
    pub cert: Option<String>,
    pub grpc_port: u16,
    pub listen_port: u16,
    pub peers: Vec<NetworkTlsPeerConfig>,
}

/// A peer endpoint, with the logical address its certificate must carry
/// once bound.
#[derive(Clone, Debug)]
pub struct NetworkTlsPeerConfig {
    pub domain: Option<String>,
    pub host: String,
    pub port: u16,
}

#[derive(Clone, Debug)]
pub struct KmsSmConfig {
    pub kms_port: u16,
}

#[derive(Clone, Debug)]
pub struct StorageRocksDbConfig {
    pub kms_port: u16,
    pub storage_port: u16,
}

#[derive(Clone, Debug)]
pub struct ExecutorEvmConfig {
    pub executor_port: u16,
}

/// Configuration of one node in the upgraded layout. `network_host` and
/// `network_port` hold the node's own endpoint once resolved; they are not
/// part of the written file.
#[derive(Clone, Debug)]
pub struct Config {
    pub controller: ControllerConfig,
    pub consensus: ConsensusRaftConfig,
    pub network: NetworkTlsConfig,
    pub kms: KmsSmConfig,
    pub storage: StorageRocksDbConfig,
    pub executor: ExecutorEvmConfig,
    pub genesis_block: GenesisBlock,
    pub system_config: SystemConfig,
    pub network_host: Option<String>,
    pub network_port: Option<u16>,
}

/// Chain-wide metadata of the upgraded layout.
#[derive(Clone, Debug)]
pub struct MetaConfig {
    pub network: MetaNetworkConfig,
    pub genesis_block: GenesisBlock,
    pub system_config: SystemConfig,
    pub admin_config: MetaAdminConfig,
    pub current_config: MetaCurrentConfig,
}

#[derive(Clone, Debug)]
pub struct MetaAdminConfig {
    pub admin_address: String,
    pub key_id: u64,
}

#[derive(Clone, Debug)]
pub struct MetaCurrentConfig {
    pub addresses: Vec<String>,
    pub ca_cert_pem: String,
    pub ca_key_pem: String,
    pub count: u64,
    pub ips: Vec<String>,
    pub p2p_ports: Vec<u16>,
    pub rpc_ports: Vec<u16>,
    pub use_num: bool,
    pub tls_peers: MetaNetworkConfig,
}

#[derive(Clone, Debug)]
pub struct MetaNetworkConfig {
    pub peers: Vec<NetworkTlsPeerConfig>,
}

} // verus!
