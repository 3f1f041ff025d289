//! Records of the per-node configuration files of the earlier layout, as
//! plain values. Reading and deserializing the files happens outside the
//! library; these types only carry what was read.
use vstd::prelude::*;

verus! {

/// Contents of `consensus-config.toml`.
#[derive(Clone, Debug)]
pub struct ConsensusConfig {
    pub controller_port: u16,
}

/// Contents of `controller-config.toml`.
#[derive(Clone, Debug)]
pub struct ControllerConfig {
    pub network_port: u16,
    pub consensus_port: u16,
    pub storage_port: u16,
    pub kms_port: u16,
    pub executor_port: u16,
    pub block_delay_number: u64,
}

/// Contents of `network-config.toml`: the listening port and the peers.
#[derive(Clone, Debug)]
pub struct NetworkConfig {
    pub port: u16,
    pub peers: Vec<PeerConfig>,
}

/// One peer endpoint as the earlier layout wrote it.
#[derive(Clone, Debug)]
pub struct PeerConfig {
    pub ip: String,
    pub port: u16,
}

/// Contents of `init_sys_config.toml`.
#[derive(Clone, Debug)]
pub struct InitSysConfig {
    pub version: u64,
    pub admin: String,
    pub block_interval: u64,
    pub chain_id: String,
    pub validators: Vec<String>,
}

/// Contents of `genesis.toml`.
#[derive(Clone, Debug)]
pub struct Genesis {
    pub timestamp: u64,
    pub prevhash: String,
}

} // verus!
