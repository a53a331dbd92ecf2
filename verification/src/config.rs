//! Typed settings: what the configuration file declares, and the per-chain
//! runtime record every watcher and reconciliation loop reads.

use vstd::prelude::*;

verus! {

/// One IPFS node the coordinator drives: its API endpoint, its public
/// gateway, and optional basic-auth credentials.
#[derive(Debug)]
pub struct IPFSNode {
    pub api_url: String,
    pub gateway: String,
    pub login: Option<String>,
    pub password: Option<String>,
}

/// Mathematical image of a node entry.
#[verifier::ext_equal]
pub ghost struct IpfsNodeV {
    pub api_url: Seq<char>,
    pub gateway: Seq<char>,
    pub login: Option<Seq<char>>,
    pub password: Option<Seq<char>>,
}

impl View for IPFSNode {
    type V = IpfsNodeV;

    open spec fn view(&self) -> IpfsNodeV {
        IpfsNodeV {
            api_url: self.api_url@,
            gateway: self.gateway@,
            login: crate::types::view_opt_string(self.login),
            password: crate::types::view_opt_string(self.password),
        }
    }
}

/// One chain block of the configuration file.
#[derive(Debug)]
pub struct Provider {
    pub contract_address: String,
    pub provider: String,
    pub chain_name: String,
    pub start_block: i64,
    pub block_time_sec: u64,
    pub block_update_sec: u64,
    pub log_update_sec: u64,
    pub provider_id: i64,
    pub batch_size: i64,
    pub skip_old: Option<bool>,
    pub keep_alive: Option<bool>,
}

/// The whole configuration file.
#[derive(Debug)]
pub struct Config {
    pub providers: Option<Vec<Provider>>,
    pub ipfs_nodes: Option<Vec<IPFSNode>>,
    pub retry_failed_cids_sec: u64,
    pub admin_secret: String,
    pub update_nodes_sec: u64,
    pub only_api: Option<bool>,
}

/// The per-chain runtime record: the configuration a chain was started
/// with, the chain id its RPC endpoint reported, and the latest block the
/// connection supervisor has published, if any.
#[derive(Debug)]
pub struct Web3Node {
    pub contract_address: String,
    pub url: String,
    pub chain_name: String,
    pub start_block: i64,
    pub block_time_sec: u64,
    pub block_update_sec: u64,
    pub provider_id: i64,
    pub chain_id: i64,
    pub batch_size: i64,
    pub log_update_sec: u64,
    pub skip_old: Option<bool>,
    pub keep_alive: Option<bool>,
    pub latest_block: Option<i64>,
}


/// The reconciliation service's pacing: how often failed pins are retried
/// and how often the pin and unpin cycles run.
#[derive(Debug, Clone, Copy, PartialEq, Eq, Structural)]
pub struct IPFSService {
    pub retry_failed_cids_sec: u64,
    pub update_nodes_sec: u64,
}

/// What the upload/download proxy reports when a relay fails.
#[derive(Debug)]
pub enum ProxyError {
    ProxyFailed(String),
}

} // verus!
