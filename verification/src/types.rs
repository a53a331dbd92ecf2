//! Row types of the relational store, the decoded event union, and the
//! error type shared by decoding and ingestion.

use vstd::prelude::*;

verus! {

/// One row of the obligation table `event_update_valid_block`: a declaration
/// that `cid` must stay pinned for `chain_id` until block `end_block`
/// (`-1` meaning "never expires"). The full tuple is the primary key.
#[derive(Debug, PartialEq)]
pub struct EventUpdateValidBlock {
    pub chain_id: i64,
    pub cid: String,
    pub donor: String,
    pub update_block: i64,
    pub end_block: i64,
    pub manual_add: Option<bool>,
}

/// Mathematical image of an obligation row.
#[verifier::ext_equal]
pub ghost struct ObV {
    pub chain_id: int,
    pub cid: Seq<char>,
    pub donor: Seq<char>,
    pub update_block: int,
    pub end_block: int,
    pub manual_add: Option<bool>,
}

impl View for EventUpdateValidBlock {
    type V = ObV;

    open spec fn view(&self) -> ObV {
        ObV {
            chain_id: self.chain_id as int,
            cid: self.cid@,
            donor: self.donor@,
            update_block: self.update_block as int,
            end_block: self.end_block as int,
            manual_add: self.manual_add,
        }
    }
}

/// One row of the provider registry table `event_add_provider`,
/// keyed by `(chain_id, provider_id)`.
#[derive(Debug, PartialEq)]
pub struct EventAddProvider {
    pub chain_id: i64,
    pub update_block: i64,
    pub owner: String,
    pub provider_id: i64,
    pub block_price_gwei: i64,
    pub api_url: String,
    pub name: String,
}

/// Mathematical image of a provider row.
#[verifier::ext_equal]
pub ghost struct ProvV {
    pub chain_id: int,
    pub update_block: int,
    pub owner: Seq<char>,
    pub provider_id: int,
    pub block_price_gwei: int,
    pub api_url: Seq<char>,
    pub name: Seq<char>,
}

impl View for EventAddProvider {
    type V = ProvV;

    open spec fn view(&self) -> ProvV {
        ProvV {
            chain_id: self.chain_id as int,
            update_block: self.update_block as int,
            owner: self.owner@,
            provider_id: self.provider_id as int,
            block_price_gwei: self.block_price_gwei as int,
            api_url: self.api_url@,
            name: self.name@,
        }
    }
}

impl Clone for EventAddProvider {
    fn clone(&self) -> (r: Self)
        ensures
            r@ == self@,
    {
        EventAddProvider {
            chain_id: self.chain_id,
            update_block: self.update_block,
            owner: self.owner.clone(),
            provider_id: self.provider_id,
            block_price_gwei: self.block_price_gwei,
            api_url: self.api_url.clone(),
            name: self.name.clone(),
        }
    }
}

/// One row of `pinned_cids` or `failed_pins`: a CID recorded as pinned
/// (or as having failed to pin) on one node for one chain.
#[derive(Debug, PartialEq)]
pub struct PinRow {
    pub chain_id: i64,
    pub node: String,
    pub cid: String,
    pub end_block: i64,
}

/// Mathematical image of a pinned or failed row.
#[verifier::ext_equal]
pub ghost struct PinRowV {
    pub chain_id: int,
    pub node: Seq<char>,
    pub cid: Seq<char>,
    pub end_block: int,
}

impl View for PinRow {
    type V = PinRowV;

    open spec fn view(&self) -> PinRowV {
        PinRowV {
            chain_id: self.chain_id as int,
            node: self.node@,
            cid: self.cid@,
            end_block: self.end_block as int,
        }
    }
}

impl Clone for PinRow {
    fn clone(&self) -> (r: Self)
        ensures
            r@ == self@,
    {
        PinRow {
            chain_id: self.chain_id,
            node: self.node.clone(),
            cid: self.cid.clone(),
            end_block: self.end_block,
        }
    }
}

/// A work item handed between the store and the pin/unpin services:
/// which CID, for which chain, on which node, and its deadline.
#[derive(Debug, PartialEq)]
pub struct CIDInfo {
    pub chain_id: Option<i64>,
    pub cid: Option<String>,
    pub end_block: Option<i64>,
    pub node: Option<String>,
    pub node_login: Option<String>,
    pub node_pass: Option<String>,
}

/// Mathematical image of a work item.
#[verifier::ext_equal]
pub ghost struct CidInfoV {
    pub chain_id: Option<int>,
    pub cid: Option<Seq<char>>,
    pub end_block: Option<int>,
    pub node: Option<Seq<char>>,
    pub node_login: Option<Seq<char>>,
    pub node_pass: Option<Seq<char>>,
}

pub open spec fn view_opt_i64(o: Option<i64>) -> Option<int> {
    match o {
        Option::Some(v) => Option::Some(v as int),
        Option::None => Option::None,
    }
}

pub open spec fn view_opt_string(o: Option<String>) -> Option<Seq<char>> {
    match o {
        Option::Some(v) => Option::Some(v@),
        Option::None => Option::None,
    }
}

impl View for CIDInfo {
    type V = CidInfoV;

    open spec fn view(&self) -> CidInfoV {
        CidInfoV {
            chain_id: view_opt_i64(self.chain_id),
            cid: view_opt_string(self.cid),
            end_block: view_opt_i64(self.end_block),
            node: view_opt_string(self.node),
            node_login: view_opt_string(self.node_login),
            node_pass: view_opt_string(self.node_pass),
        }
    }
}

/// Error kind shared by event decoding and ingestion.
#[derive(Debug, PartialEq)]
pub enum CustomError {
    /// A value failed a length or range requirement; the message names it.
    Inequality(String),
    /// An ABI-encoded payload did not follow the expected layout.
    InvalidAbiString,
}

/// The six contract events, decoded; ingestion dispatches on the tag.
#[derive(Debug, PartialEq)]
pub enum DecodedEvent {
    /// `UpdateValidBlock(address donor, uint256 end_block, uint256 provider_id, string cid)`
    UpdateValidBlock { donor: String, end_block: i64, provider_id: i64, cid: String },
    /// `AddProvider(address owner, uint256 provider_id, uint256 price_wei, string api_url, string name)`
    AddProvider {
        owner: String,
        provider_id: i64,
        block_price_gwei: i64,
        api_url: String,
        name: String,
    },
    /// `UpdateProviderBlockPrice(uint256 provider_id, uint256 price_wei)`
    UpdateProviderBlockPrice { provider_id: i64, block_price_gwei: i64 },
    /// `UpdateProviderApiUrl(uint256 provider_id, string api_url)`
    UpdateProviderApiUrl { provider_id: i64, api_url: String },
    /// `UpdateProviderAddress(uint256 provider_id, address owner)`
    UpdateProviderAddress { provider_id: i64, owner: String },
    /// `UpdateProviderName(uint256 provider_id, string name)`
    UpdateProviderName { provider_id: i64, name: String },
}

/// One row of the donor's pinned-CIDs listing: the obligation grouped with
/// how many nodes hold it and how many failed.
#[derive(Debug, PartialEq)]
pub struct PinnedCIDs {
    pub update_block: i64,
    pub donor: String,
    pub end_block: i64,
    pub cid: String,
    pub node_count: i64,
    pub failed_node_count: i64,
}

/// Mathematical image of a pinned-CIDs listing row.
#[verifier::ext_equal]
pub ghost struct PinnedCIDsV {
    pub update_block: int,
    pub donor: Seq<char>,
    pub end_block: int,
    pub cid: Seq<char>,
    pub node_count: int,
    pub failed_node_count: int,
}

impl View for PinnedCIDs {
    type V = PinnedCIDsV;

    open spec fn view(&self) -> PinnedCIDsV {
        PinnedCIDsV {
            update_block: self.update_block as int,
            donor: self.donor@,
            end_block: self.end_block as int,
            cid: self.cid@,
            node_count: self.node_count as int,
            failed_node_count: self.failed_node_count as int,
        }
    }
}

/// One row of the provider listings.
#[derive(Debug, PartialEq)]
pub struct EventAddProviderResponse {
    pub provider_id: i64,
    pub block_price_gwei: i64,
    pub api_url: String,
    pub name: String,
    pub update_block: Option<i64>,
}

/// Mathematical image of a provider listing row.
#[verifier::ext_equal]
pub ghost struct ProvRespV {
    pub provider_id: int,
    pub block_price_gwei: int,
    pub api_url: Seq<char>,
    pub name: Seq<char>,
    pub update_block: Option<int>,
}

impl View for EventAddProviderResponse {
    type V = ProvRespV;

    open spec fn view(&self) -> ProvRespV {
        ProvRespV {
            provider_id: self.provider_id as int,
            block_price_gwei: self.block_price_gwei as int,
            api_url: self.api_url@,
            name: self.name@,
            update_block: view_opt_i64(self.update_block),
        }
    }
}

/// What a node's `dag/stat` call reports of a CID.
#[derive(Debug, PartialEq)]
pub struct IpfsDagStat {
    pub num_blocks: i64,
    pub size: u64,
}

/// One chunk of a node's `add` response stream.
#[derive(Debug, PartialEq)]
pub struct IPFSAddResponse {
    pub name: String,
    pub hash: Option<String>,
    pub size: Option<String>,
    pub bytes: Option<u64>,
    pub first_import: Option<bool>,
}

impl IPFSAddResponse {
    /// The empty chunk the upload stream starts from.
    pub fn default() -> (r: Self)
        ensures
            r.name@ == Seq::<char>::empty(),
            r.hash is None,
            r.size is None,
            r.bytes is None,
            r.first_import is None,
    {
        Self {
            name: String::new(),
            hash: Option::None,
            size: Option::None,
            bytes: Option::None,
            first_import: Option::None,
        }
    }
}

/// One row of the per-CID aggregate listing: for one chain, how many nodes
/// hold the CID and how many recorded a failure, with the best deadlines.
#[derive(Debug, PartialEq)]
pub struct CIDChainAggregate {
    pub pinned_chain_id: Option<i64>,
    pub pinned_node_count: i64,
    pub pinned_end_block: Option<i64>,
    pub failed_chain_id: Option<i64>,
    pub failed_node_count: i64,
    pub failed_end_block: Option<i64>,
}

/// Mathematical image of a per-CID aggregate row.
#[verifier::ext_equal]
pub ghost struct CidChainAggV {
    pub pinned_chain_id: Option<int>,
    pub pinned_node_count: int,
    pub pinned_end_block: Option<int>,
    pub failed_chain_id: Option<int>,
    pub failed_node_count: int,
    pub failed_end_block: Option<int>,
}

impl View for CIDChainAggregate {
    type V = CidChainAggV;

    open spec fn view(&self) -> CidChainAggV {
        CidChainAggV {
            pinned_chain_id: view_opt_i64(self.pinned_chain_id),
            pinned_node_count: self.pinned_node_count as int,
            pinned_end_block: view_opt_i64(self.pinned_end_block),
            failed_chain_id: view_opt_i64(self.failed_chain_id),
            failed_node_count: self.failed_node_count as int,
            failed_end_block: view_opt_i64(self.failed_end_block),
        }
    }
}

/// The integer inside an optional value; meaningful only when one is there.
pub open spec fn some_int(o: Option<int>) -> int {
    match o {
        Option::Some(v) => v,
        Option::None => arbitrary(),
    }
}

/// The characters inside an optional value; meaningful only when one is there.
pub open spec fn some_seq(o: Option<Seq<char>>) -> Seq<char> {
    match o {
        Option::Some(v) => v,
        Option::None => arbitrary(),
    }
}

/// Mathematical image of a decoded event.
#[verifier::ext_equal]
pub ghost enum DecodedEventV {
    UpdateValidBlock { donor: Seq<char>, end_block: int, provider_id: int, cid: Seq<char> },
    AddProvider {
        owner: Seq<char>,
        provider_id: int,
        block_price_gwei: int,
        api_url: Seq<char>,
        name: Seq<char>,
    },
    UpdateProviderBlockPrice { provider_id: int, block_price_gwei: int },
    UpdateProviderApiUrl { provider_id: int, api_url: Seq<char> },
    UpdateProviderAddress { provider_id: int, owner: Seq<char> },
    UpdateProviderName { provider_id: int, name: Seq<char> },
}

impl View for DecodedEvent {
    type V = DecodedEventV;

    open spec fn view(&self) -> DecodedEventV {
        match self {
            DecodedEvent::UpdateValidBlock { donor, end_block, provider_id, cid } => (
            DecodedEventV::UpdateValidBlock {
                donor: donor@,
                end_block: *end_block as int,
                provider_id: *provider_id as int,
                cid: cid@,
            }),
            DecodedEvent::AddProvider {
                owner,
                provider_id,
                block_price_gwei,
                api_url,
                name,
            } => (DecodedEventV::AddProvider {
                owner: owner@,
                provider_id: *provider_id as int,
                block_price_gwei: *block_price_gwei as int,
                api_url: api_url@,
                name: name@,
            }),
            DecodedEvent::UpdateProviderBlockPrice { provider_id, block_price_gwei } => (
            DecodedEventV::UpdateProviderBlockPrice {
                provider_id: *provider_id as int,
                block_price_gwei: *block_price_gwei as int,
            }),
            DecodedEvent::UpdateProviderApiUrl { provider_id, api_url } => (
            DecodedEventV::UpdateProviderApiUrl {
                provider_id: *provider_id as int,
                api_url: api_url@,
            }),
            DecodedEvent::UpdateProviderAddress { provider_id, owner } => (
            DecodedEventV::UpdateProviderAddress {
                provider_id: *provider_id as int,
                owner: owner@,
            }),
            DecodedEvent::UpdateProviderName { provider_id, name } => (
            DecodedEventV::UpdateProviderName {
                provider_id: *provider_id as int,
                name: name@,
            }),
        }
    }
}

} // verus!
