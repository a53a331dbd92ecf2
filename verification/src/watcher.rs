//! The chain watcher's verified half: which topic each event kind listens
//! on, where ingestion resumes after a restart, how the historical backfill
//! advances block by block, and what each decoded log does to the store.

use vstd::prelude::*;

use crate::abi;
use crate::queries::EventTable;
use crate::store::{
    norm_ob,
    norm_prov,
    spec_add_provider,
    spec_add_valid_block,
    spec_update_provider_field,
    store_wf,
    ProvField,
    Store,
    StoreV,
};
use crate::strutil::lower_seq;
use crate::types::{
    CustomError,
    DecodedEvent,
    DecodedEventV,
    EventAddProvider,
    EventUpdateValidBlock,
    ObV,
    ProvV,
};

verus! {

/// What `web3::signing::keccak256` returns for these characters' UTF-8
/// bytes: a digest, named rather than spelled out.
pub uninterp spec fn keccak_of(signature: Seq<char>) -> Seq<u8>;

/// Relies on `web3::signing::keccak256`: the Keccak-256 digest of the
/// signature's UTF-8 bytes, 32 bytes long, a function of its input alone.
#[verifier::external_body]
fn keccak_topic(signature: &str) -> (r: Vec<u8>)
    ensures
        r@ == keccak_of(signature@),
        r@.len() == 32,
{
    web3::signing::keccak256(signature.as_bytes()).to_vec()
}

/// The six event kinds a chain watcher follows.
#[derive(Debug, Clone, Copy, PartialEq, Eq, Structural)]
pub enum EventKind {
    UpdateValidBlock,
    AddProvider,
    UpdateProviderBlockPrice,
    UpdateProviderApiUrl,
    UpdateProviderAddress,
    UpdateProviderName,
}

/// The Solidity signature whose hash is the event's log topic.
pub open spec fn spec_signature(kind: EventKind) -> Seq<char> {
    match kind {
        EventKind::UpdateValidBlock => "UpdateValidBlock(address,uint256,uint256,string)"@,
        EventKind::AddProvider => "AddProvider(address,uint256,uint256,string,string)"@,
        EventKind::UpdateProviderBlockPrice => "UpdateProviderBlockPrice(uint256,uint256)"@,
        EventKind::UpdateProviderApiUrl => "UpdateProviderApiUrl(uint256,string)"@,
        EventKind::UpdateProviderAddress => "UpdateProviderAddress(uint256,address)"@,
        EventKind::UpdateProviderName => "UpdateProviderName(uint256,string)"@,
    }
}

impl EventKind {
    /// The Solidity signature of the event.
    pub fn signature(&self) -> (s: &'static str)
        ensures
            s@ == spec_signature(*self),
    {
        match self {
            EventKind::UpdateValidBlock => "UpdateValidBlock(address,uint256,uint256,string)",
            EventKind::AddProvider => "AddProvider(address,uint256,uint256,string,string)",
            EventKind::UpdateProviderBlockPrice => "UpdateProviderBlockPrice(uint256,uint256)",
            EventKind::UpdateProviderApiUrl => "UpdateProviderApiUrl(uint256,string)",
            EventKind::UpdateProviderAddress => "UpdateProviderAddress(uint256,address)",
            EventKind::UpdateProviderName => "UpdateProviderName(uint256,string)",
        }
    }

    /// The log topic the watcher filters on: the Keccak-256 digest of the
    /// event's signature.
    pub fn topic(&self) -> (r: Vec<u8>)
        ensures
            r@ == keccak_of(spec_signature(*self)),
            r@.len() == 32,
    {
        keccak_topic(self.signature())
    }

    /// The table whose highest `update_block` is this event's resume point.
    pub fn table(&self) -> (t: EventTable)
        ensures
            t == spec_table(*self),
    {
        match self {
            EventKind::UpdateValidBlock => EventTable::UpdateValidBlock,
            _ => EventTable::AddProvider,
        }
    }
}

/// The table each event kind is persisted in.
pub open spec fn spec_table(kind: EventKind) -> EventTable {
    match kind {
        EventKind::UpdateValidBlock => EventTable::UpdateValidBlock,
        _ => EventTable::AddProvider,
    }
}

/// The shortest payload each event kind accepts.
pub open spec fn spec_log_min_len(kind: EventKind) -> int {
    match kind {
        EventKind::UpdateValidBlock => 96,
        EventKind::AddProvider => 96,
        _ => 64,
    }
}

/// A payload decodes for its event kind.
pub open spec fn spec_log_ok(kind: EventKind, d: Seq<u8>) -> bool {
    match kind {
        EventKind::UpdateValidBlock => abi::uvb_ok(d),
        EventKind::AddProvider => abi::add_provider_ok(d),
        EventKind::UpdateProviderBlockPrice => abi::upb_ok(d),
        EventKind::UpdateProviderApiUrl => abi::uint_string_ok(d),
        EventKind::UpdateProviderAddress => abi::upa_ok(d),
        EventKind::UpdateProviderName => abi::uint_string_ok(d),
    }
}

/// What a well-formed payload decodes to.
pub open spec fn spec_decoded_event(kind: EventKind, d: Seq<u8>) -> DecodedEventV {
    match kind {
        EventKind::UpdateValidBlock => DecodedEventV::UpdateValidBlock {
            donor: abi::addr_at(d, 0),
            end_block: abi::uint_at(d, 1) as int,
            provider_id: abi::uint_at(d, 2) as int,
            cid: abi::str_chars(d, 3),
        },
        EventKind::AddProvider => DecodedEventV::AddProvider {
            owner: abi::addr_at(d, 0),
            provider_id: abi::uint_at(d, 1) as int,
            block_price_gwei: abi::gwei_at(d, 2),
            api_url: abi::str_chars(d, 3),
            name: abi::str_chars(d, 4),
        },
        EventKind::UpdateProviderBlockPrice => DecodedEventV::UpdateProviderBlockPrice {
            provider_id: abi::uint_at(d, 0) as int,
            block_price_gwei: abi::gwei_at(d, 1),
        },
        EventKind::UpdateProviderApiUrl => DecodedEventV::UpdateProviderApiUrl {
            provider_id: abi::uint_at(d, 0) as int,
            api_url: abi::str_chars(d, 1),
        },
        EventKind::UpdateProviderAddress => DecodedEventV::UpdateProviderAddress {
            provider_id: abi::uint_at(d, 0) as int,
            owner: abi::addr_at(d, 1),
        },
        EventKind::UpdateProviderName => DecodedEventV::UpdateProviderName {
            provider_id: abi::uint_at(d, 0) as int,
            name: abi::str_chars(d, 1),
        },
    }
}

/// What one decoded event does to the store. An obligation for another
/// provider is ignored; every provider event lands in the registry.
pub open spec fn spec_apply_event(
    s: StoreV,
    chain_id: int,
    block_number: int,
    cur_provider_id: int,
    e: DecodedEventV,
) -> StoreV {
    match e {
        DecodedEventV::UpdateValidBlock { donor, end_block, provider_id, cid } => {
            if provider_id != cur_provider_id {
                s
            } else {
                spec_add_valid_block(
                    s,
                    ObV {
                        chain_id,
                        cid,
                        donor,
                        update_block: block_number,
                        end_block,
                        manual_add: Option::Some(false),
                    },
                )
            }
        },
        DecodedEventV::AddProvider { owner, provider_id, block_price_gwei, api_url, name } => {
            spec_add_provider(
                s,
                norm_prov(
                    ProvV {
                        chain_id,
                        update_block: block_number,
                        owner,
                        provider_id,
                        block_price_gwei,
                        api_url,
                        name,
                    },
                ),
            )
        },
        DecodedEventV::UpdateProviderBlockPrice { provider_id, block_price_gwei } => {
            spec_update_provider_field(
                s,
                chain_id,
                block_number,
                provider_id,
                ProvField::Price(block_price_gwei),
            )
        },
        DecodedEventV::UpdateProviderApiUrl { provider_id, api_url } => {
            spec_update_provider_field(
                s,
                chain_id,
                block_number,
                provider_id,
                ProvField::ApiUrl(api_url),
            )
        },
        DecodedEventV::UpdateProviderAddress { provider_id, owner } => {
            spec_update_provider_field(
                s,
                chain_id,
                block_number,
                provider_id,
                ProvField::Owner(lower_seq(owner)),
            )
        },
        DecodedEventV::UpdateProviderName { provider_id, name } => {
            spec_update_provider_field(
                s,
                chain_id,
                block_number,
                provider_id,
                ProvField::Name(name),
            )
        },
    }
}

/// Applies one decoded event to the store.
pub fn apply_event(
    store: &mut Store,
    chain_id: i64,
    block_number: i64,
    cur_provider_id: i64,
    ev: DecodedEvent,
)
    requires
        store_wf(old(store)@),
    ensures
        store_wf(final(store)@),
        final(store)@ == spec_apply_event(
            old(store)@,
            chain_id as int,
            block_number as int,
            cur_provider_id as int,
            ev@,
        ),
{
    let ghost evv = ev@;
    match ev {
        DecodedEvent::UpdateValidBlock { donor, end_block, provider_id, cid } => {
            if provider_id != cur_provider_id {
                return ;
            }
            let row = EventUpdateValidBlock {
                chain_id,
                cid,
                donor,
                update_block: block_number,
                end_block,
                manual_add: Option::Some(false),
            };
            let ghost target = match evv {
                DecodedEventV::UpdateValidBlock { donor, end_block, provider_id, cid } => (ObV {
                    chain_id: chain_id as int,
                    cid,
                    donor,
                    update_block: block_number as int,
                    end_block,
                    manual_add: Option::Some(false),
                }),
                _ => arbitrary(),
            };
            proof {
                assert(row@ =~= target);
            }
            store.add_valid_block(row);
        },
        DecodedEvent::AddProvider { owner, provider_id, block_price_gwei, api_url, name } => {
            let row = EventAddProvider {
                chain_id,
                update_block: block_number,
                owner,
                provider_id,
                block_price_gwei,
                api_url,
                name,
            };
            store.add_provider(row);
        },
        DecodedEvent::UpdateProviderBlockPrice { provider_id, block_price_gwei } => {
            store.update_provider_block_price(
                chain_id,
                block_number,
                provider_id,
                block_price_gwei,
            );
        },
        DecodedEvent::UpdateProviderApiUrl { provider_id, api_url } => {
            store.update_provider_api_url(chain_id, block_number, provider_id, api_url);
        },
        DecodedEvent::UpdateProviderAddress { provider_id, owner } => {
            store.update_provider_owner(chain_id, block_number, provider_id, owner);
        },
        DecodedEvent::UpdateProviderName { provider_id, name } => {
            store.update_provider_name(chain_id, block_number, provider_id, name);
        },
    }
}

/// Decodes one log's payload for its event kind and applies it: length and
/// shape failures leave the store untouched and name the fault.
pub fn apply_log(
    store: &mut Store,
    kind: EventKind,
    data: &[u8],
    block_number: i64,
    chain_id: i64,
    cur_provider_id: i64,
) -> (r: Result<(), CustomError>)
    requires
        store_wf(old(store)@),
    ensures
        store_wf(final(store)@),
        data@.len() < spec_log_min_len(kind) ==> (r matches Result::Err(
            CustomError::Inequality(_),
        ) && final(store)@ == old(store)@),
        data@.len() >= spec_log_min_len(kind) && !spec_log_ok(kind, data@) ==> (r
            == Result::<(), CustomError>::Err(CustomError::InvalidAbiString) && final(store)@
            == old(store)@),
        spec_log_ok(kind, data@) ==> (r == Result::<(), CustomError>::Ok(()) && final(store)@
            == spec_apply_event(
            old(store)@,
            chain_id as int,
            block_number as int,
            cur_provider_id as int,
            spec_decoded_event(kind, data@),
        )),
{
    let decoded = match kind {
        EventKind::UpdateValidBlock => abi::decode_update_valid_block(data),
        EventKind::AddProvider => abi::decode_add_provider(data),
        EventKind::UpdateProviderBlockPrice => abi::decode_update_provider_block_price(data),
        EventKind::UpdateProviderApiUrl => abi::decode_update_provider_api_url(data),
        EventKind::UpdateProviderAddress => abi::decode_update_provider_owner(data),
        EventKind::UpdateProviderName => abi::decode_update_provider_name(data),
    };
    match decoded {
        Result::Ok(ev) => {
            proof {
                assert(ev@ =~= spec_decoded_event(kind, data@));
            }
            apply_event(store, chain_id, block_number, cur_provider_id, ev);
            Result::Ok(())
        },
        Result::Err(e) => Result::Err(e),
    }
}

/// Where a watcher resumes: the later of the configured start block and
/// the highest block already persisted, if the store holds one.
pub fn resume_block(start_block: i64, db_max: Option<i64>) -> (r: i64)
    ensures
        r == match crate::types::view_opt_i64(db_max) {
            Option::Some(m) => if m >= start_block {
                m
            } else {
                start_block as int
            },
            Option::None => start_block as int,
        },
{
    match db_max {
        Option::Some(m) => if m >= start_block {
            m
        } else {
            start_block
        },
        Option::None => start_block,
    }
}

/// What a backfill iteration decides to do.
#[derive(Debug, PartialEq, Eq, Structural)]
pub enum WatcherAction {
    /// No tip yet, or already synced: sleep and ask again.
    Sleep,
    /// Query logs over `[from_block, to_block]` and carry on at `next_start`.
    Fetch { from_block: i64, to_block: i64, next_start: i64 },
}

/// Mathematical image of a watcher action.
#[verifier::ext_equal]
pub ghost enum WatcherActionV {
    Sleep,
    Fetch { from_block: int, to_block: int, next_start: int },
}

impl View for WatcherAction {
    type V = WatcherActionV;

    open spec fn view(&self) -> WatcherActionV {
        match self {
            WatcherAction::Sleep => WatcherActionV::Sleep,
            WatcherAction::Fetch { from_block, to_block, next_start } => (WatcherActionV::Fetch {
                from_block: *from_block as int,
                to_block: *to_block as int,
                next_start: *next_start as int,
            }),
        }
    }
}

/// One backfill decision: without a tip the watcher sleeps; with
/// `skip_old` set, a cursor more than one batch behind jumps to
/// `tip - batch`; a cursor at or past the tip is synced and sleeps;
/// otherwise the watcher fetches one batch, never past the tip.
pub open spec fn spec_watcher_step(
    start_block: int,
    latest: Option<int>,
    batch_size: int,
    skip_old: Option<bool>,
) -> WatcherActionV {
    match latest {
        Option::None => WatcherActionV::Sleep,
        Option::Some(bn) => {
            let cursor = if skip_old == Option::Some(true) && bn - start_block > batch_size {
                bn - batch_size
            } else {
                start_block
            };
            if cursor >= bn {
                WatcherActionV::Sleep
            } else if bn - cursor > batch_size {
                WatcherActionV::Fetch {
                    from_block: cursor,
                    to_block: cursor + batch_size,
                    next_start: cursor + batch_size,
                }
            } else {
                WatcherActionV::Fetch { from_block: cursor, to_block: bn, next_start: bn }
            }
        },
    }
}

/// Decides one iteration of the historical backfill loop.
pub fn watcher_step(
    start_block: i64,
    latest_block: Option<i64>,
    batch_size: i64,
    skip_old: Option<bool>,
) -> (a: WatcherAction)
    requires
        0 <= start_block,
        0 <= batch_size,
        (latest_block matches Option::Some(b) ==> 0 <= b),
    ensures
        a@ == spec_watcher_step(
            start_block as int,
            crate::types::view_opt_i64(latest_block),
            batch_size as int,
            skip_old,
        ),
{
    let bn = match latest_block {
        Option::Some(v) => v,
        Option::None => {
            return WatcherAction::Sleep;
        },
    };
    let jump = match skip_old {
        Option::Some(true) => bn - start_block > batch_size,
        _ => false,
    };
    let cursor = if jump {
        bn - batch_size
    } else {
        start_block
    };
    if cursor >= bn {
        WatcherAction::Sleep
    } else if bn - cursor > batch_size {
        WatcherAction::Fetch {
            from_block: cursor,
            to_block: cursor + batch_size,
            next_start: cursor + batch_size,
        }
    } else {
        WatcherAction::Fetch { from_block: cursor, to_block: bn, next_start: bn }
    }
}


/// Ingests one `UpdateValidBlock` log: too-short data is refused by
/// length, a malformed payload by shape, and a good one lands in the
/// store. An obligation naming another provider decodes
/// fine and is dropped.
pub fn update_valid_block(
    store: &mut Store,
    data: &[u8],
    block_number: i64,
    chain_id: i64,
    cur_provider_id: i64,
) -> (r: Result<(), CustomError>)
    requires
        store_wf(old(store)@),
    ensures
        store_wf(final(store)@),
        data@.len() < spec_log_min_len(EventKind::UpdateValidBlock) ==> (r matches Result::Err(
            CustomError::Inequality(_),
        ) && final(store)@ == old(store)@),
        data@.len() >= spec_log_min_len(EventKind::UpdateValidBlock) && !spec_log_ok(
            EventKind::UpdateValidBlock,
            data@,
        ) ==> (r == Result::<(), CustomError>::Err(CustomError::InvalidAbiString)
            && final(store)@ == old(store)@),
        spec_log_ok(EventKind::UpdateValidBlock, data@) ==> (r == Result::<(), CustomError>::Ok(())
            && final(store)@ == spec_apply_event(
            old(store)@,
            chain_id as int,
            block_number as int,
            cur_provider_id as int,
            spec_decoded_event(EventKind::UpdateValidBlock, data@),
        )),
{
    apply_log(store, EventKind::UpdateValidBlock, data, block_number, chain_id, cur_provider_id)
}

/// Ingests one `AddProvider` log: too-short data is refused by
/// length, a malformed payload by shape, and a good one lands in the
/// store.
pub fn update_add_provider(
    store: &mut Store,
    data: &[u8],
    block_number: i64,
    chain_id: i64,
    cur_provider_id: i64,
) -> (r: Result<(), CustomError>)
    requires
        store_wf(old(store)@),
    ensures
        store_wf(final(store)@),
        data@.len() < spec_log_min_len(EventKind::AddProvider) ==> (r matches Result::Err(
            CustomError::Inequality(_),
        ) && final(store)@ == old(store)@),
        data@.len() >= spec_log_min_len(EventKind::AddProvider) && !spec_log_ok(
            EventKind::AddProvider,
            data@,
        ) ==> (r == Result::<(), CustomError>::Err(CustomError::InvalidAbiString)
            && final(store)@ == old(store)@),
        spec_log_ok(EventKind::AddProvider, data@) ==> (r == Result::<(), CustomError>::Ok(())
            && final(store)@ == spec_apply_event(
            old(store)@,
            chain_id as int,
            block_number as int,
            cur_provider_id as int,
            spec_decoded_event(EventKind::AddProvider, data@),
        )),
{
    apply_log(store, EventKind::AddProvider, data, block_number, chain_id, cur_provider_id)
}

/// Ingests one `UpdateProviderBlockPrice` log: too-short data is refused by
/// length, a malformed payload by shape, and a good one lands in the
/// store.
pub fn update_provider_block_price(
    store: &mut Store,
    data: &[u8],
    block_number: i64,
    chain_id: i64,
    cur_provider_id: i64,
) -> (r: Result<(), CustomError>)
    requires
        store_wf(old(store)@),
    ensures
        store_wf(final(store)@),
        data@.len() < spec_log_min_len(EventKind::UpdateProviderBlockPrice) ==> (r matches Result::Err(
            CustomError::Inequality(_),
        ) && final(store)@ == old(store)@),
        data@.len() >= spec_log_min_len(EventKind::UpdateProviderBlockPrice) && !spec_log_ok(
            EventKind::UpdateProviderBlockPrice,
            data@,
        ) ==> (r == Result::<(), CustomError>::Err(CustomError::InvalidAbiString)
            && final(store)@ == old(store)@),
        spec_log_ok(EventKind::UpdateProviderBlockPrice, data@) ==> (r == Result::<(), CustomError>::Ok(())
            && final(store)@ == spec_apply_event(
            old(store)@,
            chain_id as int,
            block_number as int,
            cur_provider_id as int,
            spec_decoded_event(EventKind::UpdateProviderBlockPrice, data@),
        )),
{
    apply_log(store, EventKind::UpdateProviderBlockPrice, data, block_number, chain_id, cur_provider_id)
}

/// Ingests one `UpdateProviderApiUrl` log: too-short data is refused by
/// length, a malformed payload by shape, and a good one lands in the
/// store.
pub fn update_provider_api_url(
    store: &mut Store,
    data: &[u8],
    block_number: i64,
    chain_id: i64,
    cur_provider_id: i64,
) -> (r: Result<(), CustomError>)
    requires
        store_wf(old(store)@),
    ensures
        store_wf(final(store)@),
        data@.len() < spec_log_min_len(EventKind::UpdateProviderApiUrl) ==> (r matches Result::Err(
            CustomError::Inequality(_),
        ) && final(store)@ == old(store)@),
        data@.len() >= spec_log_min_len(EventKind::UpdateProviderApiUrl) && !spec_log_ok(
            EventKind::UpdateProviderApiUrl,
            data@,
        ) ==> (r == Result::<(), CustomError>::Err(CustomError::InvalidAbiString)
            && final(store)@ == old(store)@),
        spec_log_ok(EventKind::UpdateProviderApiUrl, data@) ==> (r == Result::<(), CustomError>::Ok(())
            && final(store)@ == spec_apply_event(
            old(store)@,
            chain_id as int,
            block_number as int,
            cur_provider_id as int,
            spec_decoded_event(EventKind::UpdateProviderApiUrl, data@),
        )),
{
    apply_log(store, EventKind::UpdateProviderApiUrl, data, block_number, chain_id, cur_provider_id)
}

/// Ingests one `UpdateProviderAddress` log: too-short data is refused by
/// length, a malformed payload by shape, and a good one lands in the
/// store.
pub fn update_provider_owner(
    store: &mut Store,
    data: &[u8],
    block_number: i64,
    chain_id: i64,
    cur_provider_id: i64,
) -> (r: Result<(), CustomError>)
    requires
        store_wf(old(store)@),
    ensures
        store_wf(final(store)@),
        data@.len() < spec_log_min_len(EventKind::UpdateProviderAddress) ==> (r matches Result::Err(
            CustomError::Inequality(_),
        ) && final(store)@ == old(store)@),
        data@.len() >= spec_log_min_len(EventKind::UpdateProviderAddress) && !spec_log_ok(
            EventKind::UpdateProviderAddress,
            data@,
        ) ==> (r == Result::<(), CustomError>::Err(CustomError::InvalidAbiString)
            && final(store)@ == old(store)@),
        spec_log_ok(EventKind::UpdateProviderAddress, data@) ==> (r == Result::<(), CustomError>::Ok(())
            && final(store)@ == spec_apply_event(
            old(store)@,
            chain_id as int,
            block_number as int,
            cur_provider_id as int,
            spec_decoded_event(EventKind::UpdateProviderAddress, data@),
        )),
{
    apply_log(store, EventKind::UpdateProviderAddress, data, block_number, chain_id, cur_provider_id)
}

/// Ingests one `UpdateProviderName` log: too-short data is refused by
/// length, a malformed payload by shape, and a good one lands in the
/// store.
pub fn update_provider_name(
    store: &mut Store,
    data: &[u8],
    block_number: i64,
    chain_id: i64,
    cur_provider_id: i64,
) -> (r: Result<(), CustomError>)
    requires
        store_wf(old(store)@),
    ensures
        store_wf(final(store)@),
        data@.len() < spec_log_min_len(EventKind::UpdateProviderName) ==> (r matches Result::Err(
            CustomError::Inequality(_),
        ) && final(store)@ == old(store)@),
        data@.len() >= spec_log_min_len(EventKind::UpdateProviderName) && !spec_log_ok(
            EventKind::UpdateProviderName,
            data@,
        ) ==> (r == Result::<(), CustomError>::Err(CustomError::InvalidAbiString)
            && final(store)@ == old(store)@),
        spec_log_ok(EventKind::UpdateProviderName, data@) ==> (r == Result::<(), CustomError>::Ok(())
            && final(store)@ == spec_apply_event(
            old(store)@,
            chain_id as int,
            block_number as int,
            cur_provider_id as int,
            spec_decoded_event(EventKind::UpdateProviderName, data@),
        )),
{
    apply_log(store, EventKind::UpdateProviderName, data, block_number, chain_id, cur_provider_id)
}

} // verus!
