//! The relational store: four tables held as vectors of rows, with the
//! exact effect of every statement the coordinator issues stated as a
//! transition on the store's mathematical view.
//!
//! The table of obligations is append-only with set semantics (replayed
//! rows are dropped), the provider registry is an upsert keyed by
//! `(chain_id, provider_id)` ordered by `update_block`, and the pinned and
//! failed tables are kept free of duplicate keys.

use vstd::prelude::*;

use crate::strutil::{ascii_lowercase, lower_seq};
use crate::types::{
    CIDInfo,
    CidInfoV,
    EventAddProvider,
    EventUpdateValidBlock,
    ObV,
    PinRow,
    PinRowV,
    ProvV,
};

verus! {

/// The four tables of the coordinator's state.
#[derive(Debug)]
pub struct Store {
    pub event_update_valid_block: Vec<EventUpdateValidBlock>,
    pub event_add_provider: Vec<EventAddProvider>,
    pub pinned_cids: Vec<PinRow>,
    pub failed_pins: Vec<PinRow>,
}

/// Mathematical image of the whole store.
#[verifier::ext_equal]
pub ghost struct StoreV {
    pub obligations: Seq<ObV>,
    pub providers: Seq<ProvV>,
    pub pinned: Seq<PinRowV>,
    pub failed: Seq<PinRowV>,
}

impl View for Store {
    type V = StoreV;

    open spec fn view(&self) -> StoreV {
        StoreV {
            obligations: self.event_update_valid_block@.map_values(
                |r: EventUpdateValidBlock| r@,
            ),
            providers: self.event_add_provider@.map_values(|r: EventAddProvider| r@),
            pinned: self.pinned_cids@.map_values(|r: PinRow| r@),
            failed: self.failed_pins@.map_values(|r: PinRow| r@),
        }
    }
}

/// An obligation row as the store keeps it: the donor address lowercased.
pub open spec fn norm_ob(e: ObV) -> ObV {
    ObV { donor: lower_seq(e.donor), ..e }
}

/// The key that makes a provider row unique.
pub open spec fn same_provider(a: ProvV, b: ProvV) -> bool {
    a.chain_id == b.chain_id && a.provider_id == b.provider_id
}

/// The key that makes a pinned row unique: one record per chain, node and CID.
pub open spec fn same_pin_key(a: PinRowV, b: PinRowV) -> bool {
    a.chain_id == b.chain_id && a.node == b.node && a.cid == b.cid
}

/// A deadline has passed at tip `bn`; the sentinel `-1` never expires.
pub open spec fn expired(end_block: int, bn: int) -> bool {
    end_block != -1 && end_block <= bn
}

/// Well-formedness of the store: the uniqueness every table relies on.
pub open spec fn store_wf(s: StoreV) -> bool {
    &&& forall|i: int, j: int|
        0 <= i < j < s.obligations.len() ==> s.obligations[i] != s.obligations[j]
    &&& forall|i: int, j: int|
        0 <= i < j < s.providers.len() ==> !same_provider(s.providers[i], s.providers[j])
    &&& forall|i: int, j: int|
        0 <= i < j < s.pinned.len() ==> !same_pin_key(s.pinned[i], s.pinned[j])
    &&& forall|i: int, j: int| 0 <= i < j < s.failed.len() ==> s.failed[i] != s.failed[j]
}

/// One step of the provider upsert: a row is replaced by the incoming one
/// when it has the same key and is not newer than it.
pub open spec fn upsert_provider_row(p: ProvV, e: ProvV) -> ProvV {
    if same_provider(p, e) && p.update_block <= e.update_block {
        e
    } else {
        p
    }
}

/// Registration (or re-registration) of a provider: an upsert keyed by
/// `(chain_id, provider_id)`, where an older row never overwrites a newer one.
pub open spec fn spec_add_provider(s: StoreV, e: ProvV) -> StoreV {
    if exists|k: int| 0 <= k < s.providers.len() && same_provider(s.providers[k], e) {
        StoreV { providers: s.providers.map_values(|p: ProvV| upsert_provider_row(p, e)), ..s }
    } else {
        StoreV { providers: s.providers.push(e), ..s }
    }
}

/// A single-field provider update, ordered by `update_block`.
pub open spec fn update_provider_field_row(
    p: ProvV,
    chain_id: int,
    update_block: int,
    provider_id: int,
    field: ProvField,
) -> ProvV {
    if p.chain_id == chain_id && p.provider_id == provider_id && p.update_block <= update_block {
        match field {
            ProvField::Price(v) => ProvV { block_price_gwei: v, update_block, ..p },
            ProvField::ApiUrl(v) => ProvV { api_url: v, update_block, ..p },
            ProvField::Owner(v) => ProvV { owner: v, update_block, ..p },
            ProvField::Name(v) => ProvV { name: v, update_block, ..p },
        }
    } else {
        p
    }
}

/// Which provider field an update event changes, with its new value.
pub ghost enum ProvField {
    Price(int),
    ApiUrl(Seq<char>),
    Owner(Seq<char>),
    Name(Seq<char>),
}

/// Effect of one provider-field update on the registry.
pub open spec fn spec_update_provider_field(
    s: StoreV,
    chain_id: int,
    update_block: int,
    provider_id: int,
    field: ProvField,
) -> StoreV {
    StoreV {
        providers: s.providers.map_values(
            |p: ProvV| update_provider_field_row(p, chain_id, update_block, provider_id, field),
        ),
        ..s
    }
}

/// Insertion of an obligation, `ON CONFLICT DO NOTHING` over the full tuple.
pub open spec fn spec_add_valid_block(s: StoreV, e: ObV) -> StoreV {
    if s.obligations.contains(norm_ob(e)) {
        s
    } else {
        StoreV { obligations: s.obligations.push(norm_ob(e)), ..s }
    }
}

impl Store {
    /// An empty store: the state before any event has been observed.
    pub fn new() -> (s: Store)
        ensures
            s@.obligations == Seq::<ObV>::empty(),
            s@.providers == Seq::<ProvV>::empty(),
            s@.pinned == Seq::<PinRowV>::empty(),
            s@.failed == Seq::<PinRowV>::empty(),
            store_wf(s@),
    {
        let s = Store {
            event_update_valid_block: Vec::new(),
            event_add_provider: Vec::new(),
            pinned_cids: Vec::new(),
            failed_pins: Vec::new(),
        };
        proof {
            assert(s@.obligations =~= Seq::<ObV>::empty());
            assert(s@.providers =~= Seq::<ProvV>::empty());
            assert(s@.pinned =~= Seq::<PinRowV>::empty());
            assert(s@.failed =~= Seq::<PinRowV>::empty());
        }
        s
    }

    /// Records one obligation, donor lowercased, dropping an exact replay.
    /// Returns the number of rows written, as the database would.
    pub fn add_valid_block(&mut self, event: EventUpdateValidBlock) -> (n: u64)
        requires
            store_wf(old(self)@),
        ensures
            store_wf(final(self)@),
            final(self)@ == spec_add_valid_block(old(self)@, event@),
            n == if old(self)@.obligations.contains(norm_ob(event@)) {
                0int
            } else {
                1int
            },
    {
        let row = EventUpdateValidBlock {
            chain_id: event.chain_id,
            cid: event.cid,
            donor: ascii_lowercase(&event.donor),
            update_block: event.update_block,
            end_block: event.end_block,
            manual_add: event.manual_add,
        };
        proof {
            assert(row@ =~= norm_ob(event@));
        }
        let len = self.event_update_valid_block.len();
        let mut i: usize = 0;
        while i < len
            invariant
                len == self.event_update_valid_block.len(),
                i <= len,
                self@ == old(self)@,
                store_wf(self@),
                row@ == norm_ob(event@),
                forall|k: int| 0 <= k < i ==> self@.obligations[k] != row@,
            decreases len - i,
        {
            if ob_rows_equal(&self.event_update_valid_block[i], &row) {
                proof {
                    assert(self@.obligations[i as int] == row@);
                    assert(self@.obligations.contains(norm_ob(event@)));
                }
                return 0;
            }
            i = i + 1;
        }
        assert(!self@.obligations.contains(row@));
        let ghost pre = self@;
        self.event_update_valid_block.push(row);
        proof {
            assert(self@.obligations =~= pre.obligations.push(norm_ob(event@)));
            assert(self@ =~= spec_add_valid_block(pre, event@));
        }
        1
    }

    /// Whether any chain has declared this CID, however it was added.
    pub fn cid_exists(&self, cid: &String) -> (r: bool)
        ensures
            r == exists|k: int|
                0 <= k < self@.obligations.len() && self@.obligations[k].cid == cid@,
    {
        let len = self.event_update_valid_block.len();
        let mut i: usize = 0;
        while i < len
            invariant
                len == self.event_update_valid_block.len(),
                i <= len,
                forall|k: int| 0 <= k < i ==> self@.obligations[k].cid != cid@,
            decreases len - i,
        {
            if self.event_update_valid_block[i].cid == *cid {
                proof {
                    assert(self@.obligations[i as int].cid == cid@);
                }
                return true;
            }
            i = i + 1;
        }
        false
    }
}

/// A provider row as the store keeps it: the owner address lowercased.
pub open spec fn norm_prov(e: ProvV) -> ProvV {
    ProvV { owner: lower_seq(e.owner), ..e }
}

/// The new value carried by one provider-field update.
pub enum ProvFieldUpdate {
    Price(i64),
    ApiUrl(String),
    Owner(String),
    Name(String),
}

impl View for ProvFieldUpdate {
    type V = ProvField;

    open spec fn view(&self) -> ProvField {
        match self {
            ProvFieldUpdate::Price(v) => ProvField::Price(*v as int),
            ProvFieldUpdate::ApiUrl(v) => ProvField::ApiUrl(v@),
            ProvFieldUpdate::Owner(v) => ProvField::Owner(v@),
            ProvFieldUpdate::Name(v) => ProvField::Name(v@),
        }
    }
}

impl Store {
    /// Registers a provider: an upsert keyed by `(chain_id, provider_id)`,
    /// owner lowercased, never letting an older event overwrite a newer row.
    pub fn add_provider(&mut self, event: EventAddProvider) -> (n: u64)
        requires
            store_wf(old(self)@),
        ensures
            store_wf(final(self)@),
            final(self)@ == spec_add_provider(old(self)@, norm_prov(event@)),
            n == 1,
    {
        let row = EventAddProvider {
            chain_id: event.chain_id,
            update_block: event.update_block,
            owner: ascii_lowercase(&event.owner),
            provider_id: event.provider_id,
            block_price_gwei: event.block_price_gwei,
            api_url: event.api_url,
            name: event.name,
        };
        proof {
            assert(row@ =~= norm_prov(event@));
        }
        let ghost e = norm_prov(event@);
        let ghost pre = self@;
        let len = self.event_add_provider.len();
        let mut i: usize = 0;
        while i < len
            invariant
                len == self.event_add_provider.len(),
                i <= len,
                pre == old(self)@,
                self@ == pre,
                store_wf(self@),
                row@ == e,
                e == norm_prov(event@),
                forall|k: int| 0 <= k < i ==> !same_provider(self@.providers[k], e),
            decreases len - i,
        {
            if self.event_add_provider[i].chain_id == row.chain_id
                && self.event_add_provider[i].provider_id == row.provider_id {
                assert(same_provider(pre.providers[i as int], e));
                if self.event_add_provider[i].update_block <= row.update_block {
                    self.event_add_provider.set(i, row);
                }
                proof {
                    let f = |p: ProvV| upsert_provider_row(p, e);
                    assert forall|j: int| 0 <= j < pre.providers.len() implies self@.providers[j]
                        == f(pre.providers[j]) by {
                        if j < i as int {
                            assert(!same_provider(pre.providers[j], pre.providers[i as int]));
                        } else if j > i as int {
                            assert(!same_provider(pre.providers[i as int], pre.providers[j]));
                        }
                    }
                    assert(self@.providers =~= pre.providers.map_values(f));
                    assert(self@ =~= spec_add_provider(pre, e));
                    assert forall|a: int, b: int|
                        0 <= a < b < self@.providers.len() implies !same_provider(
                        self@.providers[a],
                        self@.providers[b],
                    ) by {
                        assert(!same_provider(pre.providers[a], pre.providers[b]));
                    }
                }
                return 1;
            }
            i = i + 1;
        }
        self.event_add_provider.push(row);
        proof {
            assert(self@.providers =~= pre.providers.push(e));
            assert(self@ =~= spec_add_provider(pre, e));
        }
        1
    }

    /// Applies one provider-field update, keyed by `(chain_id, provider_id)`
    /// and ordered by `update_block`. Returns how many rows matched the key.
    fn update_provider_field(
        &mut self,
        chain_id: i64,
        update_block: i64,
        provider_id: i64,
        upd: ProvFieldUpdate,
    ) -> (n: u64)
        requires
            store_wf(old(self)@),
        ensures
            store_wf(final(self)@),
            final(self)@ == spec_update_provider_field(
                old(self)@,
                chain_id as int,
                update_block as int,
                provider_id as int,
                upd@,
            ),
            n == if exists|k: int|
                0 <= k < old(self)@.providers.len() && old(self)@.providers[k].chain_id
                    == chain_id && old(self)@.providers[k].provider_id == provider_id {
                1int
            } else {
                0int
            },
    {
        let ghost pre = self@;
        let ghost fld = upd@;
        let len = self.event_add_provider.len();
        let mut i: usize = 0;
        while i < len
            invariant
                len == self.event_add_provider.len(),
                i <= len,
                pre == old(self)@,
                self@ == pre,
                store_wf(self@),
                fld == upd@,
                forall|k: int|
                    0 <= k < i ==> !(self@.providers[k].chain_id == chain_id
                        && self@.providers[k].provider_id == provider_id),
            decreases len - i,
        {
            if self.event_add_provider[i].chain_id == chain_id
                && self.event_add_provider[i].provider_id == provider_id {
                proof {
                    assert(old(self)@.providers[i as int].chain_id == chain_id
                        && old(self)@.providers[i as int].provider_id == provider_id);
                }
                if self.event_add_provider[i].update_block <= update_block {
                    let old_row = self.event_add_provider[i].clone();
                    let row = match upd {
                        ProvFieldUpdate::Price(v) => EventAddProvider {
                            block_price_gwei: v,
                            update_block,
                            ..old_row
                        },
                        ProvFieldUpdate::ApiUrl(v) => EventAddProvider {
                            api_url: v,
                            update_block,
                            ..old_row
                        },
                        ProvFieldUpdate::Owner(v) => EventAddProvider {
                            owner: v,
                            update_block,
                            ..old_row
                        },
                        ProvFieldUpdate::Name(v) => EventAddProvider {
                            name: v,
                            update_block,
                            ..old_row
                        },
                    };
                    self.event_add_provider.set(i, row);
                    proof {
                        assert(self@.providers[i as int] =~= update_provider_field_row(
                            pre.providers[i as int],
                            chain_id as int,
                            update_block as int,
                            provider_id as int,
                            fld,
                        ));
                    }
                }
                proof {
                    let f = |p: ProvV| update_provider_field_row(
                        p,
                        chain_id as int,
                        update_block as int,
                        provider_id as int,
                        fld,
                    );
                    assert forall|j: int| 0 <= j < pre.providers.len() implies self@.providers[j]
                        == f(pre.providers[j]) by {
                        if j < i as int {
                            assert(!same_provider(pre.providers[j], pre.providers[i as int]));
                        } else if j > i as int {
                            assert(!same_provider(pre.providers[i as int], pre.providers[j]));
                        }
                    }
                    assert(self@.providers =~= pre.providers.map_values(f));
                    assert(self@ =~= spec_update_provider_field(
                        pre,
                        chain_id as int,
                        update_block as int,
                        provider_id as int,
                        fld,
                    ));
                    assert forall|a: int, b: int|
                        0 <= a < b < self@.providers.len() implies !same_provider(
                        self@.providers[a],
                        self@.providers[b],
                    ) by {
                        assert(!same_provider(pre.providers[a], pre.providers[b]));
                    }
                }
                return 1;
            }
            i = i + 1;
        }
        proof {
            let f = |p: ProvV| update_provider_field_row(
                p,
                chain_id as int,
                update_block as int,
                provider_id as int,
                fld,
            );
            assert(self@.providers =~= pre.providers.map_values(f));
            assert(self@ =~= spec_update_provider_field(
                pre,
                chain_id as int,
                update_block as int,
                provider_id as int,
                fld,
            ));
        }
        0
    }

    /// Stores a provider's new block price, in gwei.
    pub fn update_provider_block_price(
        &mut self,
        chain_id: i64,
        update_block: i64,
        provider_id: i64,
        block_price: i64,
    ) -> (n: u64)
        requires
            store_wf(old(self)@),
        ensures
            store_wf(final(self)@),
            final(self)@ == spec_update_provider_field(
                old(self)@,
                chain_id as int,
                update_block as int,
                provider_id as int,
                ProvField::Price(block_price as int),
            ),
    {
        self.update_provider_field(
            chain_id,
            update_block,
            provider_id,
            ProvFieldUpdate::Price(block_price),
        )
    }

    /// Stores a provider's new API URL.
    pub fn update_provider_api_url(
        &mut self,
        chain_id: i64,
        update_block: i64,
        provider_id: i64,
        api_url: String,
    ) -> (n: u64)
        requires
            store_wf(old(self)@),
        ensures
            store_wf(final(self)@),
            final(self)@ == spec_update_provider_field(
                old(self)@,
                chain_id as int,
                update_block as int,
                provider_id as int,
                ProvField::ApiUrl(api_url@),
            ),
    {
        self.update_provider_field(
            chain_id,
            update_block,
            provider_id,
            ProvFieldUpdate::ApiUrl(api_url),
        )
    }

    /// Stores a provider's new owner address, lowercased.
    pub fn update_provider_owner(
        &mut self,
        chain_id: i64,
        update_block: i64,
        provider_id: i64,
        owner: String,
    ) -> (n: u64)
        requires
            store_wf(old(self)@),
        ensures
            store_wf(final(self)@),
            final(self)@ == spec_update_provider_field(
                old(self)@,
                chain_id as int,
                update_block as int,
                provider_id as int,
                ProvField::Owner(lower_seq(owner@)),
            ),
    {
        let lowered = ascii_lowercase(&owner);
        self.update_provider_field(
            chain_id,
            update_block,
            provider_id,
            ProvFieldUpdate::Owner(lowered),
        )
    }

    /// Stores a provider's new display name.
    pub fn update_provider_name(
        &mut self,
        chain_id: i64,
        update_block: i64,
        provider_id: i64,
        name: String,
    ) -> (n: u64)
        requires
            store_wf(old(self)@),
        ensures
            store_wf(final(self)@),
            final(self)@ == spec_update_provider_field(
                old(self)@,
                chain_id as int,
                update_block as int,
                provider_id as int,
                ProvField::Name(name@),
            ),
    {
        self.update_provider_field(chain_id, update_block, provider_id, ProvFieldUpdate::Name(name))
    }
}

/// How a fresh deadline joins an existing one: the sentinel `-1`
/// ("never expires") absorbs everything, otherwise the later block wins.
pub open spec fn merge_end(a: int, b: int) -> int {
    if a == -1 || b == -1 {
        -1
    } else if a >= b {
        a
    } else {
        b
    }
}

/// Recording a successful pin: an upsert keyed by `(chain_id, node, cid)`
/// whose deadline only ever moves outward.
pub open spec fn spec_add_cid(s: StoreV, t: PinRowV) -> StoreV {
    if exists|k: int| 0 <= k < s.pinned.len() && same_pin_key(s.pinned[k], t) {
        StoreV {
            pinned: s.pinned.map_values(
                |r: PinRowV| if same_pin_key(r, t) {
                    PinRowV { end_block: merge_end(r.end_block, t.end_block), ..r }
                } else {
                    r
                },
            ),
            ..s
        }
    } else {
        StoreV { pinned: s.pinned.push(t), ..s }
    }
}

/// Recording a failed pin, `ON CONFLICT DO NOTHING` over the full tuple.
pub open spec fn spec_add_failed(s: StoreV, t: PinRowV) -> StoreV {
    if s.failed.contains(t) {
        s
    } else {
        StoreV { failed: s.failed.push(t), ..s }
    }
}

/// Rows surviving the exact-tuple delete that follows a successful unpin.
pub open spec fn spec_drop_exact(s: Seq<PinRowV>, t: PinRowV) -> Seq<PinRowV>
    decreases s.len(),
{
    if s.len() == 0 {
        s
    } else {
        let rest = spec_drop_exact(s.drop_last(), t);
        if s.last() == t {
            rest
        } else {
            rest.push(s.last())
        }
    }
}

/// Rows surviving the purge of stale failed pins for one chain: every
/// record at or below the tip goes, the `-1` sentinel included, since a
/// failed pin is only a note to retry and the retry selection never takes
/// it up again past its deadline.
pub open spec fn spec_drop_expired_failed(s: Seq<PinRowV>, chain: int, bn: int) -> Seq<PinRowV>
    decreases s.len(),
{
    if s.len() == 0 {
        s
    } else {
        let rest = spec_drop_expired_failed(s.drop_last(), chain, bn);
        if s.last().chain_id == chain && s.last().end_block <= bn {
            rest
        } else {
            rest.push(s.last())
        }
    }
}

/// Whether some chain other than `chain` also holds `cid` pinned.
pub open spec fn held_by_other_chain(pinned: Seq<PinRowV>, chain: int, cid: Seq<char>) -> bool {
    exists|k: int| 0 <= k < pinned.len() && pinned[k].chain_id != chain && pinned[k].cid == cid
}

/// Rows surviving the multi-chain expiry delete: an expired row of `chain`
/// is dropped without unpinning when another chain still holds its CID.
pub open spec fn spec_drop_multichain(
    orig: Seq<PinRowV>,
    s: Seq<PinRowV>,
    chain: int,
    bn: int,
) -> Seq<PinRowV>
    decreases s.len(),
{
    if s.len() == 0 {
        s
    } else {
        let rest = spec_drop_multichain(orig, s.drop_last(), chain, bn);
        let r = s.last();
        if r.chain_id == chain && expired(r.end_block, bn) && held_by_other_chain(
            orig,
            chain,
            r.cid,
        ) {
            rest
        } else {
            rest.push(r)
        }
    }
}

/// The largest deadline any still-valid obligation gives `(chain, cid)`,
/// starting from `cur`; only obligations past the tip `bn` count.
pub open spec fn max_end(obs: Seq<ObV>, chain: int, cid: Seq<char>, bn: int, cur: int) -> int
    decreases obs.len(),
{
    if obs.len() == 0 {
        cur
    } else {
        let m = max_end(obs.drop_last(), chain, cid, bn, cur);
        let o = obs.last();
        if o.chain_id == chain && o.cid == cid && o.end_block > bn && o.end_block > m {
            o.end_block
        } else {
            m
        }
    }
}

/// One pinned row after the deadline-extension statement: rows of the chain
/// take the best obligation deadline, and `-1` rows stay permanent.
pub open spec fn upd_pin_row(r: PinRowV, obs: Seq<ObV>, chain: int, bn: int) -> PinRowV {
    if r.chain_id == chain && r.end_block != -1 {
        PinRowV { end_block: max_end(obs, chain, r.cid, bn, r.end_block), ..r }
    } else {
        r
    }
}

/// How many pinned rows the deadline-extension statement changes.
pub open spec fn spec_count_extended(
    pinned: Seq<PinRowV>,
    obs: Seq<ObV>,
    chain: int,
    bn: int,
) -> int
    decreases pinned.len(),
{
    if pinned.len() == 0 {
        0
    } else {
        spec_count_extended(pinned.drop_last(), obs, chain, bn) + if upd_pin_row(
            pinned.last(),
            obs,
            chain,
            bn,
        ) != pinned.last() {
            1int
        } else {
            0int
        }
    }
}

/// Effect of the deadline-extension statement on the store.
pub open spec fn spec_update_existing(s: StoreV, chain: int, bn: int) -> StoreV {
    StoreV { pinned: s.pinned.map_values(|r: PinRowV| upd_pin_row(r, s.obligations, chain, bn)), ..s }
}

/// Equality of two pinned or failed rows, decided field by field.
pub fn pin_rows_equal(a: &PinRow, b: &PinRow) -> (r: bool)
    ensures
        r == (a@ == b@),
{
    let r = a.chain_id == b.chain_id && a.node == b.node && a.cid == b.cid && a.end_block
        == b.end_block;
    proof {
        if r {
            assert(a@ =~= b@);
        }
    }
    r
}

impl Store {
    /// Records a successful pin of `cid` on `node`, extending the deadline
    /// of an existing record instead of duplicating it.
    pub fn add_cid(&mut self, chain_id: i64, node: String, cid: String, end_block: i64) -> (n: u64)
        requires
            store_wf(old(self)@),
        ensures
            store_wf(final(self)@),
            final(self)@ == spec_add_cid(
                old(self)@,
                PinRowV {
                    chain_id: chain_id as int,
                    node: node@,
                    cid: cid@,
                    end_block: end_block as int,
                },
            ),
            n == 1,
    {
        let row = PinRow { chain_id, node, cid, end_block };
        let ghost t = row@;
        proof {
            assert(t =~= PinRowV {
                chain_id: chain_id as int,
                node: node@,
                cid: cid@,
                end_block: end_block as int,
            });
        }
        let ghost pre = self@;
        let len = self.pinned_cids.len();
        let mut i: usize = 0;
        while i < len
            invariant
                len == self.pinned_cids.len(),
                i <= len,
                pre == old(self)@,
                self@ == pre,
                store_wf(self@),
                row@ == t,
                t == (PinRowV {
                    chain_id: chain_id as int,
                    node: node@,
                    cid: cid@,
                    end_block: end_block as int,
                }),
                forall|k: int| 0 <= k < i ==> !same_pin_key(self@.pinned[k], t),
            decreases len - i,
        {
            if self.pinned_cids[i].chain_id == row.chain_id && self.pinned_cids[i].node == row.node
                && self.pinned_cids[i].cid == row.cid {
                assert(same_pin_key(pre.pinned[i as int], t));
                let cur = self.pinned_cids[i].end_block;
                let merged: i64 = if cur == -1 || row.end_block == -1 {
                    -1
                } else if cur >= row.end_block {
                    cur
                } else {
                    row.end_block
                };
                let updated = PinRow { end_block: merged, ..row };
                self.pinned_cids.set(i, updated);
                proof {
                    assert(self@.pinned[i as int] =~= PinRowV {
                        end_block: merge_end(pre.pinned[i as int].end_block, t.end_block),
                        ..pre.pinned[i as int]
                    });
                    let f = |r: PinRowV| if same_pin_key(r, t) {
                        PinRowV { end_block: merge_end(r.end_block, t.end_block), ..r }
                    } else {
                        r
                    };
                    assert forall|j: int| 0 <= j < pre.pinned.len() implies self@.pinned[j] == f(
                        pre.pinned[j],
                    ) by {
                        if j < i as int {
                            assert(!same_pin_key(pre.pinned[j], pre.pinned[i as int]));
                        } else if j > i as int {
                            assert(!same_pin_key(pre.pinned[i as int], pre.pinned[j]));
                        }
                    }
                    assert(self@.pinned =~= pre.pinned.map_values(f));
                    assert(self@ =~= spec_add_cid(pre, t));
                    assert forall|a: int, b: int|
                        0 <= a < b < self@.pinned.len() implies !same_pin_key(
                        self@.pinned[a],
                        self@.pinned[b],
                    ) by {
                        assert(!same_pin_key(pre.pinned[a], pre.pinned[b]));
                    }
                }
                return 1;
            }
            i = i + 1;
        }
        self.pinned_cids.push(row);
        proof {
            assert(self@.pinned =~= pre.pinned.push(t));
            assert(self@ =~= spec_add_cid(pre, t));
        }
        1
    }

    /// Remembers a failed pin attempt once per `(chain, node, cid, deadline)`.
    pub fn add_failed_pin(&mut self, chain_id: i64, node: &str, cid: &str, end_block: i64)
        -> (n: u64)
        requires
            store_wf(old(self)@),
        ensures
            store_wf(final(self)@),
            final(self)@ == spec_add_failed(
                old(self)@,
                PinRowV {
                    chain_id: chain_id as int,
                    node: node@,
                    cid: cid@,
                    end_block: end_block as int,
                },
            ),
            n == if old(self)@.failed.contains(
                PinRowV {
                    chain_id: chain_id as int,
                    node: node@,
                    cid: cid@,
                    end_block: end_block as int,
                },
            ) {
                0int
            } else {
                1int
            },
    {
        let row = PinRow { chain_id, node: node.to_owned(), cid: cid.to_owned(), end_block };
        let ghost t = PinRowV {
            chain_id: chain_id as int,
            node: node@,
            cid: cid@,
            end_block: end_block as int,
        };
        proof {
            assert(row@ =~= t);
        }
        let ghost pre = self@;
        let len = self.failed_pins.len();
        let mut i: usize = 0;
        while i < len
            invariant
                len == self.failed_pins.len(),
                i <= len,
                pre == old(self)@,
                self@ == pre,
                store_wf(self@),
                row@ == t,
                t == (PinRowV {
                    chain_id: chain_id as int,
                    node: node@,
                    cid: cid@,
                    end_block: end_block as int,
                }),
                forall|k: int| 0 <= k < i ==> self@.failed[k] != t,
            decreases len - i,
        {
            if pin_rows_equal(&self.failed_pins[i], &row) {
                proof {
                    assert(self@.failed[i as int] == t);
                    assert(self@.failed.contains(t));
                }
                return 0;
            }
            i = i + 1;
        }
        assert(!self@.failed.contains(t));
        self.failed_pins.push(row);
        proof {
            assert(self@.failed =~= pre.failed.push(t));
            assert(self@ =~= spec_add_failed(pre, t));
        }
        1
    }

    /// Forgets the record of one pin after the node confirmed the unpin;
    /// only rows equal to the full tuple go.
    pub fn delete_cid(&mut self, chain_id: i64, node: String, cid: String, end_block: i64)
        -> (n: u64)
        requires
            store_wf(old(self)@),
        ensures
            store_wf(final(self)@),
            final(self)@ == (StoreV {
                pinned: spec_drop_exact(
                    old(self)@.pinned,
                    PinRowV {
                        chain_id: chain_id as int,
                        node: node@,
                        cid: cid@,
                        end_block: end_block as int,
                    },
                ),
                ..old(self)@
            }),
            n == old(self)@.pinned.len() - final(self)@.pinned.len(),
    {
        let target = PinRow { chain_id, node, cid, end_block };
        let ghost t = target@;
        let ghost pre = self@;
        let len = self.pinned_cids.len();
        let mut kept: Vec<PinRow> = Vec::new();
        let mut i: usize = 0;
        while i < len
            invariant
                len == self.pinned_cids.len(),
                i <= len,
                pre == old(self)@,
                self@ == pre,
                store_wf(self@),
                target@ == t,
                (kept@.map_values(|r: PinRow| r@)) =~= spec_drop_exact(pre.pinned.take(i as int), t),
            decreases len - i,
        {
            let keep = !pin_rows_equal(&self.pinned_cids[i], &target);
            if keep {
                kept.push(self.pinned_cids[i].clone());
            }
            i = i + 1;
            proof {
                assert(pre.pinned.take(i as int).drop_last() =~= pre.pinned.take(i - 1));
                assert(pre.pinned.take(i as int).last() == pre.pinned[i - 1]);
            }
        }
        proof {
            assert(pre.pinned.take(len as int) =~= pre.pinned);
        }
        proof {
            lemma_drop_exact_len(pre.pinned, t);
            assert(kept@.len() == spec_drop_exact(pre.pinned, t).len());
        }
        let n = (len - kept.len()) as u64;
        self.pinned_cids = kept;
        proof {
            assert(self@ =~= StoreV { pinned: spec_drop_exact(pre.pinned, t), ..pre });
            lemma_drop_exact_wf(pre.pinned, t);
        }
        n
    }

    /// Purges failed-pin records of the chain whose deadline has passed.
    pub fn delete_expired_failed_cids(&mut self, chain_id: i64, end_block: i64) -> (n: u64)
        requires
            store_wf(old(self)@),
        ensures
            store_wf(final(self)@),
            final(self)@ == (StoreV {
                failed: spec_drop_expired_failed(
                    old(self)@.failed,
                    chain_id as int,
                    end_block as int,
                ),
                ..old(self)@
            }),
            n == old(self)@.failed.len() - final(self)@.failed.len(),
    {
        let ghost pre = self@;
        let len = self.failed_pins.len();
        let mut kept: Vec<PinRow> = Vec::new();
        let mut i: usize = 0;
        while i < len
            invariant
                len == self.failed_pins.len(),
                i <= len,
                pre == old(self)@,
                self@ == pre,
                store_wf(self@),
                (kept@.map_values(|r: PinRow| r@)) =~= spec_drop_expired_failed(
                    pre.failed.take(i as int),
                    chain_id as int,
                    end_block as int,
                ),
            decreases len - i,
        {
            let r = &self.failed_pins[i];
            let drop_it = r.chain_id == chain_id && r.end_block <= end_block;
            if !drop_it {
                kept.push(self.failed_pins[i].clone());
            }
            i = i + 1;
            proof {
                assert(pre.failed.take(i as int).drop_last() =~= pre.failed.take(i - 1));
                assert(pre.failed.take(i as int).last() == pre.failed[i - 1]);
            }
        }
        proof {
            assert(pre.failed.take(len as int) =~= pre.failed);
        }
        proof {
            lemma_drop_expired_failed_len(pre.failed, chain_id as int, end_block as int);
            assert(kept@.len() == spec_drop_expired_failed(
                pre.failed,
                chain_id as int,
                end_block as int,
            ).len());
        }
        let n = (len - kept.len()) as u64;
        self.failed_pins = kept;
        proof {
            assert(self@ =~= StoreV {
                failed: spec_drop_expired_failed(pre.failed, chain_id as int, end_block as int),
                ..pre
            });
            lemma_drop_expired_failed_wf(pre.failed, chain_id as int, end_block as int);
        }
        n
    }

    /// Whether a chain other than `chain_id` also holds `cid` pinned.
    fn holds_on_other_chain(&self, chain_id: i64, cid: &String) -> (r: bool)
        ensures
            r == held_by_other_chain(self@.pinned, chain_id as int, cid@),
    {
        let len = self.pinned_cids.len();
        let mut i: usize = 0;
        while i < len
            invariant
                len == self.pinned_cids.len(),
                i <= len,
                forall|k: int|
                    0 <= k < i ==> !(self@.pinned[k].chain_id != chain_id && self@.pinned[k].cid
                        == cid@),
            decreases len - i,
        {
            if self.pinned_cids[i].chain_id != chain_id && self.pinned_cids[i].cid == *cid {
                proof {
                    assert(self@.pinned[i as int].chain_id != chain_id && self@.pinned[i as int].cid
                        == cid@);
                }
                return true;
            }
            i = i + 1;
        }
        false
    }

    /// Drops expired rows of the chain whose CID another chain still holds:
    /// the record goes, the content stays pinned for the other chain.
    pub fn delete_multichain_expired_cids(&mut self, chain_id: i64, end_block: i64) -> (n: u64)
        requires
            store_wf(old(self)@),
        ensures
            store_wf(final(self)@),
            final(self)@ == (StoreV {
                pinned: spec_drop_multichain(
                    old(self)@.pinned,
                    old(self)@.pinned,
                    chain_id as int,
                    end_block as int,
                ),
                ..old(self)@
            }),
            n == old(self)@.pinned.len() - final(self)@.pinned.len(),
    {
        let ghost pre = self@;
        let len = self.pinned_cids.len();
        let mut kept: Vec<PinRow> = Vec::new();
        let mut i: usize = 0;
        while i < len
            invariant
                len == self.pinned_cids.len(),
                i <= len,
                pre == old(self)@,
                self@ == pre,
                store_wf(self@),
                (kept@.map_values(|r: PinRow| r@)) =~= spec_drop_multichain(
                    pre.pinned,
                    pre.pinned.take(i as int),
                    chain_id as int,
                    end_block as int,
                ),
            decreases len - i,
        {
            let expired_here = self.pinned_cids[i].chain_id == chain_id
                && self.pinned_cids[i].end_block != -1 && self.pinned_cids[i].end_block
                <= end_block;
            let drop_it = if expired_here {
                let cid = self.pinned_cids[i].cid.clone();
                self.holds_on_other_chain(chain_id, &cid)
            } else {
                false
            };
            if !drop_it {
                kept.push(self.pinned_cids[i].clone());
            }
            i = i + 1;
            proof {
                assert(pre.pinned.take(i as int).drop_last() =~= pre.pinned.take(i - 1));
                assert(pre.pinned.take(i as int).last() == pre.pinned[i - 1]);
            }
        }
        proof {
            assert(pre.pinned.take(len as int) =~= pre.pinned);
        }
        proof {
            lemma_drop_multichain_len(pre.pinned, pre.pinned, chain_id as int, end_block as int);
            assert(kept@.len() == spec_drop_multichain(
                pre.pinned,
                pre.pinned,
                chain_id as int,
                end_block as int,
            ).len());
        }
        let n = (len - kept.len()) as u64;
        self.pinned_cids = kept;
        proof {
            assert(self@ =~= StoreV {
                pinned: spec_drop_multichain(
                    pre.pinned,
                    pre.pinned,
                    chain_id as int,
                    end_block as int,
                ),
                ..pre
            });
            lemma_drop_multichain_wf(pre.pinned, pre.pinned, chain_id as int, end_block as int);
        }
        n
    }

    /// The best still-valid obligation deadline for `(chain, cid)`,
    /// starting from `cur`.
    fn max_end_exec(&self, chain_id: i64, cid: &String, bn: i64, cur: i64) -> (m: i64)
        ensures
            m == max_end(self@.obligations, chain_id as int, cid@, bn as int, cur as int),
    {
        let len = self.event_update_valid_block.len();
        let mut m: i64 = cur;
        let mut j: usize = 0;
        while j < len
            invariant
                len == self.event_update_valid_block.len(),
                j <= len,
                m == max_end(
                    self@.obligations.take(j as int),
                    chain_id as int,
                    cid@,
                    bn as int,
                    cur as int,
                ),
            decreases len - j,
        {
            let o = &self.event_update_valid_block[j];
            if o.chain_id == chain_id && o.cid == *cid && o.end_block > bn && o.end_block > m {
                m = o.end_block;
            }
            j = j + 1;
            proof {
                assert(self@.obligations.take(j as int).drop_last() =~= self@.obligations.take(
                    j - 1,
                ));
                assert(self@.obligations.take(j as int).last() == self@.obligations[j - 1]);
            }
        }
        proof {
            assert(self@.obligations.take(len as int) =~= self@.obligations);
        }
        m
    }

    /// Extends the deadlines of the chain's pinned rows to the best
    /// still-valid obligation; permanent rows stay untouched. Returns how
    /// many rows changed, as the database would.
    pub fn update_existing_cids_end_block(&mut self, chain_id: i64, end_block: i64) -> (n: u64)
        requires
            store_wf(old(self)@),
        ensures
            store_wf(final(self)@),
            final(self)@ == spec_update_existing(old(self)@, chain_id as int, end_block as int),
            n == spec_count_extended(
                old(self)@.pinned,
                old(self)@.obligations,
                chain_id as int,
                end_block as int,
            ),
    {
        let ghost pre = self@;
        let len = self.pinned_cids.len();
        let mut n: u64 = 0;
        let mut i: usize = 0;
        while i < len
            invariant
                len == self.pinned_cids.len(),
                i <= len,
                pre == old(self)@,
                self@.obligations == pre.obligations,
                self@.providers == pre.providers,
                self@.failed == pre.failed,
                self@.pinned.len() == pre.pinned.len(),
                forall|k: int|
                    0 <= k < i ==> self@.pinned[k] == #[trigger] upd_pin_row(
                        pre.pinned[k],
                        pre.obligations,
                        chain_id as int,
                        end_block as int,
                    ),
                forall|k: int| i <= k < len ==> self@.pinned[k] == pre.pinned[k],
                n <= i,
                n == spec_count_extended(
                    pre.pinned.take(i as int),
                    pre.obligations,
                    chain_id as int,
                    end_block as int,
                ),
            decreases len - i,
        {
            if self.pinned_cids[i].chain_id == chain_id && self.pinned_cids[i].end_block != -1 {
                let cid = self.pinned_cids[i].cid.clone();
                let cur = self.pinned_cids[i].end_block;
                let m = self.max_end_exec(chain_id, &cid, end_block, cur);
                if m != cur {
                    let node = self.pinned_cids[i].node.clone();
                    let row = PinRow { chain_id, node, cid, end_block: m };
                    self.pinned_cids.set(i, row);
                    n = n + 1;
                }
                proof {
                    assert(self@.pinned[i as int] =~= upd_pin_row(
                        pre.pinned[i as int],
                        pre.obligations,
                        chain_id as int,
                        end_block as int,
                    ));
                }
            } else {
                proof {
                    assert(self@.pinned[i as int] =~= upd_pin_row(
                        pre.pinned[i as int],
                        pre.obligations,
                        chain_id as int,
                        end_block as int,
                    ));
                }
            }
            i = i + 1;
            proof {
                assert(pre.pinned.take(i as int).drop_last() =~= pre.pinned.take(i - 1));
                assert(pre.pinned.take(i as int).last() == pre.pinned[i - 1]);
                let here = pre.pinned[i - 1];
                let there = upd_pin_row(here, pre.obligations, chain_id as int, end_block as int);
                if here.chain_id == chain_id && here.end_block != -1 {
                    if there.end_block == here.end_block {
                        assert(there =~= here);
                    } else {
                        assert(there != here);
                    }
                }
            }
        }
        proof {
            assert(pre.pinned.take(len as int) =~= pre.pinned);
            assert(self@.pinned =~= pre.pinned.map_values(
                |r: PinRowV| upd_pin_row(r, pre.obligations, chain_id as int, end_block as int),
            ));
            assert(self@ =~= spec_update_existing(pre, chain_id as int, end_block as int));
            assert forall|a: int, b: int|
                0 <= a < b < self@.pinned.len() implies !same_pin_key(
                self@.pinned[a],
                self@.pinned[b],
            ) by {
                assert(!same_pin_key(pre.pinned[a], pre.pinned[b]));
            }
        }
        n
    }
}

/// Dropping rows never lengthens a table.
proof fn lemma_drop_exact_len(s: Seq<PinRowV>, t: PinRowV)
    ensures
        spec_drop_exact(s, t).len() <= s.len(),
    decreases s.len(),
{
    if s.len() > 0 {
        lemma_drop_exact_len(s.drop_last(), t);
    }
}

/// The exact-tuple delete keeps a subsequence: uniqueness survives it.
proof fn lemma_drop_exact_wf(s: Seq<PinRowV>, t: PinRowV)
    requires
        forall|i: int, j: int| 0 <= i < j < s.len() ==> !same_pin_key(s[i], s[j]),
    ensures
        forall|i: int, j: int|
            0 <= i < j < spec_drop_exact(s, t).len() ==> !same_pin_key(
                spec_drop_exact(s, t)[i],
                spec_drop_exact(s, t)[j],
            ),
{
    lemma_drop_exact_sub(s, t);
    lemma_key_subseq_unique(spec_drop_exact(s, t), s);
}

/// Every row the exact-tuple delete keeps stands in the original table.
proof fn lemma_drop_exact_sub(s: Seq<PinRowV>, t: PinRowV)
    ensures
        is_key_subseq(spec_drop_exact(s, t), s),
    decreases s.len(),
{
    if s.len() == 0 {
        let f = |i: int| i;
        assert(selects(f, spec_drop_exact(s, t), s));
        assert(is_key_subseq(spec_drop_exact(s, t), s));
    } else {
        lemma_drop_exact_sub(s.drop_last(), t);
        lemma_key_subseq_extend(spec_drop_exact(s.drop_last(), t), s, s.last());
    }
}

/// `f` names, for each index of `a`, the strictly increasing position in
/// `b` that the row was taken from.
pub open spec fn selects(f: spec_fn(int) -> int, a: Seq<PinRowV>, b: Seq<PinRowV>) -> bool {
    &&& forall|i: int| 0 <= i < a.len() ==> 0 <= #[trigger] f(i) < b.len()
    &&& forall|i: int, j: int| 0 <= i < j < a.len() ==> #[trigger] f(i) < #[trigger] f(j)
    &&& forall|i: int| 0 <= i < a.len() ==> a[i] == b[#[trigger] f(i)]
}

/// `a` is an order-preserving selection of `b`.
pub open spec fn is_key_subseq(a: Seq<PinRowV>, b: Seq<PinRowV>) -> bool {
    exists|f: spec_fn(int) -> int| #[trigger] selects(f, a, b)
}

/// Helper for the selection argument: a selection of a shorter table
/// extends when the table grows by one row, whether or not it is kept.
proof fn lemma_key_subseq_extend(a: Seq<PinRowV>, b: Seq<PinRowV>, last: PinRowV)
    requires
        b.len() > 0,
        last == b.last(),
        is_key_subseq(a, b.drop_last()),
    ensures
        is_key_subseq(a, b),
        is_key_subseq(a.push(last), b),
{
    let f = choose|f: spec_fn(int) -> int| #[trigger] selects(f, a, b.drop_last());
    assert forall|i: int| 0 <= i < a.len() implies a[i] == b[#[trigger] f(i)] by {
        assert(b.drop_last()[f(i)] == b[f(i)]);
    }
    assert(selects(f, a, b));
    assert(is_key_subseq(a, b));
    let g = |i: int| if i < a.len() { f(i) } else { b.len() - 1 };
    assert forall|i: int| 0 <= i < a.push(last).len() implies 0 <= #[trigger] g(i) < b.len()
        && a.push(last)[i] == b[g(i)] by {
        if i < a.len() {
            assert(b.drop_last()[f(i)] == b[f(i)]);
        }
    }
    assert forall|i: int, j: int| 0 <= i < j < a.push(last).len() implies #[trigger] g(i)
        < #[trigger] g(j) by {}
    assert(selects(g, a.push(last), b));
    assert(is_key_subseq(a.push(last), b));
}

/// A selection of a table without duplicate keys has none either.
proof fn lemma_key_subseq_unique(a: Seq<PinRowV>, b: Seq<PinRowV>)
    requires
        is_key_subseq(a, b),
        forall|i: int, j: int| 0 <= i < j < b.len() ==> !same_pin_key(b[i], b[j]),
    ensures
        forall|i: int, j: int| 0 <= i < j < a.len() ==> !same_pin_key(a[i], a[j]),
{
    let f = choose|f: spec_fn(int) -> int| #[trigger] selects(f, a, b);
    assert forall|i: int, j: int| 0 <= i < j < a.len() implies !same_pin_key(a[i], a[j]) by {
        assert(0 <= f(i) < b.len());
        assert(0 <= f(j) < b.len());
        assert(f(i) < f(j));
        assert(!same_pin_key(b[f(i)], b[f(j)]));
    }
}

/// Dropping rows never lengthens a table.
proof fn lemma_drop_expired_failed_len(s: Seq<PinRowV>, chain: int, bn: int)
    ensures
        spec_drop_expired_failed(s, chain, bn).len() <= s.len(),
    decreases s.len(),
{
    if s.len() > 0 {
        lemma_drop_expired_failed_len(s.drop_last(), chain, bn);
    }
}

/// The expiry purge keeps a subsequence: full-tuple uniqueness survives.
proof fn lemma_drop_expired_failed_wf(s: Seq<PinRowV>, chain: int, bn: int)
    requires
        forall|i: int, j: int| 0 <= i < j < s.len() ==> s[i] != s[j],
    ensures
        forall|i: int, j: int|
            0 <= i < j < spec_drop_expired_failed(s, chain, bn).len() ==> spec_drop_expired_failed(
                s,
                chain,
                bn,
            )[i] != spec_drop_expired_failed(s, chain, bn)[j],
{
    lemma_drop_expired_failed_sub(s, chain, bn);
    let a = spec_drop_expired_failed(s, chain, bn);
    let f = choose|f: spec_fn(int) -> int| #[trigger] selects(f, a, s);
    assert forall|i: int, j: int| 0 <= i < j < a.len() implies a[i] != a[j] by {
        assert(0 <= f(i) < s.len());
        assert(0 <= f(j) < s.len());
        assert(f(i) < f(j));
        assert(s[f(i)] != s[f(j)]);
    }
}

/// Every row the expiry purge keeps stands in the original table.
proof fn lemma_drop_expired_failed_sub(s: Seq<PinRowV>, chain: int, bn: int)
    ensures
        is_key_subseq(spec_drop_expired_failed(s, chain, bn), s),
    decreases s.len(),
{
    if s.len() == 0 {
        let f = |i: int| i;
        assert(selects(f, spec_drop_expired_failed(s, chain, bn), s));
        assert(is_key_subseq(spec_drop_expired_failed(s, chain, bn), s));
    } else {
        lemma_drop_expired_failed_sub(s.drop_last(), chain, bn);
        lemma_key_subseq_extend(spec_drop_expired_failed(s.drop_last(), chain, bn), s, s.last());
    }
}

/// Dropping rows never lengthens a table.
proof fn lemma_drop_multichain_len(orig: Seq<PinRowV>, s: Seq<PinRowV>, chain: int, bn: int)
    ensures
        spec_drop_multichain(orig, s, chain, bn).len() <= s.len(),
    decreases s.len(),
{
    if s.len() > 0 {
        lemma_drop_multichain_len(orig, s.drop_last(), chain, bn);
    }
}

/// Every row the multi-chain delete keeps stands in the original table.
proof fn lemma_drop_multichain_sub(orig: Seq<PinRowV>, s: Seq<PinRowV>, chain: int, bn: int)
    ensures
        is_key_subseq(spec_drop_multichain(orig, s, chain, bn), s),
    decreases s.len(),
{
    if s.len() == 0 {
        let f = |i: int| i;
        assert(selects(f, spec_drop_multichain(orig, s, chain, bn), s));
        assert(is_key_subseq(spec_drop_multichain(orig, s, chain, bn), s));
    } else {
        lemma_drop_multichain_sub(orig, s.drop_last(), chain, bn);
        lemma_key_subseq_extend(spec_drop_multichain(orig, s.drop_last(), chain, bn), s, s.last());
    }
}

/// The multi-chain delete keeps a subsequence: key uniqueness survives.
proof fn lemma_drop_multichain_wf(orig: Seq<PinRowV>, s: Seq<PinRowV>, chain: int, bn: int)
    requires
        forall|i: int, j: int| 0 <= i < j < s.len() ==> !same_pin_key(s[i], s[j]),
    ensures
        forall|i: int, j: int|
            0 <= i < j < spec_drop_multichain(orig, s, chain, bn).len() ==> !same_pin_key(
                spec_drop_multichain(orig, s, chain, bn)[i],
                spec_drop_multichain(orig, s, chain, bn)[j],
            ),
{
    lemma_drop_multichain_sub(orig, s, chain, bn);
    lemma_key_subseq_unique(spec_drop_multichain(orig, s, chain, bn), s);
}

/// Equality of two obligation rows, decided field by field.
pub fn ob_rows_equal(a: &EventUpdateValidBlock, b: &EventUpdateValidBlock) -> (r: bool)
    ensures
        r == (a@ == b@),
{
    let manual_eq = match (&a.manual_add, &b.manual_add) {
        (Option::Some(x), Option::Some(y)) => *x == *y,
        (Option::None, Option::None) => true,
        _ => false,
    };
    let r = a.chain_id == b.chain_id && a.cid == b.cid && a.donor == b.donor
        && a.update_block == b.update_block && a.end_block == b.end_block && manual_eq;
    proof {
        if r {
            assert(a@ =~= b@);
        }
    }
    r
}

} // verus!
