//! The read API's query layer over the store: provider listings, the
//! donor's pinned-CIDs listing, per-CID aggregates, and the manual pin
//! path, each with the rows, the order and the cut-off stated exactly.

use vstd::prelude::*;
use vstd::multiset::Multiset;
use vstd::relations::sorted_by;

use crate::config::Web3Node;
use crate::store::{spec_add_valid_block, store_wf, Store};
use crate::strutil::{
    ascii_lowercase,
    chars_le,
    lemma_chars_le_total,
    lemma_chars_le_trans,
    lower_seq,
    str_le,
};
use crate::store::StoreV;
use crate::types::{
    some_int,
    CIDChainAggregate,
    CidChainAggV,
    EventAddProviderResponse,
    EventUpdateValidBlock,
    ObV,
    PinnedCIDs,
    PinnedCIDsV,
    PinRowV,
    ProvRespV,
    ProvV,
};

verus! {

/// A provider row as one listing row, with or without its update block.
pub open spec fn spec_provider_resp(p: ProvV, with_update_block: bool) -> ProvRespV {
    ProvRespV {
        provider_id: p.provider_id,
        block_price_gwei: p.block_price_gwei,
        api_url: p.api_url,
        name: p.name,
        update_block: if with_update_block {
            Option::Some(p.update_block)
        } else {
            Option::None
        },
    }
}

/// The chain's provider rows as listing rows, in table order.
pub open spec fn spec_provider_rows(ps: Seq<ProvV>, chain: int) -> Seq<ProvRespV>
    decreases ps.len(),
{
    if ps.len() == 0 {
        Seq::<ProvRespV>::empty()
    } else {
        let prev = spec_provider_rows(ps.drop_last(), chain);
        if ps.last().chain_id == chain {
            prev.push(spec_provider_resp(ps.last(), false))
        } else {
            prev
        }
    }
}

/// The rows of one owner's providers on a chain, in table order.
pub open spec fn spec_owner_rows(ps: Seq<ProvV>, chain: int, owner: Seq<char>) -> Seq<ProvRespV>
    decreases ps.len(),
{
    if ps.len() == 0 {
        Seq::<ProvRespV>::empty()
    } else {
        let prev = spec_owner_rows(ps.drop_last(), chain, owner);
        if ps.last().chain_id == chain && ps.last().owner == owner {
            prev.push(spec_provider_resp(ps.last(), true))
        } else {
            prev
        }
    }
}

/// The provider listing order: by price, then by name; or by name alone.
pub open spec fn resp_le(a: ProvRespV, b: ProvRespV, by_price: bool) -> bool {
    if by_price {
        a.block_price_gwei < b.block_price_gwei || (a.block_price_gwei == b.block_price_gwei
            && chars_le(a.name, b.name))
    } else {
        chars_le(a.name, b.name)
    }
}

/// The listing order compares any two rows.
proof fn lemma_resp_le_total(a: ProvRespV, b: ProvRespV, by_price: bool)
    ensures
        resp_le(a, b, by_price) || resp_le(b, a, by_price),
{
    lemma_chars_le_total(a.name, b.name);
}

/// The listing order chains.
proof fn lemma_resp_le_trans(a: ProvRespV, b: ProvRespV, c: ProvRespV, by_price: bool)
    requires
        resp_le(a, b, by_price),
        resp_le(b, c, by_price),
    ensures
        resp_le(a, c, by_price),
{
    if chars_le(a.name, b.name) && chars_le(b.name, c.name) {
        lemma_chars_le_trans(a.name, b.name, c.name);
    }
}

/// Decides the listing order on two rows.
fn resp_le_exec(a: &EventAddProviderResponse, b: &EventAddProviderResponse, by_price: bool) -> (r:
    bool)
    ensures
        r == resp_le(a@, b@, by_price),
{
    if by_price {
        if a.block_price_gwei < b.block_price_gwei {
            true
        } else if a.block_price_gwei == b.block_price_gwei {
            str_le(&a.name, &b.name)
        } else {
            false
        }
    } else {
        str_le(&a.name, &b.name)
    }
}

/// The index of a least row under the listing order.
fn find_min_resp(v: &Vec<EventAddProviderResponse>, by_price: bool) -> (m: usize)
    requires
        v@.len() > 0,
    ensures
        m < v@.len(),
        forall|k: int| 0 <= k < v@.len() ==> resp_le(v@[m as int]@, (#[trigger] v@[k])@, by_price),
{
    let len = v.len();
    let mut best: usize = 0;
    let mut j: usize = 1;
    proof {
        lemma_resp_le_total(v@[0]@, v@[0]@, by_price);
    }
    while j < len
        invariant
            len == v@.len(),
            best < j <= len,
            forall|k: int| 0 <= k < j ==> resp_le(v@[best as int]@, (#[trigger] v@[k])@, by_price),
        decreases len - j,
    {
        if !resp_le_exec(&v[best], &v[j], by_price) {
            proof {
                lemma_resp_le_total(v@[best as int]@, v@[j as int]@, by_price);
                assert forall|k: int| 0 <= k < j + 1 implies resp_le(
                    v@[j as int]@,
                    (#[trigger] v@[k])@,
                    by_price,
                ) by {
                    if k < j {
                        lemma_resp_le_trans(v@[j as int]@, v@[best as int]@, v@[k]@, by_price);
                    } else {
                        lemma_resp_le_total(v@[j as int]@, v@[j as int]@, by_price);
                    }
                }
            }
            best = j;
        } else {
            proof {
                lemma_resp_le_total(v@[j as int]@, v@[j as int]@, by_price);
            }
        }
        j = j + 1;
    }
    best
}

/// Sorts listing rows under the listing order, keeping exactly the same
/// rows.
fn sort_responses(v: Vec<EventAddProviderResponse>, by_price: bool) -> (r: Vec<
    EventAddProviderResponse,
>)
    ensures
        (r@.map_values(|x: EventAddProviderResponse| x@)).to_multiset() == (v@.map_values(
            |x: EventAddProviderResponse| x@,
        )).to_multiset(),
        sorted_by(
            r@.map_values(|x: EventAddProviderResponse| x@),
            |a: ProvRespV, b: ProvRespV| resp_le(a, b, by_price),
        ),
{
    broadcast use vstd::seq_lib::group_to_multiset_ensures;

    let ghost orig = v@.map_values(|x: EventAddProviderResponse| x@).to_multiset();
    let mut work = v;
    let mut out: Vec<EventAddProviderResponse> = Vec::new();
    while work.len() > 0
        invariant
            (out@.map_values(|x: EventAddProviderResponse| x@)).to_multiset().add(
                (work@.map_values(|x: EventAddProviderResponse| x@)).to_multiset(),
            ) =~= orig,
            sorted_by(
                out@.map_values(|x: EventAddProviderResponse| x@),
                |a: ProvRespV, b: ProvRespV| resp_le(a, b, by_price),
            ),
            forall|i: int, k: int|
                0 <= i < out@.len() && 0 <= k < work@.len() ==> resp_le(
                    (#[trigger] out@[i])@,
                    (#[trigger] work@[k])@,
                    by_price,
                ),
        decreases work.len(),
    {
        let ghost pre_work = work@.map_values(|x: EventAddProviderResponse| x@);
        let ghost pre_out = out@.map_values(|x: EventAddProviderResponse| x@);
        let m = find_min_resp(&work, by_price);
        let x = work.remove(m);
        let ghost xv = x@;
        proof {
            pre_work.to_multiset_ensures();
            pre_out.to_multiset_ensures();
            assert(work@.map_values(|y: EventAddProviderResponse| y@) =~= pre_work.remove(
                m as int,
            ));
            assert(pre_work.remove(m as int).to_multiset() =~= pre_work.to_multiset().remove(xv));
        }
        out.push(x);
        proof {
            assert(out@.map_values(|y: EventAddProviderResponse| y@) =~= pre_out.push(xv));
            assert(pre_out.push(xv).to_multiset() =~= pre_out.to_multiset().insert(xv));
            assert(pre_out.to_multiset().insert(xv).add(pre_work.to_multiset().remove(xv))
                =~= pre_out.to_multiset().add(pre_work.to_multiset()));
            let le = |a: ProvRespV, b: ProvRespV| resp_le(a, b, by_price);
            let new_out = pre_out.push(xv);
            assert forall|i: int, j: int| 0 <= i < j < new_out.len() implies le(
                new_out[i],
                new_out[j],
            ) by {
                if j < new_out.len() - 1 {
                    assert(le(pre_out[i], pre_out[j]));
                } else {
                    assert(le(pre_out[i], pre_work[m as int]));
                }
            }
            assert forall|i: int, k: int|
                0 <= i < new_out.len() && 0 <= k < pre_work.remove(m as int).len() implies le(
                new_out[i],
                pre_work.remove(m as int)[k],
            ) by {
                let w = pre_work.remove(m as int)[k];
                if k < m as int {
                    assert(w == pre_work[k]);
                } else {
                    assert(w == pre_work[k + 1]);
                }
                if i < new_out.len() - 1 {
                    assert(le(pre_out[i], w));
                } else {
                    assert(le(xv, w));
                }
            }
        }
    }
    proof {
        assert((work@.map_values(|x: EventAddProviderResponse| x@)).to_multiset()
            =~= Multiset::<ProvRespV>::empty());
        assert((out@.map_values(|x: EventAddProviderResponse| x@)).to_multiset() =~= orig);
    }
    out
}

/// Keeps only the first hundred rows, as the listings' cut-off asks.
fn truncate_hundred<T>(v: &mut Vec<T>)
    ensures
        final(v)@ == old(v)@.take(
            if old(v)@.len() >= 100 {
                100int
            } else {
                old(v)@.len() as int
            },
        ),
{
    let ghost orig = v@;
    while v.len() > 100
        invariant
            v@.len() <= orig.len(),
            orig.len() >= 100 ==> v@.len() >= 100,
            orig.len() < 100 ==> v@.len() == orig.len(),
            v@ == orig.take(v@.len() as int),
        decreases v@.len(),
    {
        proof {
            assert(orig.take(v@.len() as int).drop_last() =~= orig.take(v@.len() - 1));
        }
        v.pop();
    }
    proof {
        assert(orig.take(orig.len() as int) =~= orig);
    }
}

impl Store {
    /// The chain's providers, cheapest first, names breaking ties, at most
    /// one hundred rows: the first hundred of some sorted arrangement of
    /// exactly the chain's rows.
    pub fn get_providers(&self, chain_id: i64) -> (r: Vec<EventAddProviderResponse>)
        ensures
            exists|full: Seq<ProvRespV>|
                {
                    &&& #[trigger] full.to_multiset() == spec_provider_rows(
                        self@.providers,
                        chain_id as int,
                    ).to_multiset()
                    &&& sorted_by(full, |a: ProvRespV, b: ProvRespV| resp_le(a, b, true))
                    &&& (r@.map_values(|x: EventAddProviderResponse| x@)) == full.take(
                        if full.len() >= 100 {
                            100int
                        } else {
                            full.len() as int
                        },
                    )
                },
    {
        let len = self.event_add_provider.len();
        let mut rows: Vec<EventAddProviderResponse> = Vec::new();
        let mut i: usize = 0;
        proof {
            assert(rows@.map_values(|x: EventAddProviderResponse| x@) =~= spec_provider_rows(
                self@.providers.take(0),
                chain_id as int,
            ));
        }
        while i < len
            invariant
                len == self.event_add_provider.len(),
                i <= len,
                (rows@.map_values(|x: EventAddProviderResponse| x@)) == spec_provider_rows(
                    self@.providers.take(i as int),
                    chain_id as int,
                ),
            decreases len - i,
        {
            let p = &self.event_add_provider[i];
            if p.chain_id == chain_id {
                let row = EventAddProviderResponse {
                    provider_id: self.event_add_provider[i].provider_id,
                    block_price_gwei: self.event_add_provider[i].block_price_gwei,
                    api_url: self.event_add_provider[i].api_url.clone(),
                    name: self.event_add_provider[i].name.clone(),
                    update_block: Option::None,
                };
                proof {
                    assert(row@ =~= spec_provider_resp(self@.providers[i as int], false));
                }
                rows.push(row);
            }
            i = i + 1;
            proof {
                assert(self@.providers.take(i as int).drop_last() =~= self@.providers.take(i - 1));
                assert(self@.providers.take(i as int).last() == self@.providers[i - 1]);
                assert((rows@.map_values(|x: EventAddProviderResponse| x@)) =~= spec_provider_rows(
                    self@.providers.take(i as int),
                    chain_id as int,
                ));
            }
        }
        proof {
            assert(self@.providers.take(len as int) =~= self@.providers);
        }
        let mut sorted = sort_responses(rows, true);
        let ghost full = sorted@.map_values(|x: EventAddProviderResponse| x@);
        truncate_hundred(&mut sorted);
        proof {
            assert(sorted@.map_values(|x: EventAddProviderResponse| x@) =~= full.take(
                if full.len() >= 100 {
                    100int
                } else {
                    full.len() as int
                },
            ));
        }
        sorted
    }

    /// The providers one owner holds on a chain, by name, at most one
    /// hundred rows, each with its update block.
    pub fn get_provider(&self, chain_id: i64, address: String) -> (r: Vec<
        EventAddProviderResponse,
    >)
        ensures
            exists|full: Seq<ProvRespV>|
                {
                    &&& #[trigger] full.to_multiset() == spec_owner_rows(
                        self@.providers,
                        chain_id as int,
                        lower_seq(address@),
                    ).to_multiset()
                    &&& sorted_by(full, |a: ProvRespV, b: ProvRespV| resp_le(a, b, false))
                    &&& (r@.map_values(|x: EventAddProviderResponse| x@)) == full.take(
                        if full.len() >= 100 {
                            100int
                        } else {
                            full.len() as int
                        },
                    )
                },
    {
        let lowered = ascii_lowercase(&address);
        let len = self.event_add_provider.len();
        let mut rows: Vec<EventAddProviderResponse> = Vec::new();
        let mut i: usize = 0;
        proof {
            assert(rows@.map_values(|x: EventAddProviderResponse| x@) =~= spec_owner_rows(
                self@.providers.take(0),
                chain_id as int,
                lower_seq(address@),
            ));
        }
        while i < len
            invariant
                len == self.event_add_provider.len(),
                i <= len,
                lowered@ == lower_seq(address@),
                (rows@.map_values(|x: EventAddProviderResponse| x@)) == spec_owner_rows(
                    self@.providers.take(i as int),
                    chain_id as int,
                    lower_seq(address@),
                ),
            decreases len - i,
        {
            let p = &self.event_add_provider[i];
            if p.chain_id == chain_id && p.owner == lowered {
                let row = EventAddProviderResponse {
                    provider_id: self.event_add_provider[i].provider_id,
                    block_price_gwei: self.event_add_provider[i].block_price_gwei,
                    api_url: self.event_add_provider[i].api_url.clone(),
                    name: self.event_add_provider[i].name.clone(),
                    update_block: Option::Some(self.event_add_provider[i].update_block),
                };
                proof {
                    assert(row@ =~= spec_provider_resp(self@.providers[i as int], true));
                }
                rows.push(row);
            }
            i = i + 1;
            proof {
                assert(self@.providers.take(i as int).drop_last() =~= self@.providers.take(i - 1));
                assert(self@.providers.take(i as int).last() == self@.providers[i - 1]);
                assert((rows@.map_values(|x: EventAddProviderResponse| x@)) =~= spec_owner_rows(
                    self@.providers.take(i as int),
                    chain_id as int,
                    lower_seq(address@),
                ));
            }
        }
        proof {
            assert(self@.providers.take(len as int) =~= self@.providers);
        }
        let mut sorted = sort_responses(rows, false);
        let ghost full = sorted@.map_values(|x: EventAddProviderResponse| x@);
        truncate_hundred(&mut sorted);
        proof {
            assert(sorted@.map_values(|x: EventAddProviderResponse| x@) =~= full.take(
                if full.len() >= 100 {
                    100int
                } else {
                    full.len() as int
                },
            ));
        }
        sorted
    }

    /// How many pinned records exist for a CID, over every chain and node.
    pub fn is_pinned(&self, cid: &String) -> (r: i64)
        requires
            self@.pinned.len() <= 0x7fffffffffffffff,
        ensures
            r == spec_count_cid(self@.pinned, cid@),
    {
        let len = self.pinned_cids.len();
        let mut n: i64 = 0;
        let mut i: usize = 0;
        while i < len
            invariant
                len == self.pinned_cids.len(),
                self@.pinned.len() <= 0x7fffffffffffffff,
                i <= len,
                n == spec_count_cid(self@.pinned.take(i as int), cid@),
                0 <= n <= i,
            decreases len - i,
        {
            if self.pinned_cids[i].cid == *cid {
                n = n + 1;
            }
            i = i + 1;
            proof {
                assert(self@.pinned.take(i as int).drop_last() =~= self@.pinned.take(i - 1));
                assert(self@.pinned.take(i as int).last() == self@.pinned[i - 1]);
            }
        }
        proof {
            assert(self@.pinned.take(len as int) =~= self@.pinned);
        }
        n
    }

    /// The store half of the manual pin path: record the obligation unless
    /// the CID is already declared, except that an administrator's pin is
    /// always written.
    pub fn pin_cid(
        &mut self,
        cid: String,
        address: String,
        chain_id: i64,
        update_block: i64,
        end_block: i64,
        admin_pin: bool,
    )
        requires
            store_wf(old(self)@),
        ensures
            store_wf(final(self)@),
            ({
                let had = exists|k: int|
                    0 <= k < old(self)@.obligations.len() && (#[trigger] old(
                        self,
                    )@.obligations[k]).cid == cid@;
                if !had || admin_pin {
                    final(self)@ == spec_add_valid_block(
                        old(self)@,
                        ObV {
                            chain_id: chain_id as int,
                            cid: cid@,
                            donor: address@,
                            update_block: update_block as int,
                            end_block: end_block as int,
                            manual_add: Option::Some(true),
                        },
                    )
                } else {
                    final(self)@ == old(self)@
                }
            }),
    {
        let exists_already = self.cid_exists(&cid);
        if !exists_already || admin_pin {
            let ghost target = ObV {
                chain_id: chain_id as int,
                cid: cid@,
                donor: address@,
                update_block: update_block as int,
                end_block: end_block as int,
                manual_add: Option::Some(true),
            };
            let row = EventUpdateValidBlock {
                chain_id,
                cid,
                donor: address,
                update_block,
                end_block,
                manual_add: Option::Some(true),
            };
            proof {
                assert(row@ =~= target);
            }
            self.add_valid_block(row);
        }
    }

    /// The store half of the upload path: a freshly uploaded CID becomes a
    /// week-long obligation once; a CID already declared is left alone.
    /// Returns whether this was the first import.
    pub fn upload_file(
        &mut self,
        cid: String,
        address: String,
        chain_id: i64,
        update_block: i64,
        end_block: i64,
    ) -> (first_import: bool)
        requires
            store_wf(old(self)@),
        ensures
            store_wf(final(self)@),
            first_import == !(exists|k: int|
                0 <= k < old(self)@.obligations.len() && (#[trigger] old(self)@.obligations[k]).cid
                    == cid@),
            first_import ==> final(self)@ == spec_add_valid_block(
                old(self)@,
                ObV {
                    chain_id: chain_id as int,
                    cid: cid@,
                    donor: address@,
                    update_block: update_block as int,
                    end_block: end_block as int,
                    manual_add: Option::Some(true),
                },
            ),
            !first_import ==> final(self)@ == old(self)@,
    {
        let exists_already = self.cid_exists(&cid);
        if exists_already {
            return false;
        }
        let ghost target = ObV {
            chain_id: chain_id as int,
            cid: cid@,
            donor: address@,
            update_block: update_block as int,
            end_block: end_block as int,
            manual_add: Option::Some(true),
        };
        let row = EventUpdateValidBlock {
            chain_id,
            cid,
            donor: address,
            update_block,
            end_block,
            manual_add: Option::Some(true),
        };
        proof {
            assert(row@ =~= target);
        }
        self.add_valid_block(row);
        true
    }
}

/// How many pinned records name this CID.
pub open spec fn spec_count_cid(s: Seq<crate::types::PinRowV>, cid: Seq<char>) -> int
    decreases s.len(),
{
    if s.len() == 0 {
        0
    } else {
        spec_count_cid(s.drop_last(), cid) + if s.last().cid == cid {
            1int
        } else {
            0int
        }
    }
}

/// Whether a request's secret matches the configured admin secret.
pub fn is_admin(secret: &Option<String>, admin_secret: &String) -> (r: bool)
    ensures
        r == (secret matches Option::Some(s) && s@ == admin_secret@),
{
    match secret {
        Option::Some(s) => *s == *admin_secret,
        Option::None => false,
    }
}

/// The deadline a manual pin gets: an administrator's pin and a small CID
/// are permanent; anything else lives one week of blocks from now.
pub fn manual_pin_end_block(
    admin_pin: bool,
    cid_size: u64,
    update_block: u64,
    block_time_sec: u64,
) -> (r: i64)
    requires
        block_time_sec > 0,
        update_block + 604800u64 / block_time_sec <= 0x7fffffffffffffff,
    ensures
        admin_pin ==> r == -1,
        !admin_pin && cid_size <= 10485760 ==> r == -1,
        !admin_pin && cid_size > 10485760 ==> r == update_block + 604800u64 / block_time_sec,
{
    if admin_pin {
        -1
    } else if cid_size <= 10485760 {
        -1
    } else {
        (update_block + 604800 / block_time_sec) as i64
    }
}

/// The deadline an uploaded file gets: one week of blocks from now.
pub fn upload_end_block(update_block: u64, block_time_sec: u64) -> (r: i64)
    requires
        block_time_sec > 0,
        update_block + 604800u64 / block_time_sec <= 0x7fffffffffffffff,
    ensures
        r == update_block + 604800u64 / block_time_sec,
{
    (update_block + 604800 / block_time_sec) as i64
}

/// The chain's published tip and block time, if the chain is configured
/// and its connection has reported a block.
pub fn get_block_number(chain_id: i64, providers: &Vec<Web3Node>) -> (r: Option<(u64, u64)>)
    requires
        forall|k: int|
            0 <= k < providers@.len() ==> ((#[trigger] providers@[k]).latest_block matches Option::Some(b)
                ==> b >= 0),
    ensures
        r == spec_get_block_number(providers@, chain_id as int),
{
    let len = providers.len();
    let mut i: usize = 0;
    while i < len
        invariant
            len == providers@.len(),
            i <= len,
            forall|k: int|
                0 <= k < providers@.len() ==> ((#[trigger] providers@[k]).latest_block
                    matches Option::Some(b) ==> b >= 0),
            forall|k: int| 0 <= k < i ==> (#[trigger] providers@[k]).chain_id != chain_id,
            spec_get_block_number(providers@, chain_id as int) == spec_get_block_number_from(
                providers@,
                chain_id as int,
                i as int,
            ),
        decreases len - i,
    {
        if providers[i].chain_id == chain_id {
            match providers[i].latest_block {
                Option::Some(v) => {
                    return Option::Some(((v as u64), providers[i].block_time_sec));
                },
                Option::None => {
                    return Option::None;
                },
            }
        }
        i = i + 1;
    }
    Option::None
}

/// The first configured chain record with this chain id decides the
/// answer: its tip if one is published, nothing otherwise.
pub open spec fn spec_get_block_number(ps: Seq<Web3Node>, chain: int) -> Option<(u64, u64)> {
    spec_get_block_number_from(ps, chain, 0)
}

/// The same search, started at entry `i`.
pub open spec fn spec_get_block_number_from(ps: Seq<Web3Node>, chain: int, i: int) -> Option<
    (u64, u64),
>
    decreases ps.len() - i,
{
    if i < 0 || i >= ps.len() {
        Option::None
    } else if ps[i].chain_id == chain {
        match ps[i].latest_block {
            Option::Some(v) => Option::Some((v as u64, ps[i].block_time_sec)),
            Option::None => Option::None,
        }
    } else {
        spec_get_block_number_from(ps, chain, i + 1)
    }
}


/// The CIDs one donor has declared on a chain, each once, in
/// first-appearance order.
pub open spec fn spec_donor_cids(obs: Seq<ObV>, chain: int, donor: Seq<char>) -> Seq<Seq<char>>
    decreases obs.len(),
{
    if obs.len() == 0 {
        Seq::<Seq<char>>::empty()
    } else {
        let prev = spec_donor_cids(obs.drop_last(), chain, donor);
        let o = obs.last();
        if o.chain_id == chain && o.donor == donor && !prev.contains(o.cid) {
            prev.push(o.cid)
        } else {
            prev
        }
    }
}

/// The earliest declaration block among the donor's obligations for a CID.
pub open spec fn spec_min_ub(obs: Seq<ObV>, chain: int, donor: Seq<char>, cid: Seq<char>) -> Option<
    int,
>
    decreases obs.len(),
{
    if obs.len() == 0 {
        Option::None
    } else {
        let rest = spec_min_ub(obs.drop_last(), chain, donor, cid);
        let o = obs.last();
        if o.chain_id == chain && o.donor == donor && o.cid == cid {
            match rest {
                Option::None => Option::Some(o.update_block),
                Option::Some(m) => Option::Some(
                    if o.update_block < m {
                        o.update_block
                    } else {
                        m
                    },
                ),
            }
        } else {
            rest
        }
    }
}

/// The latest deadline among the donor's obligations for a CID.
pub open spec fn spec_max_ob_end(
    obs: Seq<ObV>,
    chain: int,
    donor: Seq<char>,
    cid: Seq<char>,
) -> Option<int>
    decreases obs.len(),
{
    if obs.len() == 0 {
        Option::None
    } else {
        let rest = spec_max_ob_end(obs.drop_last(), chain, donor, cid);
        let o = obs.last();
        if o.chain_id == chain && o.donor == donor && o.cid == cid {
            match rest {
                Option::None => Option::Some(o.end_block),
                Option::Some(m) => Option::Some(
                    if o.end_block > m {
                        o.end_block
                    } else {
                        m
                    },
                ),
            }
        } else {
            rest
        }
    }
}

/// The latest recorded pin deadline for `(chain, cid)`, over every node.
pub open spec fn spec_max_pin_end(pinned: Seq<PinRowV>, chain: int, cid: Seq<char>) -> Option<int>
    decreases pinned.len(),
{
    if pinned.len() == 0 {
        Option::None
    } else {
        let rest = spec_max_pin_end(pinned.drop_last(), chain, cid);
        let r = pinned.last();
        if r.chain_id == chain && r.cid == cid {
            match rest {
                Option::None => Option::Some(r.end_block),
                Option::Some(m) => Option::Some(
                    if r.end_block > m {
                        r.end_block
                    } else {
                        m
                    },
                ),
            }
        } else {
            rest
        }
    }
}

/// How many nodes hold `(chain, cid)` with a deadline still ahead of the
/// tip, or permanently.
pub open spec fn spec_count_active_pins(
    pinned: Seq<PinRowV>,
    chain: int,
    cid: Seq<char>,
    bn: int,
) -> int
    decreases pinned.len(),
{
    if pinned.len() == 0 {
        0
    } else {
        spec_count_active_pins(pinned.drop_last(), chain, cid, bn) + {
            let r = pinned.last();
            if r.chain_id == chain && r.cid == cid && (r.end_block >= bn || r.end_block == -1) {
                1int
            } else {
                0int
            }
        }
    }
}

/// How many failure records for `(chain, cid)` are still current.
pub open spec fn spec_count_active_failed(
    failed: Seq<PinRowV>,
    chain: int,
    cid: Seq<char>,
    bn: int,
) -> int
    decreases failed.len(),
{
    if failed.len() == 0 {
        0
    } else {
        spec_count_active_failed(failed.drop_last(), chain, cid, bn) + {
            let r = failed.last();
            if r.chain_id == chain && r.cid == cid && r.end_block >= bn {
                1int
            } else {
                0int
            }
        }
    }
}

/// One row of the donor listing: the obligation's earliest block, its best
/// deadline (the recorded pin deadline when one exists, the declared one
/// otherwise), and the current pin and failure counts.
pub open spec fn spec_pinned_cids_row(
    s: StoreV,
    chain: int,
    donor: Seq<char>,
    cid: Seq<char>,
    bn: int,
) -> PinnedCIDsV {
    PinnedCIDsV {
        update_block: some_int(spec_min_ub(s.obligations, chain, donor, cid)),
        donor,
        end_block: match spec_max_pin_end(s.pinned, chain, cid) {
            Option::Some(m) => m,
            Option::None => some_int(spec_max_ob_end(s.obligations, chain, donor, cid)),
        },
        cid,
        node_count: spec_count_active_pins(s.pinned, chain, cid, bn),
        failed_node_count: spec_count_active_failed(s.failed, chain, cid, bn),
    }
}

/// The whole donor listing before ordering, one row per declared CID.
pub open spec fn spec_pinned_cids_rows(s: StoreV, chain: int, donor: Seq<char>, bn: int) -> Seq<
    PinnedCIDsV,
> {
    spec_donor_cids(s.obligations, chain, donor).map_values(
        |cid: Seq<char>| spec_pinned_cids_row(s, chain, donor, cid, bn),
    )
}

/// The donor listing order: most failures first, then fewest healthy
/// copies, then the nearest deadline.
pub open spec fn pinned_le(a: PinnedCIDsV, b: PinnedCIDsV) -> bool {
    ||| a.failed_node_count > b.failed_node_count
    ||| (a.failed_node_count == b.failed_node_count && a.node_count < b.node_count)
    ||| (a.failed_node_count == b.failed_node_count && a.node_count == b.node_count && a.end_block
        <= b.end_block)
}

/// Every CID the donor listing names has at least one obligation row.
proof fn lemma_donor_cids_have_rows(obs: Seq<ObV>, chain: int, donor: Seq<char>)
    ensures
        forall|c: Seq<char>|
            #[trigger] spec_donor_cids(obs, chain, donor).contains(c) ==> exists|k: int|
                0 <= k < obs.len() && obs[k].chain_id == chain && obs[k].donor == donor
                    && (#[trigger] obs[k].cid) == c,
    decreases obs.len(),
{
    if obs.len() > 0 {
        lemma_donor_cids_have_rows(obs.drop_last(), chain, donor);
        let res = spec_donor_cids(obs, chain, donor);
        let prev = spec_donor_cids(obs.drop_last(), chain, donor);
        assert forall|c: Seq<char>| #[trigger] res.contains(c) implies exists|k: int|
            0 <= k < obs.len() && obs[k].chain_id == chain && obs[k].donor == donor && (#[trigger]
            obs[k].cid) == c by {
            if prev.contains(c) {
                let k = choose|k: int|
                    0 <= k < obs.drop_last().len() && obs.drop_last()[k].chain_id == chain
                        && obs.drop_last()[k].donor == donor && (obs.drop_last()[k].cid) == c;
                assert(obs[k].chain_id == chain && obs[k].donor == donor && obs[k].cid == c);
            } else {
                let w = choose|w: int| 0 <= w < res.len() && res[w] == c;
                assert(res.last() == c);
                assert(obs[obs.len() - 1].cid == c);
            }
        }
    }
}

/// A CID with an obligation row has an earliest declaration block.
proof fn lemma_min_ub_some(obs: Seq<ObV>, chain: int, donor: Seq<char>, cid: Seq<char>)
    requires
        exists|k: int|
            0 <= k < obs.len() && obs[k].chain_id == chain && obs[k].donor == donor && (#[trigger]
            obs[k].cid) == cid,
    ensures
        spec_min_ub(obs, chain, donor, cid) is Some,
        spec_max_ob_end(obs, chain, donor, cid) is Some,
    decreases obs.len(),
{
    if obs.len() > 0 {
        let k = choose|k: int|
            0 <= k < obs.len() && obs[k].chain_id == chain && obs[k].donor == donor && (#[trigger]
            obs[k].cid) == cid;
        let o = obs.last();
        if !(o.chain_id == chain && o.donor == donor && o.cid == cid) {
            assert(k < obs.len() - 1);
            assert(obs.drop_last()[k] == obs[k]);
            lemma_min_ub_some(obs.drop_last(), chain, donor, cid);
        }
    }
}

impl Store {
    /// The earliest declaration block, if the donor declared this CID.
    fn min_ub_exec(&self, chain_id: i64, donor: &String, cid: &String) -> (r: Option<i64>)
        ensures
            crate::types::view_opt_i64(r) == spec_min_ub(
                self@.obligations,
                chain_id as int,
                donor@,
                cid@,
            ),
    {
        let len = self.event_update_valid_block.len();
        let mut best: Option<i64> = Option::None;
        let mut i: usize = 0;
        while i < len
            invariant
                len == self.event_update_valid_block.len(),
                i <= len,
                crate::types::view_opt_i64(best) == spec_min_ub(
                    self@.obligations.take(i as int),
                    chain_id as int,
                    donor@,
                    cid@,
                ),
            decreases len - i,
        {
            let o = &self.event_update_valid_block[i];
            if o.chain_id == chain_id && o.donor == *donor && o.cid == *cid {
                best = match best {
                    Option::None => Option::Some(o.update_block),
                    Option::Some(m) => Option::Some(
                        if o.update_block < m {
                            o.update_block
                        } else {
                            m
                        },
                    ),
                };
            }
            i = i + 1;
            proof {
                assert(self@.obligations.take(i as int).drop_last() =~= self@.obligations.take(
                    i - 1,
                ));
                assert(self@.obligations.take(i as int).last() == self@.obligations[i - 1]);
            }
        }
        proof {
            assert(self@.obligations.take(len as int) =~= self@.obligations);
        }
        best
    }

    /// The latest declared deadline, if the donor declared this CID.
    fn max_ob_end_exec(&self, chain_id: i64, donor: &String, cid: &String) -> (r: Option<i64>)
        ensures
            crate::types::view_opt_i64(r) == spec_max_ob_end(
                self@.obligations,
                chain_id as int,
                donor@,
                cid@,
            ),
    {
        let len = self.event_update_valid_block.len();
        let mut best: Option<i64> = Option::None;
        let mut i: usize = 0;
        while i < len
            invariant
                len == self.event_update_valid_block.len(),
                i <= len,
                crate::types::view_opt_i64(best) == spec_max_ob_end(
                    self@.obligations.take(i as int),
                    chain_id as int,
                    donor@,
                    cid@,
                ),
            decreases len - i,
        {
            let o = &self.event_update_valid_block[i];
            if o.chain_id == chain_id && o.donor == *donor && o.cid == *cid {
                best = match best {
                    Option::None => Option::Some(o.end_block),
                    Option::Some(m) => Option::Some(
                        if o.end_block > m {
                            o.end_block
                        } else {
                            m
                        },
                    ),
                };
            }
            i = i + 1;
            proof {
                assert(self@.obligations.take(i as int).drop_last() =~= self@.obligations.take(
                    i - 1,
                ));
                assert(self@.obligations.take(i as int).last() == self@.obligations[i - 1]);
            }
        }
        proof {
            assert(self@.obligations.take(len as int) =~= self@.obligations);
        }
        best
    }

    /// The latest recorded pin deadline for `(chain, cid)`, if any node
    /// holds it.
    fn max_pin_end_exec(&self, chain_id: i64, cid: &String) -> (r: Option<i64>)
        ensures
            crate::types::view_opt_i64(r) == spec_max_pin_end(
                self@.pinned,
                chain_id as int,
                cid@,
            ),
    {
        let len = self.pinned_cids.len();
        let mut best: Option<i64> = Option::None;
        let mut i: usize = 0;
        while i < len
            invariant
                len == self.pinned_cids.len(),
                i <= len,
                crate::types::view_opt_i64(best) == spec_max_pin_end(
                    self@.pinned.take(i as int),
                    chain_id as int,
                    cid@,
                ),
            decreases len - i,
        {
            let p = &self.pinned_cids[i];
            if p.chain_id == chain_id && p.cid == *cid {
                best = match best {
                    Option::None => Option::Some(p.end_block),
                    Option::Some(m) => Option::Some(
                        if p.end_block > m {
                            p.end_block
                        } else {
                            m
                        },
                    ),
                };
            }
            i = i + 1;
            proof {
                assert(self@.pinned.take(i as int).drop_last() =~= self@.pinned.take(i - 1));
                assert(self@.pinned.take(i as int).last() == self@.pinned[i - 1]);
            }
        }
        proof {
            assert(self@.pinned.take(len as int) =~= self@.pinned);
        }
        best
    }

    /// Counts the healthy copies of `(chain, cid)` at tip `bn`.
    fn count_active_pins_exec(&self, chain_id: i64, cid: &String, bn: i64) -> (r: i64)
        requires
            self@.pinned.len() <= 0x7fffffffffffffff,
        ensures
            r == spec_count_active_pins(self@.pinned, chain_id as int, cid@, bn as int),
    {
        let len = self.pinned_cids.len();
        let mut n: i64 = 0;
        let mut i: usize = 0;
        while i < len
            invariant
                len == self.pinned_cids.len(),
                self@.pinned.len() <= 0x7fffffffffffffff,
                i <= len,
                0 <= n <= i,
                n == spec_count_active_pins(
                    self@.pinned.take(i as int),
                    chain_id as int,
                    cid@,
                    bn as int,
                ),
            decreases len - i,
        {
            let p = &self.pinned_cids[i];
            if p.chain_id == chain_id && p.cid == *cid && (p.end_block >= bn || p.end_block == -1) {
                n = n + 1;
            }
            i = i + 1;
            proof {
                assert(self@.pinned.take(i as int).drop_last() =~= self@.pinned.take(i - 1));
                assert(self@.pinned.take(i as int).last() == self@.pinned[i - 1]);
            }
        }
        proof {
            assert(self@.pinned.take(len as int) =~= self@.pinned);
        }
        n
    }

    /// Counts the current failure records of `(chain, cid)` at tip `bn`.
    fn count_active_failed_exec(&self, chain_id: i64, cid: &String, bn: i64) -> (r: i64)
        requires
            self@.failed.len() <= 0x7fffffffffffffff,
        ensures
            r == spec_count_active_failed(self@.failed, chain_id as int, cid@, bn as int),
    {
        let len = self.failed_pins.len();
        let mut n: i64 = 0;
        let mut i: usize = 0;
        while i < len
            invariant
                len == self.failed_pins.len(),
                self@.failed.len() <= 0x7fffffffffffffff,
                i <= len,
                0 <= n <= i,
                n == spec_count_active_failed(
                    self@.failed.take(i as int),
                    chain_id as int,
                    cid@,
                    bn as int,
                ),
            decreases len - i,
        {
            let p = &self.failed_pins[i];
            if p.chain_id == chain_id && p.cid == *cid && p.end_block >= bn {
                n = n + 1;
            }
            i = i + 1;
            proof {
                assert(self@.failed.take(i as int).drop_last() =~= self@.failed.take(i - 1));
                assert(self@.failed.take(i as int).last() == self@.failed[i - 1]);
            }
        }
        proof {
            assert(self@.failed.take(len as int) =~= self@.failed);
        }
        n
    }

    /// The donor's obligations on a chain, grouped by CID with pin and
    /// failure counts, worst first, at most one hundred rows.
    pub fn get_cids(&self, address: String, chain_id: i64, bn: i64) -> (r: Vec<PinnedCIDs>)
        requires
            self@.pinned.len() <= 0x7fffffffffffffff,
            self@.failed.len() <= 0x7fffffffffffffff,
        ensures
            exists|full: Seq<PinnedCIDsV>|
                {
                    &&& #[trigger] full.to_multiset() == spec_pinned_cids_rows(
                        self@,
                        chain_id as int,
                        lower_seq(address@),
                        bn as int,
                    ).to_multiset()
                    &&& sorted_by(full, |a: PinnedCIDsV, b: PinnedCIDsV| pinned_le(a, b))
                    &&& (r@.map_values(|x: PinnedCIDs| x@)) == full.take(
                        if full.len() >= 100 {
                            100int
                        } else {
                            full.len() as int
                        },
                    )
                },
    {
        let lowered = ascii_lowercase(&address);
        let ghost donor = lower_seq(address@);
        let len = self.event_update_valid_block.len();
        let mut cids: Vec<String> = Vec::new();
        let mut i: usize = 0;
        proof {
            assert(cids@.map_values(|c: String| c@) =~= spec_donor_cids(
                self@.obligations.take(0),
                chain_id as int,
                donor,
            ));
        }
        while i < len
            invariant
                len == self.event_update_valid_block.len(),
                i <= len,
                lowered@ == donor,
                (cids@.map_values(|c: String| c@)) == spec_donor_cids(
                    self@.obligations.take(i as int),
                    chain_id as int,
                    donor,
                ),
            decreases len - i,
        {
            let ghost prev = cids@.map_values(|c: String| c@);
            if self.event_update_valid_block[i].chain_id == chain_id
                && self.event_update_valid_block[i].donor == lowered {
                match find_cid_col(&cids, &self.event_update_valid_block[i].cid) {
                    Option::Some(j) => {
                        proof {
                            assert(prev[j as int] == self@.obligations[i as int].cid);
                            assert(prev.contains(self@.obligations[i as int].cid));
                        }
                    },
                    Option::None => {
                        proof {
                            assert(!prev.contains(self@.obligations[i as int].cid));
                        }
                        cids.push(self.event_update_valid_block[i].cid.clone());
                    },
                }
            }
            i = i + 1;
            proof {
                assert(self@.obligations.take(i as int).drop_last() =~= self@.obligations.take(
                    i - 1,
                ));
                assert(self@.obligations.take(i as int).last() == self@.obligations[i - 1]);
                assert((cids@.map_values(|c: String| c@)) =~= spec_donor_cids(
                    self@.obligations.take(i as int),
                    chain_id as int,
                    donor,
                ));
            }
        }
        proof {
            assert(self@.obligations.take(len as int) =~= self@.obligations);
        }
        let ghost cid_list = cids@.map_values(|c: String| c@);
        let n_cids = cids.len();
        let mut rows: Vec<PinnedCIDs> = Vec::new();
        let mut k: usize = 0;
        while k < n_cids
            invariant
                n_cids == cids@.len(),
                k <= n_cids,
                lowered@ == donor,
                self@.pinned.len() <= 0x7fffffffffffffff,
                self@.failed.len() <= 0x7fffffffffffffff,
                cid_list == cids@.map_values(|c: String| c@),
                cid_list == spec_donor_cids(self@.obligations, chain_id as int, donor),
                rows@.len() == k,
                forall|idx: int|
                    0 <= idx < k ==> (#[trigger] rows@[idx])@ == spec_pinned_cids_row(
                        self@,
                        chain_id as int,
                        donor,
                        cid_list[idx],
                        bn as int,
                    ),
            decreases n_cids - k,
        {
            let cid = cids[k].clone();
            proof {
                assert(cid_list[k as int] == cid@);
                assert(cid_list.contains(cid@));
                lemma_donor_cids_have_rows(self@.obligations, chain_id as int, donor);
                lemma_min_ub_some(self@.obligations, chain_id as int, donor, cid@);
            }
            let ub = match self.min_ub_exec(chain_id, &lowered, &cid) {
                Option::Some(v) => v,
                Option::None => {
                    proof {
                        assert(false);
                    }
                    0
                },
            };
            let eb = match self.max_pin_end_exec(chain_id, &cid) {
                Option::Some(m) => m,
                Option::None => {
                    match self.max_ob_end_exec(chain_id, &lowered, &cid) {
                        Option::Some(m) => m,
                        Option::None => {
                            proof {
                                assert(false);
                            }
                            0
                        },
                    }
                },
            };
            let c = self.count_active_pins_exec(chain_id, &cid, bn);
            let fc = self.count_active_failed_exec(chain_id, &cid, bn);
            let row = PinnedCIDs {
                update_block: ub,
                donor: lowered.clone(),
                end_block: eb,
                cid,
                node_count: c,
                failed_node_count: fc,
            };
            proof {
                assert(row@ =~= spec_pinned_cids_row(
                    self@,
                    chain_id as int,
                    donor,
                    cid_list[k as int],
                    bn as int,
                ));
            }
            rows.push(row);
            k = k + 1;
        }
        proof {
            assert((rows@.map_values(|x: PinnedCIDs| x@)) =~= spec_pinned_cids_rows(
                self@,
                chain_id as int,
                donor,
                bn as int,
            ));
        }
        let mut sorted = sort_pinned(rows);
        let ghost full = sorted@.map_values(|x: PinnedCIDs| x@);
        truncate_hundred(&mut sorted);
        proof {
            assert(sorted@.map_values(|x: PinnedCIDs| x@) =~= full.take(
                if full.len() >= 100 {
                    100int
                } else {
                    full.len() as int
                },
            ));
        }
        sorted
    }
}

/// The first column holding `cid`, if one does.
fn find_cid_col(cids: &Vec<String>, cid: &String) -> (r: Option<usize>)
    ensures
        match r {
            Option::Some(j) => j < cids@.len() && cids@[j as int]@ == cid@,
            Option::None => forall|k: int| 0 <= k < cids@.len() ==> cids@[k]@ != cid@,
        },
{
    let len = cids.len();
    let mut j: usize = 0;
    while j < len
        invariant
            len == cids@.len(),
            j <= len,
            forall|k: int| 0 <= k < j ==> cids@[k]@ != cid@,
        decreases len - j,
    {
        if cids[j] == *cid {
            return Option::Some(j);
        }
        j = j + 1;
    }
    Option::None
}

/// Decides the donor listing order on two rows.
fn pinned_le_exec(a: &PinnedCIDs, b: &PinnedCIDs) -> (r: bool)
    ensures
        r == pinned_le(a@, b@),
{
    if a.failed_node_count > b.failed_node_count {
        true
    } else if a.failed_node_count == b.failed_node_count {
        if a.node_count < b.node_count {
            true
        } else if a.node_count == b.node_count {
            a.end_block <= b.end_block
        } else {
            false
        }
    } else {
        false
    }
}

/// The index of a least row under the donor listing order.
fn find_min_pinned(v: &Vec<PinnedCIDs>) -> (m: usize)
    requires
        v@.len() > 0,
    ensures
        m < v@.len(),
        forall|k: int| 0 <= k < v@.len() ==> pinned_le(v@[m as int]@, (#[trigger] v@[k])@),
{
    let len = v.len();
    let mut best: usize = 0;
    let mut j: usize = 1;
    while j < len
        invariant
            len == v@.len(),
            best < j <= len,
            forall|k: int| 0 <= k < j ==> pinned_le(v@[best as int]@, (#[trigger] v@[k])@),
        decreases len - j,
    {
        if !pinned_le_exec(&v[best], &v[j]) {
            proof {
                assert forall|k: int| 0 <= k < j + 1 implies pinned_le(
                    v@[j as int]@,
                    (#[trigger] v@[k])@,
                ) by {}
            }
            best = j;
        }
        j = j + 1;
    }
    best
}

/// Sorts donor listing rows, worst first, keeping exactly the same rows.
fn sort_pinned(v: Vec<PinnedCIDs>) -> (r: Vec<PinnedCIDs>)
    ensures
        (r@.map_values(|x: PinnedCIDs| x@)).to_multiset() == (v@.map_values(
            |x: PinnedCIDs| x@,
        )).to_multiset(),
        sorted_by(r@.map_values(|x: PinnedCIDs| x@), |a: PinnedCIDsV, b: PinnedCIDsV| pinned_le(
            a,
            b,
        )),
{
    broadcast use vstd::seq_lib::group_to_multiset_ensures;

    let ghost orig = v@.map_values(|x: PinnedCIDs| x@).to_multiset();
    let mut work = v;
    let mut out: Vec<PinnedCIDs> = Vec::new();
    while work.len() > 0
        invariant
            (out@.map_values(|x: PinnedCIDs| x@)).to_multiset().add(
                (work@.map_values(|x: PinnedCIDs| x@)).to_multiset(),
            ) =~= orig,
            sorted_by(
                out@.map_values(|x: PinnedCIDs| x@),
                |a: PinnedCIDsV, b: PinnedCIDsV| pinned_le(a, b),
            ),
            forall|i: int, k: int|
                0 <= i < out@.len() && 0 <= k < work@.len() ==> pinned_le(
                    (#[trigger] out@[i])@,
                    (#[trigger] work@[k])@,
                ),
        decreases work.len(),
    {
        let ghost pre_work = work@.map_values(|x: PinnedCIDs| x@);
        let ghost pre_out = out@.map_values(|x: PinnedCIDs| x@);
        let m = find_min_pinned(&work);
        let x = work.remove(m);
        let ghost xv = x@;
        proof {
            pre_work.to_multiset_ensures();
            pre_out.to_multiset_ensures();
            assert(work@.map_values(|y: PinnedCIDs| y@) =~= pre_work.remove(m as int));
            assert(pre_work.remove(m as int).to_multiset() =~= pre_work.to_multiset().remove(xv));
        }
        out.push(x);
        proof {
            assert(out@.map_values(|y: PinnedCIDs| y@) =~= pre_out.push(xv));
            assert(pre_out.push(xv).to_multiset() =~= pre_out.to_multiset().insert(xv));
            assert(pre_out.to_multiset().insert(xv).add(pre_work.to_multiset().remove(xv))
                =~= pre_out.to_multiset().add(pre_work.to_multiset()));
            let le = |a: PinnedCIDsV, b: PinnedCIDsV| pinned_le(a, b);
            let new_out = pre_out.push(xv);
            assert forall|i: int, j: int| 0 <= i < j < new_out.len() implies le(
                new_out[i],
                new_out[j],
            ) by {
                if j < new_out.len() - 1 {
                    assert(le(pre_out[i], pre_out[j]));
                } else {
                    assert(le(pre_out[i], pre_work[m as int]));
                }
            }
            assert forall|i: int, k: int|
                0 <= i < new_out.len() && 0 <= k < pre_work.remove(m as int).len() implies le(
                new_out[i],
                pre_work.remove(m as int)[k],
            ) by {
                let w = pre_work.remove(m as int)[k];
                if k < m as int {
                    assert(w == pre_work[k]);
                } else {
                    assert(w == pre_work[k + 1]);
                }
                if i < new_out.len() - 1 {
                    assert(le(pre_out[i], w));
                } else {
                    assert(le(xv, w));
                }
            }
        }
    }
    proof {
        assert((work@.map_values(|x: PinnedCIDs| x@)).to_multiset()
            =~= Multiset::<PinnedCIDsV>::empty());
        assert((out@.map_values(|x: PinnedCIDs| x@)).to_multiset() =~= orig);
    }
    out
}


/// The chains holding a pinned record of `cid`, each once, in
/// first-appearance order.
pub open spec fn spec_pinned_chains(pinned: Seq<PinRowV>, cid: Seq<char>) -> Seq<int>
    decreases pinned.len(),
{
    if pinned.len() == 0 {
        Seq::<int>::empty()
    } else {
        let prev = spec_pinned_chains(pinned.drop_last(), cid);
        let r = pinned.last();
        if r.cid == cid && !prev.contains(r.chain_id) {
            prev.push(r.chain_id)
        } else {
            prev
        }
    }
}

/// The chains with only failure records of `cid`, each once, in
/// first-appearance order.
pub open spec fn spec_failed_only_chains(
    failed: Seq<PinRowV>,
    pinned: Seq<PinRowV>,
    cid: Seq<char>,
) -> Seq<int>
    decreases failed.len(),
{
    if failed.len() == 0 {
        Seq::<int>::empty()
    } else {
        let prev = spec_failed_only_chains(failed.drop_last(), pinned, cid);
        let r = failed.last();
        if r.cid == cid && !prev.contains(r.chain_id) && !(exists|k: int|
            0 <= k < pinned.len() && pinned[k].chain_id == r.chain_id && (#[trigger] pinned[k].cid)
                == cid) {
            prev.push(r.chain_id)
        } else {
            prev
        }
    }
}

/// How many records of `(chain, cid)` a table holds.
pub open spec fn spec_count_rows(s: Seq<PinRowV>, chain: int, cid: Seq<char>) -> int
    decreases s.len(),
{
    if s.len() == 0 {
        0
    } else {
        spec_count_rows(s.drop_last(), chain, cid) + if s.last().chain_id == chain && s.last().cid
            == cid {
            1int
        } else {
            0int
        }
    }
}

/// The latest failure deadline for `(chain, cid)`, if any is recorded.
pub open spec fn spec_max_failed_end(failed: Seq<PinRowV>, chain: int, cid: Seq<char>) -> Option<
    int,
>
    decreases failed.len(),
{
    if failed.len() == 0 {
        Option::None
    } else {
        let rest = spec_max_failed_end(failed.drop_last(), chain, cid);
        let r = failed.last();
        if r.chain_id == chain && r.cid == cid {
            match rest {
                Option::None => Option::Some(r.end_block),
                Option::Some(m) => Option::Some(
                    if r.end_block > m {
                        r.end_block
                    } else {
                        m
                    },
                ),
            }
        } else {
            rest
        }
    }
}

/// The aggregate row for a chain that holds the CID pinned.
pub open spec fn spec_agg_row_pinned(s: StoreV, chain: int, cid: Seq<char>) -> CidChainAggV {
    CidChainAggV {
        pinned_chain_id: Option::Some(chain),
        pinned_node_count: spec_count_rows(s.pinned, chain, cid),
        pinned_end_block: spec_max_pin_end(s.pinned, chain, cid),
        failed_chain_id: if spec_count_rows(s.failed, chain, cid) > 0 {
            Option::Some(chain)
        } else {
            Option::None
        },
        failed_node_count: spec_count_rows(s.failed, chain, cid),
        failed_end_block: spec_max_failed_end(s.failed, chain, cid),
    }
}

/// The aggregate row for a chain with only failure records of the CID.
pub open spec fn spec_agg_row_failed(s: StoreV, chain: int, cid: Seq<char>) -> CidChainAggV {
    CidChainAggV {
        pinned_chain_id: Option::None,
        pinned_node_count: 0,
        pinned_end_block: Option::None,
        failed_chain_id: Option::Some(chain),
        failed_node_count: spec_count_rows(s.failed, chain, cid),
        failed_end_block: spec_max_failed_end(s.failed, chain, cid),
    }
}

/// The whole per-CID aggregate listing: the chains that pin the CID, then
/// the chains that only failed to.
pub open spec fn spec_cid_info_rows(s: StoreV, cid: Seq<char>) -> Seq<CidChainAggV> {
    spec_pinned_chains(s.pinned, cid).map_values(|c: int| spec_agg_row_pinned(s, c, cid))
        + spec_failed_only_chains(s.failed, s.pinned, cid).map_values(
        |c: int| spec_agg_row_failed(s, c, cid),
    )
}

/// The first column holding `x`, if one does.
fn find_i64(v: &Vec<i64>, x: i64) -> (r: Option<usize>)
    ensures
        match r {
            Option::Some(j) => j < v@.len() && v@[j as int] == x,
            Option::None => forall|k: int| 0 <= k < v@.len() ==> v@[k] != x,
        },
{
    let len = v.len();
    let mut j: usize = 0;
    while j < len
        invariant
            len == v@.len(),
            j <= len,
            forall|k: int| 0 <= k < j ==> v@[k] != x,
        decreases len - j,
    {
        if v[j] == x {
            return Option::Some(j);
        }
        j = j + 1;
    }
    Option::None
}

impl Store {
    /// Counts the records of `(chain, cid)` in the pinned table.
    fn count_pinned_rows_exec(&self, chain_id: i64, cid: &String) -> (r: i64)
        requires
            self@.pinned.len() <= 0x7fffffffffffffff,
        ensures
            r == spec_count_rows(self@.pinned, chain_id as int, cid@),
    {
        let len = self.pinned_cids.len();
        let mut n: i64 = 0;
        let mut i: usize = 0;
        while i < len
            invariant
                len == self.pinned_cids.len(),
                self@.pinned.len() <= 0x7fffffffffffffff,
                i <= len,
                0 <= n <= i,
                n == spec_count_rows(self@.pinned.take(i as int), chain_id as int, cid@),
            decreases len - i,
        {
            if self.pinned_cids[i].chain_id == chain_id && self.pinned_cids[i].cid == *cid {
                n = n + 1;
            }
            i = i + 1;
            proof {
                assert(self@.pinned.take(i as int).drop_last() =~= self@.pinned.take(i - 1));
                assert(self@.pinned.take(i as int).last() == self@.pinned[i - 1]);
            }
        }
        proof {
            assert(self@.pinned.take(len as int) =~= self@.pinned);
        }
        n
    }

    /// Counts the records of `(chain, cid)` in the failed table.
    fn count_failed_rows_exec(&self, chain_id: i64, cid: &String) -> (r: i64)
        requires
            self@.failed.len() <= 0x7fffffffffffffff,
        ensures
            r == spec_count_rows(self@.failed, chain_id as int, cid@),
    {
        let len = self.failed_pins.len();
        let mut n: i64 = 0;
        let mut i: usize = 0;
        while i < len
            invariant
                len == self.failed_pins.len(),
                self@.failed.len() <= 0x7fffffffffffffff,
                i <= len,
                0 <= n <= i,
                n == spec_count_rows(self@.failed.take(i as int), chain_id as int, cid@),
            decreases len - i,
        {
            if self.failed_pins[i].chain_id == chain_id && self.failed_pins[i].cid == *cid {
                n = n + 1;
            }
            i = i + 1;
            proof {
                assert(self@.failed.take(i as int).drop_last() =~= self@.failed.take(i - 1));
                assert(self@.failed.take(i as int).last() == self@.failed[i - 1]);
            }
        }
        proof {
            assert(self@.failed.take(len as int) =~= self@.failed);
        }
        n
    }

    /// The latest failure deadline for `(chain, cid)`, if one is recorded.
    fn max_failed_end_exec(&self, chain_id: i64, cid: &String) -> (r: Option<i64>)
        ensures
            crate::types::view_opt_i64(r) == spec_max_failed_end(
                self@.failed,
                chain_id as int,
                cid@,
            ),
    {
        let len = self.failed_pins.len();
        let mut best: Option<i64> = Option::None;
        let mut i: usize = 0;
        while i < len
            invariant
                len == self.failed_pins.len(),
                i <= len,
                crate::types::view_opt_i64(best) == spec_max_failed_end(
                    self@.failed.take(i as int),
                    chain_id as int,
                    cid@,
                ),
            decreases len - i,
        {
            let p = &self.failed_pins[i];
            if p.chain_id == chain_id && p.cid == *cid {
                best = match best {
                    Option::None => Option::Some(p.end_block),
                    Option::Some(m) => Option::Some(
                        if p.end_block > m {
                            p.end_block
                        } else {
                            m
                        },
                    ),
                };
            }
            i = i + 1;
            proof {
                assert(self@.failed.take(i as int).drop_last() =~= self@.failed.take(i - 1));
                assert(self@.failed.take(i as int).last() == self@.failed[i - 1]);
            }
        }
        proof {
            assert(self@.failed.take(len as int) =~= self@.failed);
        }
        best
    }

    /// The per-chain aggregates for one CID: for every chain pinning it,
    /// its copies and failures; then every chain that only failed.
    pub fn cid_info(&self, cid: &String) -> (r: Vec<CIDChainAggregate>)
        requires
            self@.pinned.len() <= 0x7fffffffffffffff,
            self@.failed.len() <= 0x7fffffffffffffff,
        ensures
            (r@.map_values(|x: CIDChainAggregate| x@)) == spec_cid_info_rows(self@, cid@),
    {
        let plen = self.pinned_cids.len();
        let mut chains: Vec<i64> = Vec::new();
        let mut i: usize = 0;
        proof {
            assert(chains@.map_values(|c: i64| c as int) =~= spec_pinned_chains(
                self@.pinned.take(0),
                cid@,
            ));
        }
        while i < plen
            invariant
                plen == self.pinned_cids.len(),
                i <= plen,
                (chains@.map_values(|c: i64| c as int)) == spec_pinned_chains(
                    self@.pinned.take(i as int),
                    cid@,
                ),
            decreases plen - i,
        {
            let ghost prev = chains@.map_values(|c: i64| c as int);
            if self.pinned_cids[i].cid == *cid {
                match find_i64(&chains, self.pinned_cids[i].chain_id) {
                    Option::Some(j) => {
                        proof {
                            assert(prev[j as int] == self@.pinned[i as int].chain_id);
                            assert(prev.contains(self@.pinned[i as int].chain_id));
                        }
                    },
                    Option::None => {
                        proof {
                            assert(!prev.contains(self@.pinned[i as int].chain_id));
                        }
                        chains.push(self.pinned_cids[i].chain_id);
                    },
                }
            }
            i = i + 1;
            proof {
                assert(self@.pinned.take(i as int).drop_last() =~= self@.pinned.take(i - 1));
                assert(self@.pinned.take(i as int).last() == self@.pinned[i - 1]);
                assert((chains@.map_values(|c: i64| c as int)) =~= spec_pinned_chains(
                    self@.pinned.take(i as int),
                    cid@,
                ));
            }
        }
        proof {
            assert(self@.pinned.take(plen as int) =~= self@.pinned);
        }
        let ghost pinned_chain_list = chains@.map_values(|c: i64| c as int);
        let flen = self.failed_pins.len();
        let mut fchains: Vec<i64> = Vec::new();
        let mut i2: usize = 0;
        proof {
            assert(fchains@.map_values(|c: i64| c as int) =~= spec_failed_only_chains(
                self@.failed.take(0),
                self@.pinned,
                cid@,
            ));
        }
        while i2 < flen
            invariant
                flen == self.failed_pins.len(),
                i2 <= flen,
                (fchains@.map_values(|c: i64| c as int)) == spec_failed_only_chains(
                    self@.failed.take(i2 as int),
                    self@.pinned,
                    cid@,
                ),
            decreases flen - i2,
        {
            let ghost prev = fchains@.map_values(|c: i64| c as int);
            if self.failed_pins[i2].cid == *cid {
                let chain = self.failed_pins[i2].chain_id;
                match find_i64(&fchains, chain) {
                    Option::Some(j) => {
                        proof {
                            assert(prev[j as int] == self@.failed[i2 as int].chain_id);
                            assert(prev.contains(self@.failed[i2 as int].chain_id));
                        }
                    },
                    Option::None => {
                        proof {
                            assert(!prev.contains(self@.failed[i2 as int].chain_id));
                        }
                        if !self.has_pinned_row(chain, cid) {
                            fchains.push(chain);
                        }
                    },
                }
            }
            i2 = i2 + 1;
            proof {
                assert(self@.failed.take(i2 as int).drop_last() =~= self@.failed.take(i2 - 1));
                assert(self@.failed.take(i2 as int).last() == self@.failed[i2 - 1]);
                assert((fchains@.map_values(|c: i64| c as int)) =~= spec_failed_only_chains(
                    self@.failed.take(i2 as int),
                    self@.pinned,
                    cid@,
                ));
            }
        }
        proof {
            assert(self@.failed.take(flen as int) =~= self@.failed);
        }
        let ghost failed_chain_list = fchains@.map_values(|c: i64| c as int);
        let mut out: Vec<CIDChainAggregate> = Vec::new();
        let n1 = chains.len();
        let mut k: usize = 0;
        while k < n1
            invariant
                n1 == chains@.len(),
                k <= n1,
                self@.pinned.len() <= 0x7fffffffffffffff,
                self@.failed.len() <= 0x7fffffffffffffff,
                pinned_chain_list == chains@.map_values(|c: i64| c as int),
                out@.len() == k,
                forall|idx: int|
                    0 <= idx < k ==> (#[trigger] out@[idx])@ == spec_agg_row_pinned(
                        self@,
                        pinned_chain_list[idx],
                        cid@,
                    ),
            decreases n1 - k,
        {
            let chain = chains[k];
            let np = self.count_pinned_rows_exec(chain, cid);
            let nf = self.count_failed_rows_exec(chain, cid);
            let row = CIDChainAggregate {
                pinned_chain_id: Option::Some(chain),
                pinned_node_count: np,
                pinned_end_block: self.max_pin_end_exec(chain, cid),
                failed_chain_id: if nf > 0 {
                    Option::Some(chain)
                } else {
                    Option::None
                },
                failed_node_count: nf,
                failed_end_block: self.max_failed_end_exec(chain, cid),
            };
            proof {
                assert(row@ =~= spec_agg_row_pinned(self@, pinned_chain_list[k as int], cid@));
            }
            out.push(row);
            k = k + 1;
        }
        let n2 = fchains.len();
        let mut k2: usize = 0;
        while k2 < n2
            invariant
                n1 == chains@.len(),
                n2 == fchains@.len(),
                k2 <= n2,
                self@.pinned.len() <= 0x7fffffffffffffff,
                self@.failed.len() <= 0x7fffffffffffffff,
                pinned_chain_list == chains@.map_values(|c: i64| c as int),
                failed_chain_list == fchains@.map_values(|c: i64| c as int),
                out@.len() == n1 + k2,
                forall|idx: int|
                    0 <= idx < n1 ==> (#[trigger] out@[idx])@ == spec_agg_row_pinned(
                        self@,
                        pinned_chain_list[idx],
                        cid@,
                    ),
                forall|idx: int|
                    n1 <= idx < n1 + k2 ==> (#[trigger] out@[idx])@ == spec_agg_row_failed(
                        self@,
                        failed_chain_list[idx - n1],
                        cid@,
                    ),
            decreases n2 - k2,
        {
            let chain = fchains[k2];
            let nf = self.count_failed_rows_exec(chain, cid);
            let row = CIDChainAggregate {
                pinned_chain_id: Option::None,
                pinned_node_count: 0,
                pinned_end_block: Option::None,
                failed_chain_id: Option::Some(chain),
                failed_node_count: nf,
                failed_end_block: self.max_failed_end_exec(chain, cid),
            };
            proof {
                assert(row@ =~= spec_agg_row_failed(self@, failed_chain_list[k2 as int], cid@));
            }
            out.push(row);
            k2 = k2 + 1;
        }
        proof {
            assert((out@.map_values(|x: CIDChainAggregate| x@)) =~= spec_cid_info_rows(
                self@,
                cid@,
            ));
        }
        out
    }
}

} // verus!
