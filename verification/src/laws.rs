//! The properties the coordinator stands on, proved over the store's
//! transitions: replayed logs change nothing, deadlines only ever grow to
//! the best declared one, the unpin cycle never touches a live record,
//! failed pins are remembered at most once, and a watcher that resumes
//! mid-stream ends where a single run would have.

use vstd::prelude::*;

use crate::store::{
    expired,
    max_end,
    norm_ob,
    norm_prov,
    same_provider,
    spec_add_failed,
    spec_add_provider,
    spec_drop_exact,
    spec_drop_multichain,
    spec_update_existing,
    spec_update_provider_field,
    store_wf,
    upd_pin_row,
    upsert_provider_row,
    StoreV,
};
use crate::types::{DecodedEventV, ObV, PinRowV};
use crate::watcher::spec_apply_event;

verus! {

/// Ingestion idempotence: applying the same decoded log to a store that
/// has already absorbed it changes nothing: replaying any log yields no
/// additional rows and no different values.
pub proof fn lemma_apply_event_idempotent(
    s: StoreV,
    chain_id: int,
    block_number: int,
    cur_provider_id: int,
    e: DecodedEventV,
)
    ensures
        spec_apply_event(
            spec_apply_event(s, chain_id, block_number, cur_provider_id, e),
            chain_id,
            block_number,
            cur_provider_id,
            e,
        ) == spec_apply_event(s, chain_id, block_number, cur_provider_id, e),
{
    let s1 = spec_apply_event(s, chain_id, block_number, cur_provider_id, e);
    let s2 = spec_apply_event(s1, chain_id, block_number, cur_provider_id, e);
    match e {
        DecodedEventV::UpdateValidBlock { donor, end_block, provider_id, cid } => {
            if provider_id == cur_provider_id {
                let ob = ObV {
                    chain_id,
                    cid,
                    donor,
                    update_block: block_number,
                    end_block,
                    manual_add: Option::Some(false),
                };
                if !s.obligations.contains(norm_ob(ob)) {
                    assert(s1.obligations.last() == norm_ob(ob));
                    assert(s1.obligations.contains(norm_ob(ob)));
                }
                assert(s2 =~= s1);
            }
        },
        DecodedEventV::AddProvider { owner, provider_id, block_price_gwei, api_url, name } => {
            let p = norm_prov(
                ProvVOf {
                    chain_id,
                    block_number,
                    owner,
                    provider_id,
                    block_price_gwei,
                    api_url,
                    name,
                }.row(),
            );
            lemma_add_provider_idempotent(s, p);
        },
        DecodedEventV::UpdateProviderBlockPrice { provider_id, block_price_gwei } => {
            lemma_update_field_idempotent(
                s,
                chain_id,
                block_number,
                provider_id,
                crate::store::ProvField::Price(block_price_gwei),
            );
        },
        DecodedEventV::UpdateProviderApiUrl { provider_id, api_url } => {
            lemma_update_field_idempotent(
                s,
                chain_id,
                block_number,
                provider_id,
                crate::store::ProvField::ApiUrl(api_url),
            );
        },
        DecodedEventV::UpdateProviderAddress { provider_id, owner } => {
            lemma_update_field_idempotent(
                s,
                chain_id,
                block_number,
                provider_id,
                crate::store::ProvField::Owner(crate::strutil::lower_seq(owner)),
            );
        },
        DecodedEventV::UpdateProviderName { provider_id, name } => {
            lemma_update_field_idempotent(
                s,
                chain_id,
                block_number,
                provider_id,
                crate::store::ProvField::Name(name),
            );
        },
    }
}

/// A bundle of the fields an `AddProvider` event carries, so the proof
/// above can name the row it builds.
pub ghost struct ProvVOf {
    pub chain_id: int,
    pub block_number: int,
    pub owner: Seq<char>,
    pub provider_id: int,
    pub block_price_gwei: int,
    pub api_url: Seq<char>,
    pub name: Seq<char>,
}

impl ProvVOf {
    pub open spec fn row(self) -> crate::types::ProvV {
        crate::types::ProvV {
            chain_id: self.chain_id,
            update_block: self.block_number,
            owner: self.owner,
            provider_id: self.provider_id,
            block_price_gwei: self.block_price_gwei,
            api_url: self.api_url,
            name: self.name,
        }
    }
}

/// Re-registering a provider with the very same event is a no-op.
proof fn lemma_add_provider_idempotent(s: StoreV, e: crate::types::ProvV)
    ensures
        spec_add_provider(spec_add_provider(s, e), e) == spec_add_provider(s, e),
{
    let s1 = spec_add_provider(s, e);
    let had = exists|k: int| 0 <= k < s.providers.len() && same_provider(s.providers[k], e);
    if had {
        let k = choose|k: int| 0 <= k < s.providers.len() && same_provider(s.providers[k], e);
        assert(same_provider(s1.providers[k], e));
        assert forall|j: int| 0 <= j < s1.providers.len() implies upsert_provider_row(
            s1.providers[j],
            e,
        ) == s1.providers[j] by {}
        assert(s1.providers.map_values(|p: crate::types::ProvV| upsert_provider_row(p, e))
            =~= s1.providers);
        assert(spec_add_provider(s1, e) =~= s1);
    } else {
        assert(s1.providers.last() == e);
        assert(same_provider(s1.providers[s1.providers.len() - 1], e));
        assert forall|j: int| 0 <= j < s1.providers.len() implies upsert_provider_row(
            s1.providers[j],
            e,
        ) == s1.providers[j] by {
            if j < s.providers.len() {
                assert(s1.providers[j] == s.providers[j]);
                assert(!same_provider(s.providers[j], e));
            }
        }
        assert(s1.providers.map_values(|p: crate::types::ProvV| upsert_provider_row(p, e))
            =~= s1.providers);
        assert(spec_add_provider(s1, e) =~= s1);
    }
}

/// Re-applying the very same field update is a no-op.
proof fn lemma_update_field_idempotent(
    s: StoreV,
    chain_id: int,
    update_block: int,
    provider_id: int,
    field: crate::store::ProvField,
)
    ensures
        spec_update_provider_field(
            spec_update_provider_field(s, chain_id, update_block, provider_id, field),
            chain_id,
            update_block,
            provider_id,
            field,
        ) == spec_update_provider_field(s, chain_id, update_block, provider_id, field),
{
    let s1 = spec_update_provider_field(s, chain_id, update_block, provider_id, field);
    let f = |p: crate::types::ProvV| crate::store::update_provider_field_row(
        p,
        chain_id,
        update_block,
        provider_id,
        field,
    );
    assert forall|j: int| 0 <= j < s1.providers.len() implies f(s1.providers[j])
        == s1.providers[j] by {
        assert(s1.providers[j] == f(s.providers[j]));
    }
    assert(s1.providers.map_values(f) =~= s1.providers);
    assert(spec_update_provider_field(s1, chain_id, update_block, provider_id, field) =~= s1);
}

/// What the deadline-extension fold computes is the greatest deadline on
/// offer: at least the row's own, at least every still-valid obligation's,
/// and always one of those.
pub proof fn lemma_max_end_greatest(
    obs: Seq<ObV>,
    chain: int,
    cid: Seq<char>,
    bn: int,
    cur: int,
)
    ensures
        max_end(obs, chain, cid, bn, cur) >= cur,
        forall|k: int|
            0 <= k < obs.len() && obs[k].chain_id == chain && obs[k].cid == cid && obs[k].end_block
                > bn ==> max_end(obs, chain, cid, bn, cur) >= obs[k].end_block,
        max_end(obs, chain, cid, bn, cur) == cur || exists|k: int|
            0 <= k < obs.len() && obs[k].chain_id == chain && obs[k].cid == cid && obs[k].end_block
                > bn && obs[k].end_block == max_end(obs, chain, cid, bn, cur),
    decreases obs.len(),
{
    if obs.len() > 0 {
        lemma_max_end_greatest(obs.drop_last(), chain, cid, bn, cur);
        assert(forall|k: int| 0 <= k < obs.len() - 1 ==> obs[k] == obs.drop_last()[k]);
        let m = max_end(obs, chain, cid, bn, cur);
        let mp = max_end(obs.drop_last(), chain, cid, bn, cur);
        let o = obs.last();
        if o.chain_id == chain && o.cid == cid && o.end_block > bn && o.end_block > mp {
            assert(obs[obs.len() - 1].end_block == m);
        } else {
            if mp != cur {
                let k = choose|k: int|
                    0 <= k < obs.drop_last().len() && obs.drop_last()[k].chain_id == chain
                        && obs.drop_last()[k].cid == cid && obs.drop_last()[k].end_block > bn
                        && obs.drop_last()[k].end_block == mp;
                assert(obs[k].end_block == m);
            }
        }
    }
}

/// Deadline monotonicity: after the extension statement, every record of
/// the chain carries the greatest deadline among its old one and the
/// still-valid obligations for its CID; permanent records stay permanent.
pub proof fn lemma_deadline_monotonicity(s: StoreV, chain: int, bn: int)
    ensures
        forall|i: int|
            0 <= i < s.pinned.len() && s.pinned[i].chain_id == chain && s.pinned[i].end_block
                != -1 ==> {
                let n = #[trigger] spec_update_existing(s, chain, bn).pinned[i].end_block;
                &&& n >= s.pinned[i].end_block
                &&& forall|k: int|
                    0 <= k < s.obligations.len() && s.obligations[k].chain_id == chain
                        && s.obligations[k].cid == s.pinned[i].cid && s.obligations[k].end_block
                        > bn ==> n >= s.obligations[k].end_block
                &&& (n == s.pinned[i].end_block || exists|k: int|
                    0 <= k < s.obligations.len() && s.obligations[k].chain_id == chain
                        && s.obligations[k].cid == s.pinned[i].cid && s.obligations[k].end_block
                        > bn && s.obligations[k].end_block == n)
            },
        forall|i: int|
            0 <= i < s.pinned.len() && s.pinned[i].end_block == -1 ==> #[trigger]
                spec_update_existing(s, chain, bn).pinned[i] == s.pinned[i],
{
    assert forall|i: int|
        0 <= i < s.pinned.len() implies #[trigger] spec_update_existing(s, chain, bn).pinned[i]
        == upd_pin_row(s.pinned[i], s.obligations, chain, bn) by {}
    assert forall|i: int|
        0 <= i < s.pinned.len() && s.pinned[i].chain_id == chain && s.pinned[i].end_block
            != -1 implies {
        let n = #[trigger] spec_update_existing(s, chain, bn).pinned[i].end_block;
        &&& n >= s.pinned[i].end_block
        &&& forall|k: int|
            0 <= k < s.obligations.len() && s.obligations[k].chain_id == chain
                && s.obligations[k].cid == s.pinned[i].cid && s.obligations[k].end_block > bn ==> n
                >= s.obligations[k].end_block
        &&& (n == s.pinned[i].end_block || exists|k: int|
            0 <= k < s.obligations.len() && s.obligations[k].chain_id == chain
                && s.obligations[k].cid == s.pinned[i].cid && s.obligations[k].end_block > bn
                && s.obligations[k].end_block == n)
    } by {
        lemma_max_end_greatest(
            s.obligations,
            chain,
            s.pinned[i].cid,
            bn,
            s.pinned[i].end_block,
        );
    }
}

/// No premature unpin, first half: the multi-chain delete at tip `bn`
/// keeps every record that is still valid or permanent.
pub proof fn lemma_multichain_delete_keeps_valid(
    orig: Seq<PinRowV>,
    s: Seq<PinRowV>,
    chain: int,
    bn: int,
)
    ensures
        forall|i: int|
            0 <= i < s.len() && !expired(s[i].end_block, bn) ==> spec_drop_multichain(
                orig,
                s,
                chain,
                bn,
            ).contains(#[trigger] s[i]),
    decreases s.len(),
{
    if s.len() > 0 {
        lemma_multichain_delete_keeps_valid(orig, s.drop_last(), chain, bn);
        let res = spec_drop_multichain(orig, s, chain, bn);
        let rest = spec_drop_multichain(orig, s.drop_last(), chain, bn);
        assert forall|i: int|
            0 <= i < s.len() && !expired(s[i].end_block, bn) implies res.contains(
            #[trigger] s[i],
        ) by {
            if i < s.len() - 1 {
                assert(s.drop_last()[i] == s[i]);
                assert(rest.contains(s[i]));
                let w = choose|w: int| 0 <= w < rest.len() && rest[w] == s[i];
                if res.len() > rest.len() {
                    assert(res[w] == rest[w]);
                } else {
                    assert(res == rest);
                }
            } else {
                assert(res.last() == s[i]);
            }
        }
    }
}

/// No premature unpin, second half: deleting the exact record of an
/// expired pin keeps every record that is still valid or permanent.
pub proof fn lemma_exact_delete_keeps_valid(s: Seq<PinRowV>, t: PinRowV, bn: int)
    requires
        expired(t.end_block, bn),
    ensures
        forall|i: int|
            0 <= i < s.len() && !expired(s[i].end_block, bn) ==> spec_drop_exact(s, t).contains(
                #[trigger] s[i],
            ),
    decreases s.len(),
{
    if s.len() > 0 {
        lemma_exact_delete_keeps_valid(s.drop_last(), t, bn);
        let res = spec_drop_exact(s, t);
        let rest = spec_drop_exact(s.drop_last(), t);
        assert forall|i: int|
            0 <= i < s.len() && !expired(s[i].end_block, bn) implies res.contains(
            #[trigger] s[i],
        ) by {
            if i < s.len() - 1 {
                assert(s.drop_last()[i] == s[i]);
                assert(rest.contains(s[i]));
                let w = choose|w: int| 0 <= w < rest.len() && rest[w] == s[i];
                if res.len() > rest.len() {
                    assert(res[w] == rest[w]);
                } else {
                    assert(res == rest);
                }
            } else {
                assert(res.last() == s[i]);
            }
        }
    }
}

/// Retry boundedness: however often a pin keeps failing, the record of the
/// failure exists at most once per chain, node, CID and deadline; adding
/// it again leaves the table without duplicates and without growth.
pub proof fn lemma_retry_boundedness(s: StoreV, t: PinRowV)
    requires
        store_wf(s),
    ensures
        store_wf(spec_add_failed(s, t)),
        forall|i: int, j: int|
            0 <= i < j < spec_add_failed(s, t).failed.len() ==> spec_add_failed(s, t).failed[i]
                != spec_add_failed(s, t).failed[j],
        s.failed.contains(t) ==> spec_add_failed(s, t) == s,
        spec_add_failed(spec_add_failed(s, t), t) == spec_add_failed(s, t),
{
    let s1 = spec_add_failed(s, t);
    if !s.failed.contains(t) {
        assert(s1.failed.last() == t);
        assert(s1.failed.contains(t));
        assert forall|i: int, j: int| 0 <= i < j < s1.failed.len() implies s1.failed[i]
            != s1.failed[j] by {
            if j < s.failed.len() {
            } else {
                assert(s1.failed[j] == t);
                assert(s1.failed[i] == s.failed[i]);
                assert(!s.failed.contains(t));
            }
        }
    }
    assert(spec_add_failed(s1, t) =~= s1);
}

/// Watcher resume: the logs of one uninterrupted run are the logs seen up
/// to the cut followed by the logs seen after it; ingesting the two parts
/// in turn ends in exactly the state of the single run.
pub proof fn lemma_resume_concat(
    s: StoreV,
    chain_id: int,
    cur_provider_id: int,
    first: Seq<(int, DecodedEventV)>,
    second: Seq<(int, DecodedEventV)>,
)
    ensures
        spec_apply_events(
            spec_apply_events(s, chain_id, cur_provider_id, first),
            chain_id,
            cur_provider_id,
            second,
        ) == spec_apply_events(s, chain_id, cur_provider_id, first + second),
    decreases second.len(),
{
    if second.len() == 0 {
        assert(first + second =~= first);
    } else {
        lemma_resume_concat(s, chain_id, cur_provider_id, first, second.drop_last());
        assert((first + second).drop_last() =~= first + second.drop_last());
        assert((first + second).last() == second.last());
    }
}

/// A whole stream of logs applied in order, each with the block it
/// appeared in.
pub open spec fn spec_apply_events(
    s: StoreV,
    chain_id: int,
    cur_provider_id: int,
    logs: Seq<(int, DecodedEventV)>,
) -> StoreV
    decreases logs.len(),
{
    if logs.len() == 0 {
        s
    } else {
        spec_apply_event(
            spec_apply_events(s, chain_id, cur_provider_id, logs.drop_last()),
            chain_id,
            logs.last().0,
            cur_provider_id,
            logs.last().1,
        )
    }
}

/// An obligation event leaves every table but the obligations untouched,
/// and only ever appends there; whatever was declared stays declared.
proof fn lemma_obligation_event_monotone(
    s: StoreV,
    chain_id: int,
    block_number: int,
    cur_provider_id: int,
    e: DecodedEventV,
)
    requires
        e is UpdateValidBlock,
    ensures
        ({
            let s1 = spec_apply_event(s, chain_id, block_number, cur_provider_id, e);
            &&& s1.providers == s.providers
            &&& s1.pinned == s.pinned
            &&& s1.failed == s.failed
            &&& forall|x: ObV| s.obligations.contains(x) ==> s1.obligations.contains(x)
        }),
{
    let s1 = spec_apply_event(s, chain_id, block_number, cur_provider_id, e);
    assert forall|x: ObV| s.obligations.contains(x) implies s1.obligations.contains(x) by {
        let w = choose|w: int| 0 <= w < s.obligations.len() && s.obligations[w] == x;
        assert(s1.obligations[w] == x);
    }
}

/// The provider an event names.
pub open spec fn event_provider_id(e: DecodedEventV) -> int {
    match e {
        DecodedEventV::UpdateValidBlock { provider_id, .. } => provider_id,
        DecodedEventV::AddProvider { provider_id, .. } => provider_id,
        DecodedEventV::UpdateProviderBlockPrice { provider_id, .. } => provider_id,
        DecodedEventV::UpdateProviderApiUrl { provider_id, .. } => provider_id,
        DecodedEventV::UpdateProviderAddress { provider_id, .. } => provider_id,
        DecodedEventV::UpdateProviderName { provider_id, .. } => provider_id,
    }
}

/// Every work item the unpin cycle hands out names a pin that really has
/// expired: together with the two delete lemmas above, no reconciliation
/// cycle at tip `bn` ever removes a record that is still valid or
/// permanent.
pub proof fn lemma_unpin_items_expired(
    orig: Seq<PinRowV>,
    s: Seq<PinRowV>,
    chain: int,
    bn: int,
)
    ensures
        forall|i: int|
            0 <= i < crate::queries::spec_expired_cids(orig, s, chain, bn).len() ==> {
                let item = #[trigger] crate::queries::spec_expired_cids(orig, s, chain, bn)[i];
                &&& item.end_block is Some
                &&& expired(crate::types::some_int(item.end_block), bn)
            },
    decreases s.len(),
{
    if s.len() > 0 {
        lemma_unpin_items_expired(orig, s.drop_last(), chain, bn);
        let res = crate::queries::spec_expired_cids(orig, s, chain, bn);
        let prev = crate::queries::spec_expired_cids(orig, s.drop_last(), chain, bn);
        assert forall|i: int| 0 <= i < res.len() implies {
            let item = #[trigger] res[i];
            &&& item.end_block is Some
            &&& expired(crate::types::some_int(item.end_block), bn)
        } by {
            if i < prev.len() {
                assert(res[i] == prev[i]);
            }
        }
    }
}

/// A log that mutates the provider registry rather than the obligations.
pub open spec fn is_provider_event(e: DecodedEventV) -> bool {
    !(e is UpdateValidBlock)
}

/// Two registry events about the same provider.
pub open spec fn same_event_key(a: DecodedEventV, b: DecodedEventV) -> bool {
    is_provider_event(a) && is_provider_event(b) && event_provider_id(a) == event_provider_id(b)
}

/// Per-provider order: two registry events about one provider arrive in
/// strictly increasing blocks. Obligation events are unconstrained.
pub open spec fn per_key_ordered(logs: Seq<(int, DecodedEventV)>) -> bool {
    forall|i: int, j: int|
        0 <= i < j < logs.len() && same_event_key((#[trigger] logs[i]).1, (#[trigger] logs[j]).1)
            ==> logs[i].0 < logs[j].0
}

/// A log the store has fully absorbed: applying it again changes nothing.
pub open spec fn settled(u: StoreV, chain: int, pid: int, b: int, e: DecodedEventV) -> bool {
    spec_apply_event(u, chain, b, pid, e) == u
}

/// A registry event reads and writes the registry alone, and its effect
/// on the registry is a function of the registry alone.
proof fn lemma_provider_event_congruent(
    x: StoreV,
    y: StoreV,
    chain: int,
    b: int,
    pid: int,
    e: DecodedEventV,
)
    requires
        is_provider_event(e),
        x.providers == y.providers,
    ensures
        spec_apply_event(x, chain, b, pid, e).providers == spec_apply_event(
            y,
            chain,
            b,
            pid,
            e,
        ).providers,
        spec_apply_event(x, chain, b, pid, e) == (StoreV {
            providers: spec_apply_event(x, chain, b, pid, e).providers,
            ..x
        }),
{
    assert(spec_apply_event(x, chain, b, pid, e).providers =~= spec_apply_event(
        y,
        chain,
        b,
        pid,
        e,
    ).providers);
    assert(spec_apply_event(x, chain, b, pid, e) =~= StoreV {
        providers: spec_apply_event(x, chain, b, pid, e).providers,
        ..x
    });
}

/// A settled registry event leaves every registry row alone, and each
/// row about its provider already carries a later or equal block.
proof fn lemma_settled_provider_rows(u: StoreV, chain: int, pid: int, b: int, e: DecodedEventV)
    requires
        is_provider_event(e),
        settled(u, chain, pid, b, e),
    ensures
        forall|j: int|
            0 <= j < u.providers.len() ==> spec_apply_event(u, chain, b, pid, e).providers[j]
                == (#[trigger] u.providers[j]),
{
    assert forall|j: int|
        0 <= j < u.providers.len() implies spec_apply_event(u, chain, b, pid, e).providers[j]
        == (#[trigger] u.providers[j]) by {
        assert(spec_apply_event(u, chain, b, pid, e) == u);
    }
}

/// Once a store has absorbed a log, absorbing any strictly later log (or
/// one about something else entirely) keeps the first one absorbed.
proof fn lemma_settled_preserved(
    u: StoreV,
    chain: int,
    pid: int,
    bi: int,
    ei: DecodedEventV,
    bn: int,
    en: DecodedEventV,
)
    requires
        settled(u, chain, pid, bi, ei),
        same_event_key(ei, en) ==> bi < bn,
    ensures
        settled(spec_apply_event(u, chain, bn, pid, en), chain, pid, bi, ei),
{
    let u1 = spec_apply_event(u, chain, bn, pid, en);
    match ei {
        DecodedEventV::UpdateValidBlock { donor, end_block, provider_id, cid } => {
            if provider_id == pid {
                let row = norm_ob(
                    ObV {
                        chain_id: chain,
                        cid,
                        donor,
                        update_block: bi,
                        end_block,
                        manual_add: Option::Some(false),
                    },
                );
                // Settled means the row is already there: a push would
                // have lengthened the table.
                if !u.obligations.contains(row) {
                    assert(spec_apply_event(u, chain, bi, pid, ei).obligations.len()
                        == u.obligations.len() + 1);
                }
                assert(u.obligations.contains(row));
                // Whatever the later log is, it keeps the obligations.
                if is_provider_event(en) {
                    assert(u1.obligations == u.obligations);
                } else {
                    lemma_obligation_event_monotone(u, chain, bn, pid, en);
                }
                assert(u1.obligations.contains(row));
                assert(spec_apply_event(u1, chain, bi, pid, ei) =~= u1);
            } else {
                assert(spec_apply_event(u1, chain, bi, pid, ei) =~= u1);
            }
        },
        _ => {
            lemma_settled_provider_rows(u, chain, pid, bi, ei);
            if !is_provider_event(en) {
                // The later log only touches the obligations; the
                // registry it leaves is the one the first log settled in.
                lemma_obligation_event_monotone(u, chain, bn, pid, en);
                lemma_provider_event_congruent(u1, u, chain, bi, pid, ei);
                assert(spec_apply_event(u1, chain, bi, pid, ei) =~= u1);
            } else {
                lemma_provider_settled_after_provider(u, chain, pid, bi, ei, bn, en);
            }
        },
    }
}

/// The heart of the stream argument: a settled registry event stays
/// settled after a later (or unrelated) registry event.
proof fn lemma_provider_settled_after_provider(
    u: StoreV,
    chain: int,
    pid: int,
    bi: int,
    ei: DecodedEventV,
    bn: int,
    en: DecodedEventV,
)
    requires
        is_provider_event(ei),
        is_provider_event(en),
        settled(u, chain, pid, bi, ei),
        same_event_key(ei, en) ==> bi < bn,
    ensures
        settled(spec_apply_event(u, chain, bn, pid, en), chain, pid, bi, ei),
{
    let u1 = spec_apply_event(u, chain, bn, pid, en);
    let key_i = event_provider_id(ei);
    let key_n = event_provider_id(en);
    lemma_settled_provider_rows(u, chain, pid, bi, ei);
    lemma_provider_event_congruent(u, u, chain, bn, pid, en);

    // Every row of the registry after the later event is either an old
    // row kept as it was, an old row re-stamped with the later block, or
    // the later event's own row; in each shape the first event leaves it
    // alone.
    assert forall|j: int|
        0 <= j < u1.providers.len() implies #[trigger] row_absorbs(
        u1.providers[j],
        chain,
        bi,
        ei,
    ) by {
        lemma_row_shape_after_event(u, chain, pid, bi, ei, bn, en, j);
    }
    if ei is AddProvider {
        // A settled registration means the registry already holds a row
        // for its provider: an upsert without one appends and would have
        // changed the table.
        if !(exists|k: int|
            0 <= k < u.providers.len() && (#[trigger] u.providers[k]).chain_id == chain
                && u.providers[k].provider_id == key_i) {
            assert(spec_apply_event(u, chain, bi, pid, ei).providers.len()
                == u.providers.len() + 1);
        }
        let k = choose|k: int|
            0 <= k < u.providers.len() && (#[trigger] u.providers[k]).chain_id == chain
                && u.providers[k].provider_id == key_i;
        lemma_keys_preserved(u, chain, bn, pid, en);
        assert(u1.providers[k].chain_id == chain && u1.providers[k].provider_id == key_i);
    }
    assert(spec_apply_event(u1, chain, bi, pid, ei).providers =~= u1.providers) by {
        lemma_absorbed_rows_fix_event(u1, chain, pid, bi, ei);
    }
    lemma_provider_event_congruent(u1, u1, chain, bi, pid, ei);
    assert(spec_apply_event(u1, chain, bi, pid, ei) =~= u1);
}

/// A registry row the event `e` (at block `b`) leaves exactly as it is.
pub open spec fn row_absorbs(p: crate::types::ProvV, chain: int, b: int, e: DecodedEventV) -> bool {
    match e {
        DecodedEventV::AddProvider { owner, provider_id, block_price_gwei, api_url, name } => {
            upsert_provider_row(
                p,
                norm_prov(
                    crate::types::ProvV {
                        chain_id: chain,
                        update_block: b,
                        owner,
                        provider_id,
                        block_price_gwei,
                        api_url,
                        name,
                    },
                ),
            ) == p
        },
        DecodedEventV::UpdateProviderBlockPrice { provider_id, block_price_gwei } => {
            crate::store::update_provider_field_row(
                p,
                chain,
                b,
                provider_id,
                crate::store::ProvField::Price(block_price_gwei),
            ) == p
        },
        DecodedEventV::UpdateProviderApiUrl { provider_id, api_url } => {
            crate::store::update_provider_field_row(
                p,
                chain,
                b,
                provider_id,
                crate::store::ProvField::ApiUrl(api_url),
            ) == p
        },
        DecodedEventV::UpdateProviderAddress { provider_id, owner } => {
            crate::store::update_provider_field_row(
                p,
                chain,
                b,
                provider_id,
                crate::store::ProvField::Owner(crate::strutil::lower_seq(owner)),
            ) == p
        },
        DecodedEventV::UpdateProviderName { provider_id, name } => {
            crate::store::update_provider_field_row(
                p,
                chain,
                b,
                provider_id,
                crate::store::ProvField::Name(name),
            ) == p
        },
        _ => true,
    }
}

/// After the later event, each registry row still absorbs the first one.
proof fn lemma_row_shape_after_event(
    u: StoreV,
    chain: int,
    pid: int,
    bi: int,
    ei: DecodedEventV,
    bn: int,
    en: DecodedEventV,
    j: int,
)
    requires
        is_provider_event(ei),
        is_provider_event(en),
        settled(u, chain, pid, bi, ei),
        same_event_key(ei, en) ==> bi < bn,
        0 <= j < spec_apply_event(u, chain, bn, pid, en).providers.len(),
    ensures
        row_absorbs(spec_apply_event(u, chain, bn, pid, en).providers[j], chain, bi, ei),
{
    let u1 = spec_apply_event(u, chain, bn, pid, en);
    let p1 = u1.providers[j];
    lemma_settled_provider_rows(u, chain, pid, bi, ei);
    if j < u.providers.len() {
        let p0 = u.providers[j];
        // The old row absorbed the first event already.
        assert(spec_apply_event(u, chain, bi, pid, ei).providers[j] == p0);
        assert(row_absorbs(p0, chain, bi, ei));
        if p1 != p0 {
            // The later event rewrote this row, so the row is about the
            // later event's provider and now carries its block.
            assert(p1.provider_id == event_provider_id(en) && p1.update_block == bn);
            if p1.provider_id == event_provider_id(ei) {
                assert(bi < bn);
                assert(row_absorbs(p1, chain, bi, ei));
            } else {
                assert(row_absorbs(p1, chain, bi, ei));
            }
        }
    } else {
        // A row the later event appended: it is the later event's own
        // row, and if the first event shares its provider the block is
        // strictly newer; if not, the first event ignores it.
        assert(p1.provider_id == event_provider_id(en) && p1.update_block == bn);
        if p1.provider_id == event_provider_id(ei) {
            assert(bi < bn);
            assert(row_absorbs(p1, chain, bi, ei));
        } else {
            assert(row_absorbs(p1, chain, bi, ei));
        }
    }
}

/// A registry whose every row absorbs an event is a fixed point of it.
proof fn lemma_absorbed_rows_fix_event(
    u1: StoreV,
    chain: int,
    pid: int,
    bi: int,
    ei: DecodedEventV,
)
    requires
        is_provider_event(ei),
        forall|j: int|
            0 <= j < u1.providers.len() ==> #[trigger] row_absorbs(u1.providers[j], chain, bi, ei),
        (ei matches DecodedEventV::AddProvider { provider_id, .. } ==> exists|k: int|
            0 <= k < u1.providers.len() && (#[trigger] u1.providers[k]).chain_id == chain
                && u1.providers[k].provider_id == provider_id),
    ensures
        spec_apply_event(u1, chain, bi, pid, ei).providers =~= u1.providers,
{
    match ei {
        DecodedEventV::AddProvider { owner, provider_id, block_price_gwei, api_url, name } => {
            let p = norm_prov(
                crate::types::ProvV {
                    chain_id: chain,
                    update_block: bi,
                    owner,
                    provider_id,
                    block_price_gwei,
                    api_url,
                    name,
                },
            );
            let had = exists|k: int|
                0 <= k < u1.providers.len() && same_provider(u1.providers[k], p);
            if had {
                assert forall|j: int|
                    0 <= j < u1.providers.len() implies upsert_provider_row(u1.providers[j], p)
                    == u1.providers[j] by {
                    assert(row_absorbs(u1.providers[j], chain, bi, ei));
                }
                assert(spec_apply_event(u1, chain, bi, pid, ei).providers =~= u1.providers);
            } else {
                // Ruled out by the extra hypothesis: the registry holds a
                // row for the provider the event names.
                assert(false);
            }
        },
        _ => {
            assert forall|j: int|
                0 <= j < u1.providers.len() implies #[trigger] spec_apply_event(
                u1,
                chain,
                bi,
                pid,
                ei,
            ).providers[j] == u1.providers[j] by {
                assert(row_absorbs(u1.providers[j], chain, bi, ei));
            }
            assert(spec_apply_event(u1, chain, bi, pid, ei).providers =~= u1.providers);
        },
    }
}

/// A registry event never changes which provider a row is about.
proof fn lemma_keys_preserved(u: StoreV, chain: int, bn: int, pid: int, en: DecodedEventV)
    requires
        is_provider_event(en),
    ensures
        spec_apply_event(u, chain, bn, pid, en).providers.len() >= u.providers.len(),
        forall|j: int|
            0 <= j < u.providers.len() ==> {
                let q = #[trigger] spec_apply_event(u, chain, bn, pid, en).providers[j];
                q.chain_id == u.providers[j].chain_id && q.provider_id
                    == u.providers[j].provider_id
            },
{
    assert forall|j: int| 0 <= j < u.providers.len() implies {
        let q = #[trigger] spec_apply_event(u, chain, bn, pid, en).providers[j];
        q.chain_id == u.providers[j].chain_id && q.provider_id == u.providers[j].provider_id
    } by {}
}

/// After one pass over a per-provider-ordered stream, every log in it is
/// settled in the resulting store.
proof fn lemma_stream_all_settled(
    s: StoreV,
    chain: int,
    pid: int,
    logs: Seq<(int, DecodedEventV)>,
)
    requires
        per_key_ordered(logs),
    ensures
        forall|i: int|
            0 <= i < logs.len() ==> settled(
                spec_apply_events(s, chain, pid, logs),
                chain,
                pid,
                (#[trigger] logs[i]).0,
                logs[i].1,
            ),
    decreases logs.len(),
{
    if logs.len() > 0 {
        assert(forall|i: int|
            0 <= i < logs.drop_last().len() ==> (#[trigger] logs.drop_last()[i]) == logs[i]);
        lemma_stream_all_settled(s, chain, pid, logs.drop_last());
        let t0 = spec_apply_events(s, chain, pid, logs.drop_last());
        let last = logs[logs.len() - 1];
        let t = spec_apply_events(s, chain, pid, logs);
        assert(t == spec_apply_event(t0, chain, last.0, pid, last.1));
        assert forall|i: int| 0 <= i < logs.len() implies settled(
            t,
            chain,
            pid,
            (#[trigger] logs[i]).0,
            logs[i].1,
        ) by {
            if i < logs.len() - 1 {
                assert(logs.drop_last()[i] == logs[i]);
                assert(settled(t0, chain, pid, logs.drop_last()[i].0, logs.drop_last()[i].1));
                assert(settled(t0, chain, pid, logs[i].0, logs[i].1));
                assert(same_event_key(logs[i].1, last.1) ==> logs[i].0 < last.0);
                lemma_settled_preserved(t0, chain, pid, logs[i].0, logs[i].1, last.0, last.1);
            } else {
                lemma_apply_event_idempotent(t0, chain, last.0, pid, last.1);
            }
        }
    }
}

/// Applying a stream in which every log is already settled is a no-op.
proof fn lemma_settled_stream_noop(
    t: StoreV,
    chain: int,
    pid: int,
    logs: Seq<(int, DecodedEventV)>,
)
    requires
        forall|i: int|
            0 <= i < logs.len() ==> settled(t, chain, pid, (#[trigger] logs[i]).0, logs[i].1),
    ensures
        spec_apply_events(t, chain, pid, logs) == t,
    decreases logs.len(),
{
    if logs.len() > 0 {
        assert(forall|i: int|
            0 <= i < logs.drop_last().len() ==> (#[trigger] logs.drop_last()[i]) == logs[i]);
        assert forall|i: int|
            0 <= i < logs.drop_last().len() implies settled(
            t,
            chain,
            pid,
            (#[trigger] logs.drop_last()[i]).0,
            logs.drop_last()[i].1,
        ) by {
            assert(logs.drop_last()[i] == logs[i]);
        }
        lemma_settled_stream_noop(t, chain, pid, logs.drop_last());
        let last = logs[logs.len() - 1];
        assert(settled(t, chain, pid, last.0, last.1));
    }
}

/// Ingestion idempotence for a whole stream: replaying a log stream whose
/// registry events arrive in per-provider block order - as the block-wise
/// backfill delivers them - leaves every table exactly as one pass left
/// it, however many times the stream is replayed.
pub proof fn lemma_stream_replay(
    s: StoreV,
    chain: int,
    pid: int,
    logs: Seq<(int, DecodedEventV)>,
)
    requires
        per_key_ordered(logs),
    ensures
        spec_apply_events(
            spec_apply_events(s, chain, pid, logs),
            chain,
            pid,
            logs,
        ) == spec_apply_events(s, chain, pid, logs),
{
    lemma_stream_all_settled(s, chain, pid, logs);
    lemma_settled_stream_noop(spec_apply_events(s, chain, pid, logs), chain, pid, logs);
}

} // verus!
