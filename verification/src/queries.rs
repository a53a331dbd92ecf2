//! The store's selects: the resume block for a watcher, the CIDs a pin
//! cycle must pin, the failed pins to retry, and the expired pins to
//! release. Each result is characterised exactly against the store's view.

use vstd::prelude::*;

use crate::store::{expired, held_by_other_chain, Store};
use crate::types::{CIDInfo, CidInfoV, ObV, PinRowV};

verus! {

/// Which table a watcher resumes from.
#[derive(Debug, Clone, Copy)]
pub enum EventTable {
    UpdateValidBlock,
    AddProvider,
}

/// The greatest `update_block` among the chain's obligation rows, if any.
pub open spec fn spec_max_update_block_obs(s: Seq<ObV>, chain: int) -> Option<int>
    decreases s.len(),
{
    if s.len() == 0 {
        Option::None
    } else {
        let rest = spec_max_update_block_obs(s.drop_last(), chain);
        let o = s.last();
        if o.chain_id == chain {
            match rest {
                Option::None => Option::Some(o.update_block),
                Option::Some(m) => Option::Some(
                    if o.update_block > m {
                        o.update_block
                    } else {
                        m
                    },
                ),
            }
        } else {
            rest
        }
    }
}

/// The greatest `update_block` among the chain's provider rows, if any.
pub open spec fn spec_max_update_block_provs(
    s: Seq<crate::types::ProvV>,
    chain: int,
) -> Option<int>
    decreases s.len(),
{
    if s.len() == 0 {
        Option::None
    } else {
        let rest = spec_max_update_block_provs(s.drop_last(), chain);
        let p = s.last();
        if p.chain_id == chain {
            match rest {
                Option::None => Option::Some(p.update_block),
                Option::Some(m) => Option::Some(
                    if p.update_block > m {
                        p.update_block
                    } else {
                        m
                    },
                ),
            }
        } else {
            rest
        }
    }
}

/// The larger of two block numbers.
pub open spec fn imax(a: int, b: int) -> int {
    if a >= b {
        a
    } else {
        b
    }
}

/// One `(cid, deadline)` pair folded into the grouped pin list: the first
/// entry with the same CID absorbs the later deadline, a new CID appends.
pub open spec fn bump(l: Seq<(Seq<char>, int)>, cid: Seq<char>, end: int) -> Seq<(Seq<char>, int)>
    decreases l.len(),
{
    if l.len() == 0 {
        seq![(cid, end)]
    } else if l[0].0 == cid {
        seq![(l[0].0, imax(l[0].1, end))] + l.drop_first()
    } else {
        seq![l[0]] + bump(l.drop_first(), cid, end)
    }
}

/// An obligation that obliges a pin right now: it names this chain, is not
/// yet expired at the tip, and its CID has no pinned record on the chain.
pub open spec fn ob_qualifies(o: ObV, pinned: Seq<PinRowV>, chain: int, bn: int) -> bool {
    &&& o.chain_id == chain
    &&& o.end_block > bn
    &&& !(exists|k: int|
        0 <= k < pinned.len() && pinned[k].chain_id == chain && pinned[k].cid == o.cid)
}

/// The grouped pin list: every qualifying CID once, with its greatest
/// still-valid deadline, in first-appearance order.
pub open spec fn spec_new_cids(
    obs: Seq<ObV>,
    pinned: Seq<PinRowV>,
    chain: int,
    bn: int,
) -> Seq<(Seq<char>, int)>
    decreases obs.len(),
{
    if obs.len() == 0 {
        Seq::<(Seq<char>, int)>::empty()
    } else {
        let prev = spec_new_cids(obs.drop_last(), pinned, chain, bn);
        let o = obs.last();
        if ob_qualifies(o, pinned, chain, bn) {
            bump(prev, o.cid, o.end_block)
        } else {
            prev
        }
    }
}

/// A pin work item for a CID that is not yet on any node.
pub open spec fn new_cid_item(chain: int, p: (Seq<char>, int)) -> CidInfoV {
    CidInfoV {
        chain_id: Option::Some(chain),
        cid: Option::Some(p.0),
        end_block: Option::Some(p.1),
        node: Option::None,
        node_login: Option::None,
        node_pass: Option::None,
    }
}

/// A retry work item for a failed pin, node included.
pub open spec fn failed_cid_item(chain: int, r: PinRowV) -> CidInfoV {
    CidInfoV {
        chain_id: Option::Some(chain),
        cid: Option::Some(r.cid),
        end_block: Option::Some(r.end_block),
        node: Option::Some(r.node),
        node_login: Option::None,
        node_pass: Option::None,
    }
}

/// The chain's failed pins that are still worth retrying at tip `bn`.
pub open spec fn spec_failed_cids(s: Seq<PinRowV>, chain: int, bn: int) -> Seq<CidInfoV>
    decreases s.len(),
{
    if s.len() == 0 {
        Seq::<CidInfoV>::empty()
    } else {
        let prev = spec_failed_cids(s.drop_last(), chain, bn);
        let r = s.last();
        if r.chain_id == chain && r.end_block > bn {
            prev.push(failed_cid_item(chain, r))
        } else {
            prev
        }
    }
}

/// The chain's expired pins whose CID no other chain still holds: these
/// are the ones that really come off the nodes.
pub open spec fn spec_expired_cids(
    orig: Seq<PinRowV>,
    s: Seq<PinRowV>,
    chain: int,
    bn: int,
) -> Seq<CidInfoV>
    decreases s.len(),
{
    if s.len() == 0 {
        Seq::<CidInfoV>::empty()
    } else {
        let prev = spec_expired_cids(orig, s.drop_last(), chain, bn);
        let r = s.last();
        if r.chain_id == chain && expired(r.end_block, bn) && !held_by_other_chain(
            orig,
            chain,
            r.cid,
        ) {
            prev.push(failed_cid_item(chain, r))
        } else {
            prev
        }
    }
}

/// The `(cid, deadline)` pairs two parallel columns spell out.
pub open spec fn cid_end_pairs(cids: Seq<String>, ends: Seq<i64>) -> Seq<(Seq<char>, int)> {
    Seq::new(cids.len(), |i: int| (cids[i]@, ends[i] as int))
}

/// Folding a pair into a list that already has its CID updates that entry
/// in place, to the larger deadline.
proof fn lemma_bump_found(l: Seq<(Seq<char>, int)>, cid: Seq<char>, end: int, j: int)
    requires
        0 <= j < l.len(),
        l[j].0 == cid,
        forall|k: int| 0 <= k < j ==> l[k].0 != cid,
    ensures
        bump(l, cid, end) =~= l.update(j, (cid, imax(l[j].1, end))),
    decreases j,
{
    if j == 0 {
        assert(bump(l, cid, end) =~= l.update(0, (l[0].0, imax(l[0].1, end))));
    } else {
        assert(l.drop_first()[j - 1].0 == cid);
        assert(forall|k: int| 0 <= k < j - 1 ==> l.drop_first()[k].0 != cid);
        lemma_bump_found(l.drop_first(), cid, end, j - 1);
        assert(bump(l, cid, end) =~= seq![l[0]] + l.drop_first().update(
            j - 1,
            (cid, imax(l[j].1, end)),
        ));
        assert(seq![l[0]] + l.drop_first().update(j - 1, (cid, imax(l[j].1, end))) =~= l.update(
            j,
            (cid, imax(l[j].1, end)),
        ));
    }
}

/// Folding a pair into a list without its CID appends it at the end.
proof fn lemma_bump_missing(l: Seq<(Seq<char>, int)>, cid: Seq<char>, end: int)
    requires
        forall|k: int| 0 <= k < l.len() ==> l[k].0 != cid,
    ensures
        bump(l, cid, end) =~= l.push((cid, end)),
    decreases l.len(),
{
    if l.len() > 0 {
        assert(forall|k: int| 0 <= k < l.drop_first().len() ==> l.drop_first()[k].0 != cid);
        lemma_bump_missing(l.drop_first(), cid, end);
        assert(bump(l, cid, end) =~= seq![l[0]] + l.drop_first().push((cid, end)));
        assert(seq![l[0]] + l.drop_first().push((cid, end)) =~= l.push((cid, end)));
    }
}

/// The first column holding `cid`, if one does.
fn find_cid(cids: &Vec<String>, cid: &String) -> (r: Option<usize>)
    ensures
        match r {
            Option::Some(j) => j < cids@.len() && cids@[j as int]@ == cid@ && forall|k: int|
                0 <= k < j ==> cids@[k]@ != cid@,
            Option::None => forall|k: int| 0 <= k < cids@.len() ==> cids@[k]@ != cid@,
        },
{
    let len = cids.len();
    let mut j: usize = 0;
    while j < len
        invariant
            len == cids@.len(),
            j <= len,
            forall|k: int| 0 <= k < j ==> cids@[k]@ != cid@,
        decreases len - j,
    {
        if cids[j] == *cid {
            return Option::Some(j);
        }
        j = j + 1;
    }
    Option::None
}

impl Store {
    /// The block a watcher resumes from for one table and chain, if the
    /// table holds anything for that chain at all.
    pub fn get_max_update_block(&self, table: EventTable, chain_id: i64) -> (r: Option<i64>)
        ensures
            match table {
                EventTable::UpdateValidBlock => crate::types::view_opt_i64(r)
                    == spec_max_update_block_obs(self@.obligations, chain_id as int),
                EventTable::AddProvider => crate::types::view_opt_i64(r)
                    == spec_max_update_block_provs(self@.providers, chain_id as int),
            },
    {
        match table {
            EventTable::UpdateValidBlock => {
                let len = self.event_update_valid_block.len();
                let mut best: Option<i64> = Option::None;
                let mut i: usize = 0;
                while i < len
                    invariant
                        len == self.event_update_valid_block.len(),
                        i <= len,
                        crate::types::view_opt_i64(best) == spec_max_update_block_obs(
                            self@.obligations.take(i as int),
                            chain_id as int,
                        ),
                    decreases len - i,
                {
                    let o = &self.event_update_valid_block[i];
                    if o.chain_id == chain_id {
                        best = match best {
                            Option::None => Option::Some(o.update_block),
                            Option::Some(m) => Option::Some(
                                if o.update_block > m {
                                    o.update_block
                                } else {
                                    m
                                },
                            ),
                        };
                    }
                    i = i + 1;
                    proof {
                        assert(self@.obligations.take(i as int).drop_last()
                            =~= self@.obligations.take(i - 1));
                    }
                }
                proof {
                    assert(self@.obligations.take(len as int) =~= self@.obligations);
                }
                best
            },
            EventTable::AddProvider => {
                let len = self.event_add_provider.len();
                let mut best: Option<i64> = Option::None;
                let mut i: usize = 0;
                while i < len
                    invariant
                        len == self.event_add_provider.len(),
                        i <= len,
                        crate::types::view_opt_i64(best) == spec_max_update_block_provs(
                            self@.providers.take(i as int),
                            chain_id as int,
                        ),
                    decreases len - i,
                {
                    let p = &self.event_add_provider[i];
                    if p.chain_id == chain_id {
                        best = match best {
                            Option::None => Option::Some(p.update_block),
                            Option::Some(m) => Option::Some(
                                if p.update_block > m {
                                    p.update_block
                                } else {
                                    m
                                },
                            ),
                        };
                    }
                    i = i + 1;
                    proof {
                        assert(self@.providers.take(i as int).drop_last() =~= self@.providers.take(
                            i - 1,
                        ));
                    }
                }
                proof {
                    assert(self@.providers.take(len as int) =~= self@.providers);
                }
                best
            },
        }
    }

    /// Whether the chain already has a pinned record for `cid` on any node.
    pub(crate) fn has_pinned_row(&self, chain_id: i64, cid: &String) -> (r: bool)
        ensures
            r == exists|k: int|
                0 <= k < self@.pinned.len() && self@.pinned[k].chain_id == chain_id
                    && self@.pinned[k].cid == cid@,
    {
        let len = self.pinned_cids.len();
        let mut i: usize = 0;
        while i < len
            invariant
                len == self.pinned_cids.len(),
                i <= len,
                forall|k: int|
                    0 <= k < i ==> !(self@.pinned[k].chain_id == chain_id && self@.pinned[k].cid
                        == cid@),
            decreases len - i,
        {
            if self.pinned_cids[i].chain_id == chain_id && self.pinned_cids[i].cid == *cid {
                proof {
                    assert(self@.pinned[i as int].chain_id == chain_id && self@.pinned[i as int].cid
                        == cid@);
                }
                return true;
            }
            i = i + 1;
        }
        false
    }

    /// The CIDs the pin cycle must now pin: every CID with a still-valid
    /// obligation on the chain and no pinned record, each once, with its
    /// greatest deadline.
    pub fn get_new_cids(&self, chain_id: i64, end_block: i64) -> (r: Vec<CIDInfo>)
        ensures
            (r@.map_values(|c: CIDInfo| c@)) == spec_new_cids(
                self@.obligations,
                self@.pinned,
                chain_id as int,
                end_block as int,
            ).map_values(|p: (Seq<char>, int)| new_cid_item(chain_id as int, p)),
    {
        let len = self.event_update_valid_block.len();
        let mut cids: Vec<String> = Vec::new();
        let mut ends: Vec<i64> = Vec::new();
        let mut i: usize = 0;
        proof {
            assert(cid_end_pairs(cids@, ends@) =~= spec_new_cids(
                self@.obligations.take(0),
                self@.pinned,
                chain_id as int,
                end_block as int,
            ));
        }
        while i < len
            invariant
                len == self.event_update_valid_block.len(),
                i <= len,
                cids@.len() == ends@.len(),
                cid_end_pairs(cids@, ends@) == spec_new_cids(
                    self@.obligations.take(i as int),
                    self@.pinned,
                    chain_id as int,
                    end_block as int,
                ),
            decreases len - i,
        {
            let ghost prev = cid_end_pairs(cids@, ends@);
            let o = &self.event_update_valid_block[i];
            let take_it = o.chain_id == chain_id && o.end_block > end_block
                && !self.has_pinned_row(chain_id, &o.cid);
            if take_it {
                proof {
                    assert(ob_qualifies(
                        self@.obligations[i as int],
                        self@.pinned,
                        chain_id as int,
                        end_block as int,
                    ));
                }
                let cid_val = self.event_update_valid_block[i].cid.clone();
                let end_val = self.event_update_valid_block[i].end_block;
                match find_cid(&cids, &cid_val) {
                    Option::Some(j) => {
                        proof {
                            lemma_bump_found(prev, cid_val@, end_val as int, j as int);
                        }
                        if end_val > ends[j] {
                            ends.set(j, end_val);
                        }
                        proof {
                            assert(cid_end_pairs(cids@, ends@) =~= prev.update(
                                j as int,
                                (cid_val@, imax(prev[j as int].1, end_val as int)),
                            ));
                        }
                    },
                    Option::None => {
                        proof {
                            lemma_bump_missing(prev, cid_val@, end_val as int);
                        }
                        cids.push(cid_val);
                        ends.push(end_val);
                        proof {
                            assert(cid_end_pairs(cids@, ends@) =~= prev.push(
                                (cids@.last()@, end_val as int),
                            ));
                        }
                    },
                }
            } else {
                proof {
                    assert(!ob_qualifies(
                        self@.obligations[i as int],
                        self@.pinned,
                        chain_id as int,
                        end_block as int,
                    ));
                }
            }
            i = i + 1;
            proof {
                assert(self@.obligations.take(i as int).drop_last() =~= self@.obligations.take(
                    i - 1,
                ));
                assert(self@.obligations.take(i as int).last() == self@.obligations[i - 1]);
            }
        }
        proof {
            assert(self@.obligations.take(len as int) =~= self@.obligations);
        }
        let ghost pairs = cid_end_pairs(cids@, ends@);
        let out_len = cids.len();
        let mut out: Vec<CIDInfo> = Vec::new();
        let mut k: usize = 0;
        while k < out_len
            invariant
                out_len == cids@.len(),
                cids@.len() == ends@.len(),
                k <= out_len,
                pairs == cid_end_pairs(cids@, ends@),
                out@.len() == k,
                forall|idx: int|
                    0 <= idx < k ==> (#[trigger] out@[idx])@ == new_cid_item(
                        chain_id as int,
                        pairs[idx],
                    ),
            decreases out_len - k,
        {
            let item = CIDInfo {
                chain_id: Option::Some(chain_id),
                cid: Option::Some(cids[k].clone()),
                end_block: Option::Some(ends[k]),
                node: Option::None,
                node_login: Option::None,
                node_pass: Option::None,
            };
            proof {
                assert(item@ =~= new_cid_item(chain_id as int, pairs[k as int]));
            }
            out.push(item);
            k = k + 1;
        }
        proof {
            assert((out@.map_values(|c: CIDInfo| c@)) =~= pairs.map_values(
                |p: (Seq<char>, int)| new_cid_item(chain_id as int, p),
            ));
        }
        out
    }

    /// The chain's failed pins still worth retrying at tip `end_block`.
    pub fn get_failed_cids(&self, chain_id: i64, end_block: i64) -> (r: Vec<CIDInfo>)
        ensures
            (r@.map_values(|c: CIDInfo| c@)) == spec_failed_cids(
                self@.failed,
                chain_id as int,
                end_block as int,
            ),
    {
        let len = self.failed_pins.len();
        let mut out: Vec<CIDInfo> = Vec::new();
        let mut i: usize = 0;
        proof {
            assert(out@.map_values(|c: CIDInfo| c@) =~= spec_failed_cids(
                self@.failed.take(0),
                chain_id as int,
                end_block as int,
            ));
        }
        while i < len
            invariant
                len == self.failed_pins.len(),
                i <= len,
                (out@.map_values(|c: CIDInfo| c@)) == spec_failed_cids(
                    self@.failed.take(i as int),
                    chain_id as int,
                    end_block as int,
                ),
            decreases len - i,
        {
            let r = &self.failed_pins[i];
            if r.chain_id == chain_id && r.end_block > end_block {
                let item = CIDInfo {
                    chain_id: Option::Some(chain_id),
                    cid: Option::Some(self.failed_pins[i].cid.clone()),
                    end_block: Option::Some(self.failed_pins[i].end_block),
                    node: Option::Some(self.failed_pins[i].node.clone()),
                    node_login: Option::None,
                    node_pass: Option::None,
                };
                out.push(item);
                proof {
                    assert((out@.map_values(|c: CIDInfo| c@)).last() =~= failed_cid_item(
                        chain_id as int,
                        self@.failed[i as int],
                    ));
                }
            }
            i = i + 1;
            proof {
                assert(self@.failed.take(i as int).drop_last() =~= self@.failed.take(i - 1));
                assert(self@.failed.take(i as int).last() == self@.failed[i - 1]);
                assert((out@.map_values(|c: CIDInfo| c@)) =~= spec_failed_cids(
                    self@.failed.take(i as int),
                    chain_id as int,
                    end_block as int,
                ));
            }
        }
        proof {
            assert(self@.failed.take(len as int) =~= self@.failed);
        }
        out
    }

    /// The chain's expired pins that should really be released: their CID
    /// is held by no other chain, so the content can leave the nodes.
    pub fn get_single_chain_expired_cids(&self, chain_id: i64, end_block: i64) -> (r: Vec<CIDInfo>)
        ensures
            (r@.map_values(|c: CIDInfo| c@)) == spec_expired_cids(
                self@.pinned,
                self@.pinned,
                chain_id as int,
                end_block as int,
            ),
    {
        let len = self.pinned_cids.len();
        let mut out: Vec<CIDInfo> = Vec::new();
        let mut i: usize = 0;
        proof {
            assert(out@.map_values(|c: CIDInfo| c@) =~= spec_expired_cids(
                self@.pinned,
                self@.pinned.take(0),
                chain_id as int,
                end_block as int,
            ));
        }
        while i < len
            invariant
                len == self.pinned_cids.len(),
                i <= len,
                (out@.map_values(|c: CIDInfo| c@)) == spec_expired_cids(
                    self@.pinned,
                    self@.pinned.take(i as int),
                    chain_id as int,
                    end_block as int,
                ),
            decreases len - i,
        {
            let r = &self.pinned_cids[i];
            let expired_here = r.chain_id == chain_id && r.end_block != -1 && r.end_block
                <= end_block;
            let take_it = if expired_here {
                let cid = self.pinned_cids[i].cid.clone();
                !self.pin_held_elsewhere(chain_id, &cid)
            } else {
                false
            };
            if take_it {
                let item = CIDInfo {
                    chain_id: Option::Some(chain_id),
                    cid: Option::Some(self.pinned_cids[i].cid.clone()),
                    end_block: Option::Some(self.pinned_cids[i].end_block),
                    node: Option::Some(self.pinned_cids[i].node.clone()),
                    node_login: Option::None,
                    node_pass: Option::None,
                };
                out.push(item);
                proof {
                    assert((out@.map_values(|c: CIDInfo| c@)).last() =~= failed_cid_item(
                        chain_id as int,
                        self@.pinned[i as int],
                    ));
                }
            }
            i = i + 1;
            proof {
                assert(self@.pinned.take(i as int).drop_last() =~= self@.pinned.take(i - 1));
                assert(self@.pinned.take(i as int).last() == self@.pinned[i - 1]);
                assert((out@.map_values(|c: CIDInfo| c@)) =~= spec_expired_cids(
                    self@.pinned,
                    self@.pinned.take(i as int),
                    chain_id as int,
                    end_block as int,
                ));
            }
        }
        proof {
            assert(self@.pinned.take(len as int) =~= self@.pinned);
        }
        out
    }

    /// Whether a chain other than `chain_id` also holds `cid` pinned.
    fn pin_held_elsewhere(&self, chain_id: i64, cid: &String) -> (r: bool)
        ensures
            r == held_by_other_chain(self@.pinned, chain_id as int, cid@),
    {
        let len = self.pinned_cids.len();
        let mut i: usize = 0;
        while i < len
            invariant
                len == self.pinned_cids.len(),
                i <= len,
                forall|k: int|
                    0 <= k < i ==> !(self@.pinned[k].chain_id != chain_id && self@.pinned[k].cid
                        == cid@),
            decreases len - i,
        {
            if self.pinned_cids[i].chain_id != chain_id && self.pinned_cids[i].cid == *cid {
                proof {
                    assert(self@.pinned[i as int].chain_id != chain_id && self@.pinned[i as int].cid
                        == cid@);
                }
                return true;
            }
            i = i + 1;
        }
        false
    }
}

} // verus!
