//! The reconciliation engine's verified half: what each periodic cycle
//! does to the store, which pin and unpin work it hands out, and how the
//! outcome of every node call is recorded.

use vstd::prelude::*;

use crate::config::{IPFSNode, IpfsNodeV};
use crate::queries::{spec_expired_cids, spec_failed_cids, spec_new_cids, new_cid_item};
use crate::store::{
    spec_add_cid,
    spec_add_failed,
    spec_drop_exact,
    spec_drop_expired_failed,
    spec_drop_multichain,
    spec_update_existing,
    store_wf,
    Store,
    StoreV,
};
use crate::types::{some_int, some_seq, CIDInfo, CidInfoV, PinRowV};

verus! {

/// One pin cycle's store work: extend the deadlines of everything already
/// pinned, then list the CIDs that still need pinning, grouped with their
/// best deadline.
pub fn pin_chain_cids(store: &mut Store, chain_id: i64, bn: i64) -> (todo: Vec<CIDInfo>)
    requires
        store_wf(old(store)@),
    ensures
        store_wf(final(store)@),
        final(store)@ == spec_update_existing(old(store)@, chain_id as int, bn as int),
        (todo@.map_values(|c: CIDInfo| c@)) == spec_new_cids(
            final(store)@.obligations,
            final(store)@.pinned,
            chain_id as int,
            bn as int,
        ).map_values(|p: (Seq<char>, int)| new_cid_item(chain_id as int, p)),
{
    store.update_existing_cids_end_block(chain_id, bn);
    store.get_new_cids(chain_id, bn)
}

/// One retry cycle's store work: forget failed pins whose deadline has
/// passed, then list the rest for another attempt.
pub fn retry_failed_cids(store: &mut Store, chain_id: i64, bn: i64) -> (todo: Vec<CIDInfo>)
    requires
        store_wf(old(store)@),
    ensures
        store_wf(final(store)@),
        final(store)@ == (StoreV {
            failed: spec_drop_expired_failed(old(store)@.failed, chain_id as int, bn as int),
            ..old(store)@
        }),
        (todo@.map_values(|c: CIDInfo| c@)) == spec_failed_cids(
            final(store)@.failed,
            chain_id as int,
            bn as int,
        ),
{
    store.delete_expired_failed_cids(chain_id, bn);
    store.get_failed_cids(chain_id, bn)
}

/// One unpin cycle's store work: drop expired records whose CID another
/// chain still holds, then list the expired pins that really come off.
pub fn unpin_cids(store: &mut Store, chain_id: i64, bn: i64) -> (todo: Vec<CIDInfo>)
    requires
        store_wf(old(store)@),
    ensures
        store_wf(final(store)@),
        final(store)@ == (StoreV {
            pinned: spec_drop_multichain(
                old(store)@.pinned,
                old(store)@.pinned,
                chain_id as int,
                bn as int,
            ),
            ..old(store)@
        }),
        (todo@.map_values(|c: CIDInfo| c@)) == spec_expired_cids(
            final(store)@.pinned,
            final(store)@.pinned,
            chain_id as int,
            bn as int,
        ),
{
    store.delete_multichain_expired_cids(chain_id, bn);
    store.get_single_chain_expired_cids(chain_id, bn)
}

/// The single unpin task for a work item: the item aimed at the node whose
/// API URL it names, carrying that node's credentials.
pub open spec fn spec_unpin_tasks(ns: Seq<IpfsNodeV>, c: CidInfoV) -> Seq<CidInfoV>
    decreases ns.len(),
{
    if ns.len() == 0 {
        Seq::<CidInfoV>::empty()
    } else if ns[0].api_url == some_seq(c.node) {
        seq![CidInfoV { node_login: ns[0].login, node_pass: ns[0].password, ..c }]
    } else {
        spec_unpin_tasks(ns.drop_first(), c)
    }
}

/// The pin task for one node: the work item aimed at that node's API URL
/// with its credentials.
pub open spec fn spec_pin_task(n: IpfsNodeV, c: CidInfoV) -> CidInfoV {
    CidInfoV { node: Option::Some(n.api_url), node_login: n.login, node_pass: n.password, ..c }
}

/// Turns one work item into per-node tasks: a pin goes to every node, an
/// unpin only to the node that holds the record.
pub fn pin_unpin_cid(nodes: &Vec<IPFSNode>, cid_info: &CIDInfo, pin: bool) -> (tasks: Vec<CIDInfo>)
    requires
        !pin ==> cid_info@.node is Some,
    ensures
        pin ==> (tasks@.map_values(|c: CIDInfo| c@)) == Seq::new(
            nodes@.len(),
            |i: int| spec_pin_task(nodes@[i]@, cid_info@),
        ),
        !pin ==> (tasks@.map_values(|c: CIDInfo| c@)) == spec_unpin_tasks(
            nodes@.map_values(|n: IPFSNode| n@),
            cid_info@,
        ),
{
    let mut tasks: Vec<CIDInfo> = Vec::new();
    let len = nodes.len();
    let mut i: usize = 0;
    if pin {
        while i < len
            invariant
                len == nodes@.len(),
                i <= len,
                tasks@.len() == i,
                forall|idx: int|
                    0 <= idx < i ==> (#[trigger] tasks@[idx])@ == spec_pin_task(
                        nodes@[idx]@,
                        cid_info@,
                    ),
            decreases len - i,
        {
            let t = CIDInfo {
                chain_id: cid_info.chain_id,
                cid: clone_opt_string(&cid_info.cid),
                end_block: cid_info.end_block,
                node: Option::Some(nodes[i].api_url.clone()),
                node_login: clone_opt_string(&nodes[i].login),
                node_pass: clone_opt_string(&nodes[i].password),
            };
            proof {
                assert(t@ =~= spec_pin_task(nodes@[i as int]@, cid_info@));
            }
            tasks.push(t);
            i = i + 1;
        }
        proof {
            assert((tasks@.map_values(|c: CIDInfo| c@)) =~= Seq::new(
                nodes@.len(),
                |k: int| spec_pin_task(nodes@[k]@, cid_info@),
            ));
        }
        tasks
    } else {
        let target = match &cid_info.node {
            Option::Some(s) => s.clone(),
            Option::None => {
                proof {
                    assert(false);
                }
                String::new()
            },
        };
        proof {
            assert(nodes@.map_values(|n: IPFSNode| n@).skip(0) =~= nodes@.map_values(
                |n: IPFSNode| n@,
            ));
        }
        while i < len
            invariant
                !pin,
                len == nodes@.len(),
                i <= len,
                tasks@.len() == 0,
                target@ == some_seq(cid_info@.node),
                spec_unpin_tasks(nodes@.map_values(|n: IPFSNode| n@), cid_info@)
                    == spec_unpin_tasks(
                    nodes@.map_values(|n: IPFSNode| n@).skip(i as int),
                    cid_info@,
                ),
            decreases len - i,
        {
            let ghost ns = nodes@.map_values(|n: IPFSNode| n@);
            if nodes[i].api_url == target {
                let t = CIDInfo {
                    chain_id: cid_info.chain_id,
                    cid: clone_opt_string(&cid_info.cid),
                    end_block: cid_info.end_block,
                    node: clone_opt_string(&cid_info.node),
                    node_login: clone_opt_string(&nodes[i].login),
                    node_pass: clone_opt_string(&nodes[i].password),
                };
                proof {
                    assert(ns.skip(i as int)[0] == ns[i as int]);
                    assert(t@ =~= CidInfoV {
                        node_login: ns[i as int].login,
                        node_pass: ns[i as int].password,
                        ..cid_info@
                    });
                }
                tasks.push(t);
                proof {
                    assert(ns.skip(i as int).len() > 0);
                    assert(ns.skip(i as int)[0].api_url == some_seq(cid_info@.node));
                    assert(spec_unpin_tasks(ns.skip(i as int), cid_info@) =~= seq![
                        CidInfoV {
                            node_login: ns[i as int].login,
                            node_pass: ns[i as int].password,
                            ..cid_info@
                        },
                    ]);
                    assert((tasks@.map_values(|c: CIDInfo| c@)) =~= spec_unpin_tasks(
                        ns.skip(i as int),
                        cid_info@,
                    ));
                }
                return tasks;
            }
            i = i + 1;
            proof {
                assert(ns.skip(i - 1)[0] == ns[i - 1]);
                assert(ns.skip(i - 1).drop_first() =~= ns.skip(i as int));
            }
        }
        proof {
            let ns = nodes@.map_values(|n: IPFSNode| n@);
            assert(ns.skip(len as int) =~= Seq::<IpfsNodeV>::empty());
            assert((tasks@.map_values(|c: CIDInfo| c@)) =~= Seq::<CidInfoV>::empty());
        }
        tasks
    }
}

/// The pin row a complete work item stands for.
pub open spec fn spec_task_row(c: CidInfoV) -> PinRowV {
    PinRowV {
        chain_id: some_int(c.chain_id),
        node: some_seq(c.node),
        cid: some_seq(c.cid),
        end_block: some_int(c.end_block),
    }
}

/// A work item that names everything a node call needs.
pub open spec fn task_complete(c: CidInfoV) -> bool {
    c.chain_id is Some && c.cid is Some && c.end_block is Some && c.node is Some
}

/// Records the outcome of one pin call: success writes the pinned record,
/// a first failure writes the failed record, a retry failure writes
/// nothing.
pub fn record_pin_result(store: &mut Store, c: &CIDInfo, success: bool, store_failed: bool)
    requires
        store_wf(old(store)@),
        task_complete(c@),
    ensures
        store_wf(final(store)@),
        success ==> final(store)@ == spec_add_cid(old(store)@, spec_task_row(c@)),
        !success && store_failed ==> final(store)@ == spec_add_failed(
            old(store)@,
            spec_task_row(c@),
        ),
        !success && !store_failed ==> final(store)@ == old(store)@,
{
    let chain_id = match c.chain_id {
        Option::Some(v) => v,
        Option::None => {
            proof {
                assert(false);
            }
            0
        },
    };
    let end_block = match c.end_block {
        Option::Some(v) => v,
        Option::None => {
            proof {
                assert(false);
            }
            0
        },
    };
    let node = match &c.node {
        Option::Some(s) => s.clone(),
        Option::None => {
            proof {
                assert(false);
            }
            String::new()
        },
    };
    let cid = match &c.cid {
        Option::Some(s) => s.clone(),
        Option::None => {
            proof {
                assert(false);
            }
            String::new()
        },
    };
    if success {
        store.add_cid(chain_id, node, cid, end_block);
        proof {
            assert(final(store)@ =~= spec_add_cid(old(store)@, spec_task_row(c@)));
        }
    } else if store_failed {
        store.add_failed_pin(chain_id, node.as_str(), cid.as_str(), end_block);
        proof {
            assert(final(store)@ =~= spec_add_failed(old(store)@, spec_task_row(c@)));
        }
    }
}

/// Records the outcome of one unpin call: success forgets the pinned
/// record, failure leaves it for the next cycle.
pub fn record_unpin_result(store: &mut Store, c: &CIDInfo, success: bool)
    requires
        store_wf(old(store)@),
        task_complete(c@),
    ensures
        store_wf(final(store)@),
        success ==> final(store)@ == (StoreV {
            pinned: spec_drop_exact(old(store)@.pinned, spec_task_row(c@)),
            ..old(store)@
        }),
        !success ==> final(store)@ == old(store)@,
{
    if success {
        let chain_id = match c.chain_id {
            Option::Some(v) => v,
            Option::None => {
                proof {
                    assert(false);
                }
                0
            },
        };
        let end_block = match c.end_block {
            Option::Some(v) => v,
            Option::None => {
                proof {
                    assert(false);
                }
                0
            },
        };
        let node = match &c.node {
            Option::Some(s) => s.clone(),
            Option::None => {
                proof {
                    assert(false);
                }
                String::new()
            },
        };
        let cid = match &c.cid {
            Option::Some(s) => s.clone(),
            Option::None => {
                proof {
                    assert(false);
                }
                String::new()
            },
        };
        store.delete_cid(chain_id, node, cid, end_block);
        proof {
            assert(final(store)@ =~= StoreV {
                pinned: spec_drop_exact(old(store)@.pinned, spec_task_row(c@)),
                ..old(store)@
            });
        }
    }
}

/// Copies an optional string, character for character.
pub fn clone_opt_string(o: &Option<String>) -> (r: Option<String>)
    ensures
        crate::types::view_opt_string(r) == crate::types::view_opt_string(*o),
{
    match o {
        Option::Some(s) => Option::Some(s.clone()),
        Option::None => Option::None,
    }
}

} // verus!
