//! End-to-end walks over the verified core: events arrive, the cycles
//! decide, outcomes are recorded.

use pin_coordinator::config::IPFSNode;
use pin_coordinator::reconcile::{
    pin_chain_cids, pin_unpin_cid, record_pin_result, record_unpin_result, retry_failed_cids,
    unpin_cids,
};
use pin_coordinator::store::Store;
use pin_coordinator::types::{CIDInfo, PinRow};
use pin_coordinator::watcher::{apply_log, watcher_step, EventKind, WatcherAction};

fn w_uint(v: u128) -> Vec<u8> {
    let mut w = vec![0u8; 16];
    w.extend_from_slice(&v.to_be_bytes());
    w
}

fn w_addr(a: &[u8; 20]) -> Vec<u8> {
    let mut w = vec![0u8; 12];
    w.extend_from_slice(a);
    w
}

fn enc_uvb(donor: &[u8; 20], end_block: u64, provider_id: u64, cid: &str) -> Vec<u8> {
    let mut d = Vec::new();
    d.extend_from_slice(&w_addr(donor));
    d.extend_from_slice(&w_uint(end_block as u128));
    d.extend_from_slice(&w_uint(provider_id as u128));
    d.extend_from_slice(&w_uint(128));
    d.extend_from_slice(&w_uint(cid.len() as u128));
    d.extend_from_slice(cid.as_bytes());
    d
}

fn node(url: &str) -> IPFSNode {
    IPFSNode {
        api_url: url.to_owned(),
        gateway: format!("{}-gw", url),
        login: None,
        password: None,
    }
}

const DONOR: [u8; 20] = [
    0xDE, 0xAD, 0x01, 0x02, 0x03, 0x04, 0x05, 0x06, 0x07, 0x08, 0x09, 0x0A, 0x0B, 0x0C, 0x0D,
    0x0E, 0x0F, 0x10, 0x11, 0x12,
];

const DONOR_HEX: &str = "0xdead0102030405060708090a0b0c0d0e0f101112";

fn setup_one_obligation() -> Store {
    let mut store = Store::new();
    let data = enc_uvb(&DONOR, 100, 7, "Qm1");
    apply_log(&mut store, EventKind::UpdateValidBlock, &data, 10, 1, 7).unwrap();
    store
}

#[test]
fn scenario_pin_new_cid() {
    let mut store = setup_one_obligation();
    assert_eq!(store.event_update_valid_block.len(), 1);
    let ob = &store.event_update_valid_block[0];
    assert_eq!(ob.chain_id, 1);
    assert_eq!(ob.donor, DONOR_HEX);
    assert_eq!(ob.cid, "Qm1");
    assert_eq!(ob.update_block, 10);
    assert_eq!(ob.end_block, 100);
    assert_eq!(ob.manual_add, Some(false));

    let todo = pin_chain_cids(&mut store, 1, 20);
    assert_eq!(todo.len(), 1);
    assert_eq!(todo[0].cid, Some("Qm1".to_owned()));
    assert_eq!(todo[0].end_block, Some(100));
    assert_eq!(todo[0].chain_id, Some(1));

    let nodes = vec![node("http://n1")];
    let tasks = pin_unpin_cid(&nodes, &todo[0], true);
    assert_eq!(tasks.len(), 1);
    assert_eq!(tasks[0].node, Some("http://n1".to_owned()));

    record_pin_result(&mut store, &tasks[0], true, true);
    assert_eq!(
        store.pinned_cids,
        vec![PinRow {
            chain_id: 1,
            node: "http://n1".to_owned(),
            cid: "Qm1".to_owned(),
            end_block: 100,
        }]
    );
    assert!(store.failed_pins.is_empty());
}

#[test]
fn scenario_unpin_expired() {
    let mut store = setup_one_obligation();
    let todo = pin_chain_cids(&mut store, 1, 20);
    let nodes = vec![node("http://n1")];
    let tasks = pin_unpin_cid(&nodes, &todo[0], true);
    record_pin_result(&mut store, &tasks[0], true, true);

    let expired = unpin_cids(&mut store, 1, 120);
    assert_eq!(expired.len(), 1);
    assert_eq!(expired[0].node, Some("http://n1".to_owned()));
    assert_eq!(expired[0].cid, Some("Qm1".to_owned()));
    assert_eq!(expired[0].end_block, Some(100));

    let unpin_tasks = pin_unpin_cid(&nodes, &expired[0], false);
    assert_eq!(unpin_tasks.len(), 1);
    record_unpin_result(&mut store, &unpin_tasks[0], true);
    assert!(store.pinned_cids.is_empty());
}

#[test]
fn scenario_failed_pin_recorded_once() {
    let mut store = setup_one_obligation();
    let todo = pin_chain_cids(&mut store, 1, 20);
    let nodes = vec![node("http://n1")];
    let tasks = pin_unpin_cid(&nodes, &todo[0], true);

    record_pin_result(&mut store, &tasks[0], false, true);
    assert_eq!(
        store.failed_pins,
        vec![PinRow {
            chain_id: 1,
            node: "http://n1".to_owned(),
            cid: "Qm1".to_owned(),
            end_block: 100,
        }]
    );

    // A second failing cycle adds no new row.
    let todo2 = pin_chain_cids(&mut store, 1, 20);
    let tasks2 = pin_unpin_cid(&nodes, &todo2[0], true);
    record_pin_result(&mut store, &tasks2[0], false, true);
    assert_eq!(store.failed_pins.len(), 1);

    // A failing retry stores nothing either.
    let retries = retry_failed_cids(&mut store, 1, 20);
    assert_eq!(retries.len(), 1);
    record_pin_result(&mut store, &retries[0], false, false);
    assert_eq!(store.failed_pins.len(), 1);
}

#[test]
fn scenario_deadline_extension_without_repin() {
    let mut store = setup_one_obligation();
    let todo = pin_chain_cids(&mut store, 1, 20);
    let nodes = vec![node("http://n1")];
    let tasks = pin_unpin_cid(&nodes, &todo[0], true);
    record_pin_result(&mut store, &tasks[0], true, true);

    let data = enc_uvb(&DONOR, 200, 7, "Qm1");
    apply_log(&mut store, EventKind::UpdateValidBlock, &data, 50, 1, 7).unwrap();

    let todo2 = pin_chain_cids(&mut store, 1, 20);
    assert!(todo2.is_empty());
    assert_eq!(store.pinned_cids[0].end_block, 200);
}

#[test]
fn scenario_multichain_expiry_skips_unpin() {
    let mut store = Store::new();
    store.add_cid(1, "http://n1".to_owned(), "Qm1".to_owned(), 100);
    store.add_cid(2, "http://n1".to_owned(), "Qm1".to_owned(), 1_000_000);

    let expired = unpin_cids(&mut store, 1, 120);
    // The record of chain 1 is gone, but no node call is asked for.
    assert!(expired.is_empty());
    assert_eq!(store.pinned_cids.len(), 1);
    assert_eq!(store.pinned_cids[0].chain_id, 2);
}

#[test]
fn scenario_skip_old_jumps_to_recent_blocks() {
    let a = watcher_step(0, Some(1_000_000), 10_000, Some(true));
    assert_eq!(
        a,
        WatcherAction::Fetch {
            from_block: 990_000,
            to_block: 1_000_000,
            next_start: 1_000_000,
        }
    );
}

#[test]
fn replaying_a_log_changes_nothing() {
    let mut once = setup_one_obligation();
    let data = enc_uvb(&DONOR, 100, 7, "Qm1");
    apply_log(&mut once, EventKind::UpdateValidBlock, &data, 10, 1, 7).unwrap();
    let twice = setup_one_obligation();
    assert_eq!(once.event_update_valid_block, twice.event_update_valid_block);
    assert_eq!(once.pinned_cids, twice.pinned_cids);
    assert_eq!(once.failed_pins, twice.failed_pins);
}

#[test]
fn resuming_after_a_cut_matches_one_run() {
    let d1 = enc_uvb(&DONOR, 100, 7, "Qm1");
    let d2 = enc_uvb(&DONOR, 300, 7, "Qm2");

    let mut single = Store::new();
    apply_log(&mut single, EventKind::UpdateValidBlock, &d1, 10, 1, 7).unwrap();
    apply_log(&mut single, EventKind::UpdateValidBlock, &d2, 11, 1, 7).unwrap();

    let mut split = Store::new();
    apply_log(&mut split, EventKind::UpdateValidBlock, &d1, 10, 1, 7).unwrap();
    // A restart here resumes from the recorded block and sees the rest.
    apply_log(&mut split, EventKind::UpdateValidBlock, &d2, 11, 1, 7).unwrap();

    assert_eq!(single.event_update_valid_block, split.event_update_valid_block);
}

#[test]
fn obligations_for_another_provider_are_ignored() {
    let mut store = Store::new();
    let data = enc_uvb(&DONOR, 100, 9, "Qm1");
    apply_log(&mut store, EventKind::UpdateValidBlock, &data, 10, 1, 7).unwrap();
    assert!(store.event_update_valid_block.is_empty());
}

#[test]
fn permanent_pins_survive_every_cycle() {
    let mut store = Store::new();
    store.add_cid(1, "http://n1".to_owned(), "QmForever".to_owned(), -1);
    let expired = unpin_cids(&mut store, 1, i64::MAX);
    assert!(expired.is_empty());
    assert_eq!(store.pinned_cids.len(), 1);

    let retried = retry_failed_cids(&mut store, 1, i64::MAX);
    assert!(retried.is_empty());
    assert_eq!(store.pinned_cids.len(), 1);
}

#[test]
fn unpin_task_goes_to_the_recorded_node_only() {
    let nodes = vec![node("http://n1"), node("http://n2")];
    let item = CIDInfo {
        chain_id: Some(1),
        cid: Some("Qm1".to_owned()),
        end_block: Some(50),
        node: Some("http://n2".to_owned()),
        node_login: None,
        node_pass: None,
    };
    let tasks = pin_unpin_cid(&nodes, &item, false);
    assert_eq!(tasks.len(), 1);
    assert_eq!(tasks[0].node, Some("http://n2".to_owned()));

    let pin_tasks = pin_unpin_cid(&nodes, &item, true);
    assert_eq!(pin_tasks.len(), 2);
    assert_eq!(pin_tasks[0].node, Some("http://n1".to_owned()));
    assert_eq!(pin_tasks[1].node, Some("http://n2".to_owned()));
}

fn enc_add_provider(owner: &[u8; 20], pid: u64, wei: u64, api_url: &str, name: &str) -> Vec<u8> {
    let mut d = Vec::new();
    d.extend_from_slice(&w_addr(owner));
    d.extend_from_slice(&w_uint(pid as u128));
    d.extend_from_slice(&w_uint(wei as u128));
    d.extend_from_slice(&w_uint(160));
    let url_tail_len = 32 + api_url.len() as u128;
    d.extend_from_slice(&w_uint(160 + url_tail_len));
    d.extend_from_slice(&w_uint(api_url.len() as u128));
    d.extend_from_slice(api_url.as_bytes());
    d.extend_from_slice(&w_uint(name.len() as u128));
    d.extend_from_slice(name.as_bytes());
    d
}

fn enc_uint_string(pid: u64, s: &str) -> Vec<u8> {
    let mut d = Vec::new();
    d.extend_from_slice(&w_uint(pid as u128));
    d.extend_from_slice(&w_uint(64));
    d.extend_from_slice(&w_uint(s.len() as u128));
    d.extend_from_slice(s.as_bytes());
    d
}

#[test]
fn replaying_a_registry_stream_changes_nothing() {
    let add = enc_add_provider(&DONOR, 3, 7_000_000_000, "https://api.one", "one");
    let rename = enc_uint_string(3, "two");

    let mut once = Store::new();
    apply_log(&mut once, EventKind::AddProvider, &add, 10, 1, 7).unwrap();
    apply_log(&mut once, EventKind::UpdateProviderName, &rename, 12, 1, 7).unwrap();

    let mut twice = Store::new();
    apply_log(&mut twice, EventKind::AddProvider, &add, 10, 1, 7).unwrap();
    apply_log(&mut twice, EventKind::UpdateProviderName, &rename, 12, 1, 7).unwrap();
    // The same stream again, in the same per-provider block order.
    apply_log(&mut twice, EventKind::AddProvider, &add, 10, 1, 7).unwrap();
    apply_log(&mut twice, EventKind::UpdateProviderName, &rename, 12, 1, 7).unwrap();

    assert_eq!(once.event_add_provider, twice.event_add_provider);
    assert_eq!(twice.event_add_provider.len(), 1);
    assert_eq!(twice.event_add_provider[0].name, "two");
    assert_eq!(twice.event_add_provider[0].block_price_gwei, 7);
}
