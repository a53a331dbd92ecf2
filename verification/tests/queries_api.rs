//! The store's statements and the read API's queries on concrete rows.

use pin_coordinator::api::{
    get_block_number, is_admin, manual_pin_end_block, upload_end_block,
};
use pin_coordinator::config::Web3Node;
use pin_coordinator::monitor::{Monitoring, MonitoringMap};
use pin_coordinator::proxy::{
    choose_node_index, dag_stat_url, gateway_url, pin_url, unpin_url, upload_url,
};
use pin_coordinator::queries::EventTable;
use pin_coordinator::store::Store;
use pin_coordinator::types::{EventAddProvider, EventUpdateValidBlock, IPFSAddResponse};

fn ob(chain: i64, cid: &str, donor: &str, ub: i64, eb: i64) -> EventUpdateValidBlock {
    EventUpdateValidBlock {
        chain_id: chain,
        cid: cid.to_owned(),
        donor: donor.to_owned(),
        update_block: ub,
        end_block: eb,
        manual_add: Some(false),
    }
}

fn prov(chain: i64, pid: i64, ub: i64, owner: &str, price: i64, name: &str) -> EventAddProvider {
    EventAddProvider {
        chain_id: chain,
        update_block: ub,
        owner: owner.to_owned(),
        provider_id: pid,
        block_price_gwei: price,
        api_url: format!("https://{}", name),
        name: name.to_owned(),
    }
}

#[test]
fn obligation_inserts_are_conflict_free() {
    let mut s = Store::new();
    assert_eq!(s.add_valid_block(ob(1, "Qm1", "0xAB", 10, 100)), 1);
    // The replay differs only in donor case: the stored row is the same.
    assert_eq!(s.add_valid_block(ob(1, "Qm1", "0xab", 10, 100)), 0);
    assert_eq!(s.event_update_valid_block.len(), 1);
    assert_eq!(s.event_update_valid_block[0].donor, "0xab");
    // A different deadline is a different declaration.
    assert_eq!(s.add_valid_block(ob(1, "Qm1", "0xab", 10, 200)), 1);
    assert_eq!(s.event_update_valid_block.len(), 2);
}

#[test]
fn provider_upserts_keep_the_newest_row() {
    let mut s = Store::new();
    s.add_provider(prov(1, 3, 10, "0xAA", 5, "alpha"));
    assert_eq!(s.event_add_provider.len(), 1);
    assert_eq!(s.event_add_provider[0].owner, "0xaa");

    // A newer price update lands.
    assert_eq!(s.update_provider_block_price(1, 20, 3, 9), 1);
    assert_eq!(s.event_add_provider[0].block_price_gwei, 9);
    assert_eq!(s.event_add_provider[0].update_block, 20);

    // An older one is outranked and changes nothing.
    assert_eq!(s.update_provider_block_price(1, 15, 3, 2), 1);
    assert_eq!(s.event_add_provider[0].block_price_gwei, 9);

    // An update for an unknown provider matches no row.
    assert_eq!(s.update_provider_block_price(1, 30, 99, 2), 0);

    // Field updates follow the same rule.
    s.update_provider_api_url(1, 21, 3, "wss://new".to_owned());
    s.update_provider_owner(1, 22, 3, "0xBB".to_owned());
    s.update_provider_name(1, 23, 3, "beta".to_owned());
    assert_eq!(s.event_add_provider[0].api_url, "wss://new");
    assert_eq!(s.event_add_provider[0].owner, "0xbb");
    assert_eq!(s.event_add_provider[0].name, "beta");
}

#[test]
fn resume_point_is_the_highest_seen_block() {
    let mut s = Store::new();
    assert_eq!(s.get_max_update_block(EventTable::UpdateValidBlock, 1), None);
    s.add_valid_block(ob(1, "Qm1", "0xab", 10, 100));
    s.add_valid_block(ob(1, "Qm2", "0xab", 42, 100));
    s.add_valid_block(ob(2, "Qm3", "0xab", 99, 100));
    assert_eq!(
        s.get_max_update_block(EventTable::UpdateValidBlock, 1),
        Some(42)
    );
    assert_eq!(s.get_max_update_block(EventTable::AddProvider, 1), None);
    s.add_provider(prov(1, 3, 77, "0xaa", 5, "alpha"));
    assert_eq!(s.get_max_update_block(EventTable::AddProvider, 1), Some(77));
}

#[test]
fn new_cids_are_grouped_with_their_best_deadline() {
    let mut s = Store::new();
    s.add_valid_block(ob(1, "Qm1", "0xab", 10, 100));
    s.add_valid_block(ob(1, "Qm1", "0xcd", 11, 250));
    s.add_valid_block(ob(1, "Qm2", "0xab", 12, 80));
    s.add_valid_block(ob(1, "Qm3", "0xab", 13, 5)); // already past the tip
    let todo = s.get_new_cids(1, 20);
    assert_eq!(todo.len(), 2);
    assert_eq!(todo[0].cid, Some("Qm1".to_owned()));
    assert_eq!(todo[0].end_block, Some(250));
    assert_eq!(todo[1].cid, Some("Qm2".to_owned()));
    assert_eq!(todo[1].end_block, Some(80));
}

#[test]
fn failed_pins_expire_and_retry() {
    let mut s = Store::new();
    s.add_failed_pin(1, "n1", "Qm1", 50);
    s.add_failed_pin(1, "n1", "Qm2", 500);
    assert_eq!(s.add_failed_pin(1, "n1", "Qm2", 500), 0);
    assert_eq!(s.failed_pins.len(), 2);
    assert_eq!(s.delete_expired_failed_cids(1, 100), 1);
    let retry = s.get_failed_cids(1, 100);
    assert_eq!(retry.len(), 1);
    assert_eq!(retry[0].cid, Some("Qm2".to_owned()));
    assert_eq!(retry[0].node, Some("n1".to_owned()));
}

#[test]
fn failed_pin_purge_spares_no_sentinel() {
    // A failure note is only a reminder to retry; once the tip passes it,
    // it goes, whatever its deadline reads.
    let mut s = Store::new();
    s.add_failed_pin(1, "n1", "Qm1", -1);
    assert_eq!(s.delete_expired_failed_cids(1, 100), 1);
    assert!(s.failed_pins.is_empty());
}

#[test]
fn deadline_extension_reports_the_changed_rows() {
    let mut s = Store::new();
    s.add_cid(1, "n1".to_owned(), "Qm1".to_owned(), 100);
    s.add_valid_block(ob(1, "Qm1", "0xab", 50, 200));
    assert_eq!(s.update_existing_cids_end_block(1, 20), 1);
    assert_eq!(s.pinned_cids[0].end_block, 200);
    // A second run finds nothing left to extend.
    assert_eq!(s.update_existing_cids_end_block(1, 20), 0);
}

#[test]
fn providers_list_cheapest_first_with_names_breaking_ties() {
    let mut s = Store::new();
    s.add_provider(prov(1, 1, 10, "0xaa", 5, "bravo"));
    s.add_provider(prov(1, 2, 11, "0xaa", 1, "zulu"));
    s.add_provider(prov(1, 3, 12, "0xbb", 1, "alfa"));
    s.add_provider(prov(2, 4, 13, "0xbb", 0, "other-chain"));
    let listing = s.get_providers(1);
    assert_eq!(listing.len(), 3);
    assert_eq!(listing[0].name, "alfa");
    assert_eq!(listing[0].block_price_gwei, 1);
    assert_eq!(listing[0].update_block, None);
    assert_eq!(listing[1].name, "zulu");
    assert_eq!(listing[2].name, "bravo");
}

#[test]
fn owner_listing_matches_case_insensitively() {
    let mut s = Store::new();
    s.add_provider(prov(1, 1, 10, "0xAA", 5, "bravo"));
    s.add_provider(prov(1, 2, 11, "0xaa", 1, "alfa"));
    s.add_provider(prov(1, 3, 12, "0xcc", 1, "zulu"));
    let listing = s.get_provider(1, "0xAa".to_owned());
    assert_eq!(listing.len(), 2);
    assert_eq!(listing[0].name, "alfa");
    assert_eq!(listing[1].name, "bravo");
    assert_eq!(listing[0].update_block, Some(11));
}

#[test]
fn pin_counts_span_all_chains() {
    let mut s = Store::new();
    s.add_cid(1, "n1".to_owned(), "Qm1".to_owned(), 100);
    s.add_cid(1, "n2".to_owned(), "Qm1".to_owned(), 100);
    s.add_cid(2, "n1".to_owned(), "Qm1".to_owned(), 900);
    s.add_cid(1, "n1".to_owned(), "Qm2".to_owned(), 100);
    assert_eq!(s.is_pinned(&"Qm1".to_owned()), 3);
    assert_eq!(s.is_pinned(&"QmMissing".to_owned()), 0);
}

#[test]
fn donor_listing_aggregates_and_orders() {
    let mut s = Store::new();
    s.add_valid_block(ob(1, "QmA", "0xab", 10, 100));
    s.add_valid_block(ob(1, "QmA", "0xab", 12, 300));
    s.add_valid_block(ob(1, "QmB", "0xab", 11, 200));
    s.add_valid_block(ob(1, "QmC", "0xcd", 11, 200)); // another donor
    s.add_cid(1, "n1".to_owned(), "QmA".to_owned(), 300);
    s.add_cid(1, "n2".to_owned(), "QmA".to_owned(), 300);
    s.add_failed_pin(1, "n1", "QmB", 200);

    let listing = s.get_cids("0xAB".to_owned(), 1, 20);
    assert_eq!(listing.len(), 2);
    // QmB has a failure, so it sorts first.
    assert_eq!(listing[0].cid, "QmB");
    assert_eq!(listing[0].failed_node_count, 1);
    assert_eq!(listing[0].node_count, 0);
    assert_eq!(listing[0].end_block, 200);
    assert_eq!(listing[0].donor, "0xab");
    assert_eq!(listing[1].cid, "QmA");
    assert_eq!(listing[1].update_block, 10);
    assert_eq!(listing[1].node_count, 2);
    assert_eq!(listing[1].end_block, 300);
}

#[test]
fn cid_aggregates_cover_both_tables() {
    let mut s = Store::new();
    s.add_cid(1, "n1".to_owned(), "Qm1".to_owned(), 100);
    s.add_cid(1, "n2".to_owned(), "Qm1".to_owned(), 150);
    s.add_failed_pin(1, "n3", "Qm1", 120);
    s.add_failed_pin(2, "n1", "Qm1", 500);
    let rows = s.cid_info(&"Qm1".to_owned());
    assert_eq!(rows.len(), 2);
    assert_eq!(rows[0].pinned_chain_id, Some(1));
    assert_eq!(rows[0].pinned_node_count, 2);
    assert_eq!(rows[0].pinned_end_block, Some(150));
    assert_eq!(rows[0].failed_chain_id, Some(1));
    assert_eq!(rows[0].failed_node_count, 1);
    assert_eq!(rows[0].failed_end_block, Some(120));
    assert_eq!(rows[1].pinned_chain_id, None);
    assert_eq!(rows[1].failed_chain_id, Some(2));
    assert_eq!(rows[1].failed_node_count, 1);
    assert_eq!(rows[1].failed_end_block, Some(500));
}

#[test]
fn manual_pins_respect_the_admin_secret() {
    let secret = "SECRET-REDACTED".to_owned();
    assert!(is_admin(&Some(secret.clone()), &secret));
    assert!(!is_admin(&Some("guess".to_owned()), &secret));
    assert!(!is_admin(&None, &secret));

    let mut s = Store::new();
    s.pin_cid("Qm1".to_owned(), "0xAB".to_owned(), 1, 10, -1, false);
    assert_eq!(s.event_update_valid_block.len(), 1);
    assert_eq!(s.event_update_valid_block[0].manual_add, Some(true));
    assert_eq!(s.event_update_valid_block[0].donor, "0xab");
    // Declared already: a plain request adds nothing, an admin's does.
    s.pin_cid("Qm1".to_owned(), "0xAB".to_owned(), 1, 11, -1, false);
    assert_eq!(s.event_update_valid_block.len(), 1);
    s.pin_cid("Qm1".to_owned(), "0xAB".to_owned(), 1, 11, -1, true);
    assert_eq!(s.event_update_valid_block.len(), 2);
}

#[test]
fn upload_records_the_first_import_only() {
    let mut s = Store::new();
    assert!(s.upload_file("Qm1".to_owned(), "0xAB".to_owned(), 1, 10, 10180));
    assert!(!s.upload_file("Qm1".to_owned(), "0xAB".to_owned(), 1, 11, 10180));
    assert_eq!(s.event_update_valid_block.len(), 1);
    assert_eq!(s.event_update_valid_block[0].end_block, 10180);
}

#[test]
fn manual_deadlines_follow_the_week_rule() {
    assert_eq!(manual_pin_end_block(true, u64::MAX, 100, 60), -1);
    assert_eq!(manual_pin_end_block(false, 10_485_760, 100, 60), -1);
    assert_eq!(manual_pin_end_block(false, 10_485_761, 100, 60), 10_180);
    assert_eq!(upload_end_block(100, 60), 10_180);
}

#[test]
fn block_number_comes_from_the_matching_chain() {
    let mk = |chain: i64, latest: Option<i64>| Web3Node {
        contract_address: "0x01".to_owned(),
        url: "wss://rpc".to_owned(),
        chain_name: "test".to_owned(),
        start_block: 0,
        block_time_sec: 12,
        block_update_sec: 5,
        provider_id: 7,
        chain_id: chain,
        batch_size: 1000,
        log_update_sec: 5,
        skip_old: None,
        keep_alive: None,
        latest_block: latest,
    };
    let providers = vec![mk(1, Some(77)), mk(2, None)];
    assert_eq!(get_block_number(1, &providers), Some((77, 12)));
    assert_eq!(get_block_number(2, &providers), None);
    assert_eq!(get_block_number(9, &providers), None);
}

#[test]
fn monitoring_keeps_one_entry_per_chain() {
    let mut m = MonitoringMap::new();
    m.record_block(1, 100, 5_000, "alpha".to_owned());
    m.record_block(2, 7, 6_000, "beta".to_owned());
    m.record_block(1, 120, 5_000, "alpha".to_owned());
    assert_eq!(m.keys, vec![1, 2]);
    assert_eq!(m.entries[0].current_block, 120);
    assert_eq!(m.entries[0].chain_name, "alpha");
    assert_eq!(m.entries[1].current_block, 7);

    let d = Monitoring::default();
    assert_eq!(d.current_block, 0);
    assert_eq!(d.chain_name, "");
    assert!(d.events.is_empty());
}

#[test]
fn proxy_picks_nodes_and_builds_urls() {
    assert_eq!(choose_node_index(1, 999), 0);
    assert_eq!(choose_node_index(3, 5), 2);
    assert_eq!(choose_node_index(3, 3), 0);
    assert_eq!(
        pin_url("http://n1", "Qm1"),
        "http://n1/api/v0/pin/add?arg=Qm1"
    );
    assert_eq!(
        unpin_url("http://n1", "Qm1"),
        "http://n1/api/v0/pin/rm?arg=Qm1"
    );
    assert_eq!(
        dag_stat_url("http://n1", "Qm1"),
        "http://n1/api/v0/dag/stat?arg=Qm1&progress=false"
    );
    assert_eq!(
        upload_url("http://n1", true),
        "http://n1/api/v0/add?progress=false&pin=false&wrap-with-directory=true&cid-version=1&silent=true"
    );
    assert_eq!(
        upload_url("http://n1", false),
        "http://n1/api/v0/add?progress=false&pin=false&cid-version=1&quieter=true"
    );
    assert_eq!(gateway_url("http://gw", "Qm1/file"), "http://gw/ipfs/Qm1/file");
}

#[test]
fn upload_stream_starts_from_the_empty_chunk() {
    let c = IPFSAddResponse::default();
    assert_eq!(c.name, "");
    assert_eq!(c.hash, None);
    assert_eq!(c.size, None);
    assert_eq!(c.bytes, None);
    assert_eq!(c.first_import, None);
}
