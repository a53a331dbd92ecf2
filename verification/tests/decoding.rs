//! The event payload grammar on concrete bytes: every field, every error.

use pin_coordinator::abi::{
    decode_add_provider, decode_update_provider_api_url, decode_update_provider_block_price,
    decode_update_provider_name, decode_update_provider_owner, decode_update_valid_block,
};
use pin_coordinator::strutil::{ascii_lowercase, str_le};
use pin_coordinator::types::{CustomError, DecodedEvent};
use pin_coordinator::watcher::{resume_block, watcher_step, EventKind, WatcherAction};

fn w_uint(v: u128) -> Vec<u8> {
    let mut w = vec![0u8; 16];
    w.extend_from_slice(&v.to_be_bytes());
    w
}

fn w_addr(a: &[u8; 20]) -> Vec<u8> {
    let mut w = vec![0u8; 12];
    w.extend_from_slice(a);
    w
}

fn str_tail(s: &str) -> Vec<u8> {
    let mut t = w_uint(s.len() as u128);
    t.extend_from_slice(s.as_bytes());
    t
}

const OWNER: [u8; 20] = [
    0xAB, 0xCD, 0xEF, 0x00, 0x11, 0x22, 0x33, 0x44, 0x55, 0x66, 0x77, 0x88, 0x99, 0xAA, 0xBB,
    0xCC, 0xDD, 0xEE, 0xFF, 0x01,
];

const OWNER_HEX: &str = "0xabcdef00112233445566778899aabbccddeeff01";

#[test]
fn update_valid_block_decodes_every_field() {
    let mut d = Vec::new();
    d.extend_from_slice(&w_addr(&OWNER));
    d.extend_from_slice(&w_uint(100));
    d.extend_from_slice(&w_uint(7));
    d.extend_from_slice(&w_uint(128));
    d.extend_from_slice(&str_tail("QmHash1"));
    let ev = decode_update_valid_block(&d).unwrap();
    assert_eq!(
        ev,
        DecodedEvent::UpdateValidBlock {
            donor: OWNER_HEX.to_owned(),
            end_block: 100,
            provider_id: 7,
            cid: "QmHash1".to_owned(),
        }
    );
}

#[test]
fn update_valid_block_rejects_short_data() {
    let d = vec![0u8; 95];
    match decode_update_valid_block(&d) {
        Err(CustomError::Inequality(_)) => {}
        other => panic!("expected a length error, got {:?}", other),
    }
}

#[test]
fn update_valid_block_rejects_bad_offset() {
    let mut d = Vec::new();
    d.extend_from_slice(&w_addr(&OWNER));
    d.extend_from_slice(&w_uint(100));
    d.extend_from_slice(&w_uint(7));
    d.extend_from_slice(&w_uint(4096)); // offset far past the payload
    d.extend_from_slice(&str_tail("QmHash1"));
    assert_eq!(
        decode_update_valid_block(&d),
        Err(CustomError::InvalidAbiString)
    );
}

#[test]
fn update_valid_block_rejects_oversized_integer() {
    let mut d = Vec::new();
    d.extend_from_slice(&w_addr(&OWNER));
    let mut big = vec![0xFFu8; 32]; // end_block beyond any signed column
    big[0] = 0x80;
    d.extend_from_slice(&big);
    d.extend_from_slice(&w_uint(7));
    d.extend_from_slice(&w_uint(128));
    d.extend_from_slice(&str_tail("QmHash1"));
    assert_eq!(
        decode_update_valid_block(&d),
        Err(CustomError::InvalidAbiString)
    );
}

#[test]
fn update_valid_block_accepts_utf8_strings() {
    let mut d = Vec::new();
    d.extend_from_slice(&w_addr(&OWNER));
    d.extend_from_slice(&w_uint(100));
    d.extend_from_slice(&w_uint(7));
    d.extend_from_slice(&w_uint(128));
    d.extend_from_slice(&w_uint(2));
    d.extend_from_slice(&[0xC3, 0xA9]); // a two-byte UTF-8 sequence
    let expected_cid = String::from_utf8(vec![0xC3, 0xA9]).unwrap();
    // Two bytes decode to one character: the decoder really decodes,
    // it does not pass the raw bytes through.
    assert_eq!(expected_cid.chars().count(), 1);
    match decode_update_valid_block(&d).unwrap() {
        DecodedEvent::UpdateValidBlock { cid, .. } => assert_eq!(cid, expected_cid),
        other => panic!("unexpected event {:?}", other),
    }
}

#[test]
fn update_valid_block_replaces_ill_formed_bytes() {
    let mut d = Vec::new();
    d.extend_from_slice(&w_addr(&OWNER));
    d.extend_from_slice(&w_uint(100));
    d.extend_from_slice(&w_uint(7));
    d.extend_from_slice(&w_uint(128));
    d.extend_from_slice(&w_uint(1));
    d.extend_from_slice(&[0xFF]); // not valid UTF-8 on its own
    match decode_update_valid_block(&d).unwrap() {
        DecodedEvent::UpdateValidBlock { cid, .. } => {
            assert_eq!(cid, String::from_utf8_lossy(&[0xFF]).into_owned());
        }
        other => panic!("unexpected event {:?}", other),
    }
}

#[test]
fn add_provider_decodes_and_converts_wei_to_gwei() {
    let mut d = Vec::new();
    d.extend_from_slice(&w_addr(&OWNER));
    d.extend_from_slice(&w_uint(3));
    d.extend_from_slice(&w_uint(5_000_000_001)); // wei; 5 gwei after truncation
    d.extend_from_slice(&w_uint(160));
    let url_tail = str_tail("https://api.example");
    d.extend_from_slice(&w_uint((160 + url_tail.len()) as u128));
    d.extend_from_slice(&url_tail);
    d.extend_from_slice(&str_tail("prov-a"));
    let ev = decode_add_provider(&d).unwrap();
    assert_eq!(
        ev,
        DecodedEvent::AddProvider {
            owner: OWNER_HEX.to_owned(),
            provider_id: 3,
            block_price_gwei: 5,
            api_url: "https://api.example".to_owned(),
            name: "prov-a".to_owned(),
        }
    );
}

#[test]
fn block_price_update_reads_price_from_its_own_slot() {
    let mut d = Vec::new();
    d.extend_from_slice(&w_uint(3));
    d.extend_from_slice(&w_uint(12_345_678_901));
    let ev = decode_update_provider_block_price(&d).unwrap();
    assert_eq!(
        ev,
        DecodedEvent::UpdateProviderBlockPrice {
            provider_id: 3,
            block_price_gwei: 12,
        }
    );
}

#[test]
fn api_url_and_name_updates_decode() {
    let mut d = Vec::new();
    d.extend_from_slice(&w_uint(3));
    d.extend_from_slice(&w_uint(64));
    d.extend_from_slice(&str_tail("wss://rpc"));
    assert_eq!(
        decode_update_provider_api_url(&d).unwrap(),
        DecodedEvent::UpdateProviderApiUrl {
            provider_id: 3,
            api_url: "wss://rpc".to_owned(),
        }
    );
    assert_eq!(
        decode_update_provider_name(&d).unwrap(),
        DecodedEvent::UpdateProviderName {
            provider_id: 3,
            name: "wss://rpc".to_owned(),
        }
    );
}

#[test]
fn owner_update_decodes_the_address() {
    let mut d = Vec::new();
    d.extend_from_slice(&w_uint(3));
    d.extend_from_slice(&w_addr(&OWNER));
    assert_eq!(
        decode_update_provider_owner(&d).unwrap(),
        DecodedEvent::UpdateProviderAddress {
            provider_id: 3,
            owner: OWNER_HEX.to_owned(),
        }
    );
}

#[test]
fn short_provider_updates_are_length_errors() {
    let d = vec![0u8; 63];
    assert!(matches!(
        decode_update_provider_block_price(&d),
        Err(CustomError::Inequality(_))
    ));
    assert!(matches!(
        decode_update_provider_api_url(&d),
        Err(CustomError::Inequality(_))
    ));
    assert!(matches!(
        decode_update_provider_owner(&d),
        Err(CustomError::Inequality(_))
    ));
    assert!(matches!(
        decode_update_provider_name(&d),
        Err(CustomError::Inequality(_))
    ));
}

#[test]
fn topics_are_real_digests() {
    let t1 = EventKind::UpdateValidBlock.topic();
    let t2 = EventKind::AddProvider.topic();
    assert_eq!(t1.len(), 32);
    assert_eq!(t2.len(), 32);
    assert_ne!(t1, t2);
    // The digest is not the signature's own bytes handed back.
    assert_ne!(
        t1.as_slice(),
        &EventKind::UpdateValidBlock.signature().as_bytes()[..32.min(
            EventKind::UpdateValidBlock.signature().len()
        )]
    );
}

#[test]
fn lowercasing_touches_only_ascii_letters() {
    assert_eq!(
        ascii_lowercase(&"0xDeAdBEEF-Zz".to_owned()),
        "0xdeadbeef-zz"
    );
    assert_eq!(ascii_lowercase(&"already low 9".to_owned()), "already low 9");
}

#[test]
fn string_order_is_lexicographic() {
    assert!(str_le(&"abc".to_owned(), &"abd".to_owned()));
    assert!(!str_le(&"abd".to_owned(), &"abc".to_owned()));
    assert!(str_le(&"ab".to_owned(), &"abc".to_owned()));
    assert!(str_le(&"same".to_owned(), &"same".to_owned()));
}

#[test]
fn resume_block_takes_the_later_of_config_and_store() {
    assert_eq!(resume_block(50, Some(120)), 120);
    assert_eq!(resume_block(50, Some(10)), 50);
    assert_eq!(resume_block(50, None), 50);
}

#[test]
fn watcher_sleeps_without_a_tip_and_when_synced() {
    assert_eq!(watcher_step(10, None, 100, None), WatcherAction::Sleep);
    assert_eq!(watcher_step(500, Some(500), 100, None), WatcherAction::Sleep);
    assert_eq!(watcher_step(600, Some(500), 100, None), WatcherAction::Sleep);
}

#[test]
fn watcher_fetches_one_batch_at_a_time() {
    assert_eq!(
        watcher_step(0, Some(1000), 100, None),
        WatcherAction::Fetch {
            from_block: 0,
            to_block: 100,
            next_start: 100,
        }
    );
    assert_eq!(
        watcher_step(950, Some(1000), 100, None),
        WatcherAction::Fetch {
            from_block: 950,
            to_block: 1000,
            next_start: 1000,
        }
    );
}
