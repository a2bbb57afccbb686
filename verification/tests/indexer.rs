use nomen::error::NomenError;
use nomen::event::index_create_event;
use nomen::event::index_records_event;
use nomen::event::validate_create;
use nomen::event::validate_records;
use nomen::event::CreateVerdict;
use nomen::event::EventTag;
use nomen::event::NostrEvent;
use nomen::indexer::index_block;
use nomen::indexer::next_since;
use nomen::indexer::run_tick;
use nomen::indexer::BlockData;
use nomen::indexer::TxData;
use nomen::kinds::Network;
use nomen::kinds::NomenKind;
use nomen::nsid::nsid_for;
use nomen::nsid::Nsid;
use nomen::opreturn::op_return;
use nomen::store::Db;
use nomen::view::ExplorerTemplate;
use nomen::view::NsidTemplate;

fn test_pk() -> Vec<u8> {
    (1u8..=32).collect()
}

fn script_for(nsid: &Nsid, kind: NomenKind) -> Vec<u8> {
    let data = op_return(nsid, kind);
    let mut script = vec![0x6a, data.len() as u8];
    script.extend(data);
    script
}

fn block_with(height: u64, scripts: Vec<Vec<u8>>) -> BlockData {
    BlockData {
        height,
        blockhash: format!("hash{height}").into_bytes(),
        txs: vec![TxData { txid: format!("txid{height}").into_bytes(), outputs: scripts }],
    }
}

fn event_for(kind: u64, name: &str, pubkey: &[u8], created_at: u64, content: &str) -> NostrEvent {
    let nsid = nsid_for(name.as_bytes(), pubkey).unwrap();
    NostrEvent {
        id: format!("event-{kind}-{created_at}").into_bytes(),
        pubkey: pubkey.to_vec(),
        created_at,
        kind,
        tags: vec![
            EventTag { key: b"d".to_vec(), value: hex::encode(nsid.as_bytes()).into_bytes() },
            EventTag { key: b"nom".to_vec(), value: name.as_bytes().to_vec() },
        ],
        content: content.as_bytes().to_vec(),
        sig_valid: true,
    }
}

#[test]
fn fresh_regtest_block_anchors_without_resolving() {
    let mut db = Db::initialize(Network::Regtest);
    let nsid = nsid_for(b"alice", &test_pk()).unwrap();
    let block = block_with(1, vec![script_for(&nsid, NomenKind::Create)]);
    index_block(&mut db, &block);
    assert!(db.namespace_exists(nsid.as_bytes()));
    assert!(db.top_level_names().is_empty());
}

#[test]
fn transfer_outputs_and_foreign_scripts_are_skipped() {
    let mut db = Db::initialize(Network::Regtest);
    let nsid = nsid_for(b"alice", &test_pk()).unwrap();
    let block = block_with(
        1,
        vec![
            script_for(&nsid, NomenKind::Transfer),
            vec![0x51, 0x01, 0xaa],
            vec![0x6a, 0x02, 0x01, 0x02],
        ],
    );
    index_block(&mut db, &block);
    assert!(!db.namespace_exists(nsid.as_bytes()));
    // nothing was anchored, so the height cursor still sits at genesis
    assert_eq!(db.next_index_height(), 0);
}

#[test]
fn create_event_without_anchor_is_deferred() {
    let mut db = Db::initialize(Network::Regtest);
    let ev = event_for(38300, "alice", &test_pk(), 50, "[]");
    assert_eq!(validate_create(&db, &ev), CreateVerdict::Deferred);
    assert_eq!(index_create_event(&mut db, &ev), CreateVerdict::Deferred);
    assert_eq!(db.last_create_event_time(), 0);
    assert!(db.name_available(b"alice"));
}

#[test]
fn anchored_create_event_resolves_name() {
    let mut db = Db::initialize(Network::Regtest);
    let nsid = nsid_for(b"alice", &test_pk()).unwrap();
    let block = block_with(1, vec![script_for(&nsid, NomenKind::Create)]);
    index_block(&mut db, &block);
    let ev = event_for(38300, "alice", &test_pk(), 50, "[]");
    assert_eq!(index_create_event(&mut db, &ev), CreateVerdict::Accepted);
    assert!(!db.name_available(b"alice"));
    let names = db.top_level_names();
    assert_eq!(names.len(), 1);
    assert_eq!(names[0].0, b"alice".to_vec());
    assert_eq!(names[0].1, nsid.to_vec());
    assert_eq!(db.nsid_for_name(b"alice"), Some(nsid.to_vec()));

    let t = ExplorerTemplate::build(&db);
    assert_eq!(t.names.len(), 1);
    assert_eq!(t.names[0].0, b"alice".to_vec());
    assert_eq!(t.names[0].1, hex::encode(nsid.as_bytes()).into_bytes());
}

#[test]
fn second_create_for_same_nsid_is_rejected() {
    let mut db = Db::initialize(Network::Regtest);
    let nsid = nsid_for(b"alice", &test_pk()).unwrap();
    index_block(&mut db, &block_with(1, vec![script_for(&nsid, NomenKind::Create)]));
    let first = event_for(38300, "alice", &test_pk(), 50, "[]");
    let second = event_for(38300, "alice", &test_pk(), 90, "[]");
    assert_eq!(index_create_event(&mut db, &first), CreateVerdict::Accepted);
    assert_eq!(index_create_event(&mut db, &second), CreateVerdict::Rejected);
    assert_eq!(db.last_create_event_time(), 50);
}

#[test]
fn invalid_create_events_are_rejected() {
    let db = Db::initialize(Network::Regtest);
    let mut unsigned = event_for(38300, "alice", &test_pk(), 50, "[]");
    unsigned.sig_valid = false;
    assert_eq!(validate_create(&db, &unsigned), CreateVerdict::Rejected);

    let mut wrong_kind = event_for(38301, "alice", &test_pk(), 50, "[]");
    wrong_kind.kind = 38301;
    assert_eq!(validate_create(&db, &wrong_kind), CreateVerdict::Rejected);

    // fingerprint mismatch: the d tag names bob but the nom tag says alice
    let mut mismatch = event_for(38300, "alice", &test_pk(), 50, "[]");
    let bob = nsid_for(b"bob", &test_pk()).unwrap();
    mismatch.tags[0].value = hex::encode(bob.as_bytes()).into_bytes();
    assert_eq!(validate_create(&db, &mismatch), CreateVerdict::Rejected);

    // two d tags
    let mut doubled = event_for(38300, "alice", &test_pk(), 50, "[]");
    let extra_value = doubled.tags[0].value.clone();
    doubled.tags.push(EventTag { key: b"d".to_vec(), value: extra_value });
    assert_eq!(validate_create(&db, &doubled), CreateVerdict::Rejected);
}

#[test]
fn uppercase_hex_identifier_is_accepted() {
    let mut db = Db::initialize(Network::Regtest);
    let nsid = nsid_for(b"alice", &test_pk()).unwrap();
    index_block(&mut db, &block_with(1, vec![script_for(&nsid, NomenKind::Create)]));
    let mut ev = event_for(38300, "alice", &test_pk(), 50, "[]");
    ev.tags[0].value = hex::encode_upper(nsid.as_bytes()).into_bytes();
    assert_eq!(validate_create(&db, &ev), CreateVerdict::Accepted);

    let mut odd = event_for(38300, "alice", &test_pk(), 50, "[]");
    odd.tags[0].value = b"abc".to_vec();
    assert_eq!(validate_create(&db, &odd), CreateVerdict::Rejected);
}

#[test]
fn saturated_batches_advance_the_cursor() {
    let a = event_for(38301, "alice", &test_pk(), 100, "{}");
    let b = event_for(38301, "alice", &test_pk(), 140, "{}");
    let batch = vec![a, b];
    assert_eq!(next_since(&batch, 2), Some(140));
    assert_eq!(next_since(&batch, 3), None);
    assert_eq!(next_since(&Vec::new(), 2), None);
}

fn resolved_db() -> Db {
    let mut db = Db::initialize(Network::Regtest);
    let nsid = nsid_for(b"alice", &test_pk()).unwrap();
    index_block(&mut db, &block_with(1, vec![script_for(&nsid, NomenKind::Create)]));
    index_create_event(&mut db, &event_for(38300, "alice", &test_pk(), 50, "[]"));
    db
}

#[test]
fn records_upsert_keeps_newest_either_order() {
    let older = event_for(38301, "alice", &test_pk(), 100, "{\"KEY\":\"old\"}");
    let newer = event_for(38301, "alice", &test_pk(), 200, "{\"KEY\":\"new\"}");

    let mut forward = resolved_db();
    assert!(index_records_event(&mut forward, &older));
    assert!(index_records_event(&mut forward, &newer));
    let records = forward.name_records(b"alice").unwrap();
    assert_eq!(records, vec![(b"KEY".to_vec(), b"new".to_vec())]);
    assert_eq!(forward.last_records_time(), 200);

    let mut backward = resolved_db();
    assert!(index_records_event(&mut backward, &newer));
    assert!(index_records_event(&mut backward, &older));
    let records = backward.name_records(b"alice").unwrap();
    assert_eq!(records, vec![(b"KEY".to_vec(), b"new".to_vec())]);
    assert_eq!(backward.last_records_time(), 200);
}

#[test]
fn records_event_with_bad_content_is_invalid() {
    let mut db = resolved_db();
    let bad = event_for(38301, "alice", &test_pk(), 100, "not json");
    assert_eq!(validate_records(&bad), Err(NomenError::InvalidEvent));
    assert!(!index_records_event(&mut db, &bad));
    assert!(db.name_records(b"alice").is_none());

    let non_string_values = event_for(38301, "alice", &test_pk(), 100, "{\"K\":1}");
    assert_eq!(validate_records(&non_string_values), Err(NomenError::InvalidEvent));

    let good = event_for(38301, "alice", &test_pk(), 100, "{}");
    assert_eq!(validate_records(&good), Ok(()));
}

#[test]
fn records_without_anchor_are_kept_but_do_not_resolve() {
    // records validation does not ask for an anchor: the row is upserted,
    // and the name resolves only once the anchor and create row exist
    let mut db = Db::initialize(Network::Regtest);
    let ev = event_for(38301, "carol", &test_pk(), 70, "{\"K\":\"v\"}");
    assert!(index_records_event(&mut db, &ev));
    assert_eq!(db.last_records_time(), 70);
    assert!(db.name_records(b"carol").is_none());
}

#[test]
fn empty_records_object_resolves_to_empty_map() {
    let mut db = resolved_db();
    let ev = event_for(38301, "alice", &test_pk(), 100, "{}");
    assert!(index_records_event(&mut db, &ev));
    assert_eq!(db.name_records(b"alice"), Some(vec![]));
}

#[test]
fn anchored_but_unclaimed_identifier_has_no_name() {
    let mut db = Db::initialize(Network::Regtest);
    let nsid = nsid_for(b"alice", &test_pk()).unwrap();
    index_block(&mut db, &block_with(1, vec![script_for(&nsid, NomenKind::Create)]));
    let d = db.details(nsid.as_bytes());
    assert!(d.name.is_none());
    assert!(d.blockdata.is_some());
}

#[test]
fn tick_twice_over_frozen_inputs_is_idempotent() {
    let nsid = nsid_for(b"alice", &test_pk()).unwrap();
    let blocks = vec![block_with(1, vec![script_for(&nsid, NomenKind::Create)])];
    let creates = vec![event_for(38300, "alice", &test_pk(), 50, "[]")];
    let records = vec![
        event_for(38301, "alice", &test_pk(), 100, "{\"A\":\"1\"}"),
        event_for(38301, "alice", &test_pk(), 90, "{\"A\":\"0\"}"),
    ];

    let mut db = Db::initialize(Network::Regtest);
    run_tick(&mut db, &blocks, &creates, &records);
    let names1 = db.top_level_names();
    let records1 = db.name_records(b"alice");
    let height1 = db.next_index_height();

    run_tick(&mut db, &blocks, &creates, &records);
    assert_eq!(db.top_level_names(), names1);
    assert_eq!(db.name_records(b"alice"), records1);
    assert_eq!(db.next_index_height(), height1);
    assert_eq!(records1.unwrap(), vec![(b"A".to_vec(), b"1".to_vec())]);
}

#[test]
fn deferred_create_lands_on_the_next_tick() {
    let nsid = nsid_for(b"alice", &test_pk()).unwrap();
    let creates = vec![event_for(38300, "alice", &test_pk(), 50, "[]")];

    let mut db = Db::initialize(Network::Regtest);
    // first tick: the relay has the event but the chain has no anchor yet
    run_tick(&mut db, &vec![], &creates, &vec![]);
    assert!(db.name_available(b"alice"));

    // the anchor confirms; the next tick re-fetches the event and stores it
    let blocks = vec![block_with(1, vec![script_for(&nsid, NomenKind::Create)])];
    run_tick(&mut db, &blocks, &creates, &vec![]);
    assert!(!db.name_available(b"alice"));
}

#[test]
fn details_and_template_render_sorted_keys() {
    let mut db = resolved_db();
    let ev = event_for(
        38301,
        "alice",
        &test_pk(),
        100,
        "{\"b\":\"2\",\"a\":\"1\",\"C\":\"3\"}",
    );
    assert!(index_records_event(&mut db, &ev));
    let nsid = nsid_for(b"alice", &test_pk()).unwrap();
    let details = db.details(nsid.as_bytes());
    assert_eq!(details.name, Some(b"alice".to_vec()));
    assert!(details.blockdata.is_some());

    let t = NsidTemplate::from_details(details);
    assert_eq!(t.name, b"alice".to_vec());
    // byte order: 'C' (0x43) sorts before 'a' (0x61) and 'b' (0x62)
    assert_eq!(
        t.record_keys,
        vec![b"C".to_vec(), b"a".to_vec(), b"b".to_vec()]
    );
    assert_eq!(t.records.len(), 3);
    assert_eq!(t.blockhash, hex::encode(b"hash1").into_bytes());
    assert_eq!(t.txid, hex::encode(b"txid1").into_bytes());
    assert_eq!(t.vout, 0);
    assert_eq!(t.height, 1);
    assert!(t.children.is_empty());
}
