use nomen::config::confirmations;
use nomen::config::server_bind;
use nomen::config::server_indexer_delay;
use nomen::documents::ChildCreate;
use nomen::documents::Create;
use nomen::error::require_found;
use nomen::error::NomenError;
use nomen::indexer::should_index_height;
use nomen::kinds::Network;
use nomen::records::parse_records;
use nomen::store::Db;

#[test]
fn empty_store_starts_at_genesis() {
    let db = Db::initialize(Network::Bitcoin);
    assert_eq!(db.next_index_height(), 790500);
    let db = Db::initialize(Network::Regtest);
    assert_eq!(db.next_index_height(), 0);
}

#[test]
fn next_index_height_is_one_above_max() {
    let mut db = Db::initialize(Network::Regtest);
    db.insert_namespace(vec![1; 20], b"bh1".to_vec(), b"tx1".to_vec(), 0, 5);
    db.insert_namespace(vec![2; 20], b"bh2".to_vec(), b"tx2".to_vec(), 0, 3);
    assert_eq!(db.next_index_height(), 6);
}

#[test]
fn first_anchor_wins() {
    let mut db = Db::initialize(Network::Regtest);
    db.insert_namespace(vec![1; 20], b"bh1".to_vec(), b"tx1".to_vec(), 0, 5);
    db.insert_namespace(vec![1; 20], b"bh2".to_vec(), b"tx2".to_vec(), 1, 9);
    assert_eq!(db.next_index_height(), 6);
    let d = db.details(&[1; 20]);
    let (blockhash, txid, vout, height) = d.blockdata.unwrap();
    assert_eq!(blockhash, b"bh1".to_vec());
    assert_eq!(txid, b"tx1".to_vec());
    assert_eq!(vout, 0);
    assert_eq!(height, 5);
}

#[test]
fn namespace_exists_after_insert() {
    let mut db = Db::initialize(Network::Regtest);
    assert!(!db.namespace_exists(&[7; 20]));
    db.insert_namespace(vec![7; 20], b"bh".to_vec(), b"tx".to_vec(), 2, 1);
    assert!(db.namespace_exists(&[7; 20]));
    assert!(!db.namespace_exists(&[8; 20]));
}

#[test]
fn unknown_name_has_no_records() {
    let db = Db::initialize(Network::Regtest);
    assert!(db.name_records(b"nonexistent").is_none());
    assert!(require_found(db.name_records(b"nonexistent")).is_err());
    assert_eq!(
        require_found(db.name_records(b"nonexistent")).err(),
        Some(NomenError::NotFound)
    );
}

#[test]
fn name_available_reflects_create_rows() {
    let db = Db::initialize(Network::Regtest);
    assert!(db.name_available(b"alice"));
    assert!(db.nsid_for_name(b"alice").is_none());
}

#[test]
fn details_of_unknown_nsid_is_empty() {
    let db = Db::initialize(Network::Regtest);
    let d = db.details(&[9; 20]);
    assert!(d.name.is_none());
    assert!(d.blockdata.is_none());
    assert!(d.records.is_empty());
    assert!(d.children.is_empty());
}

#[test]
fn last_times_start_at_zero() {
    let db = Db::initialize(Network::Regtest);
    assert_eq!(db.last_create_event_time(), 0);
    assert_eq!(db.last_records_time(), 0);
}

#[test]
fn parse_records_splits_and_uppercases() {
    let args = vec![
        "abc=x".to_string(),
        "noequals".to_string(),
        "K=v=w".to_string(),
    ];
    let pairs = parse_records(&args);
    assert_eq!(pairs.len(), 2);
    assert_eq!(pairs[0].0, "ABC");
    assert_eq!(pairs[0].1, "x");
    assert_eq!(pairs[1].0, "K");
    assert_eq!(pairs[1].1, "v=w");
}

#[test]
fn parse_records_empty_value_and_unicode_key() {
    let args = vec!["k=".to_string(), "ünï=q".to_string()];
    let pairs = parse_records(&args);
    assert_eq!(pairs.len(), 2);
    assert_eq!(pairs[0].0, "K");
    assert_eq!(pairs[0].1, "");
    assert_eq!(pairs[1].0, "ÜNÏ");
    assert_eq!(pairs[1].1, "q");
}

#[test]
fn should_index_height_respects_confirmation_lag() {
    assert!(should_index_height(7, 10, 3));
    assert!(!should_index_height(8, 10, 3));
    assert!(!should_index_height(0, 2, 3));
    assert!(should_index_height(0, 3, 3));
}

#[test]
fn indexer_delay_precedence() {
    assert_eq!(server_indexer_delay(Some(5), Some(10)), 5);
    assert_eq!(server_indexer_delay(None, Some(10)), 10);
    assert_eq!(server_indexer_delay(None, None), 30);
}

#[test]
fn confirmations_default_to_three() {
    assert_eq!(confirmations(Some(6)), 6);
    assert_eq!(confirmations(None), 3);
}

#[test]
fn bind_precedence() {
    let cli = Some("0.0.0.0:8080".to_string());
    let file = Some("127.0.0.1:9090".to_string());
    assert_eq!(server_bind(&cli, &file), Some("0.0.0.0:8080".to_string()));
    assert_eq!(server_bind(&None, &file), Some("127.0.0.1:9090".to_string()));
    assert_eq!(server_bind(&None, &None), None);
}

#[test]
fn example_documents() {
    let child = ChildCreate::create_example();
    assert_eq!(child.name, "child-name");
    assert_eq!(child.pubkey, "child-pubkey-hex");
    assert!(child.children.is_empty());

    let doc = Create::create_example();
    assert_eq!(doc.name, "example-name");
    assert_eq!(doc.txid, "input-txid");
    assert_eq!(doc.vout, 0);
    assert_eq!(doc.address, "bc1...");
    assert_eq!(doc.fee_rate, 1);
    assert_eq!(doc.children.len(), 1);
    assert_eq!(doc.children[0].name, "child-name");
}
