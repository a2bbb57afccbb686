use nomen::error::NomenError;
use nomen::hashes::Hash160;
use nomen::kinds::log_height;
use nomen::kinds::Network;
use nomen::kinds::NameKind;
use nomen::kinds::NomenKind;
use nomen::name::validate_name;
use nomen::name::Name;
use nomen::nsid::nsid_for;
use nomen::nsid::Nsid;
use nomen::nsid::NsidBuilder;
use nomen::opreturn::op_return;
use nomen::opreturn::op_return_payload;
use nomen::opreturn::parse_gun_output;
use nomen::opreturn::parse_op_return;

fn test_pk() -> Vec<u8> {
    (1u8..=32).collect()
}

fn test_pk2() -> Vec<u8> {
    (33u8..=64).collect()
}

#[test]
fn hash160_empty_input() {
    let d = Hash160::digest(b"");
    assert_eq!(hex::encode(&d), "b472a266d0bd89c13706a4132ccfb16f7c3b9fcb");
}

#[test]
fn hash160_hello() {
    let d = Hash160::digest(b"hello");
    assert_eq!(hex::encode(&d), "b6a9c8c230722b7c748331a8b450f05566dc7d0f");
}

#[test]
fn hash160_chaining_matches_one_shot() {
    let chained = Hash160::default()
        .chain_update(b"he")
        .chain_update(b"llo")
        .fingerprint();
    assert_eq!(chained, Hash160::digest(b"hello"));
}

#[test]
fn nsid_is_hash160_of_name_and_key() {
    let nsid = nsid_for(b"alice", &test_pk()).unwrap();
    assert_eq!(
        hex::encode(nsid.as_bytes()),
        "f257de05e05ec63f4ec5c8c27fec1fc4b7e7070d"
    );
}

#[test]
fn nsid_builder_folds_children_in_order() {
    let built = NsidBuilder::new(b"alice", &test_pk())
        .unwrap()
        .update_child(b"kid", &test_pk2())
        .unwrap()
        .finalize();
    assert_eq!(
        hex::encode(built.as_bytes()),
        "70b201936119143b6e7919388cc56d7a815ecf43"
    );
}

#[test]
fn nsid_builder_rejects_bad_inputs() {
    assert_eq!(NsidBuilder::new(b"al", &test_pk()).err(), Some(NomenError::InvalidName));
    assert_eq!(NsidBuilder::new(b"alice", &[1, 2, 3]).err(), Some(NomenError::InvalidKey));
}

#[test]
fn name_length_bounds() {
    assert!(!validate_name(b"ab"));
    assert!(validate_name(b"abc"));
    assert!(validate_name(&[b'a'; 43]));
    assert!(!validate_name(&[b'a'; 44]));
}

#[test]
fn name_charset() {
    assert!(validate_name(b"az09-x"));
    assert!(!validate_name(b"Alice"));
    assert!(!validate_name(b"has_underscore"));
    assert!(!validate_name(b"spa ce"));
}

#[test]
fn name_parse_reports_invalid_name() {
    assert!(matches!(Name::parse(b"ok-name".to_vec()), Ok(_)));
    assert_eq!(Name::parse(b"NO".to_vec()).err(), Some(NomenError::InvalidName));
}

#[test]
fn op_return_layout() {
    let nsid = Nsid::from_bytes(vec![0x11; 20]).unwrap();
    let data = op_return(&nsid, NomenKind::Create);
    let mut expected = vec![0x4e, 0x4f, 0x4d, 0x00, 0x00];
    expected.extend(vec![0x11; 20]);
    assert_eq!(data, expected);
    assert_eq!(data.len(), 25);

    let nsid = Nsid::from_bytes(vec![0x22; 20]).unwrap();
    let data = op_return(&nsid, NomenKind::Transfer);
    assert_eq!(data[4], 0x01);
}

#[test]
fn parse_op_return_round_trip() {
    let nsid = Nsid::from_bytes((0u8..20).collect()).unwrap();
    let data = op_return(&nsid, NomenKind::Create);
    let (kind, parsed) = parse_op_return(&data).unwrap();
    assert_eq!(kind, NomenKind::Create);
    assert_eq!(parsed.as_bytes(), nsid.as_bytes());
}

#[test]
fn parse_op_return_rejects_wrong_magic() {
    let mut data = vec![0x58, 0x4f, 0x4d, 0x00, 0x00];
    data.extend(vec![0u8; 20]);
    assert!(parse_op_return(&data).is_none());

    let mut data = vec![0x4e, 0x4f, 0x4d, 0x01, 0x00];
    data.extend(vec![0u8; 20]);
    assert!(parse_op_return(&data).is_none());
}

#[test]
fn parse_op_return_rejects_wrong_shape() {
    assert!(parse_op_return(&[0x4e, 0x4f, 0x4d, 0x00]).is_none());
    let mut data = vec![0x4e, 0x4f, 0x4d, 0x00, 0x02];
    data.extend(vec![0u8; 20]);
    assert!(parse_op_return(&data).is_none());
    let mut data = vec![0x4e, 0x4f, 0x4d, 0x00, 0x00];
    data.extend(vec![0u8; 21]);
    assert!(parse_op_return(&data).is_none());
}

#[test]
fn op_return_payload_strips_script_prefix() {
    let script = vec![0x6a, 0x03, 1, 2, 3];
    assert_eq!(op_return_payload(&script), Some(vec![1, 2, 3]));
    assert_eq!(op_return_payload(&[0x51, 0x03, 1, 2, 3]), None);
    assert_eq!(op_return_payload(&[0x6a]), None);
}

#[test]
fn parse_gun_output_takes_zero_zero_prefix() {
    assert_eq!(parse_gun_output(&[0, 0, 9, 8, 7]), Ok(vec![9, 8, 7]));
    assert_eq!(parse_gun_output(&[1, 0, 9]), Err(NomenError::MalformedPayload));
    assert_eq!(parse_gun_output(&[0]), Err(NomenError::MalformedPayload));
}

#[test]
fn nsid_from_bytes_needs_twenty() {
    assert_eq!(Nsid::from_bytes(vec![0; 19]).err(), Some(NomenError::MalformedPayload));
    assert!(Nsid::from_bytes(vec![0; 20]).is_ok());
}

#[test]
fn event_kind_numbers() {
    assert_eq!(NameKind::Name.kind_number(), 38300);
    assert_eq!(NameKind::Record.kind_number(), 38301);
    assert_eq!(NameKind::Transfer.kind_number(), 38302);
}

#[test]
fn nomen_kind_bytes() {
    assert_eq!(NomenKind::Create.byte(), 0x00);
    assert_eq!(NomenKind::Transfer.byte(), 0x01);
}

#[test]
fn genesis_heights() {
    assert_eq!(Network::Bitcoin.starting_block_height(), 790500);
    assert_eq!(Network::Signet.starting_block_height(), 143500);
    assert_eq!(Network::Testnet.starting_block_height(), 0);
    assert_eq!(Network::Regtest.starting_block_height(), 0);
}

#[test]
fn log_height_marks_every_tenth() {
    assert!(log_height(0));
    assert!(log_height(120));
    assert!(!log_height(121));
}

#[test]
fn error_descriptions() {
    assert_eq!(NomenError::InvalidName.describe(), "invalid name");
    assert_eq!(NomenError::NotFound.describe(), "not found");
}
