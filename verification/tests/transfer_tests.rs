use solana_sdk::message::Message;
use solana_sdk::pubkey::Pubkey;
use std::str::FromStr;
use boards_api::transfer::{
    build_transfer_message, deserialize_message, relay_request, transfer_request, RelayError,
    TransferError, TRANSFER_LAMPORTS,
};

const SYSTEM_KEY: &str = "11111111111111111111111111111111";
const VOTE_KEY: &str = "Vote111111111111111111111111111111111111111";

#[test]
fn transfer_request_field_validation() {
    assert_eq!(
        transfer_request(None, Some(VOTE_KEY)),
        Err(TransferError::MissingSender)
    );
    assert_eq!(
        transfer_request(Some(SYSTEM_KEY), None),
        Err(TransferError::MissingReceiver)
    );
    assert!(transfer_request(Some(SYSTEM_KEY), Some(VOTE_KEY)).is_ok());
}

#[test]
fn relay_request_field_validation() {
    assert_eq!(relay_request(None, Some("sig")), Err(RelayError::MissingMessage));
    assert_eq!(relay_request(Some("msg"), None), Err(RelayError::MissingSignature));
    assert!(relay_request(Some("msg"), Some("sig")).is_ok());
}

#[test]
fn build_transfer_message_with_valid_keys() {
    let blockhash = vec![0u8; 32];
    let bytes = build_transfer_message(SYSTEM_KEY, VOTE_KEY, &blockhash).unwrap();
    assert!(!bytes.is_empty());
    // the serialized message embeds both 32-byte account keys
    assert!(bytes.len() > 64);
}

#[test]
fn build_transfer_message_rejects_bad_sender() {
    let blockhash = vec![0u8; 32];
    assert_eq!(
        build_transfer_message("not a key!", VOTE_KEY, &blockhash),
        Err(TransferError::BadSender)
    );
}

#[test]
fn build_transfer_message_rejects_bad_receiver() {
    let blockhash = vec![1u8; 32];
    assert_eq!(
        build_transfer_message(SYSTEM_KEY, "", &blockhash),
        Err(TransferError::BadReceiver)
    );
}

#[test]
fn build_transfer_message_serves_the_sdk_bytes() {
    let blockhash = vec![7u8; 32];
    let bytes = build_transfer_message(SYSTEM_KEY, VOTE_KEY, &blockhash).unwrap();
    let from = Pubkey::from_str(SYSTEM_KEY).unwrap();
    let to = Pubkey::from_str(VOTE_KEY).unwrap();
    let ix = solana_sdk::system_instruction::transfer(&from, &to, 100_000);
    let bh = solana_sdk::hash::Hash::new_from_array([7u8; 32]);
    let expected = Message::new_with_blockhash(&[ix], Some(&from), &bh);
    assert_eq!(bytes, expected.serialize());
}

#[test]
fn transfer_moves_fixed_amount() {
    assert_eq!(TRANSFER_LAMPORTS, 100_000);
}

#[test]
fn deserialize_message_round_trip() {
    let from = Pubkey::from_str(SYSTEM_KEY).unwrap();
    let to = Pubkey::from_str(VOTE_KEY).unwrap();
    let ix = solana_sdk::system_instruction::transfer(&from, &to, 5);
    let m = Message::new(&[ix], Some(&from));
    let text = serde_json::to_string(&m).unwrap();
    let parsed = deserialize_message(text.as_str()).unwrap();
    assert_eq!(parsed, m);
}

#[test]
fn deserialize_message_rejects_garbage() {
    assert!(deserialize_message("not json at all").is_err());
    assert!(deserialize_message("{\"bad\":1}").is_err());
}
