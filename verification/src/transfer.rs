//! The token-transfer endpoints' decision logic: request validation, and
//! the construction of an unsigned transfer message against the ledger
//! SDK. The SDK chain stands behind one trusted wrapper whose result is
//! named; which requests are rejected, with which error, and that the
//! bytes served are exactly that named result, is verified.

use vstd::prelude::*;
use std::str::FromStr;
use solana_sdk::message::Message;
use solana_sdk::pubkey::Pubkey;

verus! {

/// Lamports moved by one constructed transfer.
pub const TRANSFER_LAMPORTS: u64 = 100_000;

#[verifier::external_type_specification]
#[verifier::external_body]
pub struct ExMessage(Message);

#[verifier::external_type_specification]
#[verifier::external_body]
pub struct ExJsonError(serde_json::Error);

/// Whether a string is the base58 text of a 32-byte public key: the
/// condition under which `Pubkey::from_str` accepts it.
pub uninterp spec fn is_valid_pubkey(s: Seq<char>) -> bool;

/// The wire bytes of the unsigned transfer message for the given keys,
/// amount and recent block reference: the result of the ledger SDK's
/// construction chain, which depends on these arguments alone. Meaningful
/// where both keys are valid.
pub uninterp spec fn transfer_wire_bytes(
    sender: Seq<char>,
    receiver: Seq<char>,
    lamports: u64,
    blockhash: Seq<u8>,
) -> Seq<u8>;

/// Relies on Pubkey::from_str (a pure base58 decode, accepting exactly the
/// well-formed 32-byte keys, named `is_valid_pubkey`), and, on two valid
/// keys, on system_instruction::transfer, Hash::new_from_array,
/// Message::new_with_blockhash and Message::serialize: the serialized
/// unsigned message is a function of the keys, amount and block reference
/// alone, named `transfer_wire_bytes`. The message holds three account
/// keys, far below the SDK's 256-key ceiling, so the assertion inside its
/// key accounting cannot fire.
#[verifier::external_body]
fn unsigned_transfer_bytes(
    sender: &str,
    receiver: &str,
    lamports: u64,
    blockhash: &Vec<u8>,
) -> (r: Result<Vec<u8>, TransferError>)
    requires
        blockhash@.len() == 32,
    ensures
        r is Ok <==> (is_valid_pubkey(sender@) && is_valid_pubkey(receiver@)),
        r matches Ok(b) ==> b@ == transfer_wire_bytes(sender@, receiver@, lamports, blockhash@),
        (r matches Err(e) && e == TransferError::BadSender) <==> !is_valid_pubkey(sender@),
        (r matches Err(e) && e == TransferError::BadReceiver) <==> (is_valid_pubkey(sender@)
            && !is_valid_pubkey(receiver@)),
{
    let from = match Pubkey::from_str(sender) {
        Ok(k) => k,
        Err(_) => return Err(TransferError::BadSender),
    };
    let to = match Pubkey::from_str(receiver) {
        Ok(k) => k,
        Err(_) => return Err(TransferError::BadReceiver),
    };
    let ix = solana_sdk::system_instruction::transfer(&from, &to, lamports);
    let mut arr = [0u8; 32];
    arr.copy_from_slice(blockhash.as_slice());
    let bh = solana_sdk::hash::Hash::new_from_array(arr);
    Ok(Message::new_with_blockhash(&[ix], Some(&from), &bh).serialize())
}

/// Whether a string is a JSON document that deserializes as the ledger
/// SDK's Message: the condition under which serde_json::from_str accepts it.
pub uninterp spec fn is_valid_message_json(s: Seq<char>) -> bool;

/// Relies on serde_json::from_str for the ledger SDK's Message: a pure
/// parse, accepting exactly the documents named by `is_valid_message_json`.
#[verifier::external_body]
fn message_from_json(payload: &str) -> (r: Result<Message, serde_json::Error>)
    ensures
        r is Ok <==> is_valid_message_json(payload@),
{
    serde_json::from_str(payload)
}

/// Why a transfer request was rejected.
#[derive(Debug, Clone, Copy, PartialEq, Eq, Structural)]
pub enum TransferError {
    MissingSender,
    MissingReceiver,
    BadSender,
    BadReceiver,
}

/// Validates the fields of a transfer request: both keys must be present.
pub fn transfer_request(sender: Option<&str>, receiver: Option<&str>) -> (r: Result<
    (),
    TransferError,
>)
    ensures
        sender is None ==> r == Err::<(), _>(TransferError::MissingSender),
        sender is Some && receiver is None ==> r == Err::<(), _>(TransferError::MissingReceiver),
        sender is Some && receiver is Some ==> r is Ok,
{
    if sender.is_none() {
        Err(TransferError::MissingSender)
    } else if receiver.is_none() {
        Err(TransferError::MissingReceiver)
    } else {
        Ok(())
    }
}

/// Builds the wire bytes of an unsigned transfer of `TRANSFER_LAMPORTS`
/// from `sender` to `receiver`, against the given 32-byte recent block
/// reference: exactly the named serialization of that transfer. Rejects
/// exactly the keys that do not parse, naming the first bad one.
pub fn build_transfer_message(sender: &str, receiver: &str, recent_blockhash: &Vec<u8>) -> (r:
    Result<Vec<u8>, TransferError>)
    requires
        recent_blockhash@.len() == 32,
    ensures
        (r is Ok) <==> (is_valid_pubkey(sender@) && is_valid_pubkey(receiver@)),
        r matches Ok(b) ==> b@ == transfer_wire_bytes(
            sender@,
            receiver@,
            TRANSFER_LAMPORTS,
            recent_blockhash@,
        ),
        r == Err::<Vec<u8>, _>(TransferError::BadSender) <==> !is_valid_pubkey(sender@),
        r == Err::<Vec<u8>, _>(TransferError::BadReceiver) <==> (is_valid_pubkey(sender@)
            && !is_valid_pubkey(receiver@)),
{
    unsigned_transfer_bytes(sender, receiver, TRANSFER_LAMPORTS, recent_blockhash)
}

/// Why a relay request was rejected.
#[derive(Debug, Clone, Copy, PartialEq, Eq, Structural)]
pub enum RelayError {
    MissingMessage,
    MissingSignature,
}

/// Validates the fields of a relay request: the serialized message and the
/// signature must both be present. Relay itself is not performed.
pub fn relay_request(message: Option<&str>, signature: Option<&str>) -> (r: Result<(), RelayError>)
    ensures
        message is None ==> r == Err::<(), _>(RelayError::MissingMessage),
        message is Some && signature is None ==> r == Err::<(), _>(RelayError::MissingSignature),
        message is Some && signature is Some ==> r is Ok,
{
    if message.is_none() {
        Err(RelayError::MissingMessage)
    } else if signature.is_none() {
        Err(RelayError::MissingSignature)
    } else {
        Ok(())
    }
}

/// The message payload did not parse.
#[derive(Debug, Clone, Copy, PartialEq, Eq, Structural)]
pub enum MessageDecodeError {
    Malformed,
}

/// Parses a JSON-serialized ledger message, mapping the SDK's error into
/// the library's own. Succeeds exactly on the documents the SDK accepts.
pub fn deserialize_message(payload: &str) -> (r: Result<Message, MessageDecodeError>)
    ensures
        r is Ok <==> is_valid_message_json(payload@),
        r is Err ==> r == Err::<Message, _>(MessageDecodeError::Malformed),
{
    match message_from_json(payload) {
        Ok(m) => Ok(m),
        Err(_) => Err(MessageDecodeError::Malformed),
    }
}

} // verus!
