use boards_api::board::{Card, List};
use boards_api::service::{
    ingest_batch, ingest_transaction, read_board, render_board, IngestError, RawTransaction,
};
use boards_api::store::Store;

fn s(x: &str) -> String {
    String::from(x)
}

const STATE_LINE: &str =
    "Program log: {\"Board\":{\"seed\":1,\"url\":\"a\",\"members\":[],\"lists\":[],\"cards\":[],\"currency\":\"SOL\"}}";
const INSTRUCTION_LINE: &str = "Program log: Instruction: Create";

fn scenario_tx(state_line: &str) -> RawTransaction {
    RawTransaction {
        log_messages: vec![s(INSTRUCTION_LINE), s(state_line)],
        account_keys: vec![s("11111111111111111111111111111111")],
    }
}

#[test]
fn ingest_scenario_inserts_one_row() {
    let mut store = Store::new();
    let txs = vec![scenario_tx(STATE_LINE)];
    assert!(ingest_batch(&mut store, &txs, 7).is_ok());
    assert_eq!(store.len(), 1);
    let rec = store.fetch_latest(1).unwrap();
    assert_eq!(rec.id, 1);
    assert_eq!(rec.ix.as_deref(), Some(INSTRUCTION_LINE));
    assert_eq!(
        rec.tx.as_deref(),
        Some(
            "{\"Board\":{\"seed\":1,\"url\":\"a\",\"members\":[],\"lists\":[],\"cards\":[],\"currency\":\"SOL\"}}"
        )
    );
    assert_eq!(rec.ts, 7);
}

#[test]
fn ingest_invalid_state_json_still_inserts() {
    // storage does not validate the payload: a truncated document is
    // stored as-is
    let mut store = Store::new();
    let txs = vec![scenario_tx("Program log: {\"Board\":{\"seed\":1,\"url\"")];
    assert!(ingest_batch(&mut store, &txs, 0).is_ok());
    assert_eq!(store.len(), 1);
    let rec = store.fetch_latest(1).unwrap();
    assert_eq!(rec.tx.as_deref(), Some("{\"Board\":{\"seed\":1,\"url\""));
}

#[test]
fn read_board_decodes_stored_payload() {
    let mut store = Store::new();
    let txs = vec![scenario_tx(STATE_LINE)];
    ingest_batch(&mut store, &txs, 0).unwrap();
    let b = read_board(&store, 1).unwrap();
    assert_eq!(b.seed, 1);
    assert_eq!(b.url, "a");
    assert!(b.members.is_empty());
    assert!(b.lists.is_empty());
    assert!(b.cards.is_empty());
    assert_eq!(b.currency, "SOL");
}

#[test]
fn read_board_substitutes_fallback_on_bad_payload() {
    let mut store = Store::new();
    let txs = vec![scenario_tx("Program log: {\"Board\":{\"seed\":1,\"url\"")];
    ingest_batch(&mut store, &txs, 0).unwrap();
    let b = read_board(&store, 1).unwrap();
    assert_eq!(b.seed, 12);
    assert_eq!(b.url, "A");
    assert_eq!(b.members, vec![s("None")]);
    assert_eq!(
        b.lists,
        vec![List { list_id: 1, name: s("A"), bounty_payout_percentage: 0 }]
    );
    assert_eq!(b.cards, vec![Card { card_id: 1, list_id: 1, bounty: 0 }]);
    assert_eq!(b.currency, "None");
}

#[test]
fn read_board_nonexistent_id_yields_nothing() {
    let store = Store::new();
    assert!(read_board(&store, 1).is_none());
    assert!(read_board(&store, 0).is_none());
    assert!(read_board(&store, -5).is_none());
}

#[test]
fn ingest_batch_aborts_on_first_missing_line() {
    let mut store = Store::new();
    let good = scenario_tx(STATE_LINE);
    let bad = RawTransaction {
        log_messages: vec![s(INSTRUCTION_LINE)],
        account_keys: Vec::new(),
    };
    let never = scenario_tx(STATE_LINE);
    let txs = vec![good, bad, never];
    assert_eq!(ingest_batch(&mut store, &txs, 0), Err(IngestError::MissingStateLine));
    // the insert before the failure stays committed; nothing after runs
    assert_eq!(store.len(), 1);
}

#[test]
fn ingest_batch_missing_instruction_reported_first() {
    let mut store = Store::new();
    let txs = vec![RawTransaction { log_messages: Vec::new(), account_keys: Vec::new() }];
    assert_eq!(
        ingest_batch(&mut store, &txs, 0),
        Err(IngestError::MissingInstructionLine)
    );
    assert_eq!(store.len(), 0);
}

#[test]
fn ingest_assigns_sequential_ids() {
    let mut store = Store::new();
    let id1 = ingest_transaction(&mut store, &scenario_tx(STATE_LINE).log_messages, 0).unwrap();
    let id2 = ingest_transaction(&mut store, &scenario_tx(STATE_LINE).log_messages, 0).unwrap();
    assert_eq!(id1, 1);
    assert_eq!(id2, 2);
    assert_eq!(store.fetch_latest(2).unwrap().id, 2);
}

#[test]
fn render_board_absent_payload_falls_back() {
    let b = render_board(&None);
    assert_eq!(b.seed, 12);
    assert_eq!(b.currency, "None");
}

#[test]
fn render_board_valid_payload_decodes() {
    let payload = s(
        "{\"Board\":{\"seed\":3,\"url\":\"x\",\"members\":[\"m\"],\"lists\":[],\"cards\":[],\"currency\":\"EUR\"}}",
    );
    let b = render_board(&Some(payload));
    assert_eq!(b.seed, 3);
    assert_eq!(b.members, vec![s("m")]);
    assert_eq!(b.currency, "EUR");
}
