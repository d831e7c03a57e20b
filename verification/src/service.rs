//! The request-level pipeline: classify a transaction's log lines, strip
//! the state prefix, store the pair; on read, fetch the row and decode its
//! payload, substituting the fallback board when it does not decode.

use vstd::prelude::*;
use crate::board::{Board, BoardView, fallback_board, fallback_board_view};
use crate::codec::decode_board;
use crate::json::spec_decode_board;
use crate::logs::{classify_logs, classify_spec, strip_state_prefix, strip_state_prefix_spec, MissingLogLine};
use crate::store::{RecordView, StorageError, Store};

verus! {

/// One inbound transaction: its ordered log lines, and its account keys,
/// which are accepted but unused by the current pipeline.
pub struct RawTransaction {
    pub log_messages: Vec<String>,
    pub account_keys: Vec<String>,
}

/// Mathematical image of an inbound transaction.
pub struct RawTransactionView {
    pub log_messages: Seq<Seq<char>>,
    pub account_keys: Seq<Seq<char>>,
}

impl DeepView for RawTransaction {
    type V = RawTransactionView;

    open spec fn deep_view(&self) -> RawTransactionView {
        RawTransactionView {
            log_messages: self.log_messages.deep_view(),
            account_keys: self.account_keys.deep_view(),
        }
    }
}

/// Why an ingest failed: a required log line was absent, or the store
/// rejected the write.
#[derive(Debug, Clone, Copy, PartialEq, Eq, Structural)]
pub enum IngestError {
    MissingInstructionLine,
    MissingStateLine,
    Storage,
}

pub open spec fn ingest_error_of(e: MissingLogLine) -> IngestError {
    match e {
        MissingLogLine::Instruction => IngestError::MissingInstructionLine,
        MissingLogLine::State => IngestError::MissingStateLine,
    }
}

/// The row that ingesting log lines `ls` under identifier `id` appends:
/// the instruction line as found, the state line with one leading prefix
/// stripped. Meaningful when classification succeeds.
pub open spec fn ingested_record(ls: Seq<Seq<char>>, id: i32, ts: u64) -> RecordView {
    match classify_spec(ls) {
        Ok(p) => RecordView { id, ix: Some(p.0), tx: Some(strip_state_prefix_spec(p.1)), ts },
        Err(_) => RecordView { id, ix: None, tx: None, ts },
    }
}

/// Classifies one transaction's log lines and appends the pair as a new
/// row. On a missing line the whole store is left unchanged and the error
/// names the absent line.
pub fn ingest_transaction(store: &mut Store, logs: &Vec<String>, ts: u64) -> (r: Result<
    i32,
    IngestError,
>)
    requires
        old(store).wf(),
    ensures
        final(store).wf(),
        match classify_spec(logs.deep_view()) {
            Ok(p) => {
                if old(store).rows_view().len() < i32::MAX {
                    &&& r matches Ok(id) && id == old(store).rows_view().len() + 1
                    &&& final(store).rows_view() == old(store).rows_view().push(
                        ingested_record(
                            logs.deep_view(),
                            (old(store).rows_view().len() + 1) as i32,
                            ts,
                        ),
                    )
                } else {
                    r == Err::<i32, _>(IngestError::Storage) && final(store).rows_view() == old(
                        store,
                    ).rows_view()
                }
            },
            Err(e) => r == Err::<i32, _>(ingest_error_of(e)) && final(store).rows_view() == old(
                store,
            ).rows_view(),
        },
{
    let pair = match classify_logs(logs) {
        Ok(p) => p,
        Err(MissingLogLine::Instruction) => {
            return Err(IngestError::MissingInstructionLine);
        },
        Err(MissingLogLine::State) => {
            return Err(IngestError::MissingStateLine);
        },
    };
    let tx = strip_state_prefix(pair.state.as_str());
    match store.insert(pair.instruction, tx, ts) {
        Ok(id) => Ok(id),
        Err(StorageError::Full) => Err(IngestError::Storage),
    }
}

/// What ingesting a batch yields: the rows after the run, and its result.
/// Each transaction is inserted as an independent write; the run stops at
/// the first failure, leaving the earlier inserts committed.
pub open spec fn ingest_batch_spec(
    rows: Seq<RecordView>,
    txs: Seq<RawTransactionView>,
    ts: u64,
) -> (Seq<RecordView>, Result<(), IngestError>)
    decreases txs.len(),
{
    if txs.len() == 0 {
        (rows, Ok(()))
    } else {
        match classify_spec(txs[0].log_messages) {
            Err(e) => (rows, Err(ingest_error_of(e))),
            Ok(_) => {
                if rows.len() < i32::MAX {
                    let rows2 = rows.push(
                        ingested_record(txs[0].log_messages, (rows.len() + 1) as i32, ts),
                    );
                    ingest_batch_spec(rows2, txs.drop_first(), ts)
                } else {
                    (rows, Err(IngestError::Storage))
                }
            },
        }
    }
}

/// Ingests a batch of transactions in order, stopping at the first
/// failure; rows inserted before the failure stay committed.
pub fn ingest_batch(store: &mut Store, txs: &Vec<RawTransaction>, ts: u64) -> (r: Result<
    (),
    IngestError,
>)
    requires
        old(store).wf(),
    ensures
        final(store).wf(),
        final(store).rows_view() == ingest_batch_spec(
            old(store).rows_view(),
            txs.deep_view(),
            ts,
        ).0,
        r == ingest_batch_spec(old(store).rows_view(), txs.deep_view(), ts).1,
{
    let n = txs.len();
    let mut k: usize = 0;
    proof {
        assert(txs.deep_view().skip(0) =~= txs.deep_view());
    }
    while k < n
        invariant
            store.wf(),
            n == txs@.len(),
            k <= n,
            ingest_batch_spec(old(store).rows_view(), txs.deep_view(), ts) == ingest_batch_spec(
                store.rows_view(),
                txs.deep_view().skip(k as int),
                ts,
            ),
        decreases n - k,
    {
        let ghost pre = store.rows_view();
        let ghost rem = txs.deep_view().skip(k as int);
        proof {
            assert(rem[0] == txs.deep_view()[k as int]);
        }
        match ingest_transaction(store, &txs[k].log_messages, ts) {
            Ok(_) => {},
            Err(e) => {
                proof {
                    assert(ingest_batch_spec(pre, rem, ts) == (
                        store.rows_view(),
                        Err::<(), IngestError>(e),
                    ));
                }
                return Err(e);
            },
        }
        proof {
            assert(rem.drop_first() =~= txs.deep_view().skip(k + 1));
            assert(ingest_batch_spec(pre, rem, ts) == ingest_batch_spec(
                store.rows_view(),
                txs.deep_view().skip(k + 1),
                ts,
            ));
        }
        k = k + 1;
    }
    proof {
        assert(txs.deep_view().skip(n as int).len() == 0);
    }
    Ok(())
}

/// The board a stored payload stands for: the decoded board when the
/// payload is present and decodes, the fallback board otherwise.
pub open spec fn rendered_board(tx: Option<Seq<char>>) -> BoardView {
    match tx {
        Some(t) => match spec_decode_board(t) {
            Some(bv) => bv,
            None => fallback_board_view(),
        },
        None => fallback_board_view(),
    }
}

/// Decodes a stored payload, substituting the fallback board when the
/// payload is absent or does not decode. Decode failure never escapes.
pub fn render_board(tx: &Option<String>) -> (r: Board)
    ensures
        r@ == rendered_board(
            match *tx {
                Some(t) => Some(t@),
                None => None,
            },
        ),
{
    match tx {
        Some(t) => match decode_board(t.as_str()) {
            Some(b) => b,
            None => fallback_board(),
        },
        None => fallback_board(),
    }
}

/// Fetches the row with the given identifier and renders its payload as a
/// board. Yields nothing exactly when no row carries the identifier.
pub fn read_board(store: &Store, id: i32) -> (r: Option<Board>)
    requires
        store.wf(),
    ensures
        1 <= id <= store.rows_view().len() ==> (r matches Some(b) && b@ == rendered_board(
            store.rows_view()[id - 1].tx,
        )),
        !(1 <= id <= store.rows_view().len()) ==> r is None,
{
    match store.fetch_latest(id) {
        Some(rec) => Some(render_board(&rec.tx)),
        None => None,
    }
}

} // verus!
