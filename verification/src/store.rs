//! In-memory model of the persistence adapter: rows of classified log
//! pairs under auto-assigned identifiers. The process-wide database behind
//! the real service implements the same contract; the model makes the
//! insert and fetch semantics exact and checkable.

use vstd::prelude::*;

verus! {

/// A persisted row: auto-assigned identifier, the two classified lines and
/// an insert-time timestamp.
pub struct StoredRecord {
    pub id: i32,
    pub ix: Option<String>,
    pub tx: Option<String>,
    pub ts: u64,
}

/// Mathematical image of a stored row.
pub struct RecordView {
    pub id: i32,
    pub ix: Option<Seq<char>>,
    pub tx: Option<Seq<char>>,
    pub ts: u64,
}

impl View for StoredRecord {
    type V = RecordView;

    open spec fn view(&self) -> RecordView {
        RecordView {
            id: self.id,
            ix: match self.ix {
                Some(s) => Some(s@),
                None => None,
            },
            tx: match self.tx {
                Some(s) => Some(s@),
                None => None,
            },
            ts: self.ts,
        }
    }
}

/// The write was rejected: the identifier space is exhausted.
#[derive(Debug, Clone, Copy, PartialEq, Eq, Structural)]
pub enum StorageError {
    Full,
}

/// The store: rows in insert order. Identifiers are assigned in sequence
/// starting at one, so the row with identifier `id` sits at index `id - 1`
/// and identifiers are unique.
pub struct Store {
    rows: Vec<StoredRecord>,
}

impl Store {
    /// The rows, in insert order.
    pub closed spec fn rows_view(&self) -> Seq<RecordView> {
        Seq::new(self.rows@.len(), |i: int| self.rows@[i]@)
    }

    /// Each row carries the identifier its position assigns.
    pub closed spec fn wf(&self) -> bool {
        forall|k: int|
            0 <= k < self.rows@.len() ==> (#[trigger] self.rows@[k]).id == k + 1
    }

    /// An empty store.
    pub fn new() -> (r: Store)
        ensures
            r.wf(),
            r.rows_view() == Seq::<RecordView>::empty(),
    {
        let r = Store { rows: Vec::new() };
        proof {
            assert(r.rows_view() =~= Seq::<RecordView>::empty());
        }
        r
    }

    /// Appends a new row holding the classified pair; the store assigns the
    /// next identifier. Fails exactly when the identifier space is
    /// exhausted, leaving the store unchanged.
    pub fn insert(&mut self, ix: String, tx: String, ts: u64) -> (r: Result<i32, StorageError>)
        requires
            old(self).wf(),
        ensures
            final(self).wf(),
            old(self).rows_view().len() < i32::MAX ==> {
                &&& r matches Ok(id) && id == old(self).rows_view().len() + 1
                &&& final(self).rows_view() == old(self).rows_view().push(
                    RecordView { id: (old(self).rows_view().len() + 1) as i32, ix: Some(ix@), tx: Some(tx@), ts },
                )
            },
            old(self).rows_view().len() >= i32::MAX ==> r == Err::<i32, _>(StorageError::Full)
                && final(self).rows_view() == old(self).rows_view(),
    {
        let n = self.rows.len();
        if n >= (i32::MAX as usize) {
            return Err(StorageError::Full);
        }
        let id = (n as i32) + 1;
        let ghost ixv = ix@;
        let ghost txv = tx@;
        self.rows.push(StoredRecord { id, ix: Some(ix), tx: Some(tx), ts });
        proof {
            assert(self.rows_view() =~= old(self).rows_view().push(
                RecordView {
                    id: (old(self).rows_view().len() + 1) as i32,
                    ix: Some(ixv),
                    tx: Some(txv),
                    ts,
                },
            ));
        }
        Ok(id)
    }

    /// Fetches the single row carrying the given identifier, if any:
    /// identifiers are unique, so this is also the most recent match.
    pub fn fetch_latest(&self, id: i32) -> (r: Option<&StoredRecord>)
        requires
            self.wf(),
        ensures
            1 <= id <= self.rows_view().len() ==> (r matches Some(rec) && rec@
                == self.rows_view()[id - 1] && rec.id == id),
            !(1 <= id <= self.rows_view().len()) ==> r is None,
    {
        if id >= 1 && (id as usize) <= self.rows.len() {
            let rec = &self.rows[(id as usize) - 1];
            Some(rec)
        } else {
            None
        }
    }

    /// The number of rows held.
    pub fn len(&self) -> (r: usize)
        ensures
            r == self.rows_view().len(),
    {
        self.rows.len()
    }
}

} // verus!
