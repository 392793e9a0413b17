//! The aggregate: one table of unified rows, grown batch by batch, with the removal
//! of transactions that several files report.

use vstd::prelude::*;
use crate::cell::text_or_null;
use crate::cell::Value;
use crate::dedup::distinct_keys;
use crate::dedup::keep_first;
use crate::dedup::lemma_keep_first_distinct;
use crate::dedup::lemma_keep_first_idempotent;
use crate::dedup::lemma_keep_first_step;
use crate::dedup::seen_before;
use crate::error::Error;
use crate::error::Failure;
use crate::reader::read;
use crate::reader::read_batches;
use crate::reader::read_outcome;
use crate::reader::BatchOpen;
use crate::reader::CanonicalRow;
use crate::reader::FileContent;
use crate::reader::RowView;
use crate::reader::SourceFile;

verus! {

/// Whether a row fits the schema of the unified table: its six participant fields
/// are text or null.
pub open spec fn conforms(row: RowView) -> bool {
    &&& text_or_null(row.from_id)
    &&& text_or_null(row.from_bank_id)
    &&& text_or_null(row.from_name)
    &&& text_or_null(row.to_id)
    &&& text_or_null(row.to_bank_id)
    &&& text_or_null(row.to_name)
}

/// Whether every row of a batch fits the schema.
pub open spec fn batch_conforms(batch: Seq<RowView>) -> bool {
    forall|i: int| 0 <= i < batch.len() ==> conforms(#[trigger] batch[i])
}

/// The table after a batch is offered: the batch is appended whole where it fits the
/// schema, and left out whole where one of its rows does not.
pub open spec fn attached(table: Seq<RowView>, batch: Seq<RowView>) -> Seq<RowView> {
    if batch_conforms(batch) {
        table + batch
    } else {
        table
    }
}

/// The table after each batch of a sequence is offered in turn.
pub open spec fn attached_all(table: Seq<RowView>, batches: Seq<Seq<RowView>>) -> Seq<RowView>
    decreases batches.len(),
{
    if batches.len() == 0 {
        table
    } else {
        attached_all(attached(table, batches.first()), batches.drop_first())
    }
}

/// What tells one transaction from another across files: payer, payee, amount and time.
pub open spec fn transaction_key() -> spec_fn(RowView) -> (Value, Value, Option<i128>, Option<i64>) {
    |row: RowView| (row.from_id, row.to_id, row.amount, row.datetime)
}

/// A table without its repeated transactions: of the rows that share payer, payee,
/// amount and time, the first stays.
pub open spec fn deduplicated(table: Seq<RowView>) -> Seq<RowView> {
    keep_first(table, transaction_key())
}

/// Removing repeated transactions from a table that went through the removal
/// already changes nothing.
pub proof fn lemma_drop_duplicate_idempotent(table: Seq<RowView>)
    ensures
        deduplicated(deduplicated(table)) == deduplicated(table),
{
    lemma_keep_first_idempotent(table, transaction_key());
}

/// Whether a row fits the schema of the unified table.
pub fn row_conforms(row: &CanonicalRow) -> (r: bool)
    ensures
        r == conforms(row@),
{
    row.from_id.is_text_or_null() && row.from_bank_id.is_text_or_null()
        && row.from_name.is_text_or_null() && row.to_id.is_text_or_null()
        && row.to_bank_id.is_text_or_null() && row.to_name.is_text_or_null()
}

/// Whether two rows report one transaction.
pub fn same_transaction(a: &CanonicalRow, b: &CanonicalRow) -> (r: bool)
    ensures
        r == (transaction_key()(a@) == transaction_key()(b@)),
{
    let same_amount = match (a.amount, b.amount) {
        (Some(x), Some(y)) => x == y,
        (None, None) => true,
        _ => false,
    };
    let same_time = match (a.datetime, b.datetime) {
        (Some(x), Some(y)) => x == y,
        (None, None) => true,
        _ => false,
    };
    a.from_id.same(&b.from_id) && a.to_id.same(&b.to_id) && same_amount && same_time
}

/// The aggregate table. Every row in it fits the schema of the unified table.
pub struct Dataset {
    inner: Vec<CanonicalRow>,
}

impl View for Dataset {
    type V = Seq<RowView>;

    closed spec fn view(&self) -> Seq<RowView> {
        self.inner.deep_view()
    }
}

impl Dataset {
    #[verifier::type_invariant]
    spec fn well_formed(self) -> bool {
        batch_conforms(self.inner.deep_view())
    }

    /// An empty table.
    pub fn new() -> (r: Dataset)
        ensures
            r@ == Seq::<RowView>::empty(),
    {
        let inner: Vec<CanonicalRow> = Vec::new();
        assert(inner.deep_view() =~= Seq::<RowView>::empty());
        Dataset { inner }
    }

    /// Number of rows in the table.
    pub fn len(&self) -> (n: usize)
        ensures
            n == self@.len(),
    {
        self.inner.len()
    }

    /// Offers a batch to the table. A batch that fits the schema is appended whole; a
    /// batch with a row that does not fit is refused and leaves the table as it was.
    pub fn attach_df(&mut self, value: Vec<CanonicalRow>) -> (r: Result<(), Error>)
        ensures
            r is Ok == batch_conforms(value.deep_view()),
            r matches Err(e) ==> e@ == Failure::UnionFailure,
            final(self)@ == attached(old(self)@, value.deep_view()),
    {
        let mut i: usize = 0;
        while i < value.len()
            invariant
                i <= value@.len(),
                forall|k: int| 0 <= k < i ==> conforms(#[trigger] value.deep_view()[k]),
            decreases value@.len() - i,
        {
            if !row_conforms(&value[i]) {
                assert(value.deep_view()[i as int] == value@[i as int]@);
                return Err(Error::UnionFailure);
            }
            assert(value.deep_view()[i as int] == value@[i as int]@);
            i += 1;
        }
        let mut value = value;
        let ghost batch = value.deep_view();
        let ghost before = self.inner.deep_view();
        let mut rows = self.take_rows();
        rows.append(&mut value);
        assert(rows.deep_view() =~= before + batch);
        *self = Dataset { inner: rows };
        Ok(())
    }

    /// Takes the rows out of the table and leaves it empty.
    fn take_rows(&mut self) -> (rows: Vec<CanonicalRow>)
        ensures
            rows.deep_view() == old(self)@,
            batch_conforms(rows.deep_view()),
            final(self)@ == Seq::<RowView>::empty(),
    {
        let mut table = Dataset::new();
        core::mem::swap(self, &mut table);
        proof {
            use_type_invariant(&table);
        }
        table.inner
    }

    /// Reads one file and offers its rows to the table. A file that fails to read, or
    /// whose rows do not fit, changes nothing, and the failure comes back.
    pub fn attach_file(&mut self, path: &str, content: FileContent) -> (r: Result<(), Error>)
        ensures
            match read_outcome(path@, content) {
                Ok(rows) => {
                    &&& r is Ok == batch_conforms(rows)
                    &&& r matches Err(e) ==> e@ == Failure::UnionFailure
                    &&& final(self)@ == attached(old(self)@, rows)
                },
                Err(failure) => {
                    &&& r matches Err(e)
                    &&& e@ == failure
                    &&& final(self)@ == old(self)@
                },
            },
    {
        match read(path, content) {
            Ok(df) => self.attach_df(df),
            Err(e) => Err(e),
        }
    }

    /// Reads the files of a folder and offers the table of each, in their order, to
    /// the table. Files that fail to read and tables that do not fit are left out.
    pub fn attach_folder(&mut self, folder_path: &str, files: Vec<SourceFile>)
        ensures
            final(self)@ == attached_all(old(self)@, read_batches(files@)),
    {
        let bat = BatchOpen::new(folder_path);
        let mut tables = bat.read_all(files);
        let ghost all = tables.deep_view();
        while tables.len() > 0
            invariant
                attached_all(old(self)@, all) == attached_all(self@, tables.deep_view()),
            decreases tables@.len(),
        {
            let ghost rest = tables.deep_view();
            let table = tables.remove(0);
            assert(tables.deep_view() =~= rest.drop_first());
            assert(table.deep_view() == rest.first());
            let _ = self.attach_df(table);
        }
    }

    /// Removes the repeated transactions: of the rows that share payer, payee, amount
    /// and time, the first stays.
    pub fn drop_duplicate(&mut self)
        ensures
            final(self)@ == deduplicated(old(self)@),
            distinct_keys(final(self)@, transaction_key()),
    {
        let ghost table = self.inner.deep_view();
        let ghost key = transaction_key();
        proof {
            use_type_invariant(&*self);
        }
        let mut kept: Vec<CanonicalRow> = Vec::new();
        let mut i: usize = 0;
        assert(table.take(0) =~= Seq::<RowView>::empty());
        assert(kept.deep_view() =~= keep_first(table.take(0), key));
        while i < self.inner.len()
            invariant
                i <= self.inner@.len(),
                table == self.inner.deep_view(),
                key == transaction_key(),
                batch_conforms(table),
                kept.deep_view() == keep_first(table.take(i as int), key),
                batch_conforms(kept.deep_view()),
            decreases self.inner@.len() - i,
        {
            let mut seen = false;
            let mut j: usize = 0;
            while j < i && !seen
                invariant
                    j <= i < self.inner@.len(),
                    table == self.inner.deep_view(),
                    key == transaction_key(),
                    !seen ==> forall|k: int| 0 <= k < j ==> #[trigger] key(table[k]) != key(table[i as int]),
                    seen ==> seen_before(table, key, i as int),
                decreases i - j,
            {
                if same_transaction(&self.inner[j], &self.inner[i]) {
                    assert(key(table[j as int]) == key(table[i as int]));
                    seen = true;
                }
                j += 1;
            }
            proof {
                lemma_keep_first_step(table, key, i as int);
            }
            if !seen {
                let ghost before = kept.deep_view();
                let row = self.inner[i].clone();
                kept.push(row);
                assert(kept.deep_view() =~= before.push(table[i as int]));
            }
            i += 1;
        }
        assert(table.take(table.len() as int) =~= table);
        proof {
            lemma_keep_first_distinct(table, key);
        }
        self.inner = kept;
    }

    /// Hands the table over and ends the aggregate.
    pub fn done(self) -> (r: Vec<CanonicalRow>)
        ensures
            r.deep_view() == self@,
            batch_conforms(r.deep_view()),
    {
        proof {
            use_type_invariant(&self);
        }
        self.inner
    }
}

} // verus!
