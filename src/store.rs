//! A node's materialized rows: a bag of rows kept in a `shortcut::Store`,
//! changed by the records of the node's deltas.
use vstd::prelude::*;
use vstd::multiset::Multiset;
use crate::record::{DataType, Record, RecordView, records_view};

verus! {

#[verifier::external_type_specification]
#[verifier::external_body]
#[verifier::reject_recursive_types(T)]
#[verifier::reject_recursive_types(C)]
pub struct ExStore<T, C>(shortcut::Store<T, C>);

/// The rows a store holds, with their multiplicities.
pub uninterp spec fn stored_rows(s: shortcut::Store<DataType, Vec<DataType>>) -> Multiset<Seq<DataType>>;

/// The number of columns a store was made with.
pub uninterp spec fn store_columns(s: shortcut::Store<DataType, Vec<DataType>>) -> nat;

/// Relies on `shortcut::Store::new`: a store with no rows, made for `cols` columns.
#[verifier::external_body]
fn store_new(cols: usize) -> (r: shortcut::Store<DataType, Vec<DataType>>)
    ensures
        stored_rows(r) =~= Multiset::empty(),
        store_columns(r) == cols,
{
    shortcut::Store::new(cols)
}

/// Relies on `shortcut::Store::insert`: the row is added as one more row; a
/// debug assertion refuses a row of another column count.
#[verifier::external_body]
fn store_insert(s: &mut shortcut::Store<DataType, Vec<DataType>>, row: Vec<DataType>)
    requires
        row@.len() == store_columns(*old(s)),
    ensures
        stored_rows(*final(s)) == stored_rows(*old(s)).insert(row@),
        store_columns(*final(s)) == store_columns(*old(s)),
{
    s.insert(row)
}

/// The filter handed to `delete_filter`: true on its first call only.
pub(crate) fn accept_first(first: &mut bool) -> (r: bool)
    ensures
        r == *old(first),
        !*final(first),
{
    let r = *first;
    *first = false;
    r
}

/// Relies on `shortcut::Store::delete_filter`, given one equality condition per
/// column of `row`: with no index the rows are scanned in insertion order, each
/// row that meets every condition is offered to the filter, and the rows the
/// filter accepts are removed. The filter accepts the first offer only, so one
/// row equal to `row` leaves, if any is stored.
#[verifier::external_body]
fn store_delete_one(s: &mut shortcut::Store<DataType, Vec<DataType>>, row: &Vec<DataType>)
    requires
        forall|x: Seq<DataType>| stored_rows(*old(s)).count(x) > 0 ==> x.len() == row@.len(),
    ensures
        stored_rows(*final(s)) == remove_one(stored_rows(*old(s)), row@),
        store_columns(*final(s)) == store_columns(*old(s)),
{
    let conds = row.iter().enumerate().map(|(column, v)| shortcut::Condition {
        column,
        cmp: shortcut::Comparison::Equal(shortcut::Value::using(v)),
    }).collect::<Vec<_>>();
    let mut first = true;
    s.delete_filter(&conds[..], |_| accept_first(&mut first));
}

/// Relies on `shortcut::Store::find`, given one equality condition per column
/// of `row`: it yields each stored row that meets every condition.
#[verifier::external_body]
fn store_count(s: &shortcut::Store<DataType, Vec<DataType>>, row: &Vec<DataType>) -> (r: usize)
    requires
        forall|x: Seq<DataType>| stored_rows(*s).count(x) > 0 ==> x.len() == row@.len(),
    ensures
        r == stored_rows(*s).count(row@),
{
    let conds = row.iter().enumerate().map(|(column, v)| shortcut::Condition {
        column,
        cmp: shortcut::Comparison::Equal(shortcut::Value::using(v)),
    }).collect::<Vec<_>>();
    s.find(&conds[..]).count()
}

/// The bag after removing one copy of `row`, if it holds one.
pub open spec fn remove_one(ms: Multiset<Seq<DataType>>, row: Seq<DataType>) -> Multiset<Seq<DataType>> {
    if ms.count(row) > 0 {
        ms.remove(row)
    } else {
        ms
    }
}

/// The bag after one record: a positive record adds its row, a negative one
/// removes one copy of its row.
pub open spec fn apply_record(ms: Multiset<Seq<DataType>>, r: RecordView) -> Multiset<Seq<DataType>> {
    if r.0 {
        ms.insert(r.1)
    } else {
        remove_one(ms, r.1)
    }
}

/// The bag after the records of a delta, taken in order.
pub open spec fn apply_records(ms: Multiset<Seq<DataType>>, rs: Seq<RecordView>) -> Multiset<Seq<DataType>>
    decreases rs.len(),
{
    if rs.len() == 0 {
        ms
    } else {
        apply_record(apply_records(ms, rs.drop_last()), rs.last())
    }
}

/// Applying two runs of records one after the other is applying the run
/// that joins them.
pub proof fn lemma_apply_records_concat(ms: Multiset<Seq<DataType>>, a: Seq<RecordView>, b: Seq<RecordView>)
    ensures
        apply_records(ms, a + b) == apply_records(apply_records(ms, a), b),
    decreases b.len(),
{
    if b.len() == 0 {
        assert(a + b =~= a);
    } else {
        lemma_apply_records_concat(ms, a, b.drop_last());
        assert((a + b).drop_last() =~= a + b.drop_last());
        assert((a + b).last() == b.last());
    }
}

/// Whether every record's row has `columns` values.
pub open spec fn rows_fit(rs: Seq<RecordView>, columns: nat) -> bool {
    forall|i: int| 0 <= i < rs.len() ==> #[trigger] rs[i].1.len() == columns
}

/// Two inserts of a row and one delete of it leave one more copy of the row
/// than there was before.
pub proof fn lemma_insert_twice_delete_once(ms: Multiset<Seq<DataType>>, row: Seq<DataType>, w1: i64, w2: i64, w3: i64)
    ensures
        apply_records(ms, seq![(true, row, w1), (true, row, w2), (false, row, w3)]) == ms.insert(row),
{
    let rs = seq![(true, row, w1), (true, row, w2), (false, row, w3)];
    assert(rs.drop_last().drop_last().drop_last() =~= Seq::<RecordView>::empty());
    assert(rs.drop_last().drop_last() =~= seq![(true, row, w1)]);
    assert(rs.drop_last() =~= seq![(true, row, w1), (true, row, w2)]);
    assert(apply_records(ms, rs.drop_last().drop_last().drop_last()) == ms);
    assert(rs.drop_last().drop_last().last() == (true, row, w1));
    assert(apply_records(ms, rs.drop_last().drop_last()) == ms.insert(row));
    assert(rs.drop_last().last() == (true, row, w2));
    assert(apply_records(ms, rs.drop_last()) == ms.insert(row).insert(row));
    assert(rs.last() == (false, row, w3));
    assert(ms.insert(row).insert(row).count(row) > 0);
    assert(ms.insert(row).insert(row).remove(row) =~= ms.insert(row));
}

/// Of two equal stored rows, one negative record for their value removes
/// exactly one and leaves every other row as it was.
pub proof fn lemma_delete_one_of_duplicates(ms: Multiset<Seq<DataType>>, row: Seq<DataType>, w: i64)
    requires
        ms.count(row) == 2,
    ensures
        apply_records(ms, seq![(false, row, w)]).count(row) == 1,
        forall|x: Seq<DataType>| x != row ==> apply_records(ms, seq![(false, row, w)]).count(x) == ms.count(x),
{
    let rs = seq![(false, row, w)];
    assert(rs.drop_last() =~= Seq::<RecordView>::empty());
    assert(apply_records(ms, rs.drop_last()) == ms);
    assert(rs.last() == (false, row, w));
    assert(apply_records(ms, rs) == ms.remove(row));
}

/// The materialized rows of one node: a bag of rows of a fixed column count.
pub struct Materialized {
    columns: usize,
    store: shortcut::Store<DataType, Vec<DataType>>,
}

impl Materialized {
    /// The rows held, with their multiplicities.
    pub closed spec fn rows(&self) -> Multiset<Seq<DataType>> {
        stored_rows(self.store)
    }

    /// The column count of every row held.
    pub closed spec fn arity(&self) -> nat {
        self.columns as nat
    }

    /// The store matches the column count, and every row held has that many columns.
    pub closed spec fn wf(&self) -> bool {
        &&& store_columns(self.store) == self.columns
        &&& forall|x: Seq<DataType>| stored_rows(self.store).count(x) > 0 ==> x.len() == self.columns
    }

    /// Every row held has `arity()` columns.
    pub proof fn lemma_rows_have_arity(&self, x: Seq<DataType>)
        requires
            self.wf(),
            self.rows().count(x) > 0,
        ensures
            x.len() == self.arity(),
    {
    }

    /// An empty bag of rows with `columns` columns each.
    pub fn new(columns: usize) -> (r: Materialized)
        ensures
            r.wf(),
            r.rows() =~= Multiset::empty(),
            r.arity() == columns,
    {
        Materialized { columns, store: store_new(columns) }
    }

    /// The column count of the rows.
    pub fn columns(&self) -> (r: usize)
        ensures
            r == self.arity(),
    {
        self.columns
    }

    /// Adds one copy of `row`; duplicates are kept.
    pub fn insert(&mut self, row: Vec<DataType>)
        requires
            old(self).wf(),
            row@.len() == old(self).arity(),
        ensures
            final(self).wf(),
            final(self).arity() == old(self).arity(),
            final(self).rows() == old(self).rows().insert(row@),
    {
        store_insert(&mut self.store, row);
    }

    /// Removes one copy of `row`, if one is held.
    pub fn delete_one(&mut self, row: &Vec<DataType>)
        requires
            old(self).wf(),
            row@.len() == old(self).arity(),
        ensures
            final(self).wf(),
            final(self).arity() == old(self).arity(),
            final(self).rows() == remove_one(old(self).rows(), row@),
    {
        store_delete_one(&mut self.store, row);
    }

    /// How many copies of `row` are held.
    pub fn count(&self, row: &Vec<DataType>) -> (r: usize)
        requires
            self.wf(),
            row@.len() == self.arity(),
        ensures
            r == self.rows().count(row@),
    {
        store_count(&self.store, row)
    }

    /// Applies the records in order: a positive record inserts its row, a
    /// negative one deletes one copy of its row.
    pub fn apply(&mut self, records: &Vec<Record>)
        requires
            old(self).wf(),
            rows_fit(records_view(records@), old(self).arity()),
        ensures
            final(self).wf(),
            final(self).arity() == old(self).arity(),
            final(self).rows() == apply_records(old(self).rows(), records_view(records@)),
    {
        let ghost start = self.rows();
        let mut i: usize = 0;
        while i < records.len()
            invariant
                0 <= i <= records@.len(),
                self.wf(),
                self.arity() == old(self).arity(),
                start == old(self).rows(),
                rows_fit(records_view(records@), old(self).arity()),
                self.rows() == apply_records(start, records_view(records@).subrange(0, i as int)),
            decreases records@.len() - i,
        {
            let rec = &records[i];
            proof {
                let rv = records_view(records@);
                assert(rv.subrange(0, i + 1).drop_last() =~= rv.subrange(0, i as int));
                assert(rv[i as int] == rec@);
                assert(rec@.1.len() == old(self).arity());
            }
            match rec {
                Record::Positive(row, _) => {
                    self.insert(crate::record::duplicate_row(row));
                },
                Record::Negative(row, _) => {
                    self.delete_one(row);
                },
            }
            i = i + 1;
        }
        assert(records_view(records@).subrange(0, records@.len() as int) =~= records_view(records@));
    }
}

} // verus!
