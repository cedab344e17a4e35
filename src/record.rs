//! Values, change records, deltas and messages that flow between nodes.
use vstd::prelude::*;

verus! {

/// One typed value of a row.
#[derive(Clone, Debug, PartialEq, Eq, PartialOrd, Ord, Hash)]
pub enum DataType {
    Null,
    Number(i64),
    Text(String),
}

impl DataType {
    /// An independent copy of this value.
    pub fn duplicate(&self) -> (r: DataType)
        ensures
            r == *self,
    {
        match self {
            DataType::Null => DataType::Null,
            DataType::Number(n) => DataType::Number(*n),
            DataType::Text(s) => DataType::Text(s.clone()),
        }
    }
}

/// An independent copy of a row, value by value.
pub fn duplicate_row(row: &Vec<DataType>) -> (r: Vec<DataType>)
    ensures
        r@ == row@,
{
    let mut r: Vec<DataType> = Vec::with_capacity(row.len());
    let mut i: usize = 0;
    while i < row.len()
        invariant
            i <= row@.len(),
            r@ == row@.subrange(0, i as int),
        decreases row@.len() - i,
    {
        r.push(row[i].duplicate());
        i = i + 1;
    }
    assert(r@ =~= row@);
    r
}

/// A signed change record: a row to add or a row to remove, with a weight.
#[derive(Clone, Debug, PartialEq, Eq)]
pub enum Record {
    Positive(Vec<DataType>, i64),
    Negative(Vec<DataType>, i64),
}

/// What a record stands for: whether it adds, the row, and the weight.
pub type RecordView = (bool, Seq<DataType>, i64);

impl View for Record {
    type V = RecordView;

    open spec fn view(&self) -> RecordView {
        match self {
            Record::Positive(row, w) => (true, row@, *w),
            Record::Negative(row, w) => (false, row@, *w),
        }
    }
}

impl Record {
    /// The row this record adds or removes.
    pub fn row(&self) -> (r: &Vec<DataType>)
        ensures
            r@ == self@.1,
    {
        match self {
            Record::Positive(row, _) => row,
            Record::Negative(row, _) => row,
        }
    }

    /// An independent copy of this record.
    pub fn duplicate(&self) -> (r: Record)
        ensures
            r@ == self@,
    {
        match self {
            Record::Positive(row, w) => Record::Positive(duplicate_row(row), *w),
            Record::Negative(row, w) => Record::Negative(duplicate_row(row), *w),
        }
    }
}

/// A delta: the signed change records a node's output went through.
#[derive(Clone, Debug, PartialEq, Eq)]
pub enum Update {
    Records(Vec<Record>),
}

/// The records of a delta, in order.
pub open spec fn records_view(rs: Seq<Record>) -> Seq<RecordView> {
    rs.map_values(|r: Record| r@)
}

impl View for Update {
    type V = Seq<RecordView>;

    open spec fn view(&self) -> Seq<RecordView> {
        match self {
            Update::Records(rs) => records_view(rs@),
        }
    }
}

impl Update {
    /// An independent copy of this delta.
    pub fn duplicate(&self) -> (r: Update)
        ensures
            r@ == self@,
    {
        match self {
            Update::Records(rs) => {
                let mut out: Vec<Record> = Vec::with_capacity(rs.len());
                let mut i: usize = 0;
                while i < rs.len()
                    invariant
                        i <= rs@.len(),
                        records_view(out@) == records_view(rs@.subrange(0, i as int)),
                    decreases rs@.len() - i,
                {
                    let c = rs[i].duplicate();
                    proof {
                        assert(rs@.subrange(0, i + 1) =~= rs@.subrange(0, i as int).push(rs@[i as int]));
                        assert(records_view(out@.push(c)) =~= records_view(out@).push(c@));
                        assert(records_view(rs@.subrange(0, i + 1)) =~= records_view(rs@.subrange(0, i as int)).push(rs@[i as int]@));
                    }
                    out.push(c);
                    i = i + 1;
                }
                assert(rs@.subrange(0, rs@.len() as int) =~= rs@);
                Update::Records(out)
            },
        }
    }
}

/// A delta on its way from the node `from` to one of that node's children.
#[derive(Clone, Debug, PartialEq, Eq)]
pub struct Message {
    pub from: usize,
    pub data: Update,
}

/// What a message stands for: its origin and its records.
pub type MessageView = (usize, Seq<RecordView>);

impl View for Message {
    type V = MessageView;

    open spec fn view(&self) -> MessageView {
        (self.from, self.data@)
    }
}

impl Message {
    /// An independent copy of this message, equal to it in origin and records.
    pub fn duplicate(&self) -> (r: Message)
        ensures
            r@ == self@,
    {
        Message { from: self.from, data: self.data.duplicate() }
    }
}

/// The messages of a queue or a list, as views, in order.
pub open spec fn messages_view(ms: Seq<Message>) -> Seq<MessageView> {
    ms.map_values(|m: Message| m@)
}

} // verus!
