use std::collections::HashMap;
use std::collections::VecDeque;

use dataflow_domain::broadcast::broadcast;
use dataflow_domain::node::{materialize, NodeDescriptor, Operator, Outgoing, Role, StepError};
use dataflow_domain::record::{duplicate_row, DataType, Message, Record, Update};
use dataflow_domain::store::Materialized;

struct Echo;

impl Operator for Echo {
    fn process(&mut self, m: Message) -> Option<Update> {
        Some(m.data)
    }
}

struct Silent;

impl Operator for Silent {
    fn process(&mut self, _m: Message) -> Option<Update> {
        None
    }
}

fn nothing() -> Outgoing {
    Outgoing { sends: vec![], held: None }
}

/// Runs a sink until its queue is empty, as its caller does, collecting the sends.
fn run_sink(node: &mut NodeDescriptor<Echo>, h: &mut HashMap<usize, VecDeque<Message>>, outputs: usize) -> Vec<(usize, Message)> {
    let mut state = HashMap::new();
    let mut all = vec![];
    let mut delivered = None;
    loop {
        let out = node.iterate(h, &mut state, delivered.take(), outputs).unwrap();
        if out.sends.is_empty() {
            assert!(out.held.is_none());
            return all;
        }
        all.extend(out.sends);
        delivered = out.held;
    }
}

fn row(a: i64, b: &str) -> Vec<DataType> {
    vec![DataType::Number(a), DataType::Text(b.to_string())]
}

fn msg(from: usize, records: Vec<Record>) -> Message {
    Message { from, data: Update::Records(records) }
}

fn queues(ids: &[usize]) -> HashMap<usize, VecDeque<Message>> {
    let mut h = HashMap::new();
    for &i in ids {
        h.insert(i, VecDeque::new());
    }
    h
}

#[test]
fn insert_twice_delete_once_leaves_one_copy() {
    let mut st = Materialized::new(2);
    let r1 = row(1, "a");
    let rs = vec![
        Record::Positive(r1.clone(), 1),
        Record::Positive(r1.clone(), 1),
        Record::Negative(r1.clone(), 1),
    ];
    st.apply(&rs);
    assert_eq!(st.count(&r1), 1);
    assert_eq!(st.count(&row(2, "a")), 0);
}

#[test]
fn negative_record_removes_one_of_two_duplicates() {
    let mut st = Materialized::new(2);
    let r = row(7, "x");
    st.insert(r.clone());
    st.insert(r.clone());
    st.insert(row(8, "x"));
    assert_eq!(st.count(&r), 2);
    st.apply(&vec![Record::Negative(r.clone(), 1)]);
    assert_eq!(st.count(&r), 1);
    assert_eq!(st.count(&row(8, "x")), 1);
}

#[test]
fn delete_of_absent_row_changes_nothing() {
    let mut st = Materialized::new(2);
    st.insert(row(1, "a"));
    st.delete_one(&row(1, "b"));
    assert_eq!(st.count(&row(1, "a")), 1);
    st.delete_one(&row(1, "a"));
    assert_eq!(st.count(&row(1, "a")), 0);
}

#[test]
fn new_store_is_empty_with_given_columns() {
    let st = Materialized::new(3);
    assert_eq!(st.columns(), 3);
    let r = vec![DataType::Null, DataType::Number(0), DataType::Text(String::new())];
    assert_eq!(st.count(&r), 0);
}

#[test]
fn silent_operator_touches_neither_store_nor_children() {
    let mut node = NodeDescriptor { index: 1, inner: Role::Internal(Silent), children: vec![2, 3] };
    let mut h = queues(&[1, 2, 3]);
    h.get_mut(&1).unwrap().push_back(msg(0, vec![Record::Positive(row(1, "a"), 1)]));
    let mut state = HashMap::new();
    let mut st = Materialized::new(2);
    st.insert(row(5, "z"));
    state.insert(1, st);
    let r = node.iterate(&mut h, &mut state, None, 0);
    assert_eq!(r, Ok(nothing()));
    assert!(h[&1].is_empty());
    assert!(h[&2].is_empty());
    assert!(h[&3].is_empty());
    assert_eq!(state[&1].count(&row(5, "z")), 1);
    assert_eq!(state[&1].count(&row(1, "a")), 0);
}

#[test]
fn sink_with_two_channels_and_no_children_sends_twice() {
    let mut node: NodeDescriptor<Echo> = NodeDescriptor { index: 4, inner: Role::Sink, children: vec![] };
    let mut h = queues(&[4]);
    let m = msg(3, vec![Record::Positive(row(1, "a"), 1)]);
    h.get_mut(&4).unwrap().push_back(m.clone());
    let mut state = HashMap::new();
    let out = node.iterate(&mut h, &mut state, None, 2).unwrap();
    assert_eq!(out.sends.len(), 2);
    assert_eq!(out.sends[0], (0, m.clone()));
    assert_eq!(out.sends[1], (1, m));
    assert_eq!(out.held, None);
    assert!(h[&4].is_empty());
    assert_eq!(node.iterate(&mut h, &mut state, None, 2), Ok(nothing()));
}

#[test]
fn sink_keeps_order_to_channels_and_children() {
    let mut node: NodeDescriptor<Echo> = NodeDescriptor { index: 4, inner: Role::Sink, children: vec![5] };
    let mut h = queues(&[4, 5]);
    let ms: Vec<Message> = (0..3).map(|i| msg(3, vec![Record::Positive(row(i, "s"), 1)])).collect();
    for m in &ms {
        h.get_mut(&4).unwrap().push_back(m.clone());
    }
    let sends = run_sink(&mut node, &mut h, 2);
    let expected: Vec<(usize, Message)> = ms.iter().flat_map(|m| vec![(0, m.clone()), (1, m.clone())]).collect();
    assert_eq!(sends, expected);
    assert_eq!(h[&5].iter().cloned().collect::<Vec<_>>(), ms);
    assert!(h[&4].is_empty());
}

#[test]
fn internal_node_keeps_order_and_tags_origin() {
    let mut node = NodeDescriptor { index: 1, inner: Role::Internal(Echo), children: vec![2, 3] };
    let mut h = queues(&[1, 2, 3]);
    for i in 0..3 {
        h.get_mut(&1).unwrap().push_back(msg(0, vec![Record::Positive(row(i, "q"), 1)]));
    }
    let mut state = HashMap::new();
    let r = node.iterate(&mut h, &mut state, None, 0);
    assert_eq!(r, Ok(nothing()));
    for c in [2usize, 3] {
        let got: Vec<Message> = h[&c].iter().cloned().collect();
        let want: Vec<Message> = (0..3).map(|i| msg(1, vec![Record::Positive(row(i, "q"), 1)])).collect();
        assert_eq!(got, want);
    }
    assert!(h[&1].is_empty());
}

#[test]
fn internal_node_maintains_its_store() {
    let mut node = NodeDescriptor { index: 1, inner: Role::Internal(Echo), children: vec![2] };
    let mut h = queues(&[1, 2]);
    h.get_mut(&1).unwrap().push_back(msg(0, vec![Record::Positive(row(1, "a"), 1), Record::Positive(row(1, "a"), 1)]));
    h.get_mut(&1).unwrap().push_back(msg(0, vec![Record::Negative(row(1, "a"), 1)]));
    let mut state = HashMap::new();
    state.insert(1, Materialized::new(2));
    assert_eq!(node.iterate(&mut h, &mut state, None, 0), Ok(nothing()));
    assert_eq!(state[&1].count(&row(1, "a")), 1);
    assert_eq!(h[&2].len(), 2);
}

#[test]
fn internal_node_refuses_rows_of_wrong_length() {
    let mut node = NodeDescriptor { index: 1, inner: Role::Internal(Echo), children: vec![2] };
    let mut h = queues(&[1, 2]);
    h.get_mut(&1).unwrap().push_back(msg(0, vec![Record::Positive(vec![DataType::Number(1)], 1)]));
    let mut state = HashMap::new();
    state.insert(1, Materialized::new(2));
    assert_eq!(node.iterate(&mut h, &mut state, None, 0), Err(StepError::ArityMismatch));
    assert!(h[&2].is_empty());
    assert_eq!(state[&1].count(&row(1, "a")), 0);
}

#[test]
fn source_fans_out_to_every_child() {
    let mut node: NodeDescriptor<Echo> = NodeDescriptor { index: 0, inner: Role::Source, children: vec![1, 2, 3] };
    let mut h = queues(&[0, 1, 2, 3, 9]);
    let m = msg(7, vec![Record::Negative(row(2, "b"), 3)]);
    let mut state = HashMap::new();
    assert_eq!(node.iterate(&mut h, &mut state, Some(m.clone()), 0), Ok(nothing()));
    let total: usize = [1usize, 2, 3].iter().map(|c| h[c].len()).sum();
    assert_eq!(total, 3);
    for c in [1usize, 2, 3] {
        assert_eq!(h[&c][0], m);
    }
    assert!(h[&0].is_empty());
    assert!(h[&9].is_empty());
}

#[test]
fn broadcast_to_no_children_drops_the_message() {
    let mut h = queues(&[1]);
    broadcast(&mut h, msg(0, vec![]), &vec![]);
    assert!(h[&1].is_empty());
}

#[test]
fn materialize_without_store_hands_delta_back() {
    let mut state = HashMap::new();
    let u = Update::Records(vec![Record::Positive(row(1, "a"), 1)]);
    assert_eq!(materialize(1, Some(u.clone()), &mut state), Ok(Some(u)));
    assert_eq!(materialize(1, None, &mut state), Ok(None));
    assert!(state.is_empty());
}

#[test]
fn row_copy_is_equal() {
    let r = row(3, "copy");
    assert_eq!(duplicate_row(&r), r);
    let m = msg(2, vec![Record::Negative(r.clone(), -1)]);
    assert_eq!(m.duplicate(), m);
    assert_eq!(DataType::Text("t".to_string()).duplicate(), DataType::Text("t".to_string()));
}

#[test]
fn sink_forwards_to_children_only_after_the_sends() {
    let mut node: NodeDescriptor<Echo> = NodeDescriptor { index: 4, inner: Role::Sink, children: vec![5] };
    let mut h = queues(&[4, 5]);
    let m1 = msg(3, vec![Record::Positive(row(1, "a"), 1)]);
    let m2 = msg(3, vec![Record::Positive(row(2, "b"), 1)]);
    h.get_mut(&4).unwrap().push_back(m1.clone());
    h.get_mut(&4).unwrap().push_back(m2.clone());
    let mut state = HashMap::new();
    let out = node.iterate(&mut h, &mut state, None, 1).unwrap();
    assert_eq!(out.sends, vec![(0, m1.clone())]);
    assert_eq!(out.held, Some(m1.clone()));
    assert!(h[&5].is_empty());
    assert_eq!(h[&4].len(), 1);
    let out = node.iterate(&mut h, &mut state, out.held, 1).unwrap();
    assert_eq!(out.sends, vec![(0, m2.clone())]);
    assert_eq!(h[&5].iter().cloned().collect::<Vec<_>>(), vec![m1]);
    assert!(h[&4].is_empty());
}

#[test]
fn internal_node_with_empty_queue_does_nothing() {
    let mut node = NodeDescriptor { index: 1, inner: Role::Internal(Echo), children: vec![2] };
    let mut h = queues(&[1, 2]);
    let mut state = HashMap::new();
    state.insert(1, Materialized::new(2));
    assert_eq!(node.iterate(&mut h, &mut state, None, 0), Ok(nothing()));
    assert!(h[&2].is_empty());
}
