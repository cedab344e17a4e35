//! A node of the dataflow graph and the step it takes each time it is scheduled.
use std::collections::HashMap;
use std::collections::VecDeque;
use vstd::prelude::*;
use vstd::multiset::Multiset;
use crate::record::{DataType, Message, MessageView, Record, RecordView, Update, records_view};
use crate::store::{Materialized, apply_records, rows_fit, lemma_apply_records_concat};
use crate::broadcast::{broadcast, dequeue, queue};
use crate::record::messages_view;

verus! {

broadcast use vstd::std_specs::hash::group_hash_axioms;

/// The transformation an internal node applies to each message it receives.
pub trait Operator {
    /// The delta of the node's output caused by `m`, or `None` when the output
    /// did not change.
    fn process(&mut self, m: Message) -> Option<Update>;
}

/// What a node does; fixed when the node is made.
pub enum Role<O> {
    /// Takes messages from one channel outside the graph.
    Source,
    /// Hands messages to channels outside the graph, and to its children.
    Sink,
    /// Transforms messages with its operator.
    Internal(O),
}

/// Why a step could not go through.
#[derive(Debug, PartialEq, Eq, Structural)]
pub enum StepError {
    /// A record of the operator's output has a row whose length is not the
    /// column count of the node's materialized rows.
    ArityMismatch,
}

/// A node: its identity, its role and its children, in order.
pub struct NodeDescriptor<O> {
    pub index: usize,
    pub inner: Role<O>,
    pub children: Vec<usize>,
}

/// The sends as channel positions and message views.
pub open spec fn sends_view(s: Seq<(usize, Message)>) -> Seq<(usize, MessageView)> {
    s.map_values(|p: (usize, Message)| (p.0, p.1@))
}

/// One send of `m` to each of the channels `0 .. outputs`, in that order.
pub open spec fn copies_for(m: MessageView, outputs: nat) -> Seq<(usize, MessageView)> {
    Seq::new(outputs, |t: int| (t as usize, m))
}

/// The records of the messages `out`, message after message.
pub open spec fn records_of(out: Seq<MessageView>) -> Seq<RecordView>
    decreases out.len(),
{
    if out.len() == 0 {
        Seq::empty()
    } else {
        records_of(out.drop_last()) + out.last().1
    }
}

/// The message `m`, if there is one, as a run of views.
pub open spec fn opt_view(m: Option<Message>) -> Seq<MessageView> {
    match m {
        Some(m) => seq![m@],
        None => Seq::empty(),
    }
}

/// The message that carries the delta `u` from node `index`, if there is a delta.
pub open spec fn delta_out(index: usize, u: Option<Update>) -> Seq<MessageView> {
    match u {
        Some(d) => seq![(index, d@)],
        None => Seq::empty(),
    }
}

/// Each child's queue in `new` is its queue in `old` followed by `out`.
pub open spec fn children_got(old_h: Map<usize, VecDeque<Message>>, new_h: Map<usize, VecDeque<Message>>, children: Seq<usize>, out: Seq<MessageView>) -> bool {
    forall|k: usize| #[trigger] children.contains(k) ==> queue(new_h, k) == queue(old_h, k) + out
}

/// `new` has the queues of `old`, and those of nodes other than `index` and its
/// children are as they were.
pub open spec fn others_kept(old_h: Map<usize, VecDeque<Message>>, new_h: Map<usize, VecDeque<Message>>, index: usize, children: Seq<usize>) -> bool {
    &&& new_h.dom() == old_h.dom()
    &&& forall|k: usize| old_h.contains_key(k) && k != index && !children.contains(k) ==> #[trigger] new_h[k] == old_h[k]
}

/// At most `n` messages, each from node `index`.
pub open spec fn emitted_by(out: Seq<MessageView>, index: usize, n: nat) -> bool {
    &&& out.len() <= n
    &&& forall|i: int| 0 <= i < out.len() ==> (#[trigger] out[i]).0 == index
}

/// How many messages the queues of `children` gained from `old_h` to `new_h`, in all.
pub open spec fn gained(old_h: Map<usize, VecDeque<Message>>, new_h: Map<usize, VecDeque<Message>>, children: Seq<usize>) -> int
    decreases children.len(),
{
    if children.len() == 0 {
        0
    } else {
        gained(old_h, new_h, children.drop_last()) + new_h[children.last()]@.len() - old_h[children.last()]@.len()
    }
}

/// When each of `children` gets one message, the children's queues gain as
/// many messages as there are children.
pub proof fn lemma_fan_out_count(old_h: Map<usize, VecDeque<Message>>, new_h: Map<usize, VecDeque<Message>>, children: Seq<usize>, m: MessageView)
    requires
        children_got(old_h, new_h, children, seq![m]),
    ensures
        gained(old_h, new_h, children) == children.len(),
    decreases children.len(),
{
    if children.len() > 0 {
        let rest = children.drop_last();
        assert forall|k: usize| #[trigger] rest.contains(k) implies queue(new_h, k) == queue(old_h, k) + seq![m] by {
            let t = choose|t: int| 0 <= t < rest.len() && rest[t] == k;
            assert(children[t] == k);
            assert(children.contains(k));
        }
        lemma_fan_out_count(old_h, new_h, rest, m);
        let last = children.last();
        assert(children[children.len() - 1] == last);
        assert(children.contains(last));
        assert(queue(new_h, last) == queue(old_h, last) + seq![m]);
        assert(messages_view(new_h[last]@).len() == new_h[last]@.len());
        assert(messages_view(old_h[last]@).len() == old_h[last]@.len());
    }
}

/// When no delta went out, the children's queues hold what they held, and
/// rows that went through the records of the deltas are as they were.
pub proof fn lemma_no_delta_no_change(old_h: Map<usize, VecDeque<Message>>, new_h: Map<usize, VecDeque<Message>>, children: Seq<usize>, ms: Multiset<Seq<DataType>>)
    requires
        children_got(old_h, new_h, children, Seq::empty()),
    ensures
        forall|k: usize| #[trigger] children.contains(k) ==> queue(new_h, k) == queue(old_h, k),
        apply_records(ms, records_of(Seq::empty())) == ms,
{
    assert forall|k: usize| #[trigger] children.contains(k) implies queue(new_h, k) == queue(old_h, k) by {
        assert(queue(old_h, k) + Seq::<MessageView>::empty() =~= queue(old_h, k));
    }
}

/// Every materialized store in the map is well formed.
pub open spec fn states_wf(s: Map<usize, Materialized>) -> bool {
    forall|k: usize| #[trigger] s.contains_key(k) ==> s[k].wf()
}

/// Whether every record of `rs` has a row of `columns` values.
fn records_fit(rs: &Vec<Record>, columns: usize) -> (r: bool)
    ensures
        r == rows_fit(records_view(rs@), columns as nat),
{
    let mut i: usize = 0;
    while i < rs.len()
        invariant
            i <= rs@.len(),
            forall|j: int| 0 <= j < i ==> #[trigger] records_view(rs@)[j].1.len() == columns,
        decreases rs@.len() - i,
    {
        if rs[i].row().len() != columns {
            assert(records_view(rs@)[i as int].1.len() != columns);
            return false;
        }
        i = i + 1;
    }
    true
}

/// Brings the materialized rows of node `index` up to date with the delta `u`
/// that the node's operator produced, and hands `u` back unchanged.
///
/// No delta changes nothing. A node without materialized rows changes nothing.
/// A delta with a row of the wrong length is refused and changes nothing.
/// Otherwise the records are applied in order.
pub fn materialize(index: usize, u: Option<Update>, state: &mut HashMap<usize, Materialized>) -> (r: Result<Option<Update>, StepError>)
    requires
        states_wf(old(state)@),
    ensures
        states_wf(final(state)@),
        final(state)@.dom() == old(state)@.dom(),
        forall|k: usize| k != index && #[trigger] old(state)@.contains_key(k) ==> final(state)@[k] == old(state)@[k],
        match u {
            None => r == Ok::<Option<Update>, StepError>(None) && final(state)@ == old(state)@,
            Some(d) => if !old(state)@.contains_key(index) {
                r == Ok::<Option<Update>, StepError>(u) && final(state)@ == old(state)@
            } else if !rows_fit(d@, old(state)@[index].arity()) {
                r == Err::<Option<Update>, StepError>(StepError::ArityMismatch) && final(state)@ == old(state)@
            } else {
                &&& r == Ok::<Option<Update>, StepError>(u)
                &&& final(state)@[index].arity() == old(state)@[index].arity()
                &&& final(state)@[index].rows() == apply_records(old(state)@[index].rows(), d@)
            },
        },
{
    match u {
        None => Ok(None),
        Some(d) => {
            match state.remove(&index) {
                None => Ok(Some(d)),
                Some(st) => {
                    let mut st = st;
                    let fits = match &d {
                        Update::Records(rs) => records_fit(rs, st.columns()),
                    };
                    if !fits {
                        state.insert(index, st);
                        assert(final(state)@ =~= old(state)@);
                        return Err(StepError::ArityMismatch);
                    }
                    match &d {
                        Update::Records(rs) => st.apply(rs),
                    }
                    state.insert(index, st);
                    assert(final(state)@.dom() =~= old(state)@.dom());
                    Ok(Some(d))
                },
            }
        },
    }
}

impl<O> NodeDescriptor<O> {
    /// The queues hold this node and its children; the children are distinct
    /// and do not include the node itself. The children are the node's
    /// successors in the graph, each listed once, and the graph has no cycle.
    pub open spec fn fits(&self, h: Map<usize, VecDeque<Message>>) -> bool {
        &&& h.contains_key(self.index)
        &&& self.children@.no_duplicates()
        &&& !self.children@.contains(self.index)
        &&& forall|i: int| 0 <= i < self.children@.len() ==> h.contains_key(#[trigger] self.children@[i])
    }
}

impl<O: Operator> NodeDescriptor<O> {
    /// Feeds `m` to this internal node's operator and brings the node's
    /// materialized rows up to date with the delta it returns (see
    /// `materialize`), which is handed back.
    pub fn process_one(&mut self, m: Message, state: &mut HashMap<usize, Materialized>) -> (r: Result<Option<Update>, StepError>)
        requires
            old(self).inner is Internal,
            states_wf(old(state)@),
        ensures
            final(self).index == old(self).index,
            final(self).children@ == old(self).children@,
            final(self).inner is Internal,
            states_wf(final(state)@),
            final(state)@.dom() == old(state)@.dom(),
            forall|k: usize| k != old(self).index && #[trigger] old(state)@.contains_key(k) ==> final(state)@[k] == old(state)@[k],
            r == Ok::<Option<Update>, StepError>(None) ==> final(state)@ == old(state)@,
            r is Err ==> final(state)@ == old(state)@ && old(state)@.contains_key(old(self).index),
            !old(state)@.contains_key(old(self).index) ==> r is Ok && final(state)@ == old(state)@,
            match r {
                Ok(Some(d)) => old(state)@.contains_key(old(self).index) ==> {
                    &&& final(state)@[old(self).index].arity() == old(state)@[old(self).index].arity()
                    &&& final(state)@[old(self).index].rows() == apply_records(old(state)@[old(self).index].rows(), d@)
                },
                _ => true,
            },
    {
        let u = match &mut self.inner {
            Role::Internal(op) => op.process(m),
            _ => None,
        };
        materialize(self.index, u, state)
    }
}

/// What a step hands to the channels outside the graph: the sends to make,
/// as (channel position, message), and the message to give back on the
/// next step once those sends went out, to be forwarded to the children.
#[derive(Debug, PartialEq, Eq)]
pub struct Outgoing {
    pub sends: Vec<(usize, Message)>,
    pub held: Option<Message>,
}

impl<O: Operator> NodeDescriptor<O> {
    /// Appends `m`, if there is one, to the queue of every child.
    pub fn forward(&self, handoffs: &mut HashMap<usize, VecDeque<Message>>, m: Option<Message>)
        requires
            self.fits(old(handoffs)@),
        ensures
            children_got(old(handoffs)@, final(handoffs)@, self.children@, opt_view(m)),
            others_kept(old(handoffs)@, final(handoffs)@, self.index, self.children@),
            final(handoffs)@[self.index] == old(handoffs)@[self.index],
            m is None ==> final(handoffs)@ == old(handoffs)@,
    {
        match m {
            Some(m) => {
                let ghost mv = m@;
                broadcast(handoffs, m, &self.children);
                assert forall|k: usize| #[trigger] self.children@.contains(k) implies queue(final(handoffs)@, k) == queue(old(handoffs)@, k) + seq![mv] by {
                    assert(queue(old(handoffs)@, k).push(mv) =~= queue(old(handoffs)@, k) + seq![mv]);
                }
            },
            None => {
                assert forall|k: usize| #[trigger] self.children@.contains(k) implies queue(final(handoffs)@, k) == queue(old(handoffs)@, k) + Seq::<MessageView>::empty() by {
                    assert(queue(old(handoffs)@, k) + Seq::<MessageView>::empty() =~= queue(old(handoffs)@, k));
                }
            },
        }
    }

    /// A source's step: the message received from upstream goes, unchanged, to
    /// every child.
    pub fn ingest(&self, handoffs: &mut HashMap<usize, VecDeque<Message>>, m: Message)
        requires
            self.fits(old(handoffs)@),
        ensures
            children_got(old(handoffs)@, final(handoffs)@, self.children@, seq![m@]),
            others_kept(old(handoffs)@, final(handoffs)@, self.index, self.children@),
            final(handoffs)@[self.index] == old(handoffs)@[self.index],
    {
        self.forward(handoffs, Some(m));
    }

    /// Sends the delta `u`, if there is one, to every child as a message from
    /// this node.
    pub fn emit(&self, handoffs: &mut HashMap<usize, VecDeque<Message>>, u: Option<Update>)
        requires
            self.fits(old(handoffs)@),
        ensures
            children_got(old(handoffs)@, final(handoffs)@, self.children@, delta_out(self.index, u)),
            others_kept(old(handoffs)@, final(handoffs)@, self.index, self.children@),
            final(handoffs)@[self.index] == old(handoffs)@[self.index],
            u is None ==> final(handoffs)@ == old(handoffs)@,
    {
        match u {
            Some(d) => self.forward(handoffs, Some(Message { from: self.index, data: d })),
            None => self.forward(handoffs, None),
        }
    }

    /// A sink's step, one message at a time. First `delivered`, the message
    /// held back by the previous step whose sends have all gone out, is
    /// forwarded to the children. Then the oldest queued message, if any, is
    /// taken: it is returned as one send per external channel, first to last.
    /// With no children the last channel gets the message itself; otherwise
    /// every send is a copy and the message is held back for the next step.
    pub fn sink_step(&self, handoffs: &mut HashMap<usize, VecDeque<Message>>, delivered: Option<Message>, outputs: usize) -> (r: Outgoing)
        requires
            outputs >= 1,
            self.fits(old(handoffs)@),
        ensures
            children_got(old(handoffs)@, final(handoffs)@, self.children@, opt_view(delivered)),
            others_kept(old(handoffs)@, final(handoffs)@, self.index, self.children@),
            queue(old(handoffs)@, self.index).len() == 0 ==> {
                &&& r.sends@.len() == 0
                &&& r.held is None
                &&& final(handoffs)@[self.index] == old(handoffs)@[self.index]
            },
            queue(old(handoffs)@, self.index).len() > 0 ==> {
                &&& sends_view(r.sends@) == copies_for(queue(old(handoffs)@, self.index)[0], outputs as nat)
                &&& queue(final(handoffs)@, self.index) == queue(old(handoffs)@, self.index).drop_first()
                &&& self.children@.len() == 0 ==> r.held is None
                &&& self.children@.len() > 0 ==> r.held is Some && r.held->Some_0@ == queue(old(handoffs)@, self.index)[0]
            },
    {
        self.forward(handoffs, delivered);
        let ghost h1 = handoffs@;
        let m = match dequeue(handoffs, self.index) {
            None => {
                assert(queue(old(handoffs)@, self.index).len() == old(handoffs)@[self.index]@.len());
                return Outgoing { sends: Vec::new(), held: None };
            },
            Some(m) => m,
        };
        proof {
            assert(queue(handoffs@, self.index) =~= queue(h1, self.index).drop_first());
            assert(m@ == queue(h1, self.index)[0]);
            assert forall|k: usize| #[trigger] self.children@.contains(k) implies queue(handoffs@, k) == queue(old(handoffs)@, k) + opt_view(delivered) by {
                assert(handoffs@[k] == h1[k]);
            }
            assert forall|k: usize| old(handoffs)@.contains_key(k) && k != self.index && !self.children@.contains(k) implies #[trigger] handoffs@[k] == old(handoffs)@[k] by {
                assert(handoffs@[k] == h1[k]);
            }
        }
        let ghost mv = m@;
        let mut sends: Vec<(usize, Message)> = Vec::new();
        let mut t: usize = 0;
        while t + 1 < outputs
            invariant
                outputs >= 1,
                t < outputs,
                m@ == mv,
                sends_view(sends@) == copies_for(mv, t as nat),
            decreases outputs - t,
        {
            let c = m.duplicate();
            proof {
                assert(sends_view(sends@.push((t, c))) =~= sends_view(sends@).push((t, mv)));
                assert(copies_for(mv, (t + 1) as nat) =~= copies_for(mv, t as nat).push((t, mv)));
            }
            sends.push((t, c));
            t = t + 1;
        }
        let ghost before = sends@;
        assert(copies_for(mv, outputs as nat) =~= copies_for(mv, t as nat).push((t, mv)));
        if self.children.len() == 0 {
            sends.push((t, m));
            assert(sends_view(sends@) =~= sends_view(before).push((t, mv)));
            Outgoing { sends, held: None }
        } else {
            let c = m.duplicate();
            sends.push((t, c));
            assert(sends_view(sends@) =~= sends_view(before).push((t, mv)));
            Outgoing { sends, held: Some(m) }
        }
    }
}

impl<O: Operator> NodeDescriptor<O> {
    /// An internal node's step: drains this node's queue oldest first; each
    /// message goes through `process_one`, and each delta that comes back is
    /// sent to the children by `emit`. Stops at the first error, which only a
    /// node with materialized rows can meet.
    ///
    /// The messages the children get are the deltas, in the order of the
    /// queue, each from this node; the materialized rows have gone through
    /// exactly their records, in that order.
    pub fn drain_internal(&mut self, handoffs: &mut HashMap<usize, VecDeque<Message>>, state: &mut HashMap<usize, Materialized>) -> (r: Result<(), StepError>)
        requires
            old(self).inner is Internal,
            old(self).fits(old(handoffs)@),
            states_wf(old(state)@),
        ensures
            final(self).index == old(self).index,
            final(self).children@ == old(self).children@,
            final(self).inner is Internal,
            states_wf(final(state)@),
            final(state)@.dom() == old(state)@.dom(),
            forall|k: usize| k != old(self).index && #[trigger] old(state)@.contains_key(k) ==> final(state)@[k] == old(state)@[k],
            others_kept(old(handoffs)@, final(handoffs)@, old(self).index, old(self).children@),
            r is Ok ==> final(handoffs)@[old(self).index]@.len() == 0,
            queue(old(handoffs)@, old(self).index).len() == 0 ==> r is Ok && final(handoffs)@ == old(handoffs)@ && final(state)@ == old(state)@,
            !old(state)@.contains_key(old(self).index) ==> r is Ok && final(state)@ == old(state)@,
            exists|out: Seq<MessageView>| #[trigger] emitted_by(out, old(self).index, queue(old(handoffs)@, old(self).index).len())
                && children_got(old(handoffs)@, final(handoffs)@, old(self).children@, out)
                && (old(state)@.contains_key(old(self).index) ==> final(state)@[old(self).index].rows()
                    == apply_records(old(state)@[old(self).index].rows(), records_of(out))),
    {
        let ghost h0 = handoffs@;
        let ghost s0 = state@;
        let ghost q0 = queue(h0, self.index);
        let ghost ch = self.children@;
        let ghost me = self.index;
        let ghost mut j: int = 0;
        let ghost mut out: Seq<MessageView> = Seq::empty();
        assert(children_got(h0, handoffs@, ch, out)) by {
            assert forall|k: usize| #[trigger] ch.contains(k) implies queue(handoffs@, k) == queue(h0, k) + out by {
                assert(queue(h0, k) + out =~= queue(h0, k));
            }
        }
        assert(s0.contains_key(me) ==> state@[me].rows() == apply_records(s0[me].rows(), records_of(out)));
        loop
            invariant
                self.index == me,
                self.children@ == ch,
                me == old(self).index,
                ch == old(self).children@,
                s0 == old(state)@,
                h0 == old(handoffs)@,
                self.inner is Internal,
                self.fits(handoffs@),
                h0.dom() == handoffs@.dom(),
                q0 == queue(h0, me),
                0 <= j <= q0.len(),
                queue(handoffs@, me) == q0.subrange(j, q0.len() as int),
                j == 0 ==> handoffs@ == h0 && state@ == s0,
                children_got(h0, handoffs@, ch, out),
                others_kept(h0, handoffs@, me, ch),
                emitted_by(out, me, j as nat),
                states_wf(state@),
                state@.dom() == s0.dom(),
                forall|k: usize| k != me && #[trigger] s0.contains_key(k) ==> state@[k] == s0[k],
                !s0.contains_key(me) ==> state@ == s0,
                s0.contains_key(me) ==> state@[me].rows() == apply_records(s0[me].rows(), records_of(out)),
            ensures
                handoffs@[me]@.len() == 0,
                children_got(h0, handoffs@, ch, out),
                emitted_by(out, me, q0.len()),
                q0.len() == 0 ==> handoffs@ == h0 && state@ == s0,
            decreases q0.len() - j,
        {
            let ghost h1 = handoffs@;
            let m = match dequeue(handoffs, self.index) {
                None => {
                    assert(queue(h1, me).len() == h1[me]@.len());
                    break;
                },
                Some(m) => m,
            };
            proof {
                assert(queue(handoffs@, me) =~= queue(h1, me).drop_first());
                assert(queue(handoffs@, me) =~= q0.subrange(j + 1, q0.len() as int));
                j = j + 1;
            }
            let ghost h2 = handoffs@;
            let ghost st1 = state@;
            match self.process_one(m, state) {
                Err(e) => {
                    assert(emitted_by(out, me, q0.len()));
                    assert forall|k: usize| #[trigger] ch.contains(k) implies queue(handoffs@, k) == queue(h0, k) + out by {
                        assert(h2[k] == h1[k]);
                    }
                    assert forall|k: usize| h0.contains_key(k) && k != me && !ch.contains(k) implies #[trigger] handoffs@[k] == h0[k] by {
                        assert(h2[k] == h1[k]);
                    }
                    return Err(e);
                },
                Ok(u) => {
                    let ghost uo = u;
                    self.emit(handoffs, u);
                    proof {
                        let add = delta_out(me, uo);
                        assert forall|k: usize| #[trigger] ch.contains(k) implies queue(handoffs@, k) == queue(h0, k) + (out + add) by {
                            assert(h2[k] == h1[k]);
                            assert(queue(h0, k) + (out + add) =~= (queue(h0, k) + out) + add);
                        }
                        assert forall|k: usize| h0.contains_key(k) && k != me && !ch.contains(k) implies #[trigger] handoffs@[k] == h0[k] by {
                            assert(h2[k] == h1[k]);
                        }
                        match uo {
                            Some(d) => {
                                assert((out + add).drop_last() =~= out);
                                assert(records_of(out + add) == records_of(out) + d@);
                                if s0.contains_key(me) {
                                    lemma_apply_records_concat(s0[me].rows(), records_of(out), d@);
                                }
                            },
                            None => {
                                assert(out + add =~= out);
                            },
                        }
                        out = out + add;
                        assert(queue(handoffs@, me) == queue(h2, me));
                    }
                },
            }
        }
        Ok(())
    }

    /// One scheduled step of this node.
    ///
    /// A source forwards `incoming`, the message its upstream channel
    /// delivered. A sink takes one message at a time (see `sink_step`):
    /// `incoming` is the message held back by its previous step, and `outputs`
    /// is the number of its external channels. An internal node drains its
    /// queue through its operator and materialized rows (see `drain_internal`).
    pub fn iterate(&mut self, handoffs: &mut HashMap<usize, VecDeque<Message>>, state: &mut HashMap<usize, Materialized>, incoming: Option<Message>, outputs: usize) -> (r: Result<Outgoing, StepError>)
        requires
            old(self).fits(old(handoffs)@),
            states_wf(old(state)@),
            old(self).inner is Source ==> incoming is Some && old(handoffs)@[old(self).index]@.len() == 0,
            old(self).inner is Sink ==> outputs >= 1,
        ensures
            final(self).index == old(self).index,
            final(self).children@ == old(self).children@,
            final(self).inner is Source <==> old(self).inner is Source,
            final(self).inner is Sink <==> old(self).inner is Sink,
            states_wf(final(state)@),
            final(state)@.dom() == old(state)@.dom(),
            forall|k: usize| k != old(self).index && #[trigger] old(state)@.contains_key(k) ==> final(state)@[k] == old(state)@[k],
            others_kept(old(handoffs)@, final(handoffs)@, old(self).index, old(self).children@),
            old(self).inner is Source ==> {
                &&& r is Ok && r->Ok_0.sends@.len() == 0 && r->Ok_0.held is None
                &&& final(state)@ == old(state)@
                &&& final(handoffs)@[old(self).index] == old(handoffs)@[old(self).index]
                &&& children_got(old(handoffs)@, final(handoffs)@, old(self).children@, seq![incoming->Some_0@])
            },
            old(self).inner is Sink ==> {
                &&& r is Ok
                &&& final(state)@ == old(state)@
                &&& children_got(old(handoffs)@, final(handoffs)@, old(self).children@, opt_view(incoming))
                &&& queue(old(handoffs)@, old(self).index).len() == 0 ==> {
                    &&& r->Ok_0.sends@.len() == 0
                    &&& r->Ok_0.held is None
                    &&& final(handoffs)@[old(self).index] == old(handoffs)@[old(self).index]
                }
                &&& queue(old(handoffs)@, old(self).index).len() > 0 ==> {
                    &&& sends_view(r->Ok_0.sends@) == copies_for(queue(old(handoffs)@, old(self).index)[0], outputs as nat)
                    &&& queue(final(handoffs)@, old(self).index) == queue(old(handoffs)@, old(self).index).drop_first()
                    &&& old(self).children@.len() == 0 ==> r->Ok_0.held is None
                    &&& old(self).children@.len() > 0 ==> r->Ok_0.held is Some
                        && r->Ok_0.held->Some_0@ == queue(old(handoffs)@, old(self).index)[0]
                }
            },
            old(self).inner is Internal ==> {
                &&& r is Ok ==> r->Ok_0.sends@.len() == 0 && r->Ok_0.held is None && final(handoffs)@[old(self).index]@.len() == 0
                &&& queue(old(handoffs)@, old(self).index).len() == 0 ==> r is Ok && final(handoffs)@ == old(handoffs)@ && final(state)@ == old(state)@
                &&& !old(state)@.contains_key(old(self).index) ==> r is Ok && final(state)@ == old(state)@
                &&& exists|out: Seq<MessageView>| #[trigger] emitted_by(out, old(self).index, queue(old(handoffs)@, old(self).index).len())
                    && children_got(old(handoffs)@, final(handoffs)@, old(self).children@, out)
                    && (old(state)@.contains_key(old(self).index) ==> final(state)@[old(self).index].rows()
                        == apply_records(old(state)@[old(self).index].rows(), records_of(out)))
            },
    {
        if matches!(self.inner, Role::Source) {
            match incoming {
                Some(m) => self.ingest(handoffs, m),
                None => {},
            }
            Ok(Outgoing { sends: Vec::new(), held: None })
        } else if matches!(self.inner, Role::Sink) {
            Ok(self.sink_step(handoffs, incoming, outputs))
        } else {
            match self.drain_internal(handoffs, state) {
                Ok(()) => Ok(Outgoing { sends: Vec::new(), held: None }),
                Err(e) => Err(e),
            }
        }
    }
}

} // verus!
