//! Delivery of one message to the handoff queues of a node's children.
use std::collections::HashMap;
use std::collections::VecDeque;
use vstd::prelude::*;
use crate::record::{Message, MessageView, messages_view};

verus! {

broadcast use vstd::std_specs::hash::group_hash_axioms;

/// The messages waiting in the handoff queue of node `k`, as views, oldest first.
pub open spec fn queue(h: Map<usize, VecDeque<Message>>, k: usize) -> Seq<MessageView> {
    messages_view(h[k]@)
}

/// Appends `m` to the handoff queue of node `k`.
pub fn enqueue(handoffs: &mut HashMap<usize, VecDeque<Message>>, k: usize, m: Message)
    requires
        old(handoffs)@.contains_key(k),
    ensures
        final(handoffs)@.dom() == old(handoffs)@.dom(),
        final(handoffs)@[k]@ == old(handoffs)@[k]@.push(m),
        forall|j: usize| j != k && #[trigger] old(handoffs)@.contains_key(j) ==> final(handoffs)@[j] == old(handoffs)@[j],
{
    match handoffs.remove(&k) {
        Some(q) => {
            let mut q = q;
            q.push_back(m);
            handoffs.insert(k, q);
            assert(final(handoffs)@.dom() =~= old(handoffs)@.dom());
        },
        None => {},
    }
}

/// Every child in `children` gets a copy of `m` at the back of its queue; the
/// last child gets `m` itself. With no children, `m` is dropped. Each child
/// is listed once, so each gets exactly one message.
pub fn broadcast(handoffs: &mut HashMap<usize, VecDeque<Message>>, m: Message, children: &Vec<usize>)
    requires
        children@.no_duplicates(),
        forall|i: int| 0 <= i < children@.len() ==> old(handoffs)@.contains_key(#[trigger] children@[i]),
    ensures
        final(handoffs)@.dom() == old(handoffs)@.dom(),
        forall|k: usize| #[trigger] children@.contains(k) ==> queue(final(handoffs)@, k) == queue(old(handoffs)@, k).push(m@),
        forall|k: usize| old(handoffs)@.contains_key(k) && !children@.contains(k) ==> #[trigger] final(handoffs)@[k] == old(handoffs)@[k],
{
    let n = children.len();
    if n == 0 {
        return;
    }
    let mut i: usize = 0;
    while i + 1 < n
        invariant
            n == children@.len(),
            n > 0,
            i < n,
            children@.no_duplicates(),
            forall|j: int| 0 <= j < children@.len() ==> old(handoffs)@.contains_key(#[trigger] children@[j]),
            handoffs@.dom() == old(handoffs)@.dom(),
            forall|j: int| 0 <= j < i ==> queue(handoffs@, #[trigger] children@[j]) == queue(old(handoffs)@, children@[j]).push(m@),
            forall|k: usize| old(handoffs)@.contains_key(k) && !children@.subrange(0, i as int).contains(k) ==> #[trigger] handoffs@[k] == old(handoffs)@[k],
        decreases n - i,
    {
        let c = m.duplicate();
        let ghost before = handoffs@;
        enqueue(handoffs, children[i], c);
        proof {
            assert(messages_view(before[children@[i as int]]@.push(c)) =~= messages_view(before[children@[i as int]]@).push(c@));
            assert forall|k: usize| old(handoffs)@.contains_key(k) && !children@.subrange(0, i + 1).contains(k) implies #[trigger] handoffs@[k] == old(handoffs)@[k] by {
                assert(children@.subrange(0, i + 1)[i as int] == children@[i as int]);
                if children@.subrange(0, i as int).contains(k) {
                    let t = choose|t: int| 0 <= t < i && #[trigger] children@.subrange(0, i as int)[t] == k;
                    assert(children@.subrange(0, i + 1)[t] == k);
                }
            }
            assert forall|j: int| 0 <= j < i + 1 implies queue(handoffs@, #[trigger] children@[j]) == queue(old(handoffs)@, children@[j]).push(m@) by {
                if j < i {
                    assert(children@[j] != children@[i as int]);
                } else {
                    assert(!children@.subrange(0, i as int).contains(children@[i as int])) by {
                        if children@.subrange(0, i as int).contains(children@[i as int]) {
                            let t = choose|t: int| 0 <= t < i && #[trigger] children@.subrange(0, i as int)[t] == children@[i as int];
                            assert(children@[t] == children@[i as int]);
                        }
                    }
                }
            }
        }
        i = i + 1;
    }
    let ghost before = handoffs@;
    let ghost mv = m@;
    enqueue(handoffs, children[n - 1], m);
    proof {
        let last = children@[n - 1];
        assert(messages_view(before[last]@.push(m)) =~= messages_view(before[last]@).push(mv));
        assert(!children@.subrange(0, n - 1).contains(last)) by {
            if children@.subrange(0, n - 1).contains(last) {
                let t = choose|t: int| 0 <= t < n - 1 && #[trigger] children@.subrange(0, n - 1)[t] == last;
                assert(children@[t] == last);
            }
        }
        assert forall|k: usize| #[trigger] children@.contains(k) implies queue(handoffs@, k) == queue(old(handoffs)@, k).push(mv) by {
            let t = choose|t: int| 0 <= t < children@.len() && children@[t] == k;
            if t < n - 1 {
                assert(children@[t] != last);
            }
        }
        assert forall|k: usize| old(handoffs)@.contains_key(k) && !children@.contains(k) implies #[trigger] handoffs@[k] == old(handoffs)@[k] by {
            if children@.subrange(0, n - 1).contains(k) {
                let t = choose|t: int| 0 <= t < n - 1 && #[trigger] children@.subrange(0, n - 1)[t] == k;
                assert(children@[t] == k);
            }
        }
    }
}

} // verus!

verus! {

/// Takes the oldest message off the handoff queue of node `k`, if there is one.
pub fn dequeue(handoffs: &mut HashMap<usize, VecDeque<Message>>, k: usize) -> (r: Option<Message>)
    requires
        old(handoffs)@.contains_key(k),
    ensures
        final(handoffs)@.dom() == old(handoffs)@.dom(),
        forall|j: usize| j != k && #[trigger] old(handoffs)@.contains_key(j) ==> final(handoffs)@[j] == old(handoffs)@[j],
        match r {
            Some(m) => old(handoffs)@[k]@.len() > 0 && m == old(handoffs)@[k]@[0]
                && final(handoffs)@[k]@ == old(handoffs)@[k]@.drop_first(),
            None => old(handoffs)@[k]@.len() == 0 && final(handoffs)@ == old(handoffs)@,
        },
{
    let empty = match handoffs.get(&k) {
        Some(q) => q.len() == 0,
        None => true,
    };
    if empty {
        return None;
    }
    match handoffs.remove(&k) {
        Some(q) => {
            let mut q = q;
            let r = q.pop_front();
            handoffs.insert(k, q);
            assert(final(handoffs)@.dom() =~= old(handoffs)@.dom());
            r
        },
        None => None,
    }
}

} // verus!
