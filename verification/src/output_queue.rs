use vstd::prelude::*;

use crate::message::{annih_eq, Message, VirtualTime};
use crate::queue_model::{
    annihilating_insert, class_unique, has_equiv, key_sorted, lemma_annihilating_insert_wf,
    lemma_equiv_index, lemma_first_above_unique, send_key,
};

verus! {

/// The queue of messages a machine has emitted, ordered by send time.
///
/// Like the input queue it eliminates duplicates: pushing a message that
/// would annihilate with one already present removes both, which is how a
/// rollback's antimessages cancel the machine's own record of what it sent.
/// A rollback enumerates the messages to negate with `range`.
#[derive(Debug)]
pub struct OutputQueue {
    msgs: Vec<Message>,
}

impl View for OutputQueue {
    type V = Seq<Message>;

    closed spec fn view(&self) -> Seq<Message> {
        self.msgs@
    }
}

/// Membership in the send-time window `[start, end]`, both ends included.
pub open spec fn window_pred(start: VirtualTime, end: VirtualTime) -> spec_fn(Message) -> bool {
    |x: Message| start <= x.send_time && x.send_time <= end
}

/// The complement: the send time falls outside `[start, end]`.
pub open spec fn outside_window_pred(start: VirtualTime, end: VirtualTime) -> spec_fn(
    Message,
) -> bool {
    |x: Message| !(start <= x.send_time && x.send_time <= end)
}

/// Unfolding step for `Seq::filter` from the back, used to verify the scans
/// that build a filtered window.
pub proof fn lemma_filter_push(s: Seq<Message>, pred: spec_fn(Message) -> bool, x: Message)
    ensures
        pred(x) ==> s.push(x).filter(pred) == s.filter(pred).push(x),
        !pred(x) ==> s.push(x).filter(pred) == s.filter(pred),
{
    reveal(Seq::filter);
    assert(s.push(x).drop_last() =~= s);
    assert(s.push(x).last() == x);
}

impl OutputQueue {
    /// Sorted by send time, and no two entries annihilate each other.
    pub open spec fn wf(self) -> bool {
        key_sorted(self@, send_key()) && class_unique(self@)
    }

    pub fn new() -> (r: Self)
        ensures
            r@ == Seq::<Message>::empty(),
            r.wf(),
    {
        OutputQueue { msgs: Vec::new() }
    }

    /// Annihilating insert keyed by send time: if an entry equivalent to
    /// `message` is present, both vanish; otherwise `message` enters at its
    /// position in send-time order.
    pub fn push(&mut self, message: Message)
        requires
            old(self).wf(),
        ensures
            final(self).wf(),
            final(self)@ == annihilating_insert(old(self)@, send_key(), message),
    {
        proof {
            lemma_annihilating_insert_wf(old(self)@, send_key(), message);
        }
        let n = self.msgs.len();
        let mut i: usize = 0;
        while i < n
            invariant
                old(self).wf(),
                self.msgs == old(self).msgs,
                n == self.msgs.len(),
                0 <= i <= n,
                forall|j: int| 0 <= j < i ==> !annih_eq(old(self)@[j], message),
            decreases n - i,
        {
            if self.msgs[i] == message {
                proof {
                    assert(annih_eq(old(self)@[i as int], message));
                    lemma_equiv_index(old(self)@, message);
                }
                self.msgs.remove(i);
                return;
            }
            i += 1;
        }
        proof {
            assert(!has_equiv(old(self)@, message));
        }
        let mut p: usize = 0;
        while p < n && self.msgs[p].send_time <= message.send_time
            invariant
                old(self).wf(),
                self.msgs == old(self).msgs,
                n == self.msgs.len(),
                0 <= p <= n,
                forall|j: int| 0 <= j < p ==> old(self)@[j].send_time <= message.send_time,
            decreases n - p,
        {
            p += 1;
        }
        proof {
            lemma_first_above_unique(old(self)@, send_key(), message.send_time as int, p as int);
        }
        self.msgs.insert(p, message);
    }

    /// Remove and return the entry with the least send time; intended for
    /// external storage reclamation, not used by the machine itself.
    pub fn pop(&mut self) -> (r: Option<Message>)
        requires
            old(self).wf(),
        ensures
            final(self).wf(),
            old(self)@.len() == 0 ==> r is None && final(self)@ == old(self)@,
            old(self)@.len() > 0 ==> r == Some(old(self)@[0]) && final(self)@ == old(self)@.skip(
                1,
            ) && (forall|j: int|
                0 <= j < old(self)@.len() ==> old(self)@[0].send_time <= (#[trigger] old(
                    self,
                )@[j]).send_time),
    {
        if self.msgs.len() == 0 {
            None
        } else {
            let m = self.msgs.remove(0);
            proof {
                assert(old(self)@.remove(0) =~= old(self)@.skip(1));
                assert forall|a: int, b: int|
                    0 <= a < b < final(self)@.len() implies send_key()(final(self)@[a])
                    <= send_key()(final(self)@[b]) && !annih_eq(final(self)@[a], final(self)@[b]) by {
                    assert(final(self)@[a] == old(self)@[a + 1]);
                    assert(final(self)@[b] == old(self)@[b + 1]);
                }
            }
            Some(m)
        }
    }

    /// All messages with send time in `[start, end]`, both ends included, in
    /// queue order; nothing is removed. A rollback from prior clock `T` with
    /// target `t` negates exactly `range(t, T)`.
    pub fn range(&self, start: VirtualTime, end: VirtualTime) -> (r: Vec<Message>)
        ensures
            r@ == self@.filter(window_pred(start, end)),
    {
        let mut r: Vec<Message> = Vec::new();
        let ghost pred = window_pred(start, end);
        let n = self.msgs.len();
        let mut i: usize = 0;
        while i < n
            invariant
                n == self@.len(),
                0 <= i <= n,
                pred == window_pred(start, end),
                r@ == self@.subrange(0, i as int).filter(pred),
            decreases n - i,
        {
            proof {
                assert(self@.subrange(0, i as int + 1) =~= self@.subrange(0, i as int).push(
                    self@[i as int],
                ));
                lemma_filter_push(self@.subrange(0, i as int), pred, self@[i as int]);
            }
            let m = &self.msgs[i];
            if start <= m.send_time && m.send_time <= end {
                r.push(m.clone());
            }
            i += 1;
        }
        proof {
            assert(self@.subrange(0, n as int) =~= self@);
        }
        r
    }
}

} // verus!
