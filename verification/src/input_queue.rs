use vstd::prelude::*;

use crate::message::{annih_eq, Message};
use crate::queue_model::{
    annihilating_insert, class_unique, first_above, has_equiv, key_sorted,
    lemma_annihilating_insert_wf, lemma_equiv_index, lemma_first_above_unique, rec_key,
};

verus! {

/// The queue of messages arriving at a machine, ordered by receive time.
///
/// A movable cursor partitions it: entries at or below the cursor have been
/// processed and are retained only so a rollback can pass back over them;
/// entries above the cursor are pending. Inserting a message that would
/// annihilate with one already present removes both — this is how a message
/// and its antimessage cancel on the receive side.
///
/// The cursor is signed so that a rollback to virtual time `t` can park it at
/// `t - 1`, strictly below every receive time, even when `t` is small.
#[derive(Debug)]
pub struct InputQueue {
    msgs: Vec<Message>,
    threshold: i128,
}

impl View for InputQueue {
    type V = Seq<Message>;

    closed spec fn view(&self) -> Seq<Message> {
        self.msgs@
    }
}

impl InputQueue {
    /// The cursor: entries with receive time at or below it count as processed.
    pub closed spec fn cursor(self) -> int {
        self.threshold as int
    }

    /// Sorted by receive time, and no two entries annihilate each other.
    pub open spec fn wf(self) -> bool {
        key_sorted(self@, rec_key()) && class_unique(self@)
    }

    pub fn new(threshold: i128) -> (r: Self)
        ensures
            r@ == Seq::<Message>::empty(),
            r.cursor() == threshold as int,
            r.wf(),
    {
        InputQueue { msgs: Vec::new(), threshold }
    }

    /// Annihilating insert: if an entry equivalent to `message` is present,
    /// both vanish; otherwise `message` enters at its position in receive-time
    /// order, after any entries with the same receive time.
    pub fn insert(&mut self, message: Message)
        requires
            old(self).wf(),
        ensures
            final(self).wf(),
            final(self).cursor() == old(self).cursor(),
            final(self)@ == annihilating_insert(old(self)@, rec_key(), message),
    {
        proof {
            lemma_annihilating_insert_wf(old(self)@, rec_key(), message);
        }
        let n = self.msgs.len();
        let mut i: usize = 0;
        while i < n
            invariant
                old(self).wf(),
                self.msgs == old(self).msgs,
                self.threshold == old(self).threshold,
                n == self.msgs.len(),
                0 <= i <= n,
                forall|j: int| 0 <= j < i ==> !annih_eq(old(self)@[j], message),
            decreases n - i,
        {
            if self.msgs[i] == message {
                proof {
                    assert(annih_eq(old(self)@[i as int], message));
                    lemma_equiv_index(old(self)@, message);
                }
                self.msgs.remove(i);
                return;
            }
            i += 1;
        }
        proof {
            assert(!has_equiv(old(self)@, message));
        }
        let mut p: usize = 0;
        while p < n && self.msgs[p].rec_time <= message.rec_time
            invariant
                old(self).wf(),
                self.msgs == old(self).msgs,
                self.threshold == old(self).threshold,
                n == self.msgs.len(),
                0 <= p <= n,
                forall|j: int| 0 <= j < p ==> old(self)@[j].rec_time <= message.rec_time,
            decreases n - p,
        {
            p += 1;
        }
        proof {
            lemma_first_above_unique(
                old(self)@,
                rec_key(),
                message.rec_time as int,
                p as int,
            );
        }
        self.msgs.insert(p, message);
    }

    /// Remove and return the entry with the least receive time; intended for
    /// external storage reclamation, not used by the machine itself.
    pub fn remove_smallest(&mut self) -> (r: Option<Message>)
        requires
            old(self).wf(),
        ensures
            final(self).wf(),
            final(self).cursor() == old(self).cursor(),
            old(self)@.len() == 0 ==> r is None && final(self)@ == old(self)@,
            old(self)@.len() > 0 ==> r == Some(old(self)@[0]) && final(self)@ == old(self)@.skip(
                1,
            ) && (forall|j: int|
                0 <= j < old(self)@.len() ==> old(self)@[0].rec_time <= (#[trigger] old(
                    self,
                )@[j]).rec_time),
    {
        if self.msgs.len() == 0 {
            None
        } else {
            let m = self.msgs.remove(0);
            proof {
                assert(old(self)@.remove(0) =~= old(self)@.skip(1));
                assert forall|a: int, b: int|
                    0 <= a < b < final(self)@.len() implies rec_key()(final(self)@[a]) <= rec_key()(
                    final(self)@[b],
                ) && !annih_eq(final(self)@[a], final(self)@[b]) by {
                    assert(final(self)@[a] == old(self)@[a + 1]);
                    assert(final(self)@[b] == old(self)@[b + 1]);
                }
            }
            Some(m)
        }
    }

    /// Return (without removing) the entry with the least receive time
    /// strictly above the cursor: the next message the machine may process.
    pub fn peek_smallest_greater(&mut self) -> (r: Option<Message>)
        requires
            old(self).wf(),
        ensures
            final(self)@ == old(self)@,
            final(self).cursor() == old(self).cursor(),
            final(self).wf(),
            ({
                let p = first_above(old(self)@, rec_key(), old(self).cursor());
                &&& (p < old(self)@.len() ==> r == Some(old(self)@[p]))
                &&& (p >= old(self)@.len() ==> r is None)
            }),
            r matches Some(m) ==> m.rec_time > old(self).cursor() && (forall|j: int|
                0 <= j < old(self)@.len() && old(self)@[j].rec_time > old(self).cursor()
                    ==> m.rec_time <= old(self)@[j].rec_time),
            r is None ==> forall|j: int|
                0 <= j < old(self)@.len() ==> old(self)@[j].rec_time <= old(self).cursor(),
    {
        let n = self.msgs.len();
        let mut p: usize = 0;
        while p < n && self.msgs[p].rec_time as i128 <= self.threshold
            invariant
                old(self).wf(),
                self.msgs == old(self).msgs,
                self.threshold == old(self).threshold,
                n == self.msgs.len(),
                0 <= p <= n,
                forall|j: int| 0 <= j < p ==> old(self)@[j].rec_time as int <= old(self).cursor(),
            decreases n - p,
        {
            p += 1;
        }
        proof {
            lemma_first_above_unique(old(self)@, rec_key(), old(self).cursor(), p as int);
        }
        if p < n {
            let m = self.msgs[p].clone();
            proof {
                assert forall|j: int|
                    0 <= j < old(self)@.len() && old(self)@[j].rec_time > old(self).cursor()
                        implies m.rec_time <= old(self)@[j].rec_time by {
                    if j < p {
                    } else {
                        assert(rec_key()(old(self)@[p as int]) <= rec_key()(old(self)@[j]));
                    }
                }
            }
            Some(m)
        } else {
            None
        }
    }

    /// Move the cursor; the machine resets it after processing a message and
    /// after a rollback.
    pub fn update_threshold(&mut self, new_thresh: i128)
        ensures
            final(self)@ == old(self)@,
            final(self).cursor() == new_thresh as int,
    {
        self.threshold = new_thresh;
    }
}

} // verus!
