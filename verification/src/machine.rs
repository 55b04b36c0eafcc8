use vstd::prelude::*;

use crate::input_queue::InputQueue;
use crate::message::{annih_eq, negate, MachineId, Message, MessagePayload, Sign, VirtualTime};
use crate::output_queue::{outside_window_pred, window_pred, OutputQueue};
use crate::queue_model::{
    annihilating_insert, class_unique, equiv_index, first_above, has_equiv, key_sorted,
    lemma_equiv_index, lemma_filter_interval, lemma_filter_outside_interval,
    lemma_first_above_props, rec_key, send_key,
};
use crate::state_history::{
    checkpointed, has_stamp, hist_wf, lemma_stamp_first_above_props, purged, restored_state,
    stamp_first_above, StampedMachineState, StateHistory,
};

verus! {

/// The user-visible state a machine's event handler may read and mutate.
/// Snapshots of it are taken before each processed message so a rollback can
/// restore it.
#[derive(Debug)]
pub struct MachineState {
    pub local_var1: String,
    pub local_var2: i32,
}

impl MachineState {
    pub fn new() -> (r: Self)
        ensures
            r.local_var1@ == Seq::<char>::empty(),
            r.local_var2 == 0,
    {
        MachineState { local_var1: String::new(), local_var2: 0 }
    }
}

impl Clone for MachineState {
    fn clone(&self) -> (r: Self)
        ensures
            r == *self,
    {
        MachineState { local_var1: self.local_var1.clone(), local_var2: self.local_var2 }
    }
}

impl Default for MachineState {
    fn default() -> (r: Self)
        ensures
            r.local_var1@ == Seq::<char>::empty(),
            r.local_var2 == 0,
    {
        MachineState::new()
    }
}

/// The abstract value of a whole machine: the two queues and the history as
/// sequences, the clock, the cursor and the user state as plain values. The
/// machine operations are specified as functions over this model.
#[verifier::ext_equal]
pub ghost struct MachineModel {
    pub machine_id: MachineId,
    pub local_virtual_time: VirtualTime,
    pub state: MachineState,
    pub inputs: Seq<Message>,
    pub cursor: int,
    pub outputs: Seq<Message>,
    pub history: Seq<StampedMachineState>,
    pub next_payload_serial: usize,
}

/// The machine's invariant, maintained by every operation:
/// both queues sorted with at most one entry per annihilation class, a
/// well-formed history whose snapshots all lie at or before the local clock,
/// and the cursor at the clock — or one tick below it, right after a rollback,
/// so the straggler itself is the next message produced.
pub open spec fn machine_inv(m: MachineModel) -> bool {
    &&& key_sorted(m.inputs, rec_key())
    &&& class_unique(m.inputs)
    &&& key_sorted(m.outputs, send_key())
    &&& class_unique(m.outputs)
    &&& hist_wf(m.history)
    &&& forall|j: int|
        0 <= j < m.history.len() ==> (#[trigger] m.history[j]).virtual_time_stamp
            <= m.local_virtual_time
    &&& (m.cursor == m.local_virtual_time as int || m.cursor == m.local_virtual_time as int - 1)
}

/// Whether `message` arrives out of order: its receive time lies strictly
/// below the machine's local clock, so receiving it forces a rollback.
pub open spec fn is_straggler(m: MachineModel, message: Message) -> bool {
    message.rec_time < m.local_virtual_time
}

/// What `recieve_outer` does: the new machine model, and the antimessages it
/// hands back (`None` on the normal path). On the straggler path the state is
/// restored from the last snapshot before the target, the invalidated
/// snapshots are dropped, every output sent during the rolled-back window is
/// negated and annihilated out of the output queue, the clock moves to the
/// target with the cursor one tick below it, and the straggler itself is
/// annihilating-inserted into the input queue.
pub open spec fn receive_model(m: MachineModel, message: Message) -> (MachineModel, Option<
    Seq<Message>,
>) {
    if !is_straggler(m, message) {
        (
            MachineModel { inputs: annihilating_insert(m.inputs, rec_key(), message), ..m },
            None,
        )
    } else {
        let target = message.rec_time;
        let window = m.outputs.filter(window_pred(target, m.local_virtual_time));
        (
            MachineModel {
                state: restored_state(m.history, target as int),
                history: purged(m.history, target as int),
                outputs: m.outputs.filter(outside_window_pred(target, m.local_virtual_time)),
                local_virtual_time: target,
                cursor: target as int - 1,
                inputs: annihilating_insert(m.inputs, rec_key(), message),
                ..m
            },
            Some(window.map_values(|x: Message| negate(x))),
        )
    }
}

/// The pending message `recieve_inner` would look at: the entry with the
/// least receive time strictly above the cursor.
pub open spec fn peeked(m: MachineModel) -> Option<Message> {
    let p = first_above(m.inputs, rec_key(), m.cursor);
    if p < m.inputs.len() {
        Some(m.inputs[p])
    } else {
        None
    }
}

/// The user event handler, applied once per processed positive message.
pub open spec fn handled(s: MachineState) -> MachineState {
    MachineState { local_var2: (s.local_var2 + 5) as i32, ..s }
}

/// The handler's arithmetic stays within its type whenever a positive
/// message is about to be processed.
pub open spec fn handler_fits(m: MachineModel) -> bool {
    match peeked(m) {
        Some(msg) => msg.sign is Message ==> m.state.local_var2 + 5 <= i32::MAX,
        None => true,
    }
}

/// What `recieve_inner` does: nothing when no message is pending or when an
/// antimessage sits at the head (processing one would only guarantee a later
/// rollback); otherwise the pre-processing state is checkpointed at the
/// current clock, the clock and cursor move to the message's receive time,
/// and the handler runs.
pub open spec fn step_model(m: MachineModel) -> (MachineModel, Option<Message>) {
    match peeked(m) {
        None => (m, None),
        Some(msg) => {
            if msg.sign is Antimessage {
                (m, None)
            } else {
                (
                    MachineModel {
                        history: checkpointed(m.history, m.local_virtual_time, m.state),
                        local_virtual_time: msg.rec_time,
                        cursor: msg.rec_time as int,
                        state: handled(m.state),
                        ..m
                    },
                    Some(msg),
                )
            }
        },
    }
}

/// What `send_outer` does: the message is annihilating-inserted into the
/// output queue and nothing else changes.
pub open spec fn send_model(m: MachineModel, message: Message) -> MachineModel {
    MachineModel { outputs: annihilating_insert(m.outputs, send_key(), message), ..m }
}

/// On a send-time-sorted queue the entries whose send time lies in
/// `[lo, hi]` occupy one contiguous block of indices, delimited by the
/// two insertion points; filtering on the window or on its complement
/// keeps exactly the block or exactly its surroundings.
proof fn lemma_window_block(s: Seq<Message>, lo: VirtualTime, hi: VirtualTime)
    requires
        key_sorted(s, send_key()),
        lo <= hi,
    ensures
        ({
            let a = first_above(s, send_key(), lo as int - 1);
            let b = first_above(s, send_key(), hi as int);
            &&& 0 <= a <= b <= s.len()
            &&& (forall|i: int|
                0 <= i < s.len() ==> (window_pred(lo, hi)(#[trigger] s[i]) <==> a <= i < b))
            &&& s.filter(window_pred(lo, hi)) == s.subrange(a, b)
            &&& s.filter(outside_window_pred(lo, hi)) == s.subrange(0, a) + s.subrange(
                b,
                s.len() as int,
            )
        }),
{
    let a = first_above(s, send_key(), lo as int - 1);
    let b = first_above(s, send_key(), hi as int);
    lemma_first_above_props(s, send_key(), lo as int - 1);
    lemma_first_above_props(s, send_key(), hi as int);
    assert(a <= b) by {
        if a > b {
            assert(send_key()(s[b]) <= lo as int - 1);
            assert(send_key()(s[b]) > hi as int);
        }
    }
    assert forall|i: int|
        0 <= i < s.len() implies (window_pred(lo, hi)(#[trigger] s[i]) <==> a <= i < b) by {
        if i < a {
            assert(send_key()(s[i]) <= lo as int - 1);
        } else {
            assert(send_key()(s[a]) > lo as int - 1);
            if a < i {
                assert(send_key()(s[a]) <= send_key()(s[i]));
            }
            if i < b {
                assert(send_key()(s[i]) <= hi as int);
            } else {
                assert(send_key()(s[b]) > hi as int);
                if b < i {
                    assert(send_key()(s[b]) <= send_key()(s[i]));
                }
            }
        }
    }
    lemma_filter_interval(s, window_pred(lo, hi), a, b);
    assert forall|i: int|
        0 <= i < s.len() implies (outside_window_pred(lo, hi)(#[trigger] s[i]) <==> !(a <= i
        < b)) by {}
    lemma_filter_outside_interval(s, outside_window_pred(lo, hi), a, b);
}

/// After the first `k` entries of the block starting at `a` have been
/// annihilated away, pushing the antimessage of the next one removes
/// exactly that entry.
proof fn lemma_cancel_one(s: Seq<Message>, a: int, k: int, anti: Message)
    requires
        class_unique(s),
        0 <= a,
        0 <= k,
        a + k < s.len(),
        anti == negate(s[a + k]),
    ensures
        ({
            let cur = s.subrange(0, a) + s.subrange(a + k, s.len() as int);
            annihilating_insert(cur, send_key(), anti) == s.subrange(0, a) + s.subrange(
                a + k + 1,
                s.len() as int,
            )
        }),
{
    let cur = s.subrange(0, a) + s.subrange(a + k, s.len() as int);
    assert(class_unique(cur)) by {
        assert forall|x: int, y: int| 0 <= x < y < cur.len() implies !annih_eq(
            cur[x],
            cur[y],
        ) by {
            let x0 = if x < a {
                x
            } else {
                x + k
            };
            let y0 = if y < a {
                y
            } else {
                y + k
            };
            assert(cur[x] == s[x0]);
            assert(cur[y] == s[y0]);
        }
    }
    assert(cur[a] == s[a + k]);
    assert(annih_eq(cur[a], anti));
    assert(has_equiv(cur, anti));
    lemma_equiv_index(cur, anti);
    assert(equiv_index(cur, anti) == a);
    assert(cur.remove(a) =~= s.subrange(0, a) + s.subrange(a + k + 1, s.len() as int));
}

/// A logical process: its identity, local virtual clock, user state, the two
/// message queues and the snapshot history that together implement optimistic
/// processing with rollback.
#[derive(Debug)]
pub struct Machine {
    machine_id: MachineId,
    local_virtual_time: VirtualTime,
    pub state: MachineState,
    pub input_queue: InputQueue,
    pub output_queue: OutputQueue,
    state_queue: StateHistory,
    next_payload_serial: usize,
}

impl View for Machine {
    type V = MachineModel;

    closed spec fn view(&self) -> MachineModel {
        MachineModel {
            machine_id: self.machine_id,
            local_virtual_time: self.local_virtual_time,
            state: self.state,
            inputs: self.input_queue@,
            cursor: self.input_queue.cursor(),
            outputs: self.output_queue@,
            history: self.state_queue@,
            next_payload_serial: self.next_payload_serial,
        }
    }
}

impl Machine {
    pub open spec fn wf(self) -> bool {
        machine_inv(self@)
    }

    /// A fresh machine: empty queues, the cursor at the given clock, and a
    /// history holding the single initial snapshot `(0, initial state)`.
    pub fn new(machine_id: MachineId, local_virtual_time: VirtualTime) -> (r: Self)
        ensures
            r.wf(),
            r@.machine_id == machine_id,
            r@.local_virtual_time == local_virtual_time,
            r@.state.local_var1@ == Seq::<char>::empty(),
            r@.state.local_var2 == 0,
            r@.inputs == Seq::<Message>::empty(),
            r@.cursor == local_virtual_time as int,
            r@.outputs == Seq::<Message>::empty(),
            r@.history.len() == 1,
            r@.history[0].virtual_time_stamp == 0,
            r@.history[0].machine_state == r@.state,
            r@.next_payload_serial == 0,
    {
        let state = MachineState::new();
        let initial = state.clone();
        Machine {
            machine_id,
            local_virtual_time,
            state,
            input_queue: InputQueue::new(local_virtual_time as i128),
            output_queue: OutputQueue::new(),
            state_queue: StateHistory::new(initial),
            next_payload_serial: 0,
        }
    }

    /// The local virtual clock.
    pub fn current_time(&self) -> (r: VirtualTime)
        ensures
            r == self@.local_virtual_time,
    {
        self.local_virtual_time
    }

    /// Record an outbound message in the output queue and hand it back to the
    /// caller, which routes it to the destination machine. Sending is the
    /// same operation for user messages and for rollback-issued antimessages:
    /// pushing an antimessage annihilates its positive twin from the queue.
    pub fn send_outer(&mut self, message: Message) -> (r: Message)
        requires
            old(self).wf(),
        ensures
            final(self).wf(),
            r == message,
            final(self)@ == send_model(old(self)@, message),
    {
        self.output_queue.push(message.clone());
        proof {
            assert(final(self)@ =~= send_model(old(self)@, message));
        }
        message
    }

    /// Emit a freshly built message (a demonstration stand-in for the
    /// machine's own sending logic) and record it in the output queue.
    pub fn send_inner(&mut self) -> (r: Message)
        requires
            old(self).wf(),
            old(self)@.local_virtual_time + 5 <= usize::MAX,
            old(self)@.next_payload_serial < usize::MAX,
        ensures
            final(self).wf(),
            r.send_time == old(self)@.local_virtual_time,
            r.rec_time == old(self)@.local_virtual_time + 5,
            r.sender == old(self)@.machine_id,
            r.receiver == 0,
            r.sign == Sign::Message,
            r.message.id == old(self)@.next_payload_serial,
            final(self)@ == send_model(
                MachineModel { next_payload_serial: (old(self)@.next_payload_serial + 1) as usize, ..old(self)@ },
                r,
            ),
    {
        let my_message = "example message".to_string();
        let id = self.next_payload_serial;
        self.next_payload_serial = self.next_payload_serial + 1;
        let wrapped_message = self.make_message(MessagePayload::new(id, my_message), Sign::Message);
        self.send_outer(wrapped_message)
    }

    /// Receive one inbound message. A message in order — receive time at or
    /// above the local clock — is annihilating-inserted into the input queue
    /// and no antimessages come back. A straggler triggers a rollback, in
    /// this order: restore the last snapshot strictly before its receive
    /// time; discard the snapshots the rollback invalidates; negate and
    /// re-send every message emitted during the rolled-back window, which
    /// annihilates each positive twin out of the output queue and collects
    /// the antimessages for the caller to dispatch; move the clock to the
    /// straggler's receive time with the cursor one tick below it, so the
    /// straggler itself is the next message processed; and insert the
    /// straggler into the input queue (where it may itself annihilate).
    ///
    /// A straggler must carry a positive receive time: only then does the
    /// history hold a snapshot strictly before it.
    pub fn recieve_outer(&mut self, message: Message) -> (r: Option<Vec<Message>>)
        requires
            old(self).wf(),
            is_straggler(old(self)@, message) ==> message.rec_time >= 1,
        ensures
            final(self).wf(),
            final(self)@ == receive_model(old(self)@, message).0,
            r is None <==> !is_straggler(old(self)@, message),
            r matches Some(antis) ==> Some(antis@) == receive_model(old(self)@, message).1,
            is_straggler(old(self)@, message) ==> final(self)@.state == restored_state(
                old(self)@.history,
                message.rec_time as int,
            ),
            r matches Some(antis) ==> antis@ == old(self)@.outputs.filter(
                window_pred(message.rec_time, old(self)@.local_virtual_time),
            ).map_values(|x: Message| negate(x)),
            is_straggler(old(self)@, message) ==> forall|j: int|
                0 <= j < final(self)@.outputs.len() ==> !window_pred(
                    message.rec_time,
                    old(self)@.local_virtual_time,
                )(#[trigger] final(self)@.outputs[j]),
    {
        if message.rec_time >= self.local_virtual_time {
            self.input_queue.insert(message);
            proof {
                assert(self@ =~= receive_model(old(self)@, message).0);
            }
            return None;
        }
        let rollback_target = message.rec_time;
        // Restore the most recent snapshot strictly before the target.
        let restored = self.state_queue.most_recent_before(rollback_target);
        self.state = restored;
        // Discard the snapshots the rollback invalidates.
        self.state_queue.purge_at_or_after(rollback_target);
        // Negate everything sent during [target, clock].
        let old_time = self.local_virtual_time;
        let to_negate = self.output_queue.range(rollback_target, old_time);
        let ghost out0 = old(self)@.outputs;
        let ghost lo = rollback_target;
        let ghost hi = old_time;
        let ghost wpred = window_pred(lo, hi);
        let ghost a = first_above(out0, send_key(), lo as int - 1);
        let ghost b = first_above(out0, send_key(), hi as int);
        proof {
            lemma_window_block(out0, lo, hi);
            assert(to_negate@ == out0.subrange(a, b));
        }
        let n_w = to_negate.len();
        let mut sent_antimessages: Vec<Message> = Vec::new();
        let mut k: usize = 0;
        while k < n_w
            invariant
                old(self).wf(),
                is_straggler(old(self)@, message),
                message.rec_time >= 1,
                lo == message.rec_time,
                hi == old(self)@.local_virtual_time,
                wpred == window_pred(lo, hi),
                out0 == old(self)@.outputs,
                a == first_above(out0, send_key(), lo as int - 1),
                b == first_above(out0, send_key(), hi as int),
                0 <= a <= b <= out0.len(),
                to_negate@ == out0.subrange(a, b),
                n_w == to_negate@.len(),
                0 <= k <= n_w,
                self@.machine_id == old(self)@.machine_id,
                self@.next_payload_serial == old(self)@.next_payload_serial,
                self@.local_virtual_time == old(self)@.local_virtual_time,
                self@.cursor == old(self)@.cursor,
                self@.inputs == old(self)@.inputs,
                self@.state == restored_state(old(self)@.history, lo as int),
                self@.history == purged(old(self)@.history, lo as int),
                hist_wf(self@.history),
                forall|j: int|
                    0 <= j < self@.history.len() ==> (#[trigger] self@.history[j]).virtual_time_stamp
                        < lo,
                self.output_queue.wf(),
                self@.outputs == out0.subrange(0, a) + out0.subrange(a + k, out0.len() as int),
                sent_antimessages@ == out0.subrange(a, a + k).map_values(|x: Message| negate(x)),
            decreases n_w - k,
        {
            let mut modified_message = to_negate[k].clone();
            modified_message.sign = Sign::Antimessage;
            proof {
                assert(to_negate@[k as int] == out0[a + k]);
                assert(modified_message == negate(out0[a + k]));
            }
            let sent = self.send_outer(modified_message);
            sent_antimessages.push(sent);
            proof {
                lemma_cancel_one(out0, a, k as int, modified_message);
                assert(out0.subrange(a, a + (k + 1)) =~= out0.subrange(a, a + k).push(
                    out0[a + k],
                ));
                assert(sent_antimessages@ =~= out0.subrange(a, a + (k + 1)).map_values(
                    |x: Message| negate(x),
                ));
            }
            k += 1;
        }
        // Clock to the target; cursor one tick below it, so the straggler is
        // eligible for the next processing step.
        self.local_virtual_time = rollback_target;
        self.input_queue.update_threshold((rollback_target as i128) - 1);
        // Insert the straggler itself; if it is an antimessage of something
        // already enqueued, both vanish.
        self.input_queue.insert(message);
        proof {
            lemma_window_block(out0, lo, hi);
            assert(self@.outputs == out0.subrange(0, a) + out0.subrange(b, out0.len() as int));
            assert(self@ =~= receive_model(old(self)@, message).0);
            assert(sent_antimessages@ == out0.subrange(a, b).map_values(|x: Message| negate(x)));
            assert forall|j: int| 0 <= j < self@.outputs.len() implies !wpred(
                #[trigger] self@.outputs[j],
            ) by {
                if j < a {
                    assert(self@.outputs[j] == out0[j]);
                } else {
                    assert(self@.outputs[j] == out0[b + (j - a)]);
                }
            }
        }
        Some(sent_antimessages)
    }

    /// Take the next pending message, if there is one the machine may act on,
    /// checkpointing the state and advancing the clock and cursor to it.
    /// Yields nothing when the queue holds no pending message or when an
    /// antimessage sits at the head.
    fn get_next_message(&mut self) -> (r: Option<Message>)
        requires
            old(self).wf(),
        ensures
            final(self).wf(),
            r == step_model(old(self)@).1,
            r is None ==> final(self)@ == old(self)@,
            r matches Some(msg) ==> msg.rec_time >= old(self)@.local_virtual_time
                && final(self)@ == (MachineModel {
                history: checkpointed(
                    old(self)@.history,
                    old(self)@.local_virtual_time,
                    old(self)@.state,
                ),
                local_virtual_time: msg.rec_time,
                cursor: msg.rec_time as int,
                ..old(self)@
            }),
    {
        let message = match self.input_queue.peek_smallest_greater() {
            Some(m) => m,
            None => {
                proof {
                    assert(self@ =~= old(self)@);
                }
                return None;
            },
        };
        if message.sign == Sign::Antimessage {
            proof {
                assert(self@ =~= old(self)@);
            }
            return None;
        }
        // A pending message can never lie below the clock: the cursor sits at
        // most one tick below the clock and the peek is strictly above the
        // cursor.
        proof {
            assert(message.rec_time as int > old(self)@.cursor);
            assert(message.rec_time >= self.local_virtual_time);
        }
        let snapshot = self.state.clone();
        let ghost h0 = self.state_queue@;
        self.state_queue.checkpoint(self.local_virtual_time, snapshot);
        self.local_virtual_time = message.rec_time;
        self.input_queue.update_threshold(message.rec_time as i128);
        proof {
            let h2 = self.state_queue@;
            assert forall|j: int|
                0 <= j < h2.len() implies (#[trigger] h2[j]).virtual_time_stamp
                <= message.rec_time by {
                if has_stamp(h0, old(self)@.local_virtual_time) {
                    assert(h2[j] == h0[j]);
                } else {
                    let p = stamp_first_above(h0, old(self)@.local_virtual_time as int);
                    lemma_stamp_first_above_props(h0, old(self)@.local_virtual_time as int);
                    if j < p {
                        assert(h2[j] == h0[j]);
                    } else if j > p {
                        assert(h2[j] == h0[j - 1]);
                    }
                }
            }
            assert(self@ =~= (MachineModel {
                history: checkpointed(
                    old(self)@.history,
                    old(self)@.local_virtual_time,
                    old(self)@.state,
                ),
                local_virtual_time: message.rec_time,
                cursor: message.rec_time as int,
                ..old(self)@
            }));
        }
        Some(message)
    }

    /// Process one pending message. Returns the processed message, or nothing
    /// when the machine was idle (no pending message) or skipped an
    /// antimessage at the head of the queue — in either no-op case the
    /// machine is left exactly as it was.
    pub fn recieve_inner(&mut self) -> (r: Option<Message>)
        requires
            old(self).wf(),
            handler_fits(old(self)@),
        ensures
            final(self).wf(),
            final(self)@ == step_model(old(self)@).0,
            r == step_model(old(self)@).1,
            r is None ==> final(self)@ == old(self)@,
            r matches Some(msg) ==> msg.sign is Message
                && msg.rec_time >= old(self)@.local_virtual_time
                && final(self)@.local_virtual_time == msg.rec_time
                && final(self)@.state.local_var2 == old(self)@.state.local_var2 + 5,
    {
        let message = match self.get_next_message() {
            Some(msg) => msg,
            None => {
                return None;
            },
        };
        self.state.local_var2 = self.state.local_var2 + 5;
        proof {
            assert(self@ =~= step_model(old(self)@).0);
        }
        Some(message)
    }

    /// Build a message due five virtual time units from now, addressed to an
    /// arbitrary machine; a demonstration helper. The payload's interned id
    /// stands in for shared ownership: a message and the antimessages later
    /// derived from it carry the same id, while fresh payloads get fresh ids.
    fn make_message(&self, message: MessagePayload, sign: Sign) -> (r: Message)
        requires
            self.local_virtual_time + 5 <= usize::MAX,
        ensures
            r.send_time == self@.local_virtual_time,
            r.rec_time == self@.local_virtual_time + 5,
            r.sender == self@.machine_id,
            r.receiver == 0,
            r.sign == sign,
            r.message == message,
    {
        Message {
            send_time: self.local_virtual_time,
            rec_time: self.local_virtual_time + 5,
            sender: self.machine_id,
            receiver: 0,
            sign,
            message,
        }
    }
}

} // verus!
