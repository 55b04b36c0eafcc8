use vstd::prelude::*;

use crate::machine::{
    is_straggler, machine_inv, peeked, receive_model, step_model, MachineModel,
};
use crate::message::Message;
use crate::queue_model::{
    first_above, has_equiv, lemma_annihilating_insert_wf, lemma_equiv_index,
    lemma_first_above_props, rec_key,
};
use crate::state_history::lemma_checkpointed_wf;

verus! {

/// The machine after `n` processing steps and no intervening receives.
pub open spec fn run_steps(m: MachineModel, n: nat) -> MachineModel
    decreases n,
{
    if n == 0 {
        m
    } else {
        step_model(run_steps(m, (n - 1) as nat)).0
    }
}

/// The last message processed within `n` such steps, if any step processed one.
pub open spec fn last_processed(m: MachineModel, n: nat) -> Option<Message>
    decreases n,
{
    if n == 0 {
        None
    } else {
        match step_model(run_steps(m, (n - 1) as nat)).1 {
            Some(msg) => Some(msg),
            None => last_processed(m, (n - 1) as nat),
        }
    }
}

/// One processing step keeps the machine invariant; a step that processes a
/// message moves the clock exactly to that message's receive time, which is
/// never below the clock; a step that processes nothing changes nothing.
pub proof fn lemma_step_preserves_inv(m: MachineModel)
    requires
        machine_inv(m),
    ensures
        machine_inv(step_model(m).0),
        step_model(m).1 matches Some(msg) ==> msg.rec_time >= m.local_virtual_time && step_model(
            m,
        ).0.local_virtual_time == msg.rec_time,
        step_model(m).1 is None ==> step_model(m).0 == m,
{
    lemma_first_above_props(m.inputs, rec_key(), m.cursor);
    match peeked(m) {
        None => {},
        Some(msg) => {
            let p = first_above(m.inputs, rec_key(), m.cursor);
            assert(rec_key()(m.inputs[p]) > m.cursor);
            assert(msg.rec_time >= m.local_virtual_time);
            if msg.sign is Antimessage {
            } else {
                lemma_checkpointed_wf(m.history, m.local_virtual_time, m.state);
                let m2 = step_model(m).0;
                assert forall|j: int|
                    0 <= j < m2.history.len() implies (#[trigger] m2.history[j]).virtual_time_stamp
                    <= m2.local_virtual_time by {
                    if m2.history[j].virtual_time_stamp != m.local_virtual_time {
                        let i = choose|i: int|
                            0 <= i < m.history.len() && m2.history[j] == m.history[i];
                        assert(m.history[i].virtual_time_stamp <= m.local_virtual_time);
                    }
                }
            }
        },
    }
}

/// The clock law under normal flow: when no straggler ever arrives — the
/// machine only takes processing steps — the local virtual clock after any
/// number of steps equals the receive time of the last processed message, or
/// stays at its starting value if no step processed one. In particular the
/// clock never decreases between rollbacks.
pub proof fn lemma_monotone_clock(m: MachineModel, n: nat)
    requires
        machine_inv(m),
    ensures
        machine_inv(run_steps(m, n)),
        run_steps(m, n).local_virtual_time == (match last_processed(m, n) {
            Some(msg) => msg.rec_time,
            None => m.local_virtual_time,
        }),
        run_steps(m, n).local_virtual_time >= m.local_virtual_time,
    decreases n,
{
    if n == 0 {
    } else {
        let prev = run_steps(m, (n - 1) as nat);
        lemma_monotone_clock(m, (n - 1) as nat);
        lemma_step_preserves_inv(prev);
    }
}

/// Receiving the same straggler a second time is harmless: the first rollback
/// moved the clock to the straggler's receive time, so the second call takes
/// the normal path, returns no antimessages, and leaves the state, clock,
/// cursor, history and output queue exactly as the first call left them. In
/// the input queue the second copy annihilates against the first: when the
/// first insert had stored the straggler, the input queue returns to what it
/// held before either copy arrived.
pub proof fn lemma_straggler_duplicate(m: MachineModel, s: Message)
    requires
        machine_inv(m),
        is_straggler(m, s),
        s.rec_time >= 1,
    ensures
        ({
            let m1 = receive_model(m, s).0;
            let m2 = receive_model(m1, s).0;
            &&& !is_straggler(m1, s)
            &&& receive_model(m1, s).1 is None
            &&& m2.state == m1.state
            &&& m2.local_virtual_time == m1.local_virtual_time
            &&& m2.cursor == m1.cursor
            &&& m2.history == m1.history
            &&& m2.outputs == m1.outputs
            &&& m2.machine_id == m1.machine_id
            &&& (!has_equiv(m.inputs, s) ==> m2.inputs == m.inputs)
        }),
{
    let m1 = receive_model(m, s).0;
    let m2 = receive_model(m1, s).0;
    assert(m1.local_virtual_time == s.rec_time);
    assert(!is_straggler(m1, s));
    if !has_equiv(m.inputs, s) {
        let p = first_above(m.inputs, rec_key(), rec_key()(s));
        lemma_first_above_props(m.inputs, rec_key(), rec_key()(s));
        assert(m1.inputs == m.inputs.insert(p, s));
        lemma_annihilating_insert_wf(m.inputs, rec_key(), s);
        assert(m1.inputs[p] == s);
        assert(has_equiv(m1.inputs, s));
        lemma_equiv_index(m1.inputs, s);
        let q = choose|i: int| 0 <= i < m1.inputs.len() && crate::message::annih_eq(m1.inputs[i], s);
        assert(q == p);
        assert(m2.inputs == m1.inputs.remove(p));
        assert(m1.inputs.remove(p) =~= m.inputs);
    }
}

} // verus!
