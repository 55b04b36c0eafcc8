use timewarp::machine::Machine;
use timewarp::message::{Message, MessagePayload, Sign};

fn msg(send: usize, rec: usize, from: usize, to: usize, id: usize) -> Message {
    Message::new(
        send,
        rec,
        from,
        to,
        Sign::Message,
        MessagePayload::new(id, "message".to_string()),
    )
}

// Simple in-order flow: two messages arrive and are processed in order; the
// handler adds five per message, the clock follows the receive times.
#[test]
fn scenario_in_order() {
    let mut machine1 = Machine::new(1, 0);

    let m_a = msg(0, 3, 0, 1, 1);
    let m_b = msg(0, 5, 0, 1, 2);

    assert!(machine1.recieve_outer(m_a.clone()).is_none());
    assert!(machine1.recieve_outer(m_b.clone()).is_none());

    assert_eq!(machine1.recieve_inner(), Some(m_a));
    assert_eq!(machine1.state.local_var2, 5);
    assert_eq!(machine1.current_time(), 3);

    assert_eq!(machine1.recieve_inner(), Some(m_b));
    assert_eq!(machine1.state.local_var2, 10);
    assert_eq!(machine1.current_time(), 5);
}

// Self-rollback: the machine processes a later message first; when the
// earlier one arrives the state is restored from the time-0 snapshot, the
// clock drops to the straggler's receive time, and both messages are then
// processed in order.
#[test]
fn scenario_self_rollback() {
    let mut machine1 = Machine::new(1, 0);

    let m_a = msg(0, 3, 0, 1, 1);
    let m_b = msg(0, 5, 0, 1, 2);

    assert!(machine1.recieve_outer(m_b.clone()).is_none());
    assert_eq!(machine1.recieve_inner(), Some(m_b.clone()));
    assert_eq!(machine1.state.local_var2, 5);
    assert_eq!(machine1.current_time(), 5);

    // straggler: no outputs were sent, so no antimessages come back
    let antis = machine1.recieve_outer(m_a.clone()).expect("straggler must roll back");
    assert_eq!(antis, vec![]);
    assert_eq!(machine1.state.local_var2, 0);
    assert_eq!(machine1.current_time(), 3);

    // both messages replay in order
    assert_eq!(machine1.recieve_inner(), Some(m_a));
    assert_eq!(machine1.state.local_var2, 5);
    assert_eq!(machine1.recieve_inner(), Some(m_b));
    assert_eq!(machine1.state.local_var2, 10);
    assert_eq!(machine1.current_time(), 5);
}

// Sender-side rollback cancels unread output: the receiver never processed
// the two messages, so the antimessages annihilate them in its input queue
// and it never notices anything happened.
#[test]
fn scenario_rollback_cancels_unread_output() {
    let mut machine1 = Machine::new(1, 0);
    let mut machine2 = Machine::new(2, 0);

    // bring machine 1 to time 5, emitting one message at time 3 and one at 5
    machine1.recieve_outer(msg(1, 3, 2, 1, 10));
    machine1.recieve_inner();
    let m_x = msg(3, 3, 1, 2, 11);
    let sent_x = machine1.send_outer(m_x.clone());
    machine2.recieve_outer(sent_x);
    machine1.recieve_outer(msg(1, 5, 2, 1, 12));
    machine1.recieve_inner();
    let m_y = msg(5, 5, 1, 2, 13);
    let sent_y = machine1.send_outer(m_y.clone());
    machine2.recieve_outer(sent_y);
    assert_eq!(machine1.current_time(), 5);

    // straggler with receive time 1: the window [1, 5] covers both sends
    let antis = machine1.recieve_outer(msg(0, 1, 2, 1, 14)).expect("straggler must roll back");
    assert_eq!(antis.len(), 2);
    assert_eq!(antis[0].sign, Sign::Antimessage);
    assert_eq!(antis[1].sign, Sign::Antimessage);
    // each antimessage is the annihilation twin of what was sent
    assert_eq!(antis[0], m_x);
    assert_eq!(antis[1], m_y);
    assert_eq!(machine1.current_time(), 1);
    assert_eq!(machine1.state.local_var2, 0);
    // the sender's own output queue kept nothing from the window
    assert_eq!(machine1.output_queue.pop(), None);

    // the receiver annihilates both pending messages and has nothing to do
    for anti in antis {
        assert!(machine2.recieve_outer(anti).is_none());
    }
    assert_eq!(machine2.recieve_inner(), None);
    assert_eq!(machine2.state.local_var2, 0);
}

// Sender-side rollback after the receiver already processed the messages:
// the first antimessage is itself a straggler there, rolls the receiver
// back, and the annihilating inserts then cancel both pairs.
#[test]
fn scenario_rollback_after_receiver_processed() {
    let mut machine1 = Machine::new(1, 0);
    let mut machine2 = Machine::new(2, 0);

    machine1.recieve_outer(msg(1, 3, 2, 1, 10));
    machine1.recieve_inner();
    let sent_x = machine1.send_outer(msg(3, 3, 1, 2, 11));
    machine2.recieve_outer(sent_x);
    machine1.recieve_outer(msg(1, 5, 2, 1, 12));
    machine1.recieve_inner();
    let sent_y = machine1.send_outer(msg(5, 5, 1, 2, 13));
    machine2.recieve_outer(sent_y);

    // the receiver processes both before the rollback reaches it
    machine2.recieve_inner();
    machine2.recieve_inner();
    assert_eq!(machine2.state.local_var2, 10);
    assert_eq!(machine2.current_time(), 5);

    let antis = machine1.recieve_outer(msg(0, 1, 2, 1, 14)).expect("straggler must roll back");
    assert_eq!(antis.len(), 2);

    // the first antimessage (receive time 3) is a straggler for machine 2
    let roll = machine2.recieve_outer(antis[0].clone());
    assert!(roll.is_some());
    assert_eq!(machine2.state.local_var2, 0);
    assert_eq!(machine2.current_time(), 3);
    // the second (receive time 5) is in order and annihilates its twin
    assert!(machine2.recieve_outer(antis[1].clone()).is_none());

    // nothing left to process, the state stays restored
    assert_eq!(machine2.recieve_inner(), None);
    assert_eq!(machine2.state.local_var2, 0);
    assert_eq!(machine2.current_time(), 3);
}

// An antimessage overtakes its positive twin: at the head of the queue it is
// skipped (processing it would only guarantee a rollback), and when the
// positive finally arrives the two annihilate; the receiver's state never
// moves.
#[test]
fn scenario_antimessage_arrives_first() {
    let mut machine1 = Machine::new(1, 0);
    let mut machine2 = Machine::new(2, 0);

    machine1.recieve_outer(msg(1, 3, 2, 1, 10));
    machine1.recieve_inner();
    let m_x = msg(3, 3, 1, 2, 11);
    let sent_x = machine1.send_outer(m_x.clone());
    // transport has not delivered sent_x yet when machine 1 rolls back
    let antis = machine1.recieve_outer(msg(0, 1, 2, 1, 12)).expect("straggler must roll back");
    assert_eq!(antis.len(), 1);

    // the antimessage reaches machine 2 first
    assert!(machine2.recieve_outer(antis[0].clone()).is_none());
    // negative at the head: the step is a no-op
    assert_eq!(machine2.recieve_inner(), None);
    assert_eq!(machine2.state.local_var2, 0);
    assert_eq!(machine2.current_time(), 0);

    // the positive twin arrives late and both vanish
    assert!(machine2.recieve_outer(sent_x).is_none());
    assert_eq!(machine2.recieve_inner(), None);
    assert_eq!(machine2.state.local_var2, 0);
}

// Rollback across several processed messages: the machine replays the
// straggler and everything after it, ending with one extra handler call.
#[test]
fn scenario_rollback_across_processed_messages() {
    let mut machine1 = Machine::new(1, 0);

    machine1.recieve_outer(msg(0, 5, 0, 1, 1));
    machine1.recieve_outer(msg(0, 6, 0, 1, 2));
    machine1.recieve_outer(msg(0, 7, 0, 1, 3));
    machine1.recieve_inner();
    machine1.recieve_inner();
    machine1.recieve_inner();
    assert_eq!(machine1.state.local_var2, 15);
    assert_eq!(machine1.current_time(), 7);

    let antis = machine1.recieve_outer(msg(0, 4, 0, 1, 4)).expect("straggler must roll back");
    assert_eq!(antis, vec![]);
    // restored to the only checkpoint below 4: the initial state
    assert_eq!(machine1.state.local_var2, 0);
    assert_eq!(machine1.current_time(), 4);

    // four steps consume receive times 4, 5, 6, 7
    for _ in 0..4 {
        assert!(machine1.recieve_inner().is_some());
    }
    assert_eq!(machine1.state.local_var2, 20);
    assert_eq!(machine1.current_time(), 7);
    assert_eq!(machine1.recieve_inner(), None);
}

// Receiving the same straggler twice: the second copy annihilates against
// the first and the machine's state, clock and outputs are untouched by it.
#[test]
fn scenario_straggler_received_twice() {
    let mut machine1 = Machine::new(1, 0);

    let m_b = msg(0, 5, 0, 1, 1);
    machine1.recieve_outer(m_b.clone());
    machine1.recieve_inner();
    assert_eq!(machine1.state.local_var2, 5);

    let straggler = msg(0, 3, 0, 1, 2);
    assert!(machine1.recieve_outer(straggler.clone()).is_some());
    assert_eq!(machine1.state.local_var2, 0);
    assert_eq!(machine1.current_time(), 3);

    // the duplicate is no longer a straggler and returns no antimessages
    assert!(machine1.recieve_outer(straggler.clone()).is_none());
    assert_eq!(machine1.state.local_var2, 0);
    assert_eq!(machine1.current_time(), 3);

    // the two copies annihilated: only the rolled-back message replays
    assert_eq!(machine1.recieve_inner(), Some(m_b));
    assert_eq!(machine1.state.local_var2, 5);
    assert_eq!(machine1.current_time(), 5);
    assert_eq!(machine1.recieve_inner(), None);
}

// A step on an empty machine is idle and changes nothing.
#[test]
fn step_on_empty_machine_is_idle() {
    let mut machine1 = Machine::new(7, 0);
    assert_eq!(machine1.recieve_inner(), None);
    assert_eq!(machine1.current_time(), 0);
    assert_eq!(machine1.state.local_var2, 0);
}

// The built-in sender emits a message five time units ahead, records it in
// the output queue and hands back the same record.
#[test]
fn send_inner_emits_and_records() {
    let mut machine1 = Machine::new(4, 0);
    let sent = machine1.send_inner();
    assert_eq!(sent.send_time, 0);
    assert_eq!(sent.rec_time, 5);
    assert_eq!(sent.sender, 4);
    assert_eq!(sent.receiver, 0);
    assert_eq!(sent.sign, Sign::Message);
    assert_eq!(machine1.output_queue.pop(), Some(sent));
    assert_eq!(machine1.output_queue.pop(), None);
}
