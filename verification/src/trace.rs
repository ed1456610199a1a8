//! What holds of an exchange over a whole run of events: that the reply is
//! found behind any noise, and that the deadline cuts a silent wait short at
//! the tick it names.

use crate::codec::{
    lemma_decode_of_reply, lemma_encoded_is_sound, spec_decode, spec_reply, FRAME_LEN, MARKER,
    MAX_PAYLOAD, MAX_RESPONSE,
};
use crate::error::Error;
use crate::exchange::{Event, Machine, Next, Phase};
use crate::timing::{lemma_deadline_threshold, Deadline};
use crate::transport::Attempt;
use vstd::prelude::*;

verus! {

impl Machine {
    /// The machine after `events`, one after the other. Events after the one
    /// that ends the exchange are not looked at.
    pub open spec fn run<E>(self, events: Seq<Event<E>>) -> Next<E>
        decreases events.len(),
    {
        if events.len() == 0 {
            Next::Pending(self)
        } else {
            match self.advance(events[0]) {
                Next::Pending(next) => next.run(events.drop_first()),
                done => done,
            }
        }
    }
}

/// The bytes that `events` brought in, in the order of their coming.
pub open spec fn bytes_read<E>(events: Seq<Event<E>>) -> Seq<u8>
    decreases events.len(),
{
    if events.len() == 0 {
        Seq::empty()
    } else {
        let rest = bytes_read(events.drop_first());
        match events[0] {
            Event::Read { received: Attempt::Ready(byte), .. } => seq![byte] + rest,
            _ => rest,
        }
    }
}

/// Whether `event` is an attempt to read, made before `deadline`, on a link
/// that did not fail: it brought a byte or would have blocked.
pub open spec fn reads_in_time<E>(deadline: Deadline, event: Event<E>) -> bool {
    match event {
        Event::Read { now, received } => !deadline.lapsed(now) && !(received is Failed),
        _ => false,
    }
}

/// Whether each of `events` is an attempt to read made before `deadline` on
/// a link that did not fail.
pub open spec fn all_read_in_time<E>(deadline: Deadline, events: Seq<Event<E>>) -> bool {
    forall|i: int| 0 <= i < events.len() ==> reads_in_time(deadline, #[trigger] events[i])
}

/// Whether `event` is an attempt to read, made before `deadline`, that did
/// not bring the start marker.
pub open spec fn reads_no_marker<E>(deadline: Deadline, event: Event<E>) -> bool {
    &&& reads_in_time(deadline, event)
    &&& event matches Event::Read { received: Attempt::Ready(byte), .. } ==> byte != MARKER
}

/// Whether `event` shows the clock past `deadline`, with or without an
/// attempt.
pub open spec fn shows_late<E>(deadline: Deadline, event: Event<E>) -> bool {
    match event {
        Event::Armed { .. } => false,
        Event::Late { now } => deadline.lapsed(now),
        Event::Wrote { now, .. } => deadline.lapsed(now),
        Event::Read { now, .. } => deadline.lapsed(now),
    }
}

/// Once the marker is in, the eight bytes that follow fill the frame,
/// whatever they are and however often the link would block in between; the
/// frame is then checked.
pub proof fn lemma_fills<E>(machine: Machine, events: Seq<Event<E>>, frame: Seq<u8>)
    requires
        machine.wf(),
        machine.phase is Filling,
        frame.len() == FRAME_LEN,
        all_read_in_time(machine.deadline, events),
        machine.buffer.take(machine.index as int) == frame.take(machine.index as int),
        bytes_read(events) == frame.skip(machine.index as int),
    ensures
        machine.run(events) == Next::Done(
            spec_decode::<E>(frame, machine.command(), machine.response_len),
        ),
    decreases events.len(),
{
    let index = machine.index as int;
    if events.len() == 0 {
        assert(frame.skip(index).len() > 0);
    } else {
        let rest = events.drop_first();
        assert(reads_in_time(machine.deadline, events[0]));
        assert forall|i: int| 0 <= i < rest.len() implies reads_in_time(
            machine.deadline,
            #[trigger] rest[i],
        ) by {
            assert(rest[i] == events[i + 1]);
        }
        match events[0] {
            Event::Read { now, received: Attempt::Ready(byte) } => {
                let tail = bytes_read(rest);
                assert((seq![byte] + tail)[0] == byte);
                assert(frame.skip(index)[0] == frame[index]);
                assert(tail =~= (seq![byte] + tail).skip(1));
                assert(tail =~= frame.skip(index + 1));
                let buffer = machine.buffer.update(index, byte);
                assert forall|k: int| 0 <= k < index implies buffer[k] == frame[k] by {
                    assert(machine.buffer.take(index)[k] == frame.take(index)[k]);
                }
                if index + 1 < FRAME_LEN {
                    let next = Machine { buffer, index: (index + 1) as nat, ..machine };
                    assert(machine.advance(events[0]) == Next::<E>::Pending(next));
                    assert(next.buffer.take(index + 1) =~= frame.take(index + 1));
                    lemma_fills(next, rest, frame);
                } else {
                    assert(buffer =~= frame);
                }
            },
            _ => {
                assert(machine.advance(events[0]) == Next::<E>::Pending(machine));
                lemma_fills(machine, rest, frame);
            },
        }
    }
}

/// The receiver takes the first start marker that comes in for the start of
/// the reply. Whatever came before it is dropped, and the nine bytes from the
/// marker on are the frame that is checked.
pub proof fn lemma_locks_onto_first_marker<E>(
    machine: Machine,
    events: Seq<Event<E>>,
    noise: Seq<u8>,
    frame: Seq<u8>,
)
    requires
        machine.wf(),
        machine.phase is Scanning,
        all_read_in_time(machine.deadline, events),
        bytes_read(events) == noise + frame,
        forall|i: int| 0 <= i < noise.len() ==> noise[i] != MARKER,
        frame.len() == FRAME_LEN,
        frame[0] == MARKER,
    ensures
        machine.run(events) == Next::Done(
            spec_decode::<E>(frame, machine.command(), machine.response_len),
        ),
    decreases events.len(),
{
    if events.len() == 0 {
        assert((noise + frame).len() > 0);
    } else {
        let rest = events.drop_first();
        assert(reads_in_time(machine.deadline, events[0]));
        assert forall|i: int| 0 <= i < rest.len() implies reads_in_time(
            machine.deadline,
            #[trigger] rest[i],
        ) by {
            assert(rest[i] == events[i + 1]);
        }
        match events[0] {
            Event::Read { now, received: Attempt::Ready(byte) } => {
                let tail = bytes_read(rest);
                assert((seq![byte] + tail)[0] == byte);
                assert(tail =~= (seq![byte] + tail).skip(1));
                if noise.len() == 0 {
                    assert(noise + frame =~= frame);
                    assert(byte == MARKER);
                    let next = Machine { phase: Phase::Filling, index: 1, ..machine };
                    assert(machine.advance(events[0]) == Next::<E>::Pending(next));
                    assert(next.buffer.take(1) =~= frame.take(1));
                    assert(tail =~= frame.skip(1));
                    lemma_fills(next, rest, frame);
                } else {
                    assert((noise + frame)[0] == noise[0]);
                    assert(machine.advance(events[0]) == Next::<E>::Pending(machine));
                    assert(tail =~= noise.skip(1) + frame);
                    lemma_locks_onto_first_marker(machine, rest, noise.skip(1), frame);
                }
            },
            _ => {
                assert(machine.advance(events[0]) == Next::<E>::Pending(machine));
                lemma_locks_onto_first_marker(machine, rest, noise, frame);
            },
        }
    }
}

/// After any noise that holds no start marker, the reply to the command of
/// the exchange is found and its data are handed out exactly.
pub proof fn lemma_resynchronizes<E>(
    machine: Machine,
    events: Seq<Event<E>>,
    noise: Seq<u8>,
    data: Seq<u8>,
)
    requires
        machine.wf(),
        machine.phase is Scanning,
        all_read_in_time(machine.deadline, events),
        forall|i: int| 0 <= i < noise.len() ==> noise[i] != MARKER,
        data.len() == machine.response_len,
        bytes_read(events) == noise + spec_reply(machine.command(), data),
    ensures
        machine.run(events) == Next::Done(Ok::<Seq<u8>, Error<E>>(data)),
{
    lemma_decode_of_reply::<E>(machine.command(), data);
    lemma_locks_onto_first_marker(machine, events, noise, spec_reply(machine.command(), data));
}

/// As long as the clock stays before the deadline and no start marker comes
/// in, a scanning receiver goes on scanning: it does not fail.
pub proof fn lemma_scan_goes_on<E>(machine: Machine, events: Seq<Event<E>>)
    requires
        machine.phase is Scanning,
        forall|i: int|
            0 <= i < events.len() ==> reads_no_marker(machine.deadline, #[trigger] events[i]),
    ensures
        machine.run(events) == Next::<E>::Pending(machine),
    decreases events.len(),
{
    if events.len() > 0 {
        let rest = events.drop_first();
        assert(reads_no_marker(machine.deadline, events[0]));
        assert forall|i: int| 0 <= i < rest.len() implies reads_no_marker(
            machine.deadline,
            #[trigger] rest[i],
        ) by {
            assert(rest[i] == events[i + 1]);
        }
        assert(machine.advance(events[0]) == Next::<E>::Pending(machine));
        lemma_scan_goes_on(machine, rest);
    }
}

/// While sending or receiving, the first look at a clock that is past the
/// deadline ends the exchange with `Timeout`, whatever the link did.
pub proof fn lemma_late_is_timeout<E>(machine: Machine, event: Event<E>)
    requires
        machine.answers(event),
        shows_late(machine.deadline, event),
    ensures
        machine.advance(event) == Next::Done(Err::<Seq<u8>, Error<E>>(Error::Timeout)),
{
}

/// A receiver that never sees the start marker fails with `Timeout` at the
/// first look at the clock a tenth of a second after it began to listen, and
/// has not failed one tick before that.
pub proof fn lemma_silent_wait_times_out<E>(
    machine: Machine,
    start: u32,
    frequency: u32,
    quiet: Seq<Event<E>>,
    byte: u8,
)
    requires
        machine.phase is Scanning,
        machine.deadline == Deadline::spec_new(start, frequency),
        frequency >= 10,
        forall|i: int|
            0 <= i < quiet.len() ==> reads_no_marker(machine.deadline, #[trigger] quiet[i]),
        byte != MARKER,
    ensures
        machine.run(
            quiet.push(
                Event::Read {
                    now: start.wrapping_add(((frequency / 10) - 1) as u32),
                    received: Attempt::Ready(byte),
                },
            ),
        ) == Next::<E>::Pending(machine),
        machine.run(quiet.push(Event::Late { now: start.wrapping_add(frequency / 10) }))
            == Next::Done(Err::<Seq<u8>, Error<E>>(Error::Timeout)),
{
    lemma_deadline_threshold(start, frequency);
    let before: Event<E> = Event::Read {
        now: start.wrapping_add(((frequency / 10) - 1) as u32),
        received: Attempt::Ready(byte),
    };
    let at: Event<E> = Event::Late { now: start.wrapping_add(frequency / 10) };
    assert(reads_no_marker(machine.deadline, before));
    lemma_scan_goes_on(machine, quiet.push(before));
    lemma_run_then(machine, quiet, at);
    lemma_scan_goes_on(machine, quiet);
}

/// A run that leaves the exchange pending, followed by one more event, ends
/// where that event leads.
pub proof fn lemma_run_then<E>(machine: Machine, events: Seq<Event<E>>, last: Event<E>)
    ensures
        machine.run(events) matches Next::Pending(next) ==> machine.run(events.push(last))
            == next.advance(last),
    decreases events.len(),
{
    let all = events.push(last);
    if events.len() == 0 {
        assert(all.drop_first() =~= Seq::<Event<E>>::empty());
        assert(all[0] == last);
        match machine.advance(last) {
            Next::Pending(next) => {
                assert(next.run(all.drop_first()) == Next::<E>::Pending(next));
            },
            _ => {},
        }
    } else {
        assert(all[0] == events[0]);
        assert(all.drop_first() =~= events.drop_first().push(last));
        match machine.advance(events[0]) {
            Next::Pending(next) => {
                lemma_run_then(next, events.drop_first(), last);
            },
            _ => {},
        }
    }
}

/// A run over two stretches of events is the run over the second from
/// where the first one led, unless the first one ended the exchange.
pub proof fn lemma_run_in_two<E>(machine: Machine, first: Seq<Event<E>>, second: Seq<Event<E>>)
    ensures
        machine.run(first + second) == match machine.run(first) {
            Next::Pending(next) => next.run(second),
            done => done,
        },
    decreases first.len(),
{
    let all = first + second;
    if first.len() == 0 {
        assert(all =~= second);
    } else {
        assert(all[0] == first[0]);
        assert(all.drop_first() =~= first.drop_first() + second);
        match machine.advance(first[0]) {
            Next::Pending(next) => {
                lemma_run_in_two(next, first.drop_first(), second);
            },
            _ => {},
        }
    }
}

/// Whether `event` is an attempt to write, made before `deadline`, on a link
/// that did not fail: it took the byte or would have blocked.
pub open spec fn writes_in_time<E>(deadline: Deadline, event: Event<E>) -> bool {
    match event {
        Event::Wrote { now, written, .. } => !deadline.lapsed(now) && !(written is Failed),
        _ => false,
    }
}

/// Whether each of `events` is an attempt to write made before `deadline` on
/// a link that did not fail.
pub open spec fn all_wrote_in_time<E>(deadline: Deadline, events: Seq<Event<E>>) -> bool {
    forall|i: int| 0 <= i < events.len() ==> writes_in_time(deadline, #[trigger] events[i])
}

/// The bytes that the link took in `events`, in the order of their going.
pub open spec fn bytes_taken<E>(events: Seq<Event<E>>) -> Seq<u8>
    decreases events.len(),
{
    if events.len() == 0 {
        Seq::empty()
    } else {
        let rest = bytes_taken(events.drop_first());
        match events[0] {
            Event::Wrote { byte, written: Attempt::Ready(_), .. } => seq![byte] + rest,
            _ => rest,
        }
    }
}

/// Whether `events` are a run as the sensor makes it: each event is what
/// comes of the action that the machine asked for at that point, and none
/// follows the end of the exchange.
pub open spec fn admitted<E>(machine: Machine, events: Seq<Event<E>>) -> bool
    decreases events.len(),
{
    if events.len() == 0 {
        true
    } else {
        &&& machine.admits(events[0])
        &&& match machine.advance(events[0]) {
            Next::Pending(next) => admitted(next, events.drop_first()),
            Next::Done(_) => events.len() == 1,
        }
    }
}

/// The state of a sender once `taken` more bytes are out.
pub open spec fn after_sending<E>(machine: Machine, taken: nat) -> Next<E> {
    if machine.index + taken < FRAME_LEN {
        Next::Pending(Machine { index: machine.index + taken, ..machine })
    } else if machine.awaits_reply {
        Next::Pending(Machine { phase: Phase::Listening, index: 0, ..machine })
    } else {
        Next::Done(Ok(Seq::empty()))
    }
}

/// The request goes out byte by byte, in order: each byte that the link
/// takes moves the sender on by one, a byte that the link would not take is
/// offered again, and the ninth byte ends the sending.
pub proof fn lemma_sends_in_order<E>(machine: Machine, events: Seq<Event<E>>)
    requires
        machine.wf(),
        machine.phase is Sending,
        all_wrote_in_time(machine.deadline, events),
        machine.index + bytes_taken(events).len() <= FRAME_LEN,
    ensures
        machine.run(events) == after_sending::<E>(machine, bytes_taken(events).len()),
    decreases events.len(),
{
    if events.len() > 0 {
        let rest = events.drop_first();
        assert(writes_in_time(machine.deadline, events[0]));
        assert forall|i: int| 0 <= i < rest.len() implies writes_in_time(
            machine.deadline,
            #[trigger] rest[i],
        ) by {
            assert(rest[i] == events[i + 1]);
        }
        match events[0] {
            Event::Wrote { now, byte, written: Attempt::Ready(_) } => {
                assert(bytes_taken(events).len() == 1 + bytes_taken(rest).len());
                if machine.index + 1 < FRAME_LEN {
                    let next = Machine { index: machine.index + 1, ..machine };
                    assert(machine.advance(events[0]) == Next::<E>::Pending(next));
                    lemma_sends_in_order(next, rest);
                } else if machine.awaits_reply {
                    let next = Machine { phase: Phase::Listening, index: 0, ..machine };
                    assert(machine.advance(events[0]) == Next::<E>::Pending(next));
                    lemma_ignores_writes(next, rest);
                }
            },
            _ => {
                assert(machine.advance(events[0]) == Next::<E>::Pending(machine));
                lemma_sends_in_order(machine, rest);
            },
        }
    }
}

/// What the sensor offers to the link while it sends is the request, byte
/// by byte and in order: the bytes that the link took are the stretch of the
/// request from where the sending stood.
pub proof fn lemma_offers_the_request<E>(machine: Machine, events: Seq<Event<E>>)
    requires
        machine.wf(),
        machine.phase is Sending,
        admitted(machine, events),
        forall|i: int| 0 <= i < events.len() ==> #[trigger] events[i] is Wrote,
    ensures
        machine.index + bytes_taken(events).len() <= FRAME_LEN,
        bytes_taken(events) == machine.request.subrange(
            machine.index as int,
            (machine.index + bytes_taken(events).len()) as int,
        ),
    decreases events.len(),
{
    let index = machine.index as int;
    if events.len() == 0 {
        assert(bytes_taken(events) =~= machine.request.subrange(index, index));
    } else {
        let rest = events.drop_first();
        assert(events[0] is Wrote);
        assert forall|i: int| 0 <= i < rest.len() implies #[trigger] rest[i] is Wrote by {
            assert(rest[i] == events[i + 1]);
        }
        match machine.advance(events[0]) {
            Next::Pending(next) => {
                if next.phase is Sending {
                    assert(admitted(next, rest));
                    lemma_offers_the_request(next, rest);
                    let taken = bytes_taken(rest);
                    if next.index == machine.index {
                        assert(bytes_taken(events) == taken);
                    } else {
                        assert(bytes_taken(events) == seq![machine.request[index]] + taken);
                        assert(bytes_taken(events) =~= machine.request.subrange(
                            index,
                            index + taken.len() + 1,
                        ));
                    }
                } else {
                    assert(admitted(next, rest));
                    if rest.len() > 0 {
                        assert(rest[0] is Wrote);
                        assert(next.admits(rest[0]));
                    }
                    assert(bytes_taken(rest) =~= Seq::<u8>::empty());
                    assert(bytes_taken(events) =~= machine.request.subrange(index, index + 1));
                }
            },
            Next::Done(_) => {
                assert(bytes_taken(rest) =~= Seq::<u8>::empty());
                match events[0] {
                    Event::Wrote { written: Attempt::Ready(_), .. } => {
                        assert(bytes_taken(events) =~= machine.request.subrange(index, index + 1));
                    },
                    _ => {
                        assert(bytes_taken(events) =~= machine.request.subrange(index, index));
                    },
                }
            },
        }
    }
}

/// An exchange that is not sending takes no notice of attempts to write.
pub proof fn lemma_ignores_writes<E>(machine: Machine, events: Seq<Event<E>>)
    requires
        !(machine.phase is Sending),
        forall|i: int| 0 <= i < events.len() ==> #[trigger] events[i] is Wrote,
    ensures
        machine.run(events) == Next::<E>::Pending(machine),
    decreases events.len(),
{
    if events.len() > 0 {
        let rest = events.drop_first();
        assert(events[0] is Wrote);
        assert forall|i: int| 0 <= i < rest.len() implies #[trigger] rest[i] is Wrote by {
            assert(rest[i] == events[i + 1]);
        }
        lemma_ignores_writes(machine, rest);
    }
}

/// A whole exchange. The clock is read, the nine bytes of the request are
/// taken by the link in time, the clock is read again, and in time the link
/// brings noise without a start marker and then the reply to the command:
/// the exchange ends with exactly the data of that reply.
pub proof fn lemma_exchange<E>(
    command: u8,
    payload: Seq<u8>,
    data: Seq<u8>,
    send_start: u32,
    listen_start: u32,
    frequency: u32,
    writes: Seq<Event<E>>,
    reads: Seq<Event<E>>,
    noise: Seq<u8>,
)
    requires
        payload.len() <= MAX_PAYLOAD,
        data.len() <= MAX_RESPONSE,
        all_wrote_in_time(Deadline::spec_new(send_start, frequency), writes),
        bytes_taken(writes).len() == FRAME_LEN,
        all_read_in_time(Deadline::spec_new(listen_start, frequency), reads),
        forall|i: int| 0 <= i < noise.len() ==> noise[i] != MARKER,
        bytes_read(reads) == noise + spec_reply(command, data),
    ensures
        Machine::begin(command, payload, true, data.len()).run(
            seq![Event::Armed { value: send_start, frequency }] + writes + seq![
                Event::Armed { value: listen_start, frequency },
            ] + reads,
        ) == Next::Done(Ok::<Seq<u8>, Error<E>>(data)),
{
    let fresh = Machine::begin(command, payload, true, data.len());
    lemma_encoded_is_sound(command, payload);
    let arm_send = seq![Event::<E>::Armed { value: send_start, frequency }];
    let arm_listen = seq![Event::<E>::Armed { value: listen_start, frequency }];
    let sending = fresh.armed(send_start, frequency);
    let listening = Machine { phase: Phase::Listening, index: 0, ..sending };
    let scanning = listening.armed(listen_start, frequency);

    assert(fresh.run(arm_send) == Next::<E>::Pending(sending)) by {
        assert(arm_send.drop_first() =~= Seq::<Event<E>>::empty());
        assert(fresh.advance(arm_send[0]) == Next::<E>::Pending(sending));
        assert(sending.run(arm_send.drop_first()) == Next::<E>::Pending(sending));
    }
    lemma_sends_in_order(sending, writes);
    assert(sending.run(writes) == Next::<E>::Pending(listening));
    assert(listening.run(arm_listen) == Next::<E>::Pending(scanning)) by {
        assert(arm_listen.drop_first() =~= Seq::<Event<E>>::empty());
        assert(listening.advance(arm_listen[0]) == Next::<E>::Pending(scanning));
        assert(scanning.run(arm_listen.drop_first()) == Next::<E>::Pending(scanning));
    }
    assert(scanning.command() == command);
    lemma_resynchronizes(scanning, reads, noise, data);

    lemma_run_in_two(fresh, arm_send, writes);
    lemma_run_in_two(fresh, arm_send + writes, arm_listen);
    lemma_run_in_two(fresh, arm_send + writes + arm_listen, reads);
}

} // verus!
