//! One exchange with the sensor as a state machine: a request goes out byte
//! by byte, then the reply is looked for in whatever comes in.
//!
//! The machine does no I/O. It says what is to be done next (`Action`), is
//! told what came of it (`Event`), and answers with its next state or with
//! the result of the exchange. Between sending and receiving, and before
//! sending, it asks for the clock: each half has a deadline of its own.

use crate::codec::{
    decode, encode, spec_decode, spec_encode, FRAME_LEN, MARKER, MAX_PAYLOAD, MAX_RESPONSE,
};
use crate::error::Error;
use crate::timing::Deadline;
use crate::transport::Attempt;
use vstd::prelude::*;

verus! {

/// Where an exchange stands.
#[derive(Clone, Copy, Debug, PartialEq, Eq)]
pub enum Phase {
    /// About to send: the deadline for sending is yet to be set.
    Arming,
    /// Sending the request, byte by byte.
    Sending,
    /// The request is out: the deadline for receiving is yet to be set.
    Listening,
    /// Discarding what comes in until the start marker shows.
    Scanning,
    /// The marker was seen: taking in the eight bytes that follow it.
    Filling,
}

/// What the machine wants done next.
#[derive(Clone, Copy, Debug, PartialEq, Eq)]
pub enum Action {
    /// Read the clock, value and frequency, to set a deadline.
    Arm,
    /// Read the clock and, unless the deadline has passed, try to write this
    /// byte.
    Write(u8),
    /// Read the clock and, unless the deadline has passed, try to read a
    /// byte.
    Read,
}

/// What came of an action.
#[derive(Debug, PartialEq, Eq)]
pub enum Event<E> {
    /// The clock was read to set a deadline.
    Armed { value: u32, frequency: u32 },
    /// The clock read `now` and nothing was tried.
    Late { now: u32 },
    /// The clock read `now`, then `byte` was offered to the link.
    Wrote { now: u32, byte: u8, written: Attempt<(), E> },
    /// The clock read `now`, then a read was tried.
    Read { now: u32, received: Attempt<u8, E> },
}

/// An exchange in the abstract.
pub struct Machine {
    /// The request frame.
    pub request: Seq<u8>,
    /// Whether a reply is waited for once the request is out.
    pub awaits_reply: bool,
    /// How many bytes of data the reply is to yield.
    pub response_len: nat,
    /// Where the exchange stands.
    pub phase: Phase,
    /// The deadline of the half that is under way.
    pub deadline: Deadline,
    /// While sending, the bytes that are out; while filling, the bytes that
    /// are in.
    pub index: nat,
    /// The reply as far as it has come in.
    pub buffer: Seq<u8>,
}

/// What a machine has come to after an event.
pub enum Next<E> {
    /// The exchange goes on from this state.
    Pending(Machine),
    /// The exchange is over, with the data of the reply or the reason of its
    /// failure.
    Done(Result<Seq<u8>, Error<E>>),
}

/// A buffer that holds the start marker and nothing else.
pub open spec fn blank() -> Seq<u8> {
    seq![MARKER, 0u8, 0u8, 0u8, 0u8, 0u8, 0u8, 0u8, 0u8]
}

impl Machine {
    /// What every reachable state satisfies.
    pub open spec fn wf(self) -> bool {
        &&& self.request.len() == FRAME_LEN
        &&& self.buffer.len() == FRAME_LEN
        &&& self.buffer[0] == MARKER
        &&& self.response_len <= MAX_RESPONSE
        &&& self.phase is Sending ==> self.index < FRAME_LEN
        &&& self.phase is Filling ==> 1 <= self.index < FRAME_LEN
        &&& !self.awaits_reply ==> self.phase is Arming || self.phase is Sending
    }

    /// How many bytes of data the exchange hands out when it succeeds.
    pub open spec fn yield_len(self) -> nat {
        if self.awaits_reply {
            self.response_len
        } else {
            0
        }
    }

    /// The exchange that sends `command` with `payload` and, if a reply is
    /// waited for, takes `response_len` bytes of data from it.
    pub open spec fn begin(
        command: u8,
        payload: Seq<u8>,
        awaits_reply: bool,
        response_len: nat,
    ) -> Machine {
        Machine {
            request: spec_encode(command, payload),
            awaits_reply,
            response_len,
            phase: Phase::Arming,
            deadline: Deadline { start: 0, budget: 0 },
            index: 0,
            buffer: blank(),
        }
    }

    /// The command that the reply has to name.
    pub open spec fn command(self) -> u8 {
        self.request[2]
    }

    /// What is to be done next.
    pub open spec fn action(self) -> Action {
        match self.phase {
            Phase::Arming | Phase::Listening => Action::Arm,
            Phase::Sending => Action::Write(self.request[self.index as int]),
            Phase::Scanning | Phase::Filling => Action::Read,
        }
    }

    /// Whether `event` is of the kind that the action asked for brings: the
    /// clock alone when a deadline is to be set, the clock with or without
    /// the attempt otherwise.
    pub open spec fn answers<E>(self, event: Event<E>) -> bool {
        match (self.action(), event) {
            (Action::Arm, Event::Armed { .. }) => true,
            (Action::Write(_), Event::Late { .. }) => true,
            (Action::Write(_), Event::Wrote { .. }) => true,
            (Action::Read, Event::Late { .. }) => true,
            (Action::Read, Event::Read { .. }) => true,
            _ => false,
        }
    }

    /// Whether `event` is what comes of doing the action asked for as it is
    /// meant: the attempt is made if and only if the clock shows that there
    /// is time left, and the byte offered to the link is the one that is due.
    pub open spec fn admits<E>(self, event: Event<E>) -> bool {
        &&& self.answers(event)
        &&& match event {
            Event::Armed { .. } => true,
            Event::Late { now } => self.deadline.lapsed(now),
            Event::Wrote { now, byte, .. } => !self.deadline.lapsed(now) && self.action()
                == Action::Write(byte),
            Event::Read { now, .. } => !self.deadline.lapsed(now),
        }
    }

    /// The state once the clock was read to set a deadline.
    pub open spec fn armed(self, value: u32, frequency: u32) -> Machine {
        Machine {
            phase: if self.phase is Arming {
                Phase::Sending
            } else {
                Phase::Scanning
            },
            deadline: Deadline::spec_new(value, frequency),
            index: 0,
            ..self
        }
    }

    /// What follows when a byte of the request went out: the next byte, or
    /// the wait for the reply, or the end where no reply is waited for.
    pub open spec fn wrote<E>(self) -> Next<E> {
        if self.index + 1 < FRAME_LEN {
            Next::Pending(Machine { index: self.index + 1, ..self })
        } else if self.awaits_reply {
            Next::Pending(Machine { phase: Phase::Listening, index: 0, ..self })
        } else {
            Next::Done(Ok(Seq::empty()))
        }
    }

    /// What follows when `byte` came in: while scanning, only the marker
    /// counts; while filling, every byte takes the next place, and the ninth
    /// closes the frame, which is then checked.
    pub open spec fn received<E>(self, byte: u8) -> Next<E> {
        if self.phase is Scanning {
            if byte == MARKER {
                Next::Pending(Machine { phase: Phase::Filling, index: 1, ..self })
            } else {
                Next::Pending(self)
            }
        } else {
            let buffer = self.buffer.update(self.index as int, byte);
            if self.index + 1 < FRAME_LEN {
                Next::Pending(Machine { buffer, index: self.index + 1, ..self })
            } else {
                Next::Done(spec_decode(buffer, self.command(), self.response_len))
            }
        }
    }

    /// The machine after `event`. The deadline is looked at before anything
    /// else; an attempt that would block changes nothing; a fault of the link
    /// ends the exchange at once. An event that does not answer the action
    /// asked for changes nothing.
    pub open spec fn advance<E>(self, event: Event<E>) -> Next<E> {
        match (self.action(), event) {
            (Action::Arm, Event::Armed { value, frequency }) => Next::Pending(
                self.armed(value, frequency),
            ),
            (Action::Write(_), Event::Late { now }) | (Action::Read, Event::Late { now }) => {
                if self.deadline.lapsed(now) {
                    Next::Done(Err(Error::Timeout))
                } else {
                    Next::Pending(self)
                }
            },
            (Action::Write(_), Event::Wrote { now, written, .. }) => {
                if self.deadline.lapsed(now) {
                    Next::Done(Err(Error::Timeout))
                } else {
                    match written {
                        Attempt::Ready(_) => self.wrote(),
                        Attempt::WouldBlock => Next::Pending(self),
                        Attempt::Failed(e) => Next::Done(Err(Error::Serial(e))),
                    }
                }
            },
            (Action::Read, Event::Read { now, received }) => {
                if self.deadline.lapsed(now) {
                    Next::Done(Err(Error::Timeout))
                } else {
                    match received {
                        Attempt::Ready(byte) => self.received(byte),
                        Attempt::WouldBlock => Next::Pending(self),
                        Attempt::Failed(e) => Next::Done(Err(Error::Serial(e))),
                    }
                }
            },
            _ => Next::Pending(self),
        }
    }
}

/// An event leads a sound state to a sound state, and an exchange that
/// succeeds hands out as many bytes as were asked for.
pub proof fn lemma_advance<E>(machine: Machine, event: Event<E>)
    requires
        machine.wf(),
    ensures
        match machine.advance(event) {
            Next::Pending(next) => next.wf() && next.request == machine.request
                && next.awaits_reply == machine.awaits_reply && next.response_len
                == machine.response_len,
            Next::Done(Ok(data)) => data.len() == machine.yield_len(),
            Next::Done(Err(_)) => true,
        },
{
}

/// An exchange under way.
#[derive(Clone, Copy, Debug, PartialEq, Eq)]
pub struct Exchange {
    request: [u8; 9],
    awaits_reply: bool,
    response_len: usize,
    phase: Phase,
    deadline: Deadline,
    index: usize,
    buffer: [u8; 9],
}

/// What an exchange has come to after an event.
#[derive(Debug, PartialEq, Eq)]
pub enum Step<E> {
    /// The exchange goes on.
    Pending(Exchange),
    /// The exchange is over.
    Done(Result<Vec<u8>, Error<E>>),
}

impl View for Exchange {
    type V = Machine;

    closed spec fn view(&self) -> Machine {
        Machine {
            request: self.request@,
            awaits_reply: self.awaits_reply,
            response_len: self.response_len as nat,
            phase: self.phase,
            deadline: self.deadline,
            index: self.index as nat,
            buffer: self.buffer@,
        }
    }
}

impl<E> View for Step<E> {
    type V = Next<E>;

    open spec fn view(&self) -> Next<E> {
        match *self {
            Step::Pending(exchange) => Next::Pending(exchange@),
            Step::Done(Ok(data)) => Next::Done(Ok(data@)),
            Step::Done(Err(e)) => Next::Done(Err(e)),
        }
    }
}

impl Exchange {
    #[verifier::type_invariant]
    closed spec fn inv(self) -> bool {
        self@.wf()
    }

    /// Sets up the exchange that sends `command` with `payload` and, if a
    /// reply is waited for, takes `response_len` bytes of data from it.
    pub fn begin(
        command: u8,
        payload: &[u8],
        awaits_reply: bool,
        response_len: usize,
    ) -> (exchange: Exchange)
        requires
            payload.len() <= MAX_PAYLOAD,
            response_len <= MAX_RESPONSE,
        ensures
            exchange@ == Machine::begin(command, payload@, awaits_reply, response_len as nat),
            exchange@.wf(),
    {
        let mut buffer: [u8; 9] = [0u8; 9];
        buffer[0] = MARKER;
        assert(buffer@ =~= blank());
        Exchange {
            request: encode(command, payload),
            awaits_reply,
            response_len,
            phase: Phase::Arming,
            deadline: Deadline { start: 0, budget: 0 },
            index: 0,
            buffer,
        }
    }

    /// Whether this is the exchange that `begin` sets up for the same
    /// arguments, at whatever point it stands.
    pub fn is_for(
        &self,
        command: u8,
        payload: &[u8],
        awaits_reply: bool,
        response_len: usize,
    ) -> (same: bool)
        requires
            payload.len() <= MAX_PAYLOAD,
        ensures
            same == (self@.request == spec_encode(command, payload@) && self@.awaits_reply
                == awaits_reply && self@.response_len == response_len),
    {
        proof {
            use_type_invariant(self);
        }
        let request = encode(command, payload);
        let mut same: bool = self.awaits_reply == awaits_reply && self.response_len
            == response_len;
        let mut i: usize = 0;
        assert(self.request@.take(0) =~= request@.take(0));
        while i < 9
            invariant
                i <= 9,
                self.request@.len() == 9,
                request@.len() == 9,
                same == (self.awaits_reply == awaits_reply && self.response_len == response_len
                    && self.request@.take(i as int) == request@.take(i as int)),
            decreases 9 - i,
        {
            let equal: bool = self.request[i] == request[i];
            proof {
                let a = self.request@.take(i + 1);
                let b = request@.take(i + 1);
                assert(a.drop_last() =~= self.request@.take(i as int));
                assert(b.drop_last() =~= request@.take(i as int));
                assert(a.last() == self.request@[i as int]);
                assert(b.last() == request@[i as int]);
                if equal && self.request@.take(i as int) == request@.take(i as int) {
                    assert(a =~= b);
                }
            }
            same = same && equal;
            i += 1;
        }
        assert(self.request@.take(9) =~= self.request@);
        assert(request@.take(9) =~= request@);
        same
    }

    /// What is to be done next.
    pub fn action(&self) -> (action: Action)
        ensures
            action == self@.action(),
    {
        proof {
            use_type_invariant(self);
        }
        match self.phase {
            Phase::Arming | Phase::Listening => Action::Arm,
            Phase::Sending => Action::Write(self.request[self.index]),
            Phase::Scanning | Phase::Filling => Action::Read,
        }
    }

    /// Whether the deadline of the half under way has passed when the clock
    /// reads `now`.
    pub fn expired(&self, now: u32) -> (late: bool)
        ensures
            late == self@.deadline.lapsed(now),
    {
        self.deadline.expired(now)
    }

    fn armed(self, value: u32, frequency: u32) -> (exchange: Exchange)
        requires
            self@.action() is Arm,
        ensures
            exchange@ == self@.armed(value, frequency),
    {
        proof {
            use_type_invariant(&self);
        }
        let phase = match self.phase {
            Phase::Arming => Phase::Sending,
            _ => Phase::Scanning,
        };
        Exchange { phase, deadline: Deadline::new(value, frequency), index: 0, ..self }
    }

    fn wrote<E>(self) -> (step: Step<E>)
        requires
            self@.phase is Sending,
        ensures
            step@ == self@.wrote::<E>(),
    {
        proof {
            use_type_invariant(&self);
        }
        if self.index + 1 < FRAME_LEN {
            Step::Pending(Exchange { index: self.index + 1, ..self })
        } else if self.awaits_reply {
            Step::Pending(Exchange { phase: Phase::Listening, index: 0, ..self })
        } else {
            Step::Done(Ok(Vec::new()))
        }
    }

    fn received<E>(self, byte: u8) -> (step: Step<E>)
        requires
            self@.action() is Read,
        ensures
            step@ == self@.received::<E>(byte),
    {
        proof {
            use_type_invariant(&self);
        }
        match self.phase {
            Phase::Scanning => {
                if byte == MARKER {
                    Step::Pending(Exchange { phase: Phase::Filling, index: 1, ..self })
                } else {
                    Step::Pending(self)
                }
            },
            _ => {
                let mut buffer = self.buffer;
                buffer[self.index] = byte;
                if self.index + 1 < FRAME_LEN {
                    Step::Pending(Exchange { buffer, index: self.index + 1, ..self })
                } else {
                    Step::Done(decode(&buffer, self.request[2], self.response_len))
                }
            },
        }
    }

    /// The exchange after `event`.
    pub fn advance<E>(self, event: Event<E>) -> (step: Step<E>)
        ensures
            self@.wf(),
            step@ == self@.advance(event),
            step matches Step::Pending(exchange) ==> exchange@.wf(),
    {
        proof {
            use_type_invariant(&self);
        }
        let action = self.action();
        let step = self.advance_by(action, event);
        proof {
            if let Step::Pending(exchange) = step {
                use_type_invariant(&exchange);
            }
        }
        step
    }

    fn advance_by<E>(self, action: Action, event: Event<E>) -> (step: Step<E>)
        requires
            action == self@.action(),
        ensures
            step@ == self@.advance(event),
    {
        match (action, event) {
            (Action::Arm, Event::Armed { value, frequency }) => Step::Pending(
                self.armed(value, frequency),
            ),
            (Action::Write(_), Event::Late { now }) | (Action::Read, Event::Late { now }) => {
                if self.expired(now) {
                    Step::Done(Err(Error::Timeout))
                } else {
                    Step::Pending(self)
                }
            },
            (Action::Write(_), Event::Wrote { now, written, .. }) => {
                if self.expired(now) {
                    Step::Done(Err(Error::Timeout))
                } else {
                    match written {
                        Attempt::Ready(_) => self.wrote(),
                        Attempt::WouldBlock => Step::Pending(self),
                        Attempt::Failed(e) => Step::Done(Err(Error::Serial(e))),
                    }
                }
            },
            (Action::Read, Event::Read { now, received }) => {
                if self.expired(now) {
                    Step::Done(Err(Error::Timeout))
                } else {
                    match received {
                        Attempt::Ready(byte) => self.received(byte),
                        Attempt::WouldBlock => Step::Pending(self),
                        Attempt::Failed(e) => Step::Done(Err(Error::Serial(e))),
                    }
                }
            },
            _ => Step::Pending(self),
        }
    }
}

} // verus!
