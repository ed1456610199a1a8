//! The sensor handle: a serial link, a clock, and the exchange under way.
//!
//! Every operation is one poll. It reads the clock, makes at most one call on
//! the link, and either finishes the operation or leaves it pending, to be
//! taken up by the next call of the same operation. A call of another
//! operation drops what was pending and starts afresh. Once an operation is
//! done the handle holds nothing of it.

use crate::codec::{lemma_encoded_is_sound, spec_encode, MAX_PAYLOAD, MAX_RESPONSE};
use crate::command::{
    baseline_payload, be16, be16_bytes, be32, range_payload, spec_baseline_payload, spec_be16,
    spec_be16_bytes, spec_be32, spec_range_payload, CALIBRATE_SPAN, CALIBRATE_ZERO,
    GET_ANALOG_BOUNDS, GET_FIRMWARE_VERSION, GET_RANGE, READ_CONCENTRATION, RESET,
    SET_BASELINE_CORRECTION, SET_RANGE,
};
use crate::error::Error;
use crate::exchange::{lemma_advance, Action, Event, Exchange, Machine, Next, Step};
use crate::probe::{lemma_probe_settles, ProbeState, ProbeStep};
use crate::timing::MonotonicCounter;
use crate::transport::Transport;
use vstd::prelude::*;

verus! {

/// How far an operation has come.
#[derive(Debug, PartialEq, Eq)]
pub enum Progress<T> {
    /// Not done yet: call the operation again.
    Pending,
    /// Done, with this result.
    Done(T),
}

/// What an operation asks of the sensor.
pub struct Order {
    /// The command code.
    pub command: u8,
    /// The bytes sent with it.
    pub payload: Seq<u8>,
    /// Whether a reply is waited for.
    pub awaits_reply: bool,
    /// How many bytes of data the reply is to yield.
    pub response_len: nat,
}

/// The operation under way, in the abstract.
pub struct Flight {
    /// Which attempt of a probe this is; of no account to other operations.
    pub attempt: ProbeState,
    /// The exchange under way.
    pub machine: Machine,
}

/// Whether the operation under way, if there is one, is in a state that the
/// machine can reach.
pub open spec fn reachable(flight: Option<Flight>) -> bool {
    flight matches Some(under_way) ==> under_way.machine.wf()
}

impl Order {
    /// The order with these parts.
    pub open spec fn new(
        command: u8,
        payload: Seq<u8>,
        awaits_reply: bool,
        response_len: nat,
    ) -> Order {
        Order { command, payload, awaits_reply, response_len }
    }

    /// A command whose reply carries `response_len` bytes of data.
    pub open spec fn command(command: u8, payload: Seq<u8>, response_len: nat) -> Order {
        Order { command, payload, awaits_reply: true, response_len }
    }

    /// A command whose reply carries nothing but its own name.
    pub open spec fn simple(command: u8, payload: Seq<u8>) -> Order {
        Order { command, payload, awaits_reply: true, response_len: 0 }
    }

    /// A command that is sent and not answered.
    pub open spec fn send_only(command: u8, payload: Seq<u8>) -> Order {
        Order { command, payload, awaits_reply: false, response_len: 0 }
    }

    /// What a probe asks at each attempt: the concentration, to ignore it.
    pub open spec fn probe() -> Order {
        Order::simple(READ_CONCENTRATION, Seq::empty())
    }

    /// Whether `machine` is an exchange for this order, at whatever point.
    pub open spec fn is_served_by(self, machine: Machine) -> bool {
        &&& machine.request == spec_encode(self.command, self.payload)
        &&& machine.awaits_reply == self.awaits_reply
        &&& machine.response_len == self.response_len
    }

    /// The exchange for this order, at its start.
    pub open spec fn machine(self) -> Machine {
        Machine::begin(self.command, self.payload, self.awaits_reply, self.response_len)
    }

    /// The operation that a poll for this order works on: the one under way
    /// if it is for this order, else a fresh one.
    pub open spec fn resume(self, before: Option<Flight>) -> Flight {
        match before {
            Some(flight) if self.is_served_by(flight.machine) => flight,
            _ => Flight { attempt: ProbeState::First, machine: self.machine() },
        }
    }

    /// What a poll for this order comes to when `event` is what the clock and
    /// the link showed: the operation left under way, if any, and how far it
    /// has come.
    pub open spec fn poll<E>(self, before: Option<Flight>, event: Event<E>) -> (
        Option<Flight>,
        Progress<Result<Seq<u8>, Error<E>>>,
    ) {
        let flight = self.resume(before);
        match flight.machine.advance(event) {
            Next::Pending(machine) => (
                Some(Flight { attempt: flight.attempt, machine }),
                Progress::Pending,
            ),
            Next::Done(result) => (None, Progress::Done(result)),
        }
    }

    /// Whether a poll for this order can lead from `before` to `after` with
    /// `progress`: some event that comes of the action asked for does so, and
    /// what is left under way is in a state that the machine can reach.
    pub open spec fn polled<E>(
        self,
        before: Option<Flight>,
        after: Option<Flight>,
        progress: Progress<Result<Seq<u8>, Error<E>>>,
    ) -> bool {
        &&& reachable(after)
        &&& exists|event: Event<E>| #[trigger]
            self.resume(before).machine.admits(event) && self.poll(before, event) == (
                after,
                progress,
            )
    }

    /// What polls for this order, called one after the other until the
    /// operation is done, come to when `events` are what they see.
    pub open spec fn run<E>(self, before: Option<Flight>, events: Seq<Event<E>>) -> (
        Option<Flight>,
        Progress<Result<Seq<u8>, Error<E>>>,
    )
        decreases events.len(),
    {
        if events.len() == 0 {
            (before, Progress::Pending)
        } else {
            let (after, progress) = self.poll(before, events[0]);
            if progress is Pending {
                self.run(after, events.drop_first())
            } else {
                (after, progress)
            }
        }
    }

    /// Where the exchange `flight` stands after a run of the machine, as a
    /// poll reports it.
    pub open spec fn report<E>(flight: Flight, next: Next<E>) -> (
        Option<Flight>,
        Progress<Result<Seq<u8>, Error<E>>>,
    ) {
        match next {
            Next::Pending(machine) => (
                Some(Flight { attempt: flight.attempt, machine }),
                Progress::Pending,
            ),
            Next::Done(result) => (None, Progress::Done(result)),
        }
    }
}

/// Polls for one order, called one after the other, carry one exchange
/// through: what they come to is what the machine comes to over the same
/// events, begun afresh unless the sensor was at work on that very order.
pub proof fn lemma_polls_run_the_machine<E>(
    order: Order,
    before: Option<Flight>,
    events: Seq<Event<E>>,
)
    requires
        order.payload.len() <= MAX_PAYLOAD,
        order.response_len <= MAX_RESPONSE,
        reachable(before),
        events.len() > 0,
    ensures
        order.run(before, events) == Order::report(
            order.resume(before),
            order.resume(before).machine.run(events),
        ),
    decreases events.len(),
{
    lemma_encoded_is_sound(order.command, order.payload);
    let flight = order.resume(before);
    assert(flight.machine.wf());
    lemma_advance(flight.machine, events[0]);
    let rest = events.drop_first();
    match flight.machine.advance(events[0]) {
        Next::Pending(machine) => {
            let after = Some(Flight { attempt: flight.attempt, machine });
            let pending = Progress::<Result<Seq<u8>, Error<E>>>::Pending;
            assert(order.poll(before, events[0]) == (after, pending));
            assert(order.run(before, events) == order.run(after, rest));
            assert(flight.machine.run(events) == machine.run(rest));
            assert(order.resume(after) == after->0);
            if rest.len() > 0 {
                lemma_polls_run_the_machine(order, after, rest);
            } else {
                assert(machine.run(rest) == Next::<E>::Pending(machine));
                assert(order.run(after, rest) == (after, pending));
            }
        },
        Next::Done(result) => {
            let done = Progress::Done(result);
            assert(order.poll(before, events[0]) == (None::<Flight>, done));
            assert(order.run(before, events) == (None::<Flight>, done));
            assert(flight.machine.run(events) == Next::Done(result));
        },
    }
}

/// What a poll of a probe comes to when `event` is what the clock and the
/// link showed. An exchange that ends is judged: a forgiven failure starts the
/// next attempt, anything else settles the probe.
pub open spec fn probe_poll<E>(before: Option<Flight>, event: Event<E>) -> (
    Option<Flight>,
    Progress<Result<bool, E>>,
) {
    let flight = Order::probe().resume(before);
    match flight.machine.advance(event) {
        Next::Pending(machine) => (
            Some(Flight { attempt: flight.attempt, machine }),
            Progress::Pending,
        ),
        Next::Done(result) => match flight.attempt.spec_next(result) {
            ProbeStep::Retry(attempt) => (
                Some(Flight { attempt, machine: Order::probe().machine() }),
                Progress::Pending,
            ),
            ProbeStep::Settled(verdict) => (None, Progress::Done(verdict)),
        },
    }
}

/// Whether a poll of a probe can lead from `before` to `after` with
/// `progress`: some event that comes of the action asked for does so, and
/// what is left under way is in a state that the machine can reach.
pub open spec fn probe_polled<E>(
    before: Option<Flight>,
    after: Option<Flight>,
    progress: Progress<Result<bool, E>>,
) -> bool {
    &&& reachable(after)
    &&& exists|event: Event<E>| #[trigger]
        Order::probe().resume(before).machine.admits(event) && probe_poll(before, event) == (
            after,
            progress,
        )
}

/// What polls of a probe, called one after the other until the probe is
/// settled, come to when `events` are what they see.
pub open spec fn probe_run<E>(before: Option<Flight>, events: Seq<Event<E>>) -> (
    Option<Flight>,
    Progress<Result<bool, E>>,
)
    decreases events.len(),
{
    if events.len() == 0 {
        (before, Progress::Pending)
    } else {
        let (after, progress) = probe_poll(before, events[0]);
        if progress is Pending {
            probe_run(after, events.drop_first())
        } else {
            (after, progress)
        }
    }
}

/// The flight of a probe at the start of `attempt`.
pub open spec fn probe_flight(attempt: ProbeState) -> Flight {
    Flight { attempt, machine: Order::probe().machine() }
}

/// How a probe goes on over `rest` once an attempt has ended with `result`.
pub open spec fn probe_goes_on<E>(
    attempt: ProbeState,
    result: Result<Seq<u8>, Error<E>>,
    rest: Seq<Event<E>>,
) -> (Option<Flight>, Progress<Result<bool, E>>) {
    match attempt.spec_next(result) {
        ProbeStep::Retry(next) => probe_run(Some(probe_flight(next)), rest),
        ProbeStep::Settled(verdict) => (None, Progress::Done(verdict)),
    }
}

/// Whether `events` carry one exchange from `machine` to its end with
/// `result`, the last of them being the one that ends it.
pub open spec fn completes<E>(
    machine: Machine,
    events: Seq<Event<E>>,
    result: Result<Seq<u8>, Error<E>>,
) -> bool {
    &&& events.len() > 0
    &&& machine.run(events.drop_last()) matches Next::Pending(next) && next.advance(
        events.last(),
    ) == Next::Done(result)
}

/// The polls of a probe carry the attempt under way to its end, and the
/// outcome of that attempt decides how the probe goes on: with a fresh
/// exchange for the next attempt, or not at all.
pub proof fn lemma_probe_attempt<E>(
    before: Option<Flight>,
    events: Seq<Event<E>>,
    result: Result<Seq<u8>, Error<E>>,
    rest: Seq<Event<E>>,
)
    requires
        reachable(before),
        completes(Order::probe().resume(before).machine, events, result),
    ensures
        probe_run(before, events + rest) == probe_goes_on(
            Order::probe().resume(before).attempt,
            result,
            rest,
        ),
    decreases events.len(),
{
    let order = Order::probe();
    lemma_encoded_is_sound(order.command, order.payload);
    let flight = order.resume(before);
    let all = events + rest;
    let head = events.drop_last();
    assert(all[0] == events[0]);
    assert(all.drop_first() =~= events.drop_first() + rest);
    lemma_advance(flight.machine, events[0]);
    if head.len() == 0 {
        assert(events.last() == events[0]);
        assert(events.drop_first() + rest =~= rest);
    } else {
        assert(head[0] == events[0]);
        let machine = flight.machine.advance(events[0])->Pending_0;
        let after = Some(Flight { attempt: flight.attempt, machine });
        assert(flight.machine.run(head) == machine.run(head.drop_first()));
        assert(head.drop_first() =~= events.drop_first().drop_last());
        assert(events.drop_first().last() == events.last());
        assert(order.resume(after) == after->0);
        lemma_probe_attempt(after, events.drop_first(), result, rest);
    }
}

/// A probe over three attempts, each carried to its end: the verdict is what
/// the outcomes of the attempts decide in their order. Events that follow
/// the attempt that settles the probe are not looked at.
pub proof fn lemma_probe_over_three_attempts<E>(
    first: Seq<Event<E>>,
    second: Seq<Event<E>>,
    third: Seq<Event<E>>,
    outcomes: Seq<Result<Seq<u8>, Error<E>>>,
)
    requires
        outcomes.len() == 3,
        completes(Order::probe().machine(), first, outcomes[0]),
        completes(Order::probe().machine(), second, outcomes[1]),
        completes(Order::probe().machine(), third, outcomes[2]),
    ensures
        ProbeState::First.spec_run(outcomes) matches ProbeStep::Settled(verdict) && probe_run(
            None,
            first + (second + third),
        ) == (None::<Flight>, Progress::Done(verdict)),
{
    let order = Order::probe();
    lemma_encoded_is_sound(order.command, order.payload);
    lemma_probe_settles(outcomes);
    reveal_with_fuel(ProbeState::spec_run, 4);
    assert(outcomes.drop_first()[0] == outcomes[1]);
    assert(outcomes.drop_first().drop_first()[0] == outcomes[2]);
    lemma_probe_attempt(None, first, outcomes[0], second + third);
    lemma_probe_attempt(Some(probe_flight(ProbeState::Second)), second, outcomes[1], third);
    assert(third + Seq::<Event<E>>::empty() =~= third);
    lemma_probe_attempt(
        Some(probe_flight(ProbeState::Last)),
        third,
        outcomes[2],
        Seq::<Event<E>>::empty(),
    );
}

/// The progress of an operation with the data of its reply read as `T`.
pub open spec fn read_as<T, E>(
    progress: Progress<Result<Seq<u8>, Error<E>>>,
    reading: spec_fn(Seq<u8>) -> T,
) -> Progress<Result<T, Error<E>>> {
    match progress {
        Progress::Pending => Progress::Pending,
        Progress::Done(Ok(data)) => Progress::Done(Ok(reading(data))),
        Progress::Done(Err(e)) => Progress::Done(Err(e)),
    }
}

/// How many bytes of data an operation has handed out, if it has.
pub open spec fn data_len<E>(progress: Progress<Result<Seq<u8>, Error<E>>>) -> Option<nat> {
    match progress {
        Progress::Done(Ok(data)) => Some(data.len()),
        _ => None,
    }
}

/// The progress of an operation as the machine states it.
pub open spec fn data_view<E>(progress: Progress<Result<Vec<u8>, Error<E>>>) -> Progress<
    Result<Seq<u8>, Error<E>>,
> {
    match progress {
        Progress::Pending => Progress::Pending,
        Progress::Done(Ok(data)) => Progress::Done(Ok(data@)),
        Progress::Done(Err(e)) => Progress::Done(Err(e)),
    }
}

/// The progress of an operation whose reply is four bytes kept as they are.
pub open spec fn version_view<E>(progress: Progress<Result<[u8; 4], Error<E>>>) -> Progress<
    Result<Seq<u8>, Error<E>>,
> {
    match progress {
        Progress::Pending => Progress::Pending,
        Progress::Done(Ok(data)) => Progress::Done(Ok(data@)),
        Progress::Done(Err(e)) => Progress::Done(Err(e)),
    }
}

#[derive(Clone, Copy, Debug)]
struct InFlight {
    attempt: ProbeState,
    exchange: Exchange,
}

impl InFlight {
    spec fn model(self) -> Flight {
        Flight { attempt: self.attempt, machine: self.exchange@ }
    }
}

/// A sensor on a serial link, with the clock that bounds every exchange.
pub struct WinsenSensor<S, C> {
    serial: S,
    counter: C,
    flight: Option<InFlight>,
}

impl<S, C> WinsenSensor<S, C> {
    /// The link that the sensor is on.
    pub closed spec fn serial(&self) -> S {
        self.serial
    }

    /// The clock that bounds the exchanges.
    pub closed spec fn counter(&self) -> C {
        self.counter
    }

    /// The operation under way, if any.
    pub closed spec fn flight(&self) -> Option<Flight> {
        match self.flight {
            Some(flight) => Some(flight.model()),
            None => None,
        }
    }
}

impl<S: Transport, C: MonotonicCounter> WinsenSensor<S, C> {
    /// Binds a link and a clock. Nothing is sent or read.
    pub fn new(serial: S, counter: C) -> (sensor: Self)
        ensures
            sensor.serial() == serial,
            sensor.counter() == counter,
            sensor.flight() is None,
    {
        Self { serial, counter, flight: None }
    }

    /// Gives the link and the clock back. An operation under way is dropped.
    pub fn free(self) -> (parts: (S, C))
        ensures
            parts == (self.serial(), self.counter()),
    {
        (self.serial, self.counter)
    }

    /// Whether no operation is under way.
    pub fn is_idle(&self) -> (idle: bool)
        ensures
            idle == (self.flight() is None),
    {
        self.flight.is_none()
    }

    /// The operation that a poll works on: the one under way if it is for the
    /// same order, else a fresh one.
    fn resume(
        &self,
        command: u8,
        payload: &[u8],
        awaits_reply: bool,
        response_len: usize,
    ) -> (flight: InFlight)
        requires
            payload.len() <= MAX_PAYLOAD,
            response_len <= MAX_RESPONSE,
        ensures
            flight.model() == Order::new(
                command,
                payload@,
                awaits_reply,
                response_len as nat,
            ).resume(self.flight()),
    {
        match self.flight {
            Some(flight) => {
                if flight.exchange.is_for(command, payload, awaits_reply, response_len) {
                    flight
                } else {
                    InFlight {
                        attempt: ProbeState::First,
                        exchange: Exchange::begin(command, payload, awaits_reply, response_len),
                    }
                }
            },
            None => InFlight {
                attempt: ProbeState::First,
                exchange: Exchange::begin(command, payload, awaits_reply, response_len),
            },
        }
    }

    /// One attempt at the byte of the request that is due: the clock is read,
    /// and unless the deadline has passed the byte is offered to the link.
    fn send_packet(&mut self, exchange: &Exchange, byte: u8) -> (event: Event<S::Error>)
        requires
            exchange@.action() == Action::Write(byte),
        ensures
            exchange@.admits(event),
            final(self).flight() == old(self).flight(),
    {
        let now: u32 = self.counter.value();
        if exchange.expired(now) {
            Event::Late { now }
        } else {
            Event::Wrote { now, byte, written: self.serial.write(byte) }
        }
    }

    /// One attempt at the next byte of the reply: the clock is read, and
    /// unless the deadline has passed a byte is asked of the link.
    fn receive_packet(&mut self, exchange: &Exchange) -> (event: Event<S::Error>)
        requires
            exchange@.action() is Read,
        ensures
            exchange@.admits(event),
            final(self).flight() == old(self).flight(),
    {
        let now: u32 = self.counter.value();
        if exchange.expired(now) {
            Event::Late { now }
        } else {
            Event::Read { now, received: self.serial.read() }
        }
    }

    /// Does what the exchange asks for next and reports what came of it.
    fn observe(&mut self, exchange: &Exchange) -> (event: Event<S::Error>)
        ensures
            exchange@.admits(event),
            final(self).flight() == old(self).flight(),
    {
        match exchange.action() {
            Action::Arm => Event::Armed {
                value: self.counter.value(),
                frequency: self.counter.frequency(),
            },
            Action::Write(byte) => self.send_packet(exchange, byte),
            Action::Read => self.receive_packet(exchange),
        }
    }

    /// One poll of the exchange for an order.
    fn poll(
        &mut self,
        command: u8,
        payload: &[u8],
        awaits_reply: bool,
        response_len: usize,
    ) -> (progress: Progress<Result<Vec<u8>, Error<S::Error>>>)
        requires
            payload.len() <= MAX_PAYLOAD,
            response_len <= MAX_RESPONSE,
        ensures
            Order::new(command, payload@, awaits_reply, response_len as nat).polled(
                old(self).flight(),
                final(self).flight(),
                data_view(progress),
            ),
            data_len(data_view(progress)) is Some ==> data_len(data_view(progress)) == Some(
                if awaits_reply {
                    response_len as nat
                } else {
                    0nat
                },
            ),
    {
        let ghost order = Order::new(command, payload@, awaits_reply, response_len as nat);
        let ghost before = self.flight();
        let flight = self.resume(command, payload, awaits_reply, response_len);
        let event = self.observe(&flight.exchange);
        let ghost seen = event;
        let step = flight.exchange.advance(event);
        proof {
            lemma_advance(flight.exchange@, seen);
        }
        let progress = match step {
            Step::Pending(exchange) => {
                self.flight = Some(InFlight { attempt: flight.attempt, exchange });
                Progress::Pending
            },
            Step::Done(result) => {
                self.flight = None;
                Progress::Done(result)
            },
        };
        assert(order.resume(before).machine.admits(seen) && order.poll(before, seen) == (
            self.flight(),
            data_view(progress),
        ));
        progress
    }

    /// One poll of a command whose reply carries `response_len` bytes of
    /// data. When the exchange is over, the data or the reason of the failure
    /// is handed out.
    pub fn command(&mut self, command: u8, payload: &[u8], response_len: usize) -> (progress:
        Progress<Result<Vec<u8>, Error<S::Error>>>)
        requires
            payload.len() <= MAX_PAYLOAD,
            response_len <= MAX_RESPONSE,
        ensures
            Order::command(command, payload@, response_len as nat).polled(
                old(self).flight(),
                final(self).flight(),
                data_view(progress),
            ),
            data_len(data_view(progress)) is Some ==> data_len(data_view(progress)) == Some(
                response_len as nat,
            ),
    {
        self.poll(command, payload, true, response_len)
    }

    /// One poll of a command whose reply carries no data. The whole exchange
    /// takes place all the same: the reply is waited for and checked.
    pub fn simple_command(&mut self, command: u8, payload: &[u8]) -> (progress: Progress<
        Result<(), Error<S::Error>>,
    >)
        requires
            payload.len() <= MAX_PAYLOAD,
        ensures
            exists|raw: Progress<Result<Seq<u8>, Error<S::Error>>>| #[trigger]
                Order::simple(command, payload@).polled(
                    old(self).flight(),
                    final(self).flight(),
                    raw,
                ) && progress == read_as(raw, |data: Seq<u8>| ()),
    {
        let raw = self.poll(command, payload, true, 0);
        let progress = match raw {
            Progress::Pending => Progress::Pending,
            Progress::Done(Ok(_)) => Progress::Done(Ok(())),
            Progress::Done(Err(e)) => Progress::Done(Err(e)),
        };
        assert(Order::simple(command, payload@).polled(
            old(self).flight(),
            self.flight(),
            data_view(raw),
        ) && progress == read_as(data_view(raw), |data: Seq<u8>| ()));
        progress
    }

    /// One poll of a request that is sent and not answered.
    fn send_only(&mut self, command: u8, payload: &[u8]) -> (progress: Progress<
        Result<(), Error<S::Error>>,
    >)
        requires
            payload.len() <= MAX_PAYLOAD,
        ensures
            exists|raw: Progress<Result<Seq<u8>, Error<S::Error>>>| #[trigger]
                Order::send_only(command, payload@).polled(
                    old(self).flight(),
                    final(self).flight(),
                    raw,
                ) && progress == read_as(raw, |data: Seq<u8>| ()),
    {
        let raw = self.poll(command, payload, false, 0);
        let progress = match raw {
            Progress::Pending => Progress::Pending,
            Progress::Done(Ok(_)) => Progress::Done(Ok(())),
            Progress::Done(Err(e)) => Progress::Done(Err(e)),
        };
        assert(Order::send_only(command, payload@).polled(
            old(self).flight(),
            self.flight(),
            data_view(raw),
        ) && progress == read_as(data_view(raw), |data: Seq<u8>| ()));
        progress
    }

    /// One poll of the probe that tells whether a sensor is there. Each
    /// attempt asks for the concentration and ignores the value. A failure of
    /// the protocol is forgiven twice; the third decides. A fault of the link
    /// ends the probe at once.
    pub fn probe(&mut self) -> (progress: Progress<Result<bool, S::Error>>)
        ensures
            probe_polled(old(self).flight(), final(self).flight(), progress),
    {
        let ghost before = self.flight();
        let none: [u8; 0] = [];
        let flight = self.resume(READ_CONCENTRATION, none.as_slice(), true, 0);
        assert(none@ =~= Seq::<u8>::empty());
        let event = self.observe(&flight.exchange);
        let ghost seen = event;
        let progress = match flight.exchange.advance(event) {
            Step::Pending(exchange) => {
                self.flight = Some(InFlight { attempt: flight.attempt, exchange });
                Progress::Pending
            },
            Step::Done(result) => match flight.attempt.next(result) {
                ProbeStep::Retry(attempt) => {
                    let exchange = Exchange::begin(READ_CONCENTRATION, none.as_slice(), true, 0);
                    self.flight = Some(InFlight { attempt, exchange });
                    Progress::Pending
                },
                ProbeStep::Settled(verdict) => {
                    self.flight = None;
                    Progress::Done(verdict)
                },
            },
        };
        assert(Order::probe().resume(before).machine.admits(seen) && probe_poll(before, seen) == (
            self.flight(),
            progress,
        ));
        progress
    }

    /// One poll of reading the CO2 concentration, in parts per million.
    pub fn read_co2_concentration(&mut self) -> (progress: Progress<Result<u16, Error<S::Error>>>)
        ensures
            exists|raw: Progress<Result<Seq<u8>, Error<S::Error>>>| #[trigger]
                Order::command(READ_CONCENTRATION, Seq::empty(), 2).polled(
                    old(self).flight(),
                    final(self).flight(),
                    raw,
                ) && progress == read_as(raw, |data: Seq<u8>| spec_be16(data[0], data[1])),
    {
        let none: [u8; 0] = [];
        let raw = self.poll(READ_CONCENTRATION, none.as_slice(), true, 2);
        assert(none@ =~= Seq::<u8>::empty());
        let progress = match raw {
            Progress::Pending => Progress::Pending,
            Progress::Done(Ok(data)) => Progress::Done(Ok(be16(data[0], data[1]))),
            Progress::Done(Err(e)) => Progress::Done(Err(e)),
        };
        assert(Order::command(READ_CONCENTRATION, Seq::empty(), 2).polled(
            old(self).flight(),
            self.flight(),
            data_view(raw),
        ) && progress == read_as(data_view(raw), |data: Seq<u8>| spec_be16(data[0], data[1])));
        progress
    }

    /// One poll of switching automatic baseline correction on or off.
    pub fn set_automatic_baseline_correction(&mut self, enabled: bool) -> (progress: Progress<
        Result<(), Error<S::Error>>,
    >)
        ensures
            exists|raw: Progress<Result<Seq<u8>, Error<S::Error>>>| #[trigger]
                Order::simple(SET_BASELINE_CORRECTION, spec_baseline_payload(enabled)).polled(
                    old(self).flight(),
                    final(self).flight(),
                    raw,
                ) && progress == read_as(raw, |data: Seq<u8>| ()),
    {
        let payload = baseline_payload(enabled);
        self.simple_command(SET_BASELINE_CORRECTION, payload.as_slice())
    }

    /// One poll of calibrating the zero point. The sensor must have stood in
    /// air of 400 ppm for twenty minutes.
    pub fn calibrate_zero_point(&mut self) -> (progress: Progress<Result<(), Error<S::Error>>>)
        ensures
            exists|raw: Progress<Result<Seq<u8>, Error<S::Error>>>| #[trigger]
                Order::simple(CALIBRATE_ZERO, Seq::empty()).polled(
                    old(self).flight(),
                    final(self).flight(),
                    raw,
                ) && progress == read_as(raw, |data: Seq<u8>| ()),
    {
        let none: [u8; 0] = [];
        assert(none@ =~= Seq::<u8>::empty());
        self.simple_command(CALIBRATE_ZERO, none.as_slice())
    }

    /// One poll of calibrating the span point at `span` parts per million.
    /// The zero point is to be calibrated first.
    pub fn calibrate_span_point(&mut self, span: u16) -> (progress: Progress<
        Result<(), Error<S::Error>>,
    >)
        ensures
            exists|raw: Progress<Result<Seq<u8>, Error<S::Error>>>| #[trigger]
                Order::simple(CALIBRATE_SPAN, spec_be16_bytes(span)).polled(
                    old(self).flight(),
                    final(self).flight(),
                    raw,
                ) && progress == read_as(raw, |data: Seq<u8>| ()),
    {
        let payload = be16_bytes(span);
        self.simple_command(CALIBRATE_SPAN, payload.as_slice())
    }

    /// One poll of setting the detection range, in parts per million.
    pub fn set_detection_range(&mut self, range: u32) -> (progress: Progress<
        Result<(), Error<S::Error>>,
    >)
        ensures
            exists|raw: Progress<Result<Seq<u8>, Error<S::Error>>>| #[trigger]
                Order::simple(SET_RANGE, spec_range_payload(range)).polled(
                    old(self).flight(),
                    final(self).flight(),
                    raw,
                ) && progress == read_as(raw, |data: Seq<u8>| ()),
    {
        let payload = range_payload(range);
        self.simple_command(SET_RANGE, payload.as_slice())
    }

    /// One poll of reading the detection range, in parts per million.
    pub fn get_detection_range(&mut self) -> (progress: Progress<Result<u32, Error<S::Error>>>)
        ensures
            exists|raw: Progress<Result<Seq<u8>, Error<S::Error>>>| #[trigger]
                Order::command(GET_RANGE, Seq::empty(), 4).polled(
                    old(self).flight(),
                    final(self).flight(),
                    raw,
                ) && progress == read_as(
                    raw,
                    |data: Seq<u8>| spec_be32(data[0], data[1], data[2], data[3]),
                ),
    {
        let none: [u8; 0] = [];
        let raw = self.poll(GET_RANGE, none.as_slice(), true, 4);
        assert(none@ =~= Seq::<u8>::empty());
        let progress = match raw {
            Progress::Pending => Progress::Pending,
            Progress::Done(Ok(data)) => Progress::Done(
                Ok(be32(data[0], data[1], data[2], data[3])),
            ),
            Progress::Done(Err(e)) => Progress::Done(Err(e)),
        };
        assert(Order::command(GET_RANGE, Seq::empty(), 4).polled(
            old(self).flight(),
            self.flight(),
            data_view(raw),
        ) && progress == read_as(
            data_view(raw),
            |data: Seq<u8>| spec_be32(data[0], data[1], data[2], data[3]),
        ));
        progress
    }

    /// One poll of restarting the sensor. The request is sent and no reply is
    /// waited for: a sensor that restarts does not answer.
    pub fn reset(&mut self) -> (progress: Progress<Result<(), Error<S::Error>>>)
        ensures
            exists|raw: Progress<Result<Seq<u8>, Error<S::Error>>>| #[trigger]
                Order::send_only(RESET, Seq::empty()).polled(
                    old(self).flight(),
                    final(self).flight(),
                    raw,
                ) && progress == read_as(raw, |data: Seq<u8>| ()),
    {
        let none: [u8; 0] = [];
        assert(none@ =~= Seq::<u8>::empty());
        self.send_only(RESET, none.as_slice())
    }

    /// One poll of reading the concentrations that bound the analog output:
    /// the high one, then the low one, in parts per million.
    pub fn get_analog_bounds(&mut self) -> (progress: Progress<
        Result<(u16, u16), Error<S::Error>>,
    >)
        ensures
            exists|raw: Progress<Result<Seq<u8>, Error<S::Error>>>| #[trigger]
                Order::command(GET_ANALOG_BOUNDS, Seq::empty(), 4).polled(
                    old(self).flight(),
                    final(self).flight(),
                    raw,
                ) && progress == read_as(
                    raw,
                    |data: Seq<u8>| (spec_be16(data[0], data[1]), spec_be16(data[2], data[3])),
                ),
    {
        let none: [u8; 0] = [];
        let raw = self.poll(GET_ANALOG_BOUNDS, none.as_slice(), true, 4);
        assert(none@ =~= Seq::<u8>::empty());
        let progress = match raw {
            Progress::Pending => Progress::Pending,
            Progress::Done(Ok(data)) => Progress::Done(
                Ok((be16(data[0], data[1]), be16(data[2], data[3]))),
            ),
            Progress::Done(Err(e)) => Progress::Done(Err(e)),
        };
        assert(Order::command(GET_ANALOG_BOUNDS, Seq::empty(), 4).polled(
            old(self).flight(),
            self.flight(),
            data_view(raw),
        ) && progress == read_as(
            data_view(raw),
            |data: Seq<u8>| (spec_be16(data[0], data[1]), spec_be16(data[2], data[3])),
        ));
        progress
    }

    /// One poll of reading the firmware version: four bytes as the sensor
    /// sends them.
    pub fn get_firmware_version(&mut self) -> (progress: Progress<
        Result<[u8; 4], Error<S::Error>>,
    >)
        ensures
            Order::command(GET_FIRMWARE_VERSION, Seq::empty(), 4).polled(
                old(self).flight(),
                final(self).flight(),
                version_view(progress),
            ),
    {
        let none: [u8; 0] = [];
        let raw = self.poll(GET_FIRMWARE_VERSION, none.as_slice(), true, 4);
        assert(none@ =~= Seq::<u8>::empty());
        let progress = match raw {
            Progress::Pending => Progress::Pending,
            Progress::Done(Ok(data)) => {
                let version: [u8; 4] = [data[0], data[1], data[2], data[3]];
                assert(version@ =~= data@);
                Progress::Done(Ok(version))
            },
            Progress::Done(Err(e)) => Progress::Done(Err(e)),
        };
        assert(version_view(progress) == data_view(raw));
        progress
    }
}

} // verus!
