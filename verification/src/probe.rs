//! How presence of a sensor is decided at startup.
//!
//! Right after power-up the first exchanges may be garbled by whatever else
//! talks on the wire, so a failure of the protocol is forgiven twice. A fault
//! of the link is never forgiven.

use crate::error::Error;
use vstd::prelude::*;

verus! {

/// Which attempt of a probe is under way.
#[derive(Clone, Copy, Debug, PartialEq, Eq)]
pub enum ProbeState {
    /// The first attempt.
    First,
    /// The second attempt.
    Second,
    /// The last attempt: its outcome is the answer.
    Last,
}

/// What a probe does once an attempt is over.
#[derive(Debug, PartialEq, Eq)]
pub enum ProbeStep<E> {
    /// The attempt is forgiven: make this one next.
    Retry(ProbeState),
    /// The probe is over: a sensor answers, or none does, or the link is at
    /// fault.
    Settled(Result<bool, E>),
}

impl ProbeState {
    /// How many attempts came before this one.
    pub open spec fn rank(self) -> nat {
        match self {
            ProbeState::First => 0,
            ProbeState::Second => 1,
            ProbeState::Last => 2,
        }
    }

    /// What follows when the attempt ended with `outcome`.
    pub open spec fn spec_next<T, E>(self, outcome: Result<T, Error<E>>) -> ProbeStep<E> {
        match outcome {
            Ok(_) => ProbeStep::Settled(Ok(true)),
            Err(Error::Serial(e)) => ProbeStep::Settled(Err(e)),
            Err(_) => match self {
                ProbeState::First => ProbeStep::Retry(ProbeState::Second),
                ProbeState::Second => ProbeStep::Retry(ProbeState::Last),
                ProbeState::Last => ProbeStep::Settled(Ok(false)),
            },
        }
    }

    /// Where a probe stands after the attempts that ended with `outcomes`, in
    /// that order: outcomes after the one that settles it are not looked at.
    pub open spec fn spec_run<T, E>(self, outcomes: Seq<Result<T, Error<E>>>) -> ProbeStep<E>
        decreases outcomes.len(),
    {
        if outcomes.len() == 0 {
            ProbeStep::Retry(self)
        } else {
            match self.spec_next(outcomes[0]) {
                ProbeStep::Retry(state) => state.spec_run(outcomes.drop_first()),
                settled => settled,
            }
        }
    }

    /// Decides what follows when the attempt ended with `outcome`: success
    /// settles the probe, a fault of the link ends it, and a failure of the
    /// protocol is forgiven unless this was the last attempt.
    pub fn next<T, E>(self, outcome: Result<T, Error<E>>) -> (step: ProbeStep<E>)
        ensures
            step == self.spec_next(outcome),
            step matches ProbeStep::Retry(state) ==> state.rank() == self.rank() + 1,
    {
        match outcome {
            Ok(_) => ProbeStep::Settled(Ok(true)),
            Err(Error::Serial(e)) => ProbeStep::Settled(Err(e)),
            Err(_) => match self {
                ProbeState::First => ProbeStep::Retry(ProbeState::Second),
                ProbeState::Second => ProbeStep::Retry(ProbeState::Last),
                ProbeState::Last => ProbeStep::Settled(Ok(false)),
            },
        }
    }
}

/// A probe is settled after three attempts at the latest.
pub proof fn lemma_probe_settles<T, E>(outcomes: Seq<Result<T, Error<E>>>)
    requires
        outcomes.len() >= 3,
    ensures
        ProbeState::First.spec_run(outcomes) is Settled,
{
    let second = outcomes.drop_first();
    let third = second.drop_first();
    reveal_with_fuel(ProbeState::spec_run, 4);
    assert(second[0] == outcomes[1]);
    assert(third[0] == outcomes[2]);
}

/// A fault of the link ends a probe at whatever attempt it shows, and is
/// handed on as it is.
pub proof fn lemma_probe_fault_is_fatal<T, E>(state: ProbeState, fault: E)
    ensures
        state.spec_next(Err::<T, Error<E>>(Error::Serial(fault))) == ProbeStep::Settled(
            Err::<bool, E>(fault),
        ),
{
}

/// Two attempts that fail in the protocol are forgiven: a third that
/// succeeds shows the sensor present.
pub proof fn lemma_probe_forgives_twice<T, E>(first: Error<E>, second: Error<E>, data: T)
    requires
        first.is_protocol(),
        second.is_protocol(),
    ensures
        ProbeState::First.spec_run(seq![Err(first), Err(second), Ok(data)])
            == ProbeStep::Settled(Ok::<bool, E>(true)),
{
    let outcomes = seq![Err::<T, Error<E>>(first), Err(second), Ok(data)];
    let second_on = outcomes.drop_first();
    let third_on = second_on.drop_first();
    reveal_with_fuel(ProbeState::spec_run, 4);
    assert(second_on[0] == outcomes[1]);
    assert(third_on[0] == outcomes[2]);
}

/// Three attempts that fail in the protocol show that no sensor answers.
pub proof fn lemma_probe_gives_up<T, E>(first: Error<E>, second: Error<E>, third: Error<E>)
    requires
        first.is_protocol(),
        second.is_protocol(),
        third.is_protocol(),
    ensures
        ProbeState::First.spec_run(seq![Err::<T, Error<E>>(first), Err(second), Err(third)])
            == ProbeStep::Settled(Ok::<bool, E>(false)),
{
    let outcomes = seq![Err::<T, Error<E>>(first), Err(second), Err(third)];
    let second_on = outcomes.drop_first();
    let third_on = second_on.drop_first();
    reveal_with_fuel(ProbeState::spec_run, 4);
    assert(second_on[0] == outcomes[1]);
    assert(third_on[0] == outcomes[2]);
}

} // verus!
