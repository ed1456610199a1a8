use winsen_co2_sensor::probe::{ProbeState, ProbeStep};
use winsen_co2_sensor::Error;

#[derive(Debug, PartialEq, Eq, Clone, Copy)]
struct Fault(u8);

fn protocol_failures() -> Vec<Error<Fault>> {
    vec![Error::Timeout, Error::WrongChecksum, Error::WrongPacketType]
}

#[test]
fn success_settles_at_every_attempt() {
    for state in [ProbeState::First, ProbeState::Second, ProbeState::Last] {
        assert_eq!(state.next::<(), Fault>(Ok(())), ProbeStep::Settled(Ok(true)));
    }
}

#[test]
fn value_of_the_reply_is_ignored() {
    assert_eq!(
        ProbeState::First.next::<Vec<u8>, Fault>(Ok(vec![1, 2, 3])),
        ProbeStep::Settled(Ok(true))
    );
}

#[test]
fn link_fault_is_fatal_at_every_attempt() {
    for state in [ProbeState::First, ProbeState::Second, ProbeState::Last] {
        assert_eq!(
            state.next::<(), Fault>(Err(Error::Serial(Fault(7)))),
            ProbeStep::Settled(Err(Fault(7)))
        );
    }
}

#[test]
fn first_failure_is_forgiven() {
    for failure in protocol_failures() {
        assert_eq!(
            ProbeState::First.next::<(), Fault>(Err(failure)),
            ProbeStep::Retry(ProbeState::Second)
        );
    }
}

#[test]
fn second_failure_is_forgiven() {
    for failure in protocol_failures() {
        assert_eq!(
            ProbeState::Second.next::<(), Fault>(Err(failure)),
            ProbeStep::Retry(ProbeState::Last)
        );
    }
}

#[test]
fn third_failure_means_absent() {
    for failure in protocol_failures() {
        assert_eq!(
            ProbeState::Last.next::<(), Fault>(Err(failure)),
            ProbeStep::Settled(Ok(false))
        );
    }
}

fn failure(kind: usize) -> Error<Fault> {
    match kind {
        0 => Error::Timeout,
        1 => Error::WrongChecksum,
        _ => Error::WrongPacketType,
    }
}

#[test]
fn never_more_than_three_attempts() {
    for a in 0..3 {
        for b in 0..3 {
            for c in 0..3 {
                let mut state = ProbeState::First;
                let mut attempts = 0;
                let mut outcomes = vec![failure(a), failure(b), failure(c)].into_iter();
                let verdict = loop {
                    attempts += 1;
                    match state.next::<(), Fault>(Err(outcomes.next().unwrap())) {
                        ProbeStep::Retry(next) => state = next,
                        ProbeStep::Settled(verdict) => break verdict,
                    }
                };
                assert_eq!(attempts, 3);
                assert_eq!(verdict, Ok(false));
            }
        }
    }
}
