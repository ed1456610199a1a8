use std::cell::RefCell;
use std::collections::VecDeque;
use std::rc::Rc;
use winsen_co2_sensor::{Attempt, Error, MonotonicCounter, Progress, Transport, WinsenSensor};

#[derive(Debug, PartialEq, Eq, Clone, Copy)]
struct Fault(u8);

/// A link that plays a script: what each read brings, and what each write
/// comes to. Reads past the script would block; writes past it go through.
#[derive(Default)]
struct Script {
    incoming: VecDeque<Attempt<u8, Fault>>,
    outgoing: VecDeque<Attempt<(), Fault>>,
    accepted: Vec<u8>,
    offered: Vec<u8>,
    reads: usize,
}

impl Script {
    fn bringing(bytes: &[u8]) -> Script {
        let mut script = Script::default();
        script.bring(bytes);
        script
    }

    fn bring(&mut self, bytes: &[u8]) {
        for byte in bytes {
            self.incoming.push_back(Attempt::Ready(*byte));
        }
    }
}

impl Transport for Script {
    type Error = Fault;

    fn read(&mut self) -> Attempt<u8, Fault> {
        self.reads += 1;
        self.incoming.pop_front().unwrap_or(Attempt::WouldBlock)
    }

    fn write(&mut self, byte: u8) -> Attempt<(), Fault> {
        self.offered.push(byte);
        let outcome = self.outgoing.pop_front().unwrap_or(Attempt::Ready(()));
        if outcome == Attempt::Ready(()) {
            self.accepted.push(byte);
        }
        outcome
    }
}

/// A clock that moves on by `step` each time it is read.
struct Ticking {
    now: RefCell<u32>,
    step: u32,
    frequency: u32,
}

impl Ticking {
    fn new(start: u32, step: u32, frequency: u32) -> Ticking {
        Ticking { now: RefCell::new(start), step, frequency }
    }
}

impl MonotonicCounter for Ticking {
    fn value(&self) -> u32 {
        let now = *self.now.borrow();
        *self.now.borrow_mut() = now.wrapping_add(self.step);
        now
    }

    fn frequency(&self) -> u32 {
        self.frequency
    }
}

/// A clock that reads what it is told to read, one value after the other,
/// and keeps the last one.
struct Told {
    values: Rc<RefCell<VecDeque<u32>>>,
    last: RefCell<u32>,
    frequency: u32,
}

impl Told {
    fn new(values: &[u32], frequency: u32) -> Told {
        Told {
            values: Rc::new(RefCell::new(values.iter().copied().collect())),
            last: RefCell::new(0),
            frequency,
        }
    }
}

impl MonotonicCounter for Told {
    fn value(&self) -> u32 {
        if let Some(value) = self.values.borrow_mut().pop_front() {
            *self.last.borrow_mut() = value;
        }
        *self.last.borrow()
    }

    fn frequency(&self) -> u32 {
        self.frequency
    }
}

fn reply(command: u8, data: &[u8]) -> [u8; 9] {
    let mut frame = [0u8; 9];
    frame[0] = 0xFF;
    frame[1] = command;
    frame[2..2 + data.len()].copy_from_slice(data);
    let mut sum: u8 = 0;
    for byte in &frame[..8] {
        sum = sum.wrapping_add(*byte);
    }
    frame[8] = 0xFFu8.wrapping_sub(sum);
    frame
}

fn corrupted(command: u8, data: &[u8]) -> [u8; 9] {
    let mut frame = reply(command, data);
    frame[8] = frame[8].wrapping_add(1);
    frame
}

/// Calls `poll` until the operation is done, as a caller that waits would.
fn wait<T>(mut poll: impl FnMut() -> Progress<T>) -> (T, usize) {
    let mut polls = 0;
    loop {
        polls += 1;
        assert!(polls < 100_000, "the operation never ends");
        if let Progress::Done(result) = poll() {
            return (result, polls);
        }
    }
}

fn still(start: u32) -> Ticking {
    Ticking::new(start, 0, 1000)
}

const READ_REQUEST: [u8; 9] = [0xFF, 0x01, 0x86, 0, 0, 0, 0, 0, 0x79];

#[test]
fn new_sensor_is_idle_and_free_gives_the_parts_back() {
    let sensor = WinsenSensor::new(Script::bringing(&[1, 2, 3]), still(77));
    assert!(sensor.is_idle());
    let (serial, counter) = sensor.free();
    assert_eq!(serial.reads, 0);
    assert!(serial.offered.is_empty());
    assert_eq!(serial.incoming.len(), 3);
    assert_eq!(*counter.now.borrow(), 77);
}

#[test]
fn concentration_of_600() {
    let script = Script::bringing(&reply(0x86, &[0x02, 0x58]));
    let mut sensor = WinsenSensor::new(script, still(0));
    let (result, _) = wait(|| sensor.read_co2_concentration());
    assert_eq!(result, Ok(600));
    assert!(sensor.is_idle());
    let (serial, _) = sensor.free();
    assert_eq!(serial.accepted, READ_REQUEST);
    assert_eq!(serial.reads, 9);
}

#[test]
fn each_poll_makes_one_call_at_most() {
    let script = Script::bringing(&reply(0x86, &[0x02, 0x58]));
    let mut sensor = WinsenSensor::new(script, still(0));
    let (result, polls) = wait(|| sensor.read_co2_concentration());
    assert_eq!(result, Ok(600));
    assert_eq!(polls, 1 + 9 + 1 + 9);
}

#[test]
fn concentration_at_the_ends() {
    for (data, ppm) in [([0x00, 0x00], 0u16), ([0xFF, 0xFF], u16::MAX), ([0x01, 0x90], 400)] {
        let mut sensor = WinsenSensor::new(Script::bringing(&reply(0x86, &data)), still(0));
        assert_eq!(wait(|| sensor.read_co2_concentration()).0, Ok(ppm));
    }
}

#[test]
fn baseline_correction_on_and_off() {
    for (enabled, request) in [
        (true, [0xFF, 0x01, 0x79, 0xA0, 0, 0, 0, 0, 0xE6]),
        (false, [0xFF, 0x01, 0x79, 0x00, 0, 0, 0, 0, 0x86]),
    ] {
        let mut sensor = WinsenSensor::new(Script::bringing(&reply(0x79, &[0x01])), still(0));
        assert_eq!(wait(|| sensor.set_automatic_baseline_correction(enabled)).0, Ok(()));
        assert_eq!(sensor.free().0.accepted, request);
    }
}

#[test]
fn zero_point() {
    let mut sensor = WinsenSensor::new(Script::bringing(&reply(0x87, &[])), still(0));
    assert_eq!(wait(|| sensor.calibrate_zero_point()).0, Ok(()));
    assert_eq!(sensor.free().0.accepted, [0xFF, 0x01, 0x87, 0, 0, 0, 0, 0, 0x78]);
}

#[test]
fn span_point_of_2000() {
    let mut sensor = WinsenSensor::new(Script::bringing(&reply(0x88, &[])), still(0));
    assert_eq!(wait(|| sensor.calibrate_span_point(2000)).0, Ok(()));
    assert_eq!(sensor.free().0.accepted, [0xFF, 0x01, 0x88, 0x07, 0xD0, 0, 0, 0, 0xA0]);
}

#[test]
fn detection_range_of_5000_is_set() {
    let mut sensor = WinsenSensor::new(Script::bringing(&reply(0x99, &[])), still(0));
    assert_eq!(wait(|| sensor.set_detection_range(5000)).0, Ok(()));
    assert_eq!(sensor.free().0.accepted, [0xFF, 0x01, 0x99, 0x00, 0x00, 0x00, 0x13, 0x88, 0xCB]);
}

#[test]
fn detection_range_of_5000_is_read() {
    let script = Script::bringing(&reply(0x9B, &[0x00, 0x00, 0x13, 0x88]));
    let mut sensor = WinsenSensor::new(script, still(0));
    assert_eq!(wait(|| sensor.get_detection_range()).0, Ok(5000));
    assert_eq!(sensor.free().0.accepted, [0xFF, 0x01, 0x9B, 0, 0, 0, 0, 0, 0x64]);
}

#[test]
fn reset_sends_and_does_not_listen() {
    let mut sensor = WinsenSensor::new(Script::default(), still(0));
    let (result, polls) = wait(|| sensor.reset());
    assert_eq!(result, Ok(()));
    assert_eq!(polls, 1 + 9);
    assert!(sensor.is_idle());
    let (serial, _) = sensor.free();
    assert_eq!(serial.accepted, [0xFF, 0x01, 0x8D, 0, 0, 0, 0, 0, 0x72]);
    assert_eq!(serial.reads, 0);
}

#[test]
fn analog_bounds() {
    let script = Script::bringing(&reply(0xA5, &[0x07, 0xD0, 0x01, 0x90]));
    let mut sensor = WinsenSensor::new(script, still(0));
    assert_eq!(wait(|| sensor.get_analog_bounds()).0, Ok((2000, 400)));
    assert_eq!(sensor.free().0.accepted, [0xFF, 0x01, 0xA5, 0, 0, 0, 0, 0, 0x5A]);
}

#[test]
fn firmware_version() {
    let script = Script::bringing(&reply(0xA0, &[0x30, 0x34, 0x33, 0x30]));
    let mut sensor = WinsenSensor::new(script, still(0));
    assert_eq!(wait(|| sensor.get_firmware_version()).0, Ok([0x30, 0x34, 0x33, 0x30]));
    assert_eq!(sensor.free().0.accepted, [0xFF, 0x01, 0xA0, 0, 0, 0, 0, 0, 0x5F]);
}

#[test]
fn command_hands_out_the_data_asked_for() {
    let script = Script::bringing(&reply(0x42, &[1, 2, 3, 4, 5, 6]));
    let mut sensor = WinsenSensor::new(script, still(0));
    assert_eq!(wait(|| sensor.command(0x42, &[9, 8], 6)).0, Ok(vec![1, 2, 3, 4, 5, 6]));
    assert_eq!(sensor.free().0.accepted, [0xFF, 0x01, 0x42, 9, 8, 0, 0, 0, 0xAC]);
}

#[test]
fn simple_command_checks_the_reply_all_the_same() {
    let mut sensor = WinsenSensor::new(Script::bringing(&corrupted(0x87, &[])), still(0));
    assert_eq!(wait(|| sensor.simple_command(0x87, &[])).0, Err(Error::WrongChecksum));
    let mut sensor = WinsenSensor::new(Script::bringing(&reply(0x86, &[])), still(0));
    assert_eq!(wait(|| sensor.simple_command(0x87, &[])).0, Err(Error::WrongPacketType));
    assert!(sensor.is_idle());
}

#[test]
fn reply_is_found_behind_noise() {
    let mut script = Script::bringing(b"\r\nboot v1.2 ready\r\n\x00\x86\x01\x79");
    script.incoming.push_back(Attempt::WouldBlock);
    script.bring(&reply(0x86, &[0x02, 0x58]));
    let mut sensor = WinsenSensor::new(script, still(0));
    assert_eq!(wait(|| sensor.read_co2_concentration()).0, Ok(600));
    assert!(sensor.free().0.incoming.is_empty());
}

#[test]
fn stray_marker_costs_the_exchange() {
    let mut script = Script::bringing(&[0x00, 0xFF, 0x12]);
    script.bring(&reply(0x86, &[0x02, 0x58]));
    let mut sensor = WinsenSensor::new(script, still(0));
    assert_eq!(wait(|| sensor.read_co2_concentration()).0, Err(Error::WrongChecksum));
    assert_eq!(sensor.free().0.incoming.len(), 2);
}

#[test]
fn blocked_writes_are_tried_again() {
    let mut script = Script::bringing(&reply(0x86, &[0x02, 0x58]));
    script.outgoing.push_back(Attempt::WouldBlock);
    script.outgoing.push_back(Attempt::Ready(()));
    script.outgoing.push_back(Attempt::WouldBlock);
    script.outgoing.push_back(Attempt::WouldBlock);
    let mut sensor = WinsenSensor::new(script, still(0));
    assert_eq!(wait(|| sensor.read_co2_concentration()).0, Ok(600));
    let (serial, _) = sensor.free();
    assert_eq!(serial.accepted, READ_REQUEST);
    assert_eq!(serial.offered, [0xFF, 0xFF, 0x01, 0x01, 0x01, 0x86, 0, 0, 0, 0, 0, 0x79]);
}

#[test]
fn write_fault_is_handed_on() {
    let mut script = Script::default();
    script.outgoing.push_back(Attempt::Ready(()));
    script.outgoing.push_back(Attempt::Failed(Fault(5)));
    let mut sensor = WinsenSensor::new(script, still(0));
    assert_eq!(wait(|| sensor.read_co2_concentration()).0, Err(Error::Serial(Fault(5))));
    assert!(sensor.is_idle());
    let (serial, _) = sensor.free();
    assert_eq!(serial.offered, [0xFF, 0x01]);
    assert_eq!(serial.reads, 0);
}

#[test]
fn read_fault_is_handed_on() {
    let mut script = Script::bringing(&[0xFF, 0x86]);
    script.incoming.push_back(Attempt::Failed(Fault(6)));
    let mut sensor = WinsenSensor::new(script, still(0));
    assert_eq!(wait(|| sensor.get_detection_range()).0, Err(Error::Serial(Fault(6))));
}

#[test]
fn silent_sensor_times_out() {
    let mut sensor = WinsenSensor::new(Script::default(), Ticking::new(0, 1, 1000));
    let (result, _) = wait(|| sensor.read_co2_concentration());
    assert_eq!(result, Err(Error::Timeout));
    let (serial, counter) = sensor.free();
    assert_eq!(serial.accepted, READ_REQUEST);
    // The wait began when the clock read 10 and ended when it read 110.
    assert_eq!(serial.reads, 99);
    assert_eq!(*counter.now.borrow(), 111);
}

#[test]
fn link_that_takes_nothing_times_out() {
    let mut script = Script::default();
    for _ in 0..1000 {
        script.outgoing.push_back(Attempt::WouldBlock);
    }
    let mut sensor = WinsenSensor::new(script, Ticking::new(0, 1, 1000));
    assert_eq!(wait(|| sensor.calibrate_zero_point()).0, Err(Error::Timeout));
    let (serial, _) = sensor.free();
    assert!(serial.accepted.is_empty());
    assert_eq!(serial.offered, vec![0xFF; 99]);
}

#[test]
fn timeout_falls_on_the_tick_and_not_before() {
    // Send: deadline set at 0, nine writes at 0. Receive: deadline set at
    // 5000, then the clock reads 5099 twice and 5100 once.
    let mut values = vec![0u32; 10];
    values.extend([5000, 5099, 5099, 5100]);
    let mut sensor = WinsenSensor::new(Script::bringing(&[0x00]), Told::new(&values, 1000));
    for _ in 0..11 {
        assert_eq!(sensor.read_co2_concentration(), Progress::Pending);
    }
    assert_eq!(sensor.read_co2_concentration(), Progress::Pending);
    assert_eq!(sensor.read_co2_concentration(), Progress::Pending);
    assert_eq!(sensor.read_co2_concentration(), Progress::Done(Err(Error::Timeout)));
    assert_eq!(sensor.free().0.reads, 2);
}

#[test]
fn reply_in_the_last_tick_is_taken() {
    let mut values = vec![0u32; 10];
    values.extend([5000, 5099]);
    let script = Script::bringing(&reply(0x86, &[0x02, 0x58]));
    let mut sensor = WinsenSensor::new(script, Told::new(&values, 1000));
    assert_eq!(wait(|| sensor.read_co2_concentration()).0, Ok(600));
}

#[test]
fn counter_that_wraps_during_the_wait() {
    let mut values = vec![0u32; 10];
    values.extend([u32::MAX - 10, u32::MAX, 0, 88, 89]);
    let mut sensor = WinsenSensor::new(Script::default(), Told::new(&values, 1000));
    for _ in 0..11 {
        assert_eq!(sensor.read_co2_concentration(), Progress::Pending);
    }
    for _ in 0..3 {
        assert_eq!(sensor.read_co2_concentration(), Progress::Pending);
    }
    assert_eq!(sensor.read_co2_concentration(), Progress::Done(Err(Error::Timeout)));
    assert_eq!(sensor.free().0.reads, 3);
}

#[test]
fn counter_that_wraps_before_the_reply() {
    let mut values = vec![0u32; 10];
    values.extend([u32::MAX - 10, 50]);
    let script = Script::bringing(&reply(0x86, &[0x02, 0x58]));
    let mut sensor = WinsenSensor::new(script, Told::new(&values, 1000));
    assert_eq!(wait(|| sensor.read_co2_concentration()).0, Ok(600));
}

#[test]
fn slow_clock_lets_nothing_through() {
    let script = Script::bringing(&reply(0x86, &[0x02, 0x58]));
    let mut sensor = WinsenSensor::new(script, Ticking::new(0, 0, 9));
    let (result, polls) = wait(|| sensor.read_co2_concentration());
    assert_eq!(result, Err(Error::Timeout));
    assert_eq!(polls, 2);
    assert!(sensor.free().0.offered.is_empty());
}

#[test]
fn another_operation_starts_afresh() {
    let script = Script::bringing(&reply(0x87, &[]));
    let mut sensor = WinsenSensor::new(script, still(0));
    for _ in 0..4 {
        assert_eq!(sensor.read_co2_concentration(), Progress::Pending);
    }
    assert!(!sensor.is_idle());
    assert_eq!(wait(|| sensor.calibrate_zero_point()).0, Ok(()));
    assert!(sensor.is_idle());
    let (serial, _) = sensor.free();
    assert_eq!(serial.accepted[..3], [0xFF, 0x01, 0x86]);
    assert_eq!(serial.accepted[3..], [0xFF, 0x01, 0x87, 0, 0, 0, 0, 0, 0x78]);
}

#[test]
fn same_operation_goes_on_where_it_was() {
    let script = Script::bringing(&reply(0x88, &[]));
    let mut sensor = WinsenSensor::new(script, still(0));
    for _ in 0..4 {
        assert_eq!(sensor.calibrate_span_point(2000), Progress::Pending);
    }
    assert_eq!(wait(|| sensor.calibrate_span_point(2000)).0, Ok(()));
    assert_eq!(sensor.free().0.accepted, [0xFF, 0x01, 0x88, 0x07, 0xD0, 0, 0, 0, 0xA0]);
}

#[test]
fn same_command_with_another_value_starts_afresh() {
    let script = Script::bringing(&reply(0x88, &[]));
    let mut sensor = WinsenSensor::new(script, still(0));
    for _ in 0..4 {
        assert_eq!(sensor.calibrate_span_point(2000), Progress::Pending);
    }
    assert_eq!(wait(|| sensor.calibrate_span_point(1000)).0, Ok(()));
    let (serial, _) = sensor.free();
    assert_eq!(serial.accepted[..3], [0xFF, 0x01, 0x88]);
    assert_eq!(serial.accepted[3..], [0xFF, 0x01, 0x88, 0x03, 0xE8, 0, 0, 0, 0x8C]);
}

#[test]
fn probe_finds_a_sensor_at_once() {
    let script = Script::bringing(&reply(0x86, &[0x02, 0x58]));
    let mut sensor = WinsenSensor::new(script, still(0));
    assert_eq!(wait(|| sensor.probe()).0, Ok(true));
    assert!(sensor.is_idle());
    assert_eq!(sensor.free().0.accepted, READ_REQUEST);
}

#[test]
fn probe_forgives_two_corrupted_replies() {
    let mut script = Script::bringing(&corrupted(0x86, &[0x02, 0x58]));
    script.bring(&corrupted(0x86, &[0x02, 0x58]));
    script.bring(&reply(0x86, &[0x02, 0x58]));
    let mut sensor = WinsenSensor::new(script, still(0));
    assert_eq!(wait(|| sensor.probe()).0, Ok(true));
    let (serial, _) = sensor.free();
    assert_eq!(serial.accepted, [READ_REQUEST, READ_REQUEST, READ_REQUEST].concat());
    assert_eq!(serial.reads, 27);
}

#[test]
fn probe_stops_at_a_write_fault() {
    let mut script = Script::bringing(&reply(0x86, &[0x02, 0x58]));
    script.outgoing.push_back(Attempt::Failed(Fault(1)));
    let mut sensor = WinsenSensor::new(script, still(0));
    assert_eq!(wait(|| sensor.probe()).0, Err(Fault(1)));
    assert!(sensor.is_idle());
    let (serial, _) = sensor.free();
    assert_eq!(serial.offered, [0xFF]);
    assert!(serial.accepted.is_empty());
    assert_eq!(serial.reads, 0);
}

#[test]
fn probe_stops_at_a_fault_in_a_later_attempt() {
    let mut script = Script::bringing(&corrupted(0x86, &[]));
    script.incoming.push_back(Attempt::Failed(Fault(2)));
    script.bring(&reply(0x86, &[]));
    let mut sensor = WinsenSensor::new(script, still(0));
    assert_eq!(wait(|| sensor.probe()).0, Err(Fault(2)));
    assert_eq!(sensor.free().0.accepted, [READ_REQUEST, READ_REQUEST].concat());
}

#[test]
fn probe_gives_up_after_three_corrupted_replies() {
    let mut script = Script::default();
    for _ in 0..4 {
        script.bring(&corrupted(0x86, &[0x02, 0x58]));
    }
    let mut sensor = WinsenSensor::new(script, still(0));
    assert_eq!(wait(|| sensor.probe()).0, Ok(false));
    assert!(sensor.is_idle());
    let (serial, _) = sensor.free();
    assert_eq!(serial.accepted, [READ_REQUEST, READ_REQUEST, READ_REQUEST].concat());
    assert_eq!(serial.incoming.len(), 9);
}

#[test]
fn probe_gives_up_after_three_timeouts() {
    let mut sensor = WinsenSensor::new(Script::default(), Ticking::new(0, 1, 1000));
    assert_eq!(wait(|| sensor.probe()).0, Ok(false));
    assert_eq!(sensor.free().0.accepted, [READ_REQUEST, READ_REQUEST, READ_REQUEST].concat());
}

#[test]
fn probe_forgives_any_failure_of_the_protocol() {
    // A reply to another command, then silence for as long as the second
    // attempt waits, then a sound reply.
    let mut script = Script::bringing(&reply(0x9B, &[]));
    for _ in 0..99 {
        script.incoming.push_back(Attempt::WouldBlock);
    }
    script.bring(&reply(0x86, &[]));
    let mut sensor = WinsenSensor::new(script, Ticking::new(0, 1, 1000));
    assert_eq!(wait(|| sensor.probe()).0, Ok(true));
}

#[test]
fn probe_ignores_the_value() {
    let script = Script::bringing(&reply(0x86, &[0xAB, 0xCD, 0xEF, 0x01, 0x23, 0x45]));
    let mut sensor = WinsenSensor::new(script, still(0));
    assert_eq!(wait(|| sensor.probe()).0, Ok(true));
}
