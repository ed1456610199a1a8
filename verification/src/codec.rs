//! The nine-byte frame: how a request is laid out and how a reply is checked.
//!
//! | offset | meaning                                  |
//! |--------|------------------------------------------|
//! | 0      | start marker, `0xFF`                     |
//! | 1      | `0x01` in a request, the command in a reply |
//! | 2      | command in a request, first data byte in a reply |
//! | 3..8   | data, padded with zeros                  |
//! | 8      | checksum                                 |

use crate::error::Error;
use vstd::prelude::*;

verus! {

/// Length of every frame on the wire.
pub const FRAME_LEN: usize = 9;

/// The byte that opens every frame.
pub const MARKER: u8 = 0xFF;

/// The byte that follows the marker in a request.
pub const ADDRESS: u8 = 0x01;

/// The most bytes a request can carry.
pub const MAX_PAYLOAD: usize = 5;

/// The most bytes a reply can carry.
pub const MAX_RESPONSE: usize = 6;

/// The sum of `bytes` modulo 256.
pub open spec fn wrapping_sum(bytes: Seq<u8>) -> u8
    decreases bytes.len(),
{
    if bytes.len() == 0 {
        0u8
    } else {
        wrapping_sum(bytes.drop_last()).wrapping_add(bytes.last())
    }
}

/// The checksum of `bytes`: the ones' complement of their sum modulo 256.
pub open spec fn spec_checksum(bytes: Seq<u8>) -> u8 {
    (0xFF - wrapping_sum(bytes)) as u8
}

/// A frame is sound when its last byte is the checksum of the bytes before it,
/// which is to say that all of its bytes add up to `0xFF`.
pub open spec fn sound(frame: Seq<u8>) -> bool {
    wrapping_sum(frame) == 0xFF
}

/// `n` zero bytes.
pub open spec fn zeros(n: nat) -> Seq<u8> {
    Seq::new(n, |i: int| 0u8)
}

/// The request frame for `command` with `payload`.
pub open spec fn spec_encode(command: u8, payload: Seq<u8>) -> Seq<u8>
    recommends
        payload.len() <= MAX_PAYLOAD,
{
    let body = seq![MARKER, ADDRESS, command] + payload + zeros(
        (MAX_PAYLOAD - payload.len()) as nat,
    );
    body.push(spec_checksum(body))
}

/// What a received frame yields to one who expects a reply to `expected`
/// with `response_len` bytes of data.
pub open spec fn spec_decode<E>(frame: Seq<u8>, expected: u8, response_len: nat) -> Result<
    Seq<u8>,
    Error<E>,
>
    recommends
        frame.len() == FRAME_LEN,
        response_len <= MAX_RESPONSE,
{
    if !sound(frame) {
        Err(Error::WrongChecksum)
    } else if frame[1] != expected {
        Err(Error::WrongPacketType)
    } else {
        Ok(frame.subrange(2, 2 + response_len as int))
    }
}

/// The complement taken bit by bit is the complement to `0xFF`.
pub proof fn lemma_checksum_is_complement(bytes: Seq<u8>)
    ensures
        spec_checksum(bytes) == !wrapping_sum(bytes),
{
    let s = wrapping_sum(bytes);
    assert(!s == 0xFFu8 - s) by (bit_vector);
}

/// The checksum of `payload`.
pub fn checksum(payload: &[u8]) -> (sum: u8)
    ensures
        sum == spec_checksum(payload@),
{
    let mut sum: u8 = 0;
    let mut i: usize = 0;
    while i < payload.len()
        invariant
            i <= payload.len(),
            sum == wrapping_sum(payload@.take(i as int)),
        decreases payload.len() - i,
    {
        assert(payload@.take(i + 1).drop_last() =~= payload@.take(i as int));
        sum = sum.wrapping_add(payload[i]);
        i += 1;
    }
    assert(payload@.take(i as int) =~= payload@);
    0xFF - sum
}

/// Lays out the request for `command` with `payload`, padded with zeros and
/// closed by its checksum.
pub fn encode(command: u8, payload: &[u8]) -> (frame: [u8; 9])
    requires
        payload.len() <= MAX_PAYLOAD,
    ensures
        frame@ == spec_encode(command, payload@),
        sound(frame@),
{
    let mut frame: [u8; 9] = [0u8; 9];
    frame[0] = MARKER;
    frame[1] = ADDRESS;
    frame[2] = command;
    let mut i: usize = 0;
    while i < payload.len()
        invariant
            i <= payload.len() <= MAX_PAYLOAD,
            frame[0] == MARKER,
            frame[1] == ADDRESS,
            frame[2] == command,
            forall|k: int| 0 <= k < i ==> frame[3 + k] == payload[k],
            forall|k: int| 3 + i <= k < 9 ==> frame[k] == 0,
        decreases payload.len() - i,
    {
        frame[3 + i] = payload[i];
        i += 1;
    }
    let ghost body = seq![MARKER, ADDRESS, command] + payload@ + zeros(
        (MAX_PAYLOAD - payload.len()) as nat,
    );
    let sum = checksum(&frame[0..8]);
    assert(frame@.subrange(0, 8) =~= body);
    frame[8] = sum;
    assert(frame@ =~= body.push(sum));
    proof {
        lemma_encoded_is_sound(command, payload@);
    }
    frame
}

/// Checks a received frame and takes its data out: the checksum first, then
/// the command it answers, then the first `response_len` bytes after the
/// command.
pub fn decode<E>(frame: &[u8; 9], expected: u8, response_len: usize) -> (r: Result<
    Vec<u8>,
    Error<E>,
>)
    requires
        response_len <= MAX_RESPONSE,
    ensures
        match r {
            Ok(data) => spec_decode::<E>(frame@, expected, response_len as nat) == Ok::<
                Seq<u8>,
                Error<E>,
            >(data@),
            Err(e) => spec_decode::<E>(frame@, expected, response_len as nat) == Err::<
                Seq<u8>,
                Error<E>,
            >(e),
        },
{
    if checksum(frame.as_slice()) != 0 {
        return Err(Error::WrongChecksum);
    }
    if frame[1] != expected {
        return Err(Error::WrongPacketType);
    }
    let mut data: Vec<u8> = Vec::new();
    let mut i: usize = 0;
    while i < response_len
        invariant
            i <= response_len <= MAX_RESPONSE,
            data@ == frame@.subrange(2, 2 + i),
        decreases response_len - i,
    {
        data.push(frame[2 + i]);
        assert(data@ =~= frame@.subrange(2, 2 + i + 1));
        i += 1;
    }
    Ok(data)
}

/// Replacing one byte moves the sum by the difference of the two bytes.
pub proof fn lemma_sum_of_update(bytes: Seq<u8>, i: int, byte: u8)
    requires
        0 <= i < bytes.len(),
    ensures
        wrapping_sum(bytes.update(i, byte)) == wrapping_sum(bytes).wrapping_sub(
            bytes[i],
        ).wrapping_add(byte),
    decreases bytes.len(),
{
    let changed = bytes.update(i, byte);
    if i == bytes.len() - 1 {
        assert(changed.drop_last() =~= bytes.drop_last());
    } else {
        assert(changed.drop_last() =~= bytes.drop_last().update(i, byte));
        lemma_sum_of_update(bytes.drop_last(), i, byte);
    }
}

/// Every encoded request is sound: its nine bytes add up to `0xFF`.
pub proof fn lemma_encoded_is_sound(command: u8, payload: Seq<u8>)
    requires
        payload.len() <= MAX_PAYLOAD,
    ensures
        spec_encode(command, payload).len() == FRAME_LEN,
        sound(spec_encode(command, payload)),
{
    let body = seq![MARKER, ADDRESS, command] + payload + zeros(
        (MAX_PAYLOAD - payload.len()) as nat,
    );
    let frame = body.push(spec_checksum(body));
    assert(frame.drop_last() =~= body);
}

/// A sound frame in which one byte is replaced by another value is no longer
/// sound: whatever it is asked for, `decode` answers `WrongChecksum`.
pub proof fn lemma_tampering_is_detected<E>(
    frame: Seq<u8>,
    i: int,
    byte: u8,
    expected: u8,
    response_len: nat,
)
    requires
        sound(frame),
        0 <= i < frame.len(),
        byte != frame[i],
    ensures
        !sound(frame.update(i, byte)),
        spec_decode::<E>(frame.update(i, byte), expected, response_len) == Err::<
            Seq<u8>,
            Error<E>,
        >(Error::WrongChecksum),
{
    lemma_sum_of_update(frame, i, byte);
}

/// What `decode` makes of an encoded request. The checksum always holds; the
/// place where a reply names its command holds the address byte; and the data
/// of a reply start one byte before the payload of a request, at the command.
pub proof fn lemma_decode_of_encoded<E>(
    command: u8,
    payload: Seq<u8>,
    expected: u8,
    response_len: nat,
)
    requires
        payload.len() <= MAX_PAYLOAD,
        response_len <= MAX_RESPONSE,
    ensures
        expected != ADDRESS ==> spec_decode::<E>(
            spec_encode(command, payload),
            expected,
            response_len,
        ) == Err::<Seq<u8>, Error<E>>(Error::WrongPacketType),
        expected == ADDRESS ==> spec_decode::<E>(
            spec_encode(command, payload),
            expected,
            response_len,
        ) == Ok::<Seq<u8>, Error<E>>(
            (seq![command] + payload + zeros((MAX_PAYLOAD - payload.len()) as nat)).take(
                response_len as int,
            ),
        ),
{
    lemma_encoded_is_sound(command, payload);
    let frame = spec_encode(command, payload);
    let tail = seq![command] + payload + zeros((MAX_PAYLOAD - payload.len()) as nat);
    assert(frame[1] == ADDRESS);
    assert(frame.subrange(2, 2 + response_len as int) =~= tail.take(response_len as int));
}

/// Decoding an encoded request gives the payload back where the two layouts
/// agree: the command is the address byte, and the payload repeats it.
pub proof fn lemma_round_trip<E>(command: u8, payload: Seq<u8>)
    requires
        payload.len() <= MAX_PAYLOAD,
        command == ADDRESS,
        forall|k: int| 0 <= k < payload.len() ==> payload[k] == command,
    ensures
        spec_decode::<E>(spec_encode(command, payload), command, payload.len()) == Ok::<
            Seq<u8>,
            Error<E>,
        >(payload),
{
    lemma_decode_of_encoded::<E>(command, payload, command, payload.len());
    let tail = seq![command] + payload + zeros((MAX_PAYLOAD - payload.len()) as nat);
    assert(tail.take(payload.len() as int) =~= payload);
}

/// The frame in which a sensor answers `command` with `data`.
pub open spec fn spec_reply(command: u8, data: Seq<u8>) -> Seq<u8>
    recommends
        data.len() <= MAX_RESPONSE,
{
    let body = seq![MARKER, command] + data + zeros((MAX_RESPONSE - data.len()) as nat);
    body.push(spec_checksum(body))
}

/// Decoding the reply to a command gives back exactly the data it carries.
pub proof fn lemma_decode_of_reply<E>(command: u8, data: Seq<u8>)
    requires
        data.len() <= MAX_RESPONSE,
    ensures
        spec_reply(command, data).len() == FRAME_LEN,
        spec_reply(command, data)[0] == MARKER,
        sound(spec_reply(command, data)),
        spec_decode::<E>(spec_reply(command, data), command, data.len()) == Ok::<
            Seq<u8>,
            Error<E>,
        >(data),
{
    let body = seq![MARKER, command] + data + zeros((MAX_RESPONSE - data.len()) as nat);
    let frame = body.push(spec_checksum(body));
    assert(frame.drop_last() =~= body);
    assert(frame.subrange(2, 2 + data.len() as int) =~= data);
}

} // verus!
