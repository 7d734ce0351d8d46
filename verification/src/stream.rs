//! Messages on a byte stream.
//!
//! A message is the packets of one command or one response, written one
//! after the other and closed by a length field of zero. The closing
//! marker is written even where the message has no packets, so the bytes
//! `00 00 00 00` alone are the message without content.

use crate::packet::{encode_packets, lemma_encode_packets_push, Packet, PacketView};
use crate::wire::{
    be32, from_be32, lemma_be32_round_trip, lemma_be32_unique, push_be32, push_bytes, read_be32,
};
use vstd::prelude::*;

verus! {

/// Why a byte stream is not a sequence of packets.
#[derive(Debug, Clone, Copy, PartialEq, Eq, Structural)]
pub enum FramingError {
    /// The stream ends inside a length field.
    Length,
    /// The stream ends before the bytes that a length field announced.
    Payload,
}

/// The marker that closes a message: a length field of zero.
pub open spec fn terminator() -> Seq<u8> {
    seq![0u8, 0u8, 0u8, 0u8]
}

/// The bytes of a message made of `packets`.
pub open spec fn message_bytes(packets: Seq<PacketView>) -> Seq<u8> {
    encode_packets(packets) + terminator()
}

/// The packets at the start of `bytes`, and how many bytes they and their
/// closing marker take.
///
/// Packets are read until a length field of zero, which is consumed, or
/// until the bytes end between two packets. A length field `n` other than
/// zero is followed by `n` bytes: the tag, then the payload. It is an
/// error if the bytes end inside a length field or before the `n` bytes
/// are complete.
pub open spec fn parse_stream(bytes: Seq<u8>) -> Result<(Seq<PacketView>, int), FramingError>
    decreases bytes.len(),
{
    if bytes.len() == 0 {
        Ok((Seq::empty(), 0))
    } else if bytes.len() < 4 {
        Err(FramingError::Length)
    } else {
        let amount = from_be32(bytes.subrange(0, 4));
        if amount == 0 {
            Ok((Seq::empty(), 4))
        } else if bytes.len() < 4 + amount {
            Err(FramingError::Payload)
        } else {
            let packet = PacketView {
                amount,
                data_type: bytes[4],
                data: bytes.subrange(5, 4 + amount),
            };
            match parse_stream(bytes.subrange(4 + amount, bytes.len() as int)) {
                Ok((rest, used)) => Ok((seq![packet] + rest, 4 + amount + used)),
                Err(error) => Err(error),
            }
        }
    }
}

/// How many more bytes a reader must take from the stream, having taken
/// `bytes` of a message so far, before it can decide anything: what is
/// missing of the length field or of the packet that is under way, four
/// for the next length field between packets, and nothing once the closing
/// marker is in.
pub open spec fn wanted(bytes: Seq<u8>) -> nat
    decreases bytes.len(),
{
    if bytes.len() < 4 {
        (4 - bytes.len()) as nat
    } else {
        let amount = from_be32(bytes.subrange(0, 4));
        if amount == 0 {
            0
        } else if bytes.len() < 4 + amount {
            (4 + amount - bytes.len()) as nat
        } else {
            wanted(bytes.subrange(4 + amount, bytes.len() as int))
        }
    }
}

/// The bytes of a message: the packets' wire form and the closing marker.
pub fn encode_message(packets: Vec<Packet>) -> (bytes: Vec<u8>)
    ensures
        bytes@ == message_bytes(packets.deep_view()),
{
    let mut bytes = Packet::to_byte_vec(packets);
    push_be32(&mut bytes, 0);
    assert(be32(0) =~= terminator());
    bytes
}

/// Reads the packets at the start of `bytes`. On success the second
/// component says how many bytes were taken, the closing marker included.
pub fn decode_stream(bytes: &[u8]) -> (result: Result<(Vec<Packet>, usize), FramingError>)
    ensures
        match result {
            Ok((packets, used)) => parse_stream(bytes@) == Ok::<_, FramingError>(
                (packets.deep_view(), used as int),
            ),
            Err(error) => parse_stream(bytes@) == Err::<(Seq<PacketView>, int), _>(error),
        },
{
    let mut packets: Vec<Packet> = Vec::new();
    let mut at: usize = 0;
    proof {
        assert(bytes@.subrange(0, bytes@.len() as int) =~= bytes@);
        match parse_stream(bytes@) {
            Ok((rest, used)) => {
                assert(packets.deep_view() + rest =~= rest);
            },
            Err(_) => {},
        }
    }
    loop
        invariant
            at <= bytes@.len(),
            match parse_stream(bytes@.subrange(at as int, bytes@.len() as int)) {
                Ok((rest, used)) => parse_stream(bytes@) == Ok::<_, FramingError>(
                    (packets.deep_view() + rest, at + used),
                ),
                Err(error) => parse_stream(bytes@) == Err::<(Seq<PacketView>, int), _>(error),
            },
        decreases bytes@.len() - at,
    {
        let ghost tail = bytes@.subrange(at as int, bytes@.len() as int);
        let left = bytes.len() - at;
        if left == 0 {
            assert(packets.deep_view() + Seq::<PacketView>::empty() =~= packets.deep_view());
            return Ok((packets, at));
        }
        if left < 4 {
            return Err(FramingError::Length);
        }
        assert(tail.subrange(0, 4) =~= bytes@.subrange(at as int, at + 4));
        let amount = read_be32(bytes, at);
        if amount == 0 {
            assert(packets.deep_view() + Seq::<PacketView>::empty() =~= packets.deep_view());
            return Ok((packets, at + 4));
        }
        if left - 4 < amount as usize {
            return Err(FramingError::Payload);
        }
        let data_type = bytes[at + 4];
        let mut data: Vec<u8> = Vec::new();
        let end = at + 4 + amount as usize;
        push_bytes(&mut data, vstd::slice::slice_subrange(bytes, at + 5, end));
        let packet = Packet { amount, data_type, data };
        proof {
            let next = tail.subrange(4 + amount, tail.len() as int);
            assert(next =~= bytes@.subrange(end as int, bytes@.len() as int));
            assert(packet@.data =~= tail.subrange(5, 4 + amount));
            assert(packet@.data_type == tail[4]);
            let before = packets.deep_view();
            match parse_stream(next) {
                Ok((rest, used)) => {
                    assert(before.push(packet@) + rest =~= before + (seq![packet@] + rest));
                },
                Err(_) => {},
            }
        }
        let ghost before = packets.deep_view();
        packets.push(packet);
        assert(packets.deep_view() =~= before.push(packet@));
        at = end;
    }
}

/// How many bytes to read next, given the bytes of a message read so far:
/// zero when the message is complete.
pub fn bytes_wanted(bytes: &[u8]) -> (count: usize)
    ensures
        count == wanted(bytes@),
        count <= u32::MAX,
{
    let mut at: usize = 0;
    assert(bytes@.subrange(0, bytes@.len() as int) =~= bytes@);
    loop
        invariant
            at <= bytes@.len(),
            wanted(bytes@) == wanted(bytes@.subrange(at as int, bytes@.len() as int)),
        decreases bytes@.len() - at,
    {
        let ghost tail = bytes@.subrange(at as int, bytes@.len() as int);
        let left = bytes.len() - at;
        if left < 4 {
            return 4 - left;
        }
        assert(tail.subrange(0, 4) =~= bytes@.subrange(at as int, at + 4));
        let amount = read_be32(bytes, at);
        if amount == 0 {
            return 0;
        }
        if left - 4 < amount as usize {
            return amount as usize - (left - 4);
        }
        assert(tail.subrange(4 + amount, tail.len() as int) =~= bytes@.subrange(
            at + 4 + amount,
            bytes@.len() as int,
        ));
        at = at + 4 + amount as usize;
    }
}

/// A buffer of `amount` zero bytes, to be filled by a read of exactly that
/// many bytes.
pub fn get_buffer(amount: u32) -> (buf: Vec<u8>)
    ensures
        buf@ == Seq::new(amount as nat, |i: int| 0u8),
{
    let mut buf: Vec<u8> = Vec::new();
    let mut i: u32 = 0;
    while i < amount
        invariant
            i <= amount,
            buf@ == Seq::new(i as nat, |k: int| 0u8),
        decreases amount - i,
    {
        buf.push(0);
        i += 1;
        assert(buf@ =~= Seq::new(i as nat, |k: int| 0u8));
    }
    buf
}

/// A well-formed packet at the head of a stream is read as itself, and
/// the read goes on behind it.
proof fn lemma_parse_packet(packet: PacketView, tail: Seq<u8>)
    requires
        packet.well_formed(),
    ensures
        packet.encoded().len() == 4 + packet.amount,
        parse_stream(packet.encoded() + tail) == match parse_stream(tail) {
            Ok((rest, used)) => Ok::<_, FramingError>(
                (seq![packet] + rest, 4 + packet.amount + used),
            ),
            Err(error) => Err(error),
        },
{
    let bytes = packet.encoded() + tail;
    let amount = packet.amount;
    lemma_be32_round_trip(amount);
    assert(bytes.subrange(0, 4) =~= be32(amount));
    assert(bytes[4] == packet.data_type);
    assert(bytes.subrange(5, 4 + amount) =~= packet.data);
    assert(bytes.subrange(4 + amount, bytes.len() as int) =~= tail);
}

/// The closing marker at the head of a stream ends the read.
proof fn lemma_parse_terminator(tail: Seq<u8>)
    ensures
        parse_stream(terminator() + tail) == Ok::<_, FramingError>(
            (Seq::<PacketView>::empty(), 4int),
        ),
{
    let bytes = terminator() + tail;
    lemma_be32_round_trip(0);
    assert(bytes.subrange(0, 4) =~= be32(0));
}

/// A message made of well-formed packets is read back from its bytes as
/// exactly those packets, whatever follows it on the stream, and the read
/// stops behind its closing marker.
pub proof fn lemma_message_round_trip(packets: Seq<PacketView>, following: Seq<u8>)
    requires
        forall|i: int| 0 <= i < packets.len() ==> (#[trigger] packets[i]).well_formed(),
    ensures
        parse_stream(message_bytes(packets) + following) == Ok::<_, FramingError>(
            (packets, message_bytes(packets).len() as int),
        ),
    decreases packets.len(),
{
    if packets.len() == 0 {
        assert(message_bytes(packets) + following =~= terminator() + following);
        lemma_parse_terminator(following);
        assert(packets =~= Seq::<PacketView>::empty());
    } else {
        let first = packets[0];
        let rest = packets.drop_first();
        assert forall|i: int| 0 <= i < rest.len() implies (#[trigger] rest[i]).well_formed() by {
            assert(rest[i] == packets[i + 1]);
        }
        lemma_message_round_trip(rest, following);
        lemma_parse_packet(first, message_bytes(rest) + following);
        assert(message_bytes(packets) + following =~= first.encoded() + (message_bytes(rest)
            + following));
        assert(seq![first] + rest =~= packets);
    }
}

/// A reader that takes, again and again, as many bytes as are wanted
/// reads a message of well-formed packets to its end and not beyond:
/// before the end something is wanted and the message still holds it, and
/// at the end nothing is wanted.
pub proof fn lemma_wanted_stays_inside(packets: Seq<PacketView>, taken: int)
    requires
        forall|i: int| 0 <= i < packets.len() ==> (#[trigger] packets[i]).well_formed(),
        0 <= taken <= message_bytes(packets).len(),
    ensures
        taken < message_bytes(packets).len() ==> 0 < wanted(message_bytes(packets).take(taken))
            <= message_bytes(packets).len() - taken,
        taken == message_bytes(packets).len() ==> wanted(message_bytes(packets).take(taken))
            == 0,
    decreases packets.len(),
{
    let message = message_bytes(packets);
    let bytes = message.take(taken);
    if packets.len() == 0 {
        assert(message =~= terminator());
        lemma_be32_round_trip(0);
        if taken == 4 {
            assert(bytes.subrange(0, 4) =~= be32(0));
        }
    } else {
        let first = packets[0];
        let rest = packets.drop_first();
        let amount = first.amount;
        assert forall|i: int| 0 <= i < rest.len() implies (#[trigger] rest[i]).well_formed() by {
            assert(rest[i] == packets[i + 1]);
        }
        assert(message =~= first.encoded() + message_bytes(rest));
        lemma_be32_round_trip(amount);
        if taken >= 4 {
            assert(bytes.subrange(0, 4) =~= be32(amount));
            if taken >= 4 + amount {
                assert(bytes.subrange(4 + amount, bytes.len() as int) =~= message_bytes(rest).take(
                    taken - 4 - amount,
                ));
                lemma_wanted_stays_inside(rest, taken - 4 - amount);
            }
        }
    }
}

/// Whatever is read from a stream was written there: the packets that are
/// read are well-formed, and the bytes that were taken are their wire
/// form, closed by the marker unless the stream ended in its place.
pub proof fn lemma_stream_is_encoding(bytes: Seq<u8>)
    ensures
        parse_stream(bytes) matches Ok((packets, used)) ==> {
            &&& 0 <= used <= bytes.len()
            &&& forall|i: int| 0 <= i < packets.len() ==> (#[trigger] packets[i]).well_formed()
            &&& bytes.take(used) == message_bytes(packets) || (used == bytes.len() && bytes
                == encode_packets(packets))
        },
    decreases bytes.len(),
{
    if bytes.len() == 0 {
        assert(bytes =~= encode_packets(Seq::empty()));
    } else if bytes.len() >= 4 {
        let amount = from_be32(bytes.subrange(0, 4));
        lemma_be32_unique(bytes.subrange(0, 4));
        if amount == 0 {
            assert(bytes.take(4) =~= bytes.subrange(0, 4));
            assert(be32(0) =~= terminator());
            assert(encode_packets(Seq::empty()) + terminator() =~= terminator());
        } else if bytes.len() >= 4 + amount {
            let packet = PacketView {
                amount,
                data_type: bytes[4],
                data: bytes.subrange(5, 4 + amount),
            };
            let tail = bytes.subrange(4 + amount, bytes.len() as int);
            lemma_stream_is_encoding(tail);
            if let Ok((rest, rest_used)) = parse_stream(tail) {
                let packets = seq![packet] + rest;
                let used = 4 + amount + rest_used;
                assert(packets.drop_first() =~= rest);
                assert(packet.encoded() =~= bytes.subrange(0, 4 + amount));
                assert forall|i: int| 0 <= i < packets.len() implies (
                #[trigger] packets[i]).well_formed() by {
                    if i > 0 {
                        assert(packets[i] == rest[i - 1]);
                    }
                }
                assert(bytes.take(used) =~= packet.encoded() + tail.take(rest_used));
                if tail.take(rest_used) == message_bytes(rest) {
                    assert(bytes.take(used) =~= message_bytes(packets));
                } else {
                    assert(bytes =~= packet.encoded() + tail);
                }
            }
        }
    }
}

/// Every message ends with the closing marker.
pub proof fn lemma_message_ends_with_terminator(packets: Seq<PacketView>)
    ensures
        message_bytes(packets).len() >= 4,
        message_bytes(packets).subrange(
            message_bytes(packets).len() - 4,
            message_bytes(packets).len() as int,
        ) == terminator(),
{
    let bytes = message_bytes(packets);
    assert(bytes.subrange(bytes.len() - 4, bytes.len() as int) =~= terminator());
}

} // verus!
