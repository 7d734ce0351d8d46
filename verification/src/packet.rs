//! The framing unit of the protocol: a length, a type tag and a payload.

use crate::wire::{be32, push_be32, push_bytes};
use vstd::prelude::*;

verus! {

/// One framed unit. `amount` counts the tag byte and the payload together;
/// a packet whose `amount` is zero is a sentinel that occupies no bytes on
/// the wire.
#[derive(Debug, Clone, PartialEq, Eq)]
pub struct Packet {
    pub amount: u32,
    pub data_type: u8,
    pub data: Vec<u8>,
}

/// The mathematical content of a [`Packet`].
pub struct PacketView {
    pub amount: u32,
    pub data_type: u8,
    pub data: Seq<u8>,
}

impl View for Packet {
    type V = PacketView;

    open spec fn view(&self) -> PacketView {
        PacketView { amount: self.amount, data_type: self.data_type, data: self.data@ }
    }
}

impl DeepView for Packet {
    type V = PacketView;

    open spec fn deep_view(&self) -> PacketView {
        self@
    }
}

/// The length field of a packet that carries `payload` bytes after its tag.
/// The field has 32 bits, so the count wraps at 2^32.
pub open spec fn frame_length(payload: nat) -> u32 {
    ((payload + 1) % 0x1_0000_0000) as u32
}

impl PacketView {
    /// A packet with the given tag and payload, and the length field that
    /// belongs to that payload.
    pub open spec fn framing(data_type: u8, data: Seq<u8>) -> PacketView {
        PacketView { amount: frame_length(data.len()), data_type, data }
    }

    /// The length field is not zero and counts the tag and the payload.
    pub open spec fn well_formed(self) -> bool {
        self.amount == self.data.len() + 1
    }

    /// The bytes of this packet on the wire: nothing for a sentinel, else
    /// the big-endian length, the tag, and the payload.
    pub open spec fn encoded(self) -> Seq<u8> {
        if self.amount == 0 {
            Seq::empty()
        } else {
            be32(self.amount) + seq![self.data_type] + self.data
        }
    }
}

/// The bytes of a sequence of packets on the wire, one after the other.
pub open spec fn encode_packets(packets: Seq<PacketView>) -> Seq<u8>
    decreases packets.len(),
{
    if packets.len() == 0 {
        Seq::empty()
    } else {
        packets[0].encoded() + encode_packets(packets.drop_first())
    }
}

/// Encoding a sequence and then one more packet is encoding the longer sequence.
pub proof fn lemma_encode_packets_push(packets: Seq<PacketView>, last: PacketView)
    ensures
        encode_packets(packets.push(last)) == encode_packets(packets) + last.encoded(),
    decreases packets.len(),
{
    if packets.len() == 0 {
        assert(packets.push(last).drop_first() =~= Seq::<PacketView>::empty());
        assert(encode_packets(Seq::<PacketView>::empty()) =~= Seq::<u8>::empty());
        assert(encode_packets(packets.push(last)) =~= last.encoded());
    } else {
        assert(packets.push(last).drop_first() =~= packets.drop_first().push(last));
        lemma_encode_packets_push(packets.drop_first(), last);
        assert(encode_packets(packets.push(last)) =~= encode_packets(packets) + last.encoded());
    }
}

impl Packet {
    /// A packet made of the three fields as given. Nothing is checked: the
    /// length field may disagree with the payload.
    pub fn new(amount: u32, data_type: u8, data: Vec<u8>) -> (packet: Packet)
        ensures
            packet@ == (PacketView { amount, data_type, data: data@ }),
    {
        Packet { amount, data_type, data }
    }

    /// The wire form of `packets`: each packet's length, tag and payload in
    /// turn, with sentinels left out.
    pub fn to_byte_vec(packets: Vec<Packet>) -> (bytes: Vec<u8>)
        ensures
            bytes@ == encode_packets(packets.deep_view()),
    {
        let ghost all = packets.deep_view();
        let mut bytes: Vec<u8> = Vec::new();
        let mut i: usize = 0;
        while i < packets.len()
            invariant
                i <= packets@.len(),
                all == packets.deep_view(),
                bytes@ == encode_packets(all.take(i as int)),
            decreases packets@.len() - i,
        {
            let packet = &packets[i];
            let ghost before = bytes@;
            if packet.amount != 0 {
                push_be32(&mut bytes, packet.amount);
                bytes.push(packet.data_type);
                push_bytes(&mut bytes, packet.data.as_slice());
            }
            proof {
                assert(all[i as int] == packet@);
                assert(bytes@ =~= before + packet@.encoded());
                lemma_encode_packets_push(all.take(i as int), all[i as int]);
                assert(all.take(i as int).push(all[i as int]) =~= all.take(i + 1));
            }
            i += 1;
        }
        assert(all.take(i as int) =~= all);
        bytes
    }
}

/// An empty packet with tag `num`, whose length field announces a payload
/// of `size` bytes that the caller is about to add.
pub fn to_packet(size: usize, num: u8) -> (packet: Packet)
    ensures
        packet@ == (PacketView {
            amount: frame_length(size as nat),
            data_type: num,
            data: Seq::empty(),
        }),
{
    let wide: u64 = size as u64;
    let amount: u64 = (wide % 0x1_0000_0000 + 1) % 0x1_0000_0000;
    Packet { amount: amount as u32, data_type: num, data: Vec::new() }
}

/// A packet with tag `num` that carries a copy of `payload`.
pub fn packet_of(num: u8, payload: &[u8]) -> (packet: Packet)
    ensures
        packet@ == PacketView::framing(num, payload@),
{
    let mut packet = to_packet(payload.len(), num);
    push_bytes(&mut packet.data, payload);
    packet
}

/// A value that can be written as a sequence of packets.
pub trait Serialize {
    /// The packets that stand for this value.
    spec fn packets(&self) -> Seq<PacketView>;

    /// Writes this value as packets.
    fn serialize(&self) -> (packets: Vec<Packet>)
        ensures
            packets.deep_view() == self.packets(),
    ;
}

/// A value from which a `T` can be read, if it is the form of one.
pub trait Deserialize<T: DeepView> {
    /// The `T` that this value stands for, if any.
    spec fn parsed(&self) -> Option<T::V>;

    /// Reads the `T` that this value stands for: `None` where it is the
    /// form of none.
    fn deserialize(&self) -> (value: Option<T>)
        ensures
            value.deep_view() == self.parsed(),
    ;
}

} // verus!
