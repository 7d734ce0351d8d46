//! Network endpoints and their packet form.
//!
//! An endpoint travels as one packet. Its tag tells the address family and
//! is read only where an address is expected, so it shares no namespace with
//! the tags of commands and responses.

use crate::packet::{packet_of, Deserialize, Packet, PacketView, Serialize};
use crate::wire::{
    be16, from_be16, lemma_be16_round_trip, lemma_be16_unique, push_be16, read_be16,
};
use vstd::prelude::*;

verus! {

/// The tag of an IPv4 endpoint packet.
pub const TAG_V4: u8 = 0;

/// The tag of an IPv6 endpoint packet.
pub const TAG_V6: u8 = 1;

/// An IP address with a port: where a peer listens.
#[derive(Debug, Clone, Copy, PartialEq, Eq, Hash)]
pub enum Endpoint {
    /// Four address octets and a port.
    V4 { octets: [u8; 4], port: u16 },
    /// Eight 16-bit address groups and a port.
    V6 { segments: [u16; 8], port: u16 },
}

impl View for Endpoint {
    type V = Endpoint;

    open spec fn view(&self) -> Endpoint {
        *self
    }
}

impl DeepView for Endpoint {
    type V = Endpoint;

    open spec fn deep_view(&self) -> Endpoint {
        *self
    }
}

/// The sixteen bytes of eight groups, each group most significant byte first.
pub open spec fn be16_groups(groups: Seq<u16>) -> Seq<u8>
    recommends
        groups.len() == 8,
{
    be16(groups[0]) + be16(groups[1]) + be16(groups[2]) + be16(groups[3]) + be16(groups[4]) + be16(
        groups[5],
    ) + be16(groups[6]) + be16(groups[7])
}

impl Endpoint {
    /// The tag that tells the address family.
    pub open spec fn tag(self) -> u8 {
        match self {
            Endpoint::V4 { .. } => TAG_V4,
            Endpoint::V6 { .. } => TAG_V6,
        }
    }

    /// The address bytes followed by the big-endian port.
    pub open spec fn payload(self) -> Seq<u8> {
        match self {
            Endpoint::V4 { octets, port } => octets@ + be16(port),
            Endpoint::V6 { segments, port } => be16_groups(segments@) + be16(port),
        }
    }

    /// The one packet that stands for this endpoint.
    pub open spec fn packet(self) -> PacketView {
        PacketView::framing(self.tag(), self.payload())
    }

    /// Writes this endpoint as its packet.
    pub fn to_packet(&self) -> (packet: Packet)
        ensures
            packet@ == self.packet(),
    {
        let mut payload: Vec<u8> = Vec::new();
        match self {
            Endpoint::V4 { octets, port } => {
                let mut i: usize = 0;
                while i < 4
                    invariant
                        i <= 4,
                        payload@ == octets@.take(i as int),
                    decreases 4 - i,
                {
                    payload.push(octets[i]);
                    i += 1;
                    assert(payload@ =~= octets@.take(i as int));
                }
                assert(octets@.take(4) =~= octets@);
                push_be16(&mut payload, *port);
                packet_of(TAG_V4, payload.as_slice())
            },
            Endpoint::V6 { segments, port } => {
                let mut i: usize = 0;
                while i < 8
                    invariant
                        i <= 8,
                        payload@.len() == 2 * i,
                        forall|k: int|
                            0 <= k < i ==> #[trigger] payload@.subrange(2 * k, 2 * k + 2) == be16(
                                segments@[k],
                            ),
                    decreases 8 - i,
                {
                    let ghost before = payload@;
                    push_be16(&mut payload, segments[i]);
                    assert forall|k: int| 0 <= k < i + 1 implies #[trigger] payload@.subrange(
                        2 * k,
                        2 * k + 2,
                    ) == be16(segments@[k]) by {
                        if k < i {
                            assert(payload@.subrange(2 * k, 2 * k + 2) =~= before.subrange(
                                2 * k,
                                2 * k + 2,
                            ));
                        } else {
                            assert(payload@.subrange(2 * k, 2 * k + 2) =~= be16(segments@[k]));
                        }
                    }
                    i += 1;
                }
                proof {
                    lemma_groups_by_pairs(payload@, segments@);
                }
                push_be16(&mut payload, *port);
                packet_of(TAG_V6, payload.as_slice())
            },
        }
    }
}

/// Sixteen bytes that hold, pair by pair, the big-endian form of eight
/// groups are the bytes of those groups.
proof fn lemma_groups_by_pairs(bytes: Seq<u8>, groups: Seq<u16>)
    requires
        bytes.len() == 16,
        groups.len() == 8,
        forall|k: int| 0 <= k < 8 ==> #[trigger] bytes.subrange(2 * k, 2 * k + 2) == be16(groups[k]),
    ensures
        bytes == be16_groups(groups),
{
    assert forall|j: int| 0 <= j < 16 implies bytes[j] == be16_groups(groups)[j] by {
        let k = j / 2;
        assert(bytes.subrange(2 * k, 2 * k + 2) == be16(groups[k]));
        assert(bytes[j] == bytes.subrange(2 * k, 2 * k + 2)[j - 2 * k]);
    }
    assert(bytes =~= be16_groups(groups));
}

/// The endpoint that a packet stands for: its tag names the family, and
/// its payload has exactly the bytes of that family's address and port.
/// The length field is not consulted.
pub open spec fn parse_endpoint(packet: PacketView) -> Option<Endpoint> {
    let d = packet.data;
    if packet.data_type == TAG_V4 && d.len() == 6 {
        Some(Endpoint::V4 { octets: [d[0], d[1], d[2], d[3]], port: from_be16(d.subrange(4, 6)) })
    } else if packet.data_type == TAG_V6 && d.len() == 18 {
        Some(
            Endpoint::V6 {
                segments: [
                    from_be16(d.subrange(0, 2)),
                    from_be16(d.subrange(2, 4)),
                    from_be16(d.subrange(4, 6)),
                    from_be16(d.subrange(6, 8)),
                    from_be16(d.subrange(8, 10)),
                    from_be16(d.subrange(10, 12)),
                    from_be16(d.subrange(12, 14)),
                    from_be16(d.subrange(14, 16)),
                ],
                port: from_be16(d.subrange(16, 18)),
            },
        )
    } else {
        None
    }
}

impl Serialize for Endpoint {
    open spec fn packets(&self) -> Seq<PacketView> {
        seq![self.packet()]
    }

    fn serialize(&self) -> (packets: Vec<Packet>) {
        let packets = vec![self.to_packet()];
        assert(packets.deep_view() =~= self.packets());
        packets
    }
}

impl Deserialize<Endpoint> for Packet {
    open spec fn parsed(&self) -> Option<Endpoint> {
        parse_endpoint(self@)
    }

    fn deserialize(&self) -> (value: Option<Endpoint>) {
        let d = self.data.as_slice();
        if self.data_type == TAG_V4 && d.len() == 6 {
            Some(Endpoint::V4 { octets: [d[0], d[1], d[2], d[3]], port: read_be16(d, 4) })
        } else if self.data_type == TAG_V6 && d.len() == 18 {
            Some(
                Endpoint::V6 {
                    segments: [
                        read_be16(d, 0),
                        read_be16(d, 2),
                        read_be16(d, 4),
                        read_be16(d, 6),
                        read_be16(d, 8),
                        read_be16(d, 10),
                        read_be16(d, 12),
                        read_be16(d, 14),
                    ],
                    port: read_be16(d, 16),
                },
            )
        } else {
            None
        }
    }
}

/// An endpoint's packet stands for that endpoint: decoding what was encoded
/// gives back the same address and port, in either family.
pub proof fn lemma_endpoint_round_trip(endpoint: Endpoint)
    ensures
        parse_endpoint(endpoint.packet()) == Some(endpoint),
{
    let d = endpoint.payload();
    match endpoint {
        Endpoint::V4 { octets, port } => {
            lemma_be16_round_trip(port);
            assert(d.subrange(4, 6) =~= be16(port));
            let back = [d[0], d[1], d[2], d[3]];
            assert(back =~= octets);
        },
        Endpoint::V6 { segments, port } => {
            lemma_be16_round_trip(port);
            assert(d.subrange(16, 18) =~= be16(port));
            lemma_be16_round_trip(segments@[0]);
            assert(d.subrange(0, 2) =~= be16(segments@[0]));
            lemma_be16_round_trip(segments@[1]);
            assert(d.subrange(2, 4) =~= be16(segments@[1]));
            lemma_be16_round_trip(segments@[2]);
            assert(d.subrange(4, 6) =~= be16(segments@[2]));
            lemma_be16_round_trip(segments@[3]);
            assert(d.subrange(6, 8) =~= be16(segments@[3]));
            lemma_be16_round_trip(segments@[4]);
            assert(d.subrange(8, 10) =~= be16(segments@[4]));
            lemma_be16_round_trip(segments@[5]);
            assert(d.subrange(10, 12) =~= be16(segments@[5]));
            lemma_be16_round_trip(segments@[6]);
            assert(d.subrange(12, 14) =~= be16(segments@[6]));
            lemma_be16_round_trip(segments@[7]);
            assert(d.subrange(14, 16) =~= be16(segments@[7]));
            let back = [
                from_be16(d.subrange(0, 2)),
                from_be16(d.subrange(2, 4)),
                from_be16(d.subrange(4, 6)),
                from_be16(d.subrange(6, 8)),
                from_be16(d.subrange(8, 10)),
                from_be16(d.subrange(10, 12)),
                from_be16(d.subrange(12, 14)),
                from_be16(d.subrange(14, 16)),
            ];
            assert(back =~= segments);
        },
    }
}

/// An endpoint is read only from its own packet: a packet that stands for
/// an endpoint has that endpoint's tag and payload.
pub proof fn lemma_endpoint_is_encoding(packet: PacketView)
    ensures
        parse_endpoint(packet) matches Some(endpoint) ==> packet.data_type == endpoint.tag()
            && packet.data == endpoint.payload(),
{
    let d = packet.data;
    match parse_endpoint(packet) {
        Some(Endpoint::V4 { octets, port }) => {
            lemma_be16_unique(d.subrange(4, 6));
            assert(octets@ =~= d.subrange(0, 4));
            assert(d =~= d.subrange(0, 4) + d.subrange(4, 6));
        },
        Some(Endpoint::V6 { segments, port }) => {
            lemma_be16_unique(d.subrange(0, 2));
            lemma_be16_unique(d.subrange(2, 4));
            lemma_be16_unique(d.subrange(4, 6));
            lemma_be16_unique(d.subrange(6, 8));
            lemma_be16_unique(d.subrange(8, 10));
            lemma_be16_unique(d.subrange(10, 12));
            lemma_be16_unique(d.subrange(12, 14));
            lemma_be16_unique(d.subrange(14, 16));
            lemma_be16_unique(d.subrange(16, 18));
            assert(be16_groups(segments@) =~= d.subrange(0, 16));
            assert(d =~= d.subrange(0, 16) + d.subrange(16, 18));
        },
        None => {},
    }
}

} // verus!
