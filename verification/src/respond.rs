//! Responses: what the directory, or a peer, answers.

use crate::address::{lemma_endpoint_round_trip, parse_endpoint, Endpoint};
use crate::packet::{encode_packets, Deserialize, Packet, PacketView, Serialize};
use crate::request::bare_packet;
use crate::stream::{
    encode_message, lemma_message_round_trip, message_bytes, parse_stream, FramingError,
};
use crate::text::{
    lemma_text_round_trip, parse_text, read_text, text_fits, text_packet, write_text,
};
use vstd::prelude::*;

verus! {

/// An answer to a command. Where a command has no effect there is no
/// answer at all, which `Option<Response>` expresses with `None`.
#[derive(Debug, Clone, PartialEq, Eq)]
pub enum Response {
    /// The nickname is now registered at the endpoint.
    Login(String, Endpoint),
    /// The users that a search found, each with its endpoint.
    Search(Vec<(String, Endpoint)>),
    /// The nickname of this connection is given up.
    Logout,
    /// The connection may end.
    Exit,
    /// A text for the named user, who listens at the endpoint.
    Message(String, String, Endpoint),
}

/// The mathematical content of a [`Response`].
pub enum ResponseView {
    Login(Seq<char>, Endpoint),
    Search(Seq<(Seq<char>, Endpoint)>),
    Logout,
    Exit,
    Message(Seq<char>, Seq<char>, Endpoint),
}

impl View for Response {
    type V = ResponseView;

    open spec fn view(&self) -> ResponseView {
        match self {
            Response::Login(name, endpoint) => ResponseView::Login(name@, *endpoint),
            Response::Search(users) => ResponseView::Search(users.deep_view()),
            Response::Logout => ResponseView::Logout,
            Response::Exit => ResponseView::Exit,
            Response::Message(name, text, endpoint) => ResponseView::Message(
                name@,
                text@,
                *endpoint,
            ),
        }
    }
}

impl DeepView for Response {
    type V = ResponseView;

    open spec fn deep_view(&self) -> ResponseView {
        self@
    }
}

/// The tag of a login response.
pub const LOGIN: u8 = 0;

/// The tag of the name packet of each entry of a search response.
pub const SEARCH: u8 = 1;

/// The tag of a logout response.
pub const LOGOUT: u8 = 2;

/// The tag of an exit response.
pub const EXIT: u8 = 3;

/// The tag of a message response.
pub const MESSAGE: u8 = 4;

/// The packets of a list of users: for each user in turn a name packet and
/// an endpoint packet.
pub open spec fn entry_packets(users: Seq<(Seq<char>, Endpoint)>) -> Seq<PacketView> {
    Seq::new(
        2 * users.len(),
        |i: int|
            if i % 2 == 0 {
                text_packet(SEARCH, users[i / 2].0)
            } else {
                users[i / 2].1.packet()
            },
    )
}

/// The user that the `k`-th pair of packets stands for, if the pair is
/// there and is a text followed by an endpoint.
pub open spec fn parse_entry(packets: Seq<PacketView>, k: int) -> Option<(Seq<char>, Endpoint)> {
    if 0 <= k && 2 * k + 1 < packets.len() && parse_text(packets[2 * k].data) is Some
        && parse_endpoint(packets[2 * k + 1]) is Some {
        Some((parse_text(packets[2 * k].data)->0, parse_endpoint(packets[2 * k + 1])->0))
    } else {
        None
    }
}

/// The users that a sequence of packets lists: the packets come in pairs,
/// and every pair stands for a user.
pub open spec fn parse_entries(packets: Seq<PacketView>) -> Option<Seq<(Seq<char>, Endpoint)>> {
    if packets.len() % 2 == 0 && forall|k: int|
        0 <= k < packets.len() / 2 ==> (#[trigger] parse_entry(packets, k)) is Some {
        Some(Seq::new(packets.len() / 2, |k: int| parse_entry(packets, k)->0))
    } else {
        None
    }
}

impl ResponseView {
    /// Whether every text of the response can be framed.
    pub open spec fn fits(self) -> bool {
        match self {
            ResponseView::Login(name, _) => text_fits(name),
            ResponseView::Search(users) => forall|k: int|
                0 <= k < users.len() ==> text_fits((#[trigger] users[k]).0),
            ResponseView::Message(name, text, _) => text_fits(name) && text_fits(text),
            _ => true,
        }
    }

    /// Whether the response is a search response that lists nobody.
    pub open spec fn lists_nobody(self) -> bool {
        self matches ResponseView::Search(users) && users.len() == 0
    }

    /// The packets of a response, in the order in which they are sent.
    pub open spec fn packets(self) -> Seq<PacketView> {
        match self {
            ResponseView::Login(name, endpoint) => seq![
                text_packet(LOGIN, name),
                endpoint.packet(),
            ],
            ResponseView::Search(users) => entry_packets(users),
            ResponseView::Logout => seq![bare_packet(LOGOUT)],
            ResponseView::Exit => seq![bare_packet(EXIT)],
            ResponseView::Message(name, text, endpoint) => seq![
                text_packet(MESSAGE, name),
                text_packet(MESSAGE, text),
                endpoint.packet(),
            ],
        }
    }
}

/// The sentinel that stands for the absence of a response. It occupies no
/// bytes on the wire.
pub open spec fn no_response() -> PacketView {
    PacketView { amount: 0, data_type: 0, data: Seq::empty() }
}

/// The packets of an answer that may be absent.
pub open spec fn reply_packets(reply: Option<ResponseView>) -> Seq<PacketView> {
    match reply {
        Some(response) => response.packets(),
        None => seq![no_response()],
    }
}

/// The response that a sequence of packets stands for. The first packet's
/// tag selects the variant; the variant then takes the packets it needs,
/// in order, and fails where one is missing or malformed. A search
/// response takes all the packets, pair by pair.
pub open spec fn parse_response(packets: Seq<PacketView>) -> Option<ResponseView> {
    if packets.len() == 0 {
        None
    } else {
        let first = packets[0];
        if first.data_type == LOGIN {
            if packets.len() >= 2 && parse_text(first.data) is Some && parse_endpoint(packets[1])
                is Some {
                Some(ResponseView::Login(parse_text(first.data)->0, parse_endpoint(packets[1])->0))
            } else {
                None
            }
        } else if first.data_type == SEARCH {
            match parse_entries(packets) {
                Some(users) => Some(ResponseView::Search(users)),
                None => None,
            }
        } else if first.data_type == LOGOUT {
            Some(ResponseView::Logout)
        } else if first.data_type == EXIT {
            Some(ResponseView::Exit)
        } else if first.data_type == MESSAGE {
            if packets.len() >= 3 && parse_text(first.data) is Some && parse_text(packets[1].data)
                is Some && parse_endpoint(packets[2]) is Some {
                Some(
                    ResponseView::Message(
                        parse_text(first.data)->0,
                        parse_text(packets[1].data)->0,
                        parse_endpoint(packets[2])->0,
                    ),
                )
            } else {
                None
            }
        } else {
            None
        }
    }
}

/// Writes a list of users as pairs of packets.
fn write_entries(users: &Vec<(String, Endpoint)>) -> (packets: Vec<Packet>)
    ensures
        packets.deep_view() == entry_packets(users.deep_view()),
{
    let mut packets: Vec<Packet> = Vec::new();
    let mut i: usize = 0;
    while i < users.len()
        invariant
            i <= users@.len(),
            packets.deep_view() == entry_packets(users.deep_view().take(i as int)),
        decreases users@.len() - i,
    {
        let ghost before = packets.deep_view();
        let name = write_text(SEARCH, &users[i].0);
        let endpoint = users[i].1.to_packet();
        packets.push(name);
        packets.push(endpoint);
        proof {
            let all = users.deep_view();
            assert(all[i as int] == (users[i as int].0@, users[i as int].1));
            assert(packets.deep_view() =~= before.push(name@).push(endpoint@));
            assert(packets.deep_view() =~= entry_packets(all.take(i + 1)));
        }
        i += 1;
    }
    assert(users.deep_view().take(i as int) =~= users.deep_view());
    packets
}

/// Reads a sequence of packets as a list of users.
fn read_entries(packets: &Vec<Packet>) -> (users: Option<Vec<(String, Endpoint)>>)
    ensures
        users.deep_view() == parse_entries(packets.deep_view()),
{
    let ghost all = packets.deep_view();
    if packets.len() % 2 != 0 {
        return None;
    }
    let mut users: Vec<(String, Endpoint)> = Vec::new();
    let mut i: usize = 0;
    while i < packets.len()
        invariant
            all == packets.deep_view(),
            packets@.len() % 2 == 0,
            i % 2 == 0,
            i <= packets@.len(),
            users@.len() == i / 2,
            forall|k: int| 0 <= k < i / 2 ==> (#[trigger] parse_entry(all, k)) is Some,
            forall|k: int|
                0 <= k < i / 2 ==> (#[trigger] users.deep_view()[k]) == parse_entry(all, k)->0,
        decreases packets@.len() - i,
    {
        let ghost k = i as int / 2;
        assert(all[2 * k] == packets[i as int]@);
        assert(all[2 * k + 1] == packets[i + 1]@);
        let name = read_text(packets[i].data.as_slice());
        let endpoint = packets[i + 1].deserialize();
        match (name, endpoint) {
            (Some(name), Some(endpoint)) => {
                let ghost before = users.deep_view();
                users.push((name, endpoint));
                assert(users.deep_view() =~= before.push((name@, endpoint)));
            },
            _ => {
                assert(parse_entry(all, k) is None);
                return None;
            },
        }
        i += 2;
    }
    assert(users.deep_view() =~= parse_entries(all)->0);
    Some(users)
}

impl Serialize for Response {
    open spec fn packets(&self) -> Seq<PacketView> {
        self@.packets()
    }

    fn serialize(&self) -> (packets: Vec<Packet>) {
        let packets = match self {
            Response::Login(name, endpoint) => vec![write_text(LOGIN, name), endpoint.to_packet()],
            Response::Search(users) => write_entries(users),
            Response::Logout => vec![Packet { amount: 1, data_type: LOGOUT, data: Vec::new() }],
            Response::Exit => vec![Packet { amount: 1, data_type: EXIT, data: Vec::new() }],
            Response::Message(name, text, endpoint) => vec![
                write_text(MESSAGE, name),
                write_text(MESSAGE, text),
                endpoint.to_packet(),
            ],
        };
        assert(packets.deep_view() =~= self@.packets());
        packets
    }
}

impl Serialize for Option<Response> {
    open spec fn packets(&self) -> Seq<PacketView> {
        reply_packets(self.deep_view())
    }

    fn serialize(&self) -> (packets: Vec<Packet>) {
        match self {
            Some(response) => response.serialize(),
            None => {
                let packets = vec![Packet { amount: 0, data_type: 0, data: Vec::new() }];
                assert(packets.deep_view() =~= seq![no_response()]);
                packets
            },
        }
    }
}

impl Deserialize<Response> for Vec<Packet> {
    open spec fn parsed(&self) -> Option<ResponseView> {
        parse_response(self.deep_view())
    }

    fn deserialize(&self) -> (value: Option<Response>) {
        if self.len() == 0 {
            return None;
        }
        let first = &self[0];
        assert(self.deep_view()[0] == first@);
        if first.data_type == LOGIN {
            if self.len() < 2 {
                return None;
            }
            assert(self.deep_view()[1] == self[1]@);
            let name = read_text(first.data.as_slice());
            let endpoint = self[1].deserialize();
            match (name, endpoint) {
                (Some(name), Some(endpoint)) => Some(Response::Login(name, endpoint)),
                _ => None,
            }
        } else if first.data_type == SEARCH {
            match read_entries(self) {
                Some(users) => Some(Response::Search(users)),
                None => None,
            }
        } else if first.data_type == LOGOUT {
            Some(Response::Logout)
        } else if first.data_type == EXIT {
            Some(Response::Exit)
        } else if first.data_type == MESSAGE {
            if self.len() < 3 {
                return None;
            }
            assert(self.deep_view()[1] == self[1]@);
            assert(self.deep_view()[2] == self[2]@);
            let name = read_text(first.data.as_slice());
            let text = read_text(self[1].data.as_slice());
            let endpoint = self[2].deserialize();
            match (name, text, endpoint) {
                (Some(name), Some(text), Some(endpoint)) => Some(
                    Response::Message(name, text, endpoint),
                ),
                _ => None,
            }
        } else {
            None
        }
    }
}

/// The bytes that go out for an answer: the message of its packets. Every
/// answer is sent, the confirmation of an exit like any other, and where
/// there is no response the message is the closing marker alone.
pub open spec fn reply_bytes(reply: Option<ResponseView>) -> Seq<u8> {
    message_bytes(reply_packets(reply))
}

/// Writes an answer as the bytes that go out for it.
pub fn reply_message(reply: &Option<Response>) -> (bytes: Vec<u8>)
    ensures
        bytes@ == reply_bytes(reply.deep_view()),
{
    encode_message(reply.serialize())
}

/// Every response but the search response that lists nobody is read back
/// from its own packets. A search response that lists nobody has no
/// packets, and no packets stand for no response.
pub proof fn lemma_response_round_trip(response: ResponseView)
    requires
        !response.lists_nobody(),
    ensures
        parse_response(response.packets()) == Some(response),
{
    match response {
        ResponseView::Login(name, endpoint) => {
            lemma_text_round_trip(name);
            lemma_endpoint_round_trip(endpoint);
        },
        ResponseView::Search(users) => {
            let packets = entry_packets(users);
            assert forall|k: int| 0 <= k < users.len() implies (#[trigger] parse_entry(packets, k))
                == Some(users[k]) by {
                lemma_text_round_trip(users[k].0);
                lemma_endpoint_round_trip(users[k].1);
            }
            assert(parse_entries(packets)->0 =~= users);
        },
        ResponseView::Message(name, text, endpoint) => {
            lemma_text_round_trip(name);
            lemma_text_round_trip(text);
            lemma_endpoint_round_trip(endpoint);
        },
        _ => {},
    }
}

/// A search response that lists nobody has no packets at all, and so is
/// read back as no response.
pub proof fn lemma_empty_search_has_no_packets()
    ensures
        ResponseView::Search(Seq::empty()).packets().len() == 0,
        parse_response(ResponseView::Search(Seq::empty()).packets()) is None,
{
}

/// The packets of a response whose texts can be framed are well-formed.
proof fn lemma_response_packets_well_formed(response: ResponseView)
    requires
        response.fits(),
    ensures
        forall|i: int|
            0 <= i < response.packets().len() ==> (#[trigger] response.packets()[i]).well_formed(),
{
    let packets = response.packets();
    match response {
        ResponseView::Search(users) => {
            assert forall|i: int| 0 <= i < packets.len() implies (
            #[trigger] packets[i]).well_formed() by {
                let k = i / 2;
                assert(text_fits(users[k].0));
            }
        },
        _ => {},
    }
}

/// An answer whose texts can be framed survives the wire, be it a
/// response or the absence of one: from the bytes of its message, whatever
/// follows them, the packets that are read stand for the same answer. Of
/// a response, they are exactly its packets. The search response that
/// lists nobody is left out: its message is that of no response.
pub proof fn lemma_reply_on_the_wire(reply: Option<ResponseView>, following: Seq<u8>)
    requires
        reply matches Some(response) ==> response.fits() && !response.lists_nobody(),
    ensures
        parse_stream(message_bytes(reply_packets(reply)) + following) matches Ok((packets, used))
            && used == message_bytes(reply_packets(reply)).len() && parse_response(packets)
            == reply && (reply matches Some(response) ==> packets == response.packets()),
{
    match reply {
        Some(response) => {
            lemma_response_packets_well_formed(response);
            lemma_message_round_trip(response.packets(), following);
            lemma_response_round_trip(response);
        },
        None => {
            assert(encode_packets(reply_packets(reply)) =~= encode_packets(Seq::empty())) by {
                reveal_with_fuel(encode_packets, 2);
            }
            lemma_message_round_trip(Seq::empty(), following);
        },
    }
}

} // verus!
