//! Commands: what a client asks of the directory or tells a peer.

use crate::address::{parse_endpoint, lemma_endpoint_round_trip, Endpoint};
use crate::packet::{to_packet, Deserialize, Packet, PacketView, Serialize};
use crate::stream::{lemma_message_round_trip, message_bytes, parse_stream, FramingError};
use crate::text::{
    lemma_text_round_trip, parse_text, read_text, text_fits, text_packet, write_text,
};
use vstd::prelude::*;

verus! {

/// A request, as typed by a user or received from a peer.
#[derive(Debug, Clone, PartialEq, Eq)]
pub enum Command {
    /// Register a nickname with the address at which its owner listens.
    Login(String, Endpoint),
    /// Give up the nickname registered on this connection.
    Logout,
    /// Look up one nickname, or everyone with `"all"`.
    Search(String),
    /// Announce the end of the connection.
    Exit,
    /// A text for the named user, or, between peers, from the named user.
    Message(String, String),
    /// Show the messages received so far.
    Show,
}

/// The mathematical content of a [`Command`].
pub enum CommandView {
    Login(Seq<char>, Endpoint),
    Logout,
    Search(Seq<char>),
    Exit,
    Message(Seq<char>, Seq<char>),
    Show,
}

impl View for Command {
    type V = CommandView;

    open spec fn view(&self) -> CommandView {
        match self {
            Command::Login(name, endpoint) => CommandView::Login(name@, *endpoint),
            Command::Logout => CommandView::Logout,
            Command::Search(name) => CommandView::Search(name@),
            Command::Exit => CommandView::Exit,
            Command::Message(name, text) => CommandView::Message(name@, text@),
            Command::Show => CommandView::Show,
        }
    }
}

impl DeepView for Command {
    type V = CommandView;

    open spec fn deep_view(&self) -> CommandView {
        self@
    }
}

/// The tag of a login command.
pub const LOGIN: u8 = 0;

/// The tag of a logout command.
pub const LOGOUT: u8 = 1;

/// The tag of a search command.
pub const SEARCH: u8 = 2;

/// The tag of an exit command.
pub const EXIT: u8 = 3;

/// The tag of a message command.
pub const MESSAGE: u8 = 4;

/// The tag of a show command.
pub const SHOW: u8 = 5;

/// The packet of a command that has a tag and nothing else.
pub open spec fn bare_packet(tag: u8) -> PacketView {
    PacketView::framing(tag, Seq::empty())
}

impl CommandView {
    /// Whether every text of the command can be framed.
    pub open spec fn fits(self) -> bool {
        match self {
            CommandView::Login(name, _) => text_fits(name),
            CommandView::Search(name) => text_fits(name),
            CommandView::Message(name, text) => text_fits(name) && text_fits(text),
            _ => true,
        }
    }

    /// The packets of a command, in the order in which they are sent.
    pub open spec fn packets(self) -> Seq<PacketView> {
        match self {
            CommandView::Login(name, endpoint) => seq![text_packet(LOGIN, name), endpoint.packet()],
            CommandView::Logout => seq![bare_packet(LOGOUT)],
            CommandView::Search(name) => seq![text_packet(SEARCH, name)],
            CommandView::Exit => seq![bare_packet(EXIT)],
            CommandView::Message(name, text) => seq![
                text_packet(MESSAGE, name),
                text_packet(MESSAGE, text),
            ],
            CommandView::Show => seq![bare_packet(SHOW)],
        }
    }
}

/// The command that a sequence of packets stands for. The first packet's
/// tag selects the variant; the variant then takes the packets it needs,
/// in order, and fails where one is missing or malformed. Packets beyond
/// those are not looked at.
pub open spec fn parse_command(packets: Seq<PacketView>) -> Option<CommandView> {
    if packets.len() == 0 {
        None
    } else {
        let first = packets[0];
        if first.data_type == LOGIN {
            if packets.len() >= 2 && parse_text(first.data) is Some && parse_endpoint(packets[1])
                is Some {
                Some(CommandView::Login(parse_text(first.data)->0, parse_endpoint(packets[1])->0))
            } else {
                None
            }
        } else if first.data_type == LOGOUT {
            Some(CommandView::Logout)
        } else if first.data_type == SEARCH {
            if parse_text(first.data) is Some {
                Some(CommandView::Search(parse_text(first.data)->0))
            } else {
                None
            }
        } else if first.data_type == EXIT {
            Some(CommandView::Exit)
        } else if first.data_type == MESSAGE {
            if packets.len() >= 2 && parse_text(first.data) is Some && parse_text(packets[1].data)
                is Some {
                Some(
                    CommandView::Message(parse_text(first.data)->0, parse_text(packets[1].data)->0),
                )
            } else {
                None
            }
        } else if first.data_type == SHOW {
            Some(CommandView::Show)
        } else {
            None
        }
    }
}

impl Serialize for Command {
    open spec fn packets(&self) -> Seq<PacketView> {
        self@.packets()
    }

    fn serialize(&self) -> (packets: Vec<Packet>) {
        let packets = match self {
            Command::Login(name, endpoint) => vec![write_text(LOGIN, name), endpoint.to_packet()],
            Command::Logout => vec![to_packet(0, LOGOUT)],
            Command::Search(name) => vec![write_text(SEARCH, name)],
            Command::Exit => vec![to_packet(0, EXIT)],
            Command::Message(name, text) => vec![
                write_text(MESSAGE, name),
                write_text(MESSAGE, text),
            ],
            Command::Show => vec![to_packet(0, SHOW)],
        };
        assert(packets.deep_view() =~= self@.packets());
        packets
    }
}

impl Deserialize<Command> for Vec<Packet> {
    open spec fn parsed(&self) -> Option<CommandView> {
        parse_command(self.deep_view())
    }

    fn deserialize(&self) -> (value: Option<Command>) {
        if self.len() == 0 {
            return None;
        }
        let first = &self[0];
        assert(self.deep_view()[0] == first@);
        if first.data_type == LOGIN {
            if self.len() < 2 {
                return None;
            }
            assert(self.deep_view()[1] == self[1]@);
            let name = read_text(first.data.as_slice());
            let endpoint = self[1].deserialize();
            match (name, endpoint) {
                (Some(name), Some(endpoint)) => Some(Command::Login(name, endpoint)),
                _ => None,
            }
        } else if first.data_type == LOGOUT {
            Some(Command::Logout)
        } else if first.data_type == SEARCH {
            match read_text(first.data.as_slice()) {
                Some(name) => Some(Command::Search(name)),
                None => None,
            }
        } else if first.data_type == EXIT {
            Some(Command::Exit)
        } else if first.data_type == MESSAGE {
            if self.len() < 2 {
                return None;
            }
            assert(self.deep_view()[1] == self[1]@);
            let name = read_text(first.data.as_slice());
            let text = read_text(self[1].data.as_slice());
            match (name, text) {
                (Some(name), Some(text)) => Some(Command::Message(name, text)),
                _ => None,
            }
        } else if first.data_type == SHOW {
            Some(Command::Show)
        } else {
            None
        }
    }
}

/// Every command is read back from its own packets.
pub proof fn lemma_command_round_trip(command: CommandView)
    ensures
        parse_command(command.packets()) == Some(command),
{
    match command {
        CommandView::Login(name, endpoint) => {
            lemma_text_round_trip(name);
            lemma_endpoint_round_trip(endpoint);
        },
        CommandView::Search(name) => {
            lemma_text_round_trip(name);
        },
        CommandView::Message(name, text) => {
            lemma_text_round_trip(name);
            lemma_text_round_trip(text);
        },
        _ => {},
    }
}

/// A command whose texts can be framed survives the wire: from the bytes
/// of its message, whatever follows them, exactly its packets are read,
/// and they are read back as the command.
pub proof fn lemma_command_on_the_wire(command: CommandView, following: Seq<u8>)
    requires
        command.fits(),
    ensures
        parse_stream(message_bytes(command.packets()) + following) == Ok::<_, FramingError>(
            (command.packets(), message_bytes(command.packets()).len() as int),
        ),
        parse_command(command.packets()) == Some(command),
{
    let packets = command.packets();
    assert forall|i: int| 0 <= i < packets.len() implies (#[trigger] packets[i]).well_formed() by {}
    lemma_message_round_trip(packets, following);
    lemma_command_round_trip(command);
}

} // verus!
