//! The client's side of the conversation: what to do with a command that
//! the user typed, and with an answer that came back from the directory.
//!
//! A message for a peer to whom a connection is open goes straight to that
//! peer. For any other peer the client asks the directory where the peer
//! listens, remembers the text meanwhile, and dials the peer when the
//! answer names the endpoint. The connections themselves belong to the
//! caller; the relay keeps the names under which they are cached, at most
//! `peer_limit` of them, the oldest giving way to a new one.

use crate::address::Endpoint;
use crate::request::{Command, CommandView};
use crate::respond::{Response, ResponseView};
use vstd::prelude::*;

verus! {

/// What the user's command asks the caller to do.
#[derive(Debug, Clone, PartialEq, Eq)]
pub enum Outbound {
    /// Nothing.
    Nothing,
    /// Send the command on the cached connection to the named peer.
    Peer(String, Command),
    /// Send the command to the directory and hand its answer to
    /// [`Relay::react`].
    Directory(Command),
    /// Send the command to the directory and stop, without waiting for an
    /// answer.
    Farewell(Command),
    /// Empty the mailbox and show what it held.
    Show,
}

/// The mathematical content of an [`Outbound`].
pub enum OutboundView {
    Nothing,
    Peer(Seq<char>, CommandView),
    Directory(CommandView),
    Farewell(CommandView),
    Show,
}

impl View for Outbound {
    type V = OutboundView;

    open spec fn view(&self) -> OutboundView {
        match self {
            Outbound::Nothing => OutboundView::Nothing,
            Outbound::Peer(peer, command) => OutboundView::Peer(peer@, command@),
            Outbound::Directory(command) => OutboundView::Directory(command@),
            Outbound::Farewell(command) => OutboundView::Farewell(command@),
            Outbound::Show => OutboundView::Show,
        }
    }
}

/// What the directory's answer asks the caller to do.
#[derive(Debug, Clone, PartialEq, Eq)]
pub enum Reaction {
    /// Nothing.
    Nothing,
    /// The login under this name was accepted: listen for peers at the
    /// endpoint.
    Listen(String, Endpoint),
    /// Tell the user that the logout was confirmed.
    LoggedOut,
    /// Tell the user that the exit was confirmed.
    Exited,
    /// Show the users that a search found.
    Found(Vec<(String, Endpoint)>),
    /// Open a connection to `endpoint` and send `command` on it. Cache the
    /// connection under `peer` if `keep` is set, and close the connection
    /// cached under `evicted`, if one is named.
    Dial { peer: String, endpoint: Endpoint, command: Command, keep: bool, evicted: Option<String> },
}

/// The mathematical content of a [`Reaction`].
pub enum ReactionView {
    Nothing,
    Listen(Seq<char>, Endpoint),
    LoggedOut,
    Exited,
    Found(Seq<(Seq<char>, Endpoint)>),
    Dial {
        peer: Seq<char>,
        endpoint: Endpoint,
        command: CommandView,
        keep: bool,
        evicted: Option<Seq<char>>,
    },
}

impl View for Reaction {
    type V = ReactionView;

    open spec fn view(&self) -> ReactionView {
        match self {
            Reaction::Nothing => ReactionView::Nothing,
            Reaction::Listen(name, endpoint) => ReactionView::Listen(name@, *endpoint),
            Reaction::LoggedOut => ReactionView::LoggedOut,
            Reaction::Exited => ReactionView::Exited,
            Reaction::Found(users) => ReactionView::Found(users.deep_view()),
            Reaction::Dial { peer, endpoint, command, keep, evicted } => ReactionView::Dial {
                peer: peer@,
                endpoint: *endpoint,
                command: command@,
                keep: *keep,
                evicted: evicted.deep_view(),
            },
        }
    }
}

/// The mathematical content of a [`Relay`].
pub struct RelayView {
    /// The name under which the user is logged in.
    pub username: Option<Seq<char>>,
    /// The peers to whom a connection is cached, oldest first.
    pub peers: Seq<Seq<char>>,
    /// The most connections that are cached at once.
    pub peer_limit: nat,
    /// The peer whose endpoint the directory was asked for, and the text
    /// that waits for it.
    pub pending: Option<(Seq<char>, Seq<char>)>,
}

/// The cached peers after a connection to `peer` was opened, and the peer
/// whose connection gave way. With a limit of zero nothing is cached. A
/// peer that is cached already stays where it is. Else the peer comes
/// last, and where the cache was full the oldest peer leaves.
pub open spec fn cached(peers: Seq<Seq<char>>, limit: nat, peer: Seq<char>) -> (
    Seq<Seq<char>>,
    Option<Seq<char>>,
) {
    if limit == 0 || peers.contains(peer) {
        (peers, None)
    } else if peers.len() < limit {
        (peers.push(peer), None)
    } else {
        (peers.drop_first().push(peer), Some(peers[0]))
    }
}

impl RelayView {
    /// The cache is within its limit.
    pub open spec fn well_formed(self) -> bool {
        self.peers.len() <= self.peer_limit
    }

    /// The relay with another text waiting, or none.
    pub open spec fn waiting(self, pending: Option<(Seq<char>, Seq<char>)>) -> RelayView {
        RelayView { pending, ..self }
    }

    /// The relay and the caller's task after the user typed `command`.
    ///
    /// A message for a cached peer goes to that peer under the user's own
    /// name, or nowhere if the user is not logged in. A message for
    /// another peer becomes a search for that peer, and its text waits.
    /// A request to show the messages is the caller's alone. Everything
    /// else goes to the directory as it is, an exit without waiting for
    /// the answer.
    pub open spec fn sent(self, command: CommandView) -> (RelayView, OutboundView) {
        match command {
            CommandView::Message(peer, text) => if self.peers.contains(peer) {
                match self.username {
                    Some(me) => (self, OutboundView::Peer(peer, CommandView::Message(me, text))),
                    None => (self, OutboundView::Nothing),
                }
            } else {
                (
                    self.waiting(Some((peer, text))),
                    OutboundView::Directory(CommandView::Search(peer)),
                )
            },
            CommandView::Show => (self, OutboundView::Show),
            CommandView::Exit => (self.waiting(None), OutboundView::Farewell(command)),
            _ => (self.waiting(None), OutboundView::Directory(command)),
        }
    }

    /// The relay and the caller's task when a connection to `peer` at
    /// `endpoint` is to carry `text`: dial and send the text under the
    /// user's own name, or do nothing if the user is not logged in.
    pub open spec fn dialled(self, peer: Seq<char>, endpoint: Endpoint, text: Seq<char>) -> (
        RelayView,
        ReactionView,
    ) {
        match self.username {
            Some(me) => (
                RelayView { peers: cached(self.peers, self.peer_limit, peer).0, ..self },
                ReactionView::Dial {
                    peer,
                    endpoint,
                    command: CommandView::Message(me, text),
                    keep: self.peer_limit > 0,
                    evicted: cached(self.peers, self.peer_limit, peer).1,
                },
            ),
            None => (self, ReactionView::Nothing),
        }
    }

    /// Whether a search answer is the one that a waiting text waits for:
    /// it names the awaited peer and nobody else.
    pub open spec fn awaited(self, users: Seq<(Seq<char>, Endpoint)>) -> bool {
        self.pending matches Some((peer, _)) && users.len() == 1 && users[0].0 == peer
    }

    /// The relay and the caller's task after the directory answered with
    /// `reply`.
    ///
    /// Whatever the answer, no text waits any longer. An accepted login
    /// makes the name the user's own. A search answer for which a text
    /// waits, and a message answer, lead to a dial. Other answers are
    /// shown, and no answer means that nothing happened.
    pub open spec fn reacted(self, reply: Option<ResponseView>) -> (RelayView, ReactionView) {
        let settled = self.waiting(None);
        match reply {
            None => (settled, ReactionView::Nothing),
            Some(ResponseView::Login(name, endpoint)) => (
                RelayView { username: Some(name), ..settled },
                ReactionView::Listen(name, endpoint),
            ),
            Some(ResponseView::Logout) => (settled, ReactionView::LoggedOut),
            Some(ResponseView::Exit) => (settled, ReactionView::Exited),
            Some(ResponseView::Search(users)) => match self.pending {
                Some((peer, text)) => if self.awaited(users) {
                    settled.dialled(peer, users[0].1, text)
                } else {
                    (settled, ReactionView::Found(users))
                },
                None => (settled, ReactionView::Found(users)),
            },
            Some(ResponseView::Message(peer, text, endpoint)) => settled.dialled(
                peer,
                endpoint,
                text,
            ),
        }
    }
}

/// The state of a relaying client.
pub struct Relay {
    username: Option<String>,
    peers: Vec<String>,
    peer_limit: usize,
    pending: Option<(String, String)>,
}

impl View for Relay {
    type V = RelayView;

    closed spec fn view(&self) -> RelayView {
        RelayView {
            username: self.username.deep_view(),
            peers: self.peers.deep_view(),
            peer_limit: self.peer_limit as nat,
            pending: self.pending.deep_view(),
        }
    }
}

impl Relay {
    #[verifier::type_invariant]
    spec fn within_limit(&self) -> bool {
        self.peers@.len() <= self.peer_limit
    }

    /// The relay of a user who is not logged in and has no connection,
    /// which will cache at most `peer_limit` connections.
    pub fn new(peer_limit: usize) -> (relay: Relay)
        ensures
            relay@ == (RelayView {
                username: None,
                peers: Seq::empty(),
                peer_limit: peer_limit as nat,
                pending: None,
            }),
    {
        let relay = Relay { username: None, peers: Vec::new(), peer_limit, pending: None };
        assert(relay.peers.deep_view() =~= Seq::<Seq<char>>::empty());
        relay
    }

    /// The name under which the user is logged in.
    pub fn username(&self) -> (name: Option<String>)
        ensures
            name.deep_view() == self@.username,
    {
        match &self.username {
            Some(name) => Some(name.clone()),
            None => None,
        }
    }

    /// Whether a connection to `peer` is cached.
    pub fn knows(&self, peer: &String) -> (known: bool)
        ensures
            known == self@.peers.contains(peer@),
    {
        let mut i: usize = 0;
        while i < self.peers.len()
            invariant
                i <= self.peers@.len(),
                forall|j: int| 0 <= j < i ==> (#[trigger] self.peers.deep_view()[j]) != peer@,
            decreases self.peers@.len() - i,
        {
            assert(self.peers.deep_view()[i as int] == self.peers@[i as int]@);
            if self.peers[i] == *peer {
                return true;
            }
            i += 1;
        }
        false
    }

    /// Decides what to do with a command that the user typed.
    pub fn send(&mut self, command: Command) -> (task: Outbound)
        ensures
            (final(self)@, task@) == old(self)@.sent(command@),
            final(self)@.well_formed(),
    {
        proof {
            use_type_invariant(&*self);
        }
        match command {
            Command::Message(peer, text) => {
                if self.knows(&peer) {
                    match &self.username {
                        Some(me) => Outbound::Peer(peer, Command::Message(me.clone(), text)),
                        None => Outbound::Nothing,
                    }
                } else {
                    self.pending = Some((peer.clone(), text));
                    Outbound::Directory(Command::Search(peer))
                }
            },
            Command::Show => Outbound::Show,
            Command::Exit => {
                self.pending = None;
                Outbound::Farewell(Command::Exit)
            },
            other => {
                self.pending = None;
                Outbound::Directory(other)
            },
        }
    }

    /// Notes that a connection to `peer` is being opened, and names the
    /// peer whose cached connection gives way.
    fn cache(&mut self, peer: &String) -> (evicted: Option<String>)
        ensures
            final(self)@ == (RelayView {
                peers: cached(old(self)@.peers, old(self)@.peer_limit, peer@).0,
                ..old(self)@
            }),
            evicted.deep_view() == cached(old(self)@.peers, old(self)@.peer_limit, peer@).1,
    {
        proof {
            use_type_invariant(&*self);
        }
        if self.peer_limit == 0 || self.knows(peer) {
            return None;
        }
        let ghost before = self.peers.deep_view();
        let mut peers: Vec<String> = Vec::new();
        core::mem::swap(&mut self.peers, &mut peers);
        let evicted = if peers.len() < self.peer_limit {
            None
        } else {
            let oldest = peers.remove(0);
            assert(peers.deep_view() =~= before.drop_first());
            Some(oldest)
        };
        let ghost kept = peers.deep_view();
        peers.push(peer.clone());
        assert(peers.deep_view() =~= kept.push(peer@));
        self.peers = peers;
        evicted
    }

    /// Decides how to carry `text` to `peer` at `endpoint`.
    fn dial(&mut self, peer: String, endpoint: Endpoint, text: String) -> (task: Reaction)
        ensures
            (final(self)@, task@) == old(self)@.dialled(peer@, endpoint, text@),
    {
        match &self.username {
            Some(me) => {
                let command = Command::Message(me.clone(), text);
                let keep = self.peer_limit > 0;
                let evicted = self.cache(&peer);
                Reaction::Dial { peer, endpoint, command, keep, evicted }
            },
            None => Reaction::Nothing,
        }
    }

    /// Decides what to do with the directory's answer to the command that
    /// was sent last.
    pub fn react(&mut self, reply: Option<Response>) -> (task: Reaction)
        ensures
            (final(self)@, task@) == old(self)@.reacted(reply.deep_view()),
            final(self)@.well_formed(),
    {
        proof {
            use_type_invariant(&*self);
        }
        let mut pending: Option<(String, String)> = None;
        core::mem::swap(&mut self.pending, &mut pending);
        let task = match reply {
            None => Reaction::Nothing,
            Some(Response::Login(name, endpoint)) => {
                self.username = Some(name.clone());
                Reaction::Listen(name, endpoint)
            },
            Some(Response::Logout) => Reaction::LoggedOut,
            Some(Response::Exit) => Reaction::Exited,
            Some(Response::Search(mut users)) => {
                let awaited = match &pending {
                    Some((peer, _)) => users.len() == 1 && users[0].0 == *peer,
                    None => false,
                };
                assert(awaited == old(self)@.awaited(users.deep_view())) by {
                    if users@.len() > 0 {
                        assert(users.deep_view()[0].0 == users@[0].0@);
                    }
                }
                match pending {
                    Some((_, text)) => {
                        if awaited {
                            let ghost found = users.deep_view();
                            let (peer, endpoint) = users.remove(0);
                            assert(found[0] == (peer@, endpoint));
                            self.dial(peer, endpoint, text)
                        } else {
                            Reaction::Found(users)
                        }
                    },
                    None => Reaction::Found(users),
                }
            },
            Some(Response::Message(peer, text, endpoint)) => self.dial(peer, endpoint, text),
        };
        proof {
            use_type_invariant(&*self);
        }
        task
    }
}

/// The cache never outgrows its limit, whatever the user types and
/// whatever the directory answers.
pub proof fn lemma_cache_stays_bounded(
    relay: RelayView,
    command: CommandView,
    reply: Option<ResponseView>,
)
    requires
        relay.well_formed(),
    ensures
        relay.sent(command).0.well_formed(),
        relay.reacted(reply).0.well_formed(),
{
}

/// A text for a peer without a cached connection reaches that peer: the
/// relay of a logged-in user asks the directory for the peer, and when the
/// directory names the peer's endpoint the relay dials it with the text
/// under the user's own name.
pub proof fn lemma_message_finds_its_peer(
    relay: RelayView,
    me: Seq<char>,
    peer: Seq<char>,
    text: Seq<char>,
    endpoint: Endpoint,
)
    requires
        relay.username == Some(me),
        !relay.peers.contains(peer),
    ensures
        relay.sent(CommandView::Message(peer, text)).1 == OutboundView::Directory(
            CommandView::Search(peer),
        ),
        relay.sent(CommandView::Message(peer, text)).0.reacted(
            Some(ResponseView::Search(seq![(peer, endpoint)])),
        ).1 matches ReactionView::Dial { peer: to, endpoint: at, command, .. } && to == peer && at
            == endpoint && command == CommandView::Message(me, text),
{
}

} // verus!
