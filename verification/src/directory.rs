//! The directory of registered users and the per-connection session that
//! talks to it.
//!
//! The directory maps each nickname to the endpoint at which its owner
//! listens. A command is handled in one step, on exclusive access to the
//! directory: the check whether a nickname is free and its registration
//! cannot be separated by another connection's command.

use crate::address::Endpoint;
use crate::assoc::{
    as_map, distinct, holds, lemma_as_map_at, lemma_as_map_lists, lemma_as_map_push,
    lemma_as_map_remove, lists,
};
use crate::packet::{Deserialize, Packet, PacketView};
use crate::request::{parse_command, Command, CommandView};
use crate::respond::{reply_bytes, reply_message, Response, ResponseView};
use vstd::prelude::*;

verus! {

/// The nickname and endpoint under which a connection is logged in.
pub type Identity = (Seq<char>, Endpoint);

/// The nickname that asks for every user.
pub open spec fn everyone() -> Seq<char> {
    "all"@
}

/// Whether a login under `name` is accepted: the name is not empty and
/// nobody holds it.
pub open spec fn admits(directory: Map<Seq<char>, Endpoint>, name: Seq<char>) -> bool {
    name.len() > 0 && !directory.contains_key(name)
}

/// The state that a command leaves behind.
pub struct Step {
    pub directory: Map<Seq<char>, Endpoint>,
    pub session: Option<Identity>,
}

/// The directory and the session after `command` was handled.
///
/// An accepted login registers the name and binds the session to it.
/// Logout and exit remove the session's name and unbind the session.
/// Nothing else changes anything.
pub open spec fn after(
    directory: Map<Seq<char>, Endpoint>,
    session: Option<Identity>,
    command: CommandView,
) -> Step {
    match command {
        CommandView::Login(name, endpoint) => if admits(directory, name) {
            Step { directory: directory.insert(name, endpoint), session: Some((name, endpoint)) }
        } else {
            Step { directory, session }
        },
        CommandView::Logout | CommandView::Exit => match session {
            Some((name, _)) => Step { directory: directory.remove(name), session: None },
            None => Step { directory, session },
        },
        _ => Step { directory, session },
    }
}

/// Whether `reply` answers a search for `query`.
///
/// An empty query has no answer. `"all"` is answered by a list of the
/// whole directory, in any order, unless the directory is empty. Any other
/// query is answered by the one user of that name, if there is one.
pub open spec fn found(
    directory: Map<Seq<char>, Endpoint>,
    query: Seq<char>,
    reply: Option<ResponseView>,
) -> bool {
    if query.len() == 0 {
        reply is None
    } else if query == everyone() {
        if directory == Map::<Seq<char>, Endpoint>::empty() {
            reply is None
        } else {
            reply matches Some(ResponseView::Search(users)) && lists(users, directory)
        }
    } else if directory.contains_key(query) {
        reply == Some(ResponseView::Search(seq![(query, directory[query])]))
    } else {
        reply is None
    }
}

/// Whether `reply` is the answer to `command`, handled on `directory` by
/// the connection whose session is `session`.
///
/// A login is echoed if it is accepted. A logout is confirmed if the
/// session was bound. An exit is always confirmed. A message or a request
/// to show messages is not the directory's business and has no answer.
pub open spec fn answers(
    directory: Map<Seq<char>, Endpoint>,
    session: Option<Identity>,
    command: CommandView,
    reply: Option<ResponseView>,
) -> bool {
    match command {
        CommandView::Login(name, endpoint) => reply == if admits(directory, name) {
            Some(ResponseView::Login(name, endpoint))
        } else {
            None
        },
        CommandView::Search(query) => found(directory, query, reply),
        CommandView::Logout => reply == if session is Some {
            Some(ResponseView::Logout)
        } else {
            None
        },
        CommandView::Exit => reply == Some(ResponseView::Exit),
        CommandView::Message(_, _) | CommandView::Show => reply is None,
    }
}

/// Whether `bytes` are what goes out in answer to `command`: the message
/// of an answer that `command` has on `directory` from `session`.
pub open spec fn replies(
    directory: Map<Seq<char>, Endpoint>,
    session: Option<Identity>,
    command: CommandView,
    bytes: Seq<u8>,
) -> bool {
    exists|reply: Option<ResponseView>| #[trigger]
        answers(directory, session, command, reply) && bytes == reply_bytes(reply)
}

/// What serving one received message comes to.
///
/// Packets that stand for no command are dropped: nothing changes and
/// nothing is sent. Packets that stand for a command change the directory
/// and the session as the command does, and the answer goes out as a
/// message, also where the answer is that there is no response.
pub open spec fn served(
    directory: Map<Seq<char>, Endpoint>,
    session: Option<Identity>,
    packets: Seq<PacketView>,
    next: Step,
    sent: Option<Seq<u8>>,
) -> bool {
    match parse_command(packets) {
        None => next == (Step { directory, session }) && sent is None,
        Some(command) => {
            &&& next == after(directory, session, command)
            &&& sent matches Some(bytes)
            &&& replies(directory, session, command, bytes)
        },
    }
}

/// Of two logins under one nickname, handled one after the other in
/// either order and from whichever sessions, the second is never
/// answered, and the first is answered exactly if the nickname was free
/// and not empty. Once the winner has logged out the nickname is free
/// again.
pub proof fn lemma_one_login_wins(
    directory: Map<Seq<char>, Endpoint>,
    name: Seq<char>,
    first: Endpoint,
    first_session: Option<Identity>,
    first_reply: Option<ResponseView>,
    second: Endpoint,
    second_session: Option<Identity>,
    second_reply: Option<ResponseView>,
)
    requires
        answers(directory, first_session, CommandView::Login(name, first), first_reply),
        answers(
            after(directory, first_session, CommandView::Login(name, first)).directory,
            second_session,
            CommandView::Login(name, second),
            second_reply,
        ),
    ensures
        first_reply is Some <==> admits(directory, name),
        second_reply is None,
        ({
            let won = after(directory, first_session, CommandView::Login(name, first));
            let lost = after(won.directory, second_session, CommandView::Login(name, second));
            let left = after(lost.directory, won.session, CommandView::Logout);
            &&& lost.directory == won.directory
            &&& lost.session == second_session
            &&& first_reply is Some ==> won.session == Some((name, first)) && admits(
                left.directory,
                name,
            )
        }),
{
}

/// An exit is always confirmed, and it takes the nickname of the session
/// that sent it out of the directory: a search for that nickname, from any
/// session, then has no answer. The one exception is the nickname `"all"`,
/// for which a search lists whoever is left.
pub proof fn lemma_exit_deregisters(
    directory: Map<Seq<char>, Endpoint>,
    name: Seq<char>,
    endpoint: Endpoint,
    reply: Option<ResponseView>,
    later_session: Option<Identity>,
    later_reply: Option<ResponseView>,
)
    requires
        answers(directory, Some((name, endpoint)), CommandView::Exit, reply),
        answers(
            after(directory, Some((name, endpoint)), CommandView::Exit).directory,
            later_session,
            CommandView::Search(name),
            later_reply,
        ),
        name != everyone() || directory.remove(name) == Map::<Seq<char>, Endpoint>::empty(),
    ensures
        reply == Some(ResponseView::Exit),
        after(directory, Some((name, endpoint)), CommandView::Exit).session is None,
        !after(directory, Some((name, endpoint)), CommandView::Exit).directory.contains_key(name),
        later_reply is None,
{
}

/// An exit from a session that is not logged in is confirmed too, and
/// changes nothing.
pub proof fn lemma_exit_without_login(
    directory: Map<Seq<char>, Endpoint>,
    reply: Option<ResponseView>,
)
    requires
        answers(directory, None, CommandView::Exit, reply),
    ensures
        reply == Some(ResponseView::Exit),
        after(directory, None, CommandView::Exit) == (Step { directory, session: None }),
{
}

/// The registry that maps each nickname to an endpoint.
pub struct Directory {
    entries: Vec<(String, Endpoint)>,
}

/// What a connection knows of itself: under which nickname, if any, it is
/// logged in.
pub struct Session {
    identity: Option<(String, Endpoint)>,
}

impl View for Session {
    type V = Option<Identity>;

    closed spec fn view(&self) -> Option<Identity> {
        self.identity.deep_view()
    }
}

impl Session {
    /// The session of a connection that has not logged in.
    pub fn new() -> (session: Session)
        ensures
            session@ is None,
    {
        Session { identity: None }
    }

    /// The nickname and endpoint under which the connection is logged in.
    pub fn identity(&self) -> (identity: Option<(String, Endpoint)>)
        ensures
            identity.deep_view() == self@,
    {
        match &self.identity {
            Some((name, endpoint)) => Some((name.clone(), *endpoint)),
            None => None,
        }
    }
}

impl View for Directory {
    type V = Map<Seq<char>, Endpoint>;

    closed spec fn view(&self) -> Map<Seq<char>, Endpoint> {
        as_map(self.entries.deep_view())
    }
}

impl Directory {
    #[verifier::type_invariant]
    spec fn names_are_distinct(&self) -> bool {
        distinct(self.entries.deep_view())
    }

    /// A directory in which nobody is registered.
    pub fn new() -> (directory: Directory)
        ensures
            directory@ == Map::<Seq<char>, Endpoint>::empty(),
    {
        let directory = Directory { entries: Vec::new() };
        proof {
            lemma_as_map_lists(directory.entries.deep_view());
        }
        directory
    }

    /// Moves the entries out, so that they can change while the directory
    /// itself stays well-formed, and leaves none behind.
    fn take_entries(&mut self) -> (entries: Vec<(String, Endpoint)>)
        ensures
            entries == old(self).entries,
    {
        let mut entries: Vec<(String, Endpoint)> = Vec::new();
        core::mem::swap(&mut self.entries, &mut entries);
        entries
    }

    /// Where `name` stands among the entries.
    fn position(&self, name: &String) -> (at: Option<usize>)
        ensures
            match at {
                Some(i) => i < self.entries@.len() && self.entries.deep_view()[i as int].0
                    == name@,
                None => !holds(self.entries.deep_view(), name@),
            },
    {
        let mut i: usize = 0;
        while i < self.entries.len()
            invariant
                i <= self.entries@.len(),
                forall|j: int| 0 <= j < i ==> (#[trigger] self.entries.deep_view()[j]).0 != name@,
            decreases self.entries@.len() - i,
        {
            assert(self.entries.deep_view()[i as int].0 == self.entries@[i as int].0@);
            if self.entries[i].0 == *name {
                return Some(i);
            }
            i += 1;
        }
        None
    }

    /// The endpoint registered under `name`, if there is one.
    pub fn lookup(&self, name: &String) -> (endpoint: Option<Endpoint>)
        ensures
            endpoint == if self@.contains_key(name@) {
                Some(self@[name@])
            } else {
                None
            },
    {
        proof {
            use_type_invariant(self);
        }
        match self.position(name) {
            Some(i) => {
                proof {
                    lemma_as_map_at(self.entries.deep_view(), i as int);
                }
                Some(self.entries[i].1)
            },
            None => None,
        }
    }

    /// Registers `name` at `endpoint` if `name` is not empty and nobody
    /// holds it, and says whether it did.
    pub fn register(&mut self, name: String, endpoint: Endpoint) -> (accepted: bool)
        ensures
            accepted == admits(old(self)@, name@),
            final(self)@ == if accepted {
                old(self)@.insert(name@, endpoint)
            } else {
                old(self)@
            },
    {
        proof {
            use_type_invariant(&*self);
        }
        if name.as_str().is_empty() {
            return false;
        }
        if self.position(&name).is_some() {
            return false;
        }
        proof {
            lemma_as_map_push(self.entries.deep_view(), name@, endpoint);
        }
        let mut entries = self.take_entries();
        let ghost before = entries.deep_view();
        entries.push((name, endpoint));
        assert(entries.deep_view() =~= before.push((name@, endpoint)));
        self.entries = entries;
        true
    }

    /// Removes `name` and its endpoint, if `name` is registered.
    pub fn remove(&mut self, name: &String)
        ensures
            final(self)@ == old(self)@.remove(name@),
    {
        proof {
            use_type_invariant(&*self);
        }
        match self.position(name) {
            Some(i) => {
                proof {
                    lemma_as_map_remove(self.entries.deep_view(), i as int);
                }
                let mut entries = self.take_entries();
                let ghost before = entries.deep_view();
                entries.remove(i);
                assert(entries.deep_view() =~= before.remove(i as int));
                self.entries = entries;
            },
            None => {
                assert(self@ =~= self@.remove(name@));
            },
        }
    }

    /// Every registered nickname with its endpoint.
    pub fn snapshot(&self) -> (users: Vec<(String, Endpoint)>)
        ensures
            lists(users.deep_view(), self@),
            users@.len() == 0 <==> self@ == Map::<Seq<char>, Endpoint>::empty(),
    {
        proof {
            use_type_invariant(self);
            lemma_as_map_lists(self.entries.deep_view());
        }
        let mut users: Vec<(String, Endpoint)> = Vec::new();
        let mut i: usize = 0;
        while i < self.entries.len()
            invariant
                i <= self.entries@.len(),
                users.deep_view() == self.entries.deep_view().take(i as int),
            decreases self.entries@.len() - i,
        {
            let ghost before = users.deep_view();
            let name = self.entries[i].0.clone();
            let endpoint = self.entries[i].1;
            users.push((name, endpoint));
            assert(users.deep_view() =~= before.push((name@, endpoint)));
            assert(users.deep_view() =~= self.entries.deep_view().take(i + 1));
            i += 1;
        }
        assert(users.deep_view() =~= self.entries.deep_view());
        users
    }

    /// Answers a search: nobody for the empty query, everybody for
    /// `"all"`, else the one user of that name.
    pub fn search(&self, query: String) -> (reply: Option<Response>)
        ensures
            found(self@, query@, reply.deep_view()),
    {
        if query.as_str().is_empty() {
            return None;
        }
        let all = "all".to_owned();
        if query == all {
            let users = self.snapshot();
            if users.len() == 0 {
                None
            } else {
                Some(Response::Search(users))
            }
        } else {
            match self.lookup(&query) {
                Some(endpoint) => {
                    let users = vec![(query, endpoint)];
                    assert(users.deep_view() =~= seq![(query@, endpoint)]);
                    Some(Response::Search(users))
                },
                None => None,
            }
        }
    }
}

/// Handles one command of a connection: changes the directory and the
/// connection's session as the command asks, and gives the answer, if
/// there is one.
pub fn handle_command(command: Command, users: &mut Directory, curr_user: &mut Session) -> (reply:
    Option<Response>)
    ensures
        final(users)@ == after(old(users)@, old(curr_user)@, command@).directory,
        final(curr_user)@ == after(old(users)@, old(curr_user)@, command@).session,
        answers(old(users)@, old(curr_user)@, command@, reply.deep_view()),
{
    match command {
        Command::Login(name, endpoint) => {
            if users.register(name.clone(), endpoint) {
                curr_user.identity = Some((name.clone(), endpoint));
                Some(Response::Login(name, endpoint))
            } else {
                None
            }
        },
        Command::Search(query) => users.search(query),
        Command::Logout => match curr_user.identity.take() {
            Some((name, _)) => {
                users.remove(&name);
                Some(Response::Logout)
            },
            None => None,
        },
        Command::Exit => {
            match curr_user.identity.take() {
                Some((name, _)) => {
                    users.remove(&name);
                },
                None => {},
            }
            Some(Response::Exit)
        },
        Command::Message(_, _) => None,
        Command::Show => None,
    }
}

/// Serves one message that a connection received: reads the command from
/// its packets, handles it, and gives the bytes to send back. A message
/// that is no command is dropped, and then there is nothing to send.
pub fn serve(packets: &Vec<Packet>, users: &mut Directory, curr_user: &mut Session) -> (bytes:
    Option<Vec<u8>>)
    ensures
        served(
            old(users)@,
            old(curr_user)@,
            packets.deep_view(),
            Step { directory: final(users)@, session: final(curr_user)@ },
            bytes.deep_view(),
        ),
{
    let command: Option<Command> = packets.deserialize();
    match command {
        Some(command) => {
            let reply = handle_command(command, users, curr_user);
            let bytes = reply_message(&reply);
            assert(bytes.deep_view() =~= bytes@);
            Some(bytes)
        },
        None => None,
    }
}

} // verus!
