use chat_server::address::Endpoint;
use chat_server::directory::{handle_command, Directory, Session};
use chat_server::mailbox::Mailbox;
use chat_server::relay::{Outbound, Reaction, Relay};
use chat_server::request::Command;
use chat_server::respond::Response;
use chat_server::stream::{decode_stream, encode_message};
use chat_server::{Deserialize, Packet, Serialize};

fn home() -> Endpoint {
    Endpoint::V4 { octets: [127, 0, 0, 1], port: 9001 }
}

fn away() -> Endpoint {
    Endpoint::V4 { octets: [127, 0, 0, 1], port: 9002 }
}

fn text(s: &str) -> String {
    String::from(s)
}

fn over_the_wire(command: Command) -> Command {
    let bytes = encode_message(command.serialize());
    let (packets, _) = decode_stream(&bytes).unwrap();
    let back: Option<Command> = packets.deserialize();
    back.unwrap()
}

fn logged_in(name: &str, limit: usize) -> Relay {
    let mut relay = Relay::new(limit);
    relay.react(Some(Response::Login(text(name), home())));
    relay
}

fn dial(relay: &mut Relay, peer: &str) -> Reaction {
    relay.send(Command::Message(text(peer), text("x")));
    relay.react(Some(Response::Search(vec![(text(peer), away())])))
}

#[test]
fn mailbox_keeps_the_order_of_arrival() {
    let mut mailbox = Mailbox::new(10);
    assert!(mailbox.deliver(text("bob"), text("one")));
    assert!(mailbox.deliver(text("eve"), text("two")));
    assert!(mailbox.deliver(text("bob"), text("three")));
    let mut all = mailbox.drain();
    all.sort();
    assert_eq!(
        all,
        vec![(text("bob"), vec![text("one"), text("three")]), (text("eve"), vec![text("two")])]
    );
}

#[test]
fn mailbox_is_empty_after_a_drain() {
    let mut mailbox = Mailbox::new(10);
    mailbox.deliver(text("bob"), text("one"));
    assert_eq!(mailbox.drain().len(), 1);
    assert_eq!(mailbox.drain(), Vec::new());
    assert!(mailbox.deliver(text("bob"), text("two")));
    assert_eq!(mailbox.drain(), vec![(text("bob"), vec![text("two")])]);
}

#[test]
fn mailbox_turns_away_what_is_over_the_limit() {
    let mut mailbox = Mailbox::new(2);
    assert!(mailbox.deliver(text("bob"), text("1")));
    assert!(mailbox.deliver(text("bob"), text("2")));
    assert!(!mailbox.deliver(text("bob"), text("3")));
    assert!(mailbox.deliver(text("eve"), text("4")));
    let mut all = mailbox.drain();
    all.sort();
    assert_eq!(
        all,
        vec![(text("bob"), vec![text("1"), text("2")]), (text("eve"), vec![text("4")])]
    );
}

#[test]
fn mailbox_with_limit_zero_holds_nothing() {
    let mut mailbox = Mailbox::new(0);
    assert!(!mailbox.deliver(text("bob"), text("1")));
    assert_eq!(mailbox.drain(), Vec::new());
}

#[test]
fn mailbox_takes_messages_and_ignores_the_rest() {
    let mut mailbox = Mailbox::new(10);
    assert!(!mailbox.receive(Command::Logout));
    assert!(!mailbox.receive(Command::Search(text("bob"))));
    assert!(!mailbox.receive(Command::Login(text("bob"), home())));
    assert!(!mailbox.receive(Command::Show));
    assert!(!mailbox.receive(Command::Exit));
    assert!(mailbox.receive(Command::Message(text("bob"), text("hi"))));
    assert_eq!(mailbox.drain(), vec![(text("bob"), vec![text("hi")])]);
}

#[test]
fn relay_starts_logged_out_and_alone() {
    let relay = Relay::new(4);
    assert_eq!(relay.username(), None);
    assert!(!relay.knows(&text("bob")));
}

#[test]
fn relay_learns_its_name_from_the_login_response() {
    let mut relay = Relay::new(4);
    let task = relay.send(Command::Login(text("bob"), home()));
    assert_eq!(task, Outbound::Directory(Command::Login(text("bob"), home())));
    assert_eq!(relay.username(), None);
    let task = relay.react(Some(Response::Login(text("bob"), home())));
    assert_eq!(task, Reaction::Listen(text("bob"), home()));
    assert_eq!(relay.username(), Some(text("bob")));
}

#[test]
fn relay_passes_plain_commands_to_the_directory() {
    let mut relay = logged_in("bob", 4);
    assert_eq!(relay.send(Command::Logout), Outbound::Directory(Command::Logout));
    assert_eq!(
        relay.send(Command::Search(text("all"))),
        Outbound::Directory(Command::Search(text("all")))
    );
    assert_eq!(relay.send(Command::Exit), Outbound::Farewell(Command::Exit));
    assert_eq!(relay.send(Command::Show), Outbound::Show);
}

#[test]
fn relay_shows_the_directory_s_answers() {
    let mut relay = logged_in("bob", 4);
    assert_eq!(relay.react(None), Reaction::Nothing);
    assert_eq!(relay.react(Some(Response::Logout)), Reaction::LoggedOut);
    assert_eq!(relay.react(Some(Response::Exit)), Reaction::Exited);
    relay.send(Command::Search(text("alice")));
    let found = vec![(text("alice"), away())];
    assert_eq!(relay.react(Some(Response::Search(found.clone()))), Reaction::Found(found));
    assert!(!relay.knows(&text("alice")));
}

#[test]
fn relay_asks_the_directory_for_an_unknown_peer_and_dials() {
    let mut relay = logged_in("bob", 4);
    let task = relay.send(Command::Message(text("alice"), text("hi")));
    assert_eq!(task, Outbound::Directory(Command::Search(text("alice"))));
    let task = relay.react(Some(Response::Search(vec![(text("alice"), away())])));
    assert_eq!(
        task,
        Reaction::Dial {
            peer: text("alice"),
            endpoint: away(),
            command: Command::Message(text("bob"), text("hi")),
            keep: true,
            evicted: None,
        }
    );
    assert!(relay.knows(&text("alice")));
}

#[test]
fn relay_sends_to_a_known_peer_directly() {
    let mut relay = logged_in("bob", 4);
    dial(&mut relay, "alice");
    let task = relay.send(Command::Message(text("alice"), text("again")));
    assert_eq!(task, Outbound::Peer(text("alice"), Command::Message(text("bob"), text("again"))));
}

#[test]
fn relay_drops_the_text_when_the_peer_is_not_found() {
    let mut relay = logged_in("bob", 4);
    relay.send(Command::Message(text("alice"), text("hi")));
    assert_eq!(relay.react(None), Reaction::Nothing);
    let found = vec![(text("alice"), away())];
    assert_eq!(relay.react(Some(Response::Search(found.clone()))), Reaction::Found(found));
}

#[test]
fn relay_does_not_dial_for_another_name() {
    let mut relay = logged_in("bob", 4);
    relay.send(Command::Message(text("alice"), text("hi")));
    let found = vec![(text("eve"), away())];
    assert_eq!(relay.react(Some(Response::Search(found.clone()))), Reaction::Found(found));
    assert!(!relay.knows(&text("eve")));
}

#[test]
fn relay_without_a_name_sends_no_text() {
    let mut relay = Relay::new(4);
    let task = relay.send(Command::Message(text("alice"), text("hi")));
    assert_eq!(task, Outbound::Directory(Command::Search(text("alice"))));
    let task = relay.react(Some(Response::Search(vec![(text("alice"), away())])));
    assert_eq!(task, Reaction::Nothing);
    assert!(!relay.knows(&text("alice")));
    let task = relay.react(Some(Response::Message(text("alice"), text("hi"), away())));
    assert_eq!(task, Reaction::Nothing);
}

#[test]
fn relay_dials_on_a_message_response() {
    let mut relay = logged_in("bob", 4);
    let task = relay.react(Some(Response::Message(text("alice"), text("hi"), away())));
    assert_eq!(
        task,
        Reaction::Dial {
            peer: text("alice"),
            endpoint: away(),
            command: Command::Message(text("bob"), text("hi")),
            keep: true,
            evicted: None,
        }
    );
    assert!(relay.knows(&text("alice")));
}

#[test]
fn relay_lets_the_oldest_connection_go_when_the_cache_is_full() {
    let mut relay = logged_in("bob", 2);
    dial(&mut relay, "a");
    dial(&mut relay, "b");
    match dial(&mut relay, "c") {
        Reaction::Dial { peer, keep, evicted, .. } => {
            assert_eq!(peer, text("c"));
            assert!(keep);
            assert_eq!(evicted, Some(text("a")));
        }
        other => panic!("{:?}", other),
    }
    assert!(!relay.knows(&text("a")));
    assert!(relay.knows(&text("b")));
    assert!(relay.knows(&text("c")));
}

#[test]
fn relay_with_limit_zero_caches_nothing() {
    let mut relay = logged_in("bob", 0);
    match dial(&mut relay, "a") {
        Reaction::Dial { keep, evicted, .. } => {
            assert!(!keep);
            assert_eq!(evicted, None);
        }
        other => panic!("{:?}", other),
    }
    assert!(!relay.knows(&text("a")));
}

#[test]
fn a_text_travels_from_bob_to_alice() {
    let mut directory = Directory::new();
    let mut session_a = Session::new();
    let mut session_b = Session::new();
    let mut alice = Relay::new(8);
    let mut bob = Relay::new(8);
    let mut alice_mailbox = Mailbox::new(100);

    // A logs in as "alice" at 127.0.0.1:9001.
    let task = alice.send(Command::Login(text("alice"), home()));
    let Outbound::Directory(command) = task else { panic!("{:?}", task) };
    let reply = handle_command(over_the_wire(command), &mut directory, &mut session_a);
    assert_eq!(alice.react(reply), Reaction::Listen(text("alice"), home()));

    // B logs in as "bob".
    let task = bob.send(Command::Login(text("bob"), away()));
    let Outbound::Directory(command) = task else { panic!("{:?}", task) };
    let reply = handle_command(over_the_wire(command), &mut directory, &mut session_b);
    assert_eq!(bob.react(reply), Reaction::Listen(text("bob"), away()));

    // B sends Message("alice", "hi"): the directory is searched for alice.
    let task = bob.send(Command::Message(text("alice"), text("hi")));
    let Outbound::Directory(command) = task else { panic!("{:?}", task) };
    assert_eq!(command, Command::Search(text("alice")));
    let reply = handle_command(over_the_wire(command), &mut directory, &mut session_b);
    assert_eq!(reply, Some(Response::Search(vec![(text("alice"), home())])));

    // B connects to 127.0.0.1:9001 and sends the message.
    let task = bob.react(reply);
    let Reaction::Dial { peer, endpoint, command, keep, evicted } = task else {
        panic!("{:?}", task)
    };
    assert_eq!(peer, text("alice"));
    assert_eq!(endpoint, Endpoint::V4 { octets: [127, 0, 0, 1], port: 9001 });
    assert!(keep);
    assert_eq!(evicted, None);

    // A's listener appends "hi" under "bob".
    assert!(alice_mailbox.receive(over_the_wire(command)));

    // A's show prints "bob: hi".
    assert_eq!(alice.send(Command::Show), Outbound::Show);
    let shown = alice_mailbox.drain();
    assert_eq!(shown, vec![(text("bob"), vec![text("hi")])]);
    let lines: Vec<String> = shown
        .iter()
        .flat_map(|(name, texts)| texts.iter().map(move |t| format!("{}: {}", name, t)))
        .collect();
    assert_eq!(lines, vec![text("bob: hi")]);
}

#[test]
fn mailbox_accepts_the_packets_of_a_message() {
    let mut mailbox = Mailbox::new(10);
    let packets = Command::Message(text("bob"), text("hi")).serialize();
    assert!(mailbox.accept(&packets));
    assert!(mailbox.accept(&packets));
    assert_eq!(mailbox.drain(), vec![(text("bob"), vec![text("hi"), text("hi")])]);
}

#[test]
fn mailbox_ignores_packets_that_are_no_message() {
    let mut mailbox = Mailbox::new(10);
    mailbox.deliver(text("bob"), text("hi"));
    assert!(!mailbox.accept(&Command::Logout.serialize()));
    assert!(!mailbox.accept(&Command::Search(text("bob")).serialize()));
    let nothing: Vec<Packet> = Vec::new();
    assert!(!mailbox.accept(&nothing));
    let unknown = vec![Packet::new(1, 9, Vec::new())];
    assert!(!mailbox.accept(&unknown));
    let half = vec![Packet::new(4, 4, vec![98, 111, 98])];
    assert!(!mailbox.accept(&half));
    let not_text = vec![Packet::new(4, 4, vec![98, 111, 98]), Packet::new(2, 4, vec![0xff])];
    assert!(!mailbox.accept(&not_text));
    assert_eq!(mailbox.drain(), vec![(text("bob"), vec![text("hi")])]);
}

#[test]
fn mailbox_accepts_no_more_than_its_limit() {
    let mut mailbox = Mailbox::new(1);
    let packets = Command::Message(text("bob"), text("hi")).serialize();
    assert!(mailbox.accept(&packets));
    assert!(!mailbox.accept(&packets));
    assert_eq!(mailbox.drain(), vec![(text("bob"), vec![text("hi")])]);
}
