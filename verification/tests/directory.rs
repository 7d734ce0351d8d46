use chat_server::address::Endpoint;
use chat_server::directory::{handle_command, serve, Directory, Session};
use chat_server::{Packet, Serialize};
use chat_server::request::Command;
use chat_server::respond::Response;

fn addr_a() -> Endpoint {
    Endpoint::V4 { octets: [127, 0, 0, 1], port: 9001 }
}

fn addr_b() -> Endpoint {
    Endpoint::V6 { segments: [1, 2, 3, 4, 5, 6, 7, 8], port: 9002 }
}

fn login(name: &str, endpoint: Endpoint) -> Command {
    Command::Login(String::from(name), endpoint)
}

fn search(name: &str) -> Command {
    Command::Search(String::from(name))
}

#[test]
fn login_is_echoed() {
    let mut users = Directory::new();
    let mut session = Session::new();
    let reply = handle_command(login("alice", addr_a()), &mut users, &mut session);
    assert_eq!(reply, Some(Response::Login(String::from("alice"), addr_a())));
    assert_eq!(session.identity(), Some((String::from("alice"), addr_a())));
    assert_eq!(users.lookup(&String::from("alice")), Some(addr_a()));
}

#[test]
fn login_with_empty_name_has_no_effect() {
    let mut users = Directory::new();
    let mut session = Session::new();
    let reply = handle_command(login("", addr_a()), &mut users, &mut session);
    assert_eq!(reply, None);
    assert_eq!(session.identity(), None);
    assert_eq!(users.snapshot(), Vec::new());
}

#[test]
fn one_of_two_logins_with_the_same_name_wins() {
    let mut users = Directory::new();
    let mut first = Session::new();
    let mut second = Session::new();
    let won = handle_command(login("alice", addr_a()), &mut users, &mut first);
    let lost = handle_command(login("alice", addr_b()), &mut users, &mut second);
    assert_eq!(won, Some(Response::Login(String::from("alice"), addr_a())));
    assert_eq!(lost, None);
    assert_eq!(second.identity(), None);
    assert_eq!(users.lookup(&String::from("alice")), Some(addr_a()));

    let out = handle_command(Command::Logout, &mut users, &mut first);
    assert_eq!(out, Some(Response::Logout));
    assert_eq!(first.identity(), None);
    let again = handle_command(login("alice", addr_b()), &mut users, &mut second);
    assert_eq!(again, Some(Response::Login(String::from("alice"), addr_b())));
}

#[test]
fn search_for_nothing_has_no_answer() {
    let mut users = Directory::new();
    let mut session = Session::new();
    handle_command(login("a", addr_a()), &mut users, &mut session);
    assert_eq!(handle_command(search(""), &mut users, &mut session), None);
}

#[test]
fn search_for_all_in_an_empty_directory_has_no_answer() {
    let mut users = Directory::new();
    let mut session = Session::new();
    assert_eq!(handle_command(search("all"), &mut users, &mut session), None);
}

#[test]
fn search_for_all_lists_everyone() {
    let mut users = Directory::new();
    let mut one = Session::new();
    let mut two = Session::new();
    handle_command(login("a", addr_a()), &mut users, &mut one);
    handle_command(login("b", addr_b()), &mut users, &mut two);
    match handle_command(search("all"), &mut users, &mut one) {
        Some(Response::Search(found)) => {
            assert_eq!(found.len(), 2);
            assert!(found.contains(&(String::from("a"), addr_a())));
            assert!(found.contains(&(String::from("b"), addr_b())));
        }
        other => panic!("{:?}", other),
    }
}

#[test]
fn search_for_one_name_finds_that_name_only() {
    let mut users = Directory::new();
    let mut one = Session::new();
    let mut two = Session::new();
    handle_command(login("a", addr_a()), &mut users, &mut one);
    handle_command(login("b", addr_b()), &mut users, &mut two);
    let reply = handle_command(search("a"), &mut users, &mut two);
    assert_eq!(reply, Some(Response::Search(vec![(String::from("a"), addr_a())])));
}

#[test]
fn search_for_an_absent_name_has_no_answer() {
    let mut users = Directory::new();
    let mut session = Session::new();
    handle_command(login("a", addr_a()), &mut users, &mut session);
    assert_eq!(handle_command(search("zzz"), &mut users, &mut session), None);
}

#[test]
fn search_changes_nothing() {
    let mut users = Directory::new();
    let mut session = Session::new();
    handle_command(login("a", addr_a()), &mut users, &mut session);
    handle_command(search("all"), &mut users, &mut session);
    assert_eq!(session.identity(), Some((String::from("a"), addr_a())));
    assert_eq!(users.snapshot(), vec![(String::from("a"), addr_a())]);
}

#[test]
fn logout_without_login_has_no_answer() {
    let mut users = Directory::new();
    let mut session = Session::new();
    assert_eq!(handle_command(Command::Logout, &mut users, &mut session), None);
}

#[test]
fn logout_removes_only_the_own_name() {
    let mut users = Directory::new();
    let mut one = Session::new();
    let mut two = Session::new();
    handle_command(login("a", addr_a()), &mut users, &mut one);
    handle_command(login("b", addr_b()), &mut users, &mut two);
    assert_eq!(handle_command(Command::Logout, &mut users, &mut one), Some(Response::Logout));
    assert_eq!(users.lookup(&String::from("a")), None);
    assert_eq!(users.lookup(&String::from("b")), Some(addr_b()));
    assert_eq!(handle_command(Command::Logout, &mut users, &mut one), None);
}

#[test]
fn exit_takes_the_name_out_of_the_directory() {
    let mut users = Directory::new();
    let mut leaving = Session::new();
    let mut staying = Session::new();
    handle_command(login("alice", addr_a()), &mut users, &mut leaving);
    handle_command(login("bob", addr_b()), &mut users, &mut staying);
    let reply = handle_command(Command::Exit, &mut users, &mut leaving);
    assert_eq!(reply, Some(Response::Exit));
    assert_eq!(leaving.identity(), None);
    assert_eq!(handle_command(search("alice"), &mut users, &mut staying), None);
    assert_eq!(
        handle_command(search("bob"), &mut users, &mut staying),
        Some(Response::Search(vec![(String::from("bob"), addr_b())]))
    );
}

#[test]
fn exit_without_login_is_confirmed() {
    let mut users = Directory::new();
    let mut session = Session::new();
    assert_eq!(handle_command(Command::Exit, &mut users, &mut session), Some(Response::Exit));
    assert_eq!(users.snapshot(), Vec::new());
}

#[test]
fn exit_of_a_user_named_all_leaves_the_others_listed() {
    let mut users = Directory::new();
    let mut leaving = Session::new();
    let mut staying = Session::new();
    handle_command(login("all", addr_a()), &mut users, &mut leaving);
    handle_command(login("bob", addr_b()), &mut users, &mut staying);
    handle_command(Command::Exit, &mut users, &mut leaving);
    assert_eq!(
        handle_command(search("all"), &mut users, &mut staying),
        Some(Response::Search(vec![(String::from("bob"), addr_b())]))
    );
}

#[test]
fn message_and_show_are_not_the_directory_s_business() {
    let mut users = Directory::new();
    let mut session = Session::new();
    handle_command(login("a", addr_a()), &mut users, &mut session);
    let message = Command::Message(String::from("a"), String::from("hi"));
    assert_eq!(handle_command(message, &mut users, &mut session), None);
    assert_eq!(handle_command(Command::Show, &mut users, &mut session), None);
    assert_eq!(session.identity(), Some((String::from("a"), addr_a())));
    assert_eq!(users.snapshot(), vec![(String::from("a"), addr_a())]);
}

#[test]
fn register_and_remove_work_on_names() {
    let mut users = Directory::new();
    assert!(users.register(String::from("a"), addr_a()));
    assert!(!users.register(String::from("a"), addr_b()));
    assert!(!users.register(String::new(), addr_b()));
    assert_eq!(users.lookup(&String::from("a")), Some(addr_a()));
    users.remove(&String::from("zzz"));
    assert_eq!(users.snapshot().len(), 1);
    users.remove(&String::from("a"));
    assert_eq!(users.snapshot().len(), 0);
    assert_eq!(users.search(String::from("a")), None);
}

#[test]
fn serve_answers_a_login_with_its_echo() {
    let mut users = Directory::new();
    let mut session = Session::new();
    let packets = login("al", addr_a()).serialize();
    let bytes = serve(&packets, &mut users, &mut session);
    assert_eq!(
        bytes,
        Some(vec![0, 0, 0, 3, 0, 97, 108, 0, 0, 0, 7, 0, 127, 0, 0, 1, 0x23, 0x29, 0, 0, 0, 0])
    );
    assert_eq!(session.identity(), Some((String::from("al"), addr_a())));
    assert_eq!(users.lookup(&String::from("al")), Some(addr_a()));
}

#[test]
fn serve_sends_the_marker_where_there_is_no_response() {
    let mut users = Directory::new();
    let mut session = Session::new();
    let bytes = serve(&search("zzz").serialize(), &mut users, &mut session);
    assert_eq!(bytes, Some(vec![0, 0, 0, 0]));
    let bytes = serve(&Command::Logout.serialize(), &mut users, &mut session);
    assert_eq!(bytes, Some(vec![0, 0, 0, 0]));
    let bytes = serve(&Command::Show.serialize(), &mut users, &mut session);
    assert_eq!(bytes, Some(vec![0, 0, 0, 0]));
}

#[test]
fn serve_sends_the_exit_response() {
    let mut users = Directory::new();
    let mut session = Session::new();
    serve(&login("al", addr_a()).serialize(), &mut users, &mut session);
    let bytes = serve(&Command::Exit.serialize(), &mut users, &mut session);
    assert_eq!(bytes, Some(vec![0, 0, 0, 1, 3, 0, 0, 0, 0]));
    assert_eq!(session.identity(), None);
    assert_eq!(users.lookup(&String::from("al")), None);
}

#[test]
fn serve_drops_what_is_no_command() {
    let mut users = Directory::new();
    let mut session = Session::new();
    serve(&login("al", addr_a()).serialize(), &mut users, &mut session);
    let nothing: Vec<Packet> = Vec::new();
    assert_eq!(serve(&nothing, &mut users, &mut session), None);
    let unknown = vec![Packet::new(1, 9, Vec::new())];
    assert_eq!(serve(&unknown, &mut users, &mut session), None);
    let not_text = vec![Packet::new(2, 2, vec![0xff])];
    assert_eq!(serve(&not_text, &mut users, &mut session), None);
    let half_a_login = vec![Packet::new(2, 0, vec![97])];
    assert_eq!(serve(&half_a_login, &mut users, &mut session), None);
    assert_eq!(session.identity(), Some((String::from("al"), addr_a())));
    assert_eq!(users.snapshot(), vec![(String::from("al"), addr_a())]);
}
