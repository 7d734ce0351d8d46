use chat_server::address::Endpoint;
use chat_server::get_buffer;
use chat_server::request::Command;
use chat_server::respond::{reply_message, Response};
use chat_server::stream::{bytes_wanted, decode_stream, encode_message, FramingError};
use chat_server::{Deserialize, Packet, Serialize};

fn endpoint() -> Endpoint {
    Endpoint::V4 { octets: [127, 0, 0, 1], port: 9001 }
}

#[test]
fn message_ends_with_zero_length() {
    let bytes = encode_message(Command::Search(String::from("bob")).serialize());
    assert_eq!(bytes, vec![0, 0, 0, 4, 2, 98, 111, 98, 0, 0, 0, 0]);
}

#[test]
fn message_of_a_login_is_two_packets_and_the_marker() {
    let bytes = encode_message(Command::Login(String::from("al"), endpoint()).serialize());
    assert_eq!(
        bytes,
        vec![0, 0, 0, 3, 0, 97, 108, 0, 0, 0, 7, 0, 127, 0, 0, 1, 0x23, 0x29, 0, 0, 0, 0]
    );
}

#[test]
fn message_without_a_response_is_four_zero_bytes() {
    let reply: Option<Response> = None;
    assert_eq!(encode_message(reply.serialize()), vec![0, 0, 0, 0]);
}

#[test]
fn message_without_packets_is_four_zero_bytes() {
    assert_eq!(encode_message(Vec::new()), vec![0, 0, 0, 0]);
}

#[test]
fn stream_gives_back_the_packets_of_every_command() {
    let commands = vec![
        Command::Login(String::from("alice"), endpoint()),
        Command::Logout,
        Command::Search(String::from("all")),
        Command::Exit,
        Command::Message(String::from("bob"), String::from("hi")),
        Command::Show,
    ];
    for command in commands {
        let bytes = encode_message(command.serialize());
        assert_eq!(&bytes[bytes.len() - 4..], &[0, 0, 0, 0]);
        let (packets, used) = decode_stream(&bytes).unwrap();
        assert_eq!(packets, command.serialize());
        assert_eq!(used, bytes.len());
        let back: Option<Command> = packets.deserialize();
        assert_eq!(back, Some(command));
    }
}

#[test]
fn stream_gives_back_the_packets_of_every_response() {
    let responses = vec![
        Response::Login(String::from("alice"), endpoint()),
        Response::Search(vec![(String::from("a"), endpoint()), (String::from("b"), endpoint())]),
        Response::Logout,
        Response::Exit,
        Response::Message(String::from("bob"), String::from("hi"), endpoint()),
    ];
    for response in responses {
        let bytes = encode_message(response.serialize());
        assert_eq!(&bytes[bytes.len() - 4..], &[0, 0, 0, 0]);
        let (packets, used) = decode_stream(&bytes).unwrap();
        assert_eq!(packets, response.serialize());
        assert_eq!(used, bytes.len());
        let back: Option<Response> = packets.deserialize();
        assert_eq!(back, Some(response));
    }
}

#[test]
fn stream_of_no_response_has_no_packets() {
    let reply: Option<Response> = None;
    let bytes = encode_message(reply.serialize());
    let (packets, used) = decode_stream(&bytes).unwrap();
    assert_eq!(packets, Vec::<Packet>::new());
    assert_eq!(used, 4);
    let back: Option<Response> = packets.deserialize();
    assert_eq!(back, None);
}

#[test]
fn stream_stops_behind_the_marker() {
    let mut bytes = encode_message(Command::Logout.serialize());
    bytes.extend_from_slice(&encode_message(Command::Exit.serialize()));
    let (first, used) = decode_stream(&bytes).unwrap();
    assert_eq!(first, Command::Logout.serialize());
    assert_eq!(used, 9);
    let (second, used) = decode_stream(&bytes[9..]).unwrap();
    assert_eq!(second, Command::Exit.serialize());
    assert_eq!(used, 9);
}

#[test]
fn stream_may_end_between_packets() {
    let bytes = vec![0, 0, 0, 2, 9, 1, 0, 0, 0, 1, 8];
    let (packets, used) = decode_stream(&bytes).unwrap();
    assert_eq!(packets, vec![Packet::new(2, 9, vec![1]), Packet::new(1, 8, Vec::new())]);
    assert_eq!(used, 11);
}

#[test]
fn empty_stream_has_no_packets() {
    let (packets, used) = decode_stream(&[]).unwrap();
    assert_eq!(packets, Vec::<Packet>::new());
    assert_eq!(used, 0);
}

#[test]
fn stream_that_ends_inside_a_length_is_an_error() {
    assert_eq!(decode_stream(&[0, 0]), Err(FramingError::Length));
    assert_eq!(decode_stream(&[0, 0, 0, 1, 5, 0, 0, 0]), Err(FramingError::Length));
}

#[test]
fn stream_that_ends_inside_a_packet_is_an_error() {
    assert_eq!(decode_stream(&[0, 0, 0, 5, 1, 2]), Err(FramingError::Payload));
    assert_eq!(decode_stream(&[0, 0, 0, 1]), Err(FramingError::Payload));
    assert_eq!(decode_stream(&[0, 0, 0, 1, 7, 0xff, 0xff, 0xff, 0xff, 1]), Err(FramingError::Payload));
}

#[test]
fn reader_is_told_how_much_to_read() {
    let message = encode_message(Command::Search(String::from("bob")).serialize());
    assert_eq!(bytes_wanted(&message[..0]), 4);
    assert_eq!(bytes_wanted(&message[..1]), 3);
    assert_eq!(bytes_wanted(&message[..4]), 4);
    assert_eq!(bytes_wanted(&message[..6]), 2);
    assert_eq!(bytes_wanted(&message[..8]), 4);
    assert_eq!(bytes_wanted(&message[..11]), 1);
    assert_eq!(bytes_wanted(&message), 0);
}

#[test]
fn reader_that_follows_the_counts_reads_one_message() {
    let mut stream = encode_message(Command::Message(String::from("bob"), String::from("hi")).serialize());
    let first = stream.len();
    stream.extend_from_slice(&encode_message(Command::Show.serialize()));
    let mut taken = 0;
    let mut reads = 0;
    loop {
        let wanted = bytes_wanted(&stream[..taken]);
        if wanted == 0 {
            break;
        }
        taken += wanted;
        reads += 1;
    }
    assert_eq!(taken, first);
    assert_eq!(reads, 5);
}

#[test]
fn get_buffer_is_zeroed() {
    assert_eq!(get_buffer(0), Vec::<u8>::new());
    assert_eq!(get_buffer(3), vec![0, 0, 0]);
    assert_eq!(get_buffer(1000).len(), 1000);
}

#[test]
fn reply_without_a_response_is_the_marker_alone() {
    assert_eq!(reply_message(&None), vec![0, 0, 0, 0]);
}

#[test]
fn reply_of_a_login_is_its_packets_and_the_marker() {
    let reply = Some(Response::Login(String::from("al"), endpoint()));
    assert_eq!(
        reply_message(&reply),
        vec![0, 0, 0, 3, 0, 97, 108, 0, 0, 0, 7, 0, 127, 0, 0, 1, 0x23, 0x29, 0, 0, 0, 0]
    );
}

#[test]
fn reply_of_an_exit_is_sent_like_any_other() {
    assert_eq!(reply_message(&Some(Response::Exit)), vec![0, 0, 0, 1, 3, 0, 0, 0, 0]);
}

#[test]
fn reply_of_a_logout_is_its_packet_and_the_marker() {
    assert_eq!(reply_message(&Some(Response::Logout)), vec![0, 0, 0, 1, 2, 0, 0, 0, 0]);
}

#[test]
fn every_reply_is_its_packets_and_the_marker() {
    let replies = vec![
        None,
        Some(Response::Login(String::from("alice"), endpoint())),
        Some(Response::Search(vec![(String::from("a"), endpoint())])),
        Some(Response::Logout),
        Some(Response::Exit),
        Some(Response::Message(String::from("bob"), String::from("hi"), endpoint())),
    ];
    for reply in replies {
        let mut expected = Packet::to_byte_vec(reply.serialize());
        expected.extend_from_slice(&[0, 0, 0, 0]);
        let bytes = reply_message(&reply);
        assert_eq!(bytes, expected);
        assert_eq!(&bytes[bytes.len() - 4..], &[0, 0, 0, 0]);
    }
}
