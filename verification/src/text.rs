//! Names and message texts as packet payloads: UTF-8 in both directions.

use crate::packet::{packet_of, Packet, PacketView};
use vstd::prelude::*;
use vstd::slice::slice_to_vec;
use vstd::utf8::{
    decode_utf8, decode_utf8_encode_utf8, encode_utf8, encode_utf8_decode_utf8,
    encode_utf8_valid_utf8, valid_utf8,
};

verus! {

/// The text that a payload spells, if the payload is valid UTF-8.
pub open spec fn parse_text(bytes: Seq<u8>) -> Option<Seq<char>> {
    if valid_utf8(bytes) {
        Some(decode_utf8(bytes))
    } else {
        None
    }
}

/// The packet with tag `tag` whose payload is the UTF-8 form of `text`.
pub open spec fn text_packet(tag: u8, text: Seq<char>) -> PacketView {
    PacketView::framing(tag, encode_utf8(text))
}

/// Whether a text can be framed: its UTF-8 form and the tag byte together
/// have a count that fits the 32 bits of a length field.
pub open spec fn text_fits(text: Seq<char>) -> bool {
    encode_utf8(text).len() + 1 < 0x1_0000_0000
}

/// The payload of a text is read back as that text.
pub proof fn lemma_text_round_trip(text: Seq<char>)
    ensures
        parse_text(encode_utf8(text)) == Some(text),
{
    encode_utf8_valid_utf8(text);
    encode_utf8_decode_utf8(text);
}

/// A text is read only from its own payload: the bytes from which a text
/// is read are the UTF-8 form of that text.
pub proof fn lemma_text_is_encoding(bytes: Seq<u8>)
    ensures
        parse_text(bytes) matches Some(text) ==> encode_utf8(text) == bytes,
{
    if valid_utf8(bytes) {
        decode_utf8_encode_utf8(bytes);
    }
}

/// `String::from_utf8` of the standard library, with its error dropped.
///
/// Trusted: the call succeeds exactly on byte sequences that are valid
/// UTF-8, and the string it then returns has exactly those bytes as its
/// UTF-8 form.
#[verifier::external_body]
fn string_from_utf8(bytes: Vec<u8>) -> (text: Option<String>)
    ensures
        text is Some <==> valid_utf8(bytes@),
        text matches Some(s) ==> encode_utf8(s@) == bytes@,
{
    match String::from_utf8(bytes) {
        Ok(s) => Some(s),
        Err(_) => None,
    }
}

/// Reads a payload as text: `None` where it is not valid UTF-8.
pub fn read_text(bytes: &[u8]) -> (text: Option<String>)
    ensures
        text.deep_view() == parse_text(bytes@),
{
    let text = string_from_utf8(slice_to_vec(bytes));
    proof {
        if text is Some {
            encode_utf8_decode_utf8(text->0@);
        }
    }
    text
}

/// Writes a text as the packet with tag `tag`.
pub fn write_text(tag: u8, text: &String) -> (packet: Packet)
    ensures
        packet@ == text_packet(tag, text@),
{
    packet_of(tag, text.as_str().as_bytes())
}

} // verus!
