//! What the bytes of the two messages hold, field by field.

use crate::wire::{
    field_key, merged, parsed_message, parsed_server_message, skipped, string_bytes, string_value,
    varint_bytes, Message, MessageView, ServerMessage, ServerMessageView,
};
use vstd::prelude::*;
use vstd::utf8::encode_utf8;

verus! {

/// The views of the messages are their texts.
pub proof fn messages_are_their_texts(m: Message, r: ServerMessage)
    ensures
        m@.email == m.email@,
        m@.password == m.password@,
        m@.recipient == m.recipient@,
        m@.data == m.data@,
        r@.data == r.data@,
        r@.sender == r.sender@,
{
}

/// A string field is its number and layout, its length and its bytes. The fields up
/// to the fifteenth have a key of one byte, and texts of less than 128 bytes a
/// length of one byte.
pub proof fn string_field_is_laid_out(tag: u32, text: Seq<char>)
    requires
        1 <= tag <= 15,
        encode_utf8(text).len() < 0x80,
    ensures
        string_bytes(tag, text) == seq![
            (tag * 8 + 2) as u8,
            encode_utf8(text).len() as u8,
        ] + encode_utf8(text),
{
    let n = encode_utf8(text).len();
    assert(varint_bytes((tag * 8 + 2) as nat) =~= seq![(tag * 8 + 2) as u8]);
    assert(varint_bytes(n) =~= seq![n as u8]);
    assert(string_bytes(tag, text) =~= seq![(tag * 8 + 2) as u8, n as u8] + encode_utf8(text));
}

/// What a device receives are the data as the first field and the sender as the
/// second, each where it is not empty.
pub proof fn received_message_is_laid_out(m: ServerMessageView)
    ensures
        m.data.len() > 0 && m.sender.len() > 0 ==> m.encoded() == string_bytes(1, m.data)
            + string_bytes(2, m.sender),
        m.data.len() > 0 && m.sender.len() == 0 ==> m.encoded() == string_bytes(1, m.data),
        m.data.len() == 0 && m.sender.len() > 0 ==> m.encoded() == string_bytes(2, m.sender),
        m.data.len() == 0 && m.sender.len() == 0 ==> m.encoded().len() == 0,
{
    let none = Seq::<u8>::empty();
    assert(string_bytes(1, m.data) + none =~= string_bytes(1, m.data));
    assert(none + string_bytes(2, m.sender) =~= string_bytes(2, m.sender));
}

/// What a client posts are the address, the password, the recipient and the data as
/// the first four fields.
pub proof fn posted_message_is_laid_out(m: MessageView)
    requires
        m.email.len() > 0,
        m.password.len() > 0,
        m.recipient.len() > 0,
        m.data.len() > 0,
    ensures
        m.encoded() == string_bytes(1, m.email) + string_bytes(2, m.password) + string_bytes(
            3,
            m.recipient,
        ) + string_bytes(4, m.data),
{
}

/// A message is read field by field up to its end: a field that it has replaces what
/// was read of it before, another one is passed over, and a field that cannot be
/// read spoils the whole.
pub proof fn fields_are_read_one_by_one(b: Seq<u8>, known: u32, fields: Map<u32, Seq<char>>)
    ensures
        b.len() == 0 ==> merged(b, known, fields) == Some(fields),
        b.len() > 0 && field_key(b) is None ==> merged(b, known, fields) is None,
        b.len() > 0 && field_key(b) is Some ==> {
            let (tag, kind, n) = field_key(b)->0;
            let value = b.skip(n as int);
            if tag <= known {
                match string_value(kind, value) {
                    Some((text, m)) => merged(b, known, fields) == merged(
                        value.skip(m as int),
                        known,
                        fields.insert(tag, text),
                    ),
                    None => merged(b, known, fields) is None,
                }
            } else {
                match skipped(kind, tag, value, 100) {
                    Some(m) => merged(b, known, fields) == merged(
                        value.skip(m as int),
                        known,
                        fields,
                    ),
                    None => merged(b, known, fields) is None,
                }
            }
        },
{
}

/// The first field of a post is the address, the second the password, the third the
/// recipient and the fourth the data; one that is not there is empty. Bytes whose
/// fields cannot be read are no message.
pub proof fn fields_have_their_places(b: Seq<u8>)
    ensures
        merged(b, 4, Map::empty()) is None <==> parsed_message(b) is None,
        merged(b, 2, Map::empty()) is None <==> parsed_server_message(b) is None,
        merged(b, 4, Map::empty()) is Some ==> {
            let fields = merged(b, 4, Map::empty())->0;
            let m = parsed_message(b)->0;
            &&& m.email == if fields.contains_key(1) {
                fields[1]
            } else {
                Seq::empty()
            }
            &&& m.password == if fields.contains_key(2) {
                fields[2]
            } else {
                Seq::empty()
            }
            &&& m.recipient == if fields.contains_key(3) {
                fields[3]
            } else {
                Seq::empty()
            }
            &&& m.data == if fields.contains_key(4) {
                fields[4]
            } else {
                Seq::empty()
            }
        },
        merged(b, 2, Map::empty()) is Some ==> {
            let fields = merged(b, 2, Map::empty())->0;
            let m = parsed_server_message(b)->0;
            &&& m.data == if fields.contains_key(1) {
                fields[1]
            } else {
                Seq::empty()
            }
            &&& m.sender == if fields.contains_key(2) {
                fields[2]
            } else {
                Seq::empty()
            }
        },
{
}

/// A post without a byte is a message without a text.
pub proof fn empty_post_is_an_empty_message(b: Seq<u8>)
    requires
        b.len() == 0,
    ensures
        parsed_message(b) is Some,
        parsed_message(b)->0.email.len() == 0,
        parsed_message(b)->0.password.len() == 0,
        parsed_message(b)->0.recipient.len() == 0,
        parsed_message(b)->0.data.len() == 0,
{
}

} // verus!
