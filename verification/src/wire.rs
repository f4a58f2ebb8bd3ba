//! The two protobuf messages: what a client posts, and what a device receives.
//!
//! ```text
//! message Message { string email = 1; string password = 2; string recipient = 3; string data = 4; }
//! message ServerMessage { string data = 1; string sender = 2; }
//! ```

use prost::encoding::{DecodeContext, WireType};
use vstd::prelude::*;
use vstd::utf8::{decode_utf8, encode_utf8, valid_utf8};

verus! {

/// The largest field number.
pub const MAX_TAG: u32 = 536870911;

/// How deep the values that are passed over may lie in groups.
pub const MAX_NESTING: u32 = 100;

/// What a client posts: a message for the device `recipient`, with the account
/// that it is sent from.
pub struct Message {
    pub email: String,
    pub password: String,
    pub recipient: String,
    pub data: String,
}

/// What a device receives.
pub struct ServerMessage {
    pub data: String,
    pub sender: String,
}

#[verifier::ext_equal]
pub struct MessageView {
    pub email: Seq<char>,
    pub password: Seq<char>,
    pub recipient: Seq<char>,
    pub data: Seq<char>,
}

#[verifier::ext_equal]
pub struct ServerMessageView {
    pub data: Seq<char>,
    pub sender: Seq<char>,
}

impl View for Message {
    type V = MessageView;

    open spec fn view(&self) -> MessageView {
        MessageView {
            email: self.email@,
            password: self.password@,
            recipient: self.recipient@,
            data: self.data@,
        }
    }
}

impl View for ServerMessage {
    type V = ServerMessageView;

    open spec fn view(&self) -> ServerMessageView {
        ServerMessageView { data: self.data@, sender: self.sender@ }
    }
}

/// The bytes are no message.
#[derive(Debug, PartialEq, Eq, Structural)]
pub struct Malformed;

/// How the value of a field is laid out.
#[derive(Clone, Copy, Debug, PartialEq, Eq, Structural)]
pub enum WireKind {
    Varint,
    SixtyFourBit,
    LengthDelimited,
    StartGroup,
    EndGroup,
    ThirtyTwoBit,
}

// ---------------------------------------------------------------------------
// The wire format
// ---------------------------------------------------------------------------
/// The number of bytes of the varint that `b` starts with: it ends with the
/// first byte below 0x80. Zero, if there is no such byte.
pub open spec fn varint_len(b: Seq<u8>) -> nat
    decreases b.len(),
{
    if b.len() == 0 {
        0
    } else if b[0] < 0x80 {
        1
    } else {
        let n = varint_len(b.drop_first());
        if n == 0 {
            0
        } else {
            n + 1
        }
    }
}

/// The number that the varint at the start of `b` stands for: seven bits in each
/// byte, the lowest first.
pub open spec fn varint_value(b: Seq<u8>) -> nat
    decreases b.len(),
{
    if b.len() == 0 {
        0
    } else if b[0] < 0x80 {
        b[0] as nat
    } else {
        (b[0] - 0x80) as nat + 0x80 * varint_value(b.drop_first())
    }
}

/// The number at the start of `b` and the number of its bytes. A varint has at
/// most ten bytes and stands for a number below 2^64.
pub open spec fn varint(b: Seq<u8>) -> Option<(nat, nat)> {
    if 1 <= varint_len(b) <= 10 && varint_value(b) <= u64::MAX {
        Some((varint_value(b), varint_len(b)))
    } else {
        None
    }
}

/// The layout with the given number.
pub open spec fn wire_kind(code: nat) -> Option<WireKind> {
    if code == 0 {
        Some(WireKind::Varint)
    } else if code == 1 {
        Some(WireKind::SixtyFourBit)
    } else if code == 2 {
        Some(WireKind::LengthDelimited)
    } else if code == 3 {
        Some(WireKind::StartGroup)
    } else if code == 4 {
        Some(WireKind::EndGroup)
    } else if code == 5 {
        Some(WireKind::ThirtyTwoBit)
    } else {
        None
    }
}

/// The field number and the layout that `b` starts with, and the number of their
/// bytes: a varint of 32 bits, the lowest three of them the layout. No field has
/// the number zero.
pub open spec fn field_key(b: Seq<u8>) -> Option<(u32, WireKind, nat)> {
    match varint(b) {
        Some((key, n)) => match wire_kind(key % 8) {
            Some(kind) => if key <= u32::MAX && key / 8 >= 1 {
                Some(((key / 8) as u32, kind, n))
            } else {
                None
            },
            None => None,
        },
        None => None,
    }
}

/// The bytes behind a length, and the number of bytes of both.
pub open spec fn delimited(b: Seq<u8>) -> Option<(Seq<u8>, nat)> {
    match varint(b) {
        Some((len, n)) => if n + len <= b.len() {
            Some((b.subrange(n as int, (n + len) as int), n + len))
        } else {
            None
        },
        None => None,
    }
}

/// The text that a string field holds, and the number of its bytes.
pub open spec fn string_value(kind: WireKind, b: Seq<u8>) -> Option<(Seq<char>, nat)> {
    match delimited(b) {
        Some((text, n)) => if kind is LengthDelimited && valid_utf8(text) {
            Some((decode_utf8(text), n))
        } else {
            None
        },
        None => None,
    }
}

/// The number of bytes of a value that is passed over. A group is passed over with
/// its fields, which lie one level deeper; there are `depth` levels, the value's
/// own with them.
pub open spec fn skipped(kind: WireKind, tag: u32, b: Seq<u8>, depth: nat) -> Option<nat>
    decreases depth, b.len(),
{
    if depth == 0 {
        None
    } else {
        match kind {
            WireKind::Varint => match varint(b) {
                Some((_, n)) => Some(n),
                None => None,
            },
            WireKind::SixtyFourBit => if b.len() >= 8 {
                Some(8)
            } else {
                None
            },
            WireKind::LengthDelimited => match delimited(b) {
                Some((_, n)) => Some(n),
                None => None,
            },
            WireKind::StartGroup => group_len(tag, b, (depth - 1) as nat),
            WireKind::EndGroup => None,
            WireKind::ThirtyTwoBit => if b.len() >= 4 {
                Some(4)
            } else {
                None
            },
        }
    }
}

/// The number of bytes up to the end of the group `tag` that was opened right
/// before `b`: its fields, and the key that closes it.
pub open spec fn group_len(tag: u32, b: Seq<u8>, depth: nat) -> Option<nat>
    decreases depth, b.len(),
{
    match field_key(b) {
        Some((inner, kind, n)) => if kind is EndGroup {
            if inner == tag {
                Some(n)
            } else {
                None
            }
        } else {
            proof {
                lemma_varint_len(b);
            }
            match skipped(kind, inner, b.skip(n as int), depth) {
                Some(m) => if n + m <= b.len() {
                    match group_len(tag, b.skip((n + m) as int), depth) {
                        Some(rest) => Some(n + m + rest),
                        None => None,
                    }
                } else {
                    None
                },
                None => None,
            }
        },
        None => None,
    }
}

/// The string fields of a message whose fields have the numbers 1 to `known`,
/// read from `b` on top of `fields`. Of a field that comes twice the later value
/// stays; a field with another number is passed over.
pub open spec fn merged(b: Seq<u8>, known: u32, fields: Map<u32, Seq<char>>) -> Option<
    Map<u32, Seq<char>>,
>
    decreases b.len(),
{
    if b.len() == 0 {
        Some(fields)
    } else {
        match field_key(b) {
            Some((tag, kind, n)) => if tag <= known {
                match string_value(kind, b.skip(n as int)) {
                    Some((text, m)) => {
                        proof {
                            lemma_varint_len(b);
                        }
                        merged(b.skip(n as int).skip(m as int), known, fields.insert(tag, text))
                    },
                    None => None,
                }
            } else {
                match skipped(kind, tag, b.skip(n as int), MAX_NESTING as nat) {
                    Some(m) => {
                        proof {
                            lemma_varint_len(b);
                            lemma_skipped_len(kind, tag, b.skip(n as int), MAX_NESTING as nat);
                        }
                        merged(b.skip(n as int).skip(m as int), known, fields)
                    },
                    None => None,
                }
            },
            None => None,
        }
    }
}

/// The text of a field, empty where the field does not occur.
pub open spec fn field_text(fields: Map<u32, Seq<char>>, tag: u32) -> Seq<char> {
    if fields.contains_key(tag) {
        fields[tag]
    } else {
        Seq::empty()
    }
}

/// The message that `b` holds, if it holds one.
pub open spec fn parsed_message(b: Seq<u8>) -> Option<MessageView> {
    match merged(b, 4, Map::empty()) {
        Some(fields) => Some(
            MessageView {
                email: field_text(fields, 1),
                password: field_text(fields, 2),
                recipient: field_text(fields, 3),
                data: field_text(fields, 4),
            },
        ),
        None => None,
    }
}

/// What a device reads out of `b`.
pub open spec fn parsed_server_message(b: Seq<u8>) -> Option<ServerMessageView> {
    match merged(b, 2, Map::empty()) {
        Some(fields) => Some(
            ServerMessageView { data: field_text(fields, 1), sender: field_text(fields, 2) },
        ),
        None => None,
    }
}

pub proof fn lemma_varint_len(b: Seq<u8>)
    ensures
        varint_len(b) <= b.len(),
    decreases b.len(),
{
    if b.len() > 0 {
        lemma_varint_len(b.drop_first());
    }
}

/// A value that is passed over lies within the bytes at hand.
pub proof fn lemma_skipped_len(kind: WireKind, tag: u32, b: Seq<u8>, depth: nat)
    ensures
        skipped(kind, tag, b, depth) is Some ==> skipped(kind, tag, b, depth)->0 <= b.len(),
    decreases depth, b.len(),
{
    if depth > 0 {
        lemma_varint_len(b);
        lemma_group_len(tag, b, (depth - 1) as nat);
    }
}

proof fn lemma_group_len(tag: u32, b: Seq<u8>, depth: nat)
    ensures
        group_len(tag, b, depth) is Some ==> group_len(tag, b, depth)->0 <= b.len(),
    decreases depth, b.len(),
{
    lemma_varint_len(b);
    if let Some((inner, kind, n)) = field_key(b) {
        if let Some(m) = skipped(kind, inner, b.skip(n as int), depth) {
            if n + m <= b.len() {
                lemma_group_len(tag, b.skip((n + m) as int), depth);
            }
        }
    }
}

// ---------------------------------------------------------------------------
// Reading
// ---------------------------------------------------------------------------
#[verifier::external_type_specification]
#[verifier::external_body]
pub struct ExDecodeError(prost::DecodeError);

/// `prost::encoding::decode_key`: reads the key of a field from the start of
/// `buf`, and gives what lies behind it. Trusted to read the varint, to split it
/// into number and layout, and to refuse what `field_key` refuses.
#[verifier::external_body]
fn decode_key(buf: &[u8]) -> (r: Result<(u32, WireKind, &[u8]), prost::DecodeError>)
    ensures
        match r {
            Ok((tag, kind, rest)) => match field_key(buf@) {
                Some((t, k, n)) => tag == t && kind == k && rest@ == buf@.skip(n as int),
                None => false,
            },
            Err(_) => field_key(buf@) is None,
        },
{
    let mut rest = buf;
    let (tag, wire_type) = prost::encoding::decode_key(&mut rest)?;
    let kind = match wire_type {
        WireType::Varint => WireKind::Varint,
        WireType::SixtyFourBit => WireKind::SixtyFourBit,
        WireType::LengthDelimited => WireKind::LengthDelimited,
        WireType::StartGroup => WireKind::StartGroup,
        WireType::EndGroup => WireKind::EndGroup,
        WireType::ThirtyTwoBit => WireKind::ThirtyTwoBit,
    };
    Ok((tag, kind, rest))
}

/// `prost::encoding::string::merge`: reads the value of a string field laid out
/// as `kind` from the start of `buf`, and gives what lies behind it. Trusted to
/// accept length-delimited UTF-8 alone.
#[verifier::external_body]
fn merge_string(kind: WireKind, buf: &[u8]) -> (r: Result<(String, &[u8]), prost::DecodeError>)
    ensures
        match r {
            Ok((value, rest)) => match string_value(kind, buf@) {
                Some((text, n)) => value@ == text && rest@ == buf@.skip(n as int),
                None => false,
            },
            Err(_) => string_value(kind, buf@) is None,
        },
{
    let wire_type = match kind {
        WireKind::Varint => WireType::Varint,
        WireKind::SixtyFourBit => WireType::SixtyFourBit,
        WireKind::LengthDelimited => WireType::LengthDelimited,
        WireKind::StartGroup => WireType::StartGroup,
        WireKind::EndGroup => WireType::EndGroup,
        WireKind::ThirtyTwoBit => WireType::ThirtyTwoBit,
    };
    let mut rest = buf;
    let mut value = String::new();
    prost::encoding::string::merge(wire_type, &mut value, &mut rest, DecodeContext::default())?;
    Ok((value, rest))
}

/// `prost::encoding::skip_field`: passes over the value of the field `tag` laid
/// out as `kind`, and gives what lies behind it. Trusted to pass over as many
/// bytes as the layout has, a group up to the key that closes it, and to refuse
/// what `skipped` refuses, values nested too deep among it.
#[verifier::external_body]
fn skip_field(kind: WireKind, tag: u32, buf: &[u8]) -> (r: Result<&[u8], prost::DecodeError>)
    ensures
        match r {
            Ok(rest) => match skipped(kind, tag, buf@, MAX_NESTING as nat) {
                Some(n) => rest@ == buf@.skip(n as int),
                None => false,
            },
            Err(_) => skipped(kind, tag, buf@, MAX_NESTING as nat) is None,
        },
{
    let wire_type = match kind {
        WireKind::Varint => WireType::Varint,
        WireKind::SixtyFourBit => WireType::SixtyFourBit,
        WireKind::LengthDelimited => WireType::LengthDelimited,
        WireKind::StartGroup => WireType::StartGroup,
        WireKind::EndGroup => WireType::EndGroup,
        WireKind::ThirtyTwoBit => WireType::ThirtyTwoBit,
    };
    let mut rest = buf;
    prost::encoding::skip_field(wire_type, tag, &mut rest, DecodeContext::default())?;
    Ok(rest)
}

impl Message {
    /// Reads a posted message.
    pub fn decode(bytes: &[u8]) -> (r: Result<Message, Malformed>)
        ensures
            match r {
                Ok(message) => parsed_message(bytes@) == Some(message@),
                Err(_) => parsed_message(bytes@) is None,
            },
    {
        let mut message = Message {
            email: String::new(),
            password: String::new(),
            recipient: String::new(),
            data: String::new(),
        };
        let mut rest = bytes;
        let ghost mut fields: Map<u32, Seq<char>> = Map::empty();
        while rest.len() > 0
            invariant
                merged(bytes@, 4, Map::empty()) == merged(rest@, 4, fields),
                message.email@ == field_text(fields, 1),
                message.password@ == field_text(fields, 2),
                message.recipient@ == field_text(fields, 3),
                message.data@ == field_text(fields, 4),
            decreases rest@.len(),
        {
            proof {
                lemma_varint_len(rest@);
            }
            let (tag, kind, value) = match decode_key(rest) {
                Ok(key) => key,
                Err(_) => return Err(Malformed),
            };
            proof {
                lemma_varint_len(value@);
            }
            if tag <= 4 {
                let (text, behind) = match merge_string(kind, value) {
                    Ok(read) => read,
                    Err(_) => return Err(Malformed),
                };
                proof {
                    fields = fields.insert(tag, text@);
                }
                if tag == 1 {
                    message.email = text;
                } else if tag == 2 {
                    message.password = text;
                } else if tag == 3 {
                    message.recipient = text;
                } else {
                    message.data = text;
                }
                rest = behind;
            } else {
                proof {
                    lemma_skipped_len(kind, tag, value@, MAX_NESTING as nat);
                }
                rest = match skip_field(kind, tag, value) {
                    Ok(behind) => behind,
                    Err(_) => return Err(Malformed),
                };
            }
        }
        Ok(message)
    }
}

// ---------------------------------------------------------------------------
// Writing
// ---------------------------------------------------------------------------
/// The varint of a number: seven bits in each byte, the lowest first, and 0x80
/// added to all but the last.
pub open spec fn varint_bytes(v: nat) -> Seq<u8>
    decreases v,
{
    if v < 0x80 {
        seq![v as u8]
    } else {
        seq![(v % 0x80 + 0x80) as u8] + varint_bytes(v / 0x80)
    }
}

/// A string field: its key, its length in bytes, its text.
pub open spec fn string_bytes(tag: u32, text: Seq<char>) -> Seq<u8> {
    varint_bytes((tag * 8 + 2) as nat) + varint_bytes(encode_utf8(text).len()) + encode_utf8(text)
}

/// A field of a message: nothing is written of an empty text.
pub open spec fn field_bytes(tag: u32, text: Seq<char>) -> Seq<u8> {
    if text.len() == 0 {
        Seq::empty()
    } else {
        string_bytes(tag, text)
    }
}

impl MessageView {
    /// The bytes that a client posts for this message.
    pub open spec fn encoded(self) -> Seq<u8> {
        field_bytes(1, self.email) + field_bytes(2, self.password) + field_bytes(3, self.recipient)
            + field_bytes(4, self.data)
    }
}

impl ServerMessageView {
    /// The bytes that a device receives for this message.
    pub open spec fn encoded(self) -> Seq<u8> {
        field_bytes(1, self.data) + field_bytes(2, self.sender)
    }
}

/// `prost::encoding::string::encode`: writes a string field behind `buf`.
/// Trusted to write the key, the length and the text, each as `string_bytes`
/// says.
#[verifier::external_body]
fn encode_string(tag: u32, value: &String, buf: &mut Vec<u8>)
    requires
        1 <= tag <= MAX_TAG,
    ensures
        final(buf)@ == old(buf)@ + string_bytes(tag, value@),
{
    prost::encoding::string::encode(tag, value, buf);
}

impl ServerMessage {
    /// Writes the message as a device receives it.
    pub fn encode_to_vec(&self) -> (bytes: Vec<u8>)
        ensures
            bytes@ == self@.encoded(),
            bytes@ == if self.data@.len() == 0 {
                Seq::empty()
            } else {
                string_bytes(1, self.data@)
            } + if self.sender@.len() == 0 {
                Seq::empty()
            } else {
                string_bytes(2, self.sender@)
            },
    {
        let mut bytes: Vec<u8> = Vec::new();
        if !self.data.as_str().is_empty() {
            encode_string(1, &self.data, &mut bytes);
        }
        assert(bytes@ =~= field_bytes(1, self.data@));
        if !self.sender.as_str().is_empty() {
            encode_string(2, &self.sender, &mut bytes);
        }
        assert(bytes@ =~= self@.encoded());
        bytes
    }
}

// ---------------------------------------------------------------------------
// Laws
// ---------------------------------------------------------------------------
spec fn power_128(k: nat) -> nat
    decreases k,
{
    if k == 0 {
        1
    } else {
        128 * power_128((k - 1) as nat)
    }
}

proof fn lemma_varint_short(v: nat, k: nat)
    requires
        1 <= k,
        v < power_128(k),
    ensures
        1 <= varint_bytes(v).len() <= k,
    decreases k,
{
    reveal_with_fuel(power_128, 2);
    if v >= 0x80 {
        if k == 1 {
            assert(power_128(1) == 128);
        }
        lemma_varint_short(v / 0x80, (k - 1) as nat);
    }
}

proof fn lemma_varint_prefix(v: nat, rest: Seq<u8>)
    ensures
        varint_len(varint_bytes(v) + rest) == varint_bytes(v).len(),
        varint_value(varint_bytes(v) + rest) == v,
    decreases v,
{
    let b = varint_bytes(v) + rest;
    if v < 0x80 {
        assert(b[0] == v as u8);
    } else {
        let first = (v % 0x80 + 0x80) as u8;
        assert(b[0] == first);
        assert(b.drop_first() =~= varint_bytes(v / 0x80) + rest);
        lemma_varint_prefix(v / 0x80, rest);
    }
}

/// A number that is written as a varint is read back, whatever follows it.
pub proof fn varint_reads_back(v: nat, rest: Seq<u8>)
    requires
        v <= u64::MAX,
    ensures
        varint(varint_bytes(v) + rest) == Some((v, varint_bytes(v).len())),
{
    lemma_varint_prefix(v, rest);
    assert(power_128(10) > u64::MAX) by {
        reveal_with_fuel(power_128, 11);
    }
    lemma_varint_short(v, 10);
}

proof fn lemma_key_reads(tag: u32, text: Seq<char>, rest: Seq<u8>)
    requires
        1 <= tag <= MAX_TAG,
        encode_utf8(text).len() <= u64::MAX,
    ensures
        ({
            let b = string_bytes(tag, text) + rest;
            let n = varint_bytes((tag * 8 + 2) as nat).len();
            let m = varint_bytes(encode_utf8(text).len()).len() + encode_utf8(text).len();
            &&& b.len() > 0
            &&& field_key(b) == Some((tag, WireKind::LengthDelimited, n))
            &&& delimited(b.skip(n as int)) == Some((encode_utf8(text), m))
            &&& b.skip(n as int).skip(m as int) == rest
        }),
{
    let key = varint_bytes((tag * 8 + 2) as nat);
    let len = varint_bytes(encode_utf8(text).len());
    let body = encode_utf8(text);
    let b = string_bytes(tag, text) + rest;
    assert(b =~= key + (len + body + rest));
    varint_reads_back((tag * 8 + 2) as nat, len + body + rest);
    assert(b.skip(key.len() as int) =~= len + (body + rest));
    varint_reads_back(body.len(), body + rest);
    assert(b.skip(key.len() as int).subrange(len.len() as int, (len.len() + body.len()) as int)
        =~= body);
    assert(b.skip(key.len() as int).skip((len.len() + body.len()) as int) =~= rest);
}

/// A string field of the message that is written is read back, and what follows
/// is read on top of it.
pub proof fn field_reads_back(
    tag: u32,
    text: Seq<char>,
    rest: Seq<u8>,
    known: u32,
    fields: Map<u32, Seq<char>>,
)
    requires
        1 <= tag <= known <= MAX_TAG,
        encode_utf8(text).len() <= u64::MAX,
    ensures
        merged(string_bytes(tag, text) + rest, known, fields) == merged(
            rest,
            known,
            fields.insert(tag, text),
        ),
{
    broadcast use {vstd::utf8::encode_utf8_valid_utf8, vstd::utf8::encode_utf8_decode_utf8};

    lemma_key_reads(tag, text, rest);
}

/// A string field with a number that the message does not have is passed over.
pub proof fn unknown_field_is_passed_over(
    tag: u32,
    text: Seq<char>,
    rest: Seq<u8>,
    known: u32,
    fields: Map<u32, Seq<char>>,
)
    requires
        known < tag <= MAX_TAG,
        encode_utf8(text).len() <= u64::MAX,
    ensures
        merged(string_bytes(tag, text) + rest, known, fields) == merged(rest, known, fields),
{
    lemma_key_reads(tag, text, rest);
}

proof fn lemma_field_bytes(
    tag: u32,
    text: Seq<char>,
    rest: Seq<u8>,
    known: u32,
    fields: Map<u32, Seq<char>>,
) -> (after: Map<u32, Seq<char>>)
    requires
        1 <= tag <= known <= MAX_TAG,
        encode_utf8(text).len() <= u64::MAX,
        !fields.contains_key(tag),
    ensures
        merged(field_bytes(tag, text) + rest, known, fields) == merged(rest, known, after),
        field_text(after, tag) == text,
        forall|t: u32| t != tag ==> #[trigger] field_text(after, t) == field_text(fields, t),
        forall|t: u32|
            t != tag ==> #[trigger] after.contains_key(t) == fields.contains_key(t),
{
    if text.len() == 0 {
        assert(field_bytes(tag, text) + rest =~= rest);
        assert(text =~= Seq::empty());
        fields
    } else {
        field_reads_back(tag, text, rest, known, fields);
        fields.insert(tag, text)
    }
}

/// What a client posts is read as it was written.
pub proof fn message_reads_back(m: MessageView)
    requires
        encode_utf8(m.email).len() <= u64::MAX,
        encode_utf8(m.password).len() <= u64::MAX,
        encode_utf8(m.recipient).len() <= u64::MAX,
        encode_utf8(m.data).len() <= u64::MAX,
    ensures
        parsed_message(m.encoded()) == Some(m),
{
    let tail3 = field_bytes(4, m.data) + Seq::<u8>::empty();
    let tail2 = field_bytes(3, m.recipient) + tail3;
    let tail1 = field_bytes(2, m.password) + tail2;
    assert(m.encoded() =~= field_bytes(1, m.email) + tail1);
    let f1 = lemma_field_bytes(1, m.email, tail1, 4, Map::empty());
    let f2 = lemma_field_bytes(2, m.password, tail2, 4, f1);
    let f3 = lemma_field_bytes(3, m.recipient, tail3, 4, f2);
    let f4 = lemma_field_bytes(4, m.data, Seq::empty(), 4, f3);
    assert(parsed_message(m.encoded())->0 =~= m);
}

/// A device reads the message that the server wrote for it.
pub proof fn server_message_reads_back(m: ServerMessageView)
    requires
        encode_utf8(m.data).len() <= u64::MAX,
        encode_utf8(m.sender).len() <= u64::MAX,
    ensures
        parsed_server_message(m.encoded()) == Some(m),
{
    let tail = field_bytes(2, m.sender) + Seq::<u8>::empty();
    assert(m.encoded() =~= field_bytes(1, m.data) + tail);
    let f1 = lemma_field_bytes(1, m.data, tail, 2, Map::empty());
    let f2 = lemma_field_bytes(2, m.sender, Seq::empty(), 2, f1);
    assert(parsed_server_message(m.encoded())->0 =~= m);
}

} // verus!
