//! What holds of the server as a whole.

use crate::accounts::{
    are_devices_of, device_json, devices_json, devices_of_account, hex_value, is_hex_digit,
    is_uuid, percent_decoded, queried_account,
};
use crate::auth::{authentic, password_digest};
use crate::delivery::message_path_text;
use crate::json::{
    array_tells_its_values, ends_a_value, escaped, escaped_text, json_array, json_string, written,
};
use crate::reply::{ids_reply, query_tells_the_list, uuid_reply};
use crate::server::{DeviceView, Server, ServerView};
use crate::session::{
    after_delivery, after_forward, after_ping, after_poll, after_read, login_refusal, next_file,
    round, Incoming, StepView, IDLE_AT_START, PING_AFTER,
};
use crate::storage::device_text_tells_the_device;
use crate::table::distinct_keys;
use crate::wire::{
    parsed_server_message, server_message_reads_back, MessageView, ServerMessageView,
};
use vstd::prelude::*;
use vstd::utf8::{encode_scalar, encode_utf8};

verus! {

// ---------------------------------------------------------------------------
// Histories
// ---------------------------------------------------------------------------
/// One change of the state.
pub enum Change<S> {
    /// An account is asked for.
    OpenAccount { email: Seq<char>, password: Seq<char> },
    /// A device of an account is registered.
    AddDevice { email: Seq<char>, public_key: Seq<char>, uuid: Seq<char> },
    /// A message for a device cannot be handed to it.
    Disconnect { uuid: Seq<char> },
    /// A message for a device was written to a file.
    Enqueue { uuid: Seq<char>, name: Seq<char> },
    /// A device connects.
    Connect { uuid: Seq<char>, sender: S },
    /// All files that waited for a device are through.
    Flush { uuid: Seq<char> },
    /// The server is saved and started again.
    Restart,
}

impl<S> Change<S> {
    /// What the server makes sure of before the change.
    pub open spec fn allowed(self, s: ServerView<S>) -> bool {
        match self {
            Change::OpenAccount { .. } => true,
            Change::AddDevice { email, .. } => s.accounts.contains_key(email),
            Change::Disconnect { uuid } => s.ids.contains_key(uuid),
            Change::Enqueue { uuid, .. } => s.queue.contains_key(uuid),
            Change::Connect { .. } => true,
            Change::Flush { .. } => true,
            Change::Restart => true,
        }
    }

    /// The state after the change.
    pub open spec fn applied(self, s: ServerView<S>) -> ServerView<S> {
        match self {
            Change::OpenAccount { email, password } => s.with_account(email, password),
            Change::AddDevice { email, public_key, uuid } => s.with_device(email, public_key, uuid),
            Change::Disconnect { uuid } => s.disconnected(uuid),
            Change::Enqueue { uuid, name } => s.with_waiting(uuid, name),
            Change::Connect { uuid, sender } => s.connected(uuid, sender),
            Change::Flush { uuid } => s.with_left(uuid, Seq::empty()),
            Change::Restart => ServerView { senders: Map::empty(), ..s },
        }
    }

    /// Whether the change registers a device as `uuid`.
    pub open spec fn registers(self, uuid: Seq<char>) -> bool {
        match self {
            Change::AddDevice { uuid: given, .. } => given == uuid,
            _ => false,
        }
    }
}

/// The changes are made one after another, each where it is allowed, and lead
/// from `s` to `t`.
pub open spec fn leads<S>(s: ServerView<S>, changes: Seq<Change<S>>, t: ServerView<S>) -> bool
    decreases changes.len(),
{
    if changes.len() == 0 {
        s == t
    } else {
        changes[0].allowed(s) && leads(changes[0].applied(s), changes.drop_first(), t)
    }
}

/// None of the changes registers a device as `uuid`.
pub open spec fn never_registered<S>(changes: Seq<Change<S>>, uuid: Seq<char>) -> bool {
    forall|i: int| 0 <= i < changes.len() ==> !(#[trigger] changes[i]).registers(uuid)
}

/// Each device is found under its own identifier and belongs to an account, and
/// files wait for registered devices only.
pub open spec fn consistent<S>(s: ServerView<S>) -> bool {
    &&& forall|uuid: Seq<char>| #[trigger]
        s.ids.contains_key(uuid) ==> s.ids[uuid].uuid == uuid && s.accounts.contains_key(
            s.ids[uuid].account,
        )
    &&& forall|uuid: Seq<char>| #[trigger] s.queue.contains_key(uuid) ==> s.ids.contains_key(uuid)
}

/// A new server is consistent, and stays so whatever happens.
pub proof fn server_stays_consistent<S>(
    s: ServerView<S>,
    changes: Seq<Change<S>>,
    t: ServerView<S>,
)
    requires
        s == ServerView::<S>::empty() || consistent(s),
        leads(s, changes, t),
    ensures
        consistent(t),
    decreases changes.len(),
{
    if changes.len() > 0 {
        let next = changes[0].applied(s);
        assert(consistent(next));
        server_stays_consistent(next, changes.drop_first(), t);
    }
}

/// An account, once there, is never lost and never changed.
pub proof fn accounts_are_kept<S>(
    s: ServerView<S>,
    changes: Seq<Change<S>>,
    t: ServerView<S>,
    email: Seq<char>,
)
    requires
        s.accounts.contains_key(email),
        leads(s, changes, t),
    ensures
        t.accounts.contains_key(email),
        t.accounts[email] == s.accounts[email],
    decreases changes.len(),
{
    if changes.len() > 0 {
        accounts_are_kept(changes[0].applied(s), changes.drop_first(), t, email);
    }
}

/// A device, once registered, is never lost, and keeps its account and its key
/// unless a later registration is given the same identifier.
pub proof fn devices_are_kept<S>(
    s: ServerView<S>,
    changes: Seq<Change<S>>,
    t: ServerView<S>,
    uuid: Seq<char>,
)
    requires
        s.ids.contains_key(uuid),
        leads(s, changes, t),
    ensures
        t.ids.contains_key(uuid),
        never_registered(changes, uuid) ==> t.ids[uuid] == s.ids[uuid],
    decreases changes.len(),
{
    if changes.len() > 0 {
        let later = changes.drop_first();
        devices_are_kept(changes[0].applied(s), later, t, uuid);
        if never_registered(changes, uuid) {
            assert(!changes[0].registers(uuid));
            assert forall|i: int| 0 <= i < later.len() implies !(#[trigger] later[i]).registers(
                uuid,
            ) by {
                assert(!changes[i + 1].registers(uuid));
            }
        }
    }
}

/// Queries tell a device from its registration on, whatever happens: each query for
/// its account lists it as it was registered, and no query for another account
/// lists its identifier. `found` is what the query `text` lists.
pub proof fn device_stays_listed<S>(
    s: ServerView<S>,
    changes: Seq<Change<S>>,
    t: ServerView<S>,
    uuid: Seq<char>,
    text: Seq<char>,
    found: Seq<DeviceView>,
)
    requires
        s.ids.contains_key(uuid),
        leads(s, changes, t),
        never_registered(changes, uuid),
        are_devices_of(t, found, queried_account(text)),
    ensures
        queried_account(text) == s.ids[uuid].account ==> found.contains(s.ids[uuid]),
        consistent(s) && queried_account(text) != s.ids[uuid].account ==> forall|d: DeviceView|
         #[trigger]
            found.contains(d) ==> d.uuid != uuid,
{
    devices_are_kept(s, changes, t, uuid);
    if consistent(s) {
        server_stays_consistent(s, changes, t);
        assert forall|d: DeviceView| #[trigger]
            found.contains(d) && queried_account(text) != s.ids[uuid].account implies d.uuid
            != uuid by {
            let key = choose|key: Seq<char>| #[trigger]
                t.ids.contains_key(key) && t.ids[key] == d;
            assert(d.uuid == key);
        }
    }
}

/// Whoever opens an account can log in with its password from then on, whatever
/// happens in between.
pub proof fn password_opens_the_account<S>(
    s: ServerView<S>,
    email: Seq<char>,
    password: Seq<char>,
    changes: Seq<Change<S>>,
    t: ServerView<S>,
)
    requires
        !s.accounts.contains_key(email),
        leads(s.with_account(email, password), changes, t),
    ensures
        authentic(t.accounts, email, password),
{
    accounts_are_kept(s.with_account(email, password), changes, t, email);
}

/// A password with another hash opens nothing, and opening an account again does
/// not change its password.
pub proof fn other_passwords_are_refused<S>(
    s: ServerView<S>,
    email: Seq<char>,
    password: Seq<char>,
    other: Seq<char>,
    changes: Seq<Change<S>>,
    t: ServerView<S>,
)
    requires
        authentic(s.accounts, email, password),
        password_digest(other) != password_digest(password),
        leads(s.with_account(email, other), changes, t),
    ensures
        authentic(t.accounts, email, password),
        !authentic(t.accounts, email, other),
{
    accounts_are_kept(s.with_account(email, other), changes, t, email);
}

// ---------------------------------------------------------------------------
// Devices
// ---------------------------------------------------------------------------
/// A device that was registered can from then on log in with its account, can be
/// written to by everybody who has an account, and is told by the queries for its
/// account and by no others, whatever happens in between. `found` is what the query
/// `text` lists.
pub proof fn registered_device_is_reachable<S>(
    s: ServerView<S>,
    email: Seq<char>,
    password: Seq<char>,
    public_key: Seq<char>,
    uuid: Seq<char>,
    changes: Seq<Change<S>>,
    t: ServerView<S>,
    given_email: Incoming,
    given_password: Incoming,
    m: MessageView,
    text: Seq<char>,
    found: Seq<DeviceView>,
)
    requires
        consistent(s),
        authentic(s.accounts, email, password),
        leads(s.with_device(email, public_key, uuid), changes, t),
        never_registered(changes, uuid),
        given_email is Text && given_email->Text_0@ == email,
        given_password is Text && given_password->Text_0@ == password,
        authentic(t.accounts, m.email, m.password),
        m.recipient == uuid,
        are_devices_of(t, found, queried_account(text)),
    ensures
        login_refusal(t.accounts, t.owner(uuid), given_email, given_password) is None,
        t.refusal(Some(m)) is None,
        queried_account(text) == email ==> found.contains(
            DeviceView { account: email, uuid, public_key },
        ),
        queried_account(text) != email ==> forall|d: DeviceView| #[trigger]
            found.contains(d) ==> d.uuid != uuid,
{
    let first = s.with_device(email, public_key, uuid);
    assert(first.ids.contains_key(uuid));
    assert(consistent(first));
    accounts_are_kept(first, changes, t, email);
    devices_are_kept(first, changes, t, uuid);
    device_stays_listed(first, changes, t, uuid, text, found);
}

/// An account's password does not open the connection of another account's device.
pub proof fn device_opens_for_its_account_only<S>(
    s: ServerView<S>,
    uuid: Seq<char>,
    email: Incoming,
    password: Incoming,
)
    requires
        s.ids.contains_key(uuid),
        login_refusal(s.accounts, s.owner(uuid), email, password) is None,
    ensures
        email is Text && email->Text_0@ == s.ids[uuid].account,
        password is Text && authentic(s.accounts, s.ids[uuid].account, password->Text_0@),
{
}

// ---------------------------------------------------------------------------
// Identifiers
// ---------------------------------------------------------------------------
proof fn lemma_hex_is_plain(text: Seq<char>)
    requires
        forall|i: int| 0 <= i < text.len() ==> #[trigger] text[i] == '-' || is_hex_digit(text[i]),
    ensures
        escaped_text(text) == text,
    decreases text.len(),
{
    if text.len() > 0 {
        lemma_hex_is_plain(text.drop_last());
        assert(text[text.len() - 1] == '-' || is_hex_digit(text[text.len() - 1]));
        assert(escaped(text.last()) =~= seq![text.last()]);
        assert(escaped_text(text) =~= text);
    }
}

/// The answer to a registration is JSON: an identifier needs no escaping.
pub proof fn uuid_reply_is_json(uuid: Seq<char>)
    requires
        is_uuid(uuid),
    ensures
        uuid_reply(uuid) == "{\"success\": true, \"uuid\": "@ + json_string(uuid) + "}"@,
{
    lemma_hex_is_plain(uuid);
    reveal_strlit("{\"success\": true, \"uuid\": \"");
    reveal_strlit("{\"success\": true, \"uuid\": ");
    reveal_strlit("\"}");
    reveal_strlit("}");
    assert(uuid_reply(uuid) =~= "{\"success\": true, \"uuid\": "@ + json_string(uuid) + "}"@);
}

/// A file named by an identifier lies in the directory of the messages itself:
/// its name has no slash and no dot.
pub proof fn message_file_lies_in_its_directory(name: Seq<char>, i: int)
    requires
        is_uuid(name),
        "messages/"@.len() <= i < message_path_text(name).len(),
    ensures
        message_path_text(name)[i] != '/',
        message_path_text(name)[i] != '.',
{
    let k = i - "messages/"@.len();
    assert(message_path_text(name)[i] == name[k]);
    assert(name[k] == '-' || is_hex_digit(name[k]));
}

// ---------------------------------------------------------------------------
// Queues
// ---------------------------------------------------------------------------
/// Files wait in the order in which they came, and for their device only.
pub proof fn files_wait_in_order<S>(
    s: ServerView<S>,
    uuid: Seq<char>,
    first: Seq<char>,
    second: Seq<char>,
    other: Seq<char>,
)
    requires
        other != uuid,
    ensures
        ({
            let t = s.disconnected(uuid).with_waiting(uuid, first).disconnected(uuid).with_waiting(
                uuid,
                second,
            );
            &&& t.waiting(uuid) == s.waiting(uuid).push(first).push(second)
            &&& t.waiting(other) == s.waiting(other)
            &&& !t.senders.contains_key(uuid)
        }),
{
}

/// The files that wait for a device only grow in number, in order, until they are
/// through.
pub proof fn waiting_files_are_kept<S>(
    s: ServerView<S>,
    changes: Seq<Change<S>>,
    t: ServerView<S>,
    uuid: Seq<char>,
)
    requires
        leads(s, changes, t),
        forall|i: int|
            0 <= i < changes.len() ==> #[trigger] changes[i] != (Change::<S>::Flush { uuid }),
    ensures
        s.waiting(uuid).is_prefix_of(t.waiting(uuid)),
    decreases changes.len(),
{
    if changes.len() > 0 {
        let next = changes[0].applied(s);
        assert(s.waiting(uuid).is_prefix_of(next.waiting(uuid)));
        assert forall|i: int| 0 <= i < changes.drop_first().len() implies #[trigger]
        changes.drop_first()[i] != (Change::<S>::Flush { uuid }) by {
            assert(changes[i + 1] != (Change::<S>::Flush { uuid }));
        }
        waiting_files_are_kept(next, changes.drop_first(), t, uuid);
    }
}

// ---------------------------------------------------------------------------
// Connections
// ---------------------------------------------------------------------------
/// What waits for a device is kept until its last file is through; then its queue
/// is dropped, and no other.
pub proof fn queue_is_kept_until_the_last_file<S>(
    s: ServerView<S>,
    uuid: Seq<char>,
    left: Seq<Seq<char>>,
    other: Seq<char>,
)
    requires
        other != uuid,
    ensures
        left.len() > 0 ==> s.with_left(uuid, left) == s,
        left.len() == 0 ==> !s.with_left(uuid, left).queue.contains_key(uuid),
        s.with_left(uuid, left).waiting(other) == s.waiting(other),
        s.with_left(uuid, left).senders == s.senders,
{
}

/// What the files hold that can be read, in order.
pub open spec fn readable(contents: Seq<Option<Seq<u8>>>) -> Seq<Seq<u8>>
    decreases contents.len(),
{
    if contents.len() == 0 {
        Seq::empty()
    } else {
        match contents[0] {
            Some(bytes) => seq![bytes] + readable(contents.drop_first()),
            None => readable(contents.drop_first()),
        }
    }
}

/// What is sent from `step` on until the connection goes live, where the files
/// that are read hold `contents` and sending does not fail; and the step that
/// comes then.
pub open spec fn drained(step: StepView, contents: Seq<Option<Seq<u8>>>) -> (
    Seq<Seq<u8>>,
    StepView,
)
    decreases contents.len(),
{
    match step {
        StepView::Read { uuid, left } => if contents.len() == 0 {
            (Seq::empty(), step)
        } else {
            match after_read(uuid, left, contents[0]) {
                StepView::Deliver { uuid, left, bytes } => {
                    let (sent, last) = drained(
                        after_delivery(uuid, left, true),
                        contents.drop_first(),
                    );
                    (seq![bytes] + sent, last)
                },
                other => drained(other, contents.drop_first()),
            }
        },
        _ => (Seq::empty(), step),
    }
}

/// After the login a device is sent what its files hold, each once and in order;
/// a file that cannot be read is passed over. Then the connection goes live.
pub proof fn waiting_files_are_delivered(
    uuid: Seq<char>,
    left: Seq<Seq<char>>,
    contents: Seq<Option<Seq<u8>>>,
)
    requires
        contents.len() == left.len(),
    ensures
        drained(next_file(uuid, left), contents) == (
            readable(contents),
            round(IDLE_AT_START as int),
        ),
    decreases left.len(),
{
    if left.len() > 0 {
        waiting_files_are_delivered(uuid, left.drop_first(), contents.drop_first());
    }
}

pub(crate) proof fn lemma_readable_last(contents: Seq<Option<Seq<u8>>>, bytes: Seq<u8>)
    ensures
        readable(contents.push(Some(bytes))) == readable(contents).push(bytes),
    decreases contents.len(),
{
    reveal_with_fuel(readable, 2);
    let longer = contents.push(Some(bytes));
    if contents.len() == 0 {
        assert(longer.drop_first() =~= Seq::empty());
        assert(readable(longer) =~= readable(contents).push(bytes));
    } else {
        assert(longer.drop_first() =~= contents.drop_first().push(Some(bytes)));
        lemma_readable_last(contents.drop_first(), bytes);
        assert(readable(longer) =~= readable(contents).push(bytes));
    }
}

/// A message that was posted to a device that could not be reached is, once it
/// was written to a file, the last that the device is sent after its next login.
/// `contents` are what the files hold that waited before. The device reads the
/// data, and the address of the sender, as they were posted.
pub proof fn posted_message_reaches_the_device<S>(
    s: ServerView<S>,
    m: MessageView,
    name: Seq<char>,
    contents: Seq<Option<Seq<u8>>>,
)
    requires
        s.refusal(Some(m)) is None,
        contents.len() == s.waiting(m.recipient).len(),
        encode_utf8(m.data).len() <= u64::MAX,
        encode_utf8(m.email).len() <= u64::MAX,
    ensures
        ({
            let t = s.disconnected(m.recipient).with_waiting(m.recipient, name);
            let file = m.forwarded().file(name);
            let (sent, last) = drained(
                next_file(m.recipient, t.waiting(m.recipient)),
                contents.push(Some(file.bytes)),
            );
            &&& sent == readable(contents).push(file.bytes)
            &&& last is Ping
            &&& parsed_server_message(sent.last()) == Some(
                ServerMessageView { data: m.data, sender: m.email },
            )
        }),
{
    let t = s.disconnected(m.recipient).with_waiting(m.recipient, name);
    let bytes = m.forwarded().encoded();
    assert(t.waiting(m.recipient) =~= s.waiting(m.recipient).push(name));
    waiting_files_are_delivered(
        m.recipient,
        t.waiting(m.recipient),
        contents.push(Some(bytes)),
    );
    lemma_readable_last(contents, bytes);
    server_message_reads_back(m.forwarded());
}

/// A message that is handed to a live connection is sent in the round that finds
/// it, and the device reads it as it was posted.
pub proof fn live_message_reaches_the_device(idle: int, m: MessageView)
    requires
        encode_utf8(m.data).len() <= u64::MAX,
        encode_utf8(m.email).len() <= u64::MAX,
    ensures
        match after_poll(idle, Some(m.forwarded())) {
            StepView::Forward { bytes, .. } => parsed_server_message(bytes) == Some(
                ServerMessageView { data: m.data, sender: m.email },
            ),
            _ => false,
        },
{
    server_message_reads_back(m.forwarded());
}

/// The time since the last ping at the end of a round that began `idle` half
/// seconds after it, where sending does not fail.
pub open spec fn idle_after_round(idle: int, message: Option<ServerMessageView>) -> int {
    let polling = match round(idle) {
        StepView::Ping => after_ping(true),
        other => other,
    };
    match polling {
        StepView::Poll { idle } => match after_poll(idle, message) {
            StepView::Forward { idle, .. } => match after_forward(idle, true) {
                StepView::Wait { idle } => idle,
                _ => arbitrary(),
            },
            StepView::Wait { idle } => idle,
            _ => arbitrary(),
        },
        _ => arbitrary(),
    }
}

/// The time since the last ping when round number `n` begins. `messages` are what
/// the rounds find to send.
pub open spec fn idle_before(n: nat, messages: spec_fn(nat) -> Option<ServerMessageView>) -> int
    decreases n,
{
    if n == 0 {
        IDLE_AT_START as int
    } else {
        idle_after_round(idle_before((n - 1) as nat, messages), messages((n - 1) as nat))
    }
}

/// A live connection is pinged in its first round and then in every sixtieth,
/// which is every half minute, however many messages there are.
pub proof fn pings_come_every_half_minute(
    n: nat,
    messages: spec_fn(nat) -> Option<ServerMessageView>,
)
    ensures
        round(idle_before(n, messages)) is Ping <==> n % (PING_AFTER as nat) == 0,
        n > 0 ==> idle_before(n, messages) == (n - 1) % (PING_AFTER as int),
    decreases n,
{
    if n > 0 {
        pings_come_every_half_minute((n - 1) as nat, messages);
    }
}

// ---------------------------------------------------------------------------
// Queries
// ---------------------------------------------------------------------------
/// A percent sign with two hexadecimal digits stands for one byte, wherever it
/// stands at the front of what is left.
pub proof fn escape_stands_for_its_byte(high: u8, low: u8, rest: Seq<u8>)
    requires
        hex_value(high) is Some,
        hex_value(low) is Some,
    ensures
        percent_decoded(seq!['%' as u8, high, low] + rest) == seq![
            (hex_value(high)->0 * 16 + hex_value(low)->0) as u8,
        ] + percent_decoded(rest),
{
    let b = seq!['%' as u8, high, low] + rest;
    assert(b.skip(3) =~= rest);
}

proof fn lemma_no_escapes(b: Seq<u8>)
    requires
        forall|i: int| 0 <= i < b.len() ==> #[trigger] b[i] != '%' as u8,
    ensures
        percent_decoded(b) == b,
    decreases b.len(),
{
    if b.len() > 0 {
        assert forall|i: int| 0 <= i < b.skip(1).len() implies #[trigger] b.skip(1)[i]
            != '%' as u8 by {
            assert(b.skip(1)[i] == b[i + 1]);
        }
        lemma_no_escapes(b.skip(1));
        assert(b[0] != '%' as u8);
        assert(percent_decoded(b) =~= b);
    }
}

proof fn lemma_no_percent(text: Seq<char>)
    requires
        forall|i: int| 0 <= i < text.len() ==> #[trigger] text[i] != '%',
    ensures
        forall|i: int|
            0 <= i < encode_utf8(text).len() ==> #[trigger] encode_utf8(text)[i] != '%' as u8,
    decreases text.len(),
{
    if text.len() > 0 {
        let rest = text.drop_first();
        assert forall|i: int| 0 <= i < rest.len() implies #[trigger] rest[i] != '%' by {
            assert(rest[i] == text[i + 1]);
        }
        lemma_no_percent(rest);
        let c = text[0] as u32;
        vstd::utf8::char_is_scalar(text[0]);
        vstd::utf8::char_u32_cast(text[0], c);
        assert(text[0] != '%');
        assert(c != 0x25);
        assert(c <= 0x7f && c != 0x25 ==> (c & 0x7f) as u8 != 0x25) by (bit_vector);
        assert(0xc0u8 | ((c >> 6) & 0x1f) as u8 >= 0x80) by (bit_vector);
        assert(0xe0u8 | ((c >> 12) & 0x0f) as u8 >= 0x80) by (bit_vector);
        assert(0xf0u8 | ((c >> 18) & 0x7) as u8 >= 0x80) by (bit_vector);
        assert(0x80u8 | (c & 0x3f) as u8 >= 0x80) by (bit_vector);
        assert(0x80u8 | ((c >> 6) & 0x3f) as u8 >= 0x80) by (bit_vector);
        assert(0x80u8 | ((c >> 12) & 0x3f) as u8 >= 0x80) by (bit_vector);
        let first = encode_scalar(c);
        assert forall|i: int| 0 <= i < encode_utf8(text).len() implies #[trigger] encode_utf8(
            text,
        )[i] != '%' as u8 by {
            assert(encode_utf8(text) == first + encode_utf8(rest));
            if i >= first.len() {
                assert(encode_utf8(text)[i] == encode_utf8(rest)[i - first.len()]);
            }
        }
    }
}

/// An address without a percent sign is queried as it is.
pub proof fn plain_account_is_queried(account: Seq<char>)
    requires
        forall|i: int| 0 <= i < account.len() ==> #[trigger] account[i] != '%',
    ensures
        queried_account(account) == account,
{
    lemma_no_percent(account);
    lemma_no_escapes(encode_utf8(account));
    encoded_account_is_queried(account, account);
}

/// The answer to a query tells each device that it lists.
pub proof fn query_tells_the_devices(a: Seq<DeviceView>, b: Seq<DeviceView>)
    requires
        ids_reply(devices_json(a)) == ids_reply(devices_json(b)),
    ensures
        a == b,
{
    let write = |d: DeviceView| device_json(d);
    let list = |items: Seq<DeviceView>| json_array(written(items, write));
    let end = seq![']'];
    query_tells_the_list(devices_json(a), devices_json(b));
    device_text_tells_the_device();
    array_tells_its_values(write);
    assert(ends_a_value(end));
    assert(list(a) + end == list(b) + end);
}

/// No two devices of a list share an identifier.
pub open spec fn distinct_devices(list: Seq<DeviceView>) -> bool {
    forall|i: int, j: int|
        #![trigger list[i], list[j]]
        0 <= i < j < list.len() ==> list[i].uuid != list[j].uuid
}

proof fn lemma_distinct_filtered(list: Seq<DeviceView>, keep: spec_fn(DeviceView) -> bool)
    requires
        distinct_devices(list),
    ensures
        distinct_devices(list.filter(keep)),
    decreases list.len(),
{
    reveal(Seq::filter);
    if list.len() > 0 {
        let front = list.drop_last();
        let kept = front.filter(keep);
        lemma_distinct_filtered(front, keep);
        assert forall|i: int| 0 <= i < kept.len() implies (#[trigger] kept[i]).uuid
            != list.last().uuid by {
            front.lemma_filter_contains_rev(keep, kept[i]);
            let k = choose|k: int| 0 <= k < front.len() && front[k] == kept[i];
            assert(list[k].uuid != list[list.len() - 1].uuid);
        }
    }
}

/// A query lists each device once.
pub proof fn query_lists_each_device_once<S>(server: Server<S>, account: Seq<char>)
    requires
        consistent(server@),
        distinct_keys(server.ids.entries()),
    ensures
        distinct_devices(devices_of_account(server.listed(), account)),
{
    let entries = server.ids.entries();
    let all = server.listed();
    assert forall|i: int| 0 <= i < all.len() implies (#[trigger] all[i]).uuid == entries[i].0 by {
        let key = entries[i].0;
        assert(server.ids@.contains_key(key));
        let j = choose|j: int| 0 <= j < entries.len() && (#[trigger] entries[j]).0 == key;
        assert(i == j);
        assert(server@.ids.contains_key(key));
        assert(server@.ids[key] == all[i]);
    }
    lemma_distinct_filtered(all, |d: DeviceView| d.account == account);
}

/// A query that stands for the bytes of an address is a query for that address.
pub proof fn encoded_account_is_queried(text: Seq<char>, account: Seq<char>)
    requires
        percent_decoded(encode_utf8(text)) == encode_utf8(account),
    ensures
        queried_account(text) == account,
{
    vstd::utf8::encode_utf8_valid_utf8(account);
    vstd::utf8::encode_utf8_decode_utf8(account);
}

} // verus!
