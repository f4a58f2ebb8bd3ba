//! What holds of accounts, devices and queries, told by the tables themselves.

use crate::accounts::{
    are_devices_of, devices_of_account, hex_value, is_uuid, listed_with, percent_decoded,
    queried_account,
};
use crate::auth::{authentic, hashed_text, password_digest};
use crate::fresh::names;
use crate::server::{DeviceView, Server, ServerView};
use crate::table::{collected, entry_map, entry_texts};
use std::collections::hash_map::DefaultHasher;
use vstd::prelude::*;
use vstd::std_specs::hash::DefaultHasherAdditionalSpecFns;
use vstd::utf8::{encode_utf8, valid_utf8};

verus! {

// ---------------------------------------------------------------------------
// The state
// ---------------------------------------------------------------------------
/// The state of a server is what its four tables hold: each device with its
/// account, identifier and key, each queue with its names in order.
pub proof fn state_is_what_the_tables_hold<S>(server: Server<S>, uuid: Seq<char>, i: int)
    ensures
        server@.senders == server.event_stream_senders@,
        server@.accounts == server.accounts@,
        server@.ids.dom() == server.ids@.dom(),
        server@.queue.dom() == server.message_queue@.dom(),
        server.ids@.contains_key(uuid) ==> {
            &&& server@.ids[uuid].account == server.ids@[uuid].account@
            &&& server@.ids[uuid].uuid == server.ids@[uuid].uuid@
            &&& server@.ids[uuid].public_key == server.ids@[uuid].public_key@
        },
        server.message_queue@.contains_key(uuid) ==> {
            &&& server@.queue[uuid].len() == server.message_queue@[uuid]@.len()
            &&& 0 <= i < server@.queue[uuid].len() ==> server@.queue[uuid][i]
                == server.message_queue@[uuid]@[i]@
        },
{
    assert(server@.ids.dom() =~= server.ids@.dom());
    assert(server@.queue.dom() =~= server.message_queue@.dom());
}

/// Nothing is registered, kept or connected in a new server.
pub proof fn new_server_holds_nothing<S>(key: Seq<char>)
    ensures
        !ServerView::<S>::empty().accounts.contains_key(key),
        !ServerView::<S>::empty().ids.contains_key(key),
        !ServerView::<S>::empty().queue.contains_key(key),
        !ServerView::<S>::empty().senders.contains_key(key),
{
}

/// The list of the devices has one place for each entry of their table, with what
/// the entry holds.
pub proof fn list_follows_the_table<S>(server: Server<S>, i: int)
    ensures
        server.listed().len() == server.ids.entries().len(),
        0 <= i < server.listed().len() ==> {
            &&& server.listed()[i].account == server.ids.entries()[i].1.account@
            &&& server.listed()[i].uuid == server.ids.entries()[i].1.uuid@
            &&& server.listed()[i].public_key == server.ids.entries()[i].1.public_key@
        },
{
}

/// The entries of a list of pairs are its keys and values, one for one.
pub proof fn entries_are_the_pairs<V>(list: Seq<(String, V)>, i: int)
    ensures
        entry_texts(list).len() == list.len(),
        0 <= i < list.len() ==> entry_texts(list)[i].0 == list[i].0@ && entry_texts(list)[i].1
            == list[i].1,
{
}

/// Of the entries of a list that has a key twice, the later one counts.
pub proof fn later_entry_counts<V>(entries: Seq<(Seq<char>, V)>, key: Seq<char>, value: V)
    ensures
        collected(entries.push((key, value))) == collected(entries).insert(key, value),
        collected(Seq::<(Seq<char>, V)>::empty()) == Map::<Seq<char>, V>::empty(),
{
    assert(entries.push((key, value)).drop_last() =~= entries);
}

/// An entry of a list in which no key occurs twice is found under its key, and
/// nothing else is.
pub proof fn entries_are_found<V>(entries: Seq<(Seq<char>, V)>, i: int, key: Seq<char>)
    requires
        0 <= i < entries.len(),
        forall|a: int, b: int|
            0 <= a < b < entries.len() ==> (#[trigger] entries[a]).0 != (#[trigger] entries[b]).0,
    ensures
        entry_map(entries).contains_key(entries[i].0),
        entry_map(entries)[entries[i].0] == entries[i].1,
        entry_map(entries).contains_key(key) ==> exists|k: int|
            0 <= k < entries.len() && (#[trigger] entries[k]).0 == key,
{
    let j = choose|j: int| 0 <= j < entries.len() && (#[trigger] entries[j]).0 == entries[i].0;
    assert(i == j);
}

// ---------------------------------------------------------------------------
// Passwords
// ---------------------------------------------------------------------------
/// The number that is kept of a password is the hash of the whole password, of
/// whatever length, by a new hasher.
pub proof fn whole_password_is_hashed(password: Seq<char>)
    ensures
        password_digest(password) == DefaultHasher::spec_finish(
            hashed_text(Seq::empty(), password),
        ),
{
}

/// A password opens an account where there is one and its hash is the one kept,
/// and nowhere else.
pub proof fn password_is_held_against_the_kept_hash(
    accounts: Map<Seq<char>, u64>,
    email: Seq<char>,
    password: Seq<char>,
)
    ensures
        authentic(accounts, email, password) <==> accounts.contains_key(email) && accounts[email]
            == DefaultHasher::spec_finish(hashed_text(Seq::empty(), password)),
{
}

/// An account that was opened with one password accepts another only where the
/// hashes of the two whole passwords are the same.
pub proof fn account_accepts_its_own_password<S>(
    s: ServerView<S>,
    email: Seq<char>,
    password: Seq<char>,
    other: Seq<char>,
)
    requires
        !s.accounts.contains_key(email),
    ensures
        authentic(s.with_account(email, password).accounts, email, password),
        authentic(s.with_account(email, password).accounts, email, other) <==> (
        DefaultHasher::spec_finish(hashed_text(Seq::empty(), other)) == DefaultHasher::spec_finish(
            hashed_text(Seq::empty(), password),
        )),
{
}

/// Opening an account touches that account alone, and one that exists not at all.
pub proof fn opening_touches_one_account<S>(
    s: ServerView<S>,
    email: Seq<char>,
    password: Seq<char>,
    other: Seq<char>,
)
    ensures
        ({
            let t = s.with_account(email, password);
            &&& t.accounts.dom() == s.accounts.dom().insert(email)
            &&& t.senders == s.senders && t.ids == s.ids && t.queue == s.queue
            &&& s.accounts.contains_key(other) ==> t.accounts[other] == s.accounts[other]
            &&& !s.accounts.contains_key(email) ==> t.accounts[email] == DefaultHasher::spec_finish(
                hashed_text(Seq::empty(), password),
            )
        }),
{
    let t = s.with_account(email, password);
    assert(t.accounts.dom() =~= s.accounts.dom().insert(email));
}

// ---------------------------------------------------------------------------
// Devices
// ---------------------------------------------------------------------------
/// Registering a device enters it under its identifier with its account and its
/// key, and touches no other device and no account, queue or connection.
pub proof fn registering_touches_one_device<S>(
    s: ServerView<S>,
    email: Seq<char>,
    public_key: Seq<char>,
    uuid: Seq<char>,
    other: Seq<char>,
)
    ensures
        ({
            let t = s.with_device(email, public_key, uuid);
            &&& t.ids.dom() == s.ids.dom().insert(uuid)
            &&& t.ids[uuid].account == email
            &&& t.ids[uuid].uuid == uuid
            &&& t.ids[uuid].public_key == public_key
            &&& other != uuid && s.ids.contains_key(other) ==> t.ids[other] == s.ids[other]
            &&& t.senders == s.senders && t.accounts == s.accounts && t.queue == s.queue
        }),
{
    let t = s.with_device(email, public_key, uuid);
    assert(t.ids.dom() =~= s.ids.dom().insert(uuid));
}

/// A device with a new identifier comes last in the list, and the others keep their
/// places.
pub proof fn new_device_is_listed_last<S>(before: Server<S>, after: Server<S>, uuid: Seq<char>)
    requires
        listed_with(before, after, uuid),
        !before@.ids.contains_key(uuid),
    ensures
        after.listed().len() == before.listed().len() + 1,
        after.listed().take(before.listed().len() as int) == before.listed(),
        after.listed().last() == after@.ids[uuid],
{
    assert(after.listed().take(before.listed().len() as int) =~= before.listed());
}

/// A device with the identifier of another takes its place in the list, and the
/// others keep theirs.
pub proof fn replaced_device_keeps_its_place<S>(
    before: Server<S>,
    after: Server<S>,
    uuid: Seq<char>,
    i: int,
    k: int,
)
    requires
        listed_with(before, after, uuid),
        0 <= i < before.ids.entries().len(),
        before.ids.entries()[i].0 == uuid,
        0 <= k < before.ids.entries().len(),
    ensures
        after.listed().len() == before.listed().len(),
        after.listed()[i] == after@.ids[uuid],
        k != i ==> after.listed()[k] == before.listed()[k],
{
    assert(before.listed().len() == before.ids.entries().len());
}

/// An identifier has thirty-two hexadecimal digits in lower case, in five groups
/// with hyphens between them; the thirteenth digit is a four.
pub proof fn identifier_has_its_form(uuid: Seq<char>, i: int)
    requires
        is_uuid(uuid),
        0 <= i < 36,
    ensures
        uuid.len() == 36,
        i == 8 || i == 13 || i == 18 || i == 23 <==> uuid[i] == '-',
        uuid[i] != '-' ==> '0' <= uuid[i] <= '9' || 'a' <= uuid[i] <= 'f',
        uuid[14] == '4',
        uuid[19] == '8' || uuid[19] == '9' || uuid[19] == 'a' || uuid[19] == 'b',
{
    assert(uuid[i] == uuid[i]);
}

/// The names of a list are its texts, one for one.
pub proof fn names_are_the_texts(list: Seq<&String>, i: int)
    ensures
        names(list).len() == list.len(),
        0 <= i < list.len() ==> names(list)[i] == list[i]@,
{
}

// ---------------------------------------------------------------------------
// Queries
// ---------------------------------------------------------------------------
/// A query lists the devices of the list that have the account, each as often as it
/// stands there and in the same order, and no others.
pub proof fn query_keeps_the_order(
    front: Seq<DeviceView>,
    d: DeviceView,
    account: Seq<char>,
)
    ensures
        devices_of_account(Seq::empty(), account).len() == 0,
        d.account == account ==> devices_of_account(front.push(d), account) == devices_of_account(
            front,
            account,
        ).push(d),
        d.account != account ==> devices_of_account(front.push(d), account) == devices_of_account(
            front,
            account,
        ),
{
    reveal(Seq::filter);
    assert(front.push(d).drop_last() =~= front);
}

/// What is found for an account are its devices: each of them, and each device
/// found has that account and is registered.
pub proof fn found_devices_are_registered<S>(
    s: ServerView<S>,
    found: Seq<DeviceView>,
    account: Seq<char>,
    uuid: Seq<char>,
    d: DeviceView,
)
    requires
        are_devices_of(s, found, account),
    ensures
        s.ids.contains_key(uuid) && s.ids[uuid].account == account ==> found.contains(s.ids[uuid]),
        found.contains(d) ==> d.account == account && exists|key: Seq<char>| #[trigger]
            s.ids.contains_key(key) && s.ids[key] == d,
{
}

/// A query asks for the account whose bytes are those that its text stands for; one
/// that stands for no text asks for the account without a name.
pub proof fn query_asks_for_its_bytes(text: Seq<char>)
    ensures
        valid_utf8(percent_decoded(encode_utf8(text))) ==> encode_utf8(queried_account(text))
            == percent_decoded(encode_utf8(text)),
        !valid_utf8(percent_decoded(encode_utf8(text))) ==> queried_account(text).len() == 0,
{
    if valid_utf8(percent_decoded(encode_utf8(text))) {
        vstd::utf8::decode_utf8_encode_utf8(percent_decoded(encode_utf8(text)));
    }
}

/// A byte that begins no escape stands for itself.
pub proof fn other_bytes_stand_for_themselves(b: u8, rest: Seq<u8>)
    requires
        b != 0x25 || rest.len() < 2 || hex_value(rest[0]) is None || hex_value(rest[1]) is None,
    ensures
        percent_decoded(seq![b] + rest) == seq![b] + percent_decoded(rest),
        percent_decoded(Seq::empty()).len() == 0,
{
    let all = seq![b] + rest;
    assert(all.skip(1) =~= rest);
    if all.len() >= 3 {
        assert(all[1] == rest[0] && all[2] == rest[1]);
    }
}

/// The digits are those of both cases, with the values from zero to fifteen.
pub proof fn digits_have_their_values(n: int)
    ensures
        0 <= n < 10 ==> hex_value((0x30 + n) as u8) == Some(n),
        10 <= n < 16 ==> hex_value((0x41 + n - 10) as u8) == Some(n) && hex_value(
            (0x61 + n - 10) as u8,
        ) == Some(n),
        forall|b: u8|
            (#[trigger] hex_value(b)) is Some ==> 0x30 <= b <= 0x39 || 0x41 <= b <= 0x46 || 0x61
                <= b <= 0x66,
{
}

} // verus!
