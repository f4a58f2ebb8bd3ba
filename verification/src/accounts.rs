//! Accounts and the devices that belong to them.

use crate::auth::{authentic, authenticate, hashed_text, password_digest, password_hash};
use crate::fresh::{fresh_uuid, names};
use crate::json::{
    json_array, json_member, json_object, json_string, texts, write_array, write_member,
    write_object, write_string,
};
use crate::reader::{read_compact, read_json, Json};
use crate::reply::{
    error_json, error_reply, ids_json, ids_reply, success_json, success_reply, uuid_json,
    uuid_reply,
};
use crate::server::{
    lemma_devices_insert, Account, DeviceView, IDSInfo, IDSPost, Server, ServerView,
};
use crate::table::distinct_keys;
use crate::text_laws::{device_text_holds_the_device, device_value, query_is_read};
use std::collections::hash_map::DefaultHasher;
use vstd::prelude::*;
use vstd::std_specs::hash::DefaultHasherAdditionalSpecFns;
use vstd::utf8::{decode_utf8, encode_utf8, valid_utf8};

verus! {

// ---------------------------------------------------------------------------
// Opening accounts
// ---------------------------------------------------------------------------
impl<S> ServerView<S> {
    /// The state after `email` asked for an account: an account that exists stays
    /// as it is.
    pub open spec fn with_account(self, email: Seq<char>, password: Seq<char>) -> Self {
        if self.accounts.contains_key(email) {
            self
        } else {
            ServerView {
                accounts: self.accounts.insert(email, password_digest(password)),
                ..self
            }
        }
    }
}

/// Opens an account, unless there is one for that address.
pub fn create_account<S>(account: Account, server: &mut Server<S>) -> (reply: String)
    ensures
        final(server)@ == old(server)@.with_account(account.email@, account.password@),
        reply@ == if old(server)@.accounts.contains_key(account.email@) {
            error_reply("account exists"@)
        } else {
            success_reply()
        },
        final(server).listed() == old(server).listed(),
        final(server).ids == old(server).ids,
        final(server).message_queue == old(server).message_queue,
        final(server).event_stream_senders == old(server).event_stream_senders,
        old(server).accounts@.contains_key(account.email@) ==> {
            &&& final(server).accounts == old(server).accounts
            &&& reply@ == "{\"success\": false, \"reason\": \""@ + "account exists"@ + "\"}"@
        },
        !old(server).accounts@.contains_key(account.email@) ==> {
            &&& final(server).accounts@ == old(server).accounts@.insert(
                account.email@,
                DefaultHasher::spec_finish(hashed_text(Seq::empty(), account.password@)),
            )
            &&& reply@ == "{\"success\": true}"@
        },
{
    if !server.accounts.contains_key(account.email.as_str()) {
        let digest: u64 = password_hash(account.password.as_str());
        server.accounts.insert(account.email, digest);
        return success_json();
    }
    error_json("account exists")
}

// ---------------------------------------------------------------------------
// Registering devices
// ---------------------------------------------------------------------------
/// A lower-case hexadecimal digit.
pub open spec fn is_hex_digit(c: char) -> bool {
    '0' <= c <= '9' || 'a' <= c <= 'f'
}

/// The text of a random identifier: 32 digits in five groups, with the digits
/// that tell version and variant.
pub open spec fn is_uuid(s: Seq<char>) -> bool {
    &&& s.len() == 36
    &&& forall|i: int|
        0 <= i < 36 ==> if i == 8 || i == 13 || i == 18 || i == 23 {
            #[trigger] s[i] == '-'
        } else {
            is_hex_digit(s[i])
        }
    &&& s[14] == '4'
    &&& s[19] == '8' || s[19] == '9' || s[19] == 'a' || s[19] == 'b'
}

/// `uuid::Uuid::new_v4`, as text. Trusted to have the form of a version 4
/// identifier; which one it is, and that no two are the same, rests on chance and
/// is left unsaid. It panics where the system gives no random numbers.
#[verifier::external_body]
pub(crate) fn new_uuid() -> (uuid: String)
    ensures
        is_uuid(uuid@),
{
    uuid::Uuid::new_v4().to_string()
}

impl<S> ServerView<S> {
    /// The state after a device of the account `email` was registered as `uuid`.
    pub open spec fn with_device(
        self,
        email: Seq<char>,
        public_key: Seq<char>,
        uuid: Seq<char>,
    ) -> Self {
        ServerView {
            ids: self.ids.insert(uuid, DeviceView { account: email, uuid, public_key }),
            ..self
        }
    }
}

/// How the list changes when the device `uuid` is registered: it comes last, or it
/// takes the place of the device that had the identifier.
pub open spec fn listed_with<S>(before: Server<S>, after: Server<S>, uuid: Seq<char>) -> bool {
    &&& !before@.ids.contains_key(uuid) ==> after.listed() == before.listed().push(
        after@.ids[uuid],
    )
    &&& forall|i: int|
        0 <= i < before.ids.entries().len() && (#[trigger] before.ids.entries()[i]).0 == uuid
            ==> after.listed() == before.listed().update(i, after@.ids[uuid])
}

/// Registers a device of the account `email` as `uuid`.
pub fn add_device<S>(
    email: String,
    public_key: String,
    uuid: String,
    server: &mut Server<S>,
) -> (reply: String)
    ensures
        final(server)@ == old(server)@.with_device(email@, public_key@, uuid@),
        reply@ == uuid_reply(uuid@),
        listed_with(*old(server), *final(server), uuid@),
        final(server).accounts == old(server).accounts,
        final(server).message_queue == old(server).message_queue,
        final(server).event_stream_senders == old(server).event_stream_senders,
        final(server).ids@.dom() == old(server).ids@.dom().insert(uuid@),
        final(server).ids@[uuid@].account@ == email@,
        final(server).ids@[uuid@].uuid@ == uuid@,
        final(server).ids@[uuid@].public_key@ == public_key@,
        forall|other: Seq<char>|
            other != uuid@ && old(server).ids@.contains_key(other) ==> #[trigger] final(server).ids@[other] == old(server).ids@[other],
        reply@ == "{\"success\": true, \"uuid\": \""@ + uuid@ + "\"}"@,
{
    let reply = uuid_json(uuid.as_str());
    let device = IDSInfo { account: email, uuid: uuid.clone(), public_key };
    let ghost before = *server;
    proof {
        lemma_devices_insert(server.ids@, uuid@, device);
    }
    server.ids.insert(uuid, device);
    proof {
        assert(server@.ids[uuid@] == device@);
        if !before@.ids.contains_key(uuid@) {
            assert(server.listed() =~= before.listed().push(device@));
        }
        assert forall|i: int|
            0 <= i < before.ids.entries().len() && (#[trigger] before.ids.entries()[i]).0
                == uuid@ implies server.listed() == before.listed().update(i, device@) by {
            assert(server.listed() =~= before.listed().update(i, device@));
        }
    }
    reply
}

/// The identifiers of the registered devices.
fn registered<S>(server: &Server<S>) -> (taken: Vec<&String>)
    ensures
        forall|uuid: Seq<char>| #[trigger]
            server.ids@.contains_key(uuid) ==> names(taken@).contains(uuid),
{
    let ghost entries = server.ids.entries();
    let count: usize = server.ids.len();
    let mut taken: Vec<&String> = Vec::new();
    let mut i: usize = 0;
    while i < count
        invariant
            i <= count == entries.len(),
            entries == server.ids.entries(),
            taken@.len() == i,
            forall|k: int| 0 <= k < i ==> #[trigger] names(taken@)[k] == entries[k].0,
        decreases count - i,
    {
        let (uuid, _) = server.ids.entry(i);
        let ghost before = taken@;
        taken.push(uuid);
        assert(names(taken@) =~= names(before).push(uuid@));
        i = i + 1;
    }
    proof {
        assert forall|uuid: Seq<char>| #[trigger]
            server.ids@.contains_key(uuid) implies names(taken@).contains(uuid) by {
            let k = choose|k: int| 0 <= k < entries.len() && (#[trigger] entries[k]).0 == uuid;
            assert(names(taken@)[k] == uuid);
        }
    }
    taken
}

/// Registers a device under a new identifier, if the password is right. The
/// identifier is random, and none that a device already has.
pub fn register_ids<S>(device_info: IDSPost, server: &mut Server<S>) -> (reply: String)
    ensures
        authentic(old(server)@.accounts, device_info.email@, device_info.password@) ==> exists|
            uuid: Seq<char>,
        |
            is_uuid(uuid) && final(server)@ == #[trigger] old(server)@.with_device(
                device_info.email@,
                device_info.public_key@,
                uuid,
            ) && reply@ == uuid_reply(uuid) && listed_with(*old(server), *final(server), uuid)
                && !old(server)@.ids.contains_key(uuid),
        !authentic(old(server)@.accounts, device_info.email@, device_info.password@) ==> {
            &&& *final(server) == *old(server)
            &&& reply@ == error_reply("auth failed"@)
        },
        final(server).accounts == old(server).accounts,
        final(server).message_queue == old(server).message_queue,
        final(server).event_stream_senders == old(server).event_stream_senders,
        if old(server).accounts@.contains_key(device_info.email@)
            && old(server).accounts@[device_info.email@] == DefaultHasher::spec_finish(
            hashed_text(Seq::empty(), device_info.password@),
        ) {
            exists|uuid: Seq<char>| #[trigger]
                final(server).ids@.contains_key(uuid) && !old(server).ids@.contains_key(uuid)
                    && final(server).ids@.dom() == old(server).ids@.dom().insert(uuid) && final(server).ids@[uuid].account@ == device_info.email@ && final(server).ids@[uuid].uuid@ == uuid
                    && final(server).ids@[uuid].public_key@ == device_info.public_key@ && reply@
                    == "{\"success\": true, \"uuid\": \""@ + uuid + "\"}"@
        } else {
            *final(server) == *old(server) && reply@ == "{\"success\": false, \"reason\": \""@
                + "auth failed"@ + "\"}"@
        },
        forall|other: Seq<char>|
            old(server).ids@.contains_key(other) ==> #[trigger] final(server).ids@[other] == old(server).ids@[other],
{
    if authenticate(&server.accounts, device_info.email.as_str(), device_info.password.as_str()) {
        let uuid = fresh_uuid(&registered(server));
        proof {
            assert(!server.ids@.contains_key(uuid@));
            assert(!server@.ids.contains_key(uuid@));
        }
        let reply = add_device(device_info.email, device_info.public_key, uuid, server);
        assert(server.ids@.contains_key(uuid@));
        return reply;
    }
    error_json("auth failed")
}

// ---------------------------------------------------------------------------
// Asking for devices
// ---------------------------------------------------------------------------
/// The number that a hexadecimal digit stands for.
pub open spec fn hex_value(b: u8) -> Option<int> {
    if '0' as u8 <= b <= '9' as u8 {
        Some(b - '0' as u8)
    } else if 'A' as u8 <= b <= 'F' as u8 {
        Some(b - 'A' as u8 + 10)
    } else if 'a' as u8 <= b <= 'f' as u8 {
        Some(b - 'a' as u8 + 10)
    } else {
        None
    }
}

/// The bytes that a percent-encoded text stands for: a percent sign with two
/// hexadecimal digits behind it is one byte, all else stands for itself.
pub open spec fn percent_decoded(b: Seq<u8>) -> Seq<u8>
    decreases b.len(),
{
    if b.len() == 0 {
        Seq::empty()
    } else if b[0] == '%' as u8 && b.len() >= 3 && hex_value(b[1]) is Some && hex_value(b[2])
        is Some {
        seq![(hex_value(b[1])->0 * 16 + hex_value(b[2])->0) as u8] + percent_decoded(b.skip(3))
    } else {
        seq![b[0]] + percent_decoded(b.skip(1))
    }
}

/// The text that a percent-encoded text stands for, if its bytes are UTF-8.
pub open spec fn url_decoded(text: Seq<char>) -> Option<Seq<char>> {
    let bytes = percent_decoded(encode_utf8(text));
    if valid_utf8(bytes) {
        Some(decode_utf8(bytes))
    } else {
        None
    }
}

#[verifier::external_type_specification]
#[verifier::external_body]
pub struct ExFromUtf8Error(std::string::FromUtf8Error);

/// `urlencoding::decode`. Trusted to replace each percent sign and the two
/// hexadecimal digits behind it by their byte, to keep all else (a plus sign
/// too), and to fail where the bytes are not UTF-8.
#[verifier::external_body]
fn url_decode(text: &str) -> (r: Result<String, std::string::FromUtf8Error>)
    ensures
        match r {
            Ok(decoded) => url_decoded(text@) == Some(decoded@),
            Err(_) => url_decoded(text@) is None,
        },
{
    Ok(urlencoding::decode(text)?.into_owned())
}

/// The account that a query names: an empty one, where it cannot be read.
pub open spec fn queried_account(text: Seq<char>) -> Seq<char> {
    match url_decoded(text) {
        Some(account) => account,
        None => Seq::empty(),
    }
}

/// The devices of an account out of a list, in its order.
pub open spec fn devices_of_account(listed: Seq<DeviceView>, account: Seq<char>) -> Seq<
    DeviceView,
> {
    listed.filter(|d: DeviceView| d.account == account)
}

/// `found` holds the devices of an account, and no others.
pub open spec fn are_devices_of<S>(
    server: ServerView<S>,
    found: Seq<DeviceView>,
    account: Seq<char>,
) -> bool {
    forall|d: DeviceView| #[trigger]
        found.contains(d) <==> d.account == account && exists|uuid: Seq<char>| #[trigger]
            server.ids.contains_key(uuid) && server.ids[uuid] == d
}

/// A device as JSON.
pub open spec fn device_json(d: DeviceView) -> Seq<char> {
    json_object(
        seq![
            json_member("account"@, json_string(d.account)),
            json_member("uuid"@, json_string(d.uuid)),
            json_member("public_key"@, json_string(d.public_key)),
        ],
    )
}

/// A list of devices as JSON.
pub open spec fn devices_json(devices: Seq<DeviceView>) -> Seq<char> {
    json_array(devices.map_values(|d: DeviceView| device_json(d)))
}

/// Writes a device as JSON.
pub fn write_device(device: &IDSInfo) -> (json: String)
    ensures
        json@ == device_json(device@),
        read_compact(json@) == Some(
            Json::Object(
                seq![
                    ("account"@, Json::Text(device.account@)),
                    ("uuid"@, Json::Text(device.uuid@)),
                    ("public_key"@, Json::Text(device.public_key@)),
                ],
            ),
        ),
{
    let mut members: Vec<String> = Vec::new();
    members.push(write_member("account", write_string(device.account.as_str()).as_str()));
    members.push(write_member("uuid", write_string(device.uuid.as_str()).as_str()));
    members.push(write_member("public_key", write_string(device.public_key.as_str()).as_str()));
    assert(texts(members@) =~= seq![
        json_member("account"@, json_string(device@.account)),
        json_member("uuid"@, json_string(device@.uuid)),
        json_member("public_key"@, json_string(device@.public_key)),
    ]);
    proof {
        device_text_holds_the_device(device@);
    }
    write_object(&members)
}

proof fn lemma_devices_of_account<S>(server: Server<S>, account: Seq<char>)
    requires
        distinct_keys(server.ids.entries()),
    ensures
        are_devices_of(server@, devices_of_account(server.listed(), account), account),
{
    let entries = server.ids.entries();
    let all = server.listed();
    let of_account = |d: DeviceView| d.account == account;
    let found = all.filter(of_account);
    assert forall|d: DeviceView| #[trigger] found.contains(d) implies d.account == account
        && exists|uuid: Seq<char>| #[trigger]
        server@.ids.contains_key(uuid) && server@.ids[uuid] == d by {
        all.lemma_filter_contains_rev(of_account, d);
        let k = choose|k: int| 0 <= k < found.len() && found[k] == d;
        all.lemma_filter_pred(of_account, k);
        let i = choose|i: int| 0 <= i < all.len() && all[i] == d;
        assert(entries[i].1@ == d);
        let uuid = entries[i].0;
        assert(server@.ids.contains_key(uuid));
        let j = choose|j: int| 0 <= j < entries.len() && (#[trigger] entries[j]).0 == uuid;
        assert(i == j);
        assert(server@.ids[uuid] == d);
    }
    assert forall|d: DeviceView|
        d.account == account && (exists|uuid: Seq<char>| #[trigger]
            server@.ids.contains_key(uuid) && server@.ids[uuid] == d) implies #[trigger]
    found.contains(d) by {
        let uuid = choose|uuid: Seq<char>| #[trigger]
            server@.ids.contains_key(uuid) && server@.ids[uuid] == d;
        assert(server.ids@.contains_key(uuid));
        let j = choose|j: int| 0 <= j < entries.len() && (#[trigger] entries[j]).0 == uuid;
        assert(all[j] == d);
        assert(of_account(all[j]));
        all.lemma_filter_contains(of_account, j);
    }
}

/// Lists the devices of an account as JSON.
pub fn list_devices<S>(account: &String, server: &Server<S>) -> (json: String)
    ensures
        json@ == devices_json(devices_of_account(server.listed(), account@)),
        are_devices_of(server@, devices_of_account(server.listed(), account@), account@),
        distinct_keys(server.ids.entries()),
{
    let ghost entries = server.ids.entries();
    let ghost all = server.listed();
    let ghost of_account = |d: DeviceView| d.account == account@;
    let ghost as_json = |d: DeviceView| device_json(d);
    let mut values: Vec<String> = Vec::new();
    let mut i: usize = 0;
    proof {
        reveal(Seq::filter);
        assert(texts(values@) =~= all.take(0).filter(of_account).map_values(as_json));
    }
    let count: usize = server.ids.len();
    while i < count
        invariant
            count == entries.len(),
            i <= entries.len(),
            entries == server.ids.entries(),
            all == server.listed(),
            of_account == (|d: DeviceView| d.account == account@),
            as_json == (|d: DeviceView| device_json(d)),
            texts(values@) == all.take(i as int).filter(of_account).map_values(as_json),
        decreases entries.len() - i,
    {
        let (_, device) = server.ids.entry(i);
        let ghost before = values@;
        if device.account == *account {
            values.push(write_device(device));
            assert(texts(values@) =~= texts(before).push(device_json(device@)));
        }
        proof {
            reveal(Seq::filter);
            assert(all.take(i + 1).drop_last() =~= all.take(i as int));
            assert(all.take(i + 1).last() == device@);
            assert(texts(values@) =~= all.take(i + 1).filter(of_account).map_values(as_json));
        }
        i = i + 1;
    }
    assert(all.take(i as int) =~= all);
    proof {
        lemma_devices_of_account(*server, account@);
    }
    write_array(&values)
}

/// Lists the devices of the account that a percent-encoded text names.
pub fn query_ids<S>(account: String, server: &Server<S>) -> (reply: String)
    ensures
        reply@ == ids_reply(
            devices_json(devices_of_account(server.listed(), queried_account(account@))),
        ),
        are_devices_of(
            server@,
            devices_of_account(server.listed(), queried_account(account@)),
            queried_account(account@),
        ),
        distinct_keys(server.ids.entries()),
        read_json(reply@) == Some(
            Json::Object(
                seq![
                    ("success"@, Json::Truth(true)),
                    (
                        "ids"@,
                        Json::List(
                            server.listed().filter(
                                |d: DeviceView| d.account == queried_account(account@),
                            ).map_values(
                                |d: DeviceView|
                                    Json::Object(
                                        seq![
                                            ("account"@, Json::Text(d.account)),
                                            ("uuid"@, Json::Text(d.uuid)),
                                            ("public_key"@, Json::Text(d.public_key)),
                                        ],
                                    ),
                            ),
                        ),
                    ),
                ],
            ),
        ),
{
    let ghost asked = queried_account(account@);
    let account = match url_decode(account.as_str()) {
        Ok(decoded) => decoded,
        Err(_) => String::new(),
    };
    proof {
        let found = devices_of_account(server.listed(), asked);
        query_is_read(found);
        assert(found.map_values(|d: DeviceView| device_value(d)) =~= found.map_values(
            |d: DeviceView|
                Json::Object(
                    seq![
                        ("account"@, Json::Text(d.account)),
                        ("uuid"@, Json::Text(d.uuid)),
                        ("public_key"@, Json::Text(d.public_key)),
                    ],
                ),
        ));
    }
    ids_json(list_devices(&account, server).as_str())
}

} // verus!
