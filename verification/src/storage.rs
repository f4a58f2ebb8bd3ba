//! What is kept while the server is down: accounts, devices and queues, each in a
//! file of its own. Connections are not kept.

use crate::accounts::{device_json, write_device};
use crate::json::{
    array_tells_its_values, decimal, ends_a_value, json_array, json_member, json_object,
    json_string, member_tells, number_tells_its_value, object_tells_its_members, string_tells,
    tells, texts, write_array, write_member, write_number, write_object, write_string, written,
};
use crate::reader::{read_compact, Json};
use crate::server::{devices, queues, DeviceView, IDSInfo, Server, ServerView};
use crate::table::{collected, distinct_keys, entry_map, entry_texts, Table};
use crate::text_laws::{
    accounts_text_holds_the_accounts, device_value, ids_text_holds_the_devices, names_value,
    queue_text_holds_the_queues,
};
use vstd::prelude::*;

verus! {

/// The accounts as JSON: an object with the hash of each account's password.
pub open spec fn accounts_text(entries: Seq<(Seq<char>, u64)>) -> Seq<char> {
    json_object(
        entries.map_values(|e: (Seq<char>, u64)| json_member(e.0, decimal(e.1 as nat))),
    )
}

/// The devices as JSON: an object with the devices by their identifiers.
pub open spec fn ids_text(entries: Seq<(Seq<char>, DeviceView)>) -> Seq<char> {
    json_object(
        entries.map_values(|e: (Seq<char>, DeviceView)| json_member(e.0, device_json(e.1))),
    )
}

/// A list of texts as JSON.
pub open spec fn names_json(names: Seq<Seq<char>>) -> Seq<char> {
    json_array(names.map_values(|name: Seq<char>| json_string(name)))
}

/// The queues as JSON: an object with the list of file names of each device.
pub open spec fn queue_text(entries: Seq<(Seq<char>, Seq<Seq<char>>)>) -> Seq<char> {
    json_object(
        entries.map_values(|e: (Seq<char>, Seq<Seq<char>>)| json_member(e.0, names_json(e.1))),
    )
}

/// A list of entries, with other values.
pub open spec fn with_values<V, W>(
    entries: Seq<(Seq<char>, V)>,
    f: spec_fn(V) -> W,
) -> Seq<(Seq<char>, W)> {
    entries.map_values(|e: (Seq<char>, V)| (e.0, f(e.1)))
}

/// The entries of a list of devices.
pub open spec fn device_entries(entries: Seq<(Seq<char>, IDSInfo)>) -> Seq<
    (Seq<char>, DeviceView),
> {
    with_values(entries, |d: IDSInfo| d@)
}

/// The entries of a list of queues.
pub open spec fn queue_entries(entries: Seq<(Seq<char>, Vec<String>)>) -> Seq<
    (Seq<char>, Seq<Seq<char>>),
> {
    with_values(entries, |q: Vec<String>| texts(q@))
}

/// Writes the accounts.
pub fn accounts_json<S>(server: &Server<S>) -> (json: String)
    ensures
        json@ == accounts_text(server.accounts.entries()),
        distinct_keys(server.accounts.entries()),
        read_compact(json@) == Some(
            Json::Object(
                server.accounts.entries().map_values(
                    |e: (Seq<char>, u64)| (e.0, Json::Number(e.1 as nat)),
                ),
            ),
        ),
{
    let ghost entries = server.accounts.entries();
    let ghost member = |e: (Seq<char>, u64)| json_member(e.0, decimal(e.1 as nat));
    let count: usize = server.accounts.len();
    let mut members: Vec<String> = Vec::new();
    let mut i: usize = 0;
    assert(texts(members@) =~= entries.take(0).map_values(member));
    while i < count
        invariant
            i <= count == entries.len(),
            entries == server.accounts.entries(),
            member == (|e: (Seq<char>, u64)| json_member(e.0, decimal(e.1 as nat))),
            texts(members@) == entries.take(i as int).map_values(member),
        decreases count - i,
    {
        let (email, digest) = server.accounts.entry(i);
        let ghost before = texts(members@);
        members.push(write_member(email.as_str(), write_number(*digest).as_str()));
        proof {
            assert(texts(members@) =~= before.push(member(entries[i as int])));
            assert(texts(members@) =~= entries.take(i + 1).map_values(member));
        }
        i = i + 1;
    }
    assert(entries.take(count as int) =~= entries);
    proof {
        accounts_text_holds_the_accounts(entries);
    }
    write_object(&members)
}

/// Writes the devices.
pub fn ids_json<S>(server: &Server<S>) -> (json: String)
    ensures
        json@ == ids_text(device_entries(server.ids.entries())),
        distinct_keys(server.ids.entries()),
        read_compact(json@) == Some(
            Json::Object(
                server.ids.entries().map_values(
                    |e: (Seq<char>, IDSInfo)|
                        (
                            e.0,
                            Json::Object(
                                seq![
                                    ("account"@, Json::Text(e.1.account@)),
                                    ("uuid"@, Json::Text(e.1.uuid@)),
                                    ("public_key"@, Json::Text(e.1.public_key@)),
                                ],
                            ),
                        ),
                ),
            ),
        ),
{
    let ghost entries = device_entries(server.ids.entries());
    let ghost member = |e: (Seq<char>, DeviceView)| json_member(e.0, device_json(e.1));
    let count: usize = server.ids.len();
    let mut members: Vec<String> = Vec::new();
    let mut i: usize = 0;
    assert(texts(members@) =~= entries.take(0).map_values(member));
    while i < count
        invariant
            i <= count == entries.len(),
            entries == device_entries(server.ids.entries()),
            member == (|e: (Seq<char>, DeviceView)| json_member(e.0, device_json(e.1))),
            texts(members@) == entries.take(i as int).map_values(member),
        decreases count - i,
    {
        let (uuid, device) = server.ids.entry(i);
        let ghost before = texts(members@);
        members.push(write_member(uuid.as_str(), write_device(device).as_str()));
        proof {
            assert(texts(members@) =~= before.push(member(entries[i as int])));
            assert(texts(members@) =~= entries.take(i + 1).map_values(member));
        }
        i = i + 1;
    }
    assert(entries.take(count as int) =~= entries);
    proof {
        ids_text_holds_the_devices(entries);
        assert(entries.map_values(
            |e: (Seq<char>, DeviceView)| (e.0, device_value(e.1)),
        ) =~= server.ids.entries().map_values(
            |e: (Seq<char>, IDSInfo)|
                (
                    e.0,
                    Json::Object(
                        seq![
                            ("account"@, Json::Text(e.1.account@)),
                            ("uuid"@, Json::Text(e.1.uuid@)),
                            ("public_key"@, Json::Text(e.1.public_key@)),
                        ],
                    ),
                ),
        ));
    }
    write_object(&members)
}

fn write_names(names: &Vec<String>) -> (json: String)
    ensures
        json@ == names_json(texts(names@)),
{
    let ghost all = texts(names@);
    let ghost value = |name: Seq<char>| json_string(name);
    let mut values: Vec<String> = Vec::new();
    let mut i: usize = 0;
    assert(texts(values@) =~= all.take(0).map_values(value));
    while i < names.len()
        invariant
            i <= names@.len(),
            all == texts(names@),
            value == (|name: Seq<char>| json_string(name)),
            texts(values@) == all.take(i as int).map_values(value),
        decreases names@.len() - i,
    {
        let ghost before = texts(values@);
        values.push(write_string(names[i].as_str()));
        proof {
            assert(texts(values@) =~= before.push(value(all[i as int])));
            assert(texts(values@) =~= all.take(i + 1).map_values(value));
        }
        i = i + 1;
    }
    assert(all.take(i as int) =~= all);
    write_array(&values)
}

/// Writes the queues.
pub fn queue_json<S>(server: &Server<S>) -> (json: String)
    ensures
        json@ == queue_text(queue_entries(server.message_queue.entries())),
        distinct_keys(server.message_queue.entries()),
        read_compact(json@) == Some(
            Json::Object(
                server.message_queue.entries().map_values(
                    |e: (Seq<char>, Vec<String>)|
                        (
                            e.0,
                            Json::List(e.1@.map_values(|name: String| Json::Text(name@))),
                        ),
                ),
            ),
        ),
{
    let ghost entries = queue_entries(server.message_queue.entries());
    let ghost member = |e: (Seq<char>, Seq<Seq<char>>)| json_member(e.0, names_json(e.1));
    let count: usize = server.message_queue.len();
    let mut members: Vec<String> = Vec::new();
    let mut i: usize = 0;
    assert(texts(members@) =~= entries.take(0).map_values(member));
    while i < count
        invariant
            i <= count == entries.len(),
            entries == queue_entries(server.message_queue.entries()),
            member == (|e: (Seq<char>, Seq<Seq<char>>)| json_member(e.0, names_json(e.1))),
            texts(members@) == entries.take(i as int).map_values(member),
        decreases count - i,
    {
        let (uuid, names) = server.message_queue.entry(i);
        let ghost before = texts(members@);
        members.push(write_member(uuid.as_str(), write_names(names).as_str()));
        proof {
            assert(texts(members@) =~= before.push(member(entries[i as int])));
            assert(texts(members@) =~= entries.take(i + 1).map_values(member));
        }
        i = i + 1;
    }
    assert(entries.take(count as int) =~= entries);
    proof {
        queue_text_holds_the_queues(entries);
        let read = |e: (Seq<char>, Vec<String>)|
            (e.0, Json::List(e.1@.map_values(|name: String| Json::Text(name@))));
        let kept = server.message_queue.entries();
        assert forall|k: int| 0 <= k < kept.len() implies #[trigger] read(kept[k]) == (
            entries[k].0,
            names_value(entries[k].1),
        ) by {
            assert(entries[k].1.map_values(|name: Seq<char>| Json::Text(name))
                =~= kept[k].1@.map_values(|name: String| Json::Text(name@)));
        }
        assert(entries.map_values(
            |e: (Seq<char>, Seq<Seq<char>>)| (e.0, names_value(e.1)),
        ) =~= kept.map_values(read));
    }
    write_object(&members)
}

// ---------------------------------------------------------------------------
// Reading back
// ---------------------------------------------------------------------------
/// A text is not the JSON that it should be.
#[derive(Debug, PartialEq, Eq, Structural)]
pub struct Unreadable;

/// What `serde_json` reads as a map from texts to numbers, if it can.
pub uninterp spec fn parsed_accounts(text: Seq<char>) -> Option<Map<Seq<char>, u64>>;

/// What `serde_json` reads as a map from texts to lists of texts, if it can.
pub uninterp spec fn parsed_queues(text: Seq<char>) -> Option<Map<Seq<char>, Seq<Seq<char>>>>;

/// `serde_json::from_str` to a map from texts to numbers, as a list of its entries
/// in no particular order. Trusted to depend on the text alone, and to read what
/// `accounts_text` says of a list of accounts, the later of two with one address.
#[verifier::external_body]
fn accounts_from_json(text: &str) -> (r: Result<Vec<(String, u64)>, serde_json::Error>)
    ensures
        r is Ok <==> parsed_accounts(text@) is Some,
        r is Ok ==> distinct_keys(entry_texts(r->Ok_0@)) && collected(entry_texts(r->Ok_0@))
            == parsed_accounts(text@)->0,
        forall|entries: Seq<(Seq<char>, u64)>|
            text@ == #[trigger] accounts_text(entries) ==> r is Ok && collected(
                entry_texts(r->Ok_0@),
            ) == collected(entries),
{
    let map: std::collections::HashMap<String, u64> = serde_json::from_str(text)?;
    Ok(map.into_iter().collect())
}

/// `serde_json::from_str` to a map from texts to lists of texts, as a list of its
/// entries in no particular order. Trusted to depend on the text alone, and to read
/// what `queue_text` says of a list of queues, the later of two of one device.
#[verifier::external_body]
fn queues_from_json(text: &str) -> (r: Result<Vec<(String, Vec<String>)>, serde_json::Error>)
    ensures
        r is Ok <==> parsed_queues(text@) is Some,
        r is Ok ==> distinct_keys(entry_texts(r->Ok_0@)) && collected(
            queue_entries(entry_texts(r->Ok_0@)),
        ) == parsed_queues(text@)->0,
        forall|entries: Seq<(Seq<char>, Seq<Seq<char>>)>|
            text@ == #[trigger] queue_text(entries) ==> r is Ok && collected(
                queue_entries(entry_texts(r->Ok_0@)),
            ) == collected(entries),
{
    let map: std::collections::HashMap<String, Vec<String>> = serde_json::from_str(text)?;
    Ok(map.into_iter().collect())
}

/// Reads accounts. What `accounts_json` wrote is read back.
pub fn read_accounts(text: &str) -> (r: Result<Vec<(String, u64)>, Unreadable>)
    ensures
        match r {
            Ok(list) => distinct_keys(entry_texts(list@)) && parsed_accounts(text@) == Some(
                collected(entry_texts(list@)),
            ),
            Err(_) => parsed_accounts(text@) is None,
        },
        forall|entries: Seq<(Seq<char>, u64)>|
            text@ == #[trigger] accounts_text(entries) ==> r is Ok && collected(
                entry_texts(r->Ok_0@),
            ) == collected(entries),
{
    match accounts_from_json(text) {
        Ok(list) => Ok(list),
        Err(_) => Err(Unreadable),
    }
}

/// Reads queues. What `queue_json` wrote is read back.
pub fn read_queues(text: &str) -> (r: Result<Vec<(String, Vec<String>)>, Unreadable>)
    ensures
        match r {
            Ok(list) => distinct_keys(entry_texts(list@)) && parsed_queues(text@) == Some(
                collected(queue_entries(entry_texts(list@))),
            ),
            Err(_) => parsed_queues(text@) is None,
        },
        forall|entries: Seq<(Seq<char>, Seq<Seq<char>>)>|
            text@ == #[trigger] queue_text(entries) ==> r is Ok && collected(
                queue_entries(entry_texts(r->Ok_0@)),
            ) == collected(entries),
{
    match queues_from_json(text) {
        Ok(list) => Ok(list),
        Err(_) => Err(Unreadable),
    }
}

/// The texts are what is saved of the accounts and the queues of a server.
pub open spec fn saved_as<S>(server: Server<S>, accounts: Seq<char>, queue: Seq<char>) -> bool {
    &&& distinct_keys(server.accounts.entries())
    &&& distinct_keys(server.ids.entries())
    &&& distinct_keys(server.message_queue.entries())
    &&& accounts == accounts_text(server.accounts.entries())
    &&& queue == queue_text(queue_entries(server.message_queue.entries()))
}

/// A server with the accounts and queues that the texts hold, and with the devices
/// of a list. Nobody is connected to it. From what was saved of a server comes a
/// server with the same state, but for the connections.
pub fn reload<S>(accounts: &str, ids: Vec<(String, IDSInfo)>, queue: &str) -> (r: Result<
    Server<S>,
    Unreadable,
>)
    ensures
        match r {
            Ok(server) => {
                &&& parsed_accounts(accounts@) is Some && parsed_queues(queue@) is Some
                &&& server@ == (ServerView::<S> {
                    senders: Map::empty(),
                    ids: devices(collected(entry_texts(ids@))),
                    queue: parsed_queues(queue@)->0,
                    accounts: parsed_accounts(accounts@)->0,
                })
            },
            Err(_) => parsed_accounts(accounts@) is None || parsed_queues(queue@) is None,
        },
        forall|before: Server<S>| #[trigger]
            saved_as(before, accounts@, queue@) && same_entries(
                device_entries(entry_texts(ids@)),
                device_entries(before.ids.entries()),
            ) ==> r is Ok && r->Ok_0@ == (ServerView::<S> { senders: Map::empty(), ..before@ }),
{
    let account_list = match read_accounts(accounts) {
        Ok(list) => list,
        Err(e) => return Err(e),
    };
    let queue_list = match read_queues(queue) {
        Ok(list) => list,
        Err(e) => return Err(e),
    };
    let ghost account_entries = entry_texts(account_list@);
    let ghost waiting = entry_texts(queue_list@);
    proof {
        lemma_collected_values(waiting, |q: Vec<String>| texts(q@));
        assert forall|before: Server<S>| #[trigger]
            saved_as(before, accounts@, queue@) && same_entries(
                device_entries(entry_texts(ids@)),
                device_entries(before.ids.entries()),
            ) implies (ServerView::<S> {
            senders: Map::empty(),
            ids: devices(collected(entry_texts(ids@))),
            queue: queues(collected(waiting)),
            accounts: collected(account_entries),
        }) == (ServerView::<S> { senders: Map::empty(), ..before@ }) by {
            lemma_same_state(before, account_entries, entry_texts(ids@), waiting);
        }
    }
    Ok(restore(account_list, ids, queue_list))
}

/// A server with the accounts, devices and queues that were read back. Nobody is
/// connected to it.
pub fn restore<S>(
    accounts: Vec<(String, u64)>,
    ids: Vec<(String, IDSInfo)>,
    queue: Vec<(String, Vec<String>)>,
) -> (server: Server<S>)
    ensures
        server@ == (ServerView::<S> {
            senders: Map::empty(),
            ids: devices(collected(entry_texts(ids@))),
            queue: queues(collected(entry_texts(queue@))),
            accounts: collected(entry_texts(accounts@)),
        }),
        distinct_keys(entry_texts(ids@)) ==> server.listed() == entry_texts(ids@).map_values(
            |e: (Seq<char>, IDSInfo)| e.1@,
        ),
{
    Server {
        event_stream_senders: Table::new(),
        ids: Table::from_entries(ids),
        message_queue: Table::from_entries(queue),
        accounts: Table::from_entries(accounts),
    }
}

/// The entries of a table give back its contents, whatever their order.
pub proof fn entries_give_back_the_map<V>(entries: Seq<(Seq<char>, V)>)
    requires
        distinct_keys(entries),
    ensures
        collected(entries) == entry_map(entries),
    decreases entries.len(),
{
    if entries.len() == 0 {
        assert(collected(entries) =~= entry_map(entries));
    } else {
        let front = entries.drop_last();
        let last = entries.last();
        let n = entries.len() - 1;
        entries_give_back_the_map(front);
        assert forall|key: Seq<char>| #[trigger]
            entry_map(entries).dom().contains(key) == collected(entries).dom().contains(key) by {
            if entry_map(front).dom().contains(key) {
                let i = choose|i: int| 0 <= i < front.len() && (#[trigger] front[i]).0 == key;
                assert(entries[i].0 == key);
            }
            if key == last.0 {
                assert(entries[n].0 == key);
            }
            if entry_map(entries).dom().contains(key) {
                let i = choose|i: int| 0 <= i < entries.len() && (#[trigger] entries[i]).0 == key;
                if i < n {
                    assert(front[i].0 == key);
                }
            }
        }
        assert forall|key: Seq<char>| entry_map(entries).dom().contains(key) implies #[trigger]
        entry_map(entries)[key] == collected(entries)[key] by {
            let i = choose|i: int| 0 <= i < entries.len() && (#[trigger] entries[i]).0 == key;
            if i < n {
                assert(front[i].0 == key);
                let j = choose|j: int| 0 <= j < front.len() && (#[trigger] front[j]).0 == key;
                assert(entries[j].0 == key);
                assert(i == j);
                assert(entries[n].0 != key);
            }
        }
        assert(collected(entries) =~= entry_map(entries));
    }
}

proof fn lemma_collected_values<V, W>(entries: Seq<(Seq<char>, V)>, f: spec_fn(V) -> W)
    ensures
        collected(with_values(entries, f)) == collected(entries).map_values(f),
    decreases entries.len(),
{
    let mapped = with_values(entries, f);
    if entries.len() > 0 {
        lemma_collected_values(entries.drop_last(), f);
        assert(mapped.drop_last() =~= with_values(entries.drop_last(), f));
    }
    assert(collected(mapped) =~= collected(entries).map_values(f));
}

/// Two lists have the same entries, in whatever order.
pub open spec fn same_entries<V>(a: Seq<(Seq<char>, V)>, b: Seq<(Seq<char>, V)>) -> bool {
    &&& distinct_keys(a)
    &&& distinct_keys(b)
    &&& forall|e: (Seq<char>, V)| #[trigger] a.contains(e) <==> b.contains(e)
}

proof fn lemma_entry_of<V>(entries: Seq<(Seq<char>, V)>, key: Seq<char>)
    requires
        distinct_keys(entries),
    ensures
        entry_map(entries).contains_key(key) ==> entries.contains((key, entry_map(entries)[key])),
        forall|v: V| #[trigger]
            entries.contains((key, v)) ==> entry_map(entries).contains_key(key) && entry_map(
                entries,
            )[key] == v,
{
    if entry_map(entries).contains_key(key) {
        let i = choose|i: int| 0 <= i < entries.len() && (#[trigger] entries[i]).0 == key;
        assert(entries[i] == (key, entry_map(entries)[key]));
    }
    assert forall|v: V| #[trigger] entries.contains((key, v)) implies entry_map(
        entries,
    ).contains_key(key) && entry_map(entries)[key] == v by {
        let j = choose|j: int| 0 <= j < entries.len() && entries[j] == (key, v);
        assert(entries[j].0 == key);
        let i = choose|i: int| 0 <= i < entries.len() && (#[trigger] entries[i]).0 == key;
        assert(i == j);
    }
}

/// The order of the entries does not matter.
pub proof fn order_does_not_matter<V>(a: Seq<(Seq<char>, V)>, b: Seq<(Seq<char>, V)>)
    requires
        same_entries(a, b),
    ensures
        collected(a) == collected(b),
{
    entries_give_back_the_map(a);
    entries_give_back_the_map(b);
    let m = entry_map(a);
    let n = entry_map(b);
    assert forall|key: Seq<char>| #[trigger] m.dom().contains(key) == n.dom().contains(key) by {
        lemma_entry_of(a, key);
        lemma_entry_of(b, key);
        if m.contains_key(key) {
            assert(b.contains((key, m[key])));
        }
        if n.contains_key(key) {
            assert(a.contains((key, n[key])));
        }
    }
    assert forall|key: Seq<char>| m.dom().contains(key) implies #[trigger] m[key] == n[key] by {
        lemma_entry_of(a, key);
        lemma_entry_of(b, key);
        assert(b.contains((key, m[key])));
    }
    assert(m =~= n);
}

proof fn lemma_same_state<S>(
    server: Server<S>,
    accounts: Seq<(Seq<char>, u64)>,
    ids: Seq<(Seq<char>, IDSInfo)>,
    queue: Seq<(Seq<char>, Vec<String>)>,
)
    requires
        distinct_keys(server.accounts.entries()),
        distinct_keys(server.ids.entries()),
        distinct_keys(server.message_queue.entries()),
        collected(accounts) == collected(server.accounts.entries()),
        same_entries(device_entries(ids), device_entries(server.ids.entries())),
        collected(queue_entries(queue)) == collected(
            queue_entries(server.message_queue.entries()),
        ),
    ensures
        collected(accounts) == server@.accounts,
        devices(collected(ids)) == server@.ids,
        queues(collected(queue)) == server@.queue,
{
    entries_give_back_the_map(server.accounts.entries());

    let device = |d: IDSInfo| d@;
    order_does_not_matter(device_entries(ids), device_entries(server.ids.entries()));
    lemma_collected_values(ids, device);
    lemma_collected_values(server.ids.entries(), device);
    entries_give_back_the_map(server.ids.entries());

    let names = |q: Vec<String>| texts(q@);
    lemma_collected_values(queue, names);
    lemma_collected_values(server.message_queue.entries(), names);
    entries_give_back_the_map(server.message_queue.entries());
}

/// A restart brings back accounts, devices and queues: a server that is restored
/// from lists that hold what was kept, in whatever order, has the state from
/// before, but for the connections.
pub proof fn restart_restores_the_state<S>(
    server: Server<S>,
    accounts: Seq<(String, u64)>,
    ids: Seq<(String, IDSInfo)>,
    queue: Seq<(String, Vec<String>)>,
)
    requires
        same_entries(entry_texts(accounts), server.accounts.entries()),
        distinct_keys(server.ids.entries()),
        same_entries(
            device_entries(entry_texts(ids)),
            device_entries(server.ids.entries()),
        ),
        distinct_keys(server.message_queue.entries()),
        same_entries(
            queue_entries(entry_texts(queue)),
            queue_entries(server.message_queue.entries()),
        ),
    ensures
        (ServerView::<S> {
            senders: Map::empty(),
            ids: devices(collected(entry_texts(ids))),
            queue: queues(collected(entry_texts(queue))),
            accounts: collected(entry_texts(accounts)),
        }) == (ServerView::<S> { senders: Map::empty(), ..server@ }),
{
    order_does_not_matter(entry_texts(accounts), server.accounts.entries());
    order_does_not_matter(
        queue_entries(entry_texts(queue)),
        queue_entries(server.message_queue.entries()),
    );
    lemma_same_state(server, entry_texts(accounts), entry_texts(ids), entry_texts(queue));
}

// ---------------------------------------------------------------------------
// What the saved texts tell
// ---------------------------------------------------------------------------
proof fn lemma_object_unique<T>(
    write: spec_fn((Seq<char>, T)) -> Seq<char>,
    a: Seq<(Seq<char>, T)>,
    b: Seq<(Seq<char>, T)>,
)
    requires
        tells(write),
        json_object(written(a, write)) == json_object(written(b, write)),
    ensures
        a == b,
{
    object_tells_its_members(write);
    let list = |items: Seq<(Seq<char>, T)>| json_object(written(items, write));
    let end = seq!['}'];
    assert(ends_a_value(end));
    assert(list(a) + end == list(b) + end);
}

/// The text that is saved of the accounts tells each account and its hash.
pub proof fn accounts_text_tells_the_accounts(
    a: Seq<(Seq<char>, u64)>,
    b: Seq<(Seq<char>, u64)>,
)
    requires
        accounts_text(a) == accounts_text(b),
    ensures
        a == b,
{
    let value = |n: u64| decimal(n as nat);
    let member = |e: (Seq<char>, u64)| json_member(e.0, value(e.1));
    number_tells_its_value();
    member_tells(value);
    assert(written(a, member) =~= a.map_values(
        |e: (Seq<char>, u64)| json_member(e.0, decimal(e.1 as nat)),
    ));
    assert(written(b, member) =~= b.map_values(
        |e: (Seq<char>, u64)| json_member(e.0, decimal(e.1 as nat)),
    ));
    lemma_object_unique(member, a, b);
}

/// The text of a device tells the device.
pub proof fn device_text_tells_the_device()
    ensures
        tells(|d: DeviceView| device_json(d)),
{
    let value = |text: Seq<char>| json_string(text);
    let member = |e: (Seq<char>, Seq<char>)| json_member(e.0, value(e.1));
    let list = |items: Seq<(Seq<char>, Seq<char>)>| json_object(written(items, member));
    string_tells();
    member_tells(value);
    object_tells_its_members(member);
    let write = |d: DeviceView| device_json(d);
    assert forall|a: DeviceView, b: DeviceView, x: Seq<char>, y: Seq<char>|
        #![trigger write(a) + x, write(b) + y]
        ends_a_value(x) && ends_a_value(y) && write(a) + x == write(b) + y implies a == b && x
        == y by {
        let p = device_fields(a);
        let q = device_fields(b);
        lemma_device_fields(a);
        lemma_device_fields(b);
        assert(list(p) + x == list(q) + y);
        assert(p == q);
        assert(p[0] == q[0] && p[1] == q[1] && p[2] == q[2]);
        assert(a =~= b);
    }
}

spec fn device_fields(d: DeviceView) -> Seq<(Seq<char>, Seq<char>)> {
    seq![("account"@, d.account), ("uuid"@, d.uuid), ("public_key"@, d.public_key)]
}

proof fn lemma_device_fields(d: DeviceView)
    ensures
        device_json(d) == json_object(
            written(
                device_fields(d),
                |e: (Seq<char>, Seq<char>)|
                    json_member(e.0, (|text: Seq<char>| json_string(text))(e.1)),
            ),
        ),
{
    assert(written(
        device_fields(d),
        |e: (Seq<char>, Seq<char>)| json_member(e.0, (|text: Seq<char>| json_string(text))(e.1)),
    ) =~= seq![
        json_member("account"@, json_string(d.account)),
        json_member("uuid"@, json_string(d.uuid)),
        json_member("public_key"@, json_string(d.public_key)),
    ]);
}

/// The text that is saved of the devices tells each device.
pub proof fn ids_text_tells_the_devices(
    a: Seq<(Seq<char>, DeviceView)>,
    b: Seq<(Seq<char>, DeviceView)>,
)
    requires
        ids_text(a) == ids_text(b),
    ensures
        a == b,
{
    let value = |d: DeviceView| device_json(d);
    let member = |e: (Seq<char>, DeviceView)| json_member(e.0, value(e.1));
    device_text_tells_the_device();
    member_tells(value);
    assert(written(a, member) =~= a.map_values(
        |e: (Seq<char>, DeviceView)| json_member(e.0, device_json(e.1)),
    ));
    assert(written(b, member) =~= b.map_values(
        |e: (Seq<char>, DeviceView)| json_member(e.0, device_json(e.1)),
    ));
    lemma_object_unique(member, a, b);
}

/// The text that is saved of the queues tells which files wait for which device,
/// and in which order.
pub proof fn queue_text_tells_the_queues(
    a: Seq<(Seq<char>, Seq<Seq<char>>)>,
    b: Seq<(Seq<char>, Seq<Seq<char>>)>,
)
    requires
        queue_text(a) == queue_text(b),
    ensures
        a == b,
{
    let name = |text: Seq<char>| json_string(text);
    let value = |names: Seq<Seq<char>>| json_array(written(names, name));
    let member = |e: (Seq<char>, Seq<Seq<char>>)| json_member(e.0, value(e.1));
    string_tells();
    array_tells_its_values(name);
    member_tells(value);
    assert(written(a, member) =~= a.map_values(
        |e: (Seq<char>, Seq<Seq<char>>)| json_member(e.0, names_json(e.1)),
    ));
    assert(written(b, member) =~= b.map_values(
        |e: (Seq<char>, Seq<Seq<char>>)| json_member(e.0, names_json(e.1)),
    ));
    lemma_object_unique(member, a, b);
}

} // verus!
