//! What a client reads in the texts that the server writes.

use crate::accounts::{device_json, devices_json, is_uuid};
use crate::json::{decimal, escaped, escaped_text, json_member, json_string};
use crate::laws::uuid_reply_is_json;
use crate::reader::{
    list_reads, may_follow, member, member_is_read, member_reads, members_read, number_reads, object_reads,
    past_gap, read_compact, read_json, read_member, read_members, read_value, reads_as,
    string_is_read, string_reads, whole_text_holds, Json,
};
use crate::reply::{error_reply, ids_reply, success_reply, uuid_reply};
use crate::server::DeviceView;
use crate::storage::{accounts_text, ids_text, names_json, queue_text};
use vstd::prelude::*;

verus! {

/// A device as a client reads it.
pub open spec fn device_value(d: DeviceView) -> Json {
    Json::Object(
        seq![
            ("account"@, Json::Text(d.account)),
            ("uuid"@, Json::Text(d.uuid)),
            ("public_key"@, Json::Text(d.public_key)),
        ],
    )
}

/// The text of a device holds its account, its identifier and its key, each under
/// its own name.
pub proof fn device_text_holds_the_device(d: DeviceView)
    ensures
        reads_as(device_json(d), device_value(d)),
        read_compact(device_json(d)) == Some(
            Json::Object(
                seq![
                    ("account"@, Json::Text(d.account)),
                    ("uuid"@, Json::Text(d.uuid)),
                    ("public_key"@, Json::Text(d.public_key)),
                ],
            ),
        ),
{
    let texts = seq![
        json_member("account"@, json_string(d.account)),
        json_member("uuid"@, json_string(d.uuid)),
        json_member("public_key"@, json_string(d.public_key)),
    ];
    let members = seq![
        ("account"@, Json::Text(d.account)),
        ("uuid"@, Json::Text(d.uuid)),
        ("public_key"@, Json::Text(d.public_key)),
    ];
    string_reads(d.account);
    string_reads(d.uuid);
    string_reads(d.public_key);
    member_is_read("account"@, json_string(d.account), Json::Text(d.account));
    member_is_read("uuid"@, json_string(d.uuid), Json::Text(d.uuid));
    member_is_read("public_key"@, json_string(d.public_key), Json::Text(d.public_key));
    assert(members_read(texts, members));
    object_reads(texts, members);
    whole_text_holds(device_json(d), Json::Object(members));
}

/// A reader who looks for the account, the identifier or the key of a device by its
/// name in the text of the device finds it.
pub proof fn device_is_read_by_names(d: DeviceView)
    ensures
        ({
            let value = read_compact(device_json(d))->0;
            &&& read_compact(device_json(d)) is Some
            &&& member(value, "account"@) == Some(Json::Text(d.account))
            &&& member(value, "uuid"@) == Some(Json::Text(d.uuid))
            &&& member(value, "public_key"@) == Some(Json::Text(d.public_key))
        }),
{
    device_text_holds_the_device(d);
    reveal_strlit("account");
    reveal_strlit("uuid");
    reveal_strlit("public_key");
    assert("account"@.len() == 7 && "uuid"@.len() == 4 && "public_key"@.len() == 10);
    let members = seq![
        ("account"@, Json::Text(d.account)),
        ("uuid"@, Json::Text(d.uuid)),
        ("public_key"@, Json::Text(d.public_key)),
    ];
    lemma_member(members, 0);
    lemma_member(members, 1);
    lemma_member(members, 2);
}

proof fn lemma_member(members: Seq<(Seq<char>, Json)>, i: int)
    requires
        0 <= i < members.len(),
        forall|a: int, b: int|
            0 <= a < b < members.len() ==> (#[trigger] members[a]).0 != (#[trigger] members[b]).0,
    ensures
        member(Json::Object(members), members[i].0) == Some(members[i].1),
{
    let name = members[i].0;
    let k = choose|k: int| 0 <= k < members.len() && (#[trigger] members[k]).0 == name;
    assert(members[i].0 == name);
    assert(k == i);
}

/// The text of a list of devices holds the devices, in order.
pub proof fn devices_text_holds_the_devices(list: Seq<DeviceView>)
    ensures
        reads_as(
            devices_json(list),
            Json::List(list.map_values(|d: DeviceView| device_value(d))),
        ),
{
    let texts = list.map_values(|d: DeviceView| device_json(d));
    let values = list.map_values(|d: DeviceView| device_value(d));
    assert forall|i: int| 0 <= i < texts.len() implies reads_as(
        #[trigger] texts[i],
        values[i],
    ) by {
        device_text_holds_the_device(list[i]);
    }
    list_reads(texts, values);
}

// ---------------------------------------------------------------------------
// Answers
// ---------------------------------------------------------------------------
proof fn lemma_truth_reads(truth: bool)
    ensures
        reads_as(
            if truth {
                "true"@
            } else {
                "false"@
            },
            Json::Truth(truth),
        ),
{
    reveal_strlit("true");
    reveal_strlit("false");
    let text = if truth {
        "true"@
    } else {
        "false"@
    };
    assert forall|x: Seq<char>, compact: bool| may_follow(x) implies #[trigger] read_value(
        text + x,
        compact,
    ) == Some((Json::Truth(truth), x)) by {
        let s = text + x;
        if truth {
            assert(s.take(4) =~= seq!['t', 'r', 'u', 'e']);
            assert(s.skip(4) =~= x);
        } else {
            assert(s[0] == 'f');
            assert(s.take(5) =~= seq!['f', 'a', 'l', 's', 'e']);
            assert(s.skip(5) =~= x);
        }
    }
}

/// A member with a space behind its colon is read where the text need not be compact.
proof fn lemma_spaced_member(name: Seq<char>, text: Seq<char>, value: Json, x: Seq<char>)
    requires
        reads_as(text, value),
        may_follow(x),
    ensures
        read_member(json_string(name) + seq![':', ' '] + text + x, false) == Some(
            ((name, value), x),
        ),
{
    let s = json_string(name) + seq![':', ' '] + text + x;
    let behind = text + x;
    let rest = seq![':', ' '] + behind;
    assert(s =~= json_string(name) + rest);
    string_is_read(name, rest);
    assert(rest.skip(1).skip(1) =~= behind);
    assert(rest.skip(1)[0] == ' ');
    assert(past_gap(rest.skip(1), false) == behind);
    assert(read_value(text + x, false) == Some((value, x)));
}

proof fn lemma_answer_of_two(
    first: Seq<char>,
    first_text: Seq<char>,
    first_value: Json,
    second: Seq<char>,
    second_text: Seq<char>,
    second_value: Json,
)
    requires
        reads_as(first_text, first_value),
        reads_as(second_text, second_value),
    ensures
        read_json(
            seq!['{'] + (json_string(first) + seq![':', ' '] + first_text + (seq![',', ' '] + (
            json_string(second) + seq![':', ' '] + second_text + seq!['}']))),
        ) == Some(Json::Object(seq![(first, first_value), (second, second_value)])),
{
    reveal_with_fuel(read_members, 3);
    let close = seq!['}'];
    let tail = json_string(second) + seq![':', ' '] + second_text + close;
    let rest = seq![',', ' '] + tail;
    let inner = json_string(first) + seq![':', ' '] + first_text + rest;
    let s = seq!['{'] + inner;
    lemma_spaced_member(first, first_text, first_value, rest);
    lemma_spaced_member(second, second_text, second_value, close);
    assert(rest.skip(1).skip(1) =~= tail);
    assert(rest.skip(1)[0] == ' ');
    assert(past_gap(rest.skip(1), false) == tail);
    assert(close.skip(1) =~= Seq::empty());
    assert(read_members(tail, false) == Some((seq![(second, second_value)], close.skip(1))));
    assert(seq![(first, first_value)] + seq![(second, second_value)] =~= seq![
        (first, first_value),
        (second, second_value),
    ]);
    assert(read_members(inner, false) == Some(
        (seq![(first, first_value), (second, second_value)], close.skip(1)),
    ));
    assert(s[0] == '{');
    assert(s[1] == '"');
    assert(s.skip(1) =~= inner);
}

/// The text has no quote, no backslash and no control character.
pub open spec fn is_plain(text: Seq<char>) -> bool {
    forall|i: int|
        0 <= i < text.len() ==> #[trigger] text[i] != '"' && text[i] != '\\' && text[i] as u32
            >= 0x20
}

proof fn lemma_plain(text: Seq<char>)
    requires
        is_plain(text),
    ensures
        json_string(text) == seq!['"'] + text + seq!['"'],
        escaped_text(text) == text,
    decreases text.len(),
{
    if text.len() > 0 {
        let front = text.drop_last();
        assert forall|i: int| 0 <= i < front.len() implies #[trigger] front[i] != '"' && front[i]
            != '\\' && front[i] as u32 >= 0x20 by {
            assert(front[i] == text[i]);
        }
        lemma_plain(front);
        assert(text[text.len() - 1] != '"');
        assert(escaped(text.last()) =~= seq![text.last()]);
        assert(escaped_text(text) =~= text);
    }
    assert(escaped_text(text) =~= text);
}

/// A refusal tells that there was no success, and the reason.
pub proof fn refusal_is_read(reason: Seq<char>)
    requires
        is_plain(reason),
    ensures
        read_json(error_reply(reason)) == Some(
            Json::Object(
                seq![("success"@, Json::Truth(false)), ("reason"@, Json::Text(reason))],
            ),
        ),
{
    reveal_strlit("success");
    reveal_strlit("reason");
    reveal_strlit("false");
    reveal_strlit("{\"success\": false, \"reason\": \"");
    reveal_strlit("\"}");
    lemma_plain("success"@);
    lemma_plain("reason"@);
    lemma_plain(reason);
    lemma_truth_reads(false);
    string_reads(reason);
    lemma_answer_of_two(
        "success"@,
        "false"@,
        Json::Truth(false),
        "reason"@,
        json_string(reason),
        Json::Text(reason),
    );
    assert(error_reply(reason) =~= seq!['{'] + (json_string("success"@) + seq![':', ' '] + "false"@
        + (seq![',', ' '] + (json_string("reason"@) + seq![':', ' '] + json_string(reason)
        + seq!['}']))));
}

/// Each reason that the server gives can be read in its refusal.
pub proof fn reasons_are_plain()
    ensures
        is_plain("auth failed"@),
        is_plain("account exists"@),
        is_plain("no recipient"@),
        is_plain("data is not a valid message"@),
{
    reveal_strlit("auth failed");
    reveal_strlit("account exists");
    reveal_strlit("no recipient");
    reveal_strlit("data is not a valid message");
}

/// A confirmation tells the success.
pub proof fn confirmation_is_read()
    ensures
        read_json(success_reply()) == Some(Json::Object(seq![("success"@, Json::Truth(true))])),
{
    reveal_strlit("success");
    reveal_strlit("true");
    reveal_strlit("{\"success\": true}");
    lemma_plain("success"@);
    lemma_truth_reads(true);
    let close = seq!['}'];
    let inner = json_string("success"@) + seq![':', ' '] + "true"@ + close;
    let s = success_reply();
    lemma_spaced_member("success"@, "true"@, Json::Truth(true), close);
    assert(close.skip(1) =~= Seq::empty());
    assert(read_members(inner, false) == Some(
        (seq![("success"@, Json::Truth(true))], close.skip(1)),
    ));
    assert(s =~= seq!['{'] + inner);
    assert(s[1] == '"');
    assert(s.skip(1) =~= inner);
}

/// The answer to a registration tells the success and the identifier.
pub proof fn registration_is_read(uuid: Seq<char>)
    requires
        is_uuid(uuid),
    ensures
        read_json(uuid_reply(uuid)) == Some(
            Json::Object(seq![("success"@, Json::Truth(true)), ("uuid"@, Json::Text(uuid))]),
        ),
{
    reveal_strlit("success");
    reveal_strlit("uuid");
    reveal_strlit("true");
    reveal_strlit("{\"success\": true, \"uuid\": ");
    reveal_strlit("}");
    lemma_plain("success"@);
    lemma_plain("uuid"@);
    uuid_reply_is_json(uuid);
    lemma_truth_reads(true);
    string_reads(uuid);
    lemma_answer_of_two(
        "success"@,
        "true"@,
        Json::Truth(true),
        "uuid"@,
        json_string(uuid),
        Json::Text(uuid),
    );
    assert(uuid_reply(uuid) =~= seq!['{'] + (json_string("success"@) + seq![':', ' '] + "true"@ + (
    seq![',', ' '] + (json_string("uuid"@) + seq![':', ' '] + json_string(uuid) + seq!['}']))));
}

/// The answer to a query tells the success and the devices, in order.
pub proof fn query_is_read(list: Seq<DeviceView>)
    ensures
        read_json(ids_reply(devices_json(list))) == Some(
            Json::Object(
                seq![
                    ("success"@, Json::Truth(true)),
                    ("ids"@, Json::List(list.map_values(|d: DeviceView| device_value(d)))),
                ],
            ),
        ),
{
    reveal_strlit("success");
    reveal_strlit("ids");
    reveal_strlit("true");
    reveal_strlit("{\"success\": true, \"ids\": ");
    reveal_strlit("}");
    lemma_plain("success"@);
    lemma_plain("ids"@);
    lemma_truth_reads(true);
    devices_text_holds_the_devices(list);
    lemma_answer_of_two(
        "success"@,
        "true"@,
        Json::Truth(true),
        "ids"@,
        devices_json(list),
        Json::List(list.map_values(|d: DeviceView| device_value(d))),
    );
    assert(ids_reply(devices_json(list)) =~= seq!['{'] + (json_string("success"@) + seq![':', ' ']
        + "true"@ + (seq![',', ' '] + (json_string("ids"@) + seq![':', ' '] + devices_json(list)
        + seq!['}']))));
}

// ---------------------------------------------------------------------------
// What is kept
// ---------------------------------------------------------------------------
/// The text that is saved of the accounts holds the hash of each account under its
/// address.
pub proof fn accounts_text_holds_the_accounts(entries: Seq<(Seq<char>, u64)>)
    ensures
        read_compact(accounts_text(entries)) == Some(
            Json::Object(
                entries.map_values(|e: (Seq<char>, u64)| (e.0, Json::Number(e.1 as nat))),
            ),
        ),
{
    let texts = entries.map_values(
        |e: (Seq<char>, u64)| json_member(e.0, decimal(e.1 as nat)),
    );
    let members = entries.map_values(|e: (Seq<char>, u64)| (e.0, Json::Number(e.1 as nat)));
    assert forall|i: int| 0 <= i < texts.len() implies member_reads(
        #[trigger] texts[i],
        members[i].0,
        members[i].1,
    ) by {
        let e = entries[i];
        number_reads(e.1 as nat);
        member_is_read(e.0, decimal(e.1 as nat), Json::Number(e.1 as nat));
    }
    object_reads(texts, members);
    whole_text_holds(accounts_text(entries), Json::Object(members));
}

/// The text that is saved of the devices holds each device under its identifier.
pub proof fn ids_text_holds_the_devices(entries: Seq<(Seq<char>, DeviceView)>)
    ensures
        read_compact(ids_text(entries)) == Some(
            Json::Object(entries.map_values(|e: (Seq<char>, DeviceView)| (e.0, device_value(e.1)))),
        ),
{
    let texts = entries.map_values(
        |e: (Seq<char>, DeviceView)| json_member(e.0, device_json(e.1)),
    );
    let members = entries.map_values(|e: (Seq<char>, DeviceView)| (e.0, device_value(e.1)));
    assert forall|i: int| 0 <= i < texts.len() implies member_reads(
        #[trigger] texts[i],
        members[i].0,
        members[i].1,
    ) by {
        let e = entries[i];
        device_text_holds_the_device(e.1);
        member_is_read(e.0, device_json(e.1), device_value(e.1));
    }
    object_reads(texts, members);
    whole_text_holds(ids_text(entries), Json::Object(members));
}

/// A list of file names as it is read.
pub open spec fn names_value(names: Seq<Seq<char>>) -> Json {
    Json::List(names.map_values(|name: Seq<char>| Json::Text(name)))
}

/// The text that is saved of the queues holds, under each device, the names of the
/// files that wait for it, in order.
pub proof fn queue_text_holds_the_queues(entries: Seq<(Seq<char>, Seq<Seq<char>>)>)
    ensures
        read_compact(queue_text(entries)) == Some(
            Json::Object(
                entries.map_values(|e: (Seq<char>, Seq<Seq<char>>)| (e.0, names_value(e.1))),
            ),
        ),
{
    let texts = entries.map_values(
        |e: (Seq<char>, Seq<Seq<char>>)| json_member(e.0, names_json(e.1)),
    );
    let members = entries.map_values(|e: (Seq<char>, Seq<Seq<char>>)| (e.0, names_value(e.1)));
    assert forall|i: int| 0 <= i < texts.len() implies member_reads(
        #[trigger] texts[i],
        members[i].0,
        members[i].1,
    ) by {
        let e = entries[i];
        let name_texts = e.1.map_values(|name: Seq<char>| json_string(name));
        let name_values = e.1.map_values(|name: Seq<char>| Json::Text(name));
        assert forall|k: int| 0 <= k < name_texts.len() implies reads_as(
            #[trigger] name_texts[k],
            name_values[k],
        ) by {
            string_reads(e.1[k]);
        }
        list_reads(name_texts, name_values);
        member_is_read(e.0, names_json(e.1), names_value(e.1));
    }
    object_reads(texts, members);
    whole_text_holds(queue_text(entries), Json::Object(members));
}

} // verus!
