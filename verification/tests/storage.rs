use courier::accounts::{add_device, create_account, query_ids};
use courier::auth::{authenticate, password_hash};
use courier::server::{Account, IDSInfo, Server};
use courier::storage::{
    accounts_json, ids_json, queue_json, read_accounts, read_queues, reload, restore, Unreadable,
};
use courier::table::Table;
use std::collections::HashMap;

fn server() -> Server<u8> {
    let mut server: Server<u8> = Server::new();
    for email in ["me", "yo\"u"] {
        create_account(
            Account { email: email.to_string(), password: format!("{} pw", email) },
            &mut server,
        );
    }
    add_device("me".to_string(), "k\n1".to_string(), "u1".to_string(), &mut server);
    add_device("yo\"u".to_string(), "k2".to_string(), "u2".to_string(), &mut server);
    server.message_queue.insert("u1".to_string(), vec!["f1".to_string(), "f2".to_string()]);
    server.message_queue.insert("u2".to_string(), Vec::new());
    server
}

#[test]
fn empty_server_is_saved_as_empty_objects() {
    let server: Server<u8> = Server::new();
    assert_eq!(accounts_json(&server), "{}");
    assert_eq!(ids_json(&server), "{}");
    assert_eq!(queue_json(&server), "{}");
}

#[test]
fn state_is_saved_as_json() {
    let server = server();
    assert_eq!(
        accounts_json(&server),
        format!(
            "{{\"me\":{},\"yo\\\"u\":{}}}",
            password_hash("me pw"),
            password_hash("yo\"u pw")
        )
    );
    assert_eq!(
        ids_json(&server),
        "{\"u1\":{\"account\":\"me\",\"uuid\":\"u1\",\"public_key\":\"k\\n1\"},\
         \"u2\":{\"account\":\"yo\\\"u\",\"uuid\":\"u2\",\"public_key\":\"k2\"}}"
    );
    assert_eq!(queue_json(&server), "{\"u1\":[\"f1\",\"f2\"],\"u2\":[]}");
}

#[test]
fn single_entries_are_saved_as_serde_json_saves_maps() {
    let mut server: Server<u8> = Server::new();
    server.accounts.insert("a\u{1}".to_string(), u64::MAX);
    server.message_queue.insert("u".to_string(), vec!["x\t".to_string(), "/".to_string()]);
    let mut accounts: HashMap<String, u64> = HashMap::new();
    accounts.insert("a\u{1}".to_string(), u64::MAX);
    assert_eq!(accounts_json(&server), serde_json::to_string(&accounts).unwrap());
    let mut queue: HashMap<String, Vec<String>> = HashMap::new();
    queue.insert("u".to_string(), vec!["x\t".to_string(), "/".to_string()]);
    assert_eq!(queue_json(&server), serde_json::to_string(&queue).unwrap());
}

#[test]
fn saved_state_is_restored() {
    let server = server();
    let ids: HashMap<String, HashMap<String, String>> =
        serde_json::from_str(&ids_json(&server)).unwrap();
    let ids = ids
        .into_iter()
        .map(|(uuid, d)| {
            (
                uuid,
                IDSInfo {
                    account: d["account"].clone(),
                    uuid: d["uuid"].clone(),
                    public_key: d["public_key"].clone(),
                },
            )
        })
        .collect();
    let restored: Result<Server<u8>, Unreadable> =
        reload(&accounts_json(&server), ids, &queue_json(&server));
    let restored = restored.unwrap_or_else(|_| panic!("the state is readable"));
    assert!(authenticate(&restored.accounts, "me", "me pw"));
    assert!(authenticate(&restored.accounts, "yo\"u", "yo\"u pw"));
    assert_eq!(restored.accounts.len(), 2);
    assert_eq!(
        query_ids("me".to_string(), &restored),
        query_ids("me".to_string(), &server)
    );
    assert_eq!(restored.ids.len(), 2);
    assert_eq!(
        restored.message_queue.get("u1"),
        Some(&vec!["f1".to_string(), "f2".to_string()])
    );
    assert_eq!(restored.message_queue.get("u2"), Some(&Vec::new()));
    assert_eq!(restored.event_stream_senders.len(), 0);
}

#[test]
fn accounts_are_read() {
    let mut list = read_accounts(" {\"b\": 18446744073709551615, \"a\\u0001\":0}\n").unwrap();
    list.sort();
    assert_eq!(list, [("a\u{1}".to_string(), 0), ("b".to_string(), u64::MAX)]);
    assert_eq!(
        read_accounts("{\"a\":1,\"a\":2}"),
        Ok(vec![("a".to_string(), 2)])
    );
    for text in ["", "[]", "{\"a\":-1}", "{\"a\":\"1\"}", "{\"a\":1}}", "{\"a\":01}"] {
        assert_eq!(read_accounts(text), Err(Unreadable));
    }
}

#[test]
fn queues_are_read() {
    assert_eq!(
        read_queues("{\"u\":[\"x\\t\",\"/\"]}"),
        Ok(vec![("u".to_string(), vec!["x\t".to_string(), "/".to_string()])])
    );
    assert_eq!(read_queues("{}"), Ok(Vec::new()));
    for text in ["", "{\"u\":\"x\"}", "{\"u\":[1]}", "{\"u\":[\"x\"]"] {
        assert_eq!(read_queues(text), Err(Unreadable));
    }
}

#[test]
fn every_character_is_read_back() {
    let mut server: Server<u8> = Server::new();
    let text: String = (0u32..0x3000).chain(0x1f600..0x1f640).filter_map(char::from_u32).collect();
    server.accounts.insert(text.clone(), 10);
    server.message_queue.insert(text.clone(), vec![text.clone()]);
    assert_eq!(read_accounts(&accounts_json(&server)), Ok(vec![(text.clone(), 10)]));
    assert_eq!(read_queues(&queue_json(&server)), Ok(vec![(text.clone(), vec![text])]));
}

#[test]
fn unreadable_state_is_not_reloaded() {
    for (accounts, queue) in [("", "{}"), ("{}", ""), ("[]", "[]")] {
        let reloaded: Result<Server<u8>, Unreadable> = reload(accounts, Vec::new(), queue);
        assert!(reloaded.is_err());
    }
    let reloaded: Result<Server<u8>, Unreadable> = reload("{}", Vec::new(), "{}");
    assert!(reloaded.is_ok());
}

#[test]
fn later_entry_of_a_key_is_restored() {
    let restored: Server<u8> = restore(
        vec![("a".to_string(), 1), ("b".to_string(), 2), ("a".to_string(), 3)],
        Vec::new(),
        Vec::new(),
    );
    assert_eq!(restored.accounts.get("a"), Some(&3));
    assert_eq!(restored.accounts.len(), 2);
}

#[test]
fn table_keeps_its_places() {
    let mut table: Table<u32> = Table::new();
    for (i, key) in ["a", "b", "c", "d"].iter().enumerate() {
        table.insert(key.to_string(), i as u32);
    }
    table.insert("b".to_string(), 9);
    assert_eq!(table.len(), 4);
    assert_eq!(table.get("b"), Some(&9));
    assert_eq!(table.remove("a"), Some(0));
    assert_eq!(table.remove("a"), None);
    let keys: Vec<String> = (0..table.len()).map(|i| table.entry(i).0.clone()).collect();
    assert_eq!(keys, ["d", "b", "c"]);
    assert_eq!(table.remove("c"), Some(2));
    assert_eq!(table.get("d"), Some(&3));
    assert!(!table.contains_key("c"));
    let copy = table.copied();
    assert_eq!(copy.len(), 2);
    assert_eq!(copy.get("b"), Some(&9));
    assert_eq!(copy.get("a"), None);
}
