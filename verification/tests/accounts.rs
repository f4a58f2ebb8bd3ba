use courier::accounts::{
    add_device, create_account, list_devices, query_ids, register_ids, write_device,
};
use courier::auth::{authenticate, password_hash};
use courier::reply::error_json;
use courier::server::{Account, IDSInfo, IDSPost, Server};
use std::collections::hash_map::DefaultHasher;
use std::hash::{Hash, Hasher};

const AUTH_FAILED: &str = "{\"success\": false, \"reason\": \"auth failed\"}";

fn account(email: &str, password: &str) -> Account {
    Account { email: email.to_string(), password: password.to_string() }
}

fn post(email: &str, password: &str, key: &str) -> IDSPost {
    IDSPost {
        email: email.to_string(),
        password: password.to_string(),
        public_key: key.to_string(),
    }
}

fn with_account(email: &str, password: &str) -> Server<u8> {
    let mut server: Server<u8> = Server::new();
    create_account(account(email, password), &mut server);
    server
}

fn query(account: &str, server: &Server<u8>) -> String {
    query_ids(account.to_string(), server)
}

#[test]
fn new_server_is_empty() {
    let server: Server<u8> = Server::new();
    assert_eq!(server.accounts.len(), 0);
    assert_eq!(server.ids.len(), 0);
    assert_eq!(server.message_queue.len(), 0);
    assert_eq!(server.event_stream_senders.len(), 0);
}

#[test]
fn error_json_frames_the_reason() {
    assert_eq!(error_json("no recipient"), "{\"success\": false, \"reason\": \"no recipient\"}");
    assert_eq!(error_json(""), "{\"success\": false, \"reason\": \"\"}");
}

#[test]
fn account_is_opened_once() {
    let mut server: Server<u8> = Server::new();
    assert_eq!(create_account(account("a@b.c", "pw"), &mut server), "{\"success\": true}");
    assert_eq!(
        create_account(account("a@b.c", "other"), &mut server),
        "{\"success\": false, \"reason\": \"account exists\"}"
    );
    assert!(authenticate(&server.accounts, "a@b.c", "pw"));
    assert!(!authenticate(&server.accounts, "a@b.c", "other"));
    assert!(!authenticate(&server.accounts, "x@b.c", "pw"));
    assert_eq!(server.accounts.len(), 1);
}

#[test]
fn password_is_kept_as_its_default_hash() {
    for password in ["", "pw", "pässwörd 😝"] {
        let mut hasher = DefaultHasher::new();
        password.to_string().hash(&mut hasher);
        assert_eq!(password_hash(password), hasher.finish());
    }
    let server = with_account("a", "secret");
    assert_eq!(server.accounts.get("a"), Some(&password_hash("secret")));
}

#[test]
fn registration_with_a_wrong_password_is_refused() {
    let mut server = with_account("a", "pw");
    assert_eq!(register_ids(post("a", "no", "k"), &mut server), AUTH_FAILED);
    assert_eq!(register_ids(post("b", "pw", "k"), &mut server), AUTH_FAILED);
    assert_eq!(server.ids.len(), 0);
}

#[test]
fn registration_gives_a_random_identifier() {
    let mut server = with_account("a", "pw");
    let mut seen: Vec<String> = Vec::new();
    for _ in 0..20 {
        let reply = register_ids(post("a", "pw", "key"), &mut server);
        let uuid = reply
            .strip_prefix("{\"success\": true, \"uuid\": \"")
            .and_then(|rest| rest.strip_suffix("\"}"))
            .unwrap()
            .to_string();
        assert_eq!(uuid.len(), 36);
        for (i, c) in uuid.chars().enumerate() {
            if i == 8 || i == 13 || i == 18 || i == 23 {
                assert_eq!(c, '-');
            } else {
                assert!(c.is_ascii_digit() || ('a'..='f').contains(&c));
            }
        }
        assert_eq!(uuid.chars().nth(14), Some('4'));
        assert!("89ab".contains(uuid.chars().nth(19).unwrap()));
        assert!(!seen.contains(&uuid));
        let device = server.ids.get(&uuid).unwrap();
        assert_eq!(device.account, "a");
        assert_eq!(device.uuid, uuid);
        assert_eq!(device.public_key, "key");
        seen.push(uuid);
    }
    assert_eq!(server.ids.len(), 20);
}

#[test]
fn added_device_replaces_the_one_with_its_identifier() {
    let mut server: Server<u8> = Server::new();
    let reply = add_device("a".to_string(), "k1".to_string(), "u".to_string(), &mut server);
    assert_eq!(reply, "{\"success\": true, \"uuid\": \"u\"}");
    add_device("b".to_string(), "k2".to_string(), "v".to_string(), &mut server);
    add_device("c".to_string(), "k3".to_string(), "u".to_string(), &mut server);
    assert_eq!(server.ids.len(), 2);
    assert_eq!(server.ids.entry(0).1.public_key, "k3");
    assert_eq!(server.ids.entry(1).1.public_key, "k2");
}

#[test]
fn query_of_an_unknown_account_is_empty() {
    let server: Server<u8> = Server::new();
    assert_eq!(query("a", &server), "{\"success\": true, \"ids\": []}");
}

#[test]
fn query_lists_the_devices_of_the_account_only() {
    let mut server: Server<u8> = Server::new();
    for (email, key, uuid) in [("a", "k1", "u1"), ("b", "k2", "u2"), ("a", "k3", "u3")] {
        add_device(email.to_string(), key.to_string(), uuid.to_string(), &mut server);
    }
    assert_eq!(
        query("a", &server),
        "{\"success\": true, \"ids\": [{\"account\":\"a\",\"uuid\":\"u1\",\"public_key\":\"k1\"},\
         {\"account\":\"a\",\"uuid\":\"u3\",\"public_key\":\"k3\"}]}"
    );
    assert_eq!(
        list_devices(&"b".to_string(), &server),
        "[{\"account\":\"b\",\"uuid\":\"u2\",\"public_key\":\"k2\"}]"
    );
}

#[test]
fn query_is_percent_decoded() {
    let mut server: Server<u8> = Server::new();
    for (i, email) in ["a+b@c.d", "ä b", "100%", "%zz", "%4A", ""].iter().enumerate() {
        add_device(email.to_string(), "k".to_string(), format!("u{}", i), &mut server);
    }
    let found = |text: &str, uuid: &str| query(text, &server).contains(&format!("\"{}\"", uuid));
    assert!(found("a+b%40c.d", "u0"));
    assert!(found("a+b@c.d", "u0"));
    assert!(!found("a%20b@c.d", "u0"));
    assert!(found("%C3%A4%20b", "u1"));
    assert!(found("%c3%a4 b", "u1"));
    assert!(found("ä b", "u1"));
    assert!(found("100%", "u2"));
    assert!(found("100%25", "u2"));
    assert!(found("%zz", "u3"));
    assert!(found("%254A", "u4"));
    assert!(!found("%4A", "u4"));
}

#[test]
fn query_that_is_not_utf8_asks_for_the_empty_account() {
    let mut server: Server<u8> = Server::new();
    add_device("".to_string(), "k".to_string(), "u".to_string(), &mut server);
    let expected = "{\"success\": true, \"ids\": [{\"account\":\"\",\"uuid\":\"u\",\"public_key\":\"k\"}]}";
    assert_eq!(query("%ff", &server), expected);
    assert_eq!(query("", &server), expected);
}

#[test]
fn device_is_written_as_serde_json_reads_it() {
    let nasty: String = (0u8..=0x7f).map(char::from).chain("é\u{2028}😝\u{7f}".chars()).collect();
    let device = IDSInfo {
        account: nasty.clone(),
        uuid: "u\"\\/".to_string(),
        public_key: "-----BEGIN\nKEY".to_string(),
    };
    let text = write_device(&device);
    let value: serde_json::Value = serde_json::from_str(&text).unwrap();
    assert_eq!(value["account"], serde_json::Value::from(nasty.clone()));
    assert_eq!(value["uuid"], serde_json::Value::from("u\"\\/"));
    assert_eq!(value["public_key"], serde_json::Value::from("-----BEGIN\nKEY"));
    assert_eq!(value.as_object().unwrap().len(), 3);
    assert_eq!(text, serde_json::to_string(&value).unwrap());
}
