use courier::accounts::{add_device, create_account, query_ids, register_ids};
use courier::delivery::{post_message, saved, PostStep};
use courier::reply::{error_json, ids_json, success_json, uuid_json};
use courier::server::{Account, IDSPost, Server};
use courier::session::{websocket, Incoming, SessionStep};
use courier::wire::Message;
use prost::encoding::string;

fn encoded(fields: &[(u32, &str)]) -> Vec<u8> {
    let mut bytes = Vec::new();
    for (tag, value) in fields {
        string::encode(*tag, &value.to_string(), &mut bytes);
    }
    bytes
}

fn text(value: &str) -> Incoming {
    Incoming::Text(value.to_string())
}

fn registered(server: &mut Server<u8>, email: &str) -> String {
    create_account(
        Account { email: email.to_string(), password: "pw".to_string() },
        server,
    );
    let reply = register_ids(
        IDSPost {
            email: email.to_string(),
            password: "pw".to_string(),
            public_key: "key".to_string(),
        },
        server,
    );
    let value: serde_json::Value = serde_json::from_str(&reply).unwrap();
    value["uuid"].as_str().unwrap().to_string()
}

#[test]
fn answers_are_json_and_tell_success_from_refusal() {
    for (reply, success) in [
        (success_json(), true),
        (error_json("reason"), false),
        (uuid_json("u"), true),
        (ids_json("[]"), true),
    ] {
        let value: serde_json::Value = serde_json::from_str(&reply).unwrap();
        assert_eq!(value["success"], serde_json::Value::Bool(success));
    }
}

#[test]
fn registered_device_can_be_queried_and_logs_in() {
    let mut server: Server<u8> = Server::new();
    let uuid = registered(&mut server, "a@b.c");
    registered(&mut server, "x@y.z");
    let reply = query_ids("a%40b.c".to_string(), &server);
    let value: serde_json::Value = serde_json::from_str(&reply).unwrap();
    assert_eq!(value["ids"].as_array().unwrap().len(), 1);
    assert_eq!(value["ids"][0]["uuid"], serde_json::Value::from(uuid.clone()));
    let login = websocket(uuid, 1, &mut server);
    let step = login.credentials(text("a@b.c"), text("pw"), &mut server);
    assert!(matches!(step, SessionStep::Ping(_)));
}

fn listed(query: &str, server: &Server<u8>) -> Vec<(String, String, String)> {
    let reply = query_ids(query.to_string(), server);
    let value: serde_json::Value = serde_json::from_str(&reply).unwrap();
    let field = |d: &serde_json::Value, name: &str| d[name].as_str().unwrap().to_string();
    value["ids"]
        .as_array()
        .unwrap()
        .iter()
        .map(|d| (field(d, "account"), field(d, "uuid"), field(d, "public_key")))
        .collect()
}

#[test]
fn registered_device_stays_listed_whatever_happens() {
    let mut server: Server<u8> = Server::new();
    let uuid = registered(&mut server, "a@b.c");
    let device = ("a@b.c".to_string(), uuid.clone(), "key".to_string());
    let second = registered(&mut server, "a@b.c");
    registered(&mut server, "x@y.z");
    let post = encoded(&[(1, "x@y.z"), (2, "pw"), (3, &uuid), (4, "hi")]);
    if let PostStep::Save(saving) = post_message(&post, &mut server) {
        saved(saving, true, &mut server);
    }
    let login = websocket(uuid.clone(), 1, &mut server);
    let mut step = login.credentials(text("a@b.c"), text("pw"), &mut server);
    while let SessionStep::Read(reading) = step {
        step = reading.read(None, &mut server);
    }
    for query in ["a@b.c", "a%40b.c", "%61@b%2ec"] {
        let found = listed(query, &server);
        assert_eq!(found.iter().filter(|d| **d == device).count(), 1);
        assert_eq!(found.iter().filter(|d| d.1 == second).count(), 1);
        assert_eq!(found.len(), 2);
    }
    for query in ["x@y.z", "a%2540b.c", "%ff", "A@b.c", ""] {
        assert!(listed(query, &server).iter().all(|d| d.1 != uuid));
    }
}

#[test]
fn identifier_that_is_given_again_tells_the_later_device() {
    let mut server: Server<u8> = Server::new();
    for (email, key) in [("a", "k1"), ("b", "k2")] {
        add_device(email.to_string(), key.to_string(), "u".to_string(), &mut server);
    }
    assert_eq!(listed("a", &server), []);
    assert_eq!(listed("b", &server), [("b".to_string(), "u".to_string(), "k2".to_string())]);
}

#[test]
fn message_posted_to_an_absent_device_is_delivered_at_its_login() {
    let mut server: Server<u8> = Server::new();
    let uuid = registered(&mut server, "you");
    registered(&mut server, "me");
    let mut files: Vec<(String, Vec<u8>)> = Vec::new();
    for data in ["one", "two"] {
        let post = encoded(&[(1, "me"), (2, "pw"), (3, &uuid), (4, data)]);
        match post_message(&post, &mut server) {
            PostStep::Save(saving) => {
                files.push((saving.file.path.clone(), saving.file.bytes.clone()));
                saved(saving, true, &mut server);
            }
            _ => panic!("nothing to save"),
        }
    }
    let login = websocket(uuid.clone(), 1, &mut server);
    let mut step = login.credentials(text("you"), text("pw"), &mut server);
    let mut received = Vec::new();
    loop {
        step = match step {
            SessionStep::Read(reading) => {
                let path = reading.path();
                let content = files.iter().find(|f| f.0 == path).map(|f| f.1.clone());
                reading.read(content, &mut server)
            }
            SessionStep::Deliver(delivering) => {
                received.push(delivering.bytes().clone());
                delivering.sent(true, &mut server)
            }
            _ => break,
        };
    }
    assert_eq!(
        received,
        [encoded(&[(1, "one"), (2, "me")]), encoded(&[(1, "two"), (2, "me")])]
    );
    assert!(!server.message_queue.contains_key(&uuid));
}

#[test]
fn message_is_read_as_it_was_written() {
    let bytes = encoded(&[(1, "é"), (2, "p"), (3, "r"), (4, "d")]);
    match Message::decode(&bytes) {
        Ok(m) => {
            assert_eq!([m.email, m.password, m.recipient, m.data], ["é", "p", "r", "d"]);
        }
        Err(_) => panic!("no message"),
    }
}

#[test]
fn devices_and_queues_stay_consistent() {
    let mut server: Server<u8> = Server::new();
    let mut uuids = Vec::new();
    for email in ["a", "b", "c"] {
        uuids.push(registered(&mut server, email));
    }
    for uuid in &uuids {
        let post = encoded(&[(1, "a"), (2, "pw"), (3, uuid), (4, "x")]);
        if let PostStep::Save(saving) = post_message(&post, &mut server) {
            saved(saving, true, &mut server);
        }
    }
    for i in 0..server.ids.len() {
        let (uuid, device) = server.ids.entry(i);
        assert_eq!(*uuid, device.uuid);
        assert!(server.accounts.contains_key(&device.account));
    }
    assert_eq!(server.message_queue.len(), 3);
    for i in 0..server.message_queue.len() {
        assert!(server.ids.contains_key(server.message_queue.entry(i).0));
    }
}
