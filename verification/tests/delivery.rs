use courier::accounts::{add_device, create_account};
use courier::delivery::{
    message_file, message_path, post_message, queue_message, save_message, saved, sent, PostStep,
    Saving, Sending,
};
use courier::server::{Account, Server};
use courier::wire::ServerMessage;
use prost::encoding::string;

const SUCCESS: &str = "{\"success\": true}";

fn message(email: &str, password: &str, recipient: &str, data: &str) -> Vec<u8> {
    let mut bytes = Vec::new();
    for (tag, value) in [(1, email), (2, password), (3, recipient), (4, data)] {
        string::encode(tag, &value.to_string(), &mut bytes);
    }
    bytes
}

fn server() -> Server<u8> {
    let mut server: Server<u8> = Server::new();
    for email in ["me", "you"] {
        create_account(
            Account { email: email.to_string(), password: format!("{} pw", email) },
            &mut server,
        );
    }
    add_device("you".to_string(), "key".to_string(), "phone".to_string(), &mut server);
    server
}

fn reply(step: PostStep) -> String {
    match step {
        PostStep::Reply(text) => text,
        _ => panic!("no reply"),
    }
}

fn saving(step: PostStep) -> Saving {
    match step {
        PostStep::Save(saving) => saving,
        _ => panic!("nothing to save"),
    }
}

fn sending(step: PostStep) -> Sending {
    match step {
        PostStep::Send(sending) => sending,
        _ => panic!("nothing to send"),
    }
}

fn waiting(server: &Server<u8>, uuid: &str) -> Option<Vec<String>> {
    server.message_queue.get(uuid).cloned()
}

#[test]
fn posts_are_refused_for_the_first_reason() {
    let mut server = server();
    let refused = |bytes: Vec<u8>, server: &mut Server<u8>| reply(post_message(&bytes, server));
    assert_eq!(
        refused(vec![0x0a, 9], &mut server),
        "{\"success\": false, \"reason\": \"data is not a valid message\"}"
    );
    let auth_failed = "{\"success\": false, \"reason\": \"auth failed\"}";
    assert_eq!(refused(message("me", "wrong", "phone", "x"), &mut server), auth_failed);
    assert_eq!(refused(message("them", "pw", "nobody", "x"), &mut server), auth_failed);
    assert_eq!(refused(Vec::new(), &mut server), auth_failed);
    assert_eq!(
        refused(message("me", "me pw", "nobody", "x"), &mut server),
        "{\"success\": false, \"reason\": \"no recipient\"}"
    );
    assert_eq!(server.message_queue.len(), 0);
}

#[test]
fn message_for_a_connected_device_is_sent() {
    let mut server = server();
    server.event_stream_senders.insert("phone".to_string(), 7);
    let sending = sending(post_message(&message("me", "me pw", "phone", "hello"), &mut server));
    assert_eq!(sending.recipient, "phone");
    assert_eq!(sending.message.data, "hello");
    assert_eq!(sending.message.sender, "me");
    assert_eq!(server.event_stream_senders.get("phone"), Some(&7));
    assert_eq!(reply(sent(sending, true, &mut server)), SUCCESS);
    assert_eq!(waiting(&server, "phone"), None);
    assert!(server.event_stream_senders.contains_key("phone"));
}

#[test]
fn message_that_cannot_be_sent_is_saved() {
    let mut server = server();
    server.event_stream_senders.insert("phone".to_string(), 7);
    server.event_stream_senders.insert("tablet".to_string(), 8);
    let sending = sending(post_message(&message("me", "me pw", "phone", "hello"), &mut server));
    let saving = saving(sent(sending, false, &mut server));
    assert!(!server.event_stream_senders.contains_key("phone"));
    assert!(server.event_stream_senders.contains_key("tablet"));
    assert_eq!(waiting(&server, "phone"), Some(vec![]));
    assert_eq!(saving.recipient, "phone");
    let name = saving.file.name.clone();
    assert_eq!(saving.file.path, format!("messages/{}", name));
    let mut expected = Vec::new();
    string::encode(1, &"hello".to_string(), &mut expected);
    string::encode(2, &"me".to_string(), &mut expected);
    assert_eq!(saving.file.bytes, expected);
    assert_eq!(saved(saving, true, &mut server), SUCCESS);
    assert_eq!(waiting(&server, "phone"), Some(vec![name]));
}

#[test]
fn messages_wait_in_the_order_of_their_posts() {
    let mut server = server();
    let mut names = Vec::new();
    for data in ["one", "two", "three"] {
        let saving = saving(post_message(&message("me", "me pw", "phone", data), &mut server));
        names.push(saving.file.name.clone());
        saved(saving, true, &mut server);
    }
    assert_eq!(waiting(&server, "phone"), Some(names));
}

#[test]
fn message_that_cannot_be_written_is_lost() {
    let mut server = server();
    let saving = saving(post_message(&message("me", "me pw", "phone", "x"), &mut server));
    assert_eq!(saved(saving, false, &mut server), SUCCESS);
    assert_eq!(waiting(&server, "phone"), Some(vec![]));
}

#[test]
fn queueing_keeps_what_waits() {
    let mut server = server();
    server.message_queue.insert("phone".to_string(), vec!["old".to_string()]);
    let message = ServerMessage { data: "d".to_string(), sender: "s".to_string() };
    let step = queue_message("phone".to_string(), message, &mut server);
    assert_eq!(waiting(&server, "phone"), Some(vec!["old".to_string()]));
    let saving = saving(step);
    let name = saving.file.name.clone();
    saved(saving, true, &mut server);
    assert_eq!(waiting(&server, "phone"), Some(vec!["old".to_string(), name]));
}

#[test]
fn files_have_new_names_in_one_directory() {
    assert_eq!(message_path("name"), "messages/name");
    let message = ServerMessage { data: "d".to_string(), sender: "s".to_string() };
    let file = message_file(&message, "name".to_string());
    assert_eq!(file.name, "name");
    assert_eq!(file.path, "messages/name");
    assert_eq!(file.bytes, [0x0a, 1, b'd', 0x12, 1, b's']);
    let (a, b) = (save_message(&message), save_message(&message));
    assert!(a.name != b.name);
    assert_eq!(a.bytes, b.bytes);
    assert!(!a.name.contains('/') && !a.name.contains('.'));
    assert_eq!(a.path, format!("messages/{}", a.name));
}
