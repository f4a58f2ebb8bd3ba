use courier::accounts::{add_device, create_account};
use courier::server::{Account, Server};
use courier::session::{websocket, Incoming, Login, SessionStep, Waiting};
use courier::wire::ServerMessage;

fn server() -> Server<u8> {
    let mut server: Server<u8> = Server::new();
    for email in ["", "me", "you"] {
        create_account(
            Account { email: email.to_string(), password: "pw".to_string() },
            &mut server,
        );
    }
    add_device("me".to_string(), "key".to_string(), "phone".to_string(), &mut server);
    server
}

fn text(value: &str) -> Incoming {
    Incoming::Text(value.to_string())
}

fn refusal(login: Login, email: Incoming, password: Incoming, server: &mut Server<u8>) -> String {
    match login.credentials(email, password, server) {
        SessionStep::Refuse(text) => text,
        _ => panic!("not refused"),
    }
}

fn connect(uuid: &str, server: &mut Server<u8>) -> Login {
    websocket(uuid.to_string(), 1, server)
}

#[test]
fn connecting_replaces_the_connection_before_any_login() {
    let mut server = server();
    websocket("phone".to_string(), 1, &mut server);
    websocket("phone".to_string(), 2, &mut server);
    websocket("stranger".to_string(), 3, &mut server);
    assert_eq!(server.event_stream_senders.get("phone"), Some(&2));
    assert_eq!(server.event_stream_senders.get("stranger"), Some(&3));
}

#[test]
fn login_is_refused_for_the_first_reason() {
    let mut server = server();
    let mut refused = |email: Incoming, password: Incoming| {
        let login = connect("phone", &mut server);
        refusal(login, email, password, &mut server)
    };
    assert_eq!(refused(Incoming::Missing, Incoming::Broken), "no password sent!");
    assert_eq!(refused(Incoming::NotText, Incoming::Missing), "no password sent!");
    assert_eq!(refused(text("me"), Incoming::Missing), "no password sent!");
    assert_eq!(refused(Incoming::Broken, Incoming::NotText), "password is err!");
    assert_eq!(refused(text("me"), Incoming::Broken), "password is err!");
    assert_eq!(refused(Incoming::NotText, text("pw")), "password is not a string!");
    assert_eq!(refused(text("me"), Incoming::NotText), "password is not a string!");
    assert_eq!(refused(text("me"), text("wrong")), "password hash did not match!");
    assert_eq!(refused(text("you"), text("pw")), "password hash did not match!");
    assert_eq!(refused(text("them"), text("pw")), "password hash did not match!");
}

#[test]
fn login_goes_by_what_was_there_at_the_connection() {
    let mut server = server();
    let login = connect("tablet", &mut server);
    add_device("me".to_string(), "key".to_string(), "tablet".to_string(), &mut server);
    assert_eq!(
        refusal(login, text("me"), text("pw"), &mut server),
        "password hash did not match!"
    );
    let login = connect("tablet", &mut server);
    assert!(matches!(login.credentials(text("me"), text("pw"), &mut server), SessionStep::Ping(_)));
}

#[test]
fn unregistered_device_logs_in_with_the_empty_account_only() {
    let mut server = server();
    let login = connect("stranger", &mut server);
    assert_eq!(
        refusal(login, text("me"), text("pw"), &mut server),
        "password hash did not match!"
    );
    let login = connect("stranger", &mut server);
    assert!(matches!(login.credentials(text(""), text("pw"), &mut server), SessionStep::Ping(_)));
}

#[test]
fn refused_login_keeps_what_waits() {
    let mut server = server();
    server.message_queue.insert("phone".to_string(), vec!["f".to_string()]);
    let login = connect("phone", &mut server);
    refusal(login, text("me"), text("wrong"), &mut server);
    assert!(server.message_queue.contains_key("phone"));
}

#[test]
fn files_are_delivered_in_order_and_unreadable_ones_passed_over() {
    let mut server = server();
    let names: Vec<String> = ["a", "b", "c", "d"].iter().map(|s| s.to_string()).collect();
    server.message_queue.insert("phone".to_string(), names);
    server.message_queue.insert("tablet".to_string(), vec!["x".to_string()]);
    let login = connect("phone", &mut server);
    let mut step = login.credentials(text("me"), text("pw"), &mut server);
    let mut read = Vec::new();
    let mut delivered = Vec::new();
    loop {
        step = match step {
            SessionStep::Read(reading) => {
                assert!(server.message_queue.contains_key("phone"));
                let path = reading.path();
                let content = if path == "messages/b" || path == "messages/d" {
                    None
                } else {
                    Some(path.clone().into_bytes())
                };
                read.push(path);
                reading.read(content, &mut server)
            }
            SessionStep::Deliver(delivering) => {
                assert_eq!(delivering.path().into_bytes(), *delivering.bytes());
                delivered.push(delivering.path());
                delivering.sent(true, &mut server)
            }
            SessionStep::Ping(_) => break,
            _ => panic!("unexpected step"),
        };
    }
    assert_eq!(read, ["messages/a", "messages/b", "messages/c", "messages/d"]);
    assert_eq!(delivered, ["messages/a", "messages/c"]);
    assert!(!server.message_queue.contains_key("phone"));
    assert!(server.message_queue.contains_key("tablet"));
}

#[test]
fn failed_delivery_closes_and_keeps_the_queue() {
    let mut server = server();
    server.message_queue.insert("phone".to_string(), vec!["a".to_string(), "b".to_string()]);
    let login = connect("phone", &mut server);
    let step = login.credentials(text("me"), text("pw"), &mut server);
    let step = match step {
        SessionStep::Read(reading) => reading.read(Some(vec![1]), &mut server),
        _ => panic!("nothing to read"),
    };
    match step {
        SessionStep::Deliver(delivering) => {
            assert!(matches!(delivering.sent(false, &mut server), SessionStep::Close));
        }
        _ => panic!("nothing to deliver"),
    }
    assert_eq!(
        server.message_queue.get("phone"),
        Some(&vec!["a".to_string(), "b".to_string()])
    );
}

#[test]
fn empty_queue_is_dropped_at_login() {
    let mut server = server();
    server.message_queue.insert("phone".to_string(), Vec::new());
    let login = connect("phone", &mut server);
    assert!(matches!(login.credentials(text("me"), text("pw"), &mut server), SessionStep::Ping(_)));
    assert!(!server.message_queue.contains_key("phone"));
}

#[test]
fn live_connection_is_pinged_every_sixtieth_round() {
    let mut server = server();
    let login = connect("phone", &mut server);
    let mut step = login.credentials(text("me"), text("pw"), &mut server);
    for round in 0..200 {
        if round % 60 == 0 {
            step = match step {
                SessionStep::Ping(pinging) => {
                    assert_eq!(pinging.text(), "😝");
                    pinging.sent(true)
                }
                _ => panic!("no ping"),
            };
        }
        let polling = match step {
            SessionStep::Poll(polling) => polling,
            _ => panic!("no poll"),
        };
        let message = if round % 7 == 0 {
            Some(ServerMessage { data: "d".to_string(), sender: "s".to_string() })
        } else {
            None
        };
        step = polling.polled(message);
        if round % 7 == 0 {
            step = match step {
                SessionStep::Forward(forwarding) => {
                    assert_eq!(forwarding.bytes, [0x0a, 1, b'd', 0x12, 1, b's']);
                    forwarding.sent(true)
                }
                _ => panic!("nothing to forward"),
            };
        }
        step = match step {
            SessionStep::Wait(waiting) => waiting.rested(),
            _ => panic!("no rest"),
        };
    }
}

#[test]
fn live_connection_ends_where_sending_fails() {
    let mut server = server();
    let login = connect("phone", &mut server);
    match login.credentials(text("me"), text("pw"), &mut server) {
        SessionStep::Ping(pinging) => assert!(matches!(pinging.sent(false), SessionStep::Close)),
        _ => panic!("no ping"),
    }
    let polling = match (Waiting { idle: 3 }).rested() {
        SessionStep::Poll(polling) => polling,
        _ => panic!("no poll"),
    };
    assert_eq!(polling.idle, 4);
    let message = ServerMessage { data: "d".to_string(), sender: "s".to_string() };
    match polling.polled(Some(message)) {
        SessionStep::Forward(forwarding) => {
            assert!(matches!(forwarding.sent(false), SessionStep::Close));
        }
        _ => panic!("nothing to forward"),
    }
    assert!(matches!((Waiting { idle: u32::MAX }).rested(), SessionStep::Ping(_)));
}
