//! The life of a device's connection: the login, the files that waited for the
//! device, and then the messages as they come, with a ping every half minute.
//!
//! Each step says what the caller is to do, and is gone on with by what came of it.

use crate::auth::{authentic, authenticate, hashed_text};
use crate::delivery::{message_path, message_path_text};
use crate::json::texts;
use crate::server::{lemma_queues_remove, Server, ServerView};
use crate::table::Table;
use crate::wire::{ServerMessage, ServerMessageView};
use std::collections::hash_map::DefaultHasher;
use vstd::prelude::*;
use vstd::std_specs::hash::DefaultHasherAdditionalSpecFns;

verus! {

/// The number of half seconds after which a ping is due.
pub const PING_AFTER: u32 = 60;

/// How long ago, in half seconds, the last ping counts as sent when a connection
/// goes live: the first ping is due at once.
pub const IDLE_AT_START: u32 = 62;

/// What came when a frame was awaited.
pub enum Incoming {
    /// The connection was closed.
    Missing,
    /// The connection failed.
    Broken,
    /// A frame that is not text.
    NotText,
    /// A text.
    Text(String),
}

/// Why a login is refused, if it is: the first of these that applies. `owner` is
/// the account of the device, and empty if the device is not registered.
pub open spec fn login_refusal(
    accounts: Map<Seq<char>, u64>,
    owner: Seq<char>,
    email: Incoming,
    password: Incoming,
) -> Option<Seq<char>> {
    if email is Missing || password is Missing {
        Some("no password sent!"@)
    } else if email is Broken || password is Broken {
        Some("password is err!"@)
    } else if email is NotText || password is NotText {
        Some("password is not a string!"@)
    } else if !authentic(accounts, email->Text_0@, password->Text_0@) || owner != email->Text_0@ {
        Some("password hash did not match!"@)
    } else {
        None
    }
}

/// A connection whose login is awaited. It knows the accounts, and the account of
/// its device, as they were when the connection was made.
pub struct Login {
    pub uuid: String,
    pub accounts: Table<u64>,
    pub owner: String,
}

/// A connection on its way through the files that waited for the device: the
/// first that is left is to be read.
pub struct Reading {
    uuid: String,
    files: Vec<String>,
    next: usize,
}

/// A connection to which the first file that is left is to be sent.
pub struct Delivering {
    uuid: String,
    files: Vec<String>,
    next: usize,
    bytes: Vec<u8>,
}

/// A live connection to which a ping is to be sent.
pub struct Pinging {}

/// A live connection for which a new message is looked for. The last ping was
/// sent `idle` half seconds ago.
pub struct Polling {
    pub idle: u32,
}

/// A live connection to which a new message is to be sent.
pub struct Forwarding {
    pub idle: u32,
    pub bytes: Vec<u8>,
}

/// A live connection that rests for half a second.
pub struct Waiting {
    pub idle: u32,
}

/// What is to be done next for a connection.
pub enum SessionStep {
    /// Send this text and close the connection.
    Refuse(String),
    /// Read the file, and go on with `Reading::read`.
    Read(Reading),
    /// Remove the file and send its bytes, and go on with `Delivering::sent`.
    Deliver(Delivering),
    /// Send a ping, and go on with `Pinging::sent`.
    Ping(Pinging),
    /// Look for a message, and go on with `Polling::polled`.
    Poll(Polling),
    /// Send the bytes, and go on with `Forwarding::sent`.
    Forward(Forwarding),
    /// Wait, and go on with `Waiting::rested`.
    Wait(Waiting),
    /// Close the connection.
    Close,
}

/// What a step asks for. `left` are the names of the files that still wait.
pub enum StepView {
    Refuse { text: Seq<char> },
    Read { uuid: Seq<char>, left: Seq<Seq<char>> },
    Deliver { uuid: Seq<char>, left: Seq<Seq<char>>, bytes: Seq<u8> },
    Ping,
    Poll { idle: int },
    Forward { idle: int, bytes: Seq<u8> },
    Wait { idle: int },
    Close,
}

impl View for Reading {
    type V = (Seq<char>, Seq<Seq<char>>);

    closed spec fn view(&self) -> (Seq<char>, Seq<Seq<char>>) {
        (self.uuid@, texts(self.files@).skip(self.next as int))
    }
}

impl View for Delivering {
    type V = (Seq<char>, Seq<Seq<char>>, Seq<u8>);

    closed spec fn view(&self) -> (Seq<char>, Seq<Seq<char>>, Seq<u8>) {
        (self.uuid@, texts(self.files@).skip(self.next as int), self.bytes@)
    }
}

impl View for SessionStep {
    type V = StepView;

    open spec fn view(&self) -> StepView {
        match *self {
            SessionStep::Refuse(text) => StepView::Refuse { text: text@ },
            SessionStep::Read(reading) => StepView::Read { uuid: reading@.0, left: reading@.1 },
            SessionStep::Deliver(delivering) => StepView::Deliver {
                uuid: delivering@.0,
                left: delivering@.1,
                bytes: delivering@.2,
            },
            SessionStep::Ping(_) => StepView::Ping,
            SessionStep::Poll(polling) => StepView::Poll { idle: polling.idle as int },
            SessionStep::Forward(forwarding) => StepView::Forward {
                idle: forwarding.idle as int,
                bytes: forwarding.bytes@,
            },
            SessionStep::Wait(waiting) => StepView::Wait { idle: waiting.idle as int },
            SessionStep::Close => StepView::Close,
        }
    }
}

// ---------------------------------------------------------------------------
// The steps
// ---------------------------------------------------------------------------
/// A round of a live connection begins, half a second after the last: a ping is
/// sent where one is due, else a message is looked for.
pub open spec fn round(idle: int) -> StepView {
    if idle + 1 >= PING_AFTER {
        StepView::Ping
    } else {
        StepView::Poll { idle: idle + 1 }
    }
}

/// The next file is read; after the last one the connection goes live.
pub open spec fn next_file(uuid: Seq<char>, left: Seq<Seq<char>>) -> StepView {
    if left.len() > 0 {
        StepView::Read { uuid, left }
    } else {
        round(IDLE_AT_START as int)
    }
}

/// A file was read: it is delivered. One that cannot be read is passed over.
pub open spec fn after_read(
    uuid: Seq<char>,
    left: Seq<Seq<char>>,
    content: Option<Seq<u8>>,
) -> StepView {
    match content {
        Some(bytes) => StepView::Deliver { uuid, left, bytes },
        None => next_file(uuid, left.drop_first()),
    }
}

/// A file was sent: the next one follows. The connection ends where sending fails.
pub open spec fn after_delivery(uuid: Seq<char>, left: Seq<Seq<char>>, ok: bool) -> StepView {
    if ok {
        next_file(uuid, left.drop_first())
    } else {
        StepView::Close
    }
}

/// A ping was sent: a message is looked for.
pub open spec fn after_ping(ok: bool) -> StepView {
    if ok {
        StepView::Poll { idle: 0 }
    } else {
        StepView::Close
    }
}

/// A message is sent if there is one.
pub open spec fn after_poll(idle: int, message: Option<ServerMessageView>) -> StepView {
    match message {
        Some(m) => StepView::Forward { idle, bytes: m.encoded() },
        None => StepView::Wait { idle },
    }
}

/// A message was sent: the round is over.
pub open spec fn after_forward(idle: int, ok: bool) -> StepView {
    if ok {
        StepView::Wait { idle }
    } else {
        StepView::Close
    }
}

impl<S> ServerView<S> {
    /// The account of a device, empty if the device is not registered.
    pub open spec fn owner(self, uuid: Seq<char>) -> Seq<char> {
        if self.ids.contains_key(uuid) {
            self.ids[uuid].account
        } else {
            Seq::empty()
        }
    }

    /// The state after a device connected.
    pub open spec fn connected(self, uuid: Seq<char>, sender: S) -> Self {
        ServerView { senders: self.senders.insert(uuid, sender), ..self }
    }

    /// The state when `left` files are left for a device: after the last one its
    /// queue is dropped.
    pub open spec fn with_left(self, uuid: Seq<char>, left: Seq<Seq<char>>) -> Self {
        if left.len() == 0 {
            ServerView { queue: self.queue.remove(uuid), ..self }
        } else {
            self
        }
    }
}

/// Takes a connection in: from now on messages for the device go to `sender`.
pub fn websocket<S>(uuid: String, sender: S, server: &mut Server<S>) -> (login: Login)
    ensures
        final(server)@ == old(server)@.connected(uuid@, sender),
        login.uuid@ == uuid@,
        login.accounts@ == old(server)@.accounts,
        login.owner@ == old(server)@.owner(uuid@),
        final(server).listed() == old(server).listed(),
        final(server).event_stream_senders@ == old(server).event_stream_senders@.insert(
            uuid@,
            sender,
        ),
        final(server).accounts == old(server).accounts,
        final(server).ids == old(server).ids,
        final(server).message_queue == old(server).message_queue,
        login.accounts@ == old(server).accounts@,
        login.owner@ == if old(server).ids@.contains_key(uuid@) {
            old(server).ids@[uuid@].account@
        } else {
            Seq::empty()
        },
{
    let accounts = server.accounts.copied();
    let owner = match server.ids.get(uuid.as_str()) {
        Some(device) => device.account.clone(),
        None => String::new(),
    };
    server.event_stream_senders.insert(uuid.clone(), sender);
    Login { uuid, accounts, owner }
}

impl Login {
    /// Checks the login: an address, then a password. If it is right, the files
    /// that wait for the device follow.
    pub fn credentials<S>(
        self,
        email: Incoming,
        password: Incoming,
        server: &mut Server<S>,
    ) -> (step: SessionStep)
        ensures
            match login_refusal(self.accounts@, self.owner@, email, password) {
                Some(text) => *final(server) == *old(server) && step@ == (StepView::Refuse { text }),
                None => {
                    let left = old(server)@.waiting(self.uuid@);
                    &&& final(server)@ == old(server)@.with_left(self.uuid@, left)
                    &&& step@ == next_file(self.uuid@, left)
                },
            },
            final(server).listed() == old(server).listed(),
            final(server).accounts == old(server).accounts,
            final(server).ids == old(server).ids,
            final(server).event_stream_senders == old(server).event_stream_senders,
            match (email, password) {
                (Incoming::Text(email), Incoming::Text(password)) => if self.accounts@.contains_key(
                    email@,
                ) && self.accounts@[email@] == DefaultHasher::spec_finish(
                    hashed_text(Seq::empty(), password@),
                ) && self.owner@ == email@ {
                    if old(server)@.queue.contains_key(self.uuid@)
                        && old(server)@.queue[self.uuid@].len() > 0 {
                        &&& *final(server) == *old(server)
                        &&& step@ == (StepView::Read {
                            uuid: self.uuid@,
                            left: old(server)@.queue[self.uuid@],
                        })
                    } else {
                        &&& final(server)@.queue == old(server)@.queue.remove(self.uuid@)
                        &&& step is Ping
                    }
                } else {
                    *final(server) == *old(server) && step@ == (StepView::Refuse {
                        text: "password hash did not match!"@,
                    })
                },
                _ => *final(server) == *old(server) && step@ == (StepView::Refuse {
                    text: if email is Missing || password is Missing {
                        "no password sent!"@
                    } else if email is Broken || password is Broken {
                        "password is err!"@
                    } else {
                        "password is not a string!"@
                    },
                }),
            },
    {
        match (email, password) {
            (Incoming::Missing, _) | (_, Incoming::Missing) => SessionStep::Refuse(
                String::from_str("no password sent!"),
            ),
            (Incoming::Broken, _) | (_, Incoming::Broken) => SessionStep::Refuse(
                String::from_str("password is err!"),
            ),
            (Incoming::NotText, _) | (_, Incoming::NotText) => SessionStep::Refuse(
                String::from_str("password is not a string!"),
            ),
            (Incoming::Text(email), Incoming::Text(password)) => {
                if authenticate(&self.accounts, email.as_str(), password.as_str()) && self.owner
                    == email {
                    let files = match server.message_queue.get(self.uuid.as_str()) {
                        Some(files) => files.clone(),
                        None => Vec::new(),
                    };
                    proof {
                        assert(texts(files@) =~= server@.waiting(self.uuid@));
                        assert(texts(files@).skip(0) =~= texts(files@));
                    }
                    turn_to_file(self.uuid, files, 0, server)
                } else {
                    SessionStep::Refuse(String::from_str("password hash did not match!"))
                }
            },
        }
    }
}

/// Turns to the file number `next`, or to the live connection after the last one.
fn turn_to_file<S>(uuid: String, files: Vec<String>, next: usize, server: &mut Server<S>) -> (step:
    SessionStep)
    requires
        next <= files@.len(),
    ensures
        final(server)@ == old(server)@.with_left(uuid@, texts(files@).skip(next as int)),
        step@ == next_file(uuid@, texts(files@).skip(next as int)),
        final(server).listed() == old(server).listed(),
        final(server).accounts == old(server).accounts,
        final(server).ids == old(server).ids,
        final(server).event_stream_senders == old(server).event_stream_senders,
        if next < files@.len() {
            *final(server) == *old(server) && step@ == (StepView::Read {
                uuid: uuid@,
                left: texts(files@).skip(next as int),
            })
        } else {
            final(server)@.queue == old(server)@.queue.remove(uuid@) && step is Ping
        },
{
    if next < files.len() {
        return SessionStep::Read(Reading { uuid, files, next });
    }
    proof {
        lemma_queues_remove(server.message_queue@, uuid@);
    }
    server.message_queue.remove(uuid.as_str());
    begin_round(IDLE_AT_START)
}

fn begin_round(idle: u32) -> (step: SessionStep)
    ensures
        step@ == round(idle as int),
{
    let idle: u32 = idle.saturating_add(1);
    if idle >= PING_AFTER {
        SessionStep::Ping(Pinging {  })
    } else {
        SessionStep::Poll(Polling { idle })
    }
}

impl Reading {
    #[verifier::type_invariant]
    spec fn in_range(self) -> bool {
        self.next < self.files@.len()
    }

    /// Where the file lies.
    pub fn path(&self) -> (path: String)
        ensures
            self@.1.len() > 0,
            path@ == message_path_text(self@.1[0]),
            path@ == "messages/"@ + self@.1[0],
    {
        proof {
            use_type_invariant(self);
        }
        message_path(self.files[self.next].as_str())
    }

    /// Goes on with what the file holds, if it could be read.
    pub fn read<S>(self, content: Option<Vec<u8>>, server: &mut Server<S>) -> (step: SessionStep)
        ensures
            step@ == after_read(
                self@.0,
                self@.1,
                match content {
                    Some(bytes) => Some(bytes@),
                    None => None,
                },
            ),
            final(server)@ == if content is Some {
                old(server)@
            } else {
                old(server)@.with_left(self@.0, self@.1.drop_first())
            },
            final(server).listed() == old(server).listed(),
            final(server).accounts == old(server).accounts,
            final(server).ids == old(server).ids,
            final(server).event_stream_senders == old(server).event_stream_senders,
            match content {
                Some(bytes) => *final(server) == *old(server) && step@ == (StepView::Deliver {
                    uuid: self@.0,
                    left: self@.1,
                    bytes: bytes@,
                }),
                None => if self@.1.len() > 1 {
                    *final(server) == *old(server) && step@ == (StepView::Read {
                        uuid: self@.0,
                        left: self@.1.drop_first(),
                    })
                } else {
                    final(server)@.queue == old(server)@.queue.remove(self@.0) && step is Ping
                },
            },
    {
        proof {
            use_type_invariant(&self);
            assert(self.next < self.files.len());
            assert(texts(self.files@).skip(self.next as int).drop_first() =~= texts(
                self.files@,
            ).skip(self.next + 1));
        }
        match content {
            Some(bytes) => SessionStep::Deliver(
                Delivering { uuid: self.uuid, files: self.files, next: self.next, bytes },
            ),
            None => turn_to_file(self.uuid, self.files, self.next + 1, server),
        }
    }
}

impl Delivering {
    #[verifier::type_invariant]
    spec fn in_range(self) -> bool {
        self.next < self.files@.len()
    }

    /// Where the file lies.
    pub fn path(&self) -> (path: String)
        ensures
            self@.1.len() > 0,
            path@ == message_path_text(self@.1[0]),
            path@ == "messages/"@ + self@.1[0],
    {
        proof {
            use_type_invariant(self);
        }
        message_path(self.files[self.next].as_str())
    }

    /// What is to be sent.
    pub fn bytes(&self) -> (bytes: &Vec<u8>)
        ensures
            bytes@ == self@.2,
    {
        &self.bytes
    }

    /// Goes on after the bytes were sent, or could not be.
    pub fn sent<S>(self, ok: bool, server: &mut Server<S>) -> (step: SessionStep)
        ensures
            step@ == after_delivery(self@.0, self@.1, ok),
            final(server)@ == if ok {
                old(server)@.with_left(self@.0, self@.1.drop_first())
            } else {
                old(server)@
            },
            final(server).listed() == old(server).listed(),
            final(server).accounts == old(server).accounts,
            final(server).ids == old(server).ids,
            final(server).event_stream_senders == old(server).event_stream_senders,
            if !ok {
                *final(server) == *old(server) && step is Close
            } else if self@.1.len() > 1 {
                *final(server) == *old(server) && step@ == (StepView::Read {
                    uuid: self@.0,
                    left: self@.1.drop_first(),
                })
            } else {
                final(server)@.queue == old(server)@.queue.remove(self@.0) && step is Ping
            },
    {
        proof {
            use_type_invariant(&self);
            assert(self.next < self.files.len());
            assert(texts(self.files@).skip(self.next as int).drop_first() =~= texts(
                self.files@,
            ).skip(self.next + 1));
        }
        if ok {
            turn_to_file(self.uuid, self.files, self.next + 1, server)
        } else {
            SessionStep::Close
        }
    }
}

impl Pinging {
    /// What is to be sent.
    pub fn text(&self) -> (text: String)
        ensures
            text@ == "😝"@,
    {
        String::from_str("😝")
    }

    /// Goes on after the ping was sent, or could not be.
    pub fn sent(self, ok: bool) -> (step: SessionStep)
        ensures
            step@ == after_ping(ok),
            step@ == if ok {
                StepView::Poll { idle: 0 }
            } else {
                StepView::Close
            },
    {
        if ok {
            SessionStep::Poll(Polling { idle: 0 })
        } else {
            SessionStep::Close
        }
    }
}

impl Polling {
    /// Goes on with the message that was found, if there was one.
    pub fn polled(self, message: Option<ServerMessage>) -> (step: SessionStep)
        ensures
            step@ == after_poll(
                self.idle as int,
                match message {
                    Some(m) => Some(m@),
                    None => None,
                },
            ),
            step@ == match message {
                Some(m) => StepView::Forward { idle: self.idle as int, bytes: m@.encoded() },
                None => StepView::Wait { idle: self.idle as int },
            },
    {
        match message {
            Some(m) => SessionStep::Forward(
                Forwarding { idle: self.idle, bytes: m.encode_to_vec() },
            ),
            None => SessionStep::Wait(Waiting { idle: self.idle }),
        }
    }
}

impl Forwarding {
    /// Goes on after the message was sent, or could not be.
    pub fn sent(self, ok: bool) -> (step: SessionStep)
        ensures
            step@ == after_forward(self.idle as int, ok),
            step@ == if ok {
                StepView::Wait { idle: self.idle as int }
            } else {
                StepView::Close
            },
    {
        if ok {
            SessionStep::Wait(Waiting { idle: self.idle })
        } else {
            SessionStep::Close
        }
    }
}

impl Waiting {
    /// Begins the next round.
    pub fn rested(self) -> (step: SessionStep)
        ensures
            step@ == round(self.idle as int),
            step@ == if self.idle >= 59 {
                StepView::Ping
            } else {
                StepView::Poll { idle: self.idle + 1 }
            },
    {
        begin_round(self.idle)
    }
}

} // verus!
