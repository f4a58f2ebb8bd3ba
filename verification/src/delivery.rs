//! Posting a message: to the connected device, or into a file that waits for it.
//!
//! A post goes through up to three steps, between which the caller does what the
//! last step asks for: hand the message to a connection, or write a file.

use crate::accounts::{is_uuid, new_uuid};
use crate::auth::{authentic, authenticate, hashed_text};
use crate::fresh::{names, unused_uuid};
use crate::json::texts;
use crate::reply::{error_json, error_reply, success_json, success_reply};
use crate::server::{lemma_queues_insert, Server, ServerView};
use crate::wire::{parsed_message, Message, MessageView, ServerMessage, ServerMessageView};
use std::collections::hash_map::DefaultHasher;
use vstd::prelude::*;
use vstd::std_specs::hash::DefaultHasherAdditionalSpecFns;

verus! {

/// Where the file `name` lies.
pub open spec fn message_path_text(name: Seq<char>) -> Seq<char> {
    "messages/"@ + name
}

/// Where the file `name` lies.
pub fn message_path(name: &str) -> (path: String)
    ensures
        path@ == message_path_text(name@),
        path@ == "messages/"@ + name@,
{
    let mut path = String::from_str("messages/");
    path.append(name);
    path
}

/// A file that holds one message: its name, where it lies and what it holds.
pub struct MessageFile {
    pub name: String,
    pub path: String,
    pub bytes: Vec<u8>,
}

#[verifier::ext_equal]
pub struct MessageFileView {
    pub name: Seq<char>,
    pub path: Seq<char>,
    pub bytes: Seq<u8>,
}

impl View for MessageFile {
    type V = MessageFileView;

    open spec fn view(&self) -> MessageFileView {
        MessageFileView { name: self.name@, path: self.path@, bytes: self.bytes@ }
    }
}

impl ServerMessageView {
    /// The file that holds this message under the given name.
    pub open spec fn file(self, name: Seq<char>) -> MessageFileView {
        MessageFileView { name, path: message_path_text(name), bytes: self.encoded() }
    }
}

/// The file that is to hold `message` under the name `name`.
pub fn message_file(message: &ServerMessage, name: String) -> (file: MessageFile)
    ensures
        file@ == message@.file(name@),
        file.name@ == name@,
        file.path@ == "messages/"@ + name@,
        file.bytes@ == message@.encoded(),
{
    MessageFile { path: message_path(name.as_str()), bytes: message.encode_to_vec(), name }
}

/// The file that is to hold `message`, under a new name.
pub fn save_message(message: &ServerMessage) -> (file: MessageFile)
    ensures
        is_uuid(file@.name),
        file@ == message@.file(file@.name),
        file.path@ == "messages/"@ + file.name@,
        file.bytes@ == message@.encoded(),
{
    message_file(message, new_uuid())
}

/// What is to be done next for a post.
pub enum PostStep {
    /// Answer the client.
    Reply(String),
    /// Hand the message to the connection of the device, and go on with `sent`.
    Send(Sending),
    /// Write the file, and go on with `saved`.
    Save(Saving),
}

/// A message on its way to a connected device.
pub struct Sending {
    pub recipient: String,
    pub message: ServerMessage,
}

/// A message on its way into a file.
pub struct Saving {
    pub recipient: String,
    pub file: MessageFile,
}

impl MessageView {
    /// What the recipient gets of a posted message.
    pub open spec fn forwarded(self) -> ServerMessageView {
        ServerMessageView { data: self.data, sender: self.email }
    }
}

impl<S> ServerView<S> {
    /// The names of the files that wait for a device.
    pub open spec fn waiting(self, uuid: Seq<char>) -> Seq<Seq<char>> {
        if self.queue.contains_key(uuid) {
            self.queue[uuid]
        } else {
            Seq::empty()
        }
    }

    /// The state once it is known that a message cannot be handed to the device:
    /// its connection is forgotten and it has a queue.
    pub open spec fn disconnected(self, uuid: Seq<char>) -> Self {
        ServerView {
            senders: self.senders.remove(uuid),
            queue: self.queue.insert(uuid, self.waiting(uuid)),
            ..self
        }
    }

    /// The state with one more file waiting for a device.
    pub open spec fn with_waiting(self, uuid: Seq<char>, name: Seq<char>) -> Self {
        ServerView { queue: self.queue.insert(uuid, self.waiting(uuid).push(name)), ..self }
    }

    /// Why the post of `message` is refused, if it is.
    pub open spec fn refusal(self, message: Option<MessageView>) -> Option<Seq<char>> {
        match message {
            None => Some("data is not a valid message"@),
            Some(m) => if !authentic(self.accounts, m.email, m.password) {
                Some("auth failed"@)
            } else if !self.ids.contains_key(m.recipient) {
                Some("no recipient"@)
            } else {
                None
            },
        }
    }
}

/// The step that asks to save `message` for `recipient`, under whatever name.
pub open spec fn asks_to_save(
    step: PostStep,
    recipient: Seq<char>,
    message: ServerMessageView,
) -> bool {
    match step {
        PostStep::Save(saving) => {
            &&& saving.recipient@ == recipient
            &&& is_uuid(saving.file@.name)
            &&& saving.file@ == message.file(saving.file@.name)
        },
        _ => false,
    }
}

/// The step that asks to hand `message` to the connection of `recipient`.
pub open spec fn asks_to_send(
    step: PostStep,
    recipient: Seq<char>,
    message: ServerMessageView,
) -> bool {
    match step {
        PostStep::Send(sending) => sending.recipient@ == recipient && sending.message@ == message,
        _ => false,
    }
}

/// The step that answers the client with `text`.
pub open spec fn answers(step: PostStep, text: Seq<char>) -> bool {
    match step {
        PostStep::Reply(reply) => reply@ == text,
        _ => false,
    }
}

/// Takes a post in: refuses it, or asks to send it to the device that is
/// connected, or to save it for the device that is not.
pub fn post_message<S>(message_bytes: &[u8], server: &mut Server<S>) -> (step: PostStep)
    ensures
        match old(server)@.refusal(parsed_message(message_bytes@)) {
            Some(reason) => *final(server) == *old(server) && answers(step, error_reply(reason)),
            None => {
                let m = parsed_message(message_bytes@)->0;
                if old(server)@.senders.contains_key(m.recipient) {
                    *final(server) == *old(server) && asks_to_send(
                        step,
                        m.recipient,
                        m.forwarded(),
                    )
                } else {
                    final(server)@ == old(server)@.disconnected(m.recipient) && asks_to_save(
                        step,
                        m.recipient,
                        m.forwarded(),
                    )
                }
            },
        },
        final(server).listed() == old(server).listed(),
        final(server).accounts == old(server).accounts,
        final(server).ids == old(server).ids,
        match parsed_message(message_bytes@) {
            None => *final(server) == *old(server) && answers(
                step,
                "{\"success\": false, \"reason\": \""@ + "data is not a valid message"@ + "\"}"@,
            ),
            Some(m) => if !(old(server).accounts@.contains_key(m.email)
                && old(server).accounts@[m.email] == DefaultHasher::spec_finish(
                hashed_text(Seq::empty(), m.password),
            )) {
                *final(server) == *old(server) && answers(
                    step,
                    "{\"success\": false, \"reason\": \""@ + "auth failed"@ + "\"}"@,
                )
            } else if !old(server).ids@.contains_key(m.recipient) {
                *final(server) == *old(server) && answers(
                    step,
                    "{\"success\": false, \"reason\": \""@ + "no recipient"@ + "\"}"@,
                )
            } else if old(server).event_stream_senders@.contains_key(m.recipient) {
                &&& *final(server) == *old(server)
                &&& match step {
                    PostStep::Send(sending) => {
                        &&& sending.recipient@ == m.recipient
                        &&& sending.message.data@ == m.data
                        &&& sending.message.sender@ == m.email
                    },
                    _ => false,
                }
            } else {
                &&& final(server)@.senders == old(server)@.senders.remove(m.recipient)
                &&& final(server)@.queue.dom() == old(server)@.queue.dom().insert(m.recipient)
                &&& final(server)@.queue[m.recipient] == if old(server)@.queue.contains_key(m.recipient) {
                    old(server)@.queue[m.recipient]
                } else {
                    Seq::empty()
                }
                &&& forall|other: Seq<char>|
                    other != m.recipient && old(server)@.queue.contains_key(other) ==> #[trigger] final(server)@.queue[other] == old(server)@.queue[other]
                &&& match step {
                    PostStep::Save(saving) => {
                        &&& saving.recipient@ == m.recipient
                        &&& is_uuid(saving.file.name@)
                        &&& saving.file.path@ == "messages/"@ + saving.file.name@
                        &&& saving.file.bytes@ == (ServerMessageView {
                            data: m.data,
                            sender: m.email,
                        }).encoded()
                        &&& forall|uuid: Seq<char>| #[trigger]
                            old(server)@.queue.contains_key(uuid)
                                ==> !old(server)@.queue[uuid].contains(saving.file.name@)
                    },
                    _ => false,
                }
            },
        },
{
    let message = match Message::decode(message_bytes) {
        Ok(message) => message,
        Err(_) => return PostStep::Reply(error_json("data is not a valid message")),
    };
    if authenticate(&server.accounts, message.email.as_str(), message.password.as_str()) {
        if server.ids.contains_key(message.recipient.as_str()) {
            let recipient = message.recipient;
            let forwarded = ServerMessage { data: message.data, sender: message.email };
            if server.event_stream_senders.contains_key(recipient.as_str()) {
                return PostStep::Send(Sending { recipient, message: forwarded });
            }
            return queue_message(recipient, forwarded, server);
        }
        return PostStep::Reply(error_json("no recipient"));
    }
    PostStep::Reply(error_json("auth failed"))
}

/// The names of all files that wait.
fn waiting_names<S>(server: &Server<S>) -> (taken: Vec<&String>)
    ensures
        forall|uuid: Seq<char>, name: Seq<char>|
            #![trigger server@.queue[uuid].contains(name)]
            server@.queue.contains_key(uuid) && server@.queue[uuid].contains(name) ==> names(
                taken@,
            ).contains(name),
{
    let ghost entries = server.message_queue.entries();
    let count: usize = server.message_queue.len();
    let mut taken: Vec<&String> = Vec::new();
    let mut i: usize = 0;
    while i < count
        invariant
            i <= count == entries.len(),
            entries == server.message_queue.entries(),
            forall|k: int, j: int|
                #![trigger entries[k].1@[j]]
                0 <= k < i && 0 <= j < entries[k].1@.len() ==> names(taken@).contains(
                    entries[k].1@[j]@,
                ),
        decreases count - i,
    {
        let (_, files) = server.message_queue.entry(i);
        let mut n: usize = 0;
        while n < files.len()
            invariant
                i < count == entries.len(),
                n <= files@.len(),
                *files == entries[i as int].1,
                forall|k: int, j: int|
                    #![trigger entries[k].1@[j]]
                    0 <= k < i && 0 <= j < entries[k].1@.len() ==> names(taken@).contains(
                        entries[k].1@[j]@,
                    ),
                forall|j: int|
                    0 <= j < n ==> names(taken@).contains((#[trigger] entries[i as int].1@[j])@),
            decreases files@.len() - n,
        {
            let ghost before = taken@;
            taken.push(&files[n]);
            proof {
                assert(names(taken@) =~= names(before).push(files@[n as int]@));
                assert(names(taken@).last() == files@[n as int]@);
                assert forall|name: Seq<char>| names(before).contains(name) implies #[trigger] names(
                    taken@,
                ).contains(name) by {
                    let k = choose|k: int| 0 <= k < before.len() && names(before)[k] == name;
                    assert(names(taken@)[k] == name);
                }
            }
            n = n + 1;
        }
        i = i + 1;
    }
    proof {
        assert forall|uuid: Seq<char>, name: Seq<char>|
            #![trigger server@.queue[uuid].contains(name)]
            server@.queue.contains_key(uuid) && server@.queue[uuid].contains(name) implies names(
            taken@,
        ).contains(name) by {
            assert(server.message_queue@.contains_key(uuid));
            let k = choose|k: int| 0 <= k < entries.len() && (#[trigger] entries[k]).0 == uuid;
            let j = choose|j: int|
                0 <= j < server@.queue[uuid].len() && server@.queue[uuid][j] == name;
            assert(entries[k].1@[j]@ == name);
        }
    }
    taken
}

/// Asks to save a message for a device that cannot be reached. The name of the
/// file is random, and none that already waits.
pub fn queue_message<S>(recipient: String, message: ServerMessage, server: &mut Server<S>) -> (step:
    PostStep)
    ensures
        final(server)@ == old(server)@.disconnected(recipient@),
        asks_to_save(step, recipient@, message@),
        final(server).listed() == old(server).listed(),
        final(server).accounts == old(server).accounts,
        final(server).ids == old(server).ids,
        ({
            &&& final(server)@.senders == old(server)@.senders.remove(recipient@)
            &&& final(server)@.queue.dom() == old(server)@.queue.dom().insert(recipient@)
            &&& final(server)@.queue[recipient@] == if old(server)@.queue.contains_key(recipient@) {
                old(server)@.queue[recipient@]
            } else {
                Seq::empty()
            }
            &&& forall|other: Seq<char>|
                other != recipient@ && old(server)@.queue.contains_key(other) ==> #[trigger] final(server)@.queue[other] == old(server)@.queue[other]
        }),
        match step {
            PostStep::Save(saving) => {
                &&& saving.recipient@ == recipient@
                &&& is_uuid(saving.file.name@)
                &&& saving.file.path@ == "messages/"@ + saving.file.name@
                &&& saving.file.bytes@ == message@.encoded()
                &&& forall|uuid: Seq<char>| #[trigger]
                    old(server)@.queue.contains_key(uuid) ==> !old(server)@.queue[uuid].contains(
                        saving.file.name@,
                    )
            },
            _ => false,
        },
{
    let ghost before = server@;
    server.event_stream_senders.remove(recipient.as_str());
    if !server.message_queue.contains_key(recipient.as_str()) {
        let files: Vec<String> = Vec::new();
        proof {
            lemma_queues_insert(server.message_queue@, recipient@, files);
            assert(texts(files@) =~= Seq::empty());
        }
        server.message_queue.insert(recipient.clone(), files);
    }
    proof {
        assert(server@.queue =~= before.disconnected(recipient@).queue);
        assert(server@ =~= before.disconnected(recipient@));
    }
    let file = save_message(&message);
    let name = unused_uuid(file.name, &waiting_names(server));
    proof {
        assert forall|uuid: Seq<char>| #[trigger]
            before.queue.contains_key(uuid) implies !before.queue[uuid].contains(name@) by {
            assert(server@.queue.contains_key(uuid));
            assert(server@.queue[uuid] == before.queue[uuid]);
        }
    }
    let file = MessageFile { path: message_path(name.as_str()), bytes: file.bytes, name };
    assert(file@ =~= message@.file(name@));
    PostStep::Save(Saving { recipient, file })
}

/// Goes on after the message was handed to the connection, or could not be.
pub fn sent<S>(sending: Sending, delivered: bool, server: &mut Server<S>) -> (step: PostStep)
    ensures
        delivered ==> *final(server) == *old(server) && answers(step, success_reply()),
        !delivered ==> final(server)@ == old(server)@.disconnected(sending.recipient@)
            && asks_to_save(step, sending.recipient@, sending.message@),
        final(server).listed() == old(server).listed(),
        final(server).accounts == old(server).accounts,
        final(server).ids == old(server).ids,
        if delivered {
            *final(server) == *old(server) && answers(step, "{\"success\": true}"@)
        } else {
            &&& final(server)@.senders == old(server)@.senders.remove(sending.recipient@)
            &&& final(server)@.queue.dom() == old(server)@.queue.dom().insert(sending.recipient@)
            &&& final(server)@.queue[sending.recipient@] == if old(server)@.queue.contains_key(sending.recipient@) {
                old(server)@.queue[sending.recipient@]
            } else {
                Seq::empty()
            }
            &&& forall|other: Seq<char>|
                other != sending.recipient@ && old(server)@.queue.contains_key(other) ==> #[trigger] final(server)@.queue[other] == old(server)@.queue[other]
            &&& match step {
                PostStep::Save(saving) => {
                    &&& saving.recipient@ == sending.recipient@
                    &&& is_uuid(saving.file.name@)
                    &&& saving.file.path@ == "messages/"@ + saving.file.name@
                    &&& saving.file.bytes@ == sending.message@.encoded()
                    &&& forall|uuid: Seq<char>| #[trigger]
                        old(server)@.queue.contains_key(uuid)
                            ==> !old(server)@.queue[uuid].contains(saving.file.name@)
                },
                _ => false,
            }
        },
{
    if delivered {
        return PostStep::Reply(success_json());
    }
    queue_message(sending.recipient, sending.message, server)
}

/// Goes on after the file was written, or could not be: only a file that was
/// written waits for the device. The client is answered alike.
pub fn saved<S>(saving: Saving, written: bool, server: &mut Server<S>) -> (reply: String)
    requires
        old(server)@.queue.contains_key(saving.recipient@),
    ensures
        written ==> final(server)@ == old(server)@.with_waiting(
            saving.recipient@,
            saving.file@.name,
        ),
        !written ==> *final(server) == *old(server),
        reply@ == success_reply(),
        final(server).listed() == old(server).listed(),
        final(server).accounts == old(server).accounts,
        final(server).ids == old(server).ids,
        final(server).event_stream_senders == old(server).event_stream_senders,
        reply@ == "{\"success\": true}"@,
        written ==> final(server)@.queue == old(server)@.queue.insert(
            saving.recipient@,
            old(server)@.queue[saving.recipient@].push(saving.file.name@),
        ),
{
    if written {
        let ghost before = server@;
        let ghost queue = server.message_queue@;
        let mut files = server.message_queue.remove(saving.recipient.as_str()).unwrap();
        let ghost waiting = texts(files@);
        files.push(saving.file.name);
        proof {
            assert(texts(files@) =~= waiting.push(saving.file@.name));
            lemma_queues_insert(server.message_queue@, saving.recipient@, files);
        }
        server.message_queue.insert(saving.recipient, files);
        proof {
            assert(before.waiting(saving.recipient@) == waiting);
            assert(server@.queue =~= before.with_waiting(
                saving.recipient@,
                saving.file@.name,
            ).queue);
        }
    }
    success_json()
}

} // verus!
