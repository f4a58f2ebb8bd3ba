//! What holds of posts and of the files that wait, told by the tables themselves
//! and by the directory that the files lie in.

use crate::accounts::is_uuid;
use crate::auth::hashed_text;
use crate::delivery::{answers, asks_to_save, asks_to_send, message_path_text, PostStep};
use crate::laws::{
    drained, leads, lemma_readable_last, readable, waiting_files_are_delivered, Change,
};
use crate::server::ServerView;
use crate::session::{next_file, round, IDLE_AT_START};
use crate::wire::{
    parsed_server_message, server_message_reads_back, string_bytes, MessageView, ServerMessageView,
};
use std::collections::hash_map::DefaultHasher;
use vstd::prelude::*;
use vstd::std_specs::hash::DefaultHasherAdditionalSpecFns;
use vstd::utf8::encode_utf8;

verus! {

// ---------------------------------------------------------------------------
// Who may post
// ---------------------------------------------------------------------------
/// A post is accepted where there is the account that it names, the hash of its
/// password is the one kept of that account, and its recipient is registered; and
/// nowhere else.
pub proof fn post_is_accepted_for_its_account_only<S>(s: ServerView<S>, m: MessageView)
    ensures
        s.refusal(Some(m)) is None <==> {
            &&& s.accounts.contains_key(m.email)
            &&& s.accounts[m.email] == DefaultHasher::spec_finish(
                hashed_text(Seq::empty(), m.password),
            )
            &&& s.ids.contains_key(m.recipient)
        },
{
}

/// A post is refused for the first of three reasons: it is no message, the account
/// and the password do not fit, or there is no such recipient.
pub proof fn post_is_refused_for_its_reason<S>(s: ServerView<S>, m: MessageView)
    ensures
        s.refusal(None) == Some("data is not a valid message"@),
        !s.accounts.contains_key(m.email) ==> s.refusal(Some(m)) == Some("auth failed"@),
        s.accounts.contains_key(m.email) && s.accounts[m.email] != DefaultHasher::spec_finish(
            hashed_text(Seq::empty(), m.password),
        ) ==> s.refusal(Some(m)) == Some("auth failed"@),
        s.accounts.contains_key(m.email) && s.accounts[m.email] == DefaultHasher::spec_finish(
            hashed_text(Seq::empty(), m.password),
        ) && !s.ids.contains_key(m.recipient) ==> s.refusal(Some(m)) == Some("no recipient"@),
{
}

/// Whoever changes nothing but accounts that a post does not name, or devices that
/// it is not for, does not change whether it is accepted.
pub proof fn others_do_not_matter_to_a_post<S>(s: ServerView<S>, t: ServerView<S>, m: MessageView)
    requires
        s.accounts.contains_key(m.email) == t.accounts.contains_key(m.email),
        s.accounts.contains_key(m.email) ==> s.accounts[m.email] == t.accounts[m.email],
        s.ids.contains_key(m.recipient) == t.ids.contains_key(m.recipient),
    ensures
        s.refusal(Some(m)) == t.refusal(Some(m)),
{
}

// ---------------------------------------------------------------------------
// What a step asks for
// ---------------------------------------------------------------------------
/// A step that asks to send names the recipient and holds the data and the sender.
pub proof fn sending_holds_the_message(
    step: PostStep,
    recipient: Seq<char>,
    message: ServerMessageView,
)
    ensures
        asks_to_send(step, recipient, message) <==> {
            &&& step is Send
            &&& step->Send_0.recipient@ == recipient
            &&& step->Send_0.message.data@ == message.data
            &&& step->Send_0.message.sender@ == message.sender
        },
{
    if step is Send {
        assert(step->Send_0.message@ =~= message <==> step->Send_0.message.data@ == message.data
            && step->Send_0.message.sender@ == message.sender);
    }
}

/// A step that asks to save names the recipient, and a file in the directory of the
/// messages with the bytes of the message.
pub proof fn saving_holds_the_message(
    step: PostStep,
    recipient: Seq<char>,
    message: ServerMessageView,
)
    ensures
        asks_to_save(step, recipient, message) ==> {
            &&& step is Save
            &&& step->Save_0.recipient@ == recipient
            &&& is_uuid(step->Save_0.file.name@)
            &&& step->Save_0.file.path@ == "messages/"@ + step->Save_0.file.name@
            &&& step->Save_0.file.bytes@ == if message.data.len() == 0 {
                Seq::empty()
            } else {
                string_bytes(1, message.data)
            } + if message.sender.len() == 0 {
                Seq::empty()
            } else {
                string_bytes(2, message.sender)
            }
        },
{
}

/// A step that answers is a reply with that text.
pub proof fn answer_is_the_reply(step: PostStep, text: Seq<char>)
    ensures
        answers(step, text) <==> step is Reply && step->Reply_0@ == text,
{
}

/// The recipient gets the data of a post and the address of the account that it was
/// posted from, and a file of it lies under its own name.
pub proof fn post_is_passed_on_whole(m: MessageView, name: Seq<char>)
    ensures
        m.forwarded().data == m.data,
        m.forwarded().sender == m.email,
        m.forwarded().file(name).name == name,
        m.forwarded().file(name).path == "messages/"@ + name,
        m.forwarded().file(name).bytes == (ServerMessageView {
            data: m.data,
            sender: m.email,
        }).encoded(),
{
}

/// Two files lie at the same place only if they have the same name.
pub proof fn names_have_their_own_places(a: Seq<char>, b: Seq<char>)
    requires
        message_path_text(a) == message_path_text(b),
    ensures
        a == b,
        message_path_text(a) == "messages/"@ + a,
{
    let n = "messages/"@.len() as int;
    assert(a =~= message_path_text(a).skip(n));
    assert(b =~= message_path_text(b).skip(n));
}

// ---------------------------------------------------------------------------
// Queues
// ---------------------------------------------------------------------------
/// Where a device cannot be reached its connection is forgotten and it has a queue,
/// with what waited before; nothing else changes.
pub proof fn unreachable_device_has_a_queue<S>(s: ServerView<S>, uuid: Seq<char>, other: Seq<char>)
    ensures
        ({
            let t = s.disconnected(uuid);
            &&& t.senders.dom() == s.senders.dom().remove(uuid)
            &&& other != uuid && s.senders.contains_key(other) ==> t.senders[other]
                == s.senders[other]
            &&& t.queue.dom() == s.queue.dom().insert(uuid)
            &&& s.queue.contains_key(other) ==> t.queue[other] == s.queue[other]
            &&& !s.queue.contains_key(uuid) ==> t.queue[uuid].len() == 0
            &&& t.accounts == s.accounts && t.ids == s.ids
        }),
{
    let t = s.disconnected(uuid);
    assert(t.senders.dom() =~= s.senders.dom().remove(uuid));
    assert(t.queue.dom() =~= s.queue.dom().insert(uuid));
}

/// One more file waits for a device, behind all that waited; nothing else changes.
pub proof fn file_waits_last<S>(
    s: ServerView<S>,
    uuid: Seq<char>,
    name: Seq<char>,
    other: Seq<char>,
)
    requires
        s.queue.contains_key(uuid),
    ensures
        ({
            let t = s.with_waiting(uuid, name);
            &&& t.queue.dom() == s.queue.dom()
            &&& t.queue[uuid] == s.queue[uuid].push(name)
            &&& other != uuid && s.queue.contains_key(other) ==> t.queue[other] == s.queue[other]
            &&& t.senders == s.senders && t.accounts == s.accounts && t.ids == s.ids
        }),
{
    assert(s.with_waiting(uuid, name).queue.dom() =~= s.queue.dom());
}

/// What waits for a device is its queue, and nothing where it has none.
pub proof fn queue_is_what_waits<S>(s: ServerView<S>, uuid: Seq<char>)
    ensures
        s.queue.contains_key(uuid) ==> s.waiting(uuid) == s.queue[uuid],
        !s.queue.contains_key(uuid) ==> s.waiting(uuid).len() == 0,
{
}

/// No two files that wait, for the same device or for two, share a name.
pub open spec fn distinct_files<S>(s: ServerView<S>) -> bool {
    forall|u: Seq<char>, v: Seq<char>, i: int, j: int|
        #![trigger s.queue[u][i], s.queue[v][j]]
        s.queue.contains_key(u) && s.queue.contains_key(v) && 0 <= i < s.queue[u].len() && 0 <= j
            < s.queue[v].len() && s.queue[u][i] == s.queue[v][j] ==> u == v && i == j
}

/// The name is that of no file that waits.
pub open spec fn is_new<S>(s: ServerView<S>, name: Seq<char>) -> bool {
    forall|u: Seq<char>| #[trigger] s.queue.contains_key(u) ==> !s.queue[u].contains(name)
}

/// Files keep names of their own, as long as each is given a name that is new.
pub proof fn files_stay_distinct<S>(s: ServerView<S>, uuid: Seq<char>, name: Seq<char>)
    requires
        distinct_files(s),
        is_new(s, name),
    ensures
        distinct_files(s.disconnected(uuid).with_waiting(uuid, name)),
{
    let t = s.disconnected(uuid).with_waiting(uuid, name);
    assert forall|u: Seq<char>, v: Seq<char>, i: int, j: int|
        #![trigger t.queue[u][i], t.queue[v][j]]
        t.queue.contains_key(u) && t.queue.contains_key(v) && 0 <= i < t.queue[u].len() && 0 <= j
            < t.queue[v].len() && t.queue[u][i] == t.queue[v][j] implies u == v && i == j by {
        let old_u = s.queue.contains_key(u) && i < s.queue[u].len();
        let old_v = s.queue.contains_key(v) && j < s.queue[v].len();
        if old_u {
            assert(t.queue[u][i] == s.queue[u][i]);
            assert(s.queue[u].contains(s.queue[u][i]));
        }
        if old_v {
            assert(t.queue[v][j] == s.queue[v][j]);
            assert(s.queue[v].contains(s.queue[v][j]));
        }
    }
}

// ---------------------------------------------------------------------------
// The directory
// ---------------------------------------------------------------------------
/// The state after the posts were kept one after another for devices that could not
/// be reached, each under the name beside it.
pub open spec fn kept<S>(s: ServerView<S>, posts: Seq<(MessageView, Seq<char>)>) -> ServerView<S>
    decreases posts.len(),
{
    if posts.len() == 0 {
        s
    } else {
        let (m, name) = posts[0];
        kept(s.disconnected(m.recipient).with_waiting(m.recipient, name), posts.drop_first())
    }
}

/// The directory, by the places of its files, after the file of each post was
/// written.
pub open spec fn written_to(
    directory: Map<Seq<char>, Seq<u8>>,
    posts: Seq<(MessageView, Seq<char>)>,
) -> Map<Seq<char>, Seq<u8>>
    decreases posts.len(),
{
    if posts.len() == 0 {
        directory
    } else {
        let (m, name) = posts[0];
        let file = m.forwarded().file(name);
        written_to(directory.insert(file.path, file.bytes), posts.drop_first())
    }
}

/// Each name is new when its post is kept.
pub open spec fn names_are_new<S>(s: ServerView<S>, posts: Seq<(MessageView, Seq<char>)>) -> bool
    decreases posts.len(),
{
    posts.len() > 0 ==> {
        let (m, name) = posts[0];
        &&& is_new(s, name)
        &&& names_are_new(
            s.disconnected(m.recipient).with_waiting(m.recipient, name),
            posts.drop_first(),
        )
    }
}

/// What is read of the files one after another, where each is removed once it was
/// read.
pub open spec fn fetched(directory: Map<Seq<char>, Seq<u8>>, names: Seq<Seq<char>>) -> Seq<
    Option<Seq<u8>>,
>
    decreases names.len(),
{
    if names.len() == 0 {
        Seq::empty()
    } else {
        let path = message_path_text(names[0]);
        let first = if directory.contains_key(path) {
            Some(directory[path])
        } else {
            None
        };
        seq![first] + fetched(directory.remove(path), names.drop_first())
    }
}

/// The bytes that a device gets of the posts for it, in their order.
pub open spec fn due(posts: Seq<(MessageView, Seq<char>)>, uuid: Seq<char>) -> Seq<Seq<u8>>
    decreases posts.len(),
{
    if posts.len() == 0 {
        Seq::empty()
    } else {
        let (m, _) = posts[0];
        let bytes = (ServerMessageView { data: m.data, sender: m.email }).encoded();
        if m.recipient == uuid {
            seq![bytes] + due(posts.drop_first(), uuid)
        } else {
            due(posts.drop_first(), uuid)
        }
    }
}

proof fn lemma_fetched(directory: Map<Seq<char>, Seq<u8>>, names: Seq<Seq<char>>)
    requires
        names.no_duplicates(),
    ensures
        fetched(directory, names).len() == names.len(),
        forall|i: int|
            0 <= i < names.len() ==> #[trigger] fetched(directory, names)[i] == (
            if directory.contains_key(message_path_text(names[i])) {
                Some(directory[message_path_text(names[i])])
            } else {
                None
            }),
    decreases names.len(),
{
    if names.len() > 0 {
        let path = message_path_text(names[0]);
        let less = directory.remove(path);
        let rest = names.drop_first();
        assert(rest.no_duplicates()) by {
            assert forall|i: int, j: int| 0 <= i < j < rest.len() implies rest[i] != rest[j] by {
                assert(names[i + 1] != names[j + 1]);
            }
        }
        lemma_fetched(less, rest);
        assert forall|i: int| 0 <= i < names.len() implies #[trigger] fetched(
            directory,
            names,
        )[i] == (if directory.contains_key(message_path_text(names[i])) {
            Some(directory[message_path_text(names[i])])
        } else {
            None
        }) by {
            if i > 0 {
                assert(fetched(directory, names)[i] == fetched(less, rest)[i - 1]);
                assert(rest[i - 1] == names[i]);
                if message_path_text(names[i]) == path {
                    names_have_their_own_places(names[i], names[0]);
                }
            }
        }
    }
}

proof fn lemma_fetched_more<S>(
    s: ServerView<S>,
    directory: Map<Seq<char>, Seq<u8>>,
    m: MessageView,
    name: Seq<char>,
    uuid: Seq<char>,
)
    requires
        distinct_files(s),
        is_new(s, name),
    ensures
        ({
            let t = s.disconnected(m.recipient).with_waiting(m.recipient, name);
            let file = m.forwarded().file(name);
            let after = directory.insert(file.path, file.bytes);
            fetched(after, t.waiting(uuid)) == fetched(directory, s.waiting(uuid)) + if m.recipient
                == uuid {
                seq![Some((ServerMessageView { data: m.data, sender: m.email }).encoded())]
            } else {
                Seq::empty()
            }
        }),
{
    let t = s.disconnected(m.recipient).with_waiting(m.recipient, name);
    let file = m.forwarded().file(name);
    let after = directory.insert(file.path, file.bytes);
    files_stay_distinct(s, m.recipient, name);
    assert(s.waiting(uuid).no_duplicates());
    assert(t.waiting(uuid).no_duplicates());
    lemma_fetched(directory, s.waiting(uuid));
    lemma_fetched(after, t.waiting(uuid));
    let right = fetched(directory, s.waiting(uuid)) + if m.recipient == uuid {
        seq![Some((ServerMessageView { data: m.data, sender: m.email }).encoded())]
    } else {
        Seq::empty()
    };
    let left = fetched(after, t.waiting(uuid));
    assert forall|i: int| 0 <= i < left.len() implies left[i] == right[i] by {
        if i < s.waiting(uuid).len() {
            assert(t.waiting(uuid)[i] == s.waiting(uuid)[i]);
            assert(s.queue[uuid].contains(s.waiting(uuid)[i]));
            if message_path_text(s.waiting(uuid)[i]) == file.path {
                names_have_their_own_places(s.waiting(uuid)[i], name);
            }
        } else {
            assert(t.waiting(uuid)[i] == name);
        }
    }
    assert(left =~= right);
}

proof fn lemma_readable_more(contents: Seq<Option<Seq<u8>>>, more: Seq<Seq<u8>>)
    ensures
        readable(contents + more.map_values(|b: Seq<u8>| Some(b))) == readable(contents) + more,
    decreases more.len(),
{
    let some = |b: Seq<u8>| Some(b);
    if more.len() == 0 {
        assert(contents + more.map_values(some) =~= contents);
        assert(readable(contents) + more =~= readable(contents));
    } else {
        let front = more.drop_last();
        lemma_readable_more(contents, front);
        lemma_readable_last(contents + front.map_values(some), more.last());
        assert(contents + more.map_values(some) =~= (contents + front.map_values(some)).push(
            Some(more.last()),
        ));
        assert(readable(contents) + more =~= (readable(contents) + front).push(more.last()));
    }
}

proof fn lemma_all_fetched<S>(
    s: ServerView<S>,
    directory: Map<Seq<char>, Seq<u8>>,
    posts: Seq<(MessageView, Seq<char>)>,
    uuid: Seq<char>,
)
    requires
        distinct_files(s),
        names_are_new(s, posts),
    ensures
        distinct_files(kept(s, posts)),
        fetched(written_to(directory, posts), kept(s, posts).waiting(uuid)) == fetched(
            directory,
            s.waiting(uuid),
        ) + due(posts, uuid).map_values(|b: Seq<u8>| Some(b)),
    decreases posts.len(),
{
    let some = |b: Seq<u8>| Some(b);
    if posts.len() == 0 {
        assert(fetched(directory, s.waiting(uuid)) + due(posts, uuid).map_values(some) =~= fetched(
            directory,
            s.waiting(uuid),
        ));
    } else {
        let (m, name) = posts[0];
        let t = s.disconnected(m.recipient).with_waiting(m.recipient, name);
        let file = m.forwarded().file(name);
        let after = directory.insert(file.path, file.bytes);
        files_stay_distinct(s, m.recipient, name);
        lemma_fetched_more(s, directory, m, name, uuid);
        lemma_all_fetched(t, after, posts.drop_first(), uuid);
        assert(fetched(after, t.waiting(uuid)) + due(posts.drop_first(), uuid).map_values(some)
            =~= fetched(directory, s.waiting(uuid)) + due(posts, uuid).map_values(some));
    }
}

/// However many messages are posted to devices that cannot be reached, and in
/// whatever turns, each lies in a file of its own: at its next login a device is
/// sent what could be read of the files that waited before, and then each message
/// that was posted to it, once and in the order of the posts.
pub proof fn every_message_reaches_the_absent_device<S>(
    s: ServerView<S>,
    directory: Map<Seq<char>, Seq<u8>>,
    posts: Seq<(MessageView, Seq<char>)>,
    uuid: Seq<char>,
)
    requires
        distinct_files(s),
        names_are_new(s, posts),
    ensures
        ({
            let t = kept(s, posts);
            &&& distinct_files(t)
            &&& drained(
                next_file(uuid, t.waiting(uuid)),
                fetched(written_to(directory, posts), t.waiting(uuid)),
            ) == (
                readable(fetched(directory, s.waiting(uuid))) + due(posts, uuid),
                round(IDLE_AT_START as int),
            )
        }),
{
    let t = kept(s, posts);
    let names = t.waiting(uuid);
    lemma_all_fetched(s, directory, posts, uuid);
    assert(names.no_duplicates());
    lemma_fetched(written_to(directory, posts), names);
    waiting_files_are_delivered(uuid, names, fetched(written_to(directory, posts), names));
    lemma_readable_more(fetched(directory, s.waiting(uuid)), due(posts, uuid));
}

/// What a device is sent of a post reads as the data and the sender of that post.
pub proof fn due_message_is_read(posts: Seq<(MessageView, Seq<char>)>, uuid: Seq<char>)
    requires
        posts.len() > 0,
        posts[0].0.recipient == uuid,
        encode_utf8(posts[0].0.data).len() <= u64::MAX,
        encode_utf8(posts[0].0.email).len() <= u64::MAX,
    ensures
        due(posts, uuid).len() == due(posts.drop_first(), uuid).len() + 1,
        due(posts, uuid).drop_first() == due(posts.drop_first(), uuid),
        parsed_server_message(due(posts, uuid)[0]) == Some(
            ServerMessageView { data: posts[0].0.data, sender: posts[0].0.email },
        ),
{
    let m = posts[0].0;
    server_message_reads_back(ServerMessageView { data: m.data, sender: m.email });
    assert(due(posts, uuid).drop_first() =~= due(posts.drop_first(), uuid));
}

// ---------------------------------------------------------------------------
// Connections
// ---------------------------------------------------------------------------
/// A device that connects is entered with what reaches it, whatever the state was
/// before, and nothing else changes.
pub proof fn connected_device_is_entered<S>(
    s: ServerView<S>,
    uuid: Seq<char>,
    sender: S,
    other: Seq<char>,
)
    ensures
        ({
            let t = s.connected(uuid, sender);
            &&& t.senders.dom() == s.senders.dom().insert(uuid)
            &&& t.senders[uuid] == sender
            &&& other != uuid && s.senders.contains_key(other) ==> t.senders[other]
                == s.senders[other]
            &&& t.accounts == s.accounts && t.ids == s.ids && t.queue == s.queue
        }),
{
    assert(s.connected(uuid, sender).senders.dom() =~= s.senders.dom().insert(uuid));
}

/// The change takes the connection of a device away, or replaces it.
pub open spec fn touches_the_connection<S>(change: Change<S>, uuid: Seq<char>) -> bool {
    match change {
        Change::Disconnect { uuid: given } => given == uuid,
        Change::Connect { uuid: given, .. } => given == uuid,
        Change::Restart => true,
        _ => false,
    }
}

/// From its connection on a device is reached by what it connected with, whatever
/// waits for it and whatever happens, until a message could not be handed to it,
/// it connects again or the server is started again.
pub proof fn connected_device_stays_reachable<S>(
    s: ServerView<S>,
    uuid: Seq<char>,
    sender: S,
    changes: Seq<Change<S>>,
    t: ServerView<S>,
)
    requires
        leads(s.connected(uuid, sender), changes, t),
        forall|i: int|
            0 <= i < changes.len() ==> !touches_the_connection(#[trigger] changes[i], uuid),
    ensures
        t.senders.contains_key(uuid),
        t.senders[uuid] == sender,
{
    lemma_sender_stays(s.connected(uuid, sender), uuid, changes, t);
}

proof fn lemma_sender_stays<S>(
    s: ServerView<S>,
    uuid: Seq<char>,
    changes: Seq<Change<S>>,
    t: ServerView<S>,
)
    requires
        s.senders.contains_key(uuid),
        leads(s, changes, t),
        forall|i: int|
            0 <= i < changes.len() ==> !touches_the_connection(#[trigger] changes[i], uuid),
    ensures
        t.senders.contains_key(uuid),
        t.senders[uuid] == s.senders[uuid],
    decreases changes.len(),
{
    if changes.len() > 0 {
        let later = changes.drop_first();
        assert(!touches_the_connection(changes[0], uuid));
        assert forall|i: int| 0 <= i < later.len() implies !touches_the_connection(
            #[trigger] later[i],
            uuid,
        ) by {
            assert(!touches_the_connection(changes[i + 1], uuid));
        }
        lemma_sender_stays(changes[0].applied(s), uuid, later, t);
    }
}

} // verus!
