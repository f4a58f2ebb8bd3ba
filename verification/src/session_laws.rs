//! What holds of a device's connection, step by step.

use crate::auth::hashed_text;
use crate::json::texts;
use crate::laws::{idle_before, pings_come_every_half_minute};
use crate::server::ServerView;
use crate::session::{
    after_delivery, after_forward, after_ping, after_poll, after_read, login_refusal, next_file,
    round, Incoming, SessionStep, StepView,
};
use crate::wire::{string_bytes, ServerMessageView};
use std::collections::hash_map::DefaultHasher;
use vstd::prelude::*;
use vstd::std_specs::hash::DefaultHasherAdditionalSpecFns;

verus! {

/// A login succeeds where both frames are texts, there is the account, the hash of
/// the password is the one kept of it, and the device belongs to it; and nowhere
/// else.
pub proof fn login_needs_the_owner_and_the_password(
    accounts: Map<Seq<char>, u64>,
    owner: Seq<char>,
    email: Incoming,
    password: Incoming,
)
    ensures
        login_refusal(accounts, owner, email, password) is None <==> {
            &&& email is Text && password is Text
            &&& accounts.contains_key(email->Text_0@)
            &&& accounts[email->Text_0@] == DefaultHasher::spec_finish(
                hashed_text(Seq::empty(), password->Text_0@),
            )
            &&& owner == email->Text_0@
        },
{
}

/// A login that fails is told the first of four reasons.
pub proof fn failed_login_is_told_why(
    accounts: Map<Seq<char>, u64>,
    owner: Seq<char>,
    email: Incoming,
    password: Incoming,
)
    ensures
        ({
            let refusal = login_refusal(accounts, owner, email, password);
            let missing = email is Missing || password is Missing;
            let broken = email is Broken || password is Broken;
            let no_text = email is NotText || password is NotText;
            &&& missing ==> refusal == Some("no password sent!"@)
            &&& !missing && broken ==> refusal == Some("password is err!"@)
            &&& !missing && !broken && no_text ==> refusal == Some("password is not a string!"@)
            &&& email is Text && password is Text && refusal is Some ==> refusal == Some(
                "password hash did not match!"@,
            )
        }),
{
}

/// The account of a device is the one that it was registered with; a device that is
/// not registered has the account without a name.
pub proof fn owner_is_the_registered_account<S>(s: ServerView<S>, uuid: Seq<char>)
    ensures
        s.ids.contains_key(uuid) ==> s.owner(uuid) == s.ids[uuid].account,
        !s.ids.contains_key(uuid) ==> s.owner(uuid).len() == 0,
{
}

/// A queue is left as it is while files are left, and dropped after the last;
/// nothing else changes.
pub proof fn queue_is_dropped_after_the_last_file<S>(
    s: ServerView<S>,
    uuid: Seq<char>,
    left: Seq<Seq<char>>,
    other: Seq<char>,
)
    ensures
        ({
            let t = s.with_left(uuid, left);
            &&& left.len() > 0 ==> t == s
            &&& left.len() == 0 ==> t.queue.dom() == s.queue.dom().remove(uuid)
            &&& other != uuid && s.queue.contains_key(other) ==> t.queue[other] == s.queue[other]
            &&& t.senders == s.senders && t.accounts == s.accounts && t.ids == s.ids
        }),
{
    if left.len() == 0 {
        assert(s.with_left(uuid, left).queue.dom() =~= s.queue.dom().remove(uuid));
    }
}

/// The files that are left are read from the first on; where none is left the
/// connection goes live with a ping.
pub proof fn files_are_read_from_the_first(uuid: Seq<char>, left: Seq<Seq<char>>)
    ensures
        left.len() > 0 ==> next_file(uuid, left) == (StepView::Read { uuid, left }),
        left.len() == 0 ==> next_file(uuid, left) is Ping,
{
}

/// A file that was read is sent as it is; one that could not be is passed over.
pub proof fn file_is_sent_as_it_was_read(
    uuid: Seq<char>,
    left: Seq<Seq<char>>,
    content: Option<Seq<u8>>,
)
    requires
        left.len() > 0,
    ensures
        content is Some ==> after_read(uuid, left, content) == (StepView::Deliver {
            uuid,
            left,
            bytes: content->0,
        }),
        content is None && left.len() > 1 ==> after_read(uuid, left, content) == (StepView::Read {
            uuid,
            left: left.drop_first(),
        }),
        content is None && left.len() == 1 ==> after_read(uuid, left, content) is Ping,
{
}

/// After a file was sent the next follows; the connection ends where one could not
/// be sent.
pub proof fn next_file_follows(uuid: Seq<char>, left: Seq<Seq<char>>)
    requires
        left.len() > 0,
    ensures
        after_delivery(uuid, left, false) is Close,
        left.len() > 1 ==> after_delivery(uuid, left, true) == (StepView::Read {
            uuid,
            left: left.drop_first(),
        }),
        left.len() == 1 ==> after_delivery(uuid, left, true) is Ping,
{
}

/// A live connection is pinged thirty seconds after the last ping, looks for a
/// message in every round, sends the one that it finds and then rests; it ends where
/// something could not be sent.
pub proof fn live_connection_goes_round(idle: int, message: Option<ServerMessageView>)
    ensures
        idle >= 59 ==> round(idle) is Ping,
        idle < 59 ==> round(idle) == (StepView::Poll { idle: idle + 1 }),
        after_ping(true) == (StepView::Poll { idle: 0 }),
        after_ping(false) is Close,
        message is None ==> after_poll(idle, message) == (StepView::Wait { idle }),
        message is Some ==> after_poll(idle, message) == (StepView::Forward {
            idle,
            bytes: if message->0.data.len() == 0 {
                Seq::empty()
            } else {
                string_bytes(1, message->0.data)
            } + if message->0.sender.len() == 0 {
                Seq::empty()
            } else {
                string_bytes(2, message->0.sender)
            },
        }),
        after_forward(idle, true) == (StepView::Wait { idle }),
        after_forward(idle, false) is Close,
{
}

/// A live connection is pinged in round zero and then in each sixtieth round of half
/// a second, however many messages there are.
pub proof fn pings_come_every_sixtieth_round(
    n: nat,
    messages: spec_fn(nat) -> Option<ServerMessageView>,
)
    ensures
        round(idle_before(n, messages)) is Ping <==> n % 60 == 0,
{
    pings_come_every_half_minute(n, messages);
}

/// A step shows what it asks for.
pub proof fn step_shows_what_it_asks_for(step: SessionStep)
    ensures
        match step {
            SessionStep::Refuse(text) => step@ == (StepView::Refuse { text: text@ }),
            SessionStep::Read(reading) => step@ == (StepView::Read {
                uuid: reading@.0,
                left: reading@.1,
            }),
            SessionStep::Deliver(delivering) => step@ == (StepView::Deliver {
                uuid: delivering@.0,
                left: delivering@.1,
                bytes: delivering@.2,
            }),
            SessionStep::Ping(_) => step@ is Ping,
            SessionStep::Poll(polling) => step@ == (StepView::Poll { idle: polling.idle as int }),
            SessionStep::Forward(forwarding) => step@ == (StepView::Forward {
                idle: forwarding.idle as int,
                bytes: forwarding.bytes@,
            }),
            SessionStep::Wait(waiting) => step@ == (StepView::Wait { idle: waiting.idle as int }),
            SessionStep::Close => step@ is Close,
        },
{
}

/// The texts of a list stand for its strings, one for one.
pub proof fn texts_are_the_strings(list: Seq<String>, i: int)
    ensures
        texts(list).len() == list.len(),
        0 <= i < list.len() ==> texts(list)[i] == list[i]@,
{
}

} // verus!
