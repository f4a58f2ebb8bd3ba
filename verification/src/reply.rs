//! The JSON texts that requests are answered with.

use vstd::prelude::*;

verus! {

/// The answer to a request that was refused for `reason`.
pub open spec fn error_reply(reason: Seq<char>) -> Seq<char> {
    "{\"success\": false, \"reason\": \""@ + reason + "\"}"@
}

/// The answer to a request that was carried out.
pub open spec fn success_reply() -> Seq<char> {
    "{\"success\": true}"@
}

/// The answer to a device that was registered as `uuid`.
pub open spec fn uuid_reply(uuid: Seq<char>) -> Seq<char> {
    "{\"success\": true, \"uuid\": \""@ + uuid + "\"}"@
}

/// The answer to a query for devices, with the list as JSON.
pub open spec fn ids_reply(ids_json: Seq<char>) -> Seq<char> {
    "{\"success\": true, \"ids\": "@ + ids_json + "}"@
}

fn framed(before: &str, middle: &str, after: &str) -> (text: String)
    ensures
        text@ == before@ + middle@ + after@,
{
    let mut text = String::from_str(before);
    text.append(middle);
    text.append(after);
    text
}

/// Refuses a request.
pub fn error_json(message: &str) -> (json: String)
    ensures
        json@ == error_reply(message@),
        json@ == "{\"success\": false, \"reason\": \""@ + message@ + "\"}"@,
{
    framed("{\"success\": false, \"reason\": \"", message, "\"}")
}

/// Confirms a request.
pub fn success_json() -> (json: String)
    ensures
        json@ == success_reply(),
        json@ == "{\"success\": true}"@,
{
    String::from_str("{\"success\": true}")
}

/// Tells a device its identifier.
pub fn uuid_json(uuid: &str) -> (json: String)
    ensures
        json@ == uuid_reply(uuid@),
        json@ == "{\"success\": true, \"uuid\": \""@ + uuid@ + "\"}"@,
{
    framed("{\"success\": true, \"uuid\": \"", uuid, "\"}")
}

/// Answers a query with a list of devices.
pub fn ids_json(ids: &str) -> (json: String)
    ensures
        json@ == ids_reply(ids@),
        json@ == "{\"success\": true, \"ids\": "@ + ids@ + "}"@,
{
    framed("{\"success\": true, \"ids\": ", ids, "}")
}

/// A refusal is never mistaken for a confirmation of any kind.
pub proof fn refusal_is_no_success(reason: Seq<char>, uuid: Seq<char>, ids_json: Seq<char>)
    ensures
        error_reply(reason) != success_reply(),
        error_reply(reason) != uuid_reply(uuid),
        error_reply(reason) != ids_reply(ids_json),
{
    reveal_strlit("{\"success\": false, \"reason\": \"");
    reveal_strlit("{\"success\": true}");
    reveal_strlit("{\"success\": true, \"uuid\": \"");
    reveal_strlit("{\"success\": true, \"ids\": ");
    assert(error_reply(reason)[12] == 'f');
    assert(success_reply()[12] == 't');
    assert(uuid_reply(uuid)[12] == 't');
    assert(ids_reply(ids_json)[12] == 't');
}

proof fn lemma_framed(before: Seq<char>, after: Seq<char>, a: Seq<char>, b: Seq<char>)
    requires
        before + a + after == before + b + after,
    ensures
        a == b,
{
    let s = before + a + after;
    let t = before + b + after;
    assert(s.len() == t.len());
    assert(a =~= s.subrange(before.len() as int, (before.len() + a.len()) as int));
    assert(b =~= t.subrange(before.len() as int, (before.len() + b.len()) as int));
}

/// Two refusals with the same text have the same reason.
pub proof fn refusal_tells_its_reason(a: Seq<char>, b: Seq<char>)
    requires
        error_reply(a) == error_reply(b),
    ensures
        a == b,
{
    lemma_framed("{\"success\": false, \"reason\": \""@, "\"}"@, a, b);
}

/// The answer to a registration tells the device its identifier.
pub proof fn registration_tells_the_identifier(a: Seq<char>, b: Seq<char>)
    requires
        uuid_reply(a) == uuid_reply(b),
    ensures
        a == b,
{
    lemma_framed("{\"success\": true, \"uuid\": \""@, "\"}"@, a, b);
}

/// The answer to a query tells the list.
pub proof fn query_tells_the_list(a: Seq<char>, b: Seq<char>)
    requires
        ids_reply(a) == ids_reply(b),
    ensures
        a == b,
{
    lemma_framed("{\"success\": true, \"ids\": "@, "}"@, a, b);
}

} // verus!
