//! The state of the server.

use crate::json::texts;
use crate::table::Table;
use vstd::prelude::*;

verus! {

/// A request to open an account.
pub struct Account {
    pub email: String,
    pub password: String,
}

/// A request to register a device, with the account that it belongs to.
pub struct IDSPost {
    pub email: String,
    pub password: String,
    pub public_key: String,
}

/// A registered device.
pub struct IDSInfo {
    pub account: String,
    pub uuid: String,
    pub public_key: String,
}

#[verifier::ext_equal]
pub struct DeviceView {
    pub account: Seq<char>,
    pub uuid: Seq<char>,
    pub public_key: Seq<char>,
}

impl View for IDSInfo {
    type V = DeviceView;

    open spec fn view(&self) -> DeviceView {
        DeviceView { account: self.account@, uuid: self.uuid@, public_key: self.public_key@ }
    }
}

impl Clone for IDSInfo {
    fn clone(&self) -> (copy: Self)
        ensures
            copy == *self,
    {
        IDSInfo {
            account: self.account.clone(),
            uuid: self.uuid.clone(),
            public_key: self.public_key.clone(),
        }
    }
}

/// The whole state: who may log in, which devices there are, which files wait
/// for a device, and how to reach the devices that are connected. `S` is what
/// reaches a connected device.
#[verifier::reject_recursive_types(S)]
pub struct Server<S> {
    pub event_stream_senders: Table<S>,
    pub ids: Table<IDSInfo>,
    pub message_queue: Table<Vec<String>>,
    pub accounts: Table<u64>,
}

#[verifier::ext_equal]
#[verifier::reject_recursive_types(S)]
pub struct ServerView<S> {
    /// What reaches each connected device.
    pub senders: Map<Seq<char>, S>,
    /// The devices, by their identifier.
    pub ids: Map<Seq<char>, DeviceView>,
    /// The names of the files that wait for a device, in the order in which they came.
    pub queue: Map<Seq<char>, Seq<Seq<char>>>,
    /// The hash of each account's password.
    pub accounts: Map<Seq<char>, u64>,
}

/// The devices of a table.
pub open spec fn devices(ids: Map<Seq<char>, IDSInfo>) -> Map<Seq<char>, DeviceView> {
    ids.map_values(|d: IDSInfo| d@)
}

/// The queues of a table.
pub open spec fn queues(queue: Map<Seq<char>, Vec<String>>) -> Map<Seq<char>, Seq<Seq<char>>> {
    queue.map_values(|q: Vec<String>| texts(q@))
}

impl<S> View for Server<S> {
    type V = ServerView<S>;

    open spec fn view(&self) -> ServerView<S> {
        ServerView {
            senders: self.event_stream_senders@,
            ids: devices(self.ids@),
            queue: queues(self.message_queue@),
            accounts: self.accounts@,
        }
    }
}

impl<S> Server<S> {
    /// The devices, in the order in which they are listed.
    pub open spec fn listed(&self) -> Seq<DeviceView> {
        self.ids.entries().map_values(|e: (Seq<char>, IDSInfo)| e.1@)
    }
}

impl<S> ServerView<S> {
    /// The state of a server that nobody has used.
    pub open spec fn empty() -> Self {
        ServerView {
            senders: Map::empty(),
            ids: Map::empty(),
            queue: Map::empty(),
            accounts: Map::empty(),
        }
    }
}

impl<S> Server<S> {
    /// A server without accounts, devices, messages or connections.
    pub fn new() -> (server: Self)
        ensures
            server@ == ServerView::<S>::empty(),
            server.listed() == Seq::<DeviceView>::empty(),
    {
        let server = Server {
            event_stream_senders: Table::new(),
            ids: Table::new(),
            message_queue: Table::new(),
            accounts: Table::new(),
        };
        assert(server@ =~= ServerView::<S>::empty());
        assert(server.listed() =~= Seq::<DeviceView>::empty());
        server
    }
}

pub(crate) proof fn lemma_devices_insert(
    ids: Map<Seq<char>, IDSInfo>,
    key: Seq<char>,
    device: IDSInfo,
)
    ensures
        devices(ids.insert(key, device)) == devices(ids).insert(key, device@),
{
    assert(devices(ids.insert(key, device)) =~= devices(ids).insert(key, device@));
}

pub(crate) proof fn lemma_queues_insert(
    queue: Map<Seq<char>, Vec<String>>,
    key: Seq<char>,
    files: Vec<String>,
)
    ensures
        queues(queue.insert(key, files)) == queues(queue).insert(key, texts(files@)),
{
    assert(queues(queue.insert(key, files)) =~= queues(queue).insert(key, texts(files@)));
}

pub(crate) proof fn lemma_queues_remove(queue: Map<Seq<char>, Vec<String>>, key: Seq<char>)
    ensures
        queues(queue.remove(key)) == queues(queue).remove(key),
{
    assert(queues(queue.remove(key)) =~= queues(queue).remove(key));
}

} // verus!
