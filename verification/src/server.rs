//! The state of the server.

use std::collections::{HashMap, HashSet};

use tokio::sync::mpsc;
use vstd::prelude::*;

use crate::channel::{peers, without_member, ChannelMap, ChannelView};
use crate::client::{among, lemma_among, Client, ClientId, ClientView};
use crate::message::{quit, quit_message};
use crate::text::string_of;

verus! {

broadcast use vstd::std_specs::hash::group_hash_axioms;

/// All clients and all channels.
#[derive(Debug)]
pub struct Server {
    pub clients: HashMap<ClientId, Client>,
    pub channels: ChannelMap,
}

/// A [`Server`] as mathematical values.
#[verifier::ext_equal]
pub struct ServerView {
    pub clients: Map<ClientId, ClientView>,
    pub channels: Map<Seq<char>, ChannelView>,
}

impl View for Server {
    type V = ServerView;

    open spec fn view(&self) -> ServerView {
        ServerView { clients: client_views(self.clients@), channels: self.channels@ }
    }
}

/// The clients with their texts as sequences of characters.
pub open spec fn client_views(clients: Map<ClientId, Client>) -> Map<ClientId, ClientView> {
    clients.map_values(|client: Client| client@)
}

impl ServerView {
    /// A server without clients and channels.
    pub open spec fn empty() -> ServerView {
        ServerView { clients: Map::empty(), channels: Map::empty() }
    }

    /// The nickname of `id`, where `id` is connected and has one.
    pub open spec fn nickname_of(self, id: ClientId) -> Option<Seq<char>> {
        if self.clients.contains_key(id) {
            self.clients[id].nickname
        } else {
            None
        }
    }

    /// The server with a new record for the client `id`.
    pub open spec fn with_client(self, id: ClientId, client: ClientView) -> ServerView {
        ServerView { clients: self.clients.insert(id, client), ..self }
    }

    /// The server once `id` has connected, with `sender` as its queue.
    pub open spec fn connected(self, id: ClientId, sender: mpsc::Sender<String>) -> ServerView {
        self.with_client(
            id,
            ClientView { nickname: None, username: None, realname: None, sender },
        )
    }

    /// The server once `id` is gone: neither the clients nor the members of a channel hold it, and
    /// no channel is without members.
    pub open spec fn disconnected(self, id: ClientId) -> ServerView {
        ServerView {
            clients: self.clients.remove(id),
            channels: without_member(self.channels, id),
        }
    }
}

/// What is to be said of a client that is gone, and to whom.
#[derive(Debug)]
pub struct DisconnectResult {
    pub nickname: Option<String>,
    pub senders: Vec<mpsc::Sender<String>>,
}

/// Whether `order` lists the clients of `ids`, each once.
pub open spec fn lists(order: Seq<ClientId>, ids: Set<ClientId>) -> bool {
    &&& order.no_duplicates()
    &&& order.to_set() == ids
}

/// The senders of the clients in `order`.
pub open spec fn senders_in(
    clients: Map<ClientId, ClientView>,
    order: Seq<ClientId>,
) -> Seq<mpsc::Sender<String>> {
    Seq::new(order.len(), |i: int| clients[order[i]].sender)
}

/// Whether `senders` are the senders of the clients among `ids` that are connected, one for each,
/// in some order.
pub open spec fn one_sender_each(
    senders: Seq<mpsc::Sender<String>>,
    clients: Map<ClientId, ClientView>,
    ids: Set<ClientId>,
) -> bool {
    exists|order: Seq<ClientId>| #[trigger]
        lists(order, ids.intersect(clients.dom())) && senders == senders_in(clients, order)
}

/// The senders of the clients among `ids` that are connected.
pub(crate) fn senders_of(
    clients: &HashMap<ClientId, Client>,
    ids: &HashSet<ClientId>,
) -> (senders: Vec<mpsc::Sender<String>>)
    ensures
        one_sender_each(senders@, client_views(clients@), ids@),
{
    let mut senders: Vec<mpsc::Sender<String>> = Vec::new();
    let ghost mut order: Seq<ClientId> = Seq::empty();
    let iter = ids.iter();
    let ghost all = vstd::std_specs::iter::IteratorSpec::remaining(&iter);
    proof {
        lemma_among(all, ids@);
    }
    for id in it: iter
        invariant
            it.seq() == all,
            all.no_duplicates(),
            order.no_duplicates(),
            senders@ == senders_in(client_views(clients@), order),
            forall|i: int| 0 <= i < order.len() ==> clients@.contains_key(#[trigger] order[i]),
            forall|known: ClientId| #[trigger]
                order.contains(known) <==> clients@.contains_key(known) && among(
                    all,
                    it.index() as int,
                    known,
                ),
    {
        if let Some(client) = clients.get(id) {
            senders.push(client.sender.clone());
            proof {
                assert(!order.contains(*id));
                broadcast use vstd::seq_lib::lemma_seq_contains_after_push;

                order = order.push(*id);
            }
        }
    }
    proof {
        assert(order.to_set() =~= ids@.intersect(client_views(clients@).dom()));
        assert(lists(order, ids@.intersect(client_views(clients@).dom())));
    }
    senders
}

impl Default for Server {
    /// A server without clients and channels.
    fn default() -> (server: Self)
        ensures
            server@ == ServerView::empty(),
    {
        let server = Self { clients: HashMap::new(), channels: ChannelMap::new() };
        assert(server@ =~= ServerView::empty());
        server
    }
}

impl DisconnectResult {
    /// The message for those who are still there, where the client had a nickname.
    pub fn notice(&self) -> (message: Option<String>)
        ensures
            string_of(message) == match string_of(self.nickname) {
                Some(nickname) => Some(quit(nickname)),
                None => None,
            },
    {
        match &self.nickname {
            Some(nickname) => Some(quit_message(nickname.as_str())),
            None => None,
        }
    }
}

impl Server {
    /// Takes up a client that has connected.
    pub fn connect_client(&mut self, client_id: ClientId, sender: mpsc::Sender<String>)
        ensures
            final(self)@ == old(self)@.connected(client_id, sender),
    {
        self.clients.insert(client_id, Client::new(sender));
        assert(self@ =~= old(self)@.connected(client_id, sender));
    }

    /// Forgets `client_id`: it leaves every channel, and channels that are then without members
    /// are removed. Returns its nickname, and the senders of the other members of its channels.
    pub fn disconnect_client(&mut self, client_id: ClientId) -> (result: DisconnectResult)
        ensures
            final(self)@ == old(self)@.disconnected(client_id),
            string_of(result.nickname) == old(self)@.nickname_of(client_id),
            one_sender_each(
                result.senders@,
                old(self)@.clients,
                peers(old(self)@.channels, client_id),
            ),
    {
        let nickname = match self.clients.get(&client_id) {
            Some(client) => client.nickname.clone(),
            None => None,
        };
        let member_ids = self.channels.peers_of(client_id);
        let senders = senders_of(&self.clients, &member_ids);
        self.clients.remove(&client_id);
        self.channels.remove_member(client_id);
        assert(self@ =~= old(self)@.disconnected(client_id));
        DisconnectResult { nickname, senders }
    }
}

} // verus!
