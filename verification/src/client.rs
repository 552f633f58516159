//! A connected client.

use tokio::sync::mpsc;
use vstd::prelude::*;

use crate::text::string_of;

verus! {

/// The number of a client. It names the client as long as it is connected.
pub type ClientId = u64;

/// Whether `id` is one of the first `n` elements of `ids`.
pub open spec fn among(ids: Seq<&ClientId>, n: int, id: ClientId) -> bool {
    exists|i: int| 0 <= i < n && *(#[trigger] ids[i]) == id
}

/// A list of a set holds the elements of the set.
pub proof fn lemma_among(ids: Seq<&ClientId>, all: Set<ClientId>)
    requires
        ids.unref().to_set() == all,
    ensures
        forall|id: ClientId| #[trigger] all.contains(id) <==> among(ids, ids.len() as int, id),
{
    assert forall|id: ClientId| #[trigger] all.contains(id) <==> among(
        ids,
        ids.len() as int,
        id,
    ) by {
        if all.contains(id) {
            let i = choose|i: int| 0 <= i < ids.unref().len() && ids.unref()[i] == id;
            assert(*ids[i] == id);
        }
        if among(ids, ids.len() as int, id) {
            let i = choose|i: int| 0 <= i < ids.len() && *(#[trigger] ids[i]) == id;
            assert(ids.unref()[i] == id);
        }
    }
}

/// Declares `tokio::sync::mpsc::Sender`, the sending half of a bounded queue.
#[verifier::external_type_specification]
#[verifier::external_body]
#[verifier::reject_recursive_types(T)]
pub struct ExSender<T>(tokio::sync::mpsc::Sender<T>);

/// Specifies `Clone::clone` of `tokio::sync::mpsc::Sender`: the copy is a handle of the same
/// queue, and so interchangeable with the one that was cloned.
pub assume_specification<T>[ <tokio::sync::mpsc::Sender<T> as Clone>::clone ](
    sender: &tokio::sync::mpsc::Sender<T>,
) -> (copy: tokio::sync::mpsc::Sender<T>)
    ensures
        copy == *sender,
;

/// What the server knows of a client, and the queue of the messages that it sends to it.
#[derive(Debug)]
pub struct Client {
    pub nickname: Option<String>,
    pub username: Option<String>,
    pub realname: Option<String>,
    pub sender: mpsc::Sender<String>,
}

/// A [`Client`] with its texts as sequences of characters.
pub struct ClientView {
    pub nickname: Option<Seq<char>>,
    pub username: Option<Seq<char>>,
    pub realname: Option<Seq<char>>,
    pub sender: mpsc::Sender<String>,
}

impl View for Client {
    type V = ClientView;

    open spec fn view(&self) -> ClientView {
        ClientView {
            nickname: string_of(self.nickname),
            username: string_of(self.username),
            realname: string_of(self.realname),
            sender: self.sender,
        }
    }
}

impl ClientView {
    /// A client is registered once it has sent `NICK` and `USER`.
    pub open spec fn registered(self) -> bool {
        self.nickname is Some && self.username is Some
    }
}

impl Client {
    /// A client that has said nothing yet.
    pub fn new(sender: mpsc::Sender<String>) -> (client: Self)
        ensures
            client@ == (ClientView { nickname: None, username: None, realname: None, sender }),
    {
        Self { nickname: None, username: None, realname: None, sender }
    }

    /// Whether the client has sent `NICK` and `USER`.
    pub fn is_registered(&self) -> (registered: bool)
        ensures
            registered == self@.registered(),
    {
        self.nickname.is_some() && self.username.is_some()
    }
}

} // verus!
