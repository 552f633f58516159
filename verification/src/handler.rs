//! What the server does about a command.

use std::collections::HashSet;

use tokio::sync::mpsc;
use vstd::prelude::*;

use crate::channel::{Channel, ChannelView};
use crate::client::{among, lemma_among, ClientId, ClientView};
use crate::command::{Command, CommandView};
use crate::message::{
    join_message, joined, need_more_params, need_more_params_message, part_message, parted,
    privmsg_message, said, welcome, welcome_message,
};
use crate::server::{one_sender_each, senders_of, Server, ServerView};
use crate::text::same_text;

verus! {

broadcast use vstd::std_specs::hash::group_hash_axioms;

/// What is to be done about a command.
#[derive(Debug)]
pub enum Reaction {
    /// Send a message to clients.
    Deliver { message: String, senders: Vec<mpsc::Sender<String>> },
    /// End the connection of the client.
    Close,
    /// Send nothing.
    Silence,
}

/// A [`Reaction`] with the clients that the message is for.
pub enum ReactionView {
    Deliver { message: Seq<char>, to: Set<ClientId> },
    Close,
    Silence,
}

/// Whether a reaction is the wanted one: the same message, with one sender for each of the clients
/// that it is for.
pub open spec fn carries_out(
    reaction: Reaction,
    wanted: ReactionView,
    clients: Map<ClientId, ClientView>,
) -> bool {
    match (reaction, wanted) {
        (
            Reaction::Deliver { message, senders },
            ReactionView::Deliver { message: text, to },
        ) => message@ == text && one_sender_each(senders@, clients, to),
        (Reaction::Close, ReactionView::Close) => true,
        (Reaction::Silence, ReactionView::Silence) => true,
        _ => false,
    }
}

/// The channels once `id` has entered `name`. A channel that is not there is made.
pub open spec fn with_member(
    channels: Map<Seq<char>, ChannelView>,
    name: Seq<char>,
    id: ClientId,
) -> Map<Seq<char>, ChannelView> {
    let channel = if channels.contains_key(name) {
        channels[name]
    } else {
        ChannelView { name, topic: None, members: Set::empty() }
    };
    channels.insert(name, ChannelView { members: channel.members.insert(id), ..channel })
}

/// The channels once `id` has left `name`. A channel without members is removed.
pub open spec fn left_by(
    channels: Map<Seq<char>, ChannelView>,
    name: Seq<char>,
    id: ClientId,
) -> Map<Seq<char>, ChannelView> {
    let channel = channels[name].without(id);
    if channel.members.is_empty() {
        channels.remove(name)
    } else {
        channels.insert(name, channel)
    }
}

impl ServerView {
    /// Whether `id` is connected and registered.
    pub open spec fn registered(self, id: ClientId) -> bool {
        self.clients.contains_key(id) && self.clients[id].registered()
    }

    /// Whether `id` is a member of the channel `name`.
    pub open spec fn is_member(self, name: Seq<char>, id: ClientId) -> bool {
        self.channels.contains_key(name) && self.channels[name].members.contains(id)
    }

    /// The clients with the nickname `nickname`.
    pub open spec fn bearers(self, nickname: Seq<char>) -> Set<ClientId> {
        Set::new(
            |id: ClientId|
                self.clients.contains_key(id) && self.clients[id].nickname == Some(nickname),
        )
    }

    /// The server once `id` has sent `command`.
    pub open spec fn after(self, id: ClientId, command: CommandView) -> ServerView {
        if !self.clients.contains_key(id) {
            self
        } else {
            let client = self.clients[id];
            match command {
                CommandView::Nick(nickname) => self.with_client(
                    id,
                    ClientView { nickname: Some(nickname), ..client },
                ),
                CommandView::User { username, realname } => self.with_client(
                    id,
                    ClientView { username: Some(username), realname: Some(realname), ..client },
                ),
                CommandView::Join(name) if client.registered() => ServerView {
                    channels: with_member(self.channels, name, id),
                    ..self
                },
                CommandView::Part(name) if client.registered() && self.is_member(
                    name,
                    id,
                ) => ServerView { channels: left_by(self.channels, name, id), ..self },
                _ => self,
            }
        }
    }

    /// The greeting, where `id` is registered in `self` and was not in `before`.
    pub open spec fn greeting(self, before: ServerView, id: ClientId) -> ReactionView {
        if self.registered(id) && !before.registered(id) {
            ReactionView::Deliver {
                message: welcome(self.clients[id].nickname->0),
                to: set![id],
            }
        } else {
            ReactionView::Silence
        }
    }

    /// What is to be done once `id` has sent `command`.
    pub open spec fn reaction(self, id: ClientId, command: CommandView) -> ReactionView {
        let nickname = match self.nickname_of(id) {
            Some(nickname) => nickname,
            None => "*"@,
        };
        match command {
            CommandView::Quit => ReactionView::Close,
            CommandView::NeedMoreParams(name) => if self.clients.contains_key(id) {
                ReactionView::Deliver { message: need_more_params(nickname, name), to: set![id] }
            } else {
                ReactionView::Silence
            },
            CommandView::Nick(_) | CommandView::User { .. } => self.after(id, command).greeting(
                self,
                id,
            ),
            CommandView::Join(name) => if self.registered(id) {
                ReactionView::Deliver {
                    message: joined(nickname, name),
                    to: self.after(id, command).channels[name].members,
                }
            } else {
                ReactionView::Silence
            },
            CommandView::Part(name) => if self.registered(id) && self.is_member(name, id) {
                ReactionView::Deliver {
                    message: parted(nickname, name),
                    to: self.channels[name].members,
                }
            } else {
                ReactionView::Silence
            },
            CommandView::Privmsg { target, message } => if !self.registered(id) {
                ReactionView::Silence
            } else if self.is_member(target, id) {
                ReactionView::Deliver {
                    message: said(nickname, target, message),
                    to: self.channels[target].members,
                }
            } else if !self.channels.contains_key(target) && !self.bearers(target).is_empty() {
                ReactionView::Deliver {
                    message: said(nickname, target, message),
                    to: self.bearers(target),
                }
            } else {
                ReactionView::Silence
            },
            _ => ReactionView::Silence,
        }
    }
}

/// The set of one client.
fn only(id: ClientId) -> (ids: HashSet<ClientId>)
    ensures
        ids@ == set![id],
{
    let mut ids: HashSet<ClientId> = HashSet::new();
    ids.insert(id);
    ids
}

impl Server {
    /// Takes a message to the clients among `ids`.
    fn deliver(&self, message: String, ids: &HashSet<ClientId>) -> (reaction: Reaction)
        ensures
            carries_out(
                reaction,
                ReactionView::Deliver { message: message@, to: ids@ },
                self@.clients,
            ),
    {
        Reaction::Deliver { message, senders: senders_of(&self.clients, ids) }
    }

    /// The nickname of `id`, or an asterisk where it has none.
    fn nickname_or_star(&self, id: ClientId) -> (nickname: String)
        ensures
            nickname@ == match self@.nickname_of(id) {
                Some(nickname) => nickname,
                None => "*"@,
            },
    {
        if let Some(client) = self.clients.get(&id) {
            if let Some(nickname) = &client.nickname {
                return nickname.clone();
            }
        }
        "*".to_string()
    }

    /// Whether `id` is connected and registered.
    pub fn has_registered(&self, id: ClientId) -> (registered: bool)
        ensures
            registered == self@.registered(id),
    {
        match self.clients.get(&id) {
            Some(client) => client.is_registered(),
            None => false,
        }
    }

    /// Greets `id` where it is registered and was not before.
    fn greet(&self, id: ClientId, was_registered: bool) -> (reaction: Reaction)
        ensures
            forall|before: ServerView| was_registered == before.registered(id) ==> carries_out(
                reaction,
                #[trigger] self@.greeting(before, id),
                self@.clients,
            ),
    {
        if !was_registered && self.has_registered(id) {
            let nickname = self.nickname_or_star(id);
            self.deliver(welcome_message(nickname.as_str()), &only(id))
        } else {
            Reaction::Silence
        }
    }

    /// `NICK`: gives the client a nickname.
    fn nick(&mut self, id: ClientId, nickname: String) -> (reaction: Reaction)
        ensures
            final(self)@ == old(self)@.after(id, CommandView::Nick(nickname@)),
            carries_out(
                reaction,
                old(self)@.reaction(id, CommandView::Nick(nickname@)),
                final(self)@.clients,
            ),
    {
        let was_registered = self.has_registered(id);
        if let Some(mut client) = self.clients.remove(&id) {
            client.nickname = Some(nickname);
            self.clients.insert(id, client);
        }
        assert(self@ =~= old(self)@.after(id, CommandView::Nick(nickname@)));
        self.greet(id, was_registered)
    }

    /// `USER`: gives the client a user name and a real name.
    fn user(&mut self, id: ClientId, username: String, realname: String) -> (reaction: Reaction)
        ensures
            ({
                let command = CommandView::User { username: username@, realname: realname@ };
                &&& final(self)@ == old(self)@.after(id, command)
                &&& carries_out(reaction, old(self)@.reaction(id, command), final(self)@.clients)
            }),
    {
        let was_registered = self.has_registered(id);
        if let Some(mut client) = self.clients.remove(&id) {
            client.username = Some(username);
            client.realname = Some(realname);
            self.clients.insert(id, client);
        }
        assert(self@ =~= old(self)@.after(
            id,
            CommandView::User { username: username@, realname: realname@ },
        ));
        self.greet(id, was_registered)
    }

    /// `JOIN`: takes the client into a channel, and tells all members, the client among them.
    fn join(&mut self, id: ClientId, name: String) -> (reaction: Reaction)
        ensures
            final(self)@ == old(self)@.after(id, CommandView::Join(name@)),
            carries_out(
                reaction,
                old(self)@.reaction(id, CommandView::Join(name@)),
                final(self)@.clients,
            ),
    {
        if !self.has_registered(id) {
            return Reaction::Silence;
        }
        let mut channel = match self.channels.remove(name.as_str()) {
            Some(channel) => channel,
            None => Channel::new(name.as_str()),
        };
        channel.members.insert(id);
        let nickname = self.nickname_or_star(id);
        let message = join_message(nickname.as_str(), name.as_str());
        let reaction = self.deliver(message, &channel.members);
        self.channels.insert(name, channel);
        assert(self@ =~= old(self)@.after(id, CommandView::Join(name@)));
        reaction
    }

    /// `PART`: takes the client out of a channel, and tells all members, the client among them.
    fn part(&mut self, id: ClientId, name: String) -> (reaction: Reaction)
        ensures
            final(self)@ == old(self)@.after(id, CommandView::Part(name@)),
            carries_out(
                reaction,
                old(self)@.reaction(id, CommandView::Part(name@)),
                final(self)@.clients,
            ),
    {
        let is_member = match self.channels.get(name.as_str()) {
            Some(channel) => channel.members.contains(&id),
            None => false,
        };
        if !is_member || !self.has_registered(id) {
            return Reaction::Silence;
        }
        let mut reaction = Reaction::Silence;
        if let Some(mut channel) = self.channels.remove(name.as_str()) {
            let nickname = self.nickname_or_star(id);
            let message = part_message(nickname.as_str(), name.as_str());
            reaction = self.deliver(message, &channel.members);
            channel.members.remove(&id);
            if !channel.members.is_empty() {
                self.channels.insert(name, channel);
            }
        }
        assert(self@ =~= old(self)@.after(id, CommandView::Part(name@)));
        reaction
    }

    /// The clients with the nickname `nickname`.
    fn bearers_of(&self, nickname: &str) -> (found: HashSet<ClientId>)
        ensures
            found@ == self@.bearers(nickname@),
    {
        let mut found: HashSet<ClientId> = HashSet::new();
        let iter = self.clients.keys();
        let ghost all = vstd::std_specs::iter::IteratorSpec::remaining(&iter);
        proof {
            lemma_among(all, self.clients@.dom());
        }
        for id in it: iter
            invariant
                it.seq() == all,
                forall|bearer: ClientId| #[trigger]
                    found@.contains(bearer) <==> self@.bearers(nickname@).contains(bearer)
                        && among(all, it.index() as int, bearer),
        {
            if let Some(client) = self.clients.get(id) {
                if let Some(own) = &client.nickname {
                    if same_text(own.as_str(), nickname) {
                        found.insert(*id);
                    }
                }
            }
        }
        assert(found@ =~= self@.bearers(nickname@));
        found
    }

    /// `PRIVMSG`: takes what a member says to all members of the channel, itself among them, and
    /// what a client says to another to that one.
    fn privmsg(&self, id: ClientId, target: String, text: String) -> (reaction: Reaction)
        ensures
            carries_out(
                reaction,
                self@.reaction(
                    id,
                    CommandView::Privmsg { target: target@, message: text@ },
                ),
                self@.clients,
            ),
    {
        if !self.has_registered(id) {
            return Reaction::Silence;
        }
        let nickname = self.nickname_or_star(id);
        let message = privmsg_message(nickname.as_str(), target.as_str(), text.as_str());
        match self.channels.get(target.as_str()) {
            Some(channel) => {
                if channel.members.contains(&id) {
                    self.deliver(message, &channel.members)
                } else {
                    Reaction::Silence
                }
            },
            None => {
                let bearers = self.bearers_of(target.as_str());
                if bearers.is_empty() {
                    Reaction::Silence
                } else {
                    self.deliver(message, &bearers)
                }
            },
        }
    }

    /// Carries out a command that `id` has sent, and says what is to be sent to whom.
    pub fn handle_command(&mut self, id: ClientId, command: Command) -> (reaction: Reaction)
        ensures
            final(self)@ == old(self)@.after(id, command@),
            carries_out(reaction, old(self)@.reaction(id, command@), final(self)@.clients),
    {
        match command {
            Command::Nick(nickname) => self.nick(id, nickname),
            Command::User { username, realname } => self.user(id, username, realname),
            Command::Join(name) => self.join(id, name),
            Command::Part(name) => self.part(id, name),
            Command::Privmsg { target, message } => self.privmsg(id, target, message),
            Command::NeedMoreParams(name) => {
                if self.clients.contains_key(&id) {
                    let nickname = self.nickname_or_star(id);
                    let message = need_more_params_message(nickname.as_str(), name.as_str());
                    self.deliver(message, &only(id))
                } else {
                    Reaction::Silence
                }
            },
            Command::Quit => Reaction::Close,
            _ => Reaction::Silence,
        }
    }
}

} // verus!
