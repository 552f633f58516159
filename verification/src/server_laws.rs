//! What holds of the server in every state and after every command.

use tokio::sync::mpsc;
use vstd::prelude::*;

use crate::channel::{peers, without_member, Channel, ChannelView};
use crate::client::{Client, ClientId, ClientView};
use crate::command::{ascii_command_of, CommandView};
use crate::command_laws::{
    blank, law_missing_parameters, law_written_commands_are_read_back, line_of, needs_params, plain,
    tight, unbroken,
};
use crate::handler::{carries_out, Reaction, ReactionView};
use crate::message::{joined, need_more_params, parted, said, welcome};
use crate::server::{lists, one_sender_each, senders_in, Server, ServerView};

verus! {

/// Of a client that is gone nothing is left: it is neither connected nor a member of a channel.
pub proof fn law_disconnected_client_is_gone(server: ServerView, id: ClientId)
    ensures
        ({
            let after = server.disconnected(id);
            &&& !after.clients.contains_key(id)
            &&& forall|name: Seq<char>| !#[trigger] after.is_member(name, id)
        }),
{
}

/// After a client is gone every channel has a member.
pub proof fn law_empty_channels_are_removed(server: ServerView, id: ClientId)
    ensures
        forall|name: Seq<char>| #[trigger]
            server.disconnected(id).channels.contains_key(name) ==> !server.disconnected(
                id,
            ).channels[name].members.is_empty(),
{
}

/// That a client is gone changes nothing for the others: their records, the channels that they are
/// in, and the topics of these.
pub proof fn law_others_stay(server: ServerView, id: ClientId, other: ClientId, name: Seq<char>)
    requires
        other != id,
    ensures
        ({
            let after = server.disconnected(id);
            &&& after.clients.contains_key(other) <==> server.clients.contains_key(other)
            &&& server.clients.contains_key(other) ==> after.clients[other]
                == server.clients[other]
            &&& after.is_member(name, other) <==> server.is_member(name, other)
            &&& server.is_member(name, other) ==> after.channels[name]
                == server.channels[name].without(id)
        }),
{
    if server.is_member(name, other) {
        assert(server.channels[name].without(id).members.contains(other));
    }
}

/// To disconnect a client twice is to disconnect it once; the second time there is nobody to tell
/// and nothing to say.
pub proof fn law_disconnecting_twice_changes_nothing(server: ServerView, id: ClientId)
    ensures
        ({
            let after = server.disconnected(id);
            &&& after.disconnected(id) == after
            &&& after.nickname_of(id) is None
            &&& peers(after.channels, id) == Set::<ClientId>::empty()
        }),
{
    let after = server.disconnected(id);
    assert forall|name: Seq<char>| #[trigger] after.channels.contains_key(name) implies after.channels[name].without(
        id,
    ) == after.channels[name] by {
        assert(after.channels[name].without(id).members =~= after.channels[name].members);
    }
    assert(after.disconnected(id).clients =~= after.clients);
    assert(after.disconnected(id).channels =~= after.channels);
    assert(peers(after.channels, id) =~= Set::<ClientId>::empty());
}

/// In which order two clients are disconnected makes no difference.
pub proof fn law_disconnects_commute(server: ServerView, a: ClientId, b: ClientId)
    ensures
        server.disconnected(a).disconnected(b) == server.disconnected(b).disconnected(a),
{
    let left = server.disconnected(a).disconnected(b);
    let right = server.disconnected(b).disconnected(a);
    assert forall|channel: ChannelView| #[trigger] channel.without(a).without(b)
        == channel.without(b).without(a) by {
        assert(channel.members.remove(a).remove(b) =~= channel.members.remove(b).remove(a));
    }
    assert forall|channel: ChannelView|
        !channel.without(a).without(b).members.is_empty() implies !#[trigger] channel.without(
        a,
    ).members.is_empty() && !#[trigger] channel.without(b).members.is_empty() by {
        let id = choose|id: ClientId| channel.without(a).without(b).members.contains(id);
        assert(channel.without(a).without(b).members.contains(id)) by {
            if forall|id: ClientId| !channel.without(a).without(b).members.contains(id) {
                assert(channel.without(a).without(b).members =~= Set::<ClientId>::empty());
            }
        }
        assert(channel.without(a).members.contains(id));
        assert(channel.without(b).members.contains(id));
    }
    assert(left.clients =~= right.clients);
    assert forall|name: Seq<char>|
        left.channels.contains_key(name) == right.channels.contains_key(name) && (
        #[trigger] left.channels.contains_key(name) ==> left.channels[name]
            == right.channels[name]) by {
        if server.channels.contains_key(name) {
            let channel = server.channels[name];
            assert(channel.without(a).without(b) == channel.without(b).without(a));
        }
    }
    assert(left.channels =~= right.channels);
}

/// Two clients are peers of each other, and nobody is its own peer.
pub proof fn law_peers_are_mutual(
    channels: Map<Seq<char>, ChannelView>,
    a: ClientId,
    b: ClientId,
)
    ensures
        peers(channels, a).contains(b) <==> peers(channels, b).contains(a),
        !peers(channels, a).contains(a),
{
}

/// Whether `sender` is that of a peer of `id` who is connected after `id` is gone.
pub open spec fn is_of_peer(
    sender: mpsc::Sender<String>,
    server: ServerView,
    id: ClientId,
) -> bool {
    exists|peer: ClientId| #[trigger]
        peers(server.channels, id).contains(peer) && server.disconnected(id).clients.contains_key(
            peer,
        ) && server.disconnected(id).clients[peer].sender == sender
}

/// When a client is disconnected there are as many senders as it had connected peers, and each
/// belongs to one of them, who stays connected.
pub proof fn law_those_who_are_told_stay(
    server: ServerView,
    id: ClientId,
    senders: Seq<mpsc::Sender<String>>,
)
    requires
        one_sender_each(senders, server.clients, peers(server.channels, id)),
    ensures
        senders.len() == peers(server.channels, id).intersect(server.clients.dom()).len(),
        forall|i: int| 0 <= i < senders.len() ==> is_of_peer(#[trigger] senders[i], server, id),
{
    let told = peers(server.channels, id).intersect(server.clients.dom());
    let order = choose|order: Seq<ClientId>| #[trigger]
        lists(order, told) && senders == senders_in(server.clients, order);
    order.unique_seq_to_set();
    assert forall|i: int| 0 <= i < senders.len() implies is_of_peer(
        #[trigger] senders[i],
        server,
        id,
    ) by {
        let peer = order[i];
        assert(order.to_set().contains(peer));
        assert(peers(server.channels, id).contains(peer));
    }
}

/// Every member of a channel is a registered client, every channel has a member, and every channel
/// stands under its own name.
pub open spec fn sound(server: ServerView) -> bool {
    &&& forall|name: Seq<char>, id: ClientId| #[trigger]
        server.is_member(name, id) ==> server.registered(id)
    &&& forall|name: Seq<char>| #[trigger]
        server.channels.contains_key(name) ==> !server.channels[name].members.is_empty()
            && server.channels[name].name == name
}

/// The server is sound from the start, and stays so whatever the clients do: they connect, send
/// commands and disconnect.
pub proof fn law_server_stays_sound(
    server: ServerView,
    id: ClientId,
    sender: mpsc::Sender<String>,
    command: CommandView,
)
    requires
        sound(server),
    ensures
        sound(ServerView::empty()),
        !server.clients.contains_key(id) ==> sound(server.connected(id, sender)),
        sound(server.after(id, command)),
        sound(server.disconnected(id)),
{
    let connected = server.connected(id, sender);
    if !server.clients.contains_key(id) {
        assert forall|name: Seq<char>, member: ClientId| #[trigger]
            connected.is_member(name, member) implies connected.registered(member) by {
            assert(server.is_member(name, member));
        }
    }
    let gone = server.disconnected(id);
    assert forall|name: Seq<char>, member: ClientId| #[trigger]
        gone.is_member(name, member) implies gone.registered(member) by {
        assert(server.is_member(name, member));
    }
    let after = server.after(id, command);
    assert forall|name: Seq<char>, member: ClientId| #[trigger]
        after.is_member(name, member) implies after.registered(member) by {
        if member != id {
            assert(server.is_member(name, member));
        } else if command is Join {
        } else {
            assert(server.is_member(name, member));
        }
    }
    assert forall|name: Seq<char>| #[trigger] after.channels.contains_key(name) implies
        !after.channels[name].members.is_empty() && after.channels[name].name == name by {
        if command matches CommandView::Join(entered) && after != server && name == entered {
            assert(after.channels[name].members.contains(id));
        }
    }
}

/// A command changes the record of nobody but the client that has sent it, and the channels of
/// nobody else.
pub proof fn law_commands_do_not_touch_others(
    server: ServerView,
    id: ClientId,
    command: CommandView,
    other: ClientId,
    name: Seq<char>,
)
    requires
        other != id,
    ensures
        ({
            let after = server.after(id, command);
            &&& after.clients.dom() == server.clients.dom()
            &&& after.clients[other] == server.clients[other]
            &&& after.is_member(name, other) <==> server.is_member(name, other)
            &&& after.clients.contains_key(id) ==> after.clients[id].sender
                == server.clients[id].sender
        }),
{
    let after = server.after(id, command);
    assert(after.clients.dom() =~= server.clients.dom());
    if server.is_member(name, other) {
        assert(server.channels[name].without(id).members.contains(other));
    }
}

/// A client that has not registered cannot enter, leave or reach a channel or a client.
pub proof fn law_registration_comes_first(server: ServerView, id: ClientId, command: CommandView)
    requires
        !server.registered(id),
    ensures
        server.after(id, command).channels == server.channels,
        command is Join || command is Part || command is Privmsg ==> server.reaction(id, command)
            is Silence,
{
}

/// A client is greeted when its second command of `NICK` and `USER` has come, and never again.
pub proof fn law_greeted_once(server: ServerView, id: ClientId, command: CommandView)
    requires
        command is Nick || command is User,
        server.clients.contains_key(id),
    ensures
        server.reaction(id, command) is Deliver <==> !server.registered(id) && server.after(
            id,
            command,
        ).registered(id),
        server.registered(id) ==> server.after(id, command).registered(id),
{
}

/// A client that sends its nickname and its names, in one order or the other, is greeted by its
/// nickname after the second.
pub proof fn law_registration_is_greeted(
    server: ServerView,
    id: ClientId,
    sender: mpsc::Sender<String>,
    nickname: Seq<char>,
    username: Seq<char>,
    realname: Seq<char>,
)
    ensures
        ({
            let start = server.connected(id, sender);
            let nick = CommandView::Nick(nickname);
            let user = CommandView::User { username, realname };
            let greeting = ReactionView::Deliver { message: welcome(nickname), to: set![id] };
            &&& start.reaction(id, nick) is Silence
            &&& start.after(id, nick).reaction(id, user) == greeting
            &&& start.reaction(id, user) is Silence
            &&& start.after(id, user).reaction(id, nick) == greeting
            &&& start.after(id, nick).after(id, user) == start.after(id, user).after(id, nick)
        }),
{
    let start = server.connected(id, sender);
    let nick = CommandView::Nick(nickname);
    let user = CommandView::User { username, realname };
    assert(start.after(id, nick).after(id, user).clients =~= start.after(id, user).after(
        id,
        nick,
    ).clients);
}

/// A line that names a command and lacks its parameters is answered, to its sender alone, with the
/// name of the command, and changes nothing.
pub proof fn law_missing_parameters_are_answered(
    server: ServerView,
    id: ClientId,
    name: Seq<char>,
    gap: Seq<char>,
)
    requires
        server.clients.contains_key(id),
        needs_params(name),
        blank(gap),
    ensures
        ({
            let nickname = match server.nickname_of(id) {
                Some(nickname) => nickname,
                None => "*"@,
            };
            let answer = ReactionView::Deliver {
                message: need_more_params(nickname, name),
                to: set![id],
            };
            &&& server.reaction(id, ascii_command_of(name)) == answer
            &&& server.reaction(id, ascii_command_of(name.push(' ') + gap)) == answer
            &&& server.after(id, ascii_command_of(name)) == server
            &&& server.after(id, ascii_command_of(name.push(' ') + gap)) == server
        }),
{
    law_missing_parameters(name, gap);
}

/// To leave a channel undoes to have entered it.
pub proof fn law_part_undoes_join(server: ServerView, id: ClientId, name: Seq<char>)
    requires
        sound(server),
        server.registered(id),
        !server.is_member(name, id),
    ensures
        server.after(id, CommandView::Join(name)).after(id, CommandView::Part(name)) == server,
{
    let inside = server.after(id, CommandView::Join(name));
    let outside = inside.after(id, CommandView::Part(name));
    let channel = inside.channels[name];
    assert(inside.is_member(name, id));
    if server.channels.contains_key(name) {
        assert(channel.without(id).members =~= server.channels[name].members);
        assert(channel.without(id) == server.channels[name]);
    } else {
        assert(channel.without(id).members =~= Set::<ClientId>::empty());
    }
    assert(outside.channels =~= server.channels);
}

/// What is said in a channel reaches every member, the one who has said it among them, and nobody
/// else.
pub proof fn law_channel_hears_all(
    server: ServerView,
    id: ClientId,
    channel: Seq<char>,
    message: Seq<char>,
)
    requires
        server.registered(id),
        server.is_member(channel, id),
    ensures
        server.reaction(id, CommandView::Privmsg { target: channel, message }) matches
            ReactionView::Deliver { message: text, to } && text == said(
            server.clients[id].nickname->0,
            channel,
            message,
        ) && to == server.channels[channel].members && to.contains(id),
{
}

/// Who enters or leaves a channel is announced to every member, the one who enters or leaves among
/// them.
pub proof fn law_channel_hears_who_comes_and_goes(
    server: ServerView,
    id: ClientId,
    channel: Seq<char>,
    member: ClientId,
)
    requires
        server.registered(id),
        server.is_member(channel, member),
    ensures
        server.reaction(id, CommandView::Join(channel)) matches ReactionView::Deliver {
            message,
            to,
        } && message == joined(server.clients[id].nickname->0, channel) && to.contains(id)
            && to.contains(member),
        server.is_member(channel, id) ==> (server.reaction(
            id,
            CommandView::Part(channel),
        ) matches ReactionView::Deliver { message, to } && message == parted(
            server.clients[id].nickname->0,
            channel,
        ) && to.contains(id) && to.contains(member)),
{
}

/// What is said to a nickname reaches the clients that bear it, and nobody else.
pub proof fn law_private_messages_reach_their_target(
    server: ServerView,
    id: ClientId,
    other: ClientId,
    nickname: Seq<char>,
    message: Seq<char>,
)
    requires
        server.registered(id),
        server.nickname_of(other) == Some(nickname),
        !server.channels.contains_key(nickname),
    ensures
        server.reaction(id, CommandView::Privmsg { target: nickname, message }) matches
            ReactionView::Deliver { message: text, to } && text == said(
            server.clients[id].nickname->0,
            nickname,
            message,
        ) && to.contains(other) && forall|hearer: ClientId| #[trigger]
            to.contains(hearer) ==> server.nickname_of(hearer) == Some(nickname),
{
    assert(server.bearers(nickname).contains(other));
}

/// What is relayed to the members of a channel or to a client is, behind the nickname, a line that
/// is read as the command that was sent: nothing of it is lost on the way.
pub proof fn law_relayed_lines_are_read_back(
    nickname: Seq<char>,
    target: Seq<char>,
    text: Seq<char>,
    channel: Seq<char>,
)
    requires
        target.len() > 0,
        unbroken(target),
        plain(text),
        tight(channel),
    ensures
        ({
            let behind = nickname.len() as int + 2;
            &&& ascii_command_of(said(nickname, target, text).skip(behind))
                == (CommandView::Privmsg { target, message: text })
            &&& ascii_command_of(joined(nickname, channel).skip(behind)) == CommandView::Join(
                channel,
            )
            &&& ascii_command_of(parted(nickname, channel).skip(behind)) == CommandView::Part(
                channel,
            )
        }),
{
    let behind = nickname.len() as int + 2;
    reveal_strlit(":");
    reveal_strlit(" :");
    reveal_strlit(" PRIVMSG ");
    reveal_strlit("PRIVMSG");
    reveal_strlit(" JOIN ");
    reveal_strlit("JOIN");
    reveal_strlit(" PART ");
    reveal_strlit("PART");
    let privmsg = CommandView::Privmsg { target, message: text };
    law_written_commands_are_read_back(privmsg);
    law_written_commands_are_read_back(CommandView::Join(channel));
    law_written_commands_are_read_back(CommandView::Part(channel));
    assert(said(nickname, target, text).skip(behind) =~= line_of(privmsg));
    assert(joined(nickname, channel).skip(behind) =~= line_of(CommandView::Join(channel)));
    assert(parted(nickname, channel).skip(behind) =~= line_of(CommandView::Part(channel)));
}

/// Those who are told when `id` is gone are exactly the others in its channels: whoever shares a
/// channel with `id`, whatever the channel and however many its members, and is connected, is
/// told once; nobody else is.
pub proof fn law_every_other_member_is_told(
    server: ServerView,
    id: ClientId,
    senders: Seq<mpsc::Sender<String>>,
    name: Seq<char>,
    other: ClientId,
)
    requires
        one_sender_each(senders, server.clients, peers(server.channels, id)),
    ensures
        server.channels.contains_key(name) && server.channels[name].members.contains(id)
            && server.channels[name].members.contains(other) && other != id
            && server.clients.contains_key(other) ==> senders.contains(
            server.clients[other].sender,
        ),
        exists|order: Seq<ClientId>|
            {
                &&& order.no_duplicates()
                &&& order.len() == senders.len()
                &&& forall|i: int|
                    0 <= i < order.len() ==> server.clients.contains_key(#[trigger] order[i])
                        && senders[i] == server.clients[order[i]].sender
                &&& forall|peer: ClientId|
                    #![trigger order.contains(peer)]
                    order.contains(peer) <==> server.clients.contains_key(peer) && peer != id && (
                    exists|shared: Seq<char>| #[trigger]
                        server.channels.contains_key(shared)
                            && server.channels[shared].members.contains(id)
                            && server.channels[shared].members.contains(peer))
            },
{
    let told = peers(server.channels, id).intersect(server.clients.dom());
    let order = choose|order: Seq<ClientId>| #[trigger]
        lists(order, told) && senders == senders_in(server.clients, order);
    assert forall|i: int| 0 <= i < order.len() implies server.clients.contains_key(
        #[trigger] order[i],
    ) && senders[i] == server.clients[order[i]].sender by {
        assert(order.to_set().contains(order[i]));
    }
    assert forall|peer: ClientId|
        #![trigger order.contains(peer)]
        order.contains(peer) <==> server.clients.contains_key(peer) && peer != id && (exists|
            shared: Seq<char>,
        | #[trigger]
            server.channels.contains_key(shared) && server.channels[shared].members.contains(id)
                && server.channels[shared].members.contains(peer)) by {
        assert(order.to_set().contains(peer) <==> order.contains(peer));
        assert(told.contains(peer) <==> peers(server.channels, id).contains(peer)
            && server.clients.contains_key(peer));
    }
    if server.channels.contains_key(name) && server.channels[name].members.contains(id)
        && server.channels[name].members.contains(other) && other != id
        && server.clients.contains_key(other) {
        assert(order.contains(other));
        let i = choose|i: int| 0 <= i < order.len() && order[i] == other;
        assert(senders[i] == server.clients[other].sender);
    }
}

/// The peers of a client are exactly the other members of the channels that it is in.
pub proof fn law_peers_are_the_others_in_the_channels(
    channels: Map<Seq<char>, ChannelView>,
    id: ClientId,
    other: ClientId,
)
    ensures
        peers(channels, id).contains(other) <==> other != id && exists|name: Seq<char>| #[trigger]
            channels.contains_key(name) && channels[name].members.contains(id)
                && channels[name].members.contains(other),
{
}

/// Once `id` is gone, the other clients are as before; a channel is there exactly where it was and
/// has another member, with the name, the topic and the other members that it had.
pub proof fn law_disconnect_takes_out_one_client(
    server: ServerView,
    id: ClientId,
    other: ClientId,
    name: Seq<char>,
)
    ensures
        ({
            let after = server.disconnected(id);
            &&& after.channels == without_member(server.channels, id)
            &&& after.clients.contains_key(other) <==> server.clients.contains_key(other) && other
                != id
            &&& after.clients.contains_key(other) ==> after.clients[other]
                == server.clients[other]
            &&& after.channels.contains_key(name) <==> server.channels.contains_key(name) && (
            exists|member: ClientId|
                member != id && #[trigger] server.channels[name].members.contains(member))
            &&& after.channels.contains_key(name) ==> {
                &&& after.channels[name].name == server.channels[name].name
                &&& after.channels[name].topic == server.channels[name].topic
                &&& after.channels[name].members.contains(other)
                    <==> server.channels[name].members.contains(other) && other != id
            }
        }),
{
    let left = server.channels[name].without(id).members;
    if exists|member: ClientId|
        member != id && #[trigger] server.channels[name].members.contains(member) {
        let member = choose|member: ClientId|
            member != id && #[trigger] server.channels[name].members.contains(member);
        assert(left.contains(member));
    } else {
        assert(left =~= Set::<ClientId>::empty());
    }
}

/// Of a client that is gone the nickname is reported that it had.
pub proof fn law_nickname_is_that_of_the_client(server: ServerView, id: ClientId)
    ensures
        server.clients.contains_key(id) ==> server.nickname_of(id) == server.clients[id].nickname,
        !server.clients.contains_key(id) ==> server.nickname_of(id) is None,
{
}

/// A client that connects has said nothing yet; the others and the channels stay as they are.
pub proof fn law_connect_adds_one_client(
    server: ServerView,
    id: ClientId,
    sender: mpsc::Sender<String>,
    other: ClientId,
)
    ensures
        ({
            let after = server.connected(id, sender);
            &&& after.clients.contains_key(id)
            &&& after.clients[id].nickname is None
            &&& after.clients[id].username is None
            &&& after.clients[id].realname is None
            &&& after.clients[id].sender == sender
            &&& other != id ==> (after.clients.contains_key(other)
                <==> server.clients.contains_key(other)) && after.clients[other]
                == server.clients[other]
            &&& after.channels == server.channels
        }),
{
}

/// `NICK` and `USER` put what was sent into the record of the client, and change nothing else.
pub proof fn law_names_are_put_on_record(
    server: ServerView,
    id: ClientId,
    nickname: Seq<char>,
    username: Seq<char>,
    realname: Seq<char>,
    other: ClientId,
)
    requires
        server.clients.contains_key(id),
    ensures
        ({
            let after = server.after(id, CommandView::Nick(nickname));
            &&& after.clients.dom() == server.clients.dom()
            &&& after.clients[id].nickname == Some(nickname)
            &&& after.clients[id].username == server.clients[id].username
            &&& after.clients[id].realname == server.clients[id].realname
            &&& after.clients[id].sender == server.clients[id].sender
            &&& other != id ==> after.clients[other] == server.clients[other]
            &&& after.channels == server.channels
        }),
        ({
            let after = server.after(id, CommandView::User { username, realname });
            &&& after.clients.dom() == server.clients.dom()
            &&& after.clients[id].nickname == server.clients[id].nickname
            &&& after.clients[id].username == Some(username)
            &&& after.clients[id].realname == Some(realname)
            &&& after.clients[id].sender == server.clients[id].sender
            &&& other != id ==> after.clients[other] == server.clients[other]
            &&& after.channels == server.channels
        }),
{
    assert(server.after(id, CommandView::Nick(nickname)).clients.dom() =~= server.clients.dom());
    assert(server.after(id, CommandView::User { username, realname }).clients.dom()
        =~= server.clients.dom());
}

/// A client is greeted, alone and by its nickname, exactly when `NICK` or `USER` gives it the one of
/// the two that it lacked while it had the other.
pub proof fn law_greeting_follows_the_missing_name(
    server: ServerView,
    id: ClientId,
    nickname: Seq<char>,
    username: Seq<char>,
    realname: Seq<char>,
    own: Seq<char>,
)
    requires
        server.clients.contains_key(id),
    ensures
        server.clients[id].nickname is None && server.clients[id].username is Some
            ==> server.reaction(id, CommandView::Nick(nickname)) == (ReactionView::Deliver {
            message: welcome(nickname),
            to: set![id],
        }),
        server.clients[id].nickname is Some || server.clients[id].username is None
            ==> server.reaction(id, CommandView::Nick(nickname)) is Silence,
        server.clients[id].nickname == Some(own) && server.clients[id].username is None
            ==> server.reaction(id, CommandView::User { username, realname })
            == (ReactionView::Deliver { message: welcome(own), to: set![id] }),
        server.clients[id].nickname is None || server.clients[id].username is Some
            ==> server.reaction(id, CommandView::User { username, realname }) is Silence,
{
}

/// Whoever is registered and sends `JOIN` is a member of the channel afterwards, whoever was in it
/// before; the members are those from before and the client, all of them are told, and every
/// other channel and all clients stay as they are.
pub proof fn law_join_adds_one_member(
    server: ServerView,
    id: ClientId,
    nickname: Seq<char>,
    name: Seq<char>,
    member: ClientId,
    elsewhere: Seq<char>,
)
    requires
        server.clients.contains_key(id),
        server.clients[id].nickname == Some(nickname),
        server.clients[id].username is Some,
    ensures
        ({
            let after = server.after(id, CommandView::Join(name));
            let was_there = server.channels.contains_key(name);
            &&& after.clients == server.clients
            &&& after.channels.contains_key(name)
            &&& after.channels[name].members.contains(id)
            &&& after.channels[name].members.contains(member) <==> member == id || was_there
                && server.channels[name].members.contains(member)
            &&& was_there ==> after.channels[name].name == server.channels[name].name
                && after.channels[name].topic == server.channels[name].topic
            &&& !was_there ==> after.channels[name].name == name && after.channels[name].topic
                is None
            &&& elsewhere != name ==> (after.channels.contains_key(elsewhere)
                <==> server.channels.contains_key(elsewhere)) && after.channels[elsewhere]
                == server.channels[elsewhere]
            &&& server.reaction(id, CommandView::Join(name)) matches ReactionView::Deliver {
                message,
                to,
            } && message == joined(nickname, name) && (to.contains(member) <==> member == id
                || was_there && server.channels[name].members.contains(member))
        }),
{
}

/// A member that sends `PART` is no member afterwards; the others stay, the channel goes where
/// there are none, all who were members are told, and every other channel and all clients stay as
/// they are.
pub proof fn law_part_takes_out_one_member(
    server: ServerView,
    id: ClientId,
    nickname: Seq<char>,
    name: Seq<char>,
    member: ClientId,
    elsewhere: Seq<char>,
)
    requires
        server.clients.contains_key(id),
        server.clients[id].nickname == Some(nickname),
        server.clients[id].username is Some,
        server.channels.contains_key(name),
        server.channels[name].members.contains(id),
    ensures
        ({
            let after = server.after(id, CommandView::Part(name));
            &&& after.clients == server.clients
            &&& after.channels.contains_key(name) <==> exists|left: ClientId|
                left != id && #[trigger] server.channels[name].members.contains(left)
            &&& after.channels.contains_key(name) ==> {
                &&& after.channels[name].members.contains(member)
                    <==> server.channels[name].members.contains(member) && member != id
                &&& after.channels[name].name == server.channels[name].name
                &&& after.channels[name].topic == server.channels[name].topic
            }
            &&& elsewhere != name ==> (after.channels.contains_key(elsewhere)
                <==> server.channels.contains_key(elsewhere)) && after.channels[elsewhere]
                == server.channels[elsewhere]
            &&& server.reaction(id, CommandView::Part(name)) matches ReactionView::Deliver {
                message,
                to,
            } && message == parted(nickname, name) && (to.contains(member)
                <==> server.channels[name].members.contains(member))
        }),
{
    let left = server.channels[name].without(id).members;
    if exists|stays: ClientId|
        stays != id && #[trigger] server.channels[name].members.contains(stays) {
        let stays = choose|stays: ClientId|
            stays != id && #[trigger] server.channels[name].members.contains(stays);
        assert(left.contains(stays));
    } else {
        assert(left =~= Set::<ClientId>::empty());
    }
}

/// What a registered client says reaches all members of the channel where it is one of them; where
/// the target is no channel, it reaches all clients that bear this nickname, if there are any;
/// else nobody. Nobody else hears it.
pub proof fn law_what_is_said_reaches_its_hearers(
    server: ServerView,
    id: ClientId,
    nickname: Seq<char>,
    target: Seq<char>,
    text: Seq<char>,
    hearer: ClientId,
)
    requires
        server.clients.contains_key(id),
        server.clients[id].nickname == Some(nickname),
        server.clients[id].username is Some,
    ensures
        ({
            let reaction = server.reaction(id, CommandView::Privmsg { target, message: text });
            let is_channel = server.channels.contains_key(target);
            let bears = server.clients.contains_key(hearer) && server.clients[hearer].nickname
                == Some(target);
            &&& is_channel && server.channels[target].members.contains(id) ==> (reaction matches
                ReactionView::Deliver { message, to } && message == said(nickname, target, text)
                && (to.contains(hearer) <==> server.channels[target].members.contains(hearer)))
            &&& is_channel && !server.channels[target].members.contains(id) ==> reaction
                is Silence
            &&& !is_channel && bears ==> (reaction matches ReactionView::Deliver { message, to }
                && message == said(nickname, target, text) && to.contains(hearer))
            &&& !is_channel && !bears ==> (reaction matches ReactionView::Deliver { to, .. } ==>
                !to.contains(hearer))
            &&& !is_channel ==> !(reaction is Close)
            &&& !is_channel && (reaction is Silence) ==> forall|other: ClientId| #[trigger]
                server.clients.contains_key(other) ==> server.clients[other].nickname != Some(
                    target,
                )
            &&& !is_channel && (reaction is Deliver) ==> exists|other: ClientId| #[trigger]
                server.clients.contains_key(other) && server.clients[other].nickname == Some(
                    target,
                )
        }),
{
    let bearers = server.bearers(target);
    if server.clients.contains_key(hearer) && server.clients[hearer].nickname == Some(target) {
        assert(bearers.contains(hearer));
    }
    if forall|other: ClientId| !bearers.contains(other) {
        assert(bearers =~= Set::<ClientId>::empty());
    } else {
        let other = choose|other: ClientId| bearers.contains(other);
        assert(server.clients.contains_key(other));
    }
    assert forall|other: ClientId| #[trigger] server.clients.contains_key(other)
        && server.clients[other].nickname == Some(target) implies bearers.contains(other) by {}
}

/// A command that lacks parameters is answered to its sender alone, by its nickname or, where it
/// has none, by an asterisk.
pub proof fn law_complaint_goes_to_the_sender(
    server: ServerView,
    id: ClientId,
    command: Seq<char>,
    nickname: Seq<char>,
)
    requires
        server.clients.contains_key(id),
    ensures
        server.clients[id].nickname == Some(nickname) ==> server.reaction(
            id,
            CommandView::NeedMoreParams(command),
        ) == (ReactionView::Deliver {
            message: need_more_params(nickname, command),
            to: set![id],
        }),
        server.clients[id].nickname is None ==> server.reaction(
            id,
            CommandView::NeedMoreParams(command),
        ) == (ReactionView::Deliver { message: need_more_params("*"@, command), to: set![id] }),
{
}

/// Only `NICK` and `USER` of a connected client, `JOIN` of a registered one and `PART` of a member
/// change anything. Whoever is not connected is not answered, and `QUIT` closes the connection.
pub proof fn law_other_commands_change_nothing(
    server: ServerView,
    id: ClientId,
    command: CommandView,
)
    ensures
        !server.clients.contains_key(id) ==> server.after(id, command) == server,
        !(command is Nick || command is User || command is Join || command is Part)
            ==> server.after(id, command) == server,
        command is Join && (server.clients[id].nickname is None || server.clients[id].username
            is None) ==> server.after(id, command) == server,
        command matches CommandView::Part(name) ==> !(server.channels.contains_key(name)
            && server.channels[name].members.contains(id)) ==> server.after(id, command)
            == server && server.reaction(id, command) is Silence,
        (command is Join || command is Part || command is Privmsg) && (
        server.clients[id].nickname is None || server.clients[id].username is None)
            ==> server.reaction(id, command) is Silence,
        command is Quit <==> server.reaction(id, command) is Close,
        !server.clients.contains_key(id) && !(command is Quit) ==> server.reaction(id, command)
            is Silence,
        command is List || command is Names || command is Notice || command is Ping || command
            is Pong || command is Topic || command is Unknown ==> server.reaction(id, command)
            is Silence,
{
}

/// A reaction that carries out the wanted one sends exactly the wanted message, once to each
/// connected client that it is for, and to nobody else.
pub proof fn law_reactions_reach_whom_they_are_for(
    reaction: Reaction,
    wanted: ReactionView,
    clients: Map<ClientId, ClientView>,
    hearer: ClientId,
)
    requires
        carries_out(reaction, wanted, clients),
    ensures
        reaction is Deliver <==> wanted is Deliver,
        reaction is Close <==> wanted is Close,
        reaction is Silence <==> wanted is Silence,
        reaction matches Reaction::Deliver { message, senders } ==> {
            &&& message@ == wanted->message
            &&& wanted->to.contains(hearer) && clients.contains_key(hearer) ==> senders@.contains(
                clients[hearer].sender,
            )
            &&& exists|order: Seq<ClientId>|
                {
                    &&& order.no_duplicates()
                    &&& order.len() == senders@.len()
                    &&& forall|i: int|
                        0 <= i < order.len() ==> clients.contains_key(#[trigger] order[i])
                            && senders@[i] == clients[order[i]].sender
                    &&& forall|id: ClientId| #[trigger]
                        order.contains(id) <==> clients.contains_key(id) && wanted->to.contains(
                            id,
                        )
                }
        },
{
    if reaction is Deliver {
        let senders = reaction->senders@;
        let ids = (wanted->to).intersect(clients.dom());
        let order = choose|order: Seq<ClientId>| #[trigger]
            lists(order, ids) && senders == senders_in(clients, order);
        assert forall|i: int| 0 <= i < order.len() implies clients.contains_key(#[trigger] order[i])
            && senders[i] == clients[order[i]].sender by {
            assert(order.to_set().contains(order[i]));
        }
        assert forall|id: ClientId| #[trigger] order.contains(id) <==> clients.contains_key(id)
            && (wanted->to).contains(id) by {
            assert(order.to_set().contains(id) <==> order.contains(id));
        }
        if (wanted->to).contains(hearer) && clients.contains_key(hearer) {
            assert(order.contains(hearer));
            let i = choose|i: int| 0 <= i < order.len() && order[i] == hearer;
            assert(senders[i] == clients[hearer].sender);
        }
    }
}

/// Nothing of a client, a channel or the server is lost in its view, and who is registered can be
/// read from it.
pub proof fn law_state_views_are_faithful(
    client: Client,
    channel: Channel,
    server: Server,
    id: ClientId,
)
    ensures
        client.nickname is None ==> client@.nickname is None,
        client.nickname matches Some(text) ==> client@.nickname == Some(text@),
        client.username is None ==> client@.username is None,
        client.username matches Some(text) ==> client@.username == Some(text@),
        client.realname is None ==> client@.realname is None,
        client.realname matches Some(text) ==> client@.realname == Some(text@),
        client@.sender == client.sender,
        client@.registered() <==> client.nickname is Some && client.username is Some,
        channel@.name == channel.name@,
        channel.topic is None ==> channel@.topic is None,
        channel.topic matches Some(text) ==> channel@.topic == Some(text@),
        channel@.members == channel.members@,
        server@.clients.contains_key(id) <==> server.clients@.contains_key(id),
        server.clients@.contains_key(id) ==> server@.clients[id] == server.clients@[id]@,
        server@.channels == server.channels@,
        server@.registered(id) <==> server.clients@.contains_key(id)
            && server.clients@[id].nickname is Some && server.clients@[id].username is Some,
{
}

/// A server starts without clients and without channels.
pub proof fn law_server_starts_empty(id: ClientId, name: Seq<char>)
    ensures
        !ServerView::empty().clients.contains_key(id),
        !ServerView::empty().channels.contains_key(name),
{
}

} // verus!
