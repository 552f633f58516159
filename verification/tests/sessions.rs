use kirc_server::client::ClientId;
use kirc_server::command::parse_command;
use kirc_server::handler::Reaction;
use kirc_server::server::Server;
use tokio::sync::mpsc;

/// A connected client, seen from its own end.
struct Peer {
    id: ClientId,
    inbox: mpsc::Receiver<String>,
}

impl Peer {
    fn connect(server: &mut Server, id: ClientId) -> Peer {
        let (sender, inbox) = mpsc::channel(16);
        server.connect_client(id, sender);
        Peer { id, inbox }
    }

    /// Sends a line; returns whether the connection stays open.
    fn say(&self, server: &mut Server, line: &str) -> bool {
        match server.handle_command(self.id, parse_command(line.trim_end_matches("\r\n"))) {
            Reaction::Deliver { message, senders } => {
                for sender in senders {
                    sender.try_send(message.clone()).unwrap();
                }
                true
            }
            Reaction::Close => false,
            Reaction::Silence => true,
        }
    }

    fn disconnect(&self, server: &mut Server) {
        let result = server.disconnect_client(self.id);
        if let Some(notice) = result.notice() {
            for sender in &result.senders {
                sender.try_send(notice.clone()).unwrap();
            }
        }
    }

    fn hears(&mut self, message: &str) {
        assert_eq!(self.inbox.try_recv().unwrap(), message);
    }

    fn hears_nothing(&mut self) {
        assert!(self.inbox.try_recv().is_err());
    }
}

fn register(server: &mut Server, id: ClientId, nickname: &str, realname: &str) -> Peer {
    let mut peer = Peer::connect(server, id);
    peer.say(server, &format!("NICK {nickname}\r\n"));
    peer.hears_nothing();
    peer.say(server, &format!("USER {nickname} 0 * :{realname}\r\n"));
    peer.hears(&format!(":server 001 {nickname} :Welcome to the IRC server"));
    peer
}

#[test]
fn registration_sends_welcome() {
    let mut server = Server::default();
    let mut alice = Peer::connect(&mut server, 1);

    alice.say(&mut server, "NICK alice\r\n");
    alice.say(&mut server, "USER alice 0 * :Alice\r\n");

    alice.hears(":server 001 alice :Welcome to the IRC server");
    assert_eq!(server.clients[&1].realname, Some("Alice".to_string()));
}

#[test]
fn clients_can_join_channel_and_exchange_messages() {
    let mut server = Server::default();
    let mut alice = register(&mut server, 1, "alice", "Alice");
    let mut bob = register(&mut server, 2, "bob", "Bob");

    alice.say(&mut server, "JOIN #rust\r\n");
    alice.hears(":alice JOIN #rust");

    bob.say(&mut server, "JOIN #rust\r\n");
    bob.hears(":bob JOIN #rust");
    alice.hears(":bob JOIN #rust");

    alice.say(&mut server, "PRIVMSG #rust :hello bob\r\n");
    alice.hears(":alice PRIVMSG #rust :hello bob");
    bob.hears(":alice PRIVMSG #rust :hello bob");
}

#[test]
fn part_and_disconnect_broadcast_to_channel_members() {
    let mut server = Server::default();
    let mut alice = register(&mut server, 1, "alice", "Alice");
    let mut bob = register(&mut server, 2, "bob", "Bob");

    alice.say(&mut server, "JOIN #rust\r\n");
    alice.hears(":alice JOIN #rust");

    bob.say(&mut server, "JOIN #rust\r\n");
    bob.hears(":bob JOIN #rust");
    alice.hears(":bob JOIN #rust");

    alice.say(&mut server, "PART #rust\r\n");
    alice.hears(":alice PART #rust");
    bob.hears(":alice PART #rust");

    alice.say(&mut server, "JOIN #rust\r\n");
    alice.hears(":alice JOIN #rust");
    bob.hears(":alice JOIN #rust");

    alice.disconnect(&mut server);
    bob.hears(":alice QUIT :Client Quit");
}

#[test]
fn missing_parameters_return_need_more_params() {
    let mut server = Server::default();
    let mut alice = Peer::connect(&mut server, 1);

    alice.say(&mut server, "NICK\r\n");
    alice.hears(":server 461 * NICK :Not enough parameters");
}

#[test]
fn clients_can_send_private_messages() {
    let mut server = Server::default();
    let mut alice = register(&mut server, 1, "alice", "Alice");
    let mut bob = register(&mut server, 2, "bob", "Bob");

    alice.say(&mut server, "PRIVMSG bob :hello privately\r\n");
    bob.hears(":alice PRIVMSG bob :hello privately");
    alice.hears_nothing();
}

#[test]
fn missing_parameters_are_answered_by_nickname() {
    let mut server = Server::default();
    let mut alice = register(&mut server, 1, "alice", "Alice");

    alice.say(&mut server, "PRIVMSG #rust");
    alice.hears(":server 461 alice PRIVMSG :Not enough parameters");
}

#[test]
fn welcome_comes_once_and_in_either_order() {
    let mut server = Server::default();
    let mut alice = Peer::connect(&mut server, 1);

    alice.say(&mut server, "USER alice 0 * :Alice");
    assert!(!server.has_registered(1));
    alice.hears_nothing();

    alice.say(&mut server, "NICK alice");
    assert!(server.has_registered(1));
    alice.hears(":server 001 alice :Welcome to the IRC server");

    alice.say(&mut server, "NICK alicia");
    alice.say(&mut server, "USER alicia 0 * :Alicia");
    alice.hears_nothing();
    assert_eq!(server.clients[&1].nickname, Some("alicia".to_string()));
}

#[test]
fn strangers_reach_nobody() {
    let mut server = Server::default();
    let mut alice = register(&mut server, 1, "alice", "Alice");
    alice.say(&mut server, "JOIN #rust");
    alice.hears(":alice JOIN #rust");

    let mut stranger = Peer::connect(&mut server, 2);
    stranger.say(&mut server, "JOIN #rust");
    stranger.say(&mut server, "PRIVMSG #rust :hello");
    stranger.say(&mut server, "PRIVMSG alice :hello");
    stranger.say(&mut server, "PART #rust");
    stranger.hears_nothing();
    alice.hears_nothing();
    assert_eq!(server.channels.get("#rust").unwrap().members.len(), 1);
}

#[test]
fn only_members_speak_in_a_channel() {
    let mut server = Server::default();
    let mut alice = register(&mut server, 1, "alice", "Alice");
    let mut bob = register(&mut server, 2, "bob", "Bob");

    alice.say(&mut server, "JOIN #rust");
    alice.hears(":alice JOIN #rust");
    bob.say(&mut server, "PRIVMSG #rust :hello");
    bob.say(&mut server, "PART #rust");
    bob.say(&mut server, "PRIVMSG carol :hello");
    alice.hears_nothing();
    bob.hears_nothing();
}

#[test]
fn leaving_undoes_entering() {
    let mut server = Server::default();
    let mut alice = register(&mut server, 1, "alice", "Alice");

    alice.say(&mut server, "JOIN #rust");
    alice.hears(":alice JOIN #rust");
    assert!(server.channels.contains_key("#rust"));

    alice.say(&mut server, "PART #rust");
    alice.hears(":alice PART #rust");
    assert!(!server.channels.contains_key("#rust"));
}

#[test]
fn entering_twice_is_entering_once() {
    let mut server = Server::default();
    let mut alice = register(&mut server, 1, "alice", "Alice");

    alice.say(&mut server, "JOIN #rust");
    alice.say(&mut server, "JOIN #rust");
    alice.hears(":alice JOIN #rust");
    alice.hears(":alice JOIN #rust");
    assert_eq!(server.channels.get("#rust").unwrap().members.len(), 1);
    assert_eq!(server.channels.get("#rust").unwrap().name, "#rust");
}

#[test]
fn quit_closes_the_connection() {
    let mut server = Server::default();
    let alice = register(&mut server, 1, "alice", "Alice");

    assert!(!alice.say(&mut server, "QUIT"));
    assert!(alice.say(&mut server, "LIST"));
    assert!(alice.say(&mut server, "hello"));
}

#[test]
fn unknown_clients_are_not_answered() {
    let mut server = Server::default();

    assert!(matches!(
        server.handle_command(7, parse_command("NICK")),
        Reaction::Silence
    ));
    assert!(matches!(
        server.handle_command(7, parse_command("NICK alice")),
        Reaction::Silence
    ));
    assert!(!server.clients.contains_key(&7));
}
