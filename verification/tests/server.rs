use std::collections::HashSet;

use kirc_server::channel::{Channel, ChannelMap};
use kirc_server::client::Client;
use kirc_server::server::Server;
use tokio::sync::mpsc;

#[test]
fn new_channel_has_no_topic() {
    let channel = Channel::new("#rust");

    assert_eq!(channel.topic, None);
}

#[test]
fn disconnect_client_collects_other_channel_members() {
    let (sender1, _) = mpsc::channel(1);
    let (sender2, mut receiver2) = mpsc::channel(1);
    let (sender3, mut receiver3) = mpsc::channel(1);

    let mut server = Server::default();

    let mut client1 = Client::new(sender1);
    client1.nickname = Some("alice".to_string());

    let mut client2 = Client::new(sender2);
    client2.nickname = Some("bob".to_string());

    let mut client3 = Client::new(sender3);
    client3.nickname = Some("charlie".to_string());

    server.clients.insert(1, client1);
    server.clients.insert(2, client2);
    server.clients.insert(3, client3);

    let mut rust = Channel::new("#rust");
    rust.members.extend([1, 2, 3]);

    server.channels.insert("#rust".to_string(), rust);

    let result = server.disconnect_client(1);

    assert_eq!(result.nickname, Some("alice".to_string()));
    assert_eq!(result.senders.len(), 2);

    assert!(!server.clients.contains_key(&1));
    assert!(!server.channels.get("#rust").unwrap().members.contains(&1));
    assert!(server.channels.get("#rust").unwrap().members.contains(&2));
    assert!(server.channels.get("#rust").unwrap().members.contains(&3));

    result.senders[0]
        .try_send(":alice QUIT :Client Quit".to_string())
        .unwrap();

    result.senders[1]
        .try_send(":alice QUIT :Client Quit".to_string())
        .unwrap();

    let messages = [receiver2.try_recv().unwrap(), receiver3.try_recv().unwrap()];

    assert!(
        messages
            .iter()
            .all(|message| message == ":alice QUIT :Client Quit")
    );
}

#[test]
fn disconnect_client_removes_empty_channels() {
    let (sender, _) = mpsc::channel(1);

    let mut server = Server::default();

    server.clients.insert(1, Client::new(sender));

    let mut channel = Channel::new("#rust");
    channel.members.insert(1);

    server.channels.insert("#rust".to_string(), channel);

    server.disconnect_client(1);

    assert!(!server.clients.contains_key(&1));
    assert!(!server.channels.contains_key("#rust"));
}

#[test]
fn disconnect_client_keeps_non_empty_channels() {
    let (sender, _) = mpsc::channel(1);

    let mut server = Server::default();

    server.clients.insert(1, Client::new(sender));

    let mut channel = Channel::new("#rust");
    channel.members.insert(1);
    channel.members.insert(2);

    server.channels.insert("#rust".to_string(), channel);

    server.disconnect_client(1);

    assert!(server.channels.contains_key("#rust"));
    assert_eq!(server.channels.get("#rust").unwrap().members, HashSet::from([2]));
}

#[test]
fn disconnecting_twice_changes_nothing() {
    let (sender, _) = mpsc::channel(1);

    let mut server = Server::default();

    let mut client = Client::new(sender);
    client.nickname = Some("alice".to_string());
    server.clients.insert(1, client);

    let mut channel = Channel::new("#rust");
    channel.members.extend([1, 2]);
    server.channels.insert("#rust".to_string(), channel);

    assert_eq!(server.disconnect_client(1).nickname, Some("alice".to_string()));

    let again = server.disconnect_client(1);
    assert_eq!(again.nickname, None);
    assert!(again.notice().is_none());
    assert!(again.senders.is_empty());
    assert_eq!(server.channels.get("#rust").unwrap().members, HashSet::from([2]));
}

#[test]
fn disconnect_order_makes_no_difference() {
    for order in [[1, 2], [2, 1]] {
        let mut server = Server::default();
        for (name, members) in [("#a", vec![1, 2]), ("#b", vec![1, 3]), ("#c", vec![2])] {
            let mut channel = Channel::new(name);
            channel.members.extend(members);
            server.channels.insert(name.to_string(), channel);
        }

        server.disconnect_client(order[0]);
        server.disconnect_client(order[1]);

        assert!(!server.channels.contains_key("#a"));
        assert_eq!(server.channels.get("#b").unwrap().members, HashSet::from([3]));
        assert!(!server.channels.contains_key("#c"));
    }
}

#[test]
fn disconnect_removes_channels_that_were_empty_before() {
    let mut server = Server::default();
    server.channels.insert("#rust".to_string(), Channel::new("#rust"));

    server.disconnect_client(1);

    assert!(!server.channels.contains_key("#rust"));
}

#[test]
fn a_peer_in_two_channels_is_told_once() {
    let (sender1, _receiver1) = mpsc::channel(1);
    let (sender2, mut receiver2) = mpsc::channel(4);

    let mut server = Server::default();
    server.connect_client(1, sender1);
    server.connect_client(2, sender2);
    server.clients.get_mut(&1).unwrap().nickname = Some("alice".to_string());

    for name in ["#a", "#b"] {
        let mut channel = Channel::new(name);
        channel.members.extend([1, 2, 9]);
        channel.topic = Some("talk".to_string());
        server.channels.insert(name.to_string(), channel);
    }

    let result = server.disconnect_client(1);

    assert_eq!(result.senders.len(), 1);
    result.senders[0].try_send(result.notice().unwrap()).unwrap();
    assert_eq!(receiver2.try_recv().unwrap(), ":alice QUIT :Client Quit");
    assert_eq!(server.channels.get("#a").unwrap().topic, Some("talk".to_string()));
    assert_eq!(server.channels.peers_of(2), HashSet::from([9]));
}

#[test]
fn a_new_client_is_not_registered() {
    let (sender, _) = mpsc::channel(1);
    let mut client = Client::new(sender);

    assert!(!client.is_registered());
    client.nickname = Some("alice".to_string());
    assert!(!client.is_registered());
    client.username = Some("alice".to_string());
    assert!(client.is_registered());
    assert_eq!(client.realname, None);
}

#[test]
fn channel_map_replaces_and_removes() {
    let mut channels = ChannelMap::new();

    assert!(channels.insert("#a".to_string(), Channel::new("#a")).is_none());
    assert!(channels.insert("#b".to_string(), Channel::new("#b")).is_none());

    let mut other = Channel::new("#a");
    other.topic = Some("new".to_string());
    let replaced = channels.insert("#a".to_string(), other).unwrap();
    assert_eq!(replaced.topic, None);

    assert_eq!(channels.get("#a").unwrap().topic, Some("new".to_string()));
    assert!(channels.get("#c").is_none());
    assert_eq!(channels.remove("#b").unwrap().name, "#b");
    assert!(channels.remove("#b").is_none());
    assert!(channels.contains_key("#a"));
    assert!(!channels.contains_key("#b"));
}
