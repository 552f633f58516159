use kirc_server::command::{parse_command, parse_topic, parse_verb, Command};

#[test]
fn parse_list() {
    let command = parse_command("LIST");

    assert!(matches!(command, Command::List(None)));
}

#[test]
fn parse_list_with_channel() {
    let command = parse_command("LIST #rust");

    assert!(matches!(command, Command::List(Some(channel)) if channel == "#rust"));
}

#[test]
fn parse_names_requires_parameter() {
    let command = parse_command("NAMES");

    assert!(matches!(command, Command::NeedMoreParams(command) if command == "NAMES"));
}

#[test]
fn parse_nick() {
    let command = parse_command("NICK alice");

    assert!(matches!(command, Command::Nick(nickname) if nickname == "alice"));
}

#[test]
fn parse_nick_requires_parameter() {
    let command = parse_command("NICK");

    assert!(matches!(command, Command::NeedMoreParams(command) if command == "NICK"));
}

#[test]
fn parse_notice() {
    let command = parse_command("NOTICE bob :hello");

    assert!(matches!(command, Command::Notice { target, message } if target == "bob" && message == "hello"));
}

#[test]
fn parse_notice_requires_target() {
    let command = parse_command("NOTICE");

    assert!(matches!(command, Command::NeedMoreParams(command) if command == "NOTICE"));
}

#[test]
fn parse_user() {
    let command = parse_command("USER alice 0 * :Alice Smith");

    assert!(matches!(command, Command::User { username, realname } if username == "alice" && realname == "Alice Smith"));
}

#[test]
fn parse_user_requires_parameters() {
    let command = parse_command("USER alice");

    assert!(matches!(command, Command::NeedMoreParams(command) if command == "USER"));
}

#[test]
fn parse_join() {
    let command = parse_command("JOIN #rust");

    assert!(matches!(command, Command::Join(channel) if channel == "#rust"));
}

#[test]
fn parse_join_requires_parameter() {
    let command = parse_command("JOIN");

    assert!(matches!(command, Command::NeedMoreParams(command) if command == "JOIN"));
}

#[test]
fn parse_privmsg() {
    let command = parse_command("PRIVMSG #rust :hello");

    assert!(matches!(command, Command::Privmsg { target, message } if target == "#rust" && message == "hello"));
}

#[test]
fn parse_privmsg_preserves_message_spaces() {
    let command = parse_command("PRIVMSG #rust :hello rust server");

    assert!(matches!(command, Command::Privmsg { target, message } if target == "#rust" && message == "hello rust server"));
}

#[test]
fn parse_privmsg_is_case_insensitive() {
    let command = parse_command("privmsg #rust :hello");

    assert!(matches!(command, Command::Privmsg { target, message } if target == "#rust" && message == "hello"));
}

#[test]
fn parse_privmsg_requires_target_and_message() {
    let command = parse_command("PRIVMSG");

    assert!(matches!(command, Command::NeedMoreParams(command) if command == "PRIVMSG"));
}

#[test]
fn parse_privmsg_requires_message() {
    let command = parse_command("PRIVMSG #rust");

    assert!(matches!(command, Command::NeedMoreParams(command) if command == "PRIVMSG"));
}

#[test]
fn parse_part() {
    let command = parse_command("PART #rust");

    assert!(matches!(command, Command::Part(channel) if channel == "#rust"));
}

#[test]
fn parse_part_requires_parameter() {
    let command = parse_command("PART");

    assert!(matches!(command, Command::NeedMoreParams(command) if command == "PART"));
}

#[test]
fn parse_ping() {
    let command = parse_command("PING :12345");

    assert!(matches!(command, Command::Ping(token) if token == "12345"));
}

#[test]
fn parse_topic_set() {
    let command = parse_command("TOPIC #rust :Rust programming");

    assert!(matches!(command, Command::Topic { channel, topic } if channel == "#rust" && topic == Some("Rust programming".to_string())));
}

#[test]
fn parse_topic_query() {
    let command = parse_command("TOPIC #rust");

    assert!(matches!(command, Command::Topic { channel, topic } if channel == "#rust" && topic.is_none()));
}

#[test]
fn parse_topic_requires_channel() {
    let command = parse_command("TOPIC");

    assert!(matches!(command, Command::NeedMoreParams(command) if command == "TOPIC"));
}

#[test]
fn parse_command_is_case_insensitive() {
    let command = parse_command("ping :12345");

    assert!(matches!(command, Command::Ping(token) if token == "12345"));
}

#[test]
fn parse_command_accepts_whitespace_separator() {
    let command = parse_command("NICK\talice");

    assert!(matches!(command, Command::Nick(nickname) if nickname == "alice"));
}

#[test]
fn parse_pong_strips_all_leading_colons() {
    let command = parse_command("PONG ::12:345");

    assert!(matches!(command, Command::Pong(token) if token == "12:345"));
}

#[test]
fn parse_ping_without_token() {
    assert!(matches!(parse_command("PING"), Command::Ping(token) if token.is_empty()));
}

#[test]
fn parse_quit_ignores_parameters() {
    assert!(matches!(parse_command("QUIT"), Command::Quit));
    assert!(matches!(parse_command("quit :bye"), Command::Quit));
}

#[test]
fn parse_names_takes_the_rest() {
    let command = parse_command("NAMES  #rust #irc ");

    assert!(matches!(command, Command::Names(channel) if channel == "#rust #irc"));
}

#[test]
fn parse_notice_without_message() {
    let command = parse_command("NOTICE bob");

    assert!(
        matches!(command, Command::Notice { target, message } if target == "bob" && message.is_empty())
    );
}

#[test]
fn parse_privmsg_with_colon_only() {
    let command = parse_command("PRIVMSG bob :");

    assert!(
        matches!(command, Command::Privmsg { target, message } if target == "bob" && message.is_empty())
    );
}

#[test]
fn parse_user_counts_every_space() {
    let command = parse_command("USER alice  * :Alice Smith");

    assert!(matches!(command, Command::NeedMoreParams(command) if command == "USER"));
}

#[test]
fn parse_user_keeps_the_rest_as_real_name() {
    let command = parse_command("USER alice 0 * Alice B  Smith");

    assert!(
        matches!(command, Command::User { username, realname } if username == "alice" && realname == "Alice B  Smith")
    );
}

#[test]
fn parse_topic_splits_at_the_first_colon() {
    assert_eq!(
        parse_topic("#rust :a:b"),
        Some(("#rust".to_string(), Some("a:b".to_string())))
    );
    assert_eq!(
        parse_topic("#rust :"),
        Some(("#rust".to_string(), Some("".to_string())))
    );
    assert_eq!(parse_topic(" #rust "), Some(("#rust".to_string(), None)));
    assert_eq!(parse_topic(" :topic"), None);
    assert_eq!(parse_topic(""), None);
}

#[test]
fn parse_topic_without_channel_needs_more_params() {
    let command = parse_command("TOPIC :Rust programming");

    assert!(matches!(command, Command::NeedMoreParams(command) if command == "TOPIC"));
}

#[test]
fn parse_unknown_keeps_the_line() {
    let command = parse_command("hello  world ");

    assert!(matches!(command, Command::Unknown(line) if line == "hello  world "));
    assert!(matches!(parse_command(""), Command::Unknown(line) if line.is_empty()));
    assert!(matches!(parse_command(" NICK alice"), Command::Unknown(line) if line == " NICK alice"));
}

#[test]
fn parse_verb_takes_capitals_only() {
    assert!(matches!(parse_verb("NICK", "alice", "x"), Command::Nick(n) if n == "alice"));
    assert!(matches!(parse_verb("nick", "alice", "x"), Command::Unknown(line) if line == "x"));
}

#[test]
fn parse_command_knows_capitals_beyond_ascii() {
    // The capital of the dotless i is I, and that of the long s is S.
    assert!(matches!(parse_command("l\u{131}\u{17f}t"), Command::List(None)));
}

#[test]
fn parse_command_accepts_unicode_white_space() {
    let command = parse_command("NICK\u{3000}\u{a0}al\u{e9}\u{2003}");

    assert!(matches!(command, Command::Nick(nickname) if nickname == "al\u{e9}"));
}

#[test]
fn written_commands_are_read_back() {
    for message in ["hello", "a  b", "\u{ac00} :x", ""] {
        let command = parse_command(&format!("PRIVMSG #rust :{message}"));

        assert!(
            matches!(command, Command::Privmsg { target, message: text } if target == "#rust" && text == message)
        );
    }
}

#[test]
fn case_and_separator_are_free() {
    for verb in ["JOIN", "join", "JoIn"] {
        for space in [' ', '\t', '\u{2028}'] {
            let command = parse_command(&format!("{verb}{space}#rust"));

            assert!(matches!(command, Command::Join(channel) if channel == "#rust"));
        }
    }
}

#[test]
fn white_space_behind_a_bare_word_is_ignored() {
    assert!(matches!(parse_command("QUIT\r"), Command::Quit));
    assert!(matches!(parse_command("LIST \t "), Command::List(None)));
    assert!(matches!(parse_command("NICK \r"), Command::NeedMoreParams(name) if name == "NICK"));
}

#[test]
fn words_beyond_ascii_are_known_by_their_capitals() {
    assert!(matches!(parse_command("l\u{131}st"), Command::List(None)));
    assert!(
        matches!(parse_command("l\u{ed}st"), Command::Unknown(line) if line == "l\u{ed}st")
    );
}
