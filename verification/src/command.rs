//! The commands of the protocol, and the parser that reads one from a line.

use vstd::prelude::*;
use vstd::utf8::is_ascii_chars;

use crate::text::{
    colon, or_empty, same_text, split_at_colon, split_at_white_space, split_first,
    string_of, strip_leading_colons, text_of, trim, trimmed, white, without_leading_colons,
};

verus! {

/// One line of a client, read as a command.
#[derive(Debug)]
pub enum Command {
    Join(String),
    List(Option<String>),
    Names(String),
    Nick(String),
    Notice { target: String, message: String },
    User { username: String, realname: String },
    Part(String),
    Privmsg { target: String, message: String },
    Ping(String),
    Pong(String),
    Quit,
    Topic { channel: String, topic: Option<String> },
    /// A command that lacks parameters; it holds the command's name.
    NeedMoreParams(String),
    /// A line whose first word names no command; it holds the line.
    Unknown(String),
}

/// A [`Command`] with its texts as sequences of characters.
pub enum CommandView {
    Join(Seq<char>),
    List(Option<Seq<char>>),
    Names(Seq<char>),
    Nick(Seq<char>),
    Notice { target: Seq<char>, message: Seq<char> },
    User { username: Seq<char>, realname: Seq<char> },
    Part(Seq<char>),
    Privmsg { target: Seq<char>, message: Seq<char> },
    Ping(Seq<char>),
    Pong(Seq<char>),
    Quit,
    Topic { channel: Seq<char>, topic: Option<Seq<char>> },
    NeedMoreParams(Seq<char>),
    Unknown(Seq<char>),
}

impl View for Command {
    type V = CommandView;

    open spec fn view(&self) -> CommandView {
        match *self {
            Command::Join(channel) => CommandView::Join(channel@),
            Command::List(channel) => CommandView::List(string_of(channel)),
            Command::Names(channel) => CommandView::Names(channel@),
            Command::Nick(nickname) => CommandView::Nick(nickname@),
            Command::Notice { target, message } => CommandView::Notice {
                target: target@,
                message: message@,
            },
            Command::User { username, realname } => CommandView::User {
                username: username@,
                realname: realname@,
            },
            Command::Part(channel) => CommandView::Part(channel@),
            Command::Privmsg { target, message } => CommandView::Privmsg {
                target: target@,
                message: message@,
            },
            Command::Ping(token) => CommandView::Ping(token@),
            Command::Pong(token) => CommandView::Pong(token@),
            Command::Quit => CommandView::Quit,
            Command::Topic { channel, topic } => CommandView::Topic {
                channel: channel@,
                topic: string_of(topic),
            },
            Command::NeedMoreParams(command) => CommandView::NeedMoreParams(command@),
            Command::Unknown(line) => CommandView::Unknown(line@),
        }
    }
}

/// The uppercase equivalent of a text, as Unicode defines it.
pub uninterp spec fn uppercase(s: Seq<char>) -> Seq<char>;

/// The capital of an ASCII letter; every other character stands for itself.
pub open spec fn ascii_capital(c: char) -> char {
    if 'a' <= c <= 'z' {
        ((c as u32) - 32) as char
    } else {
        c
    }
}

/// `s` with its ASCII letters as capitals.
pub open spec fn ascii_uppercase(s: Seq<char>) -> Seq<char> {
    s.map_values(|c: char| ascii_capital(c))
}

/// Specifies `str::to_uppercase`: the result depends on the text alone, and on a text of ASCII
/// characters it puts capitals for the letters and keeps the rest. What becomes of other
/// characters, which the Unicode tables say, is left unsaid.
pub assume_specification[ str::to_uppercase ](s: &str) -> (upper: String)
    ensures
        upper@ == uppercase(s@),
        is_ascii_chars(s@) ==> upper@ == ascii_uppercase(s@),
;

/// The first word of a line, which names the command.
pub open spec fn verb_of(line: Seq<char>) -> Seq<char> {
    split_first(line, white()).0
}

/// What follows the first word of a line, without the white space at its ends.
pub open spec fn rest_of(line: Seq<char>) -> Seq<char> {
    trimmed(or_empty(split_first(line, white()).1))
}

/// A command with one parameter, which must not be empty.
pub open spec fn one_param(
    verb: Seq<char>,
    rest: Seq<char>,
    command: CommandView,
) -> CommandView {
    if rest.len() == 0 {
        CommandView::NeedMoreParams(verb)
    } else {
        command
    }
}

/// The target and the message of `NOTICE` and `PRIVMSG`: the first word of `rest`, and all that
/// stands behind the white space after it.
pub open spec fn target_and_message(rest: Seq<char>) -> (Seq<char>, Seq<char>) {
    let (target, message) = split_first(rest, white());
    (target, or_empty(message))
}

/// The four parameters of `USER`: three words, each with one white space behind it, and what is
/// left. A parameter that is not there is empty.
pub open spec fn user_params(rest: Seq<char>) -> (Seq<char>, Seq<char>, Seq<char>, Seq<char>) {
    let (username, after_username) = split_first(rest, white());
    let (hostname, after_hostname) = split_first(or_empty(after_username), white());
    let (servername, realname) = split_first(or_empty(after_hostname), white());
    (username, hostname, servername, or_empty(realname))
}

/// The channel and the new topic of `TOPIC`: what stands before the first colon, without the
/// white space at its ends, and what stands behind that colon.
pub open spec fn topic_params(rest: Seq<char>) -> Option<(Seq<char>, Option<Seq<char>>)> {
    let (channel, topic) = split_first(rest, colon());
    if trimmed(channel).len() == 0 {
        None
    } else {
        Some((trimmed(channel), topic))
    }
}

/// `NOTICE`: a target, and a message that may be empty.
pub open spec fn notice_command(rest: Seq<char>) -> CommandView {
    let (target, message) = target_and_message(rest);
    if target.len() == 0 {
        CommandView::NeedMoreParams("NOTICE"@)
    } else {
        CommandView::Notice { target, message: without_leading_colons(message) }
    }
}

/// `USER`: four parameters, of which the first and the last are kept.
pub open spec fn user_command(rest: Seq<char>) -> CommandView {
    let (username, hostname, servername, realname) = user_params(rest);
    if username.len() == 0 || hostname.len() == 0 || servername.len() == 0 || realname.len() == 0 {
        CommandView::NeedMoreParams("USER"@)
    } else {
        CommandView::User { username, realname: without_leading_colons(realname) }
    }
}

/// `PRIVMSG`: a target and a message.
pub open spec fn privmsg_command(rest: Seq<char>) -> CommandView {
    let (target, message) = target_and_message(rest);
    if target.len() == 0 || message.len() == 0 {
        CommandView::NeedMoreParams("PRIVMSG"@)
    } else {
        CommandView::Privmsg { target, message: without_leading_colons(message) }
    }
}

/// `TOPIC`: a channel, and a new topic where one is given.
pub open spec fn topic_command(rest: Seq<char>) -> CommandView {
    match topic_params(rest) {
        Some((channel, topic)) => CommandView::Topic { channel, topic },
        None => CommandView::NeedMoreParams("TOPIC"@),
    }
}

/// The command that `verb`, in capitals, names, with the parameters in `rest`. `line` is the
/// whole line.
pub open spec fn interpret(verb: Seq<char>, rest: Seq<char>, line: Seq<char>) -> CommandView {
    if verb == "LIST"@ {
        CommandView::List(
            if rest.len() == 0 {
                None
            } else {
                Some(rest)
            },
        )
    } else if verb == "NAMES"@ {
        one_param(verb, rest, CommandView::Names(rest))
    } else if verb == "NICK"@ {
        one_param(verb, rest, CommandView::Nick(rest))
    } else if verb == "NOTICE"@ {
        notice_command(rest)
    } else if verb == "USER"@ {
        user_command(rest)
    } else if verb == "JOIN"@ {
        one_param(verb, rest, CommandView::Join(rest))
    } else if verb == "PART"@ {
        one_param(verb, rest, CommandView::Part(rest))
    } else if verb == "PRIVMSG"@ {
        privmsg_command(rest)
    } else if verb == "PING"@ {
        CommandView::Ping(without_leading_colons(rest))
    } else if verb == "PONG"@ {
        CommandView::Pong(without_leading_colons(rest))
    } else if verb == "QUIT"@ {
        CommandView::Quit
    } else if verb == "TOPIC"@ {
        topic_command(rest)
    } else {
        CommandView::Unknown(line)
    }
}

/// The command that a line stands for: its first word, in capitals, names it.
pub open spec fn command_of(line: Seq<char>) -> CommandView {
    interpret(uppercase(verb_of(line)), rest_of(line), line)
}

/// The command that a line with a first word in ASCII stands for.
pub open spec fn ascii_command_of(line: Seq<char>) -> CommandView {
    interpret(ascii_uppercase(verb_of(line)), rest_of(line), line)
}

/// Reads the parameters of `TOPIC`: the channel, which must not be empty, and the new topic
/// where there is a colon.
pub fn parse_topic(rest: &str) -> (params: Option<(String, Option<String>)>)
    ensures
        params is Some <==> topic_params(rest@) is Some,
        params matches Some((channel, topic)) ==> topic_params(rest@) == Some(
            (channel@, string_of(topic)),
        ),
{
    let (before, after) = split_at_colon(rest);
    let channel = trim(before);
    if channel.is_empty() {
        return None;
    }
    let topic = match after {
        Some(topic) => Some(topic.to_string()),
        None => None,
    };
    Some((channel.to_string(), topic))
}

/// Reads the parameters of `NOTICE` and `PRIVMSG`.
fn split_target(rest: &str) -> (parts: (&str, &str))
    ensures
        (parts.0@, parts.1@) == target_and_message(rest@),
{
    let (target, message) = split_at_white_space(rest);
    (target, unwrap_or_empty(message))
}

/// The text, or the empty text where there is none.
fn unwrap_or_empty(s: Option<&str>) -> (text: &str)
    ensures
        text@ == or_empty(text_of(s)),
{
    match s {
        Some(text) => text,
        None => {
            proof {
                reveal_strlit("");
            }
            ""
        },
    }
}

/// Reads `USER`.
fn parse_user(rest: &str) -> (command: Command)
    ensures
        command@ == user_command(rest@),
{
    let (username, after_username) = split_at_white_space(rest);
    let (hostname, after_hostname) = split_at_white_space(unwrap_or_empty(after_username));
    let (servername, after_servername) = split_at_white_space(unwrap_or_empty(after_hostname));
    let realname = unwrap_or_empty(after_servername);
    if username.is_empty() || hostname.is_empty() || servername.is_empty() || realname.is_empty() {
        Command::NeedMoreParams("USER".to_string())
    } else {
        Command::User {
            username: username.to_string(),
            realname: strip_leading_colons(realname).to_string(),
        }
    }
}

/// Reads the parameters in `rest` of the command that `verb`, in capitals, names; `line` is the
/// whole line.
pub fn parse_verb(verb: &str, rest: &str, line: &str) -> (command: Command)
    ensures
        command@ == interpret(verb@, rest@, line@),
{
    if same_text(verb, "LIST") {
        if rest.is_empty() {
            Command::List(None)
        } else {
            Command::List(Some(rest.to_string()))
        }
    } else if same_text(verb, "NAMES") {
        if rest.is_empty() {
            Command::NeedMoreParams("NAMES".to_string())
        } else {
            Command::Names(rest.to_string())
        }
    } else if same_text(verb, "NICK") {
        if rest.is_empty() {
            Command::NeedMoreParams("NICK".to_string())
        } else {
            Command::Nick(rest.to_string())
        }
    } else if same_text(verb, "NOTICE") {
        let (target, message) = split_target(rest);
        if target.is_empty() {
            Command::NeedMoreParams("NOTICE".to_string())
        } else {
            Command::Notice {
                target: target.to_string(),
                message: strip_leading_colons(message).to_string(),
            }
        }
    } else if same_text(verb, "USER") {
        parse_user(rest)
    } else if same_text(verb, "JOIN") {
        if rest.is_empty() {
            Command::NeedMoreParams("JOIN".to_string())
        } else {
            Command::Join(rest.to_string())
        }
    } else if same_text(verb, "PART") {
        if rest.is_empty() {
            Command::NeedMoreParams("PART".to_string())
        } else {
            Command::Part(rest.to_string())
        }
    } else if same_text(verb, "PRIVMSG") {
        let (target, message) = split_target(rest);
        if target.is_empty() || message.is_empty() {
            Command::NeedMoreParams("PRIVMSG".to_string())
        } else {
            Command::Privmsg {
                target: target.to_string(),
                message: strip_leading_colons(message).to_string(),
            }
        }
    } else if same_text(verb, "PING") {
        Command::Ping(strip_leading_colons(rest).to_string())
    } else if same_text(verb, "PONG") {
        Command::Pong(strip_leading_colons(rest).to_string())
    } else if same_text(verb, "QUIT") {
        Command::Quit
    } else if same_text(verb, "TOPIC") {
        match parse_topic(rest) {
            Some((channel, topic)) => Command::Topic { channel, topic },
            None => Command::NeedMoreParams("TOPIC".to_string()),
        }
    } else {
        Command::Unknown(line.to_string())
    }
}

/// Reads a line as a command. The first word names it, in capitals or not.
pub fn parse_command(line: &str) -> (command: Command)
    ensures
        command@ == command_of(line@),
        is_ascii_chars(verb_of(line@)) ==> command@ == ascii_command_of(line@),
{
    let (verb, rest) = split_at_white_space(line);
    let upper = verb.to_uppercase();
    parse_verb(upper.as_str(), trim(unwrap_or_empty(rest)), line)
}

} // verus!
