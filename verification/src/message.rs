//! The lines that the server sends.

use vstd::prelude::*;

verus! {

/// The greeting of a client that has registered.
pub open spec fn welcome(nickname: Seq<char>) -> Seq<char> {
    ":server 001 "@ + nickname + " :Welcome to the IRC server"@
}

/// The answer to a command that lacks parameters.
pub open spec fn need_more_params(nickname: Seq<char>, command: Seq<char>) -> Seq<char> {
    ":server 461 "@ + nickname + " "@ + command + " :Not enough parameters"@
}

/// A client enters a channel.
pub open spec fn joined(nickname: Seq<char>, channel: Seq<char>) -> Seq<char> {
    ":"@ + nickname + " JOIN "@ + channel
}

/// A client leaves a channel.
pub open spec fn parted(nickname: Seq<char>, channel: Seq<char>) -> Seq<char> {
    ":"@ + nickname + " PART "@ + channel
}

/// A client says something to a channel or to another client.
pub open spec fn said(nickname: Seq<char>, target: Seq<char>, text: Seq<char>) -> Seq<char> {
    ":"@ + nickname + " PRIVMSG "@ + target + " :"@ + text
}

/// A client is gone.
pub open spec fn quit(nickname: Seq<char>) -> Seq<char> {
    ":"@ + nickname + " QUIT :Client Quit"@
}

/// The error of a client whose task did not end well.
pub open spec fn task_failed(error: Seq<char>) -> Seq<char> {
    "Client task failed: "@ + error
}

/// Writes the greeting of a client that has registered.
pub fn welcome_message(nickname: &str) -> (message: String)
    ensures
        message@ == welcome(nickname@),
{
    let mut message = ":server 001 ".to_string();
    message.append(nickname);
    message.append(" :Welcome to the IRC server");
    message
}

/// Writes the answer to a command that lacks parameters.
pub fn need_more_params_message(nickname: &str, command: &str) -> (message: String)
    ensures
        message@ == need_more_params(nickname@, command@),
{
    let mut message = ":server 461 ".to_string();
    message.append(nickname);
    message.append(" ");
    message.append(command);
    message.append(" :Not enough parameters");
    message
}

/// Writes that a client enters a channel.
pub fn join_message(nickname: &str, channel: &str) -> (message: String)
    ensures
        message@ == joined(nickname@, channel@),
{
    let mut message = ":".to_string();
    message.append(nickname);
    message.append(" JOIN ");
    message.append(channel);
    message
}

/// Writes that a client leaves a channel.
pub fn part_message(nickname: &str, channel: &str) -> (message: String)
    ensures
        message@ == parted(nickname@, channel@),
{
    let mut message = ":".to_string();
    message.append(nickname);
    message.append(" PART ");
    message.append(channel);
    message
}

/// Writes what a client says to a channel or to another client.
pub fn privmsg_message(nickname: &str, target: &str, text: &str) -> (message: String)
    ensures
        message@ == said(nickname@, target@, text@),
{
    let mut message = ":".to_string();
    message.append(nickname);
    message.append(" PRIVMSG ");
    message.append(target);
    message.append(" :");
    message.append(text);
    message
}

/// Writes that a client is gone.
pub fn quit_message(nickname: &str) -> (message: String)
    ensures
        message@ == quit(nickname@),
{
    let mut message = ":".to_string();
    message.append(nickname);
    message.append(" QUIT :Client Quit");
    message
}

/// Writes the error of a client whose task did not end well.
pub fn task_failed_message(error: &str) -> (message: String)
    ensures
        message@ == task_failed(error@),
{
    let mut message = "Client task failed: ".to_string();
    message.append(error);
    message
}

/// Whether `part` stands in `s` from `start` on.
pub open spec fn stands_at(s: Seq<char>, start: nat, part: Seq<char>) -> bool {
    &&& start + part.len() <= s.len()
    &&& forall|i: int| 0 <= i < part.len() ==> s[start + i] == #[trigger] part[i]
}

/// The greeting and the answer to a command that lacks parameters hold their parts whole, one
/// behind the other, and nothing else.
pub proof fn law_numbered_messages_hold_their_parts(nickname: Seq<char>, command: Seq<char>)
    ensures
        ({
            let message = welcome(nickname);
            &&& message.len() == 12 + nickname.len() + 27
            &&& stands_at(message, 0, ":server 001 "@)
            &&& stands_at(message, 12, nickname)
            &&& stands_at(message, 12 + nickname.len(), " :Welcome to the IRC server"@)
        }),
        ({
            let message = need_more_params(nickname, command);
            &&& message.len() == 12 + nickname.len() + 1 + command.len() + 23
            &&& stands_at(message, 0, ":server 461 "@)
            &&& stands_at(message, 12, nickname)
            &&& stands_at(message, 12 + nickname.len(), " "@)
            &&& stands_at(message, 13 + nickname.len(), command)
            &&& stands_at(message, 13 + nickname.len() + command.len(), " :Not enough parameters"@)
        }),
{
    reveal_strlit(":server 001 ");
    reveal_strlit(" :Welcome to the IRC server");
    reveal_strlit(":server 461 ");
    reveal_strlit(" ");
    reveal_strlit(" :Not enough parameters");
}

/// What is told of a client holds its parts whole, one behind the other, and nothing else.
pub proof fn law_news_hold_their_parts(nickname: Seq<char>, channel: Seq<char>)
    ensures
        ({
            let message = joined(nickname, channel);
            &&& message.len() == 1 + nickname.len() + 6 + channel.len()
            &&& stands_at(message, 0, ":"@)
            &&& stands_at(message, 1, nickname)
            &&& stands_at(message, 1 + nickname.len(), " JOIN "@)
            &&& stands_at(message, 7 + nickname.len(), channel)
        }),
        ({
            let message = parted(nickname, channel);
            &&& message.len() == 1 + nickname.len() + 6 + channel.len()
            &&& stands_at(message, 0, ":"@)
            &&& stands_at(message, 1, nickname)
            &&& stands_at(message, 1 + nickname.len(), " PART "@)
            &&& stands_at(message, 7 + nickname.len(), channel)
        }),
        ({
            let message = quit(nickname);
            &&& message.len() == 1 + nickname.len() + 18
            &&& stands_at(message, 0, ":"@)
            &&& stands_at(message, 1, nickname)
            &&& stands_at(message, 1 + nickname.len(), " QUIT :Client Quit"@)
        }),
{
    reveal_strlit(":");
    reveal_strlit(" JOIN ");
    reveal_strlit(" PART ");
    reveal_strlit(" QUIT :Client Quit");
}

/// What a client says is relayed whole: behind the nickname and the target stands all of the text,
/// up to the end of the line.
pub proof fn law_text_is_relayed_whole(nickname: Seq<char>, target: Seq<char>, text: Seq<char>)
    ensures
        ({
            let message = said(nickname, target, text);
            &&& message.len() == 1 + nickname.len() + 9 + target.len() + 2 + text.len()
            &&& stands_at(message, 0, ":"@)
            &&& stands_at(message, 1, nickname)
            &&& stands_at(message, 1 + nickname.len(), " PRIVMSG "@)
            &&& stands_at(message, 10 + nickname.len(), target)
            &&& stands_at(message, 10 + nickname.len() + target.len(), " :"@)
            &&& stands_at(message, (message.len() - text.len()) as nat, text)
        }),
{
    reveal_strlit(":");
    reveal_strlit(" PRIVMSG ");
    reveal_strlit(" :");
}

/// The error of a task stands whole behind the words that announce it.
pub proof fn law_task_error_is_whole(error: Seq<char>)
    ensures
        task_failed(error).len() == 20 + error.len(),
        stands_at(task_failed(error), 0, "Client task failed: "@),
        stands_at(task_failed(error), 20, error),
{
    reveal_strlit("Client task failed: ");
}

} // verus!
