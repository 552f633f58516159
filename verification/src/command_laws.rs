//! What holds of every line that is read as a command.

use vstd::prelude::*;
use vstd::utf8::is_ascii_chars;

use crate::command::{
    ascii_command_of, ascii_uppercase, command_of, interpret, rest_of, topic_params, uppercase,
    verb_of, Command, CommandView,
};
use crate::text::{
    colon, is_white_space, lemma_position, lemma_position_bounds, lemma_trim_end, not_colon,
    or_empty, position, solid, split_first, string_of, text_of, trim_end, trimmed, white,
    without_leading_colons,
};

verus! {

/// Whether `s` is free of white space.
pub open spec fn unbroken(s: Seq<char>) -> bool {
    forall|i: int| 0 <= i < s.len() ==> !is_white_space(#[trigger] s[i])
}

/// Whether `s` is white space throughout.
pub open spec fn blank(s: Seq<char>) -> bool {
    forall|i: int| 0 <= i < s.len() ==> is_white_space(#[trigger] s[i])
}

/// Whether `s` is not empty and neither starts nor ends with white space.
pub open spec fn tight(s: Seq<char>) -> bool {
    s.len() > 0 && !is_white_space(s[0]) && !is_white_space(s.last())
}

proof fn lemma_split(before: Seq<char>, c: char, after: Seq<char>, p: spec_fn(char) -> bool)
    requires
        forall|i: int| 0 <= i < before.len() ==> !p(#[trigger] before[i]),
        p(c),
    ensures
        split_first(before.push(c) + after, p) == (before, Some(after)),
{
    let s = before.push(c) + after;
    assert forall|i: int| 0 <= i < before.len() implies !p(#[trigger] s[i]) by {
        assert(s[i] == before[i]);
    }
    lemma_position(s, p, before.len() as int);
    assert(s.take(before.len() as int) =~= before);
    assert(s.skip(before.len() as int + 1) =~= after);
}

proof fn lemma_split_none(s: Seq<char>, p: spec_fn(char) -> bool)
    requires
        forall|i: int| 0 <= i < s.len() ==> !p(#[trigger] s[i]),
    ensures
        split_first(s, p) == (s, None::<Seq<char>>),
{
    lemma_position(s, p, s.len() as int);
    assert(s.take(s.len() as int) =~= s);
}

proof fn lemma_trimmed_padded(left: Seq<char>, s: Seq<char>, right: Seq<char>)
    requires
        blank(left),
        tight(s),
        blank(right),
    ensures
        trimmed(left + s + right) == s,
{
    let all = left + s + right;
    assert forall|i: int| 0 <= i < left.len() implies !solid()(#[trigger] all[i]) by {
        assert(all[i] == left[i]);
    }
    assert(all[left.len() as int] == s[0]);
    lemma_position(all, solid(), left.len() as int);
    let tail = all.skip(left.len() as int);
    assert forall|i: int| s.len() <= i < tail.len() implies is_white_space(#[trigger] tail[i]) by {
        assert(tail[i] == right[i - s.len()]);
    }
    assert(tail[s.len() - 1] == s.last());
    lemma_trim_end(tail, s.len() as int);
    assert(tail.take(s.len() as int) =~= s);
}

proof fn lemma_trimmed_blank(s: Seq<char>)
    requires
        blank(s),
    ensures
        trimmed(s) == Seq::<char>::empty(),
{
    assert forall|i: int| 0 <= i < s.len() implies !solid()(#[trigger] s[i]) by {}
    lemma_position(s, solid(), s.len() as int);
    assert(s.skip(s.len() as int) =~= Seq::<char>::empty());
}

proof fn lemma_trimmed_tight(s: Seq<char>)
    requires
        tight(s),
    ensures
        trimmed(s) == s,
{
    let none = Seq::<char>::empty();
    lemma_trimmed_padded(none, s, none);
    assert(none + s + none =~= s);
}

/// A text that is trimmed is empty, or starts and ends with a character that is not white space.
proof fn lemma_trimmed_is_tight(s: Seq<char>)
    ensures
        trimmed(s).len() == 0 || tight(trimmed(s)),
{
    lemma_position_bounds(s, solid());
    let tail = s.skip(position(s, solid()));
    lemma_trim_end_shape(tail);
}

proof fn lemma_trim_end_shape(s: Seq<char>)
    ensures
        trim_end(s).len() <= s.len(),
        trim_end(s).len() > 0 ==> trim_end(s)[0] == s[0] && !is_white_space(trim_end(s).last()),
    decreases s.len(),
{
    if s.len() > 0 && is_white_space(s.last()) {
        lemma_trim_end_shape(s.drop_last());
    }
}

/// Whether two lines are read as one command, or each as an unknown one.
pub open spec fn same_command(
    a: Seq<char>,
    command_a: CommandView,
    b: Seq<char>,
    command_b: CommandView,
) -> bool {
    ||| command_a == command_b
    ||| command_a == CommandView::Unknown(a) && command_b == CommandView::Unknown(b)
}

/// Whether two words are ASCII and differ in case alone.
pub open spec fn same_but_for_case(a: Seq<char>, b: Seq<char>) -> bool {
    is_ascii_chars(a) && is_ascii_chars(b) && ascii_uppercase(a) == ascii_uppercase(b)
}

/// Any white space may stand behind the first word of a line, and of two words with the same
/// uppercase equivalent either may be the first: of two ASCII words, those that differ in case
/// alone.
pub proof fn law_case_and_separator_are_free(
    word_a: Seq<char>,
    word_b: Seq<char>,
    space_a: char,
    space_b: char,
    tail: Seq<char>,
)
    requires
        unbroken(word_a),
        unbroken(word_b),
        is_white_space(space_a),
        is_white_space(space_b),
    ensures
        ({
            let a = word_a.push(space_a) + tail;
            let b = word_b.push(space_b) + tail;
            &&& uppercase(word_a) == uppercase(word_b) ==> same_command(
                a,
                command_of(a),
                b,
                command_of(b),
            )
            &&& same_but_for_case(word_a, word_b) ==> same_command(
                a,
                ascii_command_of(a),
                b,
                ascii_command_of(b),
            )
        }),
        uppercase(word_a) == uppercase(word_b) ==> same_command(
            word_a,
            command_of(word_a),
            word_b,
            command_of(word_b),
        ),
        same_but_for_case(word_a, word_b) ==> same_command(
            word_a,
            ascii_command_of(word_a),
            word_b,
            ascii_command_of(word_b),
        ),
{
    lemma_split_none(word_a, white());
    lemma_split_none(word_b, white());
    assert forall|i: int| 0 <= i < word_a.len() implies !white()(#[trigger] word_a[i]) by {}
    assert forall|i: int| 0 <= i < word_b.len() implies !white()(#[trigger] word_b[i]) by {}
    lemma_split(word_a, space_a, tail, white());
    lemma_split(word_b, space_b, tail, white());
}

/// White space before the parameters and at the end of a line does not count, also where the line
/// is a bare word.
pub proof fn law_padding_is_ignored(
    word: Seq<char>,
    space: char,
    left: Seq<char>,
    tail: Seq<char>,
    right: Seq<char>,
)
    requires
        unbroken(word),
        is_white_space(space),
        blank(left),
        blank(right),
    ensures
        ({
            let a = word.push(space) + (left + tail + right);
            let b = word.push(space) + tail;
            &&& same_command(a, command_of(a), b, command_of(b))
            &&& is_ascii_chars(word) ==> same_command(
                a,
                ascii_command_of(a),
                b,
                ascii_command_of(b),
            )
        }),
        ({
            let a = word.push(space) + right;
            &&& same_command(a, command_of(a), word, command_of(word))
            &&& is_ascii_chars(word) ==> same_command(
                a,
                ascii_command_of(a),
                word,
                ascii_command_of(word),
            )
        }),
{
    assert forall|i: int| 0 <= i < word.len() implies !white()(#[trigger] word[i]) by {}
    lemma_split(word, space, left + tail + right, white());
    lemma_split(word, space, tail, white());
    lemma_trimmed_pad(left, tail, right);
    lemma_split(word, space, right, white());
    lemma_split_none(word, white());
    lemma_trimmed_blank(right);
    lemma_trimmed_blank(Seq::empty());
}

proof fn lemma_trimmed_pad(left: Seq<char>, s: Seq<char>, right: Seq<char>)
    requires
        blank(left),
        blank(right),
    ensures
        trimmed(left + s + right) == trimmed(s),
{
    let all = left + s + right;
    lemma_position_bounds(s, solid());
    let start = position(s, solid());
    if start == s.len() {
        assert forall|i: int| 0 <= i < s.len() implies is_white_space(#[trigger] s[i]) by {
            assert(!solid()(s[i]));
        }
        lemma_trimmed_blank(s);
        assert forall|i: int| 0 <= i < all.len() implies is_white_space(#[trigger] all[i]) by {
            if i < left.len() {
                assert(all[i] == left[i]);
            } else if i < left.len() + s.len() {
                assert(all[i] == s[i - left.len()]);
            } else {
                assert(all[i] == right[i - left.len() - s.len()]);
            }
        }
        lemma_trimmed_blank(all);
    } else {
        let inner = trimmed(s);
        let before = s.take(start);
        let rest = s.skip(start);
        lemma_trim_end_prefix(rest);
        let end = inner.len() as int;
        let after = rest.skip(end);
        assert(s =~= before + inner + after);
        assert forall|i: int| 0 <= i < before.len() implies is_white_space(#[trigger] before[i]) by {
            assert(!solid()(s[i]));
        }
        lemma_trimmed_is_tight(s);
        if inner.len() == 0 {
            assert(rest[0] == after[0]);
            assert(is_white_space(after[0]));
            assert(solid()(s[start]));
        }
        assert forall|i: int| 0 <= i < (left + before).len() implies is_white_space(
            #[trigger] (left + before)[i],
        ) by {
            if i < left.len() {
                assert((left + before)[i] == left[i]);
            } else {
                assert((left + before)[i] == before[i - left.len()]);
            }
        }
        assert forall|i: int| 0 <= i < (after + right).len() implies is_white_space(
            #[trigger] (after + right)[i],
        ) by {
            if i < after.len() {
                assert((after + right)[i] == after[i]);
            } else {
                assert((after + right)[i] == right[i - after.len()]);
            }
        }
        lemma_trimmed_padded(left + before, inner, after + right);
        assert(all =~= (left + before) + inner + (after + right));
    }
}

proof fn lemma_trim_end_prefix(s: Seq<char>)
    ensures
        trim_end(s).len() <= s.len(),
        trim_end(s) == s.take(trim_end(s).len() as int),
        blank(s.skip(trim_end(s).len() as int)),
    decreases s.len(),
{
    if s.len() > 0 && is_white_space(s.last()) {
        let shorter = s.drop_last();
        lemma_trim_end_prefix(shorter);
        let n = trim_end(shorter).len() as int;
        assert(shorter.take(n) =~= s.take(n));
        assert forall|i: int| 0 <= i < s.skip(n).len() implies is_white_space(
            #[trigger] s.skip(n)[i],
        ) by {
            if i < shorter.skip(n).len() {
                assert(s.skip(n)[i] == shorter.skip(n)[i]);
            }
        }
    } else {
        assert(s.take(s.len() as int) =~= s);
    }
}

/// Whether the parameters that a command cannot do without are there.
pub open spec fn complete(command: CommandView) -> bool {
    match command {
        CommandView::Join(channel) => tight(channel),
        CommandView::List(channel) => channel matches Some(name) ==> tight(name),
        CommandView::Names(channel) => tight(channel),
        CommandView::Nick(nickname) => tight(nickname),
        CommandView::Notice { target, .. } => target.len() > 0 && unbroken(target),
        CommandView::User { username, .. } => username.len() > 0 && unbroken(username),
        CommandView::Part(channel) => tight(channel),
        CommandView::Privmsg { target, .. } => target.len() > 0 && unbroken(target),
        CommandView::Topic { channel, .. } => tight(channel),
        _ => true,
    }
}

/// Whatever the line, the command that is read from it is complete.
pub proof fn law_commands_are_complete(verb: Seq<char>, line: Seq<char>)
    ensures
        complete(interpret(verb, rest_of(line), line)),
{
    let rest = rest_of(line);
    lemma_trimmed_is_tight(or_empty(split_first(line, white()).1));
    lemma_position_bounds(rest, white());
    let word = rest.take(position(rest, white()));
    assert forall|i: int| 0 <= i < word.len() implies !is_white_space(#[trigger] word[i]) by {
        assert(word[i] == rest[i]);
        assert(!white()(rest[i]));
    }
    lemma_trimmed_is_tight(split_first(rest, colon()).0);
}

/// The names of the commands.
pub open spec fn is_name(word: Seq<char>) -> bool {
    ||| word == "LIST"@
    ||| word == "NAMES"@
    ||| word == "NICK"@
    ||| word == "NOTICE"@
    ||| word == "USER"@
    ||| word == "JOIN"@
    ||| word == "PART"@
    ||| word == "PRIVMSG"@
    ||| word == "PING"@
    ||| word == "PONG"@
    ||| word == "QUIT"@
    ||| word == "TOPIC"@
}

/// The names are told apart by their length and their first two letters.
proof fn lemma_names()
    ensures
        "LIST"@.len() == 4 && "LIST"@[0] == 'L',
        "NAMES"@.len() == 5 && "NAMES"@[0] == 'N',
        "NICK"@.len() == 4 && "NICK"@[0] == 'N',
        "NOTICE"@.len() == 6,
        "USER"@.len() == 4 && "USER"@[0] == 'U',
        "JOIN"@.len() == 4 && "JOIN"@[0] == 'J',
        "PART"@.len() == 4 && "PART"@[0] == 'P' && "PART"@[1] == 'A',
        "PRIVMSG"@.len() == 7,
        "PING"@.len() == 4 && "PING"@[0] == 'P' && "PING"@[1] == 'I',
        "PONG"@.len() == 4 && "PONG"@[0] == 'P' && "PONG"@[1] == 'O',
        "QUIT"@.len() == 4 && "QUIT"@[0] == 'Q',
        "TOPIC"@.len() == 5 && "TOPIC"@[0] == 'T',
        forall|word: Seq<char>, i: int|
            is_name(word) && 0 <= i < word.len() ==> 'A' <= #[trigger] word[i] <= 'Z',
{
    reveal_strlit("LIST");
    reveal_strlit("NAMES");
    reveal_strlit("NICK");
    reveal_strlit("NOTICE");
    reveal_strlit("USER");
    reveal_strlit("JOIN");
    reveal_strlit("PART");
    reveal_strlit("PRIVMSG");
    reveal_strlit("PING");
    reveal_strlit("PONG");
    reveal_strlit("QUIT");
    reveal_strlit("TOPIC");
}

/// A word in capitals with a parameter text behind it is read as that command on that text.
proof fn lemma_named(name: Seq<char>, tail: Seq<char>)
    requires
        is_name(name),
    ensures
        ascii_command_of(name.push(' ') + tail) == interpret(
            name,
            trimmed(tail),
            name.push(' ') + tail,
        ),
        ascii_command_of(name) == interpret(name, Seq::empty(), name),
        verb_of(name.push(' ') + tail) == name,
        verb_of(name) == name,
        is_ascii_chars(name),
{
    lemma_names();
    assert forall|i: int| 0 <= i < name.len() implies !white()(#[trigger] name[i]) by {}
    lemma_split(name, ' ', tail, white());
    lemma_split_none(name, white());
    assert(ascii_uppercase(name) =~= name);
    lemma_trimmed_blank(Seq::empty());
}

/// The commands that cannot do without parameters.
pub open spec fn needs_params(name: Seq<char>) -> bool {
    ||| name == "NAMES"@
    ||| name == "NICK"@
    ||| name == "NOTICE"@
    ||| name == "USER"@
    ||| name == "JOIN"@
    ||| name == "PART"@
    ||| name == "PRIVMSG"@
    ||| name == "TOPIC"@
}

/// A command that cannot do without parameters, and that is given none but white space, is
/// answered with its name.
pub proof fn law_missing_parameters(name: Seq<char>, gap: Seq<char>)
    requires
        needs_params(name),
        blank(gap),
    ensures
        ascii_command_of(name) == CommandView::NeedMoreParams(name),
        ascii_command_of(name.push(' ') + gap) == CommandView::NeedMoreParams(name),
        is_ascii_chars(verb_of(name)),
        is_ascii_chars(verb_of(name.push(' ') + gap)),
{
    let none = Seq::<char>::empty();
    lemma_names();
    lemma_named(name, gap);
    lemma_trimmed_blank(gap);
    lemma_trimmed_blank(none);
    lemma_split_none(none, white());
    lemma_split_none(none, colon());
}

/// A line is unknown exactly where its first word names no command, and a complaint about missing
/// parameters names the command that lacks them.
pub proof fn law_commands_are_told_apart(verb: Seq<char>, rest: Seq<char>, line: Seq<char>)
    ensures
        interpret(verb, rest, line) is Unknown <==> !is_name(verb),
        verb != "LIST"@ && verb != "NAMES"@ && verb != "NICK"@ && verb != "NOTICE"@ && verb
            != "USER"@ && verb != "JOIN"@ && verb != "PART"@ && verb != "PRIVMSG"@ && verb
            != "PING"@ && verb != "PONG"@ && verb != "QUIT"@ && verb != "TOPIC"@ ==> interpret(
            verb,
            rest,
            line,
        ) == CommandView::Unknown(line),
        interpret(verb, rest, line) matches CommandView::Unknown(text) ==> text == line,
        interpret(verb, rest, line) matches CommandView::NeedMoreParams(name) ==> name == verb
            && needs_params(verb),
{
}

/// Whether `s` keeps its shape behind a colon at the end of a line: it does not start with a
/// colon and does not end with white space.
pub open spec fn plain(s: Seq<char>) -> bool {
    s.len() > 0 ==> s[0] != ':' && !is_white_space(s.last())
}

/// `s` behind a colon.
pub open spec fn colon_then(s: Seq<char>) -> Seq<char> {
    seq![':'] + s
}

/// A line for a command.
pub open spec fn line_of(command: CommandView) -> Seq<char> {
    match command {
        CommandView::Join(channel) => "JOIN"@.push(' ') + channel,
        CommandView::List(None) => "LIST"@,
        CommandView::List(Some(channel)) => "LIST"@.push(' ') + channel,
        CommandView::Names(channel) => "NAMES"@.push(' ') + channel,
        CommandView::Nick(nickname) => "NICK"@.push(' ') + nickname,
        CommandView::Notice { target, message } => "NOTICE"@.push(' ') + (target.push(' ')
            + colon_then(message)),
        CommandView::User { username, realname } => "USER"@.push(' ') + (username.push(' ')
            + (seq!['0'].push(' ') + (seq!['*'].push(' ') + colon_then(realname)))),
        CommandView::Part(channel) => "PART"@.push(' ') + channel,
        CommandView::Privmsg { target, message } => "PRIVMSG"@.push(' ') + (target.push(' ')
            + colon_then(message)),
        CommandView::Ping(token) => "PING"@.push(' ') + colon_then(token),
        CommandView::Pong(token) => "PONG"@.push(' ') + colon_then(token),
        CommandView::Quit => "QUIT"@,
        CommandView::Topic { channel, topic: None } => "TOPIC"@.push(' ') + channel,
        CommandView::Topic { channel, topic: Some(topic) } => "TOPIC"@.push(' ') + (channel.push(
            ' ',
        ).push(':') + topic),
        CommandView::NeedMoreParams(name) => name,
        CommandView::Unknown(line) => line,
    }
}

/// Whether a command can be written as a line without loss.
pub open spec fn writable(command: CommandView) -> bool {
    match command {
        CommandView::Notice { target, message } => target.len() > 0 && unbroken(target) && plain(
            message,
        ),
        CommandView::User { username, realname } => username.len() > 0 && unbroken(username)
            && plain(realname),
        CommandView::Privmsg { target, message } => target.len() > 0 && unbroken(target) && plain(
            message,
        ),
        CommandView::Ping(token) => plain(token),
        CommandView::Pong(token) => plain(token),
        CommandView::Topic { channel, topic } => {
            &&& tight(channel)
            &&& forall|i: int| 0 <= i < channel.len() ==> #[trigger] channel[i] != ':'
            &&& topic matches Some(text) ==> text.len() > 0 ==> !is_white_space(text.last())
        },
        CommandView::NeedMoreParams(name) => needs_params(name),
        CommandView::Unknown(line) => is_ascii_chars(verb_of(line)) && !is_name(
            ascii_uppercase(verb_of(line)),
        ),
        _ => complete(command),
    }
}

proof fn lemma_colon_then(s: Seq<char>)
    requires
        plain(s),
    ensures
        without_leading_colons(colon_then(s)) == s,
        tight(colon_then(s)),
{
    let all = colon_then(s);
    assert forall|i: int| 0 <= i < 1 implies !not_colon()(#[trigger] all[i]) by {}
    if s.len() > 0 {
        assert(all[1] == s[0]);
        assert(all.last() == s.last());
    }
    lemma_position(all, not_colon(), 1);
    assert(all.skip(1) =~= s);
}

/// A word, a space and a tight text form a tight text, which splits into the two again.
proof fn lemma_word_then(word: Seq<char>, tail: Seq<char>)
    requires
        word.len() > 0,
        unbroken(word),
        tight(tail),
    ensures
        tight(word.push(' ') + tail),
        split_first(word.push(' ') + tail, white()) == (word, Some(tail)),
{
    let all = word.push(' ') + tail;
    assert(all[0] == word[0]);
    assert(all.last() == tail.last());
    assert forall|i: int| 0 <= i < word.len() implies !white()(#[trigger] word[i]) by {}
    lemma_split(word, ' ', tail, white());
}

/// The parser reads back what was written: no parameter is cut short, and the spaces inside a
/// message, a real name or a topic stay.
pub proof fn law_written_commands_are_read_back(command: CommandView)
    requires
        writable(command),
    ensures
        is_ascii_chars(verb_of(line_of(command))),
        ascii_command_of(line_of(command)) == command,
{
    lemma_names();
    match command {
        CommandView::Join(channel) => {
            lemma_named("JOIN"@, channel);
            lemma_trimmed_tight(channel);
        },
        CommandView::List(None) => {
            lemma_named("LIST"@, Seq::empty());
        },
        CommandView::List(Some(channel)) => {
            lemma_named("LIST"@, channel);
            lemma_trimmed_tight(channel);
        },
        CommandView::Names(channel) => {
            lemma_named("NAMES"@, channel);
            lemma_trimmed_tight(channel);
        },
        CommandView::Nick(nickname) => {
            lemma_named("NICK"@, nickname);
            lemma_trimmed_tight(nickname);
        },
        CommandView::Part(channel) => {
            lemma_named("PART"@, channel);
            lemma_trimmed_tight(channel);
        },
        CommandView::Notice { target, message } => {
            let rest = target.push(' ') + colon_then(message);
            lemma_named("NOTICE"@, rest);
            lemma_colon_then(message);
            lemma_word_then(target, colon_then(message));
            lemma_trimmed_tight(rest);
        },
        CommandView::Privmsg { target, message } => {
            let rest = target.push(' ') + colon_then(message);
            lemma_named("PRIVMSG"@, rest);
            lemma_colon_then(message);
            lemma_word_then(target, colon_then(message));
            lemma_trimmed_tight(rest);
        },
        CommandView::User { username, realname } => {
            let after_server = colon_then(realname);
            let after_host = seq!['*'].push(' ') + after_server;
            let after_user = seq!['0'].push(' ') + after_host;
            let rest = username.push(' ') + after_user;
            lemma_named("USER"@, rest);
            lemma_colon_then(realname);
            lemma_word_then(seq!['*'], after_server);
            lemma_word_then(seq!['0'], after_host);
            lemma_word_then(username, after_user);
            lemma_trimmed_tight(rest);
        },
        CommandView::Ping(token) => {
            lemma_named("PING"@, colon_then(token));
            lemma_colon_then(token);
            lemma_trimmed_tight(colon_then(token));
        },
        CommandView::Pong(token) => {
            lemma_named("PONG"@, colon_then(token));
            lemma_colon_then(token);
            lemma_trimmed_tight(colon_then(token));
        },
        CommandView::Quit => {
            lemma_named("QUIT"@, Seq::empty());
        },
        CommandView::Topic { channel, topic: None } => {
            lemma_named("TOPIC"@, channel);
            lemma_trimmed_tight(channel);
            assert forall|i: int| 0 <= i < channel.len() implies !colon()(#[trigger] channel[i]) by {}
            lemma_split_none(channel, colon());
        },
        CommandView::Topic { channel, topic: Some(topic) } => {
            let before = channel.push(' ');
            let rest = before.push(':') + topic;
            lemma_named("TOPIC"@, rest);
            assert(rest[0] == channel[0]);
            if topic.len() > 0 {
                assert(rest.last() == topic.last());
            }
            lemma_trimmed_tight(rest);
            assert forall|i: int| 0 <= i < before.len() implies !colon()(#[trigger] before[i]) by {
                if i < channel.len() {
                    assert(before[i] == channel[i]);
                }
            }
            lemma_split(before, ':', topic, colon());
            lemma_trimmed_padded(Seq::empty(), channel, seq![' ']);
            assert(Seq::<char>::empty() + channel + seq![' '] =~= before);
        },
        CommandView::NeedMoreParams(name) => {
            law_missing_parameters(name, Seq::empty());
        },
        CommandView::Unknown(line) => {},
    }
}

/// A text is split at its first white space, which neither part holds; a text without white space
/// is not split.
pub proof fn law_first_white_space_splits(before: Seq<char>, space: char, after: Seq<char>)
    requires
        unbroken(before),
        is_white_space(space),
    ensures
        split_first(before.push(space) + after, white()) == (before, Some(after)),
        split_first(before, white()) == (before, None::<Seq<char>>),
{
    assert forall|i: int| 0 <= i < before.len() implies !white()(#[trigger] before[i]) by {}
    lemma_split(before, space, after, white());
    lemma_split_none(before, white());
}

/// A text is split at its first colon, which neither part holds; a text without a colon is not
/// split.
pub proof fn law_first_colon_splits(before: Seq<char>, after: Seq<char>)
    requires
        forall|i: int| 0 <= i < before.len() ==> #[trigger] before[i] != ':',
    ensures
        split_first(before.push(':') + after, colon()) == (before, Some(after)),
        split_first(before, colon()) == (before, None::<Seq<char>>),
{
    assert forall|i: int| 0 <= i < before.len() implies !colon()(#[trigger] before[i]) by {}
    lemma_split(before, ':', after, colon());
    lemma_split_none(before, colon());
}

/// Trimming takes away all white space at the two ends and nothing else.
pub proof fn law_trimming_keeps_the_inside(left: Seq<char>, inside: Seq<char>, right: Seq<char>)
    requires
        blank(left),
        tight(inside),
        blank(right),
    ensures
        trimmed(left + inside + right) == inside,
        trimmed(left) == Seq::<char>::empty(),
{
    lemma_trimmed_padded(left, inside, right);
    lemma_trimmed_blank(left);
}

/// Whether `s` consists of colons.
pub open spec fn only_colons(s: Seq<char>) -> bool {
    forall|i: int| 0 <= i < s.len() ==> #[trigger] s[i] == ':'
}

/// Whether `s` does not start with a colon.
pub open spec fn starts_without_colon(s: Seq<char>) -> bool {
    s.len() > 0 ==> s[0] != ':'
}

/// All colons at the start of a text are taken away, and nothing else.
pub proof fn law_leading_colons_are_stripped(colons: Seq<char>, text: Seq<char>)
    requires
        only_colons(colons),
        starts_without_colon(text),
    ensures
        without_leading_colons(colons + text) == text,
{
    let all = colons + text;
    assert forall|i: int| 0 <= i < colons.len() implies !not_colon()(#[trigger] all[i]) by {
        assert(all[i] == colons[i]);
    }
    if text.len() > 0 {
        assert(all[colons.len() as int] == text[0]);
    }
    lemma_position(all, not_colon(), colons.len() as int);
    assert(all.skip(colons.len() as int) =~= text);
}

/// A letter of ASCII has the capital that stands in its place in the alphabet; every other
/// character is its own.
pub proof fn law_capitals_keep_their_place(s: Seq<char>, i: int)
    requires
        0 <= i < s.len(),
    ensures
        ascii_uppercase(s).len() == s.len(),
        'a' <= s[i] <= 'z' ==> ascii_uppercase(s)[i] as int - 'A' as int == s[i] as int
            - 'a' as int,
        !('a' <= s[i] <= 'z') ==> ascii_uppercase(s)[i] == s[i],
{
}

/// Only the first word of a line and what stands behind it, without the white space at its ends,
/// count: the line is read as the command that the word in capitals names, on that text.
pub proof fn law_word_and_rest_decide(
    word: Seq<char>,
    space: char,
    left: Seq<char>,
    rest: Seq<char>,
    right: Seq<char>,
)
    requires
        unbroken(word),
        is_white_space(space),
        blank(left),
        tight(rest),
        blank(right),
    ensures
        ({
            let line = word.push(space) + (left + rest + right);
            &&& command_of(line) == interpret(uppercase(word), rest, line)
            &&& ascii_command_of(line) == interpret(ascii_uppercase(word), rest, line)
            &&& verb_of(line) == word
        }),
        ({
            let line = word.push(space) + left;
            &&& command_of(line) == interpret(uppercase(word), Seq::empty(), line)
            &&& ascii_command_of(line) == interpret(ascii_uppercase(word), Seq::empty(), line)
            &&& verb_of(line) == word
        }),
        command_of(word) == interpret(uppercase(word), Seq::empty(), word),
        ascii_command_of(word) == interpret(ascii_uppercase(word), Seq::empty(), word),
        verb_of(word) == word,
{
    law_first_white_space_splits(word, space, left + rest + right);
    law_first_white_space_splits(word, space, left);
    law_trimming_keeps_the_inside(left, rest, right);
    lemma_trimmed_blank(Seq::empty());
}

/// `NAMES`, `NICK`, `JOIN` and `PART` take all that stands behind them as their one parameter, and
/// lack it where nothing does. `LIST` takes it too, and does without. `QUIT` takes nothing.
pub proof fn law_single_parameters(rest: Seq<char>, line: Seq<char>)
    ensures
        rest.len() > 0 ==> {
            &&& interpret("LIST"@, rest, line) == CommandView::List(Some(rest))
            &&& interpret("NAMES"@, rest, line) == CommandView::Names(rest)
            &&& interpret("NICK"@, rest, line) == CommandView::Nick(rest)
            &&& interpret("JOIN"@, rest, line) == CommandView::Join(rest)
            &&& interpret("PART"@, rest, line) == CommandView::Part(rest)
        },
        rest.len() == 0 ==> {
            &&& interpret("LIST"@, rest, line) == CommandView::List(None)
            &&& interpret("NAMES"@, rest, line) == CommandView::NeedMoreParams("NAMES"@)
            &&& interpret("NICK"@, rest, line) == CommandView::NeedMoreParams("NICK"@)
            &&& interpret("JOIN"@, rest, line) == CommandView::NeedMoreParams("JOIN"@)
            &&& interpret("PART"@, rest, line) == CommandView::NeedMoreParams("PART"@)
        },
        interpret("QUIT"@, rest, line) == CommandView::Quit,
{
    lemma_names();
}

/// `PING` and `PONG` take all that stands behind them, with colons before it or without.
pub proof fn law_tokens_are_kept(colons: Seq<char>, token: Seq<char>, line: Seq<char>)
    requires
        only_colons(colons),
        starts_without_colon(token),
    ensures
        interpret("PING"@, colons + token, line) == CommandView::Ping(token),
        interpret("PONG"@, colons + token, line) == CommandView::Pong(token),
{
    lemma_names();
    law_leading_colons_are_stripped(colons, token);
}

/// `PRIVMSG` and `NOTICE` take the first word as their target and all that stands behind the white
/// space after it, with colons before it or without, as their message. `PRIVMSG` lacks a parameter
/// exactly where there is no target or nothing behind it, `NOTICE` exactly where there is no
/// target.
pub proof fn law_target_and_message_are_kept(
    target: Seq<char>,
    space: char,
    colons: Seq<char>,
    message: Seq<char>,
    line: Seq<char>,
)
    requires
        unbroken(target),
        is_white_space(space),
        only_colons(colons),
        starts_without_colon(message),
    ensures
        ({
            let rest = target.push(space) + (colons + message);
            let lacks_message = colons.len() == 0 && message.len() == 0;
            &&& target.len() > 0 && !lacks_message ==> interpret("PRIVMSG"@, rest, line)
                == (CommandView::Privmsg { target, message })
            &&& target.len() == 0 || lacks_message ==> interpret("PRIVMSG"@, rest, line)
                == CommandView::NeedMoreParams("PRIVMSG"@)
            &&& target.len() > 0 ==> interpret("NOTICE"@, rest, line) == (CommandView::Notice {
                target,
                message,
            })
            &&& target.len() == 0 ==> interpret("NOTICE"@, rest, line)
                == CommandView::NeedMoreParams("NOTICE"@)
        }),
        interpret("PRIVMSG"@, target, line) == CommandView::NeedMoreParams("PRIVMSG"@),
        target.len() > 0 ==> interpret("NOTICE"@, target, line) == (CommandView::Notice {
            target,
            message: Seq::empty(),
        }),
        target.len() == 0 ==> interpret("NOTICE"@, target, line) == CommandView::NeedMoreParams(
            "NOTICE"@,
        ),
{
    let none = Seq::<char>::empty();
    lemma_names();
    law_first_white_space_splits(target, space, colons + message);
    law_leading_colons_are_stripped(colons, message);
    law_leading_colons_are_stripped(none, none);
    assert(none + none =~= none);
}

/// `USER` takes three words, each with one white space behind it, and all that stands behind them,
/// with colons before it or without. It keeps the first and the last, whatever the two others are,
/// and lacks a parameter exactly where one of the four is empty or not there.
pub proof fn law_names_of_user_are_kept(
    username: Seq<char>,
    host: Seq<char>,
    server: Seq<char>,
    spaces: (char, char, char),
    colons: Seq<char>,
    realname: Seq<char>,
    line: Seq<char>,
)
    requires
        unbroken(username),
        unbroken(host),
        unbroken(server),
        is_white_space(spaces.0),
        is_white_space(spaces.1),
        is_white_space(spaces.2),
        only_colons(colons),
        starts_without_colon(realname),
    ensures
        ({
            let rest = username.push(spaces.0) + (host.push(spaces.1) + (server.push(spaces.2) + (
            colons + realname)));
            let lacks = username.len() == 0 || host.len() == 0 || server.len() == 0 || colons.len()
                + realname.len() == 0;
            &&& !lacks ==> interpret("USER"@, rest, line) == (CommandView::User {
                username,
                realname,
            })
            &&& lacks ==> interpret("USER"@, rest, line) == CommandView::NeedMoreParams("USER"@)
        }),
        interpret("USER"@, username, line) == CommandView::NeedMoreParams("USER"@),
        interpret("USER"@, username.push(spaces.0) + host, line) == CommandView::NeedMoreParams(
            "USER"@,
        ),
        interpret("USER"@, username.push(spaces.0) + (host.push(spaces.1) + server), line)
            == CommandView::NeedMoreParams("USER"@),
{
    let none = Seq::<char>::empty();
    let last = colons + realname;
    lemma_names();
    law_first_white_space_splits(none, ' ', none);
    law_first_white_space_splits(server, spaces.2, last);
    law_first_white_space_splits(host, spaces.1, server.push(spaces.2) + last);
    law_first_white_space_splits(
        username,
        spaces.0,
        host.push(spaces.1) + (server.push(spaces.2) + last),
    );
    law_first_white_space_splits(username, spaces.0, host);
    law_first_white_space_splits(host, spaces.1, server);
    law_first_white_space_splits(username, spaces.0, host.push(spaces.1) + server);
    law_leading_colons_are_stripped(colons, realname);
}

/// `TOPIC` takes what stands before the first colon, without the white space at its ends, as the
/// channel, and all that stands behind that colon, unchanged, as the topic. It lacks a parameter
/// exactly where there is no channel.
pub proof fn law_channel_and_topic_are_kept(
    left: Seq<char>,
    channel: Seq<char>,
    right: Seq<char>,
    topic: Seq<char>,
    line: Seq<char>,
)
    requires
        blank(left),
        tight(channel),
        forall|i: int| 0 <= i < channel.len() ==> #[trigger] channel[i] != ':',
        blank(right),
    ensures
        ({
            let before = left + channel + right;
            &&& topic_params(before) == Some((channel, None::<Seq<char>>))
            &&& topic_params(before.push(':') + topic) == Some((channel, Some(topic)))
            &&& interpret("TOPIC"@, before, line) == (CommandView::Topic { channel, topic: None })
            &&& interpret("TOPIC"@, before.push(':') + topic, line) == (CommandView::Topic {
                channel,
                topic: Some(topic),
            })
        }),
        topic_params(left) is None,
        topic_params(left.push(':') + topic) is None,
        interpret("TOPIC"@, left, line) == CommandView::NeedMoreParams("TOPIC"@),
        interpret("TOPIC"@, left.push(':') + topic, line) == CommandView::NeedMoreParams(
            "TOPIC"@,
        ),
{
    let before = left + channel + right;
    lemma_names();
    assert forall|i: int| 0 <= i < left.len() implies #[trigger] left[i] != ':' by {
        assert(is_white_space(left[i]));
    }
    assert forall|i: int| 0 <= i < before.len() implies #[trigger] before[i] != ':' by {
        if i < left.len() {
            assert(is_white_space(left[i]));
        } else if i < left.len() + channel.len() {
            assert(before[i] == channel[i - left.len()]);
        } else {
            assert(before[i] == right[i - left.len() - channel.len()]);
            assert(is_white_space(right[i - left.len() - channel.len()]));
        }
    }
    law_first_colon_splits(before, topic);
    law_first_colon_splits(left, topic);
    law_trimming_keeps_the_inside(left, channel, right);
}

/// The colon before a message or a token is optional: with it and without it the line is read as
/// the same command.
pub proof fn law_colon_is_optional(target: Seq<char>, text: Seq<char>)
    requires
        target.len() > 0,
        unbroken(target),
        tight(text),
        text[0] != ':',
    ensures
        ({
            let bare = target.push(' ') + text;
            let marked = target.push(' ') + colon_then(text);
            let privmsg = CommandView::Privmsg { target, message: text };
            let notice = CommandView::Notice { target, message: text };
            &&& ascii_command_of("PRIVMSG"@.push(' ') + bare) == privmsg
            &&& ascii_command_of("PRIVMSG"@.push(' ') + marked) == privmsg
            &&& ascii_command_of("NOTICE"@.push(' ') + bare) == notice
            &&& ascii_command_of("NOTICE"@.push(' ') + marked) == notice
        }),
        ascii_command_of("PING"@.push(' ') + text) == CommandView::Ping(text),
        ascii_command_of("PING"@.push(' ') + colon_then(text)) == CommandView::Ping(text),
        ascii_command_of("PONG"@.push(' ') + text) == CommandView::Pong(text),
        ascii_command_of("PONG"@.push(' ') + colon_then(text)) == CommandView::Pong(text),
{
    let none = Seq::<char>::empty();
    let bare = target.push(' ') + text;
    let marked = target.push(' ') + colon_then(text);
    lemma_colon_then(text);
    lemma_word_then(target, text);
    lemma_word_then(target, colon_then(text));
    lemma_trimmed_tight(text);
    lemma_trimmed_tight(colon_then(text));
    lemma_trimmed_tight(bare);
    lemma_trimmed_tight(marked);
    assert(none + text =~= text);
    law_target_and_message_are_kept(target, ' ', none, text, "PRIVMSG"@.push(' ') + bare);
    law_target_and_message_are_kept(target, ' ', seq![':'], text, "PRIVMSG"@.push(' ') + marked);
    law_target_and_message_are_kept(target, ' ', none, text, "NOTICE"@.push(' ') + bare);
    law_target_and_message_are_kept(target, ' ', seq![':'], text, "NOTICE"@.push(' ') + marked);
    lemma_named("PRIVMSG"@, bare);
    lemma_named("PRIVMSG"@, marked);
    lemma_named("NOTICE"@, bare);
    lemma_named("NOTICE"@, marked);
    law_tokens_are_kept(none, text, "PING"@.push(' ') + text);
    law_tokens_are_kept(seq![':'], text, "PING"@.push(' ') + colon_then(text));
    law_tokens_are_kept(none, text, "PONG"@.push(' ') + text);
    law_tokens_are_kept(seq![':'], text, "PONG"@.push(' ') + colon_then(text));
    lemma_named("PING"@, text);
    lemma_named("PING"@, colon_then(text));
    lemma_named("PONG"@, text);
    lemma_named("PONG"@, colon_then(text));
}

/// The host and the server in `USER` may be any words: the user name and the real name are read
/// all the same.
pub proof fn law_host_and_server_do_not_count(
    username: Seq<char>,
    host: Seq<char>,
    server: Seq<char>,
    realname: Seq<char>,
)
    requires
        username.len() > 0,
        unbroken(username),
        host.len() > 0,
        unbroken(host),
        server.len() > 0,
        unbroken(server),
        plain(realname),
    ensures
        ascii_command_of(
            "USER"@.push(' ') + (username.push(' ') + (host.push(' ') + (server.push(' ')
                + colon_then(realname)))),
        ) == (CommandView::User { username, realname }),
{
    let after_server = colon_then(realname);
    let after_host = server.push(' ') + after_server;
    let after_user = host.push(' ') + after_host;
    let rest = username.push(' ') + after_user;
    lemma_colon_then(realname);
    lemma_word_then(server, after_server);
    lemma_word_then(host, after_host);
    lemma_word_then(username, after_user);
    lemma_trimmed_tight(rest);
    lemma_named("USER"@, rest);
    law_names_of_user_are_kept(
        username,
        host,
        server,
        (' ', ' ', ' '),
        seq![':'],
        realname,
        "USER"@.push(' ') + rest,
    );
}

/// Nothing of a command is lost in its view.
pub proof fn law_command_views_are_faithful(command: Command)
    ensures
        command matches Command::Join(channel) ==> command@ == CommandView::Join(channel@),
        command matches Command::List(Some(channel)) ==> command@ == CommandView::List(
            Some(channel@),
        ),
        command matches Command::List(None) ==> command@ == CommandView::List(None),
        command matches Command::Names(channel) ==> command@ == CommandView::Names(channel@),
        command matches Command::Nick(nickname) ==> command@ == CommandView::Nick(nickname@),
        command matches Command::Notice { target, message } ==> command@ == (CommandView::Notice {
            target: target@,
            message: message@,
        }),
        command matches Command::User { username, realname } ==> command@ == (CommandView::User {
            username: username@,
            realname: realname@,
        }),
        command matches Command::Part(channel) ==> command@ == CommandView::Part(channel@),
        command matches Command::Privmsg { target, message } ==> command@
            == (CommandView::Privmsg { target: target@, message: message@ }),
        command matches Command::Ping(token) ==> command@ == CommandView::Ping(token@),
        command matches Command::Pong(token) ==> command@ == CommandView::Pong(token@),
        command matches Command::Quit ==> command@ == CommandView::Quit,
        command matches Command::Topic { channel, topic: Some(topic) } ==> command@
            == (CommandView::Topic { channel: channel@, topic: Some(topic@) }),
        command matches Command::Topic { channel, topic: None } ==> command@
            == (CommandView::Topic { channel: channel@, topic: None }),
        command matches Command::NeedMoreParams(name) ==> command@
            == CommandView::NeedMoreParams(name@),
        command matches Command::Unknown(line) ==> command@ == CommandView::Unknown(line@),
{
}

/// Nothing of a text that may be absent is lost in its view.
pub proof fn law_optional_texts_are_faithful(string: String, text: &str)
    ensures
        string_of(Some(string)) == Some(string@),
        string_of(None) is None,
        text_of(Some(text)) == Some(text@),
        text_of(None) is None,
        or_empty(Some(text@)) == text@,
        or_empty(None) == Seq::<char>::empty(),
{
}

} // verus!
