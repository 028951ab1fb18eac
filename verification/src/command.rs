//! The commands of the chat protocol and their one-line text form.
//!
//! Payloads are taken as they are: an empty username is a username, nothing
//! is escaped, and a payload may hold spaces. A payload that holds a line
//! feed is not refused here either; on the wire it would read as more than
//! one line, which is why the framing laws ask for payloads without one.

use vstd::prelude::*;
use vstd::string::*;

verus! {

/// One unit of the protocol.
#[derive(Debug, PartialEq, Eq)]
pub enum Command {
    /// Client to server: register under this username.
    Join(String),
    /// Client to server: leave the chat.
    Leave,
    /// Either way: a chat message.
    SendMessage(String),
    /// Server to client: the username asked for is in use.
    UsernameTaken,
}

/// A command with its payload as a sequence of characters.
pub enum CommandView {
    Join(Seq<char>),
    Leave,
    SendMessage(Seq<char>),
    UsernameTaken,
}

impl View for Command {
    type V = CommandView;

    open spec fn view(&self) -> CommandView {
        match self {
            Command::Join(username) => CommandView::Join(username@),
            Command::Leave => CommandView::Leave,
            Command::SendMessage(text) => CommandView::SendMessage(text@),
            Command::UsernameTaken => CommandView::UsernameTaken,
        }
    }
}

impl Clone for Command {
    fn clone(&self) -> (copy: Self)
        ensures
            copy == *self,
    {
        match self {
            Command::Join(username) => Command::Join(username.clone()),
            Command::Leave => Command::Leave,
            Command::SendMessage(text) => Command::SendMessage(text.clone()),
            Command::UsernameTaken => Command::UsernameTaken,
        }
    }
}

impl CommandView {
    /// The username or the text that the command carries; empty for a
    /// command that carries none.
    pub open spec fn payload(self) -> Seq<char> {
        match self {
            CommandView::Join(username) => username,
            CommandView::SendMessage(text) => text,
            _ => Seq::empty(),
        }
    }
}

/// The view of a command that may be absent.
pub open spec fn view_of(command: Option<Command>) -> Option<CommandView> {
    match command {
        Some(c) => Some(c@),
        None => None,
    }
}

/// The line that stands for a command on the wire, without the line ending:
/// the command's word and, for `join` and `send`, a space and the payload.
pub open spec fn encoded(command: CommandView) -> Seq<char> {
    match command {
        CommandView::Join(username) => "join"@.push(' ') + username,
        CommandView::Leave => "leave"@,
        CommandView::SendMessage(text) => "send"@.push(' ') + text,
        CommandView::UsernameTaken => "username_taken"@,
    }
}

/// The payload of a line that is `word`, one space, and the payload, which
/// is the whole rest of the line, spaces included, and may be empty. A line
/// of any other form has none.
pub open spec fn payload_after(word: Seq<char>, line: Seq<char>) -> Option<Seq<char>> {
    if word.push(' ').is_prefix_of(line) {
        Some(line.skip(word.len() as int + 1))
    } else {
        None
    }
}

/// The command that a line stands for, if any. `leave` and `username_taken`
/// are the whole line; `join` and `send` end at the first space and take
/// what follows it as their payload. No other line stands for a command.
pub open spec fn decoded(line: Seq<char>) -> Option<CommandView> {
    if line == "leave"@ {
        Some(CommandView::Leave)
    } else if line == "username_taken"@ {
        Some(CommandView::UsernameTaken)
    } else if payload_after("join"@, line) is Some {
        Some(CommandView::Join(payload_after("join"@, line)->0))
    } else if payload_after("send"@, line) is Some {
        Some(CommandView::SendMessage(payload_after("send"@, line)->0))
    } else {
        None
    }
}

/// What a user types at the client's prompt: `send <text>`, `leave` or
/// `username_taken`. `join` is not among them: the client joins once, when
/// it connects.
pub open spec fn decoded_input(input: Seq<char>) -> Option<CommandView> {
    if payload_after("send"@, input) is Some {
        Some(CommandView::SendMessage(payload_after("send"@, input)->0))
    } else if input == "leave"@ {
        Some(CommandView::Leave)
    } else if input == "username_taken"@ {
        Some(CommandView::UsernameTaken)
    } else {
        None
    }
}

/// The text shown for a command: a message shows as its text alone, every
/// other command as its line.
pub open spec fn displayed(command: CommandView) -> Seq<char> {
    match command {
        CommandView::SendMessage(text) => text,
        _ => encoded(command),
    }
}

/// The text of a string that may be absent.
pub open spec fn text_of(text: Option<String>) -> Option<Seq<char>> {
    match text {
        Some(text) => Some(text@),
        None => None,
    }
}

/// Whether `line` is `word` and nothing else. `line_len` is the number of
/// characters of `line`, which the caller has counted once.
fn is_word(line: &str, line_len: usize, word: &str) -> (same: bool)
    requires
        line_len == line@.len(),
    ensures
        same == (line@ == word@),
{
    let word_len = word.unicode_len();
    if line_len != word_len {
        return false;
    }
    let mut i: usize = 0;
    while i < word_len
        invariant
            i <= word_len,
            word_len == word@.len(),
            word_len == line@.len(),
            forall|k: int| 0 <= k < i ==> line@[k] == word@[k],
        decreases word_len - i,
    {
        if line.get_char(i) != word.get_char(i) {
            return false;
        }
        i += 1;
    }
    assert(line@ =~= word@);
    true
}

/// The payload of `line` where it is `word`, a space, and a payload.
fn strip_word(line: &str, line_len: usize, word: &str) -> (payload: Option<String>)
    requires
        line_len == line@.len(),
    ensures
        text_of(payload) == payload_after(word@, line@),
{
    let word_len = word.unicode_len();
    if line_len <= word_len {
        return None;
    }
    let ghost head = word@.push(' ');
    let mut i: usize = 0;
    while i < word_len
        invariant
            i <= word_len,
            word_len == word@.len(),
            word_len < line@.len(),
            head == word@.push(' '),
            forall|k: int| 0 <= k < i ==> line@[k] == word@[k],
        decreases word_len - i,
    {
        if line.get_char(i) != word.get_char(i) {
            assert(head[i as int] != line@.subrange(0, head.len() as int)[i as int]);
            return None;
        }
        i += 1;
    }
    if line.get_char(word_len) != ' ' {
        assert(head[word_len as int] != line@.subrange(0, head.len() as int)[word_len as int]);
        return None;
    }
    Some(String::from_str(line.substring_char(word_len + 1, line_len)))
}

impl Command {
    /// Reads one line of the wire protocol. A line that stands for no
    /// command gives `None`: it is noise, not an error.
    pub fn parse(line: &str) -> (command: Option<Command>)
        ensures
            view_of(command) == decoded(line@),
    {
        let len = line.unicode_len();
        if is_word(line, len, "leave") {
            return Some(Command::Leave);
        }
        if is_word(line, len, "username_taken") {
            return Some(Command::UsernameTaken);
        }
        if let Some(username) = strip_word(line, len, "join") {
            return Some(Command::Join(username));
        }
        if let Some(text) = strip_word(line, len, "send") {
            return Some(Command::SendMessage(text));
        }
        None
    }

    /// The line that stands for this command on the wire, without the line
    /// ending.
    pub fn encode(&self) -> (line: String)
        ensures
            line@ == encoded(self@),
    {
        proof {
            reveal_strlit(" ");
        }
        match self {
            Command::Join(username) => {
                let mut line = String::from_str("join");
                line.append(" ");
                line.append(username.as_str());
                line
            },
            Command::Leave => String::from_str("leave"),
            Command::SendMessage(text) => {
                let mut line = String::from_str("send");
                line.append(" ");
                line.append(text.as_str());
                line
            },
            Command::UsernameTaken => String::from_str("username_taken"),
        }
    }

    /// The text shown for this command: a message shows as its text alone,
    /// every other command as its line.
    pub fn to_string(&self) -> (text: String)
        ensures
            text@ == displayed(self@),
    {
        match self {
            Command::SendMessage(text) => text.clone(),
            _ => self.encode(),
        }
    }
}

/// Reads what a user typed at the client's prompt.
pub fn parse_command(input: &str) -> (command: Option<Command>)
    ensures
        view_of(command) == decoded_input(input@),
{
    let len = input.unicode_len();
    if let Some(text) = strip_word(input, len, "send") {
        return Some(Command::SendMessage(text));
    }
    if is_word(input, len, "leave") {
        return Some(Command::Leave);
    }
    if is_word(input, len, "username_taken") {
        return Some(Command::UsernameTaken);
    }
    None
}

/// Decoding undoes encoding: the line of a command reads back as that
/// command, whatever its payload holds.
pub proof fn lemma_decode_encode(command: CommandView)
    ensures
        decoded(encoded(command)) == Some(command),
{
    reveal_strlit("leave");
    reveal_strlit("username_taken");
    reveal_strlit("join");
    reveal_strlit("send");
    match command {
        CommandView::Join(username) => {
            let line = "join"@.push(' ') + username;
            assert(line[0] == 'j');
            assert(line.skip(5) =~= username);
        },
        CommandView::SendMessage(text) => {
            let line = "send"@.push(' ') + text;
            assert(line[0] == 's');
            assert(line.skip(5) =~= text);
        },
        _ => {},
    }
}

} // verus!
