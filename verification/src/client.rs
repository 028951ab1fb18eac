//! The client's side of the conversation: what it makes of a line typed at
//! its prompt, and what it shows for a command from the server.

use crate::command::{decoded_input, parse_command, text_of, view_of, Command, CommandView};
use vstd::prelude::*;
use vstd::string::*;

verus! {

/// Whether a character is white space as Unicode defines it
/// (`White_Space`), which is what `char::is_whitespace` of the standard
/// library decides.
pub uninterp spec fn white_space(c: char) -> bool;

/// `char::is_whitespace` of the standard library: whether the character is
/// white space as Unicode defines it.
pub assume_specification[ char::is_whitespace ](c: char) -> (b: bool)
    ensures
        b == white_space(c),
;

/// A text without the white space it begins with.
pub open spec fn trimmed_start(text: Seq<char>) -> Seq<char>
    decreases text.len(),
{
    if text.len() > 0 && white_space(text.first()) {
        trimmed_start(text.drop_first())
    } else {
        text
    }
}

/// A text without the white space it ends with.
pub open spec fn trimmed_end(text: Seq<char>) -> Seq<char>
    decreases text.len(),
{
    if text.len() > 0 && white_space(text.last()) {
        trimmed_end(text.drop_last())
    } else {
        text
    }
}

/// A text without the white space around it.
pub open spec fn trimmed(text: Seq<char>) -> Seq<char> {
    trimmed_end(trimmed_start(text))
}

/// What the client shows for a command from the server, if anything: a
/// message with a label before it, and a notice when the username is taken.
pub open spec fn shown(command: CommandView) -> Option<Seq<char>> {
    match command {
        CommandView::UsernameTaken => Some(
            "That username has been taken, please restart the client with a different one!"@,
        ),
        CommandView::SendMessage(message) => Some("message: "@ + message),
        _ => None,
    }
}

/// The line without the white space around it.
fn trim(line: &str) -> (text: &str)
    ensures
        text@ == trimmed(line@),
{
    let len = line.unicode_len();
    let mut start: usize = 0;
    assert(line@.skip(0) =~= line@);
    while start < len && line.get_char(start).is_whitespace()
        invariant
            start <= len,
            len == line@.len(),
            trimmed_start(line@) == trimmed_start(line@.skip(start as int)),
        decreases len - start,
    {
        assert(line@.skip(start as int).drop_first() =~= line@.skip(start + 1));
        start += 1;
    }
    let mut end: usize = len;
    while end > start && line.get_char(end - 1).is_whitespace()
        invariant
            start <= end <= len,
            len == line@.len(),
            trimmed(line@) == trimmed_end(line@.subrange(start as int, end as int)),
        decreases end - start,
    {
        assert(line@.subrange(start as int, end as int).drop_last() =~= line@.subrange(
            start as int,
            end - 1,
        ));
        end -= 1;
    }
    line.substring_char(start, end)
}

/// Reads a line typed at the client's prompt: the white space around it is
/// dropped, and what is left is read as `parse_command` reads it. `None`
/// asks the user to try again.
pub fn user_input(line: &str) -> (command: Option<Command>)
    ensures
        view_of(command) == decoded_input(trimmed(line@)),
{
    parse_command(trim(line))
}

/// What the client shows for a command from the server, if anything.
pub fn notice(command: &Command) -> (line: Option<String>)
    ensures
        text_of(line) == shown(command@),
{
    match command {
        Command::UsernameTaken => Some(
            String::from_str(
                "That username has been taken, please restart the client with a different one!",
            ),
        ),
        Command::SendMessage(message) => {
            let mut line = String::from_str("message: ");
            line.append(message.as_str());
            Some(line)
        },
        _ => None,
    }
}

} // verus!
