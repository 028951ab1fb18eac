//! One connected client, as its own session sees it, and the two loops of
//! a session: the one that reads what the client sends, and the one that
//! writes out what others have sent to it.
//!
//! Neither loop waits. Each runs as far as it can on what is there and then
//! says what it is waiting for; whoever owns the transport waits, and calls
//! again.

use crate::command::{Command, CommandView};
use crate::connection::{
    first_command, fits_one_line, frame, lemma_first_command_resumes,
    lemma_first_command_shortens, lemma_read_frame, Connection, ConnectionError, ConnectionView,
    Transport,
};
use crate::user_pool::{Processed, UserPool, UserPoolView};
use vstd::prelude::*;

verus! {

/// A client and the connection it owns. The mailbox that other sessions
/// write to is kept by the pool, under the username.
#[derive(Debug)]
pub struct User {
    pub username: String,
    pub conn: Connection,
}

/// Where the read loop of a session stands.
#[derive(Debug, Clone, Copy, PartialEq, Eq, Structural)]
pub enum ReadLoop {
    /// Every command that has arrived is dealt with; the loop goes on when
    /// more bytes have arrived.
    AwaitingBytes,
    /// The client sent `leave`. The user is removed and the loop is over.
    Left,
    /// The client closed the stream. The user is removed and the loop is
    /// over.
    EndOfStream,
    /// The transport failed. The user is removed and the loop is over.
    TransportError,
}

/// Where the write loop of a session stands.
#[derive(Debug, PartialEq, Eq)]
pub enum WriteLoop {
    /// A frame to write; the loop goes on when it is written.
    Frame(Vec<u8>),
    /// The mailbox is empty; the loop goes on when a message has come in.
    AwaitingMessages,
    /// The user is not registered, or the transport has failed: the loop is
    /// over.
    Ended,
}

/// What the read loop makes of the bytes that a connection holds: the pool
/// and the connection it leaves, and where it stands. It takes command
/// after command, in the order of arrival, until `leave` or until no
/// complete command is left; then an open transport lets it wait, and a
/// closed or failed one ends it as `leave` does.
pub open spec fn read_loop(
    pool: UserPoolView,
    username: Seq<char>,
    connection: ConnectionView,
) -> (UserPoolView, ConnectionView, ReadLoop)
    decreases connection.buffered.len(),
{
    let (command, rest) = first_command(connection.buffered);
    let after = ConnectionView { buffered: rest, transport: connection.transport };
    match command {
        Some(CommandView::Leave) => (pool.remove_user(username), after, ReadLoop::Left),
        Some(_) => {
            proof {
                lemma_first_command_shortens(connection.buffered);
            }
            read_loop(pool.process_command(username, command), username, after)
        },
        None => match connection.transport {
            Transport::Open => (pool, after, ReadLoop::AwaitingBytes),
            Transport::Closed => (pool.remove_user(username), after, ReadLoop::EndOfStream),
            Transport::Failed => (pool.remove_user(username), after, ReadLoop::TransportError),
        },
    }
}

/// How the stream is cut into reads does not matter to a session: a read
/// loop that has run out of commands and waits goes on, when more bytes
/// arrive, as it would have run on all the bytes at once.
pub proof fn lemma_read_loop_resumes(
    pool: UserPoolView,
    username: Seq<char>,
    connection: ConnectionView,
    more: Seq<u8>,
)
    requires
        read_loop(pool, username, connection).2 == ReadLoop::AwaitingBytes,
    ensures
        ({
            let (waiting_pool, waiting, _) = read_loop(pool, username, connection);
            read_loop(
                waiting_pool,
                username,
                ConnectionView { buffered: waiting.buffered + more, transport: waiting.transport },
            ) == read_loop(
                pool,
                username,
                ConnectionView {
                    buffered: connection.buffered + more,
                    transport: connection.transport,
                },
            )
        }),
    decreases connection.buffered.len(),
{
    let (command, rest) = first_command(connection.buffered);
    let after = ConnectionView { buffered: rest, transport: connection.transport };
    lemma_first_command_resumes(connection.buffered, more);
    lemma_first_command_shortens(connection.buffered);
    match command {
        Some(CommandView::Leave) => {},
        Some(_) => {
            lemma_read_loop_resumes(pool.process_command(username, command), username, after, more);
        },
        None => {},
    }
}

/// What one user sends, another gets: a message that fits one line and
/// arrives on the sender's connection stands next in the mailbox of any
/// other registered user whose mailbox was empty and has room, and the
/// frame that the write loop makes of it reads, at that user's end, as the
/// message that was sent. The sender's own mailbox is as it was.
pub proof fn lemma_message_arrives(
    pool: UserPoolView,
    sender: Seq<char>,
    recipient: Seq<char>,
    message: Seq<char>,
)
    requires
        fits_one_line(CommandView::SendMessage(message)),
        pool.contains(recipient),
        recipient != sender,
        pool.mailboxes[recipient].len() == 0,
        pool.capacity > 0,
    ensures
        ({
            let arrived = ConnectionView {
                buffered: frame(CommandView::SendMessage(message)),
                transport: Transport::Open,
            };
            let (after, connection, state) = read_loop(pool, sender, arrived);
            &&& state == ReadLoop::AwaitingBytes
            &&& connection.buffered.len() == 0
            &&& after.mailboxes[recipient] == seq![message]
            &&& pool.contains(sender) ==> after.mailboxes[sender] == pool.mailboxes[sender]
            &&& first_command(frame(CommandView::SendMessage(after.mailboxes[recipient][0])))
                == (Some(CommandView::SendMessage(message)), Seq::<u8>::empty())
        }),
{
    let command = CommandView::SendMessage(message);
    lemma_read_frame(command, Seq::empty());
    assert(frame(command) + Seq::<u8>::empty() =~= frame(command));
    let arrived = ConnectionView { buffered: frame(command), transport: Transport::Open };
    let drained = ConnectionView { buffered: Seq::empty(), transport: Transport::Open };
    let sent_on = pool.broadcast(sender, message);
    assert(sent_on.mailboxes[recipient] =~= seq![message]);
    assert(first_command(drained.buffered) == (None::<CommandView>, drained.buffered));
    assert(read_loop(sent_on, sender, drained) == (sent_on, drained, ReadLoop::AwaitingBytes));
    assert(read_loop(pool, sender, arrived) == read_loop(sent_on, sender, drained));
}

impl User {
    /// The read loop: acts on every command that has arrived on the
    /// connection, in order. A message is broadcast under this user's name;
    /// `leave` removes the user and ends the loop; a second `join` or a
    /// `username_taken` is passed over. When the commands run out, an open
    /// transport makes the loop wait for bytes, and the end of the stream or
    /// a failed transport removes the user as `leave` does.
    pub fn handle_commands(&mut self, user_pool: &mut UserPool) -> (state: ReadLoop)
        ensures
            final(self).username == old(self).username,
            (final(user_pool)@, final(self).conn@, state) == read_loop(
                old(user_pool)@,
                old(self).username@,
                old(self).conn@,
            ),
    {
        loop
            invariant
                self.username == old(self).username,
                read_loop(user_pool@, self.username@, self.conn@) == read_loop(
                    old(user_pool)@,
                    old(self).username@,
                    old(self).conn@,
                ),
            decreases self.conn@.buffered.len(),
        {
            proof {
                lemma_first_command_shortens(self.conn@.buffered);
            }
            match self.conn.read_command() {
                Ok(Some(command)) => {
                    match user_pool.process_command(Some(command), self) {
                        Processed::Left => {
                            return ReadLoop::Left;
                        },
                        _ => {},
                    }
                },
                Ok(None) => {
                    user_pool.remove_user_with_username(self.username.clone());
                    return ReadLoop::EndOfStream;
                },
                Err(ConnectionError::WouldBlock) => {
                    return ReadLoop::AwaitingBytes;
                },
                Err(ConnectionError::Transport) => {
                    user_pool.remove_user_with_username(self.username.clone());
                    return ReadLoop::TransportError;
                },
            }
        }
    }

    /// One step of the write loop: takes the oldest message out of this
    /// user's mailbox and frames it as a message command for the
    /// connection. Nothing is taken where the transport has failed or the
    /// user is not registered: the loop is then over.
    pub fn next_delivery(&self, user_pool: &mut UserPool) -> (step: WriteLoop)
        ensures
            self.conn@.transport == Transport::Failed || !old(user_pool)@.contains(self.username@)
                ==> step == WriteLoop::Ended && final(user_pool)@ == old(user_pool)@,
            self.conn@.transport != Transport::Failed && old(user_pool)@.contains(self.username@)
                ==> {
                &&& final(user_pool)@ == old(user_pool)@.take_message(self.username@)
                &&& match step {
                    WriteLoop::Frame(bytes) => {
                        &&& old(user_pool)@.mailboxes[self.username@].len() > 0
                        &&& bytes@ == frame(
                            CommandView::SendMessage(old(user_pool)@.mailboxes[self.username@][0]),
                        )
                    },
                    WriteLoop::AwaitingMessages => old(user_pool)@.mailboxes[self.username@].len()
                        == 0,
                    WriteLoop::Ended => false,
                }
            },
    {
        if self.conn.transport() == Transport::Failed {
            return WriteLoop::Ended;
        }
        if !user_pool.contains(self.username.as_str()) {
            return WriteLoop::Ended;
        }
        match user_pool.take_message(self.username.as_str()) {
            Some(message) => {
                match self.conn.send_command(Command::SendMessage(message)) {
                    Ok(bytes) => WriteLoop::Frame(bytes),
                    Err(_) => WriteLoop::Ended,
                }
            },
            None => WriteLoop::AwaitingMessages,
        }
    }
}

} // verus!
