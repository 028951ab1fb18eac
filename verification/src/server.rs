//! How a new connection becomes a session.
//!
//! The first line on a connection must be `join`. The name it carries is
//! registered; where it is in use, the connection gets one `username_taken`
//! line and nothing more. A connection that begins with anything else, or
//! ends or fails before it has given a line, is closed without a word.

use crate::command::{Command, CommandView};
use crate::connection::{
    bytes_of, first_line, sent, Connection, ConnectionError, ConnectionView, Line, Transport,
};
use crate::user::User;
use crate::user_pool::{Registration, UserPool};
use vstd::prelude::*;

verus! {

/// What is to be done with a new connection.
#[derive(Debug)]
pub enum Admission {
    /// The first line has not arrived in full: hand the connection more
    /// bytes and ask again.
    AwaitingBytes(Connection),
    /// The user is registered: start its read loop and its write loop.
    Admitted(User),
    /// The name is in use: write the notice, where there is one, and close.
    Rejected(Result<Vec<u8>, ConnectionError>),
    /// Nobody has joined: close.
    Refused,
}

/// Decides on a new connection from what has arrived on it.
///
/// The first line decides. Where it is `join`, its username, taken as it
/// stands, is registered, and what arrived behind the line is left for the
/// read loop. Where it is anything else, another command or no command at
/// all, nobody joins. The pool changes only where a user is admitted.
pub fn join(connection: Connection, user_pool: &mut UserPool) -> (admission: Admission)
    ensures
        match first_line(connection@.buffered) {
            Some((Some(CommandView::Join(username)), rest)) => if old(user_pool)@.contains(
                username,
            ) {
                &&& final(user_pool)@ == old(user_pool)@
                &&& admission matches Admission::Rejected(notice)
                &&& bytes_of(notice) == sent(connection@.transport, CommandView::UsernameTaken)
            } else {
                &&& final(user_pool)@ == old(user_pool)@.add_user(username)
                &&& admission matches Admission::Admitted(user)
                &&& user.username@ == username
                &&& user.conn@ == (ConnectionView {
                    buffered: rest,
                    transport: connection@.transport,
                })
            },
            Some(_) => final(user_pool)@ == old(user_pool)@ && admission is Refused,
            None => {
                &&& final(user_pool)@ == old(user_pool)@
                &&& match connection@.transport {
                    Transport::Open => {
                        &&& admission matches Admission::AwaitingBytes(waiting)
                        &&& waiting@ == connection@
                    },
                    _ => admission is Refused,
                }
            },
        },
{
    let mut connection = connection;
    match connection.read_line() {
        Ok(Some(Line::Command(Command::Join(username)))) => {
            let user = User { username, conn: connection };
            match user_pool.add_user(&user) {
                Registration::Admitted => Admission::Admitted(user),
                Registration::Rejected => Admission::Rejected(
                    user_pool.alert_duplicate_username(&user),
                ),
            }
        },
        Ok(Some(_)) => Admission::Refused,
        Ok(None) => Admission::Refused,
        Err(ConnectionError::WouldBlock) => Admission::AwaitingBytes(connection),
        Err(ConnectionError::Transport) => Admission::Refused,
    }
}

} // verus!
