//! A line-oriented chat service, kept free of I/O.
//!
//! Clients connect, register a username with `join`, exchange messages with
//! `send`, and go with `leave`. Everything the service decides stands here
//! as a plain function on values, with its contract: the text form of the
//! commands (`command`), the framing of a connection (`connection`), the
//! registry of users and their mailboxes (`user_pool`), the two loops of a
//! session (`user`), the way in (`server`), and the client's side
//! (`client`, `config`). Sockets, tasks and locks are left to the program
//! around it, which hands over the bytes it reads and writes out the bytes
//! it is given.

pub mod client;
pub mod command;
pub mod config;
pub mod connection;
pub mod server;
pub mod user;
pub mod user_pool;
