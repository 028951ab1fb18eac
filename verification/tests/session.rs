use chat_core::command::Command;
use chat_core::connection::{Connection, ConnectionError, Transport};
use chat_core::server::{join, Admission};
use chat_core::user::{ReadLoop, User, WriteLoop};
use chat_core::user_pool::UserPool;

fn connection_with(bytes: &[u8]) -> Connection {
    let mut connection = Connection::new();
    connection.feed(bytes);
    connection
}

fn joined(pool: &mut UserPool, name: &str) -> User {
    let line = format!("join {}\n", name);
    match join(connection_with(line.as_bytes()), pool) {
        Admission::Admitted(user) => user,
        other => panic!("{} was not admitted: {:?}", name, other),
    }
}

fn drain(pool: &mut UserPool, name: &str) -> Vec<String> {
    let mut messages = Vec::new();
    while let Some(message) = pool.take_message(name) {
        messages.push(message);
    }
    messages
}

#[test]
fn join_registers_the_name_of_the_first_command() {
    let mut pool = UserPool::new();
    match join(connection_with(b"join anon\n"), &mut pool) {
        Admission::Admitted(user) => {
            assert_eq!(user.username, "anon");
            assert_eq!(user.conn.transport(), Transport::Open);
        }
        other => panic!("not admitted: {:?}", other),
    }
    assert!(pool.contains("anon"));
    assert_eq!(pool.len(), 1);
    assert_eq!(pool.mailbox_len("anon"), Some(0));
}

#[test]
fn join_leaves_what_follows_the_first_command_to_the_read_loop() {
    let mut pool = UserPool::new();
    let mut b = joined(&mut pool, "b");
    let _ = &mut b;
    let mut a = match join(connection_with(b"join a\nsend early\n"), &mut pool) {
        Admission::Admitted(user) => user,
        other => panic!("not admitted: {:?}", other),
    };
    assert_eq!(pool.mailbox_len("b"), Some(0));
    assert_eq!(a.handle_commands(&mut pool), ReadLoop::AwaitingBytes);
    assert_eq!(pool.take_message("b"), Some("early".to_string()));
}

#[test]
fn join_waits_for_the_whole_first_command() {
    let mut pool = UserPool::new();
    let mut waiting = match join(connection_with(b"join an"), &mut pool) {
        Admission::AwaitingBytes(connection) => connection,
        other => panic!("not waiting: {:?}", other),
    };
    assert_eq!(pool.len(), 0);
    waiting.feed(b"on\n");
    match join(waiting, &mut pool) {
        Admission::Admitted(user) => assert_eq!(user.username, "anon"),
        other => panic!("not admitted: {:?}", other),
    }
    assert!(pool.contains("anon"));
}

#[test]
fn join_waits_on_an_empty_connection() {
    let mut pool = UserPool::new();
    assert!(matches!(
        join(Connection::new(), &mut pool),
        Admission::AwaitingBytes(_)
    ));
    assert_eq!(pool.len(), 0);
}

#[test]
fn join_rejects_a_name_that_is_in_use() {
    let mut pool = UserPool::new();
    let _a = joined(&mut pool, "anon");
    match join(connection_with(b"join anon\n"), &mut pool) {
        Admission::Rejected(notice) => assert_eq!(notice, Ok(b"username_taken\n".to_vec())),
        other => panic!("not rejected: {:?}", other),
    }
    assert_eq!(pool.len(), 1);
    assert!(pool.contains("anon"));
}

#[test]
fn join_has_no_notice_for_a_failed_transport() {
    let mut pool = UserPool::new();
    let _a = joined(&mut pool, "anon");
    let mut connection = connection_with(b"join anon\n");
    connection.fail();
    match join(connection, &mut pool) {
        Admission::Rejected(notice) => assert_eq!(notice, Err(ConnectionError::Transport)),
        other => panic!("not rejected: {:?}", other),
    }
    assert_eq!(pool.len(), 1);
}

#[test]
fn join_refuses_a_connection_that_begins_with_another_command() {
    let mut pool = UserPool::new();
    for first in [
        &b"send Hey\njoin anon\n"[..],
        &b"leave\njoin anon\n"[..],
        &b"username_taken\njoin anon\n"[..],
    ] {
        assert!(matches!(
            join(connection_with(first), &mut pool),
            Admission::Refused
        ));
    }
    assert_eq!(pool.len(), 0);
}

#[test]
fn join_refuses_a_connection_that_ended_or_failed_first() {
    let mut pool = UserPool::new();
    let mut closed = connection_with(b"join anon");
    closed.close();
    assert!(matches!(join(closed, &mut pool), Admission::Refused));
    let mut failed = Connection::new();
    failed.fail();
    assert!(matches!(join(failed, &mut pool), Admission::Refused));
    assert_eq!(pool.len(), 0);
}

#[test]
fn join_refuses_a_connection_that_begins_with_no_command() {
    let mut pool = UserPool::new();
    for first in [
        &b"hello\njoin anon\n"[..],
        &b"\njoin anon\n"[..],
        &b"join\njoin anon\n"[..],
        &b" join anon\n"[..],
        &b"\xff\xfe\njoin anon\n"[..],
    ] {
        assert!(matches!(
            join(connection_with(first), &mut pool),
            Admission::Refused
        ));
    }
    assert_eq!(pool.len(), 0);
}

#[test]
fn join_reads_a_line_that_ends_with_carriage_return_and_line_feed() {
    let mut pool = UserPool::new();
    match join(connection_with(b"join anon\r\n"), &mut pool) {
        Admission::Admitted(user) => assert_eq!(user.username, "anon"),
        other => panic!("not admitted: {:?}", other),
    }
}

#[test]
fn join_admits_an_empty_name() {
    let mut pool = UserPool::new();
    match join(connection_with(b"join \n"), &mut pool) {
        Admission::Admitted(user) => assert_eq!(user.username, ""),
        other => panic!("not admitted: {:?}", other),
    }
    assert!(pool.contains(""));
}

#[test]
fn the_read_loop_broadcasts_messages_and_waits() {
    let mut pool = UserPool::new();
    let mut a = joined(&mut pool, "a");
    let _b = joined(&mut pool, "b");
    assert_eq!(a.handle_commands(&mut pool), ReadLoop::AwaitingBytes);
    a.conn.feed(b"send Hey\nsend Ju");
    assert_eq!(a.handle_commands(&mut pool), ReadLoop::AwaitingBytes);
    assert_eq!(drain(&mut pool, "b"), vec!["Hey".to_string()]);
    a.conn.feed(b"de!\n");
    assert_eq!(a.handle_commands(&mut pool), ReadLoop::AwaitingBytes);
    assert_eq!(drain(&mut pool, "b"), vec!["Jude!".to_string()]);
    assert_eq!(drain(&mut pool, "a"), Vec::<String>::new());
    assert!(pool.contains("a"));
}

#[test]
fn the_read_loop_ends_at_leave_and_reads_no_further() {
    let mut pool = UserPool::new();
    let mut a = joined(&mut pool, "a");
    let _b = joined(&mut pool, "b");
    a.conn.feed(b"send bye\nleave\nsend too late\n");
    assert_eq!(a.handle_commands(&mut pool), ReadLoop::Left);
    assert!(!pool.contains("a"));
    assert!(pool.contains("b"));
    assert_eq!(drain(&mut pool, "b"), vec!["bye".to_string()]);
    assert_eq!(
        a.conn.read_command(),
        Ok(Some(Command::SendMessage("too late".to_string())))
    );
}

#[test]
fn the_read_loop_ignores_join_and_username_taken() {
    let mut pool = UserPool::new();
    let mut a = joined(&mut pool, "a");
    let _b = joined(&mut pool, "b");
    a.conn.feed(b"join c\nusername_taken\nnoise\nsend still here\n");
    assert_eq!(a.handle_commands(&mut pool), ReadLoop::AwaitingBytes);
    assert_eq!(pool.len(), 2);
    assert!(!pool.contains("c"));
    assert_eq!(drain(&mut pool, "b"), vec!["still here".to_string()]);
    assert_eq!(drain(&mut pool, "a"), Vec::<String>::new());
}

#[test]
fn the_read_loop_removes_the_user_at_the_end_of_the_stream() {
    let mut pool = UserPool::new();
    let mut a = joined(&mut pool, "a");
    let _b = joined(&mut pool, "b");
    a.conn.feed(b"send last words\nsend cut o");
    a.conn.close();
    assert_eq!(a.handle_commands(&mut pool), ReadLoop::EndOfStream);
    assert!(!pool.contains("a"));
    assert_eq!(drain(&mut pool, "b"), vec!["last words".to_string()]);
}

#[test]
fn the_read_loop_removes_the_user_when_the_transport_fails() {
    let mut pool = UserPool::new();
    let mut a = joined(&mut pool, "a");
    let _b = joined(&mut pool, "b");
    a.conn.feed(b"send before\n");
    a.conn.fail();
    assert_eq!(a.handle_commands(&mut pool), ReadLoop::TransportError);
    assert!(!pool.contains("a"));
    assert_eq!(pool.len(), 1);
    assert_eq!(drain(&mut pool, "b"), vec!["before".to_string()]);
}

#[test]
fn the_read_loop_may_end_twice() {
    let mut pool = UserPool::new();
    let mut a = joined(&mut pool, "a");
    a.conn.feed(b"leave\n");
    a.conn.fail();
    assert_eq!(a.handle_commands(&mut pool), ReadLoop::Left);
    assert_eq!(a.handle_commands(&mut pool), ReadLoop::TransportError);
    assert_eq!(pool.len(), 0);
}

#[test]
fn the_write_loop_frames_the_waiting_messages_in_order() {
    let mut pool = UserPool::new();
    let mut a = joined(&mut pool, "a");
    let b = joined(&mut pool, "b");
    assert_eq!(b.next_delivery(&mut pool), WriteLoop::AwaitingMessages);
    a.conn.feed(b"send Hey\nsend Jude!\n");
    a.handle_commands(&mut pool);
    assert_eq!(
        b.next_delivery(&mut pool),
        WriteLoop::Frame(b"send Hey\n".to_vec())
    );
    assert_eq!(
        b.next_delivery(&mut pool),
        WriteLoop::Frame(b"send Jude!\n".to_vec())
    );
    assert_eq!(b.next_delivery(&mut pool), WriteLoop::AwaitingMessages);
    assert_eq!(a.next_delivery(&mut pool), WriteLoop::AwaitingMessages);
}

#[test]
fn the_write_loop_ends_when_the_user_is_gone() {
    let mut pool = UserPool::new();
    let mut a = joined(&mut pool, "a");
    let mut b = joined(&mut pool, "b");
    a.conn.feed(b"send Hey\n");
    a.handle_commands(&mut pool);
    b.conn.feed(b"leave\n");
    assert_eq!(b.handle_commands(&mut pool), ReadLoop::Left);
    assert_eq!(b.next_delivery(&mut pool), WriteLoop::Ended);
}

#[test]
fn the_write_loop_ends_on_a_failed_transport_and_takes_nothing() {
    let mut pool = UserPool::new();
    let mut a = joined(&mut pool, "a");
    let mut b = joined(&mut pool, "b");
    a.conn.feed(b"send Hey\n");
    a.handle_commands(&mut pool);
    b.conn.fail();
    assert_eq!(b.next_delivery(&mut pool), WriteLoop::Ended);
    assert_eq!(pool.mailbox_len("b"), Some(1));
}

#[test]
fn a_delivered_frame_reads_as_a_message_at_the_client() {
    let mut pool = UserPool::new();
    let mut a = joined(&mut pool, "a");
    let b = joined(&mut pool, "b");
    a.conn.feed(b"send Hello world!\n");
    a.handle_commands(&mut pool);
    let mut client = Connection::new();
    match b.next_delivery(&mut pool) {
        WriteLoop::Frame(bytes) => client.feed(&bytes),
        other => panic!("no frame: {:?}", other),
    }
    assert_eq!(
        client.read_command(),
        Ok(Some(Command::SendMessage("Hello world!".to_string())))
    );
}

#[test]
fn scenario_messages_of_one_sender_arrive_in_order() {
    let mut pool = UserPool::new();
    let mut a = joined(&mut pool, "A");
    let _b = joined(&mut pool, "B");
    a.conn.feed(b"send Hey\n");
    a.handle_commands(&mut pool);
    a.conn.feed(b"send Jude!\n");
    a.handle_commands(&mut pool);
    a.conn.feed(b"send Don't let me down\n");
    a.handle_commands(&mut pool);
    assert_eq!(
        drain(&mut pool, "B"),
        vec![
            "Hey".to_string(),
            "Jude!".to_string(),
            "Don't let me down".to_string()
        ]
    );
    assert_eq!(drain(&mut pool, "A"), Vec::<String>::new());
}

#[test]
fn scenario_two_senders_never_hear_themselves() {
    let mut pool = UserPool::new();
    let mut a = joined(&mut pool, "A");
    let mut b = joined(&mut pool, "B");
    a.conn.feed(b"send Hey\n");
    a.handle_commands(&mut pool);
    b.conn.feed(b"send Jude!\n");
    b.handle_commands(&mut pool);
    a.conn.feed(b"send Don't let me down\n");
    a.handle_commands(&mut pool);
    assert_eq!(
        drain(&mut pool, "B"),
        vec!["Hey".to_string(), "Don't let me down".to_string()]
    );
    assert_eq!(drain(&mut pool, "A"), vec!["Jude!".to_string()]);
}

#[test]
fn scenario_a_second_anon_is_turned_away() {
    let mut pool = UserPool::new();
    let a = joined(&mut pool, "anon");
    let mut other = joined(&mut pool, "other");
    let mut c = Connection::new();
    match join(connection_with(b"join anon\n"), &mut pool) {
        Admission::Rejected(notice) => c.feed(&notice.unwrap()),
        outcome => panic!("not rejected: {:?}", outcome),
    }
    assert_eq!(c.read_command(), Ok(Some(Command::UsernameTaken)));
    assert_eq!(c.read_command(), Err(ConnectionError::WouldBlock));
    assert_eq!(pool.len(), 2);
    assert!(pool.contains("anon"));
    other.conn.feed(b"send are you there?\n");
    other.handle_commands(&mut pool);
    assert_eq!(
        a.next_delivery(&mut pool),
        WriteLoop::Frame(b"send are you there?\n".to_vec())
    );
}

#[test]
fn scenario_a_name_is_free_again_after_leave() {
    let mut pool = UserPool::new();
    let mut a = joined(&mut pool, "anon");
    assert!(pool.contains("anon"));
    a.conn.feed(b"leave\n");
    assert_eq!(a.handle_commands(&mut pool), ReadLoop::Left);
    assert!(!pool.contains("anon"));
    assert_eq!(pool.len(), 0);
    match join(connection_with(b"join anon\n"), &mut pool) {
        Admission::Admitted(user) => assert_eq!(user.username, "anon"),
        outcome => panic!("not admitted: {:?}", outcome),
    }
    assert!(pool.contains("anon"));
}
