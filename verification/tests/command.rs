use chat_core::command::{parse_command, Command};

fn join(name: &str) -> Command {
    Command::Join(name.to_string())
}

fn message(text: &str) -> Command {
    Command::SendMessage(text.to_string())
}

#[test]
fn parse_reads_each_command() {
    assert_eq!(Command::parse("join Davey"), Some(join("Davey")));
    assert_eq!(Command::parse("leave"), Some(Command::Leave));
    assert_eq!(Command::parse("send Hey!"), Some(message("Hey!")));
    assert_eq!(Command::parse("username_taken"), Some(Command::UsernameTaken));
}

#[test]
fn parse_takes_the_rest_of_the_line_as_payload() {
    assert_eq!(
        Command::parse("send Don't let me down"),
        Some(message("Don't let me down"))
    );
    assert_eq!(Command::parse("join  two  words "), Some(join(" two  words ")));
    assert_eq!(Command::parse("send send leave"), Some(message("send leave")));
}

#[test]
fn parse_accepts_an_empty_payload_after_the_space() {
    assert_eq!(Command::parse("join "), Some(join("")));
    assert_eq!(Command::parse("send "), Some(message("")));
}

#[test]
fn parse_wants_a_payload_for_join_and_send() {
    assert_eq!(Command::parse("join"), None);
    assert_eq!(Command::parse("send"), None);
}

#[test]
fn parse_wants_leave_and_username_taken_alone_on_the_line() {
    assert_eq!(Command::parse("leave now"), None);
    assert_eq!(Command::parse("leave "), None);
    assert_eq!(Command::parse(" leave"), None);
    assert_eq!(Command::parse("username_taken "), None);
    assert_eq!(Command::parse("username_taken anon"), None);
}

#[test]
fn parse_gives_none_for_noise() {
    assert_eq!(Command::parse(""), None);
    assert_eq!(Command::parse(" "), None);
    assert_eq!(Command::parse("hello"), None);
    assert_eq!(Command::parse("JOIN anon"), None);
    assert_eq!(Command::parse("joinanon"), None);
    assert_eq!(Command::parse("sendx y"), None);
    assert_eq!(Command::parse("leav"), None);
    assert_eq!(Command::parse("username_take"), None);
}

#[test]
fn parse_counts_characters_not_bytes() {
    assert_eq!(Command::parse("send żółć 越"), Some(message("żółć 越")));
    assert_eq!(Command::parse("join 越"), Some(join("越")));
    assert_eq!(Command::parse("łeave"), None);
    assert_eq!(Command::parse("越越越越越"), None);
}

#[test]
fn encode_gives_the_line_of_each_command() {
    assert_eq!(join("anon").encode(), "join anon");
    assert_eq!(Command::Leave.encode(), "leave");
    assert_eq!(message("Hey").encode(), "send Hey");
    assert_eq!(Command::UsernameTaken.encode(), "username_taken");
    assert_eq!(join("").encode(), "join ");
}

#[test]
fn to_string_shows_a_message_as_its_text() {
    assert_eq!(message("Hey!").to_string(), "Hey!");
    assert_eq!(join("Davey").to_string(), "join Davey");
    assert_eq!(Command::Leave.to_string(), "leave");
    assert_eq!(Command::UsernameTaken.to_string(), "username_taken");
}

#[test]
fn decode_undoes_encode() {
    let commands = vec![
        join("anon"),
        join(""),
        join("with space"),
        join("leave"),
        Command::Leave,
        message("Hey"),
        message(""),
        message("join me"),
        message("  padded  "),
        message("żółć"),
        message("tab\tand\rreturn"),
        message("two\nlines"),
        Command::UsernameTaken,
    ];
    for command in commands {
        assert_eq!(Command::parse(&command.encode()), Some(command));
    }
}

#[test]
fn clone_gives_an_equal_command() {
    let command = message("Hey");
    assert_eq!(command.clone(), command);
    assert_eq!(Command::Leave.clone(), Command::Leave);
}

#[test]
fn parse_command_reads_what_a_user_types() {
    assert_eq!(parse_command("send Hey Jude"), Some(message("Hey Jude")));
    assert_eq!(parse_command("send "), Some(message("")));
    assert_eq!(parse_command("leave"), Some(Command::Leave));
    assert_eq!(parse_command("username_taken"), Some(Command::UsernameTaken));
}

#[test]
fn parse_command_does_not_read_join() {
    assert_eq!(parse_command("join anon"), None);
    assert_eq!(parse_command("send"), None);
    assert_eq!(parse_command("leave "), None);
    assert_eq!(parse_command(""), None);
    assert_eq!(parse_command("quit"), None);
}
