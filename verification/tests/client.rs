use chat_core::client::{notice, user_input};
use chat_core::command::Command;
use chat_core::config::{Args, Config};

fn message(text: &str) -> Command {
    Command::SendMessage(text.to_string())
}

#[test]
fn user_input_reads_a_command() {
    assert_eq!(user_input("send Hey Jude"), Some(message("Hey Jude")));
    assert_eq!(user_input("leave"), Some(Command::Leave));
    assert_eq!(user_input("username_taken"), Some(Command::UsernameTaken));
}

#[test]
fn user_input_drops_the_white_space_around_the_line() {
    assert_eq!(user_input("  leave \t"), Some(Command::Leave));
    assert_eq!(user_input("leave\r\n"), Some(Command::Leave));
    assert_eq!(user_input(" send  Hey  "), Some(message(" Hey")));
    assert_eq!(user_input("\u{a0}leave\u{3000}"), Some(Command::Leave));
    assert_eq!(user_input("send a\tb"), Some(message("a\tb")));
}

#[test]
fn user_input_loses_the_space_behind_a_bare_send() {
    assert_eq!(user_input("send "), None);
    assert_eq!(user_input("send   "), None);
}

#[test]
fn user_input_asks_again_for_anything_else() {
    assert_eq!(user_input(""), None);
    assert_eq!(user_input("   "), None);
    assert_eq!(user_input("join anon"), None);
    assert_eq!(user_input("quit"), None);
    assert_eq!(user_input("leave now"), None);
}

#[test]
fn notice_shows_a_message_with_its_label() {
    assert_eq!(
        notice(&message("Hello world!")),
        Some("message: Hello world!".to_string())
    );
    assert_eq!(notice(&message("")), Some("message: ".to_string()));
}

#[test]
fn notice_tells_that_the_username_is_taken() {
    assert_eq!(
        notice(&Command::UsernameTaken),
        Some(
            "That username has been taken, please restart the client with a different one!"
                .to_string()
        )
    );
}

#[test]
fn notice_shows_nothing_for_the_commands_of_a_client() {
    assert_eq!(notice(&Command::Leave), None);
    assert_eq!(notice(&Command::Join("anon".to_string())), None);
}

#[test]
fn args_default_to_anon() {
    assert_eq!(Args::default().username, "anon");
}

#[test]
fn address_joins_host_and_port() {
    let config = Config {
        host: "127.0.0.1".to_string(),
        port: 8080,
    };
    assert_eq!(config.address(), "127.0.0.1:8080");
}

#[test]
fn address_writes_the_port_without_leading_zeros() {
    for (port, text) in [
        (0u16, "h:0"),
        (7, "h:7"),
        (10, "h:10"),
        (80, "h:80"),
        (443, "h:443"),
        (1000, "h:1000"),
        (9009, "h:9009"),
        (65535, "h:65535"),
    ] {
        let config = Config {
            host: "h".to_string(),
            port,
        };
        assert_eq!(config.address(), text);
    }
}

#[test]
fn address_takes_the_host_as_it_is() {
    let config = Config {
        host: String::new(),
        port: 1,
    };
    assert_eq!(config.address(), ":1");
    let config = Config {
        host: "::1".to_string(),
        port: 8080,
    };
    assert_eq!(config.address(), "::1:8080");
}
