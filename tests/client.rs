use tcp_chat::client::{
    commands, help_lines, init_hashmap, input_manager, ClientEvent, Command, Echo, EventError, Key,
    Phase, Session, SessionAction, SessionEvent, event_fits,
};
use tcp_chat::frame::open_frame;
use tcp_chat::reader::{ClientReader, Incoming};
use tcp_chat::frame::encode_frame;

const KEY: [u8; 32] = *b"0123456789abcdef0123456789abcdef";

fn typed(buf: &mut String, s: &str) {
    let table = init_hashmap();
    for c in s.chars() {
        let r = input_manager(buf, Key::Char(c), &table);
        assert!(r.event.is_none());
        assert!(matches!(r.echo, Echo::Typed(x) if x == c));
    }
}

#[test]
fn command_table_holds_three_commands() {
    let t = init_hashmap();
    assert_eq!(t.len(), 3);
    assert_eq!(commands(&t, "quit"), Ok(ClientEvent::Custom(Command::Quit)));
    assert_eq!(commands(&t, "help"), Ok(ClientEvent::Custom(Command::Help)));
    assert_eq!(commands(&t, "addr"), Ok(ClientEvent::Custom(Command::Addr)));
    assert_eq!(commands(&t, "nope"), Err(EventError::NotFound));
    assert_eq!(commands(&t, "QUIT"), Err(EventError::NotFound));
}

#[test]
fn descriptions() {
    assert_eq!(Command::Help.describe(), "Shows available commands");
    assert_eq!(Command::Addr.describe(), "Shows server's address");
    assert_eq!(Command::Quit.describe(), "Quit chat");
    assert_eq!(ClientEvent::UserInput("x".to_string()).describe(), "User's input");
    assert_eq!(ClientEvent::ServerDisconnected.describe(), "No connexion with server");
    assert_eq!(ClientEvent::Custom(Command::Quit).describe(), "Quit chat");
    assert_eq!(EventError::NotFound.describe(), "Command not found");
}

#[test]
fn help_lists_each_command() {
    let lines = help_lines(&init_hashmap());
    assert_eq!(
        lines,
        vec![
            "Available Commands :".to_string(),
            "  quit : Quit chat".to_string(),
            "  help : Shows available commands".to_string(),
            "  addr : Shows server's address".to_string(),
        ]
    );
}

#[test]
fn enter_submits_trimmed_input() {
    let table = init_hashmap();
    let mut buf = String::new();
    typed(&mut buf, "  hi there ");
    let r = input_manager(&mut buf, Key::Enter, &table);
    assert_eq!(r.event, Some(ClientEvent::UserInput("hi there".to_string())));
    assert!(matches!(r.echo, Echo::Cleared));
    assert!(buf.is_empty());
}

#[test]
fn enter_on_empty_line_does_nothing() {
    let table = init_hashmap();
    let mut buf = String::new();
    let r = input_manager(&mut buf, Key::Enter, &table);
    assert!(r.event.is_none());
    assert!(matches!(r.echo, Echo::Nothing));
}

#[test]
fn slash_commands_are_looked_up() {
    let table = init_hashmap();
    let mut buf = String::new();
    typed(&mut buf, "//quit");
    let r = input_manager(&mut buf, Key::Enter, &table);
    assert_eq!(r.event, Some(ClientEvent::Custom(Command::Quit)));
    match r.echo {
        Echo::Command { input, unknown } => {
            assert_eq!(input, "//quit");
            assert!(unknown.is_none());
        }
        _ => panic!("expected a command echo"),
    }
    typed(&mut buf, "/fly");
    let r = input_manager(&mut buf, Key::Enter, &table);
    assert!(r.event.is_none());
    match r.echo {
        Echo::Command { input, unknown } => {
            assert_eq!(input, "/fly");
            assert_eq!(unknown, Some("fly".to_string()));
        }
        _ => panic!("expected a command echo"),
    }
}

#[test]
fn backspace_erases_last_char() {
    let table = init_hashmap();
    let mut buf = String::new();
    typed(&mut buf, "abé");
    let r = input_manager(&mut buf, Key::Backspace, &table);
    assert!(matches!(r.echo, Echo::Erased));
    assert_eq!(buf, "ab");
    let mut empty = String::new();
    let r = input_manager(&mut empty, Key::Backspace, &table);
    assert!(matches!(r.echo, Echo::Nothing));
    let r = input_manager(&mut buf, Key::Other, &table);
    assert!(matches!(r.echo, Echo::Nothing));
    assert_eq!(buf, "ab");
}

#[test]
fn client_reader_shows_text_and_failures() {
    let mut r = ClientReader::new(KEY);
    match r.on_line(&encode_frame("[A]: hello", &KEY)) {
        Incoming::Text(t) => assert_eq!(t, "[A]: hello"),
        _ => panic!("expected text"),
    }
    assert!(matches!(r.on_line(b"garbage"), Incoming::Malformed));
    assert!(matches!(r.on_line(b"00:11"), Incoming::Undecryptable));
    assert!(r.on_end());
    assert!(!r.on_end());
}

#[test]
fn session_connects_greets_and_chats() {
    let mut s = Session::new("ann".to_string(), KEY);
    assert_eq!(s.phase, Phase::Disconnected);
    match s.next(SessionEvent::ConnectSucceeded) {
        SessionAction::Send(f) => assert_eq!(open_frame(&f, &KEY), Some("ann".to_string())),
        _ => panic!("expected the handshake frame"),
    }
    assert_eq!(s.phase, Phase::Handshaking);
    assert!(matches!(s.next(SessionEvent::HandshakeSent), SessionAction::StartReading));
    assert_eq!(s.phase, Phase::Connected);
    let ev = SessionEvent::Local(ClientEvent::UserInput("yo".to_string()));
    assert!(event_fits(&ev));
    match s.next(ev) {
        SessionAction::Send(f) => assert_eq!(open_frame(&f, &KEY), Some("yo".to_string())),
        _ => panic!("expected a chat frame"),
    }
    assert!(matches!(s.next(SessionEvent::Idle), SessionAction::Poll));
    assert!(matches!(s.next(SessionEvent::Local(ClientEvent::Custom(Command::Help))), SessionAction::ShowHelp));
    assert!(matches!(s.next(SessionEvent::Local(ClientEvent::Custom(Command::Addr))), SessionAction::ShowAddress));
}

#[test]
fn session_retries_forever_with_fixed_delay() {
    let mut s = Session::new("ann".to_string(), KEY);
    for _ in 0..10 {
        assert!(matches!(s.next(SessionEvent::ConnectFailed), SessionAction::RetryLater));
        assert_eq!(s.phase, Phase::Disconnected);
    }
    s.next(SessionEvent::ConnectSucceeded);
    assert!(matches!(s.next(SessionEvent::SendFailed), SessionAction::RetryLater));
    assert_eq!(s.phase, Phase::Disconnected);
}

#[test]
fn session_reconnects_after_loss() {
    let mut s = Session::new("ann".to_string(), KEY);
    s.next(SessionEvent::ConnectSucceeded);
    s.next(SessionEvent::HandshakeSent);
    assert!(matches!(s.next(SessionEvent::Local(ClientEvent::ServerDisconnected)), SessionAction::Connect));
    assert_eq!(s.phase, Phase::Disconnected);
    s.next(SessionEvent::ConnectSucceeded);
    s.next(SessionEvent::HandshakeSent);
    assert!(matches!(s.next(SessionEvent::SendFailed), SessionAction::Connect));
    assert_eq!(s.phase, Phase::Disconnected);
}

#[test]
fn session_quits_only_on_command_or_closed_stream() {
    let mut s = Session::new("ann".to_string(), KEY);
    assert!(matches!(s.next(SessionEvent::Idle), SessionAction::Nothing));
    s.next(SessionEvent::ConnectSucceeded);
    s.next(SessionEvent::HandshakeSent);
    assert!(matches!(s.next(SessionEvent::Local(ClientEvent::Custom(Command::Quit))), SessionAction::Shutdown));
    assert_eq!(s.phase, Phase::Quit);
    assert!(matches!(s.next(SessionEvent::ConnectSucceeded), SessionAction::Stop));

    let mut t = Session::new("bo".to_string(), KEY);
    t.next(SessionEvent::ConnectSucceeded);
    t.next(SessionEvent::HandshakeSent);
    assert!(matches!(t.next(SessionEvent::ChannelClosed), SessionAction::Stop));
    assert_eq!(t.phase, Phase::Quit);
}
