//! The client: local commands, line editing key by key, and the decisions
//! of its connect / handshake / chat / reconnect loop.

use vstd::prelude::*;
use vstd::string::*;
use vstd::utf8::*;
use crate::cipher::MAX_PLAINTEXT_LEN;
use crate::frame::{encode_frame, frame_text};
use crate::text::{pop_char, push_char, strip_leading, trim_chars, trim_leading, trim_text};

verus! {

/// Seconds to wait before another connection attempt.
pub const RECONNECT_DELAY: u64 = 5;

/// Milliseconds to wait when no event is pending.
pub const POLL_INTERVAL_MS: u64 = 50;

/// A local command.
#[derive(Clone, Copy, PartialEq, Eq, Debug, Structural)]
pub enum Command {
    Help,
    Addr,
    Quit,
}

/// What the client's event loop consumes.
#[derive(PartialEq, Eq, Debug)]
pub enum ClientEvent {
    /// A line typed by the user, to be sent as a chat message.
    UserInput(String),
    /// The connection to the server is gone.
    ServerDisconnected,
    /// A local command.
    Custom(Command),
}

/// Why a command could not be run.
#[derive(Clone, Copy, PartialEq, Eq, Debug, Structural)]
pub enum EventError {
    NotFound,
}

pub open spec fn command_text(c: Command) -> Seq<char> {
    match c {
        Command::Help => "Shows available commands"@,
        Command::Addr => "Shows server's address"@,
        Command::Quit => "Quit chat"@,
    }
}

impl Command {
    /// What the command does, in words.
    pub fn describe(&self) -> (r: &'static str)
        ensures
            r@ == command_text(*self),
    {
        match self {
            Command::Help => "Shows available commands",
            Command::Addr => "Shows server's address",
            Command::Quit => "Quit chat",
        }
    }
}

impl ClientEvent {
    /// The kind of event, in words.
    pub fn describe(&self) -> (r: &'static str)
        ensures
            match self {
                ClientEvent::UserInput(_) => r@ == "User's input"@,
                ClientEvent::ServerDisconnected => r@ == "No connexion with server"@,
                ClientEvent::Custom(c) => r@ == command_text(*c),
            },
    {
        match self {
            ClientEvent::UserInput(_) => "User's input",
            ClientEvent::ServerDisconnected => "No connexion with server",
            ClientEvent::Custom(c) => c.describe(),
        }
    }
}

impl EventError {
    /// The error, in words.
    pub fn describe(&self) -> (r: &'static str)
        ensures
            r@ == "Command not found"@,
    {
        match self {
            EventError::NotFound => "Command not found",
        }
    }
}

/// The first command in `s` named `name`.
pub open spec fn lookup(s: Seq<(Seq<char>, Command)>, name: Seq<char>) -> Option<Command>
    decreases s.len(),
{
    if s.len() == 0 {
        None
    } else if s[0].0 == name {
        Some(s[0].1)
    } else {
        lookup(s.drop_first(), name)
    }
}

/// Local commands by name.
pub struct CommandTable {
    entries: Vec<(String, Command)>,
}

impl CommandTable {
    /// The table's names and commands, in order.
    pub closed spec fn view(&self) -> Seq<(Seq<char>, Command)> {
        self.entries@.map_values(|e: (String, Command)| (e.0@, e.1))
    }

    /// The number of commands.
    pub fn len(&self) -> (r: usize)
        ensures
            r == self.view().len(),
    {
        self.entries.len()
    }
}

/// The client's commands: `quit`, `help` and `addr`.
pub fn init_hashmap() -> (r: CommandTable)
    ensures
        r.view() == seq![("quit"@, Command::Quit), ("help"@, Command::Help), ("addr"@, Command::Addr)],
{
    let mut entries: Vec<(String, Command)> = Vec::new();
    entries.push((String::from_str("quit"), Command::Quit));
    entries.push((String::from_str("help"), Command::Help));
    entries.push((String::from_str("addr"), Command::Addr));
    let r = CommandTable { entries };
    assert(r.view() =~= seq![("quit"@, Command::Quit), ("help"@, Command::Help), ("addr"@, Command::Addr)]);
    r
}

proof fn lemma_lookup_skips(s: Seq<(Seq<char>, Command)>, name: Seq<char>, i: int)
    requires
        0 <= i <= s.len(),
        forall|j: int| 0 <= j < i ==> (#[trigger] s[j]).0 != name,
    ensures
        lookup(s, name) == lookup(s.subrange(i, s.len() as int), name),
    decreases i,
{
    if i > 0 {
        let t = s.drop_first();
        lemma_lookup_skips(t, name, i - 1);
        assert(t.subrange(i - 1, t.len() as int) =~= s.subrange(i, s.len() as int));
        assert(s[0].0 != name);
    } else {
        assert(s.subrange(0, s.len() as int) =~= s);
    }
}

/// Looks a command up by name.
pub fn commands(cmds_map: &CommandTable, cmd: &str) -> (r: Result<ClientEvent, EventError>)
    ensures
        match lookup(cmds_map.view(), cmd@) {
            Some(c) => r == Ok::<ClientEvent, EventError>(ClientEvent::Custom(c)),
            None => r == Err::<ClientEvent, EventError>(EventError::NotFound),
        },
{
    let name = String::from_str(cmd);
    let mut i: usize = 0;
    while i < cmds_map.entries.len()
        invariant
            i <= cmds_map.view().len(),
            name@ == cmd@,
            forall|j: int| 0 <= j < i ==> (#[trigger] cmds_map.view()[j]).0 != cmd@,
        decreases cmds_map.view().len() - i,
    {
        if cmds_map.entries[i].0 == name {
            proof {
                lemma_lookup_skips(cmds_map.view(), cmd@, i as int);
            }
            return Ok(ClientEvent::Custom(cmds_map.entries[i].1));
        }
        i = i + 1;
    }
    proof {
        lemma_lookup_skips(cmds_map.view(), cmd@, i as int);
    }
    Err(EventError::NotFound)
}

/// The lines that `/help` shows: a heading, then `  name : description`
/// for each command of the table, in order.
pub fn help_lines(cmds_map: &CommandTable) -> (r: Vec<String>)
    ensures
        r@.len() == cmds_map.view().len() + 1,
        r@[0]@ == "Available Commands :"@,
        forall|i: int|
            0 <= i < cmds_map.view().len() ==> (#[trigger] r@[i + 1])@ == "  "@ + cmds_map.view()[i].0
                + " : "@ + command_text(cmds_map.view()[i].1),
{
    let mut r: Vec<String> = Vec::new();
    r.push(String::from_str("Available Commands :"));
    let mut i: usize = 0;
    while i < cmds_map.entries.len()
        invariant
            i <= cmds_map.view().len(),
            r@.len() == i + 1,
            r@[0]@ == "Available Commands :"@,
            forall|j: int|
                0 <= j < i ==> (#[trigger] r@[j + 1])@ == "  "@ + cmds_map.view()[j].0 + " : "@
                    + command_text(cmds_map.view()[j].1),
        decreases cmds_map.view().len() - i,
    {
        let mut line = String::from_str("  ");
        line.append(cmds_map.entries[i].0.as_str());
        line.append(" : ");
        line.append(cmds_map.entries[i].1.describe());
        r.push(line);
        i = i + 1;
    }
    r
}

/// A key press, as the line editor sees it.
#[derive(Clone, Copy, PartialEq, Eq, Debug, Structural)]
pub enum Key {
    Enter,
    Backspace,
    Char(char),
    Other,
}

/// What the terminal shows after a key press.
pub enum Echo {
    /// Nothing changes.
    Nothing,
    /// The typed character appears.
    Typed(char),
    /// The last character is erased.
    Erased,
    /// The line was submitted as chat input: the input line is cleared.
    Cleared,
    /// The line was a command: it is echoed; `unknown` holds the command
    /// name when no such command exists.
    Command { input: String, unknown: Option<String> },
}

/// The event, if any, and the echo of one key press.
pub struct InputResult {
    pub event: Option<ClientEvent>,
    pub echo: Echo,
}

/// Whether a submitted line is a command: it starts with a slash.
pub open spec fn is_command(input: Seq<char>) -> bool {
    input.len() > 0 && input[0] == '/'
}

/// What a key press does to the input line and what it yields.
pub open spec fn edit_step(
    table: Seq<(Seq<char>, Command)>,
    buf: Seq<char>,
    key: Key,
    buf2: Seq<char>,
    r: InputResult,
) -> bool {
    match key {
        Key::Enter => if buf.len() == 0 {
            buf2 == buf && r.event is None && r.echo is Nothing
        } else {
            let input = trim_chars(buf);
            let name = strip_leading(input, '/');
            &&& buf2.len() == 0
            &&& if is_command(input) {
                &&& (r.echo matches Echo::Command { input: i2, unknown } && i2@ == input && match lookup(table, name) {
                    Some(c) => unknown is None,
                    None => (unknown matches Some(u) && u@ == name),
                })
                &&& match lookup(table, name) {
                    Some(c) => r.event == Some(ClientEvent::Custom(c)),
                    None => r.event is None,
                }
            } else {
                &&& r.echo is Cleared
                &&& (r.event matches Some(ClientEvent::UserInput(t)) && t@ == input)
            }
        },
        Key::Backspace => r.event is None && if buf.len() > 0 {
            buf2 == buf.drop_last() && r.echo is Erased
        } else {
            buf2 == buf && r.echo is Nothing
        },
        Key::Char(c) => buf2 == buf.push(c) && r.event is None && r.echo == Echo::Typed(c),
        Key::Other => buf2 == buf && r.event is None && r.echo is Nothing,
    }
}

/// Applies one key press to the input line. Enter submits a non-empty
/// line, trimmed: one that starts with `/` is looked up as a command (all
/// leading slashes dropped), any other becomes chat input. Backspace erases
/// the last character, a character is appended, other keys do nothing.
pub fn input_manager(input_buffer: &mut String, key: Key, cmds_map: &CommandTable) -> (r: InputResult)
    ensures
        edit_step(cmds_map.view(), old(input_buffer)@, key, final(input_buffer)@, r),
{
    match key {
        Key::Enter => {
            if input_buffer.as_str().is_empty() {
                return InputResult { event: None, echo: Echo::Nothing };
            }
            let input = trim_text(input_buffer.as_str());
            *input_buffer = String::new();
            let is_cmd = input.as_str().unicode_len() > 0 && input.as_str().get_char(0) == '/';
            if is_cmd {
                let name = trim_leading(input.as_str(), '/');
                match commands(cmds_map, name.as_str()) {
                    Ok(event) => InputResult { event: Some(event), echo: Echo::Command { input, unknown: None } },
                    Err(_) => InputResult { event: None, echo: Echo::Command { input, unknown: Some(name) } },
                }
            } else {
                InputResult { event: Some(ClientEvent::UserInput(input)), echo: Echo::Cleared }
            }
        },
        Key::Backspace => {
            match pop_char(input_buffer) {
                Some(_) => InputResult { event: None, echo: Echo::Erased },
                None => InputResult { event: None, echo: Echo::Nothing },
            }
        },
        Key::Char(c) => {
            push_char(input_buffer, c);
            InputResult { event: None, echo: Echo::Typed(c) }
        },
        Key::Other => InputResult { event: None, echo: Echo::Nothing },
    }
}

/// Where the client's connection stands.
#[derive(Clone, Copy, PartialEq, Eq, Debug, Structural)]
pub enum Phase {
    Disconnected,
    Handshaking,
    Connected,
    Quit,
}

/// What happened, as the client's loop reports it.
pub enum SessionEvent {
    /// The connection attempt failed.
    ConnectFailed,
    /// The connection attempt succeeded.
    ConnectSucceeded,
    /// The username frame was written.
    HandshakeSent,
    /// Writing to the server failed.
    SendFailed,
    /// An event from the merged local and reader stream.
    Local(ClientEvent),
    /// No event was pending.
    Idle,
    /// The event stream is closed.
    ChannelClosed,
}

/// What the client's loop must do next.
pub enum SessionAction {
    /// Try to connect now.
    Connect,
    /// Wait `RECONNECT_DELAY` seconds, then try to connect.
    RetryLater,
    /// Write this frame to the server.
    Send(Vec<u8>),
    /// Start reading from the server.
    StartReading,
    /// Show the help text.
    ShowHelp,
    /// Show the server's address.
    ShowAddress,
    /// Shut the socket down both ways and exit.
    Shutdown,
    /// Wait `POLL_INTERVAL_MS` milliseconds and look again.
    Poll,
    /// Exit.
    Stop,
    /// Nothing to do.
    Nothing,
}

/// The client's connection state, its user and its key.
pub struct Session {
    pub phase: Phase,
    pub username: String,
    pub key: [u8; 32],
}

/// Whether the text that an event would send is short enough to encrypt.
pub open spec fn session_event_fits(ev: SessionEvent) -> bool {
    match ev {
        SessionEvent::Local(ClientEvent::UserInput(t)) => encode_utf8(t@).len() <= MAX_PLAINTEXT_LEN,
        _ => true,
    }
}

/// Tests whether the text that an event would send is short enough to
/// encrypt.
pub fn event_fits(ev: &SessionEvent) -> (r: bool)
    ensures
        r == session_event_fits(*ev),
{
    match ev {
        SessionEvent::Local(ClientEvent::UserInput(t)) => t.as_str().as_bytes().len() as u64 <= MAX_PLAINTEXT_LEN,
        _ => true,
    }
}

/// Whether `a` is a frame of `text` under `key`.
pub open spec fn sends(a: SessionAction, key: Seq<u8>, text: Seq<char>) -> bool {
    a matches SessionAction::Send(f) && frame_text(key, f@) == Some(text)
}

/// The next phase and action of the client loop.
pub open spec fn session_step(
    from: Phase,
    ev: SessionEvent,
    key: Seq<u8>,
    user: Seq<char>,
    to: Phase,
    a: SessionAction,
) -> bool {
    match (from, ev) {
        (Phase::Disconnected, SessionEvent::ConnectSucceeded) => to == Phase::Handshaking && sends(a, key, user),
        (Phase::Disconnected, SessionEvent::ConnectFailed) => to == Phase::Disconnected && a is RetryLater,
        (Phase::Handshaking, SessionEvent::HandshakeSent) => to == Phase::Connected && a is StartReading,
        (Phase::Handshaking, SessionEvent::SendFailed) => to == Phase::Disconnected && a is RetryLater,
        (Phase::Connected, SessionEvent::Local(ClientEvent::UserInput(t))) => to == Phase::Connected
            && sends(a, key, t@),
        (Phase::Connected, SessionEvent::SendFailed) => to == Phase::Disconnected && a is Connect,
        (Phase::Connected, SessionEvent::Local(ClientEvent::ServerDisconnected)) => to == Phase::Disconnected
            && a is Connect,
        (Phase::Connected, SessionEvent::Local(ClientEvent::Custom(Command::Help))) => to == Phase::Connected
            && a is ShowHelp,
        (Phase::Connected, SessionEvent::Local(ClientEvent::Custom(Command::Addr))) => to == Phase::Connected
            && a is ShowAddress,
        (Phase::Connected, SessionEvent::Local(ClientEvent::Custom(Command::Quit))) => to == Phase::Quit
            && a is Shutdown,
        (Phase::Connected, SessionEvent::Idle) => to == Phase::Connected && a is Poll,
        (Phase::Connected, SessionEvent::ChannelClosed) => to == Phase::Quit && a is Stop,
        (Phase::Quit, _) => to == Phase::Quit && a is Stop,
        _ => to == from && a is Nothing,
    }
}

impl Session {
    /// A session that has not connected yet.
    pub fn new(username: String, key: [u8; 32]) -> (r: Session)
        ensures
            r.phase == Phase::Disconnected,
            r.username@ == username@,
            r.key == key,
    {
        Session { phase: Phase::Disconnected, username, key }
    }

    /// Decides what follows `ev`. A connection is greeted with the
    /// encrypted username; typed lines are sent encrypted; a lost
    /// connection is reconnected at once, a failed attempt after a fixed
    /// delay, forever; only a quit command or a closed event stream ends
    /// the session.
    pub fn next(&mut self, ev: SessionEvent) -> (a: SessionAction)
        requires
            encode_utf8(old(self).username@).len() <= MAX_PLAINTEXT_LEN,
            session_event_fits(ev),
        ensures
            final(self).username == old(self).username,
            final(self).key == old(self).key,
            session_step(old(self).phase, ev, old(self).key@, old(self).username@, final(self).phase, a),
    {
        match (self.phase, ev) {
            (Phase::Disconnected, SessionEvent::ConnectSucceeded) => {
                self.phase = Phase::Handshaking;
                SessionAction::Send(encode_frame(self.username.as_str(), &self.key))
            },
            (Phase::Disconnected, SessionEvent::ConnectFailed) => SessionAction::RetryLater,
            (Phase::Handshaking, SessionEvent::HandshakeSent) => {
                self.phase = Phase::Connected;
                SessionAction::StartReading
            },
            (Phase::Handshaking, SessionEvent::SendFailed) => {
                self.phase = Phase::Disconnected;
                SessionAction::RetryLater
            },
            (Phase::Connected, SessionEvent::Local(ClientEvent::UserInput(t))) => {
                SessionAction::Send(encode_frame(t.as_str(), &self.key))
            },
            (Phase::Connected, SessionEvent::SendFailed) => {
                self.phase = Phase::Disconnected;
                SessionAction::Connect
            },
            (Phase::Connected, SessionEvent::Local(ClientEvent::ServerDisconnected)) => {
                self.phase = Phase::Disconnected;
                SessionAction::Connect
            },
            (Phase::Connected, SessionEvent::Local(ClientEvent::Custom(Command::Help))) => SessionAction::ShowHelp,
            (Phase::Connected, SessionEvent::Local(ClientEvent::Custom(Command::Addr))) => SessionAction::ShowAddress,
            (Phase::Connected, SessionEvent::Local(ClientEvent::Custom(Command::Quit))) => {
                self.phase = Phase::Quit;
                SessionAction::Shutdown
            },
            (Phase::Connected, SessionEvent::Idle) => SessionAction::Poll,
            (Phase::Connected, SessionEvent::ChannelClosed) => {
                self.phase = Phase::Quit;
                SessionAction::Stop
            },
            (Phase::Quit, _) => SessionAction::Stop,
            _ => SessionAction::Nothing,
        }
    }
}

} // verus!
