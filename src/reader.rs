//! Per-connection reading: bytes split into lines, and the state machines
//! that turn each line, or the end of the stream, into events.

use vstd::prelude::*;
use crate::frame::{decode_frame, frame_fields, frame_text, open_frame, NEWLINE};
use crate::registry::ServerEvent;
use crate::text::{trim_chars, trim_text};

verus! {

/// Lines laid end to end, each followed by a newline.
pub open spec fn joined(lines: Seq<Seq<u8>>) -> Seq<u8>
    decreases lines.len(),
{
    if lines.len() == 0 {
        Seq::empty()
    } else {
        joined(lines.drop_last()) + lines.last() + seq![NEWLINE]
    }
}

/// The views of a list of byte vectors.
pub open spec fn line_views(lines: Seq<Vec<u8>>) -> Seq<Seq<u8>> {
    lines.map_values(|l: Vec<u8>| l@)
}

/// Bytes received and not yet ended by a newline.
pub struct LineBuffer {
    pending: Vec<u8>,
}

impl LineBuffer {
    /// The bytes held back, waiting for their newline.
    pub closed spec fn view(&self) -> Seq<u8> {
        self.pending@
    }

    /// An empty buffer.
    pub fn new() -> (r: LineBuffer)
        ensures
            r.view() == Seq::<u8>::empty(),
    {
        LineBuffer { pending: Vec::new() }
    }

    /// Takes the bytes of one read and returns the lines that they complete,
    /// without their newlines; what follows the last newline is kept.
    pub fn push(&mut self, bytes: &[u8]) -> (lines: Vec<Vec<u8>>)
        requires
            !old(self).view().contains(NEWLINE),
        ensures
            joined(line_views(lines@)) + final(self).view() == old(self).view() + bytes@,
            !final(self).view().contains(NEWLINE),
            forall|t: int| 0 <= t < lines@.len() ==> !(#[trigger] lines@[t])@.contains(NEWLINE),
    {
        let ghost start = self.pending@;
        let mut lines: Vec<Vec<u8>> = Vec::new();
        let mut current = self.pending.clone();
        let mut i: usize = 0;
        while i < bytes.len()
            invariant
                i <= bytes@.len(),
                joined(line_views(lines@)) + current@ == start + bytes@.subrange(0, i as int),
                !current@.contains(NEWLINE),
                forall|t: int| 0 <= t < lines@.len() ==> !(#[trigger] lines@[t])@.contains(NEWLINE),
            decreases bytes@.len() - i,
        {
            let b = bytes[i];
            let ghost before = lines@;
            let ghost cur = current@;
            if b == NEWLINE {
                lines.push(current);
                current = Vec::new();
                proof {
                    assert(line_views(lines@).drop_last() =~= line_views(before));
                    assert(line_views(lines@).last() == cur);
                    let lv = line_views(lines@);
                    assert(joined(lv) == joined(lv.drop_last()) + lv.last() + seq![NEWLINE]);
                    assert(joined(lv) == joined(line_views(before)) + cur + seq![NEWLINE]);
                    assert(current@ =~= Seq::<u8>::empty());
                    let jb = joined(line_views(before));
                    assert(jb + cur == start + bytes@.subrange(0, i as int));
                    assert(joined(lv) + current@ =~= (jb + cur) + seq![NEWLINE]);
                    assert((start + bytes@.subrange(0, i as int)) + seq![b] =~= start + bytes@.subrange(0, i + 1));
                    assert(seq![b] =~= seq![NEWLINE]);
                    assert(joined(lv) + current@ == (start + bytes@.subrange(0, i as int)) + seq![b]);
                    assert(bytes@.subrange(0, i + 1) =~= bytes@.subrange(0, i as int).push(b));
                    assert(joined(line_views(lines@)) + current@ =~= start + bytes@.subrange(0, i + 1));
                    assert forall|t: int| 0 <= t < lines@.len() implies !(#[trigger] lines@[t])@.contains(NEWLINE) by {
                        if t < before.len() {
                            assert(lines@[t] == before[t]);
                        }
                    }
                }
            } else {
                current.push(b);
                proof {
                    assert(bytes@.subrange(0, i + 1) =~= bytes@.subrange(0, i as int).push(b));
                    let jb = joined(line_views(lines@));
                    assert(jb + cur == start + bytes@.subrange(0, i as int));
                    assert(jb + current@ =~= (jb + cur).push(b));
                    assert(joined(line_views(lines@)) + current@ =~= start + bytes@.subrange(0, i + 1));
                    assert forall|m: int| 0 <= m < current@.len() implies current@[m] != NEWLINE by {
                        if m < cur.len() {
                            assert(current@[m] == cur[m]);
                        }
                    }
                }
            }
            i = i + 1;
        }
        proof {
            assert(bytes@.subrange(0, bytes@.len() as int) =~= bytes@);
        }
        self.pending = current;
        lines
    }
}

/// Where a server-side connection stands.
pub enum ServerPhase {
    /// Waiting for the framed username.
    Handshake,
    /// Registered under `username`; each line is a chat message.
    Established { username: String },
    /// The connection is over.
    Closed,
}

/// What the server does with one line or with the end of the stream.
pub enum ServerReaction {
    /// Hand this event to the dispatcher.
    Forward(ServerEvent),
    /// The message was malformed or did not decrypt: drop it, keep reading.
    Drop,
    /// The username did not decrypt: close the connection unregistered.
    Reject,
    /// Nothing to do.
    Ignore,
}

/// The reading side of one server connection.
pub struct ServerReader {
    pub phase: ServerPhase,
    pub handle: u64,
    pub key: [u8; 32],
}

/// The phase and reaction after one line arrives in `phase`.
pub open spec fn server_line_step(
    phase: ServerPhase,
    handle: u64,
    key: Seq<u8>,
    line: Seq<u8>,
    next: ServerPhase,
    r: ServerReaction,
) -> bool {
    match phase {
        ServerPhase::Handshake => match frame_text(key, line) {
            Some(name) => {
                &&& (next matches ServerPhase::Established { username } && username@ == trim_chars(name))
                &&& (r matches ServerReaction::Forward(ServerEvent::NewClient { username, handle: h })
                    && username@ == trim_chars(name) && h == handle)
            },
            None => next is Closed && r is Reject,
        },
        ServerPhase::Established { username } => {
            &&& next == phase
            &&& match frame_text(key, line) {
                Some(t) => (r matches ServerReaction::Forward(ServerEvent::ChatMessage { sender, text })
                    && sender@ == username@ && text@ == trim_chars(t)),
                None => r is Drop,
            }
        },
        ServerPhase::Closed => next is Closed && r is Ignore,
    }
}

/// The phase and reaction when the stream ends or fails in `phase`: a
/// registered user is reported gone once; then nothing more.
pub open spec fn server_end_step(phase: ServerPhase, next: ServerPhase, r: ServerReaction) -> bool {
    &&& next is Closed
    &&& match phase {
        ServerPhase::Established { username } => (r matches ServerReaction::Forward(
            ServerEvent::ClientDisconnected { username: u2 },
        ) && u2@ == username@),
        _ => r is Ignore,
    }
}

impl ServerReader {
    /// A reader for a fresh connection, waiting for its username.
    pub fn new(handle: u64, key: [u8; 32]) -> (r: ServerReader)
        ensures
            r.phase is Handshake,
            r.handle == handle,
            r.key == key,
    {
        ServerReader { phase: ServerPhase::Handshake, handle, key }
    }

    /// Handles one received line. The first line must carry the username,
    /// trimmed of whitespace; if it does not decrypt the connection is
    /// rejected. After that each line is a chat message from that user,
    /// trimmed; one that is malformed or does not decrypt is dropped.
    pub fn on_line(&mut self, line: &[u8]) -> (r: ServerReaction)
        ensures
            final(self).handle == old(self).handle,
            final(self).key == old(self).key,
            server_line_step(old(self).phase, old(self).handle, old(self).key@, line@, final(self).phase, r),
    {
        match &self.phase {
            ServerPhase::Handshake => match open_frame(line, &self.key) {
                Some(name) => {
                    let username = trim_text(name.as_str());
                    let forwarded = username.clone();
                    self.phase = ServerPhase::Established { username };
                    ServerReaction::Forward(ServerEvent::NewClient { username: forwarded, handle: self.handle })
                },
                None => {
                    self.phase = ServerPhase::Closed;
                    ServerReaction::Reject
                },
            },
            ServerPhase::Established { username } => match open_frame(line, &self.key) {
                Some(t) => {
                    let text = trim_text(t.as_str());
                    ServerReaction::Forward(ServerEvent::ChatMessage { sender: username.clone(), text })
                },
                None => ServerReaction::Drop,
            },
            ServerPhase::Closed => ServerReaction::Ignore,
        }
    }

    /// Handles the end of the stream, or a read error: a registered user is
    /// reported disconnected, exactly once.
    pub fn on_end(&mut self) -> (r: ServerReaction)
        ensures
            final(self).handle == old(self).handle,
            final(self).key == old(self).key,
            server_end_step(old(self).phase, final(self).phase, r),
    {
        let r = match &self.phase {
            ServerPhase::Established { username } => ServerReaction::Forward(
                ServerEvent::ClientDisconnected { username: username.clone() },
            ),
            _ => ServerReaction::Ignore,
        };
        self.phase = ServerPhase::Closed;
        r
    }
}

/// What the client shows for one line from the server.
pub enum Incoming {
    /// The decrypted text.
    Text(String),
    /// The line has a separator but does not decrypt.
    Undecryptable,
    /// The line has no separator.
    Malformed,
}

/// The reading side of the client's connection.
pub struct ClientReader {
    pub key: [u8; 32],
    pub closed: bool,
}

impl ClientReader {
    pub fn new(key: [u8; 32]) -> (r: ClientReader)
        ensures
            r.key == key,
            !r.closed,
    {
        ClientReader { key, closed: false }
    }

    /// Reads one line from the server.
    pub fn on_line(&self, line: &[u8]) -> (r: Incoming)
        ensures
            frame_text(self.key@, line@) matches Some(t) ==> (r matches Incoming::Text(s) && s@ == t),
            frame_text(self.key@, line@) is None && frame_fields(line@) is Some ==> r is Undecryptable,
            frame_fields(line@) is None ==> r is Malformed,
    {
        match open_frame(line, &self.key) {
            Some(t) => Incoming::Text(t),
            None => match decode_frame(line) {
                Some(_) => Incoming::Undecryptable,
                None => Incoming::Malformed,
            },
        }
    }

    /// The stream ended or failed: true the first time only, when the
    /// client must be told that the server is gone.
    pub fn on_end(&mut self) -> (r: bool)
        ensures
            final(self).closed,
            final(self).key == old(self).key,
            r == !old(self).closed,
    {
        let r = !self.closed;
        self.closed = true;
        r
    }
}

} // verus!
