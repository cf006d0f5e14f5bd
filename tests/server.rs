use tcp_chat::frame::{encode_frame, open_frame};
use tcp_chat::reader::{LineBuffer, ServerPhase, ServerReaction, ServerReader};
use tcp_chat::registry::{fits, notice_of, Dispatcher, Outbound, Registry, ServerEvent};

const KEY: [u8; 32] = *b"0123456789abcdef0123456789abcdef";

fn join(name: &str, handle: u64) -> ServerEvent {
    ServerEvent::NewClient { username: name.to_string(), handle }
}

fn leave(name: &str) -> ServerEvent {
    ServerEvent::ClientDisconnected { username: name.to_string() }
}

fn chat(sender: &str, text: &str) -> ServerEvent {
    ServerEvent::ChatMessage { sender: sender.to_string(), text: text.to_string() }
}

fn opened(out: &[Outbound]) -> Vec<(String, u64, String)> {
    let mut v: Vec<(String, u64, String)> = out
        .iter()
        .map(|o| (o.recipient.clone(), o.handle, open_frame(&o.frame, &KEY).unwrap()))
        .collect();
    v.sort();
    v
}

fn forwarded(r: ServerReaction) -> ServerEvent {
    match r {
        ServerReaction::Forward(ev) => ev,
        _ => panic!("expected an event"),
    }
}

#[test]
fn notices_have_their_wording() {
    assert_eq!(notice_of(&join("ann", 1)), "ann has joined chat.");
    assert_eq!(notice_of(&leave("ann")), "ann has left chat.");
    assert_eq!(notice_of(&chat("ann", "hi")), "[ann]: hi");
    assert!(fits(&chat("ann", "hi")));
}

#[test]
fn registry_tracks_latest_event_per_name() {
    let mut r = Registry::new();
    let events = vec![
        join("a", 1),
        join("b", 2),
        chat("a", "x"),
        leave("a"),
        join("c", 3),
        leave("zed"),
        join("a", 4),
        leave("b"),
        join("b", 5),
        leave("b"),
    ];
    for ev in events {
        r.apply(ev);
    }
    assert_eq!(r.len(), 2);
    let d = r.apply(chat("nobody", "ping"));
    let mut names: Vec<(String, u64)> = d.iter().map(|x| (x.recipient.clone(), x.handle)).collect();
    names.sort();
    assert_eq!(names, vec![("a".to_string(), 4), ("c".to_string(), 3)]);
}

#[test]
fn duplicate_join_overwrites_handle() {
    let mut r = Registry::new();
    r.apply(join("a", 1));
    r.apply(join("a", 9));
    assert_eq!(r.len(), 1);
    let d = r.apply(chat("x", "y"));
    assert_eq!(d.len(), 1);
    assert_eq!(d[0].handle, 9);
}

#[test]
fn leave_of_absent_name_is_no_op() {
    let mut r = Registry::new();
    r.apply(join("a", 1));
    let d = r.apply(leave("ghost"));
    assert_eq!(r.len(), 1);
    assert_eq!(d.len(), 1);
    assert_eq!(d[0].text, "ghost has left chat.");
}

#[test]
fn chat_never_goes_back_to_sender() {
    let mut r = Registry::new();
    r.apply(join("a", 1));
    r.apply(join("b", 2));
    r.apply(join("c", 3));
    let d = r.apply(chat("b", "hello"));
    assert_eq!(d.len(), 2);
    assert!(d.iter().all(|x| x.recipient != "b" && x.handle != 2));
    assert!(d.iter().all(|x| x.text == "[b]: hello"));
}

#[test]
fn join_notice_goes_to_others_only() {
    let mut disp = Dispatcher::new(KEY);
    assert!(disp.process(join("a", 1)).is_empty());
    let out = disp.process(join("b", 2));
    assert_eq!(opened(&out), vec![("a".to_string(), 1, "b has joined chat.".to_string())]);
    assert_eq!(disp.len(), 2);
}

#[test]
fn each_recipient_gets_its_own_nonce() {
    let mut disp = Dispatcher::new(KEY);
    disp.process(join("a", 1));
    disp.process(join("b", 2));
    disp.process(join("c", 3));
    let out = disp.process(chat("a", "same text"));
    assert_eq!(out.len(), 2);
    assert_ne!(out[0].frame[..24], out[1].frame[..24]);
}

#[test]
fn handshake_and_chat_scenario() {
    let mut disp = Dispatcher::new(KEY);
    let mut ra = ServerReader::new(1, KEY);
    let mut rb = ServerReader::new(2, KEY);

    let ev = forwarded(ra.on_line(&encode_frame("A", &KEY)));
    assert!(disp.process(ev).is_empty());

    let ev = forwarded(rb.on_line(&encode_frame("B", &KEY)));
    let out = disp.process(ev);
    assert_eq!(opened(&out), vec![("A".to_string(), 1, "B has joined chat.".to_string())]);

    let ev = forwarded(ra.on_line(&encode_frame("hello", &KEY)));
    let out = disp.process(ev);
    assert_eq!(opened(&out), vec![("B".to_string(), 2, "[A]: hello".to_string())]);

    let ev = forwarded(ra.on_end());
    let out = disp.process(ev);
    assert_eq!(opened(&out), vec![("B".to_string(), 2, "A has left chat.".to_string())]);
    assert!(matches!(ra.on_end(), ServerReaction::Ignore));

    let ev = forwarded(rb.on_line(&encode_frame("anyone?", &KEY)));
    assert!(disp.process(ev).is_empty());
    assert_eq!(disp.len(), 1);
}

#[test]
fn malformed_frame_keeps_connection() {
    let mut r = ServerReader::new(7, KEY);
    forwarded(r.on_line(&encode_frame("eve", &KEY)));
    assert!(matches!(r.on_line(b"garbage"), ServerReaction::Drop));
    assert!(matches!(r.phase, ServerPhase::Established { .. }));
    match forwarded(r.on_line(&encode_frame("still here", &KEY))) {
        ServerEvent::ChatMessage { sender, text } => {
            assert_eq!(sender, "eve");
            assert_eq!(text, "still here");
        }
        _ => panic!("expected a chat message"),
    }
}

#[test]
fn undecryptable_chat_is_dropped() {
    let mut r = ServerReader::new(7, KEY);
    forwarded(r.on_line(&encode_frame("eve", &KEY)));
    let other = [9u8; 32];
    assert!(matches!(r.on_line(&encode_frame("x", &other)), ServerReaction::Drop));
    assert!(matches!(r.phase, ServerPhase::Established { .. }));
}

#[test]
fn bad_handshake_is_rejected() {
    let mut r = ServerReader::new(3, KEY);
    assert!(matches!(r.on_line(b"not a frame"), ServerReaction::Reject));
    assert!(matches!(r.phase, ServerPhase::Closed));
    assert!(matches!(r.on_line(&encode_frame("late", &KEY)), ServerReaction::Ignore));
    assert!(matches!(r.on_end(), ServerReaction::Ignore));
}

#[test]
fn end_before_handshake_emits_nothing() {
    let mut r = ServerReader::new(3, KEY);
    assert!(matches!(r.on_end(), ServerReaction::Ignore));
    assert!(matches!(r.phase, ServerPhase::Closed));
}

#[test]
fn username_and_text_are_trimmed() {
    let mut r = ServerReader::new(4, KEY);
    match forwarded(r.on_line(&encode_frame("  bob \t", &KEY))) {
        ServerEvent::NewClient { username, handle } => {
            assert_eq!(username, "bob");
            assert_eq!(handle, 4);
        }
        _ => panic!("expected a join"),
    }
    match forwarded(r.on_line(&encode_frame("\u{3000}hi there\n", &KEY))) {
        ServerEvent::ChatMessage { text, .. } => assert_eq!(text, "hi there"),
        _ => panic!("expected a chat message"),
    }
}

#[test]
fn disconnect_emitted_once() {
    let mut r = ServerReader::new(5, KEY);
    forwarded(r.on_line(&encode_frame("zoe", &KEY)));
    match forwarded(r.on_end()) {
        ServerEvent::ClientDisconnected { username } => assert_eq!(username, "zoe"),
        _ => panic!("expected a leave"),
    }
    assert!(matches!(r.on_end(), ServerReaction::Ignore));
}

#[test]
fn line_buffer_splits_and_keeps_rest() {
    let mut b = LineBuffer::new();
    assert!(b.push(b"ab").is_empty());
    let lines = b.push(b"c\nde\n\nf");
    assert_eq!(lines, vec![b"abc".to_vec(), b"de".to_vec(), Vec::new()]);
    let lines = b.push(b"g\n");
    assert_eq!(lines, vec![b"fg".to_vec()]);
    assert!(b.push(b"").is_empty());
}

#[test]
fn two_frames_in_one_read() {
    let mut b = LineBuffer::new();
    let mut bytes = encode_frame("one", &KEY);
    bytes.extend_from_slice(&encode_frame("two", &KEY));
    let lines = b.push(&bytes);
    assert_eq!(lines.len(), 2);
    assert_eq!(open_frame(&lines[0], &KEY), Some("one".to_string()));
    assert_eq!(open_frame(&lines[1], &KEY), Some("two".to_string()));
}
