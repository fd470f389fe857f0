use chatter::codec::{pad_frame, strip_frame, FrameError};
use chatter::record::{decode, encode, frame_quoted, read_record, record_text, Message};
use chatter::registry::Registry;
use chatter::server::{reader_step, ReadOutcome, ReaderStep, Relay};
use chatter::util::{classify_line, parse_input, Input};

const SIZE: usize = 512;

#[test]
fn pad_frame_fills_with_zeros() {
    let f = pad_frame(b"abc", 8).unwrap();
    assert_eq!(f, vec![b'a', b'b', b'c', 0, 0, 0, 0, 0]);
}

#[test]
fn pad_frame_exact_fit() {
    let f = pad_frame(b"abcd", 4).unwrap();
    assert_eq!(f, b"abcd".to_vec());
}

#[test]
fn pad_frame_too_large() {
    assert_eq!(pad_frame(b"abcde", 4), Err(FrameError::TooLarge));
}

#[test]
fn pad_frame_refuses_zero_byte() {
    assert_eq!(pad_frame(&[1, 0, 2], 8), Err(FrameError::Malformed));
}

#[test]
fn strip_frame_truncated() {
    assert_eq!(strip_frame(&[1, 2, 3], 4), Err(FrameError::Truncated));
}

#[test]
fn strip_frame_stops_at_first_zero() {
    assert_eq!(strip_frame(&[7, 8, 0, 9, 0], 5).unwrap(), vec![7, 8]);
    assert_eq!(strip_frame(&[7, 8, 9], 3).unwrap(), vec![7, 8, 9]);
    assert_eq!(strip_frame(&[0, 8, 9], 3).unwrap(), Vec::<u8>::new());
}

#[test]
fn strip_frame_reads_only_one_frame() {
    assert_eq!(strip_frame(&[1, 2, 3, 4, 5], 3).unwrap(), vec![1, 2, 3]);
}

#[test]
fn padding_invariance_on_bytes() {
    let f = pad_frame(b"payload", 10).unwrap();
    let mut longer = f.clone();
    longer.extend_from_slice(&[0; 20]);
    assert_eq!(strip_frame(&f, 10).unwrap(), b"payload".to_vec());
    assert_eq!(strip_frame(&longer, 30).unwrap(), b"payload".to_vec());
}

#[test]
fn record_text_layout() {
    assert_eq!(
        record_text("\"a\"", "\"b\""),
        "{\"from\":\"a\",\"content\":\"b\"}".to_string()
    );
}

#[test]
fn encode_writes_json_record() {
    let m = Message::new("127.0.0.1:6001", "hello");
    let f = encode(&m, SIZE).unwrap();
    assert_eq!(f.len(), SIZE);
    let text = b"{\"from\":\"127.0.0.1:6001\",\"content\":\"hello\"}";
    assert_eq!(&f[..text.len()], &text[..]);
    assert!(f[text.len()..].iter().all(|b| *b == 0));
}

#[test]
fn encode_escapes_special_characters() {
    let m = Message::new("a", "say \"hi\"\n\0");
    let f = encode(&m, SIZE).unwrap();
    let text = b"{\"from\":\"a\",\"content\":\"say \\\"hi\\\"\\n\\u0000\"}";
    assert_eq!(&f[..text.len()], &text[..]);
    let back = decode(&f, SIZE).unwrap();
    assert_eq!(back.content, "say \"hi\"\n\0");
}

#[test]
fn round_trip_message() {
    let m = Message::new("10.0.0.2:4000", "héllo wörld ✓");
    let f = encode(&m, SIZE).unwrap();
    let back = decode(&f, SIZE).unwrap();
    assert_eq!(back.from, m.from);
    assert_eq!(back.content, m.content);
}

#[test]
fn round_trip_empty_content() {
    let m = Message::new("127.0.0.1:1", "");
    let back = decode(&encode(&m, SIZE).unwrap(), SIZE).unwrap();
    assert_eq!(back.from, "127.0.0.1:1");
    assert_eq!(back.content, "");
}

#[test]
fn round_trip_largest_fitting_content() {
    // {"from":"x","content":""} takes 25 bytes
    let content = "y".repeat(SIZE - 25);
    let m = Message::new("x", &content);
    let f = encode(&m, SIZE).unwrap();
    assert_eq!(f[SIZE - 1], b'}');
    let back = decode(&f, SIZE).unwrap();
    assert_eq!(back.content, content);
}

#[test]
fn encode_too_large() {
    let content = "y".repeat(SIZE - 24);
    let m = Message::new("x", &content);
    assert_eq!(encode(&m, SIZE).err(), Some(FrameError::TooLarge));
}

#[test]
fn decode_with_trailing_zeros() {
    let m = Message::new("127.0.0.1:6001", "hello");
    let mut f = encode(&m, SIZE).unwrap();
    f.extend_from_slice(&[0; 64]);
    let back = decode(&f, SIZE + 64).unwrap();
    assert_eq!(back.from, "127.0.0.1:6001");
    assert_eq!(back.content, "hello");
}

#[test]
fn decode_truncated_frame() {
    let m = Message::new("127.0.0.1:6001", "hello");
    let f = encode(&m, SIZE).unwrap();
    assert_eq!(decode(&f[..100], SIZE).err(), Some(FrameError::Truncated));
    assert_eq!(decode(&[], SIZE).err(), Some(FrameError::Truncated));
}

#[test]
fn decode_invalid_utf8() {
    let f = pad_frame(&[0xff, 0xfe], 16).unwrap();
    assert_eq!(decode(&f, 16).err(), Some(FrameError::Malformed));
}

#[test]
fn decode_not_a_record() {
    let f = pad_frame(b"hello", 16).unwrap();
    assert_eq!(decode(&f, 16).err(), Some(FrameError::Malformed));
    let f = pad_frame(b"{\"from\":\"a\"}", 16).unwrap();
    assert_eq!(decode(&f, 16).err(), Some(FrameError::Malformed));
    let f = pad_frame(b"{\"from\":1,\"content\":\"c\"}", 32).unwrap();
    assert_eq!(decode(&f, 32).err(), Some(FrameError::Malformed));
}

#[test]
fn read_record_unescapes() {
    let r = read_record(b"{\"content\":\"a\\tb\",\"from\":\"p\"}".to_vec()).unwrap();
    assert_eq!(r.from, "p");
    assert_eq!(r.content, "a\tb");
}

#[test]
fn frame_quoted_too_large() {
    assert_eq!(frame_quoted("\"a\"", "\"b\"", 10), Err(FrameError::TooLarge));
    assert_eq!(frame_quoted("\"a\"", "\"b\"", 26).unwrap().len(), 26);
}

#[test]
fn registry_registers_distinct_peers() {
    let mut r = Registry::new();
    assert_eq!(r.len(), 0);
    assert!(r.register("a:1"));
    assert!(r.register("b:2"));
    assert!(r.register("c:3"));
    assert_eq!(r.len(), 3);
    assert_eq!(r.addresses(), vec!["a:1".to_string(), "b:2".to_string(), "c:3".to_string()]);
}

#[test]
fn registry_refuses_duplicate() {
    let mut r = Registry::new();
    assert!(r.register("a:1"));
    assert!(!r.register("a:1"));
    assert_eq!(r.len(), 1);
    assert!(r.contains("a:1"));
    assert!(!r.contains("b:2"));
}

#[test]
fn recipients_exclude_origin() {
    let mut r = Registry::new();
    r.register("a:1");
    r.register("b:2");
    r.register("c:3");
    assert_eq!(r.recipients("b:2"), vec!["a:1".to_string(), "c:3".to_string()]);
    assert_eq!(r.recipients("z:9").len(), 3);
}

#[test]
fn prune_removes_only_failed() {
    let mut r = Registry::new();
    r.register("a:1");
    r.register("b:2");
    r.register("c:3");
    let targets = r.recipients("origin:0");
    assert_eq!(targets.len(), 3);
    r.prune(&vec!["c:3".to_string()]);
    assert_eq!(r.addresses(), vec!["a:1".to_string(), "b:2".to_string()]);
    r.prune(&vec!["q:7".to_string()]);
    assert_eq!(r.len(), 2);
}

#[test]
fn reader_step_idle_and_closed() {
    assert!(matches!(reader_step("a:1", ReadOutcome::Idle, SIZE), ReaderStep::Skip));
    assert!(matches!(reader_step("a:1", ReadOutcome::Closed, SIZE), ReaderStep::Disconnect));
}

#[test]
fn reader_step_uses_observed_address() {
    let f = encode(&Message::new("claimed:1", "hi"), SIZE).unwrap();
    match reader_step("10.0.0.9:555", ReadOutcome::Frame(f), SIZE) {
        ReaderStep::Forward(m) => {
            assert_eq!(m.from, "10.0.0.9:555");
            assert_eq!(m.content, "hi");
        }
        _ => panic!("expected a message"),
    }
}

#[test]
fn reader_step_skips_bad_frames() {
    let short = vec![b'x'; 10];
    assert!(matches!(reader_step("a:1", ReadOutcome::Frame(short), SIZE), ReaderStep::Skip));
    let junk = pad_frame(b"not json", SIZE).unwrap();
    assert!(matches!(reader_step("a:1", ReadOutcome::Frame(junk), SIZE), ReaderStep::Skip));
}

#[test]
fn chat_scenario() {
    let mut relay = Relay::new(SIZE);
    let b = "127.0.0.1:50001";
    let a = "127.0.0.1:50002";
    assert!(relay.accept(b));
    assert!(relay.accept(a));
    let sent = encode(&Message::new(a, "hello"), SIZE).unwrap();
    let m = match reader_step(a, ReadOutcome::Frame(sent), SIZE) {
        ReaderStep::Forward(m) => m,
        _ => panic!("expected a message"),
    };
    let plan = relay.plan_broadcast(&m).unwrap();
    assert_eq!(plan.recipients, vec![b.to_string()]);
    let got = decode(&plan.frame, SIZE).unwrap();
    assert_eq!(got.from, a);
    assert_eq!(got.content, "hello");

    // B has gone: the next fan-out from A fails on B only.
    let plan = relay.plan_broadcast(&Message::new(a, "again")).unwrap();
    assert_eq!(plan.recipients, vec![b.to_string()]);
    relay.finish_broadcast(&plan.recipients);
    assert_eq!(relay.peer_addresses(), vec![a.to_string()]);
}

#[test]
fn fan_out_isolates_failure() {
    let mut relay = Relay::new(SIZE);
    for p in ["a:1", "b:2", "c:3", "o:0"] {
        relay.accept(p);
    }
    let plan = relay.plan_broadcast(&Message::new("o:0", "x")).unwrap();
    assert_eq!(plan.recipients, vec!["a:1".to_string(), "b:2".to_string(), "c:3".to_string()]);
    relay.finish_broadcast(&vec!["c:3".to_string()]);
    assert_eq!(
        relay.peer_addresses(),
        vec!["a:1".to_string(), "b:2".to_string(), "o:0".to_string()]
    );
}

#[test]
fn relay_disconnect_and_accept_again() {
    let mut relay = Relay::new(64);
    assert_eq!(relay.frame_size(), 64);
    relay.accept("a:1");
    assert!(!relay.accept("a:1"));
    relay.disconnect("a:1");
    assert!(relay.peer_addresses().is_empty());
    assert!(relay.accept("a:1"));
}

#[test]
fn plan_broadcast_too_large() {
    let relay = Relay::new(16);
    assert!(matches!(
        relay.plan_broadcast(&Message::new("a:1", "far too long for this frame")),
        Err(FrameError::TooLarge)
    ));
}

#[test]
fn parse_input_quit_and_message() {
    assert!(matches!(parse_input(":q\n"), Input::Quit));
    assert!(matches!(parse_input("  :q  "), Input::Quit));
    match parse_input("  hello there \n") {
        Input::Message(m) => assert_eq!(m, "hello there"),
        Input::Quit => panic!("expected a message"),
    }
    match parse_input(":quit") {
        Input::Message(m) => assert_eq!(m, ":quit"),
        Input::Quit => panic!("expected a message"),
    }
}

#[test]
fn classify_line_exact() {
    assert!(matches!(classify_line(":q"), Input::Quit));
    assert!(matches!(classify_line(" :q"), Input::Message(_)));
    assert!(matches!(classify_line(""), Input::Message(_)));
}

#[test]
fn decode_same_message_for_two_frame_sizes() {
    let m = Message::new("127.0.0.1:7", "same");
    let small = encode(&m, 64).unwrap();
    let large = encode(&m, 1024).unwrap();
    assert_eq!(small.len(), 64);
    assert_eq!(large.len(), 1024);
    let a = decode(&small, 64).unwrap();
    let b = decode(&large, 1024).unwrap();
    assert_eq!(a.from, b.from);
    assert_eq!(a.content, b.content);
    assert_eq!(b.content, "same");
}

#[test]
fn plan_broadcast_frame_is_frame_size() {
    let mut relay = Relay::new(SIZE);
    relay.accept("b:2");
    let plan = relay.plan_broadcast(&Message::new("a:1", "hello")).unwrap();
    assert_eq!(plan.frame.len(), SIZE);
    let got = decode(&plan.frame, SIZE).unwrap();
    assert_eq!(got.from, "a:1");
    assert_eq!(got.content, "hello");
}
