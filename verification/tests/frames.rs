//! Frames that arrive in chunks, and the topics that they arrive on.

use wifi_display::decoding::{decode_payload, BinaryPayload, ChunkMetadata};
use wifi_display::short_text::short_text;
use wifi_display::tasks::chunks::{
    accept_chunk, frame_of, process_chunk, Accepted, ChunkMeta, FrameMetadata,
};
use wifi_display::tasks::subscriptions::{is_reserved_topic, Change, Subscriptions};
use wifi_display::tasks::task_display_handler::{DisplayMessage, Frame, DISPLAY_SIZE_IN_BYTES};
use wifi_display::tasks::task_run;

fn part(index: usize, total: usize) -> FrameMetadata {
    FrameMetadata {
        requires_response: false,
        chunk_index: index,
        total_chunks: total,
        timestamp: Some(77),
        unsubscribe_all: true,
    }
}

fn topics(list: &[&str]) -> heapless::Vec<heapless::String<64>, 4> {
    let mut all = heapless::Vec::new();
    for topic in list {
        all.push(short_text(topic).unwrap()).unwrap();
    }
    all
}

fn held(subscriptions: &Subscriptions) -> Vec<String> {
    subscriptions.topics().iter().map(|t| t.as_str().to_string()).collect()
}

#[test]
fn metadata_of_a_live_frame() {
    let chunk = ChunkMetadata { requires_response: true, chunk_index: 3, total_chunks: 5 };
    let (len, metadata) = frame_of(Ok((12, chunk)), Some(part(9, 9))).unwrap();
    assert_eq!(len, 12);
    assert_eq!((metadata.requires_response, metadata.chunk_index), (true, 3));
    assert_eq!(metadata.total_chunks, 5);
    assert_eq!(metadata.timestamp, Some(77));
    assert!(metadata.unsubscribe_all);
    let (_, metadata) = frame_of(Ok((12, chunk)), None).unwrap();
    assert_eq!(metadata.timestamp, None);
    assert!(!metadata.unsubscribe_all);
    assert_eq!(frame_of(Err("no"), Some(part(0, 1))).err(), Some("no"));
}

#[test]
fn chunks_make_up_a_frame() {
    let mut frame: Frame = [0xEE; DISPLAY_SIZE_IN_BYTES];
    let mut meta = ChunkMeta::new();
    let first = process_chunk(
        Ok((2, part(0, 2))),
        b"abzz",
        &mut meta,
        Some(&mut frame),
        |_| unreachable!(),
    )
    .unwrap();
    assert!(!first.send_response && first.success && !first.unsubscribe_all);
    assert_eq!(meta.offset, 2);
    let second = process_chunk(
        Ok((3, part(1, 2))),
        b"cde",
        &mut meta,
        Some(&mut frame),
        |m| m == DisplayMessage::RawBinary,
    )
    .unwrap();
    assert!(second.send_response && second.success && second.unsubscribe_all);
    assert!(second.clears_error);
    assert_eq!(second.timestamp, Some(77));
    assert_eq!(&frame[..6], b"abcde\0");
    assert_eq!(frame[DISPLAY_SIZE_IN_BYTES - 1], 0);
    assert_eq!(meta, ChunkMeta::new());
}

#[test]
fn frame_that_the_display_refuses() {
    let mut frame: Frame = [0; DISPLAY_SIZE_IN_BYTES];
    let mut meta = ChunkMeta::new();
    let r = process_chunk(Ok((1, part(0, 1))), b"a", &mut meta, Some(&mut frame), |_| false);
    let r = r.unwrap();
    assert!(r.send_response && !r.success && r.unsubscribe_all && !r.clears_error);
}

#[test]
fn chunk_that_finds_the_buffer_in_use() {
    let mut meta = ChunkMeta::new();
    let r = process_chunk(Ok((1, part(0, 1))), b"a", &mut meta, None, |_| unreachable!()).unwrap();
    assert!(!r.send_response && !r.success && !r.unsubscribe_all);
    assert_eq!((meta.total_chunks, meta.received_count), (1, 0));
    assert_eq!(accept_chunk(&mut meta, None, 0, 3, b"a"), Accepted::Locked);
    assert_eq!(meta.total_chunks, 3);
}

#[test]
fn chunk_that_could_not_be_decoded() {
    let mut meta = ChunkMeta::new();
    let r = process_chunk(Err("Failed to parse JSON"), b"", &mut meta, None, |_| unreachable!());
    assert_eq!(r, Err("Failed to parse JSON"));
}

#[test]
fn payload_is_decoded_from_base64() {
    let mut output = [0u8; 4];
    let payload =
        BinaryPayload { frame: "AQID", requires_response: true, chunk_index: 2, total_chunks: 5 };
    let (len, metadata) = decode_payload(Some(payload), &mut output).unwrap();
    assert_eq!(len, 3);
    assert_eq!(output, [1, 2, 3, 0]);
    assert_eq!((metadata.chunk_index, metadata.total_chunks), (2, 5));
    assert!(metadata.requires_response);
}

#[test]
fn payload_errors() {
    let mut output = [0u8; 2];
    assert_eq!(decode_payload(None, &mut output).unwrap_err(), "Failed to parse JSON");
    let bad = |frame| BinaryPayload {
        frame,
        requires_response: true,
        chunk_index: 0,
        total_chunks: 1,
    };
    // Three bytes do not fit into two.
    assert_eq!(
        decode_payload(Some(bad("AQID")), &mut output).unwrap_err(),
        "Failed to decode base64"
    );
    assert!(decode_payload(Some(bad("AQI=")), &mut output).is_ok());
    // No padding; bits that stand for nothing.
    assert!(decode_payload(Some(bad("AQI")), &mut output).is_err());
    assert!(decode_payload(Some(bad("AQJ=")), &mut output).is_err());
}

#[test]
fn run_task_takes_in_chunks() {
    let mut frame: Frame = [0; DISPLAY_SIZE_IN_BYTES];
    let mut meta = ChunkMeta::new();
    let metadata =
        |i| ChunkMetadata { requires_response: i == 0, chunk_index: i, total_chunks: 2 };
    let chunk = Ok((1, metadata(0)));
    assert_eq!(
        task_run::process_chunk(chunk, b"a", &mut meta, Some(&mut frame), |_| unreachable!()),
        Ok((true, false))
    );
    assert_eq!(
        task_run::process_chunk(Ok((1, metadata(1))), b"b", &mut meta, None, |_| unreachable!()),
        Ok((false, false))
    );
    assert_eq!(
        task_run::process_chunk(Ok((1, metadata(1))), b"b", &mut meta, Some(&mut frame), |_| true),
        Ok((true, true))
    );
    assert_eq!(&frame[..3], b"ab\0");
    assert_eq!(
        task_run::process_chunk(Err("bad"), b"", &mut meta, Some(&mut frame), |_| unreachable!()),
        Err("bad")
    );
}

#[test]
fn accepted_topic_is_remembered() {
    let mut s = Subscriptions::new(topics(&["a"]), false);
    s.queue(Some("b"), None, false, &["own"]);
    match s.next_change() {
        Change::Add(topic) => {
            assert_eq!(topic.as_str(), "b");
            s.report_added(topic, true);
        }
        _ => panic!("a topic was to be added"),
    }
    assert_eq!(held(&s), ["a", "b"]);
    assert!(matches!(s.next_change(), Change::Save));
    assert!(matches!(s.next_change(), Change::Settled));
    assert!(s.contains("b") && !s.contains("own"));
}

#[test]
fn refused_topic_is_not_remembered() {
    let mut s = Subscriptions::new(topics(&[]), false);
    s.queue(Some("b"), None, false, &[]);
    match s.next_change() {
        Change::Add(topic) => s.report_added(topic, false),
        _ => panic!("a topic was to be added"),
    }
    assert!(held(&s).is_empty());
    assert!(matches!(s.next_change(), Change::Settled));
}

#[test]
fn requests_that_are_ignored() {
    let mut s = Subscriptions::new(topics(&["a", "b", "c", "d"]), false);
    // Reserved, known, too many, too long, unknown.
    s.queue(Some("own"), None, false, &["own"]);
    s.queue(Some("a"), None, false, &["own"]);
    s.queue(Some("e"), None, false, &["own"]);
    s.queue(Some(&"x".repeat(65)), None, true, &["own"]);
    assert!(matches!(s.next_change(), Change::Drop(_)));
    let mut s = Subscriptions::new(topics(&["a"]), false);
    s.queue(None, Some("z"), false, &["own"]);
    assert!(matches!(s.next_change(), Change::Settled));
    assert!(is_reserved_topic("own", &["a", "own"]));
    assert!(!is_reserved_topic("b", &["a", "own"]));
}

#[test]
fn all_topics_are_dropped_before_a_new_one() {
    let mut s = Subscriptions::new(topics(&["a", "b"]), false);
    s.queue(Some("a"), None, true, &[]);
    for expected in ["b", "a"] {
        match s.next_change() {
            Change::Drop(topic) => assert_eq!(topic.as_str(), expected),
            _ => panic!("a topic was to be dropped"),
        }
        s.report_dropped(true);
    }
    match s.next_change() {
        Change::Add(topic) => s.report_added(topic, true),
        _ => panic!("a topic was to be added"),
    }
    assert_eq!(held(&s), ["a"]);
    assert!(matches!(s.next_change(), Change::Save));
}

#[test]
fn topic_to_unsubscribe_from() {
    for (keeps_refused, ok, left) in [(false, true, 1), (false, false, 1), (true, true, 1), (true, false, 2)]
    {
        let mut s = Subscriptions::new(topics(&["a", "b"]), keeps_refused);
        s.queue(None, Some("a"), false, &[]);
        match s.next_change() {
            Change::Remove(topic) => s.report_removed(topic.as_str(), ok),
            _ => panic!("a topic was to be removed"),
        }
        assert_eq!(held(&s).len(), left);
        assert_eq!(s.contains("a"), left == 2);
    }
    let mut s = Subscriptions::new(topics(&["a"]), false);
    s.queue_clear();
    assert!(matches!(s.next_change(), Change::Drop(_)));
}
