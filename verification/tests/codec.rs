use chat_proto::common::{recieve_message, Action, ParsedMessage, SendMessage};
use chat_proto::reader::FrameReader;
use chat_proto::stream::ByteStream;
use chat_proto::text::push_decimal;
use chat_proto::wire::MAX_LEN;

fn encode(args: &[&[u8]]) -> Vec<u8> {
    let mut msg = SendMessage { words: Vec::new() };
    for arg in args {
        msg.add_argument(arg);
    }
    let mut out = Vec::new();
    assert!(msg.send(&mut out));
    out
}

fn decode(bytes: Vec<u8>) -> Option<Vec<Vec<u8>>> {
    let mut stream = ByteStream::new(bytes);
    recieve_message(&mut stream).map(|msg| msg.words().clone())
}

fn le(n: u64) -> Vec<u8> {
    n.to_le_bytes().to_vec()
}

#[test]
fn action_from_keywords() {
    assert_eq!(Action::new(b"NICK"), Action::NICK);
    assert_eq!(Action::new(b"MSG"), Action::MSG);
    assert_eq!(Action::new(b"XYZ"), Action::UNKNOWN);
}

#[test]
fn action_match_is_exact() {
    assert_eq!(Action::new(b""), Action::UNKNOWN);
    assert_eq!(Action::new(b"nick"), Action::UNKNOWN);
    assert_eq!(Action::new(b"NICK "), Action::UNKNOWN);
    assert_eq!(Action::new(b"MSGS"), Action::UNKNOWN);
    assert_eq!(Action::new(b"MS"), Action::UNKNOWN);
    assert_eq!(Action::new(b"FAIL"), Action::UNKNOWN);
}

#[test]
fn action_to_keywords() {
    assert_eq!(Action::NICK.to_bytes(), b"NICK");
    assert_eq!(Action::MSG.to_bytes(), b"MSG");
    assert_eq!(Action::UNKNOWN.to_bytes(), b"FAIL");
}

#[test]
fn action_of_its_own_keyword() {
    for action in [Action::NICK, Action::MSG, Action::UNKNOWN] {
        assert_eq!(Action::new(action.to_bytes()), action);
    }
}

#[test]
fn new_message_starts_with_the_keyword() {
    let msg = SendMessage::new(Action::MSG);
    assert_eq!(msg.words.len(), 1);
    assert_eq!(msg.words[0], b"MSG");
    assert_eq!(msg.total_length(), Some(11));
}

#[test]
fn total_length_counts_prefix_and_payload() {
    let mut msg = SendMessage::new(Action::NICK);
    assert_eq!(msg.total_length(), Some(12));
    msg.add_argument(b"alice");
    assert_eq!(msg.total_length(), Some(25));
    msg.add_argument(b"");
    assert_eq!(msg.total_length(), Some(33));
}

#[test]
fn send_writes_the_exact_bytes() {
    let mut msg = SendMessage::new(Action::NICK);
    msg.add_argument(b"bob");
    let mut out = vec![0xaa];
    assert!(msg.send(&mut out));
    let expected: Vec<u8> = vec![
        0xaa, // what was there stays
        23, 0, 0, 0, 0, 0, 0, 0, // total: (8 + 4) + (8 + 3)
        4, 0, 0, 0, 0, 0, 0, 0, b'N', b'I', b'C', b'K', //
        3, 0, 0, 0, 0, 0, 0, 0, b'b', b'o', b'b',
    ];
    assert_eq!(out, expected);
}

#[test]
fn send_of_no_arguments_is_a_zero_total() {
    assert_eq!(encode(&[]), vec![0u8; 8]);
}

#[test]
fn round_trip_of_a_chat_message() {
    let bytes = encode(&[b"MSG", b"alice", b"hi"]);
    assert_eq!(decode(bytes), Some(vec![b"MSG".to_vec(), b"alice".to_vec(), b"hi".to_vec()]));
}

#[test]
fn round_trip_of_no_arguments() {
    assert_eq!(decode(encode(&[])), Some(Vec::new()));
}

#[test]
fn round_trip_of_empty_arguments() {
    let bytes = encode(&[b"", b"", b"x", b""]);
    assert_eq!(decode(bytes), Some(vec![vec![], vec![], b"x".to_vec(), vec![]]));
}

#[test]
fn round_trip_of_arbitrary_bytes() {
    let all: Vec<u8> = (0..=255).collect();
    let bytes = encode(&[&all, &[0xff, 0x00, 0xfe]]);
    assert_eq!(decode(bytes), Some(vec![all.clone(), vec![0xff, 0x00, 0xfe]]));
}

#[test]
fn round_trip_at_the_size_limit() {
    let payload = vec![7u8; MAX_LEN as usize - 8];
    let bytes = encode(&[&payload]);
    assert_eq!(bytes.len(), 8 + MAX_LEN as usize);
    assert_eq!(decode(bytes), Some(vec![payload]));
}

#[test]
fn one_byte_over_the_size_limit_is_rejected() {
    let payload = vec![7u8; MAX_LEN as usize - 7];
    let bytes = encode(&[&payload]);
    let mut stream = ByteStream::new(bytes);
    assert!(recieve_message(&mut stream).is_none());
    assert_eq!(stream.position(), 8);
}

#[test]
fn decode_takes_exactly_one_frame() {
    let mut bytes = encode(&[b"NICK", b"ann"]);
    let first_len = bytes.len();
    bytes.extend(encode(&[b"MSG", b"", b"hello"]));
    let total_len = bytes.len();
    let mut stream = ByteStream::new(bytes);
    let first = recieve_message(&mut stream).unwrap();
    assert_eq!(first.words(), &vec![b"NICK".to_vec(), b"ann".to_vec()]);
    assert_eq!(stream.position(), first_len);
    let second = recieve_message(&mut stream).unwrap();
    assert_eq!(second.words(), &vec![b"MSG".to_vec(), vec![], b"hello".to_vec()]);
    assert_eq!(stream.position(), total_len);
    assert_eq!(stream.available(), 0);
    assert!(recieve_message(&mut stream).is_none());
}

#[test]
fn oversized_total_is_rejected_at_its_field() {
    let mut bytes = le(MAX_LEN + 1);
    bytes.extend(vec![0u8; 100]);
    let mut stream = ByteStream::new(bytes);
    assert!(recieve_message(&mut stream).is_none());
    assert_eq!(stream.position(), 8);
    assert_eq!(stream.available(), 100);
}

#[test]
fn huge_total_is_rejected_at_its_field() {
    let mut bytes = le(u64::MAX);
    bytes.extend(vec![1u8; 16]);
    let mut stream = ByteStream::new(bytes);
    assert!(recieve_message(&mut stream).is_none());
    assert_eq!(stream.position(), 8);
}

#[test]
fn oversized_argument_is_rejected_at_its_field() {
    let mut bytes = le(40);
    bytes.extend(le(3));
    bytes.extend(b"MSG");
    bytes.extend(le(MAX_LEN + 1));
    bytes.extend(vec![0u8; 64]);
    let mut stream = ByteStream::new(bytes);
    assert!(recieve_message(&mut stream).is_none());
    assert_eq!(stream.position(), 8 + 11 + 8);
    assert_eq!(stream.available(), 64);
}

#[test]
fn argument_beyond_the_total_is_rejected() {
    // The total says 10, the one argument takes 12.
    let mut bytes = le(10);
    bytes.extend(le(4));
    bytes.extend(b"NICK");
    bytes.extend(b"trailing");
    let mut stream = ByteStream::new(bytes);
    assert!(recieve_message(&mut stream).is_none());
    assert_eq!(stream.position(), 8 + 12);
}

#[test]
fn total_beyond_the_arguments_reads_on_and_fails() {
    // The total says 20, the one argument takes 12: the reader goes on to
    // read an argument out of what follows, and the stream ends.
    let mut bytes = le(20);
    bytes.extend(le(4));
    bytes.extend(b"NICK");
    let mut stream = ByteStream::new(bytes);
    assert!(recieve_message(&mut stream).is_none());
    assert_eq!(stream.available(), 0);
}

#[test]
fn truncated_streams_are_rejected() {
    let whole = encode(&[b"MSG", b"alice", b"hi"]);
    for cut in 0..whole.len() {
        let mut stream = ByteStream::new(whole[..cut].to_vec());
        assert!(recieve_message(&mut stream).is_none(), "cut at {}", cut);
        assert_eq!(stream.position(), cut);
    }
}

#[test]
fn empty_stream_is_rejected() {
    let mut stream = ByteStream::new(Vec::new());
    assert!(recieve_message(&mut stream).is_none());
    assert_eq!(stream.position(), 0);
}

#[test]
fn stream_reads_exactly_or_fails() {
    let mut stream = ByteStream::new(vec![1, 2, 3, 4, 5]);
    assert_eq!(stream.available(), 5);
    assert_eq!(stream.read_exact(2), Some(vec![1, 2]));
    assert_eq!(stream.position(), 2);
    assert_eq!(stream.read_exact(0), Some(vec![]));
    assert_eq!(stream.read_exact(4), None);
    assert_eq!(stream.position(), 5);
    assert_eq!(stream.available(), 0);
    assert_eq!(stream.read_exact(1), None);
}

#[test]
fn reader_asks_for_each_piece_in_turn() {
    let reader = FrameReader::new();
    assert_eq!(reader.wanted(), 8);
    let reader = reader.feed(le(8 + 3 + 8));
    assert_eq!(reader.wanted(), 8);
    let reader = reader.feed(le(3));
    assert_eq!(reader.wanted(), 3);
    let reader = reader.feed(b"MSG".to_vec());
    assert_eq!(reader.wanted(), 8);
    let reader = reader.feed(le(0));
    assert_eq!(reader.wanted(), 0);
    assert!(!reader.has_failed());
    let msg = reader.finish().unwrap();
    assert_eq!(msg.words(), &vec![b"MSG".to_vec(), vec![]]);
}

#[test]
fn reader_stops_at_an_oversized_total() {
    let reader = FrameReader::new().feed(le(MAX_LEN + 1));
    assert!(reader.has_failed());
    assert_eq!(reader.wanted(), 0);
    assert!(reader.finish().is_none());
}

#[test]
fn reader_accepts_the_largest_total() {
    let reader = FrameReader::new().feed(le(MAX_LEN));
    assert!(!reader.has_failed());
    assert_eq!(reader.wanted(), 8);
}

#[test]
fn reader_stops_at_an_oversized_argument() {
    let reader = FrameReader::new().feed(le(100)).feed(le(MAX_LEN + 1));
    assert!(reader.has_failed());
    assert_eq!(reader.wanted(), 0);
}

#[test]
fn reader_fails_on_a_short_chunk() {
    let reader = FrameReader::new().feed(vec![1, 0, 0]);
    assert!(reader.has_failed());
    let reader = FrameReader::new().feed(le(20)).feed(le(4)).feed(b"NIC".to_vec());
    assert!(reader.has_failed());
}

#[test]
fn reader_is_unfinished_in_the_middle() {
    let reader = FrameReader::new().feed(le(20)).feed(le(4));
    assert!(!reader.has_failed());
    assert_eq!(reader.wanted(), 4);
    assert!(reader.finish().is_none());
}

#[test]
fn reader_stays_done_and_stays_failed() {
    let done = FrameReader::new().feed(le(0)).feed(vec![1, 2, 3]);
    assert!(!done.has_failed());
    assert_eq!(done.finish().unwrap().words().len(), 0);
    let failed = FrameReader::new().feed(le(MAX_LEN + 1)).feed(le(0));
    assert!(failed.has_failed());
}

#[test]
fn parse_splits_action_from_arguments() {
    let mut stream = ByteStream::new(encode(&[b"MSG", b"alice", b"hi"]));
    let msg = recieve_message(&mut stream).unwrap();
    let parsed = ParsedMessage::parse_msg(&msg).unwrap();
    assert_eq!(parsed.action, Action::MSG);
    assert_eq!(parsed.args, &[b"alice".to_vec(), b"hi".to_vec()][..]);
}

#[test]
fn parse_of_an_unknown_keyword() {
    let mut stream = ByteStream::new(encode(&[b"QUIT"]));
    let msg = recieve_message(&mut stream).unwrap();
    let parsed = ParsedMessage::parse_msg(&msg).unwrap();
    assert_eq!(parsed.action, Action::UNKNOWN);
    assert!(parsed.args.is_empty());
}

#[test]
fn parse_of_an_empty_frame_is_none() {
    let mut stream = ByteStream::new(encode(&[]));
    let msg = recieve_message(&mut stream).unwrap();
    assert!(ParsedMessage::parse_msg(&msg).is_none());
}

#[test]
fn decimal_has_no_leading_zeros() {
    for (n, expected) in [
        (0usize, "0"),
        (7, "7"),
        (9, "9"),
        (10, "10"),
        (11, "11"),
        (99, "99"),
        (100, "100"),
        (1205, "1205"),
        (65536, "65536"),
        (4294967295, "4294967295"),
    ] {
        let mut text = String::new();
        push_decimal(&mut text, n);
        assert_eq!(text, expected);
    }
}

#[test]
fn decimal_is_appended() {
    let mut text = String::from("n = ");
    push_decimal(&mut text, 42);
    assert_eq!(text, "n = 42");
    let mut text = String::new();
    push_decimal(&mut text, usize::MAX);
    assert_eq!(text, usize::MAX.to_string());
}
