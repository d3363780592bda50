use chat_proto::common::{recieve_message, Action, ParsedMessage, RecieveMessage, SendMessage};
use chat_proto::registry::{Delivery, UserList};
use chat_proto::server::{Connection, Server};
use chat_proto::stream::ByteStream;

fn encode(args: &[&[u8]]) -> Vec<u8> {
    let mut msg = SendMessage { words: Vec::new() };
    for arg in args {
        msg.add_argument(arg);
    }
    let mut out = Vec::new();
    assert!(msg.send(&mut out));
    out
}

fn frame(args: &[&[u8]]) -> RecieveMessage {
    let mut stream = ByteStream::new(encode(args));
    recieve_message(&mut stream).unwrap()
}

fn decode(bytes: &[u8]) -> Vec<Vec<u8>> {
    let mut stream = ByteStream::new(bytes.to_vec());
    let msg = recieve_message(&mut stream).unwrap();
    assert_eq!(stream.available(), 0);
    msg.words().clone()
}

fn targets(delivery: &Delivery<u32>) -> Vec<u32> {
    delivery.targets.iter().map(|socket| **socket).collect()
}

/// Shakes hands on a new connection and gives it back with what went out.
fn connect(server: &mut Server<u32>, name: &[u8], socket: u32) -> (Connection<u32>, Vec<Vec<u8>>, Vec<u32>) {
    let hello = frame(&[b"NICK", name]);
    let (conn, out) = server.handle_client(Connection::new(socket), Some(&hello));
    let out = out.unwrap();
    (conn, decode(&out.frame), targets(&out))
}

fn notice(text: &str) -> Vec<Vec<u8>> {
    vec![b"MSG".to_vec(), Vec::new(), text.as_bytes().to_vec()]
}

#[test]
fn registry_starts_empty() {
    let users: UserList<u32> = UserList::new();
    assert_eq!(users.len(), 0);
    let out = users.send_message("alice", &Vec::new(), b"hi");
    assert!(out.targets.is_empty());
}

#[test]
fn broadcast_reaches_every_user_once() {
    let mut users: UserList<u32> = UserList::new();
    for (i, name) in ["ann", "bob", "cid", "dee", "eve"].iter().enumerate() {
        users.add(name.to_string(), 100 + i as u32);
    }
    let out = users.send_message("alice", &Vec::new(), b"hi");
    assert_eq!(targets(&out), vec![100, 101, 102, 103, 104]);
    assert_eq!(decode(&out.frame), vec![b"MSG".to_vec(), b"alice".to_vec(), b"hi".to_vec()]);
}

#[test]
fn broadcast_frame_has_the_exact_bytes() {
    let mut users: UserList<u32> = UserList::new();
    users.add("x".to_string(), 1);
    let out = users.send_message("al", &Vec::new(), b"yo");
    let expected: Vec<u8> = vec![
        31, 0, 0, 0, 0, 0, 0, 0, //
        3, 0, 0, 0, 0, 0, 0, 0, b'M', b'S', b'G', //
        2, 0, 0, 0, 0, 0, 0, 0, b'a', b'l', //
        2, 0, 0, 0, 0, 0, 0, 0, b'y', b'o',
    ];
    assert_eq!(out.frame, expected);
}

#[test]
fn addressed_sending_reaches_nobody() {
    let mut users: UserList<u32> = UserList::new();
    users.add("ann".to_string(), 1);
    users.add("bob".to_string(), 2);
    let out = users.send_message("ann", &vec!["bob"], b"psst");
    assert!(out.targets.is_empty());
    assert_eq!(decode(&out.frame), vec![b"MSG".to_vec(), b"ann".to_vec(), b"psst".to_vec()]);
}

#[test]
fn adding_a_name_twice_replaces_its_socket() {
    let mut users: UserList<u32> = UserList::new();
    users.add("ann".to_string(), 1);
    users.add("bob".to_string(), 2);
    users.add("ann".to_string(), 3);
    assert_eq!(users.len(), 2);
    let out = users.send_message("", &Vec::new(), b"");
    assert_eq!(targets(&out), vec![3, 2]);
}

#[test]
fn removing_takes_only_that_name() {
    let mut users: UserList<u32> = UserList::new();
    users.add("ann".to_string(), 1);
    users.add("bob".to_string(), 2);
    users.add("cid".to_string(), 3);
    assert!(users.contains("bob"));
    users.remove("bob");
    assert!(!users.contains("bob"));
    assert!(users.contains("ann") && users.contains("cid"));
    assert_eq!(users.len(), 2);
    assert_eq!(targets(&users.send_message("", &Vec::new(), b"")), vec![1, 3]);
    users.remove("bob");
    users.remove("nobody");
    assert_eq!(users.len(), 2);
    users.remove("ann");
    users.remove("cid");
    assert_eq!(users.len(), 0);
}

#[test]
fn names_are_compared_exactly() {
    let mut users: UserList<u32> = UserList::new();
    users.add("ann".to_string(), 1);
    users.add("Ann".to_string(), 2);
    users.add("ann ".to_string(), 3);
    users.add("".to_string(), 4);
    assert_eq!(users.len(), 4);
    users.remove("an");
    assert_eq!(users.len(), 4);
    users.remove("");
    assert_eq!(users.len(), 3);
}

#[test]
fn handshake_registers_and_announces() {
    let mut server: Server<u32> = Server::new();
    assert_eq!(Connection::new(7u32).name(), None);
    let (conn, said, to) = connect(&mut server, b"alice", 7);
    assert!(conn.is_active());
    assert!(!conn.is_closed());
    assert_eq!(conn.name(), Some("alice"));
    assert_eq!(server.users().len(), 1);
    assert_eq!(said, notice("User 'alice' connected (1)"));
    assert_eq!(to, vec![7]);
}

#[test]
fn each_join_reports_one_more() {
    let mut server: Server<u32> = Server::new();
    for i in 1..=12u32 {
        let name = format!("user{}", i);
        let (_, said, to) = connect(&mut server, name.as_bytes(), i);
        assert_eq!(said, notice(&format!("User 'user{}' connected ({})", i, i)));
        assert_eq!(to, (1..=i).collect::<Vec<u32>>());
        assert_eq!(server.users().len(), i as usize);
    }
}

#[test]
fn each_leave_reports_one_less() {
    let mut server: Server<u32> = Server::new();
    let (ann, _, _) = connect(&mut server, b"ann", 1);
    let (bob, _, _) = connect(&mut server, b"bob", 2);
    let (cid, _, _) = connect(&mut server, b"cid", 3);

    let (bob, out) = server.handle_client(bob, None);
    let out = out.unwrap();
    assert!(bob.is_closed());
    assert_eq!(bob.name(), None);
    assert_eq!(decode(&out.frame), notice("User 'bob' disconnected (2)"));
    assert_eq!(targets(&out), vec![1, 3]);

    let (_, out) = server.handle_client(cid, None);
    let out = out.unwrap();
    assert_eq!(decode(&out.frame), notice("User 'cid' disconnected (1)"));
    assert_eq!(targets(&out), vec![1]);

    let (_, out) = server.handle_client(ann, None);
    let out = out.unwrap();
    assert_eq!(decode(&out.frame), notice("User 'ann' disconnected (0)"));
    assert!(out.targets.is_empty());
    assert_eq!(server.users().len(), 0);
}

#[test]
fn registry_holds_who_is_still_connected() {
    let mut server: Server<u32> = Server::new();
    let mut open = Vec::new();
    for i in 0..20u32 {
        let name = format!("u{}", i);
        let (conn, _, _) = connect(&mut server, name.as_bytes(), i);
        open.push((i, conn));
    }
    let mut left = Vec::new();
    for (i, conn) in open {
        if i % 3 == 0 {
            let (conn, _) = server.handle_client(conn, None);
            assert!(conn.is_closed());
        } else {
            left.push(i);
        }
    }
    assert_eq!(server.users().len(), left.len());
    assert_eq!(targets(&server.users().send_message("", &Vec::new(), b"")), left);
}

#[test]
fn second_handshake_under_a_name_takes_it_over() {
    let mut server: Server<u32> = Server::new();
    let (first, _, _) = connect(&mut server, b"ann", 1);
    let (second, said, to) = connect(&mut server, b"ann", 2);
    assert_eq!(said, notice("User 'ann' connected (1)"));
    assert_eq!(to, vec![2]);
    assert_eq!(server.users().len(), 1);
    // The first one to go takes the name with it.
    let (_, out) = server.handle_client(first, None);
    assert_eq!(decode(&out.unwrap().frame), notice("User 'ann' disconnected (0)"));
    let (_, out) = server.handle_client(second, None);
    assert_eq!(decode(&out.unwrap().frame), notice("User 'ann' disconnected (0)"));
    assert_eq!(server.users().len(), 0);
}

#[test]
fn handshake_with_msg_is_rejected() {
    let mut server: Server<u32> = Server::new();
    let (_, _, _) = connect(&mut server, b"ann", 1);
    let first = frame(&[b"MSG", b"bob"]);
    let (conn, out) = server.handle_client(Connection::new(2), Some(&first));
    assert!(out.is_none());
    assert!(conn.is_closed());
    assert!(!conn.is_active());
    assert_eq!(server.users().len(), 1);
    assert!(server.users().contains("ann"));
    assert!(!server.users().contains("bob"));
    assert_eq!(targets(&server.users().send_message("", &Vec::new(), b"")), vec![1]);
}

#[test]
fn handshake_needs_exactly_one_name() {
    for args in [
        vec![&b"NICK"[..]],
        vec![&b"NICK"[..], &b"ann"[..], &b"bob"[..]],
        vec![&b"nick"[..], &b"ann"[..]],
        vec![&b"FAIL"[..], &b"ann"[..]],
        vec![],
    ] {
        let mut server: Server<u32> = Server::new();
        let first = frame(&args);
        let (conn, out) = server.handle_client(Connection::new(1), Some(&first));
        assert!(out.is_none());
        assert!(conn.is_closed());
        assert_eq!(server.users().len(), 0);
    }
}

#[test]
fn handshake_needs_a_name_that_is_text() {
    let mut server: Server<u32> = Server::new();
    let first = frame(&[b"NICK", &[0xff, 0xfe]]);
    let (conn, out) = server.handle_client(Connection::new(1), Some(&first));
    assert!(out.is_none());
    assert!(conn.is_closed());
    assert_eq!(server.users().len(), 0);
}

#[test]
fn handshake_takes_names_beyond_ascii() {
    let mut server: Server<u32> = Server::new();
    let (conn, said, _) = connect(&mut server, "Zoë ✓".as_bytes(), 1);
    assert!(conn.is_active());
    assert_eq!(said, notice("User 'Zoë ✓' connected (1)"));
}

#[test]
fn handshake_takes_the_empty_name() {
    let mut server: Server<u32> = Server::new();
    let (conn, said, _) = connect(&mut server, b"", 1);
    assert!(conn.is_active());
    assert_eq!(said, notice("User '' connected (1)"));
}

#[test]
fn failure_before_the_handshake_leaves_no_trace() {
    let mut server: Server<u32> = Server::new();
    let (_, _, _) = connect(&mut server, b"ann", 1);
    let (conn, out) = server.handle_client(Connection::new(2), None);
    assert!(out.is_none());
    assert!(conn.is_closed());
    assert_eq!(server.users().len(), 1);
}

#[test]
fn malformed_frame_disconnects_with_one_notice() {
    let mut server: Server<u32> = Server::new();
    let (_, _, _) = connect(&mut server, b"ann", 1);
    let (bob, _, _) = connect(&mut server, b"bob", 2);

    // The total says 10, the argument takes 12.
    let mut bytes = 10u64.to_le_bytes().to_vec();
    bytes.extend(4u64.to_le_bytes());
    bytes.extend(b"NICK");
    let mut stream = ByteStream::new(bytes);
    let received = recieve_message(&mut stream);
    assert!(received.is_none());

    let (bob, out) = server.handle_client(bob, received.as_ref());
    let out = out.unwrap();
    assert!(bob.is_closed());
    assert_eq!(decode(&out.frame), notice("User 'bob' disconnected (1)"));
    assert_eq!(targets(&out), vec![1]);

    let again = recieve_message(&mut stream);
    let (bob, out) = server.handle_client(bob, again.as_ref());
    assert!(out.is_none());
    assert!(bob.is_closed());
    assert_eq!(server.users().len(), 1);
}

#[test]
fn malformed_first_frame_gives_no_notice() {
    let mut server: Server<u32> = Server::new();
    let (_, _, _) = connect(&mut server, b"ann", 1);
    let mut bytes = 30u64.to_le_bytes().to_vec();
    bytes.extend(4u64.to_le_bytes());
    bytes.extend(b"NICK");
    let mut stream = ByteStream::new(bytes);
    let received = recieve_message(&mut stream);
    let (conn, out) = server.handle_client(Connection::new(2), received.as_ref());
    assert!(out.is_none());
    assert!(conn.is_closed());
    assert_eq!(server.users().len(), 1);
}

#[test]
fn chat_message_goes_to_everybody_under_the_senders_name() {
    let mut server: Server<u32> = Server::new();
    let (ann, _, _) = connect(&mut server, b"ann", 1);
    let (_, _, _) = connect(&mut server, b"bob", 2);
    let said = frame(&[b"MSG", b"", b"hello there"]);
    let (ann, out) = server.handle_client(ann, Some(&said));
    let out = out.unwrap();
    assert!(ann.is_active());
    assert_eq!(
        decode(&out.frame),
        vec![b"MSG".to_vec(), b"ann".to_vec(), b"hello there".to_vec()]
    );
    assert_eq!(targets(&out), vec![1, 2]);
}

#[test]
fn chat_message_ignores_the_name_it_claims() {
    let mut server: Server<u32> = Server::new();
    let (ann, _, _) = connect(&mut server, b"ann", 1);
    let said = frame(&[b"MSG", b"bob", b"it was me"]);
    let (_, out) = server.handle_client(ann, Some(&said));
    assert_eq!(
        decode(&out.unwrap().frame),
        vec![b"MSG".to_vec(), b"ann".to_vec(), b"it was me".to_vec()]
    );
}

#[test]
fn chat_message_is_its_last_argument() {
    let mut server: Server<u32> = Server::new();
    let (ann, _, _) = connect(&mut server, b"ann", 1);
    let said = frame(&[b"MSG", b"only"]);
    let (ann, out) = server.handle_client(ann, Some(&said));
    assert_eq!(
        decode(&out.unwrap().frame),
        vec![b"MSG".to_vec(), b"ann".to_vec(), b"only".to_vec()]
    );
    let said = frame(&[b"MSG", b"a", b"b", &[0xff], b"last"]);
    let (_, out) = server.handle_client(ann, Some(&said));
    assert_eq!(
        decode(&out.unwrap().frame),
        vec![b"MSG".to_vec(), b"ann".to_vec(), b"last".to_vec()]
    );
}

#[test]
fn chat_message_that_is_not_text_is_dropped() {
    let mut server: Server<u32> = Server::new();
    let (ann, _, _) = connect(&mut server, b"ann", 1);
    let said = frame(&[b"MSG", b"", &[b'h', b'i', 0xc3]]);
    let (ann, out) = server.handle_client(ann, Some(&said));
    assert!(out.is_none());
    assert!(ann.is_active());
    assert_eq!(server.users().len(), 1);
    // The connection goes on.
    let said = frame(&[b"MSG", b"", b"ok"]);
    let (_, out) = server.handle_client(ann, Some(&said));
    assert!(out.is_some());
}

#[test]
fn other_frames_are_ignored_while_active() {
    let mut server: Server<u32> = Server::new();
    let (mut ann, _, _) = connect(&mut server, b"ann", 1);
    for args in [
        vec![&b"NICK"[..], &b"bob"[..]],
        vec![&b"MSG"[..]],
        vec![&b"QUIT"[..], &b"bye"[..]],
        vec![&b"FAIL"[..]],
        vec![],
    ] {
        let received = frame(&args);
        let (next, out) = server.handle_client(ann, Some(&received));
        assert!(out.is_none());
        assert!(next.is_active());
        ann = next;
    }
    assert_eq!(server.users().len(), 1);
    let (_, out) = server.handle_client(ann, None);
    assert_eq!(decode(&out.unwrap().frame), notice("User 'ann' disconnected (0)"));
}

#[test]
fn closed_connection_stays_closed() {
    let mut server: Server<u32> = Server::new();
    let (ann, _, _) = connect(&mut server, b"ann", 1);
    let (ann, _) = server.handle_client(ann, None);
    let hello = frame(&[b"NICK", b"ann"]);
    let (ann, out) = server.handle_client(ann, Some(&hello));
    assert!(out.is_none());
    assert!(ann.is_closed());
    let said = frame(&[b"MSG", b"", b"hi"]);
    let (ann, out) = server.handle_client(ann, Some(&said));
    assert!(out.is_none());
    assert!(ann.is_closed());
    assert_eq!(server.users().len(), 0);
}

#[test]
fn authenticate_gives_the_announced_name() {
    let hello = frame(&[b"NICK", b"alice"]);
    assert_eq!(Server::<u32>::authenticate_user(&hello), Some(b"alice".to_vec()));
    let hello = frame(&[b"NICK", &[0xff]]);
    assert_eq!(Server::<u32>::authenticate_user(&hello), Some(vec![0xff]));
    let hello = frame(&[b"MSG", b"alice"]);
    assert_eq!(Server::<u32>::authenticate_user(&hello), None);
    let hello = frame(&[b"NICK"]);
    assert_eq!(Server::<u32>::authenticate_user(&hello), None);
    let hello = frame(&[b"NICK", b"a", b"b"]);
    assert_eq!(Server::<u32>::authenticate_user(&hello), None);
    let hello = frame(&[]);
    assert_eq!(Server::<u32>::authenticate_user(&hello), None);
}

#[test]
fn handle_message_passes_on_what_was_said() {
    let mut users: UserList<u32> = UserList::new();
    users.add("ann".to_string(), 1);
    users.add("bob".to_string(), 2);
    let args = vec![b"".to_vec(), b"hey".to_vec()];
    let message = ParsedMessage { action: Action::MSG, args: &args };
    let out = Server::handle_message(&users, "bob", &message).unwrap();
    assert_eq!(decode(&out.frame), vec![b"MSG".to_vec(), b"bob".to_vec(), b"hey".to_vec()]);
    assert_eq!(targets(&out), vec![1, 2]);

    let message = ParsedMessage { action: Action::NICK, args: &args };
    assert!(Server::handle_message(&users, "bob", &message).is_none());
    let message = ParsedMessage { action: Action::UNKNOWN, args: &args };
    assert!(Server::handle_message(&users, "bob", &message).is_none());
    let message = ParsedMessage { action: Action::MSG, args: &[] };
    assert!(Server::handle_message(&users, "bob", &message).is_none());
}

#[test]
fn largest_name_and_message_still_go_out() {
    let mut server: Server<u32> = Server::new();
    let name = vec![b'n'; 65536 - 8 - 12];
    let hello = frame(&[b"NICK", &name]);
    let (conn, out) = server.handle_client(Connection::new(1), Some(&hello));
    assert!(conn.is_active());
    let out = out.unwrap();
    let text_len = "User '' connected (1)".len() + name.len();
    assert_eq!(out.frame.len(), 8 + 11 + 8 + 8 + text_len);
    assert_eq!(out.frame[..8], ((11 + 8 + 8 + text_len) as u64).to_le_bytes());
    // What goes out is larger than a reader accepts.
    let mut stream = ByteStream::new(out.frame.clone());
    assert!(recieve_message(&mut stream).is_none());
    assert_eq!(stream.position(), 8);

    let text = vec![b't'; 65536 - 8 - 11 - 8];
    let received = frame(&[b"MSG", b"", &text]);
    let (_, out) = server.handle_client(conn, Some(&received));
    let out = out.unwrap();
    assert_eq!(out.frame.len(), 8 + 11 + 8 + name.len() + 8 + text.len());
    assert_eq!(targets(&out), vec![1]);
}
