use task_runtime::server::{
    client_message, client_writes, on_events, ReadOutcome, Readiness, Reception, ServerStep,
    BUFFER_LEN, CLIENT, CLIENT_EVENTS, SERVER, SERVER_EVENTS, SERVER_WAIT_MILLIS,
};

fn event(token: usize, readable: bool, writable: bool) -> Readiness {
    Readiness { token, readable, writable }
}

/// Feeds pieces to a reception, then the end, and gives the output if the
/// server is done.
fn receive(pieces: &[&[u8]], end: ReadOutcome) -> Option<String> {
    let mut reception = Reception::new();
    let mut buffer = [0u8; BUFFER_LEN];
    for piece in pieces {
        buffer[..piece.len()].copy_from_slice(piece);
        let step = reception.on_read(&buffer, ReadOutcome::Count(piece.len()));
        assert!(matches!(step, ServerStep::Read));
    }
    match reception.on_read(&buffer, end) {
        ServerStep::Ready(text) => Some(text),
        ServerStep::Pending => None,
        _ => panic!("the server goes on after the end"),
    }
}

#[test]
fn the_constants_are_those_of_the_server() {
    assert_eq!((SERVER, CLIENT), (0, 1));
    assert_eq!((SERVER_EVENTS, CLIENT_EVENTS), (1, 128));
    assert_eq!((SERVER_WAIT_MILLIS, BUFFER_LEN), (200, 1024));
}

#[test]
fn a_waiting_connection_is_accepted() {
    assert!(matches!(on_events(&vec![event(SERVER, true, false)]), ServerStep::Accept));
    let events = vec![event(CLIENT, true, true), event(SERVER, true, true)];
    assert!(matches!(on_events(&events), ServerStep::Accept));
}

#[test]
fn without_a_waiting_connection_the_server_gives_way() {
    assert!(matches!(on_events(&Vec::new()), ServerStep::Pending));
    assert!(matches!(on_events(&vec![event(SERVER, false, true)]), ServerStep::Pending));
    assert!(matches!(on_events(&vec![event(CLIENT, true, true)]), ServerStep::Pending));
}

#[test]
fn the_message_arrives_in_one_piece() {
    let text = receive(&[client_message().as_bytes()], ReadOutcome::Count(0));
    assert_eq!(text, Some("that's so dingo!\n".to_string()));
}

#[test]
fn the_message_arrives_in_many_pieces() {
    let text = receive(&[b"that's", b" so ", b"d", b"ingo!\n"], ReadOutcome::Count(0));
    assert_eq!(text, Some("that's so dingo!\n".to_string()));
}

#[test]
fn a_character_may_be_cut_in_two() {
    let text = receive(&[&[0xc3], &[0xa9]], ReadOutcome::Count(0));
    assert_eq!(text, Some("\u{e9}".to_string()));
}

#[test]
fn what_came_before_a_failure_counts() {
    let text = receive(&[b"that's"], ReadOutcome::Failed);
    assert_eq!(text, Some("that's".to_string()));
}

#[test]
fn an_empty_connection_gives_way() {
    assert_eq!(receive(&[], ReadOutcome::Count(0)), None);
    assert_eq!(receive(&[], ReadOutcome::Failed), None);
}

#[test]
fn bytes_that_are_no_text_are_replaced() {
    let text = receive(&[&[b'a', 0xff, b'b']], ReadOutcome::Count(0));
    assert_eq!(text, Some("a\u{fffd}b".to_string()));
}

#[test]
fn only_the_bytes_that_were_read_are_taken() {
    let mut reception = Reception::new();
    assert!(matches!(reception.on_read(b"abcdef", ReadOutcome::Count(2)), ServerStep::Read));
    assert!(matches!(reception.on_read(b"xyz", ReadOutcome::Count(3)), ServerStep::Read));
    match reception.on_read(b"more", ReadOutcome::Count(0)) {
        ServerStep::Ready(text) => assert_eq!(text, "abxyz"),
        _ => panic!("the server is not done"),
    }
}

#[test]
fn the_client_writes_when_it_can() {
    assert!(client_writes(&event(CLIENT, false, true)));
    assert!(!client_writes(&event(CLIENT, true, false)));
    assert!(!client_writes(&event(SERVER, true, true)));
}
