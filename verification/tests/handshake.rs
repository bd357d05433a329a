use flipperzero_rpc_transport::codec::FzRpcCodec;
use flipperzero_rpc_transport::error::Error;
use flipperzero_rpc_transport::handshake::{
    command_bytes, contains, matches_at, wait_begins, Action, Event, Handshake, PatternWindow,
    Phase, CLI_PROMPT, COMMAND_WRITE_LEN, FLIPPER_BAUD_RATE, HANDSHAKE_TIMEOUT_SECS,
    READ_BUFFER_LEN, START_RPC_COMMAND, WINDOW_LEN,
};

fn received(bytes: &[u8]) -> Event {
    Event::Received(bytes.to_vec())
}

fn at_send_command() -> Handshake {
    let (handshake, action) = Handshake::new().step(received(b"\n>: "));
    assert_eq!(action, Action::Write { from: 0 });
    handshake
}

fn at_flush() -> Handshake {
    let (handshake, action) = at_send_command().step(Event::Written(COMMAND_WRITE_LEN));
    assert_eq!(action, Action::Flush);
    handshake
}

fn at_await_echo() -> Handshake {
    let (handshake, action) = at_flush().step(Event::Flushed);
    assert_eq!(action, Action::Read);
    assert_eq!(handshake.phase(), Phase::AwaitEcho);
    handshake
}

fn established() -> Handshake {
    let (handshake, action) = at_await_echo().step(received(b"start_rpc_session\r"));
    assert_eq!(action, Action::Finish);
    handshake
}

#[test]
fn the_fixed_byte_sequences() {
    assert_eq!(&CLI_PROMPT, b"\n>: ");
    assert_eq!(&START_RPC_COMMAND, b"start_rpc_session\r\n");
    assert_eq!(&START_RPC_COMMAND[..COMMAND_WRITE_LEN], b"start_rpc_session\r");
    assert_eq!(WINDOW_LEN, 32);
    assert_eq!(READ_BUFFER_LEN, 1024);
    assert_eq!(HANDSHAKE_TIMEOUT_SECS, 5);
    assert_eq!(FLIPPER_BAUD_RATE, 115200);
}

#[test]
fn matches_at_compares_in_place() {
    assert!(matches_at(b"abcabd", b"abd", 3));
    assert!(!matches_at(b"abcabd", b"abd", 0));
    assert!(matches_at(b"abcabd", b"", 6));
    assert!(matches_at(b"abc", b"abc", 0));
    assert!(!matches_at(b"abc", b"bc", 2));
    assert!(!matches_at(b"abc", b"", 4));
    assert!(!matches_at(b"abc", b"abcd", 0));
    assert!(!matches_at(b"abc", b"c", usize::MAX));
}

#[test]
fn contains_finds_a_run_anywhere() {
    assert!(contains(b"xx\n>: ", b"\n>: "));
    assert!(contains(b"\n>: xx", b"\n>: "));
    assert!(contains(b"a\n>: b", b"\n>: "));
    assert!(contains(b"\n>: ", b"\n>: "));
    assert!(!contains(b"\n>:", b"\n>: "));
    assert!(!contains(b"", b"\n>: "));
    assert!(!contains(b"\n> : \n>:", b"\n>: "));
    assert!(contains(b"aab", b"ab"));
}

#[test]
fn window_starts_empty() {
    assert!(PatternWindow::new().recent().is_empty());
}

#[test]
fn window_keeps_short_input_whole() {
    let mut window = PatternWindow::new();
    assert!(!window.observe(b"hello", b"\n>: "));
    assert!(!window.observe(b" world", b"\n>: "));
    assert_eq!(window.recent(), b"hello world");
}

#[test]
fn window_keeps_the_last_32_bytes() {
    let mut window = PatternWindow::new();
    let first: Vec<u8> = (0u8..30).collect();
    assert!(!window.observe(&first, b"\n>: "));
    assert_eq!(window.recent().len(), 30);
    assert!(!window.observe(&[100, 101, 102, 103, 104], b"\n>: "));
    let mut expected: Vec<u8> = (3u8..30).collect();
    expected.extend([100, 101, 102, 103, 104]);
    assert_eq!(window.recent(), &expected[..]);
    let long: Vec<u8> = (0u8..200).collect();
    assert!(!window.observe(&long, b"\n>: "));
    let tail: Vec<u8> = (168u8..200).collect();
    assert_eq!(window.recent(), &tail[..]);
}

#[test]
fn window_of_exactly_32_bytes_is_not_cut() {
    let mut window = PatternWindow::new();
    let bytes: Vec<u8> = (0u8..32).collect();
    assert!(window.observe(&bytes, &[0, 1]));
    assert_eq!(window.recent(), &bytes[..]);
    assert!(!window.observe(&[32], &[0, 1]));
    assert_eq!(window.recent().len(), 32);
    assert_eq!(window.recent()[0], 1);
}

#[test]
fn window_sees_a_pattern_that_spans_reads() {
    let mut window = PatternWindow::new();
    assert!(!window.observe(b"Welcome\n", b"\n>: "));
    assert!(!window.observe(b">", b"\n>: "));
    assert!(!window.observe(b":", b"\n>: "));
    assert!(window.observe(b" ", b"\n>: "));
}

#[test]
fn window_misses_a_pattern_ahead_of_the_last_32_bytes() {
    let mut window = PatternWindow::new();
    let mut chunk = b"\n>: ".to_vec();
    chunk.extend([b'x'; 32]);
    assert!(!window.observe(&chunk, b"\n>: "));
    let mut chunk = vec![b'x'; 28];
    chunk.extend(b"\n>: ");
    assert!(window.observe(&chunk, b"\n>: "));
}

#[test]
fn window_forgets_a_pattern_once_it_has_moved_out() {
    let mut window = PatternWindow::new();
    assert!(window.observe(b"\n>: ", b"\n>: "));
    assert!(window.observe(&[b'x'; 28], b"\n>: "));
    assert!(!window.observe(&[b'x'; 1], b"\n>: "));
}

#[test]
fn handshake_starts_by_reading() {
    let handshake = Handshake::new();
    assert_eq!(handshake.phase(), Phase::AwaitPrompt);
    assert_eq!(handshake.action(), Action::Read);
}

#[test]
fn handshake_runs_to_the_end() {
    let handshake = Handshake::new();
    let (handshake, action) = handshake.step(received(b"Flipper shell\r\n"));
    assert_eq!(action, Action::Read);
    let (handshake, action) = handshake.step(received(b"\r\n>: "));
    assert_eq!(action, Action::Write { from: 0 });
    assert_eq!(handshake.phase(), Phase::SendCommand);
    let (handshake, action) = handshake.step(Event::Written(18));
    assert_eq!(action, Action::Flush);
    assert_eq!(handshake.phase(), Phase::FlushCommand);
    let (handshake, action) = handshake.step(Event::Flushed);
    assert_eq!(action, Action::Read);
    assert_eq!(handshake.phase(), Phase::AwaitEcho);
    let (handshake, action) = handshake.step(received(b"start_rpc_"));
    assert_eq!(action, Action::Read);
    let (handshake, action) = handshake.step(received(b"session\r"));
    assert_eq!(action, Action::Finish);
    assert_eq!(handshake.phase(), Phase::Established);
    assert_eq!(handshake.action(), Action::Finish);
}

#[test]
fn handshake_takes_partial_writes() {
    let handshake = at_send_command();
    let (handshake, action) = handshake.step(Event::Written(5));
    assert_eq!(action, Action::Write { from: 5 });
    let (handshake, action) = handshake.step(Event::Written(0));
    assert_eq!(action, Action::Write { from: 5 });
    let (handshake, action) = handshake.step(Event::Written(12));
    assert_eq!(action, Action::Write { from: 17 });
    let (handshake, action) = handshake.step(Event::Written(1));
    assert_eq!(action, Action::Flush);
    assert_eq!(handshake.phase(), Phase::FlushCommand);
}

#[test]
fn handshake_takes_a_write_that_reports_too_much() {
    let (handshake, action) = at_send_command().step(Event::Written(usize::MAX));
    assert_eq!(action, Action::Flush);
    assert_eq!(handshake.phase(), Phase::FlushCommand);
    let (handshake, _) = at_send_command().step(Event::Written(17));
    let (_, action) = handshake.step(Event::Written(usize::MAX));
    assert_eq!(action, Action::Flush);
}

#[test]
fn handshake_ends_on_the_exact_echo_of_what_was_written() {
    let written = command_bytes(0);
    assert_eq!(written, b"start_rpc_session\r");
    let (handshake, action) = at_await_echo().step(Event::Received(written));
    assert_eq!(action, Action::Finish);
    assert_eq!(handshake.phase(), Phase::Established);
}

#[test]
fn handshake_ends_on_an_echo_with_a_line_feed_behind_it() {
    let (handshake, action) = at_await_echo().step(received(b"start_rpc_session\r\n"));
    assert_eq!(action, Action::Finish);
    assert_eq!(handshake.phase(), Phase::Established);
}

#[test]
fn handshake_ends_on_an_echo_that_comes_in_pieces() {
    let (handshake, action) = at_await_echo().step(received(b"start_"));
    assert_eq!(action, Action::Read);
    let (handshake, action) = handshake.step(received(b"rpc_session"));
    assert_eq!(action, Action::Read);
    let (handshake, action) = handshake.step(received(b"\r"));
    assert_eq!(action, Action::Finish);
    assert_eq!(handshake.phase(), Phase::Established);
}

#[test]
fn handshake_waits_for_the_carriage_return_of_the_echo() {
    let (handshake, action) = at_await_echo().step(received(b"start_rpc_session"));
    assert_eq!(action, Action::Read);
    let (handshake, action) = handshake.step(received(b"\n"));
    assert_eq!(action, Action::Read);
    assert_eq!(handshake.phase(), Phase::AwaitEcho);
}

#[test]
fn command_bytes_are_what_is_left_to_write() {
    assert_eq!(command_bytes(0), START_RPC_COMMAND[..COMMAND_WRITE_LEN].to_vec());
    assert_eq!(command_bytes(6), b"rpc_session\r");
    assert_eq!(command_bytes(17), b"\r");
    assert_eq!(command_bytes(18), b"");
}

#[test]
fn partial_writes_send_the_whole_command() {
    let mut handshake = at_send_command();
    let mut action = handshake.action();
    let mut sent: Vec<u8> = Vec::new();
    while let Action::Write { from } = action {
        let bytes = command_bytes(from);
        let taken = bytes.len().min(5);
        sent.extend(&bytes[..taken]);
        (handshake, action) = handshake.step(Event::Written(taken));
    }
    assert_eq!(action, Action::Flush);
    assert_eq!(sent, b"start_rpc_session\r");
}

#[test]
fn a_wait_begins_when_the_echo_is_awaited() {
    assert!(wait_begins(Phase::FlushCommand, Phase::AwaitEcho));
    assert!(wait_begins(Phase::AwaitPrompt, Phase::AwaitEcho));
    assert!(!wait_begins(Phase::AwaitEcho, Phase::AwaitEcho));
    assert!(!wait_begins(Phase::AwaitPrompt, Phase::AwaitPrompt));
    assert!(!wait_begins(Phase::AwaitPrompt, Phase::SendCommand));
    assert!(!wait_begins(Phase::SendCommand, Phase::FlushCommand));
    assert!(!wait_begins(Phase::AwaitEcho, Phase::Established));
    assert!(!wait_begins(Phase::AwaitEcho, Phase::Failed(Error::HandshakeTimeout)));
    assert!(!wait_begins(Phase::SendCommand, Phase::AwaitPrompt));
}

#[test]
fn only_the_flush_begins_a_wait_in_a_run() {
    let mut handshake = Handshake::new();
    let mut begun = Vec::new();
    let events = [
        received(b"boot\r\n"),
        received(b"\n>: "),
        Event::Written(10),
        Event::Written(8),
        Event::Flushed,
        received(b"start_rpc_"),
        received(b"session\r"),
    ];
    for event in events {
        let before = handshake.phase();
        let (next, _) = handshake.step(event);
        begun.push(wait_begins(before, next.phase()));
        handshake = next;
    }
    assert_eq!(begun, vec![false, false, false, false, true, false, false]);
    assert_eq!(handshake.phase(), Phase::Established);
}

#[test]
fn handshake_does_not_take_the_prompt_for_the_echo() {
    let (handshake, action) = at_await_echo().step(received(b"\n>: "));
    assert_eq!(action, Action::Read);
    assert_eq!(handshake.phase(), Phase::AwaitEcho);
}

#[test]
fn handshake_starts_each_wait_with_an_empty_window() {
    let (handshake, action) = Handshake::new().step(received(b"start_rpc_session\r\n\n>: "));
    assert_eq!(action, Action::Write { from: 0 });
    let (handshake, _) = handshake.step(Event::Written(18));
    let (handshake, action) = handshake.step(Event::Flushed);
    assert_eq!(action, Action::Read);
    let (handshake, action) = handshake.step(received(b""));
    assert_eq!(action, Action::Read);
    assert_eq!(handshake.phase(), Phase::AwaitEcho);
}

#[test]
fn handshake_times_out_waiting_for_the_prompt() {
    let mut handshake = Handshake::new();
    for _ in 0..100 {
        let (next, action) = handshake.step(received(b"no prompt here >: \n> : "));
        assert_eq!(action, Action::Read);
        handshake = next;
    }
    let (handshake, action) = handshake.step(Event::TimedOut);
    assert_eq!(action, Action::Abort(Error::HandshakeTimeout));
    assert_eq!(handshake.phase(), Phase::Failed(Error::HandshakeTimeout));
}

#[test]
fn handshake_times_out_on_a_silent_stream() {
    let (handshake, action) = Handshake::new().step(received(b""));
    assert_eq!(action, Action::Read);
    let (_, action) = handshake.step(Event::TimedOut);
    assert_eq!(action, Action::Abort(Error::HandshakeTimeout));
}

#[test]
fn handshake_times_out_waiting_for_the_echo() {
    let (handshake, _) = at_await_echo().step(received(b"start_rpc"));
    let (handshake, action) = handshake.step(Event::TimedOut);
    assert_eq!(action, Action::Abort(Error::HandshakeTimeout));
    assert_eq!(handshake.phase(), Phase::Failed(Error::HandshakeTimeout));
}

#[test]
fn handshake_fails_on_io_errors_in_every_phase() {
    for handshake in [Handshake::new(), at_send_command(), at_flush(), at_await_echo()] {
        let (handshake, action) = handshake.step(Event::IoFailed);
        assert_eq!(action, Action::Abort(Error::Io));
        assert_eq!(handshake.phase(), Phase::Failed(Error::Io));
    }
}

#[test]
fn handshake_ignores_what_it_does_not_wait_for() {
    let (handshake, action) = Handshake::new().step(Event::Written(18));
    assert_eq!(action, Action::Read);
    let (handshake, action) = handshake.step(Event::Flushed);
    assert_eq!(action, Action::Read);
    assert_eq!(handshake.phase(), Phase::AwaitPrompt);

    let (handshake, action) = at_send_command().step(Event::TimedOut);
    assert_eq!(action, Action::Write { from: 0 });
    let (handshake, action) = handshake.step(received(b"\n>: "));
    assert_eq!(action, Action::Write { from: 0 });
    let (_, action) = handshake.step(Event::Flushed);
    assert_eq!(action, Action::Write { from: 0 });

    let (handshake, action) = at_flush().step(Event::Written(3));
    assert_eq!(action, Action::Flush);
    let (_, action) = handshake.step(Event::TimedOut);
    assert_eq!(action, Action::Flush);
}

#[test]
fn handshake_stays_where_it_ended() {
    let mut handshake = established();
    for event in [received(b"\n>: "), Event::Written(1), Event::Flushed, Event::TimedOut, Event::IoFailed] {
        let (next, action) = handshake.step(event);
        assert_eq!(action, Action::Finish);
        handshake = next;
    }
    let (mut handshake, _) = Handshake::new().step(Event::TimedOut);
    for event in [received(b"\n>: "), Event::Written(1), Event::Flushed, Event::TimedOut, Event::IoFailed] {
        let (next, action) = handshake.step(event);
        assert_eq!(action, Action::Abort(Error::HandshakeTimeout));
        handshake = next;
    }
}

#[test]
fn connection_scenario_from_prompt_to_first_frame() {
    let handshake = Handshake::new();
    let (handshake, action) = handshake.step(received(b"\n>: "));
    assert_eq!(action, Action::Write { from: 0 });
    let (handshake, action) = handshake.step(Event::Written(18));
    assert_eq!(action, Action::Flush);
    let (handshake, action) = handshake.step(Event::Flushed);
    assert_eq!(action, Action::Read);
    let written = command_bytes(0);
    assert_eq!(written, b"start_rpc_session\r");
    let (handshake, action) = handshake.step(Event::Received(written));
    assert_eq!(action, Action::Finish);
    assert_eq!(handshake.phase(), Phase::Established);

    let mut codec = FzRpcCodec::new();
    let mut inbound = bytes::BytesMut::from(&[0x02u8, 0x02, 0x03][..]);
    assert_eq!(codec.decode(&mut inbound), Some(vec![0x02, 0x03]));
    assert!(inbound.is_empty());
    assert!(codec.pending().is_empty());
}
