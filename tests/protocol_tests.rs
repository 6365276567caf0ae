use vp_flash::driver::{
    probe_result, simulate, transmitted_bytes, Action, DeviceError, Handshake, Phase, ReadTimeout,
};
use vp_flash::matcher::SequenceMatcher;
use vp_flash::protocol::{Command, Sequence};
use vp_flash::source::{payload_source, PayloadSource};
use vp_flash::wait::{await_sequence, Event, WaitOutcome};

fn bytes_of(text: &[u8]) -> Vec<Event> {
    text.iter().map(|b| Event::Byte(*b)).collect()
}

fn scenario() -> Vec<Event> {
    let mut events = vec![Event::Done, Event::Done];
    events.extend(bytes_of(b"Openrisc based virtual Prototype.\n"));
    events.push(Event::Done);
    events.extend(bytes_of(b"Setting prog. mode\n"));
    events.push(Event::Streamed(b"DEADBEEF".len() as u64));
    events.extend(bytes_of(b"Upload done\n"));
    events.push(Event::Done);
    events
}

#[test]
fn command_bytes_are_exact() {
    assert_eq!(Command::ShowHelp.as_bytes(), b"*h");
    assert_eq!(Command::Program.as_bytes(), b"*p");
    assert_eq!(Command::Run.as_bytes(), b"$");
}

#[test]
fn sequence_bytes_are_exact() {
    assert_eq!(Sequence::HelpScreen.as_bytes(), b"Openrisc based virtual Prototype.\n");
    assert_eq!(Sequence::Programming.as_bytes(), b"Setting prog. mode\n");
    assert_eq!(Sequence::UploadComplete.as_bytes(), b"Upload done\n");
}

#[test]
fn marker_split_across_reads_is_found_at_same_position() {
    let stream: &[u8] = b"noise Setting prog. mode\ntrailing";
    let mut whole = SequenceMatcher::new(b"Setting prog. mode\n");
    let consumed_whole = whole.feed_chunk(stream);
    assert!(whole.is_found());
    assert_eq!(consumed_whole, 25);

    let mut split = SequenceMatcher::new(b"Setting prog. mode\n");
    let mut total = 0;
    for chunk in [&stream[..3], &stream[3..9], &stream[9..10], &stream[10..20], &stream[20..]] {
        total += split.feed_chunk(chunk);
        if split.is_found() {
            break;
        }
    }
    assert!(split.is_found());
    assert_eq!(total, consumed_whole);
}

#[test]
fn matcher_consumes_nothing_after_match() {
    let mut m = SequenceMatcher::new(b"$");
    assert_eq!(m.feed_chunk(b"ab$cd"), 3);
    assert_eq!(m.feed_chunk(b"more"), 0);
    assert!(m.feed(b'x'));
}

#[test]
fn repeated_first_byte_does_not_hide_marker() {
    let mut m = SequenceMatcher::new(b"Openrisc based virtual Prototype.\n");
    let consumed = m.feed_chunk(b"OOpenrisc based virtual Prototype.\n");
    assert!(m.is_found());
    assert_eq!(consumed, 35);
}

#[test]
fn self_overlapping_marker_is_found() {
    let mut m = SequenceMatcher::new(b"aab");
    assert!(!m.feed(b'a'));
    assert!(!m.feed(b'a'));
    assert!(!m.feed(b'a'));
    assert!(m.feed(b'b'));
}

#[test]
fn wait_reports_match_and_reads_taken() {
    let mut events = bytes_of(b"xx*Upload done\n");
    events.push(Event::Failed);
    assert_eq!(await_sequence(b"Upload done\n", &events), (WaitOutcome::Matched, 15));
}

#[test]
fn stream_ending_before_marker_is_eof() {
    let events = bytes_of(b"Upload do");
    assert_eq!(await_sequence(b"Upload done\n", &events), (WaitOutcome::Eof, 9));
    let mut closed = bytes_of(b"Upload");
    closed.push(Event::Eof);
    assert_eq!(await_sequence(b"Upload done\n", &closed), (WaitOutcome::Eof, 7));
    assert_eq!(await_sequence(b"Upload done\n", &[]), (WaitOutcome::Eof, 0));
}

#[test]
fn silence_within_bound_is_timeout() {
    assert_eq!(
        await_sequence(b"Upload done\n", &[Event::TimedOut, Event::Eof]),
        (WaitOutcome::TimedOut, 1)
    );
    let mut partial = bytes_of(b"Upl");
    partial.push(Event::TimedOut);
    assert_eq!(await_sequence(b"Upload done\n", &partial), (WaitOutcome::TimedOut, 4));
}

#[test]
fn transport_failure_is_failed() {
    assert_eq!(await_sequence(b"$", &[Event::Byte(b'a'), Event::Failed]), (WaitOutcome::Failed, 2));
}

#[test]
fn probe_verdicts() {
    assert_eq!(probe_result(WaitOutcome::Matched), Ok(true));
    assert_eq!(probe_result(WaitOutcome::TimedOut), Ok(false));
    assert_eq!(probe_result(WaitOutcome::Eof), Err(DeviceError::Disconnected));
    assert_eq!(probe_result(WaitOutcome::Failed), Err(DeviceError::Io));
}

#[test]
fn probe_on_help_screen_is_responsive() {
    let events = bytes_of(b"Openrisc based virtual Prototype.\n");
    let (outcome, _) = await_sequence(Sequence::HelpScreen.as_bytes(), &events);
    assert_eq!(probe_result(outcome), Ok(true));
    let (silent, _) = await_sequence(Sequence::HelpScreen.as_bytes(), &[Event::TimedOut]);
    assert_eq!(probe_result(silent), Ok(false));
}

#[test]
fn end_to_end_scenario() {
    let events = scenario();
    let actions = simulate(false, &events);
    assert_eq!(actions.len(), events.len());
    assert_eq!(actions[0], Action::Send(Command::ShowHelp));
    assert_eq!(actions[1], Action::Read);
    let sends: Vec<Action> = actions.iter().copied().filter(|a| matches!(a, Action::Send(_))).collect();
    assert_eq!(
        sends,
        vec![Action::Send(Command::ShowHelp), Action::Send(Command::Program), Action::Send(Command::Run)]
    );
    assert!(actions.contains(&Action::StreamPayload));
    assert_eq!(*actions.last().unwrap(), Action::Finish(8));
    assert_eq!(transmitted_bytes(&actions), b"*h*p$".to_vec());
}

#[test]
fn replayed_session_transmits_the_same() {
    let first = simulate(true, &scenario());
    let second = simulate(true, &scenario());
    assert_eq!(first, second);
    assert_eq!(transmitted_bytes(&first), transmitted_bytes(&second));
}

#[test]
fn silent_device_is_waited_for_after_reset() {
    let mut h = Handshake::new(true);
    assert_eq!(h.step(Event::Done), Action::Send(Command::ShowHelp));
    assert_eq!(h.step(Event::Done), Action::Read);
    assert_eq!(h.step(Event::TimedOut), Action::SetTimeout(ReadTimeout::Unbounded));
    assert_eq!(h.step(Event::Done), Action::ClearInput);
    assert_eq!(h.step(Event::Done), Action::Read);
    assert_eq!(h.phase(), Phase::AwaitingReset);
    let mut last = Action::Read;
    for b in b"boot Openrisc based virtual Prototype.\n" {
        last = h.step(Event::Byte(*b));
    }
    assert_eq!(last, Action::SetTimeout(ReadTimeout::Bounded));
    assert_eq!(h.step(Event::Done), Action::Send(Command::Program));
    assert_eq!(h.phase(), Phase::RequestingProgram);
}

#[test]
fn silent_device_without_reset_wait_is_timeout() {
    let mut h = Handshake::new(false);
    h.step(Event::Done);
    h.step(Event::Done);
    assert_eq!(h.step(Event::TimedOut), Action::Abort(DeviceError::Timeout));
    assert_eq!(h.phase(), Phase::Failed(DeviceError::Timeout));
    assert_eq!(h.step(Event::Done), Action::Abort(DeviceError::Timeout));
}

#[test]
fn timeout_after_probe_is_fatal() {
    let mut events = vec![Event::Done, Event::Done];
    events.extend(bytes_of(b"Openrisc based virtual Prototype.\n"));
    events.push(Event::Done);
    events.push(Event::TimedOut);
    let actions = simulate(true, &events);
    assert_eq!(*actions.last().unwrap(), Action::Abort(DeviceError::Timeout));
}

#[test]
fn disconnect_and_io_failures_abort() {
    let mut h = Handshake::new(true);
    h.step(Event::Done);
    assert_eq!(h.step(Event::Failed), Action::Abort(DeviceError::Io));

    let mut g = Handshake::new(true);
    g.step(Event::Done);
    g.step(Event::Done);
    g.step(Event::Byte(b'O'));
    assert_eq!(g.step(Event::Eof), Action::Abort(DeviceError::Disconnected));

    let mut events = vec![Event::Done, Event::Done];
    events.extend(bytes_of(b"Openrisc based virtual Prototype.\n"));
    events.push(Event::Done);
    events.extend(bytes_of(b"Setting prog. mode\n"));
    events.push(Event::Failed);
    let actions = simulate(false, &events);
    assert_eq!(*actions.last().unwrap(), Action::Abort(DeviceError::Io));
}

#[test]
fn finished_session_repeats_finish() {
    let mut events = scenario();
    events.push(Event::Done);
    let actions = simulate(false, &events);
    assert_eq!(*actions.last().unwrap(), Action::Finish(8));
}

#[test]
fn payload_source_selection() {
    assert!(matches!(payload_source("-"), PayloadSource::Stdin));
    match payload_source("prog.mem") {
        PayloadSource::File(path) => assert_eq!(path, "prog.mem"),
        PayloadSource::Stdin => panic!("a path is not standard input"),
    }
    assert!(matches!(payload_source("--"), PayloadSource::File(_)));
    assert!(matches!(payload_source(""), PayloadSource::File(_)));
}

#[test]
fn every_split_of_a_stream_agrees_with_one_read() {
    let stream: &[u8] = b"Upload dUpload done\nafter";
    let mut whole = SequenceMatcher::new(b"Upload done\n");
    let expected = whole.feed_chunk(stream);
    assert_eq!(expected, 20);
    for cut in 0..=stream.len() {
        let mut m = SequenceMatcher::new(b"Upload done\n");
        let first = m.feed_chunk(&stream[..cut]);
        let second = m.feed_chunk(&stream[cut..]);
        assert!(m.is_found());
        assert_eq!(first + second, expected);
    }
    let mut bytewise = SequenceMatcher::new(b"Upload done\n");
    let mut count = 0;
    for b in stream {
        if bytewise.is_found() {
            break;
        }
        bytewise.feed(*b);
        count += 1;
    }
    assert_eq!(count, expected);
}
