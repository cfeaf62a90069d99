use ihex_link::encoder::RecordEncoder;
use ihex_link::sequence::CommandSequence;
use ihex_link::session::{AbortCause, AckTable, Action, Event, Phase, TransmissionSession};

const ACKS: AckTable = AckTable { data: b'.', eof: b'!', extended_address: b'+' };

fn three_records() -> CommandSequence {
    let mut encoder = RecordEncoder::begin(0);
    assert_eq!(encoder.push_chunk(&[1, 2, 3]), Ok(()));
    encoder.finish()
}

fn write(index: usize, line: &str) -> Action {
    Action::Write { index, line: line.to_string() }
}

/// A device that answers each record with the next byte of `answers`, over
/// a transport that never fails.  Returns every line that was written.
fn deliver(session: &mut TransmissionSession, answers: &[u8]) -> (Vec<String>, Action) {
    let mut written: Vec<String> = Vec::new();
    let mut answers = answers.iter();
    let mut action = session.action();
    loop {
        let event = match &action {
            Action::Write { line, .. } => {
                written.push(line.clone());
                Event::Written(line.len())
            }
            Action::Flush => Event::Flushed,
            Action::Read => match answers.next() {
                Some(byte) => Event::Received { count: 1, first: *byte },
                None => Event::Cancelled,
            },
            Action::ClearInput { .. } => Event::Cleared,
            Action::Finished | Action::Abort { .. } => return (written, action),
        };
        action = session.step(event);
    }
}

#[test]
fn session_starts_by_writing_the_first_record() {
    let session = TransmissionSession::new(three_records(), ACKS, None);
    assert_eq!(session.action(), write(0, ":020000040000FA"));
    assert_eq!(session.phase(), Phase::Sending);
    assert_eq!(session.acknowledged(), 0);
    assert_eq!(session.commands().len(), 3);
}

#[test]
fn every_record_is_written_flushed_and_awaited_in_order() {
    let mut session = TransmissionSession::new(three_records(), ACKS, None);
    assert_eq!(session.step(Event::Written(15)), Action::Flush);
    assert_eq!(session.phase(), Phase::Flushing);
    assert_eq!(session.step(Event::Flushed), Action::Read);
    assert_eq!(session.phase(), Phase::AwaitingAck);
    assert_eq!(
        session.step(Event::Received { count: 1, first: b'+' }),
        write(1, ":03000000010203F7")
    );
    assert_eq!(session.acknowledged(), 1);
    assert_eq!(session.step(Event::Written(17)), Action::Flush);
    assert_eq!(session.step(Event::Flushed), Action::Read);
    assert_eq!(
        session.step(Event::Received { count: 5, first: b'.' }),
        write(2, ":00000001FF")
    );
    assert_eq!(session.acknowledged(), 2);
    assert_eq!(session.step(Event::Written(11)), Action::Flush);
    assert_eq!(session.step(Event::Flushed), Action::Read);
    assert_eq!(session.step(Event::Received { count: 1, first: b'!' }), Action::Finished);
    assert_eq!(session.acknowledged(), 3);
    assert_eq!(session.phase(), Phase::Acked);
}

#[test]
fn wrong_answer_twice_sends_the_record_three_times() {
    let mut session = TransmissionSession::new(three_records(), ACKS, None);
    let (written, last) = deliver(&mut session, &[b'?', b'x', b'+', b'.', b'!']);
    assert_eq!(last, Action::Finished);
    assert_eq!(
        written,
        vec![
            ":020000040000FA",
            ":020000040000FA",
            ":020000040000FA",
            ":03000000010203F7",
            ":00000001FF",
        ]
    );
}

#[test]
fn wrong_answer_is_reported_and_the_input_cleared_before_the_resend() {
    let mut session = TransmissionSession::new(three_records(), ACKS, None);
    session.step(Event::Written(15));
    session.step(Event::Flushed);
    assert_eq!(
        session.step(Event::Received { count: 2, first: b'N' }),
        Action::ClearInput { nack: b'N' }
    );
    assert_eq!(session.phase(), Phase::Retrying { nack: b'N' });
    assert_eq!(session.acknowledged(), 0);
    assert_eq!(session.step(Event::Cleared), write(0, ":020000040000FA"));
    assert_eq!(session.acknowledged(), 0);
}

#[test]
fn acknowledgement_of_another_kind_is_a_wrong_answer() {
    let mut session = TransmissionSession::new(three_records(), ACKS, None);
    session.step(Event::Written(15));
    session.step(Event::Flushed);
    // The byte for data records does not acknowledge a bank record.
    assert_eq!(
        session.step(Event::Received { count: 1, first: b'.' }),
        Action::ClearInput { nack: b'.' }
    );
}

#[test]
fn timeout_reads_again_without_limit() {
    let mut session = TransmissionSession::new(three_records(), ACKS, None);
    session.step(Event::Written(15));
    session.step(Event::Flushed);
    for _ in 0..1000 {
        assert_eq!(session.step(Event::Received { count: 0, first: b'+' }), Action::Read);
    }
    assert_eq!(session.acknowledged(), 0);
    assert_eq!(
        session.step(Event::Received { count: 1, first: b'+' }),
        write(1, ":03000000010203F7")
    );
}

#[test]
fn transport_failure_aborts_in_every_phase() {
    let prefixes: [&[Event]; 4] = [
        &[],
        &[Event::Written(15)],
        &[Event::Written(15), Event::Flushed],
        &[Event::Written(15), Event::Flushed, Event::Received { count: 1, first: 0 }],
    ];
    for prefix in prefixes {
        let mut session = TransmissionSession::new(three_records(), ACKS, None);
        for event in prefix {
            session.step(*event);
        }
        let abort = Action::Abort { cause: AbortCause::TransportFailure };
        assert_eq!(session.step(Event::Failed), abort);
        assert_eq!(session.phase(), Phase::Aborted { cause: AbortCause::TransportFailure });
        assert_eq!(session.acknowledged(), 0);
        // An aborted session stays aborted.
        assert_eq!(session.step(Event::Received { count: 1, first: b'+' }), abort);
        assert_eq!(session.step(Event::Written(15)), abort);
        assert_eq!(session.acknowledged(), 0);
    }
}

#[test]
fn abort_reports_how_many_records_were_acknowledged() {
    let mut session = TransmissionSession::new(three_records(), ACKS, None);
    let (written, last) = deliver(&mut session, &[b'+', b'.']);
    assert_eq!(last, Action::Abort { cause: AbortCause::Cancelled });
    assert_eq!(written.len(), 3);
    assert_eq!(session.acknowledged(), 2);
}

#[test]
fn short_write_aborts() {
    let mut session = TransmissionSession::new(three_records(), ACKS, None);
    assert_eq!(
        session.step(Event::Written(14)),
        Action::Abort { cause: AbortCause::ShortWrite }
    );
    let mut session = TransmissionSession::new(three_records(), ACKS, None);
    assert_eq!(
        session.step(Event::Written(16)),
        Action::Abort { cause: AbortCause::ShortWrite }
    );
}

#[test]
fn event_that_answers_nothing_aborts() {
    let mut session = TransmissionSession::new(three_records(), ACKS, None);
    assert_eq!(
        session.step(Event::Flushed),
        Action::Abort { cause: AbortCause::UnexpectedEvent }
    );
    let mut session = TransmissionSession::new(three_records(), ACKS, None);
    session.step(Event::Written(15));
    assert_eq!(
        session.step(Event::Received { count: 1, first: b'+' }),
        Action::Abort { cause: AbortCause::UnexpectedEvent }
    );
    assert_eq!(session.acknowledged(), 0);
    let mut session = TransmissionSession::new(three_records(), ACKS, None);
    session.step(Event::Written(15));
    session.step(Event::Flushed);
    assert_eq!(
        session.step(Event::Cleared),
        Action::Abort { cause: AbortCause::UnexpectedEvent }
    );
}

#[test]
fn retry_limit_bounds_wrong_answers() {
    let mut session = TransmissionSession::new(three_records(), ACKS, Some(2));
    let (written, last) = deliver(&mut session, &[b'?', b'?', b'?', b'+']);
    assert_eq!(last, Action::Abort { cause: AbortCause::RetriesExhausted });
    assert_eq!(written.len(), 3);
    assert_eq!(session.acknowledged(), 0);
}

#[test]
fn retry_limit_counts_for_each_record_anew() {
    let mut session = TransmissionSession::new(three_records(), ACKS, Some(2));
    let answers = [b'?', b'?', b'+', b'?', b'?', b'.', b'?', b'?', b'!'];
    let (written, last) = deliver(&mut session, &answers);
    assert_eq!(last, Action::Finished);
    assert_eq!(written.len(), 9);
    assert_eq!(session.acknowledged(), 3);
}

#[test]
fn retry_limit_of_zero_aborts_on_the_first_wrong_answer() {
    let mut session = TransmissionSession::new(three_records(), ACKS, Some(0));
    let (written, last) = deliver(&mut session, &[b'?']);
    assert_eq!(last, Action::Abort { cause: AbortCause::RetriesExhausted });
    assert_eq!(written.len(), 1);
}

#[test]
fn retry_limit_bounds_timeouts() {
    let mut session = TransmissionSession::new(three_records(), ACKS, Some(3));
    session.step(Event::Written(15));
    session.step(Event::Flushed);
    let timeout = Event::Received { count: 0, first: 0 };
    assert_eq!(session.step(timeout), Action::Read);
    assert_eq!(session.step(timeout), Action::Read);
    assert_eq!(session.step(timeout), Action::Read);
    assert_eq!(session.step(timeout), Action::Abort { cause: AbortCause::TimedOut });
}

#[test]
fn finished_session_ignores_events() {
    let mut session = TransmissionSession::new(three_records(), ACKS, None);
    let (_, last) = deliver(&mut session, &[b'+', b'.', b'!']);
    assert_eq!(last, Action::Finished);
    assert_eq!(session.step(Event::Failed), Action::Finished);
    assert_eq!(session.step(Event::Cancelled), Action::Finished);
    assert_eq!(session.step(Event::Written(3)), Action::Finished);
    assert_eq!(session.acknowledged(), 3);
}

#[test]
fn records_are_written_in_order_under_any_answers() {
    let mut encoder = RecordEncoder::begin(0xFFF0);
    for round in 0..8u8 {
        assert_eq!(encoder.push_chunk(&[round; 5]), Ok(()));
    }
    let sequence = encoder.finish();
    let lines = sequence.lines();
    let mut session = TransmissionSession::new(sequence, ACKS, None);
    let mut state: u32 = 12345;
    let mut action = session.action();
    let mut steps = 0;
    while action != Action::Finished {
        steps += 1;
        assert!(steps < 100_000);
        let before = session.acknowledged();
        let event = match &action {
            Action::Write { index, line } => {
                assert_eq!(*index, before);
                assert_eq!(line, &lines[*index]);
                Event::Written(line.len())
            }
            Action::Flush => Event::Flushed,
            Action::Read => {
                state = state.wrapping_mul(1_103_515_245).wrapping_add(12345);
                let byte = [b'+', b'.', b'!', b'?'][(state >> 16) as usize % 4];
                Event::Received { count: (state >> 8) as usize % 2, first: byte }
            }
            Action::ClearInput { .. } => Event::Cleared,
            Action::Finished | Action::Abort { .. } => unreachable!(),
        };
        action = session.step(event);
        let after = session.acknowledged();
        assert!(after == before || after == before + 1);
    }
    assert_eq!(session.acknowledged(), lines.len());
}
