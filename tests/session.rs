use tracing_scripts::{DecodeError, LineOutcome, NumberError, SerialEventDataIterator};

/// Feeds the bytes and collects what the completed lines gave.
fn feed(session: &mut SerialEventDataIterator, text: &str) -> Vec<LineOutcome> {
    let mut out = vec![];
    for b in text.bytes() {
        if let Some(o) = session.push_byte(b) {
            out.push(o);
        }
    }
    out
}

#[test]
fn task_line_gives_an_event() {
    let mut s = SerialEventDataIterator::new();
    let out = feed(&mut s, "I (123) TASK_DEBUG: 5;10;20;1;0;0;idle\r\n");
    assert_eq!(out.len(), 1);
    match &out[0] {
        LineOutcome::Event(e) => {
            assert_eq!(e.eventtype, "traceTASK_SWITCHED_IN");
            assert_eq!(e.tick, 10);
            assert_eq!(e.task_name, "idle");
        }
        other => panic!("unexpected {:?}", other),
    }
}

#[test]
fn colour_reset_is_stripped_from_the_payload() {
    let mut s = SerialEventDataIterator::new();
    let out = feed(&mut s, "I (1) QUEUE_DEBUG: 4;40;10;20;1;5;producer[0m\n");
    match &out[0] {
        LineOutcome::Event(e) => assert_eq!(e.task_name, "producer"),
        other => panic!("unexpected {:?}", other),
    }
}

#[test]
fn tick_line_gives_an_event() {
    let mut s = SerialEventDataIterator::new();
    let out = feed(&mut s, "D (9) TICK_DEBUG: 100;1000;101;1307;Blas\n");
    match &out[0] {
        LineOutcome::Event(e) => {
            assert_eq!(e.eventtype, "traceTASK_INCREMENT_TICK");
            assert_eq!(e.delay, 1);
        }
        other => panic!("unexpected {:?}", other),
    }
}

#[test]
fn header_rows_are_passed_over_silently() {
    let mut s = SerialEventDataIterator::new();
    let out = feed(
        &mut s,
        "I (1) TASK_DEBUG: Message Type;Tick;Time;Task;Affected;Delay;Name\n\
         I (1) QUEUE_DEBUG: Message Type;Queue;Tick;Time;Task;Wait;Name\n\
         I (1) TICK_DEBUG: C Time;Time;New;Task;Name\n",
    );
    assert_eq!(out.len(), 3);
    for o in &out {
        assert!(matches!(o, LineOutcome::Ignored));
    }
}

#[test]
fn bad_payload_is_rejected_and_the_session_goes_on() {
    let mut s = SerialEventDataIterator::new();
    let out = feed(&mut s, "I (1) TASK_DEBUG: 9;1;2;3;4;5;x\nI (2) TASK_DEBUG: 6;1;2;3;4;5;x\n");
    assert!(matches!(out[0], LineOutcome::Rejected(DecodeError::UnknownEventCode { code: 9 })));
    assert!(matches!(out[1], LineOutcome::Event(_)));
}

#[test]
fn lines_without_a_command_are_ignored() {
    let mut s = SerialEventDataIterator::new();
    let out = feed(&mut s, "boot message without colon\nonly two: words\n");
    assert_eq!(out.len(), 2);
    assert!(matches!(out[0], LineOutcome::Ignored));
    assert!(matches!(out[1], LineOutcome::Ignored));
}

#[test]
fn task_names_fill_the_name_table() {
    let mut s = SerialEventDataIterator::new();
    let out = feed(&mut s, "I (1) TASK_NAME: 1;idle \nI (2) TASK_NAME: 2;main\n");
    assert!(matches!(out[0], LineOutcome::Named));
    assert_eq!(s.task_names(), &["1,idle".to_string(), "2,main".to_string()]);
}

#[test]
fn unknown_tags_are_passed_through() {
    let mut s = SerialEventDataIterator::new();
    let out = feed(&mut s, "W (5) wifi: connected [0m\n");
    match &out[0] {
        LineOutcome::Diagnostic { tag, payload } => {
            assert_eq!(tag, "wifi");
            assert_eq!(payload, " connected ");
        }
        other => panic!("unexpected {:?}", other),
    }
}

#[test]
fn finish_flag_ends_the_session_with_its_code() {
    let mut s = SerialEventDataIterator::new();
    let out = feed(&mut s, "I (1) FINISH_FLAG:7\nI (2) TASK_DEBUG: 5;10;20;1;0;0;idle\n");
    assert_eq!(out.len(), 1);
    assert!(matches!(out[0], LineOutcome::Finished(7)));
    assert_eq!(s.return_value(), Some(7));
    assert!(s.is_finished());
}

#[test]
fn finish_flag_with_negative_code() {
    let mut s = SerialEventDataIterator::new();
    let out = feed(&mut s, "I (1) FINISH_FLAG: -2 \n");
    assert!(matches!(out[0], LineOutcome::Finished(-2)));
}

#[test]
fn finish_flag_without_a_number_is_fatal() {
    let mut s = SerialEventDataIterator::new();
    let out = feed(&mut s, "I (1) FINISH_FLAG:abc\nI (2) TASK_DEBUG: 5;10;20;1;0;0;idle\n");
    assert_eq!(out.len(), 1);
    assert!(matches!(out[0], LineOutcome::BadExitCode(NumberError::InvalidDigit)));
    assert_eq!(s.return_value(), None);
    assert_eq!(s.exit_code_error(), Some(NumberError::InvalidDigit));
    assert!(s.is_finished());
}

#[test]
fn no_exit_code_before_the_sentinel() {
    let mut s = SerialEventDataIterator::new();
    feed(&mut s, "I (1) TASK_DEBUG: 5;10;20;1;0;0;idle\n");
    assert_eq!(s.return_value(), None);
    assert_eq!(s.exit_code_error(), None);
    assert!(!s.is_finished());
}

#[test]
fn partial_line_gives_nothing_yet() {
    let mut s = SerialEventDataIterator::new();
    let out = feed(&mut s, "I (1) TASK_DEBUG: 5;10;20;1;0;0;idle");
    assert!(out.is_empty());
    let out = feed(&mut s, "\n");
    assert!(matches!(out[0], LineOutcome::Event(_)));
}
