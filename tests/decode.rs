use tracing_scripts::{
    DecodeError, Field, NumberError, parse_queue_line, parse_task_line, parse_tick_line,
};

const TASK_TAGS: [&str; 7] = [
    "traceTASK_CREATE",
    "traceTASK_CREATE_FAILED",
    "traceTASK_DELETE",
    "traceTASK_DELAY",
    "traceTASK_DELAY_UNTIL",
    "traceTASK_SWITCHED_IN",
    "traceTASK_SWITCHED_OUT",
];

const QUEUE_TAGS: [&str; 9] = [
    "traceQUEUE_RECEIVE",
    "traceQUEUE_RECEIVE_FAILED",
    "traceQUEUE_RECEIVE_FROM_ISR",
    "traceQUEUE_RECEIVE_FROM_ISR_FAILED",
    "traceQUEUE_SEND",
    "traceQUEUE_SEND_FAILED",
    "traceQUEUE_SEND_FROM_ISR",
    "traceQUEUE_SEND_FROM_ISR_FAILED",
    "traceQUEUE_SET_SEND",
];

#[test]
fn task_codes_give_their_protocol_names() {
    for (code, tag) in TASK_TAGS.iter().enumerate() {
        let e = parse_task_line(&format!("{};10;20;1;2;3;idle", code)).unwrap();
        assert_eq!(e.eventtype, *tag);
    }
}

#[test]
fn task_code_out_of_range_is_unknown() {
    assert_eq!(
        parse_task_line("7;10;20;1;2;3;idle"),
        Err(DecodeError::UnknownEventCode { code: 7 })
    );
}

#[test]
fn queue_codes_give_their_protocol_names() {
    for (code, tag) in QUEUE_TAGS.iter().enumerate() {
        let e = parse_queue_line(&format!("{};40;10;20;1;5;producer", code)).unwrap();
        assert_eq!(e.eventtype, *tag);
    }
}

#[test]
fn queue_code_out_of_range_is_unknown() {
    assert_eq!(
        parse_queue_line("9;40;10;20;1;5;producer"),
        Err(DecodeError::UnknownEventCode { code: 9 })
    );
}

#[test]
fn task_payload_fields_are_mapped() {
    let e = parse_task_line(" 2 ; 11 ;12;13; 14;15;  worker ").unwrap();
    assert_eq!(e.eventtype, "traceTASK_DELETE");
    assert_eq!(e.tick, 11);
    assert_eq!(e.timestamp, 12);
    assert_eq!(e.taskid, 13);
    assert_eq!(e.affected_object, 14);
    assert_eq!(e.delay, 15);
    assert_eq!(e.task_name, "worker");
}

#[test]
fn queue_payload_fields_are_mapped() {
    let e = parse_queue_line("4;40;10;20;1;5;producer").unwrap();
    assert_eq!(e.eventtype, "traceQUEUE_SEND");
    assert_eq!(e.affected_object, 40);
    assert_eq!(e.tick, 10);
    assert_eq!(e.timestamp, 20);
    assert_eq!(e.taskid, 1);
    assert_eq!(e.delay, 5);
    assert_eq!(e.task_name, "producer");
}

#[test]
fn tick_payload_fields_are_mapped() {
    let e = parse_tick_line("100;1000;101;1307;Blas").unwrap();
    assert_eq!(e.eventtype, "traceTASK_INCREMENT_TICK");
    assert_eq!(e.tick, 100);
    assert_eq!(e.timestamp, 1000);
    assert_eq!(e.affected_object, 101);
    assert_eq!(e.taskid, 1307);
    assert_eq!(e.delay, 1);
    assert_eq!(e.task_name, "Blas");
}

#[test]
fn header_rows_are_recognised() {
    assert_eq!(
        parse_task_line("Message Type;Tick;Time;Task;Affected;Delay;Name"),
        Err(DecodeError::HeaderRow)
    );
    assert_eq!(
        parse_queue_line(" Message Type ;Queue;Tick;Time;Task;Wait;Name"),
        Err(DecodeError::HeaderRow)
    );
    assert_eq!(
        parse_tick_line("C Time;Time;New;Task;Name"),
        Err(DecodeError::HeaderRow)
    );
}

#[test]
fn wrong_field_count_is_malformed() {
    assert_eq!(
        parse_task_line("0;10;20;1;2;3"),
        Err(DecodeError::MalformedLine { expected: 7, actual: 6 })
    );
    assert_eq!(
        parse_queue_line("0;1;2;3;4;5;6;7"),
        Err(DecodeError::MalformedLine { expected: 7, actual: 8 })
    );
    assert_eq!(
        parse_tick_line(""),
        Err(DecodeError::MalformedLine { expected: 5, actual: 1 })
    );
}

#[test]
fn bad_numbers_name_their_field() {
    assert_eq!(
        parse_task_line("x;10;20;1;2;3;idle"),
        Err(DecodeError::FieldParse { field: Field::EventType, reason: NumberError::InvalidDigit })
    );
    assert_eq!(
        parse_task_line("0;10;;1;2;3;idle"),
        Err(DecodeError::FieldParse { field: Field::Timestamp, reason: NumberError::Empty })
    );
    assert_eq!(
        parse_queue_line("0;40;10;20;1;4294967296;p"),
        Err(DecodeError::FieldParse { field: Field::TicksToWait, reason: NumberError::PosOverflow })
    );
    assert_eq!(
        parse_tick_line("1;2;-3;4;n"),
        Err(DecodeError::FieldParse { field: Field::NewTickTime, reason: NumberError::InvalidDigit })
    );
}

#[test]
fn first_bad_field_wins() {
    assert_eq!(
        parse_task_line("0;a;b;1;2;3;idle"),
        Err(DecodeError::FieldParse { field: Field::Tick, reason: NumberError::InvalidDigit })
    );
}

#[test]
fn every_field_is_read_before_the_code_is_mapped() {
    assert_eq!(
        parse_task_line("9;x;1;1;1;1;n"),
        Err(DecodeError::FieldParse { field: Field::Tick, reason: NumberError::InvalidDigit })
    );
    assert_eq!(
        parse_queue_line("12;1;1;1;1;;n"),
        Err(DecodeError::FieldParse { field: Field::TicksToWait, reason: NumberError::Empty })
    );
}

#[test]
fn unknown_code_once_the_fields_read() {
    assert_eq!(
        parse_task_line("9;1;1;1;1;1;n"),
        Err(DecodeError::UnknownEventCode { code: 9 })
    );
}

#[test]
fn numbers_take_a_plus_sign_and_the_largest_value() {
    let e = parse_tick_line("+4294967295;0;0;0;n").unwrap();
    assert_eq!(e.tick, u32::MAX);
    assert_eq!(
        parse_tick_line("+;0;0;0;n"),
        Err(DecodeError::FieldParse { field: Field::Tick, reason: NumberError::InvalidDigit })
    );
}
