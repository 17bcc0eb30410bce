use tracing_scripts::{
    DecodeError, Field, GeneralEventData, NumberError, header_record, parse_queue_line,
};

fn row(fields: &[&str]) -> Vec<String> {
    fields.iter().map(|f| f.to_string()).collect()
}

#[test]
fn record_holds_the_columns_in_order() {
    let e = parse_queue_line("4;40;10;20;1;5;producer").unwrap();
    assert_eq!(
        e.to_record(),
        row(&["traceQUEUE_SEND", "10", "20", "1", "40", "5", "producer"])
    );
}

#[test]
fn record_round_trip_keeps_every_field() {
    let e = GeneralEventData {
        eventtype: "traceTASK_DELAY".to_string(),
        tick: 0,
        timestamp: u32::MAX,
        taskid: 1307,
        affected_object: 90,
        delay: 1000000,
        task_name: "with, comma".to_string(),
    };
    let back = GeneralEventData::from_record(&e.to_record()).unwrap();
    assert_eq!(back, e);
}

#[test]
fn record_with_bad_column_is_refused() {
    assert_eq!(
        GeneralEventData::from_record(&row(&["t", "1", "2", "3", "x", "5", "n"])),
        Err(DecodeError::FieldParse { field: Field::AffectedObject, reason: NumberError::InvalidDigit })
    );
    assert_eq!(
        GeneralEventData::from_record(&row(&["t", "1"])),
        Err(DecodeError::MalformedLine { expected: 7, actual: 2 })
    );
}

#[test]
fn record_columns_are_not_trimmed() {
    assert_eq!(
        GeneralEventData::from_record(&row(&["t", " 1", "2", "3", "4", "5", "n"])),
        Err(DecodeError::FieldParse { field: Field::Tick, reason: NumberError::InvalidDigit })
    );
}

#[test]
fn header_names_the_columns() {
    assert_eq!(
        header_record(),
        row(&["eventtype", "tick", "timestamp", "taskid", "affected_object", "delay", "task_name"])
    );
}
