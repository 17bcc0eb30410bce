//! Decoding of the semicolon-separated payloads of the task, queue and tick
//! channels into canonical events.

use vstd::prelude::*;

use crate::event::{
    EventView, GeneralEventData, QueueData, QueueEventType, TaskData, TaskEventType, TickData,
    TickEventType, queue_kind_of, task_kind_of, tick_distance,
};
use crate::text::{
    NumberError, chars_of, lemma_split_nonempty, parse_u32, same_text, split, split_on, texts,
    trim, trimmed, u32_of,
};

verus! {

/// A numeric field of a payload.
#[derive(Debug, Clone, Copy, PartialEq, Eq, Structural)]
pub enum Field {
    EventType,
    Queue,
    Tick,
    Timestamp,
    TaskId,
    AffectedTaskId,
    Delay,
    TicksToWait,
    NewTickTime,
    AffectedObject,
}

/// Why a payload gave no event.
#[derive(Debug, Clone, Copy, PartialEq, Eq, Structural)]
pub enum DecodeError {
    /// The payload does not have the channel's number of fields.
    MalformedLine { expected: usize, actual: usize },
    /// The payload is the column header that the device prints before its
    /// data; not a fault.
    HeaderRow,
    /// A numeric field does not hold a number of its type.
    FieldParse { field: Field, reason: NumberError },
    /// The event code names no event of the channel.
    UnknownEventCode { code: u32 },
}

/// The outcome of decoding, with the event as its mathematical value.
pub open spec fn viewed(r: Result<GeneralEventData, DecodeError>) -> Result<EventView, DecodeError> {
    match r {
        Ok(e) => Ok(e@),
        Err(e) => Err(e),
    }
}

/// Reads each field, trimmed, as an unsigned decimal; the first that fails
/// gives the error, named after its entry of `names`.
pub open spec fn numbers_of(fields: Seq<Seq<char>>, names: Seq<Field>) -> Result<
    Seq<u32>,
    DecodeError,
>
    decreases fields.len(),
{
    if fields.len() == 0 {
        Ok(Seq::empty())
    } else {
        match numbers_of(fields.drop_last(), names.drop_last()) {
            Err(e) => Err(e),
            Ok(vs) => match u32_of(trimmed(fields.last())) {
                Err(k) => Err(DecodeError::FieldParse { field: names[fields.len() - 1], reason: k }),
                Ok(v) => Ok(vs.push(v)),
            },
        }
    }
}

/// The header that the task and queue channels print first.
pub open spec fn message_header() -> Seq<char> {
    "Message Type"@
}

/// The header that the tick channel prints first.
pub open spec fn tick_header() -> Seq<char> {
    "C Time"@
}

/// The numeric fields of a task payload after the event code, in order.
pub open spec fn task_fields() -> Seq<Field> {
    seq![Field::Tick, Field::Timestamp, Field::TaskId, Field::AffectedTaskId, Field::Delay]
}

/// The numeric fields of a queue payload after the event code, in order.
pub open spec fn queue_fields() -> Seq<Field> {
    seq![Field::Queue, Field::Tick, Field::Timestamp, Field::TaskId, Field::TicksToWait]
}

/// The numeric fields of a tick payload, in order.
pub open spec fn tick_fields() -> Seq<Field> {
    seq![Field::Tick, Field::Timestamp, Field::NewTickTime, Field::TaskId]
}

/// The event that a task payload
/// `event_code;tick;timestamp;task_id;affected_task_id;delay;task_name` stands
/// for.
pub open spec fn task_payload(line: Seq<char>) -> Result<EventView, DecodeError> {
    let f = split_on(line, ';');
    if f.len() != 7 {
        Err(DecodeError::MalformedLine { expected: 7, actual: f.len() as usize })
    } else if trimmed(f[0]) == message_header() {
        Err(DecodeError::HeaderRow)
    } else {
        match u32_of(trimmed(f[0])) {
            Err(k) => Err(DecodeError::FieldParse { field: Field::EventType, reason: k }),
            Ok(code) => match numbers_of(f.subrange(1, 6), task_fields()) {
                Err(e) => Err(e),
                Ok(n) => match task_kind_of(code) {
                    None => Err(DecodeError::UnknownEventCode { code }),
                    Some(kind) => Ok(
                        EventView {
                            tag: kind.tag(),
                            tick: n[0],
                            timestamp: n[1],
                            taskid: n[2],
                            affected_object: n[3],
                            delay: n[4],
                            task_name: trimmed(f[6]),
                        },
                    ),
                },
            },
        }
    }
}

/// The event that a queue payload
/// `event_code;queue_id;tick;timestamp;task_id;ticks_to_wait;task_name` stands
/// for.
pub open spec fn queue_payload(line: Seq<char>) -> Result<EventView, DecodeError> {
    let f = split_on(line, ';');
    if f.len() != 7 {
        Err(DecodeError::MalformedLine { expected: 7, actual: f.len() as usize })
    } else if trimmed(f[0]) == message_header() {
        Err(DecodeError::HeaderRow)
    } else {
        match u32_of(trimmed(f[0])) {
            Err(k) => Err(DecodeError::FieldParse { field: Field::EventType, reason: k }),
            Ok(code) => match numbers_of(f.subrange(1, 6), queue_fields()) {
                Err(e) => Err(e),
                Ok(n) => match queue_kind_of(code) {
                    None => Err(DecodeError::UnknownEventCode { code }),
                    Some(kind) => Ok(
                        EventView {
                            tag: kind.tag(),
                            tick: n[1],
                            timestamp: n[2],
                            taskid: n[3],
                            affected_object: n[0],
                            delay: n[4],
                            task_name: trimmed(f[6]),
                        },
                    ),
                },
            },
        }
    }
}

/// The event that a tick payload `tick;timestamp;new_tick_time;task_id;task_name`
/// stands for.
pub open spec fn tick_payload(line: Seq<char>) -> Result<EventView, DecodeError> {
    let f = split_on(line, ';');
    if f.len() != 5 {
        Err(DecodeError::MalformedLine { expected: 5, actual: f.len() as usize })
    } else if trimmed(f[0]) == tick_header() {
        Err(DecodeError::HeaderRow)
    } else {
        match numbers_of(f.subrange(0, 4), tick_fields()) {
            Err(e) => Err(e),
            Ok(n) => Ok(
                EventView {
                    tag: TickEventType::IncrementTick.tag(),
                    tick: n[0],
                    timestamp: n[1],
                    taskid: n[3],
                    affected_object: n[2],
                    delay: tick_distance(n[0], n[2]),
                    task_name: trimmed(f[4]),
                },
            ),
        }
    }
}

/// Reads `names.len()` numeric fields starting at `fields[from]`.
fn numbers(fields: &Vec<Vec<char>>, from: usize, names: &Vec<Field>) -> (r: Result<
    Vec<u32>,
    DecodeError,
>)
    requires
        from + names@.len() <= fields@.len(),
    ensures
        match r {
            Ok(v) => numbers_of(
                texts(fields@).subrange(from as int, from + names@.len()),
                names@,
            ) == Ok::<Seq<u32>, DecodeError>(v@) && v@.len() == names@.len(),
            Err(e) => numbers_of(
                texts(fields@).subrange(from as int, from + names@.len()),
                names@,
            ) == Err::<Seq<u32>, DecodeError>(e),
        },
{
    let ghost all = texts(fields@).subrange(from as int, from + names@.len());
    let mut vals: Vec<u32> = Vec::new();
    let mut k: usize = 0;
    assert(all.take(0) =~= Seq::<Seq<char>>::empty());
    while k < names.len()
        invariant
            from + names@.len() <= fields@.len(),
            all == texts(fields@).subrange(from as int, from + names@.len()),
            0 <= k <= names@.len(),
            from + names@.len() <= fields.len(),
            vals@.len() == k,
            numbers_of(all.take(k as int), names@.take(k as int)) == Ok::<
                Seq<u32>,
                DecodeError,
            >(vals@),
        decreases names@.len() - k,
    {
        assert(all.take(k + 1).drop_last() =~= all.take(k as int));
        assert(names@.take(k + 1).drop_last() =~= names@.take(k as int));
        assert(all.take(k + 1).last() == fields@[from + k]@);
        let t = trim(fields[from + k].as_slice());
        match parse_u32(t.as_slice()) {
            Err(reason) => {
                let err = DecodeError::FieldParse { field: names[k], reason };
                proof {
                    lemma_numbers_prefix_err(all, names@, (k + 1) as int, err);
                }
                assert(all.take(names@.len() as int) =~= all);
                assert(names@.take(names@.len() as int) =~= names@);
                return Err(err);
            },
            Ok(v) => {
                vals.push(v);
            },
        }
        k += 1;
    }
    assert(all.take(names@.len() as int) =~= all);
    assert(names@.take(names@.len() as int) =~= names@);
    Ok(vals)
}

/// An error on a prefix of the fields is the error of the whole.
proof fn lemma_numbers_prefix_err(
    fields: Seq<Seq<char>>,
    names: Seq<Field>,
    k: int,
    e: DecodeError,
)
    requires
        0 <= k <= fields.len(),
        fields.len() == names.len(),
        numbers_of(fields.take(k), names.take(k)) == Err::<Seq<u32>, DecodeError>(e),
    ensures
        numbers_of(fields, names) == Err::<Seq<u32>, DecodeError>(e),
    decreases fields.len() - k,
{
    if k < fields.len() {
        assert(fields.take(k + 1).drop_last() =~= fields.take(k));
        assert(names.take(k + 1).drop_last() =~= names.take(k));
        lemma_numbers_prefix_err(fields, names, k + 1, e);
    } else {
        assert(fields.take(k) =~= fields);
        assert(names.take(k) =~= names);
    }
}

/// Decodes a task payload
/// `event_code;tick;timestamp;task_id;affected_task_id;delay;task_name`.
/// Every numeric field is read before the event code is mapped to its kind.
pub fn parse_task_line(line: &str) -> (r: Result<GeneralEventData, DecodeError>)
    ensures
        viewed(r) == task_payload(line@),
{
    let chars = chars_of(line);
    let f = split(chars.as_slice(), ';');
    proof {
        lemma_split_nonempty(line@, ';');
    }
    if f.len() != 7 {
        return Err(DecodeError::MalformedLine { expected: 7, actual: f.len() });
    }
    assert(texts(f@)[0] == f@[0]@);
    let first = trim(f[0].as_slice());
    if same_text(first.as_slice(), "Message Type") {
        return Err(DecodeError::HeaderRow);
    }
    let code = match parse_u32(first.as_slice()) {
        Ok(c) => c,
        Err(reason) => {
            return Err(DecodeError::FieldParse { field: Field::EventType, reason });
        },
    };
    let names = vec![
        Field::Tick,
        Field::Timestamp,
        Field::TaskId,
        Field::AffectedTaskId,
        Field::Delay,
    ];
    assert(names@ =~= task_fields());
    let n = match numbers(&f, 1, &names) {
        Ok(n) => n,
        Err(e) => {
            return Err(e);
        },
    };
    let kind = match TaskEventType::try_from(code) {
        Ok(k) => k,
        Err(_) => {
            return Err(DecodeError::UnknownEventCode { code });
        },
    };
    assert(texts(f@)[6] == f@[6]@);
    let name_chars = trim(f[6].as_slice());
    let data = TaskData {
        eventtype: kind,
        tick: n[0],
        timestamp: n[1],
        taskid: n[2],
        affected_task_id: n[3],
        delay: n[4],
        task_name: crate::text::string_of(name_chars.as_slice()),
    };
    Ok(GeneralEventData::from(data))
}


/// Decodes a queue payload
/// `event_code;queue_id;tick;timestamp;task_id;ticks_to_wait;task_name`.
/// Every numeric field is read before the event code is mapped to its kind.
pub fn parse_queue_line(line: &str) -> (r: Result<GeneralEventData, DecodeError>)
    ensures
        viewed(r) == queue_payload(line@),
{
    let chars = chars_of(line);
    let f = split(chars.as_slice(), ';');
    proof {
        lemma_split_nonempty(line@, ';');
    }
    if f.len() != 7 {
        return Err(DecodeError::MalformedLine { expected: 7, actual: f.len() });
    }
    assert(texts(f@)[0] == f@[0]@);
    let first = trim(f[0].as_slice());
    if same_text(first.as_slice(), "Message Type") {
        return Err(DecodeError::HeaderRow);
    }
    let code = match parse_u32(first.as_slice()) {
        Ok(c) => c,
        Err(reason) => {
            return Err(DecodeError::FieldParse { field: Field::EventType, reason });
        },
    };
    let names = vec![
        Field::Queue,
        Field::Tick,
        Field::Timestamp,
        Field::TaskId,
        Field::TicksToWait,
    ];
    assert(names@ =~= queue_fields());
    let n = match numbers(&f, 1, &names) {
        Ok(n) => n,
        Err(e) => {
            return Err(e);
        },
    };
    let kind = match QueueEventType::try_from(code) {
        Ok(k) => k,
        Err(_) => {
            return Err(DecodeError::UnknownEventCode { code });
        },
    };
    assert(texts(f@)[6] == f@[6]@);
    let name_chars = trim(f[6].as_slice());
    let data = QueueData {
        eventtype: kind,
        queue: n[0],
        tick: n[1],
        timestamp: n[2],
        taskid: n[3],
        ticks_to_wait: n[4],
        task_name: crate::text::string_of(name_chars.as_slice()),
    };
    Ok(GeneralEventData::from(data))
}

/// Decodes a tick payload `tick;timestamp;new_tick_time;task_id;task_name`.
pub fn parse_tick_line(line: &str) -> (r: Result<GeneralEventData, DecodeError>)
    ensures
        viewed(r) == tick_payload(line@),
{
    let chars = chars_of(line);
    let f = split(chars.as_slice(), ';');
    proof {
        lemma_split_nonempty(line@, ';');
    }
    if f.len() != 5 {
        return Err(DecodeError::MalformedLine { expected: 5, actual: f.len() });
    }
    assert(texts(f@)[0] == f@[0]@);
    let first = trim(f[0].as_slice());
    if same_text(first.as_slice(), "C Time") {
        return Err(DecodeError::HeaderRow);
    }
    let names = vec![Field::Tick, Field::Timestamp, Field::NewTickTime, Field::TaskId];
    assert(names@ =~= tick_fields());
    assert(f@.subrange(0, 4) =~= f@.take(4));
    let n = match numbers(&f, 0, &names) {
        Ok(n) => n,
        Err(e) => {
            return Err(e);
        },
    };
    assert(texts(f@)[4] == f@[4]@);
    let name_chars = trim(f[4].as_slice());
    let data = TickData {
        eventtype: TickEventType::IncrementTick,
        tick: n[0],
        timestamp: n[1],
        new_tick_time: n[2],
        taskid: n[3],
        task_name: crate::text::string_of(name_chars.as_slice()),
    };
    Ok(GeneralEventData::from(data))
}


/// The protocol names of the task event codes, indexed by code.
pub open spec fn task_protocol_names() -> Seq<Seq<char>> {
    seq![
        "traceTASK_CREATE"@,
        "traceTASK_CREATE_FAILED"@,
        "traceTASK_DELETE"@,
        "traceTASK_DELAY"@,
        "traceTASK_DELAY_UNTIL"@,
        "traceTASK_SWITCHED_IN"@,
        "traceTASK_SWITCHED_OUT"@,
    ]
}

/// The protocol names of the queue event codes, indexed by code.
pub open spec fn queue_protocol_names() -> Seq<Seq<char>> {
    seq![
        "traceQUEUE_RECEIVE"@,
        "traceQUEUE_RECEIVE_FAILED"@,
        "traceQUEUE_RECEIVE_FROM_ISR"@,
        "traceQUEUE_RECEIVE_FROM_ISR_FAILED"@,
        "traceQUEUE_SEND"@,
        "traceQUEUE_SEND_FAILED"@,
        "traceQUEUE_SEND_FROM_ISR"@,
        "traceQUEUE_SEND_FROM_ISR_FAILED"@,
        "traceQUEUE_SET_SEND"@,
    ]
}

proof fn lemma_header_is_no_number()
    ensures
        u32_of(message_header()) is Err,
{
    reveal_strlit("Message Type");
}

/// A task payload with seven fields whose numeric fields all read as numbers
/// decodes to an event tagged with the protocol name of its code when the
/// code is at most 6, and is refused as an unknown code otherwise.
pub proof fn lemma_task_code_names(line: Seq<char>, code: u32)
    requires
        split_on(line, ';').len() == 7,
        u32_of(trimmed(split_on(line, ';')[0])) == Ok::<u32, NumberError>(code),
        numbers_of(split_on(line, ';').subrange(1, 6), task_fields()) is Ok,
    ensures
        code <= 6 ==> (task_payload(line) matches Ok(e) && e.tag == task_protocol_names()[code as int]),
        code > 6 ==> task_payload(line) == Err::<EventView, DecodeError>(
            DecodeError::UnknownEventCode { code },
        ),
{
    lemma_header_is_no_number();
}

/// A queue payload with seven fields whose numeric fields all read as
/// numbers decodes to an event tagged with the protocol name of its code
/// when the code is at most 8, and is refused as an unknown code otherwise.
pub proof fn lemma_queue_code_names(line: Seq<char>, code: u32)
    requires
        split_on(line, ';').len() == 7,
        u32_of(trimmed(split_on(line, ';')[0])) == Ok::<u32, NumberError>(code),
        numbers_of(split_on(line, ';').subrange(1, 6), queue_fields()) is Ok,
    ensures
        code <= 8 ==> (queue_payload(line) matches Ok(e) && e.tag == queue_protocol_names()[code as int]),
        code > 8 ==> queue_payload(line) == Err::<EventView, DecodeError>(
            DecodeError::UnknownEventCode { code },
        ),
{
    lemma_header_is_no_number();
}

} // verus!
