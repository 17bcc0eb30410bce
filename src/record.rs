//! The storage row of a canonical event: the columns eventtype, tick,
//! timestamp, taskid, affected_object, delay and task_name, numbers in
//! decimal. Quoting and separators are the storage layer's business.

use vstd::prelude::*;

use crate::decode::{DecodeError, Field, viewed};
use crate::event::{EventView, GeneralEventData};
use crate::text::{chars_of, decimal, decimal_string, lemma_decimal_reads_back, parse_u32, u32_of};

verus! {

/// The column names of the storage row.
pub open spec fn record_header() -> Seq<Seq<char>> {
    seq![
        "eventtype"@,
        "tick"@,
        "timestamp"@,
        "taskid"@,
        "affected_object"@,
        "delay"@,
        "task_name"@,
    ]
}

/// The storage row of an event.
pub open spec fn record_of(e: EventView) -> Seq<Seq<char>> {
    seq![
        e.tag,
        decimal(e.tick as nat),
        decimal(e.timestamp as nat),
        decimal(e.taskid as nat),
        decimal(e.affected_object as nat),
        decimal(e.delay as nat),
        e.task_name,
    ]
}

/// Reads a numeric column as it stands, without trimming.
pub open spec fn column_number(f: Seq<char>, field: Field) -> Result<u32, DecodeError> {
    match u32_of(f) {
        Ok(v) => Ok(v),
        Err(k) => Err(DecodeError::FieldParse { field, reason: k }),
    }
}

/// The event that a storage row stands for; the first column that fails
/// gives the error.
pub open spec fn event_of_record(f: Seq<Seq<char>>) -> Result<EventView, DecodeError> {
    if f.len() != 7 {
        Err(DecodeError::MalformedLine { expected: 7, actual: f.len() as usize })
    } else {
        match column_number(f[1], Field::Tick) {
            Err(e) => Err(e),
            Ok(tick) => match column_number(f[2], Field::Timestamp) {
                Err(e) => Err(e),
                Ok(timestamp) => match column_number(f[3], Field::TaskId) {
                    Err(e) => Err(e),
                    Ok(taskid) => match column_number(f[4], Field::AffectedObject) {
                        Err(e) => Err(e),
                        Ok(affected_object) => match column_number(f[5], Field::Delay) {
                            Err(e) => Err(e),
                            Ok(delay) => Ok(
                                EventView {
                                    tag: f[0],
                                    tick,
                                    timestamp,
                                    taskid,
                                    affected_object,
                                    delay,
                                    task_name: f[6],
                                },
                            ),
                        },
                    },
                },
            },
        }
    }
}

/// The character sequences of a row of strings.
pub open spec fn row_texts(r: Seq<String>) -> Seq<Seq<char>> {
    r.map_values(|s: String| s@)
}

fn column(s: &String, field: Field) -> (r: Result<u32, DecodeError>)
    ensures
        r == column_number(s@, field),
{
    let c = chars_of(s.as_str());
    match parse_u32(c.as_slice()) {
        Ok(v) => Ok(v),
        Err(k) => Err(DecodeError::FieldParse { field, reason: k }),
    }
}

/// The column names of the storage row.
pub fn header_record() -> (r: Vec<String>)
    ensures
        row_texts(r@) == record_header(),
{
    let r = vec![
        String::from_str("eventtype"),
        String::from_str("tick"),
        String::from_str("timestamp"),
        String::from_str("taskid"),
        String::from_str("affected_object"),
        String::from_str("delay"),
        String::from_str("task_name"),
    ];
    assert(row_texts(r@) =~= record_header());
    r
}

impl GeneralEventData {
    /// The storage row of the event.
    pub fn to_record(&self) -> (r: Vec<String>)
        ensures
            row_texts(r@) == record_of(self@),
    {
        let r = vec![
            self.eventtype.clone(),
            decimal_string(self.tick),
            decimal_string(self.timestamp),
            decimal_string(self.taskid),
            decimal_string(self.affected_object),
            decimal_string(self.delay),
            self.task_name.clone(),
        ];
        assert(row_texts(r@) =~= record_of(self@));
        r
    }

    /// Reads an event back from its storage row.
    pub fn from_record(row: &[String]) -> (r: Result<GeneralEventData, DecodeError>)
        ensures
            viewed(r) == event_of_record(row_texts(row@)),
    {
        if row.len() != 7 {
            return Err(DecodeError::MalformedLine { expected: 7, actual: row.len() });
        }
        let tick = match column(&row[1], Field::Tick) {
            Ok(v) => v,
            Err(e) => {
                return Err(e);
            },
        };
        let timestamp = match column(&row[2], Field::Timestamp) {
            Ok(v) => v,
            Err(e) => {
                return Err(e);
            },
        };
        let taskid = match column(&row[3], Field::TaskId) {
            Ok(v) => v,
            Err(e) => {
                return Err(e);
            },
        };
        let affected_object = match column(&row[4], Field::AffectedObject) {
            Ok(v) => v,
            Err(e) => {
                return Err(e);
            },
        };
        let delay = match column(&row[5], Field::Delay) {
            Ok(v) => v,
            Err(e) => {
                return Err(e);
            },
        };
        Ok(
            GeneralEventData {
                eventtype: row[0].clone(),
                tick,
                timestamp,
                taskid,
                affected_object,
                delay,
                task_name: row[6].clone(),
            },
        )
    }
}

/// Writing an event to its storage row and reading the row back gives the
/// event again, every field unchanged.
pub proof fn lemma_record_round_trip(e: EventView)
    ensures
        event_of_record(record_of(e)) == Ok::<EventView, DecodeError>(e),
{
    lemma_decimal_reads_back(e.tick);
    lemma_decimal_reads_back(e.timestamp);
    lemma_decimal_reads_back(e.taskid);
    lemma_decimal_reads_back(e.affected_object);
    lemma_decimal_reads_back(e.delay);
}

} // verus!
