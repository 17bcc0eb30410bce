//! Decoding of the line-oriented trace protocol of an instrumented real-time
//! kernel, and reconstruction of per-task schedules from the decoded events.
//!
//! Bytes go to a [`SerialEventDataIterator`], which gathers them into lines,
//! splits off the command tag and decodes the payload into a canonical
//! [`GeneralEventData`]. The complete list of events goes to
//! [`get_task_segments`], which derives busy intervals and markers per task.

pub mod decode;
pub mod event;
pub mod record;
pub mod schedule;
pub mod session;
pub mod text;

pub use decode::{DecodeError, Field, parse_queue_line, parse_task_line, parse_tick_line};
pub use event::{
    GeneralEventData, QueueData, QueueEventType, TaskData, TaskEventType, TickData, TickEventType,
};
pub use record::header_record;
pub use schedule::{BusyInterval, Marker, Schedule, TaskSchedule, get_task_segments};
pub use session::{LineOutcome, SerialEventDataIterator};
pub use text::NumberError;
