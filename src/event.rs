//! The typed trace records and the canonical event they fold into.

use vstd::prelude::*;

verus! {

/// What happened to a task; the wire protocol numbers these from 0 to 6.
#[derive(Debug, Clone, Copy, PartialEq, Eq, Structural)]
pub enum TaskEventType {
    Create,
    CreateFailed,
    Delete,
    Delay,
    DelayUntil,
    SwitchedIn,
    SwitchedOut,
}

/// The task event kind that a wire code stands for, if any.
pub open spec fn task_kind_of(code: u32) -> Option<TaskEventType> {
    if code == 0 {
        Some(TaskEventType::Create)
    } else if code == 1 {
        Some(TaskEventType::CreateFailed)
    } else if code == 2 {
        Some(TaskEventType::Delete)
    } else if code == 3 {
        Some(TaskEventType::Delay)
    } else if code == 4 {
        Some(TaskEventType::DelayUntil)
    } else if code == 5 {
        Some(TaskEventType::SwitchedIn)
    } else if code == 6 {
        Some(TaskEventType::SwitchedOut)
    } else {
        None
    }
}

impl TaskEventType {
    /// The symbolic protocol name of the kind.
    pub open spec fn tag(self) -> Seq<char> {
        match self {
            TaskEventType::Create => "traceTASK_CREATE"@,
            TaskEventType::CreateFailed => "traceTASK_CREATE_FAILED"@,
            TaskEventType::Delete => "traceTASK_DELETE"@,
            TaskEventType::Delay => "traceTASK_DELAY"@,
            TaskEventType::DelayUntil => "traceTASK_DELAY_UNTIL"@,
            TaskEventType::SwitchedIn => "traceTASK_SWITCHED_IN"@,
            TaskEventType::SwitchedOut => "traceTASK_SWITCHED_OUT"@,
        }
    }

    /// The symbolic protocol name, as stored in the canonical event.
    pub fn name(&self) -> (r: String)
        ensures
            r@ == self.tag(),
    {
        match self {
            TaskEventType::Create => String::from_str("traceTASK_CREATE"),
            TaskEventType::CreateFailed => String::from_str("traceTASK_CREATE_FAILED"),
            TaskEventType::Delete => String::from_str("traceTASK_DELETE"),
            TaskEventType::Delay => String::from_str("traceTASK_DELAY"),
            TaskEventType::DelayUntil => String::from_str("traceTASK_DELAY_UNTIL"),
            TaskEventType::SwitchedIn => String::from_str("traceTASK_SWITCHED_IN"),
            TaskEventType::SwitchedOut => String::from_str("traceTASK_SWITCHED_OUT"),
        }
    }
}

/// A code outside 0..=6 is handed back as the error.
impl TryFrom<u32> for TaskEventType {
    type Error = u32;

    fn try_from(value: u32) -> (r: Result<Self, Self::Error>) {
        match value {
            0 => Ok(TaskEventType::Create),
            1 => Ok(TaskEventType::CreateFailed),
            2 => Ok(TaskEventType::Delete),
            3 => Ok(TaskEventType::Delay),
            4 => Ok(TaskEventType::DelayUntil),
            5 => Ok(TaskEventType::SwitchedIn),
            6 => Ok(TaskEventType::SwitchedOut),
            _ => Err(value),
        }
    }
}

impl vstd::std_specs::convert::TryFromSpecImpl<u32> for TaskEventType {
    open spec fn obeys_try_from_spec() -> bool {
        true
    }

    open spec fn try_from_spec(v: u32) -> Result<Self, u32> {
        match task_kind_of(v) {
            Some(k) => Ok(k),
            None => Err(v),
        }
    }
}

/// What happened on a queue; the wire protocol numbers these from 0 to 8.
#[derive(Debug, Clone, Copy, PartialEq, Eq, Structural)]
pub enum QueueEventType {
    Recieve,
    RecieveFailed,
    RecieveFromISR,
    RecieveFromISRFailed,
    Send,
    SendFailed,
    SendFromISR,
    SendFromISRFailed,
    SetSend,
}

/// The queue event kind that a wire code stands for, if any.
pub open spec fn queue_kind_of(code: u32) -> Option<QueueEventType> {
    if code == 0 {
        Some(QueueEventType::Recieve)
    } else if code == 1 {
        Some(QueueEventType::RecieveFailed)
    } else if code == 2 {
        Some(QueueEventType::RecieveFromISR)
    } else if code == 3 {
        Some(QueueEventType::RecieveFromISRFailed)
    } else if code == 4 {
        Some(QueueEventType::Send)
    } else if code == 5 {
        Some(QueueEventType::SendFailed)
    } else if code == 6 {
        Some(QueueEventType::SendFromISR)
    } else if code == 7 {
        Some(QueueEventType::SendFromISRFailed)
    } else if code == 8 {
        Some(QueueEventType::SetSend)
    } else {
        None
    }
}

impl QueueEventType {
    /// The symbolic protocol name of the kind.
    pub open spec fn tag(self) -> Seq<char> {
        match self {
            QueueEventType::Recieve => "traceQUEUE_RECEIVE"@,
            QueueEventType::RecieveFailed => "traceQUEUE_RECEIVE_FAILED"@,
            QueueEventType::RecieveFromISR => "traceQUEUE_RECEIVE_FROM_ISR"@,
            QueueEventType::RecieveFromISRFailed => "traceQUEUE_RECEIVE_FROM_ISR_FAILED"@,
            QueueEventType::Send => "traceQUEUE_SEND"@,
            QueueEventType::SendFailed => "traceQUEUE_SEND_FAILED"@,
            QueueEventType::SendFromISR => "traceQUEUE_SEND_FROM_ISR"@,
            QueueEventType::SendFromISRFailed => "traceQUEUE_SEND_FROM_ISR_FAILED"@,
            QueueEventType::SetSend => "traceQUEUE_SET_SEND"@,
        }
    }

    /// The symbolic protocol name, as stored in the canonical event.
    pub fn name(&self) -> (r: String)
        ensures
            r@ == self.tag(),
    {
        match self {
            QueueEventType::Recieve => String::from_str("traceQUEUE_RECEIVE"),
            QueueEventType::RecieveFailed => String::from_str("traceQUEUE_RECEIVE_FAILED"),
            QueueEventType::RecieveFromISR => String::from_str("traceQUEUE_RECEIVE_FROM_ISR"),
            QueueEventType::RecieveFromISRFailed => String::from_str(
                "traceQUEUE_RECEIVE_FROM_ISR_FAILED",
            ),
            QueueEventType::Send => String::from_str("traceQUEUE_SEND"),
            QueueEventType::SendFailed => String::from_str("traceQUEUE_SEND_FAILED"),
            QueueEventType::SendFromISR => String::from_str("traceQUEUE_SEND_FROM_ISR"),
            QueueEventType::SendFromISRFailed => String::from_str(
                "traceQUEUE_SEND_FROM_ISR_FAILED",
            ),
            QueueEventType::SetSend => String::from_str("traceQUEUE_SET_SEND"),
        }
    }
}

/// A code outside 0..=8 is handed back as the error.
impl TryFrom<u32> for QueueEventType {
    type Error = u32;

    fn try_from(value: u32) -> (r: Result<Self, Self::Error>) {
        match value {
            0 => Ok(QueueEventType::Recieve),
            1 => Ok(QueueEventType::RecieveFailed),
            2 => Ok(QueueEventType::RecieveFromISR),
            3 => Ok(QueueEventType::RecieveFromISRFailed),
            4 => Ok(QueueEventType::Send),
            5 => Ok(QueueEventType::SendFailed),
            6 => Ok(QueueEventType::SendFromISR),
            7 => Ok(QueueEventType::SendFromISRFailed),
            8 => Ok(QueueEventType::SetSend),
            _ => Err(value),
        }
    }
}

impl vstd::std_specs::convert::TryFromSpecImpl<u32> for QueueEventType {
    open spec fn obeys_try_from_spec() -> bool {
        true
    }

    open spec fn try_from_spec(v: u32) -> Result<Self, u32> {
        match queue_kind_of(v) {
            Some(k) => Ok(k),
            None => Err(v),
        }
    }
}

/// The one kind of tick event.
#[derive(Debug, Clone, Copy, PartialEq, Eq, Structural)]
pub enum TickEventType {
    IncrementTick,
}

impl TickEventType {
    /// The symbolic protocol name of the kind.
    pub open spec fn tag(self) -> Seq<char> {
        "traceTASK_INCREMENT_TICK"@
    }

    /// The symbolic protocol name, as stored in the canonical event.
    pub fn name(&self) -> (r: String)
        ensures
            r@ == self.tag(),
    {
        String::from_str("traceTASK_INCREMENT_TICK")
    }
}

/// A decoded task event.
#[derive(Debug)]
pub struct TaskData {
    pub eventtype: TaskEventType,
    pub tick: u32,
    pub timestamp: u32,
    pub taskid: u32,
    pub affected_task_id: u32,
    pub delay: u32,
    pub task_name: String,
}

/// A decoded queue event.
#[derive(Debug)]
pub struct QueueData {
    pub eventtype: QueueEventType,
    pub queue: u32,
    pub tick: u32,
    pub timestamp: u32,
    pub taskid: u32,
    pub ticks_to_wait: u32,
    pub task_name: String,
}

/// A decoded tick event.
#[derive(Debug)]
pub struct TickData {
    pub eventtype: TickEventType,
    pub tick: u32,
    pub timestamp: u32,
    pub new_tick_time: u32,
    pub taskid: u32,
    pub task_name: String,
}

impl Clone for TaskData {
    fn clone(&self) -> (r: Self)
        ensures
            r == *self,
    {
        TaskData {
            eventtype: self.eventtype,
            tick: self.tick,
            timestamp: self.timestamp,
            taskid: self.taskid,
            affected_task_id: self.affected_task_id,
            delay: self.delay,
            task_name: self.task_name.clone(),
        }
    }
}

impl Clone for QueueData {
    fn clone(&self) -> (r: Self)
        ensures
            r == *self,
    {
        QueueData {
            eventtype: self.eventtype,
            queue: self.queue,
            tick: self.tick,
            timestamp: self.timestamp,
            taskid: self.taskid,
            ticks_to_wait: self.ticks_to_wait,
            task_name: self.task_name.clone(),
        }
    }
}

impl Clone for TickData {
    fn clone(&self) -> (r: Self)
        ensures
            r == *self,
    {
        TickData {
            eventtype: self.eventtype,
            tick: self.tick,
            timestamp: self.timestamp,
            new_tick_time: self.new_tick_time,
            taskid: self.taskid,
            task_name: self.task_name.clone(),
        }
    }
}

/// The canonical event: one shape for the task, queue and tick families.
#[derive(Debug)]
pub struct GeneralEventData {
    pub eventtype: String,
    pub tick: u32,
    pub timestamp: u32,
    pub taskid: u32,
    pub affected_object: u32,
    pub delay: u32,
    pub task_name: String,
}

/// The mathematical value of a canonical event: its strings as character
/// sequences.
pub struct EventView {
    pub tag: Seq<char>,
    pub tick: u32,
    pub timestamp: u32,
    pub taskid: u32,
    pub affected_object: u32,
    pub delay: u32,
    pub task_name: Seq<char>,
}

impl View for GeneralEventData {
    type V = EventView;

    open spec fn view(&self) -> EventView {
        EventView {
            tag: self.eventtype@,
            tick: self.tick,
            timestamp: self.timestamp,
            taskid: self.taskid,
            affected_object: self.affected_object,
            delay: self.delay,
            task_name: self.task_name@,
        }
    }
}

impl Clone for GeneralEventData {
    fn clone(&self) -> (r: Self)
        ensures
            r == *self,
    {
        GeneralEventData {
            eventtype: self.eventtype.clone(),
            tick: self.tick,
            timestamp: self.timestamp,
            taskid: self.taskid,
            affected_object: self.affected_object,
            delay: self.delay,
            task_name: self.task_name.clone(),
        }
    }
}

/// Two canonical events are equal when all their fields are.
impl PartialEq for GeneralEventData {
    fn eq(&self, other: &GeneralEventData) -> (r: bool) {
        self.eventtype == other.eventtype && self.tick == other.tick && self.timestamp
            == other.timestamp && self.taskid == other.taskid && self.affected_object
            == other.affected_object && self.delay == other.delay && self.task_name
            == other.task_name
    }
}

impl vstd::std_specs::cmp::PartialEqSpecImpl for GeneralEventData {
    open spec fn obeys_eq_spec() -> bool {
        true
    }

    open spec fn eq_spec(&self, other: &GeneralEventData) -> bool {
        self@ == other@
    }
}

impl TaskData {
    /// The canonical form: the affected object is the affected task, and the
    /// delay is carried over.
    pub open spec fn canonical(self) -> EventView {
        EventView {
            tag: self.eventtype.tag(),
            tick: self.tick,
            timestamp: self.timestamp,
            taskid: self.taskid,
            affected_object: self.affected_task_id,
            delay: self.delay,
            task_name: self.task_name@,
        }
    }
}

impl QueueData {
    /// The canonical form: the affected object is the queue, and the delay is
    /// the number of ticks the task was prepared to wait.
    pub open spec fn canonical(self) -> EventView {
        EventView {
            tag: self.eventtype.tag(),
            tick: self.tick,
            timestamp: self.timestamp,
            taskid: self.taskid,
            affected_object: self.queue,
            delay: self.ticks_to_wait,
            task_name: self.task_name@,
        }
    }
}

/// The distance from `from` forward to `to` on the free-running 32-bit tick
/// counter.
pub open spec fn tick_distance(from: u32, to: u32) -> u32 {
    if from <= to {
        (to - from) as u32
    } else {
        (to + 0x1_0000_0000 - from) as u32
    }
}

impl TickData {
    /// The canonical form: the affected object is the new tick time, and the
    /// delay is how far the tick count moved.
    pub open spec fn canonical(self) -> EventView {
        EventView {
            tag: self.eventtype.tag(),
            tick: self.tick,
            timestamp: self.timestamp,
            taskid: self.taskid,
            affected_object: self.new_tick_time,
            delay: tick_distance(self.tick, self.new_tick_time),
            task_name: self.task_name@,
        }
    }
}

impl From<TaskData> for GeneralEventData {
    fn from(value: TaskData) -> (r: Self)
        ensures
            r@ == value.canonical(),
    {
        GeneralEventData {
            eventtype: value.eventtype.name(),
            tick: value.tick,
            timestamp: value.timestamp,
            taskid: value.taskid,
            affected_object: value.affected_task_id,
            delay: value.delay,
            task_name: value.task_name,
        }
    }
}

/// The contract of the conversion is stated on `from` itself: a `String`
/// cannot be built in a specification, so no `from_spec` value is promised.
impl vstd::std_specs::convert::FromSpecImpl<TaskData> for GeneralEventData {
    open spec fn obeys_from_spec() -> bool {
        false
    }

    open spec fn from_spec(v: TaskData) -> GeneralEventData {
        choose|e: GeneralEventData| e@ == v.canonical()
    }
}

impl From<QueueData> for GeneralEventData {
    fn from(value: QueueData) -> (r: Self)
        ensures
            r@ == value.canonical(),
    {
        GeneralEventData {
            eventtype: value.eventtype.name(),
            tick: value.tick,
            timestamp: value.timestamp,
            taskid: value.taskid,
            affected_object: value.queue,
            delay: value.ticks_to_wait,
            task_name: value.task_name,
        }
    }
}

/// The contract of the conversion is stated on `from` itself: a `String`
/// cannot be built in a specification, so no `from_spec` value is promised.
impl vstd::std_specs::convert::FromSpecImpl<QueueData> for GeneralEventData {
    open spec fn obeys_from_spec() -> bool {
        false
    }

    open spec fn from_spec(v: QueueData) -> GeneralEventData {
        choose|e: GeneralEventData| e@ == v.canonical()
    }
}

impl From<TickData> for GeneralEventData {
    fn from(value: TickData) -> (r: Self)
        ensures
            r@ == value.canonical(),
    {
        GeneralEventData {
            eventtype: value.eventtype.name(),
            tick: value.tick,
            timestamp: value.timestamp,
            taskid: value.taskid,
            affected_object: value.new_tick_time,
            delay: value.new_tick_time.wrapping_sub(value.tick),
            task_name: value.task_name,
        }
    }
}

/// The contract of the conversion is stated on `from` itself: a `String`
/// cannot be built in a specification, so no `from_spec` value is promised.
impl vstd::std_specs::convert::FromSpecImpl<TickData> for GeneralEventData {
    open spec fn obeys_from_spec() -> bool {
        false
    }

    open spec fn from_spec(v: TickData) -> GeneralEventData {
        choose|e: GeneralEventData| e@ == v.canonical()
    }
}

/// The tags of the queue send and receive families (the queue-set send is not
/// one of them).
pub open spec fn is_queue_tag(tag: Seq<char>) -> bool {
    ||| tag == "traceQUEUE_SEND"@
    ||| tag == "traceQUEUE_SEND_FAILED"@
    ||| tag == "traceQUEUE_SEND_FROM_ISR"@
    ||| tag == "traceQUEUE_SEND_FROM_ISR_FAILED"@
    ||| tag == "traceQUEUE_RECEIVE"@
    ||| tag == "traceQUEUE_RECEIVE_FAILED"@
    ||| tag == "traceQUEUE_RECEIVE_FROM_ISR"@
    ||| tag == "traceQUEUE_RECEIVE_FROM_ISR_FAILED"@
}

impl GeneralEventData {
    /// Whether the event is a send to or a receive from a queue.
    pub fn is_queue_event(&self) -> (r: bool)
        ensures
            r == is_queue_tag(self.eventtype@),
    {
        let t = self.eventtype.as_str();
        text_eq(t, "traceQUEUE_SEND") || text_eq(t, "traceQUEUE_SEND_FAILED") || text_eq(
            t,
            "traceQUEUE_SEND_FROM_ISR",
        ) || text_eq(t, "traceQUEUE_SEND_FROM_ISR_FAILED") || text_eq(t, "traceQUEUE_RECEIVE")
            || text_eq(t, "traceQUEUE_RECEIVE_FAILED") || text_eq(t, "traceQUEUE_RECEIVE_FROM_ISR")
            || text_eq(t, "traceQUEUE_RECEIVE_FROM_ISR_FAILED")
    }
}

/// Whether two strings hold the same characters.
pub fn text_eq(a: &str, b: &str) -> (r: bool)
    ensures
        r == (a@ == b@),
{
    let n = a.unicode_len();
    if n != b.unicode_len() {
        return false;
    }
    let mut i: usize = 0;
    while i < n
        invariant
            n == a@.len(),
            n == b@.len(),
            0 <= i <= n,
            forall|j: int| 0 <= j < i ==> a@[j] == b@[j],
        decreases n - i,
    {
        if a.get_char(i) != b.get_char(i) {
            return false;
        }
        i += 1;
    }
    proof {
        assert(a@ =~= b@);
    }
    true
}

} // verus!
