use tracing_scripts::{
    GeneralEventData, QueueData, QueueEventType, TaskData, TaskEventType, TickData, TickEventType,
};

#[test]
pub fn test_tick_casting() {
    let tick_data = TickData {
        eventtype: TickEventType::IncrementTick,
        tick: 100,
        timestamp: 1000,
        taskid: 1307,
        new_tick_time: 101,
        task_name: "Blas".to_string(),
    };

    let general_event_data = GeneralEventData::from(tick_data.clone());

    assert_eq!(general_event_data.eventtype, "traceTASK_INCREMENT_TICK");
    assert_eq!(general_event_data.tick, tick_data.tick);
    assert_eq!(general_event_data.taskid, tick_data.taskid);
    assert_eq!(general_event_data.task_name, "Blas".to_string());
}

#[test]
pub fn test_task_casting() {
    let task_data = TaskData {
        eventtype: TaskEventType::Create,
        tick: 100,
        timestamp: 100,
        taskid: 1307,
        affected_task_id: 1308,
        delay: 0,
        task_name: "Blos".to_string(),
    };

    let general_event_data = GeneralEventData::from(task_data.clone());

    assert_eq!(general_event_data.eventtype, "traceTASK_CREATE");
    assert_eq!(general_event_data.tick, task_data.tick);
    assert_eq!(general_event_data.taskid, task_data.taskid);
}

#[test]
pub fn test_queue_casting() {
    let queue_data = QueueData {
        eventtype: QueueEventType::Recieve,
        queue: 50,
        tick: 100,
        timestamp: 1000,
        taskid: 1307,
        ticks_to_wait: 0,
        task_name: "TESTING".to_string(),
    };

    let general_event_data = GeneralEventData::from(queue_data.clone());

    assert_eq!(general_event_data.eventtype, "traceQUEUE_RECEIVE");
    assert_eq!(general_event_data.tick, queue_data.tick);
    assert_eq!(general_event_data.taskid, queue_data.taskid);
}

#[test]
fn tick_casting_maps_fields() {
    let e = GeneralEventData::from(TickData {
        eventtype: TickEventType::IncrementTick,
        tick: 100,
        timestamp: 1000,
        taskid: 1307,
        new_tick_time: 101,
        task_name: "Blas".to_string(),
    });
    assert_eq!(e.affected_object, 101);
    assert_eq!(e.delay, 1);
    assert_eq!(e.timestamp, 1000);
}

#[test]
fn tick_casting_wraps_around_the_counter() {
    let e = GeneralEventData::from(TickData {
        eventtype: TickEventType::IncrementTick,
        tick: u32::MAX,
        timestamp: 5,
        taskid: 1,
        new_tick_time: 1,
        task_name: "t".to_string(),
    });
    assert_eq!(e.delay, 2);
}

#[test]
fn queue_casting_maps_fields() {
    let e = GeneralEventData::from(QueueData {
        eventtype: QueueEventType::SendFromISRFailed,
        queue: 50,
        tick: 100,
        timestamp: 1000,
        taskid: 1307,
        ticks_to_wait: 9,
        task_name: "q".to_string(),
    });
    assert_eq!(e.eventtype, "traceQUEUE_SEND_FROM_ISR_FAILED");
    assert_eq!(e.affected_object, 50);
    assert_eq!(e.delay, 9);
}

#[test]
fn task_casting_maps_fields() {
    let e = GeneralEventData::from(TaskData {
        eventtype: TaskEventType::DelayUntil,
        tick: 7,
        timestamp: 8,
        taskid: 3,
        affected_task_id: 4,
        delay: 40,
        task_name: "d".to_string(),
    });
    assert_eq!(e.eventtype, "traceTASK_DELAY_UNTIL");
    assert_eq!(e.affected_object, 4);
    assert_eq!(e.delay, 40);
}

#[test]
fn event_codes_convert() {
    assert_eq!(TaskEventType::try_from(5u32), Ok(TaskEventType::SwitchedIn));
    assert_eq!(TaskEventType::try_from(7u32), Err(7));
    assert_eq!(QueueEventType::try_from(8u32), Ok(QueueEventType::SetSend));
    assert_eq!(QueueEventType::try_from(9u32), Err(9));
}

#[test]
fn queue_events_are_the_send_and_receive_families() {
    let mut e = GeneralEventData::from(QueueData {
        eventtype: QueueEventType::RecieveFromISRFailed,
        queue: 1,
        tick: 1,
        timestamp: 1,
        taskid: 1,
        ticks_to_wait: 0,
        task_name: "x".to_string(),
    });
    assert!(e.is_queue_event());
    e.eventtype = "traceQUEUE_SET_SEND".to_string();
    assert!(!e.is_queue_event());
    e.eventtype = "traceTASK_CREATE".to_string();
    assert!(!e.is_queue_event());
}
