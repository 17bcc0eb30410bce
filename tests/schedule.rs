use tracing_scripts::{BusyInterval, GeneralEventData, Marker, get_task_segments};

fn ev(tag: &str, tick: u32, task: u32) -> GeneralEventData {
    GeneralEventData {
        eventtype: tag.to_string(),
        tick,
        timestamp: tick,
        taskid: task,
        affected_object: 0,
        delay: 0,
        task_name: format!("task{}", task),
    }
}

fn with_object(mut e: GeneralEventData, object: u32) -> GeneralEventData {
    e.affected_object = object;
    e
}

#[test]
fn matched_switch_gives_one_interval() {
    let s = get_task_segments(&[
        ev("traceTASK_SWITCHED_IN", 10, 1),
        ev("traceTASK_SWITCHED_OUT", 20, 1),
    ]);
    assert_eq!(s.tasks.len(), 1);
    assert_eq!(
        s.tasks[0].intervals,
        vec![BusyInterval { task_id: 1, start_tick: 10, end_tick: 20 }]
    );
}

#[test]
fn open_interval_ends_at_the_task_max_tick() {
    let s = get_task_segments(&[
        ev("traceTASK_SWITCHED_IN", 10, 1),
        ev("traceTASK_DELAY", 50, 1),
        ev("traceTASK_SWITCHED_IN", 90, 2),
        ev("traceTASK_DELAY", 99, 2),
    ]);
    assert_eq!(
        s.tasks[0].intervals,
        vec![BusyInterval { task_id: 1, start_tick: 10, end_tick: 50 }]
    );
    assert_eq!(
        s.tasks[1].intervals,
        vec![BusyInterval { task_id: 2, start_tick: 90, end_tick: 99 }]
    );
}

#[test]
fn double_switch_in_keeps_the_last() {
    let s = get_task_segments(&[
        ev("traceTASK_SWITCHED_IN", 5, 1),
        ev("traceTASK_SWITCHED_IN", 8, 1),
        ev("traceTASK_SWITCHED_OUT", 12, 1),
    ]);
    assert_eq!(
        s.tasks[0].intervals,
        vec![BusyInterval { task_id: 1, start_tick: 8, end_tick: 12 }]
    );
}

#[test]
fn switch_out_without_switch_in_is_ignored() {
    let s = get_task_segments(&[
        ev("traceTASK_SWITCHED_OUT", 3, 1),
        ev("traceTASK_SWITCHED_IN", 5, 1),
        ev("traceTASK_SWITCHED_OUT", 7, 1),
    ]);
    assert_eq!(
        s.tasks[0].intervals,
        vec![BusyInterval { task_id: 1, start_tick: 5, end_tick: 7 }]
    );
}

#[test]
fn events_are_scanned_in_tick_order() {
    let s = get_task_segments(&[
        ev("traceTASK_SWITCHED_OUT", 20, 1),
        ev("traceTASK_SWITCHED_IN", 10, 1),
    ]);
    assert_eq!(
        s.tasks[0].intervals,
        vec![BusyInterval { task_id: 1, start_tick: 10, end_tick: 20 }]
    );
}

#[test]
fn equal_ticks_are_ordered_by_timestamp() {
    let mut out_first = ev("traceTASK_SWITCHED_OUT", 10, 1);
    out_first.timestamp = 2;
    let mut in_second = ev("traceTASK_SWITCHED_IN", 10, 1);
    in_second.timestamp = 1;
    let s = get_task_segments(&[out_first, in_second]);
    assert_eq!(
        s.tasks[0].intervals,
        vec![BusyInterval { task_id: 1, start_tick: 10, end_tick: 10 }]
    );
}

#[test]
fn task_ids_ascend() {
    let s = get_task_segments(&[ev("x", 1, 30), ev("x", 2, 4), ev("x", 3, 30), ev("x", 4, 17)]);
    let ids: Vec<u32> = s.tasks.iter().map(|t| t.task_id).collect();
    assert_eq!(ids, vec![4, 17, 30]);
}

#[test]
fn queue_ids_in_first_seen_order() {
    let s = get_task_segments(&[
        with_object(ev("traceQUEUE_SEND", 1, 1), 40),
        with_object(ev("traceQUEUE_RECEIVE", 2, 2), 10),
        with_object(ev("traceQUEUE_SEND", 3, 1), 40),
    ]);
    assert_eq!(s.queue_ids, vec![40, 10]);
}

#[test]
fn queue_set_send_is_no_queue_event() {
    let s = get_task_segments(&[
        with_object(ev("traceQUEUE_SET_SEND", 1, 1), 7),
        with_object(ev("traceQUEUE_SEND_FAILED", 2, 1), 8),
    ]);
    assert_eq!(s.queue_ids, vec![8]);
}

#[test]
fn markers_follow_the_events() {
    let mut delay = ev("traceTASK_DELAY", 4, 1);
    delay.delay = 44;
    let mut until = ev("traceTASK_DELAY_UNTIL", 5, 1);
    until.delay = 55;
    let s = get_task_segments(&[
        with_object(ev("traceTASK_CREATE", 1, 1), 2),
        with_object(ev("traceQUEUE_SEND", 2, 1), 40),
        with_object(ev("traceQUEUE_RECEIVE", 3, 2), 40),
        delay,
        until,
        with_object(ev("traceTASK_DELETE", 6, 1), 9),
    ]);
    assert_eq!(
        s.tasks[0].markers,
        vec![
            Marker::Create { tick: 1, task: 2, task_index: Some(1), by: "task1".to_string() },
            Marker::QueueSend { tick: 2, queue_index: 0 },
            Marker::Delay { delay: 44 },
            Marker::DelayUntil { until: 55 },
            Marker::Delete { tick: 6, task: 9, task_index: None, by: "task1".to_string() },
        ]
    );
    assert_eq!(s.tasks[1].markers, vec![Marker::QueueReceive { tick: 3, queue_index: 0 }]);
}

#[test]
fn task_name_comes_from_the_earliest_event() {
    let mut late = ev("x", 1, 1);
    late.timestamp = 9;
    late.task_name = "late".to_string();
    let mut early = ev("x", 2, 1);
    early.timestamp = 3;
    early.task_name = "early".to_string();
    let s = get_task_segments(&[late, early]);
    assert_eq!(s.tasks[0].name, "early");
}

#[test]
fn reconstruction_is_idempotent() {
    let data = vec![
        ev("traceTASK_SWITCHED_IN", 10, 1),
        with_object(ev("traceQUEUE_SEND", 12, 1), 40),
        ev("traceTASK_SWITCHED_OUT", 20, 1),
        ev("traceTASK_SWITCHED_IN", 21, 2),
    ];
    let a = get_task_segments(&data);
    let b = get_task_segments(&data);
    assert_eq!(format!("{:?}", a), format!("{:?}", b));
}

#[test]
fn no_events_no_tasks() {
    let s = get_task_segments(&[]);
    assert!(s.tasks.is_empty());
    assert!(s.queue_ids.is_empty());
}

#[test]
fn create_marker_names_the_creating_event() {
    let mut create = with_object(ev("traceTASK_CREATE", 1, 1), 5);
    create.task_name = "spawner".to_string();
    let s = get_task_segments(&[ev("x", 0, 1), create]);
    assert_eq!(
        s.tasks[0].markers,
        vec![Marker::Create { tick: 1, task: 5, task_index: None, by: "spawner".to_string() }]
    );
}

#[test]
fn queue_ids_skip_repeats_and_other_events() {
    let s = get_task_segments(&[
        with_object(ev("traceTASK_CREATE", 1, 1), 3),
        with_object(ev("traceQUEUE_RECEIVE_FROM_ISR", 2, 1), 7),
        with_object(ev("traceQUEUE_SEND", 3, 2), 3),
        with_object(ev("traceQUEUE_SEND", 4, 2), 7),
        with_object(ev("traceTASK_INCREMENT_TICK", 5, 2), 9),
    ]);
    assert_eq!(s.queue_ids, vec![7, 3]);
}
