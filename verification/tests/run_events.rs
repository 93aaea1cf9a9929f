use crystal_store::run::{
    run_event, start_run, RunEvent, RunStatus, RUN_LOG_COUNT, RUN_STEP_COUNT,
};

fn collect(run_id: &String) -> Vec<RunEvent> {
    let mut events = Vec::new();
    for step in 0..RUN_STEP_COUNT {
        events.push(run_event(run_id, step, 1000 + step as u64));
    }
    events
}

#[test]
fn start_allocates_a_run_identifier() {
    let id = start_run();
    assert_eq!(id.chars().count(), 36);
}

#[test]
fn run_emits_running_then_logs_then_completed() {
    let id = "run-1".to_string();
    let events = collect(&id);
    assert_eq!(events.len(), RUN_STEP_COUNT);
    assert_eq!(events.len(), RUN_LOG_COUNT + 2);

    match &events[0] {
        RunEvent::Status { run_id, status } => {
            assert_eq!(run_id, "run-1");
            assert_eq!(*status, RunStatus::Running);
        }
        _ => panic!("the first event must be a status event"),
    }
    match &events[events.len() - 1] {
        RunEvent::Status { run_id, status } => {
            assert_eq!(run_id, "run-1");
            assert_eq!(*status, RunStatus::Completed);
        }
        _ => panic!("the last event must be a status event"),
    }

    let mut running = 0;
    let mut completed = 0;
    let mut logs = Vec::new();
    for e in &events {
        match e {
            RunEvent::Status { status: RunStatus::Running, .. } => running += 1,
            RunEvent::Status { status: RunStatus::Completed, .. } => completed += 1,
            RunEvent::Log { run_id, level, message, timestamp } => {
                assert_eq!(run_id, "run-1");
                assert_eq!(level, "info");
                logs.push((message.clone(), *timestamp));
            }
        }
    }
    assert_eq!(running, 1, "exactly one Running status");
    assert_eq!(completed, 1, "exactly one Completed status");
    assert_eq!(logs.len(), RUN_LOG_COUNT);
    assert_eq!(logs[0].0, "Initializing SIRIUS run");
    assert_eq!(logs[logs.len() - 1].0, "Run complete");
    // each log carries the wall-clock instant it was handed
    for (k, (_, ts)) in logs.iter().enumerate() {
        assert_eq!(*ts, 1000 + 1 + k as u64);
    }
}

#[test]
fn message_order_is_identical_across_runs() {
    let a = collect(&"run-a".to_string());
    let b = collect(&"run-b".to_string());
    let texts = |events: &Vec<RunEvent>| -> Vec<String> {
        events
            .iter()
            .filter_map(|e| match e {
                RunEvent::Log { message, .. } => Some(message.clone()),
                _ => None,
            })
            .collect()
    };
    assert_eq!(texts(&a), texts(&b));
}
