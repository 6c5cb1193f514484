use pars::worker::{build_workers, report_lines, Worker, WorkerAction, WorkerEvent, WorkerState};

fn line(cmds: &[&[&str]]) -> Vec<Vec<String>> {
    cmds.iter().map(|c| c.iter().map(|w| w.to_string()).collect()).collect()
}

fn ok(out: &str) -> WorkerEvent {
    WorkerEvent::Finished { code: Some(0), stdout: out.to_string() }
}

fn fail(code: i32) -> WorkerEvent {
    WorkerEvent::Finished { code: Some(code), stdout: String::new() }
}

/// Feeds the events one after the other, from the start, and keeps the actions.
fn drive(w: &Worker, events: Vec<WorkerEvent>) -> (WorkerState, Vec<WorkerAction>) {
    let (mut state, first) = w.start();
    let mut actions = vec![first];
    for e in events {
        let (s, a) = w.step(state, e);
        state = s;
        actions.push(a);
    }
    (state, actions)
}

#[test]
fn new_worker_keeps_id_and_mode() {
    let w = Worker::new(3, 2);
    assert_eq!(w.id(), 3);
    assert_eq!(w.mode(), 2);
}

#[test]
fn worker_starts_by_reading_the_flag() {
    let w = Worker::new(1, 0);
    let (s, a) = w.start();
    assert!(matches!(s, WorkerState::Idle));
    assert!(matches!(a, WorkerAction::CheckFlag));
}

#[test]
fn outputs_in_order() {
    let w = Worker::new(1, 1);
    let (state, actions) = drive(
        &w,
        vec![
            WorkerEvent::Flag(true),
            WorkerEvent::Line(line(&[&["echo", "a"], &["echo", "b"]])),
            WorkerEvent::Flag(true),
            ok("a\n"),
            WorkerEvent::Flag(true),
            ok("b\n"),
        ],
    );
    assert!(matches!(actions[1], WorkerAction::Receive));
    assert!(matches!(actions[2], WorkerAction::CheckFlag));
    match &actions[3] {
        WorkerAction::Launch(cmd) => assert_eq!(cmd, &vec!["echo".to_string(), "a".to_string()]),
        _ => panic!("expected a launch"),
    }
    match &actions[5] {
        WorkerAction::Launch(cmd) => assert_eq!(cmd, &vec!["echo".to_string(), "b".to_string()]),
        _ => panic!("expected a launch"),
    }
    match &actions[6] {
        WorkerAction::Report { outputs, clear_flag } => {
            assert_eq!(outputs, &vec!["a\n".to_string(), "b\n".to_string()]);
            assert!(!clear_flag);
        }
        _ => panic!("expected a report"),
    }
    let (state, action) = w.step(state, WorkerEvent::Reported);
    assert!(matches!(state, WorkerState::Idle));
    assert!(matches!(action, WorkerAction::CheckFlag));
}

#[test]
fn failure_ends_line_in_lazy_mode() {
    let w = Worker::new(1, 1);
    let (state, actions) = drive(
        &w,
        vec![
            WorkerEvent::Flag(true),
            WorkerEvent::Line(line(&[&["true"], &["false"], &["echo", "never"]])),
            WorkerEvent::Flag(true),
            ok("x"),
            WorkerEvent::Flag(true),
            fail(1),
        ],
    );
    match &actions[6] {
        WorkerAction::Report { outputs, clear_flag } => {
            assert_eq!(outputs, &vec!["x".to_string()]);
            assert!(*clear_flag);
        }
        _ => panic!("expected a report"),
    }
    let (state, action) = w.step(state, WorkerEvent::Reported);
    assert!(matches!(state, WorkerState::Stopped));
    assert!(matches!(action, WorkerAction::Exit));
}

#[test]
fn never_mode_keeps_flag() {
    let w = Worker::new(1, 0);
    let (state, actions) = drive(
        &w,
        vec![
            WorkerEvent::Flag(true),
            WorkerEvent::Line(line(&[&["false"], &["echo", "skipped"]])),
            WorkerEvent::Flag(true),
            fail(2),
        ],
    );
    match &actions[4] {
        WorkerAction::Report { outputs, clear_flag } => {
            assert!(outputs.is_empty());
            assert!(!clear_flag);
        }
        _ => panic!("expected a report"),
    }
    let (state, action) = w.step(state, WorkerEvent::Reported);
    assert!(matches!(state, WorkerState::Idle));
    assert!(matches!(action, WorkerAction::CheckFlag));
}

#[test]
fn eager_obeys_flag() {
    let w = Worker::new(1, 2);
    let (_, actions) = drive(
        &w,
        vec![
            WorkerEvent::Flag(true),
            WorkerEvent::Line(line(&[&["echo", "a"], &["echo", "b"]])),
            WorkerEvent::Flag(true),
            ok("a"),
            WorkerEvent::Flag(false),
        ],
    );
    match &actions[5] {
        WorkerAction::Report { outputs, clear_flag } => {
            assert_eq!(outputs, &vec!["a".to_string()]);
            assert!(!clear_flag);
        }
        _ => panic!("expected a report"),
    }
}

#[test]
fn lazy_runs_on_after_the_flag_is_lowered() {
    let w = Worker::new(1, 1);
    let (_, actions) = drive(
        &w,
        vec![
            WorkerEvent::Flag(true),
            WorkerEvent::Line(line(&[&["echo", "a"], &["echo", "b"]])),
            WorkerEvent::Flag(true),
            ok("a"),
            WorkerEvent::Flag(false),
        ],
    );
    assert!(matches!(actions[5], WorkerAction::Launch(_)));
}

#[test]
fn lowered_flag_stops() {
    let w = Worker::new(1, 1);
    let (state, actions) = drive(&w, vec![WorkerEvent::Flag(false)]);
    assert!(matches!(state, WorkerState::Stopped));
    assert!(matches!(actions[1], WorkerAction::Exit));
}

#[test]
fn closed_channel_stops() {
    let w = Worker::new(1, 0);
    let (state, actions) = drive(&w, vec![WorkerEvent::Flag(true), WorkerEvent::Closed]);
    assert!(matches!(state, WorkerState::Stopped));
    assert!(matches!(actions[2], WorkerAction::Exit));
}

#[test]
fn stopped_stays() {
    let w = Worker::new(1, 0);
    let (state, _) = drive(&w, vec![WorkerEvent::Flag(false)]);
    let (state, a) = w.step(state, WorkerEvent::Flag(true));
    assert!(matches!(state, WorkerState::Stopped));
    assert!(matches!(a, WorkerAction::Exit));
    let (state, a) = w.step(state, WorkerEvent::Line(line(&[&["ls"]])));
    assert!(matches!(state, WorkerState::Stopped));
    assert!(matches!(a, WorkerAction::Exit));
}

#[test]
fn empty_line_reports_nothing() {
    let w = Worker::new(1, 0);
    let (_, actions) = drive(&w, vec![WorkerEvent::Flag(true), WorkerEvent::Line(Vec::new())]);
    match &actions[2] {
        WorkerAction::Report { outputs, clear_flag } => {
            assert!(outputs.is_empty());
            assert!(!clear_flag);
        }
        _ => panic!("expected a report"),
    }
}

#[test]
fn signal_ended_command_is_skipped() {
    let w = Worker::new(1, 2);
    let (_, actions) = drive(
        &w,
        vec![
            WorkerEvent::Flag(true),
            WorkerEvent::Line(line(&[&["sleep", "9"], &["echo", "b"]])),
            WorkerEvent::Flag(true),
            WorkerEvent::Finished { code: None, stdout: "lost".to_string() },
            WorkerEvent::Flag(true),
            ok("b"),
        ],
    );
    assert!(matches!(actions[5], WorkerAction::Launch(_)));
    match &actions[6] {
        WorkerAction::Report { outputs, .. } => assert_eq!(outputs, &vec!["b".to_string()]),
        _ => panic!("expected a report"),
    }
}

#[test]
fn unexpected_event_changes_nothing() {
    let w = Worker::new(1, 0);
    let (state, a) = w.start();
    let (state, a2) = w.step(state, WorkerEvent::Reported);
    assert!(matches!(state, WorkerState::Idle));
    assert!(matches!(a, WorkerAction::CheckFlag));
    assert!(matches!(a2, WorkerAction::CheckFlag));
}

#[test]
fn report_lines_marks_remote_outputs() {
    let outs = vec!["a\n".to_string(), "".to_string()];
    assert_eq!(report_lines(&outs, true), outs);
    assert_eq!(report_lines(&outs, false), vec!["[REMOTE] a\n".to_string(), "[REMOTE] ".to_string()]);
}

#[test]
fn build_workers_numbers_from_one() {
    let ws = build_workers(3, 2);
    assert_eq!(ws.len(), 3);
    for (i, w) in ws.iter().enumerate() {
        assert_eq!(w.id(), i as i32 + 1);
        assert_eq!(w.mode(), 2);
    }
    assert_eq!(build_workers(0, 1).len(), 0);
    assert_eq!(build_workers(-5, 1).len(), 0);
}
