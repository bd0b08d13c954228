use marimow::event_matches;
use marimow::watch_step;
use marimow::ErrorKind;
use marimow::ProcStatus;
use marimow::watch::WatchAction;
use marimow::watch::WatchInput;
use marimow::watch::WatchState;
use marimow::watch::WatchStep;

fn exited(success: bool, code: Option<i32>) -> WatchInput {
    WatchInput::ChildExited(ProcStatus { success, code })
}

#[test]
fn clean_child_exit_ends_the_session_cleanly() {
    let step = watch_step(WatchState::Watching, exited(true, Some(0)));
    assert!(matches!(
        step,
        WatchStep::Finish { kill_child: false, outcome: None }
    ));
}

#[test]
fn failed_child_exit_surfaces_the_status_without_reconverting() {
    let step = watch_step(WatchState::Watching, exited(false, Some(3)));
    match step {
        WatchStep::Finish { kill_child, outcome } => {
            assert!(!kill_child);
            match outcome {
                Some(ErrorKind::MarimoExited(st)) => {
                    assert!(!st.success);
                    assert_eq!(st.code, Some(3));
                }
                other => panic!("unexpected outcome: {:?}", other.is_some()),
            }
        }
        WatchStep::Continue(_, _) => panic!("session should have ended"),
    }
}

#[test]
fn matching_event_opens_the_debounce_window() {
    let step = watch_step(WatchState::Watching, WatchInput::FsEvent { matches_source: true });
    assert!(matches!(
        step,
        WatchStep::Continue(WatchState::Debouncing, WatchAction::WaitForQuiet)
    ));
}

#[test]
fn unrelated_event_is_ignored() {
    let step = watch_step(WatchState::Watching, WatchInput::FsEvent { matches_source: false });
    assert!(matches!(
        step,
        WatchStep::Continue(WatchState::Watching, WatchAction::WaitForEvent)
    ));
}

#[test]
fn quiet_timeout_while_watching_keeps_watching() {
    let step = watch_step(WatchState::Watching, WatchInput::TimedOut);
    assert!(matches!(
        step,
        WatchStep::Continue(WatchState::Watching, WatchAction::WaitForEvent)
    ));
}

#[test]
fn burst_of_events_triggers_exactly_one_reconversion() {
    // A matching event, then a burst of further events inside the debounce
    // window, then one quiet window: the machine asks for one re-conversion.
    let mut state = WatchState::Watching;
    let mut reconversions = 0;
    let mut inputs = vec![WatchInput::FsEvent { matches_source: true }];
    for i in 0..8 {
        inputs.push(WatchInput::FsEvent { matches_source: i % 2 == 0 });
    }
    inputs.push(WatchInput::TimedOut);
    for input in inputs {
        match watch_step(state, input) {
            WatchStep::Continue(next, action) => {
                if matches!(action, WatchAction::Reconvert) {
                    reconversions += 1;
                }
                state = next;
            }
            WatchStep::Finish { .. } => panic!("session should still be running"),
        }
    }
    assert_eq!(reconversions, 1);
    assert!(matches!(state, WatchState::Reconverting));
    match watch_step(state, WatchInput::Converted(None)) {
        WatchStep::Continue(next, action) => {
            assert!(matches!(next, WatchState::Watching));
            assert!(!matches!(action, WatchAction::Reconvert));
        }
        WatchStep::Finish { .. } => panic!("session should still be running"),
    }
}

#[test]
fn successful_reconversion_returns_to_watching() {
    let step = watch_step(WatchState::Reconverting, WatchInput::Converted(None));
    assert!(matches!(
        step,
        WatchStep::Continue(WatchState::Watching, WatchAction::WaitForEvent)
    ));
}

#[test]
fn failed_reconversion_kills_the_child_and_ends_the_session() {
    let err = ErrorKind::Io(String::from("notebook.py"));
    let step = watch_step(WatchState::Reconverting, WatchInput::Converted(Some(err)));
    match step {
        WatchStep::Finish { kill_child, outcome } => {
            assert!(kill_child);
            assert!(matches!(outcome, Some(ErrorKind::Io(p)) if p == "notebook.py"));
        }
        WatchStep::Continue(_, _) => panic!("session should have ended"),
    }
}

#[test]
fn watch_error_ends_the_session() {
    let step = watch_step(
        WatchState::Debouncing,
        WatchInput::WatchFailed(String::from("watch failed")),
    );
    match step {
        WatchStep::Finish { kill_child, outcome } => {
            assert!(!kill_child);
            assert!(matches!(outcome, Some(ErrorKind::Watch(m)) if m == "watch failed"));
        }
        WatchStep::Continue(_, _) => panic!("session should have ended"),
    }
}

#[test]
fn disconnection_kills_the_child_and_ends_the_session() {
    for state in [WatchState::Watching, WatchState::Debouncing] {
        let step = watch_step(state, WatchInput::Disconnected);
        match step {
            WatchStep::Finish { kill_child, outcome } => {
                assert!(kill_child);
                assert!(matches!(outcome, Some(ErrorKind::WatchDisconnected)));
            }
            WatchStep::Continue(_, _) => panic!("session should have ended"),
        }
    }
}

#[test]
fn any_event_keeps_the_debounce_window_open() {
    for matches_source in [true, false] {
        let step = watch_step(WatchState::Debouncing, WatchInput::FsEvent { matches_source });
        assert!(matches!(
            step,
            WatchStep::Continue(WatchState::Debouncing, WatchAction::WaitForQuiet)
        ));
    }
}

#[test]
fn child_failure_during_debounce_ends_the_session() {
    let step = watch_step(WatchState::Debouncing, exited(false, None));
    assert!(matches!(
        step,
        WatchStep::Finish { kill_child: false, outcome: Some(ErrorKind::MarimoExited(_)) }
    ));
}

#[test]
fn event_matching_requires_kind_and_exact_path() {
    let source = String::from("/home/u/f.py");
    let hit = vec![String::from("/home/u/other"), String::from("/home/u/f.py")];
    let miss = vec![String::from("/home/u/f.py.swp")];
    assert!(event_matches(&hit, &source, true, false));
    assert!(event_matches(&hit, &source, false, true));
    assert!(!event_matches(&hit, &source, false, false));
    assert!(!event_matches(&miss, &source, true, true));
    assert!(!event_matches(&Vec::new(), &source, true, true));
}
