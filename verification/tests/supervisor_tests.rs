use vault_inject::failure::Failure;
use vault_inject::supervisor::{ChildEvent, Phase, ReturnVal, Supervisor, SupervisorAction, Wait};

fn drive(events: Vec<ChildEvent>) -> (Supervisor, Vec<SupervisorAction>) {
    let mut supervisor = Supervisor::new();
    let mut actions = Vec::new();
    for event in events {
        actions.push(supervisor.step(event));
    }
    (supervisor, actions)
}

fn line(text: &str) -> ChildEvent {
    ChildEvent::Line(text.to_string())
}

fn relay(text: &str) -> SupervisorAction {
    SupervisorAction::Relay(text.to_string())
}

#[test]
fn report_mirrors_the_exit_code() {
    assert_eq!(ReturnVal::new(Some(0)).report(), 0);
    assert_eq!(ReturnVal::new(Some(3)).report(), 3);
    assert_eq!(ReturnVal::new(Some(255)).report(), 255);
}

#[test]
fn report_stands_in_for_a_missing_code() {
    assert_eq!(ReturnVal::new(None).report(), 1);
}

#[test]
fn report_keeps_the_low_eight_bits() {
    assert_eq!(ReturnVal::new(Some(256)).report(), 0);
    assert_eq!(ReturnVal::new(Some(257)).report(), 1);
    assert_eq!(ReturnVal::new(Some(-1)).report(), 255);
    assert_eq!(ReturnVal::new(Some(-256)).report(), 0);
    assert_eq!(ReturnVal::new(Some(-257)).report(), 255);
    assert_eq!(ReturnVal::new(Some(i32::MAX)).report(), 255);
    assert_eq!(ReturnVal::new(Some(i32::MIN)).report(), 0);
    assert_eq!(ReturnVal::new(Some(1000)).report(), 1000i32 as u8);
}

#[test]
fn new_supervisor_is_starting() {
    assert_eq!(Supervisor::new(), Supervisor { phase: Phase::Starting, wait: Wait::Pending });
    assert_eq!(ReturnVal::new(Some(7)), ReturnVal { code: Some(7) });
}

#[test]
fn echo_hello_is_relayed_and_exits_zero() {
    let (end, actions) = drive(vec![
        ChildEvent::Spawned,
        line("hello"),
        ChildEvent::OutputClosed,
        ChildEvent::Exited(Some(0)),
    ]);
    assert_eq!(
        actions,
        vec![
            SupervisorAction::Nothing,
            relay("hello"),
            SupervisorAction::AwaitExit,
            SupervisorAction::Finish(ReturnVal { code: Some(0) }),
        ]
    );
    assert_eq!(end.phase, Phase::Done);
    assert_eq!(ReturnVal { code: Some(0) }.report(), 0);
}

#[test]
fn lines_are_relayed_in_order_before_exit_three() {
    let (end, actions) = drive(vec![
        ChildEvent::Spawned,
        line("a"),
        line("b"),
        line("c"),
        ChildEvent::OutputClosed,
        ChildEvent::Exited(Some(3)),
    ]);
    assert_eq!(
        actions,
        vec![
            SupervisorAction::Nothing,
            relay("a"),
            relay("b"),
            relay("c"),
            SupervisorAction::AwaitExit,
            SupervisorAction::Finish(ReturnVal { code: Some(3) }),
        ]
    );
    assert_eq!(end, Supervisor { phase: Phase::Done, wait: Wait::Exited(ReturnVal { code: Some(3) }) });
    match &actions[5] {
        SupervisorAction::Finish(outcome) => assert_eq!(outcome.report(), 3),
        other => panic!("unexpected action {:?}", other),
    }
}

#[test]
fn early_exit_is_reported_after_the_output() {
    let (end, actions) = drive(vec![
        ChildEvent::Spawned,
        line("a"),
        ChildEvent::Exited(Some(3)),
        line("b"),
        line("c"),
        ChildEvent::OutputClosed,
    ]);
    assert_eq!(
        actions,
        vec![
            SupervisorAction::Nothing,
            relay("a"),
            SupervisorAction::Nothing,
            relay("b"),
            relay("c"),
            SupervisorAction::Finish(ReturnVal { code: Some(3) }),
        ]
    );
    assert_eq!(end.phase, Phase::Done);
}

#[test]
fn first_known_end_is_kept() {
    let (_, actions) = drive(vec![
        ChildEvent::Spawned,
        ChildEvent::Exited(Some(4)),
        ChildEvent::Exited(Some(5)),
        ChildEvent::WaitFailed,
        ChildEvent::OutputClosed,
    ]);
    assert_eq!(actions[4], SupervisorAction::Finish(ReturnVal { code: Some(4) }));
}

#[test]
fn killed_child_reports_the_stand_in() {
    let (_, actions) = drive(vec![ChildEvent::Spawned, ChildEvent::OutputClosed, ChildEvent::Exited(None)]);
    match &actions[2] {
        SupervisorAction::Finish(outcome) => assert_eq!(outcome.report(), 1),
        other => panic!("unexpected action {:?}", other),
    }
}

fn spawn_failed(program: &str, reason: &str) -> ChildEvent {
    ChildEvent::SpawnFailed { program: program.to_string(), reason: reason.to_string() }
}

#[test]
fn spawn_failure_names_the_program() {
    let (end, actions) = drive(vec![
        spawn_failed("/nonexistent/prog", "No such file or directory (os error 2)"),
        line("x"),
        ChildEvent::OutputClosed,
        ChildEvent::Exited(Some(0)),
    ]);
    assert_eq!(
        actions,
        vec![
            SupervisorAction::Fail(Failure::SpawnFailure {
                program: "/nonexistent/prog".to_string(),
                reason: "No such file or directory (os error 2)".to_string(),
            }),
            SupervisorAction::Nothing,
            SupervisorAction::Nothing,
            SupervisorAction::Nothing,
        ]
    );
    assert_eq!(end, Supervisor { phase: Phase::Done, wait: Wait::Pending });
}

#[test]
fn spawn_failure_after_the_start_changes_nothing() {
    let (end, actions) = drive(vec![ChildEvent::Spawned, spawn_failed("echo", "late"), line("a")]);
    assert_eq!(actions, vec![SupervisorAction::Nothing, SupervisorAction::Nothing, relay("a")]);
    assert_eq!(end.phase, Phase::Relaying);
}

#[test]
fn broken_output_is_fatal() {
    let (end, actions) = drive(vec![ChildEvent::Spawned, line("a"), ChildEvent::OutputFailed, line("b")]);
    assert_eq!(
        actions,
        vec![
            SupervisorAction::Nothing,
            relay("a"),
            SupervisorAction::Fail(Failure::ChildIoError),
            SupervisorAction::Nothing,
        ]
    );
    assert_eq!(end.phase, Phase::Done);
}

#[test]
fn failed_wait_is_fatal_once_the_output_is_closed() {
    let (_, late) = drive(vec![ChildEvent::Spawned, ChildEvent::OutputClosed, ChildEvent::WaitFailed]);
    assert_eq!(late[2], SupervisorAction::Fail(Failure::ChildIoError));
    let (_, early) = drive(vec![ChildEvent::Spawned, ChildEvent::WaitFailed, line("a"), ChildEvent::OutputClosed]);
    assert_eq!(
        early,
        vec![
            SupervisorAction::Nothing,
            SupervisorAction::Nothing,
            relay("a"),
            SupervisorAction::Fail(Failure::ChildIoError),
        ]
    );
}

#[test]
fn events_that_do_not_fit_change_nothing() {
    let (end, actions) = drive(vec![line("too early"), ChildEvent::OutputClosed, ChildEvent::Exited(Some(1))]);
    assert_eq!(actions, vec![SupervisorAction::Nothing, SupervisorAction::Nothing, SupervisorAction::Nothing]);
    assert_eq!(end, Supervisor::new());
    let (end, actions) = drive(vec![
        ChildEvent::Spawned,
        ChildEvent::Spawned,
        spawn_failed("echo", "late"),
        ChildEvent::OutputClosed,
        line("late"),
        ChildEvent::OutputClosed,
        ChildEvent::OutputFailed,
    ]);
    assert_eq!(actions[1], SupervisorAction::Nothing);
    assert_eq!(actions[2], SupervisorAction::Nothing);
    assert_eq!(actions[3], SupervisorAction::AwaitExit);
    assert_eq!(actions[4], SupervisorAction::Nothing);
    assert_eq!(actions[5], SupervisorAction::Nothing);
    assert_eq!(actions[6], SupervisorAction::Nothing);
    assert_eq!(end.phase, Phase::AwaitingExit);
}

#[test]
fn nothing_follows_the_report() {
    let (end, actions) = drive(vec![
        ChildEvent::Spawned,
        ChildEvent::OutputClosed,
        ChildEvent::Exited(Some(2)),
        line("x"),
        ChildEvent::Exited(Some(9)),
        ChildEvent::OutputClosed,
        ChildEvent::Spawned,
    ]);
    assert_eq!(actions[2], SupervisorAction::Finish(ReturnVal { code: Some(2) }));
    for action in &actions[3..] {
        assert_eq!(*action, SupervisorAction::Nothing);
    }
    assert_eq!(end, Supervisor { phase: Phase::Done, wait: Wait::Exited(ReturnVal { code: Some(2) }) });
}
