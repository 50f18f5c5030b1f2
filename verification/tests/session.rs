use ssh_fleet::error::FailureKind;
use ssh_fleet::session::{Session, SessionStep, StepOutcome};

const STEPS: [SessionStep; 7] = [
    SessionStep::Connect,
    SessionStep::Handshake,
    SessionStep::Authenticate,
    SessionStep::OpenChannel,
    SessionStep::Execute,
    SessionStep::ReadOutput,
    SessionStep::AwaitClose,
];

fn outcome_of(step: SessionStep) -> StepOutcome {
    match step {
        SessionStep::ReadOutput => StepOutcome::Output("hello\n".to_string()),
        _ => StepOutcome::Done,
    }
}

#[test]
fn the_steps_come_in_their_order() {
    let mut session = Session::start();
    for step in STEPS {
        assert_eq!(session.pending(), Some(step));
        session = session.advance(outcome_of(step));
    }
    assert_eq!(session.pending(), None);
    assert_eq!(session.into_report(), Some("hello\n".to_string()));
}

#[test]
fn a_run_that_is_not_over_has_nothing_to_report() {
    let session = Session::start();
    assert_eq!(session.into_report(), None);
    let mut session = Session::start();
    for step in &STEPS[..6] {
        session = session.advance(outcome_of(*step));
    }
    assert_eq!(session.pending(), Some(SessionStep::AwaitClose));
    assert_eq!(session.into_report(), None);
}

#[test]
fn the_first_failure_ends_the_run_with_its_reason() {
    let kinds = [
        FailureKind::ConnectionFailure,
        FailureKind::ConnectionFailure,
        FailureKind::AuthenticationFailure,
        FailureKind::ChannelFailure,
        FailureKind::ChannelFailure,
        FailureKind::ChannelFailure,
        FailureKind::ChannelFailure,
    ];
    for failing in 0..7 {
        let mut session = Session::start();
        for step in &STEPS[..failing] {
            session = session.advance(outcome_of(*step));
        }
        session = session.advance(StepOutcome::Failed(format!("step {} failed", failing)));
        assert_eq!(session.pending(), None);
        match &session {
            Session::Finished { result: Err(failure) } => {
                assert_eq!(failure.kind, kinds[failing]);
                assert_eq!(failure.message, format!("step {} failed", failing));
            }
            other => panic!("the run went on: {:?}", other),
        }
        assert_eq!(session.into_report(), Some(format!("step {} failed", failing)));
    }
}

#[test]
fn a_run_that_is_over_stays_as_it_is() {
    let session = Session::start().advance(StepOutcome::Failed("refused".to_string()));
    let session = session.advance(StepOutcome::Output("late".to_string()));
    let session = session.advance(StepOutcome::Failed("later".to_string()));
    assert_eq!(session.into_report(), Some("refused".to_string()));
}

#[test]
fn a_command_that_prints_nothing_reports_the_empty_text() {
    let mut session = Session::start();
    for _ in 0..7 {
        session = session.advance(StepOutcome::Done);
    }
    assert_eq!(session.into_report(), Some(String::new()));
}

#[test]
fn only_the_reading_step_gives_the_output() {
    let mut session = Session::start();
    session = session.advance(StepOutcome::Output("from connect".to_string()));
    for step in &STEPS[1..5] {
        session = session.advance(outcome_of(*step));
    }
    session = session.advance(StepOutcome::Output("from the command".to_string()));
    session = session.advance(StepOutcome::Output("from close".to_string()));
    assert_eq!(session.into_report(), Some("from the command".to_string()));
}

#[test]
fn each_step_has_its_follower_and_its_kind_of_failure() {
    assert_eq!(SessionStep::Connect.next(), Some(SessionStep::Handshake));
    assert_eq!(SessionStep::ReadOutput.next(), Some(SessionStep::AwaitClose));
    assert_eq!(SessionStep::AwaitClose.next(), None);
    assert_eq!(SessionStep::Handshake.failure_kind(), FailureKind::ConnectionFailure);
    assert_eq!(SessionStep::Authenticate.failure_kind(), FailureKind::AuthenticationFailure);
    assert_eq!(SessionStep::Execute.failure_kind(), FailureKind::ChannelFailure);
}
