//! The steps of running one command on one server.

use crate::error::{Failure, FailureKind};
use vstd::prelude::*;

verus! {

/// The steps of running one command on one server, in their order.
#[derive(Clone, Copy, Debug, PartialEq, Eq, Structural)]
pub enum SessionStep {
    /// Open the transport connection to the server's address.
    Connect,
    /// Set up the session on the connection.
    Handshake,
    /// Log in with the user name and the key material.
    Authenticate,
    /// Open the command channel.
    OpenChannel,
    /// Submit the text of the command.
    Execute,
    /// Read what the command prints, to the end.
    ReadOutput,
    /// Wait for the channel to close.
    AwaitClose,
}

impl SessionStep {
    /// The step that follows, or `None` after the last.
    pub open spec fn following(self) -> Option<SessionStep> {
        match self {
            SessionStep::Connect => Some(SessionStep::Handshake),
            SessionStep::Handshake => Some(SessionStep::Authenticate),
            SessionStep::Authenticate => Some(SessionStep::OpenChannel),
            SessionStep::OpenChannel => Some(SessionStep::Execute),
            SessionStep::Execute => Some(SessionStep::ReadOutput),
            SessionStep::ReadOutput => Some(SessionStep::AwaitClose),
            SessionStep::AwaitClose => None,
        }
    }

    /// The kind of failure that a failure of the step is.
    pub open spec fn failure(self) -> FailureKind {
        match self {
            SessionStep::Connect => FailureKind::ConnectionFailure,
            SessionStep::Handshake => FailureKind::ConnectionFailure,
            SessionStep::Authenticate => FailureKind::AuthenticationFailure,
            SessionStep::OpenChannel => FailureKind::ChannelFailure,
            SessionStep::Execute => FailureKind::ChannelFailure,
            SessionStep::ReadOutput => FailureKind::ChannelFailure,
            SessionStep::AwaitClose => FailureKind::ChannelFailure,
        }
    }

    /// The step at a place in the order, counted from 0.
    pub open spec fn at(place: int) -> SessionStep {
        if place <= 0 {
            SessionStep::Connect
        } else if place == 1 {
            SessionStep::Handshake
        } else if place == 2 {
            SessionStep::Authenticate
        } else if place == 3 {
            SessionStep::OpenChannel
        } else if place == 4 {
            SessionStep::Execute
        } else if place == 5 {
            SessionStep::ReadOutput
        } else {
            SessionStep::AwaitClose
        }
    }

    /// The step that follows, or `None` after the last.
    pub fn next(self) -> (step: Option<SessionStep>)
        ensures
            step == self.following(),
    {
        match self {
            SessionStep::Connect => Some(SessionStep::Handshake),
            SessionStep::Handshake => Some(SessionStep::Authenticate),
            SessionStep::Authenticate => Some(SessionStep::OpenChannel),
            SessionStep::OpenChannel => Some(SessionStep::Execute),
            SessionStep::Execute => Some(SessionStep::ReadOutput),
            SessionStep::ReadOutput => Some(SessionStep::AwaitClose),
            SessionStep::AwaitClose => None,
        }
    }

    /// The kind of failure that a failure of the step is.
    pub fn failure_kind(self) -> (kind: FailureKind)
        ensures
            kind == self.failure(),
    {
        match self {
            SessionStep::Connect => FailureKind::ConnectionFailure,
            SessionStep::Handshake => FailureKind::ConnectionFailure,
            SessionStep::Authenticate => FailureKind::AuthenticationFailure,
            SessionStep::OpenChannel => FailureKind::ChannelFailure,
            SessionStep::Execute => FailureKind::ChannelFailure,
            SessionStep::ReadOutput => FailureKind::ChannelFailure,
            SessionStep::AwaitClose => FailureKind::ChannelFailure,
        }
    }
}

/// How a step went, as mathematical values.
pub enum OutcomeView {
    Done,
    Output(Seq<char>),
    Failed(Seq<char>),
}

/// How a step went: it was done, it was done and gave the text that the
/// command printed, or it failed for the reason given.
#[derive(Debug)]
pub enum StepOutcome {
    Done,
    Output(String),
    Failed(String),
}

impl View for StepOutcome {
    type V = OutcomeView;

    open spec fn view(&self) -> OutcomeView {
        match self {
            StepOutcome::Done => OutcomeView::Done,
            StepOutcome::Output(text) => OutcomeView::Output(text@),
            StepOutcome::Failed(reason) => OutcomeView::Failed(reason@),
        }
    }
}

/// Where the run of a command stands, as mathematical values.
pub enum SessionView {
    /// The step is to be taken next; the output is what has been read.
    Running { step: SessionStep, output: Seq<char> },
    /// The run is over: with the output, or with the kind of failure and
    /// the reason.
    Finished { result: Result<Seq<char>, (FailureKind, Seq<char>)> },
}

impl SessionView {
    /// A run of which no step has been taken.
    pub open spec fn start() -> SessionView {
        SessionView::Running { step: SessionStep::Connect, output: Seq::empty() }
    }

    /// The run after the step that was to be taken went as the outcome
    /// says. The first failure ends the run. The output is the text that
    /// the step `ReadOutput` gave. A run that is over stays as it is.
    pub open spec fn advance(self, outcome: OutcomeView) -> SessionView {
        match self {
            SessionView::Finished { .. } => self,
            SessionView::Running { step, output } => match outcome {
                OutcomeView::Failed(reason) => SessionView::Finished {
                    result: Err((step.failure(), reason)),
                },
                _ => {
                    let read = match outcome {
                        OutcomeView::Output(text) if step == SessionStep::ReadOutput => text,
                        _ => output,
                    };
                    match step.following() {
                        Some(next) => SessionView::Running { step: next, output: read },
                        None => SessionView::Finished { result: Ok(read) },
                    }
                },
            },
        }
    }

    /// The run after the steps went as the outcomes say, one after the
    /// other.
    pub open spec fn after(outcomes: Seq<OutcomeView>) -> SessionView
        decreases outcomes.len(),
    {
        if outcomes.len() == 0 {
            SessionView::start()
        } else {
            SessionView::after(outcomes.drop_last()).advance(outcomes.last())
        }
    }

    /// The text that goes to the ledger for a run that is over: the output
    /// of the command, or the reason of the failure.
    pub open spec fn report(self) -> Option<Seq<char>> {
        match self {
            SessionView::Running { .. } => None,
            SessionView::Finished { result: Ok(output) } => Some(output),
            SessionView::Finished { result: Err((_, reason)) } => Some(reason),
        }
    }
}

/// What has been read of the output after the first `count` steps.
pub open spec fn read_so_far(outcomes: Seq<OutcomeView>, count: int) -> Seq<char> {
    if count > 5 {
        match outcomes[5] {
            OutcomeView::Output(text) => text,
            _ => Seq::empty(),
        }
    } else {
        Seq::empty()
    }
}

proof fn lemma_steps_without_failure(outcomes: Seq<OutcomeView>, count: int)
    requires
        0 <= count <= 7,
        count <= outcomes.len(),
        forall|i: int| 0 <= i < count ==> !((#[trigger] outcomes[i]) is Failed),
    ensures
        SessionView::after(outcomes.take(count)) == if count < 7 {
            SessionView::Running {
                step: SessionStep::at(count),
                output: read_so_far(outcomes, count),
            }
        } else {
            SessionView::Finished { result: Ok(read_so_far(outcomes, count)) }
        },
    decreases count,
{
    if count > 0 {
        lemma_steps_without_failure(outcomes, count - 1);
        assert(outcomes.take(count).drop_last() =~= outcomes.take(count - 1));
        assert(outcomes.take(count).last() == outcomes[count - 1]);
        assert(!(outcomes[count - 1] is Failed));
    }
}

proof fn lemma_over_stays_over(outcomes: Seq<OutcomeView>, count: int)
    requires
        0 <= count <= outcomes.len(),
        SessionView::after(outcomes.take(count)) is Finished,
    ensures
        SessionView::after(outcomes) == SessionView::after(outcomes.take(count)),
    decreases outcomes.len() - count,
{
    if count < outcomes.len() {
        assert(outcomes.take(count + 1).drop_last() =~= outcomes.take(count));
        lemma_over_stays_over(outcomes, count + 1);
    } else {
        assert(outcomes.take(count) =~= outcomes);
    }
}

/// The first step that fails ends the run with the kind of failure of that
/// step and the reason given, whatever is said of later steps.
pub proof fn lemma_first_failure_ends_the_run(
    outcomes: Seq<OutcomeView>,
    place: int,
    reason: Seq<char>,
)
    requires
        0 <= place < 7,
        place < outcomes.len(),
        outcomes[place] == OutcomeView::Failed(reason),
        forall|i: int| 0 <= i < place ==> !((#[trigger] outcomes[i]) is Failed),
    ensures
        SessionView::after(outcomes) == (SessionView::Finished {
            result: Err((SessionStep::at(place).failure(), reason)),
        }),
        SessionView::after(outcomes).report() == Some(reason),
{
    lemma_steps_without_failure(outcomes, place);
    assert(outcomes.take(place + 1).drop_last() =~= outcomes.take(place));
    assert(outcomes.take(place + 1).last() == outcomes[place]);
    lemma_over_stays_over(outcomes, place + 1);
}

/// Seven steps without a failure end the run with the output that the
/// step `ReadOutput` gave, or with the empty text where it gave none.
pub proof fn lemma_seven_steps_give_the_output(outcomes: Seq<OutcomeView>)
    requires
        outcomes.len() >= 7,
        forall|i: int| 0 <= i < 7 ==> !((#[trigger] outcomes[i]) is Failed),
    ensures
        SessionView::after(outcomes) == (SessionView::Finished {
            result: Ok(read_so_far(outcomes, 7)),
        }),
        SessionView::after(outcomes).report() == Some(read_so_far(outcomes, 7)),
{
    lemma_steps_without_failure(outcomes, 7);
    lemma_over_stays_over(outcomes, 7);
}

/// Whatever the outcomes, after seven of them the run is over, and it has
/// exactly one text to report.
pub proof fn lemma_run_is_over_after_seven_steps(outcomes: Seq<OutcomeView>)
    requires
        outcomes.len() >= 7,
    ensures
        SessionView::after(outcomes) is Finished,
        SessionView::after(outcomes).report() is Some,
{
    if forall|i: int| 0 <= i < 7 ==> !((#[trigger] outcomes[i]) is Failed) {
        lemma_seven_steps_give_the_output(outcomes);
    } else {
        let place = first_failure(outcomes, 7);
        lemma_first_failure(outcomes, 7);
        lemma_first_failure_ends_the_run(outcomes, place, outcomes[place]->Failed_0);
    }
}

spec fn first_failure(outcomes: Seq<OutcomeView>, below: int) -> int
    decreases below,
{
    if below <= 0 {
        0
    } else if exists|i: int| 0 <= i < below - 1 && (#[trigger] outcomes[i]) is Failed {
        first_failure(outcomes, below - 1)
    } else {
        below - 1
    }
}

proof fn lemma_first_failure(outcomes: Seq<OutcomeView>, below: int)
    requires
        exists|i: int| 0 <= i < below && (#[trigger] outcomes[i]) is Failed,
    ensures
        0 <= first_failure(outcomes, below) < below,
        outcomes[first_failure(outcomes, below)] is Failed,
        forall|i: int|
            0 <= i < first_failure(outcomes, below) ==> !((#[trigger] outcomes[i]) is Failed),
    decreases below,
{
    if exists|i: int| 0 <= i < below - 1 && (#[trigger] outcomes[i]) is Failed {
        lemma_first_failure(outcomes, below - 1);
    } else {
        let found = choose|i: int| 0 <= i < below && (#[trigger] outcomes[i]) is Failed;
        assert(found == below - 1);
    }
}

/// Where the run of a command on a server stands.
#[derive(Debug)]
pub enum Session {
    Running { step: SessionStep, output: String },
    Finished { result: Result<String, Failure> },
}

impl View for Session {
    type V = SessionView;

    open spec fn view(&self) -> SessionView {
        match self {
            Session::Running { step, output } => SessionView::Running {
                step: *step,
                output: output@,
            },
            Session::Finished { result: Ok(output) } => SessionView::Finished {
                result: Ok(output@),
            },
            Session::Finished { result: Err(e) } => SessionView::Finished {
                result: Err((e.kind, e.message@)),
            },
        }
    }
}

impl Session {
    /// A run of which no step has been taken.
    pub fn start() -> (session: Session)
        ensures
            session@ == SessionView::start(),
    {
        Session::Running { step: SessionStep::Connect, output: String::new() }
    }

    /// The step to take next, or `None` where the run is over.
    pub fn pending(&self) -> (step: Option<SessionStep>)
        ensures
            match self@ {
                SessionView::Running { step: next, .. } => step == Some(next),
                SessionView::Finished { .. } => step is None,
            },
    {
        match self {
            Session::Running { step, .. } => Some(*step),
            Session::Finished { .. } => None,
        }
    }

    /// The run after the pending step went as the outcome says.
    pub fn advance(self, outcome: StepOutcome) -> (session: Session)
        ensures
            session@ == self@.advance(outcome@),
    {
        match self {
            Session::Finished { result } => Session::Finished { result },
            Session::Running { step, output } => match outcome {
                StepOutcome::Failed(reason) => Session::Finished {
                    result: Err(Failure::new(step.failure_kind(), reason)),
                },
                StepOutcome::Output(text) => {
                    let read = match step {
                        SessionStep::ReadOutput => text,
                        _ => output,
                    };
                    match step.next() {
                        Some(next) => Session::Running { step: next, output: read },
                        None => Session::Finished { result: Ok(read) },
                    }
                },
                StepOutcome::Done => match step.next() {
                    Some(next) => Session::Running { step: next, output },
                    None => Session::Finished { result: Ok(output) },
                },
            },
        }
    }

    /// The text that goes to the ledger, or `None` where the run is not
    /// over: the output of the command, or the reason of the failure.
    pub fn into_report(self) -> (text: Option<String>)
        ensures
            text.deep_view() == self@.report(),
    {
        match self {
            Session::Running { .. } => None,
            Session::Finished { result: Ok(output) } => Some(output),
            Session::Finished { result: Err(e) } => Some(e.message),
        }
    }
}

} // verus!
