//! The process supervisor as a state machine: the caller starts the child,
//! reports what happens to it, and does what each step answers.

use vstd::prelude::*;
use crate::failure::{Failure, FailureView};

verus! {

/// How the child ended: its exit code, or `None` where it ended without one.
#[derive(Debug, Clone, Copy, PartialEq, Eq, Structural)]
pub struct ReturnVal {
    pub code: Option<i32>,
}

/// The exit code that the supervisor itself ends with: the low eight bits of
/// the child's code, and 1 where the child left none.
pub open spec fn exit_byte(code: Option<i32>) -> int {
    match code {
        Some(c) => (c as int) % 256,
        None => 1,
    }
}

impl ReturnVal {
    pub fn new(code: Option<i32>) -> (r: ReturnVal)
        ensures
            r.code == code,
    {
        ReturnVal { code }
    }

    /// The exit code to end with.
    pub fn report(self) -> (byte: u8)
        ensures
            byte == exit_byte(self.code),
    {
        match self.code {
            None => 1,
            Some(c) => {
                let low: i32 = if c >= 0 {
                    c % 256
                } else {
                    255 - (-(c + 1)) % 256
                };
                low as u8
            },
        }
    }
}

/// Where the supervision stands.
#[derive(Debug, Clone, Copy, PartialEq, Eq, Structural)]
pub enum Phase {
    /// The child has not been started yet.
    Starting,
    /// The child's output is open and its lines are relayed.
    Relaying,
    /// The output is closed and the exit status is still awaited.
    AwaitingExit,
    /// The outcome has been reported.
    Done,
}

/// What is known of the child's end.
#[derive(Debug, Clone, Copy, PartialEq, Eq, Structural)]
pub enum Wait {
    Pending,
    Exited(ReturnVal),
    Failed,
}

/// The state of one supervised child.
#[derive(Debug, Clone, Copy, PartialEq, Eq, Structural)]
pub struct Supervisor {
    pub phase: Phase,
    pub wait: Wait,
}

/// What the caller reports.
#[derive(Debug, Clone, PartialEq, Eq)]
pub enum ChildEvent {
    /// The child was started.
    Spawned,
    /// `program` could not be started, for the `reason` that the system gave.
    SpawnFailed { program: String, reason: String },
    /// The child wrote a line.
    Line(String),
    /// The child's output reached its end.
    OutputClosed,
    /// Reading the child's output failed.
    OutputFailed,
    /// The child ended, with this exit code if it left one.
    Exited(Option<i32>),
    /// Waiting for the child's end failed.
    WaitFailed,
}

/// What the caller is to do next.
#[derive(Debug, Clone, PartialEq, Eq)]
pub enum SupervisorAction {
    /// Nothing; go on with what was being done.
    Nothing,
    /// Write this line out at once.
    Relay(String),
    /// All output is out; collect the exit status.
    AwaitExit,
    /// Report this outcome as the result.
    Finish(ReturnVal),
    /// Give up with this failure.
    Fail(Failure),
}

/// A [`ChildEvent`] with its line as a sequence of characters.
pub enum EventView {
    Spawned,
    SpawnFailed { program: Seq<char>, reason: Seq<char> },
    Line(Seq<char>),
    OutputClosed,
    OutputFailed,
    Exited(Option<i32>),
    WaitFailed,
}

/// A [`SupervisorAction`] with its texts as sequences of characters.
pub enum ActionView {
    Nothing,
    Relay(Seq<char>),
    AwaitExit,
    Finish(ReturnVal),
    Fail(FailureView),
}

impl View for ChildEvent {
    type V = EventView;

    open spec fn view(&self) -> EventView {
        match *self {
            ChildEvent::Spawned => EventView::Spawned,
            ChildEvent::SpawnFailed { program, reason } => EventView::SpawnFailed {
                program: program@,
                reason: reason@,
            },
            ChildEvent::Line(text) => EventView::Line(text@),
            ChildEvent::OutputClosed => EventView::OutputClosed,
            ChildEvent::OutputFailed => EventView::OutputFailed,
            ChildEvent::Exited(code) => EventView::Exited(code),
            ChildEvent::WaitFailed => EventView::WaitFailed,
        }
    }
}

impl View for SupervisorAction {
    type V = ActionView;

    open spec fn view(&self) -> ActionView {
        match *self {
            SupervisorAction::Nothing => ActionView::Nothing,
            SupervisorAction::Relay(text) => ActionView::Relay(text@),
            SupervisorAction::AwaitExit => ActionView::AwaitExit,
            SupervisorAction::Finish(outcome) => ActionView::Finish(outcome),
            SupervisorAction::Fail(e) => ActionView::Fail(e@),
        }
    }
}

/// The state before the child is started.
pub open spec fn initial() -> Supervisor {
    Supervisor { phase: Phase::Starting, wait: Wait::Pending }
}

/// The action that ends the supervision once the output is closed and the
/// child's end is known.
pub open spec fn closing_action(wait: Wait) -> ActionView {
    match wait {
        Wait::Pending => ActionView::AwaitExit,
        Wait::Exited(outcome) => ActionView::Finish(outcome),
        Wait::Failed => ActionView::Fail(FailureView::ChildIoError),
    }
}

/// One step: the state after `event` and what is to be done.
///
/// A child that cannot be started ends the supervision with a failure that
/// names the program, and nothing is relayed or reported for it. Lines are
/// relayed while the output is open, in the order of their
/// arrival. The child's end may become known at any time but is acted on
/// only once the output is closed. An event that does not fit the phase
/// changes nothing.
pub open spec fn spec_step(state: Supervisor, event: EventView) -> (Supervisor, ActionView) {
    match (state.phase, event) {
        (Phase::Starting, EventView::Spawned) => (
            Supervisor { phase: Phase::Relaying, wait: state.wait },
            ActionView::Nothing,
        ),
        (Phase::Starting, EventView::SpawnFailed { program, reason }) => (
            Supervisor { phase: Phase::Done, wait: state.wait },
            ActionView::Fail(FailureView::SpawnFailure { program, reason }),
        ),
        (Phase::Relaying, EventView::Line(text)) => (state, ActionView::Relay(text)),
        (Phase::Relaying, EventView::OutputFailed) => (
            Supervisor { phase: Phase::Done, wait: state.wait },
            ActionView::Fail(FailureView::ChildIoError),
        ),
        (Phase::Relaying, EventView::OutputClosed) => (
            Supervisor {
                phase: if state.wait is Pending {
                    Phase::AwaitingExit
                } else {
                    Phase::Done
                },
                wait: state.wait,
            },
            closing_action(state.wait),
        ),
        (Phase::Relaying, EventView::Exited(code)) => (
            Supervisor {
                phase: state.phase,
                wait: if state.wait is Pending {
                    Wait::Exited(ReturnVal { code })
                } else {
                    state.wait
                },
            },
            ActionView::Nothing,
        ),
        (Phase::Relaying, EventView::WaitFailed) => (
            Supervisor {
                phase: state.phase,
                wait: if state.wait is Pending {
                    Wait::Failed
                } else {
                    state.wait
                },
            },
            ActionView::Nothing,
        ),
        (Phase::AwaitingExit, EventView::Exited(code)) => (
            Supervisor { phase: Phase::Done, wait: Wait::Exited(ReturnVal { code }) },
            ActionView::Finish(ReturnVal { code }),
        ),
        (Phase::AwaitingExit, EventView::WaitFailed) => (
            Supervisor { phase: Phase::Done, wait: Wait::Failed },
            ActionView::Fail(FailureView::ChildIoError),
        ),
        _ => (state, ActionView::Nothing),
    }
}

/// The state after a run of events, and the actions that they called for,
/// one for each event.
pub open spec fn run(start: Supervisor, events: Seq<EventView>) -> (Supervisor, Seq<ActionView>)
    decreases events.len(),
{
    if events.len() == 0 {
        (start, Seq::<ActionView>::empty())
    } else {
        let before = run(start, events.drop_last());
        let stepped = spec_step(before.0, events.last());
        (stepped.0, before.1.push(stepped.1))
    }
}

impl Supervisor {
    /// A supervisor whose child is yet to be started.
    pub fn new() -> (s: Supervisor)
        ensures
            s == initial(),
    {
        Supervisor { phase: Phase::Starting, wait: Wait::Pending }
    }

    /// Takes note of `event` and says what is to be done.
    pub fn step(&mut self, event: ChildEvent) -> (action: SupervisorAction)
        ensures
            (*final(self), action@) == spec_step(*old(self), event@),
    {
        match self.phase {
            Phase::Starting => match event {
                ChildEvent::Spawned => {
                    self.phase = Phase::Relaying;
                    SupervisorAction::Nothing
                },
                ChildEvent::SpawnFailed { program, reason } => {
                    self.phase = Phase::Done;
                    SupervisorAction::Fail(Failure::SpawnFailure { program, reason })
                },
                _ => SupervisorAction::Nothing,
            },
            Phase::Relaying => match event {
                ChildEvent::Line(text) => SupervisorAction::Relay(text),
                ChildEvent::OutputFailed => {
                    self.phase = Phase::Done;
                    SupervisorAction::Fail(Failure::ChildIoError)
                },
                ChildEvent::OutputClosed => match self.wait {
                    Wait::Pending => {
                        self.phase = Phase::AwaitingExit;
                        SupervisorAction::AwaitExit
                    },
                    Wait::Exited(outcome) => {
                        self.phase = Phase::Done;
                        SupervisorAction::Finish(outcome)
                    },
                    Wait::Failed => {
                        self.phase = Phase::Done;
                        SupervisorAction::Fail(Failure::ChildIoError)
                    },
                },
                ChildEvent::Exited(code) => {
                    if let Wait::Pending = self.wait {
                        self.wait = Wait::Exited(ReturnVal::new(code));
                    }
                    SupervisorAction::Nothing
                },
                ChildEvent::WaitFailed => {
                    if let Wait::Pending = self.wait {
                        self.wait = Wait::Failed;
                    }
                    SupervisorAction::Nothing
                },
                _ => SupervisorAction::Nothing,
            },
            Phase::AwaitingExit => match event {
                ChildEvent::Exited(code) => {
                    self.phase = Phase::Done;
                    self.wait = Wait::Exited(ReturnVal::new(code));
                    SupervisorAction::Finish(ReturnVal::new(code))
                },
                ChildEvent::WaitFailed => {
                    self.phase = Phase::Done;
                    self.wait = Wait::Failed;
                    SupervisorAction::Fail(Failure::ChildIoError)
                },
                _ => SupervisorAction::Nothing,
            },
            Phase::Done => SupervisorAction::Nothing,
        }
    }
}

/// The events of a child that is started, writes `lines`, closes its output
/// and is then found to have ended with `code`.
pub open spec fn plain_run(lines: Seq<Seq<char>>, code: Option<i32>) -> Seq<EventView> {
    seq![EventView::Spawned] + lines.map_values(|text: Seq<char>| EventView::Line(text))
        + seq![EventView::OutputClosed, EventView::Exited(code)]
}

/// Whether the output had been open and was closed by one of the first
/// `upto` events.
pub open spec fn output_was_closed(events: Seq<EventView>, upto: int) -> bool {
    exists|k: int|
        0 <= k < upto && (#[trigger] events[k]) is OutputClosed && run(
            initial(),
            events.take(k),
        ).0.phase is Relaying
}

proof fn lemma_run_push(start: Supervisor, events: Seq<EventView>, event: EventView)
    ensures
        run(start, events.push(event)) == ({
            let before = run(start, events);
            let stepped = spec_step(before.0, event);
            (stepped.0, before.1.push(stepped.1))
        }),
        run(start, events).1.len() == events.len(),
    decreases events.len(),
{
    assert(events.push(event).drop_last() =~= events);
    if events.len() > 0 {
        lemma_run_push(start, events.drop_last(), events.last());
        assert(events.drop_last().push(events.last()) =~= events);
    }
}

proof fn lemma_run_take(start: Supervisor, events: Seq<EventView>, i: int)
    requires
        0 <= i < events.len(),
    ensures
        run(start, events).1.len() == events.len(),
        run(start, events.take(i + 1)) == ({
            let before = run(start, events.take(i));
            let stepped = spec_step(before.0, events[i]);
            (stepped.0, before.1.push(stepped.1))
        }),
        run(start, events).1[i] == spec_step(run(start, events.take(i)).0, events[i]).1,
    decreases events.len(),
{
    lemma_run_push(start, events.take(i), events[i]);
    assert(events.take(i).push(events[i]) =~= events.take(i + 1));
    lemma_run_push(start, events.drop_last(), events.last());
    assert(events.drop_last().push(events.last()) =~= events);
    if i == events.len() - 1 {
        assert(events.take(i + 1) =~= events);
    } else {
        lemma_run_take(start, events.drop_last(), i);
        assert(events.drop_last().take(i) =~= events.take(i));
        assert(events.drop_last().take(i + 1) =~= events.take(i + 1));
    }
}

/// Once the outcome has been reported, no event calls for anything more.
pub proof fn law_nothing_follows_the_end(start: Supervisor, events: Seq<EventView>)
    requires
        start.phase is Done,
    ensures
        run(start, events).0 == start,
        run(start, events).1.len() == events.len(),
        forall|i: int| 0 <= i < events.len() ==> (#[trigger] run(start, events).1[i]) is Nothing,
    decreases events.len(),
{
    if events.len() > 0 {
        law_nothing_follows_the_end(start, events.drop_last());
    }
}

/// A child that cannot be started ends the supervision at once: the failure
/// names the program and the reason, and whatever is reported afterwards,
/// nothing is relayed and no exit status is reported.
pub proof fn law_spawn_failure_names_the_program(
    program: Seq<char>,
    reason: Seq<char>,
    later: Seq<EventView>,
)
    ensures
        run(initial(), seq![EventView::SpawnFailed { program, reason }] + later).0.phase is Done,
        run(initial(), seq![EventView::SpawnFailed { program, reason }] + later).1 == seq![
            ActionView::Fail(FailureView::SpawnFailure { program, reason }),
        ] + Seq::new(later.len(), |i: int| ActionView::Nothing),
    decreases later.len(),
{
    let first = EventView::SpawnFailed { program, reason };
    let failed = ActionView::Fail(FailureView::SpawnFailure { program, reason });
    let events = seq![first] + later;
    let expected = seq![failed] + Seq::new(later.len(), |i: int| ActionView::Nothing);
    if later.len() == 0 {
        let none = Seq::<EventView>::empty();
        lemma_run_push(initial(), none, first);
        assert(run(initial(), none) == (initial(), Seq::<ActionView>::empty()));
        assert(events =~= none.push(first));
        assert(run(initial(), events).1 =~= expected);
    } else {
        let front = later.drop_last();
        law_spawn_failure_names_the_program(program, reason, front);
        lemma_run_push(initial(), seq![first] + front, later.last());
        assert(events =~= (seq![first] + front).push(later.last()));
        assert(run(initial(), events).1 =~= expected);
    }
}

/// Every action answers the event at its place: a line is relayed exactly
/// when it arrives while the output is open, so relayed lines keep the
/// order in which the child wrote them.
pub proof fn law_relay_in_arrival_order(events: Seq<EventView>, i: int)
    requires
        0 <= i < events.len(),
    ensures
        run(initial(), events).1.len() == events.len(),
        run(initial(), events).1[i] matches ActionView::Relay(text) ==> events[i]
            == EventView::Line(text),
        events[i] matches EventView::Line(text) ==> (run(initial(), events.take(i)).0.phase
            is Relaying ==> run(initial(), events).1[i] == ActionView::Relay(text)),
{
    lemma_run_take(initial(), events, i);
}

proof fn lemma_phase_history(events: Seq<EventView>)
    ensures
        run(initial(), events).0.phase is AwaitingExit ==> output_was_closed(
            events,
            events.len() as int,
        ),
    decreases events.len(),
{
    if events.len() > 0 {
        let front = events.drop_last();
        let n = front.len() as int;
        lemma_phase_history(front);
        lemma_run_push(initial(), front, events.last());
        assert(front.push(events.last()) =~= events);
        let before = run(initial(), front).0;
        let after = run(initial(), events).0;
        assert(after == spec_step(before, events.last()).0);
        assert(events.take(n) =~= front);
        if after.phase is AwaitingExit {
            if before.phase is Relaying {
                assert(events[n] is OutputClosed);
                assert(output_was_closed(events, events.len() as int));
            } else {
                assert(before.phase is AwaitingExit);
                lemma_closed_stays(front, events, n);
            }
        }
    }
}

proof fn lemma_closed_stays(front: Seq<EventView>, events: Seq<EventView>, upto: int)
    requires
        0 <= upto <= front.len() <= events.len(),
        front == events.take(front.len() as int),
        output_was_closed(front, upto),
    ensures
        output_was_closed(events, upto),
{
    let k = choose|k: int|
        0 <= k < upto && (#[trigger] front[k]) is OutputClosed && run(
            initial(),
            front.take(k),
        ).0.phase is Relaying;
    assert(front.take(k) =~= events.take(k));
    assert(events[k] is OutputClosed);
}

/// The exit status is reported only after the child's output was closed,
/// and after the report nothing is relayed any more: every line that was
/// relayed was relayed before.
pub proof fn law_finish_follows_the_output(events: Seq<EventView>, i: int)
    requires
        0 <= i < events.len(),
        run(initial(), events).1[i] is Finish,
    ensures
        output_was_closed(events, i + 1),
        forall|j: int| i < j < events.len() ==> (#[trigger] run(initial(), events).1[j]) is Nothing,
{
    lemma_run_take(initial(), events, i);
    let front = events.take(i);
    let before = run(initial(), front).0;
    let after = run(initial(), events.take(i + 1)).0;
    lemma_phase_history(front);
    assert(after.phase is Done);
    if before.phase is Relaying {
        assert(events[i] is OutputClosed);
        assert(output_was_closed(events, i + 1));
    } else {
        assert(before.phase is AwaitingExit);
        lemma_closed_stays(front, events, i);
    }
    assert forall|j: int| i < j < events.len() implies (#[trigger] run(initial(), events).1[j])
        is Nothing by {
        lemma_done_stays(events, i + 1, j);
        lemma_run_take(initial(), events, j);
    }
}

proof fn lemma_done_stays(events: Seq<EventView>, from: int, to: int)
    requires
        0 <= from <= to <= events.len(),
        run(initial(), events.take(from)).0.phase is Done,
    ensures
        run(initial(), events.take(to)).0.phase is Done,
    decreases to - from,
{
    if from < to {
        lemma_done_stays(events, from, to - 1);
        lemma_run_take(initial(), events, to - 1);
    }
}

/// A child that writes its lines, closes its output and ends with `code`
/// has every line relayed, in order, then its exit awaited and reported.
pub proof fn law_plain_run(lines: Seq<Seq<char>>, code: Option<i32>)
    ensures
        run(initial(), plain_run(lines, code)).1 == seq![ActionView::Nothing] + lines.map_values(
            |text: Seq<char>| ActionView::Relay(text),
        ) + seq![ActionView::AwaitExit, ActionView::Finish(ReturnVal { code })],
        run(initial(), plain_run(lines, code)).0.phase is Done,
{
    let opening = seq![EventView::Spawned] + lines.map_values(
        |text: Seq<char>| EventView::Line(text),
    );
    let relayed = seq![ActionView::Nothing] + lines.map_values(
        |text: Seq<char>| ActionView::Relay(text),
    );
    lemma_lines_are_relayed(lines);
    let closed = opening.push(EventView::OutputClosed);
    lemma_run_push(initial(), opening, EventView::OutputClosed);
    lemma_run_push(initial(), closed, EventView::Exited(code));
    assert(plain_run(lines, code) =~= closed.push(EventView::Exited(code)));
    assert(relayed.push(ActionView::AwaitExit).push(ActionView::Finish(ReturnVal { code }))
        =~= relayed + seq![ActionView::AwaitExit, ActionView::Finish(ReturnVal { code })]);
}

proof fn lemma_lines_are_relayed(lines: Seq<Seq<char>>)
    ensures
        run(
            initial(),
            seq![EventView::Spawned] + lines.map_values(|text: Seq<char>| EventView::Line(text)),
        ) == (
            Supervisor { phase: Phase::Relaying, wait: Wait::Pending },
            seq![ActionView::Nothing] + lines.map_values(
                |text: Seq<char>| ActionView::Relay(text),
            ),
        ),
    decreases lines.len(),
{
    let events = seq![EventView::Spawned] + lines.map_values(
        |text: Seq<char>| EventView::Line(text),
    );
    let actions = seq![ActionView::Nothing] + lines.map_values(
        |text: Seq<char>| ActionView::Relay(text),
    );
    if lines.len() == 0 {
        let none = Seq::<EventView>::empty();
        lemma_run_push(initial(), none, EventView::Spawned);
        assert(run(initial(), none) == (initial(), Seq::<ActionView>::empty()));
        assert(events =~= none.push(EventView::Spawned));
        assert(actions =~= Seq::<ActionView>::empty().push(ActionView::Nothing));
    } else {
        let front = lines.drop_last();
        let front_events = seq![EventView::Spawned] + front.map_values(
            |text: Seq<char>| EventView::Line(text),
        );
        let front_actions = seq![ActionView::Nothing] + front.map_values(
            |text: Seq<char>| ActionView::Relay(text),
        );
        lemma_lines_are_relayed(front);
        lemma_run_push(initial(), front_events, EventView::Line(lines.last()));
        assert(events =~= front_events.push(EventView::Line(lines.last())));
        assert(actions =~= front_actions.push(ActionView::Relay(lines.last())));
    }
}

} // verus!
