//! The steps that follow a fault, in their one order: the message on the
//! console, the error box on the display, the backtrace of the simulator, and
//! the end of the process.
//!
//! The sequencer decides; it does nothing itself. Each call of
//! [`TerminationSequencer::step`] hands out the next thing to do, and is told
//! how the last one went.

use vstd::prelude::*;
use vstd::string::StringExecFns;
use crate::message::{compose_message, diagnostic, reported_name, FaultReport, TaskIdentity};
use crate::render::{DisplayGeometry, DrawCommand, DrawCommandView, ErrorBoxRenderer};
use crate::wrap::plain;

verus! {

/// The status with which the process ends after a fault.
pub const EXIT_STATUS: i32 = 1;

/// What the handler is able to do besides writing to the console.
#[derive(Clone, Copy, Debug, PartialEq, Eq)]
pub struct HandlerOptions {
    /// The display to paint the error box on, if there is one.
    pub display: Option<DisplayGeometry>,
    /// Whether the program runs in the simulator, which logs a backtrace.
    pub simulator: bool,
}

/// How far the sequence has come.
#[derive(Clone, Copy, Debug, PartialEq, Eq)]
pub enum Stage {
    /// A fault has been captured; nothing has been done about it yet.
    FaultCaptured,
    /// The diagnostic message has been composed.
    MessageFormatted,
    /// The message has been handed out for the console.
    ConsoleEmitted,
    /// Every draw call of the error box has been handed out.
    DisplayRendered,
    /// The call that logs a backtrace has been handed out.
    SimulatorHookCalled,
    /// The end of the process has been handed out.
    ProcessTerminated,
}

/// How the last thing that the sequencer handed out went.
#[derive(Debug, PartialEq, Eq)]
pub enum Outcome {
    /// It was done, or there was nothing to do yet.
    Completed,
    /// It failed, for the reason given. Only of a draw call is this taken note of.
    Failed(String),
}

/// An outcome, with its text as a sequence of characters.
pub enum OutcomeView {
    Completed,
    Failed(Seq<char>),
}

impl View for Outcome {
    type V = OutcomeView;

    open spec fn view(&self) -> OutcomeView {
        match *self {
            Outcome::Completed => OutcomeView::Completed,
            Outcome::Failed(reason) => OutcomeView::Failed(reason@),
        }
    }
}

/// What the sequencer hands out to be done.
#[derive(Debug, PartialEq, Eq)]
pub enum Action {
    /// Write this line to the console.
    EmitConsole(String),
    /// Make this draw call on the display.
    Draw(DrawCommand),
    /// Have the simulator log a backtrace.
    LogBacktrace,
    /// End the process with this status.
    Terminate(i32),
}

/// An action, with its texts as sequences of characters.
pub enum ActionView {
    EmitConsole(Seq<char>),
    Draw(DrawCommandView),
    LogBacktrace,
    Terminate(i32),
}

impl View for Action {
    type V = ActionView;

    open spec fn view(&self) -> ActionView {
        match *self {
            Action::EmitConsole(line) => ActionView::EmitConsole(line@),
            Action::Draw(command) => ActionView::Draw(command@),
            Action::LogBacktrace => ActionView::LogBacktrace,
            Action::Terminate(status) => ActionView::Terminate(status),
        }
    }
}

/// The line that reports to the console a draw call that failed for `reason`.
pub open spec fn failure_report(reason: Seq<char>) -> Seq<char> {
    "Failed to draw error message to screen: "@ + reason
}

/// The state of a sequencer.
pub struct SequencerState {
    /// How far the sequence has come.
    pub stage: Stage,
    /// What the handler is able to do.
    pub options: HandlerOptions,
    /// The diagnostic message; empty before it is composed.
    pub message: Seq<char>,
    /// The draw calls to make, in order; none before the message is composed.
    pub plan: Seq<DrawCommandView>,
    /// How many of the draw calls have been handed out.
    pub issued: nat,
    /// Whether the last thing handed out was a draw call.
    pub awaiting: bool,
}

impl SequencerState {
    /// The state in which a fault has just been captured.
    pub open spec fn captured(options: HandlerOptions) -> SequencerState {
        SequencerState {
            stage: Stage::FaultCaptured,
            options,
            message: Seq::empty(),
            plan: Seq::empty(),
            issued: 0,
            awaiting: false,
        }
    }

    /// The state once `message` has been composed: it plans the draw calls of
    /// the error box where there is a display. A message is composed once:
    /// in any later stage nothing changes.
    pub open spec fn formatted(self, message: Seq<char>) -> SequencerState {
        if self.stage == Stage::FaultCaptured {
            SequencerState {
                stage: Stage::MessageFormatted,
                options: self.options,
                message,
                plan: match self.options.display {
                    Some(geometry) => geometry.draw_plan(message),
                    None => Seq::empty(),
                },
                issued: 0,
                awaiting: false,
            }
        } else {
            self
        }
    }

    /// The end of the sequence: the backtrace where the program runs in
    /// the simulator and has not logged one yet, the end of the process otherwise.
    pub open spec fn close(self) -> (SequencerState, ActionView) {
        if self.options.simulator && self.stage != Stage::SimulatorHookCalled {
            (
                SequencerState { stage: Stage::SimulatorHookCalled, awaiting: false, ..self },
                ActionView::LogBacktrace,
            )
        } else {
            (
                SequencerState { stage: Stage::ProcessTerminated, awaiting: false, ..self },
                ActionView::Terminate(EXIT_STATUS),
            )
        }
    }

    /// The state that follows, and what is handed out, when the last thing
    /// handed out went as `outcome` says.
    ///
    /// - With no message composed, the process ends without a diagnostic.
    /// - The message goes to the console first.
    /// - Then, where the last draw call failed, the failure is reported to
    ///   the console; nothing else changes.
    /// - Otherwise the next draw call is handed out, while there is one.
    /// - After the last draw call comes the close of the sequence.
    /// - Once the end of the process has been handed out, nothing else ever is.
    pub open spec fn step(self, outcome: OutcomeView) -> (SequencerState, ActionView) {
        match self.stage {
            Stage::FaultCaptured => (
                SequencerState { stage: Stage::ProcessTerminated, ..self },
                ActionView::Terminate(EXIT_STATUS),
            ),
            Stage::ProcessTerminated => (self, ActionView::Terminate(EXIT_STATUS)),
            Stage::MessageFormatted => (
                SequencerState { stage: Stage::ConsoleEmitted, awaiting: false, ..self },
                ActionView::EmitConsole(self.message),
            ),
            Stage::ConsoleEmitted | Stage::DisplayRendered => {
                if self.awaiting && outcome is Failed {
                    (
                        SequencerState { awaiting: false, ..self },
                        ActionView::EmitConsole(failure_report(outcome->Failed_0)),
                    )
                } else if self.issued < self.plan.len() {
                    (
                        SequencerState {
                            stage: if self.issued + 1 >= self.plan.len() {
                                Stage::DisplayRendered
                            } else {
                                self.stage
                            },
                            issued: self.issued + 1,
                            awaiting: true,
                            ..self
                        },
                        ActionView::Draw(self.plan[self.issued as int]),
                    )
                } else {
                    self.close()
                }
            },
            Stage::SimulatorHookCalled => self.close(),
        }
    }
}

impl Stage {
    /// The place of the stage in the sequence.
    pub open spec fn rank(self) -> nat {
        match self {
            Stage::FaultCaptured => 0,
            Stage::MessageFormatted => 1,
            Stage::ConsoleEmitted => 2,
            Stage::DisplayRendered => 3,
            Stage::SimulatorHookCalled => 4,
            Stage::ProcessTerminated => 5,
        }
    }
}

impl SequencerState {
    /// The state that is reached, and everything that is handed out on the
    /// way, in order, when the things handed out go as `outcomes` says, one
    /// after the other.
    pub open spec fn run(self, outcomes: Seq<OutcomeView>) -> (SequencerState, Seq<ActionView>)
        decreases outcomes.len(),
    {
        if outcomes.len() == 0 {
            (self, Seq::empty())
        } else {
            let (next, action) = self.step(outcomes[0]);
            let (last, actions) = next.run(outcomes.drop_first());
            (last, seq![action] + actions)
        }
    }

    /// The number of draw calls that are still to be handed out.
    pub open spec fn draws_left(self) -> nat {
        if self.issued < self.plan.len() {
            (self.plan.len() - self.issued) as nat
        } else {
            0
        }
    }

    /// The number of steps that the close of the sequence takes.
    pub open spec fn closing_steps(self) -> nat {
        if self.options.simulator {
            2
        } else {
            1
        }
    }

    /// A number of steps within which the end of the process is handed out,
    /// however the things handed out go: each draw call may fail and be reported.
    pub open spec fn steps_left(self) -> nat {
        match self.stage {
            Stage::FaultCaptured => 1,
            Stage::MessageFormatted => 1 + 2 * self.draws_left() + self.closing_steps(),
            Stage::ConsoleEmitted | Stage::DisplayRendered => {
                let report: nat = if self.awaiting {
                    1
                } else {
                    0
                };
                report + 2 * self.draws_left() + self.closing_steps()
            },
            Stage::SimulatorHookCalled => 1,
            Stage::ProcessTerminated => 0,
        }
    }
}

/// Whether nothing failed: every outcome is that the thing was done.
pub open spec fn all_completed(outcomes: Seq<OutcomeView>) -> bool {
    forall|i: int| 0 <= i < outcomes.len() ==> #[trigger] outcomes[i] is Completed
}

/// What is handed out at the close of the sequence: the backtrace where the
/// program runs in the simulator, and the end of the process.
pub open spec fn closing_actions(options: HandlerOptions) -> Seq<ActionView> {
    if options.simulator {
        seq![ActionView::LogBacktrace, ActionView::Terminate(EXIT_STATUS)]
    } else {
        seq![ActionView::Terminate(EXIT_STATUS)]
    }
}

/// The draw calls among `actions`, in order.
pub open spec fn draws_in(actions: Seq<ActionView>) -> Seq<DrawCommandView>
    decreases actions.len(),
{
    if actions.len() == 0 {
        Seq::empty()
    } else {
        match actions[0] {
            ActionView::Draw(command) => seq![command] + draws_in(actions.drop_first()),
            _ => draws_in(actions.drop_first()),
        }
    }
}

/// Composes the line that reports a failed draw call to the console.
pub fn report_failure(reason: &str) -> (line: String)
    ensures
        line@ == failure_report(reason@),
{
    let mut line = String::from_str("Failed to draw error message to screen: ");
    line.append(reason);
    line
}

/// The sequence of steps that follows one fault.
pub struct TerminationSequencer {
    stage: Stage,
    options: HandlerOptions,
    message: String,
    renderer: Option<ErrorBoxRenderer>,
    awaiting: bool,
}

impl TerminationSequencer {
    /// The state of the sequencer.
    pub closed spec fn state(self) -> SequencerState {
        SequencerState {
            stage: self.stage,
            options: self.options,
            message: self.message@,
            plan: match self.renderer {
                Some(renderer) => renderer.plan(),
                None => Seq::empty(),
            },
            issued: match self.renderer {
                Some(renderer) => renderer.issued(),
                None => 0,
            },
            awaiting: self.awaiting,
        }
    }

    /// Takes up a fault that has just been captured.
    pub fn new(options: HandlerOptions) -> (sequencer: TerminationSequencer)
        ensures
            sequencer.state() == SequencerState::captured(options),
    {
        TerminationSequencer {
            stage: Stage::FaultCaptured,
            options,
            message: String::new(),
            renderer: None,
            awaiting: false,
        }
    }

    /// How far the sequence has come.
    pub fn stage(&self) -> (stage: Stage)
        ensures
            stage == self.state().stage,
    {
        self.stage
    }

    /// The diagnostic message; empty before it is composed.
    pub fn message(&self) -> (message: &str)
        ensures
            message@ == self.state().message,
    {
        self.message.as_str()
    }

    /// Composes the diagnostic message of the fault. `task` is what looking
    /// up the current task gave: `None` where the lookup failed.
    pub fn format_message(&mut self, report: &FaultReport, task: Option<&TaskIdentity>)
        ensures
            final(self).state() == old(self).state().formatted(
                diagnostic(reported_name(task), report.description@),
            ),
    {
        match self.stage {
            Stage::FaultCaptured => {
                let message = compose_message(report, task);
                self.renderer =
                match self.options.display {
                    Some(geometry) => Some(ErrorBoxRenderer::new(geometry, message.as_str())),
                    None => None,
                };
                self.message = message;
                self.awaiting = false;
                self.stage = Stage::MessageFormatted;
            },
            _ => {},
        }
    }

    fn close(&mut self) -> (action: Action)
        ensures
            (final(self).state(), action@) == old(self).state().close(),
    {
        self.awaiting = false;
        if self.options.simulator && !matches!(self.stage, Stage::SimulatorHookCalled) {
            self.stage = Stage::SimulatorHookCalled;
            Action::LogBacktrace
        } else {
            self.stage = Stage::ProcessTerminated;
            Action::Terminate(EXIT_STATUS)
        }
    }

    /// Hands out the next thing to do. `outcome` tells how the last thing
    /// handed out went; before anything was handed out it plays no part.
    ///
    /// A text that is handed out to be drawn holds no control character.
    pub fn step(&mut self, outcome: Outcome) -> (action: Action)
        ensures
            (final(self).state(), action@) == old(self).state().step(outcome@),
            action matches Action::Draw(DrawCommand::SmallText { text, .. }) ==> plain(text@),
    {
        match self.stage {
            Stage::FaultCaptured | Stage::ProcessTerminated => {
                self.stage = Stage::ProcessTerminated;
                Action::Terminate(EXIT_STATUS)
            },
            Stage::MessageFormatted => {
                self.awaiting = false;
                self.stage = Stage::ConsoleEmitted;
                Action::EmitConsole(self.message.clone())
            },
            Stage::ConsoleEmitted | Stage::DisplayRendered => {
                if self.awaiting {
                    if let Outcome::Failed(reason) = outcome {
                        self.awaiting = false;
                        return Action::EmitConsole(report_failure(reason.as_str()));
                    }
                }
                let command = match &mut self.renderer {
                    Some(renderer) => renderer.next_command(),
                    None => None,
                };
                match command {
                    Some(command) => {
                        let done = match &self.renderer {
                            Some(renderer) => renderer.is_done(),
                            None => true,
                        };
                        if done {
                            self.stage = Stage::DisplayRendered;
                        }
                        self.awaiting = true;
                        Action::Draw(command)
                    },
                    None => self.close(),
                }
            },
            Stage::SimulatorHookCalled => self.close(),
        }
    }
}

} // verus!
