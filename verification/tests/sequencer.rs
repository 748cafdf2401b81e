use vexide_panic::message::{FaultReport, TaskIdentity};
use vexide_panic::render::{DisplayGeometry, DrawCommand, ErrorBoxRenderer};
use vexide_panic::sequencer::{
    report_failure, Action, HandlerOptions, Outcome, Stage, TerminationSequencer, EXIT_STATUS,
};

fn fault(description: &str) -> FaultReport {
    FaultReport { location: None, description: description.to_string() }
}

fn brain() -> DisplayGeometry {
    DisplayGeometry::for_screen(480, 240, 20)
}

fn plan(geometry: DisplayGeometry, message: &str) -> Vec<DrawCommand> {
    let mut renderer = ErrorBoxRenderer::new(geometry, message);
    let mut commands = Vec::new();
    while let Some(command) = renderer.next_command() {
        commands.push(command);
    }
    commands
}

/// Runs a sequencer to its end. `fails` tells of each draw call, by its
/// number, whether it fails.
fn run(options: HandlerOptions, description: &str, fails: &dyn Fn(usize) -> bool) -> Vec<Action> {
    let mut sequencer = TerminationSequencer::new(options);
    let task = TaskIdentity { name: Some("main".to_string()) };
    sequencer.format_message(&fault(description), Some(&task));
    let mut actions = Vec::new();
    let mut outcome = Outcome::Completed;
    let mut draws = 0;
    for _ in 0..10_000 {
        let action = sequencer.step(outcome);
        outcome = Outcome::Completed;
        if let Action::Draw(_) = action {
            if fails(draws) {
                outcome = Outcome::Failed(format!("device error {draws}"));
            }
            draws += 1;
        }
        let last = matches!(action, Action::Terminate(_));
        actions.push(action);
        if last {
            assert_eq!(sequencer.stage(), Stage::ProcessTerminated);
            return actions;
        }
    }
    panic!("the sequence did not end");
}

fn draws_in(actions: &[Action]) -> Vec<&DrawCommand> {
    actions
        .iter()
        .filter_map(|action| match action {
            Action::Draw(command) => Some(command),
            _ => None,
        })
        .collect()
}

#[test]
fn exit_status_is_not_zero() {
    assert_eq!(EXIT_STATUS, 1);
}

#[test]
fn console_only_sequence() {
    let options = HandlerOptions { display: None, simulator: false };
    assert_eq!(
        run(options, "index out of bounds", &|_| false),
        vec![
            Action::EmitConsole("task 'main' index out of bounds".to_string()),
            Action::Terminate(1),
        ]
    );
}

#[test]
fn simulator_logs_a_backtrace_before_the_end() {
    let options = HandlerOptions { display: None, simulator: true };
    assert_eq!(
        run(options, "oops", &|_| false),
        vec![
            Action::EmitConsole("task 'main' oops".to_string()),
            Action::LogBacktrace,
            Action::Terminate(1),
        ]
    );
}

#[test]
fn full_sequence_in_order() {
    let options = HandlerOptions { display: Some(brain()), simulator: true };
    let actions = run(options, "index out of bounds", &|_| false);
    let mut expected = vec![Action::EmitConsole("task 'main' index out of bounds".to_string())];
    for command in plan(brain(), "task 'main' index out of bounds") {
        expected.push(Action::Draw(command));
    }
    expected.push(Action::LogBacktrace);
    expected.push(Action::Terminate(1));
    assert_eq!(actions, expected);
    assert_eq!(actions.len(), 6);
}

#[test]
fn stages_follow_one_another() {
    let options = HandlerOptions { display: Some(brain()), simulator: true };
    let mut sequencer = TerminationSequencer::new(options);
    assert_eq!(sequencer.stage(), Stage::FaultCaptured);
    assert_eq!(sequencer.message(), "");
    sequencer.format_message(&fault("oops"), None);
    assert_eq!(sequencer.stage(), Stage::MessageFormatted);
    assert_eq!(sequencer.message(), "task '<unknown>' oops");
    assert!(matches!(sequencer.step(Outcome::Completed), Action::EmitConsole(_)));
    assert_eq!(sequencer.stage(), Stage::ConsoleEmitted);
    assert!(matches!(sequencer.step(Outcome::Completed), Action::Draw(DrawCommand::Fill { .. })));
    assert_eq!(sequencer.stage(), Stage::ConsoleEmitted);
    assert!(matches!(sequencer.step(Outcome::Completed), Action::Draw(DrawCommand::Stroke { .. })));
    assert_eq!(sequencer.stage(), Stage::ConsoleEmitted);
    assert!(matches!(
        sequencer.step(Outcome::Completed),
        Action::Draw(DrawCommand::SmallText { .. })
    ));
    assert_eq!(sequencer.stage(), Stage::DisplayRendered);
    assert_eq!(sequencer.step(Outcome::Completed), Action::LogBacktrace);
    assert_eq!(sequencer.stage(), Stage::SimulatorHookCalled);
    assert_eq!(sequencer.step(Outcome::Completed), Action::Terminate(1));
    assert_eq!(sequencer.stage(), Stage::ProcessTerminated);
}

#[test]
fn failed_draw_is_reported_and_the_rest_is_drawn() {
    let options = HandlerOptions { display: Some(brain()), simulator: false };
    let message = "task 'main' index out of bounds";
    let commands = plan(brain(), message);
    for failing in 0..commands.len() {
        let actions = run(options, "index out of bounds", &|draw| draw == failing);
        assert_eq!(draws_in(&actions), commands.iter().collect::<Vec<_>>());
        assert_eq!(actions.last(), Some(&Action::Terminate(1)));
        assert_eq!(actions.len(), 1 + commands.len() + 1 + 1);
        let report = Action::EmitConsole(format!(
            "Failed to draw error message to screen: device error {failing}"
        ));
        assert_eq!(actions[1 + failing + 1], report);
    }
}

#[test]
fn every_draw_may_fail_and_every_draw_is_made() {
    let options = HandlerOptions { display: Some(brain()), simulator: true };
    let description = "x".repeat(200);
    let message = format!("task 'main' {description}");
    let commands = plan(brain(), &message);
    assert_eq!(commands.len(), 2 + 5);
    let actions = run(options, &description, &|_| true);
    assert_eq!(draws_in(&actions), commands.iter().collect::<Vec<_>>());
    assert_eq!(actions[0], Action::EmitConsole(message));
    for (index, command) in commands.into_iter().enumerate() {
        assert_eq!(actions[1 + 2 * index], Action::Draw(command));
        assert_eq!(
            actions[2 + 2 * index],
            Action::EmitConsole(format!(
                "Failed to draw error message to screen: device error {index}"
            ))
        );
    }
    assert_eq!(actions[actions.len() - 2], Action::LogBacktrace);
    assert_eq!(actions[actions.len() - 1], Action::Terminate(1));
}

#[test]
fn failure_of_the_last_draw_is_reported_before_the_close() {
    let options = HandlerOptions { display: Some(brain()), simulator: true };
    let actions = run(options, "oops", &|draw| draw == 2);
    assert_eq!(actions.len(), 7);
    assert!(matches!(actions[3], Action::Draw(DrawCommand::SmallText { .. })));
    assert_eq!(
        actions[4],
        Action::EmitConsole("Failed to draw error message to screen: device error 2".to_string())
    );
    assert_eq!(actions[5], Action::LogBacktrace);
    assert_eq!(actions[6], Action::Terminate(1));
}

#[test]
fn failure_is_taken_note_of_only_after_a_draw() {
    let options = HandlerOptions { display: Some(brain()), simulator: true };
    let mut sequencer = TerminationSequencer::new(options);
    sequencer.format_message(&fault("oops"), None);
    let failed = || Outcome::Failed("nothing was drawn".to_string());
    assert_eq!(sequencer.step(failed()), Action::EmitConsole("task '<unknown>' oops".to_string()));
    assert!(matches!(sequencer.step(failed()), Action::Draw(DrawCommand::Fill { .. })));
    assert!(matches!(sequencer.step(Outcome::Completed), Action::Draw(DrawCommand::Stroke { .. })));
    assert_eq!(sequencer.step(failed()), report_as_action("nothing was drawn"));
    assert!(matches!(
        sequencer.step(failed()),
        Action::Draw(DrawCommand::SmallText { .. })
    ));
    assert_eq!(sequencer.step(Outcome::Completed), Action::LogBacktrace);
    assert_eq!(sequencer.step(failed()), Action::Terminate(1));
}

fn report_as_action(reason: &str) -> Action {
    Action::EmitConsole(report_failure(reason))
}

#[test]
fn failure_report_names_the_reason() {
    assert_eq!(
        report_failure("buffer too small"),
        "Failed to draw error message to screen: buffer too small"
    );
    assert_eq!(report_failure(""), "Failed to draw error message to screen: ");
}

#[test]
fn nothing_follows_the_end() {
    let options = HandlerOptions { display: Some(brain()), simulator: true };
    let mut sequencer = TerminationSequencer::new(options);
    sequencer.format_message(&fault("oops"), None);
    while sequencer.step(Outcome::Completed) != Action::Terminate(1) {}
    for _ in 0..3 {
        assert_eq!(sequencer.step(Outcome::Failed("late".to_string())), Action::Terminate(1));
        assert_eq!(sequencer.stage(), Stage::ProcessTerminated);
    }
}

#[test]
fn without_a_message_the_process_ends_at_once() {
    let options = HandlerOptions { display: Some(brain()), simulator: true };
    let mut sequencer = TerminationSequencer::new(options);
    assert_eq!(sequencer.step(Outcome::Completed), Action::Terminate(1));
    assert_eq!(sequencer.stage(), Stage::ProcessTerminated);
    sequencer.format_message(&fault("too late"), None);
    assert_eq!(sequencer.stage(), Stage::ProcessTerminated);
    assert_eq!(sequencer.message(), "");
}

#[test]
fn message_is_composed_once() {
    let options = HandlerOptions { display: None, simulator: false };
    let mut sequencer = TerminationSequencer::new(options);
    sequencer.format_message(&fault("first"), None);
    sequencer.format_message(&fault("second"), None);
    assert_eq!(sequencer.message(), "task '<unknown>' first");
    assert_eq!(sequencer.stage(), Stage::MessageFormatted);
    assert_eq!(
        sequencer.step(Outcome::Completed),
        Action::EmitConsole("task '<unknown>' first".to_string())
    );
    sequencer.format_message(&fault("third"), None);
    assert_eq!(sequencer.stage(), Stage::ConsoleEmitted);
    assert_eq!(sequencer.step(Outcome::Completed), Action::Terminate(1));
}

#[test]
fn sequence_ends_within_its_bound() {
    let options = HandlerOptions { display: Some(brain()), simulator: true };
    let description = "y".repeat(300);
    let draws = plan(brain(), &format!("task 'main' {description}")).len();
    let actions = run(options, &description, &|draw| draw % 2 == 0);
    assert!(actions.len() <= 1 + 2 * draws + 2);
}
