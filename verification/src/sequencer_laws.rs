//! What holds of every run of the sequence, however the steps go.

use vstd::prelude::*;
use crate::render::DrawCommandView;
use crate::sequencer::{
    all_completed, closing_actions, draws_in, failure_report, ActionView, HandlerOptions, OutcomeView,
    SequencerState, Stage, EXIT_STATUS,
};

verus! {

/// The sequence has one way, forward: no step leads back to an earlier
/// stage, and none leads out of the last.
pub proof fn law_stages_only_advance(state: SequencerState, outcome: OutcomeView)
    ensures
        state.step(outcome).0.stage.rank() >= state.stage.rank(),
        state.stage == Stage::ProcessTerminated ==> state.step(outcome).0 == state,
        state.step(outcome).0.options == state.options,
        state.step(outcome).0.message == state.message,
        state.step(outcome).0.plan == state.plan,
{
}

/// The process ends with a status that is not zero, and the end of the
/// process is all that is handed out once it has been handed out.
pub proof fn law_end_is_final(state: SequencerState, outcome: OutcomeView)
    ensures
        EXIT_STATUS != 0,
        state.step(outcome).1 is Terminate <==> state.step(outcome).0.stage
            == Stage::ProcessTerminated,
        state.step(outcome).1 is Terminate ==> state.step(outcome).1 == ActionView::Terminate(
            EXIT_STATUS,
        ),
{
}

/// A draw call that failed is reported to the console, with the reason, by
/// the step that learns of it; nothing else changes by that step.
pub proof fn law_failed_draw_is_reported(state: SequencerState, reason: Seq<char>)
    requires
        state.awaiting,
        state.stage == Stage::ConsoleEmitted || state.stage == Stage::DisplayRendered,
    ensures
        state.step(OutcomeView::Failed(reason)) == (
            SequencerState { awaiting: false, ..state },
            ActionView::EmitConsole(failure_report(reason)),
        ),
{
}

/// Every step but those after the end brings the end nearer.
proof fn lemma_step_brings_end_nearer(state: SequencerState, outcome: OutcomeView)
    requires
        state.stage != Stage::ProcessTerminated,
    ensures
        state.step(outcome).0.steps_left() < state.steps_left(),
{
}

/// Whatever goes wrong on the way, the end of the process is handed out
/// within `steps_left` steps.
pub proof fn law_sequence_ends(state: SequencerState, outcomes: Seq<OutcomeView>)
    requires
        outcomes.len() >= state.steps_left(),
    ensures
        state.run(outcomes).0.stage == Stage::ProcessTerminated,
    decreases outcomes.len(),
{
    if outcomes.len() > 0 {
        let next = state.step(outcomes[0]).0;
        if state.stage != Stage::ProcessTerminated {
            lemma_step_brings_end_nearer(state, outcomes[0]);
        }
        law_sequence_ends(next, outcomes.drop_first());
    }
}

/// The message goes to the console before anything else is handed out.
pub proof fn law_console_comes_first(state: SequencerState, outcomes: Seq<OutcomeView>)
    requires
        state.stage == Stage::MessageFormatted,
        outcomes.len() >= 1,
    ensures
        state.run(outcomes).1[0] == ActionView::EmitConsole(state.message),
{
}

/// Whether the draw calls handed out so far are no more than planned, all of
/// them once the sequence has left the display behind.
spec fn on_plan(state: SequencerState) -> bool {
    &&& state.stage != Stage::FaultCaptured
    &&& state.issued <= state.plan.len()
    &&& state.stage.rank() >= Stage::DisplayRendered.rank() ==> state.issued == state.plan.len()
    &&& state.stage == Stage::DisplayRendered ==> state.plan.len() > 0
}

/// The draw calls handed out in a run are those of the plan, from the first
/// that was not handed out before to the last that was handed out in it.
proof fn lemma_run_draws_follow_plan(state: SequencerState, outcomes: Seq<OutcomeView>)
    requires
        on_plan(state),
    ensures
        on_plan(state.run(outcomes).0),
        state.run(outcomes).0.plan == state.plan,
        state.issued <= state.run(outcomes).0.issued,
        draws_in(state.run(outcomes).1) == state.plan.subrange(
            state.issued as int,
            state.run(outcomes).0.issued as int,
        ),
    decreases outcomes.len(),
{
    if outcomes.len() == 0 {
        assert(state.plan.subrange(state.issued as int, state.issued as int) =~= Seq::empty());
    } else {
        let (next, action) = state.step(outcomes[0]);
        let (last, actions) = next.run(outcomes.drop_first());
        lemma_run_draws_follow_plan(next, outcomes.drop_first());
        let all = seq![action] + actions;
        assert(all.drop_first() =~= actions);
        assert(all[0] == action);
        if action is Draw {
            assert(state.plan.subrange(state.issued as int, last.issued as int) =~= seq![
                state.plan[state.issued as int],
            ] + state.plan.subrange(next.issued as int, last.issued as int));
        }
    }
}

/// Draw calls that fail stop nothing. Once the message of a fault is
/// composed, however each step goes, every draw call of the error box is
/// handed out, in order and once, and the end of the process is handed out.
pub proof fn law_draw_failures_stop_nothing(
    options: HandlerOptions,
    message: Seq<char>,
    outcomes: Seq<OutcomeView>,
)
    requires
        outcomes.len() >= SequencerState::captured(options).formatted(message).steps_left(),
    ensures
        draws_in(SequencerState::captured(options).formatted(message).run(outcomes).1) == (
        match options.display {
            Some(geometry) => geometry.draw_plan(message),
            None => Seq::empty(),
        }),
        SequencerState::captured(options).formatted(message).run(outcomes).0.stage
            == Stage::ProcessTerminated,
{
    let state = SequencerState::captured(options).formatted(message);
    law_sequence_ends(state, outcomes);
    lemma_run_draws_follow_plan(state, outcomes);
    assert(state.plan.subrange(0, state.plan.len() as int) =~= state.plan);
}

/// Where nothing fails, the draw calls that are left are handed out one
/// after the other, and then what closes the sequence.
proof fn lemma_quiet_rendering(state: SequencerState, outcomes: Seq<OutcomeView>)
    requires
        on_plan(state),
        state.stage == Stage::ConsoleEmitted || state.stage == Stage::DisplayRendered,
        all_completed(outcomes),
        outcomes.len() == state.draws_left() + state.closing_steps(),
    ensures
        state.run(outcomes).1 == state.plan.skip(state.issued as int).map_values(
            |command: DrawCommandView| ActionView::Draw(command),
        ) + closing_actions(state.options),
    decreases outcomes.len(),
{
    let draw = |command: DrawCommandView| ActionView::Draw(command);
    let left = state.plan.skip(state.issued as int);
    let (next, action) = state.step(outcomes[0]);
    let later = outcomes.drop_first();
    let (last, actions) = next.run(later);
    assert(outcomes[0] is Completed);
    assert(all_completed(later)) by {
        assert forall|i: int| 0 <= i < later.len() implies #[trigger] later[i] is Completed by {
            assert(later[i] == outcomes[i + 1]);
        }
    }
    if state.issued < state.plan.len() {
        lemma_quiet_rendering(next, later);
        let after = state.plan.skip(next.issued as int);
        assert(left =~= seq![state.plan[state.issued as int]] + after);
        assert(left.map_values(draw) =~= seq![action] + after.map_values(draw));
        assert(seq![action] + (after.map_values(draw) + closing_actions(state.options)) =~= (
        seq![action] + after.map_values(draw)) + closing_actions(state.options));
    } else {
        assert(left =~= Seq::<DrawCommandView>::empty());
        assert(left.map_values(draw) + closing_actions(state.options) =~= closing_actions(
            state.options,
        ));
        if state.options.simulator {
            let (end, ending) = next.step(later[0]);
            assert(end.run(later.drop_first()).1 =~= Seq::<ActionView>::empty());
            assert(next.run(later).1 =~= seq![ending]);
            assert(seq![action] + seq![ending] =~= closing_actions(state.options));
        } else {
            assert(seq![action] + Seq::<ActionView>::empty() =~= closing_actions(state.options));
        }
    }
}

/// Where nothing fails, what is handed out is the message for the console,
/// then every draw call of the error box, then the backtrace where the
/// program runs in the simulator, then the end of the process.
pub proof fn law_sequence_in_order(
    options: HandlerOptions,
    message: Seq<char>,
    outcomes: Seq<OutcomeView>,
)
    requires
        all_completed(outcomes),
        outcomes.len() == 1 + SequencerState::captured(options).formatted(message).plan.len()
            + SequencerState::captured(options).formatted(message).closing_steps(),
    ensures
        SequencerState::captured(options).formatted(message).run(outcomes).1 == seq![
            ActionView::EmitConsole(message),
        ] + SequencerState::captured(options).formatted(message).plan.map_values(
            |command: DrawCommandView| ActionView::Draw(command),
        ) + closing_actions(options),
{
    let draw = |command: DrawCommandView| ActionView::Draw(command);
    let state = SequencerState::captured(options).formatted(message);
    let (next, action) = state.step(outcomes[0]);
    let later = outcomes.drop_first();
    assert(all_completed(later)) by {
        assert forall|i: int| 0 <= i < later.len() implies #[trigger] later[i] is Completed by {
            assert(later[i] == outcomes[i + 1]);
        }
    }
    assert(on_plan(next)) by {
        if options.display is Some {
            assert(state.plan.len() >= 2);
        }
    }
    assert(state.draws_left() == state.plan.len());
    lemma_quiet_rendering(next, later);
    assert(state.plan.skip(0) =~= state.plan);
    assert(seq![action] + (state.plan.map_values(draw) + closing_actions(options)) =~= (
    seq![action] + state.plan.map_values(draw)) + closing_actions(options));
}

} // verus!
