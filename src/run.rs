use crate::conf::Var;
use crate::export::{project, projection, views, ExportLine};
use crate::secrets::{collection_of, secret_collection, Document};
use vstd::prelude::*;

verus! {

/// Where a run stands.
#[derive(Debug, Clone, Copy, PartialEq, Eq, Structural)]
pub enum Stage {
    Idle,
    Authenticating,
    ReadingSecrets,
    Projecting,
    Done,
    Failed,
}

/// The step of a run that failed.
#[derive(Debug, Clone, Copy, PartialEq, Eq, Structural)]
pub enum FailedStep {
    Authentication,
    Reading,
}

/// What the outside world reports to a run.
#[derive(Debug)]
pub enum Event {
    /// The configuration is loaded.
    Start,
    /// The login exchange returned a session credential.
    AuthSucceeded,
    /// The login exchange failed.
    AuthFailed,
    /// The secret collection was read; this is the document returned.
    ReadSucceeded(Document),
    /// The read failed.
    ReadFailed,
    /// The lines were written out.
    Emitted,
}

/// What a run asks the outside world to do next.
#[derive(Debug)]
pub enum Action {
    /// Log in with the identity token and role.
    Authenticate,
    /// Read the secret collection with the session credential.
    ReadSecrets,
    /// Write these lines, one per line, to standard output.
    Emit(Vec<ExportLine>),
    /// Log the failure of this step; nothing is written to standard output.
    Report(FailedStep),
    /// The run is over; exit with the stage's exit code.
    Finish,
    /// The event does not apply in this stage; nothing to do.
    Ignore,
}

/// The stage a run moves to on an event; an event that does not apply in a
/// stage leaves the run where it is.
pub open spec fn next_stage(stage: Stage, event: Event) -> Stage {
    match (stage, event) {
        (Stage::Idle, Event::Start) => Stage::Authenticating,
        (Stage::Authenticating, Event::AuthSucceeded) => Stage::ReadingSecrets,
        (Stage::Authenticating, Event::AuthFailed) => Stage::Failed,
        (Stage::ReadingSecrets, Event::ReadSucceeded(_)) => Stage::Projecting,
        (Stage::ReadingSecrets, Event::ReadFailed) => Stage::Failed,
        (Stage::Projecting, Event::Emitted) => Stage::Done,
        _ => stage,
    }
}

/// The action that goes with a transition; an `Emit` holds the lines of the
/// document's secret collection under `rules`.
pub open spec fn action_fits(stage: Stage, event: Event, action: Action, rules: Seq<Var>) -> bool {
    match (stage, event) {
        (Stage::Idle, Event::Start) => action is Authenticate,
        (Stage::Authenticating, Event::AuthSucceeded) => action is ReadSecrets,
        (Stage::Authenticating, Event::AuthFailed) => action == Action::Report(
            FailedStep::Authentication,
        ),
        (Stage::ReadingSecrets, Event::ReadSucceeded(doc)) => match action {
            Action::Emit(lines) => views(lines@) == projection(collection_of(doc), rules),
            _ => false,
        },
        (Stage::ReadingSecrets, Event::ReadFailed) => action == Action::Report(FailedStep::Reading),
        (Stage::Projecting, Event::Emitted) => action is Finish,
        _ => action is Ignore,
    }
}

/// The exit code of a finished run: 0 when done, 1 when failed.
pub open spec fn spec_exit_code(stage: Stage) -> Option<i32> {
    match stage {
        Stage::Done => Some(0i32),
        Stage::Failed => Some(1i32),
        _ => None,
    }
}

/// Advances a run by one event and says what to do next.
pub fn step(stage: Stage, event: Event, rules: &Vec<Var>) -> (r: (Stage, Action))
    ensures
        r.0 == next_stage(stage, event),
        action_fits(stage, event, r.1, rules@),
{
    match (stage, event) {
        (Stage::Idle, Event::Start) => (Stage::Authenticating, Action::Authenticate),
        (Stage::Authenticating, Event::AuthSucceeded) => (
            Stage::ReadingSecrets,
            Action::ReadSecrets,
        ),
        (Stage::Authenticating, Event::AuthFailed) => (
            Stage::Failed,
            Action::Report(FailedStep::Authentication),
        ),
        (Stage::ReadingSecrets, Event::ReadSucceeded(doc)) => {
            let entries = secret_collection(doc);
            (Stage::Projecting, Action::Emit(project(&entries, rules)))
        },
        (Stage::ReadingSecrets, Event::ReadFailed) => (
            Stage::Failed,
            Action::Report(FailedStep::Reading),
        ),
        (Stage::Projecting, Event::Emitted) => (Stage::Done, Action::Finish),
        (s, _) => (s, Action::Ignore),
    }
}

/// The exit code of a run that has ended; `None` while it is under way.
pub fn exit_code(stage: Stage) -> (r: Option<i32>)
    ensures
        r == spec_exit_code(stage),
{
    match stage {
        Stage::Done => Some(0),
        Stage::Failed => Some(1),
        _ => None,
    }
}

/// The stage of a run that started idle and has seen `events`.
pub open spec fn stage_after(events: Seq<Event>) -> Stage
    decreases events.len(),
{
    if events.len() == 0 {
        Stage::Idle
    } else {
        next_stage(stage_after(events.drop_last()), events.last())
    }
}

proof fn lemma_stage_after_step(events: Seq<Event>, i: int)
    requires
        0 <= i < events.len(),
    ensures
        stage_after(events.take(i + 1)) == next_stage(stage_after(events.take(i)), events[i]),
{
    assert(events.take(i + 1).drop_last() =~= events.take(i));
    assert(events.take(i + 1).last() == events[i]);
}

proof fn lemma_stages_keep(events: Seq<Event>, i: int, j: int)
    requires
        0 <= i <= j <= events.len(),
    ensures
        stage_after(events.take(i)) == Stage::Failed ==> stage_after(events.take(j))
            == Stage::Failed,
        (stage_after(events.take(i)) is Projecting || stage_after(events.take(i)) is Done) ==> (
        stage_after(events.take(j)) is Projecting || stage_after(events.take(j)) is Done),
    decreases j - i,
{
    if i < j {
        lemma_stage_after_step(events, i);
        lemma_stages_keep(events, i + 1, j);
    }
}

/// A run that fails, at login or at the read, ends failed with a non-zero
/// exit code, and none of its steps, before or after the failure, has an
/// action that writes lines, whatever the rules.
pub proof fn lemma_fatal_isolation(events: Seq<Event>, k: int, rules: Seq<Var>)
    requires
        0 <= k <= events.len(),
        stage_after(events.take(k)) == Stage::Failed,
    ensures
        stage_after(events) == Stage::Failed,
        spec_exit_code(stage_after(events)) is Some,
        spec_exit_code(stage_after(events)) != Some(0i32),
        forall|i: int, action: Action|
            0 <= i < events.len() && #[trigger] action_fits(
                stage_after(events.take(i)),
                events[i],
                action,
                rules,
            ) ==> !(action is Emit),
{
    assert(events.take(events.len() as int) =~= events);
    lemma_stages_keep(events, k, events.len() as int);
    assert forall|i: int, action: Action|
        0 <= i < events.len() && #[trigger] action_fits(
            stage_after(events.take(i)),
            events[i],
            action,
            rules,
        ) implies !(action is Emit) by {
        if action is Emit {
            lemma_stage_after_step(events, i);
            assert(stage_after(events.take(i + 1)) is Projecting);
            lemma_stages_keep(events, i + 1, events.len() as int);
        }
    }
}

} // verus!
