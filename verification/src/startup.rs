//! The order in which the runtime starts, and how it ends when a step fails:
//! a step function from the current stage and the outcome of the last action
//! to the next stage and the next action, which the application performs.
use vstd::prelude::*;
use crate::text::{push_str, string_from_chars};

verus! {

/// How far the start of the runtime has come.
#[derive(Clone, Copy, PartialEq, Eq, Structural, Debug)]
pub enum StartupStage {
    Idle,
    LoggingEnvironment,
    DiscoveringProject,
    StartingAudio,
    Running,
    Finished,
}

/// The outcome of the last action (or the request to begin).
pub enum StartupEvent {
    Start,
    Completed,
    Failed(String),
}

/// What the application does next.
pub enum StartupAction {
    LogEnvironment,
    DiscoverProject,
    StartAudio,
    RunApplication,
    Stop,
    Abort(String),
}

/// Whether `event` can follow in `stage`: the start only when idle; logging
/// cannot fail; nothing follows the end.
pub open spec fn is_startup_event_for(stage: StartupStage, event: StartupEvent) -> bool {
    match stage {
        StartupStage::Idle => event is Start,
        StartupStage::LoggingEnvironment => event is Completed,
        StartupStage::DiscoveringProject | StartupStage::StartingAudio | StartupStage::Running =>
            !(event is Start),
        StartupStage::Finished => false,
    }
}

/// The message with which the start ends when the step of `stage` fails
/// with `error`.
pub open spec fn failure_message(stage: StartupStage, error: Seq<char>) -> Seq<char> {
    match stage {
        StartupStage::DiscoveringProject => "failed to resolve RPG Maker project: "@ + error,
        StartupStage::StartingAudio => "failed to initialize audio engine: "@ + error,
        _ => "error while running tauri application: "@ + error,
    }
}

/// Whether `next` and `action` follow `event` in `stage`: the environment is
/// logged, then the project discovered, then the audio engine started, then
/// the application run, and the start is finished when it returns; a failure
/// of one of the last three ends the start with the message of that step and
/// the error.
pub open spec fn is_startup_step(
    stage: StartupStage,
    event: StartupEvent,
    next: StartupStage,
    action: StartupAction,
) -> bool {
    match event {
        StartupEvent::Failed(e) => next == StartupStage::Finished && (action matches StartupAction::Abort(
            m,
        ) && m@ == failure_message(stage, e@)),
        _ => match stage {
            StartupStage::Idle => next == StartupStage::LoggingEnvironment && action is LogEnvironment,
            StartupStage::LoggingEnvironment => next == StartupStage::DiscoveringProject
                && action is DiscoverProject,
            StartupStage::DiscoveringProject => next == StartupStage::StartingAudio
                && action is StartAudio,
            StartupStage::StartingAudio => next == StartupStage::Running && action is RunApplication,
            _ => next == StartupStage::Finished && action is Stop,
        },
    }
}

fn abort_with(prefix: &str, error: String) -> (r: StartupAction)
    ensures
        r matches StartupAction::Abort(m) && m@ == prefix@ + error@,
{
    let mut text: Vec<char> = Vec::new();
    push_str(&mut text, prefix);
    push_str(&mut text, error.as_str());
    StartupAction::Abort(string_from_chars(&text))
}

/// Starts the runtime one step at a time: given how far the start has come
/// and the outcome of the last action, the next stage and what to do next.
pub fn run(stage: StartupStage, event: StartupEvent) -> (r: (StartupStage, StartupAction))
    requires
        is_startup_event_for(stage, event),
    ensures
        is_startup_step(stage, event, r.0, r.1),
{
    match event {
        StartupEvent::Failed(e) => {
            let prefix = match stage {
                StartupStage::DiscoveringProject => "failed to resolve RPG Maker project: ",
                StartupStage::StartingAudio => "failed to initialize audio engine: ",
                _ => "error while running tauri application: ",
            };
            (StartupStage::Finished, abort_with(prefix, e))
        },
        _ => match stage {
            StartupStage::Idle => (StartupStage::LoggingEnvironment, StartupAction::LogEnvironment),
            StartupStage::LoggingEnvironment => (
                StartupStage::DiscoveringProject,
                StartupAction::DiscoverProject,
            ),
            StartupStage::DiscoveringProject => (
                StartupStage::StartingAudio,
                StartupAction::StartAudio,
            ),
            StartupStage::StartingAudio => (StartupStage::Running, StartupAction::RunApplication),
            _ => (StartupStage::Finished, StartupAction::Stop),
        },
    }
}

} // verus!
