use taurin::run;
use taurin::startup::{StartupAction, StartupEvent, StartupStage};

#[test]
fn startup_runs_the_steps_in_order() {
    let (stage, action) = run(StartupStage::Idle, StartupEvent::Start);
    assert_eq!(stage, StartupStage::LoggingEnvironment);
    assert!(matches!(action, StartupAction::LogEnvironment));
    let (stage, action) = run(stage, StartupEvent::Completed);
    assert_eq!(stage, StartupStage::DiscoveringProject);
    assert!(matches!(action, StartupAction::DiscoverProject));
    let (stage, action) = run(stage, StartupEvent::Completed);
    assert_eq!(stage, StartupStage::StartingAudio);
    assert!(matches!(action, StartupAction::StartAudio));
    let (stage, action) = run(stage, StartupEvent::Completed);
    assert_eq!(stage, StartupStage::Running);
    assert!(matches!(action, StartupAction::RunApplication));
    let (stage, action) = run(stage, StartupEvent::Completed);
    assert_eq!(stage, StartupStage::Finished);
    assert!(matches!(action, StartupAction::Stop));
}

fn abort_message(action: StartupAction) -> String {
    match action {
        StartupAction::Abort(message) => message,
        _ => panic!("expected the start to abort"),
    }
}

#[test]
fn startup_failures_abort_with_their_step() {
    let (stage, action) = run(StartupStage::DiscoveringProject, StartupEvent::Failed("no www".to_string()));
    assert_eq!(stage, StartupStage::Finished);
    assert_eq!(abort_message(action), "failed to resolve RPG Maker project: no www");
    let (stage, action) = run(StartupStage::StartingAudio, StartupEvent::Failed("no device".to_string()));
    assert_eq!(stage, StartupStage::Finished);
    assert_eq!(abort_message(action), "failed to initialize audio engine: no device");
    let (stage, action) = run(StartupStage::Running, StartupEvent::Failed("webview".to_string()));
    assert_eq!(stage, StartupStage::Finished);
    assert_eq!(abort_message(action), "error while running tauri application: webview");
}
