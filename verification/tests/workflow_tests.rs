use replaytrim::workflow::{
    auto_hide_due, command_of, export_file_name, hide_created, hide_plan, is_export_file,
    is_stale_export, push_plan, toggle_plan, toggle_probe, DockCommand, ObsAction, ReplayWait,
    SendError, WaitStep, MAX_POLLS,
};
use replaytrim::json::JsonValue;

fn item(scene: &str, id: i64) -> (String, i64) {
    (scene.to_string(), id)
}

fn set(scene: &str, id: i64, enabled: bool) -> ObsAction {
    ObsAction::SetItemEnabled { scene: scene.to_string(), item_id: id, enabled }
}

#[test]
fn waiting_for_a_new_replay() {
    let mut w = ReplayWait::new("/r/old.mp4".to_string());
    assert_eq!(w.observe(None), WaitStep::Poll);
    assert_eq!(w.observe(Some("/r/old.mp4".to_string())), WaitStep::Poll);
    assert_eq!(w.observe(Some(String::new())), WaitStep::Poll);
    assert_eq!(w.observe(Some("/r/new.mp4".to_string())), WaitStep::Done("/r/new.mp4".to_string()));
    assert_eq!(w.polls, 4);
}

#[test]
fn waiting_times_out_after_forty_polls() {
    let mut w = ReplayWait::new(String::new());
    for _ in 0..MAX_POLLS - 1 {
        assert_eq!(w.observe(Some(String::new())), WaitStep::Poll);
    }
    assert_eq!(w.observe(None), WaitStep::TimedOut);
    assert_eq!(MAX_POLLS, 40);
}

#[test]
fn last_poll_can_still_succeed() {
    let mut w = ReplayWait::new(String::new());
    for _ in 0..MAX_POLLS - 1 {
        w.observe(None);
    }
    assert_eq!(w.observe(Some("/r/a.mp4".to_string())), WaitStep::Done("/r/a.mp4".to_string()));
}

#[test]
fn push_sequence() {
    let items = vec![item("Live", 3), item("BRB", 8)];
    let plan = push_plan("Replay", "/r/t.mp4", &items).unwrap();
    assert_eq!(
        plan,
        vec![
            set("Live", 3, false),
            set("BRB", 8, false),
            ObsAction::SetInputFile { input: "Replay".to_string(), path: "/r/t.mp4".to_string() },
            ObsAction::RestartMedia { input: "Replay".to_string() },
            ObsAction::Settle,
            set("Live", 3, true),
            set("BRB", 8, true),
        ]
    );
    assert_eq!(push_plan("Replay", "/r/t.mp4", &vec![]), Err(SendError::NotInAnyScene));
    assert_eq!(push_plan("", "/r/t.mp4", &items), Err(SendError::NotLinked));
    assert_eq!(push_plan("", "/r/t.mp4", &vec![]), Err(SendError::NotLinked));
}

#[test]
fn hide_and_toggle() {
    let items = vec![item("Live", 3), item("BRB", 8)];
    assert_eq!(hide_plan(&items), vec![set("Live", 3, false), set("BRB", 8, false)]);
    assert_eq!(toggle_plan(&items, true), (vec![set("Live", 3, false), set("BRB", 8, false)], false));
    assert_eq!(toggle_plan(&items, false), (vec![set("Live", 3, true), set("BRB", 8, true)], true));
    assert_eq!(toggle_probe(&items), Ok(item("Live", 3)));
    assert_eq!(toggle_probe(&vec![]), Err(SendError::NotInAnyScene));
}

#[test]
fn auto_hide_only_for_latest_push() {
    assert!(auto_hide_due(7, 7));
    assert!(!auto_hide_due(8, 7));
}

#[test]
fn actions_become_requests() {
    let r = set("Live", 3, true).request().unwrap();
    assert_eq!(r.request_type, "SetSceneItemEnabled");
    let r = ObsAction::SetInputFile { input: "Replay".to_string(), path: "/x.mp4".to_string() }.request().unwrap();
    assert_eq!(r.request_type, "SetInputSettings");
    let r = ObsAction::RestartMedia { input: "Replay".to_string() }.request().unwrap();
    assert_eq!(r.request_type, "TriggerMediaInputAction");
    assert!(ObsAction::Settle.request().is_none());
}

#[test]
fn export_names() {
    assert_eq!(export_file_name(1700000000), "replaytrim_1700000000.mp4");
    assert_eq!(export_file_name(0), "replaytrim_0.mp4");
    assert!(is_export_file(&export_file_name(42)));
    assert!(is_export_file("current_replay.mp4"));
    assert!(is_export_file("replaytrim_.mp4"));
    assert!(!is_export_file("replaytrim_1.mkv"));
    assert!(!is_export_file("Replay 2024-01-01.mp4"));
    assert!(is_stale_export("replaytrim_1.mp4", false));
    assert!(!is_stale_export("replaytrim_1.mp4", true));
    assert!(!is_stale_export("other.mp4", false));
}

#[test]
fn dock_commands() {
    assert_eq!(command_of("grab"), DockCommand::Grab);
    assert_eq!(command_of("instant"), DockCommand::Instant);
    assert_eq!(command_of("replay"), DockCommand::Playback);
    assert_eq!(command_of("pause"), DockCommand::Playback);
    assert_eq!(command_of("hide"), DockCommand::Playback);
    assert_eq!(command_of("Grab"), DockCommand::Unknown);
    assert_eq!(command_of(""), DockCommand::Unknown);
    assert_eq!(command_of("grabs"), DockCommand::Unknown);
}

#[test]
fn created_source_starts_hidden() {
    let reply = JsonValue::Object(vec![
        ("inputUuid".to_string(), JsonValue::Str("u".to_string())),
        ("sceneItemId".to_string(), JsonValue::Int(12)),
    ]);
    assert_eq!(hide_created("Live", &reply), vec![set("Live", 12, false)]);
    assert_eq!(hide_created("Live", &JsonValue::Object(vec![])), vec![]);
    let text_id = JsonValue::Object(vec![("sceneItemId".to_string(), JsonValue::Str("12".to_string()))]);
    assert_eq!(hide_created("Live", &text_id), vec![]);
}
