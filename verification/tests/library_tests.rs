use replaytrim::config::{
    default_clip_list_limit, default_host, default_hotkey, default_overlay_port, default_port,
    default_target_kind, Config,
};
use replaytrim::json::JsonValue;
use replaytrim::state::{
    keep_existing, library_has, newest_existing_first, remove_clip, ClipEntry, OverlayState, SceneList,
};

fn clip(path: &str, kind: &str, at: u64) -> ClipEntry {
    ClipEntry { path: path.to_string(), kind: kind.to_string(), saved_at_epoch: at, duration_bits: 2.5f64.to_bits() }
}

fn obj(members: Vec<(&str, JsonValue)>) -> JsonValue {
    JsonValue::Object(members.into_iter().map(|(k, v)| (k.to_string(), v)).collect())
}

#[test]
fn config_defaults() {
    let c = Config::default();
    assert_eq!(c.obs_host, "localhost");
    assert_eq!(c.obs_port, 4455);
    assert_eq!(c.obs_password, "");
    assert_eq!(c.target_source, "");
    assert_eq!(c.target_kind, "media_source");
    assert_eq!(c.grab_hotkey, "CommandOrControl+Shift+R");
    assert_eq!(c.instant_hotkey, "");
    assert_eq!(c.replay_hotkey, "");
    assert_eq!(c.hide_hotkey, "");
    assert_eq!(c.overlay_port, 8930);
    assert_eq!(c.clip_list_limit, 5);
    assert_eq!(default_host(), "localhost");
    assert_eq!(default_port(), 4455);
    assert_eq!(default_hotkey(), "CommandOrControl+Shift+R");
    assert_eq!(default_target_kind(), "media_source");
    assert_eq!(default_overlay_port(), 8930);
    assert_eq!(default_clip_list_limit(), 5);
    assert_eq!(c.duplicate(), c);
}

#[test]
fn config_decisions() {
    let mut c = Config::default();
    assert!(!c.is_linked());
    assert!(!c.plays_through_overlay());
    c.target_source = "Replay".to_string();
    c.target_kind = "overlay".to_string();
    assert!(c.is_linked());
    assert!(c.plays_through_overlay());
}

#[test]
fn missing_clips_are_dropped() {
    let checked = vec![(clip("/a.mp4", "grab", 1), true), (clip("/b.mp4", "trim", 2), false), (clip("/c.mp4", "grab", 3), true)];
    assert_eq!(keep_existing(checked), vec![clip("/a.mp4", "grab", 1), clip("/c.mp4", "grab", 3)]);
    let checked = vec![(clip("/a.mp4", "grab", 1), true), (clip("/b.mp4", "trim", 2), false), (clip("/c.mp4", "grab", 3), true)];
    assert_eq!(newest_existing_first(checked), vec![clip("/c.mp4", "grab", 3), clip("/a.mp4", "grab", 1)]);
    assert_eq!(keep_existing(vec![]), vec![]);
}

#[test]
fn removing_clips() {
    let mut clips = vec![clip("/a.mp4", "grab", 1), clip("/b.mp4", "trim", 2), clip("/a.mp4", "trim", 3)];
    assert!(library_has(&clips, "/a.mp4"));
    remove_clip(&mut clips, "/a.mp4");
    assert_eq!(clips, vec![clip("/b.mp4", "trim", 2)]);
    assert!(!library_has(&clips, "/a.mp4"));
    remove_clip(&mut clips, "/a.mp4");
    assert_eq!(clips, vec![clip("/b.mp4", "trim", 2)]);
    remove_clip(&mut clips, "/b.mp4");
    assert!(clips.is_empty());
}

#[test]
fn overlay_state_channel() {
    let mut o = OverlayState::new();
    assert_eq!(
        o.to_json(),
        obj(vec![
            ("generation", JsonValue::Int(0)),
            ("hasClip", JsonValue::Bool(false)),
            ("cmdSeq", JsonValue::Int(0)),
            ("cmd", JsonValue::Null),
            ("grabSeq", JsonValue::Int(0)),
            ("lastGrab", JsonValue::Null),
        ])
    );
    o.issue_command("replay");
    o.issue_command("pause");
    o.record_grab("/r/x.mp4");
    o.load_clip("/r/y.mp4");
    assert_eq!(o.cmd_seq, 2);
    assert_eq!(o.cmd, Some("pause".to_string()));
    assert_eq!(o.grab_seq, 1);
    assert_eq!(o.generation, 1);
    assert_eq!(
        o.to_json(),
        obj(vec![
            ("generation", JsonValue::Int(1)),
            ("hasClip", JsonValue::Bool(true)),
            ("cmdSeq", JsonValue::Int(2)),
            ("cmd", JsonValue::Str("pause".to_string())),
            ("grabSeq", JsonValue::Int(1)),
            ("lastGrab", JsonValue::Str("/r/x.mp4".to_string())),
        ])
    );
}

#[test]
fn scene_list_from_reply() {
    let data = obj(vec![
        ("currentProgramSceneName", JsonValue::Str("Main".to_string())),
        ("scenes", JsonValue::Array(vec![obj(vec![("sceneName", JsonValue::Str("Main".to_string()))])])),
    ]);
    assert_eq!(SceneList::from_reply(&data), SceneList { scenes: vec!["Main".to_string()], current: "Main".to_string() });
}
