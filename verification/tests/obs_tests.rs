use replaytrim::auth::compute_auth;
use replaytrim::json::JsonValue;
use replaytrim::obs::{
    canvas_size_from, check_identified, hello_rpc_version, identify_message, input_exists_in,
    interpret_response, media_inputs_from, prepare_request, record_directory_from,
    replay_buffer_active_from, request_message, route_incoming, saved_replay_path_from,
    scene_item_enabled_from, scene_item_id_from, scene_items_found, scene_list_from, ObsError,
    ObsRequest,
};

fn s(text: &str) -> JsonValue {
    JsonValue::Str(text.to_string())
}

fn obj(members: Vec<(&str, JsonValue)>) -> JsonValue {
    JsonValue::Object(members.into_iter().map(|(k, v)| (k.to_string(), v)).collect())
}

#[test]
fn identify_without_authentication() {
    let hello = obj(vec![("op", JsonValue::Int(0)), ("d", obj(vec![("rpcVersion", JsonValue::Int(1))]))]);
    let msg = identify_message(&hello, "ignored");
    let expected = obj(vec![
        ("op", JsonValue::Int(1)),
        ("d", obj(vec![("rpcVersion", JsonValue::Int(1)), ("eventSubscriptions", JsonValue::Int(0))])),
    ]);
    assert_eq!(msg, expected);
}

#[test]
fn identify_with_authentication() {
    let salt = "lM1GncleQOaCu9lT1yeUZhFYnqhsLLP1G5lAGo3ixaI=";
    let challenge = "+IxH4CnCiqpX1rM9scsNynZzbOe4KhDeYcTNS3PDaeY=";
    let hello = obj(vec![(
        "d",
        obj(vec![
            ("rpcVersion", JsonValue::Int(1)),
            ("authentication", obj(vec![("challenge", s(challenge)), ("salt", s(salt))])),
        ]),
    )]);
    let msg = identify_message(&hello, "supersecretpassword");
    let expected = obj(vec![
        ("op", JsonValue::Int(1)),
        (
            "d",
            obj(vec![
                ("rpcVersion", JsonValue::Int(1)),
                ("eventSubscriptions", JsonValue::Int(0)),
                ("authentication", s("1Ct943GAT+6YQUUX47Ia/ncufilbe6+oD6lY+5kaCu4=")),
            ]),
        ),
    ]);
    assert_eq!(msg, expected);
}

#[test]
fn identify_with_empty_authentication_member() {
    let hello = obj(vec![("d", obj(vec![("authentication", JsonValue::Null)]))]);
    let msg = identify_message(&hello, "pw");
    let expected = obj(vec![
        ("op", JsonValue::Int(1)),
        (
            "d",
            obj(vec![
                ("rpcVersion", JsonValue::Int(1)),
                ("eventSubscriptions", JsonValue::Int(0)),
                ("authentication", s(&compute_auth("pw", "", ""))),
            ]),
        ),
    ]);
    assert_eq!(msg, expected);
}

#[test]
fn rpc_version_defaults_to_one() {
    assert_eq!(hello_rpc_version(&JsonValue::Null), 1);
    assert_eq!(hello_rpc_version(&obj(vec![("d", obj(vec![("rpcVersion", s("2"))]))])), 1);
    assert_eq!(hello_rpc_version(&obj(vec![("d", obj(vec![("rpcVersion", JsonValue::Int(7))]))])), 7);
    assert_eq!(hello_rpc_version(&obj(vec![("d", obj(vec![("rpcVersion", JsonValue::Float(0))]))])), 1);
}

#[test]
fn identified_only_on_op_two() {
    assert_eq!(check_identified(&obj(vec![("op", JsonValue::Int(2))])), Ok(()));
    let other = obj(vec![("op", JsonValue::Int(5))]);
    assert_eq!(check_identified(&other), Err(ObsError::NotIdentified(other.duplicate())));
    assert!(check_identified(&JsonValue::Null).is_err());
}

#[test]
fn request_message_layout() {
    let msg = request_message("GetSceneList", "abc", obj(vec![]));
    let expected = obj(vec![
        ("op", JsonValue::Int(6)),
        (
            "d",
            obj(vec![
                ("requestType", s("GetSceneList")),
                ("requestId", s("abc")),
                ("requestData", obj(vec![])),
            ]),
        ),
    ]);
    assert_eq!(msg, expected);
}

#[test]
fn prepared_request_uses_fresh_uuid() {
    let (id, msg) = prepare_request("SaveReplayBuffer", obj(vec![]));
    assert_eq!(id.len(), 36);
    for (i, c) in id.chars().enumerate() {
        if i == 8 || i == 13 || i == 18 || i == 23 {
            assert_eq!(c, '-');
        } else {
            assert!(c.is_ascii_hexdigit() && !c.is_ascii_uppercase());
        }
    }
    assert_eq!(id.chars().nth(14), Some('4'));
    assert_eq!(msg, request_message("SaveReplayBuffer", &id, obj(vec![])));
    let (id2, _) = prepare_request("SaveReplayBuffer", obj(vec![]));
    assert_ne!(id, id2);
}

#[test]
fn response_success_and_failure() {
    let ok = obj(vec![
        ("requestStatus", obj(vec![("result", JsonValue::Bool(true)), ("code", JsonValue::Int(100))])),
        ("responseData", obj(vec![("outputActive", JsonValue::Bool(true))])),
    ]);
    assert_eq!(interpret_response("GetReplayBufferStatus", &ok), Ok(obj(vec![("outputActive", JsonValue::Bool(true))])));
    let no_data = obj(vec![("requestStatus", obj(vec![("result", JsonValue::Bool(true))]))]);
    assert_eq!(interpret_response("SaveReplayBuffer", &no_data), Ok(JsonValue::Null));
    let status = obj(vec![("result", JsonValue::Bool(false)), ("code", JsonValue::Int(604))]);
    let failed = obj(vec![("requestStatus", status.duplicate())]);
    assert_eq!(
        interpret_response("StartReplayBuffer", &failed),
        Err(ObsError::RequestFailed { request_type: "StartReplayBuffer".to_string(), status: status.duplicate() })
    );
    assert_eq!(
        interpret_response("X", &JsonValue::Null),
        Err(ObsError::RequestFailed { request_type: "X".to_string(), status: JsonValue::Null })
    );
}

#[test]
fn routing_of_incoming_messages() {
    let d = obj(vec![("requestId", s("r-1")), ("requestType", s("GetSceneList"))]);
    let msg = obj(vec![("op", JsonValue::Int(7)), ("d", d.duplicate())]);
    assert_eq!(route_incoming(&msg), Some(("r-1".to_string(), d)));
    let event = obj(vec![("op", JsonValue::Int(5)), ("d", obj(vec![("requestId", s("r-1"))]))]);
    assert_eq!(route_incoming(&event), None);
    let no_id = obj(vec![("op", JsonValue::Int(7)), ("d", obj(vec![("requestId", JsonValue::Int(3))]))]);
    assert_eq!(route_incoming(&no_id), None);
}

#[test]
fn reply_routes_to_its_request() {
    let (id, msg) = prepare_request("GetInputList", obj(vec![]));
    let d = match msg.lookup("d") {
        Some(d) => d.duplicate(),
        None => panic!("no payload"),
    };
    let reply = obj(vec![("requestId", d.at("requestId")), ("requestStatus", obj(vec![]))]);
    let routed = route_incoming(&obj(vec![("op", JsonValue::Int(7)), ("d", reply.duplicate())]));
    assert_eq!(routed, Some((id, reply)));
}

#[test]
fn request_builders() {
    let r = ObsRequest::set_scene_item_enabled("Scene", 42, false);
    assert_eq!(r.request_type, "SetSceneItemEnabled");
    assert_eq!(
        r.data,
        obj(vec![("sceneName", s("Scene")), ("sceneItemId", JsonValue::Int(42)), ("sceneItemEnabled", JsonValue::Bool(false))])
    );
    let r = ObsRequest::set_input_file("Replay", "C:\\clips\\a.mp4");
    assert_eq!(r.request_type, "SetInputSettings");
    assert_eq!(
        r.data,
        obj(vec![
            ("inputName", s("Replay")),
            ("inputSettings", obj(vec![("local_file", s("C:\\clips\\a.mp4")), ("is_local_file", JsonValue::Bool(true))])),
            ("overlay", JsonValue::Bool(true)),
        ])
    );
    let r = ObsRequest::restart_media("Replay");
    assert_eq!(r.request_type, "TriggerMediaInputAction");
    assert_eq!(r.data, obj(vec![("inputName", s("Replay")), ("mediaAction", s("OBS_WEBSOCKET_MEDIA_INPUT_ACTION_RESTART"))]));
    let r = ObsRequest::create_media_source("Scene", "Replay");
    assert_eq!(r.request_type, "CreateInput");
    assert_eq!(
        r.data,
        obj(vec![
            ("sceneName", s("Scene")),
            ("inputName", s("Replay")),
            ("inputKind", s("ffmpeg_source")),
            ("inputSettings", obj(vec![("looping", JsonValue::Bool(false)), ("is_local_file", JsonValue::Bool(true))])),
        ])
    );
    let r = ObsRequest::create_browser_source("Scene", "Overlay", "http://127.0.0.1:8930/overlay", 1920, 1080);
    assert_eq!(
        r.data,
        obj(vec![
            ("sceneName", s("Scene")),
            ("inputName", s("Overlay")),
            ("inputKind", s("browser_source")),
            (
                "inputSettings",
                obj(vec![
                    ("url", s("http://127.0.0.1:8930/overlay")),
                    ("width", JsonValue::Int(1920)),
                    ("height", JsonValue::Int(1080)),
                    ("shutdown", JsonValue::Bool(false)),
                    ("restart_when_active", JsonValue::Bool(false)),
                ]),
            ),
        ])
    );
    assert_eq!(ObsRequest::scene_item_id("S", "Src").data, obj(vec![("sceneName", s("S")), ("sourceName", s("Src"))]));
    assert_eq!(ObsRequest::scene_item_enabled("S", 3).data, obj(vec![("sceneName", s("S")), ("sceneItemId", JsonValue::Int(3))]));
    assert_eq!(ObsRequest::save_replay_buffer().request_type, "SaveReplayBuffer");
    assert_eq!(ObsRequest::save_replay_buffer().data, obj(vec![]));
    assert_eq!(ObsRequest::replay_buffer_status().request_type, "GetReplayBufferStatus");
    assert_eq!(ObsRequest::start_replay_buffer().request_type, "StartReplayBuffer");
    assert_eq!(ObsRequest::video_settings().request_type, "GetVideoSettings");
    assert_eq!(ObsRequest::last_replay().request_type, "GetLastReplayBufferReplay");
    assert_eq!(ObsRequest::input_list().request_type, "GetInputList");
    assert_eq!(ObsRequest::scene_list().request_type, "GetSceneList");
    assert_eq!(ObsRequest::record_directory().request_type, "GetRecordDirectory");
}

#[test]
fn media_inputs_are_filtered() {
    let input = |name: &str, kind: &str| obj(vec![("inputName", s(name)), ("inputKind", s(kind))]);
    let data = obj(vec![(
        "inputs",
        JsonValue::Array(vec![
            input("Replay", "ffmpeg_source"),
            input("Cam", "dshow_input"),
            input("VLC", "vlc_source"),
            input("Other", "my_media_player"),
            obj(vec![("inputKind", s("ffmpeg_source"))]),
        ]),
    )]);
    assert_eq!(media_inputs_from(&data), vec!["Replay".to_string(), "Other".to_string(), String::new()]);
    assert_eq!(media_inputs_from(&JsonValue::Null), Vec::<String>::new());
}

#[test]
fn scene_list_reading() {
    let data = obj(vec![
        ("currentProgramSceneName", s("Live")),
        ("scenes", JsonValue::Array(vec![obj(vec![("sceneName", s("Live"))]), obj(vec![("sceneName", JsonValue::Int(1))])])),
    ]);
    assert_eq!(scene_list_from(&data), (vec!["Live".to_string(), String::new()], "Live".to_string()));
    assert_eq!(scene_list_from(&obj(vec![])), (Vec::<String>::new(), String::new()));
}

#[test]
fn simple_reply_fields() {
    assert_eq!(canvas_size_from(&obj(vec![])), (1920, 1080));
    assert_eq!(
        canvas_size_from(&obj(vec![("baseWidth", JsonValue::Int(2560)), ("baseHeight", JsonValue::Int(1440))])),
        (2560, 1440)
    );
    assert_eq!(canvas_size_from(&obj(vec![("baseWidth", JsonValue::Int((1i128 << 32) + 5)), ("baseHeight", JsonValue::Int(-1))])), (5, 1080));
    assert!(replay_buffer_active_from(&obj(vec![("outputActive", JsonValue::Bool(true))])));
    assert!(!replay_buffer_active_from(&obj(vec![])));
    assert_eq!(saved_replay_path_from(&obj(vec![("savedReplayPath", s("/r/a.mp4"))])), "/r/a.mp4");
    assert_eq!(saved_replay_path_from(&obj(vec![])), "");
    assert_eq!(record_directory_from(&obj(vec![("recordDirectory", s("/rec"))])), "/rec");
    assert_eq!(scene_item_id_from(&obj(vec![("sceneItemId", JsonValue::Int(12))])), Some(12));
    assert_eq!(scene_item_id_from(&obj(vec![("sceneItemId", s("12"))])), None);
    assert!(scene_item_enabled_from(&obj(vec![("sceneItemEnabled", JsonValue::Bool(true))])));
    assert!(!scene_item_enabled_from(&obj(vec![("sceneItemEnabled", JsonValue::Int(1))])));
}

#[test]
fn input_existence() {
    let data = obj(vec![("inputs", JsonValue::Array(vec![obj(vec![("inputName", s("Replay"))])]))]);
    assert!(input_exists_in(&data, "Replay"));
    assert!(!input_exists_in(&data, "replay"));
    assert!(!input_exists_in(&obj(vec![]), "Replay"));
}

#[test]
fn scene_items_are_collected() {
    let lookups = vec![
        ("A".to_string(), Some(obj(vec![("sceneItemId", JsonValue::Int(4))]))),
        ("B".to_string(), None),
        ("C".to_string(), Some(obj(vec![]))),
        ("D".to_string(), Some(obj(vec![("sceneItemId", JsonValue::Int(9))]))),
    ];
    assert_eq!(scene_items_found(&lookups), vec![("A".to_string(), 4), ("D".to_string(), 9)]);
}
