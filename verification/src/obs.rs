//! The OBS WebSocket protocol (version 5) as this application speaks it:
//! the hello/identify handshake, request and response messages, and what is
//! read out of each response.
//!
//! Sending and receiving happen elsewhere; here every message is built and
//! every reply is interpreted.
use vstd::prelude::*;
use crate::auth::{compute_auth, obs_auth};
use crate::json::{
    lemma_member_index, member_index, items_view, lemma_items_view, lemma_members_view, member_of, members_view, or_null, Json, JsonValue,
};
use crate::text::{chars_of, contains, contains_text};

verus! {

/// Why talking to OBS failed.
#[derive(Debug, PartialEq)]
pub enum ObsError {
    /// OBS answered the identify message with something other than
    /// `Identified` (op 2); the message is kept for the error text.
    NotIdentified(JsonValue),
    /// OBS reported a request as failed; `status` is its `requestStatus`.
    RequestFailed { request_type: String, status: JsonValue },
}

/// An object with the given members, in this order.
pub fn object(members: Vec<(String, JsonValue)>) -> (res: JsonValue)
    ensures
        res@ == Json::Object(entries_view(members@)),
{
    proof {
        lemma_members_view(members@);
        assert(members_view(members@) =~= entries_view(members@));
    }
    JsonValue::Object(members)
}

/// The view of a list of object members.
pub open spec fn entries_view(ms: Seq<(String, JsonValue)>) -> Seq<(Seq<char>, Json)> {
    Seq::new(ms.len(), |i: int| (ms[i].0@, ms[i].1@))
}

/// A member of an object.
pub fn entry(key: &str, value: JsonValue) -> (res: (String, JsonValue))
    ensures
        res.0@ == key@,
        res.1 == value,
{
    (key.to_owned(), value)
}

/// The protocol version the client asks for: the hello's
/// `d.rpcVersion`, or 1 when it has none.
pub open spec fn rpc_version_of(hello: Json) -> int {
    match hello.at("d"@).at("rpcVersion"@).as_i64() {
        Some(v) => v,
        None => 1,
    }
}

pub fn hello_rpc_version(hello: &JsonValue) -> (res: i64)
    ensures
        res == rpc_version_of(hello@),
{
    match hello.lookup("d") {
        Some(d) => match d.lookup("rpcVersion") {
            Some(v) => match v.as_i64() {
                Some(n) => n,
                None => 1,
            },
            None => 1,
        },
        None => 1,
    }
}

/// The `Identify` message (op 1) answering `hello`: it asks for
/// `rpc_version_of(hello)` and no event subscriptions, and, when the hello
/// carries an `authentication` member, the answer to its challenge.
pub open spec fn identify_json(hello: Json, password: Seq<char>) -> Json {
    let base = seq![
        ("rpcVersion"@, Json::Int(rpc_version_of(hello))),
        ("eventSubscriptions"@, Json::Int(0)),
    ];
    let d = match hello.at("d"@).lookup("authentication"@) {
        Some(auth_info) => base.push(
            (
                "authentication"@,
                Json::Str(
                    obs_auth(
                        password,
                        auth_info.at("salt"@).str_or_empty(),
                        auth_info.at("challenge"@).str_or_empty(),
                    ),
                ),
            ),
        ),
        None => base,
    };
    Json::Object(seq![("op"@, Json::Int(1)), ("d"@, Json::Object(d))])
}

pub fn identify_message(hello: &JsonValue, password: &str) -> (res: JsonValue)
    ensures
        res@ == identify_json(hello@, password@),
{
    let rpc_version = hello_rpc_version(hello);
    let mut d: Vec<(String, JsonValue)> = Vec::new();
    d.push(entry("rpcVersion", JsonValue::Int(rpc_version as i128)));
    d.push(entry("eventSubscriptions", JsonValue::Int(0)));
    let ghost base = seq![
        ("rpcVersion"@, Json::Int(rpc_version_of(hello@))),
        ("eventSubscriptions"@, Json::Int(0)),
    ];
    assert(entries_view(d@) =~= base);
    let auth_info = match hello.lookup("d") {
        Some(hd) => hd.lookup("authentication"),
        None => None,
    };
    assert(auth_info matches Some(i) ==> hello@.at("d"@).lookup("authentication"@) == Some(i@));
    assert(auth_info is None ==> hello@.at("d"@).lookup("authentication"@) is None);
    match auth_info {
        Some(info) => {
            let challenge = match info.lookup("challenge") {
                Some(c) => c.str_or_empty(),
                None => String::new(),
            };
            let salt = match info.lookup("salt") {
                Some(s) => s.str_or_empty(),
                None => String::new(),
            };
            assert(challenge@ == info@.at("challenge"@).str_or_empty());
            assert(salt@ == info@.at("salt"@).str_or_empty());
            let answer = compute_auth(password, salt.as_str(), challenge.as_str());
            let ghost before = d@;
            d.push(entry("authentication", JsonValue::Str(answer)));
            assert(entries_view(d@) =~= entries_view(before).push(
                ("authentication"@, Json::Str(answer@)),
            ));
        },
        None => {},
    }
    let ghost expect_d = match identify_json(hello@, password@) {
        Json::Object(top) => top[1].1,
        _ => Json::Null,
    };
    assert(Json::Object(entries_view(d@)) =~= expect_d);
    let d_value = object(d);
    let mut top: Vec<(String, JsonValue)> = Vec::new();
    top.push(entry("op", JsonValue::Int(1)));
    top.push(entry("d", d_value));
    let res = object(top);
    assert(entries_view(top@) =~= seq![("op"@, Json::Int(1)), ("d"@, expect_d)]);
    assert(res@ =~= identify_json(hello@, password@));
    res
}

/// The message OBS answers with when it accepts the client (op 2).
pub fn check_identified(message: &JsonValue) -> (res: Result<(), ObsError>)
    ensures
        res is Ok <==> message@.at("op"@).as_i64() == Some(2int),
        res matches Err(ObsError::NotIdentified(m)) ==> m@ == message@,
        !(res matches Err(ObsError::RequestFailed { .. })),
{
    let op = member_of(Some(message), "op");
    match op {
        Some(v) => match v.as_i64() {
            Some(2) => return Ok(()),
            _ => {},
        },
        None => {},
    }
    Err(ObsError::NotIdentified(message.duplicate()))
}

pub open spec fn is_lower_hex(c: char) -> bool {
    ('0' <= c && c <= '9') || ('a' <= c && c <= 'f')
}

/// A random (version 4) UUID in its hyphenated lower-case text form.
pub open spec fn uuid_v4_text(s: Seq<char>) -> bool {
    &&& s.len() == 36
    &&& forall|i: int|
        0 <= i < 36 ==> if i == 8 || i == 13 || i == 18 || i == 23 {
            s[i] == '-'
        } else {
            is_lower_hex(#[trigger] s[i])
        }
    &&& s[14] == '4'
    &&& (s[19] == '8' || s[19] == '9' || s[19] == 'a' || s[19] == 'b')
}

/// `uuid::Uuid::new_v4().to_string()`: a fresh random UUID. Only its text
/// form is promised, not which one comes.
#[verifier::external_body]
fn new_request_id() -> (res: String)
    ensures
        uuid_v4_text(res@),
{
    uuid::Uuid::new_v4().to_string()
}

/// A `Request` message (op 6).
pub open spec fn request_json(request_type: Seq<char>, request_id: Seq<char>, data: Json) -> Json {
    Json::Object(
        seq![
            ("op"@, Json::Int(6)),
            (
                "d"@,
                Json::Object(
                    seq![
                        ("requestType"@, Json::Str(request_type)),
                        ("requestId"@, Json::Str(request_id)),
                        ("requestData"@, data),
                    ],
                ),
            ),
        ],
    )
}

pub fn request_message(request_type: &str, request_id: &str, request_data: JsonValue) -> (res:
    JsonValue)
    ensures
        res@ == request_json(request_type@, request_id@, request_data@),
{
    let ghost data = request_data@;
    let mut d: Vec<(String, JsonValue)> = Vec::new();
    d.push(entry("requestType", JsonValue::text(request_type)));
    d.push(entry("requestId", JsonValue::text(request_id)));
    d.push(entry("requestData", request_data));
    let ghost inner = seq![
        ("requestType"@, Json::Str(request_type@)),
        ("requestId"@, Json::Str(request_id@)),
        ("requestData"@, data),
    ];
    assert(entries_view(d@) =~= inner);
    let d_value = object(d);
    let mut top: Vec<(String, JsonValue)> = Vec::new();
    top.push(entry("op", JsonValue::Int(6)));
    top.push(entry("d", d_value));
    assert(entries_view(top@) =~= seq![("op"@, Json::Int(6)), ("d"@, Json::Object(inner))]);
    object(top)
}

/// A request under a fresh id: the id and the message to send.
pub fn prepare_request(request_type: &str, request_data: JsonValue) -> (res: (String, JsonValue))
    ensures
        uuid_v4_text(res.0@),
        res.1@ == request_json(request_type@, res.0@, request_data@),
{
    let id = new_request_id();
    let message = request_message(request_type, id.as_str(), request_data);
    (id, message)
}

/// What a `RequestResponse` payload says: its `responseData` (or `null`)
/// when `requestStatus.result` is `true`, otherwise the `requestStatus`.
pub open spec fn response_outcome(response: Json) -> Result<Json, Json> {
    if response.at("requestStatus"@).at("result"@).as_bool() == Some(true) {
        Ok(
            match response.lookup("responseData"@) {
                Some(d) => d,
                None => Json::Null,
            },
        )
    } else {
        Err(response.at("requestStatus"@))
    }
}

pub fn interpret_response(request_type: &str, response: &JsonValue) -> (res: Result<
    JsonValue,
    ObsError,
>)
    ensures
        match response_outcome(response@) {
            Ok(d) => res matches Ok(v) && v@ == d,
            Err(status) => res matches Err(ObsError::RequestFailed { request_type: t, status: st })
                && t@ == request_type@ && st@ == status,
        },
{
    let status = member_of(Some(response), "requestStatus");
    let ok = match member_of(status, "result") {
        Some(r) => match r.as_bool() {
            Some(b) => b,
            None => false,
        },
        None => false,
    };
    if !ok {
        return Err(
            ObsError::RequestFailed { request_type: request_type.to_owned(), status: response.at("requestStatus") },
        );
    }
    match response.lookup("responseData") {
        Some(d) => Ok(d.duplicate()),
        None => Ok(JsonValue::Null),
    }
}

/// A `RequestResponse` (op 7) message with payload `d`.
pub open spec fn response_json(d: Json) -> Json {
    Json::Object(seq![("op"@, Json::Int(7)), ("d"@, d)])
}

/// A reply that echoes a request's `requestId` is routed to the id the
/// request was sent under, with its whole payload.
pub proof fn law_reply_routes_to_request(
    request_type: Seq<char>,
    request_id: Seq<char>,
    data: Json,
    reply: Json,
)
    requires
        reply.at("requestId"@) == request_json(request_type, request_id, data).at("d"@).at(
            "requestId"@,
        ),
    ensures
        routed(response_json(reply)) == Some((request_id, reply)),
{
    reveal_strlit("op");
    reveal_strlit("d");
    reveal_strlit("requestType");
    reveal_strlit("requestId");
    reveal_strlit("requestData");
    let req_d = seq![
        ("requestType"@, Json::Str(request_type)),
        ("requestId"@, Json::Str(request_id)),
        ("requestData"@, data),
    ];
    assert("op"@ != "d"@) by {
        assert("op"@.len() != "d"@.len());
    }
    assert("requestType"@ != "requestId"@) by {
        assert("requestType"@[8] != "requestId"@[8]);
    }
    let req = seq![("op"@, Json::Int(6)), ("d"@, Json::Object(req_d))];
    lemma_member_index(req, "d"@);
    assert(req[1].0 == "d"@);
    assert(member_index(req, "d"@) == Some(1int));
    lemma_member_index(req_d, "requestId"@);
    assert(req_d[1].0 == "requestId"@);
    assert(member_index(req_d, "requestId"@) == Some(1int));
    assert(member_index(seq![("op"@, Json::Int(7)), ("d"@, reply)], "op"@) == Some(0int));
    let resp = seq![("op"@, Json::Int(7)), ("d"@, reply)];
    lemma_member_index(resp, "d"@);
    assert(resp[1].0 == "d"@);
    assert(member_index(resp, "d"@) == Some(1int));
}

/// Which pending request an incoming message answers: a `RequestResponse`
/// (op 7) whose `d.requestId` is a string is routed to that id with its `d`.
pub open spec fn routed(message: Json) -> Option<(Seq<char>, Json)> {
    if message.at("op"@).as_i64() == Some(7int) {
        match message.at("d"@).at("requestId"@).as_str() {
            Some(id) => Some((id, message.at("d"@))),
            None => None,
        }
    } else {
        None
    }
}

pub fn route_incoming(message: &JsonValue) -> (res: Option<(String, JsonValue)>)
    ensures
        match routed(message@) {
            Some((id, d)) => res matches Some(r) && r.0@ == id && r.1@ == d,
            None => res is None,
        },
{
    let is_response = match member_of(Some(message), "op") {
        Some(op) => match op.as_i64() {
            Some(7) => true,
            _ => false,
        },
        None => false,
    };
    if !is_response {
        return None;
    }
    let d = member_of(Some(message), "d");
    match member_of(d, "requestId") {
        Some(id) => match id.as_str() {
            Some(text) => Some((text.clone(), message.at("d"))),
            None => None,
        },
        None => None,
    }
}

/// A request to send: its `requestType` and `requestData`.
#[derive(Debug, PartialEq)]
pub struct ObsRequest {
    pub request_type: String,
    pub data: JsonValue,
}

/// An object of string members.
pub open spec fn str_member(key: Seq<char>, value: Seq<char>) -> (Seq<char>, Json) {
    (key, Json::Str(value))
}

/// `SetSceneItemEnabled` data.
pub open spec fn set_enabled_json(scene: Seq<char>, item_id: int, enabled: bool) -> Json {
    Json::Object(
        seq![
            str_member("sceneName"@, scene),
            ("sceneItemId"@, Json::Int(item_id)),
            ("sceneItemEnabled"@, Json::Bool(enabled)),
        ],
    )
}

/// `SetInputSettings` data that points a Media Source at a local file.
pub open spec fn input_file_json(input_name: Seq<char>, file_path: Seq<char>) -> Json {
    Json::Object(
        seq![
            str_member("inputName"@, input_name),
            (
                "inputSettings"@,
                Json::Object(
                    seq![str_member("local_file"@, file_path), ("is_local_file"@, Json::Bool(true))],
                ),
            ),
            ("overlay"@, Json::Bool(true)),
        ],
    )
}

/// `TriggerMediaInputAction` data that restarts playback.
pub open spec fn restart_json(input_name: Seq<char>) -> Json {
    Json::Object(
        seq![
            str_member("inputName"@, input_name),
            str_member("mediaAction"@, "OBS_WEBSOCKET_MEDIA_INPUT_ACTION_RESTART"@),
        ],
    )
}

fn request(request_type: &str, members: Vec<(String, JsonValue)>) -> (res: ObsRequest)
    ensures
        res.request_type@ == request_type@,
        res.data@ == Json::Object(entries_view(members@)),
{
    ObsRequest { request_type: request_type.to_owned(), data: object(members) }
}

/// A request without parameters.
fn plain_request(request_type: &str) -> (res: ObsRequest)
    ensures
        res.request_type@ == request_type@,
        res.data@ == Json::Object(Seq::empty()),
{
    let res = request(request_type, Vec::new());
    assert(entries_view(Seq::<(String, JsonValue)>::empty()) =~= Seq::empty());
    res
}

impl ObsRequest {
    pub fn save_replay_buffer() -> (res: ObsRequest)
        ensures
            res.request_type@ == "SaveReplayBuffer"@,
            res.data@ == Json::Object(Seq::empty()),
    {
        plain_request("SaveReplayBuffer")
    }

    pub fn replay_buffer_status() -> (res: ObsRequest)
        ensures
            res.request_type@ == "GetReplayBufferStatus"@,
            res.data@ == Json::Object(Seq::empty()),
    {
        plain_request("GetReplayBufferStatus")
    }

    pub fn start_replay_buffer() -> (res: ObsRequest)
        ensures
            res.request_type@ == "StartReplayBuffer"@,
            res.data@ == Json::Object(Seq::empty()),
    {
        plain_request("StartReplayBuffer")
    }

    pub fn video_settings() -> (res: ObsRequest)
        ensures
            res.request_type@ == "GetVideoSettings"@,
            res.data@ == Json::Object(Seq::empty()),
    {
        plain_request("GetVideoSettings")
    }

    pub fn last_replay() -> (res: ObsRequest)
        ensures
            res.request_type@ == "GetLastReplayBufferReplay"@,
            res.data@ == Json::Object(Seq::empty()),
    {
        plain_request("GetLastReplayBufferReplay")
    }

    pub fn input_list() -> (res: ObsRequest)
        ensures
            res.request_type@ == "GetInputList"@,
            res.data@ == Json::Object(Seq::empty()),
    {
        plain_request("GetInputList")
    }

    pub fn scene_list() -> (res: ObsRequest)
        ensures
            res.request_type@ == "GetSceneList"@,
            res.data@ == Json::Object(Seq::empty()),
    {
        plain_request("GetSceneList")
    }

    pub fn record_directory() -> (res: ObsRequest)
        ensures
            res.request_type@ == "GetRecordDirectory"@,
            res.data@ == Json::Object(Seq::empty()),
    {
        plain_request("GetRecordDirectory")
    }

    /// Creates a Browser Source `name` in `scene`, showing `url` at the
    /// given size, kept running while hidden.
    pub fn create_browser_source(scene: &str, name: &str, url: &str, width: u32, height: u32) -> (res:
        ObsRequest)
        ensures
            res.request_type@ == "CreateInput"@,
            res.data@ == Json::Object(
                seq![
                    str_member("sceneName"@, scene@),
                    str_member("inputName"@, name@),
                    str_member("inputKind"@, "browser_source"@),
                    (
                        "inputSettings"@,
                        Json::Object(
                            seq![
                                str_member("url"@, url@),
                                ("width"@, Json::Int(width as int)),
                                ("height"@, Json::Int(height as int)),
                                ("shutdown"@, Json::Bool(false)),
                                ("restart_when_active"@, Json::Bool(false)),
                            ],
                        ),
                    ),
                ],
            ),
    {
        let settings = vec![
            entry("url", JsonValue::text(url)),
            entry("width", JsonValue::Int(width as i128)),
            entry("height", JsonValue::Int(height as i128)),
            entry("shutdown", JsonValue::Bool(false)),
            entry("restart_when_active", JsonValue::Bool(false)),
        ];
        let ghost settings_view = seq![
            str_member("url"@, url@),
            ("width"@, Json::Int(width as int)),
            ("height"@, Json::Int(height as int)),
            ("shutdown"@, Json::Bool(false)),
            ("restart_when_active"@, Json::Bool(false)),
        ];
        assert(entries_view(settings@) =~= settings_view);
        let members = vec![
            entry("sceneName", JsonValue::text(scene)),
            entry("inputName", JsonValue::text(name)),
            entry("inputKind", JsonValue::text("browser_source")),
            entry("inputSettings", object(settings)),
        ];
        assert(entries_view(members@) =~= seq![
            str_member("sceneName"@, scene@),
            str_member("inputName"@, name@),
            str_member("inputKind"@, "browser_source"@),
            ("inputSettings"@, Json::Object(settings_view)),
        ]);
        request("CreateInput", members)
    }

    /// Creates a local-file Media Source `name` in `scene` that does not loop.
    pub fn create_media_source(scene: &str, name: &str) -> (res: ObsRequest)
        ensures
            res.request_type@ == "CreateInput"@,
            res.data@ == Json::Object(
                seq![
                    str_member("sceneName"@, scene@),
                    str_member("inputName"@, name@),
                    str_member("inputKind"@, "ffmpeg_source"@),
                    (
                        "inputSettings"@,
                        Json::Object(
                            seq![
                                ("looping"@, Json::Bool(false)),
                                ("is_local_file"@, Json::Bool(true)),
                            ],
                        ),
                    ),
                ],
            ),
    {
        let settings = vec![
            entry("looping", JsonValue::Bool(false)),
            entry("is_local_file", JsonValue::Bool(true)),
        ];
        let ghost settings_view = seq![
            ("looping"@, Json::Bool(false)),
            ("is_local_file"@, Json::Bool(true)),
        ];
        assert(entries_view(settings@) =~= settings_view);
        let members = vec![
            entry("sceneName", JsonValue::text(scene)),
            entry("inputName", JsonValue::text(name)),
            entry("inputKind", JsonValue::text("ffmpeg_source")),
            entry("inputSettings", object(settings)),
        ];
        assert(entries_view(members@) =~= seq![
            str_member("sceneName"@, scene@),
            str_member("inputName"@, name@),
            str_member("inputKind"@, "ffmpeg_source"@),
            ("inputSettings"@, Json::Object(settings_view)),
        ]);
        request("CreateInput", members)
    }

    /// Asks for the id of `source`'s item in `scene`.
    pub fn scene_item_id(scene: &str, source: &str) -> (res: ObsRequest)
        ensures
            res.request_type@ == "GetSceneItemId"@,
            res.data@ == Json::Object(
                seq![str_member("sceneName"@, scene@), str_member("sourceName"@, source@)],
            ),
    {
        let members = vec![
            entry("sceneName", JsonValue::text(scene)),
            entry("sourceName", JsonValue::text(source)),
        ];
        assert(entries_view(members@) =~= seq![
            str_member("sceneName"@, scene@),
            str_member("sourceName"@, source@),
        ]);
        request("GetSceneItemId", members)
    }

    /// Shows or hides item `item_id` of `scene`.
    pub fn set_scene_item_enabled(scene: &str, item_id: i64, enabled: bool) -> (res: ObsRequest)
        ensures
            res.request_type@ == "SetSceneItemEnabled"@,
            res.data@ == set_enabled_json(scene@, item_id as int, enabled),
    {
        let members = vec![
            entry("sceneName", JsonValue::text(scene)),
            entry("sceneItemId", JsonValue::Int(item_id as i128)),
            entry("sceneItemEnabled", JsonValue::Bool(enabled)),
        ];
        assert(entries_view(members@) =~= seq![
            str_member("sceneName"@, scene@),
            ("sceneItemId"@, Json::Int(item_id as int)),
            ("sceneItemEnabled"@, Json::Bool(enabled)),
        ]);
        request("SetSceneItemEnabled", members)
    }

    /// Asks whether item `item_id` of `scene` is shown.
    pub fn scene_item_enabled(scene: &str, item_id: i64) -> (res: ObsRequest)
        ensures
            res.request_type@ == "GetSceneItemEnabled"@,
            res.data@ == Json::Object(
                seq![str_member("sceneName"@, scene@), ("sceneItemId"@, Json::Int(item_id as int))],
            ),
    {
        let members = vec![
            entry("sceneName", JsonValue::text(scene)),
            entry("sceneItemId", JsonValue::Int(item_id as i128)),
        ];
        assert(entries_view(members@) =~= seq![
            str_member("sceneName"@, scene@),
            ("sceneItemId"@, Json::Int(item_id as int)),
        ]);
        request("GetSceneItemEnabled", members)
    }

    /// Points Media Source `input_name` at the local file `file_path`,
    /// keeping its other settings.
    pub fn set_input_file(input_name: &str, file_path: &str) -> (res: ObsRequest)
        ensures
            res.request_type@ == "SetInputSettings"@,
            res.data@ == input_file_json(input_name@, file_path@),
    {
        let settings = vec![
            entry("local_file", JsonValue::text(file_path)),
            entry("is_local_file", JsonValue::Bool(true)),
        ];
        let ghost settings_view = seq![
            str_member("local_file"@, file_path@),
            ("is_local_file"@, Json::Bool(true)),
        ];
        assert(entries_view(settings@) =~= settings_view);
        let members = vec![
            entry("inputName", JsonValue::text(input_name)),
            entry("inputSettings", object(settings)),
            entry("overlay", JsonValue::Bool(true)),
        ];
        assert(entries_view(members@) =~= seq![
            str_member("inputName"@, input_name@),
            ("inputSettings"@, Json::Object(settings_view)),
            ("overlay"@, Json::Bool(true)),
        ]);
        request("SetInputSettings", members)
    }

    /// Restarts playback of Media Source `input_name`.
    pub fn restart_media(input_name: &str) -> (res: ObsRequest)
        ensures
            res.request_type@ == "TriggerMediaInputAction"@,
            res.data@ == restart_json(input_name@),
    {
        let members = vec![
            entry("inputName", JsonValue::text(input_name)),
            entry("mediaAction", JsonValue::text("OBS_WEBSOCKET_MEDIA_INPUT_ACTION_RESTART")),
        ];
        assert(entries_view(members@) =~= seq![
            str_member("inputName"@, input_name@),
            str_member("mediaAction"@, "OBS_WEBSOCKET_MEDIA_INPUT_ACTION_RESTART"@),
        ]);
        request("TriggerMediaInputAction", members)
    }
}

/// The text of each string, in order.
pub open spec fn strings_view(v: Seq<String>) -> Seq<Seq<char>> {
    Seq::new(v.len(), |i: int| v[i]@)
}

/// The items of an array, or none when the value is not an array.
pub open spec fn array_or_empty(v: Json) -> Seq<Json> {
    match v.as_array() {
        Some(items) => items,
        None => Seq::empty(),
    }
}

fn array_items(v: Option<&JsonValue>) -> (res: Vec<&JsonValue>)
    ensures
        res@.len() == array_or_empty(or_null(v)).len(),
        forall|i: int| 0 <= i < res@.len() ==> #[trigger] res@[i]@ == array_or_empty(or_null(v))[i],
{
    let mut res: Vec<&JsonValue> = Vec::new();
    match v {
        Some(x) => match x.as_array() {
            Some(items) => {
                proof {
                    lemma_items_view(items@);
                }
                let mut i: usize = 0;
                while i < items.len()
                    invariant
                        i <= items@.len(),
                        array_or_empty(or_null(v)) == items_view(items@),
                        items_view(items@).len() == items@.len(),
                        forall|j: int| 0 <= j < items@.len() ==> #[trigger] items_view(items@)[j] == items@[j]@,
                        res@.len() == i,
                        forall|j: int| 0 <= j < i ==> #[trigger] res@[j]@ == items_view(items@)[j],
                    decreases items@.len() - i,
                {
                    res.push(&items[i]);
                    i = i + 1;
                }
            },
            None => {},
        },
        None => {},
    }
    res
}

/// `outputActive` of a `GetReplayBufferStatus` reply (false when missing).
pub fn replay_buffer_active_from(data: &JsonValue) -> (res: bool)
    ensures
        res == (data@.at("outputActive"@).as_bool() == Some(true)),
{
    match member_of(Some(data), "outputActive") {
        Some(v) => match v.as_bool() {
            Some(b) => b,
            None => false,
        },
        None => false,
    }
}

/// A whole-number member read as a `u64`, or the default.
pub open spec fn u64_or(v: Json, default: u64) -> u64 {
    match v.as_u64() {
        Some(n) => n as u64,
        None => default,
    }
}

fn u64_member_or(data: &JsonValue, key: &str, default: u64) -> (res: u64)
    ensures
        res == u64_or(data@.at(key@), default),
{
    match member_of(Some(data), key) {
        Some(v) => match v.as_u64() {
            Some(n) => n,
            None => default,
        },
        None => default,
    }
}

/// The canvas size of a `GetVideoSettings` reply: `baseWidth` and
/// `baseHeight` (1920 by 1080 when missing), each cut to 32 bits.
pub fn canvas_size_from(data: &JsonValue) -> (res: (u32, u32))
    ensures
        res.0 == u64_or(data@.at("baseWidth"@), 1920) as u32,
        res.1 == u64_or(data@.at("baseHeight"@), 1080) as u32,
{
    let w = u64_member_or(data, "baseWidth", 1920);
    let h = u64_member_or(data, "baseHeight", 1080);
    (w as u32, h as u32)
}

/// A string member, or empty text.
fn text_member(data: &JsonValue, key: &str) -> (res: String)
    ensures
        res@ == data@.at(key@).str_or_empty(),
{
    match member_of(Some(data), key) {
        Some(v) => v.str_or_empty(),
        None => String::new(),
    }
}

/// `savedReplayPath` of a `GetLastReplayBufferReplay` reply (empty when missing).
pub fn saved_replay_path_from(data: &JsonValue) -> (res: String)
    ensures
        res@ == data@.at("savedReplayPath"@).str_or_empty(),
{
    text_member(data, "savedReplayPath")
}

/// `recordDirectory` of a `GetRecordDirectory` reply (empty when missing).
pub fn record_directory_from(data: &JsonValue) -> (res: String)
    ensures
        res@ == data@.at("recordDirectory"@).str_or_empty(),
{
    text_member(data, "recordDirectory")
}

/// Whether an input of this kind plays media files.
pub open spec fn is_media_kind(kind: Seq<char>) -> bool {
    kind == "ffmpeg_source"@ || contains_text(kind, "media"@)
}

/// The names of the media inputs among `inputs`, in order.
pub open spec fn media_input_names(inputs: Seq<Json>) -> Seq<Seq<char>>
    decreases inputs.len(),
{
    if inputs.len() == 0 {
        Seq::empty()
    } else {
        let rest = media_input_names(inputs.drop_last());
        let input = inputs.last();
        if is_media_kind(input.at("inputKind"@).str_or_empty()) {
            rest.push(input.at("inputName"@).str_or_empty())
        } else {
            rest
        }
    }
}

/// The media inputs of a `GetInputList` reply: inputs of kind
/// `ffmpeg_source` or any kind with `media` in its name.
pub fn media_inputs_from(data: &JsonValue) -> (res: Vec<String>)
    ensures
        strings_view(res@) == media_input_names(array_or_empty(data@.at("inputs"@))),
{
    let items = array_items(member_of(Some(data), "inputs"));
    let ghost all = array_or_empty(data@.at("inputs"@));
    let media = chars_of("media");
    let mut res: Vec<String> = Vec::new();
    let mut i: usize = 0;
    while i < items.len()
        invariant
            i <= items@.len(),
            all.len() == items@.len(),
            media@ == "media"@,
            forall|j: int| 0 <= j < items@.len() ==> #[trigger] items@[j]@ == all[j],
            strings_view(res@) == media_input_names(all.take(i as int)),
        decreases items@.len() - i,
    {
        let item = items[i];
        let kind = text_member(item, "inputKind");
        let kind_chars = chars_of(kind.as_str());
        let keep = crate::text::str_eq(kind.as_str(), "ffmpeg_source") || contains(&kind_chars, &media);
        let ghost prev = res@;
        if keep {
            res.push(text_member(item, "inputName"));
        }
        proof {
            assert(all.take(i + 1).drop_last() =~= all.take(i as int));
            assert(all.take(i + 1).last() == all[i as int]);
            if keep {
                assert(strings_view(res@) =~= strings_view(prev).push(
                    all[i as int].at("inputName"@).str_or_empty(),
                ));
            }
        }
        i = i + 1;
    }
    assert(all.take(items@.len() as int) =~= all);
    res
}

/// The scene names of a `GetSceneList` reply.
pub open spec fn scene_names(scenes: Seq<Json>) -> Seq<Seq<char>> {
    Seq::new(scenes.len(), |i: int| scenes[i].at("sceneName"@).str_or_empty())
}

/// The scenes of a `GetSceneList` reply and its current program scene.
pub fn scene_list_from(data: &JsonValue) -> (res: (Vec<String>, String))
    ensures
        strings_view(res.0@) == scene_names(array_or_empty(data@.at("scenes"@))),
        res.1@ == data@.at("currentProgramSceneName"@).str_or_empty(),
{
    let current = text_member(data, "currentProgramSceneName");
    let items = array_items(member_of(Some(data), "scenes"));
    let ghost all = array_or_empty(data@.at("scenes"@));
    let mut names: Vec<String> = Vec::new();
    let mut i: usize = 0;
    while i < items.len()
        invariant
            i <= items@.len(),
            all.len() == items@.len(),
            forall|j: int| 0 <= j < items@.len() ==> #[trigger] items@[j]@ == all[j],
            names@.len() == i,
            strings_view(names@) =~= scene_names(all.take(i as int)),
        decreases items@.len() - i,
    {
        let ghost prev = names@;
        let name = text_member(items[i], "sceneName");
        names.push(name);
        proof {
            assert(names@[i as int]@ == all[i as int].at("sceneName"@).str_or_empty());
            assert forall|j: int| 0 <= j < i + 1 implies #[trigger] strings_view(names@)[j] == scene_names(
                all.take(i + 1),
            )[j] by {
                if j < i {
                    assert(names@[j] == prev[j]);
                    assert(strings_view(prev)[j] == scene_names(all.take(i as int))[j]);
                }
            }
        }
        i = i + 1;
    }
    assert(all.take(items@.len() as int) =~= all);
    (names, current)
}

/// `sceneItemId` of a reply, when it is a whole number that fits an `i64`.
pub fn scene_item_id_from(data: &JsonValue) -> (res: Option<i64>)
    ensures
        res matches Some(id) ==> data@.at("sceneItemId"@).as_i64() == Some(id as int),
        res is None ==> data@.at("sceneItemId"@).as_i64() is None,
{
    match member_of(Some(data), "sceneItemId") {
        Some(v) => v.as_i64(),
        None => None,
    }
}

/// `sceneItemEnabled` of a `GetSceneItemEnabled` reply (false when missing).
pub fn scene_item_enabled_from(data: &JsonValue) -> (res: bool)
    ensures
        res == (data@.at("sceneItemEnabled"@).as_bool() == Some(true)),
{
    match member_of(Some(data), "sceneItemEnabled") {
        Some(v) => match v.as_bool() {
            Some(b) => b,
            None => false,
        },
        None => false,
    }
}

/// Whether a `GetInputList` reply lists an input (of any kind) named `name`.
pub open spec fn lists_input(data: Json, name: Seq<char>) -> bool {
    match data.at("inputs"@).as_array() {
        Some(inputs) => exists|i: int|
            0 <= i < inputs.len() && #[trigger] inputs[i].at("inputName"@) == Json::Str(name),
        None => false,
    }
}

pub fn input_exists_in(data: &JsonValue, name: &str) -> (res: bool)
    ensures
        res == lists_input(data@, name@),
{
    let inputs = member_of(Some(data), "inputs");
    let is_array = match inputs {
        Some(v) => v.as_array().is_some(),
        None => false,
    };
    if !is_array {
        return false;
    }
    let items = array_items(inputs);
    let ghost all = array_or_empty(data@.at("inputs"@));
    let mut i: usize = 0;
    while i < items.len()
        invariant
            i <= items@.len(),
            all.len() == items@.len(),
            data@.at("inputs"@).as_array() == Some(all),
            forall|j: int| 0 <= j < items@.len() ==> #[trigger] items@[j]@ == all[j],
            forall|j: int| 0 <= j < i ==> #[trigger] all[j].at("inputName"@) != Json::Str(name@),
        decreases items@.len() - i,
    {
        let found = match member_of(Some(items[i]), "inputName") {
            Some(v) => v.is_str(name),
            None => false,
        };
        if found {
            assert(all[i as int].at("inputName"@) == Json::Str(name@));
            return true;
        }
        i = i + 1;
    }
    false
}

/// The view of scene-item lookups: each scene with the reply OBS gave
/// (`None` when the lookup failed).
pub open spec fn lookups_view(s: Seq<(String, Option<JsonValue>)>) -> Seq<(Seq<char>, Option<Json>)> {
    Seq::new(
        s.len(),
        |i: int|
            (
                s[i].0@,
                match s[i].1 {
                    Some(d) => Some(d@),
                    None => None,
                },
            ),
    )
}

/// The view of found scene items.
pub open spec fn items_found_view(s: Seq<(String, i64)>) -> Seq<(Seq<char>, int)> {
    Seq::new(s.len(), |i: int| (s[i].0@, s[i].1 as int))
}

/// Every (scene, item id) pair among the lookups: a scene whose lookup
/// failed, or whose reply has no whole-number `sceneItemId`, is skipped.
pub open spec fn found_items(lookups: Seq<(Seq<char>, Option<Json>)>) -> Seq<(Seq<char>, int)>
    decreases lookups.len(),
{
    if lookups.len() == 0 {
        Seq::empty()
    } else {
        let rest = found_items(lookups.drop_last());
        let (scene, reply) = lookups.last();
        match reply {
            Some(d) => match d.at("sceneItemId"@).as_i64() {
                Some(id) => rest.push((scene, id)),
                None => rest,
            },
            None => rest,
        }
    }
}

/// Collecting the items of lookups split in two collects those of each part,
/// one part after the other; a single lookup gives its scene with the
/// reply's whole-number `sceneItemId`, or nothing. Together: one entry per
/// lookup that names an id, in lookup order, whatever ids other scenes have.
pub proof fn law_found_items(
    a: Seq<(Seq<char>, Option<Json>)>,
    b: Seq<(Seq<char>, Option<Json>)>,
    scene: Seq<char>,
    reply: Option<Json>,
)
    ensures
        found_items(a + b) == found_items(a) + found_items(b),
        found_items(seq![(scene, reply)]) == match reply {
            Some(d) => match d.at("sceneItemId"@).as_i64() {
                Some(id) => seq![(scene, id)],
                None => Seq::<(Seq<char>, int)>::empty(),
            },
            None => Seq::<(Seq<char>, int)>::empty(),
        },
    decreases b.len(),
{
    if b.len() == 0 {
        assert(a + b =~= a);
        assert(found_items(a) + found_items(b) =~= found_items(a));
    } else {
        law_found_items(a, b.drop_last(), scene, reply);
        assert((a + b).drop_last() =~= a + b.drop_last());
        assert((a + b).last() == b.last());
        assert(found_items(a + b) =~= found_items(a) + found_items(b));
    }
    let one = seq![(scene, reply)];
    assert(one.drop_last() =~= Seq::<(Seq<char>, Option<Json>)>::empty());
    assert(one.last() == (scene, reply));
    assert(found_items(one.drop_last()) == Seq::<(Seq<char>, int)>::empty());
    match reply {
        Some(d) => match d.at("sceneItemId"@).as_i64() {
            Some(id) => {
                assert(Seq::<(Seq<char>, int)>::empty().push((scene, id)) =~= seq![(scene, id)]);
            },
            None => {},
        },
        None => {},
    }
    assert(found_items(seq![(scene, reply)]) =~= match reply {
        Some(d) => match d.at("sceneItemId"@).as_i64() {
            Some(id) => seq![(scene, id)],
            None => Seq::<(Seq<char>, int)>::empty(),
        },
        None => Seq::<(Seq<char>, int)>::empty(),
    });
}

/// Collects where a source appears, from the `GetSceneItemId` reply for
/// each scene.
pub fn scene_items_found(lookups: &Vec<(String, Option<JsonValue>)>) -> (res: Vec<(String, i64)>)
    ensures
        items_found_view(res@) == found_items(lookups_view(lookups@)),
{
    let ghost all = lookups_view(lookups@);
    let mut res: Vec<(String, i64)> = Vec::new();
    let mut i: usize = 0;
    while i < lookups.len()
        invariant
            i <= lookups@.len(),
            all == lookups_view(lookups@),
            items_found_view(res@) == found_items(all.take(i as int)),
        decreases lookups@.len() - i,
    {
        let ghost prev = res@;
        match &lookups[i].1 {
            Some(d) => match scene_item_id_from(d) {
                Some(id) => {
                    res.push((lookups[i].0.clone(), id));
                },
                None => {},
            },
            None => {},
        }
        proof {
            assert(all.take(i + 1).drop_last() =~= all.take(i as int));
            assert(all.take(i + 1).last() == all[i as int]);
            assert(items_found_view(res@) =~= found_items(all.take(i + 1)));
        }
        i = i + 1;
    }
    assert(all.take(lookups@.len() as int) =~= all);
    res
}

} // verus!
