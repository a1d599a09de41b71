//! The decisions of the grab → trim → send workflow: waiting for a replay
//! to be saved, the order in which a clip is revealed in OBS, and which
//! exported files are cleaned up.
use vstd::prelude::*;
use crate::json::JsonValue;
use crate::obs::{input_file_json, restart_json, scene_item_id_from, set_enabled_json, ObsRequest};
use crate::text::{chars_of, decimal, ends_with, has_prefix, has_suffix, push_decimal, push_str, starts_with, str_eq};

verus! {

/// How often the grab polls OBS for the newly saved replay before giving up.
pub const MAX_POLLS: u32 = 40;

/// Waiting for OBS to report a newly saved replay file.
#[derive(Debug, PartialEq)]
pub struct ReplayWait {
    /// The replay path OBS reported before the save was triggered (empty
    /// when it reported none).
    pub previous: String,
    /// How many answers have been looked at.
    pub polls: u32,
}

/// What to do after looking at OBS's answer.
#[derive(Debug, PartialEq)]
pub enum WaitStep {
    /// The new replay is at this path.
    Done(String),
    /// Ask again after a pause.
    Poll,
    /// No new replay appeared in time.
    TimedOut,
}

impl ReplayWait {
    pub fn new(previous: String) -> (res: ReplayWait)
        ensures
            res.previous@ == previous@,
            res.polls == 0,
    {
        ReplayWait { previous, polls: 0 }
    }

    /// Looks at OBS's latest answer (`None` when the question failed): a
    /// non-empty path other than the previous one is the new replay; after
    /// `MAX_POLLS` answers without one, the wait is over.
    pub fn observe(&mut self, latest: Option<String>) -> (res: WaitStep)
        requires
            old(self).polls < MAX_POLLS,
        ensures
            final(self).previous == old(self).previous,
            final(self).polls == old(self).polls + 1,
            match latest {
                Some(p) if p@.len() > 0 && p@ != old(self).previous@ => res matches WaitStep::Done(
                    q,
                ) && q@ == p@,
                _ => if final(self).polls == MAX_POLLS {
                    res is TimedOut
                } else {
                    res is Poll
                },
            },
    {
        self.polls = self.polls + 1;
        match latest {
            Some(p) => {
                if !p.as_str().is_empty() && !(p == self.previous) {
                    return WaitStep::Done(p);
                }
            },
            None => {},
        }
        if self.polls == MAX_POLLS {
            WaitStep::TimedOut
        } else {
            WaitStep::Poll
        }
    }
}

/// One step of revealing a clip in OBS.
#[derive(Debug, PartialEq)]
pub enum ObsAction {
    SetItemEnabled { scene: String, item_id: i64, enabled: bool },
    SetInputFile { input: String, path: String },
    RestartMedia { input: String },
    /// A short pause so the media has opened before it is revealed.
    Settle,
}

pub enum ActionView {
    SetItemEnabled(Seq<char>, int, bool),
    SetInputFile(Seq<char>, Seq<char>),
    RestartMedia(Seq<char>),
    Settle,
}

impl View for ObsAction {
    type V = ActionView;

    open spec fn view(&self) -> ActionView {
        match self {
            ObsAction::SetItemEnabled { scene, item_id, enabled } => ActionView::SetItemEnabled(
                scene@,
                *item_id as int,
                *enabled,
            ),
            ObsAction::SetInputFile { input, path } => ActionView::SetInputFile(input@, path@),
            ObsAction::RestartMedia { input } => ActionView::RestartMedia(input@),
            ObsAction::Settle => ActionView::Settle,
        }
    }
}

pub open spec fn actions_view(s: Seq<ObsAction>) -> Seq<ActionView> {
    Seq::new(s.len(), |i: int| s[i]@)
}

/// The view of the places a source appears in: (scene, item id).
pub open spec fn items_view(s: Seq<(String, i64)>) -> Seq<(Seq<char>, int)> {
    Seq::new(s.len(), |i: int| (s[i].0@, s[i].1 as int))
}

/// Showing or hiding every item.
pub open spec fn set_all(items: Seq<(Seq<char>, int)>, enabled: bool) -> Seq<ActionView> {
    Seq::new(items.len(), |i: int| ActionView::SetItemEnabled(items[i].0, items[i].1, enabled))
}

/// The replay sequence: hide the source everywhere it appears, load the
/// file, restart playback, let it open, reveal it everywhere.
pub open spec fn push_actions(target: Seq<char>, file: Seq<char>, items: Seq<(Seq<char>, int)>) -> Seq<
    ActionView,
> {
    set_all(items, false) + seq![
        ActionView::SetInputFile(target, file),
        ActionView::RestartMedia(target),
        ActionView::Settle,
    ] + set_all(items, true)
}

/// Playing a clip first hides the source in every scene it appears in, one
/// step per scene in order, then loads the file, restarts it, pauses, and
/// reveals it in every scene in the same order; nothing else.
pub proof fn law_push_order(target: Seq<char>, file: Seq<char>, items: Seq<(Seq<char>, int)>)
    ensures
        push_actions(target, file, items).len() == 2 * items.len() + 3,
        forall|i: int|
            0 <= i < items.len() ==> #[trigger] push_actions(target, file, items)[i]
                == ActionView::SetItemEnabled(items[i].0, items[i].1, false),
        push_actions(target, file, items)[items.len() as int] == ActionView::SetInputFile(target, file),
        push_actions(target, file, items)[items.len() + 1int] == ActionView::RestartMedia(target),
        push_actions(target, file, items)[items.len() + 2int] == ActionView::Settle,
        forall|i: int|
            0 <= i < items.len() ==> #[trigger] push_actions(target, file, items)[items.len() + 3 + i]
                == ActionView::SetItemEnabled(items[i].0, items[i].1, true),
{
    let p = push_actions(target, file, items);
    let n = items.len() as int;
    assert forall|i: int| 0 <= i < n implies #[trigger] p[i] == ActionView::SetItemEnabled(
        items[i].0,
        items[i].1,
        false,
    ) by {
        assert(p[i] == set_all(items, false)[i]);
    }
    assert forall|i: int| 0 <= i < n implies #[trigger] p[n + 3 + i] == ActionView::SetItemEnabled(
        items[i].0,
        items[i].1,
        true,
    ) by {
        assert(p[n + 3 + i] == set_all(items, true)[i]);
    }
}

/// Why a clip cannot be sent to OBS.
#[derive(PartialEq, Eq, Structural, Debug, Clone, Copy)]
pub enum SendError {
    /// No target source is configured.
    NotLinked,
    /// The target source is in no scene.
    NotInAnyScene,
}

fn push_set_all(out: &mut Vec<ObsAction>, items: &Vec<(String, i64)>, enabled: bool)
    ensures
        actions_view(final(out)@) == actions_view(old(out)@) + set_all(items_view(items@), enabled),
{
    let ghost start = actions_view(out@);
    let ghost iv = items_view(items@);
    let mut i: usize = 0;
    while i < items.len()
        invariant
            i <= items@.len(),
            iv == items_view(items@),
            actions_view(out@) =~= start + set_all(iv.take(i as int), enabled),
        decreases items@.len() - i,
    {
        let ghost prev = out@;
        out.push(
            ObsAction::SetItemEnabled { scene: items[i].0.clone(), item_id: items[i].1, enabled },
        );
        proof {
            let a = ActionView::SetItemEnabled(iv[i as int].0, iv[i as int].1, enabled);
            assert(actions_view(out@) =~= actions_view(prev).push(a));
            assert(set_all(iv.take(i + 1), enabled) =~= set_all(iv.take(i as int), enabled).push(a));
        }
        i = i + 1;
    }
    assert(iv.take(items@.len() as int) =~= iv);
}

/// The steps that play `file` through the Media Source `target`, which
/// appears at `items`; without a target, or with a target in no scene,
/// nothing can be played.
pub fn push_plan(target: &str, file: &str, items: &Vec<(String, i64)>) -> (res: Result<
    Vec<ObsAction>,
    SendError,
>)
    ensures
        res is Ok <==> target@.len() > 0 && items@.len() > 0,
        target@.len() == 0 <==> res == Err::<Vec<ObsAction>, SendError>(SendError::NotLinked),
        target@.len() > 0 && items@.len() == 0 <==> res == Err::<Vec<ObsAction>, SendError>(
            SendError::NotInAnyScene,
        ),
        res matches Ok(actions) ==> actions_view(actions@) == push_actions(
            target@,
            file@,
            items_view(items@),
        ),
{
    if target.is_empty() {
        return Err(SendError::NotLinked);
    }
    if items.len() == 0 {
        return Err(SendError::NotInAnyScene);
    }
    let mut out: Vec<ObsAction> = Vec::new();
    push_set_all(&mut out, items, false);
    out.push(ObsAction::SetInputFile { input: target.to_owned(), path: file.to_owned() });
    out.push(ObsAction::RestartMedia { input: target.to_owned() });
    out.push(ObsAction::Settle);
    let ghost mid = actions_view(out@);
    push_set_all(&mut out, items, true);
    assert(actions_view(out@) =~= push_actions(target@, file@, items_view(items@)));
    Ok(out)
}

/// Hides every item: what runs once a played clip is over.
pub fn hide_plan(items: &Vec<(String, i64)>) -> (res: Vec<ObsAction>)
    ensures
        actions_view(res@) == set_all(items_view(items@), false),
{
    let mut out: Vec<ObsAction> = Vec::new();
    push_set_all(&mut out, items, false);
    assert(actions_view(out@) =~= set_all(items_view(items@), false));
    out
}

/// The item whose visibility decides a manual toggle: the first place the
/// source appears.
pub fn toggle_probe(items: &Vec<(String, i64)>) -> (res: Result<(String, i64), SendError>)
    ensures
        items@.len() == 0 <==> res is Err,
        res matches Err(e) ==> e == SendError::NotInAnyScene,
        res matches Ok(first) ==> first.0@ == items@[0].0@ && first.1 == items@[0].1,
{
    if items.len() == 0 {
        Err(SendError::NotInAnyScene)
    } else {
        Ok((items[0].0.clone(), items[0].1))
    }
}

/// Manual show/hide: every item is set to the opposite of what the first
/// one shows now; the new visibility is returned with the steps.
pub fn toggle_plan(items: &Vec<(String, i64)>, currently: bool) -> (res: (Vec<ObsAction>, bool))
    ensures
        res.1 == !currently,
        actions_view(res.0@) == set_all(items_view(items@), !currently),
{
    let mut out: Vec<ObsAction> = Vec::new();
    push_set_all(&mut out, items, !currently);
    assert(actions_view(out@) =~= set_all(items_view(items@), !currently));
    (out, !currently)
}

/// A newly created Media Source starts hidden: the step that hides the
/// item named by the creation reply's `sceneItemId` in `scene`, if the reply
/// names one.
pub fn hide_created(scene: &str, reply: &JsonValue) -> (res: Vec<ObsAction>)
    ensures
        actions_view(res@) == match reply@.at("sceneItemId"@).as_i64() {
            Some(id) => seq![ActionView::SetItemEnabled(scene@, id, false)],
            None => Seq::<ActionView>::empty(),
        },
{
    let mut out: Vec<ObsAction> = Vec::new();
    match scene_item_id_from(reply) {
        Some(id) => {
            out.push(ObsAction::SetItemEnabled { scene: scene.to_owned(), item_id: id, enabled: false });
        },
        None => {},
    }
    assert(actions_view(out@) =~= match reply@.at("sceneItemId"@).as_i64() {
        Some(id) => seq![ActionView::SetItemEnabled(scene@, id, false)],
        None => Seq::<ActionView>::empty(),
    });
    out
}

/// What a dock or hotkey asks for through the command endpoint.
#[derive(PartialEq, Eq, Structural, Debug, Clone, Copy)]
pub enum DockCommand {
    /// Grab a replay and open it in the trim editor.
    Grab,
    /// Grab a replay and play it at once.
    Instant,
    /// `replay`, `pause` or `hide`, forwarded to the overlay page.
    Playback,
    /// Anything else.
    Unknown,
}

pub open spec fn command_for(action: Seq<char>) -> DockCommand {
    if action == "grab"@ {
        DockCommand::Grab
    } else if action == "instant"@ {
        DockCommand::Instant
    } else if action == "replay"@ || action == "pause"@ || action == "hide"@ {
        DockCommand::Playback
    } else {
        DockCommand::Unknown
    }
}

/// Reads the action named in a command request.
pub fn command_of(action: &str) -> (res: DockCommand)
    ensures
        res == command_for(action@),
{
    if str_eq(action, "grab") {
        DockCommand::Grab
    } else if str_eq(action, "instant") {
        DockCommand::Instant
    } else if str_eq(action, "replay") || str_eq(action, "pause") || str_eq(action, "hide") {
        DockCommand::Playback
    } else {
        DockCommand::Unknown
    }
}

/// Whether the auto-hide scheduled by push number `scheduled` still owns
/// the source: no newer push or manual toggle has happened since.
pub fn auto_hide_due(current: u64, scheduled: u64) -> (res: bool)
    ensures
        res == (current == scheduled),
{
    current == scheduled
}

impl ObsAction {
    /// The request that performs this step (`None` for the pause).
    pub fn request(&self) -> (res: Option<ObsRequest>)
        ensures
            (self@ is Settle) <==> res is None,
            self@ matches ActionView::SetItemEnabled(scene, id, enabled) ==> res matches Some(r)
                && r.request_type@ == "SetSceneItemEnabled"@ && r.data@ == set_enabled_json(
                scene,
                id,
                enabled,
            ),
            self@ matches ActionView::SetInputFile(input, path) ==> res matches Some(r)
                && r.request_type@ == "SetInputSettings"@ && r.data@ == input_file_json(input, path),
            self@ matches ActionView::RestartMedia(input) ==> res matches Some(r) && r.request_type@
                == "TriggerMediaInputAction"@ && r.data@ == restart_json(input),
    {
        match self {
            ObsAction::SetItemEnabled { scene, item_id, enabled } => Some(
                ObsRequest::set_scene_item_enabled(scene.as_str(), *item_id, *enabled),
            ),
            ObsAction::SetInputFile { input, path } => Some(
                ObsRequest::set_input_file(input.as_str(), path.as_str()),
            ),
            ObsAction::RestartMedia { input } => Some(ObsRequest::restart_media(input.as_str())),
            ObsAction::Settle => None,
        }
    }
}

pub open spec fn export_prefix() -> Seq<char> {
    "replaytrim_"@
}

pub open spec fn export_suffix() -> Seq<char> {
    ".mp4"@
}

/// The file name of an export made at `stamp` (seconds since the epoch).
pub open spec fn export_name(stamp: u64) -> Seq<char> {
    export_prefix() + decimal(stamp as nat) + export_suffix()
}

pub fn export_file_name(stamp: u64) -> (res: String)
    ensures
        res@ == export_name(stamp),
{
    let mut s = "replaytrim_".to_owned();
    push_decimal(&mut s, stamp);
    push_str(&mut s, ".mp4");
    s
}

/// A file this app exported: `replaytrim_*.mp4`, or the fixed name older
/// versions used.
pub open spec fn is_export_name(name: Seq<char>) -> bool {
    (has_prefix(name, export_prefix()) && has_suffix(name, export_suffix())) || name
        == "current_replay.mp4"@
}

pub fn is_export_file(name: &str) -> (res: bool)
    ensures
        res == is_export_name(name@),
{
    let cs = chars_of(name);
    let prefix = chars_of("replaytrim_");
    let suffix = chars_of(".mp4");
    (starts_with(&cs, &prefix) && ends_with(&cs, &suffix)) || str_eq(name, "current_replay.mp4")
}

/// Whether a file next to a new export is an older export to clean up:
/// one of ours, and not the export just written.
pub fn is_stale_export(name: &str, is_new_export: bool) -> (res: bool)
    ensures
        res == (is_export_name(name@) && !is_new_export),
{
    is_export_file(name) && !is_new_export
}

/// Every export this app writes is recognized as one of its exports, so the
/// next export cleans it up.
pub proof fn law_exports_are_recognized(stamp: u64)
    ensures
        is_export_name(export_name(stamp)),
{
    let n = export_name(stamp);
    assert(n.take(export_prefix().len() as int) =~= export_prefix());
    assert(n.skip(n.len() - export_suffix().len()) =~= export_suffix());
}

} // verus!
