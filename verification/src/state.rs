//! What the application remembers between requests: the clip library, the
//! overlay page's command channel, and OBS's scene list.
use vstd::prelude::*;
use crate::json::{Json, JsonValue};
use crate::obs::{entries_view, entry, object, scene_list_from, scene_names, array_or_empty, strings_view};
use crate::text::str_eq;

verus! {

/// One entry in the clip library (raw grab or trimmed export).
#[derive(Debug, PartialEq)]
pub struct ClipEntry {
    pub path: String,
    /// "grab" | "trim"
    pub kind: String,
    pub saved_at_epoch: u64,
    /// The clip's length in seconds, as the bit pattern of an `f64`.
    pub duration_bits: u64,
}

/// The view of a clip entry.
pub struct ClipView {
    pub path: Seq<char>,
    pub kind: Seq<char>,
    pub saved_at_epoch: u64,
    pub duration_bits: u64,
}

impl View for ClipEntry {
    type V = ClipView;

    open spec fn view(&self) -> ClipView {
        ClipView {
            path: self.path@,
            kind: self.kind@,
            saved_at_epoch: self.saved_at_epoch,
            duration_bits: self.duration_bits,
        }
    }
}

/// The views of a list of clips.
pub open spec fn clips_view(s: Seq<ClipEntry>) -> Seq<ClipView> {
    Seq::new(s.len(), |i: int| s[i]@)
}

impl ClipEntry {
    pub fn duplicate(&self) -> (res: ClipEntry)
        ensures
            res@ == self@,
    {
        ClipEntry {
            path: self.path.clone(),
            kind: self.kind.clone(),
            saved_at_epoch: self.saved_at_epoch,
            duration_bits: self.duration_bits,
        }
    }
}

/// The clips that still exist on disk, in the order given; each clip
/// comes paired with whether its file exists.
pub open spec fn existing_clips(s: Seq<(ClipView, bool)>) -> Seq<ClipView>
    decreases s.len(),
{
    if s.len() == 0 {
        Seq::empty()
    } else if s.last().1 {
        existing_clips(s.drop_last()).push(s.last().0)
    } else {
        existing_clips(s.drop_last())
    }
}

/// Keeping the existing clips of a library split in two keeps those of each
/// part, one part after the other; a single clip is kept exactly when its
/// file exists. Together: the kept clips are those paired with `true`, each
/// once, in their order.
pub proof fn law_existing_clips(
    a: Seq<(ClipView, bool)>,
    b: Seq<(ClipView, bool)>,
    clip: ClipView,
    present: bool,
)
    ensures
        existing_clips(a + b) == existing_clips(a) + existing_clips(b),
        existing_clips(seq![(clip, present)]) == if present {
            seq![clip]
        } else {
            Seq::<ClipView>::empty()
        },
    decreases b.len(),
{
    if b.len() == 0 {
        assert(a + b =~= a);
        assert(existing_clips(a) + existing_clips(b) =~= existing_clips(a));
    } else {
        law_existing_clips(a, b.drop_last(), clip, present);
        assert((a + b).drop_last() =~= a + b.drop_last());
        assert((a + b).last() == b.last());
        assert(existing_clips(a + b) =~= existing_clips(a) + existing_clips(b));
    }
    let one = seq![(clip, present)];
    assert(one.drop_last() =~= Seq::<(ClipView, bool)>::empty());
    assert(one.last() == (clip, present));
    assert(existing_clips(one.drop_last()) == Seq::<ClipView>::empty());
    assert(Seq::<ClipView>::empty().push(clip) =~= seq![clip]);
    assert(existing_clips(seq![(clip, present)]) =~= if present {
        seq![clip]
    } else {
        Seq::<ClipView>::empty()
    });
}

pub open spec fn checked_view(s: Seq<(ClipEntry, bool)>) -> Seq<(ClipView, bool)> {
    Seq::new(s.len(), |i: int| (s[i].0@, s[i].1))
}

/// Drops the clips whose file no longer exists.
pub fn keep_existing(checked: Vec<(ClipEntry, bool)>) -> (res: Vec<ClipEntry>)
    ensures
        clips_view(res@) == existing_clips(checked_view(checked@)),
{
    let ghost all = checked_view(checked@);
    let mut res: Vec<ClipEntry> = Vec::new();
    let mut i: usize = 0;
    while i < checked.len()
        invariant
            i <= checked@.len(),
            all == checked_view(checked@),
            clips_view(res@) == existing_clips(all.take(i as int)),
        decreases checked@.len() - i,
    {
        let ghost prev = res@;
        if checked[i].1 {
            res.push(checked[i].0.duplicate());
        }
        proof {
            assert(all.take(i + 1).drop_last() =~= all.take(i as int));
            assert(all.take(i + 1).last() == all[i as int]);
            assert(clips_view(res@) =~= existing_clips(all.take(i + 1)));
        }
        i = i + 1;
    }
    assert(all.take(checked@.len() as int) =~= all);
    res
}

/// The clip library as the dock lists it: newest first, existing files only.
pub fn newest_existing_first(checked: Vec<(ClipEntry, bool)>) -> (res: Vec<ClipEntry>)
    ensures
        clips_view(res@) == existing_clips(checked_view(checked@)).reverse(),
{
    let kept = keep_existing(checked);
    let ghost k = clips_view(kept@);
    let mut res: Vec<ClipEntry> = Vec::new();
    let mut i: usize = kept.len();
    while i > 0
        invariant
            i <= kept@.len(),
            k == clips_view(kept@),
            clips_view(res@) =~= k.skip(i as int).reverse(),
        decreases i,
    {
        i = i - 1;
        let ghost prev = res@;
        res.push(kept[i].duplicate());
        proof {
            assert(k.skip(i as int).reverse() =~= k.skip(i + 1).reverse().push(k[i as int]));
            assert(clips_view(res@) =~= clips_view(prev).push(kept@[i as int]@));
        }
    }
    assert(k.skip(0) =~= k);
    res
}

/// The library without any clip at `path`, the others in their order.
pub open spec fn without_path(s: Seq<ClipView>, path: Seq<char>) -> Seq<ClipView> {
    s.filter(|c: ClipView| c.path != path)
}

proof fn lemma_filter_keeps_all(s: Seq<ClipView>, p: spec_fn(ClipView) -> bool)
    requires
        forall|i: int| 0 <= i < s.len() ==> p(#[trigger] s[i]),
    ensures
        s.filter(p) == s,
    decreases s.len(),
{
    reveal_with_fuel(Seq::filter, 1);
    if s.len() > 0 {
        let d = s.drop_last();
        assert forall|i: int| 0 <= i < d.len() implies p(#[trigger] d[i]) by {
            assert(d[i] == s[i]);
        }
        lemma_filter_keeps_all(d, p);
        assert(p(s[s.len() - 1]));
        assert(d.push(s.last()) =~= s);
    } else {
        assert(s.filter(p) =~= s);
    }
}

/// After a removal no clip at `path` is left, every other clip stays in its
/// order, and removing again changes nothing.
pub proof fn law_remove_clip(s: Seq<ClipView>, path: Seq<char>)
    ensures
        forall|i: int| 0 <= i < without_path(s, path).len() ==> #[trigger] without_path(s, path)[i].path != path,
        without_path(without_path(s, path), path) == without_path(s, path),
        forall|i: int| 0 <= i < s.len() && s[i].path != path ==> #[trigger] without_path(s, path).contains(s[i]),
{
    let p = |c: ClipView| c.path != path;
    assert forall|i: int| 0 <= i < without_path(s, path).len() implies #[trigger] without_path(
        s,
        path,
    )[i].path != path by {
        s.lemma_filter_pred(p, i);
    }
    let w = without_path(s, path);
    assert forall|i: int| 0 <= i < w.len() implies p(w[i]) by {
        s.lemma_filter_pred(p, i);
    }
    lemma_filter_keeps_all(w, p);
    assert forall|i: int| 0 <= i < s.len() && s[i].path != path implies #[trigger] w.contains(s[i]) by {
        s.lemma_filter_contains(p, i);
    }
}

/// Removes every clip at `path` from the library.
pub fn remove_clip(clips: &mut Vec<ClipEntry>, path: &str)
    ensures
        clips_view(final(clips)@) == without_path(clips_view(old(clips)@), path@),
{
    let ghost before = clips_view(clips@);
    let mut kept: Vec<ClipEntry> = Vec::new();
    let mut i: usize = 0;
    while i < clips.len()
        invariant
            i <= clips@.len(),
            before == clips_view(clips@),
            clips_view(kept@) == without_path(before.take(i as int), path@),
        decreases clips@.len() - i,
    {
        let ghost prev = kept@;
        if !str_eq(clips[i].path.as_str(), path) {
            kept.push(clips[i].duplicate());
        }
        proof {
            reveal_with_fuel(Seq::filter, 1);
            assert(before.take(i + 1).drop_last() =~= before.take(i as int));
            assert(clips_view(kept@) =~= without_path(before.take(i + 1), path@));
        }
        i = i + 1;
    }
    assert(before.take(clips@.len() as int) =~= before);
    *clips = kept;
}

/// Whether the library holds a clip at `path`.
pub fn library_has(clips: &Vec<ClipEntry>, path: &str) -> (res: bool)
    ensures
        res == exists|i: int| 0 <= i < clips@.len() && #[trigger] clips@[i].path@ == path@,
{
    let mut i: usize = 0;
    while i < clips.len()
        invariant
            i <= clips@.len(),
            forall|j: int| 0 <= j < i ==> #[trigger] clips@[j].path@ != path@,
        decreases clips@.len() - i,
    {
        if str_eq(clips[i].path.as_str(), path) {
            return true;
        }
        i = i + 1;
    }
    false
}

/// OBS's scenes and the current program scene.
#[derive(Debug, PartialEq)]
pub struct SceneList {
    pub scenes: Vec<String>,
    pub current: String,
}

impl SceneList {
    /// The scene list of a `GetSceneList` reply.
    pub fn from_reply(data: &JsonValue) -> (res: SceneList)
        ensures
            strings_view(res.scenes@) == scene_names(array_or_empty(data@.at("scenes"@))),
            res.current@ == data@.at("currentProgramSceneName"@).str_or_empty(),
    {
        let (scenes, current) = scene_list_from(data);
        SceneList { scenes, current }
    }
}

/// What the on-stream overlay page should be showing. The page polls the
/// state and reacts to generation changes.
#[derive(Debug, PartialEq)]
pub struct OverlayState {
    pub clip_path: Option<String>,
    pub generation: u64,
    /// Command channel to the overlay page: bump cmd_seq and set cmd
    /// ("replay" | "pause" | "hide"); the page applies each new seq once.
    pub cmd_seq: u64,
    pub cmd: Option<String>,
    /// Bumped on every successful grab so docks can auto-load the new clip
    /// into their trim editor.
    pub grab_seq: u64,
    pub last_grab: Option<String>,
}

pub open spec fn opt_text(o: Option<String>) -> Option<Seq<char>> {
    match o {
        Some(s) => Some(s@),
        None => None,
    }
}

/// `json!` of an optional string: the string, or `null`.
pub open spec fn opt_json(o: Option<Seq<char>>) -> Json {
    match o {
        Some(s) => Json::Str(s),
        None => Json::Null,
    }
}

/// What the overlay page reads from the state endpoint.
pub open spec fn overlay_state_json(s: OverlayState) -> Json {
    Json::Object(
        seq![
            ("generation"@, Json::Int(s.generation as int)),
            ("hasClip"@, Json::Bool(s.clip_path is Some)),
            ("cmdSeq"@, Json::Int(s.cmd_seq as int)),
            ("cmd"@, opt_json(opt_text(s.cmd))),
            ("grabSeq"@, Json::Int(s.grab_seq as int)),
            ("lastGrab"@, opt_json(opt_text(s.last_grab))),
        ],
    )
}

fn opt_string_json(o: &Option<String>) -> (res: JsonValue)
    ensures
        res@ == opt_json(opt_text(*o)),
{
    match o {
        Some(s) => JsonValue::Str(s.clone()),
        None => JsonValue::Null,
    }
}

impl OverlayState {
    /// Nothing loaded, no command or grab yet.
    pub fn new() -> (res: OverlayState)
        ensures
            res.clip_path is None,
            res.generation == 0,
            res.cmd_seq == 0,
            res.cmd is None,
            res.grab_seq == 0,
            res.last_grab is None,
    {
        OverlayState {
            clip_path: None,
            generation: 0,
            cmd_seq: 0,
            cmd: None,
            grab_seq: 0,
            last_grab: None,
        }
    }

    /// Sends `cmd` to the overlay page under a new sequence number.
    pub fn issue_command(&mut self, cmd: &str)
        requires
            old(self).cmd_seq < u64::MAX,
        ensures
            final(self).cmd_seq == old(self).cmd_seq + 1,
            opt_text(final(self).cmd) == Some(cmd@),
            final(self).clip_path == old(self).clip_path,
            final(self).generation == old(self).generation,
            final(self).grab_seq == old(self).grab_seq,
            final(self).last_grab == old(self).last_grab,
    {
        self.cmd_seq = self.cmd_seq + 1;
        self.cmd = Some(cmd.to_owned());
    }

    /// Records a successful grab of `path`.
    pub fn record_grab(&mut self, path: &str)
        requires
            old(self).grab_seq < u64::MAX,
        ensures
            final(self).grab_seq == old(self).grab_seq + 1,
            opt_text(final(self).last_grab) == Some(path@),
            final(self).clip_path == old(self).clip_path,
            final(self).generation == old(self).generation,
            final(self).cmd_seq == old(self).cmd_seq,
            final(self).cmd == old(self).cmd,
    {
        self.grab_seq = self.grab_seq + 1;
        self.last_grab = Some(path.to_owned());
    }

    /// Loads the clip at `path` into the overlay page under a new generation.
    pub fn load_clip(&mut self, path: &str)
        requires
            old(self).generation < u64::MAX,
        ensures
            final(self).generation == old(self).generation + 1,
            opt_text(final(self).clip_path) == Some(path@),
            final(self).cmd_seq == old(self).cmd_seq,
            final(self).cmd == old(self).cmd,
            final(self).grab_seq == old(self).grab_seq,
            final(self).last_grab == old(self).last_grab,
    {
        self.generation = self.generation + 1;
        self.clip_path = Some(path.to_owned());
    }

    /// The state the overlay page and the docks poll.
    pub fn to_json(&self) -> (res: JsonValue)
        ensures
            res@ == overlay_state_json(*self),
    {
        let members = vec![
            entry("generation", JsonValue::Int(self.generation as i128)),
            entry("hasClip", JsonValue::Bool(self.clip_path.is_some())),
            entry("cmdSeq", JsonValue::Int(self.cmd_seq as i128)),
            entry("cmd", opt_string_json(&self.cmd)),
            entry("grabSeq", JsonValue::Int(self.grab_seq as i128)),
            entry("lastGrab", opt_string_json(&self.last_grab)),
        ];
        let ghost expected = match overlay_state_json(*self) {
            Json::Object(ms) => ms,
            _ => Seq::empty(),
        };
        assert(entries_view(members@) =~= expected);
        object(members)
    }
}

} // verus!
