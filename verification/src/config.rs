//! The application's settings and their defaults.
use vstd::prelude::*;
use crate::text::str_eq;

verus! {

/// What the user configures: where OBS is, what plays the clips, and the
/// hotkeys.
#[derive(Debug, PartialEq)]
pub struct Config {
    pub obs_host: String,
    pub obs_port: u16,
    pub obs_password: String,
    pub target_source: String,
    /// "overlay" (browser-source overlay player) or "media_source".
    pub target_kind: String,
    pub grab_hotkey: String,
    /// Optional extra keybinds; empty string = unbound.
    pub instant_hotkey: String,
    pub replay_hotkey: String,
    pub hide_hotkey: String,
    pub overlay_port: u16,
    /// How many clip rows the dock lists show before internal scrolling.
    pub clip_list_limit: u32,
}

pub fn default_host() -> (res: String)
    ensures
        res@ == "localhost"@,
{
    "localhost".to_owned()
}

pub fn default_port() -> (res: u16)
    ensures
        res == 4455,
{
    4455
}

pub fn default_hotkey() -> (res: String)
    ensures
        res@ == "CommandOrControl+Shift+R"@,
{
    "CommandOrControl+Shift+R".to_owned()
}

pub fn default_target_kind() -> (res: String)
    ensures
        res@ == "media_source"@,
{
    "media_source".to_owned()
}

pub fn default_overlay_port() -> (res: u16)
    ensures
        res == 8930,
{
    8930
}

pub fn default_clip_list_limit() -> (res: u32)
    ensures
        res == 5,
{
    5
}

impl Config {
    /// The settings of a fresh installation.
    pub open spec fn is_default(&self) -> bool {
        &&& self.obs_host@ == "localhost"@
        &&& self.obs_port == 4455
        &&& self.obs_password@ == Seq::<char>::empty()
        &&& self.target_source@ == Seq::<char>::empty()
        &&& self.target_kind@ == "media_source"@
        &&& self.grab_hotkey@ == "CommandOrControl+Shift+R"@
        &&& self.instant_hotkey@ == Seq::<char>::empty()
        &&& self.replay_hotkey@ == Seq::<char>::empty()
        &&& self.hide_hotkey@ == Seq::<char>::empty()
        &&& self.overlay_port == 8930
        &&& self.clip_list_limit == 5
    }

    /// Whether clips are sent to a linked OBS source at all.
    pub fn is_linked(&self) -> (res: bool)
        ensures
            res == (self.target_source@.len() > 0),
    {
        !self.target_source.as_str().is_empty()
    }

    /// Whether trimmed clips play through the overlay page rather than a
    /// Media Source.
    pub fn plays_through_overlay(&self) -> (res: bool)
        ensures
            res == (self.target_kind@ == "overlay"@),
    {
        str_eq(self.target_kind.as_str(), "overlay")
    }

    /// A copy of these settings.
    pub fn duplicate(&self) -> (res: Config)
        ensures
            res == *self,
    {
        Config {
            obs_host: self.obs_host.clone(),
            obs_port: self.obs_port,
            obs_password: self.obs_password.clone(),
            target_source: self.target_source.clone(),
            target_kind: self.target_kind.clone(),
            grab_hotkey: self.grab_hotkey.clone(),
            instant_hotkey: self.instant_hotkey.clone(),
            replay_hotkey: self.replay_hotkey.clone(),
            hide_hotkey: self.hide_hotkey.clone(),
            overlay_port: self.overlay_port,
            clip_list_limit: self.clip_list_limit,
        }
    }
}

impl Default for Config {
    fn default() -> (res: Config)
        ensures
            res.is_default(),
    {
        Config {
            obs_host: default_host(),
            obs_port: default_port(),
            obs_password: String::new(),
            target_source: String::new(),
            target_kind: default_target_kind(),
            grab_hotkey: default_hotkey(),
            instant_hotkey: String::new(),
            replay_hotkey: String::new(),
            hide_hotkey: String::new(),
            overlay_port: default_overlay_port(),
            clip_list_limit: default_clip_list_limit(),
        }
    }
}

} // verus!
