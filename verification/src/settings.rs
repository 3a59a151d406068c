//! The settings of the desktop tool, and what follows from them.

use vstd::prelude::*;

use crate::text::{same_text, to_chars, trim};

verus! {

/// The settings.
#[derive(Debug, Clone)]
pub struct Config {
    pub engine: String,
    pub mic: Option<String>,
    pub groq_key: Option<String>,
    pub autostart: bool,
    pub theme: String,
    pub remove_fillers: bool,
    pub hotkey: String,
    pub mode: String,
}

impl Config {
    /// The settings before anyone has changed them.
    pub open spec fn is_default(self) -> bool {
        &&& self.engine@ == "auto"@
        &&& self.mic is None
        &&& self.groq_key is None
        &&& !self.autostart
        &&& self.theme@ == "light"@
        &&& !self.remove_fillers
        &&& self.hotkey@ == "ctrl_win"@
        &&& self.mode@ == "hold"@
    }

    /// What the settings file holds, or the default where there is none that can
    /// be read.
    pub fn load(held: Option<Config>) -> (c: Config)
        ensures
            held matches Some(h) ==> c == h,
            held is None ==> c.is_default(),
    {
        match held {
            Some(h) => h,
            None => Config::default(),
        }
    }

    /// Whether a press of the hotkey toggles a recording.
    pub fn toggles(&self) -> (b: bool)
        ensures
            b == (self.mode@ == "toggle"@),
    {
        same_text(self.mode.as_str(), "toggle")
    }
}

impl Default for Config {
    fn default() -> (c: Config)
        ensures
            c.is_default(),
    {
        Config {
            engine: "auto".to_owned(),
            mic: None,
            groq_key: None,
            autostart: false,
            theme: "light".to_owned(),
            remove_fillers: false,
            hotkey: "ctrl_win".to_owned(),
            mode: "hold".to_owned(),
        }
    }
}

/// What saving the settings does to the entry that starts the tool with the
/// system.
#[derive(Debug, Clone, Copy, PartialEq, Eq, Structural)]
pub enum AutostartChange {
    Enable,
    Disable,
    Keep,
}

/// The entry is changed only where it differs from what is wanted.
pub fn autostart_change(wanted: bool, enabled: bool) -> (c: AutostartChange)
    ensures
        c == AutostartChange::Enable <==> wanted && !enabled,
        c == AutostartChange::Disable <==> !wanted && enabled,
        c == AutostartChange::Keep <==> wanted == enabled,
        autostart_after(enabled, c) == wanted,
{
    if wanted && !enabled {
        AutostartChange::Enable
    } else if !wanted && enabled {
        AutostartChange::Disable
    } else {
        AutostartChange::Keep
    }
}

/// Whether the entry is there after a change.
pub open spec fn autostart_after(enabled: bool, change: AutostartChange) -> bool {
    match change {
        AutostartChange::Enable => true,
        AutostartChange::Disable => false,
        AutostartChange::Keep => enabled,
    }
}

/// Where the app's data directory is unknown, nothing can be stored.
pub open spec fn no_data_dir() -> Seq<char> {
    "no app data dir"@
}

/// The directory to store in.
pub fn data_dir(dir: Option<String>) -> (r: Result<String, String>)
    ensures
        match dir {
            Some(d) => r == Ok::<String, String>(d),
            None => r matches Err(m) && m@ == no_data_dir(),
        },
{
    match dir {
        Some(d) => Ok(d),
        None => Err("no app data dir".to_owned()),
    }
}

/// The key for the cloud service: that of the settings unless it is blank, else
/// that of the environment.
pub fn choose_key(setting: Option<String>, environment: Option<String>) -> (r: Result<
    String,
    String,
>)
    ensures
        match setting {
            Some(k) if !crate::text::is_blank(k@) => r == Ok::<String, String>(k),
            _ => match environment {
                Some(k) => r == Ok::<String, String>(k),
                None => r matches Err(m) && m@
                    == "no Groq API key set (Settings \u{2192} Groq API key)"@,
            },
        },
{
    if let Some(k) = setting {
        if to_chars(trim(k.as_str()).as_str()).len() > 0 {
            return Ok(k);
        }
    }
    match environment {
        Some(k) => Ok(k),
        None => Err("no Groq API key set (Settings \u{2192} Groq API key)".to_owned()),
    }
}

/// The settings before anyone has changed them: both engines, the default
/// microphone, Control and Win held to dictate, and fillers kept.
pub proof fn law_default_settings(c: Config)
    ensures
        c.is_default() <==> c.engine@ == "auto"@ && c.mic is None && c.groq_key is None
            && c.autostart == false && c.theme@ == "light"@ && c.remove_fillers == false
            && c.hotkey@ == "ctrl_win"@ && c.mode@ == "hold"@,
        no_data_dir() == "no app data dir"@,
{
}

} // verus!
