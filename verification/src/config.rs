//! The configuration of the command-line tool, and where it is kept.

use vstd::prelude::*;

use crate::asr::FilePath;

verus! {

/// The configuration.
#[derive(Debug, Clone)]
pub struct Config {
    pub audio: AudioConfig,
    pub hotkey: HotkeyConfig,
    pub whisper: WhisperConfig,
    pub llm: LlmConfig,
    pub processing: ProcessingConfig,
}

#[derive(Debug, Clone)]
pub struct AudioConfig {
    pub input_device: Option<String>,
    pub sample_rate: u32,
}

#[derive(Debug, Clone)]
pub struct HotkeyConfig {
    pub key: Option<String>,
    pub modifiers: Option<String>,
    pub activation_mode: ActivationMode,
}

/// How a hotkey governs a recording.
#[derive(Debug, Clone, Copy, PartialEq, Eq, Structural)]
pub enum ActivationMode {
    /// The recording lasts while the hotkey is held.
    Hold,
    /// Each press starts or ends a recording.
    Toggle,
}

#[derive(Debug, Clone)]
pub struct WhisperConfig {
    pub model_name: String,
    pub model_path: Option<String>,
    pub num_threads: u32,
}

#[derive(Debug, Clone)]
pub struct LlmConfig {
    pub enabled: bool,
    pub provider_id: Option<String>,
    pub base_url: Option<String>,
    pub api_key: Option<String>,
    pub model: Option<String>,
    pub system_prompt: Option<String>,
}

#[derive(Debug, Clone)]
pub struct ProcessingConfig {
    pub fillers_enabled: bool,
    pub dictionary: Vec<DictionaryEntry>,
}

/// One dictionary entry: `from` is heard, `to` is written.
#[derive(Debug, Clone)]
pub struct DictionaryEntry {
    pub from: String,
    pub to: String,
}

/// The text is there and is `t`.
pub open spec fn is_text(s: Option<String>, t: Seq<char>) -> bool {
    s matches Some(v) && v@ == t
}

impl Config {
    /// The configuration before anyone has changed it: hold Alt+V to dictate with
    /// the smallest model, without fillers and without a language model.
    pub open spec fn is_default(self) -> bool {
        &&& self.audio.input_device is None
        &&& self.audio.sample_rate == 16000
        &&& is_text(self.hotkey.key, "V"@)
        &&& is_text(self.hotkey.modifiers, "Alt"@)
        &&& self.hotkey.activation_mode == ActivationMode::Hold
        &&& self.whisper.model_name@ == "tiny"@
        &&& self.whisper.model_path is None
        &&& self.whisper.num_threads == 4
        &&& !self.llm.enabled
        &&& self.llm.provider_id is None
        &&& self.llm.base_url is None
        &&& self.llm.api_key is None
        &&& self.llm.model is None
        &&& self.llm.system_prompt is None
        &&& self.processing.fillers_enabled
        &&& self.processing.dictionary@.len() == 0
    }
}

impl Default for Config {
    fn default() -> (c: Config)
        ensures
            c.is_default(),
    {
        Config {
            audio: AudioConfig { input_device: None, sample_rate: 16000 },
            hotkey: HotkeyConfig {
                key: Some("V".to_owned()),
                modifiers: Some("Alt".to_owned()),
                activation_mode: ActivationMode::Hold,
            },
            whisper: WhisperConfig {
                model_name: "tiny".to_owned(),
                model_path: None,
                num_threads: 4,
            },
            llm: LlmConfig {
                enabled: false,
                provider_id: None,
                base_url: None,
                api_key: None,
                model: None,
                system_prompt: None,
            },
            processing: ProcessingConfig { fillers_enabled: true, dictionary: Vec::new() },
        }
    }
}

impl Config {
    /// Loads the configuration: what the file holds, or the default where it
    /// cannot be read. The second part of the result tells whether the default is
    /// to be written, which is where there is no file yet.
    pub fn load(exists: bool, held: Option<Config>) -> (r: (Config, bool))
        ensures
            r.1 == !exists,
            match held {
                Some(c) => if exists {
                    r.0 == c
                } else {
                    r.0.is_default()
                },
                None => r.0.is_default(),
            },
    {
        if exists {
            match held {
                Some(c) => (c, false),
                None => (Config::default(), false),
            }
        } else {
            (Config::default(), true)
        }
    }

    /// The directory of the configuration: the one that the platform has for the
    /// project, else the current one.
    pub fn config_dir(project: Option<String>) -> (d: String)
        ensures
            d@ == (match project {
                Some(p) => p@,
                None => "."@,
            }),
    {
        match project {
            Some(p) => p,
            None => ".".to_owned(),
        }
    }

    /// The configuration file.
    pub fn config_path(project: Option<String>) -> (p: FilePath)
        ensures
            p.dir@ == (match project {
                Some(d) => d@,
                None => "."@,
            }),
            p.name@ == "config.toml"@,
    {
        FilePath { dir: Config::config_dir(project), name: "config.toml".to_owned() }
    }

    /// The directory for models, in the cache directory that the platform has for
    /// the project, else in the current one.
    pub fn model_cache_dir(cache: Option<String>) -> (p: FilePath)
        ensures
            p.dir@ == (match cache {
                Some(d) => d@,
                None => "."@,
            }),
            p.name@ == "models"@,
    {
        FilePath { dir: Config::config_dir(cache), name: "models".to_owned() }
    }
}

/// The configuration before anyone has changed it.
pub proof fn law_default_config(c: Config)
    requires
        c.is_default(),
    ensures
        c.audio.input_device is None,
        c.audio.sample_rate == crate::daemon::TARGET_RATE,
        c.hotkey.key matches Some(k) && k@ == "V"@,
        c.hotkey.modifiers matches Some(m) && m@ == "Alt"@,
        c.hotkey.activation_mode == ActivationMode::Hold,
        c.whisper.model_name@ == crate::asr::model_list()[0].name,
        c.whisper.model_path is None,
        c.whisper.num_threads == 4,
        c.llm.enabled == false,
        c.llm.provider_id is None,
        c.llm.base_url is None,
        c.llm.api_key is None,
        c.llm.model is None,
        c.llm.system_prompt is None,
        c.processing.fillers_enabled == true,
        c.processing.dictionary@ == Seq::<DictionaryEntry>::empty(),
{
    assert(c.processing.dictionary@ =~= Seq::<DictionaryEntry>::empty());
}

} // verus!
