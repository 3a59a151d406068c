//! What the platforms offer: input devices, audio capture, hotkeys and text
//! insertion.

use vstd::prelude::*;

use crate::audio::{AudioCapture, AudioError};
use crate::hotkey::{Hotkey, HotkeyError, HotkeyListener, NullHotkeyListener, WindowsHotkeyListener};
use crate::text::{joined, same_text, to_decimal};
use crate::typing::{
    InsertError, InsertPlan, InsertTarget, NullTextInserter, TextInserter, WindowsTextInserter,
};

verus! {

/// The platforms that the tool runs on.
#[derive(Debug, Clone, Copy, PartialEq, Eq, Structural)]
pub enum Platform {
    Windows,
    Linux,
}

/// How an input device delivers samples. Formats that are not taken in are known
/// by their name only.
#[derive(Debug)]
pub enum SampleFormat {
    F32,
    I16,
    U16,
    Other(String),
}

impl SampleFormat {
    pub open spec fn name(self) -> Seq<char> {
        match self {
            SampleFormat::F32 => "F32"@,
            SampleFormat::I16 => "I16"@,
            SampleFormat::U16 => "U16"@,
            SampleFormat::Other(name) => name@,
        }
    }

    pub open spec fn is_taken_in(self) -> bool {
        !(self is Other)
    }

    pub fn to_name(&self) -> (s: String)
        ensures
            s@ == self.name(),
    {
        match self {
            SampleFormat::F32 => "F32".to_owned(),
            SampleFormat::I16 => "I16".to_owned(),
            SampleFormat::U16 => "U16".to_owned(),
            SampleFormat::Other(name) => name.clone(),
        }
    }
}

/// The default input configuration of a device.
#[derive(Debug)]
pub struct InputConfig {
    pub rate: u32,
    pub channels: u16,
    pub format: SampleFormat,
}

/// What a device tells about itself; either part may be unavailable.
#[derive(Debug)]
pub struct DeviceReport {
    pub name: Option<String>,
    pub config: Option<InputConfig>,
}

/// The line for one device: "name  [rateHz, channelsch, format]".
pub open spec fn device_line(name: Seq<char>, config: InputConfig) -> Seq<char> {
    name + "  ["@ + crate::text::decimal(config.rate as nat) + "Hz, "@ + crate::text::decimal(
        config.channels as nat,
    ) + "ch, "@ + config.format.name() + "]"@
}

/// The lines for the devices that tell both their name and their configuration.
pub open spec fn device_lines(reports: Seq<DeviceReport>) -> Seq<Seq<char>>
    decreases reports.len(),
{
    if reports.len() == 0 {
        seq![]
    } else {
        let before = device_lines(reports.drop_last());
        match (reports.last().name, reports.last().config) {
            (Some(name), Some(config)) => before.push(device_line(name@, config)),
            _ => before,
        }
    }
}

/// The listing of the input devices, or the one line that says why there is none.
pub open spec fn device_listing(found: Result<Vec<DeviceReport>, String>) -> Seq<Seq<char>> {
    match found {
        Ok(reports) => {
            let lines = device_lines(reports@);
            if lines.len() == 0 {
                seq!["No input devices found"@]
            } else {
                lines
            }
        },
        Err(e) => seq!["Error: "@ + e@],
    }
}

fn write_device(name: &str, config: &InputConfig) -> (s: String)
    ensures
        s@ == device_line(name@, *config),
{
    let s = joined(name, "  [");
    let s = joined(s.as_str(), to_decimal(config.rate as u64).as_str());
    let s = joined(s.as_str(), "Hz, ");
    let s = joined(s.as_str(), to_decimal(config.channels as u64).as_str());
    let s = joined(s.as_str(), "ch, ");
    let s = joined(s.as_str(), config.format.to_name().as_str());
    joined(s.as_str(), "]")
}

/// Lists the input devices from what enumerating them gave.
pub fn list_devices(found: &Result<Vec<DeviceReport>, String>) -> (r: Vec<String>)
    ensures
        crate::pattern::views(r@) == device_listing(*found),
{
    let mut r: Vec<String> = Vec::new();
    match found {
        Ok(reports) => {
            assert(crate::pattern::views(r@) =~= device_lines(reports@.take(0)));
            for i in 0..reports.len()
                invariant
                    crate::pattern::views(r@) == device_lines(reports@.take(i as int)),
            {
                assert(reports@.take(i + 1).drop_last() =~= reports@.take(i as int));
                let ghost before = r@;
                if let Some(name) = &reports[i].name {
                    if let Some(config) = &reports[i].config {
                        let line = write_device(name.as_str(), config);
                        r.push(line);
                        assert(crate::pattern::views(r@) =~= crate::pattern::views(before).push(
                            line@,
                        ));
                    }
                }
            }
            assert(reports@.take(reports@.len() as int) =~= reports@);
            assert(crate::pattern::views(r@).len() == r.len());
            if r.len() == 0 {
                r.push("No input devices found".to_owned());
                assert(crate::pattern::views(r@) =~= seq!["No input devices found"@]);
            }
        },
        Err(e) => {
            r.push(joined("Error: ", e.as_str()));
            assert(crate::pattern::views(r@) =~= device_listing(*found));
        },
    }
    r
}

/// Lists the input devices of the platform.
pub fn list_input_devices(
    platform: Platform,
    found: &Result<Vec<DeviceReport>, String>,
) -> (r: Vec<String>)
    ensures
        platform == Platform::Windows ==> crate::pattern::views(r@) == device_listing(*found),
        platform == Platform::Linux ==> crate::pattern::views(r@) == seq![
            "Device listing only available on Windows"@,
        ],
{
    match platform {
        Platform::Windows => list_devices(found),
        Platform::Linux => {
            let mut r: Vec<String> = Vec::new();
            r.push("Device listing only available on Windows".to_owned());
            assert(crate::pattern::views(r@) =~= seq!["Device listing only available on Windows"@]);
            r
        },
    }
}

/// Which device to record from.
#[derive(Debug, Clone, Copy, PartialEq, Eq, Structural)]
pub enum DeviceChoice {
    /// The device at this position of the enumeration.
    Listed(usize),
    /// The default input device.
    Default,
}

/// The position of the first device with this name; a device that does not tell
/// its name is passed over.
pub open spec fn device_named(names: Seq<Option<String>>, id: Seq<char>) -> Option<int>
    decreases names.len(),
{
    if names.len() == 0 {
        None
    } else {
        match device_named(names.drop_last(), id) {
            Some(i) => Some(i),
            None => match names.last() {
                Some(n) if n@ == id => Some(names.len() - 1),
                _ => None,
            },
        }
    }
}

fn find_device(names: &Vec<Option<String>>, id: &str) -> (r: Option<usize>)
    ensures
        match r {
            Some(i) => device_named(names@, id@) == Some(i as int),
            None => device_named(names@, id@) is None,
        },
        r matches Some(i) ==> i < names.len(),
{
    for i in 0..names.len()
        invariant
            device_named(names@.take(i as int), id@) is None,
    {
        assert(names@.take(i + 1).drop_last() =~= names@.take(i as int));
        if let Some(n) = &names[i] {
            if same_text(n.as_str(), id) {
                proof {
                    lemma_named_early(names@, i + 1, id@);
                }
                return Some(i);
            }
        }
    }
    assert(names@.take(names@.len() as int) =~= names@);
    None
}

proof fn lemma_named_early(names: Seq<Option<String>>, n: int, id: Seq<char>)
    requires
        0 <= n <= names.len(),
        device_named(names.take(n), id) is Some,
    ensures
        device_named(names, id) == device_named(names.take(n), id),
    decreases names.len() - n,
{
    if n < names.len() {
        assert(names.take(n + 1).drop_last() =~= names.take(n));
        lemma_named_early(names, n + 1, id);
    } else {
        assert(names.take(n) =~= names);
    }
}

/// The device that is chosen has the name that was asked for, and no device
/// before it has.
pub proof fn law_chosen_device_is_named(names: Seq<Option<String>>, id: Seq<char>)
    ensures
        device_named(names, id) matches Some(i) ==> 0 <= i < names.len() && (names[i] matches Some(
            n,
        ) && n@ == id),
        forall|j: int|
            0 <= j < names.len() && (device_named(names, id) matches Some(i) ==> j < i) ==> !(
            #[trigger] names[j] matches Some(n) && n@ == id),
    decreases names.len(),
{
    if names.len() > 0 {
        let rest = names.drop_last();
        law_chosen_device_is_named(rest, id);
        assert forall|j: int|
            0 <= j < names.len() && (device_named(names, id) matches Some(i) ==> j < i) implies !(
        #[trigger] names[j] matches Some(n) && n@ == id) by {
            if j < rest.len() {
                assert(rest[j] == names[j]);
            }
        }
    }
}

/// Chooses the device to capture from: the one that is asked for by name, else
/// the default one. `names` is what enumerating the devices gives.
pub fn resolve_device(
    device_id: Option<&str>,
    names: &Result<Vec<Option<String>>, String>,
    has_default: bool,
) -> (r: Result<DeviceChoice, AudioError>)
    ensures
        match device_id {
            Some(id) => match *names {
                Err(e) => r matches Err(AudioError::Platform(m)) && m@ == "Enumerate devices: "@ + e@,
                Ok(list) => match device_named(list@, id@) {
                    Some(i) => r matches Ok(DeviceChoice::Listed(k)) && k == i,
                    None => r matches Err(AudioError::DeviceNotFound(m)) && m@ == id@,
                },
            },
            None => if has_default {
                r == Ok::<DeviceChoice, AudioError>(DeviceChoice::Default)
            } else {
                r == Err::<DeviceChoice, AudioError>(AudioError::NoDevice)
            },
        },
{
    match device_id {
        Some(id) => match names {
            Err(e) => Err(AudioError::Platform(joined("Enumerate devices: ", e.as_str()))),
            Ok(list) => match find_device(list, id) {
                Some(i) => Ok(DeviceChoice::Listed(i)),
                None => Err(AudioError::DeviceNotFound(id.to_owned())),
            },
        },
        None => if has_default {
            Ok(DeviceChoice::Default)
        } else {
            Err(AudioError::NoDevice)
        },
    }
}

/// Chooses the microphone for a dictation, with the messages that the user sees.
pub fn pick_microphone(
    mic: Option<&str>,
    names: &Result<Vec<Option<String>>, String>,
    has_default: bool,
) -> (r: Result<DeviceChoice, String>)
    ensures
        match mic {
            Some(name) => match *names {
                Err(e) => r matches Err(m) && m@ == e@,
                Ok(list) => match device_named(list@, name@) {
                    Some(i) => r matches Ok(DeviceChoice::Listed(k)) && k == i,
                    None => r matches Err(m) && m@ == "microphone '"@ + name@ + "' not found"@,
                },
            },
            None => if has_default {
                r == Ok::<DeviceChoice, String>(DeviceChoice::Default)
            } else {
                r matches Err(m) && m@ == "no microphone found"@
            },
        },
{
    match mic {
        Some(name) => match names {
            Err(e) => Err(e.clone()),
            Ok(list) => match find_device(list, name) {
                Some(i) => Ok(DeviceChoice::Listed(i)),
                None => {
                    let head = joined("microphone '", name);
                    Err(joined(head.as_str(), "' not found"))
                },
            },
        },
        None => if has_default {
            Ok(DeviceChoice::Default)
        } else {
            Err("no microphone found".to_owned())
        },
    }
}

/// Refuses the sample formats that a dictation cannot take in.
pub fn accept_format(format: &SampleFormat) -> (r: Result<(), String>)
    ensures
        r is Ok <==> format.is_taken_in(),
        r matches Err(m) ==> m@ == "unsupported sample format "@ + format.name(),
{
    match format {
        SampleFormat::Other(name) => Err(joined("unsupported sample format ", name.as_str())),
        _ => Ok(()),
    }
}

/// How a stream is set up.
#[derive(Debug, Clone, Copy, PartialEq, Eq, Structural)]
pub struct StreamConfig {
    pub rate: u32,
    pub channels: u16,
}

/// Audio capture: which device it uses, how its stream is set up, and whether it
/// runs. The stream itself is the platform's.
#[derive(Debug, Clone, Copy, PartialEq, Eq, Structural)]
pub struct WindowsAudioCapture {
    pub device: Option<DeviceChoice>,
    pub config: Option<StreamConfig>,
    pub running: bool,
}

/// The rate that is assumed before a stream is set up.
pub const DEFAULT_RATE: u32 = 48000;

impl WindowsAudioCapture {
    pub fn new() -> (c: WindowsAudioCapture)
        ensures
            c.device is None,
            c.config is None,
            !c.running,
    {
        WindowsAudioCapture { device: None, config: None, running: false }
    }

    /// The first step of a start: takes the device that was resolved.
    pub fn use_device(&mut self, resolved: Result<DeviceChoice, AudioError>) -> (r: Result<
        (),
        AudioError,
    >)
        ensures
            match resolved {
                Ok(device) => r is Ok && *final(self) == (WindowsAudioCapture {
                    device: Some(device),
                    ..*old(self)
                }),
                Err(e) => r == Err::<(), AudioError>(e) && *final(self) == *old(self),
            },
    {
        match resolved {
            Ok(device) => {
                self.device = Some(device);
                Ok(())
            },
            Err(e) => Err(e),
        }
    }

    /// The second step: takes the device's default configuration. The stream is
    /// set up by it even where its sample format is then refused.
    pub fn configure(&mut self, found: Result<InputConfig, String>) -> (r: Result<
        SampleFormat,
        AudioError,
    >)
        ensures
            match found {
                Err(e) => (r matches Err(AudioError::StreamError(m)) && m@ == "Default config: "@
                    + e@) && *final(self) == *old(self),
                Ok(config) => {
                    &&& *final(self) == (WindowsAudioCapture {
                        config: Some(
                            StreamConfig { rate: config.rate, channels: config.channels },
                        ),
                        ..*old(self)
                    })
                    &&& config.format.is_taken_in() ==> r == Ok::<SampleFormat, AudioError>(
                        config.format,
                    )
                    &&& !config.format.is_taken_in() ==> (r matches Err(
                        AudioError::StreamError(m),
                    ) && m@ == "Unsupported sample format: "@ + config.format.name())
                },
            },
    {
        match found {
            Err(e) => Err(AudioError::StreamError(joined("Default config: ", e.as_str()))),
            Ok(config) => {
                self.config = Some(StreamConfig { rate: config.rate, channels: config.channels });
                match config.format {
                    SampleFormat::Other(name) => Err(
                        AudioError::StreamError(
                            joined("Unsupported sample format: ", name.as_str()),
                        ),
                    ),
                    format => Ok(format),
                }
            },
        }
    }

    /// The last steps: the stream was built and set to play.
    pub fn started(&mut self, built: Result<(), String>, playing: Result<(), String>) -> (r: Result<
        (),
        AudioError,
    >)
        ensures
            match (built, playing) {
                (Err(e), _) => (r matches Err(AudioError::StreamError(m)) && m@ == "Build stream: "@
                    + e@) && *final(self) == *old(self),
                (Ok(_), Err(e)) => (r matches Err(AudioError::StreamError(m)) && m@
                    == "Play stream: "@ + e@) && *final(self) == *old(self),
                (Ok(_), Ok(_)) => r is Ok && *final(self) == (WindowsAudioCapture {
                    running: true,
                    ..*old(self)
                }),
            },
    {
        match (built, playing) {
            (Err(e), _) => Err(AudioError::StreamError(joined("Build stream: ", e.as_str()))),
            (Ok(_), Err(e)) => Err(AudioError::StreamError(joined("Play stream: ", e.as_str()))),
            (Ok(_), Ok(_)) => {
                self.running = true;
                Ok(())
            },
        }
    }
}

impl AudioCapture for WindowsAudioCapture {
    /// Lets go of the stream; a capture that does not run stays as it is.
    fn stop(&mut self) -> (r: Result<(), AudioError>)
        ensures
            r is Ok,
            *final(self) == (WindowsAudioCapture { running: false, ..*old(self) }),
    {
        self.running = false;
        Ok(())
    }

    /// The rate of the stream, or the assumed one.
    fn sample_rate(&self) -> (rate: u32)
        ensures
            rate == (match self.config {
                Some(c) => c.rate,
                None => DEFAULT_RATE,
            }),
    {
        match self.config {
            Some(c) => c.rate,
            None => DEFAULT_RATE,
        }
    }
}

/// Captures nothing.
#[derive(Debug, Clone, Copy, PartialEq, Eq, Structural)]
pub struct NullCapture;

impl AudioCapture for NullCapture {
    fn stop(&mut self) -> (r: Result<(), AudioError>)
        ensures
            r is Ok,
    {
        Ok(())
    }

    fn sample_rate(&self) -> (rate: u32)
        ensures
            rate == 16000,
    {
        16000
    }
}

/// The audio capture of a platform.
#[derive(Debug, Clone, Copy, PartialEq, Eq, Structural)]
pub enum PlatformAudioCapture {
    Windows(WindowsAudioCapture),
    Null(NullCapture),
}

/// The audio capture of the platform; on Windows it has no device yet.
pub fn create_audio_capture(platform: Platform) -> (c: PlatformAudioCapture)
    ensures
        c == (match platform {
            Platform::Windows => PlatformAudioCapture::Windows(
                WindowsAudioCapture { device: None, config: None, running: false },
            ),
            Platform::Linux => PlatformAudioCapture::Null(NullCapture),
        }),
{
    match platform {
        Platform::Windows => PlatformAudioCapture::Windows(WindowsAudioCapture::new()),
        Platform::Linux => PlatformAudioCapture::Null(NullCapture),
    }
}

/// The hotkey listener of a platform.
#[derive(Debug, Clone, Copy, PartialEq, Eq, Structural)]
pub enum PlatformHotkeyListener {
    Windows(WindowsHotkeyListener),
    Null(NullHotkeyListener),
}

impl HotkeyListener for PlatformHotkeyListener {
    fn register(&mut self, shortcut: Hotkey) -> (r: Result<(), HotkeyError>)
        ensures
            r is Ok,
            match *old(self) {
                PlatformHotkeyListener::Windows(l) => *final(self)
                    == PlatformHotkeyListener::Windows(
                    WindowsHotkeyListener { hotkey: Some(shortcut) },
                ),
                PlatformHotkeyListener::Null(l) => *final(self) == *old(self),
            },
    {
        match *self {
            PlatformHotkeyListener::Windows(l) => {
                let mut l = l;
                let r = l.register(shortcut);
                *self = PlatformHotkeyListener::Windows(l);
                r
            },
            PlatformHotkeyListener::Null(l) => Ok(()),
        }
    }
}

/// The hotkey listener of the platform; on Windows it has no hotkey yet.
pub fn create_hotkey_listener(platform: Platform) -> (l: PlatformHotkeyListener)
    ensures
        l == (match platform {
            Platform::Windows => PlatformHotkeyListener::Windows(
                WindowsHotkeyListener { hotkey: None },
            ),
            Platform::Linux => PlatformHotkeyListener::Null(NullHotkeyListener),
        }),
{
    match platform {
        Platform::Windows => PlatformHotkeyListener::Windows(WindowsHotkeyListener::new()),
        Platform::Linux => PlatformHotkeyListener::Null(NullHotkeyListener),
    }
}

/// The text inserter of a platform.
#[derive(Debug, Clone, Copy, PartialEq, Eq, Structural)]
pub enum PlatformTextInserter {
    Windows(WindowsTextInserter),
    Null(NullTextInserter),
}

impl TextInserter for PlatformTextInserter {
    fn insert(&self, text: &str, target: InsertTarget) -> (r: Result<InsertPlan, InsertError>)
        ensures
            match self {
                PlatformTextInserter::Windows(_) => match r {
                    Ok(plan) => text@.len() > 0 && plan.strokes@ == crate::typing::typed(
                        crate::typing::utf16(text@),
                    ) && plan.clipboard is None,
                    Err(e) => text@.len() == 0 && e == InsertError::EmptyText,
                },
                PlatformTextInserter::Null(_) => r matches Ok(plan) && plan.strokes@.len() == 0
                    && plan.clipboard is None,
            },
    {
        match self {
            PlatformTextInserter::Windows(i) => i.insert(text, target),
            PlatformTextInserter::Null(i) => i.insert(text, target),
        }
    }

    fn insert_with_fallback(&self, text: &str) -> (r: Result<InsertPlan, InsertError>)
        ensures
            match self {
                PlatformTextInserter::Windows(_) => match r {
                    Ok(plan) => text@.len() > 0 && plan.strokes@ == crate::typing::typed(
                        crate::typing::utf16(text@),
                    ) && (plan.clipboard matches Some(c) && c.units@ == crate::typing::utf16(text@)
                        && c.strokes@ == crate::typing::paste_chord()),
                    Err(e) => text@.len() == 0 && e == InsertError::EmptyText,
                },
                PlatformTextInserter::Null(_) => r matches Ok(plan) && plan.strokes@.len() == 0
                    && plan.clipboard is None,
            },
    {
        match self {
            PlatformTextInserter::Windows(i) => i.insert_with_fallback(text),
            PlatformTextInserter::Null(i) => i.insert_with_fallback(text),
        }
    }
}

/// The text inserter of the platform.
pub fn create_text_inserter(platform: Platform) -> (i: PlatformTextInserter)
    ensures
        i == (match platform {
            Platform::Windows => PlatformTextInserter::Windows(WindowsTextInserter),
            Platform::Linux => PlatformTextInserter::Null(NullTextInserter),
        }),
{
    match platform {
        Platform::Windows => PlatformTextInserter::Windows(WindowsTextInserter),
        Platform::Linux => PlatformTextInserter::Null(NullTextInserter),
    }
}

/// The formats that are taken in, and their names.
pub proof fn law_sample_formats(other: String)
    ensures
        SampleFormat::F32.is_taken_in() && SampleFormat::F32.name() == "F32"@,
        SampleFormat::I16.is_taken_in() && SampleFormat::I16.name() == "I16"@,
        SampleFormat::U16.is_taken_in() && SampleFormat::U16.name() == "U16"@,
        !SampleFormat::Other(other).is_taken_in() && SampleFormat::Other(other).name() == other@,
        DEFAULT_RATE == 48_000,
{
}

/// Each device that tells its name and its configuration has a line of its own, in
/// the order of the devices; any other device has none.
pub proof fn law_devices_are_listed_in_order(
    a: Seq<DeviceReport>,
    b: Seq<DeviceReport>,
    report: DeviceReport,
)
    ensures
        device_lines(a + b) == device_lines(a) + device_lines(b),
        report.name is None || report.config is None ==> device_lines(seq![report])
            == Seq::<Seq<char>>::empty(),
        report.name matches Some(name) ==> (report.config matches Some(config) ==> device_lines(
            seq![report],
        ) == seq![device_line(name@, config)]),
    decreases b.len(),
{
    reveal_with_fuel(device_lines, 2);
    assert(seq![report].drop_last() =~= Seq::<DeviceReport>::empty());
    if let Some(name) = report.name {
        if let Some(config) = report.config {
            assert(device_lines(seq![report]) =~= seq![device_line(name@, config)]);
        }
    }
    if b.len() == 0 {
        assert(a + b =~= a);
        assert(device_lines(a) + device_lines(b) =~= device_lines(a));
    } else {
        law_devices_are_listed_in_order(a, b.drop_last(), report);
        assert((a + b).drop_last() =~= a + b.drop_last());
        assert(device_lines(a + b) =~= device_lines(a) + device_lines(b));
    }
}

/// A line tells the name of the device, and in brackets its rate, its channels and
/// its format.
pub proof fn law_line_of_a_device(name: Seq<char>, rate: u32, channels: u16)
    ensures
        device_line(name, InputConfig { rate, channels, format: SampleFormat::I16 }) == name + "  ["@
            + crate::text::decimal(rate as nat) + "Hz, "@ + crate::text::decimal(channels as nat)
            + "ch, "@ + "I16"@ + "]"@,
{
}

/// Where there is nothing to list, one line says why.
pub proof fn law_empty_listing(found: Result<Vec<DeviceReport>, String>)
    ensures
        found matches Err(e) ==> device_listing(found) == seq!["Error: "@ + e@],
        found matches Ok(reports) ==> device_lines(reports@).len() == 0 ==> device_listing(found)
            == seq!["No input devices found"@],
        found matches Ok(reports) ==> device_lines(reports@).len() > 0 ==> device_listing(found)
            == device_lines(reports@),
        device_listing(found).len() > 0,
{
}

} // verus!
