//! Speech recognition: models and their files, the checks before a
//! transcription, and how a transcript is put together.

use vstd::prelude::*;

use crate::daemon::{is_long_enough, MIN_SAMPLES};
use crate::text::{joined, same_text, to_chars, to_decimal};

verus! {

/// Why speech could not be recognised.
#[derive(Debug, Clone)]
pub enum AsrError {
    NotLoaded,
    ModelNotFound(String),
    TranscriptionFailed(String),
    AudioTooShort(usize),
    DownloadFailed(String),
    Io(String),
}

impl AsrError {
    /// The text of the error.
    pub open spec fn text(self) -> Seq<char> {
        match self {
            AsrError::NotLoaded => "Model not loaded"@,
            AsrError::ModelNotFound(path) => "Model file not found: "@ + path@,
            AsrError::TranscriptionFailed(e) => "Transcription failed: "@ + e@,
            AsrError::AudioTooShort(n) => "Audio too short (need at least "@ + crate::text::decimal(
                n as nat,
            ) + " samples)"@,
            AsrError::DownloadFailed(e) => "Download failed: "@ + e@,
            AsrError::Io(e) => "I/O error: "@ + e@,
        }
    }

    pub fn message(&self) -> (s: String)
        ensures
            s@ == self.text(),
    {
        match self {
            AsrError::NotLoaded => "Model not loaded".to_owned(),
            AsrError::ModelNotFound(path) => joined("Model file not found: ", path.as_str()),
            AsrError::TranscriptionFailed(e) => joined("Transcription failed: ", e.as_str()),
            AsrError::AudioTooShort(n) => {
                let head = joined(
                    "Audio too short (need at least ",
                    to_decimal(*n as u64).as_str(),
                );
                joined(head.as_str(), " samples)")
            },
            AsrError::DownloadFailed(e) => joined("Download failed: ", e.as_str()),
            AsrError::Io(e) => joined("I/O error: ", e.as_str()),
        }
    }
}

/// One stretch of a transcript. Times are in hundredths of a second.
#[derive(Debug, Clone)]
pub struct AsrSegment {
    pub start: i64,
    pub end: i64,
    pub text: String,
}

/// A transcript: its whole text and its segments.
#[derive(Debug, Clone)]
pub struct AsrResult {
    pub text: String,
    pub segments: Vec<AsrSegment>,
}

/// What the recogniser says of a segment; its text may not be readable.
#[derive(Debug)]
pub struct SegmentReport {
    pub start: i64,
    pub end: i64,
    pub text: Result<String, String>,
}

/// How a run of the recogniser ended.
#[derive(Debug)]
pub enum Decoding {
    /// It could not be set up.
    NoState(String),
    /// It failed.
    Failed(String),
    /// It came through with these segments; one may be missing.
    Segments(Vec<Option<SegmentReport>>),
}

/// The segment is there and its text is readable.
pub open spec fn is_readable(s: Option<SegmentReport>) -> bool {
    s matches Some(r) && r.text is Ok
}

pub open spec fn segment_text(s: Option<SegmentReport>) -> Seq<char> {
    s->0.text->Ok_0@
}

/// The texts of the segments, with a space between them. No space stands before
/// the first text that is not empty.
pub open spec fn full_text(segments: Seq<Option<SegmentReport>>) -> Seq<char>
    decreases segments.len(),
{
    if segments.len() == 0 {
        seq![]
    } else {
        let before = full_text(segments.drop_last());
        let more = segment_text(segments.last());
        if before.len() == 0 {
            more
        } else {
            before.push(' ') + more
        }
    }
}

/// `s` tells what the report does.
pub open spec fn tells(s: AsrSegment, report: Option<SegmentReport>) -> bool {
    &&& report matches Some(r)
    &&& s.start == r.start
    &&& s.end == r.end
    &&& r.text matches Ok(t)
    &&& s.text@ == t@
}

/// What keeps a segment from being read.
pub open spec fn segment_fault(s: Option<SegmentReport>, i: int) -> Seq<char> {
    match s {
        None => "Missing segment "@ + crate::text::decimal(i as nat),
        Some(r) => "Segment text: "@ + r.text->Err_0@,
    }
}

/// Puts a transcript together, or says what is wrong with the first segment that
/// cannot be read.
pub fn assemble(segments: Vec<Option<SegmentReport>>) -> (r: Result<AsrResult, AsrError>)
    ensures
        r is Ok <==> forall|i: int| 0 <= i < segments.len() ==> is_readable(#[trigger] segments[i]),
        r matches Ok(t) ==> {
            &&& t.text@ == full_text(segments@)
            &&& t.segments@.len() == segments.len()
            &&& forall|i: int|
                0 <= i < segments.len() ==> tells(#[trigger] t.segments@[i], segments[i])
        },
        r matches Err(e) ==> exists|i: int|
            {
                &&& 0 <= i < segments.len()
                &&& !is_readable(#[trigger] segments[i])
                &&& forall|j: int| 0 <= j < i ==> is_readable(#[trigger] segments[j])
                &&& e matches AsrError::TranscriptionFailed(m)
                &&& m@ == segment_fault(segments[i], i)
            },
{
    let mut told: Vec<AsrSegment> = Vec::new();
    let mut text = String::new();
    let mut empty = true;
    for i in 0..segments.len()
        invariant
            told@.len() == i,
            text@ == full_text(segments@.take(i as int)),
            empty == (text@.len() == 0),
            forall|j: int| 0 <= j < i ==> is_readable(#[trigger] segments[j]),
            forall|j: int| 0 <= j < i ==> tells(#[trigger] told@[j], segments[j]),
    {
        assert(segments@.take(i + 1).drop_last() =~= segments@.take(i as int));
        match &segments[i] {
            None => {
                let fault = joined("Missing segment ", to_decimal(i as u64).as_str());
                assert(!is_readable(segments[i as int]));
                return Err(AsrError::TranscriptionFailed(fault));
            },
            Some(report) => match &report.text {
                Err(e) => {
                    let fault = joined("Segment text: ", e.as_str());
                    assert(!is_readable(segments[i as int]));
                    return Err(AsrError::TranscriptionFailed(fault));
                },
                Ok(t) => {
                    assert(is_readable(segments[i as int]));
                    if !empty {
                        text.push(' ');
                    }
                    let ghost before = text@;
                    text = joined(text.as_str(), t.as_str());
                    assert(text@ =~= full_text(segments@.take(i + 1)));
                    empty = empty && to_chars(t.as_str()).len() == 0;
                    told.push(
                        AsrSegment { start: report.start, end: report.end, text: t.clone() },
                    );
                },
            },
        }
    }
    assert(segments@.take(segments@.len() as int) =~= segments@);
    Ok(AsrResult { text, segments: told })
}

/// A recogniser and the model it has loaded. The model itself is the
/// recogniser's.
#[derive(Debug)]
pub struct WhisperEngine {
    pub model_path: Option<String>,
}

impl WhisperEngine {
    /// A recogniser without a model.
    pub fn new() -> (e: WhisperEngine)
        ensures
            e.model_path is None,
    {
        WhisperEngine { model_path: None }
    }

    pub fn is_loaded(&self) -> (b: bool)
        ensures
            b == self.model_path is Some,
    {
        self.model_path.is_some()
    }

    /// Loads a model: `exists` tells whether its file does, `opened` how opening
    /// it went. A model that was loaded before stays where this fails.
    pub fn load(&mut self, path: &str, exists: bool, opened: Result<(), String>) -> (r: Result<
        (),
        AsrError,
    >)
        ensures
            r is Ok <==> exists && opened is Ok,
            r is Ok ==> (final(self).model_path matches Some(p) && p@ == path@),
            r is Err ==> *final(self) == *old(self),
            !exists ==> (r matches Err(AsrError::ModelNotFound(p)) && p@ == path@),
            exists ==> (opened matches Err(e) ==> (r matches Err(AsrError::TranscriptionFailed(m))
                && m@ == "Failed to load model: "@ + e@)),
    {
        if !exists {
            return Err(AsrError::ModelNotFound(path.to_owned()));
        }
        match opened {
            Err(e) => Err(
                AsrError::TranscriptionFailed(joined("Failed to load model: ", e.as_str())),
            ),
            Ok(_) => {
                self.model_path = Some(path.to_owned());
                Ok(())
            },
        }
    }

    /// Whether so many samples can be transcribed now.
    pub fn check(&self, samples: usize) -> (r: Result<(), AsrError>)
        ensures
            self.model_path is None ==> r == Err::<(), AsrError>(AsrError::NotLoaded),
            self.model_path is Some && samples < MIN_SAMPLES ==> r == Err::<(), AsrError>(
                AsrError::AudioTooShort(MIN_SAMPLES),
            ),
            self.model_path is Some && samples >= MIN_SAMPLES ==> r is Ok,
    {
        if self.model_path.is_none() {
            return Err(AsrError::NotLoaded);
        }
        if !is_long_enough(samples) {
            return Err(AsrError::AudioTooShort(MIN_SAMPLES));
        }
        Ok(())
    }

    /// The transcript that a run of the recogniser comes to.
    pub fn finish(decoding: Decoding) -> (r: Result<AsrResult, AsrError>)
        ensures
            match decoding {
                Decoding::NoState(e) => r matches Err(AsrError::TranscriptionFailed(m)) && m@
                    == "State creation: "@ + e@,
                Decoding::Failed(e) => r matches Err(AsrError::TranscriptionFailed(m)) && m@
                    == "Full transcription: "@ + e@,
                Decoding::Segments(segments) => {
                    &&& r is Ok <==> forall|i: int|
                        0 <= i < segments.len() ==> is_readable(#[trigger] segments[i])
                    &&& r matches Ok(t) ==> t.text@ == full_text(segments@) && t.segments@.len()
                        == segments.len() && forall|i: int|
                        0 <= i < segments.len() ==> tells(#[trigger] t.segments@[i], segments[i])
                    &&& r matches Err(e) ==> exists|i: int|
                        {
                            &&& 0 <= i < segments.len()
                            &&& !is_readable(#[trigger] segments[i])
                            &&& forall|j: int| 0 <= j < i ==> is_readable(#[trigger] segments[j])
                            &&& e matches AsrError::TranscriptionFailed(m)
                            &&& m@ == segment_fault(segments[i], i)
                        }
                },
            },
    {
        match decoding {
            Decoding::NoState(e) => Err(
                AsrError::TranscriptionFailed(joined("State creation: ", e.as_str())),
            ),
            Decoding::Failed(e) => Err(
                AsrError::TranscriptionFailed(joined("Full transcription: ", e.as_str())),
            ),
            Decoding::Segments(segments) => assemble(segments),
        }
    }
}

/// A model that can be had.
#[derive(Debug, Clone, Copy)]
pub struct ModelInfo {
    pub name: &'static str,
    pub filename: &'static str,
    pub size_mb: u64,
    pub url: &'static str,
}

/// What is known of a model: its name, its file, its size in megabytes, and
/// where it can be had.
pub struct ModelFacts {
    pub name: Seq<char>,
    pub filename: Seq<char>,
    pub size_mb: u64,
    pub url: Seq<char>,
}

pub open spec fn facts(m: ModelInfo) -> ModelFacts {
    ModelFacts { name: m.name@, filename: m.filename@, size_mb: m.size_mb, url: m.url@ }
}

/// The models that can be had.
pub open spec fn model_list() -> Seq<ModelFacts> {
    seq![
        ModelFacts {
            name: "tiny"@,
            filename: "ggml-tiny.bin"@,
            size_mb: 75,
            url: "https://huggingface.co/ggerganov/whisper.cpp/resolve/main/ggml-tiny.bin"@,
        },
        ModelFacts {
            name: "base"@,
            filename: "ggml-base.bin"@,
            size_mb: 142,
            url: "https://huggingface.co/ggerganov/whisper.cpp/resolve/main/ggml-base.bin"@,
        },
        ModelFacts {
            name: "small"@,
            filename: "ggml-small.bin"@,
            size_mb: 466,
            url: "https://huggingface.co/ggerganov/whisper.cpp/resolve/main/ggml-small.bin"@,
        },
        ModelFacts {
            name: "medium"@,
            filename: "ggml-medium.bin"@,
            size_mb: 1500,
            url: "https://huggingface.co/ggerganov/whisper.cpp/resolve/main/ggml-medium.bin"@,
        },
        ModelFacts {
            name: "large"@,
            filename: "ggml-large-v3.bin"@,
            size_mb: 2900,
            url: "https://huggingface.co/ggerganov/whisper.cpp/resolve/main/ggml-large-v3.bin"@,
        },
    ]
}

/// The position of the model with this name.
pub open spec fn model_named(name: Seq<char>) -> Option<int> {
    if name == "tiny"@ {
        Some(0)
    } else if name == "base"@ {
        Some(1)
    } else if name == "small"@ {
        Some(2)
    } else if name == "medium"@ {
        Some(3)
    } else if name == "large"@ {
        Some(4)
    } else {
        None
    }
}

/// The file of a model: that of the first model where the name is unknown.
pub open spec fn model_file(name: Seq<char>) -> Seq<char> {
    match model_named(name) {
        Some(i) => model_list()[i].filename,
        None => model_list()[0].filename,
    }
}

/// A file or directory: where it stands, and its name there.
#[derive(Debug, Clone)]
pub struct FilePath {
    pub dir: String,
    pub name: String,
}

/// What to do to get a model.
#[derive(Debug)]
pub enum DownloadPlan {
    /// It is there.
    Cached(FilePath),
    /// Fetch it from `url`.
    Fetch { dest: FilePath, url: String },
}

/// Looks after the files of models.
#[derive(Debug)]
pub struct ModelManager {
    pub cache_dir: String,
}

/// `name` is among `present`.
pub open spec fn lists(present: Seq<String>, name: Seq<char>) -> bool {
    exists|i: int| 0 <= i < present.len() && (#[trigger] present[i])@ == name
}

pub fn is_listed(present: &Vec<String>, name: &str) -> (b: bool)
    ensures
        b == lists(present@, name@),
{
    for i in 0..present.len()
        invariant
            forall|j: int| 0 <= j < i ==> (#[trigger] present[j])@ != name@,
    {
        if same_text(present[i].as_str(), name) {
            return true;
        }
    }
    false
}

impl ModelManager {
    pub fn new(cache_dir: String) -> (m: ModelManager)
        ensures
            m.cache_dir == cache_dir,
    {
        ModelManager { cache_dir }
    }

    /// The models that can be had.
    pub fn models() -> (r: [ModelInfo; 5])
        ensures
            r@.map_values(|m: ModelInfo| facts(m)) == model_list(),
    {
        let r = [
            ModelInfo {
                name: "tiny",
                filename: "ggml-tiny.bin",
                size_mb: 75,
                url: "https://huggingface.co/ggerganov/whisper.cpp/resolve/main/ggml-tiny.bin",
            },
            ModelInfo {
                name: "base",
                filename: "ggml-base.bin",
                size_mb: 142,
                url: "https://huggingface.co/ggerganov/whisper.cpp/resolve/main/ggml-base.bin",
            },
            ModelInfo {
                name: "small",
                filename: "ggml-small.bin",
                size_mb: 466,
                url: "https://huggingface.co/ggerganov/whisper.cpp/resolve/main/ggml-small.bin",
            },
            ModelInfo {
                name: "medium",
                filename: "ggml-medium.bin",
                size_mb: 1500,
                url: "https://huggingface.co/ggerganov/whisper.cpp/resolve/main/ggml-medium.bin",
            },
            ModelInfo {
                name: "large",
                filename: "ggml-large-v3.bin",
                size_mb: 2900,
                url: "https://huggingface.co/ggerganov/whisper.cpp/resolve/main/ggml-large-v3.bin",
            },
        ];
        assert(r@.map_values(|m: ModelInfo| facts(m)) =~= model_list());
        r
    }

    fn find(name: &str) -> (r: Option<ModelInfo>)
        ensures
            match r {
                Some(m) => model_named(name@) is Some && facts(m) == model_list()[model_named(
                    name@,
                )->0],
                None => model_named(name@) is None,
            },
    {
        let models = Self::models();
        assert forall|i: int| 0 <= i < 5 implies facts(#[trigger] models@[i])
            == model_list()[i] by {
            assert(models@.map_values(|m: ModelInfo| facts(m))[i] == facts(models@[i]));
        }
        for i in 0..5usize
            invariant
                models@.len() == 5,
                forall|i: int| 0 <= i < 5 ==> facts(#[trigger] models@[i]) == model_list()[i],
                forall|j: int| 0 <= j < i ==> (#[trigger] model_list()[j]).name != name@,
        {
            assert(facts(models@[i as int]) == model_list()[i as int]);
            if same_text(models[i].name, name) {
                proof {
                    lemma_model_names_differ();
                }
                return Some(models[i]);
            }
        }
        assert(model_list()[0].name != name@);
        assert(model_list()[1].name != name@);
        assert(model_list()[2].name != name@);
        assert(model_list()[3].name != name@);
        assert(model_list()[4].name != name@);
        None
    }

    /// The file of a model; an unknown name stands for the first model.
    pub fn model_path(&self, name: &str) -> (p: FilePath)
        ensures
            p.dir@ == self.cache_dir@,
            p.name@ == model_file(name@),
    {
        let file = match Self::find(name) {
            Some(m) => m.filename,
            None => "ggml-tiny.bin",
        };
        FilePath { dir: self.cache_dir.clone(), name: file.to_owned() }
    }

    /// Whether the file of a model is among those in the cache directory.
    pub fn is_downloaded(&self, name: &str, present: &Vec<String>) -> (b: bool)
        ensures
            b == lists(present@, model_file(name@)),
    {
        let p = self.model_path(name);
        is_listed(present, p.name.as_str())
    }

    /// What to do to get a model, given the files in the cache directory. An
    /// unknown name is refused.
    pub fn plan_download(&self, name: &str, present: &Vec<String>) -> (r: Result<
        DownloadPlan,
        AsrError,
    >)
        ensures
            match model_named(name@) {
                None => r matches Err(AsrError::DownloadFailed(m)) && m@ == "Unknown model: "@
                    + name@,
                Some(i) => if lists(present@, model_list()[i].filename) {
                    r matches Ok(DownloadPlan::Cached(p)) && p.dir@ == self.cache_dir@ && p.name@
                        == model_list()[i].filename
                } else {
                    r matches Ok(DownloadPlan::Fetch { dest, url }) && dest.dir@ == self.cache_dir@
                        && dest.name@ == model_list()[i].filename && url@ == model_list()[i].url
                },
            },
    {
        match Self::find(name) {
            None => Err(AsrError::DownloadFailed(joined("Unknown model: ", name))),
            Some(m) => {
                let dest = self.model_path(name);
                if is_listed(present, dest.name.as_str()) {
                    Ok(DownloadPlan::Cached(dest))
                } else {
                    Ok(DownloadPlan::Fetch { dest, url: m.url.to_owned() })
                }
            },
        }
    }

    pub fn cache_dir(&self) -> (s: &str)
        ensures
            s@ == self.cache_dir@,
    {
        self.cache_dir.as_str()
    }
}

proof fn lemma_model_names_differ()
    ensures
        forall|i: int|
            0 <= i < 5 ==> model_named((#[trigger] model_list()[i]).name) == Some(i),
{
    reveal_strlit("tiny");
    reveal_strlit("base");
    reveal_strlit("small");
    reveal_strlit("medium");
    reveal_strlit("large");
    assert("tiny"@[0] == 't' && "base"@[0] == 'b' && "small"@[0] == 's' && "medium"@[0] == 'm'
        && "large"@[0] == 'l');
    assert forall|i: int| 0 <= i < 5 implies model_named((#[trigger] model_list()[i]).name) == Some(
        i,
    ) by {
        assert(i == 0 || i == 1 || i == 2 || i == 3 || i == 4);
    }
}

/// Every model is found under its name.
pub proof fn law_models_are_found(i: int)
    requires
        0 <= i < model_list().len(),
    ensures
        model_named(model_list()[i].name) == Some(i),
{
    lemma_model_names_differ();
}

/// Transcripts are put together with one space between them, in the order of
/// their segments.
pub proof fn law_segments_are_joined_by_spaces(
    a: Seq<Option<SegmentReport>>,
    b: Seq<Option<SegmentReport>>,
)
    ensures
        full_text(a).len() > 0 && b.len() > 0 && (forall|i: int|
            0 <= i < b.len() ==> segment_text(#[trigger] b[i]).len() > 0) ==> full_text(a + b)
            == full_text(a) + seq![' '] + full_text(b),
        b.len() == 1 ==> full_text(b) == segment_text(b[0]),
    decreases b.len(),
{
    if b.len() == 1 {
        assert(b.drop_last() =~= Seq::<Option<SegmentReport>>::empty());
        reveal_with_fuel(full_text, 2);
        assert((a + b).drop_last() =~= a);
        if full_text(a).len() > 0 {
            assert(full_text(a + b) =~= full_text(a) + seq![' '] + full_text(b));
        }
    } else if b.len() > 1 && full_text(a).len() > 0 && (forall|i: int|
        0 <= i < b.len() ==> segment_text(#[trigger] b[i]).len() > 0) {
        let d = b.drop_last();
        assert forall|i: int| 0 <= i < d.len() implies segment_text(#[trigger] d[i]).len() > 0 by {
            assert(d[i] == b[i]);
        }
        law_segments_are_joined_by_spaces(a, d);
        lemma_some_text(d);
        assert((a + b).drop_last() =~= a + d);
        assert((a + b).last() == b.last());
        assert(full_text(a + b) =~= full_text(a) + seq![' '] + full_text(b));
    }
}

proof fn lemma_some_text(b: Seq<Option<SegmentReport>>)
    requires
        b.len() > 0,
        forall|i: int| 0 <= i < b.len() ==> segment_text(#[trigger] b[i]).len() > 0,
    ensures
        full_text(b).len() > 0,
{
    assert(segment_text(b[b.len() - 1]).len() > 0);
}

/// The models: their names, files and sizes. Each comes from the directory of the
/// converted models, and an unknown name stands for the smallest one.
pub proof fn law_models(name: Seq<char>)
    ensures
        model_list().len() == 5,
        model_list()[0].name == "tiny"@ && model_list()[0].filename == "ggml-tiny.bin"@ && model_list()[0].size_mb
            == 75,
        model_file("tiny"@) == "ggml-tiny.bin"@,
        model_list()[1].name == "base"@ && model_list()[1].filename == "ggml-base.bin"@ && model_list()[1].size_mb
            == 142,
        model_file("base"@) == "ggml-base.bin"@,
        model_list()[2].name == "small"@ && model_list()[2].filename == "ggml-small.bin"@ && model_list()[2].size_mb
            == 466,
        model_file("small"@) == "ggml-small.bin"@,
        model_list()[3].name == "medium"@ && model_list()[3].filename == "ggml-medium.bin"@ && model_list()[3].size_mb
            == 1500,
        model_file("medium"@) == "ggml-medium.bin"@,
        model_list()[4].name == "large"@ && model_list()[4].filename == "ggml-large-v3.bin"@ && model_list()[4].size_mb
            == 2900,
        model_file("large"@) == "ggml-large-v3.bin"@,
        model_named(name) is None ==> model_file(name) == "ggml-tiny.bin"@,
        model_named(name) is None <==> name != "tiny"@ && name != "base"@ && name != "small"@
            && name != "medium"@ && name != "large"@,
{
    lemma_model_names_differ();
    assert(model_list()[0].name == "tiny"@);
    assert(model_list()[1].name == "base"@);
    assert(model_list()[2].name == "small"@);
    assert(model_list()[3].name == "medium"@);
    assert(model_list()[4].name == "large"@);
}

/// Every model comes under the name of its file from the same place.
pub proof fn law_models_come_from_one_place()
    ensures
        model_list()[0].url
            == "https://huggingface.co/ggerganov/whisper.cpp/resolve/main/"@ + model_list()[0].filename,
        model_list()[1].url
            == "https://huggingface.co/ggerganov/whisper.cpp/resolve/main/"@ + model_list()[1].filename,
        model_list()[2].url
            == "https://huggingface.co/ggerganov/whisper.cpp/resolve/main/"@ + model_list()[2].filename,
        model_list()[3].url
            == "https://huggingface.co/ggerganov/whisper.cpp/resolve/main/"@ + model_list()[3].filename,
        model_list()[4].url
            == "https://huggingface.co/ggerganov/whisper.cpp/resolve/main/"@ + model_list()[4].filename,
{
    reveal_strlit("https://huggingface.co/ggerganov/whisper.cpp/resolve/main/");
    assert(model_list()[0].url
        =~= "https://huggingface.co/ggerganov/whisper.cpp/resolve/main/"@ + model_list()[0].filename) by {
        reveal_strlit("ggml-tiny.bin");
        reveal_strlit("https://huggingface.co/ggerganov/whisper.cpp/resolve/main/ggml-tiny.bin");
    }
    assert(model_list()[1].url
        =~= "https://huggingface.co/ggerganov/whisper.cpp/resolve/main/"@ + model_list()[1].filename) by {
        reveal_strlit("ggml-base.bin");
        reveal_strlit("https://huggingface.co/ggerganov/whisper.cpp/resolve/main/ggml-base.bin");
    }
    assert(model_list()[2].url
        =~= "https://huggingface.co/ggerganov/whisper.cpp/resolve/main/"@ + model_list()[2].filename) by {
        reveal_strlit("ggml-small.bin");
        reveal_strlit("https://huggingface.co/ggerganov/whisper.cpp/resolve/main/ggml-small.bin");
    }
    assert(model_list()[3].url
        =~= "https://huggingface.co/ggerganov/whisper.cpp/resolve/main/"@ + model_list()[3].filename) by {
        reveal_strlit("ggml-medium.bin");
        reveal_strlit("https://huggingface.co/ggerganov/whisper.cpp/resolve/main/ggml-medium.bin");
    }
    assert(model_list()[4].url
        =~= "https://huggingface.co/ggerganov/whisper.cpp/resolve/main/"@ + model_list()[4].filename) by {
        reveal_strlit("ggml-large-v3.bin");
        reveal_strlit("https://huggingface.co/ggerganov/whisper.cpp/resolve/main/ggml-large-v3.bin");
    }
}

/// The texts of the errors, and what is said of a segment that cannot be read.
pub proof fn law_asr_error_texts(e: String, n: usize, i: int, start: i64, end: i64)
    ensures
        AsrError::NotLoaded.text() == "Model not loaded"@,
        AsrError::ModelNotFound(e).text() == "Model file not found: "@ + e@,
        AsrError::TranscriptionFailed(e).text() == "Transcription failed: "@ + e@,
        AsrError::AudioTooShort(n).text() == "Audio too short (need at least "@
            + crate::text::decimal(n as nat) + " samples)"@,
        AsrError::DownloadFailed(e).text() == "Download failed: "@ + e@,
        AsrError::Io(e).text() == "I/O error: "@ + e@,
        segment_fault(None, i) == "Missing segment "@ + crate::text::decimal(i as nat),
        segment_fault(
            Some(SegmentReport { start, end, text: Err(e) }),
            i,
        ) == "Segment text: "@ + e@,
{
}

} // verus!
