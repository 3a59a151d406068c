//! The download of the local model: which files are missing, where they come
//! from, how far it has come, and where the model is found afterwards.

use vstd::prelude::*;

use crate::asr::is_listed;
use crate::text::joined;

verus! {

/// Where the files of the local model come from.
pub const HF_BASE: &'static str =
    "https://huggingface.co/csukuangfj/sherpa-onnx-nemo-parakeet-tdt-0.6b-v2-int8/resolve/main/";

/// The directory of the model, below the resources or the data of the app.
pub const MODEL_SUBDIR: &'static str = "models/parakeet-v2";

/// The file by which a model is known to be there.
pub const MODEL_MARK: &'static str = "encoder.int8.onnx";

/// The files of the local model.
pub open spec fn model_files() -> Seq<Seq<char>> {
    seq!["encoder.int8.onnx"@, "decoder.int8.onnx"@, "joiner.int8.onnx"@, "tokens.txt"@]
}

/// The names that are not among `present`, in order.
pub open spec fn absent(names: Seq<Seq<char>>, present: Seq<String>) -> Seq<Seq<char>> {
    names.filter(|n: Seq<char>| !crate::asr::lists(present, n))
}

/// One file to fetch.
#[derive(Debug)]
pub struct Fetch {
    pub name: String,
    pub url: String,
}

/// `f` fetches the file `name`.
pub open spec fn fetches(f: Fetch, name: Seq<char>) -> bool {
    f.name@ == name && f.url@ == HF_BASE@ + name
}

/// The files that are still to be fetched: a file that is there is not fetched
/// again.
pub fn files_to_fetch(present: &Vec<String>) -> (r: Vec<Fetch>)
    ensures
        r@.len() == absent(model_files(), present@).len(),
        forall|i: int|
            0 <= i < r@.len() ==> fetches(#[trigger] r@[i], absent(model_files(), present@)[i]),
{
    let names: [&'static str; 4] = [
        "encoder.int8.onnx",
        "decoder.int8.onnx",
        "joiner.int8.onnx",
        "tokens.txt",
    ];
    let ghost all = model_files();
    let mut r: Vec<Fetch> = Vec::new();
    let keep = Ghost(|n: Seq<char>| !crate::asr::lists(present@, n));
    proof {
        reveal(Seq::filter);
        assert(all.take(0).filter(keep@) =~= seq![]);
    }
    for i in 0..4usize
        invariant
            all == model_files(),
            keep@ == (|n: Seq<char>| !crate::asr::lists(present@, n)),
            names@.len() == 4,
            names@[0]@ == all[0],
            names@[1]@ == all[1],
            names@[2]@ == all[2],
            names@[3]@ == all[3],
            r@.len() == all.take(i as int).filter(keep@).len(),
            forall|j: int|
                0 <= j < r@.len() ==> fetches(#[trigger] r@[j], all.take(i as int).filter(keep@)[j]),
    {
        proof {
            reveal(Seq::filter);
            assert(all.take(i + 1).drop_last() =~= all.take(i as int));
            assert(i == 0 || i == 1 || i == 2 || i == 3);
            assert(names@[i as int]@ == all[i as int]);
        }
        let name = names[i];
        if !is_listed(present, name) {
            r.push(Fetch { name: name.to_owned(), url: joined(HF_BASE, name) });
        }
    }
    assert(all.take(4) =~= all);
    r
}

/// What is said of a reply that was refused.
pub fn refused(name: &str, status: &str) -> (m: String)
    ensures
        m@ == name@ + ": "@ + status@,
{
    joined(joined(name, ": ").as_str(), status)
}

/// How much of a file has come. The total is 0 where it is unknown.
#[derive(Debug, Clone, Copy, PartialEq, Eq, Structural)]
pub struct Progress {
    pub done: u64,
    pub total: u64,
    /// The percentage that was told last.
    pub last: u8,
}

/// The percentage that has come, as one byte.
pub open spec fn percent(done: u64, total: u64) -> int {
    (done * 100 / total as int) % 256
}

impl Progress {
    /// Nothing has come, and nothing was told.
    pub fn new(total: u64) -> (p: Progress)
        ensures
            p == (Progress { done: 0, total, last: 255 }),
    {
        Progress { done: 0, total, last: 255 }
    }

    /// Takes in a chunk of `len` bytes. Tells the percentage where it is another
    /// than was told last; where the total is unknown it tells nothing.
    pub fn advance(&mut self, len: u64) -> (told: Option<u8>)
        requires
            old(self).done + len <= u64::MAX,
            old(self).total > 0 ==> (old(self).done + len) * 100 <= u64::MAX,
        ensures
            final(self).done == old(self).done + len,
            final(self).total == old(self).total,
            match told {
                Some(p) => old(self).total > 0 && p == percent(final(self).done, old(self).total) && p
                    != old(self).last && final(self).last == p,
                None => final(self).last == old(self).last && (old(self).total > 0
                    ==> old(self).last == percent(final(self).done, old(self).total)),
            },
    {
        self.done = self.done + len;
        if self.total > 0 {
            let p = ((self.done * 100 / self.total) % 256) as u8;
            if p != self.last {
                self.last = p;
                return Some(p);
            }
        }
        None
    }
}

/// While no more has come than was announced, the percentage lies between 0 and
/// 100 and never falls.
pub proof fn law_percentage_rises(a: u64, b: u64, total: u64)
    requires
        a <= b <= total,
        0 < total,
    ensures
        0 <= percent(a, total) <= percent(b, total) <= 100,
        b == total ==> percent(b, total) == 100,
{
    vstd::arithmetic::div_mod::lemma_div_is_ordered(a * 100, b * 100, total as int);
    vstd::arithmetic::div_mod::lemma_div_is_ordered(b * 100, total * 100, total as int);
    vstd::arithmetic::div_mod::lemma_div_by_multiple(100, total as int);
    vstd::arithmetic::div_mod::lemma_div_pos_is_pos(a * 100, total as int);
    assert(total * 100 == 100 * total) by (nonlinear_arith);
}

/// Lets one download run at a time.
#[derive(Debug, Clone, Copy, PartialEq, Eq, Structural)]
pub struct DownloadGate {
    pub busy: bool,
}

impl DownloadGate {
    /// Enters, unless a download runs.
    pub fn enter(&mut self) -> (r: Result<(), String>)
        ensures
            final(self).busy,
            old(self).busy ==> (r matches Err(m) && m@ == "download already in progress"@),
            !old(self).busy ==> r is Ok,
    {
        if self.busy {
            return Err("download already in progress".to_owned());
        }
        self.busy = true;
        Ok(())
    }

    /// The download has ended, well or not.
    pub fn leave(&mut self)
        ensures
            !final(self).busy,
    {
        self.busy = false;
    }
}

/// Where the local model is found.
#[derive(Debug, Clone, Copy, PartialEq, Eq, Structural)]
pub enum ModelPlace {
    /// Among the resources that the app came with.
    Bundled,
    /// In the app's data, where a download puts it.
    Downloaded,
    /// In the source tree.
    Checkout,
}

/// The place to take the model from: the first of the three that has it. A
/// directory that is unknown has nothing.
pub fn model_place(bundled: Option<bool>, downloaded: Option<bool>, checkout: bool) -> (r: Option<
    ModelPlace,
>)
    ensures
        r == (if bundled == Some(true) {
            Some(ModelPlace::Bundled)
        } else if downloaded == Some(true) {
            Some(ModelPlace::Downloaded)
        } else if checkout {
            Some(ModelPlace::Checkout)
        } else {
            None
        }),
{
    if let Some(true) = bundled {
        return Some(ModelPlace::Bundled);
    }
    if let Some(true) = downloaded {
        return Some(ModelPlace::Downloaded);
    }
    if checkout {
        Some(ModelPlace::Checkout)
    } else {
        None
    }
}

/// The files of the model, by the first of which it is known to be there.
pub proof fn law_files_of_the_model()
    ensures
        model_files() == seq![
            MODEL_MARK@,
            "decoder.int8.onnx"@,
            "joiner.int8.onnx"@,
            "tokens.txt"@,
        ],
        MODEL_MARK@ == "encoder.int8.onnx"@,
        HF_BASE@
            == "https://huggingface.co/csukuangfj/sherpa-onnx-nemo-parakeet-tdt-0.6b-v2-int8/resolve/main/"@,
        MODEL_SUBDIR@ == "models/parakeet-v2"@,
{
    assert(model_files() =~= seq![
        MODEL_MARK@,
        "decoder.int8.onnx"@,
        "joiner.int8.onnx"@,
        "tokens.txt"@,
    ]);
}

/// What is fetched is what is missing: a file of the model is fetched exactly where
/// it is not there yet.
pub proof fn law_missing_files_are_fetched(names: Seq<Seq<char>>, present: Seq<String>, name: Seq<char>)
    ensures
        absent(names, present).contains(name) <==> names.contains(name) && !(exists|i: int|
            0 <= i < present.len() && (#[trigger] present[i])@ == name),
        absent(names, present).len() <= names.len(),
    decreases names.len(),
{
    reveal(Seq::filter);
    let all = absent(names, present);
    if names.len() > 0 {
        let d = names.drop_last();
        let before = absent(d, present);
        law_missing_files_are_fetched(d, present, name);
        if all.contains(name) {
            let i = choose|i: int| 0 <= i < all.len() && all[i] == name;
            if i < before.len() {
                assert(before[i] == name);
                assert(before.contains(name));
                let j = choose|j: int| 0 <= j < d.len() && d[j] == name;
                assert(names[j] == name);
            } else {
                assert(names[names.len() - 1] == name);
            }
        }
        if names.contains(name) && !crate::asr::lists(present, name) {
            let j = choose|j: int| 0 <= j < names.len() && names[j] == name;
            if j < d.len() {
                assert(d[j] == name);
                assert(d.contains(name));
                let i = choose|i: int| 0 <= i < before.len() && before[i] == name;
                assert(all[i] == name);
            } else {
                assert(all[all.len() - 1] == name);
            }
        }
    }
}

} // verus!
