//! The model catalog: signed data describing models, licenses and hardware
//! requirements, and the hardware-aware fit assessment of each model.
//! Nothing is hard-refused; the user sees "runs here" versus "too big, use
//! a remote provider" instead of discovering it by running out of memory.

use crate::text::owned;
use vstd::prelude::*;

verus! {

/// The catalog index.
#[derive(Debug)]
pub struct Catalog {
    pub catalog_version: u32,
    pub models: Vec<ModelEntry>,
}

/// One catalog model.
#[derive(Debug)]
pub struct ModelEntry {
    /// Store ref name, e.g. `qwen3-8b-instruct-q4`.
    pub id: String,
    /// Task slot: system, vision, embeddings, reranker, asr, tts, ...
    pub task: String,
    /// Hardware tiers this entry is recommended for.
    pub tiers: Vec<u8>,
    pub license: String,
    /// Inference engine: llama-server, whisper-cpp, sd-cpp, onnx, piper.
    pub engine: String,
    /// Download URL, when pinned.
    pub source: Option<String>,
    /// Pinned blake3 of the exact artifact, when `source` is set.
    pub blake3: Option<String>,
    pub min_ram_gb: Option<u32>,
    pub notes: Option<String>,
    /// Revocation flag honored on catalog refresh.
    pub revoked: bool,
}

/// The detected hardware.
#[derive(Debug, Clone)]
pub struct HardwareProfile {
    pub os: String,
    pub arch: String,
    pub total_ram_gb: u64,
    pub unified_memory: bool,
    pub gpu_nodes: u32,
    pub npu_nodes: u32,
    pub tier: u8,
}

/// How a model fits the machine.
#[derive(Debug, Clone, Copy, PartialEq, Eq, Structural)]
pub enum Fit {
    /// Comfortable headroom.
    Runs,
    /// Fits, but tight.
    Tight,
    /// Won't fit locally; use a remote provider instead.
    TooBig,
}

pub open spec fn fit_label(f: Fit) -> Seq<char> {
    match f {
        Fit::Runs => "runs on your machine"@,
        Fit::Tight => "tight — runs but leaves little headroom"@,
        Fit::TooBig => "too big for this machine — use a remote provider"@,
    }
}

impl Fit {
    pub fn label(self) -> (l: &'static str)
        ensures
            l@ == fit_label(self),
    {
        match self {
            Fit::Runs => "runs on your machine",
            Fit::Tight => "tight — runs but leaves little headroom",
            Fit::TooBig => "too big for this machine — use a remote provider",
        }
    }
}

/// Headroom the OS and a desktop session want on top of model weights.
pub const RESERVED_GB: u64 = 3;

/// The fit of a model needing `need` GB on a machine with `total` GB: it
/// runs when two GB remain after the reserve, is tight when the RAM at
/// least covers the requirement, and is too big otherwise. An unknown
/// requirement counts as 2 GB.
pub open spec fn spec_assess(min_ram_gb: Option<u32>, total: u64) -> Fit {
    let need: int = match min_ram_gb {
        Some(n) => n as int,
        None => 2,
    };
    let usable: int = if total >= 3 {
        total - 3
    } else {
        0
    };
    if usable >= need + 2 {
        Fit::Runs
    } else if total >= need {
        Fit::Tight
    } else {
        Fit::TooBig
    }
}

pub fn assess(model: &ModelEntry, hw: &HardwareProfile) -> (f: Fit)
    ensures
        f == spec_assess(model.min_ram_gb, hw.total_ram_gb),
{
    let need: u64 = match model.min_ram_gb {
        Some(n) => n as u64,
        None => 2,
    };
    let usable = hw.total_ram_gb.saturating_sub(RESERVED_GB);
    if usable >= need + 2 {
        Fit::Runs
    } else if hw.total_ram_gb >= need {
        Fit::Tight
    } else {
        Fit::TooBig
    }
}

/// One assessed catalog model.
#[derive(Debug, Clone)]
pub struct Recommendation {
    pub id: String,
    pub task: String,
    pub license: String,
    pub min_ram_gb: Option<u32>,
    pub fit: Fit,
    pub note: String,
}

/// The recommendation for one (non-revoked) catalog model.
pub open spec fn recommendation_of(m: ModelEntry, hw: HardwareProfile) -> (
    Seq<char>,
    Seq<char>,
    Seq<char>,
    Option<u32>,
    Fit,
    Seq<char>,
) {
    (
        m.id@,
        m.task@,
        m.license@,
        m.min_ram_gb,
        spec_assess(m.min_ram_gb, hw.total_ram_gb),
        match m.notes {
            Some(n) => n@,
            None => Seq::empty(),
        },
    )
}

pub open spec fn rec_view(r: Recommendation) -> (
    Seq<char>,
    Seq<char>,
    Seq<char>,
    Option<u32>,
    Fit,
    Seq<char>,
) {
    (r.id@, r.task@, r.license@, r.min_ram_gb, r.fit, r.note@)
}

/// The non-revoked models, in catalog order.
pub open spec fn live_models(ms: Seq<ModelEntry>) -> Seq<ModelEntry> {
    ms.filter(|m: ModelEntry| !m.revoked)
}

/// Assess every non-revoked catalog model against the hardware, in
/// catalog order.
pub fn recommend(catalog: &Catalog, hw: &HardwareProfile) -> (r: Vec<Recommendation>)
    ensures
        r@.len() == live_models(catalog.models@).len(),
        forall|i: int|
            0 <= i < r@.len() ==> rec_view(#[trigger] r@[i]) == recommendation_of(
                live_models(catalog.models@)[i],
                *hw,
            ),
{
    let mut out: Vec<Recommendation> = Vec::new();
    let mut i: usize = 0;
    while i < catalog.models.len()
        invariant
            i <= catalog.models.len(),
            out@.len() == live_models(catalog.models@.take(i as int)).len(),
            forall|k: int|
                0 <= k < out@.len() ==> rec_view(#[trigger] out@[k]) == recommendation_of(
                    live_models(catalog.models@.take(i as int))[k],
                    *hw,
                ),
        decreases catalog.models.len() - i,
    {
        let m = &catalog.models[i];
        proof {
            let f = |x: ModelEntry| !x.revoked;
            assert(catalog.models@.take(i as int + 1).drop_last() =~= catalog.models@.take(
                i as int,
            ));
            reveal_with_fuel(Seq::filter, 1);
        }
        if !m.revoked {
            let note = match &m.notes {
                Some(n) => n.clone(),
                None => String::new(),
            };
            out.push(
                Recommendation {
                    id: m.id.clone(),
                    task: m.task.clone(),
                    license: m.license.clone(),
                    min_ram_gb: m.min_ram_gb,
                    fit: assess(m, hw),
                    note,
                },
            );
        }
        i = i + 1;
    }
    assert(catalog.models@.take(catalog.models.len() as int) =~= catalog.models@);
    out
}

/// The fit law: with `need` GB required (2 when the catalog says
/// nothing), a machine of `total` GB runs the model comfortably exactly
/// when 2 GB remain after the 3 GB the OS keeps (`total >= need + 5`), is
/// tight when the RAM at least covers the need but not that headroom, and
/// is too small otherwise.
pub proof fn lemma_fit_headroom(min_ram_gb: Option<u32>, total: u64)
    ensures
        ({
            let need: int = match min_ram_gb {
                Some(n) => n as int,
                None => 2,
            };
            &&& (spec_assess(min_ram_gb, total) == Fit::Runs <==> total >= need + 5)
            &&& (spec_assess(min_ram_gb, total) == Fit::Tight <==> need <= total < need + 5)
            &&& (spec_assess(min_ram_gb, total) == Fit::TooBig <==> total < need)
        }),
{
}

} // verus!
