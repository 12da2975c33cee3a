//! What a benchmark run can be asked for.
use crate::number::Number;
use vstd::prelude::*;

verus! {

/// Which audio chunker feeds the encoder.
#[derive(Clone, Copy, Debug, PartialEq, Eq, Structural)]
pub enum SplitterChoice {
    /// Silero VAD: model-driven, splits on detected speech regions.
    Silero,
    /// Encoder-stride-aligned fixed windows; no model load. Lower quality
    /// on long-form audio (word splits at chunk seams) but faster startup.
    Fixed,
}

/// The options of a run.
#[derive(Debug)]
pub struct Args {
    /// Path to the dataset (audio and ground-truth words).
    pub dataset: String,
    /// Score just this row and show its panel. Excludes `audio`.
    pub idx: Option<i32>,
    /// A WAV file outside the dataset (no ground truth, so no error rate).
    /// Excludes `idx`.
    pub audio: Option<String>,
    /// Hub repository of the model weights.
    pub repo: String,
    /// Hub revision (RN-T head).
    pub revision: String,
    /// The number of rows to score; 0 for all.
    pub limit: usize,
    /// How many of the worst rows to show.
    pub worst: usize,
    /// Seconds of midpoint drift above which a matched pair is flagged.
    pub drift_threshold: Number,
    /// The audio chunker.
    pub splitter: SplitterChoice,
}

/// The bits of 1.0.
pub const ONE_BITS: u64 = 0x3ff0_0000_0000_0000;

impl Default for Args {
    fn default() -> (args: Args)
        ensures
            args.dataset@ == "data/golos_long.parquet"@,
            args.idx is None,
            args.audio is None,
            args.repo@ == "vpermilp/GigaAM-v3"@,
            args.revision@ == "e2e_rnnt"@,
            args.limit == 0,
            args.worst == 5,
            args.drift_threshold == (Number { bits: ONE_BITS }),
            args.splitter == SplitterChoice::Silero,
    {
        Args {
            dataset: "data/golos_long.parquet".to_owned(),
            idx: None,
            audio: None,
            repo: "vpermilp/GigaAM-v3".to_owned(),
            revision: "e2e_rnnt".to_owned(),
            limit: 0,
            worst: 5,
            drift_threshold: Number { bits: ONE_BITS },
            splitter: SplitterChoice::Silero,
        }
    }
}

/// What a run does.
#[derive(Clone, Copy, Debug, PartialEq, Eq, Structural)]
pub enum Mode {
    /// Transcribe the WAV file that was named.
    CustomWav,
    /// Score one row.
    Row(i32),
    /// Score the dataset.
    Corpus,
}

/// A WAV file if one is named, else one row if one is named, else the dataset.
pub open spec fn mode_of(args: Args) -> Mode {
    if args.audio is Some {
        Mode::CustomWav
    } else {
        match args.idx {
            Some(idx) => Mode::Row(idx),
            None => Mode::Corpus,
        }
    }
}

/// What the options ask for.
pub fn dispatch(args: &Args) -> (mode: Mode)
    ensures
        mode == mode_of(*args),
        args.audio is Some ==> mode == Mode::CustomWav,
        args.audio is None ==> mode == (match args.idx {
            Some(idx) => Mode::Row(idx),
            None => Mode::Corpus,
        }),
{
    if args.audio.is_some() {
        Mode::CustomWav
    } else if let Some(idx) = args.idx {
        Mode::Row(idx)
    } else {
        Mode::Corpus
    }
}

} // verus!
