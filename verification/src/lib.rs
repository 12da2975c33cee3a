//! Scoring for a speech-to-text benchmark: the words of a reference and of a
//! hypothesis, error counts and timing drift over a file and over a corpus, and
//! the panels that show them.
//!
//! Audio, the dataset, the model and the aligner stand outside. What they give
//! comes in as plain values; real numbers come in as [`number::Number`].
pub mod bench;
pub mod cli;
pub mod dataset;
pub mod model;
pub mod number;
pub mod order;
pub mod pretty;
pub mod py_bench;
pub mod readback;
pub mod text;
pub mod truth;
pub mod wav;
pub mod wer;

pub use wav::load_wav_from_bytes;
pub use wer::{AlignmentResult, Op, TimingStats, Token, Word, timing_stats};
