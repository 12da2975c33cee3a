//! Benchmark runs: the words of a hypothesis, the score of a file, and the
//! bookkeeping of a run over a corpus.
//!
//! A run is driven from outside: the driver reads a row, transcribes it and
//! aligns it, and [`CorpusRun`] says whether another row is wanted, takes the
//! score and says when progress is due.
use crate::number::Number;
use crate::order;
use crate::text;
use crate::wer;
use crate::wer::{AlignmentResult, TimingStats, Word, WordView, fold_short_i};
use vstd::prelude::*;

verus! {

/// The words that are not blank.
pub open spec fn spoken(raw: Seq<Word>) -> Seq<Word> {
    raw.filter(not_blank())
}

pub open spec fn not_blank() -> spec_fn(Word) -> bool {
    |w: Word| !text::is_blank(w.text@)
}

/// The words with their texts folded.
pub open spec fn folded_words(words: Seq<Word>) -> Seq<WordView> {
    words.map_values(
        |w: Word| WordView { text: wer::folded(w.text@), start: w.start, end: w.end },
    )
}

/// The words that a model heard, without the blank ones, and with `й` folded
/// to `и`.
pub fn hyp_words(raw: &[Word]) -> (words: Vec<Word>)
    ensures
        wer::views(words@) == folded_words(spoken(raw@)),
        words@.len() == spoken(raw@).len(),
        forall|i: int|
            0 <= i < words@.len() ==> (#[trigger] words@[i]).text@ == wer::folded(
                spoken(raw@)[i].text@,
            ) && words@[i].start == spoken(raw@)[i].start && words@[i].end == spoken(raw@)[i].end,
{
    let mut words: Vec<Word> = Vec::new();
    proof {
        raw@.take(0).lemma_filter_len(not_blank());
    }
    for i in 0..raw.len()
        invariant
            wer::views(words@) =~= folded_words(spoken(raw@.take(i as int))),
    {
        let w = &raw[i];
        let ghost before = spoken(raw@.take(i as int));
        proof {
            assert(raw@.take(i + 1) == raw@.take(i as int).push(*w));
            raw@.take(i as int).lemma_filter_push(*w, not_blank());
        }
        if !text::blank(w.text.as_str()) {
            let word = Word::new(fold_short_i(w.text.as_str()), w.start, w.end);
            assert(folded_words(before.push(*w)) =~= folded_words(before).push(word@));
            assert(wer::views(words@.push(word)) =~= wer::views(words@).push(word@));
            words.push(word);
        }
    }
    assert(raw@.take(raw@.len() as int) == raw@);
    assert forall|i: int| 0 <= i < words@.len() implies (#[trigger] words@[i]).text@ == wer::folded(
        spoken(raw@)[i].text@,
    ) && words@[i].start == spoken(raw@)[i].start && words@[i].end == spoken(raw@)[i].end by {
        assert(wer::views(words@)[i] == words@[i]@);
    }
    words
}

/// The row of one file in the summary of a corpus.
#[derive(Debug)]
pub struct FileScore {
    pub idx: Option<i32>,
    pub path: String,
    pub duration_s: Number,
    pub transcribe_s: Number,
    pub wer: Number,
    pub subs: usize,
    pub dels: usize,
    pub ins: usize,
    /// The number of reference tokens, which `wer` is relative to.
    pub ref_len: usize,
    pub matched_pairs: usize,
    pub high_drift_pairs: usize,
    pub mean_abs_mid_s: Number,
}

impl FileScore {
    /// Whether the counts are those of `result` and `timing`.
    pub open spec fn counts(&self, result: AlignmentResult, timing: TimingStats) -> bool {
        &&& self.wer == result.wer
        &&& self.subs == result.substitutions
        &&& self.dels == result.deletions
        &&& self.ins == result.insertions
        &&& self.ref_len == result.ref_token_count
        &&& self.matched_pairs == timing.matched_pairs
        &&& self.high_drift_pairs == timing.high_drift_pairs
    }

    /// The score of one file; `mean_abs_mid_s` is the mean of its midpoint
    /// distances.
    pub fn from_result(
        idx: Option<i32>,
        path: String,
        duration_s: Number,
        transcribe_s: Number,
        result: &AlignmentResult,
        timing: &TimingStats,
        mean_abs_mid_s: Number,
    ) -> (score: FileScore)
        ensures
            score.idx == idx,
            score.path == path,
            score.duration_s == duration_s,
            score.transcribe_s == transcribe_s,
            score.counts(*result, *timing),
            score.wer == result.wer,
            score.subs == result.substitutions,
            score.dels == result.deletions,
            score.ins == result.insertions,
            score.ref_len == result.ref_token_count,
            score.matched_pairs == timing.matched_pairs,
            score.high_drift_pairs == timing.high_drift_pairs,
            score.mean_abs_mid_s == mean_abs_mid_s,
    {
        FileScore {
            idx,
            path,
            duration_s,
            transcribe_s,
            wer: result.wer,
            subs: result.substitutions,
            dels: result.deletions,
            ins: result.insertions,
            ref_len: result.ref_token_count,
            matched_pairs: timing.matched_pairs,
            high_drift_pairs: timing.high_drift_pairs,
            mean_abs_mid_s,
        }
    }
}

/// A quotient of two counts.
#[derive(Clone, Copy, Debug, PartialEq, Eq, Structural)]
pub struct Ratio {
    pub num: usize,
    pub den: usize,
}

/// `errors / ref_len`, and zero if there is no reference.
pub open spec fn rate_of(errors: nat, ref_len: nat) -> Ratio {
    if ref_len == 0 {
        Ratio { num: 0, den: 1 }
    } else {
        Ratio { num: errors as usize, den: ref_len as usize }
    }
}

/// The error rate over a corpus: the errors of all files over the reference
/// tokens of all files, zero if there are none.
pub fn error_rate(errors: usize, ref_len: usize) -> (r: Ratio)
    ensures
        r == rate_of(errors as nat, ref_len as nat),
        r.den > 0,
        ref_len > 0 ==> r.num * ref_len == errors * r.den,
        ref_len == 0 ==> r.num == 0,
{
    if ref_len == 0 {
        Ratio { num: 0, den: 1 }
    } else {
        Ratio { num: errors, den: ref_len }
    }
}

/// The sum of `counts`.
pub open spec fn total(counts: Seq<nat>) -> nat
    decreases counts.len(),
{
    if counts.len() == 0 {
        0
    } else {
        total(counts.drop_last()) + counts.last()
    }
}

pub open spec fn subs_of(files: Seq<FileScore>) -> Seq<nat> {
    files.map_values(|f: FileScore| f.subs as nat)
}

pub open spec fn dels_of(files: Seq<FileScore>) -> Seq<nat> {
    files.map_values(|f: FileScore| f.dels as nat)
}

pub open spec fn ins_of(files: Seq<FileScore>) -> Seq<nat> {
    files.map_values(|f: FileScore| f.ins as nat)
}

pub open spec fn ref_lens_of(files: Seq<FileScore>) -> Seq<nat> {
    files.map_values(|f: FileScore| f.ref_len as nat)
}

pub open spec fn matched_of(files: Seq<FileScore>) -> Seq<nat> {
    files.map_values(|f: FileScore| f.matched_pairs as nat)
}

pub open spec fn drifted_of(files: Seq<FileScore>) -> Seq<nat> {
    files.map_values(|f: FileScore| f.high_drift_pairs as nat)
}

pub open spec fn wers_of(files: Seq<FileScore>) -> Seq<Number> {
    files.map_values(|f: FileScore| f.wer)
}

/// The errors of all files.
pub open spec fn total_errors(files: Seq<FileScore>) -> nat {
    total(subs_of(files)) + total(dels_of(files)) + total(ins_of(files))
}

/// The reference tokens of all files.
pub open spec fn total_refs(files: Seq<FileScore>) -> nat {
    total(ref_lens_of(files))
}

/// The sums and the ranked error rates of a corpus.
#[derive(Debug)]
pub struct CorpusTotals {
    pub files: usize,
    pub subs: usize,
    pub dels: usize,
    pub ins: usize,
    pub ref_total: usize,
    /// The error rate over the whole corpus.
    pub overall: Ratio,
    /// The error rates of the files, from the lowest up.
    pub wers: Vec<Number>,
}

impl CorpusTotals {
    /// Whether these are the totals of `files`.
    pub open spec fn sums(&self, files: Seq<FileScore>) -> bool {
        &&& self.files == files.len()
        &&& self.subs == total(subs_of(files))
        &&& self.dels == total(dels_of(files))
        &&& self.ins == total(ins_of(files))
        &&& self.ref_total == total_refs(files)
        &&& self.overall == rate_of(total_errors(files), total_refs(files))
        &&& self.wers@ == order::ascending(wers_of(files))
    }
}

/// One more count adds to the total.
pub proof fn lemma_total_push(counts: Seq<nat>, n: nat)
    ensures
        total(counts.push(n)) == total(counts) + n,
{
    assert(counts.push(n).drop_last() == counts);
}

/// One more file adds its counts to the totals.
pub proof fn lemma_file_push(files: Seq<FileScore>, f: FileScore)
    ensures
        total(subs_of(files.push(f))) == total(subs_of(files)) + f.subs,
        total(dels_of(files.push(f))) == total(dels_of(files)) + f.dels,
        total(ins_of(files.push(f))) == total(ins_of(files)) + f.ins,
        total_refs(files.push(f)) == total_refs(files) + f.ref_len,
        total_errors(files.push(f)) == total_errors(files) + f.subs + f.dels + f.ins,
        total(matched_of(files.push(f))) == total(matched_of(files)) + f.matched_pairs,
        total(drifted_of(files.push(f))) == total(drifted_of(files)) + f.high_drift_pairs,
        wers_of(files.push(f)) == wers_of(files).push(f.wer),
{
    assert(subs_of(files.push(f)) == subs_of(files).push(f.subs as nat));
    assert(dels_of(files.push(f)) == dels_of(files).push(f.dels as nat));
    assert(ins_of(files.push(f)) == ins_of(files).push(f.ins as nat));
    assert(ref_lens_of(files.push(f)) == ref_lens_of(files).push(f.ref_len as nat));
    assert(matched_of(files.push(f)) == matched_of(files).push(f.matched_pairs as nat));
    assert(drifted_of(files.push(f)) == drifted_of(files).push(f.high_drift_pairs as nat));
    assert(wers_of(files.push(f)) == wers_of(files).push(f.wer));
    lemma_total_push(subs_of(files), f.subs as nat);
    lemma_total_push(dels_of(files), f.dels as nat);
    lemma_total_push(ins_of(files), f.ins as nat);
    lemma_total_push(ref_lens_of(files), f.ref_len as nat);
    lemma_total_push(matched_of(files), f.matched_pairs as nat);
    lemma_total_push(drifted_of(files), f.high_drift_pairs as nat);
}

/// The first files have no more errors or tokens than all files.
proof fn lemma_totals_grow(files: Seq<FileScore>, n: int)
    requires
        0 <= n <= files.len(),
    ensures
        total_errors(files.take(n)) <= total_errors(files),
        total_refs(files.take(n)) <= total_refs(files),
    decreases files.len() - n,
{
    if n < files.len() {
        lemma_totals_grow(files, n + 1);
        assert(files.take(n + 1) == files.take(n).push(files[n]));
        lemma_file_push(files.take(n), files[n]);
    } else {
        assert(files.take(n) == files);
    }
}

/// The totals of the files `files`; `None` if a sum does not fit in a `usize`.
pub fn corpus_totals(files: &[FileScore]) -> (r: Option<CorpusTotals>)
    ensures
        r is Some <==> total_errors(files@) <= usize::MAX && total_refs(files@) <= usize::MAX,
        match r {
            Some(t) => t.sums(files@),
            None => total_errors(files@) > usize::MAX || total_refs(files@) > usize::MAX,
        },
{
    let mut subs: usize = 0;
    let mut dels: usize = 0;
    let mut ins: usize = 0;
    let mut ref_total: usize = 0;
    let mut wers: Vec<Number> = Vec::new();
    assert(subs_of(files@.take(0)).len() == 0);
    for i in 0..files.len()
        invariant
            subs == total(subs_of(files@.take(i as int))),
            dels == total(dels_of(files@.take(i as int))),
            ins == total(ins_of(files@.take(i as int))),
            ref_total == total_refs(files@.take(i as int)),
            total_errors(files@.take(i as int)) <= usize::MAX,
            wers@ =~= wers_of(files@.take(i as int)),
    {
        let f = &files[i];
        proof {
            assert(files@.take(i + 1) == files@.take(i as int).push(files@[i as int]));
            lemma_file_push(files@.take(i as int), files@[i as int]);
            lemma_totals_grow(files@, i + 1);
        }
        let mut room: usize = usize::MAX - subs - dels - ins;
        if f.subs > room {
            return None;
        }
        room = room - f.subs;
        if f.dels > room {
            return None;
        }
        room = room - f.dels;
        if f.ins > room || f.ref_len > usize::MAX - ref_total {
            return None;
        }
        subs = subs + f.subs;
        dels = dels + f.dels;
        ins = ins + f.ins;
        ref_total = ref_total + f.ref_len;
        wers.push(f.wer);
    }
    assert(files@.take(files@.len() as int) == files@);
    Some(
        CorpusTotals {
            files: files.len(),
            subs,
            dels,
            ins,
            ref_total,
            overall: error_rate(subs + dels + ins, ref_total),
            wers: order::sort_ascending(wers.as_slice()),
        },
    )
}

/// How far a run has come: the files scored so far, and their error rate.
#[derive(Clone, Copy, Debug, PartialEq, Eq, Structural)]
pub struct Progress {
    pub processed: usize,
    pub rolling: Ratio,
}

/// After how many files progress is due again.
pub const PROGRESS_STEP: usize = 10;

/// The name under which a corpus run lists a row of the dataset.
pub open spec fn row_name(idx: int) -> Seq<char> {
    "idx"@ + text::zero_filled(idx, 5)
}

/// The name under which the panel shows a row of the dataset.
pub open spec fn panel_name(idx: int) -> Seq<char> {
    "dataset[idx="@ + text::signed(idx) + "]"@
}

/// The name under which the panel shows a row of the dataset.
pub fn dataset_label(idx: i32) -> (s: String)
    ensures
        s@ == panel_name(idx as int),
        s@ == "dataset[idx="@ + text::signed(idx as int) + "]"@,
{
    "dataset[idx=".to_owned().concat(text::signed_of(idx).as_str()).concat("]")
}

/// What is said of a row that the dataset does not have.
pub fn not_found(idx: i32) -> (s: String)
    ensures
        s@ == "idx "@ + text::signed(idx as int) + " not found in dataset"@,
{
    "idx ".to_owned().concat(text::signed_of(idx).as_str()).concat(" not found in dataset")
}

/// A run over the rows of a dataset.
#[derive(Debug)]
pub struct CorpusRun {
    /// The number of rows to score; 0 for all.
    pub limit: usize,
    pub processed: usize,
    pub total_errors: usize,
    pub total_ref_len: usize,
    pub total_timing: TimingStats,
    pub per_file: Vec<FileScore>,
}

impl CorpusRun {
    /// Whether the counters agree with the files scored so far.
    pub open spec fn wf(&self) -> bool {
        &&& self.processed == self.per_file@.len()
        &&& self.limit > 0 ==> self.processed <= self.limit
        &&& self.total_errors == total_errors(self.per_file@)
        &&& self.total_ref_len == total_refs(self.per_file@)
        &&& self.total_timing.matched_pairs == total(matched_of(self.per_file@))
        &&& self.total_timing.high_drift_pairs == total(drifted_of(self.per_file@))
    }

    /// Whether the run goes on with another row.
    pub open spec fn is_open(&self) -> bool {
        self.limit == 0 || self.processed < self.limit
    }

    /// Whether the counters can take one more file.
    pub open spec fn has_room_for(&self, result: AlignmentResult, timing: TimingStats) -> bool {
        &&& self.processed < usize::MAX
        &&& self.total_errors + result.error_count() <= usize::MAX
        &&& self.total_ref_len + result.ref_token_count <= usize::MAX
        &&& self.total_timing.matched_pairs + timing.matched_pairs <= usize::MAX
        &&& self.total_timing.high_drift_pairs + timing.high_drift_pairs <= usize::MAX
    }

    /// A run that has scored nothing.
    pub fn new(limit: usize) -> (run: CorpusRun)
        ensures
            run.wf(),
            run.limit == limit,
            run.per_file@.len() == 0,
            run.total_timing.is_fresh(),
            run.processed == 0,
            run.total_errors == 0,
            run.total_ref_len == 0,
            run.total_timing.matched_pairs == 0,
            run.total_timing.mid_abs_deltas@.len() == 0,
            run.total_timing.high_drift_pairs == 0,
    {
        let run = CorpusRun {
            limit,
            processed: 0,
            total_errors: 0,
            total_ref_len: 0,
            total_timing: TimingStats::default(),
            per_file: Vec::new(),
        };
        assert(subs_of(run.per_file@).len() == 0);
        run
    }

    /// Whether another row is wanted; asked before a row is looked at, so that
    /// a bad row behind the limit does no harm.
    pub fn wants_row(&self) -> (b: bool)
        ensures
            b == self.is_open(),
            b <==> self.limit == 0 || self.processed < self.limit,
    {
        !(self.limit > 0 && self.processed >= self.limit)
    }

    /// Whether the counters can take one more file.
    pub fn has_room(&self, result: &AlignmentResult, timing: &TimingStats) -> (b: bool)
        ensures
            b == self.has_room_for(*result, *timing),
            b <==> self.processed < usize::MAX && self.total_errors + result.substitutions
                + result.deletions + result.insertions <= usize::MAX && self.total_ref_len
                + result.ref_token_count <= usize::MAX && self.total_timing.matched_pairs
                + timing.matched_pairs <= usize::MAX && self.total_timing.high_drift_pairs
                + timing.high_drift_pairs <= usize::MAX,
    {
        if self.processed == usize::MAX {
            return false;
        }
        let mut room: usize = usize::MAX - self.total_errors;
        if result.substitutions > room {
            return false;
        }
        room = room - result.substitutions;
        if result.deletions > room {
            return false;
        }
        room = room - result.deletions;
        result.insertions <= room && result.ref_token_count <= usize::MAX - self.total_ref_len
            && timing.matched_pairs <= usize::MAX - self.total_timing.matched_pairs
            && timing.high_drift_pairs <= usize::MAX - self.total_timing.high_drift_pairs
    }

    /// Take the score of a row. Every tenth row gives a progress report.
    pub fn record(
        &mut self,
        idx: i32,
        duration_s: Number,
        transcribe_s: Number,
        result: &AlignmentResult,
        timing: &TimingStats,
        mean_abs_mid_s: Number,
    ) -> (progress: Option<Progress>)
        requires
            old(self).wf(),
            old(self).is_open(),
            old(self).has_room_for(*result, *timing),
        ensures
            final(self).wf(),
            final(self).limit == old(self).limit,
            final(self).processed == old(self).processed + 1,
            final(self).per_file@.drop_last() == old(self).per_file@,
            ({
                let score = final(self).per_file@.last();
                &&& score.idx == Some(idx)
                &&& score.path@ == row_name(idx as int)
                &&& score.path@ == "idx"@ + text::zero_filled(idx as int, 5)
                &&& score.duration_s == duration_s
                &&& score.transcribe_s == transcribe_s
                &&& score.counts(*result, *timing)
                &&& score.mean_abs_mid_s == mean_abs_mid_s
                &&& score.wer == result.wer
                &&& score.subs == result.substitutions
                &&& score.dels == result.deletions
                &&& score.ins == result.insertions
                &&& score.ref_len == result.ref_token_count
                &&& score.matched_pairs == timing.matched_pairs
                &&& score.high_drift_pairs == timing.high_drift_pairs
            }),
            final(self).total_errors == old(self).total_errors + result.substitutions
                + result.deletions + result.insertions,
            final(self).total_ref_len == old(self).total_ref_len + result.ref_token_count,
            final(self).total_timing.matched_pairs == old(self).total_timing.matched_pairs
                + timing.matched_pairs,
            final(self).total_timing.mid_abs_deltas@ == old(self).total_timing.mid_abs_deltas@
                + timing.mid_abs_deltas@,
            final(self).total_timing.start_signed_deltas@
                == old(self).total_timing.start_signed_deltas@ + timing.start_signed_deltas@,
            final(self).total_timing.end_signed_deltas@
                == old(self).total_timing.end_signed_deltas@ + timing.end_signed_deltas@,
            final(self).total_timing.high_drift_pairs == old(self).total_timing.high_drift_pairs
                + timing.high_drift_pairs,
            progress is Some <==> final(self).processed % 10 == 0,
            progress matches Some(p) ==> p.processed == final(self).processed && p.rolling.den > 0
                && (final(self).total_ref_len > 0 ==> p.rolling.num * final(self).total_ref_len
                == final(self).total_errors * p.rolling.den) && (final(self).total_ref_len == 0
                ==> p.rolling.num == 0),
            final(self).total_timing.is_merge_of(old(self).total_timing, *timing),
            progress == (if final(self).processed % PROGRESS_STEP == 0 {
                Some(
                    Progress {
                        processed: final(self).processed,
                        rolling: rate_of(
                            total_errors(final(self).per_file@),
                            total_refs(final(self).per_file@),
                        ),
                    },
                )
            } else {
                None
            }),
    {
        self.total_timing.merge(timing);
        self.total_errors = self.total_errors + result.errors();
        self.total_ref_len = self.total_ref_len + result.ref_token_count;
        let path = "idx".to_owned().concat(text::zero_filled_of(idx, 5).as_str());
        let score = FileScore::from_result(
            Some(idx),
            path,
            duration_s,
            transcribe_s,
            result,
            timing,
            mean_abs_mid_s,
        );
        proof {
            lemma_file_push(self.per_file@, score);
        }
        self.per_file.push(score);
        assert(self.per_file@.drop_last() == old(self).per_file@);
        self.processed = self.processed + 1;
        if self.processed % PROGRESS_STEP == 0 {
            Some(
                Progress {
                    processed: self.processed,
                    rolling: error_rate(self.total_errors, self.total_ref_len),
                },
            )
        } else {
            None
        }
    }

    /// Whether the run has anything to show.
    pub fn finish(&self) -> (r: Result<(), &'static str>)
        ensures
            self.per_file@.len() > 0 ==> r is Ok,
            self.per_file@.len() == 0 ==> r == Err::<(), &'static str>("dataset is empty"),
    {
        if self.per_file.len() == 0 {
            Err("dataset is empty")
        } else {
            Ok(())
        }
    }
}

/// The sum over two stretches of files is the sum of their sums.
proof fn lemma_total_by_parts(a: Seq<nat>, b: Seq<nat>)
    ensures
        total(a + b) == total(a) + total(b),
    decreases b.len(),
{
    if b.len() == 0 {
        assert(a + b =~= a);
    } else {
        lemma_total_by_parts(a, b.drop_last());
        assert((a + b).drop_last() =~= a + b.drop_last());
    }
}

/// The corpus is scored by sums: the errors and the reference tokens of two
/// sets of files together are those of the one plus those of the other.
pub proof fn law_totals_by_parts(a: Seq<FileScore>, b: Seq<FileScore>)
    ensures
        total_errors(a + b) == total_errors(a) + total_errors(b),
        total_refs(a + b) == total_refs(a) + total_refs(b),
{
    assert(subs_of(a + b) =~= subs_of(a) + subs_of(b));
    assert(dels_of(a + b) =~= dels_of(a) + dels_of(b));
    assert(ins_of(a + b) =~= ins_of(a) + ins_of(b));
    assert(ref_lens_of(a + b) =~= ref_lens_of(a) + ref_lens_of(b));
    lemma_total_by_parts(subs_of(a), subs_of(b));
    lemma_total_by_parts(dels_of(a), dels_of(b));
    lemma_total_by_parts(ins_of(a), ins_of(b));
    lemma_total_by_parts(ref_lens_of(a), ref_lens_of(b));
}

/// Taking a count away takes it from the sum.
pub proof fn lemma_total_remove(counts: Seq<nat>, i: int)
    requires
        0 <= i < counts.len(),
    ensures
        total(counts) == total(counts.remove(i)) + counts[i],
    decreases counts.len(),
{
    if i == counts.len() - 1 {
        assert(counts.remove(i) =~= counts.drop_last());
    } else {
        lemma_total_remove(counts.drop_last(), i);
        assert(counts.remove(i).drop_last() =~= counts.drop_last().remove(i));
    }
}

/// Taking a file away takes its counts from the totals.
proof fn lemma_file_remove(files: Seq<FileScore>, i: int)
    requires
        0 <= i < files.len(),
    ensures
        total_errors(files) == total_errors(files.remove(i)) + files[i].subs + files[i].dels
            + files[i].ins,
        total_refs(files) == total_refs(files.remove(i)) + files[i].ref_len,
{
    assert(subs_of(files.remove(i)) =~= subs_of(files).remove(i));
    assert(dels_of(files.remove(i)) =~= dels_of(files).remove(i));
    assert(ins_of(files.remove(i)) =~= ins_of(files).remove(i));
    assert(ref_lens_of(files.remove(i)) =~= ref_lens_of(files).remove(i));
    lemma_total_remove(subs_of(files), i);
    lemma_total_remove(dels_of(files), i);
    lemma_total_remove(ins_of(files), i);
    lemma_total_remove(ref_lens_of(files), i);
}

/// The order in which files are scored does not matter to the error rate of
/// the corpus.
pub proof fn law_totals_ignore_order(a: Seq<FileScore>, b: Seq<FileScore>)
    requires
        a.to_multiset() == b.to_multiset(),
    ensures
        total_errors(a) == total_errors(b),
        total_refs(a) == total_refs(b),
        rate_of(total_errors(a), total_refs(a)) == rate_of(total_errors(b), total_refs(b)),
    decreases a.len(),
{
    broadcast use vstd::seq_lib::group_to_multiset_ensures;

    assert(a.len() == a.to_multiset().len());
    assert(b.len() == b.to_multiset().len());
    if a.len() == 0 {
        assert(a =~= b);
    } else {
        let last = a.len() - 1;
        assert(a.contains(a[last]));
        assert(b.to_multiset().count(a[last]) > 0);
        let at = choose|i: int| 0 <= i < b.len() && b[i] == a[last];
        assert(a.remove(last).to_multiset() =~= b.remove(at).to_multiset());
        law_totals_ignore_order(a.remove(last), b.remove(at));
        lemma_file_remove(a, last);
        lemma_file_remove(b, at);
    }
}

/// The summary of a run shows the counters that the run kept.
pub proof fn law_summary_agrees_with_run(run: CorpusRun, totals: CorpusTotals)
    requires
        run.wf(),
        totals.sums(run.per_file@),
    ensures
        totals.files == run.processed,
        totals.subs + totals.dels + totals.ins == run.total_errors,
        totals.ref_total == run.total_ref_len,
        totals.overall == rate_of(run.total_errors as nat, run.total_ref_len as nat),
{
}

/// A word of a hypothesis is a word that the model heard and is not blank, and
/// no word that is not blank is lost.
pub proof fn law_spoken_words(raw: Seq<Word>, w: Word)
    ensures
        spoken(raw).contains(w) <==> raw.contains(w) && !text::is_blank(w.text@),
{
    if spoken(raw).contains(w) {
        let i = choose|i: int| 0 <= i < spoken(raw).len() && spoken(raw)[i] == w;
        raw.lemma_filter_pred(not_blank(), i);
        raw.lemma_filter_contains_rev(not_blank(), w);
    }
    if raw.contains(w) && !text::is_blank(w.text@) {
        let i = choose|i: int| 0 <= i < raw.len() && raw[i] == w;
        raw.lemma_filter_contains(not_blank(), i);
    }
}

/// The words of a hypothesis are folded already, so that nothing behind has to
/// fold them again.
pub proof fn law_hypothesis_is_folded(words: Seq<Word>)
    ensures
        wer::all_folded(folded_words(words)),
{
    assert forall|i: int| 0 <= i < words.len() implies wer::folded(
        (#[trigger] folded_words(words)[i]).text,
    ) == folded_words(words)[i].text by {
        wer::law_fold_is_idempotent(words[i].text@);
    }
}

/// A rate is the quotient of its two counts: it has a denominator, the cross
/// products agree, and without a reference it is zero.
pub proof fn law_rate_is_quotient(errors: nat, ref_len: nat)
    requires
        errors <= usize::MAX,
        ref_len <= usize::MAX,
    ensures
        rate_of(errors, ref_len).den > 0,
        ref_len > 0 ==> rate_of(errors, ref_len).num * ref_len == errors * rate_of(
            errors,
            ref_len,
        ).den,
        ref_len == 0 ==> rate_of(errors, ref_len).num == 0,
{
}

/// More errors over the same reference are a higher rate, and more reference
/// with the same errors is a lower one.
pub proof fn law_rate_is_monotone(errors: nat, ref_len: nat, more: nat)
    requires
        0 < errors,
        0 < ref_len,
        0 < more,
        errors + more <= usize::MAX,
        ref_len + more <= usize::MAX,
    ensures
        ({
            let r = rate_of(errors, ref_len);
            let worse = rate_of(errors + more, ref_len);
            let better = rate_of(errors, ref_len + more);
            &&& r.num * worse.den < worse.num * r.den
            &&& better.num * r.den < r.num * better.den
        }),
{
    assert(errors * ref_len < (errors + more) * ref_len) by (nonlinear_arith)
        requires
            ref_len > 0,
            more > 0,
    ;
    assert(errors * ref_len < errors * (ref_len + more)) by (nonlinear_arith)
        requires
            errors > 0,
            more > 0,
    ;
}

/// The totals of no file are zero, those of one file are its own counts.
pub proof fn law_totals_of_one_file(f: FileScore)
    ensures
        total_errors(Seq::<FileScore>::empty()) == 0,
        total_refs(Seq::<FileScore>::empty()) == 0,
        total_errors(seq![f]) == f.subs + f.dels + f.ins,
        total_refs(seq![f]) == f.ref_len,
{
    let none = Seq::<FileScore>::empty();
    assert(subs_of(none).len() == 0);
    assert(dels_of(none).len() == 0);
    assert(ins_of(none).len() == 0);
    assert(ref_lens_of(none).len() == 0);
    lemma_file_push(none, f);
    assert(none.push(f) =~= seq![f]);
}

/// What a summary shows grows file by file: each count by that of the file, the
/// rate as the quotient of the two sums, and the ranked rates by the rate of the
/// file.
pub proof fn law_summary_by_files(
    before: CorpusTotals,
    after: CorpusTotals,
    files: Seq<FileScore>,
    f: FileScore,
)
    requires
        before.sums(files),
        after.sums(files.push(f)),
        total_errors(files.push(f)) <= usize::MAX,
        files.len() < usize::MAX,
    ensures
        after.files == before.files + 1,
        after.subs == before.subs + f.subs,
        after.dels == before.dels + f.dels,
        after.ins == before.ins + f.ins,
        after.ref_total == before.ref_total + f.ref_len,
        after.overall.den > 0,
        after.ref_total > 0 ==> after.overall.num * after.ref_total == (after.subs + after.dels
            + after.ins) * after.overall.den,
        after.ref_total == 0 ==> after.overall.num == 0,
        after.wers@.to_multiset() == before.wers@.to_multiset().insert(f.wer),
        forall|i: int, j: int|
            0 <= i < j < after.wers@.len() ==> (#[trigger] after.wers@[i]).key() <= (
            #[trigger] after.wers@[j]).key(),
        files.len() == 0 ==> before.files == 0 && before.subs == 0 && before.dels == 0 && before.ins
            == 0 && before.ref_total == 0 && before.overall.num == 0 && before.overall.den > 0
            && before.wers@.len() == 0,
{
    broadcast use vstd::seq_lib::group_to_multiset_ensures;

    lemma_file_push(files, f);
    order::law_ascending_is_sorted(wers_of(files));
    order::law_ascending_is_sorted(wers_of(files.push(f)));
    if files.len() == 0 {
        law_totals_of_one_file(f);
        assert(files =~= Seq::<FileScore>::empty());
        assert(subs_of(files).len() == 0);
        assert(dels_of(files).len() == 0);
        assert(ins_of(files).len() == 0);
    }
}

/// The words of a hypothesis grow word by word: one that is not blank is added
/// at the end, a blank one is passed over.
pub proof fn law_spoken_by_words(raw: Seq<Word>, w: Word)
    ensures
        spoken(Seq::<Word>::empty()).len() == 0,
        text::is_blank(w.text@) ==> spoken(raw.push(w)) == spoken(raw),
        !text::is_blank(w.text@) ==> spoken(raw.push(w)) == spoken(raw).push(w),
{
    Seq::<Word>::empty().lemma_filter_len(not_blank());
    raw.lemma_filter_push(w, not_blank());
}

/// Folding words changes their texts and keeps their times.
pub proof fn law_folded_words_keep_times(words: Seq<Word>, i: int)
    requires
        0 <= i < words.len(),
    ensures
        folded_words(words).len() == words.len(),
        folded_words(words)[i].text == wer::folded(words[i].text@),
        folded_words(words)[i].start == words[i].start,
        folded_words(words)[i].end == words[i].end,
{
}

} // verus!
