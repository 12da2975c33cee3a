//! The benchmark of a transcription script: its output lines, the ground truth
//! for them, and the report.
//!
//! The script gives no times, so only the error rate is scored.
use crate::bench;
use crate::bench::{Ratio, error_rate};
use crate::number::Number;
use crate::order;
use crate::text;
use crate::truth;
use crate::truth::TruthRow;
use crate::wer;
use crate::wer::{AlignmentResult, Word, WordView, fold_short_i};
use std::collections::HashMap;
use vstd::prelude::*;

verus! {

broadcast use vstd::std_specs::hash::group_hash_axioms;

/// The words `words`, folded and without times.
pub open spec fn untimed(words: Seq<Seq<char>>) -> Seq<WordView> {
    words.map_values(
        |w: Seq<char>|
            WordView {
                text: wer::folded(w),
                start: Number::spec_zero(),
                end: Number::spec_zero(),
            },
    )
}

/// The words of a transcript, with `й` folded to `и` and without times.
pub fn tokenize_hyp(transcript: &str) -> (words: Vec<Word>)
    ensures
        wer::views(words@) == untimed(text::words_of(transcript@)),
        words@.len() == text::words_of(transcript@).len(),
        forall|i: int|
            0 <= i < words@.len() ==> (#[trigger] words@[i]).text@ == wer::folded(
                text::words_of(transcript@)[i],
            ) && words@[i].start.bits == 0 && words@[i].end.bits == 0,
{
    let parts = text::split_white_space(transcript);
    let ghost views = parts@.map_values(|w: String| w@);
    let mut words: Vec<Word> = Vec::new();
    for i in 0..parts.len()
        invariant
            views == parts@.map_values(|w: String| w@),
            wer::views(words@) =~= untimed(views.take(i as int)),
    {
        let word = Word::new(fold_short_i(parts[i].as_str()), Number::zero(), Number::zero());
        assert(untimed(views.take(i + 1)) =~= untimed(views.take(i as int)).push(word@));
        assert(wer::views(words@.push(word)) =~= wer::views(words@).push(word@));
        words.push(word);
    }
    assert(views.take(views.len() as int) == views);
    assert forall|i: int| 0 <= i < words@.len() implies (#[trigger] words@[i]).text@ == wer::folded(
        text::words_of(transcript@)[i],
    ) && words@[i].start.bits == 0 && words@[i].end.bits == 0 by {
        assert(wer::views(words@)[i] == words@[i]@);
    }
    words
}

/// The ground truth of the first rows of a dataset.
#[derive(Debug)]
pub struct GroundTruth {
    /// The number of rows to keep; 0 for all.
    pub limit: usize,
    pub rows: HashMap<i32, TruthRow>,
}

impl GroundTruth {
    /// Whether no more rows are kept than were asked for.
    pub open spec fn wf(&self) -> bool {
        self.limit > 0 ==> self.rows@.len() <= self.limit
    }

    /// Whether another row is kept.
    pub open spec fn is_open(&self) -> bool {
        self.limit == 0 || self.rows@.len() < self.limit
    }

    /// No ground truth yet.
    pub fn new(limit: usize) -> (truth: GroundTruth)
        ensures
            truth.wf(),
            truth.limit == limit,
            truth.rows@ == Map::<i32, TruthRow>::empty(),
    {
        GroundTruth { limit, rows: HashMap::new() }
    }

    /// Whether another row is wanted; asked before a row is looked at.
    pub fn wants_row(&self) -> (b: bool)
        ensures
            b == self.is_open(),
            b <==> self.limit == 0 || self.rows@.len() < self.limit,
    {
        !(self.limit > 0 && self.rows.len() >= self.limit)
    }

    /// Keep a row, in place of one with the same index.
    pub fn insert(&mut self, row: TruthRow)
        requires
            old(self).wf(),
            old(self).is_open(),
        ensures
            final(self).wf(),
            final(self).limit == old(self).limit,
            final(self).rows@ == old(self).rows@.insert(row.idx, row),
    {
        self.rows.insert(row.idx, row);
    }

    /// The row with the index `idx`, or what is said where there is none.
    pub fn lookup(&self, idx: i32) -> (r: Result<&TruthRow, String>)
        ensures
            match r {
                Ok(row) => self.rows@.contains_key(idx) && self.rows@[idx] == *row,
                Err(e) => !self.rows@.contains_key(idx) && e@ == "idx "@ + text::signed(
                    idx as int,
                ) + " from python not in first "@ + text::decimal(self.limit as nat)
                    + " dataset rows"@,
            },
    {
        match self.rows.get(&idx) {
            Some(row) => Ok(row),
            None => Err(
                "idx ".to_owned().concat(text::signed_of(idx).as_str()).concat(
                    " from python not in first ",
                ).concat(text::decimal_of(self.limit as u64).as_str()).concat(" dataset rows"),
            ),
        }
    }
}

/// What is kept of `rows` under the limit `limit`: a row is looked at while
/// another one is wanted, and then takes the place of one with the same index.
pub open spec fn first_rows(rows: Seq<TruthRow>, limit: nat) -> Map<i32, TruthRow>
    decreases rows.len(),
{
    if rows.len() == 0 {
        Map::empty()
    } else {
        let before = first_rows(rows.drop_last(), limit);
        if limit == 0 || before.len() < limit {
            before.insert(rows.last().idx, rows.last())
        } else {
            before
        }
    }
}

proof fn lemma_finitely_many(rows: Seq<TruthRow>, limit: nat)
    ensures
        first_rows(rows, limit).dom().finite(),
    decreases rows.len(),
{
    if rows.len() > 0 {
        lemma_finitely_many(rows.drop_last(), limit);
    }
}

/// No more rows are kept than the limit, and what is found under an index is a
/// row with that index.
pub proof fn law_limit_caps_rows(rows: Seq<TruthRow>, limit: nat)
    ensures
        limit > 0 ==> first_rows(rows, limit).len() <= limit,
        forall|idx: i32| #[trigger]
            first_rows(rows, limit).contains_key(idx) ==> rows.contains(
                first_rows(rows, limit)[idx],
            ) && first_rows(rows, limit)[idx].idx == idx,
    decreases rows.len(),
{
    broadcast use vstd::set::group_set_axioms;

    if rows.len() > 0 {
        let init = rows.drop_last();
        law_limit_caps_rows(init, limit);
        lemma_finitely_many(init, limit);
        let kept = first_rows(rows, limit);
        assert forall|idx: i32| #[trigger] kept.contains_key(idx) implies rows.contains(kept[idx])
            && kept[idx].idx == idx by {
            if kept[idx] == rows.last() {
                assert(rows[rows.len() - 1] == rows.last());
            } else {
                assert(first_rows(init, limit).contains_key(idx));
                let k = choose|k: int| 0 <= k < init.len() && init[k] == kept[idx];
                assert(rows[k] == init[k]);
            }
        }
    }
}

/// Without a limit, every row is kept, of two with one index the later.
pub proof fn law_no_limit_keeps_all(rows: Seq<TruthRow>)
    ensures
        first_rows(rows, 0) == truth::truth_map(rows),
    decreases rows.len(),
{
    if rows.len() > 0 {
        law_no_limit_keeps_all(rows.drop_last());
    }
}

/// Behind the limit nothing changes: once as many rows are kept as were asked
/// for, no further row is looked at.
pub proof fn law_full_stays_full(rows: Seq<TruthRow>, more: Seq<TruthRow>, limit: nat)
    requires
        limit > 0,
        first_rows(rows, limit).len() >= limit,
    ensures
        first_rows(rows + more, limit) == first_rows(rows, limit),
    decreases more.len(),
{
    if more.len() == 0 {
        assert(rows + more =~= rows);
    } else {
        law_full_stays_full(rows, more.drop_last(), limit);
        assert((rows + more).drop_last() =~= rows + more.drop_last());
    }
}

/// One line of the script's output: the row, the seconds that it took as they
/// were printed, and the transcript.
#[derive(Debug)]
pub struct OutputLine {
    pub idx: i32,
    pub inference: String,
    pub transcript: String,
}

/// Why a line of output cannot be used.
#[derive(Debug)]
pub enum LineError {
    /// It has fewer than three columns.
    Malformed,
    /// Its first column, which is given, is no row index.
    BadIdx(String),
}

/// The three columns of a line; the third runs to its end.
pub open spec fn columns_of(line: Seq<char>) -> Option<(Seq<char>, Seq<char>, Seq<char>)> {
    match text::parted(line, '\t') {
        Some((idx, rest)) => match text::parted(rest, '\t') {
            Some((inference, transcript)) => Some((idx, inference, transcript)),
            None => None,
        },
        None => None,
    }
}

/// Whether `s` stands for an `i32`.
pub open spec fn is_i32(s: Seq<char>) -> bool {
    text::int_value(s) is Some && i32::MIN <= text::int_value(s)->0 <= i32::MAX
}

/// Read a line of output: index, seconds and transcript, separated by tabs.
pub fn parse_line(line: &str) -> (r: Result<OutputLine, LineError>)
    ensures
        match columns_of(line@) {
            None => r is Err && r->Err_0 is Malformed,
            Some((idx, inference, transcript)) => if is_i32(idx) {
                &&& r is Ok
                &&& r->Ok_0.idx == text::int_value(idx)->0
                &&& r->Ok_0.inference@ == inference
                &&& r->Ok_0.transcript@ == transcript
            } else {
                r is Err && r->Err_0 is BadIdx && r->Err_0->BadIdx_0@ == idx
            },
        },
        r matches Ok(line_read) ==> columns_of(line@) is Some && text::int_value(
            columns_of(line@).unwrap().0,
        ) == Some(line_read.idx as int),
        r matches Err(LineError::BadIdx(idx)) ==> (match text::int_value(idx@) {
            Some(i) => i < i32::MIN || i > i32::MAX,
            None => true,
        }),
{
    let (idx, rest) = match text::split_once(line, '\t') {
        Some(parts) => parts,
        None => return Err(LineError::Malformed),
    };
    let (inference, transcript) = match text::split_once(rest.as_str(), '\t') {
        Some(parts) => parts,
        None => return Err(LineError::Malformed),
    };
    match text::parse_i32(idx.as_str()) {
        Some(i) => Ok(OutputLine { idx: i, inference, transcript }),
        None => Err(LineError::BadIdx(idx)),
    }
}

/// What is said of a malformed line, up to the line itself; lines are counted
/// from 1.
pub fn malformed_line(line_no: usize) -> (r: String)
    ensures
        r@ == "malformed TSV at line "@ + text::decimal(line_no as nat) + ": "@,
{
    "malformed TSV at line ".to_owned().concat(text::decimal_of(line_no as u64).as_str()).concat(
        ": ",
    )
}

/// The two columns of what the script prints for a single file. White space
/// around is no part of them; the tab that ends the seconds is kept apart from
/// it, so that the transcript may be empty.
pub open spec fn single_columns(stdout: Seq<char>) -> Option<(Seq<char>, Seq<char>)> {
    match text::parted(text::trimmed_start(stdout), '\t') {
        Some((inference, transcript)) => Some((inference, text::trimmed_end(transcript))),
        None => None,
    }
}

/// Read what the script prints for a single file: seconds and transcript,
/// separated by a tab, with white space around; `None` if no tab stands behind
/// the leading white space.
pub fn parse_single_output(stdout: &str) -> (r: Option<(String, String)>)
    ensures
        match single_columns(stdout@) {
            Some((inference, transcript)) => r matches Some((i, t)) && i@ == inference && t@
                == transcript,
            None => r is None,
        },
{
    match text::split_once(text::trim_start(stdout).as_str(), '\t') {
        Some((inference, transcript)) => Some((inference, text::trim_end(transcript.as_str()))),
        None => None,
    }
}

/// What is said of a script that failed; `status` says how it ended.
pub open spec fn exit_complaint(status: Seq<char>) -> Seq<char> {
    "python subprocess exited with "@ + status
}

/// The seconds and the transcript of a single file, once the script is done.
/// `status` says how it ended, and `shown` is its output as a complaint shows
/// it.
pub fn finish_single(success: bool, status: &str, stdout: &str, shown: &str) -> (r: Result<
    (String, String),
    String,
>)
    ensures
        if !success {
            r is Err && r->Err_0@ == exit_complaint(status@) && r->Err_0@
                == "python subprocess exited with "@ + status@
        } else {
            match single_columns(stdout@) {
                Some((inference, transcript)) => r matches Ok((i, t)) && i@ == inference && t@
                    == transcript,
                None => r is Err && r->Err_0@
                    == "python single-mode output missing timing column: "@ + shown@,
            }
        },
{
    if !success {
        return Err("python subprocess exited with ".to_owned().concat(status));
    }
    match parse_single_output(stdout) {
        Some(columns) => Ok(columns),
        None => Err(
            "python single-mode output missing timing column: ".to_owned().concat(shown),
        ),
    }
}

/// The name under which the panel shows a row.
pub fn single_label(idx: i32) -> (s: String)
    ensures
        s@ == "gigaam_rnnt.py[idx="@ + text::signed(idx as int) + "]"@,
{
    "gigaam_rnnt.py[idx=".to_owned().concat(text::signed_of(idx).as_str()).concat("]")
}

/// The name of the file that hands the audio of a row to the script, apart for
/// each process.
pub fn temp_name(idx: i32, pid: u32) -> (s: String)
    ensures
        s@ == "gigaam_py_idx_"@ + text::signed(idx as int) + "_pid"@ + text::decimal(pid as nat)
            + ".wav"@,
{
    "gigaam_py_idx_".to_owned().concat(text::signed_of(idx).as_str()).concat("_pid").concat(
        text::decimal_of(pid as u64).as_str(),
    ).concat(".wav")
}

/// What is said of a row that the dataset does not have.
pub fn not_found(idx: i32, dataset: &str) -> (s: String)
    ensures
        s@ == "idx "@ + text::signed(idx as int) + " not found in "@ + dataset@,
{
    "idx ".to_owned().concat(text::signed_of(idx).as_str()).concat(" not found in ").concat(
        dataset,
    )
}

/// The score of one row.
#[derive(Debug)]
pub struct RowScore {
    pub idx: i32,
    pub ref_len: usize,
    pub subs: usize,
    pub dels: usize,
    pub ins: usize,
    pub wer: Number,
}

impl RowScore {
    /// Whether this is the score of `result`.
    pub open spec fn counts(&self, result: AlignmentResult) -> bool {
        &&& self.ref_len == result.ref_token_count
        &&& self.subs == result.substitutions
        &&& self.dels == result.deletions
        &&& self.ins == result.insertions
        &&& self.wer == result.wer
    }
}

pub open spec fn subs_of(rows: Seq<RowScore>) -> Seq<nat> {
    rows.map_values(|r: RowScore| r.subs as nat)
}

pub open spec fn dels_of(rows: Seq<RowScore>) -> Seq<nat> {
    rows.map_values(|r: RowScore| r.dels as nat)
}

pub open spec fn ins_of(rows: Seq<RowScore>) -> Seq<nat> {
    rows.map_values(|r: RowScore| r.ins as nat)
}

pub open spec fn ref_lens_of(rows: Seq<RowScore>) -> Seq<nat> {
    rows.map_values(|r: RowScore| r.ref_len as nat)
}

pub open spec fn wers_of(rows: Seq<RowScore>) -> Seq<Number> {
    rows.map_values(|r: RowScore| r.wer)
}

/// One more row adds its counts to the totals.
proof fn lemma_row_push(rows: Seq<RowScore>, r: RowScore)
    ensures
        bench::total(subs_of(rows.push(r))) == bench::total(subs_of(rows)) + r.subs,
        bench::total(dels_of(rows.push(r))) == bench::total(dels_of(rows)) + r.dels,
        bench::total(ins_of(rows.push(r))) == bench::total(ins_of(rows)) + r.ins,
        bench::total(ref_lens_of(rows.push(r))) == bench::total(ref_lens_of(rows)) + r.ref_len,
{
    assert(subs_of(rows.push(r)) == subs_of(rows).push(r.subs as nat));
    assert(dels_of(rows.push(r)) == dels_of(rows).push(r.dels as nat));
    assert(ins_of(rows.push(r)) == ins_of(rows).push(r.ins as nat));
    assert(ref_lens_of(rows.push(r)) == ref_lens_of(rows).push(r.ref_len as nat));
    bench::lemma_total_push(subs_of(rows), r.subs as nat);
    bench::lemma_total_push(dels_of(rows), r.dels as nat);
    bench::lemma_total_push(ins_of(rows), r.ins as nat);
    bench::lemma_total_push(ref_lens_of(rows), r.ref_len as nat);
}

/// A run over the output of the script.
#[derive(Debug)]
pub struct ScriptRun {
    pub scored: Vec<RowScore>,
    pub total_subs: usize,
    pub total_dels: usize,
    pub total_ins: usize,
    pub total_ref: usize,
}

impl ScriptRun {
    /// Whether the totals are the sums over the rows scored so far.
    pub open spec fn wf(&self) -> bool {
        &&& self.total_subs == bench::total(subs_of(self.scored@))
        &&& self.total_dels == bench::total(dels_of(self.scored@))
        &&& self.total_ins == bench::total(ins_of(self.scored@))
        &&& self.total_ref == bench::total(ref_lens_of(self.scored@))
        &&& self.errors() <= usize::MAX
    }

    /// The errors of all rows.
    pub open spec fn errors(&self) -> nat {
        (self.total_subs + self.total_dels + self.total_ins) as nat
    }

    /// Whether the totals can take one more row.
    pub open spec fn has_room_for(&self, result: AlignmentResult) -> bool {
        &&& self.errors() + result.error_count() <= usize::MAX
        &&& self.total_ref + result.ref_token_count <= usize::MAX
    }

    /// A run that has scored nothing.
    pub fn new() -> (run: ScriptRun)
        ensures
            run.wf(),
            run.scored@.len() == 0,
            run.total_subs == 0,
            run.total_dels == 0,
            run.total_ins == 0,
            run.total_ref == 0,
    {
        let run = ScriptRun {
            scored: Vec::new(),
            total_subs: 0,
            total_dels: 0,
            total_ins: 0,
            total_ref: 0,
        };
        assert(subs_of(run.scored@).len() == 0);
        run
    }

    /// Whether the totals can take one more row.
    pub fn has_room(&self, result: &AlignmentResult) -> (b: bool)
        requires
            self.wf(),
        ensures
            b == self.has_room_for(*result),
            b <==> self.total_subs + self.total_dels + self.total_ins + result.substitutions
                + result.deletions + result.insertions <= usize::MAX && self.total_ref
                + result.ref_token_count <= usize::MAX,
    {
        let mut room: usize = usize::MAX - (self.total_subs + self.total_dels + self.total_ins);
        if result.substitutions > room {
            return false;
        }
        room = room - result.substitutions;
        if result.deletions > room {
            return false;
        }
        room = room - result.deletions;
        result.insertions <= room && result.ref_token_count <= usize::MAX - self.total_ref
    }

    /// Take the score of a row. Every tenth row gives the error rate so far.
    pub fn record(&mut self, idx: i32, result: &AlignmentResult) -> (rolling: Option<Ratio>)
        requires
            old(self).wf(),
            old(self).has_room_for(*result),
        ensures
            final(self).wf(),
            final(self).scored@.drop_last() == old(self).scored@,
            final(self).scored@.len() == old(self).scored@.len() + 1,
            final(self).scored@.last().idx == idx,
            final(self).scored@.last().counts(*result),
            final(self).scored@.last().ref_len == result.ref_token_count,
            final(self).scored@.last().subs == result.substitutions,
            final(self).scored@.last().dels == result.deletions,
            final(self).scored@.last().ins == result.insertions,
            final(self).scored@.last().wer == result.wer,
            final(self).total_subs == old(self).total_subs + result.substitutions,
            final(self).total_dels == old(self).total_dels + result.deletions,
            final(self).total_ins == old(self).total_ins + result.insertions,
            final(self).total_ref == old(self).total_ref + result.ref_token_count,
            rolling is Some <==> final(self).scored@.len() % 10 == 0,
            rolling matches Some(rate) ==> rate.den > 0 && (final(self).total_ref > 0 ==> rate.num
                * final(self).total_ref == (final(self).total_subs + final(self).total_dels
                + final(self).total_ins) * rate.den) && (final(self).total_ref == 0 ==> rate.num
                == 0),
            rolling == (if final(self).scored@.len() % (bench::PROGRESS_STEP as nat) == 0 {
                Some(bench::rate_of(final(self).errors(), final(self).total_ref as nat))
            } else {
                None
            }),
    {
        self.total_subs = self.total_subs + result.substitutions;
        self.total_dels = self.total_dels + result.deletions;
        self.total_ins = self.total_ins + result.insertions;
        self.total_ref = self.total_ref + result.ref_token_count;
        let score = RowScore {
            idx,
            ref_len: result.ref_token_count,
            subs: result.substitutions,
            dels: result.deletions,
            ins: result.insertions,
            wer: result.wer,
        };
        proof {
            lemma_row_push(self.scored@, score);
        }
        self.scored.push(score);
        assert(self.scored@.drop_last() == old(self).scored@);
        if self.scored.len() % bench::PROGRESS_STEP == 0 {
            Some(error_rate(self.total_subs + self.total_dels + self.total_ins, self.total_ref))
        } else {
            None
        }
    }

    /// The error rate of the run, once the script is done; `status` says how it
    /// ended. The rate of a run without reference tokens is left as a quotient
    /// by zero.
    pub fn finish(&self, success: bool, status: &str) -> (r: Result<Ratio, String>)
        requires
            self.wf(),
        ensures
            match r {
                Ok(rate) => {
                    &&& success
                    &&& self.scored@.len() > 0
                    &&& rate.num == self.errors()
                    &&& rate.num == self.total_subs + self.total_dels + self.total_ins
                    &&& rate.den == self.total_ref
                },
                Err(e) => if success {
                    self.scored@.len() == 0 && e@ == "python emitted no rows"@
                } else {
                    e@ == exit_complaint(status@) && e@ == "python subprocess exited with "@ + status@
                },
            },
    {
        if !success {
            return Err("python subprocess exited with ".to_owned().concat(status));
        }
        if self.scored.len() == 0 {
            return Err("python emitted no rows".to_owned());
        }
        Ok(
            Ratio {
                num: self.total_subs + self.total_dels + self.total_ins,
                den: self.total_ref,
            },
        )
    }
}

/// The numbers of a report: the error rate in percent to two places, times in
/// seconds to one, hours to two, and the ratio of the times to three.
#[derive(Debug)]
pub struct ReportNumbers {
    pub corpus_wer: String,
    pub audio: String,
    pub audio_hours: String,
    pub subprocess: String,
    pub inference: String,
    pub rtf: String,
}

/// The totals of a run.
pub open spec fn report_head_text(run: ScriptRun, numbers: ReportNumbers) -> Seq<char> {
    "\n=== gigaam_rnnt.py vs ground truth ===\nrows scored : "@ + text::decimal(run.scored@.len())
        + "\nref tokens  : "@ + text::decimal(run.total_ref as nat) + "\nS / D / I   : "@
        + text::decimal(run.total_subs as nat) + " / "@ + text::decimal(run.total_dels as nat)
        + " / "@ + text::decimal(run.total_ins as nat) + "\ncorpus WER  : "@
        + numbers.corpus_wer@ + "%\naudio total : "@ + numbers.audio@ + "s ("@
        + numbers.audio_hours@ + "h)\nsubprocess  : "@ + numbers.subprocess@
        + "s  (wall-clock, incl. startup + model load)\ninference   : "@ + numbers.inference@
        + "s  (sum of per-row Python timings)\nRTF         : "@ + numbers.rtf@
        + "x  (inference / audio, comparable to gigaam_svod_bench)\n"@
}

fn report_head(run: &ScriptRun, numbers: &ReportNumbers) -> (r: String)
    ensures
        r@ == report_head_text(*run, *numbers),
{
    "\n=== gigaam_rnnt.py vs ground truth ===\nrows scored : ".to_owned().concat(
        text::decimal_of(run.scored.len() as u64).as_str(),
    ).concat("\nref tokens  : ").concat(text::decimal_of(run.total_ref as u64).as_str()).concat(
        "\nS / D / I   : ",
    ).concat(text::decimal_of(run.total_subs as u64).as_str()).concat(" / ").concat(
        text::decimal_of(run.total_dels as u64).as_str(),
    ).concat(" / ").concat(text::decimal_of(run.total_ins as u64).as_str()).concat(
        "\ncorpus WER  : ",
    ).concat(numbers.corpus_wer.as_str()).concat("%\naudio total : ").concat(
        numbers.audio.as_str(),
    ).concat("s (").concat(numbers.audio_hours.as_str()).concat("h)\nsubprocess  : ").concat(
        numbers.subprocess.as_str(),
    ).concat("s  (wall-clock, incl. startup + model load)\ninference   : ").concat(
        numbers.inference.as_str(),
    ).concat("s  (sum of per-row Python timings)\nRTF         : ").concat(
        numbers.rtf.as_str(),
    ).concat("x  (inference / audio, comparable to gigaam_svod_bench)\n")
}

/// The heading of the table of the worst rows.
pub open spec fn worst_heading_text() -> Seq<char> {
    "  "@ + text::right_aligned("idx"@, 6) + "  "@ + text::right_aligned("ref_len"@, 7) + "  "@
        + text::right_aligned("S"@, 4) + "  "@ + text::right_aligned("D"@, 4) + "  "@
        + text::right_aligned("I"@, 4) + "  "@ + text::right_aligned("WER"@, 7) + "\n"@
}

fn worst_heading() -> (r: String)
    ensures
        r@ == worst_heading_text(),
{
    "  ".to_owned().concat(text::align_right("idx", 6).as_str()).concat("  ").concat(
        text::align_right("ref_len", 7).as_str(),
    ).concat("  ").concat(text::align_right("S", 4).as_str()).concat("  ").concat(
        text::align_right("D", 4).as_str(),
    ).concat("  ").concat(text::align_right("I", 4).as_str()).concat("  ").concat(
        text::align_right("WER", 7).as_str(),
    ).concat("\n")
}

/// One of the worst rows; `wer` is its error rate in percent.
pub open spec fn worst_row_text(r: RowScore, wer: Seq<char>) -> Seq<char> {
    "  "@ + text::right_aligned(text::signed(r.idx as int), 6) + "  "@ + text::right_aligned(
        text::decimal(r.ref_len as nat),
        7,
    ) + "  "@ + text::right_aligned(text::decimal(r.subs as nat), 4) + "  "@
        + text::right_aligned(text::decimal(r.dels as nat), 4) + "  "@ + text::right_aligned(
        text::decimal(r.ins as nat),
        4,
    ) + "  "@ + text::right_aligned(wer, 6) + "%\n"@
}

fn worst_row(r: &RowScore, wer: &str) -> (s: String)
    ensures
        s@ == worst_row_text(*r, wer@),
{
    "  ".to_owned().concat(
        text::align_right(text::signed_of(r.idx).as_str(), 6).as_str(),
    ).concat("  ").concat(
        text::align_right(text::decimal_of(r.ref_len as u64).as_str(), 7).as_str(),
    ).concat("  ").concat(
        text::align_right(text::decimal_of(r.subs as u64).as_str(), 4).as_str(),
    ).concat("  ").concat(
        text::align_right(text::decimal_of(r.dels as u64).as_str(), 4).as_str(),
    ).concat("  ").concat(
        text::align_right(text::decimal_of(r.ins as u64).as_str(), 4).as_str(),
    ).concat("  ").concat(text::align_right(wer, 6).as_str()).concat("%\n")
}

/// The rows at `places`.
pub open spec fn worst_rows_text(
    rows: Seq<RowScore>,
    wers: Seq<String>,
    places: Seq<usize>,
) -> Seq<char>
    decreases places.len(),
{
    if places.len() == 0 {
        Seq::empty()
    } else {
        worst_rows_text(rows, wers, places.drop_last()) + worst_row_text(
            rows[places.last() as int],
            wers[places.last() as int]@,
        )
    }
}

/// The places of the rows from the highest error rate down, equal ones in the
/// order in which they were scored.
pub open spec fn worst_first(rows: Seq<RowScore>) -> Seq<usize> {
    order::stable_order(order::falling_keys(wers_of(rows)))
}

/// The places of the `n` worst rows, or of all if there are fewer.
pub open spec fn worst_places(rows: Seq<RowScore>, n: nat) -> Seq<usize> {
    if n < rows.len() {
        worst_first(rows).take(n as int)
    } else {
        worst_first(rows)
    }
}

/// The table of the `worst_n` worst rows; there is none if none is asked for.
pub open spec fn worst_table_text(
    rows: Seq<RowScore>,
    wers: Seq<String>,
    worst_n: nat,
) -> Seq<char> {
    if worst_n > 0 {
        "\nworst "@ + text::decimal(worst_places(rows, worst_n).len()) + " rows by WER:\n"@
            + worst_heading_text() + worst_rows_text(rows, wers, worst_places(rows, worst_n))
    } else {
        Seq::empty()
    }
}

fn worst_table(rows: &[RowScore], wers: &[String], worst_n: usize) -> (r: String)
    requires
        wers@.len() == rows@.len(),
    ensures
        r@ == worst_table_text(rows@, wers@, worst_n as nat),
{
    if worst_n == 0 {
        return String::new();
    }
    let mut rates: Vec<Number> = Vec::new();
    for i in 0..rows.len()
        invariant
            rates@ =~= wers_of(rows@.take(i as int)),
    {
        rates.push(rows[i].wer);
    }
    assert(rows@.take(rows@.len() as int) == rows@);
    let mut places = order::order_descending(rates.as_slice());
    places.truncate(worst_n);
    assert(places@ =~= worst_places(rows@, worst_n as nat));
    let mut lines = String::new();
    for i in 0..places.len()
        invariant
            wers@.len() == rows@.len(),
            places@ == worst_places(rows@, worst_n as nat),
            order::is_stable_order(order::falling_keys(wers_of(rows@)), worst_first(rows@)),
            lines@ == worst_rows_text(rows@, wers@, places@.take(i as int)),
    {
        assert(places@.take(i + 1).drop_last() == places@.take(i as int));
        assert(places@[i as int] == worst_first(rows@)[i as int]);
        let place: usize = places[i];
        lines = lines.concat(worst_row(&rows[place], wers[place].as_str()).as_str());
    }
    assert(places@.take(places@.len() as int) == places@);
    "\nworst ".to_owned().concat(text::decimal_of(places.len() as u64).as_str()).concat(
        " rows by WER:\n",
    ).concat(worst_heading().as_str()).concat(lines.as_str())
}

/// The report of a run: its totals, and the `worst_n` worst rows. `wers` holds
/// the error rate of each row, in percent to two places.
pub fn report(run: &ScriptRun, numbers: &ReportNumbers, wers: &[String], worst_n: usize) -> (r:
    String)
    requires
        wers@.len() == run.scored@.len(),
    ensures
        r@ == report_head_text(*run, *numbers) + worst_table_text(
            run.scored@,
            wers@,
            worst_n as nat,
        ),
{
    report_head(run, numbers).concat(
        worst_table(run.scored.as_slice(), wers, worst_n).as_str(),
    )
}

/// Taking a row away takes its counts from the totals.
proof fn lemma_row_remove(rows: Seq<RowScore>, i: int)
    requires
        0 <= i < rows.len(),
    ensures
        bench::total(subs_of(rows)) == bench::total(subs_of(rows.remove(i))) + rows[i].subs,
        bench::total(dels_of(rows)) == bench::total(dels_of(rows.remove(i))) + rows[i].dels,
        bench::total(ins_of(rows)) == bench::total(ins_of(rows.remove(i))) + rows[i].ins,
        bench::total(ref_lens_of(rows)) == bench::total(ref_lens_of(rows.remove(i)))
            + rows[i].ref_len,
{
    assert(subs_of(rows.remove(i)) =~= subs_of(rows).remove(i));
    assert(dels_of(rows.remove(i)) =~= dels_of(rows).remove(i));
    assert(ins_of(rows.remove(i)) =~= ins_of(rows).remove(i));
    assert(ref_lens_of(rows.remove(i)) =~= ref_lens_of(rows).remove(i));
    bench::lemma_total_remove(subs_of(rows), i);
    bench::lemma_total_remove(dels_of(rows), i);
    bench::lemma_total_remove(ins_of(rows), i);
    bench::lemma_total_remove(ref_lens_of(rows), i);
}

/// The order of the rows does not matter to the sums over them.
pub proof fn law_totals_ignore_order(a: Seq<RowScore>, b: Seq<RowScore>)
    requires
        a.to_multiset() == b.to_multiset(),
    ensures
        bench::total(subs_of(a)) == bench::total(subs_of(b)),
        bench::total(dels_of(a)) == bench::total(dels_of(b)),
        bench::total(ins_of(a)) == bench::total(ins_of(b)),
        bench::total(ref_lens_of(a)) == bench::total(ref_lens_of(b)),
    decreases a.len(),
{
    broadcast use vstd::seq_lib::group_to_multiset_ensures;

    assert(a.len() == a.to_multiset().len());
    assert(b.len() == b.to_multiset().len());
    if a.len() == 0 {
        assert(a =~= b);
    } else {
        let last = a.len() - 1;
        assert(a.contains(a[last]));
        assert(b.to_multiset().count(a[last]) > 0);
        let at = choose|i: int| 0 <= i < b.len() && b[i] == a[last];
        assert(a.remove(last).to_multiset() =~= b.remove(at).to_multiset());
        law_totals_ignore_order(a.remove(last), b.remove(at));
        lemma_row_remove(a, last);
        lemma_row_remove(b, at);
    }
}

/// Two runs that scored the same rows, in whatever order, have the same totals
/// and so the same error rate.
pub proof fn law_runs_ignore_order(a: ScriptRun, b: ScriptRun)
    requires
        a.wf(),
        b.wf(),
        a.scored@.to_multiset() == b.scored@.to_multiset(),
    ensures
        a.total_subs == b.total_subs,
        a.total_dels == b.total_dels,
        a.total_ins == b.total_ins,
        a.total_ref == b.total_ref,
        a.errors() == b.errors(),
{
    law_totals_ignore_order(a.scored@, b.scored@);
}

/// The worst rows are listed from the highest error rate down, equal ones in
/// the order in which they were scored, none twice, and no row that is left out
/// has a higher rate than one that is listed.
pub proof fn law_worst_are_worst(rows: Seq<RowScore>, n: nat)
    requires
        rows.len() <= usize::MAX,
    ensures
        worst_places(rows, n).len() == if n < rows.len() {
            n
        } else {
            rows.len()
        },
        forall|i: int|
            0 <= i < worst_places(rows, n).len() ==> (#[trigger] worst_places(rows, n)[i])
                < rows.len(),
        forall|i: int, j: int|
            0 <= i < j < worst_places(rows, n).len() ==> {
                let a = #[trigger] worst_places(rows, n)[i];
                let b = #[trigger] worst_places(rows, n)[j];
                &&& a != b
                &&& rows[a as int].wer.key() >= rows[b as int].wer.key()
                &&& rows[a as int].wer.key() == rows[b as int].wer.key() ==> a < b
            },
        forall|i: int, other: usize|
            #![trigger worst_places(rows, n)[i], rows[other as int]]
            0 <= i < worst_places(rows, n).len() && other < rows.len() && !worst_places(
                rows,
                n,
            ).contains(other) ==> rows[worst_places(rows, n)[i] as int].wer.key()
                >= rows[other as int].wer.key(),
{
    let rates = wers_of(rows);
    let places = worst_places(rows, n);
    order::law_highest_are_highest(rates, n);
    assert(places == order::highest_places(rates, n));
    assert forall|i: int, other: usize|
        #![trigger places[i], rows[other as int]]
        0 <= i < places.len() && other < rows.len() && !places.contains(
            other,
        ) implies rows[places[i] as int].wer.key() >= rows[other as int].wer.key() by {
        assert(rates[other as int] == rows[other as int].wer);
        assert(rates[places[i] as int] == rows[places[i] as int].wer);
    }
}

/// A line made of index, seconds and transcript is read back, if the seconds
/// hold no tab; the transcript may.
pub proof fn law_line_reads_back(idx: i32, inference: Seq<char>, transcript: Seq<char>)
    requires
        !inference.contains('\t'),
    ensures
        columns_of(
            text::signed(idx as int).push('\t') + (inference.push('\t') + transcript),
        ) == Some((text::signed(idx as int), inference, transcript)),
        is_i32(text::signed(idx as int)),
        text::int_value(text::signed(idx as int)) == Some(idx as int),
{
    text::law_signed_reads_back(idx as int);
    text::lemma_signed_chars(idx as int, '\t');
    text::law_parted_gives_back(
        text::signed(idx as int),
        '\t',
        inference.push('\t') + transcript,
    );
    text::law_parted_gives_back(inference, '\t', transcript);
}

/// What the script prints for a single file is read back, also with an empty
/// transcript: seconds that hold no tab and do not start with white space, a
/// tab, a transcript that does not end with white space, and a line end.
pub proof fn law_single_output_reads_back(inference: Seq<char>, transcript: Seq<char>)
    requires
        inference.len() > 0,
        !text::is_white_space(inference[0]),
        !inference.contains('\t'),
        transcript.len() > 0 ==> !text::is_white_space(transcript.last()),
    ensures
        single_columns(inference.push('\t') + transcript.push('\n')) == Some(
            (inference, transcript),
        ),
{
    let stdout = inference.push('\t') + transcript.push('\n');
    assert(stdout[0] == inference[0]);
    assert(text::trimmed_start(stdout) == stdout);
    text::law_parted_gives_back(inference, '\t', transcript.push('\n'));
    assert(transcript.push('\n').drop_last() =~= transcript);
    assert(text::trimmed_end(transcript) == transcript);
}

/// The words of a transcript are folded already.
pub proof fn law_transcript_is_folded(words: Seq<Seq<char>>)
    ensures
        wer::all_folded(untimed(words)),
{
    assert forall|i: int| 0 <= i < words.len() implies wer::folded(
        (#[trigger] untimed(words)[i]).text,
    ) == untimed(words)[i].text by {
        wer::law_fold_is_idempotent(words[i]);
    }
}

/// A line has three columns if it has two tabs: the first two hold none, and the
/// third runs to its end. With fewer tabs it has none.
pub proof fn law_columns_are_parted_by_tabs(a: Seq<char>, b: Seq<char>, c: Seq<char>)
    requires
        !a.contains('\t'),
        !b.contains('\t'),
    ensures
        columns_of(a.push('\t') + (b.push('\t') + c)) == Some((a, b, c)),
        columns_of(a.push('\t') + b) is None,
        columns_of(a) is None,
{
    text::law_parted_gives_back(a, '\t', b.push('\t') + c);
    text::law_parted_gives_back(b, '\t', c);
    text::law_parted_gives_back(a, '\t', b);
    text::law_parted_needs_separator(b, '\t');
    text::law_parted_needs_separator(a, '\t');
}

/// What stands for an index is an integer in the range of one.
pub proof fn law_index_range(s: Seq<char>)
    ensures
        is_i32(s) <==> (text::int_value(s) matches Some(i) && -2_147_483_648 <= i <= 2_147_483_647),
{
}

/// The output for a single file is parted at its first tab, behind the white
/// space in front of the seconds, and the transcript loses the white space at
/// its end; without a tab there is nothing to read.
pub proof fn law_single_output_is_parted(
    inference: Seq<char>,
    transcript: Seq<char>,
    stdout: Seq<char>,
)
    requires
        text::trimmed_start(stdout) == inference.push('\t') + transcript,
        !inference.contains('\t'),
    ensures
        single_columns(stdout) == Some((inference, text::trimmed_end(transcript))),
        forall|other: Seq<char>|
            !text::trimmed_start(other).contains('\t') ==> #[trigger] single_columns(other) is None,
{
    text::law_parted_gives_back(inference, '\t', transcript);
    assert forall|other: Seq<char>| !text::trimmed_start(other).contains('\t') implies
        #[trigger] single_columns(other) is None by {
        text::law_parted_needs_separator(text::trimmed_start(other), '\t');
    }
}

/// The words of a transcript are folded, and have no times.
pub proof fn law_untimed_words(words: Seq<Seq<char>>, i: int)
    requires
        0 <= i < words.len(),
    ensures
        untimed(words).len() == words.len(),
        untimed(words)[i].text == wer::folded(words[i]),
        untimed(words)[i].start.bits == 0,
        untimed(words)[i].end.bits == 0,
{
}

/// The sums over no row are zero; one more row adds its counts.
pub proof fn law_totals_by_rows(rows: Seq<RowScore>, r: RowScore)
    ensures
        rows.len() == 0 ==> bench::total(subs_of(rows)) == 0 && bench::total(dels_of(rows)) == 0
            && bench::total(ins_of(rows)) == 0 && bench::total(ref_lens_of(rows)) == 0,
        bench::total(subs_of(rows.push(r))) == bench::total(subs_of(rows)) + r.subs,
        bench::total(dels_of(rows.push(r))) == bench::total(dels_of(rows)) + r.dels,
        bench::total(ins_of(rows.push(r))) == bench::total(ins_of(rows)) + r.ins,
        bench::total(ref_lens_of(rows.push(r))) == bench::total(ref_lens_of(rows)) + r.ref_len,
{
    lemma_row_push(rows, r);
}

} // verus!
