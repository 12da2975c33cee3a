//! Rows of the benchmark dataset.
//!
//! The dataset is too heavy to hold, so it is read one batch at a time and
//! handed on row by row. The reader itself stands outside; here stands which
//! row comes next, what a row is made of, and the search for one row.
use crate::number::Number;
use crate::wer;
use crate::wer::{Word, WordView, fold_short_i};
use vstd::prelude::*;

verus! {

/// One row of the dataset.
#[derive(Debug)]
pub struct DatasetRow {
    pub idx: i32,
    /// Seconds of audio.
    pub duration: Number,
    /// The audio as a WAV file.
    pub audio_bytes: Vec<u8>,
    /// The ground truth, on the timeline of the audio.
    pub words: Vec<Word>,
}

/// The words of one row, as the columns that hold them.
#[derive(Debug)]
pub struct WordColumns {
    pub texts: Vec<String>,
    pub starts: Vec<Number>,
    pub ends: Vec<Number>,
}

impl WordColumns {
    /// Whether each word has its text and its times.
    pub open spec fn wf(&self) -> bool {
        self.starts@.len() == self.texts@.len() && self.ends@.len() == self.texts@.len()
    }

    /// The words, with `й` folded to `и`.
    pub open spec fn words(&self) -> Seq<WordView> {
        Seq::new(
            self.texts@.len(),
            |k: int|
                WordView {
                    text: wer::folded(self.texts@[k]@),
                    start: self.starts@[k],
                    end: self.ends@[k],
                },
        )
    }
}

/// What is said of a column that is not there, or not of the type wanted.
pub open spec fn column_complaint(name: Seq<char>, present: bool) -> Seq<char> {
    if present {
        "column `"@ + name + "` has unexpected arrow type"@
    } else {
        "missing column `"@ + name + "`"@
    }
}

/// Whether a column can be used: it has to be there and to have the type
/// wanted.
pub fn check_column(name: &str, present: bool, typed: bool) -> (r: Result<(), String>)
    ensures
        r is Ok <==> present && typed,
        r is Err ==> r->Err_0@ == column_complaint(name@, present),
        !present ==> r is Err && r->Err_0@ == "missing column `"@ + name@ + "`"@,
        present && !typed ==> r is Err && r->Err_0@ == "column `"@ + name@
            + "` has unexpected arrow type"@,
{
    if !present {
        Err("missing column `".to_owned().concat(name).concat("`"))
    } else if !typed {
        Err("column `".to_owned().concat(name).concat("` has unexpected arrow type"))
    } else {
        Ok(())
    }
}

/// The words that the columns hold, with `й` folded to `и`.
pub fn decode_words(columns: &WordColumns) -> (words: Vec<Word>)
    requires
        columns.wf(),
    ensures
        wer::views(words@) == columns.words(),
        words@.len() == columns.texts@.len(),
        forall|k: int|
            0 <= k < words@.len() ==> (#[trigger] words@[k]).text@ == wer::folded(
                columns.texts@[k]@,
            ) && words@[k].start == columns.starts@[k] && words@[k].end == columns.ends@[k],
{
    let mut words: Vec<Word> = Vec::new();
    for k in 0..columns.texts.len()
        invariant
            columns.wf(),
            wer::views(words@) =~= columns.words().take(k as int),
    {
        let word = Word::new(
            fold_short_i(columns.texts[k].as_str()),
            columns.starts[k],
            columns.ends[k],
        );
        assert(word@ =~= columns.words()[k as int]);
        assert(wer::views(words@.push(word)) =~= wer::views(words@).push(word@));
        words.push(word);
    }
    assert(columns.words().take(columns.words().len() as int) =~= columns.words());
    assert forall|k: int| 0 <= k < words@.len() implies (#[trigger] words@[k]).text@ == wer::folded(
        columns.texts@[k]@,
    ) && words@[k].start == columns.starts@[k] && words@[k].end == columns.ends@[k] by {
        assert(wer::views(words@)[k] == words@[k]@);
    }
    words
}

/// The row that the columns hold.
pub fn decode_row(
    idx: i32,
    duration: Number,
    audio_bytes: Vec<u8>,
    columns: &WordColumns,
) -> (row: DatasetRow)
    requires
        columns.wf(),
    ensures
        row.idx == idx,
        row.duration == duration,
        row.audio_bytes == audio_bytes,
        wer::views(row.words@) == columns.words(),
        row.words@.len() == columns.texts@.len(),
        forall|k: int|
            0 <= k < row.words@.len() ==> (#[trigger] row.words@[k]).text@ == wer::folded(
                columns.texts@[k]@,
            ) && row.words@[k].start == columns.starts@[k] && row.words@[k].end
                == columns.ends@[k],
{
    DatasetRow { idx, duration, audio_bytes, words: decode_words(columns) }
}

/// What the reader of a dataset does next.
#[derive(Clone, Copy, Debug, PartialEq, Eq, Structural)]
pub enum Step {
    /// Hand on this row of the current batch.
    Row(usize),
    /// Fetch the next batch; without one, the dataset is at its end.
    NeedBatch,
}

/// A position in a dataset that comes in batches.
#[derive(Clone, Copy, Debug, PartialEq, Eq, Structural)]
pub struct DatasetIter {
    /// The number of rows of the current batch.
    pub current: Option<usize>,
    pub row_in_batch: usize,
}

impl DatasetIter {
    /// In front of the first batch.
    pub open spec fn at_start() -> DatasetIter {
        DatasetIter { current: None, row_in_batch: 0 }
    }

    /// The rows of the current batch that are still to come.
    pub open spec fn rows_left(self) -> nat {
        match self.current {
            Some(n) => if self.row_in_batch < n {
                (n - self.row_in_batch) as nat
            } else {
                0
            },
            None => 0,
        }
    }

    /// What comes next, and the position after it.
    pub open spec fn advanced(self) -> (DatasetIter, Step) {
        if self.rows_left() > 0 {
            (
                DatasetIter {
                    current: self.current,
                    row_in_batch: (self.row_in_batch + 1) as usize,
                },
                Step::Row(self.row_in_batch),
            )
        } else {
            (DatasetIter { current: None, row_in_batch: self.row_in_batch }, Step::NeedBatch)
        }
    }

    /// In front of the first row of a batch.
    pub open spec fn in_batch(num_rows: usize) -> DatasetIter {
        DatasetIter { current: Some(num_rows), row_in_batch: 0 }
    }

    /// In front of the first batch.
    pub fn new() -> (it: DatasetIter)
        ensures
            it == DatasetIter::at_start(),
            it.current is None,
    {
        DatasetIter { current: None, row_in_batch: 0 }
    }

    /// What comes next.
    pub fn next(&mut self) -> (step: Step)
        ensures
            (*final(self), step) == old(self).advanced(),
            old(self).current is Some && old(self).row_in_batch < old(self).current->0 ==> step
                == Step::Row(old(self).row_in_batch) && final(self).current == old(self).current && final(self).row_in_batch
                == old(self).row_in_batch + 1,
            old(self).current is None || old(self).row_in_batch >= old(self).current->0 ==> step
                == Step::NeedBatch && final(self).current is None,
    {
        if let Some(n) = self.current {
            if self.row_in_batch < n {
                let row: usize = self.row_in_batch;
                self.row_in_batch = row + 1;
                return Step::Row(row);
            }
            self.current = None;
        }
        Step::NeedBatch
    }

    /// Go on with a batch of `num_rows` rows.
    pub fn load(&mut self, num_rows: usize)
        ensures
            *final(self) == DatasetIter::in_batch(num_rows),
            final(self).current == Some(num_rows),
            final(self).row_in_batch == 0,
    {
        self.current = Some(num_rows);
        self.row_in_batch = 0;
    }
}

/// What is handed on from the position `it` on, as pairs of batch and row,
/// when `loaded` of the batches have been fetched.
pub open spec fn handed_on(it: DatasetIter, loaded: nat, batches: Seq<usize>) -> Seq<(int, int)>
    decreases batches.len() - loaded, it.rows_left(),
{
    let (after, step) = it.advanced();
    match step {
        Step::Row(row) => seq![(loaded - 1, row as int)] + handed_on(after, loaded, batches),
        Step::NeedBatch => if loaded < batches.len() {
            handed_on(DatasetIter::in_batch(batches[loaded as int]), loaded + 1, batches)
        } else {
            Seq::empty()
        },
    }
}

/// The rows of the batches from `from` on, batch by batch, each from its first
/// row to its last.
pub open spec fn rows_from(batches: Seq<usize>, from: int) -> Seq<(int, int)>
    decreases batches.len() - from,
{
    if 0 <= from < batches.len() {
        Seq::new(batches[from] as nat, |row: int| (from, row)) + rows_from(batches, from + 1)
    } else {
        Seq::empty()
    }
}

/// The reader hands on every row of every batch once, in order; empty batches
/// are passed over.
pub proof fn law_every_row_once(batches: Seq<usize>)
    ensures
        handed_on(DatasetIter::at_start(), 0, batches) == rows_from(batches, 0),
{
    lemma_handed_on(DatasetIter::at_start(), 0, batches);
    assert(Seq::<(int, int)>::empty() + rows_from(batches, 0) == rows_from(batches, 0));
    assert(Seq::new(0, |i: int| (-1int, i)) =~= Seq::<(int, int)>::empty());
}

/// From any position: the rest of the batch, then the batches behind it.
proof fn lemma_handed_on(it: DatasetIter, loaded: nat, batches: Seq<usize>)
    requires
        loaded <= batches.len(),
    ensures
        handed_on(it, loaded, batches) == Seq::new(
            it.rows_left(),
            |i: int| (loaded - 1, it.row_in_batch + i),
        ) + rows_from(batches, loaded as int),
    decreases batches.len() - loaded, it.rows_left(),
{
    let here = Seq::new(it.rows_left(), |i: int| (loaded - 1, it.row_in_batch + i));
    let (after, step) = it.advanced();
    match step {
        Step::Row(row) => {
            lemma_handed_on(after, loaded, batches);
            let rest = Seq::new(after.rows_left(), |i: int| (loaded - 1, after.row_in_batch + i));
            assert(here =~= seq![(loaded - 1, row as int)] + rest);
            assert(handed_on(it, loaded, batches) =~= here + rows_from(batches, loaded as int));
        },
        Step::NeedBatch => {
            assert(here =~= Seq::empty());
            if loaded < batches.len() {
                let entered = DatasetIter::in_batch(batches[loaded as int]);
                lemma_handed_on(entered, loaded + 1, batches);
                assert(Seq::new(
                    entered.rows_left(),
                    |i: int| (loaded + 1 - 1, entered.row_in_batch + i),
                ) =~= Seq::new(batches[loaded as int] as nat, |row: int| (loaded as int, row)));
            }
            assert(handed_on(it, loaded, batches) =~= here + rows_from(batches, loaded as int));
        },
    }
}

/// What the reader of a dataset met.
#[derive(Clone, Copy, Debug, PartialEq, Eq, Structural)]
pub enum RowEvent {
    /// A row with this index.
    Row(i32),
    /// A row that could not be read.
    Failed,
    /// The end of the dataset.
    End,
}

/// What the search for a row makes of it.
#[derive(Clone, Copy, Debug, PartialEq, Eq, Structural)]
pub enum Verdict {
    /// Look at the next row.
    Next,
    /// This is the row.
    Found,
    /// Give up with the error of the reader.
    Fail,
    /// The dataset has no such row.
    Missing,
}

/// What the search for the row `idx` makes of `event`.
pub open spec fn verdict_on(event: RowEvent, idx: i32) -> Verdict {
    match event {
        RowEvent::Row(i) => if i == idx {
            Verdict::Found
        } else {
            Verdict::Next
        },
        RowEvent::Failed => Verdict::Fail,
        RowEvent::End => Verdict::Missing,
    }
}

/// One step of the linear search for the row `idx`.
pub fn find_row(event: RowEvent, idx: i32) -> (v: Verdict)
    ensures
        v == verdict_on(event, idx),
        v == Verdict::Found <==> event == RowEvent::Row(idx),
        v == Verdict::Next <==> event is Row && event != RowEvent::Row(idx),
        v == Verdict::Fail <==> event is Failed,
        v == Verdict::Missing <==> event is End,
{
    match event {
        RowEvent::Row(i) => if i == idx {
            Verdict::Found
        } else {
            Verdict::Next
        },
        RowEvent::Failed => Verdict::Fail,
        RowEvent::End => Verdict::Missing,
    }
}

/// Where the search for the row `idx` stops, and with what; the number of
/// events and `Next` if it does not stop.
pub open spec fn search(events: Seq<RowEvent>, idx: i32) -> (nat, Verdict)
    decreases events.len(),
{
    if events.len() == 0 {
        (0, Verdict::Next)
    } else if verdict_on(events[0], idx) != Verdict::Next {
        (0, verdict_on(events[0], idx))
    } else {
        let rest = search(events.drop_first(), idx);
        (rest.0 + 1, rest.1)
    }
}

/// The search gives the first row with the index asked for, provided that no
/// row in front of it is unreadable; it fails at the first unreadable row, and
/// reports the row missing only after all rows of the dataset.
pub proof fn law_search_finds_first(events: Seq<RowEvent>, idx: i32)
    ensures
        ({
            let (at, v) = search(events, idx);
            &&& at <= events.len()
            &&& forall|i: int|
                0 <= i < at ==> (#[trigger] events[i]) is Row && events[i] != RowEvent::Row(idx)
            &&& v == Verdict::Next <==> at == events.len()
            &&& v == Verdict::Found ==> events[at as int] == RowEvent::Row(idx)
            &&& v == Verdict::Fail ==> events[at as int] == RowEvent::Failed
            &&& v == Verdict::Missing ==> events[at as int] == RowEvent::End
        }),
    decreases events.len(),
{
    if events.len() > 0 && verdict_on(events[0], idx) == Verdict::Next {
        let tail = events.drop_first();
        law_search_finds_first(tail, idx);
        let (at, v) = search(events, idx);
        assert forall|i: int| 0 <= i < at implies (#[trigger] events[i]) is Row && events[i]
            != RowEvent::Row(idx) by {
            if i > 0 {
                assert(events[i] == tail[i - 1]);
            }
        }
    }
}

/// The words of a row are folded already.
pub proof fn law_truth_is_folded(columns: WordColumns)
    ensures
        wer::all_folded(columns.words()),
{
    assert forall|i: int| 0 <= i < columns.words().len() implies wer::folded(
        (#[trigger] columns.words()[i]).text,
    ) == columns.words()[i].text by {
        wer::law_fold_is_idempotent(columns.texts@[i]@);
    }
}

/// Each word has its own entries of the three columns, whatever stands in the
/// other entries.
pub proof fn law_words_have_their_own_times(columns: WordColumns, other: WordColumns, k: int)
    requires
        columns.wf(),
        other.wf(),
        0 <= k < columns.texts@.len(),
        k < other.texts@.len(),
    ensures
        columns.words().len() == columns.texts@.len(),
        columns.words()[k].text == wer::folded(columns.texts@[k]@),
        columns.words()[k].start == columns.starts@[k],
        columns.words()[k].end == columns.ends@[k],
        columns.texts@[k]@ == other.texts@[k]@ && columns.starts@[k] == other.starts@[k]
            && columns.ends@[k] == other.ends@[k] ==> columns.words()[k] == other.words()[k],
{
}

/// The rows of the batches are the rows that each batch has, in rising order of
/// batch and row.
pub proof fn law_rows_are_those_of_the_batches(batches: Seq<usize>, from: int)
    requires
        0 <= from,
    ensures
        forall|b: int, r: int| #[trigger]
            rows_from(batches, from).contains((b, r)) <==> from <= b < batches.len() && 0 <= r
                < batches[b],
        forall|i: int, j: int|
            0 <= i < j < rows_from(batches, from).len() ==> {
                let x = #[trigger] rows_from(batches, from)[i];
                let y = #[trigger] rows_from(batches, from)[j];
                x.0 < y.0 || x.0 == y.0 && x.1 < y.1
            },
    decreases batches.len() - from,
{
    let all = rows_from(batches, from);
    if from < batches.len() {
        law_rows_are_those_of_the_batches(batches, from + 1);
        let n = batches[from] as nat;
        let head = Seq::new(n, |row: int| (from, row));
        let rest = rows_from(batches, from + 1);
        assert(all == head + rest);
        assert forall|b: int, r: int| #[trigger]
            all.contains((b, r)) <==> from <= b < batches.len() && 0 <= r < batches[b] by {
            if all.contains((b, r)) {
                let i = choose|i: int| 0 <= i < all.len() && all[i] == (b, r);
                if i < n {
                    assert(all[i] == head[i]);
                } else {
                    assert(all[i] == rest[i - n]);
                    assert(rest.contains((b, r)));
                }
            }
            if from <= b < batches.len() && 0 <= r < batches[b] {
                if b == from {
                    assert(all[r] == (b, r));
                } else {
                    assert(rest.contains((b, r)));
                    let i = choose|i: int| 0 <= i < rest.len() && rest[i] == (b, r);
                    assert(all[n + i] == (b, r));
                }
            }
        }
        assert forall|i: int, j: int| 0 <= i < j < all.len() implies {
            let x = #[trigger] all[i];
            let y = #[trigger] all[j];
            x.0 < y.0 || x.0 == y.0 && x.1 < y.1
        } by {
            if i < n && j >= n {
                assert(all[j] == rest[j - n]);
                assert(rest.contains(rest[j - n]));
                let (b, r) = rest[j - n];
                assert(rest.contains((b, r)));
            } else if i >= n {
                assert(all[i] == rest[i - n]);
                assert(all[j] == rest[j - n]);
            }
        }
    }
}

/// The reader hands on the row `r` of the batch `b` exactly if there is such a
/// row, and goes from batch to batch and from row to row.
pub proof fn law_reader_hands_on_all_rows(batches: Seq<usize>)
    ensures
        forall|b: int, r: int| #[trigger]
            handed_on(DatasetIter::at_start(), 0, batches).contains((b, r)) <==> 0 <= b
                < batches.len() && 0 <= r < batches[b],
        forall|i: int, j: int|
            0 <= i < j < handed_on(DatasetIter::at_start(), 0, batches).len() ==> {
                let x = #[trigger] handed_on(DatasetIter::at_start(), 0, batches)[i];
                let y = #[trigger] handed_on(DatasetIter::at_start(), 0, batches)[j];
                x.0 < y.0 || x.0 == y.0 && x.1 < y.1
            },
{
    law_every_row_once(batches);
    law_rows_are_those_of_the_batches(batches, 0);
}

/// Columns can be read exactly if they are equally long.
pub proof fn law_columns_are_equally_long(columns: WordColumns)
    ensures
        columns.wf() <==> columns.texts@.len() == columns.starts@.len() && columns.texts@.len()
            == columns.ends@.len(),
{
}

} // verus!
