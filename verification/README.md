# stt_bench

A benchmark for Russian speech-to-text over long recordings. It scores what a
model heard against the ground truth of a dataset: the word error rate of each
file and of the whole corpus, and the timing drift of the matched words.

The scoring library is written in Verus: every function carries a contract that
says what it returns. The contracts are proved, but for those of three calls
into code outside, which are believed:

- `wav_format` (`src/wav.rs`): the header of a WAV file, by
  `hound::WavReader::new` and `WavReader::spec`. The result follows from the
  bytes alone.
- `wav_pcm` (`src/wav.rs`): its 16-bit samples, by `WavReader::samples`. The
  result follows from the bytes alone.
- `String::push` (`src/text.rs`): appends one character.

## Layout

```
src/          the verified library
  wer.rs      й/и folding, tokens and words, timing statistics
  bench.rs    hypothesis words, file scores, the run over a corpus
  pretty.rs   percentiles, the panel of one file, the summary of a corpus
  py_bench.rs scoring of a transcription script: its lines, truth, report
  dataset.rs  rows of the dataset, reading in batches, search for a row
  truth.rs    ground truth by row index
  wav.rs      WAV files in memory
  cli.rs      options and what they ask for
  model.rs    which model is usable
  order.rs    stable sorting
  number.rs   real numbers, carried and compared by their bits
  text.rs     numbers in decimal, fields, splitting and joining
tests/        tests of the library
app/          the program: command line, files, the model, the aligner
```

## Scoring

The error rate is `(S + D + I) / N`, with `N` the number of reference tokens. A
corpus is scored by sums over its files, not by a mean of their rates.

For every matched pair the distance of the midpoints is recorded; the mean, the
median and the 95 percent mark are reported, with the number of pairs above the
threshold. The panel of a file flags each of these pairs.

Dataset and model disagree on `й` and `и`, so both are folded to `и` when a word
is made, and nowhere else.

Sums and quotients of real numbers are left to the program: the library ranks
and compares such numbers, and takes them for display as text that is rounded
already. A quantile is a quotient of two integers.

## Usage

```
stt_bench svod --limit 50          # the first 50 rows, summary and worst rows
stt_bench svod --idx 42            # one row, with its panel
stt_bench svod --audio test.wav    # a file outside the dataset
stt_bench py --limit 100           # score scripts/gigaam_rnnt.py
```
