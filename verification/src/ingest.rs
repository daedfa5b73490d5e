//! One read pass: from the lines appended to a file to the samples they add.
//!
//! The caller decodes each line and hands in what it found; the pass decides
//! what that means: which lines are skipped, which add a sample under which
//! key, and which end the pass.

use crate::lines::{
    first_line_feed, is_blank, is_blank_spec, lemma_first_line_feed_is_first,
    lemma_total_len_of_split, lemma_total_len_prepend, lemma_total_len_take, lines_view,
    split_lines_spec, total_len, LINE_FEED,
};
use crate::metrics::{
    distinct_keys, lemma_record, record_sample, record_spec, samples_of, series_view, LabelsView,
    MetricLabels, Series, SeriesView,
};
use crate::status::{get_status_label, label_result_view, status_label_spec};
use vstd::prelude::*;
use vstd::string::*;

verus! {

/// The fields of one decoded access-log record.
#[derive(Debug)]
pub struct LogEntry {
    pub method: String,
    pub url: String,
    pub host: String,
    /// The status code as the log has it, a text.
    pub status_code: String,
    /// The request time in seconds as the bits of a double, or `None` where
    /// the log's text for it is not a number.
    pub duration: Option<u64>,
}

/// What decoding a line gave.
#[derive(Debug)]
pub enum LineContent {
    /// The line is not valid UTF-8.
    Unreadable,
    /// The line is not a record of the expected shape.
    Malformed,
    /// The line is a record.
    Entry(LogEntry),
}

/// What a line does to the aggregate.
pub enum LineEffect {
    /// Nothing; the line is passed over.
    Skip,
    /// A sample is recorded under a key.
    Sample(LabelsView, u64),
    /// The pass ends with this line and a message.
    Fatal(Seq<char>),
}

/// The message for a line that is not valid UTF-8.
pub open spec fn unreadable_text() -> Seq<char> {
    "Failed to read line: stream did not contain valid UTF-8"@
}

/// What a line does, given its bytes and what decoding it gave.
///
/// A blank line is passed over whatever its decoding says. A line that could
/// not be read as text ends the pass. A malformed line is passed over, and
/// so is a record whose duration is not a number, whatever its status code.
/// A record with a duration adds a sample if its status code has a class,
/// and ends the pass if it has none.
pub open spec fn line_effect(line: Seq<u8>, content: LineContent) -> LineEffect {
    if is_blank_spec(line) {
        LineEffect::Skip
    } else {
        match content {
            LineContent::Unreadable => LineEffect::Fatal(unreadable_text()),
            LineContent::Malformed => LineEffect::Skip,
            LineContent::Entry(entry) => match entry.duration {
                None => LineEffect::Skip,
                Some(bits) => match status_label_spec(entry.status_code@) {
                    Err(message) => LineEffect::Fatal(message),
                    Ok(label) => LineEffect::Sample(
                        LabelsView {
                            method: entry.method@,
                            path: entry.url@,
                            status_code: label,
                            host: entry.host@,
                        },
                        bits,
                    ),
                },
            },
        }
    }
}

/// The result of a pass: the aggregate after it, how many lines and bytes it
/// took, and the message of the line that ended it, if one did.
pub struct PassView {
    pub series: Seq<SeriesView>,
    pub taken: nat,
    pub consumed: nat,
    pub failure: Option<Seq<char>>,
}

/// The pass that took `line` and then went on as `rest` says.
pub open spec fn after_line(line: Seq<u8>, rest: PassView) -> PassView {
    PassView {
        series: rest.series,
        taken: rest.taken + 1,
        consumed: rest.consumed + line.len(),
        failure: rest.failure,
    }
}

/// A pass over `lines`, in order. A line with a fatal effect ends the pass:
/// it is taken, so that it is never read again, it adds nothing, and no line
/// after it is taken.
pub open spec fn pass_spec(
    series: Seq<SeriesView>,
    lines: Seq<Seq<u8>>,
    contents: Seq<LineContent>,
) -> PassView
    decreases lines.len(),
{
    if lines.len() == 0 || contents.len() == 0 {
        PassView { series, taken: 0, consumed: 0, failure: None }
    } else {
        match line_effect(lines[0], contents[0]) {
            LineEffect::Fatal(message) => PassView {
                series,
                taken: 1,
                consumed: lines[0].len(),
                failure: Some(message),
            },
            LineEffect::Skip => after_line(
                lines[0],
                pass_spec(series, lines.drop_first(), contents.drop_first()),
            ),
            LineEffect::Sample(key, sample) => after_line(
                lines[0],
                pass_spec(
                    record_spec(series, key, sample),
                    lines.drop_first(),
                    contents.drop_first(),
                ),
            ),
        }
    }
}

/// A pass over the complete lines of the bytes appended to a file.
pub open spec fn scan_spec(
    series: Seq<SeriesView>,
    chunk: Seq<u8>,
    contents: Seq<LineContent>,
) -> PassView {
    pass_spec(series, split_lines_spec(chunk), contents)
}

/// A pass takes the lines up to the one that ends it, that one included, and
/// consumes their bytes; a pass that nothing ends takes every line.
pub proof fn lemma_pass_consumes(
    series: Seq<SeriesView>,
    lines: Seq<Seq<u8>>,
    contents: Seq<LineContent>,
)
    requires
        contents.len() == lines.len(),
    ensures
        pass_spec(series, lines, contents).taken <= lines.len(),
        pass_spec(series, lines, contents).consumed == total_len(
            lines.take(pass_spec(series, lines, contents).taken as int),
        ),
        pass_spec(series, lines, contents).failure is None ==> pass_spec(
            series,
            lines,
            contents,
        ).taken == lines.len(),
        pass_spec(series, lines, contents).failure is Some ==> 1 <= pass_spec(
            series,
            lines,
            contents,
        ).taken,
    decreases lines.len(),
{
    let pass = pass_spec(series, lines, contents);
    if lines.len() == 0 {
        assert(lines.take(0) =~= Seq::<Seq<u8>>::empty());
    } else {
        let rest_lines = lines.drop_first();
        let rest_contents = contents.drop_first();
        match line_effect(lines[0], contents[0]) {
            LineEffect::Fatal(message) => {
                let none = Seq::<Seq<u8>>::empty();
                assert(lines.take(1) =~= seq![lines[0]] + none);
                assert(total_len(none) == 0);
                lemma_total_len_prepend(lines[0], none);
            },
            LineEffect::Skip => {
                let rest = pass_spec(series, rest_lines, rest_contents);
                lemma_pass_consumes(series, rest_lines, rest_contents);
                assert(lines.take(pass.taken as int) =~= seq![lines[0]] + rest_lines.take(
                    rest.taken as int,
                ));
                lemma_total_len_prepend(lines[0], rest_lines.take(rest.taken as int));
            },
            LineEffect::Sample(key, sample) => {
                let rest = pass_spec(record_spec(series, key, sample), rest_lines, rest_contents);
                lemma_pass_consumes(record_spec(series, key, sample), rest_lines, rest_contents);
                assert(lines.take(pass.taken as int) =~= seq![lines[0]] + rest_lines.take(
                    rest.taken as int,
                ));
                lemma_total_len_prepend(lines[0], rest_lines.take(rest.taken as int));
            },
        }
    }
}

/// A pass ends at the first line with a fatal effect, with that line's
/// message; a pass that nothing ends met no such line.
pub proof fn lemma_pass_ends_at_first_fatal(
    series: Seq<SeriesView>,
    lines: Seq<Seq<u8>>,
    contents: Seq<LineContent>,
)
    requires
        contents.len() == lines.len(),
    ensures
        ({
            let pass = pass_spec(series, lines, contents);
            let last = pass.taken - 1;
            &&& pass.taken <= lines.len()
            &&& match pass.failure {
                Some(message) => {
                    &&& 1 <= pass.taken
                    &&& line_effect(lines[last], contents[last]) == LineEffect::Fatal(message)
                    &&& forall|k: int|
                        0 <= k < last ==> !(#[trigger] line_effect(lines[k], contents[k])
                            is Fatal)
                },
                None => forall|k: int|
                    0 <= k < lines.len() ==> !(#[trigger] line_effect(lines[k], contents[k])
                        is Fatal),
            }
        }),
    decreases lines.len(),
{
    let pass = pass_spec(series, lines, contents);
    lemma_pass_consumes(series, lines, contents);
    if lines.len() > 0 {
        let rest_lines = lines.drop_first();
        let rest_contents = contents.drop_first();
        let next = match line_effect(lines[0], contents[0]) {
            LineEffect::Sample(key, sample) => record_spec(series, key, sample),
            _ => series,
        };
        if !(line_effect(lines[0], contents[0]) is Fatal) {
            lemma_pass_ends_at_first_fatal(next, rest_lines, rest_contents);
            let rest = pass_spec(next, rest_lines, rest_contents);
            assert(pass.taken == rest.taken + 1);
            assert(pass.failure == rest.failure);
            assert forall|k: int| 0 <= k < pass.taken - 1 && pass.failure is Some implies !(
            #[trigger] line_effect(lines[k], contents[k]) is Fatal) by {
                if k > 0 {
                    assert(lines[k] == rest_lines[k - 1]);
                    assert(contents[k] == rest_contents[k - 1]);
                    assert(!(line_effect(rest_lines[k - 1], rest_contents[k - 1]) is Fatal));
                }
            }
            assert forall|k: int| 0 <= k < lines.len() && pass.failure is None implies !(
            #[trigger] line_effect(lines[k], contents[k]) is Fatal) by {
                if k > 0 {
                    assert(lines[k] == rest_lines[k - 1]);
                    assert(contents[k] == rest_contents[k - 1]);
                    assert(!(line_effect(rest_lines[k - 1], rest_contents[k - 1]) is Fatal));
                }
            }
            if pass.failure is Some {
                assert(lines[pass.taken - 1] == rest_lines[rest.taken - 1]);
                assert(contents[pass.taken - 1] == rest_contents[rest.taken - 1]);
            }
        }
    }
}

/// The samples that `lines` add under `key`, in order.
pub open spec fn emitted(lines: Seq<Seq<u8>>, contents: Seq<LineContent>, key: LabelsView) -> Seq<
    u64,
>
    decreases lines.len(),
{
    if lines.len() == 0 || contents.len() == 0 {
        Seq::empty()
    } else {
        let rest = emitted(lines.drop_first(), contents.drop_first(), key);
        match line_effect(lines[0], contents[0]) {
            LineEffect::Sample(labels, sample) => if labels == key {
                seq![sample] + rest
            } else {
                rest
            },
            _ => rest,
        }
    }
}

/// After a pass every key holds the samples it held before, followed by
/// those that the lines taken add under it, in the order of the lines:
/// nothing is lost, nothing counted twice, and neither the line that ended
/// the pass nor a line that was not taken adds anything.
pub proof fn lemma_pass_samples(
    series: Seq<SeriesView>,
    lines: Seq<Seq<u8>>,
    contents: Seq<LineContent>,
    key: LabelsView,
)
    requires
        contents.len() == lines.len(),
    ensures
        pass_spec(series, lines, contents).taken <= lines.len(),
        samples_of(pass_spec(series, lines, contents).series, key) == samples_of(series, key)
            + emitted(
            lines.take(pass_spec(series, lines, contents).taken as int),
            contents.take(pass_spec(series, lines, contents).taken as int),
            key,
        ),
    decreases lines.len(),
{
    let pass = pass_spec(series, lines, contents);
    let before = samples_of(series, key);
    if lines.len() == 0 {
        assert(lines.take(0) =~= Seq::<Seq<u8>>::empty());
        assert(before + Seq::<u64>::empty() =~= before);
    } else {
        let rest_lines = lines.drop_first();
        let rest_contents = contents.drop_first();
        match line_effect(lines[0], contents[0]) {
            LineEffect::Fatal(message) => {
                let taken_lines = lines.take(1);
                let taken_contents = contents.take(1);
                assert(taken_lines[0] == lines[0]);
                assert(taken_contents[0] == contents[0]);
                assert(taken_lines.drop_first() =~= Seq::<Seq<u8>>::empty());
                assert(emitted(taken_lines.drop_first(), taken_contents.drop_first(), key)
                    =~= Seq::<u64>::empty());
                assert(before + Seq::<u64>::empty() =~= before);
            },
            LineEffect::Skip => {
                let rest = pass_spec(series, rest_lines, rest_contents);
                lemma_pass_samples(series, rest_lines, rest_contents, key);
                let taken_lines = lines.take(pass.taken as int);
                let taken_contents = contents.take(pass.taken as int);
                assert(taken_lines[0] == lines[0]);
                assert(taken_contents[0] == contents[0]);
                assert(taken_lines.drop_first() =~= rest_lines.take(rest.taken as int));
                assert(taken_contents.drop_first() =~= rest_contents.take(rest.taken as int));
            },
            LineEffect::Sample(labels, sample) => {
                let recorded = record_spec(series, labels, sample);
                let rest = pass_spec(recorded, rest_lines, rest_contents);
                lemma_record(series, labels, sample);
                lemma_pass_samples(recorded, rest_lines, rest_contents, key);
                let taken_lines = lines.take(pass.taken as int);
                let taken_contents = contents.take(pass.taken as int);
                assert(taken_lines[0] == lines[0]);
                assert(taken_contents[0] == contents[0]);
                assert(taken_lines.drop_first() =~= rest_lines.take(rest.taken as int));
                assert(taken_contents.drop_first() =~= rest_contents.take(rest.taken as int));
                let tail = emitted(
                    rest_lines.take(rest.taken as int),
                    rest_contents.take(rest.taken as int),
                    key,
                );
                if labels == key {
                    assert(before.push(sample) + tail =~= before + (seq![sample] + tail));
                }
            },
        }
    }
}

/// A pass never gives a key two series.
pub proof fn lemma_pass_keeps_keys_distinct(
    series: Seq<SeriesView>,
    lines: Seq<Seq<u8>>,
    contents: Seq<LineContent>,
)
    requires
        distinct_keys(series),
    ensures
        distinct_keys(pass_spec(series, lines, contents).series),
    decreases lines.len(),
{
    if lines.len() > 0 && contents.len() > 0 {
        match line_effect(lines[0], contents[0]) {
            LineEffect::Fatal(message) => {},
            LineEffect::Skip => {
                lemma_pass_keeps_keys_distinct(series, lines.drop_first(), contents.drop_first());
            },
            LineEffect::Sample(key, sample) => {
                lemma_record(series, key, sample);
                lemma_pass_keeps_keys_distinct(
                    record_spec(series, key, sample),
                    lines.drop_first(),
                    contents.drop_first(),
                );
            },
        }
    }
}

/// The bytes after the first `count` lines hold the lines that remain.
pub proof fn lemma_split_after_lines(bytes: Seq<u8>, count: int)
    requires
        0 <= count <= split_lines_spec(bytes).len(),
    ensures
        total_len(split_lines_spec(bytes).take(count)) <= bytes.len(),
        split_lines_spec(bytes.skip(total_len(split_lines_spec(bytes).take(count)) as int))
            == split_lines_spec(bytes).skip(count),
    decreases bytes.len(),
{
    let lines = split_lines_spec(bytes);
    if count == 0 {
        assert(lines.take(0) =~= Seq::<Seq<u8>>::empty());
        assert(bytes.skip(0) =~= bytes);
        assert(lines.skip(0) =~= lines);
    } else {
        lemma_first_line_feed_is_first(bytes);
        let end = first_line_feed(bytes);
        let head = bytes.take(end + 1);
        let rest = bytes.skip(end + 1);
        let rest_lines = split_lines_spec(rest);
        lemma_split_after_lines(rest, count - 1);
        assert(lines.take(count) =~= seq![head] + rest_lines.take(count - 1));
        lemma_total_len_prepend(head, rest_lines.take(count - 1));
        let inner = total_len(rest_lines.take(count - 1));
        assert(bytes.skip((head.len() + inner) as int) =~= rest.skip(inner as int));
        assert(lines.skip(count) =~= rest_lines.skip(count - 1));
    }
}

/// What a pass leaves is what the next pass reads: the bytes after those
/// consumed hold exactly the lines that were not taken. Where every line
/// was taken, reading again without new bytes changes nothing: the next
/// pass takes no line, leaves the aggregate as it is, and nothing ends it.
/// That is so after every pass that nothing ended, and after one that the
/// last line ended.
pub proof fn lemma_scan_again(series: Seq<SeriesView>, chunk: Seq<u8>, contents: Seq<LineContent>)
    requires
        contents.len() == split_lines_spec(chunk).len(),
    ensures
        ({
            let first = scan_spec(series, chunk, contents);
            let again = scan_spec(
                first.series,
                chunk.skip(first.consumed as int),
                contents.skip(first.taken as int),
            );
            &&& first.consumed <= chunk.len()
            &&& first.taken <= split_lines_spec(chunk).len()
            &&& split_lines_spec(chunk.skip(first.consumed as int)) == split_lines_spec(
                chunk,
            ).skip(first.taken as int)
            &&& first.failure is None ==> first.taken == split_lines_spec(chunk).len()
            &&& first.taken == split_lines_spec(chunk).len() ==> {
                &&& again.series == first.series
                &&& again.taken == 0
                &&& again.consumed == 0
                &&& again.failure is None
            }
        }),
{
    let lines = split_lines_spec(chunk);
    lemma_pass_consumes(series, lines, contents);
    let first = pass_spec(series, lines, contents);
    lemma_split_after_lines(chunk, first.taken as int);
}

/// A pass that nothing ends consumes every complete line: all the bytes, if
/// the last of them is a line feed.
pub proof fn lemma_scan_reaches_end(
    series: Seq<SeriesView>,
    chunk: Seq<u8>,
    contents: Seq<LineContent>,
)
    requires
        contents.len() == split_lines_spec(chunk).len(),
        scan_spec(series, chunk, contents).failure is None,
    ensures
        scan_spec(series, chunk, contents).consumed == total_len(split_lines_spec(chunk)),
        scan_spec(series, chunk, contents).consumed <= chunk.len(),
        chunk.len() == 0 || chunk.last() == LINE_FEED ==> scan_spec(
            series,
            chunk,
            contents,
        ).consumed == chunk.len(),
{
    let lines = split_lines_spec(chunk);
    lemma_pass_consumes(series, lines, contents);
    assert(lines.take(lines.len() as int) =~= lines);
    lemma_total_len_of_split(chunk);
}

/// What a line does, as the pass holds it.
pub enum Effect {
    Skip,
    Sample(MetricLabels, u64),
    Fatal(String),
}

impl View for Effect {
    type V = LineEffect;

    open spec fn view(&self) -> LineEffect {
        match self {
            Effect::Skip => LineEffect::Skip,
            Effect::Sample(labels, sample) => LineEffect::Sample(labels@, *sample),
            Effect::Fatal(message) => LineEffect::Fatal(message@),
        }
    }
}

/// Decides what a line does, from its bytes and what decoding it gave.
pub fn classify(line: &[u8], content: &LineContent) -> (effect: Effect)
    ensures
        effect@ == line_effect(line@, *content),
{
    if is_blank(line) {
        return Effect::Skip;
    }
    match content {
        LineContent::Unreadable => Effect::Fatal(
            String::from_str("Failed to read line: stream did not contain valid UTF-8"),
        ),
        LineContent::Malformed => Effect::Skip,
        LineContent::Entry(entry) => match entry.duration {
            None => Effect::Skip,
            Some(bits) => {
                let label = get_status_label(entry.status_code.clone());
                assert(label_result_view(label) == status_label_spec(entry.status_code@));
                match label {
                    Err(message) => Effect::Fatal(message),
                    Ok(class) => Effect::Sample(
                        MetricLabels {
                            method: entry.method.clone(),
                            path: entry.url.clone(),
                            status_code: String::from_str(class),
                            host: entry.host.clone(),
                        },
                        bits,
                    ),
                }
            },
        },
    }
}

/// What a pass did: how many lines and bytes it took, and the message of
/// the line that ended it, if one did.
#[derive(Debug)]
pub struct PassOutcome {
    pub taken: usize,
    pub consumed: usize,
    pub failure: Option<String>,
}

/// The message of a pass, if it has one, as specifications see it.
pub open spec fn failure_view(failure: Option<String>) -> Option<Seq<char>> {
    match failure {
        Some(message) => Some(message@),
        None => None,
    }
}

/// Runs a pass over `lines` and records the samples they add.
pub fn ingest_lines(
    series: &mut Vec<Series>,
    lines: &Vec<Vec<u8>>,
    contents: &Vec<LineContent>,
) -> (outcome: PassOutcome)
    requires
        contents@.len() == lines@.len(),
        total_len(lines_view(lines@)) <= usize::MAX,
    ensures
        ({
            let pass = pass_spec(series_view(old(series)@), lines_view(lines@), contents@);
            &&& series_view(final(series)@) == pass.series
            &&& outcome.taken == pass.taken
            &&& outcome.consumed == pass.consumed
            &&& failure_view(outcome.failure) == pass.failure
        }),
{
    let ghost all = lines_view(lines@);
    let ghost whole = pass_spec(series_view(series@), all, contents@);
    let mut consumed: usize = 0;
    let mut i: usize = 0;
    proof {
        assert(all.skip(0) =~= all);
        assert(contents@.skip(0) =~= contents@);
        assert(all.take(0) =~= Seq::<Seq<u8>>::empty());
    }
    while i < lines.len()
        invariant
            i <= lines@.len(),
            contents@.len() == lines@.len(),
            all == lines_view(lines@),
            total_len(all) <= usize::MAX,
            whole == pass_spec(series_view(old(series)@), all, contents@),
            consumed == total_len(all.take(i as int)),
            ({
                let rest = pass_spec(
                    series_view(series@),
                    all.skip(i as int),
                    contents@.skip(i as int),
                );
                &&& whole.series == rest.series
                &&& whole.taken == i + rest.taken
                &&& whole.consumed == consumed + rest.consumed
                &&& whole.failure == rest.failure
            }),
        decreases lines@.len() - i,
    {
        proof {
            assert(all.skip(i as int)[0] == lines@[i as int]@);
            assert(contents@.skip(i as int)[0] == contents@[i as int]);
            assert(all.skip(i as int).drop_first() =~= all.skip(i + 1));
            assert(contents@.skip(i as int).drop_first() =~= contents@.skip(i + 1));
            lemma_total_len_take(all, i as int);
            lemma_total_len_take(all, i + 1);
        }
        let effect = classify(lines[i].as_slice(), &contents[i]);
        match effect {
            Effect::Fatal(message) => {
                return PassOutcome {
                    taken: i + 1,
                    consumed: consumed + lines[i].len(),
                    failure: Some(message),
                };
            },
            Effect::Skip => {},
            Effect::Sample(labels, sample) => {
                record_sample(series, labels, sample);
            },
        }
        consumed = consumed + lines[i].len();
        i = i + 1;
    }
    PassOutcome { taken: i, consumed, failure: None }
}

} // verus!
