//! The exposition text: the aggregate as Prometheus histograms.
//!
//! Every scrape counts the buckets anew from the samples. The texts of the
//! bucket bounds and of the sums of durations are numbers written out by the
//! caller; everything else is written here.

use crate::histogram::{ascending, calculate_histogram_buckets, count_le};
use crate::metrics::{LabelsView, MetricLabels, SeriesView};
use crate::sample::{is_nan, is_number, rank, sample_le};
use crate::ingest::{lemma_pass_consumes, lemma_scan_again, scan_spec, LineContent};
use crate::lines::split_lines_spec;
use crate::state::{error_view, MetricsState};
use vstd::prelude::*;
use vstd::string::*;

verus! {

/// One bucket bound: the bits of the number and the number written out.
#[derive(Debug)]
pub struct Bound {
    pub bits: u64,
    pub text: String,
}

/// The bucket bounds, ascending, the same for every label key.
pub struct BucketSet {
    bits: Vec<u64>,
    texts: Vec<String>,
}

/// The views of the texts held in a vector.
pub open spec fn texts_view(texts: Seq<String>) -> Seq<Seq<char>> {
    Seq::new(texts.len(), |i: int| texts[i]@)
}

/// The bits of the bounds held in a vector.
pub open spec fn bounds_bits(bounds: Seq<Bound>) -> Seq<u64> {
    Seq::new(bounds.len(), |i: int| bounds[i].bits)
}

/// The texts of the bounds held in a vector.
pub open spec fn bounds_texts(bounds: Seq<Bound>) -> Seq<Seq<char>> {
    Seq::new(bounds.len(), |i: int| bounds[i].text@)
}

/// A text more in the vector is a text more in its view.
pub proof fn lemma_texts_push(texts: Seq<String>, text: String)
    ensures
        texts_view(texts.push(text)) == texts_view(texts).push(text@),
{
    assert(texts_view(texts.push(text)) =~= texts_view(texts).push(text@));
}

impl BucketSet {
    /// The bits of the bounds, in order.
    pub closed spec fn bits_view(&self) -> Seq<u64> {
        self.bits@
    }

    /// The bounds written out, in order.
    pub closed spec fn labels_view(&self) -> Seq<Seq<char>> {
        texts_view(self.texts@)
    }

    /// The bounds are numbers in ascending order, each with its text.
    pub open spec fn wf(&self) -> bool {
        &&& ascending(self.bits_view())
        &&& self.labels_view().len() == self.bits_view().len()
    }

    /// Makes a bucket set of bounds that are numbers in ascending order;
    /// other bounds give `None`.
    pub fn new(bounds: Vec<Bound>) -> (set: Option<BucketSet>)
        ensures
            set is Some <==> ascending(bounds_bits(bounds@)),
            set matches Some(buckets) ==> buckets.wf() && buckets.bits_view() == bounds_bits(
                bounds@,
            ) && buckets.labels_view() == bounds_texts(bounds@),
    {
        let ghost all = bounds_bits(bounds@);
        let mut bits: Vec<u64> = Vec::new();
        let mut texts: Vec<String> = Vec::new();
        let mut i: usize = 0;
        while i < bounds.len()
            invariant
                i <= bounds@.len(),
                all == bounds_bits(bounds@),
                bits@ == all.take(i as int),
                texts_view(texts@) == bounds_texts(bounds@).take(i as int),
                ascending(all.take(i as int)),
            decreases bounds@.len() - i,
        {
            let b = bounds[i].bits;
            assert(all[i as int] == b);
            if !is_number(b) {
                return None;
            }
            if i > 0 {
                let previous = bounds[i - 1].bits;
                assert(all[i - 1] == previous);
                if !sample_le(previous, b) {
                    return None;
                }
            }
            proof {
                let next = all.take(i + 1);
                assert forall|x: int, y: int| 0 <= x <= y < next.len() implies rank(
                    #[trigger] next[x],
                ) <= rank(#[trigger] next[y]) by {
                    if y == i && x < i {
                        assert(rank(all.take(i as int)[x]) <= rank(all.take(i as int)[i - 1]));
                    } else if y < i {
                        assert(rank(all.take(i as int)[x]) <= rank(all.take(i as int)[y]));
                    }
                }
                assert forall|x: int| 0 <= x < next.len() implies !is_nan(
                    #[trigger] next[x],
                ) by {
                    if x < i {
                        assert(!is_nan(all.take(i as int)[x]));
                    }
                }
            }
            bits.push(b);
            let text = bounds[i].text.clone();
            proof {
                lemma_texts_push(texts@, text);
                assert(bounds_texts(bounds@).take(i + 1) =~= bounds_texts(bounds@).take(
                    i as int,
                ).push(text@));
            }
            texts.push(text);
            assert(bits@ =~= all.take(i + 1));
            i = i + 1;
        }
        assert(all.take(bounds@.len() as int) =~= all);
        assert(bounds_texts(bounds@).take(bounds@.len() as int) =~= bounds_texts(bounds@));
        Some(BucketSet { bits, texts })
    }

    /// How many bounds there are.
    pub fn len(&self) -> (count: usize)
        ensures
            count == self.bits_view().len(),
    {
        self.bits.len()
    }

    /// The bits of the bounds, in order.
    pub fn bits(&self) -> (bits: &Vec<u64>)
        ensures
            bits@ == self.bits_view(),
    {
        &self.bits
    }
}

/// The character of a digit.
pub open spec fn digit_char(digit: nat) -> char {
    if digit == 0 {
        '0'
    } else if digit == 1 {
        '1'
    } else if digit == 2 {
        '2'
    } else if digit == 3 {
        '3'
    } else if digit == 4 {
        '4'
    } else if digit == 5 {
        '5'
    } else if digit == 6 {
        '6'
    } else if digit == 7 {
        '7'
    } else if digit == 8 {
        '8'
    } else {
        '9'
    }
}

/// A count written out in decimal digits, without leading zeros.
pub open spec fn decimal_text(n: nat) -> Seq<char>
    decreases n,
{
    if n < 10 {
        seq![digit_char(n)]
    } else {
        decimal_text(n / 10).push(digit_char(n % 10))
    }
}

/// The four labels of a key as they stand between the braces of a line.
pub open spec fn labels_text(labels: LabelsView) -> Seq<char> {
    "method=\""@ + labels.method + "\",path=\""@ + labels.path + "\",status_code=\""@
        + labels.status_code + "\",host=\""@ + labels.host + "\""@
}

/// The line of one bucket: the labels, the bound and the cumulative count.
pub open spec fn bucket_line(labels: Seq<char>, bound: Seq<char>, count: nat) -> Seq<char> {
    "nginx_http_request_duration_seconds_bucket{"@ + labels + ",le=\""@ + bound + "\"} "@
        + decimal_text(count)
}

/// The line of the sum of a series.
pub open spec fn sum_line(labels: Seq<char>, sum: Seq<char>) -> Seq<char> {
    "nginx_http_request_duration_seconds_sum{"@ + labels + "} "@ + sum
}

/// The line of the number of samples of a series.
pub open spec fn count_line(labels: Seq<char>, count: nat) -> Seq<char> {
    "nginx_http_request_duration_seconds_count{"@ + labels + "} "@ + decimal_text(count)
}

/// The bucket lines of a series, one for each bound in order: the count of
/// a bound is the number of samples less than or equal to it.
pub open spec fn bucket_lines(
    labels: Seq<char>,
    samples: Seq<u64>,
    bits: Seq<u64>,
    bounds: Seq<Seq<char>>,
) -> Seq<Seq<char>> {
    Seq::new(bits.len(), |i: int| bucket_line(labels, bounds[i], count_le(samples, bits[i])))
}

/// The block of one series: its bucket lines, the `+Inf` bucket with the
/// number of samples, the sum and the count.
pub open spec fn series_lines(
    series: SeriesView,
    bits: Seq<u64>,
    bounds: Seq<Seq<char>>,
    sum: Seq<char>,
) -> Seq<Seq<char>> {
    let labels = labels_text(series.labels);
    bucket_lines(labels, series.samples, bits, bounds) + seq![
        bucket_line(labels, "+Inf"@, series.samples.len()),
        sum_line(labels, sum),
        count_line(labels, series.samples.len()),
    ]
}

/// The blocks of the first `count` series, in order.
pub open spec fn blocks(
    series: Seq<SeriesView>,
    bits: Seq<u64>,
    bounds: Seq<Seq<char>>,
    sums: Seq<Seq<char>>,
    count: nat,
) -> Seq<Seq<char>>
    decreases count,
{
    if count == 0 {
        Seq::empty()
    } else {
        blocks(series, bits, bounds, sums, (count - 1) as nat) + series_lines(
            series[count - 1],
            bits,
            bounds,
            sums[count - 1],
        )
    }
}

/// All lines of the exposition: the two header lines, then the block of
/// every series.
pub open spec fn exposition_lines(
    series: Seq<SeriesView>,
    bits: Seq<u64>,
    bounds: Seq<Seq<char>>,
    sums: Seq<Seq<char>>,
) -> Seq<Seq<char>> {
    seq![
        "# HELP nginx_http_request_duration_seconds Request duration in seconds"@,
        "# TYPE nginx_http_request_duration_seconds histogram"@,
    ] + blocks(series, bits, bounds, sums, series.len())
}

/// Lines joined by line feeds, with none after the last.
pub open spec fn join_lines(lines: Seq<Seq<char>>) -> Seq<char>
    decreases lines.len(),
{
    if lines.len() == 0 {
        Seq::empty()
    } else if lines.len() == 1 {
        lines[0]
    } else {
        join_lines(lines.drop_last()) + "\n"@ + lines.last()
    }
}

/// The exposition text.
pub open spec fn exposition_text(
    series: Seq<SeriesView>,
    bits: Seq<u64>,
    bounds: Seq<Seq<char>>,
    sums: Seq<Seq<char>>,
) -> Seq<char> {
    join_lines(exposition_lines(series, bits, bounds, sums))
}

/// The body that reports the message of a failed scrape.
pub open spec fn error_body(message: Seq<char>) -> Seq<char> {
    "# Error: "@ + message + "\n"@
}

/// The answer to a scrape: status 200 and the exposition text, or, where
/// the read pass ended with a message, status 500 and the message.
pub open spec fn response_spec(
    failure: Option<Seq<char>>,
    series: Seq<SeriesView>,
    bits: Seq<u64>,
    bounds: Seq<Seq<char>>,
    sums: Seq<Seq<char>>,
) -> (int, Seq<char>) {
    match failure {
        None => (200, exposition_text(series, bits, bounds, sums)),
        Some(message) => (500, error_body(message)),
    }
}

/// Scraping again when no byte was appended gives the same answer, byte for
/// byte, after a scrape that nothing ended: the second pass finds no
/// complete line among the bytes that the first left, takes nothing, and
/// nothing ends it.
pub proof fn lemma_scrape_again_same_response(
    series: Seq<SeriesView>,
    chunk: Seq<u8>,
    contents: Seq<LineContent>,
    bits: Seq<u64>,
    bounds: Seq<Seq<char>>,
    sums: Seq<Seq<char>>,
)
    requires
        contents.len() == split_lines_spec(chunk).len(),
        scan_spec(series, chunk, contents).failure is None,
    ensures
        ({
            let first = scan_spec(series, chunk, contents);
            let again = scan_spec(
                first.series,
                chunk.skip(first.consumed as int),
                contents.skip(first.taken as int),
            );
            &&& again.consumed == 0
            &&& response_spec(again.failure, again.series, bits, bounds, sums) == response_spec(
                first.failure,
                first.series,
                bits,
                bounds,
                sums,
            )
        }),
{
    lemma_scan_again(series, chunk, contents);
}

/// The scrape after one that a line ended is not held up by that line: it
/// reads on behind it. Where the line was the last and no byte was
/// appended, the next scrape takes nothing and answers with the exposition
/// text of the aggregate as the failed scrape left it.
pub proof fn lemma_scrape_after_failure(
    series: Seq<SeriesView>,
    chunk: Seq<u8>,
    contents: Seq<LineContent>,
    bits: Seq<u64>,
    bounds: Seq<Seq<char>>,
    sums: Seq<Seq<char>>,
)
    requires
        contents.len() == split_lines_spec(chunk).len(),
        scan_spec(series, chunk, contents).failure is Some,
    ensures
        ({
            let first = scan_spec(series, chunk, contents);
            let again = scan_spec(
                first.series,
                chunk.skip(first.consumed as int),
                contents.skip(first.taken as int),
            );
            &&& 1 <= first.taken <= split_lines_spec(chunk).len()
            &&& split_lines_spec(chunk.skip(first.consumed as int)) == split_lines_spec(
                chunk,
            ).skip(first.taken as int)
            &&& first.taken == split_lines_spec(chunk).len() ==> {
                &&& again.consumed == 0
                &&& response_spec(again.failure, again.series, bits, bounds, sums) == (
                    200int,
                    exposition_text(first.series, bits, bounds, sums),
                )
            }
        }),
{
    lemma_scan_again(series, chunk, contents);
    lemma_pass_consumes(series, split_lines_spec(chunk), contents);
}

fn digit_str(digit: usize) -> (text: &'static str)
    requires
        digit < 10,
    ensures
        text@ == seq![digit_char(digit as nat)],
{
    proof {
        reveal_strlit("0");
        reveal_strlit("1");
        reveal_strlit("2");
        reveal_strlit("3");
        reveal_strlit("4");
        reveal_strlit("5");
        reveal_strlit("6");
        reveal_strlit("7");
        reveal_strlit("8");
        reveal_strlit("9");
    }
    let text = if digit == 0 {
        "0"
    } else if digit == 1 {
        "1"
    } else if digit == 2 {
        "2"
    } else if digit == 3 {
        "3"
    } else if digit == 4 {
        "4"
    } else if digit == 5 {
        "5"
    } else if digit == 6 {
        "6"
    } else if digit == 7 {
        "7"
    } else if digit == 8 {
        "8"
    } else {
        "9"
    };
    assert(text@ =~= seq![digit_char(digit as nat)]);
    text
}

/// Writes a count in decimal digits at the end of `out`.
pub fn push_decimal(out: &mut String, n: usize)
    ensures
        final(out)@ == old(out)@ + decimal_text(n as nat),
    decreases n,
{
    if n >= 10 {
        push_decimal(out, n / 10);
    }
    out.append(digit_str(n % 10));
    assert(out@ =~= old(out)@ + decimal_text(n as nat));
}

/// The four labels of a key as they stand between the braces of a line.
pub fn render_labels(labels: &MetricLabels) -> (text: String)
    ensures
        text@ == labels_text(labels@),
{
    let mut text = String::from_str("method=\"");
    text.append(labels.method.as_str());
    text.append("\",path=\"");
    text.append(labels.path.as_str());
    text.append("\",status_code=\"");
    text.append(labels.status_code.as_str());
    text.append("\",host=\"");
    text.append(labels.host.as_str());
    text.append("\"");
    text
}

fn render_bucket_line(labels: &str, bound: &str, count: usize) -> (line: String)
    ensures
        line@ == bucket_line(labels@, bound@, count as nat),
{
    let mut line = String::from_str("nginx_http_request_duration_seconds_bucket{");
    line.append(labels);
    line.append(",le=\"");
    line.append(bound);
    line.append("\"} ");
    push_decimal(&mut line, count);
    line
}

/// Writes the block of one series at the end of `output`.
pub fn render_series(
    output: &mut Vec<String>,
    labels: &MetricLabels,
    samples: &Vec<u64>,
    buckets: &BucketSet,
    sum: &str,
)
    requires
        buckets.wf(),
    ensures
        texts_view(final(output)@) == texts_view(old(output)@) + series_lines(
            SeriesView { labels: labels@, samples: samples@ },
            buckets.bits_view(),
            buckets.labels_view(),
            sum@,
        ),
{
    let ghost series = SeriesView { labels: labels@, samples: samples@ };
    let ghost before = texts_view(output@);
    let label_str = render_labels(labels);
    let ghost all = bucket_lines(label_str@, samples@, buckets.bits_view(), buckets.labels_view());
    let bucket_counts = calculate_histogram_buckets(samples.as_slice(), buckets.bits.as_slice());
    let count = samples.len();
    let mut i: usize = 0;
    assert(texts_view(output@) =~= before + all.take(0));
    while i < buckets.bits.len()
        invariant
            i <= buckets.bits@.len(),
            buckets.texts@.len() == buckets.bits@.len(),
            bucket_counts@.len() == buckets.bits@.len(),
            forall|k: int|
                0 <= k < buckets.bits@.len() ==> #[trigger] bucket_counts@[k] == count_le(
                    samples@,
                    buckets.bits@[k],
                ),
            all == bucket_lines(label_str@, samples@, buckets.bits_view(), buckets.labels_view()),
            texts_view(output@) == before + all.take(i as int),
        decreases buckets.bits@.len() - i,
    {
        let line = render_bucket_line(
            label_str.as_str(),
            buckets.texts[i].as_str(),
            bucket_counts[i],
        );
        proof {
            assert(buckets.labels_view()[i as int] == buckets.texts@[i as int]@);
            assert(line@ == all[i as int]);
            lemma_texts_push(output@, line);
            assert((before + all.take(i as int)).push(line@) =~= before + all.take(i + 1));
        }
        output.push(line);
        i = i + 1;
    }
    assert(all.take(buckets.bits@.len() as int) =~= all);
    let ghost with_buckets = texts_view(output@);
    let inf = render_bucket_line(label_str.as_str(), "+Inf", count);
    let mut sum_text = String::from_str("nginx_http_request_duration_seconds_sum{");
    sum_text.append(label_str.as_str());
    sum_text.append("} ");
    sum_text.append(sum);
    let mut count_text = String::from_str("nginx_http_request_duration_seconds_count{");
    count_text.append(label_str.as_str());
    count_text.append("} ");
    push_decimal(&mut count_text, count);
    proof {
        lemma_texts_push(output@, inf);
        lemma_texts_push(output@.push(inf), sum_text);
        lemma_texts_push(output@.push(inf).push(sum_text), count_text);
        assert(with_buckets.push(inf@).push(sum_text@).push(count_text@) =~= with_buckets + seq![
            inf@,
            sum_text@,
            count_text@,
        ]);
    }
    output.push(inf);
    output.push(sum_text);
    output.push(count_text);
    assert(texts_view(output@) =~= before + series_lines(
        series,
        buckets.bits_view(),
        buckets.labels_view(),
        sum@,
    ));
}

/// Joins lines by line feeds, with none after the last.
pub fn join(lines: &Vec<String>) -> (text: String)
    ensures
        text@ == join_lines(texts_view(lines@)),
{
    let ghost all = texts_view(lines@);
    let mut text = String::new();
    let mut i: usize = 0;
    assert(all.take(0) =~= Seq::<Seq<char>>::empty());
    while i < lines.len()
        invariant
            i <= lines@.len(),
            all == texts_view(lines@),
            text@ == join_lines(all.take(i as int)),
        decreases lines@.len() - i,
    {
        let ghost next = all.take(i + 1);
        assert(next.drop_last() =~= all.take(i as int));
        assert(next.last() == lines@[i as int]@);
        if i > 0 {
            text.append("\n");
        } else {
            assert(next[0] == lines@[0]@);
            assert(text@ + lines@[0]@ =~= lines@[0]@);
        }
        text.append(lines[i].as_str());
        i = i + 1;
    }
    assert(all.take(lines@.len() as int) =~= all);
    text
}

/// Writes the exposition text of the aggregate.
///
/// `sums` holds, for each series in order, the sum of its samples written
/// out.
pub fn render_metrics(state: &MetricsState, buckets: &BucketSet, sums: &Vec<String>) -> (text:
    String)
    requires
        sums@.len() == state.series().len(),
        buckets.wf(),
    ensures
        text@ == exposition_text(
            state.series(),
            buckets.bits_view(),
            buckets.labels_view(),
            texts_view(sums@),
        ),
{
    let ghost series = state.series();
    let ghost bits = buckets.bits_view();
    let ghost bounds = buckets.labels_view();
    let ghost sum_texts = texts_view(sums@);
    let mut output: Vec<String> = Vec::new();
    output.push(
        String::from_str("# HELP nginx_http_request_duration_seconds Request duration in seconds"),
    );
    output.push(String::from_str("# TYPE nginx_http_request_duration_seconds histogram"));
    let ghost header = texts_view(output@);
    assert(header =~= seq![
        "# HELP nginx_http_request_duration_seconds Request duration in seconds"@,
        "# TYPE nginx_http_request_duration_seconds histogram"@,
    ]);
    let n = state.series_count();
    let mut i: usize = 0;
    assert(texts_view(output@) =~= header + blocks(series, bits, bounds, sum_texts, 0));
    while i < n
        invariant
            i <= n,
            n == series.len(),
            series == state.series(),
            bits == buckets.bits_view(),
            bounds == buckets.labels_view(),
            buckets.wf(),
            sum_texts == texts_view(sums@),
            sums@.len() == n,
            texts_view(output@) == header + blocks(series, bits, bounds, sum_texts, i as nat),
        decreases n - i,
    {
        let labels = state.series_labels(i);
        let samples = state.series_samples(i);
        render_series(&mut output, labels, samples, buckets, sums[i].as_str());
        proof {
            let s = SeriesView { labels: labels@, samples: samples@ };
            assert(s == series[i as int]);
            assert(sum_texts[i as int] == sums@[i as int]@);
            assert(texts_view(output@) =~= header + blocks(
                series,
                bits,
                bounds,
                sum_texts,
                (i + 1) as nat,
            ));
        }
        i = i + 1;
    }
    join(&output)
}

/// Answers a scrape: the exposition text with status 200, or, where the
/// read pass failed, its message as a comment with status 500.
pub fn metrics_handler(
    state: &MetricsState,
    outcome: &Result<(), String>,
    buckets: &BucketSet,
    sums: &Vec<String>,
) -> (response: (u16, String))
    requires
        sums@.len() == state.series().len(),
        buckets.wf(),
    ensures
        (response.0 as int, response.1@) == response_spec(
            error_view(*outcome),
            state.series(),
            buckets.bits_view(),
            buckets.labels_view(),
            texts_view(sums@),
        ),
{
    match outcome {
        Ok(_) => (200, render_metrics(state, buckets, sums)),
        Err(message) => {
            let mut body = String::from_str("# Error: ");
            body.append(message.as_str());
            body.append("\n");
            (500, body)
        },
    }
}

} // verus!
