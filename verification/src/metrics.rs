//! The aggregate: every duration seen, grouped by label key.
//!
//! Series stand in the order in which their keys were first seen. Nothing is
//! ever taken out of a series.

use vstd::prelude::*;
use vstd::string::*;

verus! {

/// A label key: request method, URL path, status class and host.
#[derive(Debug)]
pub struct MetricLabels {
    pub method: String,
    pub path: String,
    pub status_code: String,
    pub host: String,
}

/// A label key as specifications see it.
pub struct LabelsView {
    pub method: Seq<char>,
    pub path: Seq<char>,
    pub status_code: Seq<char>,
    pub host: Seq<char>,
}

impl View for MetricLabels {
    type V = LabelsView;

    open spec fn view(&self) -> LabelsView {
        LabelsView {
            method: self.method@,
            path: self.path@,
            status_code: self.status_code@,
            host: self.host@,
        }
    }
}

impl MetricLabels {
    /// Whether two keys are the same in all four labels.
    pub fn same(&self, other: &MetricLabels) -> (same: bool)
        ensures
            same == (self@ == other@),
    {
        self.method == other.method && self.path == other.path && self.status_code
            == other.status_code && self.host == other.host
    }

    /// A copy of the key.
    pub fn duplicate(&self) -> (copy: MetricLabels)
        ensures
            copy@ == self@,
    {
        MetricLabels {
            method: self.method.clone(),
            path: self.path.clone(),
            status_code: self.status_code.clone(),
            host: self.host.clone(),
        }
    }
}

/// The durations recorded under one label key, oldest first.
#[derive(Debug)]
pub struct Series {
    pub labels: MetricLabels,
    pub samples: Vec<u64>,
}

/// A series as specifications see it.
pub struct SeriesView {
    pub labels: LabelsView,
    pub samples: Seq<u64>,
}

impl View for Series {
    type V = SeriesView;

    open spec fn view(&self) -> SeriesView {
        SeriesView { labels: self.labels@, samples: self.samples@ }
    }
}

/// The views of the series held in a vector.
pub open spec fn series_view(series: Seq<Series>) -> Seq<SeriesView> {
    Seq::new(series.len(), |i: int| series[i]@)
}

/// The index of the series with the key `key`, or the number of series if
/// there is none.
pub open spec fn key_index(series: Seq<SeriesView>, key: LabelsView) -> int
    decreases series.len(),
{
    if series.len() == 0 {
        0
    } else if series[0].labels == key {
        0
    } else {
        1 + key_index(series.drop_first(), key)
    }
}

/// No key has two series.
pub open spec fn distinct_keys(series: Seq<SeriesView>) -> bool {
    forall|i: int, j: int|
        0 <= i < j < series.len() ==> (#[trigger] series[i]).labels != (#[trigger] series[j]).labels
}

/// The aggregate after `sample` was recorded under `key`: appended to the
/// key's series, or the first of a new series at the end.
pub open spec fn record_spec(series: Seq<SeriesView>, key: LabelsView, sample: u64) -> Seq<
    SeriesView,
> {
    let at = key_index(series, key);
    if 0 <= at < series.len() {
        series.update(at, SeriesView { labels: key, samples: series[at].samples.push(sample) })
    } else {
        series.push(SeriesView { labels: key, samples: seq![sample] })
    }
}

/// The samples that the aggregate holds under `key`, oldest first.
pub open spec fn samples_of(series: Seq<SeriesView>, key: LabelsView) -> Seq<u64> {
    let at = key_index(series, key);
    if 0 <= at < series.len() {
        series[at].samples
    } else {
        Seq::empty()
    }
}

/// The index of a key is where no series before has it.
pub proof fn lemma_key_index(series: Seq<SeriesView>, key: LabelsView, at: int)
    requires
        0 <= at <= series.len(),
        forall|k: int| 0 <= k < at ==> (#[trigger] series[k]).labels != key,
        at < series.len() ==> series[at].labels == key,
    ensures
        key_index(series, key) == at,
    decreases series.len(),
{
    if series.len() > 0 && at > 0 {
        let rest = series.drop_first();
        assert(series[0].labels != key);
        assert forall|k: int| 0 <= k < at - 1 implies (#[trigger] rest[k]).labels != key by {
            assert(rest[k] == series[k + 1]);
        }
        lemma_key_index(rest, key, at - 1);
    }
}

/// The index of a key lies within the series or at their end; no series
/// before it has the key, and the series at it has.
pub proof fn lemma_key_index_is_first(series: Seq<SeriesView>, key: LabelsView)
    ensures
        0 <= key_index(series, key) <= series.len(),
        forall|k: int| 0 <= k < key_index(series, key) ==> (#[trigger] series[k]).labels != key,
        key_index(series, key) < series.len() ==> series[key_index(series, key)].labels == key,
    decreases series.len(),
{
    if series.len() > 0 && series[0].labels != key {
        let rest = series.drop_first();
        lemma_key_index_is_first(rest, key);
        assert forall|k: int| 0 <= k < key_index(series, key) implies (#[trigger] series[k]).labels
            != key by {
            if k > 0 {
                assert(rest[k - 1] == series[k]);
            }
        }
    }
}

/// Recording keeps every key and its place, adds the sample to the series
/// of its key and to no other, and never gives a key two series.
pub proof fn lemma_record(series: Seq<SeriesView>, key: LabelsView, sample: u64)
    ensures
        samples_of(record_spec(series, key, sample), key) == samples_of(series, key).push(sample),
        forall|other: LabelsView|
            other != key ==> samples_of(record_spec(series, key, sample), other) == samples_of(
                series,
                other,
            ),
        distinct_keys(series) ==> distinct_keys(record_spec(series, key, sample)),
        record_spec(series, key, sample).len() >= series.len(),
{
    let after = record_spec(series, key, sample);
    let at = key_index(series, key);
    lemma_key_index_is_first(series, key);
    if at < series.len() {
        assert forall|k: int| 0 <= k < at implies (#[trigger] after[k]).labels != key by {
            assert(series[k].labels != key);
        }
        lemma_key_index(after, key, at);
    } else {
        assert forall|k: int| 0 <= k < at implies (#[trigger] after[k]).labels != key by {
            assert(series[k].labels != key);
        }
        lemma_key_index(after, key, at);
        assert(seq![sample] =~= Seq::<u64>::empty().push(sample));
    }
    assert forall|other: LabelsView| other != key implies samples_of(after, other) == samples_of(
        series,
        other,
    ) by {
        lemma_key_index_is_first(series, other);
        let o = key_index(series, other);
        assert forall|k: int| 0 <= k < o implies (#[trigger] after[k]).labels != other by {
            assert(series[k].labels != other);
        }
        if o < series.len() {
            lemma_key_index(after, other, o);
        } else {
            assert forall|k: int| 0 <= k < after.len() implies (#[trigger] after[k]).labels
                != other by {
                if k < series.len() {
                    assert(series[k].labels != other);
                }
            }
            lemma_key_index(after, other, after.len() as int);
        }
    }
    if distinct_keys(series) {
        assert forall|i: int, j: int| 0 <= i < j < after.len() implies (#[trigger] after[i]).labels
            != (#[trigger] after[j]).labels by {
            if j < series.len() {
                assert(series[i].labels != series[j].labels);
            } else {
                assert(series[i].labels != key);
            }
        }
    }
}

/// Finds the series of a key.
pub fn find_series(series: &Vec<Series>, key: &MetricLabels) -> (at: usize)
    ensures
        at == key_index(series_view(series@), key@),
        at <= series@.len(),
{
    let mut i: usize = 0;
    while i < series.len()
        invariant
            i <= series@.len(),
            forall|k: int| 0 <= k < i ==> (#[trigger] series@[k])@.labels != key@,
        decreases series@.len() - i,
    {
        if series[i].labels.same(key) {
            proof {
                let views = series_view(series@);
                assert forall|k: int| 0 <= k < i implies (#[trigger] views[k]).labels != key@ by {
                    assert(series@[k]@.labels != key@);
                }
                lemma_key_index(views, key@, i as int);
            }
            return i;
        }
        i = i + 1;
    }
    proof {
        let views = series_view(series@);
        assert forall|k: int| 0 <= k < views.len() implies (#[trigger] views[k]).labels != key@ by {
            assert(series@[k]@.labels != key@);
        }
        lemma_key_index(views, key@, views.len() as int);
    }
    i
}

/// Appends a duration to the series of its label key, and starts the series
/// if the key is new.
pub fn record_sample(series: &mut Vec<Series>, labels: MetricLabels, duration: u64)
    ensures
        series_view(final(series)@) == record_spec(series_view(old(series)@), labels@, duration),
{
    let at = find_series(series, &labels);
    if at < series.len() {
        let ghost before = series@;
        series[at].samples.push(duration);
        proof {
            lemma_key_index_is_first(series_view(before), labels@);
            assert(series_view(before)[at as int] == before[at as int]@);
            assert(series@.len() == before.len());
            assert(series@[at as int].labels == before[at as int].labels);
            assert(series@[at as int].samples@ == before[at as int].samples@.push(duration));
            assert(forall|k: int| 0 <= k < before.len() && k != at ==> series@[k] == before[k]);
        }
        assert(series_view(series@) =~= record_spec(series_view(before), labels@, duration));
    } else {
        let mut samples: Vec<u64> = Vec::new();
        samples.push(duration);
        let ghost before = series@;
        series.push(Series { labels, samples });
        assert(series_view(series@) =~= record_spec(series_view(before), labels@, duration));
    }
}

} // verus!
