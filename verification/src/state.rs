//! The engine's state: the watched files and the aggregate, changed only by
//! the steps of a scrape.

use crate::ingest::{
    ingest_lines, lemma_pass_consumes, lemma_pass_keeps_keys_distinct, lemma_scan_reaches_end,
    scan_spec, LineContent,
};
use crate::lines::{
    lemma_total_len_of_split, lemma_total_len_take, split_lines, split_lines_spec, LINE_FEED,
};
use crate::metrics::{
    distinct_keys, lemma_record, record_sample, record_spec, series_view, MetricLabels, Series,
    SeriesView,
};
use crate::registry::{
    add_new, distinct_paths, files_view, find_path, handle_file_rotation, has_path, is_found,
    is_matched, lemma_meta_changed,
    lemma_refresh, refresh_spec, retain_matched, rotate_spec, FileStat, FileView, LogFileMeta,
    MatchedFile, WatchedFile,
};
use vstd::prelude::*;
use vstd::string::*;

verus! {

/// The watched files, the aggregate, and the pattern that selects the files.
pub struct MetricsState {
    log_files: Vec<WatchedFile>,
    metrics: Vec<Series>,
    pattern: String,
}

/// The message of a result, if it is an error, as specifications see it.
pub open spec fn error_view(result: Result<(), String>) -> Option<Seq<char>> {
    match result {
        Ok(_) => None,
        Err(message) => Some(message@),
    }
}

impl MetricsState {
    /// The watched files, in the order in which they came to be watched.
    pub closed spec fn files(&self) -> Seq<FileView> {
        files_view(self.log_files@)
    }

    /// The aggregate: one series for each label key, in the order in which
    /// the keys were first seen.
    pub closed spec fn series(&self) -> Seq<SeriesView> {
        series_view(self.metrics@)
    }

    /// The pattern that selects the files.
    pub closed spec fn pattern_view(&self) -> Seq<char> {
        self.pattern@
    }

    /// No path is watched twice and no key has two series.
    pub open spec fn wf(&self) -> bool {
        &&& distinct_paths(self.files())
        &&& distinct_keys(self.series())
    }

    /// A state that watches nothing and has seen nothing.
    pub fn new(pattern: String) -> (state: Self)
        ensures
            state.wf(),
            state.files() == Seq::<FileView>::empty(),
            state.series() == Seq::<SeriesView>::empty(),
            state.pattern_view() == pattern@,
    {
        let state = MetricsState { log_files: Vec::new(), metrics: Vec::new(), pattern };
        assert(state.files() =~= Seq::<FileView>::empty());
        assert(state.series() =~= Seq::<SeriesView>::empty());
        state
    }

    /// The pattern that selects the files.
    pub fn pattern(&self) -> (pattern: &String)
        ensures
            pattern@ == self.pattern_view(),
    {
        &self.pattern
    }

    /// How many files are watched.
    pub fn file_count(&self) -> (count: usize)
        ensures
            count == self.files().len(),
    {
        self.log_files.len()
    }

    /// The bytes of the path of a watched file.
    pub fn file_path(&self, index: usize) -> (path: &Vec<u8>)
        requires
            index < self.files().len(),
        ensures
            path@ == self.files()[index as int].path,
    {
        &self.log_files[index].path
    }

    /// The path of a watched file written out.
    pub fn file_name(&self, index: usize) -> (name: &String)
        requires
            index < self.files().len(),
        ensures
            name@ == self.files()[index as int].name,
    {
        &self.log_files[index].name
    }

    /// How far a watched file has been read, and its inode then.
    pub fn file_meta(&self, index: usize) -> (meta: LogFileMeta)
        requires
            index < self.files().len(),
        ensures
            meta == self.files()[index as int].meta,
    {
        self.log_files[index].meta
    }

    /// Whether a path is watched.
    pub fn is_watched(&self, path: &Vec<u8>) -> (watched: bool)
        ensures
            watched == has_path(self.files(), path@),
    {
        find_path(&self.log_files, path).is_some()
    }

    /// How many label keys have a series.
    pub fn series_count(&self) -> (count: usize)
        ensures
            count == self.series().len(),
    {
        self.metrics.len()
    }

    /// The label key of a series.
    pub fn series_labels(&self, index: usize) -> (labels: &MetricLabels)
        requires
            index < self.series().len(),
        ensures
            labels@ == self.series()[index as int].labels,
    {
        &self.metrics[index].labels
    }

    /// The samples of a series, oldest first.
    pub fn series_samples(&self, index: usize) -> (samples: &Vec<u64>)
        requires
            index < self.series().len(),
        ensures
            samples@ == self.series()[index as int].samples,
    {
        &self.metrics[index].samples
    }

    /// Brings the registry in line with the paths that the pattern matches
    /// now.
    ///
    /// A watched file whose path is no longer matched is forgotten, and what
    /// was read of it with it. A matched path that is not watched starts to
    /// be, with nothing read and the inode given; one whose inode could not
    /// be found is left out until a later refresh finds it. The other files
    /// stay as they are. No file is read.
    pub fn update_files_map(&mut self, matched: &Vec<MatchedFile>)
        requires
            old(self).wf(),
        ensures
            final(self).wf(),
            final(self).files() == refresh_spec(old(self).files(), matched@),
            forall|path: Seq<u8>|
                has_path(final(self).files(), path) <==> ((has_path(old(self).files(), path)
                    && is_matched(matched@, path)) || is_found(matched@, path)),
            final(self).series() == old(self).series(),
            final(self).pattern_view() == old(self).pattern_view(),
    {
        proof {
            lemma_refresh(self.files(), matched@);
        }
        let mut kept = retain_matched(&self.log_files, matched);
        add_new(&mut kept, matched);
        self.log_files = kept;
    }

    /// Checks a watched file for rotation before it is read.
    ///
    /// If another file stands behind the path, or the file is shorter than
    /// what was read of it, reading starts over at its beginning. If the
    /// file system could not say, nothing changes and the error says so: the
    /// file is to be left alone until the next scrape.
    pub fn check_rotation(&mut self, index: usize, stat: &Result<FileStat, String>) -> (result:
        Result<(), String>)
        requires
            old(self).wf(),
            index < old(self).files().len(),
        ensures
            final(self).wf(),
            final(self).series() == old(self).series(),
            final(self).pattern_view() == old(self).pattern_view(),
            match stat {
                Ok(now) => result is Ok && final(self).files() == old(self).files().update(
                    index as int,
                    FileView {
                        path: old(self).files()[index as int].path,
                        name: old(self).files()[index as int].name,
                        meta: rotate_spec(old(self).files()[index as int].meta, *now),
                    },
                ),
                Err(reason) => final(self).files() == old(self).files() && error_view(result)
                    == Some("Failed to get file metadata: "@ + reason@),
            },
    {
        let ghost before = self.log_files@;
        let result = handle_file_rotation(stat, &mut self.log_files[index].meta);
        proof {
            lemma_meta_changed(
                before,
                self.log_files@,
                index as int,
                self.log_files@[index as int].meta,
            );
            assert(files_view(before).update(index as int, files_view(before)[index as int])
                =~= files_view(before));
        }
        result
    }

    /// Appends a duration to the series of its label key, and starts the
    /// series if the key is new.
    pub fn record(&mut self, labels: MetricLabels, duration: u64)
        requires
            old(self).wf(),
        ensures
            final(self).wf(),
            final(self).series() == record_spec(old(self).series(), labels@, duration),
            final(self).files() == old(self).files(),
            final(self).pattern_view() == old(self).pattern_view(),
    {
        proof {
            lemma_record(self.series(), labels@, duration);
        }
        record_sample(&mut self.metrics, labels, duration);
    }

    /// Takes in the bytes appended to a watched file since it was last read.
    ///
    /// `chunk` holds the bytes of the file from its read position to its
    /// end, and `contents` what decoding each complete line of them gave, in
    /// order. Complete lines are taken one by one, and the read position
    /// moves past every line taken; bytes after the last line feed are left
    /// for a later pass. A line that ends the pass is taken too, so that no
    /// later pass reads it again, but it adds nothing; no line after it is
    /// taken, and its message is the error.
    pub fn read_new_entries(
        &mut self,
        index: usize,
        chunk: &[u8],
        contents: &Vec<LineContent>,
    ) -> (result: Result<(), String>)
        requires
            old(self).wf(),
            index < old(self).files().len(),
            contents@.len() == split_lines_spec(chunk@).len(),
            old(self).files()[index as int].meta.file_position + chunk@.len() <= u64::MAX,
        ensures
            final(self).wf(),
            final(self).pattern_view() == old(self).pattern_view(),
            final(self).series() == scan_spec(old(self).series(), chunk@, contents@).series,
            error_view(result) == scan_spec(old(self).series(), chunk@, contents@).failure,
            final(self).files() == old(self).files().update(
                index as int,
                FileView {
                    path: old(self).files()[index as int].path,
                    name: old(self).files()[index as int].name,
                    meta: LogFileMeta {
                        file_position: (old(self).files()[index as int].meta.file_position
                            + scan_spec(old(self).series(), chunk@, contents@).consumed) as u64,
                        inode: old(self).files()[index as int].meta.inode,
                    },
                },
            ),
            scan_spec(old(self).series(), chunk@, contents@).consumed <= chunk@.len(),
            final(self).files()[index as int].meta.file_position >= old(
                self,
            ).files()[index as int].meta.file_position,
            result is Ok && (chunk@.len() == 0 || chunk@.last() == LINE_FEED) ==> scan_spec(
                old(self).series(),
                chunk@,
                contents@,
            ).consumed == chunk@.len(),
    {
        let ghost before = self.log_files@;
        let ghost pass = scan_spec(self.series(), chunk@, contents@);
        proof {
            lemma_total_len_of_split(chunk@);
            lemma_pass_keeps_keys_distinct(self.series(), split_lines_spec(chunk@), contents@);
            lemma_pass_consumes(self.series(), split_lines_spec(chunk@), contents@);
            lemma_total_len_take(split_lines_spec(chunk@), pass.taken as int);
            if pass.failure is None {
                lemma_scan_reaches_end(self.series(), chunk@, contents@);
            }
        }
        let lines = split_lines(chunk);
        let chunk_len: usize = chunk.len();
        assert(chunk@.len() == chunk_len);
        let outcome = ingest_lines(&mut self.metrics, &lines, contents);
        let position = self.log_files[index].meta.file_position;
        self.log_files[index].meta.file_position = position + outcome.consumed as u64;
        proof {
            lemma_meta_changed(
                before,
                self.log_files@,
                index as int,
                self.log_files@[index as int].meta,
            );
        }
        match outcome.failure {
            Some(message) => Err(message),
            None => Ok(()),
        }
    }
}

} // verus!
