//! The steps of a scrape over one watched file.
//!
//! Looking at a file and reading it is the caller's work; what follows from
//! what it found is decided here. The caller reports each thing it found as
//! an event and does what the action says: read on, leave the file alone
//! until the next scrape, go on to the next file, or end the scrape.

use crate::ingest::{scan_spec, LineContent};
use crate::lines::split_lines_spec;
use crate::metrics::SeriesView;
use crate::registry::{rotate_spec, FileStat, FileView, LogFileMeta};
use crate::state::MetricsState;
use vstd::prelude::*;
use vstd::string::*;

verus! {

/// What the caller found when it looked at a watched file or tried to read
/// it.
#[derive(Debug)]
pub enum FileEvent {
    /// No file stands at the path.
    Missing,
    /// What the file system said of the file: its inode and length, or why
    /// they could not be had.
    Stat(Result<FileStat, String>),
    /// The file could not be opened, and why.
    OpenFailed(String),
    /// The read position could not be set, and why.
    SeekFailed(String),
    /// The file was read from its read position on.
    Read {
        /// The bytes that were read.
        chunk: Vec<u8>,
        /// What decoding each complete line of them gave, in order.
        contents: Vec<LineContent>,
        /// Why reading stopped before the end of the file, if it did.
        error: Option<String>,
    },
}

/// What the caller is to do next.
#[derive(Debug)]
pub enum Action {
    /// Open the file and read it from this position to its end.
    ReadFrom(u64),
    /// Leave the file alone for this scrape and go on to the next; the
    /// message is for the log.
    Skip(String),
    /// The file is read; go on to the next.
    Next,
    /// End the scrape; the message is its error.
    Abort(String),
}

/// An action as specifications see it.
pub enum ActionView {
    ReadFrom(u64),
    Skip(Seq<char>),
    Next,
    Abort(Seq<char>),
}

impl View for Action {
    type V = ActionView;

    open spec fn view(&self) -> ActionView {
        match self {
            Action::ReadFrom(position) => ActionView::ReadFrom(*position),
            Action::Skip(message) => ActionView::Skip(message@),
            Action::Next => ActionView::Next,
            Action::Abort(message) => ActionView::Abort(message@),
        }
    }
}

/// What an event asks of its arguments: a reading holds one decoding for
/// each complete line, and the file does not end beyond what a position can
/// count.
pub open spec fn event_fits(file: FileView, event: FileEvent) -> bool {
    match event {
        FileEvent::Read { chunk, contents, error } => {
            &&& contents@.len() == split_lines_spec(chunk@).len()
            &&& file.meta.file_position + chunk@.len() <= u64::MAX
        },
        _ => true,
    }
}

/// The action that an event calls for.
///
/// A file that is missing, whose metadata cannot be had or that cannot be
/// opened is skipped. Metadata lead to reading from where the rotation
/// check puts the read position. A read position that cannot be set ends
/// the scrape, and so does a line that ends the read pass, or, after the
/// lines that were read, an error that stopped the reading.
pub open spec fn action_spec(
    file: FileView,
    series: Seq<SeriesView>,
    event: FileEvent,
) -> ActionView {
    match event {
        FileEvent::Missing => ActionView::Skip(
            "Failed to find file "@ + file.name + ". Skipped"@,
        ),
        FileEvent::Stat(Err(reason)) => ActionView::Skip(
            "Failed to get file metadata: "@ + reason@,
        ),
        FileEvent::Stat(Ok(now)) => ActionView::ReadFrom(
            rotate_spec(file.meta, now).file_position,
        ),
        FileEvent::OpenFailed(reason) => ActionView::Skip(
            "Failed to open log file "@ + file.name + ": "@ + reason@,
        ),
        FileEvent::SeekFailed(reason) => ActionView::Abort(
            "Failed to seek to position in file "@ + file.name + ": "@ + reason@,
        ),
        FileEvent::Read { chunk, contents, error } => match scan_spec(
            series,
            chunk@,
            contents@,
        ).failure {
            Some(message) => ActionView::Abort(message),
            None => match error {
                Some(reason) => ActionView::Abort("Failed to read line: "@ + reason@),
                None => ActionView::Next,
            },
        },
    }
}

/// The state of the file after an event: metadata may start it over, a
/// reading moves its read position past the lines taken, and nothing else
/// touches it.
pub open spec fn file_after(
    file: FileView,
    series: Seq<SeriesView>,
    event: FileEvent,
) -> FileView {
    match event {
        FileEvent::Stat(Ok(now)) => FileView {
            path: file.path,
            name: file.name,
            meta: rotate_spec(file.meta, now),
        },
        FileEvent::Read { chunk, contents, error } => FileView {
            path: file.path,
            name: file.name,
            meta: LogFileMeta {
                file_position: (file.meta.file_position + scan_spec(
                    series,
                    chunk@,
                    contents@,
                ).consumed) as u64,
                inode: file.meta.inode,
            },
        },
        _ => file,
    }
}

/// The aggregate after an event: only a reading adds to it.
pub open spec fn series_after(series: Seq<SeriesView>, event: FileEvent) -> Seq<SeriesView> {
    match event {
        FileEvent::Read { chunk, contents, error } => scan_spec(series, chunk@, contents@).series,
        _ => series,
    }
}

impl MetricsState {
    /// Takes in what the caller found of a watched file and says what to do
    /// next.
    pub fn on_file_event(&mut self, index: usize, event: &FileEvent) -> (action: Action)
        requires
            old(self).wf(),
            index < old(self).files().len(),
            event_fits(old(self).files()[index as int], *event),
        ensures
            final(self).wf(),
            final(self).pattern_view() == old(self).pattern_view(),
            action@ == action_spec(old(self).files()[index as int], old(self).series(), *event),
            final(self).files() == old(self).files().update(
                index as int,
                file_after(old(self).files()[index as int], old(self).series(), *event),
            ),
            final(self).series() == series_after(old(self).series(), *event),
    {
        let ghost files = self.files();
        assert(files.update(index as int, files[index as int]) =~= files);
        match event {
            FileEvent::Missing => {
                let mut message = String::from_str("Failed to find file ");
                message.append(self.file_name(index).as_str());
                message.append(". Skipped");
                Action::Skip(message)
            },
            FileEvent::Stat(stat) => {
                match self.check_rotation(index, stat) {
                    Err(message) => Action::Skip(message),
                    Ok(_) => Action::ReadFrom(self.file_meta(index).file_position),
                }
            },
            FileEvent::OpenFailed(reason) => {
                let mut message = String::from_str("Failed to open log file ");
                message.append(self.file_name(index).as_str());
                message.append(": ");
                message.append(reason.as_str());
                Action::Skip(message)
            },
            FileEvent::SeekFailed(reason) => {
                let mut message = String::from_str("Failed to seek to position in file ");
                message.append(self.file_name(index).as_str());
                message.append(": ");
                message.append(reason.as_str());
                Action::Abort(message)
            },
            FileEvent::Read { chunk, contents, error } => {
                match self.read_new_entries(index, chunk.as_slice(), contents) {
                    Err(message) => Action::Abort(message),
                    Ok(_) => match error {
                        Some(reason) => {
                            let mut message = String::from_str("Failed to read line: ");
                            message.append(reason.as_str());
                            Action::Abort(message)
                        },
                        None => Action::Next,
                    },
                }
            },
        }
    }
}

} // verus!
