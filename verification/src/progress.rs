//! Model-download progress: the record the downloader writes and the UI
//! polls, with each transition it may take.

use vstd::prelude::*;

verus! {

/// Progress of a multi-file model download.
#[derive(Debug)]
pub struct DownloadProgress {
    /// 1-based index of the file being fetched; equals `file_count` when done.
    pub file_index: usize,
    /// How many files this download covers.
    pub file_count: usize,
    /// Bytes fetched of the current file.
    pub downloaded_bytes: u64,
    /// Expected size of the current file, when the server reported one.
    pub total_bytes: u64,
    /// Whether the download has finished, successfully or not.
    pub done: bool,
    /// The failure message, if the download failed.
    pub error: Option<String>,
}

impl Clone for DownloadProgress {
    fn clone(&self) -> (r: Self)
        ensures
            r.file_index == self.file_index,
            r.file_count == self.file_count,
            r.downloaded_bytes == self.downloaded_bytes,
            r.total_bytes == self.total_bytes,
            r.done == self.done,
            (r.error is Some) == (self.error is Some),
            r.error matches Some(e) ==> self.error matches Some(e2) && e@ == e2@,
    {
        let error = match &self.error {
            Some(e) => Some(e.clone()),
            None => None,
        };
        DownloadProgress {
            file_index: self.file_index,
            file_count: self.file_count,
            downloaded_bytes: self.downloaded_bytes,
            total_bytes: self.total_bytes,
            done: self.done,
            error,
        }
    }
}

impl DownloadProgress {
    /// The state before any download was attempted.
    pub fn new() -> (r: Self)
        ensures
            r.file_index == 0,
            r.file_count == 0,
            r.downloaded_bytes == 0,
            r.total_bytes == 0,
            !r.done,
            r.error is None,
    {
        DownloadProgress {
            file_index: 0,
            file_count: 0,
            downloaded_bytes: 0,
            total_bytes: 0,
            done: false,
            error: None,
        }
    }

    /// Begins tracking a download of `file_count` files: everything resets.
    pub fn start_tracking(&mut self, file_count: usize)
        ensures
            final(self).file_index == 0,
            final(self).file_count == file_count,
            final(self).downloaded_bytes == 0,
            final(self).total_bytes == 0,
            !final(self).done,
            final(self).error is None,
    {
        self.file_index = 0;
        self.file_count = file_count;
        self.downloaded_bytes = 0;
        self.total_bytes = 0;
        self.done = false;
        self.error = None;
    }

    /// Moves to the given file and resets the byte counters for it.
    pub fn set_file_index(&mut self, file_index: usize)
        ensures
            final(self).file_index == file_index,
            final(self).downloaded_bytes == 0,
            final(self).total_bytes == 0,
            final(self).file_count == old(self).file_count,
            final(self).done == old(self).done,
            final(self).error == old(self).error,
    {
        self.file_index = file_index;
        self.downloaded_bytes = 0;
        self.total_bytes = 0;
    }

    /// Reports the current file's byte progress.
    pub fn update_download_bytes(&mut self, downloaded: u64, total: u64)
        ensures
            final(self).downloaded_bytes == downloaded,
            final(self).total_bytes == total,
            final(self).file_index == old(self).file_index,
            final(self).file_count == old(self).file_count,
            final(self).done == old(self).done,
            final(self).error == old(self).error,
    {
        self.downloaded_bytes = downloaded;
        self.total_bytes = total;
    }

    /// Marks the download finished: the file index snaps to the count.
    pub fn mark_finished(&mut self)
        ensures
            final(self).file_index == old(self).file_count,
            final(self).done,
            final(self).file_count == old(self).file_count,
            final(self).downloaded_bytes == old(self).downloaded_bytes,
            final(self).total_bytes == old(self).total_bytes,
            final(self).error == old(self).error,
    {
        self.file_index = self.file_count;
        self.done = true;
    }

    /// Records a failure message and marks the download finished.
    pub fn record_failure(&mut self, error: String)
        ensures
            final(self).done,
            final(self).error matches Some(e) && e@ == error@,
            final(self).file_index == old(self).file_index,
            final(self).file_count == old(self).file_count,
            final(self).downloaded_bytes == old(self).downloaded_bytes,
            final(self).total_bytes == old(self).total_bytes,
    {
        self.error = Some(error);
        self.done = true;
    }

    /// A snapshot of the current progress, as the UI reads it.
    pub fn current_download_progress(&self) -> (r: DownloadProgress)
        ensures
            r.file_index == self.file_index,
            r.file_count == self.file_count,
            r.downloaded_bytes == self.downloaded_bytes,
            r.total_bytes == self.total_bytes,
            r.done == self.done,
            (r.error is Some) == (self.error is Some),
            r.error matches Some(e) ==> self.error matches Some(e2) && e@ == e2@,
    {
        self.clone()
    }
}

} // verus!
