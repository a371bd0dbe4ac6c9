//! Bookkeeping of an incremental decoding session: which encoder frames are
//! already committed, which slice of each new encoding is safe to decode, and
//! how much retained audio a commit allows to be trimmed.

use vstd::prelude::*;

use crate::words::MAX_FRAME;
use crate::SAMPLES_PER_FRAME;

verus! {

/// Samples that must be buffered before a decode pass is worthwhile (200 ms).
pub const MIN_BUFFER_SIZE: usize = 3200;

/// Encoder frames withheld at the tail of the window so near-future context
/// can still influence token choices (about 480 ms).
pub const RIGHT_CONTEXT_DELAY: usize = 6;

/// Committed frames kept as left context for the encoder (1.6 s).
pub const CONTEXT_FRAMES: usize = 20;

/// Cursor state of a streaming decode session. The retained audio itself
/// lives with the caller; this tracks its frame alignment.
pub struct SessionCursor {
    /// Global frame index up to which tokens are committed.
    pub encoder_cursor: usize,
    /// Global frame index of the first retained audio sample.
    pub buffer_start_frame: usize,
    /// Number of retained audio samples.
    pub buffered_samples: usize,
    /// Last committed token, or -1 before the first run.
    pub last_token: i32,
}

impl SessionCursor {
    /// Frame indices stay aligned and bounded.
    pub open spec fn wf(&self) -> bool {
        self.buffer_start_frame <= self.encoder_cursor <= MAX_FRAME
    }

    /// A fresh session: nothing committed, nothing buffered, no anchor token.
    pub fn new() -> (r: Self)
        ensures
            r.encoder_cursor == 0,
            r.buffer_start_frame == 0,
            r.buffered_samples == 0,
            r.last_token == -1,
            r.wf(),
    {
        SessionCursor { encoder_cursor: 0, buffer_start_frame: 0, buffered_samples: 0, last_token: -1 }
    }

    /// Records that `n` new samples were appended to the retained audio.
    pub fn note_appended(&mut self, n: usize)
        requires
            old(self).buffered_samples + n <= usize::MAX,
        ensures
            final(self).buffered_samples == old(self).buffered_samples + n,
            final(self).encoder_cursor == old(self).encoder_cursor,
            final(self).buffer_start_frame == old(self).buffer_start_frame,
            final(self).last_token == old(self).last_token,
    {
        self.buffered_samples = self.buffered_samples + n;
    }

    /// Whether enough audio is buffered for a decode pass.
    pub fn ready(&self) -> (r: bool)
        ensures
            r == (self.buffered_samples >= MIN_BUFFER_SIZE),
    {
        self.buffered_samples >= MIN_BUFFER_SIZE
    }

    /// The slice of the current encoding to decode: frames already committed
    /// are skipped, and the right-context delay is withheld from the tail.
    /// Nothing is returned when the remaining slice is empty.
    pub fn decode_window(&self, total_valid_frames: usize) -> (r: Option<(usize, usize)>)
        requires
            self.wf(),
        ensures
            ({
                let skip = self.encoder_cursor - self.buffer_start_frame;
                let end = if total_valid_frames >= RIGHT_CONTEXT_DELAY {
                    total_valid_frames - RIGHT_CONTEXT_DELAY
                } else {
                    0
                };
                if end > skip {
                    r == Some((skip as usize, end as usize))
                } else {
                    r is None
                }
            }),
    {
        let skip = self.encoder_cursor - self.buffer_start_frame;
        let end = if total_valid_frames >= RIGHT_CONTEXT_DELAY {
            total_valid_frames - RIGHT_CONTEXT_DELAY
        } else {
            0
        };
        if end > skip {
            Some((skip, end))
        } else {
            None
        }
    }

    /// Translates a frame index of the decoded slice back to a global one.
    pub fn absolute_frame(&self, relative: usize) -> (r: usize)
        requires
            self.encoder_cursor + relative <= usize::MAX,
        ensures
            r == self.encoder_cursor + relative,
    {
        self.encoder_cursor + relative
    }

    /// Commits the transcript up to `frame_limit`: the cursor advances, the
    /// anchor token is replaced, and retained audio older than the context
    /// budget may be trimmed. Returns how many samples the caller must drop
    /// from the front of its audio buffer.
    pub fn commit_to(&mut self, frame_limit: usize, last_token: i32) -> (drain: usize)
        requires
            old(self).wf(),
            frame_limit <= MAX_FRAME,
            frame_limit * SAMPLES_PER_FRAME <= usize::MAX,
        ensures
            final(self).wf(),
            frame_limit <= old(self).encoder_cursor ==> *final(self) == *old(self) && drain == 0,
            frame_limit > old(self).encoder_cursor ==> {
                let target = if frame_limit >= CONTEXT_FRAMES {
                    frame_limit - CONTEXT_FRAMES
                } else {
                    0
                };
                &&& final(self).encoder_cursor == frame_limit
                &&& final(self).last_token == last_token
                &&& (target <= old(self).buffer_start_frame ==> drain == 0
                    && final(self).buffer_start_frame == old(self).buffer_start_frame
                    && final(self).buffered_samples == old(self).buffered_samples)
                &&& (target > old(self).buffer_start_frame ==> {
                    let remove = (target - old(self).buffer_start_frame) * SAMPLES_PER_FRAME;
                    if remove < old(self).buffered_samples {
                        drain == remove && final(self).buffer_start_frame == target
                            && final(self).buffered_samples == old(self).buffered_samples - remove
                    } else {
                        drain == old(self).buffered_samples && final(self).buffered_samples == 0
                            && final(self).buffer_start_frame == frame_limit
                    }
                })
            },
    {
        if frame_limit <= self.encoder_cursor {
            return 0;
        }
        self.encoder_cursor = frame_limit;
        self.last_token = last_token;
        let target_start_frame = if frame_limit >= CONTEXT_FRAMES {
            frame_limit - CONTEXT_FRAMES
        } else {
            0
        };
        if target_start_frame > self.buffer_start_frame {
            let frames_to_drop = target_start_frame - self.buffer_start_frame;
            proof {
                assert(frames_to_drop * SAMPLES_PER_FRAME <= frame_limit * SAMPLES_PER_FRAME)
                    by (nonlinear_arith)
                    requires
                        frames_to_drop <= frame_limit,
                ;
            }
            let samples_to_remove = frames_to_drop * SAMPLES_PER_FRAME;
            if samples_to_remove < self.buffered_samples {
                self.buffer_start_frame = target_start_frame;
                self.buffered_samples = self.buffered_samples - samples_to_remove;
                return samples_to_remove;
            } else {
                let drain = self.buffered_samples;
                self.buffered_samples = 0;
                self.buffer_start_frame = self.encoder_cursor;
                return drain;
            }
        }
        0
    }

    /// Returns the session to its initial state.
    pub fn reset(&mut self)
        ensures
            final(self).encoder_cursor == 0,
            final(self).buffer_start_frame == 0,
            final(self).buffered_samples == 0,
            final(self).last_token == -1,
            final(self).wf(),
    {
        self.encoder_cursor = 0;
        self.buffer_start_frame = 0;
        self.buffered_samples = 0;
        self.last_token = -1;
    }
}

} // verus!
