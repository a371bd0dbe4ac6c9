//! Phrase segmentation for batch-style streaming: voice-activity events are
//! folded into a growing phrase buffer, whole phrases are released when
//! speech ends, and over-long phrases are force-committed mid-speech. The
//! samples themselves stay with the caller; this accounts for them.

use vstd::prelude::*;

verus! {

/// Phrases shorter than this many samples are kept on a final flush (100 ms).
pub const FLUSH_MIN_SAMPLES: usize = 1600;

/// Thresholds of the phrase segmenter, in samples of 16 kHz audio.
pub struct PhraseConfig {
    /// A phrase released by end-of-speech must be at least this long.
    pub min_speech_samples: usize,
    /// A phrase longer than this is force-committed while speech goes on.
    pub max_phrase_samples: usize,
}

/// One voice-activity event, carrying how many samples it delivered.
#[derive(Debug, PartialEq, Eq, Structural)]
pub enum PhraseEvent {
    SpeechStart { samples: usize },
    Speech { samples: usize },
    SpeechEnd,
}

/// What the caller should do with its buffered samples.
#[derive(Debug, PartialEq, Eq, Structural)]
pub enum PhraseAction {
    /// Speech began: notify listeners.
    StartedSpeaking,
    /// A finished phrase of this many samples is ready to transcribe.
    PhraseComplete { samples: usize },
    /// An over-long phrase of this many samples must be transcribed now.
    ForcedCommit { samples: usize },
}

/// Folds voice-activity events into phrases.
pub struct StreamingTranscriber {
    pub config: PhraseConfig,
    pub buffered_samples: usize,
    pub is_speaking: bool,
}

impl StreamingTranscriber {
    /// An idle transcriber with nothing buffered.
    pub fn new(config: PhraseConfig) -> (r: Self)
        ensures
            r.buffered_samples == 0,
            !r.is_speaking,
            r.config.min_speech_samples == config.min_speech_samples,
            r.config.max_phrase_samples == config.max_phrase_samples,
    {
        StreamingTranscriber { config, buffered_samples: 0, is_speaking: false }
    }

    /// Feeds one event. Speech events extend the phrase and may force-commit
    /// it when it outgrows the budget; end-of-speech releases the phrase if
    /// it is long enough and discards it otherwise.
    pub fn handle_event(&mut self, event: PhraseEvent) -> (r: Vec<PhraseAction>)
        requires
            event matches PhraseEvent::SpeechStart { samples } ==> old(self).buffered_samples
                + samples <= usize::MAX,
            event matches PhraseEvent::Speech { samples } ==> old(self).buffered_samples + samples
                <= usize::MAX,
        ensures
            final(self).config == old(self).config,
            match event {
                PhraseEvent::SpeechStart { samples } => {
                    let grown = old(self).buffered_samples + samples;
                    let forced = grown > old(self).config.max_phrase_samples && grown > 0;
                    &&& final(self).is_speaking
                    &&& final(self).buffered_samples == if forced {
                        0int
                    } else {
                        grown
                    }
                    &&& r@ == (if !old(self).is_speaking {
                        seq![PhraseAction::StartedSpeaking]
                    } else {
                        Seq::empty()
                    }) + (if forced {
                        seq![PhraseAction::ForcedCommit { samples: grown as usize }]
                    } else {
                        Seq::empty()
                    })
                },
                PhraseEvent::Speech { samples } => {
                    let grown = old(self).buffered_samples + samples;
                    let forced = grown > old(self).config.max_phrase_samples && grown > 0;
                    &&& final(self).is_speaking
                    &&& final(self).buffered_samples == if forced {
                        0int
                    } else {
                        grown
                    }
                    &&& r@ == if forced {
                        seq![PhraseAction::ForcedCommit { samples: grown as usize }]
                    } else {
                        Seq::<PhraseAction>::empty()
                    }
                },
                PhraseEvent::SpeechEnd => {
                    if old(self).is_speaking {
                        &&& !final(self).is_speaking
                        &&& final(self).buffered_samples == 0
                        &&& r@ == if old(self).buffered_samples > 0 && old(self).buffered_samples
                            >= old(self).config.min_speech_samples {
                            seq![
                                PhraseAction::PhraseComplete {
                                    samples: old(self).buffered_samples,
                                },
                            ]
                        } else {
                            Seq::<PhraseAction>::empty()
                        }
                    } else {
                        &&& *final(self) == *old(self)
                        &&& r@ == Seq::<PhraseAction>::empty()
                    }
                },
            },
    {
        let mut actions: Vec<PhraseAction> = Vec::new();
        proof {
            assert(actions@ =~= Seq::<PhraseAction>::empty());
        }
        match event {
            PhraseEvent::SpeechStart { samples } => {
                let ghost started = !self.is_speaking;
                if !self.is_speaking {
                    self.is_speaking = true;
                    actions.push(PhraseAction::StartedSpeaking);
                }
                self.buffered_samples = self.buffered_samples + samples;
                let ghost before = actions@;
                let ghost grown = self.buffered_samples;
                let ghost forced = grown > self.config.max_phrase_samples && grown > 0;
                self.check_forced_commit(&mut actions);
                proof {
                    let head = if started {
                        seq![PhraseAction::StartedSpeaking]
                    } else {
                        Seq::<PhraseAction>::empty()
                    };
                    assert(before =~= head);
                    if forced {
                        assert(actions@ =~= head + seq![
                            PhraseAction::ForcedCommit { samples: grown },
                        ]);
                    } else {
                        assert(actions@ =~= head + Seq::<PhraseAction>::empty());
                    }
                }
            },
            PhraseEvent::Speech { samples } => {
                self.is_speaking = true;
                self.buffered_samples = self.buffered_samples + samples;
                let ghost grown = self.buffered_samples;
                let ghost forced = grown > self.config.max_phrase_samples && grown > 0;
                self.check_forced_commit(&mut actions);
                proof {
                    if forced {
                        assert(actions@ =~= seq![PhraseAction::ForcedCommit { samples: grown }]);
                    } else {
                        assert(actions@ =~= Seq::<PhraseAction>::empty());
                    }
                }
            },
            PhraseEvent::SpeechEnd => {
                if self.is_speaking {
                    self.is_speaking = false;
                    if self.buffered_samples > 0 {
                        if self.buffered_samples >= self.config.min_speech_samples {
                            actions.push(
                                PhraseAction::PhraseComplete { samples: self.buffered_samples },
                            );
                            proof {
                                assert(actions@ =~= seq![
                                    PhraseAction::PhraseComplete {
                                        samples: self.buffered_samples,
                                    },
                                ]);
                            }
                        }
                        self.buffered_samples = 0;
                    }
                }
            },
        }
        actions
    }

    /// Force-commits the whole buffer when the phrase outgrew its budget.
    fn check_forced_commit(&mut self, actions: &mut Vec<PhraseAction>)
        requires
            old(self).is_speaking,
        ensures
            final(self).config == old(self).config,
            final(self).is_speaking,
            ({
                let forced = old(self).buffered_samples > old(self).config.max_phrase_samples
                    && old(self).buffered_samples > 0;
                &&& final(self).buffered_samples == if forced {
                    0int
                } else {
                    old(self).buffered_samples as int
                }
                &&& final(actions)@ == if forced {
                    old(actions)@.push(
                        PhraseAction::ForcedCommit { samples: old(self).buffered_samples },
                    )
                } else {
                    old(actions)@
                }
            }),
    {
        if self.buffered_samples > self.config.max_phrase_samples && self.buffered_samples > 0 {
            actions.push(PhraseAction::ForcedCommit { samples: self.buffered_samples });
            self.buffered_samples = 0;
        }
    }

    /// Releases whatever is still buffered at the end of a stream, when it is
    /// long enough to be worth transcribing; a shorter remainder is kept and
    /// only the speaking flag is cleared.
    pub fn flush(&mut self) -> (r: Option<usize>)
        ensures
            final(self).config == old(self).config,
            old(self).buffered_samples > FLUSH_MIN_SAMPLES ==> r == Some(
                old(self).buffered_samples,
            ) && final(self).buffered_samples == 0 && final(self).is_speaking == old(self).is_speaking,
            old(self).buffered_samples <= FLUSH_MIN_SAMPLES ==> r is None && final(self).buffered_samples == old(self).buffered_samples && !final(self).is_speaking,
    {
        if self.buffered_samples > FLUSH_MIN_SAMPLES {
            let taken = self.buffered_samples;
            self.buffered_samples = 0;
            return Some(taken);
        }
        self.is_speaking = false;
        None
    }
}

} // verus!
