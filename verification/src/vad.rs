//! Voice-activity gating: the hysteresis state machine that turns raw
//! per-chunk voice guesses into stable speech segments, and the events the
//! segmenter emits around it. The probability model itself runs outside;
//! this decides from its boolean verdicts.

use vstd::prelude::*;

verus! {

/// The hysteresis gate's tunables.
pub struct VadGateConfig {
    /// Consecutive voiced chunks required before speech starts.
    pub onset_frames: usize,
    /// Unvoiced chunks tolerated before speech ends.
    pub hangover_frames: usize,
}

/// The hysteresis gate: speech starts only after `onset_frames` consecutive
/// voiced chunks and survives up to `hangover_frames` unvoiced ones.
pub struct VadGate {
    pub config: VadGateConfig,
    pub in_speech: bool,
    pub onset_counter: usize,
    pub hangover_counter: usize,
    pub prefill_ready: bool,
}

impl VadGate {
    pub open spec fn wf(&self) -> bool {
        &&& self.onset_counter <= self.config.onset_frames < usize::MAX
        &&& self.hangover_counter <= self.config.hangover_frames
    }

    /// A silent gate.
    pub fn new(config: VadGateConfig) -> (r: Self)
        requires
            config.onset_frames < usize::MAX,
        ensures
            !r.in_speech,
            r.onset_counter == 0,
            r.hangover_counter == 0,
            !r.prefill_ready,
            r.config.onset_frames == config.onset_frames,
            r.config.hangover_frames == config.hangover_frames,
            r.wf(),
    {
        VadGate {
            config,
            in_speech: false,
            onset_counter: 0,
            hangover_counter: 0,
            prefill_ready: false,
        }
    }

    /// Advances the hysteresis state with one chunk's raw voice verdict and reports
    /// whether the chunk counts as speech: silence→speech needs
    /// `onset_frames` consecutive voiced chunks (and arms the prefill);
    /// speech→silence tolerates `hangover_frames` unvoiced chunks.
    pub fn process_decision(&mut self, is_voice_raw: bool) -> (speech: bool)
        requires
            old(self).wf(),
        ensures
            final(self).wf(),
            final(self).config == old(self).config,
            !old(self).in_speech && is_voice_raw ==> {
                if old(self).onset_counter + 1 >= old(self).config.onset_frames {
                    speech && final(self).in_speech && final(self).onset_counter == 0 && final(self).hangover_counter == old(self).config.hangover_frames && final(self).prefill_ready
                } else {
                    !speech && !final(self).in_speech && final(self).onset_counter == old(self).onset_counter + 1 && final(self).prefill_ready == old(self).prefill_ready
                }
            },
            old(self).in_speech && is_voice_raw ==> speech && final(self).in_speech && final(self).hangover_counter == old(self).config.hangover_frames && final(self).prefill_ready
                == old(self).prefill_ready,
            old(self).in_speech && !is_voice_raw ==> {
                if old(self).hangover_counter > 0 {
                    speech && final(self).in_speech && final(self).hangover_counter == old(self).hangover_counter - 1
                } else {
                    !speech && !final(self).in_speech
                }
            },
            !old(self).in_speech && !is_voice_raw ==> !speech && !final(self).in_speech && final(self).onset_counter == 0 && final(self).prefill_ready == old(self).prefill_ready,
    {
        if !self.in_speech && is_voice_raw {
            self.onset_counter = self.onset_counter + 1;
            if self.onset_counter >= self.config.onset_frames {
                self.in_speech = true;
                self.hangover_counter = self.config.hangover_frames;
                self.onset_counter = 0;
                self.prefill_ready = true;
                true
            } else {
                false
            }
        } else if self.in_speech && is_voice_raw {
            self.hangover_counter = self.config.hangover_frames;
            true
        } else if self.in_speech {
            if self.hangover_counter > 0 {
                self.hangover_counter = self.hangover_counter - 1;
                true
            } else {
                self.in_speech = false;
                false
            }
        } else {
            self.onset_counter = 0;
            false
        }
    }

    /// Whether an armed prefill is waiting to be taken.
    pub fn has_prefill(&self) -> (r: bool)
        ensures
            r == self.prefill_ready,
    {
        self.prefill_ready
    }

    /// Disarms the prefill; the caller hands out its buffered audio.
    pub fn take_prefill(&mut self)
        requires
            old(self).wf(),
        ensures
            final(self).wf(),
            !final(self).prefill_ready,
            final(self).in_speech == old(self).in_speech,
            final(self).onset_counter == old(self).onset_counter,
            final(self).hangover_counter == old(self).hangover_counter,
            final(self).config == old(self).config,
    {
        self.prefill_ready = false;
    }

    /// Returns the hysteresis state to silence.
    pub fn reset(&mut self)
        requires
            old(self).wf(),
        ensures
            !final(self).in_speech,
            final(self).onset_counter == 0,
            final(self).hangover_counter == 0,
            !final(self).prefill_ready,
            final(self).config == old(self).config,
            final(self).wf(),
    {
        self.onset_counter = 0;
        self.hangover_counter = 0;
        self.in_speech = false;
        self.prefill_ready = false;
    }
}

/// What the segmenter should emit for one chunk, given the transition the
/// gate reported.
#[derive(Debug, PartialEq, Eq, Structural)]
pub enum SegmentAction {
    /// Speech just started and buffered prefill audio should lead the chunk.
    StartWithPrefill,
    /// Speech just started with no prefill available.
    Start,
    /// Speech continues: forward the chunk.
    Continue,
    /// Speech just ended.
    End,
    /// Silence continues: nothing to emit.
    Nothing,
}

/// Decides the segmenter's emission from the previous and current speech
/// verdicts and whether prefill audio is armed.
pub fn segment_action(was_speech: bool, is_speech: bool, has_prefill: bool) -> (r: SegmentAction)
    ensures
        r == if is_speech && !was_speech && has_prefill {
            SegmentAction::StartWithPrefill
        } else if is_speech && !was_speech {
            SegmentAction::Start
        } else if is_speech {
            SegmentAction::Continue
        } else if was_speech {
            SegmentAction::End
        } else {
            SegmentAction::Nothing
        },
{
    if is_speech && !was_speech {
        if has_prefill {
            SegmentAction::StartWithPrefill
        } else {
            SegmentAction::Start
        }
    } else if is_speech {
        SegmentAction::Continue
    } else if was_speech {
        SegmentAction::End
    } else {
        SegmentAction::Nothing
    }
}

} // verus!
