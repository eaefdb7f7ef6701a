//! The playback scheduler: which chunk is shown, whether playback runs, and
//! what has to happen to the one repeating timer that drives it.
//!
//! The scheduler owns no timer. Every command answers with a `TimerAction`;
//! whoever owns the timer carries it out and calls `step` on every tick.

use crate::splitter::{chunk_views, lemma_split_never_empty, split, split_spec, ChunkView, TextChunk};
use vstd::prelude::*;

verus! {

/// The slowest pace that can be set, in words per minute.
pub const MIN_WORDS_PER_MINUTE: usize = 100;

/// The fastest pace that can be set, in words per minute.
pub const MAX_WORDS_PER_MINUTE: usize = 1000;

/// The pace of a new reading session, in words per minute.
pub const DEFAULT_WORDS_PER_MINUTE: usize = 300;

/// The chunk size of a new reading session, in words.
pub const DEFAULT_CHUNK_SIZE: u32 = 1;

/// What a reading session remembers.
#[derive(Debug, Clone)]
pub struct ReaderState {
    pub text: String,
    pub chunk_size: u32,
    pub current_index: usize,
    pub words_per_minute: usize,
    pub playing: bool,
}

/// What the owner of the timer has to do after a command.
#[derive(Debug, Clone, Copy, PartialEq, Eq, Structural)]
pub enum TimerAction {
    /// Leave the timer as it is, running or not.
    Keep,
    /// No timer runs: start one that ticks every so many milliseconds.
    Start(u64),
    /// A timer runs: cancel it, then start one that ticks every so many
    /// milliseconds.
    Restart(u64),
    /// A timer runs: cancel it.
    Cancel,
}

/// The scheduler as a mathematical value.
pub struct ReaderModel {
    pub text: Seq<char>,
    pub chunk_size: nat,
    pub current_index: nat,
    pub words_per_minute: nat,
    pub playing: bool,
    pub input_locked: bool,
}

impl ReaderModel {
    /// The chunks that are played: the text split by the chunk size.
    pub open spec fn chunks(self) -> Seq<ChunkView> {
        split_spec(self.text, self.chunk_size)
    }

    /// The number of chunks.
    pub open spec fn total_chunks(self) -> nat {
        self.chunks().len()
    }

    /// The chunk size is positive and fits 32 bits, the pace lies within its
    /// limits, the current index names a chunk, and the text input is locked
    /// while playback runs.
    pub open spec fn valid(self) -> bool {
        &&& 1 <= self.chunk_size <= u32::MAX
        &&& MIN_WORDS_PER_MINUTE <= self.words_per_minute <= MAX_WORDS_PER_MINUTE
        &&& self.current_index < self.total_chunks()
        &&& self.playing ==> self.input_locked
    }

    /// The milliseconds for which one chunk is shown: those of one word at
    /// the pace, times the words of a chunk.
    pub open spec fn interval_ms(self) -> nat {
        word_interval_ms(self.words_per_minute) * self.chunk_size
    }

    /// The seconds that the chunks from the current one on take.
    pub open spec fn remaining_seconds(self) -> nat {
        (self.interval_ms() * (self.total_chunks() - self.current_index) / 1000) as nat
    }

    /// The remaining time as it is shown: minutes within the hour, and
    /// seconds within the minute.
    pub open spec fn remaining_duration(self) -> (nat, nat) {
        (self.remaining_seconds() % 3600 / 60, self.remaining_seconds() % 60)
    }

    /// `play`: playback runs and the text input is locked.
    pub open spec fn play(self) -> ReaderModel {
        ReaderModel { playing: true, input_locked: true, ..self }
    }

    /// `pause`: playback rests where it is.
    pub open spec fn pause(self) -> ReaderModel {
        ReaderModel { playing: false, ..self }
    }

    /// `stop`: playback rests at the first chunk and the text input is free.
    pub open spec fn stop(self) -> ReaderModel {
        ReaderModel { playing: false, input_locked: false, current_index: 0, ..self }
    }

    /// `restart`: back to the first chunk, playing or not as before.
    pub open spec fn restart(self) -> ReaderModel {
        ReaderModel { current_index: 0, ..self }
    }

    /// `step`, one tick of the timer: nothing while playback rests; else on
    /// to the next chunk, or `stop` where there is none.
    pub open spec fn step(self) -> ReaderModel {
        if !self.playing {
            self
        } else if self.current_index + 1 < self.total_chunks() {
            ReaderModel { current_index: self.current_index + 1, ..self }
        } else {
            self.stop()
        }
    }

    /// `seek`: to chunk `index`, or to the last chunk if there is no such
    /// chunk.
    pub open spec fn seek(self, index: nat) -> ReaderModel {
        ReaderModel { current_index: clamp_index(index, self.total_chunks()), ..self }
    }

    /// `set_words_per_minute`: the pace nearest to `pace` within the limits.
    pub open spec fn set_words_per_minute(self, pace: nat) -> ReaderModel {
        ReaderModel { words_per_minute: clamp_pace(pace), ..self }
    }

    /// `set_chunk_size`: the text is split anew, and the current index is
    /// scaled by the old chunk size over the new one, rounded down, then
    /// clamped to the new chunks.
    pub open spec fn set_chunk_size(self, chunk_size: nat) -> ReaderModel {
        let rescaled = self.current_index * self.chunk_size / chunk_size;
        ReaderModel {
            chunk_size,
            current_index: clamp_index(rescaled, split_spec(self.text, chunk_size).len()),
            ..self
        }
    }

    /// `set_source_text`: the new text from its first chunk.
    pub open spec fn set_source_text(self, text: Seq<char>) -> ReaderModel {
        ReaderModel { text, current_index: 0, ..self }
    }
}

/// The milliseconds for which one word is shown at `pace` words per minute:
/// the 60000 milliseconds of a minute divided by the pace, rounded down.
pub open spec fn word_interval_ms(pace: nat) -> nat {
    60000nat / pace
}

/// `index`, or the last index of `total` chunks if `index` lies beyond it.
pub open spec fn clamp_index(index: nat, total: nat) -> nat {
    if index < total {
        index
    } else {
        (total - 1) as nat
    }
}

/// `pace`, or the limit that it lies beyond.
pub open spec fn clamp_pace(pace: nat) -> nat {
    if pace > MAX_WORDS_PER_MINUTE {
        MAX_WORDS_PER_MINUTE as nat
    } else if pace < MIN_WORDS_PER_MINUTE {
        MIN_WORDS_PER_MINUTE as nat
    } else {
        pace
    }
}

/// What has to happen to the timer when the scheduler goes from `before` to
/// `after`: it runs exactly while playback does, at the interval of the
/// moment.
pub open spec fn timer_action(before: ReaderModel, after: ReaderModel) -> TimerAction {
    if !before.playing && after.playing {
        TimerAction::Start(after.interval_ms() as u64)
    } else if before.playing && !after.playing {
        TimerAction::Cancel
    } else if after.playing && before.interval_ms() != after.interval_ms() {
        TimerAction::Restart(after.interval_ms() as u64)
    } else {
        TimerAction::Keep
    }
}

/// The milliseconds for which one chunk of `chunk_size` words is shown at
/// `pace` words per minute: the time of one word at that pace, times the
/// words of a chunk. The pace is not 0.
pub fn chunk_interval_ms(pace: usize, chunk_size: u32) -> (ms: u64)
    requires
        pace >= 1,
    ensures
        ms == word_interval_ms(pace as nat) * chunk_size,
        ms <= 60000 * chunk_size,
        pace <= MAX_WORDS_PER_MINUTE ==> ms >= 60 * chunk_size,
        pace >= MIN_WORDS_PER_MINUTE ==> ms <= 600 * chunk_size,
{
    let per_word: usize = 60000 / pace;
    proof {
        lemma_word_interval_bounds(pace as nat);
        assert(per_word * chunk_size <= 60000 * chunk_size) by (nonlinear_arith)
            requires
                per_word <= 60000,
                chunk_size >= 0,
        ;
        if pace <= MAX_WORDS_PER_MINUTE {
            assert(per_word * chunk_size >= 60 * chunk_size) by (nonlinear_arith)
                requires
                    per_word >= 60,
                    chunk_size >= 0,
            ;
        }
        if pace >= MIN_WORDS_PER_MINUTE {
            assert(per_word * chunk_size <= 600 * chunk_size) by (nonlinear_arith)
                requires
                    per_word <= 600,
                    chunk_size >= 0,
            ;
        }
    }
    (per_word as u64) * (chunk_size as u64)
}

/// A word is never shown for more than a minute; at a pace within the limits
/// it is shown for 60 to 600 milliseconds.
pub proof fn lemma_word_interval_bounds(pace: nat)
    requires
        pace >= 1,
    ensures
        word_interval_ms(pace) <= 60000,
        pace <= MAX_WORDS_PER_MINUTE ==> word_interval_ms(pace) >= 60,
        pace >= MIN_WORDS_PER_MINUTE ==> word_interval_ms(pace) <= 600,
{
    let per_word = 60000nat / pace;
    assert(per_word * pace <= 60000 < per_word * pace + pace) by (nonlinear_arith)
        requires
            pace >= 1,
            per_word == 60000nat / pace,
    ;
    assert(per_word <= 60000) by (nonlinear_arith)
        requires
            pace >= 1,
            per_word * pace <= 60000,
    ;
    if pace <= 1000 {
        assert(per_word >= 60) by (nonlinear_arith)
            requires
                1 <= pace <= 1000,
                60000 < per_word * pace + pace,
        ;
    }
    if pace >= 100 {
        assert(per_word <= 600) by (nonlinear_arith)
            requires
                pace >= 100,
                per_word * pace <= 60000,
        ;
    }
}

/// What has to happen to the timer when playback goes from `was_playing` at
/// `old_interval` to `is_playing` at `new_interval`.
pub fn timer_action_between(
    was_playing: bool,
    old_interval: u64,
    is_playing: bool,
    new_interval: u64,
) -> (action: TimerAction)
    ensures
        action == (if !was_playing && is_playing {
            TimerAction::Start(new_interval)
        } else if was_playing && !is_playing {
            TimerAction::Cancel
        } else if is_playing && old_interval != new_interval {
            TimerAction::Restart(new_interval)
        } else {
            TimerAction::Keep
        }),
{
    if !was_playing && is_playing {
        TimerAction::Start(new_interval)
    } else if was_playing && !is_playing {
        TimerAction::Cancel
    } else if is_playing && old_interval != new_interval {
        TimerAction::Restart(new_interval)
    } else {
        TimerAction::Keep
    }
}

/// The playback scheduler of one reading session: the state, the chunks of
/// its text, and whether the text input is locked.
pub struct Scheduler {
    state: ReaderState,
    input_locked: bool,
    chunks: Vec<TextChunk>,
}

/// The chunks held are no part of the view: in a well-formed scheduler they
/// are those of the text at the chunk size, `self@.chunks()`.
impl View for Scheduler {
    type V = ReaderModel;

    closed spec fn view(&self) -> ReaderModel {
        ReaderModel {
            text: self.state.text@,
            chunk_size: self.state.chunk_size as nat,
            current_index: self.state.current_index as nat,
            words_per_minute: self.state.words_per_minute as nat,
            playing: self.state.playing,
            input_locked: self.input_locked,
        }
    }
}

impl Scheduler {
    /// The state is valid and the chunks held are those of the text at the
    /// chunk size. Every scheduler that this library hands out is well
    /// formed, and every command keeps it so.
    pub closed spec fn wf(&self) -> bool {
        &&& self@.valid()
        &&& chunk_views(self.chunks@) == self@.chunks()
        &&& self.chunks.len() == self@.total_chunks()
    }

    /// A well-formed scheduler has a valid state.
    pub proof fn lemma_wf_valid(&self)
        requires
            self.wf(),
        ensures
            self@.valid(),
    {
    }

    /// A session on `text` that rests at its first chunk, with the default
    /// pace and chunk size.
    pub fn new(text: String) -> (scheduler: Scheduler)
        ensures
            scheduler.wf(),
            scheduler@ == (ReaderModel {
                text: text@,
                chunk_size: DEFAULT_CHUNK_SIZE as nat,
                current_index: 0,
                words_per_minute: DEFAULT_WORDS_PER_MINUTE as nat,
                playing: false,
                input_locked: false,
            }),
    {
        let chunks = split(text.as_str(), DEFAULT_CHUNK_SIZE as usize);
        assert(chunk_views(chunks@).len() == chunks.len());
        Scheduler {
            state: ReaderState {
                text,
                chunk_size: DEFAULT_CHUNK_SIZE,
                current_index: 0,
                words_per_minute: DEFAULT_WORDS_PER_MINUTE,
                playing: false,
            },
            input_locked: false,
            chunks,
        }
    }

    /// The state of the session.
    pub fn state(&self) -> (state: &ReaderState)
        ensures
            state.text@ == self@.text,
            state.chunk_size == self@.chunk_size,
            state.current_index == self@.current_index,
            state.words_per_minute == self@.words_per_minute,
            state.playing == self@.playing,
    {
        &self.state
    }

    /// The chunks of the text at the chunk size.
    pub fn chunks(&self) -> (chunks: &Vec<TextChunk>)
        requires
            self.wf(),
        ensures
            chunk_views(chunks@) == self@.chunks(),
            chunks.len() == self@.total_chunks(),
    {
        &self.chunks
    }

    /// The chunk that is shown.
    pub fn current_chunk(&self) -> (chunk: &TextChunk)
        requires
            self.wf(),
        ensures
            chunk@ == self@.chunks()[self@.current_index as int],
    {
        assert(chunk_views(self.chunks@)[self.state.current_index as int]
            == self.chunks[self.state.current_index as int]@);
        &self.chunks[self.state.current_index]
    }

    /// The index of the chunk that is shown.
    pub fn current_index(&self) -> (index: usize)
        ensures
            index == self@.current_index,
    {
        self.state.current_index
    }

    /// The number of chunks; never 0.
    pub fn total_chunks(&self) -> (total: usize)
        requires
            self.wf(),
        ensures
            total == self@.total_chunks(),
            total > self@.current_index,
    {
        self.chunks.len()
    }

    /// Whether playback runs.
    pub fn is_playing(&self) -> (playing: bool)
        ensures
            playing == self@.playing,
    {
        self.state.playing
    }

    /// Whether the text input is locked: from `play` until `stop`.
    pub fn is_input_locked(&self) -> (locked: bool)
        ensures
            locked == self@.input_locked,
    {
        self.input_locked
    }

    /// The pace, in words per minute.
    pub fn words_per_minute(&self) -> (pace: usize)
        ensures
            pace == self@.words_per_minute,
    {
        self.state.words_per_minute
    }

    /// The number of words of a chunk.
    pub fn chunk_size(&self) -> (chunk_size: u32)
        ensures
            chunk_size == self@.chunk_size,
    {
        self.state.chunk_size
    }

    /// The milliseconds for which one chunk is shown.
    pub fn interval_ms(&self) -> (ms: u64)
        requires
            self.wf(),
        ensures
            ms == self@.interval_ms(),
            60 * self@.chunk_size <= ms <= 600 * self@.chunk_size,
    {
        chunk_interval_ms(self.state.words_per_minute, self.state.chunk_size)
    }

    /// The time that the chunks from the current one on take, as minutes
    /// within the hour and seconds within the minute.
    pub fn estimated_remaining_duration(&self) -> (duration: (u64, u64))
        requires
            self.wf(),
        ensures
            duration.0 == self@.remaining_duration().0,
            duration.1 == self@.remaining_duration().1,
    {
        let interval: u128 = self.interval_ms() as u128;
        assert(interval <= 1000 * 0x1_0000_0000);
        let remaining: u128 = (self.chunks.len() - self.state.current_index) as u128;
        assert(interval * remaining <= 0x3e8_0000_0000 * 0x1_0000_0000_0000_0000)
            by (nonlinear_arith)
            requires
                interval <= 1000 * 0x1_0000_0000,
                remaining <= 0x1_0000_0000_0000_0000,
        ;
        let seconds: u128 = interval * remaining / 1000;
        ((seconds % 3600 / 60) as u64, (seconds % 60) as u64)
    }

    /// Starts playback and locks the text input. A scheduler that plays
    /// already stays as it is.
    pub fn play(&mut self) -> (action: TimerAction)
        requires
            old(self).wf(),
        ensures
            final(self).wf(),
            final(self)@ == old(self)@.play(),
            action == timer_action(old(self)@, final(self)@),
    {
        let was_playing = self.state.playing;
        let interval = self.interval_ms();
        self.state.playing = true;
        self.input_locked = true;
        timer_action_between(was_playing, interval, true, interval)
    }

    /// Rests playback at the current chunk.
    pub fn pause(&mut self) -> (action: TimerAction)
        requires
            old(self).wf(),
        ensures
            final(self).wf(),
            final(self)@ == old(self)@.pause(),
            action == timer_action(old(self)@, final(self)@),
    {
        let was_playing = self.state.playing;
        let interval = self.interval_ms();
        self.state.playing = false;
        timer_action_between(was_playing, interval, false, interval)
    }

    /// Rests playback at the first chunk and frees the text input.
    pub fn stop(&mut self) -> (action: TimerAction)
        requires
            old(self).wf(),
        ensures
            final(self).wf(),
            final(self)@ == old(self)@.stop(),
            action == timer_action(old(self)@, final(self)@),
    {
        let was_playing = self.state.playing;
        let interval = self.interval_ms();
        self.state.playing = false;
        self.input_locked = false;
        self.state.current_index = 0;
        timer_action_between(was_playing, interval, false, interval)
    }

    /// Goes back to the first chunk; playback runs or rests as before.
    pub fn restart(&mut self) -> (action: TimerAction)
        requires
            old(self).wf(),
        ensures
            final(self).wf(),
            final(self)@ == old(self)@.restart(),
            action == timer_action(old(self)@, final(self)@),
            action == TimerAction::Keep,
    {
        self.state.current_index = 0;
        TimerAction::Keep
    }

    /// One tick of the timer. While playback rests nothing happens. Else the
    /// next chunk is shown; after the last chunk playback stops, back at the
    /// first chunk.
    pub fn step(&mut self) -> (action: TimerAction)
        requires
            old(self).wf(),
        ensures
            final(self).wf(),
            final(self)@ == old(self)@.step(),
            action == timer_action(old(self)@, final(self)@),
    {
        if !self.state.playing {
            TimerAction::Keep
        } else if self.state.current_index < self.chunks.len() - 1 {
            self.state.current_index = self.state.current_index + 1;
            TimerAction::Keep
        } else {
            self.stop()
        }
    }

    /// Shows chunk `index`, or the last chunk if `index` lies beyond it.
    pub fn seek(&mut self, index: usize) -> (action: TimerAction)
        requires
            old(self).wf(),
        ensures
            final(self).wf(),
            final(self)@ == old(self)@.seek(index as nat),
            action == timer_action(old(self)@, final(self)@),
            action == TimerAction::Keep,
    {
        if index < self.chunks.len() {
            self.state.current_index = index;
        } else {
            self.state.current_index = self.chunks.len() - 1;
        }
        TimerAction::Keep
    }

    /// Goes `count` chunks back, at most to the first chunk.
    pub fn jump_back(&mut self, count: usize) -> (action: TimerAction)
        requires
            old(self).wf(),
        ensures
            final(self).wf(),
            final(self)@ == old(self)@.seek(
                if count > old(self)@.current_index {
                    0
                } else {
                    (old(self)@.current_index - count) as nat
                },
            ),
            action == TimerAction::Keep,
    {
        let index = self.state.current_index;
        if count > index {
            self.seek(0)
        } else {
            self.seek(index - count)
        }
    }

    /// Goes `count` chunks on, at most to the last chunk.
    pub fn jump_forward(&mut self, count: usize) -> (action: TimerAction)
        requires
            old(self).wf(),
        ensures
            final(self).wf(),
            final(self)@ == old(self)@.seek(old(self)@.current_index + count as nat),
            action == TimerAction::Keep,
    {
        let index = self.state.current_index;
        let last = self.chunks.len() - 1;
        if count > last - index {
            self.seek(last)
        } else {
            self.seek(index + count)
        }
    }

    /// Sets the pace to `pace` words per minute, or to the limit that `pace`
    /// lies beyond. A timer that runs is restarted if the interval changes.
    pub fn set_words_per_minute(&mut self, pace: usize) -> (action: TimerAction)
        requires
            old(self).wf(),
        ensures
            final(self).wf(),
            final(self)@ == old(self)@.set_words_per_minute(pace as nat),
            action == timer_action(old(self)@, final(self)@),
    {
        let old_interval = self.interval_ms();
        if pace > MAX_WORDS_PER_MINUTE {
            self.state.words_per_minute = MAX_WORDS_PER_MINUTE;
        } else if pace < MIN_WORDS_PER_MINUTE {
            self.state.words_per_minute = MIN_WORDS_PER_MINUTE;
        } else {
            self.state.words_per_minute = pace;
        }
        let new_interval = self.interval_ms();
        timer_action_between(
            self.state.playing,
            old_interval,
            self.state.playing,
            new_interval,
        )
    }

    /// Splits the text anew into chunks of `chunk_size` words and moves the
    /// current index to where the reading was, as near as whole chunks
    /// allow. A timer that runs is restarted if the interval changes.
    pub fn set_chunk_size(&mut self, chunk_size: u32) -> (action: TimerAction)
        requires
            old(self).wf(),
            chunk_size >= 1,
        ensures
            final(self).wf(),
            final(self)@ == old(self)@.set_chunk_size(chunk_size as nat),
            action == timer_action(old(self)@, final(self)@),
    {
        let old_interval = self.interval_ms();
        let chunks = split(self.state.text.as_str(), chunk_size as usize);
        assert(chunk_views(chunks@).len() == chunks.len());
        let index: u128 = self.state.current_index as u128;
        let old_size: u128 = self.state.chunk_size as u128;
        assert(index * old_size <= 0x1_0000_0000_0000_0000 * 0x1_0000_0000) by (nonlinear_arith)
            requires
                0 <= index <= 0x1_0000_0000_0000_0000,
                0 <= old_size <= 0x1_0000_0000,
        ;
        let rescaled: u128 = index * old_size / (chunk_size as u128);
        if rescaled < chunks.len() as u128 {
            self.state.current_index = rescaled as usize;
        } else {
            self.state.current_index = chunks.len() - 1;
        }
        self.state.chunk_size = chunk_size;
        self.chunks = chunks;
        let new_interval = self.interval_ms();
        timer_action_between(
            self.state.playing,
            old_interval,
            self.state.playing,
            new_interval,
        )
    }

    /// Takes `text` as the text to read, from its first chunk.
    pub fn set_source_text(&mut self, text: String) -> (action: TimerAction)
        requires
            old(self).wf(),
        ensures
            final(self).wf(),
            final(self)@ == old(self)@.set_source_text(text@),
            action == timer_action(old(self)@, final(self)@),
            action == TimerAction::Keep,
    {
        let chunks = split(text.as_str(), self.state.chunk_size as usize);
        assert(chunk_views(chunks@).len() == chunks.len());
        self.state.text = text;
        self.state.current_index = 0;
        self.chunks = chunks;
        TimerAction::Keep
    }

    /// `pause` while playback runs, `play` while it rests.
    pub fn toggle_playing(&mut self) -> (action: TimerAction)
        requires
            old(self).wf(),
        ensures
            final(self).wf(),
            final(self)@ == (if old(self)@.playing {
                old(self)@.pause()
            } else {
                old(self)@.play()
            }),
            action == timer_action(old(self)@, final(self)@),
    {
        if self.state.playing {
            self.pause()
        } else {
            self.play()
        }
    }

    /// Back to the default pace and the default chunk size.
    pub fn reset(&mut self) -> (action: TimerAction)
        requires
            old(self).wf(),
        ensures
            final(self).wf(),
            final(self)@ == old(self)@.set_words_per_minute(
                DEFAULT_WORDS_PER_MINUTE as nat,
            ).set_chunk_size(DEFAULT_CHUNK_SIZE as nat),
            action == timer_action(old(self)@, final(self)@),
    {
        let old_interval = self.interval_ms();
        let _ = self.set_words_per_minute(DEFAULT_WORDS_PER_MINUTE);
        let _ = self.set_chunk_size(DEFAULT_CHUNK_SIZE);
        let new_interval = self.interval_ms();
        timer_action_between(
            self.state.playing,
            old_interval,
            self.state.playing,
            new_interval,
        )
    }
}

/// The timer that the owner holds after carrying out `action`: `None` while
/// no timer runs, else the interval of the one that does.
pub open spec fn timer_after(timer: Option<u64>, action: TimerAction) -> Option<u64> {
    match action {
        TimerAction::Keep => timer,
        TimerAction::Start(ms) => Some(ms),
        TimerAction::Restart(ms) => Some(ms),
        TimerAction::Cancel => None,
    }
}

/// The timer is the one that `model` asks for: none while playback rests, one
/// at the model's interval while it runs.
pub open spec fn timer_fits(timer: Option<u64>, model: ReaderModel) -> bool {
    timer == (if model.playing {
        Some(model.interval_ms() as u64)
    } else {
        None::<u64>
    })
}

/// The interval of a valid state is at least 60 milliseconds, so a timer
/// at that interval does tick, and at most 600 milliseconds for each word of
/// a chunk, so it fits 64 bits.
pub proof fn lemma_interval_fits(model: ReaderModel)
    requires
        model.valid(),
    ensures
        60 <= model.interval_ms() <= 600 * u32::MAX,
        model.interval_ms() as u64 == model.interval_ms(),
{
    let per_word = word_interval_ms(model.words_per_minute);
    lemma_word_interval_bounds(model.words_per_minute);
    assert(60 <= per_word * model.chunk_size <= 600 * u32::MAX) by (nonlinear_arith)
        requires
            60 <= per_word <= 600,
            1 <= model.chunk_size <= u32::MAX,
    ;
}

/// Every command leads from a valid state to a valid state: whatever is
/// done, the current index names a chunk of the current text at the current
/// chunk size.
pub proof fn lemma_commands_keep_valid(
    model: ReaderModel,
    index: nat,
    pace: nat,
    chunk_size: nat,
    text: Seq<char>,
)
    requires
        model.valid(),
        1 <= chunk_size <= u32::MAX,
    ensures
        model.play().valid(),
        model.pause().valid(),
        model.stop().valid(),
        model.restart().valid(),
        model.step().valid(),
        model.seek(index).valid(),
        model.set_words_per_minute(pace).valid(),
        model.set_chunk_size(chunk_size).valid(),
        model.set_source_text(text).valid(),
{
    lemma_split_never_empty(model.text, chunk_size);
    lemma_split_never_empty(text, model.chunk_size);
}

/// `play` has no effect on a scheduler that plays already: the state stays
/// as it is and the timer is left alone.
pub proof fn lemma_play_while_playing(model: ReaderModel)
    requires
        model.valid(),
        model.playing,
    ensures
        model.play() == model,
        timer_action(model, model.play()) == TimerAction::Keep,
{
}

/// Seeking beyond the last chunk ends at the last chunk; seeking to a chunk
/// that exists ends there. Either way the index names a chunk.
pub proof fn lemma_seek_clamps(model: ReaderModel, index: nat)
    requires
        model.valid(),
    ensures
        index >= model.total_chunks() ==> model.seek(index).current_index == model.total_chunks() - 1,
        index < model.total_chunks() ==> model.seek(index).current_index == index,
        model.seek(index).current_index < model.seek(index).total_chunks(),
{
}

/// A tick at the last chunk stops playback: it rests, at the first chunk,
/// and the timer is cancelled.
pub proof fn lemma_step_at_last_chunk_stops(model: ReaderModel)
    requires
        model.valid(),
        model.playing,
        model.current_index == model.total_chunks() - 1,
    ensures
        !model.step().playing,
        model.step().current_index == 0,
        !model.step().input_locked,
        timer_action(model, model.step()) == TimerAction::Cancel,
{
}

/// A tick before the last chunk shows the next chunk and leaves the timer
/// alone; a tick while playback rests changes nothing.
pub proof fn lemma_step_advances(model: ReaderModel)
    requires
        model.valid(),
    ensures
        model.playing && model.current_index + 1 < model.total_chunks() ==> model.step()
            == (ReaderModel { current_index: model.current_index + 1, ..model }),
        !model.playing ==> model.step() == model,
        model.step().playing ==> timer_action(model, model.step()) == TimerAction::Keep,
{
}

/// The timer never runs at a stale interval, and never while playback rests:
/// if it fits the state before a change, then after the action for that
/// change has been carried out it fits the state after it.
pub proof fn lemma_timer_follows(timer: Option<u64>, before: ReaderModel, after: ReaderModel)
    requires
        before.valid(),
        after.valid(),
        timer_fits(timer, before),
    ensures
        timer_fits(timer_after(timer, timer_action(before, after)), after),
{
    lemma_interval_fits(before);
    lemma_interval_fits(after);
}

/// The interval is the time of one word times the chunk size: with twice the
/// words in a chunk, a chunk is shown twice as long.
pub proof fn lemma_interval_scales(model: ReaderModel, chunk_size: nat)
    requires
        model.valid(),
        1 <= chunk_size <= u32::MAX,
    ensures
        model.set_chunk_size(chunk_size).interval_ms() == word_interval_ms(
            model.words_per_minute,
        ) * chunk_size,
        model.playing && model.chunk_size != chunk_size ==> timer_action(
            model,
            model.set_chunk_size(chunk_size),
        ) == TimerAction::Restart(model.set_chunk_size(chunk_size).interval_ms() as u64),
{
    let per_word = word_interval_ms(model.words_per_minute);
    lemma_word_interval_bounds(model.words_per_minute);
    assert(model.chunk_size != chunk_size ==> per_word * model.chunk_size != per_word
        * chunk_size) by (nonlinear_arith)
        requires
            per_word >= 1,
    ;
}

} // verus!
