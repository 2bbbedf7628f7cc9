//! Decoding and pacing of video frames.
//!
//! [`Video`] decides, step by step, what playback does next: decode,
//! wait, draw, look for a cancellation, clear the display, or stop. The
//! caller does what it is told and reports what happened.

use crate::error::Error;
use crate::format::{header_fields, parse_header};
use crate::source::{read_exact, rest, ByteSource, ReadExactError};
use vstd::prelude::*;

pub mod decoder;
pub mod marker;
pub mod mjpeg;
pub mod rgb;
pub mod yuv;

verus! {

/// The cancellation signal is looked at after every this many frames.
pub const POLL_CADENCE: u32 = 5;

/// What playback does when the file ends.
#[derive(Clone, Copy, Debug, PartialEq, Eq, Structural)]
pub enum Mode {
    /// Start over at the first frame.
    Loop,
    /// Stop.
    Once,
}

/// Why playback stopped.
#[derive(Clone, Copy, Debug, PartialEq, Eq, Structural)]
pub enum Outcome {
    /// The file ended and looping was not asked for.
    EndOfStream,
    /// A cancellation was seen; the display has been cleared.
    Cancelled,
    /// The decoder met data that it cannot get past.
    Abandoned,
    /// The source failed.
    ReadFailed,
    /// The display failed.
    DisplayFailed,
    /// An event was reported that playback was not waiting for.
    Misuse,
}

/// Where playback stands: what it has asked for last.
#[derive(Clone, Copy, Debug, PartialEq, Eq, Structural)]
pub enum Stage {
    Idle,
    Decoding,
    Sleeping,
    Rendering,
    Polling,
    Clearing,
    Finished(Outcome),
}

/// What the caller reports.
#[derive(Clone, Copy, Debug, PartialEq, Eq, Structural)]
pub enum Event {
    /// Playback is to begin.
    Start,
    /// A frame was decoded; `now` is the time in microseconds.
    Frame { now: u64 },
    /// The decoder reached the end of the file and moved back to its
    /// first frame.
    LoopEof,
    /// The decoder refused a frame. `recoverable` says whether it can go
    /// on with the next one.
    DecodeFailed { recoverable: bool },
    /// The source failed.
    ReadFailed,
    /// The wait is over.
    Slept,
    /// The frame was drawn; `now` is the time in microseconds.
    Rendered { now: u64 },
    /// The display failed to draw the frame.
    RenderFailed,
    /// The cancellation signal was looked at and reset; it was set or not.
    Cancel(bool),
    /// The display was cleared.
    Cleared,
    /// The display failed to clear.
    ClearFailed,
}

/// What the caller is to do next.
#[derive(Clone, Copy, Debug, PartialEq, Eq, Structural)]
pub enum Action {
    /// Decode the next frame and report `Frame`, `LoopEof`,
    /// `DecodeFailed` or `ReadFailed`.
    Decode,
    /// Wait this many microseconds and report `Slept`.
    Sleep(u64),
    /// Draw the decoded frame and report `Rendered` or `RenderFailed`.
    /// `lag` is by how many microseconds the frame is late, where it is.
    Render { lag: Option<u64> },
    /// Look at the cancellation signal, reset it, and report `Cancel`.
    PollCancel,
    /// Clear the display and report `Cleared` or `ClearFailed`.
    Clear,
    /// Return to whoever asked for playback.
    Finish(Outcome),
}

/// Reads the header of a raw-format file: width, height and frame rate.
/// Fails exactly when the source holds fewer than five bytes, or fails
/// itself.
pub fn read_header<S: ByteSource>(source: &mut S) -> (r: Result<
    (u16, u16, u8),
    ReadExactError<S::Error>,
>)
    requires
        old(source).wf(),
    ensures
        final(source).wf(),
        final(source).content() == old(source).content(),
        final(source).infallible() == old(source).infallible(),
        old(source).infallible() ==> !(r is Err && r->Err_0 is Other),
        ({
            let ahead = rest(old(source).content(), old(source).position());
            match r {
                Ok(fields) => {
                    &&& ahead.len() >= 5
                    &&& fields == header_fields(ahead.take(5))
                    &&& final(source).position() == old(source).position() + 5
                },
                Err(ReadExactError::UnexpectedEof) => ahead.len() < 5,
                Err(ReadExactError::Other(_)) => true,
            }
        }),
{
    let mut buf = [0u8;5];
    match read_exact(source, &mut buf, 0, 5) {
        Ok(()) => {
            proof {
                let ahead = rest(old(source).content(), old(source).position());
                assert(buf@ =~= ahead.take(5));
            }
            Ok(parse_header(&buf))
        },
        Err(e) => Err(e),
    }
}

/// What playback is told when decoding did not give a frame: the end of
/// the file is no failure, a frame that was refused is skipped, and a
/// source that failed ends playback.
pub open spec fn spec_event_of<IO, D>(error: Error<IO, D>) -> Event {
    match error {
        Error::LoopEof => Event::LoopEof,
        Error::DecodeErrors(_) => Event::DecodeFailed { recoverable: true },
        Error::ReadError(_) => Event::ReadFailed,
    }
}

/// The event to report for a decoding that did not give a frame.
pub fn event_of<IO, D>(error: &Error<IO, D>) -> (event: Event)
    ensures
        event == spec_event_of(*error),
{
    match error {
        Error::LoopEof => Event::LoopEof,
        Error::DecodeErrors(_) => Event::DecodeFailed { recoverable: true },
        Error::ReadError(_) => Event::ReadFailed,
    }
}

/// The time from one frame to the next, in microseconds.
pub open spec fn frame_duration(fps: u8) -> int
    recommends
        fps > 0,
{
    1_000_000int / (fps as int)
}

/// The time that has passed since `last`, none if the clock went back.
pub open spec fn elapsed(last: u64, now: u64) -> int {
    if now >= last {
        now - last
    } else {
        0
    }
}

/// Playback of one file.
#[derive(Clone, Copy, Debug, PartialEq, Eq, Structural)]
pub struct Video {
    /// Frames per second, from the file's header.
    pub fps: u8,
    pub mode: Mode,
    pub stage: Stage,
    /// When the last frame had been drawn.
    pub last: Option<u64>,
    /// Frames drawn since the cancellation signal was last looked at.
    pub since_poll: u32,
}

/// What playback does after a frame was decoded at `now`, when the frame
/// before had been drawn at `last`: wait for the rest of the frame's time,
/// or draw at once and say how late it is.
pub open spec fn pace(fps: u8, last: Option<u64>, now: u64) -> Action {
    match last {
        None => Action::Render { lag: None },
        Some(t) => {
            if elapsed(t, now) < frame_duration(fps) {
                Action::Sleep((frame_duration(fps) - elapsed(t, now)) as u64)
            } else {
                Action::Render { lag: Some((elapsed(t, now) - frame_duration(fps)) as u64) }
            }
        },
    }
}

impl Video {
    pub open spec fn wf(&self) -> bool {
        self.fps > 0 && self.since_poll < POLL_CADENCE
    }

    /// Playback that has not begun. A frame rate of zero has no frame
    /// duration and is refused.
    pub fn new(fps: u8, mode: Mode) -> (v: Option<Self>)
        ensures
            fps == 0 <==> v is None,
            v matches Some(video) ==> video == (Video {
                fps,
                mode,
                stage: Stage::Idle,
                last: None,
                since_poll: 0,
            }) && video.wf(),
    {
        if fps == 0 {
            None
        } else {
            Some(Video { fps, mode, stage: Stage::Idle, last: None, since_poll: 0 })
        }
    }

    /// The time from one frame to the next, in microseconds.
    pub fn frame_duration(&self) -> (d: u64)
        requires
            self.wf(),
        ensures
            d == frame_duration(self.fps),
            3921 <= d <= 1_000_000,
    {
        let fps: u64 = self.fps as u64;
        assert(3921 <= 1_000_000int / (fps as int) <= 1_000_000) by (nonlinear_arith)
            requires
                0 < fps <= 255,
        ;
        1_000_000 / fps
    }

    /// The state and the action that follow `event`.
    pub open spec fn spec_step(self, event: Event) -> (Video, Action) {
        match (self.stage, event) {
            (Stage::Idle, Event::Start) => (
                Video { stage: Stage::Decoding, ..self },
                Action::Decode,
            ),
            (Stage::Decoding, Event::Frame { now }) => match pace(self.fps, self.last, now) {
                Action::Sleep(rest) => (
                    Video { stage: Stage::Sleeping, ..self },
                    Action::Sleep(rest),
                ),
                action => (Video { stage: Stage::Rendering, ..self }, action),
            },
            (Stage::Decoding, Event::LoopEof) => match self.mode {
                Mode::Loop => (self, Action::Decode),
                Mode::Once => self.finished(Outcome::EndOfStream),
            },
            (Stage::Decoding, Event::DecodeFailed { recoverable }) => if recoverable {
                (self, Action::Decode)
            } else {
                self.finished(Outcome::Abandoned)
            },
            (Stage::Decoding, Event::ReadFailed) => self.finished(Outcome::ReadFailed),
            (Stage::Sleeping, Event::Slept) => (
                Video { stage: Stage::Rendering, ..self },
                Action::Render { lag: None },
            ),
            (Stage::Rendering, Event::Rendered { now }) => if self.since_poll + 1
                >= POLL_CADENCE {
                (
                    Video { stage: Stage::Polling, last: Some(now), since_poll: 0, ..self },
                    Action::PollCancel,
                )
            } else {
                (
                    Video {
                        stage: Stage::Decoding,
                        last: Some(now),
                        since_poll: (self.since_poll + 1) as u32,
                        ..self
                    },
                    Action::Decode,
                )
            },
            (Stage::Rendering, Event::RenderFailed) => self.finished(Outcome::DisplayFailed),
            (Stage::Polling, Event::Cancel(set)) => if set {
                (Video { stage: Stage::Clearing, ..self }, Action::Clear)
            } else {
                (Video { stage: Stage::Decoding, ..self }, Action::Decode)
            },
            (Stage::Clearing, Event::Cleared) => self.finished(Outcome::Cancelled),
            (Stage::Clearing, Event::ClearFailed) => self.finished(Outcome::DisplayFailed),
            (Stage::Finished(outcome), _) => (self, Action::Finish(outcome)),
            _ => self.finished(Outcome::Misuse),
        }
    }

    /// Playback stopped for the given reason.
    pub open spec fn finished(self, outcome: Outcome) -> (Video, Action) {
        (Video { stage: Stage::Finished(outcome), ..self }, Action::Finish(outcome))
    }

    fn finish(&mut self, outcome: Outcome) -> (action: Action)
        ensures
            (*final(self), action) == old(self).finished(outcome),
    {
        self.stage = Stage::Finished(outcome);
        Action::Finish(outcome)
    }

    /// What to do after a frame was decoded at `now`.
    fn pace(&self, now: u64) -> (action: Action)
        requires
            self.wf(),
        ensures
            action == pace(self.fps, self.last, now),
    {
        match self.last {
            None => Action::Render { lag: None },
            Some(t) => {
                let duration = self.frame_duration();
                let elapsed: u64 = if now >= t {
                    now - t
                } else {
                    0
                };
                if elapsed < duration {
                    Action::Sleep(duration - elapsed)
                } else {
                    Action::Render { lag: Some(elapsed - duration) }
                }
            },
        }
    }

    /// Takes in what happened and says what to do next.
    pub fn step(&mut self, event: Event) -> (action: Action)
        requires
            old(self).wf(),
        ensures
            final(self).wf(),
            (*final(self), action) == old(self).spec_step(event),
    {
        match (self.stage, event) {
            (Stage::Idle, Event::Start) => {
                self.stage = Stage::Decoding;
                Action::Decode
            },
            (Stage::Decoding, Event::Frame { now }) => {
                let action = self.pace(now);
                match action {
                    Action::Sleep(_) => {
                        self.stage = Stage::Sleeping;
                    },
                    _ => {
                        self.stage = Stage::Rendering;
                    },
                }
                action
            },
            (Stage::Decoding, Event::LoopEof) => match self.mode {
                Mode::Loop => Action::Decode,
                Mode::Once => self.finish(Outcome::EndOfStream),
            },
            (Stage::Decoding, Event::DecodeFailed { recoverable }) => {
                if recoverable {
                    Action::Decode
                } else {
                    self.finish(Outcome::Abandoned)
                }
            },
            (Stage::Decoding, Event::ReadFailed) => self.finish(Outcome::ReadFailed),
            (Stage::Sleeping, Event::Slept) => {
                self.stage = Stage::Rendering;
                Action::Render { lag: None }
            },
            (Stage::Rendering, Event::Rendered { now }) => {
                self.last = Some(now);
                if self.since_poll + 1 >= POLL_CADENCE {
                    self.stage = Stage::Polling;
                    self.since_poll = 0;
                    Action::PollCancel
                } else {
                    self.stage = Stage::Decoding;
                    self.since_poll = self.since_poll + 1;
                    Action::Decode
                }
            },
            (Stage::Rendering, Event::RenderFailed) => self.finish(Outcome::DisplayFailed),
            (Stage::Polling, Event::Cancel(set)) => {
                if set {
                    self.stage = Stage::Clearing;
                    Action::Clear
                } else {
                    self.stage = Stage::Decoding;
                    Action::Decode
                }
            },
            (Stage::Clearing, Event::Cleared) => self.finish(Outcome::Cancelled),
            (Stage::Clearing, Event::ClearFailed) => self.finish(Outcome::DisplayFailed),
            (Stage::Finished(outcome), _) => Action::Finish(outcome),
            _ => self.finish(Outcome::Misuse),
        }
    }
}

/// A frame that is decoded before its time is up waits for exactly the
/// rest of it, so that it is drawn one frame duration after the frame
/// before had been drawn; the wait is never negative. A frame that is
/// decoded late is drawn at once, and by how much it is late is
/// reported.
pub proof fn lemma_pacing(video: Video, last: u64, now: u64)
    requires
        video.wf(),
        video.stage == Stage::Decoding,
        video.last == Some(last),
        last <= now,
    ensures
        ({
            let duration = frame_duration(video.fps);
            let (next, action) = video.spec_step(Event::Frame { now });
            &&& duration > 0
            &&& now - last < duration ==> {
                let wait = duration - (now - last);
                &&& 0 < wait <= duration
                &&& now + wait == last + duration
                &&& action == Action::Sleep(wait as u64)
                &&& next.stage == Stage::Sleeping
                &&& next.spec_step(Event::Slept).1 == (Action::Render { lag: None })
            }
            &&& now - last >= duration ==> {
                &&& action == Action::Render { lag: Some((now - last - duration) as u64) }
                &&& next.stage == Stage::Rendering
            }
        }),
{
    let fps = video.fps as int;
    assert(0 < 1_000_000int / fps <= 1_000_000) by (nonlinear_arith)
        requires
            0 < fps <= 255,
    ;
}

/// The first frame is drawn without a wait, and the time at which a
/// frame had been drawn is the time that the next frame is paced by.
pub proof fn lemma_first_frame_is_not_paced(video: Video, now: u64, drawn: u64)
    requires
        video.wf(),
        video.stage == Stage::Decoding,
        video.last is None,
    ensures
        ({
            let (drawing, action) = video.spec_step(Event::Frame { now });
            &&& action == Action::Render { lag: None }
            &&& drawing.spec_step(Event::Rendered { now: drawn }).0.last == Some(drawn)
        }),
{
}

/// The cancellation signal is looked at after every fifth frame that was
/// drawn, and after no other.
pub proof fn lemma_poll_cadence(video: Video, now: u64)
    requires
        video.wf(),
        video.stage == Stage::Rendering,
    ensures
        ({
            let (after, action) = video.spec_step(Event::Rendered { now });
            &&& after.wf()
            &&& (action == Action::PollCancel <==> video.since_poll == POLL_CADENCE - 1)
            &&& action == Action::PollCancel ==> after.since_poll == 0 && after.stage
                == Stage::Polling
            &&& action != Action::PollCancel ==> action == Action::Decode && after.since_poll
                == video.since_poll + 1
            &&& after.last == Some(now)
        }),
{
}

/// A cancellation that is seen clears the display and then ends
/// playback for good.
pub proof fn lemma_cancellation(video: Video, later: Event)
    requires
        video.wf(),
        video.stage == Stage::Polling,
    ensures
        ({
            let (clearing, first) = video.spec_step(Event::Cancel(true));
            let (done, second) = clearing.spec_step(Event::Cleared);
            &&& first == Action::Clear
            &&& second == Action::Finish(Outcome::Cancelled)
            &&& done.spec_step(later) == (done, Action::Finish(Outcome::Cancelled))
        }),
        video.spec_step(Event::Cancel(false)).1 == Action::Decode,
{
}

/// The display is cleared for a cancellation that was seen and for
/// nothing else.
pub proof fn lemma_clear_only_on_cancel(video: Video, event: Event)
    requires
        video.spec_step(event).1 == Action::Clear,
    ensures
        video.stage == Stage::Polling,
        event == Event::Cancel(true),
        video.spec_step(event).0.stage == Stage::Clearing,
{
}

/// Frames are drawn in the order in which they were decoded: nothing is
/// drawn but the frame that was decoded last, and nothing is decoded
/// while a frame waits to be drawn.
pub proof fn lemma_draw_follows_decode(video: Video, event: Event)
    requires
        video.spec_step(event).1 is Render,
    ensures
        video.stage == Stage::Decoding && event is Frame || video.stage == Stage::Sleeping
            && event is Slept,
{
}

} // verus!
