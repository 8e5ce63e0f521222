//! The playback cursor and how it moves.

use crate::message::time::{self, saturating_difference, ArrivalTime};
use crate::recording::raw::StreamId;
use std::time::Duration;
use vstd::prelude::*;

verus! {

/// How many nanoseconds a duration spans.
pub uninterp spec fn duration_nanos(duration: Duration) -> u128;

/// `Duration::as_nanos`: the total number of nanoseconds.
#[verifier::external_body]
pub(crate) fn nanos(duration: Duration) -> (count: u128)
    ensures
        count == duration_nanos(duration),
{
    duration.as_nanos()
}

#[derive(Clone, Copy, Debug, Eq, PartialEq, Structural)]
pub enum PlaybackSpeed {
    Quarter,
    Half,
    Normal,
    Double,
}

impl PlaybackSpeed {
    /// Every speed, slowest first.
    pub fn all() -> (speeds: [PlaybackSpeed; 4])
        ensures
            speeds@ == seq![
                PlaybackSpeed::Quarter,
                PlaybackSpeed::Half,
                PlaybackSpeed::Normal,
                PlaybackSpeed::Double,
            ],
    {
        let speeds = [
            PlaybackSpeed::Quarter,
            PlaybackSpeed::Half,
            PlaybackSpeed::Normal,
            PlaybackSpeed::Double,
        ];
        assert(speeds@ =~= seq![
            PlaybackSpeed::Quarter,
            PlaybackSpeed::Half,
            PlaybackSpeed::Normal,
            PlaybackSpeed::Double,
        ]);
        speeds
    }

    /// Four times the factor by which the cursor outruns the wall clock.
    pub open spec fn quarters(self) -> nat {
        match self {
            PlaybackSpeed::Quarter => 1,
            PlaybackSpeed::Half => 2,
            PlaybackSpeed::Normal => 4,
            PlaybackSpeed::Double => 8,
        }
    }

    /// The factor, in quarters.
    pub fn factor_quarters(self) -> (quarters: u32)
        ensures
            quarters == self.quarters(),
    {
        match self {
            PlaybackSpeed::Quarter => 1,
            PlaybackSpeed::Half => 2,
            PlaybackSpeed::Normal => 4,
            PlaybackSpeed::Double => 8,
        }
    }

    pub open spec fn spec_label(self) -> Seq<char> {
        match self {
            PlaybackSpeed::Quarter => "0.25x"@,
            PlaybackSpeed::Half => "0.5x"@,
            PlaybackSpeed::Normal => "1x"@,
            PlaybackSpeed::Double => "2x"@,
        }
    }

    pub fn label(self) -> (text: &'static str)
        ensures
            text@ == self.spec_label(),
    {
        match self {
            PlaybackSpeed::Quarter => "0.25x",
            PlaybackSpeed::Half => "0.5x",
            PlaybackSpeed::Normal => "1x",
            PlaybackSpeed::Double => "2x",
        }
    }
}

#[derive(Clone, Copy, Debug, PartialEq, Eq, Structural)]
pub struct PlaybackView {
    pub start: ArrivalTime,
    pub end: ArrivalTime,
    pub cursor: ArrivalTime,
    pub playing: bool,
    pub speed: PlaybackSpeed,
}

#[derive(Clone, Copy, Debug, PartialEq, Eq, Structural)]
pub enum PlaybackCommand {
    Toggle,
    SetSpeed(PlaybackSpeed),
    Seek(ArrivalTime),
}

#[derive(Clone, Debug, PartialEq)]
pub enum PlaybackLoadState {
    Ready,
    Buffering { requested: ArrivalTime, committed: ArrivalTime },
    Seeking { target: ArrivalTime },
    Failed { message: String },
}

#[derive(Clone, Copy, Debug, Eq, PartialEq, Structural)]
pub enum SeekFidelity {
    Preview,
    ExactVisible,
    ExactRequired,
}

#[derive(Clone, Debug, Eq, PartialEq)]
pub struct SeekRequest {
    pub target: ArrivalTime,
    pub fidelity: SeekFidelity,
    pub required_streams: Vec<StreamId>,
}

impl SeekRequest {
    /// A seek that shows exactly the target, and needs no further stream.
    pub fn exact_visible(target: ArrivalTime) -> (request: Self)
        ensures
            request.target == target,
            request.fidelity == SeekFidelity::ExactVisible,
            request.required_streams@ == Seq::<StreamId>::empty(),
    {
        SeekRequest {
            target,
            fidelity: SeekFidelity::ExactVisible,
            required_streams: Vec::new(),
        }
    }
}

/// The spacing of binary64 numbers at `count`: the power of two that leaves 53 significant bits.
pub open spec fn float_unit(count: nat) -> nat
    decreases count,
{
    if count < 0x20_0000_0000_0000 {
        1
    } else {
        2 * float_unit(count / 2)
    }
}

/// The binary64 number nearest to `count`; of two that are equally near, the even one.
pub open spec fn nearest_float(count: nat) -> nat {
    let unit = float_unit(count);
    let below = count / unit;
    let rest = count % unit;
    if 2 * rest < unit || (2 * rest == unit && below % 2 == 0) {
        below * unit
    } else {
        (below + 1) * unit
    }
}

/// How far the cursor moves while `elapsed` nanoseconds pass, as far as the time type reaches.
/// The nanoseconds are rounded to a binary64 number, scaled, and rounded down.
pub open spec fn cursor_delta(elapsed: nat, speed: PlaybackSpeed) -> int {
    let scaled = nearest_float(elapsed) * speed.quarters() / 4;
    if scaled > i64::MAX {
        i64::MAX as int
    } else {
        scaled as int
    }
}

proof fn lemma_float_unit(count: nat)
    ensures
        1 <= float_unit(count),
        count < 0x20_0000_0000_0000 ==> float_unit(count) == 1,
        count >= 0x10_0000_0000_0000 ==> float_unit(count) * 0x10_0000_0000_0000 <= count,
    decreases count,
{
    if count >= 0x20_0000_0000_0000 {
        lemma_float_unit(count / 2);
    }
}

proof fn lemma_nearest_float(count: nat)
    ensures
        count < 0x20_0000_0000_0000 ==> nearest_float(count) == count,
        count / float_unit(count) * float_unit(count) <= count,
        nearest_float(count) + float_unit(count) >= count,
        nearest_float(count) <= count + float_unit(count),
{
    lemma_float_unit(count);
    let unit = float_unit(count);
    vstd::arithmetic::div_mod::lemma_fundamental_div_mod(count as int, unit as int);
    vstd::arithmetic::div_mod::lemma_mod_bound(count as int, unit as int);
    let below = count / unit;
    assert(unit * below == below * unit) by (nonlinear_arith);
    assert((below + 1) * unit == below * unit + unit) by (nonlinear_arith);
}

fn unit_of(count: u128) -> (unit: u128)
    ensures
        unit == float_unit(count as nat),
    decreases count,
{
    proof {
        lemma_float_unit(count as nat);
    }
    if count < 0x20_0000_0000_0000 {
        1
    } else {
        2 * unit_of(count / 2)
    }
}

/// The binary64 number nearest to a count.
pub fn nearest_number(count: u128) -> (nearest: u128)
    requires
        count < 0x1_0000_0000_0000_0000_0000_0000,
    ensures
        nearest == nearest_float(count as nat),
        nearest <= 2 * count,
{
    let unit: u128 = unit_of(count);
    proof {
        lemma_float_unit(count as nat);
        lemma_nearest_float(count as nat);
    }
    let below: u128 = count / unit;
    let rest: u128 = count % unit;
    proof {
        assert((below + 1) * unit == below * unit + unit) by (nonlinear_arith);
    }
    if 2 * rest < unit || (2 * rest == unit && below % 2 == 0) {
        below * unit
    } else {
        (below + 1) * unit
    }
}

fn delta(elapsed: u128, speed: PlaybackSpeed) -> (delta: i64)
    ensures
        delta == cursor_delta(elapsed as nat, speed),
{
    let ghost exact = nearest_float(elapsed as nat) as int;
    proof {
        lemma_float_unit(elapsed as nat);
        lemma_nearest_float(elapsed as nat);
        let quarters = speed.quarters() as int;
        assert(exact * quarters >= exact) by (nonlinear_arith)
            requires
                exact >= 0,
                quarters >= 1,
        ;
    }
    if elapsed >= 0x8_0000_0000_0000_0000 {
        return i64::MAX;
    }
    let nearest: u128 = nearest_number(elapsed);
    let scaled: u128 = nearest * speed.factor_quarters() as u128 / 4;
    if scaled > i64::MAX as u128 {
        i64::MAX
    } else {
        scaled as i64
    }
}

/// The cursor within the recording and the speed at which it moves.
#[derive(Clone, Debug)]
pub struct PlaybackClock {
    start: ArrivalTime,
    end: ArrivalTime,
    cursor: ArrivalTime,
    playing: bool,
    speed: PlaybackSpeed,
}

/// The cursor stands between the start and the end.
pub open spec fn in_bounds(view: PlaybackView) -> bool {
    view.start.0 <= view.cursor.0 <= view.end.0
}

/// The time within `start..=end` that is nearest to `time`.
pub open spec fn clamped(time: ArrivalTime, start: ArrivalTime, end: ArrivalTime) -> ArrivalTime {
    if time.0 < start.0 {
        start
    } else if time.0 > end.0 {
        end
    } else {
        time
    }
}

/// Where the cursor of a clock stands after `elapsed` nanoseconds.
pub open spec fn cursor_reached(view: PlaybackView, elapsed: nat) -> ArrivalTime {
    let moved = view.cursor.0 + cursor_delta(elapsed, view.speed);
    if !view.playing {
        view.cursor
    } else if moved > view.end.0 {
        view.end
    } else {
        ArrivalTime(moved as i64)
    }
}

/// The clock after its cursor was set: it stops where the cursor reaches the end.
pub open spec fn committed(view: PlaybackView, cursor: ArrivalTime) -> PlaybackView {
    let cursor = clamped(cursor, view.start, view.end);
    PlaybackView { cursor, playing: view.playing && cursor != view.end, ..view }
}

impl PlaybackClock {
    /// What the clock shows.
    pub closed spec fn model(&self) -> PlaybackView {
        PlaybackView {
            start: self.start,
            end: self.end,
            cursor: self.cursor,
            playing: self.playing,
            speed: self.speed,
        }
    }

    /// The cursor never leaves the recording.
    pub open spec fn well_formed(&self) -> bool {
        in_bounds(self.model())
    }

    /// A paused clock at the start. An end before the start counts as the start.
    pub fn new(start: ArrivalTime, end: ArrivalTime) -> (clock: Self)
        ensures
            clock.well_formed(),
            clock.model() == (PlaybackView {
                start,
                end: if end.0 < start.0 {
                    start
                } else {
                    end
                },
                cursor: start,
                playing: false,
                speed: PlaybackSpeed::Normal,
            }),
    {
        let end = if end.0 < start.0 {
            start
        } else {
            end
        };
        PlaybackClock { start, end, cursor: start, playing: false, speed: PlaybackSpeed::Normal }
    }

    pub fn cursor(&self) -> (cursor: ArrivalTime)
        ensures
            cursor == self.model().cursor,
    {
        self.cursor
    }

    pub fn start(&self) -> (start: ArrivalTime)
        ensures
            start == self.model().start,
    {
        self.start
    }

    pub fn end(&self) -> (end: ArrivalTime)
        ensures
            end == self.model().end,
    {
        self.end
    }

    /// How far the cursor is from the start, and how far the end is: at least one nanosecond, so
    /// that the first is a share of the second.
    pub fn progress(&self) -> (progress: (i64, i64))
        ensures
            progress.0 == time::saturated(self.model().cursor.0 - self.model().start.0),
            progress.1 == if self.model().end.0 - self.model().start.0 < 1 {
                1
            } else {
                time::saturated(self.model().end.0 - self.model().start.0) as int
            },
    {
        let length: i64 = saturating_difference(self.end.0, self.start.0);
        (
            saturating_difference(self.cursor.0, self.start.0),
            if length < 1 {
                1
            } else {
                length
            },
        )
    }

    pub fn is_playing(&self) -> (playing: bool)
        ensures
            playing == self.model().playing,
    {
        self.playing
    }

    pub fn speed(&self) -> (speed: PlaybackSpeed)
        ensures
            speed == self.model().speed,
    {
        self.speed
    }

    pub fn view(&self) -> (view: PlaybackView)
        ensures
            view == self.model(),
    {
        PlaybackView {
            start: self.start,
            end: self.end,
            cursor: self.cursor,
            playing: self.playing,
            speed: self.speed,
        }
    }

    pub fn set_speed(&mut self, speed: PlaybackSpeed)
        ensures
            final(self).model() == (PlaybackView { speed, ..old(self).model() }),
    {
        self.speed = speed;
    }

    pub fn play(&mut self)
        ensures
            final(self).model() == (PlaybackView { playing: true, ..old(self).model() }),
    {
        self.playing = true;
    }

    pub fn pause(&mut self)
        ensures
            final(self).model() == (PlaybackView { playing: false, ..old(self).model() }),
    {
        self.playing = false;
    }

    pub fn toggle(&mut self)
        ensures
            final(self).model() == (PlaybackView {
                playing: !old(self).model().playing,
                ..old(self).model()
            }),
    {
        self.playing = !self.playing;
    }

    fn clamp(&self, time: ArrivalTime) -> (cursor: ArrivalTime)
        ensures
            cursor == clamped(time, self.model().start, self.model().end),
    {
        if time.0 < self.start.0 {
            self.start
        } else if time.0 > self.end.0 {
            self.end
        } else {
            time
        }
    }

    /// Moves the cursor, within the recording. A playing clock goes on playing, at the end too.
    pub fn seek(&mut self, cursor: ArrivalTime)
        requires
            old(self).well_formed(),
        ensures
            final(self).well_formed(),
            final(self).model() == (PlaybackView {
                cursor: clamped(cursor, old(self).model().start, old(self).model().end),
                ..old(self).model()
            }),
    {
        self.cursor = self.clamp(cursor);
    }

    /// Where the cursor would stand after `elapsed`, without moving it.
    pub fn cursor_after(&self, elapsed: Duration) -> (cursor: ArrivalTime)
        requires
            self.well_formed(),
        ensures
            cursor == cursor_reached(self.model(), duration_nanos(elapsed) as nat),
            self.model().cursor.0 <= cursor.0 <= self.model().end.0,
    {
        self.cursor_after_nanos(nanos(elapsed))
    }

    /// Where the cursor would stand after so many nanoseconds, without moving it.
    pub fn cursor_after_nanos(&self, elapsed: u128) -> (cursor: ArrivalTime)
        requires
            self.well_formed(),
        ensures
            cursor == cursor_reached(self.model(), elapsed as nat),
            self.model().cursor.0 <= cursor.0 <= self.model().end.0,
    {
        if !self.playing {
            return self.cursor;
        }
        let step: i64 = delta(elapsed, self.speed);
        let moved: i64 = match self.cursor.0.checked_add(step) {
            Some(moved) => moved,
            None => return self.end,
        };
        if moved > self.end.0 {
            self.end
        } else {
            ArrivalTime(moved)
        }
    }

    /// Moves the cursor, and stops the clock where it reaches the end.
    pub fn commit_cursor(&mut self, cursor: ArrivalTime)
        requires
            old(self).well_formed(),
        ensures
            final(self).well_formed(),
            final(self).model() == committed(old(self).model(), cursor),
    {
        self.cursor = self.clamp(cursor);
        if self.cursor == self.end {
            self.playing = false;
        }
    }

    /// Lets time pass: moves the cursor, and stops the clock where it reaches the end.
    pub fn advance(&mut self, elapsed: Duration) -> (cursor: ArrivalTime)
        requires
            old(self).well_formed(),
        ensures
            final(self).well_formed(),
            final(self).model() == committed(
                old(self).model(),
                cursor_reached(old(self).model(), duration_nanos(elapsed) as nat),
            ),
            cursor == final(self).model().cursor,
    {
        let cursor = self.cursor_after(elapsed);
        self.commit_cursor(cursor);
        self.cursor
    }
}

/// Time that passes never takes the cursor back nor out of the recording, and leaves a paused
/// clock where it stands.
pub proof fn law_advance_is_bounded(view: PlaybackView, elapsed: nat)
    requires
        in_bounds(view),
    ensures
        view.cursor.0 <= cursor_reached(view, elapsed).0 <= view.end.0,
        !view.playing ==> cursor_reached(view, elapsed) == view.cursor,
        in_bounds(committed(view, cursor_reached(view, elapsed))),
        committed(view, cursor_reached(view, elapsed)).cursor == cursor_reached(view, elapsed),
{
    lemma_delta_is_not_negative(elapsed, view.speed);
}

proof fn lemma_delta_is_not_negative(elapsed: nat, speed: PlaybackSpeed)
    ensures
        0 <= cursor_delta(elapsed, speed) <= i64::MAX,
{
}

/// Where a count of nanoseconds is exact in binary64, the cursor moves by exactly the scaled
/// count, rounded down.
pub proof fn law_short_steps_are_exact(elapsed: nat, speed: PlaybackSpeed)
    requires
        elapsed < 0x20_0000_0000_0000,
    ensures
        cursor_delta(elapsed, speed) == elapsed * speed.quarters() / 4,
{
    lemma_nearest_float(elapsed);
    assert(elapsed * speed.quarters() <= elapsed * 8) by (nonlinear_arith)
        requires
            speed.quarters() <= 8,
    ;
}

/// A committed cursor at the end stops the clock; before the end it leaves it as it was.
pub proof fn law_commit_stops_at_the_end(view: PlaybackView, cursor: ArrivalTime)
    requires
        in_bounds(view),
    ensures
        cursor.0 >= view.end.0 ==> !committed(view, cursor).playing && committed(
            view,
            cursor,
        ).cursor == view.end,
        committed(view, cursor).cursor.0 < view.end.0 ==> committed(view, cursor).playing
            == view.playing,
{
}

/// Time that is exact in binary64 moves a playing cursor by a quarter of it, by half of it, by all of
/// it or by twice as much, rounded down, as far as the end allows. A paused cursor stays.
#[verifier::rlimit(60)]
pub proof fn law_cursors_move_at_their_speed(view: PlaybackView, elapsed: nat)
    requires
        in_bounds(view),
        elapsed < 0x20_0000_0000_0000,
    ensures
        ({
            let reached = cursor_reached(view, elapsed).0 as int;
            let moved = reached - view.cursor.0;
            let room = view.end.0 - view.cursor.0;
            &&& reached <= view.end.0
            &&& !view.playing ==> moved == 0
            &&& view.playing && reached < view.end.0 ==> match view.speed {
                PlaybackSpeed::Quarter => 4 * moved <= elapsed < 4 * moved + 4,
                PlaybackSpeed::Half => 2 * moved <= elapsed < 2 * moved + 2,
                PlaybackSpeed::Normal => moved == elapsed,
                PlaybackSpeed::Double => moved == 2 * elapsed,
            }
            &&& view.playing && reached == view.end.0 ==> match view.speed {
                PlaybackSpeed::Quarter => elapsed >= 4 * room,
                PlaybackSpeed::Half => elapsed >= 2 * room,
                PlaybackSpeed::Normal => elapsed >= room,
                PlaybackSpeed::Double => 2 * elapsed >= room,
            }
        }),
{
    law_short_steps_are_exact(elapsed, view.speed);
    let quarters = view.speed.quarters();
    let product = elapsed * quarters;
    assert(quarters == 1 ==> product == elapsed) by (nonlinear_arith)
        requires
            product == elapsed * quarters,
    ;
    assert(quarters == 2 ==> product == 2 * elapsed) by (nonlinear_arith)
        requires
            product == elapsed * quarters,
    ;
    assert(quarters == 4 ==> product == 4 * elapsed) by (nonlinear_arith)
        requires
            product == elapsed * quarters,
    ;
    assert(quarters == 8 ==> product == 8 * elapsed) by (nonlinear_arith)
        requires
            product == elapsed * quarters,
    ;
}

/// However long the time, a playing cursor comes no further at a lower speed than at a higher one.
#[verifier::rlimit(60)]
pub proof fn law_faster_clocks_reach_further(view: PlaybackView, elapsed: nat)
    requires
        in_bounds(view),
        view.playing,
    ensures
        ({
            let at = |speed: PlaybackSpeed|
                cursor_reached(PlaybackView { speed, ..view }, elapsed).0;
            at(PlaybackSpeed::Quarter) <= at(PlaybackSpeed::Half) <= at(PlaybackSpeed::Normal)
                <= at(PlaybackSpeed::Double)
        }),
{
    let near = nearest_float(elapsed);
    assert(near * 1 / 4 <= near * 2 / 4 <= near * 4 / 4 <= near * 8 / 4);
}

/// A long time is rounded to a number of 53 binary digits that is no further away than half the step
/// to the next one, and a count that has no more digits stays as it is.
#[verifier::rlimit(60)]
pub proof fn law_long_times_are_rounded_to_the_nearest(count: nat)
    ensures
        ({
            let unit = float_unit(count);
            let near = nearest_float(count);
            &&& near % unit == 0
            &&& 2 * near <= 2 * count + unit
            &&& 2 * count <= 2 * near + unit
            &&& 0x10_0000_0000_0000 * unit <= count || unit == 1
            &&& count < 0x20_0000_0000_0000 * unit
        }),
        count < 0x20_0000_0000_0000 ==> nearest_float(count) == count,
{
    let unit = float_unit(count);
    lemma_float_unit(count);
    lemma_unit_bounds(count);
    lemma_nearest_float(count);
    vstd::arithmetic::div_mod::lemma_fundamental_div_mod(count as int, unit as int);
    vstd::arithmetic::div_mod::lemma_mod_bound(count as int, unit as int);
    let below = count / unit;
    assert(unit * below == below * unit) by (nonlinear_arith);
    assert((below + 1) * unit == below * unit + unit) by (nonlinear_arith);
    vstd::arithmetic::div_mod::lemma_mod_multiples_basic(below as int, unit as int);
    vstd::arithmetic::div_mod::lemma_mod_multiples_basic(below as int + 1, unit as int);
}

proof fn lemma_unit_bounds(count: nat)
    ensures
        count < 0x20_0000_0000_0000 * float_unit(count),
    decreases count,
{
    if count >= 0x20_0000_0000_0000 {
        lemma_unit_bounds(count / 2);
    }
}

/// A time within the recording is sought as it is; one before it stands for the start, one behind it
/// for the end.
pub proof fn law_seeks_stay_in_the_recording(
    time: ArrivalTime,
    start: ArrivalTime,
    end: ArrivalTime,
)
    requires
        start.0 <= end.0,
    ensures
        start.0 <= clamped(time, start, end).0 <= end.0,
        start.0 <= time.0 <= end.0 ==> clamped(time, start, end) == time,
        time.0 < start.0 ==> clamped(time, start, end) == start,
        time.0 > end.0 ==> clamped(time, start, end) == end,
{
}

} // verus!
