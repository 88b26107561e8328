use vstd::prelude::*;

use std::time::{Duration, Instant};

verus! {

/// A point in time of the monotonic clock.
#[verifier::external_type_specification]
#[verifier::external_body]
pub struct ExInstant(Instant);

/// The point `duration` after `instant`, where the clock can represent it.
pub uninterp spec fn instant_after(instant: Instant, duration: Duration) -> Option<Instant>;

/// The time from `earlier` to `later`, zero where `later` is not after
/// `earlier`.
pub uninterp spec fn duration_from(later: Instant, earlier: Instant) -> Duration;

/// The whole milliseconds of a duration.
pub uninterp spec fn whole_millis(duration: Duration) -> u128;

/// Reads the monotonic clock (`Instant::now`). Nothing is stated of the
/// value: it is the time of the call.
#[verifier::external_body]
pub(crate) fn instant_now() -> Instant {
    Instant::now()
}

/// `Instant::checked_add`: the point `duration` after `instant`, or `None`
/// where the clock cannot represent it; a function of its two arguments.
#[verifier::external_body]
pub(crate) fn instant_checked_add(instant: Instant, duration: Duration) -> (r: Option<Instant>)
    ensures
        r == instant_after(instant, duration),
{
    instant.checked_add(duration)
}

/// `Instant::duration_since`: the time from `earlier` to `later` (zero where
/// `later` is not after `earlier`); a function of its two arguments.
#[verifier::external_body]
pub(crate) fn instant_duration_since(later: &Instant, earlier: &Instant) -> (r: Duration)
    ensures
        r == duration_from(*later, *earlier),
{
    later.duration_since(*earlier)
}

/// `Duration::as_millis`: the whole milliseconds of a duration; a function
/// of the duration.
#[verifier::external_body]
pub(crate) fn duration_as_millis(duration: &Duration) -> (r: u128)
    ensures
        r == whole_millis(*duration),
{
    duration.as_millis()
}

/// Where an animation stands.
#[derive(Debug, Clone, Copy, PartialEq, Eq, Structural)]
pub enum TweenState {
    NotStarted,
    Playing,
    Finished,
}

/// The curve along which an animation moves from its start value to its
/// target.
#[derive(Debug, Clone, Copy, PartialEq, Eq, Structural)]
pub enum TweenEasing {
    Linear,
    EaseInOut,
    EaseOut,
    EaseIn,
}

/// A reading of an animation: either it has reached its target, or it is
/// `elapsed_ms` into a run of `span_ms` from `from` to `to` along `easing`.
#[derive(Debug, Clone, Copy)]
pub enum TweenSample<T> {
    Done(T),
    InProgress { from: T, to: T, elapsed_ms: u128, span_ms: u128, easing: TweenEasing },
}

/// An animation playing over time: it runs from the first reading until the
/// end time fixed when it was made.
pub struct Tween<T> {
    value: T,
    target: T,
    start: Option<Instant>,
    end: Instant,
    state: TweenState,
    easing: TweenEasing,
    /// The time at which the animation was made.
    made_at: Ghost<Instant>,
    /// The time of the latest reading, once there has been one.
    last_reading: Ghost<Option<Instant>>,
}

impl<T> Tween<T> {
    /// An animation that has not started has no start time.
    #[verifier::type_invariant]
    spec fn start_matches_state(&self) -> bool {
        self.state == TweenState::NotStarted ==> self.start is None
    }
}

impl<T: Copy> Tween<T> {
    pub closed spec fn spec_value(&self) -> T {
        self.value
    }

    pub closed spec fn spec_target(&self) -> T {
        self.target
    }

    pub closed spec fn spec_state(&self) -> TweenState {
        self.state
    }

    pub closed spec fn spec_easing(&self) -> TweenEasing {
        self.easing
    }

    /// The animation has been read at least once.
    pub closed spec fn started(&self) -> bool {
        self.start is Some
    }

    /// The time of the first reading, once there has been one.
    pub closed spec fn spec_start(&self) -> Option<Instant> {
        self.start
    }

    /// The end time fixed when the animation was made.
    pub closed spec fn spec_end(&self) -> Instant {
        self.end
    }

    /// The time at which the animation was made.
    pub closed spec fn spec_made_at(&self) -> Instant {
        self.made_at@
    }

    /// The time of the latest reading, once there has been one.
    pub closed spec fn spec_last_reading(&self) -> Option<Instant> {
        self.last_reading@
    }

    /// The whole milliseconds from the first reading to the end time.
    pub open spec fn run_ms(&self) -> u128 {
        whole_millis(duration_from(self.spec_end(), self.spec_start()->0))
    }

    /// The whole milliseconds from the first reading to the latest one.
    pub open spec fn elapsed_ms(&self) -> u128 {
        whole_millis(duration_from(self.spec_last_reading()->0, self.spec_start()->0))
    }

    /// The start and end times of the two animations are the same.
    pub open spec fn same_times(&self, other: &Self) -> bool {
        self.spec_start() == other.spec_start() && self.spec_end() == other.spec_end()
    }

    /// An animation from `value` to `target`, ending `duration` from now; it
    /// starts at its first reading. `None` where the end time lies beyond
    /// what the clock can represent.
    pub fn new(value: T, target: T, duration: Duration, easing: TweenEasing) -> (r: Option<Self>)
        ensures
            r matches Some(t) ==> {
                &&& t.spec_value() == value
                &&& t.spec_target() == target
                &&& t.spec_easing() == easing
                &&& t.spec_state() == TweenState::NotStarted
                &&& !t.started()
                &&& t.spec_last_reading() is None
                &&& instant_after(t.spec_made_at(), duration) == Some(t.spec_end())
            },
            r is None ==> exists|now: Instant| instant_after(now, duration) is None,
    {
        let now = instant_now();
        match instant_checked_add(now, duration) {
            Some(end) => Some(
                Tween {
                    value,
                    target,
                    start: None,
                    end,
                    state: TweenState::NotStarted,
                    easing,
                    made_at: Ghost(now),
                    last_reading: Ghost(None),
                },
            ),
            None => None,
        }
    }

    /// Where the animation stands.
    pub fn state(&self) -> (r: &TweenState)
        ensures
            *r == self.spec_state(),
    {
        &self.state
    }

    /// The value that the animation ends at.
    pub fn target(&self) -> (r: T)
        ensures
            r == self.spec_target(),
    {
        self.target
    }

    /// A reading `elapsed_ms` into a run of `span_ms`: past the end of the
    /// run, or where the run has no length (its end is not after its start),
    /// the animation finishes and reads its target; otherwise the reading is
    /// the point reached along the run.
    pub fn advance(&mut self, elapsed_ms: u128, span_ms: u128) -> (r: TweenSample<T>)
        ensures
            final(self).spec_value() == old(self).spec_value(),
            final(self).spec_target() == old(self).spec_target(),
            final(self).spec_easing() == old(self).spec_easing(),
            final(self).same_times(old(self)),
            final(self).started() == old(self).started(),
            final(self).spec_made_at() == old(self).spec_made_at(),
            final(self).spec_last_reading() == old(self).spec_last_reading(),
            elapsed_ms > span_ms || span_ms == 0 ==> {
                &&& final(self).spec_state() == TweenState::Finished
                &&& r == TweenSample::Done(old(self).spec_target())
            },
            elapsed_ms <= span_ms && span_ms > 0 ==> {
                &&& final(self).spec_state() == old(self).spec_state()
                &&& r == TweenSample::InProgress {
                    from: old(self).spec_value(),
                    to: old(self).spec_target(),
                    elapsed_ms,
                    span_ms,
                    easing: old(self).spec_easing(),
                }
            },
    {
        if elapsed_ms > span_ms || span_ms == 0 {
            self.state = TweenState::Finished;
            return TweenSample::Done(self.target);
        }
        TweenSample::InProgress {
            from: self.value,
            to: self.target,
            elapsed_ms,
            span_ms,
            easing: self.easing,
        }
    }

    /// Reads the animation at the time of the call. The first reading
    /// starts it; the reading is `advance` at the milliseconds from the start
    /// to this reading, over the milliseconds from the start to the end time.
    /// A finished animation reads its target from then on. The end time never
    /// changes.
    pub fn get(&mut self) -> (r: TweenSample<T>)
        ensures
            final(self).spec_value() == old(self).spec_value(),
            final(self).spec_target() == old(self).spec_target(),
            final(self).spec_easing() == old(self).spec_easing(),
            final(self).spec_end() == old(self).spec_end(),
            final(self).spec_made_at() == old(self).spec_made_at(),
            old(self).started() ==> final(self).spec_start() == old(self).spec_start(),
            old(self).spec_state() == TweenState::Finished ==> {
                &&& r == TweenSample::Done(old(self).spec_target())
                &&& final(self).spec_state() == TweenState::Finished
                &&& final(self).same_times(old(self))
                &&& final(self).spec_last_reading() == old(self).spec_last_reading()
            },
            old(self).spec_state() != TweenState::Finished ==> {
                &&& final(self).started()
                &&& final(self).spec_last_reading() is Some
                &&& !old(self).started() ==> final(self).spec_start()
                    == final(self).spec_last_reading()
                &&& (final(self).elapsed_ms() > final(self).run_ms() || final(self).run_ms() == 0)
                    ==> {
                    &&& final(self).spec_state() == TweenState::Finished
                    &&& r == TweenSample::Done(old(self).spec_target())
                }
                &&& (final(self).elapsed_ms() <= final(self).run_ms() && final(self).run_ms() > 0)
                    ==> {
                    &&& final(self).spec_state() == TweenState::Playing
                    &&& r == TweenSample::InProgress {
                        from: old(self).spec_value(),
                        to: old(self).spec_target(),
                        elapsed_ms: final(self).elapsed_ms(),
                        span_ms: final(self).run_ms(),
                        easing: old(self).spec_easing(),
                    }
                }
            },
    {
        proof {
            use_type_invariant(&*self);
        }
        if self.state == TweenState::Finished {
            return TweenSample::Done(self.target);
        }
        let now = instant_now();
        let start = match self.start {
            Some(start) => start,
            None => {
                self.state = TweenState::Playing;
                self.start = Some(now);
                now
            },
        };
        self.last_reading = Ghost(Some(now));
        let elapsed_ms = duration_as_millis(&instant_duration_since(&now, &start));
        let span_ms = duration_as_millis(&instant_duration_since(&self.end, &start));
        self.advance(elapsed_ms, span_ms)
    }
}

} // verus!
