//! A hold-to-confirm gesture.
//!
//! Instead of an "Are you sure?" dialog, a destructive action requires
//! *sustained key pressure*: arm on press, fire only after the key has been
//! held long enough, abort the instant it's released.
//!
//! Release detection is exact under the Kitty keyboard protocol (real
//! key-release events). Without it we fall back to a heuristic: key
//! auto-repeat keeps the hold alive, and a gap longer than `release_gap` is
//! taken to mean the key is up.
//!
//! The type is clock-injected: every method takes the current [`Moment`], so
//! the timing logic is checked without a clock. A [`Moment`] is a point on a
//! monotonic clock and a [`Span`] a length of time, both counted in
//! nanoseconds; the front-end measures them from the system's monotonic clock.

use vstd::prelude::*;

verus! {

/// A length of time, in nanoseconds.
#[derive(Clone, Copy, PartialEq, Eq, Debug, Structural)]
pub struct Span {
    pub nanos: u128,
}

/// A point on a monotonic clock, in nanoseconds since the clock's origin.
#[derive(Clone, Copy, PartialEq, Eq, Debug, Structural)]
pub struct Moment {
    pub nanos: u128,
}

impl Span {
    /// A span of `ms` milliseconds.
    pub fn from_millis(ms: u64) -> (s: Span)
        ensures
            s.nanos == ms * 1_000_000,
    {
        assert(ms * 1_000_000 <= u128::MAX) by (nonlinear_arith)
            requires ms <= u64::MAX;
        Span { nanos: ms as u128 * 1_000_000 }
    }
}

/// `a - b`, or zero when `b` is later (time never runs backwards).
pub open spec fn elapsed(a: int, b: int) -> int {
    if a > b { a - b } else { 0 }
}

impl Moment {
    /// The moment `nanos` nanoseconds after the clock's origin.
    pub fn from_nanos(nanos: u128) -> (m: Moment)
        ensures
            m.nanos == nanos,
    {
        Moment { nanos }
    }

    /// The moment `d` after `self`.
    pub fn after(self, d: Span) -> (m: Moment)
        requires
            self.nanos + d.nanos <= u128::MAX,
        ensures
            m.nanos == self.nanos + d.nanos,
    {
        Moment { nanos: self.nanos + d.nanos }
    }

    /// Time elapsed from `earlier` to `self`, zero if `earlier` is later.
    pub fn duration_since(self, earlier: Moment) -> (d: Span)
        ensures
            d.nanos == elapsed(self.nanos as int, earlier.nanos as int),
    {
        Span { nanos: self.nanos.saturating_sub(earlier.nanos) }
    }
}

/// One hold-to-confirm gesture (e.g. hold-to-quit). Reusable across actions.
pub struct Hold {
    /// How long the key must be held before the gesture fires.
    duration: Span,
    /// Fallback only: a gap between repeats longer than this means "released".
    release_gap: Span,
    /// Whether real key-release events are available (Kitty protocol).
    kbd_enhanced: bool,
    /// When the current hold started, or `None` if not armed.
    armed: Option<Moment>,
    /// Last press/repeat seen: drives the fallback release detection.
    last: Moment,
    /// Latched after firing until the key is released (or, without release
    /// events, until a gap shows it was), so holding past the fire point
    /// can't trigger the action again.
    consumed: bool,
}

/// The state of a [`Hold`], with times as plain numbers of nanoseconds.
pub struct HoldState {
    pub duration: int,
    pub release_gap: int,
    pub kbd_enhanced: bool,
    pub armed: Option<int>,
    pub last: int,
    pub consumed: bool,
}

impl View for Hold {
    type V = HoldState;

    closed spec fn view(&self) -> HoldState {
        HoldState {
            duration: self.duration.nanos as int,
            release_gap: self.release_gap.nanos as int,
            kbd_enhanced: self.kbd_enhanced,
            armed: match self.armed {
                Some(m) => Some(m.nanos as int),
                None => None,
            },
            last: self.last.nanos as int,
            consumed: self.consumed,
        }
    }
}

/// Whether the fallback detector takes the key to be up at `now`.
pub open spec fn gap_released(h: HoldState, now: int) -> bool {
    !h.kbd_enhanced && elapsed(now, h.last) > h.release_gap
}

/// The state after a press or auto-repeat at `now`.
/// A gap longer than `release_gap` since the last press (fallback mode)
/// means the key was let go in between: that ends the post-fire latch too.
pub open spec fn pressed(h: HoldState, now: int) -> HoldState {
    let fresh = gap_released(h, now);
    let consumed = h.consumed && !fresh;
    let rearm = !consumed && (h.armed is None || fresh);
    HoldState {
        armed: if rearm { Some(now) } else { h.armed },
        last: now,
        consumed,
        ..h
    }
}

/// The state after a key release.
pub open spec fn released(h: HoldState) -> HoldState {
    HoldState { armed: None, consumed: false, ..h }
}

/// Whether a poll at `now` fires the gesture.
pub open spec fn fires(h: HoldState, now: int) -> bool {
    !(h.armed is Some && gap_released(h, now))
        && h.armed is Some && elapsed(now, h.armed->0) >= h.duration
}

/// The state after a poll at `now`.
pub open spec fn polled(h: HoldState, now: int) -> HoldState {
    if h.armed is Some && gap_released(h, now) {
        HoldState { armed: None, consumed: false, ..h }
    } else if fires(h, now) {
        HoldState { armed: None, consumed: true, ..h }
    } else {
        h
    }
}

impl Hold {
    /// A disarmed gesture that fires after `duration` of sustained pressure.
    pub fn new(duration: Span, release_gap: Span, kbd_enhanced: bool, now: Moment) -> (h: Self)
        ensures
            h@ == (HoldState {
                duration: duration.nanos as int,
                release_gap: release_gap.nanos as int,
                kbd_enhanced,
                armed: None,
                last: now.nanos as int,
                consumed: false,
            }),
    {
        Hold { duration, release_gap, kbd_enhanced, armed: None, last: now, consumed: false }
    }

    /// Register a press or auto-repeat of the gesture key: arm the hold (or
    /// keep it armed). Re-arms after a fallback release gap, clearing the
    /// post-fire latch, so a fresh press starts a fresh hold.
    pub fn press(&mut self, now: Moment)
        ensures
            final(self)@ == pressed(old(self)@, now.nanos as int),
    {
        let fresh = !self.kbd_enhanced && now.duration_since(self.last).nanos > self.release_gap.nanos;
        if fresh {
            self.consumed = false;
        }
        if !self.consumed {
            let rearm = self.armed.is_none() || fresh;
            if rearm {
                self.armed = Some(now);
            }
        }
        self.last = now;
    }

    /// Register a key release (Kitty protocol): end the gesture immediately
    /// and clear the post-fire latch.
    pub fn release(&mut self)
        ensures
            final(self)@ == released(old(self)@),
    {
        self.armed = None;
        self.consumed = false;
    }

    /// Advance the gesture. Returns `true` exactly once, on the tick where the
    /// hold has lasted long enough.
    pub fn poll(&mut self, now: Moment) -> (fired: bool)
        ensures
            fired == fires(old(self)@, now.nanos as int),
            final(self)@ == polled(old(self)@, now.nanos as int),
    {
        if !self.kbd_enhanced && self.armed.is_some()
            && now.duration_since(self.last).nanos > self.release_gap.nanos {
            self.armed = None;
            self.consumed = false;
            return false;
        }
        match self.armed {
            Some(start) => {
                if now.duration_since(start).nanos >= self.duration.nanos {
                    self.armed = None;
                    self.consumed = true;
                    return true;
                }
                false
            },
            None => false,
        }
    }

    /// Whether the gesture is currently being held.
    pub fn is_armed(&self) -> (b: bool)
        ensures
            b == self@.armed is Some,
    {
        self.armed.is_some()
    }

    /// When the current hold started, if the gesture is being held.
    pub fn armed_at(&self) -> (m: Option<Moment>)
        ensures
            m is Some == self@.armed is Some,
            m is Some ==> m->0.nanos == self@.armed->0,
    {
        self.armed
    }

    /// How long the key must be held before the gesture fires.
    pub fn duration(&self) -> (d: Span)
        ensures
            d.nanos == self@.duration,
    {
        self.duration
    }
}

/// Once fired, the gesture stays latched: no poll fires it again, and no
/// press re-arms it until the key is released (or, without release events,
/// until a gap shows it was let go).
pub proof fn lemma_fires_once(h: HoldState, now: int)
    requires
        h.armed is None,
        h.consumed,
    ensures
        !fires(h, now),
        polled(h, now) == h,
        !gap_released(h, now) ==> pressed(h, now).armed is None && pressed(h, now).consumed,
{
}

/// Without release events, a press after a gap longer than `release_gap`
/// is a fresh press: it clears the post-fire latch and arms a fresh hold.
pub proof fn lemma_fresh_press_after_gap_rearms(h: HoldState, now: int)
    requires
        !h.kbd_enhanced,
        elapsed(now, h.last) > h.release_gap,
    ensures
        pressed(h, now).armed == Some(now),
        !pressed(h, now).consumed,
{
}

/// A poll that fires leaves the gesture disarmed and latched.
pub proof fn lemma_fire_latches(h: HoldState, now: int)
    requires
        fires(h, now),
    ensures
        polled(h, now).armed is None,
        polled(h, now).consumed,
{
}

/// With real release events, only a release ends a hold: a gesture armed for
/// at least its duration fires however long ago the last press was.
pub proof fn lemma_enhanced_ignores_gaps(h: HoldState, now: int)
    requires
        h.kbd_enhanced,
        h.armed is Some,
        elapsed(now, h.armed->0) >= h.duration,
    ensures
        fires(h, now),
{
}

/// Without release events, a gap longer than `release_gap` since the last
/// press disarms the gesture instead of firing it.
pub proof fn lemma_fallback_gap_disarms(h: HoldState, now: int)
    requires
        !h.kbd_enhanced,
        h.armed is Some,
        elapsed(now, h.last) > h.release_gap,
    ensures
        !fires(h, now),
        polled(h, now).armed is None,
        !polled(h, now).consumed,
{
}

/// Auto-repeats that come within the release gap keep the first press as the start of
/// the hold, so the time held accumulates across repeats.
pub proof fn lemma_repeat_keeps_start(h: HoldState, now: int)
    requires
        h.armed is Some,
        !gap_released(h, now),
    ensures
        pressed(h, now).armed == h.armed,
        pressed(h, now).last == now,
{
}

/// A release always disarms and clears the latch, so the next press arms a
/// fresh hold starting at that press.
pub proof fn lemma_release_then_press_arms(h: HoldState, now: int)
    ensures
        released(h).armed is None,
        !released(h).consumed,
        pressed(released(h), now).armed == Some(now),
{
}

} // verus!
