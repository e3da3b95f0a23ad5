//! DPMS idle timer: when the monitors are powered off and on again.
//!
//! - [`DpmsState::record_activity`] is called on every user input.
//! - [`DpmsState::tick`] compares the time since the last input with the
//!   timeout. After a long enough pause it asks for all outputs to be powered
//!   off.
//! - [`DpmsState::wake`] asks for them to be powered on again, on the next
//!   input, and restarts the timer.
//! - A timeout of zero disables blanking.
//!
//! Each of these reads the clock and leaves the decision to a method whose name
//! ends in `_at`, which takes the time as an argument.

use std::collections::HashMap;
use std::time::Instant;
use vstd::prelude::*;

verus! {

/// `std::time::Instant`: a reading of the monotonic clock.
#[verifier::external_type_specification]
#[verifier::external_body]
pub struct ExInstant(std::time::Instant);

/// `std::time::Instant::now`: a reading of the clock, of which nothing is claimed.
pub assume_specification[ std::time::Instant::now ]() -> (now: Instant)
;

/// `std::time::Instant::elapsed`, in nanoseconds. What the clock says is not
/// known, so nothing is claimed of the result.
#[verifier::external_body]
fn nanos_since(start: &Instant) -> (nanos: u128) {
    start.elapsed().as_nanos()
}

/// Whether any output is under control.
pub open spec fn has_output<P>(controls: Map<u32, P>) -> bool {
    !controls.is_empty()
}

/// Tracks monitor idle state and drives power on/off transitions.
pub struct DpmsState {
    /// When this tracker was created; times are counted from here.
    started: Instant,
    /// When the user last pressed a key, in nanoseconds since the start.
    last_activity: u128,
    /// Seconds of inactivity before blanking (0 = disabled).
    timeout_secs: u64,
    /// Whether monitors are currently powered off by us.
    blanked: bool,
}

/// The idle state: times are in nanoseconds since the tracker was created.
pub struct DpmsView {
    pub started: Instant,
    pub last_activity: nat,
    pub timeout_secs: nat,
    pub blanked: bool,
}

impl DpmsView {
    /// A tracker that was created at `started`: the timer runs from there.
    pub open spec fn fresh(started: Instant, timeout_secs: nat) -> DpmsView {
        DpmsView { started, last_activity: 0, timeout_secs, blanked: false }
    }

    /// Whether the tracker was created at a reading of the clock: an outcome of
    /// `Instant::now`.
    pub open spec fn starts_now(self) -> bool {
        call_ensures(std::time::Instant::now, (), self.started)
    }

    /// Whether `now` is a reading of the clock: an outcome of `nanos_since` on
    /// the time at which this tracker was created.
    pub closed spec fn reads(self, now: u128) -> bool {
        call_ensures(nanos_since, (&self.started,), now)
    }

    /// Whole seconds without input at time `now`.
    pub open spec fn idle_secs(self, now: nat) -> nat {
        if now >= self.last_activity {
            ((now - self.last_activity) / 1_000_000_000) as nat
        } else {
            0
        }
    }

    /// Whether the monitors are to be blanked at time `now`, with or without
    /// any output under control.
    pub open spec fn blanks(self, now: nat, any_output: bool) -> bool {
        &&& self.timeout_secs != 0
        &&& any_output
        &&& !self.blanked
        &&& self.idle_secs(now) >= self.timeout_secs
    }

    /// The state after a tick at time `now`.
    pub open spec fn ticked(self, now: nat, any_output: bool) -> DpmsView {
        DpmsView { blanked: self.blanked || self.blanks(now, any_output), ..self }
    }

    /// The state after input at time `now`.
    pub open spec fn active(self, now: nat) -> DpmsView {
        DpmsView { last_activity: now, ..self }
    }

    /// The state after waking at time `now`.
    pub open spec fn woken(self, now: nat) -> DpmsView {
        if self.blanked {
            DpmsView { last_activity: now, blanked: false, ..self }
        } else {
            self
        }
    }

    /// The state once the monitors are on for certain.
    pub open spec fn switched_on(self) -> DpmsView {
        DpmsView { blanked: false, ..self }
    }

    /// A disabled timer has blanked nothing.
    pub open spec fn is_sound(self) -> bool {
        self.timeout_secs == 0 ==> !self.blanked
    }
}

impl View for DpmsState {
    type V = DpmsView;

    closed spec fn view(&self) -> DpmsView {
        DpmsView {
            started: self.started,
            last_activity: self.last_activity as nat,
            timeout_secs: self.timeout_secs as nat,
            blanked: self.blanked,
        }
    }
}

impl DpmsState {
    /// Create a new DPMS state tracker. Its timer starts now.
    pub fn new(timeout_secs: u64) -> (state: Self)
        ensures
            state@ == DpmsView::fresh(state@.started, timeout_secs as nat),
            state@.starts_now(),
    {
        DpmsState { started: Instant::now(), last_activity: 0, timeout_secs, blanked: false }
    }

    /// The time now, in nanoseconds since this tracker was created.
    pub(crate) fn read_clock(&self) -> (now: u128)
        ensures
            self@.reads(now),
    {
        nanos_since(&self.started)
    }

    /// Record user activity, which resets the idle timer.
    pub fn record_activity(&mut self)
        ensures
            exists|now: u128|
                {
                    &&& old(self)@.reads(now)
                    &&& final(self)@ == #[trigger] old(self)@.active(now as nat)
                },
    {
        let now: u128 = self.read_clock();
        self.record_activity_at(now);
    }

    /// Record user activity at time `now`.
    pub fn record_activity_at(&mut self, now: u128)
        ensures
            final(self)@ == old(self)@.active(now as nat),
    {
        self.last_activity = now;
    }

    /// Whether the monitors are currently blanked by us.
    pub fn is_blanked(&self) -> (r: bool)
        ensures
            r == self@.blanked,
    {
        self.blanked
    }

    /// Check the idle timeout and blank the monitors if it is exceeded.
    ///
    /// Call this after every event loop dispatch round. Returns `true` if all
    /// outputs under control are to be powered off now.
    pub fn tick<P>(&mut self, controls: &HashMap<u32, P>) -> (changed: bool)
        ensures
            exists|now: u128|
                {
                    &&& old(self)@.reads(now)
                    &&& final(self)@ == #[trigger] old(self)@.ticked(
                        now as nat,
                        has_output(controls@),
                    )
                    &&& changed == old(self)@.blanks(now as nat, has_output(controls@))
                },
    {
        let now: u128 = self.read_clock();
        self.tick_at(now, controls)
    }

    /// Check the idle timeout at time `now`.
    pub fn tick_at<P>(&mut self, now: u128, controls: &HashMap<u32, P>) -> (changed: bool)
        ensures
            final(self)@ == old(self)@.ticked(now as nat, has_output(controls@)),
            changed == old(self)@.blanks(now as nat, has_output(controls@)),
            changed <==> {
                &&& old(self)@.timeout_secs > 0
                &&& exists|id: u32| controls@.contains_key(id)
                &&& !old(self)@.blanked
                &&& now >= old(self)@.last_activity + old(self)@.timeout_secs * 1_000_000_000
            },
            final(self)@.blanked == (old(self)@.blanked || changed),
            final(self)@.last_activity == old(self)@.last_activity,
            final(self)@.timeout_secs == old(self)@.timeout_secs,
            final(self)@.started == old(self)@.started,
    {
        proof {
            lemma_output_under_control(controls@);
        }
        if self.timeout_secs == 0 || controls.is_empty() {
            return false;
        }
        let elapsed: u128 = if now >= self.last_activity {
            (now - self.last_activity) / 1_000_000_000
        } else {
            0
        };
        if !self.blanked && elapsed >= self.timeout_secs as u128 {
            self.blanked = true;
            return true;
        }
        false
    }

    /// Wake the monitors, on user input. Returns `true` if they were blanked
    /// and all outputs under control are to be powered on now.
    pub fn wake(&mut self) -> (woken: bool)
        ensures
            woken == old(self)@.blanked,
            exists|now: u128|
                {
                    &&& old(self)@.reads(now)
                    &&& final(self)@ == #[trigger] old(self)@.woken(now as nat)
                },
    {
        let now: u128 = self.read_clock();
        self.wake_at(now)
    }

    /// Wake the monitors at time `now`.
    pub fn wake_at(&mut self, now: u128) -> (woken: bool)
        ensures
            woken == old(self)@.blanked,
            final(self)@ == old(self)@.woken(now as nat),
    {
        if !self.blanked {
            return false;
        }
        self.blanked = false;
        self.last_activity = now;
        true
    }

    /// Ensure that the monitors are on, before the session is unlocked. Returns
    /// `true` if all outputs under control are to be powered on now.
    pub fn ensure_on(&mut self) -> (switched: bool)
        ensures
            switched == old(self)@.blanked,
            final(self)@ == old(self)@.switched_on(),
    {
        let switched: bool = self.blanked;
        self.blanked = false;
        switched
    }
}

/// The outputs whose power is to be switched: every one under control, once.
pub fn power_targets<P>(controls: &HashMap<u32, P>) -> (ids: Vec<u32>)
    ensures
        ids@.no_duplicates(),
        ids@.to_set() == controls@.dom(),
{
    let mut ids: Vec<u32> = Vec::new();
    for id in it: controls.keys()
        invariant
            it.seq().no_duplicates(),
            it.seq().unref().to_set() == controls@.dom(),
            ids@ == it.seq().unref().take(it.index()),
            it.index() == it.seq().len() ==> ids@ == it.seq().unref(),
    {
        ids.push(*id);
    }
    ids
}

proof fn lemma_output_under_control<P>(controls: Map<u32, P>)
    ensures
        has_output(controls) <==> exists|id: u32| controls.contains_key(id),
{
    if forall|id: u32| !controls.contains_key(id) {
        assert(controls.dom() =~= Set::empty());
    }
}

/// Monitors that are on are blanked once as many seconds as the timeout says
/// have passed since the last input, however many outputs are under control,
/// as long as `id` is one of them.
pub proof fn lemma_idle_monitors_are_blanked<P>(
    state: DpmsView,
    now: nat,
    controls: Map<u32, P>,
    id: u32,
)
    requires
        controls.contains_key(id),
        !state.blanked,
        state.timeout_secs > 0,
        now >= state.last_activity + state.timeout_secs * 1_000_000_000,
    ensures
        state.blanks(now, has_output(controls)),
        state.ticked(now, has_output(controls)).blanked,
{
    lemma_output_under_control(controls);
}

/// A tick changes nothing and asks for nothing where there is no output under
/// control, where the timer is disabled, where the monitors are blanked
/// already, and before the timeout has passed since the last input.
pub proof fn lemma_tick_leaves_all_else_alone<P>(
    state: DpmsView,
    now: nat,
    controls: Map<u32, P>,
)
    requires
        ({
            ||| forall|id: u32| !controls.contains_key(id)
            ||| state.timeout_secs == 0
            ||| state.blanked
            ||| now < state.last_activity + state.timeout_secs * 1_000_000_000
        }),
    ensures
        !state.blanks(now, has_output(controls)),
        state.ticked(now, has_output(controls)) == state,
{
    lemma_output_under_control(controls);
}

/// A tick asks for the monitors to be powered off exactly when it blanks them,
/// and changes nothing else about the timer.
pub proof fn lemma_tick_reports_what_it_does(state: DpmsView, now: nat, any_output: bool)
    ensures
        state.blanks(now, any_output) <==> !state.blanked && state.ticked(now, any_output).blanked,
        state.blanked ==> state.ticked(now, any_output).blanked,
        state.ticked(now, any_output).started == state.started,
        state.ticked(now, any_output).last_activity == state.last_activity,
        state.ticked(now, any_output).timeout_secs == state.timeout_secs,
{
}

/// Input sets the time of the last input and nothing else; waking does the
/// same to blanked monitors and turns them on, and leaves those that are on
/// alone; a switch-on turns them on and does nothing else.
pub proof fn lemma_input_sets_the_timer(state: DpmsView, now: nat)
    ensures
        state.active(now).last_activity == now,
        state.active(now).blanked == state.blanked,
        state.active(now).timeout_secs == state.timeout_secs,
        state.active(now).started == state.started,
        state.woken(now).last_activity == if state.blanked {
            now
        } else {
            state.last_activity
        },
        !state.woken(now).blanked,
        state.woken(now).timeout_secs == state.timeout_secs,
        state.woken(now).started == state.started,
        !state.switched_on().blanked,
        state.switched_on().last_activity == state.last_activity,
        state.switched_on().timeout_secs == state.timeout_secs,
        state.switched_on().started == state.started,
{
}

/// A new timer runs from its start, with the monitors on.
pub proof fn lemma_new_timer_runs_from_its_start(started: Instant, timeout_secs: nat)
    ensures
        DpmsView::fresh(started, timeout_secs).started == started,
        DpmsView::fresh(started, timeout_secs).last_activity == 0,
        DpmsView::fresh(started, timeout_secs).timeout_secs == timeout_secs,
        !DpmsView::fresh(started, timeout_secs).blanked,
{
}

/// A later tick blanks whatever an earlier one would have blanked.
pub proof fn lemma_waiting_longer_blanks_too(
    state: DpmsView,
    now: nat,
    later: nat,
    any_output: bool,
)
    requires
        now <= later,
        state.blanks(now, any_output),
    ensures
        state.blanks(later, any_output),
        any_output,
{
}

/// A timer is seen as it is held.
proof fn lemma_timer_is_seen_as_it_is(state: DpmsState)
    ensures
        state@.started == state.started,
        state@.last_activity == state.last_activity,
        state@.timeout_secs == state.timeout_secs,
        state@.blanked == state.blanked,
{
}

/// What a reading of the clock is: an outcome of the clock's own functions on
/// the tracker's start.
proof fn lemma_readings_come_from_the_clock(state: DpmsView, now: u128)
    ensures
        state.reads(now) <==> call_ensures(nanos_since, (&state.started,), now),
        state.starts_now() <==> call_ensures(std::time::Instant::now, (), state.started),
{
}

/// With a timeout of zero the monitors are never blanked, whatever happens.
pub proof fn lemma_zero_timeout_never_blanks(state: DpmsView, now: nat, any_output: bool)
    requires
        state.is_sound(),
    ensures
        state.ticked(now, any_output).is_sound(),
        state.active(now).is_sound(),
        state.woken(now).is_sound(),
        state.switched_on().is_sound(),
        state.timeout_secs == 0 ==> !state.ticked(now, any_output).blanked,
{
}

/// A new tracker is sound.
pub proof fn lemma_new_state_is_sound(started: Instant, timeout_secs: nat)
    ensures
        DpmsView::fresh(started, timeout_secs).is_sound(),
{
}

/// All times are counted from the same instant: nothing that happens to a
/// tracker changes what its clock reads, nor its timeout.
pub proof fn lemma_clock_is_kept(state: DpmsView, now: nat, any_output: bool, reading: u128)
    ensures
        state.ticked(now, any_output).reads(reading) == state.reads(reading),
        state.active(now).reads(reading) == state.reads(reading),
        state.woken(now).reads(reading) == state.reads(reading),
        state.switched_on().reads(reading) == state.reads(reading),
        state.ticked(now, any_output).timeout_secs == state.timeout_secs,
        state.active(now).timeout_secs == state.timeout_secs,
        state.woken(now).timeout_secs == state.timeout_secs,
        state.switched_on().timeout_secs == state.timeout_secs,
{
}

/// A tick and a switch-on leave the time of the last input alone.
pub proof fn lemma_last_input_is_kept(state: DpmsView, now: nat, any_output: bool)
    ensures
        state.ticked(now, any_output).last_activity == state.last_activity,
        state.switched_on().last_activity == state.last_activity,
{
}

/// Waking undoes blanking: the monitors are on as before, with the timer
/// restarted, and a second wake changes nothing.
pub proof fn lemma_waking_undoes_blanking(
    state: DpmsView,
    blanked: nat,
    woken: nat,
    again: nat,
    any_output: bool,
)
    requires
        state.blanks(blanked, any_output),
    ensures
        state.ticked(blanked, any_output).woken(woken) == state.active(woken),
        state.ticked(blanked, any_output).woken(woken).woken(again) == state.active(woken),
{
}

/// Input restarts the timer: no tick blanks the monitors before the timeout has
/// passed since the last input, and the first one after it does.
pub proof fn lemma_activity_restarts_timer(
    state: DpmsView,
    input: nat,
    now: nat,
    any_output: bool,
)
    requires
        !state.blanked,
        now >= input,
    ensures
        now - input < state.timeout_secs * 1_000_000_000 ==> !state.active(input).blanks(
            now,
            any_output,
        ),
        state.timeout_secs > 0 && any_output && now - input >= state.timeout_secs * 1_000_000_000
            ==> state.active(input).blanks(now, any_output),
{
}

/// Waking blanked monitors restarts the timer too.
pub proof fn lemma_waking_restarts_timer(state: DpmsView, woken: nat, now: nat, any_output: bool)
    requires
        state.blanked,
        now >= woken,
        now - woken < state.timeout_secs * 1_000_000_000,
    ensures
        !state.woken(woken).blanked,
        !state.woken(woken).ticked(now, any_output).blanked,
{
}

/// After input the monitors are on, blanked before or not, and stay on until
/// the timeout has passed.
pub proof fn lemma_input_keeps_monitors_on(
    state: DpmsView,
    input: nat,
    now: nat,
    any_output: bool,
)
    requires
        now >= input,
    ensures
        !state.active(input).woken(input).blanked,
        now - input < state.timeout_secs * 1_000_000_000 ==> !state.active(input).woken(
            input,
        ).ticked(now, any_output).blanked,
{
}

/// The monitors are blanked once: a tick asks for nothing while they are
/// blanked, and keeps them so.
pub proof fn lemma_blanking_happens_once(state: DpmsView, first: nat, second: nat, any_output: bool)
    requires
        state.blanks(first, any_output),
    ensures
        state.ticked(first, any_output).blanked,
        !state.ticked(first, any_output).blanks(second, any_output),
        state.ticked(first, any_output).ticked(second, any_output) == state.ticked(
            first,
            any_output,
        ),
{
}

/// After a wake or a switch-on the monitors are on, whatever they were before.
pub proof fn lemma_monitors_are_on_after_wake(state: DpmsView, now: nat)
    ensures
        !state.woken(now).blanked,
        !state.switched_on().blanked,
        !state.blanked ==> state.woken(now) == state && state.switched_on() == state,
{
}

} // verus!
