//! Popup lifetimes: when a window opens, how long it stays, and when it closes.
//!
//! A popup lives as long as its camera is doing something. `new` opens it, `update`
//! pushes the deadline out, and `end` - or the object going stationary - starts a linger
//! countdown. Two bounds sit on top: it never closes before `min_display_seconds`, and
//! never survives past `max_display_seconds`.
//!
//! Instants are nanoseconds on a monotonic clock; configured durations are seconds.

use vstd::prelude::*;
use crate::config::Popup;
use crate::text::{str_eq, string_views};

verus! {

/// What just happened to the object a popup is showing.
#[derive(Clone, Copy, Debug, PartialEq, Eq)]
pub enum Signal {
    /// The popup just opened.
    Opened,
    /// The object moved. Frigate is still tracking it.
    Active,
    /// Frigate still tracks it but it has stopped moving.
    Stationary,
    /// Frigate finished the event.
    Ended,
}

/// A number of seconds as nanoseconds.
pub open spec fn nanos(secs: u64) -> int {
    secs as int * 1_000_000_000
}

pub open spec fn imin(a: int, b: int) -> int {
    if a <= b {
        a
    } else {
        b
    }
}

pub open spec fn imax(a: int, b: int) -> int {
    if a >= b {
        a
    } else {
        b
    }
}

/// Signals after which the popup only lingers for a grace period.
pub open spec fn lingers(s: Signal) -> bool {
    s is Stationary || s is Ended
}

/// When a popup opened and when it is due to close.
#[derive(Clone, Copy, Debug, PartialEq, Eq)]
pub struct Timing {
    pub opened_at: u128,
    pub deadline: u128,
}

/// The earliest a popup opened at `t.opened_at` may close.
pub open spec fn floor_of(t: Timing, cfg: Popup) -> int {
    t.opened_at + nanos(cfg.min_display_seconds)
}

/// The latest a popup opened at `t.opened_at` may stay.
pub open spec fn ceiling_of(t: Timing, cfg: Popup) -> int {
    t.opened_at + nanos(cfg.max_display_seconds)
}

/// The deadline a signal asks for before clamping: a full watchdog window for activity,
/// a linger for an object that stopped or ended.
pub open spec fn proposed(s: Signal, cfg: Popup, now: u128) -> int {
    if lingers(s) {
        now + nanos(cfg.linger_seconds)
    } else {
        now + nanos(cfg.watchdog_seconds)
    }
}

/// `t` after `s` at `now`: the proposed deadline (never later than the current one for
/// a linger), raised to the floor, then capped at the ceiling.
pub open spec fn applied(t: Timing, s: Signal, cfg: Popup, now: u128) -> Timing {
    let p = if lingers(s) {
        imin(proposed(s, cfg, now), t.deadline as int)
    } else {
        proposed(s, cfg, now)
    };
    Timing { opened_at: t.opened_at, deadline: imin(imax(p, floor_of(t, cfg)), ceiling_of(t, cfg)) as u128 }
}

/// The instants `apply` computes are representable.
pub open spec fn apply_fits(t: Timing, s: Signal, cfg: Popup, now: u128) -> bool {
    &&& floor_of(t, cfg) <= u128::MAX
    &&& ceiling_of(t, cfg) <= u128::MAX
    &&& proposed(s, cfg, now) <= u128::MAX
}

/// The timing of a popup opened at `now`.
pub open spec fn opened_timing(cfg: Popup, now: u128) -> Timing {
    applied(Timing { opened_at: now, deadline: now }, Signal::Opened, cfg, now)
}

/// Every instant a popup opened at `now` can be given is representable.
pub open spec fn open_fits(cfg: Popup, now: u128) -> bool {
    apply_fits(Timing { opened_at: now, deadline: now }, Signal::Opened, cfg, now)
}

fn secs_to_nanos(secs: u64) -> (r: u128)
    ensures
        r == nanos(secs),
{
    secs as u128 * 1_000_000_000
}

impl Timing {
    pub fn new(cfg: &Popup, now: u128) -> (r: Self)
        requires
            open_fits(*cfg, now),
        ensures
            r == opened_timing(*cfg, now),
    {
        let mut timing = Timing { opened_at: now, deadline: now };
        timing.apply(Signal::Opened, cfg, now);
        timing
    }

    /// Recomputes the deadline for `signal`, then clamps it to the floor and ceiling.
    ///
    /// Clamping is what makes the rules safe to combine: the floor stops an immediate
    /// `end` from making the popup blink, and the ceiling stops an object that never
    /// stops generating updates from pinning the window forever.
    pub fn apply(&mut self, signal: Signal, cfg: &Popup, now: u128)
        requires
            apply_fits(*old(self), signal, *cfg, now),
        ensures
            *final(self) == applied(*old(self), signal, *cfg, now),
    {
        let lingering = match signal {
            Signal::Stationary | Signal::Ended => true,
            Signal::Opened | Signal::Active => false,
        };
        let proposed = if lingering {
            now + secs_to_nanos(cfg.linger_seconds)
        } else {
            now + secs_to_nanos(cfg.watchdog_seconds)
        };
        let floor = self.opened_at + secs_to_nanos(cfg.min_display_seconds);
        let ceiling = self.opened_at + secs_to_nanos(cfg.max_display_seconds);

        // An `end` must never *extend* a popup, so a linger only ever pulls the deadline
        // in. Activity, on the other hand, is allowed to push it out.
        let proposed = if lingering && self.deadline < proposed {
            self.deadline
        } else {
            proposed
        };
        let raised = if proposed < floor {
            floor
        } else {
            proposed
        };
        self.deadline = if raised > ceiling {
            ceiling
        } else {
            raised
        };
    }

    pub fn is_expired(&self, now: u128) -> (r: bool)
        ensures
            r == (now >= self.deadline),
    {
        now >= self.deadline
    }
}

/// Every configured duration, added to `now`, is a representable instant.
pub open spec fn spans_fit(cfg: Popup, now: u128) -> bool {
    &&& now + nanos(cfg.watchdog_seconds) <= u128::MAX
    &&& now + nanos(cfg.linger_seconds) <= u128::MAX
    &&& now + nanos(cfg.min_display_seconds) <= u128::MAX
    &&& now + nanos(cfg.max_display_seconds) <= u128::MAX
}

/// Whether every configured duration, added to `now`, is a representable instant.
pub fn timings_fit(cfg: &Popup, now: u128) -> (r: bool)
    ensures
        r == spans_fit(*cfg, now),
{
    let room = (u128::MAX - now) / 1_000_000_000;
    cfg.watchdog_seconds as u128 <= room && cfg.linger_seconds as u128 <= room
        && cfg.min_display_seconds as u128 <= room && cfg.max_display_seconds as u128 <= room
}

/// When the configured durations fit after `now`, every signal can be applied at `now`
/// to any popup opened no later than `now`, and a popup can be opened at `now`.
pub proof fn fitting_spans_cover_every_signal(t: Timing, s: Signal, cfg: Popup, now: u128)
    requires
        spans_fit(cfg, now),
        t.opened_at <= now,
    ensures
        apply_fits(t, s, cfg, now),
        open_fits(cfg, now),
{
}

/// Whether the deadline lies between the floor and the ceiling.
pub open spec fn within_bounds(t: Timing, cfg: Popup) -> bool {
    floor_of(t, cfg) <= t.deadline <= ceiling_of(t, cfg)
}

/// Whatever signal arrives, the deadline ends up no earlier than `min_display_seconds`
/// and no later than `max_display_seconds` after the popup opened (given a config where
/// the minimum does not exceed the maximum), and the opening instant never moves.
pub proof fn deadline_stays_within_display_bounds(t: Timing, s: Signal, cfg: Popup, now: u128)
    requires
        cfg.min_display_seconds <= cfg.max_display_seconds,
        apply_fits(t, s, cfg, now),
    ensures
        within_bounds(applied(t, s, cfg, now), cfg),
        applied(t, s, cfg, now).opened_at == t.opened_at,
{
}

/// A linger only ever pulls the deadline in: `end` or going stationary never makes a
/// popup stay longer than it was already going to, once its deadline is past the floor.
pub proof fn linger_never_extends(t: Timing, s: Signal, cfg: Popup, now: u128)
    requires
        lingers(s),
        t.deadline >= floor_of(t, cfg),
        apply_fits(t, s, cfg, now),
    ensures
        applied(t, s, cfg, now).deadline <= t.deadline,
{
}

/// Going stationary has exactly the effect of the event ending.
pub proof fn stationary_behaves_like_ended(t: Timing, cfg: Popup, now: u128)
    ensures
        applied(t, Signal::Stationary, cfg, now) == applied(t, Signal::Ended, cfg, now),
{
}

/// Activity pushes the deadline to a full watchdog window from now, within the bounds.
pub proof fn activity_resets_the_watchdog(t: Timing, cfg: Popup, now: u128)
    requires
        cfg.min_display_seconds <= cfg.max_display_seconds,
        apply_fits(t, Signal::Active, cfg, now),
        floor_of(t, cfg) <= now + nanos(cfg.watchdog_seconds) <= ceiling_of(t, cfg),
    ensures
        applied(t, Signal::Active, cfg, now).deadline == now + nanos(cfg.watchdog_seconds),
{
}

/// Once a popup has expired it stays expired as time moves on.
pub proof fn expiry_is_monotonic(t: Timing, a: u128, b: u128)
    requires
        a <= b,
        a >= t.deadline,
    ensures
        b >= t.deadline,
{
}


// ---------------------------------------------------------------------------
// The popup stack
// ---------------------------------------------------------------------------

/// Every signal can be given at `now` to the popup for `camera` in `s`, if one is open.
pub open spec fn popup_fits(s: Seq<Entry>, camera: Seq<char>, cfg: Popup, now: u128) -> bool {
    holds(s, camera) ==> ({
        let t = s[slot_of(s, camera)].timing;
        apply_fits(t, Signal::Active, cfg, now) && apply_fits(t, Signal::Ended, cfg, now)
    })
}

/// One popup currently on screen.
#[derive(Debug)]
pub struct Entry {
    pub camera: String,
    pub timing: Timing,
    /// Suppresses expiry while the pointer is over the window.
    pub hovered: bool,
    /// Opened deliberately from the tray rather than by a detection, so it stays until
    /// it is dismissed rather than timing out.
    pub pinned: bool,
}

/// No two entries show the same camera.
pub open spec fn unique_cameras(s: Seq<Entry>) -> bool {
    forall|i: int, j: int|
        0 <= i < s.len() && 0 <= j < s.len() && i != j ==> #[trigger] s[i].camera@
            != #[trigger] s[j].camera@
}

/// Entry `i` shows `camera`.
pub open spec fn shows(s: Seq<Entry>, camera: Seq<char>, i: int) -> bool {
    0 <= i < s.len() && s[i].camera@ == camera
}

/// Some entry shows `camera`.
pub open spec fn holds(s: Seq<Entry>, camera: Seq<char>) -> bool {
    exists|i: int| shows(s, camera, i)
}

/// The stack slot of `camera`, when `holds(s, camera)`.
pub open spec fn slot_of(s: Seq<Entry>, camera: Seq<char>) -> int {
    choose|i: int| shows(s, camera, i)
}

/// The camera names of the entries, in stack order.
pub open spec fn cameras_of(s: Seq<Entry>) -> Seq<Seq<char>> {
    s.map_values(|e: Entry| e.camera@)
}

/// Whether a popup is due to close at `now`. Hovered and pinned popups never are.
pub open spec fn due(e: Entry, now: u128) -> bool {
    !e.hovered && !e.pinned && now >= e.timing.deadline
}

/// The cameras of the entries due to close at `now`, in stack order.
pub open spec fn due_cameras(s: Seq<Entry>, now: u128) -> Seq<Seq<char>>
    decreases s.len(),
{
    if s.len() == 0 {
        Seq::<Seq<char>>::empty()
    } else {
        let r = due_cameras(s.drop_last(), now);
        if due(s.last(), now) {
            r.push(s.last().camera@)
        } else {
            r
        }
    }
}

/// The entries not due to close at `now`, in stack order.
pub open spec fn survivors(s: Seq<Entry>, now: u128) -> Seq<Entry>
    decreases s.len(),
{
    if s.len() == 0 {
        s
    } else {
        let r = survivors(s.drop_last(), now);
        if due(s.last(), now) {
            r
        } else {
            r.push(s.last())
        }
    }
}

/// `(camera, slot)` for every entry: the slot is the position in the stack.
pub open spec fn slots_of(s: Seq<Entry>) -> Seq<(Seq<char>, usize)> {
    Seq::new(s.len(), |i: int| (s[i].camera@, i as usize))
}

/// The views of a list of `(camera, slot)` pairs.
pub open spec fn slot_views(v: Seq<(String, usize)>) -> Seq<(Seq<char>, usize)> {
    v.map_values(|p: (String, usize)| (p.0@, p.1))
}

/// How many of the oldest popups must go so that one more fits under `max`
/// (a maximum of zero is treated as one).
pub open spec fn evictions(len: nat, max: usize) -> nat {
    let keep = if max >= 1 {
        max - 1
    } else {
        0
    };
    if len > keep {
        (len - keep) as nat
    } else {
        0
    }
}

proof fn lemma_unique_slot(s: Seq<Entry>, camera: Seq<char>, i: int)
    requires
        unique_cameras(s),
        shows(s, camera, i),
    ensures
        holds(s, camera),
        slot_of(s, camera) == i,
{
    let k = slot_of(s, camera);
    if k != i {
        assert(s[k].camera@ != s[i].camera@);
    }
}

proof fn lemma_unique_remove(s: Seq<Entry>, i: int)
    requires
        unique_cameras(s),
        0 <= i < s.len(),
    ensures
        unique_cameras(s.remove(i)),
        forall|j: int| 0 <= j < s.remove(i).len() ==> #[trigger] s.remove(i)[j].camera@ != s[i].camera@,
{
    let r = s.remove(i);
    assert forall|a: int, b: int|
        0 <= a < r.len() && 0 <= b < r.len() && a != b implies #[trigger] r[a].camera@
        != #[trigger] r[b].camera@ by {
        let a2 = if a < i { a } else { a + 1 };
        let b2 = if b < i { b } else { b + 1 };
        assert(r[a] == s[a2]);
        assert(r[b] == s[b2]);
    }
    assert forall|j: int| 0 <= j < r.len() implies #[trigger] r[j].camera@ != s[i].camera@ by {
        let j2 = if j < i { j } else { j + 1 };
        assert(r[j] == s[j2]);
    }
}

proof fn lemma_unique_update(s: Seq<Entry>, i: int, e: Entry)
    requires
        unique_cameras(s),
        0 <= i < s.len(),
        e.camera@ == s[i].camera@,
    ensures
        unique_cameras(s.update(i, e)),
{
    let r = s.update(i, e);
    assert forall|a: int, b: int|
        0 <= a < r.len() && 0 <= b < r.len() && a != b implies #[trigger] r[a].camera@
        != #[trigger] r[b].camera@ by {
        assert(r[a].camera@ == s[a].camera@);
        assert(r[b].camera@ == s[b].camera@);
    }
}

/// Which popups are open and in which stack slot.
///
/// Oldest first: the index is the stack slot, so slot 0 always hugs the corner.
pub struct Popups {
    entries: Vec<Entry>,
}

impl View for Popups {
    type V = Seq<Entry>;

    closed spec fn view(&self) -> Seq<Entry> {
        self.entries@
    }
}

impl Popups {
    #[verifier::type_invariant]
    closed spec fn inv(self) -> bool {
        unique_cameras(self.entries@)
    }

    pub fn new() -> (r: Self)
        ensures
            r@ == Seq::<Entry>::empty(),
    {
        Popups { entries: Vec::new() }
    }

    /// Moves the entries out, leaving the stack empty; the caller puts them back.
    fn take_entries(&mut self) -> (r: Vec<Entry>)
        ensures
            r@ == old(self)@,
            unique_cameras(r@),
            final(self)@ == Seq::<Entry>::empty(),
    {
        proof {
            use_type_invariant(&*self);
        }
        let mut entries: Vec<Entry> = Vec::new();
        std::mem::swap(&mut entries, &mut self.entries);
        entries
    }

    /// No two entries ever show the same camera.
    pub fn cameras_are_unique(&self)
        ensures
            unique_cameras(self@),
    {
        proof {
            use_type_invariant(self);
        }
    }

    pub fn len(&self) -> (r: usize)
        ensures
            r == self@.len(),
    {
        self.entries.len()
    }

    pub fn is_empty(&self) -> (r: bool)
        ensures
            r == (self@.len() == 0),
    {
        self.entries.len() == 0
    }

    pub fn has(&self, camera: &str) -> (r: bool)
        ensures
            r == holds(self@, camera@),
    {
        self.index_of(camera).is_some()
    }

    fn index_of(&self, camera: &str) -> (r: Option<usize>)
        ensures
            match r {
                Some(i) => shows(self@, camera@, i as int) && holds(self@, camera@) && slot_of(
                    self@,
                    camera@,
                ) == i,
                None => !holds(self@, camera@),
            },
    {
        proof {
            use_type_invariant(self);
        }
        let n = self.entries.len();
        let mut i: usize = 0;
        while i < n
            invariant
                i <= n,
                n == self.entries@.len(),
                unique_cameras(self.entries@),
                forall|j: int| 0 <= j < i ==> !shows(self.entries@, camera@, j),
            decreases n - i,
        {
            if str_eq(self.entries[i].camera.as_str(), camera) {
                proof {
                    lemma_unique_slot(self.entries@, camera@, i as int);
                }
                return Some(i);
            }
            i = i + 1;
        }
        None
    }

    /// Whether every signal can be given at `now` to the popup for `camera`: true when
    /// none is open.
    pub fn fits(&self, camera: &str, cfg: &Popup, now: u128) -> (r: bool)
        ensures
            r == popup_fits(self@, camera@, *cfg, now),
    {
        match self.index_of(camera) {
            None => true,
            Some(i) => {
                let t = self.entries[i].timing;
                let after_open = u128::MAX - t.opened_at;
                let after_now = u128::MAX - now;
                secs_to_nanos(cfg.min_display_seconds) <= after_open && secs_to_nanos(
                    cfg.max_display_seconds,
                ) <= after_open && secs_to_nanos(cfg.watchdog_seconds) <= after_now
                    && secs_to_nanos(cfg.linger_seconds) <= after_now
            },
        }
    }

    /// Adds a popup for a camera that has none yet; returns whether it was added.
    pub fn insert(&mut self, entry: Entry) -> (r: bool)
        ensures
            r == !holds(old(self)@, entry.camera@),
            r ==> final(self)@ == old(self)@.push(entry),
            !r ==> final(self)@ == old(self)@,
    {
        if self.index_of(entry.camera.as_str()).is_some() {
            return false;
        }
        proof {
            use_type_invariant(&*self);
            let s = self.entries@.push(entry);
            assert forall|a: int, b: int|
                0 <= a < s.len() && 0 <= b < s.len() && a != b implies #[trigger] s[a].camera@
                != #[trigger] s[b].camera@ by {
                if a == s.len() - 1 {
                    assert(!shows(self.entries@, entry.camera@, b));
                } else if b == s.len() - 1 {
                    assert(!shows(self.entries@, entry.camera@, a));
                }
            }
        }
        let mut entries = self.take_entries();
        entries.push(entry);
        self.entries = entries;
        true
    }

    /// Records a popup that has just been opened for `camera`, timed from `now`.
    /// Returns false, changing nothing, when one is already open for it.
    pub fn opened(&mut self, camera: String, cfg: &Popup, now: u128, pinned: bool) -> (r: bool)
        requires
            open_fits(*cfg, now),
        ensures
            r == !holds(old(self)@, camera@),
            r ==> final(self)@ == old(self)@.push(
                Entry { camera, timing: opened_timing(*cfg, now), hovered: false, pinned },
            ),
            !r ==> final(self)@ == old(self)@,
    {
        let timing = Timing::new(cfg, now);
        self.insert(Entry { camera, timing, hovered: false, pinned })
    }

    /// Drops the oldest popups until there is room for one more, returning the cameras
    /// evicted. Pure bookkeeping - the caller closes the windows and restacks.
    pub fn make_room(&mut self, max: usize) -> (r: Vec<String>)
        ensures
            ({
                let k = evictions(old(self)@.len(), max) as int;
                &&& string_views(r@) == cameras_of(old(self)@.take(k))
                &&& final(self)@ == old(self)@.skip(k)
            }),
            final(self)@.len() + 1 <= if max >= 1 {
                max as int
            } else {
                1
            },
    {
        let mut entries = self.take_entries();
        let ghost start = entries@;
        let m: usize = if max >= 1 {
            max
        } else {
            1
        };
        let mut evicted: Vec<String> = Vec::new();
        assert(start.skip(0) =~= start);
        assert(string_views(evicted@) =~= cameras_of(start.take(0)));
        while entries.len() >= m
            invariant
                m >= 1,
                m == (if max >= 1 {
                    max
                } else {
                    1
                }),
                evicted@.len() <= start.len(),
                evicted@.len() == 0 || start.len() - evicted@.len() >= m - 1,
                entries@ == start.skip(evicted@.len() as int),
                string_views(evicted@) == cameras_of(start.take(evicted@.len() as int)),
                unique_cameras(entries@),
            decreases entries@.len(),
        {
            let ghost k = evicted@.len() as int;
            proof {
                lemma_unique_remove(entries@, 0);
            }
            let oldest = entries.remove(0);
            assert(entries@ =~= start.skip(k + 1));
            let ghost prev = evicted@;
            evicted.push(oldest.camera);
            assert(string_views(evicted@) =~= string_views(prev).push(start[k].camera@));
            assert(cameras_of(start.take(k + 1)) =~= cameras_of(start.take(k)).push(
                start[k].camera@,
            ));
        }
        self.entries = entries;
        evicted
    }

    /// Feeds an event signal to the popup for `camera`, if one is open.
    pub fn note(&mut self, camera: &str, signal: Signal, cfg: &Popup, now: u128)
        requires
            holds(old(self)@, camera@) ==> apply_fits(
                old(self)@[slot_of(old(self)@, camera@)].timing,
                signal,
                *cfg,
                now,
            ),
        ensures
            noted(old(self)@, final(self)@, camera@, signal, *cfg, now),
    {
        if let Some(i) = self.index_of(camera) {
            proof {
                use_type_invariant(&*self);
                let e = self.entries@[i as int];
                lemma_unique_update(
                    self.entries@,
                    i as int,
                    Entry { timing: applied(e.timing, signal, *cfg, now), ..e },
                );
            }
            let mut entries = self.take_entries();
            entries[i].timing.apply(signal, cfg, now);
            self.entries = entries;
        }
    }

    pub fn set_hovered(&mut self, camera: &str, hovered: bool)
        ensures
            holds(old(self)@, camera@) ==> ({
                let k = slot_of(old(self)@, camera@);
                final(self)@ == old(self)@.update(k, Entry { hovered, ..old(self)@[k] })
            }),
            !holds(old(self)@, camera@) ==> final(self)@ == old(self)@,
    {
        if let Some(i) = self.index_of(camera) {
            proof {
                use_type_invariant(&*self);
                lemma_unique_update(
                    self.entries@,
                    i as int,
                    Entry { hovered, ..self.entries@[i as int] },
                );
            }
            let mut entries = self.take_entries();
            entries[i].hovered = hovered;
            self.entries = entries;
        }
    }

    /// Cameras whose popups are due to close. Hovered and pinned popups are held back.
    pub fn expired(&self, now: u128) -> (r: Vec<String>)
        ensures
            string_views(r@) == due_cameras(self@, now),
    {
        let n = self.entries.len();
        let mut r: Vec<String> = Vec::new();
        let mut i: usize = 0;
        assert(self.entries@.take(0) =~= Seq::<Entry>::empty());
        assert(string_views(r@) =~= Seq::<Seq<char>>::empty());
        while i < n
            invariant
                i <= n,
                n == self.entries@.len(),
                string_views(r@) == due_cameras(self.entries@.take(i as int), now),
            decreases n - i,
        {
            let e = &self.entries[i];
            assert(self.entries@.take(i as int + 1).drop_last() =~= self.entries@.take(i as int));
            if !e.hovered && !e.pinned && e.timing.is_expired(now) {
                let ghost prev = r@;
                r.push(e.camera.clone());
                assert(string_views(r@) =~= string_views(prev).push(e.camera@));
            }
            i = i + 1;
        }
        assert(self.entries@.take(n as int) =~= self.entries@);
        r
    }

    /// Drops `camera` from the stack and returns whether anything was removed.
    pub fn forget(&mut self, camera: &str) -> (r: bool)
        ensures
            r == holds(old(self)@, camera@),
            r ==> final(self)@ == old(self)@.remove(slot_of(old(self)@, camera@)),
            !r ==> final(self)@ == old(self)@,
            !holds(final(self)@, camera@),
    {
        match self.index_of(camera) {
            Some(i) => {
                proof {
                    use_type_invariant(&*self);
                    lemma_unique_remove(self.entries@, i as int);
                }
                let mut entries = self.take_entries();
                entries.remove(i);
                self.entries = entries;
                true
            },
            None => false,
        }
    }

    /// First half of opening a popup for `camera`.
    ///
    /// When one is already open it is refreshed instead (treated as activity, and pinned
    /// if this request is pinned). Otherwise, at `max_popups`, the oldest are evicted to
    /// make room - a new detection is more interesting than one that has been sitting
    /// there - and the step says which windows to close, where the survivors must slide
    /// to before the new window opens, and the slot the new window takes. Once its window
    /// exists, the caller records it with `opened`.
    pub fn prepare_open(&mut self, camera: &str, cfg: &Popup, now: u128, pinned: bool) -> (r:
        OpenStep)
        requires
            holds(old(self)@, camera@) ==> apply_fits(
                old(self)@[slot_of(old(self)@, camera@)].timing,
                Signal::Active,
                *cfg,
                now,
            ),
        ensures
            open_prepared(old(self)@, final(self)@, r, camera@, *cfg, now, pinned),
    {
        if let Some(i) = self.index_of(camera) {
            let ghost start = self@;
            let ghost e = start[i as int];
            let ghost refreshed = Entry {
                timing: applied(e.timing, Signal::Active, *cfg, now),
                pinned: e.pinned || pinned,
                ..e
            };
            proof {
                use_type_invariant(&*self);
                lemma_unique_update(self.entries@, i as int, refreshed);
            }
            let mut entries = self.take_entries();
            entries[i].timing.apply(Signal::Active, cfg, now);
            // Asking for it from the tray pins one that was opened by a detection.
            entries[i].pinned = entries[i].pinned || pinned;
            self.entries = entries;
            assert(self@ =~= start.update(i as int, refreshed));
            return OpenStep::Refreshed;
        }
        let ghost before = self@;
        let evicted = self.make_room(cfg.max_popups);
        proof {
            let k = evictions(before.len(), cfg.max_popups) as int;
            assert forall|j: int| 0 <= j < self@.len() implies !shows(self@, camera@, j) by {
                assert(self@[j] == before[j + k]);
                assert(!shows(before, camera@, j + k));
            }
        }
        // Survivors have to slide down into the freed slots before the new popup takes
        // the next one, or it opens on top of a window that never moved.
        assert(string_views(evicted@).len() == evicted@.len());
        let restack = if evicted.len() > 0 {
            self.slots()
        } else {
            Vec::new()
        };
        proof {
            if evicted@.len() == 0 {
                assert(slot_views(restack@) =~= Seq::<(Seq<char>, usize)>::empty());
            }
        }
        let slot = self.entries.len();
        OpenStep::Place { evicted, restack, slot }
    }

    /// Removes every popup due to close at `now`, keeping the order of the rest.
    fn drop_due(&mut self, now: u128)
        ensures
            final(self)@ == survivors(old(self)@, now),
    {
        let mut entries = self.take_entries();
        let ghost start = entries@;
        let n = entries.len();
        let mut i: usize = 0;
        let mut j: usize = 0;
        assert(start.take(0) =~= Seq::<Entry>::empty());
        assert(entries@ =~= survivors(start.take(0), now) + start.skip(0));
        while j < n
            invariant
                n == start.len(),
                j <= n,
                i <= j,
                i == survivors(start.take(j as int), now).len(),
                entries@ == survivors(start.take(j as int), now) + start.skip(j as int),
                unique_cameras(entries@),
            decreases n - j,
        {
            assert(start.take(j as int + 1).drop_last() =~= start.take(j as int));
            assert(entries@[i as int] == start[j as int]);
            if !entries[i].hovered && !entries[i].pinned && entries[i].timing.is_expired(now) {
                proof {
                    lemma_unique_remove(entries@, i as int);
                }
                entries.remove(i);
                assert(entries@ =~= survivors(start.take(j as int + 1), now) + start.skip(
                    j as int + 1,
                ));
            } else {
                assert(entries@ =~= survivors(start.take(j as int + 1), now) + start.skip(
                    j as int + 1,
                ));
                i = i + 1;
            }
            j = j + 1;
        }
        assert(start.take(start.len() as int) =~= start);
        assert(entries@ =~= survivors(start, now));
        self.entries = entries;
    }

    /// Slot each remaining popup should now occupy, after something closed above it.
    pub fn slots(&self) -> (r: Vec<(String, usize)>)
        ensures
            slot_views(r@) == slots_of(self@),
    {
        let n = self.entries.len();
        let mut r: Vec<(String, usize)> = Vec::new();
        let mut i: usize = 0;
        while i < n
            invariant
                i <= n,
                n == self.entries@.len(),
                slot_views(r@) == slots_of(self.entries@).take(i as int),
            decreases n - i,
        {
            let ghost prev = r@;
            r.push((self.entries[i].camera.clone(), i));
            assert(slot_views(r@) =~= slots_of(self.entries@).take(i as int + 1)) by {
                assert(slot_views(r@) =~= slot_views(prev).push((self.entries@[i as int].camera@, i)));
            }
            i = i + 1;
        }
        assert(slots_of(self.entries@).take(n as int) =~= slots_of(self.entries@));
        r
    }
}


/// `after` is `before` once a popup for `camera` has been asked for at `now`, and `step`
/// what remains to do: an open popup is refreshed as activity (and pinned if `pinned`);
/// otherwise the oldest are evicted to make room, the survivors restacked when any went,
/// and the new popup's slot is the next one.
pub open spec fn open_prepared(
    before: Seq<Entry>,
    after: Seq<Entry>,
    step: OpenStep,
    camera: Seq<char>,
    cfg: Popup,
    now: u128,
    pinned: bool,
) -> bool {
    &&& holds(before, camera) ==> ({
        let k = slot_of(before, camera);
        let e = before[k];
        &&& step is Refreshed
        &&& after == before.update(
            k,
            Entry { timing: applied(e.timing, Signal::Active, cfg, now), pinned: e.pinned || pinned, ..e },
        )
    })
    &&& !holds(before, camera) ==> ({
        let k = evictions(before.len(), cfg.max_popups) as int;
        match step {
            OpenStep::Place { evicted, restack, slot } => {
                &&& string_views(evicted@) == cameras_of(before.take(k))
                &&& after == before.skip(k)
                &&& slot_views(restack@) == (if k == 0 {
                    Seq::<(Seq<char>, usize)>::empty()
                } else {
                    slots_of(after)
                })
                &&& slot == after.len()
                &&& !holds(after, camera)
            },
            OpenStep::Refreshed => false,
        }
    })
}

/// `after` is `before` with the popup for `camera`, when one is open, given `signal` at
/// `now`; nothing else changes.
pub open spec fn noted(
    before: Seq<Entry>,
    after: Seq<Entry>,
    camera: Seq<char>,
    signal: Signal,
    cfg: Popup,
    now: u128,
) -> bool {
    if holds(before, camera) {
        let k = slot_of(before, camera);
        let e = before[k];
        after == before.update(k, Entry { timing: applied(e.timing, signal, cfg, now), ..e })
    } else {
        after == before
    }
}

/// The outcome of `Popups::prepare_open`.
#[derive(Debug)]
pub enum OpenStep {
    /// A popup was already open for the camera; its deadline was pushed out.
    Refreshed,
    /// Close `evicted`, move each of `restack` to its slot, then open the new popup in
    /// `slot`.
    Place { evicted: Vec<String>, restack: Vec<(String, usize)>, slot: usize },
}

/// What a sweep decided to do. Computed under the lock, applied without it, so a window
/// call can never block while the popup state is held.
#[derive(Debug, PartialEq, Eq)]
pub struct Plan {
    pub close: Vec<String>,
    pub restack: Vec<(String, usize)>,
}

impl Default for Plan {
    fn default() -> (r: Self)
        ensures
            r.close@.len() == 0,
            r.restack@.len() == 0,
    {
        Plan { close: Vec::new(), restack: Vec::new() }
    }
}

impl Plan {
    pub fn is_empty(&self) -> (r: bool)
        ensures
            r == (self.close@.len() == 0 && self.restack@.len() == 0),
    {
        self.close.len() == 0 && self.restack.len() == 0
    }
}

/// Decides which popups have expired and where the survivors belong, and drops the
/// expired ones from the stack.
pub fn plan(popups: &mut Popups, now: u128) -> (r: Plan)
    ensures
        string_views(r.close@) == due_cameras(old(popups)@, now),
        due_cameras(old(popups)@, now).len() == 0 ==> ({
            &&& final(popups)@ == old(popups)@
            &&& r.restack@.len() == 0
        }),
        due_cameras(old(popups)@, now).len() > 0 ==> ({
            &&& final(popups)@ == survivors(old(popups)@, now)
            &&& slot_views(r.restack@) == slots_of(final(popups)@)
        }),
        due_cameras(final(popups)@, now).len() == 0,
{
    let close = popups.expired(now);
    if close.len() == 0 {
        return Plan { close, restack: Vec::new() };
    }
    let ghost before = popups@;
    popups.drop_due(now);
    proof {
        lemma_survivors_not_due(before, now);
    }
    let restack = popups.slots();
    Plan { close, restack }
}

/// Nothing that survives a sweep at `now` is due at `now`.
pub proof fn lemma_survivors_not_due(s: Seq<Entry>, now: u128)
    ensures
        due_cameras(survivors(s, now), now).len() == 0,
        forall|i: int| 0 <= i < survivors(s, now).len() ==> !due(#[trigger] survivors(s, now)[i], now),
    decreases s.len(),
{
    if s.len() > 0 {
        lemma_survivors_not_due(s.drop_last(), now);
        let r = survivors(s.drop_last(), now);
        if !due(s.last(), now) {
            assert(r.push(s.last()).drop_last() =~= r);
        }
    }
}

/// A popup under the pointer is never closed by a sweep, however late it is: its camera
/// is not among those due, and it survives.
pub proof fn hovered_popups_are_held_back(s: Seq<Entry>, now: u128, i: int)
    requires
        unique_cameras(s),
        0 <= i < s.len(),
        s[i].hovered || s[i].pinned,
    ensures
        !due_cameras(s, now).contains(s[i].camera@),
        survivors(s, now).contains(s[i]),
    decreases s.len(),
{
    let t = s.drop_last();
    assert(unique_cameras(t)) by {
        assert forall|a: int, b: int|
            0 <= a < t.len() && 0 <= b < t.len() && a != b implies #[trigger] t[a].camera@
            != #[trigger] t[b].camera@ by {
            assert(t[a] == s[a] && t[b] == s[b]);
        }
    }
    if i == s.len() - 1 {
        lemma_due_cameras_from(t, now);
        if due_cameras(s, now).contains(s[i].camera@) {
            assert(due_cameras(s, now) == due_cameras(t, now));
            let k = choose|k: int| 0 <= k < due_cameras(t, now).len() && due_cameras(t, now)[k] == s[i].camera@;
            assert(due_cameras(t, now)[k] == s[i].camera@);
            let j = choose|j: int| 0 <= j < t.len() && t[j].camera@ == due_cameras(t, now)[k];
            assert(t[j] == s[j]);
        }
        assert(survivors(s, now) == survivors(t, now).push(s[i]));
        assert(survivors(s, now)[survivors(s, now).len() - 1] == s[i]);
    } else {
        assert(t[i] == s[i]);
        hovered_popups_are_held_back(t, now, i);
        if due_cameras(s, now).contains(s[i].camera@) {
            let k = choose|k: int| 0 <= k < due_cameras(s, now).len() && due_cameras(s, now)[k] == s[i].camera@;
            if k == due_cameras(s, now).len() - 1 && due(s.last(), now) {
                assert(s.last().camera@ == s[i].camera@);
                assert(s[s.len() - 1].camera@ != s[i].camera@);
            } else {
                assert(due_cameras(t, now)[k] == s[i].camera@);
            }
        }
        let r = survivors(t, now);
        let j = choose|j: int| 0 <= j < r.len() && r[j] == s[i];
        if !due(s.last(), now) {
            assert(survivors(s, now)[j] == s[i]);
        }
    }
}

/// Opening a popup never leaves more than `max_popups` on screen (a maximum of zero is
/// treated as one): after the evictions `prepare_open` makes, the new popup fits.
pub proof fn popup_count_stays_within_max(s: Seq<Entry>, max: usize, e: Entry)
    ensures
        s.skip(evictions(s.len(), max) as int).push(e).len() <= if max >= 1 {
            max as int
        } else {
            1
        },
{
}

/// The new popup takes the slot right after the survivors, which keep their order and
/// close up into slots `0..` - so it never opens on top of a window that did not move.
pub proof fn a_new_popup_stacks_after_the_survivors(s: Seq<Entry>, max: usize, e: Entry)
    ensures
        ({
            let kept = s.skip(evictions(s.len(), max) as int);
            slots_of(kept.push(e)) == slots_of(kept).push((e.camera@, kept.len() as usize))
        }),
{
    let kept = s.skip(evictions(s.len(), max) as int);
    assert(slots_of(kept.push(e)) =~= slots_of(kept).push((e.camera@, kept.len() as usize)));
}

/// Every camera reported due belongs to some entry.
proof fn lemma_due_cameras_from(s: Seq<Entry>, now: u128)
    ensures
        forall|k: int| #![trigger due_cameras(s, now)[k]]
            0 <= k < due_cameras(s, now).len() ==> exists|j: int|
                0 <= j < s.len() && s[j].camera@ == due_cameras(s, now)[k],
    decreases s.len(),
{
    if s.len() > 0 {
        let t = s.drop_last();
        lemma_due_cameras_from(t, now);
        let d = due_cameras(s, now);
        let dt = due_cameras(t, now);
        assert(d == (if due(s.last(), now) {
            dt.push(s.last().camera@)
        } else {
            dt
        }));
        assert forall|k: int| #![trigger d[k]] 0 <= k < d.len() implies exists|j: int|
            0 <= j < s.len() && s[j].camera@ == d[k] by {
            if k < dt.len() {
                assert(d[k] == dt[k]);
                let j = choose|j: int| 0 <= j < t.len() && t[j].camera@ == dt[k];
                assert(s[j] == t[j]);
            } else {
                assert(s[s.len() - 1].camera@ == d[k]);
            }
        }
    }
}


/// Asking for a popup that is already open never unpins it, nor any other: it stays on
/// the stack, in its slot, pinned when it was pinned or the request is, while every other
/// popup keeps its camera and its pinning.
pub proof fn refreshing_never_unpins(
    before: Seq<Entry>,
    after: Seq<Entry>,
    step: OpenStep,
    camera: Seq<char>,
    cfg: Popup,
    now: u128,
    pinned: bool,
)
    requires
        unique_cameras(before),
        open_prepared(before, after, step, camera, cfg, now, pinned),
        exists|i: int| 0 <= i < before.len() && #[trigger] before[i].camera@ == camera,
    ensures
        step is Refreshed,
        after.len() == before.len(),
        forall|k: int|
            0 <= k < before.len() ==> {
                &&& #[trigger] after[k].camera == before[k].camera
                &&& after[k].pinned == (if before[k].camera@ == camera {
                    before[k].pinned || pinned
                } else {
                    before[k].pinned
                })
            },
        forall|k: int| 0 <= k < before.len() && #[trigger] before[k].pinned ==> after[k].pinned,
{
    let i = choose|i: int| 0 <= i < before.len() && #[trigger] before[i].camera@ == camera;
    assert(shows(before, camera, i));
    lemma_unique_slot(before, camera, i);
    assert forall|k: int| 0 <= k < before.len() && k != i implies before[k].camera@ != camera by {
        assert(before[k].camera@ != before[i].camera@);
    }
}

} // verus!
