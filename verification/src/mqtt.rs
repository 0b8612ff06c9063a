//! The decisions behind the MQTT client: the subscription topic, the reconnect backoff,
//! per-event cadence tracking, the lifecycle signal an event carries, and the fake
//! detection that `--simulate` injects.

use vstd::prelude::*;
use crate::config::Config;
use crate::events::{Decision, EventType, FrigateEvent, TrackedObject, Triggers, evaluate_spec};
use crate::keyed::{
    lemma_map_push, lemma_map_remove, lemma_map_size, lemma_map_update, lookup_map, position,
    unique_keys,
};
use crate::lifecycle::{OpenStep, Popups, Signal, holds, noted, open_prepared, popup_fits};
use crate::text::{cat, owned, string_views};

verus! {

/// Shortest wait before reconnecting, in milliseconds.
pub const MIN_BACKOFF_MS: u64 = 1000;

/// Longest wait before reconnecting, in milliseconds.
pub const MAX_BACKOFF_MS: u64 = 60000;

/// Cap on the cadence table so a flood of events cannot grow it without bound.
pub const MAX_TRACKED_EVENTS: usize = 256;

/// The topic Frigate publishes its events on.
pub fn events_topic(config: &Config) -> (r: String)
    ensures
        r@ == config.mqtt.topic_prefix@ + "/events"@,
{
    cat(config.mqtt.topic_prefix.as_str(), "/events")
}

/// How to log in to the broker.
#[derive(Debug, PartialEq, Eq)]
pub enum Login {
    /// No username configured.
    Anonymous,
    /// The username with its password.
    WithPassword { username: String, password: String },
    /// A username but no password was supplied; connect without one.
    WithoutPassword { username: String },
    /// A username whose password could not be resolved; do not connect.
    Unresolved { error: String },
}

/// The broker login. `env_value` is the value of the environment variable that
/// `mqtt.password_env` names, when it is set.
pub fn login(config: &Config, env_value: Option<String>) -> (r: Login)
    ensures
        match config.mqtt.username {
            None => r == Login::Anonymous,
            Some(u) => match (config.mqtt.password, config.mqtt.password_env, env_value) {
                (Some(p), _, _) => r matches Login::WithPassword { username, password }
                    && username@ == u@ && password@ == p@,
                (None, Some(var), Some(v)) => r matches Login::WithPassword { username, password }
                    && username@ == u@ && password@ == v@,
                (None, Some(var), None) => r matches Login::Unresolved { error } && error@
                    == "reading MQTT password from environment variable `"@ + var@ + "`"@,
                (None, None, _) => r matches Login::WithoutPassword { username } && username@ == u@,
            },
        },
{
    match &config.mqtt.username {
        None => Login::Anonymous,
        Some(u) => match config.mqtt_password(env_value) {
            Ok(Some(password)) => Login::WithPassword { username: u.clone(), password },
            Ok(None) => Login::WithoutPassword { username: u.clone() },
            Err(error) => Login::Unresolved { error },
        },
    }
}

/// The wait after a failed connection attempt that waited `backoff_ms`: twice as long,
/// up to the maximum.
pub fn next_backoff(backoff_ms: u64) -> (r: u64)
    ensures
        r == if 2 * backoff_ms <= MAX_BACKOFF_MS {
            2 * backoff_ms
        } else {
            MAX_BACKOFF_MS as int
        },
{
    if backoff_ms <= MAX_BACKOFF_MS / 2 {
        backoff_ms * 2
    } else {
        MAX_BACKOFF_MS
    }
}

/// Repeated failures never wait longer than the maximum, and never less than they did.
pub proof fn backoff_is_bounded(b: u64)
    requires
        MIN_BACKOFF_MS <= b <= MAX_BACKOFF_MS,
    ensures
        ({
            let n = if 2 * b <= MAX_BACKOFF_MS {
                2 * b
            } else {
                MAX_BACKOFF_MS as int
            };
            b <= n <= MAX_BACKOFF_MS
        }),
{
}

/// What the broker connection just reported.
#[derive(Clone, Copy, Debug, PartialEq, Eq)]
pub enum LinkEvent {
    /// The broker acknowledged the connection.
    Connected,
    /// A message arrived on a subscribed topic.
    Message,
    /// Anything else the connection reported.
    Other,
    /// The connection failed.
    Failed,
}

/// What the client does about a `LinkEvent`.
#[derive(Clone, Copy, Debug, PartialEq, Eq)]
pub enum LinkAction {
    /// Subscribe to the events topic: the session is clean, so a reconnect starts with
    /// no subscriptions at all.
    Subscribe,
    /// Handle the message.
    Handle,
    /// Nothing to do.
    Ignore,
    /// Wait this many milliseconds, then try again.
    Retry { wait_ms: u64 },
}

/// One step of the client loop, as `on_link_event` takes it.
pub open spec fn link_step(backoff_ms: u64, event: LinkEvent) -> (LinkAction, u64) {
    match event {
        LinkEvent::Connected => (LinkAction::Subscribe, MIN_BACKOFF_MS),
        LinkEvent::Message => (LinkAction::Handle, backoff_ms),
        LinkEvent::Other => (LinkAction::Ignore, backoff_ms),
        LinkEvent::Failed => (
            LinkAction::Retry { wait_ms: backoff_ms },
            if backoff_ms <= MAX_BACKOFF_MS / 2 {
                (2 * backoff_ms) as u64
            } else {
                MAX_BACKOFF_MS
            },
        ),
    }
}

/// The backoff after the client loop has seen `events`, starting from `backoff_ms`.
pub open spec fn backoff_after(backoff_ms: u64, events: Seq<LinkEvent>) -> u64
    decreases events.len(),
{
    if events.len() == 0 {
        backoff_ms
    } else {
        link_step(backoff_after(backoff_ms, events.drop_last()), events.last()).1
    }
}

/// However the connection behaves, the client waits between one second and a minute
/// before a retry, and a connection always brings the wait back to one second.
pub proof fn the_backoff_stays_within_its_bounds(events: Seq<LinkEvent>)
    ensures
        MIN_BACKOFF_MS <= backoff_after(MIN_BACKOFF_MS, events) <= MAX_BACKOFF_MS,
        events.len() > 0 && events.last() == LinkEvent::Connected ==> backoff_after(
            MIN_BACKOFF_MS,
            events,
        ) == MIN_BACKOFF_MS,
    decreases events.len(),
{
    if events.len() > 0 {
        the_backoff_stays_within_its_bounds(events.drop_last());
    }
}

/// One step of the client loop: the action for `event` and the backoff to carry on with.
/// A connection resets the backoff; a failure waits the current backoff, then doubles it
/// up to the maximum.
pub fn on_link_event(backoff_ms: u64, event: LinkEvent) -> (r: (LinkAction, u64))
    ensures
        r == link_step(backoff_ms, event),
{
    match event {
        LinkEvent::Connected => (LinkAction::Subscribe, MIN_BACKOFF_MS),
        LinkEvent::Message => (LinkAction::Handle, backoff_ms),
        LinkEvent::Other => (LinkAction::Ignore, backoff_ms),
        LinkEvent::Failed => (LinkAction::Retry { wait_ms: backoff_ms }, next_backoff(backoff_ms)),
    }
}

/// The lifecycle signal an event carries for a popup already open on its camera.
pub open spec fn signal_spec(e: FrigateEvent) -> Option<Signal> {
    match e.event_type {
        EventType::End => Some(Signal::Ended),
        EventType::Update => if e.after.stationary {
            Some(Signal::Stationary)
        } else {
            Some(Signal::Active)
        },
        EventType::New | EventType::Unknown => None,
    }
}

/// Whatever the trigger decided, an open popup follows what its object is doing: an
/// `end` starts the linger, an `update` is activity unless the object stopped moving.
pub fn signal_for(event: &FrigateEvent) -> (r: Option<Signal>)
    ensures
        r == signal_spec(*event),
{
    match event.event_type {
        EventType::End => Some(Signal::Ended),
        EventType::Update => if event.after.stationary {
            Some(Signal::Stationary)
        } else {
            Some(Signal::Active)
        },
        EventType::New | EventType::Unknown => None,
    }
}

/// What one event did: the trigger's decision, the opening step when it fired, and the
/// signal given to the camera's open popup, if any.
#[derive(Debug)]
pub struct EventStep {
    pub decision: Decision,
    /// Set when the decision fired: what the caller must still do on screen, recording
    /// the new popup with `Popups::opened` once its window exists.
    pub open: Option<OpenStep>,
    /// The signal the event carried to its camera's popup, when one was open.
    pub noted: Option<Signal>,
}

/// One event through the decision path. The trigger decides whether it opens a popup -
/// only a `new` event can - and, whatever it decided, an `update` or `end` still reaches
/// the popup already open on its camera: an event skipped for cooldown must keep its
/// window alive.
pub fn on_event(
    triggers: &mut Triggers,
    popups: &mut Popups,
    config: &Config,
    event: &FrigateEvent,
    now: u128,
) -> (r: EventStep)
    requires
        popup_fits(old(popups)@, event.after.camera@, config.popup, now),
    ensures
        r.decision@ == evaluate_spec(old(triggers)@, *config, *event, now),
        final(triggers)@.paused == old(triggers)@.paused,
        final(triggers)@.last_fired == (if r.decision@ is Fire {
            old(triggers)@.last_fired.insert(event.after.camera@, now)
        } else {
            old(triggers)@.last_fired
        }),
        r.decision@ is Fire ==> (r.open matches Some(step) && open_prepared(
            old(popups)@,
            final(popups)@,
            step,
            event.after.camera@,
            config.popup,
            now,
            false,
        )),
        !(r.decision@ is Fire) ==> r.open is None,
        signal_spec(*event) matches Some(s) ==> noted(
            old(popups)@,
            final(popups)@,
            event.after.camera@,
            s,
            config.popup,
            now,
        ),
        signal_spec(*event) is None && !(r.decision@ is Fire) ==> final(popups)@ == old(popups)@,
        r.noted == (if holds(old(popups)@, event.after.camera@) {
            signal_spec(*event)
        } else {
            None
        }),
{
    let decision = triggers.decide(config, event, now);
    let camera = event.after.camera.as_str();
    let open = match &decision {
        Decision::Fire { .. } => Some(popups.prepare_open(camera, &config.popup, now, false)),
        Decision::Skip(_) => None,
    };
    let open_before = popups.has(camera);
    let noted = match signal_for(event) {
        Some(signal) => {
            if open_before {
                popups.note(camera, signal, &config.popup, now);
                Some(signal)
            } else {
                None
            }
        },
        None => None,
    };
    EventStep { decision, open, noted }
}

/// A realistic `new` detection for `camera` with `label`, so the whole decision path can
/// be exercised without waiting for someone to walk past a camera.
pub fn simulated_event(camera: &str, label: &str) -> (r: FrigateEvent)
    ensures
        r.event_type == EventType::New,
        r.before is None,
        r.after.id@ == "simulated-"@ + camera@,
        r.after.camera@ == camera@,
        r.after.label@ == label@,
        r.after.current_zones@.len() == 0,
        r.after.entered_zones@.len() == 0,
        !r.after.has_snapshot,
        !r.after.has_clip,
        !r.after.false_positive,
        !r.after.stationary,
{
    FrigateEvent {
        event_type: EventType::New,
        before: None,
        after: TrackedObject {
            id: cat("simulated-", camera),
            camera: owned(camera),
            label: owned(label),
            current_zones: Vec::new(),
            entered_zones: Vec::new(),
            has_snapshot: false,
            has_clip: false,
            false_positive: false,
            stationary: false,
        },
    }
}

/// When a tracked object was first seen and last heard from, in nanoseconds.
///
/// Both are needed: `last` gives the inter-message gap, `first` the total lifetime.
#[derive(Clone, Copy, Debug, PartialEq, Eq)]
pub struct EventTiming {
    pub first: u128,
    pub last: u128,
}

/// What recording an event measured, for the log.
#[derive(Clone, Copy, Debug, PartialEq, Eq)]
pub enum CadenceNote {
    /// A `new` event started tracking; `reset` when the table was full and was cleared.
    Started { reset: bool },
    /// An `update` for a tracked event: the gap since the last message and its age.
    Update { gap: u128, age: u128 },
    /// An `end` for a tracked event: its whole lifetime and the gap since the last message.
    Ended { lifetime: u128, since_last: u128 },
    /// Nothing was tracked for it, or the event type carries no timing.
    Untracked,
}

/// `later - earlier`, or zero when `later` is the earlier one.
pub open spec fn since(later: u128, earlier: u128) -> u128 {
    if later >= earlier {
        (later - earlier) as u128
    } else {
        0
    }
}

fn saturating_since(later: u128, earlier: u128) -> (r: u128)
    ensures
        r == since(later, earlier),
{
    if later >= earlier {
        later - earlier
    } else {
        0
    }
}

/// Per-event message timing, keyed by event id.
///
/// Frigate publishes `update` on meaningful changes rather than on a timer, so the real
/// cadence has to be observed before a watchdog can be tuned to it.
#[derive(Debug)]
pub struct Cadence {
    entries: Vec<(String, EventTiming)>,
}

impl View for Cadence {
    type V = Map<Seq<char>, EventTiming>;

    closed spec fn view(&self) -> Map<Seq<char>, EventTiming> {
        lookup_map(self.entries@)
    }
}

/// The table after recording an event of type `kind` for `id` at `now`.
pub open spec fn recorded(
    m: Map<Seq<char>, EventTiming>,
    full: bool,
    kind: EventType,
    id: Seq<char>,
    now: u128,
) -> Map<Seq<char>, EventTiming> {
    match kind {
        EventType::New => if full {
            Map::<Seq<char>, EventTiming>::empty().insert(id, EventTiming { first: now, last: now })
        } else {
            m.insert(id, EventTiming { first: now, last: now })
        },
        EventType::Update => if m.contains_key(id) {
            m.insert(id, EventTiming { first: m[id].first, last: now })
        } else {
            m
        },
        EventType::End => m.remove(id),
        EventType::Unknown => m,
    }
}

impl Cadence {
    #[verifier::type_invariant]
    closed spec fn inv(self) -> bool {
        &&& unique_keys(self.entries@)
        &&& self.entries@.len() <= MAX_TRACKED_EVENTS
    }

    pub fn new() -> (r: Self)
        ensures
            r@ == Map::<Seq<char>, EventTiming>::empty(),
    {
        let r = Cadence { entries: Vec::new() };
        assert(r@ =~= Map::<Seq<char>, EventTiming>::empty());
        r
    }

    /// How many events are tracked; never more than the cap.
    pub fn len(&self) -> (r: usize)
        ensures
            self@.dom().finite(),
            r == self@.dom().len(),
            r <= MAX_TRACKED_EVENTS,
    {
        proof {
            use_type_invariant(self);
            lemma_map_size(self.entries@);
        }
        self.entries.len()
    }

    pub fn is_empty(&self) -> (r: bool)
        ensures
            r == (self@.dom().len() == 0),
    {
        proof {
            use_type_invariant(self);
            lemma_map_size(self.entries@);
        }
        self.entries.len() == 0
    }

    /// The table never holds more than the cap.
    pub fn stays_bounded(&self)
        ensures
            self@.dom().finite(),
            self@.dom().len() <= MAX_TRACKED_EVENTS,
    {
        proof {
            use_type_invariant(self);
            lemma_map_size(self.entries@);
        }
    }

    /// When the event `id` was first seen and last heard from, if it is tracked.
    pub fn get(&self, id: &str) -> (r: Option<EventTiming>)
        ensures
            r == (if self@.contains_key(id@) {
                Some(self@[id@])
            } else {
                None::<EventTiming>
            }),
    {
        match position(&self.entries, id) {
            Some(i) => Some(self.entries[i].1),
            None => None,
        }
    }

    /// Records one event at `now`: `new` starts tracking (clearing the table first when
    /// it is at the cap), `update` refreshes the last-heard time, `end` stops tracking.
    pub fn record(&mut self, kind: EventType, id: &str, now: u128) -> (r: CadenceNote)
        ensures
            old(self)@.dom().finite(),
            final(self)@ == recorded(old(self)@, old(self)@.dom().len() >= MAX_TRACKED_EVENTS, kind, id@, now),
            final(self)@.dom().finite(),
            final(self)@.dom().len() <= MAX_TRACKED_EVENTS,
            match kind {
                EventType::New => r == CadenceNote::Started {
                    reset: old(self)@.dom().len() >= MAX_TRACKED_EVENTS,
                },
                EventType::Update => if old(self)@.contains_key(id@) {
                    r == CadenceNote::Update {
                        gap: since(now, old(self)@[id@].last),
                        age: since(now, old(self)@[id@].first),
                    }
                } else {
                    r == CadenceNote::Untracked
                },
                EventType::End => if old(self)@.contains_key(id@) {
                    r == CadenceNote::Ended {
                        lifetime: since(now, old(self)@[id@].first),
                        since_last: since(now, old(self)@[id@].last),
                    }
                } else {
                    r == CadenceNote::Untracked
                },
                EventType::Unknown => r == CadenceNote::Untracked,
            },
    {
        proof {
            use_type_invariant(&*self);
            lemma_map_size(self.entries@);
        }
        let mut entries: Vec<(String, EventTiming)> = Vec::new();
        std::mem::swap(&mut entries, &mut self.entries);
        let ghost v = entries@;
        let note = match kind {
            EventType::New => {
                let reset = entries.len() >= MAX_TRACKED_EVENTS;
                if reset {
                    entries.clear();
                    assert(lookup_map(entries@) =~= Map::<Seq<char>, EventTiming>::empty());
                }
                let ghost w = entries@;
                let fresh = EventTiming { first: now, last: now };
                match position(&entries, id) {
                    Some(i) => {
                        entries[i].1 = fresh;
                        proof {
                            assert(entries@ =~= w.update(i as int, (w[i as int].0, fresh)));
                            lemma_map_update(w, i as int, fresh);
                            assert forall|a: int, b: int|
                                0 <= a < entries@.len() && 0 <= b < entries@.len() && a != b implies #[trigger] entries@[a].0@
                                != #[trigger] entries@[b].0@ by {
                                assert(entries@[a].0 == w[a].0 && entries@[b].0 == w[b].0);
                            }
                        }
                    },
                    None => {
                        let x = (owned(id), fresh);
                        entries.push(x);
                        proof {
                            lemma_map_push(w, x);
                            assert forall|a: int, b: int|
                                0 <= a < entries@.len() && 0 <= b < entries@.len() && a != b implies #[trigger] entries@[a].0@
                                != #[trigger] entries@[b].0@ by {
                                if a < w.len() && b < w.len() {
                                    assert(entries@[a] == w[a] && entries@[b] == w[b]);
                                } else if a < w.len() {
                                    assert(entries@[a] == w[a]);
                                } else {
                                    assert(entries@[b] == w[b]);
                                }
                            }
                        }
                    },
                }
                CadenceNote::Started { reset }
            },
            EventType::Update => {
                match position(&entries, id) {
                    Some(i) => {
                        let t = entries[i].1;
                        let gap = saturating_since(now, t.last);
                        let age = saturating_since(now, t.first);
                        let updated = EventTiming { first: t.first, last: now };
                        entries[i].1 = updated;
                        proof {
                            assert(entries@ =~= v.update(i as int, (v[i as int].0, updated)));
                            lemma_map_update(v, i as int, updated);
                            assert forall|a: int, b: int|
                                0 <= a < entries@.len() && 0 <= b < entries@.len() && a != b implies #[trigger] entries@[a].0@
                                != #[trigger] entries@[b].0@ by {
                                assert(entries@[a].0 == v[a].0 && entries@[b].0 == v[b].0);
                            }
                        }
                        CadenceNote::Update { gap, age }
                    },
                    None => CadenceNote::Untracked,
                }
            },
            EventType::End => {
                match position(&entries, id) {
                    Some(i) => {
                        let t = entries[i].1;
                        proof {
                            lemma_map_remove(v, i as int);
                        }
                        entries.remove(i);
                        CadenceNote::Ended {
                            lifetime: saturating_since(now, t.first),
                            since_last: saturating_since(now, t.last),
                        }
                    },
                    None => {
                        assert(lookup_map(v) =~= lookup_map(v).remove(id@));
                        CadenceNote::Untracked
                    },
                }
            },
            EventType::Unknown => CadenceNote::Untracked,
        };
        proof {
            lemma_map_size(entries@);
        }
        self.entries = entries;
        note
    }
}

} // verus!
