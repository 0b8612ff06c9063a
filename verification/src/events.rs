//! Frigate events and the trigger decision.
//!
//! Free of I/O and of any clock: `Triggers::evaluate` takes `&self` and an explicit
//! `now`; recording a fire is a separate call, which keeps the interesting logic pure.

use vstd::prelude::*;
use crate::config::{Camera, Config, find_camera, labels_for_spec, cooldown_for_spec};
use crate::lifecycle::nanos;
use crate::keyed::{lemma_map_push, lemma_map_update, lookup_map, position};
use crate::text::{contains_str, copy_strings, owned, string_views};

verus! {

/// The `type` of a Frigate event.
#[derive(Clone, Copy, Debug, PartialEq, Eq)]
pub enum EventType {
    New,
    Update,
    End,
    /// Anything a future Frigate version introduces. Ignored, never fatal.
    Unknown,
}

impl EventType {
    /// The wire name of the event type.
    pub fn as_str(self) -> (r: &'static str)
        ensures
            r@ == match self {
                EventType::New => "new"@,
                EventType::Update => "update"@,
                EventType::End => "end"@,
                EventType::Unknown => "unknown"@,
            },
    {
        match self {
            EventType::New => "new",
            EventType::Update => "update",
            EventType::End => "end",
            EventType::Unknown => "unknown",
        }
    }
}

/// The object an event is about: the fields the decisions read.
#[derive(Debug)]
pub struct TrackedObject {
    pub id: String,
    pub camera: String,
    pub label: String,
    pub current_zones: Vec<String>,
    pub entered_zones: Vec<String>,
    pub has_snapshot: bool,
    pub has_clip: bool,
    pub false_positive: bool,
    pub stationary: bool,
}

/// One message from `frigate/events`.
#[derive(Debug)]
pub struct FrigateEvent {
    pub event_type: EventType,
    pub before: Option<TrackedObject>,
    pub after: TrackedObject,
}

/// What to do with an event.
#[derive(Debug, PartialEq, Eq)]
pub enum Decision {
    Fire { camera: String, stream: String, event_id: String, label: String },
    Skip(SkipReason),
}

/// Why an event does not open a popup.
#[derive(Debug, PartialEq, Eq)]
pub enum SkipReason {
    NotificationsPaused,
    NotANewEvent(EventType),
    UnknownCamera(String),
    CameraDisabled(String),
    FalsePositive,
    LabelNotWatched { label: String, watched: Vec<String> },
    ZoneNotEntered { required: Vec<String>, entered: Vec<String> },
    /// `remaining` is in nanoseconds.
    Cooldown { remaining: u128 },
}

/// `SkipReason` with its strings as character sequences.
pub enum SkipView {
    NotificationsPaused,
    NotANewEvent(EventType),
    UnknownCamera(Seq<char>),
    CameraDisabled(Seq<char>),
    FalsePositive,
    LabelNotWatched { label: Seq<char>, watched: Seq<Seq<char>> },
    ZoneNotEntered { required: Seq<Seq<char>>, entered: Seq<Seq<char>> },
    Cooldown { remaining: int },
}

/// `Decision` with its strings as character sequences.
pub enum DecisionView {
    Fire { camera: Seq<char>, stream: Seq<char>, event_id: Seq<char>, label: Seq<char> },
    Skip(SkipView),
}

impl View for SkipReason {
    type V = SkipView;

    open spec fn view(&self) -> SkipView {
        match self {
            SkipReason::NotificationsPaused => SkipView::NotificationsPaused,
            SkipReason::NotANewEvent(t) => SkipView::NotANewEvent(*t),
            SkipReason::UnknownCamera(c) => SkipView::UnknownCamera(c@),
            SkipReason::CameraDisabled(c) => SkipView::CameraDisabled(c@),
            SkipReason::FalsePositive => SkipView::FalsePositive,
            SkipReason::LabelNotWatched { label, watched } => SkipView::LabelNotWatched {
                label: label@,
                watched: string_views(watched@),
            },
            SkipReason::ZoneNotEntered { required, entered } => SkipView::ZoneNotEntered {
                required: string_views(required@),
                entered: string_views(entered@),
            },
            SkipReason::Cooldown { remaining } => SkipView::Cooldown { remaining: *remaining as int },
        }
    }
}

impl View for Decision {
    type V = DecisionView;

    open spec fn view(&self) -> DecisionView {
        match self {
            Decision::Fire { camera, stream, event_id, label } => DecisionView::Fire {
                camera: camera@,
                stream: stream@,
                event_id: event_id@,
                label: label@,
            },
            Decision::Skip(r) => DecisionView::Skip(r@),
        }
    }
}

/// Trigger state as plain values: the do-not-disturb flag, and for each camera the
/// instant a popup last fired for it.
pub struct TriggersView {
    pub paused: bool,
    pub last_fired: Map<Seq<char>, u128>,
}

/// Some zone is in both lists.
pub open spec fn shares_zone(required: Seq<Seq<char>>, entered: Seq<Seq<char>>) -> bool {
    exists|i: int| 0 <= i < required.len() && entered.contains(#[trigger] required[i])
}

/// How long ago `last` was at `now`, never negative.
pub open spec fn elapsed(now: u128, last: u128) -> int {
    if now >= last {
        now - last
    } else {
        0
    }
}

/// The decision for `e` at `now`. The checks run in a fixed order, and the first that
/// applies is the reason reported.
pub open spec fn evaluate_spec(t: TriggersView, c: Config, e: FrigateEvent, now: u128) -> DecisionView {
    let a = e.after;
    if t.paused {
        DecisionView::Skip(SkipView::NotificationsPaused)
    } else if e.event_type != EventType::New {
        DecisionView::Skip(SkipView::NotANewEvent(e.event_type))
    } else {
        match find_camera(c.cameras@, a.camera@) {
            None => DecisionView::Skip(SkipView::UnknownCamera(a.camera@)),
            Some(cam) => {
                let watched = string_views(labels_for_spec(c, cam));
                let cooldown = nanos(cooldown_for_spec(c, cam));
                if !cam.enabled {
                    DecisionView::Skip(SkipView::CameraDisabled(a.camera@))
                } else if a.false_positive && c.detection.ignore_false_positives {
                    DecisionView::Skip(SkipView::FalsePositive)
                } else if !watched.contains(a.label@) {
                    DecisionView::Skip(SkipView::LabelNotWatched { label: a.label@, watched })
                } else if cam.required_zones is Some && !shares_zone(
                    string_views(cam.required_zones->0@),
                    string_views(a.entered_zones@),
                ) {
                    DecisionView::Skip(
                        SkipView::ZoneNotEntered {
                            required: string_views(cam.required_zones->0@),
                            entered: string_views(a.entered_zones@),
                        },
                    )
                } else if t.last_fired.contains_key(a.camera@) && elapsed(
                    now,
                    t.last_fired[a.camera@],
                ) < cooldown {
                    DecisionView::Skip(
                        SkipView::Cooldown {
                            remaining: cooldown - elapsed(now, t.last_fired[a.camera@]),
                        },
                    )
                } else {
                    DecisionView::Fire {
                        camera: a.camera@,
                        stream: cam.stream@,
                        event_id: a.id@,
                        label: a.label@,
                    }
                }
            },
        }
    }
}

/// Cooldown bookkeeping and the do-not-disturb flag.
#[derive(Debug)]
pub struct Triggers {
    /// Last time a popup fired, per camera. Drives the cooldown.
    last_fired: Vec<(String, u128)>,
    paused: bool,
}

impl View for Triggers {
    type V = TriggersView;

    closed spec fn view(&self) -> TriggersView {
        TriggersView { paused: self.paused, last_fired: lookup_map(self.last_fired@) }
    }
}

impl Triggers {
    pub fn new() -> (r: Self)
        ensures
            !r@.paused,
            r@.last_fired == Map::<Seq<char>, u128>::empty(),
    {
        let r = Triggers { last_fired: Vec::new(), paused: false };
        assert(r@.last_fired =~= Map::<Seq<char>, u128>::empty());
        r
    }

    pub fn set_paused(&mut self, paused: bool)
        ensures
            final(self)@.paused == paused,
            final(self)@.last_fired == old(self)@.last_fired,
    {
        self.paused = paused;
    }

    pub fn is_paused(&self) -> (r: bool)
        ensures
            r == self@.paused,
    {
        self.paused
    }

    /// Notes that a popup fired, starting this camera's cooldown.
    pub fn record_fired(&mut self, camera: &str, now: u128)
        ensures
            final(self)@.paused == old(self)@.paused,
            final(self)@.last_fired == old(self)@.last_fired.insert(camera@, now),
    {
        let ghost v = self.last_fired@;
        match position(&self.last_fired, camera) {
            Some(i) => {
                self.last_fired[i].1 = now;
                proof {
                    assert(self.last_fired@ =~= v.update(i as int, (v[i as int].0, now)));
                    lemma_map_update(v, i as int, now);
                }
            },
            None => {
                let x = (owned(camera), now);
                self.last_fired.push(x);
                proof {
                    lemma_map_push(v, x);
                }
            },
        }
    }

    /// When a popup last fired for `camera`.
    fn last_fired_for(&self, camera: &str) -> (r: Option<u128>)
        ensures
            r == (if self@.last_fired.contains_key(camera@) {
                Some(self@.last_fired[camera@])
            } else {
                None::<u128>
            }),
    {
        match position(&self.last_fired, camera) {
            Some(i) => Some(self.last_fired[i].1),
            None => None,
        }
    }

    /// Decides what to do with an event. Checks run cheapest-and-most-common first, and
    /// the order determines which reason gets reported when several apply.
    pub fn evaluate(&self, config: &Config, event: &FrigateEvent, now: u128) -> (r: Decision)
        ensures
            r@ == evaluate_spec(self@, *config, *event, now),
    {
        if self.paused {
            return Decision::Skip(SkipReason::NotificationsPaused);
        }
        match event.event_type {
            EventType::New => {},
            other => {
                return Decision::Skip(SkipReason::NotANewEvent(other));
            },
        }
        let after = &event.after;
        let camera: &Camera = match config.camera(after.camera.as_str()) {
            Some(c) => c,
            None => {
                return Decision::Skip(SkipReason::UnknownCamera(after.camera.clone()));
            },
        };
        if !camera.enabled {
            return Decision::Skip(SkipReason::CameraDisabled(after.camera.clone()));
        }
        if after.false_positive && config.detection.ignore_false_positives {
            return Decision::Skip(SkipReason::FalsePositive);
        }
        let watched = config.labels_for(camera);
        if !contains_str(watched, after.label.as_str()) {
            return Decision::Skip(
                SkipReason::LabelNotWatched {
                    label: after.label.clone(),
                    watched: copy_strings(watched),
                },
            );
        }
        if let Some(required) = &camera.required_zones {
            // A `new` event often has no zones yet, so this legitimately filters out the
            // first sighting of an object that later walks into the zone. Zones are
            // opt-in per camera for exactly that reason.
            if !any_zone_entered(required, &after.entered_zones) {
                return Decision::Skip(
                    SkipReason::ZoneNotEntered {
                        required: copy_strings(required),
                        entered: copy_strings(&after.entered_zones),
                    },
                );
            }
        }
        let cooldown: u128 = config.cooldown_for(camera) as u128 * 1_000_000_000;
        if let Some(last) = self.last_fired_for(after.camera.as_str()) {
            let elapsed: u128 = if now >= last {
                now - last
            } else {
                0
            };
            if elapsed < cooldown {
                return Decision::Skip(SkipReason::Cooldown { remaining: cooldown - elapsed });
            }
        }
        Decision::Fire {
            camera: after.camera.clone(),
            stream: camera.stream.clone(),
            event_id: after.id.clone(),
            label: after.label.clone(),
        }
    }

    /// Evaluates an event and, when it fires, starts that camera's cooldown at `now`.
    pub fn decide(&mut self, config: &Config, event: &FrigateEvent, now: u128) -> (r: Decision)
        ensures
            r@ == evaluate_spec(old(self)@, *config, *event, now),
            final(self)@.paused == old(self)@.paused,
            final(self)@.last_fired == (if r@ is Fire {
                old(self)@.last_fired.insert(event.after.camera@, now)
            } else {
                old(self)@.last_fired
            }),
    {
        let decision = self.evaluate(config, event, now);
        if let Decision::Fire { camera, .. } = &decision {
            self.record_fired(camera.as_str(), now);
        }
        decision
    }
}

/// Whether any required zone has been entered.
fn any_zone_entered(required: &Vec<String>, entered: &Vec<String>) -> (r: bool)
    ensures
        r == shares_zone(string_views(required@), string_views(entered@)),
{
    let n = required.len();
    let mut i: usize = 0;
    while i < n
        invariant
            i <= n,
            n == required@.len(),
            forall|j: int| 0 <= j < i ==> !string_views(entered@).contains(#[trigger] string_views(required@)[j]),
        decreases n - i,
    {
        if contains_str(entered, required[i].as_str()) {
            assert(string_views(required@)[i as int] == required@[i as int]@);
            return true;
        }
        assert(string_views(required@)[i as int] == required@[i as int]@);
        i = i + 1;
    }
    false
}


/// The trigger state after a popup fired for `camera` at `at`.
pub open spec fn fired(t: TriggersView, camera: Seq<char>, at: u128) -> TriggersView {
    TriggersView { paused: t.paused, last_fired: t.last_fired.insert(camera, at) }
}

/// While notifications are paused, every event is skipped for that reason alone.
pub proof fn pausing_suppresses_everything(t: TriggersView, c: Config, e: FrigateEvent, now: u128)
    requires
        t.paused,
    ensures
        evaluate_spec(t, c, e, now) == DecisionView::Skip(SkipView::NotificationsPaused),
{
}

/// Only a `new` event for a configured, enabled camera, with a watched label, can open a
/// popup, and the popup is for the event's own camera, stream, id and label.
pub proof fn only_watched_new_events_fire(t: TriggersView, c: Config, e: FrigateEvent, now: u128)
    requires
        evaluate_spec(t, c, e, now) is Fire,
    ensures
        !t.paused,
        e.event_type == EventType::New,
        find_camera(c.cameras@, e.after.camera@) is Some,
        ({
            let cam = find_camera(c.cameras@, e.after.camera@)->0;
            &&& cam.enabled
            &&& string_views(labels_for_spec(c, cam)).contains(e.after.label@)
            &&& evaluate_spec(t, c, e, now) == DecisionView::Fire {
                camera: e.after.camera@,
                stream: cam.stream@,
                event_id: e.after.id@,
                label: e.after.label@,
            }
        }),
{
}

/// Once a popup fires for a camera at `at`, the same event is skipped for cooldown until
/// the camera's cooldown has run out, with exactly the rest of the cooldown reported.
pub proof fn cooldown_blocks_a_repeat(
    t: TriggersView,
    c: Config,
    e: FrigateEvent,
    at: u128,
    now: u128,
)
    requires
        evaluate_spec(t, c, e, at) is Fire,
        at <= now,
        now < at + nanos(cooldown_for_spec(c, find_camera(c.cameras@, e.after.camera@)->0)),
    ensures
        evaluate_spec(fired(t, e.after.camera@, at), c, e, now) == DecisionView::Skip(
            SkipView::Cooldown {
                remaining: at + nanos(cooldown_for_spec(c, find_camera(c.cameras@, e.after.camera@)->0))
                    - now,
            },
        ),
{
}

/// When the cooldown has run out, the same event fires again as it did the first time.
pub proof fn cooldown_expires(t: TriggersView, c: Config, e: FrigateEvent, at: u128, now: u128)
    requires
        evaluate_spec(t, c, e, at) is Fire,
        now >= at + nanos(cooldown_for_spec(c, find_camera(c.cameras@, e.after.camera@)->0)),
    ensures
        evaluate_spec(fired(t, e.after.camera@, at), c, e, now) == evaluate_spec(t, c, e, at),
{
}

/// The cooldown is tracked per camera: a popup firing for one camera changes nothing
/// for the events of any other.
pub proof fn cooldown_is_per_camera(
    t: TriggersView,
    c: Config,
    e: FrigateEvent,
    other: Seq<char>,
    at: u128,
    now: u128,
)
    requires
        e.after.camera@ != other,
    ensures
        evaluate_spec(fired(t, other, at), c, e, now) == evaluate_spec(t, c, e, now),
{
    assert(fired(t, other, at).last_fired.contains_key(e.after.camera@) == t.last_fired.contains_key(
        e.after.camera@,
    ));
}


/// Some required zone, position `i` in the camera's list, is the event's entered zone at
/// position `j`.
pub open spec fn zone_entered_at(cam: Camera, e: FrigateEvent, i: int, j: int) -> bool {
    &&& cam.required_zones is Some
    &&& 0 <= i < cam.required_zones->0@.len()
    &&& 0 <= j < e.after.entered_zones@.len()
    &&& cam.required_zones->0@[i]@ == e.after.entered_zones@[j]@
}

/// Entering any one of a camera's required zones is enough: such an event is never
/// skipped for its zones.
pub proof fn one_required_zone_is_enough(
    t: TriggersView,
    c: Config,
    e: FrigateEvent,
    now: u128,
    i: int,
    j: int,
)
    requires
        find_camera(c.cameras@, e.after.camera@) is Some,
        zone_entered_at(find_camera(c.cameras@, e.after.camera@)->0, e, i, j),
    ensures
        !(evaluate_spec(t, c, e, now) matches DecisionView::Skip(SkipView::ZoneNotEntered { .. })),
{
    let cam = find_camera(c.cameras@, e.after.camera@)->0;
    let req = string_views(cam.required_zones->0@);
    let ent = string_views(e.after.entered_zones@);
    assert(ent[j] == req[i]);
    assert(ent.contains(req[i]));
    assert(shares_zone(req, ent));
}

/// An event is skipped for its zones only when its camera requires zones and it entered
/// none of them; the skip reports the camera's required zones and the zones entered.
pub proof fn zone_skips_mean_no_required_zone_was_entered(
    t: TriggersView,
    c: Config,
    e: FrigateEvent,
    now: u128,
)
    requires
        evaluate_spec(t, c, e, now) matches DecisionView::Skip(SkipView::ZoneNotEntered { .. }),
    ensures
        find_camera(c.cameras@, e.after.camera@) is Some,
        ({
            let cam = find_camera(c.cameras@, e.after.camera@)->0;
            &&& cam.required_zones is Some
            &&& forall|i: int, j: int| !zone_entered_at(cam, e, i, j)
            &&& evaluate_spec(t, c, e, now) == DecisionView::Skip(
                SkipView::ZoneNotEntered {
                    required: string_views(cam.required_zones->0@),
                    entered: string_views(e.after.entered_zones@),
                },
            )
        }),
{
    let cam = find_camera(c.cameras@, e.after.camera@)->0;
    let req = string_views(cam.required_zones->0@);
    let ent = string_views(e.after.entered_zones@);
    assert forall|i: int, j: int| !zone_entered_at(cam, e, i, j) by {
        if zone_entered_at(cam, e, i, j) {
            assert(ent[j] == req[i]);
            assert(ent.contains(req[i]));
        }
    }
}

/// The labels a camera watches: its own list when it has one, else the global list.
pub open spec fn watches(c: Config, cam: Camera, label: Seq<char>) -> bool {
    match cam.labels {
        Some(l) => exists|k: int| 0 <= k < l@.len() && #[trigger] l@[k]@ == label,
        None => exists|k: int| 0 <= k < c.detection.labels@.len() && #[trigger] c.detection.labels@[k]@ == label,
    }
}

/// A `new` event fires when notifications are on, its camera is configured and enabled,
/// it is not a false positive that is ignored, its label is watched, it entered at least
/// one required zone (when the camera has any), and the camera is out of cooldown.
pub proof fn a_watched_new_event_in_a_required_zone_fires(
    t: TriggersView,
    c: Config,
    e: FrigateEvent,
    now: u128,
)
    requires
        !t.paused,
        e.event_type == EventType::New,
        find_camera(c.cameras@, e.after.camera@) is Some,
        ({
            let cam = find_camera(c.cameras@, e.after.camera@)->0;
            &&& cam.enabled
            &&& !(e.after.false_positive && c.detection.ignore_false_positives)
            &&& watches(c, cam, e.after.label@)
            &&& cam.required_zones is Some ==> exists|i: int, j: int| zone_entered_at(cam, e, i, j)
            &&& t.last_fired.contains_key(e.after.camera@) ==> t.last_fired[e.after.camera@] <= now
                && now - t.last_fired[e.after.camera@] >= cooldown_for_spec(c, cam) as int
                * 1_000_000_000
        }),
    ensures
        ({
            let cam = find_camera(c.cameras@, e.after.camera@)->0;
            evaluate_spec(t, c, e, now) == DecisionView::Fire {
                camera: e.after.camera@,
                stream: cam.stream@,
                event_id: e.after.id@,
                label: e.after.label@,
            }
        }),
{
    let cam = find_camera(c.cameras@, e.after.camera@)->0;
    let watched = string_views(labels_for_spec(c, cam));
    match cam.labels {
        Some(l) => {
            let k = choose|k: int| 0 <= k < l@.len() && #[trigger] l@[k]@ == e.after.label@;
            assert(watched[k] == e.after.label@);
        },
        None => {
            let k = choose|k: int|
                0 <= k < c.detection.labels@.len() && #[trigger] c.detection.labels@[k]@
                    == e.after.label@;
            assert(watched[k] == e.after.label@);
        },
    }
    assert(watched.contains(e.after.label@));
    if cam.required_zones is Some {
        let (i, j) = choose|i: int, j: int| zone_entered_at(cam, e, i, j);
        one_required_zone_is_enough(t, c, e, now, i, j);
        let req = string_views(cam.required_zones->0@);
        let ent = string_views(e.after.entered_zones@);
        assert(ent[j] == req[i]);
        assert(ent.contains(req[i]));
    }
}

} // verus!
