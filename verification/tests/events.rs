use frigate_popup::config::{
    default_client_id, default_keepalive, default_mqtt_port, default_topic_prefix, Camera, Config,
    Detection, Frigate, Hotkey, Mqtt, Popup,
};
use frigate_popup::events::{Decision, EventType, FrigateEvent, SkipReason, TrackedObject, Triggers};

/// An instant, in nanoseconds.
const T0: u128 = 7_000_000_000_000;

/// Milliseconds as nanoseconds.
fn ms(n: u128) -> u128 {
    n * 1_000_000
}

fn camera(name: &str, stream: &str, enabled: bool) -> Camera {
    Camera {
        name: name.into(),
        stream: stream.into(),
        enabled,
        labels: None,
        required_zones: None,
        cooldown_seconds: None,
    }
}

fn config_with(cameras: Vec<Camera>) -> Config {
    let mut c = Config {
        mqtt: Mqtt {
            host: "192.168.1.11".into(),
            port: default_mqtt_port(),
            username: None,
            password: None,
            password_env: None,
            client_id: default_client_id(),
            topic_prefix: default_topic_prefix(),
            keepalive_seconds: default_keepalive(),
        },
        frigate: Frigate {
            ui_url: "https://192.168.1.10:8971".into(),
            go2rtc_url: "http://192.168.1.10:1984".into(),
        },
        popup: Popup::default(),
        detection: Detection::default(),
        hotkey: Hotkey::default(),
        cameras,
    };
    c.normalize_and_validate(false).expect("config should be valid");
    c
}

fn config() -> Config {
    config_with(vec![
        camera("front_doorbell", "doorbell_sub", true),
        camera("indoor_garage", "garage_sub", false),
    ])
}

/// The fields of a real Frigate `new` payload that the decision reads.
fn new_person() -> FrigateEvent {
    FrigateEvent {
        event_type: EventType::New,
        before: None,
        after: TrackedObject {
            id: "1755705123.456789-ab12cd".into(),
            camera: "front_doorbell".into(),
            label: "person".into(),
            current_zones: vec![],
            entered_zones: vec![],
            has_snapshot: false,
            has_clip: false,
            false_positive: false,
            stationary: false,
        },
    }
}

fn with_camera(camera: &str) -> FrigateEvent {
    let mut e = new_person();
    e.after.camera = camera.into();
    e
}

#[test]
fn a_watched_person_on_an_enabled_camera_fires() {
    let decision = Triggers::new().evaluate(&config(), &new_person(), T0);
    assert_eq!(
        decision,
        Decision::Fire {
            camera: "front_doorbell".into(),
            stream: "doorbell_sub".into(),
            event_id: "1755705123.456789-ab12cd".into(),
            label: "person".into(),
        }
    );
}

#[test]
fn update_and_end_events_never_open_a_popup() {
    for kind in [EventType::Update, EventType::End] {
        let mut event = new_person();
        event.event_type = kind;
        let decision = Triggers::new().evaluate(&config(), &event, T0);
        assert!(
            matches!(decision, Decision::Skip(SkipReason::NotANewEvent(_))),
            "{kind:?} should be skipped, got {decision:?}"
        );
    }
}

#[test]
fn an_unrecognised_event_type_is_skipped_rather_than_failing_to_parse() {
    let mut event = new_person();
    event.event_type = EventType::Unknown;
    assert_eq!(event.event_type, EventType::Unknown);
    let decision = Triggers::new().evaluate(&config(), &event, T0);
    assert!(matches!(
        decision,
        Decision::Skip(SkipReason::NotANewEvent(EventType::Unknown))
    ));
}

#[test]
fn unwatched_labels_are_skipped() {
    let mut event = new_person();
    event.after.label = "car".into();
    let decision = Triggers::new().evaluate(&config(), &event, T0);
    match decision {
        Decision::Skip(SkipReason::LabelNotWatched { label, watched }) => {
            assert_eq!(label, "car");
            assert_eq!(watched, vec!["person".to_string()]);
        }
        other => panic!("expected LabelNotWatched, got {other:?}"),
    }
}

#[test]
fn cameras_missing_from_the_config_are_skipped() {
    let decision = Triggers::new().evaluate(&config(), &with_camera("back_yard"), T0);
    assert_eq!(
        decision,
        Decision::Skip(SkipReason::UnknownCamera("back_yard".into()))
    );
}

#[test]
fn disabled_cameras_are_skipped() {
    let decision = Triggers::new().evaluate(&config(), &with_camera("indoor_garage"), T0);
    assert_eq!(
        decision,
        Decision::Skip(SkipReason::CameraDisabled("indoor_garage".into()))
    );
}

#[test]
fn false_positives_are_skipped() {
    let mut event = new_person();
    event.after.false_positive = true;
    let decision = Triggers::new().evaluate(&config(), &event, T0);
    assert_eq!(decision, Decision::Skip(SkipReason::FalsePositive));
}

#[test]
fn cooldown_blocks_a_second_event_then_expires() {
    let config = config();
    let event = new_person();
    let mut triggers = Triggers::new();
    assert!(matches!(
        triggers.evaluate(&config, &event, T0),
        Decision::Fire { .. }
    ));
    triggers.record_fired("front_doorbell", T0);
    // Default cooldown is 60s.
    match triggers.evaluate(&config, &event, T0 + ms(30_000)) {
        Decision::Skip(SkipReason::Cooldown { remaining }) => {
            assert_eq!(remaining / 1_000_000_000, 30);
        }
        other => panic!("expected Cooldown, got {other:?}"),
    }
    assert!(matches!(
        triggers.evaluate(&config, &event, T0 + ms(61_000)),
        Decision::Fire { .. }
    ));
}

#[test]
fn cooldown_is_tracked_per_camera() {
    let config = config();
    let mut triggers = Triggers::new();
    triggers.record_fired("front_doorbell", T0);
    let decision = triggers.evaluate(&config, &with_camera("indoor_garage"), T0 + ms(1_000));
    assert_eq!(
        decision,
        Decision::Skip(SkipReason::CameraDisabled("indoor_garage".into())),
        "should fail on being disabled, not on the doorbell's cooldown"
    );
}

#[test]
fn pausing_suppresses_everything() {
    let mut triggers = Triggers::new();
    triggers.set_paused(true);
    assert_eq!(
        triggers.evaluate(&config(), &new_person(), T0),
        Decision::Skip(SkipReason::NotificationsPaused)
    );
}

#[test]
fn required_zones_gate_the_trigger() {
    let mut cam = camera("front_doorbell", "doorbell_sub", true);
    cam.required_zones = Some(vec!["walkway".into()]);
    let config = config_with(vec![cam]);

    let decision = Triggers::new().evaluate(&config, &new_person(), T0);
    assert!(matches!(
        decision,
        Decision::Skip(SkipReason::ZoneNotEntered { .. })
    ));

    let mut event = new_person();
    event.after.entered_zones = vec!["walkway".into(), "porch".into()];
    assert!(matches!(
        Triggers::new().evaluate(&config, &event, T0),
        Decision::Fire { .. }
    ));
}

#[test]
fn deciding_records_the_fire_and_starts_the_cooldown() {
    let config = config();
    let event = new_person();
    let mut triggers = Triggers::new();
    assert!(matches!(triggers.decide(&config, &event, T0), Decision::Fire { .. }));
    assert_eq!(
        triggers.decide(&config, &event, T0),
        Decision::Skip(SkipReason::Cooldown { remaining: ms(60_000) })
    );
    assert_eq!(
        triggers.decide(&config, &event, T0 + ms(59_999)),
        Decision::Skip(SkipReason::Cooldown { remaining: ms(1) })
    );
    assert!(matches!(
        triggers.decide(&config, &event, T0 + ms(60_000)),
        Decision::Fire { .. }
    ));
}

#[test]
fn a_per_camera_cooldown_and_label_override_apply() {
    let mut cam = camera("front_doorbell", "doorbell_sub", true);
    cam.labels = Some(vec!["dog".into()]);
    cam.cooldown_seconds = Some(5);
    let config = config_with(vec![cam]);
    let mut event = new_person();
    assert!(matches!(
        Triggers::new().evaluate(&config, &event, T0),
        Decision::Skip(SkipReason::LabelNotWatched { .. })
    ));
    event.after.label = "dog".into();
    let mut triggers = Triggers::new();
    assert!(matches!(triggers.decide(&config, &event, T0), Decision::Fire { .. }));
    assert_eq!(
        triggers.evaluate(&config, &event, T0 + ms(2_000)),
        Decision::Skip(SkipReason::Cooldown { remaining: ms(3_000) })
    );
}

#[test]
fn false_positives_fire_when_not_ignored() {
    let mut config = config();
    config.detection.ignore_false_positives = false;
    let mut event = new_person();
    event.after.false_positive = true;
    assert!(matches!(
        Triggers::new().evaluate(&config, &event, T0),
        Decision::Fire { .. }
    ));
}

#[test]
fn an_earlier_clock_reading_counts_as_no_time_elapsed() {
    let config = config();
    let mut triggers = Triggers::new();
    triggers.record_fired("front_doorbell", T0);
    assert_eq!(
        triggers.evaluate(&config, &new_person(), T0 - ms(5_000)),
        Decision::Skip(SkipReason::Cooldown { remaining: ms(60_000) })
    );
}

#[test]
fn pausing_can_be_undone() {
    let mut triggers = Triggers::new();
    assert!(!triggers.is_paused());
    triggers.set_paused(true);
    assert!(triggers.is_paused());
    triggers.set_paused(false);
    assert!(matches!(
        triggers.evaluate(&config(), &new_person(), T0),
        Decision::Fire { .. }
    ));
}

#[test]
fn event_types_have_their_wire_names() {
    assert_eq!(EventType::New.as_str(), "new");
    assert_eq!(EventType::Update.as_str(), "update");
    assert_eq!(EventType::End.as_str(), "end");
    assert_eq!(EventType::Unknown.as_str(), "unknown");
}

#[test]
fn the_cooldown_is_measured_to_the_nanosecond() {
    let config = config();
    let event = new_person();
    let mut triggers = Triggers::new();
    triggers.record_fired("front_doorbell", T0);
    assert_eq!(
        triggers.evaluate(&config, &event, T0 + ms(60_000) - 1),
        Decision::Skip(SkipReason::Cooldown { remaining: 1 })
    );
    assert!(matches!(
        triggers.evaluate(&config, &event, T0 + ms(60_000)),
        Decision::Fire { .. }
    ));
}
