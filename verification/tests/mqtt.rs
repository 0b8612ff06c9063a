use frigate_popup::config::{
    default_client_id, default_keepalive, default_mqtt_port, default_topic_prefix, Config,
    Detection, Frigate, Hotkey, Mqtt, Popup,
};
use frigate_popup::events::{Decision, EventType, SkipReason, Triggers};
use frigate_popup::lifecycle::{OpenStep, Popups, Signal};
use frigate_popup::mqtt::{
    events_topic, login, next_backoff, on_event, on_link_event, signal_for, simulated_event, Cadence,
    CadenceNote, LinkAction, LinkEvent, Login, MAX_TRACKED_EVENTS,
};

#[test]
fn the_simulated_event_looks_like_a_real_new_event() {
    let event = simulated_event("doorbell", "person");
    assert_eq!(event.event_type, EventType::New);
    assert_eq!(event.after.camera, "doorbell");
    assert_eq!(event.after.label, "person");
    assert!(!event.after.false_positive);
}

#[test]
fn cadence_tracking_pairs_updates_with_their_new_event() {
    let mut cadence = Cadence::new();
    let new = simulated_event("doorbell", "person");
    cadence.record(new.event_type, &new.after.id, 1_000);
    assert_eq!(cadence.len(), 1);

    let mut update = simulated_event("doorbell", "person");
    update.event_type = EventType::Update;
    cadence.record(update.event_type, &update.after.id, 2_000);
    assert_eq!(cadence.len(), 1, "an update replaces rather than adds");

    let mut end = simulated_event("doorbell", "person");
    end.event_type = EventType::End;
    cadence.record(end.event_type, &end.after.id, 3_000);
    assert!(cadence.is_empty(), "end should release the entry");
}

#[test]
fn an_update_does_not_reset_the_events_start_time() {
    let mut cadence = Cadence::new();
    let new = simulated_event("doorbell", "person");
    cadence.record(new.event_type, &new.after.id, 1_000);
    let started = cadence.get(&new.after.id).map(|t| t.first).expect("tracked");

    let mut update = simulated_event("doorbell", "person");
    update.event_type = EventType::Update;
    cadence.record(update.event_type, &update.after.id, 1_020);

    let timing = cadence.get(&new.after.id).expect("still tracked");
    assert_eq!(timing.first, started, "start time must survive an update");
    assert!(timing.last > started, "last-seen must advance");
}

#[test]
fn the_cadence_map_cannot_grow_without_bound() {
    let mut cadence = Cadence::new();
    for i in 0..MAX_TRACKED_EVENTS + 10 {
        let mut event = simulated_event(&format!("cam{i}"), "person");
        event.after.id = format!("id-{i}");
        cadence.record(event.event_type, &event.after.id, i as u128);
    }
    assert!(cadence.len() <= MAX_TRACKED_EVENTS);
}

#[test]
fn the_simulated_event_id_names_the_camera() {
    let event = simulated_event("garage", "dog");
    assert_eq!(event.after.id, "simulated-garage");
    assert!(event.before.is_none());
    assert!(!event.after.stationary);
}

#[test]
fn cadence_notes_report_gaps_and_lifetimes() {
    let mut cadence = Cadence::new();
    assert_eq!(
        cadence.record(EventType::New, "e", 100),
        CadenceNote::Started { reset: false }
    );
    assert_eq!(
        cadence.record(EventType::Update, "e", 350),
        CadenceNote::Update { gap: 250, age: 250 }
    );
    assert_eq!(
        cadence.record(EventType::Update, "e", 400),
        CadenceNote::Update { gap: 50, age: 300 }
    );
    assert_eq!(
        cadence.record(EventType::End, "e", 1_000),
        CadenceNote::Ended {
            lifetime: 900,
            since_last: 600
        }
    );
    assert_eq!(cadence.record(EventType::Update, "e", 1_100), CadenceNote::Untracked);
    assert_eq!(cadence.record(EventType::End, "e", 1_100), CadenceNote::Untracked);
    assert_eq!(cadence.record(EventType::Unknown, "e", 1_100), CadenceNote::Untracked);
}

#[test]
fn a_full_cadence_table_is_reset_by_the_next_new_event() {
    let mut cadence = Cadence::new();
    for i in 0..MAX_TRACKED_EVENTS {
        cadence.record(EventType::New, &format!("id-{i}"), 0);
    }
    assert_eq!(cadence.len(), MAX_TRACKED_EVENTS);
    assert_eq!(
        cadence.record(EventType::New, "late", 5),
        CadenceNote::Started { reset: true }
    );
    assert_eq!(cadence.len(), 1);
    assert!(cadence.get("id-0").is_none());
    assert!(cadence.get("late").is_some());
}

#[test]
fn each_event_type_maps_to_its_lifecycle_signal() {
    let mut e = simulated_event("doorbell", "person");
    assert_eq!(signal_for(&e), None);
    e.event_type = EventType::Update;
    assert_eq!(signal_for(&e), Some(Signal::Active));
    e.after.stationary = true;
    assert_eq!(signal_for(&e), Some(Signal::Stationary));
    e.event_type = EventType::End;
    assert_eq!(signal_for(&e), Some(Signal::Ended));
    e.event_type = EventType::Unknown;
    assert_eq!(signal_for(&e), None);
}

#[test]
fn backoff_doubles_up_to_a_minute() {
    assert_eq!(next_backoff(1_000), 2_000);
    assert_eq!(next_backoff(16_000), 32_000);
    assert_eq!(next_backoff(32_000), 60_000);
    assert_eq!(next_backoff(60_000), 60_000);
}

#[test]
fn the_events_topic_sits_under_the_prefix() {
    let config = Config {
        mqtt: Mqtt {
            host: "h".into(),
            port: default_mqtt_port(),
            username: None,
            password: None,
            password_env: None,
            client_id: default_client_id(),
            topic_prefix: default_topic_prefix(),
            keepalive_seconds: default_keepalive(),
        },
        frigate: Frigate {
            ui_url: "http://a".into(),
            go2rtc_url: "http://b".into(),
        },
        popup: Popup::default(),
        detection: Detection::default(),
        hotkey: Hotkey::default(),
        cameras: vec![],
    };
    assert_eq!(events_topic(&config), "frigate/events");
}

fn mqtt_config(username: Option<&str>, password: Option<&str>, env: Option<&str>) -> Config {
    Config {
        mqtt: Mqtt {
            host: "h".into(),
            port: default_mqtt_port(),
            username: username.map(Into::into),
            password: password.map(Into::into),
            password_env: env.map(Into::into),
            client_id: default_client_id(),
            topic_prefix: default_topic_prefix(),
            keepalive_seconds: default_keepalive(),
        },
        frigate: Frigate {
            ui_url: "http://a".into(),
            go2rtc_url: "http://b".into(),
        },
        popup: Popup::default(),
        detection: Detection::default(),
        hotkey: Hotkey::default(),
        cameras: vec![],
    }
}

#[test]
fn the_broker_login_follows_the_configured_credentials() {
    assert_eq!(login(&mqtt_config(None, Some("p"), None), None), Login::Anonymous);
    assert_eq!(
        login(&mqtt_config(Some("u"), Some("p"), Some("VAR")), Some("e".into())),
        Login::WithPassword {
            username: "u".into(),
            password: "p".into()
        }
    );
    assert_eq!(
        login(&mqtt_config(Some("u"), None, Some("VAR")), Some("e".into())),
        Login::WithPassword {
            username: "u".into(),
            password: "e".into()
        }
    );
    assert_eq!(
        login(&mqtt_config(Some("u"), None, Some("VAR")), None),
        Login::Unresolved {
            error: "reading MQTT password from environment variable `VAR`".into()
        }
    );
    assert_eq!(
        login(&mqtt_config(Some("u"), None, None), None),
        Login::WithoutPassword {
            username: "u".into()
        }
    );
}

#[test]
fn a_disabled_hotkey_registers_nothing() {
    let mut hotkey = Hotkey::default();
    hotkey.binding = "  F20 ".into();
    assert_eq!(hotkey.binding_to_register(), Some("F20"));
    hotkey.enabled = false;
    assert_eq!(hotkey.binding_to_register(), None);
}

#[test]
fn a_connection_resets_the_backoff_and_subscribes() {
    assert_eq!(on_link_event(32_000, LinkEvent::Connected), (LinkAction::Subscribe, 1_000));
}

#[test]
fn a_failure_waits_then_doubles_the_backoff() {
    assert_eq!(
        on_link_event(4_000, LinkEvent::Failed),
        (LinkAction::Retry { wait_ms: 4_000 }, 8_000)
    );
    assert_eq!(
        on_link_event(60_000, LinkEvent::Failed),
        (LinkAction::Retry { wait_ms: 60_000 }, 60_000)
    );
}

#[test]
fn messages_and_other_traffic_keep_the_backoff() {
    assert_eq!(on_link_event(8_000, LinkEvent::Message), (LinkAction::Handle, 8_000));
    assert_eq!(on_link_event(8_000, LinkEvent::Other), (LinkAction::Ignore, 8_000));
}

/// A config watching `doorbell` for people, with the default popup timings
/// (watchdog 20 s, cooldown 60 s).
fn doorbell_config() -> frigate_popup::config::Config {
    let mut config = mqtt_config(None, None, None);
    config.cameras = vec![frigate_popup::config::Camera {
        name: "doorbell".into(),
        stream: "doorbell_sub".into(),
        enabled: true,
        labels: None,
        required_zones: None,
        cooldown_seconds: None,
    }];
    config
}

const SECOND: u128 = 1_000_000_000;

#[test]
fn a_firing_event_asks_for_a_popup_in_the_first_slot() {
    let config = doorbell_config();
    let mut triggers = Triggers::new();
    let mut popups = Popups::new();
    let step = on_event(&mut triggers, &mut popups, &config, &simulated_event("doorbell", "person"), SECOND);
    assert!(matches!(step.decision, Decision::Fire { .. }));
    match step.open {
        Some(OpenStep::Place { evicted, restack, slot }) => {
            assert!(evicted.is_empty());
            assert!(restack.is_empty());
            assert_eq!(slot, 0);
        }
        other => panic!("expected a placement, got {other:?}"),
    }
    assert_eq!(step.noted, None, "a new event never notes");
}

#[test]
fn an_update_keeps_the_popup_alive_even_in_cooldown() {
    let config = doorbell_config();
    let mut triggers = Triggers::new();
    let mut popups = Popups::new();
    let new = simulated_event("doorbell", "person");
    on_event(&mut triggers, &mut popups, &config, &new, SECOND);
    assert!(popups.opened("doorbell".into(), &config.popup, SECOND, false));

    let mut update = simulated_event("doorbell", "person");
    update.event_type = EventType::Update;
    let step = on_event(&mut triggers, &mut popups, &config, &update, 11 * SECOND);
    assert_eq!(
        step.decision,
        Decision::Skip(SkipReason::NotANewEvent(EventType::Update))
    );
    assert!(step.open.is_none());
    assert_eq!(step.noted, Some(Signal::Active));
    assert!(popups.expired(25 * SECOND).is_empty(), "10 s in, plus a 20 s watchdog");
    assert_eq!(popups.expired(31 * SECOND), vec!["doorbell".to_string()]);

    let again = on_event(&mut triggers, &mut popups, &config, &new, 12 * SECOND);
    assert!(matches!(again.decision, Decision::Skip(SkipReason::Cooldown { .. })));
    assert!(again.open.is_none());
}

#[test]
fn an_end_without_a_popup_changes_nothing() {
    let config = doorbell_config();
    let mut triggers = Triggers::new();
    let mut popups = Popups::new();
    let mut end = simulated_event("doorbell", "person");
    end.event_type = EventType::End;
    let step = on_event(&mut triggers, &mut popups, &config, &end, SECOND);
    assert_eq!(step.noted, None);
    assert!(step.open.is_none());
    assert!(popups.is_empty());
}

#[test]
fn repeated_failures_wait_longer_up_to_a_minute_until_a_connection() {
    let mut backoff = frigate_popup::mqtt::MIN_BACKOFF_MS;
    let mut waits = Vec::new();
    for _ in 0..8 {
        let (action, next) = on_link_event(backoff, LinkEvent::Failed);
        if let LinkAction::Retry { wait_ms } = action {
            waits.push(wait_ms);
        }
        backoff = next;
    }
    assert_eq!(waits, vec![1_000, 2_000, 4_000, 8_000, 16_000, 32_000, 60_000, 60_000]);
    let (action, next) = on_link_event(backoff, LinkEvent::Connected);
    assert_eq!((action, next), (LinkAction::Subscribe, 1_000));
}
