use frigate_popup::config::{
    default_client_id, default_keepalive, default_mqtt_port, default_topic_prefix, Camera, Config,
    Corner, Detection, Frigate, Hotkey, MonitorSelect, Mqtt, Popup,
};
use frigate_popup::picker::{context_script, picker_entry_around, picker_script_around};
use frigate_popup::windows::{
    label_for, monitor_choice, overlay_script, overlay_script_around, place, popup_context_around,
    popup_context_script, popup_page, Footprint, Kind, MonitorChoice, PopupPage, Rect,
};

fn camera(name: &str, stream: &str, enabled: bool) -> Camera {
    Camera {
        name: name.into(),
        stream: stream.into(),
        enabled,
        labels: None,
        required_zones: None,
        cooldown_seconds: None,
    }
}

fn config() -> Config {
    Config {
        mqtt: Mqtt {
            host: "192.168.1.11".into(),
            port: default_mqtt_port(),
            username: None,
            password: None,
            password_env: None,
            client_id: default_client_id(),
            topic_prefix: default_topic_prefix(),
            keepalive_seconds: default_keepalive(),
        },
        frigate: Frigate {
            ui_url: "https://192.168.1.10:8971".into(),
            go2rtc_url: "http://192.168.1.10:1984".into(),
        },
        popup: Popup::default(),
        detection: Detection::default(),
        hotkey: Hotkey::default(),
        cameras: vec![
            camera("front_doorbell", "doorbell_sub", true),
            camera("indoor_garage", "garage_sub", false),
        ],
    }
}

/// 1920x1080 with a 40px taskbar along the bottom.
fn area() -> Rect {
    Rect {
        x: 0,
        y: 0,
        w: 1920,
        h: 1040,
    }
}

/// The default popup at 100% scaling.
fn footprint() -> Footprint {
    Footprint {
        w: 480,
        h: 270,
        off_x: 24,
        off_y: 24,
        gap: 12,
    }
}

#[test]
fn the_popup_context_carries_everything_the_page_needs() {
    let mut config = config();
    config.popup.video_fit = "contain".into();
    let camera = config.camera("front_doorbell").expect("camera").clone();
    let script = popup_context_script(&config, &camera, Kind::Detection);
    assert!(script.starts_with("window.__POPUP__="));
    for expected in [
        r#""camera":"front_doorbell""#,
        r#""stream":"doorbell_sub""#,
        r#""go2rtc":"http://192.168.1.10:1984""#,
        r#""fit":"contain""#,
        r#""label":"person""#,
        r#""kind":"detection""#,
    ] {
        assert!(script.contains(expected), "missing {expected} in {script}");
    }
}

#[test]
fn a_live_popup_never_claims_something_was_detected() {
    let config = config();
    let camera = config.camera("front_doorbell").expect("camera").clone();
    let script = popup_context_script(&config, &camera, Kind::Live);
    assert!(script.contains(r#""kind":"live""#));
    assert!(
        script.contains(r#""label":"""#),
        "a hand-opened window must not carry a detection label: {script}"
    );
    assert!(!script.contains("person"));
}

#[test]
fn overlay_hides_the_badge_and_applies_the_configured_fit() {
    let script = overlay_script(&Popup::default());
    assert!(script.contains("object-fit:cover"));
    assert!(script.contains(".info{display:none!important}"));
}

#[test]
fn overlay_registers_its_fallbacks_before_attempting_to_inject() {
    let script = overlay_script(&Popup::default());
    let listener = script
        .find("DOMContentLoaded")
        .expect("listener registered");
    let eager = script
        .rfind("if(!inject())")
        .expect("eager attempt present");
    assert!(
        listener < eager,
        "listeners must be registered before the first inject() attempt"
    );
    assert!(script.contains("catch"), "inject must not be able to throw");
    assert!(
        script.contains("setInterval"),
        "needs a poll for when both load events have already fired"
    );
}

#[test]
fn overlay_keeps_the_badge_when_asked() {
    let popup = Popup {
        show_stream_badge: true,
        video_fit: "contain".into(),
        ..Popup::default()
    };
    let script = overlay_script(&popup);
    assert!(script.contains("object-fit:contain"));
    assert!(!script.contains("display:none"));
}

#[test]
fn the_context_carries_every_camera_with_its_enabled_state() {
    let config = config();
    let script = context_script(&config);
    assert!(script.starts_with("window.__PICKER__="));
    assert!(script.contains(r#""name":"front_doorbell""#));
    assert!(script.contains(r#""enabled":true"#));
    assert!(script.contains(r#""name":"indoor_garage""#));
    assert!(script.contains(r#""enabled":false"#));
}

#[test]
fn the_picker_context_is_exact_json() {
    let script = context_script(&config());
    assert_eq!(
        script,
        r#"window.__PICKER__={"cameras":[{"enabled":true,"name":"front_doorbell"},{"enabled":false,"name":"indoor_garage"}]};"#
    );
}

#[test]
fn the_popup_context_is_exact_json() {
    let config = config();
    let camera = config.camera("front_doorbell").expect("camera").clone();
    assert_eq!(
        popup_context_script(&config, &camera, Kind::Detection),
        r#"window.__POPUP__={"camera":"front_doorbell","fit":"cover","go2rtc":"http://192.168.1.10:1984","kind":"detection","label":"person","stream":"doorbell_sub"};"#
    );
}

#[test]
fn quotes_in_the_css_are_escaped() {
    let popup = Popup {
        video_fit: "a\"b".into(),
        ..Popup::default()
    };
    assert!(overlay_script(&popup).contains(r#"object-fit:a\"b"#));
}

#[test]
fn slot_zero_hugs_each_corner() {
    let f = footprint();
    let p = place(area(), f, Corner::BottomRight, 0);
    assert_eq!((p.x, p.y), (1920 - 480 - 24, 1040 - 270 - 24));
    let p = place(area(), f, Corner::TopLeft, 0);
    assert_eq!((p.x, p.y), (24, 24));
    let p = place(area(), f, Corner::TopRight, 0);
    assert_eq!((p.x, p.y), (1920 - 480 - 24, 24));
    let p = place(area(), f, Corner::BottomLeft, 0);
    assert_eq!((p.x, p.y), (24, 1040 - 270 - 24));
}

#[test]
fn stacking_moves_away_from_the_chosen_corner() {
    let f = footprint();
    let slot0 = place(area(), f, Corner::BottomRight, 0);
    let slot1 = place(area(), f, Corner::BottomRight, 1);
    assert_eq!(slot1.x, slot0.x);
    assert_eq!(slot0.y - slot1.y, 270 + 12);
    let slot0 = place(area(), f, Corner::TopLeft, 0);
    let slot1 = place(area(), f, Corner::TopLeft, 1);
    assert_eq!(slot1.y - slot0.y, 270 + 12);
}

#[test]
fn monitor_offsets_are_respected_on_a_secondary_display() {
    let left_monitor = Rect {
        x: -1920,
        y: 0,
        w: 1920,
        h: 1040,
    };
    let p = place(left_monitor, footprint(), Corner::BottomRight, 0);
    assert_eq!((p.x, p.y), (-1920 + 1920 - 480 - 24, 1040 - 270 - 24));
}

#[test]
fn window_labels_derive_from_the_camera() {
    assert_eq!(label_for("front_doorbell"), "popup-front_doorbell");
    assert_eq!(Kind::Detection.as_str(), "detection");
    assert_eq!(Kind::Live.as_str(), "live");
}

#[test]
fn the_monitor_setting_picks_a_strategy() {
    assert_eq!(
        monitor_choice(&MonitorSelect::Named("cursor".into())),
        MonitorChoice::Cursor
    );
    assert_eq!(
        monitor_choice(&MonitorSelect::Named("primary".into())),
        MonitorChoice::Primary
    );
    assert_eq!(monitor_choice(&MonitorSelect::Index(2)), MonitorChoice::Index(2));
}

#[test]
fn the_page_setting_picks_local_or_go2rtc() {
    let mut config = config();
    let camera = config.cameras[0].clone();
    assert!(matches!(
        popup_page(&config, &camera, Kind::Live),
        PopupPage::Local { .. }
    ));
    config.popup.page = "go2rtc".into();
    match popup_page(&config, &camera, Kind::Live) {
        PopupPage::External { url, script } => {
            assert_eq!(
                url,
                "http://192.168.1.10:1984/stream.html?src=doorbell_sub&mode=webrtc"
            );
            assert!(script.contains("object-fit:cover"));
        }
        other => panic!("expected go2rtc's page, got {other:?}"),
    }
}

#[test]
fn the_popup_context_frames_the_literals_it_is_given() {
    assert_eq!(
        popup_context_around("\"a\"", "1", "null", "[]", "\"\"", "{}"),
        r#"window.__POPUP__={"camera":"a","fit":1,"go2rtc":null,"kind":[],"label":"","stream":{}};"#
    );
}

#[test]
fn the_overlay_frames_the_css_literal_it_is_given() {
    let script = overlay_script_around("\"x\"");
    assert!(script.starts_with("(function(){var css=\"x\";function inject(){"));
    assert!(script.ends_with("},5000);}})();"));
}

#[test]
fn a_picker_entry_frames_the_name_literal_it_is_given() {
    assert_eq!(picker_entry_around(true, "\"n\""), r#"{"enabled":true,"name":"n"}"#);
    assert_eq!(picker_entry_around(false, "\"n\""), r#"{"enabled":false,"name":"n"}"#);
}

#[test]
fn the_picker_script_lists_its_entries_in_order() {
    let entries = vec!["{\"a\":1}".to_string(), "{}".to_string()];
    assert_eq!(picker_script_around(&entries), r#"window.__PICKER__={"cameras":[{"a":1},{}]};"#);
    assert_eq!(picker_script_around(&Vec::new()), r#"window.__PICKER__={"cameras":[]};"#);
}

#[test]
fn names_with_quotes_reach_the_picker_escaped() {
    let mut config = config();
    config.cameras[0].name = "say \"hi\"".into();
    assert!(context_script(&config).contains(r#""name":"say \"hi\"""#));
}
