use frigate_popup::config::{
    default_client_id, default_keepalive, default_mqtt_port, default_topic_prefix,
    problem_report, Camera, Config, Corner, Detection, Frigate, Hotkey, MonitorSelect, Mqtt, Popup,
};

fn camera(name: &str, stream: &str) -> Camera {
    Camera {
        name: name.into(),
        stream: stream.into(),
        enabled: true,
        labels: None,
        required_zones: None,
        cooldown_seconds: None,
    }
}

/// The minimal config: a broker host, the two URLs and one camera, the rest defaulted.
fn minimal() -> Config {
    Config {
        mqtt: Mqtt {
            host: "192.168.1.11".into(),
            port: default_mqtt_port(),
            username: None,
            password: None,
            password_env: None,
            client_id: default_client_id(),
            topic_prefix: default_topic_prefix(),
            keepalive_seconds: default_keepalive(),
        },
        frigate: Frigate {
            ui_url: "https://192.168.1.10:8971/".into(),
            go2rtc_url: "http://192.168.1.10:1984".into(),
        },
        popup: Popup::default(),
        detection: Detection::default(),
        hotkey: Hotkey::default(),
        cameras: vec![camera("doorbell", "doorbell_sub")],
    }
}

#[test]
fn minimal_config_fills_in_defaults() {
    let mut c = minimal();
    assert!(c.normalize_and_validate(false).is_ok());
    assert!(c.cameras[0].enabled);
    assert_eq!(c.mqtt.port, 1883);
    assert_eq!(c.mqtt.topic_prefix, "frigate");
    assert_eq!(c.mqtt.client_id, "frigate-popup");
    assert_eq!(c.mqtt.keepalive_seconds, 30);
    assert_eq!(c.popup.width, 480);
    assert_eq!(c.popup.corner, Corner::BottomRight);
    assert_eq!(c.popup.max_popups, 2);
    assert_eq!(c.detection.labels, vec!["person".to_string()]);
    assert_eq!(c.detection.cooldown_seconds, 60);
    assert!(c.hotkey.enabled);
    assert_eq!(c.hotkey.binding, "F20");
    assert!(matches!(&c.popup.monitor, MonitorSelect::Named(n) if n == "primary"));
}

#[test]
fn trailing_slashes_are_stripped_from_urls() {
    let mut c = minimal();
    assert!(c.normalize_and_validate(false).is_ok());
    assert_eq!(c.frigate.ui_url, "https://192.168.1.10:8971");
    assert_eq!(
        c.camera_ui_url("doorbell"),
        "https://192.168.1.10:8971/cameras/doorbell"
    );
}

#[test]
fn normalizing_strips_trailing_slashes_from_urls() {
    let mut c = minimal();
    c.mqtt.topic_prefix = "/frigate/".into();
    c.frigate.go2rtc_url = "http://192.168.1.10:1984//".into();
    c.normalize();
    assert_eq!(c.frigate.ui_url, "https://192.168.1.10:8971");
    assert_eq!(c.frigate.go2rtc_url, "http://192.168.1.10:1984");
    assert_eq!(c.mqtt.topic_prefix, "frigate");
    assert_eq!(
        c.camera_ui_url("doorbell"),
        "https://192.168.1.10:8971/cameras/doorbell"
    );
}

#[test]
fn per_camera_overrides_win_over_globals() {
    let mut c = minimal();
    c.cameras[0].labels = Some(vec!["dog".into()]);
    c.cameras[0].cooldown_seconds = Some(5);
    let cam = c.camera("doorbell").expect("camera present");
    assert_eq!(c.labels_for(cam), &vec!["dog".to_string()]);
    assert_eq!(c.cooldown_for(cam), 5);
    assert!(c.camera("nope").is_none());
}

#[test]
fn every_problem_is_reported_at_once() {
    let mut c = minimal();
    c.mqtt.host = "".into();
    c.mqtt.port = 0;
    c.frigate.ui_url = "192.168.1.10:8971".into();
    c.frigate.go2rtc_url = "ftp://nope".into();
    c.popup.max_display_seconds = 5;
    c.popup.min_display_seconds = 30;
    c.popup.max_popups = 0;
    c.popup.monitor = MonitorSelect::Named("leftmost".into());
    c.popup.stream_mode = "webrtc,telepathy".into();
    c.cameras = vec![camera("doorbell", "a"), camera("doorbell", "")];
    let problems = c.normalize_and_validate(false).expect_err("config should be rejected");
    let msg = problems.details;
    for expected in [
        "mqtt.host is empty",
        "mqtt.port must be",
        "frigate.ui_url",
        "frigate.go2rtc_url",
        "min_display_seconds",
        "max_popups",
        "leftmost",
        "telepathy",
        "defined twice",
        "stream is empty",
    ] {
        assert!(msg.contains(expected), "missing {expected:?} in:\n{msg}");
    }
    assert_eq!(problems.count, msg.lines().count());
}

#[test]
fn problem_messages_are_exact() {
    let mut c = minimal();
    c.popup.max_display_seconds = 5;
    c.popup.min_display_seconds = 30;
    c.popup.linger_seconds = 15;
    c.cameras = vec![camera("doorbell", "a"), camera(" ", "b"), camera("doorbell", "c")];
    c.cameras[0].labels = Some(vec![]);
    c.normalize();
    assert_eq!(
        c.problems(false),
        vec![
            "popup.min_display_seconds (30) cannot exceed popup.max_display_seconds (5)".to_string(),
            "popup.linger_seconds (15) cannot exceed popup.max_display_seconds (5), so the linger would always be cut short".to_string(),
            "cameras[0].labels is an empty list - remove it to inherit detection.labels".to_string(),
            "cameras[1].name is empty".to_string(),
            "cameras[2].name = \"doorbell\" is defined twice".to_string(),
        ]
    );
}

#[test]
fn password_and_environment_problems_are_reported() {
    let mut c = minimal();
    c.mqtt.password = Some("x".into());
    c.mqtt.password_env = Some("FP_TEST_PASSWORD".into());
    c.mqtt.topic_prefix = "//".into();
    c.normalize();
    assert_eq!(
        c.problems(false),
        vec![
            "mqtt.password and mqtt.password_env are both set - pick one".to_string(),
            "mqtt.password_env points at environment variable `FP_TEST_PASSWORD`, which is not set".to_string(),
            "mqtt.topic_prefix is empty (the Frigate default is \"frigate\")".to_string(),
        ]
    );
    assert_eq!(c.problems(true).len(), 2);
}

#[test]
fn choices_outside_their_lists_are_reported() {
    let mut c = minimal();
    c.popup.page = "remote".into();
    c.popup.video_fit = "stretch".into();
    c.popup.stream_mode = "mse, hls ,".into();
    c.hotkey.binding = "  ".into();
    c.detection.labels = vec![];
    c.cameras[0].enabled = false;
    c.normalize();
    assert_eq!(
        c.problems(false),
        vec![
            "popup.stream_mode contains unknown mode \"\" - valid modes are webrtc, mse, hls, mjpeg, mp4".to_string(),
            "popup.page = \"remote\" is not recognised - use local, go2rtc".to_string(),
            "popup.video_fit = \"stretch\" is not recognised - use cover, contain, fill".to_string(),
            "hotkey.binding is empty; set a key or use hotkey.enabled = false".to_string(),
            "detection.labels is empty, so nothing would ever trigger".to_string(),
            "every camera has enabled = false, so nothing would ever trigger".to_string(),
        ]
    );
}

#[test]
fn a_config_without_cameras_is_rejected() {
    let mut c = minimal();
    c.cameras = vec![];
    c.popup.monitor = MonitorSelect::Index(1);
    c.popup.width = 0;
    c.popup.watchdog_seconds = 0;
    c.normalize();
    assert_eq!(
        c.problems(false),
        vec![
            "popup.width and popup.height must both be greater than 0".to_string(),
            "popup.watchdog_seconds must be greater than 0".to_string(),
            "no [[cameras]] entries defined".to_string(),
        ]
    );
}

#[test]
fn the_problem_report_lists_one_problem_per_line() {
    let report = problem_report(&vec!["a".to_string(), "b".to_string()]);
    assert_eq!(report, "  - a\n  - b");
    assert_eq!(problem_report(&vec![]), "");
}

#[test]
fn go2rtc_urls_are_built_from_the_base() {
    let mut c = minimal();
    c.popup.stream_mode = "webrtc,mse".into();
    assert_eq!(
        c.stream_url("doorbell_sub"),
        "http://192.168.1.10:1984/stream.html?src=doorbell_sub&mode=webrtc,mse"
    );
    assert_eq!(
        c.frame_url("doorbell_sub"),
        "http://192.168.1.10:1984/api/frame.jpeg?src=doorbell_sub"
    );
}

#[test]
fn the_mqtt_password_prefers_the_literal() {
    let mut c = minimal();
    assert_eq!(c.mqtt_password(Some("env".into())), Ok(None));
    c.mqtt.password_env = Some("VAR".into());
    assert_eq!(c.mqtt_password(Some("env".into())), Ok(Some("env".to_string())));
    assert_eq!(
        c.mqtt_password(None),
        Err("reading MQTT password from environment variable `VAR`".to_string())
    );
    c.mqtt.password = Some("lit".into());
    assert_eq!(c.mqtt_password(None), Ok(Some("lit".to_string())));
}

#[test]
fn normalizing_twice_is_normalizing_once() {
    let mut c = minimal();
    c.frigate.ui_url = "https://x///".into();
    c.mqtt.topic_prefix = "//a/b//".into();
    c.normalize();
    let (ui, topic) = (c.frigate.ui_url.clone(), c.mqtt.topic_prefix.clone());
    assert_eq!(ui, "https://x");
    assert_eq!(topic, "a/b");
    c.normalize();
    assert_eq!(c.frigate.ui_url, ui);
    assert_eq!(c.mqtt.topic_prefix, topic);
}

#[test]
fn each_unknown_stream_mode_is_complained_about_once_in_order() {
    let mut c = minimal();
    c.popup.stream_mode = "webrtc, telepathy,mse, hls ,xx,telepathy".into();
    let prefix = "popup.stream_mode contains unknown mode \"";
    let complaints: Vec<String> = c
        .problems(false)
        .into_iter()
        .filter(|p| p.starts_with(prefix))
        .collect();
    let expected: Vec<String> = ["telepathy", "xx", "telepathy"]
        .iter()
        .map(|m| format!("{prefix}{m}\" - valid modes are webrtc, mse, hls, mjpeg, mp4"))
        .collect();
    assert_eq!(complaints, expected);
}
