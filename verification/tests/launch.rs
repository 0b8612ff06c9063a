use frigate_popup::config::{
    default_client_id, default_keepalive, default_mqtt_port, default_topic_prefix, Camera, Config,
    Detection, Frigate, Hotkey, Mqtt, Popup,
};
use frigate_popup::launch::preview_targets;
use frigate_popup::tray::{camera_item_id, camera_item_title, camera_of_item, tooltip};

fn camera(name: &str, enabled: bool) -> Camera {
    Camera {
        name: name.into(),
        stream: format!("{name}_sub"),
        enabled,
        labels: None,
        required_zones: None,
        cooldown_seconds: None,
    }
}

fn config(cameras: Vec<Camera>) -> Config {
    Config {
        mqtt: Mqtt {
            host: "h".into(),
            port: default_mqtt_port(),
            username: None,
            password: None,
            password_env: None,
            client_id: default_client_id(),
            topic_prefix: default_topic_prefix(),
            keepalive_seconds: default_keepalive(),
        },
        frigate: Frigate {
            ui_url: "http://a".into(),
            go2rtc_url: "http://b".into(),
        },
        popup: Popup::default(),
        detection: Detection::default(),
        hotkey: Hotkey::default(),
        cameras,
    }
}

fn names(v: &[&Camera]) -> Vec<String> {
    v.iter().map(|c| c.name.clone()).collect()
}

#[test]
fn preview_defaults_to_the_first_enabled_cameras() {
    let c = config(vec![
        camera("a", false),
        camera("b", true),
        camera("c", true),
        camera("d", true),
    ]);
    let targets = preview_targets(&c, &vec![]).expect("defaults");
    assert_eq!(names(&targets), vec!["b", "c"]);
}

#[test]
fn preview_without_enabled_cameras_is_an_error() {
    let c = config(vec![camera("a", false)]);
    assert_eq!(
        preview_targets(&c, &vec![]).unwrap_err(),
        "--preview was given no camera names and no cameras are enabled in the config"
    );
}

#[test]
fn named_previews_include_disabled_cameras_in_order() {
    let c = config(vec![camera("a", false), camera("b", true)]);
    let targets = preview_targets(&c, &vec!["b".into(), "a".into()]).expect("named");
    assert_eq!(names(&targets), vec!["b", "a"]);
}

#[test]
fn an_unknown_preview_name_lists_the_known_cameras() {
    let c = config(vec![camera("a", false), camera("b", true)]);
    assert_eq!(
        preview_targets(&c, &vec!["b".into(), "x".into(), "y".into()]).unwrap_err(),
        "--preview names camera `x`, which is not in the config. Known cameras: a, b"
    );
}

#[test]
fn tray_items_name_and_find_their_camera() {
    let cam = camera("front_door_cam", false);
    assert_eq!(camera_item_id(&cam), "camera:front_door_cam");
    assert_eq!(camera_item_title(&cam), "front door cam  (alerts off)");
    assert_eq!(camera_item_title(&camera("shed", true)), "shed");
    assert_eq!(camera_of_item("camera:front_door_cam"), Some("front_door_cam"));
    assert_eq!(camera_of_item("quit"), None);
    assert_eq!(tooltip(true), "frigate-popup - notifications paused");
    assert_eq!(tooltip(false), "frigate-popup");
}
