use frigate_popup::cli::{parse, Mode};

fn parse_args(args: &[&str]) -> Result<Mode, String> {
    let mut all = vec!["frigate-popup.exe".to_string()];
    for a in args {
        all.push(a.to_string());
    }
    parse(&all)
}

#[test]
fn no_arguments_means_normal_operation() {
    assert_eq!(parse_args(&[]), Ok(Mode::Normal));
}

#[test]
fn preview_without_a_camera_list_is_allowed() {
    assert_eq!(
        parse_args(&["--preview"]),
        Ok(Mode::Preview { cameras: vec![] })
    );
}

#[test]
fn preview_accepts_a_comma_separated_list() {
    assert_eq!(
        parse_args(&["--preview", "doorbell, garage ,sidedoor"]),
        Ok(Mode::Preview {
            cameras: vec!["doorbell".into(), "garage".into(), "sidedoor".into()]
        })
    );
}

#[test]
fn a_following_flag_is_not_swallowed_as_a_camera_name() {
    assert_eq!(parse_args(&["--preview", "--help"]), Ok(Mode::Help));
}

#[test]
fn simulate_defaults_to_person() {
    assert_eq!(
        parse_args(&["--simulate", "doorbell"]),
        Ok(Mode::Simulate {
            camera: "doorbell".into(),
            label: "person".into()
        })
    );
}

#[test]
fn simulate_accepts_an_explicit_label() {
    assert_eq!(
        parse_args(&["--simulate", "garage:dog"]),
        Ok(Mode::Simulate {
            camera: "garage".into(),
            label: "dog".into()
        })
    );
}

#[test]
fn simulate_without_a_camera_is_an_error() {
    let err = parse_args(&["--simulate"]).expect_err("should be rejected");
    assert!(err.contains("needs a camera name"));
}

#[test]
fn unknown_arguments_are_rejected_with_usage() {
    let err = parse_args(&["--nope"]).expect_err("should be rejected");
    assert!(err.contains("unrecognised argument: --nope"));
    assert!(err.contains("USAGE"));
}

#[test]
fn help_wins_wherever_it_appears() {
    assert_eq!(parse_args(&["--preview", "a", "-h"]), Ok(Mode::Help));
    assert_eq!(parse_args(&["--help", "--nope"]), Ok(Mode::Help));
}

#[test]
fn an_empty_program_path_list_is_normal_operation() {
    assert_eq!(parse(&Vec::new()), Ok(Mode::Normal));
}

#[test]
fn simulate_with_a_flag_instead_of_a_camera_is_an_error() {
    let err = parse_args(&["--simulate", "--help"]).expect_err("flag is not a camera");
    assert!(err.starts_with("--simulate needs a camera name, e.g. --simulate doorbell\n\n"));
    let err = parse_args(&["--simulate", ""]).expect_err("empty is not a camera");
    assert!(err.contains("needs a camera name"));
}

#[test]
fn simulate_with_an_empty_label_falls_back_to_person() {
    assert_eq!(
        parse_args(&["--simulate", "garage:"]),
        Ok(Mode::Simulate {
            camera: "garage:".into(),
            label: "person".into()
        })
    );
    assert_eq!(
        parse_args(&["--simulate", "a:b:c"]),
        Ok(Mode::Simulate {
            camera: "a".into(),
            label: "b:c".into()
        })
    );
}

#[test]
fn the_last_mode_flag_wins() {
    assert_eq!(
        parse_args(&["--preview", "x", "--simulate", "y"]),
        Ok(Mode::Simulate {
            camera: "y".into(),
            label: "person".into()
        })
    );
}

#[test]
fn blank_entries_in_a_preview_list_are_dropped() {
    assert_eq!(
        parse_args(&["--preview", " , a,,\tb ,"]),
        Ok(Mode::Preview {
            cameras: vec!["a".into(), "b".into()]
        })
    );
}

#[test]
fn an_unknown_argument_message_is_exact() {
    let err = parse_args(&["--nope"]).unwrap_err();
    assert_eq!(
        err,
        format!("unrecognised argument: --nope\n\n{}", frigate_popup::cli::USAGE)
    );
}
