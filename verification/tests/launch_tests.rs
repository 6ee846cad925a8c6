use waystart::LaunchError;
use waystart::build_launch_plan;

#[test]
fn plain_entries_run_their_argv() {
    let argv = vec!["editor".to_string(), "--new-window".to_string()];
    let plan = build_launch_plan(&argv, &None, false, &None, &None, &Some("/home/user".into()))
        .unwrap();
    assert_eq!(plan.program, "editor");
    assert_eq!(plan.args, vec!["--new-window".to_string()]);
    assert_eq!(plan.cwd.as_deref(), Some("/home/user"));
}

#[test]
fn terminal_entries_are_wrapped_with_dash_e() {
    let argv = vec!["htop".to_string()];
    let plan = build_launch_plan(
        &argv,
        &None,
        true,
        &Some("kitty".to_string()),
        &Some("foot".to_string()),
        &None,
    )
        .unwrap();
    assert_eq!(plan.program, "kitty");
    assert_eq!(plan.args, vec!["-e".to_string(), "htop".to_string()]);
}

#[test]
fn detected_terminal_is_the_fallback() {
    let argv = vec!["htop".to_string()];
    let plan = build_launch_plan(&argv, &None, true, &None, &Some("foot".to_string()), &None)
        .unwrap();
    assert_eq!(plan.program, "foot");
}

#[test]
fn missing_terminal_is_an_error() {
    let argv = vec!["htop".to_string()];
    let r = build_launch_plan(&argv, &None, true, &None, &None, &None);
    match r {
        Err(e) => assert_eq!(e, LaunchError::NoTerminal),
        Ok(_) => panic!("a terminal entry without any terminal must fail"),
    }
}

#[test]
fn empty_argv_is_an_error() {
    let r = build_launch_plan(&Vec::new(), &None, false, &None, &None, &None);
    match r {
        Err(e) => assert_eq!(e, LaunchError::EmptyExec),
        Ok(_) => panic!("an empty argument vector must fail"),
    }
}

#[test]
fn entry_working_dir_beats_home() {
    let argv = vec!["make".to_string()];
    let plan = build_launch_plan(
        &argv,
        &Some("/srv/project".to_string()),
        false,
        &None,
        &None,
        &Some("/home/user".to_string()),
    )
        .unwrap();
    assert_eq!(plan.cwd.as_deref(), Some("/srv/project"));
}
