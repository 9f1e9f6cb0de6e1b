use emerald_legacy::launcher::{append_log, goldmapper_args, runner_command, MAX_LOG_BYTES};
use emerald_legacy::launcher::{
    apply_launch_prefix, bridge_action_name, default_mappings, game_exited_ok, get_platform,
    list_directory, push_key, unix_path_to_wine_z_path, BridgeAction, TargetOs,
};

#[test]
fn default_mappings_cover_keys_mouse_and_pad() {
    let m = default_mappings();
    assert_eq!(m.len(), 26 + 10 + 12 + 29 + 10 + 16 + 3 + 14);
    assert_eq!((m[0].from.as_str(), m[0].to.as_str()), ("KEY_A", "KEY_A"));
    assert_eq!(m[25].from, "KEY_Z");
    assert_eq!(m[26].from, "KEY_0");
    assert_eq!(m[36].from, "KEY_F1");
    assert_eq!(m[47].from, "KEY_F12");
    assert_eq!(m[48].from, "KEY_SPACE");
    assert_eq!(m[77].from, "KEY_NUMPAD0");
    let last = m.last().unwrap();
    assert_eq!((last.from.as_str(), last.to.as_str()), ("DINPUT_13", "PAD_DPAD_RIGHT"));
    let d0 = m.iter().find(|x| x.from == "DINPUT_0").unwrap();
    assert_eq!(d0.to, "PAD_A");
    assert!(m.iter().any(|x| x.from == "MOUSE_MIDDLE" && x.to == "MOUSE_MIDDLE"));
}

#[test]
fn push_key_maps_a_key_to_itself() {
    let mut m = Vec::new();
    push_key(&mut m, "KEY_Q".to_string());
    assert_eq!(m.len(), 1);
    assert_eq!((m[0].from.as_str(), m[0].to.as_str()), ("KEY_Q", "KEY_Q"));
}

#[test]
fn platform_flags_follow_the_os() {
    let p = get_platform(TargetOs::Linux);
    assert!(p.is_linux && !p.is_mac && !p.is_windows && !p.is_android);
    let p = get_platform(TargetOs::Android);
    assert!(!p.is_linux && !p.is_mac && !p.is_windows && p.is_android);
    let p = get_platform(TargetOs::Windows);
    assert!(p.is_windows && !p.is_linux);
    let p = get_platform(TargetOs::Mac);
    assert!(p.is_mac && !p.is_windows);
}

#[test]
fn wine_paths_live_on_drive_z() {
    assert_eq!(unix_path_to_wine_z_path("/home/x/game.exe"), "Z:\\home\\x\\game.exe");
    assert_eq!(unix_path_to_wine_z_path(""), "Z:");
}

#[test]
fn bridge_actions_have_their_names() {
    assert_eq!(bridge_action_name(BridgeAction::Play), "play");
    assert_eq!(bridge_action_name(BridgeAction::OpenContainer), "open");
    assert_eq!(bridge_action_name(BridgeAction::OpenSettings), "settings");
}

#[test]
fn directory_listing_is_refused() {
    match list_directory("/tmp".to_string()) {
        Err(e) => assert_eq!(e, "list_directory disabled: use get_plugins_dir instead"),
        Ok(_) => panic!("listing must be refused"),
    }
}

#[test]
fn launch_prefix_goes_in_front() {
    let args = vec!["-a".to_string(), "b c".to_string()];
    let (p, a) = apply_launch_prefix("/bin/game", args.clone(), Some("  gamemoderun  --flag x "));
    assert_eq!(p, "gamemoderun");
    assert_eq!(a, vec!["--flag", "x", "/bin/game", "-a", "b c"]);
    let (p, a) = apply_launch_prefix("/bin/game", args.clone(), Some("   "));
    assert_eq!(p, "/bin/game");
    assert_eq!(a, args);
    let (p, a) = apply_launch_prefix("/bin/game", args.clone(), None);
    assert_eq!(p, "/bin/game");
    assert_eq!(a, args);
}

#[test]
fn game_exit_is_judged_by_code_or_log_tail() {
    assert!(game_exited_ok("", 0, true));
    assert!(!game_exited_ok("AppPolicyGetProcessTerminationMethod", 1, true));
    let ok = "start\nrunning\nerr: AppPolicyGetProcessTerminationMethod failed\r\nbye\n";
    assert!(game_exited_ok(ok, 5, false));
    let too_early = "AppPolicyGetProcessTerminationMethod\na\nb\nc\n";
    assert!(!game_exited_ok(too_early, 0, false));
    assert!(!game_exited_ok("", 0, false));
}

#[test]
fn goldmapper_command_line() {
    let extra = vec!["-x".to_string()];
    assert_eq!(
        goldmapper_args("/r/GM.exe", "/c/config.json", "/g/game.exe", &extra, true),
        vec!["Z:\\r\\GM.exe", "Z:\\c\\config.json", "Z:\\g\\game.exe", "-x"]
    );
    assert_eq!(
        goldmapper_args("C:\\GM.exe", "cfg", "game", &extra, false),
        vec!["C:\\GM.exe", "cfg", "game", "-x"]
    );
}

#[test]
fn runner_command_lines() {
    let (p, a) = runner_command("/opt/proton/proton", true, true, "/g/game.exe", &["a".to_string()]);
    assert_eq!(p, "mangohud");
    assert_eq!(a, vec!["/opt/proton/proton", "run", "/g/game.exe", "a"]);
    let (p, a) = runner_command("/bin/wine", false, false, "/g/game.exe", &[]);
    assert_eq!(p, "/bin/wine");
    assert_eq!(a, vec!["/g/game.exe"]);
}

#[test]
fn captured_log_keeps_its_tail() {
    let mut log = vec![1u8, 2];
    append_log(&mut log, &[3]);
    assert_eq!(log, vec![1, 2, 3]);
    let mut big: Vec<u8> = (0..MAX_LOG_BYTES).map(|i| (i % 251) as u8).collect();
    append_log(&mut big, &[7, 8]);
    assert_eq!(big.len(), MAX_LOG_BYTES);
    assert_eq!(big[0], 2);
    assert_eq!(&big[MAX_LOG_BYTES - 2..], &[7, 8]);
}
