use codex_plus_core::paths::Platform;
use codex_plus_core::watcher::macos::{
    add_listed_ids, add_printed_ids, ids_matching_in_list, macos_codex_related_process_fragments, macos_launcher_bundle_path,
    macos_process_ids_matching, owners_with_commands, port_owner_arguments, port_owner_ids, printed_command, process_command_arguments,
    process_list_arguments, queried_ports, signal_all, signal_arguments,
    stop_macos_port_owner_processes, Signal,
};
use codex_plus_core::watcher::setup::{
    create_startup_shortcut, install_plan_for, startup_shortcut_path, InstallStage, RemovalStage, WatcherError,
};
use codex_plus_core::watcher::stopping::{stop_macos_processes_matching, StopPlan};
use codex_plus_core::watcher::{
    build_spawn_launcher_command, build_watcher_install_plan, codex_process_ids,
    disable_watcher_at, enable_watcher_at,
    filter_killable_launcher_processes, filter_macos_codex_related_port_owner_processes,
    find_codex_processes, install_watcher, should_recover_stale_launcher, stop_codex_processes, stop_codex_processes_at,
    stop_codex_related_processes_listening_on_ports, stop_launcher_processes, uninstall_watcher,
    watcher_disabled_flag, ProcessEntry, WatcherInstallPlan, WATCHER_RUN_KEY, WATCHER_RUN_NAME,
    WATCHER_STARTUP_SHORTCUT_NAME,
};
use std::path::{Path, PathBuf};

fn entry(process_id: u32, parent: u32, exe_file: &str, path: Option<&str>) -> ProcessEntry {
    ProcessEntry {
        process_id,
        parent_process_id: parent,
        exe_file: exe_file.to_string(),
        executable_path: path.map(PathBuf::from),
    }
}

const INSTALLED: &str = "C:\\Program Files\\WindowsApps\\OpenAI.Codex_1.0_x64\\app\\Codex.exe";

#[test]
fn names_of_the_watcher() {
    assert_eq!(WATCHER_RUN_NAME, "CodexPlusPlusWatcher");
    assert_eq!(WATCHER_RUN_KEY, r"Software\Microsoft\Windows\CurrentVersion\Run");
    assert_eq!(WATCHER_STARTUP_SHORTCUT_NAME, "CodexPlusPlusWatcher.lnk");
}

#[test]
fn flag_that_disables_the_watcher() {
    assert_eq!(
        watcher_disabled_flag(Path::new("/home/a/.state")),
        PathBuf::from("/home/a/.state/watcher.disabled")
    );
}

#[test]
fn watcher_is_disabled_and_enabled() {
    let root = Path::new("/home/a/.state");
    let steps = disable_watcher_at(root);
    assert_eq!(steps.directory, Some(root.to_path_buf()));
    assert_eq!(steps.flag, watcher_disabled_flag(root));
    assert_eq!(steps.contents, b"disabled");
    assert_eq!(enable_watcher_at(root, true), Some(steps.flag));
    assert_eq!(enable_watcher_at(root, false), None);
    for odd in ["\\", "//x", "\\\\server"] {
        let odd = Path::new(odd);
        assert_eq!(enable_watcher_at(odd, true), Some(disable_watcher_at(odd).flag));
        assert_eq!(watcher_disabled_flag(odd), odd.join("watcher.disabled"));
    }
    let relative = Path::new("state");
    assert_eq!(disable_watcher_at(relative).flag, PathBuf::from("state/watcher.disabled"));
    assert_eq!(enable_watcher_at(relative, true), Some(disable_watcher_at(relative).flag));
    assert_eq!(disable_watcher_at(Path::new("")).directory, Some(PathBuf::new()));
}

#[test]
fn command_that_starts_the_launcher() {
    assert_eq!(
        build_spawn_launcher_command("C:/a b/launcher.exe", 9229),
        vec!["C:/a b/launcher.exe", "--debug-port", "9229"]
    );
}

#[test]
fn plan_of_the_installation() {
    assert_eq!(
        build_watcher_install_plan(PathBuf::from("/opt/launcher"), 0),
        WatcherInstallPlan {
            run_value_name: "CodexPlusPlusWatcher".to_string(),
            run_value: "\"/opt/launcher\" --debug-port 0".to_string(),
            shortcut_name: "CodexPlusPlusWatcher.lnk".to_string(),
            shortcut_target: "/opt/launcher".to_string(),
            shortcut_arguments: "--debug-port 0".to_string(),
        }
    );
}

#[test]
fn plan_for_a_path_with_spaces() {
    let plan = install_plan_for("C:\\a b\\c.exe".to_string(), 9229);
    assert_eq!(plan.run_value, "\"C:\\a b\\c.exe\" --debug-port 9229");
    assert_eq!(plan.shortcut_target, "C:\\a b\\c.exe");
}

#[test]
fn plan_and_command_start_the_launcher_alike() {
    let plan = build_watcher_install_plan(PathBuf::from("/opt/launcher"), 65535);
    let command = build_spawn_launcher_command("/opt/launcher", 65535);
    assert_eq!(plan.shortcut_arguments, command[1..].join(" "));
}

#[test]
fn processes_of_the_installed_application() {
    assert_eq!(
        codex_process_ids(&[(1, INSTALLED), (2, "C:\\Codex.exe"), (3, INSTALLED)]),
        vec![1, 3]
    );
    assert_eq!(codex_process_ids(&[]), Vec::<u32>::new());
}

#[test]
fn launchers_that_may_be_stopped() {
    let processes = [
        (1, 0, "explorer.exe"),
        (10, 1, "Codex-Plus-Plus.exe"),
        (11, 10, "codex-plus-plus.exe"),
        (12, 11, "codex-plus-plus-manager.exe"),
        (20, 1, "CODEX-PLUS-PLUS.EXE"),
        (21, 20, "codex-plus-plus.exe"),
        (22, 20, "codex.exe"),
    ];
    assert_eq!(filter_killable_launcher_processes(&processes, 12), vec![20, 21]);
    assert_eq!(filter_killable_launcher_processes(&processes, 0), vec![10, 11, 20, 21]);
}

#[test]
fn parents_in_a_circle_are_all_kept() {
    let processes = [
        (5, 6, "codex-plus-plus.exe"),
        (6, 5, "codex-plus-plus.exe"),
        (7, 7, "codex-plus-plus.exe"),
    ];
    assert_eq!(filter_killable_launcher_processes(&processes, 5), vec![7]);
}

#[test]
fn the_last_parent_of_a_process_counts() {
    let processes = [
        (5, 6, "a.exe"),
        (6, 0, "codex-plus-plus.exe"),
        (8, 0, "codex-plus-plus.exe"),
        (5, 8, "a.exe"),
    ];
    assert_eq!(filter_killable_launcher_processes(&processes, 5), vec![6]);
}

#[test]
fn port_owners_that_belong_to_the_application() {
    let processes = [
        (1, "/Applications/Codex.app/Contents/MacOS/Codex"),
        (2, "/usr/bin/python server.py"),
        (3, "/home/a/.codex/bin/helper"),
        (4, "/Applications/Codex.app/Contents/MacOS/Codex"),
    ];
    assert_eq!(
        filter_macos_codex_related_port_owner_processes(
            &processes,
            4,
            &[" /Applications/Codex.app ", "", "  ", "/home/a/.codex"],
        ),
        vec![1, 3]
    );
    assert_eq!(
        filter_macos_codex_related_port_owner_processes(&processes, 4, &["", " "]),
        Vec::<u32>::new()
    );
}

#[test]
fn application_is_found_on_windows() {
    let processes = [
        entry(1, 0, "CODEX.exe", Some(INSTALLED)),
        entry(2, 0, "codex.exe", None),
        entry(3, 0, "codex.exe", Some("C:\\codex.exe")),
        entry(4, 0, "other.exe", Some(INSTALLED)),
    ];
    assert_eq!(find_codex_processes(Platform::Windows, &processes), vec![1]);
    assert_eq!(find_codex_processes(Platform::MacOs, &processes), Vec::<u32>::new());
    assert_eq!(find_codex_processes(Platform::Other, &processes), Vec::<u32>::new());
}

#[test]
fn watcher_is_installed_on_windows() {
    let launcher = Path::new("/opt/codex/launcher");
    let steps = match install_watcher(Platform::Windows, launcher, 9229, Some(Path::new("/data"))) {
        Ok(steps) => steps,
        Err(_) => panic!("the watcher is installed"),
    };
    assert_eq!(steps.plan, build_watcher_install_plan(launcher.to_path_buf(), 9229));
    assert_eq!(steps.command, vec!["/opt/codex/launcher", "--debug-port", "9229"]);
    let shortcut = match steps.shortcut {
        Ok(shortcut) => shortcut,
        Err(_) => panic!("the directory is known"),
    };
    assert_eq!(
        shortcut.path,
        PathBuf::from(
            "/data/Microsoft/Windows/Start Menu/Programs/Startup/CodexPlusPlusWatcher.lnk"
        )
    );
    assert_eq!(shortcut.target, launcher);
    assert_eq!(shortcut.arguments, "--debug-port 9229");
    assert_eq!(shortcut.working_directory, Some(PathBuf::from("/opt/codex")));
    assert_eq!(shortcut.description, "Codex++ watcher");
    assert_eq!(shortcut.icon, None);
    assert!(shortcut.show_minimized);
}

#[test]
fn watcher_without_startup_directory() {
    let launcher = Path::new("/");
    match install_watcher(Platform::Windows, launcher, 9229, None) {
        Ok(steps) => assert!(matches!(steps.shortcut, Err(WatcherError::NoStartupDirectory))),
        Err(_) => panic!("the value is set"),
    }
    assert_eq!(WatcherError::NoStartupDirectory.message(), "无法定位 Windows 启动目录");
    match create_startup_shortcut(launcher, "", Some(Path::new("a"))) {
        Ok(shortcut) => assert_eq!(shortcut.working_directory, None),
        Err(_) => panic!("the directory is known"),
    }
}

#[test]
fn watcher_is_not_installed_elsewhere() {
    for platform in [Platform::MacOs, Platform::Other] {
        let result = install_watcher(platform, Path::new("/a"), 1, Some(Path::new("/data")));
        assert!(matches!(result, Err(WatcherError::OnlyOnWindows)));
    }
    assert_eq!(
        WatcherError::OnlyOnWindows.message(),
        "watcher install is only supported on Windows"
    );
}

fn stages(app_data: Option<&Path>, outcomes: &[bool]) -> Vec<InstallStage> {
    let mut steps =
        match install_watcher(Platform::Windows, Path::new("/a/launcher"), 9229, app_data) {
            Ok(steps) => steps,
            Err(_) => panic!("the watcher can be installed"),
        };
    let mut reached = vec![steps.stage];
    for succeeded in outcomes {
        steps.next(*succeeded);
        reached.push(steps.stage);
    }
    reached
}

#[test]
fn failed_step_ends_the_installation() {
    let data = Some(Path::new("/data"));
    assert_eq!(
        stages(data, &[true, true, false, false]),
        vec![
            InstallStage::SettingRunValue,
            InstallStage::CreatingShortcut,
            InstallStage::StartingLauncher,
            InstallStage::Installed,
            InstallStage::Installed,
        ]
    );
    assert_eq!(
        stages(data, &[false, true]),
        vec![InstallStage::SettingRunValue, InstallStage::Failed, InstallStage::Failed]
    );
    assert_eq!(
        stages(data, &[true, false]),
        vec![
            InstallStage::SettingRunValue,
            InstallStage::CreatingShortcut,
            InstallStage::Failed,
        ]
    );
    assert_eq!(
        stages(None, &[true]),
        vec![InstallStage::SettingRunValue, InstallStage::Failed]
    );
}

#[test]
fn removal_tries_every_step() {
    let mut steps = uninstall_watcher(Platform::Windows, Some(Path::new("/data"))).unwrap();
    let mut reached = vec![steps.stage];
    while steps.stage != RemovalStage::Removed {
        steps.next();
        reached.push(steps.stage);
    }
    assert_eq!(
        reached,
        vec![
            RemovalStage::DeletingRunValue,
            RemovalStage::RemovingShortcut,
            RemovalStage::StoppingLaunchers,
            RemovalStage::Removed,
        ]
    );
    let mut steps = uninstall_watcher(Platform::Windows, None).unwrap();
    steps.next();
    assert_eq!(steps.stage, RemovalStage::StoppingLaunchers);
}

#[test]
fn removal_undoes_the_installation() {
    let data = Path::new("/data");
    let removal = uninstall_watcher(Platform::Windows, Some(data)).unwrap();
    assert_eq!(removal.run_value_name, WATCHER_RUN_NAME);
    assert_eq!(removal.shortcut, startup_shortcut_path(Some(data)));
    assert!(removal.shortcut.is_some());
    assert!(uninstall_watcher(Platform::Windows, None).unwrap().shortcut.is_none());
    assert!(uninstall_watcher(Platform::MacOs, Some(data)).is_none());
    assert!(uninstall_watcher(Platform::Other, Some(data)).is_none());
}

#[test]
fn arguments_of_commands() {
    assert_eq!(process_list_arguments(), vec!["-axww", "-o", "pid=,command="]);
    assert_eq!(
        port_owner_arguments(9229),
        vec!["-nP", "-iTCP:9229", "-sTCP:LISTEN", "-t"]
    );
    assert_eq!(process_command_arguments(77), vec!["-p", "77", "-o", "command="]);
    assert_eq!(signal_arguments(77, Signal::Term), vec!["-TERM", "77"]);
    assert_eq!(
        signal_all(&vec![1, 2], Signal::Kill),
        vec![vec!["-KILL", "1"], vec!["-KILL", "2"]]
    );
    assert_eq!(Signal::Term.next(), Some(Signal::Kill));
    assert_eq!(Signal::Kill.next(), None);
    assert_eq!(queried_ports(&[0, 9229, 0, 1]), vec![9229, 1]);
}

#[test]
fn processes_whose_commands_match() {
    let listing = b"  12 /Applications/Codex++.app/Contents  a\n x /Applications/Codex++.app\n\n99 /bin/sh\r\n 7\t/bin/a   /Applications/Codex++.app\xff\n";
    assert_eq!(
        macos_process_ids_matching(listing, " /Applications/Codex++.app "),
        vec![12, 7]
    );
    assert_eq!(macos_process_ids_matching(listing, "Contents a"), vec![12]);
    assert_eq!(macos_process_ids_matching(listing, "app\u{fffd}"), vec![7]);
    assert_eq!(macos_process_ids_matching(b"", "a"), Vec::<u32>::new());
    assert_eq!(ids_matching_in_list("1 a b\n2 b a\n", "a  b"), Vec::<u32>::new());
    assert_eq!(ids_matching_in_list("1 a  b\n2 b a\n+3 a b", " a b "), vec![1, 3]);
}

#[test]
fn printed_numbers_are_found_once() {
    let mut ids: Vec<u32> = vec![4];
    add_printed_ids(&mut ids, b"12\n 4 \nabc\n4294967296\n12\n7");
    ids.sort();
    assert_eq!(ids, vec![4, 7, 12]);
    add_listed_ids(&mut ids, "8\n7\n");
    assert_eq!(ids, vec![4, 7, 12, 8]);
    assert_eq!(printed_command(b"  /bin/sh -c x \n"), "/bin/sh -c x");
}

#[test]
fn owners_whose_commands_could_be_had() {
    let printed = vec![Some(b" /a b \n".to_vec()), None, Some(b"\xff".to_vec())];
    assert_eq!(
        owners_with_commands(vec![7, 8, 9], &printed),
        vec![(7, "/a b".to_string()), (9, "\u{fffd}".to_string())]
    );
    assert!(owners_with_commands(vec![], &vec![]).is_empty());
}

#[test]
fn owners_of_all_ports_are_found_once() {
    let outputs = vec![Some(b"3\n1\n".to_vec()), None, Some(b"1\n2\nx\n".to_vec())];
    let mut ids = port_owner_ids(&outputs);
    ids.sort();
    assert_eq!(ids, vec![1, 2, 3]);
    assert!(port_owner_ids(&vec![None]).is_empty());
}

#[test]
fn numbers_found_twice_before_stay() {
    let mut ids: Vec<u32> = vec![4, 4];
    add_listed_ids(&mut ids, "4\n5\n5\n");
    assert_eq!(ids, vec![4, 4, 5]);
}

#[test]
fn bundle_of_the_launcher() {
    assert_eq!(
        macos_launcher_bundle_path(Path::new(
            "/Applications/Codex++ 管理工具.app/Contents/MacOS/CodexPlusPlusManager"
        )),
        Some(PathBuf::from("/Applications/Codex++.app"))
    );
    assert_eq!(macos_launcher_bundle_path(Path::new("/opt/a/b/manager")), None);
    assert_eq!(macos_launcher_bundle_path(Path::new("/opt/a.app/b/MacOS/manager")), None);
    assert_eq!(
        macos_launcher_bundle_path(Path::new("Codex++.app/Contents/MacOS/CodexPlusPlus")),
        Some(PathBuf::from("Codex++.app"))
    );
    assert_eq!(macos_launcher_bundle_path(Path::new("/a/manager")), None);
}

#[test]
fn fragments_of_the_application() {
    assert_eq!(
        macos_codex_related_process_fragments(Path::new("/a"), Path::new("/b"), None),
        vec!["/a", "/b"]
    );
    assert_eq!(
        macos_codex_related_process_fragments(
            Path::new("/a"),
            Path::new("/b"),
            Some(Path::new("/c")),
        ),
        vec!["/a", "/b", "/c"]
    );
}

#[test]
fn matching_processes_are_stopped_in_two_rounds() {
    let mut stop = stop_macos_processes_matching(" /opt/app ");
    assert_eq!(stop.fragment, "/opt/app");
    assert_eq!(stop.signal, Some(Signal::Term));
    let first = stop.next(Some(b"1 /opt/app\n2 /opt/app/x\n3 /bin\n"));
    assert_eq!(first, vec![vec!["-TERM", "1"], vec!["-TERM", "2"]]);
    assert_eq!(stop.signal, Some(Signal::Kill));
    let second = stop.next(Some(b"2 /opt/app/x\n"));
    assert_eq!(second, vec![vec!["-KILL", "2"]]);
    assert_eq!(stop.signal, None);
    assert!(stop.next(Some(b"2 /opt/app/x\n")).is_empty());
}

#[test]
fn rounds_end_if_nothing_matches() {
    let mut stop = stop_macos_processes_matching("/opt/app");
    assert!(stop.next(Some(b"3 /bin\n")).is_empty());
    assert_eq!(stop.signal, None);
    let mut stop = stop_macos_processes_matching("/opt/app");
    assert!(stop.next(None).is_empty());
    assert_eq!(stop.signal, None);
}

#[test]
fn blank_fragment_stops_nothing() {
    let mut stop = stop_macos_processes_matching(" \n");
    assert_eq!(stop.signal, None);
    assert!(stop.next(Some(b"1 /bin/sh\n")).is_empty());
}

#[test]
fn port_owners_are_stopped_in_two_rounds() {
    let mut stop = stop_codex_related_processes_listening_on_ports(
        Path::new("/opt/app"),
        Path::new("/home/a/.codex"),
        None,
        &[0, 9229],
    );
    assert_eq!(stop.fragments, vec!["/opt/app", "/home/a/.codex"]);
    assert_eq!(stop.ports, vec![9229]);
    let owners = vec![
        (1, "/opt/app/x".to_string()),
        (2, "/bin/sh".to_string()),
        (3, "/home/a/.codex/y".to_string()),
    ];
    assert_eq!(stop.next(&owners, 3), vec![vec!["-TERM", "1"]]);
    assert_eq!(stop.signal, Some(Signal::Kill));
    assert_eq!(stop.next(&owners, 1), vec![vec!["-KILL", "3"]]);
    assert_eq!(stop.signal, None);
    assert!(stop.next(&owners, 1).is_empty());
    assert_eq!(
        stop_macos_port_owner_processes(&owners, 9, &vec!["sh".to_string()], Signal::Kill),
        vec![vec!["-KILL", "2"]]
    );
}

#[test]
fn plans_to_stop_launchers() {
    let processes = [entry(1, 0, "codex-plus-plus.exe", None), entry(2, 0, "a.exe", None)];
    let bundle = Path::new("/Applications/Codex++.app");
    match stop_launcher_processes(Platform::Windows, &processes, 2, Some(bundle)) {
        StopPlan::Terminate(ids) => assert_eq!(ids, vec![1]),
        _ => panic!("the launcher is ended"),
    }
    match stop_launcher_processes(Platform::MacOs, &processes, 2, Some(bundle)) {
        StopPlan::Signals(stop) => assert_eq!(stop.fragment, "/Applications/Codex++.app"),
        _ => panic!("the launcher is sent signals"),
    }
    assert!(matches!(
        stop_launcher_processes(Platform::MacOs, &processes, 2, None),
        StopPlan::Nothing
    ));
    assert!(matches!(
        stop_launcher_processes(Platform::Other, &processes, 2, Some(bundle)),
        StopPlan::Nothing
    ));
}

#[test]
fn plans_to_stop_the_application() {
    let processes = [entry(1, 0, "codex.exe", Some(INSTALLED))];
    let app_dir = Path::new("/Applications/Codex.app");
    match stop_codex_processes(Platform::Windows, &processes, None) {
        StopPlan::Terminate(ids) => assert_eq!(ids, vec![1]),
        _ => panic!("the application is ended"),
    }
    match stop_codex_processes(Platform::MacOs, &processes, Some(app_dir)) {
        StopPlan::Signals(stop) => {
            assert_eq!(stop.fragment, "/Applications/Codex.app");
            assert_eq!(stop.signal, Some(Signal::Term));
        }
        _ => panic!("the application is sent signals"),
    }
    assert!(matches!(
        stop_codex_processes(Platform::MacOs, &processes, None),
        StopPlan::Nothing
    ));
    assert!(matches!(
        stop_codex_processes(Platform::Other, &processes, Some(app_dir)),
        StopPlan::Nothing
    ));
    assert!(matches!(
        stop_codex_processes_at(Platform::MacOs, app_dir),
        StopPlan::Signals(_)
    ));
    assert!(matches!(
        stop_codex_processes_at(Platform::Windows, app_dir),
        StopPlan::Nothing
    ));
}

#[test]
fn stale_launchers() {
    assert!(should_recover_stale_launcher(false, false));
    assert!(!should_recover_stale_launcher(true, false));
    assert!(!should_recover_stale_launcher(false, true));
    assert!(!should_recover_stale_launcher(true, true));
}
