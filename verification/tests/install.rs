use codex_plus_core::install::{
    app_bundle_names, companion_binary_path_from_exe, default_install_root_strategy,
    option_or_current_exe_from_exe, shortcut_names, MANAGER_BINARY, SILENT_BINARY,
};
use codex_plus_core::paths::Platform;

#[test]
fn installer_exports_expected_two_entrypoint_names() {
    assert_eq!(shortcut_names(), ("Codex++.lnk", "Codex++ 管理工具.lnk"));
    assert_eq!(app_bundle_names(), ("Codex++.app", "Codex++ 管理工具.app"));
}

#[test]
fn companion_binary_path_resolves_macos_silent_app_next_to_manager_app() {
    let manager_exe = std::path::Path::new(
        "/Applications/Codex++ 管理工具.app/Contents/MacOS/CodexPlusPlusManager",
    );

    let companion = companion_binary_path_from_exe(manager_exe, SILENT_BINARY);

    assert_eq!(
        companion,
        std::path::PathBuf::from("/Applications/Codex++.app/Contents/MacOS/CodexPlusPlus")
    );
    assert_ne!(
        companion,
        std::path::PathBuf::from(
            "/Applications/Codex++ 管理工具.app/Contents/MacOS/codex-plus-plus"
        )
    );
}

#[test]
fn macos_manager_app_resolves_installed_silent_launcher_app() {
    let manager_exe = std::path::Path::new(
        "/Applications/Codex++ 管理工具.app/Contents/MacOS/CodexPlusPlusManager",
    );
    let install_root = std::path::Path::new("/Applications");
    let target =
        option_or_current_exe_from_exe(manager_exe, &None, SILENT_BINARY, Some(install_root));

    assert_eq!(
        target,
        std::path::PathBuf::from("/Applications/Codex++.app/Contents/MacOS/CodexPlusPlus")
    );
}

#[test]
fn macos_silent_app_resolves_installed_manager_app() {
    let launcher_exe =
        std::path::Path::new("/Applications/Codex++.app/Contents/MacOS/CodexPlusPlus");
    let install_root = std::path::Path::new("/Applications");
    let target =
        option_or_current_exe_from_exe(launcher_exe, &None, MANAGER_BINARY, Some(install_root));

    assert_eq!(
        target,
        std::path::PathBuf::from(
            "/Applications/Codex++ 管理工具.app/Contents/MacOS/CodexPlusPlusManager"
        )
    );
}

#[test]
fn macos_manager_app_resolves_its_own_executable_for_manager_entry() {
    let manager_exe = std::path::Path::new(
        "/Applications/Codex++ 管理工具.app/Contents/MacOS/CodexPlusPlusManager",
    );
    let install_root = std::path::Path::new("/Applications");
    let target =
        option_or_current_exe_from_exe(manager_exe, &None, MANAGER_BINARY, Some(install_root));

    assert_eq!(
        target,
        std::path::PathBuf::from(
            "/Applications/Codex++ 管理工具.app/Contents/MacOS/CodexPlusPlusManager"
        )
    );
}

#[test]
fn windows_default_install_root_uses_known_folder_before_userprofile_desktop() {
    assert_eq!(default_install_root_strategy(Platform::Windows), "windows-known-folder");
    assert_eq!(default_install_root_strategy(Platform::MacOs), "macos-applications");
    assert_eq!(default_install_root_strategy(Platform::Other), "user-dirs-desktop");
}

#[test]
fn companion_outside_of_bundles_stands_in_the_same_directory() {
    let exe = std::path::Path::new("/opt/codex/codex-plus-plus-manager");
    assert_eq!(
        companion_binary_path_from_exe(exe, SILENT_BINARY),
        std::path::PathBuf::from("/opt/codex/codex-plus-plus")
    );
    let not_a_bundle = std::path::Path::new("/opt/Codex++/Contents/MacOS/CodexPlusPlus");
    assert_eq!(
        companion_binary_path_from_exe(not_a_bundle, SILENT_BINARY),
        std::path::PathBuf::from("/opt/Codex++/Contents/MacOS/codex-plus-plus")
    );
    let root = std::path::Path::new("/");
    assert_eq!(
        companion_binary_path_from_exe(root, SILENT_BINARY),
        std::path::PathBuf::from("/codex-plus-plus")
    );
}

#[test]
fn other_executable_in_a_bundle_stands_in_the_same_directory() {
    let exe = std::path::Path::new("/Applications/Codex++.app/Contents/MacOS/CodexPlusPlus");
    assert_eq!(
        companion_binary_path_from_exe(exe, "helper"),
        std::path::PathBuf::from("/Applications/Codex++.app/Contents/MacOS/helper")
    );
}

#[test]
fn named_executable_comes_first() {
    let exe = std::path::Path::new("/Applications/Codex++.app/Contents/MacOS/CodexPlusPlus");
    let named = Some(std::path::PathBuf::from("/bin/launcher"));
    assert_eq!(
        option_or_current_exe_from_exe(exe, &named, SILENT_BINARY, None),
        std::path::PathBuf::from("/bin/launcher")
    );
    assert_eq!(
        option_or_current_exe_from_exe(exe, &None, SILENT_BINARY, None),
        std::path::PathBuf::from("/Applications/Codex++.app/Contents/MacOS/CodexPlusPlus")
    );
}

#[test]
fn companions_find_each_other() {
    let exe = std::path::Path::new("/Apps/Codex++.app/Contents/MacOS/CodexPlusPlus");
    let manager = companion_binary_path_from_exe(exe, MANAGER_BINARY);
    assert_eq!(companion_binary_path_from_exe(&manager, SILENT_BINARY), exe);
}
