//! How the watcher is installed and removed.

use crate::paths;
use crate::paths::{PartView, Platform};
use crate::text;
use std::path::{Path, PathBuf};
use vstd::prelude::*;
use vstd::slice::slice_to_vec;

verus! {

/// The name of the value in the registry that starts the launcher.
pub const WATCHER_RUN_NAME: &'static str = "CodexPlusPlusWatcher";

/// The key in the registry that holds the values that are run when a user logs in.
pub const WATCHER_RUN_KEY: &'static str = "Software\\Microsoft\\Windows\\CurrentVersion\\Run";

/// The name of the shortcut that starts the launcher.
pub const WATCHER_STARTUP_SHORTCUT_NAME: &'static str = "CodexPlusPlusWatcher.lnk";

/// The parts of the file whose presence disables the watcher.
pub open spec fn flag_of(root: Seq<PartView>) -> Seq<PartView> {
    root.push(PartView::Name("watcher.disabled"@))
}

/// Whether a path is that of the file whose presence disables the watcher.
pub open spec fn is_flag(root: &Path, flag: PathBuf) -> bool {
    &&& paths::path_buf_parts(flag) == paths::joined_parts(root, "watcher.disabled"@)
    &&& paths::can_join(root) ==> paths::path_buf_parts(flag) == flag_of(paths::path_parts(root))
    &&& paths::keeps_text(root) ==> paths::is_joined_text(
        paths::path_text(root),
        "watcher.disabled"@,
        paths::path_buf_text(flag),
    )
}

/// The file whose presence disables the watcher.
pub fn watcher_disabled_flag(root: &Path) -> (flag: PathBuf)
    ensures
        is_flag(root, flag),
{
    proof {
        reveal_strlit("watcher.disabled");
        paths::lemma_is_file_name("watcher.disabled"@);
    }
    let flag = paths::join(root, "watcher.disabled");
    assert(paths::path_parts(root) + paths::name_parts(seq!["watcher.disabled"@]) =~= flag_of(
        paths::path_parts(root),
    ));
    flag
}

/// What disables the watcher: a directory that is created if it is missing, and a file in it.
pub struct DisablingSteps {
    pub directory: Option<PathBuf>,
    pub flag: PathBuf,
    pub contents: Vec<u8>,
}

/// Whether the steps disable the watcher: they write the flag, and create the directory that it
/// lies in.
pub open spec fn disables(root: &Path, steps: DisablingSteps) -> bool {
    &&& is_flag(root, steps.flag)
    &&& paths::parent_parts(paths::path_buf_parts(steps.flag)) == match steps.directory {
        Some(directory) => Some(paths::path_buf_parts(directory)),
        None => None,
    }
    &&& steps.contents@ == vstd::utf8::encode_utf8("disabled"@)
}

/// What disables the watcher.
pub fn disable_watcher_at(root: &Path) -> (steps: DisablingSteps)
    ensures
        disables(root, steps),
{
    let flag = watcher_disabled_flag(root);
    let directory = paths::parent(paths::borrow(&flag));
    DisablingSteps { directory, flag, contents: slice_to_vec("disabled".as_bytes()) }
}

/// Whether the removal of a file enables the watcher: it is the flag, and is removed if it
/// exists.
pub open spec fn enables(root: &Path, flag_exists: bool, removed: Option<PathBuf>) -> bool {
    match removed {
        Some(flag) => flag_exists && is_flag(root, flag),
        None => !flag_exists,
    }
}

/// The file that is removed to enable the watcher, if it exists.
pub fn enable_watcher_at(root: &Path, flag_exists: bool) -> (removed: Option<PathBuf>)
    ensures
        enables(root, flag_exists, removed),
{
    if flag_exists {
        Some(watcher_disabled_flag(root))
    } else {
        None
    }
}

/// The directory that is created for the flag is the one that was asked for.
pub proof fn law_flag_stands_in_its_directory(root: &Path, steps: DisablingSteps)
    requires
        paths::can_join(root),
        disables(root, steps),
    ensures
        steps.directory matches Some(directory) && paths::path_buf_parts(directory)
            == paths::path_parts(root),
{
    assert(flag_of(paths::path_parts(root)).drop_last() =~= paths::path_parts(root));
}

/// The files that are there after the watcher has been disabled.
pub open spec fn files_after_disabling(
    files: Set<Seq<PartView>>,
    steps: DisablingSteps,
) -> Set<Seq<PartView>> {
    files.insert(paths::path_buf_parts(steps.flag))
}

/// The files that are there after a file has been removed, or none.
pub open spec fn files_after_enabling(
    files: Set<Seq<PartView>>,
    removed: Option<PathBuf>,
) -> Set<Seq<PartView>> {
    match removed {
        Some(file) => files.remove(paths::path_buf_parts(file)),
        None => files,
    }
}

/// Enabling the watcher undoes disabling it: the file that is removed is the one that was written,
/// no other file is touched, and enabling it once more removes nothing.
pub proof fn law_enabling_undoes_disabling(
    root: &Path,
    files: Set<Seq<PartView>>,
    steps: DisablingSteps,
    removed: Option<PathBuf>,
    removed_again: Option<PathBuf>,
)
    requires
        disables(root, steps),
        enables(
            root,
            files_after_disabling(files, steps).contains(paths::path_buf_parts(steps.flag)),
            removed,
        ),
        enables(
            root,
            files_after_enabling(files_after_disabling(files, steps), removed).contains(
                paths::path_buf_parts(steps.flag),
            ),
            removed_again,
        ),
    ensures
        ({
            let flag = paths::path_buf_parts(steps.flag);
            let disabled = files_after_disabling(files, steps);
            let enabled = files_after_enabling(disabled, removed);
            &&& removed matches Some(file) && paths::path_buf_parts(file) == flag
            &&& enabled == files.remove(flag)
            &&& removed_again is None
            &&& files_after_enabling(enabled, removed_again) == enabled
        }),
{
    let flag = paths::path_buf_parts(steps.flag);
    assert(files.insert(flag).remove(flag) =~= files.remove(flag));
}

/// The arguments that the launcher is started with.
pub open spec fn launcher_arguments(debug_port: u16) -> Seq<Seq<char>> {
    seq!["--debug-port"@, text::decimal(debug_port as nat)]
}

/// The command that starts the launcher: its path, and its arguments.
pub fn build_spawn_launcher_command(launcher_path: &str, debug_port: u16) -> (command: Vec<String>)
    ensures
        text::texts(command@) == seq![launcher_path@] + launcher_arguments(debug_port),
{
    let command: Vec<String> = vec![
        launcher_path.to_owned(),
        "--debug-port".to_owned(),
        text::decimal_text(debug_port as u64),
    ];
    assert(text::texts(command@) =~= seq![launcher_path@] + launcher_arguments(debug_port));
    command
}

/// What is set up so that the launcher starts when a user logs in: a value in the registry, and a
/// shortcut.
#[derive(Debug, Clone, PartialEq, Eq)]
pub struct WatcherInstallPlan {
    pub run_value_name: String,
    pub run_value: String,
    pub shortcut_name: String,
    pub shortcut_target: String,
    pub shortcut_arguments: String,
}

/// The arguments of the launcher as one text.
pub open spec fn arguments_text(debug_port: u16) -> Seq<char> {
    "--debug-port "@ + text::decimal(debug_port as nat)
}

/// A command line: the path of the executable in quotes, and the arguments.
pub open spec fn command_line(executable: Seq<char>, arguments: Seq<char>) -> Seq<char> {
    "\""@ + executable + "\" "@ + arguments
}

/// Whether a plan is the one for the launcher with the given path, which is to listen at the
/// given port.
pub open spec fn is_install_plan(
    plan: WatcherInstallPlan,
    launcher: Seq<char>,
    debug_port: u16,
) -> bool {
    &&& plan.run_value_name@ == WATCHER_RUN_NAME@
    &&& plan.run_value@ == command_line(launcher, arguments_text(debug_port))
    &&& plan.shortcut_name@ == WATCHER_STARTUP_SHORTCUT_NAME@
    &&& plan.shortcut_target@ == launcher
    &&& plan.shortcut_arguments@ == arguments_text(debug_port)
}

/// What is set up so that the launcher with the given path starts when a user logs in.
pub fn install_plan_for(launcher: String, debug_port: u16) -> (plan: WatcherInstallPlan)
    ensures
        is_install_plan(plan, launcher@, debug_port),
{
    let arguments = "--debug-port ".to_owned().concat(
        text::decimal_text(debug_port as u64).as_str(),
    );
    let run_value = "\"".to_owned().concat(launcher.as_str()).concat("\" ").concat(
        arguments.as_str(),
    );
    WatcherInstallPlan {
        run_value_name: WATCHER_RUN_NAME.to_owned(),
        run_value,
        shortcut_name: WATCHER_STARTUP_SHORTCUT_NAME.to_owned(),
        shortcut_target: launcher,
        shortcut_arguments: arguments,
    }
}

/// What is set up so that the launcher starts when a user logs in.
pub fn build_watcher_install_plan(launcher_path: PathBuf, debug_port: u16) -> (plan:
    WatcherInstallPlan)
    ensures
        is_install_plan(plan, paths::path_buf_text(launcher_path), debug_port),
{
    install_plan_for(paths::text_of(paths::borrow(&launcher_path)), debug_port)
}

/// The shortcut and the value in the registry start the launcher with the same arguments as the
/// command that starts it at once.
pub proof fn law_plan_starts_launcher_alike(debug_port: u16)
    ensures
        arguments_text(debug_port) == text::joined_words(launcher_arguments(debug_port)),
{
    reveal_strlit("--debug-port");
    reveal_strlit("--debug-port ");
    reveal_strlit(" ");
    reveal_with_fuel(text::joined_words, 2);
    let words = launcher_arguments(debug_port);
    assert(words.drop_last() =~= seq!["--debug-port"@]);
    assert("--debug-port "@ =~= "--debug-port"@ + " "@);
}

/// Why the watcher could not be installed.
#[derive(Debug, Clone, Copy, PartialEq, Eq)]
pub enum WatcherError {
    /// The system is not Windows.
    OnlyOnWindows,
    /// The directory of the shortcuts that are run when a user logs in is not known.
    NoStartupDirectory,
}

impl WatcherError {
    /// What is wrong, in words.
    pub fn message(self) -> (message: &'static str)
        ensures
            message@ == match self {
                WatcherError::OnlyOnWindows => "watcher install is only supported on Windows"@,
                WatcherError::NoStartupDirectory => "无法定位 Windows 启动目录"@,
            },
    {
        match self {
            WatcherError::OnlyOnWindows => "watcher install is only supported on Windows",
            WatcherError::NoStartupDirectory => "无法定位 Windows 启动目录",
        }
    }
}

/// The way from the directory of the applications' data to the shortcut of the watcher.
pub open spec fn shortcut_way() -> Seq<Seq<char>> {
    seq![
        "Microsoft"@,
        "Windows"@,
        "Start Menu"@,
        "Programs"@,
        "Startup"@,
        WATCHER_STARTUP_SHORTCUT_NAME@,
    ]
}

/// Whether the parts are those of the shortcut of the watcher, if the directory of the
/// applications' data is known.
pub open spec fn is_shortcut_path(app_data: Option<&Path>, found: Option<PathBuf>) -> bool {
    match (app_data, found) {
        (Some(app_data), Some(shortcut)) => paths::can_join(app_data) ==> paths::leads_to(
            paths::path_parts(app_data),
            shortcut_way(),
            paths::path_buf_parts(shortcut),
        ),
        (None, None) => true,
        _ => false,
    }
}

/// The path of the shortcut of the watcher, if the directory of the applications' data is known.
pub fn startup_shortcut_path(app_data: Option<&Path>) -> (found: Option<PathBuf>)
    ensures
        is_shortcut_path(app_data, found),
{
    let Some(app_data) = app_data else {
        return None;
    };
    let names: Vec<&str> = vec![
        "Microsoft",
        "Windows",
        "Start Menu",
        "Programs",
        "Startup",
        WATCHER_STARTUP_SHORTCUT_NAME,
    ];
    proof {
        reveal_strlit("Microsoft");
        paths::lemma_is_file_name("Microsoft"@);
        reveal_strlit("Windows");
        paths::lemma_is_file_name("Windows"@);
        reveal_strlit("Start Menu");
        paths::lemma_is_file_name("Start Menu"@);
        reveal_strlit("Programs");
        paths::lemma_is_file_name("Programs"@);
        reveal_strlit("Startup");
        paths::lemma_is_file_name("Startup"@);
        reveal_strlit("CodexPlusPlusWatcher.lnk");
        paths::lemma_is_file_name("CodexPlusPlusWatcher.lnk"@);
        assert(WATCHER_STARTUP_SHORTCUT_NAME@ == "CodexPlusPlusWatcher.lnk"@);
        assert(names@.map_values(|name: &str| name@) =~= shortcut_way());
    }
    Some(paths::join_names(app_data, &names))
}

/// A shortcut.
pub struct ShortcutSpec {
    pub path: PathBuf,
    pub target: PathBuf,
    pub arguments: String,
    pub working_directory: Option<PathBuf>,
    pub description: String,
    pub icon: Option<PathBuf>,
    pub show_minimized: bool,
}

/// Whether a shortcut is the one of the watcher: it starts the launcher with the arguments, in
/// the directory that the launcher lies in.
pub open spec fn is_watcher_shortcut(
    shortcut: ShortcutSpec,
    launcher: &Path,
    arguments: Seq<char>,
) -> bool {
    &&& paths::path_buf_parts(shortcut.target) == paths::path_parts(launcher)
    &&& paths::path_buf_text(shortcut.target) == paths::path_text(launcher)
    &&& shortcut.arguments@ == arguments
    &&& paths::parent_parts(paths::path_parts(launcher)) == match shortcut.working_directory {
        Some(directory) => Some(paths::path_buf_parts(directory)),
        None => None,
    }
    &&& shortcut.description@ == "Codex++ watcher"@
    &&& shortcut.icon is None
    &&& shortcut.show_minimized
}

/// The shortcut of the watcher.
pub fn create_startup_shortcut(
    launcher_path: &Path,
    arguments: &str,
    app_data: Option<&Path>,
) -> (result: Result<ShortcutSpec, WatcherError>)
    ensures
        match result {
            Ok(shortcut) => is_shortcut_path(app_data, Some(shortcut.path)) && is_watcher_shortcut(
                shortcut,
                launcher_path,
                arguments@,
            ),
            Err(error) => app_data is None && error is NoStartupDirectory,
        },
{
    let Some(path) = startup_shortcut_path(app_data) else {
        return Err(WatcherError::NoStartupDirectory);
    };
    Ok(
        ShortcutSpec {
            path,
            target: paths::own(launcher_path),
            arguments: arguments.to_owned(),
            working_directory: paths::parent(launcher_path),
            description: "Codex++ watcher".to_owned(),
            icon: None,
            show_minimized: true,
        },
    )
}

/// Where the installation of the watcher stands.
#[derive(Debug, Clone, Copy, PartialEq, Eq)]
pub enum InstallStage {
    /// The value in the registry is to be set.
    SettingRunValue,
    /// The shortcut is to be made.
    CreatingShortcut,
    /// The launcher is to be started.
    StartingLauncher,
    /// The watcher is installed.
    Installed,
    /// A step has failed, and the installation ends with its error.
    Failed,
}

/// The stage after a step has succeeded or not. A step that fails ends the installation, but for
/// the start of the launcher. Without a place for the shortcut, the installation ends when the
/// value has been set.
pub open spec fn install_stage_after(
    stage: InstallStage,
    succeeded: bool,
    has_place: bool,
) -> InstallStage {
    match stage {
        InstallStage::SettingRunValue => if succeeded && has_place {
            InstallStage::CreatingShortcut
        } else {
            InstallStage::Failed
        },
        InstallStage::CreatingShortcut => if succeeded {
            InstallStage::StartingLauncher
        } else {
            InstallStage::Failed
        },
        InstallStage::StartingLauncher => InstallStage::Installed,
        _ => stage,
    }
}

/// An installation of the watcher: the value in the registry, the shortcut or why it has no place,
/// the command that starts the launcher, and the stage that it has reached.
pub struct WatcherInstallation {
    pub plan: WatcherInstallPlan,
    pub shortcut: Result<ShortcutSpec, WatcherError>,
    pub command: Vec<String>,
    pub stage: InstallStage,
}

impl WatcherInstallation {
    /// Goes on when the step of the stage has succeeded or not.
    pub fn next(&mut self, succeeded: bool)
        ensures
            final(self).plan == old(self).plan,
            final(self).shortcut == old(self).shortcut,
            final(self).command == old(self).command,
            final(self).stage == install_stage_after(
                old(self).stage,
                succeeded,
                old(self).shortcut is Ok,
            ),
    {
        let has_place = self.shortcut.is_ok();
        self.stage = match self.stage {
            InstallStage::SettingRunValue => if succeeded && has_place {
                InstallStage::CreatingShortcut
            } else {
                InstallStage::Failed
            },
            InstallStage::CreatingShortcut => if succeeded {
                InstallStage::StartingLauncher
            } else {
                InstallStage::Failed
            },
            InstallStage::StartingLauncher => InstallStage::Installed,
            stage => stage,
        };
    }
}

/// The watcher is installed if and only if the value has been set and the shortcut made, in this
/// order, and the launcher is started after both, whether that succeeds or not. If the value
/// cannot be set, no shortcut is made, and without a shortcut the launcher is not started.
pub proof fn law_failed_step_ends_installation(
    has_place: bool,
    value_set: bool,
    shortcut_made: bool,
    started: bool,
)
    ensures
        ({
            let first = InstallStage::SettingRunValue;
            let second = install_stage_after(first, value_set, has_place);
            let third = install_stage_after(second, shortcut_made, has_place);
            let fourth = install_stage_after(third, started, has_place);
            &&& second is CreatingShortcut <==> value_set && has_place
            &&& third is StartingLauncher <==> value_set && has_place && shortcut_made
            &&& fourth is Installed <==> value_set && has_place && shortcut_made
            &&& !(fourth is Installed) ==> fourth is Failed && (second is Failed || third is Failed)
            &&& install_stage_after(fourth, true, has_place) == fourth
            &&& install_stage_after(fourth, false, has_place) == fourth
        }),
{
}

/// The steps that install the watcher, which is possible on Windows only: a value in the
/// registry, a shortcut, and the start of the launcher.
pub fn install_watcher(
    platform: Platform,
    launcher_path: &Path,
    debug_port: u16,
    app_data: Option<&Path>,
) -> (result: Result<WatcherInstallation, WatcherError>)
    ensures
        match result {
            Ok(steps) => {
                &&& platform is Windows
                &&& is_install_plan(steps.plan, paths::path_text(launcher_path), debug_port)
                &&& match steps.shortcut {
                    Ok(shortcut) => is_shortcut_path(app_data, Some(shortcut.path))
                        && is_watcher_shortcut(
                        shortcut,
                        launcher_path,
                        arguments_text(debug_port),
                    ),
                    Err(error) => app_data is None && error is NoStartupDirectory,
                }
                &&& text::texts(steps.command@) == seq![paths::path_text(launcher_path)]
                    + launcher_arguments(debug_port)
                &&& steps.stage is SettingRunValue
            },
            Err(error) => !(platform is Windows) && error is OnlyOnWindows,
        },
{
    match platform {
        Platform::Windows => {},
        _ => {
            return Err(WatcherError::OnlyOnWindows);
        },
    }
    let plan = build_watcher_install_plan(paths::own(launcher_path), debug_port);
    let shortcut = create_startup_shortcut(
        launcher_path,
        plan.shortcut_arguments.as_str(),
        app_data,
    );
    let command = build_spawn_launcher_command(
        paths::text_of(launcher_path).as_str(),
        debug_port,
    );
    Ok(WatcherInstallation { plan, shortcut, command, stage: InstallStage::SettingRunValue })
}

/// Where the removal of the watcher stands.
#[derive(Debug, Clone, Copy, PartialEq, Eq)]
pub enum RemovalStage {
    /// The value in the registry is to be deleted.
    DeletingRunValue,
    /// The shortcut is to be removed.
    RemovingShortcut,
    /// The launchers are to be stopped.
    StoppingLaunchers,
    /// The watcher is removed.
    Removed,
}

/// The stage after a step has been tried, whether it has succeeded or not. Without a place for the
/// shortcut there is none to be removed.
pub open spec fn removal_stage_after(stage: RemovalStage, has_place: bool) -> RemovalStage {
    match stage {
        RemovalStage::DeletingRunValue => if has_place {
            RemovalStage::RemovingShortcut
        } else {
            RemovalStage::StoppingLaunchers
        },
        RemovalStage::RemovingShortcut => RemovalStage::StoppingLaunchers,
        _ => RemovalStage::Removed,
    }
}

/// A removal of the watcher: the value in the registry, the shortcut if it has a place, and the
/// stage that it has reached.
pub struct WatcherRemoval {
    pub run_value_name: String,
    pub shortcut: Option<PathBuf>,
    pub stage: RemovalStage,
}

impl WatcherRemoval {
    /// Goes on when the step of the stage has been tried, whether it has succeeded or not.
    pub fn next(&mut self)
        ensures
            final(self).run_value_name == old(self).run_value_name,
            final(self).shortcut == old(self).shortcut,
            final(self).stage == removal_stage_after(old(self).stage, old(self).shortcut is Some),
    {
        let has_place = self.shortcut.is_some();
        self.stage = match self.stage {
            RemovalStage::DeletingRunValue => if has_place {
                RemovalStage::RemovingShortcut
            } else {
                RemovalStage::StoppingLaunchers
            },
            RemovalStage::RemovingShortcut => RemovalStage::StoppingLaunchers,
            _ => RemovalStage::Removed,
        };
    }
}

/// The removal tries every step, one after the other: the value is deleted, the shortcut removed
/// if it has a place, and the launchers are stopped.
pub proof fn law_removal_tries_every_step(has_place: bool)
    ensures
        ({
            let second = removal_stage_after(RemovalStage::DeletingRunValue, has_place);
            let third = removal_stage_after(second, has_place);
            if has_place {
                second is RemovingShortcut && third is StoppingLaunchers && removal_stage_after(
                    third,
                    has_place,
                ) is Removed
            } else {
                second is StoppingLaunchers && third is Removed
            }
        }),
{
}

/// The steps that remove the watcher. There are some on Windows only.
pub fn uninstall_watcher(platform: Platform, app_data: Option<&Path>) -> (steps: Option<
    WatcherRemoval,
>)
    ensures
        match steps {
            Some(steps) => platform is Windows && steps.run_value_name@ == WATCHER_RUN_NAME@
                && is_shortcut_path(app_data, steps.shortcut) && steps.stage is DeletingRunValue,
            None => !(platform is Windows),
        },
{
    match platform {
        Platform::Windows => Some(
            WatcherRemoval {
                run_value_name: WATCHER_RUN_NAME.to_owned(),
                shortcut: startup_shortcut_path(app_data),
                stage: RemovalStage::DeletingRunValue,
            },
        ),
        _ => None,
    }
}

/// The removal deletes what the installation has set up: the value of the same name, and the
/// shortcut at the same place.
pub proof fn law_removal_undoes_installation(
    installed: PathBuf,
    removed: PathBuf,
    app_data: &Path,
    plan: WatcherInstallPlan,
    launcher: Seq<char>,
    debug_port: u16,
    removal: WatcherRemoval,
)
    requires
        paths::can_join(app_data),
        is_install_plan(plan, launcher, debug_port),
        is_shortcut_path(Some(app_data), Some(installed)),
        removal.run_value_name@ == WATCHER_RUN_NAME@,
        removal.shortcut == Some(removed),
        is_shortcut_path(Some(app_data), removal.shortcut),
    ensures
        removal.run_value_name@ == plan.run_value_name@,
        paths::path_buf_parts(removed) == paths::path_buf_parts(installed),
{
}

/// The number of the port is found behind the option that names it, whatever the number is.
pub proof fn law_port_is_read_back(debug_port: u16)
    ensures
        launcher_arguments(debug_port).len() == 2,
        launcher_arguments(debug_port)[0] == "--debug-port"@,
        text::parsed_number(launcher_arguments(debug_port)[1], u16::MAX as nat) == Some(
            debug_port as nat,
        ),
        text::split_at_first(arguments_text(debug_port), ' ') == Some(
            ("--debug-port"@, launcher_arguments(debug_port)[1]),
        ),
{
    reveal_strlit("--debug-port");
    reveal_strlit("--debug-port ");
    let number = text::decimal(debug_port as nat);
    text::law_number_is_read_back(debug_port as nat, u16::MAX as nat);
    text::law_split_at_first_stop("--debug-port"@, ' ', number);
    assert("--debug-port "@ + number =~= "--debug-port"@.push(' ') + number);
}

/// The value in the registry holds the path of the launcher in quotes and its arguments, and the
/// shortcut holds the same path and the same arguments.
pub proof fn law_plan_is_read_back(plan: WatcherInstallPlan, launcher: Seq<char>, debug_port: u16)
    requires
        is_install_plan(plan, launcher, debug_port),
        !launcher.contains('"'),
    ensures
        text::split_at_first(plan.run_value@, '"') matches Some((front, quoted)) && front.len() == 0
            && text::split_at_first(quoted, '"') == Some(
            (launcher, seq![' '] + plan.shortcut_arguments@),
        ),
        plan.shortcut_target@ == launcher,
        text::split_at_first(plan.shortcut_arguments@, ' ') matches Some((option, number))
            && option == "--debug-port"@ && text::parsed_number(number, u16::MAX as nat) == Some(
            debug_port as nat,
        ),
{
    reveal_strlit("\"");
    reveal_strlit("\" ");
    let none: Seq<char> = seq![];
    let arguments = plan.shortcut_arguments@;
    let quoted = launcher.push('"') + (seq![' '] + arguments);
    law_port_is_read_back(debug_port);
    assert(plan.run_value@ =~= none.push('"') + quoted);
    text::law_split_at_first_stop(none, '"', quoted);
    text::law_split_at_first_stop(launcher, '"', seq![' '] + arguments);
}

/// The shortcut starts the launcher in the directory that it lies in, and minimized.
pub proof fn law_shortcut_starts_launcher(
    shortcut: ShortcutSpec,
    launcher: &Path,
    arguments: Seq<char>,
    directory: Seq<PartView>,
    name: Seq<char>,
)
    requires
        is_watcher_shortcut(shortcut, launcher, arguments),
        paths::path_parts(launcher) == directory.push(PartView::Name(name)),
    ensures
        paths::path_buf_parts(shortcut.target) == directory.push(PartView::Name(name)),
        paths::path_buf_text(shortcut.target) == paths::path_text(launcher),
        shortcut.arguments@ == arguments,
        shortcut.working_directory matches Some(found) && paths::path_buf_parts(found) == directory,
        shortcut.show_minimized,
{
    assert(directory.push(PartView::Name(name)).drop_last() =~= directory);
}

/// The flag is the file `watcher.disabled` in its directory, and the shortcut is the file
/// `CodexPlusPlusWatcher.lnk` in the directory of what is run when a user logs in.
pub proof fn law_places(root: &Path, flag: PathBuf, shortcut: PathBuf)
    requires
        paths::can_join(root),
        is_flag(root, flag),
        is_shortcut_path(Some(root), Some(shortcut)),
    ensures
        paths::path_buf_parts(flag) == paths::path_parts(root).push(
            PartView::Name("watcher.disabled"@),
        ),
        paths::path_buf_parts(shortcut) == paths::path_parts(root) + seq![
            PartView::Name("Microsoft"@),
            PartView::Name("Windows"@),
            PartView::Name("Start Menu"@),
            PartView::Name("Programs"@),
            PartView::Name("Startup"@),
            PartView::Name("CodexPlusPlusWatcher.lnk"@),
        ],
{
    assert(WATCHER_STARTUP_SHORTCUT_NAME@ == "CodexPlusPlusWatcher.lnk"@);
    assert(paths::name_parts(shortcut_way()) =~= seq![
        PartView::Name("Microsoft"@),
        PartView::Name("Windows"@),
        PartView::Name("Start Menu"@),
        PartView::Name("Programs"@),
        PartView::Name("Startup"@),
        PartView::Name("CodexPlusPlusWatcher.lnk"@),
    ]);
}

} // verus!
