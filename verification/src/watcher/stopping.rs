//! Which processes are stopped, and how.

use crate::paths;
use crate::paths::Platform;
use crate::text;
use crate::watcher::macos;
use crate::watcher::macos::Signal;
use crate::watcher::processes;
use crate::watcher::processes::ProcessEntry;
use std::path::Path;
use vstd::prelude::*;

verus! {

/// The processes whose commands hold a fragment are being stopped, in rounds: each begins with a
/// list of the processes, and sends a signal to those that match. There is no further round if
/// there is no further signal.
pub struct StopMatching {
    pub fragment: String,
    pub signal: Option<Signal>,
}

/// The numbers of the processes that a round sends its signal to. A list that could not be had
/// holds none.
pub open spec fn found_ids(listing: Option<Seq<u8>>, fragment: Seq<char>) -> Seq<u32> {
    match listing {
        Some(output) => macos::matching_ids(macos::printed_lines(output), fragment),
        None => seq![],
    }
}

/// What a round sends its signal with.
pub open spec fn round_commands(
    listing: Option<Seq<u8>>,
    fragment: Seq<char>,
    signal: Option<Signal>,
) -> Seq<Seq<Seq<char>>> {
    match signal {
        Some(signal) => found_ids(listing, fragment).map_values(
            |id: u32| macos::signal_arguments_of(id, signal),
        ),
        None => seq![],
    }
}

/// The signal of the round after this one, if there is such a round.
pub open spec fn signal_after(
    listing: Option<Seq<u8>>,
    fragment: Seq<char>,
    signal: Option<Signal>,
) -> Option<Signal> {
    if found_ids(listing, fragment).len() > 0 && signal == Some(Signal::Term) {
        Some(Signal::Kill)
    } else {
        None
    }
}

/// The signal of the first round. A blank fragment stops nothing.
pub open spec fn first_signal(fragment: Seq<char>) -> Option<Signal> {
    if text::trimmed(fragment).len() > 0 {
        Some(Signal::Term)
    } else {
        None
    }
}

impl StopMatching {
    /// Ends a round on the list that it began with, `None` if that could not be had. The result
    /// is what the signal is sent with.
    pub fn next(&mut self, listing: Option<&[u8]>) -> (commands: Vec<Vec<String>>)
        ensures
            macos::command_texts(commands@) == round_commands(
                listing_view(listing),
                old(self).fragment@,
                old(self).signal,
            ),
            final(self).fragment@ == old(self).fragment@,
            final(self).signal == signal_after(
                listing_view(listing),
                old(self).fragment@,
                old(self).signal,
            ),
    {
        let Some(signal) = self.signal else {
            let commands: Vec<Vec<String>> = Vec::new();
            assert(macos::command_texts(commands@) =~= seq![]);
            return commands;
        };
        let ids = match listing {
            Some(output) => macos::macos_process_ids_matching(output, self.fragment.as_str()),
            None => Vec::new(),
        };
        assert(ids@ =~= found_ids(listing_view(listing), self.fragment@));
        self.signal = if ids.len() > 0 {
            signal.next()
        } else {
            None
        };
        macos::signal_all(&ids, signal)
    }
}

/// The bytes of a list.
pub open spec fn listing_view(listing: Option<&[u8]>) -> Option<Seq<u8>> {
    match listing {
        Some(output) => Some(output@),
        None => None,
    }
}

/// Begins to stop the processes whose commands hold the fragment.
pub fn stop_macos_processes_matching(command_fragment: &str) -> (stop: StopMatching)
    ensures
        stop.fragment@ == text::trimmed(command_fragment@),
        stop.signal == first_signal(command_fragment@),
{
    let fragment = text::trim(command_fragment);
    let signal = if fragment.as_str().is_empty() {
        None
    } else {
        Some(Signal::Term)
    };
    StopMatching { fragment, signal }
}

/// The processes that hold ports are being stopped as far as they belong to the application, in
/// rounds: each begins with a list of the processes that hold the ports. There is no further
/// round if there is no further signal.
pub struct StopPortOwners {
    pub fragments: Vec<String>,
    pub ports: Vec<u16>,
    pub signal: Option<Signal>,
}

impl StopPortOwners {
    /// Ends a round on the processes that hold the ports. The result is what the signal is sent
    /// with.
    pub fn next(&mut self, owners: &Vec<(u32, String)>, current_process_id: u32) -> (commands: Vec<
        Vec<String>,
    >)
        ensures
            macos::command_texts(commands@) == match old(self).signal {
                Some(signal) => processes::related_ids(
                    macos::owner_views(owners@),
                    current_process_id,
                    text::texts(old(self).fragments@),
                ).map_values(|id: u32| macos::signal_arguments_of(id, signal)),
                None => seq![],
            },
            final(self).fragments@ == old(self).fragments@,
            final(self).ports@ == old(self).ports@,
            final(self).signal == match old(self).signal {
                Some(Signal::Term) => Some(Signal::Kill),
                _ => None,
            },
    {
        let Some(signal) = self.signal else {
            let commands: Vec<Vec<String>> = Vec::new();
            assert(macos::command_texts(commands@) =~= seq![]);
            return commands;
        };
        self.signal = signal.next();
        macos::stop_macos_port_owner_processes(owners, current_process_id, &self.fragments, signal)
    }
}

/// Begins to stop the processes that hold the ports and belong to the application.
pub fn stop_codex_related_processes_listening_on_ports(
    app_dir: &Path,
    codex_home: &Path,
    launcher_bundle: Option<&Path>,
    ports: &[u16],
) -> (stop: StopPortOwners)
    ensures
        text::texts(stop.fragments@) == macos::related_fragments(
            app_dir,
            codex_home,
            launcher_bundle,
        ),
        stop.ports@ == ports@.filter(|port: u16| port != 0),
        stop.signal == Some(Signal::Term),
{
    StopPortOwners {
        fragments: macos::macos_codex_related_process_fragments(
            app_dir,
            codex_home,
            launcher_bundle,
        ),
        ports: macos::queried_ports(ports),
        signal: Some(Signal::Term),
    }
}

/// How processes are stopped.
pub enum StopPlan {
    /// The processes with these numbers are ended.
    Terminate(Vec<u32>),
    /// The processes that match are sent signals, round by round.
    Signals(StopMatching),
    /// None is stopped.
    Nothing,
}

/// How the launchers are stopped: on Windows those that may be, on macOS what runs from the
/// bundle of the launcher.
pub fn stop_launcher_processes(
    platform: Platform,
    processes: &[ProcessEntry],
    current_process_id: u32,
    launcher_bundle: Option<&Path>,
) -> (plan: StopPlan)
    ensures
        match platform {
            Platform::Windows => plan matches StopPlan::Terminate(ids) && ids@
                == processes::killable_ids(
                processes::entry_views(processes@),
                current_process_id,
            ),
            Platform::MacOs => match launcher_bundle {
                Some(bundle) => stops_matching(plan, paths::path_text(bundle)),
                None => plan is Nothing,
            },
            Platform::Other => plan is Nothing,
        },
{
    match platform {
        Platform::Windows => StopPlan::Terminate(
            processes::killable_entries(processes, current_process_id),
        ),
        Platform::MacOs => match launcher_bundle {
            Some(bundle) => StopPlan::Signals(
                stop_macos_processes_matching(paths::text_of(bundle).as_str()),
            ),
            None => StopPlan::Nothing,
        },
        Platform::Other => StopPlan::Nothing,
    }
}

/// Whether a plan is to stop the processes whose commands hold the fragment.
pub open spec fn stops_matching(plan: StopPlan, fragment: Seq<char>) -> bool {
    match plan {
        StopPlan::Signals(stop) => stop.fragment@ == text::trimmed(fragment) && stop.signal
            == first_signal(fragment),
        _ => false,
    }
}

/// How the application is stopped: on Windows the processes of the installed application, on
/// macOS what runs from its directory.
pub fn stop_codex_processes(
    platform: Platform,
    processes: &[ProcessEntry],
    app_dir: Option<&Path>,
) -> (plan: StopPlan)
    ensures
        match platform {
            Platform::Windows => plan matches StopPlan::Terminate(ids) && ids@
                == processes::found_codex_ids(platform, processes@),
            Platform::MacOs => match app_dir {
                Some(app_dir) => stops_matching(plan, paths::path_text(app_dir)),
                None => plan is Nothing,
            },
            Platform::Other => plan is Nothing,
        },
{
    match platform {
        Platform::Windows => StopPlan::Terminate(
            processes::find_codex_processes(platform, processes),
        ),
        _ => match app_dir {
            Some(app_dir) => stop_codex_processes_at(platform, app_dir),
            None => StopPlan::Nothing,
        },
    }
}

/// How the application in a directory is stopped, which is done on macOS only.
pub fn stop_codex_processes_at(platform: Platform, app_dir: &Path) -> (plan: StopPlan)
    ensures
        match platform {
            Platform::MacOs => stops_matching(plan, paths::path_text(app_dir)),
            _ => plan is Nothing,
        },
{
    match platform {
        Platform::MacOs => StopPlan::Signals(
            stop_macos_processes_matching(paths::text_of(app_dir).as_str()),
        ),
        _ => StopPlan::Nothing,
    }
}

/// Whether a launcher that holds the guard port is to be stopped: it has nothing left to look
/// after if the application neither runs nor listens at its debug port.
pub fn should_recover_stale_launcher(codex_running: bool, cdp_listening: bool) -> (stale: bool)
    ensures
        stale <==> !codex_running && !cdp_listening,
{
    !codex_running && !cdp_listening
}

/// If the fragment is blank, no process is sent a signal.
pub proof fn law_blank_fragment_stops_nothing(fragment: Seq<char>, listing: Option<Seq<u8>>)
    requires
        text::trimmed(fragment).len() == 0,
    ensures
        round_commands(listing, text::trimmed(fragment), first_signal(fragment)).len() == 0,
        signal_after(listing, text::trimmed(fragment), first_signal(fragment)) is None,
{
}

/// There are at most two rounds, whatever the lists hold. The second one comes only if the first
/// has found a process, and it sends `KILL` where the first has sent `TERM`.
pub proof fn law_two_rounds_at_most(
    fragment: Seq<char>,
    first: Option<Seq<u8>>,
    second: Option<Seq<u8>>,
)
    ensures
        ({
            let sought = text::trimmed(fragment);
            let next = signal_after(first, sought, first_signal(fragment));
            &&& next == Some(Signal::Kill) || next is None
            &&& next is Some ==> first_signal(fragment) == Some(Signal::Term) && found_ids(
                first,
                sought,
            ).len() > 0
            &&& signal_after(second, sought, next) is None
        }),
{
}

/// A round sends its signal to the processes whose commands hold the fragment, and to no other.
pub proof fn law_signalled_processes_match(output: Seq<u8>, fragment: Seq<char>, process_id: u32)
    ensures
        found_ids(Some(output), fragment).contains(process_id) <==> exists|i: int|
            #![trigger macos::printed_lines(output)[i]]
            0 <= i < macos::printed_lines(output).len() && macos::matching_id(
                macos::printed_lines(output)[i],
                fragment,
            ) == Some(process_id),
{
    lemma_matching_ids(macos::printed_lines(output), fragment, process_id);
}

proof fn lemma_matching_ids(lines: Seq<Seq<char>>, fragment: Seq<char>, process_id: u32)
    ensures
        macos::matching_ids(lines, fragment).contains(process_id) <==> exists|i: int|
            #![trigger lines[i]]
            0 <= i < lines.len() && macos::matching_id(lines[i], fragment) == Some(process_id),
    decreases lines.len(),
{
    if lines.len() > 0 {
        let rest = lines.drop_last();
        let before = macos::matching_ids(rest, fragment);
        let ids = macos::matching_ids(lines, fragment);
        lemma_matching_ids(rest, fragment, process_id);
        if ids.contains(process_id) {
            let j = ids.index_of(process_id);
            if j < before.len() {
                assert(before[j] == process_id);
                let i = choose|i: int|
                    #![trigger rest[i]]
                    0 <= i < rest.len() && macos::matching_id(rest[i], fragment) == Some(
                        process_id,
                    );
                assert(lines[i] == rest[i]);
            } else {
                assert(lines[lines.len() - 1] == lines.last());
            }
        }
        assert forall|i: int|
            #![trigger lines[i]]
            0 <= i < lines.len() && macos::matching_id(lines[i], fragment) == Some(
                process_id,
            ) implies ids.contains(process_id) by {
            if i < rest.len() {
                assert(rest[i] == lines[i]);
                assert(ids[before.index_of(process_id)] == process_id);
            } else {
                assert(ids[ids.len() - 1] == process_id);
            }
        }
    }
}

/// A round sends its signal to every process that it has found, in their order, and without a
/// signal there is no round.
pub proof fn law_round_signals_every_match(
    listing: Option<Seq<u8>>,
    fragment: Seq<char>,
    signal: Signal,
    i: int,
)
    ensures
        round_commands(listing, fragment, Some(signal)).len() == found_ids(listing, fragment).len(),
        0 <= i < found_ids(listing, fragment).len() ==> {
            let command = round_commands(listing, fragment, Some(signal))[i];
            &&& command.len() == 2
            &&& signal is Term ==> command[0] == "-TERM"@
            &&& signal is Kill ==> command[0] == "-KILL"@
            &&& text::parsed_number(command[1], u32::MAX as nat) == Some(
                found_ids(listing, fragment)[i] as nat,
            )
        },
        round_commands(listing, fragment, None).len() == 0,
        found_ids(None, fragment).len() == 0,
        listing matches Some(output) ==> found_ids(listing, fragment) == macos::matching_ids(
            text::lines_of(text::lossy_text(output)),
            fragment,
        ),
{
    if 0 <= i < found_ids(listing, fragment).len() {
        macos::law_signal_reaches_process(found_ids(listing, fragment)[i], signal);
    }
}

/// The first round sends `TERM` if and only if the fragment is not blank, and the second one
/// comes, and sends `KILL`, if and only if the first has found a process.
pub proof fn law_rounds_follow(fragment: Seq<char>, first: Option<Seq<u8>>)
    ensures
        first_signal(fragment) == (if text::trimmed(fragment).len() > 0 {
            Some(Signal::Term)
        } else {
            None
        }),
        signal_after(first, fragment, Some(Signal::Term)) == (if found_ids(first, fragment).len()
            > 0 {
            Some(Signal::Kill)
        } else {
            None
        }),
        signal_after(first, fragment, Some(Signal::Kill)) is None,
        signal_after(first, fragment, None) is None,
{
}

/// A plan to stop what matches a text begins with `TERM` to the processes whose commands hold the
/// text without the white space around it.
pub proof fn law_plan_begins_with_matches(
    plan: StopPlan,
    before: Seq<char>,
    sought: Seq<char>,
    after: Seq<char>,
    listing: Option<Seq<u8>>,
)
    requires
        text::is_blank(before),
        text::is_tight(sought),
        text::is_blank(after),
        stops_matching(plan, before + sought + after),
    ensures
        plan matches StopPlan::Signals(stop) && stop.fragment@ == sought && stop.signal == (
        if sought.len() > 0 {
            Some(Signal::Term)
        } else {
            None
        }) && round_commands(listing, stop.fragment@, stop.signal).len() == (if sought.len() > 0 {
            found_ids(listing, sought).len()
        } else {
            0
        }),
{
    text::law_trimming_takes_white_space(before, sought, after);
}

} // verus!
