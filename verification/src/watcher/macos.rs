//! Processes on macOS: the commands that list and signal them, and what the lists say.

use crate::install;
use crate::paths;
use crate::paths::PartView;
use crate::text;
use crate::watcher::processes;
use std::path::{Path, PathBuf};
use vstd::prelude::*;

verus! {

/// The process that a line of a list stands for: its number, and its command as words with single
/// spaces between them.
pub open spec fn listed_process(line: Seq<char>) -> Option<(u32, Seq<char>)> {
    let words = text::words_of(line);
    if words.len() == 0 {
        None
    } else {
        match text::parsed_number(words[0], u32::MAX as nat) {
            Some(id) => Some((id as u32, text::joined_words(words.drop_first()))),
            None => None,
        }
    }
}

/// The number of the process that a line of a list stands for, if its command holds the
/// fragment.
pub open spec fn matching_id(line: Seq<char>, fragment: Seq<char>) -> Option<u32> {
    match listed_process(line) {
        Some((id, command)) => if text::occurs_in(text::trimmed(fragment), command) {
            Some(id)
        } else {
            None
        },
        None => None,
    }
}

/// The numbers of the listed processes whose commands hold the fragment.
pub open spec fn matching_ids(lines: Seq<Seq<char>>, fragment: Seq<char>) -> Seq<u32>
    decreases lines.len(),
{
    if lines.len() == 0 {
        seq![]
    } else {
        let before = matching_ids(lines.drop_last(), fragment);
        match matching_id(lines.last(), fragment) {
            Some(id) => before.push(id),
            None => before,
        }
    }
}

/// The lines that a command has printed.
pub open spec fn printed_lines(output: Seq<u8>) -> Seq<Seq<char>> {
    text::lines_of(text::lossy_text(output))
}

/// The words from the second one on, with a space between one and the next.
fn join_after_first(words: &Vec<String>) -> (joined: String)
    requires
        words@.len() > 0,
    ensures
        joined@ == text::joined_words(text::texts(words@).drop_first()),
{
    let ghost rest = text::texts(words@).drop_first();
    let mut joined: String = String::new();
    let mut i: usize = 1;
    assert(joined@ =~= text::joined_words(rest.take(0)));
    while i < words.len()
        invariant
            1 <= i <= words@.len(),
            rest == text::texts(words@).drop_first(),
            joined@ == text::joined_words(rest.take(i - 1)),
        decreases words@.len() - i,
    {
        assert(rest.take(i as int).drop_last() == rest.take(i - 1));
        assert(rest.take(i as int).last() == words@[i as int]@);
        if i > 1 {
            joined.append(" ");
            joined.append(words[i].as_str());
        } else {
            joined.append(words[i].as_str());
            assert(joined@ =~= words@[i as int]@);
        }
        i = i + 1;
    }
    assert(rest.take(i - 1) == rest);
    joined
}

/// The number of the process that a line of a list stands for, if its command holds the
/// fragment.
fn match_line(line: &str, fragment: &str) -> (found: Option<u32>)
    ensures
        found == matching_id(line@, fragment@),
{
    let words = text::words(line);
    let ghost views = text::words_of(line@);
    assert(views.len() == words@.len());
    if words.len() == 0 {
        return None;
    }
    assert(views[0] == words@[0]@);
    match text::parse_number(words[0].as_str(), u32::MAX as u64) {
        Some(id) => {
            let command = join_after_first(&words);
            let fragment = text::trim(fragment);
            if text::contains(command.as_str(), fragment.as_str()) {
                Some(id as u32)
            } else {
                None
            }
        },
        None => None,
    }
}

/// What the list of all processes is asked for with.
pub fn process_list_arguments() -> (arguments: Vec<String>)
    ensures
        text::texts(arguments@) == seq!["-axww"@, "-o"@, "pid=,command="@],
{
    let arguments: Vec<String> = vec!["-axww".to_owned(), "-o".to_owned(), "pid=,command=".to_owned()];
    assert(text::texts(arguments@) =~= seq!["-axww"@, "-o"@, "pid=,command="@]);
    arguments
}

/// The numbers of the processes in the list whose commands hold the fragment.
pub fn ids_matching_in_list(list: &str, command_fragment: &str) -> (ids: Vec<u32>)
    ensures
        ids@ == matching_ids(text::lines_of(list@), command_fragment@),
{
    let lines = text::lines(list);
    let ghost views = text::lines_of(list@);
    let mut ids: Vec<u32> = Vec::new();
    let mut i: usize = 0;
    assert(ids@ =~= matching_ids(views.take(0), command_fragment@));
    while i < lines.len()
        invariant
            i <= lines@.len(),
            views == text::texts(lines@),
            ids@ == matching_ids(views.take(i as int), command_fragment@),
        decreases lines@.len() - i,
    {
        assert(views.take(i + 1).drop_last() == views.take(i as int));
        assert(views[i as int] == lines@[i as int]@);
        if let Some(id) = match_line(lines[i].as_str(), command_fragment) {
            ids.push(id);
        }
        i = i + 1;
    }
    assert(views.take(i as int) == views);
    ids
}

/// The numbers of the processes whose commands hold the fragment, by what the command that lists
/// them has printed.
pub fn macos_process_ids_matching(output: &[u8], command_fragment: &str) -> (ids: Vec<u32>)
    ensures
        ids@ == matching_ids(printed_lines(output@), command_fragment@),
{
    ids_matching_in_list(text::read_lossy(output).as_str(), command_fragment)
}

/// The ports that are asked about: all but zero.
pub fn queried_ports(ports: &[u16]) -> (queried: Vec<u16>)
    ensures
        queried@ == ports@.filter(|port: u16| port != 0),
{
    let ghost keep = |port: u16| port != 0;
    let mut queried: Vec<u16> = Vec::new();
    let mut i: usize = 0;
    proof {
        reveal(Seq::filter);
        assert(queried@ =~= ports@.take(0).filter(keep));
    }
    while i < ports.len()
        invariant
            i <= ports@.len(),
            keep == (|port: u16| port != 0),
            queried@ == ports@.take(i as int).filter(keep),
        decreases ports@.len() - i,
    {
        let port: u16 = ports[i];
        if port != 0 {
            queried.push(port);
        }
        proof {
            reveal(Seq::filter);
            assert(ports@.take(i + 1).drop_last() == ports@.take(i as int));
            assert(queried@ =~= ports@.take(i + 1).filter(keep));
        }
        i = i + 1;
    }
    assert(ports@.take(i as int) == ports@);
    queried
}

/// What the processes that listen at a port are asked for with.
pub fn port_owner_arguments(port: u16) -> (arguments: Vec<String>)
    ensures
        text::texts(arguments@) == seq![
            "-nP"@,
            "-iTCP:"@ + text::decimal(port as nat),
            "-sTCP:LISTEN"@,
            "-t"@,
        ],
{
    let address = "-iTCP:".to_owned().concat(text::decimal_text(port as u64).as_str());
    let arguments: Vec<String> =
        vec!["-nP".to_owned(), address, "-sTCP:LISTEN".to_owned(), "-t".to_owned()];
    assert(text::texts(arguments@) =~= seq![
        "-nP"@,
        "-iTCP:"@ + text::decimal(port as nat),
        "-sTCP:LISTEN"@,
        "-t"@,
    ]);
    arguments
}

/// The number of a process that a line holds.
pub open spec fn printed_id(line: Seq<char>) -> Option<u32> {
    match text::parsed_number(text::trimmed(line), u32::MAX as nat) {
        Some(id) => Some(id as u32),
        None => None,
    }
}

/// Whether one of the lines holds the number of the process.
pub open spec fn prints_id(lines: Seq<Seq<char>>, id: u32) -> bool {
    exists|i: int| 0 <= i < lines.len() && printed_id(#[trigger] lines[i]) == Some(id)
}

/// Whether each number from the given place on stands nowhere before.
pub open spec fn added_once(from: nat, ids: Seq<u32>) -> bool {
    forall|i: int, j: int| 0 <= i < j < ids.len() && from <= j ==> ids[i] != ids[j]
}

/// Adds the numbers of the processes that a command has printed, one to a line, to those found
/// before. None is added that was found before.
pub fn add_printed_ids(ids: &mut Vec<u32>, output: &[u8])
    ensures
        old(ids)@.is_prefix_of(final(ids)@),
        added_once(old(ids)@.len(), final(ids)@),
        forall|id: u32| #[trigger]
            final(ids)@.contains(id) <==> old(ids)@.contains(id) || prints_id(
                printed_lines(output@),
                id,
            ),
{
    add_listed_ids(ids, text::read_lossy(output).as_str());
}

/// Adds the numbers of the processes in a list, one to a line, to those found before. None is
/// added that was found before.
pub fn add_listed_ids(ids: &mut Vec<u32>, list: &str)
    ensures
        old(ids)@.is_prefix_of(final(ids)@),
        added_once(old(ids)@.len(), final(ids)@),
        forall|id: u32| #[trigger]
            final(ids)@.contains(id) <==> old(ids)@.contains(id) || prints_id(
                text::lines_of(list@),
                id,
            ),
{
    let lines = text::lines(list);
    let ghost views = text::lines_of(list@);
    let ghost before = ids@;
    let mut i: usize = 0;
    assert(forall|id: u32| !prints_id(views.take(0), id));
    while i < lines.len()
        invariant
            i <= lines@.len(),
            views == text::texts(lines@),
            before.is_prefix_of(ids@),
            added_once(before.len(), ids@),
            forall|id: u32| #[trigger]
                ids@.contains(id) <==> before.contains(id) || prints_id(views.take(i as int), id),
        decreases lines@.len() - i,
    {
        let ghost found = ids@;
        let ghost now = views.take(i + 1);
        assert(views[i as int] == lines@[i as int]@);
        let line = text::trim(lines[i].as_str());
        let parsed = text::parse_number(line.as_str(), u32::MAX as u64);
        let ghost held = printed_id(views[i as int]);
        if let Some(id) = parsed {
            let id: u32 = id as u32;
            assert(held == Some(id));
            if !contains_id(ids, id) {
                ids.push(id);
                assert(ids@.contains(id)) by {
                    assert(ids@[ids@.len() - 1] == id);
                }
                assert forall|other: u32| found.contains(other) implies #[trigger] ids@.contains(
                    other,
                ) by {
                    assert(ids@[found.index_of(other)] == other);
                }
            }
        }
        proof {
            assert forall|id: u32| prints_id(now, id) <==> prints_id(views.take(i as int), id)
                || held == Some(id) by {
                if prints_id(views.take(i as int), id) {
                    let j = choose|j: int|
                        0 <= j < i && printed_id(#[trigger] views.take(i as int)[j]) == Some(id);
                    assert(now[j] == views[j]);
                }
                if held == Some(id) {
                    assert(now[i as int] == views[i as int]);
                }
                if prints_id(now, id) {
                    let j = choose|j: int|
                        0 <= j < now.len() && printed_id(#[trigger] now[j]) == Some(id);
                    if j < i {
                        assert(views.take(i as int)[j] == now[j]);
                    }
                }
            }
            assert forall|id: u32| #[trigger] ids@.contains(id) <==> before.contains(id)
                || prints_id(now, id) by {
                if ids@.contains(id) && !found.contains(id) {
                    assert(held == Some(id));
                }
            }
        }
        i = i + 1;
    }
    assert(views.take(i as int) == views);
}

/// Whether the number of the process was printed for one of the ports. `None` stands where nothing
/// could be had.
pub open spec fn prints_owner(outputs: Seq<Option<Vec<u8>>>, id: u32) -> bool {
    exists|k: int|
        0 <= k < outputs.len() && (#[trigger] outputs[k]) is Some && prints_id(
            printed_lines(outputs[k]->0@),
            id,
        )
}

/// The numbers of the processes that were printed for the ports, each of them once.
pub fn port_owner_ids(outputs: &Vec<Option<Vec<u8>>>) -> (ids: Vec<u32>)
    ensures
        ids@.no_duplicates(),
        forall|id: u32| #[trigger] ids@.contains(id) <==> prints_owner(outputs@, id),
{
    let mut ids: Vec<u32> = Vec::new();
    let mut i: usize = 0;
    while i < outputs.len()
        invariant
            i <= outputs@.len(),
            ids@.no_duplicates(),
            forall|id: u32| #[trigger]
                ids@.contains(id) <==> prints_owner(outputs@.take(i as int), id),
        decreases outputs@.len() - i,
    {
        let ghost found = ids@;
        let ghost before = outputs@.take(i as int);
        let ghost now = outputs@.take(i + 1);
        let ghost held = outputs@[i as int];
        if let Some(output) = &outputs[i] {
            add_printed_ids(&mut ids, output.as_slice());
        }
        proof {
            assert forall|id: u32| prints_owner(now, id) <==> prints_owner(before, id) || (held is Some
                && prints_id(printed_lines(held->0@), id)) by {
                if prints_owner(before, id) {
                    let k = choose|k: int|
                        0 <= k < before.len() && (#[trigger] before[k]) is Some && prints_id(
                            printed_lines(before[k]->0@),
                            id,
                        );
                    assert(now[k] == before[k]);
                }
                if held is Some && prints_id(printed_lines(held->0@), id) {
                    assert(now[i as int] == held);
                }
                if prints_owner(now, id) {
                    let k = choose|k: int|
                        0 <= k < now.len() && (#[trigger] now[k]) is Some && prints_id(
                            printed_lines(now[k]->0@),
                            id,
                        );
                    if k < i {
                        assert(before[k] == now[k]);
                    }
                }
            }
            assert forall|a: int, b: int| 0 <= a < ids@.len() && 0 <= b < ids@.len() && a
                != b implies ids@[a] != ids@[b] by {
                if a < found.len() && b < found.len() {
                    assert(ids@[a] == found[a] && ids@[b] == found[b]);
                }
            }
            assert forall|id: u32| #[trigger] ids@.contains(id) <==> prints_owner(now, id) by {
                assert(found.contains(id) <==> prints_owner(before, id));
            }
        }
        i = i + 1;
    }
    assert(outputs@.take(i as int) == outputs@);
    ids
}

fn contains_id(ids: &Vec<u32>, id: u32) -> (found: bool)
    ensures
        found == ids@.contains(id),
{
    let mut i: usize = 0;
    while i < ids.len()
        invariant
            i <= ids@.len(),
            forall|j: int| 0 <= j < i ==> ids@[j] != id,
        decreases ids@.len() - i,
    {
        if ids[i] == id {
            return true;
        }
        i = i + 1;
    }
    false
}

/// What the command of a process is asked for with.
pub fn process_command_arguments(process_id: u32) -> (arguments: Vec<String>)
    ensures
        text::texts(arguments@) == seq![
            "-p"@,
            text::decimal(process_id as nat),
            "-o"@,
            "command="@,
        ],
{
    let arguments: Vec<String> = vec![
        "-p".to_owned(),
        text::decimal_text(process_id as u64),
        "-o".to_owned(),
        "command=".to_owned(),
    ];
    assert(text::texts(arguments@) =~= seq![
        "-p"@,
        text::decimal(process_id as nat),
        "-o"@,
        "command="@,
    ]);
    arguments
}

/// The command of a process, as it was printed.
pub fn printed_command(output: &[u8]) -> (command: String)
    ensures
        command@ == text::trimmed(text::lossy_text(output@)),
{
    text::trim(text::read_lossy(output).as_str())
}

/// A signal that asks a process to end, or ends it.
#[derive(Debug, Clone, Copy, PartialEq, Eq)]
pub enum Signal {
    Term,
    Kill,
}

impl Signal {
    /// The name of the signal.
    pub open spec fn name(self) -> Seq<char> {
        match self {
            Signal::Term => "TERM"@,
            Signal::Kill => "KILL"@,
        }
    }

    /// The signal that processes get that have outlived this one.
    pub fn next(self) -> (signal: Option<Signal>)
        ensures
            signal == match self {
                Signal::Term => Some(Signal::Kill),
                Signal::Kill => None,
            },
    {
        match self {
            Signal::Term => Some(Signal::Kill),
            Signal::Kill => None,
        }
    }
}

/// What a signal is sent to a process with.
pub open spec fn signal_arguments_of(process_id: u32, signal: Signal) -> Seq<Seq<char>> {
    seq!["-"@ + signal.name(), text::decimal(process_id as nat)]
}

/// What a signal is sent to a process with.
pub fn signal_arguments(process_id: u32, signal: Signal) -> (arguments: Vec<String>)
    ensures
        text::texts(arguments@) == signal_arguments_of(process_id, signal),
{
    let name = match signal {
        Signal::Term => "TERM",
        Signal::Kill => "KILL",
    };
    let arguments: Vec<String> =
        vec!["-".to_owned().concat(name), text::decimal_text(process_id as u64)];
    assert(text::texts(arguments@) =~= signal_arguments_of(process_id, signal));
    arguments
}

/// What signals are sent with, process by process.
pub open spec fn command_texts(commands: Seq<Vec<String>>) -> Seq<Seq<Seq<char>>> {
    commands.map_values(|arguments: Vec<String>| text::texts(arguments@))
}

/// What a signal is sent to the processes with, one after the other.
pub fn signal_all(process_ids: &Vec<u32>, signal: Signal) -> (commands: Vec<Vec<String>>)
    ensures
        command_texts(commands@) == process_ids@.map_values(
            |id: u32| signal_arguments_of(id, signal),
        ),
{
    let ghost expected = process_ids@.map_values(|id: u32| signal_arguments_of(id, signal));
    let mut commands: Vec<Vec<String>> = Vec::new();
    let mut i: usize = 0;
    while i < process_ids.len()
        invariant
            i <= process_ids@.len(),
            expected == process_ids@.map_values(|id: u32| signal_arguments_of(id, signal)),
            commands@.len() == i,
            forall|j: int|
                0 <= j < i ==> text::texts((#[trigger] commands@[j])@) == expected[j],
        decreases process_ids@.len() - i,
    {
        commands.push(signal_arguments(process_ids[i], signal));
        i = i + 1;
    }
    assert(command_texts(commands@) =~= expected);
    commands
}

/// The processes that hold ports, by their number and their command.
pub open spec fn owner_views(owners: Seq<(u32, String)>) -> Seq<(u32, Seq<char>)> {
    owners.map_values(|p: (u32, String)| (p.0, p.1@))
}

/// The processes whose commands could be had, with what was printed of them, without the white
/// space around it.
pub open spec fn known_owners(
    ids: Seq<u32>,
    printed: Seq<Option<Vec<u8>>>,
) -> Seq<(u32, Seq<char>)>
    decreases ids.len(),
{
    if ids.len() == 0 || printed.len() == 0 {
        seq![]
    } else {
        let before = known_owners(ids.drop_last(), printed.drop_last());
        match printed.last() {
            Some(output) => before.push(
                (ids.last(), text::trimmed(text::lossy_text(output@))),
            ),
            None => before,
        }
    }
}

/// The processes with their commands, by what was printed when each was asked for, or `None` where
/// the command could not be had. Such a process is left out.
pub fn owners_with_commands(ids: Vec<u32>, printed: &Vec<Option<Vec<u8>>>) -> (owners: Vec<
    (u32, String),
>)
    requires
        ids@.len() == printed@.len(),
    ensures
        owner_views(owners@) == known_owners(ids@, printed@),
{
    let mut owners: Vec<(u32, String)> = Vec::new();
    let mut i: usize = 0;
    assert(owner_views(owners@) =~= known_owners(ids@.take(0), printed@.take(0)));
    while i < ids.len()
        invariant
            i <= ids@.len(),
            ids@.len() == printed@.len(),
            owner_views(owners@) == known_owners(ids@.take(i as int), printed@.take(i as int)),
        decreases ids@.len() - i,
    {
        let ghost before = owner_views(owners@);
        assert(ids@.take(i + 1).drop_last() == ids@.take(i as int));
        assert(printed@.take(i + 1).drop_last() == printed@.take(i as int));
        if let Some(output) = &printed[i] {
            let command = printed_command(output.as_slice());
            let ghost owner = (ids@[i as int], command@);
            owners.push((ids[i], command));
            assert(owner_views(owners@) =~= before.push(owner));
        }
        i = i + 1;
    }
    assert(ids@.take(i as int) == ids@);
    assert(printed@.take(i as int) == printed@);
    owners
}

/// What a signal is sent with to the processes that hold ports and belong to the application.
pub fn stop_macos_port_owner_processes(
    owners: &Vec<(u32, String)>,
    current_process_id: u32,
    trusted_fragments: &Vec<String>,
    signal: Signal,
) -> (commands: Vec<Vec<String>>)
    ensures
        command_texts(commands@) == processes::related_ids(
            owner_views(owners@),
            current_process_id,
            text::texts(trusted_fragments@),
        ).map_values(|id: u32| signal_arguments_of(id, signal)),
{
    let mut borrowed: Vec<(u32, &str)> = Vec::new();
    let mut i: usize = 0;
    while i < owners.len()
        invariant
            i <= owners@.len(),
            borrowed@.len() == i,
            forall|j: int|
                0 <= j < i ==> (#[trigger] borrowed@[j]).0 == owners@[j].0 && borrowed@[j].1@
                    == owners@[j].1@,
        decreases owners@.len() - i,
    {
        borrowed.push((owners[i].0, owners[i].1.as_str()));
        i = i + 1;
    }
    let mut fragments: Vec<&str> = Vec::new();
    let mut i: usize = 0;
    while i < trusted_fragments.len()
        invariant
            i <= trusted_fragments@.len(),
            fragments@.len() == i,
            forall|j: int|
                0 <= j < i ==> (#[trigger] fragments@[j])@ == trusted_fragments@[j]@,
        decreases trusted_fragments@.len() - i,
    {
        fragments.push(trusted_fragments[i].as_str());
        i = i + 1;
    }
    assert(processes::process_views(borrowed@) =~= owner_views(owners@));
    assert(fragments@.map_values(|f: &str| f@) =~= text::texts(trusted_fragments@));
    let killable = processes::filter_macos_codex_related_port_owner_processes(
        &borrowed,
        current_process_id,
        &fragments,
    );
    signal_all(&killable, signal)
}

/// The parts of the directory that lies `levels` above a path.
pub open spec fn ancestor_parts(parts: Seq<PartView>, levels: nat) -> Option<Seq<PartView>>
    decreases levels,
{
    if levels == 0 {
        Some(parts)
    } else {
        match ancestor_parts(parts, (levels - 1) as nat) {
            Some(below) => paths::parent_parts(below),
            None => None,
        }
    }
}

/// The parts of the application bundle of the launcher that belongs to the running executable: it
/// stands next to the bundle of that. An executable in no bundle has none.
pub open spec fn launcher_bundle_of(exe: Seq<PartView>) -> Option<Seq<PartView>> {
    match install::bundle_directory(exe) {
        Some(directory) => Some(directory.push(PartView::Name("Codex++.app"@))),
        None => None,
    }
}

/// Whether the text is that of the bundle of the launcher in a directory that the text of the
/// running executable begins with.
pub open spec fn is_bundle_text(exe: Seq<char>, bundle: Seq<char>) -> bool {
    exists|length: int|
        0 <= length <= exe.len() && paths::is_joined_text(
            #[trigger] exe.take(length),
            "Codex++.app"@,
            bundle,
        )
}

/// The application bundle of the launcher that belongs to the running executable.
pub fn macos_launcher_bundle_path(exe: &Path) -> (found: Option<PathBuf>)
    ensures
        match found {
            Some(bundle) => launcher_bundle_of(paths::path_parts(exe)) is Some && (paths::can_join(
                exe,
            ) ==> launcher_bundle_of(paths::path_parts(exe)) == Some(paths::path_buf_parts(bundle)))
                && (!paths::begins_with_two_separators(paths::path_text(exe)) ==> is_bundle_text(
                paths::path_text(exe),
                paths::path_buf_text(bundle),
            )),
            None => launcher_bundle_of(paths::path_parts(exe)) is None,
        },
{
    proof {
        reveal_strlit("Codex++.app");
        paths::lemma_is_file_name("Codex++.app"@);
    }
    let Some(directory) = install::find_bundle_directory(exe) else {
        return None;
    };
    let bundle = paths::join(paths::borrow(&directory), "Codex++.app");
    proof {
        let parts = paths::path_buf_parts(directory);
        let text = paths::path_buf_text(directory);
        assert(paths::name_parts(seq!["Codex++.app"@]) =~= seq![PartView::Name("Codex++.app"@)]);
        assert(parts + seq![PartView::Name("Codex++.app"@)] =~= parts.push(
            PartView::Name("Codex++.app"@),
        ));
        assert(paths::path_text(exe).take(text.len() as int) =~= text);
    }
    Some(bundle)
}

/// The fragments by which commands are told to belong to the application: the directories of the
/// application and of its data, and the bundle of the launcher if it has one.
pub open spec fn related_fragments(
    app_dir: &Path,
    codex_home: &Path,
    launcher_bundle: Option<&Path>,
) -> Seq<Seq<char>> {
    let directories = seq![paths::path_text(app_dir), paths::path_text(codex_home)];
    match launcher_bundle {
        Some(bundle) => directories.push(paths::path_text(bundle)),
        None => directories,
    }
}

/// The fragments by which commands are told to belong to the application.
pub fn macos_codex_related_process_fragments(
    app_dir: &Path,
    codex_home: &Path,
    launcher_bundle: Option<&Path>,
) -> (fragments: Vec<String>)
    ensures
        text::texts(fragments@) == related_fragments(app_dir, codex_home, launcher_bundle),
{
    let mut fragments: Vec<String> = vec![paths::text_of(app_dir), paths::text_of(codex_home)];
    if let Some(bundle) = launcher_bundle {
        fragments.push(paths::text_of(bundle));
    }
    assert(text::texts(fragments@) =~= related_fragments(app_dir, codex_home, launcher_bundle));
    fragments
}

/// The bundle of the launcher is the directory three levels above the launcher that the running
/// executable finds.
pub proof fn law_launcher_bundle_holds_launcher(exe: Seq<PartView>)
    requires
        install::bundle_directory(exe) is Some,
    ensures
        launcher_bundle_of(exe) == ancestor_parts(
            install::companion_of(exe, install::SILENT_BINARY@),
            3,
        ),
{
    reveal_with_fuel(ancestor_parts, 4);
    let directory = install::bundle_directory(exe)->0;
    let launcher = install::companion_of(exe, install::SILENT_BINARY@);
    let parts = paths::name_parts(install::bundled(install::SILENT_BINARY@)->0);
    assert(parts.len() == 4);
    assert(launcher.drop_last().drop_last().drop_last() =~= directory.push(parts[0]));
}

proof fn lemma_number_is_word(n: nat)
    ensures
        text::is_word(text::decimal(n)),
{
    text::law_number_is_read_back(n, n);
    text::law_numbers_are_digits(text::decimal(n), 0, n);
    assert forall|i: int| 0 <= i < text::decimal(n).len() implies !text::is_white_space(
        #[trigger] text::decimal(n)[i],
    ) by {}
}

/// A line of the list holds the number of a process and its command. The process is found if the
/// words of the command, with single spaces between them, hold the fragment without the white
/// space around it.
pub proof fn law_listed_process_is_found(
    blank: Seq<char>,
    process_id: u32,
    command: Seq<char>,
    fragment: Seq<char>,
)
    requires
        text::is_blank(blank),
        command.len() > 0 ==> text::is_white_space(command[0]),
    ensures
        matching_id(blank + text::decimal(process_id as nat) + command, fragment) == (
        if text::occurs_in(
            text::trimmed(fragment),
            text::joined_words(text::words_of(command)),
        ) {
            Some(process_id)
        } else {
            None
        }),
{
    let number = text::decimal(process_id as nat);
    lemma_number_is_word(process_id as nat);
    text::law_number_is_read_back(process_id as nat, u32::MAX as nat);
    text::law_words(blank, number, command);
    assert((seq![number] + text::words_of(command)).drop_first() =~= text::words_of(command));
}

/// A line that does not begin with a number stands for no process.
pub proof fn law_line_without_number_is_skipped(
    blank: Seq<char>,
    word: Seq<char>,
    rest: Seq<char>,
    fragment: Seq<char>,
)
    requires
        text::is_blank(blank),
        text::is_word(word),
        rest.len() > 0 ==> text::is_white_space(rest[0]),
        text::parsed_number(word, u32::MAX as nat) is None,
    ensures
        matching_id(blank + word + rest, fragment) is None,
        matching_id(blank, fragment) is None,
{
    text::law_words(blank, word, rest);
}

/// The lines of the list are read one by one, in their order.
pub proof fn law_list_is_read_line_by_line(
    lines: Seq<Seq<char>>,
    line: Seq<char>,
    fragment: Seq<char>,
)
    ensures
        matching_ids(lines.push(line), fragment) == (match matching_id(line, fragment) {
            Some(id) => matching_ids(lines, fragment).push(id),
            None => matching_ids(lines, fragment),
        }),
        matching_ids(Seq::<Seq<char>>::empty(), fragment).len() == 0,
{
    assert(lines.push(line).drop_last() =~= lines);
}

/// The number of a process is found on its line, with white space around it.
pub proof fn law_printed_number_is_found(
    before: Seq<char>,
    process_id: u32,
    after: Seq<char>,
)
    requires
        text::is_blank(before),
        text::is_blank(after),
    ensures
        printed_id(before + text::decimal(process_id as nat) + after) == Some(process_id),
{
    let number = text::decimal(process_id as nat);
    lemma_number_is_word(process_id as nat);
    assert(!text::is_white_space(number[number.len() - 1]));
    text::law_trimming_takes_white_space(before, number, after);
    text::law_number_is_read_back(process_id as nat, u32::MAX as nat);
}

/// A number is printed if it is on one of the lines, and for one of the ports if it is printed for
/// that port.
pub proof fn law_owners_are_printed(
    lines: Seq<Seq<char>>,
    line: Seq<char>,
    outputs: Seq<Option<Vec<u8>>>,
    output: Option<Vec<u8>>,
    process_id: u32,
)
    ensures
        prints_id(lines.push(line), process_id) <==> prints_id(lines, process_id) || printed_id(line)
            == Some(process_id),
        !prints_id(Seq::<Seq<char>>::empty(), process_id),
        prints_owner(outputs.push(output), process_id) <==> prints_owner(outputs, process_id) || (
        output matches Some(printed) && prints_id(
            text::lines_of(text::lossy_text(printed@)),
            process_id,
        )),
        !prints_owner(Seq::<Option<Vec<u8>>>::empty(), process_id),
{
    let more = lines.push(line);
    if prints_id(lines, process_id) {
        let i = choose|i: int|
            0 <= i < lines.len() && printed_id(#[trigger] lines[i]) == Some(process_id);
        assert(more[i] == lines[i]);
    }
    if printed_id(line) == Some(process_id) {
        assert(more[lines.len() as int] == line);
    }
    if prints_id(more, process_id) {
        let i = choose|i: int|
            0 <= i < more.len() && printed_id(#[trigger] more[i]) == Some(process_id);
        if i < lines.len() {
            assert(lines[i] == more[i]);
        }
    }
    let longer = outputs.push(output);
    if prints_owner(outputs, process_id) {
        let k = choose|k: int|
            0 <= k < outputs.len() && (#[trigger] outputs[k]) is Some && prints_id(
                printed_lines(outputs[k]->0@),
                process_id,
            );
        assert(longer[k] == outputs[k]);
    }
    if output is Some && prints_id(printed_lines(output->0@), process_id) {
        assert(longer[outputs.len() as int] == output);
    }
    if prints_owner(longer, process_id) {
        let k = choose|k: int|
            0 <= k < longer.len() && (#[trigger] longer[k]) is Some && prints_id(
                printed_lines(longer[k]->0@),
                process_id,
            );
        if k < outputs.len() {
            assert(outputs[k] == longer[k]);
        }
    }
}

/// Each process keeps its own command, and one whose command could not be had is left out.
pub proof fn law_owners_keep_their_commands(
    ids: Seq<u32>,
    printed: Seq<Option<Vec<u8>>>,
    process_id: u32,
    output: Vec<u8>,
)
    requires
        ids.len() == printed.len(),
    ensures
        known_owners(ids.push(process_id), printed.push(Some(output))) == known_owners(
            ids,
            printed,
        ).push((process_id, text::trimmed(text::lossy_text(output@)))),
        known_owners(ids.push(process_id), printed.push(None)) == known_owners(ids, printed),
        known_owners(Seq::<u32>::empty(), Seq::<Option<Vec<u8>>>::empty()).len() == 0,
{
    assert(ids.push(process_id).drop_last() =~= ids);
    assert(printed.push(Some(output)).drop_last() =~= printed);
    assert(printed.push(None).drop_last() =~= printed);
}

/// The command that sends a signal names the signal and the number of the process, whatever that
/// number is.
pub proof fn law_signal_reaches_process(process_id: u32, signal: Signal)
    ensures
        ({
            let arguments = signal_arguments_of(process_id, signal);
            &&& arguments.len() == 2
            &&& signal is Term ==> arguments[0] == "-TERM"@
            &&& signal is Kill ==> arguments[0] == "-KILL"@
            &&& text::parsed_number(arguments[1], u32::MAX as nat) == Some(process_id as nat)
        }),
{
    reveal_strlit("-");
    reveal_strlit("TERM");
    reveal_strlit("KILL");
    reveal_strlit("-TERM");
    reveal_strlit("-KILL");
    assert("-"@ + "TERM"@ =~= "-TERM"@);
    assert("-"@ + "KILL"@ =~= "-KILL"@);
    text::law_number_is_read_back(process_id as nat, u32::MAX as nat);
}

/// A command is related to the application if and only if it holds the directory of the
/// application, that of its data, or the bundle of the launcher.
pub proof fn law_commands_of_application(
    command: Seq<char>,
    app_dir: &Path,
    codex_home: &Path,
    bundle: &Path,
)
    ensures
        processes::is_related(command, related_fragments(app_dir, codex_home, None))
            <==> holds_path(command, app_dir) || holds_path(command, codex_home),
        processes::is_related(command, related_fragments(app_dir, codex_home, Some(bundle)))
            <==> holds_path(command, app_dir) || holds_path(command, codex_home) || holds_path(
            command,
            bundle,
        ),
{
    let none: Seq<Seq<char>> = seq![];
    let app = paths::path_text(app_dir);
    let home = paths::path_text(codex_home);
    let third = paths::path_text(bundle);
    processes::law_fragments_count_one_by_one(command, none, app);
    processes::law_fragments_count_one_by_one(command, none.push(app), home);
    processes::law_fragments_count_one_by_one(command, none.push(app).push(home), third);
    assert(none.push(app).push(home) =~= seq![app, home]);
}

/// Whether a command holds the text of a path, without the white space around it, if that is not
/// empty.
pub open spec fn holds_path(command: Seq<char>, path: &Path) -> bool {
    let sought = text::trimmed(paths::path_text(path));
    sought.len() > 0 && exists|before: Seq<char>, after: Seq<char>|
        #[trigger] (before + sought + after) == command
}

/// The bundle of the launcher stands next to the bundle of the running executable, in whatever
/// directory that stands. An executable that stands in no directory `Contents/MacOS` has none.
pub proof fn law_launcher_bundle_is_found(
    directory: Seq<PartView>,
    stem: Seq<char>,
    exe: Seq<char>,
    other: Seq<PartView>,
)
    ensures
        launcher_bundle_of(install::bundled_exe(directory, stem, exe)) == Some(
            directory.push(PartView::Name("Codex++.app"@)),
        ),
        other.len() == 0 || other.last() != PartView::Name("MacOS"@) ==> launcher_bundle_of(
            other.push(PartView::Name(exe)),
        ) is None,
{
    install::law_bundled_companions(directory, stem, exe);
    install::law_other_companions(other, exe, exe);
}

/// The processes that hold ports keep their numbers and commands, and commands their arguments.
pub proof fn law_owners_are_kept(
    owners: Seq<(u32, String)>,
    commands: Seq<Vec<String>>,
    i: int,
    j: int,
)
    ensures
        owner_views(owners).len() == owners.len(),
        0 <= i < owners.len() ==> owner_views(owners)[i] == (owners[i].0, owners[i].1@),
        command_texts(commands).len() == commands.len(),
        0 <= i < commands.len() ==> command_texts(commands)[i].len() == commands[i]@.len(),
        0 <= i < commands.len() && 0 <= j < commands[i]@.len() ==> command_texts(commands)[i][j]
            == commands[i]@[j]@,
{
}

} // verus!
