//! Which processes belong to the application, and which of them may be stopped.

use crate::paths;
use crate::paths::Platform;
use crate::text;
use std::collections::{HashMap, HashSet};
use std::path::PathBuf;
use vstd::prelude::*;

verus! {

broadcast use vstd::std_specs::hash::group_hash_axioms;

/// Processes by their number and their command or executable.
pub open spec fn process_views(processes: Seq<(u32, &str)>) -> Seq<(u32, Seq<char>)> {
    processes.map_values(|p: (u32, &str)| (p.0, p.1@))
}

/// Whether an executable belongs to the installed application.
pub open spec fn is_codex_executable(executable: Seq<char>) -> bool {
    text::occurs_in("\\windowsapps\\openai.codex_"@, text::ascii_lower(executable))
}

/// The numbers of the processes whose executables belong to the installed application.
pub open spec fn codex_ids(processes: Seq<(u32, Seq<char>)>) -> Seq<u32> {
    processes.filter(|p: (u32, Seq<char>)| is_codex_executable(p.1)).map_values(
        |p: (u32, Seq<char>)| p.0,
    )
}

fn codex_executable(executable: &str) -> (found: bool)
    ensures
        found == is_codex_executable(executable@),
{
    let lower = text::to_ascii_lowercase(executable);
    text::contains(lower.as_str(), "\\windowsapps\\openai.codex_")
}

/// The numbers of the processes whose executables belong to the installed application.
pub fn codex_process_ids(processes: &[(u32, &str)]) -> (ids: Vec<u32>)
    ensures
        ids@ == codex_ids(process_views(processes@)),
{
    let ghost views = process_views(processes@);
    let ghost keep = |p: (u32, Seq<char>)| is_codex_executable(p.1);
    let ghost id = |p: (u32, Seq<char>)| p.0;
    let mut ids: Vec<u32> = Vec::new();
    let mut i: usize = 0;
    proof {
        reveal(Seq::filter);
        assert(ids@ =~= views.take(0).filter(keep).map_values(id));
    }
    while i < processes.len()
        invariant
            i <= processes@.len(),
            views == process_views(processes@),
            keep == (|p: (u32, Seq<char>)| is_codex_executable(p.1)),
            id == (|p: (u32, Seq<char>)| p.0),
            ids@ == views.take(i as int).filter(keep).map_values(id),
        decreases processes@.len() - i,
    {
        let (process_id, executable) = processes[i];
        if codex_executable(executable) {
            ids.push(process_id);
        }
        proof {
            reveal(Seq::filter);
            assert(views[i as int] == (process_id, executable@));
            assert(views.take(i + 1).drop_last() == views.take(i as int));
            assert(ids@ =~= views.take(i + 1).filter(keep).map_values(id));
        }
        i = i + 1;
    }
    assert(views.take(i as int) == views);
    ids
}

/// A process: its number, the number of its parent, and the name of its executable.
pub type ProcessView = (u32, u32, Seq<char>);

/// Processes with their parents.
pub open spec fn family_views(processes: Seq<(u32, u32, &str)>) -> Seq<ProcessView> {
    processes.map_values(|p: (u32, u32, &str)| (p.0, p.1, p.2@))
}

/// The number of the parent of a process, or zero if the process is not listed. The last entry of
/// a process counts.
pub open spec fn parent_id(processes: Seq<ProcessView>, process_id: u32) -> u32
    decreases processes.len(),
{
    if processes.len() == 0 {
        0
    } else if processes.last().0 == process_id {
        processes.last().1
    } else {
        parent_id(processes.drop_last(), process_id)
    }
}

/// The number of the process that stands `generations` above a process, or zero if its line ends
/// before. The process itself stands no generation above.
pub open spec fn ancestor_id(processes: Seq<ProcessView>, process_id: u32, generations: nat) -> u32
    decreases generations,
{
    if generations == 0 {
        process_id
    } else {
        let below = ancestor_id(processes, process_id, (generations - 1) as nat);
        if below == 0 {
            0
        } else {
            parent_id(processes, below)
        }
    }
}

/// Whether a process is the current one or stands above it.
pub open spec fn is_protected(
    processes: Seq<ProcessView>,
    current_process_id: u32,
    process_id: u32,
) -> bool {
    process_id != 0 && exists|generations: nat|
        #[trigger] ancestor_id(processes, current_process_id, generations) == process_id
}

/// Whether the name of an executable is that of the launcher.
pub open spec fn is_launcher(exe_file: Seq<char>) -> bool {
    text::ascii_lower(exe_file) == text::ascii_lower("codex-plus-plus.exe"@)
}

/// The numbers of the launcher processes that may be stopped: all but the current process and
/// those above it.
pub open spec fn killable_ids(processes: Seq<ProcessView>, current_process_id: u32) -> Seq<u32> {
    processes.filter(
        |p: ProcessView|
            !is_protected(processes, current_process_id, p.0) && is_launcher(p.2),
    ).map_values(|p: ProcessView| p.0)
}

fn parent_map(processes: &[(u32, u32, &str)]) -> (parents: HashMap<u32, u32>)
    ensures
        forall|id: u32|
            #[trigger] parent_id(family_views(processes@), id) == (if parents@.contains_key(id) {
                parents@[id]
            } else {
                0
            }),
{
    let ghost views = family_views(processes@);
    let mut parents: HashMap<u32, u32> = HashMap::new();
    let mut i: usize = 0;
    while i < processes.len()
        invariant
            i <= processes@.len(),
            views == family_views(processes@),
            forall|id: u32|
                #[trigger] parent_id(views.take(i as int), id) == (if parents@.contains_key(id) {
                    parents@[id]
                } else {
                    0
                }),
        decreases processes@.len() - i,
    {
        let (process_id, parent_process_id, _exe_file) = processes[i];
        let ghost before = parents@;
        parents.insert(process_id, parent_process_id);
        proof {
            assert(views.take(i + 1).drop_last() == views.take(i as int));
            assert forall|id: u32| #[trigger]
                parent_id(views.take(i + 1), id) == (if parents@.contains_key(id) {
                    parents@[id]
                } else {
                    0
                }) by {
                assert(parent_id(views.take(i as int), id) == (if before.contains_key(id) {
                    before[id]
                } else {
                    0
                }));
            }
        }
        i = i + 1;
    }
    assert(views.take(i as int) == views);
    parents
}

/// A line that comes back to a process of its own, or ends, goes nowhere else.
proof fn lemma_line_is_closed(
    processes: Seq<ProcessView>,
    process_id: u32,
    seen: Set<u32>,
    length: nat,
    generations: nat,
)
    requires
        forall|k: nat| k < length ==> seen.contains(#[trigger] ancestor_id(processes, process_id, k)),
        forall|id: u32| #[trigger]
            seen.contains(id) ==> exists|k: nat|
                k < length && #[trigger] ancestor_id(processes, process_id, k) == id,
        ancestor_id(processes, process_id, length) == 0 || seen.contains(
            ancestor_id(processes, process_id, length),
        ),
    ensures
        ancestor_id(processes, process_id, generations) == 0 || seen.contains(
            ancestor_id(processes, process_id, generations),
        ),
    decreases generations,
{
    if generations > length {
        let below = (generations - 1) as nat;
        lemma_line_is_closed(processes, process_id, seen, length, below);
        let id = ancestor_id(processes, process_id, below);
        if id != 0 {
            let k = choose|k: nat|
                k < length && #[trigger] ancestor_id(processes, process_id, k) == id;
            assert(ancestor_id(processes, process_id, k + 1) == ancestor_id(
                processes,
                process_id,
                generations,
            ));
            if k + 1 < length {
                assert(seen.contains(ancestor_id(processes, process_id, k + 1)));
            }
        }
    }
}

fn protected_ids(processes: &[(u32, u32, &str)], current_process_id: u32) -> (protected: HashSet<
    u32,
>)
    ensures
        forall|id: u32| #[trigger]
            protected@.contains(id) <==> is_protected(
                family_views(processes@),
                current_process_id,
                id,
            ),
{
    let ghost views = family_views(processes@);
    let ghost mut length: nat = 0;
    let ghost mut numbers: Set<int> = Set::empty();
    let parents = parent_map(processes);
    let mut protected: HashSet<u32> = HashSet::new();
    let mut cursor: u32 = current_process_id;
    let mut going = cursor != 0;
    while going
        invariant
            views == family_views(processes@),
            forall|id: u32| #[trigger]
                parent_id(views, id) == (if parents@.contains_key(id) {
                    parents@[id]
                } else {
                    0
                }),
            going ==> cursor != 0 && cursor == ancestor_id(views, current_process_id, length),
            !going ==> ancestor_id(views, current_process_id, length) == 0
                || protected@.contains(ancestor_id(views, current_process_id, length)),
            forall|k: nat|
                k < length ==> protected@.contains(
                    #[trigger] ancestor_id(views, current_process_id, k),
                ),
            forall|id: u32| #[trigger]
                protected@.contains(id) ==> id != 0 && exists|k: nat|
                    k < length && #[trigger] ancestor_id(views, current_process_id, k) == id,
            numbers.finite(),
            numbers.len() == length,
            forall|n: int| #[trigger]
                numbers.contains(n) ==> 0 <= n <= u32::MAX && protected@.contains(n as u32),
        decreases 0x1_0000_0000 - length, going as int,
    {
        if protected.insert(cursor) {
            proof {
                let range = vstd::set_lib::set_int_range(0, 0x1_0000_0000);
                vstd::set_lib::lemma_int_range(0, 0x1_0000_0000);
                numbers = numbers.insert(cursor as int);
                vstd::set_lib::lemma_len_subset(numbers, range);
                assert(ancestor_id(views, current_process_id, length) == cursor);
                length = length + 1;
            }
            cursor = match parents.get(&cursor) {
                Some(parent) => *parent,
                None => 0,
            };
            going = cursor != 0;
        } else {
            going = false;
        }
    }
    proof {
        assert forall|id: u32| #[trigger] protected@.contains(id) <==> is_protected(
            views,
            current_process_id,
            id,
        ) by {
            if is_protected(views, current_process_id, id) {
                let generations = choose|generations: nat|
                    #[trigger] ancestor_id(views, current_process_id, generations) == id;
                lemma_line_is_closed(
                    views,
                    current_process_id,
                    protected@,
                    length,
                    generations,
                );
            }
        }
    }
    protected
}

/// The numbers of the launcher processes that may be stopped: all but the current process and
/// those above it.
pub fn filter_killable_launcher_processes(
    processes: &[(u32, u32, &str)],
    current_process_id: u32,
) -> (ids: Vec<u32>)
    ensures
        ids@ == killable_ids(family_views(processes@), current_process_id),
{
    let ghost views = family_views(processes@);
    let ghost keep = |p: ProcessView|
        !is_protected(views, current_process_id, p.0) && is_launcher(p.2);
    let ghost id = |p: ProcessView| p.0;
    let protected = protected_ids(processes, current_process_id);
    let mut ids: Vec<u32> = Vec::new();
    let mut i: usize = 0;
    proof {
        reveal(Seq::filter);
        assert(ids@ =~= views.take(0).filter(keep).map_values(id));
    }
    while i < processes.len()
        invariant
            i <= processes@.len(),
            views == family_views(processes@),
            keep == (|p: ProcessView|
                !is_protected(views, current_process_id, p.0) && is_launcher(p.2)),
            id == (|p: ProcessView| p.0),
            forall|id: u32| #[trigger]
                protected@.contains(id) <==> is_protected(views, current_process_id, id),
            ids@ == views.take(i as int).filter(keep).map_values(id),
        decreases processes@.len() - i,
    {
        let (process_id, _parent_process_id, exe_file) = processes[i];
        assert(views[i as int].0 == process_id && views[i as int].2 == exe_file@);
        if !protected.contains(&process_id) && text::equal_ignoring_ascii_case(
            exe_file,
            "codex-plus-plus.exe",
        ) {
            ids.push(process_id);
        }
        proof {
            reveal(Seq::filter);
            assert(views.take(i + 1).drop_last() == views.take(i as int));
            assert(protected@.contains(process_id) <==> is_protected(
                views,
                current_process_id,
                process_id,
            ));
            assert(ids@ =~= views.take(i + 1).filter(keep).map_values(id));
        }
        i = i + 1;
    }
    assert(views.take(i as int) == views);
    ids
}

/// Neither the current process nor one above it is ever stopped, and nothing is stopped that is
/// not a launcher.
pub proof fn law_killable_processes_are_foreign_launchers(
    processes: Seq<ProcessView>,
    current_process_id: u32,
    process_id: u32,
)
    ensures
        killable_ids(processes, current_process_id).contains(process_id) ==> {
            &&& !is_protected(processes, current_process_id, process_id)
            &&& process_id != current_process_id || process_id == 0
            &&& exists|i: int|
                0 <= i < processes.len() && (#[trigger] processes[i]).0 == process_id
                    && is_launcher(processes[i].2)
        },
{
    let keep = |p: ProcessView|
        !is_protected(processes, current_process_id, p.0) && is_launcher(p.2);
    let ids = killable_ids(processes, current_process_id);
    if ids.contains(process_id) {
        let i = ids.index_of(process_id);
        let kept = processes.filter(keep);
        processes.lemma_filter_pred(keep, i);
        assert(kept.contains(kept[i]));
        processes.lemma_filter_contains_rev(keep, kept[i]);
        let a = processes.index_of(kept[i]);
        assert(processes[a].0 == process_id);
        assert(ancestor_id(processes, current_process_id, 0) == current_process_id);
    }
}

/// Whether a command belongs to the application: it holds one of the fragments, each taken
/// without the white space around it. A fragment that is blank counts for nothing.
pub open spec fn is_related(command: Seq<char>, fragments: Seq<Seq<char>>) -> bool {
    exists|i: int|
        0 <= i < fragments.len() && text::trimmed(#[trigger] fragments[i]).len() > 0
            && text::occurs_in(text::trimmed(fragments[i]), command)
}

/// Which processes belong to the application and are not the current one.
pub open spec fn is_stoppable(
    current_process_id: u32,
    fragments: Seq<Seq<char>>,
) -> spec_fn((u32, Seq<char>)) -> bool {
    |p: (u32, Seq<char>)| p.0 != current_process_id && is_related(p.1, fragments)
}

/// The numbers of the processes that belong to the application, but for the current one.
pub open spec fn related_ids(
    processes: Seq<(u32, Seq<char>)>,
    current_process_id: u32,
    fragments: Seq<Seq<char>>,
) -> Seq<u32> {
    processes.filter(is_stoppable(current_process_id, fragments)).map_values(
        |p: (u32, Seq<char>)| p.0,
    )
}

fn related(command: &str, fragments: &[&str]) -> (found: bool)
    ensures
        found == is_related(command@, fragments@.map_values(|f: &str| f@)),
{
    let ghost views = fragments@.map_values(|f: &str| f@);
    let mut i: usize = 0;
    while i < fragments.len()
        invariant
            i <= fragments@.len(),
            views == fragments@.map_values(|f: &str| f@),
            forall|j: int|
                0 <= j < i ==> !(text::trimmed(#[trigger] views[j]).len() > 0 && text::occurs_in(
                    text::trimmed(views[j]),
                    command@,
                )),
        decreases fragments@.len() - i,
    {
        let fragment = text::trim(fragments[i]);
        assert(views[i as int] == fragments@[i as int]@);
        if !fragment.as_str().is_empty() && text::contains(command, fragment.as_str()) {
            return true;
        }
        i = i + 1;
    }
    false
}

/// The numbers of the processes that belong to the application, but for the current one.
pub fn filter_macos_codex_related_port_owner_processes(
    processes: &[(u32, &str)],
    current_process_id: u32,
    trusted_fragments: &[&str],
) -> (ids: Vec<u32>)
    ensures
        ids@ == related_ids(
            process_views(processes@),
            current_process_id,
            trusted_fragments@.map_values(|f: &str| f@),
        ),
{
    let ghost views = process_views(processes@);
    let ghost fragments = trusted_fragments@.map_values(|f: &str| f@);
    let ghost keep = is_stoppable(current_process_id, fragments);
    let ghost id = |p: (u32, Seq<char>)| p.0;
    let mut ids: Vec<u32> = Vec::new();
    let mut i: usize = 0;
    proof {
        reveal(Seq::filter);
        assert(ids@ =~= views.take(0).filter(keep).map_values(id));
    }
    while i < processes.len()
        invariant
            i <= processes@.len(),
            views == process_views(processes@),
            fragments == trusted_fragments@.map_values(|f: &str| f@),
            keep == is_stoppable(current_process_id, fragments),
            id == (|p: (u32, Seq<char>)| p.0),
            ids@ == views.take(i as int).filter(keep).map_values(id),
        decreases processes@.len() - i,
    {
        let (process_id, command) = processes[i];
        if process_id != current_process_id && related(command, trusted_fragments) {
            ids.push(process_id);
        }
        proof {
            reveal(Seq::filter);
            assert(views[i as int] == (process_id, command@));
            assert(views.take(i + 1).drop_last() == views.take(i as int));
            assert(ids@ =~= views.take(i + 1).filter(keep).map_values(id));
        }
        i = i + 1;
    }
    assert(views.take(i as int) == views);
    ids
}

/// A process that holds a port is stopped only if it belongs to the application, and the current
/// process is never stopped.
pub proof fn law_stopped_port_owners_are_related(
    processes: Seq<(u32, Seq<char>)>,
    current_process_id: u32,
    fragments: Seq<Seq<char>>,
    process_id: u32,
)
    ensures
        related_ids(processes, current_process_id, fragments).contains(process_id) <==> process_id
            != current_process_id && exists|i: int|
            0 <= i < processes.len() && (#[trigger] processes[i]).0 == process_id && is_related(
                processes[i].1,
                fragments,
            ),
{
    let keep = is_stoppable(current_process_id, fragments);
    let ids = related_ids(processes, current_process_id, fragments);
    let kept = processes.filter(keep);
    if ids.contains(process_id) {
        let i = ids.index_of(process_id);
        processes.lemma_filter_pred(keep, i);
        assert(kept.contains(kept[i]));
        processes.lemma_filter_contains_rev(keep, kept[i]);
        assert(processes[processes.index_of(kept[i])].0 == process_id);
    }
    if process_id != current_process_id {
        assert forall|i: int|
            0 <= i < processes.len() && (#[trigger] processes[i]).0 == process_id && is_related(
                processes[i].1,
                fragments,
            ) implies ids.contains(process_id) by {
            processes.lemma_filter_contains(keep, i);
            let j = kept.index_of(processes[i]);
            assert(ids[j] == process_id);
        }
    }
}

/// A process as the system lists it.
pub struct ProcessEntry {
    pub process_id: u32,
    pub parent_process_id: u32,
    pub exe_file: String,
    pub executable_path: Option<PathBuf>,
}

/// Whether a process is one of the installed application.
pub open spec fn is_codex_process(process: ProcessEntry) -> bool {
    &&& text::ascii_lower(process.exe_file@) == text::ascii_lower("codex.exe"@)
    &&& process.executable_path matches Some(path)
    &&& is_codex_executable(paths::path_buf_text(path))
}

/// The numbers of the processes of the installed application, which are looked for on Windows
/// only.
pub open spec fn found_codex_ids(platform: Platform, processes: Seq<ProcessEntry>) -> Seq<u32> {
    if platform == Platform::Windows {
        processes.filter(|p: ProcessEntry| is_codex_process(p)).map_values(
            |p: ProcessEntry| p.process_id,
        )
    } else {
        seq![]
    }
}

/// The numbers of the processes of the installed application, which are looked for on Windows
/// only.
pub fn find_codex_processes(platform: Platform, processes: &[ProcessEntry]) -> (ids: Vec<u32>)
    ensures
        ids@ == found_codex_ids(platform, processes@),
{
    let ghost keep = |p: ProcessEntry| is_codex_process(p);
    let ghost id = |p: ProcessEntry| p.process_id;
    let mut ids: Vec<u32> = Vec::new();
    match platform {
        Platform::Windows => {},
        _ => {
            return ids;
        },
    }
    let mut i: usize = 0;
    proof {
        reveal(Seq::filter);
        assert(ids@ =~= processes@.take(0).filter(keep).map_values(id));
    }
    while i < processes.len()
        invariant
            i <= processes@.len(),
            keep == (|p: ProcessEntry| is_codex_process(p)),
            id == (|p: ProcessEntry| p.process_id),
            ids@ == processes@.take(i as int).filter(keep).map_values(id),
        decreases processes@.len() - i,
    {
        let process = &processes[i];
        if text::equal_ignoring_ascii_case(process.exe_file.as_str(), "codex.exe") {
            if let Some(path) = &process.executable_path {
                let executable = paths::text_of(paths::borrow(path));
                if codex_executable(executable.as_str()) {
                    ids.push(process.process_id);
                }
            }
        }
        proof {
            reveal(Seq::filter);
            assert(processes@.take(i + 1).drop_last() == processes@.take(i as int));
            assert(ids@ =~= processes@.take(i + 1).filter(keep).map_values(id));
        }
        i = i + 1;
    }
    assert(processes@.take(i as int) == processes@);
    ids
}

/// The processes with their parents.
pub open spec fn entry_views(processes: Seq<ProcessEntry>) -> Seq<ProcessView> {
    processes.map_values(|p: ProcessEntry| (p.process_id, p.parent_process_id, p.exe_file@))
}

/// The numbers of the launcher processes that may be stopped.
pub(crate) fn killable_entries(processes: &[ProcessEntry], current_process_id: u32) -> (ids: Vec<
    u32,
>)
    ensures
        ids@ == killable_ids(entry_views(processes@), current_process_id),
{
    let mut family: Vec<(u32, u32, &str)> = Vec::new();
    let mut i: usize = 0;
    while i < processes.len()
        invariant
            i <= processes@.len(),
            family@.len() == i,
            forall|j: int|
                0 <= j < i ==> (#[trigger] family@[j]).0 == processes@[j].process_id
                    && family@[j].1 == processes@[j].parent_process_id && family@[j].2@
                    == processes@[j].exe_file@,
        decreases processes@.len() - i,
    {
        let process = &processes[i];
        family.push((process.process_id, process.parent_process_id, process.exe_file.as_str()));
        i = i + 1;
    }
    assert(family_views(family@) =~= entry_views(processes@));
    filter_killable_launcher_processes(&family, current_process_id)
}

/// Every launcher may be stopped, whoever has started it, but for the current process and those
/// above it. The name of its executable may be written in any case.
pub proof fn law_foreign_launchers_are_killable(
    processes: Seq<ProcessView>,
    current_process_id: u32,
    process_id: u32,
)
    ensures
        killable_ids(processes, current_process_id).contains(process_id) <==> !is_protected(
            processes,
            current_process_id,
            process_id,
        ) && exists|i: int|
            0 <= i < processes.len() && (#[trigger] processes[i]).0 == process_id
                && text::ascii_lower(processes[i].2) == "codex-plus-plus.exe"@,
{
    reveal_strlit("codex-plus-plus.exe");
    assert(text::ascii_lower("codex-plus-plus.exe"@) =~= "codex-plus-plus.exe"@);
    law_killable_processes_are_foreign_launchers(processes, current_process_id, process_id);
    let keep = |p: ProcessView|
        !is_protected(processes, current_process_id, p.0) && is_launcher(p.2);
    let ids = killable_ids(processes, current_process_id);
    let kept = processes.filter(keep);
    if !is_protected(processes, current_process_id, process_id) {
        assert forall|i: int|
            0 <= i < processes.len() && (#[trigger] processes[i]).0 == process_id
                && text::ascii_lower(processes[i].2)
                == "codex-plus-plus.exe"@ implies ids.contains(process_id) by {
            processes.lemma_filter_contains(keep, i);
            let j = kept.index_of(processes[i]);
            assert(ids[j] == process_id);
        }
    }
}

/// The parent of a process is the one that its last entry names, and zero if it has no entry.
pub proof fn law_last_entry_names_parent(
    processes: Seq<ProcessView>,
    entry: ProcessView,
    process_id: u32,
)
    ensures
        parent_id(processes.push(entry), process_id) == (if entry.0 == process_id {
            entry.1
        } else {
            parent_id(processes, process_id)
        }),
        parent_id(Seq::<ProcessView>::empty(), process_id) == 0,
{
    assert(processes.push(entry).drop_last() =~= processes);
}

/// Protected are the current process, the parent of every protected process, and no other. Zero
/// is the number of none.
pub proof fn law_protected_processes(
    processes: Seq<ProcessView>,
    current_process_id: u32,
    process_id: u32,
)
    ensures
        !is_protected(processes, current_process_id, 0),
        current_process_id != 0 ==> is_protected(
            processes,
            current_process_id,
            current_process_id,
        ),
        is_protected(processes, current_process_id, process_id) && parent_id(processes, process_id)
            != 0 ==> is_protected(
            processes,
            current_process_id,
            parent_id(processes, process_id),
        ),
        is_protected(processes, current_process_id, process_id) ==> process_id == current_process_id
            || exists|child: u32|
            is_protected(processes, current_process_id, child) && #[trigger] parent_id(
                processes,
                child,
            ) == process_id,
{
    assert(ancestor_id(processes, current_process_id, 0) == current_process_id);
    if is_protected(processes, current_process_id, process_id) {
        let generations = choose|generations: nat|
            #[trigger] ancestor_id(processes, current_process_id, generations) == process_id;
        assert(ancestor_id(processes, current_process_id, generations + 1) == parent_id(
            processes,
            process_id,
        ));
        if generations > 0 {
            let child = ancestor_id(processes, current_process_id, (generations - 1) as nat);
            assert(is_protected(processes, current_process_id, child));
            assert(parent_id(processes, child) == process_id);
        }
    }
}

/// The processes of the installed application are found one by one, by their executables, which
/// hold `\\windowsapps\\openai.codex_` in any case.
pub proof fn law_codex_processes_are_found_one_by_one(
    processes: Seq<(u32, Seq<char>)>,
    process_id: u32,
    executable: Seq<char>,
)
    ensures
        codex_ids(processes.push((process_id, executable))) == (if text::occurs_in(
            "\\windowsapps\\openai.codex_"@,
            text::ascii_lower(executable),
        ) {
            codex_ids(processes).push(process_id)
        } else {
            codex_ids(processes)
        }),
        codex_ids(Seq::<(u32, Seq<char>)>::empty()).len() == 0,
{
    reveal(Seq::filter);
    let keep = |p: (u32, Seq<char>)| is_codex_executable(p.1);
    let id = |p: (u32, Seq<char>)| p.0;
    let longer = processes.push((process_id, executable));
    assert(longer.drop_last() =~= processes);
    assert(longer.filter(keep).map_values(id) =~= if is_codex_executable(executable) {
        processes.filter(keep).map_values(id).push(process_id)
    } else {
        processes.filter(keep).map_values(id)
    });
}

/// A command is related to the application if and only if it is to one of the fragments: it holds
/// what is left of the fragment without the white space around it, and that is not empty.
pub proof fn law_fragments_count_one_by_one(
    command: Seq<char>,
    fragments: Seq<Seq<char>>,
    fragment: Seq<char>,
)
    ensures
        is_related(command, fragments.push(fragment)) <==> is_related(command, fragments) || (
        text::trimmed(fragment).len() > 0 && exists|before: Seq<char>, after: Seq<char>|
            #[trigger] (before + text::trimmed(fragment) + after) == command),
        !is_related(command, Seq::<Seq<char>>::empty()),
{
    let more = fragments.push(fragment);
    text::law_occurrence_splits_text(text::trimmed(fragment), command);
    if is_related(command, fragments) {
        let i = choose|i: int|
            0 <= i < fragments.len() && text::trimmed(#[trigger] fragments[i]).len() > 0
                && text::occurs_in(text::trimmed(fragments[i]), command);
        assert(more[i] == fragments[i]);
    }
    if text::trimmed(fragment).len() > 0 && text::occurs_in(text::trimmed(fragment), command) {
        assert(more[fragments.len() as int] == fragment);
    }
    if is_related(command, more) {
        let i = choose|i: int|
            0 <= i < more.len() && text::trimmed(#[trigger] more[i]).len() > 0 && text::occurs_in(
                text::trimmed(more[i]),
                command,
            );
        if i < fragments.len() {
            assert(fragments[i] == more[i]);
        }
    }
}

/// The processes that hold ports are chosen one by one, in their order: those that are related to
/// the application and are not the current one.
pub proof fn law_port_owners_are_chosen_one_by_one(
    processes: Seq<(u32, Seq<char>)>,
    process_id: u32,
    command: Seq<char>,
    current_process_id: u32,
    fragments: Seq<Seq<char>>,
)
    ensures
        related_ids(processes.push((process_id, command)), current_process_id, fragments) == (
        if process_id != current_process_id && is_related(command, fragments) {
            related_ids(processes, current_process_id, fragments).push(process_id)
        } else {
            related_ids(processes, current_process_id, fragments)
        }),
        related_ids(Seq::<(u32, Seq<char>)>::empty(), current_process_id, fragments).len() == 0,
{
    reveal(Seq::filter);
    let keep = is_stoppable(current_process_id, fragments);
    let id = |p: (u32, Seq<char>)| p.0;
    let longer = processes.push((process_id, command));
    assert(longer.drop_last() =~= processes);
    assert(longer.filter(keep).map_values(id) =~= if keep((process_id, command)) {
        processes.filter(keep).map_values(id).push(process_id)
    } else {
        processes.filter(keep).map_values(id)
    });
}

/// On Windows the processes of the application are found one by one, in their order: those named
/// `codex.exe` in any case whose executable is known and belongs to the installed application.
/// Elsewhere none is found.
pub proof fn law_application_is_found_one_by_one(
    processes: Seq<ProcessEntry>,
    process: ProcessEntry,
)
    ensures
        found_codex_ids(Platform::Windows, processes.push(process)) == (if text::ascii_lower(
            process.exe_file@,
        ) == "codex.exe"@ && process.executable_path is Some && text::occurs_in(
            "\\windowsapps\\openai.codex_"@,
            text::ascii_lower(paths::path_buf_text(process.executable_path->0)),
        ) {
            found_codex_ids(Platform::Windows, processes).push(process.process_id)
        } else {
            found_codex_ids(Platform::Windows, processes)
        }),
        found_codex_ids(Platform::Windows, Seq::<ProcessEntry>::empty()).len() == 0,
        found_codex_ids(Platform::MacOs, processes).len() == 0,
        found_codex_ids(Platform::Other, processes).len() == 0,
{
    reveal(Seq::filter);
    reveal_strlit("codex.exe");
    assert(text::ascii_lower("codex.exe"@) =~= "codex.exe"@);
    let keep = |p: ProcessEntry| is_codex_process(p);
    let id = |p: ProcessEntry| p.process_id;
    let longer = processes.push(process);
    assert(longer.drop_last() =~= processes);
    assert(longer.filter(keep).map_values(id) =~= if is_codex_process(process) {
        processes.filter(keep).map_values(id).push(process.process_id)
    } else {
        processes.filter(keep).map_values(id)
    });
}

/// Whether the processes stand in line, each the parent of the one before it.
pub open spec fn is_line(processes: Seq<ProcessView>, line: Seq<u32>) -> bool {
    line.len() > 0 && forall|i: int|
        0 <= i < line.len() - 1 ==> #[trigger] line[i] != 0 && parent_id(processes, line[i])
            == line[i + 1]
}

proof fn lemma_line_to(processes: Seq<ProcessView>, process_id: u32, generations: nat) -> (line: Seq<
    u32,
>)
    requires
        ancestor_id(processes, process_id, generations) != 0,
    ensures
        is_line(processes, line),
        line[0] == process_id,
        line.last() == ancestor_id(processes, process_id, generations),
    decreases generations,
{
    if generations == 0 {
        seq![process_id]
    } else {
        let below = ancestor_id(processes, process_id, (generations - 1) as nat);
        let rest = lemma_line_to(processes, process_id, (generations - 1) as nat);
        let line = rest.push(ancestor_id(processes, process_id, generations));
        assert forall|i: int| 0 <= i < line.len() - 1 implies #[trigger] line[i] != 0 && parent_id(
            processes,
            line[i],
        ) == line[i + 1] by {
            if i < rest.len() - 1 {
                assert(rest[i] == line[i] && rest[i + 1] == line[i + 1]);
            } else {
                assert(line[i] == rest.last());
                assert(line[i] == below);
            }
        }
        line
    }
}

proof fn lemma_line_reaches(processes: Seq<ProcessView>, line: Seq<u32>, i: int)
    requires
        is_line(processes, line),
        0 <= i < line.len(),
    ensures
        ancestor_id(processes, line[0], i as nat) == line[i],
    decreases i,
{
    if i > 0 {
        lemma_line_reaches(processes, line, i - 1);
        assert(line[i - 1] != 0);
    }
}

/// A process is protected if and only if a line of parents leads from the current process to it.
pub proof fn law_line_of_parents_is_protected(
    processes: Seq<ProcessView>,
    current_process_id: u32,
    process_id: u32,
)
    ensures
        is_protected(processes, current_process_id, process_id) <==> process_id != 0 && exists|
            line: Seq<u32>,
        | #[trigger]
            is_line(processes, line) && line[0] == current_process_id && line.last() == process_id,
{
    if is_protected(processes, current_process_id, process_id) {
        let generations = choose|generations: nat|
            #[trigger] ancestor_id(processes, current_process_id, generations) == process_id;
        let line = lemma_line_to(processes, current_process_id, generations);
        assert(is_line(processes, line));
    }
    if process_id != 0 && exists|line: Seq<u32>| #[trigger]
        is_line(processes, line) && line[0] == current_process_id && line.last() == process_id {
        let line = choose|line: Seq<u32>| #[trigger]
            is_line(processes, line) && line[0] == current_process_id && line.last() == process_id;
        lemma_line_reaches(processes, line, line.len() - 1);
        assert(ancestor_id(processes, current_process_id, (line.len() - 1) as nat) == process_id);
    }
}

/// What is known of processes is kept: their numbers, their parents and their names or commands.
pub proof fn law_processes_are_kept(
    listed: Seq<(u32, &str)>,
    family: Seq<(u32, u32, &str)>,
    entries: Seq<ProcessEntry>,
    i: int,
)
    ensures
        process_views(listed).len() == listed.len(),
        0 <= i < listed.len() ==> process_views(listed)[i] == (listed[i].0, listed[i].1@),
        family_views(family).len() == family.len(),
        0 <= i < family.len() ==> family_views(family)[i] == (
            family[i].0,
            family[i].1,
            family[i].2@,
        ),
        entry_views(entries).len() == entries.len(),
        0 <= i < entries.len() ==> entry_views(entries)[i] == (
            entries[i].process_id,
            entries[i].parent_process_id,
            entries[i].exe_file@,
        ),
{
}

/// The numbers that the first processes of a list add to those that may be stopped, in their
/// order.
pub open spec fn killable_up_to(
    processes: Seq<ProcessView>,
    current_process_id: u32,
    count: nat,
) -> Seq<u32>
    decreases count,
{
    if count == 0 {
        seq![]
    } else {
        let process = processes[count - 1];
        let before = killable_up_to(processes, current_process_id, (count - 1) as nat);
        if text::ascii_lower(process.2) == "codex-plus-plus.exe"@ && !is_protected(
            processes,
            current_process_id,
            process.0,
        ) {
            before.push(process.0)
        } else {
            before
        }
    }
}

proof fn lemma_killable_up_to(
    processes: Seq<ProcessView>,
    current_process_id: u32,
    count: nat,
)
    requires
        count <= processes.len(),
    ensures
        killable_up_to(processes, current_process_id, count) == processes.take(
            count as int,
        ).filter(
            |p: ProcessView|
                !is_protected(processes, current_process_id, p.0) && is_launcher(p.2),
        ).map_values(|p: ProcessView| p.0),
    decreases count,
{
    reveal(Seq::filter);
    reveal_strlit("codex-plus-plus.exe");
    assert(text::ascii_lower("codex-plus-plus.exe"@) =~= "codex-plus-plus.exe"@);
    let keep = |p: ProcessView|
        !is_protected(processes, current_process_id, p.0) && is_launcher(p.2);
    let id = |p: ProcessView| p.0;
    let part = processes.take(count as int);
    if count == 0 {
        assert(part.filter(keep).map_values(id) =~= seq![]);
    } else {
        let rest = processes.take(count - 1);
        lemma_killable_up_to(processes, current_process_id, (count - 1) as nat);
        assert(part.drop_last() =~= rest);
        assert(part.last() == processes[count - 1]);
        assert(part.filter(keep).map_values(id) =~= if keep(part.last()) {
            rest.filter(keep).map_values(id).push(part.last().0)
        } else {
            rest.filter(keep).map_values(id)
        });
    }
}

/// The launchers that may be stopped stand in the order of the list, each as often as there.
pub proof fn law_killable_processes_keep_their_order(
    processes: Seq<ProcessView>,
    current_process_id: u32,
)
    ensures
        killable_ids(processes, current_process_id) == killable_up_to(
            processes,
            current_process_id,
            processes.len(),
        ),
{
    lemma_killable_up_to(processes, current_process_id, processes.len());
    assert(processes.take(processes.len() as int) =~= processes);
}

} // verus!
