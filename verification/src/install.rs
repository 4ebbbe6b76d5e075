//! Where the executables of the application are found.

use crate::paths;
use crate::paths::{PartView, Platform};
use crate::text;
use std::path::{Path, PathBuf};
use vstd::prelude::*;

verus! {

/// The name of the executable that launches without a window.
pub const SILENT_BINARY: &'static str = "codex-plus-plus";

/// The name of the executable of the manager.
pub const MANAGER_BINARY: &'static str = "codex-plus-plus-manager";

/// The names of the shortcuts on Windows: of the launcher, and of the manager.
pub fn shortcut_names() -> (names: (&'static str, &'static str))
    ensures
        names.0@ == "Codex++.lnk"@,
        names.1@ == "Codex++ 管理工具.lnk"@,
{
    ("Codex++.lnk", "Codex++ 管理工具.lnk")
}

/// The names of the application bundles on macOS: of the launcher, and of the manager.
pub fn app_bundle_names() -> (names: (&'static str, &'static str))
    ensures
        names.0@ == "Codex++.app"@,
        names.1@ == "Codex++ 管理工具.app"@,
{
    ("Codex++.app", "Codex++ 管理工具.app")
}

/// How the directory is found that the application is installed to if none is named.
pub fn default_install_root_strategy(platform: Platform) -> (strategy: &'static str)
    ensures
        strategy@ == match platform {
            Platform::Windows => "windows-known-folder"@,
            Platform::MacOs => "macos-applications"@,
            Platform::Other => "user-dirs-desktop"@,
        },
{
    match platform {
        Platform::Windows => "windows-known-folder",
        Platform::MacOs => "macos-applications",
        Platform::Other => "user-dirs-desktop",
    }
}

/// Whether the parts are those of an executable in an application bundle: such an executable
/// stands in the directory `Contents/MacOS` of the bundle.
pub open spec fn is_bundled(exe: Seq<PartView>) -> bool {
    let n = exe.len() as int;
    &&& n >= 4
    &&& exe[n - 1] is Name
    &&& exe[n - 2] == PartView::Name("MacOS"@)
    &&& exe[n - 3] == PartView::Name("Contents"@)
    &&& exe[n - 4] matches PartView::Name(name)
    &&& ".app"@.is_suffix_of(name)
}

/// The parts of the directory that the bundle of an executable stands in, if it lies in one.
pub open spec fn bundle_directory(exe: Seq<PartView>) -> Option<Seq<PartView>> {
    if is_bundled(exe) {
        Some(exe.take(exe.len() - 4))
    } else {
        None
    }
}

/// The way from the directory that the bundles stand in to an executable of the application, if
/// it has a bundle.
pub open spec fn bundled(binary: Seq<char>) -> Option<Seq<Seq<char>>> {
    if binary == SILENT_BINARY@ {
        Some(seq!["Codex++.app"@, "Contents"@, "MacOS"@, "CodexPlusPlus"@])
    } else if binary == MANAGER_BINARY@ {
        Some(seq!["Codex++ 管理工具.app"@, "Contents"@, "MacOS"@, "CodexPlusPlusManager"@])
    } else {
        None
    }
}

/// The parts of the executable of the application with the given name that belongs to another
/// one: in a bundle next to its bundle, or next to it if it lies in no bundle.
pub open spec fn companion_of(exe: Seq<PartView>, binary: Seq<char>) -> Seq<PartView> {
    match (bundle_directory(exe), bundled(binary)) {
        (Some(directory), Some(names)) => directory + paths::name_parts(names),
        _ => match paths::parent_parts(exe) {
            Some(directory) => directory + paths::name_parts(seq![binary]),
            None => exe + paths::name_parts(seq![binary]),
        },
    }
}

fn bundled_names(binary: &str) -> (found: Option<Vec<&'static str>>)
    ensures
        match found {
            Some(names) => bundled(binary@) == Some(names@.map_values(|name: &str| name@))
                && forall|i: int|
                0 <= i < names@.len() ==> paths::is_file_name((#[trigger] names@[i])@),
            None => bundled(binary@) is None,
        },
{
    proof {
        reveal_strlit("Codex++.app");
        paths::lemma_is_file_name("Codex++.app"@);
        reveal_strlit("Codex++ 管理工具.app");
        paths::lemma_is_file_name("Codex++ 管理工具.app"@);
        reveal_strlit("Contents");
        paths::lemma_is_file_name("Contents"@);
        reveal_strlit("MacOS");
        paths::lemma_is_file_name("MacOS"@);
        reveal_strlit("CodexPlusPlus");
        paths::lemma_is_file_name("CodexPlusPlus"@);
        reveal_strlit("CodexPlusPlusManager");
        paths::lemma_is_file_name("CodexPlusPlusManager"@);
    }
    if text::same_text(binary, SILENT_BINARY) {
        let names: Vec<&'static str> = vec!["Codex++.app", "Contents", "MacOS", "CodexPlusPlus"];
        assert(names@.map_values(|name: &str| name@) =~= bundled(binary@)->0);
        Some(names)
    } else if text::same_text(binary, MANAGER_BINARY) {
        let names: Vec<&'static str> =
            vec!["Codex++ 管理工具.app", "Contents", "MacOS", "CodexPlusPlusManager"];
        assert(names@.map_values(|name: &str| name@) =~= bundled(binary@)->0);
        Some(names)
    } else {
        None
    }
}

/// The directory that the bundle of an executable stands in, if it lies in one.
pub(crate) fn find_bundle_directory(exe: &Path) -> (found: Option<PathBuf>)
    ensures
        match found {
            Some(directory) => bundle_directory(paths::path_parts(exe)) == Some(
                paths::path_buf_parts(directory),
            ) && paths::path_buf_text(directory).is_prefix_of(paths::path_text(exe)) && (
            paths::can_join(exe) ==> paths::can_join_buf(directory)),
            None => bundle_directory(paths::path_parts(exe)) is None,
        },
{
    let ghost parts = paths::path_parts(exe);
    let ghost n = parts.len() as int;
    if paths::file_name(exe).is_none() {
        return None;
    }
    let Some(macos) = paths::parent(exe) else {
        return None;
    };
    let Some(contents) = paths::parent(paths::borrow(&macos)) else {
        return None;
    };
    let Some(bundle) = paths::parent(paths::borrow(&contents)) else {
        return None;
    };
    assert(paths::path_buf_parts(bundle) =~= parts.take(n - 3));
    match (
        paths::file_name(paths::borrow(&macos)),
        paths::file_name(paths::borrow(&contents)),
        paths::file_name(paths::borrow(&bundle)),
    ) {
        (Some(macos_name), Some(contents_name), Some(bundle_name)) => {
            if text::same_text(macos_name.as_str(), "MacOS") && text::same_text(
                contents_name.as_str(),
                "Contents",
            ) && text::ends_with(bundle_name.as_str(), ".app") {
                let directory = paths::parent(paths::borrow(&bundle));
                assert(parts.take(n - 3).drop_last() =~= parts.take(n - 4));
                directory
            } else {
                None
            }
        },
        _ => None,
    }
}

/// The executable of the application with the given name that belongs to another one.
pub fn companion_binary_path_from_exe(exe: &Path, binary: &str) -> (found: PathBuf)
    requires
        paths::is_file_name(binary@),
    ensures
        paths::can_join(exe) ==> paths::path_buf_parts(found) == companion_of(
            paths::path_parts(exe),
            binary@,
        ),
{
    if let Some(directory) = find_bundle_directory(exe) {
        if let Some(names) = bundled_names(binary) {
            return paths::join_names(paths::borrow(&directory), &names);
        }
    }
    let names: Vec<&str> = vec![binary];
    assert(names@.map_values(|name: &str| name@) =~= seq![binary@]);
    match paths::parent(exe) {
        Some(directory) => paths::join_names(paths::borrow(&directory), &names),
        None => paths::join_names(exe, &names),
    }
}

/// The executable of the application with the given name: the one that is named, or else the one
/// that is installed in the given directory if the running one lies in a bundle, or else the one
/// that belongs to the running one.
pub fn option_or_current_exe_from_exe(
    exe: &Path,
    option: &Option<PathBuf>,
    binary: &str,
    install_root: Option<&Path>,
) -> (found: PathBuf)
    requires
        paths::is_file_name(binary@),
    ensures
        match (option, bundle_directory(paths::path_parts(exe)), bundled(binary@), install_root) {
            (Some(named), _, _, _) => paths::path_buf_parts(found) == paths::path_buf_parts(*named)
                && paths::path_buf_text(found) == paths::path_buf_text(*named),
            (None, Some(_), Some(names), Some(root)) => paths::can_join(root) ==> paths::leads_to(
                paths::path_parts(root),
                names,
                paths::path_buf_parts(found),
            ),
            _ => paths::can_join(exe) ==> paths::path_buf_parts(found) == companion_of(
                paths::path_parts(exe),
                binary@,
            ),
        },
{
    if let Some(named) = option {
        return paths::own(paths::borrow(named));
    }
    if let Some(root) = install_root {
        if find_bundle_directory(exe).is_some() {
            if let Some(names) = bundled_names(binary) {
                return paths::join_names(root, &names);
            }
        }
    }
    companion_binary_path_from_exe(exe, binary)
}

/// The executables that a bundled one finds lie in bundles themselves, in the directory that its
/// bundle stands in, so that each finds what the others find.
pub proof fn law_companions_share_directory(exe: Seq<PartView>, binary: Seq<char>)
    requires
        bundle_directory(exe) is Some,
        bundled(binary) is Some,
    ensures
        bundle_directory(companion_of(exe, binary)) == bundle_directory(exe),
{
    reveal_strlit(".app");
    reveal_strlit("Codex++.app");
    reveal_strlit("Codex++ 管理工具.app");
    let directory = bundle_directory(exe)->0;
    let found = companion_of(exe, binary);
    let names = bundled(binary)->0;
    let name = names[0];
    assert(paths::name_parts(names).len() == 4);
    assert(".app"@ =~= name.subrange(name.len() - 4, name.len() as int));
    assert(is_bundled(found));
    assert(found.take(found.len() - 4) =~= directory);
}

/// The parts of an executable in an application bundle with a name that ends in `.app`.
pub open spec fn bundled_exe(
    directory: Seq<PartView>,
    stem: Seq<char>,
    exe: Seq<char>,
) -> Seq<PartView> {
    directory + seq![
        PartView::Name(stem + ".app"@),
        PartView::Name("Contents"@),
        PartView::Name("MacOS"@),
        PartView::Name(exe),
    ]
}

/// An executable in a bundle finds the launcher and the manager in their bundles, in the directory
/// that its own bundle stands in, whatever that directory and the names are.
pub proof fn law_bundled_companions(directory: Seq<PartView>, stem: Seq<char>, exe: Seq<char>)
    ensures
        bundle_directory(bundled_exe(directory, stem, exe)) == Some(directory),
        companion_of(bundled_exe(directory, stem, exe), "codex-plus-plus"@) == directory + seq![
            PartView::Name("Codex++.app"@),
            PartView::Name("Contents"@),
            PartView::Name("MacOS"@),
            PartView::Name("CodexPlusPlus"@),
        ],
        companion_of(bundled_exe(directory, stem, exe), "codex-plus-plus-manager"@) == directory
            + seq![
            PartView::Name("Codex++ 管理工具.app"@),
            PartView::Name("Contents"@),
            PartView::Name("MacOS"@),
            PartView::Name("CodexPlusPlusManager"@),
        ],
{
    reveal_strlit(".app");
    reveal_strlit("codex-plus-plus");
    reveal_strlit("codex-plus-plus-manager");
    assert("codex-plus-plus"@.len() != "codex-plus-plus-manager"@.len());
    let parts = bundled_exe(directory, stem, exe);
    let name = stem + ".app"@;
    assert(".app"@ =~= name.subrange(name.len() - 4, name.len() as int));
    assert(is_bundled(parts));
    assert(parts.take(parts.len() - 4) =~= directory);
    assert(SILENT_BINARY@ == "codex-plus-plus"@);
    assert(MANAGER_BINARY@ == "codex-plus-plus-manager"@);
    assert(paths::name_parts(bundled("codex-plus-plus"@)->0) =~= seq![
        PartView::Name("Codex++.app"@),
        PartView::Name("Contents"@),
        PartView::Name("MacOS"@),
        PartView::Name("CodexPlusPlus"@),
    ]);
    assert(paths::name_parts(bundled("codex-plus-plus-manager"@)->0) =~= seq![
        PartView::Name("Codex++ 管理工具.app"@),
        PartView::Name("Contents"@),
        PartView::Name("MacOS"@),
        PartView::Name("CodexPlusPlusManager"@),
    ]);
}

/// An executable that stands in no directory `MacOS` lies in no bundle, and finds the others in
/// its own directory.
pub proof fn law_other_companions(directory: Seq<PartView>, exe: Seq<char>, binary: Seq<char>)
    ensures
        directory.len() == 0 || directory.last() != PartView::Name("MacOS"@) ==> bundle_directory(
            directory.push(PartView::Name(exe)),
        ) is None && companion_of(directory.push(PartView::Name(exe)), binary) == directory.push(
            PartView::Name(binary),
        ),
{
    let parts = directory.push(PartView::Name(exe));
    assert(parts.drop_last() =~= directory);
    assert(directory + paths::name_parts(seq![binary]) =~= directory.push(PartView::Name(binary)));
    if directory.len() > 0 {
        assert(parts[parts.len() - 2] == directory.last());
    }
}

} // verus!
