//! Checking the dependencies of a workspace against a registry: where the
//! manifests are, which versions they ask for, what the registry answers,
//! and what that means for each dependency.

use crate::documents::{json_document, read_json, read_toml, toml_document, DocumentError};
use crate::tree::{EntryView, MetadataTree, ScalarView, TreeView};
use vstd::prelude::*;
use vstd::string::*;

verus! {

/// A dependency as a manifest declares it, with the newest version that
/// the registry knows once it was asked.
#[derive(Clone, Debug, PartialEq, Eq)]
pub struct DependencyInfo {
    pub name: String,
    pub current_version: String,
    pub newest_version: Option<String>,
    pub file_path: String,
}

/// What a `DependencyInfo` stands for.
pub ghost struct DependencyView {
    pub name: Seq<char>,
    pub current_version: Seq<char>,
    pub newest_version: Option<Seq<char>>,
    pub file_path: Seq<char>,
}

impl View for DependencyInfo {
    type V = DependencyView;

    open spec fn view(&self) -> DependencyView {
        DependencyView {
            name: self.name@,
            current_version: self.current_version@,
            newest_version: match self.newest_version {
                Some(v) => Some(v@),
                None => None,
            },
            file_path: self.file_path@,
        }
    }
}

/// The views of a list of dependencies.
pub open spec fn dependency_views(deps: Seq<DependencyInfo>) -> Seq<DependencyView> {
    deps.map_values(|d: DependencyInfo| d@)
}

/// The texts of a list of strings.
pub open spec fn texts(strings: Seq<String>) -> Seq<Seq<char>> {
    strings.map_values(|s: String| s@)
}

/// Where a dependency stands.
#[derive(Clone, Copy, Debug, PartialEq, Eq)]
pub enum DependencyStatus {
    /// The manifest asks for the newest version.
    UpToDate,
    /// The registry knows another version than the manifest asks for.
    UpdateAvailable,
    /// The registry gave no version.
    NotFound,
}

/// What to do once every dependency was looked up.
#[derive(Clone, Copy, Debug, PartialEq, Eq)]
pub enum NextStep {
    /// Nothing can be updated.
    AllUpToDate,
    /// Updates exist, and none was asked for: say how to ask.
    SuggestUpdate,
    /// Updates exist and were asked for.
    ApplyUpdates,
}

/// The outcome of a check: how many dependencies are up to date, which can
/// be updated (by their place in the list, in order), and for how many the
/// registry gave no version.
#[derive(Clone, Debug, PartialEq, Eq)]
pub struct Summary {
    pub up_to_date: usize,
    pub updates: Vec<usize>,
    pub not_found: usize,
}

/// The value that `key` has in a mapping.
pub open spec fn member(tree: TreeView, key: Seq<char>) -> Option<TreeView> {
    match tree {
        TreeView::Mapping(entries) => match TreeView::key_index(entries, key) {
            Some(i) => Some(entries[i].value),
            None => None,
        },
        _ => None,
    }
}

/// The string that a text scalar holds.
pub open spec fn string_of(tree: TreeView) -> Option<Seq<char>> {
    match tree {
        TreeView::Scalar(ScalarView::Text(s)) => Some(s),
        _ => None,
    }
}

/// The string that `key` has in a mapping.
pub open spec fn string_member(tree: TreeView, key: Seq<char>) -> Option<Seq<char>> {
    match member(tree, key) {
        Some(value) => string_of(value),
        None => None,
    }
}

/// The version that a dependency asks for: the string itself, or the
/// string under `version` in a table.
pub open spec fn version_of(dep: TreeView) -> Option<Seq<char>> {
    match dep {
        TreeView::Scalar(ScalarView::Text(v)) => Some(v),
        TreeView::Mapping(_) => string_member(dep, "version"@),
        _ => None,
    }
}

/// The dependencies among the first `n` entries of a table, in the table's
/// order: the entries that ask for a version.
pub open spec fn declared(entries: Seq<EntryView>, file_path: Seq<char>, n: int) -> Seq<
    DependencyView,
>
    decreases n,
{
    if n <= 0 {
        Seq::empty()
    } else {
        let before = declared(entries, file_path, n - 1);
        match version_of(entries[n - 1].value) {
            Some(version) => before.push(
                DependencyView {
                    name: entries[n - 1].key,
                    current_version: version,
                    newest_version: None,
                    file_path,
                },
            ),
            None => before,
        }
    }
}

/// The dependencies that a manifest declares under `dependencies`.
pub open spec fn dependencies_of(document: TreeView, file_path: Seq<char>) -> Seq<DependencyView> {
    match member(document, "dependencies"@) {
        Some(TreeView::Mapping(entries)) => declared(entries, file_path, entries.len() as int),
        _ => Seq::empty(),
    }
}

/// The newest version in a registry's answer: the string at
/// `crate.newest_version`, else the string at `newest_version`.
pub open spec fn newest_version(answer: TreeView) -> Option<Seq<char>> {
    let nested = match member(answer, "crate"@) {
        Some(info) => string_member(info, "newest_version"@),
        None => None,
    };
    match nested {
        Some(version) => Some(version),
        None => string_member(answer, "newest_version"@),
    }
}

/// Where a dependency stands.
pub open spec fn status(dep: DependencyView) -> DependencyStatus {
    match dep.newest_version {
        None => DependencyStatus::NotFound,
        Some(newest) => if dep.current_version != newest {
            DependencyStatus::UpdateAvailable
        } else {
            DependencyStatus::UpToDate
        },
    }
}

/// How many of the first `n` dependencies stand at `which`.
pub open spec fn count_status(deps: Seq<DependencyView>, which: DependencyStatus, n: int) -> nat
    decreases n,
{
    if n <= 0 {
        0
    } else if status(deps[n - 1]) == which {
        count_status(deps, which, n - 1) + 1
    } else {
        count_status(deps, which, n - 1)
    }
}

/// The places, among the first `n`, of the dependencies that can be
/// updated, in order.
pub open spec fn update_places(deps: Seq<DependencyView>, n: int) -> Seq<usize>
    decreases n,
{
    if n <= 0 {
        Seq::empty()
    } else if status(deps[n - 1]) == DependencyStatus::UpdateAvailable {
        update_places(deps, n - 1).push((n - 1) as usize)
    } else {
        update_places(deps, n - 1)
    }
}

/// The directories of the workspace that may hold a manifest.
pub open spec fn manifest_directories() -> Seq<Seq<char>> {
    seq![
        "../../sup_discord_app/src-tauri"@,
        "../../vendors/sup_drpc"@,
        "../../vendors/sup_mtracker"@,
        "../../vendors/sup_common"@,
    ]
}

/// The manifest of a directory.
pub open spec fn manifest_in(directory: Seq<char>) -> Seq<char> {
    directory + "/Cargo.toml"@
}

/// The manifests, among those of the first `n` directories, that are
/// present; a directory without a flag counts as absent.
pub open spec fn present_manifests(directories: Seq<Seq<char>>, present: Seq<bool>, n: int) -> Seq<
    Seq<char>,
>
    decreases n,
{
    if n <= 0 {
        Seq::empty()
    } else if n - 1 < present.len() && present[n - 1] {
        present_manifests(directories, present, n - 1).push(manifest_in(directories[n - 1]))
    } else {
        present_manifests(directories, present, n - 1)
    }
}

/// Every dependency stands at exactly one of the three, and the places to
/// update are as many as the dependencies that can be updated.
pub proof fn lemma_summary_is_complete(deps: Seq<DependencyView>, n: int)
    requires
        0 <= n <= deps.len(),
    ensures
        count_status(deps, DependencyStatus::UpToDate, n) + count_status(
            deps,
            DependencyStatus::UpdateAvailable,
            n,
        ) + count_status(deps, DependencyStatus::NotFound, n) == n,
        update_places(deps, n).len() == count_status(deps, DependencyStatus::UpdateAvailable, n),
    decreases n,
{
    if n > 0 {
        lemma_summary_is_complete(deps, n - 1);
    }
}

/// Whether the registry knows another version than the manifest asks for.
/// The two are compared as texts: any difference counts.
pub fn compare_versions(current: &str, latest: &str) -> (differ: bool)
    ensures
        differ == (current@ != latest@),
{
    !current.eq(latest)
}

/// The paths of the manifests to look for, one for each directory of the
/// workspace, in order.
pub fn manifest_candidates() -> (paths: Vec<String>)
    ensures
        paths@.len() == manifest_directories().len(),
        forall|i: int|
            0 <= i < paths@.len() ==> (#[trigger] paths@[i])@ == manifest_in(
                manifest_directories()[i],
            ),
{
    let mut paths: Vec<String> = Vec::new();
    paths.push("../../sup_discord_app/src-tauri".to_owned().concat("/Cargo.toml"));
    paths.push("../../vendors/sup_drpc".to_owned().concat("/Cargo.toml"));
    paths.push("../../vendors/sup_mtracker".to_owned().concat("/Cargo.toml"));
    paths.push("../../vendors/sup_common".to_owned().concat("/Cargo.toml"));
    paths
}

/// The manifests of the workspace that are present. `present` says, for
/// each path of `manifest_candidates` and in that order, whether a file is
/// there.
pub fn find_cargo_toml_files(present: &Vec<bool>) -> (files: Vec<String>)
    ensures
        texts(files@) == present_manifests(
            manifest_directories(),
            present@,
            manifest_directories().len() as int,
        ),
{
    let candidates = manifest_candidates();
    let mut files: Vec<String> = Vec::new();
    let mut i: usize = 0;
    assert(texts(files@) =~= present_manifests(manifest_directories(), present@, 0));
    while i < candidates.len()
        invariant
            i <= candidates.len(),
            candidates@.len() == manifest_directories().len(),
            forall|k: int|
                0 <= k < candidates@.len() ==> (#[trigger] candidates@[k])@ == manifest_in(
                    manifest_directories()[k],
                ),
            texts(files@) == present_manifests(manifest_directories(), present@, i as int),
        decreases candidates.len() - i,
    {
        if i < present.len() && present[i] {
            let ghost before = files@;
            files.push(candidates[i].clone());
            assert(texts(files@) =~= texts(before).push(candidates@[i as int]@));
        }
        i += 1;
    }
    files
}

/// The version that a dependency asks for: a string is the version; a
/// table gives the string under `version`; anything else gives none.
pub fn extract_version_from_dep(dep: &MetadataTree) -> (version: Option<String>)
    ensures
        match version_of(dep@) {
            Some(v) => version is Some && version.unwrap()@ == v,
            None => version is None,
        },
{
    match dep.as_text() {
        Some(text) => {
            return Some(text.clone());
        },
        None => {},
    }
    match dep.entries() {
        Some(_) => match dep.entry("version") {
            Some(value) => match value.as_text() {
                Some(text) => Some(text.clone()),
                None => None,
            },
            None => None,
        },
        None => None,
    }
}

/// The dependencies that a manifest, read into `document`, declares under
/// `dependencies`, in the order of the table. `file_path` is where the
/// manifest was read from.
pub fn dependencies_in(document: &MetadataTree, file_path: &str) -> (deps: Vec<DependencyInfo>)
    ensures
        dependency_views(deps@) == dependencies_of(document@, file_path@),
{
    let mut deps: Vec<DependencyInfo> = Vec::new();
    let table = match document.entry("dependencies") {
        Some(table) => table,
        None => {
            assert(dependency_views(deps@) =~= Seq::<DependencyView>::empty());
            return deps;
        },
    };
    let entries = match table.entries() {
        Some(entries) => entries,
        None => {
            assert(dependency_views(deps@) =~= Seq::<DependencyView>::empty());
            return deps;
        },
    };
    let ghost all = table@->Mapping_0;
    assert(dependency_views(deps@) =~= declared(all, file_path@, 0));
    let mut i: usize = 0;
    while i < entries.len()
        invariant
            i <= entries.len(),
            entries@.len() == all.len(),
            forall|k: int| 0 <= k < all.len() ==> (#[trigger] entries@[k]).0@ == all[k].key,
            forall|k: int| 0 <= k < all.len() ==> (#[trigger] entries@[k]).1@ == all[k].value,
            dependency_views(deps@) == declared(all, file_path@, i as int),
        decreases entries.len() - i,
    {
        assert(entries@[i as int].0@ == all[i as int].key);
        assert(entries@[i as int].1@ == all[i as int].value);
        match extract_version_from_dep(&entries[i].1) {
            Some(version) => {
                let ghost before = deps@;
                let dep = DependencyInfo {
                    name: entries[i].0.clone(),
                    current_version: version,
                    newest_version: None,
                    file_path: file_path.to_owned(),
                };
                deps.push(dep);
                assert(dependency_views(deps@) =~= dependency_views(before).push(dep@));
            },
            None => {},
        }
        i += 1;
    }
    deps
}

/// The dependencies that the manifest `content` declares. `file_path` is
/// where it was read from. A text that is no TOML document is an error.
pub fn parse_dependencies_from_cargo_toml(content: &str, file_path: &str) -> (deps: Result<
    Vec<DependencyInfo>,
    DocumentError,
>)
    ensures
        match toml_document(content@) {
            Some(document) => deps is Ok && dependency_views(deps->Ok_0@) == dependencies_of(
                document,
                file_path@,
            ),
            None => deps is Err && deps->Err_0 is InvalidToml,
        },
{
    match read_toml(content) {
        Ok(document) => Ok(dependencies_in(&document, file_path)),
        Err(e) => Err(e),
    }
}

fn string_at(tree: &MetadataTree, key: &str) -> (found: Option<String>)
    ensures
        match string_member(tree@, key@) {
            Some(s) => found is Some && found.unwrap()@ == s,
            None => found is None,
        },
{
    match tree.entry(key) {
        Some(value) => match value.as_text() {
            Some(text) => Some(text.clone()),
            None => None,
        },
        None => None,
    }
}

/// The newest version in a registry's answer, read into `answer`.
pub fn newest_version_in(answer: &MetadataTree) -> (version: Option<String>)
    ensures
        match newest_version(answer@) {
            Some(v) => version is Some && version.unwrap()@ == v,
            None => version is None,
        },
{
    match answer.entry("crate") {
        Some(info) => match string_at(info, "newest_version") {
            Some(version) => {
                return Some(version);
            },
            None => {},
        },
        None => {},
    }
    string_at(answer, "newest_version")
}

/// The newest version in the body of a registry's answer. A body that is
/// no JSON document is an error; a document without a version gives none.
pub fn read_latest_version(body: &str) -> (version: Result<Option<String>, DocumentError>)
    ensures
        match json_document(body@) {
            Some(answer) => version is Ok && match newest_version(answer) {
                Some(v) => version->Ok_0 is Some && version->Ok_0.unwrap()@ == v,
                None => version->Ok_0 is None,
            },
            None => version is Err && version->Err_0 is InvalidJson,
        },
{
    match read_json(body) {
        Ok(answer) => Ok(newest_version_in(&answer)),
        Err(e) => Err(e),
    }
}

/// Where to ask the registry about the crate `name`.
pub fn crate_url(name: &str) -> (url: String)
    ensures
        url@ == "https://crates.io/api/v1/crates/"@ + name@,
{
    "https://crates.io/api/v1/crates/".to_owned().concat(name)
}

/// How many milliseconds to pause after an answer with the HTTP status
/// `status` that is no success: half a second where the registry says that
/// it is asked too often, else none.
pub fn pause_after_status(status: u16) -> (milliseconds: u64)
    ensures
        milliseconds == if status == 429 {
            500u64
        } else {
            0u64
        },
{
    if status == 429 {
        500
    } else {
        0
    }
}

/// Where a dependency stands.
pub fn status_of(dep: &DependencyInfo) -> (standing: DependencyStatus)
    ensures
        standing == status(dep@),
{
    match &dep.newest_version {
        None => DependencyStatus::NotFound,
        Some(newest) => if compare_versions(dep.current_version.as_str(), newest.as_str()) {
            DependencyStatus::UpdateAvailable
        } else {
            DependencyStatus::UpToDate
        },
    }
}

/// Counts the dependencies by where they stand, and lists the places of
/// those that can be updated.
pub fn summarize(deps: &Vec<DependencyInfo>) -> (summary: Summary)
    ensures
        summary.up_to_date == count_status(
            dependency_views(deps@),
            DependencyStatus::UpToDate,
            deps@.len() as int,
        ),
        summary.not_found == count_status(
            dependency_views(deps@),
            DependencyStatus::NotFound,
            deps@.len() as int,
        ),
        summary.updates@ == update_places(dependency_views(deps@), deps@.len() as int),
{
    let ghost all = dependency_views(deps@);
    let mut up_to_date: usize = 0;
    let mut not_found: usize = 0;
    let mut updates: Vec<usize> = Vec::new();
    let mut i: usize = 0;
    assert(updates@ =~= update_places(all, 0));
    while i < deps.len()
        invariant
            i <= deps.len(),
            all == dependency_views(deps@),
            up_to_date == count_status(all, DependencyStatus::UpToDate, i as int),
            not_found == count_status(all, DependencyStatus::NotFound, i as int),
            updates@ == update_places(all, i as int),
        decreases deps.len() - i,
    {
        assert(all[i as int] == deps@[i as int]@);
        proof {
            lemma_summary_is_complete(all, i as int);
        }
        match status_of(&deps[i]) {
            DependencyStatus::UpToDate => {
                up_to_date += 1;
            },
            DependencyStatus::UpdateAvailable => {
                updates.push(i);
            },
            DependencyStatus::NotFound => {
                not_found += 1;
            },
        }
        i += 1;
    }
    Summary { up_to_date, updates, not_found }
}

/// What to do once every dependency was looked up: `updates` is how many
/// can be updated, `update` whether updating was asked for.
pub fn after_report(updates: usize, update: bool) -> (next: NextStep)
    ensures
        next == if updates == 0 {
            NextStep::AllUpToDate
        } else if update {
            NextStep::ApplyUpdates
        } else {
            NextStep::SuggestUpdate
        },
{
    if updates == 0 {
        NextStep::AllUpToDate
    } else if update {
        NextStep::ApplyUpdates
    } else {
        NextStep::SuggestUpdate
    }
}

} // verus!
