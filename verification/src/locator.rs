//! Finding a worker that can be run.
//!
//! A worker is either a self-contained binary or a script tree run by an
//! interpreter. Where each may lie is an ordered table of candidates; the
//! caller tests every candidate for existence and hands the outcomes back,
//! and the first success wins. Nothing here touches the file system.

use vstd::prelude::*;
use crate::text::{chars_of, contains, contains_chars, find, find_chars, str_eq, string_of};

verus! {

/// The operating system the host runs on.
#[derive(Clone, Copy, Debug, PartialEq, Eq, Structural)]
pub enum Os {
    MacOs,
    Windows,
    Linux,
    Other,
}

/// The processor architecture the host runs on.
#[derive(Clone, Copy, Debug, PartialEq, Eq, Structural)]
pub enum Arch {
    Aarch64,
    X86_64,
    Other,
}

/// Operating system and architecture together.
#[derive(Clone, Copy, Debug, PartialEq, Eq, Structural)]
pub struct Platform {
    pub os: Os,
    pub arch: Arch,
}

/// The operating system that goes by the name `name`.
pub open spec fn os_named(name: Seq<char>) -> Os {
    if name == "macos"@ {
        Os::MacOs
    } else if name == "windows"@ {
        Os::Windows
    } else if name == "linux"@ {
        Os::Linux
    } else {
        Os::Other
    }
}

/// The architecture that goes by the name `name`.
pub open spec fn arch_named(name: Seq<char>) -> Arch {
    if name == "aarch64"@ {
        Arch::Aarch64
    } else if name == "x86_64"@ {
        Arch::X86_64
    } else {
        Arch::Other
    }
}

/// The platform with the names that `std::env::consts::OS` and
/// `std::env::consts::ARCH` use.
pub fn platform_of(os: &str, arch: &str) -> (p: Platform)
    ensures
        p.os == os_named(os@),
        p.arch == arch_named(arch@),
{
    let o = if str_eq(os, "macos") {
        Os::MacOs
    } else if str_eq(os, "windows") {
        Os::Windows
    } else if str_eq(os, "linux") {
        Os::Linux
    } else {
        Os::Other
    };
    let a = if str_eq(arch, "aarch64") {
        Arch::Aarch64
    } else if str_eq(arch, "x86_64") {
        Arch::X86_64
    } else {
        Arch::Other
    };
    Platform { os: o, arch: a }
}

/// The file name of the self-contained worker built for `p`.
pub open spec fn sidecar_name(p: Platform) -> Seq<char> {
    match (p.os, p.arch) {
        (Os::MacOs, Arch::Aarch64) => "inboxhunter-automation-aarch64-apple-darwin"@,
        (Os::MacOs, Arch::X86_64) => "inboxhunter-automation-x86_64-apple-darwin"@,
        (Os::Windows, Arch::X86_64) => "inboxhunter-automation-x86_64-pc-windows-msvc.exe"@,
        (Os::Linux, Arch::X86_64) => "inboxhunter-automation-x86_64-unknown-linux-gnu"@,
        _ => "inboxhunter-automation"@,
    }
}

/// The file name of the self-contained worker built for `platform`: the
/// worker's name with the target triple, or the bare name on a platform
/// for which no worker is built.
pub fn get_sidecar_name(platform: Platform) -> (name: String)
    ensures
        name@ == sidecar_name(platform),
{
    let s: &'static str = match (platform.os, platform.arch) {
        (Os::MacOs, Arch::Aarch64) => "inboxhunter-automation-aarch64-apple-darwin",
        (Os::MacOs, Arch::X86_64) => "inboxhunter-automation-x86_64-apple-darwin",
        (Os::Windows, Arch::X86_64) => "inboxhunter-automation-x86_64-pc-windows-msvc.exe",
        (Os::Linux, Arch::X86_64) => "inboxhunter-automation-x86_64-unknown-linux-gnu",
        _ => "inboxhunter-automation",
    };
    s.to_owned()
}

/// The file name under which a bundle ships the worker without a target
/// triple, where the platform has such a name.
pub open spec fn bundled_name(os: Os) -> Seq<char> {
    match os {
        Os::Windows => "inboxhunter-automation.exe"@,
        _ => "inboxhunter-automation"@,
    }
}

/// A directory that the caller knows how to find, from which candidates
/// are counted.
#[derive(Clone, Copy, Debug, PartialEq, Eq, Structural)]
pub enum Anchor {
    /// The directory that holds the host executable.
    ExeDir,
    /// The parent of that directory: the bundle's contents.
    BundleContents,
    /// The resource directory that the host's packaging system names.
    ResourceDir,
    /// The fourth directory above the host executable: the project, when
    /// the host was built in place.
    ProjectRoot,
    /// The script tree that was found.
    ScriptTree,
    /// The script tree beside the build tree that the host runs from.
    SourceTree,
}

/// A place to look: an anchor and the path components below it.
#[derive(Debug)]
pub struct Candidate {
    pub anchor: Anchor,
    pub segments: Vec<String>,
}

/// What a `Candidate` stands for.
pub struct CandidateView {
    pub anchor: Anchor,
    pub segments: Seq<Seq<char>>,
}

impl View for Candidate {
    type V = CandidateView;

    open spec fn view(&self) -> CandidateView {
        CandidateView { anchor: self.anchor, segments: self.segments@.map_values(|s: String| s@) }
    }
}

/// The candidate `leaf` below the directories `dirs` of `anchor`.
pub open spec fn cand(anchor: Anchor, dirs: Seq<&str>, leaf: Seq<char>) -> CandidateView {
    CandidateView { anchor, segments: dirs.map_values(|d: &str| d@).push(leaf) }
}

/// The views of a list of candidates.
pub open spec fn candidate_views(v: Seq<Candidate>) -> Seq<CandidateView> {
    v.map_values(|c: Candidate| c@)
}

/// No directories.
fn dirs0() -> (v: Vec<&'static str>)
    ensures
        v@ == Seq::<&str>::empty(),
{
    Vec::new()
}

/// One directory.
fn dirs1(a: &'static str) -> (v: Vec<&'static str>)
    ensures
        v@ == seq![a],
{
    let mut v: Vec<&'static str> = Vec::new();
    v.push(a);
    assert(v@ =~= seq![a]);
    v
}

/// Two directories, the outer first.
fn dirs2(a: &'static str, b: &'static str) -> (v: Vec<&'static str>)
    ensures
        v@ == seq![a, b],
{
    let mut v: Vec<&'static str> = Vec::new();
    v.push(a);
    v.push(b);
    assert(v@ =~= seq![a, b]);
    v
}

/// Three directories, the outermost first.
fn dirs3(a: &'static str, b: &'static str, c: &'static str) -> (v: Vec<&'static str>)
    ensures
        v@ == seq![a, b, c],
{
    let mut v: Vec<&'static str> = Vec::new();
    v.push(a);
    v.push(b);
    v.push(c);
    assert(v@ =~= seq![a, b, c]);
    v
}

/// The candidate `leaf` below the directories `dirs` of `anchor`.
fn candidate(anchor: Anchor, dirs: Vec<&str>, leaf: &str) -> (c: Candidate)
    ensures
        c@ == cand(anchor, dirs@, leaf@),
{
    let mut segs: Vec<String> = Vec::new();
    let mut i: usize = 0;
    while i < dirs.len()
        invariant
            i <= dirs.len(),
            segs.len() == i,
            forall|k: int| 0 <= k < i ==> (#[trigger] segs@[k])@ == dirs@[k]@,
        decreases dirs.len() - i,
    {
        segs.push(dirs[i].to_owned());
        i += 1;
    }
    segs.push(leaf.to_owned());
    let c = Candidate { anchor, segments: segs };
    assert(c@.segments =~= cand(anchor, dirs@, leaf@).segments);
    c
}

/// Where a bundle on `os` may hold the self-contained worker named `name`.
pub open spec fn sidecar_bundle_table(os: Os, name: Seq<char>) -> Seq<CandidateView> {
    match os {
        Os::MacOs => seq![
            cand(Anchor::BundleContents, seq!["Resources", "_up_", "automation"], name),
            cand(Anchor::BundleContents, seq!["Resources"], name),
            cand(Anchor::ExeDir, seq![], name),
        ],
        Os::Windows => seq![
            cand(Anchor::ExeDir, seq!["automation"], name),
            cand(Anchor::ExeDir, seq!["_up_", "automation"], name),
            cand(Anchor::ExeDir, seq!["resources", "automation"], name),
            cand(Anchor::ExeDir, seq!["resources", "_up_", "automation"], name),
            cand(Anchor::ExeDir, seq![], name),
            cand(Anchor::ExeDir, seq![], bundled_name(os)),
        ],
        Os::Linux => seq![
            cand(Anchor::ExeDir, seq!["automation"], name),
            cand(Anchor::ExeDir, seq!["_up_", "automation"], name),
            cand(Anchor::ExeDir, seq![], name),
            cand(Anchor::ExeDir, seq![], bundled_name(os)),
        ],
        Os::Other => seq![],
    }
}

/// Where the self-contained worker named `name` may lie on `os`, in the
/// order in which the places are tried.
pub open spec fn sidecar_table(os: Os, name: Seq<char>) -> Seq<CandidateView> {
    sidecar_bundle_table(os, name) + seq![
        cand(Anchor::ResourceDir, seq!["automation"], name),
        cand(Anchor::ResourceDir, seq![], name),
    ]
}

/// The places where the self-contained worker named `name` may lie on
/// `os`: the bundle's layouts first, then beside the host executable, last
/// the resource directory of the packaging system.
pub fn sidecar_candidates(os: Os, name: &str) -> (v: Vec<Candidate>)
    ensures
        candidate_views(v@) == sidecar_table(os, name@),
{
    let mut v: Vec<Candidate> = Vec::new();
    match os {
        Os::MacOs => {
            v.push(candidate(Anchor::BundleContents, dirs3("Resources", "_up_", "automation"), name));
            v.push(candidate(Anchor::BundleContents, dirs1("Resources"), name));
            v.push(candidate(Anchor::ExeDir, dirs0(), name));
            assert(candidate_views(v@) =~= sidecar_bundle_table(os, name@));
        },
        Os::Windows => {
            v.push(candidate(Anchor::ExeDir, dirs1("automation"), name));
            v.push(candidate(Anchor::ExeDir, dirs2("_up_", "automation"), name));
            v.push(candidate(Anchor::ExeDir, dirs2("resources", "automation"), name));
            v.push(candidate(Anchor::ExeDir, dirs3("resources", "_up_", "automation"), name));
            v.push(candidate(Anchor::ExeDir, dirs0(), name));
            v.push(candidate(Anchor::ExeDir, dirs0(), "inboxhunter-automation.exe"));
            assert(candidate_views(v@) =~= sidecar_bundle_table(os, name@));
        },
        Os::Linux => {
            v.push(candidate(Anchor::ExeDir, dirs1("automation"), name));
            v.push(candidate(Anchor::ExeDir, dirs2("_up_", "automation"), name));
            v.push(candidate(Anchor::ExeDir, dirs0(), name));
            v.push(candidate(Anchor::ExeDir, dirs0(), "inboxhunter-automation"));
            assert(candidate_views(v@) =~= sidecar_bundle_table(os, name@));
        },
        Os::Other => {
            assert(candidate_views(v@) =~= sidecar_bundle_table(os, name@));
        },
    }
    let ghost bundle = v@;
    v.push(candidate(Anchor::ResourceDir, dirs1("automation"), name));
    v.push(candidate(Anchor::ResourceDir, dirs0(), name));
    assert(candidate_views(v@) =~= candidate_views(bundle) + seq![
        cand(Anchor::ResourceDir, seq!["automation"], name@),
        cand(Anchor::ResourceDir, seq![], name@),
    ]);
    v
}

/// Where the script tree may lie on `os`, in the order in which the places
/// are tried. A host that runs from its build tree looks in the project
/// first.
pub open spec fn automation_table(os: Os, dev_mode: bool) -> Seq<CandidateView> {
    automation_project_table(dev_mode) + automation_bundle_table(os) + seq![
        cand(Anchor::ResourceDir, seq![], "automation"@),
    ]
}

/// Where the script tree of the project lies, for a host that runs from its
/// build tree.
pub open spec fn automation_project_table(dev_mode: bool) -> Seq<CandidateView> {
    if dev_mode {
        seq![cand(Anchor::ProjectRoot, seq![], "automation"@)]
    } else {
        seq![]
    }
}

/// Where a bundle on `os` may hold the script tree.
pub open spec fn automation_bundle_table(os: Os) -> Seq<CandidateView> {
    match os {
        Os::MacOs => seq![
            cand(Anchor::BundleContents, seq!["Resources", "_up_"], "automation"@),
            cand(Anchor::BundleContents, seq!["Resources"], "automation"@),
        ],
        Os::Windows => seq![
            cand(Anchor::ExeDir, seq!["_up_"], "automation"@),
            cand(Anchor::ExeDir, seq!["resources"], "automation"@),
            cand(Anchor::ExeDir, seq!["resources", "_up_"], "automation"@),
            cand(Anchor::ExeDir, seq![], "automation"@),
        ],
        Os::Linux => seq![
            cand(Anchor::ExeDir, seq!["_up_"], "automation"@),
            cand(Anchor::ExeDir, seq![], "automation"@),
        ],
        Os::Other => seq![],
    }
}

/// The directories where the script tree may lie on `os`. A candidate
/// counts as found when the entry script lies in it.
pub fn automation_candidates(os: Os, dev_mode: bool) -> (v: Vec<Candidate>)
    ensures
        candidate_views(v@) == automation_table(os, dev_mode),
{
    let mut v: Vec<Candidate> = Vec::new();
    if dev_mode {
        v.push(candidate(Anchor::ProjectRoot, dirs0(), "automation"));
        assert(candidate_views(v@) =~= automation_project_table(dev_mode));
    } else {
        assert(candidate_views(v@) =~= automation_project_table(dev_mode));
    }
    let ghost project = v@;
    match os {
        Os::MacOs => {
            v.push(candidate(Anchor::BundleContents, dirs2("Resources", "_up_"), "automation"));
            v.push(candidate(Anchor::BundleContents, dirs1("Resources"), "automation"));
            assert(candidate_views(v@) =~= candidate_views(project) + automation_bundle_table(os));
        },
        Os::Windows => {
            v.push(candidate(Anchor::ExeDir, dirs1("_up_"), "automation"));
            v.push(candidate(Anchor::ExeDir, dirs1("resources"), "automation"));
            v.push(candidate(Anchor::ExeDir, dirs2("resources", "_up_"), "automation"));
            v.push(candidate(Anchor::ExeDir, dirs0(), "automation"));
            assert(candidate_views(v@) =~= candidate_views(project) + automation_bundle_table(os));
        },
        Os::Linux => {
            v.push(candidate(Anchor::ExeDir, dirs1("_up_"), "automation"));
            v.push(candidate(Anchor::ExeDir, dirs0(), "automation"));
            assert(candidate_views(v@) =~= candidate_views(project) + automation_bundle_table(os));
        },
        Os::Other => {
            assert(candidate_views(v@) =~= candidate_views(project) + automation_bundle_table(os));
        },
    }
    let ghost bundle = v@;
    v.push(candidate(Anchor::ResourceDir, dirs0(), "automation"));
    assert(candidate_views(v@) =~= candidate_views(bundle) + seq![
        cand(Anchor::ResourceDir, seq![], "automation"@),
    ]);
    v
}

/// The name of the entry script inside a script tree.
pub fn script_entry() -> (name: &'static str)
    ensures
        name@ == "main.py"@,
{
    "main.py"
}

/// `i` is the first of the first `n` outcomes that is a success.
pub open spec fn is_first_hit(found: Seq<bool>, n: int, i: int) -> bool {
    &&& 0 <= i < n
    &&& i < found.len()
    &&& found[i]
    &&& forall|j: int| 0 <= j < i ==> !found[j]
}

/// The first of the first `n` outcomes that is a success, if there is one.
/// Outcomes that are missing count as failures.
pub open spec fn first_hit(found: Seq<bool>, n: int) -> Option<int> {
    if exists|i: int| is_first_hit(found, n, i) {
        Some(choose|i: int| is_first_hit(found, n, i))
    } else {
        None
    }
}

/// There is at most one first success.
pub proof fn lemma_first_hit_unique(found: Seq<bool>, n: int, i: int)
    requires
        is_first_hit(found, n, i),
    ensures
        first_hit(found, n) == Some(i),
{
    let k = choose|k: int| is_first_hit(found, n, k);
    if k < i {
        assert(!found[k]);
    } else if i < k {
        assert(!found[i]);
    }
}

/// First success wins: the index of the first `true` among the first `n`
/// outcomes.
pub fn first_found(found: &Vec<bool>, n: usize) -> (r: Option<usize>)
    ensures
        match r {
            Some(i) => first_hit(found@, n as int) == Some(i as int) && is_first_hit(
                found@,
                n as int,
                i as int,
            ),
            None => first_hit(found@, n as int) is None,
        },
{
    let mut i: usize = 0;
    while i < n && i < found.len()
        invariant
            forall|j: int| 0 <= j < i ==> !found@[j],
            i <= n,
            i <= found.len(),
        decreases n - i,
    {
        if found[i] {
            proof {
                lemma_first_hit_unique(found@, n as int, i as int);
            }
            return Some(i);
        }
        i += 1;
    }
    assert forall|k: int| !is_first_hit(found@, n as int, k) by {
        if is_first_hit(found@, n as int, k) {
            assert(!found@[k]);
        }
    }
    None
}

/// The candidate of `table` that is found first, given the outcome of the
/// existence test of each.
pub open spec fn first_candidate(table: Seq<CandidateView>, found: Seq<bool>) -> Option<
    CandidateView,
> {
    match first_hit(found, table.len() as int) {
        Some(i) => Some(table[i]),
        None => None,
    }
}

/// The view of an optional candidate.
pub open spec fn option_view(c: Option<Candidate>) -> Option<CandidateView> {
    match c {
        Some(c) => Some(c@),
        None => None,
    }
}

/// The candidate of `table` that was found first.
fn pick(table: Vec<Candidate>, found: &Vec<bool>) -> (r: Option<Candidate>)
    ensures
        option_view(r) == first_candidate(candidate_views(table@), found@),
{
    let mut table = table;
    match first_found(found, table.len()) {
        Some(i) => Some(table.remove(i)),
        None => None,
    }
}

/// The self-contained worker for `platform`: the first place of
/// `sidecar_candidates` whose existence test succeeded. `found[i]` is the
/// outcome for the `i`-th candidate, and a missing outcome counts as a
/// failure.
pub fn find_sidecar_binary(platform: Platform, found: &Vec<bool>) -> (r: Option<Candidate>)
    ensures
        option_view(r) == first_candidate(
            sidecar_table(platform.os, sidecar_name(platform)),
            found@,
        ),
{
    let name = get_sidecar_name(platform);
    let table = sidecar_candidates(platform.os, name.as_str());
    pick(table, found)
}

/// Whether the host runs from its build tree: the directory that holds the
/// host executable is named `debug` or `release`.
pub open spec fn dev_mode(exe_parent_name: Option<Seq<char>>) -> bool {
    match exe_parent_name {
        Some(n) => n == "debug"@ || n == "release"@,
        None => false,
    }
}

/// Whether the host runs from its build tree, given the name of the
/// directory that holds the host executable.
pub fn is_dev_mode(exe_parent_name: Option<&str>) -> (r: bool)
    ensures
        r == dev_mode(
            match exe_parent_name {
                Some(n) => Some(n@),
                None => None,
            },
        ),
{
    match exe_parent_name {
        Some(n) => str_eq(n, "debug") || str_eq(n, "release"),
        None => false,
    }
}

/// The script tree: the first place of `automation_candidates` in which the
/// entry script was found.
pub fn get_automation_path(os: Os, dev_mode: bool, found: &Vec<bool>) -> (r: Option<Candidate>)
    ensures
        option_view(r) == first_candidate(automation_table(os, dev_mode), found@),
{
    let table = automation_candidates(os, dev_mode);
    pick(table, found)
}

/// Whether the path of the host executable runs through a build tree.
pub open spec fn is_build_path(path: Seq<char>) -> bool {
    ||| contains(path, "target/release/bundle"@)
    ||| contains(path, "target\\release\\bundle"@)
    ||| contains(path, "target/debug"@)
    ||| contains(path, "target\\debug"@)
}

/// Where the build directory starts in `path`: at the first `/target/`,
/// or else at the first `\target\`.
pub open spec fn target_position(path: Seq<char>) -> Option<int> {
    match find(path, "/target/"@) {
        Some(i) => Some(i),
        None => find(path, "\\target\\"@),
    }
}

/// The directory that holds the build directory of the host, when the host
/// runs from a build tree.
pub open spec fn build_root(path: Seq<char>) -> Option<Seq<char>> {
    if is_build_path(path) {
        match target_position(path) {
            Some(i) => Some(path.take(i)),
            None => None,
        }
    } else {
        None
    }
}

/// The directory that holds the build directory of the host: the part of
/// `exe_path` before the first `/target/` (or else `\target\`), where the
/// path shows that the host runs from a build. The script tree of the
/// project lies beside that directory.
pub fn build_tree_root(exe_path: &str) -> (r: Option<String>)
    ensures
        match r {
            Some(s) => build_root(exe_path@) == Some(s@),
            None => build_root(exe_path@) is None,
        },
{
    let mut p = chars_of(exe_path);
    let in_build = contains_chars(&p, &chars_of("target/release/bundle")) || contains_chars(
        &p,
        &chars_of("target\\release\\bundle"),
    ) || contains_chars(&p, &chars_of("target/debug")) || contains_chars(
        &p,
        &chars_of("target\\debug"),
    );
    if !in_build {
        return None;
    }
    let at = match find_chars(&p, &chars_of("/target/")) {
        Some(i) => Some(i),
        None => find_chars(&p, &chars_of("\\target\\")),
    };
    match at {
        Some(i) => {
            proof {
                crate::text::lemma_find(exe_path@, "/target/"@);
                crate::text::lemma_find(exe_path@, "\\target\\"@);
            }
            p.truncate(i);
            assert(p@ =~= exe_path@.take(i as int));
            Some(string_of(&p))
        },
        None => None,
    }
}

/// One test that the caller makes while looking for an interpreter.
#[derive(Debug)]
pub enum Probe {
    /// Does this file exist?
    Exists(Candidate),
    /// Does this command run, and can it load the libraries the worker
    /// needs?
    HasLibraries(String),
    /// Does this command run at all?
    Runs(String),
}

/// What a `Probe` stands for.
pub enum ProbeView {
    Exists(CandidateView),
    HasLibraries(Seq<char>),
    Runs(Seq<char>),
}

impl View for Probe {
    type V = ProbeView;

    open spec fn view(&self) -> ProbeView {
        match self {
            Probe::Exists(c) => ProbeView::Exists(c@),
            Probe::HasLibraries(c) => ProbeView::HasLibraries(c@),
            Probe::Runs(c) => ProbeView::Runs(c@),
        }
    }
}

/// The views of a list of probes.
pub open spec fn probe_views(v: Seq<Probe>) -> Seq<ProbeView> {
    v.map_values(|p: Probe| p@)
}

/// The interpreters of a virtual environment that lies in `anchor`.
pub open spec fn venv_table(anchor: Anchor) -> Seq<ProbeView> {
    seq![
        ProbeView::Exists(cand(anchor, seq!["venv", "bin"], "python"@)),
        ProbeView::Exists(cand(anchor, seq![".venv", "bin"], "python"@)),
        ProbeView::Exists(cand(anchor, seq!["venv", "Scripts"], "python.exe"@)),
        ProbeView::Exists(cand(anchor, seq![".venv", "Scripts"], "python.exe"@)),
    ]
}

/// The tests for an interpreter, in the order in which they count: a
/// virtual environment in the script tree; one in the script tree beside
/// the build tree, where the host runs from a build; a system interpreter
/// that can load the worker's libraries; last a system interpreter as it
/// is.
pub open spec fn interpreter_table(exe_path: Seq<char>) -> Seq<ProbeView> {
    let source = if build_root(exe_path) is Some {
        venv_table(Anchor::SourceTree)
    } else {
        seq![]
    };
    venv_table(Anchor::ScriptTree) + source + seq![
        ProbeView::HasLibraries("python3"@),
        ProbeView::HasLibraries("python"@),
        ProbeView::Runs("python3"@),
        ProbeView::Runs("python"@),
    ]
}

/// Appends the probes for the interpreters of a virtual environment in
/// `anchor`.
fn push_venv(v: &mut Vec<Probe>, anchor: Anchor)
    ensures
        probe_views(final(v)@) == probe_views(old(v)@) + venv_table(anchor),
{
    v.push(Probe::Exists(candidate(anchor, dirs2("venv", "bin"), "python")));
    v.push(Probe::Exists(candidate(anchor, dirs2(".venv", "bin"), "python")));
    v.push(Probe::Exists(candidate(anchor, dirs2("venv", "Scripts"), "python.exe")));
    v.push(Probe::Exists(candidate(anchor, dirs2(".venv", "Scripts"), "python.exe")));
    assert(probe_views(v@) =~= probe_views(old(v)@) + venv_table(anchor));
}

/// The tests to make while looking for an interpreter, given the path of
/// the host executable.
pub fn interpreter_probes(exe_path: &str) -> (v: Vec<Probe>)
    ensures
        probe_views(v@) == interpreter_table(exe_path@),
{
    let mut v: Vec<Probe> = Vec::new();
    push_venv(&mut v, Anchor::ScriptTree);
    if build_tree_root(exe_path).is_some() {
        push_venv(&mut v, Anchor::SourceTree);
    }
    let ghost before = probe_views(v@);
    v.push(Probe::HasLibraries("python3".to_owned()));
    v.push(Probe::HasLibraries("python".to_owned()));
    v.push(Probe::Runs("python3".to_owned()));
    v.push(Probe::Runs("python".to_owned()));
    assert(probe_views(v@) =~= before + seq![
        ProbeView::HasLibraries("python3"@),
        ProbeView::HasLibraries("python"@),
        ProbeView::Runs("python3"@),
        ProbeView::Runs("python"@),
    ]);
    assert(probe_views(v@) =~= interpreter_table(exe_path@));
    v
}

/// The arguments with which a command is asked whether it runs.
pub fn version_args() -> (args: Vec<String>)
    ensures
        args@.map_values(|s: String| s@) == seq!["--version"@],
{
    let mut args: Vec<String> = Vec::new();
    args.push("--version".to_owned());
    assert(args@.map_values(|s: String| s@) =~= seq!["--version"@]);
    args
}

/// The arguments with which a command is asked whether it can load the
/// libraries the worker needs.
pub fn library_check_args() -> (args: Vec<String>)
    ensures
        args@.map_values(|s: String| s@) == seq!["-c"@, "import loguru, playwright, openai"@],
{
    let mut args: Vec<String> = Vec::new();
    args.push("-c".to_owned());
    args.push("import loguru, playwright, openai".to_owned());
    assert(args@.map_values(|s: String| s@) =~= seq![
        "-c"@,
        "import loguru, playwright, openai"@,
    ]);
    args
}

/// An interpreter: a file to run, or a command to look up.
#[derive(Debug)]
pub enum Interpreter {
    File(Candidate),
    Command(String),
}

/// What an `Interpreter` stands for.
pub enum InterpreterView {
    File(CandidateView),
    Command(Seq<char>),
}

impl View for Interpreter {
    type V = InterpreterView;

    open spec fn view(&self) -> InterpreterView {
        match self {
            Interpreter::File(c) => InterpreterView::File(c@),
            Interpreter::Command(c) => InterpreterView::Command(c@),
        }
    }
}

/// The interpreter that a successful probe names.
pub open spec fn interpreter_of(p: ProbeView) -> InterpreterView {
    match p {
        ProbeView::Exists(c) => InterpreterView::File(c),
        ProbeView::HasLibraries(c) => InterpreterView::Command(c),
        ProbeView::Runs(c) => InterpreterView::Command(c),
    }
}

/// The interpreter that is chosen, given the outcome of each probe.
pub open spec fn chosen_interpreter(exe_path: Seq<char>, outcomes: Seq<bool>) -> Option<
    InterpreterView,
> {
    let table = interpreter_table(exe_path);
    match first_hit(outcomes, table.len() as int) {
        Some(i) => Some(interpreter_of(table[i])),
        None => None,
    }
}

/// The interpreter for the script tree: the one that the first successful
/// probe of `interpreter_probes` names. `outcomes[i]` is the outcome of the
/// `i`-th probe, and a missing outcome counts as a failure. Where only the
/// last kind of probe succeeds, the interpreter may lack the worker's
/// libraries, and the worker itself reports that when it starts.
pub fn find_dev_python(exe_path: &str, outcomes: &Vec<bool>) -> (r: Option<Interpreter>)
    ensures
        match r {
            Some(i) => chosen_interpreter(exe_path@, outcomes@) == Some(i@),
            None => chosen_interpreter(exe_path@, outcomes@) is None,
        },
{
    let mut probes = interpreter_probes(exe_path);
    match first_found(outcomes, probes.len()) {
        Some(i) => {
            let p = probes.remove(i);
            Some(
                match p {
                    Probe::Exists(c) => Interpreter::File(c),
                    Probe::HasLibraries(c) => Interpreter::Command(c),
                    Probe::Runs(c) => Interpreter::Command(c),
                },
            )
        },
        None => None,
    }
}

/// How the worker is run.
#[derive(Clone, Copy, Debug, PartialEq, Eq, Structural)]
pub enum LaunchMode {
    /// An interpreter runs the script tree.
    Script,
    /// The self-contained binary runs.
    Sidecar,
}

/// Why no worker can be run.
#[derive(Clone, Copy, Debug, PartialEq, Eq, Structural)]
pub enum ResolutionError {
    /// Neither a script tree nor a self-contained binary was found.
    NoWorker,
    /// A script tree was found but no interpreter to run it.
    NoInterpreter,
}

/// What the user is told to do about a `ResolutionError`.
pub open spec fn remediation(e: ResolutionError) -> Seq<char> {
    match e {
        ResolutionError::NoWorker =>
            "Could not find automation scripts or sidecar binary.\n\nFor local/development builds:\n- Python 3.9+ must be installed\n- Set up venv: cd automation && python3 -m venv venv && source venv/bin/activate && pip install -r requirements.txt && playwright install chromium\n\nFor production builds from CI:\n- The sidecar binary should be automatically bundled (no Python needed)"@,
        ResolutionError::NoInterpreter =>
            "Python not found. Please install Python 3.9+ and set up the virtual environment:\ncd automation && python3 -m venv venv && source venv/bin/activate && pip install -r requirements.txt && playwright install chromium"@,
    }
}

impl ResolutionError {
    /// The message for the user: what is missing, and the steps that set it
    /// up.
    pub fn message(&self) -> (m: String)
        ensures
            m@ == remediation(*self),
    {
        let s: &'static str = match self {
            ResolutionError::NoWorker =>
                "Could not find automation scripts or sidecar binary.\n\nFor local/development builds:\n- Python 3.9+ must be installed\n- Set up venv: cd automation && python3 -m venv venv && source venv/bin/activate && pip install -r requirements.txt && playwright install chromium\n\nFor production builds from CI:\n- The sidecar binary should be automatically bundled (no Python needed)",
            ResolutionError::NoInterpreter =>
                "Python not found. Please install Python 3.9+ and set up the virtual environment:\ncd automation && python3 -m venv venv && source venv/bin/activate && pip install -r requirements.txt && playwright install chromium",
        };
        s.to_owned()
    }
}

/// Which worker is preferred. A host that runs from its build tree takes
/// the script tree if there is one; an installed host takes the
/// self-contained binary if there is one; otherwise whichever exists.
pub open spec fn preferred_mode(dev_mode: bool, has_script: bool, has_sidecar: bool) -> Result<
    LaunchMode,
    ResolutionError,
> {
    if has_script && has_sidecar {
        if dev_mode {
            Ok(LaunchMode::Script)
        } else {
            Ok(LaunchMode::Sidecar)
        }
    } else if has_script {
        Ok(LaunchMode::Script)
    } else if has_sidecar {
        Ok(LaunchMode::Sidecar)
    } else {
        Err(ResolutionError::NoWorker)
    }
}

/// Chooses between the script tree and the self-contained binary.
pub fn select_mode(dev_mode: bool, has_script: bool, has_sidecar: bool) -> (r: Result<
    LaunchMode,
    ResolutionError,
>)
    ensures
        r == preferred_mode(dev_mode, has_script, has_sidecar),
{
    let script_first = dev_mode && has_script;
    let sidecar_first = !dev_mode && has_sidecar;
    if script_first || (has_script && !has_sidecar) {
        Ok(LaunchMode::Script)
    } else if sidecar_first || (has_sidecar && !has_script) {
        Ok(LaunchMode::Sidecar)
    } else {
        Err(ResolutionError::NoWorker)
    }
}

/// What to run: the executable, the arguments that come before the
/// worker's own, and the directory to run it in.
#[derive(Debug)]
pub struct LaunchSpec {
    pub executable: String,
    pub arg_prefix: Vec<String>,
    pub working_dir: Option<String>,
}

/// What a `LaunchSpec` stands for.
pub struct LaunchSpecView {
    pub executable: Seq<char>,
    pub arg_prefix: Seq<Seq<char>>,
    pub working_dir: Option<Seq<char>>,
}

impl View for LaunchSpec {
    type V = LaunchSpecView;

    open spec fn view(&self) -> LaunchSpecView {
        LaunchSpecView {
            executable: self.executable@,
            arg_prefix: self.arg_prefix@.map_values(|s: String| s@),
            working_dir: match self.working_dir {
                Some(d) => Some(d@),
                None => None,
            },
        }
    }
}

/// The launch of the self-contained binary at `path`: no arguments before
/// the worker's own, and the directory of the host.
pub fn sidecar_launch(path: String) -> (spec: LaunchSpec)
    ensures
        spec@ == (LaunchSpecView {
            executable: path@,
            arg_prefix: Seq::empty(),
            working_dir: None,
        }),
{
    let spec = LaunchSpec { executable: path, arg_prefix: Vec::new(), working_dir: None };
    assert(spec@.arg_prefix =~= Seq::empty());
    spec
}

/// The launch of the script tree `tree` with its entry script `entry`: the
/// interpreter runs the entry script inside the tree. Without an
/// interpreter there is nothing to run.
pub fn script_launch(interpreter: Option<String>, tree: String, entry: String) -> (r: Result<
    LaunchSpec,
    ResolutionError,
>)
    ensures
        match r {
            Ok(spec) => interpreter matches Some(i) && spec@ == (LaunchSpecView {
                executable: i@,
                arg_prefix: seq![entry@],
                working_dir: Some(tree@),
            }),
            Err(e) => interpreter is None && e == ResolutionError::NoInterpreter,
        },
{
    match interpreter {
        Some(i) => {
            let mut prefix: Vec<String> = Vec::new();
            prefix.push(entry);
            let spec = LaunchSpec { executable: i, arg_prefix: prefix, working_dir: Some(tree) };
            assert(spec@.arg_prefix =~= seq![entry@]);
            Ok(spec)
        },
        None => Err(ResolutionError::NoInterpreter),
    }
}

} // verus!
