use inboxhunter::locator::{
    automation_candidates, build_tree_root, find_dev_python, find_sidecar_binary, first_found,
    get_automation_path, get_sidecar_name, interpreter_probes, is_dev_mode, library_check_args,
    platform_of, script_entry, script_launch, select_mode, sidecar_candidates, sidecar_launch,
    version_args, Anchor, Arch, Candidate, Interpreter, LaunchMode, Os, Platform, Probe,
    ResolutionError,
};

fn place(c: &Candidate) -> (Anchor, Vec<&str>) {
    (c.anchor, c.segments.iter().map(|s| s.as_str()).collect())
}

#[test]
fn platform_from_the_names_of_std() {
    assert_eq!(platform_of("macos", "aarch64"), Platform { os: Os::MacOs, arch: Arch::Aarch64 });
    assert_eq!(platform_of("windows", "x86_64"), Platform { os: Os::Windows, arch: Arch::X86_64 });
    assert_eq!(platform_of("linux", "x86_64"), Platform { os: Os::Linux, arch: Arch::X86_64 });
    assert_eq!(platform_of("freebsd", "riscv64"), Platform { os: Os::Other, arch: Arch::Other });
    assert_eq!(platform_of("Linux", "X86_64"), Platform { os: Os::Other, arch: Arch::Other });
}

#[test]
fn sidecar_name_for_each_platform() {
    assert_eq!(
        get_sidecar_name(Platform { os: Os::MacOs, arch: Arch::Aarch64 }),
        "inboxhunter-automation-aarch64-apple-darwin"
    );
    assert_eq!(
        get_sidecar_name(Platform { os: Os::MacOs, arch: Arch::X86_64 }),
        "inboxhunter-automation-x86_64-apple-darwin"
    );
    assert_eq!(
        get_sidecar_name(Platform { os: Os::Windows, arch: Arch::X86_64 }),
        "inboxhunter-automation-x86_64-pc-windows-msvc.exe"
    );
    assert_eq!(
        get_sidecar_name(Platform { os: Os::Linux, arch: Arch::X86_64 }),
        "inboxhunter-automation-x86_64-unknown-linux-gnu"
    );
    assert_eq!(
        get_sidecar_name(Platform { os: Os::Linux, arch: Arch::Aarch64 }),
        "inboxhunter-automation"
    );
    assert_eq!(
        get_sidecar_name(Platform { os: Os::Windows, arch: Arch::Aarch64 }),
        "inboxhunter-automation"
    );
    assert_eq!(
        get_sidecar_name(Platform { os: Os::Other, arch: Arch::X86_64 }),
        "inboxhunter-automation"
    );
}

#[test]
fn sidecar_places_on_macos() {
    let v = sidecar_candidates(Os::MacOs, "w");
    let places: Vec<_> = v.iter().map(place).collect();
    assert_eq!(
        places,
        vec![
            (Anchor::BundleContents, vec!["Resources", "_up_", "automation", "w"]),
            (Anchor::BundleContents, vec!["Resources", "w"]),
            (Anchor::ExeDir, vec!["w"]),
            (Anchor::ResourceDir, vec!["automation", "w"]),
            (Anchor::ResourceDir, vec!["w"]),
        ]
    );
}

#[test]
fn sidecar_places_on_windows() {
    let v = sidecar_candidates(Os::Windows, "w.exe");
    let places: Vec<_> = v.iter().map(place).collect();
    assert_eq!(
        places,
        vec![
            (Anchor::ExeDir, vec!["automation", "w.exe"]),
            (Anchor::ExeDir, vec!["_up_", "automation", "w.exe"]),
            (Anchor::ExeDir, vec!["resources", "automation", "w.exe"]),
            (Anchor::ExeDir, vec!["resources", "_up_", "automation", "w.exe"]),
            (Anchor::ExeDir, vec!["w.exe"]),
            (Anchor::ExeDir, vec!["inboxhunter-automation.exe"]),
            (Anchor::ResourceDir, vec!["automation", "w.exe"]),
            (Anchor::ResourceDir, vec!["w.exe"]),
        ]
    );
}

#[test]
fn sidecar_places_on_linux_and_elsewhere() {
    let v = sidecar_candidates(Os::Linux, "w");
    let places: Vec<_> = v.iter().map(place).collect();
    assert_eq!(
        places,
        vec![
            (Anchor::ExeDir, vec!["automation", "w"]),
            (Anchor::ExeDir, vec!["_up_", "automation", "w"]),
            (Anchor::ExeDir, vec!["w"]),
            (Anchor::ExeDir, vec!["inboxhunter-automation"]),
            (Anchor::ResourceDir, vec!["automation", "w"]),
            (Anchor::ResourceDir, vec!["w"]),
        ]
    );
    let v = sidecar_candidates(Os::Other, "w");
    let places: Vec<_> = v.iter().map(place).collect();
    assert_eq!(
        places,
        vec![(Anchor::ResourceDir, vec!["automation", "w"]), (Anchor::ResourceDir, vec!["w"])]
    );
}

#[test]
fn automation_places() {
    let v = automation_candidates(Os::MacOs, true);
    let places: Vec<_> = v.iter().map(place).collect();
    assert_eq!(
        places,
        vec![
            (Anchor::ProjectRoot, vec!["automation"]),
            (Anchor::BundleContents, vec!["Resources", "_up_", "automation"]),
            (Anchor::BundleContents, vec!["Resources", "automation"]),
            (Anchor::ResourceDir, vec!["automation"]),
        ]
    );
    let v = automation_candidates(Os::Windows, false);
    let places: Vec<_> = v.iter().map(place).collect();
    assert_eq!(
        places,
        vec![
            (Anchor::ExeDir, vec!["_up_", "automation"]),
            (Anchor::ExeDir, vec!["resources", "automation"]),
            (Anchor::ExeDir, vec!["resources", "_up_", "automation"]),
            (Anchor::ExeDir, vec!["automation"]),
            (Anchor::ResourceDir, vec!["automation"]),
        ]
    );
    let v = automation_candidates(Os::Linux, false);
    let places: Vec<_> = v.iter().map(place).collect();
    assert_eq!(
        places,
        vec![
            (Anchor::ExeDir, vec!["_up_", "automation"]),
            (Anchor::ExeDir, vec!["automation"]),
            (Anchor::ResourceDir, vec!["automation"]),
        ]
    );
    let v = automation_candidates(Os::Other, true);
    let places: Vec<_> = v.iter().map(place).collect();
    assert_eq!(
        places,
        vec![(Anchor::ProjectRoot, vec!["automation"]), (Anchor::ResourceDir, vec!["automation"])]
    );
    assert_eq!(script_entry(), "main.py");
}

#[test]
fn first_success_wins() {
    assert_eq!(first_found(&vec![], 3), None);
    assert_eq!(first_found(&vec![false, false], 2), None);
    assert_eq!(first_found(&vec![false, true, true], 3), Some(1));
    assert_eq!(first_found(&vec![true, true], 2), Some(0));
    // outcomes beyond the table do not count, and missing ones are failures
    assert_eq!(first_found(&vec![false, false, true], 2), None);
    assert_eq!(first_found(&vec![false], 5), None);
    assert_eq!(first_found(&vec![true], 0), None);
}

#[test]
fn sidecar_is_the_first_place_that_exists() {
    let linux = Platform { os: Os::Linux, arch: Arch::X86_64 };
    let name = "inboxhunter-automation-x86_64-unknown-linux-gnu";
    assert!(find_sidecar_binary(linux, &vec![false; 6]).is_none());
    assert!(find_sidecar_binary(linux, &vec![]).is_none());
    let hit = find_sidecar_binary(linux, &vec![false, true, true, false, false, true]).unwrap();
    assert_eq!(place(&hit), (Anchor::ExeDir, vec!["_up_", "automation", name]));
    let hit = find_sidecar_binary(linux, &vec![false, false, false, true, false, false]).unwrap();
    assert_eq!(place(&hit), (Anchor::ExeDir, vec!["inboxhunter-automation"]));
    let hit = find_sidecar_binary(linux, &vec![false, false, false, false, false, true]).unwrap();
    assert_eq!(place(&hit), (Anchor::ResourceDir, vec![name]));
}

#[test]
fn automation_path_is_the_first_place_with_the_script() {
    assert!(get_automation_path(Os::MacOs, true, &vec![false; 4]).is_none());
    let hit = get_automation_path(Os::MacOs, true, &vec![true, true, false, false]).unwrap();
    assert_eq!(place(&hit), (Anchor::ProjectRoot, vec!["automation"]));
    let hit = get_automation_path(Os::MacOs, false, &vec![false, true, true]).unwrap();
    assert_eq!(place(&hit), (Anchor::BundleContents, vec!["Resources", "automation"]));
}

#[test]
fn dev_mode_by_the_directory_of_the_executable() {
    assert!(is_dev_mode(Some("debug")));
    assert!(is_dev_mode(Some("release")));
    assert!(!is_dev_mode(Some("Release")));
    assert!(!is_dev_mode(Some("MacOS")));
    assert!(!is_dev_mode(Some("")));
    assert!(!is_dev_mode(None));
}

#[test]
fn build_tree_root_of_a_build() {
    assert_eq!(
        build_tree_root("/home/me/proj/src-tauri/target/debug/app"),
        Some("/home/me/proj/src-tauri".to_string())
    );
    assert_eq!(
        build_tree_root(
            "/p/src-tauri/target/release/bundle/macos/App.app/Contents/MacOS/app"
        ),
        Some("/p/src-tauri".to_string())
    );
    assert_eq!(
        build_tree_root("C:\\p\\src-tauri\\target\\debug\\app.exe"),
        Some("C:\\p\\src-tauri".to_string())
    );
    assert_eq!(
        build_tree_root("C:\\p\\src-tauri\\target\\release\\bundle\\nsis\\app.exe"),
        Some("C:\\p\\src-tauri".to_string())
    );
}

#[test]
fn build_tree_root_of_an_installed_host() {
    assert_eq!(build_tree_root("/Applications/App.app/Contents/MacOS/app"), None);
    assert_eq!(build_tree_root("/p/target/release/app"), None);
    assert_eq!(build_tree_root(""), None);
    // a build path whose build directory has no directory before it in the path
    assert_eq!(build_tree_root("target/debug/app"), None);
}

#[test]
fn build_tree_root_takes_the_first_target() {
    assert_eq!(
        build_tree_root("/a/target/x/target/debug/app"),
        Some("/a".to_string())
    );
    // the forward slash form is looked for first
    assert_eq!(
        build_tree_root("C:\\a\\target\\debug/b/target/c"),
        Some("C:\\a\\target\\debug/b".to_string())
    );
}

fn probe_place(p: &Probe) -> String {
    match p {
        Probe::Exists(c) => format!("{:?}:{}", c.anchor, c.segments.join("/")),
        Probe::HasLibraries(c) => format!("libs:{}", c),
        Probe::Runs(c) => format!("runs:{}", c),
    }
}

#[test]
fn interpreter_probes_of_an_installed_host() {
    let probes = interpreter_probes("/opt/app/bin/app");
    let places: Vec<_> = probes.iter().map(probe_place).collect();
    assert_eq!(
        places,
        vec![
            "ScriptTree:venv/bin/python",
            "ScriptTree:.venv/bin/python",
            "ScriptTree:venv/Scripts/python.exe",
            "ScriptTree:.venv/Scripts/python.exe",
            "libs:python3",
            "libs:python",
            "runs:python3",
            "runs:python",
        ]
    );
}

#[test]
fn interpreter_probes_of_a_build() {
    let probes = interpreter_probes("/p/src-tauri/target/debug/app");
    let places: Vec<_> = probes.iter().map(probe_place).collect();
    assert_eq!(
        places,
        vec![
            "ScriptTree:venv/bin/python",
            "ScriptTree:.venv/bin/python",
            "ScriptTree:venv/Scripts/python.exe",
            "ScriptTree:.venv/Scripts/python.exe",
            "SourceTree:venv/bin/python",
            "SourceTree:.venv/bin/python",
            "SourceTree:venv/Scripts/python.exe",
            "SourceTree:.venv/Scripts/python.exe",
            "libs:python3",
            "libs:python",
            "runs:python3",
            "runs:python",
        ]
    );
}

#[test]
fn probe_arguments() {
    assert_eq!(version_args(), vec!["--version".to_string()]);
    assert_eq!(
        library_check_args(),
        vec!["-c".to_string(), "import loguru, playwright, openai".to_string()]
    );
}

#[test]
fn interpreter_is_what_the_first_successful_probe_names() {
    let exe = "/opt/app/bin/app";
    assert!(find_dev_python(exe, &vec![false; 8]).is_none());
    assert!(find_dev_python(exe, &vec![]).is_none());
    match find_dev_python(exe, &vec![false, true, false, false, true, true, true, true]) {
        Some(Interpreter::File(c)) => {
            assert_eq!(place(&c), (Anchor::ScriptTree, vec![".venv", "bin", "python"]))
        }
        other => panic!("unexpected {:?}", other),
    }
    match find_dev_python(exe, &vec![false, false, false, false, false, true, true, true]) {
        Some(Interpreter::Command(c)) => assert_eq!(c, "python"),
        other => panic!("unexpected {:?}", other),
    }
    match find_dev_python(exe, &vec![false, false, false, false, false, false, true, true]) {
        Some(Interpreter::Command(c)) => assert_eq!(c, "python3"),
        other => panic!("unexpected {:?}", other),
    }
    match find_dev_python(exe, &vec![false, false, false, false, false, false, false, true]) {
        Some(Interpreter::Command(c)) => assert_eq!(c, "python"),
        other => panic!("unexpected {:?}", other),
    }
}

#[test]
fn interpreter_beside_the_build_tree() {
    let exe = "/p/src-tauri/target/debug/app";
    let mut outcomes = vec![false; 12];
    outcomes[6] = true;
    outcomes[8] = true;
    match find_dev_python(exe, &outcomes) {
        Some(Interpreter::File(c)) => {
            assert_eq!(place(&c), (Anchor::SourceTree, vec!["venv", "Scripts", "python.exe"]))
        }
        other => panic!("unexpected {:?}", other),
    }
}

#[test]
fn mode_selection() {
    // a host in its build tree prefers the script tree
    assert_eq!(select_mode(true, true, true), Ok(LaunchMode::Script));
    // an installed host prefers the self-contained binary
    assert_eq!(select_mode(false, true, true), Ok(LaunchMode::Sidecar));
    // otherwise whichever exists
    assert_eq!(select_mode(true, true, false), Ok(LaunchMode::Script));
    assert_eq!(select_mode(false, true, false), Ok(LaunchMode::Script));
    assert_eq!(select_mode(true, false, true), Ok(LaunchMode::Sidecar));
    assert_eq!(select_mode(false, false, true), Ok(LaunchMode::Sidecar));
    // and an error if neither does
    assert_eq!(select_mode(true, false, false), Err(ResolutionError::NoWorker));
    assert_eq!(select_mode(false, false, false), Err(ResolutionError::NoWorker));
}

#[test]
fn resolution_errors_say_what_to_do() {
    let m = ResolutionError::NoWorker.message();
    assert!(m.starts_with("Could not find automation scripts or sidecar binary.\n\n"));
    assert!(m.contains("- Python 3.9+ must be installed\n"));
    assert!(m.contains("pip install -r requirements.txt && playwright install chromium"));
    assert!(m.ends_with("- The sidecar binary should be automatically bundled (no Python needed)"));
    assert_eq!(
        ResolutionError::NoInterpreter.message(),
        "Python not found. Please install Python 3.9+ and set up the virtual environment:\ncd automation && python3 -m venv venv && source venv/bin/activate && pip install -r requirements.txt && playwright install chromium"
    );
}

#[test]
fn launch_of_the_sidecar() {
    let spec = sidecar_launch("/opt/app/worker".to_string());
    assert_eq!(spec.executable, "/opt/app/worker");
    assert!(spec.arg_prefix.is_empty());
    assert_eq!(spec.working_dir, None);
}

#[test]
fn launch_of_the_script_tree() {
    let spec = script_launch(
        Some("python3".to_string()),
        "/p/automation".to_string(),
        "/p/automation/main.py".to_string(),
    )
    .unwrap();
    assert_eq!(spec.executable, "python3");
    assert_eq!(spec.arg_prefix, vec!["/p/automation/main.py".to_string()]);
    assert_eq!(spec.working_dir, Some("/p/automation".to_string()));
    let err = script_launch(None, "/p/automation".to_string(), "/p/automation/main.py".to_string());
    assert_eq!(err.unwrap_err(), ResolutionError::NoInterpreter);
}
