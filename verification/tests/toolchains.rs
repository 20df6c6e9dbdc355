use hokori::json::parse_json;
use hokori::providers::toolchains::{
    InstalledVersion, MiseTool, OtherManagers, PathDirectory, PathEntry, Reference, SearchStep,
    TextFile, ToolDirectory, additional_manager_findings, asdf_references, channel_of_file,
    consumers, executed, fvm_references, fvm_requested, installed_versions, is_broken_link,
    managed_directory, mise_findings, mise_tools, nvm_references, other_managers,
    path_diagnostics, plan_action, probe, project_directories, pyenv_findings, pyenv_installed,
    pyenv_references, reference_files_named, revalidate, ruby_references, rust_channel,
    rust_toolchain_channel, rustup_findings, rustup_installed, rustup_references,
    sdkman_references, search_goes_on, search_step, version_matches,
};
use hokori::providers::{
    Capability, ProviderSettings, Revalidation, ScanProfile, evidence_value,
};
use hokori::report::{Confidence, Finding};
use hokori::rules::Safety;

const MIB: u64 = 1 << 20;

fn texts(list: &[&str]) -> Vec<String> {
    list.iter().map(|s| s.to_string()).collect()
}

fn settings() -> ProviderSettings {
    ProviderSettings {
        profile: ScanProfile::Deep,
        min_age_days: 30,
        min_size_bytes: MIB,
        enabled: None,
    }
}

fn evidence(finding: &Finding, label: &str) -> String {
    evidence_value(finding, label).unwrap()
}

fn file(path: &str, contents: &str) -> TextFile {
    TextFile { path: path.to_string(), contents: Some(contents.to_string()) }
}

fn pairs(references: &Vec<Reference>) -> Vec<(String, String)> {
    references.iter().map(|r| (r.key.clone(), r.consumer.clone())).collect()
}

fn pair(key: &str, consumer: &str) -> (String, String) {
    (key.to_string(), consumer.to_string())
}

#[test]
fn prunable_tools_of_mise_are_offered() {
    let tools = mise_tools(
        "{\"node\":[{\"version\":\"18.0.0\",\"install_path\":\"/m/node/18\"},{\"install_path\":\"/x\"}],\"go\":3}",
    );
    assert_eq!(tools.len(), 1);
    assert!(mise_tools("[]").is_empty());
    assert!(mise_tools("broken").is_empty());
    let broken = texts(&["/state/a"]);
    let findings = mise_findings(&tools, &vec![7], broken);
    assert_eq!(findings.len(), 2);
    assert_eq!(findings[0].stable_id, "provider:toolchains:mise-prunable-tool:node@18.0.0");
    assert_eq!(findings[0].bytes, 7);
    assert_eq!(findings[0].confidence, Confidence::Exact);
    assert!(findings[0].manual_only);
    assert_eq!(evidence(&findings[0], "Install path"), "/m/node/18");
    let (policy, args) = plan_action(&findings[0]).ok().unwrap();
    assert_eq!(policy.id, "mise-uninstall");
    assert_eq!(args, texts(&["uninstall", "--yes", "node@18.0.0"]));
    assert_eq!(findings[1].rule_id, "mise-stale-config-links");
    assert_eq!(findings[1].member_paths, texts(&["/state/a"]));
    assert_eq!(findings[1].safety, Safety::Safe);
    let (_, args) = plan_action(&findings[1]).ok().unwrap();
    assert_eq!(args, texts(&["prune", "--configs", "--yes"]));
    let none: Vec<MiseTool> = Vec::new();
    assert!(mise_findings(&none, &Vec::new(), Vec::new()).is_empty());
    assert!(is_broken_link(true, false));
    assert!(!is_broken_link(true, true) && !is_broken_link(false, false));
}

const RUSTUP: &str =
    "stable-aarch64-apple-darwin (active, default)\nnightly-x86_64-apple-darwin\n1.70.0-aarch64-apple-darwin\nsmall\n";

#[test]
fn rust_toolchains_are_referred_to() {
    assert_eq!(rust_channel("1.70.0-x86_64-unknown-linux-gnu"), "1.70.0");
    assert_eq!(rust_channel("custom"), "custom");
    let files = vec![
        file("/p/rust-toolchain.toml", "[toolchain]\nchannel = \"nightly\"\n"),
        file("/p/.nvmrc", "18"),
    ];
    let references = rustup_references(RUSTUP, Some("/q\t1.60-aarch64-apple-darwin\nlonely"), &files);
    assert_eq!(
        pairs(&references),
        vec![
            pair("stable", "active/default rustup toolchain"),
            pair("1.60", "rustup override at /q"),
            pair("nightly", "/p/rust-toolchain.toml"),
        ]
    );
    assert_eq!(rust_toolchain_channel("# c\n1.71\n").as_deref(), Some("# c"));
    assert_eq!(rust_toolchain_channel("\n 1.71 \n").as_deref(), Some("1.71"));
    assert_eq!(rust_toolchain_channel("[toolchain]\n"), None);
    assert_eq!(channel_of_file("beta", &None).as_deref(), Some("beta"));

    let installed = rustup_installed(RUSTUP);
    assert_eq!(installed.len(), 4);
    let bytes = vec![2 * MIB, 2 * MIB, 3 * MIB, 1];
    let findings = rustup_findings(&installed, &bytes, &references, "/h/.rustup/toolchains", &settings());
    assert_eq!(findings.len(), 3);
    assert_eq!(findings[0].rule_id, "rustup-referenced-toolchain");
    assert_eq!(findings[0].safety, Safety::Protected);
    assert_eq!(findings[0].bytes, 0);
    assert!(findings[0].native_action.is_none());
    assert_eq!(evidence(&findings[1], "References"), "/p/rust-toolchain.toml");
    assert_eq!(findings[2].rule_id, "rustup-unreferenced-toolchain");
    assert_eq!(findings[2].bytes, 3 * MIB);
    assert_eq!(evidence(&findings[2], "Channel"), "1.70.0");
    let (policy, args) = plan_action(&findings[2]).ok().unwrap();
    assert_eq!(policy.id, "rustup-uninstall");
    assert_eq!(args, texts(&["toolchain", "uninstall", "1.70.0-aarch64-apple-darwin"]));
    assert_eq!(
        executed(&findings[2]).unwrap().message,
        "Removed toolchain object 1.70.0-aarch64-apple-darwin."
    );
    assert!(matches!(revalidate(&findings, &findings[2]), Revalidation::Valid));
    match revalidate(&Vec::new(), &findings[2]) {
        Revalidation::Changed(m) => assert_eq!(
            m,
            "Toolchain references changed and this version is no longer prunable."
        ),
        _ => panic!("a toolchain that is gone has changed"),
    }
}

#[test]
fn python_versions_are_referred_to() {
    let installed = pyenv_installed(" 3.11.4 \n3.12.0\n3.9.1\n3.8.2\n3.10.0\n3.11.4/envs/x\n\n");
    assert_eq!(installed, texts(&["3.11.4", "3.12.0", "3.9.1", "3.8.2", "3.10.0"]));
    let files = vec![file("/p/.python-version", "3.11\n"), file("/p/other", "3.12")];
    let pipx = "{\"venvs\":{\"black\":{\"metadata\":{\"source_interpreter\":{\"__Path__\":\"/h/.pyenv/versions/3.9.1/bin/python\"}}},\"x\":{}}}";
    let environments = vec![
        file("/h/.pyenv/versions/web", "home = /h/.pyenv/versions/3.12.0/bin\n"),
        file("/h/.pyenv/versions/api", "version = 3.8\n"),
    ];
    let references =
        pyenv_references(&installed, Some("3.12.0\n"), &files, Some(pipx), &environments);
    assert_eq!(
        pairs(&references),
        vec![
            pair("3.12.0", "pyenv global"),
            pair("3.11.4", "/p/.python-version"),
            pair("3.9.1", "pipx tool black"),
            pair("3.12.0", "pyenv virtualenv web"),
            pair("3.8.2", "pyenv virtualenv api"),
        ]
    );
    assert_eq!(consumers(&references, "3.12.0"), texts(&["pyenv global", "pyenv virtualenv web"]));
    let findings = pyenv_findings(
        &installed,
        &vec![2 * MIB, 2 * MIB, 1, 2 * MIB, 4 * MIB],
        &references,
        "/h/.pyenv/versions",
        &settings(),
    );
    assert_eq!(findings.len(), 4);
    assert_eq!(evidence(&findings[1], "References"), "pyenv global, pyenv virtualenv web");
    assert!(findings[..3].iter().all(|f| f.safety == Safety::Protected));
    let free = &findings[3];
    assert_eq!(free.rule_id, "pyenv-unreferenced-version");
    assert_eq!(free.bytes, 4 * MIB);
    assert_eq!(evidence(free, "Install path"), "/h/.pyenv/versions/3.10.0");
    let (_, args) = plan_action(free).ok().unwrap();
    assert_eq!(args, texts(&["uninstall", "-f", "3.10.0"]));
    assert!(version_matches("3.1", "3.1.2") && !version_matches("3.1", "3.11.4"));
}

fn version(name: &str, bytes: u64) -> InstalledVersion {
    InstalledVersion { name: name.to_string(), path: format!("/i/{name}"), is_dir: true, bytes }
}

fn tool(name: &str, versions: Vec<InstalledVersion>) -> ToolDirectory {
    ToolDirectory { name: name.to_string(), is_dir: true, versions }
}

#[test]
fn versions_of_other_managers_are_offered() {
    let list = vec![version("v18.0.0", 2 * MIB), version("v20.1.0", 2 * MIB), version("x", 1)];
    let findings = installed_versions(&list, "nvm", &texts(&["18.0.0"]), None, &settings());
    assert_eq!(findings.len(), 1);
    assert_eq!(findings[0].stable_id, "provider:toolchains:unreferenced-manager-version:20.1.0");
    assert!(findings[0].report_only && findings[0].manual_only);
    assert_eq!(findings[0].confidence, Confidence::Medium);
    let action = Some(("rbenv-uninstall", "rbenv uninstall -f"));
    let findings = installed_versions(&list, "rbenv", &Vec::new(), action, &settings());
    assert_eq!(
        findings[1].native_action.as_ref().unwrap().preview,
        texts(&["rbenv", "uninstall", "-f", "v20.1.0"])
    );
    let (policy, args) = plan_action(&findings[1]).ok().unwrap();
    assert_eq!(policy.id, "rbenv-uninstall");
    assert_eq!(args, texts(&["uninstall", "-f", "v20.1.0"]));
}

#[test]
fn every_manager_is_asked_for_its_references() {
    let files = vec![
        file("/p/.nvmrc", "v20\n"),
        file("/p/.ruby-version", " 3.2 \n"),
        file("/p/.tool-versions", "erlang 26 25\n\nelixir\n"),
        file("/p/.sdkmanrc", "java = 17\nnothing\n"),
        file("/p/.fvmrc", "{\"flutter\":\"3.7\"}"),
        file("/p/fvm_config.json", "{\"flutterSdkVersion\":\"3.3\"}"),
    ];
    assert_eq!(nvm_references(&files, Some(" v18 ")), texts(&["20", "18"]));
    assert_eq!(ruby_references(&files, Some("3.1\n")), texts(&["3.2", "3.1"]));
    assert_eq!(pairs(&asdf_references(&files)), vec![pair("erlang", "26"), pair("erlang", "25")]);
    let link = vec![Reference { key: "gradle".to_string(), consumer: "8".to_string() }];
    assert_eq!(
        pairs(&sdkman_references(&files, &link)),
        vec![pair("java", "17"), pair("gradle", "8")]
    );
    assert_eq!(fvm_references(&files), texts(&["3.7", "3.3"]));
    let mixed = parse_json("{\"flutter\":1,\"flutterSdkVersion\":\"3.3\"}").unwrap();
    assert_eq!(fvm_requested(&mixed), None);
    assert_eq!(reference_files_named(&files, &texts(&[".nvmrc"])).len(), 1);

    let managers = OtherManagers {
        nvm: vec![version("v20", 2 * MIB)],
        rbenv: vec![version("3.0", 2 * MIB)],
        asdf: vec![tool("erlang", vec![version("26", 2 * MIB), version("24", 2 * MIB)])],
        sdkman: vec![tool(
            "java",
            vec![version("17", 2 * MIB), version("current", 2 * MIB), version("11", 2 * MIB)],
        )],
        fvm: vec![version("3.7", 2 * MIB), version("2.0", 2 * MIB)],
        nvm_default: None,
        rbenv_global: None,
        sdkman_links: Vec::new(),
        rbenv_installed: false,
        asdf_installed: true,
        fvm_installed: true,
    };
    let findings = additional_manager_findings(&managers, &files, &settings());
    let ids: Vec<String> = findings
        .iter()
        .map(|f| f.stable_id.rsplit(':').next().unwrap().to_string())
        .collect();
    assert_eq!(ids, texts(&["3.0", "erlang@24", "java@11", "2.0"]));
    assert!(findings[0].report_only);
    let (policy, args) = plan_action(&findings[1]).ok().unwrap();
    assert_eq!(policy.id, "asdf-uninstall");
    assert_eq!(args, texts(&["uninstall", "erlang", "24"]));
    assert!(findings[2].report_only && findings[2].native_action.is_none());
    let (_, args) = plan_action(&findings[3]).ok().unwrap();
    assert_eq!(args, texts(&["remove", "2.0"]));
}

#[test]
fn the_search_path_is_only_reported() {
    assert!(managed_directory("/h/.cargo/bin") && managed_directory("/opt/homebrew/bin"));
    assert!(!managed_directory("/usr/bin") && !managed_directory("/opt/homebrew/bin/x"));
    let entry = |name: &str, dir: &str, is_symlink: bool, exists: bool| PathEntry {
        name: name.to_string(),
        path: format!("{dir}/{name}"),
        readable: true,
        is_symlink,
        is_file: !is_symlink,
        exists,
    };
    let directories = vec![
        PathDirectory {
            path: "/opt/homebrew/bin".to_string(),
            entries: vec![entry("rg", "/opt/homebrew/bin", false, true), entry("old", "/opt/homebrew/bin", true, false)],
        },
        PathDirectory {
            path: "/usr/bin".to_string(),
            entries: vec![entry("jq", "/usr/bin", false, true)],
        },
        PathDirectory {
            path: "/usr/local/bin".to_string(),
            entries: vec![entry("rg", "/usr/local/bin", true, true), entry("jq", "/usr/local/bin", false, true)],
        },
    ];
    let findings = path_diagnostics(&directories);
    assert_eq!(findings.len(), 2);
    assert_eq!(findings[0].rule_id, "path-command-conflict");
    assert_eq!(evidence(&findings[0], "Conflicts"), "rg: /opt/homebrew/bin/rg | /usr/local/bin/rg");
    assert_eq!(findings[1].rule_id, "broken-path-shims");
    assert_eq!(findings[1].member_paths, texts(&["/opt/homebrew/bin/old"]));
    for finding in &findings {
        assert!(finding.report_only && finding.native_action.is_none());
        assert!(plan_action(finding).is_err());
    }
    assert!(path_diagnostics(&Vec::new()).is_empty());
}

#[test]
fn version_files_are_searched_for() {
    assert!(matches!(search_step(".nvmrc", true, false), SearchStep::Keep));
    assert!(matches!(search_step("src", false, true), SearchStep::Enter));
    assert!(matches!(search_step("node_modules", false, true), SearchStep::Skip));
    assert!(matches!(search_step("main.rs", true, false), SearchStep::Skip));
    assert!(search_goes_on(8, 4_999, false));
    assert!(!search_goes_on(9, 0, false) && !search_goes_on(0, 5_000, false));
    assert!(!search_goes_on(0, 0, true));
    assert_eq!(
        project_directories("/h"),
        texts(&["/h/Development", "/h/Developer", "/h/Projects", "/h/Code", "/h/src"])
    );
    assert_eq!(other_managers().len(), 5);
    assert!(matches!(probe(false, false, false, true), Capability::Available));
    match probe(false, false, false, false) {
        Capability::Unavailable(m) => {
            assert_eq!(m, "No supported toolchain manager is installed.");
        }
        _ => panic!("nothing is installed"),
    }
}
