use uiget::package_manager::{
    detect_package_manager, find_project_root, is_semver_gte, parse_manager_field,
    parse_user_agent, pick_by_lockfiles, DetectError, DetectSignals, Detection, DetectionSource,
    DirProbe, LockfileCandidate, ManifestText, PackageManager,
};

fn base_signals() -> DetectSignals {
    DetectSignals {
        start_dir: "/work/app".to_string(),
        project_root: Some("/work/app".to_string()),
        user_agent: None,
        manifest: ManifestText::Missing,
        yarn_artifact: None,
        pnpm_workspace: None,
        lockfiles: Vec::new(),
    }
}

#[test]
fn test_package_manager_install_commands() {
    assert_eq!(PackageManager::Npm.install_command(), vec!["npm", "install"]);
    assert_eq!(PackageManager::YarnClassic.install_command(), vec!["yarn", "add"]);
    assert_eq!(PackageManager::YarnBerry.install_command(), vec!["yarn", "add"]);
    assert_eq!(PackageManager::Pnpm.install_command(), vec!["pnpm", "add"]);
    assert_eq!(PackageManager::Bun.install_command(), vec!["bun", "add"]);
    assert_eq!(PackageManager::Unknown.install_command(), vec!["npm", "install"]);
}

#[test]
fn test_package_manager_install_dev_commands() {
    assert_eq!(
        PackageManager::Npm.install_dev_command(),
        vec!["npm", "install", "--save-dev"]
    );
    assert_eq!(
        PackageManager::YarnClassic.install_dev_command(),
        vec!["yarn", "add", "--dev"]
    );
    assert_eq!(
        PackageManager::YarnBerry.install_dev_command(),
        vec!["yarn", "add", "--dev"]
    );
    assert_eq!(
        PackageManager::Pnpm.install_dev_command(),
        vec!["pnpm", "add", "--save-dev"]
    );
    assert_eq!(
        PackageManager::Bun.install_dev_command(),
        vec!["bun", "add", "--dev"]
    );
    assert_eq!(
        PackageManager::Unknown.install_dev_command(),
        vec!["npm", "install", "--save-dev"]
    );
}

#[test]
fn test_package_manager_names() {
    assert_eq!(PackageManager::Npm.name(), "npm");
    assert_eq!(PackageManager::YarnClassic.name(), "yarn (classic)");
    assert_eq!(PackageManager::YarnBerry.name(), "yarn (berry)");
    assert_eq!(PackageManager::Pnpm.name(), "pnpm");
    assert_eq!(PackageManager::Bun.name(), "bun");
    assert_eq!(PackageManager::Unknown.name(), "unknown");
}

#[test]
fn test_parse_user_agent() {
    let ua = "npm/9.6.7 node/v18.16.0 linux x64";
    let (pm, ver) = parse_user_agent(ua).unwrap();
    assert_eq!(pm, PackageManager::Npm);
    assert_eq!(ver, Some("9.6.7".to_string()));

    let ua = "yarn/1.22.19 npm/? node/v18.16.0 win32 x64";
    let (pm, ver) = parse_user_agent(ua).unwrap();
    assert_eq!(pm, PackageManager::YarnClassic);
    assert_eq!(ver, Some("1.22.19".to_string()));

    let ua = "yarn/3.5.1 npm/? node/v18.16.0 win32 x64";
    let (pm, ver) = parse_user_agent(ua).unwrap();
    assert_eq!(pm, PackageManager::YarnBerry);
    assert_eq!(ver, Some("3.5.1".to_string()));

    let ua = "pnpm/8.15.3 npm/? node/v20.14.0 darwin arm64";
    let (pm, ver) = parse_user_agent(ua).unwrap();
    assert_eq!(pm, PackageManager::Pnpm);
    assert_eq!(ver, Some("8.15.3".to_string()));

    let ua = "bun/1.1.8 darwin x64";
    let (pm, ver) = parse_user_agent(ua).unwrap();
    assert_eq!(pm, PackageManager::Bun);
    assert_eq!(ver, Some("1.1.8".to_string()));

    assert!(parse_user_agent("").is_none());
    assert!(parse_user_agent("invalid").is_none());
}

#[test]
fn test_is_semver_gte() {
    assert!(is_semver_gte("3.6.1", 3, 6, 0));
    assert!(is_semver_gte("3.6.0", 3, 6, 0));
    assert!(is_semver_gte("3.7.0", 3, 6, 0));
    assert!(is_semver_gte("4.0.0", 3, 6, 0));

    assert!(!is_semver_gte("3.5.9", 3, 6, 0));
    assert!(!is_semver_gte("2.9.9", 3, 6, 0));
    assert!(!is_semver_gte("3.6.0", 3, 6, 1));
}

#[test]
fn test_find_project_root() {
    let no_manifest = vec![
        DirProbe { path: "/tmp/w/my-project".to_string(), has_manifest: false },
        DirProbe { path: "/tmp/w".to_string(), has_manifest: false },
        DirProbe { path: "/tmp".to_string(), has_manifest: false },
        DirProbe { path: "/".to_string(), has_manifest: false },
    ];
    assert!(find_project_root(&no_manifest).is_none());

    let with_manifest = vec![
        DirProbe { path: "/tmp/w/my-project".to_string(), has_manifest: true },
        DirProbe { path: "/tmp/w".to_string(), has_manifest: false },
    ];
    assert_eq!(
        find_project_root(&with_manifest),
        Some("/tmp/w/my-project".to_string())
    );

    let from_subdir = vec![
        DirProbe { path: "/tmp/w/my-project/src".to_string(), has_manifest: false },
        DirProbe { path: "/tmp/w/my-project".to_string(), has_manifest: true },
        DirProbe { path: "/tmp/w".to_string(), has_manifest: false },
    ];
    assert_eq!(
        find_project_root(&from_subdir),
        Some("/tmp/w/my-project".to_string())
    );
}

#[test]
fn test_detect_error_display() {
    let err = DetectError::NoProject("/path/to/project".to_string());
    assert!(err.message().contains("nenhum projeto Node"));

    let err = DetectError::BadJson("file.json".to_string(), "invalid json".to_string());
    assert!(err.message().contains("json inválido"));
}

#[test]
fn lockfile_tie_break_newest_wins() {
    let candidates = vec![
        LockfileCandidate {
            manager: PackageManager::YarnClassic,
            path: "/p/yarn.lock".to_string(),
            modified: 1_000,
        },
        LockfileCandidate {
            manager: PackageManager::Npm,
            path: "/p/package-lock.json".to_string(),
            modified: 2_000,
        },
    ];
    let d = pick_by_lockfiles("/p", &candidates).unwrap();
    assert_eq!(d.manager, PackageManager::Npm);
    match d.source {
        DetectionSource::Lockfile(p) => assert_eq!(p, "/p/package-lock.json"),
        other => panic!("unexpected source: {:?}", other),
    }
    assert!(d.version_hint.is_none());
}

#[test]
fn lockfile_tie_goes_to_last_listed() {
    let candidates = vec![
        LockfileCandidate {
            manager: PackageManager::YarnClassic,
            path: "/p/yarn.lock".to_string(),
            modified: 5,
        },
        LockfileCandidate {
            manager: PackageManager::Bun,
            path: "/p/bun.lockb".to_string(),
            modified: 5,
        },
    ];
    let d = pick_by_lockfiles("/p", &candidates).unwrap();
    assert_eq!(d.manager, PackageManager::Bun);
}

#[test]
fn manifest_field_wins_over_lockfiles() {
    let mut sig = base_signals();
    sig.manifest = ManifestText::Text(r#"{"name": "x", "packageManager": "pnpm@8.15.4"}"#.to_string());
    sig.lockfiles = vec![LockfileCandidate {
        manager: PackageManager::YarnClassic,
        path: "/work/app/yarn.lock".to_string(),
        modified: 99,
    }];
    let d = detect_package_manager(&sig).unwrap();
    assert_eq!(d.manager, PackageManager::Pnpm);
    assert_eq!(d.version_hint, Some("8.15.4".to_string()));
    assert!(matches!(d.source, DetectionSource::PackageJsonField));
}

#[test]
fn manifest_field_yarn_major_splits_flavour() {
    assert_eq!(
        parse_manager_field("yarn@1.22.19").map(|p| p.0),
        Some(PackageManager::YarnClassic)
    );
    assert_eq!(
        parse_manager_field("yarn@2.0.0").map(|p| p.0),
        Some(PackageManager::YarnBerry)
    );
    assert_eq!(
        parse_manager_field("yarn@3.5.1").map(|p| p.0),
        Some(PackageManager::YarnBerry)
    );
    assert!(parse_manager_field("yarn").is_none());
    assert!(parse_manager_field("@1.2.3").is_none());
    assert!(parse_manager_field("ya rn@1.2.3").is_none());
    assert!(parse_manager_field("foo@1.0.0").is_none());
}

#[test]
fn unrecognized_manager_name_falls_through() {
    let mut sig = base_signals();
    sig.manifest = ManifestText::Text(r#"{"packageManager": "foo@1.0.0"}"#.to_string());
    sig.yarn_artifact = Some("/work/app/.pnp.cjs".to_string());
    let d = detect_package_manager(&sig).unwrap();
    assert_eq!(d.manager, PackageManager::YarnBerry);
    assert!(matches!(d.source, DetectionSource::YarnArtifacts(_)));

    let mut sig = base_signals();
    sig.manifest = ManifestText::Text(r#"{"packageManager": "foo@1.0.0"}"#.to_string());
    let d = detect_package_manager(&sig).unwrap();
    assert_eq!(d.manager, PackageManager::Npm);
    assert!(matches!(d.source, DetectionSource::Heuristic));
}

#[test]
fn detection_falls_back_to_npm_heuristic() {
    let sig = base_signals();
    let d = detect_package_manager(&sig).unwrap();
    assert_eq!(d.manager, PackageManager::Npm);
    assert!(matches!(d.source, DetectionSource::Heuristic));
    assert_eq!(d.project_root, "/work/app");
}

#[test]
fn detection_without_root_is_fatal() {
    let mut sig = base_signals();
    sig.project_root = None;
    let e = detect_package_manager(&sig).unwrap_err();
    assert_eq!(e, DetectError::NoProject("/work/app".to_string()));
}

#[test]
fn user_agent_beats_manifest_field() {
    let mut sig = base_signals();
    sig.user_agent = Some("bun/1.1.8 darwin x64".to_string());
    sig.manifest = ManifestText::Text(r#"{"packageManager": "pnpm@8.0.0"}"#.to_string());
    let d = detect_package_manager(&sig).unwrap();
    assert_eq!(d.manager, PackageManager::Bun);
    match d.source {
        DetectionSource::UserAgent(ua) => assert_eq!(ua, "bun/1.1.8 darwin x64"),
        other => panic!("unexpected source: {:?}", other),
    }
}

#[test]
fn yarn_artifacts_beat_pnpm_and_lockfiles() {
    let mut sig = base_signals();
    sig.yarn_artifact = Some("/work/app/.pnp.cjs".to_string());
    sig.pnpm_workspace = Some("/work/app/pnpm-workspace.yaml".to_string());
    let d = detect_package_manager(&sig).unwrap();
    assert_eq!(d.manager, PackageManager::YarnBerry);
    assert!(matches!(d.source, DetectionSource::YarnArtifacts(_)));
}

#[test]
fn detection_info_line() {
    let d = Detection {
        manager: PackageManager::Pnpm,
        version_hint: None,
        source: DetectionSource::Heuristic,
        project_root: "/work/app".to_string(),
    };
    assert_eq!(d.info(), "Detected pnpm via heuristic at /work/app");
}

#[test]
fn unparseable_manifest_is_surfaced() {
    let mut sig = base_signals();
    sig.manifest = ManifestText::Text("{ not valid json".to_string());
    let e = detect_package_manager(&sig).unwrap_err();
    match e {
        DetectError::BadJson(path, _) => assert_eq!(path, "/work/app/package.json"),
        other => panic!("unexpected error: {:?}", other),
    }
}

#[test]
fn absent_manager_field_falls_through() {
    let mut sig = base_signals();
    sig.manifest = ManifestText::Text(r#"{"name": "plain"}"#.to_string());
    let d = detect_package_manager(&sig).unwrap();
    assert_eq!(d.manager, PackageManager::Npm);
    assert!(matches!(d.source, DetectionSource::Heuristic));
}
