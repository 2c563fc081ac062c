use uiget::builder::{ComponentDefinition, ComponentFileSource, RegistryBuilder, RegistryConfig};
use uiget::cli::{parse_component_with_namespace, Cli, Commands};
use uiget::strategy::{
    build_invocation, fallback_attempts, probe_invocation, select_strategy, strategy_candidates,
    ExecStrategy,
};

#[test]
fn config_path_prefers_explicit_then_own_file() {
    let cli = Cli {
        command: Commands::List { registry: None, category: None },
        config: Some("custom.json".to_string()),
        verbose: false,
    };
    assert_eq!(cli.config_path(true, true), "custom.json");
    assert!(!cli.is_verbose());

    let cli = Cli {
        command: Commands::List { registry: None, category: None },
        config: None,
        verbose: true,
    };
    assert!(cli.is_verbose());
    assert_eq!(cli.config_path(true, false), "uiget.json");
    assert_eq!(cli.config_path(false, true), "components.json");
    assert_eq!(cli.config_path(false, false), "uiget.json");
}

#[test]
fn component_argument_namespace_split() {
    let (c, r) = parse_component_with_namespace("@svelte/button", None);
    assert_eq!(c, Some("button".to_string()));
    assert_eq!(r, Some("@svelte".to_string()));

    let (c, r) = parse_component_with_namespace("button", None);
    assert_eq!(c, Some("button".to_string()));
    assert_eq!(r, None);

    let (c, r) = parse_component_with_namespace("@svelte/button", Some("explicit"));
    assert_eq!(c, Some("@svelte/button".to_string()));
    assert_eq!(r, Some("explicit".to_string()));

    let (c, r) = parse_component_with_namespace("@/x", None);
    assert_eq!(c, Some("@/x".to_string()));
    assert_eq!(r, None);
}

#[test]
fn strategy_candidate_order() {
    assert_eq!(
        strategy_candidates("pnpm", false),
        vec![
            ExecStrategy::Direct,
            ExecStrategy::Npx,
            ExecStrategy::NpmExec,
            ExecStrategy::LocalBin,
            ExecStrategy::Corepack,
        ]
    );
    assert_eq!(
        strategy_candidates("yarn", true),
        vec![
            ExecStrategy::Direct,
            ExecStrategy::NpmExec,
            ExecStrategy::LocalBin,
            ExecStrategy::Corepack,
            ExecStrategy::WinCmd,
            ExecStrategy::WinPowershell,
        ]
    );
    assert_eq!(
        strategy_candidates("npm", false),
        vec![
            ExecStrategy::Direct,
            ExecStrategy::LocalBin,
            ExecStrategy::Corepack,
        ]
    );
}

#[test]
fn invocation_forms() {
    let cmd = vec!["pnpm".to_string(), "add".to_string(), "left-pad".to_string()];
    assert_eq!(
        build_invocation(ExecStrategy::Direct, &cmd, "/p"),
        vec!["pnpm", "add", "left-pad"]
    );
    assert_eq!(
        build_invocation(ExecStrategy::Npx, &cmd, "/p"),
        vec!["npx", "pnpm", "add", "left-pad"]
    );
    assert_eq!(
        build_invocation(ExecStrategy::NpmExec, &cmd, "/p"),
        vec!["npm", "exec", "pnpm", "--", "add", "left-pad"]
    );
    assert_eq!(
        build_invocation(ExecStrategy::LocalBin, &cmd, "/p"),
        vec!["/p/node_modules/.bin/pnpm", "add", "left-pad"]
    );
    assert_eq!(
        build_invocation(ExecStrategy::Corepack, &cmd, "/p"),
        vec!["corepack", "pnpm", "add", "left-pad"]
    );
    assert_eq!(
        build_invocation(ExecStrategy::WinCmd, &cmd, "/p"),
        vec!["cmd", "/C", "pnpm", "add", "left-pad"]
    );
    assert_eq!(
        build_invocation(ExecStrategy::WinPowershell, &cmd, "/p"),
        vec!["powershell", "-Command", "& pnpm add left-pad"]
    );
}

#[test]
fn probe_uses_version_flag() {
    let name = "pnpm".to_string();
    assert_eq!(
        probe_invocation(ExecStrategy::Npx, &name, "/p"),
        vec!["npx", "pnpm", "--version"]
    );
    assert_eq!(
        probe_invocation(ExecStrategy::Direct, &name, "/p"),
        vec!["pnpm", "--version"]
    );
}

#[test]
fn first_successful_probe_wins() {
    let candidates = vec![
        ExecStrategy::Direct,
        ExecStrategy::Npx,
        ExecStrategy::NpmExec,
    ];
    assert_eq!(
        select_strategy(&candidates, &vec![false, true, true]),
        Some(ExecStrategy::Npx)
    );
    assert_eq!(select_strategy(&candidates, &vec![false, false, false]), None);
}

#[test]
fn fallback_order_ends_with_direct_retry() {
    assert_eq!(
        fallback_attempts("pnpm", false),
        vec![
            ExecStrategy::Direct,
            ExecStrategy::Npx,
            ExecStrategy::NpmExec,
            ExecStrategy::Direct,
        ]
    );
    assert_eq!(
        fallback_attempts("npm", true),
        vec![ExecStrategy::Direct, ExecStrategy::WinCmd, ExecStrategy::Direct]
    );
}

#[test]
fn builder_file_sources_fallback_order() {
    let src = |s: &str| ComponentFileSource {
        source: s.to_string(),
        target: "t".to_string(),
        file_type: None,
    };
    let def = ComponentDefinition {
        name: "button".to_string(),
        component_type: Some("registry:ui".to_string()),
        description: None,
        registry_dependencies: None,
        dev_dependencies: None,
        dependencies: None,
        peer_dependencies: None,
        files: Some(vec![
            ("default".to_string(), vec![src("d.tsx")]),
            ("new-york".to_string(), vec![src("n.tsx")]),
        ]),
        default_files: Some(vec![src("fallback.tsx")]),
        tags: None,
        external: None,
    };
    let builder = RegistryBuilder {
        config: RegistryConfig {
            schema: None,
            name: "test".to_string(),
            description: None,
            homepage: None,
            docs: None,
            author: None,
            styles: None,
            default_style: None,
            components: Vec::new(),
        },
        base_path: "reg".to_string(),
        output_path: "out".to_string(),
    };
    assert_eq!(builder.config().name, "test");
    assert_eq!(builder.base_path(), "reg");
    assert_eq!(builder.output_path(), "out");

    let got = builder.file_sources_for(&def, "new-york").unwrap();
    assert_eq!(got[0].source, "n.tsx");
    let got = builder.file_sources_for(&def, "missing").unwrap();
    assert_eq!(got[0].source, "d.tsx");

    let mut def2 = def.clone();
    def2.files = None;
    let got = builder.file_sources_for(&def2, "missing").unwrap();
    assert_eq!(got[0].source, "fallback.tsx");
}
