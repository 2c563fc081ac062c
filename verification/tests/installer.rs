use uiget::config::{AliasesConfig, Config, TailwindConfig};
use uiget::installer::{
    classify_entry, get_installed_components, ComponentContext, ComponentDependencies,
    ComponentInstaller, InstallError,
};
use uiget::registry::{Component, ComponentFile};

fn create_test_config() -> Config {
    Config {
        schema: None,
        style: None,
        tailwind: TailwindConfig {
            css: "src/app.css".to_string(),
            base_color: "slate".to_string(),
            config: None,
        },
        aliases: AliasesConfig {
            components: "src/lib/components".to_string(),
            utils: "src/lib/utils".to_string(),
            ui: Some("src/lib/components/ui".to_string()),
            hooks: None,
            lib: Some("src/lib".to_string()),
        },
        registries: Vec::new(),
        typescript: None,
    }
}

fn installer() -> ComponentInstaller {
    ComponentInstaller::new(create_test_config(), None, None)
}

fn file(content: &str, target: &str) -> ComponentFile {
    ComponentFile {
        content: content.to_string(),
        file_type: None,
        target: Some(target.to_string()),
        path: None,
    }
}

fn component(name: &str, ctype: Option<&str>, files: Vec<ComponentFile>) -> Component {
    Component {
        schema: None,
        name: name.to_string(),
        component_type: ctype.map(|t| t.to_string()),
        dependencies: None,
        dev_dependencies: None,
        registry_dependencies: None,
        files,
        registry: None,
    }
}

#[test]
fn test_resolve_file_path() {
    let installer = installer();

    let context = ComponentContext {
        name: "button".to_string(),
        component_type: Some("registry:ui".to_string()),
        registry: Some("test".to_string()),
    };

    let path = installer.resolve_file_path("button/button.svelte", &context);
    assert!(path.contains("src/lib/components/ui/button/button.svelte"));

    let path = installer.resolve_file_path("card/index.ts", &context);
    assert!(path.contains("src/lib/components/ui/card/index.ts"));
}

#[test]
fn test_get_alias_for_component_type() {
    let installer = installer();

    assert_eq!(
        installer.get_alias_for_component_type(Some("registry:ui")),
        "src/lib/components/ui"
    );
    assert_eq!(
        installer.get_alias_for_component_type(Some("registry:util")),
        "src/lib/utils"
    );
    assert_eq!(
        installer.get_alias_for_component_type(Some("registry:hook")),
        "src/lib/components"
    );
    assert_eq!(
        installer.get_alias_for_component_type(Some("registry:lib")),
        "src/lib"
    );
    assert_eq!(
        installer.get_alias_for_component_type(Some("registry:unknown")),
        "src/lib/components"
    );
    assert_eq!(
        installer.get_alias_for_component_type(None),
        "src/lib/components"
    );
}

#[test]
fn test_component_context_creation() {
    let installer = installer();

    let component = Component {
        schema: None,
        name: "test-button".to_string(),
        component_type: Some("registry:ui".to_string()),
        dependencies: None,
        dev_dependencies: None,
        registry_dependencies: None,
        files: vec![],
        registry: Some("test-registry".to_string()),
    };

    let context = installer.create_component_context(&component);

    assert_eq!(context.name, "test-button");
    assert_eq!(context.component_type, Some("registry:ui".to_string()));
    assert_eq!(context.registry, Some("test-registry".to_string()));
}

#[test]
fn manual_alias_round_trip() {
    let installer = installer();
    assert_eq!(
        installer.resolve_path_manually("$lib/components/ui"),
        "src/lib/components/ui"
    );
    assert_eq!(installer.resolve_path_manually("plain/path"), "plain/path");
}

#[test]
fn ui_target_duplicate_segment_is_dropped() {
    let mut config = create_test_config();
    config.aliases.ui = Some("lib/components/ui".to_string());
    let installer = ComponentInstaller::new(config, None, None);
    let context = ComponentContext {
        name: "button".to_string(),
        component_type: Some("registry:ui".to_string()),
        registry: None,
    };
    assert_eq!(
        installer.resolve_file_path("button/button.tsx", &context),
        "lib/components/ui/button/button.tsx"
    );
    assert_eq!(
        installer.resolve_file_path("ui/button.tsx", &context),
        "lib/components/ui/button.tsx"
    );
}

#[test]
fn placeholder_occurs_twice_resolves_identically() {
    let installer = installer();
    let out = installer.process_placeholders("import a from \"$UTILS$/a\";\nimport b from \"$UTILS$/b\";", None);
    assert_eq!(
        out,
        "import a from \"src/lib/utils/a\";\nimport b from \"src/lib/utils/b\";"
    );
}

#[test]
fn placeholders_resolve_by_context_category() {
    let installer = installer();
    let ui_ctx = ComponentContext {
        name: "button".to_string(),
        component_type: Some("registry:ui".to_string()),
        registry: None,
    };
    let out = installer.process_placeholders("from \"$COMPONENTS$/button\"", Some(&ui_ctx));
    assert_eq!(out, "from \"src/lib/components/ui/button\"");
    let out = installer.process_placeholders("from \"$COMPONENTS$/button\"", None);
    assert_eq!(out, "from \"src/lib/components/button\"");
}

#[test]
fn typescript_strips_js_specifier_suffixes() {
    let mut config = create_test_config();
    config.typescript = Some(uiget::config::TypeScriptConfig::Boolean(true));
    let installer = ComponentInstaller::new(config, None, None);
    let out = installer.process_placeholders(
        "import { x } from \"./x.js\";\nexport { y } from './y.js';\nconst m = import(\"./m.js\");\nuse \"$UTILS$.js\";",
        None,
    );
    assert_eq!(
        out,
        "import { x } from \"./x\";\nexport { y } from './y';\nconst m = import(\"./m\");\nuse \"src/lib/utils.js\";"
    );
}

#[test]
fn install_then_check_is_not_outdated() {
    let installer = installer();
    let registry_content = "const a = 1;\n  const b = 2;\n";
    let written = installer.process_placeholders(registry_content, None);
    let locals = vec![Some(written)];
    let registry_files = vec![registry_content.to_string()];
    assert!(!installer.is_component_outdated(true, &locals, &registry_files));
}

#[test]
fn whitespace_only_edit_is_not_outdated() {
    let installer = installer();
    let registry_files = vec!["const a = 1;\nconst b = 2;\n".to_string()];
    let locals = vec![Some("   const a = 1;   \n\n\n  const b = 2;\n".to_string())];
    assert!(!installer.is_component_outdated(true, &locals, &registry_files));
}

#[test]
fn content_edit_is_outdated() {
    let installer = installer();
    let registry_files = vec!["const a = 1;\n".to_string()];
    let locals = vec![Some("const a = 2;\n".to_string())];
    assert!(installer.is_component_outdated(true, &locals, &registry_files));
    let missing: Vec<Option<String>> = vec![None];
    assert!(installer.is_component_outdated(true, &missing, &registry_files));
    assert!(!installer.is_component_outdated(false, &locals, &registry_files));
}

#[test]
fn install_plan_writes_and_already_exists() {
    let installer = installer();
    let c = component(
        "button",
        Some("registry:ui"),
        vec![file("one", "button/a.ts"), file("two", "button/b.ts")],
    );
    let ctx = installer.create_component_context(&c);

    let (writes, result) = installer.install_component_files(&c, &ctx, false, &vec![false, false]);
    assert!(result.is_ok());
    assert_eq!(writes.len(), 2);
    assert_eq!(writes[0].path, "src/lib/components/ui/button/a.ts");
    assert_eq!(writes[0].content, "one");
    assert_eq!(writes[1].path, "src/lib/components/ui/button/b.ts");

    let (writes, result) = installer.install_component_files(&c, &ctx, false, &vec![false, true]);
    assert_eq!(writes.len(), 1);
    assert_eq!(
        result.unwrap_err(),
        InstallError::AlreadyExists("src/lib/components/ui/button/b.ts".to_string())
    );

    let (writes, result) = installer.install_component_files(&c, &ctx, true, &vec![true, true]);
    assert!(result.is_ok());
    assert_eq!(writes.len(), 2);
}

#[test]
fn dependency_expansion_is_one_level() {
    let installer = installer();
    let mut card = component("card", Some("registry:ui"), vec![file("c", "card/c.ts")]);
    card.registry_dependencies = Some(vec!["button".to_string()]);
    let mut button = component("button", Some("registry:ui"), vec![file("b", "button/b.ts")]);
    button.registry_dependencies = Some(vec!["utils".to_string()]);

    let top = installer.registry_dependency_plan(&card, false);
    assert_eq!(top, vec!["button"]);

    let nested = installer.registry_dependency_plan(&button, true);
    assert!(nested.is_empty());
}

#[test]
fn no_manager_means_no_subprocess() {
    let installer = installer();
    let deps = ComponentDependencies {
        dependencies: vec!["left-pad".to_string()],
        dev_dependencies: vec!["typescript".to_string()],
    };
    assert!(installer.dependency_install_commands(&deps).is_none());
}

#[test]
fn manager_dependency_commands() {
    let config = create_test_config();
    let detection = uiget::package_manager::Detection {
        manager: uiget::package_manager::PackageManager::Pnpm,
        version_hint: None,
        source: uiget::package_manager::DetectionSource::Heuristic,
        project_root: "/p".to_string(),
    };
    let installer = ComponentInstaller::new(config, None, Some(detection));
    let deps = ComponentDependencies {
        dependencies: vec!["left-pad".to_string()],
        dev_dependencies: vec!["typescript".to_string()],
    };
    let cmds = installer.dependency_install_commands(&deps).unwrap();
    assert_eq!(cmds.len(), 2);
    assert_eq!(cmds[0], vec!["pnpm", "add", "left-pad"]);
    assert_eq!(cmds[1], vec!["pnpm", "add", "--save-dev", "typescript"]);
}

#[test]
fn installed_components_sorted_and_deduplicated() {
    let entries = vec![
        ("card".to_string(), true),
        ("button.tsx".to_string(), false),
        ("button".to_string(), true),
        (".hidden".to_string(), false),
        ("index.ts".to_string(), false),
        ("index.svelte".to_string(), false),
        ("types.d.ts".to_string(), false),
        ("app.map".to_string(), false),
        ("alert.svelte".to_string(), false),
    ];
    let installed = get_installed_components(&entries);
    assert_eq!(installed, vec!["alert", "button", "card"]);
}

#[test]
fn classify_entry_rules() {
    assert_eq!(classify_entry("button", true), Some("button".to_string()));
    assert_eq!(classify_entry("button.tsx", false), Some("button".to_string()));
    assert_eq!(classify_entry(".git", true), None);
    assert_eq!(classify_entry("index.js", false), None);
    assert_eq!(classify_entry("index.svelte", false), None);
    assert_eq!(classify_entry("index", false), None);
    assert_eq!(classify_entry("indexed.ts", false), Some("indexed".to_string()));
    assert_eq!(classify_entry("index.ts", true), Some("index.ts".to_string()));
    assert_eq!(classify_entry("x.d.ts", false), None);
    assert_eq!(classify_entry("bundle.map", false), None);
}

#[test]
fn typescript_table_resolves_alias_roots() {
    let mut config = create_test_config();
    config.aliases.ui = Some("$lib/components/ui".to_string());
    let resolved = uiget::config::ResolvedPaths {
        paths: vec![("$lib".to_string(), "src/lib".to_string())],
        base_url: ".".to_string(),
    };
    let installer = ComponentInstaller::new(config, Some(resolved), None);
    let context = ComponentContext {
        name: "button".to_string(),
        component_type: Some("registry:ui".to_string()),
        registry: None,
    };
    assert_eq!(
        installer.resolve_file_path("button/button.svelte", &context),
        "src/lib/components/ui/button/button.svelte"
    );
}
