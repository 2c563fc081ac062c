use uiget::config::{
    merge_tsconfig, parse_path_config, CompilerOptions, Config, RegistryConfig, TsConfig,
};

fn paths(entries: &[(&str, &[&str])]) -> Vec<(String, Vec<String>)> {
    entries
        .iter()
        .map(|(k, ts)| {
            (
                k.to_string(),
                ts.iter().map(|t| t.to_string()).collect::<Vec<String>>(),
            )
        })
        .collect()
}

#[test]
fn test_get_registry_url() {
    let mut config = Config::default();
    config.set_registry(
        "custom".to_string(),
        "https://custom-registry.com".to_string(),
    );

    assert_eq!(
        config.get_registry_url("custom"),
        Some("https://custom-registry.com")
    );
    assert_eq!(
        config.get_registry_url("nonexistent"),
        Some("https://shadcn-svelte.com/registry/{name}.json")
    );
}

#[test]
fn test_registry_config_schema() {
    let string_config = RegistryConfig::String("https://example.com/{name}".to_string());
    assert_eq!(string_config.url(), "https://example.com/{name}");
    assert!(string_config.params().is_none());
    assert!(string_config.headers().is_none());

    let params = vec![("api_key".to_string(), "test-key".to_string())];
    let headers = vec![("Authorization".to_string(), "Bearer token".to_string())];

    let object_config = RegistryConfig::Object {
        url: "https://api.example.com/components/{name}".to_string(),
        params: Some(params.clone()),
        headers: Some(headers.clone()),
    };

    assert_eq!(object_config.url(), "https://api.example.com/components/{name}");
    assert_eq!(object_config.params(), Some(&params));
    assert_eq!(object_config.headers(), Some(&headers));
}

#[test]
fn test_config_with_new_registry_schema() {
    let mut config = Config::default();

    config.set_registry("simple".to_string(), "https://simple.com".to_string());

    let params = vec![("version".to_string(), "v1".to_string())];
    let headers = vec![("User-Agent".to_string(), "uiget-test".to_string())];

    config.set_registry_with_config(
        "complex".to_string(),
        "https://api.complex.com/registry/{name}".to_string(),
        Some(params),
        Some(headers),
    );

    assert_eq!(config.get_registry_url("simple"), Some("https://simple.com"));
    assert_eq!(
        config.get_registry_url("complex"),
        Some("https://api.complex.com/registry/{name}")
    );

    let complex_config = config.get_registry("complex").unwrap();
    assert!(complex_config.params().is_some());
    assert!(complex_config.headers().is_some());
}

#[test]
fn test_style_configuration() {
    let mut config = Config::default();
    config.style = Some("new-york".to_string());
    assert_eq!(config.style, Some("new-york".to_string()));
}

#[test]
fn merge_child_key_wins() {
    let child = TsConfig {
        extends: None,
        compiler_options: Some(CompilerOptions {
            paths: Some(paths(&[("A", &["Y"])])),
            base_url: None,
        }),
    };
    let parent = TsConfig {
        extends: None,
        compiler_options: Some(CompilerOptions {
            paths: Some(paths(&[("A", &["X"])])),
            base_url: Some("base".to_string()),
        }),
    };
    let merged = merge_tsconfig(child, parent);
    let co = merged.compiler_options.unwrap();
    let table = co.paths.unwrap();
    assert_eq!(table.len(), 1);
    assert_eq!(table[0].0, "A");
    assert_eq!(table[0].1, vec!["Y"]);
    assert_eq!(co.base_url, Some("base".to_string()));
}

#[test]
fn merge_takes_union_of_keys() {
    let child = TsConfig {
        extends: None,
        compiler_options: Some(CompilerOptions {
            paths: Some(paths(&[("B", &["Z"])])),
            base_url: Some("childbase".to_string()),
        }),
    };
    let parent = TsConfig {
        extends: None,
        compiler_options: Some(CompilerOptions {
            paths: Some(paths(&[("A", &["X"])])),
            base_url: Some("parentbase".to_string()),
        }),
    };
    let merged = merge_tsconfig(child, parent);
    let co = merged.compiler_options.unwrap();
    let table = co.paths.unwrap();
    assert_eq!(table.len(), 2);
    assert_eq!(table[0].0, "B");
    assert_eq!(table[0].1, vec!["Z"]);
    assert_eq!(table[1].0, "A");
    assert_eq!(table[1].1, vec!["X"]);
    assert_eq!(co.base_url, Some("childbase".to_string()));
}

#[test]
fn merge_same_table_changes_nothing() {
    let mk = || TsConfig {
        extends: None,
        compiler_options: Some(CompilerOptions {
            paths: Some(paths(&[("$lib", &["./src/lib"]), ("$ui", &["./src/ui"])])),
            base_url: Some(".".to_string()),
        }),
    };
    let merged = merge_tsconfig(mk(), mk());
    let co = merged.compiler_options.unwrap();
    let table = co.paths.unwrap();
    assert_eq!(table.len(), 2);
    assert_eq!(table[0].0, "$lib");
    assert_eq!(table[1].0, "$ui");
}

#[test]
fn path_config_parse_tolerates_comments_and_commas() {
    let text = r#"{
        // a path-mapping file with relaxed syntax
        "compilerOptions": {
            "baseUrl": ".",
            "paths": {
                "$lib/*": ["./src/lib/*"],
            },
        },
    }"#;
    let cfg = parse_path_config(text).unwrap();
    let co = cfg.compiler_options.unwrap();
    assert_eq!(co.base_url, Some(".".to_string()));
    let table = co.paths.unwrap();
    assert_eq!(table.len(), 1);
    assert_eq!(table[0].0, "$lib/*");
    assert_eq!(table[0].1, vec!["./src/lib/*"]);
    assert!(cfg.extends.is_none());

    assert!(parse_path_config("{ not valid").is_none());
}

#[test]
fn path_config_extends_link() {
    let text = r#"{ "extends": "../tsconfig.base.json" }"#;
    let cfg = parse_path_config(text).unwrap();
    assert_eq!(cfg.extends, Some("../tsconfig.base.json".to_string()));
}

#[test]
fn resolve_typescript_paths_maps_aliases() {
    let config = Config::default();
    let chain = vec![TsConfig {
        extends: None,
        compiler_options: Some(CompilerOptions {
            paths: Some(paths(&[("$lib/*", &["./src/lib/*"])])),
            base_url: Some(".".to_string()),
        }),
    }];
    let resolved = config.resolve_typescript_paths(chain, "", "/elsewhere").unwrap();
    assert_eq!(resolved.base_url, ".");
    assert_eq!(resolved.paths.len(), 1);
    assert_eq!(resolved.paths[0].0, "$lib");
    assert_eq!(resolved.paths[0].1, "src/lib");
}

#[test]
fn simplify_path_is_lexical() {
    let config = Config::default();
    assert_eq!(config.simplify_path("a/b/../c"), "a/c");
    assert_eq!(config.simplify_path("./a//b/."), "a/b");
    assert_eq!(config.simplify_path("a/.."), ".");
    assert_eq!(config.simplify_path("../x"), "x");
}

#[test]
fn extends_chain_is_merged_child_first() {
    let config = Config::default();
    let child = TsConfig {
        extends: Some("../base.json".to_string()),
        compiler_options: Some(CompilerOptions {
            paths: Some(paths(&[("$lib/*", &["./src/lib/*"])])),
            base_url: None,
        }),
    };
    let parent = TsConfig {
        extends: None,
        compiler_options: Some(CompilerOptions {
            paths: Some(paths(&[("$lib/*", &["./elsewhere/*"]), ("$app/*", &["./src/app/*"])])),
            base_url: Some(".".to_string()),
        }),
    };
    let next = uiget::config::next_config_request(&child, "cfg");
    assert_eq!(next, Some("cfg/../base.json".to_string()));
    let resolved = config
        .resolve_typescript_paths(vec![child, parent], "", "/elsewhere")
        .unwrap();
    assert_eq!(resolved.base_url, ".");
    assert_eq!(resolved.paths.len(), 2);
    assert_eq!(resolved.paths[0], ("$lib".to_string(), "src/lib".to_string()));
    assert_eq!(resolved.paths[1], ("$app".to_string(), "src/app".to_string()));
}
