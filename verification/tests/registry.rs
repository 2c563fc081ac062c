use uiget::registry::{
    bucket_by_category, component_url, fetch_probe_order, index_url_candidates, search_matches,
    Component, ComponentFile, ComponentInfo, RegistryIndex,
};

fn info(name: &str, ctype: Option<&str>) -> ComponentInfo {
    ComponentInfo {
        name: name.to_string(),
        component_type: ctype.map(|t| t.to_string()),
        dependencies: None,
        registry_dependencies: None,
        dev_dependencies: None,
        relative_url: None,
    }
}

#[test]
fn target_path_prefers_non_empty_target() {
    let f = ComponentFile {
        content: String::new(),
        file_type: None,
        target: Some("button/button.tsx".to_string()),
        path: Some("ignored".to_string()),
    };
    assert_eq!(f.get_target_path(), "button/button.tsx");

    let f = ComponentFile {
        content: String::new(),
        file_type: None,
        target: Some(String::new()),
        path: Some("fallback.ts".to_string()),
    };
    assert_eq!(f.get_target_path(), "fallback.ts");

    let f = ComponentFile {
        content: String::new(),
        file_type: None,
        target: None,
        path: None,
    };
    assert_eq!(f.get_target_path(), "");
}

#[test]
fn index_shapes_agree() {
    let array = RegistryIndex::Array(vec![info("a", None), info("b", None)]);
    assert_eq!(array.len(), 2);
    assert!(!array.is_empty());
    assert_eq!(array.as_slice().len(), 2);
    let v = array.to_vec();
    assert_eq!(v[0].name, "a");
    assert_eq!(v[1].name, "b");

    let object = RegistryIndex::Object(vec![
        ("a".to_string(), info("a", None)),
        ("b".to_string(), info("b", None)),
    ]);
    assert_eq!(object.len(), 2);
    let v = object.to_vec();
    assert_eq!(v[0].name, "a");
    assert_eq!(v[1].name, "b");

    let empty = RegistryIndex::Array(vec![]);
    assert!(empty.is_empty());
}

#[test]
fn component_url_fills_placeholders() {
    let style = "new-york".to_string();
    assert_eq!(
        component_url(
            "https://example.com/styles/{style}/{name}.json",
            "button",
            Some(&style)
        ),
        "https://example.com/styles/new-york/button.json"
    );
    assert_eq!(
        component_url("https://example.com/r/{name}.json", "card", None),
        "https://example.com/r/card.json"
    );
}

#[test]
fn probe_order_prefers_defaults() {
    let ns = vec![
        "extra".to_string(),
        "@default".to_string(),
        "default".to_string(),
        "other".to_string(),
    ];
    assert_eq!(
        fetch_probe_order(&ns),
        vec!["default", "@default", "extra", "other"]
    );

    let ns = vec!["solo".to_string()];
    assert_eq!(fetch_probe_order(&ns), vec!["solo"]);
}

#[test]
fn index_candidates_for_plain_registry() {
    let urls = index_url_candidates("https://example.com/registry/{name}.json", None);
    assert_eq!(
        urls,
        vec![
            "https://example.com/registry/index.json",
            "https://example.com/registry/index.json",
            "https://example.com/registry/registry/index.json",
        ]
    );
}

#[test]
fn index_candidates_for_styled_registry() {
    let style = "new-york".to_string();
    let urls = index_url_candidates("https://example.com/{style}/{name}.json", Some(&style));
    assert_eq!(
        urls,
        vec![
            "https://example.com/new-york/index.json",
            "https://example.com/new-york/index.json",
            "https://example.com/new-york/index.json",
            "https://example.com/new-york/registry/index.json",
        ]
    );
}

#[test]
fn search_matches_names_and_categories() {
    let entries = vec![
        info("button", Some("registry:ui")),
        info("use-toast", Some("registry:hook")),
        info("Card", None),
    ];
    assert_eq!(search_matches(&entries, "BUT"), vec![0]);
    assert_eq!(search_matches(&entries, "hook"), vec![1]);
    assert_eq!(search_matches(&entries, "card"), vec![2]);
    assert_eq!(search_matches(&entries, "zzz"), Vec::<usize>::new());
}

#[test]
fn component_carries_fields() {
    let c = Component {
        schema: None,
        name: "button".to_string(),
        component_type: Some("registry:ui".to_string()),
        dependencies: Some(vec!["left-pad".to_string()]),
        dev_dependencies: None,
        registry_dependencies: Some(vec!["utils".to_string()]),
        files: vec![],
        registry: Some("default".to_string()),
    };
    assert_eq!(c.name, "button");
    assert_eq!(c.registry_dependencies.unwrap(), vec!["utils"]);
}

#[test]
fn categories_bucket_in_menu_order() {
    let entries = vec![
        info("dialog", Some("registry:ui")),
        info("hero", Some("registry:block")),
        info("use-toast", Some("registry:hook")),
        info("utils", Some("registry:lib")),
        info("misc", Some("registry:style")),
        info("plain", None),
        info("button", Some("registry:ui")),
    ];
    let buckets = bucket_by_category(&entries);
    assert_eq!(buckets.len(), 5);
    assert_eq!(buckets[0], vec![0, 6]);
    assert_eq!(buckets[1], vec![1]);
    assert_eq!(buckets[2], vec![2]);
    assert_eq!(buckets[3], vec![3]);
    assert_eq!(buckets[4], vec![4, 5]);
}
