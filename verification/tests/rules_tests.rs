use hangar::rules::{
    add_rule_source, generate_default_rules, generate_rule_providers, get_default_builtin_rules,
    remove_rule_source, RuleError, RuleSource,
};

fn source(id: &str, name: &str, url: &str, enabled: bool) -> RuleSource {
    RuleSource {
        id: id.to_string(),
        name: name.to_string(),
        url: url.to_string(),
        enabled,
        last_updated: None,
    }
}

#[test]
fn test_get_default_builtin_rules() {
    let rules = get_default_builtin_rules();
    assert_eq!(rules.len(), 10);
    assert!(rules.iter().any(|r| r.name == "reject"));
    assert!(rules.iter().any(|r| r.name == "proxy"));
    assert!(rules.iter().any(|r| r.name == "direct"));
}

#[test]
fn test_generate_rule_providers() {
    let providers = generate_rule_providers(&Vec::new());
    assert!(providers.iter().any(|(k, _)| k == "reject"));
    assert!(providers.iter().any(|(k, _)| k == "proxy"));
    assert!(providers.iter().any(|(k, _)| k == "direct"));
}

#[test]
fn test_generate_rule_providers_custom_source() {
    let sources = vec![
        source("id1", "My Rules", "https://example.com/mycidr.txt", true),
        source("id2", "Off", "https://example.com/other.txt", false),
    ];
    let providers = generate_rule_providers(&sources);
    // 10 builtin entries plus the one enabled source
    assert_eq!(providers.len(), 11);
    let (key, provider) = &providers[10];
    // key is the lowercased name with spaces replaced
    assert_eq!(key, "my_rules");
    // "cidr" in the URL selects the ipcidr behavior
    assert_eq!(provider.behavior, "ipcidr");
    assert_eq!(provider.provider_type, "http");
    assert_eq!(provider.path, "./ruleset/custom_id1.yaml");
    assert_eq!(provider.interval, 86400);
}

#[test]
fn test_generate_default_rules() {
    let rules = generate_default_rules();
    assert_eq!(
        rules,
        vec![
            "RULE-SET,reject,REJECT".to_string(),
            "RULE-SET,proxy,Proxy".to_string(),
            "RULE-SET,direct,DIRECT".to_string(),
            "RULE-SET,telegramcidr,Proxy".to_string(),
            "GEOIP,CN,DIRECT".to_string(),
            "MATCH,Proxy".to_string(),
        ]
    );
}

#[test]
fn test_add_rule_source_duplicate_url() {
    let mut sources = vec![source("a", "A", "https://example.com/a.txt", true)];
    let result = add_rule_source(
        &mut sources,
        source("b", "B", "https://example.com/a.txt", true),
    );
    assert_eq!(result, Err(RuleError::DuplicateUrl));
    assert_eq!(sources.len(), 1);
}

#[test]
fn test_add_rule_source_appends() {
    let mut sources = vec![source("a", "A", "https://example.com/a.txt", true)];
    let result = add_rule_source(
        &mut sources,
        source("b", "B", "https://example.com/b.txt", true),
    );
    assert!(result.is_ok());
    assert_eq!(sources.len(), 2);
    assert_eq!(sources[1].id, "b");
}

#[test]
fn test_remove_rule_source_not_found() {
    let mut sources = vec![source("a", "A", "https://example.com/a.txt", true)];
    let result = remove_rule_source(&mut sources, "missing");
    assert_eq!(result, Err(RuleError::SourceNotFound));
    assert_eq!(sources.len(), 1);
}

#[test]
fn test_remove_rule_source_removes() {
    let mut sources = vec![
        source("a", "A", "https://example.com/a.txt", true),
        source("b", "B", "https://example.com/b.txt", true),
    ];
    let result = remove_rule_source(&mut sources, "a");
    assert!(result.is_ok());
    assert_eq!(sources.len(), 1);
    assert_eq!(sources[0].id, "b");
}
