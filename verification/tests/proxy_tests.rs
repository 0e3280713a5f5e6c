use std::collections::HashMap;

use hangar::proxy::{
    create_region_groups, create_service_groups, expand_template_groups, merge_configs,
    synthesize_ai_priority_order, MergeError,
};
use hangar::types::{ClashConfig, ProxyGroup, ProxyNode, Subscription};

fn node(name: &str, region: Option<&str>) -> ProxyNode {
    ProxyNode {
        name: name.to_string(),
        proxy_type: "ss".to_string(),
        server: "example.com".to_string(),
        port: 443,
        region: region.map(|r| r.to_string()),
        airport: String::new(),
        extra: HashMap::new(),
    }
}

fn sub(name: &str, enabled: bool) -> Subscription {
    Subscription {
        id: format!("id-{name}"),
        name: name.to_string(),
        url: format!("https://example.com/{name}"),
        enabled,
        last_updated: None,
        node_count: None,
    }
}

fn base_config() -> ClashConfig {
    ClashConfig {
        base_config: HashMap::new(),
        proxies: vec![node("static-node", None)],
        proxy_groups: Vec::new(),
        rules: vec!["MATCH,DIRECT".to_string()],
        rule_providers: None,
    }
}

#[test]
fn test_create_region_groups_orders_by_appearance() {
    let nodes = vec![
        node("tw-1", Some("TW")),
        node("hk-1", Some("HK")),
        node("tw-2", Some("TW")),
        node("plain", None),
    ];
    let groups = create_region_groups(&nodes);
    assert_eq!(groups.len(), 2);
    assert_eq!(groups[0].name, "TW 地区");
    assert_eq!(groups[0].group_type, "select");
    assert_eq!(groups[0].proxies, vec!["tw-1", "tw-2"]);
    assert_eq!(groups[1].name, "HK 地区");
    assert_eq!(groups[1].proxies, vec!["hk-1"]);
}

#[test]
fn test_create_region_groups_reproducible() {
    let nodes = vec![
        node("a", Some("US")),
        node("b", Some("JP")),
        node("c", Some("US")),
    ];
    let first = create_region_groups(&nodes);
    let second = create_region_groups(&nodes);
    assert_eq!(first.len(), second.len());
    for (x, y) in first.iter().zip(second.iter()) {
        assert_eq!(x.name, y.name);
        assert_eq!(x.proxies, y.proxies);
    }
}

#[test]
fn test_create_service_groups() {
    let nodes = vec![
        node("us-1", Some("US")),
        node("hk-1", Some("HK")),
        node("ru-1", Some("RU")),
    ];
    let all_names: Vec<String> = nodes.iter().map(|n| n.name.clone()).collect();
    let groups = create_service_groups(&all_names, &nodes);
    let names: Vec<&str> = groups.iter().map(|g| g.name.as_str()).collect();
    assert_eq!(
        names,
        vec!["节点选择", "ChatGPT", "Gemini", "Google", "Netflix", "Telegram"]
    );
    let chatgpt = &groups[1];
    assert_eq!(chatgpt.proxies, vec!["us-1"]);
    let gemini = &groups[2];
    assert_eq!(gemini.proxies, vec!["us-1", "hk-1"]);
    assert_eq!(groups[0].proxies, all_names);
}

#[test]
fn test_synthesize_ai_priority_order() {
    let codes = vec!["HK".to_string(), "JP".to_string(), "US".to_string()];
    let order = synthesize_ai_priority_order(&codes);
    // US before JP by the fixed priority table; HK is not AI-capable
    assert_eq!(order, vec!["US 地区", "JP 地区"]);
}

#[test]
fn test_expand_template_groups() {
    let template = vec![
        ProxyGroup {
            name: "自动选择".to_string(),
            group_type: "url-test".to_string(),
            proxies: vec!["manual".to_string()],
            extra: HashMap::new(),
        },
        ProxyGroup {
            name: "Streaming".to_string(),
            group_type: "select".to_string(),
            proxies: Vec::new(),
            extra: HashMap::new(),
        },
    ];
    let region_names = vec!["HK 地区".to_string(), "US 地区".to_string()];
    let ai_names = vec!["US 地区".to_string()];
    let expanded = expand_template_groups(template, &region_names, &ai_names);
    assert_eq!(expanded.len(), 2);
    // the marker group gets only the AI-priority names appended
    assert_eq!(expanded[0].proxies, vec!["manual", "US 地区"]);
    // every other group gets all region-group names appended
    assert_eq!(expanded[1].proxies, vec!["HK 地区", "US 地区"]);
}

#[test]
fn test_merge_missing_base_config() {
    let subs = vec![sub("A", true)];
    let caches = vec![Some(Vec::new())];
    let result = merge_configs(&subs, None, Vec::new(), caches);
    assert_eq!(result.err(), Some(MergeError::MissingBaseConfig));
}

#[test]
fn test_merge_scenario_enabled_and_disabled() {
    // A enabled with 3 HK nodes, B enabled with 2 US nodes, C disabled with 5
    let subs = vec![sub("A", true), sub("B", true), sub("C", false)];
    let caches = vec![
        Some(vec![
            node("香港-01", None),
            node("香港-02", None),
            node("香港-03", None),
        ]),
        Some(vec![node("美国-01", None), node("美国-02", None)]),
        Some(vec![
            node("c1", None),
            node("c2", None),
            node("c3", None),
            node("c4", None),
            node("c5", None),
        ]),
    ];
    let merged = merge_configs(&subs, Some(base_config()), Vec::new(), caches).unwrap();

    // base count (1) plus the five enabled nodes
    assert_eq!(merged.proxies.len(), 1 + 5);

    let hk_group = merged
        .proxy_groups
        .iter()
        .find(|g| g.name == "HK 地区")
        .expect("HK group present");
    assert_eq!(
        hk_group.proxies,
        vec!["[A] 香港-01", "[A] 香港-02", "[A] 香港-03"]
    );

    let us_group = merged
        .proxy_groups
        .iter()
        .find(|g| g.name == "US 地区")
        .expect("US group present");
    assert_eq!(us_group.proxies, vec!["[B] 美国-01", "[B] 美国-02"]);

    // no group contains any node of the disabled subscription
    for g in &merged.proxy_groups {
        for member in &g.proxies {
            assert!(!member.contains("[C]"));
        }
    }

    // pass-through fields survive the merge
    assert_eq!(merged.rules, vec!["MATCH,DIRECT"]);
    assert!(merged.rule_providers.is_none());
}

#[test]
fn test_merge_unreadable_cache_is_skipped() {
    let subs = vec![sub("A", true), sub("B", true)];
    let caches = vec![None, Some(vec![node("日本-01", None)])];
    let merged = merge_configs(&subs, Some(base_config()), Vec::new(), caches).unwrap();
    assert_eq!(merged.proxies.len(), 2);
    assert_eq!(merged.proxies[1].name, "[B] 日本-01");
    assert_eq!(merged.proxies[1].region.as_deref(), Some("JP"));
    assert_eq!(merged.proxies[1].airport, "B");
}
