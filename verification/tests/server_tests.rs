use std::collections::HashMap;

use hangar::server::{ConfigQuery, DebounceGate, LiveConfigState, ReloadError};
use hangar::types::ClashConfig;

fn config_with_rule(rule: &str) -> ClashConfig {
    ClashConfig {
        base_config: HashMap::new(),
        proxies: Vec::new(),
        proxy_groups: Vec::new(),
        rules: vec![rule.to_string()],
        rule_providers: None,
    }
}

#[test]
fn test_debounce_burst_triggers_once() {
    // five events 10 ms apart within a 100 ms window: exactly one reload
    let mut gate = DebounceGate::new(0, 100);
    let events = [200u64, 210, 220, 230, 240];
    let fired: Vec<bool> = events.iter().map(|t| gate.note_event(*t)).collect();
    assert_eq!(fired.iter().filter(|f| **f).count(), 1);
    assert_eq!(fired, vec![true, false, false, false, false]);
}

#[test]
fn test_debounce_fires_again_after_window() {
    let mut gate = DebounceGate::new(0, 100);
    assert!(gate.note_event(150));
    assert!(!gate.note_event(200));
    assert!(gate.note_event(300));
}

#[test]
fn test_reload_replaces_wholesale() {
    let mut state = LiveConfigState::new(config_with_rule("MATCH,DIRECT"));
    let result = state.reload_from_parsed(Some(config_with_rule("MATCH,Proxy")));
    assert!(result.is_ok());
    assert_eq!(state.read().rules, vec!["MATCH,Proxy"]);
}

#[test]
fn test_reload_parse_error_keeps_state() {
    let mut state = LiveConfigState::new(config_with_rule("MATCH,DIRECT"));
    let result = state.reload_from_parsed(None);
    assert_eq!(result, Err(ReloadError::ReloadParseError));
    assert_eq!(state.read().rules, vec!["MATCH,DIRECT"]);
}

#[test]
fn test_refresh_with_swaps_config() {
    let mut state = LiveConfigState::new(config_with_rule("MATCH,DIRECT"));
    state.refresh_with(config_with_rule("GEOIP,CN,DIRECT"));
    assert_eq!(state.read().rules, vec!["GEOIP,CN,DIRECT"]);
}

#[test]
fn test_config_query_flag() {
    let q = ConfigQuery { refresh: Some(true) };
    assert_eq!(q.refresh, Some(true));
    let q2 = ConfigQuery { refresh: None };
    assert!(q2.refresh.is_none());
}
