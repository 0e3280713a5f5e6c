use hangar::config::{BasicConfigPath, OutputConfig, ServerConfig};

#[test]
fn test_server_config_default() {
    let config = ServerConfig::default();
    assert_eq!(config.port, 8080);
    assert_eq!(config.host, "127.0.0.1");
}

#[test]
fn test_output_config_default() {
    let config = OutputConfig::default();
    assert_eq!(config.path, "output_config.yaml");
}

#[test]
fn test_basic_config_path_default() {
    let config = BasicConfigPath::default();
    assert_eq!(config.path, "basic.yml");
}

#[test]
fn test_hangar_config_default() {
    let config = hangar::types::HangarConfig::default();
    assert_eq!(config.server.port, 8080);
    assert_eq!(config.server.host, "127.0.0.1");
    assert_eq!(config.llm.base_url, "https://api.openai.com/v1");
    assert_eq!(config.llm.model, "gpt-4o");
    assert!(config.llm.api_key.is_empty());
    assert!(config.rule_sources.is_empty());
}

#[test]
fn test_storage_paths() {
    assert_eq!(
        hangar::storage::get_config_path("/home/u/.hangar"),
        "/home/u/.hangar/config.json"
    );
    assert_eq!(
        hangar::storage::get_subscriptions_path("/home/u/.hangar"),
        "/home/u/.hangar/subscriptions.json"
    );
    assert_eq!(
        hangar::storage::get_current_config_path("/home/u/.hangar"),
        "/home/u/.hangar/current.yaml"
    );
}
