//! The data model: subscriptions, proxy nodes, routing groups, the merged
//! configuration, and snapshot metadata.
//!
//! Opaque pass-through data (extra per-node fields, base configuration
//! settings, rule providers) is carried as dynamic values of serde_json /
//! serde_yaml; this crate never looks inside them, it only moves them.

use vstd::prelude::*;
use std::collections::HashMap;

verus! {

/// serde_yaml's dynamic value type, declared so it can be carried opaquely
/// in configuration fields. No method of it is called here.
#[verifier::external_type_specification]
#[verifier::external_body]
pub struct ExYamlValue(serde_yaml::Value);

/// serde_json's dynamic value type, declared so it can be carried opaquely
/// in per-node extra fields. No method of it is called here.
#[verifier::external_type_specification]
#[verifier::external_body]
pub struct ExJsonValue(serde_json::Value);

/// A named remote source of proxy node definitions.
pub struct Subscription {
    pub id: String,
    pub name: String,
    pub url: String,
    pub enabled: bool,
    pub last_updated: Option<String>,
    pub node_count: Option<usize>,
}

/// One proxy endpoint, with a display name, a derived region tag, and
/// opaque extra fields passed through to the output.
pub struct ProxyNode {
    pub name: String,
    pub proxy_type: String,
    pub server: String,
    pub port: u16,
    pub region: Option<String>,
    pub airport: String,
    pub extra: HashMap<String, serde_json::Value>,
}

/// Mathematical value of a `ProxyNode`.
#[verifier::ext_equal]
pub ghost struct NodeV {
    pub name: Seq<char>,
    pub proxy_type: Seq<char>,
    pub server: Seq<char>,
    pub port: u16,
    pub region: Option<Seq<char>>,
    pub airport: Seq<char>,
    pub extra: Map<String, serde_json::Value>,
}

impl View for ProxyNode {
    type V = NodeV;

    open spec fn view(&self) -> NodeV {
        NodeV {
            name: self.name@,
            proxy_type: self.proxy_type@,
            server: self.server@,
            port: self.port,
            region: self.region.deep_view(),
            airport: self.airport@,
            extra: self.extra@,
        }
    }
}

impl DeepView for ProxyNode {
    type V = NodeV;

    open spec fn deep_view(&self) -> NodeV {
        self.view()
    }
}

/// A named selectable set of nodes or groups used for routing decisions.
pub struct ProxyGroup {
    pub name: String,
    pub group_type: String,
    pub proxies: Vec<String>,
    pub extra: HashMap<String, serde_json::Value>,
}

/// Mathematical value of a `ProxyGroup`.
#[verifier::ext_equal]
pub ghost struct GroupV {
    pub name: Seq<char>,
    pub group_type: Seq<char>,
    pub proxies: Seq<Seq<char>>,
    pub extra: Map<String, serde_json::Value>,
}

impl View for ProxyGroup {
    type V = GroupV;

    open spec fn view(&self) -> GroupV {
        GroupV {
            name: self.name@,
            group_type: self.group_type@,
            proxies: self.proxies.deep_view(),
            extra: self.extra@,
        }
    }
}

impl DeepView for ProxyGroup {
    type V = GroupV;

    open spec fn deep_view(&self) -> GroupV {
        self.view()
    }
}

/// The synthesized configuration: opaque base settings, nodes, groups,
/// routing rules, and optional rule providers. Produced fresh by every
/// merge and replaced wholesale, never mutated in place.
pub struct ClashConfig {
    pub base_config: HashMap<String, serde_yaml::Value>,
    pub proxies: Vec<ProxyNode>,
    pub proxy_groups: Vec<ProxyGroup>,
    pub rules: Vec<String>,
    pub rule_providers: Option<HashMap<String, serde_yaml::Value>>,
}

/// Mathematical value of a `ClashConfig`.
#[verifier::ext_equal]
pub ghost struct ConfigV {
    pub base_config: Map<String, serde_yaml::Value>,
    pub proxies: Seq<NodeV>,
    pub proxy_groups: Seq<GroupV>,
    pub rules: Seq<Seq<char>>,
    pub rule_providers: Option<Map<String, serde_yaml::Value>>,
}

impl View for ClashConfig {
    type V = ConfigV;

    open spec fn view(&self) -> ConfigV {
        ConfigV {
            base_config: self.base_config@,
            proxies: self.proxies.deep_view(),
            proxy_groups: self.proxy_groups.deep_view(),
            rules: self.rules.deep_view(),
            rule_providers: match self.rule_providers {
                Some(ref m) => Some(m@),
                None => None,
            },
        }
    }
}

/// Settings of the LLM collaborator that generates configuration patches.
/// The patch generation itself is outside this crate.
pub struct LlmConfig {
    pub base_url: String,
    pub api_key: String,
    pub model: String,
}

impl Default for LlmConfig {
    fn default() -> (r: Self)
        ensures
            r.base_url@ == "https://api.openai.com/v1"@,
            r.api_key@ == Seq::<char>::empty(),
            r.model@ == "gpt-4o"@,
    {
        LlmConfig {
            base_url: String::from_str("https://api.openai.com/v1"),
            api_key: String::new(),
            model: String::from_str("gpt-4o"),
        }
    }
}

/// Host and port the configuration server binds to.
pub struct ServerConfig {
    pub port: u16,
    pub host: String,
}

impl Default for ServerConfig {
    fn default() -> (r: Self)
        ensures
            r.port == 8080,
            r.host@ == "127.0.0.1"@,
    {
        ServerConfig { port: 8080, host: String::from_str("127.0.0.1") }
    }
}

/// Application-wide settings persisted by the installation.
pub struct HangarConfig {
    pub llm: LlmConfig,
    pub server: ServerConfig,
    pub rule_sources: Vec<String>,
}

impl Default for HangarConfig {
    fn default() -> (r: Self)
        ensures
            r.llm.base_url@ == "https://api.openai.com/v1"@,
            r.llm.api_key@ == Seq::<char>::empty(),
            r.llm.model@ == "gpt-4o"@,
            r.server.port == 8080,
            r.server.host@ == "127.0.0.1"@,
            r.rule_sources@ == Seq::<String>::empty(),
    {
        HangarConfig {
            llm: LlmConfig::default(),
            server: ServerConfig::default(),
            rule_sources: Vec::new(),
        }
    }
}

/// A persisted list of subscriptions.
pub struct SubscriptionList {
    pub subscriptions: Vec<Subscription>,
}

/// Metadata of one snapshot, as shown in listings.
pub struct ConfigVersion {
    pub id: String,
    pub timestamp: i64,
    pub description: String,
    pub file_path: String,
}

/// Mathematical value of a `ConfigVersion`.
#[verifier::ext_equal]
pub ghost struct ConfigVersionV {
    pub id: Seq<char>,
    pub timestamp: i64,
    pub description: Seq<char>,
    pub file_path: Seq<char>,
}

impl View for ConfigVersion {
    type V = ConfigVersionV;

    open spec fn view(&self) -> ConfigVersionV {
        ConfigVersionV {
            id: self.id@,
            timestamp: self.timestamp,
            description: self.description@,
            file_path: self.file_path@,
        }
    }
}

impl DeepView for ConfigVersion {
    type V = ConfigVersionV;

    open spec fn deep_view(&self) -> ConfigVersionV {
        self.view()
    }
}

/// One in-memory notification shown to the user.
pub struct Notification {
    pub id: String,
    pub title: String,
    pub message: String,
    pub timestamp: i64,
    pub is_read: bool,
    pub severity: String,
}

} // verus!
