//! Routing rule sources: the built-in rule table, the user-managed list of
//! extra rule sources, and the rule-provider section derived from both.
//! Downloading rule files is the caller's concern.

use vstd::prelude::*;
use crate::text::{has_substring, lower_of, replace_spaces, str_contains, to_lower, underscore_spaces};

verus! {

/// One built-in rule definition.
pub struct BuiltinRule {
    pub name: String,
    pub description: String,
    pub url: String,
    pub behavior: String,
}

/// Mathematical value of a `BuiltinRule`.
#[verifier::ext_equal]
pub ghost struct BuiltinRuleV {
    pub name: Seq<char>,
    pub description: Seq<char>,
    pub url: Seq<char>,
    pub behavior: Seq<char>,
}

impl View for BuiltinRule {
    type V = BuiltinRuleV;

    open spec fn view(&self) -> BuiltinRuleV {
        BuiltinRuleV {
            name: self.name@,
            description: self.description@,
            url: self.url@,
            behavior: self.behavior@,
        }
    }
}

impl DeepView for BuiltinRule {
    type V = BuiltinRuleV;

    open spec fn deep_view(&self) -> BuiltinRuleV {
        self.view()
    }
}

/// One user-managed rule source.
pub struct RuleSource {
    pub id: String,
    pub name: String,
    pub url: String,
    pub enabled: bool,
    pub last_updated: Option<String>,
}

/// Failures of rule-source management.
#[derive(Clone, Copy, Debug, PartialEq, Eq, Structural)]
pub enum RuleError {
    DuplicateUrl,
    SourceNotFound,
}

/// One entry of the built-in rule table.
pub open spec fn builtin_rule_v(
    name: Seq<char>,
    description: Seq<char>,
    url: Seq<char>,
    behavior: Seq<char>,
) -> BuiltinRuleV {
    BuiltinRuleV { name: name, description: description, url: url, behavior: behavior }
}

/// The fixed built-in rule table.
pub open spec fn builtin_rules_table() -> Seq<BuiltinRuleV> {
    seq![
        builtin_rule_v(
            "reject"@,
            "广告域名"@,
            "https://cdn.jsdelivr.net/gh/Loyalsoldier/clash-rules@release/reject.txt"@,
            "domain"@,
        ),
        builtin_rule_v(
            "proxy"@,
            "代理域名"@,
            "https://cdn.jsdelivr.net/gh/Loyalsoldier/clash-rules@release/proxy.txt"@,
            "domain"@,
        ),
        builtin_rule_v(
            "direct"@,
            "直连域名"@,
            "https://cdn.jsdelivr.net/gh/Loyalsoldier/clash-rules@release/direct.txt"@,
            "domain"@,
        ),
        builtin_rule_v(
            "gfw"@,
            "GFW 封锁域名"@,
            "https://cdn.jsdelivr.net/gh/Loyalsoldier/clash-rules@release/gfw.txt"@,
            "domain"@,
        ),
        builtin_rule_v(
            "greatfire"@,
            "GreatFire 域名"@,
            "https://cdn.jsdelivr.net/gh/Loyalsoldier/clash-rules@release/greatfire.txt"@,
            "domain"@,
        ),
        builtin_rule_v(
            "tld-not-cn"@,
            "非中国顶级域"@,
            "https://cdn.jsdelivr.net/gh/Loyalsoldier/clash-rules@release/tld-not-cn.txt"@,
            "domain"@,
        ),
        builtin_rule_v(
            "telegramcidr"@,
            "Telegram IP 段"@,
            "https://cdn.jsdelivr.net/gh/Loyalsoldier/clash-rules@release/telegramcidr.txt"@,
            "ipcidr"@,
        ),
        builtin_rule_v(
            "cncidr"@,
            "中国 IP 段"@,
            "https://cdn.jsdelivr.net/gh/Loyalsoldier/clash-rules@release/cncidr.txt"@,
            "ipcidr"@,
        ),
        builtin_rule_v(
            "lancidr"@,
            "局域网 IP 段"@,
            "https://cdn.jsdelivr.net/gh/Loyalsoldier/clash-rules@release/lancidr.txt"@,
            "ipcidr"@,
        ),
        builtin_rule_v(
            "applications"@,
            "需代理的程序"@,
            "https://cdn.jsdelivr.net/gh/Loyalsoldier/clash-rules@release/applications.txt"@,
            "classical"@,
        ),
    ]
}

fn builtin_rule(
    name: &str,
    description: &str,
    url: &str,
    behavior: &str,
) -> (r: BuiltinRule)
    ensures
        r@ == builtin_rule_v(name@, description@, url@, behavior@),
{
    BuiltinRule {
        name: String::from_str(name),
        description: String::from_str(description),
        url: String::from_str(url),
        behavior: String::from_str(behavior),
    }
}

/// The built-in rule definitions, in table order.
pub fn get_default_builtin_rules() -> (r: Vec<BuiltinRule>)
    ensures
        r.deep_view() == builtin_rules_table(),
{
    let mut r: Vec<BuiltinRule> = Vec::new();
    r.push(builtin_rule(
        "reject",
        "广告域名",
        "https://cdn.jsdelivr.net/gh/Loyalsoldier/clash-rules@release/reject.txt",
        "domain",
    ));
    r.push(builtin_rule(
        "proxy",
        "代理域名",
        "https://cdn.jsdelivr.net/gh/Loyalsoldier/clash-rules@release/proxy.txt",
        "domain",
    ));
    r.push(builtin_rule(
        "direct",
        "直连域名",
        "https://cdn.jsdelivr.net/gh/Loyalsoldier/clash-rules@release/direct.txt",
        "domain",
    ));
    r.push(builtin_rule(
        "gfw",
        "GFW 封锁域名",
        "https://cdn.jsdelivr.net/gh/Loyalsoldier/clash-rules@release/gfw.txt",
        "domain",
    ));
    r.push(builtin_rule(
        "greatfire",
        "GreatFire 域名",
        "https://cdn.jsdelivr.net/gh/Loyalsoldier/clash-rules@release/greatfire.txt",
        "domain",
    ));
    r.push(builtin_rule(
        "tld-not-cn",
        "非中国顶级域",
        "https://cdn.jsdelivr.net/gh/Loyalsoldier/clash-rules@release/tld-not-cn.txt",
        "domain",
    ));
    r.push(builtin_rule(
        "telegramcidr",
        "Telegram IP 段",
        "https://cdn.jsdelivr.net/gh/Loyalsoldier/clash-rules@release/telegramcidr.txt",
        "ipcidr",
    ));
    r.push(builtin_rule(
        "cncidr",
        "中国 IP 段",
        "https://cdn.jsdelivr.net/gh/Loyalsoldier/clash-rules@release/cncidr.txt",
        "ipcidr",
    ));
    r.push(builtin_rule(
        "lancidr",
        "局域网 IP 段",
        "https://cdn.jsdelivr.net/gh/Loyalsoldier/clash-rules@release/lancidr.txt",
        "ipcidr",
    ));
    r.push(builtin_rule(
        "applications",
        "需代理的程序",
        "https://cdn.jsdelivr.net/gh/Loyalsoldier/clash-rules@release/applications.txt",
        "classical",
    ));
    proof {
        assert(r.deep_view() =~~= builtin_rules_table());
    }
    r
}

/// The default routing rules referring to the built-in rule providers.
pub fn generate_default_rules() -> (r: Vec<String>)
    ensures
        crate::text::views(r@) == seq![
            "RULE-SET,reject,REJECT"@,
            "RULE-SET,proxy,Proxy"@,
            "RULE-SET,direct,DIRECT"@,
            "RULE-SET,telegramcidr,Proxy"@,
            "GEOIP,CN,DIRECT"@,
            "MATCH,Proxy"@,
        ],
{
    let mut r: Vec<String> = Vec::new();
    r.push(String::from_str("RULE-SET,reject,REJECT"));
    r.push(String::from_str("RULE-SET,proxy,Proxy"));
    r.push(String::from_str("RULE-SET,direct,DIRECT"));
    r.push(String::from_str("RULE-SET,telegramcidr,Proxy"));
    r.push(String::from_str("GEOIP,CN,DIRECT"));
    r.push(String::from_str("MATCH,Proxy"));
    proof {
        assert(crate::text::views(r@) =~~= seq![
            "RULE-SET,reject,REJECT"@,
            "RULE-SET,proxy,Proxy"@,
            "RULE-SET,direct,DIRECT"@,
            "RULE-SET,telegramcidr,Proxy"@,
            "GEOIP,CN,DIRECT"@,
            "MATCH,Proxy"@,
        ]);
    }
    r
}

/// Appends a new rule source after checking that no existing source has
/// the same URL; a duplicate URL leaves the list unchanged.
pub fn add_rule_source(sources: &mut Vec<RuleSource>, source: RuleSource) -> (r: Result<
    (),
    RuleError,
>)
    ensures
        (exists|j: int|
            0 <= j < old(sources)@.len() && (#[trigger] old(sources)@[j]).url@ == source.url@)
            ==> r == Err::<(), RuleError>(RuleError::DuplicateUrl) && final(sources)@ == old(
            sources,
        )@,
        (forall|j: int|
            0 <= j < old(sources)@.len() ==> (#[trigger] old(sources)@[j]).url@ != source.url@)
            ==> r is Ok && final(sources)@ == old(sources)@.push(source),
{
    let n = sources.len();
    let mut i: usize = 0;
    while i < n
        invariant
            n == sources@.len(),
            i <= n,
            sources == old(sources),
            forall|j: int| 0 <= j < i ==> (#[trigger] sources@[j]).url@ != source.url@,
        decreases n - i,
    {
        if crate::text::str_eq(sources[i].url.as_str(), source.url.as_str()) {
            return Err(RuleError::DuplicateUrl);
        }
        i = i + 1;
    }
    sources.push(source);
    Ok(())
}

/// Removes every rule source with the given id; an unknown id is an error
/// and leaves the list unchanged.
pub fn remove_rule_source(sources: &mut Vec<RuleSource>, id: &str) -> (r: Result<(), RuleError>)
    ensures
        (forall|j: int| 0 <= j < old(sources)@.len() ==> (#[trigger] old(sources)@[j]).id@ != id@)
            ==> r == Err::<(), RuleError>(RuleError::SourceNotFound) && final(sources)@ == old(
            sources,
        )@,
        (exists|j: int|
            0 <= j < old(sources)@.len() && (#[trigger] old(sources)@[j]).id@ == id@) ==> r is Ok
            && final(sources)@ == old(sources)@.filter(
            (|s: RuleSource| s.id@ != id@),
        ),
{
    let ghost pred = |s: RuleSource| s.id@ != id@;
    let n = sources.len();
    let mut kept: Vec<RuleSource> = Vec::new();
    let mut found = false;
    let mut i: usize = 0;
    proof {
        reveal(Seq::filter);
        assert(kept@ =~= sources@.take(0).filter(pred));
    }
    while i < n
        invariant
            n == sources@.len(),
            i <= n,
            sources == old(sources),
            pred == (|s: RuleSource| s.id@ != id@),
            kept@ == sources@.take(i as int).filter(pred),
            found <==> exists|j: int|
                0 <= j < i && (#[trigger] sources@[j]).id@ == id@,
        decreases n - i,
    {
        proof {
            reveal(Seq::filter);
            assert(sources@.take(i + 1).drop_last() =~= sources@.take(i as int));
            assert(sources@.take(i + 1).last() == sources@[i as int]);
        }
        let keep_it = !crate::text::str_eq(sources[i].id.as_str(), id);
        if keep_it {
            let s = RuleSource {
                id: sources[i].id.clone(),
                name: sources[i].name.clone(),
                url: sources[i].url.clone(),
                enabled: sources[i].enabled,
                last_updated: match &sources[i].last_updated {
                    Some(t) => Some(t.clone()),
                    None => None,
                },
            };
            kept.push(s);
            proof {
                assert(s == sources@[i as int]);
                assert(kept@ =~= sources@.take(i + 1).filter(pred));
            }
        } else {
            found = true;
            proof {
                assert(kept@ =~= sources@.take(i + 1).filter(pred));
            }
        }
        i = i + 1;
    }
    if !found {
        return Err(RuleError::SourceNotFound);
    }
    proof {
        assert(sources@.take(n as int) =~= sources@);
    }
    *sources = kept;
    Ok(())
}

/// One rule-provider entry of the output configuration.
pub struct RuleProviderConfig {
    pub provider_type: String,
    pub behavior: String,
    pub url: String,
    pub path: String,
    pub interval: u64,
}

/// Mathematical value of a `RuleProviderConfig`.
#[verifier::ext_equal]
pub ghost struct RuleProviderV {
    pub provider_type: Seq<char>,
    pub behavior: Seq<char>,
    pub url: Seq<char>,
    pub path: Seq<char>,
    pub interval: u64,
}

impl View for RuleProviderConfig {
    type V = RuleProviderV;

    open spec fn view(&self) -> RuleProviderV {
        RuleProviderV {
            provider_type: self.provider_type@,
            behavior: self.behavior@,
            url: self.url@,
            path: self.path@,
            interval: self.interval,
        }
    }
}

/// The behavior guessed for a custom source from its URL.
pub open spec fn behavior_guess(url: Seq<char>) -> Seq<char> {
    if has_substring(url, "cidr"@) || has_substring(url, "ip"@) {
        "ipcidr"@
    } else {
        "domain"@
    }
}

/// The provider entry of one built-in rule, keyed by its name.
pub open spec fn builtin_provider_of(r: BuiltinRuleV) -> (Seq<char>, RuleProviderV) {
    (
        r.name,
        RuleProviderV {
            provider_type: "http"@,
            behavior: r.behavior,
            url: r.url,
            path: "./ruleset/"@ + r.name + ".yaml"@,
            interval: 86400,
        },
    )
}

/// The provider entry of one custom source, keyed by its lowercased name
/// with spaces replaced by underscores.
pub open spec fn source_provider_of(s: RuleSource) -> (Seq<char>, RuleProviderV) {
    (
        underscore_spaces(lower_of(s.name@)),
        RuleProviderV {
            provider_type: "http"@,
            behavior: behavior_guess(s.url@),
            url: s.url@,
            path: "./ruleset/custom_"@ + s.id@ + ".yaml"@,
            interval: 86400,
        },
    )
}

/// Every rule-provider entry: one per built-in rule, then one per enabled
/// custom source, in order.
pub open spec fn spec_rule_providers(sources: Seq<RuleSource>) -> Seq<(Seq<char>, RuleProviderV)> {
    builtin_rules_table().map_values(|r: BuiltinRuleV| builtin_provider_of(r))
        + sources.filter(|s: RuleSource| s.enabled).map_values(
        |s: RuleSource| source_provider_of(s),
    )
}

/// The mathematical value of keyed provider entries.
pub open spec fn provider_views(v: Seq<(String, RuleProviderConfig)>) -> Seq<
    (Seq<char>, RuleProviderV),
> {
    v.map_values(|p: (String, RuleProviderConfig)| (p.0@, p.1@))
}

/// Builds the rule-provider entries for the output configuration: the
/// built-in rules, then every enabled custom source with its behavior
/// guessed from the URL.
pub fn generate_rule_providers(sources: &Vec<RuleSource>) -> (r: Vec<(String, RuleProviderConfig)>)
    ensures
        provider_views(r@) == spec_rule_providers(sources@),
{
    let ghost bt = builtin_rules_table();
    let ghost b_mapper = |r: BuiltinRuleV| builtin_provider_of(r);
    let ghost s_pred = |s: RuleSource| s.enabled;
    let ghost s_mapper = |s: RuleSource| source_provider_of(s);
    let mut out: Vec<(String, RuleProviderConfig)> = Vec::new();
    let mut builtin = get_default_builtin_rules();
    let ghost bv = builtin.deep_view();
    let mut i: usize = 0;
    proof {
        assert(provider_views(out@) =~~= bt.take(0).map_values(b_mapper));
    }
    while builtin.len() > 0
        invariant
            i <= bt.len(),
            bt == builtin_rules_table(),
            b_mapper == (|r: BuiltinRuleV| builtin_provider_of(r)),
            builtin.deep_view() == bt.skip(i as int),
            provider_views(out@) == bt.take(i as int).map_values(b_mapper),
        decreases builtin@.len(),
    {
        proof {
            assert(bt.skip(i as int).len() == bt.len() - i);
        }
        let ghost before = builtin.deep_view();
        let rule = builtin.remove(0);
        proof {
            assert(builtin.deep_view() =~~= before.skip(1));
            assert(before.skip(1) =~~= bt.skip(i + 1));
            assert(rule.deep_view() == before[0]);
            assert(before[0] == bt.skip(i as int)[0]);
            assert(rule.deep_view() == bt[i as int]);
        }
        let mut path = String::from_str("./ruleset/");
        path.append(rule.name.as_str());
        path.append(".yaml");
        proof {
            assert(path@ =~= "./ruleset/"@ + bt[i as int].name + ".yaml"@);
        }
        let provider = RuleProviderConfig {
            provider_type: String::from_str("http"),
            behavior: rule.behavior,
            url: rule.url,
            path,
            interval: 86400,
        };
        let ghost prev_out = provider_views(out@);
        out.push((rule.name, provider));
        proof {
            assert(provider_views(out@) =~~= prev_out.push(b_mapper(bt[i as int])));
            assert(bt.take(i + 1).drop_last() =~= bt.take(i as int));
            assert(bt.take(i + 1).last() == bt[i as int]);
            assert(provider_views(out@) =~~= bt.take(i + 1).map_values(b_mapper));
        }
        i = i + 1;
    }
    proof {
        assert(bt.take(i as int) =~= bt);
    }
    let ghost part1 = bt.map_values(b_mapper);
    let n = sources.len();
    let mut j: usize = 0;
    proof {
        reveal(Seq::filter);
        assert(sources@.take(0).filter(s_pred) =~= Seq::<RuleSource>::empty());
        assert(provider_views(out@) =~~= part1 + sources@.take(0).filter(s_pred).map_values(
            s_mapper,
        ));
    }
    while j < n
        invariant
            n == sources@.len(),
            part1 == builtin_rules_table().map_values(|r: BuiltinRuleV| builtin_provider_of(r)),
            s_pred == (|s: RuleSource| s.enabled),
            s_mapper == (|s: RuleSource| source_provider_of(s)),
            j <= n,
            provider_views(out@) == part1 + sources@.take(j as int).filter(s_pred).map_values(
                s_mapper,
            ),
        decreases n - j,
    {
        proof {
            reveal(Seq::filter);
            assert(sources@.take(j + 1).drop_last() =~= sources@.take(j as int));
            assert(sources@.take(j + 1).last() == sources@[j as int]);
        }
        if sources[j].enabled {
            let lowered = to_lower(sources[j].name.as_str());
            let key = replace_spaces(lowered.as_str());
            let behavior = if str_contains(sources[j].url.as_str(), "cidr") || str_contains(
                sources[j].url.as_str(),
                "ip",
            ) {
                String::from_str("ipcidr")
            } else {
                String::from_str("domain")
            };
            let mut path = String::from_str("./ruleset/custom_");
            path.append(sources[j].id.as_str());
            path.append(".yaml");
            proof {
                assert(path@ =~= "./ruleset/custom_"@ + sources@[j as int].id@ + ".yaml"@);
                assert(key@ == underscore_spaces(lower_of(sources@[j as int].name@)));
            }
            let provider = RuleProviderConfig {
                provider_type: String::from_str("http"),
                behavior,
                url: sources[j].url.clone(),
                path,
                interval: 86400,
            };
            let ghost prev_out = provider_views(out@);
            out.push((key, provider));
            proof {
                assert(provider_views(out@) =~~= prev_out.push(s_mapper(sources@[j as int])));
                assert(provider_views(out@) =~~= part1 + sources@.take(j + 1).filter(
                    s_pred,
                ).map_values(s_mapper));
            }
        } else {
            proof {
                assert(provider_views(out@) =~~= part1 + sources@.take(j + 1).filter(
                    s_pred,
                ).map_values(s_mapper));
            }
        }
        j = j + 1;
    }
    proof {
        assert(sources@.take(n as int) =~= sources@);
    }
    out
}

} // verus!
