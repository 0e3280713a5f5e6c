//! Group synthesis and the merge pipeline: per-region selector groups,
//! AI-priority ordering, template-group expansion, and the merge of base
//! configuration plus cached subscription dumps into one configuration.

use vstd::prelude::*;
use std::collections::HashMap;
use crate::types::{ClashConfig, ConfigV, GroupV, NodeV, ProxyGroup, ProxyNode, Subscription};
use crate::subscription::{spec_extract_region, extract_region};
use crate::text::str_eq;

verus! {

/// The display name of the selector group for a region code.
pub open spec fn group_name_of(code: Seq<char>) -> Seq<char> {
    code + " 地区"@
}

/// Index of the pair carrying `code`, or -1.
pub open spec fn find_region(pairs: Seq<(Seq<char>, Seq<Seq<char>>)>, code: Seq<char>) -> int
    decreases pairs.len(),
{
    if pairs.len() == 0 {
        -1
    } else if pairs[0].0 == code {
        0
    } else {
        let r = find_region(pairs.drop_first(), code);
        if r < 0 {
            -1
        } else {
            r + 1
        }
    }
}

pub proof fn lemma_find_region_props(pairs: Seq<(Seq<char>, Seq<Seq<char>>)>, code: Seq<char>)
    ensures
        -1 <= find_region(pairs, code) < pairs.len(),
        find_region(pairs, code) >= 0 ==> pairs[find_region(pairs, code)].0 == code,
        find_region(pairs, code) == -1 ==> forall|k: int|
            0 <= k < pairs.len() ==> (#[trigger] pairs[k]).0 != code,
        forall|k: int|
            0 <= k < find_region(pairs, code) ==> (#[trigger] pairs[k]).0 != code,
    decreases pairs.len(),
{
    if pairs.len() > 0 && pairs[0].0 != code {
        lemma_find_region_props(pairs.drop_first(), code);
        assert(forall|k: int|
            1 <= k < pairs.len() ==> (#[trigger] pairs[k]) == pairs.drop_first()[k - 1]);
    }
}

/// Folding one classified node into the ordered (code, member names) pairs:
/// a node with no region is skipped; a known code appends the name to that
/// pair; a new code appends a fresh pair at the end.
pub open spec fn insert_region(pairs: Seq<(Seq<char>, Seq<Seq<char>>)>, node: NodeV) -> Seq<
    (Seq<char>, Seq<Seq<char>>),
> {
    match node.region {
        None => pairs,
        Some(code) => {
            let k = find_region(pairs, code);
            if k < 0 {
                pairs.push((code, seq![node.name]))
            } else {
                pairs.update(k, (pairs[k].0, pairs[k].1.push(node.name)))
            }
        },
    }
}

/// The ordered (region code, member names) pairs of a node sequence:
/// codes in order of first appearance, member names in input order.
pub open spec fn region_pairs_of(nodes: Seq<NodeV>) -> Seq<(Seq<char>, Seq<Seq<char>>)>
    decreases nodes.len(),
{
    if nodes.len() == 0 {
        Seq::empty()
    } else {
        insert_region(region_pairs_of(nodes.drop_last()), nodes.last())
    }
}

/// The selector group built from one (code, members) pair.
pub open spec fn region_group_of(pair: (Seq<char>, Seq<Seq<char>>)) -> GroupV {
    GroupV {
        name: group_name_of(pair.0),
        group_type: "select"@,
        proxies: pair.1,
        extra: Map::empty(),
    }
}

/// The per-region selector groups of a node sequence.
pub open spec fn spec_region_groups(nodes: Seq<NodeV>) -> Seq<GroupV> {
    region_pairs_of(nodes).map_values(|p: (Seq<char>, Seq<Seq<char>>)| region_group_of(p))
}

fn find_pair(pairs: &Vec<(String, Vec<String>)>, code: &str) -> (r: Option<usize>)
    ensures
        match r {
            Some(k) => k < pairs@.len() && find_region(pair_views(pairs@), code@) == k as int,
            None => find_region(pair_views(pairs@), code@) == -1,
        },
{
    let ghost pv = pair_views(pairs@);
    let n = pairs.len();
    let mut i: usize = 0;
    while i < n
        invariant
            n == pairs@.len(),
            pv == pair_views(pairs@),
            i <= n,
            forall|k: int| 0 <= k < i ==> (#[trigger] pv[k]).0 != code@,
        decreases n - i,
    {
        if str_eq(pairs[i].0.as_str(), code) {
            proof {
                lemma_find_region_props(pv, code@);
                let f = find_region(pv, code@);
                assert(pv[i as int].0 == code@);
                if f < i as int {
                    assert(pv[f].0 != code@);
                }
                if f > i as int {
                    assert(pv[i as int].0 != code@);
                }
                assert(f == i as int);
            }
            return Some(i);
        }
        i = i + 1;
    }
    proof {
        lemma_find_region_props(pv, code@);
    }
    None
}

/// The mathematical value of the accumulator pairs.
pub open spec fn pair_views(pairs: Seq<(String, Vec<String>)>) -> Seq<(Seq<char>, Seq<Seq<char>>)> {
    pairs.map_values(|p: (String, Vec<String>)| (p.0@, p.1.deep_view()))
}

fn collect_region_pairs(proxies: &[ProxyNode]) -> (pairs: Vec<(String, Vec<String>)>)
    ensures
        pair_views(pairs@) == region_pairs_of(proxies.deep_view()),
{
    let mut pairs: Vec<(String, Vec<String>)> = Vec::new();
    let n = proxies.len();
    let mut i: usize = 0;
    proof {
        assert(proxies.deep_view().take(0) =~= Seq::<NodeV>::empty());
        assert(pair_views(pairs@) =~= region_pairs_of(proxies.deep_view().take(0)));
    }
    while i < n
        invariant
            n == proxies@.len(),
            i <= n,
            pair_views(pairs@) == region_pairs_of(proxies.deep_view().take(i as int)),
        decreases n - i,
    {
        proof {
            assert(proxies.deep_view().take(i + 1).drop_last() =~= proxies.deep_view().take(
                i as int,
            ));
            assert(proxies.deep_view().take(i + 1).last() == proxies.deep_view()[i as int]);
        }
        match &proxies[i].region {
            None => {
                assert(proxies.deep_view()[i as int].region is None);
            },
            Some(code) => {
                let name = proxies[i].name.clone();
                let ghost namev = name@;
                let ghost pv0 = pairs@;
                let ghost old_pv = pair_views(pairs@);
                proof {
                    assert(namev == proxies.deep_view()[i as int].name);
                }
                match find_pair(&pairs, code.as_str()) {
                    Some(k) => {
                        let mut pair = pairs.remove(k);
                        proof {
                            assert(pair == pv0[k as int]);
                            assert(pairs@ =~= pv0.remove(k as int));
                        }
                        let ghost mv0 = pair.1.deep_view();
                        pair.1.push(name);
                        proof {
                            assert(pair.1.deep_view() =~~= mv0.push(namev));
                            assert(pair.0 == pv0[k as int].0);
                        }
                        pairs.insert(k, pair);
                        proof {
                            assert(pairs@ =~= pv0.update(k as int, pairs@[k as int]));
                            assert(pair_views(pairs@)[k as int] == (
                                old_pv[k as int].0,
                                old_pv[k as int].1.push(namev),
                            ));
                            assert(pair_views(pairs@) =~~= old_pv.update(
                                k as int,
                                (old_pv[k as int].0, old_pv[k as int].1.push(namev)),
                            ));
                        }
                    },
                    None => {
                        let mut members: Vec<String> = Vec::new();
                        members.push(name);
                        proof {
                            assert(members.deep_view() =~~= seq![namev]);
                        }
                        pairs.push((code.clone(), members));
                        proof {
                            assert(pairs@ =~= pv0.push(pairs@[pv0.len() as int]));
                            assert(pair_views(pairs@)[pv0.len() as int] == (
                                code@,
                                seq![namev],
                            ));
                            assert(pair_views(pairs@) =~~= old_pv.push((code@, seq![namev])));
                        }
                    },
                }
            },
        }
        i = i + 1;
    }
    proof {
        assert(proxies.deep_view().take(n as int) =~= proxies.deep_view());
    }
    pairs
}

fn pairs_to_groups(pairs: Vec<(String, Vec<String>)>) -> (groups: Vec<ProxyGroup>)
    ensures
        groups.deep_view() == pair_views(pairs@).map_values(
            |p: (Seq<char>, Seq<Seq<char>>)| region_group_of(p),
        ),
{
    let mut groups: Vec<ProxyGroup> = Vec::new();
    let ghost all_pairs = pair_views(pairs@);
    let mut j: usize = 0;
    let total = pairs.len();
    proof {
        assert(groups.deep_view() =~= all_pairs.take(0).map_values(
            |p: (Seq<char>, Seq<Seq<char>>)| region_group_of(p),
        ));
    }
    while j < total
        invariant
            total == pairs@.len(),
            all_pairs == pair_views(pairs@),
            j <= total,
            groups.deep_view() == all_pairs.take(j as int).map_values(
                |p: (Seq<char>, Seq<Seq<char>>)| region_group_of(p),
            ),
        decreases total - j,
    {
        let mut group_name = pairs[j].0.clone();
        group_name.append(" 地区");
        let members = pairs[j].1.clone();
        proof {
            assert(group_name@ =~= group_name_of(all_pairs[j as int].0));
            assert(members.deep_view() =~~= pairs@[j as int].1.deep_view());
        }
        let g = ProxyGroup {
            name: group_name,
            group_type: String::from_str("select"),
            proxies: members,
            extra: HashMap::new(),
        };
        let ghost prev = groups.deep_view();
        groups.push(g);
        proof {
            assert(g.deep_view() == region_group_of(all_pairs[j as int]));
            assert(groups.deep_view() =~~= prev.push(g.deep_view()));
            assert(groups.deep_view() =~~= all_pairs.take(j + 1).map_values(
                |p: (Seq<char>, Seq<Seq<char>>)| region_group_of(p),
            ));
        }
        j = j + 1;
    }
    proof {
        assert(all_pairs.take(total as int) =~= all_pairs);
    }
    groups
}

/// Groups classified nodes by region code, one selector group per region,
/// named `"{code} 地区"`. Codes appear in order of first appearance and
/// members in input order, so the output is a function of the input order
/// alone.
pub fn create_region_groups(proxies: &[ProxyNode]) -> (groups: Vec<ProxyGroup>)
    ensures
        groups.deep_view() == spec_region_groups(proxies.deep_view()),
{
    let pairs = collect_region_pairs(proxies);
    pairs_to_groups(pairs)
}

/// The names of the nodes whose region code lies in `codes`, in input order.
pub open spec fn names_with_region_in(nodes: Seq<NodeV>, codes: Seq<Seq<char>>) -> Seq<Seq<char>>
    decreases nodes.len(),
{
    if nodes.len() == 0 {
        Seq::empty()
    } else {
        let rest = names_with_region_in(nodes.drop_last(), codes);
        let last = nodes.last();
        if last.region is Some && codes.contains(last.region->0) {
            rest.push(last.name)
        } else {
            rest
        }
    }
}

/// A plain selector group over the given member names.
pub open spec fn select_group(name: Seq<char>, members: Seq<Seq<char>>) -> GroupV {
    GroupV { name: name, group_type: "select"@, proxies: members, extra: Map::empty() }
}

/// Regions preferred for the ChatGPT service group.
pub open spec fn chatgpt_codes() -> Seq<Seq<char>> {
    seq!["US"@, "UK"@, "SG"@, "TW"@]
}

/// Regions preferred for the Gemini service group.
pub open spec fn gemini_codes() -> Seq<Seq<char>> {
    seq!["US"@, "UK"@, "SG"@, "HK"@, "TW"@]
}

/// The fixed service groups: a group over every node, ChatGPT and Gemini
/// groups over nodes in their preferred regions (omitted when empty), and
/// three more groups over every node.
pub open spec fn spec_service_groups(all_names: Seq<Seq<char>>, nodes: Seq<NodeV>) -> Seq<GroupV> {
    let cg = names_with_region_in(nodes, chatgpt_codes());
    let gm = names_with_region_in(nodes, gemini_codes());
    seq![select_group("节点选择"@, all_names)] + (if cg.len() > 0 {
        seq![select_group("ChatGPT"@, cg)]
    } else {
        Seq::<GroupV>::empty()
    }) + (if gm.len() > 0 {
        seq![select_group("Gemini"@, gm)]
    } else {
        Seq::<GroupV>::empty()
    }) + seq![
        select_group("Google"@, all_names),
        select_group("Netflix"@, all_names),
        select_group("Telegram"@, all_names),
    ]
}

fn clone_names(v: &[String]) -> (r: Vec<String>)
    ensures
        r.deep_view() == v.deep_view(),
{
    let mut r: Vec<String> = Vec::new();
    let n = v.len();
    let mut i: usize = 0;
    while i < n
        invariant
            n == v@.len(),
            i <= n,
            r.deep_view() == v.deep_view().take(i as int),
        decreases n - i,
    {
        let ghost prev = r.deep_view();
        r.push(v[i].clone());
        proof {
            assert(r.deep_view() =~~= prev.push(v.deep_view()[i as int]));
            assert(r.deep_view() =~~= v.deep_view().take(i + 1));
        }
        i = i + 1;
    }
    proof {
        assert(v.deep_view().take(n as int) =~= v.deep_view());
    }
    r
}

fn code_list_contains(codes: &Vec<&'static str>, Ghost(cs): Ghost<Seq<Seq<char>>>, region: &str) -> (b:
    bool)
    requires
        codes@.len() == cs.len(),
        forall|i: int| 0 <= i < codes@.len() ==> (#[trigger] codes@[i])@ == cs[i],
    ensures
        b == cs.contains(region@),
{
    let n = codes.len();
    let mut i: usize = 0;
    while i < n
        invariant
            n == codes@.len(),
            n == cs.len(),
            i <= n,
            forall|i2: int| 0 <= i2 < codes@.len() ==> (#[trigger] codes@[i2])@ == cs[i2],
            forall|j: int| 0 <= j < i ==> cs[j] != region@,
        decreases n - i,
    {
        if str_eq(codes[i], region) {
            proof {
                assert(cs[i as int] == region@);
            }
            return true;
        }
        i = i + 1;
    }
    proof {
        assert(forall|j: int| 0 <= j < cs.len() ==> cs[j] != region@);
    }
    false
}

fn names_by_region(proxies: &[ProxyNode], codes: &Vec<&'static str>, Ghost(cs): Ghost<
    Seq<Seq<char>>,
>) -> (r: Vec<String>)
    requires
        codes@.len() == cs.len(),
        forall|i: int| 0 <= i < codes@.len() ==> (#[trigger] codes@[i])@ == cs[i],
    ensures
        r.deep_view() == names_with_region_in(proxies.deep_view(), cs),
{
    let mut r: Vec<String> = Vec::new();
    let n = proxies.len();
    let mut i: usize = 0;
    proof {
        assert(proxies.deep_view().take(0) =~= Seq::<NodeV>::empty());
    }
    while i < n
        invariant
            n == proxies@.len(),
            codes@.len() == cs.len(),
            forall|i2: int| 0 <= i2 < codes@.len() ==> (#[trigger] codes@[i2])@ == cs[i2],
            i <= n,
            r.deep_view() == names_with_region_in(proxies.deep_view().take(i as int), cs),
        decreases n - i,
    {
        proof {
            assert(proxies.deep_view().take(i + 1).drop_last() =~= proxies.deep_view().take(
                i as int,
            ));
            assert(proxies.deep_view().take(i + 1).last() == proxies.deep_view()[i as int]);
        }
        match &proxies[i].region {
            Some(code) => {
                if code_list_contains(codes, Ghost(cs), code.as_str()) {
                    let ghost prev = r.deep_view();
                    r.push(proxies[i].name.clone());
                    proof {
                        assert(r.deep_view() =~~= prev.push(proxies.deep_view()[i as int].name));
                        assert(r.deep_view() =~~= names_with_region_in(
                            proxies.deep_view().take(i + 1),
                            cs,
                        ));
                    }
                }
            },
            None => {
                assert(proxies.deep_view()[i as int].region is None);
            },
        }
        i = i + 1;
    }
    proof {
        assert(proxies.deep_view().take(n as int) =~= proxies.deep_view());
    }
    r
}

/// Builds the fixed service-specific groups over the given nodes.
pub fn create_service_groups(all_proxy_names: &[String], proxies: &[ProxyNode]) -> (groups: Vec<
    ProxyGroup,
>)
    ensures
        groups.deep_view() == spec_service_groups(all_proxy_names.deep_view(), proxies.deep_view()),
{
    let mut groups: Vec<ProxyGroup> = Vec::new();
    groups.push(
        ProxyGroup {
            name: String::from_str("节点选择"),
            group_type: String::from_str("select"),
            proxies: clone_names(all_proxy_names),
            extra: HashMap::new(),
        },
    );
    let mut cg_codes: Vec<&'static str> = Vec::new();
    cg_codes.push("US");
    cg_codes.push("UK");
    cg_codes.push("SG");
    cg_codes.push("TW");
    let chatgpt = names_by_region(proxies, &cg_codes, Ghost(chatgpt_codes()));
    if chatgpt.len() > 0 {
        groups.push(
            ProxyGroup {
                name: String::from_str("ChatGPT"),
                group_type: String::from_str("select"),
                proxies: chatgpt,
                extra: HashMap::new(),
            },
        );
    }
    let mut gm_codes: Vec<&'static str> = Vec::new();
    gm_codes.push("US");
    gm_codes.push("UK");
    gm_codes.push("SG");
    gm_codes.push("HK");
    gm_codes.push("TW");
    let gemini = names_by_region(proxies, &gm_codes, Ghost(gemini_codes()));
    if gemini.len() > 0 {
        groups.push(
            ProxyGroup {
                name: String::from_str("Gemini"),
                group_type: String::from_str("select"),
                proxies: gemini,
                extra: HashMap::new(),
            },
        );
    }
    groups.push(
        ProxyGroup {
            name: String::from_str("Google"),
            group_type: String::from_str("select"),
            proxies: clone_names(all_proxy_names),
            extra: HashMap::new(),
        },
    );
    groups.push(
        ProxyGroup {
            name: String::from_str("Netflix"),
            group_type: String::from_str("select"),
            proxies: clone_names(all_proxy_names),
            extra: HashMap::new(),
        },
    );
    groups.push(
        ProxyGroup {
            name: String::from_str("Telegram"),
            group_type: String::from_str("select"),
            proxies: clone_names(all_proxy_names),
            extra: HashMap::new(),
        },
    );
    proof {
        assert(groups.deep_view() =~~= spec_service_groups(
            all_proxy_names.deep_view(),
            proxies.deep_view(),
        ));
    }
    groups
}

/// The fixed priority order of AI-capable region codes.
pub open spec fn ai_priority_table() -> Seq<Seq<char>> {
    seq![
        "US"@,
        "SG"@,
        "JP"@,
        "TW"@,
        "KR"@,
        "DE"@,
        "UK"@,
        "CA"@,
        "IN"@,
        "FR"@,
        "AU"@,
        "BR"@,
    ]
}

/// The AI-priority ordering of region-group names: first the priority-table
/// codes present among `codes` (in table order), then the remaining
/// AI-capable codes of `codes` (in discovery order); regions that are not
/// AI-capable are excluded.
pub open spec fn spec_ai_priority(codes: Seq<Seq<char>>) -> Seq<Seq<char>> {
    ai_priority_table().filter(|c: Seq<char>| codes.contains(c)).map_values(
        |c: Seq<char>| group_name_of(c),
    ) + codes.filter(
        |c: Seq<char>| crate::subscription::spec_is_ai_region(c) && !ai_priority_table().contains(
            c,
        ),
    ).map_values(|c: Seq<char>| group_name_of(c))
}

fn ai_priority_vec() -> (v: Vec<&'static str>)
    ensures
        v@.len() == ai_priority_table().len(),
        forall|i: int| 0 <= i < v@.len() ==> (#[trigger] v@[i])@ == ai_priority_table()[i],
{
    let mut v: Vec<&'static str> = Vec::new();
    v.push("US");
    v.push("SG");
    v.push("JP");
    v.push("TW");
    v.push("KR");
    v.push("DE");
    v.push("UK");
    v.push("CA");
    v.push("IN");
    v.push("FR");
    v.push("AU");
    v.push("BR");
    v
}

fn string_list_contains(list: &Vec<String>, s: &str) -> (b: bool)
    ensures
        b == crate::text::views(list@).contains(s@),
{
    let n = list.len();
    let mut i: usize = 0;
    while i < n
        invariant
            n == list@.len(),
            i <= n,
            forall|j: int| 0 <= j < i ==> crate::text::views(list@)[j] != s@,
        decreases n - i,
    {
        if str_eq(list[i].as_str(), s) {
            proof {
                assert(crate::text::views(list@)[i as int] == s@);
            }
            return true;
        }
        i = i + 1;
    }
    proof {
        assert(forall|j: int|
            0 <= j < crate::text::views(list@).len() ==> crate::text::views(list@)[j] != s@);
    }
    false
}

fn make_group_name(code: &str) -> (r: String)
    ensures
        r@ == group_name_of(code@),
{
    let mut r = String::from_str(code);
    r.append(" 地区");
    r
}

/// Orders the region groups for AI use: priority-table regions first, then
/// any remaining AI-capable regions in discovery order; other regions are
/// left out entirely.
pub fn synthesize_ai_priority_order(region_codes: &Vec<String>) -> (r: Vec<String>)
    ensures
        r.deep_view() == spec_ai_priority(crate::text::views(region_codes@)),
{
    let ghost codes = crate::text::views(region_codes@);
    let ghost table = ai_priority_table();
    let ghost pred1 = |c: Seq<char>| codes.contains(c);
    let ghost pred2 = |c: Seq<char>| crate::subscription::spec_is_ai_region(c)
        && !ai_priority_table().contains(c);
    let ghost to_name = |c: Seq<char>| group_name_of(c);
    let tv = ai_priority_vec();
    let mut out: Vec<String> = Vec::new();
    let n = tv.len();
    let mut i: usize = 0;
    proof {
        reveal(Seq::filter);
        assert(table.take(0) =~= Seq::<Seq<char>>::empty());
        assert(out.deep_view() =~= table.take(0).filter(pred1).map_values(to_name));
    }
    while i < n
        invariant
            n == tv@.len(),
            n == table.len(),
            forall|k: int| 0 <= k < tv@.len() ==> (#[trigger] tv@[k])@ == table[k],
            codes == crate::text::views(region_codes@),
            table == ai_priority_table(),
            pred1 == (|c: Seq<char>| codes.contains(c)),
            to_name == (|c: Seq<char>| group_name_of(c)),
            i <= n,
            out.deep_view() == table.take(i as int).filter(pred1).map_values(to_name),
        decreases n - i,
    {
        proof {
            reveal(Seq::filter);
            assert(table.take(i + 1).drop_last() =~= table.take(i as int));
            assert(table.take(i + 1).last() == table[i as int]);
        }
        if string_list_contains(region_codes, tv[i]) {
            let name = make_group_name(tv[i]);
            let ghost namev = name@;
            let ghost prev = out.deep_view();
            out.push(name);
            proof {
                assert(out.deep_view() =~~= prev.push(namev));
                assert(out.deep_view() =~~= table.take(i + 1).filter(pred1).map_values(to_name));
            }
        } else {
            proof {
                assert(out.deep_view() =~~= table.take(i + 1).filter(pred1).map_values(to_name));
            }
        }
        i = i + 1;
    }
    proof {
        assert(table.take(n as int) =~= table);
    }
    let ghost part1 = table.filter(pred1).map_values(to_name);
    let m = region_codes.len();
    let mut j: usize = 0;
    proof {
        reveal(Seq::filter);
        assert(codes.take(0) =~= Seq::<Seq<char>>::empty());
        assert(out.deep_view() =~= part1 + codes.take(0).filter(pred2).map_values(to_name));
    }
    while j < m
        invariant
            m == region_codes@.len(),
            codes == crate::text::views(region_codes@),
            table == ai_priority_table(),
            part1 == table.filter(|c: Seq<char>| codes.contains(c)).map_values(
                |c: Seq<char>| group_name_of(c),
            ),
            pred2 == (|c: Seq<char>| crate::subscription::spec_is_ai_region(c)
                && !ai_priority_table().contains(c)),
            to_name == (|c: Seq<char>| group_name_of(c)),
            j <= m,
            out.deep_view() == part1 + codes.take(j as int).filter(pred2).map_values(to_name),
        decreases m - j,
    {
        proof {
            reveal(Seq::filter);
            assert(codes.take(j + 1).drop_last() =~= codes.take(j as int));
            assert(codes.take(j + 1).last() == codes[j as int]);
        }
        let tvec = ai_priority_vec();
        let code = &region_codes[j];
        let ai = crate::subscription::is_ai_supported_region(code.as_str());
        let in_table = code_list_contains(&tvec, Ghost(ai_priority_table()), code.as_str());
        if ai && !in_table {
            let name = make_group_name(code.as_str());
            let ghost namev = name@;
            let ghost prev = out.deep_view();
            out.push(name);
            proof {
                assert(out.deep_view() =~~= prev.push(namev));
                assert(out.deep_view() =~~= part1 + codes.take(j + 1).filter(pred2).map_values(
                    to_name,
                ));
            }
        } else {
            proof {
                assert(out.deep_view() =~~= part1 + codes.take(j + 1).filter(pred2).map_values(
                    to_name,
                ));
            }
        }
        j = j + 1;
    }
    proof {
        assert(codes.take(m as int) =~= codes);
    }
    out
}

/// Template-group names that receive the AI-priority member list instead of
/// every region group.
pub open spec fn is_ai_marker(name: Seq<char>) -> bool {
    name == "自动选择"@ || name == "AI-专用"@
}

/// One template group after expansion: its members, then either the
/// AI-priority names (for a marker group) or all region-group names.
pub open spec fn expand_one(g: GroupV, region_names: Seq<Seq<char>>, ai_names: Seq<Seq<char>>) -> GroupV {
    GroupV {
        name: g.name,
        group_type: g.group_type,
        proxies: g.proxies + (if is_ai_marker(g.name) {
            ai_names
        } else {
            region_names
        }),
        extra: g.extra,
    }
}

/// Every template group after expansion, in template order.
pub open spec fn spec_expand(template: Seq<GroupV>, region_names: Seq<Seq<char>>, ai_names: Seq<Seq<char>>) -> Seq<
    GroupV,
> {
    template.map_values(|g: GroupV| expand_one(g, region_names, ai_names))
}

fn append_names(dst: &mut Vec<String>, src: &Vec<String>)
    ensures
        final(dst).deep_view() == old(dst).deep_view() + src.deep_view(),
{
    let n = src.len();
    let mut i: usize = 0;
    proof {
        assert(dst.deep_view() =~= old(dst).deep_view() + src.deep_view().take(0));
    }
    while i < n
        invariant
            n == src@.len(),
            i <= n,
            dst.deep_view() == old(dst).deep_view() + src.deep_view().take(i as int),
        decreases n - i,
    {
        let ghost prev = dst.deep_view();
        dst.push(src[i].clone());
        proof {
            assert(dst.deep_view() =~~= prev.push(src.deep_view()[i as int]));
            assert(dst.deep_view() =~~= old(dst).deep_view() + src.deep_view().take(i + 1));
        }
        i = i + 1;
    }
    proof {
        assert(src.deep_view().take(n as int) =~= src.deep_view());
    }
}

/// Expands each template group in place of a copy: marker groups get the
/// AI-priority names appended, all other groups get every region-group
/// name appended. The template definitions themselves are not modified:
/// the input is consumed and rebuilt.
pub fn expand_template_groups(
    template_groups: Vec<ProxyGroup>,
    region_group_names: &Vec<String>,
    ai_priority_names: &Vec<String>,
) -> (r: Vec<ProxyGroup>)
    ensures
        r.deep_view() == spec_expand(
            template_groups.deep_view(),
            crate::text::views(region_group_names@),
            crate::text::views(ai_priority_names@),
        ),
{
    let ghost otv = template_groups.deep_view();
    let ghost rn = crate::text::views(region_group_names@);
    let ghost an = crate::text::views(ai_priority_names@);
    let mut template = template_groups;
    let mut out: Vec<ProxyGroup> = Vec::new();
    let ghost expander = |g: GroupV| expand_one(g, rn, an);
    proof {
        assert(out.deep_view() =~= otv.take(0).map_values(expander));
    }
    let ghost mut i: int = 0;
    while template.len() > 0
        invariant
            0 <= i <= otv.len(),
            template.deep_view() == otv.skip(i),
            rn == crate::text::views(region_group_names@),
            an == crate::text::views(ai_priority_names@),
            expander == (|g: GroupV| expand_one(g, rn, an)),
            out.deep_view() == otv.take(i).map_values(expander),
        decreases template@.len(),
    {
        proof {
            assert(otv.skip(i).len() == otv.len() - i);
        }
        let ghost tv0 = template.deep_view();
        let mut g = template.remove(0);
        proof {
            assert(template.deep_view() =~~= tv0.skip(1));
            assert(tv0.skip(1) =~~= otv.skip(i + 1));
            assert(template.deep_view() == otv.skip(i + 1));
            assert(g.deep_view() == tv0[0]);
            assert(g.deep_view() == otv[i]);
        }
        let marker = str_eq(g.name.as_str(), "自动选择") || str_eq(g.name.as_str(), "AI-专用");
        if marker {
            append_names(&mut g.proxies, ai_priority_names);
            proof {
                assert(ai_priority_names.deep_view() =~~= an);
            }
        } else {
            append_names(&mut g.proxies, region_group_names);
            proof {
                assert(region_group_names.deep_view() =~~= rn);
            }
        }
        proof {
            assert(g.deep_view() =~~= expand_one(otv[i], rn, an));
        }
        let ghost gv = g.deep_view();
        let ghost prev = out.deep_view();
        out.push(g);
        proof {
            assert(out.deep_view() =~~= prev.push(gv));
            assert(otv.take(i + 1).drop_last() =~= otv.take(i));
            assert(otv.take(i + 1).last() == otv[i]);
            assert(out.deep_view() =~~= otv.take(i + 1).map_values(expander));
            i = i + 1;
        }
    }
    proof {
        assert(otv.take(i) =~= otv);
    }
    out
}

/// Merging cannot proceed at all without the base configuration.
#[derive(Clone, Copy, Debug, PartialEq, Eq, Structural)]
pub enum MergeError {
    MissingBaseConfig,
}

/// A node's display name prefixed with its subscription's name.
pub open spec fn prefixed(sub_name: Seq<char>, name: Seq<char>) -> Seq<char> {
    "["@ + sub_name + "] "@ + name
}

/// A parsed node after ingestion: prefixed display name, the subscription
/// recorded as its airport, and the region classified from the prefixed
/// name.
pub open spec fn annotate_node(sub_name: Seq<char>, n: NodeV) -> NodeV {
    NodeV {
        name: prefixed(sub_name, n.name),
        proxy_type: n.proxy_type,
        server: n.server,
        port: n.port,
        region: spec_extract_region(prefixed(sub_name, n.name)),
        airport: sub_name,
        extra: n.extra,
    }
}

/// All nodes of one subscription dump after ingestion, in dump order.
pub open spec fn annotate_all(sub_name: Seq<char>, nodes: Seq<NodeV>) -> Seq<NodeV> {
    nodes.map_values(|n: NodeV| annotate_node(sub_name, n))
}

/// What one subscription contributes to the merge: its annotated cached
/// nodes when it is enabled and its cache was readable, nothing otherwise.
pub open spec fn sub_contrib(sub: Subscription, cache: Option<Seq<NodeV>>) -> Seq<NodeV> {
    if sub.enabled && cache is Some {
        annotate_all(sub.name@, cache->0)
    } else {
        Seq::empty()
    }
}

/// The concatenated contributions of the first `n` subscriptions.
pub open spec fn merged_nodes_prefix(
    subs: Seq<Subscription>,
    caches: Seq<Option<Seq<NodeV>>>,
    n: int,
) -> Seq<NodeV>
    decreases n,
{
    if n <= 0 {
        Seq::empty()
    } else {
        merged_nodes_prefix(subs, caches, n - 1) + sub_contrib(subs[n - 1], caches[n - 1])
    }
}

/// The nodes contributed by every subscription, in list order.
pub open spec fn merged_nodes(subs: Seq<Subscription>, caches: Seq<Option<Seq<NodeV>>>) -> Seq<
    NodeV,
> {
    merged_nodes_prefix(subs, caches, subs.len() as int)
}

/// The full merge: base pass-through fields; base static nodes followed by
/// every enabled subscription's annotated nodes; expanded template groups
/// followed by the per-region groups; base rules and rule providers.
pub open spec fn spec_merge(
    base: ConfigV,
    template: Seq<GroupV>,
    subs: Seq<Subscription>,
    caches: Seq<Option<Seq<NodeV>>>,
) -> ConfigV {
    let all = base.proxies + merged_nodes(subs, caches);
    let pairs = region_pairs_of(all);
    let codes = pairs.map_values(|p: (Seq<char>, Seq<Seq<char>>)| p.0);
    let region_names = codes.map_values(|c: Seq<char>| group_name_of(c));
    let ai_names = spec_ai_priority(codes);
    let region_groups = pairs.map_values(|p: (Seq<char>, Seq<Seq<char>>)| region_group_of(p));
    let expanded = spec_expand(template, region_names, ai_names);
    ConfigV {
        base_config: base.base_config,
        proxies: all,
        proxy_groups: expanded + region_groups,
        rules: base.rules,
        rule_providers: base.rule_providers,
    }
}

proof fn lemma_prefix_agrees(
    s1: Seq<Subscription>,
    c1: Seq<Option<Seq<NodeV>>>,
    s2: Seq<Subscription>,
    c2: Seq<Option<Seq<NodeV>>>,
    n: int,
)
    requires
        n <= s1.len() && n <= c1.len() && n <= s2.len() && n <= c2.len(),
        forall|j: int| 0 <= j < n ==> #[trigger] s1[j] == s2[j] && c1[j] == c2[j],
    ensures
        merged_nodes_prefix(s1, c1, n) == merged_nodes_prefix(s2, c2, n),
    decreases n,
{
    if n > 0 {
        lemma_prefix_agrees(s1, c1, s2, c2, n - 1);
    }
}

proof fn lemma_prefix_remove(
    subs: Seq<Subscription>,
    caches: Seq<Option<Seq<NodeV>>>,
    i: int,
    n: int,
)
    requires
        subs.len() == caches.len(),
        0 <= i < subs.len(),
        i < n <= subs.len(),
        sub_contrib(subs[i], caches[i]) == Seq::<NodeV>::empty(),
    ensures
        merged_nodes_prefix(subs, caches, n) == merged_nodes_prefix(
            subs.remove(i),
            caches.remove(i),
            n - 1,
        ),
    decreases n,
{
    let rs = subs.remove(i);
    let rc = caches.remove(i);
    if n - 1 == i {
        assert(merged_nodes_prefix(subs, caches, n) =~= merged_nodes_prefix(subs, caches, n - 1));
        lemma_prefix_agrees(subs, caches, rs, rc, i);
    } else {
        lemma_prefix_remove(subs, caches, i, n - 1);
        assert(rs[n - 2] == subs[n - 1]);
        assert(rc[n - 2] == caches[n - 1]);
    }
}

/// A disabled subscription (or one whose cache is unreadable) contributes
/// nothing at all to the merged node list: removing it from the inputs
/// leaves the merged nodes exactly unchanged.
pub proof fn lemma_disabled_contributes_nothing(
    subs: Seq<Subscription>,
    caches: Seq<Option<Seq<NodeV>>>,
    i: int,
)
    requires
        subs.len() == caches.len(),
        0 <= i < subs.len(),
        !subs[i].enabled || caches[i] is None,
    ensures
        merged_nodes(subs, caches) == merged_nodes(subs.remove(i), caches.remove(i)),
{
    assert(sub_contrib(subs[i], caches[i]) =~= Seq::<NodeV>::empty());
    lemma_prefix_remove(subs, caches, i, subs.len() as int);
}

/// Region grouping is reproducible: two merges over the same node sequence
/// (same nodes, same order) derive the same groups, members in the same
/// order. Member order is pinned to input order by the specification, not
/// to any container iteration order.
pub proof fn lemma_region_groups_stable(a: Seq<NodeV>, b: Seq<NodeV>)
    requires
        a == b,
    ensures
        spec_region_groups(a) == spec_region_groups(b),
{
}

fn annotate_into(all: &mut Vec<ProxyNode>, sub_name: &String, nodes: Vec<ProxyNode>)
    ensures
        final(all).deep_view() == old(all).deep_view() + annotate_all(
            sub_name@,
            nodes.deep_view(),
        ),
{
    let ghost nv = nodes.deep_view();
    let ghost annotator = |n: NodeV| annotate_node(sub_name@, n);
    let mut rest = nodes;
    let ghost mut j: int = 0;
    proof {
        assert(all.deep_view() =~= old(all).deep_view() + nv.take(0).map_values(annotator));
    }
    while rest.len() > 0
        invariant
            0 <= j <= nv.len(),
            rest.deep_view() == nv.skip(j),
            annotator == (|n: NodeV| annotate_node(sub_name@, n)),
            all.deep_view() == old(all).deep_view() + nv.take(j).map_values(annotator),
        decreases rest@.len(),
    {
        proof {
            assert(nv.skip(j).len() == nv.len() - j);
        }
        let ghost rsv0 = rest.deep_view();
        let n = rest.remove(0);
        proof {
            assert(rest.deep_view() =~~= rsv0.skip(1));
            assert(rsv0.skip(1) =~~= nv.skip(j + 1));
            assert(rest.deep_view() == nv.skip(j + 1));
            assert(n.deep_view() == rsv0[0]);
            assert(n.deep_view() == nv[j]);
        }
        let mut nm = String::from_str("[");
        nm.append(sub_name.as_str());
        nm.append("] ");
        nm.append(n.name.as_str());
        proof {
            assert(nm@ =~= prefixed(sub_name@, n.name@));
        }
        let region = extract_region(nm.as_str());
        let node = ProxyNode {
            name: nm,
            proxy_type: n.proxy_type,
            server: n.server,
            port: n.port,
            region,
            airport: sub_name.clone(),
            extra: n.extra,
        };
        proof {
            assert(node.deep_view() =~~= annotate_node(sub_name@, nv[j]));
        }
        let ghost ndv = node.deep_view();
        let ghost prev = all.deep_view();
        all.push(node);
        proof {
            assert(all.deep_view() =~~= prev.push(ndv));
            assert(nv.take(j + 1).drop_last() =~= nv.take(j));
            assert(nv.take(j + 1).last() == nv[j]);
            assert(all.deep_view() =~~= old(all).deep_view() + nv.take(j + 1).map_values(
                annotator,
            ));
            j = j + 1;
        }
    }
    proof {
        assert(nv.take(j) =~= nv);
    }
}

/// Merges the base configuration, the group template, and the cached dumps
/// of the given subscriptions into one configuration. Fails exactly when
/// the base configuration is absent; a subscription that is disabled, or
/// whose cache could not be read or parsed (`None`), contributes nothing.
pub fn merge_configs(
    subscriptions: &Vec<Subscription>,
    base: Option<ClashConfig>,
    template_groups: Vec<ProxyGroup>,
    caches: Vec<Option<Vec<ProxyNode>>>,
) -> (r: Result<ClashConfig, MergeError>)
    requires
        caches@.len() == subscriptions@.len(),
    ensures
        r is Ok <==> base is Some,
        r is Err ==> r->Err_0 == MergeError::MissingBaseConfig,
        r is Ok ==> r->Ok_0@ == spec_merge(
            base->0@,
            template_groups.deep_view(),
            subscriptions@,
            caches.deep_view(),
        ),
{
    let ghost subsv = subscriptions@;
    let ghost cachesv = caches.deep_view();
    let ghost tgv = template_groups.deep_view();
    let b = match base {
        None => {
            return Err(MergeError::MissingBaseConfig);
        },
        Some(b) => b,
    };
    let ghost basev = b@;
    let ClashConfig { base_config, proxies, proxy_groups: _, rules, rule_providers } = b;
    let mut all = proxies;
    let mut rest = caches;
    let n = subscriptions.len();
    let mut i: usize = 0;
    proof {
        assert(all.deep_view() =~= basev.proxies + merged_nodes_prefix(subsv, cachesv, 0));
    }
    while i < n
        invariant
            n == subsv.len(),
            cachesv.len() == subsv.len(),
            subsv == subscriptions@,
            i <= n,
            rest.deep_view() == cachesv.skip(i as int),
            all.deep_view() == basev.proxies + merged_nodes_prefix(subsv, cachesv, i as int),
        decreases n - i,
    {
        proof {
            assert(cachesv.skip(i as int).len() == cachesv.len() - i);
        }
        let ghost rcv0 = rest.deep_view();
        let cache = rest.remove(0);
        proof {
            assert(rest.deep_view() =~~= rcv0.skip(1));
            assert(rcv0.skip(1) =~~= cachesv.skip(i + 1));
            assert(rest.deep_view() == cachesv.skip(i + 1));
            assert(cache.deep_view() == rcv0[0]);
            assert(cache.deep_view() == cachesv[i as int]);
        }
        if subscriptions[i].enabled {
            match cache {
                Some(nodes) => {
                    annotate_into(&mut all, &subscriptions[i].name, nodes);
                    proof {
                        assert(all.deep_view() =~= basev.proxies + merged_nodes_prefix(
                            subsv,
                            cachesv,
                            i + 1,
                        ));
                    }
                },
                None => {
                    proof {
                        assert(sub_contrib(subsv[i as int], cachesv[i as int]) =~= Seq::<
                            NodeV,
                        >::empty());
                        assert(all.deep_view() =~= basev.proxies + merged_nodes_prefix(
                            subsv,
                            cachesv,
                            i + 1,
                        ));
                    }
                },
            }
        } else {
            proof {
                assert(sub_contrib(subsv[i as int], cachesv[i as int]) =~= Seq::<NodeV>::empty());
                assert(all.deep_view() =~= basev.proxies + merged_nodes_prefix(
                    subsv,
                    cachesv,
                    i + 1,
                ));
            }
        }
        i = i + 1;
    }
    let ghost allv = all.deep_view();
    let all_slice: &[ProxyNode] = &all;
    let pairs = collect_region_pairs(all_slice);
    proof {
        assert(all_slice.deep_view() =~= allv);
    }
    let ghost pv = pair_views(pairs@);
    let mut codes: Vec<String> = Vec::new();
    let mut region_names: Vec<String> = Vec::new();
    let total = pairs.len();
    let mut k: usize = 0;
    proof {
        assert(crate::text::views(codes@) =~= pv.take(0).map_values(
            |p: (Seq<char>, Seq<Seq<char>>)| p.0,
        ));
        assert(crate::text::views(region_names@) =~= pv.take(0).map_values(
            |p: (Seq<char>, Seq<Seq<char>>)| p.0,
        ).map_values(|c: Seq<char>| group_name_of(c)));
    }
    while k < total
        invariant
            total == pairs@.len(),
            pv == pair_views(pairs@),
            k <= total,
            crate::text::views(codes@) == pv.take(k as int).map_values(
                |p: (Seq<char>, Seq<Seq<char>>)| p.0,
            ),
            crate::text::views(region_names@) == pv.take(k as int).map_values(
                |p: (Seq<char>, Seq<Seq<char>>)| p.0,
            ).map_values(|c: Seq<char>| group_name_of(c)),
        decreases total - k,
    {
        let ghost cprev = crate::text::views(codes@);
        let ghost nprev = crate::text::views(region_names@);
        codes.push(pairs[k].0.clone());
        region_names.push(make_group_name(pairs[k].0.as_str()));
        proof {
            assert(crate::text::views(codes@) =~~= cprev.push(pv[k as int].0));
            assert(crate::text::views(region_names@) =~~= nprev.push(group_name_of(pv[k as int].0)));
            assert(crate::text::views(codes@) =~~= pv.take(k + 1).map_values(
                |p: (Seq<char>, Seq<Seq<char>>)| p.0,
            ));
            assert(crate::text::views(region_names@) =~~= pv.take(k + 1).map_values(
                |p: (Seq<char>, Seq<Seq<char>>)| p.0,
            ).map_values(|c: Seq<char>| group_name_of(c)));
        }
        k = k + 1;
    }
    proof {
        assert(pv.take(total as int) =~= pv);
    }
    let ai_names = synthesize_ai_priority_order(&codes);
    let mut region_groups = pairs_to_groups(pairs);
    proof {
        assert(crate::text::views(ai_names@) =~= ai_names.deep_view());
        assert(crate::text::views(region_names@) =~= region_names.deep_view());
    }
    let mut groups = expand_template_groups(template_groups, &region_names, &ai_names);
    groups.append(&mut region_groups);
    let out = ClashConfig {
        base_config,
        proxies: all,
        proxy_groups: groups,
        rules,
        rule_providers,
    };
    proof {
        let expected = spec_merge(basev, tgv, subsv, cachesv);
        assert(out@.proxies =~= expected.proxies);
        assert(out@.proxy_groups =~= expected.proxy_groups);
        assert(out@ =~~= expected);
    }
    Ok(out)
}

} // verus!
