//! Region classification: maps a node's display name to a canonical
//! region code by ordered, case-insensitive substring matching.

use vstd::prelude::*;
use crate::text::{has_substring, str_contains, str_eq, to_upper, upper_of};

verus! {

/// The ordered classification table: (source-language pattern, region code).
/// A name is tested against each pair in order; the pair's pattern is looked
/// for in the name itself, its code in the uppercased name.
pub open spec fn region_table() -> Seq<(Seq<char>, Seq<char>)> {
    seq![
        ("香港"@, "HK"@),
        ("台湾"@, "TW"@),
        ("日本"@, "JP"@),
        ("新加坡"@, "SG"@),
        ("美国"@, "US"@),
        ("英国"@, "UK"@),
        ("韩国"@, "KR"@),
        ("德国"@, "DE"@),
        ("加拿大"@, "CA"@),
        ("印度"@, "IN"@),
        ("马来西亚"@, "MY"@),
        ("土耳其"@, "TR"@),
        ("阿根廷"@, "AR"@),
        ("俄罗斯"@, "RU"@),
        ("越南"@, "VN"@),
        ("乌克兰"@, "UA"@),
        ("尼日利亚"@, "NG"@),
        ("法国"@, "FR"@),
        ("澳大利亚"@, "AU"@),
        ("巴西"@, "BR"@),
    ]
}

/// Table pair `i` matches the (already uppercased) name.
pub open spec fn pair_matches(name: Seq<char>, upper: Seq<char>, i: int) -> bool {
    has_substring(name, region_table()[i].0) || has_substring(upper, region_table()[i].1)
}

/// The code of the first matching pair at or after position `i`.
pub open spec fn first_match_from(name: Seq<char>, upper: Seq<char>, i: int) -> Option<Seq<char>>
    decreases region_table().len() - i,
{
    if i < 0 || i >= region_table().len() {
        None
    } else if pair_matches(name, upper, i) {
        Some(region_table()[i].1)
    } else {
        first_match_from(name, upper, i + 1)
    }
}

/// The region code of a display name: case-insensitive substring matching
/// against the table, in table order; the first match wins.
pub open spec fn spec_extract_region(name: Seq<char>) -> Option<Seq<char>> {
    first_match_from(name, upper_of(name), 0)
}

proof fn lemma_first_match_skip(name: Seq<char>, upper: Seq<char>, i: int)
    requires
        0 <= i <= region_table().len(),
        forall|j: int| 0 <= j < i ==> !pair_matches(name, upper, j),
    ensures
        first_match_from(name, upper, 0) == first_match_from(name, upper, i),
    decreases i,
{
    if i > 0 {
        lemma_first_match_skip(name, upper, i - 1);
    }
}

fn region_pairs() -> (v: Vec<(&'static str, &'static str)>)
    ensures
        v@.len() == region_table().len(),
        forall|i: int|
            0 <= i < v@.len() ==> (#[trigger] v@[i]).0@ == region_table()[i].0 && v@[i].1@
                == region_table()[i].1,
{
    let mut v: Vec<(&'static str, &'static str)> = Vec::new();
    v.push(("香港", "HK"));
    v.push(("台湾", "TW"));
    v.push(("日本", "JP"));
    v.push(("新加坡", "SG"));
    v.push(("美国", "US"));
    v.push(("英国", "UK"));
    v.push(("韩国", "KR"));
    v.push(("德国", "DE"));
    v.push(("加拿大", "CA"));
    v.push(("印度", "IN"));
    v.push(("马来西亚", "MY"));
    v.push(("土耳其", "TR"));
    v.push(("阿根廷", "AR"));
    v.push(("俄罗斯", "RU"));
    v.push(("越南", "VN"));
    v.push(("乌克兰", "UA"));
    v.push(("尼日利亚", "NG"));
    v.push(("法国", "FR"));
    v.push(("澳大利亚", "AU"));
    v.push(("巴西", "BR"));
    v
}

/// Classifies a display name to its region code, or `None` when no table
/// pair matches. Classification is a pure function of the name: the table
/// is fixed and pairs are tested in order.
pub fn extract_region(name: &str) -> (r: Option<String>)
    ensures
        r.deep_view() == spec_extract_region(name@),
{
    let upper = to_upper(name);
    let table = region_pairs();
    let n = table.len();
    let mut i: usize = 0;
    while i < n
        invariant
            upper@ == upper_of(name@),
            n == table@.len(),
            n == region_table().len(),
            i <= n,
            forall|j: int|
                0 <= j < table@.len() ==> (#[trigger] table@[j]).0@ == region_table()[j].0
                    && table@[j].1@ == region_table()[j].1,
            forall|j: int| 0 <= j < i ==> !pair_matches(name@, upper@, j),
        decreases n - i,
    {
        let pair = table[i];
        if str_contains(name, pair.0) || str_contains(upper.as_str(), pair.1) {
            proof {
                assert(pair_matches(name@, upper@, i as int));
                lemma_first_match_skip(name@, upper@, i as int);
            }
            return Some(String::from_str(pair.1));
        }
        i = i + 1;
    }
    proof {
        lemma_first_match_skip(name@, upper@, n as int);
    }
    None
}

/// The region codes considered to have usable access to mainstream AI
/// services.
pub open spec fn ai_region_codes() -> Seq<Seq<char>> {
    seq![
        "US"@,
        "UK"@,
        "JP"@,
        "SG"@,
        "TW"@,
        "KR"@,
        "DE"@,
        "CA"@,
        "IN"@,
        "FR"@,
        "AU"@,
        "BR"@,
    ]
}

/// `r` is an AI-capable region code.
pub open spec fn spec_is_ai_region(r: Seq<char>) -> bool {
    ai_region_codes().contains(r)
}

fn ai_codes() -> (v: Vec<&'static str>)
    ensures
        v@.len() == ai_region_codes().len(),
        forall|i: int|
            0 <= i < v@.len() ==> (#[trigger] v@[i])@ == ai_region_codes()[i],
{
    let mut v: Vec<&'static str> = Vec::new();
    v.push("US");
    v.push("UK");
    v.push("JP");
    v.push("SG");
    v.push("TW");
    v.push("KR");
    v.push("DE");
    v.push("CA");
    v.push("IN");
    v.push("FR");
    v.push("AU");
    v.push("BR");
    v
}

/// Whether a region code belongs to the fixed AI-capable set.
pub fn is_ai_supported_region(region: &str) -> (b: bool)
    ensures
        b == spec_is_ai_region(region@),
{
    let codes = ai_codes();
    let n = codes.len();
    let mut i: usize = 0;
    while i < n
        invariant
            n == codes@.len(),
            n == ai_region_codes().len(),
            i <= n,
            forall|j: int|
                0 <= j < codes@.len() ==> (#[trigger] codes@[j])@ == ai_region_codes()[j],
            forall|j: int| 0 <= j < i ==> ai_region_codes()[j] != region@,
        decreases n - i,
    {
        if str_eq(codes[i], region) {
            proof {
                assert(ai_region_codes()[i as int] == region@);
            }
            return true;
        }
        i = i + 1;
    }
    proof {
        assert(forall|j: int| 0 <= j < ai_region_codes().len() ==> ai_region_codes()[j] != region@);
    }
    false
}

/// Region classification is a pure function of the display name: equal
/// names classify to equal region codes, on every call.
pub proof fn lemma_classification_pure(a: Seq<char>, b: Seq<char>)
    requires
        a == b,
    ensures
        spec_extract_region(a) == spec_extract_region(b),
{
}

/// Pattern order decides the winner: when table pair `i` matches a name
/// and no earlier pair does, the classification is pair `i`'s code, even
/// if later pairs would also match.
pub proof fn lemma_first_match_wins(name: Seq<char>, i: int)
    requires
        0 <= i < region_table().len(),
        pair_matches(name, upper_of(name), i),
        forall|j: int| 0 <= j < i ==> !pair_matches(name, upper_of(name), j),
    ensures
        spec_extract_region(name) == Some(region_table()[i].1),
{
    lemma_first_match_skip(name, upper_of(name), i);
}

/// Subscription-list errors: an index past the end of the list.
#[derive(Clone, Copy, Debug, PartialEq, Eq, Structural)]
pub enum SubscriptionError {
    IndexOutOfRange,
}

/// Appends a subscription to the list.
pub fn add_subscription(subs: &mut Vec<crate::types::Subscription>, sub: crate::types::Subscription)
    ensures
        final(subs)@ == old(subs)@.push(sub),
{
    subs.push(sub);
}

/// Replaces the subscription at `index` with the given name, URL and
/// enabled flag, keeping its id and clearing its update metadata; an
/// out-of-range index changes nothing.
pub fn update_subscription(
    subs: &mut Vec<crate::types::Subscription>,
    index: usize,
    name: String,
    url: String,
    enabled: bool,
) -> (r: Result<(), SubscriptionError>)
    ensures
        index >= old(subs)@.len() ==> r == Err::<(), SubscriptionError>(
            SubscriptionError::IndexOutOfRange,
        ) && final(subs)@ == old(subs)@,
        index < old(subs)@.len() ==> {
            &&& r is Ok
            &&& final(subs)@.len() == old(subs)@.len()
            &&& forall|j: int|
                0 <= j < old(subs)@.len() && j != index ==> final(subs)@[j] == old(subs)@[j]
            &&& final(subs)@[index as int].id == old(subs)@[index as int].id
            &&& final(subs)@[index as int].name == name
            &&& final(subs)@[index as int].url == url
            &&& final(subs)@[index as int].enabled == enabled
            &&& final(subs)@[index as int].last_updated is None
            &&& final(subs)@[index as int].node_count is None
        },
{
    if index >= subs.len() {
        return Err(SubscriptionError::IndexOutOfRange);
    }
    let prev = subs.remove(index);
    let replacement = crate::types::Subscription {
        id: prev.id,
        name,
        url,
        enabled,
        last_updated: None,
        node_count: None,
    };
    subs.insert(index, replacement);
    proof {
        assert(forall|j: int|
            0 <= j < old(subs)@.len() && j != index ==> final(subs)@[j] == old(subs)@[j]);
    }
    Ok(())
}

/// Removes the subscription at `index`; an out-of-range index changes
/// nothing.
pub fn delete_subscription(subs: &mut Vec<crate::types::Subscription>, index: usize) -> (r: Result<
    crate::types::Subscription,
    SubscriptionError,
>)
    ensures
        index >= old(subs)@.len() ==> r == Err::<
            crate::types::Subscription,
            SubscriptionError,
        >(SubscriptionError::IndexOutOfRange) && final(subs)@ == old(subs)@,
        index < old(subs)@.len() ==> r is Ok && r->Ok_0 == old(subs)@[index as int] && final(subs)@ == old(subs)@.remove(index as int),
{
    if index >= subs.len() {
        return Err(SubscriptionError::IndexOutOfRange);
    }
    Ok(subs.remove(index))
}

/// The subscriptions left after removing the listed positions: the first
/// `n` entries of `s`, in order, whose position is not in `indices`.
pub open spec fn remove_listed(s: Seq<crate::types::Subscription>, indices: Seq<usize>, n: int) -> Seq<
    crate::types::Subscription,
>
    decreases n,
{
    if n <= 0 {
        Seq::empty()
    } else {
        let rest = remove_listed(s, indices, n - 1);
        if indices.contains((n - 1) as usize) {
            rest
        } else {
            rest.push(s[n - 1])
        }
    }
}

fn index_listed(indices: &Vec<usize>, j: usize) -> (b: bool)
    ensures
        b == indices@.contains(j),
{
    let n = indices.len();
    let mut k: usize = 0;
    while k < n
        invariant
            n == indices@.len(),
            k <= n,
            forall|t: int| 0 <= t < k ==> indices@[t] != j,
        decreases n - k,
    {
        if indices[k] == j {
            return true;
        }
        k = k + 1;
    }
    false
}

/// Removes every subscription whose position is listed; positions past the
/// end of the list are ignored, and each position counts once however
/// often it is listed.
pub fn batch_delete_subscriptions(subs: &mut Vec<crate::types::Subscription>, indices: &Vec<usize>)
    ensures
        final(subs)@ == remove_listed(old(subs)@, indices@, old(subs)@.len() as int),
{
    let ghost orig = subs@;
    let total = subs.len();
    let mut kept: Vec<crate::types::Subscription> = Vec::new();
    let mut pos: usize = 0;
    proof {
        assert(kept@ =~= remove_listed(orig, indices@, 0));
        assert(subs@.skip(0) =~= orig.skip(0));
    }
    while subs.len() > 0
        invariant
            total == orig.len(),
            pos + subs@.len() == orig.len(),
            subs@ == orig.skip(pos as int),
            kept@ == remove_listed(orig, indices@, pos as int),
        decreases subs@.len(),
    {
        let ghost rv0 = subs@;
        let entry = subs.remove(0);
        proof {
            assert(subs@ =~= rv0.skip(1));
            assert(rv0.skip(1) =~= orig.skip(pos + 1));
            assert(entry == orig[pos as int]);
        }
        if index_listed(indices, pos) {
            proof {
                assert(kept@ =~= remove_listed(orig, indices@, pos + 1));
            }
        } else {
            kept.push(entry);
            proof {
                assert(kept@ =~= remove_listed(orig, indices@, pos + 1));
            }
        }
        pos = pos + 1;
    }
    *subs = kept;
}

/// Sets the enabled flag of every listed index; positions past the end of
/// the list are ignored, and everything else about each entry is kept.
pub fn batch_toggle_subscriptions(
    subs: &mut Vec<crate::types::Subscription>,
    indices: &Vec<usize>,
    enabled: bool,
)
    ensures
        final(subs)@.len() == old(subs)@.len(),
        forall|j: int|
            0 <= j < old(subs)@.len() && !indices@.contains(j as usize) ==> final(subs)@[j] == old(
                subs,
            )@[j],
        forall|j: int|
            0 <= j < old(subs)@.len() && indices@.contains(j as usize) ==> {
                &&& (#[trigger] final(subs)@[j]).id == old(subs)@[j].id
                &&& final(subs)@[j].name == old(subs)@[j].name
                &&& final(subs)@[j].url == old(subs)@[j].url
                &&& final(subs)@[j].enabled == enabled
                &&& final(subs)@[j].last_updated == old(subs)@[j].last_updated
                &&& final(subs)@[j].node_count == old(subs)@[j].node_count
            },
{
    let total = indices.len();
    let mut k: usize = 0;
    while k < total
        invariant
            total == indices@.len(),
            k <= total,
            subs@.len() == old(subs)@.len(),
            forall|j: int|
                0 <= j < old(subs)@.len() && !indices@.take(k as int).contains(j as usize)
                    ==> subs@[j] == old(subs)@[j],
            forall|j: int|
                0 <= j < old(subs)@.len() && indices@.take(k as int).contains(j as usize) ==> {
                    &&& (#[trigger] subs@[j]).id == old(subs)@[j].id
                    &&& subs@[j].name == old(subs)@[j].name
                    &&& subs@[j].url == old(subs)@[j].url
                    &&& subs@[j].enabled == enabled
                    &&& subs@[j].last_updated == old(subs)@[j].last_updated
                    &&& subs@[j].node_count == old(subs)@[j].node_count
                },
        decreases total - k,
    {
        let idx = indices[k];
        proof {
            assert(forall|v: usize|
                indices@.take(k as int).contains(v) ==> #[trigger] indices@.take(
                    k + 1,
                ).contains(v));
            assert(indices@.take(k + 1)[k as int] == idx);
            assert(indices@.take(k + 1).contains(idx));
            assert(forall|v: usize|
                indices@.take(k + 1).contains(v) && v != idx ==> #[trigger] indices@.take(
                    k as int,
                ).contains(v));
        }
        if idx < subs.len() {
            let mut entry = subs.remove(idx);
            entry.enabled = enabled;
            subs.insert(idx, entry);
        }
        k = k + 1;
    }
    proof {
        assert(indices@.take(total as int) =~= indices@);
    }
}

} // verus!
