//! The snapshot store: an append-only, sequence-numbered history of
//! configuration text, with alias resolution, listing, deletion, rollback
//! and a line diff. The store itself is a plain value; reading snapshot
//! files from disk and writing them back is the caller's concern.

use vstd::prelude::*;
use crate::text::{
    all_digits, dec_rep, dec_val, parse_u64_digits, spec_sanitize_cap, str_eq, u64_to_dec,
};
use crate::types::ConfigVersion;

verus! {

/// One stored snapshot: its composite id, the decoded sequence number
/// (absent for legacy ids that carry none), category tag, creation time,
/// sanitized description, and the full content.
pub struct VersionRecord {
    pub id: String,
    pub seq: Option<u64>,
    pub category: String,
    pub timestamp: i64,
    pub description: String,
    pub content: String,
}

/// Mathematical value of a `VersionRecord`.
#[verifier::ext_equal]
pub ghost struct RecordV {
    pub id: Seq<char>,
    pub seq: Option<u64>,
    pub category: Seq<char>,
    pub timestamp: i64,
    pub description: Seq<char>,
    pub content: Seq<char>,
}

impl View for VersionRecord {
    type V = RecordV;

    open spec fn view(&self) -> RecordV {
        RecordV {
            id: self.id@,
            seq: self.seq,
            category: self.category@,
            timestamp: self.timestamp,
            description: self.description@,
            content: self.content@,
        }
    }
}

impl DeepView for VersionRecord {
    type V = RecordV;

    open spec fn deep_view(&self) -> RecordV {
        self.view()
    }
}

/// Failures of snapshot operations: an alias that resolves to no snapshot,
/// an id that names no snapshot, and a rollback aimed at the reserved
/// empty version.
#[derive(Clone, Copy, Debug, PartialEq, Eq, Structural)]
pub enum VersionError {
    AliasNotFound,
    SnapshotNotFound,
    EmptyVersionTarget,
}

/// The composite snapshot id: `v{seq}_{category}_{timestamp}_{description}.yaml`.
pub open spec fn version_id_of(seq: nat, category: Seq<char>, ts: nat, desc: Seq<char>) -> Seq<
    char,
> {
    "v"@ + dec_rep(seq) + "_"@ + category + "_"@ + dec_rep(ts) + "_"@ + desc + ".yaml"@
}

/// Index of the first record whose sequence number is `target`, or -1.
pub open spec fn find_by_seq(records: Seq<RecordV>, target: int) -> int
    decreases records.len(),
{
    if records.len() == 0 {
        -1
    } else if records[0].seq is Some && records[0].seq->0 == target {
        0
    } else {
        let r = find_by_seq(records.drop_first(), target);
        if r < 0 {
            -1
        } else {
            r + 1
        }
    }
}

pub proof fn lemma_find_by_seq_props(records: Seq<RecordV>, target: int)
    ensures
        -1 <= find_by_seq(records, target) < records.len(),
        find_by_seq(records, target) >= 0 ==> records[find_by_seq(records, target)].seq is Some
            && records[find_by_seq(records, target)].seq->0 == target,
        find_by_seq(records, target) == -1 ==> forall|k: int|
            0 <= k < records.len() ==> !((#[trigger] records[k]).seq is Some && records[k].seq->0
                == target),
        forall|k: int|
            0 <= k < find_by_seq(records, target) ==> !((#[trigger] records[k]).seq is Some
                && records[k].seq->0 == target),
    decreases records.len(),
{
    if records.len() > 0 && !(records[0].seq is Some && records[0].seq->0 == target) {
        lemma_find_by_seq_props(records.drop_first(), target);
        assert(forall|k: int|
            1 <= k < records.len() ==> (#[trigger] records[k]) == records.drop_first()[k - 1]);
    }
}

/// Index of the first record with the given id, or -1.
pub open spec fn find_by_id(records: Seq<RecordV>, id: Seq<char>) -> int
    decreases records.len(),
{
    if records.len() == 0 {
        -1
    } else if records[0].id == id {
        0
    } else {
        let r = find_by_id(records.drop_first(), id);
        if r < 0 {
            -1
        } else {
            r + 1
        }
    }
}

pub proof fn lemma_find_by_id_props(records: Seq<RecordV>, id: Seq<char>)
    ensures
        -1 <= find_by_id(records, id) < records.len(),
        find_by_id(records, id) >= 0 ==> records[find_by_id(records, id)].id == id,
        find_by_id(records, id) == -1 ==> forall|k: int|
            0 <= k < records.len() ==> (#[trigger] records[k]).id != id,
        forall|k: int| 0 <= k < find_by_id(records, id) ==> (#[trigger] records[k]).id != id,
    decreases records.len(),
{
    if records.len() > 0 && records[0].id != id {
        lemma_find_by_id_props(records.drop_first(), id);
        assert(forall|k: int|
            1 <= k < records.len() ==> (#[trigger] records[k]) == records.drop_first()[k - 1]);
    }
}

/// `alias` has the short form `v{digits}` (the digits possibly empty).
pub open spec fn is_short_alias(alias: Seq<char>) -> bool {
    alias.len() >= 1 && alias[0] == 'v' && all_digits(alias.skip(1))
}

/// Alias resolution: `v0` is reserved and resolves to itself; `v{N}`
/// resolves to the id of the first snapshot with sequence `N`, and fails
/// with `AliasNotFound` when none matches; anything else is taken to be a
/// concrete id already and passes through.
pub open spec fn spec_resolve(records: Seq<RecordV>, alias: Seq<char>) -> Result<
    Seq<char>,
    VersionError,
> {
    if alias == "v0"@ {
        Ok("v0"@)
    } else if is_short_alias(alias) {
        let k = find_by_seq(records, dec_val(alias.skip(1)));
        if k >= 0 {
            Ok(records[k].id)
        } else {
            Err(VersionError::AliasNotFound)
        }
    } else {
        Ok(alias)
    }
}

fn all_digits_str(s: &str) -> (b: bool)
    ensures
        b == all_digits(s@),
{
    let n = s.unicode_len();
    let mut i: usize = 0;
    while i < n
        invariant
            n == s@.len(),
            i <= n,
            forall|j: int| 0 <= j < i ==> crate::text::is_digit(#[trigger] s@[j]),
        decreases n - i,
    {
        let c = s.get_char(i);
        let cv = c as u32;
        if cv < 48 || cv > 57 {
            return false;
        }
        i = i + 1;
    }
    true
}

/// The record list after deleting by an id or alias: resolution errors
/// pass through, deleting the reserved `v0` changes nothing, a resolved id
/// removes the first record carrying it, and an unknown id fails.
pub open spec fn spec_delete(records: Seq<RecordV>, id: Seq<char>) -> Result<
    Seq<RecordV>,
    VersionError,
> {
    match spec_resolve(records, id) {
        Err(e) => Err(e),
        Ok(resolved) => {
            if resolved == "v0"@ {
                Ok(records)
            } else {
                let k = find_by_id(records, resolved);
                if k >= 0 {
                    Ok(records.remove(k))
                } else {
                    Err(VersionError::SnapshotNotFound)
                }
            }
        },
    }
}

/// The content-addressed, append-only snapshot history. Sequence numbers
/// are handed out by a counter that never decreases, so they are never
/// reused, even after deletions.
pub struct SnapshotStore {
    pub records: Vec<VersionRecord>,
    pub next_seq: u64,
}

impl SnapshotStore {
    /// Every stored sequence number lies below the counter.
    pub open spec fn wf(&self) -> bool {
        &&& self.next_seq >= 1
        &&& forall|i: int|
            0 <= i < self.records.deep_view().len() ==> ((#[trigger] self.records.deep_view()[i]).seq
                is Some ==> self.records.deep_view()[i].seq->0 < self.next_seq)
    }

    /// An empty store; the first snapshot will get sequence number 1.
    pub fn new() -> (s: SnapshotStore)
        ensures
            s.wf(),
            s.records.deep_view() == Seq::<RecordV>::empty(),
            s.next_seq == 1,
    {
        let s = SnapshotStore { records: Vec::new(), next_seq: 1 };
        proof {
            assert(s.records.deep_view() =~= Seq::<RecordV>::empty());
        }
        s
    }

    /// The sequence number the next saved snapshot will get.
    pub fn get_next_version_number(&self) -> (r: u64)
        ensures
            r == self.next_seq,
    {
        self.next_seq
    }

    /// Saves a snapshot: assigns the next sequence number, sanitizes the
    /// description, derives the composite id, and appends an immutable
    /// record. The new sequence number strictly exceeds every stored one,
    /// and the counter advances, so sequence numbers over successive saves
    /// strictly increase even across deletions.
    pub fn save_version(
        &mut self,
        file_type: &str,
        description: &str,
        timestamp: i64,
        content: &str,
    ) -> (v: ConfigVersion)
        requires
            old(self).wf(),
            timestamp >= 0,
            old(self).next_seq < u64::MAX,
        ensures
            final(self).wf(),
            final(self).next_seq == old(self).next_seq + 1,
            final(self).records.deep_view() == old(self).records.deep_view().push(
                RecordV {
                    id: version_id_of(
                        old(self).next_seq as nat,
                        file_type@,
                        timestamp as nat,
                        spec_sanitize_cap(description@),
                    ),
                    seq: Some(old(self).next_seq),
                    category: file_type@,
                    timestamp: timestamp,
                    description: spec_sanitize_cap(description@),
                    content: content@,
                },
            ),
            forall|i: int|
                0 <= i < old(self).records.deep_view().len() ==> ((#[trigger] old(
                    self,
                ).records.deep_view()[i]).seq is Some ==> old(self).records.deep_view()[i].seq->0
                    < old(self).next_seq),
            v.id@ == version_id_of(
                old(self).next_seq as nat,
                file_type@,
                timestamp as nat,
                spec_sanitize_cap(description@),
            ),
            v.timestamp == timestamp,
            v.description@ == "["@ + file_type@ + "] "@ + description@,
            v.file_path@ == v.id@,
    {
        let safe_desc = crate::text::sanitize_description(description);
        let seq_num = self.next_seq;
        let mut id = String::from_str("v");
        id.append(u64_to_dec(seq_num).as_str());
        id.append("_");
        id.append(file_type);
        id.append("_");
        id.append(u64_to_dec(timestamp as u64).as_str());
        id.append("_");
        id.append(safe_desc.as_str());
        id.append(".yaml");
        proof {
            assert(id@ =~= version_id_of(
                seq_num as nat,
                file_type@,
                timestamp as nat,
                spec_sanitize_cap(description@),
            ));
        }
        let record = VersionRecord {
            id: id.clone(),
            seq: Some(seq_num),
            category: String::from_str(file_type),
            timestamp,
            description: safe_desc,
            content: String::from_str(content),
        };
        self.records.push(record);
        self.next_seq = seq_num + 1;
        let mut display = String::from_str("[");
        display.append(file_type);
        display.append("] ");
        display.append(description);
        proof {
            assert(self.records.deep_view() =~= old(self).records.deep_view().push(
                RecordV {
                    id: version_id_of(
                        old(self).next_seq as nat,
                        file_type@,
                        timestamp as nat,
                        spec_sanitize_cap(description@),
                    ),
                    seq: Some(old(self).next_seq),
                    category: file_type@,
                    timestamp: timestamp,
                    description: spec_sanitize_cap(description@),
                    content: content@,
                },
            ));
            assert(display@ =~= "["@ + file_type@ + "] "@ + description@);
        }
        let file_path = id.clone();
        ConfigVersion { id, timestamp, description: display, file_path }
    }

    /// Resolves an alias or id to a concrete snapshot id.
    #[verifier::loop_isolation(false)]
    pub fn resolve_version_id(&self, alias: &str) -> (r: Result<String, VersionError>)
        ensures
            match r {
                Ok(s) => spec_resolve(self.records.deep_view(), alias@) == Ok::<
                    Seq<char>,
                    VersionError,
                >(s@),
                Err(e) => spec_resolve(self.records.deep_view(), alias@) == Err::<
                    Seq<char>,
                    VersionError,
                >(e),
            },
    {
        let ghost rv = self.records.deep_view();
        if str_eq(alias, "v0") {
            return Ok(String::from_str("v0"));
        }
        let n = alias.unicode_len();
        if n == 0 || alias.get_char(0) != 'v' {
            return Ok(String::from_str(alias));
        }
        let rest = alias.substring_char(1, n);
        proof {
            assert(rest@ =~= alias@.skip(1));
        }
        if !all_digits_str(rest) {
            return Ok(String::from_str(alias));
        }
        let target: u64 = if rest.unicode_len() == 0 {
            0u64
        } else {
            match parse_u64_digits(rest) {
                Some(v) => v,
                None => {
                    // All digits but the value exceeds u64::MAX: no stored
                    // sequence number can match it.
                    proof {
                        lemma_find_by_seq_props(rv, dec_val(alias@.skip(1)));
                        if find_by_seq(rv, dec_val(alias@.skip(1))) >= 0 {
                            assert(rv[find_by_seq(rv, dec_val(alias@.skip(1)))].seq->0
                                == dec_val(alias@.skip(1)));
                        }
                    }
                    return Err(VersionError::AliasNotFound);
                },
            }
        };
        let total = self.records.len();
        let mut i: usize = 0;
        while i < total
            invariant
                total == self.records@.len(),
                rv == self.records.deep_view(),
                i <= total,
                target as int == dec_val(alias@.skip(1)),
                forall|k: int|
                    0 <= k < i ==> !((#[trigger] rv[k]).seq is Some && rv[k].seq->0
                        == target as int),
            decreases total - i,
        {
            let matched = match self.records[i].seq {
                Some(s) => s == target,
                None => false,
            };
            if matched {
                proof {
                    lemma_find_by_seq_props(rv, target as int);
                    let f = find_by_seq(rv, target as int);
                    assert(rv[i as int].seq is Some && rv[i as int].seq->0 == target as int);
                    if f < i as int {
                        assert(!(rv[f].seq is Some && rv[f].seq->0 == target as int));
                    }
                    if f > i as int {
                        assert(!(rv[i as int].seq is Some && rv[i as int].seq->0 == target as int));
                    }
                    assert(f == i as int);
                }
                return Ok(self.records[i].id.clone());
            }
            i = i + 1;
        }
        proof {
            lemma_find_by_seq_props(rv, target as int);
        }
        Err(VersionError::AliasNotFound)
    }

    /// The content of the snapshot with the given concrete id; the reserved
    /// `v0` denotes the documented empty baseline and yields empty content.
    #[verifier::loop_isolation(false)]
    pub fn get_version_content(&self, id: &str) -> (r: Result<String, VersionError>)
        ensures
            id@ == "v0"@ ==> r is Ok && r->Ok_0@ == Seq::<char>::empty(),
            id@ != "v0"@ && find_by_id(self.records.deep_view(), id@) >= 0 ==> r is Ok
                && r->Ok_0@ == self.records.deep_view()[find_by_id(
                self.records.deep_view(),
                id@,
            )].content,
            id@ != "v0"@ && find_by_id(self.records.deep_view(), id@) == -1 ==> r == Err::<
                String,
                VersionError,
            >(VersionError::SnapshotNotFound),
    {
        let ghost rv = self.records.deep_view();
        if str_eq(id, "v0") {
            return Ok(String::new());
        }
        let total = self.records.len();
        let mut i: usize = 0;
        while i < total
            invariant
                total == self.records@.len(),
                rv == self.records.deep_view(),
                i <= total,
                forall|k: int| 0 <= k < i ==> (#[trigger] rv[k]).id != id@,
            decreases total - i,
        {
            if str_eq(self.records[i].id.as_str(), id) {
                proof {
                    lemma_find_by_id_props(rv, id@);
                    let f = find_by_id(rv, id@);
                    assert(rv[i as int].id == id@);
                    if f < i as int {
                        assert(rv[f].id != id@);
                    }
                    if f > i as int {
                        assert(rv[i as int].id != id@);
                    }
                    assert(f == i as int);
                }
                return Ok(self.records[i].content.clone());
            }
            i = i + 1;
        }
        proof {
            lemma_find_by_id_props(rv, id@);
        }
        Err(VersionError::SnapshotNotFound)
    }

    /// Deletes the snapshot named by an id or alias. The sequence counter
    /// is untouched: a deleted number is never reused. Deleting the
    /// reserved `v0` is a no-op.
    #[verifier::loop_isolation(false)]
    pub fn delete_version(&mut self, id: &str) -> (r: Result<(), VersionError>)
        requires
            old(self).wf(),
        ensures
            final(self).wf(),
            final(self).next_seq == old(self).next_seq,
            match spec_delete(old(self).records.deep_view(), id@) {
                Ok(recs) => r is Ok && final(self).records.deep_view() == recs,
                Err(e) => r == Err::<(), VersionError>(e) && final(self).records.deep_view()
                    == old(self).records.deep_view(),
            },
    {
        let ghost rv = self.records.deep_view();
        let resolved = match self.resolve_version_id(id) {
            Ok(s) => s,
            Err(e) => {
                return Err(e);
            },
        };
        if str_eq(resolved.as_str(), "v0") {
            return Ok(());
        }
        let total = self.records.len();
        let mut i: usize = 0;
        while i < total
            invariant
                total == self.records@.len(),
                rv == self.records.deep_view(),
                old(self).wf(),
                self == old(self),
                i <= total,
                forall|k: int| 0 <= k < i ==> (#[trigger] rv[k]).id != resolved@,
            decreases total - i,
        {
            if str_eq(self.records[i].id.as_str(), resolved.as_str()) {
                proof {
                    lemma_find_by_id_props(rv, resolved@);
                    let f = find_by_id(rv, resolved@);
                    assert(rv[i as int].id == resolved@);
                    if f < i as int {
                        assert(rv[f].id != resolved@);
                    }
                    if f > i as int {
                        assert(rv[i as int].id != resolved@);
                    }
                    assert(f == i as int);
                }
                self.records.remove(i);
                proof {
                    assert(self.records.deep_view() =~= rv.remove(i as int));
                }
                return Ok(());
            }
            i = i + 1;
        }
        proof {
            lemma_find_by_id_props(rv, resolved@);
        }
        Err(VersionError::SnapshotNotFound)
    }

    /// Rolls the live configuration back to a stored snapshot. The target
    /// is resolved and its content fetched first; then, when a live
    /// content exists, exactly one new `backup` snapshot of it is saved
    /// before anything else happens, so the returned content can overwrite
    /// the live file without destroying unrecoverable data. The reserved
    /// `v0` target is refused.
    pub fn rollback_to_version(&mut self, id: &str, live: Option<&str>, timestamp: i64) -> (r:
        Result<String, VersionError>)
        requires
            old(self).wf(),
            timestamp >= 0,
            old(self).next_seq < u64::MAX,
        ensures
            final(self).wf(),
            match spec_rollback_target(old(self).records.deep_view(), id@) {
                Err(e) => r == Err::<String, VersionError>(e) && *final(self) == *old(self),
                Ok(content) => {
                    &&& r is Ok
                    &&& r->Ok_0@ == content
                    &&& (live is None ==> *final(self) == *old(self))
                    &&& (live is Some ==> {
                        &&& final(self).next_seq == old(self).next_seq + 1
                        &&& final(self).records.deep_view() == old(self).records.deep_view().push(
                            RecordV {
                                id: version_id_of(
                                    old(self).next_seq as nat,
                                    "backup"@,
                                    timestamp as nat,
                                    spec_sanitize_cap("auto_backup_before_rollback"@),
                                ),
                                seq: Some(old(self).next_seq),
                                category: "backup"@,
                                timestamp: timestamp,
                                description: spec_sanitize_cap("auto_backup_before_rollback"@),
                                content: live->0@,
                            },
                        )
                    })
                },
            },
    {
        let resolved = match self.resolve_version_id(id) {
            Ok(s) => s,
            Err(e) => {
                return Err(e);
            },
        };
        if str_eq(resolved.as_str(), "v0") {
            return Err(VersionError::EmptyVersionTarget);
        }
        let content = match self.get_version_content(resolved.as_str()) {
            Ok(c) => c,
            Err(e) => {
                return Err(e);
            },
        };
        match live {
            Some(current) => {
                self.save_version("backup", "auto_backup_before_rollback", timestamp, current);
            },
            None => {},
        }
        Ok(content)
    }
}

/// Decoded snapshot metadata as encoded into a snapshot file name.
pub struct VersionMeta {
    pub seq: Option<u64>,
    pub category: String,
    pub timestamp: i64,
    pub description: String,
}

/// Mathematical value of a `VersionMeta`.
#[verifier::ext_equal]
pub ghost struct MetaV {
    pub seq: Option<u64>,
    pub category: Seq<char>,
    pub timestamp: i64,
    pub description: Seq<char>,
}

impl View for VersionMeta {
    type V = MetaV;

    open spec fn view(&self) -> MetaV {
        MetaV {
            seq: self.seq,
            category: self.category@,
            timestamp: self.timestamp,
            description: self.description@,
        }
    }
}

impl DeepView for VersionMeta {
    type V = MetaV;

    open spec fn deep_view(&self) -> MetaV {
        self.view()
    }
}

/// The file name without its snapshot extension, or `None` when it has
/// neither a `.yaml` nor a `.yml` one.
pub open spec fn strip_yaml_ext(name: Seq<char>) -> Option<Seq<char>> {
    if crate::text::spec_ends_with(name, ".yaml"@) {
        Some(name.take(name.len() - 5))
    } else if crate::text::spec_ends_with(name, ".yml"@) {
        Some(name.take(name.len() - 4))
    } else {
        None
    }
}

/// Decoding of a snapshot file name. The current encoding is
/// `v{N}_{category}_{timestamp}_{description}` plus the extension; two
/// legacy encodings without a sequence number (`v_{category}_{ts}_{desc}`,
/// which the first branch also covers, and `v_{ts}_{desc}`) still decode,
/// with `legacy` as the fallback category. Anything else is malformed and
/// yields `None`. A sequence number must leave room for a successor, so
/// the largest machine value is treated as absent.
pub open spec fn spec_parse_filename(name: Seq<char>) -> Option<MetaV> {
    match strip_yaml_ext(name) {
        None => None,
        Some(stem) => {
            if stem.len() == 0 || stem[0] != 'v' {
                None
            } else {
                let parts = crate::text::spec_split(stem, '_');
                if parts.len() >= 4 && all_digits(parts[0].skip(1)) && crate::text::is_i64_digits(
                    parts[2],
                ) {
                    Some(
                        MetaV {
                            seq: if parts[0].skip(1).len() > 0 && dec_val(parts[0].skip(1))
                                < u64::MAX {
                                Some(dec_val(parts[0].skip(1)) as u64)
                            } else {
                                None
                            },
                            category: parts[1],
                            timestamp: dec_val(parts[2]) as i64,
                            description: crate::text::spec_join(parts.skip(3), '_'),
                        },
                    )
                } else if parts.len() >= 3 && parts[0] == "v"@ && crate::text::is_i64_digits(
                    parts[1],
                ) {
                    Some(
                        MetaV {
                            seq: None,
                            category: "legacy"@,
                            timestamp: dec_val(parts[1]) as i64,
                            description: crate::text::spec_join(parts.skip(2), '_'),
                        },
                    )
                } else {
                    None
                }
            }
        },
    }
}

/// Decodes one snapshot file name, `None` for a malformed one.
#[verifier::loop_isolation(false)]
pub fn parse_version_filename(name: &str) -> (r: Option<VersionMeta>)
    ensures
        r.deep_view() == spec_parse_filename(name@),
{
    let n = name.unicode_len();
    let stem: &str = if crate::text::ends_with(name, ".yaml") {
        proof {
            reveal_strlit(".yaml");
        }
        name.substring_char(0, n - 5)
    } else if crate::text::ends_with(name, ".yml") {
        proof {
            reveal_strlit(".yaml");
            reveal_strlit(".yml");
        }
        name.substring_char(0, n - 4)
    } else {
        return None;
    };
    proof {
        assert(stem@ =~= strip_yaml_ext(name@)->0);
    }
    let m = stem.unicode_len();
    if m == 0 || stem.get_char(0) != 'v' {
        return None;
    }
    let parts = crate::text::split_char(stem, '_');
    let ghost pv = crate::text::views(parts@);
    proof {
        crate::text::lemma_split_first(stem@, '_');
        assert(pv[0] == parts@[0]@);
    }
    if parts.len() >= 4 {
        let p0len = parts[0].as_str().unicode_len();
        let digits = parts[0].as_str().substring_char(1, p0len);
        proof {
            assert(digits@ =~= pv[0].skip(1));
        }
        if all_digits_str(digits) {
            match crate::text::parse_i64_digits(parts[2].as_str()) {
                Some(ts) => {
                    let seq: Option<u64> = if digits.unicode_len() == 0 {
                        None
                    } else {
                        match parse_u64_digits(digits) {
                            Some(v) => {
                                if v < u64::MAX {
                                    Some(v)
                                } else {
                                    None
                                }
                            },
                            None => None,
                        }
                    };
                    let category = parts[1].clone();
                    let description = crate::text::join_underscore(&parts, 3);
                    return Some(VersionMeta { seq, category, timestamp: ts, description });
                },
                None => {},
            }
        }
    }
    if parts.len() >= 3 && str_eq(parts[0].as_str(), "v") {
        match crate::text::parse_i64_digits(parts[1].as_str()) {
            Some(ts) => {
                proof {
                    reveal_strlit("v");
                    assert(!(pv.len() >= 4 && all_digits(pv[0].skip(1)) && crate::text::is_i64_digits(
                        pv[2],
                    )));
                }
                return Some(
                    VersionMeta {
                        seq: None,
                        category: String::from_str("legacy"),
                        timestamp: ts,
                        description: crate::text::join_underscore(&parts, 2),
                    },
                );
            },
            None => {},
        }
    }
    None
}

/// The record a decoded file entry becomes.
pub open spec fn record_of_entry(name: Seq<char>, content: Seq<char>, meta: MetaV) -> RecordV {
    RecordV {
        id: name,
        seq: meta.seq,
        category: meta.category,
        timestamp: meta.timestamp,
        description: meta.description,
        content: content,
    }
}

/// The records decoded from a list of (file name, content) entries, in
/// entry order; malformed names are skipped, not errors.
pub open spec fn spec_ingest(entries: Seq<(Seq<char>, Seq<char>)>) -> Seq<RecordV>
    decreases entries.len(),
{
    if entries.len() == 0 {
        Seq::empty()
    } else {
        let rest = spec_ingest(entries.drop_last());
        match spec_parse_filename(entries.last().0) {
            Some(meta) => rest.push(record_of_entry(entries.last().0, entries.last().1, meta)),
            None => rest,
        }
    }
}

/// The largest stored sequence number, 0 when none is stored.
pub open spec fn max_seq(records: Seq<RecordV>) -> u64
    decreases records.len(),
{
    if records.len() == 0 {
        0u64
    } else {
        let m = max_seq(records.drop_last());
        match records.last().seq {
            Some(s) => if s > m {
                s
            } else {
                m
            },
            None => m,
        }
    }
}

pub proof fn lemma_max_seq_props(records: Seq<RecordV>)
    ensures
        forall|i: int|
            0 <= i < records.len() && (#[trigger] records[i]).seq is Some ==> records[i].seq->0
                <= max_seq(records),
        max_seq(records) == 0 || exists|i: int|
            0 <= i < records.len() && (#[trigger] records[i]).seq == Some(max_seq(records)),
    decreases records.len(),
{
    if records.len() > 0 {
        lemma_max_seq_props(records.drop_last());
        assert(forall|i: int|
            0 <= i < records.len() - 1 ==> (#[trigger] records[i]) == records.drop_last()[i]);
        assert(records[records.len() - 1] == records.last());
    }
}

proof fn lemma_ingest_seq_bounded(entries: Seq<(Seq<char>, Seq<char>)>)
    ensures
        forall|i: int|
            0 <= i < spec_ingest(entries).len() && (#[trigger] spec_ingest(entries)[i]).seq is Some
                ==> spec_ingest(entries)[i].seq->0 < u64::MAX,
    decreases entries.len(),
{
    if entries.len() > 0 {
        lemma_ingest_seq_bounded(entries.drop_last());
        let rest = spec_ingest(entries.drop_last());
        match spec_parse_filename(entries.last().0) {
            Some(meta) => {
                assert(forall|i: int|
                    0 <= i < rest.len() ==> (#[trigger] spec_ingest(entries)[i]) == rest[i]);
                if meta.seq is Some {
                    let stem = strip_yaml_ext(entries.last().0)->0;
                    let parts = crate::text::spec_split(stem, '_');
                    crate::text::lemma_dec_val_nonneg(parts[0].skip(1));
                    assert(meta.seq->0 < u64::MAX);
                }
                assert(spec_ingest(entries).last() == record_of_entry(
                    entries.last().0,
                    entries.last().1,
                    meta,
                ));
            },
            None => {},
        }
    }
}

/// The views of a sequence of (file name, content) pairs.
pub open spec fn entry_views(entries: Seq<(String, String)>) -> Seq<(Seq<char>, Seq<char>)> {
    entries.map_values(|e: (String, String)| (e.0@, e.1@))
}

impl SnapshotStore {
    /// Rebuilds a store from persisted (file name, content) entries:
    /// well-formed names become records in entry order, malformed ones
    /// are skipped, and the counter restarts just past the largest decoded
    /// sequence number.
    pub fn from_entries(entries: Vec<(String, String)>) -> (s: SnapshotStore)
        ensures
            s.wf(),
            s.records.deep_view() == spec_ingest(entry_views(entries@)),
            s.next_seq == max_seq(spec_ingest(entry_views(entries@))) + 1,
    {
        let ghost ev = entry_views(entries@);
        let mut rest = entries;
        let mut records: Vec<VersionRecord> = Vec::new();
        let mut cur_max: u64 = 0;
        let ghost mut i: int = 0;
        proof {
            assert(ev.take(0) =~= Seq::<(Seq<char>, Seq<char>)>::empty());
            assert(records.deep_view() =~= spec_ingest(ev.take(0)));
        }
        while rest.len() > 0
            invariant
                0 <= i <= ev.len(),
                rest.deep_view() == ev.skip(i),
                records.deep_view() == spec_ingest(ev.take(i)),
                cur_max == max_seq(spec_ingest(ev.take(i))),
                cur_max < u64::MAX,
            decreases rest@.len(),
        {
            proof {
                assert(ev.skip(i).len() == ev.len() - i);
                assert(ev.take(i + 1).drop_last() =~= ev.take(i));
                assert(ev.take(i + 1).last() == ev[i]);
            }
            let ghost rv0 = rest.deep_view();
            let entry = rest.remove(0);
            proof {
                assert(rest.deep_view() =~~= rv0.skip(1));
                assert(rv0.skip(1) =~~= ev.skip(i + 1));
                assert(rest.deep_view() == ev.skip(i + 1));
                assert(rv0[0] == ev.skip(i)[0]);
                assert(entry.deep_view() == rv0[0]);
                assert((entry.0@, entry.1@) == ev[i]);
            }
            match parse_version_filename(entry.0.as_str()) {
                Some(meta) => {
                    let record = VersionRecord {
                        id: entry.0,
                        seq: meta.seq,
                        category: meta.category,
                        timestamp: meta.timestamp,
                        description: meta.description,
                        content: entry.1,
                    };
                    proof {
                        lemma_ingest_seq_bounded(ev.take(i + 1));
                        assert(record.deep_view() == record_of_entry(
                            ev[i].0,
                            ev[i].1,
                            meta.deep_view(),
                        ));
                        assert(records.deep_view().push(record.deep_view()) =~= spec_ingest(
                            ev.take(i + 1),
                        ));
                    }
                    let new_max = match record.seq {
                        Some(s) => {
                            if s > cur_max {
                                s
                            } else {
                                cur_max
                            }
                        },
                        None => cur_max,
                    };
                    let ghost prev = records.deep_view();
                    let ghost recv = record.deep_view();
                    records.push(record);
                    cur_max = new_max;
                    proof {
                        let ing1 = spec_ingest(ev.take(i + 1));
                        assert(ing1 == prev.push(recv));
                        assert(ing1.drop_last() =~= prev);
                        assert(ing1.last() == recv);
                        assert(spec_ingest(ev.take(i + 1)).last().seq is Some
                            ==> spec_ingest(ev.take(i + 1)).last().seq->0 < u64::MAX);
                        assert(cur_max == max_seq(spec_ingest(ev.take(i + 1))));
                    }
                },
                None => {
                    proof {
                        assert(records.deep_view() =~= spec_ingest(ev.take(i + 1)));
                    }
                },
            }
            proof {
                i = i + 1;
            }
        }
        proof {
            assert(ev.take(i) =~= ev);
        }
        let s = SnapshotStore { records, next_seq: cur_max + 1 };
        proof {
            lemma_max_seq_props(s.records.deep_view());
        }
        s
    }
}

/// The listing line of one record: `v{N} [{category}] {description}`, or
/// without the leading number for a legacy record.
pub open spec fn display_of(r: RecordV) -> Seq<char> {
    if r.seq is Some {
        "v"@ + dec_rep(r.seq->0 as nat) + " ["@ + r.category + "] "@ + r.description
    } else {
        "["@ + r.category + "] "@ + r.description
    }
}

/// The listing metadata of one record.
pub open spec fn cv_of(r: RecordV) -> crate::types::ConfigVersionV {
    crate::types::ConfigVersionV {
        id: r.id,
        timestamp: r.timestamp,
        description: display_of(r),
        file_path: r.id,
    }
}

/// Timestamps never increase along the sequence.
pub open spec fn sorted_desc(s: Seq<crate::types::ConfigVersionV>) -> bool {
    forall|i: int, j: int| 0 <= i < j < s.len() ==> s[i].timestamp >= s[j].timestamp
}

fn sort_versions_desc(v: Vec<ConfigVersion>) -> (r: Vec<ConfigVersion>)
    ensures
        sorted_desc(r.deep_view()),
        r.deep_view().to_multiset() == v.deep_view().to_multiset(),
{
    broadcast use vstd::multiset::group_multiset_axioms;

    let ghost orig = v.deep_view();
    let mut src = v;
    let mut out: Vec<ConfigVersion> = Vec::new();
    proof {
        orig.to_multiset_ensures();
        assert(out.deep_view() =~~= Seq::<crate::types::ConfigVersionV>::empty());
        out.deep_view().to_multiset_ensures();
        assert(out.deep_view().to_multiset() =~= vstd::multiset::Multiset::<crate::types::ConfigVersionV>::empty());
        assert(out.deep_view().to_multiset().add(src.deep_view().to_multiset()) =~=
            orig.to_multiset());
    }
    while src.len() > 0
        invariant
            out.deep_view().to_multiset().add(src.deep_view().to_multiset())
                == orig.to_multiset(),
            sorted_desc(out.deep_view()),
            forall|a: int, b: int|
                0 <= a < out.deep_view().len() && 0 <= b < src.deep_view().len() ==> (
                #[trigger] out.deep_view()[a]).timestamp >= (#[trigger] src.deep_view()[b]).timestamp,
        decreases src@.len(),
    {
        let mut m: usize = 0;
        let mut k: usize = 1;
        while k < src.len()
            invariant
                src@.len() > 0,
                m < k,
                k <= src@.len(),
                forall|j: int|
                    0 <= j < k ==> src.deep_view()[m as int].timestamp >= (
                    #[trigger] src.deep_view()[j]).timestamp,
            decreases src@.len() - k,
        {
            if src[k].timestamp > src[m].timestamp {
                m = k;
            }
            k = k + 1;
        }
        let ghost sv0 = src.deep_view();
        let item = src.remove(m);
        let ghost itemv = item.deep_view();
        proof {
            assert(itemv == sv0[m as int]);
            assert(src.deep_view() =~~= sv0.remove(m as int));
            sv0.to_multiset_ensures();
            assert(src.deep_view().to_multiset() == sv0.to_multiset().remove(itemv));
            assert(sv0.to_multiset().contains(itemv));
        }
        let ghost ov0 = out.deep_view();
        out.push(item);
        proof {
            assert(out.deep_view() =~~= ov0.push(itemv));
            ov0.to_multiset_ensures();
            assert(out.deep_view().to_multiset() == ov0.to_multiset().insert(itemv));
            assert(out.deep_view().to_multiset().add(src.deep_view().to_multiset()) =~=
                orig.to_multiset());
            assert(forall|j: int|
                0 <= j < sv0.len() ==> itemv.timestamp >= (#[trigger] sv0[j]).timestamp);
            assert(forall|b: int|
                0 <= b < src.deep_view().len() ==> (#[trigger] src.deep_view()[b])
                    == sv0[if b < m as int { b } else { b + 1 }]);
            assert(sorted_desc(out.deep_view()));
        }
    }
    proof {
        src.deep_view().to_multiset_ensures();
        assert(src.deep_view().to_multiset() =~= vstd::multiset::Multiset::<
            crate::types::ConfigVersionV,
        >::empty());
        assert(out.deep_view().to_multiset() =~= orig.to_multiset());
    }
    out
}

impl SnapshotStore {
    /// The metadata of every stored snapshot, content excluded, newest
    /// first: the result is sorted by timestamp descending and holds one
    /// line per record.
    pub fn list_versions(&self) -> (r: Vec<ConfigVersion>)
        ensures
            sorted_desc(r.deep_view()),
            r.deep_view().to_multiset() == self.records.deep_view().map_values(
                |rec: RecordV| cv_of(rec),
            ).to_multiset(),
    {
        let ghost rv = self.records.deep_view();
        let ghost mapper = |rec: RecordV| cv_of(rec);
        let mut mapped: Vec<ConfigVersion> = Vec::new();
        let total = self.records.len();
        let mut i: usize = 0;
        proof {
            assert(mapped.deep_view() =~~= rv.take(0).map_values(mapper));
        }
        while i < total
            invariant
                total == self.records@.len(),
                rv == self.records.deep_view(),
                mapper == (|rec: RecordV| cv_of(rec)),
                i <= total,
                mapped.deep_view() == rv.take(i as int).map_values(mapper),
            decreases total - i,
        {
            let rec = &self.records[i];
            let mut display: String;
            match rec.seq {
                Some(s) => {
                    display = String::from_str("v");
                    display.append(u64_to_dec(s).as_str());
                    display.append(" [");
                },
                None => {
                    display = String::from_str("[");
                },
            }
            display.append(rec.category.as_str());
            display.append("] ");
            display.append(rec.description.as_str());
            proof {
                assert(display@ =~= display_of(rv[i as int]));
            }
            let cv = ConfigVersion {
                id: rec.id.clone(),
                timestamp: rec.timestamp,
                description: display,
                file_path: rec.id.clone(),
            };
            let ghost prev = mapped.deep_view();
            mapped.push(cv);
            proof {
                assert(cv.deep_view() == cv_of(rv[i as int]));
                assert(mapped.deep_view() =~~= prev.push(cv.deep_view()));
                assert(rv.take(i + 1).drop_last() =~= rv.take(i as int));
                assert(rv.take(i + 1).last() == rv[i as int]);
                assert(mapped.deep_view() =~~= rv.take(i + 1).map_values(mapper));
            }
            i = i + 1;
        }
        proof {
            assert(rv.take(total as int) =~= rv);
        }
        sort_versions_desc(mapped)
    }
}

/// Sequence numbers strictly increase across successive saves, including
/// after deletions: every number stored in a well-formed store lies below
/// the counter, the next save hands out exactly the counter value and
/// advances it, and deletion leaves the counter untouched — so a number,
/// once handed out, is never reached again.
pub proof fn lemma_sequence_numbers_strictly_increase(s: SnapshotStore, i: int)
    requires
        s.wf(),
        0 <= i < s.records.deep_view().len(),
        s.records.deep_view()[i].seq is Some,
    ensures
        s.records.deep_view()[i].seq->0 < s.next_seq,
{
}

/// What a rollback aims at: the content of the snapshot the alias or id
/// resolves to; the reserved empty version is refused.
pub open spec fn spec_rollback_target(records: Seq<RecordV>, id: Seq<char>) -> Result<
    Seq<char>,
    VersionError,
> {
    match spec_resolve(records, id) {
        Err(e) => Err(e),
        Ok(resolved) => {
            if resolved == "v0"@ {
                Err(VersionError::EmptyVersionTarget)
            } else {
                let k = find_by_id(records, resolved);
                if k >= 0 {
                    Ok(records[k].content)
                } else {
                    Err(VersionError::SnapshotNotFound)
                }
            }
        },
    }
}

/// One line of a diff, tagged `"added"`, `"removed"` or `"unchanged"`.
pub struct DiffLine {
    pub line_type: String,
    pub content: String,
}

/// Mathematical value of a `DiffLine`.
#[verifier::ext_equal]
pub ghost struct DiffLineV {
    pub line_type: Seq<char>,
    pub content: Seq<char>,
}

impl View for DiffLine {
    type V = DiffLineV;

    open spec fn view(&self) -> DiffLineV {
        DiffLineV { line_type: self.line_type@, content: self.content@ }
    }
}

impl DeepView for DiffLine {
    type V = DiffLineV;

    open spec fn deep_view(&self) -> DiffLineV {
        self.view()
    }
}

/// The lines that diff entries tagged with either kind spell out, in order.
pub open spec fn reconstruct(entries: Seq<DiffLineV>, k1: Seq<char>, k2: Seq<char>) -> Seq<
    Seq<char>,
>
    decreases entries.len(),
{
    if entries.len() == 0 {
        Seq::empty()
    } else {
        let head = entries[0];
        let rest = reconstruct(entries.drop_first(), k1, k2);
        if head.line_type == k1 || head.line_type == k2 {
            seq![head.content] + rest
        } else {
            rest
        }
    }
}

proof fn lemma_reconstruct_push(entries: Seq<DiffLineV>, k1: Seq<char>, k2: Seq<char>, e: DiffLineV)
    ensures
        reconstruct(entries.push(e), k1, k2) == reconstruct(entries, k1, k2) + (if e.line_type
            == k1 || e.line_type == k2 {
            seq![e.content]
        } else {
            Seq::<Seq<char>>::empty()
        }),
    decreases entries.len(),
{
    let tail = (if e.line_type == k1 || e.line_type == k2 {
        seq![e.content]
    } else {
        Seq::<Seq<char>>::empty()
    });
    if entries.len() == 0 {
        assert(entries.push(e).drop_first() =~= entries);
        assert(reconstruct(entries.push(e), k1, k2) =~~= reconstruct(entries, k1, k2) + tail);
    } else {
        assert(entries.push(e).drop_first() =~= entries.drop_first().push(e));
        lemma_reconstruct_push(entries.drop_first(), k1, k2, e);
        assert(entries.push(e)[0] == entries[0]);
        assert(reconstruct(entries.push(e), k1, k2) =~~= reconstruct(entries, k1, k2) + tail);
    }
}

/// The lines of a text: the newline-separated segments, with the trailing
/// empty segment of a newline-terminated (or empty) text dropped.
pub open spec fn spec_lines(s: Seq<char>) -> Seq<Seq<char>> {
    let parts = crate::text::spec_split(s, '\n');
    if parts.last().len() == 0 {
        parts.drop_last()
    } else {
        parts
    }
}

fn split_lines(s: &str) -> (r: Vec<String>)
    ensures
        crate::text::views(r@) == spec_lines(s@),
{
    let mut parts = crate::text::split_char(s, '\n');
    let last_len = parts[parts.len() - 1].as_str().unicode_len();
    if last_len == 0 {
        let ghost pv = crate::text::views(parts@);
        parts.pop();
        proof {
            assert(crate::text::views(parts@) =~~= pv.drop_last());
        }
    }
    parts
}

/// Every entry is tagged with one of the three kinds.
pub open spec fn diff_kinds_ok(entries: Seq<DiffLineV>) -> bool {
    forall|i: int|
        0 <= i < entries.len() ==> ((#[trigger] entries[i]).line_type == "added"@
            || entries[i].line_type == "removed"@ || entries[i].line_type == "unchanged"@)
}

proof fn lemma_kinds_distinct()
    ensures
        "added"@ != "removed"@,
        "added"@ != "unchanged"@,
        "removed"@ != "unchanged"@,
{
    reveal_strlit("added");
    reveal_strlit("removed");
    reveal_strlit("unchanged");
    assert("added"@.len() == 5);
    assert("removed"@.len() == 7);
    assert("unchanged"@.len() == 9);
}

/// An index-aligned line diff: position by position, equal lines come out
/// `unchanged` and differing ones as a `removed` line then an `added` one;
/// a longer old text trails in `removed` lines, a longer new text in
/// `added` ones. The `removed` and `unchanged` entries, in order, spell
/// the old lines exactly; the `added` and `unchanged` entries spell the
/// new lines; equal inputs yield only `unchanged` entries.
#[verifier::loop_isolation(false)]
fn diff_lines(a: &Vec<String>, b: &Vec<String>) -> (r: Vec<DiffLine>)
    ensures
        reconstruct(r.deep_view(), "removed"@, "unchanged"@) == crate::text::views(a@),
        reconstruct(r.deep_view(), "added"@, "unchanged"@) == crate::text::views(b@),
        diff_kinds_ok(r.deep_view()),
        crate::text::views(a@) == crate::text::views(b@) ==> forall|i: int|
            0 <= i < r.deep_view().len() ==> (#[trigger] r.deep_view()[i]).line_type
                == "unchanged"@,
    decreases a@.len(),
{
    let ghost av = crate::text::views(a@);
    let ghost bv = crate::text::views(b@);
    let n = a.len();
    let m = b.len();
    let mut out: Vec<DiffLine> = Vec::new();
    let mut i: usize = 0;
    proof {
        lemma_kinds_distinct();
        assert(reconstruct(out.deep_view(), "removed"@, "unchanged"@) =~~= av.take(0));
        assert(reconstruct(out.deep_view(), "added"@, "unchanged"@) =~~= bv.take(0));
    }
    while i < n || i < m
        invariant
            i <= n || i <= m,
            reconstruct(out.deep_view(), "removed"@, "unchanged"@) == av.take(
                if i <= n {
                    i as int
                } else {
                    n as int
                },
            ),
            reconstruct(out.deep_view(), "added"@, "unchanged"@) == bv.take(
                if i <= m {
                    i as int
                } else {
                    m as int
                },
            ),
            diff_kinds_ok(out.deep_view()),
            av == bv ==> forall|j: int|
                0 <= j < out.deep_view().len() ==> (#[trigger] out.deep_view()[j]).line_type
                    == "unchanged"@,
        decreases (if n > m {
            n as int
        } else {
            m as int
        }) - i,
    {
        let ghost prev = out.deep_view();
        if i < n && i < m {
            if str_eq(a[i].as_str(), b[i].as_str()) {
                let entry = DiffLine {
                    line_type: String::from_str("unchanged"),
                    content: a[i].clone(),
                };
                let ghost ev = entry.deep_view();
                out.push(entry);
                proof {
                    assert(out.deep_view() =~~= prev.push(ev));
                    lemma_reconstruct_push(prev, "removed"@, "unchanged"@, ev);
                    lemma_reconstruct_push(prev, "added"@, "unchanged"@, ev);
                    assert(reconstruct(out.deep_view(), "removed"@, "unchanged"@) =~~= av.take(
                        i + 1,
                    ));
                    assert(reconstruct(out.deep_view(), "added"@, "unchanged"@) =~~= bv.take(
                        i + 1,
                    ));
                }
            } else {
                let removed_entry = DiffLine {
                    line_type: String::from_str("removed"),
                    content: a[i].clone(),
                };
                let ghost rv = removed_entry.deep_view();
                out.push(removed_entry);
                let ghost mid = out.deep_view();
                let added_entry = DiffLine {
                    line_type: String::from_str("added"),
                    content: b[i].clone(),
                };
                let ghost adv = added_entry.deep_view();
                out.push(added_entry);
                proof {
                    assert(mid =~~= prev.push(rv));
                    assert(out.deep_view() =~~= mid.push(adv));
                    lemma_reconstruct_push(prev, "removed"@, "unchanged"@, rv);
                    lemma_reconstruct_push(prev, "added"@, "unchanged"@, rv);
                    lemma_reconstruct_push(mid, "removed"@, "unchanged"@, adv);
                    lemma_reconstruct_push(mid, "added"@, "unchanged"@, adv);
                    assert(reconstruct(out.deep_view(), "removed"@, "unchanged"@) =~~= av.take(
                        i + 1,
                    ));
                    assert(reconstruct(out.deep_view(), "added"@, "unchanged"@) =~~= bv.take(
                        i + 1,
                    ));
                    assert(av[i as int] != bv[i as int]);
                }
            }
        } else if i < n {
            let entry = DiffLine { line_type: String::from_str("removed"), content: a[i].clone() };
            let ghost ev = entry.deep_view();
            out.push(entry);
            proof {
                assert(out.deep_view() =~~= prev.push(ev));
                lemma_reconstruct_push(prev, "removed"@, "unchanged"@, ev);
                lemma_reconstruct_push(prev, "added"@, "unchanged"@, ev);
                assert(reconstruct(out.deep_view(), "removed"@, "unchanged"@) =~~= av.take(i + 1));
                assert(reconstruct(out.deep_view(), "added"@, "unchanged"@) =~~= bv.take(
                    m as int,
                ));
                assert(av.len() != bv.len());
            }
        } else {
            let entry = DiffLine { line_type: String::from_str("added"), content: b[i].clone() };
            let ghost ev = entry.deep_view();
            out.push(entry);
            proof {
                assert(out.deep_view() =~~= prev.push(ev));
                lemma_reconstruct_push(prev, "removed"@, "unchanged"@, ev);
                lemma_reconstruct_push(prev, "added"@, "unchanged"@, ev);
                assert(reconstruct(out.deep_view(), "removed"@, "unchanged"@) =~~= av.take(
                    n as int,
                ));
                assert(reconstruct(out.deep_view(), "added"@, "unchanged"@) =~~= bv.take(i + 1));
                assert(av.len() != bv.len());
            }
        }
        i = i + 1;
    }
    proof {
        assert(av.take(n as int) =~= av);
        assert(bv.take(m as int) =~= bv);
    }
    out
}

/// A line-oriented diff of two configuration texts. Reassembling the
/// `removed` and `unchanged` entries, in order, reconstructs the old
/// text's lines; the `added` and `unchanged` entries reconstruct the new
/// text's lines; diffing a text against itself yields only `unchanged`
/// entries.
pub fn diff_configs(old_text: &str, new_text: &str) -> (r: Vec<DiffLine>)
    ensures
        reconstruct(r.deep_view(), "removed"@, "unchanged"@) == spec_lines(old_text@),
        reconstruct(r.deep_view(), "added"@, "unchanged"@) == spec_lines(new_text@),
        diff_kinds_ok(r.deep_view()),
        old_text@ == new_text@ ==> forall|i: int|
            0 <= i < r.deep_view().len() ==> (#[trigger] r.deep_view()[i]).line_type
                == "unchanged"@,
{
    let a = split_lines(old_text);
    let b = split_lines(new_text);
    diff_lines(&a, &b)
}

} // verus!
