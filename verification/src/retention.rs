//! Which backup files to delete: thinning of automatic backups by a
//! retention policy or by count and age limits, expiry of the copies in
//! `tmp/`.
use vstd::prelude::*;
use crate::backup::{BackupInfo, BackupScope, RetentionTier, RetentionPolicy, AutoRecord, AutoRecordStatus, BackupManager,
    parse_backup_filename, parse_name};
use vstd::utf8::encode_utf8;
use crate::types::str_eq;
use vstd::string::StringSliceAdditionalSpecFns;

verus! {

broadcast use vstd::std_specs::vec::group_vec_axioms;

/// Age in whole seconds of something made at `created` (ms), at `now` (ms);
/// 0 when it lies in the future.
pub open spec fn age_secs(created: u64, now: u64) -> int {
    if now >= created { (now - created) / 1000 } else { 0 }
}

/// Lower age limit of tier `k` (the upper limit of the tier before it).
pub open spec fn tier_low(tiers: Seq<RetentionTier>, k: int) -> int {
    if k == 0 { 0 } else { tiers[k - 1].max_age_secs as int }
}

/// An age falls in tier `k`, and that tier thins (keeps one per interval).
pub open spec fn in_thinning_tier(tiers: Seq<RetentionTier>, k: int, age: int) -> bool {
    &&& 0 <= k < tiers.len()
    &&& tiers[k].keep_interval_secs > 0
    &&& tier_low(tiers, k) <= age < tiers[k].max_age_secs
}

/// Backup `j` takes precedence over backup `i` within tier `k`: both are
/// automatic, in tier `k` and in the same interval of it, and `j` is newer
/// (or as new and listed first).
pub open spec fn outranks(bs: Seq<BackupInfo>, tiers: Seq<RetentionTier>, now: u64, k: int, j: int, i: int) -> bool {
    let aj = age_secs(bs[j].created_at, now);
    let ai = age_secs(bs[i].created_at, now);
    &&& 0 <= j < bs.len()
    &&& j != i
    &&& bs[j].scope == BackupScope::Auto
    &&& in_thinning_tier(tiers, k, aj)
    &&& aj / (tiers[k].keep_interval_secs as int) == ai / (tiers[k].keep_interval_secs as int)
    &&& (bs[j].created_at > bs[i].created_at || (bs[j].created_at == bs[i].created_at && j < i))
}

/// Backup `i` is thinned out in tier `k`.
pub open spec fn pruned_in(bs: Seq<BackupInfo>, tiers: Seq<RetentionTier>, now: u64, k: int, i: int) -> bool {
    &&& bs[i].scope == BackupScope::Auto
    &&& in_thinning_tier(tiers, k, age_secs(bs[i].created_at, now))
    &&& exists|j: int| #[trigger] outranks(bs, tiers, now, k, j, i)
}

/// Backup `i` is thinned out by the policy.
pub open spec fn pruned_by_policy(bs: Seq<BackupInfo>, tiers: Seq<RetentionTier>, now: u64, i: int) -> bool {
    exists|k: int| #[trigger] pruned_in(bs, tiers, now, k, i)
}

fn age_secs_exec(created: u64, now: u64) -> (r: u64)
    ensures
        r == age_secs(created, now),
{
    if now >= created { (now - created) / 1000 } else { 0 }
}

fn in_tier_exec(tiers: &Vec<RetentionTier>, k: usize, age: u64) -> (r: bool)
    requires
        k < tiers@.len(),
    ensures
        r == in_thinning_tier(tiers@, k as int, age as int),
{
    let low: u64 = if k == 0 { 0 } else { tiers[k - 1].max_age_secs };
    tiers[k].keep_interval_secs > 0 && low <= age && age < tiers[k].max_age_secs
}

fn is_outranked(bs: &[BackupInfo], tiers: &Vec<RetentionTier>, now: u64, k: usize, i: usize) -> (r: bool)
    requires
        k < tiers@.len(),
        i < bs@.len(),
        in_thinning_tier(tiers@, k as int, age_secs(bs@[i as int].created_at, now)),
    ensures
        r == exists|j: int| #[trigger] outranks(bs@, tiers@, now, k as int, j, i as int),
{
    let ki = tiers[k].keep_interval_secs;
    let ai = age_secs_exec(bs[i].created_at, now);
    let mut j: usize = 0;
    while j < bs.len()
        invariant
            k < tiers@.len(),
            i < bs@.len(),
            ki == tiers@[k as int].keep_interval_secs,
            ki > 0,
            ai == age_secs(bs@[i as int].created_at, now),
            j <= bs@.len(),
            forall|x: int| 0 <= x < j ==> !outranks(bs@, tiers@, now, k as int, x, i as int),
        decreases bs@.len() - j,
    {
        if j != i && bs[j].scope == BackupScope::Auto {
            let aj = age_secs_exec(bs[j].created_at, now);
            if in_tier_exec(tiers, k, aj) && aj / ki == ai / ki
                && (bs[j].created_at > bs[i].created_at || (bs[j].created_at == bs[i].created_at && j < i)) {
                assert(outranks(bs@, tiers@, now, k as int, j as int, i as int));
                return true;
            }
        }
        j = j + 1;
    }
    assert forall|x: int| !outranks(bs@, tiers@, now, k as int, x, i as int) by {
        if 0 <= x < j {
        }
    }
    false
}

fn pruned_exec(bs: &[BackupInfo], tiers: &Vec<RetentionTier>, now: u64, i: usize) -> (r: bool)
    requires
        i < bs@.len(),
    ensures
        r == pruned_by_policy(bs@, tiers@, now, i as int),
{
    if bs[i].scope != BackupScope::Auto {
        return false;
    }
    let age = age_secs_exec(bs[i].created_at, now);
    let mut k: usize = 0;
    while k < tiers.len()
        invariant
            i < bs@.len(),
            bs@[i as int].scope == BackupScope::Auto,
            age == age_secs(bs@[i as int].created_at, now),
            k <= tiers@.len(),
            forall|x: int| 0 <= x < k ==> !pruned_in(bs@, tiers@, now, x, i as int),
        decreases tiers@.len() - k,
    {
        if in_tier_exec(tiers, k, age) && is_outranked(bs, tiers, now, k, i) {
            assert(pruned_in(bs@, tiers@, now, k as int, i as int));
            return true;
        }
        k = k + 1;
    }
    assert forall|x: int| !pruned_in(bs@, tiers@, now, x, i as int) by {
        if 0 <= x < k {
        }
    }
    false
}

/// Paths of the automatic backups that the policy thins out: within each
/// interval of each thinning tier only the newest backup stays (of equally
/// new ones, the one listed first). Ages are taken at `now` (ms).
pub fn prune_auto_backups_by_policy(backups: &[BackupInfo], policy: &RetentionPolicy, now: u64) -> (r: Vec<String>)
    ensures
        forall|p: String| r@.contains(p) <==>
            exists|i: int| 0 <= i < backups@.len() && #[trigger] pruned_by_policy(backups@, policy.tiers@, now, i)
                && backups@[i].path == p,
{
    let tiers = &policy.tiers;
    let mut out: Vec<String> = Vec::new();
    let mut i: usize = 0;
    while i < backups.len()
        invariant
            i <= backups@.len(),
            forall|p: String| out@.contains(p) <==>
                exists|x: int| 0 <= x < i && #[trigger] pruned_by_policy(backups@, tiers@, now, x)
                    && backups@[x].path == p,
        decreases backups@.len() - i,
    {
        if pruned_exec(backups, tiers, now, i) {
            let ghost before = out@;
            out.push(backups[i].path.clone());
            proof {
                assert forall|p: String| out@.contains(p) <==>
                    exists|x: int| 0 <= x < i + 1 && #[trigger] pruned_by_policy(backups@, tiers@, now, x)
                        && backups@[x].path == p by {
                    if out@.contains(p) {
                        let w = choose|w: int| 0 <= w < out@.len() && out@[w] == p;
                        if w < before.len() {
                            assert(before.contains(p));
                        } else {
                            assert(pruned_by_policy(backups@, tiers@, now, i as int));
                        }
                    }
                    if exists|x: int| 0 <= x < i + 1 && #[trigger] pruned_by_policy(backups@, tiers@, now, x)
                        && backups@[x].path == p {
                        let x = choose|x: int| 0 <= x < i + 1 && #[trigger] pruned_by_policy(backups@, tiers@, now, x)
                            && backups@[x].path == p;
                        if x < i {
                            assert(before.contains(p));
                            let w = choose|w: int| 0 <= w < before.len() && before[w] == p;
                            assert(out@[w] == p);
                        } else {
                            assert(out@[before.len() as int] == p);
                        }
                    }
                }
            }
        } else {
            proof {
                assert forall|p: String| out@.contains(p) <==>
                    exists|x: int| 0 <= x < i + 1 && #[trigger] pruned_by_policy(backups@, tiers@, now, x)
                        && backups@[x].path == p by {
                    if exists|x: int| 0 <= x < i + 1 && #[trigger] pruned_by_policy(backups@, tiers@, now, x)
                        && backups@[x].path == p {
                        let x = choose|x: int| 0 <= x < i + 1 && #[trigger] pruned_by_policy(backups@, tiers@, now, x)
                            && backups@[x].path == p;
                        assert(x < i);
                    }
                }
            }
        }
        i = i + 1;
    }
    out
}

/// The newest automatic backup (the first listed of the newest ones) is
/// never thinned out.
pub proof fn law_newest_backup_kept(bs: Seq<BackupInfo>, tiers: Seq<RetentionTier>, now: u64, i: int)
    requires
        0 <= i < bs.len(),
        forall|j: int| 0 <= j < bs.len() && bs[j].scope == BackupScope::Auto ==> bs[j].created_at <= bs[i].created_at,
        forall|j: int| 0 <= j < i && bs[j].scope == BackupScope::Auto ==> bs[j].created_at < bs[i].created_at,
    ensures
        !pruned_by_policy(bs, tiers, now, i),
{
    if pruned_by_policy(bs, tiers, now, i) {
        let k = choose|k: int| #[trigger] pruned_in(bs, tiers, now, k, i);
        let j = choose|j: int| #[trigger] outranks(bs, tiers, now, k, j, i);
        assert(outranks(bs, tiers, now, k, j, i));
    }
}

/// Number of automatic backups in `s`.
pub open spec fn count_auto(s: Seq<BackupInfo>) -> nat
    decreases s.len(),
{
    if s.len() == 0 {
        0
    } else {
        count_auto(s.drop_last()) + if s.last().scope == BackupScope::Auto { 1nat } else { 0nat }
    }
}

/// A backup file may go when the policy thins it out: a file whose name
/// does not parse, a differential backup, or a full backup that no kept
/// differential backup of `auto-records.csv` builds on.
pub open spec fn deletable_after_pruning(name: Seq<u8>, stem: Seq<u8>, records: Seq<AutoRecord>) -> bool {
    match parse_name(name, stem) {
        None => true,
        Some((id, is_diff, _)) => is_diff || !exists|r: int| 0 <= r < records.len()
            && #[trigger] encode_utf8(records[r].base_id@) == id && records[r].status == AutoRecordStatus::Kept,
    }
}

/// The file is not the full backup that a kept differential backup of
/// `records` builds on.
pub open spec fn not_kept_base(name: Seq<u8>, stem: Seq<u8>, records: Seq<AutoRecord>) -> bool {
    match parse_name(name, stem) {
        Some((id, false, _)) => forall|r: int| 0 <= r < records.len() && records[r].status == AutoRecordStatus::Kept
            ==> #[trigger] encode_utf8(records[r].base_id@) != id,
        _ => true,
    }
}

/// Without a retention policy: an automatic backup older than the age
/// limit, or beyond the count limit (counting automatic backups in list order).
pub open spec fn over_limits(bs: Seq<BackupInfo>, max_age_days: Option<u64>, max_backups: Option<usize>, now: u64, i: int) -> bool {
    &&& bs[i].scope == BackupScope::Auto
    &&& {
        ||| (match max_age_days {
            Some(d) => now >= bs[i].created_at && now - bs[i].created_at > d * 86400 * 1000,
            None => false,
        })
        ||| (match max_backups {
            Some(m) => count_auto(bs.take(i)) >= m,
            None => false,
        })
    }
}

/// A copy in `tmp/`: its path and modification time (ms).
pub struct TmpFile {
    pub path: String,
    pub modified_ms: u64,
}

/// Files to delete by one cleanup.
pub struct CleanupPlan {
    /// Automatic backups to delete.
    pub auto: Vec<String>,
    /// Expired copies in `tmp/`.
    pub tmp: Vec<String>,
}

fn has_kept_diff(records: &[AutoRecord], id: &String) -> (r: bool)
    ensures
        r == exists|x: int| 0 <= x < records@.len() && #[trigger] records@[x].base_id@ == id@
            && records@[x].status == AutoRecordStatus::Kept,
{
    let mut x: usize = 0;
    while x < records.len()
        invariant
            x <= records@.len(),
            forall|y: int| 0 <= y < x ==> !(#[trigger] records@[y].base_id@ == id@ && records@[y].status == AutoRecordStatus::Kept),
        decreases records@.len() - x,
    {
        if records[x].status == AutoRecordStatus::Kept && str_eq(records[x].base_id.as_str(), id.as_str()) {
            return true;
        }
        x = x + 1;
    }
    false
}

/// Whether a thinned-out backup file may go (`deletable_after_pruning`).
fn deletable_exec(name: &String, stem: &String, records: &[AutoRecord]) -> (r: bool)
    ensures
        r == deletable_after_pruning(encode_utf8(name@), encode_utf8(stem@), records@),
{
    proof {
        reveal_strlit("db");
        reveal_strlit("diff");
    }
    assert("diff"@ != "db"@) by {
        assert("diff"@.len() != "db"@.len());
    }
    match parse_backup_filename(name.as_str(), stem.as_str()) {
        None => true,
        Some(parsed) => {
            if !str_eq(parsed.extension.as_str(), "db") {
                true
            } else {
                let kept = has_kept_diff(records, &parsed.id);
                proof {
                    assert forall|r: int| 0 <= r < records@.len() implies
                        (#[trigger] encode_utf8(records@[r].base_id@) == encode_utf8(parsed.id@)) == (records@[r].base_id@ == parsed.id@) by {
                        if encode_utf8(records@[r].base_id@) == encode_utf8(parsed.id@) {
                            vstd::utf8::encode_utf8_decode_utf8(records@[r].base_id@);
                            vstd::utf8::encode_utf8_decode_utf8(parsed.id@);
                        }
                    }
                    let ghost id = encode_utf8(parsed.id@);
                    if kept {
                        let x = choose|x: int| 0 <= x < records@.len() && #[trigger] records@[x].base_id@ == parsed.id@
                            && records@[x].status == AutoRecordStatus::Kept;
                        assert(encode_utf8(records@[x].base_id@) == id);
                    } else {
                        assert forall|r: int| 0 <= r < records@.len() implies
                            !(#[trigger] encode_utf8(records@[r].base_id@) == id && records@[r].status == AutoRecordStatus::Kept) by {
                            if encode_utf8(records@[r].base_id@) == id {
                                assert(records@[r].base_id@ == parsed.id@);
                            }
                        }
                    }
                }
                !kept
            }
        },
    }
}

impl BackupManager {
    /// Automatic backups to delete. With a retention policy: those the
    /// policy thins out and `deletable_after_pruning` allows. Without: those
    /// over the age or count limit. `backups` is the listing of
    /// `list_backups` (newest first) and `records` the records of
    /// `auto-records.csv`.
    pub fn auto_backups_to_delete(&self, backups: &[BackupInfo], records: &[AutoRecord], now: u64) -> (r: Vec<String>)
        requires
            self.max_age_days matches Some(d) ==> d * 86400 <= u64::MAX,
        ensures
            self.retention_policy matches Some(policy) ==> forall|p: String| r@.contains(p) <==>
                exists|i: int| 0 <= i < backups@.len() && #[trigger] pruned_by_policy(backups@, policy.tiers@, now, i)
                    && deletable_after_pruning(encode_utf8(backups@[i].name@), encode_utf8(self.db_stem@), records@)
                    && backups@[i].path == p,
            self.retention_policy is None ==> forall|p: String| r@.contains(p) <==>
                exists|i: int| 0 <= i < backups@.len()
                    && #[trigger] over_limits(backups@, self.max_age_days, self.max_backups, now, i)
                    && backups@[i].path == p,
            self.retention_policy is Some ==> forall|p: String| r@.contains(p) ==>
                exists|i: int| 0 <= i < backups@.len() && #[trigger] backups@[i].path == p
                    && not_kept_base(encode_utf8(backups@[i].name@), encode_utf8(self.db_stem@), records@),
    {
        let r = self.auto_backups_to_delete_inner(backups, records, now);
        proof {
            if self.retention_policy is Some {
                let policy = self.retention_policy->0;
                assert forall|p: String| r@.contains(p) implies
                    exists|i: int| 0 <= i < backups@.len() && #[trigger] backups@[i].path == p
                        && not_kept_base(encode_utf8(backups@[i].name@), encode_utf8(self.db_stem@), records@) by {
                    let i = choose|i: int| 0 <= i < backups@.len() && #[trigger] pruned_by_policy(backups@, policy.tiers@, now, i)
                        && deletable_after_pruning(encode_utf8(backups@[i].name@), encode_utf8(self.db_stem@), records@)
                        && backups@[i].path == p;
                    law_kept_diff_base_survives(encode_utf8(backups@[i].name@), encode_utf8(self.db_stem@), records@);
                    assert(not_kept_base(encode_utf8(backups@[i].name@), encode_utf8(self.db_stem@), records@));
                }
            }
        }
        r
    }

    fn auto_backups_to_delete_inner(&self, backups: &[BackupInfo], records: &[AutoRecord], now: u64) -> (r: Vec<String>)
        requires
            self.max_age_days matches Some(d) ==> d * 86400 <= u64::MAX,
        ensures
            self.retention_policy matches Some(policy) ==> forall|p: String| r@.contains(p) <==>
                exists|i: int| 0 <= i < backups@.len() && #[trigger] pruned_by_policy(backups@, policy.tiers@, now, i)
                    && deletable_after_pruning(encode_utf8(backups@[i].name@), encode_utf8(self.db_stem@), records@)
                    && backups@[i].path == p,
            self.retention_policy is None ==> forall|p: String| r@.contains(p) <==>
                exists|i: int| 0 <= i < backups@.len()
                    && #[trigger] over_limits(backups@, self.max_age_days, self.max_backups, now, i)
                    && backups@[i].path == p,
    {
        let mut out: Vec<String> = Vec::new();
        match &self.retention_policy {
            Some(policy) => {
                let mut i: usize = 0;
                while i < backups.len()
                    invariant
                        self.retention_policy == Some(*policy),
                        i <= backups@.len(),
                        forall|p: String| out@.contains(p) <==>
                            exists|x: int| 0 <= x < i && #[trigger] pruned_by_policy(backups@, policy.tiers@, now, x)
                                && deletable_after_pruning(encode_utf8(backups@[x].name@), encode_utf8(self.db_stem@), records@)
                                && backups@[x].path == p,
                    decreases backups@.len() - i,
                {
                    let del = pruned_exec(backups, &policy.tiers, now, i)
                        && deletable_exec(&backups[i].name, &self.db_stem, records);
                    assert(del == (pruned_by_policy(backups@, policy.tiers@, now, i as int)
                        && deletable_after_pruning(encode_utf8(backups@[i as int].name@), encode_utf8(self.db_stem@), records@)));
                    let ghost before = out@;
                    if del {
                        out.push(backups[i].path.clone());
                    }
                    proof {
                        assert forall|p: String| out@.contains(p) <==>
                            exists|x: int| 0 <= x < i + 1 && #[trigger] pruned_by_policy(backups@, policy.tiers@, now, x)
                                && deletable_after_pruning(encode_utf8(backups@[x].name@), encode_utf8(self.db_stem@), records@)
                                && backups@[x].path == p by {
                            if out@.contains(p) {
                                let w = choose|w: int| 0 <= w < out@.len() && out@[w] == p;
                                if w < before.len() {
                                    assert(before.contains(p));
                                }
                            }
                            if exists|x: int| 0 <= x < i + 1 && #[trigger] pruned_by_policy(backups@, policy.tiers@, now, x)
                                && deletable_after_pruning(encode_utf8(backups@[x].name@), encode_utf8(self.db_stem@), records@)
                                && backups@[x].path == p {
                                let x = choose|x: int| 0 <= x < i + 1 && #[trigger] pruned_by_policy(backups@, policy.tiers@, now, x)
                                    && deletable_after_pruning(encode_utf8(backups@[x].name@), encode_utf8(self.db_stem@), records@)
                                    && backups@[x].path == p;
                                if x < i {
                                    assert(before.contains(p));
                                    let w = choose|w: int| 0 <= w < before.len() && before[w] == p;
                                    assert(out@[w] == p);
                                } else {
                                    assert(out@[before.len() as int] == p);
                                }
                            }
                        }
                    }
                    i = i + 1;
                }
            },
            None => {
                let mut i: usize = 0;
                let mut autos: usize = 0;
                while i < backups.len()
                    invariant
                        self.retention_policy is None,
                        i <= backups@.len(),
                        autos == count_auto(backups@.take(i as int)),
                        autos <= i,
                        self.max_age_days matches Some(d) ==> d * 86400 <= u64::MAX,
                        forall|p: String| out@.contains(p) <==>
                            exists|x: int| 0 <= x < i
                                && #[trigger] over_limits(backups@, self.max_age_days, self.max_backups, now, x)
                                && backups@[x].path == p,
                    decreases backups@.len() - i,
                {
                    let b = &backups[i];
                    let mut del = false;
                    if b.scope == BackupScope::Auto {
                        match self.max_age_days {
                            Some(d) => {
                                if now >= b.created_at && ((now - b.created_at) as u128) > (d as u128) * 86400 * 1000 {
                                    del = true;
                                }
                            },
                            None => {},
                        }
                        match self.max_backups {
                            Some(m) => {
                                if autos >= m {
                                    del = true;
                                }
                            },
                            None => {},
                        }
                    }
                    assert(del == over_limits(backups@, self.max_age_days, self.max_backups, now, i as int));
                    let ghost before = out@;
                    if del {
                        out.push(b.path.clone());
                    }
                    proof {
                        assert(backups@.take(i + 1).drop_last() =~= backups@.take(i as int));
                        assert forall|p: String| out@.contains(p) <==>
                            exists|x: int| 0 <= x < i + 1
                                && #[trigger] over_limits(backups@, self.max_age_days, self.max_backups, now, x)
                                && backups@[x].path == p by {
                            if out@.contains(p) {
                                let w = choose|w: int| 0 <= w < out@.len() && out@[w] == p;
                                if w < before.len() {
                                    assert(before.contains(p));
                                }
                            }
                            if exists|x: int| 0 <= x < i + 1
                                && #[trigger] over_limits(backups@, self.max_age_days, self.max_backups, now, x)
                                && backups@[x].path == p {
                                let x = choose|x: int| 0 <= x < i + 1
                                    && #[trigger] over_limits(backups@, self.max_age_days, self.max_backups, now, x)
                                    && backups@[x].path == p;
                                if x < i {
                                    assert(before.contains(p));
                                    let w = choose|w: int| 0 <= w < before.len() && before[w] == p;
                                    assert(out@[w] == p);
                                } else {
                                    assert(out@[before.len() as int] == p);
                                }
                            }
                        }
                    }
                    if b.scope == BackupScope::Auto {
                        autos = autos + 1;
                    }
                    i = i + 1;
                }
            },
        }
        out
    }

    /// Copies in `tmp/` older than the retention time of `tmp/`.
    pub fn tmp_files_to_delete(&self, files: &[TmpFile], now: u64) -> (r: Vec<String>)
        ensures
            forall|p: String| r@.contains(p) <==>
                exists|i: int| 0 <= i < files@.len() && #[trigger] files@[i].path == p
                    && now >= files@[i].modified_ms
                    && now - files@[i].modified_ms > self.tmp_retention_secs * 1000,
    {
        let mut out: Vec<String> = Vec::new();
        let mut i: usize = 0;
        while i < files.len()
            invariant
                i <= files@.len(),
                forall|p: String| out@.contains(p) <==>
                    exists|x: int| 0 <= x < i && #[trigger] files@[x].path == p
                        && now >= files@[x].modified_ms
                        && now - files@[x].modified_ms > self.tmp_retention_secs * 1000,
            decreases files@.len() - i,
        {
            let f = &files[i];
            let del = now >= f.modified_ms && ((now - f.modified_ms) as u128) > (self.tmp_retention_secs as u128) * 1000;
            let ghost before = out@;
            if del {
                out.push(f.path.clone());
            }
            proof {
                assert forall|p: String| out@.contains(p) <==>
                    exists|x: int| 0 <= x < i + 1 && #[trigger] files@[x].path == p
                        && now >= files@[x].modified_ms
                        && now - files@[x].modified_ms > self.tmp_retention_secs * 1000 by {
                    if out@.contains(p) {
                        let w = choose|w: int| 0 <= w < out@.len() && out@[w] == p;
                        if w < before.len() {
                            assert(before.contains(p));
                        } else {
                            assert(files@[i as int].path == p);
                        }
                    }
                    if exists|x: int| 0 <= x < i + 1 && #[trigger] files@[x].path == p
                        && now >= files@[x].modified_ms
                        && now - files@[x].modified_ms > self.tmp_retention_secs * 1000 {
                        let x = choose|x: int| 0 <= x < i + 1 && #[trigger] files@[x].path == p
                            && now >= files@[x].modified_ms
                            && now - files@[x].modified_ms > self.tmp_retention_secs * 1000;
                        if x < i {
                            assert(before.contains(p));
                            let w = choose|w: int| 0 <= w < before.len() && before[w] == p;
                            assert(out@[w] == p);
                        } else {
                            assert(out@[before.len() as int] == p);
                        }
                    }
                }
            }
            i = i + 1;
        }
        out
    }

    /// The files one cleanup deletes: the automatic backups of
    /// `auto_backups_to_delete` and the expired copies of `tmp/`; nothing
    /// when backups are disabled.
    pub fn cleanup_old_backups(&self, backups: &[BackupInfo], records: &[AutoRecord], tmp_files: &[TmpFile], now: u64) -> (r: CleanupPlan)
        requires
            self.max_age_days matches Some(d) ==> d * 86400 <= u64::MAX,
        ensures
            !self.enabled ==> r.auto@.len() == 0 && r.tmp@.len() == 0,
            self.enabled ==> forall|p: String| r.auto@.contains(p) <==> (self.retention_policy matches Some(policy) &&
                exists|i: int| 0 <= i < backups@.len() && #[trigger] pruned_by_policy(backups@, policy.tiers@, now, i)
                    && deletable_after_pruning(encode_utf8(backups@[i].name@), encode_utf8(self.db_stem@), records@)
                    && backups@[i].path == p)
                || (self.retention_policy is None && exists|i: int| 0 <= i < backups@.len()
                    && #[trigger] over_limits(backups@, self.max_age_days, self.max_backups, now, i)
                    && backups@[i].path == p),
            self.enabled && self.retention_policy is Some ==> forall|p: String| r.auto@.contains(p) ==>
                exists|i: int| 0 <= i < backups@.len() && #[trigger] backups@[i].path == p
                    && not_kept_base(encode_utf8(backups@[i].name@), encode_utf8(self.db_stem@), records@),
            self.enabled ==> forall|p: String| r.tmp@.contains(p) <==>
                exists|i: int| 0 <= i < tmp_files@.len() && #[trigger] tmp_files@[i].path == p
                    && now >= tmp_files@[i].modified_ms
                    && now - tmp_files@[i].modified_ms > self.tmp_retention_secs * 1000,
    {
        if !self.enabled {
            return CleanupPlan { auto: Vec::new(), tmp: Vec::new() };
        }
        let auto = self.auto_backups_to_delete(backups, records, now);
        let tmp = self.tmp_files_to_delete(tmp_files, now);
        CleanupPlan { auto, tmp }
    }
}

/// With a retention policy, the files a cleanup lists for deletion (the
/// backups that the policy thins out and `deletable_after_pruning` lets go)
/// never include the full backup that a kept differential backup builds
/// on: whenever such a file's name is that of a full backup with id `id`,
/// no record with status `Kept` has base `id`. A thinned-out differential
/// backup, or full backup without a kept differential backup built on it,
/// is let go.
pub proof fn law_kept_diff_base_survives(name: Seq<u8>, stem: Seq<u8>, records: Seq<AutoRecord>)
    ensures
        match parse_name(name, stem) {
            None => deletable_after_pruning(name, stem, records),
            Some((id, is_diff, _)) => if is_diff {
                deletable_after_pruning(name, stem, records)
            } else {
                deletable_after_pruning(name, stem, records) <==> forall|r: int|
                    0 <= r < records.len() && records[r].status == AutoRecordStatus::Kept
                        ==> #[trigger] encode_utf8(records[r].base_id@) != id
            },
        },
{
}

} // verus!
