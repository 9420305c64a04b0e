//! Backups of the database file: naming of backup files, the bookkeeping of
//! a backup manager (when to back up, which backups to list, select and
//! prune) and the side files it keeps.
//!
//! Directory layout under the backup directory: `auto/` (automatic full
//! `.db` and differential `.diff` backups), `manual/` (manual full backups),
//! `tmp/` (copies taken before a restore, a migration or a promote) and
//! `meta/` (`auto-records.csv`, `backup-meta.json`).
//!
//! File names: `{stem}.{timestamp}.db` (full), `{stem}.{timestamp}.diff`
//! (differential), `{stem}.{timestamp}-{label}.db` (labelled), where the
//! timestamp is `YYYYMMDDHHMMSS-mmm` (18 characters).
use vstd::prelude::*;
use vstd::string::StringSliceAdditionalSpecFns;
use vstd::utf8::{encode_utf8, is_continuation_byte};
use crate::text::{push_char, push_str};
use crate::types::str_eq;
use crate::bytes::{
    has_prefix, has_suffix, occurs_in, all_digits, starts_with, ends_with, contains, digits_only,
    substr, owned, lemma_after_ascii, lemma_encode_concat,
};

verus! {

broadcast use vstd::std_specs::vec::group_vec_axioms;

/// Bytes of `.db`.
pub open spec fn dot_db() -> Seq<u8> {
    seq![46u8, 100u8, 98u8]
}

/// Bytes of `.diff`.
pub open spec fn dot_diff() -> Seq<u8> {
    seq![46u8, 100u8, 105u8, 102u8, 102u8]
}

/// Bytes of `.tmp_full.`.
pub open spec fn tmp_full_marker() -> Seq<u8> {
    seq![46u8, 116u8, 109u8, 112u8, 95u8, 102u8, 117u8, 108u8, 108u8, 46u8]
}

fn dot_db_bytes() -> (v: Vec<u8>)
    ensures
        v@ == dot_db(),
{
    let mut v: Vec<u8> = Vec::new();
    v.push(46);
    v.push(100);
    v.push(98);
    assert(v@ =~= dot_db());
    v
}

fn dot_diff_bytes() -> (v: Vec<u8>)
    ensures
        v@ == dot_diff(),
{
    let mut v: Vec<u8> = Vec::new();
    v.push(46);
    v.push(100);
    v.push(105);
    v.push(102);
    v.push(102);
    assert(v@ =~= dot_diff());
    v
}

fn tmp_full_bytes() -> (v: Vec<u8>)
    ensures
        v@ == tmp_full_marker(),
{
    let mut v: Vec<u8> = Vec::new();
    v.push(46);
    v.push(116);
    v.push(109);
    v.push(112);
    v.push(95);
    v.push(102);
    v.push(117);
    v.push(108);
    v.push(108);
    v.push(46);
    assert(v@ =~= tmp_full_marker());
    v
}

/// Parts of a backup file name: id (timestamp), whether it is a `.diff`
/// file, and the label of a labelled `.db` file.
pub open spec fn parse_name(n: Seq<u8>, stem: Seq<u8>) -> Option<(Seq<u8>, bool, Option<Seq<u8>>)> {
    let p = stem.push(46u8);
    if !has_prefix(n, p) {
        None
    } else {
        let rest = n.skip(p.len() as int);
        if rest.len() < 19 {
            None
        } else if !(all_digits(rest.take(14)) && rest[14] == 45u8 && all_digits(rest.subrange(15, 18))) {
            None
        } else {
            let ts = rest.take(18);
            let after = rest.skip(18);
            if after == dot_db() {
                Some((ts, false, None))
            } else if after == dot_diff() {
                Some((ts, true, None))
            } else if occurs_in(after, tmp_full_marker()) {
                None
            } else if after.len() >= 4 && after[0] == 45u8 && has_suffix(after, dot_db()) {
                Some((ts, false, Some(after.subrange(1, after.len() - 3))))
            } else {
                None
            }
        }
    }
}

/// Parsed backup file name.
pub struct ParsedFilename {
    /// Timestamp `YYYYMMDDHHMMSS-mmm`.
    pub id: String,
    /// `db` or `diff`.
    pub extension: String,
    /// Label of a labelled `.db` file.
    pub label: Option<String>,
}

/// Parses `{stem}.{timestamp}.db`, `{stem}.{timestamp}.diff` and
/// `{stem}.{timestamp}-{label}.db`; names holding `.tmp_full.` after the
/// timestamp are temporary files and give `None`.
pub fn parse_backup_filename(name: &str, stem: &str) -> (r: Option<ParsedFilename>)
    ensures
        match parse_name(name.spec_bytes(), stem.spec_bytes()) {
            None => r is None,
            Some((id, is_diff, label)) => {
                &&& r is Some
                &&& encode_utf8(r.unwrap().id@) == id
                &&& r.unwrap().extension@ == (if is_diff { "diff"@ } else { "db"@ })
                &&& (r.unwrap().label is Some <==> label is Some)
                &&& (label is Some ==> encode_utf8(r.unwrap().label.unwrap()@) == label.unwrap())
            },
        },
{
    let n = name.as_bytes();
    let s = stem.as_bytes();
    let ghost nb = n@;
    let ghost p = s@.push(46u8);
    if !(n.len() > s.len() && starts_with(n, s) && n[s.len()] == 46) {
        proof {
            if has_prefix(nb, p) {
                assert(p.take(s@.len() as int) =~= s@);
                assert(nb.take(s@.len() as int) =~= nb.take(p.len() as int).take(s@.len() as int));
                assert(nb[s@.len() as int] == nb.take(p.len() as int)[s@.len() as int]);
            }
        }
        return None;
    }
    assert(nb.take(p.len() as int) =~= p);
    let off = s.len() + 1;
    let ghost rest = nb.skip(off as int);
    if n.len() - off < 19 {
        return None;
    }
    let (head, tail) = n.split_at(off);
    let (d14, more) = tail.split_at(14);
    assert(d14@ =~= rest.take(14));
    assert(tail@ =~= rest);
    if !digits_only(d14) {
        return None;
    }
    if tail[14] != 45 {
        return None;
    }
    let (_, more2) = tail.split_at(15);
    let (d3, _) = more2.split_at(3);
    assert(d3@ =~= rest.subrange(15, 18));
    if !digits_only(d3) {
        return None;
    }
    proof {
        vstd::utf8::encode_utf8_valid_utf8(name@);
        assert(rest.take(14)[0] == rest[0]);
        assert(48 <= rest[0] <= 57);
        assert(nb[off as int] == rest[0]);
        assert(nb[s@.len() as int] == 46u8);
        lemma_after_ascii(nb, s@.len() as int);
        assert(rest.subrange(15, 18)[2] == rest[17]);
        assert(nb[off + 17] == rest[17]);
        lemma_after_ascii(nb, off + 17);
    }
    let id = owned(substr(name, off, off + 18));
    let (_, after) = n.split_at(off + 18);
    assert(after@ =~= rest.skip(18));
    let db = dot_db_bytes();
    let diff = dot_diff_bytes();
    if after.len() == 3 && starts_with(after, db.as_slice()) {
        assert(after@.take(3) =~= after@);
        return Some(ParsedFilename { id, extension: owned("db"), label: None });
    }
    if after.len() == 5 && starts_with(after, diff.as_slice()) {
        assert(after@.take(5) =~= after@);
        return Some(ParsedFilename { id, extension: owned("diff"), label: None });
    }
    proof {
        if after@ == dot_db() {
            assert(after@.take(3) =~= after@);
        }
        if after@ == dot_diff() {
            assert(after@.take(5) =~= after@);
        }
    }
    let marker = tmp_full_bytes();
    if contains(after, marker.as_slice()) {
        return None;
    }
    if after.len() >= 4 && after[0] == 45 && ends_with(after, db.as_slice()) {
        let start = off + 19;
        let end = n.len() - 3;
        proof {
            vstd::utf8::encode_utf8_valid_utf8(name@);
            assert(nb[off + 18] == after@[0]);
            lemma_after_ascii(nb, off + 18);
            assert(after@.skip(after@.len() - 3) == dot_db());
            assert(nb[end as int] == after@[after@.len() - 3]);
            assert(after@.subrange(1, after@.len() - 3) =~= nb.subrange(start as int, end as int));
        }
        let label = owned(substr(name, start, end));
        return Some(ParsedFilename { id, extension: owned("db"), label: Some(label) });
    }
    None
}

/// The name of a copy taken before a migration, a restore or a promote
/// (ends with `-pre_migrate.db`, `-pre_restore.db` or `-pre_promote.db`).
pub fn is_pre_stash_name(name: &str) -> (r: bool)
    ensures
        r == (has_suffix(name.spec_bytes(), "-pre_migrate.db".spec_bytes())
            || has_suffix(name.spec_bytes(), "-pre_restore.db".spec_bytes())
            || has_suffix(name.spec_bytes(), "-pre_promote.db".spec_bytes())),
{
    let n = name.as_bytes();
    ends_with(n, "-pre_migrate.db".as_bytes()) || ends_with(n, "-pre_restore.db".as_bytes())
        || ends_with(n, "-pre_promote.db".as_bytes())
}

/// A well-formed backup timestamp: 14 digits, `-`, 3 digits.
pub open spec fn valid_timestamp(t: Seq<u8>) -> bool {
    &&& t.len() == 18
    &&& all_digits(t.take(14))
    &&& t[14] == 45u8
    &&& all_digits(t.subrange(15, 18))
}

/// Whether `c` is alphanumeric (Unicode `Alphabetic` or `Numeric`).
pub uninterp spec fn spec_is_alphanumeric(c: char) -> bool;

/// Calls `char::is_alphanumeric` of std.
#[verifier::external_body]
fn is_alphanumeric(c: char) -> (r: bool)
    ensures
        r == spec_is_alphanumeric(c),
{
    c.is_alphanumeric()
}

/// A label with every character other than alphanumerics, `_` and `-`
/// replaced by `_`.
pub open spec fn sanitized(label: Seq<char>) -> Seq<char> {
    label.map_values(|c: char| if spec_is_alphanumeric(c) || c == '_' || c == '-' { c } else { '_' })
}

/// Replaces every character of `label` other than alphanumerics, `_` and
/// `-` by `_`.
pub fn sanitize_label(label: &str) -> (r: String)
    ensures
        r@ == sanitized(label@),
{
    let mut r = String::new();
    let ghost full = label@;
    for c in it: label.chars()
        invariant
            full == label@,
            it.seq() == full,
            r@ == sanitized(full.take(it.index() as int)),
    {
        let keep = is_alphanumeric(c) || c == '_' || c == '-';
        let ghost before = r@;
        if keep {
            push_char(&mut r, c);
        } else {
            push_char(&mut r, '_');
        }
        assert(sanitized(full.take(it.index() + 1)) =~= before.push(if keep { c } else { '_' }));
    }
    assert(full.take(full.len() as int) =~= full);
    r
}

/// Name of a full backup file: `{stem}.{timestamp}.db`, or
/// `{stem}.{timestamp}-{label}.db` with the label sanitized.
pub fn full_backup_name(stem: &str, timestamp: &str, label: Option<&str>) -> (r: String)
    ensures
        r@ == stem@ + "."@ + timestamp@ + (match label {
            Some(l) => "-"@ + sanitized(l@),
            None => Seq::<char>::empty(),
        }) + ".db"@,
{
    let mut r = owned(stem);
    push_str(&mut r, ".");
    push_str(&mut r, timestamp);
    let ghost mid = r@;
    match label {
        Some(l) => {
            push_str(&mut r, "-");
            let s = sanitize_label(l);
            push_str(&mut r, s.as_str());
            assert(r@ =~= mid + ("-"@ + sanitized(l@)));
        },
        None => {
            assert(r@ =~= mid + Seq::<char>::empty());
        },
    }
    push_str(&mut r, ".db");
    r
}

/// Name of a differential backup file: `{stem}.{timestamp}.diff`.
pub fn diff_backup_name(stem: &str, timestamp: &str) -> (r: String)
    ensures
        r@ == stem@ + "."@ + timestamp@ + ".diff"@,
{
    let mut r = owned(stem);
    push_str(&mut r, ".");
    push_str(&mut r, timestamp);
    push_str(&mut r, ".diff");
    r
}

/// A full backup name parses back to its timestamp, with no label.
pub proof fn law_full_name_parses(stem: Seq<u8>, ts: Seq<u8>)
    requires
        valid_timestamp(ts),
    ensures
        parse_name(stem.push(46u8) + ts + dot_db(), stem) == Some((ts, false, None::<Seq<u8>>)),
{
    let n = stem.push(46u8) + ts + dot_db();
    let p = stem.push(46u8);
    assert(n.take(p.len() as int) =~= p);
    let rest = n.skip(p.len() as int);
    assert(rest =~= ts + dot_db());
    assert(rest.take(14) =~= ts.take(14));
    assert(rest.subrange(15, 18) =~= ts.subrange(15, 18));
    assert(rest.take(18) =~= ts);
    assert(rest.skip(18) =~= dot_db());
}

/// A differential backup name parses back to its timestamp.
pub proof fn law_diff_name_parses(stem: Seq<u8>, ts: Seq<u8>)
    requires
        valid_timestamp(ts),
    ensures
        parse_name(stem.push(46u8) + ts + dot_diff(), stem) == Some((ts, true, None::<Seq<u8>>)),
{
    let n = stem.push(46u8) + ts + dot_diff();
    let p = stem.push(46u8);
    assert(n.take(p.len() as int) =~= p);
    let rest = n.skip(p.len() as int);
    assert(rest =~= ts + dot_diff());
    assert(rest.take(14) =~= ts.take(14));
    assert(rest.subrange(15, 18) =~= ts.subrange(15, 18));
    assert(rest.take(18) =~= ts);
    assert(rest.skip(18) =~= dot_diff());
    assert(dot_diff() != dot_db()) by {
        assert(dot_diff().len() != dot_db().len());
    }
}

/// A labelled backup name parses back to its timestamp and label, unless
/// the part after the timestamp holds `.tmp_full.`.
pub proof fn law_labelled_name_parses(stem: Seq<u8>, ts: Seq<u8>, label: Seq<u8>)
    requires
        valid_timestamp(ts),
        !occurs_in(seq![45u8] + label + dot_db(), tmp_full_marker()),
    ensures
        parse_name(stem.push(46u8) + ts + (seq![45u8] + label + dot_db()), stem)
            == Some((ts, false, Some(label))),
{
    let after = seq![45u8] + label + dot_db();
    let n = stem.push(46u8) + ts + after;
    let p = stem.push(46u8);
    assert(n.take(p.len() as int) =~= p);
    let rest = n.skip(p.len() as int);
    assert(rest =~= ts + after);
    assert(rest.take(14) =~= ts.take(14));
    assert(rest.subrange(15, 18) =~= ts.subrange(15, 18));
    assert(rest.take(18) =~= ts);
    assert(rest.skip(18) =~= after);
    assert(after[0] == 45u8);
    assert(after != dot_db()) by {
        assert(dot_db()[0] == 46u8);
    }
    assert(after != dot_diff()) by {
        assert(dot_diff()[0] == 46u8);
    }
    assert(after.skip(after.len() - 3) =~= dot_db());
    assert(after.subrange(1, after.len() - 3) =~= label);
}

/// Where a backup is stored.
#[derive(Debug, Clone, Copy, PartialEq, Eq, Structural)]
pub enum BackupScope {
    /// Automatic backups (`auto/`).
    Auto,
    /// Manual backups (`manual/`).
    Manual,
    /// Copies taken before a restore, migration or promote (`tmp/`).
    Tmp,
}

/// Full or differential backup.
pub enum BackupKind {
    /// A full copy (`.db`).
    Full,
    /// A differential backup (`.diff`) against the full backup `base_id`.
    Diff { base_id: String },
}

/// Where the label of a backup comes from.
#[derive(Debug, Clone, Copy, PartialEq, Eq, Structural)]
pub enum LabelSource {
    /// Embedded in the file name when the backup was made.
    Filename,
    /// Set later in the side file `backup-meta.json`.
    Sidecar,
}

/// A backup file. Times are milliseconds since the Unix epoch.
pub struct BackupInfo {
    /// Timestamp `YYYYMMDDHHMMSS-mmm`.
    pub id: String,
    /// File name.
    pub name: String,
    /// File path.
    pub path: String,
    /// Modification time of the file.
    pub created_at: u64,
    pub scope: BackupScope,
    pub kind: BackupKind,
    /// Label (side file first, else file name).
    pub label: Option<String>,
    pub label_source: LabelSource,
    /// Note from the side file.
    pub note: Option<String>,
}

impl BackupInfo {
    /// Whether this is a manual backup.
    pub fn is_manual(&self) -> (r: bool)
        ensures
            r == (self.scope == BackupScope::Manual),
    {
        self.scope == BackupScope::Manual
    }
}

/// Status of a record of `auto-records.csv`.
#[derive(Debug, Clone, Copy, PartialEq, Eq, Structural)]
pub enum AutoRecordStatus {
    Kept,
    Pruned,
}

/// A record of `auto-records.csv`.
pub struct AutoRecord {
    pub id: String,
    pub created_at: String,
    pub tier: String,
    pub kind: String,
    pub base_id: String,
    pub size_bytes: u64,
    pub status: AutoRecordStatus,
    pub pruned_at: String,
}

/// The tier of an automatic backup: `daily` for a full one; for a
/// differential one, `recent` while its base is less than an hour old and
/// `hourly` after that.
pub open spec fn auto_tier(diff_base_age: Option<u64>) -> Seq<char> {
    match diff_base_age {
        None => "daily"@,
        Some(age) => if age < 3600 { "recent"@ } else { "hourly"@ },
    }
}

/// The record written for a new automatic backup named `id`, made at
/// `created_at`, of `size_bytes` bytes. `diff_base` holds, for a
/// differential backup, the id of its base and the age of that base in
/// seconds; it is `None` for a full backup.
pub fn auto_backup_record(id: String, created_at: String, diff_base: Option<(String, u64)>, size_bytes: u64) -> (r: AutoRecord)
    ensures
        r.id@ == id@,
        r.created_at@ == created_at@,
        r.size_bytes == size_bytes,
        r.status == AutoRecordStatus::Kept,
        r.pruned_at@ == Seq::<char>::empty(),
        r.tier@ == auto_tier(match diff_base { Some(b) => Some(b.1), None => None }),
        diff_base is None ==> r.kind@ == "full"@ && r.base_id@ == Seq::<char>::empty(),
        diff_base matches Some(b) ==> r.kind@ == "diff"@ && r.base_id@ == b.0@,
{
    let (tier, kind, base_id) = match diff_base {
        None => ("daily", "full", String::new()),
        Some((b, age)) => (if age < 3600 { "recent" } else { "hourly" }, "diff", b),
    };
    AutoRecord {
        id,
        created_at,
        tier: tier.to_string(),
        kind: kind.to_string(),
        base_id,
        size_bytes,
        status: AutoRecordStatus::Kept,
        pruned_at: String::new(),
    }
}

/// One step of the retention policy: backups younger than `max_age_secs`
/// (and not younger than the previous step's limit) keep one backup per
/// `keep_interval_secs` (all of them when it is 0).
#[derive(Debug, Clone, Copy, PartialEq, Eq, Structural)]
pub struct RetentionTier {
    pub max_age_secs: u64,
    pub keep_interval_secs: u64,
}

/// Thinning policy of automatic backups.
pub struct RetentionPolicy {
    pub tiers: Vec<RetentionTier>,
}

/// The tiers of the default retention policy: everything for an hour, then
/// one per hour for a day, one per day for a week, one per week for 30
/// days, one per 30 days for 90 days, one per 90 days for 365 days, and one
/// per 365 days after that.
pub open spec fn default_tiers() -> Seq<RetentionTier> {
    seq![
        RetentionTier { max_age_secs: 3600, keep_interval_secs: 0 },
        RetentionTier { max_age_secs: 86400, keep_interval_secs: 3600 },
        RetentionTier { max_age_secs: 604800, keep_interval_secs: 86400 },
        RetentionTier { max_age_secs: 2592000, keep_interval_secs: 604800 },
        RetentionTier { max_age_secs: 7776000, keep_interval_secs: 2592000 },
        RetentionTier { max_age_secs: 31536000, keep_interval_secs: 7776000 },
        RetentionTier { max_age_secs: u64::MAX, keep_interval_secs: 31536000 },
    ]
}

impl Default for RetentionPolicy {
    fn default() -> (r: Self)
        ensures
            r.tiers@ == default_tiers(),
    {
        let mut tiers: Vec<RetentionTier> = Vec::new();
        tiers.push(RetentionTier { max_age_secs: 3600, keep_interval_secs: 0 });
        tiers.push(RetentionTier { max_age_secs: 86400, keep_interval_secs: 3600 });
        tiers.push(RetentionTier { max_age_secs: 604800, keep_interval_secs: 86400 });
        tiers.push(RetentionTier { max_age_secs: 2592000, keep_interval_secs: 604800 });
        tiers.push(RetentionTier { max_age_secs: 7776000, keep_interval_secs: 2592000 });
        tiers.push(RetentionTier { max_age_secs: 31536000, keep_interval_secs: 7776000 });
        tiers.push(RetentionTier { max_age_secs: u64::MAX, keep_interval_secs: 31536000 });
        assert(tiers@ =~= default_tiers());
        RetentionPolicy { tiers }
    }
}

impl RetentionPolicy {
    /// A copy of the policy.
    pub fn duplicate(&self) -> (r: RetentionPolicy)
        ensures
            r.tiers@ == self.tiers@,
    {
        let mut tiers: Vec<RetentionTier> = Vec::new();
        let mut i: usize = 0;
        while i < self.tiers.len()
            invariant
                i <= self.tiers@.len(),
                tiers@ == self.tiers@.take(i as int),
            decreases self.tiers@.len() - i,
        {
            tiers.push(self.tiers[i]);
            i = i + 1;
            assert(tiers@ =~= self.tiers@.take(i as int));
        }
        assert(self.tiers@.take(self.tiers@.len() as int) =~= self.tiers@);
        RetentionPolicy { tiers }
    }
}

/// Progress of a backup copy.
#[derive(Debug, Clone, Copy, PartialEq, Eq, Structural)]
pub struct BackupProgress {
    pub total_pages: i32,
    pub remaining_pages: i32,
}

/// Settings of a backup manager; every field may be left out.
pub struct BackupOptions {
    /// Directory of the backups.
    pub backup_dir: Option<String>,
    /// Interval of automatic backups (ms).
    pub interval_ms: Option<u64>,
    /// Whether backups are enabled at all.
    pub enabled: Option<bool>,
    /// Whether automatic backups are enabled.
    pub auto_enabled: Option<bool>,
    /// How long copies in `tmp/` are kept (s).
    pub tmp_retention_secs: Option<u64>,
    /// Most automatic backups kept (used when there is no retention policy).
    pub max_backups: Option<usize>,
    /// Oldest automatic backup kept, in days (used when there is no retention policy).
    pub max_age_days: Option<u64>,
    /// Thinning policy of automatic backups.
    pub retention_policy: Option<RetentionPolicy>,
    /// Longest wait for a locked database per attempt (ms).
    pub busy_timeout_ms: Option<u64>,
    /// Waits between retries on a locked database (ms); its length is the number of retries.
    pub retry_intervals_ms: Option<Vec<u64>>,
}

/// The default retry waits: 5 s, 10 s, 30 s, 60 s.
pub open spec fn default_retry_intervals() -> Seq<u64> {
    seq![5000u64, 10000u64, 30000u64, 60000u64]
}

fn default_retry_vec() -> (v: Vec<u64>)
    ensures
        v@ == default_retry_intervals(),
{
    let mut v: Vec<u64> = Vec::new();
    v.push(5000);
    v.push(10000);
    v.push(30000);
    v.push(60000);
    assert(v@ =~= default_retry_intervals());
    v
}

impl Default for BackupOptions {
    fn default() -> (r: Self)
        ensures
            r.backup_dir is None,
            r.interval_ms == Some(3_600_000u64),
            r.enabled == Some(true),
            r.auto_enabled == Some(true),
            r.tmp_retention_secs == Some(604_800u64),
            r.max_backups is None,
            r.max_age_days is None,
            r.retention_policy is None,
            r.busy_timeout_ms == Some(5_000u64),
            r.retry_intervals_ms is Some && r.retry_intervals_ms.unwrap()@ == default_retry_intervals(),
    {
        BackupOptions {
            backup_dir: None,
            interval_ms: Some(3_600_000),
            enabled: Some(true),
            auto_enabled: Some(true),
            tmp_retention_secs: Some(604_800),
            max_backups: None,
            max_age_days: None,
            retention_policy: None,
            busy_timeout_ms: Some(5_000),
            retry_intervals_ms: Some(default_retry_vec()),
        }
    }
}

/// How one attempt to copy a database ended.
#[derive(Debug, Clone, Copy, PartialEq, Eq, Structural)]
pub enum CopyOutcome {
    /// The copy was made.
    Copied,
    /// The database was busy or locked.
    Busy,
    /// Any other failure.
    Failed,
}

/// What to do after an attempt to copy a database.
#[derive(Debug, Clone, Copy, PartialEq, Eq, Structural)]
pub enum RetryAction {
    /// Stop: the copy is made, or failed for a reason that waiting does
    /// not cure, or the retries are used up.
    Stop,
    /// Wait this many milliseconds, then try again.
    WaitMs(u64),
}

/// After attempt `attempt` (0 for the first) ended with `outcome`: a busy
/// database is tried again after the next of `intervals`, as long as one is
/// left; anything else stops.
pub open spec fn retry_action(intervals: Seq<u64>, attempt: int, outcome: CopyOutcome) -> RetryAction {
    if outcome == CopyOutcome::Busy && 0 <= attempt < intervals.len() {
        RetryAction::WaitMs(intervals[attempt])
    } else {
        RetryAction::Stop
    }
}

/// What to do after attempt `attempt` of a copy (see `retry_action`).
pub fn copy_retry_action(intervals: &Vec<u64>, attempt: usize, outcome: CopyOutcome) -> (r: RetryAction)
    ensures
        r == retry_action(intervals@, attempt as int, outcome),
{
    if outcome == CopyOutcome::Busy && attempt < intervals.len() {
        RetryAction::WaitMs(intervals[attempt])
    } else {
        RetryAction::Stop
    }
}

/// How many attempts a copy makes when its attempts end as `outcomes` say,
/// counting on from attempt `from` (while the outcomes last).
pub open spec fn attempts_made(intervals: Seq<u64>, outcomes: Seq<CopyOutcome>, from: nat) -> nat
    decreases outcomes.len() - from,
{
    if from >= outcomes.len() {
        from
    } else if retry_action(intervals, from as int, outcomes[from as int]) is WaitMs {
        attempts_made(intervals, outcomes, from + 1)
    } else {
        from + 1
    }
}

proof fn lemma_attempts_bounded(intervals: Seq<u64>, outcomes: Seq<CopyOutcome>, from: nat)
    requires
        from <= intervals.len(),
    ensures
        attempts_made(intervals, outcomes, from) <= intervals.len() + 1,
    decreases outcomes.len() - from,
{
    if from < outcomes.len() && retry_action(intervals, from as int, outcomes[from as int]) is WaitMs {
        lemma_attempts_bounded(intervals, outcomes, from + 1);
    }
}

/// A copy of a busy database is attempted at most once more than there
/// are waits, whatever the attempts end with.
pub proof fn law_copy_attempts_bounded(intervals: Seq<u64>, outcomes: Seq<CopyOutcome>)
    ensures
        attempts_made(intervals, outcomes, 0) <= intervals.len() + 1,
{
    lemma_attempts_bounded(intervals, outcomes, 0);
}

/// The waits between attempts of an online copy between two given
/// databases (ms).
pub fn online_copy_intervals() -> (v: Vec<u64>)
    ensures
        v@ == seq![50u64, 100, 200, 500, 1000],
{
    let mut v: Vec<u64> = Vec::new();
    v.push(50);
    v.push(100);
    v.push(200);
    v.push(500);
    v.push(1000);
    assert(v@ =~= seq![50u64, 100, 200, 500, 1000]);
    v
}

/// How a backup is chosen.
pub enum BackupSelectorKind {
    /// The newest.
    Latest,
    /// The `n`-th newest (0 is the newest).
    Nth(usize),
    /// The newest made before the time (ms).
    Before(u64),
    /// The oldest made after the time (ms).
    After(u64),
    /// The one made closest to the time (ms); the newer one on a tie.
    ClosestTo(u64),
    /// The one with this timestamp id.
    ById(String),
    /// The file at this path (under the backup directory, `.db`).
    ByPath(String),
}

/// A choice of backup, optionally limited to one scope.
pub struct BackupSelector {
    pub kind: BackupSelectorKind,
    /// Scope to choose from (`None`: all scopes).
    pub scope_filter: Option<BackupScope>,
}

impl BackupSelector {
    /// The newest backup.
    pub fn latest() -> (r: Self)
        ensures
            r.kind is Latest && r.scope_filter is None,
    {
        BackupSelector { kind: BackupSelectorKind::Latest, scope_filter: None }
    }

    /// The `n`-th newest backup.
    pub fn nth(n: usize) -> (r: Self)
        ensures
            r.kind == BackupSelectorKind::Nth(n) && r.scope_filter is None,
    {
        BackupSelector { kind: BackupSelectorKind::Nth(n), scope_filter: None }
    }

    /// The newest backup made before `time` (ms).
    pub fn before(time: u64) -> (r: Self)
        ensures
            r.kind == BackupSelectorKind::Before(time) && r.scope_filter is None,
    {
        BackupSelector { kind: BackupSelectorKind::Before(time), scope_filter: None }
    }

    /// The oldest backup made after `time` (ms).
    pub fn after(time: u64) -> (r: Self)
        ensures
            r.kind == BackupSelectorKind::After(time) && r.scope_filter is None,
    {
        BackupSelector { kind: BackupSelectorKind::After(time), scope_filter: None }
    }

    /// The backup made closest to `time` (ms).
    pub fn closest_to(time: u64) -> (r: Self)
        ensures
            r.kind == BackupSelectorKind::ClosestTo(time) && r.scope_filter is None,
    {
        BackupSelector { kind: BackupSelectorKind::ClosestTo(time), scope_filter: None }
    }

    /// The backup with timestamp id `id`.
    pub fn by_id(id: String) -> (r: Self)
        ensures
            r.kind == BackupSelectorKind::ById(id) && r.scope_filter is None,
    {
        BackupSelector { kind: BackupSelectorKind::ById(id), scope_filter: None }
    }

    /// The backup file at `path`.
    pub fn by_path(path: String) -> (r: Self)
        ensures
            r.kind == BackupSelectorKind::ByPath(path) && r.scope_filter is None,
    {
        BackupSelector { kind: BackupSelectorKind::ByPath(path), scope_filter: None }
    }

    /// The same choice limited to `scope`.
    pub fn scope(self, scope: BackupScope) -> (r: Self)
        ensures
            r.kind == self.kind && r.scope_filter == Some(scope),
    {
        BackupSelector { kind: self.kind, scope_filter: Some(scope) }
    }
}

/// A backup is due: none was made yet, or `interval` ms have passed since
/// the last one (a clock that went back counts as no time passed).
pub open spec fn backup_due(last: Option<u64>, interval: u64, now: u64) -> bool {
    match last {
        None => true,
        Some(l) => (if now >= l { now - l } else { 0 }) >= interval,
    }
}

/// Milliseconds until the next automatic backup is due (0 when it is due).
pub open spec fn time_until_due(last: Option<u64>, interval: u64, now: u64) -> u64 {
    match last {
        None => 0,
        Some(l) => {
            let elapsed = if now >= l { now - l } else { 0 };
            if elapsed < interval { (interval - elapsed) as u64 } else { 0 }
        },
    }
}

/// `r` is the backup that `kind` chooses from `listed` (newest first).
pub open spec fn selection(kind: BackupSelectorKind, listed: Seq<BackupInfo>, r: Option<BackupInfo>) -> bool {
    match kind {
                    BackupSelectorKind::Latest =>
                        r == (if listed.len() > 0 { Some(listed[0]) } else { None }),
                    BackupSelectorKind::ByPath(_) =>
                        r == (if listed.len() > 0 { Some(listed[0]) } else { None }),
                    BackupSelectorKind::Nth(n) =>
                        r == (if n < listed.len() { Some(listed[n as int]) } else { None }),
                    BackupSelectorKind::Before(t) => match r {
                        Some(b) => exists|i: int| 0 <= i < listed.len() && #[trigger] listed[i] == b
                            && b.created_at < t
                            && forall|j: int| 0 <= j < i ==> listed[j].created_at >= t,
                        None => forall|j: int| 0 <= j < listed.len() ==> listed[j].created_at >= t,
                    },
                    BackupSelectorKind::After(t) => match r {
                        Some(b) => exists|i: int| 0 <= i < listed.len() && #[trigger] listed[i] == b
                            && b.created_at > t
                            && forall|j: int| i < j < listed.len() ==> listed[j].created_at <= t,
                        None => forall|j: int| 0 <= j < listed.len() ==> listed[j].created_at <= t,
                    },
                    BackupSelectorKind::ClosestTo(t) => match r {
                        Some(b) => exists|i: int| 0 <= i < listed.len() && #[trigger] listed[i] == b
                            && (forall|j: int| 0 <= j < listed.len() ==> distance(listed[j].created_at, t) >= distance(b.created_at, t))
                            && (forall|j: int| 0 <= j < i ==> distance(listed[j].created_at, t) > distance(b.created_at, t)),
                        None => listed.len() == 0,
                    },
                    BackupSelectorKind::ById(id) => match r {
                        Some(b) => exists|i: int| 0 <= i < listed.len() && #[trigger] listed[i] == b
                            && b.id@ == id@
                            && forall|j: int| 0 <= j < i ==> listed[j].id@ != id@,
                        None => forall|j: int| 0 <= j < listed.len() ==> listed[j].id@ != id@,
                    },
                }
}

/// Decision core of backups: settings and the times of the last backup and
/// the last operation (ms since the Unix epoch). The file work is done by
/// the caller.
pub struct BackupManager {
    pub last_backup_time: Option<u64>,
    pub last_operation_time: Option<u64>,
    pub backup_dir: String,
    pub interval_ms: u64,
    pub enabled: bool,
    pub auto_enabled: bool,
    pub tmp_retention_secs: u64,
    pub db_path: String,
    pub db_stem: String,
    pub max_backups: Option<usize>,
    pub max_age_days: Option<u64>,
    pub retention_policy: Option<RetentionPolicy>,
    pub busy_timeout_ms: u64,
    pub retry_intervals_ms: Vec<u64>,
}

impl BackupManager {
    /// A manager for the database at `db_path` whose file stem is `db_stem`;
    /// backups go to `options.backup_dir`, else to `default_backup_dir`;
    /// every setting left out takes its default.
    pub fn new(db_path: String, db_stem: String, default_backup_dir: String, options: BackupOptions) -> (r: Self)
        ensures
            r.last_backup_time is None,
            r.last_operation_time is None,
            r.backup_dir == (match options.backup_dir { Some(d) => d, None => default_backup_dir }),
            r.interval_ms == (match options.interval_ms { Some(v) => v, None => 3_600_000u64 }),
            r.enabled == (match options.enabled { Some(v) => v, None => true }),
            r.auto_enabled == (match options.auto_enabled { Some(v) => v, None => true }),
            r.tmp_retention_secs == (match options.tmp_retention_secs { Some(v) => v, None => 604_800u64 }),
            r.db_path == db_path,
            r.db_stem == db_stem,
            r.max_backups == options.max_backups,
            r.max_age_days == options.max_age_days,
            r.retention_policy == options.retention_policy,
            r.busy_timeout_ms == (match options.busy_timeout_ms { Some(v) => v, None => 5_000u64 }),
            r.retry_intervals_ms@ == (match options.retry_intervals_ms {
                Some(v) => v@,
                None => default_retry_intervals(),
            }),
    {
        let backup_dir = match options.backup_dir {
            Some(d) => d,
            None => default_backup_dir,
        };
        let retry_intervals_ms = match options.retry_intervals_ms {
            Some(v) => v,
            None => default_retry_vec(),
        };
        BackupManager {
            last_backup_time: None,
            last_operation_time: None,
            backup_dir,
            interval_ms: match options.interval_ms { Some(v) => v, None => 3_600_000 },
            enabled: match options.enabled { Some(v) => v, None => true },
            auto_enabled: match options.auto_enabled { Some(v) => v, None => true },
            tmp_retention_secs: match options.tmp_retention_secs { Some(v) => v, None => 604_800 },
            db_path,
            db_stem,
            max_backups: options.max_backups,
            max_age_days: options.max_age_days,
            retention_policy: options.retention_policy,
            busy_timeout_ms: match options.busy_timeout_ms { Some(v) => v, None => 5_000 },
            retry_intervals_ms,
        }
    }

    /// Records an operation at `now_ms` and tells whether an automatic
    /// backup is due. With backups or automatic backups disabled nothing is
    /// recorded and no backup is due.
    pub fn record_operation(&mut self, now_ms: u64) -> (due: bool)
        ensures
            !old(self).enabled || !old(self).auto_enabled ==> !due && final(self).last_operation_time == old(self).last_operation_time,
            old(self).enabled && old(self).auto_enabled ==> {
                &&& due == backup_due(old(self).last_backup_time, old(self).interval_ms, now_ms)
                &&& final(self).last_operation_time == Some(now_ms)
            },
            final(self).last_backup_time == old(self).last_backup_time,
            final(self).interval_ms == old(self).interval_ms,
            final(self).enabled == old(self).enabled,
            final(self).auto_enabled == old(self).auto_enabled,
    {
        if !self.enabled || !self.auto_enabled {
            return false;
        }
        self.last_operation_time = Some(now_ms);
        match self.last_backup_time {
            None => true,
            Some(last) => now_ms.saturating_sub(last) >= self.interval_ms,
        }
    }

    /// Records that a backup finished at `now_ms`.
    pub fn record_backup_time(&mut self, now_ms: u64)
        ensures
            final(self).last_backup_time == Some(now_ms),
            final(self).last_operation_time == old(self).last_operation_time,
            final(self).interval_ms == old(self).interval_ms,
            final(self).enabled == old(self).enabled,
            final(self).auto_enabled == old(self).auto_enabled,
    {
        self.last_backup_time = Some(now_ms);
    }

    /// Time of the last backup (ms).
    pub fn get_last_backup_time(&self) -> (r: Option<u64>)
        ensures
            r == self.last_backup_time,
    {
        self.last_backup_time
    }

    /// Time of the last recorded operation (ms).
    pub fn get_last_operation_time(&self) -> (r: Option<u64>)
        ensures
            r == self.last_operation_time,
    {
        self.last_operation_time
    }

    /// Milliseconds until the next automatic backup is due.
    pub fn get_time_until_next_backup(&self, now_ms: u64) -> (r: Option<u64>)
        ensures
            r == Some(time_until_due(self.last_backup_time, self.interval_ms, now_ms)),
    {
        match self.last_backup_time {
            None => Some(0),
            Some(last) => {
                let elapsed = now_ms.saturating_sub(last);
                if elapsed < self.interval_ms {
                    Some(self.interval_ms - elapsed)
                } else {
                    Some(0)
                }
            },
        }
    }

    /// Chooses a backup from `listed` (newest first, as `list_backups`
    /// gives them; for a path selector, the backup built from that path).
    pub fn select_backup(&self, selector: &BackupSelector, listed: Vec<BackupInfo>) -> (r: Option<BackupInfo>)
        ensures
            selection(selector.kind, listed@, r),
    {
        let ghost all = listed@;
        let mut items = listed;
        if items.len() == 0 {
            return None;
        }
        match &selector.kind {
            BackupSelectorKind::Latest | BackupSelectorKind::ByPath(_) => Some(items.swap_remove(0)),
            BackupSelectorKind::Nth(n) => {
                if *n < items.len() {
                    Some(items.swap_remove(*n))
                } else {
                    None
                }
            },
            BackupSelectorKind::Before(t) => {
                let mut i: usize = 0;
                while i < items.len()
                    invariant
                        listed@ == all,
                        items@ == all,
                        i <= all.len(),
                        forall|j: int| 0 <= j < i ==> all[j].created_at >= *t,
                        selector.kind == BackupSelectorKind::Before(*t),
                    decreases all.len() - i,
                {
                    if items[i].created_at < *t {
                        let res = items.swap_remove(i);
                        assert(res == all[i as int]);
                        return Some(res);
                    }
                    i = i + 1;
                }
                None
            },
            BackupSelectorKind::After(t) => {
                let mut i: usize = items.len();
                while i > 0
                    invariant
                        listed@ == all,
                        items@ == all,
                        i <= all.len(),
                        forall|j: int| i <= j < all.len() ==> all[j].created_at <= *t,
                        selector.kind == BackupSelectorKind::After(*t),
                    decreases i,
                {
                    if items[i - 1].created_at > *t {
                        let res = items.swap_remove(i - 1);
                        assert(res == all[i - 1]);
                        return Some(res);
                    }
                    i = i - 1;
                }
                None
            },
            BackupSelectorKind::ClosestTo(t) => {
                let mut best: usize = 0;
                let mut best_d: u64 = abs_diff(items[0].created_at, *t);
                let mut i: usize = 1;
                while i < items.len()
                    invariant
                        listed@ == all,
                        items@ == all,
                        all.len() > 0,
                        1 <= i <= all.len(),
                        best < i,
                        best_d == distance(all[best as int].created_at, *t),
                        forall|j: int| 0 <= j < i ==> distance(all[j].created_at, *t) >= best_d,
                        forall|j: int| 0 <= j < best ==> distance(all[j].created_at, *t) > best_d,
                        selector.kind == BackupSelectorKind::ClosestTo(*t),
                    decreases all.len() - i,
                {
                    let d = abs_diff(items[i].created_at, *t);
                    if d < best_d {
                        best = i;
                        best_d = d;
                    }
                    i = i + 1;
                }
                Some(items.swap_remove(best))
            },
            BackupSelectorKind::ById(id) => {
                let mut i: usize = 0;
                while i < items.len()
                    invariant
                        listed@ == all,
                        items@ == all,
                        i <= all.len(),
                        forall|j: int| 0 <= j < i ==> all[j].id@ != id@,
                        selector.kind == BackupSelectorKind::ById(*id),
                    decreases all.len() - i,
                {
                    if str_eq(items[i].id.as_str(), id.as_str()) {
                        let res = items.swap_remove(i);
                        assert(res == all[i as int]);
                        return Some(res);
                    }
                    i = i + 1;
                }
                None
            },
        }
    }
}

impl BackupManager {
    /// The path of the backup `selector` chooses from `listed`.
    pub fn get_backup_path(&self, selector: &BackupSelector, listed: Vec<BackupInfo>) -> (r: Option<String>)
        ensures
            exists|b: Option<BackupInfo>| #[trigger] selection(selector.kind, listed@, b)
                && r == (match b { Some(x) => Some(x.path), None => None }),
    {
        let b = self.select_backup(selector, listed);
        match b {
            Some(x) => Some(x.path),
            None => None,
        }
    }
}

/// Distance between two times.
pub open spec fn distance(a: u64, b: u64) -> u64 {
    if a >= b { (a - b) as u64 } else { (b - a) as u64 }
}

fn abs_diff(a: u64, b: u64) -> (r: u64)
    ensures
        r == distance(a, b),
{
    if a >= b { a - b } else { b - a }
}

/// `get_time_until_next_backup` gives 0 exactly when `record_operation`
/// asks for a backup.
pub proof fn law_due_iff_no_time_left(last: Option<u64>, interval: u64, now: u64)
    ensures
        backup_due(last, interval, now) <==> time_until_due(last, interval, now) == 0,
{
}

/// Right after a backup at time `t`, none is due until `interval` ms have
/// passed, and one is due from then on.
pub proof fn law_backup_spacing(t: u64, interval: u64, now: u64)
    requires
        now >= t,
    ensures
        backup_due(Some(t), interval, now) <==> now - t >= interval,
        !backup_due(Some(t), interval, now) ==> time_until_due(Some(t), interval, now) == t + interval - now,
{
}

} // verus!
