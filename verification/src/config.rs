//! Configuration: the backup settings merged from the configuration files
//! (later files override earlier ones), and the choice of the target
//! database (production or staging) and its path.
use vstd::prelude::*;
use crate::text::{push_char, push_str};
use crate::records::chars_of;
use crate::types::str_eq;

verus! {

broadcast use vstd::std_specs::vec::group_vec_axioms;

/// A retention tier as written in a configuration file.
#[derive(Debug, Clone, Copy, PartialEq, Eq, Structural)]
pub struct RetentionTierFile {
    pub max_age_secs: u64,
    pub keep_interval_secs: u64,
}

/// `[backup.auto]` of a configuration file.
#[derive(Debug, Clone, Copy, PartialEq, Eq, Structural)]
pub struct BackupAutoSectionFile {
    pub enabled: Option<bool>,
    pub interval_ms: Option<u64>,
}

/// `[backup.tmp]` of a configuration file.
#[derive(Debug, Clone, Copy, PartialEq, Eq, Structural)]
pub struct BackupTmpSectionFile {
    pub retention_secs: Option<u64>,
}

/// `[backup.retention]` of a configuration file.
pub struct BackupRetentionSectionFile {
    pub tiers: Option<Vec<RetentionTierFile>>,
}

/// `[backup]` of a configuration file.
pub struct BackupSectionFile {
    pub enabled: Option<bool>,
    pub backup_dir: Option<String>,
    pub auto: BackupAutoSectionFile,
    pub tmp: BackupTmpSectionFile,
    pub retention: BackupRetentionSectionFile,
}

/// A configuration file; absent settings leave the merged value alone.
pub struct ConfigFile {
    pub backup: BackupSectionFile,
}

impl Default for ConfigFile {
    fn default() -> (r: Self)
        ensures
            r.backup.enabled is None,
            r.backup.backup_dir is None,
            r.backup.auto.enabled is None,
            r.backup.auto.interval_ms is None,
            r.backup.tmp.retention_secs is None,
            r.backup.retention.tiers is None,
    {
        ConfigFile {
            backup: BackupSectionFile {
                enabled: None,
                backup_dir: None,
                auto: BackupAutoSectionFile { enabled: None, interval_ms: None },
                tmp: BackupTmpSectionFile { retention_secs: None },
                retention: BackupRetentionSectionFile { tiers: None },
            },
        }
    }
}

/// A retention tier of the merged settings.
#[derive(Debug, Clone, Copy, PartialEq, Eq, Structural)]
pub struct RetentionTierConfig {
    pub max_age_secs: u64,
    pub keep_interval_secs: u64,
}

/// Merged backup settings.
pub struct BackupConfig {
    /// Backups at all.
    pub enabled: bool,
    /// Directory of the backups (`{db_dir}/backup/` when absent).
    pub backup_dir: Option<String>,
    /// Automatic backups.
    pub auto_enabled: bool,
    /// Time between automatic backups (ms).
    pub interval_ms: u64,
    /// How long copies in `tmp/` are kept (s).
    pub tmp_retention_secs: u64,
    /// Retention tiers (the built-in policy when absent).
    pub retention_tiers: Option<Vec<RetentionTierConfig>>,
}

/// Merged settings.
pub struct KijukuConfig {
    pub backup: BackupConfig,
}

/// Value of the backup settings.
pub struct BackupConfigView {
    pub enabled: bool,
    pub backup_dir: Option<Seq<char>>,
    pub auto_enabled: bool,
    pub interval_ms: u64,
    pub tmp_retention_secs: u64,
    pub retention_tiers: Option<Seq<(u64, u64)>>,
}

/// Value of the settings a configuration file holds.
pub struct BackupSectionView {
    pub enabled: Option<bool>,
    pub backup_dir: Option<Seq<char>>,
    pub auto_enabled: Option<bool>,
    pub interval_ms: Option<u64>,
    pub tmp_retention_secs: Option<u64>,
    pub retention_tiers: Option<Seq<(u64, u64)>>,
}

/// Ages and intervals of tiers.
pub open spec fn tier_pairs(s: Seq<RetentionTierConfig>) -> Seq<(u64, u64)> {
    s.map_values(|t: RetentionTierConfig| (t.max_age_secs, t.keep_interval_secs))
}

/// Ages and intervals of tiers of a file.
pub open spec fn file_tier_pairs(s: Seq<RetentionTierFile>) -> Seq<(u64, u64)> {
    s.map_values(|t: RetentionTierFile| (t.max_age_secs, t.keep_interval_secs))
}

impl View for BackupConfig {
    type V = BackupConfigView;

    open spec fn view(&self) -> BackupConfigView {
        BackupConfigView {
            enabled: self.enabled,
            backup_dir: match self.backup_dir { Some(d) => Some(d@), None => None },
            auto_enabled: self.auto_enabled,
            interval_ms: self.interval_ms,
            tmp_retention_secs: self.tmp_retention_secs,
            retention_tiers: match self.retention_tiers { Some(t) => Some(tier_pairs(t@)), None => None },
        }
    }
}

impl View for ConfigFile {
    type V = BackupSectionView;

    open spec fn view(&self) -> BackupSectionView {
        BackupSectionView {
            enabled: self.backup.enabled,
            backup_dir: match self.backup.backup_dir { Some(d) => Some(d@), None => None },
            auto_enabled: self.backup.auto.enabled,
            interval_ms: self.backup.auto.interval_ms,
            tmp_retention_secs: self.backup.tmp.retention_secs,
            retention_tiers: match self.backup.retention.tiers { Some(t) => Some(file_tier_pairs(t@)), None => None },
        }
    }
}

/// The built-in backup settings: enabled, automatic every hour, copies in
/// `tmp/` kept seven days, default directory and tiers.
pub open spec fn default_backup_config() -> BackupConfigView {
    BackupConfigView {
        enabled: true,
        backup_dir: None,
        auto_enabled: true,
        interval_ms: 3_600_000,
        tmp_retention_secs: 604_800,
        retention_tiers: None,
    }
}

impl Default for BackupConfig {
    fn default() -> (r: Self)
        ensures
            r@ == default_backup_config(),
    {
        BackupConfig {
            enabled: true,
            backup_dir: None,
            auto_enabled: true,
            interval_ms: 3_600_000,
            tmp_retention_secs: 604_800,
            retention_tiers: None,
        }
    }
}

impl Default for KijukuConfig {
    fn default() -> (r: Self)
        ensures
            r.backup@ == default_backup_config(),
    {
        KijukuConfig { backup: BackupConfig::default() }
    }
}

/// The settings `b` overridden by those present in `o`.
pub open spec fn merged(b: BackupConfigView, o: BackupSectionView) -> BackupConfigView {
    BackupConfigView {
        enabled: match o.enabled { Some(v) => v, None => b.enabled },
        backup_dir: match o.backup_dir { Some(v) => Some(v), None => b.backup_dir },
        auto_enabled: match o.auto_enabled { Some(v) => v, None => b.auto_enabled },
        interval_ms: match o.interval_ms { Some(v) => v, None => b.interval_ms },
        tmp_retention_secs: match o.tmp_retention_secs { Some(v) => v, None => b.tmp_retention_secs },
        retention_tiers: match o.retention_tiers { Some(v) => Some(v), None => b.retention_tiers },
    }
}

/// Overrides the settings of `base` by those present in `overlay`.
pub fn merge_config(base: &mut KijukuConfig, overlay: ConfigFile)
    ensures
        final(base).backup@ == merged(old(base).backup@, overlay@),
{
    let ghost ov = overlay@;
    let o = overlay.backup;
    if let Some(v) = o.enabled {
        base.backup.enabled = v;
    }
    if let Some(v) = o.backup_dir {
        base.backup.backup_dir = Some(v);
    }
    if let Some(v) = o.auto.enabled {
        base.backup.auto_enabled = v;
    }
    if let Some(v) = o.auto.interval_ms {
        base.backup.interval_ms = v;
    }
    if let Some(v) = o.tmp.retention_secs {
        base.backup.tmp_retention_secs = v;
    }
    if let Some(tiers) = o.retention.tiers {
        let mut out: Vec<RetentionTierConfig> = Vec::new();
        let mut i: usize = 0;
        while i < tiers.len()
            invariant
                i <= tiers@.len(),
                tier_pairs(out@) == file_tier_pairs(tiers@).take(i as int),
            decreases tiers@.len() - i,
        {
            let t = tiers[i];
            let ghost prev = out@;
            out.push(RetentionTierConfig { max_age_secs: t.max_age_secs, keep_interval_secs: t.keep_interval_secs });
            assert(tier_pairs(out@) =~= tier_pairs(prev).push((t.max_age_secs, t.keep_interval_secs)));
            assert(file_tier_pairs(tiers@).take(i + 1) =~= file_tier_pairs(tiers@).take(i as int).push((t.max_age_secs, t.keep_interval_secs)));
            i = i + 1;
        }
        assert(file_tier_pairs(tiers@).take(tiers@.len() as int) =~= file_tier_pairs(tiers@));
        base.backup.retention_tiers = Some(out);
    }
}

/// Some earlier source with path `p` was read.
pub open spec fn read_before(files: Seq<(Seq<char>, Option<BackupSectionView>)>, p: Seq<char>) -> bool {
    exists|i: int| 0 <= i < files.len() && #[trigger] files[i].0 == p && files[i].1 is Some
}

/// The settings after merging, in order, each source that was read and
/// whose path was not read before.
pub open spec fn loaded_settings(files: Seq<(Seq<char>, Option<BackupSectionView>)>) -> BackupConfigView
    decreases files.len(),
{
    if files.len() == 0 {
        default_backup_config()
    } else {
        let prev = loaded_settings(files.drop_last());
        let (p, f) = files.last();
        match f {
            Some(o) => if read_before(files.drop_last(), p) { prev } else { merged(prev, o) },
            None => prev,
        }
    }
}

/// Path and settings of each configuration source.
pub open spec fn source_views(files: Seq<(String, Option<ConfigFile>)>) -> Seq<(Seq<char>, Option<BackupSectionView>)> {
    files.map_values(|x: (String, Option<ConfigFile>)| (x.0@, match x.1 { Some(f) => Some(f@), None => None }))
}

/// Some string of `v` has text `p`.
pub open spec fn has_text(v: Seq<String>, p: Seq<char>) -> bool {
    exists|i: int| 0 <= i < v.len() && #[trigger] v[i]@ == p
}

fn contains_text(v: &Vec<String>, p: &String) -> (r: bool)
    ensures
        r == has_text(v@, p@),
{
    let mut i: usize = 0;
    while i < v.len()
        invariant
            i <= v@.len(),
            forall|j: int| 0 <= j < i ==> #[trigger] v@[j]@ != p@,
        decreases v@.len() - i,
    {
        if str_eq(v[i].as_str(), p.as_str()) {
            return true;
        }
        i = i + 1;
    }
    false
}

/// File name of a configuration file beside the working directory or the
/// database.
pub open spec fn config_file_name() -> Seq<char> {
    "kijuku-db-config.toml"@
}

/// Path of the global configuration file under the home directory.
pub open spec fn global_config_rel() -> Seq<char> {
    ".local/config/kijuku-db/config.toml"@
}

/// File `name` in directory `dir` (as `Path::join` puts them together):
/// `name` alone for an empty directory, no second `/` after one that ends
/// with `/`.
pub open spec fn dir_file(dir: Seq<char>, name: Seq<char>) -> Seq<char> {
    if dir.len() == 0 {
        name
    } else if dir.last() == '/' {
        dir + name
    } else {
        dir + "/"@ + name
    }
}

fn dir_file_exec(dir: &str, name: &str) -> (r: String)
    ensures
        r@ == dir_file(dir@, name@),
{
    let cs = chars_of(dir);
    let mut r = String::new();
    push_str(&mut r, dir);
    if cs.len() > 0 && cs[cs.len() - 1] != '/' {
        push_str(&mut r, "/");
    }
    push_str(&mut r, name);
    proof {
        if dir@.len() == 0 {
            assert(r@ =~= name@);
        } else if dir@.last() == '/' {
            assert(r@ =~= dir@ + name@);
        } else {
            assert(r@ =~= dir@ + "/"@ + name@);
        }
    }
    r
}

/// The configuration files in rising priority: the global one (when the
/// home directory is known), the one of the working directory (`.` when
/// unknown), the one beside the database (when its directory is known),
/// and the one named on the command line.
pub open spec fn config_path_list(home: Option<Seq<char>>, cwd: Option<Seq<char>>, db_dir: Option<Seq<char>>,
    extra: Option<Seq<char>>) -> Seq<Seq<char>> {
    (match home { Some(h) => seq![dir_file(h, global_config_rel())], None => Seq::empty() })
    + seq![dir_file(match cwd { Some(c) => c, None => "."@ }, config_file_name())]
    + (match db_dir { Some(d) => seq![dir_file(d, config_file_name())], None => Seq::empty() })
    + (match extra { Some(e) => seq![e], None => Seq::empty() })
}

/// The configuration files to read, in rising priority (see
/// `config_path_list`); `load_config` merges them in this order.
pub fn config_paths(home: Option<&str>, cwd: Option<&str>, db_dir: Option<&str>, extra: Option<&str>) -> (r: Vec<String>)
    ensures
        r@.map_values(|p: String| p@) == config_path_list(str_text(home), str_text(cwd), str_text(db_dir), str_text(extra)),
{
    let mut r: Vec<String> = Vec::new();
    let ghost mut want: Seq<Seq<char>> = Seq::empty();
    match home {
        Some(h) => {
            r.push(dir_file_exec(h, ".local/config/kijuku-db/config.toml"));
            proof { want = seq![dir_file(h@, global_config_rel())]; }
        },
        None => {},
    }
    assert(r@.map_values(|p: String| p@) =~= want);
    let c = match cwd { Some(c) => c, None => "." };
    let ghost w1 = want;
    r.push(dir_file_exec(c, "kijuku-db-config.toml"));
    proof { want = w1 + seq![dir_file(c@, config_file_name())]; }
    assert(r@.map_values(|p: String| p@) =~= want);
    match db_dir {
        Some(d) => {
            let ghost w2 = want;
            r.push(dir_file_exec(d, "kijuku-db-config.toml"));
            proof { want = w2 + seq![dir_file(d@, config_file_name())]; }
            assert(r@.map_values(|p: String| p@) =~= want);
        },
        None => {
            proof { want = want + Seq::<Seq<char>>::empty(); }
            assert(r@.map_values(|p: String| p@) =~= want);
        },
    }
    match extra {
        Some(e) => {
            let ghost w3 = want;
            r.push(e.to_string());
            proof { want = w3 + seq![e@]; }
            assert(r@.map_values(|p: String| p@) =~= want);
        },
        None => {
            proof { want = want + Seq::<Seq<char>>::empty(); }
            assert(r@.map_values(|p: String| p@) =~= want);
        },
    }
    assert(want =~= config_path_list(str_text(home), str_text(cwd), str_text(db_dir), str_text(extra)));
    r
}

/// The settings from configuration sources taken in rising priority
/// (global file, file of the working directory, file beside the database,
/// file named on the command line): each source is a path and its parsed
/// contents, `None` when it could not be read or parsed. Starting from the
/// built-in settings, each source read is merged over the previous ones; a
/// path read before is not merged again.
pub fn load_config(files: Vec<(String, Option<ConfigFile>)>) -> (r: KijukuConfig)
    ensures
        r.backup@ == loaded_settings(source_views(files@)),
{
    let ghost sv = source_views(files@);
    let mut config = KijukuConfig::default();
    let mut loaded: Vec<String> = Vec::new();
    let ghost all = files@;
    let mut rest = files;
    let mut i: usize = 0;
    let n = rest.len();
    while i < n
        invariant
            n == sv.len(),
            sv == source_views(all),
            rest@ == all.skip(i as int),
            i <= n,
            config.backup@ == loaded_settings(sv.take(i as int)),
            forall|p: Seq<char>| #[trigger] has_text(loaded@, p)
                <==> read_before(sv.take(i as int), p),
        decreases n - i,
    {
        let ghost before = sv.take(i as int);
        let ghost rest0 = rest@;
        let (path, file) = rest.remove(0);
        proof {
            assert(rest0[0] == all[i as int]);
            assert(rest@ =~= all.skip(i + 1));
            assert(sv[i as int] == (path@, match file { Some(f) => Some(f@), None => None::<BackupSectionView> }));
            assert(sv.take(i + 1).drop_last() =~= before);
            assert(sv.take(i + 1).last() == sv[i as int]);
        }
        match file {
            Some(f) => {
                if !contains_text(&loaded, &path) {
                    let ghost lv = loaded@;
                    loaded.push(path);
                    merge_config(&mut config, f);
                    proof {
                        assert forall|p: Seq<char>| #[trigger] has_text(loaded@, p)
                            <==> read_before(sv.take(i + 1), p) by {
                            if has_text(loaded@, p) {
                                let k = choose|k: int| 0 <= k < loaded@.len() && #[trigger] loaded@[k]@ == p;
                                if k < lv.len() {
                                    assert(lv[k]@ == p);
                                    assert(has_text(lv, p));
                                    let w = choose|w: int| 0 <= w < before.len() && #[trigger] before[w].0 == p && before[w].1 is Some;
                                    assert(sv.take(i + 1)[w].0 == p);
                                } else {
                                    assert(sv.take(i + 1)[i as int].0 == p);
                                }
                            }
                            if read_before(sv.take(i + 1), p) {
                                let w = choose|w: int| 0 <= w < i + 1 && #[trigger] sv.take(i + 1)[w].0 == p && sv.take(i + 1)[w].1 is Some;
                                if w < i {
                                    assert(before[w].0 == p);
                                    assert(read_before(before, p));
                                    assert(has_text(lv, p));
                                    let k = choose|k: int| 0 <= k < lv.len() && #[trigger] lv[k]@ == p;
                                    assert(loaded@[k]@ == p);
                                } else {
                                    assert(loaded@[lv.len() as int]@ == p);
                                }
                            }
                        }
                    }
                } else {
                    proof {
                        assert forall|p: Seq<char>| #[trigger] read_before(sv.take(i + 1), p) <==> read_before(before, p) by {
                            if read_before(sv.take(i + 1), p) {
                                let w = choose|w: int| 0 <= w < i + 1 && #[trigger] sv.take(i + 1)[w].0 == p && sv.take(i + 1)[w].1 is Some;
                                if w < i {
                                    assert(before[w].0 == p);
                                }
                            }
                            if read_before(before, p) {
                                let w = choose|w: int| 0 <= w < before.len() && #[trigger] before[w].0 == p && before[w].1 is Some;
                                assert(sv.take(i + 1)[w].0 == p);
                            }
                        }
                    }
                }
            },
            None => {
                proof {
                    assert forall|p: Seq<char>| #[trigger] read_before(sv.take(i + 1), p) <==> read_before(before, p) by {
                        if read_before(sv.take(i + 1), p) {
                            let w = choose|w: int| 0 <= w < i + 1 && #[trigger] sv.take(i + 1)[w].0 == p && sv.take(i + 1)[w].1 is Some;
                            if w < i {
                                assert(before[w].0 == p);
                            }
                        }
                        if read_before(before, p) {
                            let w = choose|w: int| 0 <= w < before.len() && #[trigger] before[w].0 == p && before[w].1 is Some;
                            assert(sv.take(i + 1)[w].0 == p);
                        }
                    }
                }
            },
        }
        i = i + 1;
    }
    assert(sv.take(n as int) =~= sv);
    config
}

/// The database a command works on.
#[derive(Debug, Clone, Copy, PartialEq, Eq, Structural)]
pub enum Target {
    /// Production: opened read-only, never migrated.
    Prod,
    /// Staging: read-write and migrated (the default).
    Stg,
}

impl Default for Target {
    fn default() -> (r: Self)
        ensures
            r == Target::Stg,
    {
        Target::Stg
    }
}

/// Whether `c` has the Unicode `White_Space` property (as
/// `char::is_whitespace` tells): tab to carriage return, space, U+0085,
/// U+00A0, U+1680, U+2000 to U+200A, U+2028, U+2029, U+202F, U+205F and
/// U+3000.
pub open spec fn spec_is_whitespace(c: char) -> bool {
    let n = c as u32;
    ||| 0x09 <= n <= 0x0D
    ||| n == 0x20
    ||| n == 0x85
    ||| n == 0xA0
    ||| n == 0x1680
    ||| 0x2000 <= n <= 0x200A
    ||| n == 0x2028
    ||| n == 0x2029
    ||| n == 0x202F
    ||| n == 0x205F
    ||| n == 0x3000
}

/// Whether `c` has the Unicode `White_Space` property.
fn is_whitespace(c: char) -> (r: bool)
    ensures
        r == spec_is_whitespace(c),
{
    let n = c as u32;
    (0x09 <= n && n <= 0x0D) || n == 0x20 || n == 0x85 || n == 0xA0 || n == 0x1680
        || (0x2000 <= n && n <= 0x200A) || n == 0x2028 || n == 0x2029 || n == 0x202F || n == 0x205F || n == 0x3000
}

/// `s` without leading white space.
pub open spec fn trim_start(s: Seq<char>) -> Seq<char>
    decreases s.len(),
{
    if s.len() > 0 && spec_is_whitespace(s[0]) { trim_start(s.drop_first()) } else { s }
}

/// `s` without trailing white space.
pub open spec fn trim_end(s: Seq<char>) -> Seq<char>
    decreases s.len(),
{
    if s.len() > 0 && spec_is_whitespace(s.last()) { trim_end(s.drop_last()) } else { s }
}

/// `s` without leading and trailing white space.
pub open spec fn trimmed(s: Seq<char>) -> Seq<char> {
    trim_end(trim_start(s))
}

/// `c` with `A`..`Z` mapped to `a`..`z`.
pub open spec fn ascii_lower(c: char) -> char {
    if 'A' <= c <= 'Z' { ((c as u32) + 32) as char } else { c }
}

/// The target named by `s` (surrounding white space and the case of ASCII
/// letters ignored): `prod`, or `stg`, `stage` or `staging`.
pub open spec fn parsed_target(s: Seq<char>) -> Option<Target> {
    let t = trimmed(s).map_values(|c: char| ascii_lower(c));
    if t == "prod"@ {
        Some(Target::Prod)
    } else if t == "stg"@ || t == "stage"@ || t == "staging"@ {
        Some(Target::Stg)
    } else {
        None
    }
}

proof fn lemma_trim_start(s: Seq<char>, i: int)
    requires
        0 <= i <= s.len(),
        forall|j: int| 0 <= j < i ==> spec_is_whitespace(#[trigger] s[j]),
        i == s.len() || !spec_is_whitespace(s[i]),
    ensures
        trim_start(s) == s.skip(i),
    decreases i,
{
    if i == 0 {
        assert(s.skip(0) =~= s);
    } else {
        assert(spec_is_whitespace(s[0]));
        let t = s.drop_first();
        assert forall|j: int| 0 <= j < i - 1 implies spec_is_whitespace(#[trigger] t[j]) by {
            assert(t[j] == s[j + 1]);
        }
        if i < s.len() {
            assert(t[i - 1] == s[i]);
        }
        lemma_trim_start(t, i - 1);
        assert(t.skip(i - 1) =~= s.skip(i));
    }
}

proof fn lemma_trim_end(s: Seq<char>, k: int)
    requires
        0 <= k <= s.len(),
        forall|j: int| k <= j < s.len() ==> spec_is_whitespace(#[trigger] s[j]),
        k == 0 || !spec_is_whitespace(s[k - 1]),
    ensures
        trim_end(s) == s.take(k),
    decreases s.len() - k,
{
    if k == s.len() {
        assert(s.take(k) =~= s);
    } else {
        assert(spec_is_whitespace(s.last()));
        let t = s.drop_last();
        assert forall|j: int| k <= j < t.len() implies spec_is_whitespace(#[trigger] t[j]) by {
            assert(t[j] == s[j]);
        }
        if k > 0 {
            assert(t[k - 1] == s[k - 1]);
        }
        lemma_trim_end(t, k);
        assert(t.take(k) =~= s.take(k));
    }
}

fn lower_char(c: char) -> (r: char)
    ensures
        r == ascii_lower(c),
{
    if 'A' <= c && c <= 'Z' {
        let b: u8 = (c as u32 + 32) as u8;
        b as char
    } else {
        c
    }
}

/// The characters of `s` without leading and trailing white space.
pub(crate) fn trim_chars(s: &str) -> (r: Vec<char>)
    ensures
        r@ == trimmed(s@),
{
    let mut cs: Vec<char> = Vec::new();
    let ghost full = s@;
    for c in it: s.chars()
        invariant
            full == s@,
            it.seq() == full,
            cs@ == full.take(it.index() as int),
    {
        cs.push(c);
        assert(cs@ =~= full.take(it.index() + 1));
    }
    assert(full.take(full.len() as int) =~= full);
    let mut i: usize = 0;
    while i < cs.len() && is_whitespace(cs[i])
        invariant
            cs@ == full,
            i <= cs@.len(),
            forall|j: int| 0 <= j < i ==> spec_is_whitespace(#[trigger] full[j]),
        decreases cs@.len() - i,
    {
        i = i + 1;
    }
    proof {
        lemma_trim_start(full, i as int);
    }
    let ghost ts = full.skip(i as int);
    let mut k: usize = cs.len();
    while k > i && is_whitespace(cs[k - 1])
        invariant
            cs@ == full,
            ts == full.skip(i as int),
            i <= k <= cs@.len(),
            forall|j: int| k <= j < full.len() ==> spec_is_whitespace(#[trigger] full[j]),
        decreases k,
    {
        k = k - 1;
    }
    proof {
        assert forall|j: int| k - i <= j < ts.len() implies spec_is_whitespace(#[trigger] ts[j]) by {
            assert(ts[j] == full[j + i]);
        }
        if k > i {
            assert(ts[k - i - 1] == full[k - 1]);
        }
        lemma_trim_end(ts, k - i);
    }
    let mut out: Vec<char> = Vec::new();
    let mut j: usize = i;
    while j < k
        invariant
            cs@ == full,
            i <= j <= k <= cs@.len(),
            out@ == full.subrange(i as int, j as int),
        decreases k - j,
    {
        out.push(cs[j]);
        assert(out@ =~= full.subrange(i as int, j + 1));
        j = j + 1;
    }
    assert(ts.take(k - i) =~= full.subrange(i as int, k as int));
    out
}

/// The characters of `s`, trimmed and with ASCII letters in lower case.
fn normalized_chars(s: &str) -> (r: Vec<char>)
    ensures
        r@ == trimmed(s@).map_values(|c: char| ascii_lower(c)),
{
    let t = trim_chars(s);
    let mut out: Vec<char> = Vec::new();
    let mut j: usize = 0;
    while j < t.len()
        invariant
            j <= t@.len(),
            out@ == t@.take(j as int).map_values(|c: char| ascii_lower(c)),
        decreases t@.len() - j,
    {
        out.push(lower_char(t[j]));
        assert(out@ =~= t@.take(j + 1).map_values(|c: char| ascii_lower(c)));
        j = j + 1;
    }
    assert(t@.take(t@.len() as int) =~= t@);
    out
}

pub(crate) fn chars_are(cs: &Vec<char>, t: &str) -> (r: bool)
    ensures
        r == (cs@ == t@),
{
    let mut s = String::new();
    let mut i: usize = 0;
    while i < cs.len()
        invariant
            i <= cs@.len(),
            s@ == cs@.take(i as int),
        decreases cs@.len() - i,
    {
        push_char(&mut s, cs[i]);
        assert(s@ =~= cs@.take(i + 1));
        i = i + 1;
    }
    assert(cs@.take(cs@.len() as int) =~= cs@);
    str_eq(s.as_str(), t)
}

impl Target {
    /// `prod` or `stg`.
    pub fn as_str(&self) -> (r: &'static str)
        ensures
            r@ == (match self { Target::Prod => "prod"@, Target::Stg => "stg"@ }),
    {
        match self {
            Target::Prod => "prod",
            Target::Stg => "stg",
        }
    }

    /// The target named by `s`, ignoring surrounding white space and the
    /// case of ASCII letters; `None` for any other text.
    pub fn parse(s: &str) -> (r: Option<Target>)
        ensures
            r == parsed_target(s@),
    {
        let t = normalized_chars(s);
        if chars_are(&t, "prod") {
            Some(Target::Prod)
        } else if chars_are(&t, "stg") || chars_are(&t, "stage") || chars_are(&t, "staging") {
            Some(Target::Stg)
        } else {
            None
        }
    }
}

/// The resolved target database.
pub struct TargetResolution {
    pub target: Target,
    /// Path of the database file.
    pub db_path: String,
    /// Opened read-only (production).
    pub readonly: bool,
    /// Migrated on open (staging).
    pub should_migrate: bool,
}

/// Source of environment variables.
pub trait EnvProvider {
    /// The value of variable `key` in this environment, if set.
    spec fn var_value(&self, key: Seq<char>) -> Option<Seq<char>>;

    /// The value of variable `key`, if set.
    fn get(&self, key: &str) -> (r: Option<String>)
        ensures
            opt_text(r) == self.var_value(key@);
}

/// The value of the last setting of `key` among `vars`, if any.
pub open spec fn last_value(vars: Seq<(String, String)>, key: Seq<char>) -> Option<Seq<char>>
    decreases vars.len(),
{
    if vars.len() == 0 {
        None
    } else if vars.last().0@ == key {
        Some(vars.last().1@)
    } else {
        last_value(vars.drop_last(), key)
    }
}

/// An environment given as a list of settings; a later setting of a
/// variable replaces an earlier one.
pub struct MapEnv {
    vars: Vec<(String, String)>,
}

impl MapEnv {
    /// An environment with no variable set.
    pub fn empty() -> (r: Self)
        ensures
            forall|key: Seq<char>| #[trigger] r.var_value(key) is None,
    {
        MapEnv { vars: Vec::new() }
    }

    /// This environment with variable `key` set to `value`.
    pub fn with(self, key: &str, value: &str) -> (r: Self)
        ensures
            r.var_value(key@) == Some(value@),
            forall|k: Seq<char>| k != key@ ==> #[trigger] r.var_value(k) == self.var_value(k),
    {
        let mut vars = self.vars;
        let ghost before = vars@;
        vars.push((key.to_string(), value.to_string()));
        assert(vars@.drop_last() =~= before);
        MapEnv { vars }
    }
}

impl EnvProvider for MapEnv {
    closed spec fn var_value(&self, key: Seq<char>) -> Option<Seq<char>> {
        last_value(self.vars@, key)
    }

    fn get(&self, key: &str) -> (r: Option<String>) {
        let mut i: usize = self.vars.len();
        proof {
            assert(self.vars@.take(i as int) =~= self.vars@);
        }
        while i > 0
            invariant
                i <= self.vars@.len(),
                last_value(self.vars@, key@) == last_value(self.vars@.take(i as int), key@),
            decreases i,
        {
            proof {
                let t = self.vars@.take(i as int);
                assert(t.drop_last() =~= self.vars@.take(i - 1));
                assert(t.last() == self.vars@[i - 1]);
            }
            if str_eq(self.vars[i - 1].0.as_str(), key) {
                return Some(self.vars[i - 1].1.clone());
            }
            i = i - 1;
        }
        None
    }
}

/// The target chosen by the command line or, failing that, by the value of
/// `KIJUKU_TARGET`; staging when neither names one.
pub open spec fn chosen_target(cli: Option<Target>, env_target: Option<Seq<char>>) -> Target {
    match cli {
        Some(t) => t,
        None => match env_target {
            Some(v) => match parsed_target(v) { Some(t) => t, None => Target::Stg },
            None => Target::Stg,
        },
    }
}

/// Built-in path of a target's database.
pub open spec fn default_db_path(t: Target) -> Seq<char> {
    match t {
        Target::Prod => "kijuku.db"@,
        Target::Stg => "kijuku.stg.db"@,
    }
}

/// Environment variable holding a target's database path.
pub open spec fn db_path_var(t: Target) -> Seq<char> {
    match t {
        Target::Prod => "KIJUKU_DB_PATH"@,
        Target::Stg => "KIJUKU_STG_DB_PATH"@,
    }
}

/// `r` is the resolution of target `t` with the path given on the command
/// line, else the value of the target's path variable, else the built-in
/// path; production is read-only and not migrated.
pub open spec fn resolved(r: TargetResolution, t: Target, cli_db: Option<Seq<char>>, env_db: Option<Seq<char>>) -> bool {
    &&& r.target == t
    &&& r.db_path@ == (match cli_db {
        Some(p) => p,
        None => match env_db { Some(v) => v, None => default_db_path(t) },
    })
    &&& r.readonly == (t == Target::Prod)
    &&& r.should_migrate == (t != Target::Prod)
}

/// Text of an optional string slice.
pub open spec fn str_text(o: Option<&str>) -> Option<Seq<char>> {
    match o {
        Some(s) => Some(s@),
        None => None,
    }
}

/// Text of an optional string.
pub open spec fn opt_text(o: Option<String>) -> Option<Seq<char>> {
    match o {
        Some(s) => Some(s@),
        None => None,
    }
}

/// The target chosen by the command line, else by the value of
/// `KIJUKU_TARGET` (`env_target`), else staging.
pub fn choose_target(cli_target: Option<Target>, env_target: Option<String>) -> (r: Target)
    ensures
        r == chosen_target(cli_target, opt_text(env_target)),
{
    match cli_target {
        Some(t) => t,
        None => match env_target {
            Some(v) => match Target::parse(v.as_str()) {
                Some(t) => t,
                None => Target::Stg,
            },
            None => Target::Stg,
        },
    }
}

/// Resolution of target `t`: the path given on the command line, else the
/// value of the target's path variable (`env_db`), else the built-in path.
pub fn resolution_for(target: Target, cli_db: Option<&str>, env_db: Option<String>) -> (r: TargetResolution)
    ensures
        resolved(r, target, str_text(cli_db), opt_text(env_db)),
{
    let db_path = match cli_db {
        Some(p) => p.to_owned(),
        None => match env_db {
            Some(v) => v,
            None => match target {
                Target::Prod => "kijuku.db".to_owned(),
                Target::Stg => "kijuku.stg.db".to_owned(),
            },
        },
    };
    let readonly = target == Target::Prod;
    TargetResolution { target, db_path, readonly, should_migrate: !readonly }
}

/// Resolves the target and its database path. The command line wins:
/// target from `cli_target`, else `KIJUKU_TARGET`, else staging; path from
/// `cli_db`, else `KIJUKU_DB_PATH` (production) or `KIJUKU_STG_DB_PATH`
/// (staging), else `kijuku.db` or `kijuku.stg.db`. The variables are read
/// from `env`, and only those that are needed.
pub fn resolve_target<E: EnvProvider>(cli_target: Option<Target>, cli_db: Option<&str>, env: &E) -> (r: TargetResolution)
    ensures
        ({
            let t = chosen_target(cli_target, if cli_target is None { env.var_value("KIJUKU_TARGET"@) } else { None });
            resolved(r, t, str_text(cli_db), if cli_db is None { env.var_value(db_path_var(t)) } else { None })
        }),
        cli_target matches Some(t) ==> r.target == t,
        cli_db matches Some(p) ==> r.db_path@ == p@,
{
    let env_target = match cli_target {
        Some(_) => None,
        None => env.get("KIJUKU_TARGET"),
    };
    let target = choose_target(cli_target, env_target);
    let env_db = match cli_db {
        Some(_) => None,
        None => match target {
            Target::Prod => env.get("KIJUKU_DB_PATH"),
            Target::Stg => env.get("KIJUKU_STG_DB_PATH"),
        },
    };
    resolution_for(target, cli_db, env_db)
}

/// The value of a path variable, or the built-in path of `t`.
pub open spec fn path_or_default(v: Option<Seq<char>>, t: Target) -> Seq<char> {
    match v {
        Some(x) => x,
        None => default_db_path(t),
    }
}

/// Database paths of production and of staging, each from its path
/// variable or the built-in path.
pub fn resolve_prod_and_stg_paths<E: EnvProvider>(env: &E) -> (r: (String, String))
    ensures
        r.0@ == path_or_default(env.var_value("KIJUKU_DB_PATH"@), Target::Prod),
        r.1@ == path_or_default(env.var_value("KIJUKU_STG_DB_PATH"@), Target::Stg),
{
    let prod = resolve_target(Some(Target::Prod), None, env);
    let stg = resolve_target(Some(Target::Stg), None, env);
    (prod.db_path, stg.db_path)
}

} // verus!
