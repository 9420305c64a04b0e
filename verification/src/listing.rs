//! The backup listing: which files of the backup directories are backups,
//! what their labels and notes are (from the file name or the side file
//! `backup-meta.json`), and the side file's entries.
use vstd::prelude::*;
use vstd::string::StringSliceAdditionalSpecFns;
use vstd::utf8::{encode_utf8, decode_utf8};
use crate::backup::{
    BackupInfo, BackupKind, BackupScope, LabelSource, BackupManager, BackupSelector, BackupSelectorKind,
    parse_backup_filename, parse_name, is_pre_stash_name,
};
use crate::bytes::{has_suffix, lemma_encode_concat};
use crate::crud::opt_opt_view;
use crate::error::{KijukuError, other_text};
use crate::order::{lex_lt, KeyOrder, lemma_lex_lt_irreflexive, lemma_lex_lt_transitive, lemma_lex_lt_asymmetric, lemma_lex_lt_total};
use crate::tally::{TallyKey, text_rank};
use crate::text::push_str;
use crate::types::{str_eq, opt_str_view, clone_opt_str};

verus! {

broadcast use vstd::std_specs::vec::group_vec_axioms;

/// A file found in one of the backup directories.
pub struct BackupFileEntry {
    /// Directory it was found in.
    pub scope: BackupScope,
    pub name: String,
    pub path: String,
    /// Modification time (ms since the Unix epoch).
    pub modified_ms: u64,
    /// Base id read from the header, for a `.diff` file whose header could be read.
    pub diff_base_id: Option<String>,
}

/// Value of a backup description.
pub struct BackupInfoView {
    pub id: Seq<char>,
    pub name: Seq<char>,
    pub path: Seq<char>,
    pub created_at: u64,
    pub scope: BackupScope,
    /// Base of a differential backup; `None` for a full one.
    pub diff_base: Option<Seq<char>>,
    pub label: Option<Seq<char>>,
    pub label_source: LabelSource,
    pub note: Option<Seq<char>>,
}

impl View for BackupInfo {
    type V = BackupInfoView;

    open spec fn view(&self) -> BackupInfoView {
        BackupInfoView {
            id: self.id@,
            name: self.name@,
            path: self.path@,
            created_at: self.created_at,
            scope: self.scope,
            diff_base: match self.kind {
                BackupKind::Full => None,
                BackupKind::Diff { base_id } => Some(base_id@),
            },
            label: opt_str_view(self.label),
            label_source: self.label_source,
            note: opt_str_view(self.note),
        }
    }
}

/// A label and a note set after a backup was made (an entry of the side file).
pub struct BackupMetaEntry {
    pub id: String,
    pub label: Option<String>,
    pub note: Option<String>,
    pub updated_at: String,
}

/// Label, note and time of change of a side-file entry.
pub struct BackupMetaView {
    pub label: Option<Seq<char>>,
    pub note: Option<Seq<char>>,
    pub updated_at: Seq<char>,
}

/// The side file: entries in strictly ascending byte order of their ids.
pub struct BackupMetaStore {
    pub entries: Vec<BackupMetaEntry>,
}

/// Some entry of `s` has id `id`.
pub open spec fn meta_has(s: Seq<BackupMetaEntry>, id: Seq<char>) -> bool {
    exists|i: int| 0 <= i < s.len() && #[trigger] s[i].id@ == id
}

/// A position of `s` with id `id` (meaningful when `meta_has(s, id)`).
pub open spec fn meta_index(s: Seq<BackupMetaEntry>, id: Seq<char>) -> int {
    choose|i: int| 0 <= i < s.len() && #[trigger] s[i].id@ == id
}

/// The entry of `s` with id `id` (meaningful when `meta_has(s, id)`).
pub open spec fn meta_at(s: Seq<BackupMetaEntry>, id: Seq<char>) -> BackupMetaEntry {
    s[meta_index(s, id)]
}

/// Label, note and time of an entry.
pub open spec fn meta_view(e: BackupMetaEntry) -> BackupMetaView {
    BackupMetaView { label: opt_str_view(e.label), note: opt_str_view(e.note), updated_at: e.updated_at@ }
}

/// The side file as a map from id to label, note and time.
pub open spec fn meta_map(s: Seq<BackupMetaEntry>) -> Map<Seq<char>, BackupMetaView> {
    Map::new(|id: Seq<char>| meta_has(s, id), |id: Seq<char>| meta_view(meta_at(s, id)))
}

impl BackupMetaStore {
    /// Ids strictly ascending (so each id once).
    pub open spec fn wf(&self) -> bool {
        forall|i: int, j: int| 0 <= i < j < self.entries@.len()
            ==> lex_lt(text_rank(#[trigger] self.entries@[i].id@), text_rank(#[trigger] self.entries@[j].id@))
    }

    /// An empty side file.
    pub fn new() -> (r: Self)
        ensures
            r.wf(),
            r.entries@.len() == 0,
    {
        BackupMetaStore { entries: Vec::new() }
    }

    /// Position of the entry with id `id`, if any.
    fn position(&self, id: &str) -> (r: Option<usize>)
        ensures
            r matches Some(i) ==> i < self.entries@.len() && self.entries@[i as int].id@ == id@,
            r is None ==> !meta_has(self.entries@, id@),
    {
        let mut i: usize = 0;
        while i < self.entries.len()
            invariant
                i <= self.entries@.len(),
                forall|j: int| 0 <= j < i ==> #[trigger] self.entries@[j].id@ != id@,
            decreases self.entries@.len() - i,
        {
            if str_eq(self.entries[i].id.as_str(), id) {
                return Some(i);
            }
            i = i + 1;
        }
        None
    }

    /// The entry with id `id`, if any.
    pub fn get(&self, id: &str) -> (r: Option<BackupMetaEntry>)
        ensures
            r is Some <==> meta_has(self.entries@, id@),
            r matches Some(e) ==> e.id@ == id@,
            self.wf() && r is Some ==> meta_view(r->0) == meta_map(self.entries@)[id@],
    {
        match self.position(id) {
            Some(i) => {
                proof {
                    self.lemma_unique(i as int, id@);
                }
                let e = &self.entries[i];
                Some(BackupMetaEntry {
                    id: e.id.clone(),
                    label: clone_opt_str(&e.label),
                    note: clone_opt_str(&e.note),
                    updated_at: e.updated_at.clone(),
                })
            },
            None => None,
        }
    }

    /// In a well-formed store the entry at `i` is the one `meta_at` names.
    proof fn lemma_unique(&self, i: int, id: Seq<char>)
        requires
            0 <= i < self.entries@.len(),
            self.entries@[i].id@ == id,
        ensures
            self.wf() ==> meta_at(self.entries@, id) == self.entries@[i],
            meta_has(self.entries@, id),
            meta_at(self.entries@, id).id@ == id,
    {
        let s = self.entries@;
        assert(s[i].id@ == id);
        assert(meta_has(s, id));
        let j = meta_index(s, id);
        assert(0 <= j < s.len() && s[j].id@ == id);
        if self.wf() {
            if j != i {
                if i < j {
                    assert(lex_lt(text_rank(s[i].id@), text_rank(s[j].id@)));
                } else {
                    assert(lex_lt(text_rank(s[j].id@), text_rank(s[i].id@)));
                }
                lemma_lex_lt_irreflexive(text_rank(id));
                assert(false);
            }
        }
    }
}

/// The name ends like a copy taken before a migration, restore or promote.
pub open spec fn pre_stash_bytes(n: Seq<u8>) -> bool {
    has_suffix(n, "-pre_migrate.db".spec_bytes())
        || has_suffix(n, "-pre_restore.db".spec_bytes())
        || has_suffix(n, "-pre_promote.db".spec_bytes())
}

/// Label, its source and note of a backup: a side-file label wins over the
/// label of the file name; the note comes from the side file.
pub open spec fn resolve_label(meta: Map<Seq<char>, BackupMetaView>, id: Seq<char>, file_label: Option<Seq<char>>)
    -> (Option<Seq<char>>, LabelSource, Option<Seq<char>>) {
    if meta.contains_key(id) {
        let e = meta[id];
        if e.label is Some { (e.label, LabelSource::Sidecar, e.note) } else { (file_label, LabelSource::Filename, e.note) }
    } else {
        (file_label, LabelSource::Filename, None)
    }
}

/// The backup a file stands for, if it is one: not a pre-stash copy, a name
/// that parses, and a `.diff` only among the automatic backups.
pub open spec fn entry_info(f: BackupFileEntry, stem: Seq<u8>, meta: Map<Seq<char>, BackupMetaView>) -> Option<BackupInfoView> {
    let nb = encode_utf8(f.name@);
    if pre_stash_bytes(nb) {
        None
    } else {
        match parse_name(nb, stem) {
            None => None,
            Some((idb, is_diff, lab)) => {
                if f.scope != BackupScope::Auto && is_diff {
                    None
                } else {
                    let id = decode_utf8(idb);
                    let file_label = match lab { Some(l) => Some(decode_utf8(l)), None => None };
                    let (label, source, note) = resolve_label(meta, id, file_label);
                    Some(BackupInfoView {
                        id,
                        name: f.name@,
                        path: f.path@,
                        created_at: f.modified_ms,
                        scope: f.scope,
                        diff_base: if is_diff {
                            Some(match f.diff_base_id { Some(b) => b@, None => "unknown"@ })
                        } else {
                            None
                        },
                        label,
                        label_source: source,
                        note,
                    })
                }
            },
        }
    }
}

/// The backups the files stand for, in file order, limited to a scope.
pub open spec fn entry_infos(files: Seq<BackupFileEntry>, stem: Seq<u8>, meta: Map<Seq<char>, BackupMetaView>, scope: Option<BackupScope>)
    -> Seq<BackupInfoView>
    decreases files.len(),
{
    if files.len() == 0 {
        Seq::empty()
    } else {
        let prev = entry_infos(files.drop_last(), stem, meta, scope);
        let f = files.last();
        if scope matches Some(s) && f.scope != s {
            prev
        } else {
            match entry_info(f, stem, meta) {
                Some(b) => prev.push(b),
                None => prev,
            }
        }
    }
}

/// Where `x` goes in `s` (sorted by id, newest first) so that it follows
/// every backup whose id is not smaller.
pub open spec fn insert_pos(s: Seq<BackupInfoView>, x: BackupInfoView) -> int
    decreases s.len(),
{
    if s.len() == 0 {
        0
    } else if lex_lt(text_rank(s[0].id), text_rank(x.id)) {
        0
    } else {
        1 + insert_pos(s.drop_first(), x)
    }
}

/// `s` sorted by id, largest first; backups with equal ids keep their order.
pub open spec fn sorted_by_id_desc(s: Seq<BackupInfoView>) -> Seq<BackupInfoView>
    decreases s.len(),
{
    if s.len() == 0 {
        Seq::empty()
    } else {
        let t = sorted_by_id_desc(s.drop_last());
        t.insert(insert_pos(t, s.last()), s.last())
    }
}

proof fn lemma_insert_pos(s: Seq<BackupInfoView>, x: BackupInfoView, p: int)
    requires
        0 <= p <= s.len(),
        forall|q: int| 0 <= q < p ==> !lex_lt(text_rank(#[trigger] s[q].id), text_rank(x.id)),
        p < s.len() ==> lex_lt(text_rank(s[p].id), text_rank(x.id)),
    ensures
        insert_pos(s, x) == p,
    decreases p,
{
    if p > 0 {
        let t = s.drop_first();
        assert forall|q: int| 0 <= q < p - 1 implies !lex_lt(text_rank(#[trigger] t[q].id), text_rank(x.id)) by {
            assert(t[q] == s[q + 1]);
        }
        if p < s.len() {
            assert(t[p - 1] == s[p]);
        }
        assert(!lex_lt(text_rank(s[0].id), text_rank(x.id)));
        lemma_insert_pos(t, x, p - 1);
    }
}

/// The views of a sequence of backups.
pub open spec fn info_views(s: Seq<BackupInfo>) -> Seq<BackupInfoView> {
    s.map_values(|b: BackupInfo| b@)
}

fn sort_infos(v: Vec<BackupInfo>) -> (r: Vec<BackupInfo>)
    ensures
        info_views(r@) == sorted_by_id_desc(info_views(v@)),
{
    let ghost all = info_views(v@);
    let mut rest = v;
    let mut out: Vec<BackupInfo> = Vec::new();
    let n = rest.len();
    let mut i: usize = 0;
    assert(all.take(0) =~= Seq::<BackupInfoView>::empty());
    assert(all.skip(0) =~= all);
    while i < n
        invariant
            n == all.len(),
            i <= n,
            info_views(rest@) == all.skip(i as int),
            rest@.len() == n - i,
            info_views(out@) == sorted_by_id_desc(all.take(i as int)),
        decreases n - i,
    {
        let ghost r0 = rest@;
        let x = rest.remove(0);
        proof {
            assert(info_views(r0)[0] == r0[0]@);
            assert(all.skip(i as int)[0] == all[i as int]);
            assert(x@ == all[i as int]);
            assert(rest@ =~= r0.skip(1));
            assert(info_views(rest@) =~= info_views(r0).skip(1));
            assert(info_views(rest@) =~= all.skip(i + 1));
        }
        let ghost ov = info_views(out@);
        let mut p: usize = 0;
        while p < out.len() && !(out[p].id.compare(&x.id) == KeyOrder::Less)
            invariant
                ov == info_views(out@),
                p <= out@.len(),
                forall|q: int| 0 <= q < p ==> !lex_lt(text_rank(#[trigger] ov[q].id), text_rank(x@.id)),
            decreases out@.len() - p,
        {
            assert(ov[p as int].id == out@[p as int].id@);
            p = p + 1;
        }
        proof {
            if p < out@.len() {
                assert(ov[p as int].id == out@[p as int].id@);
            }
            lemma_insert_pos(ov, x@, p as int);
            let t = all.take(i + 1);
            assert(t.drop_last() =~= all.take(i as int));
            assert(t.last() == x@);
        }
        let ghost xv = x@;
        out.insert(p, x);
        assert(info_views(out@) =~= ov.insert(p as int, xv));
        i = i + 1;
    }
    assert(all.take(n as int) =~= all);
    out
}

proof fn lemma_meta_map_has(s: Seq<BackupMetaEntry>, id: Seq<char>)
    ensures
        meta_map(s).contains_key(id) == meta_has(s, id),
        meta_has(s, id) ==> meta_map(s)[id] == meta_view(meta_at(s, id)),
{
}

/// The backup `f` stands for (see `entry_info`).
fn file_info(f: &BackupFileEntry, stem: &str, meta: &BackupMetaStore) -> (r: Option<BackupInfo>)
    requires
        meta.wf(),
    ensures
        match r {
            Some(b) => entry_info(*f, stem.spec_bytes(), meta_map(meta.entries@)) == Some(b@),
            None => entry_info(*f, stem.spec_bytes(), meta_map(meta.entries@)) is None,
        },
{
    proof {
        reveal_strlit("db");
        reveal_strlit("diff");
        reveal_strlit("unknown");
        assert("diff"@ != "db"@) by {
            assert("diff"@.len() != "db"@.len());
        }
    }
    if is_pre_stash_name(f.name.as_str()) {
        return None;
    }
    let parsed = match parse_backup_filename(f.name.as_str(), stem) {
        Some(p) => p,
        None => return None,
    };
    let is_diff = !str_eq(parsed.extension.as_str(), "db");
    if f.scope != BackupScope::Auto && is_diff {
        return None;
    }
    proof {
        vstd::utf8::encode_utf8_decode_utf8(parsed.id@);
        if parsed.label is Some {
            vstd::utf8::encode_utf8_decode_utf8(parsed.label->0@);
        }
        lemma_meta_map_has(meta.entries@, parsed.id@);
    }
    let kind = if is_diff {
        let base_id = match &f.diff_base_id {
            Some(b) => b.clone(),
            None => "unknown".to_owned(),
        };
        BackupKind::Diff { base_id }
    } else {
        BackupKind::Full
    };
    let entry = meta.get(parsed.id.as_str());
    let (label, label_source, note) = match entry {
        Some(e) => {
            if e.label.is_some() {
                (e.label, LabelSource::Sidecar, e.note)
            } else {
                (parsed.label, LabelSource::Filename, e.note)
            }
        },
        None => (parsed.label, LabelSource::Filename, None),
    };
    Some(BackupInfo {
        id: parsed.id,
        name: f.name.clone(),
        path: f.path.clone(),
        created_at: f.modified_ms,
        scope: f.scope,
        kind,
        label,
        label_source,
        note,
    })
}

/// The side file with the entry of `id` set: `label` and `note` replace
/// the entry's label and note when present (`Some`), the time becomes
/// `now`; a missing entry starts without label and note.
pub open spec fn meta_updated(
    m: Map<Seq<char>, BackupMetaView>,
    id: Seq<char>,
    label: Option<Option<Seq<char>>>,
    note: Option<Option<Seq<char>>>,
    now: Seq<char>,
) -> Map<Seq<char>, BackupMetaView> {
    let old_label = if m.contains_key(id) { m[id].label } else { None };
    let old_note = if m.contains_key(id) { m[id].note } else { None };
    m.insert(id, BackupMetaView {
        label: match label { Some(l) => l, None => old_label },
        note: match note { Some(n) => n, None => old_note },
        updated_at: now,
    })
}

proof fn lemma_meta_map_of_wf(store: &BackupMetaStore, i: int)
    requires
        store.wf(),
        0 <= i < store.entries@.len(),
    ensures
        meta_map(store.entries@).contains_key(store.entries@[i].id@),
        meta_map(store.entries@)[store.entries@[i].id@] == meta_view(store.entries@[i]),
{
    store.lemma_unique(i, store.entries@[i].id@);
}

impl BackupMetaStore {
    /// Sets the entry of `id` (see `meta_updated`).
    pub fn update(&mut self, id: &str, label: Option<Option<String>>, note: Option<Option<String>>, now: &str)
        requires
            old(self).wf(),
        ensures
            final(self).wf(),
            meta_map(final(self).entries@) == meta_updated(meta_map(old(self).entries@), id@,
                opt_opt_view(label), opt_opt_view(note), now@),
    {
        let ghost s0 = self.entries@;
        let ghost m0 = meta_map(s0);
        let ghost lv = opt_opt_view(label);
        let ghost nv = opt_opt_view(note);
        let key = id.to_owned();
        let mut p: usize = 0;
        while p < self.entries.len() && self.entries[p].id.compare(&key) == KeyOrder::Less
            invariant
                self.entries@ == s0,
                key@ == id@,
                p <= s0.len(),
                forall|q: int| 0 <= q < p ==> lex_lt(text_rank(#[trigger] s0[q].id@), text_rank(id@)),
            decreases s0.len() - p,
        {
            p = p + 1;
        }
        let found = p < self.entries.len() && str_eq(self.entries[p].id.as_str(), id);
        if found {
            let old_e = &self.entries[p];
            let new_label = match label { Some(l) => l, None => clone_opt_str(&old_e.label) };
            let new_note = match note { Some(n) => n, None => clone_opt_str(&old_e.note) };
            let e = BackupMetaEntry { id: key, label: new_label, note: new_note, updated_at: now.to_owned() };
            let ghost ev = e;
            proof {
                lemma_meta_map_of_wf(self, p as int);
            }
            self.entries.set(p, e);
            proof {
                let s1 = self.entries@;
                assert(s1 =~= s0.update(p as int, ev));
                assert(self.wf()) by {
                    assert forall|i: int, j: int| 0 <= i < j < s1.len()
                        implies lex_lt(text_rank(#[trigger] s1[i].id@), text_rank(#[trigger] s1[j].id@)) by {
                        assert(s1[i].id@ == s0[i].id@);
                        assert(s1[j].id@ == s0[j].id@);
                    }
                }
                let m1 = meta_map(s1);
                let target = meta_updated(m0, id@, lv, nv, now@);
                assert forall|k: Seq<char>| m1.contains_key(k) == target.contains_key(k) by {
                    if meta_has(s0, k) {
                        let w = meta_index(s0, k);
                        assert(s1[w].id@ == k);
                    }
                    if meta_has(s1, k) {
                        let w = meta_index(s1, k);
                        assert(s0[w].id@ == k);
                    }
                }
                assert forall|k: Seq<char>| #[trigger] m1.contains_key(k) implies m1[k] == target[k] by {
                    let w = meta_index(s1, k);
                    lemma_meta_map_of_wf(self, w);
                    if w != p {
                        assert(s1[w] == s0[w]);
                        lemma_meta_map_of_wf_seq(s0, w);
                        assert(k != id@);
                    } else {
                        assert(k == id@);
                    }
                }
                assert(m1 =~= target);
            }
        } else {
            let e = BackupMetaEntry {
                id: key,
                label: match label { Some(l) => l, None => None },
                note: match note { Some(n) => n, None => None },
                updated_at: now.to_owned(),
            };
            let ghost ev = e;
            proof {
                assert(!meta_has(s0, id@)) by {
                    if meta_has(s0, id@) {
                        let w = meta_index(s0, id@);
                        if w < p {
                            lemma_lex_lt_irreflexive(text_rank(id@));
                        } else if w > p {
                            lemma_lex_lt_total(text_rank(s0[p as int].id@), text_rank(id@));
                            assert(lex_lt(text_rank(s0[p as int].id@), text_rank(s0[w].id@)));
                            if s0[p as int].id@ == id@ {
                            } else if lex_lt(text_rank(s0[p as int].id@), text_rank(id@)) {
                            } else {
                                lemma_lex_lt_asymmetric(text_rank(id@), text_rank(s0[p as int].id@));
                            }
                            <String as TallyKey>::lemma_rank_key_injective(s0[p as int].id@, id@);
                        }
                    }
                }
                if p < s0.len() {
                    <String as TallyKey>::lemma_rank_key_injective(s0[p as int].id@, id@);
                    lemma_lex_lt_total(text_rank(s0[p as int].id@), text_rank(id@));
                }
            }
            self.entries.insert(p, e);
            proof {
                let s1 = self.entries@;
                assert(s1 =~= s0.insert(p as int, ev));
                assert(self.wf()) by {
                    assert forall|i: int, j: int| 0 <= i < j < s1.len()
                        implies lex_lt(text_rank(#[trigger] s1[i].id@), text_rank(#[trigger] s1[j].id@)) by {
                        if j < p {
                            assert(s1[i] == s0[i] && s1[j] == s0[j]);
                        } else if j == p {
                            assert(s1[i] == s0[i]);
                        } else if i < p {
                            assert(s1[i] == s0[i] && s1[j] == s0[j - 1]);
                            if j - 1 > p {
                                assert(lex_lt(text_rank(s0[p as int].id@), text_rank(s0[j - 1].id@)));
                                lemma_lex_lt_transitive(text_rank(id@), text_rank(s0[p as int].id@), text_rank(s0[j - 1].id@));
                            }
                            lemma_lex_lt_transitive(text_rank(s0[i].id@), text_rank(id@), text_rank(s0[j - 1].id@));
                        } else if i == p {
                            assert(s1[j] == s0[j - 1]);
                            if j - 1 > p {
                                assert(lex_lt(text_rank(s0[p as int].id@), text_rank(s0[j - 1].id@)));
                                lemma_lex_lt_transitive(text_rank(id@), text_rank(s0[p as int].id@), text_rank(s0[j - 1].id@));
                            }
                        } else {
                            assert(s1[i] == s0[i - 1] && s1[j] == s0[j - 1]);
                        }
                    }
                }
                let m1 = meta_map(s1);
                let target = meta_updated(m0, id@, lv, nv, now@);
                assert forall|k: Seq<char>| m1.contains_key(k) == target.contains_key(k) by {
                    if meta_has(s0, k) {
                        let w = meta_index(s0, k);
                        if w < p {
                            assert(s1[w].id@ == k);
                        } else {
                            assert(s1[w + 1].id@ == k);
                        }
                    }
                    if k == id@ {
                        assert(s1[p as int].id@ == k);
                    }
                    if meta_has(s1, k) {
                        let w = meta_index(s1, k);
                        if w < p {
                            assert(s0[w].id@ == k);
                        } else if w > p {
                            assert(s0[w - 1].id@ == k);
                        }
                    }
                }
                assert forall|k: Seq<char>| #[trigger] m1.contains_key(k) implies m1[k] == target[k] by {
                    let w = meta_index(s1, k);
                    lemma_meta_map_of_wf(self, w);
                    if w < p {
                        assert(s1[w] == s0[w]);
                        lemma_meta_map_of_wf_seq(s0, w);
                        assert(k != id@);
                    } else if w > p {
                        assert(s1[w] == s0[w - 1]);
                        lemma_meta_map_of_wf_seq(s0, w - 1);
                        assert(k != id@);
                    } else {
                        assert(k == id@);
                    }
                }
                assert(m1 =~= target);
            }
        }
    }
}

/// In a sequence of entries with strictly ascending ids, the map holds
/// entry `i` under its id.
proof fn lemma_meta_map_of_wf_seq(s: Seq<BackupMetaEntry>, i: int)
    requires
        forall|a: int, b: int| 0 <= a < b < s.len()
            ==> lex_lt(text_rank(#[trigger] s[a].id@), text_rank(#[trigger] s[b].id@)),
        0 <= i < s.len(),
    ensures
        meta_map(s).contains_key(s[i].id@),
        meta_map(s)[s[i].id@] == meta_view(s[i]),
{
    let id = s[i].id@;
    assert(meta_has(s, id));
    let j = meta_index(s, id);
    if j != i {
        if i < j {
            assert(lex_lt(text_rank(s[i].id@), text_rank(s[j].id@)));
        } else {
            assert(lex_lt(text_rank(s[j].id@), text_rank(s[i].id@)));
        }
        lemma_lex_lt_irreflexive(text_rank(id));
    }
}

/// Some backup of `listed` has id `id`.
pub open spec fn listed_has(listed: Seq<BackupInfo>, id: Seq<char>) -> bool {
    exists|i: int| 0 <= i < listed.len() && #[trigger] listed[i].id@ == id
}

fn listed_contains(listed: &[BackupInfo], id: &str) -> (r: bool)
    ensures
        r == listed_has(listed@, id@),
{
    let mut i: usize = 0;
    while i < listed.len()
        invariant
            i <= listed@.len(),
            forall|j: int| 0 <= j < i ==> #[trigger] listed@[j].id@ != id@,
        decreases listed@.len() - i,
    {
        if str_eq(listed[i].id.as_str(), id) {
            return true;
        }
        i = i + 1;
    }
    false
}

/// Message of a backup that does not exist.
pub open spec fn backup_not_found_text(id: Seq<char>) -> Seq<char> {
    "Backup "@ + id + " not found"@
}

fn backup_not_found(id: &str) -> (r: KijukuError)
    ensures
        r matches KijukuError::Other(m) && m@ == backup_not_found_text(id@),
{
    let mut m = String::new();
    push_str(&mut m, "Backup ");
    push_str(&mut m, id);
    push_str(&mut m, " not found");
    assert(m@ =~= backup_not_found_text(id@));
    KijukuError::Other(m)
}

/// Message of a note over the length limit.
pub open spec fn note_too_long_text() -> Seq<char> {
    "noteが長すぎます（最大4096文字）"@
}

fn more_chars_than(s: &str, limit: usize) -> (r: bool)
    requires
        limit < usize::MAX,
    ensures
        r == (s@.len() > limit),
{
    let mut n: usize = 0;
    let ghost full = s@;
    for c in it: s.chars()
        invariant
            full == s@,
            it.seq() == full,
            limit < usize::MAX,
            n == it.index(),
            n <= limit,
    {
        if n == limit {
            return true;
        }
        n = n + 1;
    }
    false
}

impl BackupManager {
    /// The backups of the files found in the backup directories (`auto/`,
    /// `manual/` and `tmp/`, in that order), newest id first; see
    /// `entry_info` for which files are backups.
    pub fn list_backups(&self, files: &[BackupFileEntry], meta: &BackupMetaStore) -> (r: Vec<BackupInfo>)
        requires
            meta.wf(),
        ensures
            info_views(r@) == sorted_by_id_desc(entry_infos(files@, encode_utf8(self.db_stem@), meta_map(meta.entries@), None)),
    {
        self.list_backups_filtered(files, meta, None)
    }

    /// The backups of one scope, newest id first.
    pub fn list_backups_in_scope(&self, files: &[BackupFileEntry], meta: &BackupMetaStore, scope: BackupScope) -> (r: Vec<BackupInfo>)
        requires
            meta.wf(),
        ensures
            info_views(r@) == sorted_by_id_desc(entry_infos(files@, encode_utf8(self.db_stem@), meta_map(meta.entries@), Some(scope))),
    {
        self.list_backups_filtered(files, meta, Some(scope))
    }

    fn list_backups_filtered(&self, files: &[BackupFileEntry], meta: &BackupMetaStore, scope: Option<BackupScope>) -> (r: Vec<BackupInfo>)
        requires
            meta.wf(),
        ensures
            info_views(r@) == sorted_by_id_desc(entry_infos(files@, encode_utf8(self.db_stem@), meta_map(meta.entries@), scope)),
    {
        let ghost stem = encode_utf8(self.db_stem@);
        let ghost mm = meta_map(meta.entries@);
        let mut out: Vec<BackupInfo> = Vec::new();
        let mut i: usize = 0;
        while i < files.len()
            invariant
                meta.wf(),
                stem == encode_utf8(self.db_stem@),
                mm == meta_map(meta.entries@),
                i <= files@.len(),
                info_views(out@) == entry_infos(files@.take(i as int), stem, mm, scope),
            decreases files@.len() - i,
        {
            let f = &files[i];
            let ghost t = files@.take(i + 1);
            proof {
                assert(t.drop_last() =~= files@.take(i as int));
                assert(t.last() == files@[i as int]);
            }
            let skip = match scope {
                Some(sc) => f.scope != sc,
                None => false,
            };
            if !skip {
                match file_info(f, self.db_stem.as_str(), meta) {
                    Some(b) => {
                        let ghost before = out@;
                        let ghost bv = b@;
                        out.push(b);
                        assert(info_views(out@) =~= info_views(before).push(bv));
                    },
                    None => {},
                }
            }
            i = i + 1;
        }
        assert(files@.take(files@.len() as int) =~= files@);
        sort_infos(out)
    }

    /// The side-file entry of backup `id`, if any.
    pub fn get_backup_meta(&self, meta: &BackupMetaStore, id: &str) -> (r: Option<BackupMetaEntry>)
        requires
            meta.wf(),
        ensures
            r is Some <==> meta_map(meta.entries@).contains_key(id@),
            r matches Some(e) ==> e.id@ == id@ && meta_view(e) == meta_map(meta.entries@)[id@],
    {
        meta.get(id)
    }

    /// Sets (or, with `None`, clears) the label of backup `id` in the side
    /// file; `listed` are the backups `list_backups` gives and `now` the
    /// time of the change. A backup not listed is refused.
    pub fn set_backup_label(&self, meta: &mut BackupMetaStore, listed: &[BackupInfo], id: &str, label: Option<&str>, now: &str)
        -> (r: Result<(), KijukuError>)
        requires
            old(meta).wf(),
        ensures
            final(meta).wf(),
            listed_has(listed@, id@) ==> r is Ok && meta_map(final(meta).entries@) == meta_updated(
                meta_map(old(meta).entries@), id@, Some(match label { Some(l) => Some(l@), None => None }), None, now@),
            !listed_has(listed@, id@) ==> (r matches Err(KijukuError::Other(m)) && m@ == backup_not_found_text(id@))
                && final(meta).entries@ == old(meta).entries@,
    {
        if !listed_contains(listed, id) {
            return Err(backup_not_found(id));
        }
        let l: Option<String> = match label {
            Some(x) => Some(x.to_owned()),
            None => None,
        };
        meta.update(id, Some(l), None, now);
        Ok(())
    }

    /// Sets (or, with `None`, clears) the note of backup `id` in the side
    /// file. A note of more than 4096 characters is refused, then a backup
    /// not listed.
    pub fn set_backup_note(&self, meta: &mut BackupMetaStore, listed: &[BackupInfo], id: &str, note: Option<&str>, now: &str)
        -> (r: Result<(), KijukuError>)
        requires
            old(meta).wf(),
        ensures
            final(meta).wf(),
            (note matches Some(n) && n@.len() > 4096) ==> (r matches Err(KijukuError::Other(m)) && m@ == note_too_long_text())
                && final(meta).entries@ == old(meta).entries@,
            !(note matches Some(n) && n@.len() > 4096) && !listed_has(listed@, id@)
                ==> (r matches Err(KijukuError::Other(m)) && m@ == backup_not_found_text(id@))
                && final(meta).entries@ == old(meta).entries@,
            !(note matches Some(n) && n@.len() > 4096) && listed_has(listed@, id@) ==> r is Ok
                && meta_map(final(meta).entries@) == meta_updated(
                meta_map(old(meta).entries@), id@, None, Some(match note { Some(n) => Some(n@), None => None }), now@),
    {
        let n: Option<String> = match note {
            Some(x) => {
                if more_chars_than(x, 4096) {
                    return Err(KijukuError::Other("noteが長すぎます（最大4096文字）".to_owned()));
                }
                Some(x.to_owned())
            },
            None => None,
        };
        if !listed_contains(listed, id) {
            return Err(backup_not_found(id));
        }
        meta.update(id, None, Some(n), now);
        Ok(())
    }
}

/// The full backup that file `f` of scope `scope` holds, as found by id:
/// the id and label from the file name, no note.
pub open spec fn full_info(f: BackupFileEntry, stem: Seq<u8>, scope: BackupScope) -> BackupInfoView {
    let (idb, _d, lab) = parse_name(encode_utf8(f.name@), stem).unwrap();
    BackupInfoView {
        id: decode_utf8(idb),
        name: f.name@,
        path: f.path@,
        created_at: f.modified_ms,
        scope,
        diff_base: None,
        label: match lab { Some(l) => Some(decode_utf8(l)), None => None },
        label_source: LabelSource::Filename,
        note: None,
    }
}

/// Whether `f` is a full backup (`.db`) of scope `scope` with id `id`.
pub open spec fn full_with_id(f: BackupFileEntry, stem: Seq<u8>, id: Seq<char>, scope: BackupScope) -> bool {
    &&& f.scope == scope
    &&& parse_name(encode_utf8(f.name@), stem) matches Some((idb, is_diff, _l))
    &&& !is_diff
    &&& decode_utf8(idb) == id
}

/// The value of the decimal digits `b[from..to]`.
pub open spec fn digits_num(b: Seq<u8>, from: int, to: int) -> int
    decreases to - from,
{
    if to <= from { 0 } else { digits_num(b, from, to - 1) * 10 + (b[to - 1] as int - 48) }
}

/// Whether a backup id (bytes `YYYYMMDD...`) falls on day `today`
/// (year, month, day).
pub open spec fn id_on_day(idb: Seq<u8>, today: (u32, u32, u32)) -> bool {
    digits_num(idb, 0, 4) == today.0 as int && digits_num(idb, 4, 6) == today.1 as int
        && digits_num(idb, 6, 8) == today.2 as int
}

/// Whether `f` is a full automatic backup made on day `today`.
pub open spec fn full_of_day(f: BackupFileEntry, stem: Seq<u8>, today: (u32, u32, u32)) -> bool {
    &&& f.scope == BackupScope::Auto
    &&& parse_name(encode_utf8(f.name@), stem) matches Some((idb, is_diff, _l))
    &&& !is_diff
    &&& id_on_day(idb, today)
}

/// The id of the backup a parsable file holds.
pub open spec fn file_id(f: BackupFileEntry, stem: Seq<u8>) -> Seq<char> {
    decode_utf8(parse_name(encode_utf8(f.name@), stem).unwrap().0)
}

fn digits_value_exec(b: &[u8], from: usize, to: usize) -> (r: u32)
    requires
        from <= to <= b@.len(),
        to - from <= 4,
        forall|k: int| from <= k < to ==> 48 <= #[trigger] b@[k] <= 57,
    ensures
        r as int == digits_num(b@, from as int, to as int),
{
    let mut v: u32 = 0;
    let mut k: usize = from;
    while k < to
        invariant
            from <= k <= to <= b@.len(),
            to - from <= 4,
            forall|q: int| from <= q < to ==> 48 <= #[trigger] b@[q] <= 57,
            v as int == digits_num(b@, from as int, k as int),
            0 <= v < 10000,
            k - from <= 3 ==> v < 1000,
            k - from <= 2 ==> v < 100,
            k - from <= 1 ==> v < 10,
            k == from ==> v == 0,
        decreases to - k,
    {
        v = v * 10 + (b[k] - 48) as u32;
        k = k + 1;
    }
    v
}

impl BackupManager {
    /// The full backup (`.db`) with id `id` among the files of scope
    /// `scope`, the first one in the order given; `None` when there is none.
    pub fn find_backup_by_id_in_scope(&self, files: &[BackupFileEntry], id: &str, scope: BackupScope) -> (r: Option<BackupInfo>)
        ensures
            match r {
                Some(b) => exists|i: int| 0 <= i < files@.len()
                    && #[trigger] full_with_id(files@[i], encode_utf8(self.db_stem@), id@, scope)
                    && (forall|j: int| 0 <= j < i ==> !full_with_id(#[trigger] files@[j], encode_utf8(self.db_stem@), id@, scope))
                    && b@ == full_info(files@[i], encode_utf8(self.db_stem@), scope),
                None => forall|i: int| 0 <= i < files@.len() ==> !full_with_id(#[trigger] files@[i], encode_utf8(self.db_stem@), id@, scope),
            },
    {
        let ghost stem = encode_utf8(self.db_stem@);
        proof {
            reveal_strlit("db");
        }
        let mut i: usize = 0;
        while i < files.len()
            invariant
                stem == encode_utf8(self.db_stem@),
                i <= files@.len(),
                forall|j: int| 0 <= j < i ==> !full_with_id(#[trigger] files@[j], stem, id@, scope),
            decreases files@.len() - i,
        {
            let f = &files[i];
            if f.scope == scope {
                match parse_backup_filename(f.name.as_str(), self.db_stem.as_str()) {
                    Some(p) => {
                        proof {
                            vstd::utf8::encode_utf8_decode_utf8(p.id@);
                            if p.label is Some {
                                vstd::utf8::encode_utf8_decode_utf8(p.label->0@);
                            }
                            assert("diff"@ != "db"@) by {
                                reveal_strlit("diff");
                                reveal_strlit("db");
                                assert("diff"@.len() != "db"@.len());
                            }
                        }
                        if str_eq(p.id.as_str(), id) && str_eq(p.extension.as_str(), "db") {
                            let b = BackupInfo {
                                id: p.id,
                                name: f.name.clone(),
                                path: f.path.clone(),
                                created_at: f.modified_ms,
                                scope,
                                kind: BackupKind::Full,
                                label: p.label,
                                label_source: LabelSource::Filename,
                                note: None,
                            };
                            assert(full_with_id(files@[i as int], stem, id@, scope));
                            return Some(b);
                        }
                    },
                    None => {},
                }
            }
            i = i + 1;
        }
        None
    }

    /// The newest full automatic backup made on day `today` (year, month,
    /// day): among the `.db` files of scope `Auto` whose id starts with that
    /// date, the one with the greatest id (the first of them when several
    /// share it); `None` when there is none.
    pub fn find_today_full_backup(&self, files: &[BackupFileEntry], today: (u32, u32, u32)) -> (r: Option<BackupInfo>)
        ensures
            match r {
                Some(b) => exists|i: int| 0 <= i < files@.len()
                    && #[trigger] full_of_day(files@[i], encode_utf8(self.db_stem@), today)
                    && (forall|j: int| 0 <= j < files@.len() && #[trigger] full_of_day(files@[j], encode_utf8(self.db_stem@), today)
                        ==> !lex_lt(text_rank(file_id(files@[i], encode_utf8(self.db_stem@))), text_rank(file_id(files@[j], encode_utf8(self.db_stem@)))))
                    && (forall|j: int| 0 <= j < i && #[trigger] full_of_day(files@[j], encode_utf8(self.db_stem@), today)
                        ==> lex_lt(text_rank(file_id(files@[j], encode_utf8(self.db_stem@))), text_rank(file_id(files@[i], encode_utf8(self.db_stem@)))))
                    && b@ == BackupInfoView { label: None, ..full_info(files@[i], encode_utf8(self.db_stem@), BackupScope::Auto) },
                None => forall|i: int| 0 <= i < files@.len() ==> !full_of_day(#[trigger] files@[i], encode_utf8(self.db_stem@), today),
            },
    {
        let ghost stem = encode_utf8(self.db_stem@);
        proof {
            reveal_strlit("db");
        }
        let mut best: Option<BackupInfo> = None;
        let ghost mut bi: int = 0;
        let mut i: usize = 0;
        while i < files.len()
            invariant
                stem == encode_utf8(self.db_stem@),
                i <= files@.len(),
                match best {
                    None => forall|j: int| 0 <= j < i ==> !full_of_day(#[trigger] files@[j], stem, today),
                    Some(b) => 0 <= bi < i && full_of_day(files@[bi], stem, today)
                        && (forall|j: int| 0 <= j < i && #[trigger] full_of_day(files@[j], stem, today)
                            ==> !lex_lt(text_rank(file_id(files@[bi], stem)), text_rank(file_id(files@[j], stem))))
                        && (forall|j: int| 0 <= j < bi && #[trigger] full_of_day(files@[j], stem, today)
                            ==> lex_lt(text_rank(file_id(files@[j], stem)), text_rank(file_id(files@[bi], stem))))
                        && b@ == BackupInfoView { label: None, ..full_info(files@[bi], stem, BackupScope::Auto) },
                },
            decreases files@.len() - i,
        {
            let f = &files[i];
            if f.scope == BackupScope::Auto {
                match parse_backup_filename(f.name.as_str(), self.db_stem.as_str()) {
                    Some(p) => {
                        let ghost pb = parse_name(encode_utf8(f.name@), stem).unwrap();
                        proof {
                            vstd::utf8::encode_utf8_decode_utf8(p.id@);
                            assert("diff"@ != "db"@) by {
                                reveal_strlit("diff");
                                reveal_strlit("db");
                                assert("diff"@.len() != "db"@.len());
                            }
                        }
                        let idb = p.id.as_str().as_bytes();
                        if str_eq(p.extension.as_str(), "db") && idb.len() >= 8 {
                            proof {
                                assert(idb@ == pb.0);
                                assert forall|k: int| 0 <= k < 8 implies 48 <= #[trigger] idb@[k] <= 57 by {
                                    assert(idb@[k] == pb.0.take(14)[k]);
                                }
                            }
                            let y = digits_value_exec(idb, 0, 4);
                            let m = digits_value_exec(idb, 4, 6);
                            let d = digits_value_exec(idb, 6, 8);
                            if y == today.0 && m == today.1 && d == today.2 {
                                let better = match &best {
                                    None => true,
                                    Some(b) => b.id.compare(&p.id) == KeyOrder::Less,
                                };
                                proof {
                                    assert(full_of_day(files@[i as int], stem, today));
                                    assert(file_id(files@[i as int], stem) == p.id@);
                                    if best is Some {
                                        assert(file_id(files@[bi], stem) == best->0.id@);
                                        lemma_lex_lt_total(text_rank(best->0.id@), text_rank(p.id@));
                                        <String as TallyKey>::lemma_rank_key_injective(best->0.id@, p.id@);
                                    }
                                }
                                if better {
                                    proof {
                                        if best is Some {
                                            let ob = bi;
                                            assert forall|j: int| 0 <= j < i + 1 && #[trigger] full_of_day(files@[j], stem, today)
                                                implies !lex_lt(text_rank(p.id@), text_rank(file_id(files@[j], stem))) by {
                                                if j < i {
                                                    lemma_lex_lt_asymmetric(text_rank(file_id(files@[ob], stem)), text_rank(p.id@));
                                                    if lex_lt(text_rank(p.id@), text_rank(file_id(files@[j], stem))) {
                                                        lemma_lex_lt_transitive(text_rank(file_id(files@[ob], stem)), text_rank(p.id@), text_rank(file_id(files@[j], stem)));
                                                    }
                                                } else {
                                                    lemma_lex_lt_irreflexive(text_rank(p.id@));
                                                }
                                            }
                                            assert forall|j: int| 0 <= j < i && #[trigger] full_of_day(files@[j], stem, today)
                                                implies lex_lt(text_rank(file_id(files@[j], stem)), text_rank(p.id@)) by {
                                                lemma_lex_lt_total(text_rank(file_id(files@[j], stem)), text_rank(file_id(files@[ob], stem)));
                                                if lex_lt(text_rank(file_id(files@[j], stem)), text_rank(file_id(files@[ob], stem))) {
                                                    lemma_lex_lt_transitive(text_rank(file_id(files@[j], stem)), text_rank(file_id(files@[ob], stem)), text_rank(p.id@));
                                                }
                                            }
                                        } else {
                                            lemma_lex_lt_irreflexive(text_rank(p.id@));
                                        }
                                        bi = i as int;
                                    }
                                    best = Some(BackupInfo {
                                        id: p.id,
                                        name: f.name.clone(),
                                        path: f.path.clone(),
                                        created_at: f.modified_ms,
                                        scope: BackupScope::Auto,
                                        kind: BackupKind::Full,
                                        label: None,
                                        label_source: LabelSource::Filename,
                                        note: None,
                                    });
                                }
                            }
                        } else {
                            proof {
                                if !pb.1 {
                                    assert(pb.0.len() == 18);
                                }
                            }
                        }
                    },
                    None => {},
                }
            }
            i = i + 1;
        }
        best
    }
}

/// The scope of a backup directory by its name (`tmp` when unknown).
pub open spec fn scope_of_dir(dir: Option<Seq<char>>) -> BackupScope {
    match dir {
        Some(d) => if d == "auto"@ {
            BackupScope::Auto
        } else if d == "manual"@ {
            BackupScope::Manual
        } else {
            BackupScope::Tmp
        },
        None => BackupScope::Tmp,
    }
}

/// The scope of a backup directory by its name (`tmp` when unknown).
pub fn scope_of_dir_name(dir: Option<&str>) -> (r: BackupScope)
    ensures
        r == scope_of_dir(match dir { Some(d) => Some(d@), None => None }),
{
    match dir {
        Some(d) => if str_eq(d, "auto") {
            BackupScope::Auto
        } else if str_eq(d, "manual") {
            BackupScope::Manual
        } else {
            BackupScope::Tmp
        },
        None => BackupScope::Tmp,
    }
}

/// The backup that a file named directly stands for (a pre-stash copy, or
/// the file of a path selector): always a full backup without label or
/// note; its id is the timestamp of its name, else the whole name.
pub open spec fn path_info(name: Seq<char>, path: Seq<char>, stem: Seq<u8>, scope: BackupScope, modified: u64) -> BackupInfoView {
    BackupInfoView {
        id: match parse_name(encode_utf8(name), stem) {
            Some((idb, _, _)) => decode_utf8(idb),
            None => name,
        },
        name,
        path,
        created_at: modified,
        scope,
        diff_base: None,
        label: None,
        label_source: LabelSource::Filename,
        note: None,
    }
}

/// What the file system tells of a path given to a path selector.
pub struct PathFacts {
    /// The path as given (for messages).
    pub shown: String,
    /// The canonical path; `None` when the path does not exist.
    pub canonical: Option<String>,
    /// File name of the canonical path.
    pub name: String,
    /// Extension of the canonical path.
    pub extension: Option<String>,
    /// Name of the directory holding the file.
    pub parent_name: Option<String>,
    /// The backup directory as configured (for messages).
    pub backup_dir_shown: String,
    /// The canonical backup directory; `None` when it cannot be reached.
    pub backup_dir_canonical: Option<String>,
    /// Whether the canonical path lies under the canonical backup directory.
    pub under_backup_dir: bool,
    /// Modification time of the file (ms since the Unix epoch; 0 when unknown).
    pub modified_ms: u64,
}

/// Why a path cannot name a backup.
#[derive(Debug, Clone, Copy, PartialEq, Eq, Structural)]
pub enum PathProblem {
    /// The path does not exist.
    Missing,
    /// The file is not acceptable as a backup.
    Refused,
}

/// Why a path cannot name a backup, with the message; `None` when it can:
/// it must exist, be a `.db` file, and lie under the backup directory,
/// which must be reachable.
pub open spec fn path_problem(f: PathFacts) -> Option<(PathProblem, Seq<char>)> {
    if f.canonical is None {
        Some((PathProblem::Missing, "backup path not found: "@ + f.shown@))
    } else if !(f.extension matches Some(e) && e@ == "db"@) {
        Some((PathProblem::Refused, "ByPath selector requires a .db file: "@ + f.shown@))
    } else if f.backup_dir_canonical is None {
        Some((PathProblem::Refused, "backup_dir not accessible: "@ + f.backup_dir_shown@))
    } else if !f.under_backup_dir {
        Some((PathProblem::Refused,
            "ByPath selector path must be under backup_dir "@ + f.backup_dir_canonical.unwrap()@ + ": "@ + f.shown@))
    } else {
        None
    }
}

fn message2(a: &str, b: &str) -> (r: String)
    ensures
        r@ == a@ + b@,
{
    let mut m = String::new();
    push_str(&mut m, a);
    push_str(&mut m, b);
    m
}

impl BackupManager {
    /// The backup at a path (see `path_problem`); a missing path is
    /// `NotFound`, an unacceptable one a validation error.
    pub fn backup_info_from_path(&self, facts: &PathFacts) -> (r: Result<BackupInfo, KijukuError>)
        ensures
            match r {
                Ok(b) => path_problem(*facts) is None && b@ == path_info(facts.name@, facts.canonical.unwrap()@,
                    encode_utf8(self.db_stem@), scope_of_dir(opt_str_view(facts.parent_name)), facts.modified_ms),
                Err(KijukuError::NotFound(m)) => path_problem(*facts) == Some((PathProblem::Missing, m@)),
                Err(KijukuError::Validation(m)) => path_problem(*facts) == Some((PathProblem::Refused, m@)),
                _ => false,
            },
    {
        let canonical = match &facts.canonical {
            Some(c) => c,
            None => return Err(KijukuError::NotFound(message2("backup path not found: ", facts.shown.as_str()))),
        };
        let is_db = match &facts.extension {
            Some(e) => str_eq(e.as_str(), "db"),
            None => false,
        };
        if !is_db {
            return Err(KijukuError::Validation(message2("ByPath selector requires a .db file: ", facts.shown.as_str())));
        }
        let dir = match &facts.backup_dir_canonical {
            Some(d) => d,
            None => return Err(KijukuError::Validation(message2("backup_dir not accessible: ", facts.backup_dir_shown.as_str()))),
        };
        if !facts.under_backup_dir {
            let mut m = message2("ByPath selector path must be under backup_dir ", dir.as_str());
            push_str(&mut m, ": ");
            push_str(&mut m, facts.shown.as_str());
            return Err(KijukuError::Validation(m));
        }
        let scope = match &facts.parent_name {
            Some(d) => scope_of_dir_name(Some(d.as_str())),
            None => scope_of_dir_name(None),
        };
        Ok(self.info_at(&facts.name, canonical, scope, facts.modified_ms))
    }

    /// The backup that the file `name` at `path` stands for (see `path_info`).
    fn info_at(&self, name: &String, path: &String, scope: BackupScope, modified_ms: u64) -> (r: BackupInfo)
        ensures
            r@ == path_info(name@, path@, encode_utf8(self.db_stem@), scope, modified_ms),
    {
        let id = match parse_backup_filename(name.as_str(), self.db_stem.as_str()) {
            Some(p) => {
                proof {
                    vstd::utf8::encode_utf8_decode_utf8(p.id@);
                }
                p.id
            },
            None => name.clone(),
        };
        BackupInfo {
            id,
            name: name.clone(),
            path: path.clone(),
            created_at: modified_ms,
            scope,
            kind: BackupKind::Full,
            label: None,
            label_source: LabelSource::Filename,
            note: None,
        }
    }

    /// The copies of `tmp/` taken before a migration, restore or promote
    /// (`files` are the files found in the backup directories), newest
    /// first.
    pub fn list_pre_stashes(&self, files: &[BackupFileEntry]) -> (r: Vec<BackupInfo>)
        ensures
            info_views(r@) == sorted_by_id_desc(stash_infos(files@, encode_utf8(self.db_stem@))),
    {
        let ghost stem = encode_utf8(self.db_stem@);
        let mut out: Vec<BackupInfo> = Vec::new();
        let mut i: usize = 0;
        while i < files.len()
            invariant
                stem == encode_utf8(self.db_stem@),
                i <= files@.len(),
                info_views(out@) == stash_infos(files@.take(i as int), stem),
            decreases files@.len() - i,
        {
            let f = &files[i];
            let ghost t = files@.take(i + 1);
            proof {
                assert(t.drop_last() =~= files@.take(i as int));
                assert(t.last() == files@[i as int]);
            }
            if f.scope == BackupScope::Tmp && is_pre_stash_name(f.name.as_str()) {
                let b = self.info_at(&f.name, &f.path, BackupScope::Tmp, f.modified_ms);
                let ghost before = out@;
                let ghost bv = b@;
                out.push(b);
                assert(info_views(out@) =~= info_views(before).push(bv));
            }
            i = i + 1;
        }
        assert(files@.take(files@.len() as int) =~= files@);
        sort_infos(out)
    }
}

/// The pre-stash copies among `files`, in file order.
pub open spec fn stash_infos(files: Seq<BackupFileEntry>, stem: Seq<u8>) -> Seq<BackupInfoView>
    decreases files.len(),
{
    if files.len() == 0 {
        Seq::empty()
    } else {
        let prev = stash_infos(files.drop_last(), stem);
        let f = files.last();
        if f.scope == BackupScope::Tmp && pre_stash_bytes(encode_utf8(f.name@)) {
            prev.push(path_info(f.name@, f.path@, stem, BackupScope::Tmp, f.modified_ms))
        } else {
            prev
        }
    }
}

/// The occasion of a copy taken before a change of the database.
#[derive(Debug, Clone, Copy, PartialEq, Eq, Structural)]
pub enum StashKind {
    Migrate,
    Restore,
    Promote,
}

/// The ending of the name of a copy taken before a change.
pub open spec fn stash_suffix(k: StashKind) -> Seq<char> {
    match k {
        StashKind::Migrate => "-pre_migrate.db"@,
        StashKind::Restore => "-pre_restore.db"@,
        StashKind::Promote => "-pre_promote.db"@,
    }
}

/// The file name (in `tmp/`) of the copy taken at `timestamp` before a
/// migration, restore or promote.
pub fn pre_stash_name(stem: &str, timestamp: &str, kind: StashKind) -> (r: String)
    ensures
        r@ == stem@ + "."@ + timestamp@ + stash_suffix(kind),
{
    let mut r = String::new();
    push_str(&mut r, stem);
    push_str(&mut r, ".");
    push_str(&mut r, timestamp);
    push_str(&mut r, match kind {
        StashKind::Migrate => "-pre_migrate.db",
        StashKind::Restore => "-pre_restore.db",
        StashKind::Promote => "-pre_promote.db",
    });
    r
}

/// Where a restore reads the database from.
pub enum RestoreSource {
    /// A full backup, copied as it is.
    Full { path: String },
    /// A differential backup, applied to its full base.
    Diff { base_path: String, diff_path: String },
}

impl BackupManager {
    /// What restoring the backup `chosen` reads: the backup itself when it
    /// is full; for a differential one, its base (the full automatic backup
    /// with the base id among `files`) and the difference. No backup chosen,
    /// or a base that cannot be found, is an error.
    pub fn restore_source(&self, chosen: Option<BackupInfo>, files: &[BackupFileEntry]) -> (r: Result<RestoreSource, KijukuError>)
        ensures
            chosen is None ==> r is Err && other_text(r->Err_0) == Some("No backup found matching selector"@),
            chosen matches Some(c) ==> match c.kind {
                BackupKind::Full => r matches Ok(RestoreSource::Full { path }) && path@ == c.path@,
                BackupKind::Diff { base_id } => {
                    if exists|i: int| 0 <= i < files@.len()
                        && #[trigger] full_with_id(files@[i], encode_utf8(self.db_stem@), base_id@, BackupScope::Auto) {
                        r matches Ok(RestoreSource::Diff { base_path, diff_path }) && diff_path@ == c.path@
                            && exists|i: int| 0 <= i < files@.len()
                                && #[trigger] full_with_id(files@[i], encode_utf8(self.db_stem@), base_id@, BackupScope::Auto)
                                && (forall|j: int| 0 <= j < i
                                    ==> !full_with_id(#[trigger] files@[j], encode_utf8(self.db_stem@), base_id@, BackupScope::Auto))
                                && base_path@ == files@[i].path@
                    } else {
                        r is Err && other_text(r->Err_0) == Some("Base backup "@ + base_id@ + " not found"@)
                    }
                },
            },
    {
        let c = match chosen {
            Some(c) => c,
            None => return Err(KijukuError::Other("No backup found matching selector".to_string())),
        };
        match c.kind {
            BackupKind::Full => Ok(RestoreSource::Full { path: c.path }),
            BackupKind::Diff { base_id } => match self.find_backup_by_id_in_scope(files, base_id.as_str(), BackupScope::Auto) {
                Some(b) => Ok(RestoreSource::Diff { base_path: b.path, diff_path: c.path }),
                None => {
                    let mut m = message2("Base backup ", base_id.as_str());
                    push_str(&mut m, " not found");
                    Err(KijukuError::Other(m))
                },
            },
        }
    }
}

/// A copy named by `pre_stash_name` is never listed among the backups
/// (whatever the side file holds), and, found in `tmp/`, is listed among
/// the pre-stashes.
pub proof fn law_pre_stash_hidden_and_found(f: BackupFileEntry, stem: Seq<char>, timestamp: Seq<char>, kind: StashKind,
    meta: Map<Seq<char>, BackupMetaView>)
    requires
        f.name@ == stem + "."@ + timestamp + stash_suffix(kind),
    ensures
        entry_info(f, encode_utf8(stem), meta) is None,
        f.scope == BackupScope::Tmp ==> stash_infos(seq![f], encode_utf8(stem))
            == seq![path_info(f.name@, f.path@, encode_utf8(stem), BackupScope::Tmp, f.modified_ms)],
{
    let head = stem + "."@ + timestamp;
    let suffix = stash_suffix(kind);
    lemma_encode_concat(head, suffix);
    let nb = encode_utf8(f.name@);
    assert(nb.skip(nb.len() - encode_utf8(suffix).len()) =~= encode_utf8(suffix));
    assert(has_suffix(nb, encode_utf8(suffix)));
    assert(pre_stash_bytes(nb));
    let one = seq![f];
    assert(one.drop_last() =~= Seq::<BackupFileEntry>::empty());
    assert(one.last() == f);
    assert(stash_infos(one.drop_last(), encode_utf8(stem)) == Seq::<BackupInfoView>::empty());
    if f.scope == BackupScope::Tmp {
        assert(stash_infos(one, encode_utf8(stem)) =~= Seq::<BackupInfoView>::empty().push(
            path_info(f.name@, f.path@, encode_utf8(stem), BackupScope::Tmp, f.modified_ms)));
    }
}

/// `t` holds, in order, the entries of `s` at positions `idx` (strictly
/// ascending), and those are the entries whose id is listed.
pub open spec fn kept_entries(s: Seq<BackupMetaEntry>, t: Seq<BackupMetaEntry>, idx: Seq<int>, n: int, listed: Seq<BackupInfo>) -> bool {
    &&& t.len() == idx.len()
    &&& forall|a: int| 0 <= a < idx.len() ==> 0 <= #[trigger] idx[a] < n
    &&& forall|a: int| 0 <= a < idx.len() ==> (#[trigger] t[a]).id@ == s[idx[a]].id@
        && meta_view(t[a]) == meta_view(s[idx[a]]) && listed_has(listed, s[idx[a]].id@)
    &&& forall|a: int, b: int| 0 <= a < b < idx.len() ==> #[trigger] idx[a] < #[trigger] idx[b]
    &&& forall|k: int| 0 <= k < n && listed_has(listed, (#[trigger] s[k]).id@) ==> exists|a: int| 0 <= a < idx.len() && idx[a] == k
}

proof fn lemma_kept_result(s: Seq<BackupMetaEntry>, t: Seq<BackupMetaEntry>, idx: Seq<int>, listed: Seq<BackupInfo>)
    requires
        kept_entries(s, t, idx, s.len() as int, listed),
        forall|a: int, b: int| 0 <= a < b < s.len() ==> lex_lt(text_rank(#[trigger] s[a].id@), text_rank(#[trigger] s[b].id@)),
    ensures
        forall|a: int, b: int| 0 <= a < b < t.len() ==> lex_lt(text_rank(#[trigger] t[a].id@), text_rank(#[trigger] t[b].id@)),
        meta_map(t) == meta_map(s).restrict(Set::new(|id: Seq<char>| listed_has(listed, id))),
{
    assert forall|a: int, b: int| 0 <= a < b < t.len() implies lex_lt(text_rank(#[trigger] t[a].id@), text_rank(#[trigger] t[b].id@)) by {
        assert(idx[a] < idx[b]);
        assert(t[a].id@ == s[idx[a]].id@);
        assert(t[b].id@ == s[idx[b]].id@);
    }
    let keep = Set::new(|id: Seq<char>| listed_has(listed, id));
    let m = meta_map(s);
    assert forall|id: Seq<char>| #[trigger] meta_map(t).dom().contains(id) == m.restrict(keep).dom().contains(id) by {
        if meta_has(t, id) {
            let a = choose|a: int| 0 <= a < t.len() && #[trigger] t[a].id@ == id;
            assert(t[a].id@ == s[idx[a]].id@);
            assert(meta_has(s, id));
        }
        if meta_has(s, id) && listed_has(listed, id) {
            let k = choose|k: int| 0 <= k < s.len() && #[trigger] s[k].id@ == id;
            assert(listed_has(listed, s[k].id@));
            let a = choose|a: int| 0 <= a < idx.len() && idx[a] == k;
            assert(t[a].id@ == s[idx[a]].id@);
            assert(meta_has(t, id));
        }
    }
    assert forall|id: Seq<char>| #[trigger] meta_map(t).dom().contains(id) implies meta_map(t)[id] == m[id] by {
        let a = choose|a: int| 0 <= a < t.len() && #[trigger] t[a].id@ == id;
        lemma_meta_map_of_wf_seq(t, a);
        assert(t[a].id@ == s[idx[a]].id@);
        lemma_meta_map_of_wf_seq(s, idx[a]);
    }
    assert(meta_map(t) =~= m.restrict(keep));
}

proof fn lemma_kept_step(s: Seq<BackupMetaEntry>, t: Seq<BackupMetaEntry>, idx: Seq<int>, n: int, listed: Seq<BackupInfo>,
    e: BackupMetaEntry, keep: bool)
    requires
        kept_entries(s, t, idx, n, listed),
        0 <= n < s.len(),
        keep == listed_has(listed, s[n].id@),
        keep ==> e.id@ == s[n].id@ && meta_view(e) == meta_view(s[n]),
    ensures
        keep ==> kept_entries(s, t.push(e), idx.push(n), n + 1, listed),
        !keep ==> kept_entries(s, t, idx, n + 1, listed),
{
    if keep {
        let t2 = t.push(e);
        let i2 = idx.push(n);
        assert forall|a: int| 0 <= a < i2.len() implies (#[trigger] t2[a]).id@ == s[i2[a]].id@
            && meta_view(t2[a]) == meta_view(s[i2[a]]) && listed_has(listed, s[i2[a]].id@) by {
            if a < idx.len() {
                assert(t2[a] == t[a] && i2[a] == idx[a]);
            }
        }
        assert forall|k: int| 0 <= k < n + 1 && listed_has(listed, (#[trigger] s[k]).id@) implies exists|a: int| 0 <= a < i2.len() && i2[a] == k by {
            if k < n {
                let a = choose|a: int| 0 <= a < idx.len() && idx[a] == k;
                assert(i2[a] == k);
            } else {
                assert(i2[idx.len() as int] == k);
            }
        }
        assert forall|a: int| 0 <= a < i2.len() implies 0 <= #[trigger] i2[a] < n + 1 by {
            if a < idx.len() { assert(i2[a] == idx[a]); }
        }
        assert forall|a: int, b: int| 0 <= a < b < i2.len() implies #[trigger] i2[a] < #[trigger] i2[b] by {
            if b < idx.len() { assert(i2[a] == idx[a] && i2[b] == idx[b]); } else { assert(i2[a] == idx[a]); }
        }
    } else {
        assert forall|k: int| 0 <= k < n + 1 && listed_has(listed, (#[trigger] s[k]).id@) implies exists|a: int| 0 <= a < idx.len() && idx[a] == k by {
        }
    }
}

impl BackupMetaStore {
    /// Drops the entries of backups that are not among `listed`; whether
    /// any entry was dropped.
    pub fn retain_listed(&mut self, listed: &[BackupInfo]) -> (changed: bool)
        requires
            old(self).wf(),
        ensures
            final(self).wf(),
            meta_map(final(self).entries@) == meta_map(old(self).entries@).restrict(
                Set::new(|id: Seq<char>| listed_has(listed@, id))),
            changed == (final(self).entries@.len() != old(self).entries@.len()),
    {
        let ghost s = self.entries@;
        let ghost mut idx: Seq<int> = Seq::empty();
        let mut out: Vec<BackupMetaEntry> = Vec::new();
        let mut i: usize = 0;
        while i < self.entries.len()
            invariant
                self.entries@ == s,
                i <= s.len(),
                kept_entries(s, out@, idx, i as int, listed@),
            decreases s.len() - i,
        {
            let e = &self.entries[i];
            let keep = listed_contains(listed, e.id.as_str());
            let copy = BackupMetaEntry {
                id: e.id.clone(),
                label: clone_opt_str(&e.label),
                note: clone_opt_str(&e.note),
                updated_at: e.updated_at.clone(),
            };
            proof {
                lemma_kept_step(s, out@, idx, i as int, listed@, copy, keep);
            }
            if keep {
                out.push(copy);
                proof {
                    idx = idx.push(i as int);
                }
            }
            i = i + 1;
        }
        proof {
            lemma_kept_result(s, out@, idx, listed@);
        }
        let changed = out.len() != self.entries.len();
        self.entries = out;
        changed
    }
}

/// Backup `b`, if it has id `id`, shows label `l` from the side file.
pub open spec fn shows_side_label(b: BackupInfoView, id: Seq<char>, l: Seq<char>) -> bool {
    b.id == id ==> b.label == Some(l) && b.label_source == LabelSource::Sidecar
}

proof fn lemma_insert_pos_bounds(s: Seq<BackupInfoView>, x: BackupInfoView)
    ensures
        0 <= insert_pos(s, x) <= s.len(),
    decreases s.len(),
{
    if s.len() > 0 && !lex_lt(text_rank(s[0].id), text_rank(x.id)) {
        lemma_insert_pos_bounds(s.drop_first(), x);
    }
}

proof fn lemma_sorted_keeps(s: Seq<BackupInfoView>, id: Seq<char>, l: Seq<char>)
    requires
        forall|j: int| 0 <= j < s.len() ==> shows_side_label(#[trigger] s[j], id, l),
    ensures
        forall|j: int| 0 <= j < sorted_by_id_desc(s).len() ==> shows_side_label(#[trigger] sorted_by_id_desc(s)[j], id, l),
        sorted_by_id_desc(s).len() == s.len(),
    decreases s.len(),
{
    if s.len() > 0 {
        let d = s.drop_last();
        assert forall|j: int| 0 <= j < d.len() implies shows_side_label(#[trigger] d[j], id, l) by {
            assert(d[j] == s[j]);
        }
        lemma_sorted_keeps(d, id, l);
        let t = sorted_by_id_desc(d);
        let x = s.last();
        lemma_insert_pos_bounds(t, x);
        let p = insert_pos(t, x);
        let r = t.insert(p, x);
        assert(shows_side_label(x, id, l));
        assert forall|j: int| 0 <= j < r.len() implies shows_side_label(#[trigger] r[j], id, l) by {
            if j < p {
                assert(r[j] == t[j]);
            } else if j == p {
                assert(r[j] == x);
            } else {
                assert(r[j] == t[j - 1]);
            }
        }
    }
}

proof fn lemma_infos_show_label(files: Seq<BackupFileEntry>, stem: Seq<u8>, m: Map<Seq<char>, BackupMetaView>,
    scope: Option<BackupScope>, id: Seq<char>, l: Seq<char>)
    requires
        m.contains_key(id),
        m[id].label == Some(l),
    ensures
        forall|j: int| 0 <= j < entry_infos(files, stem, m, scope).len()
            ==> shows_side_label(#[trigger] entry_infos(files, stem, m, scope)[j], id, l),
    decreases files.len(),
{
    if files.len() > 0 {
        lemma_infos_show_label(files.drop_last(), stem, m, scope, id, l);
        let prev = entry_infos(files.drop_last(), stem, m, scope);
        match entry_info(files.last(), stem, m) {
            Some(b) => {
                assert(shows_side_label(b, id, l));
                assert forall|j: int| 0 <= j < prev.push(b).len() implies shows_side_label(#[trigger] prev.push(b)[j], id, l) by {
                    if j < prev.len() {
                        assert(prev.push(b)[j] == prev[j]);
                    }
                }
            },
            None => {},
        }
    }
}

/// Once the label of backup `id` is set to `l` in the side file (as
/// `set_backup_label` sets it), every backup with that id in the listing
/// (`list_backups`, any scope) shows label `l`, taken from the side file:
/// a side-file label wins over the label in the file name.
pub proof fn law_side_label_shows_in_listing(
    files: Seq<BackupFileEntry>,
    stem: Seq<u8>,
    m: Map<Seq<char>, BackupMetaView>,
    id: Seq<char>,
    l: Seq<char>,
    note: Option<Option<Seq<char>>>,
    now: Seq<char>,
    scope: Option<BackupScope>,
)
    ensures
        ({
            let listing = sorted_by_id_desc(entry_infos(files, stem, meta_updated(m, id, Some(Some(l)), note, now), scope));
            forall|k: int| 0 <= k < listing.len() && (#[trigger] listing[k]).id == id
                ==> listing[k].label == Some(l) && listing[k].label_source == LabelSource::Sidecar
        }),
{
    let m2 = meta_updated(m, id, Some(Some(l)), note, now);
    assert(m2.contains_key(id) && m2[id].label == Some(l));
    lemma_infos_show_label(files, stem, m2, scope, id, l);
    lemma_sorted_keeps(entry_infos(files, stem, m2, scope), id, l);
    let listing = sorted_by_id_desc(entry_infos(files, stem, m2, scope));
    assert forall|k: int| 0 <= k < listing.len() && (#[trigger] listing[k]).id == id
        implies listing[k].label == Some(l) && listing[k].label_source == LabelSource::Sidecar by {
        assert(shows_side_label(listing[k], id, l));
    }
}

} // verus!
