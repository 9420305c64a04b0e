//! Summary of a diff between production and staging: counts per table,
//! totals over all tables, and how the changed rows spread over media
//! types, artists, existence flags, tags, attribute keys and file names.
use vstd::prelude::*;
use crate::diff::{DiffCounts, BackupDiff, BackupDiffSummary, MediaDiff, MediaTagAssocDiff, AttributeDiff, HashDiff};
use crate::table::{views, change_views, RowChange};
use crate::tally::{
    TallyKey, ChangeKind, tallied, top_ranked, entry_views, has_key, tally_keys, top_n, ascending,
};
use crate::types::{Media, MediaView, MediaType, MediaTagAssoc, MediaTagAssocView, MediaAttribute,
    MediaAttributeView, MediaHash, MediaHashView, media_type_text, str_eq};

verus! {

broadcast use vstd::std_specs::vec::group_vec_axioms;

/// How many keys the ranked distributions keep.
pub const DISTRIBUTION_TOP_N: usize = 10;

/// Counts per text key: one entry per key, in ascending byte order of the keys.
pub struct KeyedCounts {
    pub entries: Vec<(String, DiffCounts)>,
}

impl KeyedCounts {
    /// The counts of `key`, if it has an entry.
    pub fn get(&self, key: &str) -> (r: Option<DiffCounts>)
        ensures
            r is Some <==> has_key(entry_views(self.entries@), key@),
            r matches Some(c) ==> exists|i: int| 0 <= i < self.entries@.len()
                && #[trigger] self.entries@[i].0@ == key@ && self.entries@[i].1 == c,
    {
        let ghost ev = entry_views(self.entries@);
        let mut i: usize = 0;
        while i < self.entries.len()
            invariant
                ev == entry_views(self.entries@),
                i <= self.entries@.len(),
                forall|j: int| 0 <= j < i ==> #[trigger] ev[j].0 != key@,
            decreases self.entries@.len() - i,
        {
            assert(ev[i as int].0 == self.entries@[i as int].0@);
            if str_eq(self.entries[i].0.as_str(), key) {
                return Some(self.entries[i].1);
            }
            i = i + 1;
        }
        assert(!has_key(ev, key@)) by {
            if has_key(ev, key@) {
                let j = choose|j: int| 0 <= j < ev.len() && #[trigger] ev[j].0 == key@;
            }
        }
        None
    }
}

/// Numbers of rows over all tables.
#[derive(Debug, Clone, Copy, PartialEq, Eq, Structural)]
pub struct DiffTotals {
    pub added: usize,
    pub removed: usize,
    pub changed: usize,
}

/// How the changed media items spread.
pub struct MediaDistribution {
    /// Per media type (`comic`, `video`, `music`).
    pub by_type: KeyedCounts,
    /// The artists with the most changed items (`unknown` for none).
    pub by_artist_top: Vec<(String, DiffCounts)>,
    /// Per existence flag (`true`, `false`).
    pub by_flag_exist: KeyedCounts,
}

/// How the changed media–tag links spread.
pub struct MediaTagAssocDistribution {
    /// The tags with the most changed links.
    pub by_tag_top: Vec<(i64, DiffCounts)>,
}

/// How the changed attributes spread.
pub struct AttributeDistribution {
    /// Per attribute key.
    pub by_key: KeyedCounts,
}

/// How the changed hashes spread.
pub struct HashDistribution {
    /// The file names with the most changed hashes.
    pub by_filename_top: Vec<(String, DiffCounts)>,
}

/// How the changed rows of each table spread.
pub struct DiffDistribution {
    pub media: MediaDistribution,
    pub media_tags: MediaTagAssocDistribution,
    pub attributes: AttributeDistribution,
    pub hashes: HashDistribution,
}

/// Summary of a production/staging diff.
pub struct ProdStgDiffSummary {
    /// Counts per table.
    pub counts: BackupDiffSummary,
    /// Counts over all tables.
    pub totals: DiffTotals,
    /// Spread of the changed rows.
    pub distribution: DiffDistribution,
}

/// The first parts of pairs.
pub open spec fn currents<V>(s: Seq<(V, V)>) -> Seq<V> {
    s.map_values(|p: (V, V)| p.0)
}

/// Media type names of media items.
pub open spec fn type_keys(s: Seq<MediaView>) -> Seq<Seq<char>> {
    s.map_values(|m: MediaView| media_type_text(m.media_type))
}

/// The artist of a media item, `unknown` when it has none.
pub open spec fn artist_key(m: MediaView) -> Seq<char> {
    match m.artist {
        Some(a) => a,
        None => "unknown"@,
    }
}

/// Artists of media items.
pub open spec fn artist_keys(s: Seq<MediaView>) -> Seq<Seq<char>> {
    s.map_values(|m: MediaView| artist_key(m))
}

/// Text of an existence flag.
pub open spec fn flag_text(b: bool) -> Seq<char> {
    if b { "true"@ } else { "false"@ }
}

/// Existence flags of media items.
pub open spec fn flag_keys(s: Seq<MediaView>) -> Seq<Seq<char>> {
    s.map_values(|m: MediaView| flag_text(m.flag_exist))
}

/// Tag ids of links.
pub open spec fn tag_keys(s: Seq<MediaTagAssocView>) -> Seq<i64> {
    s.map_values(|a: MediaTagAssocView| a.tag_id)
}

/// Keys of attributes.
pub open spec fn attribute_keys(s: Seq<MediaAttributeView>) -> Seq<Seq<char>> {
    s.map_values(|a: MediaAttributeView| a.key)
}

/// File names of hashes.
pub open spec fn filename_keys(s: Seq<MediaHashView>) -> Seq<Seq<char>> {
    s.map_values(|h: MediaHashView| h.filename)
}

/// `d` is the spread of the media rows of `m`; a changed item counts by its
/// current (production) row.
pub open spec fn media_spread(d: MediaDistribution, m: MediaDiff) -> bool {
    let a = views(m.added@);
    let r = views(m.removed@);
    let c = currents(change_views(m.changed@));
    &&& tallied::<String>(entry_views(d.by_type.entries@), type_keys(a), type_keys(r), type_keys(c))
    &&& top_ranked::<String>(entry_views(d.by_artist_top@), artist_keys(a), artist_keys(r), artist_keys(c), DISTRIBUTION_TOP_N as nat)
    &&& tallied::<String>(entry_views(d.by_flag_exist.entries@), flag_keys(a), flag_keys(r), flag_keys(c))
}

/// `d` is the spread of the links of `m`.
pub open spec fn link_spread(d: MediaTagAssocDistribution, m: MediaTagAssocDiff) -> bool {
    top_ranked::<i64>(entry_views(d.by_tag_top@), tag_keys(views(m.added@)), tag_keys(views(m.removed@)), Seq::empty(), DISTRIBUTION_TOP_N as nat)
}

/// `d` is the spread of the attributes of `m`.
pub open spec fn attribute_spread(d: AttributeDistribution, m: AttributeDiff) -> bool {
    tallied::<String>(entry_views(d.by_key.entries@), attribute_keys(views(m.added@)),
        attribute_keys(views(m.removed@)), attribute_keys(currents(change_views(m.changed@))))
}

/// `d` is the spread of the hashes of `m`.
pub open spec fn hash_spread(d: HashDistribution, m: HashDiff) -> bool {
    top_ranked::<String>(entry_views(d.by_filename_top@), filename_keys(views(m.added@)),
        filename_keys(views(m.removed@)), filename_keys(currents(change_views(m.changed@))), DISTRIBUTION_TOP_N as nat)
}

proof fn lemma_tallied_empty<K: TallyKey>(e: Seq<(K::V, DiffCounts)>)
    requires
        e.len() == 0,
    ensures
        tallied::<K>(e, Seq::empty(), Seq::empty(), Seq::empty()),
{
    assert forall|k: K::V| !has_key(e, k) by {}
}

/// Media type, artist and existence flag keys of media items.
fn media_keys(s: &Vec<Media>) -> (r: (Vec<String>, Vec<String>, Vec<String>))
    ensures
        views(r.0@) == type_keys(views(s@)),
        views(r.1@) == artist_keys(views(s@)),
        views(r.2@) == flag_keys(views(s@)),
{
    let mut t: Vec<String> = Vec::new();
    let mut a: Vec<String> = Vec::new();
    let mut f: Vec<String> = Vec::new();
    let mut i: usize = 0;
    while i < s.len()
        invariant
            i <= s@.len(),
            views(t@) == type_keys(views(s@)).take(i as int),
            views(a@) == artist_keys(views(s@)).take(i as int),
            views(f@) == flag_keys(views(s@)).take(i as int),
        decreases s@.len() - i,
    {
        let m = &s[i];
        push_media_keys(&mut t, &mut a, &mut f, m);
        proof {
            assert(views(s@)[i as int] == m@);
            assert(type_keys(views(s@)).take(i + 1) =~= type_keys(views(s@)).take(i as int).push(media_type_text(m@.media_type)));
            assert(artist_keys(views(s@)).take(i + 1) =~= artist_keys(views(s@)).take(i as int).push(artist_key(m@)));
            assert(flag_keys(views(s@)).take(i + 1) =~= flag_keys(views(s@)).take(i as int).push(flag_text(m@.flag_exist)));
        }
        i = i + 1;
    }
    proof {
        assert(type_keys(views(s@)).take(s@.len() as int) =~= type_keys(views(s@)));
        assert(artist_keys(views(s@)).take(s@.len() as int) =~= artist_keys(views(s@)));
        assert(flag_keys(views(s@)).take(s@.len() as int) =~= flag_keys(views(s@)));
    }
    (t, a, f)
}

/// Media type, artist and existence flag keys of the current rows of changes.
fn change_media_keys(s: &Vec<RowChange<Media>>) -> (r: (Vec<String>, Vec<String>, Vec<String>))
    ensures
        views(r.0@) == type_keys(currents(change_views(s@))),
        views(r.1@) == artist_keys(currents(change_views(s@))),
        views(r.2@) == flag_keys(currents(change_views(s@))),
{
    let ghost cs = currents(change_views(s@));
    let mut t: Vec<String> = Vec::new();
    let mut a: Vec<String> = Vec::new();
    let mut f: Vec<String> = Vec::new();
    let mut i: usize = 0;
    while i < s.len()
        invariant
            cs == currents(change_views(s@)),
            i <= s@.len(),
            views(t@) == type_keys(cs).take(i as int),
            views(a@) == artist_keys(cs).take(i as int),
            views(f@) == flag_keys(cs).take(i as int),
        decreases s@.len() - i,
    {
        let m = &s[i].current;
        push_media_keys(&mut t, &mut a, &mut f, m);
        proof {
            assert(cs[i as int] == m@);
            assert(type_keys(cs).take(i + 1) =~= type_keys(cs).take(i as int).push(media_type_text(m@.media_type)));
            assert(artist_keys(cs).take(i + 1) =~= artist_keys(cs).take(i as int).push(artist_key(m@)));
            assert(flag_keys(cs).take(i + 1) =~= flag_keys(cs).take(i as int).push(flag_text(m@.flag_exist)));
        }
        i = i + 1;
    }
    proof {
        assert(type_keys(cs).take(s@.len() as int) =~= type_keys(cs));
        assert(artist_keys(cs).take(s@.len() as int) =~= artist_keys(cs));
        assert(flag_keys(cs).take(s@.len() as int) =~= flag_keys(cs));
    }
    (t, a, f)
}

fn push_media_keys(t: &mut Vec<String>, a: &mut Vec<String>, f: &mut Vec<String>, m: &Media)
    ensures
        views(final(t)@) == views(old(t)@).push(media_type_text(m@.media_type)),
        views(final(a)@) == views(old(a)@).push(artist_key(m@)),
        views(final(f)@) == views(old(f)@).push(flag_text(m@.flag_exist)),
{
    proof {
        reveal_strlit("unknown");
        reveal_strlit("true");
        reveal_strlit("false");
    }
    let ghost t0 = t@;
    let ghost a0 = a@;
    let ghost f0 = f@;
    t.push(m.media_type.as_str().to_owned());
    let artist = match &m.artist {
        Some(x) => x.clone(),
        None => "unknown".to_owned(),
    };
    a.push(artist);
    let flag = if m.flag_exist { "true".to_owned() } else { "false".to_owned() };
    f.push(flag);
    assert(views(t@) =~= views(t0).push(media_type_text(m@.media_type)));
    assert(views(a@) =~= views(a0).push(artist_key(m@)));
    assert(views(f@) =~= views(f0).push(flag_text(m@.flag_exist)));
}

/// Tag ids of links.
fn link_tag_keys(s: &Vec<MediaTagAssoc>) -> (r: Vec<i64>)
    ensures
        views(r@) == tag_keys(views(s@)),
{
    let mut out: Vec<i64> = Vec::new();
    let mut i: usize = 0;
    while i < s.len()
        invariant
            i <= s@.len(),
            views(out@) == tag_keys(views(s@)).take(i as int),
        decreases s@.len() - i,
    {
        let ghost o = out@;
        out.push(s[i].tag_id);
        proof {
            assert(views(s@)[i as int] == s@[i as int]@);
            assert(views(out@) =~= views(o).push(s@[i as int].tag_id));
            assert(tag_keys(views(s@)).take(i + 1) =~= tag_keys(views(s@)).take(i as int).push(s@[i as int].tag_id));
        }
        i = i + 1;
    }
    assert(tag_keys(views(s@)).take(s@.len() as int) =~= tag_keys(views(s@)));
    out
}

/// Keys of attributes.
fn attr_keys(s: &Vec<MediaAttribute>) -> (r: Vec<String>)
    ensures
        views(r@) == attribute_keys(views(s@)),
{
    let mut out: Vec<String> = Vec::new();
    let mut i: usize = 0;
    while i < s.len()
        invariant
            i <= s@.len(),
            views(out@) == attribute_keys(views(s@)).take(i as int),
        decreases s@.len() - i,
    {
        let ghost o = out@;
        out.push(s[i].key.clone());
        proof {
            assert(views(s@)[i as int] == s@[i as int]@);
            assert(views(out@) =~= views(o).push(s@[i as int].key@));
            assert(attribute_keys(views(s@)).take(i + 1) =~= attribute_keys(views(s@)).take(i as int).push(s@[i as int].key@));
        }
        i = i + 1;
    }
    assert(attribute_keys(views(s@)).take(s@.len() as int) =~= attribute_keys(views(s@)));
    out
}

/// Keys of the current rows of attribute changes.
fn change_attr_keys(s: &Vec<RowChange<MediaAttribute>>) -> (r: Vec<String>)
    ensures
        views(r@) == attribute_keys(currents(change_views(s@))),
{
    let ghost cs = currents(change_views(s@));
    let mut out: Vec<String> = Vec::new();
    let mut i: usize = 0;
    while i < s.len()
        invariant
            cs == currents(change_views(s@)),
            i <= s@.len(),
            views(out@) == attribute_keys(cs).take(i as int),
        decreases s@.len() - i,
    {
        let ghost o = out@;
        out.push(s[i].current.key.clone());
        proof {
            assert(cs[i as int] == s@[i as int].current@);
            assert(views(out@) =~= views(o).push(s@[i as int].current.key@));
            assert(attribute_keys(cs).take(i + 1) =~= attribute_keys(cs).take(i as int).push(s@[i as int].current.key@));
        }
        i = i + 1;
    }
    assert(attribute_keys(cs).take(s@.len() as int) =~= attribute_keys(cs));
    out
}

/// File names of hashes.
fn hash_filename_keys(s: &Vec<MediaHash>) -> (r: Vec<String>)
    ensures
        views(r@) == filename_keys(views(s@)),
{
    let mut out: Vec<String> = Vec::new();
    let mut i: usize = 0;
    while i < s.len()
        invariant
            i <= s@.len(),
            views(out@) == filename_keys(views(s@)).take(i as int),
        decreases s@.len() - i,
    {
        let ghost o = out@;
        out.push(s[i].filename.clone());
        proof {
            assert(views(s@)[i as int] == s@[i as int]@);
            assert(views(out@) =~= views(o).push(s@[i as int].filename@));
            assert(filename_keys(views(s@)).take(i + 1) =~= filename_keys(views(s@)).take(i as int).push(s@[i as int].filename@));
        }
        i = i + 1;
    }
    assert(filename_keys(views(s@)).take(s@.len() as int) =~= filename_keys(views(s@)));
    out
}

/// File names of the current rows of hash changes.
fn change_filename_keys(s: &Vec<RowChange<MediaHash>>) -> (r: Vec<String>)
    ensures
        views(r@) == filename_keys(currents(change_views(s@))),
{
    let ghost cs = currents(change_views(s@));
    let mut out: Vec<String> = Vec::new();
    let mut i: usize = 0;
    while i < s.len()
        invariant
            cs == currents(change_views(s@)),
            i <= s@.len(),
            views(out@) == filename_keys(cs).take(i as int),
        decreases s@.len() - i,
    {
        let ghost o = out@;
        out.push(s[i].current.filename.clone());
        proof {
            assert(cs[i as int] == s@[i as int].current@);
            assert(views(out@) =~= views(o).push(s@[i as int].current.filename@));
            assert(filename_keys(cs).take(i + 1) =~= filename_keys(cs).take(i as int).push(s@[i as int].current.filename@));
        }
        i = i + 1;
    }
    assert(filename_keys(cs).take(s@.len() as int) =~= filename_keys(cs));
    out
}

/// Tally of three key lists (added, removed, changed).
fn tally3<K: TallyKey>(a: &Vec<K>, r: &Vec<K>, c: &Vec<K>) -> (e: Vec<(K, DiffCounts)>)
    ensures
        tallied::<K>(entry_views(e@), views(a@), views(r@), views(c@)),
{
    let mut e: Vec<(K, DiffCounts)> = Vec::new();
    let ghost z = Seq::<K::V>::empty();
    let _la = a.len();
    let _lr = r.len();
    let _lc = c.len();
    proof {
        lemma_tallied_empty::<K>(entry_views(e@));
    }
    tally_keys(&mut e, a, ChangeKind::Added, Ghost(z), Ghost(z), Ghost(z));
    assert(z + views(a@) =~= views(a@));
    tally_keys(&mut e, r, ChangeKind::Removed, Ghost(views(a@)), Ghost(z), Ghost(z));
    assert(z + views(r@) =~= views(r@));
    tally_keys(&mut e, c, ChangeKind::Changed, Ghost(views(a@)), Ghost(views(r@)), Ghost(z));
    assert(z + views(c@) =~= views(c@));
    e
}

/// Spread of the media rows of a diff.
fn summarize_media(media: &MediaDiff) -> (d: MediaDistribution)
    ensures
        media_spread(d, *media),
{
    let (ta, aa, fa) = media_keys(&media.added);
    let (tr, ar, fr) = media_keys(&media.removed);
    let (tc, ac, fc) = change_media_keys(&media.changed);
    let by_type = tally3(&ta, &tr, &tc);
    let by_artist = tally3(&aa, &ar, &ac);
    let by_flag_exist = tally3(&fa, &fr, &fc);
    let by_artist_top = top_n(&by_artist, DISTRIBUTION_TOP_N, Ghost(views(aa@)), Ghost(views(ar@)), Ghost(views(ac@)));
    MediaDistribution {
        by_type: KeyedCounts { entries: by_type },
        by_artist_top,
        by_flag_exist: KeyedCounts { entries: by_flag_exist },
    }
}

/// Spread of the links of a diff.
fn summarize_media_tags(media_tags: &MediaTagAssocDiff) -> (d: MediaTagAssocDistribution)
    ensures
        link_spread(d, *media_tags),
{
    let a = link_tag_keys(&media_tags.added);
    let r = link_tag_keys(&media_tags.removed);
    let c: Vec<i64> = Vec::new();
    let by_tag = tally3(&a, &r, &c);
    assert(views(c@) =~= Seq::<i64>::empty());
    MediaTagAssocDistribution {
        by_tag_top: top_n(&by_tag, DISTRIBUTION_TOP_N, Ghost(views(a@)), Ghost(views(r@)), Ghost(views(c@))),
    }
}

/// Spread of the attributes of a diff.
fn summarize_attributes(attributes: &AttributeDiff) -> (d: AttributeDistribution)
    ensures
        attribute_spread(d, *attributes),
{
    let a = attr_keys(&attributes.added);
    let r = attr_keys(&attributes.removed);
    let c = change_attr_keys(&attributes.changed);
    AttributeDistribution { by_key: KeyedCounts { entries: tally3(&a, &r, &c) } }
}

/// Spread of the hashes of a diff.
fn summarize_hashes(hashes: &HashDiff) -> (d: HashDistribution)
    ensures
        hash_spread(d, *hashes),
{
    let a = hash_filename_keys(&hashes.added);
    let r = hash_filename_keys(&hashes.removed);
    let c = change_filename_keys(&hashes.changed);
    let by_filename = tally3(&a, &r, &c);
    HashDistribution {
        by_filename_top: top_n(&by_filename, DISTRIBUTION_TOP_N, Ghost(views(a@)), Ghost(views(r@)), Ghost(views(c@))),
    }
}

/// Sum of one count over the five tables.
pub open spec fn sum5(s: BackupDiffSummary, f: spec_fn(DiffCounts) -> usize) -> int {
    f(s.media) + f(s.tags) + f(s.media_tags) + f(s.attributes) + f(s.hashes)
}

/// Summary of a diff: its counts, their totals over the tables, and the
/// spread of the rows of its lists (which cover every row only when the
/// diff was taken in full detail).
pub fn summarize_diff(diff: &BackupDiff) -> (r: ProdStgDiffSummary)
    requires
        sum5(diff.summary, |c: DiffCounts| c.added) <= usize::MAX,
        sum5(diff.summary, |c: DiffCounts| c.removed) <= usize::MAX,
        sum5(diff.summary, |c: DiffCounts| c.changed) <= usize::MAX,
    ensures
        r.counts == diff.summary,
        r.totals.added == sum5(diff.summary, |c: DiffCounts| c.added),
        r.totals.removed == sum5(diff.summary, |c: DiffCounts| c.removed),
        r.totals.changed == sum5(diff.summary, |c: DiffCounts| c.changed),
        media_spread(r.distribution.media, diff.media),
        link_spread(r.distribution.media_tags, diff.media_tags),
        attribute_spread(r.distribution.attributes, diff.attributes),
        hash_spread(r.distribution.hashes, diff.hashes),
{
    let c = diff.summary;
    let totals = DiffTotals {
        added: c.media.added + c.tags.added + c.media_tags.added + c.attributes.added + c.hashes.added,
        removed: c.media.removed + c.tags.removed + c.media_tags.removed + c.attributes.removed + c.hashes.removed,
        changed: c.media.changed + c.tags.changed + c.media_tags.changed + c.attributes.changed + c.hashes.changed,
    };
    let distribution = DiffDistribution {
        media: summarize_media(&diff.media),
        media_tags: summarize_media_tags(&diff.media_tags),
        attributes: summarize_attributes(&diff.attributes),
        hashes: summarize_hashes(&diff.hashes),
    };
    ProdStgDiffSummary { counts: c, totals, distribution }
}

} // verus!
