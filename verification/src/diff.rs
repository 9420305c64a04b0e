//! Difference between a backup and the current database.
//!
//! Meaning of the three kinds of rows:
//! - added:   in the backup, not in the current database (a restore brings them back)
//! - removed: in the current database, not in the backup (a restore loses them)
//! - changed: in both with different contents (a restore overwrites them)
use vstd::prelude::*;
use vstd::string::StringSliceAdditionalSpecFns;
use vstd::utf8::encode_utf8;
use crate::order::ints;
use crate::table::{law_table_self_diff_empty, 
    TableRow, TableDiff, RowChange, views, change_views, table_sorted, only_in, changed_pairs,
    diff_rows, table_upsert, key_in, row_with_key,
};
use crate::types::{
    Media, MediaView, Tag, TagView, MediaTagAssoc, MediaTagAssocView, MediaAttribute,
    MediaAttributeView, MediaHash, MediaHashView,
};

verus! {

broadcast use vstd::std_specs::vec::group_vec_axioms;

/// Key part of a text: its UTF-8 bytes, each plus one, then a zero.
/// Concatenations of such parts order like tuples of texts compared byte-wise.
pub open spec fn text_key(s: Seq<char>) -> Seq<int> {
    encode_utf8(s).map_values(|b: u8| b as int + 1).push(0)
}

/// Appends the key part of `s` to `k`.
fn push_text_key(k: &mut Vec<i64>, s: &str)
    ensures
        ints(final(k)@) == ints(old(k)@) + text_key(s@),
{
    let bytes = s.as_bytes();
    let ghost start = ints(k@);
    let ghost eb = encode_utf8(s@);
    let ghost mapped = eb.map_values(|b: u8| b as int + 1);
    let mut i: usize = 0;
    while i < bytes.len()
        invariant
            bytes@ == eb,
            eb == encode_utf8(s@),
            mapped == eb.map_values(|b: u8| b as int + 1),
            i <= bytes@.len(),
            ints(k@) == start + mapped.take(i as int),
        decreases bytes@.len() - i,
    {
        let b = bytes[i];
        let ghost prevk = k@;
        k.push(b as i64 + 1);
        proof {
            assert(ints(k@) =~= ints(prevk).push(b as int + 1));
            assert(mapped.take(i + 1) =~= mapped.take(i as int).push(b as int + 1));
            assert(ints(k@) =~= start + mapped.take(i + 1));
        }
        i = i + 1;
    }
    let ghost prevk = k@;
    k.push(0);
    assert(ints(k@) =~= ints(prevk).push(0));
    assert(mapped.take(bytes@.len() as int) =~= mapped);
    assert(ints(k@) =~= start + mapped.push(0));
}

impl TableRow for Media {
    open spec fn key_of(v: MediaView) -> Seq<int> {
        seq![v.id as int]
    }

    fn row_key(&self) -> (k: Vec<i64>) {
        let mut k: Vec<i64> = Vec::new();
        k.push(self.id);
        assert(ints(k@) =~= seq![self.id as int]);
        k
    }

    fn row_same(&self, other: &Self) -> (r: bool) {
        self.same_as(other)
    }

    fn row_copy(&self) -> (r: Self) {
        self.duplicate()
    }
}

impl TableRow for Tag {
    open spec fn key_of(v: TagView) -> Seq<int> {
        seq![v.id as int]
    }

    fn row_key(&self) -> (k: Vec<i64>) {
        let mut k: Vec<i64> = Vec::new();
        k.push(self.id);
        assert(ints(k@) =~= seq![self.id as int]);
        k
    }

    fn row_same(&self, other: &Self) -> (r: bool) {
        self.same_as(other)
    }

    fn row_copy(&self) -> (r: Self) {
        self.duplicate()
    }
}

impl TableRow for MediaTagAssoc {
    open spec fn key_of(v: MediaTagAssocView) -> Seq<int> {
        seq![v.media_id as int, v.tag_id as int]
    }

    fn row_key(&self) -> (k: Vec<i64>) {
        let mut k: Vec<i64> = Vec::new();
        k.push(self.media_id);
        k.push(self.tag_id);
        assert(ints(k@) =~= seq![self.media_id as int, self.tag_id as int]);
        k
    }

    fn row_same(&self, other: &Self) -> (r: bool) {
        self.same_as(other)
    }

    fn row_copy(&self) -> (r: Self) {
        self.duplicate()
    }
}

impl TableRow for MediaAttribute {
    open spec fn key_of(v: MediaAttributeView) -> Seq<int> {
        seq![v.media_id as int] + text_key(v.key)
    }

    fn row_key(&self) -> (k: Vec<i64>) {
        let mut k: Vec<i64> = Vec::new();
        k.push(self.media_id);
        assert(ints(k@) =~= seq![self.media_id as int]);
        push_text_key(&mut k, self.key.as_str());
        k
    }

    fn row_same(&self, other: &Self) -> (r: bool) {
        self.same_as(other)
    }

    fn row_copy(&self) -> (r: Self) {
        self.duplicate()
    }
}

impl TableRow for MediaHash {
    open spec fn key_of(v: MediaHashView) -> Seq<int> {
        text_key(v.item_uuid) + text_key(v.filename) + text_key(v.time_range)
    }

    fn row_key(&self) -> (k: Vec<i64>) {
        let mut k: Vec<i64> = Vec::new();
        assert(ints(k@) =~= Seq::<int>::empty());
        push_text_key(&mut k, self.item_uuid.as_str());
        push_text_key(&mut k, self.filename.as_str());
        push_text_key(&mut k, self.time_range.as_str());
        assert(ints(k@) =~= text_key(self.item_uuid@) + text_key(self.filename@) + text_key(self.time_range@));
        k
    }

    fn row_same(&self, other: &Self) -> (r: bool) {
        self.same_as(other)
    }

    fn row_copy(&self) -> (r: Self) {
        self.duplicate()
    }
}

/// How much of each row list a diff keeps.
#[derive(Debug, Clone, Copy, PartialEq, Eq, Structural)]
pub enum DiffDetail {
    /// Counts only (every list is empty).
    SummaryOnly,
    /// At most `n` rows per list.
    Limited { n: usize },
    /// Every row.
    Full,
}

impl Default for DiffDetail {
    fn default() -> (r: Self)
        ensures
            r == (DiffDetail::Limited { n: 100 }),
    {
        DiffDetail::Limited { n: 100 }
    }
}

/// Options of a diff.
#[derive(Debug, Clone, Copy, PartialEq, Eq, Structural)]
pub struct DiffOptions {
    /// Level of detail (`Limited { n: 100 }` when absent).
    pub detail: Option<DiffDetail>,
}

impl Default for DiffOptions {
    fn default() -> (r: Self)
        ensures
            r.detail is None,
    {
        DiffOptions { detail: None }
    }
}

/// Numbers of added, removed and changed rows.
#[derive(Debug, Clone, Copy, PartialEq, Eq, Structural)]
pub struct DiffCounts {
    pub added: usize,
    pub removed: usize,
    pub changed: usize,
}

impl Default for DiffCounts {
    fn default() -> (r: Self)
        ensures
            r.added == 0 && r.removed == 0 && r.changed == 0,
    {
        DiffCounts { added: 0, removed: 0, changed: 0 }
    }
}

impl DiffCounts {
    /// `added + removed + changed`.
    pub fn total(&self) -> (t: usize)
        requires
            self.added + self.removed + self.changed <= usize::MAX,
        ensures
            t == self.added + self.removed + self.changed,
    {
        self.added + self.removed + self.changed
    }
}

/// A changed media item.
pub type MediaChange = RowChange<Media>;
/// A changed tag.
pub type TagChange = RowChange<Tag>;
/// A changed attribute.
pub type AttributeChange = RowChange<MediaAttribute>;
/// A changed hash.
pub type HashChange = RowChange<MediaHash>;
/// Media rows of a diff.
pub type MediaDiff = TableDiff<Media>;
/// Tag rows of a diff.
pub type TagDiff = TableDiff<Tag>;
/// Attribute rows of a diff.
pub type AttributeDiff = TableDiff<MediaAttribute>;
/// Hash rows of a diff.
pub type HashDiff = TableDiff<MediaHash>;

/// Media–tag links of a diff (a link is present or not; it cannot change).
pub struct MediaTagAssocDiff {
    pub added: Vec<MediaTagAssoc>,
    pub removed: Vec<MediaTagAssoc>,
}

/// Counts of each table of a diff.
#[derive(Debug, Clone, Copy, PartialEq, Eq, Structural)]
pub struct BackupDiffSummary {
    pub media: DiffCounts,
    pub tags: DiffCounts,
    /// `changed` is always 0 for links.
    pub media_tags: DiffCounts,
    pub attributes: DiffCounts,
    pub hashes: DiffCounts,
}

/// Difference between a backup and the current database.
pub struct BackupDiff {
    pub media: MediaDiff,
    pub tags: TagDiff,
    pub media_tags: MediaTagAssocDiff,
    pub attributes: AttributeDiff,
    pub hashes: HashDiff,
    /// Counts before any list was shortened.
    pub summary: BackupDiffSummary,
}

/// The rows of the five tables of a database, each table sorted by its key
/// (media and tags by id, links by (media id, tag id), attributes by
/// (media id, key), hashes by (item uuid, filename, time range)).
pub struct BackupSnapshot {
    pub media: Vec<Media>,
    pub tags: Vec<Tag>,
    pub media_tags: Vec<MediaTagAssoc>,
    pub attributes: Vec<MediaAttribute>,
    pub hashes: Vec<MediaHash>,
}

impl BackupSnapshot {
    /// Every table is sorted strictly by key.
    pub open spec fn wf(&self) -> bool {
        &&& table_sorted::<Media>(views(self.media@))
        &&& table_sorted::<Tag>(views(self.tags@))
        &&& table_sorted::<MediaTagAssoc>(views(self.media_tags@))
        &&& table_sorted::<MediaAttribute>(views(self.attributes@))
        &&& table_sorted::<MediaHash>(views(self.hashes@))
    }

    /// A snapshot with no rows.
    pub fn new() -> (r: Self)
        ensures
            r.wf(),
            r.media@.len() == 0,
            r.tags@.len() == 0,
            r.media_tags@.len() == 0,
            r.attributes@.len() == 0,
            r.hashes@.len() == 0,
    {
        BackupSnapshot {
            media: Vec::new(),
            tags: Vec::new(),
            media_tags: Vec::new(),
            attributes: Vec::new(),
            hashes: Vec::new(),
        }
    }

    /// A snapshot holding the given media items keyed by id (of two items
    /// with one id the later one is kept) and no other rows.
    pub fn from_media(values: Vec<Media>) -> (r: Self)
        ensures
            r.wf(),
            forall|k: Seq<int>| #[trigger] key_in::<Media>(views(r.media@), k)
                <==> key_in::<Media>(views(values@), k),
            forall|i: int| 0 <= i < values@.len()
                && (forall|j: int| i < j < values@.len() ==> values@[j].id != values@[i].id)
                ==> #[trigger] row_with_key::<Media>(views(r.media@), seq![values@[i].id as int])
                    == values@[i]@,
            r.tags@.len() == 0,
            r.media_tags@.len() == 0,
            r.attributes@.len() == 0,
            r.hashes@.len() == 0,
    {
        let mut snap = BackupSnapshot::new();
        let ghost vals = views(values@);
        let mut n: usize = 0;
        assert(views(snap.media@) =~= Seq::<MediaView>::empty());
        while n < values.len()
            invariant
                snap.wf(),
                n <= values@.len(),
                vals == views(values@),
                snap.tags@.len() == 0,
                snap.media_tags@.len() == 0,
                snap.attributes@.len() == 0,
                snap.hashes@.len() == 0,
                forall|k: Seq<int>| #[trigger] key_in::<Media>(views(snap.media@), k)
                    <==> key_in::<Media>(vals.take(n as int), k),
                forall|i: int| 0 <= i < n
                    && (forall|j: int| i < j < n ==> vals[j].id != vals[i].id)
                    ==> #[trigger] row_with_key::<Media>(views(snap.media@), seq![vals[i].id as int])
                        == vals[i],
            decreases values@.len() - n,
        {
            let m = values[n].row_copy();
            let ghost done = vals.take(n as int);
            let ghost m_view = m@;
            assert(m_view == vals[n as int]);
            table_upsert(&mut snap.media, m);
            n = n + 1;
            proof {
                let now = vals.take(n as int);
                assert(now =~= done.push(m_view));
                assert forall|k: Seq<int>| #[trigger] key_in::<Media>(views(snap.media@), k)
                    <==> key_in::<Media>(now, k) by {
                    if key_in::<Media>(done, k) {
                        let w = choose|i: int| 0 <= i < done.len() && #[trigger] Media::key_of(done[i]) == k;
                        assert(Media::key_of(now[w]) == k);
                    }
                    if k == Media::key_of(m_view) {
                        assert(Media::key_of(now[now.len() - 1]) == k);
                    }
                    if key_in::<Media>(now, k) {
                        let w = choose|i: int| 0 <= i < now.len() && #[trigger] Media::key_of(now[i]) == k;
                        if w < done.len() {
                            assert(Media::key_of(done[w]) == k);
                        }
                    }
                }
                assert forall|i: int| 0 <= i < n
                    && (forall|j: int| i < j < n ==> vals[j].id != vals[i].id)
                    implies #[trigger] row_with_key::<Media>(views(snap.media@), seq![vals[i].id as int])
                        == vals[i] by {
                    let k = seq![vals[i].id as int];
                    assert(Media::key_of(vals[i]) == k);
                    assert(key_in::<Media>(now, k)) by {
                        assert(Media::key_of(now[i]) == k);
                    }
                    if i < n - 1 {
                        assert(vals[n - 1].id != vals[i].id);
                        if k == Media::key_of(m_view) {
                            assert(k[0] == Media::key_of(m_view)[0]);
                        }
                    }
                }
            }
        }
        assert(vals.take(vals.len() as int) =~= vals);
        assert forall|i: int| 0 <= i < values@.len()
            && (forall|j: int| i < j < values@.len() ==> values@[j].id != values@[i].id)
            implies #[trigger] row_with_key::<Media>(views(snap.media@), seq![values@[i].id as int])
                == values@[i]@ by {
            assert(vals[i] == values@[i]@);
            assert forall|j: int| i < j < values@.len() implies vals[j].id != vals[i].id by {
                assert(vals[j] == values@[j]@);
            }
            assert(row_with_key::<Media>(views(snap.media@), seq![vals[i].id as int]) == vals[i]);
        }
        snap
    }

    /// Inserts a media item (replacing the one with the same id).
    pub fn insert_media(&mut self, row: Media)
        requires
            old(self).wf(),
        ensures
            final(self).wf(),
            forall|k: Seq<int>| #[trigger] key_in::<Media>(views(final(self).media@), k)
                <==> (key_in::<Media>(views(old(self).media@), k) || k == seq![row.id as int]),
            forall|k: Seq<int>| key_in::<Media>(views(final(self).media@), k) ==>
                #[trigger] row_with_key::<Media>(views(final(self).media@), k)
                    == (if k == seq![row.id as int] { row@ } else { row_with_key::<Media>(views(old(self).media@), k) }),
            final(self).tags@ == old(self).tags@,
            final(self).media_tags@ == old(self).media_tags@,
            final(self).attributes@ == old(self).attributes@,
            final(self).hashes@ == old(self).hashes@,
    {
        table_upsert(&mut self.media, row);
    }

    /// Inserts a tag (replacing the one with the same id).
    pub fn insert_tag(&mut self, row: Tag)
        requires
            old(self).wf(),
        ensures
            final(self).wf(),
            forall|k: Seq<int>| #[trigger] key_in::<Tag>(views(final(self).tags@), k)
                <==> (key_in::<Tag>(views(old(self).tags@), k) || k == seq![row.id as int]),
            forall|k: Seq<int>| key_in::<Tag>(views(final(self).tags@), k) ==>
                #[trigger] row_with_key::<Tag>(views(final(self).tags@), k)
                    == (if k == seq![row.id as int] { row@ } else { row_with_key::<Tag>(views(old(self).tags@), k) }),
            final(self).media@ == old(self).media@,
            final(self).media_tags@ == old(self).media_tags@,
            final(self).attributes@ == old(self).attributes@,
            final(self).hashes@ == old(self).hashes@,
    {
        table_upsert(&mut self.tags, row);
    }

    /// Inserts a media–tag link (a link already present stays once).
    pub fn insert_media_tag(&mut self, media_id: i64, tag_id: i64)
        requires
            old(self).wf(),
        ensures
            final(self).wf(),
            forall|k: Seq<int>| #[trigger] key_in::<MediaTagAssoc>(views(final(self).media_tags@), k)
                <==> (key_in::<MediaTagAssoc>(views(old(self).media_tags@), k)
                    || k == seq![media_id as int, tag_id as int]),
            final(self).media@ == old(self).media@,
            final(self).tags@ == old(self).tags@,
            final(self).attributes@ == old(self).attributes@,
            final(self).hashes@ == old(self).hashes@,
    {
        table_upsert(&mut self.media_tags, MediaTagAssoc { media_id, tag_id });
    }

    /// Inserts an attribute (replacing the one with the same media id and key).
    pub fn insert_attribute(&mut self, row: MediaAttribute)
        requires
            old(self).wf(),
        ensures
            final(self).wf(),
            forall|k: Seq<int>| #[trigger] key_in::<MediaAttribute>(views(final(self).attributes@), k)
                <==> (key_in::<MediaAttribute>(views(old(self).attributes@), k)
                    || k == MediaAttribute::key_of(row@)),
            forall|k: Seq<int>| key_in::<MediaAttribute>(views(final(self).attributes@), k) ==>
                #[trigger] row_with_key::<MediaAttribute>(views(final(self).attributes@), k)
                    == (if k == MediaAttribute::key_of(row@) { row@ } else { row_with_key::<MediaAttribute>(views(old(self).attributes@), k) }),
            final(self).media@ == old(self).media@,
            final(self).tags@ == old(self).tags@,
            final(self).media_tags@ == old(self).media_tags@,
            final(self).hashes@ == old(self).hashes@,
    {
        table_upsert(&mut self.attributes, row);
    }

    /// Inserts a hash (replacing the one with the same item uuid, filename and time range).
    pub fn insert_hash(&mut self, row: MediaHash)
        requires
            old(self).wf(),
        ensures
            final(self).wf(),
            forall|k: Seq<int>| #[trigger] key_in::<MediaHash>(views(final(self).hashes@), k)
                <==> (key_in::<MediaHash>(views(old(self).hashes@), k)
                    || k == MediaHash::key_of(row@)),
            forall|k: Seq<int>| key_in::<MediaHash>(views(final(self).hashes@), k) ==>
                #[trigger] row_with_key::<MediaHash>(views(final(self).hashes@), k)
                    == (if k == MediaHash::key_of(row@) { row@ } else { row_with_key::<MediaHash>(views(old(self).hashes@), k) }),
            final(self).media@ == old(self).media@,
            final(self).tags@ == old(self).tags@,
            final(self).media_tags@ == old(self).media_tags@,
            final(self).attributes@ == old(self).attributes@,
    {
        table_upsert(&mut self.hashes, row);
    }
}

/// The part of a row list that a level of detail keeps.
pub open spec fn cut<A>(s: Seq<A>, d: DiffDetail) -> Seq<A> {
    match d {
        DiffDetail::SummaryOnly => Seq::empty(),
        DiffDetail::Limited { n } => if s.len() > n { s.take(n as int) } else { s },
        DiffDetail::Full => s,
    }
}

/// The level of detail that options ask for.
pub open spec fn effective_detail(o: DiffOptions) -> DiffDetail {
    match o.detail {
        Some(d) => d,
        None => DiffDetail::Limited { n: 100 },
    }
}

/// `d` and `c` are the diff of tables `cur` (current) and `bak` (backup),
/// with the lists cut to `detail` and the counts taken before the cut.
pub open spec fn table_result<T: TableRow>(
    d: TableDiff<T>,
    c: DiffCounts,
    cur: Seq<T::V>,
    bak: Seq<T::V>,
    detail: DiffDetail,
) -> bool {
    &&& c.added == only_in::<T>(cur, bak).len()
    &&& c.removed == only_in::<T>(bak, cur).len()
    &&& c.changed == changed_pairs::<T>(cur, bak).len()
    &&& views(d.added@) == cut(only_in::<T>(cur, bak), detail)
    &&& views(d.removed@) == cut(only_in::<T>(bak, cur), detail)
    &&& change_views(d.changed@) == cut(changed_pairs::<T>(cur, bak), detail)
}

/// `d` and `c` are the link diff of `cur` and `bak`, cut to `detail`.
pub open spec fn link_result(
    d: MediaTagAssocDiff,
    c: DiffCounts,
    cur: Seq<MediaTagAssocView>,
    bak: Seq<MediaTagAssocView>,
    detail: DiffDetail,
) -> bool {
    &&& c.added == only_in::<MediaTagAssoc>(cur, bak).len()
    &&& c.removed == only_in::<MediaTagAssoc>(bak, cur).len()
    &&& c.changed == 0
    &&& views(d.added@) == cut(only_in::<MediaTagAssoc>(cur, bak), detail)
    &&& views(d.removed@) == cut(only_in::<MediaTagAssoc>(bak, cur), detail)
}

proof fn lemma_cut_views<T: View>(s: Seq<T>, d: DiffDetail)
    ensures
        views(cut(s, d)) == cut(views(s), d),
{
    match d {
        DiffDetail::SummaryOnly => {
            assert(views(cut(s, d)) =~= cut(views(s), d));
        },
        DiffDetail::Limited { n } => {
            if s.len() > n {
                assert(views(s.take(n as int)) =~= views(s).take(n as int));
            }
        },
        DiffDetail::Full => {},
    }
}

proof fn lemma_cut_change_views<T: View>(s: Seq<RowChange<T>>, d: DiffDetail)
    ensures
        change_views(cut(s, d)) == cut(change_views(s), d),
{
    match d {
        DiffDetail::SummaryOnly => {
            assert(change_views(cut(s, d)) =~= cut(change_views(s), d));
        },
        DiffDetail::Limited { n } => {
            if s.len() > n {
                assert(change_views(s.take(n as int)) =~= change_views(s).take(n as int));
            }
        },
        DiffDetail::Full => {},
    }
}

fn cut_vec<A>(v: &mut Vec<A>, d: DiffDetail)
    ensures
        final(v)@ == cut(old(v)@, d),
{
    match d {
        DiffDetail::SummaryOnly => {
            v.clear();
            assert(v@ =~= Seq::<A>::empty());
        },
        DiffDetail::Limited { n } => {
            v.truncate(n);
        },
        DiffDetail::Full => {},
    }
}

fn cut_table<T: View>(t: &mut TableDiff<T>, d: DiffDetail)
    ensures
        views(final(t).added@) == cut(views(old(t).added@), d),
        views(final(t).removed@) == cut(views(old(t).removed@), d),
        change_views(final(t).changed@) == cut(change_views(old(t).changed@), d),
{
    proof {
        lemma_cut_views(t.added@, d);
        lemma_cut_views(t.removed@, d);
        lemma_cut_change_views(t.changed@, d);
    }
    cut_vec(&mut t.added, d);
    cut_vec(&mut t.removed, d);
    cut_vec(&mut t.changed, d);
}

/// Cuts every row list of `diff` to `detail`; the counts stay.
fn apply_detail(diff: &mut BackupDiff, detail: &DiffDetail)
    ensures
        final(diff).summary == old(diff).summary,
        views(final(diff).media.added@) == cut(views(old(diff).media.added@), *detail),
        views(final(diff).media.removed@) == cut(views(old(diff).media.removed@), *detail),
        change_views(final(diff).media.changed@) == cut(change_views(old(diff).media.changed@), *detail),
        views(final(diff).tags.added@) == cut(views(old(diff).tags.added@), *detail),
        views(final(diff).tags.removed@) == cut(views(old(diff).tags.removed@), *detail),
        change_views(final(diff).tags.changed@) == cut(change_views(old(diff).tags.changed@), *detail),
        views(final(diff).media_tags.added@) == cut(views(old(diff).media_tags.added@), *detail),
        views(final(diff).media_tags.removed@) == cut(views(old(diff).media_tags.removed@), *detail),
        views(final(diff).attributes.added@) == cut(views(old(diff).attributes.added@), *detail),
        views(final(diff).attributes.removed@) == cut(views(old(diff).attributes.removed@), *detail),
        change_views(final(diff).attributes.changed@) == cut(change_views(old(diff).attributes.changed@), *detail),
        views(final(diff).hashes.added@) == cut(views(old(diff).hashes.added@), *detail),
        views(final(diff).hashes.removed@) == cut(views(old(diff).hashes.removed@), *detail),
        change_views(final(diff).hashes.changed@) == cut(change_views(old(diff).hashes.changed@), *detail),
{
    let d = *detail;
    cut_table(&mut diff.media, d);
    cut_table(&mut diff.tags, d);
    proof {
        lemma_cut_views(diff.media_tags.added@, d);
        lemma_cut_views(diff.media_tags.removed@, d);
    }
    cut_vec(&mut diff.media_tags.added, d);
    cut_vec(&mut diff.media_tags.removed, d);
    cut_table(&mut diff.attributes, d);
    cut_table(&mut diff.hashes, d);
}

fn table_counts<T>(d: &TableDiff<T>) -> (c: DiffCounts)
    ensures
        c.added == d.added@.len(),
        c.removed == d.removed@.len(),
        c.changed == d.changed@.len(),
{
    DiffCounts { added: d.added.len(), removed: d.removed.len(), changed: d.changed.len() }
}

/// The diff of the current database against a backup: for each table the
/// rows only in the backup (added), only in the current database (removed)
/// and in both with different contents (changed), each in key order; lists
/// cut to the level of detail of `options`, counts taken before the cut.
pub fn compute_diff(current: &BackupSnapshot, backup: &BackupSnapshot, options: &DiffOptions) -> (r: BackupDiff)
    requires
        current.wf(),
        backup.wf(),
    ensures
        table_result::<Media>(r.media, r.summary.media, views(current.media@), views(backup.media@), effective_detail(*options)),
        table_result::<Tag>(r.tags, r.summary.tags, views(current.tags@), views(backup.tags@), effective_detail(*options)),
        link_result(r.media_tags, r.summary.media_tags, views(current.media_tags@), views(backup.media_tags@), effective_detail(*options)),
        table_result::<MediaAttribute>(r.attributes, r.summary.attributes, views(current.attributes@), views(backup.attributes@), effective_detail(*options)),
        table_result::<MediaHash>(r.hashes, r.summary.hashes, views(current.hashes@), views(backup.hashes@), effective_detail(*options)),
{
    let media = diff_rows(&current.media, &backup.media);
    let media_counts = table_counts(&media);
    let tags = diff_rows(&current.tags, &backup.tags);
    let tag_counts = table_counts(&tags);
    let links = diff_rows(&current.media_tags, &backup.media_tags);
    let mt_counts = DiffCounts { added: links.added.len(), removed: links.removed.len(), changed: 0 };
    let media_tags = MediaTagAssocDiff { added: links.added, removed: links.removed };
    let attributes = diff_rows(&current.attributes, &backup.attributes);
    let attr_counts = table_counts(&attributes);
    let hashes = diff_rows(&current.hashes, &backup.hashes);
    let hash_counts = table_counts(&hashes);
    proof {
        assert(views(media.added@).len() == media.added@.len());
        assert(views(media.removed@).len() == media.removed@.len());
        assert(change_views(media.changed@).len() == media.changed@.len());
        assert(views(tags.added@).len() == tags.added@.len());
        assert(views(tags.removed@).len() == tags.removed@.len());
        assert(change_views(tags.changed@).len() == tags.changed@.len());
        assert(views(media_tags.added@).len() == media_tags.added@.len());
        assert(views(media_tags.removed@).len() == media_tags.removed@.len());
        assert(views(attributes.added@).len() == attributes.added@.len());
        assert(views(attributes.removed@).len() == attributes.removed@.len());
        assert(change_views(attributes.changed@).len() == attributes.changed@.len());
        assert(views(hashes.added@).len() == hashes.added@.len());
        assert(views(hashes.removed@).len() == hashes.removed@.len());
        assert(change_views(hashes.changed@).len() == hashes.changed@.len());
    }
    let mut diff = BackupDiff {
        media,
        tags,
        media_tags,
        attributes,
        hashes,
        summary: BackupDiffSummary {
            media: media_counts,
            tags: tag_counts,
            media_tags: mt_counts,
            attributes: attr_counts,
            hashes: hash_counts,
        },
    };
    let detail = match options.detail {
        Some(d) => d,
        None => DiffDetail::default(),
    };
    apply_detail(&mut diff, &detail);
    diff
}

/// The diff of a snapshot with itself is empty: every count is zero and
/// every list empty, whatever the level of detail.
pub proof fn law_self_diff_empty(s: BackupSnapshot, d: BackupDiff, detail: DiffDetail)
    requires
        s.wf(),
        table_result::<Media>(d.media, d.summary.media, views(s.media@), views(s.media@), detail),
        table_result::<Tag>(d.tags, d.summary.tags, views(s.tags@), views(s.tags@), detail),
        link_result(d.media_tags, d.summary.media_tags, views(s.media_tags@), views(s.media_tags@), detail),
        table_result::<MediaAttribute>(d.attributes, d.summary.attributes, views(s.attributes@), views(s.attributes@), detail),
        table_result::<MediaHash>(d.hashes, d.summary.hashes, views(s.hashes@), views(s.hashes@), detail),
    ensures
        d.summary.media == (DiffCounts { added: 0, removed: 0, changed: 0 }),
        d.summary.tags == (DiffCounts { added: 0, removed: 0, changed: 0 }),
        d.summary.media_tags == (DiffCounts { added: 0, removed: 0, changed: 0 }),
        d.summary.attributes == (DiffCounts { added: 0, removed: 0, changed: 0 }),
        d.summary.hashes == (DiffCounts { added: 0, removed: 0, changed: 0 }),
        d.media.added@.len() == 0 && d.media.removed@.len() == 0 && d.media.changed@.len() == 0,
        d.tags.added@.len() == 0 && d.tags.removed@.len() == 0 && d.tags.changed@.len() == 0,
        d.media_tags.added@.len() == 0 && d.media_tags.removed@.len() == 0,
        d.attributes.added@.len() == 0 && d.attributes.removed@.len() == 0 && d.attributes.changed@.len() == 0,
        d.hashes.added@.len() == 0 && d.hashes.removed@.len() == 0 && d.hashes.changed@.len() == 0,
{
    law_table_self_diff_empty::<Media>(views(s.media@));
    law_table_self_diff_empty::<Tag>(views(s.tags@));
    law_table_self_diff_empty::<MediaTagAssoc>(views(s.media_tags@));
    law_table_self_diff_empty::<MediaAttribute>(views(s.attributes@));
    law_table_self_diff_empty::<MediaHash>(views(s.hashes@));
    assert(views(d.media.added@).len() == d.media.added@.len());
    assert(views(d.media.removed@).len() == d.media.removed@.len());
    assert(change_views(d.media.changed@).len() == d.media.changed@.len());
    assert(views(d.tags.added@).len() == d.tags.added@.len());
    assert(views(d.tags.removed@).len() == d.tags.removed@.len());
    assert(change_views(d.tags.changed@).len() == d.tags.changed@.len());
    assert(views(d.media_tags.added@).len() == d.media_tags.added@.len());
    assert(views(d.media_tags.removed@).len() == d.media_tags.removed@.len());
    assert(views(d.attributes.added@).len() == d.attributes.added@.len());
    assert(views(d.attributes.removed@).len() == d.attributes.removed@.len());
    assert(change_views(d.attributes.changed@).len() == d.attributes.changed@.len());
    assert(views(d.hashes.added@).len() == d.hashes.added@.len());
    assert(views(d.hashes.removed@).len() == d.hashes.removed@.len());
    assert(change_views(d.hashes.changed@).len() == d.hashes.changed@.len());
}

} // verus!
