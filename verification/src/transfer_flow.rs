//! The full transfer of one database into another, step by step: the
//! destination is migrated, the tags are got or created by name, the source
//! is read in pages, each page's media items are created and their tag
//! links, attributes and hashes copied through the maps of new ids, and the
//! two databases are compared at the end.
//!
//! The library decides; the caller performs each action on the databases
//! and hands back what came of the last one.
use vstd::prelude::*;
use crate::error::KijukuError;
use crate::text::dec_int;
use crate::transfer::{
    TransferReport, TransferOptions, MediaBundle, IdMap, page_size, more_pages, media_to_input, media_input_of,
    hash_to_input, record_created, uuid_ids, new_media_id, new_tag_id, verify_transfer, transfer_check,
    total_of, tag_links, attr_rows, hash_rows, lemma_total_prefix,
};
use crate::types::{
    Media, MediaInput, MediaInputView, MediaHash, MediaHashInput, MediaHashInputView, MediaAttribute,
    Tag, AttributeValueType, clone_opt_str, opt_str_view,
};

verus! {

broadcast use vstd::std_specs::vec::group_vec_axioms;

/// Where a transfer stands.
#[derive(Debug, Clone, Copy, PartialEq, Eq, Structural)]
pub enum TransferPhase {
    /// Waiting for the destination's migration.
    Migrating,
    /// Waiting for the source's tags.
    ReadingTags,
    /// Getting or creating the destination's tags, one by one.
    Tagging,
    /// Waiting for a page of the source.
    Paging,
    /// Waiting for the media items of a page to be created.
    Creating,
    /// Waiting for both databases' contents.
    Verifying,
    /// Done or failed.
    Finished,
}

/// The state of a transfer between steps.
pub struct TransferState {
    pub phase: TransferPhase,
    /// Names of the source's tags.
    pub tags: Vec<String>,
    /// Position of the tag being got or created.
    pub next_tag: usize,
    /// New tag ids by name.
    pub tag_ids: IdMap,
    /// New media ids by uuid.
    pub media_ids: IdMap,
    /// The page being created.
    pub page: Vec<MediaBundle>,
    /// Rows moved so far.
    pub report: TransferReport,
}

/// Value of a transfer's state.
pub struct TransferStateView {
    pub phase: TransferPhase,
    pub tags: Seq<Seq<char>>,
    pub next_tag: nat,
    pub tag_ids: Map<Seq<char>, i64>,
    pub media_ids: Map<Seq<char>, i64>,
    pub page: Seq<MediaBundle>,
    pub report: TransferReport,
}

impl View for TransferState {
    type V = TransferStateView;

    open spec fn view(&self) -> TransferStateView {
        TransferStateView {
            phase: self.phase,
            tags: self.tags@.map_values(|t: String| t@),
            next_tag: self.next_tag as nat,
            tag_ids: self.tag_ids@,
            media_ids: self.media_ids@,
            page: self.page@,
            report: self.report,
        }
    }
}

impl TransferState {
    /// The id maps hold each key once, and a tag is being got or created
    /// only while one is left.
    pub open spec fn wf(&self) -> bool {
        &&& self.tag_ids.wf()
        &&& self.media_ids.wf()
        &&& self.next_tag <= self.tags@.len()
        &&& self.phase == TransferPhase::Tagging ==> self.next_tag < self.tags@.len()
    }
}

/// What the caller is to do next.
pub enum TransferAction {
    /// Bring the destination's schema up to date.
    MigrateDest,
    /// Read all tags of the source.
    ReadSourceTags,
    /// Get the destination's tag of this name, creating it when missing.
    GetOrCreateTag(String),
    /// Read the source's media items ordered by id, `limit` of them from
    /// position `offset`, each with its tag names, attributes and hashes.
    ReadPage { offset: usize, limit: usize },
    /// Create these media items in the destination at once.
    CreateMedia(Vec<MediaInput>),
    /// Link a destination media item to a destination tag.
    LinkTag { media_id: i64, tag_id: i64 },
    /// Set an attribute of a destination media item.
    SetAttribute { media_id: i64, key: String, value: Option<String>, value_type: AttributeValueType },
    /// Add these hashes to the destination.
    AddHashes(Vec<MediaHashInput>),
    /// Read the full contents of both databases for the comparison.
    ReadBothForVerify,
    /// The transfer succeeded.
    Done(TransferReport),
    /// The transfer failed with this error.
    Fail(KijukuError),
}

/// What came of the last action.
pub enum TransferEvent {
    /// The destination was migrated.
    Migrated,
    /// The source's tags.
    SourceTags(Vec<Tag>),
    /// The id of the destination's tag that was got or created.
    TagId(i64),
    /// A page of the source.
    Page(Vec<MediaBundle>),
    /// The media items created in the destination.
    Created(Vec<Media>),
    /// The contents of both databases, with their tag names.
    Compared { source: Vec<MediaBundle>, dest: Vec<MediaBundle>, source_tags: Vec<String>, dest_tags: Vec<String> },
    /// An operation on either database failed.
    Failed(KijukuError),
}

/// Value of a failure: an `Other` error by its message, any other error as
/// it is.
pub enum FailureView {
    Other(Seq<char>),
    Outside(KijukuError),
}

/// Value of an error as a failure.
pub open spec fn failure_view(e: KijukuError) -> FailureView {
    match e {
        KijukuError::Other(m) => FailureView::Other(m@),
        _ => FailureView::Outside(e),
    }
}

/// Value of an action.
pub enum ActionView {
    MigrateDest,
    ReadSourceTags,
    GetOrCreateTag(Seq<char>),
    ReadPage { offset: nat, limit: nat },
    CreateMedia(Seq<MediaInputView>),
    LinkTag { media_id: i64, tag_id: i64 },
    SetAttribute { media_id: i64, key: Seq<char>, value: Option<Seq<char>>, value_type: AttributeValueType },
    AddHashes(Seq<MediaHashInputView>),
    ReadBothForVerify,
    Done(TransferReport),
    Fail(FailureView),
}

impl View for TransferAction {
    type V = ActionView;

    open spec fn view(&self) -> ActionView {
        match self {
            TransferAction::MigrateDest => ActionView::MigrateDest,
            TransferAction::ReadSourceTags => ActionView::ReadSourceTags,
            TransferAction::GetOrCreateTag(n) => ActionView::GetOrCreateTag(n@),
            TransferAction::ReadPage { offset, limit } => ActionView::ReadPage { offset: *offset as nat, limit: *limit as nat },
            TransferAction::CreateMedia(v) => ActionView::CreateMedia(v@.map_values(|m: MediaInput| m@)),
            TransferAction::LinkTag { media_id, tag_id } => ActionView::LinkTag { media_id: *media_id, tag_id: *tag_id },
            TransferAction::SetAttribute { media_id, key, value, value_type } => ActionView::SetAttribute {
                media_id: *media_id,
                key: key@,
                value: opt_str_view(*value),
                value_type: *value_type,
            },
            TransferAction::AddHashes(v) => ActionView::AddHashes(v@.map_values(|h: MediaHashInput| h@)),
            TransferAction::ReadBothForVerify => ActionView::ReadBothForVerify,
            TransferAction::Done(r) => ActionView::Done(*r),
            TransferAction::Fail(e) => ActionView::Fail(failure_view(*e)),
        }
    }
}

/// Values of actions.
pub open spec fn actions_view(s: Seq<TransferAction>) -> Seq<ActionView> {
    s.map_values(|a: TransferAction| a@)
}

/// Value of an event.
pub enum EventView {
    Migrated,
    SourceTags(Seq<Seq<char>>),
    TagId(i64),
    Page(Seq<MediaBundle>),
    Created(Seq<Media>),
    Compared { source: Seq<MediaBundle>, dest: Seq<MediaBundle>, source_tags: Seq<String>, dest_tags: Seq<String> },
    Failed(KijukuError),
}

impl View for TransferEvent {
    type V = EventView;

    open spec fn view(&self) -> EventView {
        match self {
            TransferEvent::Migrated => EventView::Migrated,
            TransferEvent::SourceTags(v) => EventView::SourceTags(v@.map_values(|t: Tag| t.name@)),
            TransferEvent::TagId(id) => EventView::TagId(*id),
            TransferEvent::Page(p) => EventView::Page(p@),
            TransferEvent::Created(c) => EventView::Created(c@),
            TransferEvent::Compared { source, dest, source_tags, dest_tags } => EventView::Compared {
                source: source@,
                dest: dest@,
                source_tags: source_tags@,
                dest_tags: dest_tags@,
            },
            TransferEvent::Failed(e) => EventView::Failed(*e),
        }
    }
}

/// Items read per page: the chunk size, at least 1.
pub open spec fn eff_chunk(c: nat) -> nat {
    if c < 1 { 1 } else { c }
}

/// Tag links of the bundles.
pub open spec fn links_total(s: Seq<MediaBundle>) -> nat {
    total_of(s, |b: MediaBundle| tag_links(b))
}

/// Attributes of the bundles.
pub open spec fn attrs_total(s: Seq<MediaBundle>) -> nat {
    total_of(s, |b: MediaBundle| attr_rows(b))
}

/// Hashes of the bundles.
pub open spec fn hashes_total(s: Seq<MediaBundle>) -> nat {
    total_of(s, |b: MediaBundle| hash_rows(b))
}

/// The message of a media item whose new id is unknown.
pub open spec fn uuid_missing_text(u: Seq<char>) -> Seq<char> {
    "uuid "@ + u + " の新 id が不明"@
}

/// The message of a tag link whose tag the destination lacks.
pub open spec fn tag_missing_text(src_id: i64, name: Seq<char>) -> Seq<char> {
    "media(id="@ + dec_int(src_id as int) + ") のタグ '"@ + name + "' に対応する dest タグがない"@
}

/// Every tag name has a new id.
pub open spec fn links_ok(names: Seq<String>, tag_ids: Map<Seq<char>, i64>) -> bool {
    forall|i: int| 0 <= i < names.len() ==> tag_ids.contains_key(#[trigger] names[i]@)
}

/// Tag links of new media item `mid` (source id `src_id`) in order, up to
/// and with a failure at the first name without a new id.
pub open spec fn link_actions(mid: i64, src_id: i64, names: Seq<String>, tag_ids: Map<Seq<char>, i64>) -> Seq<ActionView>
    decreases names.len(),
{
    if names.len() == 0 {
        Seq::empty()
    } else {
        let prev = link_actions(mid, src_id, names.drop_last(), tag_ids);
        if !links_ok(names.drop_last(), tag_ids) {
            prev
        } else if tag_ids.contains_key(names.last()@) {
            prev.push(ActionView::LinkTag { media_id: mid, tag_id: tag_ids[names.last()@] })
        } else {
            prev.push(ActionView::Fail(FailureView::Other(tag_missing_text(src_id, names.last()@))))
        }
    }
}

/// Attribute settings of new media item `mid`, in order.
pub open spec fn attr_actions(mid: i64, attrs: Seq<MediaAttribute>) -> Seq<ActionView> {
    attrs.map_values(|a: MediaAttribute| ActionView::SetAttribute {
        media_id: mid,
        key: a.key@,
        value: opt_str_view(a.value),
        value_type: a.value_type,
    })
}

/// The input that registers a copy of hash `h`.
pub open spec fn hash_input_of(h: MediaHash) -> MediaHashInputView {
    MediaHashInputView {
        item_uuid: h@.item_uuid,
        filename: h@.filename,
        time_range: h@.time_range,
        content_hash: h@.content_hash,
        alternative_of: h@.alternative_of,
    }
}

/// One addition of all the hashes, when there are any.
pub open spec fn hash_actions(hs: Seq<MediaHash>) -> Seq<ActionView> {
    if hs.len() == 0 {
        Seq::empty()
    } else {
        seq![ActionView::AddHashes(hs.map_values(|h: MediaHash| hash_input_of(h)))]
    }
}

/// The bundle's media item has a new id, and so has each of its tags.
pub open spec fn bundle_ok(b: MediaBundle, media_ids: Map<Seq<char>, i64>, tag_ids: Map<Seq<char>, i64>) -> bool {
    media_ids.contains_key(b.media.uuid@) && links_ok(b.tag_names@, tag_ids)
}

/// The writes that copy a bundle's rows: its tag links, then its
/// attributes, then its hashes; up to and with a failure at the first
/// missing id.
pub open spec fn bundle_actions(b: MediaBundle, media_ids: Map<Seq<char>, i64>, tag_ids: Map<Seq<char>, i64>) -> Seq<ActionView> {
    if !media_ids.contains_key(b.media.uuid@) {
        seq![ActionView::Fail(FailureView::Other(uuid_missing_text(b.media.uuid@)))]
    } else {
        let mid = media_ids[b.media.uuid@];
        let links = link_actions(mid, b.media.id, b.tag_names@, tag_ids);
        if links_ok(b.tag_names@, tag_ids) {
            links + attr_actions(mid, b.attributes@) + hash_actions(b.hashes@)
        } else {
            links
        }
    }
}

/// Every bundle of the page can be copied.
pub open spec fn page_ok(p: Seq<MediaBundle>, media_ids: Map<Seq<char>, i64>, tag_ids: Map<Seq<char>, i64>) -> bool {
    forall|i: int| 0 <= i < p.len() ==> bundle_ok(#[trigger] p[i], media_ids, tag_ids)
}

/// The writes of a page, bundle by bundle, up to and with the first
/// failure.
pub open spec fn page_actions(p: Seq<MediaBundle>, media_ids: Map<Seq<char>, i64>, tag_ids: Map<Seq<char>, i64>) -> Seq<ActionView>
    decreases p.len(),
{
    if p.len() == 0 {
        Seq::empty()
    } else {
        let prev = page_actions(p.drop_last(), media_ids, tag_ids);
        if !page_ok(p.drop_last(), media_ids, tag_ids) {
            prev
        } else {
            prev + bundle_actions(p.last(), media_ids, tag_ids)
        }
    }
}

/// The report after page `p` was moved.
pub open spec fn after_page(r: TransferReport, p: Seq<MediaBundle>) -> TransferReport {
    TransferReport {
        media: (r.media + p.len()) as usize,
        media_tags: (r.media_tags + links_total(p)) as usize,
        attributes: (r.attributes + attrs_total(p)) as usize,
        hashes: (r.hashes + hashes_total(p)) as usize,
        ..r
    }
}

/// The read of the page that follows the media items moved so far.
pub open spec fn read_page(r: TransferReport, chunk: nat) -> ActionView {
    ActionView::ReadPage { offset: r.media as nat, limit: eff_chunk(chunk) }
}

/// The inputs that create copies of the page's media items.
pub open spec fn page_inputs(p: Seq<MediaBundle>) -> Seq<MediaInputView> {
    p.map_values(|b: MediaBundle| media_input_of(b.media@))
}

/// The state at the start of a transfer: waiting for the migration,
/// nothing moved.
pub open spec fn initial_state() -> TransferStateView {
    TransferStateView {
        phase: TransferPhase::Migrating,
        tags: Seq::empty(),
        next_tag: 0,
        tag_ids: Map::empty(),
        media_ids: Map::empty(),
        page: Seq::empty(),
        report: TransferReport { media: 0, tags: 0, media_tags: 0, attributes: 0, hashes: 0, verified: false },
    }
}

/// One step of a transfer with chunk size `chunk`: the state after event
/// `e` and the actions to perform, in order. An event that the phase does
/// not wait for changes nothing; a failure of either database ends the
/// transfer with that error.
pub open spec fn transfer_spec(s: TransferStateView, e: EventView, chunk: nat) -> (TransferStateView, Seq<ActionView>) {
    match e {
        EventView::Failed(err) => (
            TransferStateView { phase: TransferPhase::Finished, ..s },
            seq![ActionView::Fail(failure_view(err))],
        ),
        EventView::Migrated => if s.phase == TransferPhase::Migrating {
            (TransferStateView { phase: TransferPhase::ReadingTags, ..s }, seq![ActionView::ReadSourceTags])
        } else {
            (s, Seq::empty())
        },
        EventView::SourceTags(names) => if s.phase == TransferPhase::ReadingTags {
            let r = TransferReport { tags: names.len() as usize, ..s.report };
            if names.len() == 0 {
                (TransferStateView { phase: TransferPhase::Paging, tags: names, next_tag: 0, report: r, ..s },
                    seq![read_page(r, chunk)])
            } else {
                (TransferStateView { phase: TransferPhase::Tagging, tags: names, next_tag: 0, report: r, ..s },
                    seq![ActionView::GetOrCreateTag(names[0])])
            }
        } else {
            (s, Seq::empty())
        },
        EventView::TagId(id) => if s.phase == TransferPhase::Tagging {
            let k = s.next_tag;
            let ids = s.tag_ids.insert(s.tags[k as int], id);
            if k + 1 < s.tags.len() {
                (TransferStateView { next_tag: k + 1, tag_ids: ids, ..s }, seq![ActionView::GetOrCreateTag(s.tags[(k + 1) as int])])
            } else {
                (TransferStateView { phase: TransferPhase::Paging, next_tag: k + 1, tag_ids: ids, ..s },
                    seq![read_page(s.report, chunk)])
            }
        } else {
            (s, Seq::empty())
        },
        EventView::Page(p) => if s.phase == TransferPhase::Paging {
            if p.len() == 0 {
                (TransferStateView { phase: TransferPhase::Verifying, ..s }, seq![ActionView::ReadBothForVerify])
            } else {
                (TransferStateView { phase: TransferPhase::Creating, page: p, ..s }, seq![ActionView::CreateMedia(page_inputs(p))])
            }
        } else {
            (s, Seq::empty())
        },
        EventView::Created(c) => if s.phase == TransferPhase::Creating {
            let ids = uuid_ids(s.media_ids, c);
            let r = after_page(s.report, s.page);
            let w = page_actions(s.page, ids, s.tag_ids);
            if !page_ok(s.page, ids, s.tag_ids) {
                (TransferStateView { phase: TransferPhase::Finished, media_ids: ids, report: r, ..s }, w)
            } else if s.page.len() >= eff_chunk(chunk) {
                (TransferStateView { phase: TransferPhase::Paging, media_ids: ids, report: r, ..s }, w.push(read_page(r, chunk)))
            } else {
                (TransferStateView { phase: TransferPhase::Verifying, media_ids: ids, report: r, ..s },
                    w.push(ActionView::ReadBothForVerify))
            }
        } else {
            (s, Seq::empty())
        },
        EventView::Compared { source, dest, source_tags, dest_tags } => if s.phase == TransferPhase::Verifying {
            match transfer_check(source, dest, source_tags, dest_tags) {
                Ok(_) => (TransferStateView { phase: TransferPhase::Finished, ..s },
                    seq![ActionView::Done(TransferReport { verified: true, ..s.report })]),
                Err(m) => (TransferStateView { phase: TransferPhase::Finished, ..s },
                    seq![ActionView::Fail(FailureView::Other(m))]),
            }
        } else {
            (s, Seq::empty())
        },
    }
}

/// The counts that a step adds fit in `usize`.
pub open spec fn step_fits(s: TransferStateView, e: EventView) -> bool {
    match e {
        EventView::Created(_) => s.phase == TransferPhase::Creating ==> {
            &&& s.report.media + s.page.len() <= usize::MAX
            &&& s.report.media_tags + links_total(s.page) <= usize::MAX
            &&& s.report.attributes + attrs_total(s.page) <= usize::MAX
            &&& s.report.hashes + hashes_total(s.page) <= usize::MAX
        },
        EventView::Compared { source, .. } => {
            &&& links_total(source) <= usize::MAX
            &&& attrs_total(source) <= usize::MAX
            &&& hashes_total(source) <= usize::MAX
        },
        _ => true,
    }
}

proof fn lemma_actions_push(s: Seq<TransferAction>, a: TransferAction)
    ensures
        actions_view(s.push(a)) == actions_view(s).push(a@),
{
    assert(actions_view(s.push(a)) =~= actions_view(s).push(a@));
}

proof fn lemma_links_stop(mid: i64, src_id: i64, names: Seq<String>, tag_ids: Map<Seq<char>, i64>, k: int, n: int)
    requires
        0 <= k <= n <= names.len(),
        !links_ok(names.take(k), tag_ids),
    ensures
        link_actions(mid, src_id, names.take(n), tag_ids) == link_actions(mid, src_id, names.take(k), tag_ids),
        !links_ok(names.take(n), tag_ids),
    decreases n - k,
{
    if n > k {
        lemma_links_stop(mid, src_id, names, tag_ids, k, n - 1);
        assert(names.take(n).drop_last() =~= names.take(n - 1));
        let i = choose|i: int| 0 <= i < names.take(n - 1).len() && !tag_ids.contains_key(#[trigger] names.take(n - 1)[i]@);
        assert(names.take(n)[i] == names.take(n - 1)[i]);
    }
}

proof fn lemma_page_stop(p: Seq<MediaBundle>, media_ids: Map<Seq<char>, i64>, tag_ids: Map<Seq<char>, i64>, k: int, n: int)
    requires
        0 <= k <= n <= p.len(),
        !page_ok(p.take(k), media_ids, tag_ids),
    ensures
        page_actions(p.take(n), media_ids, tag_ids) == page_actions(p.take(k), media_ids, tag_ids),
        !page_ok(p.take(n), media_ids, tag_ids),
    decreases n - k,
{
    if n > k {
        lemma_page_stop(p, media_ids, tag_ids, k, n - 1);
        assert(p.take(n).drop_last() =~= p.take(n - 1));
        let i = choose|i: int| 0 <= i < p.take(n - 1).len() && !bundle_ok(#[trigger] p.take(n - 1)[i], media_ids, tag_ids);
        assert(p.take(n)[i] == p.take(n - 1)[i]);
    }
}

/// Pushes the writes of bundle `b` (see `bundle_actions`); tells whether
/// it can be copied.
fn push_bundle_writes(b: &MediaBundle, media_ids: &IdMap, tag_ids: &IdMap, acts: &mut Vec<TransferAction>) -> (ok: bool)
    requires
        media_ids.wf(),
        tag_ids.wf(),
    ensures
        actions_view(final(acts)@) == actions_view(old(acts)@) + bundle_actions(*b, media_ids@, tag_ids@),
        ok == bundle_ok(*b, media_ids@, tag_ids@),
{
    let ghost start = actions_view(acts@);
    let mid = match new_media_id(media_ids, b.media.uuid.as_str()) {
        Ok(id) => id,
        Err(e) => {
            let ghost before = acts@;
            let ghost fv = failure_view(e);
            acts.push(TransferAction::Fail(e));
            proof {
                lemma_actions_push(before, acts@.last());
                assert(acts@ == before.push(acts@.last()));
            }
            assert(actions_view(acts@) =~= start + bundle_actions(*b, media_ids@, tag_ids@));
            return false;
        },
    };
    assert(media_ids@.contains_key(b.media.uuid@) && media_ids@[b.media.uuid@] == mid);
    let ghost names = b.tag_names@;
    let mut i: usize = 0;
    assert(names.take(0) =~= Seq::<String>::empty());
    assert(actions_view(acts@) =~= start + link_actions(mid, b.media.id, names.take(0), tag_ids@));
    while i < b.tag_names.len()
        invariant
            tag_ids.wf(),
            names == b.tag_names@,
            i <= names.len(),
            media_ids@.contains_key(b.media.uuid@) && media_ids@[b.media.uuid@] == mid,
            start == actions_view(old(acts)@),
            links_ok(names.take(i as int), tag_ids@),
            actions_view(acts@) == start + link_actions(mid, b.media.id, names.take(i as int), tag_ids@),
        decreases names.len() - i,
    {
        let ghost t = names.take(i + 1);
        proof {
            assert(t.drop_last() =~= names.take(i as int));
            assert(t.last() == names[i as int]);
        }
        let ghost before = acts@;
        match new_tag_id(tag_ids, b.media.id, b.tag_names[i].as_str()) {
            Ok(tid) => {
                acts.push(TransferAction::LinkTag { media_id: mid, tag_id: tid });
                proof {
                    lemma_actions_push(before, acts@.last());
                    assert(acts@ == before.push(acts@.last()));
                    assert(tag_ids@.contains_key(t.last()@) && tag_ids@[t.last()@] == tid);
                    assert(actions_view(acts@) =~= start + link_actions(mid, b.media.id, t, tag_ids@));
                    assert forall|j: int| 0 <= j < t.len() implies tag_ids@.contains_key(#[trigger] t[j]@) by {
                        if j < i {
                            assert(t[j] == names.take(i as int)[j]);
                        }
                    }
                }
            },
            Err(e) => {
                acts.push(TransferAction::Fail(e));
                proof {
                    lemma_actions_push(before, acts@.last());
                    assert(acts@ == before.push(acts@.last()));
                    assert(actions_view(acts@) =~= start + link_actions(mid, b.media.id, t, tag_ids@));
                    assert(!tag_ids@.contains_key(t[i as int]@));
                    assert(!links_ok(t, tag_ids@));
                    lemma_links_stop(mid, b.media.id, names, tag_ids@, i + 1, names.len() as int);
                    assert(names.take(names.len() as int) =~= names);
                    assert(!links_ok(names, tag_ids@));
                    assert(bundle_actions(*b, media_ids@, tag_ids@) == link_actions(mid, b.media.id, names, tag_ids@));
                }
                return false;
            },
        }
        i = i + 1;
    }
    proof {
        assert(names.take(names.len() as int) =~= names);
    }
    let ghost links = actions_view(acts@);
    let ghost attrs = b.attributes@;
    let mut j: usize = 0;
    while j < b.attributes.len()
        invariant
            attrs == b.attributes@,
            j <= attrs.len(),
            actions_view(acts@) == links + attr_actions(mid, attrs.take(j as int)),
        decreases attrs.len() - j,
    {
        let a = &b.attributes[j];
        let ghost before = acts@;
        acts.push(TransferAction::SetAttribute {
            media_id: mid,
            key: a.key.clone(),
            value: clone_opt_str(&a.value),
            value_type: a.value_type,
        });
        proof {
            lemma_actions_push(before, acts@.last());
            assert(acts@ == before.push(acts@.last()));
            assert(attrs.take(j + 1).drop_last() =~= attrs.take(j as int));
            assert(attr_actions(mid, attrs.take(j + 1)) =~= attr_actions(mid, attrs.take(j as int)).push(
                attr_actions(mid, attrs.take(j + 1)).last()));
            assert(actions_view(acts@) =~= links + attr_actions(mid, attrs.take(j + 1)));
        }
        j = j + 1;
    }
    proof {
        assert(attrs.take(attrs.len() as int) =~= attrs);
    }
    if b.hashes.len() > 0 {
        let ghost hs = b.hashes@;
        let mut inputs: Vec<MediaHashInput> = Vec::new();
        let mut k: usize = 0;
        while k < b.hashes.len()
            invariant
                hs == b.hashes@,
                k <= hs.len(),
                inputs@.map_values(|h: MediaHashInput| h@) == hs.take(k as int).map_values(|h: MediaHash| hash_input_of(h)),
            decreases hs.len() - k,
        {
            let ghost before = inputs@;
            let h = hash_to_input(&b.hashes[k]);
            assert(h@ == hash_input_of(hs[k as int]));
            inputs.push(h);
            proof {
                assert(inputs@ == before.push(h));
                assert(inputs@.map_values(|h: MediaHashInput| h@) =~= before.map_values(|h: MediaHashInput| h@).push(h@));
                assert(hs.take(k + 1).map_values(|h: MediaHash| hash_input_of(h)) =~= hs.take(k as int).map_values(|h: MediaHash| hash_input_of(h)).push(hash_input_of(hs[k as int])));
                assert(hs.take(k + 1).drop_last() =~= hs.take(k as int));
                assert(inputs@.map_values(|h: MediaHashInput| h@) =~= hs.take(k + 1).map_values(|h: MediaHash| hash_input_of(h)));
            }
            k = k + 1;
        }
        proof {
            assert(hs.take(hs.len() as int) =~= hs);
        }
        let ghost before = acts@;
        acts.push(TransferAction::AddHashes(inputs));
        proof {
            lemma_actions_push(before, acts@.last());
            assert(acts@ == before.push(acts@.last()));
        }
    }
    assert(actions_view(acts@) =~= start + bundle_actions(*b, media_ids@, tag_ids@));
    true
}

/// The writes of page `p` (see `page_actions`), and whether every bundle
/// can be copied.
fn page_writes(p: &Vec<MediaBundle>, media_ids: &IdMap, tag_ids: &IdMap) -> (r: (Vec<TransferAction>, bool))
    requires
        media_ids.wf(),
        tag_ids.wf(),
    ensures
        actions_view(r.0@) == page_actions(p@, media_ids@, tag_ids@),
        r.1 == page_ok(p@, media_ids@, tag_ids@),
{
    let mut acts: Vec<TransferAction> = Vec::new();
    let mut i: usize = 0;
    assert(p@.take(0) =~= Seq::<MediaBundle>::empty());
    assert(actions_view(acts@) =~= Seq::<ActionView>::empty());
    while i < p.len()
        invariant
            media_ids.wf(),
            tag_ids.wf(),
            i <= p@.len(),
            page_ok(p@.take(i as int), media_ids@, tag_ids@),
            actions_view(acts@) == page_actions(p@.take(i as int), media_ids@, tag_ids@),
        decreases p@.len() - i,
    {
        let ok = push_bundle_writes(&p[i], media_ids, tag_ids, &mut acts);
        let ghost t = p@.take(i + 1);
        proof {
            assert(t.drop_last() =~= p@.take(i as int));
            assert(t.last() == p@[i as int]);
            assert(actions_view(acts@) == page_actions(t, media_ids@, tag_ids@));
        }
        if !ok {
            proof {
                assert(!bundle_ok(t[i as int], media_ids@, tag_ids@));
                lemma_page_stop(p@, media_ids@, tag_ids@, i + 1, p@.len() as int);
                assert(p@.take(p@.len() as int) =~= p@);
            }
            return (acts, false);
        }
        proof {
            assert forall|j: int| 0 <= j < t.len() implies bundle_ok(#[trigger] t[j], media_ids@, tag_ids@) by {
                if j < i {
                    assert(t[j] == p@.take(i as int)[j]);
                }
            }
        }
        i = i + 1;
    }
    assert(p@.take(p@.len() as int) =~= p@);
    (acts, true)
}

fn names_of(tags: &Vec<Tag>) -> (r: Vec<String>)
    ensures
        r@.map_values(|t: String| t@) == tags@.map_values(|t: Tag| t.name@),
{
    let mut out: Vec<String> = Vec::new();
    let mut i: usize = 0;
    while i < tags.len()
        invariant
            i <= tags@.len(),
            out@.map_values(|t: String| t@) == tags@.take(i as int).map_values(|t: Tag| t.name@),
        decreases tags@.len() - i,
    {
        let ghost before = out@;
        out.push(tags[i].name.clone());
        proof {
            assert(out@.map_values(|t: String| t@) =~= before.map_values(|t: String| t@).push(tags@[i as int].name@));
            assert(tags@.take(i + 1).map_values(|t: Tag| t.name@) =~= tags@.take(i as int).map_values(|t: Tag| t.name@).push(tags@[i as int].name@));
        }
        i = i + 1;
    }
    assert(tags@.take(tags@.len() as int) =~= tags@);
    out
}

fn inputs_of(p: &Vec<MediaBundle>) -> (r: Vec<MediaInput>)
    ensures
        r@.map_values(|m: MediaInput| m@) == page_inputs(p@),
{
    let mut out: Vec<MediaInput> = Vec::new();
    let mut i: usize = 0;
    while i < p.len()
        invariant
            i <= p@.len(),
            out@.map_values(|m: MediaInput| m@) == page_inputs(p@.take(i as int)),
        decreases p@.len() - i,
    {
        let ghost before = out@;
        let m = media_to_input(&p[i].media);
        out.push(m);
        proof {
            assert(out@.map_values(|m: MediaInput| m@) =~= before.map_values(|m: MediaInput| m@).push(m@));
            assert(page_inputs(p@.take(i + 1)) =~= page_inputs(p@.take(i as int)).push(media_input_of(p@[i as int].media@)));
        }
        i = i + 1;
    }
    assert(p@.take(p@.len() as int) =~= p@);
    out
}

proof fn lemma_total_step(s: Seq<MediaBundle>, i: int, f: spec_fn(MediaBundle) -> nat)
    requires
        0 <= i < s.len(),
    ensures
        total_of(s.take(i + 1), f) == total_of(s.take(i), f) + f(s[i]),
{
    assert(s.take(i + 1).drop_last() =~= s.take(i));
}

/// The report after page `p` was moved (see `after_page`).
fn report_after(r: TransferReport, p: &Vec<MediaBundle>) -> (out: TransferReport)
    requires
        r.media + p@.len() <= usize::MAX,
        r.media_tags + links_total(p@) <= usize::MAX,
        r.attributes + attrs_total(p@) <= usize::MAX,
        r.hashes + hashes_total(p@) <= usize::MAX,
    ensures
        out == after_page(r, p@),
{
    let mut links: usize = r.media_tags;
    let mut attrs: usize = r.attributes;
    let mut hashes: usize = r.hashes;
    let mut i: usize = 0;
    while i < p.len()
        invariant
            i <= p@.len(),
            r.media_tags + links_total(p@) <= usize::MAX,
            r.attributes + attrs_total(p@) <= usize::MAX,
            r.hashes + hashes_total(p@) <= usize::MAX,
            links == r.media_tags + links_total(p@.take(i as int)),
            attrs == r.attributes + attrs_total(p@.take(i as int)),
            hashes == r.hashes + hashes_total(p@.take(i as int)),
        decreases p@.len() - i,
    {
        proof {
            lemma_total_step(p@, i as int, |b: MediaBundle| tag_links(b));
            lemma_total_step(p@, i as int, |b: MediaBundle| attr_rows(b));
            lemma_total_step(p@, i as int, |b: MediaBundle| hash_rows(b));
            lemma_total_prefix(p@, i + 1, |b: MediaBundle| tag_links(b));
            lemma_total_prefix(p@, i + 1, |b: MediaBundle| attr_rows(b));
            lemma_total_prefix(p@, i + 1, |b: MediaBundle| hash_rows(b));
        }
        links = links + p[i].tag_names.len();
        attrs = attrs + p[i].attributes.len();
        hashes = hashes + p[i].hashes.len();
        i = i + 1;
    }
    assert(p@.take(p@.len() as int) =~= p@);
    TransferReport { media: r.media + p.len(), media_tags: links, attributes: attrs, hashes, ..r }
}

/// Starts a transfer: the first action is the destination's migration.
pub fn transfer_start() -> (r: (TransferState, Vec<TransferAction>))
    ensures
        r.0.wf(),
        r.0@ == initial_state(),
        actions_view(r.1@) == seq![ActionView::MigrateDest],
{
    let s = TransferState {
        phase: TransferPhase::Migrating,
        tags: Vec::new(),
        next_tag: 0,
        tag_ids: IdMap::new(),
        media_ids: IdMap::new(),
        page: Vec::new(),
        report: TransferReport { media: 0, tags: 0, media_tags: 0, attributes: 0, hashes: 0, verified: false },
    };
    let acts = vec![TransferAction::MigrateDest];
    assert(s@.tags =~= Seq::<Seq<char>>::empty());
    assert(s@.page =~= Seq::<MediaBundle>::empty());
    assert(actions_view(acts@) =~= seq![ActionView::MigrateDest]);
    (s, acts)
}

fn read_page_action(r: &TransferReport, chunk: usize) -> (a: TransferAction)
    ensures
        a@ == (ActionView::ReadPage { offset: r.media as nat, limit: chunk as nat }),
{
    TransferAction::ReadPage { offset: r.media, limit: chunk }
}

/// One step of a transfer: the state after `event` and the actions to
/// perform, in order (see `transfer_spec`). The caller performs them and
/// hands back what came of the last one; `Done` and `Fail` end the
/// transfer.
pub fn transfer_step(state: TransferState, event: TransferEvent, opts: &TransferOptions) -> (r: (TransferState, Vec<TransferAction>))
    requires
        state.wf(),
        step_fits(state@, event@),
    ensures
        r.0.wf(),
        r.0@ == transfer_spec(state@, event@, opts.chunk_size as nat).0,
        actions_view(r.1@) == transfer_spec(state@, event@, opts.chunk_size as nat).1,
{
    let chunk = page_size(opts);
    let ghost c = opts.chunk_size as nat;
    assert(chunk as nat == eff_chunk(c));
    let ghost s0 = state@;
    let ghost e0 = event@;
    let mut s = state;
    match event {
        TransferEvent::Failed(e) => {
            s.phase = TransferPhase::Finished;
            let acts = vec![TransferAction::Fail(e)];
            assert(actions_view(acts@) =~= transfer_spec(s0, e0, c).1);
            (s, acts)
        },
        TransferEvent::Migrated => {
            if s.phase == TransferPhase::Migrating {
                s.phase = TransferPhase::ReadingTags;
                let acts = vec![TransferAction::ReadSourceTags];
                assert(actions_view(acts@) =~= transfer_spec(s0, e0, c).1);
                (s, acts)
            } else {
                let acts: Vec<TransferAction> = Vec::new();
                assert(actions_view(acts@) =~= transfer_spec(s0, e0, c).1);
                (s, acts)
            }
        },
        TransferEvent::SourceTags(tags) => {
            if s.phase == TransferPhase::ReadingTags {
                let names = names_of(&tags);
                s.report.tags = names.len();
                s.tags = names;
                s.next_tag = 0;
                if s.tags.len() == 0 {
                    s.phase = TransferPhase::Paging;
                    let acts = vec![read_page_action(&s.report, chunk)];
                    assert(actions_view(acts@) =~= transfer_spec(s0, e0, c).1);
                    (s, acts)
                } else {
                    s.phase = TransferPhase::Tagging;
                    let acts = vec![TransferAction::GetOrCreateTag(s.tags[0].clone())];
                    assert(s@.tags[0] == s.tags@[0]@);
                    assert(actions_view(acts@) =~= transfer_spec(s0, e0, c).1);
                    (s, acts)
                }
            } else {
                let acts: Vec<TransferAction> = Vec::new();
                assert(actions_view(acts@) =~= transfer_spec(s0, e0, c).1);
                (s, acts)
            }
        },
        TransferEvent::TagId(id) => {
            if s.phase == TransferPhase::Tagging {
                let k = s.next_tag;
                assert(k < s.tags.len());
                s.tag_ids.insert(s.tags[k].as_str(), id);
                assert(s0.tags[k as int] == s.tags@[k as int]@);
                s.next_tag = k + 1;
                if s.next_tag < s.tags.len() {
                    let acts = vec![TransferAction::GetOrCreateTag(s.tags[s.next_tag].clone())];
                    assert(s0.tags[(k + 1) as int] == s.tags@[(k + 1) as int]@);
                    assert(actions_view(acts@) =~= transfer_spec(s0, e0, c).1);
                    (s, acts)
                } else {
                    s.phase = TransferPhase::Paging;
                    let acts = vec![read_page_action(&s.report, chunk)];
                    assert(actions_view(acts@) =~= transfer_spec(s0, e0, c).1);
                    (s, acts)
                }
            } else {
                let acts: Vec<TransferAction> = Vec::new();
                assert(actions_view(acts@) =~= transfer_spec(s0, e0, c).1);
                (s, acts)
            }
        },
        TransferEvent::Page(p) => {
            if s.phase == TransferPhase::Paging {
                if p.len() == 0 {
                    s.phase = TransferPhase::Verifying;
                    let acts = vec![TransferAction::ReadBothForVerify];
                    assert(actions_view(acts@) =~= transfer_spec(s0, e0, c).1);
                    (s, acts)
                } else {
                    let inputs = inputs_of(&p);
                    s.phase = TransferPhase::Creating;
                    s.page = p;
                    let acts = vec![TransferAction::CreateMedia(inputs)];
                    assert(actions_view(acts@) =~= transfer_spec(s0, e0, c).1);
                    (s, acts)
                }
            } else {
                let acts: Vec<TransferAction> = Vec::new();
                assert(actions_view(acts@) =~= transfer_spec(s0, e0, c).1);
                (s, acts)
            }
        },
        TransferEvent::Created(created) => {
            if s.phase == TransferPhase::Creating {
                record_created(&mut s.media_ids, &created);
                s.report = report_after(s.report, &s.page);
                let (mut acts, ok) = page_writes(&s.page, &s.media_ids, &s.tag_ids);
                if !ok {
                    s.phase = TransferPhase::Finished;
                } else if more_pages(s.page.len(), chunk) {
                    s.phase = TransferPhase::Paging;
                    let ghost before = acts@;
                    acts.push(read_page_action(&s.report, chunk));
                    proof {
                        lemma_actions_push(before, acts@.last());
                        assert(acts@ == before.push(acts@.last()));
                    }
                } else {
                    s.phase = TransferPhase::Verifying;
                    let ghost before = acts@;
                    acts.push(TransferAction::ReadBothForVerify);
                    proof {
                        lemma_actions_push(before, acts@.last());
                        assert(acts@ == before.push(acts@.last()));
                    }
                }
                assert(actions_view(acts@) =~= transfer_spec(s0, e0, c).1);
                (s, acts)
            } else {
                let acts: Vec<TransferAction> = Vec::new();
                assert(actions_view(acts@) =~= transfer_spec(s0, e0, c).1);
                (s, acts)
            }
        },
        TransferEvent::Compared { source, dest, source_tags, dest_tags } => {
            if s.phase == TransferPhase::Verifying {
                s.phase = TransferPhase::Finished;
                let acts = match verify_transfer(&source, &dest, &source_tags, &dest_tags) {
                    Ok(_) => vec![TransferAction::Done(TransferReport { verified: true, ..s.report })],
                    Err(e) => vec![TransferAction::Fail(e)],
                };
                assert(actions_view(acts@) =~= transfer_spec(s0, e0, c).1);
                (s, acts)
            } else {
                let acts: Vec<TransferAction> = Vec::new();
                assert(actions_view(acts@) =~= transfer_spec(s0, e0, c).1);
                (s, acts)
            }
        },
    }
}

} // verus!
