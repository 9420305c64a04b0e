//! Whole runs of the transfer machine against a destination that carries
//! out every write, and what such a run ends with.
use vstd::prelude::*;
use crate::transfer::{
    TransferReport, MediaBundle, total_of, tag_links, attr_rows, hash_rows, uuid_ids, transfer_check,
    media_problem, relation_problem, last_with_uuid, same_content, lemma_total_prefix,
};
use crate::transfer_flow::{
    TransferStateView, TransferPhase, ActionView, EventView, transfer_spec, initial_state, read_page, eff_chunk,
    links_total, attrs_total, hashes_total, page_ok, bundle_ok, after_page,
};
use crate::types::{Media, Tag};

verus! {

/// A source database and the ids that the destination hands out: the
/// source's tags and its media items ordered by id, each with its tag
/// names, attributes and hashes; the id of each new tag by name and of each
/// new media item by uuid.
pub struct EchoSource {
    pub tags: Seq<Tag>,
    pub src: Seq<MediaBundle>,
    pub tag_id: spec_fn(Seq<char>) -> i64,
    pub media_id: spec_fn(Seq<char>) -> i64,
}

/// Names of the tags, as text.
pub open spec fn tag_name_views(tags: Seq<Tag>) -> Seq<Seq<char>> {
    tags.map_values(|t: Tag| t.name@)
}

/// Names of the tags.
pub open spec fn tag_name_strings(tags: Seq<Tag>) -> Seq<String> {
    tags.map_values(|t: Tag| t.name)
}

/// The media items created from page `p`: the same items, each with the
/// id that `media_id` gives its uuid.
pub open spec fn created_from(p: Seq<MediaBundle>, media_id: spec_fn(Seq<char>) -> i64) -> Seq<Media> {
    p.map_values(|b: MediaBundle| Media { id: media_id(b.media.uuid@), ..b.media })
}

/// The destination's contents after a transfer of `src`: the same bundles,
/// each media item with its new id.
pub open spec fn copied(src: Seq<MediaBundle>, media_id: spec_fn(Seq<char>) -> i64) -> Seq<MediaBundle> {
    src.map_values(|b: MediaBundle| MediaBundle { media: Media { id: media_id(b.media.uuid@), ..b.media }, ..b })
}

/// The answer to action `a` in state `s`: the migration succeeds, reads of
/// the source give its tags and its pages, tags and media items are
/// created with the ids of `w`, and the final read gives the source and its
/// copy. Writes and the ends of a run get no answer.
pub open spec fn echo_answer(a: ActionView, s: TransferStateView, w: EchoSource) -> Option<EventView> {
    match a {
        ActionView::MigrateDest => Some(EventView::Migrated),
        ActionView::ReadSourceTags => Some(EventView::SourceTags(tag_name_views(w.tags))),
        ActionView::GetOrCreateTag(name) => Some(EventView::TagId((w.tag_id)(name))),
        ActionView::ReadPage { offset, limit } => {
            let n = w.src.len();
            let lo = if offset <= n { offset as int } else { n as int };
            let hi = if offset + limit <= n { (offset + limit) as int } else { n as int };
            Some(EventView::Page(w.src.subrange(lo, hi)))
        },
        ActionView::CreateMedia(_) => Some(EventView::Created(created_from(s.page, w.media_id))),
        ActionView::ReadBothForVerify => Some(EventView::Compared {
            source: w.src,
            dest: copied(w.src, w.media_id),
            source_tags: tag_name_strings(w.tags),
            dest_tags: tag_name_strings(w.tags),
        }),
        _ => None,
    }
}

/// At most `n` steps from state `s` with pending actions `acts`, each step
/// taking the answer to the last action; a run stops where no answer
/// comes.
pub open spec fn run(s: TransferStateView, acts: Seq<ActionView>, w: EchoSource, chunk: nat, n: nat)
    -> (TransferStateView, Seq<ActionView>)
    decreases n,
{
    if n == 0 || acts.len() == 0 {
        (s, acts)
    } else {
        match echo_answer(acts.last(), s, w) {
            None => (s, acts),
            Some(e) => {
                let next = transfer_spec(s, e, chunk);
                run(next.0, next.1, w, chunk, (n - 1) as nat)
            },
        }
    }
}

/// The source is a consistent database: no two media items share a uuid,
/// and every tag name of a media item is the name of one of its tags.
pub open spec fn source_consistent(w: EchoSource) -> bool {
    &&& forall|i: int, j: int| 0 <= i < j < w.src.len() ==> #[trigger] w.src[i].media.uuid@ != #[trigger] w.src[j].media.uuid@
    &&& forall|i: int, j: int| 0 <= i < w.src.len() && 0 <= j < w.src[i].tag_names@.len()
        ==> tag_name_views(w.tags).contains(#[trigger] w.src[i].tag_names@[j]@)
}

/// The counts of the source fit in `usize`.
pub open spec fn source_fits(w: EchoSource) -> bool {
    &&& w.src.len() <= usize::MAX
    &&& w.tags.len() <= usize::MAX
    &&& links_total(w.src) <= usize::MAX
    &&& attrs_total(w.src) <= usize::MAX
    &&& hashes_total(w.src) <= usize::MAX
}

/// The report of a complete, checked transfer of the source.
pub open spec fn full_report(w: EchoSource) -> TransferReport {
    TransferReport {
        media: w.src.len() as usize,
        tags: w.tags.len() as usize,
        media_tags: links_total(w.src) as usize,
        attributes: attrs_total(w.src) as usize,
        hashes: hashes_total(w.src) as usize,
        verified: true,
    }
}

proof fn lemma_run_add(s: TransferStateView, a: Seq<ActionView>, w: EchoSource, chunk: nat, n1: nat, n2: nat)
    ensures
        run(s, a, w, chunk, n1 + n2) == run(run(s, a, w, chunk, n1).0, run(s, a, w, chunk, n1).1, w, chunk, n2),
    decreases n1,
{
    if n1 == 0 {
    } else if a.len() == 0 || echo_answer(a.last(), s, w) is None {
        if n2 > 0 {
            assert(run(s, a, w, chunk, n2) == (s, a));
        }
    } else {
        let e = echo_answer(a.last(), s, w).unwrap();
        let next = transfer_spec(s, e, chunk);
        lemma_run_add(next.0, next.1, w, chunk, (n1 - 1) as nat, n2);
        assert(run(s, a, w, chunk, n1 + n2) == run(next.0, next.1, w, chunk, (n1 + n2 - 1) as nat));
        assert((n1 + n2 - 1) as nat == ((n1 - 1) as nat + n2) as nat);
    }
}

proof fn lemma_total_split(s: Seq<MediaBundle>, a: int, b: int, f: spec_fn(MediaBundle) -> nat)
    requires
        0 <= a <= b <= s.len(),
    ensures
        total_of(s.take(a), f) + total_of(s.subrange(a, b), f) == total_of(s.take(b), f),
    decreases b - a,
{
    if b == a {
        assert(s.subrange(a, b) =~= Seq::<MediaBundle>::empty());
    } else {
        lemma_total_split(s, a, b - 1, f);
        assert(s.take(b).drop_last() =~= s.take(b - 1));
        assert(s.subrange(a, b).drop_last() =~= s.subrange(a, b - 1));
    }
}

proof fn lemma_uuid_ids_keys(m: Map<Seq<char>, i64>, c: Seq<Media>)
    ensures
        forall|j: int| 0 <= j < c.len() ==> uuid_ids(m, c).contains_key(#[trigger] c[j].uuid@),
    decreases c.len(),
{
    if c.len() > 0 {
        lemma_uuid_ids_keys(m, c.drop_last());
        assert forall|j: int| 0 <= j < c.len() implies uuid_ids(m, c).contains_key(#[trigger] c[j].uuid@) by {
            if j < c.len() - 1 {
                assert(c.drop_last()[j] == c[j]);
            }
        }
    }
}

proof fn lemma_last_with_uuid_distinct(d: Seq<MediaBundle>, i: int)
    requires
        0 <= i < d.len(),
        forall|a: int, b: int| 0 <= a < b < d.len() ==> #[trigger] d[a].media.uuid@ != #[trigger] d[b].media.uuid@,
    ensures
        last_with_uuid(d, d[i].media@.uuid) == Some(i),
    decreases d.len(),
{
    if i < d.len() - 1 {
        assert(d[i].media.uuid@ != d[d.len() - 1].media.uuid@);
        let e = d.drop_last();
        assert(e[i] == d[i]);
        assert forall|a: int, b: int| 0 <= a < b < e.len() implies #[trigger] e[a].media.uuid@ != #[trigger] e[b].media.uuid@ by {
            assert(e[a] == d[a] && e[b] == d[b]);
        }
        lemma_last_with_uuid_distinct(e, i);
    }
}

proof fn lemma_copy_checks(src: Seq<MediaBundle>, media_id: spec_fn(Seq<char>) -> i64, names: Seq<String>)
    requires
        forall|a: int, b: int| 0 <= a < b < src.len() ==> #[trigger] src[a].media.uuid@ != #[trigger] src[b].media.uuid@,
    ensures
        transfer_check(src, copied(src, media_id), names, names) is Ok,
{
    let d = copied(src, media_id);
    assert forall|a: int, b: int| 0 <= a < b < d.len() implies #[trigger] d[a].media.uuid@ != #[trigger] d[b].media.uuid@ by {
        assert(d[a].media.uuid == src[a].media.uuid && d[b].media.uuid == src[b].media.uuid);
    }
    assert forall|k: int| 0 <= k < src.len() implies last_with_uuid(d, #[trigger] src[k].media@.uuid) == Some(k) by {
        lemma_last_with_uuid_distinct(d, k);
        assert(d[k].media@.uuid == src[k].media@.uuid);
    }
    lemma_no_problems(src, d, 0);
}

proof fn lemma_no_problems(src: Seq<MediaBundle>, d: Seq<MediaBundle>, i: int)
    requires
        0 <= i <= src.len(),
        d.len() == src.len(),
        forall|k: int| 0 <= k < src.len() ==> last_with_uuid(d, #[trigger] src[k].media@.uuid) == Some(k),
        forall|k: int| 0 <= k < src.len() ==> #[trigger] d[k] == (MediaBundle { media: Media { id: d[k].media.id, ..src[k].media }, ..src[k] }),
    ensures
        media_problem(src, d, i) is None,
        relation_problem(src, d, i) is None,
    decreases src.len() - i,
{
    if i < src.len() {
        lemma_no_problems(src, d, i + 1);
        assert(last_with_uuid(d, src[i].media@.uuid) == Some(i));
        assert(d[i] == (MediaBundle { media: Media { id: d[i].media.id, ..src[i].media }, ..src[i] }));
        assert(same_content(src[i].media@, d[i].media@));
    }
}

proof fn lemma_tagging(s: TransferStateView, a: Seq<ActionView>, w: EchoSource, chunk: nat) -> (n: nat)
    requires
        s.phase == TransferPhase::Tagging,
        s.next_tag < s.tags.len(),
        a.len() > 0,
        a.last() == ActionView::GetOrCreateTag(s.tags[s.next_tag as int]),
        forall|j: int| 0 <= j < s.next_tag ==> s.tag_ids.contains_key(#[trigger] s.tags[j]),
    ensures
        run(s, a, w, chunk, n).0 == (TransferStateView {
            phase: TransferPhase::Paging,
            next_tag: s.tags.len(),
            tag_ids: run(s, a, w, chunk, n).0.tag_ids,
            ..s
        }),
        run(s, a, w, chunk, n).1 == seq![read_page(s.report, chunk)],
        forall|j: int| 0 <= j < s.tags.len() ==> run(s, a, w, chunk, n).0.tag_ids.contains_key(#[trigger] s.tags[j]),
    decreases s.tags.len() - s.next_tag,
{
    let k = s.next_tag;
    let e = EventView::TagId((w.tag_id)(s.tags[k as int]));
    assert(echo_answer(a.last(), s, w) == Some(e));
    let next = transfer_spec(s, e, chunk);
    if k + 1 < s.tags.len() {
        let n1 = lemma_tagging(next.0, next.1, w, chunk);
        assert(run(s, a, w, chunk, n1 + 1) == run(next.0, next.1, w, chunk, n1));
        n1 + 1
    } else {
        assert(run(s, a, w, chunk, 1) == run(next.0, next.1, w, chunk, 0));
        1
    }
}

proof fn lemma_paging(s: TransferStateView, a: Seq<ActionView>, w: EchoSource, chunk: nat) -> (n: nat)
    requires
        s.phase == TransferPhase::Paging,
        a.len() > 0,
        a.last() == read_page(s.report, chunk),
        s.report.media <= w.src.len(),
        s.report.media_tags == links_total(w.src.take(s.report.media as int)),
        s.report.attributes == attrs_total(w.src.take(s.report.media as int)),
        s.report.hashes == hashes_total(w.src.take(s.report.media as int)),
        source_fits(w),
        forall|i: int, j: int| 0 <= i < w.src.len() && 0 <= j < w.src[i].tag_names@.len()
            ==> s.tag_ids.contains_key(#[trigger] w.src[i].tag_names@[j]@),
    ensures
        run(s, a, w, chunk, n).0.phase == TransferPhase::Verifying,
        run(s, a, w, chunk, n).1.len() > 0,
        run(s, a, w, chunk, n).1.last() == ActionView::ReadBothForVerify,
        run(s, a, w, chunk, n).0.report == (TransferReport {
            media: w.src.len() as usize,
            media_tags: links_total(w.src) as usize,
            attributes: attrs_total(w.src) as usize,
            hashes: hashes_total(w.src) as usize,
            ..s.report
        }),
    decreases w.src.len() - s.report.media,
{
    let off = s.report.media as int;
    let m = w.src.len() as int;
    let c = eff_chunk(chunk);
    let hi = if off + c <= m { off + c } else { m };
    let p = w.src.subrange(off, hi);
    assert(echo_answer(a.last(), s, w) == Some(EventView::Page(p)));
    let s1 = transfer_spec(s, EventView::Page(p), chunk);
    if off == m {
        assert(p.len() == 0);
        assert(w.src.take(m) =~= w.src);
        assert(run(s, a, w, chunk, 1) == run(s1.0, s1.1, w, chunk, 0));
        1
    } else {
        let c2 = created_from(p, w.media_id);
        assert(s1.0.page == p);
        assert(echo_answer(s1.1.last(), s1.0, w) == Some(EventView::Created(c2)));
        let s2 = transfer_spec(s1.0, EventView::Created(c2), chunk);
        let ids = uuid_ids(s.media_ids, c2);
        lemma_uuid_ids_keys(s.media_ids, c2);
        assert forall|i: int| 0 <= i < p.len() implies bundle_ok(#[trigger] p[i], ids, s.tag_ids) by {
            assert(c2[i].uuid@ == p[i].media.uuid@);
            assert(p[i] == w.src[off + i]);
            assert forall|j: int| 0 <= j < p[i].tag_names@.len() implies s.tag_ids.contains_key(#[trigger] p[i].tag_names@[j]@) by {
                assert(w.src[off + i].tag_names@[j] == p[i].tag_names@[j]);
            }
        }
        assert(page_ok(p, ids, s.tag_ids));
        lemma_total_split(w.src, off, hi, |b: MediaBundle| tag_links(b));
        lemma_total_split(w.src, off, hi, |b: MediaBundle| attr_rows(b));
        lemma_total_split(w.src, off, hi, |b: MediaBundle| hash_rows(b));
        lemma_total_prefix(w.src, hi, |b: MediaBundle| tag_links(b));
        lemma_total_prefix(w.src, hi, |b: MediaBundle| attr_rows(b));
        lemma_total_prefix(w.src, hi, |b: MediaBundle| hash_rows(b));
        let r = after_page(s.report, p);
        assert(r.media == hi);
        assert(s2.0.report == r);
        if p.len() >= c {
            assert(s2.1.last() == read_page(r, chunk));
            let n1 = lemma_paging(s2.0, s2.1, w, chunk);
            assert(run(s1.0, s1.1, w, chunk, n1 + 1) == run(s2.0, s2.1, w, chunk, n1));
            assert(run(s, a, w, chunk, n1 + 2) == run(s1.0, s1.1, w, chunk, n1 + 1));
            n1 + 2
        } else {
            assert(hi == m);
            assert(w.src.take(m) =~= w.src);
            assert(run(s1.0, s1.1, w, chunk, 1) == run(s2.0, s2.1, w, chunk, 0));
            assert(run(s, a, w, chunk, 2) == run(s1.0, s1.1, w, chunk, 1));
            2
        }
    }
}

/// A transfer from a consistent source into a destination that carries out
/// every write and answers every read with what it holds ends, after some
/// number of steps and for every chunk size, with the single action `Done`:
/// its report counts the source's media items, tags, tag links, attributes
/// and hashes, and says that the comparison of both databases passed.
pub proof fn law_transfer_moves_everything(w: EchoSource, chunk: nat)
    requires
        source_consistent(w),
        source_fits(w),
    ensures
        exists|n: nat| #[trigger] run(initial_state(), seq![ActionView::MigrateDest], w, chunk, n).1
            == seq![ActionView::Done(full_report(w))],
{
    let s0 = initial_state();
    let a0 = seq![ActionView::MigrateDest];
    let names = tag_name_views(w.tags);
    let t1 = transfer_spec(s0, EventView::Migrated, chunk);
    assert(echo_answer(a0.last(), s0, w) == Some(EventView::Migrated));
    assert(echo_answer(t1.1.last(), t1.0, w) == Some(EventView::SourceTags(names)));
    let t2 = transfer_spec(t1.0, EventView::SourceTags(names), chunk);
    assert(run(t1.0, t1.1, w, chunk, 1) == run(t2.0, t2.1, w, chunk, 0));
    assert(run(s0, a0, w, chunk, 2) == run(t1.0, t1.1, w, chunk, 1));
    let na: nat = if names.len() == 0 { 0 } else { lemma_tagging(t2.0, t2.1, w, chunk) };
    let t3 = run(t2.0, t2.1, w, chunk, na);
    assert(t3.0.phase == TransferPhase::Paging);
    assert(t3.0.report == (TransferReport { tags: w.tags.len() as usize, ..s0.report }));
    assert(t3.1 == seq![read_page(t3.0.report, chunk)]);
    assert forall|j: int| 0 <= j < names.len() implies t3.0.tag_ids.contains_key(#[trigger] names[j]) by {
        assert(t2.0.tags == names);
    }
    assert forall|i: int, j: int| 0 <= i < w.src.len() && 0 <= j < w.src[i].tag_names@.len()
        implies t3.0.tag_ids.contains_key(#[trigger] w.src[i].tag_names@[j]@) by {
        assert(names.contains(w.src[i].tag_names@[j]@));
        let k = choose|k: int| 0 <= k < names.len() && names[k] == w.src[i].tag_names@[j]@;
        assert(t3.0.tag_ids.contains_key(names[k]));
    }
    assert(w.src.take(0) =~= Seq::<MediaBundle>::empty());
    let nb = lemma_paging(t3.0, t3.1, w, chunk);
    let t4 = run(t3.0, t3.1, w, chunk, nb);
    let st = tag_name_strings(w.tags);
    lemma_copy_checks(w.src, w.media_id, st);
    let e = EventView::Compared { source: w.src, dest: copied(w.src, w.media_id), source_tags: st, dest_tags: st };
    assert(echo_answer(t4.1.last(), t4.0, w) == Some(e));
    let t5 = transfer_spec(t4.0, e, chunk);
    assert(t5.1 == seq![ActionView::Done(full_report(w))]);
    assert(run(t4.0, t4.1, w, chunk, 1) == run(t5.0, t5.1, w, chunk, 0));
    lemma_run_add(s0, a0, w, chunk, 2, na + nb + 1);
    lemma_run_add(t2.0, t2.1, w, chunk, na, nb + 1);
    lemma_run_add(t3.0, t3.1, w, chunk, nb, 1);
    let n: nat = 2 + na + nb + 1;
    assert(run(s0, a0, w, chunk, n).1 == seq![ActionView::Done(full_report(w))]);
}

} // verus!
