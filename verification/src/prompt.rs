//! The review prompt: a Japanese text that asks a language model to
//! explain a production/staging diff (what changes, what it affects, the
//! risks, and whether to promote).
use vstd::prelude::*;
use crate::diff::{DiffCounts, BackupDiff, MediaDiff, TagDiff, MediaTagAssocDiff, AttributeDiff, HashDiff};
use crate::summary::{ProdStgDiffSummary, DiffDistribution, artist_key};
use crate::table::{views, change_views, RowChange};
use crate::tally::{entry_views};
use crate::transfer::{str_debug, debug_str};
use crate::text::{push_str, push_i64, push_usize, dec_int, dec_nat};
use crate::types::{Media, MediaView, Tag, TagView, MediaTagAssoc, MediaTagAssocView, MediaAttribute,
    MediaAttributeView, MediaHash, MediaHashView, media_type_text, opt_str_view};

verus! {

broadcast use vstd::std_specs::vec::group_vec_axioms;

/// Rust's debug rendering of an optional text: `None`, or `Some(` and the
/// text quoted and escaped as `str`'s debug form does, then `)`.
pub open spec fn debug_text(v: Option<Seq<char>>) -> Seq<char> {
    match v {
        None => "None"@,
        Some(s) => "Some("@ + str_debug(s) + ")"@,
    }
}

/// Renders an optional text as Rust's debug formatting does.
fn debug_opt_text(v: &Option<String>) -> (r: String)
    ensures
        r@ == debug_text(opt_str_view(*v)),
{
    match v {
        None => "None".to_string(),
        Some(s) => {
            let mut out = "Some(".to_string();
            let q = debug_str(s.as_str());
            push_str(&mut out, q.as_str());
            push_str(&mut out, ")");
            out
        }
    }
}

/// Concatenation of `f` applied to each element of `s`.
pub open spec fn lines_of<A>(s: Seq<A>, f: spec_fn(A) -> Seq<char>) -> Seq<char>
    decreases s.len(),
{
    if s.len() == 0 {
        Seq::empty()
    } else {
        lines_of(s.drop_last(), f) + f(s.last())
    }
}

proof fn lemma_lines_step<A>(s: Seq<A>, f: spec_fn(A) -> Seq<char>, i: int)
    requires
        0 <= i < s.len(),
    ensures
        lines_of(s.take(i + 1), f) == lines_of(s.take(i), f) + f(s[i]),
{
    assert(s.take(i + 1).drop_last() =~= s.take(i));
}

/// The first `n` elements of `s` (all when there are fewer).
pub open spec fn first_n<A>(s: Seq<A>, n: nat) -> Seq<A> {
    if s.len() > n { s.take(n as int) } else { s }
}

/// Counts as `+{added} -{removed} ~{changed}`.
pub open spec fn counts_text(a: usize, r: usize, c: usize) -> Seq<char> {
    "+"@ + dec_nat(a as nat) + " -"@ + dec_nat(r as nat) + " ~"@ + dec_nat(c as nat)
}

/// A distribution line: `- {label}: +a -r ~c`.
pub open spec fn counts_line(label: Seq<char>, c: DiffCounts) -> Seq<char> {
    "- "@ + label + ": "@ + counts_text(c.added, c.removed, c.changed) + "\n"@
}

/// A row of the count table: `{prefix}a | r | c |`.
pub open spec fn count_row(prefix: Seq<char>, c: DiffCounts) -> Seq<char> {
    prefix + dec_nat(c.added as nat) + " | "@ + dec_nat(c.removed as nat) + " | "@ + dec_nat(c.changed as nat) + " |\n"@
}

/// Heading of a sample list: `### {table} ({kind}: 最大{max}件)`.
pub open spec fn sample_heading(table: Seq<char>, kind: Seq<char>, max: usize) -> Seq<char> {
    "### "@ + table + " ("@ + kind + ": 最大"@ + dec_nat(max as nat) + "件)\n"@
}

fn push_counts(out: &mut String, a: usize, r: usize, c: usize)
    ensures
        final(out)@ == old(out)@ + counts_text(a, r, c),
{
    push_str(out, "+");
    push_usize(out, a);
    push_str(out, " -");
    push_usize(out, r);
    push_str(out, " ~");
    push_usize(out, c);
    assert(out@ =~= old(out)@ + counts_text(a, r, c));
}

fn push_sample_heading(out: &mut String, table: &str, kind: &str, max: usize)
    ensures
        final(out)@ == old(out)@ + sample_heading(table@, kind@, max),
{
    push_str(out, "### ");
    push_str(out, table);
    push_str(out, " (");
    push_str(out, kind);
    push_str(out, ": 最大");
    push_usize(out, max);
    push_str(out, "件)\n");
    assert(out@ =~= old(out)@ + sample_heading(table@, kind@, max));
}

fn push_count_row(out: &mut String, prefix: &str, c: DiffCounts)
    ensures
        final(out)@ == old(out)@ + count_row(prefix@, c),
{
    push_str(out, prefix);
    push_usize(out, c.added);
    push_str(out, " | ");
    push_usize(out, c.removed);
    push_str(out, " | ");
    push_usize(out, c.changed);
    push_str(out, " |\n");
    assert(out@ =~= old(out)@ + count_row(prefix@, c));
}
/// One sample line.
pub open spec fn media_added_line(x: MediaView) -> Seq<char> {
    "- id="@ + dec_int(x.id as int) + " title=\""@ + x.title + "\" type="@ + media_type_text(x.media_type) + " artist="@ + artist_key(x) + "\n"@
}

fn push_media_added_line(out: &mut String, x: &Media)
    ensures
        final(out)@ == old(out)@ + media_added_line(x@),
{
    proof {
        reveal_strlit("unknown");
    }
    let ghost start = out@;
    push_str(out, "- id=");
    push_i64(out, x.id);
    push_str(out, " title=\"");
    push_str(out, x.title.as_str());
    push_str(out, "\" type=");
    push_str(out, x.media_type.as_str());
    push_str(out, " artist=");
    match &x.artist { Some(a) => push_str(out, a.as_str()), None => push_str(out, "unknown") }
    push_str(out, "\n");
    assert(out@ =~= start + media_added_line(x@));
}

fn push_media_added_lines(out: &mut String, s: &Vec<Media>, max: usize)
    ensures
        final(out)@ == old(out)@ + lines_of(first_n(views(s@), max as nat), |x: MediaView| media_added_line(x)),
{
    let ghost sv = views(s@);
    let ghost f = |x: MediaView| media_added_line(x);
    let ghost start = out@;
    let limit: usize = if s.len() > max { max } else { s.len() };
    let mut i: usize = 0;
    while i < limit
        invariant
            sv == views(s@),
            f == |x: MediaView| media_added_line(x),
            limit <= s@.len(),
            i <= limit,
            out@ == start + lines_of(sv.take(i as int), f),
        decreases limit - i,
    {
        push_media_added_line(out, &s[i]);
        proof {
            lemma_lines_step(sv, f, i as int);
            assert(sv[i as int] == s@[i as int]@);
        }
        i = i + 1;
    }
    proof {
        assert(sv.take(limit as int) =~= first_n(sv, max as nat));
    }
}

/// One sample line.
pub open spec fn media_removed_line(x: MediaView) -> Seq<char> {
    "- id="@ + dec_int(x.id as int) + " title=\""@ + x.title + "\" type="@ + media_type_text(x.media_type) + "\n"@
}

fn push_media_removed_line(out: &mut String, x: &Media)
    ensures
        final(out)@ == old(out)@ + media_removed_line(x@),
{
    let ghost start = out@;
    push_str(out, "- id=");
    push_i64(out, x.id);
    push_str(out, " title=\"");
    push_str(out, x.title.as_str());
    push_str(out, "\" type=");
    push_str(out, x.media_type.as_str());
    push_str(out, "\n");
    assert(out@ =~= start + media_removed_line(x@));
}

fn push_media_removed_lines(out: &mut String, s: &Vec<Media>, max: usize)
    ensures
        final(out)@ == old(out)@ + lines_of(first_n(views(s@), max as nat), |x: MediaView| media_removed_line(x)),
{
    let ghost sv = views(s@);
    let ghost f = |x: MediaView| media_removed_line(x);
    let ghost start = out@;
    let limit: usize = if s.len() > max { max } else { s.len() };
    let mut i: usize = 0;
    while i < limit
        invariant
            sv == views(s@),
            f == |x: MediaView| media_removed_line(x),
            limit <= s@.len(),
            i <= limit,
            out@ == start + lines_of(sv.take(i as int), f),
        decreases limit - i,
    {
        push_media_removed_line(out, &s[i]);
        proof {
            lemma_lines_step(sv, f, i as int);
            assert(sv[i as int] == s@[i as int]@);
        }
        i = i + 1;
    }
    proof {
        assert(sv.take(limit as int) =~= first_n(sv, max as nat));
    }
}

/// One sample line.
pub open spec fn media_changed_line(x: (MediaView, MediaView)) -> Seq<char> {
    "- id="@ + dec_int(x.0.id as int) + " title: \""@ + x.0.title + "\" -> \""@ + x.1.title + "\"\n"@
}

fn push_media_changed_line(out: &mut String, x: &RowChange<Media>)
    ensures
        final(out)@ == old(out)@ + media_changed_line((x.current@, x.backup@)),
{
    let ghost start = out@;
    push_str(out, "- id=");
    push_i64(out, x.current.id);
    push_str(out, " title: \"");
    push_str(out, x.current.title.as_str());
    push_str(out, "\" -> \"");
    push_str(out, x.backup.title.as_str());
    push_str(out, "\"\n");
    assert(out@ =~= start + media_changed_line((x.current@, x.backup@)));
}

fn push_media_changed_lines(out: &mut String, s: &Vec<RowChange<Media>>, max: usize)
    ensures
        final(out)@ == old(out)@ + lines_of(first_n(change_views(s@), max as nat), |x: (MediaView, MediaView)| media_changed_line(x)),
{
    let ghost sv = change_views(s@);
    let ghost f = |x: (MediaView, MediaView)| media_changed_line(x);
    let ghost start = out@;
    let limit: usize = if s.len() > max { max } else { s.len() };
    let mut i: usize = 0;
    while i < limit
        invariant
            sv == change_views(s@),
            f == |x: (MediaView, MediaView)| media_changed_line(x),
            limit <= s@.len(),
            i <= limit,
            out@ == start + lines_of(sv.take(i as int), f),
        decreases limit - i,
    {
        push_media_changed_line(out, &s[i]);
        proof {
            lemma_lines_step(sv, f, i as int);
            assert(sv[i as int] == (s@[i as int].current@, s@[i as int].backup@));
        }
        i = i + 1;
    }
    proof {
        assert(sv.take(limit as int) =~= first_n(sv, max as nat));
    }
}

/// One sample line.
pub open spec fn tag_line(x: TagView) -> Seq<char> {
    "- id="@ + dec_int(x.id as int) + " name=\""@ + x.name + "\"\n"@
}

fn push_tag_line(out: &mut String, x: &Tag)
    ensures
        final(out)@ == old(out)@ + tag_line(x@),
{
    let ghost start = out@;
    push_str(out, "- id=");
    push_i64(out, x.id);
    push_str(out, " name=\"");
    push_str(out, x.name.as_str());
    push_str(out, "\"\n");
    assert(out@ =~= start + tag_line(x@));
}

fn push_tag_lines(out: &mut String, s: &Vec<Tag>, max: usize)
    ensures
        final(out)@ == old(out)@ + lines_of(first_n(views(s@), max as nat), |x: TagView| tag_line(x)),
{
    let ghost sv = views(s@);
    let ghost f = |x: TagView| tag_line(x);
    let ghost start = out@;
    let limit: usize = if s.len() > max { max } else { s.len() };
    let mut i: usize = 0;
    while i < limit
        invariant
            sv == views(s@),
            f == |x: TagView| tag_line(x),
            limit <= s@.len(),
            i <= limit,
            out@ == start + lines_of(sv.take(i as int), f),
        decreases limit - i,
    {
        push_tag_line(out, &s[i]);
        proof {
            lemma_lines_step(sv, f, i as int);
            assert(sv[i as int] == s@[i as int]@);
        }
        i = i + 1;
    }
    proof {
        assert(sv.take(limit as int) =~= first_n(sv, max as nat));
    }
}

/// One sample line.
pub open spec fn tag_changed_line(x: (TagView, TagView)) -> Seq<char> {
    "- id="@ + dec_int(x.0.id as int) + " name: \""@ + x.0.name + "\" -> \""@ + x.1.name + "\"\n"@
}

fn push_tag_changed_line(out: &mut String, x: &RowChange<Tag>)
    ensures
        final(out)@ == old(out)@ + tag_changed_line((x.current@, x.backup@)),
{
    let ghost start = out@;
    push_str(out, "- id=");
    push_i64(out, x.current.id);
    push_str(out, " name: \"");
    push_str(out, x.current.name.as_str());
    push_str(out, "\" -> \"");
    push_str(out, x.backup.name.as_str());
    push_str(out, "\"\n");
    assert(out@ =~= start + tag_changed_line((x.current@, x.backup@)));
}

fn push_tag_changed_lines(out: &mut String, s: &Vec<RowChange<Tag>>, max: usize)
    ensures
        final(out)@ == old(out)@ + lines_of(first_n(change_views(s@), max as nat), |x: (TagView, TagView)| tag_changed_line(x)),
{
    let ghost sv = change_views(s@);
    let ghost f = |x: (TagView, TagView)| tag_changed_line(x);
    let ghost start = out@;
    let limit: usize = if s.len() > max { max } else { s.len() };
    let mut i: usize = 0;
    while i < limit
        invariant
            sv == change_views(s@),
            f == |x: (TagView, TagView)| tag_changed_line(x),
            limit <= s@.len(),
            i <= limit,
            out@ == start + lines_of(sv.take(i as int), f),
        decreases limit - i,
    {
        push_tag_changed_line(out, &s[i]);
        proof {
            lemma_lines_step(sv, f, i as int);
            assert(sv[i as int] == (s@[i as int].current@, s@[i as int].backup@));
        }
        i = i + 1;
    }
    proof {
        assert(sv.take(limit as int) =~= first_n(sv, max as nat));
    }
}

/// One sample line.
pub open spec fn link_line(x: MediaTagAssocView) -> Seq<char> {
    "- media_id="@ + dec_int(x.media_id as int) + " tag_id="@ + dec_int(x.tag_id as int) + "\n"@
}

fn push_link_line(out: &mut String, x: &MediaTagAssoc)
    ensures
        final(out)@ == old(out)@ + link_line(x@),
{
    let ghost start = out@;
    push_str(out, "- media_id=");
    push_i64(out, x.media_id);
    push_str(out, " tag_id=");
    push_i64(out, x.tag_id);
    push_str(out, "\n");
    assert(out@ =~= start + link_line(x@));
}

fn push_link_lines(out: &mut String, s: &Vec<MediaTagAssoc>, max: usize)
    ensures
        final(out)@ == old(out)@ + lines_of(first_n(views(s@), max as nat), |x: MediaTagAssocView| link_line(x)),
{
    let ghost sv = views(s@);
    let ghost f = |x: MediaTagAssocView| link_line(x);
    let ghost start = out@;
    let limit: usize = if s.len() > max { max } else { s.len() };
    let mut i: usize = 0;
    while i < limit
        invariant
            sv == views(s@),
            f == |x: MediaTagAssocView| link_line(x),
            limit <= s@.len(),
            i <= limit,
            out@ == start + lines_of(sv.take(i as int), f),
        decreases limit - i,
    {
        push_link_line(out, &s[i]);
        proof {
            lemma_lines_step(sv, f, i as int);
            assert(sv[i as int] == s@[i as int]@);
        }
        i = i + 1;
    }
    proof {
        assert(sv.take(limit as int) =~= first_n(sv, max as nat));
    }
}

/// One sample line.
pub open spec fn attr_added_line(x: MediaAttributeView) -> Seq<char> {
    "- media_id="@ + dec_int(x.media_id as int) + " key=\""@ + x.key + "\" value="@ + debug_text(x.value) + "\n"@
}

fn push_attr_added_line(out: &mut String, x: &MediaAttribute)
    ensures
        final(out)@ == old(out)@ + attr_added_line(x@),
{
    let ghost start = out@;
    push_str(out, "- media_id=");
    push_i64(out, x.media_id);
    push_str(out, " key=\"");
    push_str(out, x.key.as_str());
    push_str(out, "\" value=");
    let v = debug_opt_text(&x.value);
    push_str(out, v.as_str());
    push_str(out, "\n");
    assert(out@ =~= start + attr_added_line(x@));
}

fn push_attr_added_lines(out: &mut String, s: &Vec<MediaAttribute>, max: usize)
    ensures
        final(out)@ == old(out)@ + lines_of(first_n(views(s@), max as nat), |x: MediaAttributeView| attr_added_line(x)),
{
    let ghost sv = views(s@);
    let ghost f = |x: MediaAttributeView| attr_added_line(x);
    let ghost start = out@;
    let limit: usize = if s.len() > max { max } else { s.len() };
    let mut i: usize = 0;
    while i < limit
        invariant
            sv == views(s@),
            f == |x: MediaAttributeView| attr_added_line(x),
            limit <= s@.len(),
            i <= limit,
            out@ == start + lines_of(sv.take(i as int), f),
        decreases limit - i,
    {
        push_attr_added_line(out, &s[i]);
        proof {
            lemma_lines_step(sv, f, i as int);
            assert(sv[i as int] == s@[i as int]@);
        }
        i = i + 1;
    }
    proof {
        assert(sv.take(limit as int) =~= first_n(sv, max as nat));
    }
}

/// One sample line.
pub open spec fn attr_removed_line(x: MediaAttributeView) -> Seq<char> {
    "- media_id="@ + dec_int(x.media_id as int) + " key=\""@ + x.key + "\"\n"@
}

fn push_attr_removed_line(out: &mut String, x: &MediaAttribute)
    ensures
        final(out)@ == old(out)@ + attr_removed_line(x@),
{
    let ghost start = out@;
    push_str(out, "- media_id=");
    push_i64(out, x.media_id);
    push_str(out, " key=\"");
    push_str(out, x.key.as_str());
    push_str(out, "\"\n");
    assert(out@ =~= start + attr_removed_line(x@));
}

fn push_attr_removed_lines(out: &mut String, s: &Vec<MediaAttribute>, max: usize)
    ensures
        final(out)@ == old(out)@ + lines_of(first_n(views(s@), max as nat), |x: MediaAttributeView| attr_removed_line(x)),
{
    let ghost sv = views(s@);
    let ghost f = |x: MediaAttributeView| attr_removed_line(x);
    let ghost start = out@;
    let limit: usize = if s.len() > max { max } else { s.len() };
    let mut i: usize = 0;
    while i < limit
        invariant
            sv == views(s@),
            f == |x: MediaAttributeView| attr_removed_line(x),
            limit <= s@.len(),
            i <= limit,
            out@ == start + lines_of(sv.take(i as int), f),
        decreases limit - i,
    {
        push_attr_removed_line(out, &s[i]);
        proof {
            lemma_lines_step(sv, f, i as int);
            assert(sv[i as int] == s@[i as int]@);
        }
        i = i + 1;
    }
    proof {
        assert(sv.take(limit as int) =~= first_n(sv, max as nat));
    }
}

/// One sample line.
pub open spec fn attr_changed_line(x: (MediaAttributeView, MediaAttributeView)) -> Seq<char> {
    "- media_id="@ + dec_int(x.0.media_id as int) + " key=\""@ + x.0.key + "\": "@ + debug_text(x.0.value) + " -> "@ + debug_text(x.1.value) + "\n"@
}

fn push_attr_changed_line(out: &mut String, x: &RowChange<MediaAttribute>)
    ensures
        final(out)@ == old(out)@ + attr_changed_line((x.current@, x.backup@)),
{
    let ghost start = out@;
    push_str(out, "- media_id=");
    push_i64(out, x.current.media_id);
    push_str(out, " key=\"");
    push_str(out, x.current.key.as_str());
    push_str(out, "\": ");
    let v1 = debug_opt_text(&x.current.value);
    push_str(out, v1.as_str());
    push_str(out, " -> ");
    let v2 = debug_opt_text(&x.backup.value);
    push_str(out, v2.as_str());
    push_str(out, "\n");
    assert(out@ =~= start + attr_changed_line((x.current@, x.backup@)));
}

fn push_attr_changed_lines(out: &mut String, s: &Vec<RowChange<MediaAttribute>>, max: usize)
    ensures
        final(out)@ == old(out)@ + lines_of(first_n(change_views(s@), max as nat), |x: (MediaAttributeView, MediaAttributeView)| attr_changed_line(x)),
{
    let ghost sv = change_views(s@);
    let ghost f = |x: (MediaAttributeView, MediaAttributeView)| attr_changed_line(x);
    let ghost start = out@;
    let limit: usize = if s.len() > max { max } else { s.len() };
    let mut i: usize = 0;
    while i < limit
        invariant
            sv == change_views(s@),
            f == |x: (MediaAttributeView, MediaAttributeView)| attr_changed_line(x),
            limit <= s@.len(),
            i <= limit,
            out@ == start + lines_of(sv.take(i as int), f),
        decreases limit - i,
    {
        push_attr_changed_line(out, &s[i]);
        proof {
            lemma_lines_step(sv, f, i as int);
            assert(sv[i as int] == (s@[i as int].current@, s@[i as int].backup@));
        }
        i = i + 1;
    }
    proof {
        assert(sv.take(limit as int) =~= first_n(sv, max as nat));
    }
}

/// One sample line.
pub open spec fn hash_line(x: MediaHashView) -> Seq<char> {
    "- item_uuid="@ + x.item_uuid + " filename=\""@ + x.filename + "\"\n"@
}

fn push_hash_line(out: &mut String, x: &MediaHash)
    ensures
        final(out)@ == old(out)@ + hash_line(x@),
{
    let ghost start = out@;
    push_str(out, "- item_uuid=");
    push_str(out, x.item_uuid.as_str());
    push_str(out, " filename=\"");
    push_str(out, x.filename.as_str());
    push_str(out, "\"\n");
    assert(out@ =~= start + hash_line(x@));
}

fn push_hash_lines(out: &mut String, s: &Vec<MediaHash>, max: usize)
    ensures
        final(out)@ == old(out)@ + lines_of(first_n(views(s@), max as nat), |x: MediaHashView| hash_line(x)),
{
    let ghost sv = views(s@);
    let ghost f = |x: MediaHashView| hash_line(x);
    let ghost start = out@;
    let limit: usize = if s.len() > max { max } else { s.len() };
    let mut i: usize = 0;
    while i < limit
        invariant
            sv == views(s@),
            f == |x: MediaHashView| hash_line(x),
            limit <= s@.len(),
            i <= limit,
            out@ == start + lines_of(sv.take(i as int), f),
        decreases limit - i,
    {
        push_hash_line(out, &s[i]);
        proof {
            lemma_lines_step(sv, f, i as int);
            assert(sv[i as int] == s@[i as int]@);
        }
        i = i + 1;
    }
    proof {
        assert(sv.take(limit as int) =~= first_n(sv, max as nat));
    }
}

/// One sample line.
pub open spec fn hash_changed_line(x: (MediaHashView, MediaHashView)) -> Seq<char> {
    "- item_uuid="@ + x.0.item_uuid + " filename=\""@ + x.0.filename + "\"\n"@
}

fn push_hash_changed_line(out: &mut String, x: &RowChange<MediaHash>)
    ensures
        final(out)@ == old(out)@ + hash_changed_line((x.current@, x.backup@)),
{
    let ghost start = out@;
    push_str(out, "- item_uuid=");
    push_str(out, x.current.item_uuid.as_str());
    push_str(out, " filename=\"");
    push_str(out, x.current.filename.as_str());
    push_str(out, "\"\n");
    assert(out@ =~= start + hash_changed_line((x.current@, x.backup@)));
}

fn push_hash_changed_lines(out: &mut String, s: &Vec<RowChange<MediaHash>>, max: usize)
    ensures
        final(out)@ == old(out)@ + lines_of(first_n(change_views(s@), max as nat), |x: (MediaHashView, MediaHashView)| hash_changed_line(x)),
{
    let ghost sv = change_views(s@);
    let ghost f = |x: (MediaHashView, MediaHashView)| hash_changed_line(x);
    let ghost start = out@;
    let limit: usize = if s.len() > max { max } else { s.len() };
    let mut i: usize = 0;
    while i < limit
        invariant
            sv == change_views(s@),
            f == |x: (MediaHashView, MediaHashView)| hash_changed_line(x),
            limit <= s@.len(),
            i <= limit,
            out@ == start + lines_of(sv.take(i as int), f),
        decreases limit - i,
    {
        push_hash_changed_line(out, &s[i]);
        proof {
            lemma_lines_step(sv, f, i as int);
            assert(sv[i as int] == (s@[i as int].current@, s@[i as int].backup@));
        }
        i = i + 1;
    }
    proof {
        assert(sv.take(limit as int) =~= first_n(sv, max as nat));
    }
}

/// Sample lines of the media rows of a diff.
pub open spec fn media_samples(m: MediaDiff, max: usize) -> Seq<char> {
    sample_heading("media"@, "added"@, max) + lines_of(first_n(views(m.added@), max as nat), |x: MediaView| media_added_line(x)) + "\n"@
    + sample_heading("media"@, "removed"@, max) + lines_of(first_n(views(m.removed@), max as nat), |x: MediaView| media_removed_line(x)) + "\n"@
    + sample_heading("media"@, "changed"@, max) + lines_of(first_n(change_views(m.changed@), max as nat), |x: (MediaView, MediaView)| media_changed_line(x)) + "\n"@
}

/// Sample lines of the tag rows of a diff.
pub open spec fn tag_samples(t: TagDiff, max: usize) -> Seq<char> {
    sample_heading("tags"@, "added"@, max) + lines_of(first_n(views(t.added@), max as nat), |x: TagView| tag_line(x)) + "\n"@
    + sample_heading("tags"@, "removed"@, max) + lines_of(first_n(views(t.removed@), max as nat), |x: TagView| tag_line(x)) + "\n"@
    + sample_heading("tags"@, "changed"@, max) + lines_of(first_n(change_views(t.changed@), max as nat), |x: (TagView, TagView)| tag_changed_line(x)) + "\n"@
}

/// Sample lines of the links of a diff.
pub open spec fn link_samples(l: MediaTagAssocDiff, max: usize) -> Seq<char> {
    sample_heading("media_tags"@, "added"@, max) + lines_of(first_n(views(l.added@), max as nat), |x: MediaTagAssocView| link_line(x)) + "\n"@
    + sample_heading("media_tags"@, "removed"@, max) + lines_of(first_n(views(l.removed@), max as nat), |x: MediaTagAssocView| link_line(x)) + "\n"@
}

/// Sample lines of the attributes of a diff.
pub open spec fn attribute_samples(a: AttributeDiff, max: usize) -> Seq<char> {
    sample_heading("attributes"@, "added"@, max) + lines_of(first_n(views(a.added@), max as nat), |x: MediaAttributeView| attr_added_line(x)) + "\n"@
    + sample_heading("attributes"@, "removed"@, max) + lines_of(first_n(views(a.removed@), max as nat), |x: MediaAttributeView| attr_removed_line(x)) + "\n"@
    + sample_heading("attributes"@, "changed"@, max) + lines_of(first_n(change_views(a.changed@), max as nat), |x: (MediaAttributeView, MediaAttributeView)| attr_changed_line(x)) + "\n"@
}

/// Sample lines of the hashes of a diff.
pub open spec fn hash_samples(h: HashDiff, max: usize) -> Seq<char> {
    sample_heading("hashes"@, "added"@, max) + lines_of(first_n(views(h.added@), max as nat), |x: MediaHashView| hash_line(x)) + "\n"@
    + sample_heading("hashes"@, "removed"@, max) + lines_of(first_n(views(h.removed@), max as nat), |x: MediaHashView| hash_line(x)) + "\n"@
    + sample_heading("hashes"@, "changed"@, max) + lines_of(first_n(change_views(h.changed@), max as nat), |x: (MediaHashView, MediaHashView)| hash_changed_line(x)) + "\n"@
}

fn push_media_samples(out: &mut String, m: &MediaDiff, max: usize)
    ensures
        final(out)@ == old(out)@ + media_samples(*m, max),
{
    push_sample_heading(out, "media", "added", max);
    push_media_added_lines(out, &m.added, max);
    push_str(out, "\n");
    push_sample_heading(out, "media", "removed", max);
    push_media_removed_lines(out, &m.removed, max);
    push_str(out, "\n");
    push_sample_heading(out, "media", "changed", max);
    push_media_changed_lines(out, &m.changed, max);
    push_str(out, "\n");
    assert(out@ =~= old(out)@ + media_samples(*m, max));
}

fn push_tag_samples(out: &mut String, t: &TagDiff, max: usize)
    ensures
        final(out)@ == old(out)@ + tag_samples(*t, max),
{
    push_sample_heading(out, "tags", "added", max);
    push_tag_lines(out, &t.added, max);
    push_str(out, "\n");
    push_sample_heading(out, "tags", "removed", max);
    push_tag_lines(out, &t.removed, max);
    push_str(out, "\n");
    push_sample_heading(out, "tags", "changed", max);
    push_tag_changed_lines(out, &t.changed, max);
    push_str(out, "\n");
    assert(out@ =~= old(out)@ + tag_samples(*t, max));
}

fn push_link_samples(out: &mut String, l: &MediaTagAssocDiff, max: usize)
    ensures
        final(out)@ == old(out)@ + link_samples(*l, max),
{
    push_sample_heading(out, "media_tags", "added", max);
    push_link_lines(out, &l.added, max);
    push_str(out, "\n");
    push_sample_heading(out, "media_tags", "removed", max);
    push_link_lines(out, &l.removed, max);
    push_str(out, "\n");
    assert(out@ =~= old(out)@ + link_samples(*l, max));
}

fn push_attribute_samples(out: &mut String, a: &AttributeDiff, max: usize)
    ensures
        final(out)@ == old(out)@ + attribute_samples(*a, max),
{
    push_sample_heading(out, "attributes", "added", max);
    push_attr_added_lines(out, &a.added, max);
    push_str(out, "\n");
    push_sample_heading(out, "attributes", "removed", max);
    push_attr_removed_lines(out, &a.removed, max);
    push_str(out, "\n");
    push_sample_heading(out, "attributes", "changed", max);
    push_attr_changed_lines(out, &a.changed, max);
    push_str(out, "\n");
    assert(out@ =~= old(out)@ + attribute_samples(*a, max));
}

fn push_hash_samples(out: &mut String, h: &HashDiff, max: usize)
    ensures
        final(out)@ == old(out)@ + hash_samples(*h, max),
{
    push_sample_heading(out, "hashes", "added", max);
    push_hash_lines(out, &h.added, max);
    push_str(out, "\n");
    push_sample_heading(out, "hashes", "removed", max);
    push_hash_lines(out, &h.removed, max);
    push_str(out, "\n");
    push_sample_heading(out, "hashes", "changed", max);
    push_hash_changed_lines(out, &h.changed, max);
    push_str(out, "\n");
    assert(out@ =~= old(out)@ + hash_samples(*h, max));
}

/// Distribution lines of text-keyed counts: `- {prefix}{key}: +a -r ~c`.
pub open spec fn keyed_lines(prefix: Seq<char>, e: Seq<(Seq<char>, DiffCounts)>) -> Seq<char> {
    lines_of(e, |x: (Seq<char>, DiffCounts)| counts_line(prefix + x.0, x.1))
}

/// Distribution lines of counts per tag id.
pub open spec fn tag_id_lines(e: Seq<(i64, DiffCounts)>) -> Seq<char> {
    lines_of(e, |x: (i64, DiffCounts)| counts_line("tag_id="@ + dec_int(x.0 as int), x.1))
}

fn push_keyed_lines(out: &mut String, prefix: &str, e: &Vec<(String, DiffCounts)>)
    ensures
        final(out)@ == old(out)@ + keyed_lines(prefix@, entry_views(e@)),
{
    let ghost ev = entry_views(e@);
    let ghost f = |x: (Seq<char>, DiffCounts)| counts_line(prefix@ + x.0, x.1);
    let ghost start = out@;
    let mut i: usize = 0;
    while i < e.len()
        invariant
            ev == entry_views(e@),
            f == |x: (Seq<char>, DiffCounts)| counts_line(prefix@ + x.0, x.1),
            i <= e@.len(),
            out@ == start + lines_of(ev.take(i as int), f),
        decreases e@.len() - i,
    {
        let ghost before = out@;
        push_str(out, "- ");
        push_str(out, prefix);
        push_str(out, e[i].0.as_str());
        push_str(out, ": ");
        push_counts(out, e[i].1.added, e[i].1.removed, e[i].1.changed);
        push_str(out, "\n");
        proof {
            assert(ev[i as int] == (e@[i as int].0@, e@[i as int].1));
            assert(out@ =~= before + f(ev[i as int]));
            lemma_lines_step(ev, f, i as int);
        }
        i = i + 1;
    }
    assert(ev.take(e@.len() as int) =~= ev);
}

fn push_tag_id_lines(out: &mut String, e: &Vec<(i64, DiffCounts)>)
    ensures
        final(out)@ == old(out)@ + tag_id_lines(entry_views(e@)),
{
    let ghost ev = entry_views(e@);
    let ghost f = |x: (i64, DiffCounts)| counts_line("tag_id="@ + dec_int(x.0 as int), x.1);
    let ghost start = out@;
    let mut i: usize = 0;
    while i < e.len()
        invariant
            ev == entry_views(e@),
            f == |x: (i64, DiffCounts)| counts_line("tag_id="@ + dec_int(x.0 as int), x.1),
            i <= e@.len(),
            out@ == start + lines_of(ev.take(i as int), f),
        decreases e@.len() - i,
    {
        let ghost before = out@;
        push_str(out, "- ");
        push_str(out, "tag_id=");
        push_i64(out, e[i].0);
        push_str(out, ": ");
        push_counts(out, e[i].1.added, e[i].1.removed, e[i].1.changed);
        push_str(out, "\n");
        proof {
            assert(ev[i as int] == (e@[i as int].0@, e@[i as int].1));
            assert(out@ =~= before + f(ev[i as int]));
            lemma_lines_step(ev, f, i as int);
        }
        i = i + 1;
    }
    assert(ev.take(e@.len() as int) =~= ev);
}

/// The distribution section's body.
pub open spec fn distribution_text(d: DiffDistribution) -> Seq<char> {
    "### media\n"@
    + keyed_lines("type="@, entry_views(d.media.by_type.entries@))
    + keyed_lines("artist="@, entry_views(d.media.by_artist_top@))
    + keyed_lines("flag_exist="@, entry_views(d.media.by_flag_exist.entries@))
    + "\n### media_tags\n"@
    + tag_id_lines(entry_views(d.media_tags.by_tag_top@))
    + "\n### attributes\n"@
    + keyed_lines("key="@, entry_views(d.attributes.by_key.entries@))
    + "\n### hashes\n"@
    + keyed_lines("filename="@, entry_views(d.hashes.by_filename_top@))
    + "\n"@
}

fn push_distribution(out: &mut String, d: &DiffDistribution)
    ensures
        final(out)@ == old(out)@ + distribution_text(*d),
{
    push_str(out, "### media\n");
    push_keyed_lines(out, "type=", &d.media.by_type.entries);
    push_keyed_lines(out, "artist=", &d.media.by_artist_top);
    push_keyed_lines(out, "flag_exist=", &d.media.by_flag_exist.entries);
    push_str(out, "\n### media_tags\n");
    push_tag_id_lines(out, &d.media_tags.by_tag_top);
    push_str(out, "\n### attributes\n");
    push_keyed_lines(out, "key=", &d.attributes.by_key.entries);
    push_str(out, "\n### hashes\n");
    push_keyed_lines(out, "filename=", &d.hashes.by_filename_top);
    push_str(out, "\n");
    assert(out@ =~= old(out)@ + distribution_text(*d));
}

/// Options of the review prompt.
pub struct DiffExplanationPromptOptions {
    /// Most sample rows per list.
    pub max_samples_per_section: usize,
    /// Whether the distribution section is included.
    pub include_distribution: bool,
    /// Caller's context (a session id, ...), written at the top.
    pub extra_context: Option<String>,
}

impl Default for DiffExplanationPromptOptions {
    fn default() -> (r: Self)
        ensures
            r.max_samples_per_section == 10,
            r.include_distribution,
            r.extra_context is None,
    {
        DiffExplanationPromptOptions { max_samples_per_section: 10, include_distribution: true, extra_context: None }
    }
}

/// Title of the prompt.
pub open spec fn prompt_title() -> Seq<char> {
    "# メディアDB変更レビュー（stg → prod promote 判断）\n\n"@
}

/// The task and the meaning of added, removed and changed.
pub open spec fn prompt_intro() -> Seq<char> {
    "あなたはメディアDBの変更レビュアーです。stg（作業用コピー）で行われた編集を\nprod（本番）へ promote してよいか判断しています。以下の差分データを元に、\n変更内容・影響・リスク・promote 可否の根拠を簡潔に説明してください。\n\n> セマンティクス注記: added=stg新規（promote で prod に追加）・\n> removed=prod のみ（promote で prod から削除）・\n> changed=両方で異なる（promote で prod が上書き）\n\n"@
}

/// Heading and header rows of the count table.
pub open spec fn count_table_head() -> Seq<char> {
    "## 1. 変更サマリ（件数）\n\n| テーブル | added | removed | changed |\n|----------|-------|---------|---------|\n"@
}

/// The count section of the prompt.
pub open spec fn count_section(s: ProdStgDiffSummary) -> Seq<char> {
    count_table_head()
    + count_row("| media    | "@, s.counts.media)
    + count_row("| tags     | "@, s.counts.tags)
    + count_row("| media_tags | "@, s.counts.media_tags)
    + count_row("| attributes | "@, s.counts.attributes)
    + count_row("| hashes   | "@, s.counts.hashes)
    + "\n合計: "@ + counts_text(s.totals.added, s.totals.removed, s.totals.changed) + "\n\n"@
}

/// The closing instructions, as section `no`.
pub open spec fn instructions(no: nat) -> Seq<char> {
    "## "@ + dec_nat(no) + instructions_body()
}

/// The closing instructions after the section number.
pub open spec fn instructions_body() -> Seq<char> {
    ". 説明指示\n\n以下の4項目を Markdown 見出し（###）で説明してください:\n\n### 変更内容の要約\n（何が起きるかを1-2段落で）\n\n### 影響範囲\n（どのデータ範囲・機能に影響するか）\n\n### リスク\n（データ整合性・FK・意図しない削除・異常な大量変動等。特に分布の偏りに注意）\n\n### promote 可否の根拠\n（実施すべきか・保留すべきか・その理由。promote 不可なら必須条件を明示）\n"@
}

/// Title and caller's context.
pub open spec fn prompt_head(o: DiffExplanationPromptOptions) -> Seq<char> {
    prompt_title() + match o.extra_context { Some(c) => "コンテキスト: "@ + c@ + "\n\n"@, None => Seq::empty() }
}

/// Heading of the sample section.
pub open spec fn samples_heading(max: usize) -> Seq<char> {
    "## 2. 変更内容の代表サンプル（各最大"@ + dec_nat(max as nat) + "件）\n\n"@
}

/// The distribution section, when the options ask for it.
pub open spec fn distribution_section(s: ProdStgDiffSummary, o: DiffExplanationPromptOptions) -> Seq<char> {
    if o.include_distribution {
        "## 3. 分布（テーブル別の偏り・異常変動の検出）\n\n"@ + distribution_text(s.distribution)
    } else {
        Seq::empty()
    }
}

/// The whole review prompt.
pub open spec fn prompt_text(diff: BackupDiff, summary: ProdStgDiffSummary, o: DiffExplanationPromptOptions) -> Seq<char> {
    let max = o.max_samples_per_section;
    prompt_head(o)
    + prompt_intro()
    + count_section(summary)
    + samples_heading(max)
    + media_samples(diff.media, max)
    + tag_samples(diff.tags, max)
    + link_samples(diff.media_tags, max)
    + attribute_samples(diff.attributes, max)
    + hash_samples(diff.hashes, max)
    + distribution_section(summary, o)
    + instructions(if o.include_distribution { 4 } else { 3 })
}

fn push_prompt_head(out: &mut String, o: &DiffExplanationPromptOptions)
    ensures
        final(out)@ == old(out)@ + prompt_head(*o),
{
    push_str(out, "# メディアDB変更レビュー（stg → prod promote 判断）\n\n");
    match &o.extra_context {
        Some(ctx) => {
            push_str(out, "コンテキスト: ");
            push_str(out, ctx.as_str());
            push_str(out, "\n\n");
        },
        None => {},
    }
    assert(out@ =~= old(out)@ + prompt_head(*o));
}

fn push_count_section(out: &mut String, summary: &ProdStgDiffSummary)
    ensures
        final(out)@ == old(out)@ + count_section(*summary),
{
    let c = &summary.counts;
    push_str(out, "## 1. 変更サマリ（件数）\n\n| テーブル | added | removed | changed |\n|----------|-------|---------|---------|\n");
    push_count_row(out, "| media    | ", c.media);
    push_count_row(out, "| tags     | ", c.tags);
    push_count_row(out, "| media_tags | ", c.media_tags);
    push_count_row(out, "| attributes | ", c.attributes);
    push_count_row(out, "| hashes   | ", c.hashes);
    push_str(out, "\n合計: ");
    push_counts(out, summary.totals.added, summary.totals.removed, summary.totals.changed);
    push_str(out, "\n\n");
    assert(out@ =~= old(out)@ + count_section(*summary));
}

fn push_samples_heading(out: &mut String, max: usize)
    ensures
        final(out)@ == old(out)@ + samples_heading(max),
{
    push_str(out, "## 2. 変更内容の代表サンプル（各最大");
    push_usize(out, max);
    push_str(out, "件）\n\n");
    assert(out@ =~= old(out)@ + samples_heading(max));
}

fn push_distribution_section(out: &mut String, summary: &ProdStgDiffSummary, o: &DiffExplanationPromptOptions)
    ensures
        final(out)@ == old(out)@ + distribution_section(*summary, *o),
{
    if o.include_distribution {
        push_str(out, "## 3. 分布（テーブル別の偏り・異常変動の検出）\n\n");
        push_distribution(out, &summary.distribution);
    }
    assert(out@ =~= old(out)@ + distribution_section(*summary, *o));
}

fn push_instructions(out: &mut String, no: usize)
    ensures
        final(out)@ == old(out)@ + instructions(no as nat),
{
    push_str(out, "## ");
    push_usize(out, no);
    push_str(out, ". 説明指示\n\n以下の4項目を Markdown 見出し（###）で説明してください:\n\n### 変更内容の要約\n（何が起きるかを1-2段落で）\n\n### 影響範囲\n（どのデータ範囲・機能に影響するか）\n\n### リスク\n（データ整合性・FK・意図しない削除・異常な大量変動等。特に分布の偏りに注意）\n\n### promote 可否の根拠\n（実施すべきか・保留すべきか・その理由。promote 不可なら必須条件を明示）\n");
    assert(out@ =~= old(out)@ + instructions(no as nat));
}

/// The review prompt for a production/staging diff and its summary: the
/// task, the meaning of added/removed/changed, the count table, sample rows
/// of each list, optionally the distribution, and what to explain.
pub fn build_diff_explanation_prompt(
    diff: &BackupDiff,
    summary: &ProdStgDiffSummary,
    options: &DiffExplanationPromptOptions,
) -> (r: String)
    ensures
        r@ == prompt_text(*diff, *summary, *options),
{
    let max = options.max_samples_per_section;
    let mut out = String::new();
    push_prompt_head(&mut out, options);
    assert(out@ =~= prompt_head(*options));
    push_str(&mut out, "あなたはメディアDBの変更レビュアーです。stg（作業用コピー）で行われた編集を\nprod（本番）へ promote してよいか判断しています。以下の差分データを元に、\n変更内容・影響・リスク・promote 可否の根拠を簡潔に説明してください。\n\n> セマンティクス注記: added=stg新規（promote で prod に追加）・\n> removed=prod のみ（promote で prod から削除）・\n> changed=両方で異なる（promote で prod が上書き）\n\n");
    push_count_section(&mut out, summary);
    push_samples_heading(&mut out, max);
    push_media_samples(&mut out, &diff.media, max);
    push_tag_samples(&mut out, &diff.tags, max);
    push_link_samples(&mut out, &diff.media_tags, max);
    push_attribute_samples(&mut out, &diff.attributes, max);
    push_hash_samples(&mut out, &diff.hashes, max);
    push_distribution_section(&mut out, summary, options);
    let section_no: usize = if options.include_distribution { 4 } else { 3 };
    push_instructions(&mut out, section_no);
    out
}

proof fn lemma_prefix_kept(p: Seq<char>, x: Seq<char>, i: int, j: int)
    requires
        0 <= i <= j <= p.len(),
    ensures
        (p + x).subrange(i, j) == p.subrange(i, j),
{
    assert((p + x).subrange(i, j) =~= p.subrange(i, j));
}

/// Every review prompt carries, right after its heading, the note that says
/// what added, removed and changed mean for a promote.
pub proof fn law_prompt_explains_directions(diff: BackupDiff, summary: ProdStgDiffSummary, o: DiffExplanationPromptOptions)
    ensures
        prompt_text(diff, summary, o).subrange(prompt_head(o).len() as int, (prompt_head(o).len() + prompt_intro().len()) as int)
            == prompt_intro(),
{
    let max = o.max_samples_per_section;
    let h = prompt_head(o);
    let a = h.len() as int;
    let b = (h.len() + prompt_intro().len()) as int;
    let p0 = h + prompt_intro();
    assert(p0.subrange(a, b) =~= prompt_intro());
    let p1 = p0 + count_section(summary);
    lemma_prefix_kept(p0, count_section(summary), a, b);
    let p2 = p1 + samples_heading(max);
    lemma_prefix_kept(p1, samples_heading(max), a, b);
    let p3 = p2 + media_samples(diff.media, max);
    lemma_prefix_kept(p2, media_samples(diff.media, max), a, b);
    let p4 = p3 + tag_samples(diff.tags, max);
    lemma_prefix_kept(p3, tag_samples(diff.tags, max), a, b);
    let p5 = p4 + link_samples(diff.media_tags, max);
    lemma_prefix_kept(p4, link_samples(diff.media_tags, max), a, b);
    let p6 = p5 + attribute_samples(diff.attributes, max);
    lemma_prefix_kept(p5, attribute_samples(diff.attributes, max), a, b);
    let p7 = p6 + hash_samples(diff.hashes, max);
    lemma_prefix_kept(p6, hash_samples(diff.hashes, max), a, b);
    let p8 = p7 + distribution_section(summary, o);
    lemma_prefix_kept(p7, distribution_section(summary, o), a, b);
    let n: nat = if o.include_distribution { 4 } else { 3 };
    lemma_prefix_kept(p8, instructions(n), a, b);
    assert(prompt_text(diff, summary, o) == p8 + instructions(n));
}

} // verus!
