//! Moving every row of one database into another (typically a local file
//! into D1): the conversion of rows into inputs, the paging, and the check
//! that both hold the same data afterwards.
use vstd::prelude::*;
use crate::error::{KijukuError, joined, other_text, other_error};
use crate::order::{lex_lt, lemma_lex_lt_irreflexive, lemma_lex_lt_transitive, lemma_lex_lt_total, lemma_lex_lt_asymmetric};
use crate::tally::{text_rank, TallyKey};
use crate::order::KeyOrder;
use crate::table::views;
use crate::text::{push_str, push_usize, push_i64, dec_nat, dec_int};
use crate::types::{
    Media, MediaView, MediaInput, MediaInputView, MediaHash, MediaHashInput, MediaHashInputView,
    MediaAttribute, AttributeValueType, str_eq, opt_str_eq, opt_i64_eq, opt_i32_eq, clone_opt_str,
    clone_bytes, bytes_eq, opt_str_view,
};

verus! {

broadcast use vstd::std_specs::vec::group_vec_axioms;

/// Rows moved per table, and whether the check passed.
#[derive(Debug, Clone, Copy, PartialEq, Eq, Structural)]
pub struct TransferReport {
    pub media: usize,
    pub tags: usize,
    pub media_tags: usize,
    pub attributes: usize,
    pub hashes: usize,
    pub verified: bool,
}

/// Options of a transfer.
#[derive(Debug, Clone, Copy, PartialEq, Eq, Structural)]
pub struct TransferOptions {
    /// Media items read per page.
    pub chunk_size: usize,
    /// Report progress on standard error.
    pub verbose: bool,
}

impl Default for TransferOptions {
    fn default() -> (r: Self)
        ensures
            r.chunk_size == 500,
            !r.verbose,
    {
        TransferOptions { chunk_size: 500, verbose: false }
    }
}

/// Items read per page: the chunk size, at least 1.
pub fn page_size(opts: &TransferOptions) -> (r: usize)
    ensures
        r == (if opts.chunk_size < 1 { 1 } else { opts.chunk_size }),
{
    if opts.chunk_size < 1 { 1 } else { opts.chunk_size }
}

/// Whether another page follows a page of `n` items read with page size
/// `chunk`: only a full, non-empty page can be followed.
pub fn more_pages(n: usize, chunk: usize) -> (r: bool)
    ensures
        r == (n > 0 && n >= chunk),
{
    n > 0 && n >= chunk
}

/// The input that creates a copy of `m` with the same uuid (the volume
/// number is computed again from the volume text; id and times are new).
pub open spec fn media_input_of(m: MediaView) -> MediaInputView {
    MediaInputView {
        title: m.title,
        media_type: m.media_type,
        uuid: Some(m.uuid),
        title_id: m.title_id,
        path: m.path,
        thumbnail_path: m.thumbnail_path,
        artist: m.artist,
        artist_id: m.artist_id,
        description: m.description,
        file_size: m.file_size,
        duration_sec: m.duration_sec,
        page_count: m.page_count,
        series: m.series,
        volume_number: None,
        volume_text: m.volume_text,
        volume_title: m.volume_title,
        magazine: m.magazine,
        magazine_id: m.magazine_id,
        language: m.language,
        source: m.source,
        external_id: m.external_id,
        artist_en: m.artist_en,
        title_en: m.title_en,
        chapters: m.chapters,
        extension: m.extension,
        flag_exist: Some(m.flag_exist),
        title_pron: m.title_pron,
        artist_pron: m.artist_pron,
        series_pron: m.series_pron,
    }
}

/// The input that creates a copy of media item `m`.
pub fn media_to_input(m: &Media) -> (r: MediaInput)
    ensures
        r@ == media_input_of(m@),
{
    MediaInput {
        title: m.title.clone(),
        media_type: m.media_type,
        uuid: Some(m.uuid.clone()),
        title_id: clone_opt_str(&m.title_id),
        path: clone_opt_str(&m.path),
        thumbnail_path: clone_opt_str(&m.thumbnail_path),
        artist: clone_opt_str(&m.artist),
        artist_id: clone_opt_str(&m.artist_id),
        description: clone_opt_str(&m.description),
        file_size: m.file_size,
        duration_sec: m.duration_sec,
        page_count: m.page_count,
        series: clone_opt_str(&m.series),
        volume_number: None,
        volume_text: clone_opt_str(&m.volume_text),
        volume_title: clone_opt_str(&m.volume_title),
        magazine: clone_opt_str(&m.magazine),
        magazine_id: clone_opt_str(&m.magazine_id),
        language: clone_opt_str(&m.language),
        source: clone_opt_str(&m.source),
        external_id: clone_opt_str(&m.external_id),
        artist_en: clone_opt_str(&m.artist_en),
        title_en: clone_opt_str(&m.title_en),
        chapters: clone_opt_str(&m.chapters),
        extension: clone_opt_str(&m.extension),
        flag_exist: Some(m.flag_exist),
        title_pron: clone_opt_str(&m.title_pron),
        artist_pron: clone_opt_str(&m.artist_pron),
        series_pron: clone_opt_str(&m.series_pron),
    }
}

/// The input that registers a copy of hash `h`.
pub fn hash_to_input(h: &MediaHash) -> (r: MediaHashInput)
    ensures
        r@ == (MediaHashInputView {
            item_uuid: h@.item_uuid,
            filename: h@.filename,
            time_range: h@.time_range,
            content_hash: h@.content_hash,
            alternative_of: h@.alternative_of,
        }),
{
    MediaHashInput {
        item_uuid: h.item_uuid.clone(),
        filename: h.filename.clone(),
        time_range: h.time_range.clone(),
        content_hash: clone_bytes(&h.content_hash),
        alternative_of: clone_opt_str(&h.alternative_of),
    }
}

/// Two media items agree in everything but id and times (which a copy
/// gets anew).
pub open spec fn same_content(a: MediaView, b: MediaView) -> bool {
    MediaView { id: 0, created_at: 0, updated_at: 0, ..a } == MediaView { id: 0, created_at: 0, updated_at: 0, ..b }
}

/// Whether two media items agree in everything but id and times.
pub fn media_content_eq(a: &Media, b: &Media) -> (r: bool)
    ensures
        r == same_content(a@, b@),
{
    str_eq(a.uuid.as_str(), b.uuid.as_str())
        && str_eq(a.title.as_str(), b.title.as_str())
        && opt_str_eq(&a.title_id, &b.title_id)
        && opt_str_eq(&a.path, &b.path)
        && a.media_type == b.media_type
        && opt_str_eq(&a.thumbnail_path, &b.thumbnail_path)
        && opt_str_eq(&a.artist, &b.artist)
        && opt_str_eq(&a.artist_id, &b.artist_id)
        && opt_str_eq(&a.description, &b.description)
        && opt_i64_eq(a.file_size, b.file_size)
        && opt_i32_eq(a.duration_sec, b.duration_sec)
        && opt_i32_eq(a.page_count, b.page_count)
        && opt_str_eq(&a.series, &b.series)
        && opt_i32_eq(a.volume_number, b.volume_number)
        && opt_str_eq(&a.volume_text, &b.volume_text)
        && opt_str_eq(&a.volume_title, &b.volume_title)
        && opt_str_eq(&a.magazine, &b.magazine)
        && opt_str_eq(&a.magazine_id, &b.magazine_id)
        && opt_str_eq(&a.language, &b.language)
        && opt_str_eq(&a.source, &b.source)
        && opt_str_eq(&a.external_id, &b.external_id)
        && opt_str_eq(&a.artist_en, &b.artist_en)
        && opt_str_eq(&a.title_en, &b.title_en)
        && opt_str_eq(&a.chapters, &b.chapters)
        && opt_str_eq(&a.extension, &b.extension)
        && a.flag_exist == b.flag_exist
        && opt_str_eq(&a.title_pron, &b.title_pron)
        && opt_str_eq(&a.artist_pron, &b.artist_pron)
        && opt_str_eq(&a.series_pron, &b.series_pron)
}

/// A media item with the rows that hang on it: the names of its tags, its
/// attributes and its hashes.
pub struct MediaBundle {
    pub media: Media,
    pub tag_names: Vec<String>,
    pub attributes: Vec<MediaAttribute>,
    pub hashes: Vec<MediaHash>,
}

/// The set of texts of strings.
pub open spec fn name_set(v: Seq<String>) -> Set<Seq<char>> {
    Set::new(|x: Seq<char>| exists|i: int| 0 <= i < v.len() && #[trigger] v[i]@ == x)
}

/// What an attribute is compared by: key, value and value type.
pub open spec fn attr_key(a: MediaAttribute) -> (Seq<char>, Option<Seq<char>>, AttributeValueType) {
    (a.key@, opt_str_view(a.value), a.value_type)
}

/// The set of attributes by key, value and value type.
pub open spec fn attr_set(v: Seq<MediaAttribute>) -> Set<(Seq<char>, Option<Seq<char>>, AttributeValueType)> {
    Set::new(|x: (Seq<char>, Option<Seq<char>>, AttributeValueType)| exists|i: int| 0 <= i < v.len() && #[trigger] attr_key(v[i]) == x)
}

/// What a hash is compared by: file name, time range, hash and alternative.
pub open spec fn hash_key(h: MediaHash) -> (Seq<char>, Seq<char>, Seq<u8>, Option<Seq<char>>) {
    (h.filename@, h.time_range@, h.content_hash@, opt_str_view(h.alternative_of))
}

/// The set of hashes by file name, time range, hash and alternative.
pub open spec fn hash_set(v: Seq<MediaHash>) -> Set<(Seq<char>, Seq<char>, Seq<u8>, Option<Seq<char>>)> {
    Set::new(|x: (Seq<char>, Seq<char>, Seq<u8>, Option<Seq<char>>)| exists|i: int| 0 <= i < v.len() && #[trigger] hash_key(v[i]) == x)
}

fn names_within(a: &Vec<String>, b: &Vec<String>) -> (r: bool)
    ensures
        r == name_set(a@).subset_of(name_set(b@)),
{
    let mut i: usize = 0;
    while i < a.len()
        invariant
            i <= a@.len(),
            forall|k: int| 0 <= k < i ==> #[trigger] name_set(b@).contains(a@[k]@),
        decreases a@.len() - i,
    {
        let mut j: usize = 0;
        let mut found = false;
        while j < b.len()
            invariant
                i < a@.len(),
                j <= b@.len(),
                found ==> name_set(b@).contains(a@[i as int]@),
                !found ==> forall|q: int| 0 <= q < j ==> #[trigger] b@[q]@ != a@[i as int]@,
            decreases b@.len() - j,
        {
            if str_eq(b[j].as_str(), a[i].as_str()) {
                found = true;
                assert(b@[j as int]@ == a@[i as int]@);
            }
            j = j + 1;
        }
        if !found {
            assert(!name_set(b@).contains(a@[i as int]@));
            assert(name_set(a@).contains(a@[i as int]@));
            return false;
        }
        i = i + 1;
    }
    assert forall|x: Seq<char>| name_set(a@).contains(x) implies name_set(b@).contains(x) by {
        let k = choose|k: int| 0 <= k < a@.len() && #[trigger] a@[k]@ == x;
        assert(name_set(b@).contains(a@[k]@));
    }
    true
}

fn names_equal(a: &Vec<String>, b: &Vec<String>) -> (r: bool)
    ensures
        r == (name_set(a@) == name_set(b@)),
{
    let r = names_within(a, b) && names_within(b, a);
    proof {
        if r {
            assert(name_set(a@) =~= name_set(b@));
        } else if name_set(a@) == name_set(b@) {
            assert(name_set(a@).subset_of(name_set(b@)));
        }
    }
    r
}

fn attrs_within(a: &Vec<MediaAttribute>, b: &Vec<MediaAttribute>) -> (r: bool)
    ensures
        r == attr_set(a@).subset_of(attr_set(b@)),
{
    let mut i: usize = 0;
    while i < a.len()
        invariant
            i <= a@.len(),
            forall|k: int| 0 <= k < i ==> #[trigger] attr_set(b@).contains(attr_key(a@[k])),
        decreases a@.len() - i,
    {
        let mut j: usize = 0;
        let mut found = false;
        while j < b.len()
            invariant
                i < a@.len(),
                j <= b@.len(),
                found ==> attr_set(b@).contains(attr_key(a@[i as int])),
                !found ==> forall|q: int| 0 <= q < j ==> #[trigger] attr_key(b@[q]) != attr_key(a@[i as int]),
            decreases b@.len() - j,
        {
            if str_eq(b[j].key.as_str(), a[i].key.as_str()) && opt_str_eq(&b[j].value, &a[i].value)
                && b[j].value_type == a[i].value_type {
                found = true;
                assert(attr_key(b@[j as int]) == attr_key(a@[i as int]));
            }
            j = j + 1;
        }
        if !found {
            assert(!attr_set(b@).contains(attr_key(a@[i as int])));
            assert(attr_set(a@).contains(attr_key(a@[i as int])));
            return false;
        }
        i = i + 1;
    }
    assert forall|x| attr_set(a@).contains(x) implies attr_set(b@).contains(x) by {
        let k = choose|k: int| 0 <= k < a@.len() && #[trigger] attr_key(a@[k]) == x;
        assert(attr_set(b@).contains(attr_key(a@[k])));
    }
    true
}

fn attrs_equal(a: &Vec<MediaAttribute>, b: &Vec<MediaAttribute>) -> (r: bool)
    ensures
        r == (attr_set(a@) == attr_set(b@)),
{
    let r = attrs_within(a, b) && attrs_within(b, a);
    proof {
        if r {
            assert(attr_set(a@) =~= attr_set(b@));
        } else if attr_set(a@) == attr_set(b@) {
            assert(attr_set(a@).subset_of(attr_set(b@)));
        }
    }
    r
}

fn hashes_within(a: &Vec<MediaHash>, b: &Vec<MediaHash>) -> (r: bool)
    ensures
        r == hash_set(a@).subset_of(hash_set(b@)),
{
    let mut i: usize = 0;
    while i < a.len()
        invariant
            i <= a@.len(),
            forall|k: int| 0 <= k < i ==> #[trigger] hash_set(b@).contains(hash_key(a@[k])),
        decreases a@.len() - i,
    {
        let mut j: usize = 0;
        let mut found = false;
        while j < b.len()
            invariant
                i < a@.len(),
                j <= b@.len(),
                found ==> hash_set(b@).contains(hash_key(a@[i as int])),
                !found ==> forall|q: int| 0 <= q < j ==> #[trigger] hash_key(b@[q]) != hash_key(a@[i as int]),
            decreases b@.len() - j,
        {
            if str_eq(b[j].filename.as_str(), a[i].filename.as_str())
                && str_eq(b[j].time_range.as_str(), a[i].time_range.as_str())
                && bytes_eq(&b[j].content_hash, &a[i].content_hash)
                && opt_str_eq(&b[j].alternative_of, &a[i].alternative_of) {
                found = true;
                assert(hash_key(b@[j as int]) == hash_key(a@[i as int]));
            }
            j = j + 1;
        }
        if !found {
            assert(!hash_set(b@).contains(hash_key(a@[i as int])));
            assert(hash_set(a@).contains(hash_key(a@[i as int])));
            return false;
        }
        i = i + 1;
    }
    assert forall|x| hash_set(a@).contains(x) implies hash_set(b@).contains(x) by {
        let k = choose|k: int| 0 <= k < a@.len() && #[trigger] hash_key(a@[k]) == x;
        assert(hash_set(b@).contains(hash_key(a@[k])));
    }
    true
}

fn hashes_equal(a: &Vec<MediaHash>, b: &Vec<MediaHash>) -> (r: bool)
    ensures
        r == (hash_set(a@) == hash_set(b@)),
{
    let r = hashes_within(a, b) && hashes_within(b, a);
    proof {
        if r {
            assert(hash_set(a@) =~= hash_set(b@));
        } else if hash_set(a@) == hash_set(b@) {
            assert(hash_set(a@).subset_of(hash_set(b@)));
        }
    }
    r
}

/// One text comes before another in byte order (the order of `String`).
pub open spec fn text_before(a: Seq<char>, b: Seq<char>) -> bool {
    lex_lt(text_rank(a), text_rank(b))
}

/// Texts in strictly ascending byte order.
pub open spec fn ascending_texts(s: Seq<Seq<char>>) -> bool {
    forall|i: int, j: int| 0 <= i < j < s.len() ==> text_before(#[trigger] s[i], #[trigger] s[j])
}

/// The distinct texts of some strings, in ascending order (as an ordered
/// set of strings holds them).
pub open spec fn ordered_names(v: Seq<String>) -> Seq<Seq<char>> {
    choose|r: Seq<Seq<char>>| ascending_texts(r) && r.to_set() == name_set(v)
}

pub proof fn lemma_text_order(a: Seq<char>, b: Seq<char>)
    ensures
        a == b || text_before(a, b) || text_before(b, a),
        !text_before(a, a),
        text_before(a, b) ==> !text_before(b, a) && a != b,
{
    lemma_lex_lt_total(text_rank(a), text_rank(b));
    lemma_lex_lt_irreflexive(text_rank(a));
    <String as TallyKey>::lemma_rank_key_injective(a, b);
    if text_before(a, b) {
        lemma_lex_lt_asymmetric(text_rank(a), text_rank(b));
    }
}

/// Two ascending sequences of texts with the same elements are equal.
proof fn lemma_ascending_unique(a: Seq<Seq<char>>, b: Seq<Seq<char>>)
    requires
        ascending_texts(a),
        ascending_texts(b),
        a.to_set() == b.to_set(),
    ensures
        a == b,
    decreases a.len(),
{
    if a.len() == 0 {
        if b.len() > 0 {
            assert(b.to_set().contains(b[0]));
        }
        assert(a =~= b);
    } else {
        if b.len() == 0 {
            assert(a.to_set().contains(a[0]));
        }
        assert(b.to_set().contains(a[0]));
        assert(a.to_set().contains(b[0]));
        let j = choose|j: int| 0 <= j < b.len() && b[j] == a[0];
        let i = choose|i: int| 0 <= i < a.len() && a[i] == b[0];
        lemma_text_order(a[0], b[0]);
        if j > 0 {
            assert(text_before(b[0], b[j]));
            if i > 0 {
                assert(text_before(a[0], a[i]));
            }
        }
        assert(a[0] == b[0]);
        let a1 = a.drop_first();
        let b1 = b.drop_first();
        assert forall|x: Seq<char>| a1.to_set().contains(x) implies b1.to_set().contains(x) by {
            let k = choose|k: int| 0 <= k < a1.len() && a1[k] == x;
            assert(a[k + 1] == x);
            assert(text_before(a[0], a[k + 1]));
            lemma_text_order(a[0], x);
            assert(b.to_set().contains(x));
            let m = choose|m: int| 0 <= m < b.len() && b[m] == x;
            assert(m != 0);
            assert(b1[m - 1] == x);
        }
        assert forall|x: Seq<char>| b1.to_set().contains(x) implies a1.to_set().contains(x) by {
            let k = choose|k: int| 0 <= k < b1.len() && b1[k] == x;
            assert(b[k + 1] == x);
            assert(text_before(b[0], b[k + 1]));
            lemma_text_order(b[0], x);
            assert(a.to_set().contains(x));
            let m = choose|m: int| 0 <= m < a.len() && a[m] == x;
            assert(m != 0);
            assert(a1[m - 1] == x);
        }
        assert(a1.to_set() =~= b1.to_set());
        assert(ascending_texts(a1)) by {
            assert forall|p: int, q: int| 0 <= p < q < a1.len() implies text_before(#[trigger] a1[p], #[trigger] a1[q]) by {
                assert(a1[p] == a[p + 1] && a1[q] == a[q + 1]);
            }
        }
        assert(ascending_texts(b1)) by {
            assert forall|p: int, q: int| 0 <= p < q < b1.len() implies text_before(#[trigger] b1[p], #[trigger] b1[q]) by {
                assert(b1[p] == b[p + 1] && b1[q] == b[q + 1]);
            }
        }
        lemma_ascending_unique(a1, b1);
        assert(a =~= seq![a[0]] + a1);
        assert(b =~= seq![b[0]] + b1);
    }
}

/// The distinct texts of `v` in ascending byte order.
fn sorted_names(v: &Vec<String>) -> (r: Vec<String>)
    ensures
        views(r@) == ordered_names(v@),
{
    let mut r: Vec<String> = Vec::new();
    let mut i: usize = 0;
    while i < v.len()
        invariant
            i <= v@.len(),
            ascending_texts(views(r@)),
            views(r@).to_set() == name_set(v@.take(i as int)),
        decreases v@.len() - i,
    {
        let x = &v[i];
        let ghost rv = views(r@);
        let mut p: usize = 0;
        while p < r.len()
            invariant_except_break
                p <= r@.len(),
                forall|k: int| 0 <= k < p ==> text_before(#[trigger] rv[k], x@),
            invariant
                rv == views(r@),
            ensures
                p <= r@.len(),
                forall|k: int| 0 <= k < p ==> text_before(#[trigger] rv[k], x@),
                p < r@.len() ==> !text_before(rv[p as int], x@),
            decreases r@.len() - p,
        {
            if r[p].compare(x) != KeyOrder::Less {
                break;
            }
            p = p + 1;
        }
        let present = p < r.len() && r[p].compare(x) == KeyOrder::Equal;
        proof {
            assert(v@.take(i + 1) =~= v@.take(i as int).push(v@[i as int]));
            assert(name_set(v@.take(i + 1)) =~= name_set(v@.take(i as int)).insert(x@)) by {
                let t = v@.take(i as int);
                let t1 = v@.take(i + 1);
                assert forall|y: Seq<char>| name_set(t1).contains(y) implies name_set(t).insert(x@).contains(y) by {
                    let k = choose|k: int| 0 <= k < t1.len() && #[trigger] t1[k]@ == y;
                    if k < i {
                        assert(t[k]@ == y);
                    }
                }
                assert forall|y: Seq<char>| name_set(t).insert(x@).contains(y) implies name_set(t1).contains(y) by {
                    if y == x@ {
                        assert(t1[i as int]@ == y);
                    } else {
                        let k = choose|k: int| 0 <= k < t.len() && #[trigger] t[k]@ == y;
                        assert(t1[k]@ == y);
                    }
                }
            }
        }
        if !present {
            let ghost old_r = views(r@);
            r.insert(p, x.clone());
            proof {
                let nr = views(r@);
                assert(nr =~= old_r.insert(p as int, x@));
                if p < old_r.len() {
                    lemma_text_order(old_r[p as int], x@);
                }
                assert forall|a: int, b: int| 0 <= a < b < nr.len() implies text_before(#[trigger] nr[a], #[trigger] nr[b]) by {
                    if b < p {
                    } else if b == p {
                    } else if a < p {
                        assert(nr[b] == old_r[b - 1]);
                        if b - 1 > p {
                            assert(text_before(old_r[p as int], old_r[b - 1]));
                            lemma_lex_lt_transitive(text_rank(x@), text_rank(old_r[p as int]), text_rank(old_r[b - 1]));
                        }
                        lemma_lex_lt_transitive(text_rank(old_r[a]), text_rank(x@), text_rank(old_r[b - 1]));
                    } else if a == p {
                        assert(nr[b] == old_r[b - 1]);
                        if b - 1 > p {
                            assert(text_before(old_r[p as int], old_r[b - 1]));
                            lemma_lex_lt_transitive(text_rank(x@), text_rank(old_r[p as int]), text_rank(old_r[b - 1]));
                        }
                    } else {
                        assert(nr[a] == old_r[a - 1] && nr[b] == old_r[b - 1]);
                    }
                }
                assert(nr.to_set() =~= old_r.to_set().insert(x@)) by {
                    assert forall|y: Seq<char>| nr.to_set().contains(y) implies old_r.to_set().insert(x@).contains(y) by {
                        let k = choose|k: int| 0 <= k < nr.len() && nr[k] == y;
                        if k < p {
                            assert(old_r[k] == y);
                        } else if k > p {
                            assert(old_r[k - 1] == y);
                        }
                    }
                    assert forall|y: Seq<char>| old_r.to_set().insert(x@).contains(y) implies nr.to_set().contains(y) by {
                        if y == x@ {
                            assert(nr[p as int] == y);
                        } else {
                            let k = choose|k: int| 0 <= k < old_r.len() && old_r[k] == y;
                            if k < p {
                                assert(nr[k] == y);
                            } else {
                                assert(nr[k + 1] == y);
                            }
                        }
                    }
                }
            }
        } else {
            proof {
                assert(rv[p as int] == x@);
                assert(rv.to_set().contains(x@));
                assert(rv.to_set().insert(x@) =~= rv.to_set());
            }
        }
        i = i + 1;
    }
    proof {
        assert(v@.take(v@.len() as int) =~= v@);
        lemma_ascending_unique(views(r@), ordered_names(v@));
    }
    r
}

/// Rust's debug rendering of a text: quoted, with special characters
/// escaped.
pub uninterp spec fn str_debug(s: Seq<char>) -> Seq<char>;

/// Renders a text as Rust's debug formatting does.
///
/// Calls `format!` with `{:?}` on the `&str`; the contract names the result
/// and says nothing more of it.
#[verifier::external_body]
pub(crate) fn debug_str(s: &str) -> (r: String)
    ensures
        r@ == str_debug(s@),
{
    format!("{:?}", s)
}

/// The debug rendering of an ordered set of texts: `{"a", "b"}`.
pub open spec fn set_debug(s: Seq<Seq<char>>) -> Seq<char> {
    "{"@ + joined(s.map_values(|t: Seq<char>| str_debug(t)), ", "@) + "}"@
}

/// The debug rendering of the distinct texts of `names`, in order.
fn names_debug(names: &Vec<String>) -> (r: String)
    ensures
        r@ == set_debug(ordered_names(names@)),
{
    let sorted = sorted_names(names);
    let ghost dv = views(sorted@).map_values(|t: Seq<char>| str_debug(t));
    let mut s = String::new();
    push_str(&mut s, "{");
    let ghost head = s@;
    let mut k: usize = 0;
    while k < sorted.len()
        invariant
            dv == views(sorted@).map_values(|t: Seq<char>| str_debug(t)),
            k <= sorted@.len(),
            s@ == head + joined(dv.take(k as int), ", "@),
        decreases sorted@.len() - k,
    {
        if k > 0 {
            push_str(&mut s, ", ");
        }
        let d = debug_str(sorted[k].as_str());
        push_str(&mut s, d.as_str());
        proof {
            let t = dv.take(k + 1);
            assert(t.drop_last() =~= dv.take(k as int));
            assert(t.last() == str_debug(sorted@[k as int]@));
            if k == 0 {
                assert(dv.take(0) =~= Seq::<Seq<char>>::empty());
            }
            assert(s@ =~= head + joined(t, ", "@));
        }
        k = k + 1;
    }
    assert(dv.take(dv.len() as int) =~= dv);
    push_str(&mut s, "}");
    s
}

/// The position of the last bundle whose media item has uuid `u` (the one
/// a map keyed by uuid keeps).
pub open spec fn last_with_uuid(d: Seq<MediaBundle>, u: Seq<char>) -> Option<int>
    decreases d.len(),
{
    if d.len() == 0 {
        None
    } else if d.last().media@.uuid == u {
        Some(d.len() - 1)
    } else {
        last_with_uuid(d.drop_last(), u)
    }
}

proof fn lemma_last_with_uuid_bounds(d: Seq<MediaBundle>, u: Seq<char>)
    ensures
        last_with_uuid(d, u) matches Some(j) ==> 0 <= j < d.len() && d[j].media@.uuid == u,
    decreases d.len(),
{
    if d.len() > 0 && d.last().media@.uuid != u {
        lemma_last_with_uuid_bounds(d.drop_last(), u);
    }
}

/// The position of the last bundle whose media item has uuid `u`.
fn find_uuid(d: &Vec<MediaBundle>, u: &str) -> (r: Option<usize>)
    ensures
        match r {
            Some(j) => last_with_uuid(d@, u@) == Some(j as int),
            None => last_with_uuid(d@, u@) is None,
        },
{
    let mut k: usize = d.len();
    assert(d@.take(k as int) =~= d@);
    while k > 0
        invariant
            k <= d@.len(),
            last_with_uuid(d@, u@) == last_with_uuid(d@.take(k as int), u@),
        decreases k,
    {
        proof {
            let t = d@.take(k as int);
            assert(t.drop_last() =~= d@.take(k - 1));
            assert(t.last() == d@[k - 1]);
        }
        if str_eq(d[k - 1].media.uuid.as_str(), u) {
            return Some(k - 1);
        }
        k = k - 1;
    }
    None
}

/// Sum of `f` over the bundles.
pub open spec fn total_of(s: Seq<MediaBundle>, f: spec_fn(MediaBundle) -> nat) -> nat
    decreases s.len(),
{
    if s.len() == 0 {
        0
    } else {
        total_of(s.drop_last(), f) + f(s.last())
    }
}

/// Tag links of a bundle.
pub open spec fn tag_links(b: MediaBundle) -> nat {
    b.tag_names@.len()
}

/// Attributes of a bundle.
pub open spec fn attr_rows(b: MediaBundle) -> nat {
    b.attributes@.len()
}

/// Hashes of a bundle.
pub open spec fn hash_rows(b: MediaBundle) -> nat {
    b.hashes@.len()
}

/// The first problem with the media items from position `i` on: one missing
/// from the destination, or one whose content differs.
pub open spec fn media_problem(src: Seq<MediaBundle>, dst: Seq<MediaBundle>, i: int) -> Option<Seq<char>>
    decreases src.len() - i,
{
    if i < 0 || i >= src.len() {
        None
    } else {
        let s = src[i].media@;
        match last_with_uuid(dst, s.uuid) {
            None => Some("dest に uuid="@ + s.uuid + " の media がない"@),
            Some(j) => if !same_content(s, dst[j].media@) {
                Some("media 内容不一致 (uuid="@ + s.uuid + "): title source="@ + str_debug(s.title)
                    + " dest="@ + str_debug(dst[j].media@.title))
            } else {
                media_problem(src, dst, i + 1)
            },
        }
    }
}

/// The first problem with the rows hanging on the media items from position
/// `i` on: tag names, attributes or hashes that differ.
pub open spec fn relation_problem(src: Seq<MediaBundle>, dst: Seq<MediaBundle>, i: int) -> Option<Seq<char>>
    decreases src.len() - i,
{
    if i < 0 || i >= src.len() {
        None
    } else {
        let s = src[i];
        let u = s.media@.uuid;
        let d = dst[last_with_uuid(dst, u).unwrap()];
        if name_set(s.tag_names@) != name_set(d.tag_names@) {
            Some("media_tags 不一致 (uuid="@ + u + "): source="@ + set_debug(ordered_names(s.tag_names@))
                + " dest="@ + set_debug(ordered_names(d.tag_names@)))
        } else if attr_set(s.attributes@) != attr_set(d.attributes@) {
            Some("attributes 不一致 (uuid="@ + u + ")"@)
        } else if hash_set(s.hashes@) != hash_set(d.hashes@) {
            Some("hashes 不一致 (uuid="@ + u + ")"@)
        } else {
            relation_problem(src, dst, i + 1)
        }
    }
}

/// What the check of a transfer gives: the counts (media, tags, tag links,
/// attributes, hashes), or the message of the first difference found.
pub open spec fn transfer_check(src: Seq<MediaBundle>, dst: Seq<MediaBundle>, src_tags: Seq<String>, dst_tags: Seq<String>)
    -> Result<(nat, nat, nat, nat, nat), Seq<char>>
{
    if src.len() != dst.len() {
        Err("media 件数不一致: source="@ + dec_nat(src.len()) + " dest="@ + dec_nat(dst.len()))
    } else if media_problem(src, dst, 0) is Some {
        Err(media_problem(src, dst, 0).unwrap())
    } else if name_set(src_tags) != name_set(dst_tags) {
        Err("tags 不一致: source="@ + set_debug(ordered_names(src_tags)) + " dest="@ + set_debug(ordered_names(dst_tags)))
    } else if relation_problem(src, dst, 0) is Some {
        Err(relation_problem(src, dst, 0).unwrap())
    } else {
        Ok((src.len(), src_tags.len(), total_of(src, |b: MediaBundle| tag_links(b)),
            total_of(src, |b: MediaBundle| attr_rows(b)), total_of(src, |b: MediaBundle| hash_rows(b))))
    }
}

proof fn lemma_media_found(src: Seq<MediaBundle>, dst: Seq<MediaBundle>, i: int, k: int)
    requires
        0 <= i <= k < src.len(),
        media_problem(src, dst, i) is None,
    ensures
        last_with_uuid(dst, src[k].media@.uuid) is Some,
    decreases k - i,
{
    if i < k {
        lemma_media_found(src, dst, i + 1, k);
    }
}

/// Checks that the destination holds the same data as the source: as many
/// media items, each with a counterpart of the same uuid and content, the
/// same tag names, and per media item the same tag names, attributes and
/// hashes. On success the report counts the source's rows.
pub fn verify_transfer(src: &Vec<MediaBundle>, dst: &Vec<MediaBundle>, src_tags: &Vec<String>, dst_tags: &Vec<String>)
    -> (r: Result<TransferReport, KijukuError>)
    requires
        total_of(src@, |b: MediaBundle| tag_links(b)) <= usize::MAX,
        total_of(src@, |b: MediaBundle| attr_rows(b)) <= usize::MAX,
        total_of(src@, |b: MediaBundle| hash_rows(b)) <= usize::MAX,
    ensures
        match r {
            Ok(rep) => rep.verified && transfer_check(src@, dst@, src_tags@, dst_tags@) == Ok::<_, Seq<char>>(
                (rep.media as nat, rep.tags as nat, rep.media_tags as nat, rep.attributes as nat, rep.hashes as nat)),
            Err(e) => other_text(e) matches Some(m) && transfer_check(src@, dst@, src_tags@, dst_tags@) == Err::<(nat, nat, nat, nat, nat), _>(m),
        },
{
    if src.len() != dst.len() {
        let mut m = String::new();
        push_str(&mut m, "media 件数不一致: source=");
        push_usize(&mut m, src.len());
        push_str(&mut m, " dest=");
        push_usize(&mut m, dst.len());
        assert(m@ =~= "media 件数不一致: source="@ + dec_nat(src@.len()) + " dest="@ + dec_nat(dst@.len()));
        return Err(other_error(m));
    }
    let mut i: usize = 0;
    while i < src.len()
        invariant
            i <= src@.len(),
            src@.len() == dst@.len(),
            media_problem(src@, dst@, 0) == media_problem(src@, dst@, i as int),
        decreases src@.len() - i,
    {
        let s = &src[i].media;
        match find_uuid(dst, s.uuid.as_str()) {
            None => {
                let mut m = String::new();
                push_str(&mut m, "dest に uuid=");
                push_str(&mut m, s.uuid.as_str());
                push_str(&mut m, " の media がない");
                assert(m@ =~= "dest に uuid="@ + s.uuid@ + " の media がない"@);
                return Err(other_error(m));
            },
            Some(j) => {
                proof {
                    lemma_last_with_uuid_bounds(dst@, s.uuid@);
                }
                if !media_content_eq(s, &dst[j].media) {
                    let mut m = String::new();
                    push_str(&mut m, "media 内容不一致 (uuid=");
                    push_str(&mut m, s.uuid.as_str());
                    push_str(&mut m, "): title source=");
                    let ts = debug_str(s.title.as_str());
                    push_str(&mut m, ts.as_str());
                    push_str(&mut m, " dest=");
                    let td = debug_str(dst[j].media.title.as_str());
                    push_str(&mut m, td.as_str());
                    assert(m@ =~= "media 内容不一致 (uuid="@ + s.uuid@ + "): title source="@ + str_debug(s.title@)
                        + " dest="@ + str_debug(dst@[j as int].media@.title));
                    return Err(other_error(m));
                }
            },
        }
        i = i + 1;
    }
    if !names_equal(src_tags, dst_tags) {
        let mut m = String::new();
        push_str(&mut m, "tags 不一致: source=");
        let a = names_debug(src_tags);
        push_str(&mut m, a.as_str());
        push_str(&mut m, " dest=");
        let b = names_debug(dst_tags);
        push_str(&mut m, b.as_str());
        assert(m@ =~= "tags 不一致: source="@ + set_debug(ordered_names(src_tags@)) + " dest="@
            + set_debug(ordered_names(dst_tags@)));
        return Err(other_error(m));
    }
    let mut links: usize = 0;
    let mut attrs: usize = 0;
    let mut hashes: usize = 0;
    let mut i: usize = 0;
    while i < src.len()
        invariant
            i <= src@.len(),
            src@.len() == dst@.len(),
            media_problem(src@, dst@, 0) is None,
            name_set(src_tags@) == name_set(dst_tags@),
            relation_problem(src@, dst@, 0) == relation_problem(src@, dst@, i as int),
            links == total_of(src@.take(i as int), |b: MediaBundle| tag_links(b)),
            attrs == total_of(src@.take(i as int), |b: MediaBundle| attr_rows(b)),
            hashes == total_of(src@.take(i as int), |b: MediaBundle| hash_rows(b)),
            total_of(src@, |b: MediaBundle| tag_links(b)) <= usize::MAX,
            total_of(src@, |b: MediaBundle| attr_rows(b)) <= usize::MAX,
            total_of(src@, |b: MediaBundle| hash_rows(b)) <= usize::MAX,
        decreases src@.len() - i,
    {
        let s = &src[i];
        proof {
            lemma_media_found(src@, dst@, 0, i as int);
            lemma_last_with_uuid_bounds(dst@, s.media@.uuid);
        }
        let j = find_uuid(dst, s.media.uuid.as_str()).unwrap();
        let d = &dst[j];
        if !names_equal(&s.tag_names, &d.tag_names) {
            let mut m = String::new();
            push_str(&mut m, "media_tags 不一致 (uuid=");
            push_str(&mut m, s.media.uuid.as_str());
            push_str(&mut m, "): source=");
            let a = names_debug(&s.tag_names);
            push_str(&mut m, a.as_str());
            push_str(&mut m, " dest=");
            let b = names_debug(&d.tag_names);
            push_str(&mut m, b.as_str());
            assert(m@ =~= "media_tags 不一致 (uuid="@ + s.media@.uuid + "): source="@
                + set_debug(ordered_names(s.tag_names@)) + " dest="@ + set_debug(ordered_names(d.tag_names@)));
            return Err(other_error(m));
        }
        if !attrs_equal(&s.attributes, &d.attributes) {
            let mut m = String::new();
            push_str(&mut m, "attributes 不一致 (uuid=");
            push_str(&mut m, s.media.uuid.as_str());
            push_str(&mut m, ")");
            assert(m@ =~= "attributes 不一致 (uuid="@ + s.media@.uuid + ")"@);
            return Err(other_error(m));
        }
        if !hashes_equal(&s.hashes, &d.hashes) {
            let mut m = String::new();
            push_str(&mut m, "hashes 不一致 (uuid=");
            push_str(&mut m, s.media.uuid.as_str());
            push_str(&mut m, ")");
            assert(m@ =~= "hashes 不一致 (uuid="@ + s.media@.uuid + ")"@);
            return Err(other_error(m));
        }
        proof {
            let t = src@.take(i + 1);
            assert(t.drop_last() =~= src@.take(i as int));
            assert(t.last() == src@[i as int]);
            lemma_total_prefix(src@, i + 1, |b: MediaBundle| tag_links(b));
            lemma_total_prefix(src@, i + 1, |b: MediaBundle| attr_rows(b));
            lemma_total_prefix(src@, i + 1, |b: MediaBundle| hash_rows(b));
        }
        links = links + s.tag_names.len();
        attrs = attrs + s.attributes.len();
        hashes = hashes + s.hashes.len();
        i = i + 1;
    }
    assert(src@.take(src@.len() as int) =~= src@);
    Ok(TransferReport {
        media: src.len(),
        tags: src_tags.len(),
        media_tags: links,
        attributes: attrs,
        hashes,
        verified: true,
    })
}

pub(crate) proof fn lemma_total_prefix(s: Seq<MediaBundle>, n: int, f: spec_fn(MediaBundle) -> nat)
    requires
        0 <= n <= s.len(),
    ensures
        total_of(s.take(n), f) <= total_of(s, f),
    decreases s.len(),
{
    if n < s.len() {
        assert(s.drop_last().take(n) =~= s.take(n));
        lemma_total_prefix(s.drop_last(), n, f);
    } else {
        assert(s.take(n) =~= s);
    }
}

/// New ids of moved rows, by text key (a uuid or a tag name). Setting a
/// key again replaces its id.
pub struct IdMap {
    entries: Vec<(String, i64)>,
}

impl View for IdMap {
    type V = Map<Seq<char>, i64>;

    closed spec fn view(&self) -> Map<Seq<char>, i64> {
        Map::new(
            |k: Seq<char>| exists|i: int| 0 <= i < self.entries@.len() && #[trigger] self.entries@[i].0@ == k,
            |k: Seq<char>| self.entries@[choose|i: int| 0 <= i < self.entries@.len() && #[trigger] self.entries@[i].0@ == k].1,
        )
    }
}

impl IdMap {
    /// No key occurs twice.
    pub closed spec fn wf(&self) -> bool {
        forall|i: int, j: int|
            0 <= i < j < self.entries@.len() ==> #[trigger] self.entries@[i].0@ != #[trigger] self.entries@[j].0@
    }

    /// An empty map.
    pub fn new() -> (r: Self)
        ensures
            r.wf(),
            r@ == Map::<Seq<char>, i64>::empty(),
    {
        let r = IdMap { entries: Vec::new() };
        assert(r@ =~= Map::<Seq<char>, i64>::empty());
        r
    }

    fn position(&self, key: &str) -> (r: Option<usize>)
        ensures
            match r {
                Some(i) => i < self.entries@.len() && self.entries@[i as int].0@ == key@,
                None => forall|i: int| 0 <= i < self.entries@.len() ==> #[trigger] self.entries@[i].0@ != key@,
            },
    {
        let mut i: usize = 0;
        while i < self.entries.len()
            invariant
                i <= self.entries@.len(),
                forall|j: int| 0 <= j < i ==> #[trigger] self.entries@[j].0@ != key@,
            decreases self.entries@.len() - i,
        {
            if str_eq(self.entries[i].0.as_str(), key) {
                return Some(i);
            }
            i = i + 1;
        }
        None
    }

    /// The id of `key`.
    pub fn get(&self, key: &str) -> (r: Option<i64>)
        requires
            self.wf(),
        ensures
            r == self@.get(key@),
    {
        match self.position(key) {
            Some(i) => {
                proof {
                    let j = choose|j: int| 0 <= j < self.entries@.len() && #[trigger] self.entries@[j].0@ == key@;
                    assert(j == i);
                }
                Some(self.entries[i].1)
            },
            None => None,
        }
    }

    /// Sets the id of `key`.
    pub fn insert(&mut self, key: &str, id: i64)
        requires
            old(self).wf(),
        ensures
            final(self).wf(),
            final(self)@ == old(self)@.insert(key@, id),
    {
        let ghost before = self.entries@;
        match self.position(key) {
            Some(i) => {
                let k = self.entries[i].0.clone();
                self.entries.set(i, (k, id));
                proof {
                    assert forall|a: int, b: int| 0 <= a < b < self.entries@.len() implies #[trigger] self.entries@[a].0@ != #[trigger] self.entries@[b].0@ by {
                        assert(before[a].0@ != before[b].0@);
                    }
                    assert forall|k2: Seq<char>| #[trigger] self@.dom().contains(k2) == old(self)@.insert(key@, id).dom().contains(k2) by {
                        if old(self)@.insert(key@, id).dom().contains(k2) {
                            if k2 == key@ {
                                assert(self.entries@[i as int].0@ == k2);
                            } else {
                                let j = choose|j: int| 0 <= j < before.len() && #[trigger] before[j].0@ == k2;
                                assert(self.entries@[j].0@ == k2);
                            }
                        }
                        if self@.dom().contains(k2) {
                            let j = choose|j: int| 0 <= j < self.entries@.len() && #[trigger] self.entries@[j].0@ == k2;
                            assert(before[j].0@ == k2);
                        }
                    }
                    assert forall|k2: Seq<char>| #[trigger] self@.dom().contains(k2) implies self@[k2] == old(self)@.insert(key@, id)[k2] by {
                        let j = choose|j: int| 0 <= j < self.entries@.len() && #[trigger] self.entries@[j].0@ == k2;
                        if k2 == key@ {
                            assert(j == i);
                        } else {
                            let j0 = choose|j0: int| 0 <= j0 < before.len() && #[trigger] before[j0].0@ == k2;
                            assert(before[j].0@ == k2);
                            assert(j0 == j);
                        }
                    }
                    assert(self@ =~= old(self)@.insert(key@, id));
                }
            },
            None => {
                self.entries.push((key.to_string(), id));
                proof {
                    let n = before.len() as int;
                    assert forall|a: int, b: int| 0 <= a < b < self.entries@.len() implies #[trigger] self.entries@[a].0@ != #[trigger] self.entries@[b].0@ by {
                        if b < n {
                            assert(before[a].0@ != before[b].0@);
                        }
                    }
                    assert forall|k2: Seq<char>| #[trigger] self@.dom().contains(k2) == old(self)@.insert(key@, id).dom().contains(k2) by {
                        if old(self)@.insert(key@, id).dom().contains(k2) {
                            if k2 == key@ {
                                assert(self.entries@[n].0@ == k2);
                            } else {
                                let j = choose|j: int| 0 <= j < before.len() && #[trigger] before[j].0@ == k2;
                                assert(self.entries@[j].0@ == k2);
                            }
                        }
                        if self@.dom().contains(k2) {
                            let j = choose|j: int| 0 <= j < self.entries@.len() && #[trigger] self.entries@[j].0@ == k2;
                            if j < n {
                                assert(before[j].0@ == k2);
                            }
                        }
                    }
                    assert forall|k2: Seq<char>| #[trigger] self@.dom().contains(k2) implies self@[k2] == old(self)@.insert(key@, id)[k2] by {
                        let j = choose|j: int| 0 <= j < self.entries@.len() && #[trigger] self.entries@[j].0@ == k2;
                        if k2 == key@ {
                            assert(j == n);
                        } else {
                            let j0 = choose|j0: int| 0 <= j0 < before.len() && #[trigger] before[j0].0@ == k2;
                            assert(j < n);
                            assert(before[j].0@ == k2);
                            assert(j0 == j);
                        }
                    }
                    assert(self@ =~= old(self)@.insert(key@, id));
                }
            },
        }
    }
}

/// Records the new ids of created media items by uuid.
pub fn record_created(ids: &mut IdMap, created: &Vec<Media>)
    requires
        old(ids).wf(),
    ensures
        final(ids).wf(),
        final(ids)@ == uuid_ids(old(ids)@, created@),
{
    let mut i: usize = 0;
    while i < created.len()
        invariant
            ids.wf(),
            i <= created@.len(),
            ids@ == uuid_ids(old(ids)@, created@.take(i as int)),
        decreases created@.len() - i,
    {
        ids.insert(created[i].uuid.as_str(), created[i].id);
        assert(created@.take(i + 1).drop_last() =~= created@.take(i as int));
        i = i + 1;
    }
    assert(created@.take(created@.len() as int) =~= created@);
}

/// `m` with each created item's uuid set to its id, in order.
pub open spec fn uuid_ids(m: Map<Seq<char>, i64>, created: Seq<Media>) -> Map<Seq<char>, i64>
    decreases created.len(),
{
    if created.len() == 0 {
        m
    } else {
        uuid_ids(m, created.drop_last()).insert(created.last().uuid@, created.last().id)
    }
}

/// The new id of the media item with uuid `uuid`; an error when no created
/// item has it.
pub fn new_media_id(ids: &IdMap, uuid: &str) -> (r: Result<i64, KijukuError>)
    requires
        ids.wf(),
    ensures
        match r {
            Ok(id) => ids@.get(uuid@) == Some(id),
            Err(e) => ids@.get(uuid@) is None && other_text(e) == Some("uuid "@ + uuid@ + " の新 id が不明"@),
        },
{
    match ids.get(uuid) {
        Some(id) => Ok(id),
        None => {
            let mut m = String::new();
            push_str(&mut m, "uuid ");
            push_str(&mut m, uuid);
            push_str(&mut m, " の新 id が不明");
            assert(m@ =~= "uuid "@ + uuid@ + " の新 id が不明"@);
            Err(other_error(m))
        },
    }
}

/// The new id of the tag named `name`, for a link of media item `media_id`
/// of the source; an error when the destination has no such tag.
pub fn new_tag_id(ids: &IdMap, media_id: i64, name: &str) -> (r: Result<i64, KijukuError>)
    requires
        ids.wf(),
    ensures
        match r {
            Ok(id) => ids@.get(name@) == Some(id),
            Err(e) => ids@.get(name@) is None
                && other_text(e) == Some("media(id="@ + dec_int(media_id as int) + ") のタグ '"@ + name@ + "' に対応する dest タグがない"@),
        },
{
    match ids.get(name) {
        Some(id) => Ok(id),
        None => {
            let mut m = String::new();
            push_str(&mut m, "media(id=");
            push_i64(&mut m, media_id);
            push_str(&mut m, ") のタグ '");
            push_str(&mut m, name);
            push_str(&mut m, "' に対応する dest タグがない");
            assert(m@ =~= "media(id="@ + dec_int(media_id as int) + ") のタグ '"@ + name@ + "' に対応する dest タグがない"@);
            Err(other_error(m))
        },
    }
}

/// Two hash rows agree in file name, time range, hash bytes and the item
/// they are an alternative of.
pub open spec fn hash_rows_agree(a: MediaHash, b: MediaHash) -> bool {
    &&& a.filename@ == b.filename@
    &&& a.time_range@ == b.time_range@
    &&& a.content_hash@ == b.content_hash@
    &&& opt_str_view(a.alternative_of) == opt_str_view(b.alternative_of)
}

/// Two attributes agree in key, value and value type.
pub open spec fn attrs_agree(a: MediaAttribute, b: MediaAttribute) -> bool {
    &&& a.key@ == b.key@
    &&& opt_str_view(a.value) == opt_str_view(b.value)
    &&& a.value_type == b.value_type
}

/// Some hash row of `b` agrees with `h`.
pub open spec fn hash_in(h: MediaHash, b: Seq<MediaHash>) -> bool {
    exists|l: int| 0 <= l < b.len() && hash_rows_agree(h, #[trigger] b[l])
}

/// Each hash row of `a` has an agreeing row in `b`.
pub open spec fn hashes_covered(a: Seq<MediaHash>, b: Seq<MediaHash>) -> bool {
    forall|k: int| 0 <= k < a.len() ==> hash_in(#[trigger] a[k], b)
}

/// Some attribute of `b` agrees with `x`.
pub open spec fn attr_in(x: MediaAttribute, b: Seq<MediaAttribute>) -> bool {
    exists|l: int| 0 <= l < b.len() && attrs_agree(x, #[trigger] b[l])
}

/// Each attribute of `a` has an agreeing attribute in `b`.
pub open spec fn attrs_covered(a: Seq<MediaAttribute>, b: Seq<MediaAttribute>) -> bool {
    forall|k: int| 0 <= k < a.len() ==> attr_in(#[trigger] a[k], b)
}

/// Some tag name of `b` is `x`.
pub open spec fn name_in(x: Seq<char>, b: Seq<String>) -> bool {
    exists|l: int| 0 <= l < b.len() && (#[trigger] b[l])@ == x
}

/// Each tag name of `a` is among those of `b`.
pub open spec fn names_covered(a: Seq<String>, b: Seq<String>) -> bool {
    forall|k: int| 0 <= k < a.len() ==> name_in((#[trigger] a[k])@, b)
}

proof fn lemma_media_problem_from(src: Seq<MediaBundle>, dst: Seq<MediaBundle>, i: int, k: int)
    requires
        0 <= i <= k < src.len(),
        media_problem(src, dst, i) is None,
    ensures
        media_problem(src, dst, k) is None,
    decreases k - i,
{
    if i < k {
        lemma_media_problem_from(src, dst, i + 1, k);
    }
}

proof fn lemma_relation_problem_from(src: Seq<MediaBundle>, dst: Seq<MediaBundle>, i: int, k: int)
    requires
        0 <= i <= k < src.len(),
        relation_problem(src, dst, i) is None,
    ensures
        relation_problem(src, dst, k) is None,
    decreases k - i,
{
    if i < k {
        lemma_relation_problem_from(src, dst, i + 1, k);
    }
}

proof fn lemma_hash_sets_cover(a: Seq<MediaHash>, b: Seq<MediaHash>)
    requires
        hash_set(a) == hash_set(b),
    ensures
        hashes_covered(a, b),
{
    assert forall|k: int| 0 <= k < a.len() implies hash_in(#[trigger] a[k], b) by {
        assert(hash_set(a).contains(hash_key(a[k])));
        assert(hash_set(b).contains(hash_key(a[k])));
        let l = choose|l: int| 0 <= l < b.len() && #[trigger] hash_key(b[l]) == hash_key(a[k]);
        assert(hash_rows_agree(a[k], b[l]));
    }
}

proof fn lemma_attr_sets_cover(a: Seq<MediaAttribute>, b: Seq<MediaAttribute>)
    requires
        attr_set(a) == attr_set(b),
    ensures
        attrs_covered(a, b),
{
    assert forall|k: int| 0 <= k < a.len() implies attr_in(#[trigger] a[k], b) by {
        assert(attr_set(a).contains(attr_key(a[k])));
        assert(attr_set(b).contains(attr_key(a[k])));
        let l = choose|l: int| 0 <= l < b.len() && #[trigger] attr_key(b[l]) == attr_key(a[k]);
        assert(attrs_agree(a[k], b[l]));
    }
}

proof fn lemma_name_sets_cover(a: Seq<String>, b: Seq<String>)
    requires
        name_set(a) == name_set(b),
    ensures
        names_covered(a, b),
{
    assert forall|k: int| 0 <= k < a.len() implies name_in((#[trigger] a[k])@, b) by {
        assert(name_set(a).contains(a[k]@));
        assert(name_set(b).contains(a[k]@));
        let l = choose|l: int| 0 <= l < b.len() && #[trigger] b[l]@ == a[k]@;
        assert(a[k]@ == b[l]@);
    }
}

/// When the check of a transfer passes (as `verify_transfer` reports by
/// `Ok`), both databases hold as many media items, the same tag names, and
/// every source media item has its counterpart in the destination (the
/// last item with its uuid) that differs from it only in id and times and
/// carries the same rows: each tag name, attribute (key, value, value
/// type) and hash row (file name, time range, hash bytes, alternative) of
/// either one has its equal in the other.
pub proof fn law_checked_transfer_same_rows(
    src: Seq<MediaBundle>,
    dst: Seq<MediaBundle>,
    src_tags: Seq<String>,
    dst_tags: Seq<String>,
    i: int,
)
    requires
        transfer_check(src, dst, src_tags, dst_tags) is Ok,
        0 <= i < src.len(),
    ensures
        src.len() == dst.len(),
        names_covered(src_tags, dst_tags) && names_covered(dst_tags, src_tags),
        exists|j: int| {
            &&& 0 <= j < dst.len()
            &&& last_with_uuid(dst, src[i].media@.uuid) == Some(j)
            &&& dst[j].media@ == (MediaView {
                id: dst[j].media@.id,
                created_at: dst[j].media@.created_at,
                updated_at: dst[j].media@.updated_at,
                ..src[i].media@
            })
            &&& names_covered(src[i].tag_names@, dst[j].tag_names@)
            &&& names_covered(dst[j].tag_names@, src[i].tag_names@)
            &&& attrs_covered(src[i].attributes@, dst[j].attributes@)
            &&& attrs_covered(dst[j].attributes@, src[i].attributes@)
            &&& hashes_covered(src[i].hashes@, dst[j].hashes@)
            &&& hashes_covered(dst[j].hashes@, src[i].hashes@)
        },
{
    lemma_name_sets_cover(src_tags, dst_tags);
    lemma_name_sets_cover(dst_tags, src_tags);
    lemma_media_found(src, dst, 0, i);
    lemma_media_problem_from(src, dst, 0, i);
    lemma_relation_problem_from(src, dst, 0, i);
    let u = src[i].media@.uuid;
    lemma_last_with_uuid_bounds(dst, u);
    let j = last_with_uuid(dst, u).unwrap();
    let s = src[i];
    let d = dst[j];
    assert(same_content(s.media@, d.media@));
    assert(MediaView { id: 0, created_at: 0, updated_at: 0, ..s.media@ } == MediaView { id: 0, created_at: 0, updated_at: 0, ..d.media@ });
    assert(d.media@ == (MediaView { id: d.media@.id, created_at: d.media@.created_at, updated_at: d.media@.updated_at, ..s.media@ }));
    lemma_name_sets_cover(s.tag_names@, d.tag_names@);
    lemma_name_sets_cover(d.tag_names@, s.tag_names@);
    lemma_attr_sets_cover(s.attributes@, d.attributes@);
    lemma_attr_sets_cover(d.attributes@, s.attributes@);
    lemma_hash_sets_cover(s.hashes@, d.hashes@);
    lemma_hash_sets_cover(d.hashes@, s.hashes@);
}

} // verus!
