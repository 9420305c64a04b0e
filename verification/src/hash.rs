//! Content hashes of media: hexadecimal text of hash bytes, recognition of
//! image files, and the combined hash of a comic's pages.
use vstd::prelude::*;
use vstd::string::StringSliceAdditionalSpecFns;
use vstd::utf8::{encode_utf8, is_continuation_byte, is_ascii_chars};
use crate::error::KijukuError;
use crate::crud::{SqlParam, SqlValue, param_values, execute_statement, opt_text_value};
use crate::db_value::{SqlRow, parse_text, err_of, col_text, col_blob, col_int, col_opt_text, col_opt_blob};
use crate::exec_local::query;
use crate::error::{other_text, other_error};
use crate::text::{digit_char, push_char, push_str};
use crate::order::{lex_lt, lemma_lex_lt_transitive};
use crate::tally::{text_rank, TallyKey};
use crate::table::views;
use crate::transfer::{text_before, lemma_text_order};
use crate::records::chars_of;
use crate::types::{Media, MediaHash, MediaHashView, MediaHashInput, MediaHashInputView, opt_str_view, clone_bytes, slice_bytes};

verus! {

broadcast use vstd::std_specs::vec::group_vec_axioms;

/// Value of a hexadecimal digit byte (either case).
pub open spec fn hex_value(b: u8) -> Option<u8> {
    if 48 <= b <= 57 {
        Some((b - 48) as u8)
    } else if 97 <= b <= 102 {
        Some((b - 87) as u8)
    } else if 65 <= b <= 70 {
        Some((b - 55) as u8)
    } else {
        None
    }
}

/// Value of a two-byte chunk read as a base-16 `u8`: two hex digits, or a
/// `+` sign followed by one hex digit.
pub open spec fn hex_pair(b0: u8, b1: u8) -> Option<u8> {
    if b0 == 43 {
        hex_value(b1)
    } else {
        match (hex_value(b0), hex_value(b1)) {
            (Some(h), Some(l)) => Some((h * 16 + l) as u8),
            _ => None,
        }
    }
}

/// The bytes that a hexadecimal text of even length denotes, two bytes of
/// text per byte, if every chunk is valid.
pub open spec fn hex_decode(b: Seq<u8>) -> Option<Seq<u8>>
    decreases b.len(),
{
    if b.len() == 0 {
        Some(Seq::empty())
    } else if b.len() < 2 {
        None
    } else {
        match hex_pair(b[0], b[1]) {
            Some(v) => match hex_decode(b.skip(2)) {
                Some(rest) => Some(seq![v] + rest),
                None => None,
            },
            None => None,
        }
    }
}

/// Reading the text two bytes at a time reaches a chunk boundary that
/// splits a character, before any chunk fails to parse.
pub open spec fn hex_chunks_split_char(b: Seq<u8>) -> bool
    decreases b.len(),
{
    if b.len() < 2 {
        false
    } else if b.len() > 2 && is_continuation_byte(b[2]) {
        true
    } else if hex_pair(b[0], b[1]) is Some {
        hex_chunks_split_char(b.skip(2))
    } else {
        false
    }
}

/// Text of the error for an odd-length hexadecimal text.
pub open spec fn odd_length_message() -> Seq<char> {
    "HEX string must have even length"@
}

/// Text of the error for an invalid hexadecimal chunk.
pub open spec fn invalid_hex_message() -> Seq<char> {
    "Invalid HEX character: invalid digit found in string"@
}

fn hex_value_exec(b: u8) -> (r: Option<u8>)
    ensures
        r == hex_value(b),
{
    if 48 <= b && b <= 57 {
        Some(b - 48)
    } else if 97 <= b && b <= 102 {
        Some(b - 87)
    } else if 65 <= b && b <= 70 {
        Some(b - 55)
    } else {
        None
    }
}

fn hex_pair_exec(b0: u8, b1: u8) -> (r: Option<u8>)
    ensures
        r == hex_pair(b0, b1),
{
    if b0 == 43 {
        hex_value_exec(b1)
    } else {
        match (hex_value_exec(b0), hex_value_exec(b1)) {
            (Some(h), Some(l)) => Some(h * 16 + l),
            _ => None,
        }
    }
}

/// Converts a hexadecimal text to bytes, two text bytes per byte.
pub fn hex_to_bytes(hex: &str) -> (r: Result<Vec<u8>, KijukuError>)
    requires
        hex.spec_bytes().len() % 2 == 0 ==> !hex_chunks_split_char(hex.spec_bytes()),
    ensures
        hex.spec_bytes().len() % 2 != 0 ==> (r matches Err(KijukuError::Validation(m)) && m@ == odd_length_message()),
        hex.spec_bytes().len() % 2 == 0 ==> match hex_decode(hex.spec_bytes()) {
            Some(v) => (r matches Ok(out) && out@ == v),
            None => (r matches Err(KijukuError::Validation(m)) && m@ == invalid_hex_message()),
        },
{
    let b = hex.as_bytes();
    if b.len() % 2 != 0 {
        return Err(KijukuError::Validation("HEX string must have even length".to_owned()));
    }
    let ghost bs = b@;
    let mut out: Vec<u8> = Vec::new();
    let mut i: usize = 0;
    proof {
        assert(bs.skip(0) =~= bs);
        match hex_decode(bs) {
            Some(rest) => {
                assert(out@ + rest =~= rest);
            },
            None => {},
        }
    }
    while i < b.len()
        invariant
            bs == b@,
            bs == hex.spec_bytes(),
            bs.len() % 2 == 0,
            i <= bs.len(),
            i % 2 == 0,
            hex_decode(bs) == match hex_decode(bs.skip(i as int)) {
                Some(rest) => Some(out@ + rest),
                None => None::<Seq<u8>>,
            },
        decreases bs.len() - i,
    {
        let ghost cur = bs.skip(i as int);
        assert(cur[0] == b@[i as int] && cur[1] == b@[i + 1]);
        assert(cur.skip(2) =~= bs.skip(i + 2));
        match hex_pair_exec(b[i], b[i + 1]) {
            Some(v) => {
                proof {
                    match hex_decode(cur.skip(2)) {
                        Some(rest) => {
                            assert(out@.push(v) + rest =~= out@ + (seq![v] + rest));
                        },
                        None => {},
                    }
                }
                out.push(v);
                i = i + 2;
            },
            None => {
                assert(hex_decode(cur) is None);
                assert(hex_decode(hex.spec_bytes()) is None);
                return Err(KijukuError::Validation(
                    "Invalid HEX character: invalid digit found in string".to_owned(),
                ));
            },
        }
    }
    assert(bs.skip(i as int) =~= Seq::<u8>::empty());
    assert(out@ + Seq::<u8>::empty() =~= out@);
    Ok(out)
}

/// Lower-case hexadecimal digit of a value below 16.
pub open spec fn hex_char(n: nat) -> char {
    if n < 10 {
        digit_char(n)
    } else if n == 10 {
        'a'
    } else if n == 11 {
        'b'
    } else if n == 12 {
        'c'
    } else if n == 13 {
        'd'
    } else if n == 14 {
        'e'
    } else {
        'f'
    }
}

/// Lower-case hexadecimal text of bytes, two digits per byte.
pub open spec fn hex_encode(b: Seq<u8>) -> Seq<char> {
    Seq::new(
        2 * b.len(),
        |j: int| if j % 2 == 0 { hex_char((b[j / 2] / 16) as nat) } else { hex_char((b[j / 2] % 16) as nat) },
    )
}

fn hex_char_exec(n: u8) -> (c: char)
    requires
        n < 16,
    ensures
        c == hex_char(n as nat),
{
    if n == 0 { '0' } else if n == 1 { '1' } else if n == 2 { '2' } else if n == 3 { '3' }
    else if n == 4 { '4' } else if n == 5 { '5' } else if n == 6 { '6' } else if n == 7 { '7' }
    else if n == 8 { '8' } else if n == 9 { '9' } else if n == 10 { 'a' } else if n == 11 { 'b' }
    else if n == 12 { 'c' } else if n == 13 { 'd' } else if n == 14 { 'e' } else { 'f' }
}

/// Lower-case hexadecimal text of bytes, two digits per byte.
pub fn bytes_to_hex(bytes: &[u8]) -> (s: String)
    ensures
        s@ == hex_encode(bytes@),
{
    let mut s = String::new();
    let mut i: usize = 0;
    while i < bytes.len()
        invariant
            i <= bytes@.len(),
            s@ == hex_encode(bytes@.take(i as int)),
        decreases bytes@.len() - i,
    {
        let b = bytes[i];
        push_char(&mut s, hex_char_exec(b / 16));
        push_char(&mut s, hex_char_exec(b % 16));
        i = i + 1;
        assert(s@ =~= hex_encode(bytes@.take(i as int)));
    }
    assert(bytes@.take(bytes@.len() as int) =~= bytes@);
    s
}

proof fn lemma_hex_char_value(n: nat)
    requires
        n < 16,
    ensures
        '\0' <= hex_char(n) <= '\u{7f}',
        hex_value(hex_char(n) as u8) == Some(n as u8),
        hex_char(n) as u8 != 43,
{
}

proof fn lemma_hex_encode_ascii(b: Seq<u8>)
    ensures
        is_ascii_chars(hex_encode(b)),
        encode_utf8(hex_encode(b)).len() == 2 * b.len(),
        forall|j: int| 0 <= j < 2 * b.len() ==> #[trigger] encode_utf8(hex_encode(b))[j] == hex_encode(b)[j] as u8,
{
    let e = hex_encode(b);
    assert forall|j: int| 0 <= j < e.len() implies '\0' <= #[trigger] e[j] <= '\u{7f}' by {
        lemma_hex_char_value((b[j / 2] / 16) as nat);
        lemma_hex_char_value((b[j / 2] % 16) as nat);
    }
    vstd::utf8::is_ascii_chars_encode_utf8(e);
}

proof fn lemma_hex_decode_encoded(b: Seq<u8>, t: Seq<u8>)
    requires
        t.len() == 2 * b.len(),
        forall|j: int| 0 <= j < t.len() ==> #[trigger] t[j] == hex_encode(b)[j] as u8,
    ensures
        hex_decode(t) == Some(b),
    decreases b.len(),
{
    if b.len() > 0 {
        let rest = b.drop_first();
        let tr = t.skip(2);
        assert forall|j: int| 0 <= j < tr.len() implies #[trigger] tr[j] == hex_encode(rest)[j] as u8 by {
            assert(tr[j] == t[j + 2]);
            assert((j + 2) / 2 == j / 2 + 1);
            assert((j + 2) % 2 == j % 2);
        }
        lemma_hex_decode_encoded(rest, tr);
        let hi = (b[0] / 16) as nat;
        let lo = (b[0] % 16) as nat;
        assert(t[0] == hex_char(hi) as u8);
        assert(t[1] == hex_char(lo) as u8);
        lemma_hex_char_value(hi);
        lemma_hex_char_value(lo);
        assert(hex_pair(t[0], t[1]) == Some(b[0]));
        assert(seq![b[0]] + rest =~= b);
    } else {
        assert(t =~= Seq::<u8>::empty());
    }
}

/// Decoding the hexadecimal text of any bytes gives those bytes back.
pub proof fn law_hex_round_trip(b: Seq<u8>)
    ensures
        hex_decode(encode_utf8(hex_encode(b))) == Some(b),
        encode_utf8(hex_encode(b)).len() % 2 == 0,
        !hex_chunks_split_char(encode_utf8(hex_encode(b))),
{
    lemma_hex_encode_ascii(b);
    let t = encode_utf8(hex_encode(b));
    lemma_hex_decode_encoded(b, t);
    lemma_no_split_ascii(t);
}

proof fn lemma_no_split_ascii(t: Seq<u8>)
    requires
        forall|j: int| 0 <= j < t.len() ==> #[trigger] t[j] < 128,
    ensures
        !hex_chunks_split_char(t),
    decreases t.len(),
{
    if t.len() >= 2 {
        assert forall|j: int| 0 <= j < t.skip(2).len() implies #[trigger] t.skip(2)[j] < 128 by {
            assert(t.skip(2)[j] == t[j + 2]);
        }
        lemma_no_split_ascii(t.skip(2));
    }
}

/// The SHA-256 digest of some bytes.
pub uninterp spec fn sha256_of(data: Seq<u8>) -> Seq<u8>;

/// The SHA-256 digest of `data`.
///
/// Calls `sha2::Digest::digest` of `sha2::Sha256`; the contract names the
/// digest and says that it has 32 bytes.
#[verifier::external_body]
fn compute_sha256_bytes(data: &[u8]) -> (r: Vec<u8>)
    ensures
        r@ == sha256_of(data@),
        r@.len() == 32,
{
    <sha2::Sha256 as sha2::Digest>::digest(data).to_vec()
}

/// The bytes of several hashes, one after the other.
pub open spec fn joined_hashes(hs: Seq<Seq<u8>>) -> Seq<u8>
    decreases hs.len(),
{
    if hs.len() == 0 {
        Seq::empty()
    } else {
        joined_hashes(hs.drop_last()) + hs.last()
    }
}

/// The values of some byte vectors.
pub open spec fn byte_views(hs: Seq<Vec<u8>>) -> Seq<Seq<u8>> {
    hs.map_values(|h: Vec<u8>| h@)
}

/// The hash of a comic as a whole: the SHA-256 of the hashes of its pages
/// joined in page order.
pub fn comic_whole_hash(page_hashes: &Vec<Vec<u8>>) -> (r: Vec<u8>)
    ensures
        r@ == sha256_of(joined_hashes(byte_views(page_hashes@))),
{
    let mut all: Vec<u8> = Vec::new();
    let mut i: usize = 0;
    while i < page_hashes.len()
        invariant
            i <= page_hashes@.len(),
            all@ == joined_hashes(byte_views(page_hashes@.take(i as int))),
        decreases page_hashes@.len() - i,
    {
        let ghost before = all@;
        let h = &page_hashes[i];
        let mut j: usize = 0;
        while j < h.len()
            invariant
                j <= h@.len(),
                all@ == before + h@.take(j as int),
            decreases h@.len() - j,
        {
            all.push(h[j]);
            assert(h@.take(j + 1) =~= h@.take(j as int).push(h@[j as int]));
            j = j + 1;
        }
        assert(h@.take(h@.len() as int) =~= h@);
        assert(byte_views(page_hashes@.take(i + 1)).drop_last() =~= byte_views(page_hashes@.take(i as int)));
        assert(byte_views(page_hashes@.take(i + 1)).last() == h@);
        i = i + 1;
    }
    assert(page_hashes@.take(page_hashes@.len() as int) =~= page_hashes@);
    compute_sha256_bytes(all.as_slice())
}

/// The text in lower case, as Unicode defines it.
pub uninterp spec fn lowercase_of(s: Seq<char>) -> Seq<char>;

/// `s` in lower case.
///
/// Calls `str::to_lowercase` of std; the contract names the result.
#[verifier::external_body]
fn lowercase(s: &str) -> (r: String)
    ensures
        r@ == lowercase_of(s@),
{
    s.to_lowercase()
}

/// Whether `s` ends with `t`.
pub open spec fn ends_with_text(s: Seq<char>, t: Seq<char>) -> bool {
    t.len() <= s.len() && s.subrange(s.len() - t.len(), s.len() as int) == t
}

fn ends_with_chars(s: &Vec<char>, t: &str) -> (r: bool)
    ensures
        r == ends_with_text(s@, t@),
{
    let tc = chars_of(t);
    if tc.len() > s.len() {
        return false;
    }
    let slen = s.len();
    let off = slen - tc.len();
    let mut i: usize = 0;
    while i < tc.len()
        invariant
            tc@ == t@,
            slen == s@.len(),
            off + tc@.len() == s@.len(),
            i <= tc@.len(),
            forall|k: int| 0 <= k < i ==> s@[off + k] == #[trigger] tc@[k],
        decreases tc@.len() - i,
    {
        if s[off + i] != tc[i] {
            proof {
                let sub = s@.subrange(off as int, s@.len() as int);
                assert(sub[i as int] == s@[off + i]);
                if sub == t@ {
                    assert(sub[i as int] == t@[i as int]);
                    assert(false);
                }
            }
            return false;
        }
        i = i + 1;
    }
    assert(s@.subrange(off as int, s@.len() as int) =~= tc@);
    true
}

/// Whether a file name names an image: in lower case it ends with `.jpg`,
/// `.jpeg`, `.png`, `.gif` or `.webp`.
pub open spec fn image_name(name: Seq<char>) -> bool {
    let l = lowercase_of(name);
    ends_with_text(l, ".jpg"@) || ends_with_text(l, ".jpeg"@) || ends_with_text(l, ".png"@)
        || ends_with_text(l, ".gif"@) || ends_with_text(l, ".webp"@)
}

/// Whether a file name names an image (see `image_name`).
pub fn is_image_file(name: &str) -> (r: bool)
    ensures
        r == image_name(name@),
{
    let lower = lowercase(name);
    let cs = chars_of(lower.as_str());
    ends_with_chars(&cs, ".jpg") || ends_with_chars(&cs, ".jpeg") || ends_with_chars(&cs, ".png")
        || ends_with_chars(&cs, ".gif") || ends_with_chars(&cs, ".webp")
}

/// The image names among `names`, in their order.
pub open spec fn image_names(names: Seq<String>) -> Seq<Seq<char>>
    decreases names.len(),
{
    if names.len() == 0 {
        Seq::empty()
    } else if image_name(names.last()@) {
        image_names(names.drop_last()).push(names.last()@)
    } else {
        image_names(names.drop_last())
    }
}

/// Texts in ascending byte order (equal texts side by side).
pub open spec fn sorted_texts(s: Seq<Seq<char>>) -> bool {
    forall|i: int, j: int| 0 <= i < j < s.len() ==> !text_before(#[trigger] s[j], #[trigger] s[i])
}

/// The image names among `names`, in ascending byte order.
pub fn image_names_in_order(names: &Vec<String>) -> (r: Vec<String>)
    ensures
        sorted_texts(views(r@)),
        views(r@).to_multiset() == image_names(names@).to_multiset(),
{
    broadcast use vstd::seq_lib::group_to_multiset_ensures;
    let mut r: Vec<String> = Vec::new();
    let mut i: usize = 0;
    while i < names.len()
        invariant
            i <= names@.len(),
            sorted_texts(views(r@)),
            views(r@).to_multiset() == image_names(names@.take(i as int)).to_multiset(),
        decreases names@.len() - i,
    {
        let x = &names[i];
        proof {
            assert(names@.take(i + 1).drop_last() =~= names@.take(i as int));
            assert(names@.take(i + 1).last() == names@[i as int]);
        }
        if is_image_file(x.as_str()) {
            let ghost rv = views(r@);
            let mut p: usize = r.len();
            while p > 0
                invariant_except_break
                    p <= r@.len(),
                    forall|k: int| p <= k < r@.len() ==> text_before(x@, #[trigger] rv[k]),
                invariant
                    rv == views(r@),
                ensures
                    p <= r@.len(),
                    forall|k: int| p <= k < r@.len() ==> text_before(x@, #[trigger] rv[k]),
                    p > 0 ==> !text_before(x@, rv[p - 1]),
                decreases p,
            {
                if r[p - 1].compare(x) != crate::order::KeyOrder::Greater {
                    break;
                }
                p = p - 1;
            }
            r.insert(p, x.clone());
            proof {
                let nr = views(r@);
                assert(nr =~= rv.insert(p as int, x@));
                let front = rv.take(p as int);
                let back = rv.skip(p as int);
                assert(rv.insert(p as int, x@) =~= front.push(x@) + back);
                vstd::seq_lib::lemma_multiset_commutative(front.push(x@), back);
                vstd::seq_lib::lemma_multiset_commutative(front, back);
                assert(rv =~= front + back);
                front.to_multiset_ensures();
                assert(front.push(x@).to_multiset() =~= front.to_multiset().insert(x@));
                assert(nr.to_multiset() =~= rv.to_multiset().insert(x@));
                assert(image_names(names@.take(i + 1)) == image_names(names@.take(i as int)).push(x@));
                image_names(names@.take(i as int)).to_multiset_ensures();
                assert(image_names(names@.take(i + 1)).to_multiset() =~= image_names(names@.take(i as int)).to_multiset().insert(x@));
                if p > 0 {
                    lemma_text_order(x@, rv[p - 1]);
                }
                assert forall|a: int, b: int| 0 <= a < b < nr.len() implies !text_before(#[trigger] nr[b], #[trigger] nr[a]) by {
                    if b < p {
                        assert(nr[a] == rv[a] && nr[b] == rv[b]);
                    } else if b == p {
                        assert(nr[a] == rv[a]);
                        lemma_text_order(x@, rv[a]);
                        if a < p - 1 {
                            lemma_text_order(rv[a], rv[p - 1]);
                            if text_before(x@, rv[a]) {
                                lemma_lex_lt_transitive(text_rank(x@), text_rank(rv[a]), text_rank(rv[p - 1]));
                            }
                        }
                    } else if a < p {
                        assert(nr[a] == rv[a] && nr[b] == rv[b - 1]);
                    } else if a == p {
                        assert(nr[b] == rv[b - 1]);
                        lemma_text_order(x@, rv[b - 1]);
                    } else {
                        assert(nr[a] == rv[a - 1] && nr[b] == rv[b - 1]);
                    }
                }
            }
        } else {
            proof {
                assert(image_names(names@.take(i + 1)) == image_names(names@.take(i as int)));
            }
        }
        i = i + 1;
    }
    proof {
        assert(names@.take(names@.len() as int) =~= names@);
    }
    r
}

/// Values of hash rows.
pub open spec fn input_views(s: Seq<MediaHashInput>) -> Seq<MediaHashInputView> {
    s.map_values(|x: MediaHashInput| x@)
}

/// Hash rows of a media item: its uuid, a file name and a time range.
pub open spec fn hash_row(uuid: Seq<char>, filename: Seq<char>, time_range: Seq<char>, h: Seq<u8>) -> MediaHashInputView {
    MediaHashInputView { item_uuid: uuid, filename, time_range, content_hash: h, alternative_of: None }
}

fn hash_input(uuid: &str, filename: &str, time_range: &str, h: Vec<u8>) -> (r: MediaHashInput)
    ensures
        r@ == hash_row(uuid@, filename@, time_range@, h@),
{
    MediaHashInput {
        item_uuid: uuid.to_string(),
        filename: filename.to_string(),
        time_range: time_range.to_string(),
        content_hash: h,
        alternative_of: None,
    }
}

/// The hash rows of a piece of music: the hash of the whole file, and that
/// of its first thirty seconds (time range `0.0-30.0`).
pub fn music_hash_inputs(uuid: &str, whole: Vec<u8>, prefix: Vec<u8>) -> (r: Vec<MediaHashInput>)
    ensures
        input_views(r@) == seq![hash_row(uuid@, ""@, ""@, whole@), hash_row(uuid@, ""@, "0.0-30.0"@, prefix@)],
{
    let ghost wv = whole@;
    let ghost pv = prefix@;
    let mut r: Vec<MediaHashInput> = Vec::new();
    r.push(hash_input(uuid, "", "", whole));
    r.push(hash_input(uuid, "", "0.0-30.0", prefix));
    assert(input_views(r@) =~= seq![hash_row(uuid@, ""@, ""@, wv), hash_row(uuid@, ""@, "0.0-30.0"@, pv)]);
    r
}

/// The hash row of a video: the hash of the whole file.
pub fn video_hash_inputs(uuid: &str, whole: Vec<u8>) -> (r: Vec<MediaHashInput>)
    ensures
        input_views(r@) == seq![hash_row(uuid@, ""@, ""@, whole@)],
{
    let ghost wv = whole@;
    let mut r: Vec<MediaHashInput> = Vec::new();
    r.push(hash_input(uuid, "", "", whole));
    assert(input_views(r@) =~= seq![hash_row(uuid@, ""@, ""@, wv)]);
    r
}

/// The page rows of a comic, in order.
pub open spec fn page_rows(uuid: Seq<char>, pages: Seq<(String, Vec<u8>)>) -> Seq<MediaHashInputView> {
    pages.map_values(|p: (String, Vec<u8>)| hash_row(uuid, p.0@, ""@, p.1@))
}

/// The hash rows of a comic whose pages (file name and hash) are given in
/// page order: one per page, then the whole comic's hash.
pub fn comic_hash_inputs(uuid: &str, pages: &Vec<(String, Vec<u8>)>) -> (r: Vec<MediaHashInput>)
    ensures
        input_views(r@) == page_rows(uuid@, pages@).push(
            hash_row(uuid@, ""@, ""@, sha256_of(joined_hashes(pages@.map_values(|p: (String, Vec<u8>)| p.1@))))),
{
    let mut r: Vec<MediaHashInput> = Vec::new();
    let mut hashes: Vec<Vec<u8>> = Vec::new();
    let mut i: usize = 0;
    while i < pages.len()
        invariant
            i <= pages@.len(),
            input_views(r@) == page_rows(uuid@, pages@.take(i as int)),
            byte_views(hashes@) == pages@.take(i as int).map_values(|p: (String, Vec<u8>)| p.1@),
        decreases pages@.len() - i,
    {
        let name = &pages[i].0;
        let h = &pages[i].1;
        let ghost hv0 = hashes@;
        let ghost rv0 = r@;
        let ghost f = |p: (String, Vec<u8>)| p.1@;
        let ghost g = |p: (String, Vec<u8>)| hash_row(uuid@, p.0@, ""@, p.1@);
        let hc = clone_bytes(h);
        r.push(hash_input(uuid, name.as_str(), "", clone_bytes(h)));
        hashes.push(hc);
        proof {
            let t0 = pages@.take(i as int);
            let t1 = pages@.take(i + 1);
            assert(t1 =~= t0.push(pages@[i as int]));
            assert(t1.map_values(f) =~= t0.map_values(f).push(f(pages@[i as int])));
            assert(t1.map_values(g) =~= t0.map_values(g).push(g(pages@[i as int])));
            assert(byte_views(hashes@) =~= byte_views(hv0).push(hc@));
            assert(input_views(r@) =~= input_views(rv0).push(hash_row(uuid@, name@, ""@, h@)));
            assert(page_rows(uuid@, t1) == t1.map_values(g));
            assert(page_rows(uuid@, t0) == t0.map_values(g));
        }
        i = i + 1;
    }
    assert(pages@.take(pages@.len() as int) =~= pages@);
    let whole = comic_whole_hash(&hashes);
    let ghost wv = whole@;
    r.push(hash_input(uuid, "", "", whole));
    assert(input_views(r@) =~= page_rows(uuid@, pages@).push(hash_row(uuid@, ""@, ""@, wv)));
    r
}

/// What computing the hashes of a media item gave: the stored rows, or why
/// it was skipped.
pub struct ComputeHashResult {
    pub item_uuid: String,
    pub hashes: Vec<MediaHash>,
    pub skipped: bool,
    pub skip_reason: Option<String>,
}

/// A skipped item and the reason.
pub fn skipped_result(uuid: &str, reason: String) -> (r: ComputeHashResult)
    ensures
        r.item_uuid@ == uuid@,
        r.hashes@.len() == 0,
        r.skipped,
        r.skip_reason matches Some(m) && m@ == reason@,
{
    ComputeHashResult { item_uuid: uuid.to_string(), hashes: Vec::new(), skipped: true, skip_reason: Some(reason) }
}

/// The path to hash for a media item, if it is to be hashed: it must exist
/// on disk (`flag_exist`), have a non-empty path, and, unless `force`, have
/// no hashes yet (`has_hashes`).
pub fn path_to_hash(m: &Media, force: bool, has_hashes: bool) -> (r: Option<String>)
    ensures
        match r {
            Some(p) => m.flag_exist && opt_str_view(m.path) == Some(p@) && p@.len() > 0 && (force || !has_hashes),
            None => !m.flag_exist || (match opt_str_view(m.path) { Some(p) => p.len() == 0, None => true })
                || (!force && has_hashes),
        },
{
    if !m.flag_exist {
        return None;
    }
    let p = match &m.path {
        Some(p) => p,
        None => return None,
    };
    if p.as_str().is_empty() {
        return None;
    }
    if !force && has_hashes {
        return None;
    }
    Some(p.clone())
}

/// The statement that deletes the rows recorded as alternatives of a row.
pub open spec fn delete_alternatives_sql() -> Seq<char> {
    "DELETE FROM media_hashes WHERE item_uuid = ?1 AND alternative_of = ?2"@
}

/// The statement that deletes one hash row.
pub open spec fn delete_hash_row_sql() -> Seq<char> {
    "DELETE FROM media_hashes WHERE item_uuid = ?1 AND filename = ?2 AND time_range = ?3"@
}

/// A statement and its parameters, as values.
pub open spec fn statement_views(s: Seq<(String, Vec<SqlParam>)>) -> Seq<(Seq<char>, Seq<SqlValue>)> {
    s.map_values(|st: (String, Vec<SqlParam>)| (st.0@, param_values(st.1@)))
}

/// The statements that delete the hash row at (`uuid`, `filename`,
/// `time_range`): first the rows that are alternatives of its file name,
/// then those of its time range (each only when it is not empty), then the
/// row itself.
pub open spec fn delete_hash_plan(uuid: Seq<char>, filename: Seq<char>, time_range: Seq<char>) -> Seq<(Seq<char>, Seq<SqlValue>)> {
    let by_file = if filename.len() == 0 {
        Seq::empty()
    } else {
        seq![(delete_alternatives_sql(), seq![SqlValue::Text(uuid), SqlValue::Text(filename)])]
    };
    let by_range = if time_range.len() == 0 {
        Seq::empty()
    } else {
        seq![(delete_alternatives_sql(), seq![SqlValue::Text(uuid), SqlValue::Text(time_range)])]
    };
    by_file + by_range + seq![(delete_hash_row_sql(), seq![SqlValue::Text(uuid), SqlValue::Text(filename), SqlValue::Text(time_range)])]
}

fn text_params2(a: &str, b: &str) -> (p: Vec<SqlParam>)
    ensures
        param_values(p@) == seq![SqlValue::Text(a@), SqlValue::Text(b@)],
{
    let mut p: Vec<SqlParam> = Vec::new();
    p.push(SqlParam::Text(a.to_string()));
    p.push(SqlParam::Text(b.to_string()));
    assert(param_values(p@) =~= seq![SqlValue::Text(a@), SqlValue::Text(b@)]);
    p
}

/// The statements that delete one hash row (see `delete_hash_plan`).
pub fn delete_media_hash_statements(item_uuid: &str, filename: &str, time_range: &str) -> (r: Vec<(String, Vec<SqlParam>)>)
    ensures
        statement_views(r@) == delete_hash_plan(item_uuid@, filename@, time_range@),
{
    let ghost u = item_uuid@;
    let ghost by_file: Seq<(Seq<char>, Seq<SqlValue>)> = if filename@.len() == 0 {
        Seq::empty()
    } else {
        seq![(delete_alternatives_sql(), seq![SqlValue::Text(u), SqlValue::Text(filename@)])]
    };
    let ghost by_range: Seq<(Seq<char>, Seq<SqlValue>)> = if time_range@.len() == 0 {
        Seq::empty()
    } else {
        seq![(delete_alternatives_sql(), seq![SqlValue::Text(u), SqlValue::Text(time_range@)])]
    };
    let mut out: Vec<(String, Vec<SqlParam>)> = Vec::new();
    assert(statement_views(out@) =~= Seq::<(Seq<char>, Seq<SqlValue>)>::empty());
    if !filename.is_empty() {
        out.push(("DELETE FROM media_hashes WHERE item_uuid = ?1 AND alternative_of = ?2".to_string(),
            text_params2(item_uuid, filename)));
    }
    assert(statement_views(out@) =~= by_file);
    let ghost o1 = out@;
    if !time_range.is_empty() {
        out.push(("DELETE FROM media_hashes WHERE item_uuid = ?1 AND alternative_of = ?2".to_string(),
            text_params2(item_uuid, time_range)));
        assert(statement_views(out@) =~= statement_views(o1).push(by_range[0]));
    }
    assert(statement_views(out@) =~= by_file + by_range);
    let mut p = text_params2(item_uuid, filename);
    let ghost p2 = p@;
    assert(param_values(p2).len() == p2.len());
    p.push(SqlParam::Text(time_range.to_string()));
    assert(param_values(p@) =~= seq![SqlValue::Text(u), SqlValue::Text(filename@), SqlValue::Text(time_range@)]);
    let ghost o2 = out@;
    out.push(("DELETE FROM media_hashes WHERE item_uuid = ?1 AND filename = ?2 AND time_range = ?3".to_string(), p));
    assert(statement_views(out@) =~= statement_views(o2).push(
        (delete_hash_row_sql(), seq![SqlValue::Text(u), SqlValue::Text(filename@), SqlValue::Text(time_range@)])));
    assert(statement_views(out@) =~= delete_hash_plan(item_uuid@, filename@, time_range@));
    out
}

/// Runs statements in order and stops at the first that fails: `Ok` with
/// every statement run, or the database error.
fn run_statements(conn: &rusqlite::Connection, stmts: &Vec<(String, Vec<SqlParam>)>) -> (r: Result<(), KijukuError>)
    ensures
        r is Ok || r matches Err(KijukuError::Database(_)),
        stmts@.len() == 0 ==> r is Ok,
{
    let mut i: usize = 0;
    while i < stmts.len()
        invariant
            i <= stmts@.len(),
        decreases stmts@.len() - i,
    {
        match execute_statement(conn, stmts[i].0.as_str(), stmts[i].1.as_slice()) {
            Ok(_) => {},
            Err(e) => return Err(KijukuError::Database(e)),
        }
        i = i + 1;
    }
    Ok(())
}

/// Deletes the hash row at (`item_uuid`, `filename`, `time_range`) with the
/// rows that are alternatives of it (see `delete_hash_plan`); a database
/// error is passed on.
pub fn delete_media_hash(conn: &rusqlite::Connection, item_uuid: &str, filename: &str, time_range: &str) -> (r: Result<(), KijukuError>)
    ensures
        r is Ok || r matches Err(KijukuError::Database(_)),
{
    run_statements(conn, &delete_media_hash_statements(item_uuid, filename, time_range))
}

/// Deletes every hash row of `item_uuid`; a database error is passed on.
pub fn delete_media_hashes(conn: &rusqlite::Connection, item_uuid: &str) -> (r: Result<(), KijukuError>)
    ensures
        r is Ok || r matches Err(KijukuError::Database(_)),
{
    let mut p: Vec<SqlParam> = Vec::new();
    p.push(SqlParam::Text(item_uuid.to_string()));
    match execute_statement(conn, "DELETE FROM media_hashes WHERE item_uuid = ?1", p.as_slice()) {
        Ok(_) => Ok(()),
        Err(e) => Err(KijukuError::Database(e)),
    }
}

/// The message of the first column of a hash row that cannot be read (in
/// the order of `MediaHash`'s fields), or `None` when every column reads.
pub open spec fn hash_row_error(m: Map<Seq<char>, SqlValue>) -> Option<Seq<char>> {
    if col_text(m, "item_uuid"@) is Err {
        err_of(col_text(m, "item_uuid"@))
    } else if col_text(m, "filename"@) is Err {
        err_of(col_text(m, "filename"@))
    } else if col_text(m, "time_range"@) is Err {
        err_of(col_text(m, "time_range"@))
    } else if col_blob(m, "content_hash"@) is Err {
        err_of(col_blob(m, "content_hash"@))
    } else if col_opt_text(m, "alternative_of"@) is Err {
        err_of(col_opt_text(m, "alternative_of"@))
    } else if col_opt_blob(m, "embedding"@) is Err {
        err_of(col_opt_blob(m, "embedding"@))
    } else if col_text(m, "created_at"@) is Err {
        err_of(col_text(m, "created_at"@))
    } else if col_text(m, "updated_at"@) is Err {
        err_of(col_text(m, "updated_at"@))
    } else {
        None
    }
}

/// The hash that a readable hash row holds.
pub open spec fn hash_view_of_row(m: Map<Seq<char>, SqlValue>) -> MediaHashView {
    MediaHashView {
        item_uuid: col_text(m, "item_uuid"@)->Ok_0,
        filename: col_text(m, "filename"@)->Ok_0,
        time_range: col_text(m, "time_range"@)->Ok_0,
        content_hash: col_blob(m, "content_hash"@)->Ok_0,
        alternative_of: col_opt_text(m, "alternative_of"@)->Ok_0,
        embedding: col_opt_blob(m, "embedding"@)->Ok_0,
        created_at: col_text(m, "created_at"@)->Ok_0,
        updated_at: col_text(m, "updated_at"@)->Ok_0,
    }
}

/// Reads a hash from a result row: each column in turn; the first column
/// that cannot be read gives the error.
#[verifier::rlimit(30)]
pub fn row_to_media_hash(row: &SqlRow) -> (r: Result<MediaHash, KijukuError>)
    requires
        row.wf(),
    ensures
        match r {
            Ok(h) => hash_row_error(row@) is None && h@ == hash_view_of_row(row@),
            Err(e) => hash_row_error(row@) is Some && parse_text(e) == hash_row_error(row@),
        },
{
    let item_uuid = match row.get_text("item_uuid") {
        Ok(v) => v,
        Err(e) => return Err(e),
    };
    let filename = match row.get_text("filename") {
        Ok(v) => v,
        Err(e) => return Err(e),
    };
    let time_range = match row.get_text("time_range") {
        Ok(v) => v,
        Err(e) => return Err(e),
    };
    let content_hash = match row.get_blob("content_hash") {
        Ok(v) => v,
        Err(e) => return Err(e),
    };
    let alternative_of = match row.get_opt_text("alternative_of") {
        Ok(v) => v,
        Err(e) => return Err(e),
    };
    let embedding = match row.get_opt_blob("embedding") {
        Ok(v) => v,
        Err(e) => return Err(e),
    };
    let created_at = match row.get_text("created_at") {
        Ok(v) => v,
        Err(e) => return Err(e),
    };
    let updated_at = match row.get_text("updated_at") {
        Ok(v) => v,
        Err(e) => return Err(e),
    };
    Ok(MediaHash {
        item_uuid,
        filename,
        time_range,
        content_hash,
        alternative_of,
        embedding,
        created_at,
        updated_at,
    })
}

/// The hashes of result rows, in order; the first bad row's error.
pub fn rows_to_media_hashes(rows: &Vec<SqlRow>) -> (r: Result<Vec<MediaHash>, KijukuError>)
    requires
        forall|i: int| 0 <= i < rows@.len() ==> (#[trigger] rows@[i]).wf(),
    ensures
        match r {
            Ok(v) => v@.len() == rows@.len() && forall|i: int| 0 <= i < rows@.len()
                ==> hash_row_error(#[trigger] rows@[i]@) is None && v@[i]@ == hash_view_of_row(rows@[i]@),
            Err(e) => exists|i: int| 0 <= i < rows@.len() && #[trigger] hash_row_error(rows@[i]@) is Some
                && parse_text(e) == hash_row_error(rows@[i]@)
                && forall|j: int| 0 <= j < i ==> hash_row_error(#[trigger] rows@[j]@) is None,
        },
{
    let mut out: Vec<MediaHash> = Vec::new();
    let mut i: usize = 0;
    while i < rows.len()
        invariant
            i <= rows@.len(),
            forall|k: int| 0 <= k < rows@.len() ==> (#[trigger] rows@[k]).wf(),
            out@.len() == i,
            forall|k: int| 0 <= k < i ==> hash_row_error(#[trigger] rows@[k]@) is None && out@[k]@ == hash_view_of_row(rows@[k]@),
        decreases rows@.len() - i,
    {
        match row_to_media_hash(&rows[i]) {
            Ok(h) => out.push(h),
            Err(e) => return Err(e),
        }
        i = i + 1;
    }
    Ok(out)
}

/// The statement that registers a hash, replacing the hash and original of
/// an existing row at the same position.
pub open spec fn upsert_hash_sql() -> Seq<char> {
    "INSERT INTO media_hashes (item_uuid, filename, time_range, content_hash, alternative_of)
         VALUES (?1, ?2, ?3, ?4, ?5)
         ON CONFLICT(item_uuid, filename, time_range) DO UPDATE SET
           content_hash = ?4,
           alternative_of = ?5"@
}

/// The statement and parameters that register hash `input`.
pub fn upsert_media_hash_statement(input: &MediaHashInput) -> (r: (String, Vec<SqlParam>))
    ensures
        r.0@ == upsert_hash_sql(),
        param_values(r.1@) == seq![
            SqlValue::Text(input.item_uuid@),
            SqlValue::Text(input.filename@),
            SqlValue::Text(input.time_range@),
            SqlValue::Blob(input.content_hash@),
            opt_text_value(opt_str_view(input.alternative_of)),
        ],
{
    let mut p: Vec<SqlParam> = Vec::new();
    p.push(SqlParam::Text(input.item_uuid.clone()));
    p.push(SqlParam::Text(input.filename.clone()));
    p.push(SqlParam::Text(input.time_range.clone()));
    p.push(SqlParam::Blob(clone_bytes(&input.content_hash)));
    p.push(SqlParam::from_opt_str(&input.alternative_of));
    assert(param_values(p@) =~= seq![
        SqlValue::Text(input.item_uuid@),
        SqlValue::Text(input.filename@),
        SqlValue::Text(input.time_range@),
        SqlValue::Blob(input.content_hash@),
        opt_text_value(opt_str_view(input.alternative_of)),
    ]);
    ("INSERT INTO media_hashes (item_uuid, filename, time_range, content_hash, alternative_of)
         VALUES (?1, ?2, ?3, ?4, ?5)
         ON CONFLICT(item_uuid, filename, time_range) DO UPDATE SET
           content_hash = ?4,
           alternative_of = ?5".to_string(), p)
}

/// A hash as some readable row holds it.
pub open spec fn hash_readable(h: MediaHash) -> bool {
    exists|row: Map<Seq<char>, SqlValue>| hash_row_error(row) is None && h@ == hash_view_of_row(row)
}

/// Hashes as some readable rows hold them.
pub open spec fn read_hashes(v: Seq<MediaHash>) -> bool {
    forall|i: int| 0 <= i < v.len() ==> hash_readable(#[trigger] v[i])
}

fn query_hashes(conn: &rusqlite::Connection, sql: &str, params: &[SqlParam]) -> (r: Result<Vec<MediaHash>, KijukuError>)
    ensures
        r matches Ok(v) ==> read_hashes(v@),
        r matches Err(e) ==> (e is Database) || (e is Parse),
{
    let rows = match query(conn, sql, params) {
        Ok(rows) => rows,
        Err(e) => return Err(e),
    };
    let r = rows_to_media_hashes(&rows);
    match &r {
        Ok(v) => {
            proof {
                assert forall|i: int| 0 <= i < v@.len() implies hash_readable(#[trigger] v@[i]) by {
                    assert(hash_row_error(rows@[i]@) is None && v@[i]@ == hash_view_of_row(rows@[i]@));
                }
            }
        },
        Err(e) => {
            proof {
                let i = choose|i: int| 0 <= i < rows@.len() && #[trigger] hash_row_error(rows@[i]@) is Some
                    && parse_text(*e) == hash_row_error(rows@[i]@)
                    && forall|j: int| 0 <= j < i ==> hash_row_error(#[trigger] rows@[j]@) is None;
                assert(parse_text(*e) is Some);
            }
        },
    }
    r
}

/// The hash at (`item_uuid`, `filename`, `time_range`), if there is one. A
/// database error is passed on; a row that cannot be read is a parse error.
pub fn get_media_hash(conn: &rusqlite::Connection, item_uuid: &str, filename: &str, time_range: &str)
    -> (r: Result<Option<MediaHash>, KijukuError>)
    ensures
        r matches Ok(Some(h)) ==> hash_readable(h),
        r matches Err(e) ==> (e is Database) || (e is Parse),
{
    let mut p = text_params2(item_uuid, filename);
    p.push(SqlParam::Text(time_range.to_string()));
    let v = match query_hashes(conn, "SELECT item_uuid, filename, time_range, content_hash, alternative_of, embedding, created_at, updated_at
         FROM media_hashes
         WHERE item_uuid = ?1 AND filename = ?2 AND time_range = ?3", p.as_slice()) {
        Ok(v) => v,
        Err(e) => return Err(e),
    };
    if v.len() == 0 {
        return Ok(None);
    }
    let ghost v0 = v@;
    let mut v = v;
    let h = v.swap_remove(0);
    proof {
        assert(hash_readable(v0[0]));
    }
    Ok(Some(h))
}

/// Every hash of `item_uuid`, ordered by file name and time range.
pub fn get_media_hashes(conn: &rusqlite::Connection, item_uuid: &str) -> (r: Result<Vec<MediaHash>, KijukuError>)
    ensures
        r matches Ok(v) ==> read_hashes(v@),
        r matches Err(e) ==> (e is Database) || (e is Parse),
{
    let mut p: Vec<SqlParam> = Vec::new();
    p.push(SqlParam::Text(item_uuid.to_string()));
    query_hashes(conn, "SELECT item_uuid, filename, time_range, content_hash, alternative_of, embedding, created_at, updated_at
         FROM media_hashes
         WHERE item_uuid = ?1
         ORDER BY filename, time_range", p.as_slice())
}

/// Every hash row whose content hash is `hash`.
pub fn find_by_content_hash(conn: &rusqlite::Connection, hash: &[u8]) -> (r: Result<Vec<MediaHash>, KijukuError>)
    ensures
        r matches Ok(v) ==> read_hashes(v@),
        r matches Err(e) ==> (e is Database) || (e is Parse),
{
    let mut p: Vec<SqlParam> = Vec::new();
    p.push(SqlParam::Blob(slice_bytes(hash)));
    query_hashes(conn, "SELECT item_uuid, filename, time_range, content_hash, alternative_of, embedding, created_at, updated_at
         FROM media_hashes
         WHERE content_hash = ?1", p.as_slice())
}

/// Registers hash `input` (see `upsert_media_hash_statement`) and returns
/// the row read back; a row that cannot be found again is an `Other` error.
pub fn add_media_hash(conn: &rusqlite::Connection, input: &MediaHashInput) -> (r: Result<MediaHash, KijukuError>)
    ensures
        r matches Ok(h) ==> hash_readable(h),
        r matches Err(e) ==> (e is Database) || (e is Parse)
            || other_text(e) == Some("Failed to read inserted hash"@),
{
    let (sql, params) = upsert_media_hash_statement(input);
    match execute_statement(conn, sql.as_str(), params.as_slice()) {
        Ok(_) => {},
        Err(e) => return Err(KijukuError::Database(e)),
    }
    match get_media_hash(conn, input.item_uuid.as_str(), input.filename.as_str(), input.time_range.as_str()) {
        Ok(Some(h)) => Ok(h),
        Ok(None) => Err(other_error("Failed to read inserted hash".to_string())),
        Err(e) => Err(e),
    }
}

/// Registers hashes `inputs` in one transaction (rolled back at the first
/// failing statement), then returns the rows read back, in the order of
/// `inputs` (a row that cannot be found again is left out).
pub fn add_media_hashes(conn: &rusqlite::Connection, inputs: &Vec<MediaHashInput>) -> (r: Result<Vec<MediaHash>, KijukuError>)
    ensures
        r matches Ok(v) ==> read_hashes(v@) && v@.len() <= inputs@.len(),
        r matches Err(e) ==> (e is Database) || (e is Parse),
{
    let none: Vec<SqlParam> = Vec::new();
    match execute_statement(conn, "BEGIN", none.as_slice()) {
        Ok(_) => {},
        Err(e) => return Err(KijukuError::Database(e)),
    }
    let mut i: usize = 0;
    while i < inputs.len()
        invariant
            i <= inputs@.len(),
        decreases inputs@.len() - i,
    {
        let (sql, params) = upsert_media_hash_statement(&inputs[i]);
        match execute_statement(conn, sql.as_str(), params.as_slice()) {
            Ok(_) => {},
            Err(e) => {
                let _ = execute_statement(conn, "ROLLBACK", none.as_slice());
                return Err(KijukuError::Database(e));
            },
        }
        i = i + 1;
    }
    match execute_statement(conn, "COMMIT", none.as_slice()) {
        Ok(_) => {},
        Err(e) => return Err(KijukuError::Database(e)),
    }
    let mut out: Vec<MediaHash> = Vec::new();
    let mut k: usize = 0;
    while k < inputs.len()
        invariant
            k <= inputs@.len(),
            out@.len() <= k,
            read_hashes(out@),
        decreases inputs@.len() - k,
    {
        let inp = &inputs[k];
        match get_media_hash(conn, inp.item_uuid.as_str(), inp.filename.as_str(), inp.time_range.as_str()) {
            Ok(Some(h)) => {
                let ghost before = out@;
                out.push(h);
                proof {
                    assert forall|i: int| 0 <= i < out@.len() implies hash_readable(#[trigger] out@[i]) by {
                        if i < before.len() {
                            assert(out@[i] == before[i]);
                        }
                    }
                }
            },
            Ok(None) => {},
            Err(e) => return Err(e),
        }
        k = k + 1;
    }
    Ok(out)
}

/// A content hash and its count as some readable result row holds them
/// (columns `content_hash` and `cnt`).
pub open spec fn duplicate_readable(d: (Vec<u8>, i64)) -> bool {
    exists|row: Map<Seq<char>, SqlValue>| col_blob(row, "content_hash"@) == Ok::<Seq<u8>, Seq<char>>(d.0@)
        && col_int(row, "cnt"@) == Ok::<i64, Seq<char>>(d.1)
}

/// Content hashes held by more than one row, with their counts.
pub fn find_duplicate_hashes(conn: &rusqlite::Connection) -> (r: Result<Vec<(Vec<u8>, i64)>, KijukuError>)
    ensures
        r matches Ok(v) ==> forall|i: int| 0 <= i < v@.len() ==> duplicate_readable(#[trigger] v@[i]),
        r matches Err(e) ==> (e is Database) || (e is Parse),
{
    let none: Vec<SqlParam> = Vec::new();
    let rows = match query(conn, "SELECT content_hash, COUNT(*) as cnt
         FROM media_hashes
         GROUP BY content_hash
         HAVING cnt > 1", none.as_slice()) {
        Ok(rows) => rows,
        Err(e) => return Err(e),
    };
    let mut out: Vec<(Vec<u8>, i64)> = Vec::new();
    let mut i: usize = 0;
    while i < rows.len()
        invariant
            i <= rows@.len(),
            forall|k: int| 0 <= k < rows@.len() ==> (#[trigger] rows@[k]).wf(),
            forall|k: int| 0 <= k < out@.len() ==> duplicate_readable(#[trigger] out@[k]),
        decreases rows@.len() - i,
    {
        let h = match rows[i].get_blob("content_hash") {
            Ok(h) => h,
            Err(e) => return Err(e),
        };
        let n = match rows[i].get_int("cnt") {
            Ok(n) => n,
            Err(e) => return Err(e),
        };
        proof {
            assert(col_blob(rows@[i as int]@, "content_hash"@) == Ok::<Seq<u8>, Seq<char>>(h@));
            assert(col_int(rows@[i as int]@, "cnt"@) == Ok::<i64, Seq<char>>(n));
            assert(duplicate_readable((h, n)));
        }
        let ghost before = out@;
        out.push((h, n));
        proof {
            assert forall|k: int| 0 <= k < out@.len() implies duplicate_readable(#[trigger] out@[k]) by {
                if k < before.len() {
                    assert(out@[k] == before[k]);
                }
            }
        }
        i = i + 1;
    }
    Ok(out)
}

} // verus!
