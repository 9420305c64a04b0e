//! Building the SQL statements that create and update media items.
use vstd::prelude::*;
use crate::error::KijukuError;
use crate::text::{push_str, push_usize, dec_nat, dec_int, i64_to_string};
use crate::types::{MediaType, MediaInput, Media, MediaView, media_type_text, opt_str_view};
use crate::db_value::{SqlRow, parse_text, err_of, col_int, col_text, col_opt_text, col_opt_int, col_opt_i32, col_bool, col_datetime};
use crate::import::media_type_named;
use crate::exec_local::query;
use crate::config::{trimmed, trim_chars, chars_are};

verus! {

broadcast use vstd::std_specs::vec::group_vec_axioms;

/// A parameter of an SQL statement.
pub enum SqlParam {
    Null,
    Int(i64),
    Text(String),
    Blob(Vec<u8>),
}

/// Value of an SQL parameter.
pub enum SqlValue {
    Null,
    Int(i64),
    Text(Seq<char>),
    Blob(Seq<u8>),
}

impl View for SqlParam {
    type V = SqlValue;

    open spec fn view(&self) -> SqlValue {
        match self {
            SqlParam::Null => SqlValue::Null,
            SqlParam::Int(i) => SqlValue::Int(*i),
            SqlParam::Text(s) => SqlValue::Text(s@),
            SqlParam::Blob(b) => SqlValue::Blob(b@),
        }
    }
}

/// The value of an optional text: the text, or NULL.
pub open spec fn opt_text_value(v: Option<Seq<char>>) -> SqlValue {
    match v {
        Some(s) => SqlValue::Text(s),
        None => SqlValue::Null,
    }
}

/// The value of an optional integer: the integer, or NULL.
pub open spec fn opt_int_value(v: Option<i64>) -> SqlValue {
    match v {
        Some(i) => SqlValue::Int(i),
        None => SqlValue::Null,
    }
}

impl SqlParam {
    /// A text parameter, or NULL.
    pub fn from_opt_str(v: &Option<String>) -> (r: SqlParam)
        ensures
            r@ == opt_text_value(opt_str_view(*v)),
    {
        match v {
            Some(s) => SqlParam::Text(s.clone()),
            None => SqlParam::Null,
        }
    }

    /// An integer parameter, or NULL.
    pub fn from_opt_i64(v: Option<i64>) -> (r: SqlParam)
        ensures
            r@ == opt_int_value(v),
    {
        match v {
            Some(i) => SqlParam::Int(i),
            None => SqlParam::Null,
        }
    }
}

/// The values of parameters.
pub open spec fn param_values(s: Seq<SqlParam>) -> Seq<SqlValue> {
    s.map_values(|p: SqlParam| p@)
}

/// Text of a doubly optional string.
pub open spec fn opt_opt_view(o: Option<Option<String>>) -> Option<Option<Seq<char>>> {
    match o {
        Some(Some(s)) => Some(Some(s@)),
        Some(None) => Some(None),
        None => None,
    }
}

/// Changes to a media item: a field left `None` stays; for a nullable
/// field `Some(None)` sets it to NULL.
pub struct MediaUpdateInput {
    pub uuid: Option<Option<String>>,
    pub title: Option<String>,
    pub media_type: Option<MediaType>,
    pub title_id: Option<Option<String>>,
    pub path: Option<Option<String>>,
    pub thumbnail_path: Option<Option<String>>,
    pub artist: Option<Option<String>>,
    pub artist_id: Option<Option<String>>,
    pub description: Option<Option<String>>,
    pub file_size: Option<Option<i64>>,
    pub duration_sec: Option<Option<i32>>,
    pub page_count: Option<Option<i32>>,
    pub series: Option<Option<String>>,
    pub volume_text: Option<Option<String>>,
    pub volume_title: Option<Option<String>>,
    pub magazine: Option<Option<String>>,
    pub magazine_id: Option<Option<String>>,
    pub language: Option<Option<String>>,
    pub source: Option<Option<String>>,
    pub external_id: Option<Option<String>>,
    pub artist_en: Option<Option<String>>,
    pub title_en: Option<Option<String>>,
    pub chapters: Option<Option<String>>,
    pub extension: Option<Option<String>>,
    pub flag_exist: Option<bool>,
    pub title_pron: Option<Option<String>>,
    pub artist_pron: Option<Option<String>>,
    pub series_pron: Option<Option<String>>,
}

/// Value of a `MediaUpdateInput`.
pub struct MediaUpdateView {
    pub uuid: Option<Option<Seq<char>>>,
    pub title: Option<Seq<char>>,
    pub media_type: Option<MediaType>,
    pub title_id: Option<Option<Seq<char>>>,
    pub path: Option<Option<Seq<char>>>,
    pub thumbnail_path: Option<Option<Seq<char>>>,
    pub artist: Option<Option<Seq<char>>>,
    pub artist_id: Option<Option<Seq<char>>>,
    pub description: Option<Option<Seq<char>>>,
    pub file_size: Option<Option<i64>>,
    pub duration_sec: Option<Option<i32>>,
    pub page_count: Option<Option<i32>>,
    pub series: Option<Option<Seq<char>>>,
    pub volume_text: Option<Option<Seq<char>>>,
    pub volume_title: Option<Option<Seq<char>>>,
    pub magazine: Option<Option<Seq<char>>>,
    pub magazine_id: Option<Option<Seq<char>>>,
    pub language: Option<Option<Seq<char>>>,
    pub source: Option<Option<Seq<char>>>,
    pub external_id: Option<Option<Seq<char>>>,
    pub artist_en: Option<Option<Seq<char>>>,
    pub title_en: Option<Option<Seq<char>>>,
    pub chapters: Option<Option<Seq<char>>>,
    pub extension: Option<Option<Seq<char>>>,
    pub flag_exist: Option<bool>,
    pub title_pron: Option<Option<Seq<char>>>,
    pub artist_pron: Option<Option<Seq<char>>>,
    pub series_pron: Option<Option<Seq<char>>>,
}

impl View for MediaUpdateInput {
    type V = MediaUpdateView;

    open spec fn view(&self) -> MediaUpdateView {
        MediaUpdateView {
            uuid: opt_opt_view(self.uuid),
            title: opt_str_view(self.title),
            media_type: self.media_type,
            title_id: opt_opt_view(self.title_id),
            path: opt_opt_view(self.path),
            thumbnail_path: opt_opt_view(self.thumbnail_path),
            artist: opt_opt_view(self.artist),
            artist_id: opt_opt_view(self.artist_id),
            description: opt_opt_view(self.description),
            file_size: self.file_size,
            duration_sec: self.duration_sec,
            page_count: self.page_count,
            series: opt_opt_view(self.series),
            volume_text: opt_opt_view(self.volume_text),
            volume_title: opt_opt_view(self.volume_title),
            magazine: opt_opt_view(self.magazine),
            magazine_id: opt_opt_view(self.magazine_id),
            language: opt_opt_view(self.language),
            source: opt_opt_view(self.source),
            external_id: opt_opt_view(self.external_id),
            artist_en: opt_opt_view(self.artist_en),
            title_en: opt_opt_view(self.title_en),
            chapters: opt_opt_view(self.chapters),
            extension: opt_opt_view(self.extension),
            flag_exist: self.flag_exist,
            title_pron: opt_opt_view(self.title_pron),
            artist_pron: opt_opt_view(self.artist_pron),
            series_pron: opt_opt_view(self.series_pron),
        }
    }
}

impl Default for MediaUpdateInput {
    fn default() -> (r: Self)
        ensures
            r.uuid is None,
            r.title is None,
            r.media_type is None,
            r.title_id is None,
            r.path is None,
            r.thumbnail_path is None,
            r.artist is None,
            r.artist_id is None,
            r.description is None,
            r.file_size is None,
            r.duration_sec is None,
            r.page_count is None,
            r.series is None,
            r.volume_text is None,
            r.volume_title is None,
            r.magazine is None,
            r.magazine_id is None,
            r.language is None,
            r.source is None,
            r.external_id is None,
            r.artist_en is None,
            r.title_en is None,
            r.chapters is None,
            r.extension is None,
            r.flag_exist is None,
            r.title_pron is None,
            r.artist_pron is None,
            r.series_pron is None,
    {
        MediaUpdateInput {
            uuid: None,
            title: None,
            media_type: None,
            title_id: None,
            path: None,
            thumbnail_path: None,
            artist: None,
            artist_id: None,
            description: None,
            file_size: None,
            duration_sec: None,
            page_count: None,
            series: None,
            volume_text: None,
            volume_title: None,
            magazine: None,
            magazine_id: None,
            language: None,
            source: None,
            external_id: None,
            artist_en: None,
            title_en: None,
            chapters: None,
            extension: None,
            flag_exist: None,
            title_pron: None,
            artist_pron: None,
            series_pron: None,
        }
    }
}

/// The text is the decimal rendering of the 32-bit integer `n`.
pub open spec fn renders_i32(t: Seq<char>, n: i32) -> bool {
    t == dec_int(n as int)
}

/// The volume number of a volume text: the integer whose decimal rendering
/// is the text without surrounding white space (so `"3"` and `" 3 "` give
/// 3, while `"03"`, `"+3"` and `"3.5"` give none).
pub open spec fn volume_number_of(text: Option<Seq<char>>) -> Option<i32> {
    match text {
        Some(t) => if exists|n: i32| #[trigger] renders_i32(trimmed(t), n) {
            Some(choose|n: i32| #[trigger] renders_i32(trimmed(t), n))
        } else {
            None
        },
        None => None,
    }
}

/// Value of a decimal digit character.
pub open spec fn digit_value(c: char) -> int {
    (c as u32) as int - ('0' as u32) as int
}

/// Value of a sequence of decimal digits.
pub open spec fn digits_value(s: Seq<char>) -> int
    decreases s.len(),
{
    if s.len() == 0 { 0 } else { digits_value(s.drop_last()) * 10 + digit_value(s.last()) }
}

/// Every character is a decimal digit.
pub open spec fn all_decimal(s: Seq<char>) -> bool {
    forall|i: int| 0 <= i < s.len() ==> '0' <= #[trigger] s[i] <= '9'
}

proof fn lemma_digit_char(d: nat)
    requires
        d < 10,
    ensures
        '0' <= crate::text::digit_char(d) <= '9',
        digit_value(crate::text::digit_char(d)) == d,
{
}

proof fn lemma_dec_nat_digits(n: nat)
    ensures
        all_decimal(dec_nat(n)),
        digits_value(dec_nat(n)) == n,
        dec_nat(n).len() >= 1,
        dec_nat(n).len() > 1 ==> dec_nat(n)[0] != '0',
        n < 10 <==> dec_nat(n).len() == 1,
    decreases n,
{
    if n < 10 {
        lemma_digit_char(n);
        assert(dec_nat(n).drop_last() =~= Seq::<char>::empty());
        assert(digits_value(Seq::<char>::empty()) == 0);
        assert(digits_value(dec_nat(n)) == digits_value(dec_nat(n).drop_last()) * 10 + digit_value(dec_nat(n).last()));
    } else {
        lemma_dec_nat_digits(n / 10);
        lemma_digit_char(n % 10);
        let s = dec_nat(n);
        assert(s.drop_last() =~= dec_nat(n / 10));
        assert forall|i: int| 0 <= i < s.len() implies '0' <= #[trigger] s[i] <= '9' by {
            if i < s.len() - 1 {
                assert(s[i] == dec_nat(n / 10)[i]);
            }
        }
        assert(dec_nat(n)[0] == dec_nat(n / 10)[0]);
        assert(s.last() == crate::text::digit_char(n % 10));
        assert(digits_value(s) == digits_value(s.drop_last()) * 10 + digit_value(s.last()));
        assert(n == (n / 10) * 10 + n % 10);
    }
}

/// Ten to the power `k`.
pub open spec fn pow10(k: nat) -> nat
    decreases k,
{
    if k == 0 { 1 } else { 10 * pow10((k - 1) as nat) }
}

proof fn lemma_dec_nat_len(n: nat, k: nat)
    requires
        k >= 1,
        n < pow10(k),
    ensures
        dec_nat(n).len() <= k,
    decreases n,
{
    if n >= 10 {
        assert(k >= 2) by {
            if k == 1 {
                assert(pow10(1) == 10) by { reveal_with_fuel(pow10, 2); }
            }
        }
        let k1 = (k - 1) as nat;
        assert(pow10(k) == 10 * pow10(k1));
        assert(n / 10 < pow10(k1)) by (nonlinear_arith)
            requires n < 10 * pow10(k1);
        lemma_dec_nat_len(n / 10, k1);
    }
}

fn i32_of(v: i64) -> (r: i32)
    requires
        i32::MIN <= v <= i32::MAX,
    ensures
        r == v,
{
    v as i32
}

/// Parses `digits` or `-digits` (one to ten digits).
fn parse_decimal(cs: &Vec<char>) -> (r: Option<i64>)
    ensures
        r matches Some(v) ==> {
            ||| (all_decimal(cs@) && v == digits_value(cs@))
            ||| (cs@.len() >= 1 && cs@[0] == '-' && all_decimal(cs@.skip(1)) && v == -digits_value(cs@.skip(1)))
        },
        r is None ==> !(1 <= cs@.len() <= 10 && all_decimal(cs@))
            && !(2 <= cs@.len() <= 11 && cs@[0] == '-' && all_decimal(cs@.skip(1))),
{
    let neg = cs.len() > 0 && cs[0] == '-';
    let start: usize = if neg { 1 } else { 0 };
    proof {
        if neg {
            assert(!all_decimal(cs@)) by {
                assert(cs@[0] == '-');
            }
        }
    }
    if cs.len() <= start || cs.len() - start > 10 {
        return None;
    }
    proof {
        assert(pow10(0) == 1);
    }
    let mut v: i64 = 0;
    let mut i: usize = start;
    while i < cs.len()
        invariant
            start <= i <= cs@.len(),
            cs@.len() - start <= 10,
            neg ==> cs@.len() >= 1 && cs@[0] == '-',
            neg ==> !all_decimal(cs@),
            !neg ==> (cs@.len() == 0 || cs@[0] != '-'),
            start == (if neg { 1usize } else { 0usize }),
            all_decimal(cs@.subrange(start as int, i as int)),
            v == digits_value(cs@.subrange(start as int, i as int)),
            0 <= v < pow10((i - start) as nat),
        decreases cs@.len() - i,
    {
        let c = cs[i];
        if c < '0' || c > '9' {
            proof {
                assert(!all_decimal(cs@.skip(start as int))) by {
                    assert(cs@.skip(start as int)[i - start] == c);
                }
                if !neg {
                    assert(cs@.skip(0) =~= cs@);
                }
            }
            return None;
        }
        let d: i64 = (c as u32 - '0' as u32) as i64;
        proof {
            let sub = cs@.subrange(start as int, i + 1);
            assert(sub.drop_last() =~= cs@.subrange(start as int, i as int));
            assert(sub.last() == c);
            assert(pow10((i + 1 - start) as nat) == 10 * pow10((i - start) as nat));
            assert(pow10(9) == 1_000_000_000) by { reveal_with_fuel(pow10, 10); }
            assert(i - start <= 9);
            if i - start < 9 {
                lemma_pow10_mono((i - start) as nat, 9);
            }
            assert forall|j: int| 0 <= j < sub.len() implies '0' <= #[trigger] sub[j] <= '9' by {
                if j < sub.len() - 1 {
                    assert(sub[j] == cs@.subrange(start as int, i as int)[j]);
                }
            }
        }
        v = v * 10 + d;
        i = i + 1;
    }
    proof {
        assert(cs@.subrange(start as int, cs@.len() as int) =~= cs@.skip(start as int));
        if !neg {
            assert(cs@.skip(0) =~= cs@);
        }
    }
    if neg { Some(-v) } else { Some(v) }
}

proof fn lemma_pow10_mono(a: nat, b: nat)
    requires
        a <= b,
    ensures
        pow10(a) <= pow10(b),
    decreases b,
{
    if a < b {
        lemma_pow10_mono(a, (b - 1) as nat);
    }
}

/// The volume number of a volume text (see `volume_number_of`).
pub fn calculate_volume_number(volume_text: Option<&str>) -> (r: Option<i32>)
    ensures
        r == volume_number_of(match volume_text { Some(t) => Some(t@), None => None }),
{
    let text = match volume_text {
        Some(t) => t,
        None => return None,
    };
    let t = trim_chars(text);
    let ghost ts = trimmed(text@);
    assert(t@ == ts);
    proof {
        assert(pow10(10) == 10_000_000_000) by { reveal_with_fuel(pow10, 11); }
    }
    let parsed = parse_decimal(&t);
    let v = match parsed {
        Some(v) => v,
        None => {
            proof {
                assert forall|n: i32| !#[trigger] renders_i32(ts, n) by {
                    if renders_i32(ts, n) {
                        if n >= 0 {
                            lemma_dec_nat_digits(n as nat);
                            lemma_dec_nat_len(n as nat, 10);
                        } else {
                            let m = (-(n as int)) as nat;
                            lemma_dec_nat_digits(m);
                            lemma_dec_nat_len(m, 10);
                            assert(ts.skip(1) =~= dec_nat(m));
                        }
                    }
                }
            }
            return None;
        },
    };
    if v < i32::MIN as i64 || v > i32::MAX as i64 {
        proof {
            assert forall|n: i32| !#[trigger] renders_i32(ts, n) by {
                if renders_i32(ts, n) {
                    lemma_renders_value(ts, n, v);
                }
            }
        }
        return None;
    }
    let n = i32_of(v);
    let s = i64_to_string(n as i64);
    if chars_are(&t, s.as_str()) {
        assert(renders_i32(ts, n));
        proof {
            assert(exists|m: i32| #[trigger] renders_i32(ts, m));
            let m = choose|m: i32| #[trigger] renders_i32(ts, m);
            lemma_renders_value(ts, m, v);
            assert(m == n);
            assert(trimmed(text@) == ts);
            assert(volume_number_of(Some(text@)) == Some(m));
        }
        Some(n)
    } else {
        proof {
            assert forall|m: i32| !#[trigger] renders_i32(ts, m) by {
                if renders_i32(ts, m) {
                    lemma_renders_value(ts, m, v);
                }
            }
        }
        None
    }
}

proof fn lemma_renders_value(ts: Seq<char>, n: i32, v: i64)
    requires
        renders_i32(ts, n),
        (all_decimal(ts) && v == digits_value(ts))
            || (ts.len() >= 1 && ts[0] == '-' && all_decimal(ts.skip(1)) && v == -digits_value(ts.skip(1))),
    ensures
        v == n,
{
    if n >= 0 {
        lemma_dec_nat_digits(n as nat);
        if ts.len() >= 1 && ts[0] == '-' {
            assert('0' <= ts[0] <= '9');
        }
    } else {
        let m = (-(n as int)) as nat;
        lemma_dec_nat_digits(m);
        assert(ts.skip(1) =~= dec_nat(m));
        assert(!all_decimal(ts)) by {
            assert(ts[0] == '-');
        }
    }
}

/// A single assignment when `v` is present.
#[verifier::opaque]
pub open spec fn piece(col: Seq<char>, v: Option<SqlValue>) -> Seq<(Seq<char>, SqlValue)> {
    match v {
        Some(x) => seq![(col, x)],
        None => Seq::empty(),
    }
}

/// A 32-bit optional integer widened.
pub open spec fn widen(o: Option<i32>) -> Option<i64> {
    match o {
        Some(i) => Some(i as i64),
        None => None,
    }
}

/// `acc` followed by the assignments of fields of group 0.
pub open spec fn with_group_0(acc: Seq<(Seq<char>, SqlValue)>, u: MediaUpdateView) -> Seq<(Seq<char>, SqlValue)> {
    acc
        + piece("uuid"@, match u.uuid { Some(Some(v)) => Some(SqlValue::Text(v)), _ => None })
}

/// `acc` followed by the assignments of fields of group 1.
pub open spec fn with_group_1(acc: Seq<(Seq<char>, SqlValue)>, u: MediaUpdateView) -> Seq<(Seq<char>, SqlValue)> {
    acc
        + piece("title"@, match u.title { Some(v) => Some(SqlValue::Text(v)), None => None })
        + piece("media_type"@, match u.media_type { Some(t) => Some(SqlValue::Text(media_type_text(t))), None => None })
        + piece("title_id"@, match u.title_id { Some(o) => Some(opt_text_value(o)), None => None })
        + piece("path"@, match u.path { Some(o) => Some(opt_text_value(o)), None => None })
        + piece("thumbnail_path"@, match u.thumbnail_path { Some(o) => Some(opt_text_value(o)), None => None })
        + piece("artist"@, match u.artist { Some(o) => Some(opt_text_value(o)), None => None })
        + piece("artist_id"@, match u.artist_id { Some(o) => Some(opt_text_value(o)), None => None })
        + piece("description"@, match u.description { Some(o) => Some(opt_text_value(o)), None => None })
        + piece("file_size"@, match u.file_size { Some(o) => Some(opt_int_value(o)), None => None })
        + piece("duration_sec"@, match u.duration_sec { Some(o) => Some(opt_int_value(widen(o))), None => None })
        + piece("page_count"@, match u.page_count { Some(o) => Some(opt_int_value(widen(o))), None => None })
        + piece("series"@, match u.series { Some(o) => Some(opt_text_value(o)), None => None })
}

/// `acc` followed by the assignments of fields of group 2.
pub open spec fn with_group_2(acc: Seq<(Seq<char>, SqlValue)>, u: MediaUpdateView) -> Seq<(Seq<char>, SqlValue)> {
    acc
        + piece("volume_text"@, match u.volume_text { Some(o) => Some(opt_text_value(o)), None => None }) + piece("volume_number"@, match u.volume_text { Some(o) => Some(opt_int_value(widen(volume_number_of(o)))), None => None })
        + piece("volume_title"@, match u.volume_title { Some(o) => Some(opt_text_value(o)), None => None })
        + piece("magazine"@, match u.magazine { Some(o) => Some(opt_text_value(o)), None => None })
        + piece("magazine_id"@, match u.magazine_id { Some(o) => Some(opt_text_value(o)), None => None })
        + piece("language"@, match u.language { Some(o) => Some(opt_text_value(o)), None => None })
        + piece("source"@, match u.source { Some(o) => Some(opt_text_value(o)), None => None })
        + piece("external_id"@, match u.external_id { Some(o) => Some(opt_text_value(o)), None => None })
        + piece("artist_en"@, match u.artist_en { Some(o) => Some(opt_text_value(o)), None => None })
        + piece("title_en"@, match u.title_en { Some(o) => Some(opt_text_value(o)), None => None })
        + piece("chapters"@, match u.chapters { Some(o) => Some(opt_text_value(o)), None => None })
        + piece("extension"@, match u.extension { Some(o) => Some(opt_text_value(o)), None => None })
}

/// `acc` followed by the assignments of fields of group 3.
pub open spec fn with_group_3(acc: Seq<(Seq<char>, SqlValue)>, u: MediaUpdateView) -> Seq<(Seq<char>, SqlValue)> {
    acc
        + piece("flag_exist"@, match u.flag_exist { Some(b) => Some(SqlValue::Int(if b { 1i64 } else { 0i64 })), None => None })
        + piece("title_pron"@, match u.title_pron { Some(o) => Some(opt_text_value(o)), None => None })
        + piece("artist_pron"@, match u.artist_pron { Some(o) => Some(opt_text_value(o)), None => None })
        + piece("series_pron"@, match u.series_pron { Some(o) => Some(opt_text_value(o)), None => None })
}

/// The assignments of an update, in column order: each field that is
/// present gives one (a volume text also gives the volume number computed
/// from it).
pub open spec fn update_pairs(u: MediaUpdateView) -> Seq<(Seq<char>, SqlValue)> {
    with_group_3(with_group_2(with_group_1(with_group_0(Seq::empty(), u), u), u), u)
}

/// Columns of assignments.
#[verifier::opaque]
pub open spec fn pair_cols(s: Seq<(Seq<char>, SqlValue)>) -> Seq<Seq<char>> {
    s.map_values(|p: (Seq<char>, SqlValue)| p.0)
}

/// Values of assignments.
#[verifier::opaque]
pub open spec fn pair_vals(s: Seq<(Seq<char>, SqlValue)>) -> Seq<SqlValue> {
    s.map_values(|p: (Seq<char>, SqlValue)| p.1)
}

/// `{col} = ?{i}`.
pub open spec fn assignment(col: Seq<char>, i: nat) -> Seq<char> {
    col + " = ?"@ + dec_nat(i)
}

/// The assignments of `cols` to parameters 1, 2, ..., separated by `, `.
#[verifier::opaque]
pub open spec fn set_clause(cols: Seq<Seq<char>>) -> Seq<char>
    decreases cols.len(),
{
    if cols.len() == 0 {
        Seq::empty()
    } else if cols.len() == 1 {
        assignment(cols[0], 1)
    } else {
        set_clause(cols.drop_last()) + ", "@ + assignment(cols.last(), cols.len())
    }
}

/// `UPDATE media SET {assignments} WHERE id = ?{n + 1}`.
pub open spec fn update_sql(cols: Seq<Seq<char>>) -> Seq<char> {
    "UPDATE media SET "@ + set_clause(cols) + " WHERE id = ?"@ + dec_nat(cols.len() + 1)
}

fn add_assignment(set: &mut String, params: &mut Vec<SqlParam>, col: &str, p: SqlParam, Ghost(acc): Ghost<Seq<(Seq<char>, SqlValue)>>)
    requires
        old(set)@ == set_clause(pair_cols(acc)),
        param_values(old(params)@) == pair_vals(acc),
        old(params)@.len() < 100,
    ensures
        final(set)@ == set_clause(pair_cols(acc.push((col@, p@)))),
        final(params)@.len() == old(params)@.len() + 1,
        param_values(final(params)@) == pair_vals(acc.push((col@, p@))),
{
    reveal(pair_cols);
    reveal(pair_vals);
    reveal(set_clause);
    let ghost pv = p@;
    let ghost acc2 = acc.push((col@, pv));
    assert(pair_cols(acc2).drop_last() =~= pair_cols(acc));
    assert(pair_cols(acc2).last() == col@);
    let ghost before = set@;
    let n = params.len();
    assert(n == acc.len()) by {
        assert(param_values(params@).len() == params@.len());
    }
    if n > 0 {
        push_str(set, ", ");
    }
    push_str(set, col);
    push_str(set, " = ?");
    push_usize(set, n + 1);
    if n == 0 {
        assert(pair_cols(acc2) =~= seq![col@]);
        assert(set@ =~= assignment(col@, 1));
    } else {
        assert(set@ =~= before + ", "@ + assignment(col@, (n + 1) as nat));
    }
    let ghost pp = params@;
    params.push(p);
    assert(param_values(params@) =~= param_values(pp).push(pv));
    assert(pair_vals(acc2) =~= pair_vals(acc).push(pv));
}

fn step_text(set: &mut String, params: &mut Vec<SqlParam>, col: &str, v: &Option<String>, Ghost(acc): Ghost<Seq<(Seq<char>, SqlValue)>>)
    requires
        old(set)@ == set_clause(pair_cols(acc)),
        param_values(old(params)@) == pair_vals(acc),
        old(params)@.len() < 60,
    ensures
        final(params)@.len() <= old(params)@.len() + 1,
        final(set)@ == set_clause(pair_cols(acc + piece(col@, match opt_str_view(*v) { Some(v) => Some(SqlValue::Text(v)), None => None }))),
        param_values(final(params)@) == pair_vals(acc + piece(col@, match opt_str_view(*v) { Some(v) => Some(SqlValue::Text(v)), None => None })),
{
    reveal(piece);
    let ghost pv = match opt_str_view(*v) { Some(v) => Some(SqlValue::Text(v)), None => None };
    if let Some(x) = v { add_assignment(set, params, col, SqlParam::Text(x.clone()), Ghost(acc)); }
    assert(acc + piece(col@, pv) =~= if pv is Some { acc.push((col@, pv->0)) } else { acc });
}

fn step_mtype(set: &mut String, params: &mut Vec<SqlParam>, col: &str, v: &Option<MediaType>, Ghost(acc): Ghost<Seq<(Seq<char>, SqlValue)>>)
    requires
        old(set)@ == set_clause(pair_cols(acc)),
        param_values(old(params)@) == pair_vals(acc),
        old(params)@.len() < 60,
    ensures
        final(params)@.len() <= old(params)@.len() + 1,
        final(set)@ == set_clause(pair_cols(acc + piece(col@, match *v { Some(t) => Some(SqlValue::Text(media_type_text(t))), None => None }))),
        param_values(final(params)@) == pair_vals(acc + piece(col@, match *v { Some(t) => Some(SqlValue::Text(media_type_text(t))), None => None })),
{
    reveal(piece);
    let ghost pv = match *v { Some(t) => Some(SqlValue::Text(media_type_text(t))), None => None };
    if let Some(t) = v { add_assignment(set, params, col, SqlParam::Text(t.as_str().to_owned()), Ghost(acc)); }
    assert(acc + piece(col@, pv) =~= if pv is Some { acc.push((col@, pv->0)) } else { acc });
}

fn step_ostr(set: &mut String, params: &mut Vec<SqlParam>, col: &str, v: &Option<Option<String>>, Ghost(acc): Ghost<Seq<(Seq<char>, SqlValue)>>)
    requires
        old(set)@ == set_clause(pair_cols(acc)),
        param_values(old(params)@) == pair_vals(acc),
        old(params)@.len() < 60,
    ensures
        final(params)@.len() <= old(params)@.len() + 1,
        final(set)@ == set_clause(pair_cols(acc + piece(col@, match opt_opt_view(*v) { Some(o) => Some(opt_text_value(o)), None => None }))),
        param_values(final(params)@) == pair_vals(acc + piece(col@, match opt_opt_view(*v) { Some(o) => Some(opt_text_value(o)), None => None })),
{
    reveal(piece);
    let ghost pv = match opt_opt_view(*v) { Some(o) => Some(opt_text_value(o)), None => None };
    if let Some(o) = v { add_assignment(set, params, col, SqlParam::from_opt_str(o), Ghost(acc)); }
    assert(acc + piece(col@, pv) =~= if pv is Some { acc.push((col@, pv->0)) } else { acc });
}

fn step_oi64(set: &mut String, params: &mut Vec<SqlParam>, col: &str, v: &Option<Option<i64>>, Ghost(acc): Ghost<Seq<(Seq<char>, SqlValue)>>)
    requires
        old(set)@ == set_clause(pair_cols(acc)),
        param_values(old(params)@) == pair_vals(acc),
        old(params)@.len() < 60,
    ensures
        final(params)@.len() <= old(params)@.len() + 1,
        final(set)@ == set_clause(pair_cols(acc + piece(col@, match *v { Some(o) => Some(opt_int_value(o)), None => None }))),
        param_values(final(params)@) == pair_vals(acc + piece(col@, match *v { Some(o) => Some(opt_int_value(o)), None => None })),
{
    reveal(piece);
    let ghost pv = match *v { Some(o) => Some(opt_int_value(o)), None => None };
    if let Some(o) = v { add_assignment(set, params, col, SqlParam::from_opt_i64(*o), Ghost(acc)); }
    assert(acc + piece(col@, pv) =~= if pv is Some { acc.push((col@, pv->0)) } else { acc });
}

fn step_oi32(set: &mut String, params: &mut Vec<SqlParam>, col: &str, v: &Option<Option<i32>>, Ghost(acc): Ghost<Seq<(Seq<char>, SqlValue)>>)
    requires
        old(set)@ == set_clause(pair_cols(acc)),
        param_values(old(params)@) == pair_vals(acc),
        old(params)@.len() < 60,
    ensures
        final(params)@.len() <= old(params)@.len() + 1,
        final(set)@ == set_clause(pair_cols(acc + piece(col@, match *v { Some(o) => Some(opt_int_value(widen(o))), None => None }))),
        param_values(final(params)@) == pair_vals(acc + piece(col@, match *v { Some(o) => Some(opt_int_value(widen(o))), None => None })),
{
    reveal(piece);
    let ghost pv = match *v { Some(o) => Some(opt_int_value(widen(o))), None => None };
    if let Some(o) = v { let wide: Option<i64> = match o { Some(i) => Some(*i as i64), None => None }; add_assignment(set, params, col, SqlParam::from_opt_i64(wide), Ghost(acc)); }
    assert(acc + piece(col@, pv) =~= if pv is Some { acc.push((col@, pv->0)) } else { acc });
}

fn step_flag(set: &mut String, params: &mut Vec<SqlParam>, col: &str, v: &Option<bool>, Ghost(acc): Ghost<Seq<(Seq<char>, SqlValue)>>)
    requires
        old(set)@ == set_clause(pair_cols(acc)),
        param_values(old(params)@) == pair_vals(acc),
        old(params)@.len() < 60,
    ensures
        final(params)@.len() <= old(params)@.len() + 1,
        final(set)@ == set_clause(pair_cols(acc + piece(col@, match *v { Some(b) => Some(SqlValue::Int(if b { 1i64 } else { 0i64 })), None => None }))),
        param_values(final(params)@) == pair_vals(acc + piece(col@, match *v { Some(b) => Some(SqlValue::Int(if b { 1i64 } else { 0i64 })), None => None })),
{
    reveal(piece);
    let ghost pv = match *v { Some(b) => Some(SqlValue::Int(if b { 1i64 } else { 0i64 })), None => None };
    if let Some(b) = v { add_assignment(set, params, col, SqlParam::Int(if *b { 1 } else { 0 }), Ghost(acc)); }
    assert(acc + piece(col@, pv) =~= if pv is Some { acc.push((col@, pv->0)) } else { acc });
}

fn step_volume(set: &mut String, params: &mut Vec<SqlParam>, v: &Option<Option<String>>, Ghost(acc): Ghost<Seq<(Seq<char>, SqlValue)>>)
    requires
        old(set)@ == set_clause(pair_cols(acc)),
        param_values(old(params)@) == pair_vals(acc),
        old(params)@.len() < 60,
    ensures
        final(params)@.len() <= old(params)@.len() + 2,
        final(set)@ == set_clause(pair_cols(acc + piece("volume_text"@, match opt_opt_view(*v) { Some(o) => Some(opt_text_value(o)), None => None }) + piece("volume_number"@, match opt_opt_view(*v) { Some(o) => Some(opt_int_value(widen(volume_number_of(o)))), None => None }))),
        param_values(final(params)@) == pair_vals(acc + piece("volume_text"@, match opt_opt_view(*v) { Some(o) => Some(opt_text_value(o)), None => None }) + piece("volume_number"@, match opt_opt_view(*v) { Some(o) => Some(opt_int_value(widen(volume_number_of(o)))), None => None })),
{
    reveal(piece);
    if let Some(o) = v {
        let vn = match o {
            Some(x) => calculate_volume_number(Some(x.as_str())),
            None => None,
        };
        let wide: Option<i64> = match vn { Some(i) => Some(i as i64), None => None };
        add_assignment(set, params, "volume_text", SqlParam::from_opt_str(o), Ghost(acc));
        let ghost acc1 = acc.push(("volume_text"@, opt_text_value(opt_str_view(*o))));
        add_assignment(set, params, "volume_number", SqlParam::from_opt_i64(wide), Ghost(acc1));
        assert(volume_number_of(opt_str_view(*o)) == vn);
        assert(acc + piece("volume_text"@, match opt_opt_view(*v) { Some(o) => Some(opt_text_value(o)), None => None }) + piece("volume_number"@, match opt_opt_view(*v) { Some(o) => Some(opt_int_value(widen(volume_number_of(o)))), None => None }) =~= acc1.push(("volume_number"@, opt_int_value(wide))));
    } else {
        assert(acc + piece("volume_text"@, match opt_opt_view(*v) { Some(o) => Some(opt_text_value(o)), None => None }) + piece("volume_number"@, match opt_opt_view(*v) { Some(o) => Some(opt_int_value(widen(volume_number_of(o)))), None => None }) =~= acc);
    }
}

fn add_group_1(set: &mut String, params: &mut Vec<SqlParam>, input: &MediaUpdateInput, Ghost(acc0): Ghost<Seq<(Seq<char>, SqlValue)>>)
    requires
        old(set)@ == set_clause(pair_cols(acc0)),
        param_values(old(params)@) == pair_vals(acc0),
        old(params)@.len() <= 30,
    ensures
        final(set)@ == set_clause(pair_cols(with_group_1(acc0, input@))),
        param_values(final(params)@) == pair_vals(with_group_1(acc0, input@)),
        final(params)@.len() <= old(params)@.len() + 13,
{
    let ghost u = input@;
    let ghost mut acc = acc0;
    step_text(set, params, "title", &input.title, Ghost(acc));
    proof {
        acc = acc + piece("title"@, match u.title { Some(v) => Some(SqlValue::Text(v)), None => None });
    }
    step_mtype(set, params, "media_type", &input.media_type, Ghost(acc));
    proof {
        acc = acc + piece("media_type"@, match u.media_type { Some(t) => Some(SqlValue::Text(media_type_text(t))), None => None });
    }
    step_ostr(set, params, "title_id", &input.title_id, Ghost(acc));
    proof {
        acc = acc + piece("title_id"@, match u.title_id { Some(o) => Some(opt_text_value(o)), None => None });
    }
    step_ostr(set, params, "path", &input.path, Ghost(acc));
    proof {
        acc = acc + piece("path"@, match u.path { Some(o) => Some(opt_text_value(o)), None => None });
    }
    step_ostr(set, params, "thumbnail_path", &input.thumbnail_path, Ghost(acc));
    proof {
        acc = acc + piece("thumbnail_path"@, match u.thumbnail_path { Some(o) => Some(opt_text_value(o)), None => None });
    }
    step_ostr(set, params, "artist", &input.artist, Ghost(acc));
    proof {
        acc = acc + piece("artist"@, match u.artist { Some(o) => Some(opt_text_value(o)), None => None });
    }
    step_ostr(set, params, "artist_id", &input.artist_id, Ghost(acc));
    proof {
        acc = acc + piece("artist_id"@, match u.artist_id { Some(o) => Some(opt_text_value(o)), None => None });
    }
    step_ostr(set, params, "description", &input.description, Ghost(acc));
    proof {
        acc = acc + piece("description"@, match u.description { Some(o) => Some(opt_text_value(o)), None => None });
    }
    step_oi64(set, params, "file_size", &input.file_size, Ghost(acc));
    proof {
        acc = acc + piece("file_size"@, match u.file_size { Some(o) => Some(opt_int_value(o)), None => None });
    }
    step_oi32(set, params, "duration_sec", &input.duration_sec, Ghost(acc));
    proof {
        acc = acc + piece("duration_sec"@, match u.duration_sec { Some(o) => Some(opt_int_value(widen(o))), None => None });
    }
    step_oi32(set, params, "page_count", &input.page_count, Ghost(acc));
    proof {
        acc = acc + piece("page_count"@, match u.page_count { Some(o) => Some(opt_int_value(widen(o))), None => None });
    }
    step_ostr(set, params, "series", &input.series, Ghost(acc));
    proof {
        acc = acc + piece("series"@, match u.series { Some(o) => Some(opt_text_value(o)), None => None });
    }
}

fn add_group_2(set: &mut String, params: &mut Vec<SqlParam>, input: &MediaUpdateInput, Ghost(acc0): Ghost<Seq<(Seq<char>, SqlValue)>>)
    requires
        old(set)@ == set_clause(pair_cols(acc0)),
        param_values(old(params)@) == pair_vals(acc0),
        old(params)@.len() <= 30,
    ensures
        final(set)@ == set_clause(pair_cols(with_group_2(acc0, input@))),
        param_values(final(params)@) == pair_vals(with_group_2(acc0, input@)),
        final(params)@.len() <= old(params)@.len() + 13,
{
    let ghost u = input@;
    let ghost mut acc = acc0;
    step_volume(set, params, &input.volume_text, Ghost(acc));
    proof {
        acc = acc + piece("volume_text"@, match u.volume_text { Some(o) => Some(opt_text_value(o)), None => None }) + piece("volume_number"@, match u.volume_text { Some(o) => Some(opt_int_value(widen(volume_number_of(o)))), None => None });
    }
    step_ostr(set, params, "volume_title", &input.volume_title, Ghost(acc));
    proof {
        acc = acc + piece("volume_title"@, match u.volume_title { Some(o) => Some(opt_text_value(o)), None => None });
    }
    step_ostr(set, params, "magazine", &input.magazine, Ghost(acc));
    proof {
        acc = acc + piece("magazine"@, match u.magazine { Some(o) => Some(opt_text_value(o)), None => None });
    }
    step_ostr(set, params, "magazine_id", &input.magazine_id, Ghost(acc));
    proof {
        acc = acc + piece("magazine_id"@, match u.magazine_id { Some(o) => Some(opt_text_value(o)), None => None });
    }
    step_ostr(set, params, "language", &input.language, Ghost(acc));
    proof {
        acc = acc + piece("language"@, match u.language { Some(o) => Some(opt_text_value(o)), None => None });
    }
    step_ostr(set, params, "source", &input.source, Ghost(acc));
    proof {
        acc = acc + piece("source"@, match u.source { Some(o) => Some(opt_text_value(o)), None => None });
    }
    step_ostr(set, params, "external_id", &input.external_id, Ghost(acc));
    proof {
        acc = acc + piece("external_id"@, match u.external_id { Some(o) => Some(opt_text_value(o)), None => None });
    }
    step_ostr(set, params, "artist_en", &input.artist_en, Ghost(acc));
    proof {
        acc = acc + piece("artist_en"@, match u.artist_en { Some(o) => Some(opt_text_value(o)), None => None });
    }
    step_ostr(set, params, "title_en", &input.title_en, Ghost(acc));
    proof {
        acc = acc + piece("title_en"@, match u.title_en { Some(o) => Some(opt_text_value(o)), None => None });
    }
    step_ostr(set, params, "chapters", &input.chapters, Ghost(acc));
    proof {
        acc = acc + piece("chapters"@, match u.chapters { Some(o) => Some(opt_text_value(o)), None => None });
    }
    step_ostr(set, params, "extension", &input.extension, Ghost(acc));
    proof {
        acc = acc + piece("extension"@, match u.extension { Some(o) => Some(opt_text_value(o)), None => None });
    }
}

fn add_group_3(set: &mut String, params: &mut Vec<SqlParam>, input: &MediaUpdateInput, Ghost(acc0): Ghost<Seq<(Seq<char>, SqlValue)>>)
    requires
        old(set)@ == set_clause(pair_cols(acc0)),
        param_values(old(params)@) == pair_vals(acc0),
        old(params)@.len() <= 30,
    ensures
        final(set)@ == set_clause(pair_cols(with_group_3(acc0, input@))),
        param_values(final(params)@) == pair_vals(with_group_3(acc0, input@)),
        final(params)@.len() <= old(params)@.len() + 13,
{
    let ghost u = input@;
    let ghost mut acc = acc0;
    step_flag(set, params, "flag_exist", &input.flag_exist, Ghost(acc));
    proof {
        acc = acc + piece("flag_exist"@, match u.flag_exist { Some(b) => Some(SqlValue::Int(if b { 1i64 } else { 0i64 })), None => None });
    }
    step_ostr(set, params, "title_pron", &input.title_pron, Ghost(acc));
    proof {
        acc = acc + piece("title_pron"@, match u.title_pron { Some(o) => Some(opt_text_value(o)), None => None });
    }
    step_ostr(set, params, "artist_pron", &input.artist_pron, Ghost(acc));
    proof {
        acc = acc + piece("artist_pron"@, match u.artist_pron { Some(o) => Some(opt_text_value(o)), None => None });
    }
    step_ostr(set, params, "series_pron", &input.series_pron, Ghost(acc));
    proof {
        acc = acc + piece("series_pron"@, match u.series_pron { Some(o) => Some(opt_text_value(o)), None => None });
    }
}

/// The statement and parameters that update media item `id` with the
/// present fields of `input`: `Ok(None)` when no field is present, an error
/// when the uuid would be set to NULL.
pub fn build_update_media_sql(id: i64, input: &MediaUpdateInput) -> (r: Result<Option<(String, Vec<SqlParam>)>, KijukuError>)
    ensures
        input@.uuid == Some(None::<Seq<char>>) ==> (r matches Err(KijukuError::Validation(m)) && m@ == "UUID cannot be set to null."@),
        input@.uuid != Some(None::<Seq<char>>) ==> {
            let pairs = update_pairs(input@);
            &&& r is Ok
            &&& (pairs.len() == 0 <==> r->Ok_0 is None)
            &&& (r->Ok_0 matches Some((sql, params)) ==> {
                &&& sql@ == update_sql(pair_cols(pairs))
                &&& param_values(params@) == pair_vals(pairs).push(SqlValue::Int(id))
            })
        },
{
    let ghost u = input@;
    let mut set = String::new();
    let mut params: Vec<SqlParam> = Vec::new();
    let ghost e: Seq<(Seq<char>, SqlValue)> = Seq::empty();
    assert(set@ =~= set_clause(pair_cols(e))) by {
        reveal(pair_cols);
        reveal(set_clause);
    }
    assert(param_values(params@) =~= pair_vals(e)) by {
        reveal(pair_vals);
    }
    match &input.uuid {
        Some(Some(v)) => {
            add_assignment(&mut set, &mut params, "uuid", SqlParam::Text(v.clone()), Ghost(e));
        },
        Some(None) => {
            return Err(KijukuError::Validation("UUID cannot be set to null.".to_owned()));
        },
        None => {},
    }
    let ghost acc = with_group_0(e, u);
    proof {
        reveal(piece);
        if u.uuid is Some {
            assert(acc =~= e.push(acc[0]));
        } else {
            assert(acc =~= e);
        }
    }
    add_group_1(&mut set, &mut params, input, Ghost(acc));
    let ghost acc = with_group_1(acc, u);
    add_group_2(&mut set, &mut params, input, Ghost(acc));
    let ghost acc = with_group_2(acc, u);
    add_group_3(&mut set, &mut params, input, Ghost(acc));
    let ghost acc = with_group_3(acc, u);
    assert(acc == update_pairs(u));
    assert(params@.len() == acc.len()) by {
        reveal(pair_vals);
        assert(param_values(params@).len() == params@.len());
    }
    if params.len() == 0 {
        return Ok(None);
    }
    let n = params.len();
    let mut sql = String::new();
    push_str(&mut sql, "UPDATE media SET ");
    push_str(&mut sql, set.as_str());
    push_str(&mut sql, " WHERE id = ?");
    push_usize(&mut sql, n + 1);
    let ghost pp = params@;
    params.push(SqlParam::Int(id));
    proof {
        assert(param_values(params@) =~= param_values(pp).push(SqlValue::Int(id)));
        reveal(pair_cols);
        assert(pair_cols(acc).len() == n);
        assert(sql@ =~= update_sql(pair_cols(acc)));
    }
    Ok(Some((sql, params)))
}


/// A lower-case hexadecimal digit.
pub open spec fn is_lower_hex(c: char) -> bool {
    ('0' <= c <= '9') || ('a' <= c <= 'f')
}

/// The hyphenated lower-case text of a random (version 4, RFC 4122 variant)
/// uuid: 8-4-4-4-12 hexadecimal digits, the version digit `4`, and a
/// variant digit among `8`, `9`, `a`, `b`.
pub open spec fn uuid_v4_text(s: Seq<char>) -> bool {
    &&& s.len() == 36
    &&& forall|i: int| 0 <= i < 36 ==> (if i == 8 || i == 13 || i == 18 || i == 23 {
        s[i] == '-'
    } else {
        is_lower_hex(#[trigger] s[i])
    })
    &&& s[14] == '4'
    &&& (s[19] == '8' || s[19] == '9' || s[19] == 'a' || s[19] == 'b')
}

/// A new random uuid in its hyphenated form.
///
/// Calls `uuid::Uuid::new_v4`, which sets the version and variant bits of
/// random bits, and renders it with `to_string` (lower-case hyphenated
/// hexadecimal); the random digits are not stated.
#[verifier::external_body]
fn new_uuid_text() -> (r: String)
    ensures
        r@.len() == 36,
        uuid_v4_text(r@),
{
    uuid::Uuid::new_v4().to_string()
}

/// The statement that inserts a media item and returns its row.
pub open spec fn insert_media_sql() -> Seq<char> {
    "INSERT INTO media (
        uuid, title, title_id, path, media_type, thumbnail_path,
        artist, artist_id, description, file_size, duration_sec,
        page_count, series, volume_number, volume_text, volume_title,
        magazine, magazine_id, language, source, external_id,
        artist_en, title_en, chapters, extension, flag_exist,
        title_pron, artist_pron, series_pron
    ) VALUES (
        ?1, ?2, ?3, ?4, ?5, ?6, ?7, ?8, ?9, ?10,
        ?11, ?12, ?13, ?14, ?15, ?16, ?17, ?18, ?19, ?20,
        ?21, ?22, ?23, ?24, ?25, ?26, ?27, ?28, ?29
    ) RETURNING *"@
}

/// The parameters of the insert of `m` with uuid `uuid`, in column order;
/// the volume number is computed from the volume text, and the existence
/// flag is 1 only when it is given as true.
pub open spec fn create_values(m: crate::types::MediaInputView, uuid: Seq<char>) -> Seq<SqlValue> {
    seq![
        SqlValue::Text(uuid),
        SqlValue::Text(m.title),
        opt_text_value(m.title_id),
        opt_text_value(m.path),
        SqlValue::Text(media_type_text(m.media_type)),
        opt_text_value(m.thumbnail_path),
        opt_text_value(m.artist),
        opt_text_value(m.artist_id),
        opt_text_value(m.description),
        opt_int_value(m.file_size),
        opt_int_value(widen(m.duration_sec)),
        opt_int_value(widen(m.page_count)),
        opt_text_value(m.series),
        opt_int_value(widen(volume_number_of(m.volume_text))),
        opt_text_value(m.volume_text),
        opt_text_value(m.volume_title),
        opt_text_value(m.magazine),
        opt_text_value(m.magazine_id),
        opt_text_value(m.language),
        opt_text_value(m.source),
        opt_text_value(m.external_id),
        opt_text_value(m.artist_en),
        opt_text_value(m.title_en),
        opt_text_value(m.chapters),
        opt_text_value(m.extension),
        SqlValue::Int(if m.flag_exist == Some(true) { 1i64 } else { 0i64 }),
        opt_text_value(m.title_pron),
        opt_text_value(m.artist_pron),
        opt_text_value(m.series_pron),
    ]
}

/// The statement and parameters that insert `input`; the uuid is the given
/// one, or a new random one when none is given.
pub fn build_create_media_sql(input: &MediaInput) -> (r: (String, Vec<SqlParam>))
    ensures
        r.0@ == insert_media_sql(),
        exists|u: Seq<char>| #[trigger] param_values(r.1@) == create_values(input@, u)
            && (match input@.uuid { Some(x) => u == x, None => u.len() == 36 && uuid_v4_text(u) }),
{
    let flag: i64 = match input.flag_exist {
        Some(true) => 1,
        _ => 0,
    };
    let vn = match &input.volume_text {
        Some(v) => calculate_volume_number(Some(v.as_str())),
        None => None,
    };
    let uuid = match &input.uuid {
        Some(u) => u.clone(),
        None => new_uuid_text(),
    };
    let ghost u = uuid@;
    let p: Vec<SqlParam> = vec![
        SqlParam::Text(uuid),
        SqlParam::Text(input.title.clone()),
        SqlParam::from_opt_str(&input.title_id),
        SqlParam::from_opt_str(&input.path),
        SqlParam::Text(input.media_type.as_str().to_owned()),
        SqlParam::from_opt_str(&input.thumbnail_path),
        SqlParam::from_opt_str(&input.artist),
        SqlParam::from_opt_str(&input.artist_id),
        SqlParam::from_opt_str(&input.description),
        SqlParam::from_opt_i64(input.file_size),
        SqlParam::from_opt_i64(match input.duration_sec { Some(i) => Some(i as i64), None => None }),
        SqlParam::from_opt_i64(match input.page_count { Some(i) => Some(i as i64), None => None }),
        SqlParam::from_opt_str(&input.series),
        SqlParam::from_opt_i64(match vn { Some(i) => Some(i as i64), None => None }),
        SqlParam::from_opt_str(&input.volume_text),
        SqlParam::from_opt_str(&input.volume_title),
        SqlParam::from_opt_str(&input.magazine),
        SqlParam::from_opt_str(&input.magazine_id),
        SqlParam::from_opt_str(&input.language),
        SqlParam::from_opt_str(&input.source),
        SqlParam::from_opt_str(&input.external_id),
        SqlParam::from_opt_str(&input.artist_en),
        SqlParam::from_opt_str(&input.title_en),
        SqlParam::from_opt_str(&input.chapters),
        SqlParam::from_opt_str(&input.extension),
        SqlParam::Int(flag),
        SqlParam::from_opt_str(&input.title_pron),
        SqlParam::from_opt_str(&input.artist_pron),
        SqlParam::from_opt_str(&input.series_pron),
    ];
    proof {
        assert(volume_number_of(input@.volume_text) == vn);
        assert(param_values(p@) =~= create_values(input@, u));
    }
    let sql = "INSERT INTO media (
        uuid, title, title_id, path, media_type, thumbnail_path,
        artist, artist_id, description, file_size, duration_sec,
        page_count, series, volume_number, volume_text, volume_title,
        magazine, magazine_id, language, source, external_id,
        artist_en, title_en, chapters, extension, flag_exist,
        title_pron, artist_pron, series_pron
    ) VALUES (
        ?1, ?2, ?3, ?4, ?5, ?6, ?7, ?8, ?9, ?10,
        ?11, ?12, ?13, ?14, ?15, ?16, ?17, ?18, ?19, ?20,
        ?21, ?22, ?23, ?24, ?25, ?26, ?27, ?28, ?29
    ) RETURNING *".to_owned();
    (sql, p)
}

#[verifier::external_type_specification]
#[verifier::external_body]
pub struct ExConnection(rusqlite::Connection);

/// Runs statement `sql` with `params` on `conn`: the number of rows
/// changed, or the driver's error as text.
///
/// Calls `rusqlite::Connection::execute` with each parameter converted to
/// the `rusqlite::types::Value` of the same kind; what the statement does
/// to the database is not stated.
#[verifier::external_body]
pub(crate) fn execute_statement(conn: &rusqlite::Connection, sql: &str, params: &[SqlParam]) -> (r: Result<usize, String>) {
    let values: Vec<rusqlite::types::Value> = params.iter().map(|p| match p {
        SqlParam::Null => rusqlite::types::Value::Null,
        SqlParam::Int(i) => rusqlite::types::Value::Integer(*i),
        SqlParam::Text(s) => rusqlite::types::Value::Text(s.clone()),
        SqlParam::Blob(b) => rusqlite::types::Value::Blob(b.clone()),
    }).collect();
    conn.execute(sql, rusqlite::params_from_iter(values.iter())).map_err(|e| e.to_string())
}

/// Message of a missing media item.
pub open spec fn media_not_found_text(id: i64) -> Seq<char> {
    "メディアが見つかりません: id="@ + dec_int(id as int)
}

/// Updates the present fields of `input` in media item `id`. The item must
/// be found by `get_media` (`NotFound` otherwise); a uuid set to
/// NULL is refused; with no field present nothing is written.
pub fn update_media(conn: &rusqlite::Connection, id: i64, input: &MediaUpdateInput) -> (r: Result<(), KijukuError>)
    ensures
        r matches Err(KijukuError::NotFound(m)) ==> m@ == media_not_found_text(id),
        r matches Err(KijukuError::Validation(m)) ==> input@.uuid == Some(None::<Seq<char>>)
            && m@ == "UUID cannot be set to null."@,
        r is Ok ==> input@.uuid != Some(None::<Seq<char>>),
        r matches Err(KijukuError::Database(_)) ==> input@.uuid != Some(None::<Seq<char>>)
            && update_pairs(input@).len() > 0,
        r is Err ==> (r matches Err(KijukuError::NotFound(_))) || (r matches Err(KijukuError::Validation(_)))
            || (r matches Err(KijukuError::Database(_))),
{
    if get_media(conn, id).is_none() {
        let mut m = String::new();
        push_str(&mut m, "メディアが見つかりません: id=");
        crate::text::push_i64(&mut m, id);
        return Err(KijukuError::NotFound(m));
    }
    match build_update_media_sql(id, input) {
        Err(e) => Err(e),
        Ok(None) => Ok(()),
        Ok(Some((sql, params))) => match execute_statement(conn, sql.as_str(), params.as_slice()) {
            Ok(_) => Ok(()),
            Err(e) => Err(KijukuError::Database(e)),
        },
    }
}

/// The decimal rendering of `n` is one or more digits with value `n`.
pub proof fn lemma_dec_nat_facts(n: nat)
    ensures
        all_decimal(dec_nat(n)),
        digits_value(dec_nat(n)) == n,
        dec_nat(n).len() >= 1,
{
    lemma_dec_nat_digits(n);
}

/// Deletes media item `id`. The item must be found by `get_media`
/// (`NotFound` otherwise).
pub fn delete_media(conn: &rusqlite::Connection, id: i64) -> (r: Result<(), KijukuError>)
    ensures
        r matches Err(KijukuError::NotFound(m)) ==> m@ == media_not_found_text(id),
        r is Err ==> (r matches Err(KijukuError::NotFound(_))) || (r matches Err(KijukuError::Database(_))),
{
    if get_media(conn, id).is_none() {
        let mut m = String::new();
        push_str(&mut m, "メディアが見つかりません: id=");
        crate::text::push_i64(&mut m, id);
        return Err(KijukuError::NotFound(m));
    }
    let mut params: Vec<SqlParam> = Vec::new();
    params.push(SqlParam::Int(id));
    match execute_statement(conn, "DELETE FROM media WHERE id = ?1", params.as_slice()) {
        Ok(_) => Ok(()),
        Err(e) => Err(KijukuError::Database(e)),
    }
}

/// The media type column of a row, as text.
pub open spec fn media_type_col(m: Map<Seq<char>, SqlValue>) -> Result<Seq<char>, Seq<char>> {
    col_text(m, "media_type"@)
}

/// The message of the first column of a media row that cannot be read, in
/// the order `row_to_media_from_sqlrow` reads them (the media type first),
/// or `None` when every column reads.
pub open spec fn media_row_error(m: Map<Seq<char>, SqlValue>) -> Option<Seq<char>> {
    if media_type_col(m) is Err {
        err_of(media_type_col(m))
    } else if media_type_named(media_type_col(m)->Ok_0) is None {
        Some("Invalid media_type: "@ + media_type_col(m)->Ok_0)
    } else if col_int(m, "id"@) is Err {
        err_of(col_int(m, "id"@))
    } else if col_text(m, "uuid"@) is Err {
        err_of(col_text(m, "uuid"@))
    } else if col_text(m, "title"@) is Err {
        err_of(col_text(m, "title"@))
    } else if col_opt_text(m, "title_id"@) is Err {
        err_of(col_opt_text(m, "title_id"@))
    } else if col_opt_text(m, "path"@) is Err {
        err_of(col_opt_text(m, "path"@))
    } else if col_opt_text(m, "thumbnail_path"@) is Err {
        err_of(col_opt_text(m, "thumbnail_path"@))
    } else if col_opt_text(m, "artist"@) is Err {
        err_of(col_opt_text(m, "artist"@))
    } else if col_opt_text(m, "artist_id"@) is Err {
        err_of(col_opt_text(m, "artist_id"@))
    } else if col_opt_text(m, "description"@) is Err {
        err_of(col_opt_text(m, "description"@))
    } else if col_opt_int(m, "file_size"@) is Err {
        err_of(col_opt_int(m, "file_size"@))
    } else if col_opt_i32(m, "duration_sec"@) is Err {
        err_of(col_opt_i32(m, "duration_sec"@))
    } else if col_opt_i32(m, "page_count"@) is Err {
        err_of(col_opt_i32(m, "page_count"@))
    } else if col_opt_text(m, "series"@) is Err {
        err_of(col_opt_text(m, "series"@))
    } else if col_opt_i32(m, "volume_number"@) is Err {
        err_of(col_opt_i32(m, "volume_number"@))
    } else if col_opt_text(m, "volume_text"@) is Err {
        err_of(col_opt_text(m, "volume_text"@))
    } else if col_opt_text(m, "volume_title"@) is Err {
        err_of(col_opt_text(m, "volume_title"@))
    } else if col_opt_text(m, "magazine"@) is Err {
        err_of(col_opt_text(m, "magazine"@))
    } else if col_opt_text(m, "magazine_id"@) is Err {
        err_of(col_opt_text(m, "magazine_id"@))
    } else if col_opt_text(m, "language"@) is Err {
        err_of(col_opt_text(m, "language"@))
    } else if col_opt_text(m, "source"@) is Err {
        err_of(col_opt_text(m, "source"@))
    } else if col_opt_text(m, "external_id"@) is Err {
        err_of(col_opt_text(m, "external_id"@))
    } else if col_opt_text(m, "artist_en"@) is Err {
        err_of(col_opt_text(m, "artist_en"@))
    } else if col_opt_text(m, "title_en"@) is Err {
        err_of(col_opt_text(m, "title_en"@))
    } else if col_opt_text(m, "chapters"@) is Err {
        err_of(col_opt_text(m, "chapters"@))
    } else if col_opt_text(m, "extension"@) is Err {
        err_of(col_opt_text(m, "extension"@))
    } else if col_bool(m, "flag_exist"@) is Err {
        err_of(col_bool(m, "flag_exist"@))
    } else if col_datetime(m, "created_at"@) is Err {
        err_of(col_datetime(m, "created_at"@))
    } else if col_datetime(m, "updated_at"@) is Err {
        err_of(col_datetime(m, "updated_at"@))
    } else if col_opt_text(m, "title_pron"@) is Err {
        err_of(col_opt_text(m, "title_pron"@))
    } else if col_opt_text(m, "artist_pron"@) is Err {
        err_of(col_opt_text(m, "artist_pron"@))
    } else if col_opt_text(m, "series_pron"@) is Err {
        err_of(col_opt_text(m, "series_pron"@))
    } else {
        None
    }
}

/// The media item that a readable media row holds.
pub open spec fn media_view_of_row(m: Map<Seq<char>, SqlValue>) -> MediaView {
    MediaView {
        id: col_int(m, "id"@)->Ok_0,
        uuid: col_text(m, "uuid"@)->Ok_0,
        title: col_text(m, "title"@)->Ok_0,
        title_id: col_opt_text(m, "title_id"@)->Ok_0,
        path: col_opt_text(m, "path"@)->Ok_0,
        media_type: media_type_named(media_type_col(m)->Ok_0)->Some_0,
        thumbnail_path: col_opt_text(m, "thumbnail_path"@)->Ok_0,
        artist: col_opt_text(m, "artist"@)->Ok_0,
        artist_id: col_opt_text(m, "artist_id"@)->Ok_0,
        description: col_opt_text(m, "description"@)->Ok_0,
        file_size: col_opt_int(m, "file_size"@)->Ok_0,
        duration_sec: col_opt_i32(m, "duration_sec"@)->Ok_0,
        page_count: col_opt_i32(m, "page_count"@)->Ok_0,
        series: col_opt_text(m, "series"@)->Ok_0,
        volume_number: col_opt_i32(m, "volume_number"@)->Ok_0,
        volume_text: col_opt_text(m, "volume_text"@)->Ok_0,
        volume_title: col_opt_text(m, "volume_title"@)->Ok_0,
        magazine: col_opt_text(m, "magazine"@)->Ok_0,
        magazine_id: col_opt_text(m, "magazine_id"@)->Ok_0,
        language: col_opt_text(m, "language"@)->Ok_0,
        source: col_opt_text(m, "source"@)->Ok_0,
        external_id: col_opt_text(m, "external_id"@)->Ok_0,
        artist_en: col_opt_text(m, "artist_en"@)->Ok_0,
        title_en: col_opt_text(m, "title_en"@)->Ok_0,
        chapters: col_opt_text(m, "chapters"@)->Ok_0,
        extension: col_opt_text(m, "extension"@)->Ok_0,
        flag_exist: col_bool(m, "flag_exist"@)->Ok_0,
        created_at: col_datetime(m, "created_at"@)->Ok_0,
        updated_at: col_datetime(m, "updated_at"@)->Ok_0,
        title_pron: col_opt_text(m, "title_pron"@)->Ok_0,
        artist_pron: col_opt_text(m, "artist_pron"@)->Ok_0,
        series_pron: col_opt_text(m, "series_pron"@)->Ok_0,
    }
}

/// Reads a media item from a result row: the media type first, then each
/// column in turn; the first column that cannot be read gives the error.
#[verifier::rlimit(60)]
#[verifier::spinoff_prover]
pub fn row_to_media_from_sqlrow(row: &SqlRow) -> (r: Result<Media, KijukuError>)
    requires
        row.wf(),
    ensures
        match r {
            Ok(x) => media_row_error(row@) is None && x@ == media_view_of_row(row@),
            Err(e) => media_row_error(row@) is Some && parse_text(e) == media_row_error(row@),
        },
{
    let type_str = match row.get_text("media_type") {
        Ok(v) => v,
        Err(e) => return Err(e),
    };
    let media_type = match MediaType::from_str(type_str.as_str()) {
        Some(t) => t,
        None => {
            let mut msg = String::new();
            push_str(&mut msg, "Invalid media_type: ");
            push_str(&mut msg, type_str.as_str());
            return Err(KijukuError::Parse(msg));
        },
    };
    let id = match row.get_int("id") {
        Ok(v) => v,
        Err(e) => return Err(e),
    };
    let uuid = match row.get_text("uuid") {
        Ok(v) => v,
        Err(e) => return Err(e),
    };
    let title = match row.get_text("title") {
        Ok(v) => v,
        Err(e) => return Err(e),
    };
    let title_id = match row.get_opt_text("title_id") {
        Ok(v) => v,
        Err(e) => return Err(e),
    };
    let path = match row.get_opt_text("path") {
        Ok(v) => v,
        Err(e) => return Err(e),
    };
    let thumbnail_path = match row.get_opt_text("thumbnail_path") {
        Ok(v) => v,
        Err(e) => return Err(e),
    };
    let artist = match row.get_opt_text("artist") {
        Ok(v) => v,
        Err(e) => return Err(e),
    };
    let artist_id = match row.get_opt_text("artist_id") {
        Ok(v) => v,
        Err(e) => return Err(e),
    };
    let description = match row.get_opt_text("description") {
        Ok(v) => v,
        Err(e) => return Err(e),
    };
    let file_size = match row.get_opt_int("file_size") {
        Ok(v) => v,
        Err(e) => return Err(e),
    };
    let duration_sec = match row.get_opt_i32("duration_sec") {
        Ok(v) => v,
        Err(e) => return Err(e),
    };
    let page_count = match row.get_opt_i32("page_count") {
        Ok(v) => v,
        Err(e) => return Err(e),
    };
    let series = match row.get_opt_text("series") {
        Ok(v) => v,
        Err(e) => return Err(e),
    };
    let volume_number = match row.get_opt_i32("volume_number") {
        Ok(v) => v,
        Err(e) => return Err(e),
    };
    let volume_text = match row.get_opt_text("volume_text") {
        Ok(v) => v,
        Err(e) => return Err(e),
    };
    let volume_title = match row.get_opt_text("volume_title") {
        Ok(v) => v,
        Err(e) => return Err(e),
    };
    let magazine = match row.get_opt_text("magazine") {
        Ok(v) => v,
        Err(e) => return Err(e),
    };
    let magazine_id = match row.get_opt_text("magazine_id") {
        Ok(v) => v,
        Err(e) => return Err(e),
    };
    let language = match row.get_opt_text("language") {
        Ok(v) => v,
        Err(e) => return Err(e),
    };
    let source = match row.get_opt_text("source") {
        Ok(v) => v,
        Err(e) => return Err(e),
    };
    let external_id = match row.get_opt_text("external_id") {
        Ok(v) => v,
        Err(e) => return Err(e),
    };
    let artist_en = match row.get_opt_text("artist_en") {
        Ok(v) => v,
        Err(e) => return Err(e),
    };
    let title_en = match row.get_opt_text("title_en") {
        Ok(v) => v,
        Err(e) => return Err(e),
    };
    let chapters = match row.get_opt_text("chapters") {
        Ok(v) => v,
        Err(e) => return Err(e),
    };
    let extension = match row.get_opt_text("extension") {
        Ok(v) => v,
        Err(e) => return Err(e),
    };
    let flag_exist = match row.get_bool("flag_exist") {
        Ok(v) => v,
        Err(e) => return Err(e),
    };
    let created_at = match row.get_datetime("created_at") {
        Ok(v) => v,
        Err(e) => return Err(e),
    };
    let updated_at = match row.get_datetime("updated_at") {
        Ok(v) => v,
        Err(e) => return Err(e),
    };
    let title_pron = match row.get_opt_text("title_pron") {
        Ok(v) => v,
        Err(e) => return Err(e),
    };
    let artist_pron = match row.get_opt_text("artist_pron") {
        Ok(v) => v,
        Err(e) => return Err(e),
    };
    let series_pron = match row.get_opt_text("series_pron") {
        Ok(v) => v,
        Err(e) => return Err(e),
    };
    Ok(Media {
        id,
        uuid,
        title,
        title_id,
        path,
        media_type,
        thumbnail_path,
        artist,
        artist_id,
        description,
        file_size,
        duration_sec,
        page_count,
        series,
        volume_number,
        volume_text,
        volume_title,
        magazine,
        magazine_id,
        language,
        source,
        external_id,
        artist_en,
        title_en,
        chapters,
        extension,
        flag_exist,
        created_at,
        updated_at,
        title_pron,
        artist_pron,
        series_pron,
    })
}

/// Message of a created item that could not be read back.
pub open spec fn created_missing_text() -> Seq<char> {
    "作成されたメディアが見つかりません"@
}

/// A media item as some readable row of the media table holds it.
pub open spec fn read_from_some_row(m: MediaView) -> bool {
    exists|row: Map<Seq<char>, SqlValue>| media_row_error(row) is None && m == media_view_of_row(row)
}

/// Creates a media item from `input` (see `build_create_media_sql`) and
/// returns the row that was written, read back. A database error is passed
/// on; a row that cannot be read is a parse error.
pub fn create_media(conn: &rusqlite::Connection, input: &MediaInput) -> (r: Result<Media, KijukuError>)
    ensures
        r matches Ok(m) ==> read_from_some_row(m@),
        r matches Err(e) ==> (e is Database) || (e is Parse)
            || (e matches KijukuError::NotFound(msg) && msg@ == created_missing_text()),
{
    let (sql, params) = build_create_media_sql(input);
    let rows = match query(conn, sql.as_str(), params.as_slice()) {
        Ok(rows) => rows,
        Err(e) => return Err(e),
    };
    if rows.len() == 0 {
        return Err(KijukuError::NotFound("作成されたメディアが見つかりません".to_string()));
    }
    row_to_media_from_sqlrow(&rows[0])
}

/// The query that reads media item `id`.
pub open spec fn get_media_query() -> Seq<char> {
    "SELECT * FROM media WHERE id = ?1"@
}

/// The query and parameters that read media item `id`.
pub fn get_media_sql(id: i64) -> (r: (String, Vec<SqlParam>))
    ensures
        r.0@ == get_media_query(),
        param_values(r.1@) == seq![SqlValue::Int(id)],
{
    let mut params: Vec<SqlParam> = Vec::new();
    params.push(SqlParam::Int(id));
    assert(param_values(params@) =~= seq![SqlValue::Int(id)]);
    ("SELECT * FROM media WHERE id = ?1".to_string(), params)
}

/// The media item with id `id` (the query of `get_media_sql`): `None` when
/// there is none, or when the query or reading its row fails.
pub fn get_media(conn: &rusqlite::Connection, id: i64) -> (r: Option<Media>)
    ensures
        r matches Some(m) ==> read_from_some_row(m@),
{
    let (sql, params) = get_media_sql(id);
    match query(conn, sql.as_str(), params.as_slice()) {
        Ok(rows) => {
            if rows.len() == 0 {
                None
            } else {
                match row_to_media_from_sqlrow(&rows[0]) {
                    Ok(m) => Some(m),
                    Err(_) => None,
                }
            }
        },
        Err(_) => None,
    }
}

/// Assignment of value `v` to column `col` is among `pairs`: in the
/// statement of `build_update_media_sql`, assignment `k` reads
/// `col = ?{k + 1}` and parameter `k + 1` has value `v`.
pub open spec fn assigns(pairs: Seq<(Seq<char>, SqlValue)>, col: Seq<char>, v: SqlValue) -> bool {
    exists|k: int| 0 <= k < pairs.len() && pairs[k] == (col, v)
}

/// The column and value of assignment `k` are those of the statement.
pub proof fn lemma_assignment_in_statement(pairs: Seq<(Seq<char>, SqlValue)>, k: int)
    requires
        0 <= k < pairs.len(),
    ensures
        pair_cols(pairs)[k] == pairs[k].0,
        pair_vals(pairs)[k] == pairs[k].1,
        pair_cols(pairs).len() == pairs.len(),
        pair_vals(pairs).len() == pairs.len(),
{
    reveal(pair_cols);
    reveal(pair_vals);
}

broadcast proof fn lemma_assigns_concat(a: Seq<(Seq<char>, SqlValue)>, b: Seq<(Seq<char>, SqlValue)>, col: Seq<char>, v: SqlValue)
    ensures
        (assigns(a, col, v) || assigns(b, col, v)) ==> #[trigger] assigns(a + b, col, v),
{
    if assigns(a, col, v) {
        let k = choose|k: int| 0 <= k < a.len() && a[k] == (col, v);
        assert((a + b)[k] == a[k]);
    } else if assigns(b, col, v) {
        let k = choose|k: int| 0 <= k < b.len() && b[k] == (col, v);
        assert((a + b)[a.len() + k] == b[k]);
    }
}

broadcast proof fn lemma_assigns_piece(col: Seq<char>, v: SqlValue)
    ensures
        #[trigger] assigns(piece(col, Some(v)), col, v),
{
    reveal(piece);
    assert(piece(col, Some(v))[0] == (col, v));
}

/// An update assigns every field it gives, with the value given: a text as
/// text, an integer as integer, a field set to nothing as NULL, the type
/// by its name, and the existence flag as 1 for true and 0 for false.
pub proof fn law_update_assigns_given_fields(u: MediaUpdateView)
    ensures
        u.uuid matches Some(Some(t)) ==> assigns(update_pairs(u), "uuid"@, SqlValue::Text(t)),
        u.title matches Some(t) ==> assigns(update_pairs(u), "title"@, SqlValue::Text(t)),
        u.media_type matches Some(t) ==> assigns(update_pairs(u), "media_type"@, SqlValue::Text(media_type_text(t))),
        u.title_id matches Some(Some(t)) ==> assigns(update_pairs(u), "title_id"@, SqlValue::Text(t)),
        u.title_id == Some(None::<Seq<char>>) ==> assigns(update_pairs(u), "title_id"@, SqlValue::Null),
        u.path matches Some(Some(t)) ==> assigns(update_pairs(u), "path"@, SqlValue::Text(t)),
        u.path == Some(None::<Seq<char>>) ==> assigns(update_pairs(u), "path"@, SqlValue::Null),
        u.thumbnail_path matches Some(Some(t)) ==> assigns(update_pairs(u), "thumbnail_path"@, SqlValue::Text(t)),
        u.thumbnail_path == Some(None::<Seq<char>>) ==> assigns(update_pairs(u), "thumbnail_path"@, SqlValue::Null),
        u.artist matches Some(Some(t)) ==> assigns(update_pairs(u), "artist"@, SqlValue::Text(t)),
        u.artist == Some(None::<Seq<char>>) ==> assigns(update_pairs(u), "artist"@, SqlValue::Null),
        u.artist_id matches Some(Some(t)) ==> assigns(update_pairs(u), "artist_id"@, SqlValue::Text(t)),
        u.artist_id == Some(None::<Seq<char>>) ==> assigns(update_pairs(u), "artist_id"@, SqlValue::Null),
        u.description matches Some(Some(t)) ==> assigns(update_pairs(u), "description"@, SqlValue::Text(t)),
        u.description == Some(None::<Seq<char>>) ==> assigns(update_pairs(u), "description"@, SqlValue::Null),
        u.series matches Some(Some(t)) ==> assigns(update_pairs(u), "series"@, SqlValue::Text(t)),
        u.series == Some(None::<Seq<char>>) ==> assigns(update_pairs(u), "series"@, SqlValue::Null),
        u.volume_text matches Some(Some(t)) ==> assigns(update_pairs(u), "volume_text"@, SqlValue::Text(t)),
        u.volume_text == Some(None::<Seq<char>>) ==> assigns(update_pairs(u), "volume_text"@, SqlValue::Null),
        u.volume_title matches Some(Some(t)) ==> assigns(update_pairs(u), "volume_title"@, SqlValue::Text(t)),
        u.volume_title == Some(None::<Seq<char>>) ==> assigns(update_pairs(u), "volume_title"@, SqlValue::Null),
        u.magazine matches Some(Some(t)) ==> assigns(update_pairs(u), "magazine"@, SqlValue::Text(t)),
        u.magazine == Some(None::<Seq<char>>) ==> assigns(update_pairs(u), "magazine"@, SqlValue::Null),
        u.magazine_id matches Some(Some(t)) ==> assigns(update_pairs(u), "magazine_id"@, SqlValue::Text(t)),
        u.magazine_id == Some(None::<Seq<char>>) ==> assigns(update_pairs(u), "magazine_id"@, SqlValue::Null),
        u.language matches Some(Some(t)) ==> assigns(update_pairs(u), "language"@, SqlValue::Text(t)),
        u.language == Some(None::<Seq<char>>) ==> assigns(update_pairs(u), "language"@, SqlValue::Null),
        u.source matches Some(Some(t)) ==> assigns(update_pairs(u), "source"@, SqlValue::Text(t)),
        u.source == Some(None::<Seq<char>>) ==> assigns(update_pairs(u), "source"@, SqlValue::Null),
        u.external_id matches Some(Some(t)) ==> assigns(update_pairs(u), "external_id"@, SqlValue::Text(t)),
        u.external_id == Some(None::<Seq<char>>) ==> assigns(update_pairs(u), "external_id"@, SqlValue::Null),
        u.artist_en matches Some(Some(t)) ==> assigns(update_pairs(u), "artist_en"@, SqlValue::Text(t)),
        u.artist_en == Some(None::<Seq<char>>) ==> assigns(update_pairs(u), "artist_en"@, SqlValue::Null),
        u.title_en matches Some(Some(t)) ==> assigns(update_pairs(u), "title_en"@, SqlValue::Text(t)),
        u.title_en == Some(None::<Seq<char>>) ==> assigns(update_pairs(u), "title_en"@, SqlValue::Null),
        u.chapters matches Some(Some(t)) ==> assigns(update_pairs(u), "chapters"@, SqlValue::Text(t)),
        u.chapters == Some(None::<Seq<char>>) ==> assigns(update_pairs(u), "chapters"@, SqlValue::Null),
        u.extension matches Some(Some(t)) ==> assigns(update_pairs(u), "extension"@, SqlValue::Text(t)),
        u.extension == Some(None::<Seq<char>>) ==> assigns(update_pairs(u), "extension"@, SqlValue::Null),
        u.title_pron matches Some(Some(t)) ==> assigns(update_pairs(u), "title_pron"@, SqlValue::Text(t)),
        u.title_pron == Some(None::<Seq<char>>) ==> assigns(update_pairs(u), "title_pron"@, SqlValue::Null),
        u.artist_pron matches Some(Some(t)) ==> assigns(update_pairs(u), "artist_pron"@, SqlValue::Text(t)),
        u.artist_pron == Some(None::<Seq<char>>) ==> assigns(update_pairs(u), "artist_pron"@, SqlValue::Null),
        u.series_pron matches Some(Some(t)) ==> assigns(update_pairs(u), "series_pron"@, SqlValue::Text(t)),
        u.series_pron == Some(None::<Seq<char>>) ==> assigns(update_pairs(u), "series_pron"@, SqlValue::Null),
        u.file_size matches Some(Some(i)) ==> assigns(update_pairs(u), "file_size"@, SqlValue::Int(i)),
        u.file_size == Some(None::<i64>) ==> assigns(update_pairs(u), "file_size"@, SqlValue::Null),
        u.duration_sec matches Some(Some(i)) ==> assigns(update_pairs(u), "duration_sec"@, SqlValue::Int(i as i64)),
        u.duration_sec == Some(None::<i32>) ==> assigns(update_pairs(u), "duration_sec"@, SqlValue::Null),
        u.page_count matches Some(Some(i)) ==> assigns(update_pairs(u), "page_count"@, SqlValue::Int(i as i64)),
        u.page_count == Some(None::<i32>) ==> assigns(update_pairs(u), "page_count"@, SqlValue::Null),
        u.flag_exist == Some(true) ==> assigns(update_pairs(u), "flag_exist"@, SqlValue::Int(1)),
        u.flag_exist == Some(false) ==> assigns(update_pairs(u), "flag_exist"@, SqlValue::Int(0)),
{
    broadcast use lemma_assigns_concat, lemma_assigns_piece;
}

/// The insert binds each column of its column list to the value given for
/// it: parameter `k + 1` of `insert_media_sql` goes with the `k`-th column,
/// a text as text, an absent field as NULL, the type by its name, and the
/// existence flag as 1 when it is given as true and 0 otherwise.
pub proof fn law_insert_binds_given_values(m: crate::types::MediaInputView, u: Seq<char>)
    ensures
        create_values(m, u).len() == 29,
        create_values(m, u)[0] == SqlValue::Text(u),
        create_values(m, u)[1] == SqlValue::Text(m.title),
        m.title_id matches Some(t) ==> create_values(m, u)[2] == SqlValue::Text(t),
        m.title_id is None ==> create_values(m, u)[2] == SqlValue::Null,
        m.path matches Some(t) ==> create_values(m, u)[3] == SqlValue::Text(t),
        m.path is None ==> create_values(m, u)[3] == SqlValue::Null,
        create_values(m, u)[4] == SqlValue::Text(media_type_text(m.media_type)),
        m.thumbnail_path matches Some(t) ==> create_values(m, u)[5] == SqlValue::Text(t),
        m.thumbnail_path is None ==> create_values(m, u)[5] == SqlValue::Null,
        m.artist matches Some(t) ==> create_values(m, u)[6] == SqlValue::Text(t),
        m.artist is None ==> create_values(m, u)[6] == SqlValue::Null,
        m.artist_id matches Some(t) ==> create_values(m, u)[7] == SqlValue::Text(t),
        m.artist_id is None ==> create_values(m, u)[7] == SqlValue::Null,
        m.description matches Some(t) ==> create_values(m, u)[8] == SqlValue::Text(t),
        m.description is None ==> create_values(m, u)[8] == SqlValue::Null,
        m.file_size matches Some(i) ==> create_values(m, u)[9] == SqlValue::Int(i),
        m.file_size is None ==> create_values(m, u)[9] == SqlValue::Null,
        m.duration_sec matches Some(i) ==> create_values(m, u)[10] == SqlValue::Int(i as i64),
        m.duration_sec is None ==> create_values(m, u)[10] == SqlValue::Null,
        m.page_count matches Some(i) ==> create_values(m, u)[11] == SqlValue::Int(i as i64),
        m.page_count is None ==> create_values(m, u)[11] == SqlValue::Null,
        m.series matches Some(t) ==> create_values(m, u)[12] == SqlValue::Text(t),
        m.series is None ==> create_values(m, u)[12] == SqlValue::Null,
        m.volume_text matches Some(t) ==> create_values(m, u)[14] == SqlValue::Text(t),
        m.volume_text is None ==> create_values(m, u)[14] == SqlValue::Null,
        m.volume_title matches Some(t) ==> create_values(m, u)[15] == SqlValue::Text(t),
        m.volume_title is None ==> create_values(m, u)[15] == SqlValue::Null,
        m.magazine matches Some(t) ==> create_values(m, u)[16] == SqlValue::Text(t),
        m.magazine is None ==> create_values(m, u)[16] == SqlValue::Null,
        m.magazine_id matches Some(t) ==> create_values(m, u)[17] == SqlValue::Text(t),
        m.magazine_id is None ==> create_values(m, u)[17] == SqlValue::Null,
        m.language matches Some(t) ==> create_values(m, u)[18] == SqlValue::Text(t),
        m.language is None ==> create_values(m, u)[18] == SqlValue::Null,
        m.source matches Some(t) ==> create_values(m, u)[19] == SqlValue::Text(t),
        m.source is None ==> create_values(m, u)[19] == SqlValue::Null,
        m.external_id matches Some(t) ==> create_values(m, u)[20] == SqlValue::Text(t),
        m.external_id is None ==> create_values(m, u)[20] == SqlValue::Null,
        m.artist_en matches Some(t) ==> create_values(m, u)[21] == SqlValue::Text(t),
        m.artist_en is None ==> create_values(m, u)[21] == SqlValue::Null,
        m.title_en matches Some(t) ==> create_values(m, u)[22] == SqlValue::Text(t),
        m.title_en is None ==> create_values(m, u)[22] == SqlValue::Null,
        m.chapters matches Some(t) ==> create_values(m, u)[23] == SqlValue::Text(t),
        m.chapters is None ==> create_values(m, u)[23] == SqlValue::Null,
        m.extension matches Some(t) ==> create_values(m, u)[24] == SqlValue::Text(t),
        m.extension is None ==> create_values(m, u)[24] == SqlValue::Null,
        m.flag_exist == Some(true) ==> create_values(m, u)[25] == SqlValue::Int(1),
        m.flag_exist != Some(true) ==> create_values(m, u)[25] == SqlValue::Int(0),
        m.title_pron matches Some(t) ==> create_values(m, u)[26] == SqlValue::Text(t),
        m.title_pron is None ==> create_values(m, u)[26] == SqlValue::Null,
        m.artist_pron matches Some(t) ==> create_values(m, u)[27] == SqlValue::Text(t),
        m.artist_pron is None ==> create_values(m, u)[27] == SqlValue::Null,
        m.series_pron matches Some(t) ==> create_values(m, u)[28] == SqlValue::Text(t),
        m.series_pron is None ==> create_values(m, u)[28] == SqlValue::Null,
{
}

} // verus!
