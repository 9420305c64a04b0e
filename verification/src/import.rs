//! Records of a bulk import: a media item, its tag names and its extra
//! attributes, built from the columns of one row of a CSV, TSV or JSON
//! file.
use vstd::prelude::*;
use crate::config::{trim_chars, trimmed};
use crate::records::{chars_of, string_of};
use crate::text::{push_str, push_char};
use crate::types::{str_eq, MediaInput, MediaInputView, MediaType};

verus! {

broadcast use vstd::std_specs::vec::group_vec_axioms;

/// A row of an import file: column names and their texts. Setting a column
/// again replaces its text.
pub struct ImportRow {
    cols: Vec<(String, String)>,
}

impl View for ImportRow {
    type V = Map<Seq<char>, Seq<char>>;

    closed spec fn view(&self) -> Map<Seq<char>, Seq<char>> {
        Map::new(
            |k: Seq<char>| exists|i: int| 0 <= i < self.cols@.len() && #[trigger] self.cols@[i].0@ == k,
            |k: Seq<char>| self.cols@[choose|i: int| 0 <= i < self.cols@.len() && #[trigger] self.cols@[i].0@ == k].1@,
        )
    }
}

impl ImportRow {
    /// No column occurs twice.
    pub closed spec fn wf(&self) -> bool {
        forall|i: int, j: int| 0 <= i < j < self.cols@.len() ==> #[trigger] self.cols@[i].0@ != #[trigger] self.cols@[j].0@
    }

    /// A row with no columns.
    pub fn new() -> (r: Self)
        ensures
            r.wf(),
            r@ == Map::<Seq<char>, Seq<char>>::empty(),
    {
        let r = ImportRow { cols: Vec::new() };
        assert(r@ =~= Map::<Seq<char>, Seq<char>>::empty());
        r
    }

    fn position(&self, key: &str) -> (r: Option<usize>)
        ensures
            match r {
                Some(i) => i < self.cols@.len() && self.cols@[i as int].0@ == key@,
                None => forall|i: int| 0 <= i < self.cols@.len() ==> #[trigger] self.cols@[i].0@ != key@,
            },
    {
        let mut i: usize = 0;
        while i < self.cols.len()
            invariant
                i <= self.cols@.len(),
                forall|j: int| 0 <= j < i ==> #[trigger] self.cols@[j].0@ != key@,
            decreases self.cols@.len() - i,
        {
            if str_eq(self.cols[i].0.as_str(), key) {
                return Some(i);
            }
            i = i + 1;
        }
        None
    }

    /// The text of column `key`.
    pub fn get(&self, key: &str) -> (r: Option<&String>)
        requires
            self.wf(),
        ensures
            match r {
                Some(v) => self@.contains_key(key@) && self@[key@] == v@,
                None => !self@.contains_key(key@),
            },
    {
        match self.position(key) {
            Some(i) => {
                proof {
                    let j = choose|j: int| 0 <= j < self.cols@.len() && #[trigger] self.cols@[j].0@ == key@;
                    assert(j == i);
                }
                Some(&self.cols[i].1)
            },
            None => None,
        }
    }

    /// Sets column `key` to `value`.
    pub fn set(&mut self, key: &str, value: String)
        requires
            old(self).wf(),
        ensures
            final(self).wf(),
            final(self)@ == old(self)@.insert(key@, value@),
    {
        let ghost before = self.cols@;
        let ghost vv = value@;
        match self.position(key) {
            Some(i) => {
                let k = self.cols[i].0.clone();
                self.cols.set(i, (k, value));
                proof {
                    assert forall|a: int, b: int| 0 <= a < b < self.cols@.len() implies #[trigger] self.cols@[a].0@ != #[trigger] self.cols@[b].0@ by {
                        assert(before[a].0@ != before[b].0@);
                    }
                    assert forall|k2: Seq<char>| #[trigger] self@.dom().contains(k2) == old(self)@.insert(key@, vv).dom().contains(k2) by {
                        if old(self)@.insert(key@, vv).dom().contains(k2) {
                            if k2 == key@ {
                                assert(self.cols@[i as int].0@ == k2);
                            } else {
                                let j = choose|j: int| 0 <= j < before.len() && #[trigger] before[j].0@ == k2;
                                assert(self.cols@[j].0@ == k2);
                            }
                        }
                        if self@.dom().contains(k2) {
                            let j = choose|j: int| 0 <= j < self.cols@.len() && #[trigger] self.cols@[j].0@ == k2;
                            assert(before[j].0@ == k2);
                        }
                    }
                    assert forall|k2: Seq<char>| #[trigger] self@.dom().contains(k2) implies self@[k2] == old(self)@.insert(key@, vv)[k2] by {
                        let j = choose|j: int| 0 <= j < self.cols@.len() && #[trigger] self.cols@[j].0@ == k2;
                        if k2 == key@ {
                            assert(j == i);
                        } else {
                            let j0 = choose|j0: int| 0 <= j0 < before.len() && #[trigger] before[j0].0@ == k2;
                            assert(before[j].0@ == k2);
                            assert(j0 == j);
                        }
                    }
                    assert(self@ =~= old(self)@.insert(key@, vv));
                }
            },
            None => {
                self.cols.push((key.to_string(), value));
                proof {
                    let n = before.len() as int;
                    assert forall|a: int, b: int| 0 <= a < b < self.cols@.len() implies #[trigger] self.cols@[a].0@ != #[trigger] self.cols@[b].0@ by {
                        if b < n {
                            assert(before[a].0@ != before[b].0@);
                        }
                    }
                    assert forall|k2: Seq<char>| #[trigger] self@.dom().contains(k2) == old(self)@.insert(key@, vv).dom().contains(k2) by {
                        if old(self)@.insert(key@, vv).dom().contains(k2) {
                            if k2 == key@ {
                                assert(self.cols@[n].0@ == k2);
                            } else {
                                let j = choose|j: int| 0 <= j < before.len() && #[trigger] before[j].0@ == k2;
                                assert(self.cols@[j].0@ == k2);
                            }
                        }
                        if self@.dom().contains(k2) {
                            let j = choose|j: int| 0 <= j < self.cols@.len() && #[trigger] self.cols@[j].0@ == k2;
                            if j < n {
                                assert(before[j].0@ == k2);
                            }
                        }
                    }
                    assert forall|k2: Seq<char>| #[trigger] self@.dom().contains(k2) implies self@[k2] == old(self)@.insert(key@, vv)[k2] by {
                        let j = choose|j: int| 0 <= j < self.cols@.len() && #[trigger] self.cols@[j].0@ == k2;
                        if k2 == key@ {
                            assert(j == n);
                        } else {
                            let j0 = choose|j0: int| 0 <= j0 < before.len() && #[trigger] before[j0].0@ == k2;
                            assert(j < n);
                            assert(before[j].0@ == k2);
                            assert(j0 == j);
                        }
                    }
                    assert(self@ =~= old(self)@.insert(key@, vv));
                }
            },
        }
    }
}

/// A media item to create, with the names of its tags and its extra
/// attributes (column name and text).
pub struct ImportRecord {
    pub media: MediaInput,
    pub tags: Vec<String>,
    pub attributes: Vec<(String, String)>,
}

/// Value of an import record.
pub struct ImportRecordView {
    pub media: MediaInputView,
    pub tags: Seq<Seq<char>>,
    pub attributes: Seq<(Seq<char>, Seq<char>)>,
}

impl View for ImportRecord {
    type V = ImportRecordView;

    open spec fn view(&self) -> ImportRecordView {
        ImportRecordView {
            media: self.media@,
            tags: self.tags@.map_values(|t: String| t@),
            attributes: self.attributes@.map_values(|a: (String, String)| (a.0@, a.1@)),
        }
    }
}

/// Whether `c` is an ASCII decimal digit.
pub open spec fn is_digit(c: char) -> bool {
    '0' <= c <= '9'
}

/// The value of a decimal digit.
pub open spec fn digit_value(c: char) -> int {
    c as int - 48
}

/// Reading the digits `ds` after the value `acc` read so far (negated
/// digits for a negative number), within `lo..=hi`: the value, or the
/// message of the first problem.
pub open spec fn parse_digits(ds: Seq<char>, neg: bool, acc: int, lo: int, hi: int) -> Result<int, Seq<char>>
    decreases ds.len(),
{
    if ds.len() == 0 {
        Ok(acc)
    } else if !is_digit(ds[0]) {
        Err("invalid digit found in string"@)
    } else {
        let next = if neg { acc * 10 - digit_value(ds[0]) } else { acc * 10 + digit_value(ds[0]) };
        if next > hi {
            Err("number too large to fit in target type"@)
        } else if next < lo {
            Err("number too small to fit in target type"@)
        } else {
            parse_digits(ds.drop_first(), neg, next, lo, hi)
        }
    }
}

/// A decimal integer within `lo..=hi` read from `s` as Rust's integer
/// parsing reads it: an optional sign, then digits.
pub open spec fn parse_int(s: Seq<char>, lo: int, hi: int) -> Result<int, Seq<char>> {
    if s.len() == 0 {
        Err("cannot parse integer from empty string"@)
    } else {
        let neg = s[0] == '-';
        let ds = if s[0] == '-' || s[0] == '+' { s.drop_first() } else { s };
        if ds.len() == 0 {
            Err("invalid digit found in string"@)
        } else {
            parse_digits(ds, neg, 0, lo, hi)
        }
    }
}

fn error_text(m: &str) -> (r: String)
    ensures
        r@ == m@,
{
    m.to_string()
}

/// Reads a decimal integer within `lo..=hi` from `s` (see `parse_int`).
pub fn parse_int_text(s: &str, lo: i64, hi: i64) -> (r: Result<i64, String>)
    requires
        lo <= 0 <= hi,
    ensures
        r matches Ok(v) ==> lo <= v <= hi,
        match r {
            Ok(v) => parse_int(s@, lo as int, hi as int) == Ok::<int, Seq<char>>(v as int),
            Err(m) => parse_int(s@, lo as int, hi as int) == Err::<int, Seq<char>>(m@),
        },
{
    let cs = chars_of(s);
    if cs.len() == 0 {
        return Err(error_text("cannot parse integer from empty string"));
    }
    let neg = cs[0] == '-';
    let start: usize = if cs[0] == '-' || cs[0] == '+' { 1 } else { 0 };
    let ghost ds = if cs@[0] == '-' || cs@[0] == '+' { cs@.drop_first() } else { cs@ };
    assert(ds =~= cs@.skip(start as int));
    if start == cs.len() {
        return Err(error_text("invalid digit found in string"));
    }
    let mut acc: i128 = 0;
    let mut i: usize = start;
    while i < cs.len()
        invariant
            cs@ == s@,
            start <= i <= cs@.len(),
            lo <= 0 <= hi,
            neg == (cs@[0] == '-'),
            parse_int(s@, lo as int, hi as int) == parse_digits(cs@.skip(start as int), neg, 0, lo as int, hi as int),
            lo <= acc <= hi,
            parse_digits(cs@.skip(start as int), neg, 0, lo as int, hi as int)
                == parse_digits(cs@.skip(i as int), neg, acc as int, lo as int, hi as int),
        decreases cs@.len() - i,
    {
        let c = cs[i];
        assert(cs@.skip(i as int)[0] == c);
        assert(cs@.skip(i as int).drop_first() =~= cs@.skip(i + 1));
        if !('0' <= c && c <= '9') {
            return Err(error_text("invalid digit found in string"));
        }
        let d = (c as u32 - 48) as i128;
        let next: i128 = if neg { acc * 10 - d } else { acc * 10 + d };
        if next > hi as i128 {
            return Err(error_text("number too large to fit in target type"));
        }
        if next < lo as i128 {
            return Err(error_text("number too small to fit in target type"));
        }
        acc = next;
        i = i + 1;
    }
    assert(cs@.skip(i as int) =~= Seq::<char>::empty());
    Ok(acc as i64)
}

/// The value of an optional numeric column within `lo..=hi`: absent or
/// empty gives `None`; text that is no such number gives the message
/// `{field} のパースに失敗 ({text}): {reason}`.
pub open spec fn opt_int_column(v: Option<Seq<char>>, field: Seq<char>, lo: int, hi: int) -> Result<Option<int>, Seq<char>> {
    match v {
        Some(s) => if s.len() == 0 {
            Ok(None)
        } else {
            match parse_int(s, lo, hi) {
                Ok(n) => Ok(Some(n)),
                Err(e) => Err(field + " のパースに失敗 ("@ + s + "): "@ + e),
            }
        },
        None => Ok(None),
    }
}

/// Reads an optional numeric column (see `opt_int_column`).
pub fn parse_opt_int(v: Option<&String>, field: &str, lo: i64, hi: i64) -> (r: Result<Option<i64>, String>)
    requires
        lo <= 0 <= hi,
    ensures
        r matches Ok(Some(x)) ==> lo <= x <= hi,
        match r {
            Ok(n) => opt_int_column(match v { Some(s) => Some(s@), None => None }, field@, lo as int, hi as int)
                == Ok::<Option<int>, Seq<char>>(match n { Some(x) => Some(x as int), None => None }),
            Err(m) => opt_int_column(match v { Some(s) => Some(s@), None => None }, field@, lo as int, hi as int)
                == Err::<Option<int>, Seq<char>>(m@),
        },
{
    match v {
        Some(s) => {
            if s.as_str().is_empty() {
                return Ok(None);
            }
            match parse_int_text(s.as_str(), lo, hi) {
                Ok(n) => Ok(Some(n)),
                Err(e) => {
                    let mut m = String::new();
                    push_str(&mut m, field);
                    push_str(&mut m, " のパースに失敗 (");
                    push_str(&mut m, s.as_str());
                    push_str(&mut m, "): ");
                    push_str(&mut m, e.as_str());
                    assert(m@ =~= field@ + " のパースに失敗 ("@ + s@ + "): "@ + e@);
                    Err(m)
                },
            }
        },
        None => Ok(None),
    }
}

/// The text in upper case, as Unicode defines it.
pub uninterp spec fn uppercase_of(s: Seq<char>) -> Seq<char>;

/// `s` in upper case.
///
/// Calls `str::to_uppercase` of std; the contract names the result.
#[verifier::external_body]
fn uppercase(s: &str) -> (r: String)
    ensures
        r@ == uppercase_of(s@),
{
    s.to_uppercase()
}

/// The pieces of `s` between the occurrences of `c` (one empty piece for
/// empty text), as `str::split` gives them.
pub open spec fn split_char(s: Seq<char>, c: char) -> Seq<Seq<char>>
    decreases s.len(),
{
    if s.len() == 0 {
        seq![Seq::empty()]
    } else {
        let rest = split_char(s.drop_last(), c);
        if s.last() == c {
            rest.push(Seq::empty())
        } else {
            rest.update(rest.len() - 1, rest.last().push(s.last()))
        }
    }
}

pub(crate) proof fn lemma_split_char_nonempty(s: Seq<char>, c: char)
    ensures
        split_char(s, c).len() >= 1,
    decreases s.len(),
{
    if s.len() > 0 {
        lemma_split_char_nonempty(s.drop_last(), c);
    }
}

/// A piece trimmed of white space, kept when something is left.
pub open spec fn kept_piece(p: Seq<char>) -> Seq<Seq<char>> {
    if trimmed(p).len() == 0 { Seq::empty() } else { seq![trimmed(p)] }
}

/// The pieces trimmed of white space, the empty ones left out.
pub open spec fn kept_pieces(ps: Seq<Seq<char>>) -> Seq<Seq<char>>
    decreases ps.len(),
{
    if ps.len() == 0 { Seq::empty() } else { kept_pieces(ps.drop_last()) + kept_piece(ps.last()) }
}

/// The tag names of a `tags` column: the comma-separated names, trimmed,
/// the empty ones left out.
pub open spec fn tag_list(s: Seq<char>) -> Seq<Seq<char>> {
    kept_pieces(split_char(s, ','))
}

fn keep_piece(out: &mut Vec<String>, piece: &String)
    ensures
        final(out)@.map_values(|t: String| t@) == old(out)@.map_values(|t: String| t@) + kept_piece(piece@),
{
    let t = trim_chars(piece.as_str());
    if t.len() > 0 {
        let ghost before = out@;
        out.push(string_of(&t, 0, t.len()));
        assert(t@.subrange(0, t@.len() as int) =~= t@);
        assert(out@.map_values(|x: String| x@) =~= before.map_values(|x: String| x@) + kept_piece(piece@));
    } else {
        assert(out@.map_values(|x: String| x@) =~= old(out)@.map_values(|x: String| x@) + kept_piece(piece@));
    }
}

/// The tag names of a `tags` column (see `tag_list`).
pub fn split_tags(s: &str) -> (r: Vec<String>)
    ensures
        r@.map_values(|t: String| t@) == tag_list(s@),
{
    let cs = chars_of(s);
    let mut out: Vec<String> = Vec::new();
    let mut cur = String::new();
    let mut i: usize = 0;
    assert(cs@.take(0) =~= Seq::<char>::empty());
    while i < cs.len()
        invariant
            cs@ == s@,
            i <= cs@.len(),
            split_char(cs@.take(i as int), ',').len() >= 1,
            out@.map_values(|t: String| t@) == kept_pieces(split_char(cs@.take(i as int), ',').drop_last()),
            cur@ == split_char(cs@.take(i as int), ',').last(),
        decreases cs@.len() - i,
    {
        let c = cs[i];
        let ghost p = split_char(cs@.take(i as int), ',');
        proof {
            let t1 = cs@.take(i + 1);
            assert(t1.drop_last() =~= cs@.take(i as int));
            assert(t1.last() == c);
        }
        if c == ',' {
            keep_piece(&mut out, &cur);
            cur = String::new();
            proof {
                let np = split_char(cs@.take(i + 1), ',');
                assert(np == p.push(Seq::empty()));
                assert(np.drop_last() =~= p);
                assert(p =~= p.drop_last().push(p.last()));
                assert(kept_pieces(p) == kept_pieces(p.drop_last()) + kept_piece(p.last()));
                assert(cur@ =~= np.last());
            }
        } else {
            push_char(&mut cur, c);
            proof {
                let np = split_char(cs@.take(i + 1), ',');
                assert(np == p.update(p.len() - 1, p.last().push(c)));
                assert(np.drop_last() =~= p.drop_last());
                assert(cur@ =~= np.last());
            }
        }
        proof {
            lemma_split_char_nonempty(cs@.take(i + 1), ',');
        }
        i = i + 1;
    }
    proof {
        assert(cs@.take(cs@.len() as int) =~= cs@);
    }
    let ghost p = split_char(cs@, ',');
    keep_piece(&mut out, &cur);
    proof {
        assert(p =~= p.drop_last().push(p.last()));
        assert(kept_pieces(p) == kept_pieces(p.drop_last()) + kept_piece(p.last()));
    }
    out
}

/// The extra attributes of a row: for each listed column that the row
/// has, in the listed order, the column name and its text.
pub open spec fn listed_attributes(row: Map<Seq<char>, Seq<char>>, cols: Seq<Seq<char>>) -> Seq<(Seq<char>, Seq<char>)>
    decreases cols.len(),
{
    if cols.len() == 0 {
        Seq::empty()
    } else {
        let rest = listed_attributes(row, cols.drop_last());
        if row.contains_key(cols.last()) { rest.push((cols.last(), row[cols.last()])) } else { rest }
    }
}

/// The text of a column, when the row has it.
pub open spec fn column(row: Map<Seq<char>, Seq<char>>, k: Seq<char>) -> Option<Seq<char>> {
    if row.contains_key(k) { Some(row[k]) } else { None }
}

/// A required column: present and not empty.
pub open spec fn required(row: Map<Seq<char>, Seq<char>>, k: Seq<char>) -> Option<Seq<char>> {
    match column(row, k) {
        Some(v) => if v.len() > 0 { Some(v) } else { None },
        None => None,
    }
}

/// The media type named by a text.
pub open spec fn media_type_named(s: Seq<char>) -> Option<MediaType> {
    if s == "comic"@ {
        Some(MediaType::Comic)
    } else if s == "video"@ {
        Some(MediaType::Video)
    } else if s == "music"@ {
        Some(MediaType::Music)
    } else {
        None
    }
}

/// The media item of a row whose required columns and numbers are valid.
pub open spec fn media_of_row(row: Map<Seq<char>, Seq<char>>, t: MediaType, file_size: Option<int>, duration: Option<int>,
    pages: Option<int>) -> MediaInputView
{
    MediaInputView {
        title: row["title"@],
        media_type: t,
        uuid: column(row, "uuid"@),
        title_id: column(row, "title_id"@),
        path: column(row, "path"@),
        thumbnail_path: column(row, "thumbnail_path"@),
        artist: column(row, "artist"@),
        artist_id: column(row, "artist_id"@),
        description: column(row, "description"@),
        file_size: match file_size { Some(n) => Some(n as i64), None => None },
        duration_sec: match duration { Some(n) => Some(n as i32), None => None },
        page_count: match pages { Some(n) => Some(n as i32), None => None },
        series: column(row, "series"@),
        volume_number: None,
        volume_text: column(row, "volume_text"@),
        volume_title: column(row, "volume_title"@),
        magazine: column(row, "magazine"@),
        magazine_id: column(row, "magazine_id"@),
        language: column(row, "language"@),
        source: column(row, "source"@),
        external_id: column(row, "external_id"@),
        artist_en: column(row, "artist_en"@),
        title_en: column(row, "title_en"@),
        chapters: column(row, "chapters"@),
        extension: column(row, "extension"@),
        flag_exist: match column(row, "flag_exist"@) { Some(f) => Some(uppercase_of(f) == "TRUE"@), None => None },
        title_pron: column(row, "title_pron"@),
        artist_pron: column(row, "artist_pron"@),
        series_pron: column(row, "series_pron"@),
    }
}

/// What a row gives: the record, or the message of the first problem
/// (missing title, missing or unknown media type, a bad number in
/// `file_size`, `duration_sec` or `page_count`, in that order).
pub open spec fn import_outcome(row: Map<Seq<char>, Seq<char>>, cols: Seq<Seq<char>>) -> Result<ImportRecordView, Seq<char>> {
    if required(row, "title"@) is None {
        Err("title は必須です"@)
    } else if required(row, "media_type"@) is None {
        Err("media_type は必須です"@)
    } else {
        let ts = row["media_type"@];
        match media_type_named(ts) {
            None => Err("不正な media_type です: "@ + ts + "（comic/video/music のいずれか）"@),
            Some(t) => match opt_int_column(column(row, "file_size"@), "file_size"@, i64::MIN as int, i64::MAX as int) {
                Err(e) => Err(e),
                Ok(fs) => match opt_int_column(column(row, "duration_sec"@), "duration_sec"@, i32::MIN as int, i32::MAX as int) {
                    Err(e) => Err(e),
                    Ok(du) => match opt_int_column(column(row, "page_count"@), "page_count"@, i32::MIN as int, i32::MAX as int) {
                        Err(e) => Err(e),
                        Ok(pc) => Ok(ImportRecordView {
                            media: media_of_row(row, t, fs, du, pc),
                            tags: match column(row, "tags"@) { Some(s) => tag_list(s), None => Seq::empty() },
                            attributes: listed_attributes(row, cols),
                        }),
                    },
                },
            },
        }
    }
}

fn opt_column(row: &ImportRow, key: &str) -> (r: Option<String>)
    requires
        row.wf(),
    ensures
        match r { Some(s) => Some(s@), None => None } == column(row@, key@),
{
    match row.get(key) {
        Some(v) => Some(v.clone()),
        None => None,
    }
}

fn opt_i32(v: Option<i64>) -> (r: Option<i32>)
    requires
        match v { Some(x) => i32::MIN <= x <= i32::MAX, None => true },
    ensures
        r == (match v { Some(x) => Some(x as i32), None => None }),
{
    match v {
        Some(x) => Some(x as i32),
        None => None,
    }
}

fn flag_of(row: &ImportRow) -> (r: Option<bool>)
    requires
        row.wf(),
    ensures
        r == (match column(row@, "flag_exist"@) { Some(f) => Some(uppercase_of(f) == "TRUE"@), None => None }),
{
    match row.get("flag_exist") {
        Some(f) => {
            let u = uppercase(f.as_str());
            Some(str_eq(u.as_str(), "TRUE"))
        },
        None => None,
    }
}

fn media_input_of(row: &ImportRow, title: String, t: MediaType, file_size: Option<i64>, duration: Option<i64>,
    pages: Option<i64>) -> (r: MediaInput)
    requires
        row.wf(),
        row@.contains_key("title"@),
        title@ == row@["title"@],
        match duration { Some(x) => i32::MIN <= x <= i32::MAX, None => true },
        match pages { Some(x) => i32::MIN <= x <= i32::MAX, None => true },
    ensures
        r@ == media_of_row(row@, t,
            match file_size { Some(x) => Some(x as int), None => None },
            match duration { Some(x) => Some(x as int), None => None },
            match pages { Some(x) => Some(x as int), None => None }),
{
    let m = MediaInput {
        title,
        media_type: t,
        uuid: opt_column(row, "uuid"),
        title_id: opt_column(row, "title_id"),
        path: opt_column(row, "path"),
        thumbnail_path: opt_column(row, "thumbnail_path"),
        artist: opt_column(row, "artist"),
        artist_id: opt_column(row, "artist_id"),
        description: opt_column(row, "description"),
        file_size,
        duration_sec: opt_i32(duration),
        page_count: opt_i32(pages),
        series: opt_column(row, "series"),
        volume_number: None,
        volume_text: opt_column(row, "volume_text"),
        volume_title: opt_column(row, "volume_title"),
        magazine: opt_column(row, "magazine"),
        magazine_id: opt_column(row, "magazine_id"),
        language: opt_column(row, "language"),
        source: opt_column(row, "source"),
        external_id: opt_column(row, "external_id"),
        artist_en: opt_column(row, "artist_en"),
        title_en: opt_column(row, "title_en"),
        chapters: opt_column(row, "chapters"),
        extension: opt_column(row, "extension"),
        flag_exist: flag_of(row),
        title_pron: opt_column(row, "title_pron"),
        artist_pron: opt_column(row, "artist_pron"),
        series_pron: opt_column(row, "series_pron"),
    };
    m
}

fn listed_attrs(row: &ImportRow, cols: &Vec<String>) -> (r: Vec<(String, String)>)
    requires
        row.wf(),
    ensures
        r@.map_values(|a: (String, String)| (a.0@, a.1@)) == listed_attributes(row@, cols@.map_values(|c: String| c@)),
{
    let mut attributes: Vec<(String, String)> = Vec::new();
    let ghost cv = cols@.map_values(|c: String| c@);
    let mut i: usize = 0;
    while i < cols.len()
        invariant
            row.wf(),
            cv == cols@.map_values(|c: String| c@),
            i <= cols@.len(),
            attributes@.map_values(|a: (String, String)| (a.0@, a.1@)) == listed_attributes(row@, cv.take(i as int)),
        decreases cols@.len() - i,
    {
        let c = &cols[i];
        match row.get(c.as_str()) {
            Some(v) => {
                attributes.push((c.clone(), v.clone()));
            },
            None => {},
        }
        proof {
            let t1 = cv.take(i + 1);
            assert(t1.drop_last() =~= cv.take(i as int));
            assert(t1.last() == c@);
            assert(attributes@.map_values(|a: (String, String)| (a.0@, a.1@)) =~= listed_attributes(row@, t1));
        }
        i = i + 1;
    }
    assert(cv.take(cv.len() as int) =~= cv);
    attributes
}

/// Builds the import record of a row; the columns listed in
/// `additional_cols` become attributes.
pub fn build_import_record(row: &ImportRow, additional_cols: &Vec<String>) -> (r: Result<ImportRecord, String>)
    requires
        row.wf(),
    ensures
        match r {
            Ok(rec) => import_outcome(row@, additional_cols@.map_values(|c: String| c@)) == Ok::<ImportRecordView, Seq<char>>(rec@),
            Err(m) => import_outcome(row@, additional_cols@.map_values(|c: String| c@)) == Err::<ImportRecordView, Seq<char>>(m@),
        },
{
    let title = match row.get("title") {
        Some(t) => {
            if t.as_str().is_empty() {
                return Err(error_text("title は必須です"));
            }
            t.clone()
        },
        None => return Err(error_text("title は必須です")),
    };
    let type_text = match row.get("media_type") {
        Some(t) => {
            if t.as_str().is_empty() {
                return Err(error_text("media_type は必須です"));
            }
            t.clone()
        },
        None => return Err(error_text("media_type は必須です")),
    };
    proof {
        reveal_strlit("comic");
        reveal_strlit("video");
        reveal_strlit("music");
    }
    let media_type = match MediaType::from_str(type_text.as_str()) {
        Some(t) => t,
        None => {
            let mut m = String::new();
            push_str(&mut m, "不正な media_type です: ");
            push_str(&mut m, type_text.as_str());
            push_str(&mut m, "（comic/video/music のいずれか）");
            assert(m@ =~= "不正な media_type です: "@ + type_text@ + "（comic/video/music のいずれか）"@);
            return Err(m);
        },
    };
    let file_size = match parse_opt_int(row.get("file_size"), "file_size", i64::MIN, i64::MAX) {
        Ok(v) => v,
        Err(e) => return Err(e),
    };
    let duration = match parse_opt_int(row.get("duration_sec"), "duration_sec", i32::MIN as i64, i32::MAX as i64) {
        Ok(v) => v,
        Err(e) => return Err(e),
    };
    let pages = match parse_opt_int(row.get("page_count"), "page_count", i32::MIN as i64, i32::MAX as i64) {
        Ok(v) => v,
        Err(e) => return Err(e),
    };
    proof {
        if duration is Some {
            assert(parse_int(row@["duration_sec"@], i32::MIN as int, i32::MAX as int) == Ok::<int, Seq<char>>(duration->0 as int));
        }
    }
    let media = media_input_of(row, title, media_type, file_size, duration, pages);
    let tags = match row.get("tags") {
        Some(s) => split_tags(s.as_str()),
        None => Vec::new(),
    };
    assert(tags@.map_values(|t: String| t@) =~= (match column(row@, "tags"@) { Some(s) => tag_list(s), None => Seq::empty() }));
    let attributes = listed_attrs(row, additional_cols);
    let rec = ImportRecord { media, tags, attributes };
    assert(rec@ == ImportRecordView {
        media: media_of_row(row@, media_type,
            match file_size { Some(x) => Some(x as int), None => None },
            match duration { Some(x) => Some(x as int), None => None },
            match pages { Some(x) => Some(x as int), None => None }),
        tags: match column(row@, "tags"@) { Some(s) => tag_list(s), None => Seq::empty() },
        attributes: listed_attributes(row@, additional_cols@.map_values(|c: String| c@)),
    });
    Ok(rec)
}

/// What an import does to the database for one tag or attribute of a
/// record, once the record's media item exists as `media_id`.
pub enum ImportStep {
    /// Link the tag named `name` (created if no tag has that name).
    LinkTag { media_id: i64, name: String },
    /// Set the string attribute `key` to `value`.
    SetAttribute { media_id: i64, key: String, value: String },
}

/// Value of an import step.
pub enum ImportStepView {
    LinkTag { media_id: i64, name: Seq<char> },
    SetAttribute { media_id: i64, key: Seq<char>, value: Seq<char> },
}

impl View for ImportStep {
    type V = ImportStepView;

    open spec fn view(&self) -> ImportStepView {
        match self {
            ImportStep::LinkTag { media_id, name } => ImportStepView::LinkTag { media_id: *media_id, name: name@ },
            ImportStep::SetAttribute { media_id, key, value } =>
                ImportStepView::SetAttribute { media_id: *media_id, key: key@, value: value@ },
        }
    }
}

/// The views of a sequence of steps.
pub open spec fn step_views(s: Seq<ImportStep>) -> Seq<ImportStepView> {
    s.map_values(|st: ImportStep| st@)
}

/// Counts of an import: media items created, tags linked, attributes set.
pub struct ImportStats {
    pub imported: usize,
    pub tags: usize,
    pub attributes: usize,
}

/// The tag links of one record: one per tag name, empty names skipped.
pub open spec fn tag_steps(id: i64, tags: Seq<Seq<char>>) -> Seq<ImportStepView>
    decreases tags.len(),
{
    if tags.len() == 0 {
        Seq::empty()
    } else if tags.last().len() == 0 {
        tag_steps(id, tags.drop_last())
    } else {
        tag_steps(id, tags.drop_last()).push(ImportStepView::LinkTag { media_id: id, name: tags.last() })
    }
}

/// The attribute settings of one record, one per attribute, in order.
pub open spec fn attr_steps(id: i64, attrs: Seq<(Seq<char>, Seq<char>)>) -> Seq<ImportStepView> {
    Seq::new(attrs.len(), |i: int| ImportStepView::SetAttribute { media_id: id, key: attrs[i].0, value: attrs[i].1 })
}

/// The steps of the first `n` records, each paired with the media item
/// created for it: its tags first, then its attributes.
pub open spec fn import_steps_upto(ids: Seq<i64>, recs: Seq<ImportRecordView>, n: nat) -> Seq<ImportStepView>
    decreases n,
{
    if n == 0 {
        Seq::empty()
    } else {
        let k = (n - 1) as nat;
        import_steps_upto(ids, recs, k) + tag_steps(ids[k as int], recs[k as int].tags)
            + attr_steps(ids[k as int], recs[k as int].attributes)
    }
}

/// How many tags the first `n` records link.
pub open spec fn tags_upto(ids: Seq<i64>, recs: Seq<ImportRecordView>, n: nat) -> nat
    decreases n,
{
    if n == 0 {
        0
    } else {
        let k = (n - 1) as nat;
        tags_upto(ids, recs, k) + tag_steps(ids[k as int], recs[k as int].tags).len()
    }
}

/// How many attributes the first `n` records set.
pub open spec fn attrs_upto(recs: Seq<ImportRecordView>, n: nat) -> nat
    decreases n,
{
    if n == 0 {
        0
    } else {
        let k = (n - 1) as nat;
        attrs_upto(recs, k) + recs[k as int].attributes.len()
    }
}

/// The number of records that get a media item: created items and records
/// are paired in order, as far as both go.
pub open spec fn paired(ids: Seq<i64>, recs: Seq<ImportRecordView>) -> nat {
    if ids.len() <= recs.len() { ids.len() } else { recs.len() }
}

/// The views of a sequence of records.
pub open spec fn record_views(s: Seq<ImportRecord>) -> Seq<ImportRecordView> {
    s.map_values(|r: ImportRecord| r@)
}

fn push_tag_steps(out: &mut Vec<ImportStep>, id: i64, tags: &Vec<String>) -> (n: usize)
    ensures
        step_views(final(out)@) == step_views(old(out)@) + tag_steps(id, tags@.map_values(|t: String| t@)),
        n == tag_steps(id, tags@.map_values(|t: String| t@)).len(),
{
    let ghost start = out@;
    let ghost tv = tags@.map_values(|t: String| t@);
    let start_len = out.len();
    let mut n: usize = 0;
    let mut i: usize = 0;
    proof {
        assert(tv.take(0) =~= Seq::<Seq<char>>::empty());
        assert(step_views(out@) =~= step_views(start) + tag_steps(id, tv.take(0)));
    }
    while i < tags.len()
        invariant
            i <= tags@.len(),
            tv == tags@.map_values(|t: String| t@),
            step_views(out@) == step_views(start) + tag_steps(id, tv.take(i as int)),
            n == tag_steps(id, tv.take(i as int)).len(),
            out@.len() == start.len() + n,
            start_len == start.len(),
        decreases tags@.len() - i,
    {
        let ghost before = out@;
        proof {
            assert(tv.take(i + 1).drop_last() =~= tv.take(i as int));
            assert(tv.take(i + 1).last() == tags@[i as int]@);
        }
        if !tags[i].as_str().is_empty() {
            out.push(ImportStep::LinkTag { media_id: id, name: tags[i].clone() });
            n = out.len() - start_len;
            proof {
                assert(step_views(out@) =~= step_views(before).push(out@.last()@));
            }
        }
        i = i + 1;
    }
    proof {
        assert(tv.take(tags@.len() as int) =~= tv);
    }
    n
}

fn push_attr_steps(out: &mut Vec<ImportStep>, id: i64, attrs: &Vec<(String, String)>)
    ensures
        step_views(final(out)@) == step_views(old(out)@)
            + attr_steps(id, attrs@.map_values(|a: (String, String)| (a.0@, a.1@))),
{
    let ghost start = out@;
    let ghost av = attrs@.map_values(|a: (String, String)| (a.0@, a.1@));
    let mut i: usize = 0;
    while i < attrs.len()
        invariant
            i <= attrs@.len(),
            av == attrs@.map_values(|a: (String, String)| (a.0@, a.1@)),
            step_views(out@) =~= step_views(start) + attr_steps(id, av.take(i as int)),
        decreases attrs@.len() - i,
    {
        let ghost before = out@;
        out.push(ImportStep::SetAttribute { media_id: id, key: attrs[i].0.clone(), value: attrs[i].1.clone() });
        proof {
            assert(step_views(out@) =~= step_views(before).push(out@.last()@));
            assert(attr_steps(id, av.take(i + 1)) =~= attr_steps(id, av.take(i as int)).push(
                ImportStepView::SetAttribute { media_id: id, key: av[i as int].0, value: av[i as int].1 }));
        }
        i = i + 1;
    }
    proof {
        assert(av.take(attrs@.len() as int) =~= av);
    }
}

/// The steps of an import whose media items were created as `created_ids`
/// (in the order of `records`), with its counts. Items and records are
/// paired in order as far as both go; each record's non-empty tag names are
/// linked, then each of its attributes is set.
pub fn import_plan(created_ids: &Vec<i64>, records: &Vec<ImportRecord>) -> (r: (Vec<ImportStep>, ImportStats))
    ensures
        step_views(r.0@) == import_steps_upto(created_ids@, record_views(records@), paired(created_ids@, record_views(records@))),
        r.1.imported == created_ids@.len(),
        r.1.tags == tags_upto(created_ids@, record_views(records@), paired(created_ids@, record_views(records@))),
        r.1.attributes == attrs_upto(record_views(records@), paired(created_ids@, record_views(records@))),
{
    let ghost rv = record_views(records@);
    let n: usize = if created_ids.len() <= records.len() { created_ids.len() } else { records.len() };
    let mut out: Vec<ImportStep> = Vec::new();
    let mut tags: usize = 0;
    let mut attrs: usize = 0;
    let mut k: usize = 0;
    proof {
        assert(step_views(out@) =~= Seq::<ImportStepView>::empty());
    }
    while k < n
        invariant
            k <= n,
            n == paired(created_ids@, rv),
            n <= created_ids@.len(),
            n <= records@.len(),
            rv == record_views(records@),
            step_views(out@) == import_steps_upto(created_ids@, rv, k as nat),
            tags == tags_upto(created_ids@, rv, k as nat),
            attrs == attrs_upto(rv, k as nat),
            tags + attrs == out@.len(),
        decreases n - k,
    {
        let id = created_ids[k];
        let rec = &records[k];
        let ghost before = out@;
        let t = push_tag_steps(&mut out, id, &rec.tags);
        let ghost mid = out@;
        push_attr_steps(&mut out, id, &rec.attributes);
        proof {
            assert(rv[k as int] == records@[k as int]@);
            assert(out@.len() == step_views(out@).len());
            assert(mid.len() == step_views(mid).len());
            assert(before.len() == step_views(before).len());
        }
        let total = out.len();
        assert(total == tags + t + attrs + rec.attributes@.len());
        tags = tags + t;
        attrs = attrs + rec.attributes.len();
        proof {
            assert(import_steps_upto(created_ids@, rv, (k + 1) as nat) =~= import_steps_upto(created_ids@, rv, k as nat)
                + tag_steps(id, rv[k as int].tags) + attr_steps(id, rv[k as int].attributes));
        }
        k = k + 1;
    }
    (out, ImportStats { imported: created_ids.len(), tags, attributes: attrs })
}

} // verus!
