//! Rows of query results by column name, as both database backends hand
//! them over, and reading typed values out of them.
use vstd::prelude::*;
use vstd::string::StringSliceAdditionalSpecFns;
use crate::crud::{SqlParam, SqlValue};
use crate::error::{KijukuError, joined};
use crate::import::{parse_int, parse_int_text};
use crate::text::{push_str, push_char, push_i64, push_u64, dec_int, dec_nat, i64_to_string};
use crate::transfer::{str_debug, debug_str};
use crate::records::chars_of;
use crate::types::{str_eq, clone_bytes, opt_str_view};

verus! {

broadcast use vstd::std_specs::vec::group_vec_axioms;

/// A row: column names and their values. Setting a column again replaces
/// its value.
pub struct SqlRow {
    cols: Vec<(String, SqlParam)>,
}

impl View for SqlRow {
    type V = Map<Seq<char>, SqlValue>;

    closed spec fn view(&self) -> Map<Seq<char>, SqlValue> {
        Map::new(
            |k: Seq<char>| exists|i: int| 0 <= i < self.cols@.len() && #[trigger] self.cols@[i].0@ == k,
            |k: Seq<char>| self.cols@[choose|i: int| 0 <= i < self.cols@.len() && #[trigger] self.cols@[i].0@ == k].1@,
        )
    }
}

impl SqlRow {
    /// No column occurs twice.
    pub closed spec fn wf(&self) -> bool {
        forall|i: int, j: int| 0 <= i < j < self.cols@.len() ==> #[trigger] self.cols@[i].0@ != #[trigger] self.cols@[j].0@
    }

    /// A row with no columns.
    pub fn new() -> (r: Self)
        ensures
            r.wf(),
            r@ == Map::<Seq<char>, SqlValue>::empty(),
    {
        let r = SqlRow { cols: Vec::new() };
        assert(r@ =~= Map::<Seq<char>, SqlValue>::empty());
        r
    }

    fn position(&self, key: &str) -> (r: Option<usize>)
        ensures
            match r {
                Some(i) => i < self.cols@.len() && self.cols@[i as int].0@ == key@,
                None => forall|i: int| 0 <= i < self.cols@.len() ==> #[trigger] self.cols@[i].0@ != key@,
            },
    {
        let mut i: usize = 0;
        while i < self.cols.len()
            invariant
                i <= self.cols@.len(),
                forall|j: int| 0 <= j < i ==> #[trigger] self.cols@[j].0@ != key@,
            decreases self.cols@.len() - i,
        {
            if str_eq(self.cols[i].0.as_str(), key) {
                return Some(i);
            }
            i = i + 1;
        }
        None
    }

    /// The value of column `col`.
    pub fn get(&self, col: &str) -> (r: Option<&SqlParam>)
        requires
            self.wf(),
        ensures
            match r {
                Some(v) => self@.contains_key(col@) && self@[col@] == v@,
                None => !self@.contains_key(col@),
            },
    {
        match self.position(col) {
            Some(i) => {
                proof {
                    let j = choose|j: int| 0 <= j < self.cols@.len() && #[trigger] self.cols@[j].0@ == col@;
                    assert(j == i);
                }
                Some(&self.cols[i].1)
            },
            None => None,
        }
    }

    /// Sets column `col` to `val`.
    pub fn set(&mut self, col: &str, val: SqlParam)
        requires
            old(self).wf(),
        ensures
            final(self).wf(),
            final(self)@ == old(self)@.insert(col@, val@),
    {
        let ghost before = self.cols@;
        let ghost vv = val@;
        match self.position(col) {
            Some(i) => {
                let k = self.cols[i].0.clone();
                self.cols.set(i, (k, val));
                proof {
                    assert forall|a: int, b: int| 0 <= a < b < self.cols@.len() implies #[trigger] self.cols@[a].0@ != #[trigger] self.cols@[b].0@ by {
                        assert(before[a].0@ != before[b].0@);
                    }
                    assert forall|k2: Seq<char>| #[trigger] self@.dom().contains(k2) == old(self)@.insert(col@, vv).dom().contains(k2) by {
                        if old(self)@.insert(col@, vv).dom().contains(k2) {
                            if k2 == col@ {
                                assert(self.cols@[i as int].0@ == k2);
                            } else {
                                let j = choose|j: int| 0 <= j < before.len() && #[trigger] before[j].0@ == k2;
                                assert(self.cols@[j].0@ == k2);
                            }
                        }
                        if self@.dom().contains(k2) {
                            let j = choose|j: int| 0 <= j < self.cols@.len() && #[trigger] self.cols@[j].0@ == k2;
                            assert(before[j].0@ == k2);
                        }
                    }
                    assert forall|k2: Seq<char>| #[trigger] self@.dom().contains(k2) implies self@[k2] == old(self)@.insert(col@, vv)[k2] by {
                        let j = choose|j: int| 0 <= j < self.cols@.len() && #[trigger] self.cols@[j].0@ == k2;
                        if k2 == col@ {
                            assert(j == i);
                        } else {
                            let j0 = choose|j0: int| 0 <= j0 < before.len() && #[trigger] before[j0].0@ == k2;
                            assert(before[j].0@ == k2);
                            assert(j0 == j);
                        }
                    }
                    assert(self@ =~= old(self)@.insert(col@, vv));
                }
            },
            None => {
                self.cols.push((col.to_string(), val));
                proof {
                    let n = before.len() as int;
                    assert forall|a: int, b: int| 0 <= a < b < self.cols@.len() implies #[trigger] self.cols@[a].0@ != #[trigger] self.cols@[b].0@ by {
                        if b < n {
                            assert(before[a].0@ != before[b].0@);
                        }
                    }
                    assert forall|k2: Seq<char>| #[trigger] self@.dom().contains(k2) == old(self)@.insert(col@, vv).dom().contains(k2) by {
                        if old(self)@.insert(col@, vv).dom().contains(k2) {
                            if k2 == col@ {
                                assert(self.cols@[n].0@ == k2);
                            } else {
                                let j = choose|j: int| 0 <= j < before.len() && #[trigger] before[j].0@ == k2;
                                assert(self.cols@[j].0@ == k2);
                            }
                        }
                        if self@.dom().contains(k2) {
                            let j = choose|j: int| 0 <= j < self.cols@.len() && #[trigger] self.cols@[j].0@ == k2;
                            if j < n {
                                assert(before[j].0@ == k2);
                            }
                        }
                    }
                    assert forall|k2: Seq<char>| #[trigger] self@.dom().contains(k2) implies self@[k2] == old(self)@.insert(col@, vv)[k2] by {
                        let j = choose|j: int| 0 <= j < self.cols@.len() && #[trigger] self.cols@[j].0@ == k2;
                        if k2 == col@ {
                            assert(j == n);
                        } else {
                            let j0 = choose|j0: int| 0 <= j0 < before.len() && #[trigger] before[j0].0@ == k2;
                            assert(j < n);
                            assert(before[j].0@ == k2);
                            assert(j0 == j);
                        }
                    }
                    assert(self@ =~= old(self)@.insert(col@, vv));
                }
            },
        }
    }
}

/// Rust's debug rendering of a value (`Null`, `Int(5)`, `Text("a")`,
/// `Blob([1, 2])`).
pub open spec fn param_debug(v: SqlValue) -> Seq<char> {
    match v {
        SqlValue::Null => "Null"@,
        SqlValue::Int(i) => "Int("@ + dec_int(i as int) + ")"@,
        SqlValue::Text(s) => "Text("@ + str_debug(s) + ")"@,
        SqlValue::Blob(b) => "Blob(["@ + joined(b.map_values(|x: u8| dec_nat(x as nat)), ", "@) + "])"@,
    }
}

fn push_param_debug(out: &mut String, p: &SqlParam)
    ensures
        final(out)@ == old(out)@ + param_debug(p@),
{
    match p {
        SqlParam::Null => push_str(out, "Null"),
        SqlParam::Int(i) => {
            push_str(out, "Int(");
            push_i64(out, *i);
            push_str(out, ")");
            assert(out@ =~= old(out)@ + param_debug(p@));
        },
        SqlParam::Text(s) => {
            push_str(out, "Text(");
            let d = debug_str(s.as_str());
            push_str(out, d.as_str());
            push_str(out, ")");
            assert(out@ =~= old(out)@ + param_debug(p@));
        },
        SqlParam::Blob(b) => {
            push_str(out, "Blob([");
            let ghost head = out@;
            let ghost parts = b@.map_values(|x: u8| dec_nat(x as nat));
            let mut k: usize = 0;
            while k < b.len()
                invariant
                    parts == b@.map_values(|x: u8| dec_nat(x as nat)),
                    k <= b@.len(),
                    out@ == head + joined(parts.take(k as int), ", "@),
                decreases b@.len() - k,
            {
                if k > 0 {
                    push_str(out, ", ");
                }
                push_u64(out, b[k] as u64);
                proof {
                    let t = parts.take(k + 1);
                    assert(t.drop_last() =~= parts.take(k as int));
                    assert(t.last() == dec_nat(b@[k as int] as nat));
                    if k == 0 {
                        assert(parts.take(0) =~= Seq::<Seq<char>>::empty());
                    }
                    assert(out@ =~= head + joined(t, ", "@));
                }
                k = k + 1;
            }
            assert(parts.take(parts.len() as int) =~= parts);
            push_str(out, "])");
            assert(out@ =~= old(out)@ + param_debug(p@));
        },
    }
}

/// A parse error with message `m`.
pub open spec fn parse_text(e: KijukuError) -> Option<Seq<char>> {
    match e {
        KijukuError::Parse(m) => Some(m@),
        _ => None,
    }
}

fn unexpected(what: &str, col: &str, p: &SqlParam) -> (e: KijukuError)
    ensures
        parse_text(e) == Some("expected "@ + what@ + " for "@ + col@ + ", got "@ + param_debug(p@)),
{
    let mut m = String::new();
    push_str(&mut m, "expected ");
    push_str(&mut m, what);
    push_str(&mut m, " for ");
    push_str(&mut m, col);
    push_str(&mut m, ", got ");
    push_param_debug(&mut m, p);
    assert(m@ =~= "expected "@ + what@ + " for "@ + col@ + ", got "@ + param_debug(p@));
    KijukuError::Parse(m)
}

fn bad_int_text(col: &str, s: &str) -> (e: KijukuError)
    ensures
        parse_text(e) == Some("expected int for "@ + col@ + ", got '"@ + s@ + "'"@),
{
    let mut m = String::new();
    push_str(&mut m, "expected int for ");
    push_str(&mut m, col);
    push_str(&mut m, ", got '");
    push_str(&mut m, s);
    push_str(&mut m, "'");
    assert(m@ =~= "expected int for "@ + col@ + ", got '"@ + s@ + "'"@);
    KijukuError::Parse(m)
}

/// The integer that a value stands for: an integer, or text read as a
/// 64-bit integer; the message of the error otherwise.
pub open spec fn int_of(v: SqlValue, col: Seq<char>) -> Result<int, Seq<char>> {
    match v {
        SqlValue::Int(i) => Ok(i as int),
        SqlValue::Text(s) => match parse_int(s, i64::MIN as int, i64::MAX as int) {
            Ok(n) => Ok(n),
            Err(_) => Err("expected int for "@ + col + ", got '"@ + s + "'"@),
        },
        _ => Err("expected "@ + "int"@ + " for "@ + col + ", got "@ + param_debug(v)),
    }
}

/// The error of a missing column.
pub open spec fn missing_text(col: Seq<char>) -> Seq<char> {
    "column not found: "@ + col
}

fn missing(col: &str) -> (e: KijukuError)
    ensures
        parse_text(e) == Some(missing_text(col@)),
{
    let mut m = String::new();
    push_str(&mut m, "column not found: ");
    push_str(&mut m, col);
    KijukuError::Parse(m)
}

fn int_value(col: &str, p: &SqlParam) -> (r: Result<i64, KijukuError>)
    ensures
        match r {
            Ok(i) => int_of(p@, col@) == Ok::<int, Seq<char>>(i as int),
            Err(e) => int_of(p@, col@) matches Err(m) && parse_text(e) == Some(m),
        },
{
    match p {
        SqlParam::Int(i) => Ok(*i),
        SqlParam::Text(s) => match parse_int_text(s.as_str(), i64::MIN, i64::MAX) {
            Ok(n) => Ok(n),
            Err(_) => Err(bad_int_text(col, s.as_str())),
        },
        _ => Err(unexpected("int", col, p)),
    }
}

/// The text that a value stands for: text, or an integer in decimal.
pub open spec fn text_of(v: SqlValue, col: Seq<char>, what: Seq<char>) -> Result<Seq<char>, Seq<char>> {
    match v {
        SqlValue::Text(s) => Ok(s),
        SqlValue::Int(i) => Ok(dec_int(i as int)),
        _ => Err("expected "@ + what + " for "@ + col + ", got "@ + param_debug(v)),
    }
}

fn text_value(col: &str, what: &str, p: &SqlParam) -> (r: Result<String, KijukuError>)
    ensures
        match r {
            Ok(s) => text_of(p@, col@, what@) == Ok::<Seq<char>, Seq<char>>(s@),
            Err(e) => text_of(p@, col@, what@) matches Err(m) && parse_text(e) == Some(m),
        },
{
    match p {
        SqlParam::Text(s) => Ok(s.clone()),
        SqlParam::Int(i) => Ok(i64_to_string(*i)),
        _ => Err(unexpected(what, col, p)),
    }
}

/// The value of a hexadecimal digit byte (either case).
pub open spec fn hex_digit(b: u8) -> Option<u8> {
    if 48 <= b <= 57 {
        Some((b - 48) as u8)
    } else if 97 <= b <= 102 {
        Some((b - 87) as u8)
    } else if 65 <= b <= 70 {
        Some((b - 55) as u8)
    } else {
        None
    }
}

/// Rust's debug rendering of a character (quoted, escaped).
pub uninterp spec fn char_debug(c: char) -> Seq<char>;

/// Renders a character as Rust's debug formatting does.
///
/// Calls `format!` with `{:?}` on the `char`; the contract names the result.
#[verifier::external_body]
fn debug_char(c: char) -> (r: String)
    ensures
        r@ == char_debug(c),
{
    format!("{:?}", c)
}

/// Decoding hexadecimal text as the `hex` crate's `decode` does: pairs of
/// hex digits (either case) give bytes; an odd length, or the first byte
/// that is no hex digit (reported as the character of that byte value and
/// its position), is an error.
pub open spec fn hex_decoded(t: Seq<u8>) -> Result<Seq<u8>, Seq<char>> {
    if t.len() % 2 != 0 {
        Err("Odd number of digits"@)
    } else if exists|i: int| 0 <= i < t.len() && #[trigger] hex_digit(t[i]) is None {
        let i = choose|i: int| 0 <= i < t.len() && #[trigger] hex_digit(t[i]) is None
            && forall|j: int| 0 <= j < i ==> hex_digit(t[j]) is Some;
        Err("Invalid character "@ + char_debug((t[i] as u32) as char) + " at position "@ + dec_nat(i as nat))
    } else {
        Ok(Seq::new(t.len() / 2, |k: int| (hex_digit(t[2 * k]).unwrap() * 16 + hex_digit(t[2 * k + 1]).unwrap()) as u8))
    }
}

fn hex_digit_exec(b: u8) -> (r: Option<u8>)
    ensures
        r == hex_digit(b),
{
    if 48 <= b && b <= 57 {
        Some(b - 48)
    } else if 97 <= b && b <= 102 {
        Some(b - 87)
    } else if 65 <= b && b <= 70 {
        Some(b - 55)
    } else {
        None
    }
}

fn latin1_char(b: u8) -> (c: char)
    ensures
        c == (b as u32) as char,
{
    b as char
}

/// Decodes hexadecimal text (see `hex_decoded`).
pub fn hex_decode(s: &str) -> (r: Result<Vec<u8>, String>)
    ensures
        match r {
            Ok(v) => hex_decoded(s.spec_bytes()) == Ok::<Seq<u8>, Seq<char>>(v@),
            Err(m) => hex_decoded(s.spec_bytes()) == Err::<Seq<u8>, Seq<char>>(m@),
        },
{
    let t = s.as_bytes();
    if t.len() % 2 != 0 {
        return Err("Odd number of digits".to_string());
    }
    let mut i: usize = 0;
    while i < t.len()
        invariant
            t@ == s.spec_bytes(),
            t@.len() % 2 == 0,
            i <= t@.len(),
            forall|j: int| 0 <= j < i ==> #[trigger] hex_digit(t@[j]) is Some,
        decreases t@.len() - i,
    {
        if hex_digit_exec(t[i]).is_none() {
            let mut m = String::new();
            push_str(&mut m, "Invalid character ");
            let d = debug_char(latin1_char(t[i]));
            push_str(&mut m, d.as_str());
            push_str(&mut m, " at position ");
            push_u64(&mut m, i as u64);
            proof {
                let w = choose|w: int| 0 <= w < t@.len() && #[trigger] hex_digit(t@[w]) is None
                    && forall|j: int| 0 <= j < w ==> hex_digit(t@[j]) is Some;
                assert(0 <= i < t@.len() && hex_digit(t@[i as int]) is None && forall|j: int| 0 <= j < i ==> hex_digit(t@[j]) is Some);
                if w < i {
                    assert(hex_digit(t@[w]) is Some);
                } else if w > i {
                    assert(hex_digit(t@[i as int]) is Some);
                }
                assert(m@ =~= "Invalid character "@ + char_debug((t@[i as int] as u32) as char) + " at position "@ + dec_nat(i as nat));
            }
            return Err(m);
        }
        i = i + 1;
    }
    let mut out: Vec<u8> = Vec::new();
    let mut k: usize = 0;
    while k < t.len() / 2
        invariant
            t@ == s.spec_bytes(),
            t@.len() % 2 == 0,
            k <= t@.len() / 2,
            forall|j: int| 0 <= j < t@.len() ==> #[trigger] hex_digit(t@[j]) is Some,
            out@.len() == k,
            forall|q: int| 0 <= q < k ==> #[trigger] out@[q] == (hex_digit(t@[2 * q]).unwrap() * 16 + hex_digit(t@[2 * q + 1]).unwrap()) as u8,
        decreases t@.len() / 2 - k,
    {
        let hi = hex_digit_exec(t[2 * k]).unwrap();
        let lo = hex_digit_exec(t[2 * k + 1]).unwrap();
        out.push(hi * 16 + lo);
        k = k + 1;
    }
    proof {
        assert(!(exists|i: int| 0 <= i < t@.len() && #[trigger] hex_digit(t@[i]) is None));
        assert(out@ =~= Seq::new(t@.len() / 2, |q: int| (hex_digit(t@[2 * q]).unwrap() * 16 + hex_digit(t@[2 * q + 1]).unwrap()) as u8));
    }
    Ok(out)
}

/// The bytes that a value stands for: bytes, or hexadecimal text.
pub open spec fn blob_of(v: SqlValue, col: Seq<char>, what: Seq<char>) -> Result<Seq<u8>, Seq<char>> {
    match v {
        SqlValue::Blob(b) => Ok(b),
        SqlValue::Text(s) => match hex_decoded(vstd::utf8::encode_utf8(s)) {
            Ok(b) => Ok(b),
            Err(e) => Err("hex decode error for "@ + col + ": "@ + e),
        },
        _ => Err("expected "@ + what + " for "@ + col + ", got "@ + param_debug(v)),
    }
}

fn blob_value(col: &str, what: &str, p: &SqlParam) -> (r: Result<Vec<u8>, KijukuError>)
    ensures
        match r {
            Ok(b) => blob_of(p@, col@, what@) == Ok::<Seq<u8>, Seq<char>>(b@),
            Err(e) => blob_of(p@, col@, what@) matches Err(m) && parse_text(e) == Some(m),
        },
{
    match p {
        SqlParam::Blob(b) => Ok(clone_bytes(b)),
        SqlParam::Text(s) => match hex_decode(s.as_str()) {
            Ok(b) => Ok(b),
            Err(e) => {
                let mut m = String::new();
                push_str(&mut m, "hex decode error for ");
                push_str(&mut m, col);
                push_str(&mut m, ": ");
                push_str(&mut m, e.as_str());
                assert(m@ =~= "hex decode error for "@ + col@ + ": "@ + e@);
                Err(KijukuError::Parse(m))
            },
        },
        _ => Err(unexpected(what, col, p)),
    }
}

/// Milliseconds since the Unix epoch of an RFC 3339 timestamp text, as
/// `chrono` reads it; `None` when it does not read.
pub uninterp spec fn rfc3339_millis(s: Seq<char>) -> Option<i64>;

/// Milliseconds since the Unix epoch of a timestamp text read with format
/// `fmt` as a UTC time, as `chrono` reads it, or the text of its error.
pub uninterp spec fn naive_utc_millis(s: Seq<char>, fmt: Seq<char>) -> Result<i64, Seq<char>>;

/// The format of SQLite's `CURRENT_TIMESTAMP` text.
pub open spec fn sqlite_timestamp_format() -> Seq<char> {
    "%Y-%m-%d %H:%M:%S"@
}

/// Milliseconds since the Unix epoch of a timestamp text: RFC 3339 when it
/// reads so, else SQLite's `%Y-%m-%d %H:%M:%S` read as UTC (whose error is
/// the message).
pub open spec fn timestamp_parse(s: Seq<char>) -> Result<i64, Seq<char>> {
    match rfc3339_millis(s) {
        Some(ms) => Ok(ms),
        None => naive_utc_millis(s, sqlite_timestamp_format()),
    }
}

/// Calls `chrono::DateTime::parse_from_rfc3339` and gives the milliseconds
/// of the time read (`timestamp_millis`), `None` for its error; the result
/// is named by `rfc3339_millis`.
#[verifier::external_body]
fn parse_rfc3339(s: &str) -> (r: Option<i64>)
    ensures
        r == rfc3339_millis(s@),
{
    match chrono::DateTime::parse_from_rfc3339(s) {
        Ok(dt) => Some(dt.timestamp_millis()),
        Err(_) => None,
    }
}

/// Calls `chrono::NaiveDateTime::parse_from_str` with format `fmt` and gives
/// the milliseconds of the time read as UTC (`and_utc().timestamp_millis()`),
/// or the text of its error; the result is named by `naive_utc_millis`.
#[verifier::external_body]
fn parse_naive_utc(s: &str, fmt: &str) -> (r: Result<i64, String>)
    ensures
        match r {
            Ok(ms) => naive_utc_millis(s@, fmt@) == Ok::<i64, Seq<char>>(ms),
            Err(m) => naive_utc_millis(s@, fmt@) == Err::<i64, Seq<char>>(m@),
        },
{
    match chrono::NaiveDateTime::parse_from_str(s, fmt) {
        Ok(n) => Ok(n.and_utc().timestamp_millis()),
        Err(e) => Err(e.to_string()),
    }
}

/// Reads a timestamp (see `timestamp_parse`).
pub fn parse_timestamp(s: &str) -> (r: Result<i64, String>)
    ensures
        match r {
            Ok(ms) => timestamp_parse(s@) == Ok::<i64, Seq<char>>(ms),
            Err(m) => timestamp_parse(s@) == Err::<i64, Seq<char>>(m@),
        },
{
    match parse_rfc3339(s) {
        Some(ms) => Ok(ms),
        None => parse_naive_utc(s, "%Y-%m-%d %H:%M:%S"),
    }
}

/// The message of an error result, `None` for success.
pub open spec fn err_of<T>(r: Result<T, Seq<char>>) -> Option<Seq<char>> {
    match r {
        Ok(_) => None,
        Err(e) => Some(e),
    }
}

/// Column `col` of a row read as an integer.
pub open spec fn col_int(m: Map<Seq<char>, SqlValue>, col: Seq<char>) -> Result<i64, Seq<char>> {
    if !m.contains_key(col) {
        Err(missing_text(col))
    } else {
        match int_of(m[col], col) {
            Ok(n) => Ok(n as i64),
            Err(e) => Err(e),
        }
    }
}

/// Column `col` of a row read as an optional integer.
pub open spec fn col_opt_int(m: Map<Seq<char>, SqlValue>, col: Seq<char>) -> Result<Option<i64>, Seq<char>> {
    if !m.contains_key(col) || m[col] == SqlValue::Null {
        Ok(None)
    } else {
        match int_of(m[col], col) {
            Ok(n) => Ok(Some(n as i64)),
            Err(e) => Err(e),
        }
    }
}

/// Column `col` of a row read as an optional integer cut to 32 bits.
pub open spec fn col_opt_i32(m: Map<Seq<char>, SqlValue>, col: Seq<char>) -> Result<Option<i32>, Seq<char>> {
    match col_opt_int(m, col) {
        Ok(Some(n)) => Ok(Some(n as i32)),
        Ok(None) => Ok(None),
        Err(e) => Err(e),
    }
}

/// Column `col` of a row read as text.
pub open spec fn col_text(m: Map<Seq<char>, SqlValue>, col: Seq<char>) -> Result<Seq<char>, Seq<char>> {
    if !m.contains_key(col) {
        Err(missing_text(col))
    } else {
        text_of(m[col], col, "text"@)
    }
}

/// Column `col` of a row read as optional text.
pub open spec fn col_opt_text(m: Map<Seq<char>, SqlValue>, col: Seq<char>) -> Result<Option<Seq<char>>, Seq<char>> {
    if !m.contains_key(col) || m[col] == SqlValue::Null {
        Ok(None)
    } else {
        match text_of(m[col], col, "text/null"@) {
            Ok(s) => Ok(Some(s)),
            Err(e) => Err(e),
        }
    }
}

/// Column `col` of a row read as a flag.
pub open spec fn col_bool(m: Map<Seq<char>, SqlValue>, col: Seq<char>) -> Result<bool, Seq<char>> {
    match col_int(m, col) {
        Ok(i) => Ok(i != 0),
        Err(e) => Err(e),
    }
}

/// Column `col` of a row read as a timestamp.
pub open spec fn col_datetime(m: Map<Seq<char>, SqlValue>, col: Seq<char>) -> Result<i64, Seq<char>> {
    match col_text(m, col) {
        Err(e) => Err(e),
        Ok(s) => match timestamp_parse(s) {
            Ok(ms) => Ok(ms),
            Err(e) => Err("datetime parse error for "@ + col + ": "@ + e),
        },
    }
}

/// Column `col` of a row read as bytes.
pub open spec fn col_blob(m: Map<Seq<char>, SqlValue>, col: Seq<char>) -> Result<Seq<u8>, Seq<char>> {
    if !m.contains_key(col) {
        Err(missing_text(col))
    } else {
        blob_of(m[col], col, "blob"@)
    }
}

/// Column `col` of a row read as optional bytes.
pub open spec fn col_opt_blob(m: Map<Seq<char>, SqlValue>, col: Seq<char>) -> Result<Option<Seq<u8>>, Seq<char>> {
    if !m.contains_key(col) || m[col] == SqlValue::Null {
        Ok(None)
    } else {
        match blob_of(m[col], col, "blob/null"@) {
            Ok(b) => Ok(Some(b)),
            Err(e) => Err(e),
        }
    }
}

/// The view of optional bytes.
pub open spec fn opt_bytes_view(o: Option<Vec<u8>>) -> Option<Seq<u8>> {
    match o {
        Some(b) => Some(b@),
        None => None,
    }
}

/// The error of a column read, as its message, or `None` when it
/// succeeded.
pub open spec fn read_err<T>(r: Result<T, KijukuError>) -> Option<Seq<char>> {
    match r {
        Ok(_) => None,
        Err(e) => parse_text(e),
    }
}

impl SqlRow {
    /// Column `col` read as an integer.
    pub fn get_int(&self, col: &str) -> (r: Result<i64, KijukuError>)
        requires
            self.wf(),
        ensures
            !self@.contains_key(col@) ==> r is Err && parse_text(r->Err_0) == Some(missing_text(col@)),
            self@.contains_key(col@) ==> match r {
                Ok(i) => int_of(self@[col@], col@) == Ok::<int, Seq<char>>(i as int),
                Err(e) => int_of(self@[col@], col@) matches Err(m) && parse_text(e) == Some(m),
            },
            read_err(r) == err_of(col_int(self@, col@)),
            r is Ok ==> r->Ok_0 == col_int(self@, col@)->Ok_0,
    {
        match self.get(col) {
            Some(p) => int_value(col, p),
            None => Err(missing(col)),
        }
    }

    /// Column `col` read as an optional integer (absent or NULL gives `None`).
    pub fn get_opt_int(&self, col: &str) -> (r: Result<Option<i64>, KijukuError>)
        requires
            self.wf(),
        ensures
            !self@.contains_key(col@) || self@[col@] == SqlValue::Null ==> r == Ok::<Option<i64>, KijukuError>(None),
            self@.contains_key(col@) && self@[col@] != SqlValue::Null ==> match r {
                Ok(v) => v matches Some(i) && int_of(self@[col@], col@) == Ok::<int, Seq<char>>(i as int),
                Err(e) => int_of(self@[col@], col@) matches Err(m) && parse_text(e) == Some(m),
            },
            read_err(r) == err_of(col_opt_int(self@, col@)),
            r is Ok ==> r->Ok_0 == col_opt_int(self@, col@)->Ok_0,
    {
        match self.get(col) {
            None => Ok(None),
            Some(SqlParam::Null) => Ok(None),
            Some(p) => match int_value(col, p) {
                Ok(i) => Ok(Some(i)),
                Err(e) => Err(e),
            },
        }
    }

    /// Column `col` read as an optional integer, cut to 32 bits.
    pub fn get_opt_i32(&self, col: &str) -> (r: Result<Option<i32>, KijukuError>)
        requires
            self.wf(),
        ensures
            !self@.contains_key(col@) || self@[col@] == SqlValue::Null ==> r == Ok::<Option<i32>, KijukuError>(None),
            self@.contains_key(col@) && self@[col@] != SqlValue::Null ==> match r {
                Ok(v) => v matches Some(i) && exists|n: i64| int_of(self@[col@], col@) == Ok::<int, Seq<char>>(n as int) && i == n as i32,
                Err(e) => int_of(self@[col@], col@) matches Err(m) && parse_text(e) == Some(m),
            },
            read_err(r) == err_of(col_opt_i32(self@, col@)),
            r is Ok ==> r->Ok_0 == col_opt_i32(self@, col@)->Ok_0,
    {
        match self.get_opt_int(col) {
            Ok(Some(i)) => Ok(Some(i as i32)),
            Ok(None) => Ok(None),
            Err(e) => Err(e),
        }
    }

    /// Column `col` read as text.
    pub fn get_text(&self, col: &str) -> (r: Result<String, KijukuError>)
        requires
            self.wf(),
        ensures
            !self@.contains_key(col@) ==> r is Err && parse_text(r->Err_0) == Some(missing_text(col@)),
            self@.contains_key(col@) ==> match r {
                Ok(s) => text_of(self@[col@], col@, "text"@) == Ok::<Seq<char>, Seq<char>>(s@),
                Err(e) => text_of(self@[col@], col@, "text"@) matches Err(m) && parse_text(e) == Some(m),
            },
            read_err(r) == err_of(col_text(self@, col@)),
            r is Ok ==> r->Ok_0@ == col_text(self@, col@)->Ok_0,
    {
        match self.get(col) {
            Some(p) => text_value(col, "text", p),
            None => Err(missing(col)),
        }
    }

    /// Column `col` read as optional text (absent or NULL gives `None`).
    pub fn get_opt_text(&self, col: &str) -> (r: Result<Option<String>, KijukuError>)
        requires
            self.wf(),
        ensures
            !self@.contains_key(col@) || self@[col@] == SqlValue::Null ==> r == Ok::<Option<String>, KijukuError>(None),
            self@.contains_key(col@) && self@[col@] != SqlValue::Null ==> match r {
                Ok(v) => v matches Some(s) && text_of(self@[col@], col@, "text/null"@) == Ok::<Seq<char>, Seq<char>>(s@),
                Err(e) => text_of(self@[col@], col@, "text/null"@) matches Err(m) && parse_text(e) == Some(m),
            },
            read_err(r) == err_of(col_opt_text(self@, col@)),
            r is Ok ==> opt_str_view(r->Ok_0) == col_opt_text(self@, col@)->Ok_0,
    {
        match self.get(col) {
            None => Ok(None),
            Some(SqlParam::Null) => Ok(None),
            Some(p) => match text_value(col, "text/null", p) {
                Ok(s) => Ok(Some(s)),
                Err(e) => Err(e),
            },
        }
    }

    /// Column `col` read as a flag: an integer other than 0.
    pub fn get_bool(&self, col: &str) -> (r: Result<bool, KijukuError>)
        requires
            self.wf(),
        ensures
            !self@.contains_key(col@) ==> r is Err && parse_text(r->Err_0) == Some(missing_text(col@)),
            self@.contains_key(col@) ==> match r {
                Ok(b) => int_of(self@[col@], col@) matches Ok(i) && b == (i != 0),
                Err(e) => int_of(self@[col@], col@) matches Err(m) && parse_text(e) == Some(m),
            },
            read_err(r) == err_of(col_bool(self@, col@)),
            r is Ok ==> r->Ok_0 == col_bool(self@, col@)->Ok_0,
    {
        match self.get_int(col) {
            Ok(i) => Ok(i != 0),
            Err(e) => Err(e),
        }
    }

    /// Column `col` read as bytes (hexadecimal text is decoded).
    pub fn get_blob(&self, col: &str) -> (r: Result<Vec<u8>, KijukuError>)
        requires
            self.wf(),
        ensures
            !self@.contains_key(col@) ==> r is Err && parse_text(r->Err_0) == Some(missing_text(col@)),
            self@.contains_key(col@) ==> match r {
                Ok(b) => blob_of(self@[col@], col@, "blob"@) == Ok::<Seq<u8>, Seq<char>>(b@),
                Err(e) => blob_of(self@[col@], col@, "blob"@) matches Err(m) && parse_text(e) == Some(m),
            },
            read_err(r) == err_of(col_blob(self@, col@)),
            r is Ok ==> r->Ok_0@ == col_blob(self@, col@)->Ok_0,
    {
        match self.get(col) {
            Some(p) => blob_value(col, "blob", p),
            None => Err(missing(col)),
        }
    }

    /// Column `col` read as optional bytes (absent or NULL gives `None`).
    pub fn get_opt_blob(&self, col: &str) -> (r: Result<Option<Vec<u8>>, KijukuError>)
        requires
            self.wf(),
        ensures
            !self@.contains_key(col@) || self@[col@] == SqlValue::Null ==> r matches Ok(None),
            self@.contains_key(col@) && self@[col@] != SqlValue::Null ==> match r {
                Ok(v) => v matches Some(b) && blob_of(self@[col@], col@, "blob/null"@) == Ok::<Seq<u8>, Seq<char>>(b@),
                Err(e) => blob_of(self@[col@], col@, "blob/null"@) matches Err(m) && parse_text(e) == Some(m),
            },
            read_err(r) == err_of(col_opt_blob(self@, col@)),
            r is Ok ==> opt_bytes_view(r->Ok_0) == col_opt_blob(self@, col@)->Ok_0,
    {
        match self.get(col) {
            None => Ok(None),
            Some(SqlParam::Null) => Ok(None),
            Some(p) => match blob_value(col, "blob/null", p) {
                Ok(b) => Ok(Some(b)),
                Err(e) => Err(e),
            },
        }
    }

    /// Column `col` read as a timestamp (milliseconds since the Unix epoch).
    pub fn get_datetime(&self, col: &str) -> (r: Result<i64, KijukuError>)
        requires
            self.wf(),
        ensures
            !self@.contains_key(col@) ==> r is Err && parse_text(r->Err_0) == Some(missing_text(col@)),
            self@.contains_key(col@) ==> match r {
                Ok(ms) => text_of(self@[col@], col@, "text"@) matches Ok(s) && timestamp_parse(s) == Ok::<i64, Seq<char>>(ms),
                Err(e) => match text_of(self@[col@], col@, "text"@) {
                    Err(m) => parse_text(e) == Some(m),
                    Ok(s) => timestamp_parse(s) matches Err(m)
                        && parse_text(e) == Some("datetime parse error for "@ + col@ + ": "@ + m),
                },
            },
            read_err(r) == err_of(col_datetime(self@, col@)),
            r is Ok ==> r->Ok_0 == col_datetime(self@, col@)->Ok_0,
    {
        let s = match self.get_text(col) {
            Ok(s) => s,
            Err(e) => return Err(e),
        };
        match parse_timestamp(s.as_str()) {
            Ok(ms) => Ok(ms),
            Err(e) => {
                let mut m = String::new();
                push_str(&mut m, "datetime parse error for ");
                push_str(&mut m, col);
                push_str(&mut m, ": ");
                push_str(&mut m, e.as_str());
                assert(m@ =~= "datetime parse error for "@ + col@ + ": "@ + e@);
                Err(KijukuError::Parse(m))
            },
        }
    }
}

} // verus!
