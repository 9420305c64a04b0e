//! The text of `auto-records.csv`: one line per automatic backup,
//! `id,created_at,tier,type,base_id,size_bytes,status,pruned_at`, after a
//! header line.
use vstd::prelude::*;
use crate::backup::{AutoRecord, AutoRecordStatus};
use crate::crud::{all_decimal, digits_value, digit_value};
use crate::text::{push_char, push_str, push_u64, dec_nat};

verus! {

broadcast use vstd::std_specs::vec::group_vec_axioms;

/// The header line of the file.
pub open spec fn records_header() -> Seq<char> {
    "id,created_at,tier,type,base_id,size_bytes,status,pruned_at"@
}

/// The header line of `auto-records.csv`, written before its first record.
pub fn auto_records_header() -> (r: &'static str)
    ensures
        r@ == records_header(),
{
    "id,created_at,tier,type,base_id,size_bytes,status,pruned_at"
}

/// Position of the first `c` in `s`, if any.
pub open spec fn first_index(s: Seq<char>, c: char) -> Option<int>
    decreases s.len(),
{
    if s.len() == 0 {
        None
    } else if s[0] == c {
        Some(0)
    } else {
        match first_index(s.drop_first(), c) {
            Some(i) => Some(i + 1),
            None => None,
        }
    }
}

/// `s` split at its first `n - 1` commas (the last part keeps any further
/// commas), as `str::splitn(n, ',')` splits it.
pub open spec fn split_n(s: Seq<char>, n: nat) -> Seq<Seq<char>>
    decreases n,
{
    if n <= 1 {
        seq![s]
    } else {
        match first_index(s, ',') {
            Some(i) => seq![s.take(i)] + split_n(s.skip(i + 1), (n - 1) as nat),
            None => seq![s],
        }
    }
}

/// The value of a decimal text as `str::parse::<u64>` reads it: an optional
/// `+`, then one or more digits, at most `u64::MAX`.
pub open spec fn parsed_u64(s: Seq<char>) -> Option<u64> {
    let d = if s.len() > 0 && s[0] == '+' { s.skip(1) } else { s };
    if d.len() > 0 && all_decimal(d) && digits_value(d) <= u64::MAX {
        Some(digits_value(d) as u64)
    } else {
        None
    }
}

/// Value of a record of the file.
pub struct AutoRecordView {
    pub id: Seq<char>,
    pub created_at: Seq<char>,
    pub tier: Seq<char>,
    pub kind: Seq<char>,
    pub base_id: Seq<char>,
    pub size_bytes: u64,
    pub status: AutoRecordStatus,
    pub pruned_at: Seq<char>,
}

impl View for AutoRecord {
    type V = AutoRecordView;

    open spec fn view(&self) -> AutoRecordView {
        AutoRecordView {
            id: self.id@,
            created_at: self.created_at@,
            tier: self.tier@,
            kind: self.kind@,
            base_id: self.base_id@,
            size_bytes: self.size_bytes,
            status: self.status,
            pruned_at: self.pruned_at@,
        }
    }
}

/// The record a line holds: eight fields split at the first seven commas;
/// a size that does not read as a number counts as 0, and any status other
/// than `kept` as pruned.
pub open spec fn record_of_line(line: Seq<char>) -> Option<AutoRecordView> {
    let p = split_n(line, 8);
    if p.len() < 8 {
        None
    } else {
        Some(AutoRecordView {
            id: p[0],
            created_at: p[1],
            tier: p[2],
            kind: p[3],
            base_id: p[4],
            size_bytes: match parsed_u64(p[5]) { Some(v) => v, None => 0 },
            status: if p[6] == "kept"@ { AutoRecordStatus::Kept } else { AutoRecordStatus::Pruned },
            pruned_at: p[7],
        })
    }
}

/// Text of a status.
pub open spec fn status_text(s: AutoRecordStatus) -> Seq<char> {
    match s {
        AutoRecordStatus::Kept => "kept"@,
        AutoRecordStatus::Pruned => "pruned"@,
    }
}

/// Fields joined with commas.
pub open spec fn join_fields(f: Seq<Seq<char>>) -> Seq<char>
    decreases f.len(),
{
    if f.len() == 0 {
        Seq::empty()
    } else if f.len() == 1 {
        f[0]
    } else {
        f[0] + ","@ + join_fields(f.drop_first())
    }
}

/// The fields of a record as written.
pub open spec fn record_fields(r: AutoRecordView) -> Seq<Seq<char>> {
    seq![r.id, r.created_at, r.tier, r.kind, r.base_id, dec_nat(r.size_bytes as nat), status_text(r.status), r.pruned_at]
}

/// The line of a record (without the line break).
pub open spec fn line_of_record(r: AutoRecordView) -> Seq<char> {
    join_fields(record_fields(r))
}

pub(crate) fn chars_of(s: &str) -> (r: Vec<char>)
    ensures
        r@ == s@,
{
    let mut cs: Vec<char> = Vec::new();
    let ghost full = s@;
    for c in it: s.chars()
        invariant
            full == s@,
            it.seq() == full,
            cs@ == full.take(it.index() as int),
    {
        cs.push(c);
        assert(cs@ =~= full.take(it.index() + 1));
    }
    assert(full.take(full.len() as int) =~= full);
    cs
}

pub(crate) fn string_of(cs: &Vec<char>, a: usize, b: usize) -> (r: String)
    requires
        a <= b <= cs@.len(),
    ensures
        r@ == cs@.subrange(a as int, b as int),
{
    let mut s = String::new();
    let mut i: usize = a;
    while i < b
        invariant
            a <= i <= b <= cs@.len(),
            s@ == cs@.subrange(a as int, i as int),
        decreases b - i,
    {
        push_char(&mut s, cs[i]);
        assert(s@ =~= cs@.subrange(a as int, i + 1));
        i = i + 1;
    }
    s
}

proof fn lemma_first_index(s: Seq<char>, c: char, i: int)
    requires
        0 <= i <= s.len(),
        forall|j: int| 0 <= j < i ==> #[trigger] s[j] != c,
        i < s.len() ==> s[i] == c,
    ensures
        first_index(s, c) == (if i < s.len() { Some(i) } else { None::<int> }),
    decreases i,
{
    if i > 0 {
        let t = s.drop_first();
        assert forall|j: int| 0 <= j < i - 1 implies #[trigger] t[j] != c by {
            assert(t[j] == s[j + 1]);
        }
        if i < s.len() {
            assert(t[i - 1] == s[i]);
        }
        assert(s[0] != c);
        lemma_first_index(t, c, i - 1);
    }
}

/// The fields of `cs` from `start` on, split as `split_n(.., n)` splits them.
fn split_fields(cs: &Vec<char>, start: usize, n: usize) -> (r: Vec<String>)
    requires
        start <= cs@.len(),
        1 <= n <= 8,
    ensures
        r@.map_values(|x: String| x@) == split_n(cs@.skip(start as int), n as nat),
    decreases n,
{
    let ghost s = cs@.skip(start as int);
    if n == 1 {
        let mut v: Vec<String> = Vec::new();
        v.push(string_of(cs, start, cs.len()));
        assert(cs@.subrange(start as int, cs@.len() as int) =~= s);
        assert(v@.map_values(|x: String| x@) =~= seq![s]);
        return v;
    }
    let mut i: usize = start;
    while i < cs.len() && cs[i] != ','
        invariant
            start <= i <= cs@.len(),
            s == cs@.skip(start as int),
            forall|j: int| start <= j < i ==> #[trigger] cs@[j] != ',',
        decreases cs@.len() - i,
    {
        i = i + 1;
    }
    proof {
        assert forall|j: int| 0 <= j < i - start implies #[trigger] s[j] != ',' by {
            assert(s[j] == cs@[j + start]);
        }
        if i < cs@.len() {
            assert(s[i - start] == cs@[i as int]);
        }
        lemma_first_index(s, ',', i - start);
    }
    if i == cs.len() {
        let mut v: Vec<String> = Vec::new();
        v.push(string_of(cs, start, cs.len()));
        assert(cs@.subrange(start as int, cs@.len() as int) =~= s);
        assert(v@.map_values(|x: String| x@) =~= seq![s]);
        return v;
    }
    let head = string_of(cs, start, i);
    let tail = split_fields(cs, i + 1, n - 1);
    let mut v: Vec<String> = Vec::new();
    v.push(head);
    let ghost hv = v@;
    let mut k: usize = 0;
    while k < tail.len()
        invariant
            k <= tail@.len(),
            hv.len() == 1,
            v@.len() == 1 + k,
            v@[0] == hv[0],
            forall|q: int| 0 <= q < k ==> v@[q + 1] == #[trigger] tail@[q],
        decreases tail@.len() - k,
    {
        v.push(tail[k].clone());
        k = k + 1;
    }
    proof {
        assert(cs@.subrange(start as int, i as int) =~= s.take(i - start));
        assert(cs@.skip(i + 1) =~= s.skip(i - start + 1));
        let lhs = v@.map_values(|x: String| x@);
        let rhs = seq![s.take(i - start)] + split_n(s.skip(i - start + 1), (n - 1) as nat);
        assert forall|q: int| 0 <= q < lhs.len() implies lhs[q] == rhs[q] by {
            if q > 0 {
                assert(tail@[q - 1] == v@[q]);
            }
        }
        assert(lhs =~= rhs);
    }
    v
}

/// Reads a size as `str::parse::<u64>` does.
pub(crate) fn parse_size(s: &str) -> (r: Option<u64>)
    ensures
        r == parsed_u64(s@),
{
    let cs = chars_of(s);
    let start: usize = if cs.len() > 0 && cs[0] == '+' { 1 } else { 0 };
    let ghost d = cs@.skip(start as int);
    assert(d == (if s@.len() > 0 && s@[0] == '+' { s@.skip(1) } else { s@ })) by {
        if start == 0 {
            assert(cs@.skip(0) =~= cs@);
        }
    }
    if cs.len() <= start {
        return None;
    }
    let mut v: u64 = 0;
    let mut i: usize = start;
    while i < cs.len()
        invariant
            cs@ == s@,
            start <= i <= cs@.len(),
            d == cs@.skip(start as int),
            d == (if s@.len() > 0 && s@[0] == '+' { s@.skip(1) } else { s@ }),
            all_decimal(cs@.subrange(start as int, i as int)),
            v == digits_value(cs@.subrange(start as int, i as int)),
        decreases cs@.len() - i,
    {
        let c = cs[i];
        if c < '0' || c > '9' {
            assert(d[i - start] == c);
            return None;
        }
        let dv: u64 = (c as u32 - '0' as u32) as u64;
        proof {
            let sub = cs@.subrange(start as int, i + 1);
            assert(sub.drop_last() =~= cs@.subrange(start as int, i as int));
            assert(sub.last() == c);
            assert forall|j: int| 0 <= j < sub.len() implies '0' <= #[trigger] sub[j] <= '9' by {
                if j < sub.len() - 1 {
                    assert(sub[j] == cs@.subrange(start as int, i as int)[j]);
                }
            }
            assert(digits_value(sub) == v * 10 + dv);
        }
        if v > (u64::MAX - dv) / 10 {
            proof {
                let sub = cs@.subrange(start as int, i + 1);
                assert(digits_value(sub) > u64::MAX);
                if all_decimal(d) {
                    lemma_digits_value_prefix(d, i + 1 - start);
                    assert(d.take(i + 1 - start) =~= sub);
                }
            }
            return None;
        }
        v = v * 10 + dv;
        i = i + 1;
    }
    assert(cs@.subrange(start as int, cs@.len() as int) =~= d);
    Some(v)
}

proof fn lemma_digits_value_prefix(d: Seq<char>, k: int)
    requires
        0 <= k <= d.len(),
        all_decimal(d),
    ensures
        digits_value(d) >= digits_value(d.take(k)),
    decreases d.len(),
{
    if d.len() > k {
        let t = d.drop_last();
        assert(t.take(k) =~= d.take(k));
        assert forall|j: int| 0 <= j < t.len() implies '0' <= #[trigger] t[j] <= '9' by {
            assert(t[j] == d[j]);
        }
        lemma_digits_value_prefix(t, k);
        lemma_digits_value_nonneg(t);
        assert(digit_value(d.last()) >= 0) by {
            assert('0' <= d[d.len() - 1] <= '9');
        }
    } else {
        assert(d.take(k) =~= d);
    }
}

proof fn lemma_digits_value_nonneg(d: Seq<char>)
    requires
        all_decimal(d),
    ensures
        digits_value(d) >= 0,
    decreases d.len(),
{
    if d.len() > 0 {
        let t = d.drop_last();
        assert forall|j: int| 0 <= j < t.len() implies '0' <= #[trigger] t[j] <= '9' by {
            assert(t[j] == d[j]);
        }
        lemma_digits_value_nonneg(t);
        assert('0' <= d[d.len() - 1] <= '9');
    }
}

/// Reads one line of the file.
pub fn parse_csv_record(line: &str) -> (r: Option<AutoRecord>)
    ensures
        match r {
            Some(a) => record_of_line(line@) == Some(a@),
            None => record_of_line(line@) is None,
        },
{
    let cs = chars_of(line);
    let parts = split_fields(&cs, 0, 8);
    assert(cs@.skip(0) =~= cs@);
    let ghost pv = parts@.map_values(|x: String| x@);
    if parts.len() < 8 {
        return None;
    }
    assert(forall|k: int| 0 <= k < 8 ==> #[trigger] pv[k] == parts@[k]@);
    let size = match parse_size(parts[5].as_str()) {
        Some(v) => v,
        None => 0,
    };
    let kept = crate::types::str_eq(parts[6].as_str(), "kept");
    Some(AutoRecord {
        id: parts[0].clone(),
        created_at: parts[1].clone(),
        tier: parts[2].clone(),
        kind: parts[3].clone(),
        base_id: parts[4].clone(),
        size_bytes: size,
        status: if kept { AutoRecordStatus::Kept } else { AutoRecordStatus::Pruned },
        pruned_at: parts[7].clone(),
    })
}

/// Writes the line of a record (without the line break).
#[verifier::rlimit(40)]
#[verifier::spinoff_prover]
pub fn format_csv_record(r: &AutoRecord) -> (s: String)
    ensures
        s@ == line_of_record(r@),
{
    let mut s = String::new();
    push_str(&mut s, r.id.as_str());
    push_str(&mut s, ",");
    push_str(&mut s, r.created_at.as_str());
    push_str(&mut s, ",");
    push_str(&mut s, r.tier.as_str());
    push_str(&mut s, ",");
    push_str(&mut s, r.kind.as_str());
    push_str(&mut s, ",");
    push_str(&mut s, r.base_id.as_str());
    push_str(&mut s, ",");
    push_u64(&mut s, r.size_bytes);
    push_str(&mut s, ",");
    match r.status {
        AutoRecordStatus::Kept => push_str(&mut s, "kept"),
        AutoRecordStatus::Pruned => push_str(&mut s, "pruned"),
    }
    push_str(&mut s, ",");
    push_str(&mut s, r.pruned_at.as_str());
    proof {
        let f = record_fields(r@);
        reveal_with_fuel(join_fields, 9);
        assert(f.drop_first().drop_first().drop_first().drop_first().drop_first().drop_first().drop_first()
            =~= seq![r.pruned_at@]);
        assert(s@ =~= line_of_record(r@));
    }
    s
}

/// `s` has no comma.
pub open spec fn comma_free(s: Seq<char>) -> bool {
    forall|i: int| 0 <= i < s.len() ==> #[trigger] s[i] != ','
}

proof fn lemma_split_after(a: Seq<char>, rest: Seq<char>, n: nat)
    requires
        comma_free(a),
        n >= 2,
    ensures
        split_n(a + ","@ + rest, n) == seq![a] + split_n(rest, (n - 1) as nat),
{
    let s = a + ","@ + rest;
    assert(","@ == seq![',']) by {
        reveal_strlit(",");
    }
    assert forall|j: int| 0 <= j < a.len() implies #[trigger] s[j] != ',' by {
        assert(s[j] == a[j]);
    }
    assert(s[a.len() as int] == ',');
    lemma_first_index(s, ',', a.len() as int);
    assert(s.take(a.len() as int) =~= a);
    assert(s.skip(a.len() as int + 1) =~= rest);
}

proof fn lemma_parse_dec(n: u64)
    ensures
        parsed_u64(dec_nat(n as nat)) == Some(n),
{
    crate::crud::lemma_dec_nat_facts(n as nat);
}

proof fn lemma_split_join(f: Seq<Seq<char>>)
    requires
        f.len() >= 1,
        forall|i: int| 0 <= i < f.len() - 1 ==> comma_free(#[trigger] f[i]),
    ensures
        split_n(join_fields(f), f.len()) == f,
    decreases f.len(),
{
    if f.len() == 1 {
        assert(seq![f[0]] =~= f);
    } else {
        let rest = f.drop_first();
        assert forall|i: int| 0 <= i < rest.len() - 1 implies comma_free(#[trigger] rest[i]) by {
            assert(rest[i] == f[i + 1]);
        }
        lemma_split_join(rest);
        assert(comma_free(f[0]));
        lemma_split_after(f[0], join_fields(rest), f.len());
        assert(seq![f[0]] + rest =~= f);
    }
}

/// A record written as a line reads back as the same record, when its
/// first five fields hold no comma (the last field may).
pub proof fn law_record_line_round_trip(r: AutoRecordView)
    requires
        comma_free(r.id),
        comma_free(r.created_at),
        comma_free(r.tier),
        comma_free(r.kind),
        comma_free(r.base_id),
    ensures
        record_of_line(line_of_record(r)) == Some(r),
{
    reveal_strlit("kept");
    reveal_strlit("pruned");
    let size = dec_nat(r.size_bytes as nat);
    lemma_parse_dec(r.size_bytes);
    crate::crud::lemma_dec_nat_facts(r.size_bytes as nat);
    assert(comma_free(size)) by {
        assert forall|i: int| 0 <= i < size.len() implies #[trigger] size[i] != ',' by {
            assert('0' <= size[i] <= '9');
        }
    }
    let f = record_fields(r);
    assert(comma_free(status_text(r.status)));
    assert forall|i: int| 0 <= i < f.len() - 1 implies comma_free(#[trigger] f[i]) by {
        if i == 5 {
            assert(f[5] == size);
        }
    }
    lemma_split_join(f);
    if r.status == AutoRecordStatus::Pruned {
        assert(status_text(r.status) != "kept"@) by {
            assert(status_text(r.status).len() != "kept"@.len());
        }
    }
}

/// A line without the carriage return of a `\r\n` ending.
pub open spec fn strip_cr(l: Seq<char>) -> Seq<char> {
    if l.len() > 0 && l.last() == '\r' { l.drop_last() } else { l }
}

/// The lines of a text as `str::lines` gives them: split at `\n` (a `\r`
/// before it is dropped), with no empty line after a final line break.
pub open spec fn text_lines(s: Seq<char>) -> Seq<Seq<char>>
    decreases s.len(),
{
    match first_index(s, '\n') {
        Some(i) => {
            proof {
                lemma_first_index_bound(s, '\n');
            }
            if i + 1 == s.len() {
                seq![strip_cr(s.take(i))]
            } else {
                seq![strip_cr(s.take(i))] + text_lines(s.skip(i + 1))
            }
        },
        None => if s.len() == 0 { Seq::empty() } else { seq![s] },
    }
}

pub proof fn lemma_first_index_bound(s: Seq<char>, c: char)
    ensures
        first_index(s, c) matches Some(i) ==> 0 <= i < s.len() && s[i] == c
            && forall|j: int| 0 <= j < i ==> #[trigger] s[j] != c,
        first_index(s, c) is None ==> forall|j: int| 0 <= j < s.len() ==> #[trigger] s[j] != c,
    decreases s.len(),
{
    if s.len() > 0 {
        lemma_first_index_bound(s.drop_first(), c);
        if s[0] != c {
            assert forall|j: int| 1 <= j < s.len() implies s[j] == s.drop_first()[j - 1] by {}
        }
    }
}

/// The lines of `cs` from `start` on.
fn lines_from(cs: &Vec<char>, start: usize) -> (r: Vec<String>)
    requires
        start <= cs@.len(),
    ensures
        r@.map_values(|x: String| x@) == text_lines(cs@.skip(start as int)),
    decreases cs@.len() - start,
{
    let ghost s = cs@.skip(start as int);
    let mut i: usize = start;
    while i < cs.len() && cs[i] != '\n'
        invariant
            start <= i <= cs@.len(),
            s == cs@.skip(start as int),
            forall|j: int| start <= j < i ==> #[trigger] cs@[j] != '\n',
        decreases cs@.len() - i,
    {
        i = i + 1;
    }
    proof {
        assert forall|j: int| 0 <= j < i - start implies #[trigger] s[j] != '\n' by {
            assert(s[j] == cs@[j + start]);
        }
        if i < cs@.len() {
            assert(s[i - start] == cs@[i as int]);
        }
        lemma_first_index(s, '\n', i - start);
    }
    let mut out: Vec<String> = Vec::new();
    if i == cs.len() {
        if start < cs.len() {
            out.push(string_of(cs, start, cs.len()));
            assert(cs@.subrange(start as int, cs@.len() as int) =~= s);
            assert(out@.map_values(|x: String| x@) =~= seq![s]);
        } else {
            assert(out@.map_values(|x: String| x@) =~= Seq::<Seq<char>>::empty());
        }
        return out;
    }
    let end: usize = if i > start && cs[i - 1] == '\r' { i - 1 } else { i };
    out.push(string_of(cs, start, end));
    proof {
        let l = s.take(i - start);
        assert(l =~= cs@.subrange(start as int, i as int));
        if i > start && cs@[i - 1] == '\r' {
            assert(l.last() == cs@[i - 1]);
            assert(strip_cr(l) =~= cs@.subrange(start as int, end as int));
        } else {
            if l.len() > 0 {
                assert(l.last() == cs@[i - 1]);
            }
            assert(strip_cr(l) =~= cs@.subrange(start as int, end as int));
        }
    }
    if i + 1 == cs.len() {
        assert(out@.map_values(|x: String| x@) =~= seq![strip_cr(s.take(i - start))]);
        return out;
    }
    let rest = lines_from(cs, i + 1);
    let ghost hv = out@;
    let mut k: usize = 0;
    while k < rest.len()
        invariant
            k <= rest@.len(),
            hv.len() == 1,
            out@.len() == 1 + k,
            out@[0] == hv[0],
            forall|q: int| 0 <= q < k ==> out@[q + 1] == #[trigger] rest@[q],
        decreases rest@.len() - k,
    {
        out.push(rest[k].clone());
        k = k + 1;
    }
    proof {
        assert(cs@.skip(i + 1) =~= s.skip(i - start + 1));
        let lhs = out@.map_values(|x: String| x@);
        let rhs = seq![strip_cr(s.take(i - start))] + text_lines(s.skip(i - start + 1));
        assert forall|q: int| 0 <= q < lhs.len() implies lhs[q] == rhs[q] by {
            if q > 0 {
                assert(rest@[q - 1] == out@[q]);
            }
        }
        assert(lhs =~= rhs);
    }
    out
}

/// The records of the lines of a file after its header; lines that do not
/// hold eight fields are skipped.
pub open spec fn records_of_lines(ls: Seq<Seq<char>>) -> Seq<AutoRecordView>
    decreases ls.len(),
{
    if ls.len() == 0 {
        Seq::empty()
    } else {
        let prev = records_of_lines(ls.drop_last());
        match record_of_line(ls.last()) {
            Some(r) => prev.push(r),
            None => prev,
        }
    }
}

/// The lines after the first one.
pub open spec fn after_header(ls: Seq<Seq<char>>) -> Seq<Seq<char>> {
    if ls.len() == 0 { ls } else { ls.skip(1) }
}

/// The records of the text of `auto-records.csv` (its first line is the
/// header).
pub fn parse_auto_records(content: &str) -> (r: Vec<AutoRecord>)
    ensures
        r@.map_values(|a: AutoRecord| a@) == records_of_lines(after_header(text_lines(content@))),
{
    let cs = chars_of(content);
    let lines = lines_from(&cs, 0);
    assert(cs@.skip(0) =~= cs@);
    let ghost lv = lines@.map_values(|x: String| x@);
    let mut out: Vec<AutoRecord> = Vec::new();
    if lines.len() == 0 {
        assert(out@.map_values(|a: AutoRecord| a@) =~= Seq::<AutoRecordView>::empty());
        return out;
    }
    let mut i: usize = 1;
    while i < lines.len()
        invariant
            lv == lines@.map_values(|x: String| x@),
            1 <= i <= lines@.len(),
            out@.map_values(|a: AutoRecord| a@) == records_of_lines(lv.subrange(1, i as int)),
        decreases lines@.len() - i,
    {
        let ghost before = out@;
        proof {
            let t = lv.subrange(1, i + 1);
            assert(t.drop_last() =~= lv.subrange(1, i as int));
            assert(t.last() == lines@[i as int]@);
        }
        match parse_csv_record(lines[i].as_str()) {
            Some(rec) => {
                let ghost rv = rec@;
                out.push(rec);
                assert(out@.map_values(|a: AutoRecord| a@) =~= before.map_values(|a: AutoRecord| a@).push(rv));
            },
            None => {},
        }
        i = i + 1;
    }
    assert(lv.subrange(1, lv.len() as int) =~= lv.skip(1));
    out
}

/// `line` starts with `p`.
pub open spec fn starts_with_chars(line: Seq<char>, p: Seq<char>) -> bool {
    p.len() <= line.len() && line.take(p.len() as int) == p
}

/// A line of the record `id` with its status set to pruned at `at`; other
/// lines, and lines with fewer than eight fields, stay as they are.
pub open spec fn pruned_line(line: Seq<char>, id: Seq<char>, at: Seq<char>) -> Seq<char> {
    let p = split_n(line, 8);
    if starts_with_chars(line, id + ","@) && p.len() >= 8 {
        join_fields(seq![p[0], p[1], p[2], p[3], p[4], p[5], "pruned"@, at])
    } else {
        line
    }
}

/// Lines each followed by a line break.
pub open spec fn lines_text(ls: Seq<Seq<char>>) -> Seq<char>
    decreases ls.len(),
{
    if ls.len() == 0 { Seq::empty() } else { lines_text(ls.drop_last()) + ls.last() + "\n"@ }
}

/// Lines joined with line breaks.
pub open spec fn joined_lines(ls: Seq<Seq<char>>) -> Seq<char> {
    if ls.len() == 0 { Seq::empty() } else { lines_text(ls.drop_last()) + ls.last() }
}

/// The text of `auto-records.csv` after marking record `id` pruned at
/// `at`: every line, the record's line changed, joined with line breaks and
/// ended by one.
pub open spec fn marked_text(content: Seq<char>, id: Seq<char>, at: Seq<char>) -> Seq<char> {
    joined_lines(text_lines(content).map_values(|l: Seq<char>| pruned_line(l, id, at))) + "\n"@
}

pub(crate) fn prefix_is(cs: &Vec<char>, p: &Vec<char>) -> (r: bool)
    ensures
        r == starts_with_chars(cs@, p@),
{
    if p.len() > cs.len() {
        return false;
    }
    let mut i: usize = 0;
    while i < p.len()
        invariant
            p@.len() <= cs@.len(),
            i <= p@.len(),
            forall|j: int| 0 <= j < i ==> cs@[j] == p@[j],
        decreases p@.len() - i,
    {
        if cs[i] != p[i] {
            assert(cs@.take(p@.len() as int)[i as int] != p@[i as int]);
            return false;
        }
        i = i + 1;
    }
    assert(cs@.take(p@.len() as int) =~= p@);
    true
}

fn mark_line(line: &String, key: &Vec<char>, id: &str, at: &str) -> (r: String)
    requires
        key@ == id@ + ","@,
    ensures
        r@ == pruned_line(line@, id@, at@),
{
    let cs = chars_of(line.as_str());
    let parts = split_fields(&cs, 0, 8);
    assert(cs@.skip(0) =~= cs@);
    let ghost pv = parts@.map_values(|x: String| x@);
    if prefix_is(&cs, key) && parts.len() >= 8 {
        let mut out = String::new();
        let mut k: usize = 0;
        while k < 6
            invariant
                parts@.len() >= 8,
                pv == parts@.map_values(|x: String| x@),
                k <= 6,
                out@ == lines_with_commas(pv.take(k as int)),
            decreases 6 - k,
        {
            push_str(&mut out, parts[k].as_str());
            push_str(&mut out, ",");
            proof {
                assert(pv.take(k + 1).drop_last() =~= pv.take(k as int));
                assert(pv[k as int] == parts@[k as int]@);
            }
            k = k + 1;
        }
        push_str(&mut out, "pruned,");
        push_str(&mut out, at);
        proof {
            reveal_with_fuel(join_fields, 9);
            reveal_with_fuel(lines_with_commas, 7);
            reveal_strlit("pruned,");
            reveal_strlit("pruned");
            reveal_strlit(",");
            let f = seq![pv[0], pv[1], pv[2], pv[3], pv[4], pv[5], "pruned"@, at@];
            assert(f.drop_first().drop_first().drop_first().drop_first().drop_first().drop_first().drop_first()
                =~= seq![at@]);
            assert(pv.take(6) =~= seq![pv[0], pv[1], pv[2], pv[3], pv[4], pv[5]]);
            assert(out@ =~= join_fields(f));
        }
        out
    } else {
        line.clone()
    }
}

/// Each text followed by a comma.
pub open spec fn lines_with_commas(ls: Seq<Seq<char>>) -> Seq<char>
    decreases ls.len(),
{
    if ls.len() == 0 { Seq::empty() } else { lines_with_commas(ls.drop_last()) + ls.last() + ","@ }
}

/// Marks record `id` of the text of `auto-records.csv` pruned at `at`.
pub fn mark_record_pruned(content: &str, id: &str, at: &str) -> (r: String)
    ensures
        r@ == marked_text(content@, id@, at@),
{
    let cs = chars_of(content);
    let lines = lines_from(&cs, 0);
    assert(cs@.skip(0) =~= cs@);
    let ghost lv = lines@.map_values(|x: String| x@);
    let ghost mv = lv.map_values(|l: Seq<char>| pruned_line(l, id@, at@));
    let mut key_s = String::new();
    push_str(&mut key_s, id);
    push_str(&mut key_s, ",");
    let key = chars_of(key_s.as_str());
    let mut out = String::new();
    let mut i: usize = 0;
    while i < lines.len()
        invariant
            lv == lines@.map_values(|x: String| x@),
            mv == lv.map_values(|l: Seq<char>| pruned_line(l, id@, at@)),
            key@ == id@ + ","@,
            i <= lines@.len(),
            i > 0 ==> out@ == joined_lines(mv.take(i as int)),
            i == 0 ==> out@.len() == 0,
        decreases lines@.len() - i,
    {
        let ghost before = out@;
        if i > 0 {
            push_str(&mut out, "\n");
        }
        let l = mark_line(&lines[i], &key, id, at);
        push_str(&mut out, l.as_str());
        proof {
            let t = mv.take(i + 1);
            assert(t.drop_last() =~= mv.take(i as int));
            assert(t.last() == pruned_line(lv[i as int], id@, at@));
            assert(lv[i as int] == lines@[i as int]@);
            if i > 0 {
                let u = mv.take(i as int);
                assert(u.drop_last().len() + 1 == u.len());
                assert(lines_text(t.drop_last()) == lines_text(u.drop_last()) + u.last() + "\n"@) by {
                    assert(t.drop_last() == u);
                }
                assert(out@ =~= joined_lines(t));
            } else {
                assert(out@ =~= joined_lines(t));
            }
        }
        i = i + 1;
    }
    push_str(&mut out, "\n");
    proof {
        assert(mv.take(lv.len() as int) =~= mv);
        if lv.len() == 0 {
            assert(joined_lines(mv) =~= Seq::<char>::empty());
        }
        assert(out@ =~= marked_text(content@, id@, at@));
    }
    out
}

} // verus!
