//! The file format of differential backups.
//!
//! A differential backup holds the pages of a database file that differ
//! from those of a full backup (its base), behind a header of 30 bytes:
//!
//! ```text
//!   base_id        18 bytes  id of the base, zero-padded
//!   page_size       4 bytes  big-endian
//!   total_pages     4 bytes  big-endian
//!   changed_pages   4 bytes  big-endian
//! then, for each changed page in ascending order:
//!   page_number     4 bytes  big-endian, counted from 1
//!   page_data       page_size bytes
//! ```
use vstd::prelude::*;
use vstd::string::StringSliceAdditionalSpecFns;
use vstd::utf8::{valid_utf8, decode_utf8, encode_utf8, is_ascii_chars};
use crate::bytes::lemma_encode_concat;
use crate::records::{chars_of, string_of};
use crate::error::{KijukuError, other_text, other_error};

verus! {

broadcast use vstd::std_specs::vec::group_vec_axioms;

/// Length of the header.
pub const DIFF_HEADER_LEN: usize = 30;

/// Length of the base id field.
pub const BASE_ID_LEN: usize = 18;

/// The message of a read that ran past the end of the data.
pub open spec fn eof_text() -> Seq<char> {
    "failed to fill whole buffer"@
}

fn eof_string() -> (r: String)
    ensures
        r@ == eof_text(),
{
    "failed to fill whole buffer".to_string()
}

/// Big-endian bytes of a 32-bit number.
pub open spec fn be32(n: u32) -> Seq<u8> {
    seq![(n >> 24u32) as u8, (n >> 16u32) as u8, (n >> 8u32) as u8, n as u8]
}

/// The 32-bit number held big-endian at `at`.
pub open spec fn be32_at(b: Seq<u8>, at: int) -> u32 {
    ((b[at] as u32) << 24u32) | ((b[at + 1] as u32) << 16u32) | ((b[at + 2] as u32) << 8u32) | (b[at + 3] as u32)
}

proof fn lemma_be32_round_trip(n: u32)
    ensures
        be32_at(be32(n), 0) == n,
{
    let b = be32(n);
    let a0 = (n >> 24u32) as u8;
    let a1 = (n >> 16u32) as u8;
    let a2 = (n >> 8u32) as u8;
    let a3 = n as u8;
    assert(b[0] == a0 && b[1] == a1 && b[2] == a2 && b[3] == a3);
    assert((((a0 as u32) << 24u32) | ((a1 as u32) << 16u32) | ((a2 as u32) << 8u32) | (a3 as u32)) == n)
        by (bit_vector)
        requires
            a0 == (n >> 24u32) as u8,
            a1 == (n >> 16u32) as u8,
            a2 == (n >> 8u32) as u8,
            a3 == n as u8,
    ;
}

fn be32_bytes(n: u32) -> (r: [u8; 4])
    ensures
        r@ == be32(n),
{
    let r = [(n >> 24u32) as u8, (n >> 16u32) as u8, (n >> 8u32) as u8, n as u8];
    assert(r@ =~= be32(n));
    r
}

fn read_be32(b: &[u8], at: usize) -> (r: u32)
    requires
        at + 4 <= b@.len(),
    ensures
        r == be32_at(b@, at as int),
{
    ((b[at] as u32) << 24u32) | ((b[at + 1] as u32) << 16u32) | ((b[at + 2] as u32) << 8u32) | (b[at + 3] as u32)
}

/// The page size that an SQLite database header records (bytes 16 and 17,
/// big-endian; the value 1 stands for 65536).
pub open spec fn header_page_size(h: Seq<u8>) -> u32 {
    let raw = (h[16] as int) * 256 + (h[17] as int);
    if raw == 1 { 65536 } else { raw as u32 }
}

/// The page size of an SQLite database from the first bytes of its file;
/// `None` when fewer than 18 bytes are given.
pub fn get_sqlite_page_size(head: &[u8]) -> (r: Option<u32>)
    ensures
        match r {
            Some(ps) => head@.len() >= 18 && ps == header_page_size(head@),
            None => head@.len() < 18,
        },
{
    if head.len() < 18 {
        return None;
    }
    let raw: u32 = (head[16] as u32) * 256 + (head[17] as u32);
    Some(if raw == 1 { 65536 } else { raw })
}

/// The base id field: the first 18 bytes of the id, padded with zeros.
pub open spec fn id_field(id: Seq<u8>) -> Seq<u8> {
    if id.len() >= 18 {
        id.subrange(0, 18)
    } else {
        id + Seq::new((18 - id.len()) as nat, |i: int| 0u8)
    }
}

/// Page `p` (counted from 1) of `s`.
pub open spec fn page_of(s: Seq<u8>, ps: nat, p: int) -> Seq<u8> {
    s.subrange((p - 1) * ps, p * ps)
}

/// Whether page `p` of `cur` goes into the diff: the base has no such page,
/// or its page differs.
pub open spec fn page_changed(base: Seq<u8>, cur: Seq<u8>, ps: nat, p: int) -> bool {
    p > base.len() / ps || page_of(base, ps, p) != page_of(cur, ps, p)
}

/// The entries for the changed pages among pages 1 to `n`.
pub open spec fn diff_body(base: Seq<u8>, cur: Seq<u8>, ps: nat, n: int) -> Seq<u8>
    decreases n,
{
    if n <= 0 {
        Seq::empty()
    } else if page_changed(base, cur, ps, n) {
        diff_body(base, cur, ps, n - 1) + be32(n as u32) + page_of(cur, ps, n)
    } else {
        diff_body(base, cur, ps, n - 1)
    }
}

/// The number of changed pages among pages 1 to `n`.
pub open spec fn changed_pages(base: Seq<u8>, cur: Seq<u8>, ps: nat, n: int) -> nat
    decreases n,
{
    if n <= 0 {
        0
    } else if page_changed(base, cur, ps, n) {
        changed_pages(base, cur, ps, n - 1) + 1
    } else {
        changed_pages(base, cur, ps, n - 1)
    }
}

/// The diff of `cur` against `base` with page size `ps`, naming the base
/// by `id`. Only whole pages of `cur` count.
pub open spec fn page_diff(id: Seq<u8>, base: Seq<u8>, cur: Seq<u8>, ps: nat) -> Seq<u8> {
    let n = cur.len() / ps;
    id_field(id) + be32(ps as u32) + be32(n as u32) + be32(changed_pages(base, cur, ps, n as int) as u32)
        + diff_body(base, cur, ps, n as int)
}

proof fn lemma_page_bounds(len: nat, ps: nat, p: int)
    requires
        ps > 0,
        1 <= p <= len / ps,
    ensures
        0 <= (p - 1) * ps,
        (p - 1) * ps + ps == p * ps,
        p * ps <= len,
{
    assert((p - 1) * ps + ps == p * ps) by (nonlinear_arith);
    assert(0 <= (p - 1) * ps) by (nonlinear_arith)
        requires
            p >= 1,
    ;
    assert(p * ps <= (len / ps) * ps) by (nonlinear_arith)
        requires
            p <= len / ps,
    ;
    vstd::arithmetic::div_mod::lemma_fundamental_div_mod(len as int, ps as int);
    assert((len / ps) * ps <= len) by (nonlinear_arith)
        requires
            len == ps * (len / ps) + len % ps,
            len % ps >= 0,
    ;
}

fn append_range(out: &mut Vec<u8>, src: &[u8], a: usize, b: usize)
    requires
        a <= b <= src@.len(),
    ensures
        final(out)@ == old(out)@ + src@.subrange(a as int, b as int),
{
    let ghost start = out@;
    let mut i: usize = a;
    while i < b
        invariant
            a <= i <= b <= src@.len(),
            out@ == start + src@.subrange(a as int, i as int),
        decreases b - i,
    {
        out.push(src[i]);
        assert(src@.subrange(a as int, i + 1) =~= src@.subrange(a as int, i as int).push(src@[i as int]));
        i = i + 1;
    }
}

fn append_bytes(out: &mut Vec<u8>, src: &[u8])
    ensures
        final(out)@ == old(out)@ + src@,
{
    append_range(out, src, 0, src.len());
    assert(src@.subrange(0, src@.len() as int) =~= src@);
}

fn pages_equal(a: &[u8], b: &[u8], from: usize, to: usize) -> (r: bool)
    requires
        from <= to <= a@.len(),
        to <= b@.len(),
    ensures
        r == (a@.subrange(from as int, to as int) == b@.subrange(from as int, to as int)),
{
    let mut i: usize = from;
    while i < to
        invariant
            from <= i <= to,
            to <= a@.len(),
            to <= b@.len(),
            a@.subrange(from as int, i as int) == b@.subrange(from as int, i as int),
        decreases to - i,
    {
        if a[i] != b[i] {
            assert(a@.subrange(from as int, to as int)[i - from] != b@.subrange(from as int, to as int)[i - from]);
            return false;
        }
        assert(a@.subrange(from as int, i + 1) =~= a@.subrange(from as int, i as int).push(a@[i as int]));
        assert(b@.subrange(from as int, i + 1) =~= b@.subrange(from as int, i as int).push(b@[i as int]));
        i = i + 1;
    }
    true
}

/// The diff of `current` against `base` with page size `page_size`,
/// naming the base by `base_id`.
pub fn encode_page_diff(base_id: &str, page_size: u32, base: &[u8], current: &[u8]) -> (r: Vec<u8>)
    requires
        page_size > 0,
        current@.len() / (page_size as nat) <= u32::MAX,
    ensures
        r@ == page_diff(base_id.spec_bytes(), base@, current@, page_size as nat),
{
    let ghost ps = page_size as nat;
    let psz = page_size as usize;
    let clen = current.len();
    let n = clen / psz;
    let nb = base.len() / psz;
    let ghost idb = base_id.spec_bytes();
    let mut out: Vec<u8> = Vec::new();
    let idv = base_id.as_bytes();
    let take = if idv.len() < 18 { idv.len() } else { 18 };
    append_range(&mut out, idv, 0, take);
    while out.len() < 18
        invariant
            take == (if idb.len() < 18 { idb.len() } else { 18 }),
            take <= out@.len() <= 18,
            out@.subrange(0, take as int) == idb.subrange(0, take as int),
            forall|k: int| take <= k < out@.len() ==> out@[k] == 0u8,
        decreases 18 - out@.len(),
    {
        let ghost prev = out@;
        out.push(0u8);
        assert(out@.subrange(0, take as int) =~= prev.subrange(0, take as int));
    }
    proof {
        if idb.len() >= 18 {
            assert(out@.len() == 18);
            assert(out@ =~= out@.subrange(0, 18));
            assert(out@ =~= id_field(idb));
        } else {
            assert forall|k: int| 0 <= k < take implies out@[k] == idb[k] by {
                assert(out@.subrange(0, take as int)[k] == idb.subrange(0, take as int)[k]);
            }
            assert(out@ =~= id_field(idb));
        }
    }
    let ghost head = out@;
    let mut body: Vec<u8> = Vec::new();
    let mut count: u32 = 0;
    let mut p: u64 = 1;
    let mut off: usize = 0;
    while p <= n as u64
        invariant
            ps == page_size as nat,
            psz == page_size as usize,
            page_size > 0,
            clen == current@.len(),
            n == current@.len() / ps,
            nb == base@.len() / ps,
            n <= u32::MAX,
            1 <= p <= n + 1,
            off == (p - 1) * ps,
            body@ == diff_body(base@, current@, ps, p - 1),
            count == changed_pages(base@, current@, ps, p - 1),
            count <= p - 1,
        decreases n + 1 - p,
    {
        proof {
            lemma_page_bounds(current@.len(), ps, p as int);
        }
        assert(off + psz <= current@.len());
        let end = off + psz;
        let changed = if p <= nb as u64 {
            proof {
                lemma_page_bounds(base@.len(), ps, p as int);
            }
            !pages_equal(base, current, off, end)
        } else {
            true
        };
        if changed {
            let num = be32_bytes(p as u32);
            append_bytes(&mut body, &num);
            append_range(&mut body, current, off, end);
            count = count + 1;
        }
        proof {
            assert(page_changed(base@, current@, ps, p as int) == changed);
            if changed {
                assert(body@ =~= diff_body(base@, current@, ps, p - 1) + be32(p as u32) + page_of(current@, ps, p as int));
            }
        }
        off = end;
        p = p + 1;
    }
    let total = be32_bytes(n as u32);
    let size = be32_bytes(page_size);
    let changed = be32_bytes(count);
    append_bytes(&mut out, &size);
    append_bytes(&mut out, &total);
    append_bytes(&mut out, &changed);
    append_bytes(&mut out, body.as_slice());
    proof {
        assert(p - 1 == n);
        assert(out@ =~= page_diff(idb, base@, current@, ps));
    }
    out
}

/// Where entry `k` (counted from 0) begins.
pub open spec fn entry_start(ps: nat, k: nat) -> int {
    (30 + k * (4 + ps)) as int
}

/// The page number of entry `k`.
pub open spec fn entry_number(d: Seq<u8>, ps: nat, k: nat) -> u32 {
    be32_at(d, entry_start(ps, k))
}

/// The page data of entry `k`.
pub open spec fn entry_page(d: Seq<u8>, ps: nat, k: nat) -> Seq<u8> {
    d.subrange(entry_start(ps, k) + 4, entry_start(ps, k) + 4 + ps)
}

/// The error of reading entry `k`, if the data ends before it does.
pub open spec fn entry_error(d: Seq<u8>, ps: nat, k: nat) -> Option<Seq<char>> {
    if d.len() < entry_start(ps, k) + 4 {
        Some("Diff read error: "@ + eof_text())
    } else if d.len() < entry_start(ps, k) + 4 + ps {
        Some("Diff page read error: "@ + eof_text())
    } else {
        None
    }
}

/// A page of zeros.
pub open spec fn zero_page(ps: nat) -> Seq<u8> {
    Seq::new(ps, |i: int| 0u8)
}

/// `front` before the bytes of `r`, or the error of `r`.
pub open spec fn then_prepend(front: Seq<u8>, r: Result<Seq<u8>, Seq<char>>) -> Result<Seq<u8>, Seq<char>> {
    match r {
        Ok(rest) => Ok(front + rest),
        Err(e) => Err(e),
    }
}

/// Pages `p` to `total` of the restored file, entry `k` being the next one
/// not yet used (there is none when `k` reaches `count`): the entry's page
/// where its number is `p`, else the base's page, else zeros. Entries are
/// read one after the other; one that the data cuts short is an error.
pub open spec fn merged(base: Seq<u8>, d: Seq<u8>, ps: nat, total: nat, count: nat, p: nat, k: nat)
    -> Result<Seq<u8>, Seq<char>>
    decreases total + 1 - p,
{
    if p == 0 || p > total {
        Ok(Seq::empty())
    } else if k < count && entry_number(d, ps, k) as nat == p {
        if k + 1 < count && entry_error(d, ps, k + 1) is Some {
            Err(entry_error(d, ps, k + 1).unwrap())
        } else {
            then_prepend(entry_page(d, ps, k), merged(base, d, ps, total, count, p + 1, k + 1))
        }
    } else if p <= base.len() / ps {
        then_prepend(page_of(base, ps, p as int), merged(base, d, ps, total, count, p + 1, k))
    } else {
        then_prepend(zero_page(ps), merged(base, d, ps, total, count, p + 1, k))
    }
}

/// The page size a diff records.
pub open spec fn diff_page_size(d: Seq<u8>) -> nat {
    be32_at(d, 18) as nat
}

/// The file that applying diff `d` to `base` gives, or the message of the
/// error that stops it.
pub open spec fn applied(base: Seq<u8>, d: Seq<u8>) -> Result<Seq<u8>, Seq<char>> {
    if d.len() < 30 {
        Err("Invalid diff file: "@ + eof_text())
    } else {
        let ps = diff_page_size(d);
        let total = be32_at(d, 22) as nat;
        let count = be32_at(d, 26) as nat;
        if count > 0 && entry_error(d, ps, 0) is Some {
            Err(entry_error(d, ps, 0).unwrap())
        } else {
            merged(base, d, ps, total, count, 1, 0)
        }
    }
}

proof fn lemma_entry_next(ps: nat, k: nat)
    ensures
        entry_start(ps, k + 1) == entry_start(ps, k) + 4 + ps,
        entry_start(ps, k) >= 30,
{
    assert((k + 1) * (4 + ps) == k * (4 + ps) + 4 + ps) by (nonlinear_arith);
    assert(k * (4 + ps) >= 0) by (nonlinear_arith);
}

fn append_zeros(out: &mut Vec<u8>, n: usize)
    ensures
        final(out)@ == old(out)@ + zero_page(n as nat),
{
    let ghost start = out@;
    let mut i: usize = 0;
    while i < n
        invariant
            i <= n,
            out@ == start + zero_page(i as nat),
        decreases n - i,
    {
        out.push(0u8);
        assert(zero_page((i + 1) as nat) =~= zero_page(i as nat).push(0u8));
        i = i + 1;
    }
}

fn entry_check(d: &[u8], at: usize, psz: usize) -> (r: Option<String>)
    requires
        at <= d@.len(),
    ensures
        match r {
            Some(m) => (d@.len() < at + 4 && m@ == "Diff read error: "@ + eof_text())
                || (d@.len() >= at + 4 && d@.len() < at + 4 + psz && m@ == "Diff page read error: "@ + eof_text()),
            None => d@.len() >= at + 4 + psz,
        },
{
    let rest = d.len() - at;
    if rest < 4 {
        let mut m = "Diff read error: ".to_string();
        m.append(eof_string().as_str());
        Some(m)
    } else if rest - 4 < psz {
        let mut m = "Diff page read error: ".to_string();
        m.append(eof_string().as_str());
        Some(m)
    } else {
        None
    }
}

/// Restores a file from its base and a diff.
pub fn apply_page_diff(base: &[u8], diff: &[u8]) -> (r: Result<Vec<u8>, KijukuError>)
    requires
        diff@.len() >= 30 ==> diff_page_size(diff@) > 0,
    ensures
        match r {
            Ok(v) => applied(base@, diff@) == Ok::<Seq<u8>, Seq<char>>(v@),
            Err(e) => other_text(e) matches Some(m) && applied(base@, diff@) == Err::<Seq<u8>, Seq<char>>(m),
        },
{
    if diff.len() < 30 {
        let mut m = "Invalid diff file: ".to_string();
        m.append(eof_string().as_str());
        return Err(other_error(m));
    }
    let dlen = diff.len();
    let ps32 = read_be32(diff, 18);
    let total32 = read_be32(diff, 22);
    let count32 = read_be32(diff, 26);
    let ghost ps = ps32 as nat;
    let ghost total = total32 as nat;
    let ghost count = count32 as nat;
    let psz = ps32 as usize;
    let total = total32 as u64;
    let count = count32 as u64;
    let blen = base.len();
    let nb = blen / psz;
    let mut at: usize = 30;
    if count > 0 {
        proof {
            lemma_entry_next(ps, 0);
        }
        match entry_check(diff, at, psz) {
            Some(m) => {
                return Err(other_error(m));
            },
            None => {},
        }
    }
    let mut out: Vec<u8> = Vec::new();
    let mut p: u64 = 1;
    let mut k: u64 = 0;
    let mut boff: usize = 0;
    assert(out@ + Seq::<u8>::empty() =~= out@);
    while p <= total
        invariant
            ps == psz as nat,
            ps > 0,
            dlen == diff@.len(),
            blen == base@.len(),
            nb == base@.len() / ps,
            total == total32 as u64,
            count == count32 as u64,
            ps == diff_page_size(diff@),
            total32 == be32_at(diff@, 22),
            count32 == be32_at(diff@, 26),
            diff@.len() >= 30,
            !(count > 0 && entry_error(diff@, ps, 0) is Some),
            1 <= p <= total + 1,
            k <= count,
            k < count ==> at == entry_start(ps, k as nat) && at + 4 + ps <= diff@.len(),
            p <= nb + 1 ==> boff == (p - 1) * ps,
            applied(base@, diff@) == then_prepend(out@, merged(base@, diff@, ps, total as nat, count as nat, p as nat, k as nat)),
        decreases total + 1 - p,
    {
        let ghost before = out@;
        let hit = k < count && read_be32(diff, at) as u64 == p;
        if hit {
            append_range(&mut out, diff, at + 4, at + 4 + psz);
            if k + 1 < count {
                proof {
                    lemma_entry_next(ps, k as nat);
                }
                let next = at + 4 + psz;
                match entry_check(diff, next, psz) {
                    Some(m) => {
                        return Err(other_error(m));
                    },
                    None => {},
                }
                at = next;
            }
            proof {
                assert(before + (entry_page(diff@, ps, k as nat) + (merged(base@, diff@, ps, total as nat, count as nat, (p + 1) as nat, (k + 1) as nat)->Ok_0))
                    =~= out@ + (merged(base@, diff@, ps, total as nat, count as nat, (p + 1) as nat, (k + 1) as nat)->Ok_0));
            }
            k = k + 1;
        } else if p <= nb as u64 {
            proof {
                lemma_page_bounds(base@.len(), ps, p as int);
            }
            append_range(&mut out, base, boff, boff + psz);
            proof {
                assert(before + (page_of(base@, ps, p as int) + (merged(base@, diff@, ps, total as nat, count as nat, (p + 1) as nat, k as nat)->Ok_0))
                    =~= out@ + (merged(base@, diff@, ps, total as nat, count as nat, (p + 1) as nat, k as nat)->Ok_0));
            }
        } else {
            append_zeros(&mut out, psz);
            proof {
                assert(before + (zero_page(ps) + (merged(base@, diff@, ps, total as nat, count as nat, (p + 1) as nat, k as nat)->Ok_0))
                    =~= out@ + (merged(base@, diff@, ps, total as nat, count as nat, (p + 1) as nat, k as nat)->Ok_0));
            }
        }
        if p <= nb as u64 {
            proof {
                lemma_page_bounds(base@.len(), ps, p as int);
            }
            boff = boff + psz;
        }
        p = p + 1;
    }
    assert(out@ + Seq::<u8>::empty() =~= out@);
    Ok(out)
}

proof fn lemma_changed_mono(base: Seq<u8>, cur: Seq<u8>, ps: nat, m: int, n: int)
    requires
        0 <= m <= n,
    ensures
        changed_pages(base, cur, ps, m) <= changed_pages(base, cur, ps, n),
        changed_pages(base, cur, ps, n) <= changed_pages(base, cur, ps, m) + (n - m),
    decreases n - m,
{
    if m < n {
        lemma_changed_mono(base, cur, ps, m, n - 1);
    }
}

proof fn lemma_whole_pages(len: nat, ps: nat)
    requires
        ps > 0,
    ensures
        (len / ps) * ps <= len,
        0 <= (len / ps) * ps,
{
    vstd::arithmetic::div_mod::lemma_fundamental_div_mod(len as int, ps as int);
    assert((len / ps) * ps <= len) by (nonlinear_arith)
        requires
            len == ps * (len / ps) + len % ps,
            len % ps >= 0,
    ;
    assert(0 <= (len / ps) * ps) by (nonlinear_arith);
}

proof fn lemma_page_len(cur: Seq<u8>, ps: nat, p: int)
    requires
        ps > 0,
        1 <= p <= cur.len() / ps,
    ensures
        page_of(cur, ps, p).len() == ps,
{
    lemma_page_bounds(cur.len(), ps, p);
}

proof fn lemma_body_len(base: Seq<u8>, cur: Seq<u8>, ps: nat, m: int)
    requires
        ps > 0,
        0 <= m <= cur.len() / ps,
    ensures
        diff_body(base, cur, ps, m).len() == changed_pages(base, cur, ps, m) * (4 + ps),
    decreases m,
{
    if m > 0 {
        lemma_body_len(base, cur, ps, m - 1);
        let c = changed_pages(base, cur, ps, m - 1);
        if page_changed(base, cur, ps, m) {
            lemma_page_len(cur, ps, m);
            assert((c + 1) * (4 + ps) == c * (4 + ps) + 4 + ps) by (nonlinear_arith);
            assert(be32(m as u32).len() == 4);
            assert(diff_body(base, cur, ps, m) == diff_body(base, cur, ps, m - 1) + be32(m as u32) + page_of(cur, ps, m));
            assert(changed_pages(base, cur, ps, m) == c + 1);
            assert(diff_body(base, cur, ps, m).len() == c * (4 + ps) + 4 + ps);
        } else {
            assert(diff_body(base, cur, ps, m) == diff_body(base, cur, ps, m - 1));
            assert(changed_pages(base, cur, ps, m) == c);
        }
    } else {
        assert(diff_body(base, cur, ps, m).len() == 0);
        assert(changed_pages(base, cur, ps, m) == 0);
    }
}

proof fn lemma_body_prefix(base: Seq<u8>, cur: Seq<u8>, ps: nat, m: int, n: int)
    requires
        ps > 0,
        0 <= m <= n <= cur.len() / ps,
    ensures
        diff_body(base, cur, ps, m).len() <= diff_body(base, cur, ps, n).len(),
        diff_body(base, cur, ps, n).subrange(0, diff_body(base, cur, ps, m).len() as int) == diff_body(base, cur, ps, m),
    decreases n - m,
{
    let bm = diff_body(base, cur, ps, m);
    if m < n {
        lemma_body_prefix(base, cur, ps, m, n - 1);
        let bp = diff_body(base, cur, ps, n - 1);
        let bn = diff_body(base, cur, ps, n);
        assert(bn.subrange(0, bp.len() as int) =~= bp);
        assert(bn.subrange(0, bm.len() as int) =~= bp.subrange(0, bm.len() as int));
    } else {
        assert(bm.subrange(0, bm.len() as int) =~= bm);
    }
}

/// The entry of a changed page `q` sits at position `changed_pages(q - 1)`
/// of the body.
proof fn lemma_entry_of(base: Seq<u8>, cur: Seq<u8>, ps: nat, q: int, n: int)
    requires
        ps > 0,
        1 <= q <= n <= cur.len() / ps,
        q <= u32::MAX,
        page_changed(base, cur, ps, q),
    ensures
        ({
            let b = diff_body(base, cur, ps, n);
            let at = (changed_pages(base, cur, ps, q - 1) * (4 + ps)) as int;
            &&& at + 4 + ps <= b.len()
            &&& b.subrange(at, at + 4) == be32(q as u32)
            &&& b.subrange(at + 4, at + 4 + ps) == page_of(cur, ps, q)
        }),
{
    let b = diff_body(base, cur, ps, n);
    let bq = diff_body(base, cur, ps, q);
    let bq1 = diff_body(base, cur, ps, q - 1);
    let at = (changed_pages(base, cur, ps, q - 1) * (4 + ps)) as int;
    lemma_body_len(base, cur, ps, q - 1);
    lemma_page_len(cur, ps, q);
    lemma_body_prefix(base, cur, ps, q, n);
    assert(bq == bq1 + be32(q as u32) + page_of(cur, ps, q));
    assert(bq.len() == at + 4 + ps);
    assert(bq1.len() == at);
    assert(bq.len() <= b.len());
    let pre = b.subrange(0, bq.len() as int);
    assert(pre == bq);
    assert(b.subrange(at, at + 4) =~= be32(q as u32)) by {
        assert forall|i: int| 0 <= i < 4 implies #[trigger] b.subrange(at, at + 4)[i] == be32(q as u32)[i] by {
            assert(b.subrange(at, at + 4)[i] == b[at + i]);
            assert(pre[at + i] == b[at + i]);
            assert(bq[at + i] == be32(q as u32)[i]);
        }
    }
    assert(b.subrange(at + 4, at + 4 + ps) =~= page_of(cur, ps, q)) by {
        assert forall|i: int| 0 <= i < ps implies #[trigger] b.subrange(at + 4, at + 4 + ps)[i] == page_of(cur, ps, q)[i] by {
            assert(b.subrange(at + 4, at + 4 + ps)[i] == b[at + 4 + i]);
            assert(pre[at + 4 + i] == b[at + 4 + i]);
            assert(bq[at + 4 + i] == page_of(cur, ps, q)[i]);
        }
    }
}

/// Each entry belongs to a changed page.
proof fn lemma_entry_page(base: Seq<u8>, cur: Seq<u8>, ps: nat, k: nat, n: int) -> (q: int)
    requires
        0 <= n,
        k < changed_pages(base, cur, ps, n),
    ensures
        1 <= q <= n,
        page_changed(base, cur, ps, q),
        changed_pages(base, cur, ps, q - 1) == k,
    decreases n,
{
    if k < changed_pages(base, cur, ps, n - 1) {
        lemma_entry_page(base, cur, ps, k, n - 1)
    } else {
        n
    }
}

/// Restoring from a diff gives back the whole pages of the file it was made
/// from, whatever the base.
pub proof fn law_page_diff_round_trip(id: Seq<u8>, base: Seq<u8>, cur: Seq<u8>, ps: nat)
    requires
        0 < ps <= u32::MAX,
        cur.len() / ps <= u32::MAX,
    ensures
        applied(base, page_diff(id, base, cur, ps)) == Ok::<Seq<u8>, Seq<char>>(cur.subrange(0, ((cur.len() / ps) * ps) as int)),
{
    let n = (cur.len() / ps) as int;
    let c = changed_pages(base, cur, ps, n);
    let body = diff_body(base, cur, ps, n);
    let d = page_diff(id, base, cur, ps);
    let h = id_field(id) + be32(ps as u32) + be32(n as u32) + be32(c as u32);
    lemma_changed_mono(base, cur, ps, 0, n);
    lemma_body_len(base, cur, ps, n);
    assert(id_field(id).len() == 18);
    assert(h.len() == 30);
    assert(d == h + body);
    assert forall|x: int| 0 <= x < body.len() implies #[trigger] d[30 + x] == body[x] by {}
    lemma_be32_round_trip(ps as u32);
    lemma_be32_round_trip(n as u32);
    lemma_be32_round_trip(c as u32);
    assert(be32_at(d, 18) == ps as u32) by {
        assert(d[18] == be32(ps as u32)[0] && d[19] == be32(ps as u32)[1] && d[20] == be32(ps as u32)[2] && d[21] == be32(ps as u32)[3]);
    }
    assert(be32_at(d, 22) == n as u32) by {
        assert(d[22] == be32(n as u32)[0] && d[23] == be32(n as u32)[1] && d[24] == be32(n as u32)[2] && d[25] == be32(n as u32)[3]);
    }
    assert(be32_at(d, 26) == c as u32) by {
        assert(d[26] == be32(c as u32)[0] && d[27] == be32(c as u32)[1] && d[28] == be32(c as u32)[2] && d[29] == be32(c as u32)[3]);
    }
    assert(d.len() == 30 + c * (4 + ps));
    lemma_merge(id, base, cur, ps, 1);
    assert(entry_start(ps, 0) == 30);
    if c > 0 {
        assert(c * (4 + ps) >= 4 + ps) by (nonlinear_arith)
            requires
                c >= 1,
        ;
    }
    assert((1 - 1) * ps == 0);
}

proof fn lemma_merge(id: Seq<u8>, base: Seq<u8>, cur: Seq<u8>, ps: nat, p: int)
    requires
        0 < ps <= u32::MAX,
        cur.len() / ps <= u32::MAX,
        1 <= p <= cur.len() / ps + 1,
    ensures
        ({
            let n = (cur.len() / ps) as int;
            let c = changed_pages(base, cur, ps, n);
            merged(base, page_diff(id, base, cur, ps), ps, n as nat, c, p as nat, changed_pages(base, cur, ps, p - 1))
                == Ok::<Seq<u8>, Seq<char>>(cur.subrange((p - 1) * ps, n * ps))
        }),
    decreases cur.len() / ps + 1 - p,
{
    let n = (cur.len() / ps) as int;
    let c = changed_pages(base, cur, ps, n);
    let body = diff_body(base, cur, ps, n);
    let d = page_diff(id, base, cur, ps);
    let h = id_field(id) + be32(ps as u32) + be32(n as u32) + be32(c as u32);
    let k = changed_pages(base, cur, ps, p - 1);
    let e = (4 + ps) as int;
    lemma_body_len(base, cur, ps, n);
    lemma_whole_pages(cur.len(), ps);
    assert(id_field(id).len() == 18);
    assert(d == h + body);
    if p > n {
        assert(cur.subrange((p - 1) * ps, n * ps) =~= Seq::<u8>::empty());
    } else {
        lemma_merge(id, base, cur, ps, p + 1);
        lemma_page_bounds(cur.len(), ps, p);
        lemma_changed_mono(base, cur, ps, p, n);
        lemma_changed_mono(base, cur, ps, p - 1, p);
        let rest = cur.subrange(p * ps, n * ps);
        assert(n * ps <= cur.len()) by {
            lemma_page_bounds(cur.len(), ps, n);
        }
        assert(p * ps <= n * ps) by (nonlinear_arith)
            requires
                p <= n,
                ps > 0,
        ;
        assert(cur.subrange((p - 1) * ps, n * ps) =~= page_of(cur, ps, p) + rest);
        if page_changed(base, cur, ps, p) {
            lemma_entry_of(base, cur, ps, p, n);
            let at = k * e;
            assert(entry_start(ps, k) == 30 + at);
            assert(be32_at(d, 30 + at) == be32_at(body.subrange(at, at + 4), 0)) by {
                assert(d[30 + at] == body.subrange(at, at + 4)[0]);
                assert(d[30 + at + 1] == body.subrange(at, at + 4)[1]);
                assert(d[30 + at + 2] == body.subrange(at, at + 4)[2]);
                assert(d[30 + at + 3] == body.subrange(at, at + 4)[3]);
            }
            lemma_be32_round_trip(p as u32);
            assert(entry_number(d, ps, k) as nat == p);
            assert(k < c);
            assert(entry_page(d, ps, k) =~= page_of(cur, ps, p)) by {
                assert forall|i: int| 0 <= i < ps implies #[trigger] d[30 + at + 4 + i] == body.subrange(at + 4, at + 4 + ps)[i] by {}
            }
            if k + 1 < c {
                lemma_entry_next(ps, k);
                lemma_entry_next(ps, k + 1);
                assert(d.len() == 30 + c * e);
                assert((k + 2) * e <= c * e) by (nonlinear_arith)
                    requires
                        k + 2 <= c,
                        e >= 0,
                ;
                assert(entry_start(ps, (k + 2) as nat) == 30 + (k + 2) * e);
                assert(entry_error(d, ps, k + 1) is None);
            }
        } else {
            assert(p <= base.len() / ps);
            if k < c {
                let q = lemma_entry_page(base, cur, ps, k, n);
                lemma_entry_of(base, cur, ps, q, n);
                let at = k * e;
                assert(be32_at(d, 30 + at) == be32_at(body.subrange(at, at + 4), 0)) by {
                    assert(d[30 + at] == body.subrange(at, at + 4)[0]);
                    assert(d[30 + at + 1] == body.subrange(at, at + 4)[1]);
                    assert(d[30 + at + 2] == body.subrange(at, at + 4)[2]);
                    assert(d[30 + at + 3] == body.subrange(at, at + 4)[3]);
                }
                lemma_be32_round_trip(q as u32);
                assert(entry_number(d, ps, k) as nat == q);
                assert(q != p);
            }
        }
    }
}

/// The diff of `current` against `base`, with the page size that the
/// base's header records. Fails when the base holds fewer than 18 bytes.
pub fn create_diff_file(base_id: &str, base: &[u8], current: &[u8]) -> (r: Result<Vec<u8>, KijukuError>)
    requires
        base@.len() >= 18 ==> header_page_size(base@) > 0,
        base@.len() >= 18 ==> current@.len() / (header_page_size(base@) as nat) <= u32::MAX,
    ensures
        match r {
            Ok(v) => base@.len() >= 18
                && v@ == page_diff(base_id.spec_bytes(), base@, current@, header_page_size(base@) as nat),
            Err(e) => base@.len() < 18 && other_text(e) == Some("Failed to read page size: "@ + eof_text()),
        },
{
    match get_sqlite_page_size(base) {
        Some(ps) => Ok(encode_page_diff(base_id, ps, base, current)),
        None => {
            let mut m = "Failed to read page size: ".to_string();
            m.append(eof_string().as_str());
            Err(other_error(m))
        },
    }
}

/// Decodes UTF-8 bytes into a string.
///
/// Calls `std::str::from_utf8`, which succeeds exactly on well-formed UTF-8;
/// the contract states that in vstd's terms and says that the text is the
/// decoded one.
#[verifier::external_body]
fn utf8_string(b: &[u8]) -> (r: Option<String>)
    ensures
        match r {
            Some(s) => valid_utf8(b@) && s@ == decode_utf8(b@),
            None => !valid_utf8(b@),
        },
{
    match std::str::from_utf8(b) {
        Ok(s) => Some(s.to_string()),
        Err(_) => None,
    }
}

/// The text without its trailing NUL characters.
pub open spec fn without_trailing_nul(s: Seq<char>) -> Seq<char>
    decreases s.len(),
{
    if s.len() > 0 && s.last() == '\0' {
        without_trailing_nul(s.drop_last())
    } else {
        s
    }
}

/// The base id that a diff names: its id field read as UTF-8 (empty when it
/// is not UTF-8), without trailing NULs.
pub open spec fn base_id_of(d: Seq<u8>) -> Seq<char> {
    let f = d.subrange(0, 18);
    if valid_utf8(f) {
        without_trailing_nul(decode_utf8(f))
    } else {
        Seq::empty()
    }
}

/// The base id named by a diff whose first bytes are `head`; an I/O error
/// when fewer than 18 bytes are given.
pub fn read_diff_base_id(head: &[u8]) -> (r: Result<String, KijukuError>)
    ensures
        match r {
            Ok(s) => head@.len() >= 18 && s@ == base_id_of(head@),
            Err(e) => head@.len() < 18 && (e matches KijukuError::Io(m) && m@ == eof_text()),
        },
{
    if head.len() < 18 {
        return Err(KijukuError::Io(eof_string()));
    }
    let field = vstd::slice::slice_subrange(head, 0, 18);
    match utf8_string(field) {
        None => Ok(String::new()),
        Some(s) => {
            let cs = chars_of(s.as_str());
            let mut end: usize = cs.len();
            assert(cs@.take(end as int) =~= cs@);
            while end > 0 && cs[end - 1] == '\0'
                invariant
                    end <= cs@.len(),
                    without_trailing_nul(cs@) == without_trailing_nul(cs@.take(end as int)),
                decreases end,
            {
                assert(cs@.take(end as int).drop_last() =~= cs@.take(end - 1));
                end = end - 1;
            }
            proof {
                assert(cs@.take(end as int) =~= cs@.subrange(0, end as int));
                if end == cs@.len() {
                    assert(cs@.take(end as int) =~= cs@);
                }
            }
            Ok(string_of(&cs, 0, end))
        },
    }
}

proof fn lemma_trim_nuls(id: Seq<char>, k: nat)
    requires
        id.len() == 0 || id.last() != '\0',
    ensures
        without_trailing_nul(id + Seq::new(k, |i: int| '\0')) == id,
    decreases k,
{
    let z = Seq::new(k, |i: int| '\0');
    if k == 0 {
        assert(id + z =~= id);
    } else {
        let z1 = Seq::new((k - 1) as nat, |i: int| '\0');
        assert((id + z).drop_last() =~= id + z1);
        lemma_trim_nuls(id, (k - 1) as nat);
    }
}

/// A diff names its base: reading the base id back gives the id it was made
/// with, for an id of at most 18 bytes that does not end in NUL.
pub proof fn law_diff_names_its_base(id: Seq<char>, base: Seq<u8>, cur: Seq<u8>, ps: nat)
    requires
        ps > 0,
        encode_utf8(id).len() <= 18,
        id.len() == 0 || id.last() != '\0',
    ensures
        base_id_of(page_diff(encode_utf8(id), base, cur, ps)) == id,
{
    let idb = encode_utf8(id);
    let k = (18 - idb.len()) as nat;
    let nuls = Seq::new(k, |i: int| '\0');
    let d = page_diff(idb, base, cur, ps);
    assert(is_ascii_chars(nuls));
    vstd::utf8::is_ascii_chars_encode_utf8(nuls);
    assert(encode_utf8(nuls) =~= Seq::new(k, |i: int| 0u8));
    lemma_encode_concat(id, nuls);
    let f = id_field(idb);
    assert(f =~= encode_utf8(id + nuls));
    assert(d.subrange(0, 18) =~= f);
    vstd::utf8::encode_utf8_valid_utf8(id + nuls);
    vstd::utf8::encode_utf8_decode_utf8(id + nuls);
    lemma_trim_nuls(id, k);
}

} // verus!
