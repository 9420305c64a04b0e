//! Keyed tables held as vectors sorted by key, and the comparison of two
//! such tables (rows only on one side, rows on both sides that differ).
use vstd::prelude::*;
use crate::order::{ints, lex_lt, lemma_lex_lt_irreflexive, lemma_lex_lt_transitive, lemma_lex_lt_asymmetric, lemma_lex_lt_total, compare_keys, KeyOrder};

verus! {

broadcast use vstd::std_specs::vec::group_vec_axioms;

/// A row of a keyed table: it has an integer-sequence key and a value by
/// which two rows are compared.
pub trait TableRow: Sized + View {
    /// The key of a row value.
    spec fn key_of(v: Self::V) -> Seq<int>;

    /// The key of this row.
    fn row_key(&self) -> (k: Vec<i64>)
        ensures
            ints(k@) == Self::key_of(self@);

    /// Whether two rows have the same value.
    fn row_same(&self, other: &Self) -> (r: bool)
        ensures
            r == (self@ == other@);

    /// A copy of this row.
    fn row_copy(&self) -> (r: Self)
        ensures
            r@ == self@;
}

/// The values of a sequence of rows.
pub open spec fn views<T: View>(s: Seq<T>) -> Seq<T::V> {
    s.map_values(|x: T| x@)
}

/// A row present on both sides with different values.
pub struct RowChange<T> {
    /// The row of the current table.
    pub current: T,
    /// The row of the backup table.
    pub backup: T,
}

/// Rows only on one side and rows that differ, between a current and a backup table.
pub struct TableDiff<T> {
    /// Rows only in the backup (a restore brings them back).
    pub added: Vec<T>,
    /// Rows only in the current table (a restore loses them).
    pub removed: Vec<T>,
    /// Rows in both with different values (a restore overwrites them).
    pub changed: Vec<RowChange<T>>,
}

/// The value pairs of a sequence of changes.
pub open spec fn change_views<T: View>(s: Seq<RowChange<T>>) -> Seq<(T::V, T::V)> {
    s.map_values(|c: RowChange<T>| (c.current@, c.backup@))
}

/// Rows sorted strictly ascending by key (so no key occurs twice).
pub open spec fn table_sorted<T: TableRow>(s: Seq<T::V>) -> bool {
    forall|i: int, j: int|
        0 <= i < j < s.len() ==> lex_lt(#[trigger] T::key_of(s[i]), #[trigger] T::key_of(s[j]))
}

/// Some row of `s` has key `k`.
pub open spec fn key_in<T: TableRow>(s: Seq<T::V>, k: Seq<int>) -> bool {
    exists|i: int| 0 <= i < s.len() && #[trigger] T::key_of(s[i]) == k
}

/// A position of `s` holding key `k` (meaningful when `key_in(s, k)`).
pub open spec fn key_index<T: TableRow>(s: Seq<T::V>, k: Seq<int>) -> int {
    choose|i: int| 0 <= i < s.len() && #[trigger] T::key_of(s[i]) == k
}

/// The row of `s` with key `k` (meaningful when `key_in(s, k)`).
pub open spec fn row_with_key<T: TableRow>(s: Seq<T::V>, k: Seq<int>) -> T::V {
    s[key_index::<T>(s, k)]
}

/// The rows of `b`, in order, whose key occurs in no row of `a`.
pub open spec fn only_in<T: TableRow>(a: Seq<T::V>, b: Seq<T::V>) -> Seq<T::V>
    decreases b.len(),
{
    if b.len() == 0 {
        Seq::empty()
    } else {
        let rest = only_in::<T>(a, b.drop_last());
        if key_in::<T>(a, T::key_of(b.last())) {
            rest
        } else {
            rest.push(b.last())
        }
    }
}

/// For the rows of `b`, in order, whose key also occurs in `a` with a
/// different value: the pair (row of `a`, row of `b`).
pub open spec fn changed_pairs<T: TableRow>(a: Seq<T::V>, b: Seq<T::V>) -> Seq<(T::V, T::V)>
    decreases b.len(),
{
    if b.len() == 0 {
        Seq::empty()
    } else {
        let rest = changed_pairs::<T>(a, b.drop_last());
        let k = T::key_of(b.last());
        if key_in::<T>(a, k) && row_with_key::<T>(a, k) != b.last() {
            rest.push((row_with_key::<T>(a, k), b.last()))
        } else {
            rest
        }
    }
}

proof fn lemma_row_with_key_unique<T: TableRow>(s: Seq<T::V>, i: int)
    requires
        table_sorted::<T>(s),
        0 <= i < s.len(),
    ensures
        key_in::<T>(s, T::key_of(s[i])),
        row_with_key::<T>(s, T::key_of(s[i])) == s[i],
{
    let k = T::key_of(s[i]);
    assert(key_in::<T>(s, k));
    let c = key_index::<T>(s, k);
    assert(0 <= c < s.len() && T::key_of(s[c]) == k);
    if c < i {
        assert(lex_lt(T::key_of(s[c]), T::key_of(s[i])));
        lemma_lex_lt_irreflexive(k);
    } else if c > i {
        assert(lex_lt(T::key_of(s[i]), T::key_of(s[c])));
        lemma_lex_lt_irreflexive(k);
    }
}

/// Splits two sorted tables into: rows only in `backup`, rows only in
/// `current`, and (current, backup) pairs of rows with the same key and
/// different values, each in key order.
pub fn diff_rows<T: TableRow>(current: &Vec<T>, backup: &Vec<T>) -> (r: TableDiff<T>)
    requires
        table_sorted::<T>(views(current@)),
        table_sorted::<T>(views(backup@)),
    ensures
        views(r.added@) == only_in::<T>(views(current@), views(backup@)),
        views(r.removed@) == only_in::<T>(views(backup@), views(current@)),
        change_views(r.changed@) == changed_pairs::<T>(views(current@), views(backup@)),
{
    let ghost vc = views(current@);
    let ghost vb = views(backup@);
    let mut ck: Vec<Vec<i64>> = Vec::new();
    let mut n: usize = 0;
    while n < current.len()
        invariant
            n <= current@.len(),
            vc == views(current@),
            ck@.len() == n,
            forall|x: int| 0 <= x < n ==> ints(#[trigger] ck@[x]@) == T::key_of(vc[x]),
        decreases current@.len() - n,
    {
        ck.push(current[n].row_key());
        n = n + 1;
    }
    let mut bk: Vec<Vec<i64>> = Vec::new();
    n = 0;
    while n < backup.len()
        invariant
            n <= backup@.len(),
            vb == views(backup@),
            bk@.len() == n,
            forall|x: int| 0 <= x < n ==> ints(#[trigger] bk@[x]@) == T::key_of(vb[x]),
        decreases backup@.len() - n,
    {
        bk.push(backup[n].row_key());
        n = n + 1;
    }
    let mut added: Vec<T> = Vec::new();
    let mut removed: Vec<T> = Vec::new();
    let mut changed: Vec<RowChange<T>> = Vec::new();
    let mut i: usize = 0;
    let mut j: usize = 0;
    let lc = current.len();
    let lb = backup.len();
    assert(vb.take(0) =~= Seq::<T::V>::empty());
    assert(vc.take(0) =~= Seq::<T::V>::empty());
    assert(views(added@) =~= Seq::<T::V>::empty());
    assert(views(removed@) =~= Seq::<T::V>::empty());
    assert(change_views(changed@) =~= Seq::<(T::V, T::V)>::empty());
    while i < lc || j < lb
        invariant
            lc == current@.len(),
            lb == backup@.len(),
            vc == views(current@),
            vb == views(backup@),
            table_sorted::<T>(vc),
            table_sorted::<T>(vb),
            ck@.len() == lc,
            bk@.len() == lb,
            forall|x: int| 0 <= x < lc ==> ints(#[trigger] ck@[x]@) == T::key_of(vc[x]),
            forall|x: int| 0 <= x < lb ==> ints(#[trigger] bk@[x]@) == T::key_of(vb[x]),
            i <= lc,
            j <= lb,
            views(removed@) == only_in::<T>(vb, vc.take(i as int)),
            views(added@) == only_in::<T>(vc, vb.take(j as int)),
            change_views(changed@) == changed_pairs::<T>(vc, vb.take(j as int)),
            i < lc ==> forall|y: int| 0 <= y < j ==> lex_lt(#[trigger] T::key_of(vb[y]), T::key_of(vc[i as int])),
            j < lb ==> forall|x: int| 0 <= x < i ==> lex_lt(#[trigger] T::key_of(vc[x]), T::key_of(vb[j as int])),
        decreases (lc - i) + (lb - j),
    {
        let ord = if j >= lb {
            KeyOrder::Less
        } else if i >= lc {
            KeyOrder::Greater
        } else {
            compare_keys(&ck[i], &bk[j])
        };
        if ord == KeyOrder::Less {
            // current[i] has no counterpart in backup
            proof {
                let k = T::key_of(vc[i as int]);
                assert forall|y: int| 0 <= y < lb implies #[trigger] T::key_of(vb[y]) != k by {
                    if y < j {
                        lemma_lex_lt_asymmetric(T::key_of(vb[y]), k);
                    } else {
                        lemma_lex_lt_asymmetric(k, T::key_of(vb[j as int]));
                        if y > j {
                            lemma_lex_lt_transitive(k, T::key_of(vb[j as int]), T::key_of(vb[y]));
                            lemma_lex_lt_asymmetric(k, T::key_of(vb[y]));
                        }
                    }
                }
                assert(!key_in::<T>(vb, k));
                assert(vc.take(i + 1).drop_last() =~= vc.take(i as int));
                if i + 1 < lc {
                    assert forall|y: int| 0 <= y < j implies lex_lt(#[trigger] T::key_of(vb[y]), T::key_of(vc[i + 1])) by {
                        lemma_lex_lt_transitive(T::key_of(vb[y]), k, T::key_of(vc[i + 1]));
                    }
                }
            }
            let ghost prev = views(removed@);
            removed.push(current[i].row_copy());
            assert(views(removed@) =~= prev.push(vc[i as int]));
            i = i + 1;
        } else if ord == KeyOrder::Greater {
            // backup[j] has no counterpart in current
            proof {
                let k = T::key_of(vb[j as int]);
                assert forall|x: int| 0 <= x < lc implies #[trigger] T::key_of(vc[x]) != k by {
                    if x < i {
                        lemma_lex_lt_asymmetric(T::key_of(vc[x]), k);
                    } else {
                        lemma_lex_lt_asymmetric(k, T::key_of(vc[i as int]));
                        if x > i {
                            lemma_lex_lt_transitive(k, T::key_of(vc[i as int]), T::key_of(vc[x]));
                            lemma_lex_lt_asymmetric(k, T::key_of(vc[x]));
                        }
                    }
                }
                assert(!key_in::<T>(vc, k));
                assert(vb.take(j + 1).drop_last() =~= vb.take(j as int));
                if j + 1 < lb {
                    assert forall|x: int| 0 <= x < i implies lex_lt(#[trigger] T::key_of(vc[x]), T::key_of(vb[j + 1])) by {
                        lemma_lex_lt_transitive(T::key_of(vc[x]), k, T::key_of(vb[j + 1]));
                    }
                }
            }
            let ghost prev = views(added@);
            added.push(backup[j].row_copy());
            assert(views(added@) =~= prev.push(vb[j as int]));
            j = j + 1;
        } else {
            let same = current[i].row_same(&backup[j]);
            proof {
                let k = T::key_of(vb[j as int]);
                assert(T::key_of(vc[i as int]) == k);
                lemma_row_with_key_unique::<T>(vc, i as int);
                lemma_row_with_key_unique::<T>(vb, j as int);
                assert(vb.take(j + 1).drop_last() =~= vb.take(j as int));
                assert(vc.take(i + 1).drop_last() =~= vc.take(i as int));
                if i + 1 < lc {
                    assert forall|y: int| 0 <= y < j + 1 implies lex_lt(#[trigger] T::key_of(vb[y]), T::key_of(vc[i + 1])) by {
                        if y < j {
                            lemma_lex_lt_transitive(T::key_of(vb[y]), k, T::key_of(vc[i + 1]));
                        }
                    }
                }
                if j + 1 < lb {
                    assert forall|x: int| 0 <= x < i + 1 implies lex_lt(#[trigger] T::key_of(vc[x]), T::key_of(vb[j + 1])) by {
                        if x < i {
                            lemma_lex_lt_transitive(T::key_of(vc[x]), k, T::key_of(vb[j + 1]));
                        }
                    }
                }
            }
            if !same {
                let c = current[i].row_copy();
                let b = backup[j].row_copy();
                let ghost prev = change_views(changed@);
                changed.push(RowChange { current: c, backup: b });
                assert(change_views(changed@) =~= prev.push((vc[i as int], vb[j as int])));
            }
            i = i + 1;
            j = j + 1;
        }
    }
    assert(vc.take(lc as int) =~= vc);
    assert(vb.take(lb as int) =~= vb);
    TableDiff { added, removed, changed }
}

/// Position where a row with key `k` belongs in a sorted table.
fn lower_bound<T: TableRow>(rows: &Vec<T>, k: &Vec<i64>) -> (p: usize)
    requires
        table_sorted::<T>(views(rows@)),
    ensures
        p <= rows@.len(),
        forall|i: int| 0 <= i < p ==> lex_lt(#[trigger] T::key_of(views(rows@)[i]), ints(k@)),
        forall|i: int| p <= i < rows@.len() ==> !lex_lt(#[trigger] T::key_of(views(rows@)[i]), ints(k@)),
{
    let ghost v = views(rows@);
    let mut lo: usize = 0;
    let mut hi: usize = rows.len();
    while lo < hi
        invariant
            v == views(rows@),
            table_sorted::<T>(v),
            lo <= hi <= rows@.len(),
            forall|i: int| 0 <= i < lo ==> lex_lt(#[trigger] T::key_of(v[i]), ints(k@)),
            forall|i: int| hi <= i < rows@.len() ==> !lex_lt(#[trigger] T::key_of(v[i]), ints(k@)),
        decreases hi - lo,
    {
        let mid = lo + (hi - lo) / 2;
        let mk = rows[mid].row_key();
        if compare_keys(&mk, k) == KeyOrder::Less {
            proof {
                assert forall|i: int| 0 <= i < mid + 1 implies lex_lt(#[trigger] T::key_of(v[i]), ints(k@)) by {
                    if i < mid {
                        lemma_lex_lt_transitive(T::key_of(v[i]), T::key_of(v[mid as int]), ints(k@));
                    }
                }
            }
            lo = mid + 1;
        } else {
            proof {
                assert forall|i: int| mid <= i < rows@.len() implies !lex_lt(#[trigger] T::key_of(v[i]), ints(k@)) by {
                    if i > mid {
                        assert(lex_lt(T::key_of(v[mid as int]), T::key_of(v[i])));
                        if lex_lt(T::key_of(v[i]), ints(k@)) {
                            lemma_lex_lt_transitive(T::key_of(v[mid as int]), T::key_of(v[i]), ints(k@));
                        }
                    }
                }
            }
            hi = mid;
        }
    }
    lo
}

/// Inserts `row` into a sorted table, replacing the row with the same key
/// if there is one (the table stays sorted).
pub fn table_upsert<T: TableRow>(rows: &mut Vec<T>, row: T)
    requires
        table_sorted::<T>(views(old(rows)@)),
    ensures
        table_sorted::<T>(views(final(rows)@)),
        forall|k: Seq<int>| #[trigger] key_in::<T>(views(final(rows)@), k)
            <==> (key_in::<T>(views(old(rows)@), k) || k == T::key_of(row@)),
        forall|k: Seq<int>| key_in::<T>(views(final(rows)@), k) ==>
            #[trigger] row_with_key::<T>(views(final(rows)@), k) == (if k == T::key_of(row@) {
                row@
            } else {
                row_with_key::<T>(views(old(rows)@), k)
            }),
{
    let ghost s = views(rows@);
    let ghost rv = row@;
    let k = row.row_key();
    let ghost kk = ints(k@);
    let p = lower_bound(rows, &k);
    let found = if p < rows.len() {
        let pk = rows[p].row_key();
        compare_keys(&pk, &k) == KeyOrder::Equal
    } else {
        false
    };
    if found {
        rows.set(p, row);
        let ghost t = views(rows@);
        proof {
            assert(t =~= s.update(p as int, rv));
            assert forall|i: int, j: int| 0 <= i < j < t.len() implies lex_lt(#[trigger] T::key_of(t[i]), #[trigger] T::key_of(t[j])) by {
                assert(lex_lt(T::key_of(s[i]), T::key_of(s[j])));
            }
            assert forall|q: Seq<int>| #[trigger] key_in::<T>(t, q) <==> (key_in::<T>(s, q) || q == kk) by {
                if key_in::<T>(s, q) {
                    let w = choose|i: int| 0 <= i < s.len() && #[trigger] T::key_of(s[i]) == q;
                    assert(T::key_of(t[w]) == q);
                }
                if q == kk {
                    assert(T::key_of(t[p as int]) == q);
                }
                if key_in::<T>(t, q) {
                    let w = choose|i: int| 0 <= i < t.len() && #[trigger] T::key_of(t[i]) == q;
                    if w != p {
                        assert(T::key_of(s[w]) == q);
                    }
                }
            }
            assert forall|q: Seq<int>| key_in::<T>(t, q) implies #[trigger] row_with_key::<T>(t, q) == (if q == kk { rv } else { row_with_key::<T>(s, q) }) by {
                let w = key_index::<T>(t, q);
                lemma_row_with_key_unique::<T>(t, w);
                if w != p {
                    assert(T::key_of(s[w]) == q);
                    lemma_row_with_key_unique::<T>(s, w);
                    assert(q != kk) by {
                        if w < p {
                            lemma_lex_lt_irreflexive(kk);
                        } else {
                            assert(lex_lt(T::key_of(t[p as int]), T::key_of(t[w])));
                            lemma_lex_lt_irreflexive(kk);
                        }
                    }
                }
            }
        }
    } else {
        rows.insert(p, row);
        let ghost t = views(rows@);
        proof {
            assert(t =~= s.insert(p as int, rv));
            if p < s.len() {
                assert(T::key_of(s[p as int]) != kk);
                lemma_lex_lt_total(T::key_of(s[p as int]), kk);
            }
            assert forall|i: int| p <= i < s.len() implies lex_lt(kk, #[trigger] T::key_of(s[i])) by {
                lemma_lex_lt_total(T::key_of(s[p as int]), kk);
                if i > p {
                    assert(lex_lt(T::key_of(s[p as int]), T::key_of(s[i])));
                    lemma_lex_lt_transitive(kk, T::key_of(s[p as int]), T::key_of(s[i]));
                }
            }
            assert forall|i: int, j: int| 0 <= i < j < t.len() implies lex_lt(#[trigger] T::key_of(t[i]), #[trigger] T::key_of(t[j])) by {
                if j < p {
                    assert(lex_lt(T::key_of(s[i]), T::key_of(s[j])));
                } else if j == p {
                } else if i < p {
                    assert(lex_lt(T::key_of(s[i]), kk));
                    assert(lex_lt(kk, T::key_of(s[j - 1])));
                    lemma_lex_lt_transitive(T::key_of(s[i]), kk, T::key_of(s[j - 1]));
                } else if i == p {
                } else {
                    assert(lex_lt(T::key_of(s[i - 1]), T::key_of(s[j - 1])));
                }
            }
            assert forall|q: Seq<int>| #[trigger] key_in::<T>(t, q) <==> (key_in::<T>(s, q) || q == kk) by {
                if key_in::<T>(s, q) {
                    let w = choose|i: int| 0 <= i < s.len() && #[trigger] T::key_of(s[i]) == q;
                    if w < p {
                        assert(T::key_of(t[w]) == q);
                    } else {
                        assert(T::key_of(t[w + 1]) == q);
                    }
                }
                if q == kk {
                    assert(T::key_of(t[p as int]) == q);
                }
                if key_in::<T>(t, q) {
                    let w = choose|i: int| 0 <= i < t.len() && #[trigger] T::key_of(t[i]) == q;
                    if w < p {
                        assert(T::key_of(s[w]) == q);
                    } else if w > p {
                        assert(T::key_of(s[w - 1]) == q);
                    }
                }
            }
            assert forall|q: Seq<int>| key_in::<T>(t, q) implies #[trigger] row_with_key::<T>(t, q) == (if q == kk { rv } else { row_with_key::<T>(s, q) }) by {
                let w = key_index::<T>(t, q);
                lemma_row_with_key_unique::<T>(t, w);
                if w < p {
                    assert(T::key_of(s[w]) == q);
                    lemma_row_with_key_unique::<T>(s, w);
                    lemma_lex_lt_irreflexive(kk);
                } else if w > p {
                    assert(T::key_of(s[w - 1]) == q);
                    lemma_row_with_key_unique::<T>(s, w - 1);
                    assert(lex_lt(T::key_of(t[p as int]), T::key_of(t[w])));
                    lemma_lex_lt_irreflexive(kk);
                }
            }
        }
    }
}

proof fn lemma_self_prefix<T: TableRow>(a: Seq<T::V>, n: int)
    requires
        table_sorted::<T>(a),
        0 <= n <= a.len(),
    ensures
        only_in::<T>(a, a.take(n)).len() == 0,
        changed_pairs::<T>(a, a.take(n)).len() == 0,
    decreases n,
{
    if n > 0 {
        let b = a.take(n);
        assert(b.drop_last() =~= a.take(n - 1));
        assert(b.last() == a[n - 1]);
        lemma_self_prefix::<T>(a, n - 1);
        lemma_row_with_key_unique::<T>(a, n - 1);
    }
}

/// A table compared with itself has no rows only on one side and no
/// changed rows.
pub proof fn law_table_self_diff_empty<T: TableRow>(a: Seq<T::V>)
    requires
        table_sorted::<T>(a),
    ensures
        only_in::<T>(a, a).len() == 0,
        changed_pairs::<T>(a, a).len() == 0,
{
    lemma_self_prefix::<T>(a, a.len() as int);
    assert(a.take(a.len() as int) =~= a);
}

} // verus!
