//! Counting changed rows per key (a media type, an artist, a tag, ...) and
//! ranking the keys by how many rows they have.
use vstd::prelude::*;
use vstd::utf8::encode_utf8;
use crate::diff::DiffCounts;
use crate::table::views;
use crate::order::{
    lex_lt, lemma_lex_lt_irreflexive, lemma_lex_lt_transitive, lemma_lex_lt_total,
    lemma_lex_lt_asymmetric, lemma_lex_lt_skip, KeyOrder,
};

verus! {

broadcast use vstd::std_specs::vec::group_vec_axioms;

/// Number of occurrences of `x` in `s`.
pub open spec fn count_of<A>(s: Seq<A>, x: A) -> nat
    decreases s.len(),
{
    if s.len() == 0 {
        0
    } else {
        count_of(s.drop_last(), x) + if s.last() == x { 1nat } else { 0nat }
    }
}

pub proof fn lemma_count_push<A>(s: Seq<A>, y: A, x: A)
    ensures
        count_of(s.push(y), x) == count_of(s, x) + if y == x { 1nat } else { 0nat },
{
    assert(s.push(y).drop_last() =~= s);
}

pub proof fn lemma_count_absent<A>(s: Seq<A>, x: A)
    requires
        !s.contains(x),
    ensures
        count_of(s, x) == 0,
    decreases s.len(),
{
    if s.len() > 0 {
        assert(!s.drop_last().contains(x)) by {
            if s.drop_last().contains(x) {
                let i = choose|i: int| 0 <= i < s.drop_last().len() && s.drop_last()[i] == x;
                assert(s[i] == x);
            }
        }
        assert(s.last() != x) by {
            if s.last() == x {
                assert(s[s.len() - 1] == x);
            }
        }
        lemma_count_absent(s.drop_last(), x);
    }
}

pub proof fn lemma_count_le_len<A>(s: Seq<A>, x: A)
    ensures
        count_of(s, x) <= s.len(),
    decreases s.len(),
{
    if s.len() > 0 {
        lemma_count_le_len(s.drop_last(), x);
    }
}

/// A key by which rows are counted: it has a place in a total order.
pub trait TallyKey: Sized + View {
    /// The place of a key in the order (lexicographic on integer sequences).
    spec fn rank_key(v: Self::V) -> Seq<int>;

    /// Distinct keys have distinct places.
    proof fn lemma_rank_key_injective(a: Self::V, b: Self::V)
        ensures
            Self::rank_key(a) == Self::rank_key(b) ==> a == b;

    /// Compares two keys by their places.
    fn compare(&self, other: &Self) -> (r: KeyOrder)
        ensures
            r == KeyOrder::Less <==> lex_lt(Self::rank_key(self@), Self::rank_key(other@)),
            r == KeyOrder::Equal <==> self@ == other@,
            r == KeyOrder::Greater <==> lex_lt(Self::rank_key(other@), Self::rank_key(self@));

    /// A copy of the key.
    fn copy(&self) -> (r: Self)
        ensures
            r@ == self@;
}

/// The byte values of a text, as integers.
pub open spec fn text_rank(s: Seq<char>) -> Seq<int> {
    encode_utf8(s).map_values(|b: u8| b as int)
}

impl TallyKey for String {
    /// Texts order byte-wise.
    open spec fn rank_key(v: Seq<char>) -> Seq<int> {
        text_rank(v)
    }

    proof fn lemma_rank_key_injective(a: Seq<char>, b: Seq<char>) {
        if text_rank(a) == text_rank(b) {
            let ea = encode_utf8(a);
            let eb = encode_utf8(b);
            assert(ea.len() == eb.len()) by {
                assert(text_rank(a).len() == ea.len());
                assert(text_rank(b).len() == eb.len());
            }
            assert forall|i: int| 0 <= i < ea.len() implies ea[i] == eb[i] by {
                assert(text_rank(a)[i] == ea[i] as int);
                assert(text_rank(b)[i] == eb[i] as int);
            }
            assert(ea =~= eb);
            vstd::utf8::encode_utf8_decode_utf8(a);
            vstd::utf8::encode_utf8_decode_utf8(b);
        }
    }

    fn compare(&self, other: &Self) -> (r: KeyOrder) {
        let a = self.as_str().as_bytes();
        let b = other.as_str().as_bytes();
        let ghost sa = text_rank(self@);
        let ghost sb = text_rank(other@);
        proof {
            <String as TallyKey>::lemma_rank_key_injective(self@, other@);
        }
        let mut i: usize = 0;
        while i < a.len() && i < b.len()
            invariant
                sa == text_rank(self@),
                sb == text_rank(other@),
                a@ == encode_utf8(self@),
                b@ == encode_utf8(other@),
                sa.len() == a@.len(),
                sb.len() == b@.len(),
                i <= a@.len(),
                i <= b@.len(),
                sa.subrange(0, i as int) == sb.subrange(0, i as int),
            decreases a@.len() - i,
        {
            if a[i] != b[i] {
                proof {
                    lemma_lex_lt_skip(sa, sb, i as int);
                    lemma_lex_lt_skip(sb, sa, i as int);
                    assert(sa.subrange(i as int, sa.len() as int)[0] == sa[i as int]);
                    assert(sb.subrange(i as int, sb.len() as int)[0] == sb[i as int]);
                    assert(sa[i as int] == a@[i as int] as int);
                    assert(sb[i as int] == b@[i as int] as int);
                    if self@ == other@ {
                        assert(sa == sb);
                    }
                }
                if a[i] < b[i] {
                    return KeyOrder::Less;
                } else {
                    return KeyOrder::Greater;
                }
            }
            proof {
                assert(sa[i as int] == a@[i as int] as int);
                assert(sb[i as int] == b@[i as int] as int);
                assert(sa.subrange(0, i + 1) =~= sa.subrange(0, i as int).push(sa[i as int]));
                assert(sb.subrange(0, i + 1) =~= sb.subrange(0, i as int).push(sb[i as int]));
            }
            i = i + 1;
        }
        proof {
            lemma_lex_lt_skip(sa, sb, i as int);
            lemma_lex_lt_skip(sb, sa, i as int);
            if a.len() == b.len() {
                assert(sa =~= sa.subrange(0, i as int));
                assert(sb =~= sb.subrange(0, i as int));
            } else {
                assert(sa != sb) by {
                    assert(sa.len() != sb.len());
                }
            }
        }
        if a.len() < b.len() {
            KeyOrder::Less
        } else if a.len() == b.len() {
            KeyOrder::Equal
        } else {
            KeyOrder::Greater
        }
    }

    fn copy(&self) -> (r: Self) {
        self.clone()
    }
}

proof fn lemma_lex_lt_single(a: int, b: int)
    ensures
        lex_lt(seq![a], seq![b]) == (a < b),
{
    reveal_with_fuel(lex_lt, 2);
    assert(seq![a].drop_first() =~= Seq::<int>::empty());
    assert(seq![b].drop_first() =~= Seq::<int>::empty());
}

impl TallyKey for i64 {
    /// Integers order numerically.
    open spec fn rank_key(v: i64) -> Seq<int> {
        seq![v as int]
    }

    proof fn lemma_rank_key_injective(a: i64, b: i64) {
        if seq![a as int] == seq![b as int] {
            assert(seq![a as int][0] == seq![b as int][0]);
        }
    }

    fn compare(&self, other: &Self) -> (r: KeyOrder) {
        proof {
            lemma_lex_lt_single(*self as int, *other as int);
            lemma_lex_lt_single(*other as int, *self as int);
        }
        if *self < *other {
            KeyOrder::Less
        } else if *self == *other {
            KeyOrder::Equal
        } else {
            KeyOrder::Greater
        }
    }

    fn copy(&self) -> (r: Self) {
        *self
    }
}

/// Which count of a key a row adds to.
#[derive(Debug, Clone, Copy, PartialEq, Eq, Structural)]
pub enum ChangeKind {
    Added,
    Removed,
    Changed,
}

/// `s` with `k` appended when `yes`.
pub open spec fn push_if<V>(s: Seq<V>, k: V, yes: bool) -> Seq<V> {
    if yes { s.push(k) } else { s }
}

/// The key occurs among the keys of added, removed or changed rows.
pub open spec fn occurs<V>(k: V, ka: Seq<V>, kr: Seq<V>, kc: Seq<V>) -> bool {
    ka.contains(k) || kr.contains(k) || kc.contains(k)
}

/// `c` holds the numbers of rows with key `k` among the added, removed and
/// changed rows.
pub open spec fn counts_of<V>(c: DiffCounts, k: V, ka: Seq<V>, kr: Seq<V>, kc: Seq<V>) -> bool {
    &&& c.added == count_of(ka, k)
    &&& c.removed == count_of(kr, k)
    &&& c.changed == count_of(kc, k)
}

/// Number of rows with key `k` among the added, removed and changed rows.
pub open spec fn total_for<V>(k: V, ka: Seq<V>, kr: Seq<V>, kc: Seq<V>) -> int {
    (count_of(ka, k) + count_of(kr, k) + count_of(kc, k)) as int
}

/// The keys and counts of entries.
pub open spec fn entry_views<K: View>(e: Seq<(K, DiffCounts)>) -> Seq<(K::V, DiffCounts)> {
    e.map_values(|x: (K, DiffCounts)| (x.0@, x.1))
}

/// Some entry has key `k`.
pub open spec fn has_key<V>(e: Seq<(V, DiffCounts)>, k: V) -> bool {
    exists|i: int| 0 <= i < e.len() && #[trigger] e[i].0 == k
}

/// Entries in strictly ascending key order (so no key occurs twice).
pub open spec fn ascending<K: TallyKey>(e: Seq<(K::V, DiffCounts)>) -> bool {
    forall|i: int, j: int|
        0 <= i < j < e.len() ==> lex_lt(#[trigger] K::rank_key(e[i].0), #[trigger] K::rank_key(e[j].0))
}

/// `e` counts the keys of the added (`ka`), removed (`kr`) and changed
/// (`kc`) rows: one entry per key that occurs, in ascending key order, each
/// with its numbers of rows.
pub open spec fn tallied<K: TallyKey>(e: Seq<(K::V, DiffCounts)>, ka: Seq<K::V>, kr: Seq<K::V>, kc: Seq<K::V>) -> bool {
    &&& ascending::<K>(e)
    &&& forall|i: int| 0 <= i < e.len() ==> counts_of(#[trigger] e[i].1, e[i].0, ka, kr, kc)
    &&& forall|k: K::V| #[trigger] occurs(k, ka, kr, kc) <==> has_key(e, k)
}

/// Key `a` with `ta` rows ranks before key `b` with `tb` rows: more rows
/// first, and of keys with as many rows the lower key first.
pub open spec fn ranks_before<K: TallyKey>(ta: int, a: K::V, tb: int, b: K::V) -> bool {
    ta > tb || (ta == tb && lex_lt(K::rank_key(a), K::rank_key(b)))
}

/// Total of a count triple.
pub open spec fn total_of(c: DiffCounts) -> int {
    c.added + c.removed + c.changed
}

/// `r` holds the `n` keys with the most rows among the added, removed and
/// changed rows (all keys when there are fewer), best first, each with its
/// numbers of rows; of keys with as many rows the lower key comes first.
pub open spec fn top_ranked<K: TallyKey>(r: Seq<(K::V, DiffCounts)>, ka: Seq<K::V>, kr: Seq<K::V>, kc: Seq<K::V>, n: nat) -> bool {
    &&& r.len() <= n
    &&& forall|i: int| 0 <= i < r.len() ==> occurs(r[i].0, ka, kr, kc) && counts_of(#[trigger] r[i].1, r[i].0, ka, kr, kc)
    &&& forall|i: int, j: int| 0 <= i < j < r.len()
        ==> ranks_before::<K>(total_of(#[trigger] r[i].1), r[i].0, total_of(#[trigger] r[j].1), r[j].0)
    &&& forall|k: K::V| #[trigger] occurs(k, ka, kr, kc) && !has_key(r, k) ==> {
        &&& r.len() == n
        &&& forall|i: int| 0 <= i < r.len() ==> ranks_before::<K>(total_of(#[trigger] r[i].1), r[i].0, total_for(k, ka, kr, kc), k)
    }
}

proof fn lemma_ranks_transitive<K: TallyKey>(ta: int, a: K::V, tb: int, b: K::V, tc: int, c: K::V)
    requires
        ranks_before::<K>(ta, a, tb, b),
        ranks_before::<K>(tb, b, tc, c),
    ensures
        ranks_before::<K>(ta, a, tc, c),
{
    if ta == tb && tb == tc {
        lemma_lex_lt_transitive(K::rank_key(a), K::rank_key(b), K::rank_key(c));
    }
}

proof fn lemma_ranks_total<K: TallyKey>(ta: int, a: K::V, tb: int, b: K::V)
    requires
        K::rank_key(a) != K::rank_key(b),
    ensures
        ranks_before::<K>(ta, a, tb, b) || ranks_before::<K>(tb, b, ta, a),
{
    lemma_lex_lt_total(K::rank_key(a), K::rank_key(b));
}

/// Adds one row with key `key` to the `which` count of a tally.
pub(crate) fn bump<K: TallyKey>(
    e: &mut Vec<(K, DiffCounts)>,
    key: &K,
    which: ChangeKind,
    Ghost(ka): Ghost<Seq<K::V>>,
    Ghost(kr): Ghost<Seq<K::V>>,
    Ghost(kc): Ghost<Seq<K::V>>,
)
    requires
        tallied::<K>(entry_views(old(e)@), ka, kr, kc),
        which == ChangeKind::Added ==> ka.len() < usize::MAX,
        which == ChangeKind::Removed ==> kr.len() < usize::MAX,
        which == ChangeKind::Changed ==> kc.len() < usize::MAX,
    ensures
        tallied::<K>(
            entry_views(final(e)@),
            push_if(ka, key@, which == ChangeKind::Added),
            push_if(kr, key@, which == ChangeKind::Removed),
            push_if(kc, key@, which == ChangeKind::Changed),
        ),
{
    let ghost ev0 = entry_views(e@);
    let ghost k = key@;
    let ghost ka2 = push_if(ka, k, which == ChangeKind::Added);
    let ghost kr2 = push_if(kr, k, which == ChangeKind::Removed);
    let ghost kc2 = push_if(kc, k, which == ChangeKind::Changed);
    proof {
        assert forall|x: K::V| count_of(ka2, x) == count_of(ka, x) + if x == k && which == ChangeKind::Added { 1nat } else { 0nat } by {
            if which == ChangeKind::Added { lemma_count_push(ka, k, x); }
        }
        assert forall|x: K::V| count_of(kr2, x) == count_of(kr, x) + if x == k && which == ChangeKind::Removed { 1nat } else { 0nat } by {
            if which == ChangeKind::Removed { lemma_count_push(kr, k, x); }
        }
        assert forall|x: K::V| count_of(kc2, x) == count_of(kc, x) + if x == k && which == ChangeKind::Changed { 1nat } else { 0nat } by {
            if which == ChangeKind::Changed { lemma_count_push(kc, k, x); }
        }
        assert forall|x: K::V| occurs(x, ka2, kr2, kc2) <==> (occurs(x, ka, kr, kc) || x == k) by {
            if x == k {
                if which == ChangeKind::Added { assert(ka2[ka.len() as int] == k); }
                if which == ChangeKind::Removed { assert(kr2[kr.len() as int] == k); }
                if which == ChangeKind::Changed { assert(kc2[kc.len() as int] == k); }
            }
            if ka.contains(x) {
                let i = choose|i: int| 0 <= i < ka.len() && ka[i] == x;
                assert(ka2[i] == x);
            }
            if kr.contains(x) {
                let i = choose|i: int| 0 <= i < kr.len() && kr[i] == x;
                assert(kr2[i] == x);
            }
            if kc.contains(x) {
                let i = choose|i: int| 0 <= i < kc.len() && kc[i] == x;
                assert(kc2[i] == x);
            }
            if ka2.contains(x) && x != k {
                let i = choose|i: int| 0 <= i < ka2.len() && ka2[i] == x;
                assert(ka[i] == x);
            }
            if kr2.contains(x) && x != k {
                let i = choose|i: int| 0 <= i < kr2.len() && kr2[i] == x;
                assert(kr[i] == x);
            }
            if kc2.contains(x) && x != k {
                let i = choose|i: int| 0 <= i < kc2.len() && kc2[i] == x;
                assert(kc[i] == x);
            }
        }
    }
    let mut p: usize = 0;
    while p < e.len()
        invariant
            ev0 == entry_views(e@),
            tallied::<K>(ev0, ka, kr, kc),
            k == key@,
            p <= e@.len(),
            forall|q: int| 0 <= q < p ==> lex_lt(#[trigger] K::rank_key(ev0[q].0), K::rank_key(k)),
            which == ChangeKind::Added ==> ka.len() < usize::MAX,
            which == ChangeKind::Removed ==> kr.len() < usize::MAX,
            which == ChangeKind::Changed ==> kc.len() < usize::MAX,
            ka2 == push_if(ka, k, which == ChangeKind::Added),
            kr2 == push_if(kr, k, which == ChangeKind::Removed),
            kc2 == push_if(kc, k, which == ChangeKind::Changed),
            forall|x: K::V| #[trigger] count_of(ka2, x) == count_of(ka, x) + if x == k && which == ChangeKind::Added { 1nat } else { 0nat },
            forall|x: K::V| #[trigger] count_of(kr2, x) == count_of(kr, x) + if x == k && which == ChangeKind::Removed { 1nat } else { 0nat },
            forall|x: K::V| #[trigger] count_of(kc2, x) == count_of(kc, x) + if x == k && which == ChangeKind::Changed { 1nat } else { 0nat },
            forall|x: K::V| #[trigger] occurs(x, ka2, kr2, kc2) <==> (occurs(x, ka, kr, kc) || x == k),
        ensures
            ev0 == entry_views(e@),
            p <= e@.len(),
            forall|q: int| 0 <= q < p ==> lex_lt(#[trigger] K::rank_key(ev0[q].0), K::rank_key(k)),
            p < e@.len() ==> lex_lt(K::rank_key(k), K::rank_key(ev0[p as int].0)),
        decreases e@.len() - p,
    {
        let c = e[p].0.compare(key);
        match c {
            KeyOrder::Less => {
                assert(ev0[p as int].0 == e@[p as int].0@);
            },
            KeyOrder::Equal => {
                let old_c = e[p].1;
                assert(old_c == ev0[p as int].1);
                assert(ev0[p as int].0 == k);
                assert(counts_of(ev0[p as int].1, k, ka, kr, kc));
                proof {
                    lemma_count_le_len(ka, k);
                    lemma_count_le_len(kr, k);
                    lemma_count_le_len(kc, k);
                }
                let new_c = match which {
                    ChangeKind::Added => DiffCounts { added: old_c.added + 1, removed: old_c.removed, changed: old_c.changed },
                    ChangeKind::Removed => DiffCounts { added: old_c.added, removed: old_c.removed + 1, changed: old_c.changed },
                    ChangeKind::Changed => DiffCounts { added: old_c.added, removed: old_c.removed, changed: old_c.changed + 1 },
                };
                let kcopy = e[p].0.copy();
                e.set(p, (kcopy, new_c));
                proof {
                    let ev1 = entry_views(e@);
                    assert(ev1 =~= ev0.update(p as int, (k, new_c)));
                    assert forall|i: int, j: int| 0 <= i < j < ev1.len() implies
                        lex_lt(#[trigger] K::rank_key(ev1[i].0), #[trigger] K::rank_key(ev1[j].0)) by {
                        assert(ev1[i].0 == ev0[i].0);
                        assert(ev1[j].0 == ev0[j].0);
                    }
                    assert forall|i: int| 0 <= i < ev1.len() implies counts_of(#[trigger] ev1[i].1, ev1[i].0, ka2, kr2, kc2) by {
                        if i != p {
                            assert(ev1[i] == ev0[i]);
                            assert(counts_of(ev0[i].1, ev0[i].0, ka, kr, kc));
                            if ev0[i].0 == k {
                                if i < p {
                                    assert(lex_lt(K::rank_key(ev0[i].0), K::rank_key(ev0[p as int].0)));
                                } else {
                                    assert(lex_lt(K::rank_key(ev0[p as int].0), K::rank_key(ev0[i].0)));
                                }
                                lemma_lex_lt_irreflexive(K::rank_key(k));
                            }
                        }
                    }
                    assert forall|x: K::V| #[trigger] occurs(x, ka2, kr2, kc2) <==> has_key(ev1, x) by {
                        if has_key(ev0, x) {
                            let w = choose|w: int| 0 <= w < ev0.len() && #[trigger] ev0[w].0 == x;
                            assert(ev1[w].0 == x);
                        }
                        if has_key(ev1, x) {
                            let w = choose|w: int| 0 <= w < ev1.len() && #[trigger] ev1[w].0 == x;
                            assert(ev0[w].0 == x);
                        }
                        if x == k {
                            assert(ev1[p as int].0 == x);
                        }
                        assert(occurs(x, ka, kr, kc) <==> has_key(ev0, x));
                    }
                    assert(ascending::<K>(ev1));
                    assert(tallied::<K>(ev1, ka2, kr2, kc2));
                }
                return;
            },
            KeyOrder::Greater => {
                assert(ev0[p as int].0 == e@[p as int].0@);
                break;
            },
        }
        p = p + 1;
    }
    // `key` is not present: insert a new entry at `p`.
    proof {
        assert(!has_key(ev0, k)) by {
            if has_key(ev0, k) {
                let w = choose|w: int| 0 <= w < ev0.len() && #[trigger] ev0[w].0 == k;
                if w < p {
                    lemma_lex_lt_irreflexive(K::rank_key(k));
                } else {
                    if p < ev0.len() {
                        assert(lex_lt(K::rank_key(k), K::rank_key(ev0[p as int].0)));
                        if w > p {
                            assert(lex_lt(K::rank_key(ev0[p as int].0), K::rank_key(ev0[w].0)));
                            lemma_lex_lt_asymmetric(K::rank_key(k), K::rank_key(ev0[p as int].0));
                        } else {
                            lemma_lex_lt_irreflexive(K::rank_key(k));
                        }
                    }
                }
            }
        }
        assert(!occurs(k, ka, kr, kc));
        lemma_count_absent(ka, k);
        lemma_count_absent(kr, k);
        lemma_count_absent(kc, k);
    }
    let new_c = match which {
        ChangeKind::Added => DiffCounts { added: 1, removed: 0, changed: 0 },
        ChangeKind::Removed => DiffCounts { added: 0, removed: 1, changed: 0 },
        ChangeKind::Changed => DiffCounts { added: 0, removed: 0, changed: 1 },
    };
    let kcopy = key.copy();
    e.insert(p, (kcopy, new_c));
    proof {
        let ev1 = entry_views(e@);
        assert(ev1 =~= ev0.insert(p as int, (k, new_c)));
        assert forall|i: int, j: int| 0 <= i < j < ev1.len() implies
            lex_lt(#[trigger] K::rank_key(ev1[i].0), #[trigger] K::rank_key(ev1[j].0)) by {
            if i < p && j < p {
                assert(ev1[i] == ev0[i] && ev1[j] == ev0[j]);
            } else if i < p && j == p {
                assert(ev1[i] == ev0[i]);
            } else if i < p {
                assert(ev1[i] == ev0[i] && ev1[j] == ev0[j - 1]);
            } else if i == p {
                assert(ev1[j] == ev0[j - 1]);
                if j - 1 > p {
                    assert(lex_lt(K::rank_key(ev0[p as int].0), K::rank_key(ev0[j - 1].0)));
                    lemma_lex_lt_transitive(K::rank_key(k), K::rank_key(ev0[p as int].0), K::rank_key(ev0[j - 1].0));
                }
            } else {
                assert(ev1[i] == ev0[i - 1] && ev1[j] == ev0[j - 1]);
            }
        }
        assert forall|i: int| 0 <= i < ev1.len() implies counts_of(#[trigger] ev1[i].1, ev1[i].0, ka2, kr2, kc2) by {
            if i != p {
                let q = if i < p { i } else { i - 1 };
                assert(ev1[i] == ev0[q]);
                assert(counts_of(ev0[q].1, ev0[q].0, ka, kr, kc));
                assert(ev0[q].0 != k);
            }
        }
        assert forall|x: K::V| #[trigger] occurs(x, ka2, kr2, kc2) <==> has_key(ev1, x) by {
            if has_key(ev0, x) {
                let w = choose|w: int| 0 <= w < ev0.len() && #[trigger] ev0[w].0 == x;
                if w < p {
                    assert(ev1[w].0 == x);
                } else {
                    assert(ev1[w + 1].0 == x);
                }
            }
            if has_key(ev1, x) {
                let w = choose|w: int| 0 <= w < ev1.len() && #[trigger] ev1[w].0 == x;
                if w < p {
                    assert(ev0[w].0 == x);
                } else if w > p {
                    assert(ev0[w - 1].0 == x);
                }
            }
            if x == k {
                assert(ev1[p as int].0 == x);
            }
            assert(occurs(x, ka, kr, kc) <==> has_key(ev0, x));
        }
    }
}

/// Entry `x` ranks before entry `y`.
#[verifier::opaque]
pub open spec fn entry_before<K: TallyKey>(x: (K::V, DiffCounts), y: (K::V, DiffCounts)) -> bool {
    ranks_before::<K>(total_of(x.1), x.0, total_of(y.1), y.0)
}

proof fn lemma_entry_transitive<K: TallyKey>(x: (K::V, DiffCounts), y: (K::V, DiffCounts), z: (K::V, DiffCounts))
    requires
        entry_before::<K>(x, y),
        entry_before::<K>(y, z),
    ensures
        entry_before::<K>(x, z),
{
    reveal(entry_before);
    lemma_ranks_transitive::<K>(total_of(x.1), x.0, total_of(y.1), y.0, total_of(z.1), z.0);
}

proof fn lemma_entry_total<K: TallyKey>(x: (K::V, DiffCounts), y: (K::V, DiffCounts))
    requires
        K::rank_key(x.0) != K::rank_key(y.0),
    ensures
        entry_before::<K>(x, y) || entry_before::<K>(y, x),
{
    reveal(entry_before);
    lemma_ranks_total::<K>(total_of(x.1), x.0, total_of(y.1), y.0);
}

/// Whether entry `x` ranks before entry `y`.
fn goes_before<K: TallyKey>(x: &(K, DiffCounts), y: &(K, DiffCounts)) -> (r: bool)
    ensures
        r == entry_before::<K>((x.0@, x.1), (y.0@, y.1)),
{
    reveal(entry_before);
    let tx: u128 = x.1.added as u128 + x.1.removed as u128 + x.1.changed as u128;
    let ty: u128 = y.1.added as u128 + y.1.removed as u128 + y.1.changed as u128;
    if tx != ty {
        tx > ty
    } else {
        x.0.compare(&y.0) == KeyOrder::Less
    }
}

/// Entries strictly in rank order.
#[verifier::opaque]
pub open spec fn rank_sorted<K: TallyKey>(sv: Seq<(K::V, DiffCounts)>) -> bool {
    forall|a: int, b: int| 0 <= a < b < sv.len() ==> #[trigger] entry_before::<K>(sv[a], sv[b])
}

/// `sv` holds exactly the first `i` entries of `ev`.
#[verifier::opaque]
pub open spec fn holds_first<V>(sv: Seq<(V, DiffCounts)>, ev: Seq<(V, DiffCounts)>, i: int) -> bool {
    &&& forall|a: int| 0 <= a < sv.len() ==> exists|j: int| 0 <= j < i && #[trigger] sv[a] == ev[j]
    &&& forall|j: int| 0 <= j < i ==> exists|a: int| 0 <= a < sv.len() && sv[a] == #[trigger] ev[j]
}

/// The key of entry `i` of `ev` differs from the keys of the entries of `sv`.
pub open spec fn fresh_key<K: TallyKey>(sv: Seq<(K::V, DiffCounts)>, x: (K::V, DiffCounts)) -> bool {
    forall|a: int| 0 <= a < sv.len() ==> K::rank_key(#[trigger] sv[a].0) != K::rank_key(x.0)
}

proof fn lemma_fresh<K: TallyKey>(sv: Seq<(K::V, DiffCounts)>, ev: Seq<(K::V, DiffCounts)>, i: int)
    requires
        holds_first(sv, ev, i),
        ascending::<K>(ev),
        0 <= i < ev.len(),
    ensures
        fresh_key::<K>(sv, ev[i]),
{
    reveal(holds_first);
    assert forall|a: int| 0 <= a < sv.len() implies K::rank_key(#[trigger] sv[a].0) != K::rank_key(ev[i].0) by {
        let j = choose|j: int| 0 <= j < i && #[trigger] sv[a] == ev[j];
        assert(lex_lt(K::rank_key(ev[j].0), K::rank_key(ev[i].0)));
        lemma_lex_lt_irreflexive(K::rank_key(ev[i].0));
    }
}

proof fn lemma_insert_sorted<K: TallyKey>(sv: Seq<(K::V, DiffCounts)>, x: (K::V, DiffCounts), p: int)
    requires
        rank_sorted::<K>(sv),
        fresh_key::<K>(sv, x),
        0 <= p <= sv.len(),
        forall|q: int| 0 <= q < p ==> #[trigger] entry_before::<K>(sv[q], x),
        p < sv.len() ==> !entry_before::<K>(sv[p], x),
    ensures
        rank_sorted::<K>(sv.insert(p, x)),
{
    reveal(rank_sorted);
    let sv2 = sv.insert(p, x);
    if p < sv.len() {
        lemma_entry_total::<K>(sv[p], x);
    }
    assert forall|a: int, b: int| 0 <= a < b < sv2.len() implies #[trigger] entry_before::<K>(sv2[a], sv2[b]) by {
        if b < p {
            assert(sv2[a] == sv[a] && sv2[b] == sv[b]);
        } else if b == p {
            assert(sv2[a] == sv[a]);
        } else if a < p {
            assert(sv2[a] == sv[a] && sv2[b] == sv[b - 1]);
            assert(entry_before::<K>(sv[a], x));
            if b - 1 > p {
                assert(entry_before::<K>(sv[p], sv[b - 1]));
                lemma_entry_transitive::<K>(x, sv[p], sv[b - 1]);
            }
            lemma_entry_transitive::<K>(sv[a], x, sv[b - 1]);
        } else if a == p {
            assert(sv2[b] == sv[b - 1]);
            if b - 1 > p {
                assert(entry_before::<K>(sv[p], sv[b - 1]));
                lemma_entry_transitive::<K>(x, sv[p], sv[b - 1]);
            }
        } else {
            assert(sv2[a] == sv[a - 1] && sv2[b] == sv[b - 1]);
        }
    }
}

proof fn lemma_insert_holds<V>(sv: Seq<(V, DiffCounts)>, ev: Seq<(V, DiffCounts)>, i: int, p: int)
    requires
        holds_first(sv, ev, i),
        0 <= i < ev.len(),
        0 <= p <= sv.len(),
    ensures
        holds_first(sv.insert(p, ev[i]), ev, i + 1),
{
    reveal(holds_first);
    let sv2 = sv.insert(p, ev[i]);
    assert forall|a: int| 0 <= a < sv2.len() implies exists|j: int| 0 <= j < i + 1 && #[trigger] sv2[a] == ev[j] by {
        if a < p {
            assert(sv2[a] == sv[a]);
            let j = choose|j: int| 0 <= j < i && #[trigger] sv[a] == ev[j];
            assert(sv2[a] == ev[j]);
        } else if a == p {
            assert(sv2[a] == ev[i]);
        } else {
            assert(sv2[a] == sv[a - 1]);
            let j = choose|j: int| 0 <= j < i && #[trigger] sv[a - 1] == ev[j];
            assert(sv2[a] == ev[j]);
        }
    }
    assert forall|j: int| 0 <= j < i + 1 implies exists|a: int| 0 <= a < sv2.len() && sv2[a] == #[trigger] ev[j] by {
        if j < i {
            let a = choose|a: int| 0 <= a < sv.len() && sv[a] == #[trigger] ev[j];
            if a < p {
                assert(sv2[a] == ev[j]);
            } else {
                assert(sv2[a + 1] == ev[j]);
            }
        } else {
            assert(sv2[p] == ev[j]);
        }
    }
}

proof fn lemma_top_of_sorted<K: TallyKey>(
    sv: Seq<(K::V, DiffCounts)>,
    ev: Seq<(K::V, DiffCounts)>,
    ka: Seq<K::V>,
    kr: Seq<K::V>,
    kc: Seq<K::V>,
    n: nat,
)
    requires
        tallied::<K>(ev, ka, kr, kc),
        rank_sorted::<K>(sv),
        holds_first(sv, ev, ev.len() as int),
    ensures
        top_ranked::<K>(if sv.len() > n { sv.take(n as int) } else { sv }, ka, kr, kc, n),
{
    reveal(entry_before);
    reveal(rank_sorted);
    reveal(holds_first);
    let rv = if sv.len() > n { sv.take(n as int) } else { sv };
    assert forall|a: int| 0 <= a < rv.len() implies occurs(rv[a].0, ka, kr, kc) && counts_of(#[trigger] rv[a].1, rv[a].0, ka, kr, kc) by {
        assert(rv[a] == sv[a]);
        let j = choose|j: int| 0 <= j < ev.len() && #[trigger] sv[a] == ev[j];
        assert(counts_of(ev[j].1, ev[j].0, ka, kr, kc));
        assert(has_key(ev, ev[j].0));
    }
    assert forall|a: int, b: int| 0 <= a < b < rv.len() implies ranks_before::<K>(
        total_of(#[trigger] rv[a].1), rv[a].0, total_of(#[trigger] rv[b].1), rv[b].0) by {
        assert(rv[a] == sv[a] && rv[b] == sv[b]);
        assert(entry_before::<K>(sv[a], sv[b]));
    }
    assert forall|k: K::V| #[trigger] occurs(k, ka, kr, kc) && !has_key(rv, k) implies {
        &&& rv.len() == n
        &&& forall|a: int| 0 <= a < rv.len() ==> ranks_before::<K>(total_of(#[trigger] rv[a].1), rv[a].0, total_for(k, ka, kr, kc), k)
    } by {
        assert(has_key(ev, k));
        let j = choose|j: int| 0 <= j < ev.len() && #[trigger] ev[j].0 == k;
        let b = choose|b: int| 0 <= b < sv.len() && sv[b] == #[trigger] ev[j];
        assert(counts_of(ev[j].1, ev[j].0, ka, kr, kc));
        if b < rv.len() {
            assert(rv[b].0 == k);
            assert(has_key(rv, k));
        }
        assert forall|a: int| 0 <= a < rv.len() implies ranks_before::<K>(total_of(#[trigger] rv[a].1), rv[a].0, total_for(k, ka, kr, kc), k) by {
            assert(rv[a] == sv[a]);
            assert(entry_before::<K>(sv[a], sv[b]));
        }
    }
}

/// The `n` keys of a tally with the most rows, best first (of keys with as
/// many rows the lower key first), each with its counts.
pub(crate) fn top_n<K: TallyKey>(
    e: &Vec<(K, DiffCounts)>,
    n: usize,
    Ghost(ka): Ghost<Seq<K::V>>,
    Ghost(kr): Ghost<Seq<K::V>>,
    Ghost(kc): Ghost<Seq<K::V>>,
) -> (r: Vec<(K, DiffCounts)>)
    requires
        tallied::<K>(entry_views(e@), ka, kr, kc),
    ensures
        top_ranked::<K>(entry_views(r@), ka, kr, kc, n as nat),
{
    let ghost ev = entry_views(e@);
    let mut s: Vec<(K, DiffCounts)> = Vec::new();
    let mut i: usize = 0;
    assert(holds_first(entry_views(s@), ev, 0)) by {
        reveal(holds_first);
    }
    assert(rank_sorted::<K>(entry_views(s@))) by {
        reveal(rank_sorted);
    }
    while i < e.len()
        invariant
            ev == entry_views(e@),
            tallied::<K>(ev, ka, kr, kc),
            i <= e@.len(),
            rank_sorted::<K>(entry_views(s@)),
            holds_first(entry_views(s@), ev, i as int),
        decreases e@.len() - i,
    {
        let ghost sv = entry_views(s@);
        let x = &e[i];
        assert(ev[i as int] == (x.0@, x.1));
        let mut p: usize = 0;
        while p < s.len() && goes_before(&s[p], x)
            invariant
                sv == entry_views(s@),
                p <= s@.len(),
                ev[i as int] == (x.0@, x.1),
                forall|q: int| 0 <= q < p ==> #[trigger] entry_before::<K>(sv[q], ev[i as int]),
            decreases s@.len() - p,
        {
            assert(sv[p as int] == (s@[p as int].0@, s@[p as int].1));
            p = p + 1;
        }
        proof {
            if p < s@.len() {
                assert(sv[p as int] == (s@[p as int].0@, s@[p as int].1));
            }
            lemma_fresh::<K>(sv, ev, i as int);
            lemma_insert_sorted::<K>(sv, ev[i as int], p as int);
            lemma_insert_holds(sv, ev, i as int, p as int);
        }
        let entry = (x.0.copy(), x.1);
        s.insert(p, entry);
        assert(entry_views(s@) =~= sv.insert(p as int, ev[i as int]));
        i = i + 1;
    }
    let ghost sv = entry_views(s@);
    proof {
        lemma_top_of_sorted::<K>(sv, ev, ka, kr, kc, n as nat);
    }
    s.truncate(n);
    assert(entry_views(s@) =~= if sv.len() > n { sv.take(n as int) } else { sv });
    s
}

/// Adds one row per key of `keys` to the `which` count of a tally.
pub(crate) fn tally_keys<K: TallyKey>(
    e: &mut Vec<(K, DiffCounts)>,
    keys: &Vec<K>,
    which: ChangeKind,
    Ghost(ka): Ghost<Seq<K::V>>,
    Ghost(kr): Ghost<Seq<K::V>>,
    Ghost(kc): Ghost<Seq<K::V>>,
)
    requires
        tallied::<K>(entry_views(old(e)@), ka, kr, kc),
        which == ChangeKind::Added ==> ka.len() + keys@.len() <= usize::MAX,
        which == ChangeKind::Removed ==> kr.len() + keys@.len() <= usize::MAX,
        which == ChangeKind::Changed ==> kc.len() + keys@.len() <= usize::MAX,
    ensures
        tallied::<K>(
            entry_views(final(e)@),
            if which == ChangeKind::Added { ka + views(keys@) } else { ka },
            if which == ChangeKind::Removed { kr + views(keys@) } else { kr },
            if which == ChangeKind::Changed { kc + views(keys@) } else { kc },
        ),
{
    let ghost kv = views(keys@);
    let mut i: usize = 0;
    while i < keys.len()
        invariant
            kv == views(keys@),
            i <= keys@.len(),
            which == ChangeKind::Added ==> ka.len() + keys@.len() <= usize::MAX,
            which == ChangeKind::Removed ==> kr.len() + keys@.len() <= usize::MAX,
            which == ChangeKind::Changed ==> kc.len() + keys@.len() <= usize::MAX,
            tallied::<K>(
                entry_views(e@),
                if which == ChangeKind::Added { ka + kv.take(i as int) } else { ka },
                if which == ChangeKind::Removed { kr + kv.take(i as int) } else { kr },
                if which == ChangeKind::Changed { kc + kv.take(i as int) } else { kc },
            ),
        decreases keys@.len() - i,
    {
        let ghost a = if which == ChangeKind::Added { ka + kv.take(i as int) } else { ka };
        let ghost r = if which == ChangeKind::Removed { kr + kv.take(i as int) } else { kr };
        let ghost c = if which == ChangeKind::Changed { kc + kv.take(i as int) } else { kc };
        bump(e, &keys[i], which, Ghost(a), Ghost(r), Ghost(c));
        proof {
            assert(kv[i as int] == keys@[i as int]@);
            assert((ka + kv.take(i as int)).push(kv[i as int]) =~= ka + kv.take(i + 1));
            assert((kr + kv.take(i as int)).push(kv[i as int]) =~= kr + kv.take(i + 1));
            assert((kc + kv.take(i as int)).push(kv[i as int]) =~= kc + kv.take(i + 1));
        }
        i = i + 1;
    }
    assert(kv.take(keys@.len() as int) =~= kv);
}

} // verus!
