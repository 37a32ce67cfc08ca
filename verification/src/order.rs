//! Ordering by keys. A key is a list of texts; keys are ordered text by
//! text, each text by code point, as tuples of strings are.

use vstd::prelude::*;
use vstd::seq_lib::*;

use crate::text::{
    chars_eq, chars_lex_lt, chars_of, lemma_lex_asymmetric, lemma_lex_irreflexive,
    lemma_lex_total, lemma_lex_transitive, lex_lt,
};

verus! {

/// Strict order of keys.
pub open spec fn key_lt(a: Seq<Seq<char>>, b: Seq<Seq<char>>) -> bool
    decreases a.len(),
{
    if b.len() == 0 {
        false
    } else if a.len() == 0 {
        true
    } else if a[0] != b[0] {
        lex_lt(a[0], b[0])
    } else {
        key_lt(a.drop_first(), b.drop_first())
    }
}

/// Order of keys: `a` does not come after `b`.
pub open spec fn key_le(a: Seq<Seq<char>>, b: Seq<Seq<char>>) -> bool {
    !key_lt(b, a)
}

pub proof fn lemma_key_irreflexive(a: Seq<Seq<char>>)
    ensures
        !key_lt(a, a),
    decreases a.len(),
{
    if a.len() > 0 {
        lemma_key_irreflexive(a.drop_first());
    }
}

pub proof fn lemma_key_asymmetric(a: Seq<Seq<char>>, b: Seq<Seq<char>>)
    ensures
        !(key_lt(a, b) && key_lt(b, a)),
    decreases a.len(),
{
    if a.len() > 0 && b.len() > 0 {
        if a[0] == b[0] {
            lemma_key_asymmetric(a.drop_first(), b.drop_first());
        } else {
            lemma_lex_asymmetric(a[0], b[0]);
        }
    }
}

pub proof fn lemma_key_total(a: Seq<Seq<char>>, b: Seq<Seq<char>>)
    ensures
        key_lt(a, b) || a == b || key_lt(b, a),
    decreases a.len(),
{
    if a.len() > 0 && b.len() > 0 {
        if a[0] == b[0] {
            lemma_key_total(a.drop_first(), b.drop_first());
            if a.drop_first() == b.drop_first() {
                assert(a =~= seq![a[0]] + a.drop_first());
                assert(b =~= seq![b[0]] + b.drop_first());
                assert(a =~= b);
            }
        } else {
            lemma_lex_total(a[0], b[0]);
        }
    } else if a.len() == 0 && b.len() == 0 {
        assert(a =~= b);
    }
}

pub proof fn lemma_key_transitive(a: Seq<Seq<char>>, b: Seq<Seq<char>>, c: Seq<Seq<char>>)
    requires
        key_lt(a, b),
        key_lt(b, c),
    ensures
        key_lt(a, c),
    decreases a.len(),
{
    if a.len() > 0 && b.len() > 0 && c.len() > 0 {
        if a[0] == b[0] && b[0] == c[0] {
            lemma_key_transitive(a.drop_first(), b.drop_first(), c.drop_first());
        } else if a[0] != b[0] && b[0] != c[0] {
            lemma_lex_transitive(a[0], b[0], c[0]);
            lemma_lex_irreflexive(a[0]);
        }
    }
}

/// `a <= b` and `b < c` give `a < c`.
pub proof fn lemma_key_le_lt(a: Seq<Seq<char>>, b: Seq<Seq<char>>, c: Seq<Seq<char>>)
    requires
        key_le(a, b),
        key_lt(b, c),
    ensures
        key_lt(a, c),
{
    lemma_key_total(a, b);
    if a != b {
        lemma_key_transitive(a, b, c);
    }
}

/// A value that is ordered by a key.
pub trait Keyed: Sized {
    spec fn key(&self) -> Seq<Seq<char>>;

    /// Whether the key of `self` comes strictly before that of `other`.
    fn precedes(&self, other: &Self) -> (r: bool)
        ensures
            r == key_lt(self.key(), other.key()),
    ;
}

impl Keyed for String {
    open spec fn key(&self) -> Seq<Seq<char>> {
        seq![self@]
    }

    fn precedes(&self, other: &Self) -> (r: bool) {
        let a = chars_of(self.as_str());
        let b = chars_of(other.as_str());
        proof {
            reveal_with_fuel(key_lt, 3);
            assert(self.key().drop_first() =~= Seq::<Seq<char>>::empty());
            assert(other.key().drop_first() =~= Seq::<Seq<char>>::empty());
            lemma_lex_irreflexive(a@);
        }
        chars_lex_lt(&a, &b)
    }
}

/// The keys of a list of values.
pub open spec fn keys<T: Keyed>(v: Seq<T>) -> Seq<Seq<Seq<char>>> {
    Seq::new(v.len(), |i: int| v[i].key())
}

/// No value comes after a later one.
pub open spec fn sorted<T: Keyed>(v: Seq<T>) -> bool {
    forall|i: int, j: int| 0 <= i < j < v.len() ==> key_le(#[trigger] v[i].key(), #[trigger] v[j].key())
}

/// Every value comes strictly before every later one.
pub open spec fn strictly_sorted<T: Keyed>(v: Seq<T>) -> bool {
    forall|i: int, j: int| 0 <= i < j < v.len() ==> key_lt(#[trigger] v[i].key(), #[trigger] v[j].key())
}

/// Whether a value with the key `k` is in the list.
pub open spec fn has_key<T: Keyed>(v: Seq<T>, k: Seq<Seq<char>>) -> bool {
    exists|i: int| 0 <= i < v.len() && #[trigger] v[i].key() == k
}

/// The values of `v` in the order of their keys.
pub fn sort_by_key<T: Keyed>(v: Vec<T>) -> (out: Vec<T>)
    ensures
        sorted(out@),
        out@.to_multiset() == v@.to_multiset(),
        keys(out@).to_multiset() == keys(v@).to_multiset(),
{
    let mut rest = v;
    let mut out: Vec<T> = Vec::new();
    proof {
        lemma_multiset_commutative(out@, rest@);
        assert(out@ + rest@ =~= v@);
        lemma_multiset_commutative(keys(out@), keys(rest@));
        assert(keys(out@) + keys(rest@) =~= keys(v@));
    }
    while rest.len() > 0
        invariant
            sorted(out@),
            out@.to_multiset().add(rest@.to_multiset()) == v@.to_multiset(),
            keys(out@).to_multiset().add(keys(rest@).to_multiset()) == keys(v@).to_multiset(),
        decreases rest.len(),
    {
        let ghost before = rest@;
        let x = rest.pop().unwrap();
        proof {
            assert(before =~= rest@.push(x));
            to_multiset_build(rest@, x);
            assert(keys(before) =~= keys(rest@).push(x.key()));
            to_multiset_build(keys(rest@), x.key());
        }
        let mut j: usize = 0;
        while j < out.len() && out[j].precedes(&x)
            invariant
                j <= out.len(),
                forall|k: int| 0 <= k < j ==> key_lt(#[trigger] out@[k].key(), x.key()),
            decreases out.len() - j,
        {
            j += 1;
        }
        let ghost old_out = out@;
        out.insert(j, x);
        proof {
            broadcast use vstd::multiset::group_multiset_axioms;

            to_multiset_insert(old_out, j as int, x);
            assert(out@.to_multiset().add(rest@.to_multiset()) =~= v@.to_multiset());
            assert(keys(out@) =~= keys(old_out).insert(j as int, x.key()));
            to_multiset_insert(keys(old_out), j as int, x.key());
            assert(keys(out@).to_multiset().add(keys(rest@).to_multiset()) =~= keys(
                v@,
            ).to_multiset());
            assert forall|a: int, b: int| 0 <= a < b < out@.len() implies key_le(
                #[trigger] out@[a].key(),
                #[trigger] out@[b].key(),
            ) by {
                if b < j {
                    assert(out@[a] == old_out[a] && out@[b] == old_out[b]);
                } else if b == j {
                    assert(out@[a] == old_out[a]);
                    lemma_key_asymmetric(out@[a].key(), x.key());
                } else if a < j {
                    assert(out@[a] == old_out[a] && out@[b] == old_out[b - 1]);
                } else if a == j {
                    assert(out@[b] == old_out[b - 1]);
                    // x <= old_out[j] <= old_out[b - 1]
                    if b - 1 > j {
                        assert(key_le(old_out[j as int].key(), old_out[b - 1].key()));
                    }
                    if key_lt(old_out[b - 1].key(), x.key()) {
                        if b - 1 > j {
                            lemma_key_le_lt(
                                old_out[j as int].key(),
                                old_out[b - 1].key(),
                                x.key(),
                            );
                        }
                    }
                } else {
                    assert(out@[a] == old_out[a - 1] && out@[b] == old_out[b - 1]);
                }
            }
        }
    }
    proof {
        lemma_multiset_commutative(out@, rest@);
        assert(out@ + rest@ =~= out@);
        lemma_multiset_commutative(keys(out@), keys(rest@));
        assert(keys(out@) + keys(rest@) =~= keys(out@));
    }
    out
}

/// The values of a sorted list without those whose key the value before
/// them has too.
pub(crate) fn dedup_sorted<T: Keyed>(v: Vec<T>) -> (out: Vec<T>)
    requires
        sorted(v@),
    ensures
        strictly_sorted(out@),
        forall|k: Seq<Seq<char>>| has_key(out@, k) <==> has_key(v@, k),
        forall|i: int| 0 <= i < out@.len() ==> v@.contains(#[trigger] out@[i]),
{
    let ghost all = v@;
    let mut rest = v;
    let mut back: Vec<T> = Vec::new();
    // `back` holds the values kept so far from the end of the list, last first.
    while rest.len() > 0
        invariant
            rest@.len() <= all.len(),
            rest@ == all.take(rest@.len() as int),
            sorted(all),
            forall|i: int, j: int|
                0 <= i < j < back@.len() ==> key_lt(
                    #[trigger] back@[j].key(),
                    #[trigger] back@[i].key(),
                ),
            forall|i: int| 0 <= i < back@.len() ==> all.contains(#[trigger] back@[i]),
            forall|i: int|
                rest@.len() <= i < all.len() ==> has_key(back@, (#[trigger] all[i]).key()),
            back@.len() > 0 ==> rest@.len() < all.len() && back@.last().key()
                == all[rest@.len() as int].key(),
        decreases rest.len(),
    {
        let ghost n = rest@.len() as int;
        let x = rest.pop().unwrap();
        assert(x == all[n - 1]);
        assert(rest@ =~= all.take(n - 1));
        let fresh = back.len() == 0 || x.precedes(&back[back.len() - 1]);
        let ghost old_back = back@;
        if fresh {
            back.push(x);
            proof {
                assert forall|i: int, j: int| 0 <= i < j < back@.len() implies key_lt(
                    #[trigger] back@[j].key(),
                    #[trigger] back@[i].key(),
                ) by {
                    if j == back@.len() - 1 {
                        if i < old_back.len() - 1 {
                            assert(key_lt(old_back.last().key(), old_back[i].key()));
                            lemma_key_transitive(
                                x.key(),
                                old_back.last().key(),
                                old_back[i].key(),
                            );
                        }
                    }
                }
                assert forall|i: int| n - 1 <= i < all.len() implies has_key(
                    back@,
                    (#[trigger] all[i]).key(),
                ) by {
                    if i == n - 1 {
                        assert(back@[back@.len() - 1].key() == all[i].key());
                    } else {
                        let w = choose|w: int|
                            0 <= w < old_back.len() && #[trigger] old_back[w].key()
                                == all[i].key();
                        assert(back@[w].key() == all[i].key());
                    }
                }
                assert(all.contains(x));
            }
        } else {
            proof {
                // x <= all[n] in the sorted list and not x < all[n]: the keys are equal
                assert(key_le(all[n - 1].key(), all[n].key()));
                lemma_key_total(x.key(), back@.last().key());
                assert(x.key() == back@.last().key());
                assert forall|i: int| n - 1 <= i < all.len() implies has_key(
                    back@,
                    (#[trigger] all[i]).key(),
                ) by {
                    if i == n - 1 {
                        assert(back@[back@.len() - 1].key() == all[i].key());
                    }
                }
            }
        }
    }
    let mut out: Vec<T> = Vec::new();
    let ghost kept = back@;
    while back.len() > 0
        invariant
            back@.len() <= kept.len(),
            back@ == kept.take(back@.len() as int),
            out@.len() == kept.len() - back@.len(),
            forall|i: int| 0 <= i < out@.len() ==> #[trigger] out@[i] == kept[kept.len() - 1 - i],
        decreases back.len(),
    {
        let ghost m = back@.len() as int;
        let x = back.pop().unwrap();
        assert(x == kept[m - 1]);
        assert(back@ =~= kept.take(m - 1));
        out.push(x);
    }
    proof {
        assert forall|i: int, j: int| 0 <= i < j < out@.len() implies key_lt(
            #[trigger] out@[i].key(),
            #[trigger] out@[j].key(),
        ) by {
            let a = kept.len() - 1 - j;
            let b = kept.len() - 1 - i;
            assert(key_lt(kept[b].key(), kept[a].key()));
        }
        assert forall|k: Seq<Seq<char>>| has_key(out@, k) <==> has_key(all, k) by {
            if has_key(out@, k) {
                let w = choose|w: int| 0 <= w < out@.len() && #[trigger] out@[w].key() == k;
                let x = kept[kept.len() - 1 - w];
                assert(all.contains(x));
                let z = choose|z: int| 0 <= z < all.len() && all[z] == x;
                assert(all[z].key() == k);
            }
            if has_key(all, k) {
                let z = choose|z: int| 0 <= z < all.len() && #[trigger] all[z].key() == k;
                assert(has_key(kept, all[z].key()));
                let w = choose|w: int| 0 <= w < kept.len() && #[trigger] kept[w].key() == k;
                assert(out@[kept.len() - 1 - w].key() == k);
            }
        }
        assert forall|i: int| 0 <= i < out@.len() implies all.contains(#[trigger] out@[i]) by {
            assert(all.contains(kept[kept.len() - 1 - i]));
        }
    }
    out
}

/// The texts of a key that is held as lists of characters.
pub open spec fn rows(v: Seq<Vec<char>>) -> Seq<Seq<char>> {
    Seq::new(v.len(), |i: int| v[i]@)
}

/// Whether the key `a` comes strictly before the key `b`.
pub fn rows_precede(a: &Vec<Vec<char>>, b: &Vec<Vec<char>>) -> (r: bool)
    ensures
        r == key_lt(rows(a@), rows(b@)),
{
    let ghost x = rows(a@);
    let ghost y = rows(b@);
    let mut i: usize = 0;
    proof {
        assert(x.skip(0) =~= x);
        assert(y.skip(0) =~= y);
    }
    while i < a.len() && i < b.len()
        invariant
            i <= a.len(),
            i <= b.len(),
            x == rows(a@),
            y == rows(b@),
            key_lt(x, y) == key_lt(x.skip(i as int), y.skip(i as int)),
        decreases a.len() - i,
    {
        let ghost p = x.skip(i as int);
        let ghost q = y.skip(i as int);
        assert(p[0] == a@[i as int]@ && q[0] == b@[i as int]@);
        assert(p.drop_first() =~= x.skip(i + 1));
        assert(q.drop_first() =~= y.skip(i + 1));
        if !chars_eq(&a[i], &b[i]) {
            return chars_lex_lt(&a[i], &b[i]);
        }
        i += 1;
    }
    i < b.len()
}

/// The order of keys as a relation.
pub open spec fn key_order() -> spec_fn(Seq<Seq<char>>, Seq<Seq<char>>) -> bool {
    |a: Seq<Seq<char>>, b: Seq<Seq<char>>| key_le(a, b)
}

/// The order of keys is total: any two keys compare, and keys that come
/// before each other are the same key.
pub proof fn lemma_key_order_total()
    ensures
        vstd::relations::total_ordering(key_order()),
{
    let r = key_order();
    assert forall|x: Seq<Seq<char>>| #[trigger] r(x, x) by {
        lemma_key_irreflexive(x);
    }
    assert forall|x: Seq<Seq<char>>, y: Seq<Seq<char>>| #[trigger]
        r(x, y) && #[trigger] r(y, x) implies x == y by {
        lemma_key_total(x, y);
    }
    assert forall|x: Seq<Seq<char>>, y: Seq<Seq<char>>, z: Seq<Seq<char>>| #[trigger]
        r(x, y) && #[trigger] r(y, z) implies r(x, z) by {
        if key_lt(z, x) {
            lemma_key_total(x, y);
            if x != y {
                lemma_key_transitive(z, x, y);
            }
        }
    }
    assert forall|x: Seq<Seq<char>>, y: Seq<Seq<char>>| #[trigger]
        r(x, y) || #[trigger] r(y, x) by {
        lemma_key_asymmetric(x, y);
    }
}

/// Two sorted lists whose keys are the same, each as often, have the same
/// keys in the same places.
pub proof fn lemma_sorted_keys_unique<T: Keyed>(a: Seq<T>, b: Seq<T>)
    requires
        sorted(a),
        sorted(b),
        keys(a).to_multiset() == keys(b).to_multiset(),
    ensures
        keys(a) == keys(b),
{
    lemma_key_order_total();
    let r = key_order();
    assert(vstd::relations::sorted_by(keys(a), r)) by {
        assert forall|i: int, j: int| 0 <= i < j < keys(a).len() implies #[trigger] r(
            keys(a)[i],
            keys(a)[j],
        ) by {
            assert(key_le(a[i].key(), a[j].key()));
        }
    }
    assert(vstd::relations::sorted_by(keys(b), r)) by {
        assert forall|i: int, j: int| 0 <= i < j < keys(b).len() implies #[trigger] r(
            keys(b)[i],
            keys(b)[j],
        ) by {
            assert(key_le(b[i].key(), b[j].key()));
        }
    }
    lemma_sorted_unique(keys(a), keys(b), r);
}

/// A list in the opposite order.
pub fn reversed<T>(v: Vec<T>) -> (out: Vec<T>)
    ensures
        out@ == v@.reverse(),
{
    let mut rest = v;
    let mut out: Vec<T> = Vec::new();
    while rest.len() > 0
        invariant
            rest@.len() <= v@.len(),
            rest@ == v@.take(rest@.len() as int),
            out@.len() == v@.len() - rest@.len(),
            forall|i: int| 0 <= i < out@.len() ==> #[trigger] out@[i] == v@[v@.len() - 1 - i],
        decreases rest.len(),
    {
        let ghost m = rest@.len() as int;
        let x = rest.pop().unwrap();
        assert(x == v@[m - 1]);
        assert(rest@ =~= v@.take(m - 1));
        out.push(x);
    }
    assert(out@ =~= v@.reverse());
    out
}

} // verus!
