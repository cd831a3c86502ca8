//! Sequences kept in strictly increasing key order, the model of the MIB's keyed tables.
use vstd::prelude::*;

verus! {

/// `lt` is a strict total order.
pub open spec fn strict_order<K>(lt: spec_fn(K, K) -> bool) -> bool {
    &&& forall|a: K| !#[trigger] lt(a, a)
    &&& forall|a: K, b: K, c: K| #[trigger] lt(a, b) && #[trigger] lt(b, c) ==> lt(a, c)
    &&& forall|a: K, b: K| a != b ==> #[trigger] lt(a, b) || lt(b, a)
}

/// Keys of `s` strictly increase.
pub open spec fn sorted_by<T, K>(s: Seq<T>, key: spec_fn(T) -> K, lt: spec_fn(K, K) -> bool) -> bool {
    forall|i: int, j: int| 0 <= i < j < s.len() ==> lt(key(#[trigger] s[i]), key(#[trigger] s[j]))
}

/// `s` with `x` put in key order, replacing the element of the same key.
pub open spec fn insert_sorted<T, K>(s: Seq<T>, x: T, key: spec_fn(T) -> K, lt: spec_fn(K, K) -> bool) -> Seq<T>
    decreases s.len(),
{
    if s.len() == 0 {
        seq![x]
    } else if key(s[0]) == key(x) {
        seq![x] + s.drop_first()
    } else if lt(key(x), key(s[0])) {
        seq![x] + s
    } else {
        seq![s[0]] + insert_sorted(s.drop_first(), x, key, lt)
    }
}

/// `s` without its elements of key `k`.
pub open spec fn remove_key<T, K>(s: Seq<T>, k: K, key: spec_fn(T) -> K) -> Seq<T>
    decreases s.len(),
{
    if s.len() == 0 {
        s
    } else if key(s[0]) == k {
        remove_key(s.drop_first(), k, key)
    } else {
        seq![s[0]] + remove_key(s.drop_first(), k, key)
    }
}

/// The first element of `s` with key `k`.
pub open spec fn lookup_key<T, K>(s: Seq<T>, k: K, key: spec_fn(T) -> K) -> Option<T>
    decreases s.len(),
{
    if s.len() == 0 {
        None
    } else if key(s[0]) == k {
        Some(s[0])
    } else {
        lookup_key(s.drop_first(), k, key)
    }
}

proof fn lemma_sorted_tail<T, K>(s: Seq<T>, key: spec_fn(T) -> K, lt: spec_fn(K, K) -> bool)
    requires
        sorted_by(s, key, lt),
        s.len() > 0,
    ensures
        sorted_by(s.drop_first(), key, lt),
        forall|j: int| 0 <= j < s.drop_first().len() ==> lt(key(s[0]), key(#[trigger] s.drop_first()[j])),
{
    let t = s.drop_first();
    assert forall|i: int, j: int| 0 <= i < j < t.len() implies lt(key(#[trigger] t[i]), key(#[trigger] t[j])) by {
        assert(t[i] == s[i + 1] && t[j] == s[j + 1]);
    }
    assert forall|j: int| 0 <= j < t.len() implies lt(key(s[0]), key(#[trigger] t[j])) by {
        assert(t[j] == s[j + 1]);
    }
}

proof fn lemma_sorted_cons<T, K>(x: T, s: Seq<T>, key: spec_fn(T) -> K, lt: spec_fn(K, K) -> bool)
    requires
        sorted_by(s, key, lt),
        forall|j: int| 0 <= j < s.len() ==> lt(key(x), key(#[trigger] s[j])),
    ensures
        sorted_by(seq![x] + s, key, lt),
{
    let r = seq![x] + s;
    assert forall|i: int, j: int| 0 <= i < j < r.len() implies lt(key(#[trigger] r[i]), key(#[trigger] r[j])) by {
        assert(r[j] == s[j - 1]);
        if i > 0 {
            assert(r[i] == s[i - 1]);
        }
    }
}

/// Inserting keeps the order; the inserted key maps to `x`; other keys keep their element.
pub proof fn lemma_insert_sorted<T, K>(s: Seq<T>, x: T, key: spec_fn(T) -> K, lt: spec_fn(K, K) -> bool)
    requires
        strict_order(lt),
        sorted_by(s, key, lt),
    ensures
        sorted_by(insert_sorted(s, x, key, lt), key, lt),
        insert_sorted(s, x, key, lt).len() > 0,
        insert_sorted(s, x, key, lt)[0] == x || (s.len() > 0 && insert_sorted(s, x, key, lt)[0] == s[0]),
        lookup_key(insert_sorted(s, x, key, lt), key(x), key) == Some(x),
        forall|k: K| k != key(x) ==> #[trigger] lookup_key(insert_sorted(s, x, key, lt), k, key) == lookup_key(s, k, key),
    decreases s.len(),
{
    let r = insert_sorted(s, x, key, lt);
    if s.len() == 0 {
        assert(r.drop_first() =~= Seq::<T>::empty());
        assert forall|k: K| k != key(x) implies #[trigger] lookup_key(r, k, key) == lookup_key(s, k, key) by {
            assert(lookup_key(r.drop_first(), k, key) == None::<T>);
        }
    } else if key(s[0]) == key(x) {
        lemma_sorted_tail(s, key, lt);
        assert(r.drop_first() =~= s.drop_first());
        lemma_sorted_cons(x, s.drop_first(), key, lt);
        assert forall|k: K| k != key(x) implies #[trigger] lookup_key(r, k, key) == lookup_key(s, k, key) by {
            assert(lookup_key(r, k, key) == lookup_key(r.drop_first(), k, key));
        }
    } else if lt(key(x), key(s[0])) {
        assert(r.drop_first() =~= s);
        assert forall|k: K| k != key(x) implies #[trigger] lookup_key(r, k, key) == lookup_key(s, k, key) by {
            assert(lookup_key(r, k, key) == lookup_key(r.drop_first(), k, key));
        }
        assert forall|j: int| 0 <= j < s.len() implies lt(key(x), key(#[trigger] s[j])) by {
            if j > 0 {
                assert(lt(key(s[0]), key(s[j])));
            }
        }
        lemma_sorted_cons(x, s, key, lt);
    } else {
        let t = s.drop_first();
        lemma_sorted_tail(s, key, lt);
        lemma_insert_sorted(t, x, key, lt);
        let rt = insert_sorted(t, x, key, lt);
        assert(r.drop_first() =~= rt);
        assert(lt(key(s[0]), key(x)));
        assert forall|j: int| 0 <= j < rt.len() implies lt(key(s[0]), key(#[trigger] rt[j])) by {
            if rt[0] == x {
                if j > 0 {
                    assert(lt(key(rt[0]), key(rt[j])));
                }
            } else {
                assert(rt[0] == t[0]);
                if j > 0 {
                    assert(lt(key(rt[0]), key(rt[j])));
                }
            }
        }
        lemma_sorted_cons(s[0], rt, key, lt);
        assert(r =~= seq![s[0]] + rt);
        assert forall|k: K| k != key(x) implies #[trigger] lookup_key(r, k, key) == lookup_key(s, k, key) by {
            if key(s[0]) != k {
                assert(lookup_key(r, k, key) == lookup_key(rt, k, key));
            }
        }
        assert(lookup_key(r, key(x), key) == lookup_key(rt, key(x), key));
    }
}

/// Inserting after a prefix of smaller keys leaves that prefix in place.
pub proof fn lemma_insert_split<T, K>(s: Seq<T>, x: T, i: int, key: spec_fn(T) -> K, lt: spec_fn(K, K) -> bool)
    requires
        strict_order(lt),
        0 <= i <= s.len(),
        forall|j: int| 0 <= j < i ==> lt(key(#[trigger] s[j]), key(x)),
    ensures
        insert_sorted(s, x, key, lt) == s.take(i) + insert_sorted(s.skip(i), x, key, lt),
    decreases i,
{
    if i == 0 {
        assert(s.skip(0) =~= s);
        assert(s.take(0) + insert_sorted(s, x, key, lt) =~= insert_sorted(s, x, key, lt));
    } else {
        let t = s.drop_first();
        assert(lt(key(s[0]), key(x)));
        assert(key(s[0]) != key(x));
        assert(!lt(key(x), key(s[0])));
        assert forall|j: int| 0 <= j < i - 1 implies lt(key(#[trigger] t[j]), key(x)) by {
            assert(t[j] == s[j + 1]);
        }
        lemma_insert_split(t, x, i - 1, key, lt);
        assert(t.skip(i - 1) =~= s.skip(i));
        assert(s.take(i) =~= seq![s[0]] + t.take(i - 1));
        assert(insert_sorted(s, x, key, lt) == seq![s[0]] + insert_sorted(t, x, key, lt));
        assert(seq![s[0]] + (t.take(i - 1) + insert_sorted(t.skip(i - 1), x, key, lt))
            =~= s.take(i) + insert_sorted(s.skip(i), x, key, lt));
    }
}

/// Removing keeps the order; the removed key maps to nothing; other keys keep their element.
pub proof fn lemma_remove_key<T, K>(s: Seq<T>, k: K, key: spec_fn(T) -> K, lt: spec_fn(K, K) -> bool)
    requires
        strict_order(lt),
        sorted_by(s, key, lt),
    ensures
        sorted_by(remove_key(s, k, key), key, lt),
        lookup_key(remove_key(s, k, key), k, key) == None::<T>,
        forall|k2: K| k2 != k ==> #[trigger] lookup_key(remove_key(s, k, key), k2, key) == lookup_key(s, k2, key),
        forall|j: int| 0 <= j < remove_key(s, k, key).len() ==> (exists|m: int| 0 <= m < s.len() && s[m] == #[trigger] remove_key(s, k, key)[j]),
    decreases s.len(),
{
    let r = remove_key(s, k, key);
    if s.len() > 0 {
        let t = s.drop_first();
        lemma_sorted_tail(s, key, lt);
        lemma_remove_key(t, k, key, lt);
        let rt = remove_key(t, k, key);
        if key(s[0]) == k {
            assert(r == rt);
            assert forall|j: int| 0 <= j < r.len() implies (exists|m: int| 0 <= m < s.len() && s[m] == #[trigger] r[j]) by {
                let m = choose|m: int| 0 <= m < t.len() && t[m] == rt[j];
                assert(s[m + 1] == r[j]);
            }
        } else {
            assert(r =~= seq![s[0]] + rt);
            assert forall|j: int| 0 <= j < rt.len() implies lt(key(s[0]), key(#[trigger] rt[j])) by {
                let m = choose|m: int| 0 <= m < t.len() && t[m] == rt[j];
            }
            lemma_sorted_cons(s[0], rt, key, lt);
            assert forall|j: int| 0 <= j < r.len() implies (exists|m: int| 0 <= m < s.len() && s[m] == #[trigger] r[j]) by {
                if j == 0 {
                    assert(s[0] == r[0]);
                } else {
                    assert(r[j] == rt[j - 1]);
                    let m = choose|m: int| 0 <= m < t.len() && t[m] == rt[j - 1];
                    assert(s[m + 1] == r[j]);
                }
            }
            assert(r.drop_first() =~= rt);
            assert forall|k2: K| k2 != k implies #[trigger] lookup_key(r, k2, key) == lookup_key(s, k2, key) by {
                if key(s[0]) != k2 {
                    assert(lookup_key(r, k2, key) == lookup_key(rt, k2, key));
                }
            }
        }
    }
}

/// Removal passes over a prefix of other keys.
pub proof fn lemma_remove_split<T, K>(s: Seq<T>, k: K, i: int, key: spec_fn(T) -> K)
    requires
        0 <= i <= s.len(),
        forall|j: int| 0 <= j < i ==> key(#[trigger] s[j]) != k,
    ensures
        remove_key(s, k, key) == s.take(i) + remove_key(s.skip(i), k, key),
    decreases i,
{
    if i == 0 {
        assert(s.skip(0) =~= s);
        assert(s.take(0) + remove_key(s, k, key) =~= remove_key(s, k, key));
    } else {
        let t = s.drop_first();
        assert forall|j: int| 0 <= j < i - 1 implies key(#[trigger] t[j]) != k by {
            assert(t[j] == s[j + 1]);
        }
        lemma_remove_split(t, k, i - 1, key);
        assert(t.skip(i - 1) =~= s.skip(i));
        assert(seq![s[0]] + (t.take(i - 1) + remove_key(t.skip(i - 1), k, key))
            =~= s.take(i) + remove_key(s.skip(i), k, key));
    }
}

/// In a sorted sequence, removing the first element's key drops just that element.
pub proof fn lemma_remove_first<T, K>(s: Seq<T>, key: spec_fn(T) -> K, lt: spec_fn(K, K) -> bool)
    requires
        strict_order(lt),
        sorted_by(s, key, lt),
        s.len() > 0,
    ensures
        remove_key(s, key(s[0]), key) == s.drop_first(),
{
    lemma_sorted_tail(s, key, lt);
    lemma_remove_absent(s.drop_first(), key(s[0]), key);
}

/// Removing a key that no element has changes nothing.
pub proof fn lemma_remove_absent<T, K>(s: Seq<T>, k: K, key: spec_fn(T) -> K)
    requires
        forall|j: int| 0 <= j < s.len() ==> key(#[trigger] s[j]) != k,
    ensures
        remove_key(s, k, key) == s,
{
    lemma_remove_split(s, k, s.len() as int, key);
    assert(s.skip(s.len() as int) =~= Seq::<T>::empty());
    assert(s.take(s.len() as int) + Seq::<T>::empty() =~= s);
}

/// Lookup passes over a prefix of other keys.
pub proof fn lemma_lookup_split<T, K>(s: Seq<T>, k: K, i: int, key: spec_fn(T) -> K)
    requires
        0 <= i <= s.len(),
        forall|j: int| 0 <= j < i ==> key(#[trigger] s[j]) != k,
    ensures
        lookup_key(s, k, key) == lookup_key(s.skip(i), k, key),
    decreases i,
{
    if i == 0 {
        assert(s.skip(0) =~= s);
    } else {
        let t = s.drop_first();
        assert forall|j: int| 0 <= j < i - 1 implies key(#[trigger] t[j]) != k by {
            assert(t[j] == s[j + 1]);
        }
        lemma_lookup_split(t, k, i - 1, key);
        assert(t.skip(i - 1) =~= s.skip(i));
    }
}

/// The element found by key is the one at its position.
pub proof fn lemma_lookup_at<T, K>(s: Seq<T>, i: int, key: spec_fn(T) -> K)
    requires
        0 <= i < s.len(),
        forall|j: int| 0 <= j < i ==> key(#[trigger] s[j]) != key(s[i]),
    ensures
        lookup_key(s, key(s[i]), key) == Some(s[i]),
{
    lemma_lookup_split(s, key(s[i]), i, key);
    assert(s.skip(i)[0] == s[i]);
}

/// No element has the key: lookup finds nothing.
pub proof fn lemma_lookup_absent<T, K>(s: Seq<T>, k: K, key: spec_fn(T) -> K)
    requires
        forall|j: int| 0 <= j < s.len() ==> key(#[trigger] s[j]) != k,
    ensures
        lookup_key(s, k, key) == None::<T>,
{
    lemma_lookup_split(s, k, s.len() as int, key);
    assert(s.skip(s.len() as int) =~= Seq::<T>::empty());
}

/// A found element is an element of the sequence with that key.
pub proof fn lemma_lookup_found<T, K>(s: Seq<T>, k: K, key: spec_fn(T) -> K)
    ensures
        lookup_key(s, k, key) matches Some(x) ==> (exists|m: int| 0 <= m < s.len() && s[m] == x && key(x) == k),
    decreases s.len(),
{
    if s.len() > 0 && key(s[0]) != k {
        lemma_lookup_found(s.drop_first(), k, key);
        if let Some(x) = lookup_key(s, k, key) {
            let m = choose|m: int| 0 <= m < s.drop_first().len() && s.drop_first()[m] == x && key(x) == k;
            assert(s[m + 1] == x);
        }
    }
}

/// In a sorted sequence keys are distinct, so an element is what lookup gives for its key.
pub proof fn lemma_lookup_sorted<T, K>(s: Seq<T>, i: int, key: spec_fn(T) -> K, lt: spec_fn(K, K) -> bool)
    requires
        strict_order(lt),
        sorted_by(s, key, lt),
        0 <= i < s.len(),
    ensures
        lookup_key(s, key(s[i]), key) == Some(s[i]),
{
    assert forall|j: int| 0 <= j < i implies key(#[trigger] s[j]) != key(s[i]) by {
        assert(lt(key(s[j]), key(s[i])));
    }
    lemma_lookup_at(s, i, key);
}

/// Replacing an element by one of the same key leaves the lookup of every other key unchanged.
pub proof fn lemma_lookup_update<T, K>(s: Seq<T>, i: int, x: T, k: K, key: spec_fn(T) -> K)
    requires
        0 <= i < s.len(),
        key(x) == key(s[i]),
        k != key(x),
    ensures
        lookup_key(s.update(i, x), k, key) == lookup_key(s, k, key),
    decreases s.len(),
{
    let t = s.update(i, x);
    if i == 0 {
        assert(t.drop_first() =~= s.drop_first());
    } else if key(s[0]) != k {
        assert(t.drop_first() =~= s.drop_first().update(i - 1, x));
        lemma_lookup_update(s.drop_first(), i - 1, x, k, key);
    }
}

/// The identity key.
pub open spec fn self_key<T>() -> spec_fn(T) -> T {
    |t: T| t
}

/// Inserting into a sorted sequence of distinct elements adds exactly that element.
pub proof fn lemma_insert_sorted_contains<T>(s: Seq<T>, x: T, lt: spec_fn(T, T) -> bool)
    requires
        strict_order(lt),
        sorted_by(s, self_key(), lt),
    ensures
        forall|y: T| #[trigger] insert_sorted(s, x, self_key(), lt).contains(y) <==> (s.contains(y) || y == x),
        sorted_by(insert_sorted(s, x, self_key(), lt), self_key(), lt),
    decreases s.len(),
{
    lemma_insert_sorted(s, x, self_key(), lt);
    let r = insert_sorted(s, x, self_key(), lt);
    if s.len() == 0 {
        assert forall|y: T| #[trigger] r.contains(y) <==> (s.contains(y) || y == x) by {
            if y == x {
                assert(r[0] == x);
            }
        }
    } else if s[0] == x {
        assert(r =~= s);
    } else if lt(x, s[0]) {
        assert(r =~= seq![x] + s);
        assert forall|y: T| #[trigger] r.contains(y) <==> (s.contains(y) || y == x) by {
            if s.contains(y) {
                let j = choose|j: int| 0 <= j < s.len() && s[j] == y;
                assert(r[j + 1] == y);
            }
            if y == x {
                assert(r[0] == x);
            }
            if r.contains(y) {
                let j = choose|j: int| 0 <= j < r.len() && r[j] == y;
                if j > 0 {
                    assert(s[j - 1] == y);
                }
            }
        }
    } else {
        let t = s.drop_first();
        lemma_sorted_tail(s, self_key(), lt);
        lemma_insert_sorted_contains(t, x, lt);
        let rt = insert_sorted(t, x, self_key(), lt);
        assert(r =~= seq![s[0]] + rt);
        assert forall|y: T| #[trigger] r.contains(y) <==> (s.contains(y) || y == x) by {
            if s.contains(y) {
                let j = choose|j: int| 0 <= j < s.len() && s[j] == y;
                if j == 0 {
                    assert(r[0] == y);
                } else {
                    assert(t[j - 1] == y);
                    assert(rt.contains(y));
                    let k = choose|k: int| 0 <= k < rt.len() && rt[k] == y;
                    assert(r[k + 1] == y);
                }
            }
            if y == x {
                assert(rt.contains(x));
                let k = choose|k: int| 0 <= k < rt.len() && rt[k] == x;
                assert(r[k + 1] == x);
            }
            if r.contains(y) {
                let j = choose|j: int| 0 <= j < r.len() && r[j] == y;
                if j > 0 {
                    assert(rt[j - 1] == y);
                    assert(rt.contains(y));
                    if y != x {
                        let k = choose|k: int| 0 <= k < t.len() && t[k] == y;
                        assert(s[k + 1] == y);
                    }
                } else {
                    assert(s[0] == y);
                }
            }
        }
    }
}

/// Two lists whose elements agree in key position by position, and agree in
/// full away from key `k0`, find the same elements under every other key, and
/// find an element under the same keys.
pub proof fn lemma_lookup_same_keys<T, K>(s: Seq<T>, t: Seq<T>, k0: K, k: K, key: spec_fn(T) -> K)
    requires
        s.len() == t.len(),
        forall|j: int| 0 <= j < s.len() ==> key(#[trigger] t[j]) == key(s[j]),
        forall|j: int| 0 <= j < s.len() && key(s[j]) != k0 ==> #[trigger] t[j] == s[j],
    ensures
        k != k0 ==> lookup_key(t, k, key) == lookup_key(s, k, key),
        (lookup_key(t, k, key) is Some) == (lookup_key(s, k, key) is Some),
    decreases s.len(),
{
    if s.len() > 0 {
        let s1 = s.drop_first();
        let t1 = t.drop_first();
        assert(key(t[0]) == key(s[0]));
        assert forall|j: int| 0 <= j < s1.len() implies key(#[trigger] t1[j]) == key(s1[j]) by {
            assert(key(t[j + 1]) == key(s[j + 1]));
        }
        assert forall|j: int| 0 <= j < s1.len() && key(s1[j]) != k0 implies #[trigger] t1[j] == s1[j] by {
            assert(t[j + 1] == s[j + 1]);
        }
        lemma_lookup_same_keys(s1, t1, k0, k, key);
    }
}

/// Lists that agree in key position by position are sorted together.
pub proof fn lemma_sorted_same_keys<T, K>(s: Seq<T>, t: Seq<T>, key: spec_fn(T) -> K, lt: spec_fn(K, K) -> bool)
    requires
        sorted_by(s, key, lt),
        s.len() == t.len(),
        forall|j: int| 0 <= j < s.len() ==> key(#[trigger] t[j]) == key(s[j]),
    ensures
        sorted_by(t, key, lt),
{
    assert forall|i: int, j: int| 0 <= i < j < t.len() implies lt(key(#[trigger] t[i]), key(#[trigger] t[j])) by {
        assert(key(t[i]) == key(s[i]));
        assert(key(t[j]) == key(s[j]));
    }
}

} // verus!
