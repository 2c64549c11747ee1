//! Association lists (vectors of key-value pairs) read as maps.
use vstd::prelude::*;

verus! {

/// No key occurs twice in an association list.
pub open spec fn keys_distinct<K, V>(s: Seq<(K, V)>) -> bool {
    forall|i: int, j: int| 0 <= i < s.len() && 0 <= j < s.len() && i != j ==> s[i].0 != s[j].0
}

/// Some entry of the list carries `name`.
pub open spec fn has_key<K, V>(s: Seq<(K, V)>, name: K) -> bool {
    exists|i: int| 0 <= i < s.len() && s[i].0 == name
}

/// The map that an association list stands for.
pub open spec fn assoc_map<K, V>(s: Seq<(K, V)>) -> Map<K, V> {
    Map::new(
        |k: K| has_key(s, k),
        |k: K| s[choose|i: int| 0 <= i < s.len() && s[i].0 == k].1,
    )
}

/// Inserting each pair in turn, a later pair replacing an earlier one of the
/// same name.
pub open spec fn fold_insert<K, V>(s: Seq<(K, V)>) -> Map<K, V>
    decreases s.len(),
{
    if s.len() == 0 {
        Map::empty()
    } else {
        fold_insert(s.drop_last()).insert(s.last().0, s.last().1)
    }
}

pub proof fn lemma_assoc_at<K, V>(s: Seq<(K, V)>, i: int)
    requires
        keys_distinct(s),
        0 <= i < s.len(),
    ensures
        assoc_map(s).contains_key(s[i].0),
        assoc_map(s)[s[i].0] == s[i].1,
{
    let k = s[i].0;
    assert(has_key(s, k));
    let j = choose|j: int| 0 <= j < s.len() && s[j].0 == k;
    assert(j == i);
}

pub proof fn lemma_assoc_update<K, V>(s: Seq<(K, V)>, i: int, b: V)
    requires
        keys_distinct(s),
        0 <= i < s.len(),
    ensures
        keys_distinct(s.update(i, (s[i].0, b))),
        assoc_map(s.update(i, (s[i].0, b))) == assoc_map(s).insert(s[i].0, b),
{
    let t = s.update(i, (s[i].0, b));
    let k = s[i].0;
    assert(keys_distinct(t));
    assert forall|n: K| has_key(t, n) <==> has_key(s, n) by {
        if has_key(t, n) {
            let j = choose|j: int| 0 <= j < t.len() && t[j].0 == n;
            assert(s[j].0 == n);
        }
        if has_key(s, n) {
            let j = choose|j: int| 0 <= j < s.len() && s[j].0 == n;
            assert(t[j].0 == n);
        }
    }
    assert forall|n: K| #[trigger] assoc_map(t).contains_key(n) implies assoc_map(t)[n] == assoc_map(s).insert(k, b)[n] by {
        let j = choose|j: int| 0 <= j < t.len() && t[j].0 == n;
        lemma_assoc_at(t, j);
        lemma_assoc_at(s, j);
        if j != i {
            assert(n != k);
        }
    }
    assert(has_key(s, k)) by {
        assert(s[i].0 == k);
    }
    assert(assoc_map(t) =~= assoc_map(s).insert(k, b));
}

pub proof fn lemma_assoc_push<K, V>(s: Seq<(K, V)>, k: K, b: V)
    requires
        keys_distinct(s),
        !has_key(s, k),
    ensures
        keys_distinct(s.push((k, b))),
        assoc_map(s.push((k, b))) == assoc_map(s).insert(k, b),
{
    let t = s.push((k, b));
    assert(keys_distinct(t)) by {
        assert forall|i: int, j: int| 0 <= i < t.len() && 0 <= j < t.len() && i != j implies t[i].0 != t[j].0 by {
            if i == s.len() as int {
                assert(s[j].0 != k);
            } else if j == s.len() as int {
                assert(s[i].0 != k);
            }
        }
    }
    assert forall|n: K| has_key(t, n) <==> (has_key(s, n) || n == k) by {
        if has_key(t, n) {
            let j = choose|j: int| 0 <= j < t.len() && t[j].0 == n;
            if j < s.len() {
                assert(s[j].0 == n);
            }
        }
        if has_key(s, n) {
            let j = choose|j: int| 0 <= j < s.len() && s[j].0 == n;
            assert(t[j].0 == n);
        }
        if n == k {
            assert(t[s.len() as int].0 == n);
        }
    }
    assert forall|n: K| #[trigger] assoc_map(t).contains_key(n) implies assoc_map(t)[n] == assoc_map(s).insert(k, b)[n] by {
        let j = choose|j: int| 0 <= j < t.len() && t[j].0 == n;
        lemma_assoc_at(t, j);
        if j < s.len() {
            lemma_assoc_at(s, j);
        }
    }
    assert(assoc_map(t) =~= assoc_map(s).insert(k, b));
}

pub proof fn lemma_assoc_remove<K, V>(s: Seq<(K, V)>, i: int)
    requires
        keys_distinct(s),
        0 <= i < s.len(),
    ensures
        keys_distinct(s.remove(i)),
        assoc_map(s.remove(i)) == assoc_map(s).remove(s[i].0),
{
    let t = s.remove(i);
    let k = s[i].0;
    assert(keys_distinct(t)) by {
        assert forall|a: int, c: int| 0 <= a < t.len() && 0 <= c < t.len() && a != c implies t[a].0 != t[c].0 by {
            let a2 = if a < i { a } else { a + 1 };
            let c2 = if c < i { c } else { c + 1 };
            assert(t[a] == s[a2]);
            assert(t[c] == s[c2]);
        }
    }
    assert forall|n: K| has_key(t, n) <==> (has_key(s, n) && n != k) by {
        if has_key(t, n) {
            let j = choose|j: int| 0 <= j < t.len() && t[j].0 == n;
            let j2 = if j < i { j } else { j + 1 };
            assert(s[j2].0 == n);
            assert(j2 != i);
        }
        if has_key(s, n) && n != k {
            let j = choose|j: int| 0 <= j < s.len() && s[j].0 == n;
            assert(j != i);
            let j2 = if j < i { j } else { j - 1 };
            assert(t[j2].0 == n);
        }
    }
    assert forall|n: K| #[trigger] assoc_map(t).contains_key(n) implies assoc_map(t)[n] == assoc_map(s).remove(k)[n] by {
        let j = choose|j: int| 0 <= j < t.len() && t[j].0 == n;
        lemma_assoc_at(t, j);
        let j2 = if j < i { j } else { j + 1 };
        lemma_assoc_at(s, j2);
    }
    assert(assoc_map(t) =~= assoc_map(s).remove(k));
}

pub proof fn lemma_has_key_take<K, V>(s: Seq<(K, V)>, j: int)
    requires
        0 <= j < s.len(),
    ensures
        forall|n: K| #[trigger] has_key(s.take(j + 1), n) <==> (has_key(s.take(j), n) || n == s[j].0),
{
    let a = s.take(j);
    let b = s.take(j + 1);
    assert forall|n: K| has_key(b, n) <==> (has_key(a, n) || n == s[j].0) by {
        if has_key(b, n) {
            let t = choose|t: int| 0 <= t < b.len() && b[t].0 == n;
            if t < j {
                assert(a[t].0 == n);
            }
        }
        if has_key(a, n) {
            let t = choose|t: int| 0 <= t < a.len() && a[t].0 == n;
            assert(b[t].0 == n);
        }
        if n == s[j].0 {
            assert(b[j].0 == n);
        }
    }
}

pub proof fn lemma_fold_insert_distinct<K, V>(s: Seq<(K, V)>)
    requires
        keys_distinct(s),
    ensures
        fold_insert(s) == assoc_map(s),
    decreases s.len(),
{
    if s.len() == 0 {
        assert(assoc_map(s) =~= Map::empty());
    } else {
        let p = s.drop_last();
        assert(keys_distinct(p));
        lemma_fold_insert_distinct(p);
        assert(!has_key(p, s.last().0)) by {
            if has_key(p, s.last().0) {
                let j = choose|j: int| 0 <= j < p.len() && p[j].0 == s.last().0;
                assert(s[j].0 == s[s.len() - 1].0);
            }
        }
        lemma_assoc_push(p, s.last().0, s.last().1);
        assert(p.push((s.last().0, s.last().1)) =~= s);
    }
}

pub proof fn lemma_same_keys<K, V>(a: Seq<(K, V)>, b: Seq<(K, V)>)
    requires
        a.len() == b.len(),
        forall|t: int| 0 <= t < a.len() ==> #[trigger] a[t].0 == b[t].0,
    ensures
        forall|k: K| has_key(a, k) <==> has_key(b, k),
        keys_distinct(a) <==> keys_distinct(b),
{
    assert forall|k: K| has_key(a, k) <==> has_key(b, k) by {
        if has_key(a, k) {
            let t = choose|t: int| 0 <= t < a.len() && a[t].0 == k;
            assert(b[t].0 == k);
        }
        if has_key(b, k) {
            let t = choose|t: int| 0 <= t < b.len() && b[t].0 == k;
            assert(a[t].0 == k);
        }
    }
    if keys_distinct(a) {
        assert forall|i: int, j: int| 0 <= i < b.len() && 0 <= j < b.len() && i != j implies b[i].0 != b[j].0 by {
            assert(a[i].0 == b[i].0 && a[j].0 == b[j].0);
        }
    }
    if keys_distinct(b) {
        assert forall|i: int, j: int| 0 <= i < a.len() && 0 <= j < a.len() && i != j implies a[i].0 != a[j].0 by {
            assert(a[i].0 == b[i].0 && a[j].0 == b[j].0);
        }
    }
}

} // verus!
