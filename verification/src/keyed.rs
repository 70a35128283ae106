//! Tables keyed by text and kept in ascending key order, which is the
//! order in which an ordered map with string keys walks its entries.
use vstd::prelude::*;

use crate::text::{chars_lt, str_chars, text_lt};

verus! {

broadcast use vstd::string::group_string_axioms;

/// The keys of a table, as texts.
pub open spec fn table_keys<V>(t: Seq<(String, V)>) -> Seq<Seq<char>> {
    t.map_values(|e: (String, V)| e.0@)
}

/// Keys strictly increase along the sequence.
pub open spec fn keys_ascending(keys: Seq<Seq<char>>) -> bool {
    forall|i: int, j: int| 0 <= i < j < keys.len() ==> text_lt(keys[i], keys[j])
}

/// The keys of a sequence of pairs.
pub open spec fn pair_keys<V>(t: Seq<(Seq<char>, V)>) -> Seq<Seq<char>> {
    t.map_values(|e: (Seq<char>, V)| e.0)
}

/// The position of the first key that is not below `k`.
pub open spec fn key_position(keys: Seq<Seq<char>>, k: Seq<char>) -> int
    decreases keys.len(),
{
    if keys.len() == 0 {
        0
    } else if !text_lt(keys[0], k) {
        0
    } else {
        1 + key_position(keys.drop_first(), k)
    }
}

/// Enter `k → v`, replacing the value of an entry with the same key.
pub open spec fn key_insert<V>(t: Seq<(Seq<char>, V)>, k: Seq<char>, v: V) -> Seq<(Seq<char>, V)> {
    let p = key_position(pair_keys(t), k);
    if p < t.len() && t[p].0 == k {
        t.update(p, (k, v))
    } else {
        t.insert(p, (k, v))
    }
}

/// Remove the entry with key `k`, if any.
pub open spec fn key_remove<V>(t: Seq<(Seq<char>, V)>, k: Seq<char>) -> Seq<(Seq<char>, V)> {
    let p = key_position(pair_keys(t), k);
    if p < t.len() && t[p].0 == k {
        t.remove(p)
    } else {
        t
    }
}

/// The value entered for `k`.
pub open spec fn key_lookup<V>(t: Seq<(Seq<char>, V)>, k: Seq<char>) -> Option<V> {
    let p = key_position(pair_keys(t), k);
    if p < t.len() && t[p].0 == k {
        Some(t[p].1)
    } else {
        None
    }
}

/// No text is below itself.
pub proof fn lemma_text_lt_irreflexive(a: Seq<char>)
    ensures
        !text_lt(a, a),
    decreases a.len(),
{
    if a.len() > 0 {
        lemma_text_lt_irreflexive(a.drop_first());
    }
}

/// The text order is transitive.
pub proof fn lemma_text_lt_transitive(a: Seq<char>, b: Seq<char>, c: Seq<char>)
    requires
        text_lt(a, b),
        text_lt(b, c),
    ensures
        text_lt(a, c),
    decreases a.len(),
{
    if a.len() > 0 && b.len() > 0 && c.len() > 0 && a[0] == b[0] && b[0] == c[0] {
        lemma_text_lt_transitive(a.drop_first(), b.drop_first(), c.drop_first());
    }
}

/// Of two different texts, one is below the other, and never both.
pub proof fn lemma_text_lt_total(a: Seq<char>, b: Seq<char>)
    ensures
        a != b ==> (text_lt(a, b) || text_lt(b, a)),
        !(text_lt(a, b) && text_lt(b, a)),
    decreases a.len(),
{
    if a.len() > 0 && b.len() > 0 && a[0] == b[0] {
        lemma_text_lt_total(a.drop_first(), b.drop_first());
        assert(a =~= seq![a[0]] + a.drop_first());
        assert(b =~= seq![b[0]] + b.drop_first());
        if a.drop_first() == b.drop_first() {
            assert(a == b);
        }
    } else if a.len() == 0 && b.len() == 0 {
        assert(a =~= b);
    } else if a.len() > 0 && b.len() > 0 {
        vstd::utf8::char_u32_cast(a[0], a[0] as u32);
        vstd::utf8::char_u32_cast(b[0], b[0] as u32);
    }
}

/// The position of a key lies within the keys.
pub proof fn lemma_key_position_bound(keys: Seq<Seq<char>>, k: Seq<char>)
    ensures
        0 <= key_position(keys, k) <= keys.len(),
    decreases keys.len(),
{
    if keys.len() > 0 {
        lemma_key_position_bound(keys.drop_first(), k);
    }
}

/// In ascending keys, the position of `k` splits the keys into those below
/// `k` and those not below it.
pub proof fn lemma_key_position(keys: Seq<Seq<char>>, k: Seq<char>)
    requires
        keys_ascending(keys),
    ensures
        0 <= key_position(keys, k) <= keys.len(),
        forall|i: int| 0 <= i < key_position(keys, k) ==> text_lt(#[trigger] keys[i], k),
        forall|i: int|
            key_position(keys, k) <= i < keys.len() ==> !text_lt(#[trigger] keys[i], k),
    decreases keys.len(),
{
    if keys.len() > 0 {
        let rest = keys.drop_first();
        assert forall|i: int, j: int| 0 <= i < j < rest.len() implies text_lt(rest[i], rest[j]) by {
            assert(rest[i] == keys[i + 1] && rest[j] == keys[j + 1]);
        }
        lemma_key_position(rest, k);
        if !text_lt(keys[0], k) {
            assert forall|i: int| 0 <= i < keys.len() implies !text_lt(#[trigger] keys[i], k) by {
                if i > 0 && text_lt(keys[i], k) {
                    lemma_text_lt_transitive(keys[0], keys[i], k);
                }
            }
        } else {
            assert forall|i: int| 0 < i < keys.len() implies #[trigger] keys[i] == rest[i - 1] by {}
        }
    }
}

proof fn lemma_pair_keys_insert<V>(t: Seq<(Seq<char>, V)>, p: int, k: Seq<char>, v: V)
    requires
        0 <= p <= t.len(),
    ensures
        pair_keys(t.insert(p, (k, v))) == pair_keys(t).insert(p, k),
        p < t.len() ==> pair_keys(t.update(p, (k, v))) == pair_keys(t).update(p, k),
{
    assert(pair_keys(t.insert(p, (k, v))) =~= pair_keys(t).insert(p, k));
    if p < t.len() {
        assert(pair_keys(t.update(p, (k, v))) =~= pair_keys(t).update(p, k));
    }
}

/// Entering a key keeps the keys ascending; afterwards the key names the
/// entered value, and every other key keeps its value.
pub proof fn lemma_key_insert<V>(t: Seq<(Seq<char>, V)>, k: Seq<char>, v: V)
    requires
        keys_ascending(pair_keys(t)),
    ensures
        keys_ascending(pair_keys(key_insert(t, k, v))),
        key_lookup(key_insert(t, k, v), k) == Some(v),
        forall|k2: Seq<char>|
            k2 != k ==> #[trigger] key_lookup(key_insert(t, k, v), k2) == key_lookup(t, k2),
{
    let keys = pair_keys(t);
    lemma_key_position(keys, k);
    let p = key_position(keys, k);
    let r = key_insert(t, k, v);
    let rk = pair_keys(r);
    lemma_pair_keys_insert(t, p, k, v);
    if p < t.len() && t[p].0 == k {
        assert(rk =~= keys);
    } else {
        if p < t.len() {
            assert(keys[p] == t[p].0);
            lemma_text_lt_total(keys[p], k);
        }
        assert forall|i: int, j: int| 0 <= i < j < rk.len() implies text_lt(rk[i], rk[j]) by {
            if j < p {
                assert(rk[i] == keys[i] && rk[j] == keys[j]);
            } else if j == p {
                assert(rk[i] == keys[i]);
            } else if i < p {
                assert(rk[i] == keys[i] && rk[j] == keys[j - 1]);
                assert(text_lt(keys[p], keys[j - 1]) || j - 1 == p);
                lemma_text_lt_transitive(keys[i], k, keys[p]);
                if j - 1 != p {
                    lemma_text_lt_transitive(keys[i], keys[p], keys[j - 1]);
                }
            } else if i == p {
                assert(rk[j] == keys[j - 1]);
                if j - 1 != p {
                    lemma_text_lt_transitive(k, keys[p], keys[j - 1]);
                }
            } else {
                assert(rk[i] == keys[i - 1] && rk[j] == keys[j - 1]);
            }
        }
    }
    lemma_key_position(rk, k);
    let q = key_position(rk, k);
    if q < p {
        assert(rk[q] == keys[q]);
    }
    if q > p {
        assert(rk[p] == k);
        lemma_text_lt_irreflexive(k);
    }
    assert(q == p);
    assert forall|k2: Seq<char>| k2 != k implies #[trigger] key_lookup(r, k2) == key_lookup(t, k2) by {
        lemma_key_position(rk, k2);
        lemma_key_position(keys, k2);
        let a = key_position(rk, k2);
        let b = key_position(keys, k2);
        lemma_key_lookup_exact(t, k2);
        lemma_key_lookup_exact(r, k2);
        if key_lookup(t, k2) is Some {
            let i = b;
            // the entry of k2 in t sits in r as well
            if i < p {
                assert(r[i] == t[i]);
                lemma_key_lookup_at(r, k2, i);
            } else if p < t.len() && t[p].0 == k {
                assert(i != p);
                assert(r[i] == t[i]);
                lemma_key_lookup_at(r, k2, i);
            } else {
                assert(r[i + 1] == t[i]);
                lemma_key_lookup_at(r, k2, i + 1);
            }
        } else if key_lookup(r, k2) is Some {
            let i = a;
            assert(r[i].0 == k2);
            if i < p {
                assert(t[i] == r[i]);
                lemma_key_lookup_at(t, k2, i);
            } else if p < t.len() && t[p].0 == k {
                assert(i != p);
                assert(t[i] == r[i]);
                lemma_key_lookup_at(t, k2, i);
            } else {
                assert(i != p);
                assert(t[i - 1] == r[i]);
                lemma_key_lookup_at(t, k2, i - 1);
            }
        }
    }
}

/// In ascending keys, a lookup finds exactly the entry carrying the key.
pub proof fn lemma_key_lookup_exact<V>(t: Seq<(Seq<char>, V)>, k: Seq<char>)
    requires
        keys_ascending(pair_keys(t)),
    ensures
        key_lookup(t, k) is Some <==> exists|i: int| 0 <= i < t.len() && #[trigger] t[i].0 == k,
{
    let keys = pair_keys(t);
    lemma_key_position(keys, k);
    if exists|i: int| 0 <= i < t.len() && #[trigger] t[i].0 == k {
        let i = choose|i: int| 0 <= i < t.len() && #[trigger] t[i].0 == k;
        lemma_key_lookup_at(t, k, i);
    }
}

/// In ascending keys, the entry at position `i` is what its key looks up.
pub proof fn lemma_key_lookup_at<V>(t: Seq<(Seq<char>, V)>, k: Seq<char>, i: int)
    requires
        keys_ascending(pair_keys(t)),
        0 <= i < t.len(),
        t[i].0 == k,
    ensures
        key_lookup(t, k) == Some(t[i].1),
{
    let keys = pair_keys(t);
    lemma_key_position(keys, k);
    let p = key_position(keys, k);
    assert(keys[i] == k);
    lemma_text_lt_irreflexive(k);
    if p < i {
        assert(!text_lt(keys[p], k));
        lemma_text_lt_total(keys[p], k);
        assert(text_lt(keys[p], keys[i]));
    }
    assert(p == i);
}

/// The position of the first key of `t` that is not below `k`, and whether
/// that key is `k` itself.
pub fn find_key<V>(t: &Vec<(String, V)>, k: &Vec<char>) -> (r: (usize, bool))
    ensures
        r.0 == key_position(table_keys(t@), k@),
        r.0 <= t@.len(),
        r.1 == (r.0 < t@.len() && t@[r.0 as int].0@ == k@),
{
    let ghost keys = table_keys(t@);
    proof {
        lemma_key_position_bound(keys, k@);
    }
    let mut p: usize = 0;
    assert(keys.skip(0) =~= keys);
    while p < t.len()
        invariant
            p <= t.len(),
            keys == table_keys(t@),
            key_position(keys, k@) == p + key_position(keys.skip(p as int), k@),
        decreases t.len() - p,
    {
        let kc = str_chars(t[p].0.as_str());
        assert(keys.skip(p as int)[0] == keys[p as int]);
        if !chars_lt(&kc, k) {
            return (p, crate::text::chars_equal(&kc, k));
        }
        assert(keys.skip(p as int).drop_first() =~= keys.skip(p + 1));
        p = p + 1;
    }
    (p, false)
}


/// Removing a key keeps the keys ascending; afterwards the key names
/// nothing, and every other key keeps its value.
pub proof fn lemma_key_remove<V>(t: Seq<(Seq<char>, V)>, k: Seq<char>)
    requires
        keys_ascending(pair_keys(t)),
    ensures
        keys_ascending(pair_keys(key_remove(t, k))),
        key_lookup(key_remove(t, k), k) is None,
        forall|k2: Seq<char>|
            k2 != k ==> #[trigger] key_lookup(key_remove(t, k), k2) == key_lookup(t, k2),
{
    let keys = pair_keys(t);
    lemma_key_position(keys, k);
    let p = key_position(keys, k);
    let r = key_remove(t, k);
    let rk = pair_keys(r);
    if p < t.len() && t[p].0 == k {
        assert(rk =~= keys.remove(p));
        assert forall|i: int, j: int| 0 <= i < j < rk.len() implies text_lt(rk[i], rk[j]) by {
            if j < p {
                assert(rk[i] == keys[i] && rk[j] == keys[j]);
            } else if i < p {
                assert(rk[i] == keys[i] && rk[j] == keys[j + 1]);
            } else {
                assert(rk[i] == keys[i + 1] && rk[j] == keys[j + 1]);
            }
        }
        lemma_key_lookup_exact(r, k);
        assert forall|i: int| 0 <= i < r.len() implies #[trigger] r[i].0 != k by {
            if i < p {
                assert(r[i] == t[i]);
                assert(text_lt(keys[i], keys[p]));
                lemma_text_lt_irreflexive(k);
            } else {
                assert(r[i] == t[i + 1]);
                assert(text_lt(keys[p], keys[i + 1]));
                lemma_text_lt_irreflexive(k);
            }
        }
        assert forall|k2: Seq<char>| k2 != k implies #[trigger] key_lookup(r, k2) == key_lookup(t, k2) by {
            lemma_key_lookup_exact(t, k2);
            lemma_key_lookup_exact(r, k2);
            if key_lookup(t, k2) is Some {
                let i = key_position(keys, k2);
                lemma_key_position(keys, k2);
                assert(t[i].0 == k2);
                assert(i != p);
                if i < p {
                    assert(r[i] == t[i]);
                    lemma_key_lookup_at(r, k2, i);
                } else {
                    assert(r[i - 1] == t[i]);
                    lemma_key_lookup_at(r, k2, i - 1);
                }
            } else if key_lookup(r, k2) is Some {
                let i = choose|i: int| 0 <= i < r.len() && #[trigger] r[i].0 == k2;
                if i < p {
                    assert(r[i] == t[i]);
                    lemma_key_lookup_at(t, k2, i);
                } else {
                    assert(r[i] == t[i + 1]);
                    lemma_key_lookup_at(t, k2, i + 1);
                }
            }
        }
    } else {
        lemma_key_lookup_exact(t, k);
        if key_lookup(t, k) is Some {
            let i = choose|i: int| 0 <= i < t.len() && #[trigger] t[i].0 == k;
            lemma_key_lookup_at(t, k, i);
        }
    }
}

} // verus!
