//! The mathematical model of one table: its rows as a sequence of
//! `(key bytes, value bytes)` pairs in the store's key order.

use vstd::prelude::*;

verus! {

/// No key occurs in two rows.
pub open spec fn distinct_keys(rows: Seq<(Seq<u8>, Seq<u8>)>) -> bool {
    forall|i: int, j: int|
        0 <= i < j < rows.len() ==> (#[trigger] rows[i]).0 != (#[trigger] rows[j]).0
}

/// Some row of `rows` has the key `key`.
pub open spec fn has_key(rows: Seq<(Seq<u8>, Seq<u8>)>, key: Seq<u8>) -> bool {
    exists|i: int| 0 <= i < rows.len() && (#[trigger] rows[i]).0 == key
}

/// The position of a row with key `key`, meaningful where `has_key` holds.
pub open spec fn index_of(rows: Seq<(Seq<u8>, Seq<u8>)>, key: Seq<u8>) -> int {
    choose|i: int| 0 <= i < rows.len() && (#[trigger] rows[i]).0 == key
}

/// The value stored under `key`, if any.
pub open spec fn lookup(rows: Seq<(Seq<u8>, Seq<u8>)>, key: Seq<u8>) -> Option<Seq<u8>> {
    if has_key(rows, key) {
        Some(rows[index_of(rows, key)].1)
    } else {
        None
    }
}

/// `after` is `before` with `key` bound to `val`: an existing row is replaced
/// where it stands, a new row is inserted and every other row keeps its
/// place relative to the others.
pub open spec fn is_upsert(
    before: Seq<(Seq<u8>, Seq<u8>)>,
    key: Seq<u8>,
    val: Seq<u8>,
    after: Seq<(Seq<u8>, Seq<u8>)>,
) -> bool {
    if has_key(before, key) {
        after == before.update(index_of(before, key), (key, val))
    } else {
        exists|j: int| 0 <= j <= before.len() && after == #[trigger] before.insert(j, (key, val))
    }
}

/// The rows as a finite map from key to value.
pub open spec fn as_map(rows: Seq<(Seq<u8>, Seq<u8>)>) -> Map<Seq<u8>, Seq<u8>> {
    Map::new(|k: Seq<u8>| has_key(rows, k), |k: Seq<u8>| rows[index_of(rows, k)].1)
}

/// With distinct keys, the row at `i` is the one `lookup` and `index_of` find.
pub proof fn lemma_index_of_unique(rows: Seq<(Seq<u8>, Seq<u8>)>, i: int)
    requires
        distinct_keys(rows),
        0 <= i < rows.len(),
    ensures
        has_key(rows, rows[i].0),
        index_of(rows, rows[i].0) == i,
        lookup(rows, rows[i].0) == Some(rows[i].1),
{
    let k = rows[i].0;
    assert(rows[i].0 == k);
    let j = index_of(rows, k);
    assert(0 <= j < rows.len() && rows[j].0 == k);
    if i < j {
        assert(rows[i].0 != rows[j].0);
    } else if j < i {
        assert(rows[j].0 != rows[i].0);
    }
}

/// An upsert keeps the keys distinct, binds `key` to `val`, and leaves every
/// other key's value as it was.
pub proof fn lemma_upsert(
    before: Seq<(Seq<u8>, Seq<u8>)>,
    key: Seq<u8>,
    val: Seq<u8>,
    after: Seq<(Seq<u8>, Seq<u8>)>,
)
    requires
        distinct_keys(before),
        is_upsert(before, key, val, after),
    ensures
        distinct_keys(after),
        lookup(after, key) == Some(val),
        forall|k: Seq<u8>| k != key ==> lookup(after, k) == lookup(before, k),
        has_key(before, key) ==> after.len() == before.len(),
        !has_key(before, key) ==> after.len() == before.len() + 1,
        as_map(after) == as_map(before).insert(key, val),
{
    if has_key(before, key) {
        let p = index_of(before, key);
        assert(0 <= p < before.len() && before[p].0 == key);
        assert forall|i: int, j: int| 0 <= i < j < after.len() implies (#[trigger] after[i]).0 != (
        #[trigger] after[j]).0 by {
            assert(after[i].0 == before[i].0);
            assert(after[j].0 == before[j].0);
        }
        assert(after[p] == (key, val));
        lemma_index_of_unique(after, p);
        assert forall|k: Seq<u8>| k != key implies lookup(after, k) == lookup(before, k) by {
            if has_key(before, k) {
                let q = index_of(before, k);
                assert(q != p);
                assert(after[q] == before[q]);
                lemma_index_of_unique(before, q);
                lemma_index_of_unique(after, q);
            } else {
                if has_key(after, k) {
                    let q = index_of(after, k);
                    assert(after[q].0 == k);
                    assert(before[q].0 == k);
                    assert(false);
                }
            }
        }
    } else {
        let j = choose|j: int|
            0 <= j <= before.len() && after == #[trigger] before.insert(j, (key, val));
        let src = |i: int| if i < j { i } else { i - 1 };
        assert forall|a: int, b: int| 0 <= a < b < after.len() implies (#[trigger] after[a]).0 != (
        #[trigger] after[b]).0 by {
            if a == j {
                assert(after[b] == before[b - 1]);
                assert(before[b - 1].0 != key);
            } else if b == j {
                assert(after[a] == before[a]);
                assert(before[a].0 != key);
            } else {
                assert(after[a] == before[src(a)]);
                assert(after[b] == before[src(b)]);
            }
        }
        assert(after[j] == (key, val));
        lemma_index_of_unique(after, j);
        assert forall|k: Seq<u8>| k != key implies lookup(after, k) == lookup(before, k) by {
            if has_key(before, k) {
                let q = index_of(before, k);
                let q2 = if q < j { q } else { q + 1 };
                assert(after[q2] == before[q]);
                lemma_index_of_unique(before, q);
                lemma_index_of_unique(after, q2);
            } else {
                if has_key(after, k) {
                    let q = index_of(after, k);
                    assert(after[q].0 == k);
                    assert(q != j);
                    assert(after[q] == before[src(q)]);
                    assert(before[src(q)].0 == k);
                    assert(false);
                }
            }
        }
    }
    assert forall|k: Seq<u8>| #[trigger]
        has_key(after, k) <==> (k == key || has_key(before, k)) by {
        if k != key {
            assert(lookup(after, k) == lookup(before, k));
        }
    }
    assert forall|k: Seq<u8>| has_key(after, k) implies #[trigger] as_map(after)[k] == as_map(
        before,
    ).insert(key, val)[k] by {
        if k != key {
            assert(lookup(after, k) == lookup(before, k));
        } else {
            assert(lookup(after, key) == Some(val));
        }
    }
    assert(as_map(after) =~= as_map(before).insert(key, val));
}

/// After an upsert that leaves the keys distinct, `key` is bound to `val`.
pub proof fn lemma_upsert_binds(
    before: Seq<(Seq<u8>, Seq<u8>)>,
    key: Seq<u8>,
    val: Seq<u8>,
    after: Seq<(Seq<u8>, Seq<u8>)>,
)
    requires
        is_upsert(before, key, val, after),
        distinct_keys(after),
    ensures
        has_key(after, key),
        lookup(after, key) == Some(val),
{
    if has_key(before, key) {
        let p = index_of(before, key);
        assert(0 <= p < before.len() && before[p].0 == key);
        assert(after[p] == (key, val));
        lemma_index_of_unique(after, p);
    } else {
        let j = choose|j: int|
            0 <= j <= before.len() && after == #[trigger] before.insert(j, (key, val));
        assert(after[j] == (key, val));
        lemma_index_of_unique(after, j);
    }
}

/// `a` comes before `b` in the order of keys: byte by byte, and a key
/// before every key that it is a proper beginning of.
pub open spec fn bytes_less(a: Seq<u8>, b: Seq<u8>) -> bool
    decreases a.len(),
{
    if b.len() == 0 {
        false
    } else if a.len() == 0 {
        true
    } else if a[0] != b[0] {
        a[0] < b[0]
    } else {
        bytes_less(a.skip(1), b.skip(1))
    }
}

/// The rows stand in the order of their keys.
pub open spec fn ascending(rows: Seq<(Seq<u8>, Seq<u8>)>) -> bool {
    forall|i: int, j: int|
        0 <= i < j < rows.len() ==> bytes_less((#[trigger] rows[i]).0, (#[trigger] rows[j]).0)
}

/// No key comes before itself, and of two keys at most one comes before
/// the other.
pub proof fn lemma_bytes_less_is_strict(a: Seq<u8>, b: Seq<u8>)
    ensures
        !bytes_less(a, a),
        bytes_less(a, b) ==> !bytes_less(b, a),
    decreases a.len(),
{
    if a.len() > 0 {
        lemma_bytes_less_is_strict(a.skip(1), a.skip(1));
        if b.len() > 0 && a[0] == b[0] {
            lemma_bytes_less_is_strict(a.skip(1), b.skip(1));
        }
    }
}

/// In rows that stand in key order, the row of the smaller key stands
/// first.
pub proof fn lemma_smaller_key_stands_first(rows: Seq<(Seq<u8>, Seq<u8>)>, i: int, j: int)
    requires
        ascending(rows),
        0 <= i < rows.len(),
        0 <= j < rows.len(),
        bytes_less(rows[i].0, rows[j].0),
    ensures
        i < j,
{
    lemma_bytes_less_is_strict(rows[i].0, rows[j].0);
    if j < i {
        assert(bytes_less(rows[j].0, rows[i].0));
    }
}

/// Rows that stand in key order hold no key twice.
pub proof fn lemma_ascending_is_distinct(rows: Seq<(Seq<u8>, Seq<u8>)>)
    requires
        ascending(rows),
    ensures
        distinct_keys(rows),
{
    assert forall|i: int, j: int| 0 <= i < j < rows.len() implies (#[trigger] rows[i]).0 != (
    #[trigger] rows[j]).0 by {
        lemma_bytes_less_is_strict(rows[i].0, rows[j].0);
    }
}

} // verus!
