//! The write rules of the persistence layer, over rows of any kind.
//!
//! Every write is idempotent: an insert leaves alone what is there under
//! the same natural key, an upsert replaces it, a removal takes out the
//! rows that it names. Each rule keeps the natural key unique.

use vstd::prelude::*;

verus! {

/// Whether one of the rows has the key.
pub open spec fn has_key<V, K>(rows: Seq<V>, key_of: spec_fn(V) -> K, key: K) -> bool {
    exists|i: int| 0 <= i < rows.len() && key_of(#[trigger] rows[i]) == key
}

/// No two rows have the same key.
pub open spec fn keys_unique<V, K>(rows: Seq<V>, key_of: spec_fn(V) -> K) -> bool {
    forall|i: int, j: int|
        0 <= i < j < rows.len() ==> key_of(#[trigger] rows[i]) != key_of(#[trigger] rows[j])
}

/// The rows after an insert of `batch` that leaves conflicts alone: each
/// row of the batch, in order, is added at the end unless a row with its
/// key is there already.
pub open spec fn inserted<V, K>(rows: Seq<V>, key_of: spec_fn(V) -> K, batch: Seq<V>) -> Seq<V>
    decreases batch.len(),
{
    if batch.len() == 0 {
        rows
    } else {
        let before = inserted(rows, key_of, batch.drop_last());
        if has_key(before, key_of, key_of(batch.last())) {
            before
        } else {
            before.push(batch.last())
        }
    }
}

/// The rows without the doomed ones, in their order.
pub open spec fn without<V>(rows: Seq<V>, doomed: spec_fn(V) -> bool) -> Seq<V>
    decreases rows.len(),
{
    if rows.len() == 0 {
        Seq::empty()
    } else {
        let before = without(rows.drop_last(), doomed);
        if doomed(rows.last()) {
            before
        } else {
            before.push(rows.last())
        }
    }
}

/// The index of the first row with the key, or the number of rows where
/// there is none.
pub open spec fn key_index<V, K>(rows: Seq<V>, key_of: spec_fn(V) -> K, key: K) -> int
    decreases rows.len(),
{
    if rows.len() == 0 {
        0
    } else if key_of(rows[0]) == key {
        0
    } else {
        1 + key_index(rows.drop_first(), key_of, key)
    }
}

/// The rows after an upsert of `row`: in the place of the row with its key,
/// or at the end.
pub open spec fn upserted<V, K>(rows: Seq<V>, key_of: spec_fn(V) -> K, row: V) -> Seq<V> {
    let i = key_index(rows, key_of, key_of(row));
    if i < rows.len() {
        rows.update(i, row)
    } else {
        rows.push(row)
    }
}

/// The first row with the key, if there is one.
pub open spec fn row_with<V, K>(rows: Seq<V>, key_of: spec_fn(V) -> K, key: K) -> Option<V> {
    let i = key_index(rows, key_of, key);
    if i < rows.len() {
        Some(rows[i])
    } else {
        None
    }
}

/// The index that `key_index` names is the first with the key.
pub proof fn lemma_key_index<V, K>(rows: Seq<V>, key_of: spec_fn(V) -> K, key: K)
    ensures
        0 <= key_index(rows, key_of, key) <= rows.len(),
        key_index(rows, key_of, key) < rows.len() ==> key_of(rows[key_index(rows, key_of, key)])
            == key,
        forall|j: int| 0 <= j < key_index(rows, key_of, key) ==> key_of(#[trigger] rows[j]) != key,
    decreases rows.len(),
{
    if rows.len() > 0 && key_of(rows[0]) != key {
        let rest = rows.drop_first();
        lemma_key_index(rest, key_of, key);
        assert forall|j: int| 0 <= j < key_index(rows, key_of, key) implies key_of(
            #[trigger] rows[j],
        ) != key by {
            if j > 0 {
                assert(rows[j] == rest[j - 1]);
            }
        }
    }
}

/// The first index with the key is the index that `key_index` names.
pub proof fn lemma_key_index_is<V, K>(rows: Seq<V>, key_of: spec_fn(V) -> K, key: K, i: int)
    requires
        0 <= i <= rows.len(),
        forall|j: int| 0 <= j < i ==> key_of(#[trigger] rows[j]) != key,
        i < rows.len() ==> key_of(rows[i]) == key,
    ensures
        key_index(rows, key_of, key) == i,
    decreases rows.len(),
{
    if rows.len() > 0 && i > 0 {
        assert(key_of(rows[0]) != key);
        let rest = rows.drop_first();
        assert forall|j: int| 0 <= j < i - 1 implies key_of(#[trigger] rest[j]) != key by {
            assert(rest[j] == rows[j + 1]);
        }
        lemma_key_index_is(rest, key_of, key, i - 1);
    }
}

/// An upsert keeps the key unique, and a second upsert of the same row
/// changes nothing.
pub proof fn lemma_upserted<V, K>(rows: Seq<V>, key_of: spec_fn(V) -> K, row: V)
    ensures
        keys_unique(rows, key_of) ==> keys_unique(upserted(rows, key_of, row), key_of),
        upserted(upserted(rows, key_of, row), key_of, row) == upserted(rows, key_of, row),
        row_with(upserted(rows, key_of, row), key_of, key_of(row)) == Some(row),
{
    let key = key_of(row);
    let i = key_index(rows, key_of, key);
    lemma_key_index(rows, key_of, key);
    let once = upserted(rows, key_of, row);
    assert forall|j: int| 0 <= j < i implies key_of(#[trigger] once[j]) != key by {
        assert(once[j] == rows[j]);
    }
    assert(once[i] == row);
    lemma_key_index_is(once, key_of, key, i);
    assert(upserted(once, key_of, row) =~= once);
    if keys_unique(rows, key_of) {
        assert forall|a: int, b: int| 0 <= a < b < once.len() implies key_of(#[trigger] once[a])
            != key_of(#[trigger] once[b]) by {
            if i < rows.len() {
                assert(key_of(once[a]) == key_of(rows[a]));
                assert(key_of(once[b]) == key_of(rows[b]));
            } else {
                assert(once[a] == rows[a]);
                if b < rows.len() {
                    assert(once[b] == rows[b]);
                }
            }
        }
    }
}

/// An insert keeps every row that was there, in its place, and adds only
/// rows of the batch.
pub proof fn lemma_inserted_extends<V, K>(rows: Seq<V>, key_of: spec_fn(V) -> K, batch: Seq<V>)
    ensures
        rows.len() <= inserted(rows, key_of, batch).len() <= rows.len() + batch.len(),
        forall|i: int| 0 <= i < rows.len() ==> inserted(rows, key_of, batch)[i] == rows[i],
        forall|i: int|
            rows.len() <= i < inserted(rows, key_of, batch).len() ==> batch.contains(
                #[trigger] inserted(rows, key_of, batch)[i],
            ),
        forall|n: int|
            0 <= n < batch.len() ==> has_key(
                inserted(rows, key_of, batch),
                key_of,
                key_of(#[trigger] batch[n]),
            ),
    decreases batch.len(),
{
    if batch.len() > 0 {
        let prefix = batch.drop_last();
        lemma_inserted_extends(rows, key_of, prefix);
        let before = inserted(rows, key_of, prefix);
        let after = inserted(rows, key_of, batch);
        let last = batch.len() - 1;
        assert(batch[last] == batch.last());
        assert forall|i: int| rows.len() <= i < after.len() implies batch.contains(
            #[trigger] after[i],
        ) by {
            if i < before.len() {
                assert(prefix.contains(before[i]));
                let n = choose|n: int| 0 <= n < prefix.len() && prefix[n] == before[i];
                assert(batch[n] == after[i]);
            } else {
                assert(after[i] == batch[last]);
            }
        }
        assert forall|n: int| 0 <= n < batch.len() implies has_key(
            after,
            key_of,
            key_of(#[trigger] batch[n]),
        ) by {
            if n < prefix.len() {
                assert(batch[n] == prefix[n]);
                let i = choose|i: int|
                    0 <= i < before.len() && key_of(#[trigger] before[i]) == key_of(prefix[n]);
                assert(after[i] == before[i]);
            } else if has_key(before, key_of, key_of(batch.last())) {
            } else {
                assert(after[before.len() as int] == batch.last());
            }
        }
    }
}

/// The natural key stays unique: an insert into rows without two equal
/// keys gives rows without two equal keys.
pub proof fn lemma_inserted_unique<V, K>(rows: Seq<V>, key_of: spec_fn(V) -> K, batch: Seq<V>)
    requires
        keys_unique(rows, key_of),
    ensures
        keys_unique(inserted(rows, key_of, batch), key_of),
    decreases batch.len(),
{
    if batch.len() > 0 {
        lemma_inserted_unique(rows, key_of, batch.drop_last());
        let before = inserted(rows, key_of, batch.drop_last());
        let after = inserted(rows, key_of, batch);
        if !has_key(before, key_of, key_of(batch.last())) {
            assert forall|i: int, j: int| 0 <= i < j < after.len() implies key_of(
                #[trigger] after[i],
            ) != key_of(#[trigger] after[j]) by {
                assert(after[i] == before[i]);
                if j < before.len() {
                    assert(after[j] == before[j]);
                }
            }
        }
    }
}

/// A batch whose keys are all there adds nothing.
pub proof fn lemma_inserted_nothing<V, K>(rows: Seq<V>, key_of: spec_fn(V) -> K, batch: Seq<V>)
    requires
        forall|n: int| 0 <= n < batch.len() ==> has_key(rows, key_of, key_of(#[trigger] batch[n])),
    ensures
        inserted(rows, key_of, batch) == rows,
    decreases batch.len(),
{
    if batch.len() > 0 {
        let prefix = batch.drop_last();
        assert forall|n: int| 0 <= n < prefix.len() implies has_key(
            rows,
            key_of,
            key_of(#[trigger] prefix[n]),
        ) by {
            assert(prefix[n] == batch[n]);
        }
        lemma_inserted_nothing(rows, key_of, prefix);
        assert(batch.last() == batch[batch.len() - 1]);
    }
}

/// Persisting the same batch twice inserts no row the second time.
pub proof fn lemma_insert_twice<V, K>(rows: Seq<V>, key_of: spec_fn(V) -> K, batch: Seq<V>)
    ensures
        inserted(inserted(rows, key_of, batch), key_of, batch) == inserted(rows, key_of, batch),
{
    lemma_inserted_extends(rows, key_of, batch);
    lemma_inserted_nothing(inserted(rows, key_of, batch), key_of, batch);
}

/// What is left has none of the doomed rows and every other row.
pub proof fn lemma_without<V>(rows: Seq<V>, doomed: spec_fn(V) -> bool)
    ensures
        without(rows, doomed).len() <= rows.len(),
        forall|i: int|
            0 <= i < without(rows, doomed).len() ==> rows.contains(
                #[trigger] without(rows, doomed)[i],
            ) && !doomed(without(rows, doomed)[i]),
        forall|n: int|
            0 <= n < rows.len() && !doomed(#[trigger] rows[n]) ==> without(rows, doomed).contains(
                rows[n],
            ),
    decreases rows.len(),
{
    if rows.len() > 0 {
        let prefix = rows.drop_last();
        lemma_without(prefix, doomed);
        let before = without(prefix, doomed);
        let after = without(rows, doomed);
        let last = rows.len() - 1;
        assert(rows[last] == rows.last());
        assert forall|i: int| 0 <= i < after.len() implies rows.contains(#[trigger] after[i])
            && !doomed(after[i]) by {
            if i < before.len() {
                assert(after[i] == before[i]);
                let n = choose|n: int| 0 <= n < prefix.len() && prefix[n] == before[i];
                assert(rows[n] == after[i]);
            } else {
                assert(after[i] == rows[last]);
            }
        }
        assert forall|n: int| 0 <= n < rows.len() && !doomed(#[trigger] rows[n]) implies after.contains(
            rows[n],
        ) by {
            if n < prefix.len() {
                assert(prefix[n] == rows[n]);
                let i = choose|i: int| 0 <= i < before.len() && before[i] == prefix[n];
                assert(after[i] == rows[n]);
            } else {
                assert(after[before.len() as int] == rows[n]);
            }
        }
    }
}

/// What is left is a selection: its rows come, in their order, from
/// increasing places of the rows before.
pub proof fn lemma_without_in_order<V>(rows: Seq<V>, doomed: spec_fn(V) -> bool) -> (from_index:
    Seq<int>)
    ensures
        from_index.len() == without(rows, doomed).len(),
        forall|i: int|
            0 <= i < from_index.len() ==> 0 <= #[trigger] from_index[i] < rows.len()
                && rows[from_index[i]] == without(rows, doomed)[i],
        forall|i: int, j: int|
            0 <= i < j < from_index.len() ==> #[trigger] from_index[i] < #[trigger] from_index[j],
    decreases rows.len(),
{
    if rows.len() == 0 {
        Seq::empty()
    } else {
        let prefix = rows.drop_last();
        let before = lemma_without_in_order(prefix, doomed);
        assert forall|i: int| 0 <= i < before.len() implies rows[before[i]] == prefix[before[i]] by {}
        if doomed(rows.last()) {
            before
        } else {
            before.push(rows.len() - 1)
        }
    }
}

/// A removal keeps the natural key unique.
pub proof fn lemma_without_unique<V, K>(
    rows: Seq<V>,
    doomed: spec_fn(V) -> bool,
    key_of: spec_fn(V) -> K,
)
    requires
        keys_unique(rows, key_of),
    ensures
        keys_unique(without(rows, doomed), key_of),
{
    let idx = lemma_without_in_order(rows, doomed);
    let kept = without(rows, doomed);
    assert forall|i: int, j: int| 0 <= i < j < kept.len() implies key_of(#[trigger] kept[i])
        != key_of(#[trigger] kept[j]) by {
        assert(idx[i] < idx[j]);
        assert(kept[i] == rows[idx[i]]);
        assert(kept[j] == rows[idx[j]]);
    }
}

/// Rows of which none is doomed are all left.
pub proof fn lemma_without_none<V>(rows: Seq<V>, doomed: spec_fn(V) -> bool)
    requires
        forall|i: int| 0 <= i < rows.len() ==> !doomed(#[trigger] rows[i]),
    ensures
        without(rows, doomed) == rows,
    decreases rows.len(),
{
    if rows.len() > 0 {
        let prefix = rows.drop_last();
        assert forall|i: int| 0 <= i < prefix.len() implies !doomed(#[trigger] prefix[i]) by {
            assert(prefix[i] == rows[i]);
        }
        lemma_without_none(prefix, doomed);
        assert(rows.last() == rows[rows.len() - 1]);
        assert(prefix.push(rows.last()) =~= rows);
    }
}

/// Removing twice is removing once.
pub proof fn lemma_without_twice<V>(rows: Seq<V>, doomed: spec_fn(V) -> bool)
    ensures
        without(without(rows, doomed), doomed) == without(rows, doomed),
{
    lemma_without(rows, doomed);
    lemma_without_none(without(rows, doomed), doomed);
}

} // verus!
