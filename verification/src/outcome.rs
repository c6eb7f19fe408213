//! What each table operation does, stated over the rows of the table before
//! and after it. The operations' contracts are these predicates.

use vstd::prelude::*;

use crate::error::TableError;
use crate::record::{key_bytes, stored_form, ByteRep, Record};
use crate::rows::{ascending, distinct_keys, has_key, is_upsert, lookup};

verus! {

/// How the result of an operation run in a transaction of its own follows
/// from the result of its logic: a success is handed on once the commit
/// succeeded, or replaced by the store's failure to commit; a failure is
/// handed on as it is, and nothing is committed.
pub open spec fn committed_result<T>(
    inner: Result<T, TableError>,
    out: Result<T, TableError>,
) -> bool {
    match inner {
        Ok(_) => out == inner || out matches Err(TableError::StoreFailure(_)),
        Err(_) => out == inner,
    }
}

/// `after` is `before` with `val` bound to `key`; its keys are distinct and
/// its rows stand in key order.
pub open spec fn bound(
    before: Seq<(Seq<u8>, Seq<u8>)>,
    key: Seq<u8>,
    val: Seq<u8>,
    after: Seq<(Seq<u8>, Seq<u8>)>,
) -> bool {
    is_upsert(before, key, val, after) && distinct_keys(after) && ascending(after)
}

/// The models of the values of `values`, in their order.
pub open spec fn models<T: ByteRep>(values: Seq<T>) -> Seq<T::Model> {
    Seq::new(values.len(), |i: int| values[i].model())
}

/// `start` is the record an update of `key` starts from: the stored one
/// where the key is present, a default one where it is not.
pub open spec fn starts_from<R: Record>(
    stored: Option<Seq<u8>>,
    key: <R::Key as ByteRep>::Model,
    start: R::Model,
) -> bool {
    match stored {
        Some(bytes) => R::decoding(bytes) == Some(start),
        None => R::is_new(key, start),
    }
}

/// `out` is the stored form of some record that `modify` may turn `start`
/// into, or `None` where such a record has no stored form.
pub open spec fn rewritten<R: Record, M: FnMut(R) -> R>(
    modify: M,
    start: R::Model,
    out: Option<Seq<u8>>,
) -> bool {
    exists|given: R, changed: R|
        given.model() == start && #[trigger] call_ensures(modify, (given,), changed)
            && stored_form::<R>(changed.model()) == out
}

/// `answer` is an answer that `accept` may give for `record`.
pub open spec fn accepts<R: Record, F: Fn(&R) -> bool>(
    accept: F,
    record: R::Model,
    answer: bool,
) -> bool {
    exists|given: R| given.model() == record && #[trigger] call_ensures(accept, (&given,), answer)
}

/// What `write_record` does: the canonical form of the record is bound to
/// its key.
pub open spec fn write_outcome<R: Record>(
    before: Seq<(Seq<u8>, Seq<u8>)>,
    record: R::Model,
    result: Result<(), TableError>,
    after: Seq<(Seq<u8>, Seq<u8>)>,
) -> bool {
    match (key_bytes::<R>(R::key_of(R::stabilized(record))), stored_form::<R>(record)) {
        (Some(key), Some(val)) => match result {
            Ok(()) => bound(before, key, val, after),
            Err(e) => e is StoreFailure,
        },
        _ => result matches Err(TableError::EncodingFailure) && after == before,
    }
}

/// What `has_record` returns: whether the key is present.
pub open spec fn has_outcome<R: Record>(
    rows: Seq<(Seq<u8>, Seq<u8>)>,
    key: <R::Key as ByteRep>::Model,
    result: Result<bool, TableError>,
) -> bool {
    match key_bytes::<R>(key) {
        None => result matches Err(TableError::EncodingFailure),
        Some(k) => match result {
            Ok(present) => present == has_key(rows, k),
            Err(e) => e is StoreFailure,
        },
    }
}

/// What `read_record` returns: the record stored under the key, nothing
/// where the key is absent, and a failure where the stored bytes do not
/// decode.
pub open spec fn read_outcome<R: Record>(
    rows: Seq<(Seq<u8>, Seq<u8>)>,
    key: <R::Key as ByteRep>::Model,
    result: Result<Option<R>, TableError>,
) -> bool {
    match key_bytes::<R>(key) {
        None => result matches Err(TableError::EncodingFailure),
        Some(k) => match result {
            Ok(None) => lookup(rows, k) is None,
            Ok(Some(record)) => lookup(rows, k) matches Some(bytes) && R::decoding(bytes) == Some(
                record.model(),
            ),
            Err(TableError::DecodingFailure) => lookup(rows, k) matches Some(bytes) && R::decoding(
                bytes,
            ) is None,
            Err(e) => e is StoreFailure,
        },
    }
}

/// What `create_record_if_missing` does: a present key is left alone, an
/// absent one is bound to the stored form of a default record. Where the
/// key is absent and the record type is not newable, it fails.
pub open spec fn create_outcome<R: Record>(
    before: Seq<(Seq<u8>, Seq<u8>)>,
    key: <R::Key as ByteRep>::Model,
    result: Result<(), TableError>,
    after: Seq<(Seq<u8>, Seq<u8>)>,
) -> bool {
    match key_bytes::<R>(key) {
        None => result matches Err(TableError::EncodingFailure) && after == before,
        Some(k) => match result {
            Ok(()) => if has_key(before, k) {
                after == before
            } else {
                R::newable_spec() && exists|fresh: R::Model, val: Seq<u8>| #[trigger]
                    R::is_new(key, fresh) && stored_form::<R>(fresh) == Some(val)
                        && #[trigger] bound(before, k, val, after)
            },
            Err(TableError::NotNewable) => !has_key(before, k) && !R::newable_spec() && after
                == before,
            Err(TableError::EncodingFailure) => !has_key(before, k) && R::newable_spec() && after
                == before && exists|fresh: R::Model| #[trigger]
                R::is_new(key, fresh) && stored_form::<R>(fresh) is None,
            Err(e) => e is StoreFailure,
        },
    }
}

/// What `read_or_create_record` does: a present key is read and the table
/// left alone; an absent one is bound to the stored form of a default
/// record, which is returned in its canonical form. Where the key is
/// absent and the record type is not newable, it fails.
pub open spec fn read_or_create_outcome<R: Record>(
    before: Seq<(Seq<u8>, Seq<u8>)>,
    key: <R::Key as ByteRep>::Model,
    result: Result<R, TableError>,
    after: Seq<(Seq<u8>, Seq<u8>)>,
) -> bool {
    match key_bytes::<R>(key) {
        None => result matches Err(TableError::EncodingFailure) && after == before,
        Some(k) => match result {
            Ok(record) => match lookup(before, k) {
                Some(bytes) => R::decoding(bytes) == Some(record.model()) && after == before,
                None => R::newable_spec() && exists|fresh: R::Model, val: Seq<u8>| #[trigger]
                    R::is_new(key, fresh) && record.model() == R::stabilized(fresh)
                        && stored_form::<R>(fresh) == Some(val) && #[trigger] bound(
                        before,
                        k,
                        val,
                        after,
                    ),
            },
            Err(TableError::NotNewable) => !has_key(before, k) && !R::newable_spec() && after
                == before,
            Err(TableError::DecodingFailure) => lookup(before, k) matches Some(bytes)
                && R::decoding(bytes) is None && after == before,
            Err(TableError::EncodingFailure) => !has_key(before, k) && R::newable_spec() && after
                == before && exists|fresh: R::Model| #[trigger]
                R::is_new(key, fresh) && stored_form::<R>(fresh) is None,
            Err(e) => e is StoreFailure,
        },
    }
}

/// What an update of `key` does: where it writes, the stored form of the
/// changed record is bound to the key; where the changed record has no
/// stored form, nothing is written.
pub open spec fn update_outcome<R: Record, M: FnMut(R) -> R>(
    before: Seq<(Seq<u8>, Seq<u8>)>,
    key: <R::Key as ByteRep>::Model,
    k: Seq<u8>,
    modify: M,
    written: bool,
    after: Seq<(Seq<u8>, Seq<u8>)>,
) -> bool {
    exists|start: R::Model| #[trigger]
        starts_from::<R>(lookup(before, k), key, start) && if written {
            exists|val: Seq<u8>| #[trigger]
                rewritten::<R, M>(modify, start, Some(val)) && bound(before, k, val, after)
        } else {
            rewritten::<R, M>(modify, start, None) && after == before
        }
}

/// What `modify_if_exists` does: an absent key gives `false` and leaves the
/// table alone; a present one is rebound to the stored form of the changed
/// record.
pub open spec fn modify_if_exists_outcome<R: Record, M: FnMut(R) -> R>(
    before: Seq<(Seq<u8>, Seq<u8>)>,
    key: <R::Key as ByteRep>::Model,
    modify: M,
    result: Result<bool, TableError>,
    after: Seq<(Seq<u8>, Seq<u8>)>,
) -> bool {
    match key_bytes::<R>(key) {
        None => result matches Err(TableError::EncodingFailure) && after == before,
        Some(k) => match result {
            Ok(false) => !has_key(before, k) && after == before,
            Ok(true) => has_key(before, k) && update_outcome::<R, M>(
                before,
                key,
                k,
                modify,
                true,
                after,
            ),
            Err(TableError::DecodingFailure) => lookup(before, k) matches Some(bytes)
                && R::decoding(bytes) is None && after == before,
            Err(TableError::EncodingFailure) => has_key(before, k) && update_outcome::<R, M>(
                before,
                key,
                k,
                modify,
                false,
                after,
            ),
            Err(e) => e is StoreFailure && (!has_key(before, k) ==> after == before),
        },
    }
}

/// What `modify` does: the key is rebound to the stored form of the changed
/// record, which starts from the stored record or, where the key is
/// absent, from a default one. Where the key is absent and the record type
/// is not newable, it fails and writes nothing.
pub open spec fn modify_outcome<R: Record, M: FnMut(R) -> R>(
    before: Seq<(Seq<u8>, Seq<u8>)>,
    key: <R::Key as ByteRep>::Model,
    modify: M,
    result: Result<(), TableError>,
    after: Seq<(Seq<u8>, Seq<u8>)>,
) -> bool {
    match key_bytes::<R>(key) {
        None => result matches Err(TableError::EncodingFailure) && after == before,
        Some(k) => match result {
            Ok(()) => (has_key(before, k) || R::newable_spec()) && update_outcome::<R, M>(
                before,
                key,
                k,
                modify,
                true,
                after,
            ),
            Err(TableError::NotNewable) => !has_key(before, k) && !R::newable_spec() && after
                == before,
            Err(TableError::DecodingFailure) => lookup(before, k) matches Some(bytes)
                && R::decoding(bytes) is None && after == before,
            Err(TableError::EncodingFailure) => (has_key(before, k) || R::newable_spec())
                && update_outcome::<R, M>(before, key, k, modify, false, after),
            Err(e) => e is StoreFailure && (!has_key(before, k) && !R::newable_spec() ==> after
                == before),
        },
    }
}

/// The items of `items` for which `keep` says `true`, in their order.
pub open spec fn selected<T>(items: Seq<T>, keep: Seq<bool>) -> Seq<T>
    decreases items.len(),
{
    if items.len() == 0 || keep.len() != items.len() {
        Seq::empty()
    } else if keep.last() {
        selected(items.drop_last(), keep.drop_last()).push(items.last())
    } else {
        selected(items.drop_last(), keep.drop_last())
    }
}

/// `recs` are the records that the values of `rows` decode to, row by row.
pub open spec fn decoded<R: Record>(rows: Seq<(Seq<u8>, Seq<u8>)>, recs: Seq<R::Model>) -> bool {
    &&& recs.len() == rows.len()
    &&& forall|i: int| 0 <= i < rows.len() ==> R::decoding(rows[i].1) == Some(#[trigger] recs[i])
}

/// `keep` holds, record by record, an answer that `accept` may give.
pub open spec fn answers<R: Record, F: Fn(&R) -> bool>(
    accept: F,
    recs: Seq<R::Model>,
    keep: Seq<bool>,
) -> bool {
    &&& keep.len() == recs.len()
    &&& forall|i: int| 0 <= i < recs.len() ==> accepts::<R, F>(accept, recs[i], #[trigger] keep[i])
}

/// What `filter_records` returns: the records of all rows that the
/// predicate accepts, in key order; a failure where some row does not
/// decode.
pub open spec fn filter_outcome<R: Record, F: Fn(&R) -> bool>(
    rows: Seq<(Seq<u8>, Seq<u8>)>,
    accept: F,
    result: Result<Vec<R>, TableError>,
) -> bool {
    match result {
        Ok(out) => exists|recs: Seq<R::Model>, keep: Seq<bool>|
            decoded::<R>(rows, recs) && #[trigger] answers::<R, F>(accept, recs, keep) && models(
                out@,
            ) == selected(recs, keep),
        Err(TableError::DecodingFailure) => exists|i: int|
            0 <= i < rows.len() && R::decoding((#[trigger] rows[i]).1) is None,
        Err(e) => e is StoreFailure,
    }
}

/// What `filter_modify` does to one row: its key stays; a row that the
/// predicate rejects stays as it is, one it accepts gets the stored form of
/// the changed record.
pub open spec fn row_rewritten<R: Record, F: Fn(&R) -> bool, M: FnMut(R) -> R>(
    accept: F,
    modify: M,
    before: (Seq<u8>, Seq<u8>),
    after: (Seq<u8>, Seq<u8>),
) -> bool {
    &&& after.0 == before.0
    &&& R::decoding(before.1) matches Some(record)
    &&& {
        ||| accepts::<R, F>(accept, record, false) && after == before
        ||| accepts::<R, F>(accept, record, true) && rewritten::<R, M>(
            modify,
            record,
            Some(after.1),
        )
    }
}

/// The row that stopped a `filter_modify`: one that does not decode, or one
/// that the predicate accepts and whose changed record has no stored form.
pub open spec fn row_failed<R: Record, F: Fn(&R) -> bool, M: FnMut(R) -> R>(
    accept: F,
    modify: M,
    row: (Seq<u8>, Seq<u8>),
    decodes: bool,
) -> bool {
    match R::decoding(row.1) {
        None => !decodes,
        Some(record) => decodes && accepts::<R, F>(accept, record, true) && rewritten::<R, M>(
            modify,
            record,
            None,
        ),
    }
}

/// The first `done` rows have been rewritten, the others are as they were.
pub open spec fn rewritten_up_to<R: Record, F: Fn(&R) -> bool, M: FnMut(R) -> R>(
    before: Seq<(Seq<u8>, Seq<u8>)>,
    accept: F,
    modify: M,
    done: int,
    after: Seq<(Seq<u8>, Seq<u8>)>,
) -> bool {
    &&& after.len() == before.len()
    &&& 0 <= done <= before.len()
    &&& forall|i: int|
        0 <= i < done ==> row_rewritten::<R, F, M>(accept, modify, #[trigger] before[i], after[i])
    &&& forall|i: int| done <= i < before.len() ==> #[trigger] after[i] == before[i]
}

/// What a rewriting scan has planned for one row: nothing where the
/// predicate rejects its record, the stored form of the changed record
/// where it accepts it.
pub open spec fn row_planned<R: Record, F: Fn(&R) -> bool, M: FnMut(R) -> R>(
    accept: F,
    modify: M,
    row: (Seq<u8>, Seq<u8>),
    change: Option<Vec<u8>>,
) -> bool {
    R::decoding(row.1) matches Some(record) && match change {
        None => accepts::<R, F>(accept, record, false),
        Some(bytes) => accepts::<R, F>(accept, record, true) && rewritten::<R, M>(
            modify,
            record,
            Some(bytes@),
        ),
    }
}

/// `plan` holds, row by row, the key of the row and what is planned for it.
pub open spec fn planned<R: Record, F: Fn(&R) -> bool, M: FnMut(R) -> R>(
    rows: Seq<(Seq<u8>, Seq<u8>)>,
    accept: F,
    modify: M,
    plan: Seq<(Vec<u8>, Option<Vec<u8>>)>,
) -> bool {
    &&& plan.len() == rows.len()
    &&& forall|i: int|
        0 <= i < rows.len() ==> (#[trigger] plan[i]).0@ == rows[i].0 && row_planned::<R, F, M>(
            accept,
            modify,
            rows[i],
            plan[i].1,
        )
}

/// What planning a rewriting scan gives: the plan for every row, or the
/// failure of the first row that does not decode or whose changed record
/// has no stored form.
pub open spec fn plan_outcome<R: Record, F: Fn(&R) -> bool, M: FnMut(R) -> R>(
    rows: Seq<(Seq<u8>, Seq<u8>)>,
    accept: F,
    modify: M,
    result: Result<Vec<(Vec<u8>, Option<Vec<u8>>)>, TableError>,
) -> bool {
    match result {
        Ok(plan) => planned::<R, F, M>(rows, accept, modify, plan@),
        Err(TableError::DecodingFailure) => exists|i: int|
            0 <= i < rows.len() && row_failed::<R, F, M>(accept, modify, #[trigger] rows[i], false),
        Err(TableError::EncodingFailure) => exists|i: int|
            0 <= i < rows.len() && row_failed::<R, F, M>(accept, modify, #[trigger] rows[i], true),
        Err(e) => e is StoreFailure,
    }
}

/// What `filter_modify` does: every row is rewritten. Where a row does not
/// decode, or the changed record of a row has no stored form, it fails and
/// the table is as it was.
pub open spec fn filter_modify_outcome<R: Record, F: Fn(&R) -> bool, M: FnMut(R) -> R>(
    before: Seq<(Seq<u8>, Seq<u8>)>,
    accept: F,
    modify: M,
    result: Result<(), TableError>,
    after: Seq<(Seq<u8>, Seq<u8>)>,
) -> bool {
    match result {
        Ok(()) => rewritten_up_to::<R, F, M>(before, accept, modify, before.len() as int, after),
        Err(TableError::DecodingFailure) => after == before && exists|i: int|
            0 <= i < before.len() && row_failed::<R, F, M>(
                accept,
                modify,
                #[trigger] before[i],
                false,
            ),
        Err(TableError::EncodingFailure) => after == before && exists|i: int|
            0 <= i < before.len() && row_failed::<R, F, M>(
                accept,
                modify,
                #[trigger] before[i],
                true,
            ),
        Err(e) => e is StoreFailure,
    }
}

/// `val` is the stored form of some record.
pub open spec fn is_stored_form<R: Record>(val: Seq<u8>) -> bool {
    exists|record: R::Model| #[trigger] stored_form::<R>(record) == Some(val)
}

/// The invariant of a table: no key occurs twice, the rows stand in the
/// order of their keys, and every value is the stored form of some record.
pub open spec fn well_formed<R: Record>(rows: Seq<(Seq<u8>, Seq<u8>)>) -> bool {
    &&& distinct_keys(rows)
    &&& ascending(rows)
    &&& forall|i: int| 0 <= i < rows.len() ==> is_stored_form::<R>((#[trigger] rows[i]).1)
}

} // verus!
