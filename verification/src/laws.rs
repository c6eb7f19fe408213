//! Laws of the table operations, proved from what the operations'
//! contracts state.

use vstd::prelude::*;

use crate::error::TableError;
use crate::outcome::{
    accepts, bound, create_outcome, filter_modify_outcome, filter_outcome, is_stored_form,
    modify_if_exists_outcome, modify_outcome, read_or_create_outcome, read_outcome, rewritten,
    row_rewritten, starts_from, update_outcome, well_formed, write_outcome,
};
use crate::record::{key_bytes, lemma_record_is_lawful, stored_form, ByteRep, Record};
use crate::rows::{
    as_map, bytes_less, distinct_keys, has_key, index_of, lemma_bytes_less_is_strict,
    lemma_smaller_key_stands_first, lemma_upsert, lemma_upsert_binds, lookup,
};

verus! {

/// Creating a missing record is idempotent: a second successful call with
/// the same key leaves the table exactly as the first one left it.
pub proof fn lemma_create_if_missing_is_idempotent<R: Record>(
    start: Seq<(Seq<u8>, Seq<u8>)>,
    key: <R::Key as ByteRep>::Model,
    once: Seq<(Seq<u8>, Seq<u8>)>,
    twice: Seq<(Seq<u8>, Seq<u8>)>,
)
    requires
        create_outcome::<R>(start, key, Ok(()), once),
        create_outcome::<R>(once, key, Ok(()), twice),
    ensures
        twice == once,
        key_bytes::<R>(key) matches Some(k) && has_key(once, k),
{
    let k = key_bytes::<R>(key)->0;
    if !has_key(start, k) {
        let (fresh, val) = choose|fresh: R::Model, val: Seq<u8>| #[trigger]
            R::is_new(key, fresh) && stored_form::<R>(fresh) == Some(val) && #[trigger] bound(
                start,
                k,
                val,
                once,
            );
        lemma_upsert_binds(start, k, val, once);
    }
}

/// Changing a record that is not there changes nothing: on an absent key
/// `modify_if_exists` answers `false`, or hands on a failure of the store,
/// and the table is as it was.
pub proof fn lemma_modify_if_exists_leaves_absent_key<R: Record, M: FnMut(R) -> R>(
    before: Seq<(Seq<u8>, Seq<u8>)>,
    key: <R::Key as ByteRep>::Model,
    modify: M,
    result: Result<bool, TableError>,
    after: Seq<(Seq<u8>, Seq<u8>)>,
)
    requires
        modify_if_exists_outcome::<R, M>(before, key, modify, result, after),
        key_bytes::<R>(key) matches Some(k) && !has_key(before, k),
    ensures
        after == before,
        after.len() == before.len(),
        match result {
            Ok(found) => !found,
            Err(e) => e is StoreFailure,
        },
{
}

/// On an absent key, a successful `modify` adds exactly one row: the key is
/// bound to the stored form of a default record after the change, and every
/// other key keeps its value.
pub proof fn lemma_modify_adds_one_row_for_absent_key<R: Record, M: FnMut(R) -> R>(
    before: Seq<(Seq<u8>, Seq<u8>)>,
    key: <R::Key as ByteRep>::Model,
    modify: M,
    after: Seq<(Seq<u8>, Seq<u8>)>,
)
    requires
        distinct_keys(before),
        R::newable_spec(),
        key_bytes::<R>(key) matches Some(k) && !has_key(before, k),
        modify_outcome::<R, M>(before, key, modify, Ok(()), after),
    ensures
        after.len() == before.len() + 1,
        distinct_keys(after),
        exists|fresh: R, changed: R|
            R::is_new(key, fresh.model()) && #[trigger] call_ensures(modify, (fresh,), changed)
                && stored_form::<R>(changed.model()) == lookup(after, key_bytes::<R>(key)->0),
        forall|other: Seq<u8>|
            other != key_bytes::<R>(key)->0 ==> lookup(after, other) == lookup(before, other),
{
    let k = key_bytes::<R>(key)->0;
    assert(update_outcome::<R, M>(before, key, k, modify, true, after));
    let start = choose|start: R::Model| #[trigger]
        starts_from::<R>(lookup(before, k), key, start) && (exists|val: Seq<u8>| #[trigger]
            rewritten::<R, M>(modify, start, Some(val)) && bound(before, k, val, after));
    let val = choose|val: Seq<u8>| #[trigger]
        rewritten::<R, M>(modify, start, Some(val)) && bound(before, k, val, after);
    lemma_upsert(before, k, val, after);
    let (fresh, changed) = choose|fresh: R, changed: R|
        fresh.model() == start && #[trigger] call_ensures(modify, (fresh,), changed)
            && stored_form::<R>(changed.model()) == Some(val);
    assert(R::is_new(key, fresh.model()) && call_ensures(modify, (fresh,), changed)
        && stored_form::<R>(changed.model()) == lookup(after, k));
}

/// For a record type that is not newable, `modify` on an absent key fails
/// with `NotNewable`, or hands on a failure of the store, and writes
/// nothing. It fails so on no other input.
pub proof fn lemma_modify_refuses_not_newable<R: Record, M: FnMut(R) -> R>(
    before: Seq<(Seq<u8>, Seq<u8>)>,
    key: <R::Key as ByteRep>::Model,
    modify: M,
    result: Result<(), TableError>,
    after: Seq<(Seq<u8>, Seq<u8>)>,
)
    requires
        modify_outcome::<R, M>(before, key, modify, result, after),
    ensures
        !R::newable_spec() && key_bytes::<R>(key) is Some && !has_key(
            before,
            key_bytes::<R>(key)->0,
        ) ==> after == before && (result matches Err(TableError::NotNewable)
            || result matches Err(TableError::StoreFailure(_))),
        result matches Err(TableError::NotNewable) ==> !R::newable_spec() && key_bytes::<R>(key)
            is Some && !has_key(before, key_bytes::<R>(key)->0) && after == before,
{
}

/// On a present key a record type that is not newable is changed as any
/// other: `modify` and `create_record_if_missing` do not fail with
/// `NotNewable`.
pub proof fn lemma_present_key_needs_no_newable<R: Record, M: FnMut(R) -> R>(
    before: Seq<(Seq<u8>, Seq<u8>)>,
    key: <R::Key as ByteRep>::Model,
    modify: M,
    modified: Result<(), TableError>,
    after_modify: Seq<(Seq<u8>, Seq<u8>)>,
    created: Result<(), TableError>,
    after_create: Seq<(Seq<u8>, Seq<u8>)>,
)
    requires
        key_bytes::<R>(key) matches Some(k) && has_key(before, k),
        modify_outcome::<R, M>(before, key, modify, modified, after_modify),
        create_outcome::<R>(before, key, created, after_create),
    ensures
        !(modified matches Err(TableError::NotNewable)),
        created matches Ok(_) ==> after_create == before,
        created matches Err(e) ==> e is StoreFailure,
{
}

/// A `filter_modify` that fails on a row, because the row does not decode
/// or its changed record has no stored form, leaves the table as it was.
pub proof fn lemma_failed_filter_modify_writes_nothing<
    R: Record,
    F: Fn(&R) -> bool,
    M: FnMut(R) -> R,
>(
    before: Seq<(Seq<u8>, Seq<u8>)>,
    accept: F,
    modify: M,
    result: Result<(), TableError>,
    after: Seq<(Seq<u8>, Seq<u8>)>,
)
    requires
        filter_modify_outcome::<R, F, M>(before, accept, modify, result, after),
        result matches Err(TableError::DecodingFailure) || result matches Err(
            TableError::EncodingFailure,
        ),
    ensures
        after == before,
{
}

/// A scan hands the records out in the order of their keys: in a table
/// that a write left behind, the row of the smaller key stands first.
pub proof fn lemma_rows_stand_in_key_order<R: Record>(
    before: Seq<(Seq<u8>, Seq<u8>)>,
    record: R::Model,
    after: Seq<(Seq<u8>, Seq<u8>)>,
    i: int,
    j: int,
)
    requires
        write_outcome::<R>(before, record, Ok(()), after),
        0 <= i < after.len(),
        0 <= j < after.len(),
        bytes_less(after[i].0, after[j].0),
    ensures
        i < j,
{
    lemma_smaller_key_stands_first(after, i, j);
}

/// A successful `filter_modify` keeps the number of rows and every key in
/// its place. Where the predicate has one answer for each record, given
/// by `accepted`, the rows it accepts hold the stored form of their
/// changed record and all others are byte for byte as they were.
pub proof fn lemma_filter_modify_touches_only_accepted<
    R: Record,
    F: Fn(&R) -> bool,
    M: FnMut(R) -> R,
>(
    before: Seq<(Seq<u8>, Seq<u8>)>,
    accept: F,
    modify: M,
    accepted: Seq<bool>,
    after: Seq<(Seq<u8>, Seq<u8>)>,
)
    requires
        filter_modify_outcome::<R, F, M>(before, accept, modify, Ok(()), after),
        accepted.len() == before.len(),
        forall|i: int, record: R, answer: bool|
            0 <= i < before.len() && R::decoding(before[i].1) == Some(record.model())
                && #[trigger] call_ensures(accept, (&record,), answer) ==> answer
                == #[trigger] accepted[i],
    ensures
        after.len() == before.len(),
        forall|i: int| 0 <= i < before.len() ==> (#[trigger] after[i]).0 == before[i].0,
        forall|i: int| 0 <= i < before.len() && !accepted[i] ==> #[trigger] after[i] == before[i],
        forall|i: int|
            0 <= i < before.len() && accepted[i] ==> R::decoding(before[i].1) is Some
                && rewritten::<R, M>(
                modify,
                R::decoding(before[i].1)->0,
                Some((#[trigger] after[i]).1),
            ),
{
    assert forall|i: int| 0 <= i < before.len() implies (#[trigger] after[i]).0 == before[i].0 && (
    !accepted[i] ==> after[i] == before[i]) && (accepted[i] ==> R::decoding(before[i].1) is Some
        && rewritten::<R, M>(modify, R::decoding(before[i].1)->0, Some(after[i].1))) by {
        assert(row_rewritten::<R, F, M>(accept, modify, before[i], after[i]));
        let record = R::decoding(before[i].1)->0;
        if accepts::<R, F>(accept, record, false) {
            let given = choose|given: R|
                given.model() == record && #[trigger] call_ensures(accept, (&given,), false);
            assert(accepted[i] == false);
        }
        if accepts::<R, F>(accept, record, true) {
            let given = choose|given: R|
                given.model() == record && #[trigger] call_ensures(accept, (&given,), true);
            assert(accepted[i] == true);
        }
    }
}

/// What was written is what is read: after a successful `write_record`, a
/// `read_record` of the record's key gives the record in its canonical
/// form, unless the store fails.
pub proof fn lemma_read_after_write<R: Record>(
    before: Seq<(Seq<u8>, Seq<u8>)>,
    record: R::Model,
    after: Seq<(Seq<u8>, Seq<u8>)>,
    found: Result<Option<R>, TableError>,
)
    requires
        write_outcome::<R>(before, record, Ok(()), after),
        read_outcome::<R>(after, R::key_of(R::stabilized(record)), found),
    ensures
        match found {
            Ok(got) => got matches Some(back) && back.model() == R::stabilized(record),
            Err(e) => e is StoreFailure,
        },
{
    lemma_record_is_lawful::<R>();
    let key = key_bytes::<R>(R::key_of(R::stabilized(record)))->0;
    let val = stored_form::<R>(record)->0;
    lemma_upsert_binds(before, key, val, after);
}

/// Reading or creating twice creates at most once: the second of two
/// successful calls with the same key leaves the table as the first left
/// it and returns the same record.
pub proof fn lemma_read_or_create_twice<R: Record>(
    start: Seq<(Seq<u8>, Seq<u8>)>,
    key: <R::Key as ByteRep>::Model,
    first: R,
    once: Seq<(Seq<u8>, Seq<u8>)>,
    second: R,
    twice: Seq<(Seq<u8>, Seq<u8>)>,
)
    requires
        read_or_create_outcome::<R>(start, key, Ok(first), once),
        read_or_create_outcome::<R>(once, key, Ok(second), twice),
    ensures
        twice == once,
        second.model() == first.model(),
{
    lemma_record_is_lawful::<R>();
    let k = key_bytes::<R>(key)->0;
    if lookup(start, k) is None {
        let (fresh, val) = choose|fresh: R::Model, val: Seq<u8>| #[trigger]
            R::is_new(key, fresh) && first.model() == R::stabilized(fresh) && stored_form::<R>(
                fresh,
            ) == Some(val) && #[trigger] bound(start, k, val, once);
        lemma_upsert_binds(start, k, val, once);
    }
}

/// A successful `write_record` binds the record's key to its stored form
/// and leaves every other key as it was.
pub proof fn lemma_write_binds_only_its_key<R: Record>(
    before: Seq<(Seq<u8>, Seq<u8>)>,
    record: R::Model,
    after: Seq<(Seq<u8>, Seq<u8>)>,
)
    requires
        distinct_keys(before),
        write_outcome::<R>(before, record, Ok(()), after),
    ensures
        key_bytes::<R>(R::key_of(R::stabilized(record))) is Some,
        stored_form::<R>(record) is Some,
        as_map(after) == as_map(before).insert(
            key_bytes::<R>(R::key_of(R::stabilized(record)))->0,
            stored_form::<R>(record)->0,
        ),
{
    lemma_upsert(
        before,
        key_bytes::<R>(R::key_of(R::stabilized(record)))->0,
        stored_form::<R>(record)->0,
        after,
    );
}

/// Binding a key to the stored form of a record keeps a table well formed.
pub proof fn lemma_bound_keeps_well_formed<R: Record>(
    before: Seq<(Seq<u8>, Seq<u8>)>,
    key: Seq<u8>,
    record: R::Model,
    after: Seq<(Seq<u8>, Seq<u8>)>,
)
    requires
        well_formed::<R>(before),
        stored_form::<R>(record) is Some,
        bound(before, key, stored_form::<R>(record)->0, after),
    ensures
        well_formed::<R>(after),
{
    let val = stored_form::<R>(record)->0;
    assert(is_stored_form::<R>(val)) by {
        assert(stored_form::<R>(record) == Some(val));
    }
    assert forall|i: int| 0 <= i < after.len() implies is_stored_form::<R>(
        (#[trigger] after[i]).1,
    ) by {
        if has_key(before, key) {
            let p = index_of(before, key);
            if i != p {
                assert(after[i] == before[i]);
            }
        } else {
            let j = choose|j: int|
                0 <= j <= before.len() && after == #[trigger] before.insert(j, (key, val));
            if i < j {
                assert(after[i] == before[i]);
            } else if i > j {
                assert(after[i] == before[i - 1]);
            }
        }
    }
}

/// `write_record` keeps a table well formed.
pub proof fn lemma_write_keeps_well_formed<R: Record>(
    before: Seq<(Seq<u8>, Seq<u8>)>,
    record: R::Model,
    result: Result<(), TableError>,
    after: Seq<(Seq<u8>, Seq<u8>)>,
)
    requires
        well_formed::<R>(before),
        write_outcome::<R>(before, record, result, after),
        !(result matches Err(TableError::StoreFailure(_))),
    ensures
        well_formed::<R>(after),
{
    if result is Ok {
        lemma_bound_keeps_well_formed::<R>(
            before,
            key_bytes::<R>(R::key_of(R::stabilized(record)))->0,
            record,
            after,
        );
    }
}

/// `create_record_if_missing` keeps a table well formed.
pub proof fn lemma_create_keeps_well_formed<R: Record>(
    before: Seq<(Seq<u8>, Seq<u8>)>,
    key: <R::Key as ByteRep>::Model,
    result: Result<(), TableError>,
    after: Seq<(Seq<u8>, Seq<u8>)>,
)
    requires
        well_formed::<R>(before),
        create_outcome::<R>(before, key, result, after),
        !(result matches Err(TableError::StoreFailure(_))),
    ensures
        well_formed::<R>(after),
{
    if result is Ok {
        let k = key_bytes::<R>(key)->0;
        if !has_key(before, k) {
            let (fresh, val) = choose|fresh: R::Model, val: Seq<u8>| #[trigger]
                R::is_new(key, fresh) && stored_form::<R>(fresh) == Some(val) && #[trigger] bound(
                    before,
                    k,
                    val,
                    after,
                );
            lemma_bound_keeps_well_formed::<R>(before, k, fresh, after);
        }
    }
}

/// `read_or_create_record` keeps a table well formed.
pub proof fn lemma_read_or_create_keeps_well_formed<R: Record>(
    before: Seq<(Seq<u8>, Seq<u8>)>,
    key: <R::Key as ByteRep>::Model,
    result: Result<R, TableError>,
    after: Seq<(Seq<u8>, Seq<u8>)>,
)
    requires
        well_formed::<R>(before),
        read_or_create_outcome::<R>(before, key, result, after),
        !(result matches Err(TableError::StoreFailure(_))),
    ensures
        well_formed::<R>(after),
{
    if result is Ok {
        let k = key_bytes::<R>(key)->0;
        if lookup(before, k) is None {
            let (fresh, val) = choose|fresh: R::Model, val: Seq<u8>| #[trigger]
                R::is_new(key, fresh) && result->Ok_0.model() == R::stabilized(fresh)
                    && stored_form::<R>(fresh) == Some(val) && #[trigger] bound(
                    before,
                    k,
                    val,
                    after,
                );
            lemma_bound_keeps_well_formed::<R>(before, k, fresh, after);
        }
    }
}

/// Binding a key to what an update wrote keeps a table well formed.
proof fn lemma_update_keeps_well_formed<R: Record, M: FnMut(R) -> R>(
    before: Seq<(Seq<u8>, Seq<u8>)>,
    key: <R::Key as ByteRep>::Model,
    k: Seq<u8>,
    modify: M,
    after: Seq<(Seq<u8>, Seq<u8>)>,
)
    requires
        well_formed::<R>(before),
        update_outcome::<R, M>(before, key, k, modify, true, after),
    ensures
        well_formed::<R>(after),
{
    let start = choose|start: R::Model| #[trigger]
        starts_from::<R>(lookup(before, k), key, start) && (exists|val: Seq<u8>| #[trigger]
            rewritten::<R, M>(modify, start, Some(val)) && bound(before, k, val, after));
    let val = choose|val: Seq<u8>| #[trigger]
        rewritten::<R, M>(modify, start, Some(val)) && bound(before, k, val, after);
    let (given, changed) = choose|given: R, changed: R|
        given.model() == start && #[trigger] call_ensures(modify, (given,), changed)
            && stored_form::<R>(changed.model()) == Some(val);
    lemma_bound_keeps_well_formed::<R>(before, k, changed.model(), after);
}

/// `modify` keeps a table well formed.
pub proof fn lemma_modify_keeps_well_formed<R: Record, M: FnMut(R) -> R>(
    before: Seq<(Seq<u8>, Seq<u8>)>,
    key: <R::Key as ByteRep>::Model,
    modify: M,
    result: Result<(), TableError>,
    after: Seq<(Seq<u8>, Seq<u8>)>,
)
    requires
        well_formed::<R>(before),
        modify_outcome::<R, M>(before, key, modify, result, after),
        !(result matches Err(TableError::StoreFailure(_))),
    ensures
        well_formed::<R>(after),
{
    if result is Ok {
        lemma_update_keeps_well_formed::<R, M>(
            before,
            key,
            key_bytes::<R>(key)->0,
            modify,
            after,
        );
    }
}

/// `modify_if_exists` keeps a table well formed.
pub proof fn lemma_modify_if_exists_keeps_well_formed<R: Record, M: FnMut(R) -> R>(
    before: Seq<(Seq<u8>, Seq<u8>)>,
    key: <R::Key as ByteRep>::Model,
    modify: M,
    result: Result<bool, TableError>,
    after: Seq<(Seq<u8>, Seq<u8>)>,
)
    requires
        well_formed::<R>(before),
        modify_if_exists_outcome::<R, M>(before, key, modify, result, after),
        !(result matches Err(TableError::StoreFailure(_))),
    ensures
        well_formed::<R>(after),
{
    if result matches Ok(true) {
        lemma_update_keeps_well_formed::<R, M>(
            before,
            key,
            key_bytes::<R>(key)->0,
            modify,
            after,
        );
    }
}

/// A successful `filter_modify` keeps a table well formed.
pub proof fn lemma_filter_modify_keeps_well_formed<
    R: Record,
    F: Fn(&R) -> bool,
    M: FnMut(R) -> R,
>(
    before: Seq<(Seq<u8>, Seq<u8>)>,
    accept: F,
    modify: M,
    after: Seq<(Seq<u8>, Seq<u8>)>,
)
    requires
        well_formed::<R>(before),
        filter_modify_outcome::<R, F, M>(before, accept, modify, Ok(()), after),
    ensures
        well_formed::<R>(after),
{
    assert forall|i: int, j: int| 0 <= i < j < after.len() implies (#[trigger] after[i]).0 != (
    #[trigger] after[j]).0 && bytes_less(after[i].0, after[j].0) by {
        assert(row_rewritten::<R, F, M>(accept, modify, before[i], after[i]));
        assert(row_rewritten::<R, F, M>(accept, modify, before[j], after[j]));
        assert(bytes_less(before[i].0, before[j].0));
    }
    assert forall|i: int| 0 <= i < after.len() implies is_stored_form::<R>(
        (#[trigger] after[i]).1,
    ) by {
        assert(row_rewritten::<R, F, M>(accept, modify, before[i], after[i]));
        if after[i] != before[i] {
            let record = R::decoding(before[i].1)->0;
            let (given, changed) = choose|given: R, changed: R|
                given.model() == record && #[trigger] call_ensures(modify, (given,), changed)
                    && stored_form::<R>(changed.model()) == Some(after[i].1);
            assert(stored_form::<R>(changed.model()) == Some(after[i].1));
        }
    }
}

/// Every row of a well-formed table decodes, where decoding gives back
/// what was encoded.
pub proof fn lemma_well_formed_rows_decode<R: Record>(rows: Seq<(Seq<u8>, Seq<u8>)>)
    requires
        well_formed::<R>(rows),
    ensures
        forall|i: int| 0 <= i < rows.len() ==> R::decoding((#[trigger] rows[i]).1) is Some,
{
    lemma_record_is_lawful::<R>();
    assert forall|i: int| 0 <= i < rows.len() implies R::decoding(
        (#[trigger] rows[i]).1,
    ) is Some by {
        assert(is_stored_form::<R>(rows[i].1));
        let record = choose|record: R::Model| #[trigger]
            stored_form::<R>(record) == Some(rows[i].1);
        assert(R::encoding(R::stabilized(record)) == Some(rows[i].1));
    }
}

/// On a well-formed table neither a read nor a scan fails to decode.
pub proof fn lemma_well_formed_table_is_readable<R: Record, F: Fn(&R) -> bool>(
    rows: Seq<(Seq<u8>, Seq<u8>)>,
    key: <R::Key as ByteRep>::Model,
    found: Result<Option<R>, TableError>,
    accept: F,
    scanned: Result<Vec<R>, TableError>,
)
    requires
        well_formed::<R>(rows),
        read_outcome::<R>(rows, key, found),
        filter_outcome::<R, F>(rows, accept, scanned),
    ensures
        !(found matches Err(TableError::DecodingFailure)),
        !(scanned matches Err(TableError::DecodingFailure)),
{
    lemma_record_is_lawful::<R>();
    lemma_well_formed_rows_decode::<R>(rows);
    if found matches Err(TableError::DecodingFailure) {
        let k = key_bytes::<R>(key)->0;
        assert(has_key(rows, k));
        let at = index_of(rows, k);
        assert(R::decoding(rows[at].1) is Some);
    }
}

/// Rows stand in key order, not in the order of writing: where a larger
/// key is written into an empty table and a smaller one after it, the row
/// of the smaller key stands first.
pub proof fn lemma_later_write_of_smaller_key_stands_first<R: Record>(
    larger: R::Model,
    once: Seq<(Seq<u8>, Seq<u8>)>,
    smaller: R::Model,
    twice: Seq<(Seq<u8>, Seq<u8>)>,
)
    requires
        write_outcome::<R>(Seq::empty(), larger, Ok(()), once),
        write_outcome::<R>(once, smaller, Ok(()), twice),
        bytes_less(
            key_bytes::<R>(R::key_of(R::stabilized(smaller)))->0,
            key_bytes::<R>(R::key_of(R::stabilized(larger)))->0,
        ),
    ensures
        twice == seq![
            (
                key_bytes::<R>(R::key_of(R::stabilized(smaller)))->0,
                stored_form::<R>(smaller)->0,
            ),
            (key_bytes::<R>(R::key_of(R::stabilized(larger)))->0, stored_form::<R>(larger)->0),
        ],
{
    let first = key_bytes::<R>(R::key_of(R::stabilized(smaller)))->0;
    let second = key_bytes::<R>(R::key_of(R::stabilized(larger)))->0;
    let none = Seq::<(Seq<u8>, Seq<u8>)>::empty();
    lemma_bytes_less_is_strict(first, second);
    assert(!has_key(none, second));
    let big = (second, stored_form::<R>(larger)->0);
    let small = (first, stored_form::<R>(smaller)->0);
    let at = choose|at: int| 0 <= at <= none.len() && once == #[trigger] none.insert(at, big);
    assert(once == seq![big]);
    assert(once[0].0 == second);
    if has_key(once, first) {
        let p = index_of(once, first);
        assert(once[p].0 == first);
    }
    let to = choose|to: int| 0 <= to <= once.len() && twice == #[trigger] once.insert(to, small);
    if to == 1 {
        assert(bytes_less(twice[0].0, twice[1].0));
    }
    assert(twice[0] == small);
    assert(twice[1] == once[0]);
}

} // verus!
