//! The decisions of the table operations, taken apart from the store: what
//! to hand back for what the store returned, and what to write next. Each
//! is a function of plain values.

use vstd::prelude::*;

use crate::error::TableError;
use crate::outcome::{accepts, rewritten, starts_from};
use crate::record::{stored_form, ByteRep, Record};

verus! {

/// The bytes that a read of the store returned, if any.
pub open spec fn bytes_of(got: Option<Vec<u8>>) -> Option<Seq<u8>> {
    match got {
        Some(bytes) => Some(bytes@),
        None => None,
    }
}

/// Hands on what the store returned: a value as it is, a failure as a
/// `StoreFailure` that holds it.
pub fn store_result<T>(result: Result<T, heed::Error>) -> (r: Result<T, TableError>)
    ensures
        match result {
            Ok(value) => r == Ok::<T, TableError>(value),
            Err(e) => r == Err::<T, TableError>(TableError::StoreFailure(e)),
        },
{
    match result {
        Ok(value) => Ok(value),
        Err(e) => Err(TableError::StoreFailure(e)),
    }
}

/// How a transaction that an operation began for itself is to end.
#[derive(Debug, Clone, Copy, PartialEq, Eq, Structural)]
pub enum Ending {
    /// The logic succeeded: commit what it wrote.
    Commit,
    /// The logic failed: abandon the transaction, so that nothing of what
    /// it wrote is kept.
    Abandon,
}

/// Decides how a transaction of the operation's own is to end: it is
/// committed if and only if the logic succeeded.
pub fn ending_of<T>(inner: &Result<T, TableError>) -> (ending: Ending)
    ensures
        ending == (if inner is Ok {
            Ending::Commit
        } else {
            Ending::Abandon
        }),
{
    if inner.is_ok() {
        Ending::Commit
    } else {
        Ending::Abandon
    }
}

/// The result of an operation whose logic succeeded in a transaction of
/// its own, once the commit was tried: the logic's result where the commit
/// succeeded, the store's failure where it did not.
pub fn committed<T>(inner: Result<T, TableError>, commit: Result<(), heed::Error>) -> (r: Result<
    T,
    TableError,
>)
    requires
        inner is Ok,
    ensures
        match commit {
            Ok(()) => r == inner,
            Err(e) => r == Err::<T, TableError>(TableError::StoreFailure(e)),
        },
{
    match commit {
        Ok(()) => inner,
        Err(e) => Err(TableError::StoreFailure(e)),
    }
}

/// The record that the bytes found under a key stand for: nothing where
/// nothing was found, a failure where the bytes do not decode.
pub fn found_record<R: Record>(got: Option<Vec<u8>>) -> (r: Result<Option<R>, TableError>)
    ensures
        match bytes_of(got) {
            None => r matches Ok(None),
            Some(bytes) => match R::decoding(bytes) {
                Some(value) => r matches Ok(Some(record)) && record.model() == value,
                None => r matches Err(TableError::DecodingFailure),
            },
        },
{
    match got {
        None => Ok(None),
        Some(bytes) => match R::from_bytes(bytes.as_slice()) {
            Ok(record) => Ok(Some(record)),
            Err(e) => Err(e),
        },
    }
}

/// The default record for `key` in its canonical form, with the bytes it
/// is stored as; a failure where it has none.
pub fn default_record<R: Record>(key: R::Key) -> (r: Result<(R, Vec<u8>), TableError>)
    requires
        R::newable_spec(),
    ensures
        exists|fresh: R::Model| #[trigger]
            R::is_new(key.model(), fresh) && match r {
                Ok(made) => made.0.model() == R::stabilized(fresh) && stored_form::<R>(fresh)
                    == Some(made.1@),
                Err(e) => e is EncodingFailure && stored_form::<R>(fresh) is None,
            },
{
    let ghost named = key.model();
    let mut record = R::new(key);
    let ghost fresh = record.model();
    record.stabilize();
    let r = match record.to_bytes() {
        Ok(bytes) => Ok((record, bytes)),
        Err(e) => Err(e),
    };
    proof {
        assert(R::is_new(named, fresh));
    }
    r
}

/// The record that an update of `key` starts from: the one that the bytes
/// found under the key stand for, or a default one where nothing was
/// found. It fails where the bytes do not decode, and where nothing was
/// found and the record type is not newable.
pub fn starting_record<R: Record>(key: R::Key, got: Option<Vec<u8>>) -> (r: Result<R, TableError>)
    ensures
        match r {
            Ok(start) => starts_from::<R>(bytes_of(got), key.model(), start.model()) && (
            got is Some || R::newable_spec()),
            Err(TableError::NotNewable) => got is None && !R::newable_spec(),
            Err(e) => e is DecodingFailure && (bytes_of(got) matches Some(bytes) && R::decoding(
                bytes,
            ) is None),
        },
{
    match got {
        Some(bytes) => R::from_bytes(bytes.as_slice()),
        None => if R::newable() {
            Ok(R::new(key))
        } else {
            Err(TableError::NotNewable)
        },
    }
}

/// The default record for `key` in its canonical form, with the bytes it
/// is stored as, where the record type is newable; a failure where it is
/// not, or where the record has no bytes.
pub fn missing_record<R: Record>(key: R::Key) -> (r: Result<(R, Vec<u8>), TableError>)
    ensures
        match r {
            Err(TableError::NotNewable) => !R::newable_spec(),
            _ => R::newable_spec() && exists|fresh: R::Model| #[trigger]
                R::is_new(key.model(), fresh) && match r {
                    Ok(made) => made.0.model() == R::stabilized(fresh) && stored_form::<R>(fresh)
                        == Some(made.1@),
                    Err(e) => e is EncodingFailure && stored_form::<R>(fresh) is None,
                },
        },
{
    if R::newable() {
        default_record::<R>(key)
    } else {
        Err(TableError::NotNewable)
    }
}

/// The bytes to store after `modify` changed `start`: the stored form of
/// the changed record; a failure where it has none.
pub fn changed_bytes<R: Record, M: FnMut(R) -> R>(start: R, modify: &mut M) -> (r: Result<
    Vec<u8>,
    TableError,
>)
    requires
        forall|x: R| call_requires(*old(modify), (x,)),
    ensures
        *final(modify) == *old(modify),
        match r {
            Ok(bytes) => rewritten::<R, M>(*old(modify), start.model(), Some(bytes@)),
            Err(e) => e is EncodingFailure && rewritten::<R, M>(
                *old(modify),
                start.model(),
                None,
            ),
        },
{
    let mut changed = modify(start);
    let ghost raw = changed;
    changed.stabilize();
    let r = changed.to_bytes();
    proof {
        assert(call_ensures(*old(modify), (start,), raw) && stored_form::<R>(raw.model())
            == R::encoding(changed.model()));
    }
    r
}

/// What a scan hands out for one row: the record where the predicate
/// accepts it, nothing where it does not; a failure where the row does not
/// decode.
pub fn row_choice<R: Record, F: Fn(&R) -> bool>(valbytes: &[u8], accept: &F) -> (r: Result<
    Option<R>,
    TableError,
>)
    requires
        forall|x: R| call_requires(*accept, (&x,)),
    ensures
        match r {
            Ok(Some(record)) => R::decoding(valbytes@) == Some(record.model()) && accepts::<R, F>(
                *accept,
                record.model(),
                true,
            ),
            Ok(None) => R::decoding(valbytes@) matches Some(value) && accepts::<R, F>(
                *accept,
                value,
                false,
            ),
            Err(e) => e is DecodingFailure && R::decoding(valbytes@) is None,
        },
{
    let record = match R::from_bytes(valbytes) {
        Ok(record) => record,
        Err(e) => {
            return Err(e);
        },
    };
    let kept = accept(&record);
    proof {
        assert(call_ensures(*accept, (&record,), kept));
    }
    if kept {
        Ok(Some(record))
    } else {
        Ok(None)
    }
}

/// What a rewriting scan does with one row: the bytes to store in its
/// place where the predicate accepts its record, nothing where it does
/// not; a failure where the row does not decode or the changed record has
/// no stored form.
pub fn row_change<R: Record, F: Fn(&R) -> bool, M: FnMut(R) -> R>(
    valbytes: &[u8],
    accept: &F,
    modify: &mut M,
) -> (r: Result<Option<Vec<u8>>, TableError>)
    requires
        forall|x: R| call_requires(*accept, (&x,)),
        forall|x: R| call_requires(*old(modify), (x,)),
    ensures
        *final(modify) == *old(modify),
        match r {
            Ok(None) => R::decoding(valbytes@) matches Some(value) && accepts::<R, F>(
                *accept,
                value,
                false,
            ),
            Ok(Some(bytes)) => R::decoding(valbytes@) matches Some(value) && accepts::<R, F>(
                *accept,
                value,
                true,
            ) && rewritten::<R, M>(*old(modify), value, Some(bytes@)),
            Err(TableError::DecodingFailure) => R::decoding(valbytes@) is None,
            Err(e) => e is EncodingFailure && (R::decoding(valbytes@) matches Some(value)
                && accepts::<R, F>(*accept, value, true) && rewritten::<R, M>(
                *old(modify),
                value,
                None,
            )),
        },
{
    match row_choice::<R, F>(valbytes, accept) {
        Ok(Some(record)) => match changed_bytes::<R, M>(record, modify) {
            Ok(bytes) => Ok(Some(bytes)),
            Err(e) => Err(e),
        },
        Ok(None) => Ok(None),
        Err(e) => Err(e),
    }
}

} // verus!
