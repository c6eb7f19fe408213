//! The boundary to the key-value engine: its types, the names under which
//! contracts speak of what a transaction holds, and one thin function per
//! engine call. Nothing here is proved; every contract restates what the
//! engine's source and documentation say.

use heed::types::ByteSlice;
use heed::{Database, Env, RoIter, RoTxn, RwTxn};
use vstd::prelude::*;

use crate::rows::{ascending, distinct_keys, is_upsert, lookup};

verus! {

/// `heed::Env`, the handle of an opened environment.
#[verifier::external_type_specification]
#[verifier::external_body]
pub struct ExEnv(heed::Env);

/// `heed::Error`, every failure the engine reports.
#[verifier::external_type_specification]
#[verifier::external_body]
pub struct ExStoreError(heed::Error);

/// `heed::types::UnalignedSlice`, the codec that hands bytes through unchanged.
#[verifier::external_type_specification]
#[verifier::external_body]
#[verifier::reject_recursive_types(T)]
pub struct ExUnalignedSlice<T>(heed::types::UnalignedSlice<T>);

/// `heed::RoTxn`, a read-only transaction.
#[verifier::external_type_specification]
#[verifier::external_body]
#[verifier::reject_recursive_types(T)]
pub struct ExRoTxn<'e, T>(heed::RoTxn<'e, T>);

/// `heed::RwTxn`, a read-write transaction.
#[verifier::external_type_specification]
#[verifier::external_body]
#[verifier::reject_recursive_types(T)]
pub struct ExRwTxn<'e, 'p, T>(heed::RwTxn<'e, 'p, T>);

/// `heed::Database`, the handle of one named database of an environment.
#[verifier::external_type_specification]
#[verifier::external_body]
#[verifier::reject_recursive_types(KC)]
#[verifier::reject_recursive_types(DC)]
pub struct ExDatabase<KC, DC>(heed::Database<KC, DC>);

/// `heed::RoIter`, a forward iterator over one database.
#[verifier::external_type_specification]
#[verifier::external_body]
#[verifier::reject_recursive_types(KC)]
#[verifier::reject_recursive_types(DC)]
pub struct ExRoIter<'txn, KC, DC>(heed::RoIter<'txn, KC, DC>);

/// The rows of database `db` as transaction `txn` sees them, in the order in
/// which the engine's forward iteration yields them, which is the order of
/// their keys, byte by byte. The contracts below are those of a database
/// as `Env::create_database` makes it, in which a key has one value and
/// keys are compared as bytes.
pub uninterp spec fn entries(txn: RoTxn<'_>, db: Database<ByteSlice, ByteSlice>) -> Seq<
    (Seq<u8>, Seq<u8>),
>;

/// The read-only transaction through which a read-write transaction reads,
/// its own writes included.
pub uninterp spec fn read_view(txn: RwTxn<'_, '_>) -> RoTxn<'static>;

/// The rows an iterator has not yet yielded, in the order in which it will.
pub uninterp spec fn remaining(it: RoIter<'_, ByteSlice, ByteSlice>) -> Seq<
    (Seq<u8>, Seq<u8>),
>;

/// The identity of an environment, shared by all clones of its handle.
pub uninterp spec fn env_ident(env: Env) -> int;

/// The identity of the environment a database handle was made in.
pub uninterp spec fn database_env(db: Database<ByteSlice, ByteSlice>) -> int;

/// The identity of the environment a transaction was begun in.
pub uninterp spec fn txn_env(txn: RoTxn<'_>) -> int;

/// What every successful read tells of the rows: no key occurs twice, and
/// the rows stand in the order of their keys.
pub open spec fn in_key_order(rows: Seq<(Seq<u8>, Seq<u8>)>) -> bool {
    distinct_keys(rows) && ascending(rows)
}

/// What a successful point read returns: the value under `key`, of rows
/// in key order.
pub open spec fn is_get_result(
    rows: Seq<(Seq<u8>, Seq<u8>)>,
    key: Seq<u8>,
    got: Option<Vec<u8>>,
) -> bool {
    &&& in_key_order(rows)
    &&& match got {
        Some(v) => lookup(rows, key) == Some(v@),
        None => lookup(rows, key) is None,
    }
}

/// Clones the handle with `Env::clone`: the clone is a handle of the same
/// environment.
#[verifier::external_body]
pub(crate) fn clone_env(env: &Env) -> (r: Env)
    ensures
        env_ident(r) == env_ident(*env),
{
    env.clone()
}

/// Opens the database `name` with `Env::create_database`, creating it if
/// it does not exist. The handle belongs to `env`. The engine panics on a
/// name that holds a NUL character, so such names are left out.
#[verifier::external_body]
pub(crate) fn create_database(env: &Env, name: &str) -> (r: Result<
    Database<ByteSlice, ByteSlice>,
    heed::Error,
>)
    requires
        !name@.contains('\0'),
    ensures
        r matches Ok(db) ==> database_env(db) == env_ident(*env),
{
    env.create_database(Some(name))
}

/// Begins a read-only transaction with `Env::read_txn`. The transaction
/// belongs to `env`; nothing is claimed of the rows it sees.
#[verifier::external_body]
pub(crate) fn begin_read<'e>(env: &'e Env) -> (r: Result<RoTxn<'e>, heed::Error>)
    ensures
        r matches Ok(txn) ==> txn_env(txn) == env_ident(*env),
{
    env.read_txn()
}

/// Begins a read-write transaction with `Env::write_txn`. The transaction
/// belongs to `env`; nothing is claimed of the rows it sees.
#[verifier::external_body]
pub(crate) fn begin_write<'e>(env: &'e Env) -> (r: Result<RwTxn<'e, 'e>, heed::Error>)
    ensures
        r matches Ok(txn) ==> txn_env(read_view(txn)) == env_ident(*env),
{
    env.write_txn()
}

/// Commits with `RwTxn::commit`. Nothing is claimed of the outcome.
#[verifier::external_body]
pub(crate) fn commit(txn: RwTxn<'_, '_>) -> (r: Result<(), heed::Error>) {
    txn.commit()
}

/// Borrows the read-only face of a read-write transaction, as `Deref` on
/// `RwTxn` does.
#[verifier::external_body]
pub(crate) fn as_read<'a, 'e, 'p>(txn: &'a RwTxn<'e, 'p>) -> (r: &'a RoTxn<'e>)
    ensures
        *r == read_view(*txn),
{
    txn
}

/// Counts the rows with `Database::len`. The engine panics when the
/// database and the transaction belong to different environments.
#[verifier::external_body]
pub(crate) fn db_len(db: &Database<ByteSlice, ByteSlice>, txn: &RoTxn<'_>) -> (r: Result<
    u64,
    heed::Error,
>)
    requires
        database_env(*db) == txn_env(*txn),
    ensures
        r matches Ok(n) ==> n == entries(*txn, *db).len(),
{
    db.len(txn)
}

/// Reads the value under `key` with `Database::get`, copied out of the
/// store. The engine panics when the database and the transaction belong to
/// different environments.
#[verifier::external_body]
pub(crate) fn db_get(db: &Database<ByteSlice, ByteSlice>, txn: &RoTxn<'_>, key: &[u8]) -> (r:
    Result<Option<Vec<u8>>, heed::Error>)
    requires
        database_env(*db) == txn_env(*txn),
    ensures
        r matches Ok(got) ==> is_get_result(entries(*txn, *db), key@, got),
{
    Ok(db.get(txn, key)?.map(|v| v.to_vec()))
}

/// Writes `val` under `key` with `Database::put`, replacing the value of an
/// existing row where it stands and placing a new row by its key. The
/// transaction stays in its environment.
/// Nothing is claimed of the rows after a failure. The engine panics when
/// the database and the transaction belong to different environments.
#[verifier::external_body]
pub(crate) fn db_put(
    db: &Database<ByteSlice, ByteSlice>,
    txn: &mut RwTxn<'_, '_>,
    key: &[u8],
    val: &[u8],
) -> (r: Result<(), heed::Error>)
    requires
        database_env(*db) == txn_env(read_view(*old(txn))),
    ensures
        txn_env(read_view(*final(txn))) == txn_env(read_view(*old(txn))),
        r is Ok ==> in_key_order(entries(read_view(*final(txn)), *db)) && is_upsert(
            entries(read_view(*old(txn)), *db),
            key@,
            val@,
            entries(read_view(*final(txn)), *db),
        ),
{
    db.put(txn, key, val)
}

/// Starts a forward iteration with `Database::iter`: it will yield the
/// rows the transaction sees, in key order. The engine panics when the database
/// and the transaction belong to different environments.
#[verifier::external_body]
pub(crate) fn db_iter<'t>(db: &Database<ByteSlice, ByteSlice>, txn: &'t RoTxn<'_>) -> (r: Result<
    RoIter<'t, ByteSlice, ByteSlice>,
    heed::Error,
>)
    requires
        database_env(*db) == txn_env(*txn),
    ensures
        r matches Ok(it) ==> remaining(it) == entries(*txn, *db) && in_key_order(
            entries(*txn, *db),
        ),
{
    db.iter(txn)
}

/// Advances the iteration with `Iterator::next` on `RoIter`: a row is the
/// first of those remaining and leaves them, and the end comes only when
/// none remain. Nothing is claimed after a failure. The row is copied out
/// of the store.
#[verifier::external_body]
pub(crate) fn iter_next(it: &mut RoIter<'_, ByteSlice, ByteSlice>) -> (r: Option<
    Result<(Vec<u8>, Vec<u8>), heed::Error>,
>)
    ensures
        match r {
            Some(Ok(kv)) => remaining(*old(it)).len() > 0 && remaining(*old(it))[0] == (
                kv.0@,
                kv.1@,
            ) && remaining(*final(it)) == remaining(*old(it)).skip(1),
            Some(Err(_)) => true,
            None => remaining(*old(it)).len() == 0,
        },
{
    it.next().map(|item| item.map(|(k, v)| (k.to_vec(), v.to_vec())))
}

} // verus!
