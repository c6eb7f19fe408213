//! Typed tables over the shared byte store.
//!
//! Every operation takes an optional transaction. With one, it works in it
//! and leaves the commit to the caller; its contract then says exactly
//! what the rows of the table are afterwards. With none, it works in a
//! transaction of its own, which it commits if and only if its logic
//! succeeded; its contract then says that its result is the one that the
//! logic gives on the rows of this table in a transaction of its
//! environment, the one that the call began.

use std::marker::PhantomData;

use heed::types::ByteSlice;
use heed::{Database, Env, RoTxn, RwTxn};
use vstd::prelude::*;

use crate::error::TableError;
use crate::outcome::{
    accepts, answers, bound, committed_result, create_outcome, decoded, filter_modify_outcome,
    filter_outcome, has_outcome, models, modify_if_exists_outcome, modify_outcome, plan_outcome,
    planned, read_or_create_outcome, read_outcome, rewritten_up_to, row_failed, row_planned,
    row_rewritten, selected, starts_from, write_outcome,
};
use crate::record::{key_bytes, stored_form, ByteRep, Record};
use crate::rows::{distinct_keys, lemma_index_of_unique, lookup};
use crate::steps::{
    bytes_of, changed_bytes, committed, ending_of, found_record, missing_record, row_change,
    row_choice, starting_record, store_result, Ending,
};
use crate::store::{
    as_read, begin_read, begin_write, clone_env, commit, create_database, database_env, db_get,
    db_iter, db_len, db_put, entries, env_ident, iter_next, read_view, remaining, txn_env,
};

verus! {

/// A named partition of the store that holds records of type `R`.
pub struct Table<R: Record> {
    env: Env,
    db: Database<ByteSlice, ByteSlice>,
    name: String,
    item: PhantomData<R>,
}

/// Ends a transaction that an operation began for itself: commits it where
/// the logic succeeded, abandons it where the logic failed.
fn finish<T>(txn: RwTxn<'_, '_>, inner: Result<T, TableError>) -> (r: Result<T, TableError>)
    ensures
        committed_result(inner, r),
{
    match ending_of(&inner) {
        Ending::Commit => committed(inner, commit(txn)),
        Ending::Abandon => inner,
    }
}

impl<R: Record> Table<R> {
    #[verifier::type_invariant]
    spec fn inv(self) -> bool {
        database_env(self.db) == env_ident(self.env)
    }

    /// The identity of the environment this table lives in. A transaction
    /// handed to an operation must belong to the same environment.
    pub closed spec fn env_id(&self) -> int {
        env_ident(self.env)
    }

    /// The rows of this table as `txn` sees them, in key order.
    pub closed spec fn rows(&self, txn: RoTxn<'_>) -> Seq<(Seq<u8>, Seq<u8>)> {
        entries(txn, self.db)
    }

    /// The name the partition is stored under.
    pub closed spec fn name_spec(&self) -> Seq<char> {
        self.name@
    }

    /// Binds the partition `name` of `env`, creating it if it does not
    /// exist yet.
    pub fn create(env: &Env, name: &str) -> (r: Result<Self, TableError>)
        requires
            !name@.contains('\0'),
        ensures
            match r {
                Ok(table) => table.env_id() == env_ident(*env) && table.name_spec() == name@,
                Err(e) => e is StoreFailure,
            },
    {
        match store_result(create_database(env, name)) {
            Ok(db) => Ok(
                Table { env: clone_env(env), db, name: name.to_owned(), item: PhantomData },
            ),
            Err(e) => Err(e),
        }
    }

    /// The name the partition is stored under.
    pub fn lmdb_name(&self) -> (name: &str)
        ensures
            name@ == self.name_spec(),
    {
        self.name.as_str()
    }

    /// The handle of the partition.
    pub fn db(&self) -> (db: Database<ByteSlice, ByteSlice>)
        ensures
            database_env(db) == self.env_id(),
            forall|txn: RoTxn<'_>| #[trigger] entries(txn, db) == self.rows(txn),
    {
        proof {
            use_type_invariant(self);
        }
        self.db
    }

    /// Whether the records of this table can be built from a key alone.
    pub fn newable(&self) -> (b: bool)
        ensures
            b == R::newable_spec(),
    {
        R::newable()
    }

    /// Begins a read-only transaction that the operations of this table
    /// accept.
    pub fn read_txn(&self) -> (r: Result<RoTxn<'_>, TableError>)
        ensures
            match r {
                Ok(txn) => txn_env(txn) == self.env_id(),
                Err(e) => e is StoreFailure,
            },
    {
        store_result(begin_read(&self.env))
    }

    /// Begins a read-write transaction that the operations of this table
    /// accept. It is the caller's to commit.
    pub fn write_txn(&self) -> (r: Result<RwTxn<'_, '_>, TableError>)
        ensures
            match r {
                Ok(txn) => txn_env(read_view(txn)) == self.env_id(),
                Err(e) => e is StoreFailure,
            },
    {
        store_result(begin_write(&self.env))
    }

    /// The number of rows that `txn` sees.
    pub fn count_records(&self, txn: &RoTxn<'_>) -> (r: Result<u64, TableError>)
        requires
            txn_env(*txn) == self.env_id(),
        ensures
            match r {
                Ok(n) => n == self.rows(*txn).len(),
                Err(e) => e is StoreFailure,
            },
    {
        proof {
            use_type_invariant(self);
        }
        store_result(db_len(&self.db, txn))
    }

    /// The number of rows that a fresh read transaction sees: the count is
    /// that of the rows of this table in some transaction of its
    /// environment, the one that the call began.
    pub fn num_records(&self) -> (r: Result<u64, TableError>)
        ensures
            match r {
                Ok(n) => exists|txn: RoTxn<'_>|
                    txn_env(txn) == self.env_id() && n == (#[trigger] self.rows(txn)).len(),
                Err(e) => e is StoreFailure,
            },
    {
        let txn = match self.read_txn() {
            Ok(t) => t,
            Err(e) => {
                return Err(e);
            },
        };
        let r = self.count_records(&txn);
        proof {
            if r is Ok {
                assert(txn_env(txn) == self.env_id() && r->Ok_0 == self.rows(txn).len());
            }
        }
        r
    }

    fn put_in(&self, k: &[u8], v: &[u8], txn: &mut RwTxn<'_, '_>) -> (r: Result<(), TableError>)
        requires
            txn_env(read_view(*old(txn))) == self.env_id(),
        ensures
            txn_env(read_view(*final(txn))) == self.env_id(),
            match r {
                Ok(()) => bound(
                    self.rows(read_view(*old(txn))),
                    k@,
                    v@,
                    self.rows(read_view(*final(txn))),
                ),
                Err(e) => e is StoreFailure,
            },
    {
        proof {
            use_type_invariant(self);
        }
        store_result(db_put(&self.db, txn, k, v))
    }

    fn get_in(&self, k: &[u8], txn: &RoTxn<'_>) -> (r: Result<Option<Vec<u8>>, TableError>)
        requires
            txn_env(*txn) == self.env_id(),
        ensures
            match r {
                Ok(got) => distinct_keys(self.rows(*txn)) && lookup(self.rows(*txn), k@)
                    == bytes_of(got),
                Err(e) => e is StoreFailure,
            },
    {
        proof {
            use_type_invariant(self);
        }
        store_result(db_get(&self.db, txn, k))
    }

    /// Writes `record` in its canonical form under its key, replacing what
    /// was stored there.
    pub fn write_record(
        &self,
        record: &mut R,
        wtxn: Option<&mut RwTxn<'_, '_>>,
    ) -> (r: Result<(), TableError>)
        requires
            wtxn matches Some(t) ==> txn_env(read_view(*t)) == self.env_id(),
        ensures
            final(record).model() == R::stabilized(old(record).model()),
            match wtxn {
                Some(t) => txn_env(read_view(*final(t))) == self.env_id() && write_outcome::<R>(
                    self.rows(read_view(*t)),
                    old(record).model(),
                    r,
                    self.rows(read_view(*final(t))),
                ),
                None => if key_bytes::<R>(R::key_of(R::stabilized(old(record).model()))) is Some
                    && stored_form::<R>(old(record).model()) is Some {
                    r matches Err(TableError::StoreFailure(_)) || exists|
                        began: RwTxn<'_, '_>,
                        inner: Result<(), TableError>,
                        ended: RwTxn<'_, '_>,
                    |
                        txn_env(read_view(began)) == self.env_id() && #[trigger] write_outcome::<R>(
                            self.rows(read_view(began)),
                            old(record).model(),
                            inner,
                            self.rows(read_view(ended)),
                        )
                            && committed_result(inner, r)
                } else {
                    r matches Err(TableError::EncodingFailure)
                },
            },
    {
        record.stabilize();
        let keybytes = match record.key().to_bytes() {
            Ok(b) => b,
            Err(e) => {
                return Err(e);
            },
        };
        let valbytes = match record.to_bytes() {
            Ok(b) => b,
            Err(e) => {
                return Err(e);
            },
        };
        match wtxn {
            Some(txn) => self.put_in(keybytes.as_slice(), valbytes.as_slice(), txn),
            None => {
                let mut txn = match self.write_txn() {
                    Ok(t) => t,
                    Err(e) => {
                        return Err(e);
                    },
                };
                let ghost began = txn;
                let inner = self.put_in(keybytes.as_slice(), valbytes.as_slice(), &mut txn);
                proof {
                    assert(write_outcome::<R>(
                        self.rows(read_view(began)),
                        old(record).model(),
                        inner,
                        self.rows(read_view(txn)),
                    ));
                }
                finish(txn, inner)
            },
        }
    }

    fn create_in(&self, key: R::Key, k: &[u8], txn: &mut RwTxn<'_, '_>) -> (r: Result<
        (),
        TableError,
    >)
        requires
            key_bytes::<R>(key.model()) == Some(k@),
            txn_env(read_view(*old(txn))) == self.env_id(),
        ensures
            txn_env(read_view(*final(txn))) == self.env_id(),
            create_outcome::<R>(
                self.rows(read_view(*old(txn))),
                key.model(),
                r,
                self.rows(read_view(*final(txn))),
            ),
    {
        let got = match self.get_in(k, as_read(txn)) {
            Ok(g) => g,
            Err(e) => {
                return Err(e);
            },
        };
        if got.is_some() {
            return Ok(());
        }
        let (_record, valbytes) = match missing_record::<R>(key) {
            Ok(made) => made,
            Err(e) => {
                return Err(e);
            },
        };
        self.put_in(k, valbytes.as_slice(), txn)
    }

    /// Stores a default record under `key` unless the key is present.
    pub fn create_record_if_missing(
        &self,
        key: R::Key,
        wtxn: Option<&mut RwTxn<'_, '_>>,
    ) -> (r: Result<(), TableError>)
        requires
            wtxn matches Some(t) ==> txn_env(read_view(*t)) == self.env_id(),
        ensures
            match wtxn {
                Some(t) => txn_env(read_view(*final(t))) == self.env_id() && create_outcome::<R>(
                    self.rows(read_view(*t)),
                    key.model(),
                    r,
                    self.rows(read_view(*final(t))),
                ),
                None => if key_bytes::<R>(key.model()) is Some {
                    r matches Err(TableError::StoreFailure(_)) || exists|
                        began: RwTxn<'_, '_>,
                        inner: Result<(), TableError>,
                        ended: RwTxn<'_, '_>,
                    |
                        txn_env(read_view(began)) == self.env_id()
                            && #[trigger] create_outcome::<R>(
                            self.rows(read_view(began)),
                            key.model(),
                            inner,
                            self.rows(read_view(ended)),
                        )
                            && committed_result(inner, r)
                } else {
                    r matches Err(TableError::EncodingFailure)
                },
            },
    {
        let k = match key.to_bytes() {
            Ok(k) => k,
            Err(e) => {
                return Err(e);
            },
        };
        match wtxn {
            Some(txn) => self.create_in(key, k.as_slice(), txn),
            None => {
                let mut txn = match self.write_txn() {
                    Ok(t) => t,
                    Err(e) => {
                        return Err(e);
                    },
                };
                let ghost began = txn;
                let inner = self.create_in(key, k.as_slice(), &mut txn);
                proof {
                    assert(create_outcome::<R>(
                        self.rows(read_view(began)),
                        key.model(),
                        inner,
                        self.rows(read_view(txn)),
                    ));
                }
                finish(txn, inner)
            },
        }
    }

    fn has_in(&self, key: R::Key, k: &[u8], txn: &RoTxn<'_>) -> (r: Result<bool, TableError>)
        requires
            key_bytes::<R>(key.model()) == Some(k@),
            txn_env(*txn) == self.env_id(),
        ensures
            has_outcome::<R>(self.rows(*txn), key.model(), r),
    {
        match self.get_in(k, txn) {
            Ok(got) => Ok(got.is_some()),
            Err(e) => Err(e),
        }
    }

    /// Whether a record is stored under `key`. The value is not decoded.
    pub fn has_record(&self, key: R::Key, rtxn: Option<&RoTxn<'_>>) -> (r: Result<bool, TableError>)
        requires
            rtxn matches Some(t) ==> txn_env(*t) == self.env_id(),
        ensures
            match rtxn {
                Some(t) => has_outcome::<R>(self.rows(*t), key.model(), r),
                None => if key_bytes::<R>(key.model()) is Some {
                    r matches Err(TableError::StoreFailure(_)) || exists|txn: RoTxn<'_>|
                        txn_env(txn) == self.env_id() && #[trigger] has_outcome::<R>(
                            self.rows(txn),
                            key.model(),
                            r,
                        )
                } else {
                    r matches Err(TableError::EncodingFailure)
                },
            },
    {
        let k = match key.to_bytes() {
            Ok(k) => k,
            Err(e) => {
                return Err(e);
            },
        };
        match rtxn {
            Some(txn) => self.has_in(key, k.as_slice(), txn),
            None => {
                let txn = match self.read_txn() {
                    Ok(t) => t,
                    Err(e) => {
                        return Err(e);
                    },
                };
                let out = self.has_in(key, k.as_slice(), &txn);
                proof {
                    assert(has_outcome::<R>(self.rows(txn), key.model(), out));
                }
                out
            },
        }
    }

    fn read_in(&self, key: R::Key, k: &[u8], txn: &RoTxn<'_>) -> (r: Result<Option<R>, TableError>)
        requires
            key_bytes::<R>(key.model()) == Some(k@),
            txn_env(*txn) == self.env_id(),
        ensures
            read_outcome::<R>(self.rows(*txn), key.model(), r),
    {
        match self.get_in(k, txn) {
            Ok(got) => found_record::<R>(got),
            Err(e) => Err(e),
        }
    }

    /// The record stored under `key`, or nothing where the key is absent.
    /// Stored bytes that do not decode are a failure, not an absence.
    pub fn read_record(&self, key: R::Key, rtxn: Option<&RoTxn<'_>>) -> (r: Result<
        Option<R>,
        TableError,
    >)
        requires
            rtxn matches Some(t) ==> txn_env(*t) == self.env_id(),
        ensures
            match rtxn {
                Some(t) => read_outcome::<R>(self.rows(*t), key.model(), r),
                None => if key_bytes::<R>(key.model()) is Some {
                    r matches Err(TableError::StoreFailure(_)) || exists|txn: RoTxn<'_>|
                        txn_env(txn) == self.env_id() && #[trigger] read_outcome::<R>(
                            self.rows(txn),
                            key.model(),
                            r,
                        )
                } else {
                    r matches Err(TableError::EncodingFailure)
                },
            },
    {
        let k = match key.to_bytes() {
            Ok(k) => k,
            Err(e) => {
                return Err(e);
            },
        };
        match rtxn {
            Some(txn) => self.read_in(key, k.as_slice(), txn),
            None => {
                let txn = match self.read_txn() {
                    Ok(t) => t,
                    Err(e) => {
                        return Err(e);
                    },
                };
                let out = self.read_in(key, k.as_slice(), &txn);
                proof {
                    assert(read_outcome::<R>(self.rows(txn), key.model(), out));
                }
                out
            },
        }
    }

    fn read_or_create_in(&self, key: R::Key, k: &[u8], txn: &mut RwTxn<'_, '_>) -> (r: Result<
        R,
        TableError,
    >)
        requires
            key_bytes::<R>(key.model()) == Some(k@),
            txn_env(read_view(*old(txn))) == self.env_id(),
        ensures
            txn_env(read_view(*final(txn))) == self.env_id(),
            read_or_create_outcome::<R>(
                self.rows(read_view(*old(txn))),
                key.model(),
                r,
                self.rows(read_view(*final(txn))),
            ),
    {
        let got = match self.get_in(k, as_read(txn)) {
            Ok(g) => g,
            Err(e) => {
                return Err(e);
            },
        };
        match found_record::<R>(got) {
            Ok(Some(record)) => Ok(record),
            Ok(None) => {
                let (record, valbytes) = match missing_record::<R>(key) {
                    Ok(made) => made,
                    Err(e) => {
                        return Err(e);
                    },
                };
                match self.put_in(k, valbytes.as_slice(), txn) {
                    Ok(()) => Ok(record),
                    Err(e) => Err(e),
                }
            },
            Err(e) => Err(e),
        }
    }

    /// The record stored under `key`; where the key is absent, a default
    /// record, which is stored first.
    pub fn read_or_create_record(
        &self,
        key: R::Key,
        wtxn: Option<&mut RwTxn<'_, '_>>,
    ) -> (r: Result<R, TableError>)
        requires
            wtxn matches Some(t) ==> txn_env(read_view(*t)) == self.env_id(),
        ensures
            match wtxn {
                Some(t) => txn_env(read_view(*final(t))) == self.env_id()
                    && read_or_create_outcome::<R>(
                    self.rows(read_view(*t)),
                    key.model(),
                    r,
                    self.rows(read_view(*final(t))),
                ),
                None => if key_bytes::<R>(key.model()) is Some {
                    r matches Err(TableError::StoreFailure(_)) || exists|
                        began: RwTxn<'_, '_>,
                        inner: Result<R, TableError>,
                        ended: RwTxn<'_, '_>,
                    |
                        txn_env(read_view(began)) == self.env_id()
                            && #[trigger] read_or_create_outcome::<R>(
                            self.rows(read_view(began)),
                            key.model(),
                            inner,
                            self.rows(read_view(ended)),
                        )
                            && committed_result(inner, r)
                } else {
                    r matches Err(TableError::EncodingFailure)
                },
            },
    {
        let k = match key.to_bytes() {
            Ok(k) => k,
            Err(e) => {
                return Err(e);
            },
        };
        match wtxn {
            Some(txn) => self.read_or_create_in(key, k.as_slice(), txn),
            None => {
                let mut txn = match self.write_txn() {
                    Ok(t) => t,
                    Err(e) => {
                        return Err(e);
                    },
                };
                let ghost began = txn;
                let inner = self.read_or_create_in(key, k.as_slice(), &mut txn);
                proof {
                    assert(read_or_create_outcome::<R>(
                        self.rows(read_view(began)),
                        key.model(),
                        inner,
                        self.rows(read_view(txn)),
                    ));
                }
                finish(txn, inner)
            },
        }
    }

    fn modify_if_exists_in<M: FnMut(R) -> R>(
        &self,
        key: R::Key,
        k: &[u8],
        modify: &mut M,
        txn: &mut RwTxn<'_, '_>,
    ) -> (r: Result<bool, TableError>)
        requires
            key_bytes::<R>(key.model()) == Some(k@),
            forall|x: R| call_requires(*old(modify), (x,)),
            txn_env(read_view(*old(txn))) == self.env_id(),
        ensures
            *final(modify) == *old(modify),
            txn_env(read_view(*final(txn))) == self.env_id(),
            modify_if_exists_outcome::<R, M>(
                self.rows(read_view(*old(txn))),
                key.model(),
                *old(modify),
                r,
                self.rows(read_view(*final(txn))),
            ),
    {
        let got = match self.get_in(k, as_read(txn)) {
            Ok(g) => g,
            Err(e) => {
                return Err(e);
            },
        };
        let record = match found_record::<R>(got) {
            Ok(Some(record)) => record,
            Ok(None) => {
                return Ok(false);
            },
            Err(e) => {
                return Err(e);
            },
        };
        proof {
            assert(starts_from::<R>(
                lookup(self.rows(read_view(*txn)), k@),
                key.model(),
                record.model(),
            ));
        }
        let valbytes = match changed_bytes::<R, M>(record, modify) {
            Ok(bytes) => bytes,
            Err(e) => {
                return Err(e);
            },
        };
        match self.put_in(k, valbytes.as_slice(), txn) {
            Ok(()) => Ok(true),
            Err(e) => Err(e),
        }
    }

    /// Changes the record stored under `key` with `modify` and stores the
    /// result in its canonical form. Returns whether the key was present;
    /// an absent key is left absent.
    pub fn modify_if_exists<M: FnMut(R) -> R>(
        &self,
        key: R::Key,
        modify: M,
        wtxn: Option<&mut RwTxn<'_, '_>>,
    ) -> (r: Result<bool, TableError>)
        requires
            forall|x: R| call_requires(modify, (x,)),
            wtxn matches Some(t) ==> txn_env(read_view(*t)) == self.env_id(),
        ensures
            match wtxn {
                Some(t) => txn_env(read_view(*final(t))) == self.env_id()
                    && modify_if_exists_outcome::<R, M>(
                    self.rows(read_view(*t)),
                    key.model(),
                    modify,
                    r,
                    self.rows(read_view(*final(t))),
                ),
                None => if key_bytes::<R>(key.model()) is Some {
                    r matches Err(TableError::StoreFailure(_)) || exists|
                        began: RwTxn<'_, '_>,
                        inner: Result<bool, TableError>,
                        ended: RwTxn<'_, '_>,
                    |
                        txn_env(read_view(began)) == self.env_id()
                            && #[trigger] modify_if_exists_outcome::<R, M>(
                            self.rows(read_view(began)),
                            key.model(),
                            modify,
                            inner,
                            self.rows(read_view(ended)),
                        )
                            && committed_result(inner, r)
                } else {
                    r matches Err(TableError::EncodingFailure)
                },
            },
    {
        let mut modify = modify;
        let ghost change = modify;
        let k = match key.to_bytes() {
            Ok(k) => k,
            Err(e) => {
                return Err(e);
            },
        };
        match wtxn {
            Some(txn) => self.modify_if_exists_in(key, k.as_slice(), &mut modify, txn),
            None => {
                let mut txn = match self.write_txn() {
                    Ok(t) => t,
                    Err(e) => {
                        return Err(e);
                    },
                };
                let ghost began = txn;
                let inner = self.modify_if_exists_in(key, k.as_slice(), &mut modify, &mut txn);
                proof {
                    assert(modify_if_exists_outcome::<R, M>(
                        self.rows(read_view(began)),
                        key.model(),
                        change,
                        inner,
                        self.rows(read_view(txn)),
                    ));
                }
                finish(txn, inner)
            },
        }
    }

    fn modify_in<M: FnMut(R) -> R>(
        &self,
        key: R::Key,
        k: &[u8],
        modify: &mut M,
        txn: &mut RwTxn<'_, '_>,
    ) -> (r: Result<(), TableError>)
        requires
            key_bytes::<R>(key.model()) == Some(k@),
            forall|x: R| call_requires(*old(modify), (x,)),
            txn_env(read_view(*old(txn))) == self.env_id(),
        ensures
            *final(modify) == *old(modify),
            txn_env(read_view(*final(txn))) == self.env_id(),
            modify_outcome::<R, M>(
                self.rows(read_view(*old(txn))),
                key.model(),
                *old(modify),
                r,
                self.rows(read_view(*final(txn))),
            ),
    {
        let got = match self.get_in(k, as_read(txn)) {
            Ok(g) => g,
            Err(e) => {
                return Err(e);
            },
        };
        let record = match starting_record::<R>(key, got) {
            Ok(record) => record,
            Err(e) => {
                return Err(e);
            },
        };
        let valbytes = match changed_bytes::<R, M>(record, modify) {
            Ok(bytes) => bytes,
            Err(e) => {
                return Err(e);
            },
        };
        self.put_in(k, valbytes.as_slice(), txn)
    }

    /// Changes the record stored under `key` with `modify` and stores the
    /// result in its canonical form; where the key is absent, the change
    /// starts from a default record.
    pub fn modify<M: FnMut(R) -> R>(
        &self,
        key: R::Key,
        modify: M,
        wtxn: Option<&mut RwTxn<'_, '_>>,
    ) -> (r: Result<(), TableError>)
        requires
            forall|x: R| call_requires(modify, (x,)),
            wtxn matches Some(t) ==> txn_env(read_view(*t)) == self.env_id(),
        ensures
            match wtxn {
                Some(t) => txn_env(read_view(*final(t))) == self.env_id() && modify_outcome::<R, M>(
                    self.rows(read_view(*t)),
                    key.model(),
                    modify,
                    r,
                    self.rows(read_view(*final(t))),
                ),
                None => if key_bytes::<R>(key.model()) is Some {
                    r matches Err(TableError::StoreFailure(_)) || exists|
                        began: RwTxn<'_, '_>,
                        inner: Result<(), TableError>,
                        ended: RwTxn<'_, '_>,
                    |
                        txn_env(read_view(began)) == self.env_id()
                            && #[trigger] modify_outcome::<R, M>(
                            self.rows(read_view(began)),
                            key.model(),
                            modify,
                            inner,
                            self.rows(read_view(ended)),
                        )
                            && committed_result(inner, r)
                } else {
                    r matches Err(TableError::EncodingFailure)
                },
            },
    {
        let mut modify = modify;
        let ghost change = modify;
        let k = match key.to_bytes() {
            Ok(k) => k,
            Err(e) => {
                return Err(e);
            },
        };
        match wtxn {
            Some(txn) => self.modify_in(key, k.as_slice(), &mut modify, txn),
            None => {
                let mut txn = match self.write_txn() {
                    Ok(t) => t,
                    Err(e) => {
                        return Err(e);
                    },
                };
                let ghost began = txn;
                let inner = self.modify_in(key, k.as_slice(), &mut modify, &mut txn);
                proof {
                    assert(modify_outcome::<R, M>(
                        self.rows(read_view(began)),
                        key.model(),
                        change,
                        inner,
                        self.rows(read_view(txn)),
                    ));
                }
                finish(txn, inner)
            },
        }
    }

    fn filter_in<F: Fn(&R) -> bool>(&self, accept: &F, txn: &RoTxn<'_>) -> (r: Result<
        Vec<R>,
        TableError,
    >)
        requires
            forall|x: R| call_requires(*accept, (&x,)),
            txn_env(*txn) == self.env_id(),
        ensures
            filter_outcome::<R, F>(self.rows(*txn), *accept, r),
    {
        proof {
            use_type_invariant(self);
        }
        let ghost rows = self.rows(*txn);
        let mut it = match store_result(db_iter(&self.db, txn)) {
            Ok(it) => it,
            Err(e) => {
                return Err(e);
            },
        };
        let mut output: Vec<R> = Vec::new();
        let ghost mut recs: Seq<R::Model> = Seq::empty();
        let ghost mut keep: Seq<bool> = Seq::empty();
        loop
            invariant
                forall|x: R| call_requires(*accept, (&x,)),
                rows == self.rows(*txn),
                recs.len() <= rows.len(),
                remaining(it) == rows.skip(recs.len() as int),
                decoded::<R>(rows.take(recs.len() as int), recs),
                answers::<R, F>(*accept, recs, keep),
                models(output@) == selected(recs, keep),
            decreases remaining(it).len(),
        {
            let (_keybytes, valbytes) = match iter_next(&mut it) {
                None => {
                    proof {
                        assert(rows.skip(recs.len() as int).len() == 0);
                        assert(rows.take(recs.len() as int) == rows);
                        assert(decoded::<R>(rows, recs) && answers::<R, F>(*accept, recs, keep));
                    }
                    return Ok(output);
                },
                Some(Err(e)) => {
                    return Err(TableError::StoreFailure(e));
                },
                Some(Ok(kv)) => kv,
            };
            let ghost at = recs.len() as int;
            proof {
                assert(rows.skip(at).len() > 0);
                assert(rows.skip(at)[0] == rows[at]);
                assert(rows[at].1 == valbytes@);
            }
            let choice = match row_choice::<R, F>(valbytes.as_slice(), accept) {
                Ok(choice) => choice,
                Err(e) => {
                    proof {
                        assert(R::decoding(rows[at].1) is None);
                    }
                    return Err(e);
                },
            };
            let ghost found = models(output@);
            proof {
                let value = R::decoding(rows[at].1)->0;
                let grown = recs.push(value);
                let marks = keep.push(choice is Some);
                assert(grown.drop_last() == recs);
                assert(marks.drop_last() == keep);
                assert(rows.skip(at).skip(1) == rows.skip(at + 1));
                assert forall|i: int| 0 <= i < at + 1 implies R::decoding(
                    rows.take(at + 1)[i].1,
                ) == Some(#[trigger] grown[i]) by {
                    if i < at {
                        assert(rows.take(at)[i] == rows.take(at + 1)[i]);
                    }
                }
                assert forall|i: int| 0 <= i < grown.len() implies accepts::<R, F>(
                    *accept,
                    grown[i],
                    #[trigger] marks[i],
                ) by {
                    if i < recs.len() {
                        assert(accepts::<R, F>(*accept, recs[i], keep[i]));
                    }
                }
                recs = grown;
                keep = marks;
            }
            match choice {
                Some(record) => {
                    let ghost added = record.model();
                    output.push(record);
                    proof {
                        assert(models(output@) == found.push(added));
                    }
                },
                None => {},
            }
        }
    }

    /// The records that `accept` accepts, in key order. One row that does
    /// not decode fails the whole scan.
    pub fn filter_records<F: Fn(&R) -> bool>(&self, accept: F, rtxn: Option<&RoTxn<'_>>) -> (r:
        Result<Vec<R>, TableError>)
        requires
            forall|x: R| call_requires(accept, (&x,)),
            rtxn matches Some(t) ==> txn_env(*t) == self.env_id(),
        ensures
            match rtxn {
                Some(t) => filter_outcome::<R, F>(self.rows(*t), accept, r),
                None => r matches Err(TableError::StoreFailure(_)) || exists|txn: RoTxn<'_>|
                        txn_env(txn) == self.env_id() && #[trigger] filter_outcome::<R, F>(
                            self.rows(txn),
                            accept,
                            r,
                        ),
            },
    {
        match rtxn {
            Some(txn) => self.filter_in(&accept, txn),
            None => {
                let txn = match self.read_txn() {
                    Ok(t) => t,
                    Err(e) => {
                        return Err(e);
                    },
                };
                let out = self.filter_in(&accept, &txn);
                proof {
                    assert(filter_outcome::<R, F>(self.rows(txn), accept, out));
                }
                out
            },
        }
    }

    /// Plans a rewriting scan: walks the rows in key order and notes for
    /// each what is to be stored in its place. Nothing is written.
    fn plan_in<F: Fn(&R) -> bool, M: FnMut(R) -> R>(
        &self,
        accept: &F,
        modify: &mut M,
        txn: &RoTxn<'_>,
    ) -> (r: Result<Vec<(Vec<u8>, Option<Vec<u8>>)>, TableError>)
        requires
            forall|x: R| call_requires(*accept, (&x,)),
            forall|x: R| call_requires(*old(modify), (x,)),
            txn_env(*txn) == self.env_id(),
        ensures
            *final(modify) == *old(modify),
            r is Ok ==> distinct_keys(self.rows(*txn)),
            plan_outcome::<R, F, M>(self.rows(*txn), *accept, *old(modify), r),
    {
        proof {
            use_type_invariant(self);
        }
        let ghost rows = self.rows(*txn);
        let mut it = match store_result(db_iter(&self.db, txn)) {
            Ok(it) => it,
            Err(e) => {
                return Err(e);
            },
        };
        let mut plan: Vec<(Vec<u8>, Option<Vec<u8>>)> = Vec::new();
        loop
            invariant
                forall|x: R| call_requires(*accept, (&x,)),
                forall|x: R| call_requires(*modify, (x,)),
                *modify == *old(modify),
                rows == self.rows(*txn),
                distinct_keys(rows),
                plan.len() <= rows.len(),
                remaining(it) == rows.skip(plan.len() as int),
                planned::<R, F, M>(rows.take(plan.len() as int), *accept, *modify, plan@),
            decreases remaining(it).len(),
        {
            let ghost at = plan.len() as int;
            let (keybytes, valbytes) = match iter_next(&mut it) {
                None => {
                    proof {
                        assert(rows.skip(at).len() == 0);
                        assert(rows.take(at) == rows);
                    }
                    return Ok(plan);
                },
                Some(Err(e)) => {
                    return Err(TableError::StoreFailure(e));
                },
                Some(Ok(kv)) => kv,
            };
            proof {
                assert(rows.skip(at).len() > 0);
                assert(rows.skip(at)[0] == rows[at]);
            }
            let change = match row_change::<R, F, M>(valbytes.as_slice(), accept, modify) {
                Ok(change) => change,
                Err(e) => {
                    proof {
                        if e is DecodingFailure {
                            assert(row_failed::<R, F, M>(*accept, *modify, rows[at], false));
                        } else {
                            assert(row_failed::<R, F, M>(*accept, *modify, rows[at], true));
                        }
                    }
                    return Err(e);
                },
            };
            let ghost noted = plan@;
            plan.push((keybytes, change));
            proof {
                assert(rows.skip(at).skip(1) == rows.skip(at + 1));
                assert forall|i: int| 0 <= i < at + 1 implies (#[trigger] plan@[i]).0@ == rows.take(
                    at + 1,
                )[i].0 && row_planned::<R, F, M>(
                    *accept,
                    *modify,
                    rows.take(at + 1)[i],
                    plan@[i].1,
                ) by {
                    if i < at {
                        assert(plan@[i] == noted[i]);
                        assert(rows.take(at)[i] == rows.take(at + 1)[i]);
                    }
                }
            }
        }
    }

    fn filter_modify_in<F: Fn(&R) -> bool, M: FnMut(R) -> R>(
        &self,
        accept: &F,
        modify: &mut M,
        txn: &mut RwTxn<'_, '_>,
    ) -> (r: Result<(), TableError>)
        requires
            forall|x: R| call_requires(*accept, (&x,)),
            forall|x: R| call_requires(*old(modify), (x,)),
            txn_env(read_view(*old(txn))) == self.env_id(),
        ensures
            *final(modify) == *old(modify),
            txn_env(read_view(*final(txn))) == self.env_id(),
            filter_modify_outcome::<R, F, M>(
                self.rows(read_view(*old(txn))),
                *accept,
                *old(modify),
                r,
                self.rows(read_view(*final(txn))),
            ),
    {
        let ghost before = self.rows(read_view(*txn));
        let plan = match self.plan_in(accept, modify, as_read(txn)) {
            Ok(plan) => plan,
            Err(e) => {
                return Err(e);
            },
        };
        let mut done: usize = 0;
        while done < plan.len()
            invariant
                *modify == *old(modify),
                before == self.rows(read_view(*old(txn))),
                planned::<R, F, M>(before, *accept, *modify, plan@),
                txn_env(read_view(*txn)) == self.env_id(),
                distinct_keys(self.rows(read_view(*txn))),
                done <= plan.len(),
                rewritten_up_to::<R, F, M>(
                    before,
                    *accept,
                    *modify,
                    done as int,
                    self.rows(read_view(*txn)),
                ),
            decreases plan.len() - done,
        {
            let ghost now = self.rows(read_view(*txn));
            let ghost at = done as int;
            proof {
                assert(now[at] == before[at]);
                assert(plan@[at].0@ == before[at].0);
                assert(row_planned::<R, F, M>(*accept, *modify, before[at], plan@[at].1));
                lemma_index_of_unique(now, at);
            }
            match &plan[done].1 {
                Some(newbytes) => {
                    match self.put_in(plan[done].0.as_slice(), newbytes.as_slice(), txn) {
                        Ok(()) => {
                            proof {
                                let then = self.rows(read_view(*txn));
                                assert(then == now.update(at, (plan@[at].0@, newbytes@)));
                                assert(row_rewritten::<R, F, M>(
                                    *accept,
                                    *modify,
                                    before[at],
                                    then[at],
                                ));
                                assert forall|i: int| 0 <= i < at + 1 implies row_rewritten::<
                                    R,
                                    F,
                                    M,
                                >(*accept, *modify, #[trigger] before[i], then[i]) by {
                                    if i < at {
                                        assert(then[i] == now[i]);
                                    }
                                }
                                assert forall|i: int|
                                    at + 1 <= i < before.len() implies #[trigger] then[i]
                                    == before[i] by {
                                    assert(then[i] == now[i]);
                                }
                            }
                        },
                        Err(e) => {
                            return Err(e);
                        },
                    }
                },
                None => {
                    proof {
                        assert(row_rewritten::<R, F, M>(*accept, *modify, before[at], now[at]));
                    }
                },
            }
            done = done + 1;
        }
        Ok(())
    }

    /// Rewrites every row whose record `accept` accepts: the record is
    /// changed with `modify`, brought into canonical form and stored under
    /// its row's key. The other rows are left as they are. The rows are
    /// first walked in key order without writing, and what is to be
    /// stored is held until the walk is over, so that a row that does not
    /// decode, or a changed record without a stored form, fails the call
    /// with nothing written.
    pub fn filter_modify<F: Fn(&R) -> bool, M: FnMut(R) -> R>(
        &self,
        accept: F,
        modify: M,
        wtxn: Option<&mut RwTxn<'_, '_>>,
    ) -> (r: Result<(), TableError>)
        requires
            forall|x: R| call_requires(accept, (&x,)),
            forall|x: R| call_requires(modify, (x,)),
            wtxn matches Some(t) ==> txn_env(read_view(*t)) == self.env_id(),
        ensures
            match wtxn {
                Some(t) => txn_env(read_view(*final(t))) == self.env_id()
                    && filter_modify_outcome::<R, F, M>(
                    self.rows(read_view(*t)),
                    accept,
                    modify,
                    r,
                    self.rows(read_view(*final(t))),
                ),
                None => r matches Err(TableError::StoreFailure(_)) || exists|
                        began: RwTxn<'_, '_>,
                        inner: Result<(), TableError>,
                        ended: RwTxn<'_, '_>,
                    |
                        txn_env(read_view(began)) == self.env_id()
                            && #[trigger] filter_modify_outcome::<R, F, M>(
                            self.rows(read_view(began)),
                            accept,
                            modify,
                            inner,
                            self.rows(read_view(ended)),
                        )
                            && committed_result(inner, r),
            },
    {
        let mut modify = modify;
        let ghost change = modify;
        match wtxn {
            Some(txn) => self.filter_modify_in(&accept, &mut modify, txn),
            None => {
                let mut txn = match self.write_txn() {
                    Ok(t) => t,
                    Err(e) => {
                        return Err(e);
                    },
                };
                let ghost began = txn;
                let inner = self.filter_modify_in(&accept, &mut modify, &mut txn);
                proof {
                    assert(filter_modify_outcome::<R, F, M>(
                        self.rows(read_view(began)),
                        accept,
                        change,
                        inner,
                        self.rows(read_view(txn)),
                    ));
                }
                finish(txn, inner)
            },
        }
    }
}

} // verus!
