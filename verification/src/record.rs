//! What a value must offer to be stored in a table.
//!
//! Contracts speak of a value through its model, the mathematical value it
//! stands for, so that two values with the same content are the same to
//! them wherever they live in memory.

use vstd::prelude::*;

use crate::error::TableError;

verus! {

/// A value with a byte representation.
///
/// The spec functions say what the representation is. Their bodies here
/// leave it unspecified; a verified implementation gives its own.
pub trait ByteRep: Sized {
    /// The mathematical value that a value of this type stands for.
    type Model;

    /// The mathematical value that this value stands for.
    open spec fn model(&self) -> Self::Model {
        arbitrary()
    }

    /// The bytes a value is written as, or `None` where it has none.
    open spec fn encoding(value: Self::Model) -> Option<Seq<u8>> {
        arbitrary()
    }

    /// The value that `bytes` stand for, or `None` where they stand for none.
    open spec fn decoding(bytes: Seq<u8>) -> Option<Self::Model> {
        arbitrary()
    }

    /// Serializes the value; fails exactly where it has no encoding.
    fn to_bytes(&self) -> (r: Result<Vec<u8>, TableError>)
        ensures
            match r {
                Ok(bytes) => Self::encoding(self.model()) == Some(bytes@),
                Err(e) => Self::encoding(self.model()) is None && e is EncodingFailure,
            },
    ;

    /// Deserializes a value; fails exactly where the bytes stand for none.
    fn from_bytes(bytes: &[u8]) -> (r: Result<Self, TableError>)
        ensures
            match r {
                Ok(value) => Self::decoding(bytes@) == Some(value.model()),
                Err(e) => Self::decoding(bytes@) is None && e is DecodingFailure,
            },
    ;

    /// The law of the representation: decoding what was encoded gives the
    /// value back.
    proof fn lemma_round_trip(value: Self::Model)
        ensures
            Self::encoding(value) matches Some(bytes) ==> Self::decoding(bytes) == Some(value),
    ;
}

/// A storable entity: it knows its key, can be brought into its canonical
/// form before it is persisted, and may be constructible from a key alone.
///
/// The spec functions say what the methods compute. Their bodies here leave
/// that unspecified; a verified implementation gives its own.
pub trait Record: ByteRep {
    /// The type that identifies a record within its table.
    type Key: ByteRep;

    /// The key of a record.
    open spec fn key_of(record: Self::Model) -> <Self::Key as ByteRep>::Model {
        arbitrary()
    }

    /// The canonical form of a record, the one that is persisted.
    open spec fn stabilized(record: Self::Model) -> Self::Model {
        arbitrary()
    }

    /// Whether a record of this type can be built from its key alone.
    open spec fn newable_spec() -> bool {
        arbitrary()
    }

    /// `record` is one that `new` may return for `key`. It is a relation
    /// because a default may hold the time at which it was made.
    open spec fn is_new(key: <Self::Key as ByteRep>::Model, record: Self::Model) -> bool {
        arbitrary()
    }

    /// Whether a record of this type can be built from its key alone.
    fn newable() -> (b: bool)
        ensures
            b == Self::newable_spec(),
    ;

    /// Builds the default record for `key`.
    fn new(key: Self::Key) -> (record: Self)
        requires
            Self::newable_spec(),
        ensures
            Self::is_new(key.model(), record.model()),
    ;

    /// Extracts the key.
    fn key(&self) -> (k: Self::Key)
        ensures
            k.model() == Self::key_of(self.model()),
    ;

    /// Brings the record into its canonical form.
    fn stabilize(&mut self)
        ensures
            final(self).model() == Self::stabilized(old(self).model()),
    ;

    /// The law of the canonical form: stabilizing twice is the same as
    /// stabilizing once.
    proof fn lemma_stabilize_idempotent(record: Self::Model)
        ensures
            Self::stabilized(Self::stabilized(record)) == Self::stabilized(record),
    ;
}

/// The bytes of a key, or `None` where it has none.
pub open spec fn key_bytes<R: Record>(key: <R::Key as ByteRep>::Model) -> Option<Seq<u8>> {
    <R::Key as ByteRep>::encoding(key)
}

/// The bytes under which a record is persisted: the encoding of its
/// canonical form.
pub open spec fn stored_form<R: Record>(record: R::Model) -> Option<Seq<u8>> {
    R::encoding(R::stabilized(record))
}

/// Decoding what was encoded gives the value back, for every value of `T`.
pub open spec fn round_trips<T: ByteRep>() -> bool {
    forall|value: T::Model| #[trigger]
        T::encoding(value) matches Some(bytes) ==> T::decoding(bytes) == Some(value)
}

/// Stabilizing twice is the same as stabilizing once, for every record of
/// type `R`.
pub open spec fn stabilize_is_idempotent<R: Record>() -> bool {
    forall|record: R::Model| #[trigger]
        R::stabilized(R::stabilized(record)) == R::stabilized(record)
}

/// The laws hold of every value of a record type.
pub proof fn lemma_record_is_lawful<R: Record>()
    ensures
        round_trips::<R>(),
        round_trips::<R::Key>(),
        stabilize_is_idempotent::<R>(),
{
    assert forall|value: R::Model| #[trigger]
        R::encoding(value) matches Some(bytes) ==> R::decoding(bytes) == Some(value) by {
        R::lemma_round_trip(value);
    }
    assert forall|value: <R::Key as ByteRep>::Model| #[trigger]
        <R::Key as ByteRep>::encoding(value) matches Some(bytes) ==> <R::Key as ByteRep>::decoding(
            bytes,
        ) == Some(value) by {
        <R::Key as ByteRep>::lemma_round_trip(value);
    }
    assert forall|record: R::Model| #[trigger]
        R::stabilized(R::stabilized(record)) == R::stabilized(record) by {
        R::lemma_stabilize_idempotent(record);
    }
}

/// For a record in canonical form, decoding its encoding gives its
/// canonical form.
pub proof fn lemma_round_trip_is_stabilized<R: Record>(record: R::Model)
    requires
        record == R::stabilized(record),
    ensures
        R::encoding(record) matches Some(bytes) ==> R::decoding(bytes) == Some(
            R::stabilized(record),
        ),
{
    R::lemma_round_trip(record);
}

/// Whatever is persisted for a record decodes to the canonical form of
/// that record, and persisting the decoded record again gives the same
/// bytes.
pub proof fn lemma_stored_form_round_trip<R: Record>(record: R::Model)
    ensures
        stored_form::<R>(record) matches Some(bytes) ==> R::decoding(bytes) == Some(
            R::stabilized(record),
        ) && stored_form::<R>(R::stabilized(record)) == Some(bytes),
{
    R::lemma_round_trip(R::stabilized(record));
    R::lemma_stabilize_idempotent(record);
}

} // verus!
