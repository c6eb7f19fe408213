//! The metadata of a person list, stored under the list's tag.

use vstd::bytes::*;
use vstd::prelude::*;

use crate::clock::{seconds_of, unixtime_now};
use crate::codec::{
    flag_bytes, lemma_read_flag, lemma_read_text, lemma_read_u64, lemma_signed_unsigned,
    put_flag, put_text, put_u64, read_flag, read_text, read_u64, signed, take_flag, take_text,
    take_u64, text_bytes, to_signed, to_unsigned, unsigned,
};
use crate::error::TableError;
use crate::record::{ByteRep, Record};

verus! {

/// The metadata of a person list.
#[derive(Debug, Clone, PartialEq, Eq)]
pub struct PersonListMetadata1 {
    /// The tag that names the list.
    pub dtag: String,
    /// The title shown for the list.
    pub title: String,
    /// When the list was last edited, in seconds since the Unix epoch.
    pub last_edit_time: i64,
    /// When the event that carries the list was created, in seconds since
    /// the Unix epoch.
    pub event_created_at: i64,
    /// How many public entries the event holds.
    pub event_public_len: usize,
    /// How many private entries the event holds, where that is known.
    pub event_private_len: Option<usize>,
}

/// The mathematical value of a `PersonListMetadata1`.
pub struct ListMetadata {
    pub dtag: Seq<char>,
    pub title: Seq<char>,
    pub last_edit_time: i64,
    pub event_created_at: i64,
    pub event_public_len: usize,
    pub event_private_len: Option<usize>,
}

/// The bytes of an optional count: a flag, then the count if there is one.
pub open spec fn count_bytes(count: Option<usize>) -> Seq<u8> {
    match count {
        Some(n) => flag_bytes(true) + spec_u64_to_le_bytes(n as u64),
        None => flag_bytes(false),
    }
}

/// The optional count at `at`, and the position after it.
pub open spec fn read_count(bytes: Seq<u8>, at: int) -> Option<(Option<usize>, int)> {
    match read_flag(bytes, at) {
        Some((true, next)) => match read_u64(bytes, next) {
            Some((n, end)) => if n <= usize::MAX {
                Some((Some(n as usize), end))
            } else {
                None
            },
            None => None,
        },
        Some((false, next)) => Some((None, next)),
        None => None,
    }
}

/// The bytes of the fields that follow the two texts.
pub open spec fn numbers_bytes(value: ListMetadata) -> Seq<u8> {
    spec_u64_to_le_bytes(unsigned(value.last_edit_time)) + spec_u64_to_le_bytes(
        unsigned(value.event_created_at),
    ) + spec_u64_to_le_bytes(value.event_public_len as u64) + count_bytes(
        value.event_private_len,
    )
}

/// The bytes of a list's metadata: the fields in their order, texts led by
/// their length, numbers as eight little-endian bytes.
pub open spec fn metadata_bytes(value: ListMetadata) -> Option<Seq<u8>> {
    match (text_bytes(value.dtag), text_bytes(value.title)) {
        (Some(dtag), Some(title)) => Some(dtag + title + numbers_bytes(value)),
        _ => None,
    }
}

/// The metadata that `bytes` stand for: every field must be there; what
/// follows the last one is not looked at.
pub open spec fn metadata_of(bytes: Seq<u8>) -> Option<ListMetadata> {
    match read_text(bytes, 0) {
        Some((dtag, at_title)) => match read_text(bytes, at_title) {
            Some((title, at_edited)) => match read_u64(bytes, at_edited) {
                Some((edited, at_created)) => match read_u64(bytes, at_created) {
                    Some((created, at_public)) => match read_u64(bytes, at_public) {
                        Some((public, at_private)) => match read_count(bytes, at_private) {
                            Some((private, _end)) => if public <= usize::MAX {
                                Some(
                                    ListMetadata {
                                        dtag,
                                        title,
                                        last_edit_time: signed(edited),
                                        event_created_at: signed(created),
                                        event_public_len: public as usize,
                                        event_private_len: private,
                                    },
                                )
                            } else {
                                None
                            },
                            None => None,
                        },
                        None => None,
                    },
                    None => None,
                },
                None => None,
            },
            None => None,
        },
        None => None,
    }
}

/// A list's metadata is read back from its bytes as it was written.
pub proof fn lemma_metadata_round_trip(value: ListMetadata)
    ensures
        metadata_bytes(value) matches Some(bytes) ==> metadata_of(bytes) == Some(value),
{
    if metadata_bytes(value) is Some {
        let all = metadata_bytes(value)->0;
        let dtag = text_bytes(value.dtag)->0;
        let title = text_bytes(value.title)->0;
        let edited = spec_u64_to_le_bytes(unsigned(value.last_edit_time));
        let created = spec_u64_to_le_bytes(unsigned(value.event_created_at));
        let public = spec_u64_to_le_bytes(value.event_public_len as u64);
        let private = count_bytes(value.event_private_len);
        let none = Seq::<u8>::empty();
        lemma_auto_spec_u64_to_from_le_bytes();

        assert(all == none + dtag + (title + edited + created + public + private));
        lemma_read_text(none, value.dtag, title + edited + created + public + private);
        let at_title = dtag.len() as int;

        assert(all == dtag + title + (edited + created + public + private));
        lemma_read_text(dtag, value.title, edited + created + public + private);
        let at_edited = at_title + title.len();

        assert(all == (dtag + title) + edited + (created + public + private));
        lemma_read_u64(dtag + title, unsigned(value.last_edit_time), created + public + private);
        let at_created = at_edited + 8;

        assert(all == (dtag + title + edited) + created + (public + private));
        lemma_read_u64(dtag + title + edited, unsigned(value.event_created_at), public + private);
        let at_public = at_created + 8;

        assert(all == (dtag + title + edited + created) + public + private);
        lemma_read_u64(dtag + title + edited + created, value.event_public_len as u64, private);
        let at_private = at_public + 8;

        let head = dtag + title + edited + created + public;
        assert(head.len() == at_private);
        match value.event_private_len {
            Some(n) => {
                let number = spec_u64_to_le_bytes(n as u64);
                assert(all == head + flag_bytes(true) + number);
                lemma_read_flag(head, true, number);
                assert(all == (head + flag_bytes(true)) + number + none);
                lemma_read_u64(head + flag_bytes(true), n as u64, none);
                assert(read_count(all, at_private) == Some((Some(n), all.len() as int)));
            },
            None => {
                assert(all == head + flag_bytes(false) + none);
                lemma_read_flag(head, false, none);
                assert(read_count(all, at_private) == Some((None::<usize>, all.len() as int)));
            },
        }
        lemma_signed_unsigned(value.last_edit_time);
        lemma_signed_unsigned(value.event_created_at);
        assert(read_text(all, 0) == Some((value.dtag, at_title)));
        assert(read_text(all, at_title) == Some((value.title, at_edited)));
        assert(read_u64(all, at_edited) == Some((unsigned(value.last_edit_time), at_created)));
        assert(read_u64(all, at_created) == Some((unsigned(value.event_created_at), at_public)));
        assert(read_u64(all, at_public) == Some((value.event_public_len as u64, at_private)));
    }
}

impl PersonListMetadata1 {
    /// The metadata of an untitled list with the tag `dtag`, last edited at
    /// `now`, whose event is not known yet.
    pub fn with_tag(dtag: String, now: i64) -> (r: Self)
        ensures
            r.model() == (ListMetadata {
                dtag: dtag@,
                title: Seq::empty(),
                last_edit_time: now,
                event_created_at: 0,
                event_public_len: 0,
                event_private_len: None,
            }),
    {
        PersonListMetadata1 {
            dtag,
            title: String::new(),
            last_edit_time: now,
            event_created_at: 0,
            event_public_len: 0,
            event_private_len: None,
        }
    }

    /// The present time as the clock gives it, or 0 where the clock stands
    /// before the Unix epoch.
    fn now() -> i64 {
        seconds_of(unixtime_now())
    }
}

impl Default for PersonListMetadata1 {
    /// The metadata of an untitled list without a tag, last edited now.
    fn default() -> (r: Self)
        ensures
            <PersonListMetadata1 as Record>::is_new(Seq::empty(), r.model()),
    {
        PersonListMetadata1::with_tag(String::new(), PersonListMetadata1::now())
    }
}

impl ByteRep for PersonListMetadata1 {
    type Model = ListMetadata;

    open spec fn model(&self) -> ListMetadata {
        ListMetadata {
            dtag: self.dtag@,
            title: self.title@,
            last_edit_time: self.last_edit_time,
            event_created_at: self.event_created_at,
            event_public_len: self.event_public_len,
            event_private_len: self.event_private_len,
        }
    }

    open spec fn encoding(value: ListMetadata) -> Option<Seq<u8>> {
        metadata_bytes(value)
    }

    open spec fn decoding(bytes: Seq<u8>) -> Option<ListMetadata> {
        metadata_of(bytes)
    }

    fn to_bytes(&self) -> (r: Result<Vec<u8>, TableError>) {
        let mut out: Vec<u8> = Vec::new();
        if !put_text(&mut out, self.dtag.as_str()) {
            return Err(TableError::EncodingFailure);
        }
        if !put_text(&mut out, self.title.as_str()) {
            return Err(TableError::EncodingFailure);
        }
        put_u64(&mut out, to_unsigned(self.last_edit_time));
        put_u64(&mut out, to_unsigned(self.event_created_at));
        put_u64(&mut out, self.event_public_len as u64);
        match self.event_private_len {
            Some(n) => {
                put_flag(&mut out, true);
                put_u64(&mut out, n as u64);
            },
            None => {
                put_flag(&mut out, false);
            },
        }
        proof {
            let value = self.model();
            let dtag = text_bytes(value.dtag)->0;
            let title = text_bytes(value.title)->0;
            assert(out@ == dtag + title + numbers_bytes(value));
        }
        Ok(out)
    }

    fn from_bytes(bytes: &[u8]) -> (r: Result<Self, TableError>) {
        let (dtag, at_title) = match take_text(bytes, 0) {
            Some(step) => step,
            None => {
                return Err(TableError::DecodingFailure);
            },
        };
        let (title, at_edited) = match take_text(bytes, at_title) {
            Some(step) => step,
            None => {
                return Err(TableError::DecodingFailure);
            },
        };
        let (edited, at_created) = match take_u64(bytes, at_edited) {
            Some(step) => step,
            None => {
                return Err(TableError::DecodingFailure);
            },
        };
        let (created, at_public) = match take_u64(bytes, at_created) {
            Some(step) => step,
            None => {
                return Err(TableError::DecodingFailure);
            },
        };
        let (public, at_private) = match take_u64(bytes, at_public) {
            Some(step) => step,
            None => {
                return Err(TableError::DecodingFailure);
            },
        };
        let (flag, at_count) = match take_flag(bytes, at_private) {
            Some(step) => step,
            None => {
                return Err(TableError::DecodingFailure);
            },
        };
        let private = if flag {
            match take_u64(bytes, at_count) {
                Some((n, _end)) => {
                    if n > usize::MAX as u64 {
                        return Err(TableError::DecodingFailure);
                    }
                    Some(n as usize)
                },
                None => {
                    return Err(TableError::DecodingFailure);
                },
            }
        } else {
            None
        };
        if public > usize::MAX as u64 {
            return Err(TableError::DecodingFailure);
        }
        Ok(
            PersonListMetadata1 {
                dtag,
                title,
                last_edit_time: to_signed(edited),
                event_created_at: to_signed(created),
                event_public_len: public as usize,
                event_private_len: private,
            },
        )
    }

    proof fn lemma_round_trip(value: ListMetadata) {
        lemma_metadata_round_trip(value);
    }
}

impl Record for PersonListMetadata1 {
    type Key = String;

    open spec fn key_of(record: ListMetadata) -> Seq<char> {
        record.dtag
    }

    open spec fn stabilized(record: ListMetadata) -> ListMetadata {
        record
    }

    open spec fn newable_spec() -> bool {
        true
    }

    open spec fn is_new(key: Seq<char>, record: ListMetadata) -> bool {
        record == (ListMetadata {
            dtag: key,
            title: Seq::empty(),
            last_edit_time: record.last_edit_time,
            event_created_at: 0,
            event_public_len: 0,
            event_private_len: None,
        })
    }

    fn newable() -> (b: bool) {
        true
    }

    fn new(key: String) -> (record: Self) {
        PersonListMetadata1::with_tag(key, PersonListMetadata1::now())
    }

    fn key(&self) -> (k: String) {
        self.dtag.clone()
    }

    fn stabilize(&mut self) {
    }

    proof fn lemma_stabilize_idempotent(record: ListMetadata) {
    }
}

} // verus!
