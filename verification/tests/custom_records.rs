use typed_table::error::TableError;
use typed_table::record::{ByteRep, Record};
use typed_table::table::Table;

fn open_env(dir: &tempfile::TempDir) -> heed::Env {
    heed::EnvOpenOptions::new().map_size(4 * 1024 * 1024).max_dbs(8).open(dir.path()).unwrap()
}

/// An event: it cannot be made up from its id, and its length is derived
/// from its content.
#[derive(Debug, Clone, PartialEq, Eq)]
struct Event {
    id: u8,
    content: Vec<u8>,
    content_len: u8,
}

#[derive(Debug, Clone, PartialEq, Eq)]
struct EventId(u8);

impl ByteRep for EventId {
    type Model = ();

    fn to_bytes(&self) -> Result<Vec<u8>, TableError> {
        if self.0 == 255 {
            Err(TableError::EncodingFailure)
        } else {
            Ok(vec![b'e', self.0])
        }
    }

    fn from_bytes(bytes: &[u8]) -> Result<Self, TableError> {
        if bytes.len() == 2 && bytes[0] == b'e' {
            Ok(EventId(bytes[1]))
        } else {
            Err(TableError::DecodingFailure)
        }
    }

    fn lemma_round_trip(_value: ()) {}
}

impl ByteRep for Event {
    type Model = ();

    fn to_bytes(&self) -> Result<Vec<u8>, TableError> {
        if self.content.len() > 200 {
            return Err(TableError::EncodingFailure);
        }
        let mut out = vec![self.id, self.content_len];
        out.extend_from_slice(&self.content);
        Ok(out)
    }

    fn from_bytes(bytes: &[u8]) -> Result<Self, TableError> {
        if bytes.len() < 2 || bytes[1] as usize != bytes.len() - 2 {
            return Err(TableError::DecodingFailure);
        }
        Ok(Event { id: bytes[0], content: bytes[2..].to_vec(), content_len: bytes[1] })
    }

    fn lemma_round_trip(_value: ()) {}
}

impl Record for Event {
    type Key = EventId;

    fn newable() -> bool {
        false
    }

    fn new(_key: EventId) -> Self {
        panic!("an event cannot be made from its id")
    }

    fn key(&self) -> EventId {
        EventId(self.id)
    }

    fn stabilize(&mut self) {
        self.content_len = self.content.len().min(255) as u8;
    }

    fn lemma_stabilize_idempotent(_record: ()) {}
}

fn event(id: u8, content: &[u8]) -> Event {
    Event { id, content: content.to_vec(), content_len: content.len() as u8 }
}

fn events(env: &heed::Env) -> Table<Event> {
    Table::create(env, "events").unwrap()
}

#[test]
fn modify_on_a_record_type_that_is_not_newable_fails_without_writing() {
    let dir = tempfile::tempdir().unwrap();
    let env = open_env(&dir);
    let table = events(&env);
    assert!(!table.newable());
    let result = table.modify(EventId(1), |e: Event| e, None);
    assert!(matches!(result, Err(TableError::NotNewable)));
    assert_eq!(table.num_records().unwrap(), 0);
    let mut txn = table.write_txn().unwrap();
    let result = table.modify(EventId(1), |e: Event| e, Some(&mut txn));
    assert!(matches!(result, Err(TableError::NotNewable)));
    assert_eq!(table.count_records(&*txn).unwrap(), 0);
}

#[test]
fn modify_on_a_present_key_needs_no_newable_record_type() {
    let dir = tempfile::tempdir().unwrap();
    let env = open_env(&dir);
    let table = events(&env);
    table.write_record(&mut event(1, b"hello"), None).unwrap();
    table
        .modify(
            EventId(1),
            |mut e: Event| {
                e.content.truncate(2);
                e
            },
            None,
        )
        .unwrap();
    assert_eq!(table.read_record(EventId(1), None).unwrap(), Some(event(1, b"he")));
    assert_eq!(table.num_records().unwrap(), 1);
}

#[test]
fn creation_on_a_present_key_needs_no_newable_record_type() {
    let dir = tempfile::tempdir().unwrap();
    let env = open_env(&dir);
    let table = events(&env);
    table.write_record(&mut event(1, b"hello"), None).unwrap();
    table.create_record_if_missing(EventId(1), None).unwrap();
    assert_eq!(table.read_or_create_record(EventId(1), None).unwrap(), event(1, b"hello"));
    let mut txn = table.write_txn().unwrap();
    table.create_record_if_missing(EventId(1), Some(&mut txn)).unwrap();
    assert_eq!(table.read_or_create_record(EventId(1), Some(&mut txn)).unwrap(), event(1, b"hello"));
    assert_eq!(table.count_records(&*txn).unwrap(), 1);
}

#[test]
fn a_key_without_encoding_comes_before_the_newable_question() {
    let dir = tempfile::tempdir().unwrap();
    let env = open_env(&dir);
    let table = events(&env);
    assert!(matches!(
        table.modify(EventId(255), |e: Event| e, None),
        Err(TableError::EncodingFailure)
    ));
    assert!(matches!(
        table.create_record_if_missing(EventId(255), None),
        Err(TableError::EncodingFailure)
    ));
}

#[test]
fn creation_from_a_key_fails_for_a_record_type_that_is_not_newable() {
    let dir = tempfile::tempdir().unwrap();
    let env = open_env(&dir);
    let table = events(&env);
    assert!(matches!(
        table.create_record_if_missing(EventId(1), None),
        Err(TableError::NotNewable)
    ));
    assert!(matches!(table.read_or_create_record(EventId(1), None), Err(TableError::NotNewable)));
    assert_eq!(table.num_records().unwrap(), 0);
}

#[test]
fn modify_if_exists_needs_no_newable_record_type() {
    let dir = tempfile::tempdir().unwrap();
    let env = open_env(&dir);
    let table = events(&env);
    table.write_record(&mut event(1, b"hello"), None).unwrap();
    let found = table
        .modify_if_exists(
            EventId(1),
            |mut e: Event| {
                e.content.push(b'!');
                e
            },
            None,
        )
        .unwrap();
    assert!(found);
    assert_eq!(table.read_record(EventId(1), None).unwrap(), Some(event(1, b"hello!")));
    assert!(!table.modify_if_exists(EventId(2), |e: Event| e, None).unwrap());
}

#[test]
fn write_record_stabilizes_before_it_persists() {
    let dir = tempfile::tempdir().unwrap();
    let env = open_env(&dir);
    let table = events(&env);
    let mut stale = Event { id: 4, content: b"four".to_vec(), content_len: 0 };
    table.write_record(&mut stale, None).unwrap();
    assert_eq!(stale.content_len, 4);
    assert_eq!(table.read_record(EventId(4), None).unwrap(), Some(event(4, b"four")));
}

#[test]
fn round_trip_gives_the_stabilized_record() {
    let mut record = Event { id: 4, content: b"four".to_vec(), content_len: 9 };
    let mut stable = record.clone();
    stable.stabilize();
    record.stabilize();
    let back = Event::from_bytes(&record.to_bytes().unwrap()).unwrap();
    assert_eq!(back, stable);
    stable.stabilize();
    assert_eq!(back, stable);
}

#[test]
fn a_key_without_encoding_is_an_encoding_failure() {
    let dir = tempfile::tempdir().unwrap();
    let env = open_env(&dir);
    let table = events(&env);
    assert!(matches!(table.has_record(EventId(255), None), Err(TableError::EncodingFailure)));
    assert!(matches!(table.read_record(EventId(255), None), Err(TableError::EncodingFailure)));
    assert!(matches!(
        table.modify_if_exists(EventId(255), |e: Event| e, None),
        Err(TableError::EncodingFailure)
    ));
    assert!(matches!(
        table.write_record(&mut event(255, b"x"), None),
        Err(TableError::EncodingFailure)
    ));
}

#[test]
fn a_record_without_encoding_is_an_encoding_failure_and_nothing_is_written() {
    let dir = tempfile::tempdir().unwrap();
    let env = open_env(&dir);
    let table = events(&env);
    table.write_record(&mut event(1, b"short"), None).unwrap();
    let grow = |mut e: Event| {
        e.content = vec![7u8; 201];
        e
    };
    let mut txn = table.write_txn().unwrap();
    assert!(matches!(
        table.modify_if_exists(EventId(1), grow, Some(&mut txn)),
        Err(TableError::EncodingFailure)
    ));
    assert_eq!(table.read_record(EventId(1), Some(&*txn)).unwrap(), Some(event(1, b"short")));
    assert!(matches!(
        table.filter_modify(|_e: &Event| true, grow, Some(&mut txn)),
        Err(TableError::EncodingFailure)
    ));
    assert_eq!(table.read_record(EventId(1), Some(&*txn)).unwrap(), Some(event(1, b"short")));
    let mut big = Event { id: 2, content: vec![0u8; 201], content_len: 0 };
    assert!(matches!(table.write_record(&mut big, Some(&mut txn)), Err(TableError::EncodingFailure)));
    assert_eq!(table.count_records(&*txn).unwrap(), 1);
}

#[test]
fn filter_modify_restabilizes_what_it_rewrites() {
    let dir = tempfile::tempdir().unwrap();
    let env = open_env(&dir);
    let table = events(&env);
    table.write_record(&mut event(1, b"ab"), None).unwrap();
    table.write_record(&mut event(2, b"abcd"), None).unwrap();
    table.write_record(&mut event(3, b"abcdef"), None).unwrap();
    table
        .filter_modify(
            |e: &Event| e.content.len() >= 4,
            |mut e: Event| {
                e.content.truncate(1);
                e
            },
            None,
        )
        .unwrap();
    let all = table.filter_records(|_e: &Event| true, None).unwrap();
    assert_eq!(all, vec![event(1, b"ab"), event(2, b"a"), event(3, b"a")]);
}
