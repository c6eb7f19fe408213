use typed_table::error::TableError;
use typed_table::person_list_metadata1::PersonListMetadata1;
use typed_table::record::{ByteRep, Record};
use typed_table::table::Table;

fn open_env(dir: &tempfile::TempDir) -> heed::Env {
    heed::EnvOpenOptions::new().map_size(4 * 1024 * 1024).max_dbs(8).open(dir.path()).unwrap()
}

fn lists(env: &heed::Env) -> Table<PersonListMetadata1> {
    Table::create(env, "person_lists_metadata").unwrap()
}

fn list(tag: &str, title: &str) -> PersonListMetadata1 {
    PersonListMetadata1 {
        dtag: tag.to_owned(),
        title: title.to_owned(),
        last_edit_time: 1_700_000_000,
        event_created_at: 1_600_000_000,
        event_public_len: 3,
        event_private_len: Some(2),
    }
}

fn retitle(mut record: PersonListMetadata1) -> PersonListMetadata1 {
    record.title = format!("{}!", record.title);
    record
}

#[test]
fn create_binds_the_named_partition() {
    let dir = tempfile::tempdir().unwrap();
    let env = open_env(&dir);
    let table = lists(&env);
    assert_eq!(table.lmdb_name(), "person_lists_metadata");
    assert!(table.newable());
    assert_eq!(table.num_records().unwrap(), 0);
}

#[test]
fn two_tables_of_one_environment_do_not_share_rows() {
    let dir = tempfile::tempdir().unwrap();
    let env = open_env(&dir);
    let first: Table<PersonListMetadata1> = Table::create(&env, "first").unwrap();
    let second: Table<PersonListMetadata1> = Table::create(&env, "second").unwrap();
    first.write_record(&mut list("a", "x"), None).unwrap();
    assert_eq!(first.num_records().unwrap(), 1);
    assert_eq!(second.num_records().unwrap(), 0);
    assert!(!second.has_record("a".to_owned(), None).unwrap());
}

#[test]
fn write_record_then_read_record_gives_the_record() {
    let dir = tempfile::tempdir().unwrap();
    let env = open_env(&dir);
    let table = lists(&env);
    let mut record = list("work", "Colleagues");
    let mut txn = table.write_txn().unwrap();
    table.write_record(&mut record, Some(&mut txn)).unwrap();
    txn.commit().unwrap();
    let rtxn = table.read_txn().unwrap();
    let back = table.read_record("work".to_owned(), Some(&rtxn)).unwrap();
    assert_eq!(back, Some(list("work", "Colleagues")));
    assert_eq!(table.read_record("home".to_owned(), Some(&rtxn)).unwrap(), None);
}

#[test]
fn write_record_overwrites_the_prior_value() {
    let dir = tempfile::tempdir().unwrap();
    let env = open_env(&dir);
    let table = lists(&env);
    table.write_record(&mut list("work", "old"), None).unwrap();
    table.write_record(&mut list("work", "new"), None).unwrap();
    assert_eq!(table.num_records().unwrap(), 1);
    assert_eq!(table.read_record("work".to_owned(), None).unwrap().unwrap().title, "new");
}

#[test]
fn write_record_without_transaction_commits() {
    let dir = tempfile::tempdir().unwrap();
    let env = open_env(&dir);
    let table = lists(&env);
    table.write_record(&mut list("work", "Colleagues"), None).unwrap();
    let rtxn = env.read_txn().unwrap();
    assert!(table.has_record("work".to_owned(), Some(&rtxn)).unwrap());
    assert_eq!(table.count_records(&rtxn).unwrap(), 1);
}

#[test]
fn write_record_with_transaction_leaves_commit_to_caller() {
    let dir = tempfile::tempdir().unwrap();
    let env = open_env(&dir);
    let table = lists(&env);
    {
        let mut txn = table.write_txn().unwrap();
        table.write_record(&mut list("work", "Colleagues"), Some(&mut txn)).unwrap();
        assert!(table.read_record("work".to_owned(), Some(&*txn)).unwrap().is_some());
    }
    assert!(!table.has_record("work".to_owned(), None).unwrap());
}

#[test]
fn has_record_tells_presence() {
    let dir = tempfile::tempdir().unwrap();
    let env = open_env(&dir);
    let table = lists(&env);
    table.write_record(&mut list("work", "Colleagues"), None).unwrap();
    assert!(table.has_record("work".to_owned(), None).unwrap());
    assert!(!table.has_record("wor".to_owned(), None).unwrap());
    assert!(!table.has_record("works".to_owned(), None).unwrap());
}

#[test]
fn num_records_counts_rows() {
    let dir = tempfile::tempdir().unwrap();
    let env = open_env(&dir);
    let table = lists(&env);
    for tag in ["a", "b", "c"] {
        table.write_record(&mut list(tag, "t"), None).unwrap();
    }
    assert_eq!(table.num_records().unwrap(), 3);
}

#[test]
fn create_record_if_missing_is_idempotent() {
    let dir = tempfile::tempdir().unwrap();
    let env = open_env(&dir);
    let table = lists(&env);
    table.create_record_if_missing("work".to_owned(), None).unwrap();
    let once = table.read_record("work".to_owned(), None).unwrap().unwrap();
    assert_eq!(once.dtag, "work");
    assert_eq!(once.title, "");
    assert_eq!(once.event_created_at, 0);
    assert_eq!(once.event_public_len, 0);
    assert_eq!(once.event_private_len, None);
    table.create_record_if_missing("work".to_owned(), None).unwrap();
    let twice = table.read_record("work".to_owned(), None).unwrap().unwrap();
    assert_eq!(twice, once);
    assert_eq!(table.num_records().unwrap(), 1);
}

#[test]
fn create_record_if_missing_keeps_a_present_record() {
    let dir = tempfile::tempdir().unwrap();
    let env = open_env(&dir);
    let table = lists(&env);
    table.write_record(&mut list("work", "Colleagues"), None).unwrap();
    table.create_record_if_missing("work".to_owned(), None).unwrap();
    assert_eq!(
        table.read_record("work".to_owned(), None).unwrap(),
        Some(list("work", "Colleagues"))
    );
}

#[test]
fn read_or_create_record_creates_once_then_reads() {
    let dir = tempfile::tempdir().unwrap();
    let env = open_env(&dir);
    let table = lists(&env);
    let created = table.read_or_create_record("work".to_owned(), None).unwrap();
    assert_eq!(created.dtag, "work");
    assert_eq!(created.event_public_len, 0);
    assert_eq!(table.num_records().unwrap(), 1);
    assert_eq!(table.read_record("work".to_owned(), None).unwrap(), Some(created.clone()));
    let again = table.read_or_create_record("work".to_owned(), None).unwrap();
    assert_eq!(again, created);
    assert_eq!(table.num_records().unwrap(), 1);
}

#[test]
fn read_or_create_record_reads_a_present_record() {
    let dir = tempfile::tempdir().unwrap();
    let env = open_env(&dir);
    let table = lists(&env);
    table.write_record(&mut list("work", "Colleagues"), None).unwrap();
    let mut txn = table.write_txn().unwrap();
    let got = table.read_or_create_record("work".to_owned(), Some(&mut txn)).unwrap();
    assert_eq!(got, list("work", "Colleagues"));
}

#[test]
fn new_record_is_stamped_by_the_clock() {
    let record = PersonListMetadata1::new("work".to_owned());
    assert!(record.last_edit_time > 1_600_000_000);
    let plain = PersonListMetadata1::default();
    assert_eq!(plain.dtag, "");
    assert_eq!(plain.title, "");
    assert_eq!(plain.event_created_at, 0);
    assert_eq!(plain.event_public_len, 0);
    assert_eq!(plain.event_private_len, None);
    assert!(plain.last_edit_time > 1_600_000_000);
}

#[test]
fn filter_records_returns_matches_in_key_order() {
    let dir = tempfile::tempdir().unwrap();
    let env = open_env(&dir);
    let table = lists(&env);
    table.write_record(&mut list("b", "x"), None).unwrap();
    table.write_record(&mut list("a", "x"), None).unwrap();
    let found = table.filter_records(|r: &PersonListMetadata1| r.title == "x", None).unwrap();
    assert_eq!(found, vec![list("a", "x"), list("b", "x")]);
}

#[test]
fn filter_records_leaves_out_what_the_predicate_rejects() {
    let dir = tempfile::tempdir().unwrap();
    let env = open_env(&dir);
    let table = lists(&env);
    table.write_record(&mut list("a", "x"), None).unwrap();
    table.write_record(&mut list("b", "y"), None).unwrap();
    table.write_record(&mut list("c", "x"), None).unwrap();
    let rtxn = table.read_txn().unwrap();
    let found =
        table.filter_records(|r: &PersonListMetadata1| r.title == "x", Some(&rtxn)).unwrap();
    assert_eq!(found, vec![list("a", "x"), list("c", "x")]);
    let none = table.filter_records(|_r: &PersonListMetadata1| false, Some(&rtxn)).unwrap();
    assert!(none.is_empty());
}

#[test]
fn filter_records_on_an_empty_table_is_empty() {
    let dir = tempfile::tempdir().unwrap();
    let env = open_env(&dir);
    let table = lists(&env);
    assert!(table.filter_records(|_r: &PersonListMetadata1| true, None).unwrap().is_empty());
}

#[test]
fn modify_if_exists_on_absent_key_changes_nothing() {
    let dir = tempfile::tempdir().unwrap();
    let env = open_env(&dir);
    let table = lists(&env);
    table.write_record(&mut list("a", "x"), None).unwrap();
    let found = table.modify_if_exists("b".to_owned(), retitle, None).unwrap();
    assert!(!found);
    assert_eq!(table.num_records().unwrap(), 1);
    assert_eq!(table.read_record("a".to_owned(), None).unwrap(), Some(list("a", "x")));
    assert_eq!(table.read_record("b".to_owned(), None).unwrap(), None);
}

#[test]
fn modify_if_exists_rewrites_a_present_record() {
    let dir = tempfile::tempdir().unwrap();
    let env = open_env(&dir);
    let table = lists(&env);
    table.write_record(&mut list("a", "x"), None).unwrap();
    table.write_record(&mut list("b", "y"), None).unwrap();
    let found = table.modify_if_exists("a".to_owned(), retitle, None).unwrap();
    assert!(found);
    assert_eq!(table.read_record("a".to_owned(), None).unwrap(), Some(list("a", "x!")));
    assert_eq!(table.read_record("b".to_owned(), None).unwrap(), Some(list("b", "y")));
    assert_eq!(table.num_records().unwrap(), 2);
}

#[test]
fn modify_on_absent_key_adds_the_changed_default() {
    let dir = tempfile::tempdir().unwrap();
    let env = open_env(&dir);
    let table = lists(&env);
    table.write_record(&mut list("a", "x"), None).unwrap();
    table
        .modify(
            "b".to_owned(),
            |mut r: PersonListMetadata1| {
                r.title = "made".to_owned();
                r.last_edit_time = 5;
                r
            },
            None,
        )
        .unwrap();
    assert_eq!(table.num_records().unwrap(), 2);
    let expected = PersonListMetadata1 {
        dtag: "b".to_owned(),
        title: "made".to_owned(),
        last_edit_time: 5,
        event_created_at: 0,
        event_public_len: 0,
        event_private_len: None,
    };
    assert_eq!(table.read_record("b".to_owned(), None).unwrap(), Some(expected));
    assert_eq!(table.read_record("a".to_owned(), None).unwrap(), Some(list("a", "x")));
}

#[test]
fn modify_on_present_key_starts_from_the_stored_record() {
    let dir = tempfile::tempdir().unwrap();
    let env = open_env(&dir);
    let table = lists(&env);
    table.write_record(&mut list("a", "x"), None).unwrap();
    table.modify("a".to_owned(), retitle, None).unwrap();
    assert_eq!(table.read_record("a".to_owned(), None).unwrap(), Some(list("a", "x!")));
    assert_eq!(table.num_records().unwrap(), 1);
}

#[test]
fn filter_modify_rewrites_exactly_the_accepted_rows() {
    let dir = tempfile::tempdir().unwrap();
    let env = open_env(&dir);
    let table = lists(&env);
    for (tag, title) in [("a", "x"), ("b", "y"), ("c", "x"), ("d", "z"), ("e", "x")] {
        table.write_record(&mut list(tag, title), None).unwrap();
    }
    let raw = table.db();
    let before: Vec<(Vec<u8>, Vec<u8>)> = {
        let rtxn = env.read_txn().unwrap();
        raw.iter(&rtxn).unwrap().map(|kv| kv.unwrap()).map(|(k, v)| (k.to_vec(), v.to_vec())).collect()
    };
    table.filter_modify(|r: &PersonListMetadata1| r.title == "x", retitle, None).unwrap();
    let after: Vec<(Vec<u8>, Vec<u8>)> = {
        let rtxn = env.read_txn().unwrap();
        raw.iter(&rtxn).unwrap().map(|kv| kv.unwrap()).map(|(k, v)| (k.to_vec(), v.to_vec())).collect()
    };
    assert_eq!(after.len(), 5);
    for i in 0..5 {
        assert_eq!(after[i].0, before[i].0);
    }
    assert_eq!(after[1], before[1]);
    assert_eq!(after[3], before[3]);
    assert_eq!(after[0].1, list("a", "x!").to_bytes().unwrap());
    assert_eq!(after[2].1, list("c", "x!").to_bytes().unwrap());
    assert_eq!(after[4].1, list("e", "x!").to_bytes().unwrap());
}

#[test]
fn filter_modify_in_a_transaction_is_staged_until_commit() {
    let dir = tempfile::tempdir().unwrap();
    let env = open_env(&dir);
    let table = lists(&env);
    table.write_record(&mut list("a", "x"), None).unwrap();
    table.write_record(&mut list("b", "x"), None).unwrap();
    {
        let mut txn = table.write_txn().unwrap();
        table.filter_modify(|_r: &PersonListMetadata1| true, retitle, Some(&mut txn)).unwrap();
        assert_eq!(
            table.read_record("b".to_owned(), Some(&*txn)).unwrap(),
            Some(list("b", "x!"))
        );
        txn.commit().unwrap();
    }
    assert_eq!(table.read_record("a".to_owned(), None).unwrap(), Some(list("a", "x!")));
    assert_eq!(table.read_record("b".to_owned(), None).unwrap(), Some(list("b", "x!")));
}

#[test]
fn filter_modify_on_an_empty_table_does_nothing() {
    let dir = tempfile::tempdir().unwrap();
    let env = open_env(&dir);
    let table = lists(&env);
    table.filter_modify(|_r: &PersonListMetadata1| true, retitle, None).unwrap();
    assert_eq!(table.num_records().unwrap(), 0);
}

#[test]
fn aborted_transaction_leaves_no_trace() {
    let dir = tempfile::tempdir().unwrap();
    let env = open_env(&dir);
    let table = lists(&env);
    {
        let mut txn = table.write_txn().unwrap();
        table.write_record(&mut list("a", "x"), Some(&mut txn)).unwrap();
        table.modify("b".to_owned(), retitle, Some(&mut txn)).unwrap();
        assert_eq!(table.count_records(&*txn).unwrap(), 2);
    }
    let rtxn = table.read_txn().unwrap();
    assert_eq!(table.read_record("a".to_owned(), Some(&rtxn)).unwrap(), None);
    assert_eq!(table.read_record("b".to_owned(), Some(&rtxn)).unwrap(), None);
    assert_eq!(table.count_records(&rtxn).unwrap(), 0);
}

#[test]
fn several_operations_compose_in_one_transaction() {
    let dir = tempfile::tempdir().unwrap();
    let env = open_env(&dir);
    let table = lists(&env);
    let mut txn = table.write_txn().unwrap();
    table.write_record(&mut list("a", "x"), Some(&mut txn)).unwrap();
    table.create_record_if_missing("b".to_owned(), Some(&mut txn)).unwrap();
    assert!(table.modify_if_exists("a".to_owned(), retitle, Some(&mut txn)).unwrap());
    txn.commit().unwrap();
    assert_eq!(table.num_records().unwrap(), 2);
    assert_eq!(table.read_record("a".to_owned(), None).unwrap(), Some(list("a", "x!")));
}

#[test]
fn read_record_fails_on_bytes_that_do_not_decode() {
    let dir = tempfile::tempdir().unwrap();
    let env = open_env(&dir);
    let table = lists(&env);
    let raw = table.db();
    let mut txn = env.write_txn().unwrap();
    raw.put(&mut txn, &b"bad"[..], &[1u8, 2, 3][..]).unwrap();
    txn.commit().unwrap();
    assert!(table.has_record("bad".to_owned(), None).unwrap());
    assert!(matches!(
        table.read_record("bad".to_owned(), None),
        Err(TableError::DecodingFailure)
    ));
    assert!(matches!(
        table.filter_records(|_r: &PersonListMetadata1| true, None),
        Err(TableError::DecodingFailure)
    ));
    assert!(matches!(
        table.modify_if_exists("bad".to_owned(), retitle, None),
        Err(TableError::DecodingFailure)
    ));
    assert!(matches!(
        table.modify("bad".to_owned(), retitle, None),
        Err(TableError::DecodingFailure)
    ));
    assert!(matches!(
        table.read_or_create_record("bad".to_owned(), None),
        Err(TableError::DecodingFailure)
    ));
}

#[test]
fn failed_filter_modify_in_its_own_transaction_commits_nothing() {
    let dir = tempfile::tempdir().unwrap();
    let env = open_env(&dir);
    let table = lists(&env);
    table.write_record(&mut list("a", "x"), None).unwrap();
    let raw = table.db();
    let mut txn = env.write_txn().unwrap();
    raw.put(&mut txn, &b"b"[..], &[9u8][..]).unwrap();
    txn.commit().unwrap();
    let result = table.filter_modify(|_r: &PersonListMetadata1| true, retitle, None);
    assert!(matches!(result, Err(TableError::DecodingFailure)));
    assert_eq!(table.read_record("a".to_owned(), None).unwrap(), Some(list("a", "x")));
}

#[test]
fn failed_filter_modify_in_a_given_transaction_writes_nothing() {
    let dir = tempfile::tempdir().unwrap();
    let env = open_env(&dir);
    let table = lists(&env);
    table.write_record(&mut list("a", "x"), None).unwrap();
    table.write_record(&mut list("c", "x"), None).unwrap();
    let raw = table.db();
    let mut txn = env.write_txn().unwrap();
    raw.put(&mut txn, &b"b"[..], &[9u8][..]).unwrap();
    let result = table.filter_modify(|_r: &PersonListMetadata1| true, retitle, Some(&mut txn));
    assert!(matches!(result, Err(TableError::DecodingFailure)));
    assert_eq!(table.read_record("a".to_owned(), Some(&*txn)).unwrap(), Some(list("a", "x")));
    assert_eq!(table.read_record("c".to_owned(), Some(&*txn)).unwrap(), Some(list("c", "x")));
    assert_eq!(table.count_records(&*txn).unwrap(), 3);
}

#[test]
fn store_failure_is_handed_on() {
    let dir = tempfile::tempdir().unwrap();
    let env = open_env(&dir);
    let table = lists(&env);
    let result = table.write_record(&mut list("", "no key"), None);
    assert!(matches!(result, Err(TableError::StoreFailure(_))));
    let long = "k".repeat(600);
    let result = table.write_record(&mut list(&long, "long key"), None);
    assert!(matches!(result, Err(TableError::StoreFailure(_))));
    assert_eq!(table.num_records().unwrap(), 0);
}

#[test]
fn error_descriptions_name_the_kind() {
    assert_eq!(TableError::NotNewable.describe(), "record is not newable");
    assert_eq!(TableError::EncodingFailure.describe(), "record or key could not be encoded");
    assert_eq!(TableError::DecodingFailure.describe(), "stored bytes could not be decoded");
    let dir = tempfile::tempdir().unwrap();
    let env = open_env(&dir);
    let table = lists(&env);
    match table.write_record(&mut list("", "no key"), None) {
        Err(e) => assert_eq!(e.describe(), "the store reported a failure"),
        Ok(()) => panic!("an empty key was accepted"),
    }
}

#[test]
fn filter_modify_visits_every_row_once_while_values_grow() {
    let dir = tempfile::tempdir().unwrap();
    let env = open_env(&dir);
    let table = lists(&env);
    let mut txn = table.write_txn().unwrap();
    for i in 0..300u32 {
        let tag = format!("list-{:04}", (i * 7919) % 300);
        table.write_record(&mut list(&tag, "t"), Some(&mut txn)).unwrap();
    }
    txn.commit().unwrap();
    assert_eq!(table.num_records().unwrap(), 300);
    let grow = |mut r: PersonListMetadata1| {
        r.title = format!("{}{}", r.title, "+".repeat(150));
        r
    };
    let even = |r: &PersonListMetadata1| {
        let n: u32 = r.dtag[5..].parse().unwrap();
        n % 2 == 0
    };
    table.filter_modify(even, grow, None).unwrap();
    let all = table.filter_records(|_r: &PersonListMetadata1| true, None).unwrap();
    assert_eq!(all.len(), 300);
    for (i, record) in all.iter().enumerate() {
        assert_eq!(record.dtag, format!("list-{:04}", i));
        if i % 2 == 0 {
            assert_eq!(record.title.len(), 151);
        } else {
            assert_eq!(record.title, "t");
        }
    }
}

#[test]
fn filter_records_sees_the_writes_of_its_transaction_in_key_order() {
    let dir = tempfile::tempdir().unwrap();
    let env = open_env(&dir);
    let table = lists(&env);
    let mut txn = table.write_txn().unwrap();
    for tag in ["m", "c", "x", "a"] {
        table.write_record(&mut list(tag, "t"), Some(&mut txn)).unwrap();
    }
    let found = table.filter_records(|_r: &PersonListMetadata1| true, Some(&*txn)).unwrap();
    let tags: Vec<&str> = found.iter().map(|r| r.dtag.as_str()).collect();
    assert_eq!(tags, vec!["a", "c", "m", "x"]);
}
