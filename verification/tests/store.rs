use rdb::store::kv::{DataStore, COMPACTION_THRESHOLD};
use rdb::store::kv_error::KvError;
use rdb::store::record::{Command, Entry, ENTRY_META_SIZE};
use rdb::store::value::Value;

fn open_empty() -> DataStore {
    match DataStore::open("test.data", Vec::new()) {
        Ok(store) => store,
        Err(e) => panic!("an empty log must open: {:?}", e),
    }
}

fn key(s: &str) -> String {
    s.to_string()
}

#[test]
fn scenario_add_get_delete_add_compact() {
    let mut db = open_empty();
    assert_eq!(db.add(key("a"), Value::Int32(1)), Ok(()));
    assert_eq!(db.get(key("a")), Ok(Value::Int32(1)));
    assert_eq!(db.delete(key("a")), Ok(()));
    assert_eq!(db.get(key("a")), Err(KvError::KeyNotFound(key("a"))));
    assert_eq!(db.add(key("a"), Value::String(key("x"))), Ok(()));
    assert_eq!(db.compact(), Ok(()));
    assert_eq!(db.get(key("a")), Ok(Value::String(key("x"))));
    // exactly one record is left: header, one byte of key, tag + length + one byte of text
    assert_eq!(db.log().len(), 20 + 1 + 4 + 8 + 1);
    assert_eq!(db.uncompacted(), 0);
    let reopened = match DataStore::open("test.data", db.log().clone()) {
        Ok(store) => store,
        Err(e) => panic!("{:?}", e),
    };
    assert_eq!(reopened.len(), 1);
    assert_eq!(reopened.get(key("a")), Ok(Value::String(key("x"))));
}

#[test]
fn add_then_get_round_trips_every_type() {
    let mut db = open_empty();
    let values = vec![
        Value::Null,
        Value::Bool(true),
        Value::Bool(false),
        Value::Int32(-7),
        Value::Int32(i32::MIN),
        Value::Int64(i64::MAX),
        Value::Int64(-1),
        Value::Float32(1.5f32.to_bits()),
        Value::Float64((-0.25f64).to_bits()),
        Value::String("héllo, wörld".to_string()),
        Value::String(String::new()),
        Value::Char('é'),
        Value::Char('a'),
        Value::Char('🦀'),
        Value::Array(Box::new(vec![
            Value::Int32(1),
            Value::Array(Box::new(vec![Value::Char('x'), Value::Null])),
            Value::String("s".to_string()),
        ])),
        Value::Array(Box::new(Vec::new())),
    ];
    for (i, v) in values.iter().enumerate() {
        let k = format!("k{}", i);
        assert_eq!(db.add(k.clone(), v.clone()), Ok(()));
        assert_eq!(db.get(k), Ok(v.clone()));
    }
    for (i, v) in values.iter().enumerate() {
        assert_eq!(db.get(format!("k{}", i)), Ok(v.clone()));
    }
}

#[test]
fn delete_of_absent_key_is_an_error_and_changes_nothing() {
    let mut db = open_empty();
    db.add(key("a"), Value::Int32(1)).unwrap();
    let log = db.log().clone();
    let uncompacted = db.uncompacted();
    assert_eq!(db.delete(key("b")), Err(KvError::KeyNotFound(key("b"))));
    assert_eq!(db.log(), &log);
    assert_eq!(db.uncompacted(), uncompacted);
    assert_eq!(db.get(key("a")), Ok(Value::Int32(1)));
}

#[test]
fn get_after_delete_is_key_not_found() {
    let mut db = open_empty();
    db.add(key("k"), Value::Bool(true)).unwrap();
    db.delete(key("k")).unwrap();
    assert_eq!(db.get(key("k")), Err(KvError::KeyNotFound(key("k"))));
    assert_eq!(db.delete(key("k")), Err(KvError::KeyNotFound(key("k"))));
}

#[test]
fn uncompacted_counts_superseded_adds_and_tombstones() {
    let mut db = open_empty();
    db.add(key("a"), Value::Int32(1)).unwrap();
    let first = db.position();
    assert_eq!(first, 20 + 1 + 8);
    assert_eq!(db.uncompacted(), 0);
    db.add(key("a"), Value::Int64(2)).unwrap();
    assert_eq!(db.uncompacted(), first);
    let second = db.position() - first;
    assert_eq!(second, 20 + 1 + 12);
    db.delete(key("a")).unwrap();
    let tombstone = 20 + 1 + 4;
    assert_eq!(db.uncompacted(), first + second + tombstone);
    assert_eq!(db.position(), first + second + tombstone);
    assert_eq!(db.log().len() as u64, db.position());
}

#[test]
fn compaction_keeps_the_logical_state_and_shrinks_the_log() {
    let mut db = open_empty();
    for i in 0..20 {
        db.add(format!("k{}", i % 5), Value::Int32(i)).unwrap();
    }
    db.delete(key("k0")).unwrap();
    let before_len = db.log().len() as u64;
    let dead = db.uncompacted();
    let mut before: Vec<(String, Value)> = Vec::new();
    for e in db.get_all_entry().unwrap() {
        let (k, v) = e.into_parts();
        before.push((k, v));
    }
    before.sort_by(|a, b| a.0.cmp(&b.0));
    db.compact().unwrap();
    assert_eq!(db.uncompacted(), 0);
    assert_eq!(db.log().len() as u64 + dead, before_len);
    assert!(db.needs_rewrite());
    let mut after: Vec<(String, Value)> = Vec::new();
    for e in db.get_all_entry().unwrap() {
        let (k, v) = e.into_parts();
        after.push((k, v));
    }
    after.sort_by(|a, b| a.0.cmp(&b.0));
    assert_eq!(before, after);
    assert_eq!(after.len(), 4);
    assert_eq!(db.get(key("k0")), Err(KvError::KeyNotFound(key("k0"))));
    assert_eq!(db.get(key("k4")), Ok(Value::Int32(19)));
}

#[test]
fn compaction_of_a_compact_log_changes_nothing() {
    let mut db = open_empty();
    db.add(key("a"), Value::Int32(1)).unwrap();
    db.add(key("b"), Value::Int32(2)).unwrap();
    let log = db.log().clone();
    db.compact().unwrap();
    assert_eq!(db.log(), &log);
}

#[test]
fn reaching_the_threshold_compacts_before_the_next_append() {
    let mut db = match DataStore::open_with_threshold("t", Vec::new(), 40) {
        Ok(db) => db,
        Err(e) => panic!("{:?}", e),
    };
    db.add(key("a"), Value::Int32(1)).unwrap();
    db.add(key("a"), Value::Int32(2)).unwrap();
    assert_eq!(db.uncompacted(), 29);
    db.add(key("a"), Value::Int32(3)).unwrap();
    assert_eq!(db.uncompacted(), 58);
    // 58 >= 40: the next append compacts first, then supersedes the one record left
    db.add(key("b"), Value::Int32(4)).unwrap();
    assert_eq!(db.uncompacted(), 0);
    assert_eq!(db.log().len(), 58);
    assert_eq!(db.get(key("a")), Ok(Value::Int32(3)));
    assert_eq!(db.get(key("b")), Ok(Value::Int32(4)));
    assert_eq!(COMPACTION_THRESHOLD, 1024 * 1024);
}

#[test]
fn open_replays_what_was_written() {
    let mut db = open_empty();
    db.add(key("a"), Value::Int32(1)).unwrap();
    db.add(key("b"), Value::String(key("two"))).unwrap();
    db.add(key("a"), Value::Char('z')).unwrap();
    db.delete(key("b")).unwrap();
    let again = match DataStore::open("other", db.log().clone()) {
        Ok(db) => db,
        Err(e) => panic!("{:?}", e),
    };
    assert_eq!(again.uncompacted(), db.uncompacted());
    assert_eq!(again.position(), db.position());
    assert_eq!(again.get(key("a")), Ok(Value::Char('z')));
    assert_eq!(again.get(key("b")), Err(KvError::KeyNotFound(key("b"))));
    assert_eq!(again.path, "other");
    assert!(!again.needs_rewrite());
    assert!(again.unsynced().is_empty());
}

#[test]
fn open_reports_corruption() {
    let mut db = open_empty();
    db.add(key("a"), Value::Int32(1)).unwrap();
    let good = db.log().clone();
    // the log ends inside a record
    let cut = good[..good.len() - 1].to_vec();
    assert_eq!(DataStore::open("p", cut).err(), Some(KvError::TruncatedRecord));
    assert_eq!(DataStore::open("p", good[..7].to_vec()).err(), Some(KvError::TruncatedRecord));
    // an operation tag that names no operation
    let mut bad_tag = good.clone();
    bad_tag[0] = 9;
    assert_eq!(DataStore::open("p", bad_tag).err(), Some(KvError::InvalidCommand));
    // a key that is not UTF-8
    let mut bad_key = good.clone();
    bad_key[20] = 0xff;
    assert_eq!(DataStore::open("p", bad_key).err(), Some(KvError::DecodeUtf8Error));
    // a value whose tag is unknown
    let mut bad_value = good.clone();
    bad_value[21] = 77;
    assert_eq!(DataStore::open("p", bad_value).err(), Some(KvError::InvalidValue));
    // a value length that does not match the value
    let mut long = good.clone();
    long[19] = 9;
    long.push(0);
    assert_eq!(DataStore::open("p", long).err(), Some(KvError::InvalidValue));
}

#[test]
fn read_with_offset_signals_the_end_of_the_log() {
    let mut db = open_empty();
    assert_eq!(db.read_with_offset(0).err(), Some(KvError::EOF));
    db.add(key("a"), Value::Int32(1)).unwrap();
    let entry = db.read_with_offset(0).unwrap();
    assert_eq!(entry.command(), Command::Add);
    assert_eq!(entry.key(), "a");
    assert_eq!(entry.value(), &Value::Int32(1));
    assert_eq!(entry.size(), 29);
    assert_eq!(db.read_with_offset(29).err(), Some(KvError::EOF));
    assert_eq!(db.read_with_offset(1000).err(), Some(KvError::EOF));
    // inside the record the bytes are no record: what is read as lengths is out of all bounds
    assert_eq!(db.read_with_offset(5).err(), Some(KvError::TruncatedRecord));
    assert_eq!(db.read_with_offset(28).err(), Some(KvError::TruncatedRecord));
}

#[test]
fn record_layout_is_header_key_value() {
    let entry = Entry::add(key("ab"), Value::Int32(258), 8);
    let bytes = entry.encode().unwrap();
    assert_eq!(
        bytes,
        vec![
            0, 0, 0, 0, // Add
            0, 0, 0, 0, 0, 0, 0, 2, // key length, most significant first
            0, 0, 0, 0, 0, 0, 0, 8, // value length
            b'a', b'b', // key
            2, 0, 0, 0, // tag of Int32
            2, 1, 0, 0, // 258, least significant first
        ]
    );
    assert_eq!(entry.size(), bytes.len());
    let mut header = [0u8; ENTRY_META_SIZE];
    header.copy_from_slice(&bytes[..20]);
    let meta = Entry::decode(&header).unwrap();
    assert_eq!(meta.command, Command::Add);
    assert_eq!(meta.key_size, 2);
    assert_eq!(meta.value_size, 8);
    let tomb = Entry::delete(key("ab"));
    let bytes = tomb.encode().unwrap();
    assert_eq!(&bytes[..4], &[1, 0, 0, 0]);
    assert_eq!(&bytes[22..], &[0, 0, 0, 0]);
    assert_eq!(tomb.size(), 26);
}

#[test]
fn entry_with_wrong_size_does_not_encode() {
    let entry = Entry::add(key("ab"), Value::Int32(1), 7);
    assert_eq!(entry.encode(), Err(KvError::SizeMismatch));
    let mut header = [0u8; ENTRY_META_SIZE];
    header[0] = 2;
    assert_eq!(Entry::decode(&header), Err(KvError::InvalidCommand));
}

#[test]
fn value_layout_agrees_with_bincode() {
    assert_eq!(Value::Null.to_bytes(), bincode::serialize(&0u32).unwrap());
    assert_eq!(Value::Bool(true).to_bytes(), bincode::serialize(&(1u32, true)).unwrap());
    assert_eq!(Value::Int32(-5).to_bytes(), bincode::serialize(&(2u32, -5i32)).unwrap());
    assert_eq!(
        Value::Int64(i64::MIN + 3).to_bytes(),
        bincode::serialize(&(3u32, i64::MIN + 3)).unwrap()
    );
    assert_eq!(
        Value::Float32(3.25f32.to_bits()).to_bytes(),
        bincode::serialize(&(4u32, 3.25f32)).unwrap()
    );
    assert_eq!(
        Value::Float64(1e100f64.to_bits()).to_bytes(),
        bincode::serialize(&(5u32, 1e100f64)).unwrap()
    );
    assert_eq!(
        Value::String("grüß".to_string()).to_bytes(),
        bincode::serialize(&(6u32, "grüß".to_string())).unwrap()
    );
    for c in ['a', 'ß', '€', '🦀'] {
        assert_eq!(Value::Char(c).to_bytes(), bincode::serialize(&(7u32, c)).unwrap());
    }
    let array = Value::Array(Box::new(vec![Value::Int32(1), Value::Int32(2)]));
    assert_eq!(
        array.to_bytes(),
        bincode::serialize(&(8u32, vec![(2u32, 1i32), (2u32, 2i32)])).unwrap()
    );
}

#[test]
fn value_from_bytes_rejects_what_is_no_value() {
    assert_eq!(Value::from_bytes(&[]), None);
    assert_eq!(Value::from_bytes(&[1, 0, 0, 0, 2]), None);
    assert_eq!(Value::from_bytes(&[1, 0, 0, 0, 1]), Some(Value::Bool(true)));
    assert_eq!(Value::from_bytes(&[0, 0, 0, 0, 0]), None);
    assert_eq!(Value::from_bytes(&[9, 0, 0, 0]), None);
    assert_eq!(Value::from_bytes(&[7, 0, 0, 0, 0xc3]), None);
    assert_eq!(Value::from_bytes(&[7, 0, 0, 0, 0xc3, 0xa9]), Some(Value::Char('é')));
    assert_eq!(Value::from_bytes(&[7, 0, 0, 0, 0x80]), None);
    // a surrogate is no character
    assert_eq!(Value::from_bytes(&[7, 0, 0, 0, 0xed, 0xa0, 0x80]), None);
    // an array that announces more elements than follow
    assert_eq!(Value::from_bytes(&[8, 0, 0, 0, 2, 0, 0, 0, 0, 0, 0, 0, 0, 0, 0, 0]), None);
    let v = Value::Array(Box::new(vec![Value::String("a".into()), Value::Null]));
    assert_eq!(Value::from_bytes(&v.to_bytes()), Some(v.clone()));
    assert_eq!(v.duplicate(), v);
}

#[test]
fn listings_follow_the_index() {
    let mut db = open_empty();
    db.add(key("a"), Value::Int32(1)).unwrap();
    db.add(key("b"), Value::Int32(2)).unwrap();
    db.add(key("a"), Value::Int32(3)).unwrap();
    let mut values = db.get_all_value().unwrap();
    values.sort_by_key(|v| match v {
        Value::Int32(x) => *x,
        _ => 0,
    });
    assert_eq!(values, vec![Value::Int32(2), Value::Int32(3)]);
    let entries = db.get_all_entry().unwrap();
    assert_eq!(entries.len(), 2);
    for e in entries {
        assert_eq!(e.command(), Command::Add);
        assert_eq!(db.get(e.key().clone()).as_ref(), Ok(e.value()));
    }
}

#[test]
fn type_of_names_each_type() {
    assert_eq!(DataStore::type_of(Value::Null), "Null");
    assert_eq!(DataStore::type_of(Value::Bool(true)), "Bool");
    assert_eq!(DataStore::type_of(Value::Int32(1)), "Int");
    assert_eq!(DataStore::type_of(Value::Int64(1)), "Long");
    assert_eq!(DataStore::type_of(Value::Float32(0)), "Float");
    assert_eq!(DataStore::type_of(Value::Float64(0)), "Double");
    assert_eq!(DataStore::type_of(Value::String(String::new())), "String");
    assert_eq!(DataStore::type_of(Value::Char('c')), "Char");
    assert_eq!(DataStore::type_of(Value::Array(Box::new(vec![]))), "Array");
}

#[test]
fn unsynced_bytes_are_what_was_appended() {
    let mut db = open_empty();
    db.add(key("a"), Value::Int32(1)).unwrap();
    assert_eq!(db.unsynced(), db.log().clone());
    db.mark_synced();
    assert!(db.unsynced().is_empty());
    db.add(key("b"), Value::Int32(2)).unwrap();
    assert_eq!(db.unsynced(), db.log()[29..].to_vec());
    assert!(!db.needs_rewrite());
    db.compact().unwrap();
    assert!(db.needs_rewrite());
    assert_eq!(db.unsynced(), db.log().clone());
    db.mark_synced();
    assert!(!db.needs_rewrite());
    assert_eq!(KvError::KeyNotFound(key("k")).message(), "Key not found: \"k\"");
}
