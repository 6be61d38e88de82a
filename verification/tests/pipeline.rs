//! End-to-end tests of the session state machine, the error taxonomy, and
//! the artifact round trip, all against an in-memory file store.

use fls_rs::connect;
use fls_rs::error::ErrorKind;
use fls_rs::get_version;
use fls_rs::store::{FileData, FileStore};

fn rows(cells: &[&[&str]]) -> Vec<Vec<Vec<u8>>> {
    cells
        .iter()
        .map(|r| r.iter().map(|f| f.as_bytes().to_vec()).collect())
        .collect()
}

fn three_by_two() -> Vec<Vec<Vec<u8>>> {
    rows(&[&["a1", "b1"], &["a2", "b2"], &["a3", "b3"]])
}

fn stored_rows(store: &FileStore, path: &str) -> Vec<Vec<Vec<u8>>> {
    match store.get(path) {
        Some(FileData::Rows(r)) => r.clone(),
        Some(FileData::Bytes(_)) => panic!("expected records at {}, found bytes", path),
        None => panic!("nothing stored at {}", path),
    }
}

fn stored_bytes(store: &FileStore, path: &str) -> Vec<u8> {
    match store.get(path) {
        Some(FileData::Bytes(b)) => b.clone(),
        Some(FileData::Rows(_)) => panic!("expected bytes at {}, found records", path),
        None => panic!("nothing stored at {}", path),
    }
}

#[test]
fn version_is_reported() {
    assert_eq!(get_version(), "0.1.0");
}

#[test]
fn emit_before_ingest_is_state_error() {
    let mut store = FileStore::new();
    let mut conn = connect();
    let err = conn.to_fls(&mut store, "out.fls").unwrap_err();
    assert_eq!(err.kind(), ErrorKind::StateError);
    assert_eq!(err.path().unwrap(), "out.fls");
    assert!(store.get("out.fls").is_none());
}

#[test]
fn ingest_missing_path_is_io_error() {
    let store = FileStore::new();
    let mut conn = connect();
    let err = conn.read_csv(&store, "/nonexistent").unwrap_err();
    assert_eq!(err.kind(), ErrorKind::IOError);
    assert_eq!(err.path().unwrap(), "/nonexistent");
}

#[test]
fn open_missing_path_is_io_error() {
    let store = FileStore::new();
    let mut conn = connect();
    match conn.read_fls(&store, "/nonexistent.artifact") {
        Ok(_) => panic!("opening a missing path must fail"),
        Err(e) => {
            assert_eq!(e.kind(), ErrorKind::IOError);
            assert_eq!(e.path().unwrap(), "/nonexistent.artifact");
        },
    }
}

#[test]
fn open_unrecognized_bytes_is_format_error() {
    let mut store = FileStore::new();
    store.put("junk.fls", FileData::Bytes(vec![1, 2, 3]));
    let mut conn = connect();
    match conn.read_fls(&store, "junk.fls") {
        Ok(_) => panic!("opening junk must fail"),
        Err(e) => assert_eq!(e.kind(), ErrorKind::FormatError),
    }
}

#[test]
fn open_records_is_format_error() {
    let mut store = FileStore::new();
    store.put("dir", FileData::Rows(three_by_two()));
    let mut conn = connect();
    match conn.read_fls(&store, "dir") {
        Ok(_) => panic!("opening a records directory as an artifact must fail"),
        Err(e) => assert_eq!(e.kind(), ErrorKind::FormatError),
    }
}

#[test]
fn configure_is_idempotent_before_ingest() {
    let mut conn = connect();
    assert!(conn.inline_footer().is_ok());
    assert!(conn.inline_footer().is_ok());
}

#[test]
fn configure_after_ingest_is_state_error() {
    let mut store = FileStore::new();
    store.put("dir", FileData::Rows(three_by_two()));
    let mut conn = connect();
    conn.read_csv(&store, "dir").unwrap();
    let err = conn.inline_footer().unwrap_err();
    assert_eq!(err.kind(), ErrorKind::StateError);
    assert!(err.path().is_none());
}

#[test]
fn second_ingest_is_state_error() {
    let mut store = FileStore::new();
    store.put("dir", FileData::Rows(three_by_two()));
    let mut conn = connect();
    conn.read_csv(&store, "dir").unwrap();
    let err = conn.read_csv(&store, "dir").unwrap_err();
    assert_eq!(err.kind(), ErrorKind::StateError);
    assert_eq!(err.path().unwrap(), "dir");
}

#[test]
fn second_emit_is_state_error() {
    let mut store = FileStore::new();
    store.put("dir", FileData::Rows(three_by_two()));
    let mut conn = connect();
    conn.read_csv(&store, "dir").unwrap();
    conn.to_fls(&mut store, "out.fls").unwrap();
    let err = conn.to_fls(&mut store, "again.fls").unwrap_err();
    assert_eq!(err.kind(), ErrorKind::StateError);
    assert_eq!(err.path().unwrap(), "again.fls");
    assert!(store.get("again.fls").is_none());
}

#[test]
fn ragged_rows_are_schema_error() {
    let mut store = FileStore::new();
    store.put("dir", FileData::Rows(rows(&[&["a"], &["b", "c"]])));
    let mut conn = connect();
    let err = conn.read_csv(&store, "dir").unwrap_err();
    assert_eq!(err.kind(), ErrorKind::SchemaError);
    assert_eq!(err.path().unwrap(), "dir");
}

#[test]
fn ingesting_bytes_is_schema_error() {
    let mut store = FileStore::new();
    store.put("dir", FileData::Bytes(vec![0, 1, 2]));
    let mut conn = connect();
    let err = conn.read_csv(&store, "dir").unwrap_err();
    assert_eq!(err.kind(), ErrorKind::SchemaError);
}

#[test]
fn round_trip_three_rows_two_cols() {
    let input = three_by_two();
    let mut store = FileStore::new();
    store.put("data/issue", FileData::Rows(input.clone()));
    let mut conn = connect();
    conn.inline_footer().unwrap();
    conn.read_csv(&store, "data/issue").unwrap();
    conn.to_fls(&mut store, "out.fls").unwrap();
    let mut reader = conn.read_fls(&store, "out.fls").expect("emitted artifact must open");
    reader.to_csv(&mut store, "out.csv").unwrap();
    let decoded = stored_rows(&store, "out.csv");
    assert_eq!(decoded.len(), 3);
    assert_eq!(decoded[0].len(), 2);
    assert_eq!(decoded, input);
}

#[test]
fn footer_placement_does_not_change_decoded_rows() {
    let input = three_by_two();
    let mut store = FileStore::new();
    store.put("dir", FileData::Rows(input.clone()));

    let mut inline_conn = connect();
    inline_conn.inline_footer().unwrap();
    inline_conn.read_csv(&store, "dir").unwrap();
    inline_conn.to_fls(&mut store, "inline.fls").unwrap();

    let mut plain_conn = connect();
    plain_conn.read_csv(&store, "dir").unwrap();
    plain_conn.to_fls(&mut store, "plain.fls").unwrap();

    let mut opener = connect();
    let mut r1 = opener.read_fls(&store, "inline.fls").expect("inline artifact must open");
    r1.to_csv(&mut store, "inline.csv").unwrap();
    let mut r2 = opener.read_fls(&store, "plain.fls").expect("plain artifact must open");
    r2.to_csv(&mut store, "plain.csv").unwrap();

    assert_eq!(stored_rows(&store, "inline.csv"), stored_rows(&store, "plain.csv"));
    assert_eq!(stored_rows(&store, "inline.csv"), input);
    let a = stored_bytes(&store, "inline.fls");
    let b = stored_bytes(&store, "plain.fls");
    assert_eq!(a[4], 1);
    assert_eq!(b[4], 0);
}

#[test]
fn reader_outlives_the_session_that_emitted() {
    let input = three_by_two();
    let mut store = FileStore::new();
    store.put("dir", FileData::Rows(input.clone()));
    let mut writer = connect();
    writer.read_csv(&store, "dir").unwrap();
    writer.to_fls(&mut store, "out.fls").unwrap();
    drop(writer);

    let mut opener = connect();
    let mut reader = opener.read_fls(&store, "out.fls").expect("artifact must open");
    drop(opener);
    reader.to_csv(&mut store, "back.csv").unwrap();
    assert_eq!(stored_rows(&store, "back.csv"), input);
}

#[test]
fn second_decode_is_state_error() {
    let mut store = FileStore::new();
    store.put("dir", FileData::Rows(three_by_two()));
    let mut conn = connect();
    conn.read_csv(&store, "dir").unwrap();
    conn.to_fls(&mut store, "out.fls").unwrap();
    let mut reader = conn.read_fls(&store, "out.fls").expect("artifact must open");
    reader.to_csv(&mut store, "first.csv").unwrap();
    let err = reader.to_csv(&mut store, "second.csv").unwrap_err();
    assert_eq!(err.kind(), ErrorKind::StateError);
    assert_eq!(err.path().unwrap(), "second.csv");
    assert!(store.get("second.csv").is_none());
}

#[test]
fn truncated_artifact_body_is_format_error() {
    // A recognized header claiming one row and one column, with no body.
    let bytes = vec![70, 76, 83, 49, 1, 1, 0, 0, 0, 1, 0, 0, 0];
    let mut store = FileStore::new();
    store.put("bad.fls", FileData::Bytes(bytes));
    let mut conn = connect();
    let mut reader = conn.read_fls(&store, "bad.fls").expect("header is recognized");
    let err = reader.to_csv(&mut store, "out.csv").unwrap_err();
    assert_eq!(err.kind(), ErrorKind::FormatError);
    assert_eq!(err.path().unwrap(), "bad.fls");
    assert!(store.get("out.csv").is_none());
}

#[test]
fn empty_table_round_trips() {
    let mut store = FileStore::new();
    store.put("dir", FileData::Rows(Vec::new()));
    let mut conn = connect();
    conn.read_csv(&store, "dir").unwrap();
    conn.to_fls(&mut store, "empty.fls").unwrap();
    let mut reader = conn.read_fls(&store, "empty.fls").expect("artifact must open");
    reader.to_csv(&mut store, "empty.csv").unwrap();
    assert_eq!(stored_rows(&store, "empty.csv"), Vec::<Vec<Vec<u8>>>::new());
}

#[test]
fn emitted_artifact_carries_magic_and_flag() {
    let mut store = FileStore::new();
    store.put("dir", FileData::Rows(three_by_two()));
    let mut conn = connect();
    conn.read_csv(&store, "dir").unwrap();
    conn.to_fls(&mut store, "out.fls").unwrap();
    let bytes = stored_bytes(&store, "out.fls");
    assert_eq!(&bytes[0..4], &[70, 76, 83, 49]);
    assert_eq!(bytes[4], 0);
    assert!(bytes.len() > 13);
}

#[test]
fn ingest_recovers_after_io_error() {
    let mut store = FileStore::new();
    store.put("dir", FileData::Rows(three_by_two()));
    let mut conn = connect();
    let err = conn.read_csv(&store, "elsewhere").unwrap_err();
    assert_eq!(err.kind(), ErrorKind::IOError);
    conn.read_csv(&store, "dir").unwrap();
    conn.to_fls(&mut store, "out.fls").unwrap();
}
