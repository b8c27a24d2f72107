use kiv::storage::{FileEdit, Storage, StorageError};

const HEADER: [u8; 8] = [0, 104, 105, 107, 105, 118, 0, 0];

fn fresh() -> Storage {
    Storage::open(Vec::new()).0
}

fn s(t: &str) -> String {
    String::from(t)
}

fn apply(file: &mut Vec<u8>, e: &FileEdit) {
    file.truncate(e.truncate_to);
    file.extend_from_slice(&e.append);
}

#[test]
fn empty_file_gets_a_header() {
    let (st, edit) = Storage::open(Vec::new());
    assert_eq!(st.bytes().as_slice(), &HEADER);
    let edit = edit.unwrap();
    assert_eq!(edit.truncate_to, 0);
    assert_eq!(edit.append.as_slice(), &HEADER);
}

#[test]
fn bad_signature_resets_the_file() {
    let mut old = vec![1u8, 2, 3, 4, 5, 6, 0, 0];
    old.extend_from_slice(&[0, 0, 1, 97, 0, 0, 0, 1, 98]);
    let (st, edit) = Storage::open(old);
    assert_eq!(st.bytes().as_slice(), &HEADER);
    assert!(edit.is_some());
    assert_eq!(st.get_data_entry(&s("a")).unwrap(), None);
}

#[test]
fn valid_file_is_kept() {
    let mut old = HEADER.to_vec();
    old.extend_from_slice(&[0, 0, 1, 97, 0, 0, 0, 1, 98]);
    let (st, edit) = Storage::open(old.clone());
    assert!(edit.is_none());
    assert_eq!(st.bytes(), &old);
    assert_eq!(st.get_data_entry(&s("a")).unwrap(), Some(s("b")));
}

#[test]
fn record_layout_is_big_endian() {
    let mut st = fresh();
    let edit = st.write_data_entry(&s("ab"), &s("xyz")).unwrap();
    let mut expected = HEADER.to_vec();
    expected.extend_from_slice(&[0, 0, 2, 97, 98, 0, 0, 0, 3, 120, 121, 122]);
    assert_eq!(st.bytes(), &expected);
    assert_eq!(edit.truncate_to, 8);
    assert_eq!(edit.append.as_slice(), &expected[8..]);
}

#[test]
fn write_then_get_round_trips() {
    let mut st = fresh();
    st.write_data_entry(&s("k"), &s("v")).unwrap();
    assert_eq!(st.get_data_entry(&s("k")).unwrap(), Some(s("v")));
    assert_eq!(st.get_data_entry(&s("other")).unwrap(), None);
}

#[test]
fn first_duplicate_wins() {
    let mut st = fresh();
    st.write_data_entry(&s("k"), &s("first")).unwrap();
    st.write_data_entry(&s("k"), &s("second")).unwrap();
    assert_eq!(st.get_data_entry(&s("k")).unwrap(), Some(s("first")));
}

#[test]
fn delete_of_absent_key_changes_nothing() {
    let mut st = fresh();
    st.write_data_entry(&s("a"), &s("1")).unwrap();
    let before = st.bytes().clone();
    assert!(st.delete_data_entry(&s("zz")).unwrap().is_none());
    assert_eq!(st.bytes(), &before);
}

#[test]
fn update_overwrites_and_keeps_others() {
    let mut st = fresh();
    st.write_data_entry(&s("a"), &s("1")).unwrap();
    st.write_data_entry(&s("k"), &s("v1")).unwrap();
    st.write_data_entry(&s("c"), &s("3")).unwrap();
    let mut file = st.bytes().clone();
    let edit = st.update_data_entry(&s("k"), &s("longer value")).unwrap().unwrap();
    apply(&mut file, &edit);
    assert_eq!(&file, st.bytes());
    assert_eq!(st.get_data_entry(&s("k")).unwrap(), Some(s("longer value")));
    assert_eq!(st.get_data_entry(&s("a")).unwrap(), Some(s("1")));
    assert_eq!(st.get_data_entry(&s("c")).unwrap(), Some(s("3")));
}

#[test]
fn update_of_absent_key_changes_nothing() {
    let mut st = fresh();
    st.write_data_entry(&s("a"), &s("1")).unwrap();
    let before = st.bytes().clone();
    assert!(st.update_data_entry(&s("b"), &s("2")).unwrap().is_none());
    assert_eq!(st.bytes(), &before);
}

#[test]
fn delete_keeps_order_of_the_rest() {
    let mut st = fresh();
    st.write_data_entry(&s("a"), &s("1")).unwrap();
    st.write_data_entry(&s("b"), &s("2")).unwrap();
    st.write_data_entry(&s("c"), &s("3")).unwrap();
    let mut file = st.bytes().clone();
    let edit = st.delete_data_entry(&s("b")).unwrap().unwrap();
    apply(&mut file, &edit);
    assert_eq!(&file, st.bytes());
    let mut expected = HEADER.to_vec();
    expected.extend_from_slice(&[0, 0, 1, 97, 0, 0, 0, 1, 49]);
    expected.extend_from_slice(&[0, 0, 1, 99, 0, 0, 0, 1, 51]);
    assert_eq!(st.bytes(), &expected);
    assert_eq!(st.get_data_entry(&s("b")).unwrap(), None);
}

#[test]
fn unknown_record_type_is_corrupt() {
    let mut old = HEADER.to_vec();
    old.extend_from_slice(&[7, 0, 1, 97, 0, 0, 0, 1, 98]);
    let (mut st, _) = Storage::open(old);
    assert_eq!(st.get_data_entry(&s("a")), Err(StorageError::Corrupt));
    assert_eq!(st.delete_data_entry(&s("a")).err(), Some(StorageError::Corrupt));
}

#[test]
fn truncated_record_is_corrupt() {
    let mut old = HEADER.to_vec();
    old.extend_from_slice(&[0, 0, 5, 97]);
    let (st, _) = Storage::open(old);
    assert_eq!(st.get_data_entry(&s("a")), Err(StorageError::Corrupt));
}

#[test]
fn value_that_is_not_utf8_is_corrupt() {
    let mut old = HEADER.to_vec();
    old.extend_from_slice(&[0, 0, 1, 97, 0, 0, 0, 1, 0xff]);
    let (st, _) = Storage::open(old);
    assert_eq!(st.get_data_entry(&s("a")), Err(StorageError::Corrupt));
}

#[test]
fn overlong_key_is_refused() {
    let mut st = fresh();
    let key = "k".repeat(70000);
    assert_eq!(st.write_data_entry(&key, &s("v")).err(), Some(StorageError::KeyTooLong));
    assert_eq!(st.bytes().as_slice(), &HEADER);
}

#[test]
fn non_ascii_text_round_trips() {
    let mut st = fresh();
    st.write_data_entry(&s("ключ"), &s("värde")).unwrap();
    assert_eq!(st.get_data_entry(&s("ключ")).unwrap(), Some(s("värde")));
}
