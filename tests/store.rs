use kiv::kiv::{Kiv, KivError, OperationResultResult};
use kiv::parser::ParserError;
use kiv::storage::StorageError;
use kiv::tokenizer::TokenizerError;

fn fresh() -> Kiv {
    Kiv::open(Vec::new()).0
}

#[test]
fn set_get_delete_get() {
    let mut kiv = fresh();
    let (r, edit) = kiv.exec(String::from("SET \"name\" TO \"alice\"")).unwrap();
    assert!(matches!(r.result, OperationResultResult::Put));
    assert!(edit.is_some());
    let (r, edit) = kiv.exec(String::from("GET \"name\"")).unwrap();
    match r.result {
        OperationResultResult::Get(g) => assert_eq!(g.value, Some(String::from("alice"))),
        _ => panic!("expected a get"),
    }
    assert!(edit.is_none());
    let (r, _) = kiv.exec(String::from("DELETE \"name\"")).unwrap();
    assert!(matches!(r.result, OperationResultResult::Delete));
    let (r, _) = kiv.exec(String::from("GET \"name\"")).unwrap();
    match r.result {
        OperationResultResult::Get(g) => assert_eq!(g.value, None),
        _ => panic!("expected a get"),
    }
}

#[test]
fn set_twice_keeps_one_record() {
    let mut kiv = fresh();
    kiv.exec(String::from("SET 'k' TO 'v1'")).unwrap();
    let len_one = kiv.bytes().len();
    kiv.exec(String::from("SET 'k' TO 'v2'")).unwrap();
    assert_eq!(kiv.bytes().len(), len_one);
    let (r, _) = kiv.exec(String::from("get 'k'")).unwrap();
    match r.result {
        OperationResultResult::Get(g) => assert_eq!(g.value, Some(String::from("v2"))),
        _ => panic!("expected a get"),
    }
}

#[test]
fn compile_errors_leave_the_file_alone() {
    let mut kiv = fresh();
    let before = kiv.bytes().clone();
    match kiv.exec(String::from("SET x TO y")) {
        Err(KivError::TokenizerError(TokenizerError::UnknownKeyword(w))) => assert_eq!(w, "X"),
        _ => panic!("expected a tokenizer error"),
    }
    assert!(matches!(
        kiv.exec(String::from("SET \"a\"")),
        Err(KivError::ParserError(ParserError::SetNoTo))
    ));
    assert_eq!(kiv.bytes(), &before);
}

#[test]
fn corrupt_file_is_reported() {
    let mut old = vec![0u8, 104, 105, 107, 105, 118, 0, 0];
    old.extend_from_slice(&[9, 9, 9]);
    let (mut kiv, edit) = Kiv::open(old);
    assert!(edit.is_none());
    assert!(matches!(
        kiv.exec(String::from("GET 'a'")),
        Err(KivError::StorageError(StorageError::Corrupt))
    ));
}
