use cubase_project_plugins::cstring_extras::{from_vec_until_nul, FromVecUntilNulError};

#[test]
fn test_from_vec_until_nul() {
    let xs = b"hello there\0".to_vec();
    assert_eq!(from_vec_until_nul(xs).unwrap(), b"hello there\0".to_vec());

    let xs = b"hello\0there".to_vec();
    assert_eq!(from_vec_until_nul(xs).unwrap(), b"hello\0".to_vec());

    let xs = b"hello\0there\0".to_vec();
    assert_eq!(from_vec_until_nul(xs).unwrap(), b"hello\0".to_vec());

    let xs = b"hello there".to_vec();
    assert!(from_vec_until_nul(xs).is_err());
}

#[test]
fn nul_first_gives_empty_string() {
    assert_eq!(from_vec_until_nul(vec![0, 1, 2]).unwrap(), vec![0]);
}

#[test]
fn empty_vector_has_no_nul() {
    let err = from_vec_until_nul(Vec::new()).unwrap_err();
    assert_eq!(err, FromVecUntilNulError);
    assert_eq!(err.message(), "data provided does not contain a nul");
}
