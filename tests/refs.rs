use sshsign_commit::refs::{Expected, RefError, RefStore};

#[test]
fn head_is_never_overwritten() {
    let mut s = RefStore::new();
    let head = b"HEAD".to_vec();
    assert_eq!(s.edit(&head, &Expected::MustNotExist, &vec![1; 20]), Ok(()));
    assert_eq!(
        s.edit(&head, &Expected::MustNotExist, &vec![2; 20]),
        Err(RefError::RefConflict)
    );
    assert_eq!(s.target(&head), Some(vec![1; 20]));
}

#[test]
fn must_match_checks_current_target() {
    let mut s = RefStore::new();
    let r = b"refs/heads/main".to_vec();
    assert_eq!(s.edit(&r, &Expected::MustMatch(vec![1]), &vec![2]), Err(RefError::RefConflict));
    assert_eq!(s.target(&r), None);
    assert_eq!(s.edit(&r, &Expected::Any, &vec![1]), Ok(()));
    assert_eq!(s.edit(&r, &Expected::MustMatch(vec![9]), &vec![2]), Err(RefError::RefConflict));
    assert_eq!(s.edit(&r, &Expected::MustMatch(vec![1]), &vec![2]), Ok(()));
    assert_eq!(s.target(&r), Some(vec![2]));
}

#[test]
fn branch_overwrite_points_at_latest() {
    let mut s = RefStore::new();
    let main = b"main".to_vec();
    let other = b"other".to_vec();
    assert_eq!(s.create_branch(&other, &vec![7], true), Ok(()));
    assert_eq!(s.create_branch(&main, &vec![1], true), Ok(()));
    assert_eq!(s.create_branch(&main, &vec![2], true), Ok(()));
    assert_eq!(s.target(&main), Some(vec![2]));
    assert_eq!(s.target(&other), Some(vec![7]));
    assert_eq!(s.create_branch(&main, &vec![3], false), Err(RefError::RefConflict));
    assert_eq!(s.target(&main), Some(vec![2]));
}
