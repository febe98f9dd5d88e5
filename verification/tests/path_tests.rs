use blobrepo::history::{file_or_not_found, single_key_history, HistoryError, HistoryParams, Key};
use blobrepo::ids::{HgFileNodeId, HgNodeHash};
use blobrepo::path::{bytes_clone, bytes_eq, is_valid_element, MPath, MPathElement};

fn elements(p: &MPath) -> Vec<Vec<u8>> {
    (0..p.num_components()).map(|i| p.element(i).clone()).collect()
}

#[test]
fn path_is_split_at_separators() {
    let p = MPath::new(b"a/bc/d").unwrap();
    assert_eq!(elements(&p), vec![b"a".to_vec(), b"bc".to_vec(), b"d".to_vec()]);
    assert_eq!(p.num_components(), 3);
    assert_eq!(p.basename(), &b"d".to_vec());
    let p = MPath::new(b"//a///b/").unwrap();
    assert_eq!(elements(&p), vec![b"a".to_vec(), b"b".to_vec()]);
    assert_eq!(p, MPath::new(b"a/b").unwrap());
    assert_eq!(elements(&MPath::new(b"test").unwrap()), vec![b"test".to_vec()]);
}

#[test]
fn path_without_elements_is_none() {
    assert!(MPath::new(b"").is_none());
    assert!(MPath::new(b"/").is_none());
    assert!(MPath::new(b"///").is_none());
    assert!(MPath::from_elements(vec![]).is_none());
    assert!(MPath::from_elements(vec![b"a".to_vec(), vec![]]).is_none());
    assert!(MPath::from_elements(vec![b"a/b".to_vec()]).is_none());
    assert!(MPath::from_element(vec![]).is_none());
    assert!(MPath::from_element(b"a/".to_vec()).is_none());
}

#[test]
fn paths_are_built_from_elements() {
    let p = MPath::from_elements(vec![b"a".to_vec(), b"b".to_vec()]).unwrap();
    assert_eq!(p, MPath::new(b"a/b").unwrap());
    assert_ne!(p, MPath::new(b"a/c").unwrap());
    assert_ne!(p, MPath::new(b"a").unwrap());
    assert_ne!(p, MPath::new(b"a/b/c").unwrap());
    assert_eq!(MPath::from_element(b"a".to_vec()).unwrap(), MPath::new(b"a").unwrap());
    assert_eq!(p.duplicate(), p);
    assert_eq!(p.clone(), p);
    let c = MPathElement::new(b"c".to_vec()).unwrap();
    let joined = MPath::join_opt_element(Some(&p), &c);
    assert_eq!(joined, MPath::new(b"a/b/c").unwrap());
    assert_eq!(MPath::join_opt_element(None, &c), MPath::new(b"c").unwrap());
    assert_eq!(joined.take_prefix(0), None);
    assert_eq!(joined.take_prefix(4), None);
    assert_eq!(joined.take_prefix(1), MPath::new(b"a"));
    assert_eq!(joined.take_prefix(3), Some(joined.clone()));
}

#[test]
fn elements_are_not_empty_and_hold_no_separator() {
    assert!(is_valid_element(&b"a".to_vec()));
    assert!(is_valid_element(&vec![0, 255]));
    assert!(!is_valid_element(&vec![]));
    assert!(!is_valid_element(&b"a/b".to_vec()));
    assert!(MPathElement::new(b"a/b".to_vec()).is_none());
    let e = MPathElement::new(b"name".to_vec()).unwrap();
    assert_eq!(e.as_bytes(), &b"name".to_vec());
    assert_eq!(e.clone(), e);
    assert_ne!(e, MPathElement::new(b"Name".to_vec()).unwrap());
    assert!(bytes_eq(&vec![1, 2], &vec![1, 2]));
    assert!(!bytes_eq(&vec![1, 2], &vec![1, 3]));
    assert!(!bytes_eq(&vec![1, 2], &vec![1]));
    assert_eq!(bytes_clone(&vec![1, 2, 3]), vec![1, 2, 3]);
}

#[test]
fn history_key_names_a_file() {
    let key = Key { path: b"dir/file".to_vec(), hgid: [7; 20] };
    let (node, path) = single_key_history(&key).unwrap();
    assert_eq!(node, HgFileNodeId::new(HgNodeHash::new([7; 20])));
    assert_eq!(path, MPath::new(b"dir/file").unwrap());
    let bad = Key { path: b"".to_vec(), hgid: [7; 20] };
    assert_eq!(single_key_history(&bad), Err(HistoryError::BadRequest));
}

#[test]
fn history_errors_have_their_status() {
    assert_eq!(HistoryError::BadRequest.status_code(), 400);
    assert_eq!(HistoryError::NotFound.status_code(), 404);
    assert_eq!(HistoryError::Internal.status_code(), 500);
    assert_eq!(file_or_not_found(Some(1)), Ok(1));
    assert_eq!(file_or_not_found::<u8>(None), Err(HistoryError::NotFound));
    assert_eq!(HistoryParams::new("repo".to_string()).repo(), "repo");
}
