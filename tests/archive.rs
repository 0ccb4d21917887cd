use ulc::archive::{get_data_offset, get_lookup_table, Archive};

#[test]
fn test_get_lookup_table() {
    let mut ar = Archive::new(Option::None).unwrap();
    ar.insert("loli".to_string(), vec![1, 2, 3, 4]);
    ar.insert("a-kun".to_string(), vec![1, 2, 3, 4, 5, 6, 7]);
    let bytes = ar.to_bytes();
    get_lookup_table(bytes.as_ref()).unwrap();
}

fn round_trip(data: &[(String, Vec<u8>)]) {
    let mut ar = Archive::new(Option::None).unwrap();
    for &(ref name, ref content) in data.iter() {
        ar.insert(name.clone(), content.clone());
    }
    for &(ref name, ref content) in data.iter() {
        let x = ar.get(name).unwrap();
        assert!(x == content);
    }
    let ar = Archive::new(Option::Some(ar.to_bytes().as_ref())).unwrap();
    for &(ref name, ref content) in data.iter() {
        let x = ar.get(name).unwrap();
        assert!(x == content);
    }
}

#[test]
fn test_archive() {
    round_trip(&[
        ("File A".to_string(), vec![0x23, 0x3a, 0x00, 0x1f, 0x88]),
        ("File B".to_string(), vec![]),
        ("File C".to_string(), vec![0x00, 0x00]),
        ("File D".to_string(), vec![0x22, 0x23, 0x24, 0x25, 0x26]),
    ]);
    round_trip(&[]);
}

#[test]
fn lookup_table_lists_offsets_and_lengths() {
    let mut ar = Archive::new(None).unwrap();
    ar.insert("x".to_string(), vec![1, 2, 3]);
    ar.insert("yy".to_string(), vec![4]);
    let bytes = ar.to_bytes();
    let t = get_lookup_table(&bytes).unwrap();
    assert_eq!(t, vec![("x".to_string(), 0, 3), ("yy".to_string(), 3, 1)]);
    let doff = get_data_offset(&bytes).unwrap() as usize;
    assert_eq!(&bytes[doff..], &[1, 2, 3, 4]);
}

#[test]
fn insert_replaces_in_place() {
    let mut ar = Archive::new(None).unwrap();
    ar.insert("a".to_string(), vec![1]);
    ar.insert("b".to_string(), vec![2]);
    ar.insert("a".to_string(), vec![3, 3]);
    assert_eq!(ar.get("a").unwrap(), &vec![3, 3]);
    assert_eq!(ar.get("b").unwrap(), &vec![2]);
    assert!(ar.get("c").is_none());
    let t = get_lookup_table(&ar.to_bytes()).unwrap();
    assert_eq!(t[0].0, "a");
    assert_eq!(t.len(), 2);
}

#[test]
fn malformed_archives_are_rejected() {
    assert!(Archive::new(Some(&[1, 2, 3])).is_err());
    assert!(Archive::new(Some(&[200, 0, 0, 0, 0, 0, 0, 0, 1])).is_err());
    assert!(get_data_offset(&[0xff; 8]).is_err());
    let mut bytes = {
        let mut ar = Archive::new(None).unwrap();
        ar.insert("n".to_string(), vec![1, 2, 3, 4]);
        ar.to_bytes()
    };
    bytes.truncate(bytes.len() - 1);
    assert!(Archive::new(Some(&bytes)).is_err());
}
