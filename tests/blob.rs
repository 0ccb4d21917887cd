use ulc::blob::{pack, packet, unpack};

fn segments() -> Vec<Vec<u8>> {
    vec![
        vec![1, 2, 3],
        vec![4],
        vec![5],
        vec![6],
        vec![],
        vec![7, 8, 9, 10],
        vec![],
        vec![],
        vec![11],
    ]
}

#[test]
fn test_blob_segments() {
    let m = segments();
    let n = unpack(&pack(&m)).unwrap();
    assert!(m.len() == n.len());
    for i in m.iter().zip(n.iter()) {
        assert!(i.0 == i.1);
    }

    let m: Vec<Vec<u8>> = segments();
    let n = unpack(&pack(&m)).unwrap();
    assert!(m.len() == n.len());
    for i in m.iter().zip(n.iter()) {
        assert!(i.0 == i.1);
    }

    let m: Vec<Vec<u8>> = vec![];
    let n = unpack(&pack(&m)).unwrap();
    assert!(m.len() == n.len());
    for i in m.iter().zip(n.iter()) {
        assert!(i.0 == i.1);
    }
}

#[test]
fn packet_prefixes_length() {
    assert_eq!(packet(&[9, 8]), vec![2, 0, 0, 0, 0, 0, 0, 0, 9, 8]);
    assert_eq!(packet(&[]), vec![0; 8]);
}

#[test]
fn unpack_rejects_truncated_blobs() {
    assert!(unpack(&[1, 0, 0]).is_err());
    assert!(unpack(&[5, 0, 0, 0, 0, 0, 0, 0, 1, 2]).is_err());
    assert_eq!(unpack(&[]).unwrap().len(), 0);
}
