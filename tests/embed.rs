use ulc::archive::{ArchiveHandle, SpanError};
use ulc::archive::Archive;
use ulc::arrays::ends_with;
use ulc::embed::{gen_embed_blob, offset_and_length, EmbedError};

#[test]
fn embedded_blob_round_trip() {
    let data = [1u8, 2, 3, 4, 5];
    let mut exe = b"ELF....".to_vec();
    exe.extend_from_slice(&gen_embed_blob(&data));
    assert_eq!(exe.len(), 7 + 5 + 8 + 16);
    let tail = &exe[exe.len() - 24..];
    let (off, len) = offset_and_length(tail).unwrap().unwrap();
    assert_eq!((off, len), (-29, 5));
    let start = (exe.len() as i64 + off) as usize;
    assert_eq!(&exe[start..start + len as usize], &data);
}

#[test]
fn no_embedded_blob() {
    assert_eq!(offset_and_length(&[0u8; 24]), Ok(None));
    assert_eq!(offset_and_length(&[0u8; 3]), Err(EmbedError::TooShort));
    let blob = gen_embed_blob(&[]);
    assert_eq!(offset_and_length(&blob[4..]), Err(EmbedError::BadLength));
}

#[test]
fn archive_handle_spans() {
    let mut ar = Archive::new(None).unwrap();
    ar.insert("A-Kun".to_string(), vec![0, 1, 2, 3]);
    ar.insert("B-Kun".to_string(), vec![0xff, 0xff]);
    let bytes = ar.to_bytes();
    let h = ArchiveHandle::new(&bytes, 100).unwrap();
    let doff = 100 + (bytes.len() as u64 - 6);
    assert_eq!(h.read("A-Kun", 0, 60), Ok(Some((doff, 4))));
    assert_eq!(h.read("B-Kun", 1, 60), Ok(Some((doff + 5, 1))));
    assert_eq!(h.read("B-Kun", 2, 60), Ok(Some((doff + 6, 0))));
    assert_eq!(h.read("B-Kun", 3, 60), Err(SpanError::OutOfBounds));
    assert_eq!(h.read("nobody", 0, 60), Ok(None));
    assert_eq!(h.overwrite("A-Kun", 2, 1), Ok(doff + 1));
    assert_eq!(h.overwrite("A-Kun", 5, 0), Err(SpanError::OutOfBounds));
    assert_eq!(h.overwrite("A-Kun", 1, 4), Err(SpanError::OutOfBounds));
    assert_eq!(h.overwrite("C", 1, 0), Err(SpanError::NotFound));
}

#[test]
fn suffix_check() {
    assert!(ends_with(b"hello!\n", b"\n"));
    assert!(!ends_with(b"hello!", b"\n"));
    assert!(ends_with(b"ab", b""));
    assert!(!ends_with(b"a", b"ab"));
    assert!(ends_with(b"\r\n.\r\n", b"\r\n.\r\n"));
}
