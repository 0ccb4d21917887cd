use ulc::debug::hex_dump;

#[test]
fn hex_dump_empty() {
    assert_eq!(hex_dump(&[]), "Length: 0\n");
}

#[test]
fn hex_dump_short_line() {
    assert_eq!(hex_dump(b"Hi\x00"), "Length: 3\n00000000:  48 69 00  |Hi.|\n");
}

#[test]
fn hex_dump_two_lines() {
    let data: Vec<u8> = (0x41u8..0x41 + 18).collect();
    let want = "Length: 18\n00000000:  41 42 43 44 45 46 47 48  49 4a 4b 4c 4d 4e 4f 50  |ABCDEFGHIJKLMNOP|\n00000010:  51 52  |QR|\n";
    assert_eq!(hex_dump(&data), want);
}

#[test]
fn hex_dump_unprintable_bytes() {
    assert_eq!(hex_dump(&[0x7f, 0x20, 0xff, 0x1f]), "Length: 4\n00000000:  7f 20 ff 1f  |. ..|\n");
}
