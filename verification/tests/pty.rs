use freminal::pty::recording_entry;

#[test]
fn recording_writes_each_byte_in_decimal_with_a_comma() {
    assert_eq!(recording_entry(b""), "");
    assert_eq!(recording_entry(&[0x1b, b'[', b'm']), "27,91,109,");
    assert_eq!(recording_entry(&[0, 255, 7]), "0,255,7,");
}

