use freminal::byte_buffer::calc_line_ranges;

#[test]
fn test_larger_buffer() {
    let buffer = [
        32, 32, 32, 32, 32, 32, 32, 32, 32, 32, 32, 32, 32, 32, 32, 32, 32, 32, 32, 32, 32, 46,
        46, 39, 32, 32, 32, 32, 32, 32, 32, 32, 32, 32, 102, 114, 101, 100, 64, 106, 111, 101,
        45, 115, 45, 83, 50, 51, 45, 85, 108, 116, 114, 97, 10, 32, 32, 32, 32, 32, 32, 32, 32,
        32, 32, 32, 32, 32, 32, 32, 32, 32, 44, 120, 78, 77, 77, 46, 32, 32, 32, 32, 32, 32,
        32, 32, 32, 32, 32, 45, 45, 45, 45, 45, 45, 45, 45, 45, 45, 45, 45, 45, 45, 45, 45, 45,
        45, 45, 45, 10, 32, 32, 32, 32, 32, 32, 32, 32, 32, 32, 32, 32, 32, 32, 32, 46, 79, 77,
        77, 77, 77, 111, 32, 32, 32, 32, 32, 32, 32, 32, 32, 32, 32, 32, 79, 83, 58, 32, 109,
        97, 99, 79, 83, 32, 83, 101, 113, 117, 111, 105, 97, 32, 49, 53, 46, 49, 32, 97, 114,
        109, 54, 52, 10, 32, 32, 32, 32, 32, 32, 32, 32, 32, 32, 32, 32, 32, 32, 32, 108, 77,
        77, 34, 32, 32, 32, 32, 32, 32, 32, 32, 32, 32, 32, 32, 32, 32, 32, 72, 111, 115, 116,
        58, 32, 77, 97, 99, 66, 111, 111, 107, 32, 80, 114, 111, 32, 40, 49, 52, 45, 105, 110,
        99, 104, 44, 32, 78, 111, 118, 32, 50, 48, 50, 51, 44, 32, 84, 104, 114, 101, 101, 32,
        84, 104, 117, 110, 100, 101, 114, 98, 111, 108, 116, 32, 52, 32, 112, 111, 114, 116,
        115, 41, 10, 32, 32, 32, 32, 32, 46, 59, 108, 111, 100, 100, 111, 58, 46, 32, 32, 46,
        111, 108, 108, 111, 100, 100, 111, 108, 59, 46, 32, 32, 32, 32, 32, 32, 32, 75, 101,
        114, 110, 101, 108, 58, 32, 68, 97, 114, 119, 105, 110, 32, 50, 52, 46, 49, 46, 48, 10,
        32, 32, 32, 99, 75, 77, 77, 77, 77, 77, 77, 77, 77, 77, 77, 78, 87, 77, 77, 77, 77, 77,
        77, 77, 77, 77, 77, 48, 58, 32, 32, 32, 32, 32, 85, 112, 116, 105, 109, 101, 58, 32,
        53, 32, 100, 97, 121, 115, 44, 32, 57, 32, 104, 111, 117, 114, 115, 44, 32, 54, 32,
        109, 105, 110, 115, 10, 32, 46, 75, 77, 77, 77, 77, 77, 77, 77, 77, 77, 77, 77, 77, 77,
        77, 77, 77, 77, 77, 77, 77, 77, 77, 77, 87, 100, 46, 32, 32, 32, 32, 32, 66, 97, 116,
        116, 101, 114, 121, 32, 40, 98, 113, 52, 48, 122, 54, 53, 49, 41, 58, 32, 49, 48, 48,
        37, 32, 91, 65, 67, 32, 99, 111, 110, 110, 101, 99, 116, 101, 100, 93, 10, 32, 88, 77,
        77, 77, 77, 77, 77, 77, 77, 77, 77, 77, 77, 77, 77, 77, 77, 77, 77, 77, 77, 77, 77, 77,
        88, 46, 10, 59, 77, 77, 77, 77, 77, 77, 77, 77, 77, 77, 77, 77, 77, 77, 77, 77, 77, 77,
        77, 77, 77, 77, 77, 77, 58, 32, 32, 32, 32, 32, 32, 32, 32, 80, 97, 99, 107, 97, 103,
        101, 115, 58, 32, 49, 57, 55, 32, 40, 98, 114, 101, 119, 41, 44, 32, 51, 48, 32, 40,
        98, 114, 101, 119, 45, 99, 97, 115, 107, 41, 10, 58, 77, 77, 77, 77, 77, 77, 77, 77,
        77, 77, 77, 77, 77, 77, 77, 77, 77, 77, 77, 77, 77, 77, 77, 77, 58, 32, 32, 32, 32, 32,
        32, 32, 32, 83, 104, 101, 108, 108, 58, 32, 122, 115, 104, 32, 53, 46, 57, 10, 46, 77,
        77, 77, 77, 77, 77, 77, 77, 77, 77, 77, 77, 77, 77, 77, 77, 77, 77, 77, 77, 77, 77, 77,
        77, 88, 46, 32, 32, 32, 32, 32, 32, 32, 68, 105, 115, 112, 108, 97, 121, 32, 40, 67,
        111, 108, 111, 114, 32, 76, 67, 68, 41, 58, 32, 51, 48, 50, 52, 120, 49, 57, 54, 52,
        32, 64, 32, 49, 50, 48, 32, 72, 122, 32, 40, 97, 115, 32, 49, 53, 49, 50, 120, 57, 56,
        50, 41, 32, 105, 110, 32, 49, 52, 226, 128, 179, 32, 91, 66, 117, 105, 108, 116, 45,
        105, 110, 93, 10, 32, 107, 77, 77, 77, 77, 77, 77, 77, 77, 77, 77, 77, 77, 77, 77, 77,
        77, 77, 77, 77, 77, 77, 77, 77, 77, 87, 100, 46, 32, 32, 32, 32, 32, 84, 101, 114, 109,
        105, 110, 97, 108, 58, 32, 102, 114, 101, 109, 105, 110, 97, 108, 10, 32, 39, 88, 77,
        77, 77, 77, 77, 77, 77, 77, 77, 77, 77, 77, 77, 77, 77, 77, 77, 77, 77, 77, 77, 77, 77,
        77, 77, 77, 107, 10, 32, 32, 39, 88, 77, 77, 77, 77, 77, 77, 77, 77, 77, 77, 77, 77,
        77, 77, 77, 77, 77, 77, 77, 77, 77, 77, 77, 77, 75, 46, 32, 32, 32, 32, 67, 80, 85, 58,
        32, 65, 112, 112, 108, 101, 32, 77, 51, 32, 77, 97, 120, 32, 40, 49, 52, 41, 32, 64,
        32, 52, 46, 48, 54, 32, 71, 72, 122, 10, 32, 32, 32, 32, 107, 77, 77, 77, 77, 77, 77,
        77, 77, 77, 77, 77, 77, 77, 77, 77, 77, 77, 77, 77, 77, 77, 77, 100, 32, 32, 32, 32,
        32, 32, 71, 80, 85, 58, 32, 65, 112, 112, 108, 101, 32, 77, 51, 32, 77, 97, 120, 32,
        40, 51, 48, 41, 32, 64, 32, 49, 46, 51, 56, 32, 71, 72, 122, 32, 91, 73, 110, 116, 101,
        103, 114, 97, 116, 101, 100, 93, 10, 32, 32, 32, 32, 32, 59, 75, 77, 77, 77, 77, 77,
        77, 77, 87, 88, 88, 87, 77, 77, 77, 77, 77, 77, 77, 107, 46, 32, 32, 32, 32, 32, 32,
        32, 77, 101, 109, 111, 114, 121, 58, 32, 50, 50, 46, 49, 54, 32, 71, 105, 66, 32, 47,
        32, 51, 54, 46, 48, 48, 32, 71, 105, 66, 32, 40, 54, 50, 37, 41, 10, 32, 32, 32, 32,
        32, 32, 32, 34, 99, 111, 111, 99, 42, 34, 32, 32, 32, 32, 34, 42, 99, 111, 111, 39, 34,
        10, 32, 32, 32, 32, 32, 32, 32, 32, 32, 32, 32, 32, 32, 32, 32, 32, 32, 32, 32, 32, 32,
        32, 32, 32, 32, 32, 32, 32, 32, 32, 32, 32, 32, 32, 32, 32, 32, 32, 32, 32, 32, 32, 32,
        32, 32, 32, 32, 32, 32, 32, 32, 32, 32, 32, 32, 32, 32, 32, 10, 32, 32, 32, 32, 32, 32,
        32, 32, 32, 32, 32, 32, 32, 32, 32, 32, 32, 32, 32, 32, 32, 32, 32, 32, 32, 32, 32, 32,
        32, 32, 32, 32, 32, 32, 32, 32, 32, 32, 32, 32, 32, 32, 32, 32, 32, 32, 32, 32, 32, 32,
        32, 32, 32, 32, 32, 32, 32, 32, 10, 238, 130, 176, 32, 102, 114, 101, 100, 64, 106,
        111, 101, 45, 115, 45, 83, 50, 51, 45, 85, 108, 116, 114, 97, 32, 238, 130, 176, 32,
        238, 172, 134, 32, 238, 130, 177, 32, 239, 132, 149, 32, 238, 130, 177, 32, 102, 114,
        101, 109, 105, 110, 97, 108, 32, 238, 130, 176, 32, 238, 130, 160, 109, 97, 105, 110,
        32, 238, 130, 176, 32, 32, 32, 32, 32, 32, 32, 32, 32, 32, 32, 32, 32, 32, 32, 32, 32,
        32, 32, 32, 32, 32, 32, 32, 32, 32, 32, 32, 32, 32, 32, 32, 32, 32, 32, 32, 32, 32, 32,
        32, 32, 32, 32, 32, 32, 32, 32, 32, 32, 32, 32, 32, 32, 32, 32, 32, 32, 32, 32, 32, 32,
        32, 32, 32, 32, 32, 32, 32, 32, 32, 32, 32, 32, 32, 32, 32, 32, 32, 32, 32, 32, 32, 32,
        32, 32, 32, 32, 32, 32, 32, 32, 32, 32, 32, 32, 32, 32, 32, 32, 32, 32, 32, 32, 32, 32,
        32, 32, 32, 32, 32, 32, 32, 32, 32, 32, 32, 32, 32, 32, 32, 32, 32, 32, 32, 32, 32, 32,
        32, 32, 32, 32, 32, 32, 32, 32, 32, 32, 32, 32, 32, 32, 32, 32, 10, 32, 32, 32, 32, 32,
        108, 108, 97, 175, 32, 32, 108, 108, 97, 122, 121, 103, 105, 116, 10,
    ] as [u8; 1404];

    let mut i: usize = 1380;

    for &byte in &buffer[1380..=1400] {
        println!("{i} {:?} \"{}\"", byte, String::from_utf8_lossy(&[byte]));
        i += 1;
    }

    println!("{:?}", &buffer[1380..1404]);

    assert!(std::str::from_utf8(&buffer[..1392]).is_ok());
    assert!(std::str::from_utf8(&buffer[..1393]).is_err());

    let ranges = calc_line_ranges(&buffer, 213);
    assert_eq!(
        ranges,
        [
            0..54,
            55..109,
            110..172,
            173..271,
            272..327,
            328..393,
            394..467,
            468..495,
            496..566,
            567..615,
            616..723,
            724..776,
            777..807,
            808..875,
            876..956,
            957..1026,
            1027..1052,
            1053..1111,
            1112..1170,
            1171..1383,
            1384..1403
        ]
    );

}

#[test]
fn test_line_ranges_with_utf8() {
    let ranges = calc_line_ranges("😀😀😀\n😀".as_bytes(), 2);
    assert_eq!(ranges, [0..8, 8..12, 13..17]);
}

#[test]
fn byte_lines_break_at_newlines_and_width() {
    let ranges = calc_line_ranges(b"12\n1234\n123456", 4);
    assert_eq!(ranges, [0..2, 3..7, 8..12, 12..14]);
    let ranges = calc_line_ranges(b"", 4);
    assert!(ranges.is_empty());
    let ranges = calc_line_ranges(b"\n\n", 4);
    assert_eq!(ranges, [0..0, 1..1]);
}

#[test]
fn byte_lines_do_not_split_inside_a_character() {
    let text = "a\u{e9}b";
    let ranges = calc_line_ranges(text.as_bytes(), 1);
    assert_eq!(ranges, [0..1, 1..3, 3..4]);
    let ranges = calc_line_ranges(&[0xff, 0xfe, 0xfd], 1);
    assert_eq!(ranges, [0..3]);
}
