use led_cube::decoders::{decode_base16, hex_digit, read_base16_frame, DecodeError, FRAME_DIGITS};

#[test]
fn decodes_one_mask_per_pair_of_digits() {
    let line = "ff00000000000000".repeat(8);
    // Pair k is row k % 8 of layer k / 8: row 0 of every layer is lit.
    let expected = [[0xffu8, 0, 0, 0, 0, 0, 0, 0]; 8];
    assert_eq!(read_base16_frame(&line), Ok(expected));
}

#[test]
fn decodes_layer_three_lit() {
    let mut line = String::new();
    for layer in 0..8 {
        line.push_str(if layer == 3 { "ffffffffffffffff" } else { "0000000000000000" });
    }
    let mut expected = [[0u8; 8]; 8];
    expected[3] = [0xff; 8];
    assert_eq!(read_base16_frame(&line), Ok(expected));
}

#[test]
fn decodes_high_digit_first_in_either_case() {
    let mut line = String::from("0123456789abcdefABCDEF");
    while line.len() < 128 {
        line.push('0');
    }
    let mut expected = [[0u8; 8]; 8];
    expected[0] = [0x01, 0x23, 0x45, 0x67, 0x89, 0xab, 0xcd, 0xef];
    expected[1][0] = 0xab;
    expected[1][1] = 0xcd;
    expected[1][2] = 0xef;
    assert_eq!(read_base16_frame(&line), Ok(expected));
    assert_eq!(decode_base16(line.as_bytes()), Ok(expected));
}

#[test]
fn every_mask_has_its_place() {
    let mut line = String::new();
    for k in 0..64 {
        line.push_str(&format!("{:02x}", 255 - 3 * k));
    }
    let f = match read_base16_frame(&line) {
        Ok(f) => f,
        Err(e) => panic!("unexpected {:?}", e),
    };
    for k in 0..64usize {
        assert_eq!(f[k / 8][k % 8], (255 - 3 * k) as u8);
    }
}

#[test]
fn rejects_a_wrong_length() {
    assert_eq!(FRAME_DIGITS, 128);
    assert_eq!(read_base16_frame(""), Err(DecodeError::WrongLength { found: 0 }));
    assert_eq!(
        read_base16_frame(&"0".repeat(127)),
        Err(DecodeError::WrongLength { found: 127 })
    );
    assert_eq!(
        read_base16_frame(&"0".repeat(129)),
        Err(DecodeError::WrongLength { found: 129 })
    );
    let with_newline = format!("{}\n", "0".repeat(128));
    assert_eq!(read_base16_frame(&with_newline), Err(DecodeError::WrongLength { found: 129 }));
}

#[test]
fn rejects_the_first_bad_digit() {
    let mut line: Vec<u8> = "a".repeat(128).into_bytes();
    line[77] = b'g';
    line[100] = b' ';
    assert_eq!(decode_base16(&line), Err(DecodeError::BadDigit { position: 77 }));
    line[0] = b'/';
    assert_eq!(decode_base16(&line), Err(DecodeError::BadDigit { position: 0 }));
    let mut last: Vec<u8> = "0".repeat(128).into_bytes();
    last[127] = b':';
    assert_eq!(decode_base16(&last), Err(DecodeError::BadDigit { position: 127 }));
    // 64 two-byte letters make 128 bytes, none of them a digit.
    assert_eq!(
        read_base16_frame(&"\u{e9}".repeat(64)),
        Err(DecodeError::BadDigit { position: 0 })
    );
}

#[test]
fn hex_digits() {
    assert_eq!(hex_digit(b'0'), Some(0));
    assert_eq!(hex_digit(b'9'), Some(9));
    assert_eq!(hex_digit(b'a'), Some(10));
    assert_eq!(hex_digit(b'f'), Some(15));
    assert_eq!(hex_digit(b'A'), Some(10));
    assert_eq!(hex_digit(b'F'), Some(15));
    for c in [b'/', b':', b'@', b'G', b'`', b'g', b' ', 0, 255] {
        assert_eq!(hex_digit(c), None);
    }
}
