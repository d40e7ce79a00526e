use tar_no_std::ParseNumberError;
use tar_no_std::TarFormatNumber;
use tar_no_std::TarFormatOctal;
use tar_no_std::TarFormatString;
use core::mem::size_of_val;

#[test]
fn test_empty_string() {
    let empty = TarFormatString::new([0]);
    assert_eq!(size_of_val(&empty), 1);
    assert!(empty.is_empty());
    assert_eq!(empty.size(), 0);
    assert_eq!(empty.as_str(), Ok(""));
}

#[test]
fn test_one_byte_string() {
    let s = TarFormatString::new([b'A']);
    assert_eq!(size_of_val(&s), 1);
    assert!(!s.is_empty());
    assert_eq!(s.size(), 1);
    assert_eq!(s.as_str(), Ok("A"));
}

#[test]
fn test_two_byte_string_nul_terminated() {
    let s = TarFormatString::new([b'A', 0, b'B']);
    assert_eq!(size_of_val(&s), 3);
    assert!(!s.is_empty());
    assert_eq!(s.size(), 1);
    assert_eq!(s.as_str(), Ok("A"));
}

#[test]
fn test_str_until_first_space() {
    let s = TarFormatString::new([b'A', b'B', b' ', b'X', 0]);
    assert_eq!(size_of_val(&s), 5);
    assert!(!s.is_empty());
    assert_eq!(s.size(), 4);
    assert_eq!(s.as_str(), Ok("AB X"));
    assert_eq!(s.as_str_until_first_space(), Ok("AB"));
}

#[test]
fn test_append() {
    let mut s = TarFormatString::new([0; 20]);

    // When adding a zero terminated string with one byte of zero
    s.append(&TarFormatString::new([0]));
    // Then the result is no change
    assert_eq!(size_of_val(&s), 20);
    assert!(s.is_empty());
    assert_eq!(s.size(), 0);
    assert_eq!(s.as_str(), Ok(""));

    // When adding ABC
    s.append(&TarFormatString::new([b'A', b'B', b'C']));
    // Then the string contains the additional 3 chars
    assert_eq!(size_of_val(&s), 20);
    assert!(!s.is_empty());
    assert_eq!(s.size(), 3);
    assert_eq!(s.as_str(), Ok("ABC"));

    s.append(&TarFormatString::new([b'D', b'E', b'F']));
    // Then the string contains the additional 3 chars
    assert_eq!(size_of_val(&s), 20);
    assert!(!s.is_empty());
    assert_eq!(s.size(), 6);
    assert_eq!(s.as_str(), Ok("ABCDEF"));

    s.append(&TarFormatString::new([b'A'; 12]));
    // Then the string contains the additional 12 chars
    assert_eq!(size_of_val(&s), 20);
    assert!(!s.is_empty());
    assert_eq!(s.size(), 18);
    assert_eq!(s.as_str(), Ok("ABCDEFAAAAAAAAAAAA"));

    s.append(&TarFormatString::new([b'A'; 1]));
    // Then the string contains the additional 1 chars
    assert_eq!(size_of_val(&s), 20);
    assert!(!s.is_empty());
    assert_eq!(s.size(), 19);
    assert_eq!(s.as_str(), Ok("ABCDEFAAAAAAAAAAAAA"));

    s.append(&TarFormatString::new([b'Z'; 1]));
    // Then the string contains the additional 1 char, is full and not null terminated
    assert_eq!(size_of_val(&s), 20);
    assert!(!s.is_empty());
    assert_eq!(s.size(), 20);
    assert_eq!(s.as_str(), Ok("ABCDEFAAAAAAAAAAAAAZ"));
}

#[test]
fn test_as_number_with_space_in_string() {
    let str = [b'0', b'1', b'0', b' ', 0];
    let str = TarFormatNumber::<5, 10>::new(str);
    assert_eq!(str.as_number(), Ok(10));
}

#[test]
fn fixed_len_string_test_empty_string() {
    let empty = TarFormatString::new([0]);
    assert_eq!(size_of_val(&empty), 1);
    assert!(empty.is_empty());
    assert_eq!(empty.size(), 0);
    assert!(empty.is_nul_terminated());
    assert_eq!(empty.as_str(), Ok(""));
}

#[test]
fn fixed_len_string_test_one_byte_string() {
    let s = TarFormatString::new([65]);
    assert_eq!(size_of_val(&s), 1);
    assert!(!s.is_empty());
    assert_eq!(s.size(), 1);
    assert!(!s.is_nul_terminated());
    assert_eq!(s.as_str(), Ok("A"));
}

#[test]
fn fixed_len_string_test_two_byte_string_nul_terminated() {
    let s = TarFormatString::new([65, 0]);
    assert_eq!(size_of_val(&s), 2);
    assert!(!s.is_empty());
    assert_eq!(s.size(), 1);
    assert!(s.is_nul_terminated());
    assert_eq!(s.as_str(), Ok("A"));
}

#[test]
fn fixed_len_string_test_append() {
    let mut s = TarFormatString::new([0; 20]);

    // When adding a zero terminated string with one byte of zero
    s.append(&TarFormatString::new([0]));
    // Then the result is no change
    assert_eq!(size_of_val(&s), 20);
    assert!(s.is_empty());
    assert_eq!(s.size(), 0);
    assert!(s.is_nul_terminated());
    assert_eq!(s.as_str(), Ok(""));

    s.append(&TarFormatString::new([65, 66, 67]));
    assert_eq!(size_of_val(&s), 20);
    assert!(!s.is_empty());
    assert_eq!(s.size(), 3);
    assert!(s.is_nul_terminated());
    assert_eq!(s.as_str(), Ok("ABC"));

    s.append(&TarFormatString::new([68, 69, 70]));
    assert_eq!(size_of_val(&s), 20);
    assert!(!s.is_empty());
    assert_eq!(s.size(), 6);
    assert!(s.is_nul_terminated());
    assert_eq!(s.as_str(), Ok("ABCDEF"));

    assert_eq!(s.size() + 14, 20);

    s.append(&TarFormatString::new([b'A'; 12]));
    assert_eq!(size_of_val(&s), 20);
    assert!(!s.is_empty());
    assert_eq!(s.size(), 18);
    assert!(s.is_nul_terminated());
    assert_eq!(s.as_str(), Ok("ABCDEFAAAAAAAAAAAA"));

    s.append(&TarFormatString::new([b'A'; 1]));
    assert_eq!(size_of_val(&s), 20);
    assert!(!s.is_empty());
    assert_eq!(s.size(), 19);
    assert!(s.is_nul_terminated());
    assert_eq!(s.as_str(), Ok("ABCDEFAAAAAAAAAAAAA"));

    s.append(&TarFormatString::new([b'Z'; 1]));
    assert_eq!(size_of_val(&s), 20);
    assert!(!s.is_empty());
    assert_eq!(s.size(), 20);
    assert!(!s.is_nul_terminated());
    assert_eq!(s.as_str(), Ok("ABCDEFAAAAAAAAAAAAAZ"));
}

#[test]
fn test_as_number_plain_octal() {
    let n = TarFormatOctal::<12>::new(*b"00000001000\0");
    assert_eq!(n.as_number(), Ok(512));
}

#[test]
fn test_as_number_empty_field_is_an_error() {
    let n = TarFormatOctal::<12>::new([0; 12]);
    assert_eq!(n.as_number(), Err(ParseNumberError::Empty));
}

#[test]
fn test_as_number_invalid_digit() {
    let n = TarFormatOctal::<4>::new(*b"189\0");
    assert_eq!(n.as_number(), Err(ParseNumberError::InvalidDigit));
}

#[test]
fn test_as_number_leading_plus_sign() {
    let n = TarFormatOctal::<4>::new(*b"+10\0");
    assert_eq!(n.as_number(), Ok(8));
    let lone = TarFormatOctal::<2>::new(*b"+\0");
    assert_eq!(lone.as_number(), Err(ParseNumberError::InvalidDigit));
}

#[test]
fn test_as_number_overflow() {
    // 24 octal digits of 7 exceed a 64-bit usize
    let n = TarFormatOctal::<25>::new(*b"777777777777777777777777\0");
    assert_eq!(n.as_number(), Err(ParseNumberError::PosOverflow));
}

#[test]
fn test_as_number_non_utf8_is_an_error() {
    // a field whose text is not valid UTF-8 holds no digits: parse error
    let n = TarFormatOctal::<4>::new([0xFF, 0xFE, 0x31, 0]);
    assert_eq!(n.as_number(), Err(ParseNumberError::InvalidDigit));
}

#[test]
fn test_as_str_rejects_invalid_utf8() {
    let s = TarFormatString::new([0xFF, 0xC0, 0]);
    assert!(s.as_str().is_err());
    assert!(s.as_str_until_first_space().is_err());
}

#[test]
fn test_as_str_multibyte_utf8() {
    // "déjà" encoded in UTF-8, NUL-terminated
    let s = TarFormatString::new([0x64, 0xC3, 0xA9, 0x6A, 0xC3, 0xA0, 0]);
    assert_eq!(s.as_str(), Ok("d\u{e9}j\u{e0}"));
}

#[test]
fn test_number_as_inner() {
    let n = TarFormatNumber::<5, 10>::new([b'1', b'2', b' ', b'x', 0]);
    assert_eq!(n.as_inner().as_str(), Ok("12 x"));
    assert_eq!(n.as_number(), Ok(12));
}
