use tinytools::tail::TakeValue::{PlusZero, TakeNum};
use tinytools::tail::{count_lines_bytes, get_start_index, parse_num};

#[test]
fn test_parse_num() {
    // All integers should be interpreted as negative numbers
    let res = parse_num("3");
    assert!(res.is_ok());
    assert_eq!(res.unwrap(), TakeNum(-3));
    // A leading "+" should result in a positive number
    let res = parse_num("+3");
    assert!(res.is_ok());
    assert_eq!(res.unwrap(), TakeNum(3));
    // An explicit "-" value should result in a negative number
    let res = parse_num("-3");
    assert!(res.is_ok());
    assert_eq!(res.unwrap(), TakeNum(-3));
    // Zero is zero
    let res = parse_num("0");
    assert!(res.is_ok());
    assert_eq!(res.unwrap(), TakeNum(0));
    // Plus zero is special
    let res = parse_num("+0");
    assert!(res.is_ok());
    assert_eq!(res.unwrap(), PlusZero);
    // Test boundaries
    let res = parse_num(&i64::MAX.to_string());
    assert!(res.is_ok());
    assert_eq!(res.unwrap(), TakeNum(i64::MIN + 1));
    let res = parse_num(&(i64::MIN + 1).to_string());
    assert!(res.is_ok());
    assert_eq!(res.unwrap(), TakeNum(i64::MIN + 1));
    let res = parse_num(&format!("+{}", i64::MAX));
    assert!(res.is_ok());
    assert_eq!(res.unwrap(), TakeNum(i64::MAX));
    let res = parse_num(&i64::MIN.to_string());
    assert!(res.is_ok());
    assert_eq!(res.unwrap(), TakeNum(i64::MIN));
    // A floating-point value is invalid
    let res = parse_num("3.14");
    assert!(res.is_err());
    assert_eq!(res.unwrap_err(), "3.14");
    // Any noninteger string is invalid
    let res = parse_num("foo");
    assert!(res.is_err());
    assert_eq!(res.unwrap_err(), "foo");
}

#[test]
fn test_get_start_index() {
    // +0 from an empty file (0 lines/bytes) returns None
    assert_eq!(get_start_index(&PlusZero, 0), None);
    // +0 from a nonempty file returns an index that
    // is one less than the number of lines/bytes
    assert_eq!(get_start_index(&PlusZero, 1), Some(0));
    // Taking 0 lines/bytes returns None
    assert_eq!(get_start_index(&TakeNum(0), 1), None);
    // Taking any lines/bytes from an empty file returns None
    assert_eq!(get_start_index(&TakeNum(1), 0), None);
    // Taking more lines/bytes than is available returns None
    assert_eq!(get_start_index(&TakeNum(2), 1), None);
    // When starting line/byte is less than total lines/bytes,
    // return one less than starting number
    assert_eq!(get_start_index(&TakeNum(1), 10), Some(0));
    assert_eq!(get_start_index(&TakeNum(2), 10), Some(1));
    assert_eq!(get_start_index(&TakeNum(3), 10), Some(2));
    // When starting line/byte is negative and less than total,
    // return total - start
    assert_eq!(get_start_index(&TakeNum(-1), 10), Some(9));
    assert_eq!(get_start_index(&TakeNum(-2), 10), Some(8));
    assert_eq!(get_start_index(&TakeNum(-3), 10), Some(7));
    // When starting line/byte is negative and more than total,
    // return 0 to print the whole file
    assert_eq!(get_start_index(&TakeNum(-20), 10), Some(0));
}

#[test]
fn test_count_lines_bytes_content() {
    assert_eq!(count_lines_bytes(""), (0, 0));
    assert_eq!(count_lines_bytes("a\nb\nc\n"), (3, 6));
    // A trailing fragment without a newline still counts as a line.
    assert_eq!(count_lines_bytes("a\nb"), (2, 3));
    // Bytes are encoded bytes, not characters.
    assert_eq!(count_lines_bytes("á\n"), (1, 3));
}
