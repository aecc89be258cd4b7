use tinytools::cut::parse_delim;
use tinytools::extract::{extract_bytes, extract_chars, extract_fields};
use tinytools::ranges::{parse_pos, render_pos, ParseError};

#[test]
fn test_parse_pos() {
    // The empty string is an error
    assert!(parse_pos("").is_err());
    // Zero is an error
    let res = parse_pos("0");
    assert!(res.is_err());
    assert_eq!(res.unwrap_err().message(), "illegal list value: \"0\"",);
    let res = parse_pos("0-1");
    assert!(res.is_err());
    assert_eq!(res.unwrap_err().message(), "illegal list value: \"0\"",);
    // A leading "+" is an error
    let res = parse_pos("+1");
    assert!(res.is_err());
    assert_eq!(res.unwrap_err().message(), "illegal list value: \"+1\"",);
    let res = parse_pos("+1-2");
    assert!(res.is_err());
    assert_eq!(res.unwrap_err().message(), "illegal list value: \"+1-2\"",);
    let res = parse_pos("1-+2");
    assert!(res.is_err());
    assert_eq!(res.unwrap_err().message(), "illegal list value: \"1-+2\"",);
    // Any non-number is an error
    let res = parse_pos("a");
    assert!(res.is_err());
    assert_eq!(res.unwrap_err().message(), "illegal list value: \"a\"",);
    let res = parse_pos("1,a");
    assert!(res.is_err());
    assert_eq!(res.unwrap_err().message(), "illegal list value: \"a\"",);
    let res = parse_pos("1-a");
    assert!(res.is_err());
    assert_eq!(res.unwrap_err().message(), "illegal list value: \"1-a\"",);
    let res = parse_pos("a-1");
    assert!(res.is_err());
    assert_eq!(res.unwrap_err().message(), "illegal list value: \"a-1\"",);
    // Wonky ranges
    let res = parse_pos("-");
    assert!(res.is_err());
    let res = parse_pos(",");
    assert!(res.is_err());
    let res = parse_pos("1,");
    assert!(res.is_err());
    let res = parse_pos("1-");
    assert!(res.is_err());
    let res = parse_pos("1-1-1");
    assert!(res.is_err());
    let res = parse_pos("1-1-a");
    assert!(res.is_err());
    // First number must be less than second
    let res = parse_pos("1-1");
    assert!(res.is_err());
    assert_eq!(
        res.unwrap_err().message(),
        "First number in range (1) must be lower than second number (1)"
    );
    let res = parse_pos("2-1");
    assert!(res.is_err());
    assert_eq!(
        res.unwrap_err().message(),
        "First number in range (2) must be lower than second number (1)"
    );
    // All the following are acceptable
    let res = parse_pos("1");
    assert!(res.is_ok());
    assert_eq!(res.unwrap(), vec![0..1]);
    let res = parse_pos("01");
    assert!(res.is_ok());
    assert_eq!(res.unwrap(), vec![0..1]);
    let res = parse_pos("1,3");
    assert!(res.is_ok());
    assert_eq!(res.unwrap(), vec![0..1, 2..3]);
    let res = parse_pos("001,0003");
    assert!(res.is_ok());
    assert_eq!(res.unwrap(), vec![0..1, 2..3]);
    let res = parse_pos("1-3");
    assert!(res.is_ok());
    assert_eq!(res.unwrap(), vec![0..3]);
    let res = parse_pos("0001-03");
    assert!(res.is_ok());
    assert_eq!(res.unwrap(), vec![0..3]);
    let res = parse_pos("1,7,3-5");
    assert!(res.is_ok());
    assert_eq!(res.unwrap(), vec![0..1, 6..7, 2..5]);
    let res = parse_pos("15,19-20");
    assert!(res.is_ok());
    assert_eq!(res.unwrap(), vec![14..15, 18..20]);
}

#[test]
fn test_extract_chars() {
    assert_eq!(extract_chars("", &[0..1]), "".to_string());
    assert_eq!(extract_chars("ábc", &[0..1]), "á".to_string());
    assert_eq!(extract_chars("ábc", &[0..1, 2..3]), "ác".to_string());
    assert_eq!(extract_chars("ábc", &[0..3]), "ábc".to_string());
    assert_eq!(extract_chars("ábc", &[2..3, 1..2]), "cb".to_string());
    assert_eq!(extract_chars("ábc", &[0..1, 1..2, 4..5]), "áb".to_string());
}

#[test]
fn test_extract_bytes() {
    assert_eq!(extract_bytes("ábc", &[0..1]), "�".to_string());
    assert_eq!(extract_bytes("ábc", &[0..2]), "á".to_string());
    assert_eq!(extract_bytes("ábc", &[0..3]), "áb".to_string());
    assert_eq!(extract_bytes("ábc", &[0..4]), "ábc".to_string());
    assert_eq!(extract_bytes("ábc", &[3..4, 2..3]), "cb".to_string())
}

#[test]
fn test_empty_spec_message() {
    let res = parse_pos("");
    assert!(matches!(res, Err(ParseError::EmptySpec)));
    assert_eq!(parse_pos("").unwrap_err().message(), "empty range");
}

#[test]
fn test_render_round_trip() {
    let rl = parse_pos("1,7,3-5").unwrap();
    let rendered = render_pos(&rl);
    assert_eq!(rendered, "1,7,3-5");
    assert_eq!(parse_pos(&rendered).unwrap(), rl);
    // Leading zeros vanish in the canonical rendering, but the ranges stay.
    let rl = parse_pos("001,0003-04").unwrap();
    let rendered = render_pos(&rl);
    assert_eq!(rendered, "1,3-4");
    assert_eq!(parse_pos(&rendered).unwrap(), rl);
}

#[test]
fn test_range_count_matches_terms() {
    assert_eq!(parse_pos("1").unwrap().len(), 1);
    assert_eq!(parse_pos("1,2").unwrap().len(), 2);
    assert_eq!(parse_pos("1,2,3-9,12").unwrap().len(), 4);
    assert_eq!(parse_pos("5,5,5").unwrap().len(), 3);
}

#[test]
fn test_full_span_chars_identity() {
    assert_eq!(extract_chars("hello", &[0..5]), "hello".to_string());
    assert_eq!(extract_chars("ábc", &[0..3]), "ábc".to_string());
    assert_eq!(extract_chars("", &[0..0]), "".to_string());
}

#[test]
fn test_parse_delim() {
    assert_eq!(parse_delim("\t"), Ok(9));
    assert_eq!(parse_delim(","), Ok(b','));
    let res = parse_delim("ab");
    assert!(res.is_err());
    assert_eq!(res.unwrap_err(), "--delim \"ab\" must be a single byte");
    let res = parse_delim("");
    assert!(res.is_err());
    assert_eq!(res.unwrap_err(), "--delim \"\" must be a single byte");
}

#[test]
fn test_extract_fields() {
    let fields = vec!["a".to_string(), "b".to_string(), "c".to_string()];
    assert_eq!(extract_fields(&fields, &[0..1]), vec!["a".to_string()]);
    assert_eq!(
        extract_fields(&fields, &[0..2, 1..2]),
        vec!["a".to_string(), "b".to_string(), "b".to_string()]
    );
    assert_eq!(
        extract_fields(&fields, &[2..3, 0..1]),
        vec!["c".to_string(), "a".to_string()]
    );
    // A range reaching past the record contributes nothing.
    let none: Vec<String> = Vec::new();
    assert_eq!(extract_fields(&fields, &[2..4]), none);
    assert_eq!(
        extract_fields(&fields, &[0..1, 3..4]),
        vec!["a".to_string()]
    );
}
