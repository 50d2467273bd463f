use respkv::numbers::{i64_to_dec, parse_i64, u64_to_dec};
use respkv::protocol::{decode, RESPError, RespValueRef};

#[test]
fn test_decode_simple_string() {
    assert_eq!(
        decode("+hello\r\n"),
        Ok(Some(RespValueRef::String("hello".to_string())))
    );
}

#[test]
fn test_decode_failure() {
    assert_eq!(
        decode("-oops\r\n"),
        Ok(Some(RespValueRef::Failure("oops".to_string())))
    );
}

#[test]
fn test_decode_int() {
    assert_eq!(decode(":-42\r\n"), Ok(Some(RespValueRef::Int(-42))));
    assert_eq!(decode(":+7\r\n"), Ok(Some(RespValueRef::Int(7))));
}

#[test]
fn test_decode_bulk_string() {
    assert_eq!(
        decode("$3\r\nabc\r\n"),
        Ok(Some(RespValueRef::BulkString("abc".to_string())))
    );
}

#[test]
fn test_decode_bulk_string_with_line_breaks_inside() {
    assert_eq!(
        decode("$4\r\na\r\nb\r\n"),
        Ok(Some(RespValueRef::BulkString("a\r\nb".to_string())))
    );
}

#[test]
fn test_decode_nulls() {
    assert_eq!(decode("$-1\r\n"), Ok(Some(RespValueRef::NullBulkString)));
    assert_eq!(decode("*-1\r\n"), Ok(Some(RespValueRef::NullArray)));
}

#[test]
fn test_decode_array() {
    assert_eq!(
        decode("*2\r\n$3\r\nGET\r\n$1\r\nx\r\n"),
        Ok(Some(RespValueRef::Array(vec![
            RespValueRef::BulkString("GET".to_string()),
            RespValueRef::BulkString("x".to_string()),
        ])))
    );
}

#[test]
fn test_decode_errors() {
    assert_eq!(decode("?x\r\n"), Err(RESPError::UnknownStartingByte));
    assert_eq!(decode(":abc\r\n"), Err(RESPError::IntParseFailure));
    assert_eq!(decode("$-2\r\n"), Err(RESPError::BadBulkStringSize(-2)));
    assert_eq!(decode("*-3\r\n"), Err(RESPError::BadArraySize(-3)));
}

#[test]
fn test_decode_incomplete() {
    assert_eq!(decode(""), Ok(None));
    assert_eq!(decode("+abc"), Ok(None));
    assert_eq!(decode("+abc\r"), Ok(None));
    assert_eq!(decode("$3\r\nab"), Ok(None));
    assert_eq!(decode("*2\r\n$3\r\nGET\r\n"), Ok(None));
}

#[test]
fn test_encode_each_shape() {
    assert_eq!(
        RespValueRef::String("OK".to_string()).write_resp_value(),
        "+OK\r\n"
    );
    assert_eq!(
        RespValueRef::Failure("bad".to_string()).write_resp_value(),
        "-bad\r\n"
    );
    assert_eq!(RespValueRef::Int(-42).write_resp_value(), ":-42\r\n");
    assert_eq!(
        RespValueRef::BulkString("abc".to_string()).write_resp_value(),
        "$3\r\nabc\r\n"
    );
    assert_eq!(RespValueRef::NullArray.write_resp_value(), "*-1\r\n");
    assert_eq!(RespValueRef::NullBulkString.write_resp_value(), "$-1\r\n");
    assert_eq!(
        RespValueRef::Array(vec![
            RespValueRef::BulkString("SET".to_string()),
            RespValueRef::Int(5),
        ])
        .write_resp_value(),
        "*2\r\n$3\r\nSET\r\n:5\r\n"
    );
}

#[test]
fn test_round_trip_concrete() {
    let values = vec![
        RespValueRef::String("ping".to_string()),
        RespValueRef::Failure("wrongtype".to_string()),
        RespValueRef::Int(i64::MIN),
        RespValueRef::BulkString(String::new()),
        RespValueRef::NullArray,
        RespValueRef::NullBulkString,
        RespValueRef::Array(vec![
            RespValueRef::Int(1),
            RespValueRef::Array(vec![RespValueRef::BulkString("x".to_string())]),
            RespValueRef::NullBulkString,
        ]),
    ];
    for v in values {
        let encoded = v.write_resp_value();
        assert_eq!(decode(&encoded), Ok(Some(v)));
    }
}

#[test]
fn test_incremental_decode_prefixes() {
    let full = "*3\r\n$3\r\nSET\r\n$1\r\nx\r\n$3\r\nabc\r\n";
    for k in 0..full.len() {
        assert_eq!(decode(&full[..k]), Ok(None), "prefix of length {}", k);
    }
    assert!(matches!(decode(full), Ok(Some(_))));
}

#[test]
fn test_parse_i64_accepts() {
    assert_eq!(parse_i64("0"), Some(0));
    assert_eq!(parse_i64("-42"), Some(-42));
    assert_eq!(parse_i64("+42"), Some(42));
    assert_eq!(parse_i64("9223372036854775807"), Some(i64::MAX));
    assert_eq!(parse_i64("-9223372036854775808"), Some(i64::MIN));
    assert_eq!(parse_i64("007"), Some(7));
}

#[test]
fn test_parse_i64_rejects() {
    assert_eq!(parse_i64(""), None);
    assert_eq!(parse_i64("-"), None);
    assert_eq!(parse_i64("+"), None);
    assert_eq!(parse_i64("1a"), None);
    assert_eq!(parse_i64(" 1"), None);
    assert_eq!(parse_i64("9223372036854775808"), None);
    assert_eq!(parse_i64("-9223372036854775809"), None);
    assert_eq!(parse_i64("99999999999999999999999999"), None);
}

#[test]
fn test_int_printing() {
    assert_eq!(u64_to_dec(0), "0");
    assert_eq!(u64_to_dec(907), "907");
    assert_eq!(i64_to_dec(-1), "-1");
    assert_eq!(i64_to_dec(i64::MIN), "-9223372036854775808");
    assert_eq!(i64_to_dec(i64::MAX), "9223372036854775807");
}

#[test]
fn test_decode_takes_first_value_only() {
    assert_eq!(
        decode("+a\r\n+b\r\n"),
        Ok(Some(RespValueRef::String("a".to_string())))
    );
}

#[test]
fn test_decode_simple_strings_in_array() {
    assert_eq!(
        decode("*2\r\n+GET\r\n+x\r\n"),
        Ok(Some(RespValueRef::Array(vec![
            RespValueRef::String("GET".to_string()),
            RespValueRef::String("x".to_string()),
        ])))
    );
}
