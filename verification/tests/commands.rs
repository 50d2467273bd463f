use respkv::commands::{translate_array_to_command, verify_size, Command};
use respkv::protocol::RespValueRef;

fn bulk(s: &str) -> RespValueRef {
    RespValueRef::BulkString(s.to_string())
}

#[test]
fn test_translate_empty_array() {
    assert_eq!(
        translate_array_to_command(&[]),
        Err("Empty Array".to_string())
    );
}

#[test]
fn test_translate_get() {
    assert_eq!(
        translate_array_to_command(&[bulk("GET"), bulk("x")]),
        Ok(Command::GET("x".to_string()))
    );
    assert_eq!(
        translate_array_to_command(&[bulk("get"), bulk("x"), bulk("y")]),
        Err("Wrong number of args".to_string())
    );
    assert_eq!(
        translate_array_to_command(&[bulk("get"), RespValueRef::Int(1)]),
        Err("Wrong Argument Type".to_string())
    );
}

#[test]
fn test_translate_set_and_hget() {
    assert_eq!(
        translate_array_to_command(&[bulk("set"), bulk("x"), bulk("1")]),
        Ok(Command::SET("x".to_string(), "1".to_string()))
    );
    assert_eq!(
        translate_array_to_command(&[bulk("HGET"), bulk("h"), bulk("f")]),
        Ok(Command::HGET("h".to_string(), "f".to_string()))
    );
}

#[test]
fn test_translate_hset() {
    assert_eq!(
        translate_array_to_command(&[bulk("hset"), bulk("h"), bulk("f"), bulk("v")]),
        Ok(Command::HSET(
            "h".to_string(),
            vec!["f".to_string(), "v".to_string()]
        ))
    );
    assert_eq!(
        translate_array_to_command(&[bulk("hset"), bulk("h"), bulk("f")]),
        Err("Wrong number of args".to_string())
    );
    assert_eq!(
        translate_array_to_command(&[bulk("hset"), bulk("h"), bulk("f"), RespValueRef::Int(1)]),
        Err("Wrong argument type".to_string())
    );
}

#[test]
fn test_translate_unknown() {
    assert_eq!(
        translate_array_to_command(&[bulk("ping")]),
        Err("Not implemented".to_string())
    );
    assert_eq!(
        translate_array_to_command(&[RespValueRef::Int(1)]),
        Err("Not implemented".to_string())
    );
}

#[test]
fn test_translate_command() {
    assert_eq!(
        translate_array_to_command(&[bulk("CoMmAnD")]),
        Ok(Command::COMMAND)
    );
}

#[test]
fn test_verify_size() {
    let xs = [1, 2, 3];
    assert_eq!(verify_size(&xs, 3), Ok(()));
    assert_eq!(verify_size(&xs, 2), Err("Wrong number of args".to_string()));
}
