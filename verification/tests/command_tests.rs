use distributed_kv::command::{parse_client_command, CommandError};
use distributed_kv::model::RpcParams;

#[test]
fn get_takes_one_key() {
    let r = parse_client_command("get user", 3).unwrap();
    assert_eq!(r.id, 3);
    assert_eq!(r.method, "get");
    assert!(matches!(r.params, RpcParams::Get { ref key } if key == "user"));
}

#[test]
fn put_joins_the_value_words_with_single_spaces() {
    let r = parse_client_command("  put  greeting   hello    big world ", 9).unwrap();
    assert_eq!(r.id, 9);
    assert_eq!(r.method, "put");
    match r.params {
        RpcParams::Put { key, value } => {
            assert_eq!(key, "greeting");
            assert_eq!(value, "hello big world");
        }
        other => panic!("unexpected {:?}", other),
    }
}

#[test]
fn put_without_value_is_refused() {
    assert_eq!(parse_client_command("put key", 1).unwrap_err(), CommandError::MissingPutValue);
    assert_eq!(CommandError::MissingPutValue.message(), "PUT requires a value");
}

#[test]
fn list_and_ping() {
    let r = parse_client_command("list", 2).unwrap();
    assert_eq!(r.method, "list");
    assert!(matches!(r.params, RpcParams::ListKeys));
    let r = parse_client_command("ping hello there", 4).unwrap();
    assert_eq!(r.method, "ping");
    assert!(matches!(r.params, RpcParams::Ping { ref message } if message == "hello there"));
    let r = parse_client_command("ping", 5).unwrap();
    assert!(matches!(r.params, RpcParams::Ping { ref message } if message.is_empty()));
}

#[test]
fn anything_else_is_unknown() {
    for line in ["", "get", "get a b", "put", "list all", "delete k", "GET k"] {
        assert_eq!(parse_client_command(line, 1).unwrap_err(), CommandError::UnknownCommand, "{:?}", line);
    }
    assert_eq!(CommandError::UnknownCommand.message(), "Unknown command");
}

#[test]
fn put_line_reads_back_key_and_value() {
    let words = ["alpha", "β", "gamma"];
    let value = words.join(" ");
    let line = format!("put {} {}", "key1", value);
    let r = parse_client_command(&line, 11).unwrap();
    assert_eq!(r.id, 11);
    assert_eq!(r.method, "put");
    match r.params {
        RpcParams::Put { key, value: v } => {
            assert_eq!(key, "key1");
            assert_eq!(v, value);
        }
        other => panic!("unexpected {:?}", other),
    }
}
