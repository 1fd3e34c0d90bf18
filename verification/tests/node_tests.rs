use distributed_kv::model::{RpcParams, RpcRequest, RpcResponse, RpcResult};
use distributed_kv::node::{handle_node_request, registration_accepted, registration_request};
use distributed_kv::store::KvStore;

fn request(id: u64, params: RpcParams) -> RpcRequest {
    let method = distributed_kv::model::method_name(&params);
    RpcRequest { id, method, params }
}

#[test]
fn store_reads_back_what_was_written() {
    let mut s = KvStore::new();
    assert_eq!(s.get(&"a".to_string()), None);
    s.put("a".to_string(), "1".to_string());
    s.put("b".to_string(), "2".to_string());
    s.put("a".to_string(), "3".to_string());
    assert_eq!(s.get(&"a".to_string()), Some("3".to_string()));
    assert_eq!(s.get(&"b".to_string()), Some("2".to_string()));
    assert_eq!(s.keys(), vec!["a".to_string(), "b".to_string()]);
    s.put("c".to_string(), "4".to_string());
    s.put("b".to_string(), "5".to_string());
    assert_eq!(s.keys(), vec!["a".to_string(), "b".to_string(), "c".to_string()]);
}

#[test]
fn node_answers_get_put_list_ping() {
    let mut s = KvStore::new();
    let r = handle_node_request(&mut s, "n1", request(1, RpcParams::Get { key: "k".into() }));
    assert_eq!(r.id, 1);
    assert!(r.error.is_none());
    assert!(matches!(r.result, Some(RpcResult::GetResult { value: None })));

    let r = handle_node_request(
        &mut s,
        "n1",
        request(2, RpcParams::Put { key: "k".into(), value: "v w".into() }),
    );
    assert_eq!(r.id, 2);
    assert!(matches!(r.result, Some(RpcResult::PutResult { success: true })));

    let r = handle_node_request(&mut s, "n1", request(3, RpcParams::Get { key: "k".into() }));
    match r.result {
        Some(RpcResult::GetResult { value }) => assert_eq!(value.as_deref(), Some("v w")),
        other => panic!("unexpected {:?}", other),
    }

    let r = handle_node_request(&mut s, "n1", request(4, RpcParams::ListKeys));
    match r.result {
        Some(RpcResult::ListResult { keys }) => assert_eq!(keys, vec!["k".to_string()]),
        other => panic!("unexpected {:?}", other),
    }

    let r = handle_node_request(&mut s, "n1", request(5, RpcParams::Ping { message: "hi there".into() }));
    assert_eq!(r.id, 5);
    match r.result {
        Some(RpcResult::PingResult { response }) => assert_eq!(response, "pong from n1: hi there"),
        other => panic!("unexpected {:?}", other),
    }
}

#[test]
fn registration_request_names_node_address_and_port() {
    let r = registration_request("node-7", 4001);
    assert_eq!(r.id, 1);
    assert_eq!(r.method, "put");
    match r.params {
        RpcParams::Put { key, value } => {
            assert_eq!(key, "register");
            assert_eq!(value, "node-7:127.0.0.1:4001");
        }
        other => panic!("unexpected {:?}", other),
    }
}

#[test]
fn registration_is_accepted_without_error() {
    let ok = RpcResponse { id: 1, result: Some(RpcResult::PutResult { success: true }), error: None };
    let refused = RpcResponse { id: 1, result: None, error: Some("bad".into()) };
    assert!(registration_accepted(&ok));
    assert!(!registration_accepted(&refused));
}

#[test]
fn later_connections_read_what_earlier_ones_wrote() {
    let mut s = KvStore::new();
    let r = handle_node_request(&mut s, "n", request(1, RpcParams::ListKeys));
    assert!(matches!(r.result, Some(RpcResult::ListResult { ref keys }) if keys.is_empty()));
    handle_node_request(&mut s, "n", request(2, RpcParams::Put { key: "k".into(), value: "v1".into() }));
    handle_node_request(&mut s, "n", request(3, RpcParams::Put { key: "j".into(), value: "x".into() }));
    handle_node_request(&mut s, "n", request(4, RpcParams::Ping { message: "m".into() }));
    handle_node_request(&mut s, "n", request(5, RpcParams::Put { key: "k".into(), value: "v2".into() }));
    let r = handle_node_request(&mut s, "n", request(6, RpcParams::Get { key: "k".into() }));
    match r.result {
        Some(RpcResult::GetResult { value }) => assert_eq!(value.as_deref(), Some("v2")),
        other => panic!("unexpected {:?}", other),
    }
}
