use distributed_kv::model::{NodeStatus, RpcParams, RpcRequest, RpcResult};
use distributed_kv::node::registration_request;
use distributed_kv::registry::ServiceRegistry;

fn request(id: u64, params: RpcParams) -> RpcRequest {
    let method = distributed_kv::model::method_name(&params);
    RpcRequest { id, method, params }
}

fn discover(reg: &mut ServiceRegistry, id: u64) -> Vec<String> {
    let reply = reg.handle_registry_request(&request(id, RpcParams::Get { key: "nodes".into() }));
    assert_eq!(reply.response.id, id);
    assert!(reply.forward_to.is_empty());
    match reply.response.result {
        Some(RpcResult::ListResult { keys }) => keys,
        other => panic!("unexpected {:?}", other),
    }
}

#[test]
fn registered_nodes_are_discovered() {
    let mut reg = ServiceRegistry::new();
    assert!(discover(&mut reg, 1).is_empty());
    let reply = reg.handle_registry_request(&registration_request("n1", 3001));
    assert!(reply.response.error.is_none());
    assert!(matches!(reply.response.result, Some(RpcResult::PutResult { success: true })));
    reg.handle_registry_request(&registration_request("n2", 3002));
    assert_eq!(discover(&mut reg, 2), vec!["n1:127.0.0.1:3001", "n2:127.0.0.1:3002"]);
    // registering again replaces the address
    reg.handle_registry_request(&registration_request("n1", 3005));
    assert_eq!(discover(&mut reg, 3), vec!["n1:127.0.0.1:3005", "n2:127.0.0.1:3002"]);
}

#[test]
fn malformed_registration_is_refused() {
    let mut reg = ServiceRegistry::new();
    let reply = reg.handle_registry_request(&request(
        7,
        RpcParams::Put { key: "register".into(), value: "n1:127.0.0.1".into() },
    ));
    assert_eq!(reply.response.id, 7);
    assert!(reply.response.result.is_none());
    assert_eq!(
        reply.response.error.as_deref(),
        Some("Invalid registration format. Expected 'node_id:ip:port', got 'n1:127.0.0.1' with 2 parts")
    );
    assert!(discover(&mut reg, 8).is_empty());
}

#[test]
fn other_puts_go_to_every_node() {
    let mut reg = ServiceRegistry::new();
    let put = request(4, RpcParams::Put { key: "k".into(), value: "v".into() });
    let reply = reg.handle_registry_request(&put);
    assert_eq!(reply.response.error.as_deref(), Some("No nodes available"));
    assert!(reply.forward_to.is_empty());
    reg.handle_registry_request(&registration_request("a", 1));
    reg.handle_registry_request(&registration_request("b", 2));
    reg.update_node_status(&"b".to_string(), false);
    let reply = reg.handle_registry_request(&put);
    assert_eq!(reply.response.id, 4);
    assert!(reply.response.result.is_none());
    assert!(reply.response.error.is_none());
    assert_eq!(reply.forward_to, vec!["127.0.0.1:1", "127.0.0.1:2"]);
}

#[test]
fn other_requests_are_unknown() {
    let mut reg = ServiceRegistry::new();
    for params in [
        RpcParams::Get { key: "other".into() },
        RpcParams::ListKeys,
        RpcParams::Ping { message: "x".into() },
    ] {
        let reply = reg.handle_registry_request(&request(2, params));
        assert_eq!(reply.response.error.as_deref(), Some("Unknown registry operation"));
        assert!(reply.response.result.is_none());
    }
}

#[test]
fn health_checks_change_status_and_listing() {
    let mut reg = ServiceRegistry::new();
    reg.register("a".into(), "h:1".into());
    reg.register("b".into(), "h:2".into());
    assert_eq!(reg.status_counts(), (2, 2));
    assert_eq!(reg.update_node_status(&"a".to_string(), false), Some(NodeStatus::Active));
    assert_eq!(reg.status_counts(), (1, 2));
    assert_eq!(reg.status_line(), "📊 Registry Status: 1/2 nodes active");
    assert_eq!(reg.active_node_entries(), vec!["b:h:2"]);
    assert_eq!(reg.update_node_status(&"a".to_string(), true), Some(NodeStatus::Inactive));
    assert_eq!(reg.update_node_status(&"zzz".to_string(), true), None);
    assert_eq!(reg.active_node_entries(), vec!["a:h:1", "b:h:2"]);
    assert_eq!(
        reg.health_targets(),
        vec![("a".to_string(), "h:1".to_string()), ("b".to_string(), "h:2".to_string())]
    );
    assert_eq!(reg.node_addresses(), vec!["h:1", "h:2"]);
}

#[test]
fn failed_node_stays_hidden_until_it_recovers() {
    let mut reg = ServiceRegistry::new();
    reg.handle_registry_request(&registration_request("x", 1));
    reg.handle_registry_request(&registration_request("y", 2));
    reg.update_node_status(&"x".to_string(), false);
    reg.handle_registry_request(&registration_request("z", 3));
    reg.update_node_status(&"y".to_string(), true);
    reg.update_node_status(&"x".to_string(), false);
    assert_eq!(discover(&mut reg, 5), vec!["y:127.0.0.1:2", "z:127.0.0.1:3"]);
    reg.update_node_status(&"x".to_string(), true);
    assert_eq!(discover(&mut reg, 6), vec!["x:127.0.0.1:1", "y:127.0.0.1:2", "z:127.0.0.1:3"]);
}

#[test]
fn registration_string_is_listed_once() {
    let mut reg = ServiceRegistry::new();
    let register = |v: &str| {
        request(1, RpcParams::Put { key: "register".into(), value: v.into() })
    };
    reg.handle_registry_request(&register("a:10.0.0.1:80"));
    reg.handle_registry_request(&register("b:10.0.0.2:80"));
    reg.handle_registry_request(&register("a:10.0.0.1:80"));
    let listed = discover(&mut reg, 2);
    assert_eq!(listed.iter().filter(|e| *e == "a:10.0.0.1:80").count(), 1);
    assert_eq!(listed, vec!["a:10.0.0.1:80", "b:10.0.0.2:80"]);
}
