use distributed_kv::cli::default_registry_address;
use distributed_kv::client::{
    classify_line, discovery_request, node_address, nodes_from_response, pick_node, response_lines,
    ClientAction, ClientCommand, ClientSession, Destination,
};
use distributed_kv::command::CommandError;
use distributed_kv::model::{RpcParams, RpcResponse, RpcResult};
use distributed_kv::node::registration_request;
use distributed_kv::registry::ServiceRegistry;

#[test]
fn address_is_everything_after_the_first_colon() {
    assert_eq!(node_address("n1:127.0.0.1:3001"), "127.0.0.1:3001");
    assert_eq!(node_address("n1:"), "");
    assert_eq!(node_address("nocolon"), "");
}

#[test]
fn picked_node_is_the_address_of_a_known_entry() {
    assert_eq!(pick_node(&vec![]), None);
    let nodes = vec!["a:127.0.0.1:1".to_string(), "b:127.0.0.1:2".to_string()];
    for _ in 0..50 {
        let a = pick_node(&nodes).unwrap();
        assert!(a == "127.0.0.1:1" || a == "127.0.0.1:2", "{}", a);
    }
}

#[test]
fn discovery_asks_for_nodes() {
    let r = discovery_request();
    assert_eq!(r.id, 1);
    assert_eq!(r.method, "get");
    assert!(matches!(r.params, RpcParams::Get { ref key } if key == "nodes"));
    assert_eq!(default_registry_address(), "127.0.0.1:3000");
}

#[test]
fn discovered_nodes_come_from_list_results_only() {
    let list = RpcResponse {
        id: 1,
        result: Some(RpcResult::ListResult { keys: vec!["a:h:1".into()] }),
        error: None,
    };
    assert_eq!(nodes_from_response(list), vec!["a:h:1"]);
    let other = RpcResponse { id: 1, result: Some(RpcResult::PutResult { success: true }), error: None };
    assert!(nodes_from_response(other).is_empty());
    let err = RpcResponse { id: 1, result: None, error: Some("x".into()) };
    assert!(nodes_from_response(err).is_empty());
}

#[test]
fn lines_are_classified() {
    assert!(matches!(classify_line("   ", 1), ClientCommand::Skip));
    assert!(matches!(classify_line(" q ", 1), ClientCommand::Quit));
    assert!(matches!(classify_line("quit", 1), ClientCommand::Quit));
    assert!(matches!(classify_line("nodes\n", 1), ClientCommand::RefreshNodes));
    assert!(matches!(classify_line("put k", 1), ClientCommand::Reject(CommandError::MissingPutValue)));
    assert!(matches!(classify_line("hello", 1), ClientCommand::Reject(CommandError::UnknownCommand)));
    match classify_line(" put k v ", 6) {
        ClientCommand::ToRegistry(r) => {
            assert_eq!(r.id, 6);
            assert!(matches!(r.params, RpcParams::Put { .. }));
        }
        _ => panic!("put goes to the registry"),
    }
    match classify_line("get k", 8) {
        ClientCommand::ToNode(r) => assert_eq!(r.id, 8),
        _ => panic!("get goes to a node"),
    }
}

#[test]
fn session_picks_destination_and_counts_requests() {
    let mut s = ClientSession::new(vec![]);
    assert_eq!(s.request_id, 1);
    assert!(matches!(s.next_action("get k"), ClientAction::NoNodes));
    match s.next_action("put k v") {
        ClientAction::Send { request, destination: Destination::Registry } => assert_eq!(request.id, 1),
        _ => panic!("put goes to the registry"),
    }
    s.request_sent();
    s.set_nodes(vec!["n1:127.0.0.1:3001".into()]);
    match s.next_action("list") {
        ClientAction::Send { request, destination: Destination::Node(a) } => {
            assert_eq!(request.id, 2);
            assert_eq!(a, "127.0.0.1:3001");
        }
        _ => panic!("list goes to a node"),
    }
}

#[test]
fn responses_are_shown() {
    let show = |result, error| response_lines(&RpcResponse { id: 1, result, error });
    assert_eq!(show(Some(RpcResult::GetResult { value: Some("v".into()) }), None), vec!["✅ Found: v"]);
    assert_eq!(show(Some(RpcResult::GetResult { value: None }), None), vec!["❌ Key not found"]);
    assert_eq!(show(Some(RpcResult::PutResult { success: true }), None), vec!["✅ Value stored successfully"]);
    assert_eq!(show(Some(RpcResult::PutResult { success: false }), None), vec!["❌ Failed to store value"]);
    assert_eq!(
        show(Some(RpcResult::ListResult { keys: vec!["a".into(), "b".into()] }), None),
        vec!["📋 Keys (2):", "  - a", "  - b"]
    );
    assert_eq!(show(Some(RpcResult::PingResult { response: "pong".into() }), None), vec!["🏓 pong"]);
    assert_eq!(show(None, Some("boom".into())), vec!["❌ Error: boom"]);
    assert!(show(None, None).is_empty());
}

#[test]
fn client_reaches_a_node_that_registered() {
    let mut reg = ServiceRegistry::new();
    reg.handle_registry_request(&registration_request("n1", 4100));
    let reply = reg.handle_registry_request(&discovery_request());
    let nodes = nodes_from_response(reply.response);
    assert_eq!(pick_node(&nodes), Some("127.0.0.1:4100".to_string()));
}

#[test]
fn session_starts_only_with_nodes() {
    assert!(ClientSession::start(vec![]).is_none());
    let s = ClientSession::start(vec!["a:h:1".into()]).unwrap();
    assert_eq!(s.request_id, 1);
    assert_eq!(s.nodes, vec!["a:h:1"]);
}
