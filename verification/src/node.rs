//! A storage node: how it answers requests, and how it announces itself to
//! the registry.
use vstd::prelude::*;
use crate::model::{RpcParams, RpcRequest, RpcResponse, RpcResult, ParamsView, RequestView, ResultView};
use crate::store::{KvStore, spec_lookup, spec_pair_keys, spec_put_pairs};
use crate::text::{spec_decimal, decimal, push_char};

verus! {

/// The text a node answers a ping with.
pub open spec fn spec_pong(node_id: Seq<char>, message: Seq<char>) -> Seq<char> {
    "pong from "@ + node_id + ": "@ + message
}

/// How a node answers one request: the store it reads and changes, its own
/// identifier (named in answers to pings) and the request.
///
/// Every answer carries the request's identifier and no error. `get` answers
/// the stored value or nothing, `put` stores the value and answers success,
/// `list` answers every stored key once, in the order the keys were first
/// stored, `ping` answers with a pong. The method name is not read: the
/// parameters alone decide.
pub fn handle_node_request(store: &mut KvStore, node_id: &str, request: RpcRequest) -> (r:
    RpcResponse)
    ensures
        r.id == request.id,
        r.error is None,
        final(store)@ == spec_node_store_step(old(store)@, request.params@),
        match request.params@ {
            ParamsView::Get { key } => {
                &&& final(store)@ == old(store)@
                &&& final(store).pairs() == old(store).pairs()
                &&& r.result matches Some(RpcResult::GetResult { value })
                &&& match value {
                    Some(v) => spec_lookup(old(store)@, key) == Some(v@),
                    None => spec_lookup(old(store)@, key) == None::<Seq<char>>,
                }
            },
            ParamsView::Put { key, value } => {
                &&& final(store)@ == old(store)@.insert(key, value)
                &&& final(store).pairs() == spec_put_pairs(old(store).pairs(), key, value)
                &&& r@.result == Some(ResultView::PutResult { success: true })
            },
            ParamsView::ListKeys => {
                &&& final(store)@ == old(store)@
                &&& final(store).pairs() == old(store).pairs()
                &&& r@.result == Some(ResultView::ListResult { keys: spec_pair_keys(old(store).pairs()) })
                &&& r.result matches Some(RpcResult::ListResult { keys })
                &&& keys.deep_view().no_duplicates()
                &&& keys.deep_view().to_set() == old(store)@.dom()
            },
            ParamsView::Ping { message } => {
                &&& final(store)@ == old(store)@
                &&& final(store).pairs() == old(store).pairs()
                &&& r@.result == Some(ResultView::PingResult { response: spec_pong(node_id@, message) })
                &&& r@.result == Some(
                    ResultView::PingResult { response: "pong from "@ + node_id@ + ": "@ + message },
                )
            },
        },
{
    let id = request.id;
    let result = match request.params {
        RpcParams::Get { key } => RpcResult::GetResult { value: store.get(&key) },
        RpcParams::Put { key, value } => {
            store.put(key, value);
            RpcResult::PutResult { success: true }
        },
        RpcParams::ListKeys => RpcResult::ListResult { keys: store.keys() },
        RpcParams::Ping { message } => {
            let mut response = String::from_str("pong from ");
            response.append(node_id);
            response.append(": ");
            response.append(message.as_str());
            RpcResult::PingResult { response }
        },
    };
    RpcResponse { id, result: Some(result), error: None }
}

/// The value by which a node announces itself: `node_id:127.0.0.1:port`.
pub open spec fn spec_registration_value(node_id: Seq<char>, port: u16) -> Seq<char> {
    node_id + seq![':'] + "127.0.0.1"@ + seq![':'] + spec_decimal(port as nat)
}

/// The request by which a node announces itself to the registry.
pub open spec fn spec_registration_request(node_id: Seq<char>, port: u16) -> RequestView {
    RequestView {
        id: 1,
        method: "put"@,
        params: ParamsView::Put { key: "register"@, value: spec_registration_value(node_id, port) },
    }
}

/// The request by which node `node_id`, listening on `port`, announces itself.
pub fn registration_request(node_id: &str, port: u16) -> (r: RpcRequest)
    ensures
        r@ == spec_registration_request(node_id@, port),
{
    let mut value = String::from_str(node_id);
    push_char(&mut value, ':');
    value.append("127.0.0.1");
    push_char(&mut value, ':');
    value.append(decimal(port as u64).as_str());
    assert(value@ == spec_registration_value(node_id@, port));
    RpcRequest {
        id: 1,
        method: String::from_str("put"),
        params: RpcParams::Put { key: String::from_str("register"), value },
    }
}

/// Whether the registry accepted a registration: its answer carries no error.
pub fn registration_accepted(response: &RpcResponse) -> (r: bool)
    ensures
        r == response.error is None,
{
    response.error.is_none()
}

} // verus!

verus! {

/// A node whose identifier holds no `:` and that announces itself with
/// [`registration_request`] is accepted by the registry, registered as active at
/// `127.0.0.1:port`, listed to clients, and clients find that address in its entry.
pub proof fn law_registration_roundtrip(
    nodes: Seq<crate::model::NodeView>,
    node_id: Seq<char>,
    port: u16,
)
    requires
        crate::registry::spec_ids_distinct(nodes),
        !node_id.contains(':'),
    ensures
        ({
            let step = crate::registry::spec_registry_step(
                nodes,
                spec_registration_request(node_id, port),
            );
            let address = "127.0.0.1"@ + seq![':'] + spec_decimal(port as nat);
            let n = crate::model::NodeView {
                id: node_id,
                address,
                status: crate::model::NodeStatus::Active,
            };
            &&& step.1.error is None
            &&& step.1.result == Some(ResultView::PutResult { success: true })
            &&& step.2.len() == 0
            &&& step.0 == crate::registry::spec_register(nodes, node_id, address)
            &&& crate::registry::spec_active_entries(step.0).contains(
                crate::registry::spec_node_entry(n),
            )
            &&& crate::client::spec_node_address(crate::registry::spec_node_entry(n)) == address
        }),
{
    let dec = spec_decimal(port as nat);
    let local = "127.0.0.1"@;
    let rest = local + seq![':'] + dec;
    let value = spec_registration_value(node_id, port);
    assert(value == node_id + seq![':'] + rest);
    reveal_strlit("127.0.0.1");
    assert(!local.contains(':')) by {
        if local.contains(':') {
            let k = choose|k: int| 0 <= k < local.len() && local[k] == ':';
            assert(local[k] != ':');
        }
    }
    crate::text::lemma_decimal_has_no_colon(port as nat);
    crate::text::lemma_split_without_sep(dec, ':');
    crate::text::lemma_split_after_first(local, ':', dec);
    crate::text::lemma_split_after_first(node_id, ':', rest);
    let parts = crate::text::spec_split(value, ':');
    assert(parts == seq![node_id, local, dec]);
    assert(parts[1] + seq![':'] + parts[2] == rest);
    let n = crate::model::NodeView {
        id: node_id,
        address: rest,
        status: crate::model::NodeStatus::Active,
    };
    crate::registry::law_register(nodes, node_id, rest, node_id);
    crate::client::law_node_address_of_entry(n);
}

/// How a request changes the map a node stores: a `put` stores its value,
/// nothing else changes it.
pub open spec fn spec_node_store_step(m: Map<Seq<char>, Seq<char>>, params: ParamsView) -> Map<
    Seq<char>,
    Seq<char>,
> {
    match params {
        ParamsView::Put { key, value } => m.insert(key, value),
        _ => m,
    }
}

/// The map a node stores after answering `reqs`, in order, starting from `m`.
pub open spec fn spec_node_store_after(m: Map<Seq<char>, Seq<char>>, reqs: Seq<ParamsView>) -> Map<
    Seq<char>,
    Seq<char>,
>
    decreases reqs.len(),
{
    if reqs.len() == 0 {
        m
    } else {
        spec_node_store_step(spec_node_store_after(m, reqs.drop_last()), reqs.last())
    }
}

/// Over any sequence of requests answered by one node, a `get` of a key gives
/// back the value of the last `put` of that key; where no `put` came at all the
/// store is as it started (a fresh store stays empty, so it lists no key).
pub proof fn law_read_after_writes(
    m: Map<Seq<char>, Seq<char>>,
    reqs: Seq<ParamsView>,
    i: int,
    key: Seq<char>,
    value: Seq<char>,
)
    ensures
        (0 <= i < reqs.len() && reqs[i] == (ParamsView::Put { key, value }) && (forall|j: int|
            i < j < reqs.len() ==> !(#[trigger] reqs[j] is Put && reqs[j]->Put_key == key)))
            ==> spec_lookup(spec_node_store_after(m, reqs), key) == Some(value),
        (forall|j: int| 0 <= j < reqs.len() ==> !(#[trigger] reqs[j] is Put))
            ==> spec_node_store_after(m, reqs) == m,
    decreases reqs.len(),
{
    if reqs.len() > 0 {
        let t = reqs.drop_last();
        law_read_after_writes(m, t, i, key, value);
        if 0 <= i < reqs.len() && reqs[i] == (ParamsView::Put { key, value }) && (forall|j: int|
            i < j < reqs.len() ==> !(#[trigger] reqs[j] is Put && reqs[j]->Put_key == key)) {
            if i < reqs.len() - 1 {
                assert(t[i] == reqs[i]);
                assert forall|j: int| i < j < t.len() implies !(#[trigger] t[j] is Put
                    && t[j]->Put_key == key) by {
                    assert(t[j] == reqs[j]);
                }
                assert(!(reqs[reqs.len() - 1] is Put && reqs[reqs.len() - 1]->Put_key == key));
            }
        }
        if forall|j: int| 0 <= j < reqs.len() ==> !(#[trigger] reqs[j] is Put) {
            assert forall|j: int| 0 <= j < t.len() implies !(#[trigger] t[j] is Put) by {
                assert(t[j] == reqs[j]);
            }
            assert(!(reqs[reqs.len() - 1] is Put));
        }
    }
}

/// A pong echoes the whole message: it is the greeting naming the node,
/// followed by the message itself, unshortened and unchanged.
pub proof fn law_pong_echoes_message(node_id: Seq<char>, message: Seq<char>)
    ensures
        ({
            let r = spec_pong(node_id, message);
            let head = "pong from "@ + node_id + ": "@;
            &&& r.len() == head.len() + message.len()
            &&& r.take(head.len() as int) == head
            &&& r.skip(head.len() as int) == message
        }),
{
    let r = spec_pong(node_id, message);
    let head = "pong from "@ + node_id + ": "@;
    assert(r == head + message);
    assert(r.take(head.len() as int) == head);
    assert(r.skip(head.len() as int) == message);
}

} // verus!
