//! The registry: which nodes exist, where they listen and whether they answer,
//! and how the registry answers requests.
use vstd::prelude::*;
use crate::model::{
    NodeInfo, NodeStatus, NodeView, RpcParams, RpcRequest, RpcResponse, RpcResult, ParamsView,
    RequestView, ResponseView, ResultView,
};
use crate::text::{spec_split, spec_decimal, split_on, decimal, push_char};

verus! {

/// No identifier occurs twice.
pub open spec fn spec_ids_distinct(nodes: Seq<NodeView>) -> bool {
    forall|i: int, j: int| 0 <= i < j < nodes.len() ==> #[trigger] nodes[i].id != #[trigger] nodes[j].id
}

/// Whether a node with identifier `id` is registered.
pub open spec fn spec_has_node(nodes: Seq<NodeView>, id: Seq<char>) -> bool {
    exists|i: int| 0 <= i < nodes.len() && nodes[i].id == id
}

/// The position of the node with identifier `id` (meaningful when there is one).
pub open spec fn spec_node_index(nodes: Seq<NodeView>, id: Seq<char>) -> int {
    choose|i: int| 0 <= i < nodes.len() && nodes[i].id == id
}

/// The nodes after registering `id` at `address`: a known node gets the new
/// address and becomes active in its place, an unknown one is added at the end.
pub open spec fn spec_register(nodes: Seq<NodeView>, id: Seq<char>, address: Seq<char>) -> Seq<
    NodeView,
> {
    let n = NodeView { id, address, status: NodeStatus::Active };
    if spec_has_node(nodes, id) {
        nodes.update(spec_node_index(nodes, id), n)
    } else {
        nodes.push(n)
    }
}

/// The nodes after the node `id`, if registered, takes `status`.
pub open spec fn spec_set_status(nodes: Seq<NodeView>, id: Seq<char>, status: NodeStatus) -> Seq<
    NodeView,
> {
    if spec_has_node(nodes, id) {
        let i = spec_node_index(nodes, id);
        nodes.update(i, NodeView { id: nodes[i].id, address: nodes[i].address, status })
    } else {
        nodes
    }
}

/// The status that a health check's outcome gives a node.
pub open spec fn spec_health_status(is_healthy: bool) -> NodeStatus {
    if is_healthy {
        NodeStatus::Active
    } else {
        NodeStatus::Inactive
    }
}

/// How the registry lists a node to clients: `id:address`.
pub open spec fn spec_node_entry(n: NodeView) -> Seq<char> {
    n.id + seq![':'] + n.address
}

/// The entries of the active nodes, in registration order.
pub open spec fn spec_active_entries(nodes: Seq<NodeView>) -> Seq<Seq<char>>
    decreases nodes.len(),
{
    if nodes.len() == 0 {
        seq![]
    } else {
        let before = spec_active_entries(nodes.drop_last());
        if nodes.last().status == NodeStatus::Active {
            before.push(spec_node_entry(nodes.last()))
        } else {
            before
        }
    }
}

/// How many nodes are active.
pub open spec fn spec_active_count(nodes: Seq<NodeView>) -> nat
    decreases nodes.len(),
{
    if nodes.len() == 0 {
        0
    } else {
        spec_active_count(nodes.drop_last()) + if nodes.last().status == NodeStatus::Active {
            1nat
        } else {
            0nat
        }
    }
}

/// The addresses of all registered nodes, active or not.
pub open spec fn spec_addresses(nodes: Seq<NodeView>) -> Seq<Seq<char>> {
    nodes.map_values(|n: NodeView| n.address)
}

/// The identifier and address of every registered node.
pub open spec fn spec_health_targets(nodes: Seq<NodeView>) -> Seq<(Seq<char>, Seq<char>)> {
    nodes.map_values(|n: NodeView| (n.id, n.address))
}

/// The registry of nodes: each identifier is registered at most once, and no
/// identifier holds a `:` (the separator of registration values and of the
/// entries listed to clients).
pub struct ServiceRegistry {
    nodes: Vec<NodeInfo>,
}

impl ServiceRegistry {
    #[verifier::type_invariant]
    spec fn ids_distinct(&self) -> bool {
        &&& spec_ids_distinct(self.nodes@.map_values(|n: NodeInfo| n@))
        &&& spec_ids_colon_free(self.nodes@.map_values(|n: NodeInfo| n@))
    }
}

impl View for ServiceRegistry {
    type V = Seq<NodeView>;

    /// The registered nodes, in the order they first registered.
    closed spec fn view(&self) -> Seq<NodeView> {
        self.nodes@.map_values(|n: NodeInfo| n@)
    }
}

impl ServiceRegistry {
    /// A registry with no nodes.
    pub fn new() -> (r: Self)
        ensures
            r@ == Seq::<NodeView>::empty(),
            spec_ids_distinct(r@),
            spec_ids_colon_free(r@),
    {
        let r = ServiceRegistry { nodes: Vec::new() };
        assert(r@ == Seq::<NodeView>::empty());
        r
    }

    fn find(&self, id: &String) -> (r: Option<usize>)
        ensures
            match r {
                Some(i) => i < self@.len() && self@[i as int].id == id@ && spec_has_node(self@, id@)
                    && spec_node_index(self@, id@) == i,
                None => !spec_has_node(self@, id@),
            },
    {
        proof {
            use_type_invariant(self);
        }
        let n = self.nodes.len();
        let ghost v = self@;
        for i in 0..n
            invariant
                n == self.nodes.len(),
                v == self@,
                v.len() == n,
                spec_ids_distinct(v),
                forall|j: int| 0 <= j < i ==> v[j].id != id@,
        {
            assert(v[i as int] == self.nodes@[i as int]@);
            if self.nodes[i].id == *id {
                proof {
                    let k = spec_node_index(v, id@);
                    assert(v[k].id == id@);
                    if k != i {
                        if k < i {
                            assert(v[k].id != v[i as int].id);
                        } else {
                            assert(v[i as int].id != v[k].id);
                        }
                    }
                }
                return Some(i);
            }
        }
        None
    }

    /// Registers the node `id` at `address` as active; a node already known by
    /// that identifier is replaced in its place.
    pub fn register(&mut self, id: String, address: String)
        requires
            !id@.contains(':'),
        ensures
            final(self)@ == spec_register(old(self)@, id@, address@),
            spec_ids_distinct(final(self)@),
            spec_ids_colon_free(final(self)@),
    {
        proof {
            use_type_invariant(&*self);
        }
        let ghost v = self@;
        let found = self.find(&id);
        let mut nodes: Vec<NodeInfo> = Vec::new();
        std::mem::swap(&mut nodes, &mut self.nodes);
        let info = NodeInfo { id, address, status: NodeStatus::Active };
        let ghost nv = info@;
        match found {
            Some(i) => {
                nodes.set(i, info);
                proof {
                    let w = nodes@.map_values(|n: NodeInfo| n@);
                    assert(w == v.update(i as int, nv));
                    lemma_update_keeps_ids_distinct(v, i as int, nv);
                    assert forall|k: int| 0 <= k < w.len() implies !(#[trigger] w[k]).id.contains(
                        ':',
                    ) by {
                        if k != i as int {
                            assert(w[k] == v[k]);
                        }
                    }
                }
            },
            None => {
                nodes.push(info);
                proof {
                    let w = nodes@.map_values(|n: NodeInfo| n@);
                    assert(w == v.push(nv));
                    assert(spec_ids_distinct(w)) by {
                        assert forall|a: int, b: int| 0 <= a < b < w.len() implies #[trigger] w[a].id
                            != #[trigger] w[b].id by {
                            if b == w.len() - 1 {
                                assert(w[a] == v[a]);
                            } else {
                                assert(w[a] == v[a] && w[b] == v[b]);
                            }
                        }
                    }
                    assert forall|k: int| 0 <= k < w.len() implies !(#[trigger] w[k]).id.contains(
                        ':',
                    ) by {
                        if k < v.len() {
                            assert(w[k] == v[k]);
                        }
                    }
                }
            },
        }
        self.nodes = nodes;
    }

    /// Records the outcome of a health check of the node `node_id`: a healthy
    /// node becomes active, an unhealthy one inactive. Answers the node's
    /// status before the check, or `None` where no such node is registered (and
    /// nothing changes).
    pub fn update_node_status(&mut self, node_id: &String, is_healthy: bool) -> (r: Option<
        NodeStatus,
    >)
        ensures
            final(self)@ == spec_set_status(old(self)@, node_id@, spec_health_status(is_healthy)),
            spec_ids_distinct(final(self)@),
            spec_ids_colon_free(final(self)@),
            r == (if spec_has_node(old(self)@, node_id@) {
                Some(old(self)@[spec_node_index(old(self)@, node_id@)].status)
            } else {
                None
            }),
    {
        proof {
            use_type_invariant(&*self);
        }
        let ghost v = self@;
        let status = if is_healthy {
            NodeStatus::Active
        } else {
            NodeStatus::Inactive
        };
        match self.find(node_id) {
            Some(i) => {
                let previous = self.nodes[i].status;
                let info = NodeInfo {
                    id: self.nodes[i].id.clone(),
                    address: self.nodes[i].address.clone(),
                    status,
                };
                assert(v[i as int] == self.nodes@[i as int]@);
                let mut nodes: Vec<NodeInfo> = Vec::new();
                std::mem::swap(&mut nodes, &mut self.nodes);
                nodes.set(i, info);
                proof {
                    let w = nodes@.map_values(|n: NodeInfo| n@);
                    assert(w == v.update(
                        i as int,
                        NodeView { id: v[i as int].id, address: v[i as int].address, status },
                    ));
                    lemma_update_keeps_ids_distinct(
                        v,
                        i as int,
                        NodeView { id: v[i as int].id, address: v[i as int].address, status },
                    );
                    assert forall|k: int| 0 <= k < w.len() implies !(#[trigger] w[k]).id.contains(
                        ':',
                    ) by {
                        assert(w[k].id == v[k].id);
                    }
                }
                self.nodes = nodes;
                Some(previous)
            },
            None => None,
        }
    }

    /// The entries `id:address` of the active nodes, as clients discover them.
    pub fn active_node_entries(&self) -> (r: Vec<String>)
        ensures
            r.deep_view() == spec_active_entries(self@),
    {
        let ghost v = self@;
        let n = self.nodes.len();
        let mut r: Vec<String> = Vec::new();
        assert(v.take(0) == Seq::<NodeView>::empty());
        for i in 0..n
            invariant
                n == self.nodes.len(),
                v == self@,
                v.len() == n,
                r.deep_view() == spec_active_entries(v.take(i as int)),
        {
            assert(v.take(i + 1).drop_last() == v.take(i as int));
            assert(v.take(i + 1).last() == self.nodes@[i as int]@);
            if self.nodes[i].status == NodeStatus::Active {
                let mut entry = self.nodes[i].id.clone();
                push_char(&mut entry, ':');
                entry.append(self.nodes[i].address.as_str());
                assert(v[i as int] == self.nodes@[i as int]@);
                assert(entry@ == spec_node_entry(v[i as int]));
                let ghost prev = r.deep_view();
                r.push(entry);
                assert(r.deep_view() == prev.push(entry@));
            }
        }
        assert(v.take(n as int) == v);
        r
    }

    /// How many nodes are active, and how many are registered.
    pub fn status_counts(&self) -> (r: (usize, usize))
        ensures
            r.0 == spec_active_count(self@),
            r.1 == self@.len(),
    {
        let ghost v = self@;
        let n = self.nodes.len();
        let mut active: usize = 0;
        assert(v.take(0) == Seq::<NodeView>::empty());
        for i in 0..n
            invariant
                n == self.nodes.len(),
                v == self@,
                v.len() == n,
                active == spec_active_count(v.take(i as int)),
                active <= i,
        {
            assert(v.take(i + 1).drop_last() == v.take(i as int));
            assert(v.take(i + 1).last() == self.nodes@[i as int]@);
            if self.nodes[i].status == NodeStatus::Active {
                active = active + 1;
            }
        }
        assert(v.take(n as int) == v);
        (active, n)
    }

    /// The addresses of all registered nodes, in registration order.
    pub fn node_addresses(&self) -> (r: Vec<String>)
        ensures
            r.deep_view() == spec_addresses(self@),
    {
        let ghost v = self@;
        let n = self.nodes.len();
        let mut r: Vec<String> = Vec::new();
        for i in 0..n
            invariant
                n == self.nodes.len(),
                v == self@,
                v.len() == n,
                r.deep_view() == spec_addresses(v).take(i as int),
        {
            let ghost prev = r.deep_view();
            r.push(self.nodes[i].address.clone());
            assert(spec_addresses(v).take(i + 1) == prev.push(self.nodes@[i as int].address@));
        }
        assert(spec_addresses(v).take(n as int) == spec_addresses(v));
        r
    }

    /// The identifier and address of every registered node, for health checks.
    pub fn health_targets(&self) -> (r: Vec<(String, String)>)
        ensures
            r.deep_view() == spec_health_targets(self@),
    {
        let ghost v = self@;
        let n = self.nodes.len();
        let mut r: Vec<(String, String)> = Vec::new();
        for i in 0..n
            invariant
                n == self.nodes.len(),
                v == self@,
                v.len() == n,
                r.deep_view() == spec_health_targets(v).take(i as int),
        {
            let ghost prev = r.deep_view();
            r.push((self.nodes[i].id.clone(), self.nodes[i].address.clone()));
            assert(spec_health_targets(v).take(i + 1) == prev.push(
                (self.nodes@[i as int].id@, self.nodes@[i as int].address@),
            ));
        }
        assert(spec_health_targets(v).take(n as int) == spec_health_targets(v));
        r
    }
}

} // verus!

verus! {

/// The error a registry answers to a registration value that is not made of
/// exactly three `:`-separated parts.
pub open spec fn spec_invalid_registration_message(value: Seq<char>, parts: nat) -> Seq<char> {
    "Invalid registration format. Expected 'node_id:ip:port', got '"@ + value + "' with "@
        + spec_decimal(parts) + " parts"@
}

/// A response that carries only an error.
pub open spec fn spec_error_response(id: u64, message: Seq<char>) -> ResponseView {
    ResponseView { id, result: None, error: Some(message) }
}

/// How the registry answers a request: the nodes afterwards, the response,
/// and the addresses of the nodes the request is to be passed on to.
///
/// - `get nodes` lists the active nodes;
/// - `put register id:ip:port` registers node `id` at `ip:port`;
/// - any other `put` is passed on to every registered node, and refused where
///   there is none;
/// - everything else is refused as unknown.
pub open spec fn spec_registry_step(nodes: Seq<NodeView>, req: RequestView) -> (
    Seq<NodeView>,
    ResponseView,
    Seq<Seq<char>>,
) {
    match req.params {
        ParamsView::Get { key } => {
            if key == "nodes"@ {
                (
                    nodes,
                    ResponseView {
                        id: req.id,
                        result: Some(ResultView::ListResult { keys: spec_active_entries(nodes) }),
                        error: None,
                    },
                    seq![],
                )
            } else {
                (nodes, spec_error_response(req.id, "Unknown registry operation"@), seq![])
            }
        },
        ParamsView::Put { key, value } => {
            if key == "register"@ {
                let parts = spec_split(value, ':');
                if parts.len() == 3 {
                    (
                        spec_register(nodes, parts[0], parts[1] + seq![':'] + parts[2]),
                        ResponseView {
                            id: req.id,
                            result: Some(ResultView::PutResult { success: true }),
                            error: None,
                        },
                        seq![],
                    )
                } else {
                    (
                        nodes,
                        spec_error_response(
                            req.id,
                            spec_invalid_registration_message(value, parts.len()),
                        ),
                        seq![],
                    )
                }
            } else if nodes.len() == 0 {
                (nodes, spec_error_response(req.id, "No nodes available"@), seq![])
            } else {
                (nodes, ResponseView { id: req.id, result: None, error: None }, spec_addresses(nodes))
            }
        },
        _ => (nodes, spec_error_response(req.id, "Unknown registry operation"@), seq![]),
    }
}

/// What the registry does with one request: the response to send back, and
/// the addresses of the nodes that the request is to be passed on to.
pub struct RegistryReply {
    pub response: RpcResponse,
    pub forward_to: Vec<String>,
}

fn no_forwarding() -> (r: Vec<String>)
    ensures
        r.deep_view() == Seq::<Seq<char>>::empty(),
{
    let r: Vec<String> = Vec::new();
    assert(r.deep_view() == Seq::<Seq<char>>::empty());
    r
}

fn error_response(id: u64, message: String) -> (r: RpcResponse)
    ensures
        r@ == spec_error_response(id, message@),
{
    RpcResponse { id, result: None, error: Some(message) }
}

impl ServiceRegistry {
    /// Answers one request to the registry (see [`spec_registry_step`]).
    pub fn handle_registry_request(&mut self, request: &RpcRequest) -> (r: RegistryReply)
        ensures
            (final(self)@, r.response@, r.forward_to.deep_view()) == spec_registry_step(
                old(self)@,
                request@,
            ),
            spec_ids_distinct(final(self)@),
            spec_ids_colon_free(final(self)@),
    {
        proof {
            use_type_invariant(&*self);
        }
        let ghost expect = spec_registry_step(self@, request@);
        let id = request.id;
        let r = match &request.params {
            RpcParams::Get { key } => {
                if *key == String::from_str("nodes") {
                    let keys = self.active_node_entries();
                    RegistryReply {
                        response: RpcResponse {
                            id,
                            result: Some(RpcResult::ListResult { keys }),
                            error: None,
                        },
                        forward_to: no_forwarding(),
                    }
                } else {
                    RegistryReply {
                        response: error_response(id, String::from_str("Unknown registry operation")),
                        forward_to: no_forwarding(),
                    }
                }
            },
            RpcParams::Put { key, value } => {
                if *key == String::from_str("register") {
                    let parts = split_on(value.as_str(), ':');
                    if parts.len() == 3 {
                        let node_id = parts[0].clone();
                        let mut address = parts[1].clone();
                        push_char(&mut address, ':');
                        address.append(parts[2].as_str());
                        assert(address@ == parts.deep_view()[1] + seq![':'] + parts.deep_view()[2]);
                        assert(node_id@ == parts.deep_view()[0]);
                        proof {
                            crate::text::lemma_split_pieces_lack_sep(value@, ':');
                        }
                        self.register(node_id, address);
                        RegistryReply {
                            response: RpcResponse {
                                id,
                                result: Some(RpcResult::PutResult { success: true }),
                                error: None,
                            },
                            forward_to: no_forwarding(),
                        }
                    } else {
                        let mut message = String::from_str(
                            "Invalid registration format. Expected 'node_id:ip:port', got '",
                        );
                        message.append(value.as_str());
                        message.append("' with ");
                        message.append(decimal(parts.len() as u64).as_str());
                        message.append(" parts");
                        RegistryReply { response: error_response(id, message), forward_to: no_forwarding() }
                    }
                } else {
                    let addresses = self.node_addresses();
                    if addresses.len() == 0 {
                        RegistryReply {
                            response: error_response(id, String::from_str("No nodes available")),
                            forward_to: no_forwarding(),
                        }
                    } else {
                        RegistryReply {
                            response: RpcResponse { id, result: None, error: None },
                            forward_to: addresses,
                        }
                    }
                }
            },
            _ => RegistryReply {
                response: error_response(id, String::from_str("Unknown registry operation")),
                forward_to: no_forwarding(),
            },
        };
        assert(r.forward_to.deep_view() == expect.2);
        assert(r.response@.result == expect.1.result);
        assert(r.response@.error == expect.1.error);
        assert(self@ == expect.0);
        r
    }
}

} // verus!

verus! {

impl ServiceRegistry {
    /// The line by which the registry reports how many nodes are active.
    pub fn status_line(&self) -> (r: String)
        ensures
            r@ == "📊 Registry Status: "@ + spec_decimal(spec_active_count(self@)) + "/"@
                + spec_decimal(self@.len()) + " nodes active"@,
    {
        let (active, total) = self.status_counts();
        let mut r = String::from_str("📊 Registry Status: ");
        r.append(decimal(active as u64).as_str());
        r.append("/");
        r.append(decimal(total as u64).as_str());
        r.append(" nodes active");
        r
    }
}

/// An entry is listed to clients exactly when it is the entry of an active node.
pub proof fn lemma_active_entries_members(nodes: Seq<NodeView>, e: Seq<char>)
    ensures
        spec_active_entries(nodes).contains(e) <==> exists|k: int|
            0 <= k < nodes.len() && nodes[k].status == NodeStatus::Active && e == spec_node_entry(
                #[trigger] nodes[k],
            ),
    decreases nodes.len(),
{
    if nodes.len() > 0 {
        let t = nodes.drop_last();
        let before = spec_active_entries(t);
        lemma_active_entries_members(t, e);
        let list = spec_active_entries(nodes);
        if list.contains(e) {
            let j = choose|j: int| 0 <= j < list.len() && list[j] == e;
            if j < before.len() {
                assert(before.contains(e));
                let k = choose|k: int|
                    0 <= k < t.len() && t[k].status == NodeStatus::Active && e == spec_node_entry(
                        #[trigger] t[k],
                    );
                assert(nodes[k] == t[k]);
            } else {
                assert(nodes[nodes.len() - 1] == nodes.last());
            }
        }
        if exists|k: int|
            0 <= k < nodes.len() && nodes[k].status == NodeStatus::Active && e == spec_node_entry(
                #[trigger] nodes[k],
            ) {
            let k = choose|k: int|
                0 <= k < nodes.len() && nodes[k].status == NodeStatus::Active && e
                    == spec_node_entry(#[trigger] nodes[k]);
            if k < nodes.len() - 1 {
                assert(t[k] == nodes[k]);
                let j = choose|j: int| 0 <= j < before.len() && before[j] == e;
                if nodes.last().status == NodeStatus::Active {
                    assert(list[j] == e);
                }
            } else {
                assert(list[list.len() - 1] == e);
            }
        }
    }
}

/// The registry reports as many active nodes as it lists to clients.
pub proof fn law_active_count_matches_listing(nodes: Seq<NodeView>)
    ensures
        spec_active_count(nodes) == spec_active_entries(nodes).len(),
    decreases nodes.len(),
{
    if nodes.len() > 0 {
        law_active_count_matches_listing(nodes.drop_last());
    }
}

/// Registering a node makes it known at the given address, active and listed
/// to clients, keeps identifiers distinct, and leaves every other node as it was.
pub proof fn law_register(nodes: Seq<NodeView>, id: Seq<char>, address: Seq<char>, other: Seq<char>)
    requires
        spec_ids_distinct(nodes),
    ensures
        ({
            let after = spec_register(nodes, id, address);
            let n = NodeView { id, address, status: NodeStatus::Active };
            &&& spec_ids_distinct(after)
            &&& spec_has_node(after, id)
            &&& after[spec_node_index(after, id)] == n
            &&& spec_active_entries(after).contains(spec_node_entry(n))
            &&& (other != id ==> (spec_has_node(after, other) <==> spec_has_node(nodes, other)))
            &&& (other != id && spec_has_node(nodes, other) ==> after[spec_node_index(after, other)]
                == nodes[spec_node_index(nodes, other)])
        }),
{
    let after = spec_register(nodes, id, address);
    let n = NodeView { id, address, status: NodeStatus::Active };
    let k: int = if spec_has_node(nodes, id) {
        spec_node_index(nodes, id)
    } else {
        nodes.len() as int
    };
    assert(after[k] == n);
    assert(spec_ids_distinct(after)) by {
        assert forall|a: int, b: int| 0 <= a < b < after.len() implies #[trigger] after[a].id
            != #[trigger] after[b].id by {
            if a != k && b != k {
                assert(after[a] == nodes[a] && after[b] == nodes[b]);
            } else if a == k {
                assert(after[b] == nodes[b]);
                if spec_has_node(nodes, id) {
                    assert(nodes[k].id == id);
                } else {
                    assert(!(nodes[b].id == id));
                }
            } else {
                assert(after[a] == nodes[a]);
                if spec_has_node(nodes, id) {
                    assert(nodes[k].id == id);
                } else {
                    assert(!(nodes[a].id == id));
                }
            }
        }
    }
    assert(spec_has_node(after, id)) by {
        assert(after[k].id == id);
    }
    let j = spec_node_index(after, id);
    if j != k {
        if j < k {
            assert(after[j].id != after[k].id);
        } else {
            assert(after[k].id != after[j].id);
        }
    }
    lemma_active_entries_members(after, spec_node_entry(n));
    assert(after[k].status == NodeStatus::Active);
    if other != id {
        if spec_has_node(nodes, other) {
            let i = spec_node_index(nodes, other);
            assert(i != k);
            assert(after[i] == nodes[i]);
            let i2 = spec_node_index(after, other);
            if i2 != i {
                if i2 < i {
                    assert(after[i2].id != after[i].id);
                } else {
                    assert(after[i].id != after[i2].id);
                }
            }
        }
        if spec_has_node(after, other) {
            let i = spec_node_index(after, other);
            assert(i != k);
            assert(nodes[i] == after[i]);
        }
    }
}

/// After a failed health check of node `id`, every node with that identifier is
/// inactive, and everything listed to clients is the entry of an active node
/// with another identifier.
pub proof fn law_failed_health_check_hides_node(nodes: Seq<NodeView>, id: Seq<char>, e: Seq<char>)
    requires
        spec_ids_distinct(nodes),
    ensures
        ({
            let after = spec_set_status(nodes, id, spec_health_status(false));
            &&& forall|k: int|
                0 <= k < after.len() && #[trigger] after[k].id == id ==> after[k].status
                    == NodeStatus::Inactive
            &&& spec_active_entries(after).contains(e) ==> exists|k: int|
                0 <= k < after.len() && after[k].id != id && after[k].status == NodeStatus::Active
                    && e == spec_node_entry(#[trigger] after[k])
        }),
{
    let after = spec_set_status(nodes, id, spec_health_status(false));
    assert forall|k: int| 0 <= k < after.len() && #[trigger] after[k].id == id implies after[k].status
        == NodeStatus::Inactive by {
        if spec_has_node(nodes, id) {
            let i = spec_node_index(nodes, id);
            if k != i {
                assert(after[k] == nodes[k]);
                if k < i {
                    assert(nodes[k].id != nodes[i].id);
                } else {
                    assert(nodes[i].id != nodes[k].id);
                }
            }
        } else {
            assert(nodes[k].id == id);
        }
    }
    lemma_active_entries_members(after, e);
}

/// A `put` of any key other than `register` is passed on to every registered
/// node, active or not, and answered with neither result nor error; with no
/// node registered it is refused.
pub proof fn law_put_reaches_every_node(nodes: Seq<NodeView>, req: RequestView)
    requires
        req.params is Put,
        req.params->Put_key != "register"@,
    ensures
        ({
            let step = spec_registry_step(nodes, req);
            &&& step.0 == nodes
            &&& nodes.len() > 0 ==> step.2.len() == nodes.len() && (forall|i: int|
                0 <= i < nodes.len() ==> #[trigger] step.2[i] == nodes[i].address)
                && step.1.result is None && step.1.error is None
            &&& nodes.len() == 0 ==> step.2.len() == 0 && step.1.error == Some("No nodes available"@)
        }),
{
}

/// Every registry response answers the request it was given, by identifier.
pub proof fn law_registry_answers_request_id(nodes: Seq<NodeView>, req: RequestView)
    ensures
        spec_registry_step(nodes, req).1.id == req.id,
{
}

} // verus!

verus! {

/// No registered identifier holds a `:`.
pub open spec fn spec_ids_colon_free(nodes: Seq<NodeView>) -> bool {
    forall|k: int| 0 <= k < nodes.len() ==> !(#[trigger] nodes[k]).id.contains(':')
}

/// Replacing a node by one with the same identifier keeps identifiers distinct.
proof fn lemma_update_keeps_ids_distinct(nodes: Seq<NodeView>, i: int, n: NodeView)
    requires
        spec_ids_distinct(nodes),
        0 <= i < nodes.len(),
        n.id == nodes[i].id,
    ensures
        spec_ids_distinct(nodes.update(i, n)),
{
    let w = nodes.update(i, n);
    assert forall|a: int, b: int| 0 <= a < b < w.len() implies #[trigger] w[a].id
        != #[trigger] w[b].id by {
        assert(w[a].id == nodes[a].id && w[b].id == nodes[b].id);
    }
}

/// With distinct identifiers free of `:`, no entry is listed twice.
pub proof fn lemma_active_entries_distinct(nodes: Seq<NodeView>)
    requires
        spec_ids_distinct(nodes),
        spec_ids_colon_free(nodes),
    ensures
        spec_active_entries(nodes).no_duplicates(),
    decreases nodes.len(),
{
    if nodes.len() > 0 {
        let t = nodes.drop_last();
        let last = nodes.last();
        assert(spec_ids_distinct(t)) by {
            assert forall|a: int, b: int| 0 <= a < b < t.len() implies #[trigger] t[a].id
                != #[trigger] t[b].id by {
                assert(t[a] == nodes[a] && t[b] == nodes[b]);
            }
        }
        assert(spec_ids_colon_free(t)) by {
            assert forall|k: int| 0 <= k < t.len() implies !(#[trigger] t[k]).id.contains(':') by {
                assert(t[k] == nodes[k]);
            }
        }
        lemma_active_entries_distinct(t);
        if last.status == NodeStatus::Active {
            let before = spec_active_entries(t);
            let e = spec_node_entry(last);
            assert(!before.contains(e)) by {
                if before.contains(e) {
                    lemma_active_entries_members(t, e);
                    let k = choose|k: int|
                        0 <= k < t.len() && t[k].status == NodeStatus::Active && e
                            == spec_node_entry(#[trigger] t[k]);
                    assert(t[k] == nodes[k]);
                    assert(!nodes[nodes.len() - 1].id.contains(':'));
                    crate::text::lemma_first_piece_unique(
                        t[k].id,
                        t[k].address,
                        last.id,
                        last.address,
                        ':',
                    );
                    assert(nodes[k].id != nodes[nodes.len() - 1].id);
                }
            }
            let list = before.push(e);
            assert forall|a: int, b: int|
                0 <= a < list.len() && 0 <= b < list.len() && a != b implies list[a] != list[b] by {
                if a < before.len() && b < before.len() {
                    assert(list[a] == before[a] && list[b] == before[b]);
                } else if a < before.len() {
                    assert(list[a] == before[a]);
                } else {
                    assert(list[b] == before[b]);
                }
            }
        }
    }
}

/// Whether a request registers a node with identifier `id`.
pub open spec fn spec_registers(req: RequestView, id: Seq<char>) -> bool {
    match req.params {
        ParamsView::Put { key, value } => key == "register"@ && spec_split(value, ':').len() == 3
            && spec_split(value, ':')[0] == id,
        _ => false,
    }
}

/// What can happen to the registry: a request arrives, or a health check of
/// node `id` ends.
pub enum RegistryEvent {
    Request(RequestView),
    HealthCheck { id: Seq<char>, healthy: bool },
}

/// The nodes after one event.
pub open spec fn spec_apply_event(nodes: Seq<NodeView>, ev: RegistryEvent) -> Seq<NodeView> {
    match ev {
        RegistryEvent::Request(req) => spec_registry_step(nodes, req).0,
        RegistryEvent::HealthCheck { id, healthy } => spec_set_status(
            nodes,
            id,
            spec_health_status(healthy),
        ),
    }
}

/// The nodes after the events, in order.
pub open spec fn spec_apply_events(nodes: Seq<NodeView>, evs: Seq<RegistryEvent>) -> Seq<NodeView>
    decreases evs.len(),
{
    if evs.len() == 0 {
        nodes
    } else {
        spec_apply_event(spec_apply_events(nodes, evs.drop_last()), evs.last())
    }
}

/// Whether an event can make node `id` active again: its registration, or a
/// health check of it that succeeds.
pub open spec fn spec_revives(ev: RegistryEvent, id: Seq<char>) -> bool {
    match ev {
        RegistryEvent::Request(req) => spec_registers(req, id),
        RegistryEvent::HealthCheck { id: checked, healthy } => checked == id && healthy,
    }
}

/// The state that the law on failed nodes carries from event to event.
pub open spec fn spec_stays_hidden(nodes: Seq<NodeView>, x: Seq<char>) -> bool {
    &&& spec_ids_distinct(nodes)
    &&& spec_ids_colon_free(nodes)
    &&& forall|k: int|
        0 <= k < nodes.len() && #[trigger] nodes[k].id == x ==> nodes[k].status
            == NodeStatus::Inactive
}

proof fn lemma_event_keeps_hidden(nodes: Seq<NodeView>, ev: RegistryEvent, x: Seq<char>)
    requires
        spec_stays_hidden(nodes, x),
        !spec_revives(ev, x),
    ensures
        spec_stays_hidden(spec_apply_event(nodes, ev), x),
{
    match ev {
        RegistryEvent::HealthCheck { id, healthy } => {
            if spec_has_node(nodes, id) {
                let i = spec_node_index(nodes, id);
                let n = NodeView {
                    id: nodes[i].id,
                    address: nodes[i].address,
                    status: spec_health_status(healthy),
                };
                lemma_update_keeps_ids_distinct(nodes, i, n);
                let after = nodes.update(i, n);
                assert forall|k: int| 0 <= k < after.len() implies !(#[trigger] after[k]).id.contains(
                    ':',
                ) by {
                    assert(after[k].id == nodes[k].id);
                }
                assert forall|k: int| 0 <= k < after.len() && #[trigger] after[k].id == x implies after[k].status
                    == NodeStatus::Inactive by {
                    if k != i {
                        assert(after[k] == nodes[k]);
                    }
                }
            }
        },
        RegistryEvent::Request(req) => {
            let after = spec_registry_step(nodes, req).0;
            match req.params {
                ParamsView::Put { key, value } => {
                    if key == "register"@ && spec_split(value, ':').len() == 3 {
                        let parts = spec_split(value, ':');
                        let id = parts[0];
                        let address = parts[1] + seq![':'] + parts[2];
                        assert(after == spec_register(nodes, id, address));
                        assert(id != x);
                        crate::text::lemma_split_pieces_lack_sep(value, ':');
                        assert(!parts[0].contains(':'));
                        law_register(nodes, id, address, id);
                        let n = NodeView { id, address, status: NodeStatus::Active };
                        let j: int = if spec_has_node(nodes, id) {
                            spec_node_index(nodes, id)
                        } else {
                            nodes.len() as int
                        };
                        assert(after[j] == n);
                        assert forall|k: int| 0 <= k < after.len() implies !(#[trigger] after[k]).id.contains(
                            ':',
                        ) by {
                            if k != j {
                                assert(after[k] == nodes[k]);
                            }
                        }
                        assert forall|k: int| 0 <= k < after.len() && #[trigger] after[k].id == x implies after[k].status
                            == NodeStatus::Inactive by {
                            if k != j {
                                assert(after[k] == nodes[k]);
                            }
                        }
                    } else {
                        assert(after == nodes);
                    }
                },
                _ => {
                    assert(after == nodes);
                },
            }
        },
    }
}

proof fn lemma_failed_check_hides(nodes: Seq<NodeView>, x: Seq<char>)
    requires
        spec_ids_distinct(nodes),
        spec_ids_colon_free(nodes),
    ensures
        spec_stays_hidden(spec_set_status(nodes, x, spec_health_status(false)), x),
{
    law_failed_health_check_hides_node(nodes, x, Seq::<char>::empty());
    let after = spec_set_status(nodes, x, spec_health_status(false));
    if spec_has_node(nodes, x) {
        let i = spec_node_index(nodes, x);
        let n = NodeView { id: nodes[i].id, address: nodes[i].address, status: NodeStatus::Inactive };
        lemma_update_keeps_ids_distinct(nodes, i, n);
        assert forall|k: int| 0 <= k < after.len() implies !(#[trigger] after[k]).id.contains(':') by {
            assert(after[k].id == nodes[k].id);
        }
    }
}

proof fn lemma_events_keep_hidden(nodes: Seq<NodeView>, evs: Seq<RegistryEvent>, x: Seq<char>)
    requires
        spec_stays_hidden(nodes, x),
        forall|i: int| 0 <= i < evs.len() ==> !spec_revives(#[trigger] evs[i], x),
    ensures
        spec_stays_hidden(spec_apply_events(nodes, evs), x),
    decreases evs.len(),
{
    if evs.len() > 0 {
        let t = evs.drop_last();
        assert forall|i: int| 0 <= i < t.len() implies !spec_revives(#[trigger] t[i], x) by {
            assert(t[i] == evs[i]);
        }
        lemma_events_keep_hidden(nodes, t, x);
        assert(!spec_revives(evs[evs.len() - 1], x));
        lemma_event_keeps_hidden(spec_apply_events(nodes, t), evs.last(), x);
    }
}

/// A node that failed a health check is not offered to clients again until it
/// registers again or passes a health check: whatever requests arrive and
/// whatever other checks end meanwhile, every node with its identifier stays
/// inactive, and no listed entry starts with its identifier and `:`. The
/// requirements on `nodes` are those that every [`ServiceRegistry`] keeps as its
/// invariant (see the `ensures` of its constructor and of every method that
/// changes it).
pub proof fn law_failed_node_stays_hidden(
    nodes: Seq<NodeView>,
    x: Seq<char>,
    evs: Seq<RegistryEvent>,
    address: Seq<char>,
)
    requires
        spec_ids_distinct(nodes),
        spec_ids_colon_free(nodes),
        !x.contains(':'),
        forall|i: int| 0 <= i < evs.len() ==> !spec_revives(#[trigger] evs[i], x),
    ensures
        ({
            let after = spec_apply_events(spec_set_status(nodes, x, spec_health_status(false)), evs);
            &&& forall|k: int|
                0 <= k < after.len() && #[trigger] after[k].id == x ==> after[k].status
                    == NodeStatus::Inactive
            &&& !spec_active_entries(after).contains(x + seq![':'] + address)
        }),
{
    let start = spec_set_status(nodes, x, spec_health_status(false));
    lemma_failed_check_hides(nodes, x);
    lemma_events_keep_hidden(start, evs, x);
    let after = spec_apply_events(start, evs);
    let e = x + seq![':'] + address;
    if spec_active_entries(after).contains(e) {
        lemma_active_entries_members(after, e);
        let k = choose|k: int|
            0 <= k < after.len() && after[k].status == NodeStatus::Active && e == spec_node_entry(
                #[trigger] after[k],
            );
        assert(!after[k].id.contains(':'));
        crate::text::lemma_first_piece_unique(after[k].id, after[k].address, x, address, ':');
    }
}

/// Registering `i:p:o` (no part holding a `:`) makes the next discovery list
/// exactly that string, exactly once. The requirements on `nodes` are the
/// invariant that every [`ServiceRegistry`] keeps.
pub proof fn law_registration_listed_once(
    nodes: Seq<NodeView>,
    req: RequestView,
    i: Seq<char>,
    p: Seq<char>,
    o: Seq<char>,
)
    requires
        spec_ids_distinct(nodes),
        spec_ids_colon_free(nodes),
        !i.contains(':'),
        !p.contains(':'),
        !o.contains(':'),
        req.params == (ParamsView::Put {
            key: "register"@,
            value: i + seq![':'] + p + seq![':'] + o,
        }),
    ensures
        ({
            let list = spec_active_entries(spec_registry_step(nodes, req).0);
            let s = i + seq![':'] + p + seq![':'] + o;
            exists|j: int|
                0 <= j < list.len() && list[j] == s && forall|j2: int|
                    0 <= j2 < list.len() && #[trigger] list[j2] == s ==> j2 == j
        }),
{
    let rest = p + seq![':'] + o;
    let value = i + seq![':'] + p + seq![':'] + o;
    assert(value == i + seq![':'] + rest);
    crate::text::lemma_split_without_sep(o, ':');
    crate::text::lemma_split_after_first(p, ':', o);
    crate::text::lemma_split_after_first(i, ':', rest);
    let parts = spec_split(value, ':');
    assert(parts == seq![i, p, o]);
    assert(parts[1] + seq![':'] + parts[2] == rest);
    let after = spec_register(nodes, i, rest);
    assert(spec_registry_step(nodes, req).0 == after);
    law_register(nodes, i, rest, i);
    let n = NodeView { id: i, address: rest, status: NodeStatus::Active };
    let k: int = if spec_has_node(nodes, i) {
        spec_node_index(nodes, i)
    } else {
        nodes.len() as int
    };
    assert(after[k] == n);
    assert(spec_ids_colon_free(after)) by {
        assert forall|m: int| 0 <= m < after.len() implies !(#[trigger] after[m]).id.contains(':') by {
            if m != k {
                assert(after[m] == nodes[m]);
            }
        }
    }
    lemma_active_entries_distinct(after);
    let list = spec_active_entries(after);
    let s = spec_node_entry(n);
    assert(s == value);
    assert(list.contains(s));
    let j = choose|j: int| 0 <= j < list.len() && list[j] == s;
    assert forall|j2: int| 0 <= j2 < list.len() && #[trigger] list[j2] == s implies j2 == j by {
        if j2 != j {
            assert(list[j2] == list[j]);
        }
    }
}

} // verus!
