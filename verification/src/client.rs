//! The interactive client: what it does with each line typed, which node it
//! sends a request to, what it makes of the registry's answers and how it
//! shows responses.
use vstd::prelude::*;
use rand::seq::SliceRandom;
use crate::command::{CommandError, parse_client_command, spec_command_params};
use crate::model::{
    RpcParams, RpcRequest, RpcResponse, RpcResult, ParamsView, RequestView, ResponseView, ResultView,
    spec_method_name,
};
use crate::text::{
    spec_join, spec_split, spec_words, spec_trim, spec_decimal, split_on, join_from, trim, decimal,
};

verus! {

/// The address in a discovery entry `id:address`: everything after the first
/// `:` (nothing, where there is no `:`).
pub open spec fn spec_node_address(entry: Seq<char>) -> Seq<char> {
    spec_join(spec_split(entry, ':').skip(1), seq![':'])
}

/// The address in a discovery entry `id:address`.
pub fn node_address(entry: &str) -> (r: String)
    ensures
        r@ == spec_node_address(entry@),
{
    let parts = split_on(entry, ':');
    proof {
        crate::text::lemma_split_nonempty(entry@, ':');
        reveal_strlit(":");
        assert(":"@ == seq![':']);
    }
    join_from(&parts, 1, ":")
}

/// One of `nodes`, picked at random with `rand`'s `SliceRandom::choose` and
/// the thread-local generator. The contract claims what `choose` documents:
/// nothing for an empty slice, otherwise one of its elements.
#[verifier::external_body]
fn choose_entry(nodes: &Vec<String>) -> (r: Option<String>)
    ensures
        r is None <==> nodes@.len() == 0,
        r matches Some(s) ==> exists|i: int| 0 <= i < nodes@.len() && s@ == nodes@[i]@,
{
    nodes.choose(&mut rand::thread_rng()).cloned()
}

/// The address of a node picked at random from the discovery entries `nodes`,
/// or `None` where there is none.
pub fn pick_node(nodes: &Vec<String>) -> (r: Option<String>)
    ensures
        r is None <==> nodes@.len() == 0,
        r matches Some(a) ==> exists|i: int|
            0 <= i < nodes@.len() && a@ == spec_node_address(nodes@[i]@),
{
    match choose_entry(nodes) {
        Some(entry) => Some(node_address(entry.as_str())),
        None => None,
    }
}

/// The request by which a client asks the registry for the active nodes.
pub open spec fn spec_discovery_request() -> RequestView {
    RequestView { id: 1, method: "get"@, params: ParamsView::Get { key: "nodes"@ } }
}

/// The request by which a client asks the registry for the active nodes.
pub fn discovery_request() -> (r: RpcRequest)
    ensures
        r@ == spec_discovery_request(),
{
    RpcRequest {
        id: 1,
        method: String::from_str("get"),
        params: RpcParams::Get { key: String::from_str("nodes") },
    }
}

/// The node entries in the registry's answer to discovery: the listed keys,
/// or none where the answer is of another kind or an error.
pub open spec fn spec_discovered_nodes(response: ResponseView) -> Seq<Seq<char>> {
    match response.result {
        Some(ResultView::ListResult { keys }) => keys,
        _ => seq![],
    }
}

/// The node entries in the registry's answer to discovery.
pub fn nodes_from_response(response: RpcResponse) -> (r: Vec<String>)
    ensures
        r.deep_view() == spec_discovered_nodes(response@),
        response.result matches Some(RpcResult::ListResult { keys }) ==> r.deep_view()
            == keys.deep_view(),
        !(response.result matches Some(RpcResult::ListResult { .. })) ==> r.len() == 0,
{
    match response.result {
        Some(RpcResult::ListResult { keys }) => keys,
        _ => {
            let r: Vec<String> = Vec::new();
            assert(r.deep_view() == Seq::<Seq<char>>::empty());
            r
        },
    }
}

/// What a line typed at the client asks for.
pub enum ClientCommand {
    /// A blank line: nothing to do.
    Skip,
    /// `q` or `quit`.
    Quit,
    /// `nodes`: discover the active nodes again.
    RefreshNodes,
    /// A line that is no command.
    Reject(CommandError),
    /// A `put`, which goes to the registry.
    ToRegistry(RpcRequest),
    /// Any other request, which goes to one node.
    ToNode(RpcRequest),
}

/// What the line `line` asks for, where the next request gets identifier `id`.
/// The line is trimmed first; `q`, `quit` and `nodes` are the client's own
/// commands, anything else is parsed as a request.
pub open spec fn spec_classify(line: Seq<char>, id: u64, c: ClientCommand) -> bool {
    let t = spec_trim(line);
    if t.len() == 0 {
        c is Skip
    } else if t == "q"@ || t == "quit"@ {
        c is Quit
    } else if t == "nodes"@ {
        c is RefreshNodes
    } else {
        match spec_command_params(spec_words(t)) {
            Err(e) => c == ClientCommand::Reject(e),
            Ok(p) => match c {
                ClientCommand::ToRegistry(req) => p is Put && req.params@ == p && req.id == id
                    && req.method@ == spec_method_name(p),
                ClientCommand::ToNode(req) => !(p is Put) && req.params@ == p && req.id == id
                    && req.method@ == spec_method_name(p),
                _ => false,
            },
        }
    }
}

/// Classifies one line typed at the client.
pub fn classify_line(line: &str, id: u64) -> (r: ClientCommand)
    ensures
        spec_classify(line@, id, r),
        r matches ClientCommand::ToRegistry(req) ==> req.params@ is Put && req.id == id,
        r matches ClientCommand::ToNode(req) ==> !(req.params@ is Put) && req.id == id,
{
    let t = trim(line);
    if t.as_str().is_empty() {
        return ClientCommand::Skip;
    }
    if t == String::from_str("q") || t == String::from_str("quit") {
        return ClientCommand::Quit;
    }
    if t == String::from_str("nodes") {
        return ClientCommand::RefreshNodes;
    }
    match parse_client_command(t.as_str(), id) {
        Err(e) => ClientCommand::Reject(e),
        Ok(req) => {
            let is_put = match &req.params {
                RpcParams::Put { .. } => true,
                _ => false,
            };
            if is_put {
                ClientCommand::ToRegistry(req)
            } else {
                ClientCommand::ToNode(req)
            }
        },
    }
}

} // verus!

verus! {

/// Where a request goes.
pub enum Destination {
    /// The registry, which passes `put` requests on to every node.
    Registry,
    /// The node at this address.
    Node(String),
}

/// What the client does with one line.
pub enum ClientAction {
    Skip,
    Quit,
    RefreshNodes,
    Reject(CommandError),
    /// Send the request; the client's next request then takes the next identifier.
    Send { request: RpcRequest, destination: Destination },
    /// A request for a node while no node is known.
    NoNodes,
}

/// The client's state between lines: the identifier of its next request and the
/// node entries it last discovered.
pub struct ClientSession {
    pub request_id: u64,
    pub nodes: Vec<String>,
}

impl ClientSession {
    /// A session that knows `nodes` and starts numbering requests at 1.
    pub fn new(nodes: Vec<String>) -> (r: Self)
        ensures
            r.request_id == 1,
            r.nodes@ == nodes@,
    {
        ClientSession { request_id: 1, nodes }
    }

    /// A session after the first discovery: none where no node was found (the
    /// client then has nothing to talk to and stops), otherwise a session that
    /// knows `nodes` and starts numbering requests at 1.
    pub fn start(nodes: Vec<String>) -> (r: Option<Self>)
        ensures
            r is None <==> nodes@.len() == 0,
            r matches Some(s) ==> s.request_id == 1 && s.nodes@ == nodes@,
    {
        if nodes.len() == 0 {
            None
        } else {
            Some(ClientSession::new(nodes))
        }
    }

    /// What to do with the line `line`. A request for a node goes to the address
    /// of a node picked at random from the known entries.
    pub fn next_action(&self, line: &str) -> (r: ClientAction)
        ensures
            match r {
                ClientAction::Skip => spec_classify(line@, self.request_id, ClientCommand::Skip),
                ClientAction::Quit => spec_classify(line@, self.request_id, ClientCommand::Quit),
                ClientAction::RefreshNodes => spec_classify(
                    line@,
                    self.request_id,
                    ClientCommand::RefreshNodes,
                ),
                ClientAction::Reject(e) => spec_classify(
                    line@,
                    self.request_id,
                    ClientCommand::Reject(e),
                ),
                ClientAction::Send { request, destination: Destination::Registry } => spec_classify(
                    line@,
                    self.request_id,
                    ClientCommand::ToRegistry(request),
                ),
                ClientAction::Send { request, destination: Destination::Node(a) } => {
                    &&& spec_classify(line@, self.request_id, ClientCommand::ToNode(request))
                    &&& exists|i: int|
                        0 <= i < self.nodes@.len() && a@ == spec_node_address(self.nodes@[i]@)
                },
                ClientAction::NoNodes => {
                    &&& self.nodes@.len() == 0
                    &&& exists|req: RpcRequest|
                        #[trigger] spec_classify(line@, self.request_id, ClientCommand::ToNode(req))
                },
            },
    {
        match classify_line(line, self.request_id) {
            ClientCommand::Skip => ClientAction::Skip,
            ClientCommand::Quit => ClientAction::Quit,
            ClientCommand::RefreshNodes => ClientAction::RefreshNodes,
            ClientCommand::Reject(e) => ClientAction::Reject(e),
            ClientCommand::ToRegistry(request) => ClientAction::Send {
                request,
                destination: Destination::Registry,
            },
            ClientCommand::ToNode(request) => {
                let ghost c = ClientCommand::ToNode(request);
                match pick_node(&self.nodes) {
                    Some(a) => ClientAction::Send { request, destination: Destination::Node(a) },
                    None => {
                        assert(spec_classify(line@, self.request_id, c));
                        ClientAction::NoNodes
                    },
                }
            },
        }
    }

    /// Records that a request was sent: the next one takes the next identifier.
    pub fn request_sent(&mut self)
        requires
            old(self).request_id < u64::MAX,
        ensures
            final(self).request_id == old(self).request_id + 1,
            final(self).nodes@ == old(self).nodes@,
    {
        self.request_id = self.request_id + 1;
    }

    /// Replaces the known node entries with freshly discovered ones.
    pub fn set_nodes(&mut self, nodes: Vec<String>)
        ensures
            final(self).request_id == old(self).request_id,
            final(self).nodes@ == nodes@,
    {
        self.nodes = nodes;
    }
}

/// The lines by which the client shows a response.
pub open spec fn spec_response_lines(response: ResponseView) -> Seq<Seq<char>> {
    match response.result {
        Some(ResultView::GetResult { value }) => match value {
            Some(v) => seq!["✅ Found: "@ + v],
            None => seq!["❌ Key not found"@],
        },
        Some(ResultView::PutResult { success }) => if success {
            seq!["✅ Value stored successfully"@]
        } else {
            seq!["❌ Failed to store value"@]
        },
        Some(ResultView::ListResult { keys }) => seq![
            "📋 Keys ("@ + spec_decimal(keys.len()) + "):"@,
        ] + keys.map_values(|k: Seq<char>| "  - "@ + k),
        Some(ResultView::PingResult { response }) => seq!["🏓 "@ + response],
        None => match response.error {
            Some(e) => seq!["❌ Error: "@ + e],
            None => seq![],
        },
    }
}

fn prefixed(prefix: &str, text: &str) -> (r: String)
    ensures
        r@ == prefix@ + text@,
{
    let mut r = String::from_str(prefix);
    r.append(text);
    r
}

/// The lines by which the client shows `response`.
pub fn response_lines(response: &RpcResponse) -> (r: Vec<String>)
    ensures
        r.deep_view() == spec_response_lines(response@),
{
    let mut lines: Vec<String> = Vec::new();
    match &response.result {
        Some(RpcResult::GetResult { value }) => match value {
            Some(v) => lines.push(prefixed("✅ Found: ", v.as_str())),
            None => lines.push(String::from_str("❌ Key not found")),
        },
        Some(RpcResult::PutResult { success }) => {
            if *success {
                lines.push(String::from_str("✅ Value stored successfully"));
            } else {
                lines.push(String::from_str("❌ Failed to store value"));
            }
        },
        Some(RpcResult::ListResult { keys }) => {
            let mut head = String::from_str("📋 Keys (");
            head.append(decimal(keys.len() as u64).as_str());
            head.append("):");
            lines.push(head);
            let ghost first = lines.deep_view();
            let ghost ks = keys.deep_view();
            let ghost shown = ks.map_values(|k: Seq<char>| "  - "@ + k);
            for i in 0..keys.len()
                invariant
                    ks == keys.deep_view(),
                    shown == ks.map_values(|k: Seq<char>| "  - "@ + k),
                    first.len() == 1,
                    lines.deep_view() == first + shown.take(i as int),
            {
                let ghost prev = lines.deep_view();
                lines.push(prefixed("  - ", keys[i].as_str()));
                assert(shown.take(i + 1) == shown.take(i as int).push(shown[i as int]));
                assert(lines.deep_view() == prev.push(shown[i as int]));
            }
            assert(shown.take(keys.len() as int) == shown);
        },
        Some(RpcResult::PingResult { response }) => lines.push(prefixed("🏓 ", response.as_str())),
        None => match &response.error {
            Some(e) => lines.push(prefixed("❌ Error: ", e.as_str())),
            None => {},
        },
    }
    lines
}

} // verus!

verus! {

/// The client finds a node's address in the registry's entry for it, provided
/// the node's identifier holds no `:`.
pub proof fn law_node_address_of_entry(n: crate::model::NodeView)
    requires
        !n.id.contains(':'),
    ensures
        spec_node_address(crate::registry::spec_node_entry(n)) == n.address,
{
    crate::text::lemma_split_after_first(n.id, ':', n.address);
    assert(n.id + seq![':'] + n.address == crate::registry::spec_node_entry(n));
    let pieces = seq![n.id] + spec_split(n.address, ':');
    assert(pieces.skip(1) == spec_split(n.address, ':'));
    crate::text::lemma_join_split(n.address, ':');
}

/// A request typed at the client goes to the registry exactly when it is a
/// `put`; a `get`, `list` or `ping` goes to a node. Either way it carries the
/// parsed parameters and the session's identifier.
pub proof fn law_dispatch_by_kind(line: Seq<char>, id: u64, c: ClientCommand, p: ParamsView)
    requires
        spec_classify(line, id, c),
        spec_command_params(spec_words(spec_trim(line))) == Ok::<ParamsView, CommandError>(p),
        !(spec_trim(line).len() == 0 || spec_trim(line) == "q"@ || spec_trim(line) == "quit"@
            || spec_trim(line) == "nodes"@),
    ensures
        p is Put ==> (c matches ClientCommand::ToRegistry(r) && r.params@ == p && r.id == id),
        !(p is Put) ==> (c matches ClientCommand::ToNode(r) && r.params@ == p && r.id == id),
{
}

/// The client knows every node that discovery lists, in the listed order, and
/// none where the registry answers anything but a list.
pub proof fn law_discovery_keeps_every_entry(response: ResponseView)
    ensures
        response.result matches Some(ResultView::ListResult { keys }) ==> spec_discovered_nodes(
            response,
        ) == keys,
        !(response.result matches Some(ResultView::ListResult { .. })) ==> spec_discovered_nodes(
            response,
        ).len() == 0,
{
}

/// A list of keys is shown as a header naming how many keys there are,
/// followed by one line per key in order; every other result, and an error, is
/// shown as a single line, and a response with neither shows nothing.
pub proof fn law_display_shape(response: ResponseView)
    ensures
        response.result matches Some(ResultView::ListResult { keys }) ==> {
            let lines = spec_response_lines(response);
            &&& lines.len() == keys.len() + 1
            &&& lines[0] == "📋 Keys ("@ + spec_decimal(keys.len()) + "):"@
            &&& forall|i: int| 0 <= i < keys.len() ==> #[trigger] lines[i + 1] == "  - "@ + keys[i]
        },
        response.result is Some && !(response.result matches Some(ResultView::ListResult { .. }))
            ==> spec_response_lines(response).len() == 1,
        response.result is None ==> spec_response_lines(response).len() == (if response.error is Some {
            1int
        } else {
            0int
        }),
{
    if let Some(ResultView::ListResult { keys }) = response.result {
        let lines = spec_response_lines(response);
        let shown = keys.map_values(|k: Seq<char>| "  - "@ + k);
        assert(lines == seq!["📋 Keys ("@ + spec_decimal(keys.len()) + "):"@] + shown);
        assert forall|i: int| 0 <= i < keys.len() implies #[trigger] lines[i + 1] == "  - "@
            + keys[i] by {
            assert(lines[i + 1] == shown[i]);
        }
    }
}

} // verus!
