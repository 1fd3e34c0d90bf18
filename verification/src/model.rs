//! The messages that clients, nodes and the registry exchange, and the
//! mathematical values they stand for.
use vstd::prelude::*;

verus! {

/// What a request asks for.
#[derive(Debug)]
pub enum RpcParams {
    Get { key: String },
    Put { key: String, value: String },
    ListKeys,
    Ping { message: String },
}

/// A request: its identifier, the name of its method and its parameters.
#[derive(Debug)]
pub struct RpcRequest {
    pub id: u64,
    pub method: String,
    pub params: RpcParams,
}

/// What a successful request gives back.
#[derive(Debug)]
pub enum RpcResult {
    GetResult { value: Option<String> },
    PutResult { success: bool },
    ListResult { keys: Vec<String> },
    PingResult { response: String },
}

/// A response: the identifier of the request it answers, and a result or an error.
#[derive(Debug)]
pub struct RpcResponse {
    pub id: u64,
    pub result: Option<RpcResult>,
    pub error: Option<String>,
}

/// Whether a registered node answered its last health check.
#[derive(Debug, Clone, Copy, PartialEq, Eq, Structural)]
pub enum NodeStatus {
    Active,
    Inactive,
}

/// A node as the registry knows it.
#[derive(Debug)]
pub struct NodeInfo {
    pub id: String,
    pub address: String,
    pub status: NodeStatus,
}

/// The value of [`RpcParams`], strings taken as character sequences.
pub enum ParamsView {
    Get { key: Seq<char> },
    Put { key: Seq<char>, value: Seq<char> },
    ListKeys,
    Ping { message: Seq<char> },
}

/// The value of [`RpcRequest`].
pub struct RequestView {
    pub id: u64,
    pub method: Seq<char>,
    pub params: ParamsView,
}

/// The value of [`RpcResult`].
pub enum ResultView {
    GetResult { value: Option<Seq<char>> },
    PutResult { success: bool },
    ListResult { keys: Seq<Seq<char>> },
    PingResult { response: Seq<char> },
}

/// The value of [`RpcResponse`].
pub struct ResponseView {
    pub id: u64,
    pub result: Option<ResultView>,
    pub error: Option<Seq<char>>,
}

/// The value of [`NodeInfo`].
pub struct NodeView {
    pub id: Seq<char>,
    pub address: Seq<char>,
    pub status: NodeStatus,
}

impl View for RpcParams {
    type V = ParamsView;

    open spec fn view(&self) -> ParamsView {
        match self {
            RpcParams::Get { key } => ParamsView::Get { key: key@ },
            RpcParams::Put { key, value } => ParamsView::Put { key: key@, value: value@ },
            RpcParams::ListKeys => ParamsView::ListKeys,
            RpcParams::Ping { message } => ParamsView::Ping { message: message@ },
        }
    }
}

impl View for RpcRequest {
    type V = RequestView;

    open spec fn view(&self) -> RequestView {
        RequestView { id: self.id, method: self.method@, params: self.params@ }
    }
}

impl View for RpcResult {
    type V = ResultView;

    open spec fn view(&self) -> ResultView {
        match self {
            RpcResult::GetResult { value } => ResultView::GetResult {
                value: match value {
                    Some(v) => Some(v@),
                    None => None,
                },
            },
            RpcResult::PutResult { success } => ResultView::PutResult { success: *success },
            RpcResult::ListResult { keys } => ResultView::ListResult { keys: keys.deep_view() },
            RpcResult::PingResult { response } => ResultView::PingResult { response: response@ },
        }
    }
}

impl View for RpcResponse {
    type V = ResponseView;

    open spec fn view(&self) -> ResponseView {
        ResponseView {
            id: self.id,
            result: match self.result {
                Some(r) => Some(r@),
                None => None,
            },
            error: match self.error {
                Some(e) => Some(e@),
                None => None,
            },
        }
    }
}

impl View for NodeInfo {
    type V = NodeView;

    open spec fn view(&self) -> NodeView {
        NodeView { id: self.id@, address: self.address@, status: self.status }
    }
}

/// The method name that goes with each kind of parameters.
pub open spec fn spec_method_name(params: ParamsView) -> Seq<char> {
    match params {
        ParamsView::Get { .. } => "get"@,
        ParamsView::Put { .. } => "put"@,
        ParamsView::ListKeys => "list"@,
        ParamsView::Ping { .. } => "ping"@,
    }
}

/// The method name that goes with `params`.
pub fn method_name(params: &RpcParams) -> (r: String)
    ensures
        r@ == spec_method_name(params@),
{
    match params {
        RpcParams::Get { .. } => String::from_str("get"),
        RpcParams::Put { .. } => String::from_str("put"),
        RpcParams::ListKeys => String::from_str("list"),
        RpcParams::Ping { .. } => String::from_str("ping"),
    }
}

} // verus!
