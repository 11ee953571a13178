//! Types shared across the server: transaction origins, request information,
//! connection settings, hook payloads that carry no document, and the socket
//! abstraction.

use std::collections::HashMap;
use std::sync::Arc;
use vstd::prelude::*;
use vstd::string::{StrSliceExecFns, StringExecFns};

use crate::common::routing_key::first_index_of;
use crate::common::WsReadyState;

verus! {

/// A value an extension attaches to a connection.
pub trait ContextValue: Send + Sync {

}

impl<T: Send + Sync> ContextValue for T {

}

/// The context handed from hook to hook for a connection: empty, or a value
/// an extension put there.
#[derive(Clone)]
pub struct Context {
    pub value: Option<Arc<dyn ContextValue>>,
}

/// The context a connection starts with.
pub fn empty_context() -> (c: Context)
    ensures
        c.value is None,
{
    Context { value: None }
}

/// How a client's connection is configured.
#[derive(Debug, Clone, Copy, PartialEq, Eq, Structural)]
pub struct ConnectionConfiguration {
    pub read_only: bool,
    pub is_authenticated: bool,
}

impl Default for ConnectionConfiguration {
    fn default() -> (c: Self)
        ensures
            !c.read_only,
            !c.is_authenticated,
    {
        Self { read_only: false, is_authenticated: false }
    }
}

/// The clients whose awareness states an update added, changed and removed.
#[derive(Debug, Clone)]
pub struct AwarenessUpdate {
    pub added: Vec<u64>,
    pub updated: Vec<u64>,
    pub removed: Vec<u64>,
}

/// A change made by a client connection.
#[derive(Debug, Clone)]
pub struct ConnectionTransactionOrigin {
    pub connection_id: String,
}

/// A change made on the server itself.
#[derive(Clone)]
pub struct LocalTransactionOrigin {
    pub skip_store_hooks: bool,
    pub context: Option<Context>,
}

impl Default for LocalTransactionOrigin {
    fn default() -> (o: Self)
        ensures
            !o.skip_store_hooks,
            o.context is None,
    {
        Self { skip_store_hooks: false, context: None }
    }
}

/// Where a change to a document came from.
#[derive(Clone)]
pub enum TransactionOrigin {
    Connection(ConnectionTransactionOrigin),
    Redis,
    Local(LocalTransactionOrigin),
}

/// Whether an origin is known.
pub fn is_transaction_origin(origin: &Option<TransactionOrigin>) -> (b: bool)
    ensures
        b == origin is Some,
{
    origin.is_some()
}

/// Whether a change of this origin must not trigger the store hooks: changes
/// that came through Redis never do, local changes when they say so,
/// connection changes and changes of unknown origin always do.
pub open spec fn spec_should_skip_store_hooks(origin: Option<TransactionOrigin>) -> bool {
    match origin {
        Some(TransactionOrigin::Connection(_)) => false,
        Some(TransactionOrigin::Redis) => true,
        Some(TransactionOrigin::Local(local)) => local.skip_store_hooks,
        None => false,
    }
}

/// Whether a change of this origin must not trigger the store hooks (see
/// [`spec_should_skip_store_hooks`]).
pub fn should_skip_store_hooks(origin: &Option<TransactionOrigin>) -> (b: bool)
    ensures
        b == spec_should_skip_store_hooks(*origin),
{
    match origin {
        Some(TransactionOrigin::Connection(_)) => false,
        Some(TransactionOrigin::Redis) => true,
        Some(TransactionOrigin::Local(local)) => local.skip_store_hooks,
        None => false,
    }
}

/// What the upgrade request of a connection carried.
#[derive(Debug, Clone)]
pub struct RequestInfo {
    pub headers: HashMap<String, String>,
    pub parameters: HashMap<String, String>,
    pub url: String,
}

impl Default for RequestInfo {
    fn default() -> (r: Self)
        ensures
            r.headers@ == Map::<String, String>::empty(),
            r.parameters@ == Map::<String, String>::empty(),
            r.url@ == Seq::<char>::empty(),
    {
        Self { headers: HashMap::new(), parameters: HashMap::new(), url: String::new() }
    }
}

/// The parameters of a URL query string, decoded as
/// `application/x-www-form-urlencoded`, a later value of a name replacing an
/// earlier one.
pub uninterp spec fn form_urlencoded_parameters(query: Seq<char>) -> Map<String, String>;

/// The parameters of the query string `query`.
#[verifier::external_body]
fn parse_query(query: &str) -> (params: HashMap<String, String>)
    ensures
        params@ == form_urlencoded_parameters(query@),
{
    url::form_urlencoded::parse(query.as_bytes()).into_owned().collect()
}

/// The parameters of `url`: those of the text after its first `?`, or none.
pub open spec fn spec_url_parameters(url: Seq<char>) -> Map<String, String> {
    match first_index_of(url, '?') {
        Some(i) => form_urlencoded_parameters(url.subrange(i + 1, url.len() as int)),
        None => Map::empty(),
    }
}

/// The query parameters of `url` (see [`spec_url_parameters`]).
pub fn get_parameters(url: &str) -> (params: HashMap<String, String>)
    ensures
        params@ == spec_url_parameters(url@),
{
    proof {
        crate::common::routing_key::lemma_first_index_of(url@, '?');
    }
    let n = url.unicode_len();
    let mut i: usize = 0;
    while i < n
        invariant
            n == url@.len(),
            i <= n,
            forall|j: int| 0 <= j < i ==> url@[j] != '?',
        decreases n - i,
    {
        if url.get_char(i) == '?' {
            assert(first_index_of(url@, '?') == Some(i as int)) by {
                crate::common::routing_key::lemma_first_index_of(url@, '?');
                match first_index_of(url@, '?') {
                    Some(k) => {
                        if k > i {
                            assert(url@[i as int] != '?');
                        }
                    },
                    None => {
                        assert(url@[i as int] == '?');
                    },
                }
            }
            let query = url.substring_char(i + 1, n);
            return parse_query(query);
        }
        i = i + 1;
    }
    HashMap::new()
}

impl RequestInfo {
    /// The request for `url`: its query parameters, no headers.
    pub fn from_url(url: &str) -> (r: Self)
        ensures
            r.headers@ == Map::<String, String>::empty(),
            r.parameters@ == spec_url_parameters(url@),
            r.url@ == url@,
    {
        let parameters = get_parameters(url);
        Self { headers: HashMap::new(), parameters, url: String::from_str(url) }
    }

    /// The request of a connection opened on the server itself.
    pub fn localhost() -> (r: Self)
        ensures
            r.headers@ == Map::<String, String>::empty(),
            r.parameters@ == Map::<String, String>::empty(),
            r.url@ == "http://localhost"@,
    {
        Self {
            headers: HashMap::new(),
            parameters: HashMap::new(),
            url: String::from_str("http://localhost"),
        }
    }
}

// ──── hook payloads ────

/// Passed to `on_configure`.
#[derive(Clone)]
pub struct OnConfigurePayload {
    pub version: String,
}

/// Passed to `on_listen`.
pub struct OnListenPayload {
    pub port: u16,
}

/// Passed to `on_connect`.
pub struct OnConnectPayload {
    pub context: Context,
    pub document_name: String,
    pub request: RequestInfo,
    pub socket_id: String,
    pub connection_config: ConnectionConfiguration,
    pub provider_version: Option<String>,
}

/// Passed to `connected`.
pub struct ConnectedPayload {
    pub context: Context,
    pub document_name: String,
    pub request: RequestInfo,
    pub socket_id: String,
    pub connection_config: ConnectionConfiguration,
    pub connection_id: String,
    pub provider_version: Option<String>,
}

/// Passed to `on_authenticate`.
pub struct OnAuthenticatePayload {
    pub context: Context,
    pub document_name: String,
    pub request: RequestInfo,
    pub socket_id: String,
    pub token: String,
    pub connection_config: ConnectionConfiguration,
    pub provider_version: Option<String>,
}

/// Passed to `on_create_document`.
pub struct OnCreateDocumentPayload {
    pub context: Context,
    pub document_name: String,
    pub request: RequestInfo,
    pub socket_id: String,
    pub connection_config: ConnectionConfiguration,
}

/// Passed to `before_broadcast_stateless`.
pub struct BeforeBroadcastStatelessPayload {
    pub document_name: String,
    pub payload: String,
}

/// Passed to `on_request`.
pub struct OnRequestPayload {
    pub request: RequestInfo,
}

/// Passed to `on_upgrade`.
pub struct OnUpgradePayload {
    pub request: RequestInfo,
}

/// Passed to `on_destroy`.
pub struct OnDestroyPayload {}

/// Passed to `after_unload_document`.
pub struct AfterUnloadDocumentPayload {
    pub document_name: String,
}

/// The hooks of the lifecycle, in order.
#[derive(Debug, Clone, Copy, PartialEq, Eq, Structural)]
pub enum HookName {
    OnConfigure,
    OnListen,
    OnUpgrade,
    OnConnect,
    Connected,
    OnAuthenticate,
    OnTokenSync,
    OnCreateDocument,
    OnLoadDocument,
    AfterLoadDocument,
    BeforeHandleMessage,
    BeforeHandleAwareness,
    BeforeBroadcastStateless,
    BeforeSync,
    OnStateless,
    OnChange,
    OnStoreDocument,
    AfterStoreDocument,
    OnAwarenessUpdate,
    OnRequest,
    OnDisconnect,
    BeforeUnloadDocument,
    AfterUnloadDocument,
    OnDestroy,
}

/// What `on_load_document` may return: a Yjs update to apply to the new document.
pub enum LoadedDocument {
    Update(Vec<u8>),
}

// ──── the socket ────

/// Why a socket refused a frame.
#[derive(Debug, Clone)]
pub struct SinkError {
    pub message: String,
}

/// The sending half of a client's WebSocket.
pub trait WebSocketSink: Send + Sync {
    /// Queues a binary frame.
    fn send(&self, data: Vec<u8>) -> Result<(), SinkError>;

    /// Closes the socket with a code and a reason.
    fn close(&self, code: u16, reason: &str) -> Result<(), SinkError>;

    /// The socket's state.
    fn ready_state(&self) -> WsReadyState;
}

} // verus!
