//! Network inspection: tracked requests and their bodies, interception
//! patterns, cache storage and WebSocket traffic.

use std::collections::HashMap;
use vstd::prelude::*;
use vstd::string::StringSliceAdditionalSpecFns;
use vstd::utf8::{encode_utf8, is_char_boundary};

use crate::clock::{now, Timestamp};
use crate::protocol::ProtocolError;
use crate::str_map::StrMap;
use crate::text::{concat_str, owned};

verus! {

/// Default cap on a captured response body (10 MiB).
pub const DEFAULT_MAX_RESPONSE_BODY_SIZE: usize = 10485760;

/// Default cap on a captured request body (5 MiB).
pub const DEFAULT_MAX_REQUEST_BODY_SIZE: usize = 5242880;

/// HTTP headers by name.
pub type HttpHeaders = HashMap<String, String>;

/// A tracked network request.
#[derive(Debug)]
pub struct RequestInfo {
    /// Unique request identifier.
    pub request_id: String,
    /// Request URL.
    pub url: String,
    /// HTTP method.
    pub method: String,
    /// Request headers.
    pub request_headers: HttpHeaders,
    /// Request body, if captured.
    pub request_body: Option<String>,
    /// Whether the request body is base64 encoded.
    pub request_body_base64: bool,
    /// Response status code.
    pub status_code: Option<u16>,
    /// Response headers.
    pub response_headers: HttpHeaders,
    /// Response body, if captured (cut at the size cap).
    pub response_body: Option<String>,
    /// Whether the response body is base64 encoded.
    pub is_base64: bool,
    /// Full size of the response body in bytes.
    pub response_size: Option<usize>,
    /// When the request started.
    pub timestamp: Timestamp,
    /// When the full response was stored (its response time is the
    /// difference to `timestamp`).
    pub responded_at: Option<Timestamp>,
    /// Resource type (Document, Script, ...).
    pub resource_type: Option<String>,
    /// Whether the response came from cache.
    pub from_cache: bool,
}

impl RequestInfo {
    /// A request with only its identity known, started now.
    pub fn new(request_id: String, url: String, method: String) -> (r: Self)
        ensures
            r.request_id == request_id,
            r.url == url,
            r.method == method,
            r.request_headers@ == Map::<String, String>::empty(),
            r.request_body is None,
            !r.request_body_base64,
            r.status_code is None,
            r.response_headers@ == Map::<String, String>::empty(),
            r.response_body is None,
            !r.is_base64,
            r.response_size is None,
            r.responded_at is None,
            r.resource_type is None,
            !r.from_cache,
    {
        let timestamp = now();
        RequestInfo {
            request_id,
            url,
            method,
            request_headers: HashMap::new(),
            request_body: None,
            request_body_base64: false,
            status_code: None,
            response_headers: HashMap::new(),
            response_body: None,
            is_base64: false,
            response_size: None,
            timestamp,
            responded_at: None,
            resource_type: None,
            from_cache: false,
        }
    }
}

/// A header as cache entries list it.
#[derive(Debug)]
pub struct CacheHeader {
    /// Header name.
    pub name: String,
    /// Header value.
    pub value: String,
}

/// An entry of a cache.
#[derive(Debug)]
pub struct CacheEntry {
    /// Request URL.
    pub request_url: String,
    /// Request method.
    pub request_method: String,
    /// Request headers.
    pub request_headers: Vec<CacheHeader>,
    /// Response time, as the bit pattern of the IEEE-754 double.
    pub response_time_bits: u64,
    /// Response status.
    pub response_status: u16,
    /// Response status text.
    pub response_status_text: String,
    /// Response type.
    pub response_type: String,
    /// Response headers.
    pub response_headers: Vec<CacheHeader>,
}

/// A cache and its origin.
#[derive(Debug)]
pub struct CacheInfo {
    /// Cache identifier.
    pub cache_id: String,
    /// Security origin.
    pub security_origin: String,
    /// Cache name.
    pub cache_name: String,
}

/// The state of a WebSocket connection.
#[derive(Debug, Clone, Copy, PartialEq, Eq, Structural)]
pub enum WebSocketState {
    /// Being established.
    Connecting,
    /// Open.
    Open,
    /// Closing.
    Closing,
    /// Closed.
    Closed,
}

/// A WebSocket frame opcode.
#[derive(Debug, Clone, Copy, PartialEq, Eq, Structural)]
pub enum WebSocketOpcode {
    /// Continuation frame.
    Continuation,
    /// Text frame.
    Text,
    /// Binary frame.
    Binary,
    /// Connection close.
    Close,
    /// Ping.
    Ping,
    /// Pong.
    Pong,
}

/// The opcode a raw opcode number names (unknown numbers read as binary).
pub open spec fn opcode_of(value: u8) -> WebSocketOpcode {
    if value == 0 {
        WebSocketOpcode::Continuation
    } else if value == 1 {
        WebSocketOpcode::Text
    } else if value == 2 {
        WebSocketOpcode::Binary
    } else if value == 8 {
        WebSocketOpcode::Close
    } else if value == 9 {
        WebSocketOpcode::Ping
    } else if value == 10 {
        WebSocketOpcode::Pong
    } else {
        WebSocketOpcode::Binary
    }
}

impl WebSocketOpcode {
    /// Converts a raw opcode value.
    pub fn from_u8(value: u8) -> (r: Self)
        ensures
            r == opcode_of(value),
    {
        match value {
            0 => WebSocketOpcode::Continuation,
            1 => WebSocketOpcode::Text,
            2 => WebSocketOpcode::Binary,
            8 => WebSocketOpcode::Close,
            9 => WebSocketOpcode::Ping,
            10 => WebSocketOpcode::Pong,
            _ => WebSocketOpcode::Binary,
        }
    }
}

/// A WebSocket frame.
#[derive(Debug)]
pub struct WebSocketFrame {
    /// Frame opcode.
    pub opcode: WebSocketOpcode,
    /// Whether the frame is masked.
    pub mask: bool,
    /// Payload (text, or base64 of binary data).
    pub payload_data: String,
    /// Whether the payload is base64 encoded.
    pub is_base64: bool,
    /// When the frame was sent or received.
    pub timestamp: Timestamp,
    /// Whether the frame was sent (rather than received).
    pub is_outgoing: bool,
}

impl WebSocketFrame {
    /// A text frame, stamped now; outgoing frames are masked.
    pub fn text(data: String, is_outgoing: bool) -> (f: Self)
        ensures
            f.opcode == WebSocketOpcode::Text,
            f.mask == is_outgoing,
            f.payload_data == data,
            !f.is_base64,
            f.is_outgoing == is_outgoing,
    {
        WebSocketFrame {
            opcode: WebSocketOpcode::Text,
            mask: is_outgoing,
            payload_data: data,
            is_base64: false,
            timestamp: now(),
            is_outgoing,
        }
    }

    /// A binary frame (base64 payload), stamped now; outgoing frames are
    /// masked.
    pub fn binary(data: String, is_outgoing: bool) -> (f: Self)
        ensures
            f.opcode == WebSocketOpcode::Binary,
            f.mask == is_outgoing,
            f.payload_data == data,
            f.is_base64,
            f.is_outgoing == is_outgoing,
    {
        WebSocketFrame {
            opcode: WebSocketOpcode::Binary,
            mask: is_outgoing,
            payload_data: data,
            is_base64: true,
            timestamp: now(),
            is_outgoing,
        }
    }
}

/// A tracked WebSocket connection.
#[derive(Debug)]
pub struct WebSocketConnection {
    /// Connection identifier.
    pub request_id: String,
    /// WebSocket URL.
    pub url: String,
    /// Connection state.
    pub state: WebSocketState,
    /// Handshake request headers.
    pub request_headers: HttpHeaders,
    /// Handshake response headers.
    pub response_headers: HttpHeaders,
    /// When the connection was tracked.
    pub timestamp: Timestamp,
    /// Frames sent and received, in order.
    pub frames: Vec<WebSocketFrame>,
}

impl WebSocketConnection {
    /// A connection being established, stamped now, with no frames.
    pub fn new(request_id: String, url: String) -> (c: Self)
        ensures
            c.request_id == request_id,
            c.url == url,
            c.state == WebSocketState::Connecting,
            c.request_headers@ == Map::<String, String>::empty(),
            c.response_headers@ == Map::<String, String>::empty(),
            c.frames@.len() == 0,
    {
        WebSocketConnection {
            request_id,
            url,
            state: WebSocketState::Connecting,
            request_headers: HashMap::new(),
            response_headers: HashMap::new(),
            timestamp: now(),
            frames: Vec::new(),
        }
    }

    /// Appends a frame.
    pub fn add_frame(&mut self, frame: WebSocketFrame)
        ensures
            final(self).frames@ == old(self).frames@.push(frame),
            final(self).request_id == old(self).request_id,
            final(self).url == old(self).url,
            final(self).state == old(self).state,
            final(self).request_headers == old(self).request_headers,
            final(self).response_headers == old(self).response_headers,
            final(self).timestamp == old(self).timestamp,
    {
        self.frames.push(frame);
    }
}

/// A request interception pattern.
#[derive(Debug)]
pub struct InterceptionPattern {
    /// URL pattern (wildcards allowed).
    pub url_pattern: Option<String>,
    /// Resource type.
    pub resource_type: Option<String>,
    /// Interception stage.
    pub interception_stage: Option<String>,
}

/// A body as captured under a byte cap: whole when it fits, else its first
/// `max` bytes.
pub open spec fn capped(body: Seq<char>, max: usize, kept: Seq<char>) -> bool {
    if encode_utf8(body).len() <= max {
        kept == body
    } else {
        encode_utf8(kept) == encode_utf8(body).take(max as int)
    }
}

/// Whether cutting a body at `max` bytes falls on a character boundary
/// (slicing a string elsewhere panics).
pub open spec fn cut_ok(body: Seq<char>, max: usize) -> bool {
    encode_utf8(body).len() > max ==> is_char_boundary(encode_utf8(body), max as int)
}

/// A stored body reads back whole when it fits under the cap, and as
/// exactly its first `max` bytes when it does not.
pub proof fn stored_body_reads_back(body: Seq<char>, max: usize, kept: Seq<char>)
    requires
        capped(body, max, kept),
    ensures
        encode_utf8(body).len() <= max ==> kept == body,
        encode_utf8(body).len() > max ==> encode_utf8(kept).len() == max && encode_utf8(kept)
            == encode_utf8(body).take(max as int),
{
}

/// A deleted cache entry is gone: no entry with the deleted request URL
/// remains, and every entry with another URL stays.
pub proof fn deleted_cache_entry_is_gone(entries: Seq<CacheEntry>, url: Seq<char>)
    ensures
        ({
            let kept = entries.filter(|e: CacheEntry| e.request_url@ != url);
            &&& forall|k: int| 0 <= k < kept.len() ==> (#[trigger] kept[k]).request_url@ != url
            &&& forall|k: int|
                0 <= k < entries.len() && (#[trigger] entries[k]).request_url@ != url ==> kept.contains(
                    entries[k],
                )
        }),
{
    broadcast use vstd::seq_lib::group_filter_ensures;

    let pred = |e: CacheEntry| e.request_url@ != url;
    assert forall|k: int| 0 <= k < entries.len() && (#[trigger] entries[k]).request_url@ != url implies entries.filter(
        pred,
    ).contains(entries[k]) by {
        entries.lemma_filter_contains(pred, k);
    }
}

/// Keeps at most `max` bytes of a body.
fn cap_body(body: String, max: usize) -> (r: String)
    requires
        cut_ok(body@, max),
    ensures
        capped(body@, max, r@),
{
    if body.as_str().as_bytes().len() <= max {
        body
    } else {
        let (head, _) = body.as_str().split_at(max);
        proof {
            assert(head.spec_bytes() =~= encode_utf8(body@).take(max as int));
        }
        owned(head)
    }
}

/// The entries whose request URL differs from `url`, in order.
fn retain_other_urls(entries: Vec<CacheEntry>, url: &str) -> (r: Vec<CacheEntry>)
    ensures
        r@ == entries@.filter(|e: CacheEntry| e.request_url@ != url@),
{
    let ghost pred = |e: CacheEntry| e.request_url@ != url@;
    let target = owned(url);
    let mut kept: Vec<CacheEntry> = Vec::new();
    let mut rest = entries;
    let ghost all = rest@;
    let n = rest.len();
    assert(all.len() == n);
    let mut i: usize = 0;
    assert(all.skip(0) =~= all);
    while rest.len() > 0
        invariant
            i + rest@.len() == all.len(),
            all.len() <= usize::MAX,
            rest@ == all.skip(i as int),
            kept@ == all.take(i as int).filter(pred),
            pred == (|e: CacheEntry| e.request_url@ != url@),
            target@ == url@,
        decreases rest@.len(),
    {
        let e = rest.remove(0);
        proof {
            assert(e == all[i as int]);
            assert(rest@ =~= all.skip(i + 1));
            assert(all.take(i + 1).drop_last() =~= all.take(i as int));
            reveal(Seq::filter);
            assert(all.take(i + 1).last() == e);
            assert(all.take(i + 1).filter(pred) == if pred(e) {
                all.take(i as int).filter(pred).push(e)
            } else {
                all.take(i as int).filter(pred)
            });
        }
        let keep = !(e.request_url == target);
        if keep {
            kept.push(e);
        }
        i = i + 1;
    }
    proof {
        assert(all.take(i as int) =~= all);
    }
    kept
}

/// The `-32000` error with a message.
fn server_error(message: String) -> (e: ProtocolError)
    ensures
        e matches ProtocolError::ServerError(code, m) && code == -32000 && m@ == message@,
{
    ProtocolError::ServerError(-32000, message)
}

/// The network domain's state.
pub struct NetworkDomain {
    request_map: StrMap<RequestInfo>,
    interception_enabled: bool,
    interception_patterns: Vec<InterceptionPattern>,
    max_response_body_size: usize,
    max_request_body_size: usize,
    cache_storage: StrMap<Vec<CacheEntry>>,
    cache_info: StrMap<CacheInfo>,
    websocket_connections: StrMap<WebSocketConnection>,
}

impl NetworkDomain {
    /// Tracked requests by id.
    pub closed spec fn requests(&self) -> Map<Seq<char>, RequestInfo> {
        self.request_map@
    }

    /// Whether interception is on.
    pub closed spec fn intercepting(&self) -> bool {
        self.interception_enabled
    }

    /// The interception patterns.
    pub closed spec fn patterns(&self) -> Seq<InterceptionPattern> {
        self.interception_patterns@
    }

    /// The response body cap in bytes.
    pub closed spec fn response_cap(&self) -> usize {
        self.max_response_body_size
    }

    /// The request body cap in bytes.
    pub closed spec fn request_cap(&self) -> usize {
        self.max_request_body_size
    }

    /// Cache entries by cache id.
    pub closed spec fn caches(&self) -> Map<Seq<char>, Vec<CacheEntry>> {
        self.cache_storage@
    }

    /// Cache descriptions by cache id.
    pub closed spec fn cache_infos(&self) -> Map<Seq<char>, CacheInfo> {
        self.cache_info@
    }

    /// Cache descriptions in the order the caches were added.
    pub closed spec fn cache_info_seq(&self) -> Seq<CacheInfo> {
        self.cache_info.value_seq()
    }

    /// WebSocket connections by id.
    pub closed spec fn websockets(&self) -> Map<Seq<char>, WebSocketConnection> {
        self.websocket_connections@
    }

    /// A domain with the default body caps and nothing tracked.
    pub fn new() -> (d: Self)
        ensures
            d.requests() == Map::<Seq<char>, RequestInfo>::empty(),
            !d.intercepting(),
            d.patterns().len() == 0,
            d.response_cap() == DEFAULT_MAX_RESPONSE_BODY_SIZE,
            d.request_cap() == DEFAULT_MAX_REQUEST_BODY_SIZE,
            d.caches() == Map::<Seq<char>, Vec<CacheEntry>>::empty(),
            d.cache_infos() == Map::<Seq<char>, CacheInfo>::empty(),
            d.websockets() == Map::<Seq<char>, WebSocketConnection>::empty(),
    {
        Self::with_limits(DEFAULT_MAX_RESPONSE_BODY_SIZE, DEFAULT_MAX_REQUEST_BODY_SIZE)
    }

    /// A domain with the given body caps and nothing tracked.
    pub fn with_limits(max_response_size: usize, max_request_size: usize) -> (d: Self)
        ensures
            d.requests() == Map::<Seq<char>, RequestInfo>::empty(),
            !d.intercepting(),
            d.patterns().len() == 0,
            d.response_cap() == max_response_size,
            d.request_cap() == max_request_size,
            d.caches() == Map::<Seq<char>, Vec<CacheEntry>>::empty(),
            d.cache_infos() == Map::<Seq<char>, CacheInfo>::empty(),
            d.cache_info_seq().len() == 0,
            d.websockets() == Map::<Seq<char>, WebSocketConnection>::empty(),
    {
        let cache_info = StrMap::new();
        NetworkDomain {
            request_map: StrMap::new(),
            interception_enabled: false,
            interception_patterns: Vec::new(),
            max_response_body_size: max_response_size,
            max_request_body_size: max_request_size,
            cache_storage: StrMap::new(),
            cache_info,
            websocket_connections: StrMap::new(),
        }
    }

    /// Ids of the tracked requests, in the order they were first tracked.
    pub closed spec fn request_ids(&self) -> Seq<Seq<char>> {
        self.request_map.key_seq()
    }

    /// Ids of the tracked connections, in the order they were first tracked.
    pub closed spec fn websocket_ids(&self) -> Seq<Seq<char>> {
        self.websocket_connections.key_seq()
    }

    /// The response body of a request and whether it is base64 encoded.
    pub fn get_response_body(&self, request_id: &str) -> (r: Result<(String, bool), ProtocolError>)
        ensures
            !self.requests().contains_key(request_id@) ==> (r matches Err(
                ProtocolError::ServerError(c, m),
            ) && c == -32000 && m@ == "Request not found: "@ + request_id@),
            self.requests().contains_key(request_id@) ==> match self.requests()[request_id@].response_body {
                Some(b) => r matches Ok((body, enc)) && body@ == b@ && enc
                    == self.requests()[request_id@].is_base64,
                None => r matches Err(ProtocolError::ServerError(c, m)) && c == -32000 && m@
                    == "Response body not available"@,
            },
    {
        let request = match self.request_map.get(request_id) {
            Some(r) => r,
            None => {
                return Err(server_error(concat_str("Request not found: ", request_id)));
            },
        };
        match &request.response_body {
            Some(b) => Ok((b.clone(), request.is_base64)),
            None => Err(server_error(owned("Response body not available"))),
        }
    }

    /// The request body of a request.
    pub fn get_request_post_data(&self, request_id: &str) -> (r: Result<String, ProtocolError>)
        ensures
            !self.requests().contains_key(request_id@) ==> (r matches Err(
                ProtocolError::ServerError(c, m),
            ) && c == -32000 && m@ == "Request not found: "@ + request_id@),
            self.requests().contains_key(request_id@) ==> match self.requests()[request_id@].request_body {
                Some(b) => r matches Ok(body) && body@ == b@,
                None => r matches Err(ProtocolError::ServerError(c, m)) && c == -32000 && m@
                    == "Request body not available"@,
            },
    {
        let request = match self.request_map.get(request_id) {
            Some(r) => r,
            None => {
                return Err(server_error(concat_str("Request not found: ", request_id)));
            },
        };
        match &request.request_body {
            Some(b) => Ok(b.clone()),
            None => Err(server_error(owned("Request body not available"))),
        }
    }

    /// Replaces the interception patterns; interception is on exactly when
    /// there is at least one pattern.
    pub fn set_request_interception(&mut self, patterns: Vec<InterceptionPattern>)
        ensures
            final(self).patterns() == patterns@,
            final(self).intercepting() == (patterns@.len() > 0),
            final(self).requests() == old(self).requests(),
            final(self).caches() == old(self).caches(),
            final(self).cache_infos() == old(self).cache_infos(),
            final(self).websockets() == old(self).websockets(),
    {
        self.interception_enabled = patterns.len() > 0;
        self.interception_patterns = patterns;
    }

    /// Starts tracking a request (replacing any request with the same id).
    pub fn track_request(&mut self, request_id: String, url: String, method: String)
        ensures
            final(self).requests().dom() == old(self).requests().dom().insert(request_id@),
            forall|k: Seq<char>| k != request_id@ && #[trigger] old(self).requests().contains_key(k)
                ==> final(self).requests()[k] == old(self).requests()[k],
            ({
                let info = final(self).requests()[request_id@];
                &&& info.request_id == request_id
                &&& info.url == url
                &&& info.method == method
                &&& info.request_body is None
                &&& info.response_body is None
                &&& info.status_code is None
                &&& info.resource_type is None
            }),
            final(self).response_cap() == old(self).response_cap(),
            final(self).request_cap() == old(self).request_cap(),
            final(self).websockets() == old(self).websockets(),
            final(self).caches() == old(self).caches(),
    {
        let info = RequestInfo::new(request_id.clone(), url, method);
        self.request_map.insert(request_id, info);
    }

    /// Starts tracking a request with its headers, body (kept up to the
    /// request body cap) and resource type.
    pub fn track_request_full(
        &mut self,
        request_id: String,
        url: String,
        method: String,
        headers: HttpHeaders,
        body: Option<String>,
        resource_type: Option<String>,
    )
        requires
            body matches Some(b) ==> cut_ok(b@, old(self).request_cap()),
        ensures
            final(self).requests().dom() == old(self).requests().dom().insert(request_id@),
            forall|k: Seq<char>| k != request_id@ && #[trigger] old(self).requests().contains_key(k)
                ==> final(self).requests()[k] == old(self).requests()[k],
            ({
                let info = final(self).requests()[request_id@];
                &&& info.request_id == request_id
                &&& info.url == url
                &&& info.method == method
                &&& info.request_headers == headers
                &&& info.resource_type == resource_type
                &&& !info.request_body_base64
                &&& match body {
                    Some(b) => info.request_body matches Some(kept) && capped(
                        b@,
                        old(self).request_cap(),
                        kept@,
                    ),
                    None => info.request_body is None,
                }
                &&& info.response_body is None
                &&& info.status_code is None
            }),
            final(self).response_cap() == old(self).response_cap(),
            final(self).request_cap() == old(self).request_cap(),
            final(self).websockets() == old(self).websockets(),
            final(self).caches() == old(self).caches(),
    {
        let max_size = self.max_request_body_size;
        let mut info = RequestInfo::new(request_id.clone(), url, method);
        info.request_headers = headers;
        info.resource_type = resource_type;
        match body {
            Some(b) => {
                info.request_body = Some(cap_body(b, max_size));
                info.request_body_base64 = false;
            },
            None => {},
        }
        self.request_map.insert(request_id, info);
    }

    /// Stores the response body of a tracked request (kept up to the
    /// response body cap; the size recorded is the full size). Unknown
    /// requests are left alone.
    pub fn store_response_body(&mut self, request_id: String, body: String, is_base64: bool)
        requires
            cut_ok(body@, old(self).response_cap()),
        ensures
            final(self).requests().dom() == old(self).requests().dom(),
            forall|k: Seq<char>| k != request_id@ && #[trigger] old(self).requests().contains_key(k)
                ==> final(self).requests()[k] == old(self).requests()[k],
            old(self).requests().contains_key(request_id@) ==> {
                let before = old(self).requests()[request_id@];
                let after = final(self).requests()[request_id@];
                &&& after.response_body matches Some(kept) && capped(
                    body@,
                    old(self).response_cap(),
                    kept@,
                )
                &&& after.response_size == Some(encode_utf8(body@).len() as usize)
                &&& after.is_base64 == is_base64
                &&& after.request_id == before.request_id
                &&& after.url == before.url
                &&& after.method == before.method
                &&& after.request_body == before.request_body
                &&& after.status_code == before.status_code
                &&& after.timestamp == before.timestamp
            },
            final(self).response_cap() == old(self).response_cap(),
            final(self).request_cap() == old(self).request_cap(),
            final(self).websockets() == old(self).websockets(),
            final(self).caches() == old(self).caches(),
    {
        let max_size = self.max_response_body_size;
        match self.request_map.remove(request_id.as_str()) {
            Some(mut request) => {
                let size = body.as_str().as_bytes().len();
                request.response_body = Some(cap_body(body, max_size));
                request.response_size = Some(size);
                request.is_base64 = is_base64;
                self.request_map.insert(request_id, request);
                proof {
                    assert(self.request_map@.dom() =~= old(self).request_map@.dom());
                }
            },
            None => {},
        }
    }

    /// Stores the full response of a tracked request: status, headers,
    /// body (kept up to the response body cap), encoding and cache origin,
    /// and the time of the response. Unknown requests are left alone.
    pub fn store_response_full(
        &mut self,
        request_id: String,
        status_code: u16,
        headers: HttpHeaders,
        body: String,
        is_base64: bool,
        from_cache: bool,
    )
        requires
            cut_ok(body@, old(self).response_cap()),
        ensures
            final(self).requests().dom() == old(self).requests().dom(),
            forall|k: Seq<char>| k != request_id@ && #[trigger] old(self).requests().contains_key(k)
                ==> final(self).requests()[k] == old(self).requests()[k],
            old(self).requests().contains_key(request_id@) ==> {
                let before = old(self).requests()[request_id@];
                let after = final(self).requests()[request_id@];
                &&& after.status_code == Some(status_code)
                &&& after.response_headers == headers
                &&& after.from_cache == from_cache
                &&& after.response_body matches Some(kept) && capped(
                    body@,
                    old(self).response_cap(),
                    kept@,
                )
                &&& after.response_size == Some(encode_utf8(body@).len() as usize)
                &&& after.is_base64 == is_base64
                &&& after.responded_at is Some
                &&& after.request_id == before.request_id
                &&& after.url == before.url
                &&& after.method == before.method
                &&& after.request_body == before.request_body
                &&& after.timestamp == before.timestamp
            },
            final(self).response_cap() == old(self).response_cap(),
            final(self).request_cap() == old(self).request_cap(),
            final(self).websockets() == old(self).websockets(),
            final(self).caches() == old(self).caches(),
    {
        let max_size = self.max_response_body_size;
        match self.request_map.remove(request_id.as_str()) {
            Some(mut request) => {
                request.status_code = Some(status_code);
                request.response_headers = headers;
                request.from_cache = from_cache;
                request.responded_at = Some(now());
                let body_len = body.as_str().as_bytes().len();
                request.response_body = Some(cap_body(body, max_size));
                request.response_size = Some(body_len);
                request.is_base64 = is_base64;
                self.request_map.insert(request_id, request);
                proof {
                    assert(self.request_map@.dom() =~= old(self).request_map@.dom());
                }
            },
            None => {},
        }
    }

    /// References to all tracked requests, in tracking order.
    pub fn get_all_requests(&self) -> (r: Vec<&RequestInfo>)
        ensures
            r@.len() == self.request_ids().len(),
            self.request_ids().len() == self.requests().dom().len(),
            forall|k: Seq<char>| #[trigger]
                self.requests().contains_key(k) <==> self.request_ids().contains(k),
            forall|i: int|
                0 <= i < r@.len() ==> *r@[i] == self.requests()[#[trigger] self.request_ids()[i]],
    {
        self.request_map.entries_agree();
        self.request_map.values()
    }

    /// Stops tracking every request.
    pub fn clear_requests(&mut self)
        ensures
            final(self).requests() == Map::<Seq<char>, RequestInfo>::empty(),
            final(self).response_cap() == old(self).response_cap(),
            final(self).request_cap() == old(self).request_cap(),
            final(self).websockets() == old(self).websockets(),
            final(self).caches() == old(self).caches(),
            final(self).cache_infos() == old(self).cache_infos(),
    {
        self.request_map.clear();
    }

    /// Whether a request is tracked.
    pub fn has_request(&self, request_id: &str) -> (b: bool)
        ensures
            b == self.requests().contains_key(request_id@),
    {
        self.request_map.contains_key(request_id)
    }

    /// Stops tracking a request.
    pub fn untrack_request(&mut self, request_id: &str)
        ensures
            final(self).requests() == old(self).requests().remove(request_id@),
            final(self).response_cap() == old(self).response_cap(),
            final(self).request_cap() == old(self).request_cap(),
            final(self).websockets() == old(self).websockets(),
            final(self).caches() == old(self).caches(),
    {
        let _ = self.request_map.remove(request_id);
    }

    /// Whether request interception is on.
    pub fn is_interception_enabled(&self) -> (b: bool)
        ensures
            b == self.intercepting(),
    {
        self.interception_enabled
    }

    /// The caches of a security origin, in the order they were added.
    pub fn request_cache_names(&self, security_origin: &str) -> (r: Vec<&CacheInfo>)
        ensures
            r@.len() == self.cache_info_seq().filter(
                |c: CacheInfo| c.security_origin@ == security_origin@,
            ).len(),
            forall|i: int|
                0 <= i < r@.len() ==> *r@[i] == self.cache_info_seq().filter(
                    |c: CacheInfo| c.security_origin@ == security_origin@,
                )[i],
    {
        let all = self.cache_info.values();
        let ghost pred = |c: CacheInfo| c.security_origin@ == security_origin@;
        let mut r: Vec<&CacheInfo> = Vec::new();
        let mut i: usize = 0;
        let origin = owned(security_origin);
        while i < all.len()
            invariant
                i <= all@.len(),
                all@.len() == self.cache_info_seq().len(),
                forall|j: int| 0 <= j < all@.len() ==> *all@[j] == self.cache_info_seq()[j],
                origin@ == security_origin@,
                pred == (|c: CacheInfo| c.security_origin@ == security_origin@),
                r@.len() == self.cache_info_seq().take(i as int).filter(pred).len(),
                forall|j: int|
                    0 <= j < r@.len() ==> *r@[j] == self.cache_info_seq().take(i as int).filter(
                        pred,
                    )[j],
            decreases all@.len() - i,
        {
            let c = all[i];
            proof {
                assert(self.cache_info_seq().take(i + 1).drop_last() =~= self.cache_info_seq().take(
                    i as int,
                ));
                reveal(Seq::filter);
                let t = self.cache_info_seq().take(i + 1);
                assert(t.last() == self.cache_info_seq()[i as int]);
                assert(t.filter(pred) == if pred(t.last()) {
                    self.cache_info_seq().take(i as int).filter(pred).push(t.last())
                } else {
                    self.cache_info_seq().take(i as int).filter(pred)
                });
            }
            if c.security_origin == origin {
                r.push(c);
            }
            i = i + 1;
        }
        proof {
            assert(self.cache_info_seq().take(i as int) =~= self.cache_info_seq());
        }
        r
    }

    /// A page of the entries of a cache: `page_size` entries after the
    /// first `skip_count`, the number returned, and whether more follow.
    pub fn request_cache_entries(&self, cache_id: &str, skip_count: usize, page_size: usize) -> (r: (
        Vec<&CacheEntry>,
        usize,
        bool,
    ))
        ensures
            ({
                let all: Seq<CacheEntry> = if self.caches().contains_key(cache_id@) {
                    self.caches()[cache_id@]@
                } else {
                    Seq::empty()
                };
                let start = if skip_count < all.len() {
                    skip_count as int
                } else {
                    all.len() as int
                };
                let end = if start + page_size < all.len() {
                    start + page_size
                } else {
                    all.len() as int
                };
                &&& r.0@.len() == end - start
                &&& forall|i: int| 0 <= i < r.0@.len() ==> *r.0@[i] == all[start + i]
                &&& r.1 == r.0@.len()
                &&& r.2 == (skip_count + r.1 < all.len())
            }),
    {
        let mut page: Vec<&CacheEntry> = Vec::new();
        let total = match self.cache_storage.get(cache_id) {
            Some(cache) => {
                let n = cache.len();
                let start = if skip_count < n {
                    skip_count
                } else {
                    n
                };
                let end = if page_size < n - start {
                    start + page_size
                } else {
                    n
                };
                let mut i = start;
                while i < end
                    invariant
                        start <= i <= end <= n,
                        n == cache@.len(),
                        page@.len() == i - start,
                        forall|j: int| 0 <= j < page@.len() ==> *page@[j] == cache@[start + j],
                    decreases end - i,
                {
                    page.push(&cache[i]);
                    i = i + 1;
                }
                n
            },
            None => 0,
        };
        let count = page.len();
        let has_more = count < total && skip_count < total - count;
        (page, count, has_more)
    }

    /// Deletes a cache and its description.
    pub fn delete_cache(&mut self, cache_id: &str)
        ensures
            final(self).caches() == old(self).caches().remove(cache_id@),
            final(self).cache_infos() == old(self).cache_infos().remove(cache_id@),
            final(self).requests() == old(self).requests(),
            final(self).websockets() == old(self).websockets(),
    {
        let _ = self.cache_storage.remove(cache_id);
        let _ = self.cache_info.remove(cache_id);
    }

    /// Deletes the entries of a cache whose request URL is `request_url`.
    pub fn delete_cache_entry(&mut self, cache_id: &str, request_url: &str)
        ensures
            final(self).caches().dom() == old(self).caches().dom(),
            forall|k: Seq<char>| k != cache_id@ && #[trigger] old(self).caches().contains_key(k)
                ==> final(self).caches()[k] == old(self).caches()[k],
            old(self).caches().contains_key(cache_id@) ==> final(self).caches()[cache_id@]@
                == old(self).caches()[cache_id@]@.filter(
                |e: CacheEntry| e.request_url@ != request_url@,
            ),
            final(self).cache_infos() == old(self).cache_infos(),
            final(self).requests() == old(self).requests(),
            final(self).websockets() == old(self).websockets(),
    {
        match self.cache_storage.remove(cache_id) {
            Some(entries) => {
                let kept = retain_other_urls(entries, request_url);
                self.cache_storage.insert(owned(cache_id), kept);
                proof {
                    assert(self.cache_storage@.dom() =~= old(self).cache_storage@.dom());
                }
            },
            None => {},
        }
    }

    /// Adds (or replaces) an empty cache with its description.
    pub fn add_cache(&mut self, cache_id: String, security_origin: String, cache_name: String)
        ensures
            final(self).caches() == old(self).caches().insert(cache_id@, final(self).caches()[cache_id@]),
            final(self).caches()[cache_id@]@.len() == 0,
            final(self).cache_infos().dom() == old(self).cache_infos().dom().insert(cache_id@),
            forall|k: Seq<char>| k != cache_id@ && #[trigger] old(self).cache_infos().contains_key(k)
                ==> final(self).cache_infos()[k] == old(self).cache_infos()[k],
            final(self).cache_infos()[cache_id@].cache_id == cache_id,
            final(self).cache_infos()[cache_id@].security_origin == security_origin,
            final(self).cache_infos()[cache_id@].cache_name == cache_name,
            !old(self).cache_infos().contains_key(cache_id@) ==> final(self).cache_info_seq() == old(
                self,
            ).cache_info_seq().push(final(self).cache_infos()[cache_id@]),
            final(self).requests() == old(self).requests(),
            final(self).websockets() == old(self).websockets(),
    {
        let info = CacheInfo { cache_id: cache_id.clone(), security_origin, cache_name };
        self.cache_info.insert(cache_id.clone(), info);
        self.cache_storage.insert(cache_id, Vec::new());
    }

    /// Appends an entry to an existing cache (unknown caches are left alone).
    pub fn add_cache_entry(&mut self, cache_id: &str, entry: CacheEntry)
        ensures
            final(self).caches().dom() == old(self).caches().dom(),
            forall|k: Seq<char>| k != cache_id@ && #[trigger] old(self).caches().contains_key(k)
                ==> final(self).caches()[k] == old(self).caches()[k],
            old(self).caches().contains_key(cache_id@) ==> final(self).caches()[cache_id@]@
                == old(self).caches()[cache_id@]@.push(entry),
            final(self).cache_infos() == old(self).cache_infos(),
            final(self).requests() == old(self).requests(),
            final(self).websockets() == old(self).websockets(),
    {
        match self.cache_storage.remove(cache_id) {
            Some(mut entries) => {
                entries.push(entry);
                self.cache_storage.insert(owned(cache_id), entries);
                proof {
                    assert(self.cache_storage@.dom() =~= old(self).cache_storage@.dom());
                }
            },
            None => {},
        }
    }

    /// Starts tracking a WebSocket connection (replacing one with the same
    /// id).
    pub fn track_websocket(&mut self, request_id: String, url: String)
        ensures
            final(self).websockets().dom() == old(self).websockets().dom().insert(request_id@),
            forall|k: Seq<char>| k != request_id@ && #[trigger] old(self).websockets().contains_key(k)
                ==> final(self).websockets()[k] == old(self).websockets()[k],
            ({
                let c = final(self).websockets()[request_id@];
                &&& c.request_id == request_id
                &&& c.url == url
                &&& c.state == WebSocketState::Connecting
                &&& c.frames@.len() == 0
            }),
            final(self).requests() == old(self).requests(),
            final(self).caches() == old(self).caches(),
    {
        let conn = WebSocketConnection::new(request_id.clone(), url);
        self.websocket_connections.insert(request_id, conn);
    }

    /// Starts tracking a WebSocket connection with its handshake request
    /// headers.
    pub fn track_websocket_full(&mut self, request_id: String, url: String, request_headers: HttpHeaders)
        ensures
            final(self).websockets().dom() == old(self).websockets().dom().insert(request_id@),
            forall|k: Seq<char>| k != request_id@ && #[trigger] old(self).websockets().contains_key(k)
                ==> final(self).websockets()[k] == old(self).websockets()[k],
            ({
                let c = final(self).websockets()[request_id@];
                &&& c.request_id == request_id
                &&& c.url == url
                &&& c.state == WebSocketState::Connecting
                &&& c.request_headers == request_headers
                &&& c.frames@.len() == 0
            }),
            final(self).requests() == old(self).requests(),
            final(self).caches() == old(self).caches(),
    {
        let mut conn = WebSocketConnection::new(request_id.clone(), url);
        conn.request_headers = request_headers;
        self.websocket_connections.insert(request_id, conn);
    }

    /// Sets the state of a tracked connection (unknown ids are left alone).
    pub fn update_websocket_state(&mut self, request_id: &str, state: WebSocketState)
        ensures
            final(self).websockets().dom() == old(self).websockets().dom(),
            forall|k: Seq<char>| k != request_id@ && #[trigger] old(self).websockets().contains_key(k)
                ==> final(self).websockets()[k] == old(self).websockets()[k],
            old(self).websockets().contains_key(request_id@) ==> {
                let before = old(self).websockets()[request_id@];
                let after = final(self).websockets()[request_id@];
                &&& after.state == state
                &&& after.request_id == before.request_id
                &&& after.url == before.url
                &&& after.frames == before.frames
                &&& after.request_headers == before.request_headers
                &&& after.response_headers == before.response_headers
                &&& after.timestamp == before.timestamp
            },
            final(self).requests() == old(self).requests(),
            final(self).caches() == old(self).caches(),
    {
        match self.websocket_connections.remove(request_id) {
            Some(mut conn) => {
                conn.state = state;
                self.websocket_connections.insert(owned(request_id), conn);
                proof {
                    assert(self.websocket_connections@.dom() =~= old(self).websocket_connections@.dom());
                }
            },
            None => {},
        }
    }

    /// Records the handshake response headers of a connection, which opens
    /// it (unknown ids are left alone).
    pub fn set_websocket_response_headers(&mut self, request_id: &str, headers: HttpHeaders)
        ensures
            final(self).websockets().dom() == old(self).websockets().dom(),
            forall|k: Seq<char>| k != request_id@ && #[trigger] old(self).websockets().contains_key(k)
                ==> final(self).websockets()[k] == old(self).websockets()[k],
            old(self).websockets().contains_key(request_id@) ==> {
                let before = old(self).websockets()[request_id@];
                let after = final(self).websockets()[request_id@];
                &&& after.state == WebSocketState::Open
                &&& after.response_headers == headers
                &&& after.request_id == before.request_id
                &&& after.url == before.url
                &&& after.frames == before.frames
                &&& after.request_headers == before.request_headers
                &&& after.timestamp == before.timestamp
            },
            final(self).requests() == old(self).requests(),
            final(self).caches() == old(self).caches(),
    {
        match self.websocket_connections.remove(request_id) {
            Some(mut conn) => {
                conn.response_headers = headers;
                conn.state = WebSocketState::Open;
                self.websocket_connections.insert(owned(request_id), conn);
                proof {
                    assert(self.websocket_connections@.dom() =~= old(self).websocket_connections@.dom());
                }
            },
            None => {},
        }
    }

    /// Appends a frame to a tracked connection (unknown ids are left alone).
    pub fn add_websocket_frame(&mut self, request_id: &str, frame: WebSocketFrame)
        ensures
            final(self).websockets().dom() == old(self).websockets().dom(),
            forall|k: Seq<char>| k != request_id@ && #[trigger] old(self).websockets().contains_key(k)
                ==> final(self).websockets()[k] == old(self).websockets()[k],
            old(self).websockets().contains_key(request_id@) ==> {
                let before = old(self).websockets()[request_id@];
                let after = final(self).websockets()[request_id@];
                &&& after.frames@ == before.frames@.push(frame)
                &&& after.state == before.state
                &&& after.request_id == before.request_id
                &&& after.url == before.url
                &&& after.request_headers == before.request_headers
                &&& after.response_headers == before.response_headers
                &&& after.timestamp == before.timestamp
            },
            final(self).requests() == old(self).requests(),
            final(self).caches() == old(self).caches(),
    {
        match self.websocket_connections.remove(request_id) {
            Some(mut conn) => {
                conn.add_frame(frame);
                self.websocket_connections.insert(owned(request_id), conn);
                proof {
                    assert(self.websocket_connections@.dom() =~= old(self).websocket_connections@.dom());
                }
            },
            None => {},
        }
    }

    /// Appends a text frame, stamped now, to a tracked connection.
    pub fn add_websocket_text_frame(&mut self, request_id: &str, data: String, is_outgoing: bool)
        ensures
            final(self).websockets().dom() == old(self).websockets().dom(),
            forall|k: Seq<char>| k != request_id@ && #[trigger] old(self).websockets().contains_key(k)
                ==> final(self).websockets()[k] == old(self).websockets()[k],
            old(self).websockets().contains_key(request_id@) ==> {
                let before = old(self).websockets()[request_id@];
                let after = final(self).websockets()[request_id@];
                let f = after.frames@.last();
                &&& after.frames@.len() == before.frames@.len() + 1
                &&& after.frames@.drop_last() == before.frames@
                &&& f.opcode == WebSocketOpcode::Text
                &&& f.payload_data == data
                &&& f.mask == is_outgoing
                &&& f.is_outgoing == is_outgoing
                &&& !f.is_base64
                &&& after.state == before.state
            },
            final(self).requests() == old(self).requests(),
            final(self).caches() == old(self).caches(),
    {
        let frame = WebSocketFrame::text(data, is_outgoing);
        self.add_websocket_frame(request_id, frame);
    }

    /// Appends a binary frame (base64 payload), stamped now, to a tracked
    /// connection.
    pub fn add_websocket_binary_frame(&mut self, request_id: &str, data: String, is_outgoing: bool)
        ensures
            final(self).websockets().dom() == old(self).websockets().dom(),
            forall|k: Seq<char>| k != request_id@ && #[trigger] old(self).websockets().contains_key(k)
                ==> final(self).websockets()[k] == old(self).websockets()[k],
            old(self).websockets().contains_key(request_id@) ==> {
                let before = old(self).websockets()[request_id@];
                let after = final(self).websockets()[request_id@];
                let f = after.frames@.last();
                &&& after.frames@.len() == before.frames@.len() + 1
                &&& after.frames@.drop_last() == before.frames@
                &&& f.opcode == WebSocketOpcode::Binary
                &&& f.payload_data == data
                &&& f.mask == is_outgoing
                &&& f.is_outgoing == is_outgoing
                &&& f.is_base64
                &&& after.state == before.state
            },
            final(self).requests() == old(self).requests(),
            final(self).caches() == old(self).caches(),
    {
        let frame = WebSocketFrame::binary(data, is_outgoing);
        self.add_websocket_frame(request_id, frame);
    }

    /// The frames of a tracked connection.
    pub fn get_websocket_frames(&self, request_id: &str) -> (r: Option<&[WebSocketFrame]>)
        ensures
            match r {
                Some(fs) => self.websockets().contains_key(request_id@) && fs@
                    == self.websockets()[request_id@].frames@,
                None => !self.websockets().contains_key(request_id@),
            },
    {
        match self.websocket_connections.get(request_id) {
            Some(c) => Some(c.frames.as_slice()),
            None => None,
        }
    }

    /// A tracked connection.
    pub fn get_websocket_connection(&self, request_id: &str) -> (r: Option<&WebSocketConnection>)
        ensures
            match r {
                Some(c) => self.websockets().contains_key(request_id@) && *c
                    == self.websockets()[request_id@],
                None => !self.websockets().contains_key(request_id@),
            },
    {
        self.websocket_connections.get(request_id)
    }

    /// References to all tracked connections, in tracking order.
    pub fn get_all_websocket_connections(&self) -> (r: Vec<&WebSocketConnection>)
        ensures
            r@.len() == self.websocket_ids().len(),
            self.websocket_ids().len() == self.websockets().dom().len(),
            forall|k: Seq<char>| #[trigger]
                self.websockets().contains_key(k) <==> self.websocket_ids().contains(k),
            forall|i: int|
                0 <= i < r@.len() ==> *r@[i] == self.websockets()[#[trigger] self.websocket_ids()[i]],
    {
        self.websocket_connections.entries_agree();
        self.websocket_connections.values()
    }

    /// Marks a tracked connection closed.
    pub fn close_websocket(&mut self, request_id: &str)
        ensures
            final(self).websockets().dom() == old(self).websockets().dom(),
            forall|k: Seq<char>| k != request_id@ && #[trigger] old(self).websockets().contains_key(k)
                ==> final(self).websockets()[k] == old(self).websockets()[k],
            old(self).websockets().contains_key(request_id@) ==> {
                let before = old(self).websockets()[request_id@];
                let after = final(self).websockets()[request_id@];
                &&& after.state == WebSocketState::Closed
                &&& after.frames == before.frames
                &&& after.url == before.url
            },
            final(self).requests() == old(self).requests(),
            final(self).caches() == old(self).caches(),
    {
        self.update_websocket_state(request_id, WebSocketState::Closed);
    }

    /// Stops tracking a connection.
    pub fn untrack_websocket(&mut self, request_id: &str)
        ensures
            final(self).websockets() == old(self).websockets().remove(request_id@),
            final(self).requests() == old(self).requests(),
            final(self).caches() == old(self).caches(),
    {
        let _ = self.websocket_connections.remove(request_id);
    }

    /// Whether a connection is tracked.
    pub fn has_websocket(&self, request_id: &str) -> (b: bool)
        ensures
            b == self.websockets().contains_key(request_id@),
    {
        self.websocket_connections.contains_key(request_id)
    }

    /// The connection whose frames a client asks for.
    pub fn get_websocket_frame_data(&self, request_id: &str) -> (r: Result<&WebSocketConnection, ProtocolError>)
        ensures
            match r {
                Ok(c) => self.websockets().contains_key(request_id@) && *c
                    == self.websockets()[request_id@],
                Err(e) => !self.websockets().contains_key(request_id@) && (e matches ProtocolError::ServerError(
                    code,
                    m,
                ) && code == -32000 && m@ == "WebSocket not found: "@ + request_id@),
            },
    {
        match self.websocket_connections.get(request_id) {
            Some(c) => Ok(c),
            None => Err(server_error(concat_str("WebSocket not found: ", request_id))),
        }
    }
}

} // verus!
