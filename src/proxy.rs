//! The reverse proxy's own rules: where a backend is reached, how a client's
//! request becomes the backend's, and how the backend's answer comes back.
use vstd::prelude::*;
use vstd::string::StringSliceAdditionalSpecFns;
use vstd::utf8::*;
use crate::api::{
    message_views, stream_choice_views, Message, MessageView, Request, ResponseStreamChunk,
    StreamChoiceView,
};
use crate::sse::{empty_event, event_bytes, Event, EventReader, EventView, SseError};
use crate::text::str_eq;

verus! {

/// A backend or forward-proxy address, as the parts of its URL that the
/// proxy reads.
#[derive(Clone, Debug)]
pub struct Endpoint {
    pub scheme: Option<String>,
    /// `host[:port]` as written in the URL.
    pub authority: Option<String>,
    pub host: Option<String>,
    pub port: Option<u16>,
}

/// Why an address cannot be used.
#[derive(Clone, Debug, PartialEq, Eq)]
pub enum UrlError {
    NoHost,
    NoScheme,
    UnsupportedScheme(String),
}

/// The port to connect to: the URL's own, or the scheme's default.
pub open spec fn port_for(scheme: Seq<char>, port: Option<u16>) -> Option<u16> {
    if scheme == "http"@ {
        Some(port.unwrap_or(80))
    } else if scheme == "https"@ {
        Some(port.unwrap_or(443))
    } else {
        None
    }
}

/// The host and port to connect to: `http` defaults to port 80, `https` to
/// 443; an address without a host or a scheme, or with another scheme, is
/// refused.
pub fn url_to_host_and_port(url: &Endpoint) -> (r: Result<(&str, u16), UrlError>)
    ensures
        url.host is None ==> r == Err::<(&str, u16), UrlError>(UrlError::NoHost),
        url.host is Some && url.scheme is None ==> r == Err::<(&str, u16), UrlError>(
            UrlError::NoScheme,
        ),
        url.host is Some && url.scheme is Some ==> match port_for(url.scheme->0@, url.port) {
            Some(p) => (r matches Ok((rh, rp)) && rh@ == url.host->0@ && rp == p),
            None => (r matches Err(UrlError::UnsupportedScheme(e)) && e@ == url.scheme->0@),
        },
{
    let host = match &url.host {
        Some(h) => h.as_str(),
        None => return Err(UrlError::NoHost),
    };
    let scheme = match &url.scheme {
        Some(s) => s.as_str(),
        None => return Err(UrlError::NoScheme),
    };
    if str_eq(scheme, "http") {
        Ok((host, url.port.unwrap_or(80)))
    } else if str_eq(scheme, "https") {
        Ok((host, url.port.unwrap_or(443)))
    } else {
        Err(UrlError::UnsupportedScheme(scheme.to_owned()))
    }
}

/// Which flavour of backend the proxy talks to.
#[derive(Clone, Copy, PartialEq, Eq, Hash, Debug)]
pub enum ServerKind {
    LlamaCpp,
    OpenAi,
}

impl Default for ServerKind {
    fn default() -> (r: ServerKind)
        ensures
            r == ServerKind::LlamaCpp,
    {
        ServerKind::LlamaCpp
    }
}

/// How the connection to an address is carried.
#[derive(Clone, Copy, Debug, PartialEq, Eq, Structural)]
pub enum Transport {
    /// Plain TCP.
    Plain,
    /// TLS over TCP, with the host name as SNI.
    Tls,
}

/// The transport that an address's scheme asks for.
pub open spec fn transport_of(scheme: Seq<char>) -> Option<Transport> {
    if scheme == "http"@ {
        Some(Transport::Plain)
    } else if scheme == "https"@ {
        Some(Transport::Tls)
    } else {
        None
    }
}

/// `http` is carried over plain TCP, `https` over TLS; any other scheme, or
/// none, is refused.
pub fn transport_for(url: &Endpoint) -> (r: Result<Transport, UrlError>)
    ensures
        url.scheme is None ==> r == Err::<Transport, UrlError>(UrlError::NoScheme),
        url.scheme is Some ==> match transport_of(url.scheme->0@) {
            Some(t) => r == Ok::<Transport, UrlError>(t),
            None => (r matches Err(UrlError::UnsupportedScheme(e)) && e@ == url.scheme->0@),
        },
{
    let scheme = match &url.scheme {
        Some(s) => s.as_str(),
        None => return Err(UrlError::NoScheme),
    };
    if str_eq(scheme, "http") {
        Ok(Transport::Plain)
    } else if str_eq(scheme, "https") {
        Ok(Transport::Tls)
    } else {
        Err(UrlError::UnsupportedScheme(scheme.to_owned()))
    }
}

/// The host that marks the OpenAI cloud API.
pub open spec fn openai_host() -> Seq<char> {
    "api.openai.com"@
}

/// The kind of backend at a host: the OpenAI cloud API, or a llama.cpp
/// server anywhere else.
pub fn kind_for_host(host: Option<&str>) -> (r: ServerKind)
    ensures
        r == if host matches Some(h) && h@ == openai_host() {
            ServerKind::OpenAi
        } else {
            ServerKind::LlamaCpp
        },
{
    match host {
        Some(h) => if str_eq(h, "api.openai.com") {
            ServerKind::OpenAi
        } else {
            ServerKind::LlamaCpp
        },
        None => ServerKind::LlamaCpp,
    }
}

/// The model each kind of backend is asked for: a fixed one for OpenAI, and
/// an empty name (the server's own model) for llama.cpp.
pub fn default_model(kind: ServerKind) -> (r: &'static str)
    ensures
        r@ == match kind {
            ServerKind::OpenAi => "gpt-4o-mini"@,
            ServerKind::LlamaCpp => ""@,
        },
{
    match kind {
        ServerKind::OpenAi => "gpt-4o-mini",
        ServerKind::LlamaCpp => "",
    }
}

/// The completion path of each kind of backend.
pub open spec fn completion_path_of(kind: ServerKind) -> Seq<char> {
    match kind {
        ServerKind::LlamaCpp => "/chat/completions"@,
        ServerKind::OpenAi => "/v1/chat/completions"@,
    }
}

/// The one path on which the proxy takes requests.
pub open spec fn inbound_path() -> Seq<char> {
    "/chat/completions"@
}

/// The path a backend of this kind serves completions on.
pub fn completion_path(kind: ServerKind) -> (r: &'static str)
    ensures
        r@ == completion_path_of(kind),
{
    match kind {
        ServerKind::LlamaCpp => "/chat/completions",
        ServerKind::OpenAi => "/v1/chat/completions",
    }
}

/// Why a request could not be forwarded.
#[derive(Clone, Debug, PartialEq, Eq)]
pub enum ProxyError {
    /// The client asked for a path other than the completion path.
    WrongPath(String),
    /// The backend answered with a status outside 200..=299.
    Status(u16),
    /// The backend's event stream was not UTF-8.
    Stream(SseError),
}

/// What a request decided that its response needs.
#[derive(Clone, Copy, Debug, PartialEq, Eq)]
pub struct RequestParams {
    pub streaming: bool,
}

/// The request to send to the backend: its path (with the client's query),
/// its headers in order, and its body.
#[derive(Clone, Debug)]
pub struct OutgoingRequest {
    pub path_and_query: String,
    pub headers: Vec<(String, String)>,
    pub body: Request,
}

pub open spec fn header_views(h: Seq<(String, String)>) -> Seq<(Seq<char>, Seq<char>)> {
    h.map_values(|p: (String, String)| (p.0@, p.1@))
}

/// The proxy's configuration, fixed once it is built.
pub struct ReverseProxy {
    url: Endpoint,
    host: String,
    proxy: Option<Endpoint>,
    model: String,
    kind: ServerKind,
    api_key: Option<String>,
    system_prompt: Option<String>,
}

/// The configuration as plain values.
pub ghost struct ProxyConfig {
    pub url: Endpoint,
    pub host: Seq<char>,
    pub proxy: Option<Endpoint>,
    pub model: Seq<char>,
    pub kind: ServerKind,
    pub api_key: Option<Seq<char>>,
    pub system_prompt: Option<Seq<char>>,
}

pub open spec fn opt_text(s: Option<String>) -> Option<Seq<char>> {
    match s {
        Some(s) => Some(s@),
        None => None,
    }
}

impl View for ReverseProxy {
    type V = ProxyConfig;

    closed spec fn view(&self) -> ProxyConfig {
        ProxyConfig {
            url: self.url,
            host: self.host@,
            proxy: self.proxy,
            model: self.model@,
            kind: self.kind,
            api_key: opt_text(self.api_key),
            system_prompt: opt_text(self.system_prompt),
        }
    }
}

/// The messages sent on: the system prompt first, when there is one, then
/// the client's messages in order.
pub open spec fn outgoing_messages(prompt: Option<Seq<char>>, client: Seq<MessageView>) -> Seq<
    MessageView,
> {
    match prompt {
        Some(p) => seq![MessageView { role: "system"@, content: p }] + client,
        None => client,
    }
}

/// The headers sent on, in order.
pub open spec fn outgoing_headers(host: Seq<char>, api_key: Option<Seq<char>>) -> Seq<
    (Seq<char>, Seq<char>),
> {
    let base = seq![
        ("host"@, host),
        ("accept"@, "application/json"@),
        ("content-type"@, "application/json"@),
    ];
    match api_key {
        Some(k) => base.push(("authorization"@, "Bearer "@ + k)),
        None => base,
    }
}

/// The backend path with the client's query, if any.
pub open spec fn outgoing_path(kind: ServerKind, query: Option<Seq<char>>) -> Seq<char> {
    match query {
        Some(q) => completion_path_of(kind) + "?"@ + q,
        None => completion_path_of(kind),
    }
}

fn header(name: &str, value: &str) -> (r: (String, String))
    ensures
        r.0@ == name@,
        r.1@ == value@,
{
    (name.to_owned(), value.to_owned())
}

impl ReverseProxy {
    /// A proxy to the backend at `url`, whose authority goes in the `Host`
    /// header; a llama.cpp backend, no forward proxy, an empty model name,
    /// no API key and no system prompt.
    pub fn new(url: Endpoint) -> (r: ReverseProxy)
        requires
            url.authority is Some,
        ensures
            r@ == (ProxyConfig {
                url: url,
                host: url.authority->0@,
                proxy: None,
                model: Seq::empty(),
                kind: ServerKind::LlamaCpp,
                api_key: None,
                system_prompt: None,
            }),
    {
        let host = match &url.authority {
            Some(a) => a.clone(),
            None => String::new(),
        };
        ReverseProxy {
            url,
            host,
            proxy: None,
            model: String::new(),
            kind: ServerKind::LlamaCpp,
            api_key: None,
            system_prompt: None,
        }
    }

    pub fn model(self, model: String) -> (r: ReverseProxy)
        ensures
            r@ == (ProxyConfig { model: model@, ..self@ }),
    {
        ReverseProxy { model, ..self }
    }

    pub fn kind(self, kind: ServerKind) -> (r: ReverseProxy)
        ensures
            r@ == (ProxyConfig { kind: kind, ..self@ }),
    {
        ReverseProxy { kind, ..self }
    }

    pub fn proxy(self, proxy: Option<Endpoint>) -> (r: ReverseProxy)
        ensures
            r@ == (ProxyConfig { proxy: proxy, ..self@ }),
    {
        ReverseProxy { proxy, ..self }
    }

    pub fn api_key(self, api_key: Option<String>) -> (r: ReverseProxy)
        ensures
            r@ == (ProxyConfig { api_key: opt_text(api_key), ..self@ }),
    {
        ReverseProxy { api_key, ..self }
    }

    pub fn system_prompt(self, prompt: Option<String>) -> (r: ReverseProxy)
        ensures
            r@ == (ProxyConfig { system_prompt: opt_text(prompt), ..self@ }),
    {
        ReverseProxy { system_prompt: prompt, ..self }
    }

    /// The backend's address.
    pub fn url(&self) -> (r: &Endpoint)
        ensures
            *r == self@.url,
    {
        &self.url
    }

    /// The forward proxy to tunnel through, if any.
    pub fn forward_proxy(&self) -> (r: &Option<Endpoint>)
        ensures
            *r == self@.proxy,
    {
        &self.proxy
    }

    /// Turns a client's request on `path` (with `query`) into the backend's:
    /// only the completion path is taken; the system prompt goes first; the
    /// model is the configured one; streaming is a definite flag (off unless
    /// asked for); the path is the backend kind's; the headers name the
    /// backend's host, JSON both ways, and the API key when there is one.
    pub fn convert_request(&self, path: &str, query: Option<&str>, req: Request) -> (r: Result<
        (OutgoingRequest, RequestParams),
        ProxyError,
    >)
        ensures
            path@ != inbound_path() ==> (r matches Err(ProxyError::WrongPath(p)) && p@ == path@),
            path@ == inbound_path() ==> (r matches Ok((out, params)) && {
                &&& params.streaming == req.stream.unwrap_or(false)
                &&& out.body.stream == Some(params.streaming)
                &&& out.body.model@ == self@.model
                &&& message_views(out.body.messages@) == outgoing_messages(
                    self@.system_prompt,
                    message_views(req.messages@),
                )
                &&& out.path_and_query@ == outgoing_path(
                    self@.kind,
                    match query {
                        Some(q) => Some(q@),
                        None => None,
                    },
                )
                &&& header_views(out.headers@) == outgoing_headers(self@.host, self@.api_key)
            }),
    {
        if !str_eq(path, "/chat/completions") {
            return Err(ProxyError::WrongPath(path.to_owned()));
        }
        let mut messages: Vec<Message> = Vec::new();
        if let Some(prompt) = &self.system_prompt {
            messages.push(Message { role: "system".to_owned(), content: prompt.clone() });
        }
        let ghost head = messages@;
        let mut client = req.messages;
        let ghost from_client = client@;
        messages.append(&mut client);
        assert(message_views(messages@) =~= message_views(head) + message_views(from_client));
        let streaming = req.stream.unwrap_or(false);
        let body = Request { model: self.model.clone(), messages, stream: Some(streaming) };
        let mut path_and_query = completion_path(self.kind).to_owned();
        if let Some(q) = query {
            path_and_query.append("?");
            path_and_query.append(q);
        }
        let mut headers: Vec<(String, String)> = Vec::new();
        headers.push(header("host", self.host.as_str()));
        headers.push(header("accept", "application/json"));
        headers.push(header("content-type", "application/json"));
        if let Some(key) = &self.api_key {
            let mut bearer = "Bearer ".to_owned();
            bearer.append(key.as_str());
            headers.push(("authorization".to_owned(), bearer));
        }
        Ok((OutgoingRequest { path_and_query, headers, body }, RequestParams { streaming }))
    }
}

/// Lets a backend answer through only with a success status (200..=299).
pub fn check_status(status: u16) -> (r: Result<(), ProxyError>)
    ensures
        200 <= status <= 299 ==> r is Ok,
        !(200 <= status <= 299) ==> r == Err::<(), ProxyError>(ProxyError::Status(status)),
{
    if 200 <= status && status <= 299 {
        Ok(())
    } else {
        Err(ProxyError::Status(status))
    }
}

/// The content type of the answer sent back to the client.
pub fn response_content_type(streaming: bool) -> (r: &'static str)
    ensures
        r@ == if streaming {
            "text/event-stream"@
        } else {
            "application/json"@
        },
{
    if streaming {
        "text/event-stream"
    } else {
        "application/json"
    }
}

/// A choice that ends generation but names no role is given the role
/// `assistant`; any other choice is left as it is.
pub open spec fn normalized(c: StreamChoiceView) -> StreamChoiceView {
    if c.finish_reason is Some && c.role is None {
        StreamChoiceView { role: Some("assistant"@), ..c }
    } else {
        c
    }
}

/// A terminal choice (one with a finish reason) that names no role comes out
/// with the role `assistant`; a choice that is not terminal comes out as it
/// went in.
pub proof fn lemma_terminal_choice_gets_role(c: StreamChoiceView)
    ensures
        c.finish_reason is Some && c.role is None ==> normalized(c).role == Some("assistant"@)
            && normalized(c).content == c.content && normalized(c).index == c.index
            && normalized(c).finish_reason == c.finish_reason,
        c.finish_reason is None ==> normalized(c) == c,
{
}

/// Gives every terminal choice of a streamed chunk a role, as some backends
/// leave it out; the choices keep their order.
pub fn normalize_chunk(chunk: ResponseStreamChunk) -> (r: ResponseStreamChunk)
    ensures
        stream_choice_views(r.choices@) == stream_choice_views(chunk.choices@).map_values(
            |c: StreamChoiceView| normalized(c),
        ),
{
    let mut choices = chunk.choices;
    let ghost before = stream_choice_views(choices@);
    let mut i: usize = 0;
    while i < choices.len()
        invariant
            i <= choices@.len(),
            before.len() == choices@.len(),
            forall|j: int| 0 <= j < i ==> #[trigger] choices@[j]@ == normalized(before[j]),
            forall|j: int| i <= j < choices@.len() ==> #[trigger] choices@[j]@ == before[j],
        decreases choices@.len() - i,
    {
        let ghost prev = choices@;
        if choices[i].finish_reason.is_some() && choices[i].delta.role.is_none() {
            let mut c = choices.remove(i);
            c.delta.role = Some("assistant".to_owned());
            choices.insert(i, c);
            assert(choices@ =~= prev.update(i as int, c));
            assert(choices@[i as int]@ == normalized(before[i as int]));
        } else {
            assert(choices@[i as int]@ == normalized(before[i as int]));
        }
        i = i + 1;
    }
    assert(stream_choice_views(choices@) =~= before.map_values(|c: StreamChoiceView| normalized(c)));
    ResponseStreamChunk { choices }
}

/// The payload that ends a stream.
pub open spec fn done_bytes() -> Seq<u8> {
    seq![91u8, 68u8, 79u8, 78u8, 69u8, 93u8]
}

fn done_vec() -> (v: Vec<u8>)
    ensures
        v@ == done_bytes(),
{
    let mut v: Vec<u8> = Vec::new();
    v.push(91);
    v.push(68);
    v.push(79);
    v.push(78);
    v.push(69);
    v.push(93);
    assert(v@ =~= done_bytes());
    v
}

/// What a backend event asks of the proxy.
#[derive(Clone, Debug, PartialEq, Eq)]
pub enum StreamItem {
    /// The end-of-stream marker, passed through as it is.
    Done,
    /// A JSON chunk to decode, normalize and encode again.
    Json(String),
}

pub ghost enum StreamItemView {
    Done,
    Json(Seq<u8>),
}

impl View for StreamItem {
    type V = StreamItemView;

    open spec fn view(&self) -> StreamItemView {
        match self {
            StreamItem::Done => StreamItemView::Done,
            StreamItem::Json(s) => StreamItemView::Json(encode_utf8(s@)),
        }
    }
}

/// The items of some events, in order: an event without data is skipped.
pub open spec fn items_of(evs: Seq<EventView>) -> Seq<StreamItemView>
    decreases evs.len(),
{
    if evs.len() == 0 {
        seq![]
    } else {
        let rest = items_of(evs.drop_last());
        match evs.last().data {
            None => rest,
            Some(d) => rest.push(
                if d == done_bytes() {
                    StreamItemView::Done
                } else {
                    StreamItemView::Json(d)
                },
            ),
        }
    }
}

pub open spec fn item_views(v: Seq<StreamItem>) -> Seq<StreamItemView> {
    v.map_values(|i: StreamItem| i@)
}

/// Reads a backend's event stream chunk by chunk.
pub struct StreamConverter {
    reader: EventReader,
}

impl View for StreamConverter {
    type V = crate::sse::ReaderView;

    closed spec fn view(&self) -> crate::sse::ReaderView {
        self.reader@
    }
}

impl StreamConverter {
    pub fn new() -> (r: StreamConverter)
        ensures
            r@ == crate::sse::fresh_reader(),
    {
        StreamConverter { reader: EventReader::new() }
    }

    /// The items of the events that one chunk of the backend's body
    /// completes; bytes that are not UTF-8 end the stream with an error.
    pub fn next_items(&mut self, input: &[u8]) -> (r: Result<Vec<StreamItem>, ProxyError>)
        ensures
            match crate::sse::feed(old(self)@, input@) {
                None => r == Err::<Vec<StreamItem>, ProxyError>(
                    ProxyError::Stream(SseError::InvalidUtf8),
                ) && final(self)@ == old(self)@,
                Some((next, evs)) => (r matches Ok(items) && item_views(items@) == items_of(evs)
                    && final(self)@ == next),
            },
    {
        let mut events = match self.reader.next_events(input) {
            Ok(it) => it,
            Err(e) => return Err(ProxyError::Stream(e)),
        };
        let ghost evs = events@;
        let done = done_vec();
        let mut items: Vec<StreamItem> = Vec::new();
        let mut k: usize = 0;
        let n = events.len();
        while k < n
            invariant
                n == evs.len(),
                k <= n,
                events@ == evs.subrange(k as int, n as int),
                item_views(items@) == items_of(evs.subrange(0, k as int)),
                done@ == done_bytes(),
            decreases n - k,
        {
            let e = match events.next() {
                Some(e) => e,
                None => {
                    assert(false);
                    return Ok(items);
                },
            };
            let ghost before = items@;
            assert(evs.subrange(0, k + 1).drop_last() =~= evs.subrange(0, k as int));
            assert(evs.subrange(0, k + 1).last() == e@);
            assert(events@ =~= evs.subrange(k + 1, n as int));
            if let Some(d) = e.data {
                if crate::text::bytes_equal(d.as_str().as_bytes(), done.as_slice()) {
                    items.push(StreamItem::Done);
                } else {
                    items.push(StreamItem::Json(d));
                }
                assert(item_views(items@) =~= item_views(before).push(items@.last()@));
            }
            k = k + 1;
        }
        assert(evs.subrange(0, n as int) =~= evs);
        Ok(items)
    }
}

/// Writes an event that carries only `data`.
pub fn write_data_event(data: &str, out: &mut String)
    ensures
        encode_utf8(final(out)@) == encode_utf8(old(out)@) + event_bytes(
            EventView { data: Some(data.spec_bytes()), ..empty_event() },
        ),
{
    let e = Event { type_: None, data: Some(data.to_owned()), id: None, retry: None };
    e.write_to(out);
}

/// Writes the end-of-stream event.
pub fn write_done_event(out: &mut String)
    ensures
        encode_utf8(final(out)@) == encode_utf8(old(out)@) + event_bytes(
            EventView { data: Some(done_bytes()), ..empty_event() },
        ),
{
    let done = done_vec();
    proof {
        crate::text::lemma_ascii_valid(done_bytes());
    }
    write_data_event(crate::text::str_of(done.as_slice()), out);
}

} // verus!
