use openai_reverse_proxy::api::{Delta, Message, Request, ResponseStreamChunk, StreamChoice};
use openai_reverse_proxy::proxy::{
    check_status, completion_path, default_model, kind_for_host, normalize_chunk, transport_for,
    Transport, response_content_type, url_to_host_and_port,
    write_data_event, write_done_event, Endpoint, ProxyError, ReverseProxy, ServerKind,
    StreamConverter, StreamItem, UrlError,
};
use openai_reverse_proxy::sse::SseError;

fn endpoint(scheme: Option<&str>, host: Option<&str>, port: Option<u16>) -> Endpoint {
    Endpoint {
        scheme: scheme.map(|s| s.to_string()),
        authority: host.map(|h| match port {
            Some(p) => format!("{h}:{p}"),
            None => h.to_string(),
        }),
        host: host.map(|h| h.to_string()),
        port,
    }
}

fn message(role: &str, content: &str) -> Message {
    Message { role: role.to_string(), content: content.to_string() }
}

fn hi_request(stream: Option<bool>) -> Request {
    Request { model: "x".to_string(), messages: vec![message("user", "hi")], stream }
}

fn pairs(m: &[Message]) -> Vec<(String, String)> {
    m.iter().map(|m| (m.role.clone(), m.content.clone())).collect()
}

fn choice(role: Option<&str>, content: Option<&str>, finish: Option<&str>) -> StreamChoice {
    StreamChoice {
        delta: Delta { content: content.map(|s| s.to_string()), role: role.map(|s| s.to_string()) },
        index: Some(0),
        finish_reason: finish.map(|s| s.to_string()),
    }
}

#[test]
fn system_prompt_goes_first() {
    let proxy = ReverseProxy::new(endpoint(Some("http"), Some("localhost"), Some(8080)))
        .system_prompt(Some("sys".to_string()));
    let (out, params) = proxy.convert_request("/chat/completions", None, hi_request(None)).unwrap();
    assert_eq!(
        pairs(&out.body.messages),
        vec![("system".to_string(), "sys".to_string()), ("user".to_string(), "hi".to_string())]
    );
    assert!(!params.streaming);
    assert_eq!(out.body.stream, Some(false));
    assert_eq!(out.body.model, "");
}

#[test]
fn without_prompt_messages_pass_unchanged() {
    let proxy = ReverseProxy::new(endpoint(Some("http"), Some("localhost"), None));
    let req = Request {
        model: "m".to_string(),
        messages: vec![message("user", "a"), message("assistant", "b"), message("user", "c")],
        stream: Some(true),
    };
    let (out, params) = proxy.convert_request("/chat/completions", None, req).unwrap();
    assert_eq!(
        pairs(&out.body.messages),
        vec![
            ("user".to_string(), "a".to_string()),
            ("assistant".to_string(), "b".to_string()),
            ("user".to_string(), "c".to_string())
        ]
    );
    assert!(params.streaming);
    assert_eq!(out.body.stream, Some(true));
}

#[test]
fn path_is_rewritten_per_backend() {
    let llama = ReverseProxy::new(endpoint(Some("http"), Some("localhost"), Some(8080)));
    let (out, _) = llama.convert_request("/chat/completions", None, hi_request(None)).unwrap();
    assert_eq!(out.path_and_query, "/chat/completions");

    let openai = ReverseProxy::new(endpoint(Some("https"), Some("api.openai.com"), None))
        .kind(ServerKind::OpenAi)
        .model("gpt-4o-mini".to_string())
        .api_key(Some("k".to_string()));
    let (out, _) = openai.convert_request("/chat/completions", Some("a=1"), hi_request(Some(true))).unwrap();
    assert_eq!(out.path_and_query, "/v1/chat/completions?a=1");
    assert_eq!(out.body.model, "gpt-4o-mini");
    assert_eq!(
        out.headers,
        vec![
            ("host".to_string(), "api.openai.com".to_string()),
            ("accept".to_string(), "application/json".to_string()),
            ("content-type".to_string(), "application/json".to_string()),
            ("authorization".to_string(), "Bearer k".to_string()),
        ]
    );
    assert_eq!(completion_path(ServerKind::LlamaCpp), "/chat/completions");
    assert_eq!(completion_path(ServerKind::OpenAi), "/v1/chat/completions");
    assert_eq!(ServerKind::default(), ServerKind::LlamaCpp);
}

#[test]
fn other_paths_are_refused() {
    let proxy = ReverseProxy::new(endpoint(Some("http"), Some("localhost"), None));
    let r = proxy.convert_request("/v1/chat/completions", None, hi_request(None));
    assert_eq!(r.err(), Some(ProxyError::WrongPath("/v1/chat/completions".to_string())));
}

#[test]
fn hosts_and_ports() {
    let e = endpoint(Some("http"), Some("example.com"), None);
    assert_eq!(url_to_host_and_port(&e), Ok(("example.com", 80)));
    let e = endpoint(Some("https"), Some("example.com"), None);
    assert_eq!(url_to_host_and_port(&e), Ok(("example.com", 443)));
    let e = endpoint(Some("https"), Some("example.com"), Some(8443));
    assert_eq!(url_to_host_and_port(&e), Ok(("example.com", 8443)));
    let e = endpoint(Some("ftp"), Some("example.com"), None);
    assert_eq!(url_to_host_and_port(&e), Err(UrlError::UnsupportedScheme("ftp".to_string())));
    let e = endpoint(None, Some("example.com"), None);
    assert_eq!(url_to_host_and_port(&e), Err(UrlError::NoScheme));
    let e = endpoint(Some("http"), None, None);
    assert_eq!(url_to_host_and_port(&e), Err(UrlError::NoHost));
}

#[test]
fn terminal_chunk_gets_a_role() {
    let chunk = ResponseStreamChunk {
        choices: vec![
            choice(None, Some("x"), None),
            choice(None, None, Some("stop")),
            choice(Some("user"), None, Some("length")),
        ],
    };
    let out = normalize_chunk(chunk);
    assert_eq!(out.choices[0].delta.role, None);
    assert_eq!(out.choices[0].delta.content.as_deref(), Some("x"));
    assert_eq!(out.choices[1].delta.role.as_deref(), Some("assistant"));
    assert_eq!(out.choices[1].finish_reason.as_deref(), Some("stop"));
    assert_eq!(out.choices[2].delta.role.as_deref(), Some("user"));
}

#[test]
fn status_and_content_type() {
    assert_eq!(check_status(200), Ok(()));
    assert_eq!(check_status(299), Ok(()));
    assert_eq!(check_status(404), Err(ProxyError::Status(404)));
    assert_eq!(check_status(199), Err(ProxyError::Status(199)));
    assert_eq!(response_content_type(true), "text/event-stream");
    assert_eq!(response_content_type(false), "application/json");
}

#[test]
fn stream_items_in_order() {
    let mut conv = StreamConverter::new();
    let items = conv.next_items(b"data: {\"a\":1}\n\nevent: x\n\ndata: [DO").unwrap();
    assert_eq!(items, vec![StreamItem::Json("{\"a\":1}".to_string())]);
    let items = conv.next_items(b"NE]\n\n").unwrap();
    assert_eq!(items, vec![StreamItem::Done]);
    assert_eq!(
        conv.next_items(b"\xff\n").err(),
        Some(ProxyError::Stream(SseError::InvalidUtf8))
    );
}

#[test]
fn data_events_are_written() {
    let mut out = String::new();
    write_data_event("{\"choices\":[]}", &mut out);
    write_done_event(&mut out);
    assert_eq!(out, "data: {\"choices\":[]}\n\ndata: [DONE]\n\n");
}

#[test]
fn backend_kind_and_transport() {
    assert_eq!(kind_for_host(Some("api.openai.com")), ServerKind::OpenAi);
    assert_eq!(kind_for_host(Some("localhost")), ServerKind::LlamaCpp);
    assert_eq!(kind_for_host(None), ServerKind::LlamaCpp);
    assert_eq!(default_model(ServerKind::OpenAi), "gpt-4o-mini");
    assert_eq!(default_model(ServerKind::LlamaCpp), "");
    assert_eq!(transport_for(&endpoint(Some("http"), Some("h"), None)), Ok(Transport::Plain));
    assert_eq!(transport_for(&endpoint(Some("https"), Some("h"), None)), Ok(Transport::Tls));
    assert_eq!(transport_for(&endpoint(None, Some("h"), None)), Err(UrlError::NoScheme));
    assert_eq!(
        transport_for(&endpoint(Some("ws"), Some("h"), None)),
        Err(UrlError::UnsupportedScheme("ws".to_string()))
    );
}
