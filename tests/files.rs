use openai_reverse_proxy::connection::{send_step, Held, SendStep};
use openai_reverse_proxy::files::{mime, mime_for_extension, FileServer};
use openai_reverse_proxy::service::{route_for, Nothing};
use openai_reverse_proxy::sse::Line;

#[test]
fn file_paths() {
    let fs = FileServer::new("/srv/www");
    assert_eq!(fs.base_path(), "/srv/www");
    assert_eq!(fs.relative_path("/index.html"), Some("index.html"));
    assert_eq!(fs.relative_path(""), Some(""));
    assert_eq!(fs.relative_path("/a/../b"), None);
    assert_eq!(fs.relative_path("/.git/config"), None);
    assert_eq!(fs.relative_path("a.html"), None);
}

#[test]
fn content_types() {
    assert_eq!(mime("/srv/www/index.html"), "text/html");
    assert_eq!(mime("app.js"), "text/javascript");
    assert_eq!(mime("notes.txt"), "text/plain");
    assert_eq!(mime("README"), "text/plain");
    assert_eq!(mime_for_extension(Some("html")), "text/html");
    assert_eq!(mime_for_extension(None), "text/plain");
}

#[test]
fn routes_by_first_prefix() {
    let prefixes = vec!["/chat/completions".to_string(), "/chat".to_string()];
    assert_eq!(route_for(&prefixes, "/chat/completions"), Some(0));
    assert_eq!(route_for(&prefixes, "/chat/other"), Some(1));
    assert_eq!(route_for(&prefixes, "/index.html"), None);
    assert_eq!(Nothing.status(), 404);
}

#[test]
fn connection_reuse() {
    assert_eq!(send_step(Held::Open), SendStep::Dispatch);
    assert_eq!(send_step(Held::Finished), SendStep::Connect);
    assert_eq!(send_step(Held::Nothing), SendStep::Connect);
}

#[test]
fn lines_read_and_written() {
    let mut out = String::new();
    let line = Line::from_str("data:  x: y");
    line.write_to(&mut out);
    assert_eq!(out, "data:  x: y");
    match Line::from_str(": c") {
        Line::Comment { text } => assert_eq!(text, " c"),
        _ => panic!("not a comment"),
    }
    assert!(matches!(Line::from_str(""), Line::Empty));
    match Line::from_str("id") {
        Line::Field { name, value } => assert_eq!((name, value), ("id", "")),
        _ => panic!("not a field"),
    }
}
