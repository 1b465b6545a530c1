use openai_reverse_proxy::sse::{Event, EventReader, SseError};

fn events_of(reader: &mut EventReader, chunk: &[u8]) -> Vec<Event> {
    let mut iter = reader.next_events(chunk).unwrap();
    let mut out = Vec::new();
    while let Some(e) = iter.next() {
        out.push(e);
    }
    out
}

fn written(e: &Event) -> String {
    let mut out = String::new();
    e.write_to(&mut out);
    out
}

#[test]
fn data() {
    let data = &"
data

data
data

data:
"[1..];

    let mut reader = EventReader::default();
    let mut iter = reader.next_events(data.as_bytes()).unwrap();

    assert_eq!(
        iter.next().unwrap(),
        Event {
            data: Some("".into()),
            ..Default::default()
        }
    );
    assert_eq!(
        iter.next().unwrap(),
        Event {
            data: Some("\n".into()),
            ..Default::default()
        }
    );
    assert!(iter.next().is_none())
}

#[test]
fn comment_and_id() {
    let data = &"
: test stream

data: first event
id: 1

data:second event
id

data:  third event
"[1..];

    let mut reader = EventReader::default();
    let mut iter = reader.next_events(data.as_bytes()).unwrap();

    assert_eq!(
        iter.next().unwrap(),
        Event {
            data: Some("first event".into()),
            id: Some("1".into()),
            ..Default::default()
        }
    );
    assert_eq!(
        iter.next().unwrap(),
        Event {
            data: Some("second event".into()),
            id: Some("".into()),
            ..Default::default()
        }
    );
    assert!(iter.next().is_none())
}

#[test]
fn multiline_data() {
    let data = &"
data: YHOO
data: +2
data: 10

"[1..];

    let mut reader = EventReader::default();
    let mut iter = reader.next_events(data.as_bytes()).unwrap();

    assert_eq!(
        iter.next().unwrap(),
        Event {
            data: Some("YHOO\n+2\n10".into()),
            ..Default::default()
        }
    );
    assert!(iter.next().is_none())
}

#[test]
fn split_event() {
    let chunks = [b"event: push\ndata", b": 123456\nid: 1\n\n"];

    let mut reader = EventReader::default();

    assert!(reader.next_events(chunks[0]).unwrap().next().is_none());

    let mut iter = reader.next_events(chunks[1]).unwrap();
    assert_eq!(
        iter.next().unwrap(),
        Event {
            type_: Some("push".into()),
            data: Some("123456".into()),
            id: Some("1".into()),
            ..Default::default()
        }
    );
    assert!(iter.next().is_none())
}

#[test]
fn split_char() {
    let chunks = [&b"data: \xd0\x90\xd0"[..], &b"\x91\xd0\x92\n\n"[..]];

    let mut reader = EventReader::default();

    assert!(reader.next_events(chunks[0]).unwrap().next().is_none());

    let mut iter = reader.next_events(chunks[1]).unwrap();
    assert_eq!(
        iter.next().unwrap(),
        Event {
            data: Some("АБВ".into()),
            ..Default::default()
        }
    );
    assert!(iter.next().is_none())
}

#[test]
fn every_split_gives_the_same_events() {
    let stream = "event: a\r\ndata: x\n: note\ndata: АБВ\nid: 7\nretry: 1500\n\ndata: [DONE]\n\n".as_bytes();
    let whole = events_of(&mut EventReader::new(), stream);
    assert_eq!(whole.len(), 2);
    for cut in 0..=stream.len() {
        let mut reader = EventReader::new();
        let mut got = events_of(&mut reader, &stream[..cut]);
        got.extend(events_of(&mut reader, &stream[cut..]));
        assert_eq!(got, whole, "cut at {}", cut);
    }
    let mut reader = EventReader::new();
    let mut got = Vec::new();
    for b in stream {
        got.extend(events_of(&mut reader, std::slice::from_ref(b)));
    }
    assert_eq!(got, whole);
}

#[test]
fn fields_are_read() {
    let got = events_of(
        &mut EventReader::new(),
        b"event: a\r\ndata: x\n: note\ndata: y\nid: 7\nretry: 1500\nother: z\n\n",
    );
    assert_eq!(
        got,
        vec![Event {
            type_: Some("a".into()),
            data: Some("x\ny".into()),
            id: Some("7".into()),
            retry: Some(1500),
        }]
    );
}

#[test]
fn malformed_retry_is_ignored() {
    let got = events_of(&mut EventReader::new(), b"retry: 1x\ndata: a\n\nretry: +20\n\n");
    assert_eq!(
        got,
        vec![
            Event { data: Some("a".into()), ..Default::default() },
            Event { retry: Some(20), ..Default::default() },
        ]
    );
}

#[test]
fn bare_carriage_return_ends_no_line() {
    let got = events_of(&mut EventReader::new(), b"data: a\rb\n\n");
    assert_eq!(got, vec![Event { data: Some("a\rb".into()), ..Default::default() }]);
}

#[test]
fn empty_events_are_not_dispatched() {
    let got = events_of(&mut EventReader::new(), b"\n\n: only a comment\n\n");
    assert!(got.is_empty());
}

#[test]
fn malformed_utf8_fails_the_stream() {
    let mut reader = EventReader::new();
    assert_eq!(reader.next_events(b"data: \xff\n\n").err(), Some(SseError::InvalidUtf8));
    let mut reader = EventReader::new();
    assert!(reader.next_events(b"data: \xd0").is_ok());
    assert_eq!(reader.next_events(b"A\n\n").err(), Some(SseError::InvalidUtf8));
    assert_eq!(SseError::InvalidUtf8.message(), "Bytes contain invalid UTF8");
}

#[test]
fn cut_character_waits_for_its_end() {
    let mut reader = EventReader::new();
    assert!(events_of(&mut reader, b"data: \xe2\x82").is_empty());
    let got = events_of(&mut reader, b"\xac\n\n");
    assert_eq!(got, vec![Event { data: Some("€".into()), ..Default::default() }]);
}

#[test]
fn event_is_written_in_wire_form() {
    let e = Event {
        type_: Some("push".into()),
        data: Some("a\n\nb".into()),
        id: Some("".into()),
        retry: Some(3000),
    };
    assert_eq!(written(&e), "event: push\ndata: a\ndata\ndata: b\nid\nretry: 3000\n\n");
    assert_eq!(written(&Event::default()), "\n");
}

#[test]
fn written_event_reads_back() {
    let e = Event {
        type_: Some("t".into()),
        data: Some(" lead\nАБВ\n".into()),
        id: Some("id:1".into()),
        retry: Some(0),
    };
    let wire = written(&e);
    let got = events_of(&mut EventReader::new(), wire.as_bytes());
    assert_eq!(got, vec![e.clone()]);
    assert_eq!(written(&got[0]), wire);
}

#[test]
fn update_field_rules() {
    let mut e = Event::default();
    e.update_field("data", "a");
    e.update_field("data", "b");
    e.update_field("event", "x");
    e.update_field("event", "y");
    e.update_field("id", "1");
    e.update_field("retry", "oops");
    e.update_field("unknown", "z");
    assert_eq!(
        e,
        Event {
            type_: Some("y".into()),
            data: Some("a\nb".into()),
            id: Some("1".into()),
            retry: None,
        }
    );
    assert!(!e.is_empty());
    assert!(Event::default().is_empty());
}
