use openai_reverse_proxy::tunnel::{check_connect_answer, connect_request, scan_answer_byte, HandshakeError};

#[test]
fn connect_request_text() {
    let r = connect_request("example.com", 443);
    assert_eq!(
        String::from_utf8(r).unwrap(),
        "CONNECT example.com:443 HTTP/1.1\nHost: example.com:443\nProxy-Connection: keep-alive\nConnection: keep-alive\n\n"
    );
}

#[test]
fn answer_ends_after_blank_line() {
    let answer = b"HTTP/1.1 200 OK\r\nVia: p\r\n\r\nrest";
    let mut run: u8 = 0;
    let mut read = 0;
    for b in answer {
        run = scan_answer_byte(run, *b);
        read += 1;
        if run >= 2 {
            break;
        }
    }
    assert_eq!(read, answer.len() - 4);
}

#[test]
fn answer_verdicts() {
    assert_eq!(check_connect_answer(b"HTTP/1.1 200 Connection established\r\n\r\n"), Ok(()));
    assert_eq!(check_connect_answer(b"  HTTP/1.1\t200\n\n"), Ok(()));
    assert_eq!(
        check_connect_answer(b"HTTP/1.0 200 OK\r\n\r\n"),
        Err(HandshakeError::UnsupportedProtocol)
    );
    assert_eq!(
        check_connect_answer(b"HTTP/1.1 407 Proxy Authentication Required\r\n\r\n"),
        Err(HandshakeError::Unsuccessful)
    );
    assert_eq!(check_connect_answer(b"HTTP/1.1\r\n\r\n"), Err(HandshakeError::Unsuccessful));
    assert_eq!(check_connect_answer(b"HTTP/1.1 \xff\r\n\r\n"), Err(HandshakeError::InvalidUtf8));
    assert_eq!(check_connect_answer(b""), Err(HandshakeError::UnsupportedProtocol));
}
