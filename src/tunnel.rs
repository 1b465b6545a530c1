//! The CONNECT exchange that opens a tunnel through a forward proxy: the
//! request to write, when the answer has been read in full, and whether it
//! grants the tunnel.
use vstd::prelude::*;
use vstd::string::StringSliceAdditionalSpecFns;
use vstd::utf8::*;
use crate::text::{append_bytes, bytes_equal, decimal, split_utf8, u64_to_decimal};

verus! {

/// `CONNECT host:port HTTP/1.1`, then `Host`, `Proxy-Connection` and
/// `Connection` headers, then a blank line; each line ends with a line feed.
pub open spec fn connect_request_bytes(host: Seq<u8>, port: u16) -> Seq<u8> {
    let p = decimal(port as nat);
    "CONNECT ".spec_bytes() + host + ":".spec_bytes() + p + " HTTP/1.1\n".spec_bytes()
        + "Host: ".spec_bytes() + host + ":".spec_bytes() + p + "\n".spec_bytes()
        + "Proxy-Connection: keep-alive\n".spec_bytes() + "Connection: keep-alive\n".spec_bytes()
        + "\n".spec_bytes()
}

/// The request that asks the forward proxy for a tunnel to `host:port`.
pub fn connect_request(host: &str, port: u16) -> (r: Vec<u8>)
    ensures
        r@ == connect_request_bytes(host.spec_bytes(), port),
{
    let digits = u64_to_decimal(port as u64);
    let p = digits.as_str().as_bytes();
    let mut w: Vec<u8> = Vec::new();
    append_bytes(&mut w, "CONNECT ".as_bytes());
    append_bytes(&mut w, host.as_bytes());
    append_bytes(&mut w, ":".as_bytes());
    append_bytes(&mut w, p);
    append_bytes(&mut w, " HTTP/1.1\n".as_bytes());
    append_bytes(&mut w, "Host: ".as_bytes());
    append_bytes(&mut w, host.as_bytes());
    append_bytes(&mut w, ":".as_bytes());
    append_bytes(&mut w, p);
    append_bytes(&mut w, "\n".as_bytes());
    append_bytes(&mut w, "Proxy-Connection: keep-alive\n".as_bytes());
    append_bytes(&mut w, "Connection: keep-alive\n".as_bytes());
    append_bytes(&mut w, "\n".as_bytes());
    w
}

/// How many line terminators in a row the answer has ended with after one
/// more byte: a line feed adds one, a carriage return changes nothing, any
/// other byte starts over.
pub open spec fn next_run(run: u8, b: u8) -> u8 {
    if b == 10 {
        (run + 1) as u8
    } else if b == 13 {
        run
    } else {
        0
    }
}

/// The answer is read in full once two line terminators come in a row.
pub open spec fn answer_complete(run: u8) -> bool {
    run >= 2
}

/// Counts line terminators in a row, one byte of the answer at a time.
pub fn scan_answer_byte(run: u8, b: u8) -> (r: u8)
    requires
        run < 2,
    ensures
        r == next_run(run, b),
{
    if b == 10 {
        run + 1
    } else if b == 13 {
        run
    } else {
        0
    }
}

/// Why the forward proxy did not grant the tunnel.
#[derive(Clone, Copy, Debug, PartialEq, Eq)]
pub enum HandshakeError {
    /// The answer is not UTF-8.
    InvalidUtf8,
    /// The answer does not start with `HTTP/1.1`.
    UnsupportedProtocol,
    /// The status is not 200.
    Unsuccessful,
}

pub open spec fn is_ascii_space(b: u8) -> bool {
    b == 32 || b == 9 || b == 10 || b == 12 || b == 13
}

/// The first position at or after `i` that is not ASCII whitespace.
pub open spec fn skip_space(b: Seq<u8>, i: int) -> int
    decreases b.len() - i,
{
    if 0 <= i < b.len() && is_ascii_space(b[i]) {
        skip_space(b, i + 1)
    } else {
        i
    }
}

/// The first position at or after `i` that is ASCII whitespace, or the end.
pub open spec fn skip_word(b: Seq<u8>, i: int) -> int
    decreases b.len() - i,
{
    if 0 <= i < b.len() && !is_ascii_space(b[i]) {
        skip_word(b, i + 1)
    } else {
        i
    }
}

/// The word that follows position `i` (empty when none does).
pub open spec fn word_after(b: Seq<u8>, i: int) -> Seq<u8> {
    b.subrange(skip_space(b, i), skip_word(b, skip_space(b, i)))
}

/// Where the word that follows position `i` ends.
pub open spec fn end_of_word_after(b: Seq<u8>, i: int) -> int {
    skip_word(b, skip_space(b, i))
}

/// The verdict on the proxy's answer: UTF-8, whose first word is
/// `HTTP/1.1` and whose second is `200`.
pub open spec fn answer_verdict(b: Seq<u8>) -> Result<(), HandshakeError> {
    if !valid_utf8(b) {
        Err(HandshakeError::InvalidUtf8)
    } else if word_after(b, 0) != "HTTP/1.1".spec_bytes() {
        Err(HandshakeError::UnsupportedProtocol)
    } else if word_after(b, end_of_word_after(b, 0)) != "200".spec_bytes() {
        Err(HandshakeError::Unsuccessful)
    } else {
        Ok(())
    }
}

/// The word after position `i`, and where it ends.
fn next_word(b: &[u8], i: usize) -> (r: (usize, usize))
    requires
        i <= b@.len(),
    ensures
        r.0 == skip_space(b@, i as int),
        r.1 == skip_word(b@, r.0 as int),
        i <= r.0 <= r.1 <= b@.len(),
{
    let mut s = i;
    while s < b.len() && (b[s] == 32 || b[s] == 9 || b[s] == 10 || b[s] == 12 || b[s] == 13)
        invariant
            i <= s <= b@.len(),
            skip_space(b@, i as int) == skip_space(b@, s as int),
        decreases b@.len() - s,
    {
        s = s + 1;
    }
    let mut e = s;
    while e < b.len() && !(b[e] == 32 || b[e] == 9 || b[e] == 10 || b[e] == 12 || b[e] == 13)
        invariant
            s <= e <= b@.len(),
            skip_word(b@, s as int) == skip_word(b@, e as int),
        decreases b@.len() - e,
    {
        e = e + 1;
    }
    (s, e)
}

/// Whether the forward proxy's answer grants the tunnel.
pub fn check_connect_answer(b: &[u8]) -> (r: Result<(), HandshakeError>)
    ensures
        r == answer_verdict(b@),
{
    if split_utf8(b).is_err() {
        return Err(HandshakeError::InvalidUtf8);
    }
    let (s1, e1) = next_word(b, 0);
    if !bytes_equal(vstd::slice::slice_subrange(b, s1, e1), "HTTP/1.1".as_bytes()) {
        return Err(HandshakeError::UnsupportedProtocol);
    }
    let (s2, e2) = next_word(b, e1);
    if !bytes_equal(vstd::slice::slice_subrange(b, s2, e2), "200".as_bytes()) {
        return Err(HandshakeError::Unsuccessful);
    }
    Ok(())
}

} // verus!
