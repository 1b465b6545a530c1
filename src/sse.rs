//! Server-Sent Events: an incremental parser that accepts a byte stream cut
//! at arbitrary points, and the writer that turns an event back into wire
//! bytes.
//!
//! The model works on bytes. A string field is seen through the UTF-8 bytes
//! of its characters, so a field's view is exactly what goes on the wire.
use vstd::prelude::*;
use vstd::string::StringSliceAdditionalSpecFns;
use vstd::utf8::*;
use crate::text::{
    append_bytes, bytes_equal, decimal, first_index, is_streamable_utf8,
    lemma_ascii_bounded_valid, lemma_ascii_valid, lemma_ascii_valid_decimal,
    lemma_cut_scalar_facts, lemma_encode_concat, lemma_first_index,
    lemma_malformed_not_streamable, lemma_valid_concat3, lemma_valid_is_streamable,
    lemma_valid_then_cut_is_streamable, parse_u64, parsed_u64, split_utf8, str_of,
    u64_to_decimal,
};

verus! {

pub open spec fn nl() -> u8 {
    10
}

pub open spec fn event_name() -> Seq<u8> {
    seq![101u8, 118u8, 101u8, 110u8, 116u8]
}

pub open spec fn data_name() -> Seq<u8> {
    seq![100u8, 97u8, 116u8, 97u8]
}

pub open spec fn id_name() -> Seq<u8> {
    seq![105u8, 100u8]
}

pub open spec fn retry_name() -> Seq<u8> {
    seq![114u8, 101u8, 116u8, 114u8, 121u8]
}

/// An event as the wire sees it: each text field as its UTF-8 bytes, the
/// reconnection delay in milliseconds.
pub ghost struct EventView {
    pub type_: Option<Seq<u8>>,
    pub data: Option<Seq<u8>>,
    pub id: Option<Seq<u8>>,
    pub retry: Option<u64>,
}

pub open spec fn empty_event() -> EventView {
    EventView { type_: None, data: None, id: None, retry: None }
}

/// What one field line does to the event being built.
pub open spec fn with_field(e: EventView, name: Seq<u8>, value: Seq<u8>) -> EventView {
    if name == event_name() {
        EventView { type_: Some(value), ..e }
    } else if name == data_name() {
        EventView {
            data: Some(
                match e.data {
                    Some(d) => d + seq![nl()] + value,
                    None => value,
                },
            ),
            ..e
        }
    } else if name == id_name() {
        EventView { id: Some(value), ..e }
    } else if name == retry_name() {
        match parsed_u64(value) {
            Some(ms) => EventView { retry: Some(ms), ..e },
            None => e,
        }
    } else {
        e
    }
}

/// A line as the wire sees it.
pub ghost enum LineView {
    Comment(Seq<u8>),
    Field(Seq<u8>, Seq<u8>),
    Empty,
}

/// Drops one leading space.
pub open spec fn strip_space(v: Seq<u8>) -> Seq<u8> {
    if v.len() > 0 && v[0] == 32 {
        v.drop_first()
    } else {
        v
    }
}

/// How a line (without its terminator) is read: a leading colon makes a
/// comment, otherwise the line is a field named up to its first colon, whose
/// value follows that colon less one leading space; a line without a colon
/// is a field with an empty value.
pub open spec fn parse_line(l: Seq<u8>) -> LineView {
    let c = first_index(l, 58);
    if l.len() == 0 {
        LineView::Empty
    } else if c < 0 {
        LineView::Field(l, seq![])
    } else if c == 0 {
        LineView::Comment(l.subrange(1, l.len() as int))
    } else {
        LineView::Field(l.subrange(0, c), strip_space(l.subrange(c + 1, l.len() as int)))
    }
}

/// What one line does: the event being built next, and the event it
/// dispatches, if any. A blank line dispatches a non-empty event.
pub open spec fn apply_line(e: EventView, l: Seq<u8>) -> (EventView, Option<EventView>) {
    match parse_line(l) {
        LineView::Empty => if e == empty_event() {
            (e, None)
        } else {
            (empty_event(), Some(e))
        },
        LineView::Comment(_) => (e, None),
        LineView::Field(n, v) => (with_field(e, n, v), None),
    }
}

/// Lines applied in order: the event still being built, and the events
/// dispatched, in order.
pub open spec fn process_lines(e: EventView, ls: Seq<Seq<u8>>) -> (EventView, Seq<EventView>)
    decreases ls.len(),
{
    if ls.len() == 0 {
        (e, seq![])
    } else {
        let (p, evs) = process_lines(e, ls.drop_last());
        let (q, d) = apply_line(p, ls.last());
        (
            q,
            match d {
                Some(x) => evs.push(x),
                None => evs,
            },
        )
    }
}

/// Where the line under way in `x[..n]` starts: just after its last line
/// feed, or at 0.
pub open spec fn line_start(x: Seq<u8>, n: int) -> int
    decreases n,
{
    if n <= 0 {
        0
    } else if x[n - 1] == nl() {
        n
    } else {
        line_start(x, n - 1)
    }
}

/// Drops one trailing carriage return.
pub open spec fn strip_cr(l: Seq<u8>) -> Seq<u8> {
    if l.len() > 0 && l.last() == 13 {
        l.drop_last()
    } else {
        l
    }
}

/// The lines that `x[..n]` ends: each one before a line feed, less a
/// carriage return just before it. A lone carriage return ends no line.
pub open spec fn lines_in(x: Seq<u8>, n: int) -> Seq<Seq<u8>>
    decreases n,
{
    if n <= 0 {
        seq![]
    } else if x[n - 1] == nl() {
        lines_in(x, n - 1).push(strip_cr(x.subrange(line_start(x, n - 1), n - 1)))
    } else {
        lines_in(x, n - 1)
    }
}

/// A reader between two chunks: the event being built, and the bytes held
/// back (the line under way, and a scalar cut by the chunk boundary).
pub ghost struct ReaderView {
    pub pending: EventView,
    pub held: Seq<u8>,
}

pub open spec fn fresh_reader() -> ReaderView {
    ReaderView { pending: empty_event(), held: seq![] }
}

/// One chunk fed to a reader: `None` when the bytes held back and the chunk
/// are not UTF-8 (up to a scalar cut at the end); otherwise the next reader
/// and the events dispatched by the lines that the chunk completes.
pub open spec fn feed(r: ReaderView, chunk: Seq<u8>) -> Option<(ReaderView, Seq<EventView>)> {
    let all = r.held + chunk;
    if !is_streamable_utf8(all) {
        None
    } else {
        let (p, evs) = process_lines(r.pending, lines_in(all, all.len() as int));
        Some(
            (
                ReaderView {
                    pending: p,
                    held: all.subrange(line_start(all, all.len() as int), all.len() as int),
                },
                evs,
            ),
        )
    }
}

/// The wire form of a line, without its terminator: a field with an empty
/// value is its bare name.
pub open spec fn line_bytes(l: LineView) -> Seq<u8> {
    match l {
        LineView::Comment(t) => seq![58u8] + t,
        LineView::Field(n, v) => if v.len() == 0 {
            n
        } else {
            n + seq![58u8, 32u8] + v
        },
        LineView::Empty => seq![],
    }
}

pub open spec fn field_line(n: Seq<u8>, v: Seq<u8>) -> Seq<u8> {
    line_bytes(LineView::Field(n, v)) + seq![nl()]
}

pub open spec fn optional_line(n: Seq<u8>, v: Option<Seq<u8>>) -> Seq<u8> {
    match v {
        Some(v) => field_line(n, v),
        None => seq![],
    }
}

/// One `data` line for each piece of `d` between line feeds.
pub open spec fn data_lines(d: Seq<u8>) -> Seq<u8>
    decreases d.len(),
{
    let i = first_index(d, nl());
    if 0 <= i < d.len() {
        field_line(data_name(), d.subrange(0, i)) + data_lines(d.subrange(i + 1, d.len() as int))
    } else {
        field_line(data_name(), d)
    }
}

pub open spec fn retry_line(ms: u64) -> Seq<u8> {
    field_line(retry_name(), decimal(ms as nat))
}

/// The wire form of an event: its type, its data line by line, its id and
/// its retry delay, each present field on a line of its own, then a blank
/// line.
pub open spec fn event_bytes(e: EventView) -> Seq<u8> {
    optional_line(event_name(), e.type_) + match e.data {
        Some(d) => data_lines(d),
        None => seq![],
    } + optional_line(id_name(), e.id) + match e.retry {
        Some(ms) => retry_line(ms),
        None => seq![],
    } + seq![nl()]
}

pub open spec fn text_bytes(s: Option<String>) -> Option<Seq<u8>> {
    match s {
        Some(s) => Some(encode_utf8(s@)),
        None => None,
    }
}

/// One event of a stream. An event with no field is empty, and a stream
/// never dispatches one.
#[derive(Clone, Debug, PartialEq, Eq)]
pub struct Event {
    pub type_: Option<String>,
    pub data: Option<String>,
    pub id: Option<String>,
    /// Reconnection delay, in milliseconds.
    pub retry: Option<u64>,
}

impl View for Event {
    type V = EventView;

    open spec fn view(&self) -> EventView {
        EventView {
            type_: text_bytes(self.type_),
            data: text_bytes(self.data),
            id: text_bytes(self.id),
            retry: self.retry,
        }
    }
}

impl Default for Event {
    fn default() -> (e: Event)
        ensures
            e@ == empty_event(),
    {
        Event { type_: None, data: None, id: None, retry: None }
    }
}

fn event_name_bytes() -> (v: Vec<u8>)
    ensures
        v@ == event_name(),
{
    let mut v: Vec<u8> = Vec::new();
    v.push(101);
    v.push(118);
    v.push(101);
    v.push(110);
    v.push(116);
    assert(v@ =~= event_name());
    v
}

fn data_name_bytes() -> (v: Vec<u8>)
    ensures
        v@ == data_name(),
{
    let mut v: Vec<u8> = Vec::new();
    v.push(100);
    v.push(97);
    v.push(116);
    v.push(97);
    assert(v@ =~= data_name());
    v
}

fn id_name_bytes() -> (v: Vec<u8>)
    ensures
        v@ == id_name(),
{
    let mut v: Vec<u8> = Vec::new();
    v.push(105);
    v.push(100);
    assert(v@ =~= id_name());
    v
}

fn retry_name_bytes() -> (v: Vec<u8>)
    ensures
        v@ == retry_name(),
{
    let mut v: Vec<u8> = Vec::new();
    v.push(114);
    v.push(101);
    v.push(116);
    v.push(114);
    v.push(121);
    assert(v@ =~= retry_name());
    v
}

/// A string made of the characters of `s`, then a line feed, then those of `t`.
fn joined_by_line_feed(s: String, t: &str) -> (r: String)
    ensures
        encode_utf8(r@) == encode_utf8(s@) + seq![nl()] + encode_utf8(t@),
{
    let mut w: Vec<u8> = Vec::new();
    append_bytes(&mut w, s.as_str().as_bytes());
    w.push(10);
    append_bytes(&mut w, t.as_bytes());
    proof {
        encode_utf8_valid_utf8(s@);
        encode_utf8_valid_utf8(t@);
        let a = encode_utf8(s@);
        let b = encode_utf8(t@);
        assert(w@ =~= a + seq![nl()] + b);
        assert(valid_utf8(seq![nl()])) by {
            reveal_with_fuel(valid_utf8, 2);
        }
        vstd::utf8::valid_utf8_concat(a, seq![nl()]);
        vstd::utf8::valid_utf8_concat(a + seq![nl()], b);
    }
    str_of(w.as_slice()).to_owned()
}

impl Event {
    /// True when the event has no field.
    pub fn is_empty(&self) -> (r: bool)
        ensures
            r == (self@ == empty_event()),
    {
        self.type_.is_none() && self.data.is_none() && self.id.is_none() && self.retry.is_none()
    }

    /// Applies one field: `event` and `id` replace, `data` appends on a new
    /// line, `retry` takes a number of milliseconds and ignores anything
    /// else, other names are ignored.
    pub fn update_field(&mut self, name: &str, value: &str)
        ensures
            final(self)@ == with_field(old(self)@, name.spec_bytes(), value.spec_bytes()),
    {
        let n = name.as_bytes();
        if bytes_equal(n, event_name_bytes().as_slice()) {
            self.type_ = Some(value.to_owned());
        } else if bytes_equal(n, data_name_bytes().as_slice()) {
            let joined = match self.data.take() {
                Some(d) => joined_by_line_feed(d, value),
                None => value.to_owned(),
            };
            self.data = Some(joined);
        } else if bytes_equal(n, id_name_bytes().as_slice()) {
            self.id = Some(value.to_owned());
        } else if bytes_equal(n, retry_name_bytes().as_slice()) {
            if let Some(ms) = parse_u64(value) {
                self.retry = Some(ms);
            }
        }
    }
}

/// Appends the UTF-8 bytes `w` to `out`.
fn push_text(out: &mut String, w: &[u8])
    requires
        valid_utf8(w@),
    ensures
        encode_utf8(final(out)@) == encode_utf8(old(out)@) + w@,
{
    let s = str_of(w);
    proof {
        lemma_encode_concat(out@, s@);
    }
    out.append(s);
}

/// Appends one field, without a terminator; keeps `w` valid UTF-8.
fn write_field(w: &mut Vec<u8>, name: &[u8], value: &[u8])
    requires
        valid_utf8(old(w)@),
        valid_utf8(name@),
        valid_utf8(value@),
    ensures
        final(w)@ == old(w)@ + line_bytes(LineView::Field(name@, value@)),
        valid_utf8(final(w)@),
{
    let ghost w0 = w@;
    append_bytes(w, name);
    if value.len() > 0 {
        w.push(58);
        w.push(32);
        append_bytes(w, value);
    }
    proof {
        let sep = seq![58u8, 32u8];
        lemma_ascii_valid(sep);
        if value@.len() > 0 {
            assert(w@ =~= w0 + (name@ + sep + value@));
            lemma_valid_concat3(name@, sep, value@);
            vstd::utf8::valid_utf8_concat(w0, name@ + sep + value@);
        } else {
            vstd::utf8::valid_utf8_concat(w0, name@);
        }
    }
}

/// Appends one field line, line feed included; keeps `w` valid UTF-8.
fn write_field_line(w: &mut Vec<u8>, name: &[u8], value: &[u8])
    requires
        valid_utf8(old(w)@),
        valid_utf8(name@),
        valid_utf8(value@),
    ensures
        final(w)@ == old(w)@ + field_line(name@, value@),
        valid_utf8(final(w)@),
{
    let ghost w0 = w@;
    write_field(w, name, value);
    let ghost w1 = w@;
    w.push(10);
    proof {
        lemma_ascii_valid(seq![nl()]);
        vstd::utf8::valid_utf8_concat(w1, seq![nl()]);
        assert(w@ =~= w1 + seq![nl()]);
    }
}

/// Appends one `data` line for each piece of `d` between line feeds.
fn write_data_lines(w: &mut Vec<u8>, d: &[u8])
    requires
        valid_utf8(old(w)@),
        valid_utf8(d@),
    ensures
        final(w)@ == old(w)@ + data_lines(d@),
        valid_utf8(final(w)@),
{
    let name = data_name_bytes();
    let ghost w0 = w@;
    let mut start: usize = 0;
    let mut i: usize = 0;
    proof {
        lemma_ascii_valid(data_name());
        assert(d@.subrange(0, d@.len() as int) =~= d@);
    }
    while i < d.len()
        invariant
            start <= i <= d@.len(),
            start == 0 || d@[start - 1] == nl(),
            forall|j: int| start <= j < i ==> d@[j] != nl(),
            w0 + data_lines(d@) == w@ + data_lines(d@.subrange(start as int, d@.len() as int)),
            valid_utf8(w@),
            valid_utf8(d@),
            name@ == data_name(),
            valid_utf8(name@),
        decreases d@.len() - i,
    {
        if d[i] == 10 {
            let ghost rest = d@.subrange(start as int, d@.len() as int);
            proof {
                lemma_first_index(rest, nl(), i - start);
                assert(rest.subrange(0, i - start) =~= d@.subrange(start as int, i as int));
                assert(rest.subrange(i - start + 1, rest.len() as int) =~= d@.subrange(
                    i + 1,
                    d@.len() as int,
                ));
                lemma_ascii_bounded_valid(d@, start as int, i as int);
            }
            write_field_line(w, name.as_slice(), vstd::slice::slice_subrange(d, start, i));
            start = i + 1;
        }
        i = i + 1;
    }
    let ghost rest = d@.subrange(start as int, d@.len() as int);
    proof {
        lemma_first_index(rest, nl(), rest.len() as int);
        lemma_ascii_bounded_valid(d@, start as int, d@.len() as int);
    }
    write_field_line(w, name.as_slice(), vstd::slice::slice_subrange(d, start, d.len()));
}

/// One line of a stream, its terminator left out.
pub enum Line<'a> {
    Comment { text: &'a str },
    Field { name: &'a str, value: &'a str },
    Empty,
}

impl<'a> View for Line<'a> {
    type V = LineView;

    open spec fn view(&self) -> LineView {
        match self {
            Line::Comment { text } => LineView::Comment(text.spec_bytes()),
            Line::Field { name, value } => LineView::Field(name.spec_bytes(), value.spec_bytes()),
            Line::Empty => LineView::Empty,
        }
    }
}

impl<'a> Line<'a> {
    /// Reads one line, which holds no line feed or carriage return.
    pub fn from_str(line: &'a str) -> (r: Line<'a>)
        ensures
            r@ == parse_line(line.spec_bytes()),
    {
        let b = line.as_bytes();
        let len = b.len();
        proof {
            encode_utf8_valid_utf8(line@);
        }
        let mut c: usize = 0;
        while c < len && b[c] != 58
            invariant
                c <= len,
                len == b@.len(),
                forall|j: int| 0 <= j < c ==> b@[j] != 58,
            decreases len - c,
        {
            c = c + 1;
        }
        proof {
            lemma_first_index(b@, 58, c as int);
        }
        if len == 0 {
            Line::Empty
        } else if c == len {
            assert(b@.subrange(len as int, len as int) =~= Seq::<u8>::empty());
            Line::Field { name: line, value: str_of(vstd::slice::slice_subrange(b, len, len)) }
        } else if c == 0 {
            proof {
                lemma_ascii_bounded_valid(b@, 1, len as int);
            }
            Line::Comment { text: str_of(vstd::slice::slice_subrange(b, 1, len)) }
        } else {
            let mut s: usize = c + 1;
            if s < len && b[s] == 32 {
                s = s + 1;
            }
            proof {
                lemma_ascii_bounded_valid(b@, 0, c as int);
                lemma_ascii_bounded_valid(b@, s as int, len as int);
                let v = b@.subrange(c + 1, len as int);
                if s == c + 2 {
                    assert(v.drop_first() =~= b@.subrange(s as int, len as int));
                } else {
                    assert(v =~= b@.subrange(s as int, len as int));
                }
            }
            Line::Field {
                name: str_of(vstd::slice::slice_subrange(b, 0, c)),
                value: str_of(vstd::slice::slice_subrange(b, s, len)),
            }
        }
    }

    fn write_bytes(&self, w: &mut Vec<u8>)
        requires
            valid_utf8(old(w)@),
        ensures
            final(w)@ == old(w)@ + line_bytes(self@),
            valid_utf8(final(w)@),
    {
        let ghost w0 = w@;
        match self {
            Line::Comment { text } => {
                w.push(58);
                append_bytes(w, text.as_bytes());
                proof {
                    encode_utf8_valid_utf8(text@);
                    lemma_ascii_valid(seq![58u8]);
                    assert(w@ =~= w0 + seq![58u8] + text.spec_bytes());
                    lemma_valid_concat3(w0, seq![58u8], text.spec_bytes());
                    assert(w@ =~= w0 + line_bytes(self@));
                }
            },
            Line::Field { name, value } => {
                proof {
                    encode_utf8_valid_utf8(name@);
                    encode_utf8_valid_utf8(value@);
                }
                write_field(w, name.as_bytes(), value.as_bytes());
            },
            Line::Empty => {
                assert(w@ =~= w0 + line_bytes(self@));
            },
        }
    }

    /// Writes the line in wire form, without a terminator; a field with an
    /// empty value is written as its bare name.
    pub fn write_to(&self, out: &mut String)
        ensures
            encode_utf8(final(out)@) == encode_utf8(old(out)@) + line_bytes(self@),
    {
        let mut w: Vec<u8> = Vec::new();
        self.write_bytes(&mut w);
        assert(w@ =~= line_bytes(self@));
        push_text(out, w.as_slice());
    }
}

impl Event {
    fn write_bytes(&self, w: &mut Vec<u8>)
        requires
            valid_utf8(old(w)@),
        ensures
            final(w)@ == old(w)@ + event_bytes(self@),
            valid_utf8(final(w)@),
    {
        let ghost w0 = w@;
        let ghost e = self@;
        proof {
            lemma_ascii_valid(event_name());
            lemma_ascii_valid(id_name());
        }
        write_optional_line(w, event_name_bytes().as_slice(), &self.type_);
        let ghost w1 = w@;
        write_optional_data(w, &self.data);
        let ghost w2 = w@;
        write_optional_line(w, id_name_bytes().as_slice(), &self.id);
        let ghost w3 = w@;
        write_optional_retry(w, self.retry);
        let ghost w4 = w@;
        w.push(10);
        proof {
            lemma_ascii_valid(seq![nl()]);
            vstd::utf8::valid_utf8_concat(w4, seq![nl()]);
            assert(w@ =~= w4 + seq![nl()]);
            let a = optional_line(event_name(), e.type_);
            let b = match e.data {
                Some(d) => data_lines(d),
                None => seq![],
            };
            let c = optional_line(id_name(), e.id);
            let d = match e.retry {
                Some(ms) => retry_line(ms),
                None => seq![],
            };
            assert(event_bytes(e) == a + b + c + d + seq![nl()]);
            assert(w@ =~= w0 + (a + b + c + d + seq![nl()]));
        }
    }

    /// Writes the event in wire form: an `event` line, one `data` line for
    /// each line of the data, an `id` line and a `retry` line, each only for
    /// a field that is present, then a blank line.
    pub fn write_to(&self, out: &mut String)
        ensures
            encode_utf8(final(out)@) == encode_utf8(old(out)@) + event_bytes(self@),
    {
        let mut w: Vec<u8> = Vec::new();
        self.write_bytes(&mut w);
        assert(w@ =~= event_bytes(self@));
        push_text(out, w.as_slice());
    }
}

fn write_optional_line(w: &mut Vec<u8>, name: &[u8], v: &Option<String>)
    requires
        valid_utf8(old(w)@),
        valid_utf8(name@),
    ensures
        final(w)@ == old(w)@ + optional_line(name@, text_bytes(*v)),
        valid_utf8(final(w)@),
{
    match v {
        Some(t) => {
            proof {
                encode_utf8_valid_utf8(t@);
            }
            write_field_line(w, name, t.as_str().as_bytes());
        },
        None => {
            assert(w@ =~= w@ + optional_line(name@, text_bytes(*v)));
        },
    }
}

fn write_optional_data(w: &mut Vec<u8>, v: &Option<String>)
    requires
        valid_utf8(old(w)@),
    ensures
        final(w)@ == old(w)@ + match text_bytes(*v) {
            Some(d) => data_lines(d),
            None => seq![],
        },
        valid_utf8(final(w)@),
{
    match v {
        Some(d) => {
            proof {
                encode_utf8_valid_utf8(d@);
            }
            write_data_lines(w, d.as_str().as_bytes());
        },
        None => {
            assert(w@ =~= w@ + Seq::<u8>::empty());
        },
    }
}

fn write_optional_retry(w: &mut Vec<u8>, r: Option<u64>)
    requires
        valid_utf8(old(w)@),
    ensures
        final(w)@ == old(w)@ + match r {
            Some(ms) => retry_line(ms),
            None => seq![],
        },
        valid_utf8(final(w)@),
{
    match r {
        Some(ms) => {
            let digits = u64_to_decimal(ms);
            proof {
                lemma_ascii_valid(retry_name());
                lemma_ascii_valid_decimal(ms as nat);
            }
            write_field_line(w, retry_name_bytes().as_slice(), digits.as_str().as_bytes());
        },
        None => {
            assert(w@ =~= w@ + Seq::<u8>::empty());
        },
    }
}

/// Why a stream cannot be read on.
#[derive(Clone, Copy, Debug, PartialEq, Eq)]
pub enum SseError {
    /// The bytes are not UTF-8: a malformed sequence, not merely a scalar cut
    /// by a chunk boundary.
    InvalidUtf8,
}

impl SseError {
    /// A description of the error.
    pub fn message(&self) -> (r: &'static str)
        ensures
            r@ == "Bytes contain invalid UTF8"@,
    {
        "Bytes contain invalid UTF8"
    }
}

pub open spec fn views(v: Seq<Event>) -> Seq<EventView> {
    v.map_values(|e: Event| e@)
}

/// The events that one chunk dispatched, handed out in order.
pub struct EventReaderIterator {
    events: Vec<Event>,
}

impl View for EventReaderIterator {
    type V = Seq<EventView>;

    closed spec fn view(&self) -> Seq<EventView> {
        views(self.events@)
    }
}

impl EventReaderIterator {
    /// The next event, or `None` when all have been handed out.
    pub fn next(&mut self) -> (r: Option<Event>)
        ensures
            old(self)@.len() == 0 ==> r is None && final(self)@ == old(self)@,
            old(self)@.len() > 0 ==> (r matches Some(e) && e@ == old(self)@[0] && final(self)@
                == old(self)@.drop_first()),
    {
        if self.events.len() == 0 {
            None
        } else {
            let e = self.events.remove(0);
            assert(views(self.events@) =~= views(old(self).events@).drop_first());
            Some(e)
        }
    }

    /// How many events are left.
    pub fn len(&self) -> (r: usize)
        ensures
            r == self@.len(),
    {
        self.events.len()
    }
}

/// The parser's state across the chunks of one stream.
pub struct EventReader {
    event: Event,
    held: Vec<u8>,
}

impl View for EventReader {
    type V = ReaderView;

    closed spec fn view(&self) -> ReaderView {
        ReaderView { pending: self.event@, held: self.held@ }
    }
}

impl Default for EventReader {
    fn default() -> (r: EventReader)
        ensures
            r@ == fresh_reader(),
    {
        EventReader { event: Event::default(), held: Vec::new() }
    }
}

impl EventReader {
    pub fn new() -> (r: EventReader)
        ensures
            r@ == fresh_reader(),
    {
        EventReader::default()
    }

    /// Feeds one chunk: the events that the lines it completes dispatch, in
    /// order. Bytes after the last line feed, a scalar cut at the end
    /// included, are held for the next chunk. Bytes that are not UTF-8 fail
    /// the stream and leave the reader as it was.
    pub fn next_events(&mut self, bytes: &[u8]) -> (r: Result<EventReaderIterator, SseError>)
        ensures
            match feed(old(self)@, bytes@) {
                None => r == Err::<EventReaderIterator, SseError>(SseError::InvalidUtf8)
                    && final(self)@ == old(self)@,
                Some((next, evs)) => r matches Ok(it) && it@ == evs && final(self)@ == next,
            },
    {
        let mut all: Vec<u8> = Vec::new();
        append_bytes(&mut all, self.held.as_slice());
        append_bytes(&mut all, bytes);
        let ghost a = all@;
        let text_len: usize = match split_utf8(all.as_slice()) {
            Ok(_) => {
                proof {
                    lemma_valid_is_streamable(a);
                    assert(a.subrange(0, a.len() as int) =~= a);
                }
                all.len()
            },
            Err((v, None)) => {
                proof {
                    lemma_valid_then_cut_is_streamable(a, v as int);
                    lemma_cut_scalar_facts(a.subrange(v as int, a.len() as int));
                    assert forall|j: int| v <= j < a.len() implies #[trigger] a[j] >= 0x80 by {
                        assert(a[j] == a.subrange(v as int, a.len() as int)[j - v]);
                    }
                }
                v
            },
            Err((v, Some(_))) => {
                proof {
                    lemma_malformed_not_streamable(a, v as int);
                }
                return Err(SseError::InvalidUtf8);
            },
        };
        let ghost text = a.subrange(0, text_len as int);
        let ghost e0 = self.event@;
        let mut pending = Event::default();
        std::mem::swap(&mut pending, &mut self.event);
        let mut events: Vec<Event> = Vec::new();
        let mut start: usize = 0;
        let mut i: usize = 0;
        while i < all.len()
            invariant
                all@ == a,
                text_len <= a.len(),
                text == a.subrange(0, text_len as int),
                valid_utf8(text),
                forall|j: int| text_len <= j < a.len() ==> #[trigger] a[j] >= 0x80,
                start <= i <= a.len(),
                start == line_start(a, i as int),
                start == 0 || a[start - 1] == nl(),
                (pending@, views(events@)) == process_lines(e0, lines_in(a, i as int)),
            decreases a.len() - i,
        {
            if all[i] == 10 {
                let mut end: usize = i;
                if end > start && all[end - 1] == 13 {
                    end = end - 1;
                }
                let ghost l = a.subrange(start as int, end as int);
                proof {
                    if i >= text_len {
                        assert(a[i as int] >= 0x80);
                    }
                    lemma_ascii_bounded_valid(text, start as int, end as int);
                    assert(text.subrange(start as int, end as int) =~= l);
                    assert(strip_cr(a.subrange(start as int, i as int)) =~= l);
                    let ls = lines_in(a, i + 1);
                    assert(ls.drop_last() =~= lines_in(a, i as int));
                }
                let line = Line::from_str(str_of(vstd::slice::slice_subrange(all.as_slice(), start, end)));
                let ghost before = views(events@);
                match line {
                    Line::Empty => {
                        if !pending.is_empty() {
                            let mut ev = Event::default();
                            std::mem::swap(&mut ev, &mut pending);
                            events.push(ev);
                            assert(views(events@) =~= before.push(ev@));
                        }
                    },
                    Line::Comment { .. } => {},
                    Line::Field { name, value } => {
                        pending.update_field(name, value);
                    },
                }
                start = i + 1;
            }
            i = i + 1;
        }
        self.event = pending;
        self.held = vstd::slice::slice_to_vec(vstd::slice::slice_subrange(all.as_slice(), start, all.len()));
        Ok(EventReaderIterator { events })
    }
}

} // verus!
