//! What the codec guarantees across calls: cutting a stream into chunks does
//! not change what is read, and what is written reads back.
use vstd::prelude::*;
use vstd::utf8::*;
use crate::sse::{
    apply_line, data_lines, data_name, empty_event, event_bytes, event_name, feed, field_line,
    fresh_reader, id_name, line_bytes, line_start, lines_in, nl, optional_line, parse_line,
    process_lines, retry_line, retry_name, strip_cr, with_field, EventView, LineView,
    ReaderView,
};
use crate::text::{
    decimal, first_index, lemma_ascii_valid, lemma_ascii_valid_decimal, lemma_decimal_digits,
    lemma_decimal_parses, lemma_first_index, lemma_prefix_of_valid_streamable,
    lemma_split_at_ascii, lemma_valid_concat3, lemma_valid_is_streamable,
};

verus! {

/// The lines of `x[..n]`, and where its line under way starts, depend on
/// `x[..n]` alone.
proof fn lemma_lines_prefix(x: Seq<u8>, y: Seq<u8>, n: int)
    requires
        0 <= n <= x.len(),
        n <= y.len(),
        forall|j: int| 0 <= j < n ==> x[j] == y[j],
    ensures
        lines_in(x, n) == lines_in(y, n),
        line_start(x, n) == line_start(y, n),
    decreases n,
{
    if n > 0 {
        lemma_lines_prefix(x, y, n - 1);
        lemma_line_start_bounds(x, n - 1);
        let s = line_start(x, n - 1);
        assert(x.subrange(s, n - 1) =~= y.subrange(s, n - 1));
    }
}

/// Without a line feed in `x[m..n]`, reading on from `m` to `n` adds no line.
proof fn lemma_no_line_feed(x: Seq<u8>, m: int, n: int)
    requires
        0 <= m <= n <= x.len(),
        forall|j: int| m <= j < n ==> x[j] != nl(),
    ensures
        lines_in(x, n) == lines_in(x, m),
        line_start(x, n) == line_start(x, m),
    decreases n - m,
{
    if n > m {
        lemma_no_line_feed(x, m, n - 1);
    }
}

/// The line under way holds no line feed.
proof fn lemma_line_start_bounds(x: Seq<u8>, n: int)
    requires
        0 <= n <= x.len(),
    ensures
        0 <= line_start(x, n) <= n,
        line_start(x, n) == 0 || x[line_start(x, n) - 1] == nl(),
        forall|j: int| line_start(x, n) <= j < n ==> x[j] != nl(),
    decreases n,
{
    if n > 0 {
        lemma_line_start_bounds(x, n - 1);
    }
}

/// After a line feed, or at the start, the lines of what follows are read on
/// their own.
proof fn lemma_lines_split(x: Seq<u8>, k: int, n: int)
    requires
        0 <= k <= n <= x.len(),
        k == 0 || x[k - 1] == nl(),
    ensures
        lines_in(x, n) == lines_in(x, k) + lines_in(x.subrange(k, x.len() as int), n - k),
        line_start(x, n) == k + line_start(x.subrange(k, x.len() as int), n - k),
    decreases n - k,
{
    let y = x.subrange(k, x.len() as int);
    if n == k {
        assert(lines_in(x, k) + lines_in(y, 0) =~= lines_in(x, k));
    } else {
        lemma_lines_split(x, k, n - 1);
        lemma_line_start_bounds(y, n - 1 - k);
        assert(y[n - 1 - k] == x[n - 1]);
        if x[n - 1] == nl() {
            let s = line_start(x, n - 1);
            assert(x.subrange(s, n - 1) =~= y.subrange(s - k, n - 1 - k));
            assert(lines_in(x, n) =~= lines_in(x, k) + lines_in(y, n - k));
        }
    }
}

/// Processing two runs of lines one after the other is processing them
/// together.
proof fn lemma_process_concat(e: EventView, a: Seq<Seq<u8>>, b: Seq<Seq<u8>>)
    ensures
        process_lines(e, a + b) == ({
            let (p, ea) = process_lines(e, a);
            let (q, eb) = process_lines(p, b);
            (q, ea + eb)
        }),
    decreases b.len(),
{
    if b.len() == 0 {
        assert(a + b =~= a);
        let (p, ea) = process_lines(e, a);
        assert(ea + Seq::<EventView>::empty() =~= ea);
    } else {
        lemma_process_concat(e, a, b.drop_last());
        assert((a + b).drop_last() =~= a + b.drop_last());
        assert((a + b).last() == b.last());
        let (p, ea) = process_lines(e, a);
        let (q, eb) = process_lines(p, b.drop_last());
        let (r, d) = apply_line(q, b.last());
        match d {
            Some(x) => {
                assert(ea + eb.push(x) =~= (ea + eb).push(x));
            },
            None => {},
        }
    }
}

/// Two chunks fed one after the other read as their concatenation fed at
/// once, whenever all three feeds succeed.
proof fn lemma_feed_two(r: ReaderView, a: Seq<u8>, b: Seq<u8>)
    requires
        feed(r, a) is Some,
        feed((feed(r, a)->0).0, b) is Some,
        feed(r, a + b) is Some,
    ensures
        feed(r, a + b) == ({
            let (r1, e1) = feed(r, a)->0;
            let (r2, e2) = feed(r1, b)->0;
            Some((r2, e1 + e2))
        }),
{
    let all = r.held + a + b;
    let all1 = r.held + a;
    assert(r.held + (a + b) =~= all);
    let n1 = all1.len() as int;
    let n = all.len() as int;
    let k1 = line_start(all1, n1);
    lemma_lines_prefix(all1, all, n1);
    lemma_line_start_bounds(all1, n1);
    lemma_no_line_feed(all, k1, n1);
    let (r1, e1) = feed(r, a)->0;
    let all2 = r1.held + b;
    assert(all.subrange(k1, n) =~= all2);
    lemma_lines_split(all, k1, n);
    let l1 = lines_in(all1, n1);
    let l2 = lines_in(all2, all2.len() as int);
    lemma_process_concat(r.pending, l1, l2);
    let k2 = line_start(all2, all2.len() as int);
    lemma_line_start_bounds(all2, all2.len() as int);
    assert(all.subrange(k1 + k2, n) =~= all2.subrange(k2, all2.len() as int));
}

/// Feeding chunks one after another: the last reader and every event
/// dispatched, in order; `None` as soon as one feed fails.
pub open spec fn feed_chunks(r: ReaderView, cs: Seq<Seq<u8>>) -> Option<(ReaderView, Seq<EventView>)>
    decreases cs.len(),
{
    if cs.len() == 0 {
        Some((r, seq![]))
    } else {
        match feed_chunks(r, cs.drop_last()) {
            None => None,
            Some((r1, e1)) => match feed(r1, cs.last()) {
                None => None,
                Some((r2, e2)) => Some((r2, e1 + e2)),
            },
        }
    }
}

/// The chunks, end to end.
pub open spec fn joined(cs: Seq<Seq<u8>>) -> Seq<u8>
    decreases cs.len(),
{
    if cs.len() == 0 {
        seq![]
    } else {
        joined(cs.drop_last()) + cs.last()
    }
}

proof fn lemma_chunks_of_prefix(cs: Seq<Seq<u8>>, s: Seq<u8>)
    requires
        valid_utf8(s),
        joined(cs).len() <= s.len(),
        s.subrange(0, joined(cs).len() as int) == joined(cs),
    ensures
        feed(fresh_reader(), joined(cs)) is Some,
        feed_chunks(fresh_reader(), cs) == feed(fresh_reader(), joined(cs)),
    decreases cs.len(),
{
    let x = joined(cs);
    assert(fresh_reader().held + x =~= x);
    lemma_prefix_of_valid_streamable(s, x.len() as int);
    if cs.len() == 0 {
        assert(x.subrange(0, 0) =~= Seq::<u8>::empty());
        assert(feed(fresh_reader(), x) == Some((fresh_reader(), Seq::<EventView>::empty())));
    } else {
        let init = cs.drop_last();
        let y = cs.last();
        let xi = joined(init);
        assert(s.subrange(0, xi.len() as int) =~= x.subrange(0, xi.len() as int));
        assert(x.subrange(0, xi.len() as int) =~= xi);
        lemma_chunks_of_prefix(init, s);
        let (r1, e1) = feed(fresh_reader(), xi)->0;
        let all1 = fresh_reader().held + xi;
        assert(all1 =~= xi);
        let k1 = line_start(xi, xi.len() as int);
        lemma_line_start_bounds(xi, xi.len() as int);
        let t = s.subrange(k1, s.len() as int);
        if k1 > 0 {
            assert(s[k1 - 1] == xi[k1 - 1]);
            lemma_split_at_ascii(s, k1 - 1);
        } else {
            assert(t =~= s);
        }
        assert forall|j: int| 0 <= j < x.len() implies s[j] == x[j] by {
            assert(s.subrange(0, x.len() as int)[j] == s[j]);
        }
        assert(x =~= xi + y);
        assert(t.subrange(0, x.len() - k1) =~= x.subrange(k1, x.len() as int));
        assert(x.subrange(k1, x.len() as int) =~= xi.subrange(k1, xi.len() as int) + y);
        assert(r1.held == xi.subrange(k1, xi.len() as int));
        assert(r1.held + y =~= t.subrange(0, x.len() - k1));
        lemma_prefix_of_valid_streamable(t, x.len() - k1);
        lemma_feed_two(fresh_reader(), xi, y);
    }
}

/// Cutting a valid stream into chunks, anywhere (inside a line, inside a
/// multi-byte character), and feeding them one by one to a fresh reader
/// dispatches the same events, in the same order, and leaves the same reader
/// as feeding the whole stream at once; no feed fails.
pub proof fn lemma_chunking_is_invisible(cs: Seq<Seq<u8>>)
    requires
        valid_utf8(joined(cs)),
    ensures
        feed(fresh_reader(), joined(cs)) is Some,
        feed_chunks(fresh_reader(), cs) == feed(fresh_reader(), joined(cs)),
{
    let x = joined(cs);
    assert(x.subrange(0, x.len() as int) =~= x);
    lemma_chunks_of_prefix(cs, x);
}

pub open spec fn lines_of(x: Seq<u8>) -> Seq<Seq<u8>> {
    lines_in(x, x.len() as int)
}

/// `x` is empty or ends a line.
pub open spec fn ends_line(x: Seq<u8>) -> bool {
    x.len() == 0 || x.last() == nl()
}

proof fn lemma_lines_concat(x: Seq<u8>, y: Seq<u8>)
    requires
        ends_line(x),
    ensures
        lines_of(x + y) == lines_of(x) + lines_of(y),
        line_start(x + y, (x + y).len() as int) == x.len() + line_start(y, y.len() as int),
{
    let z = x + y;
    lemma_lines_prefix(x, z, x.len() as int);
    lemma_lines_split(z, x.len() as int, z.len() as int);
    assert(z.subrange(x.len() as int, z.len() as int) =~= y);
}

proof fn lemma_read_concat(p: EventView, x: Seq<u8>, y: Seq<u8>)
    requires
        ends_line(x),
    ensures
        process_lines(p, lines_of(x + y)) == ({
            let (q, ex) = process_lines(p, lines_of(x));
            let (r, ey) = process_lines(q, lines_of(y));
            (r, ex + ey)
        }),
{
    lemma_lines_concat(x, y);
    lemma_process_concat(p, lines_of(x), lines_of(y));
}

/// One line, no line feed in it, then a line feed.
proof fn lemma_one_line(l: Seq<u8>)
    requires
        forall|j: int| 0 <= j < l.len() ==> l[j] != nl(),
    ensures
        lines_of(l + seq![nl()]) == seq![strip_cr(l)],
        line_start(l + seq![nl()], l.len() + 1int) == l.len() + 1,
{
    let x = l + seq![nl()];
    lemma_no_line_feed(x, 0, l.len() as int);
    assert(x.subrange(0, l.len() as int) =~= l);
    assert(lines_of(x) =~= seq![strip_cr(l)]);
}

/// A value that fits on one line of the wire: no line feed, and no carriage
/// return at its end.
pub open spec fn is_one_line(v: Seq<u8>) -> bool {
    &&& forall|j: int| 0 <= j < v.len() ==> v[j] != nl()
    &&& !(v.len() > 0 && v.last() == 13)
}

/// Data whose lines each fit on one line of the wire: no carriage return
/// before a line feed or at the end.
pub open spec fn is_data_safe(d: Seq<u8>) -> bool {
    &&& forall|j: int| 0 < j < d.len() && #[trigger] d[j] == nl() ==> d[j - 1] != 13
    &&& !(d.len() > 0 && d.last() == 13)
}

pub open spec fn is_field_name(n: Seq<u8>) -> bool {
    n == event_name() || n == data_name() || n == id_name() || n == retry_name()
}

proof fn lemma_field_line_reads(p: EventView, n: Seq<u8>, v: Seq<u8>)
    requires
        is_field_name(n),
        is_one_line(v),
    ensures
        ends_line(field_line(n, v)),
        process_lines(p, lines_of(field_line(n, v))) == (with_field(p, n, v), Seq::<EventView>::empty()),
{
    let l = line_bytes(LineView::Field(n, v));
    assert(field_line(n, v) == l + seq![nl()]);
    assert(forall|j: int| 0 <= j < n.len() ==> n[j] != nl() && n[j] != 58 && n[j] != 13);
    if v.len() > 0 {
        assert(l =~= n + seq![58u8, 32u8] + v);
        assert forall|j: int| 0 <= j < l.len() implies l[j] != nl() by {
            if j >= n.len() + 2 {
                assert(l[j] == v[j - n.len() - 2]);
            }
        }
        assert(l.last() == v.last());
        lemma_first_index(l, 58, n.len() as int);
        assert(l.subrange(0, n.len() as int) =~= n);
        assert(l.subrange(n.len() + 1int, l.len() as int).drop_first() =~= v);
    } else {
        assert(v =~= Seq::<u8>::empty());
        lemma_first_index(l, 58, l.len() as int);
    }
    lemma_one_line(l);
    assert(strip_cr(l) == l);
    assert(parse_line(l) == LineView::Field(n, v));
    let ls = lines_of(field_line(n, v));
    assert(ls =~= seq![l]);
    assert(ls.drop_last() =~= Seq::<Seq<u8>>::empty());
    assert(ls.last() == l);
    assert(process_lines(p, ls.drop_last()) == (p, Seq::<EventView>::empty()));
    assert(apply_line(p, l) == (with_field(p, n, v), None::<EventView>));
}

pub open spec fn joined_data(o: Option<Seq<u8>>, v: Seq<u8>) -> Seq<u8> {
    match o {
        Some(d) => d + seq![nl()] + v,
        None => v,
    }
}

proof fn lemma_data_lines_read(p: EventView, d: Seq<u8>)
    requires
        is_data_safe(d),
    ensures
        ends_line(data_lines(d)),
        process_lines(p, lines_of(data_lines(d))) == (
            EventView { data: Some(joined_data(p.data, d)), ..p },
            Seq::<EventView>::empty(),
        ),
    decreases d.len(),
{
    let i = first_index(d, nl());
    if 0 <= i < d.len() {
        let s = d.subrange(0, i);
        let rest = d.subrange(i + 1, d.len() as int);
        assert(is_one_line(s)) by {
            assert(crate::text::is_first_index(d, nl(), i)) by {
                lemma_first_index_exists(d, i);
            }
        }
        assert(is_data_safe(rest)) by {
            assert forall|j: int| 0 < j < rest.len() && #[trigger] rest[j] == nl() implies rest[j - 1] != 13 by {
                assert(rest[j] == d[j + i + 1]);
                assert(rest[j - 1] == d[j + i]);
            }
        }
        lemma_field_line_reads(p, data_name(), s);
        let after_first = with_field(p, data_name(), s);
        lemma_data_lines_read(after_first, rest);
        lemma_read_concat(p, field_line(data_name(), s), data_lines(rest));
        assert(joined_data(after_first.data, rest) =~= joined_data(p.data, d)) by {
            assert(d =~= s + seq![nl()] + rest);
        }
        let whole = field_line(data_name(), s) + data_lines(rest);
        assert(ends_line(whole));
    } else {
        assert forall|j: int| 0 <= j < d.len() implies d[j] != nl() by {
            if d[j] == nl() {
                lemma_first_index_exists(d, j);
            }
        }
        lemma_field_line_reads(p, data_name(), d);
    }
}

/// Where `b` occurs, `first_index` finds its first occurrence.
proof fn lemma_first_index_exists(l: Seq<u8>, j: int)
    requires
        0 <= j < l.len(),
        l[j] == nl() || crate::text::first_index(l, nl()) == j,
    ensures
        0 <= first_index(l, nl()) <= j,
        crate::text::is_first_index(l, nl(), first_index(l, nl())),
    decreases j,
{
    if exists|k: int| 0 <= k < j && l[k] == nl() {
        let k = choose|k: int| 0 <= k < j && l[k] == nl();
        lemma_first_index_exists(l, k);
    } else {
        if l[j] == nl() {
            lemma_first_index(l, nl(), j);
        } else {
            assert(crate::text::is_first_index(l, nl(), j));
        }
    }
}

proof fn lemma_field_line_valid(n: Seq<u8>, v: Seq<u8>)
    requires
        is_field_name(n),
        valid_utf8(v),
    ensures
        valid_utf8(field_line(n, v)),
{
    lemma_ascii_valid(n);
    lemma_ascii_valid(seq![58u8, 32u8]);
    lemma_ascii_valid(seq![nl()]);
    if v.len() > 0 {
        lemma_valid_concat3(n, seq![58u8, 32u8], v);
        valid_utf8_concat(n + seq![58u8, 32u8] + v, seq![nl()]);
    } else {
        valid_utf8_concat(n, seq![nl()]);
    }
}

proof fn lemma_data_lines_valid(d: Seq<u8>)
    requires
        valid_utf8(d),
    ensures
        valid_utf8(data_lines(d)),
    decreases d.len(),
{
    let i = first_index(d, nl());
    if 0 <= i < d.len() {
        lemma_first_index_exists(d, i);
        crate::text::lemma_ascii_bounded_valid(d, 0, i);
        crate::text::lemma_ascii_bounded_valid(d, i + 1, d.len() as int);
        lemma_data_lines_valid(d.subrange(i + 1, d.len() as int));
        lemma_field_line_valid(data_name(), d.subrange(0, i));
        valid_utf8_concat(
            field_line(data_name(), d.subrange(0, i)),
            data_lines(d.subrange(i + 1, d.len() as int)),
        );
    } else {
        lemma_field_line_valid(data_name(), d);
    }
}

proof fn lemma_ends_line_concat(x: Seq<u8>, y: Seq<u8>)
    requires
        ends_line(x),
        ends_line(y),
    ensures
        ends_line(x + y),
{
    if y.len() == 0 {
        assert(x + y =~= x);
    }
}

/// The event's wire form is valid UTF-8 when its text fields are.
pub open spec fn has_valid_text(e: EventView) -> bool {
    &&& (e.type_ matches Some(t) ==> valid_utf8(t))
    &&& (e.data matches Some(d) ==> valid_utf8(d))
    &&& (e.id matches Some(i) ==> valid_utf8(i))
}

/// Each field survives a trip over the wire: `event` and `id` fit on one
/// line, and every line of `data` does.
pub open spec fn fits_the_wire(e: EventView) -> bool {
    &&& (e.type_ matches Some(t) ==> is_one_line(t))
    &&& (e.data matches Some(d) ==> is_data_safe(d))
    &&& (e.id matches Some(i) ==> is_one_line(i))
}

/// A written event, read back by a fresh reader, comes back as itself and
/// nothing else, and the reader is left fresh; so writing what was read
/// gives the same bytes again. (Comments are not events and are not written.)
pub proof fn lemma_write_then_read(e: EventView)
    requires
        e != empty_event(),
        has_valid_text(e),
        fits_the_wire(e),
    ensures
        feed(fresh_reader(), event_bytes(e)) == Some((fresh_reader(), seq![e])),
        event_bytes((feed(fresh_reader(), event_bytes(e))->0).1[0]) == event_bytes(e),
{
    let a = optional_line(event_name(), e.type_);
    let d = match e.data {
        Some(d) => data_lines(d),
        None => seq![],
    };
    let i = optional_line(id_name(), e.id);
    let r = match e.retry {
        Some(ms) => retry_line(ms),
        None => seq![],
    };
    let n = seq![nl()];
    let b = event_bytes(e);
    assert(b == a + d + i + r + n);
    let e0 = empty_event();
    // the type line
    let e1 = EventView { type_: e.type_, ..e0 };
    match e.type_ {
        Some(t) => {
            lemma_field_line_reads(e0, event_name(), t);
            lemma_field_line_valid(event_name(), t);
        },
        None => {},
    }
    assert(process_lines(e0, lines_of(a)) == (e1, Seq::<EventView>::empty()));
    // the data lines
    let e2 = EventView { data: e.data, ..e1 };
    match e.data {
        Some(x) => {
            lemma_data_lines_read(e1, x);
            lemma_data_lines_valid(x);
        },
        None => {},
    }
    assert(process_lines(e1, lines_of(d)) == (e2, Seq::<EventView>::empty()));
    // the id line
    let e3 = EventView { id: e.id, ..e2 };
    match e.id {
        Some(x) => {
            lemma_field_line_reads(e2, id_name(), x);
            lemma_field_line_valid(id_name(), x);
        },
        None => {},
    }
    assert(process_lines(e2, lines_of(i)) == (e3, Seq::<EventView>::empty()));
    // the retry line
    match e.retry {
        Some(ms) => {
            lemma_decimal_digits(ms as nat);
            lemma_decimal_parses(ms as nat);
            lemma_ascii_valid_decimal(ms as nat);
            lemma_field_line_reads(e3, retry_name(), decimal(ms as nat));
            lemma_field_line_valid(retry_name(), decimal(ms as nat));
        },
        None => {},
    }
    assert(process_lines(e3, lines_of(r)) == (e, Seq::<EventView>::empty()));
    // the blank line
    lemma_one_line(Seq::<u8>::empty());
    assert(Seq::<u8>::empty() + n =~= n);
    lemma_first_index(Seq::<u8>::empty(), 58, 0);
    assert(lines_of(n) =~= seq![Seq::<u8>::empty()]);
    let ln = lines_of(n);
    assert(ln.drop_last() =~= Seq::<Seq<u8>>::empty());
    assert(ln.last() =~= Seq::<u8>::empty());
    assert(parse_line(Seq::<u8>::empty()) == LineView::Empty);
    assert(apply_line(e, Seq::<u8>::empty()) == (e0, Some(e)));
    assert(Seq::<EventView>::empty().push(e) =~= seq![e]);
    assert(ln.len() == 1);
    assert(process_lines(e, ln.drop_last()) == (e, Seq::<EventView>::empty()));
    assert(process_lines(e, lines_of(n)) == (e0, seq![e]));
    // all together
    lemma_ends_line_concat(a, d);
    lemma_ends_line_concat(a + d, i);
    lemma_ends_line_concat(a + d + i, r);
    lemma_read_concat(e0, a, d);
    lemma_read_concat(e0, a + d, i);
    lemma_read_concat(e0, a + d + i, r);
    lemma_read_concat(e0, a + d + i + r, n);
    assert(Seq::<EventView>::empty() + Seq::<EventView>::empty() =~= Seq::<EventView>::empty());
    assert(Seq::<EventView>::empty() + seq![e] =~= seq![e]);
    assert(process_lines(e0, lines_of(b)) == (e0, seq![e]));
    // it is valid UTF-8, so it is read without an error
    lemma_ascii_valid(n);
    valid_utf8_concat(a, d);
    valid_utf8_concat(a + d, i);
    valid_utf8_concat(a + d + i, r);
    valid_utf8_concat(a + d + i + r, n);
    lemma_valid_is_streamable(b);
    assert(fresh_reader().held + b =~= b);
    assert(b.subrange(line_start(b, b.len() as int), b.len() as int) =~= Seq::<u8>::empty());
}

} // verus!
