//! Byte and UTF-8 helpers shared by the codec and the proxy logic.
use vstd::prelude::*;
use vstd::string::StringSliceAdditionalSpecFns;
use vstd::utf8::*;

verus! {

/// `t` is the beginning of the UTF-8 encoding of one scalar, cut off before
/// its last byte: some non-empty continuation completes it to exactly one
/// well-formed scalar.
pub open spec fn is_cut_scalar(t: Seq<u8>) -> bool {
    &&& t.len() > 0
    &&& exists|rest: Seq<u8>|
        rest.len() > 0 && #[trigger] valid_first_scalar(t + rest) && length_of_first_scalar(
            t + rest,
        ) == t.len() + rest.len()
}

/// `b` is valid UTF-8, except that it may end inside a scalar: what a decoder
/// that is fed a stream piece by piece can accept without an error.
pub open spec fn is_streamable_utf8(b: Seq<u8>) -> bool
    decreases b.len(),
{
    if b.len() == 0 {
        true
    } else if valid_first_scalar(b) {
        is_streamable_utf8(pop_first_scalar(b))
    } else {
        is_cut_scalar(b)
    }
}

/// Relies on core::str::from_utf8: `Ok` exactly for valid UTF-8; otherwise the
/// error's `valid_up_to` (the length of the longest valid prefix) and
/// `error_len` (none when the input ends inside a scalar, some length when a
/// malformed sequence starts there).
#[verifier::external_body]
pub(crate) fn split_utf8(b: &[u8]) -> (r: Result<&str, (usize, Option<usize>)>)
    ensures
        match r {
            Ok(s) => valid_utf8(b@) && s@ == decode_utf8(b@),
            Err((v, len)) => {
                &&& !valid_utf8(b@)
                &&& v < b@.len()
                &&& valid_utf8(b@.subrange(0, v as int))
                &&& forall|i: int|
                    v < i <= b@.len() ==> !valid_utf8(#[trigger] b@.subrange(0, i))
                &&& (len is None <==> is_cut_scalar(b@.subrange(v as int, b@.len() as int)))
            },
        },
{
    match core::str::from_utf8(b) {
        Ok(s) => Ok(s),
        Err(e) => Err((e.valid_up_to(), e.error_len())),
    }
}

/// The first scalar of `b` is read from its first `n` bytes alone.
pub proof fn lemma_first_scalar_prefix(b: Seq<u8>, n: int)
    requires
        0 < n <= b.len(),
    ensures
        valid_first_scalar(b.subrange(0, n)) ==> valid_first_scalar(b) && length_of_first_scalar(b)
            == length_of_first_scalar(b.subrange(0, n)),
        valid_first_scalar(b) && length_of_first_scalar(b) <= n ==> valid_first_scalar(
            b.subrange(0, n),
        ) && length_of_first_scalar(b) == length_of_first_scalar(b.subrange(0, n)),
{
    let p = b.subrange(0, n);
    assert(p[0] == b[0]);
    if n >= 2 {
        assert(p[1] == b[1]);
    }
    if n >= 3 {
        assert(p[2] == b[2]);
    }
    if n >= 4 {
        assert(p[3] == b[3]);
    }
}

/// Valid UTF-8 is streamable.
pub proof fn lemma_valid_is_streamable(b: Seq<u8>)
    requires
        valid_utf8(b),
    ensures
        is_streamable_utf8(b),
    decreases b.len(),
{
    if b.len() > 0 {
        lemma_valid_is_streamable(pop_first_scalar(b));
    }
}

/// A cut scalar never starts a well-formed scalar of its own, and holds no
/// ASCII byte.
pub proof fn lemma_cut_scalar_facts(t: Seq<u8>)
    requires
        is_cut_scalar(t),
    ensures
        !valid_first_scalar(t),
        forall|i: int| 0 <= i < t.len() ==> #[trigger] t[i] >= 0x80,
{
    let rest = choose|rest: Seq<u8>|
        rest.len() > 0 && #[trigger] valid_first_scalar(t + rest) && length_of_first_scalar(
            t + rest,
        ) == t.len() + rest.len();
    let w = t + rest;
    assert(w[0] == t[0]);
    assert forall|i: int| 0 <= i < t.len() implies #[trigger] t[i] >= 0x80 by {
        assert(w[i] == t[i]);
    }
    if valid_first_scalar(t) {
        lemma_first_scalar_prefix(w, t.len() as int);
        assert(w.subrange(0, t.len() as int) =~= t);
    }
}

/// A valid prefix followed by a cut scalar is streamable.
pub proof fn lemma_valid_then_cut_is_streamable(b: Seq<u8>, v: int)
    requires
        0 <= v < b.len(),
        valid_utf8(b.subrange(0, v)),
        is_cut_scalar(b.subrange(v, b.len() as int)),
    ensures
        is_streamable_utf8(b),
    decreases v,
{
    if v == 0 {
        assert(b.subrange(0, b.len() as int) =~= b);
        lemma_cut_scalar_facts(b);
    } else {
        let p = b.subrange(0, v);
        lemma_first_scalar_prefix(b, v);
        let l = length_of_first_scalar(b);
        let q = pop_first_scalar(b);
        assert(q.subrange(0, v - l) =~= pop_first_scalar(p));
        assert(q.subrange(v - l, q.len() as int) =~= b.subrange(v, b.len() as int));
        lemma_valid_then_cut_is_streamable(q, v - l);
    }
}

/// What follows a valid prefix of a streamable sequence is streamable.
pub proof fn lemma_streamable_after_valid(b: Seq<u8>, v: int)
    requires
        0 <= v <= b.len(),
        valid_utf8(b.subrange(0, v)),
        is_streamable_utf8(b),
    ensures
        is_streamable_utf8(b.subrange(v, b.len() as int)),
    decreases v,
{
    if v == 0 {
        assert(b.subrange(0, b.len() as int) =~= b);
    } else {
        let p = b.subrange(0, v);
        lemma_first_scalar_prefix(b, v);
        let l = length_of_first_scalar(b);
        let q = pop_first_scalar(b);
        assert(q.subrange(0, v - l) =~= pop_first_scalar(p));
        assert(q.subrange(v - l, q.len() as int) =~= b.subrange(v, b.len() as int));
        lemma_streamable_after_valid(q, v - l);
    }
}

/// Where the longest valid prefix is followed by a malformed sequence, the
/// bytes are not streamable.
pub proof fn lemma_malformed_not_streamable(b: Seq<u8>, v: int)
    requires
        0 <= v < b.len(),
        valid_utf8(b.subrange(0, v)),
        forall|i: int| v < i <= b.len() ==> !valid_utf8(#[trigger] b.subrange(0, i)),
        !is_cut_scalar(b.subrange(v, b.len() as int)),
    ensures
        !is_streamable_utf8(b),
{
    if is_streamable_utf8(b) {
        lemma_streamable_after_valid(b, v);
        let t = b.subrange(v, b.len() as int);
        if valid_first_scalar(t) {
            assert(partial_valid_utf8(b, v));
            partial_valid_utf8_extend(b, v);
            let l = length_of_first_scalar(t);
            assert(valid_utf8(b.subrange(0, v + l)));
        }
    }
}

/// Splitting valid UTF-8 at an ASCII byte leaves valid UTF-8 on both sides.
pub proof fn lemma_split_at_ascii(x: Seq<u8>, i: int)
    requires
        valid_utf8(x),
        0 <= i < x.len(),
        x[i] < 0x80,
    ensures
        valid_utf8(x.subrange(0, i)),
        valid_utf8(x.subrange(i + 1, x.len() as int)),
    decreases x.len(),
{
    if i == 0 {
        assert(pop_first_scalar(x) =~= x.subrange(1, x.len() as int));
    } else {
        let l = length_of_first_scalar(x);
        let q = pop_first_scalar(x);
        assert(l <= i) by {
            if l > i {
                assert(is_continuation_byte(x[i]) || i >= l);
            }
        }
        lemma_first_scalar_prefix(x, i);
        assert(q[i - l] == x[i]);
        lemma_split_at_ascii(q, i - l);
        assert(q.subrange(0, i - l) =~= pop_first_scalar(x.subrange(0, i)));
        assert(q.subrange(i - l + 1, q.len() as int) =~= x.subrange(i + 1, x.len() as int));
    }
}

/// A stretch of valid UTF-8 bounded by ASCII bytes (or the ends) is valid.
pub proof fn lemma_ascii_bounded_valid(x: Seq<u8>, a: int, b: int)
    requires
        valid_utf8(x),
        0 <= a <= b <= x.len(),
        a == 0 || x[a - 1] < 0x80,
        b == x.len() || x[b] < 0x80,
    ensures
        valid_utf8(x.subrange(a, b)),
{
    let y = if a == 0 {
        x
    } else {
        lemma_split_at_ascii(x, a - 1);
        x.subrange(a, x.len() as int)
    };
    assert(y =~= x.subrange(a, x.len() as int));
    if b == x.len() {
        assert(y =~= x.subrange(a, b));
    } else {
        assert(y[b - a] == x[b]);
        lemma_split_at_ascii(y, b - a);
        assert(y.subrange(0, b - a) =~= x.subrange(a, b));
    }
}

/// Every prefix of valid UTF-8 is streamable.
pub proof fn lemma_prefix_of_valid_streamable(x: Seq<u8>, n: int)
    requires
        valid_utf8(x),
        0 <= n <= x.len(),
    ensures
        is_streamable_utf8(x.subrange(0, n)),
    decreases x.len(),
{
    let p = x.subrange(0, n);
    if n > 0 {
        let l = length_of_first_scalar(x);
        if l <= n {
            lemma_first_scalar_prefix(x, n);
            let q = pop_first_scalar(x);
            assert(pop_first_scalar(p) =~= q.subrange(0, n - l));
            lemma_prefix_of_valid_streamable(q, n - l);
        } else {
            let rest = x.subrange(n, l);
            assert(p + rest =~= x.subrange(0, l));
            lemma_first_scalar_prefix(x, l);
            assert(valid_first_scalar(p + rest));
            lemma_cut_scalar_facts(p);
        }
    }
}

/// Encoding distributes over concatenation.
pub proof fn lemma_encode_concat(a: Seq<char>, b: Seq<char>)
    ensures
        encode_utf8(a + b) == encode_utf8(a) + encode_utf8(b),
    decreases a.len(),
{
    if a.len() == 0 {
        assert(a + b =~= b);
    } else {
        lemma_encode_concat(a.drop_first(), b);
        assert((a + b).drop_first() =~= a.drop_first() + b);
        assert(encode_utf8(a + b) =~= encode_scalar(a[0] as u32) + encode_utf8(a.drop_first() + b));
    }
}

/// `i` is the position of the first `b` in `l`.
pub open spec fn is_first_index(l: Seq<u8>, b: u8, i: int) -> bool {
    0 <= i < l.len() && l[i] == b && forall|j: int| 0 <= j < i ==> l[j] != b
}

/// The position of the first `b` in `l`, or -1 when `l` holds none.
pub open spec fn first_index(l: Seq<u8>, b: u8) -> int {
    if exists|i: int| is_first_index(l, b, i) {
        choose|i: int| is_first_index(l, b, i)
    } else {
        -1
    }
}

/// Pins `first_index` down from a scan.
pub proof fn lemma_first_index(l: Seq<u8>, b: u8, i: int)
    requires
        0 <= i <= l.len(),
        forall|j: int| 0 <= j < i ==> l[j] != b,
        i == l.len() || l[i] == b,
    ensures
        first_index(l, b) == if i == l.len() {
            -1
        } else {
            i
        },
{
    if i < l.len() {
        assert(is_first_index(l, b, i));
        let c = choose|c: int| is_first_index(l, b, c);
        assert(c == i) by {
            if c < i {
                assert(l[c] != b);
            } else if c > i {
                assert(l[i] != b);
            }
        }
    } else {
        assert(!exists|c: int| is_first_index(l, b, c)) by {
            if exists|c: int| is_first_index(l, b, c) {
                let c = choose|c: int| is_first_index(l, b, c);
                assert(l[c] != b);
            }
        }
    }
}

/// The value of a run of ASCII decimal digits.
pub open spec fn digits_value(d: Seq<u8>) -> int
    decreases d.len(),
{
    if d.len() == 0 {
        0
    } else {
        digits_value(d.drop_last()) * 10 + (d.last() - 48)
    }
}

pub open spec fn is_digit(b: u8) -> bool {
    48 <= b <= 57
}

/// The digits of an unsigned number: what follows an optional `+`.
pub open spec fn unsigned_digits(v: Seq<u8>) -> Seq<u8> {
    if v.len() > 0 && v[0] == 43 {
        v.drop_first()
    } else {
        v
    }
}

/// How `u64` reads a decimal string: an optional `+`, then at least one
/// digit and nothing else, with a value that fits.
pub open spec fn parsed_u64(v: Seq<u8>) -> Option<u64> {
    let d = unsigned_digits(v);
    if d.len() > 0 && (forall|i: int| 0 <= i < d.len() ==> is_digit(#[trigger] d[i]))
        && digits_value(d) <= u64::MAX {
        Some(digits_value(d) as u64)
    } else {
        None
    }
}

/// Relies on `<u64 as FromStr>::from_str`: an optional `+` followed by
/// decimal digits only, whose value fits in a `u64`.
#[verifier::external_body]
pub(crate) fn parse_u64(s: &str) -> (r: Option<u64>)
    ensures
        r == parsed_u64(s.spec_bytes()),
{
    s.parse::<u64>().ok()
}

/// The decimal digits of `n`, most significant first, without leading zeros.
pub open spec fn decimal(n: nat) -> Seq<u8>
    decreases n,
{
    if n < 10 {
        seq![(48 + n) as u8]
    } else {
        decimal(n / 10).push((48 + n % 10) as u8)
    }
}

/// Relies on `<u64 as Display>` (through `to_string`): plain decimal digits.
#[verifier::external_body]
pub(crate) fn u64_to_decimal(n: u64) -> (s: String)
    ensures
        s@.len() > 0,
        encode_utf8(s@) == decimal(n as nat),
{
    n.to_string()
}

/// A decimal string reads back as its number.
pub proof fn lemma_decimal_parses(n: nat)
    requires
        n <= u64::MAX,
    ensures
        parsed_u64(decimal(n)) == Some(n as u64),
{
    lemma_decimal_digits(n);
}

pub proof fn lemma_decimal_digits(n: nat)
    ensures
        decimal(n).len() > 0,
        decimal(n)[0] != 43,
        forall|i: int| 0 <= i < decimal(n).len() ==> is_digit(#[trigger] decimal(n)[i]),
        digits_value(decimal(n)) == n,
    decreases n,
{
    if n < 10 {
        let d = decimal(n);
        assert(d.drop_last() =~= Seq::<u8>::empty());
        assert(d.last() == 48 + n);
        assert(digits_value(d) == digits_value(d.drop_last()) * 10 + (d.last() - 48));
    } else {
        lemma_decimal_digits(n / 10);
        let d = decimal(n);
        assert(d.drop_last() =~= decimal(n / 10));
        assert(d.last() == 48 + n % 10);
        assert(digits_value(d) == digits_value(d.drop_last()) * 10 + (d.last() - 48));
        assert((n / 10) * 10 + n % 10 == n) by (nonlinear_arith);
        assert forall|i: int| 0 <= i < d.len() implies is_digit(#[trigger] d[i]) by {
            if i < d.len() - 1 {
                assert(d[i] == decimal(n / 10)[i]);
            }
        }
    }
}

/// The bytes, read as a string; they must be valid UTF-8.
pub fn str_of(b: &[u8]) -> (s: &str)
    requires
        valid_utf8(b@),
    ensures
        s.spec_bytes() == b@,
        s@ == decode_utf8(b@),
{
    proof {
        decode_utf8_encode_utf8(b@);
    }
    match split_utf8(b) {
        Ok(s) => s,
        Err(_) => "",
    }
}

/// Appends `b` to `w`.
pub fn append_bytes(w: &mut Vec<u8>, b: &[u8])
    ensures
        final(w)@ == old(w)@ + b@,
{
    let mut i: usize = 0;
    while i < b.len()
        invariant
            i <= b@.len(),
            w@ == old(w)@ + b@.subrange(0, i as int),
        decreases b@.len() - i,
    {
        w.push(b[i]);
        i = i + 1;
        assert(b@.subrange(0, i as int) =~= b@.subrange(0, i - 1).push(b@[i - 1]));
    }
    assert(b@.subrange(0, i as int) =~= b@);
}

/// True when `a` and `b` hold the same bytes.
pub fn bytes_equal(a: &[u8], b: &[u8]) -> (r: bool)
    ensures
        r == (a@ == b@),
{
    if a.len() != b.len() {
        return false;
    }
    let mut i: usize = 0;
    while i < a.len()
        invariant
            i <= a@.len(),
            a@.len() == b@.len(),
            forall|j: int| 0 <= j < i ==> a@[j] == b@[j],
        decreases a@.len() - i,
    {
        if a[i] != b[i] {
            return false;
        }
        i = i + 1;
    }
    assert(a@ =~= b@);
    true
}

/// True when `a` and `b` hold the same characters.
pub fn str_eq(a: &str, b: &str) -> (r: bool)
    ensures
        r == (a@ == b@),
{
    let r = bytes_equal(a.as_bytes(), b.as_bytes());
    proof {
        encode_utf8_decode_utf8(a@);
        encode_utf8_decode_utf8(b@);
    }
    r
}

/// True when `b` begins with `p`.
pub fn bytes_start_with(b: &[u8], p: &[u8]) -> (r: bool)
    ensures
        r == (p@.len() <= b@.len() && b@.subrange(0, p@.len() as int) == p@),
{
    if p.len() > b.len() {
        return false;
    }
    let mut i: usize = 0;
    while i < p.len()
        invariant
            i <= p@.len() <= b@.len(),
            forall|j: int| 0 <= j < i ==> b@[j] == p@[j],
        decreases p@.len() - i,
    {
        if b[i] != p[i] {
            assert(b@.subrange(0, p@.len() as int)[i as int] != p@[i as int]);
            return false;
        }
        i = i + 1;
    }
    assert(b@.subrange(0, p@.len() as int) =~= p@);
    true
}

/// `n` occurs in `h`.
pub open spec fn occurs_in(n: Seq<u8>, h: Seq<u8>) -> bool {
    exists|i: int| 0 <= i && i + n.len() <= h.len() && #[trigger] h.subrange(i, i + n.len()) == n
}

/// True when `n` occurs in `h`.
pub fn bytes_contain(h: &[u8], n: &[u8]) -> (r: bool)
    ensures
        r == occurs_in(n@, h@),
{
    if n.len() > h.len() {
        return false;
    }
    if n.len() == 0 {
        assert(h@.subrange(0int, 0int + n@.len()) =~= n@);
        return true;
    }
    let last: usize = h.len() - n.len();
    let mut i: usize = 0;
    while i <= last
        invariant
            n@.len() <= h@.len(),
            last == h@.len() - n@.len(),
            n@.len() > 0,
            i <= last + 1,
            forall|k: int| 0 <= k < i ==> #[trigger] h@.subrange(k, k + n@.len()) != n@,
        decreases last + 1 - i,
    {
        let rest = vstd::slice::slice_subrange(h, i, h.len());
        if bytes_start_with(rest, n) {
            assert(rest@.subrange(0, n@.len() as int) =~= h@.subrange(i as int, i + n@.len()));
            return true;
        }
        assert(rest@.subrange(0, n@.len() as int) =~= h@.subrange(i as int, i + n@.len()));
        i = i + 1;
    }
    assert(!occurs_in(n@, h@)) by {
        if occurs_in(n@, h@) {
            let k = choose|k: int|
                0 <= k && k + n@.len() <= h@.len() && #[trigger] h@.subrange(k, k + n@.len()) == n@;
            assert(k < i);
        }
    }
    false
}


/// Bytes below 0x80 are valid UTF-8.
pub proof fn lemma_ascii_valid(s: Seq<u8>)
    requires
        forall|i: int| 0 <= i < s.len() ==> #[trigger] s[i] < 0x80,
    ensures
        valid_utf8(s),
    decreases s.len(),
{
    if s.len() > 0 {
        assert(pop_first_scalar(s) =~= s.drop_first());
        lemma_ascii_valid(s.drop_first());
    }
}

/// Three valid stretches in a row are valid.
pub proof fn lemma_valid_concat3(a: Seq<u8>, b: Seq<u8>, c: Seq<u8>)
    requires
        valid_utf8(a),
        valid_utf8(b),
        valid_utf8(c),
    ensures
        valid_utf8(a + b + c),
{
    vstd::utf8::valid_utf8_concat(a, b);
    vstd::utf8::valid_utf8_concat(a + b, c);
}

/// Decimal digits are valid UTF-8.
pub proof fn lemma_ascii_valid_decimal(n: nat)
    ensures
        valid_utf8(decimal(n)),
    decreases n,
{
    if n >= 10 {
        lemma_ascii_valid_decimal(n / 10);
        lemma_ascii_valid(seq![(48 + n % 10) as u8]);
        vstd::utf8::valid_utf8_concat(decimal(n / 10), seq![(48 + n % 10) as u8]);
        assert(decimal(n) =~= decimal(n / 10) + seq![(48 + n % 10) as u8]);
    } else {
        lemma_ascii_valid(decimal(n));
    }
}

} // verus!
