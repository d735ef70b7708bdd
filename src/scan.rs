//! Finding a wrapper in text: the scan, its specification and its laws.
use crate::codec::{
    be32, be32_value, is_wrapper_of, lemma_vs_bijection, magic_spec, vs_byte, vs_to_byte,
    wrapper_bytes_spec, Error, ExtractionResult, HEADER_SIZE, VERSION, ZWNBSP,
};
use crate::unicode::{nfc, nfc_of, push_char};
use vstd::prelude::*;

verus! {

/// Number of bytes in the UTF-8 form of `s`.
pub open spec fn utf8_len(s: Seq<char>) -> nat {
    vstd::utf8::encode_utf8(s).len()
}

proof fn lemma_encode_utf8_concat(a: Seq<char>, b: Seq<char>)
    ensures
        vstd::utf8::encode_utf8(a + b) == vstd::utf8::encode_utf8(a) + vstd::utf8::encode_utf8(b),
    decreases a.len(),
{
    if a.len() == 0 {
        assert(a + b =~= b);
        assert(vstd::utf8::encode_utf8(a) + vstd::utf8::encode_utf8(b) =~= vstd::utf8::encode_utf8(b));
    } else {
        assert((a + b).drop_first() =~= a.drop_first() + b);
        lemma_encode_utf8_concat(a.drop_first(), b);
        assert(vstd::utf8::encode_utf8(a + b) =~= vstd::utf8::encode_scalar(a[0] as u32)
            + (vstd::utf8::encode_utf8(a.drop_first()) + vstd::utf8::encode_utf8(b)));
    }
}

/// Number of bytes in the UTF-8 form of `c`.
fn char_width(c: char) -> (r: usize)
    ensures
        r == vstd::utf8::encode_scalar(c as u32).len(),
{
    let v = c as u32;
    if v <= 0x7F {
        1
    } else if v <= 0x7FF {
        2
    } else if v <= 0xFFFF && !(0xD800 <= v && v <= 0xDFFF) {
        3
    } else {
        4
    }
}

/// The chars of `text`, and the byte offset at which each begins, followed by
/// the byte length of `text`.
fn char_table(text: &str) -> (r: (Vec<char>, Vec<usize>))
    ensures
        r.0@ == text@,
        r.1@.len() == text@.len() + 1,
        forall|k: int| 0 <= k <= text@.len() ==> #[trigger] r.1@[k] == utf8_len(text@.take(k)),
{
    let mut chars: Vec<char> = Vec::new();
    let mut offs: Vec<usize> = Vec::new();
    let total = text.as_bytes().len();
    let mut pos: usize = 0;
    offs.push(0);
    proof {
        assert(text@.take(0) =~= Seq::<char>::empty());
    }
    for c in it: text.chars()
        invariant
            it.seq() == text@,
            total == utf8_len(text@),
            chars@ == text@.take(it.index() as int),
            offs@.len() == chars@.len() + 1,
            pos == offs@[chars@.len() as int],
            forall|k: int| 0 <= k <= chars@.len() ==> #[trigger] offs@[k] == utf8_len(text@.take(k)),
    {
        let w = char_width(c);
        let ghost k = chars@.len() as int;
        proof {
            let s = text@;
            assert(s.take(k + 1) =~= s.take(k) + seq![c]);
            lemma_encode_utf8_concat(s.take(k), seq![c]);
            assert(seq![c].drop_first() =~= Seq::<char>::empty());
            assert(vstd::utf8::encode_utf8(seq![c].drop_first()) =~= Seq::<u8>::empty());
            assert(vstd::utf8::encode_utf8(seq![c]) =~= vstd::utf8::encode_scalar(c as u32));
            assert(s =~= s.take(k + 1) + s.skip(k + 1));
            lemma_encode_utf8_concat(s.take(k + 1), s.skip(k + 1));
        }
        pos = pos + w;
        chars.push(c);
        offs.push(pos);
        assert(offs@[k + 1] == utf8_len(text@.take(k + 1)));
    }
    proof {
        assert(text@.take(text@.len() as int) =~= text@);
    }
    (chars, offs)
}


/// Number of chars from position `j` on that each carry a byte.
pub open spec fn run_len(s: Seq<char>, j: int) -> nat
    decreases s.len() - j,
{
    if j < 0 || j >= s.len() || vs_byte(s[j]) is None {
        0
    } else {
        1 + run_len(s, j + 1)
    }
}

/// The bytes carried by the run of chars that starts at `j`.
pub open spec fn run_bytes(s: Seq<char>, j: int) -> Seq<u8> {
    Seq::new(run_len(s, j), |k: int| vs_byte(s[j + k])->0)
}

/// A decoded run opens with a valid header whose declared length fits in it.
pub open spec fn header_ok(b: Seq<u8>) -> bool {
    &&& b.len() >= 13
    &&& b.take(8) == magic_spec()
    &&& b[8] == VERSION
    &&& 13 + be32_value(b.subrange(9, 13)) <= b.len()
}

/// The payload that a recognized header declares.
pub open spec fn declared_payload(b: Seq<u8>) -> Seq<u8> {
    b.subrange(13, 13 + be32_value(b.subrange(9, 13)) as int)
}

/// Position `i` holds a marker followed by a run that forms a wrapper.
pub open spec fn recognized_at(s: Seq<char>, i: int) -> bool {
    &&& 0 <= i < s.len()
    &&& s[i] == ZWNBSP
    &&& header_ok(run_bytes(s, i + 1))
}

/// One past the last char of the run that follows the marker at `i`.
pub open spec fn run_end(s: Seq<char>, i: int) -> int {
    i + 1 + run_len(s, i + 1)
}

proof fn lemma_run_len_bound(s: Seq<char>, j: int)
    requires
        0 <= j <= s.len(),
    ensures
        run_len(s, j) <= s.len() - j,
    decreases s.len() - j,
{
    if j < s.len() && vs_byte(s[j]) is Some {
        lemma_run_len_bound(s, j + 1);
    }
}

/// The scan from position `i` on, with `found` the marker position of a wrapper
/// already recognized: `None` when a second wrapper turns up, else the position
/// of the only wrapper, if any.
pub open spec fn scan(s: Seq<char>, i: int, found: Option<int>) -> Option<Option<int>>
    decreases s.len() - i via scan_decreases
{
    if i < 0 || i >= s.len() {
        Some(found)
    } else if recognized_at(s, i) {
        if found is Some {
            None
        } else {
            scan(s, run_end(s, i), Some(i))
        }
    } else {
        scan(s, i + 1, found)
    }
}

#[via_fn]
proof fn scan_decreases(s: Seq<char>, i: int, found: Option<int>) {
    if 0 <= i < s.len() {
        lemma_run_len_bound(s, i + 1);
    }
}

/// What extraction from `s` yields: `Err` when two wrappers are found, else the
/// payload, the cleaned text, and the wrapper's byte span in `s`.
pub open spec fn extract_spec(s: Seq<char>, r: Result<ExtractionResult, Error>) -> bool {
    match scan(s, 0, None) {
        None => r == Err::<ExtractionResult, Error>(Error::MultipleWrappers),
        Some(None) => {
            &&& r is Ok
            &&& r->Ok_0.manifest is None
            &&& r->Ok_0.clean_text@ == nfc_of(s)
            &&& r->Ok_0.offset is None
            &&& r->Ok_0.length is None
        },
        Some(Some(i)) => {
            let e = run_end(s, i);
            &&& r is Ok
            &&& r->Ok_0.manifest is Some
            &&& r->Ok_0.manifest->0@ == declared_payload(run_bytes(s, i + 1))
            &&& r->Ok_0.clean_text@ == nfc_of(s.take(i) + s.skip(e))
            &&& r->Ok_0.offset == Some(utf8_len(s.take(i)) as usize)
            &&& r->Ok_0.length == Some(utf8_len(s.subrange(i, e)) as usize)
        },
    }
}


proof fn lemma_run_len_exact(s: Seq<char>, j: int, k: int)
    requires
        0 <= j <= k <= s.len(),
        forall|t: int| j <= t < k ==> #[trigger] vs_byte(s[t]) is Some,
        k == s.len() || vs_byte(s[k]) is None,
    ensures
        run_len(s, j) == k - j,
    decreases k - j,
{
    if j < k {
        lemma_run_len_exact(s, j + 1, k);
    }
}

/// Decode the run of byte-carrying chars that starts at `j`; also give where it ends.
fn decode_run(chars: &Vec<char>, j: usize) -> (r: (Vec<u8>, usize))
    requires
        j <= chars@.len(),
    ensures
        r.0@ == run_bytes(chars@, j as int),
        r.1 == j + run_len(chars@, j as int),
{
    let mut bytes: Vec<u8> = Vec::new();
    let mut k: usize = j;
    while k < chars.len()
        invariant
            j <= k <= chars@.len(),
            bytes@.len() == k - j,
            forall|t: int| j <= t < k ==> #[trigger] vs_byte(chars@[t]) is Some,
            forall|t: int| 0 <= t < k - j ==> bytes@[t] == #[trigger] vs_byte(chars@[j + t])->0,
        ensures
            j <= k <= chars@.len(),
            bytes@.len() == k - j,
            forall|t: int| j <= t < k ==> #[trigger] vs_byte(chars@[t]) is Some,
            forall|t: int| 0 <= t < k - j ==> bytes@[t] == #[trigger] vs_byte(chars@[j + t])->0,
            k == chars@.len() || vs_byte(chars@[k as int]) is None,
        decreases chars@.len() - k,
    {
        match vs_to_byte(chars[k]) {
            Some(b) => {
                bytes.push(b);
                k += 1;
            },
            None => break,
        }
    }
    proof {
        lemma_run_len_exact(chars@, j as int, k as int);
        assert(bytes@ =~= run_bytes(chars@, j as int));
    }
    (bytes, k)
}

/// The declared payload length, when `b` opens with a valid header that fits.
fn check_header(b: &Vec<u8>) -> (r: Option<usize>)
    ensures
        r is Some <==> header_ok(b@),
        r is Some ==> r->0 == be32_value(b@.subrange(9, 13)),
{
    if b.len() < HEADER_SIZE {
        return None;
    }
    let magic_ok = b[0] == 0x43 && b[1] == 0x32 && b[2] == 0x50 && b[3] == 0x41 && b[4] == 0x54
        && b[5] == 0x58 && b[6] == 0x54 && b[7] == 0x00;
    proof {
        assert(magic_ok <==> b@.take(8) =~= magic_spec()) by {
            if b@.take(8) =~= magic_spec() {
                assert(b@.take(8)[0] == b@[0]);
                assert(b@.take(8)[7] == b@[7]);
            }
        }
    }
    if !magic_ok || b[8] != VERSION {
        return None;
    }
    let len = (b[9] as u32) * 0x1000000 + (b[10] as u32) * 0x10000 + (b[11] as u32) * 0x100
        + (b[12] as u32);
    assert(len == be32_value(b@.subrange(9, 13)));
    if (len as usize) <= b.len() - HEADER_SIZE {
        Some(len as usize)
    } else {
        None
    }
}

/// Append `chars[from..to]` to `out`.
fn push_chars(out: &mut String, chars: &Vec<char>, from: usize, to: usize)
    requires
        from <= to <= chars@.len(),
    ensures
        final(out)@ == old(out)@ + chars@.subrange(from as int, to as int),
{
    let mut k: usize = from;
    while k < to
        invariant
            from <= k <= to <= chars@.len(),
            out@ == old(out)@ + chars@.subrange(from as int, k as int),
        decreases to - k,
    {
        push_char(out, chars[k]);
        k += 1;
        assert(out@ =~= old(out)@ + chars@.subrange(from as int, k as int));
    }
}

/// Copy `b[from..to]`.
fn copy_range(b: &Vec<u8>, from: usize, to: usize) -> (r: Vec<u8>)
    requires
        from <= to <= b@.len(),
    ensures
        r@ == b@.subrange(from as int, to as int),
{
    let mut r: Vec<u8> = Vec::new();
    let mut k: usize = from;
    while k < to
        invariant
            from <= k <= to <= b@.len(),
            r@ == b@.subrange(from as int, k as int),
        decreases to - k,
    {
        r.push(b[k]);
        k += 1;
        assert(r@ =~= b@.subrange(from as int, k as int));
    }
    r
}

/// Whether a wrapper starts at `i`; if so, where its run ends and its payload.
fn probe(chars: &Vec<char>, i: usize) -> (r: Option<(usize, Vec<u8>)>)
    requires
        i < chars@.len(),
    ensures
        r is Some <==> recognized_at(chars@, i as int),
        r is Some ==> {
            let (j, payload) = r->0;
            &&& j == run_end(chars@, i as int)
            &&& i < j <= chars@.len()
            &&& payload@ == declared_payload(run_bytes(chars@, i as int + 1))
        },
{
    if chars[i] != ZWNBSP {
        return None;
    }
    let n = chars.len();
    let (bytes, j) = decode_run(&chars, i + 1);
    proof {
        lemma_run_len_bound(chars@, i + 1);
    }
    match check_header(&bytes) {
        Some(len) => Some((j, copy_range(&bytes, HEADER_SIZE, HEADER_SIZE + len))),
        None => None,
    }
}

/// Extract a manifest from text. The scan stops at no malformed wrapper: a
/// marker whose run is not a wrapper is passed over and scanning goes on at the
/// next char; after a recognized wrapper it goes on past its run. A second
/// recognized wrapper fails the extraction.
pub fn extract_manifest(text: &str) -> (r: Result<ExtractionResult, Error>)
    ensures
        extract_spec(text@, r),
{
    let (chars, offs) = char_table(text);
    let ghost s = text@;
    let n = chars.len();
    let mut start: Option<usize> = None;
    let mut end: usize = 0;
    let mut decoded: Vec<u8> = Vec::new();
    let ghost mut found: Option<int> = None;
    let mut i: usize = 0;
    while i < n
        invariant
            s == text@,
            chars@ == s,
            n == s.len(),
            i <= n,
            scan(s, 0, None) == scan(s, i as int, found),
            found is Some <==> start is Some,
            start is Some ==> {
                let a = start->0 as int;
                &&& found->0 == a
                &&& recognized_at(s, a)
                &&& end == run_end(s, a)
                &&& end <= n
                &&& decoded@ == declared_payload(run_bytes(s, a + 1))
            },
        decreases n - i,
    {
        match probe(&chars, i) {
            Some((j, payload)) => {
                if start.is_some() {
                    assert(scan(s, i as int, found) == None::<Option<int>>);
                    let r = Err(Error::MultipleWrappers);
                    return r;
                }
                assert(scan(s, i as int, found) == scan(s, j as int, Some(i as int)));
                start = Some(i);
                end = j;
                decoded = payload;
                proof {
                    found = Some(i as int);
                }
                i = j;
            },
            None => {
                assert(scan(s, i as int, found) == scan(s, i + 1, found));
                i += 1;
            },
        }
    }
    match start {
        Some(a) => {
            let mut rest = String::new();
            push_chars(&mut rest, &chars, 0, a);
            push_chars(&mut rest, &chars, end, n);
            let clean = nfc(rest.as_str());
            proof {
                assert(s.subrange(0, a as int) =~= s.take(a as int));
                assert(s.subrange(end as int, n as int) =~= s.skip(end as int));
                assert(Seq::<char>::empty() + s.take(a as int) =~= s.take(a as int));
                assert(s.take(end as int) =~= s.take(a as int) + s.subrange(a as int, end as int));
                lemma_encode_utf8_concat(s.take(a as int), s.subrange(a as int, end as int));
            }
            Ok(ExtractionResult {
                manifest: Some(decoded),
                clean_text: clean,
                offset: Some(offs[a]),
                length: Some(offs[end] - offs[a]),
            })
        },
        None => Ok(ExtractionResult { manifest: None, clean_text: nfc(text), offset: None, length: None }),
    }
}


proof fn lemma_be32_round_trip(n: nat)
    requires
        n <= u32::MAX,
    ensures
        be32_value(be32(n)) == n,
{
    let b = be32(n);
    let q1 = n / 0x100;
    let q2 = q1 / 0x100;
    let q3 = q2 / 0x100;
    assert(n / 0x10000 == q2) by (nonlinear_arith)
        requires q1 == n / 0x100, q2 == q1 / 0x100, n >= 0;
    assert(n / 0x1000000 == q3) by (nonlinear_arith)
        requires q1 == n / 0x100, q2 == q1 / 0x100, q3 == q2 / 0x100, n >= 0;
    assert(q3 < 256) by (nonlinear_arith)
        requires q3 == n / 0x1000000, n <= 0xFFFFFFFF;
    assert(n == q1 * 256 + n % 256) by (nonlinear_arith)
        requires q1 == n / 0x100;
    assert(q1 == q2 * 256 + q1 % 256) by (nonlinear_arith)
        requires q2 == q1 / 0x100;
    assert(q2 == q3 * 256 + q2 % 256) by (nonlinear_arith)
        requires q3 == q2 / 0x100;
    assert(b[0] == q3 % 256);
    assert(b[1] == q2 % 256);
    assert(b[2] == q1 % 256);
    assert(b[3] == n % 256);
    assert(q3 % 256 == q3);
}

proof fn lemma_run_len_prefix(h: Seq<char>, t: Seq<char>, j: int)
    requires
        0 <= j <= h.len(),
        t.len() == 0 || vs_byte(t[0]) is None,
    ensures
        run_len(h + t, j) == run_len(h, j),
    decreases h.len() - j,
{
    let s = h + t;
    if j < h.len() {
        assert(s[j] == h[j]);
        if vs_byte(h[j]) is Some {
            lemma_run_len_prefix(h, t, j + 1);
        }
    } else if t.len() > 0 {
        assert(s[j] == t[0]);
    }
}

/// Appending text that does not start with a byte-carrying char changes no
/// marker position of `h` into or out of a wrapper.
proof fn lemma_recognized_prefix(h: Seq<char>, t: Seq<char>, i: int)
    requires
        0 <= i < h.len(),
        t.len() == 0 || vs_byte(t[0]) is None,
    ensures
        recognized_at(h + t, i) == recognized_at(h, i),
        run_end(h + t, i) == run_end(h, i),
{
    let s = h + t;
    lemma_run_len_prefix(h, t, i + 1);
    lemma_run_len_bound(h, i + 1);
    assert(run_bytes(s, i + 1) =~= run_bytes(h, i + 1)) by {
        assert forall|k: int| 0 <= k < run_len(h, i + 1) implies #[trigger] s[i + 1 + k] == h[i + 1 + k] by {}
    }
    assert(s[i] == h[i]);
}

/// Once a wrapper is found the scan never reports that there is none.
proof fn lemma_scan_found(s: Seq<char>, i: int, x: int)
    ensures
        scan(s, i, Some(x)) != Some(None::<int>),
    decreases s.len() - i,
{
    if 0 <= i < s.len() {
        if !recognized_at(s, i) {
            lemma_scan_found(s, i + 1, x);
        }
    }
}

/// Scanning `h + t` from a position of `h` past which `h` holds no wrapper
/// reaches the end of `h` with nothing found on the way.
proof fn lemma_scan_skip(h: Seq<char>, t: Seq<char>, i: int, f: Option<int>)
    requires
        0 <= i <= h.len(),
        t.len() == 0 || vs_byte(t[0]) is None,
        scan(h, i, None) == Some(None::<int>),
    ensures
        scan(h + t, i, f) == scan(h + t, h.len() as int, f),
    decreases h.len() - i,
{
    if i < h.len() {
        if recognized_at(h, i) {
            lemma_run_len_bound(h, i + 1);
            lemma_scan_found(h, run_end(h, i), i);
        }
        lemma_recognized_prefix(h, t, i);
        lemma_scan_skip(h, t, i + 1, f);
    }
}

/// A wrapper text placed in `s` at `p`, and followed by the end of `s` or a
/// char that carries no byte, is recognized there with its payload.
proof fn lemma_wrapper_at(s: Seq<char>, p: int, w: Seq<char>, b: Seq<u8>)
    requires
        0 <= p,
        p + w.len() <= s.len(),
        s.subrange(p, p + w.len()) == w,
        is_wrapper_of(w, b),
        b.len() <= u32::MAX,
        p + w.len() == s.len() || vs_byte(s[p + w.len()]) is None,
    ensures
        recognized_at(s, p),
        run_end(s, p) == p + w.len(),
        declared_payload(run_bytes(s, p + 1)) == b,
{
    let wb = wrapper_bytes_spec(b);
    let e = p + w.len();
    assert(s[p] == w[0]);
    assert forall|t: int| p + 1 <= t < e implies #[trigger] vs_byte(s[t]) == Some(wb[t - p - 1]) by {
        assert(s[t] == w[t - p]);
        assert(w.drop_first()[t - p - 1] == w[t - p]);
        lemma_vs_bijection(wb[t - p - 1], s[t]);
    }
    lemma_run_len_exact(s, p + 1, e);
    assert(run_bytes(s, p + 1) =~= wb);
    lemma_be32_round_trip(b.len());
    assert(wb.take(8) =~= magic_spec());
    assert(wb.subrange(9, 13) =~= be32(b.len()));
    assert(declared_payload(wb) =~= b);
}


/// Round trip: extraction from the text that embedding `b` into `t` produced
/// (`e`, as `embed_manifest` states it) gives back exactly `b`, provided the
/// normalized host text holds no wrapper of its own.
pub proof fn lemma_round_trip(
    t: Seq<char>,
    b: Seq<u8>,
    e: Seq<char>,
    r: Result<ExtractionResult, Error>,
)
    requires
        b.len() <= u32::MAX,
        e.len() >= nfc_of(t).len(),
        e.take(nfc_of(t).len() as int) == nfc_of(t),
        is_wrapper_of(e.skip(nfc_of(t).len() as int), b),
        scan(nfc_of(t), 0, None) == Some(None::<int>),
        extract_spec(e, r),
    ensures
        r is Ok,
        r->Ok_0.manifest is Some,
        r->Ok_0.manifest->0@ == b,
{
    let h = nfc_of(t);
    let w = e.skip(h.len() as int);
    assert(e =~= h + w);
    assert(vs_byte(w[0]) is None);
    lemma_scan_skip(h, w, 0, None);
    assert(e.subrange(h.len() as int, e.len() as int) =~= w);
    lemma_wrapper_at(e, h.len() as int, w, b);
    assert(scan(e, h.len() as int, None) == scan(e, e.len() as int, Some(h.len() as int)));
}

/// Two wrappers in one text make extraction fail with `MultipleWrappers`
/// rather than return the first.
pub proof fn lemma_multiple_wrappers(
    h: Seq<char>,
    w1: Seq<char>,
    b1: Seq<u8>,
    w2: Seq<char>,
    b2: Seq<u8>,
    r: Result<ExtractionResult, Error>,
)
    requires
        b1.len() <= u32::MAX,
        b2.len() <= u32::MAX,
        is_wrapper_of(w1, b1),
        is_wrapper_of(w2, b2),
        scan(h, 0, None) == Some(None::<int>),
        extract_spec(h + w1 + w2, r),
    ensures
        r == Err::<ExtractionResult, Error>(Error::MultipleWrappers),
{
    let s = h + w1 + w2;
    let p1 = h.len() as int;
    let p2 = p1 + w1.len();
    assert(s =~= h + (w1 + w2));
    assert((w1 + w2)[0] == w1[0]);
    assert(vs_byte(w1[0]) is None);
    lemma_scan_skip(h, w1 + w2, 0, None);
    assert(s.subrange(p1, p2) =~= w1);
    assert(s[p2] == w2[0]);
    lemma_wrapper_at(s, p1, w1, b1);
    assert(s.subrange(p2, p2 + w2.len()) =~= w2);
    lemma_wrapper_at(s, p2, w2, b2);
    assert(scan(s, p1, None) == scan(s, p2, Some(p1)));
    assert(scan(s, p2, Some(p1)) == None::<Option<int>>);
}


/// A scan that has found a wrapper either keeps it or fails.
proof fn lemma_scan_keeps_found(s: Seq<char>, j: int, x: int)
    ensures
        scan(s, j, Some(x)) == None::<Option<int>> || scan(s, j, Some(x)) == Some(Some(x)),
    decreases s.len() - j,
{
    if 0 <= j < s.len() && !recognized_at(s, j) {
        lemma_scan_keeps_found(s, j + 1, x);
    }
}

/// A scan that ends with the one wrapper at `i` passed over every position
/// before it, and found nothing after it.
proof fn lemma_scan_found_at(s: Seq<char>, k: int, i: int)
    requires
        0 <= k,
        scan(s, k, None) == Some(Some(i)),
    ensures
        k <= i,
        recognized_at(s, i),
        forall|m: int| k <= m < i ==> !#[trigger] recognized_at(s, m),
        scan(s, run_end(s, i), Some(i)) == Some(Some(i)),
    decreases s.len() - k,
{
    if k < s.len() {
        if recognized_at(s, k) {
            lemma_scan_keeps_found(s, run_end(s, k), k);
        } else {
            lemma_scan_found_at(s, k + 1, i);
        }
    }
}

/// A scan that keeps its wrapper to the end meets no other.
proof fn lemma_scan_kept_none_after(s: Seq<char>, j: int, x: int)
    requires
        0 <= j,
        scan(s, j, Some(x)) == Some(Some(x)),
    ensures
        forall|m: int| j <= m < s.len() ==> !#[trigger] recognized_at(s, m),
    decreases s.len() - j,
{
    if j < s.len() {
        lemma_scan_kept_none_after(s, j + 1, x);
    }
}

/// A scan over positions that hold no wrapper ends with what it began with.
proof fn lemma_scan_none_left(t: Seq<char>, j: int, f: Option<int>)
    requires
        0 <= j,
        forall|m: int| j <= m < t.len() ==> !#[trigger] recognized_at(t, m),
    ensures
        scan(t, j, f) == Some(f),
    decreases t.len() - j,
{
    if j < t.len() {
        lemma_scan_none_left(t, j + 1, f);
    }
}

proof fn lemma_run_len_suffix(a: Seq<char>, b: Seq<char>, j: int)
    requires
        0 <= j,
    ensures
        run_len(a + b, a.len() + j) == run_len(b, j),
    decreases b.len() - j,
{
    if j < b.len() {
        assert((a + b)[a.len() + j] == b[j]);
        lemma_run_len_suffix(a, b, j + 1);
    }
}

/// Whether a wrapper starts at a position of `b` does not depend on what
/// stands before `b`.
proof fn lemma_recognized_suffix(a: Seq<char>, b: Seq<char>, k: int)
    requires
        0 <= k < b.len(),
    ensures
        recognized_at(a + b, a.len() + k) == recognized_at(b, k),
{
    let s = a + b;
    let p = a.len() + k;
    lemma_run_len_suffix(a, b, k + 1);
    lemma_run_len_bound(b, k + 1);
    assert(run_bytes(s, p + 1) =~= run_bytes(b, k + 1)) by {
        assert forall|t: int| 0 <= t < run_len(b, k + 1) implies #[trigger] s[p + 1 + t] == b[k + 1
            + t] by {}
    }
    assert(s[p] == b[k]);
}

/// Cutting the one wrapper that a scan found out of the text leaves a text in
/// which a scan finds none.
pub proof fn lemma_cut_text_has_no_wrapper(s: Seq<char>, i: int)
    requires
        scan(s, 0, None) == Some(Some(i)),
    ensures
        scan(s.take(i) + s.skip(run_end(s, i)), 0, None) == Some(None::<int>),
{
    lemma_scan_found_at(s, 0, i);
    let e = run_end(s, i);
    lemma_run_len_bound(s, i + 1);
    lemma_scan_kept_none_after(s, e, i);
    let pre = s.take(i);
    let post = s.skip(e);
    let rest = pre + post;
    let tail = s.skip(i);
    assert(s =~= pre + tail);
    assert(s =~= s.take(e) + post);
    if e < s.len() {
        lemma_run_len_exact_end(s, i + 1);
        assert(post[0] == s[e]);
    }
    assert(tail[0] == ZWNBSP);
    assert forall|m: int| 0 <= m < rest.len() implies !#[trigger] recognized_at(rest, m) by {
        if m < i {
            lemma_recognized_prefix(pre, post, m);
            lemma_recognized_prefix(pre, tail, m);
        } else {
            lemma_recognized_suffix(pre, post, m - i);
            lemma_recognized_suffix(s.take(e), post, m - i);
        }
    }
    lemma_scan_none_left(rest, 0, None);
}

/// The char right after a run carries no byte.
proof fn lemma_run_len_exact_end(s: Seq<char>, j: int)
    requires
        0 <= j <= s.len(),
        j + run_len(s, j) < s.len(),
    ensures
        vs_byte(s[j + run_len(s, j)]) is None,
    decreases s.len() - j,
{
    if j < s.len() && vs_byte(s[j]) is Some {
        lemma_run_len_exact_end(s, j + 1);
    }
}


} // verus!
