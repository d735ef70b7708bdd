//! The byte-to-codepoint codec and the wrapper format.
use crate::unicode::{char_from_u32, nfc, nfc_of, push_char};
use vstd::prelude::*;

verus! {

/// The zero-width no-break space that anchors a wrapper in text.
pub const ZWNBSP: char = '\u{feff}';

/// The only wrapper format version.
pub const VERSION: u8 = 1;

/// Magic tag, version byte and 4-byte length.
pub const HEADER_SIZE: usize = 13;

/// The 8-byte magic tag `C2PATXT\0`.
pub open spec fn magic_spec() -> Seq<u8> {
    seq![0x43u8, 0x32u8, 0x50u8, 0x41u8, 0x54u8, 0x58u8, 0x54u8, 0x00u8]
}

/// The codepoint that carries byte `b`.
pub open spec fn vs_code(b: u8) -> u32 {
    if b <= 15 {
        (0xFE00 + b) as u32
    } else {
        (0xE0100 + b - 16) as u32
    }
}

/// The byte that codepoint `c` carries, if it is a variation selector.
pub open spec fn vs_byte(c: char) -> Option<u8> {
    let code = c as u32;
    if 0xFE00 <= code <= 0xFE0F {
        Some((code - 0xFE00) as u8)
    } else if 0xE0100 <= code <= 0xE01EF {
        Some((code - 0xE0100 + 16) as u8)
    } else {
        None
    }
}

pub fn byte_to_vs(byte: u8) -> (r: char)
    ensures
        r as u32 == vs_code(byte),
        vs_byte(r) == Some(byte),
{
    let code: u32 = if byte <= 15 {
        0xFE00 + byte as u32
    } else {
        0xE0100 + (byte as u32) - 16
    };
    match char_from_u32(code) {
        Some(c) => c,
        None => {
            proof {
                assert(vstd::utf8::is_scalar(code));
            }
            '\u{fe00}'
        },
    }
}

pub fn vs_to_byte(c: char) -> (r: Option<u8>)
    ensures
        r == vs_byte(c),
{
    let code = c as u32;
    if code >= 0xFE00 && code <= 0xFE0F {
        Some((code - 0xFE00) as u8)
    } else if code >= 0xE0100 && code <= 0xE01EF {
        Some(((code - 0xE0100) + 16) as u8)
    } else {
        None
    }
}


/// Big-endian 4-byte form of `n`.
pub open spec fn be32(n: nat) -> Seq<u8> {
    seq![(n / 0x1000000 % 256) as u8, (n / 0x10000 % 256) as u8, (n / 0x100 % 256) as u8, (n % 256) as u8]
}

/// The number that 4 big-endian bytes stand for.
pub open spec fn be32_value(b: Seq<u8>) -> nat {
    (b[0] * 0x1000000 + b[1] * 0x10000 + b[2] * 0x100 + b[3]) as nat
}

/// Magic tag, version and the big-endian payload length.
pub open spec fn header_spec(len: nat) -> Seq<u8> {
    magic_spec() + seq![VERSION] + be32(len)
}

/// The bytes that a wrapper for `payload` carries after its marker.
pub open spec fn wrapper_bytes_spec(payload: Seq<u8>) -> Seq<u8> {
    header_spec(payload.len()) + payload
}

/// `t` carries the bytes `b`, one codepoint each, in order.
pub open spec fn encodes(t: Seq<char>, b: Seq<u8>) -> bool {
    &&& t.len() == b.len()
    &&& forall|k: int| 0 <= k < b.len() ==> #[trigger] t[k] as u32 == vs_code(b[k])
}

/// `t` is the wrapper text of `payload`: the marker, then its wrapper bytes encoded.
pub open spec fn is_wrapper_of(t: Seq<char>, payload: Seq<u8>) -> bool {
    &&& t.len() >= 1
    &&& t[0] == ZWNBSP
    &&& encodes(t.drop_first(), wrapper_bytes_spec(payload))
}

fn header_bytes(len: u32) -> (r: Vec<u8>)
    ensures
        r@ == header_spec(len as nat),
{
    let mut r: Vec<u8> = vec![0x43u8, 0x32u8, 0x50u8, 0x41u8, 0x54u8, 0x58u8, 0x54u8, 0x00u8];
    r.push(VERSION);
    r.push((len / 0x1000000 % 256) as u8);
    r.push((len / 0x10000 % 256) as u8);
    r.push((len / 0x100 % 256) as u8);
    r.push((len % 256) as u8);
    assert(r@ =~= header_spec(len as nat));
    r
}

fn push_encoded(out: &mut String, bytes: &[u8])
    ensures
        final(out)@.len() == old(out)@.len() + bytes@.len(),
        final(out)@.take(old(out)@.len() as int) == old(out)@,
        encodes(final(out)@.skip(old(out)@.len() as int), bytes@),
{
    let ghost start = out@;
    let mut i: usize = 0;
    while i < bytes.len()
        invariant
            0 <= i <= bytes@.len(),
            out@.len() == start.len() + i,
            out@.take(start.len() as int) == start,
            forall|k: int| 0 <= k < i ==> #[trigger] out@[start.len() + k] as u32 == vs_code(bytes@[k]),
        decreases bytes@.len() - i,
    {
        let c = byte_to_vs(bytes[i]);
        let ghost before = out@;
        push_char(out, c);
        assert(out@.take(start.len() as int) =~= before.take(start.len() as int));
        i += 1;
    }
    let ghost tail = out@.skip(start.len() as int);
    assert forall|k: int| 0 <= k < bytes@.len() implies #[trigger] tail[k] as u32 == vs_code(bytes@[k]) by {
        assert(tail[k] == out@[start.len() + k]);
    }
}

/// Encode raw bytes into a wrapper string: the marker, the 13-byte header, then
/// one codepoint per payload byte.
pub fn encode_wrapper(manifest_bytes: &[u8]) -> (r: String)
    requires
        manifest_bytes@.len() <= u32::MAX,
    ensures
        is_wrapper_of(r@, manifest_bytes@),
{
    let len = manifest_bytes.len() as u32;
    let mut out = String::new();
    push_char(&mut out, ZWNBSP);
    let ghost o0 = out@;
    let header = header_bytes(len);
    push_encoded(&mut out, header.as_slice());
    let ghost o1 = out@;
    push_encoded(&mut out, manifest_bytes);
    proof {
        let t = out@.drop_first();
        let w = wrapper_bytes_spec(manifest_bytes@);
        let h = header@;
        assert(o0 =~= seq![ZWNBSP]);
        assert(o1.len() == 14);
        assert(out@[0] == o1[0]);
        assert(o1[0] == o0[0]);
        assert forall|k: int| 0 <= k < w.len() implies #[trigger] t[k] as u32 == vs_code(w[k]) by {
            if k < 13 {
                assert(out@[k + 1] == o1[k + 1]);
                assert(o1.skip(1)[k] == o1[k + 1]);
                assert(w[k] == h[k]);
            } else {
                assert(out@.skip(14)[k - 13] == out@[k + 1]);
                assert(w[k] == manifest_bytes@[k - 13]);
            }
        }
    }
    out
}


/// Embed a manifest into text: the text in composed normal form (NFC), then the
/// wrapper, which is left as it is.
pub fn embed_manifest(text: &str, manifest_bytes: &[u8]) -> (r: String)
    requires
        manifest_bytes@.len() <= u32::MAX,
    ensures
        r@.len() == nfc_of(text@).len() + 14 + manifest_bytes@.len(),
        r@.take(nfc_of(text@).len() as int) == nfc_of(text@),
        is_wrapper_of(r@.skip(nfc_of(text@).len() as int), manifest_bytes@),
{
    let mut normalized = nfc(text);
    let wrapper = encode_wrapper(manifest_bytes);
    let ghost n = normalized@;
    normalized.append(wrapper.as_str());
    assert(normalized@.take(n.len() as int) =~= n);
    assert(normalized@.skip(n.len() as int) =~= wrapper@);
    normalized
}

/// Failures of wrapper decoding; extraction itself fails only on `MultipleWrappers`.
#[derive(Debug, Clone, Copy, PartialEq, Eq)]
pub enum Error {
    InvalidByte(u8),
    InvalidVariationSelector(char),
    TooShort,
    InvalidMagic,
    UnsupportedVersion,
    Truncated,
    MultipleWrappers,
}

/// What a scan of a text found.
#[derive(Debug)]
pub struct ExtractionResult {
    /// The payload of the one wrapper found, if any.
    pub manifest: Option<Vec<u8>>,
    /// The text without the wrapper, in composed normal form.
    pub clean_text: String,
    /// Byte offset of the wrapper's marker in the original text.
    pub offset: Option<usize>,
    /// Byte length of the wrapper in the original text.
    pub length: Option<usize>,
}

/// The byte-to-codepoint mapping is a bijection onto the two selector ranges:
/// the codepoint of a byte decodes to that byte, and a char outside both ranges
/// decodes to nothing.
pub proof fn lemma_vs_bijection(b: u8, c: char)
    ensures
        c as u32 == vs_code(b) ==> vs_byte(c) == Some(b),
        vs_byte(c) is Some ==> vs_code(vs_byte(c)->0) == c as u32,
        vs_byte(c) is None <==> !(0xFE00 <= c as u32 <= 0xFE0F || 0xE0100 <= c as u32 <= 0xE01EF),
{
}


/// The decimal digit `d`.
pub open spec fn digit_char(d: int) -> char {
    if d == 0 {
        '0'
    } else if d == 1 {
        '1'
    } else if d == 2 {
        '2'
    } else if d == 3 {
        '3'
    } else if d == 4 {
        '4'
    } else if d == 5 {
        '5'
    } else if d == 6 {
        '6'
    } else if d == 7 {
        '7'
    } else if d == 8 {
        '8'
    } else {
        '9'
    }
}

/// `n` written in decimal.
pub open spec fn decimal(n: nat) -> Seq<char>
    decreases n,
{
    if n < 10 {
        seq![digit_char(n as int)]
    } else {
        decimal(n / 10).push(digit_char((n % 10) as int))
    }
}

/// The description of each error.
pub open spec fn error_text(e: Error) -> Seq<char> {
    match e {
        Error::InvalidByte(b) => "Byte out of range: "@ + decimal(b as nat),
        Error::InvalidVariationSelector(c) => "Invalid variation selector: "@ + seq![c],
        Error::TooShort => "Sequence too short for header"@,
        Error::InvalidMagic => "Invalid magic bytes"@,
        Error::UnsupportedVersion => "Unsupported version"@,
        Error::Truncated => "Wrapper truncated before end of manifest"@,
        Error::MultipleWrappers => "Multiple C2PA wrappers detected"@,
    }
}

pub(crate) fn digit(d: u8) -> (r: char)
    requires
        d < 10,
    ensures
        r == digit_char(d as int),
{
    match d {
        0 => '0',
        1 => '1',
        2 => '2',
        3 => '3',
        4 => '4',
        5 => '5',
        6 => '6',
        7 => '7',
        8 => '8',
        _ => '9',
    }
}

/// Append `n` in decimal to `s`.
pub(crate) fn push_decimal(s: &mut String, n: u64)
    ensures
        final(s)@ == old(s)@ + decimal(n as nat),
    decreases n,
{
    if n >= 10 {
        push_decimal(s, n / 10);
    }
    push_char(s, digit((n % 10) as u8));
    proof {
        if n >= 10 {
            assert(final(s)@ =~= old(s)@ + decimal(n as nat));
        } else {
            assert(final(s)@ =~= old(s)@ + decimal(n as nat));
        }
    }
}

impl Error {
    /// The error as text.
    pub fn to_string(&self) -> (r: String)
        ensures
            r@ == error_text(*self),
    {
        match self {
            Error::InvalidByte(b) => {
                let mut r = "Byte out of range: ".to_owned();
                push_decimal(&mut r, *b as u64);
                r
            },
            Error::InvalidVariationSelector(c) => {
                let mut r = "Invalid variation selector: ".to_owned();
                push_char(&mut r, *c);
                r
            },
            Error::TooShort => "Sequence too short for header".to_owned(),
            Error::InvalidMagic => "Invalid magic bytes".to_owned(),
            Error::UnsupportedVersion => "Unsupported version".to_owned(),
            Error::Truncated => "Wrapper truncated before end of manifest".to_owned(),
            Error::MultipleWrappers => "Multiple C2PA wrappers detected".to_owned(),
        }
    }
}

} // verus!
