//! Structural checks of manifests and wrappers, reported as ordered issues.
use crate::codec::{be32_value, decimal, digit, digit_char, magic_spec, push_decimal, HEADER_SIZE, VERSION};
use crate::unicode::{lossy, lossy_of, push_char};
use vstd::prelude::*;

verus! {

/// Status codes of a validation.
#[derive(Debug, Clone, Copy, PartialEq, Eq, Structural)]
pub enum ValidationCode {
    /// Manifest is valid
    Valid,
    /// Wrapper-level failures
    CorruptedWrapper,
    MultipleWrappers,
    InvalidMagic,
    UnsupportedVersion,
    LengthMismatch,
    EmptyManifest,
    /// JUMBF-level failures
    InvalidJumbfHeader,
    InvalidJumbfBoxSize,
    MissingDescriptionBox,
    InvalidC2paUuid,
    TruncatedJumbf,
}

/// The stable string identifier of each code.
pub open spec fn code_str(c: ValidationCode) -> Seq<char> {
    match c {
        ValidationCode::Valid => "valid"@,
        ValidationCode::CorruptedWrapper => "manifest.text.corruptedWrapper"@,
        ValidationCode::MultipleWrappers => "manifest.text.multipleWrappers"@,
        ValidationCode::InvalidMagic => "manifest.text.invalidMagic"@,
        ValidationCode::UnsupportedVersion => "manifest.text.unsupportedVersion"@,
        ValidationCode::LengthMismatch => "manifest.text.lengthMismatch"@,
        ValidationCode::EmptyManifest => "manifest.text.emptyManifest"@,
        ValidationCode::InvalidJumbfHeader => "manifest.jumbf.invalidHeader"@,
        ValidationCode::InvalidJumbfBoxSize => "manifest.jumbf.invalidBoxSize"@,
        ValidationCode::MissingDescriptionBox => "manifest.jumbf.missingDescriptionBox"@,
        ValidationCode::InvalidC2paUuid => "manifest.jumbf.invalidC2paUuid"@,
        ValidationCode::TruncatedJumbf => "manifest.jumbf.truncated"@,
    }
}

impl ValidationCode {
    /// Returns the status code string.
    pub fn as_str(&self) -> (r: &'static str)
        ensures
            r@ == code_str(*self),
    {
        match self {
            ValidationCode::Valid => "valid",
            ValidationCode::CorruptedWrapper => "manifest.text.corruptedWrapper",
            ValidationCode::MultipleWrappers => "manifest.text.multipleWrappers",
            ValidationCode::InvalidMagic => "manifest.text.invalidMagic",
            ValidationCode::UnsupportedVersion => "manifest.text.unsupportedVersion",
            ValidationCode::LengthMismatch => "manifest.text.lengthMismatch",
            ValidationCode::EmptyManifest => "manifest.text.emptyManifest",
            ValidationCode::InvalidJumbfHeader => "manifest.jumbf.invalidHeader",
            ValidationCode::InvalidJumbfBoxSize => "manifest.jumbf.invalidBoxSize",
            ValidationCode::MissingDescriptionBox => "manifest.jumbf.missingDescriptionBox",
            ValidationCode::InvalidC2paUuid => "manifest.jumbf.invalidC2paUuid",
            ValidationCode::TruncatedJumbf => "manifest.jumbf.truncated",
        }
    }
}

/// A single validation issue with location and details.
#[derive(Debug, Clone)]
pub struct ValidationIssue {
    pub code: ValidationCode,
    pub message: String,
    pub offset: Option<usize>,
    pub context: Option<String>,
}

/// Result of a validation: the issues in the order they were found.
#[derive(Debug, Clone)]
pub struct ValidationResult {
    pub valid: bool,
    pub issues: Vec<ValidationIssue>,
    pub manifest_bytes: Option<Vec<u8>>,
    pub jumbf_bytes: Option<Vec<u8>>,
    pub version: Option<u8>,
    pub declared_length: Option<u32>,
    pub actual_length: Option<usize>,
}

/// What an issue says: its code, message, offset and context, as plain values.
pub type IssueModel = (ValidationCode, Seq<char>, Option<usize>, Option<Seq<char>>);

/// The model of an issue with the given fields.
pub open spec fn issue(
    code: ValidationCode,
    message: Seq<char>,
    offset: Option<usize>,
    context: Option<Seq<char>>,
) -> IssueModel {
    (code, message, offset, context)
}

impl ValidationIssue {
    pub open spec fn model(&self) -> IssueModel {
        (
            self.code,
            self.message@,
            self.offset,
            match self.context {
                Some(c) => Some(c@),
                None => None,
            },
        )
    }
}

impl ValidationResult {
    /// The models of the issues, in order.
    pub open spec fn models(&self) -> Seq<IssueModel> {
        self.issues@.map_values(|i: ValidationIssue| i.model())
    }

    /// `valid` holds exactly when no issue was added.
    pub open spec fn wf(&self) -> bool {
        self.valid <==> self.issues@.len() == 0
    }

    /// Create a new valid result.
    pub fn new() -> (r: Self)
        ensures
            r.wf(),
            r.valid,
            r.issues@.len() == 0,
            r.manifest_bytes is None,
            r.jumbf_bytes is None,
            r.version is None,
            r.declared_length is None,
            r.actual_length is None,
    {
        Self {
            valid: true,
            issues: Vec::new(),
            manifest_bytes: None,
            jumbf_bytes: None,
            version: None,
            declared_length: None,
            actual_length: None,
        }
    }

    /// Add a validation issue; the result is then invalid.
    pub fn add_issue(
        &mut self,
        code: ValidationCode,
        message: String,
        offset: Option<usize>,
        context: Option<String>,
    )
        ensures
            final(self).issues@ == old(self).issues@.push(
                (ValidationIssue { code, message, offset, context }),
            ),
            !final(self).valid,
            final(self).wf(),
            final(self).models() == old(self).models().push(
                (ValidationIssue { code, message, offset, context }).model(),
            ),
            final(self).manifest_bytes == old(self).manifest_bytes,
            final(self).jumbf_bytes == old(self).jumbf_bytes,
            final(self).version == old(self).version,
            final(self).declared_length == old(self).declared_length,
            final(self).actual_length == old(self).actual_length,
    {
        self.issues.push(ValidationIssue { code, message, offset, context });
        self.valid = false;
        assert(self.models() =~= old(self).models().push(
            (ValidationIssue { code, message, offset, context }).model(),
        ));
    }

    /// The first issue's code, or `Valid` when there is none.
    pub fn primary_code(&self) -> (r: ValidationCode)
        ensures
            r == (if self.issues@.len() == 0 {
                ValidationCode::Valid
            } else {
                self.issues@[0].code
            }),
    {
        if self.issues.len() == 0 {
            ValidationCode::Valid
        } else {
            self.issues[0].code
        }
    }
}


/// Type tag of a superbox: `jumb`.
pub open spec fn jumb_spec() -> Seq<u8> {
    seq![0x6Au8, 0x75u8, 0x6Du8, 0x62u8]
}

/// Type tag of a description box: `jumd`.
pub open spec fn jumd_spec() -> Seq<u8> {
    seq![0x6Au8, 0x75u8, 0x6Du8, 0x64u8]
}

/// Identifier of a manifest store.
pub open spec fn store_uuid_spec() -> Seq<u8> {
    seq![
        0x63u8, 0x32u8, 0x70u8, 0x61u8, 0x00u8, 0x11u8, 0x00u8, 0x10u8,
        0x80u8, 0x00u8, 0x00u8, 0xAAu8, 0x00u8, 0x38u8, 0x9Bu8, 0x71u8,
    ]
}

/// The number that 8 big-endian bytes stand for.
pub open spec fn be64_value(b: Seq<u8>) -> nat {
    (b[0] * 0x100000000000000 + b[1] * 0x1000000000000 + b[2] * 0x10000000000
        + b[3] * 0x100000000 + b[4] * 0x1000000 + b[5] * 0x10000 + b[6] * 0x100 + b[7]) as nat
}

/// The lowercase hexadecimal digit `d`.
pub open spec fn hex_digit(d: int) -> char {
    if d < 10 {
        digit_char(d)
    } else if d == 10 {
        'a'
    } else if d == 11 {
        'b'
    } else if d == 12 {
        'c'
    } else if d == 13 {
        'd'
    } else if d == 14 {
        'e'
    } else {
        'f'
    }
}

/// A byte as two hexadecimal digits, or in decimal.
pub open spec fn byte_text(b: u8, hex: bool) -> Seq<char> {
    if hex {
        seq![hex_digit(b as int / 16), hex_digit(b as int % 16)]
    } else {
        decimal(b as nat)
    }
}

/// The bytes of `b` written one after another, separated by `, `.
pub open spec fn list_items(b: Seq<u8>, hex: bool) -> Seq<char>
    decreases b.len(),
{
    if b.len() == 0 {
        Seq::empty()
    } else if b.len() == 1 {
        byte_text(b[0], hex)
    } else {
        list_items(b.drop_last(), hex) + ", "@ + byte_text(b.last(), hex)
    }
}

/// A byte list in brackets: `[6a, 75]` in hexadecimal, `[106, 117]` in decimal.
pub open spec fn byte_list(b: Seq<u8>, hex: bool) -> Seq<char> {
    "["@ + list_items(b, hex) + "]"@
}

/// The issues that checking `b` as a superbox yields. The checks of the outer
/// box stop at the first failure; in strict mode the description box and the
/// store identifier are checked next.
pub open spec fn jumbf_issues(b: Seq<u8>, strict: bool) -> Seq<IssueModel> {
    if b.len() == 0 {
        seq![issue(ValidationCode::EmptyManifest, "JUMBF content is empty"@, Some(0usize), None)]
    } else if b.len() < 8 {
        seq![
            issue(
                ValidationCode::InvalidJumbfHeader,
                "JUMBF too short for box header: "@ + decimal(b.len()) + " bytes, minimum 8"@,
                Some(0usize),
                None,
            ),
        ]
    } else {
        let size = be32_value(b.subrange(0, 4));
        if size == 1 && b.len() < 16 {
            seq![
                issue(
                    ValidationCode::TruncatedJumbf,
                    "Extended box size declared but not enough bytes for 64-bit size field"@,
                    Some(0usize),
                    None,
                ),
            ]
        } else if 2 <= size < 8 {
            seq![
                issue(
                    ValidationCode::InvalidJumbfBoxSize,
                    "Invalid box size: "@ + decimal(size) + " (minimum is 8)"@,
                    Some(0usize),
                    None,
                ),
            ]
        } else {
            let effective = if size == 0 {
                b.len()
            } else if size == 1 {
                be64_value(b.subrange(8, 16))
            } else {
                size
            };
            let header: int = if size == 1 { 16 } else { 8 };
            if b.len() < effective {
                seq![
                    issue(
                        ValidationCode::TruncatedJumbf,
                        "JUMBF truncated: declared size "@ + decimal(effective) + ", actual "@
                            + decimal(b.len()),
                        Some(0usize),
                        None,
                    ),
                ]
            } else if b.subrange(4, 8) != jumb_spec() {
                seq![
                    issue(
                        ValidationCode::InvalidJumbfHeader,
                        "Expected JUMBF superbox type 'jumb', got '"@ + lossy_of(b.subrange(4, 8))
                            + "'"@,
                        Some(4usize),
                        Some("box_type="@ + byte_list(b.subrange(4, 8), true)),
                    ),
                ]
            } else if !strict {
                seq![]
            } else if b.len() < header + 8 {
                seq![
                    issue(
                        ValidationCode::MissingDescriptionBox,
                        "JUMBF superbox too short to contain description box"@,
                        Some(header as usize),
                        None,
                    ),
                ]
            } else if b.subrange(header + 4, header + 8) != jumd_spec() {
                seq![
                    issue(
                        ValidationCode::MissingDescriptionBox,
                        "Expected description box 'jumd', got '"@ + lossy_of(
                            b.subrange(header + 4, header + 8),
                        ) + "'"@,
                        Some((header + 4) as usize),
                        None,
                    ),
                ]
            } else if b.len() >= header + 24 && b.subrange(header + 8, header + 24)
                != store_uuid_spec() {
                seq![
                    issue(
                        ValidationCode::InvalidC2paUuid,
                        "Invalid C2PA manifest store UUID"@,
                        Some((header + 8) as usize),
                        Some(
                            "expected="@ + byte_list(store_uuid_spec(), true) + ", found="@
                                + byte_list(b.subrange(header + 8, header + 24), true),
                        ),
                    ),
                ]
            } else {
                seq![]
            }
        }
    }
}

/// Whether `b[off..off + pat.len()]` equals `pat`.
fn matches_at(b: &[u8], off: usize, pat: &Vec<u8>) -> (r: bool)
    requires
        off + pat@.len() <= b@.len(),
    ensures
        r == (b@.subrange(off as int, off + pat@.len()) == pat@),
{
    let n = b.len();
    let mut k: usize = 0;
    while k < pat.len()
        invariant
            n == b@.len(),
            k <= pat@.len(),
            off + pat@.len() <= b@.len(),
            forall|t: int| 0 <= t < k ==> b@[off + t] == pat@[t],
        decreases pat@.len() - k,
    {
        if b[off + k] != pat[k] {
            assert(b@.subrange(off as int, off + pat@.len())[k as int] != pat@[k as int]);
            return false;
        }
        k += 1;
    }
    assert(b@.subrange(off as int, off + pat@.len()) =~= pat@);
    true
}

fn read_be32(b: &[u8], off: usize) -> (r: u32)
    requires
        off + 4 <= b@.len(),
    ensures
        r == be32_value(b@.subrange(off as int, off + 4)),
{
    (b[off] as u32) * 0x1000000 + (b[off + 1] as u32) * 0x10000 + (b[off + 2] as u32) * 0x100
        + (b[off + 3] as u32)
}

fn read_be64(b: &[u8], off: usize) -> (r: u64)
    requires
        off + 8 <= b@.len(),
    ensures
        r == be64_value(b@.subrange(off as int, off + 8)),
{
    (b[off] as u64) * 0x100000000000000 + (b[off + 1] as u64) * 0x1000000000000 + (b[off + 2]
        as u64) * 0x10000000000 + (b[off + 3] as u64) * 0x100000000 + (b[off + 4] as u64)
        * 0x1000000 + (b[off + 5] as u64) * 0x10000 + (b[off + 6] as u64) * 0x100 + (b[off + 7]
        as u64)
}

fn hex_char(d: u8) -> (r: char)
    requires
        d < 16,
    ensures
        r == hex_digit(d as int),
{
    if d < 10 {
        digit(d)
    } else if d == 10 {
        'a'
    } else if d == 11 {
        'b'
    } else if d == 12 {
        'c'
    } else if d == 13 {
        'd'
    } else if d == 14 {
        'e'
    } else {
        'f'
    }
}

fn push_byte(s: &mut String, b: u8, hex: bool)
    ensures
        final(s)@ == old(s)@ + byte_text(b, hex),
{
    if hex {
        push_char(s, hex_char(b / 16));
        push_char(s, hex_char(b % 16));
        assert(final(s)@ =~= old(s)@ + byte_text(b, hex));
    } else {
        push_decimal(s, b as u64);
    }
}

/// Append `b` as a bracketed list.
fn push_byte_list(s: &mut String, b: &[u8], hex: bool)
    ensures
        final(s)@ == old(s)@ + byte_list(b@, hex),
{
    s.append("[");
    let ghost start = s@;
    let mut k: usize = 0;
    while k < b.len()
        invariant
            k <= b@.len(),
            s@ == start + list_items(b@.take(k as int), hex),
        decreases b@.len() - k,
    {
        let ghost before = s@;
        if k > 0 {
            s.append(", ");
        }
        push_byte(s, b[k], hex);
        proof {
            let t = b@.take(k + 1);
            assert(t.drop_last() =~= b@.take(k as int));
            assert(t.last() == b@[k as int]);
            if k == 0 {
                assert(list_items(b@.take(0), hex) =~= Seq::<char>::empty());
                assert(s@ =~= start + list_items(t, hex));
            } else {
                assert(s@ =~= start + list_items(t, hex));
            }
        }
        k += 1;
    }
    assert(b@.take(k as int) =~= b@);
    s.append("]");
    assert(final(s)@ =~= old(s)@ + byte_list(b@, hex));
}

/// `prefix`, `n` in decimal, then `suffix`.
fn number_text(prefix: &str, n: u64, suffix: &str) -> (r: String)
    ensures
        r@ == prefix@ + decimal(n as nat) + suffix@,
{
    let mut r = prefix.to_owned();
    push_decimal(&mut r, n);
    r.append(suffix);
    r
}

/// `prefix`, the lossy text of `b`, then a closing quote.
fn quoted_text(prefix: &str, b: &[u8]) -> (r: String)
    ensures
        r@ == prefix@ + lossy_of(b@) + "'"@,
{
    let mut r = prefix.to_owned();
    let t = lossy(b);
    r.append(t.as_str());
    r.append("'");
    r
}

/// A result that carries `jumbf_bytes` and the one issue given.
fn jumbf_failure(
    jumbf_bytes: &[u8],
    code: ValidationCode,
    message: String,
    offset: usize,
    context: Option<String>,
) -> (r: ValidationResult)
    ensures
        r.wf(),
        r.models() == seq![
            (ValidationIssue { code, message, offset: Some(offset), context }).model(),
        ],
        r.jumbf_bytes is Some && r.jumbf_bytes->0@ == jumbf_bytes@,
        r.manifest_bytes is None,
        r.version is None,
        r.declared_length is None,
        r.actual_length is None,
{
    let mut result = ValidationResult::new();
    result.jumbf_bytes = Some(vstd::slice::slice_to_vec(jumbf_bytes));
    assert(result.models() =~= Seq::<IssueModel>::empty());
    result.add_issue(code, message, Some(offset), context);
    assert(result.models() =~= seq![
        (ValidationIssue { code, message, offset: Some(offset), context }).model(),
    ]);
    result
}

/// Validate the outer box of a JUMBF structure, and in strict mode its
/// description box and manifest-store identifier.
pub fn validate_jumbf_structure(jumbf_bytes: &[u8], strict: bool) -> (r: ValidationResult)
    ensures
        r.wf(),
        r.models() == jumbf_issues(jumbf_bytes@, strict),
        r.jumbf_bytes is Some && r.jumbf_bytes->0@ == jumbf_bytes@,
        r.manifest_bytes is None,
        r.version is None,
        r.declared_length is None,
        r.actual_length is None,
{
    let b = jumbf_bytes;
    let len = b.len();
    if len == 0 {
        return jumbf_failure(
            b,
            ValidationCode::EmptyManifest,
            "JUMBF content is empty".to_owned(),
            0,
            None,
        );
    }
    if len < 8 {
        let m = number_text("JUMBF too short for box header: ", len as u64, " bytes, minimum 8");
        return jumbf_failure(b, ValidationCode::InvalidJumbfHeader, m, 0, None);
    }
    let box_size = read_be32(b, 0);
    let effective: u64;
    let header: usize;
    if box_size == 0 {
        effective = len as u64;
        header = 8;
    } else if box_size == 1 {
        if len < 16 {
            return jumbf_failure(
                b,
                ValidationCode::TruncatedJumbf,
                "Extended box size declared but not enough bytes for 64-bit size field".to_owned(),
                0,
                None,
            );
        }
        effective = read_be64(b, 8);
        header = 16;
    } else if box_size < 8 {
        let m = number_text("Invalid box size: ", box_size as u64, " (minimum is 8)");
        return jumbf_failure(b, ValidationCode::InvalidJumbfBoxSize, m, 0, None);
    } else {
        effective = box_size as u64;
        header = 8;
    }
    if (len as u64) < effective {
        let mut m = number_text("JUMBF truncated: declared size ", effective, ", actual ");
        push_decimal(&mut m, len as u64);
        return jumbf_failure(b, ValidationCode::TruncatedJumbf, m, 0, None);
    }
    let superbox = vec![0x6Au8, 0x75u8, 0x6Du8, 0x62u8];
    if !matches_at(b, 4, &superbox) {
        let found = vstd::slice::slice_subrange(b, 4, 8);
        assert(found@ =~= b@.subrange(4, 8));
        let m = quoted_text("Expected JUMBF superbox type 'jumb', got '", found);
        let mut c = "box_type=".to_owned();
        push_byte_list(&mut c, found, true);
        return jumbf_failure(b, ValidationCode::InvalidJumbfHeader, m, 4, Some(c));
    }
    let mut result = ValidationResult::new();
    result.jumbf_bytes = Some(vstd::slice::slice_to_vec(b));
    assert(result.models() =~= seq![]);
    if strict {
        if len < header + 8 {
            return jumbf_failure(
                b,
                ValidationCode::MissingDescriptionBox,
                "JUMBF superbox too short to contain description box".to_owned(),
                header,
                None,
            );
        }
        let desc = vec![0x6Au8, 0x75u8, 0x6Du8, 0x64u8];
        if !matches_at(b, header + 4, &desc) {
            let found = vstd::slice::slice_subrange(b, header + 4, header + 8);
            assert(found@ =~= b@.subrange(header + 4, header + 8));
            let m = quoted_text("Expected description box 'jumd', got '", found);
            return jumbf_failure(b, ValidationCode::MissingDescriptionBox, m, header + 4, None);
        }
        let uuid_offset = header + 8;
        if len - uuid_offset >= 16 {
            let uuid = vec![
                0x63u8, 0x32u8, 0x70u8, 0x61u8, 0x00u8, 0x11u8, 0x00u8, 0x10u8,
                0x80u8, 0x00u8, 0x00u8, 0xAAu8, 0x00u8, 0x38u8, 0x9Bu8, 0x71u8,
            ];
            if !matches_at(b, uuid_offset, &uuid) {
                let found = vstd::slice::slice_subrange(b, uuid_offset, uuid_offset + 16);
                assert(found@ =~= b@.subrange(uuid_offset as int, uuid_offset + 16));
                let mut c = "expected=".to_owned();
                push_byte_list(&mut c, uuid.as_slice(), true);
                c.append(", found=");
                push_byte_list(&mut c, found, true);
                result.add_issue(
                    ValidationCode::InvalidC2paUuid,
                    "Invalid C2PA manifest store UUID".to_owned(),
                    Some(uuid_offset),
                    Some(c),
                );
                assert(result.models() =~= jumbf_issues(b@, strict));
            }
        }
    }
    result
}

/// The issues that validating a manifest yields.
pub open spec fn manifest_issues(b: Seq<u8>, validate_jumbf: bool, strict: bool) -> Seq<
    IssueModel,
> {
    if b.len() == 0 {
        seq![issue(ValidationCode::EmptyManifest, "Manifest bytes are empty"@, None, None)]
    } else if validate_jumbf {
        jumbf_issues(b, strict)
    } else {
        seq![]
    }
}

/// Validate a manifest before embedding: it must not be empty, and when
/// `validate_jumbf` is set its box structure is checked too, with its issues
/// passed on as they are.
pub fn validate_manifest(manifest_bytes: &[u8], validate_jumbf: bool, strict: bool) -> (r:
    ValidationResult)
    ensures
        r.wf(),
        r.models() == manifest_issues(manifest_bytes@, validate_jumbf, strict),
        r.manifest_bytes is Some && r.manifest_bytes->0@ == manifest_bytes@,
        r.jumbf_bytes is None,
        r.version is None,
        r.declared_length is None,
        r.actual_length == (if manifest_bytes@.len() == 0 {
            None
        } else {
            Some(manifest_bytes@.len() as usize)
        }),
{
    let mut result = ValidationResult::new();
    result.manifest_bytes = Some(vstd::slice::slice_to_vec(manifest_bytes));
    assert(result.models() =~= seq![]);
    if manifest_bytes.len() == 0 {
        result.add_issue(
            ValidationCode::EmptyManifest,
            "Manifest bytes are empty".to_owned(),
            None,
            None,
        );
        assert(result.models() =~= manifest_issues(manifest_bytes@, validate_jumbf, strict));
        return result;
    }
    result.actual_length = Some(manifest_bytes.len());
    if validate_jumbf {
        let mut jumbf_result = validate_jumbf_structure(manifest_bytes, strict);
        if !jumbf_result.valid {
            let ghost found = jumbf_result.models();
            let ghost found_issues = jumbf_result.issues@;
            result.issues.append(&mut jumbf_result.issues);
            result.valid = false;
            assert(result.issues@ =~= found_issues);
            assert(result.models() =~= found);
        }
    }
    result
}

/// The wrapper bytes open with the magic tag.
pub open spec fn wrapper_magic_ok(b: Seq<u8>) -> bool {
    b.len() >= 13 && b.take(8) == magic_spec()
}

/// The wrapper bytes open with the magic tag and the supported version.
pub open spec fn wrapper_version_ok(b: Seq<u8>) -> bool {
    wrapper_magic_ok(b) && b[8] == VERSION
}

/// The wrapper header is sound and its declared length is the payload's.
pub open spec fn wrapper_length_ok(b: Seq<u8>) -> bool {
    wrapper_version_ok(b) && be32_value(b.subrange(9, 13)) == b.len() - 13
}

/// The issues that validating the bytes of a wrapper (without its marker)
/// yields.
pub open spec fn wrapper_issues(b: Seq<u8>) -> Seq<IssueModel> {
    if b.len() < 13 {
        seq![
            issue(
                ValidationCode::CorruptedWrapper,
                "Wrapper too short: "@ + decimal(b.len()) + " bytes, minimum 13"@,
                Some(0usize),
                None,
            ),
        ]
    } else if b.take(8) != magic_spec() {
        seq![
            issue(
                ValidationCode::InvalidMagic,
                "Invalid magic: expected 'C2PATXT\\0', got "@ + byte_list(b.take(8), false),
                Some(0usize),
                None,
            ),
        ]
    } else if b[8] != VERSION {
        seq![
            issue(
                ValidationCode::UnsupportedVersion,
                "Unsupported version: "@ + decimal(b[8] as nat) + ", expected 1"@,
                Some(8usize),
                None,
            ),
        ]
    } else if be32_value(b.subrange(9, 13)) != b.len() - 13 {
        seq![
            issue(
                ValidationCode::LengthMismatch,
                "Length mismatch: declares "@ + decimal(be32_value(b.subrange(9, 13)))
                    + " bytes, actual "@ + decimal((b.len() - 13) as nat),
                Some(9usize),
                None,
            ),
        ]
    } else {
        jumbf_issues(b.skip(13), false)
    }
}

/// Validate the bytes of an encoded wrapper: header, declared length, then the
/// box structure of the payload, whose issues are passed on as they are.
pub fn validate_wrapper_bytes(wrapper_bytes: &[u8]) -> (r: ValidationResult)
    ensures
        r.wf(),
        r.models() == wrapper_issues(wrapper_bytes@),
        r.version == (if wrapper_magic_ok(wrapper_bytes@) {
            Some(wrapper_bytes@[8])
        } else {
            None
        }),
        r.declared_length == (if wrapper_version_ok(wrapper_bytes@) {
            Some(be32_value(wrapper_bytes@.subrange(9, 13)) as u32)
        } else {
            None
        }),
        r.actual_length == (if wrapper_version_ok(wrapper_bytes@) {
            Some((wrapper_bytes@.len() - 13) as usize)
        } else {
            None
        }),
        r.jumbf_bytes is Some <==> wrapper_length_ok(wrapper_bytes@),
        r.manifest_bytes is Some <==> wrapper_length_ok(wrapper_bytes@),
        wrapper_length_ok(wrapper_bytes@) ==> r.jumbf_bytes->0@ == wrapper_bytes@.skip(13)
            && r.manifest_bytes->0@ == wrapper_bytes@.skip(13),
{
    let b = wrapper_bytes;
    let mut result = ValidationResult::new();
    assert(result.models() =~= seq![]);
    if b.len() < HEADER_SIZE {
        let m = number_text("Wrapper too short: ", b.len() as u64, " bytes, minimum 13");
        result.add_issue(ValidationCode::CorruptedWrapper, m, Some(0), None);
        assert(result.models() =~= wrapper_issues(b@));
        return result;
    }
    let magic = vec![0x43u8, 0x32u8, 0x50u8, 0x41u8, 0x54u8, 0x58u8, 0x54u8, 0x00u8];
    assert(b@.subrange(0, 8) =~= b@.take(8));
    if !matches_at(b, 0, &magic) {
        let mut m = "Invalid magic: expected 'C2PATXT\\0', got ".to_owned();
        push_byte_list(&mut m, vstd::slice::slice_subrange(b, 0, 8), false);
        result.add_issue(ValidationCode::InvalidMagic, m, Some(0), None);
        assert(result.models() =~= wrapper_issues(b@));
        return result;
    }
    let version = b[8];
    result.version = Some(version);
    if version != VERSION {
        let m = number_text("Unsupported version: ", version as u64, ", expected 1");
        result.add_issue(ValidationCode::UnsupportedVersion, m, Some(8), None);
        assert(result.models() =~= wrapper_issues(b@));
        return result;
    }
    let declared = read_be32(b, 9);
    result.declared_length = Some(declared);
    let actual = b.len() - HEADER_SIZE;
    result.actual_length = Some(actual);
    if declared as usize != actual {
        let mut m = number_text("Length mismatch: declares ", declared as u64, " bytes, actual ");
        push_decimal(&mut m, actual as u64);
        result.add_issue(ValidationCode::LengthMismatch, m, Some(9), None);
        assert(result.models() =~= wrapper_issues(b@));
        return result;
    }
    let jumbf = vstd::slice::slice_subrange(b, HEADER_SIZE, b.len());
    assert(jumbf@ =~= b@.skip(13));
    result.jumbf_bytes = Some(vstd::slice::slice_to_vec(jumbf));
    result.manifest_bytes = Some(vstd::slice::slice_to_vec(jumbf));
    let mut jumbf_result = validate_jumbf_structure(jumbf, false);
    if !jumbf_result.valid {
        let ghost found = jumbf_result.models();
        let ghost found_issues = jumbf_result.issues@;
        result.issues.append(&mut jumbf_result.issues);
        result.valid = false;
        assert(result.issues@ =~= found_issues);
        assert(result.models() =~= found);
    }
    result
}

/// An empty manifest is reported as empty, and as nothing else, whatever the flags.
pub proof fn lemma_empty_manifest(validate_jumbf: bool, strict: bool)
    ensures
        manifest_issues(Seq::<u8>::empty(), validate_jumbf, strict) == seq![
            issue(ValidationCode::EmptyManifest, "Manifest bytes are empty"@, None, None),
        ],
        jumbf_issues(Seq::<u8>::empty(), strict) == seq![
            issue(ValidationCode::EmptyManifest, "JUMBF content is empty"@, Some(0usize), None),
        ],
{
}

/// A box whose size field is 1 and whose 64-bit extended size fits in the
/// buffer is accepted when its type is `jumb`; with fewer than 16 bytes there is
/// no room for the extension and the box is reported as truncated.
pub proof fn lemma_extended_box_size(b: Seq<u8>)
    requires
        b.len() >= 8,
        be32_value(b.subrange(0, 4)) == 1,
        b.subrange(4, 8) == jumb_spec(),
    ensures
        b.len() >= 16 && be64_value(b.subrange(8, 16)) <= b.len() ==> jumbf_issues(b, false)
            == Seq::<IssueModel>::empty(),
        b.len() < 16 ==> jumbf_issues(b, false) == seq![
            issue(
                ValidationCode::TruncatedJumbf,
                "Extended box size declared but not enough bytes for 64-bit size field"@,
                Some(0usize),
                None,
            ),
        ],
{
}

/// Strict checking only adds to the loose one: where the loose check fails,
/// the strict one reports the same single issue, and a box that passes the
/// strict check passes the loose one.
pub proof fn lemma_strict_extends_loose(b: Seq<u8>)
    ensures
        jumbf_issues(b, false).len() <= 1,
        jumbf_issues(b, true).len() <= 1,
        jumbf_issues(b, false).len() > 0 ==> jumbf_issues(b, true) == jumbf_issues(b, false),
        jumbf_issues(b, true).len() == 0 ==> jumbf_issues(b, false).len() == 0,
{
}

/// A wrapper whose header is sound but whose declared length differs from the
/// number of bytes after the header is reported as a length mismatch, at the
/// length field.
pub proof fn lemma_length_mismatch(b: Seq<u8>)
    requires
        b.len() >= 13,
        b.take(8) == magic_spec(),
        b[8] == VERSION,
        be32_value(b.subrange(9, 13)) != b.len() - 13,
    ensures
        wrapper_issues(b) == seq![
            issue(
                ValidationCode::LengthMismatch,
                "Length mismatch: declares "@ + decimal(be32_value(b.subrange(9, 13)))
                    + " bytes, actual "@ + decimal((b.len() - 13) as nat),
                Some(9usize),
                None,
            ),
        ],
{
}

impl Default for ValidationResult {
    fn default() -> (r: Self)
        ensures
            r.wf(),
            r.valid,
            r.issues@.len() == 0,
    {
        Self::new()
    }
}

/// One issue as text: `[code] message`.
pub open spec fn issue_text(i: ValidationIssue) -> Seq<char> {
    "["@ + code_str(i.code) + "] "@ + i.message@
}

/// The lines that list `issues`, each `  - [code] message`.
pub open spec fn issue_lines(issues: Seq<ValidationIssue>) -> Seq<char>
    decreases issues.len(),
{
    if issues.len() == 0 {
        Seq::empty()
    } else {
        issue_lines(issues.drop_last()) + "  - "@ + issue_text(issues.last()) + "\n"@
    }
}

/// A result as text: a one-line pass, or the failure and its issues.
pub open spec fn result_text(r: ValidationResult) -> Seq<char> {
    if r.valid {
        "Validation passed: manifest is structurally compliant"@
    } else {
        "Validation failed:\n"@ + issue_lines(r.issues@)
    }
}

impl ValidationIssue {
    /// The issue as text: `[code] message`.
    pub fn to_string(&self) -> (r: String)
        ensures
            r@ == issue_text(*self),
    {
        let mut r = String::new();
        r.append("[");
        r.append(self.code.as_str());
        r.append("] ");
        r.append(self.message.as_str());
        proof {
            reveal_strlit("[");
            reveal_strlit("] ");
        }
        assert(r@ =~= issue_text(*self));
        r
    }
}

impl ValidationResult {
    /// The result as text: a one-line pass, or the failure and one line per issue.
    pub fn to_string(&self) -> (r: String)
        ensures
            r@ == result_text(*self),
    {
        if self.valid {
            return "Validation passed: manifest is structurally compliant".to_owned();
        }
        let mut r = "Validation failed:\n".to_owned();
        let mut k: usize = 0;
        while k < self.issues.len()
            invariant
                !self.valid,
                k <= self.issues@.len(),
                r@ == "Validation failed:\n"@ + issue_lines(self.issues@.take(k as int)),
            decreases self.issues@.len() - k,
        {
            let line = self.issues[k].to_string();
            let ghost before = r@;
            r.append("  - ");
            r.append(line.as_str());
            r.append("\n");
            proof {
                let t = self.issues@.take(k + 1);
                assert(t.drop_last() =~= self.issues@.take(k as int));
                assert(t.last() == self.issues@[k as int]);
                assert(r@ =~= before + "  - "@ + line@ + "\n"@);
            }
            k += 1;
        }
        assert(self.issues@.take(k as int) =~= self.issues@);
        r
    }
}

} // verus!
