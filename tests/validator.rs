use c2pa_text::{
    validate_jumbf_structure, validate_manifest, validate_wrapper_bytes, ValidationCode,
    ValidationResult,
};

const STORE_UUID: [u8; 16] = [
    0x63, 0x32, 0x70, 0x61, 0x00, 0x11, 0x00, 0x10, 0x80, 0x00, 0x00, 0xAA, 0x00, 0x38, 0x9B, 0x71,
];

fn wrapper_bytes(declared: u32, payload: &[u8]) -> Vec<u8> {
    let mut w = b"C2PATXT\0".to_vec();
    w.push(1);
    w.extend_from_slice(&declared.to_be_bytes());
    w.extend_from_slice(payload);
    w
}

#[test]
fn test_empty_manifest_fails() {
    let result = validate_manifest(&[], true, false);
    assert!(!result.valid);
    assert_eq!(result.primary_code(), ValidationCode::EmptyManifest);
}

#[test]
fn test_minimal_valid_jumbf() {
    let mut jumbf = vec![0, 0, 0, 8];
    jumbf.extend_from_slice(b"jumb");
    let result = validate_manifest(&jumbf, true, false);
    assert!(result.valid);
}

#[test]
fn test_invalid_box_type_fails() {
    let mut invalid = vec![0, 0, 0, 8];
    invalid.extend_from_slice(b"xxxx");
    let result = validate_manifest(&invalid, true, false);
    assert!(!result.valid);
    assert_eq!(result.primary_code(), ValidationCode::InvalidJumbfHeader);
}

#[test]
fn test_truncated_jumbf_fails() {
    let mut truncated = vec![0, 0, 0, 100];
    truncated.extend_from_slice(b"jumb");
    let result = validate_manifest(&truncated, true, false);
    assert!(!result.valid);
    assert_eq!(result.primary_code(), ValidationCode::TruncatedJumbf);
}

#[test]
fn empty_manifest_whatever_the_flags() {
    for (check, strict) in [(false, false), (false, true), (true, false), (true, true)] {
        let result = validate_manifest(&[], check, strict);
        assert!(!result.valid);
        assert_eq!(result.issues.len(), 1);
        assert_eq!(result.primary_code(), ValidationCode::EmptyManifest);
        assert_eq!(result.actual_length, None);
    }
    let result = validate_jumbf_structure(&[], true);
    assert_eq!(result.primary_code(), ValidationCode::EmptyManifest);
}

#[test]
fn manifest_without_structure_check_is_valid() {
    let result = validate_manifest(b"xy", false, true);
    assert!(result.valid);
    assert_eq!(result.actual_length, Some(2));
    assert_eq!(result.manifest_bytes, Some(b"xy".to_vec()));
}

#[test]
fn short_jumbf_is_invalid_header() {
    let result = validate_jumbf_structure(&[0, 0, 0, 8, b'j'], false);
    assert_eq!(result.primary_code(), ValidationCode::InvalidJumbfHeader);
}

#[test]
fn box_size_below_eight_is_invalid() {
    let mut b = vec![0, 0, 0, 4];
    b.extend_from_slice(b"jumb");
    let result = validate_jumbf_structure(&b, false);
    assert_eq!(result.primary_code(), ValidationCode::InvalidJumbfBoxSize);
    assert_eq!(result.issues.len(), 1);
}

#[test]
fn size_zero_extends_to_end() {
    let mut b = vec![0, 0, 0, 0];
    b.extend_from_slice(b"jumb");
    b.extend_from_slice(&[9, 9, 9]);
    assert!(validate_jumbf_structure(&b, false).valid);
}

#[test]
fn extended_size_valid() {
    let mut b = vec![0, 0, 0, 1];
    b.extend_from_slice(b"jumb");
    b.extend_from_slice(&[0, 0, 0, 0, 0, 0, 0, 16]);
    let result = validate_jumbf_structure(&b, false);
    assert!(result.valid);
    assert_eq!(result.primary_code(), ValidationCode::Valid);
}

#[test]
fn extended_size_without_room_is_truncated() {
    let mut b = vec![0, 0, 0, 1];
    b.extend_from_slice(b"jumb");
    b.extend_from_slice(&[0, 0, 0]);
    let result = validate_jumbf_structure(&b, false);
    assert_eq!(result.primary_code(), ValidationCode::TruncatedJumbf);
}

#[test]
fn extended_size_larger_than_buffer_is_truncated() {
    let mut b = vec![0, 0, 0, 1];
    b.extend_from_slice(b"jumb");
    b.extend_from_slice(&[0, 0, 0, 0, 0, 0, 1, 0]);
    let result = validate_jumbf_structure(&b, false);
    assert_eq!(result.primary_code(), ValidationCode::TruncatedJumbf);
}

fn strict_box(desc: &[u8; 4], uuid: &[u8]) -> Vec<u8> {
    let mut b = vec![0, 0, 0, 0];
    b.extend_from_slice(b"jumb");
    b.extend_from_slice(&[0, 0, 0, 0]);
    b.extend_from_slice(desc);
    b.extend_from_slice(uuid);
    b
}

#[test]
fn strict_accepts_store_uuid() {
    let b = strict_box(b"jumd", &STORE_UUID);
    assert!(validate_jumbf_structure(&b, true).valid);
}

#[test]
fn strict_rejects_other_uuid() {
    let b = strict_box(b"jumd", &[0u8; 16]);
    let result = validate_jumbf_structure(&b, true);
    assert!(!result.valid);
    assert_eq!(result.primary_code(), ValidationCode::InvalidC2paUuid);
    assert_eq!(result.issues[0].offset, Some(16));
}

#[test]
fn strict_missing_description_box() {
    let b = strict_box(b"abcd", &STORE_UUID);
    let result = validate_jumbf_structure(&b, true);
    assert_eq!(result.primary_code(), ValidationCode::MissingDescriptionBox);
    let mut short = vec![0, 0, 0, 8];
    short.extend_from_slice(b"jumb");
    let result = validate_jumbf_structure(&short, true);
    assert_eq!(result.primary_code(), ValidationCode::MissingDescriptionBox);
}

#[test]
fn strict_without_uuid_room_is_valid() {
    let b = strict_box(b"jumd", &[1, 2, 3]);
    assert!(validate_jumbf_structure(&b, true).valid);
    assert!(validate_manifest(&b, true, true).valid);
}

#[test]
fn wrapper_too_short_is_corrupted() {
    let result = validate_wrapper_bytes(b"C2PATXT");
    assert_eq!(result.primary_code(), ValidationCode::CorruptedWrapper);
}

#[test]
fn wrapper_bad_magic() {
    let mut w = wrapper_bytes(0, &[]);
    w[0] = b'X';
    assert_eq!(validate_wrapper_bytes(&w).primary_code(), ValidationCode::InvalidMagic);
}

#[test]
fn wrapper_bad_version() {
    let mut w = wrapper_bytes(0, &[]);
    w[8] = 2;
    let result = validate_wrapper_bytes(&w);
    assert_eq!(result.primary_code(), ValidationCode::UnsupportedVersion);
    assert_eq!(result.version, Some(2));
}

#[test]
fn wrapper_length_mismatch() {
    let mut payload = vec![0, 0, 0, 8];
    payload.extend_from_slice(b"jumb");
    let w = wrapper_bytes(9, &payload);
    let result = validate_wrapper_bytes(&w);
    assert_eq!(result.primary_code(), ValidationCode::LengthMismatch);
    assert_eq!(result.declared_length, Some(9));
    assert_eq!(result.actual_length, Some(8));
}

#[test]
fn wrapper_valid() {
    let mut payload = vec![0, 0, 0, 8];
    payload.extend_from_slice(b"jumb");
    let w = wrapper_bytes(8, &payload);
    let result = validate_wrapper_bytes(&w);
    assert!(result.valid);
    assert_eq!(result.jumbf_bytes, Some(payload));
}

#[test]
fn wrapper_with_empty_payload_is_empty_manifest() {
    let w = wrapper_bytes(0, &[]);
    assert_eq!(validate_wrapper_bytes(&w).primary_code(), ValidationCode::EmptyManifest);
}

#[test]
fn code_strings() {
    assert_eq!(ValidationCode::Valid.as_str(), "valid");
    assert_eq!(ValidationCode::CorruptedWrapper.as_str(), "manifest.text.corruptedWrapper");
    assert_eq!(ValidationCode::MultipleWrappers.as_str(), "manifest.text.multipleWrappers");
    assert_eq!(ValidationCode::InvalidMagic.as_str(), "manifest.text.invalidMagic");
    assert_eq!(ValidationCode::UnsupportedVersion.as_str(), "manifest.text.unsupportedVersion");
    assert_eq!(ValidationCode::LengthMismatch.as_str(), "manifest.text.lengthMismatch");
    assert_eq!(ValidationCode::EmptyManifest.as_str(), "manifest.text.emptyManifest");
    assert_eq!(ValidationCode::InvalidJumbfHeader.as_str(), "manifest.jumbf.invalidHeader");
    assert_eq!(ValidationCode::InvalidJumbfBoxSize.as_str(), "manifest.jumbf.invalidBoxSize");
    assert_eq!(
        ValidationCode::MissingDescriptionBox.as_str(),
        "manifest.jumbf.missingDescriptionBox"
    );
    assert_eq!(ValidationCode::InvalidC2paUuid.as_str(), "manifest.jumbf.invalidC2paUuid");
    assert_eq!(ValidationCode::TruncatedJumbf.as_str(), "manifest.jumbf.truncated");
}

#[test]
fn result_issues_accumulate() {
    let mut r = ValidationResult::new();
    assert!(r.valid);
    assert_eq!(r.primary_code(), ValidationCode::Valid);
    r.add_issue(ValidationCode::InvalidMagic, "first".to_string(), Some(0), None);
    r.add_issue(ValidationCode::LengthMismatch, "second".to_string(), None, None);
    assert!(!r.valid);
    assert_eq!(r.issues.len(), 2);
    assert_eq!(r.primary_code(), ValidationCode::InvalidMagic);
    assert_eq!(r.issues[1].message, "second");
}

#[test]
fn jumbf_issue_offsets_and_fields() {
    for strict in [false, true] {
        let r = validate_jumbf_structure(&[], strict);
        assert_eq!(r.issues.len(), 1);
        assert_eq!(r.issues[0].offset, Some(0));
        assert_eq!(r.issues[0].message, "JUMBF content is empty");
        assert_eq!(r.version, None);
        assert_eq!(r.declared_length, None);
        assert_eq!(r.actual_length, None);
        assert_eq!(r.manifest_bytes, None);
        assert_eq!(r.jumbf_bytes, Some(vec![]));
    }
    let r = validate_jumbf_structure(&[1, 2, 3], false);
    assert_eq!(r.issues[0].message, "JUMBF too short for box header: 3 bytes, minimum 8");
    let mut b = vec![0, 0, 0, 5];
    b.extend_from_slice(b"jumb");
    let r = validate_jumbf_structure(&b, false);
    assert_eq!(r.issues[0].message, "Invalid box size: 5 (minimum is 8)");
    assert_eq!(r.issues[0].offset, Some(0));
    let mut b = vec![0, 0, 0, 100];
    b.extend_from_slice(b"jumb");
    let r = validate_jumbf_structure(&b, false);
    assert_eq!(r.issues[0].message, "JUMBF truncated: declared size 100, actual 8");
    assert_eq!(r.issues[0].offset, Some(0));
}

#[test]
fn wrong_box_type_message_and_context() {
    let mut b = vec![0, 0, 0, 8];
    b.extend_from_slice(b"xxxx");
    let r = validate_jumbf_structure(&b, true);
    assert_eq!(r.issues.len(), 1);
    assert_eq!(r.issues[0].offset, Some(4));
    assert_eq!(r.issues[0].message, "Expected JUMBF superbox type 'jumb', got 'xxxx'");
    assert_eq!(r.issues[0].context, Some("box_type=[78, 78, 78, 78]".to_string()));
    let b = vec![0, 0, 0, 8, 0xff, b'a', 0x0a, b'b'];
    let r = validate_jumbf_structure(&b, false);
    assert_eq!(r.issues[0].message, "Expected JUMBF superbox type 'jumb', got '\u{fffd}a\nb'");
    assert_eq!(r.issues[0].context, Some("box_type=[ff, 61, 0a, 62]".to_string()));
}

#[test]
fn strict_issue_offsets() {
    let mut bare = vec![0, 0, 0, 8];
    bare.extend_from_slice(b"jumb");
    let r = validate_jumbf_structure(&bare, true);
    assert_eq!(r.primary_code(), ValidationCode::MissingDescriptionBox);
    assert_eq!(r.issues[0].offset, Some(8));
    assert!(validate_jumbf_structure(&bare, false).valid);
    let b = strict_box(b"abcd", &STORE_UUID);
    let r = validate_jumbf_structure(&b, true);
    assert_eq!(r.issues[0].offset, Some(12));
    assert_eq!(r.issues[0].message, "Expected description box 'jumd', got 'abcd'");
    let mut other = STORE_UUID;
    other[15] = 0x72;
    let b = strict_box(b"jumd", &other);
    let r = validate_jumbf_structure(&b, true);
    assert_eq!(r.issues.len(), 1);
    assert_eq!(r.issues[0].offset, Some(16));
    assert_eq!(
        r.issues[0].context,
        Some(
            "expected=[63, 32, 70, 61, 00, 11, 00, 10, 80, 00, 00, aa, 00, 38, 9b, 71], \
             found=[63, 32, 70, 61, 00, 11, 00, 10, 80, 00, 00, aa, 00, 38, 9b, 72]"
                .to_string()
        )
    );
}

#[test]
fn manifest_passes_nested_issues_on() {
    let r = validate_manifest(&[], true, true);
    assert_eq!(r.issues[0].offset, None);
    assert_eq!(r.manifest_bytes, Some(vec![]));
    let mut b = vec![0, 0, 0, 8];
    b.extend_from_slice(b"xxxx");
    let r = validate_manifest(&b, true, false);
    let j = validate_jumbf_structure(&b, false);
    assert_eq!(r.issues.len(), j.issues.len());
    assert_eq!(r.issues[0].message, j.issues[0].message);
    assert_eq!(r.issues[0].offset, j.issues[0].offset);
    assert_eq!(r.issues[0].context, j.issues[0].context);
    assert_eq!(r.jumbf_bytes, None);
    assert_eq!(r.actual_length, Some(8));
}

#[test]
fn wrapper_header_issue_fields() {
    let r = validate_wrapper_bytes(b"C2PATXT");
    assert_eq!(r.issues[0].offset, Some(0));
    assert_eq!(r.issues[0].message, "Wrapper too short: 7 bytes, minimum 13");
    assert_eq!(r.version, None);
    let mut w = wrapper_bytes(0, &[]);
    w[0] = b'X';
    let r = validate_wrapper_bytes(&w);
    assert_eq!(r.issues[0].offset, Some(0));
    assert_eq!(
        r.issues[0].message,
        "Invalid magic: expected 'C2PATXT\\0', got [88, 50, 80, 65, 84, 88, 84, 0]"
    );
    let mut w = wrapper_bytes(0, &[]);
    w[8] = 2;
    let r = validate_wrapper_bytes(&w);
    assert_eq!(r.issues.len(), 1);
    assert_eq!(r.issues[0].offset, Some(8));
    assert_eq!(r.issues[0].message, "Unsupported version: 2, expected 1");
    assert_eq!(r.declared_length, None);
    assert_eq!(r.actual_length, None);
    assert_eq!(r.jumbf_bytes, None);
    assert_eq!(r.manifest_bytes, None);
}

#[test]
fn wrapper_length_mismatch_fields() {
    let mut payload = vec![0, 0, 0, 8];
    payload.extend_from_slice(b"jumb");
    let r = validate_wrapper_bytes(&wrapper_bytes(5, &payload));
    assert_eq!(r.issues.len(), 1);
    assert_eq!(r.issues[0].offset, Some(9));
    assert_eq!(r.issues[0].message, "Length mismatch: declares 5 bytes, actual 8");
    assert_eq!(r.declared_length, Some(5));
    assert_eq!(r.actual_length, Some(8));
    assert_eq!(r.jumbf_bytes, None);
    assert_eq!(r.manifest_bytes, None);
}

#[test]
fn wrapper_fields_when_header_is_sound() {
    let r = validate_wrapper_bytes(&wrapper_bytes(0, &[]));
    assert_eq!(r.primary_code(), ValidationCode::EmptyManifest);
    assert_eq!(r.declared_length, Some(0));
    assert_eq!(r.actual_length, Some(0));
    assert_eq!(r.jumbf_bytes, Some(vec![]));
    let mut payload = vec![0, 0, 0, 8];
    payload.extend_from_slice(b"jumb");
    let r = validate_wrapper_bytes(&wrapper_bytes(8, &payload));
    assert!(r.valid);
    assert_eq!(r.version, Some(1));
    assert_eq!(r.declared_length, Some(8));
    assert_eq!(r.actual_length, Some(8));
    assert_eq!(r.manifest_bytes, Some(payload.clone()));
    assert_eq!(r.jumbf_bytes, Some(payload));
}
