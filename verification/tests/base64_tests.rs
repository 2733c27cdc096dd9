use randomnumbervalidator::parse_base64_to_bits;
use randomnumbervalidator::InputFormat;

#[test]
fn test_base64_basic() {
    // "Hello" in base64 is "SGVsbG8="
    let result = parse_base64_to_bits("SGVsbG8=");
    assert!(result.is_ok());
    let bits = result.unwrap();
    // "Hello" = 5 bytes = 40 bits
    assert_eq!(bits.len(), 40);
    // The first byte is 'H' = 0x48 = 01001000
    assert_eq!(&bits[..8], &[0, 1, 0, 0, 1, 0, 0, 0]);
}

#[test]
fn test_base64_with_whitespace() {
    // Base64 with whitespace should be handled
    let result = parse_base64_to_bits("SGVs bG8=");
    assert!(result.is_ok());
    let bits = result.unwrap();
    assert_eq!(bits.len(), 40);
}

#[test]
fn test_base64_invalid() {
    // Invalid base64 should fail
    let result = parse_base64_to_bits("!!!invalid!!!");
    assert!(result.is_err());
    assert!(result.unwrap_err().contains("Invalid base64"));
}

#[test]
fn test_base64_empty() {
    // Empty base64 should fail
    let result = parse_base64_to_bits("");
    assert!(result.is_err());
}

#[test]
fn test_base64_missing_padding() {
    // Base64 without padding should work (auto-padded)
    // "Hello" in base64 is "SGVsbG8=" but we test without the padding
    let result = parse_base64_to_bits("SGVsbG8");
    assert!(result.is_ok());
    let bits = result.unwrap();
    assert_eq!(bits.len(), 40); // 5 bytes = 40 bits
}

#[test]
fn test_base64_auto_padding() {
    // Test different padding scenarios
    let test_cases = vec![
        ("SGVsbG8", 40),  // "Hello" - needs 1 padding
        ("Zm9v", 24),     // "foo" - needs 0 padding (already multiple of 4)
        ("SGVsbG8=", 40), // "Hello" - already has padding
    ];

    for (input, expected_bits) in test_cases {
        let result = parse_base64_to_bits(input);
        assert!(result.is_ok(), "Failed to parse: {}", input);
        assert_eq!(result.unwrap().len(), expected_bits, "Wrong bit count for: {}", input);
    }
}

#[test]
fn test_base64_binary_data() {
    // Test with actual random bytes encoded as base64
    // 16 bytes = 128 bits
    let result = parse_base64_to_bits("AAAAAAAAAAAAAAAAAAAAAA==");
    assert!(result.is_ok());
    let bits = result.unwrap();
    assert_eq!(bits.len(), 128);
    // All zeros
    assert!(bits.iter().all(|&b| b == 0));
}

#[test]
fn test_base64_empty_message() {
    let result = parse_base64_to_bits("");
    assert!(result.is_err());
    assert!(result.unwrap_err().contains("Base64 decoded to empty data"));
}

#[test]
fn test_input_format_default() {
    let format = InputFormat::default();
    assert_eq!(format, InputFormat::Numbers);
}
