use randomnumbervalidator::convert_to_bits_base_conversion;

#[test]
fn test_base_conversion_consistent_length() {
    // Test that base conversion produces consistent bit lengths
    // For range 2-8 (7 values), 4 numbers should produce ceil(4 * log2(7)) = 12 bits

    let result1 = convert_to_bits_base_conversion(&vec![2, 2, 2, 2], 2, 8);
    assert!(result1.is_ok());
    let bits1 = result1.unwrap();
    assert_eq!(bits1.len(), 12, "All minimum values should produce 12 bits");

    let result2 = convert_to_bits_base_conversion(&vec![8, 8, 8, 8], 2, 8);
    assert!(result2.is_ok());
    let bits2 = result2.unwrap();
    assert_eq!(bits2.len(), 12, "All maximum values should produce 12 bits");

    let result3 = convert_to_bits_base_conversion(&vec![2, 5, 8, 3], 2, 8);
    assert!(result3.is_ok());
    let bits3 = result3.unwrap();
    assert_eq!(bits3.len(), 12, "Mixed values should produce 12 bits");
}

#[test]
fn test_base_conversion_leading_zeros() {
    // Test that all-minimum values produce leading zeros
    let result = convert_to_bits_base_conversion(&vec![2, 2, 2, 2], 2, 8);
    assert!(result.is_ok());
    let bits = result.unwrap();

    // All minimum values (normalized to [0,0,0,0]) should be very small
    // Should have leading zeros
    let leading_zeros = bits.iter().take_while(|&&b| b == 0).count();
    assert!(leading_zeros > 0, "Should have leading zeros for small values");
}

#[test]
fn test_base_conversion_entropy_calculation() {
    // Test entropy calculation for different ranges

    // Range 0-1 (2 values): should produce exactly 1 bit per number
    let result = convert_to_bits_base_conversion(&vec![0, 1, 0, 1], 0, 1);
    assert!(result.is_ok());
    let bits = result.unwrap();
    assert_eq!(bits.len(), 4, "Range 0-1 should produce 4 bits for 4 numbers");

    // Range 0-3 (4 values): should produce exactly 2 bits per number
    let result = convert_to_bits_base_conversion(&vec![0, 1, 2, 3], 0, 3);
    assert!(result.is_ok());
    let bits = result.unwrap();
    assert_eq!(bits.len(), 8, "Range 0-3 should produce 8 bits for 4 numbers");

    // Range 0-7 (8 values): should produce exactly 3 bits per number
    let result = convert_to_bits_base_conversion(&vec![0, 1, 2, 3, 4, 5, 6, 7], 0, 7);
    assert!(result.is_ok());
    let bits = result.unwrap();
    assert_eq!(bits.len(), 24, "Range 0-7 should produce 24 bits for 8 numbers");
}

#[test]
fn test_base_conversion_different_values_same_length() {
    // Test that different sequences in the same range produce the same bit length
    let sequences = vec![
        vec![2, 2, 2, 2],
        vec![8, 8, 8, 8],
        vec![2, 8, 2, 8],
        vec![5, 5, 5, 5],
        vec![3, 4, 6, 7],
    ];

    let mut lengths = Vec::new();
    for seq in sequences {
        let result = convert_to_bits_base_conversion(&seq, 2, 8);
        assert!(result.is_ok());
        lengths.push(result.unwrap().len());
    }

    // All lengths should be the same
    assert!(
        lengths.iter().all(|&l| l == lengths[0]),
        "All sequences should produce same bit length, got: {:?}",
        lengths
    );
}

#[test]
fn test_base_conversion_uniqueness() {
    // Test that different sequences produce different bit patterns (mostly)
    let result1 = convert_to_bits_base_conversion(&vec![2, 2, 2, 2], 2, 8);
    let result2 = convert_to_bits_base_conversion(&vec![8, 8, 8, 8], 2, 8);
    let result3 = convert_to_bits_base_conversion(&vec![2, 8, 2, 8], 2, 8);

    assert!(result1.is_ok() && result2.is_ok() && result3.is_ok());

    let bits1 = result1.unwrap();
    let bits2 = result2.unwrap();
    let bits3 = result3.unwrap();

    // Different sequences should produce different bit patterns
    assert_ne!(bits1, bits2, "Different sequences should produce different bits");
    assert_ne!(bits1, bits3, "Different sequences should produce different bits");
    assert_ne!(bits2, bits3, "Different sequences should produce different bits");
}

#[test]
fn test_base_conversion_exact_value() {
    // Two binary digits: the sequence [0, 1] is the number 1 in two bits.
    let result = convert_to_bits_base_conversion(&vec![0, 1], 0, 1);
    assert_eq!(result.unwrap(), vec![0, 1]);

    // The sequence [1, 0] is the number 2 in two bits.
    let result = convert_to_bits_base_conversion(&vec![1, 0], 0, 1);
    assert_eq!(result.unwrap(), vec![1, 0]);

    // Base 10, digits 1-2-3 starting at 1: value 0*100 + 1*10 + 2 = 12,
    // in ceil(3 * log2(10)) = 10 bits: 0000001100.
    let result = convert_to_bits_base_conversion(&vec![1, 2, 3], 1, 10);
    assert_eq!(result.unwrap(), vec![0, 0, 0, 0, 0, 0, 1, 1, 0, 0]);
}
