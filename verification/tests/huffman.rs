use volto::h3::error::Code;
use volto::h3::huffman::{decode, CODES, EOS, MAX_CODE_BITS};

fn bytes(hex: &str) -> Vec<u8> {
    let digits: Vec<char> = hex.chars().filter(|c| !c.is_whitespace()).collect();
    digits
        .chunks(2)
        .map(|pair| u8::from_str_radix(&pair.iter().collect::<String>(), 16).expect("hex byte"))
        .collect()
}

/// The table is only usable if it really is a canonical prefix code, and a
/// single mistyped entry would break that. Re-deriving the codes from the
/// lengths alone and comparing is a complete check of both.
#[test]
fn the_table_is_a_canonical_prefix_code() {
    let count = |bits: usize| {
        CODES
            .iter()
            .filter(|(_, length)| usize::from(*length) == bits)
            .count() as u32
    };

    let mut code = 0u32;
    for bits in 1..=MAX_CODE_BITS {
        code = (code + count(bits - 1)) << 1;

        let mut expected = code;
        for (symbol, (actual, length)) in CODES.iter().enumerate() {
            if usize::from(*length) == bits {
                assert_eq!(
                    *actual, expected,
                    "symbol {symbol} is not canonical at {bits} bits"
                );
                expected += 1;
            }
        }
    }
}

/// Spot checks against RFC 7541 Appendix B, at both ends of the table.
#[test]
fn the_table_matches_the_rfc_appendix() {
    assert_eq!(CODES[0], (0x1ff8, 13));
    assert_eq!(CODES[usize::from(b' ')], (0x14, 6));
    assert_eq!(CODES[usize::from(b'0')], (0x0, 5));
    assert_eq!(CODES[usize::from(b'a')], (0x3, 5));
    assert_eq!(CODES[255], (0x3ffffee, 26));
    assert_eq!(CODES[usize::from(EOS)], (0x3fffffff, 30));
}

/// The literals of RFC 7541 Appendix C.4, which are the ones a real client
/// sends: a host name, a cache directive, and a custom name/value pair.
#[test]
fn the_rfc_7541_appendix_c4_examples_decode() {
    for (encoded, expected) in [
        ("f1e3 c2e5 f23a 6ba0 ab90 f4ff", &b"www.example.com"[..]),
        ("a8eb 1064 9cbf", &b"no-cache"[..]),
        ("25a8 49e9 5ba9 7d7f", &b"custom-key"[..]),
        ("25a8 49e9 5bb8 e8b4 bf", &b"custom-value"[..]),
    ] {
        assert_eq!(decode(&bytes(encoded)).expect("decodes"), expected);
    }
}

#[test]
fn an_empty_literal_decodes_to_nothing() {
    assert_eq!(decode(&[]).expect("decodes"), b"");
}

/// RFC 7541 §5.2: padding must be the leading bits of EOS, so a zero bit in
/// it is a decoding error rather than a symbol that happens to fit.
#[test]
fn padding_that_is_not_all_ones_is_rejected() {
    // "0" is 00000 (5 bits); padding the byte with zeros leaves 000.
    assert!(decode(&[0b0000_0000]).is_err());
    // The same symbol correctly padded.
    assert_eq!(decode(&[0b0000_0111]).expect("decodes"), b"0");
}

/// A whole byte of ones is eight bits of padding, one more than allowed.
#[test]
fn padding_longer_than_seven_bits_is_rejected() {
    let error = decode(&[0b0000_0111, 0b1111_1111]).expect_err("rejected");
    assert_eq!(error.code(), Code::QPACK_DECOMPRESSION_FAILED);
    assert!(!error.is_connection_error(), "{error:?}");
}

/// RFC 7541 §5.2: EOS must never appear as a symbol.
#[test]
fn the_eos_symbol_is_rejected() {
    // EOS is thirty ones, then five ones of padding: five bytes of 0xff.
    assert!(decode(&[0xff; 5]).is_err());
}

/// Every failure carries QPACK_DECOMPRESSION_FAILED and ends the stream
/// rather than the connection -- the class this server chose, and the one
/// RFC 9204 §7.4 states for the only such failure it does classify.
#[test]
fn every_failure_is_a_qpack_stream_error() {
    for input in [vec![0u8], vec![0xff; 5], vec![0b0000_0111, 0xff]] {
        let error = decode(&input).expect_err("rejected");
        assert_eq!(error.code(), Code::QPACK_DECOMPRESSION_FAILED);
        assert!(!error.is_connection_error(), "{error:?}");
    }
}

/// No code is the beginning of another, so no two texts share an encoding.
#[test]
fn no_code_is_a_prefix_of_another() {
    for (symbol, (code, bits)) in CODES.iter().enumerate() {
        for (other, (longer, longer_bits)) in CODES.iter().enumerate() {
            if symbol != other && bits <= longer_bits {
                assert_ne!(longer >> (longer_bits - bits), *code, "{symbol} and {other}");
            }
        }
    }
}

/// Every byte survives encoding by the table and decoding.
#[test]
fn every_byte_encodes_and_decodes() {
    let text: Vec<u8> = (0..=255).collect();
    let mut bits: Vec<bool> = Vec::new();
    for byte in &text {
        let (code, length) = CODES[usize::from(*byte)];
        for shift in (0..length).rev() {
            bits.push((code >> shift) & 1 == 1);
        }
    }
    while bits.len() % 8 != 0 {
        bits.push(true);
    }
    let encoded: Vec<u8> = bits
        .chunks(8)
        .map(|chunk| chunk.iter().fold(0u8, |byte, bit| byte << 1 | u8::from(*bit)))
        .collect();
    assert_eq!(decode(&encoded).expect("decodes"), text);
}

/// Each way a literal can fail, in the words it fails with.
#[test]
fn huffman_failures_say_what_was_wrong() {
    let said = |encoded: &[u8]| decode(encoded).unwrap_err().to_string();
    assert_eq!(
        said(&[0x00]),
        "QPACK_DECOMPRESSION_FAILED: Huffman padding is not all ones"
    );
    assert_eq!(
        said(&[0x07, 0xff]),
        "QPACK_DECOMPRESSION_FAILED: Huffman padding is longer than seven bits"
    );
    assert_eq!(
        said(&[0xff; 4]),
        "QPACK_DECOMPRESSION_FAILED: the EOS symbol appeared in a string literal"
    );
}
