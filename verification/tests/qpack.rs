use bytes::BytesMut;
use volto::h3::error::Code;
use volto::h3::qpack::{decode, encode, put_int, put_string, Field, Reader, STATIC_TABLE};
use volto::h3::MAX_FIELD_SECTION_SIZE;

/// Byte strings of all lengths up to 64, from a fixed pseudo-random sequence.
fn arbitrary(count: usize) -> Vec<Vec<u8>> {
    let mut state = 0x9e37_79b9_7f4a_7c15u64;
    let mut next = || {
        state = state.wrapping_mul(6364136223846793005).wrapping_add(1442695040888963407);
        (state >> 33) as u8
    };
    (0..count)
        .map(|n| (0..n % 65).map(|_| next()).collect())
        .collect()
}

fn section(body: &[u8]) -> Vec<u8> {
    let mut block = vec![0, 0];
    block.extend_from_slice(body);
    block
}

fn decoded(block: &[u8]) -> Vec<(String, String)> {
    decode(block, MAX_FIELD_SECTION_SIZE)
        .expect("decodes")
        .into_iter()
        .map(|field| {
            (
                String::from_utf8(field.name).expect("utf-8 name"),
                String::from_utf8(field.value).expect("utf-8 value"),
            )
        })
        .collect()
}

#[test]
fn the_static_table_matches_rfc_9204_appendix_a() {
    assert_eq!(STATIC_TABLE.len(), 99);
    assert_eq!(STATIC_TABLE[0], (":authority", ""));
    assert_eq!(STATIC_TABLE[17], (":method", "GET"));
    assert_eq!(STATIC_TABLE[25], (":status", "200"));
    assert_eq!(STATIC_TABLE[98], ("x-frame-options", "sameorigin"));
}

/// RFC 9204 Appendix B.1: a field section that uses no dynamic table at
/// all, one literal field line with the static name reference `:path`.
#[test]
fn the_rfc_9204_appendix_b1_example_decodes() {
    let block = [
        0x00, 0x00, 0x51, 0x0b, 0x2f, 0x69, 0x6e, 0x64, 0x65, 0x78, 0x2e, 0x68, 0x74, 0x6d,
        0x6c,
    ];
    assert_eq!(
        decoded(&block),
        vec![(":path".to_owned(), "/index.html".to_owned())]
    );
}

/// An indexed static field line, which is how every pseudo-header of a
/// CONNECT request arrives.
#[test]
fn indexed_static_field_lines_decode() {
    // 0xcf = 1 (indexed) 1 (static) 001111 = index 15, `:method: CONNECT`.
    // 0xd7 = index 23, `:scheme: https`.
    assert_eq!(
        decoded(&section(&[0xcf, 0xd7])),
        vec![
            (":method".to_owned(), "CONNECT".to_owned()),
            (":scheme".to_owned(), "https".to_owned()),
        ]
    );
}

/// A literal with a static name reference, Huffman-encoded, which is what
/// a client that compresses its field values emits for `:authority` and
/// `:path`.
#[test]
fn a_huffman_literal_with_a_name_reference_decodes() {
    // 0x50 = 0101 0000: literal, N=0, T=1 (static), name index 0
    // (`:authority`). Then 0x8c = H=1, length 12, followed by the twelve
    // Huffman bytes RFC 7541 Appendix C.4 gives for "www.example.com".
    let mut body = vec![0x50, 0x8c];
    body.extend_from_slice(&[
        0xf1, 0xe3, 0xc2, 0xe5, 0xf2, 0x3a, 0x6b, 0xa0, 0xab, 0x90, 0xf4, 0xff,
    ]);
    assert_eq!(
        decoded(&section(&body)),
        vec![(":authority".to_owned(), "www.example.com".to_owned())]
    );
}

/// The whole reason the dynamic table can be left out: a reference to it is
/// impossible after advertising a zero capacity, so it is a violation
/// rather than a gap.
#[test]
fn dynamic_table_references_are_refused() {
    for body in [
        vec![0x80],       // indexed field line, T = 0 (dynamic)
        vec![0x10],       // indexed field line with post-base index
        vec![0x40, 0x00], // literal with name reference, T = 0 (dynamic)
        vec![0x00, 0x00], // literal with post-base name reference
    ] {
        let error =
            decode(&section(&body), MAX_FIELD_SECTION_SIZE).expect_err("refused");
        assert_eq!(error.code(), Code::QPACK_DECOMPRESSION_FAILED);
        assert!(error.is_connection_error(), "{error:?}");
    }
}

/// RFC 9204 §4.5.1.1: with a zero table capacity nothing can have been
/// inserted, so a non-zero count is one no conformant encoder could send --
/// one of the three failures the RFC states as a connection error.
#[test]
fn a_non_zero_required_insert_count_is_refused() {
    let error =
        decode(&[0x01, 0x00, 0xd7], MAX_FIELD_SECTION_SIZE).expect_err("refused");
    assert_eq!(error.code(), Code::QPACK_DECOMPRESSION_FAILED);
    assert!(error.is_connection_error(), "{error:?}");
}

/// RFC 9204 §4.5.1.2 makes a field block with a Sign bit of 1 invalid
/// "if the value of Required Insert Count is less than or equal to the
/// value of Delta Base" -- and this decoder's Required Insert Count is
/// always zero, so the Sign bit alone settles it.
#[test]
fn a_set_sign_bit_is_refused() {
    // 0x00 = Required Insert Count 0, 0x81 = S = 1 with Delta Base 1, then
    // an ordinary indexed static field line that would otherwise decode.
    let error =
        decode(&[0x00, 0x81, 0xd7], MAX_FIELD_SECTION_SIZE).expect_err("refused");
    assert_eq!(error.code(), Code::QPACK_DECOMPRESSION_FAILED);
    assert!(error.is_connection_error(), "{error:?}");

    // S = 0 with the same Delta Base is the ordinary case and decodes.
    assert_eq!(
        decoded(&[0x00, 0x01, 0xd7]),
        vec![(":scheme".to_owned(), "https".to_owned())]
    );
}

/// RFC 9204 §3.1 states this one as a connection error too.
#[test]
fn a_static_index_past_the_table_is_refused() {
    // 0xff 0x24 = indexed static, index 63 + 36 = 99, one past the end.
    let error = decode(
        &section(&[0xff, 0x24]),
        MAX_FIELD_SECTION_SIZE,
    )
    .expect_err("refused");
    assert_eq!(error.code(), Code::QPACK_DECOMPRESSION_FAILED);
    assert!(error.is_connection_error(), "{error:?}");
    // The last legal index still decodes.
    assert_eq!(
        decoded(&section(&[0xff, 0x23])),
        vec![("x-frame-options".to_owned(), "sameorigin".to_owned())]
    );
}

/// The RFC states no class for a truncated representation, so this server
/// picks the narrower one: the request dies, the connection does not.
#[test]
fn a_truncated_representation_is_refused() {
    for body in [
        vec![0x51],             // a literal name whose length byte is missing
        vec![0x51, 0x0b, b'/'], // a literal name shorter than it declared
        vec![0xff],             // a prefixed integer with no continuation
    ] {
        let error =
            decode(&section(&body), MAX_FIELD_SECTION_SIZE).expect_err("refused");
        assert_eq!(error.code(), Code::QPACK_DECOMPRESSION_FAILED);
        assert!(!error.is_connection_error(), "{error:?}");
    }
}

/// RFC 9204 §7.4 makes an undecodable value a *stream* error on a request
/// stream, which is the only class the RFC states for this decoder's
/// remaining failures.
#[test]
fn a_prefixed_integer_that_overflows_is_refused() {
    let mut body = vec![0xff];
    body.extend_from_slice(&[0xff; 12]);
    body.push(0x01);

    let error =
        decode(&section(&body), MAX_FIELD_SECTION_SIZE).expect_err("refused");
    assert_eq!(error.code(), Code::QPACK_DECOMPRESSION_FAILED);
    assert!(!error.is_connection_error(), "{error:?}");
}

/// Prefixed integers round-trip at every boundary the prefix widths this
/// codec uses can hit (RFC 7541 §5.1).
#[test]
fn prefixed_integers_round_trip() {
    for prefix_bits in [3u32, 4, 6, 7, 8] {
        let mask = u64::from((1u16 << prefix_bits) - 1);
        for value in [0, 1, mask - 1, mask, mask + 1, 1337, u64::from(u32::MAX)] {
            let mut buf = BytesMut::new();
            put_int(&mut buf, prefix_bits, 0, value);

            let (flags, decoded) = Reader::new(&buf).take_int(prefix_bits).expect("decodes");
            assert_eq!((flags, decoded), (0, value), "{prefix_bits}-bit prefix");
        }
    }
}

/// The example RFC 7541 §5.1 works through: 1337 in a five-bit prefix is
/// `31, 154, 10`. This codec has no five-bit prefix, but the algorithm is
/// the same one, so the check is worth having on a width it does use.
#[test]
fn prefixed_integers_match_the_rfc_encoding() {
    let mut buf = BytesMut::new();
    put_int(&mut buf, 7, 0, 1337);
    assert_eq!(&buf[..], &[127, 186, 9]);

    let mut buf = BytesMut::new();
    put_int(&mut buf, 8, 0, 42);
    assert_eq!(&buf[..], &[42]);
}

/// The whole of a 200 response to a CONNECT: prefix, then one byte.
#[test]
fn a_200_response_encodes_to_a_single_indexed_field() {
    let mut buf = BytesMut::new();
    encode(&mut buf, &[(&b":status"[..], &b"200"[..])]);
    assert_eq!(&buf[..], &[0x00, 0x00, 0xd9]);
}

/// A status the table does not carry keeps the `:status` name reference and
/// spells out the value.
#[test]
fn an_unlisted_status_uses_the_static_name() {
    let mut buf = BytesMut::new();
    encode(&mut buf, &[(&b":status"[..], &b"407"[..])]);
    // 0x5f 0x09 = literal with static name reference, index 15 + 9 = 24
    // (`:status`), then a three-byte literal value.
    assert_eq!(&buf[..], &[0x00, 0x00, 0x5f, 0x09, 0x03, b'4', b'0', b'7']);
}

/// A field whose name is not in the table at all, such as the RFC 9209
/// `proxy-status` this server answers refusals with.
#[test]
fn an_unlisted_name_encodes_as_a_literal() {
    let mut buf = BytesMut::new();
    encode(&mut buf, &[(&b"proxy-status"[..], &b"volto"[..])]);

    // 0x27 = 001 (literal name) 0 (N) 0 (H) 111: a three-bit length
    // prefix at its maximum, so the remaining 5 of the 12 name bytes
    // follow as a continuation byte. The value's length fits its own
    // seven-bit prefix.
    let mut expected = vec![0x00, 0x00, 0x27, 0x05];
    expected.extend_from_slice(b"proxy-status");
    expected.push(5);
    expected.extend_from_slice(b"volto");
    assert_eq!(&buf[..], &expected[..]);
}

/// Everything this server sends must come back out of its own decoder.
#[test]
fn encoded_sections_decode_to_what_went_in() {
    let fields: [(&[u8], &[u8]); 4] = [
        (b":status", b"200"),
        (b"capsule-protocol", b"?1"),
        (b"proxy-status", b"volto; error=connection_refused"),
        (b"proxy-authenticate", b"Basic realm=\"volto\""),
    ];

    let mut buf = BytesMut::new();
    encode(&mut buf, &fields);

    let expected: Vec<(String, String)> = fields
        .iter()
        .map(|(name, value)| {
            (
                String::from_utf8_lossy(name).into_owned(),
                String::from_utf8_lossy(value).into_owned(),
            )
        })
        .collect();
    assert_eq!(decoded(&buf), expected);
}

/// The advertised limit has to bite on the decode side too: a peer that
/// ignores SETTINGS must not be able to make this server accumulate.
#[test]
fn a_field_section_past_the_limit_is_refused() {
    let mut buf = BytesMut::new();
    encode(&mut buf, &[(&b"x-big"[..], &vec![b'a'; 4096][..])]);

    assert!(decode(&buf, MAX_FIELD_SECTION_SIZE).is_ok());

    let error = decode(&buf, 256).expect_err("refused");
    assert_eq!(error.code(), Code::H3_EXCESSIVE_LOAD);
    assert!(
        !error.is_connection_error(),
        "one oversized request is a stream problem, not a connection one"
    );
}

/// The size formula of RFC 9114 §4.2.2 counts 32 bytes of overhead per
/// field, so a section of many tiny fields is bounded too.
#[test]
fn the_per_field_overhead_counts_towards_the_limit() {
    let field = Field {
        name: b"a".to_vec(),
        value: b"b".to_vec(),
    };
    assert_eq!(field.size(), 34);
}

/// The decoder reads untrusted bytes, so no input may panic it.
#[test]
fn arbitrary_bytes_never_panic_the_decoder() {
    for block in arbitrary(2048) {
        let _ = decode(&block, MAX_FIELD_SECTION_SIZE);
        let _ = decode(&section(&block), MAX_FIELD_SECTION_SIZE);
    }
}

/// The widest prefixed integer reads back, and one past it does not.
#[test]
fn prefixed_integers_reach_the_end_of_their_range() {
    for prefix_bits in [3u32, 4, 6, 7, 8] {
        let mut buf = BytesMut::new();
        put_int(&mut buf, prefix_bits, 0, u64::MAX);
        let (flags, value) = Reader::new(&buf).take_int(prefix_bits).expect("decodes");
        assert_eq!((flags, value), (0, u64::MAX), "{prefix_bits}-bit prefix");
    }
    // 127 + 2^64 - 127 in a seven-bit prefix.
    let past = [0x7f, 0x81, 0xff, 0xff, 0xff, 0xff, 0xff, 0xff, 0xff, 0xff, 0x01];
    let error = Reader::new(&past).take_int(7).expect_err("overflows");
    assert_eq!(
        error.to_string(),
        "QPACK_DECOMPRESSION_FAILED: prefixed integer overflows"
    );
}

/// Flags survive beside the integer they share a byte with.
#[test]
fn flags_survive_beside_an_integer() {
    let mut buf = BytesMut::new();
    put_int(&mut buf, 4, 0b0101, 1000);
    assert_eq!(buf[0], 0x5f);
    let (flags, value) = Reader::new(&buf).take_int(4).expect("decodes");
    assert_eq!((flags, value), (0b0101, 1000));
}

/// A string literal reads back, Huffman coding never being used.
#[test]
fn string_literals_read_back() {
    for text in [&b""[..], b"volto", &[0xff; 300]] {
        let mut buf = BytesMut::new();
        put_string(&mut buf, 3, 0b0010, text);
        assert_eq!(Reader::new(&buf).take_string(3).expect("decodes"), text);
    }
}

/// Each way a section can fail, in the words it fails with.
#[test]
fn section_failures_say_what_was_wrong() {
    let said = |block: &[u8], limit: u64| decode(block, limit).unwrap_err().to_string();
    assert_eq!(
        said(&[0x01], MAX_FIELD_SECTION_SIZE),
        "QPACK_DECOMPRESSION_FAILED: a non-zero Required Insert Count with no dynamic table"
    );
    assert_eq!(
        said(&[0x00, 0x80], MAX_FIELD_SECTION_SIZE),
        "QPACK_DECOMPRESSION_FAILED: a Sign bit of 1 with a zero Required Insert Count"
    );
    assert_eq!(
        said(&section(&[0x80]), MAX_FIELD_SECTION_SIZE),
        "QPACK_DECOMPRESSION_FAILED: a dynamic table reference with a zero table capacity"
    );
    assert_eq!(
        said(&section(&[0xff, 0x24]), MAX_FIELD_SECTION_SIZE),
        "QPACK_DECOMPRESSION_FAILED: static table index out of range"
    );
    assert_eq!(
        said(&[], MAX_FIELD_SECTION_SIZE),
        "QPACK_DECOMPRESSION_FAILED: the field section ended mid-representation"
    );
    let error = decode(&section(&[0xcf]), 45).unwrap_err();
    assert_eq!(
        error.to_string(),
        "H3_EXCESSIVE_LOAD: field section exceeds the advertised 45 bytes"
    );
    assert!(error.is_field_section_too_large());
    // `:method` and `CONNECT` are fourteen bytes, and every field counts thirty-two more.
    assert!(decode(&section(&[0xcf]), 46).is_ok());
}

/// The first entry with a name is the one that is referred to.
#[test]
fn the_first_name_in_the_table_is_used() {
    let mut buf = BytesMut::new();
    encode(&mut buf, &[(&b":method"[..], &b"PATCH"[..])]);
    assert_eq!(&buf[..], &[0x00, 0x00, 0x5f, 0x00, 0x05, b'P', b'A', b'T', b'C', b'H']);
}
