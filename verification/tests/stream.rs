use bytes::{Bytes, BytesMut};
use volto::h3::connection::Shared;
use volto::h3::error::{Code, ConnectionError, StreamError, TransferError, TransportError};
use volto::h3::frame::{put_header, BufferBudget, Error, HEADERS};
use volto::h3::message::{FieldValue, Fields, Method, Status};
use volto::h3::qpack::{self, Field};
use volto::h3::stream::{
    answer, build_request, trim_optional_whitespace, Answer, Delivery, Peek, Reader, Received,
    ResetWatch, Resolved, Resolver, Stopped, Stream, Writer,
};

fn field(name: &str, value: &str) -> Field {
    Field {
        name: name.as_bytes().to_vec(),
        value: value.as_bytes().to_vec(),
    }
}

/// The same field lines once more.
fn copied(fields: &[Field]) -> Vec<Field> {
    fields
        .iter()
        .map(|field| Field {
            name: field.name.clone(),
            value: field.value.clone(),
        })
        .collect()
}

/// A classic CONNECT: authority only, exactly as RFC 9114 §4.4 requires.
fn connect() -> Vec<Field> {
    vec![
        field(":method", "CONNECT"),
        field(":authority", "example.com:443"),
    ]
}

/// A CONNECT-UDP request, the shape RFC 9298 §3 and RFC 9220 §3 give it.
fn connect_udp() -> Vec<Field> {
    vec![
        field(":method", "CONNECT"),
        field(":protocol", "connect-udp"),
        field(":scheme", "https"),
        field(":authority", "proxy.example:443"),
        field(":path", "/.well-known/masque/udp/192.0.2.1/443/"),
    ]
}

fn refused(fields: Vec<Field>) {
    let error = build_request(fields).expect_err("malformed");
    assert_eq!(error.code(), Code::H3_MESSAGE_ERROR);
    assert!(
        !error.is_connection_error(),
        "a malformed message ends the stream, not the connection"
    );
}

#[test]
fn a_classic_connect_becomes_an_authority_form_request() {
    let request = build_request(connect()).expect("accepted");

    assert_eq!(request.method, Method::Connect);
    assert_eq!(request.authority.as_deref(), Some("example.com:443"));
    assert_eq!(request.scheme, None);
    assert_eq!(request.path, None);
    assert_eq!(request.query, None);
    assert_eq!(request.protocol, None);
}

#[test]
fn an_extended_connect_keeps_its_protocol_scheme_and_path() {
    let request = build_request(connect_udp()).expect("accepted");

    assert_eq!(request.scheme.as_deref(), Some("https"));
    assert_eq!(
        request.path.as_deref(),
        Some("/.well-known/masque/udp/192.0.2.1/443/")
    );
    assert_eq!(request.query, None);
    assert_eq!(request.protocol.as_deref(), Some("connect-udp"));
}

/// The point of decoding `:protocol` as bytes: an unimplemented protocol
/// has to reach the router, which answers it with a 501, rather than being
/// rejected as malformed before anyone can look at it.
#[test]
fn an_unknown_protocol_is_accepted_so_it_can_be_answered() {
    let mut fields = connect_udp();
    fields[1] = field(":protocol", "connect-ip");

    let request = build_request(fields).expect("accepted");
    assert_eq!(request.protocol.as_deref(), Some("connect-ip"));
}

#[test]
fn an_ordinary_request_is_accepted() {
    let request = build_request(vec![
        field(":method", "GET"),
        field(":scheme", "https"),
        field(":authority", "example.com"),
        field(":path", "/"),
    ])
    .expect("accepted");

    assert_eq!(request.method, Method::Other("GET".into()));
    assert_eq!(request.path.as_deref(), Some("/"));
}

/// RFC 9114 §4.3.1 lets the authority arrive as a Host field instead.
#[test]
fn host_stands_in_for_an_absent_authority() {
    let request = build_request(vec![
        field(":method", "GET"),
        field(":scheme", "https"),
        field(":path", "/"),
        field("host", "example.com"),
    ])
    .expect("accepted");

    assert_eq!(request.authority.as_deref(), Some("example.com"));
}

#[test]
fn authority_and_host_must_agree() {
    refused(vec![
        field(":method", "GET"),
        field(":scheme", "https"),
        field(":authority", "one.example"),
        field(":path", "/"),
        field("host", "other.example"),
    ]);

    // A Host field that says the same thing is not a disagreement, on an
    // ordinary request or an extended CONNECT.
    let mut agreeing = connect_udp();
    agreeing.push(field("host", "proxy.example:443"));
    assert!(build_request(agreeing).is_ok());
}

/// A second Host field is refused rather than resolved: the check above
/// reads one of them, and the other would be free to say anything.
#[test]
fn a_repeated_host_field_is_refused() {
    for second in ["one.example", "other.example"] {
        refused(vec![
            field(":method", "GET"),
            field(":scheme", "https"),
            field(":path", "/"),
            field("host", "one.example"),
            field("host", second),
        ]);
    }

    // Repeating a field that is not Host is ordinary HTTP.
    let mut repeated = connect();
    repeated.push(field("x-volto-probe", "one"));
    repeated.push(field("x-volto-probe", "two"));
    assert!(build_request(repeated).is_ok());
}

/// The table of malformed requests, each naming the rule it breaks.
#[test]
fn malformed_requests_are_refused() {
    // RFC 9114 §4.4: a classic CONNECT omits :scheme and :path.
    let mut with_path = connect();
    with_path.push(field(":path", "/"));
    refused(with_path);

    let mut with_scheme = connect();
    with_scheme.push(field(":scheme", "https"));
    refused(with_scheme);

    // RFC 9114 §4.4: and it must carry :authority.
    refused(vec![field(":method", "CONNECT")]);

    // RFC 8441 §4: an extended CONNECT needs all three.
    for missing in [":scheme", ":path", ":authority"] {
        let fields = connect_udp()
            .into_iter()
            .filter(|f| f.name.as_slice() != missing.as_bytes())
            .collect();
        refused(fields);
    }

    // RFC 9114 §4.3.1: the agreement rule holds for an extended CONNECT
    // too, where :authority is mandatory rather than optional.
    let mut disagreeing = connect_udp();
    disagreeing.push(field("host", "other.example:443"));
    refused(disagreeing);

    // RFC 9114 §4.3 with RFC 8441 §4: :protocol is defined for the
    // extended CONNECT method only, so anywhere else it is an undefined
    // pseudo-header field.
    refused(vec![
        field(":method", "GET"),
        field(":protocol", "connect-udp"),
        field(":scheme", "https"),
        field(":authority", "example.com"),
        field(":path", "/"),
    ]);

    // RFC 9114 §4.3: only the five defined pseudo-headers, each once, all
    // before any regular field, and none defined for responses.
    let mut undefined = connect();
    undefined.insert(0, field(":volto", "1"));
    refused(undefined);

    let mut status = connect();
    status.insert(0, field(":status", "200"));
    refused(status);

    let mut repeated = connect();
    repeated.push(field(":authority", "example.com:443"));
    refused(repeated);

    refused(vec![
        field(":method", "CONNECT"),
        field("user-agent", "volto-test"),
        field(":authority", "example.com:443"),
    ]);

    // RFC 9114 §4.3.1: no request at all without :method.
    refused(vec![field(":authority", "example.com:443")]);

    // RFC 9114 §4.3.1: a present pseudo-header must not be empty.
    refused(vec![field(":method", "CONNECT"), field(":authority", "")]);

    // RFC 9114 §4.2: uppercase field names, and the Connection field.
    refused(vec![
        field(":method", "CONNECT"),
        field(":authority", "example.com:443"),
        field("User-Agent", "volto-test"),
    ]);

    let mut connection = connect();
    connection.push(field("connection", "keep-alive"));
    refused(connection);

    // RFC 9114 §4.2: TE may only say "trailers".
    let mut te = connect();
    te.push(field("te", "gzip"));
    refused(te);
}

/// RFC 9110 §5.5: the whitespace around a field value is not part of the
/// value, so what every reading below sees is what was sent rather than how
/// it was padded.
#[test]
fn optional_whitespace_is_excluded_from_a_field_value() {
    for (padded, value) in [
        (&b" \tvalue \t"[..], &b"value"[..]),
        (b"value", b"value"),
        (b" \t ", b""),
        (b"", b""),
        // Only the ends: whitespace inside a value is part of it.
        (b" a b ", b"a b"),
    ] {
        assert_eq!(trim_optional_whitespace(padded), value, "{padded:?}");
    }

    // The field this most matters for: `auth` reads a scheme and a token,
    // and a leading space would leave it reading a scheme that is empty.
    let mut padded = connect();
    padded.push(field("proxy-authorization", " Basic dXNlcjE6czNjcmV0\t"));
    let request = build_request(padded).expect("accepted");
    assert_eq!(
        request
            .fields
            .get("proxy-authorization")
            .map(FieldValue::as_bytes),
        Some(&b"Basic dXNlcjE6czNjcmV0"[..])
    );

    // And the :authority/Host agreement of RFC 9114 §4.3.1 is judged on the
    // values rather than on their padding.
    assert!(build_request(vec![
        field(":method", "GET"),
        field(":scheme", "https"),
        field(":authority", "example.com"),
        field(":path", "/"),
        field("host", "  example.com "),
    ])
    .is_ok());
}

/// The one exception §4.2 makes for TE.
#[test]
fn te_trailers_is_allowed() {
    let mut fields = connect();
    fields.push(field("te", "trailers"));
    assert!(build_request(fields).is_ok());
}

/// Ordinary fields survive intact -- this is how credentials reach `auth`.
#[test]
fn regular_fields_reach_the_request() {
    let mut fields = connect();
    fields.push(field("proxy-authorization", "Basic dXNlcjE6czNjcmV0"));

    let request = build_request(fields).expect("accepted");
    assert_eq!(
        request
            .fields
            .get("proxy-authorization")
            .map(FieldValue::as_bytes),
        Some(&b"Basic dXNlcjE6czNjcmV0"[..])
    );
}

/// The query is kept apart from the path, because the CONNECT-UDP template
/// is a rule about each (RFC 9298 §2).
#[test]
fn a_path_carries_its_query_separately() {
    let with_query = |path: &str| {
        let mut fields = connect_udp();
        fields[4] = field(":path", path);
        let request = build_request(fields).expect("accepted");
        (request.path.clone().expect("a path"), request.query.clone())
    };

    let (path, query) = with_query("/a/b?x=1&y=2");
    assert_eq!(&*path, "/a/b");
    assert_eq!(query.as_deref(), Some("x=1&y=2"));

    // A trailing "?" is a query that is present and empty, which is not the
    // same as one that is absent.
    let (path, query) = with_query("/a/b?");
    assert_eq!(&*path, "/a/b");
    assert_eq!(query.as_deref(), Some(""));

    let (path, query) = with_query("/a/b");
    assert_eq!(&*path, "/a/b");
    assert_eq!(query, None);
}

/// The pseudo-headers that name a target are checked for the characters
/// RFC 3986 allows them, since nothing downstream would refuse the rest
/// as loudly.
#[test]
fn pseudo_headers_that_name_a_target_are_checked_for_syntax() {
    let replacing = |name: &str, value: &str| {
        let mut fields = connect_udp();
        for existing in &mut fields {
            if existing.name.as_slice() == name.as_bytes() {
                *existing = field(name, value);
            }
        }
        fields
    };

    // A scheme is ALPHA then ALPHA / DIGIT / "+" / "-" / "." (RFC 3986 §3.1).
    assert!(build_request(replacing(":scheme", "coap+tcp")).is_ok());
    for scheme in ["1https", "http s", "http/1"] {
        refused(replacing(":scheme", scheme));
    }

    // An authority is unreserved / pct-encoded / sub-delims / ":@[]"
    // (RFC 3986 §3.2); its shape is `tunnel::tcp`'s to judge, not this.
    assert!(build_request(replacing(":authority", "[2001:db8::1]:443")).is_ok());
    assert!(build_request(replacing(":authority", "user@host:443")).is_ok());
    for authority in ["proxy example:443", "proxy.example:443/", "proxy\u{7f}:443"] {
        refused(replacing(":authority", authority));
    }

    // A path is an absolute path, and a fragment is not part of a target.
    for path in ["masque/udp/", "/a b", "/a#b", "/a\u{1}b"] {
        refused(replacing(":path", path));
    }

    // A query is pchar / "/" / "?" (RFC 3986 §3.4), and "#" opens a fragment
    // there as much as it does in a path.
    assert!(build_request(replacing(":path", "/a?b=c&d=%20e")).is_ok());
    for path in ["/a?b#c", "/a?b[c", "/a?b c", "/a?b\u{1}c"] {
        refused(replacing(":path", path));
    }

    // §4.3.1's asterisk form is OPTIONS's and is not a path: an ordinary
    // request may carry it so that the answer is the 501 an unimplemented
    // method gets, and an extended CONNECT may not, because RFC 8441 §4 asks
    // it for the :path of a target URI.
    let mut options = vec![
        field(":method", "OPTIONS"),
        field(":scheme", "https"),
        field(":authority", "proxy.example:443"),
        field(":path", "*"),
    ];
    assert!(build_request(copied(&options)).is_ok());
    refused(replacing(":path", "*"));

    // And an ordinary request is not thereby excused a real path.
    options[3] = field(":path", "masque/udp/");
    refused(options);
}

/// The words each malformed request is refused with, one per rule.
#[test]
fn malformed_requests_say_which_rule_they_break() {
    let said = |fields: Vec<Field>| build_request(fields).unwrap_err().to_string();
    let with = |mut fields: Vec<Field>, name: &str, value: &str| {
        fields.push(field(name, value));
        fields
    };
    let request = |method: &str| {
        vec![
            field(":method", method),
            field(":scheme", "https"),
            field(":authority", "example.com"),
            field(":path", "/"),
        ]
    };

    for (fields, expected) in [
        (vec![], "a request without :method"),
        (vec![field(":method", "GET POST")], "an invalid :method"),
        (
            with(request("GET"), ":protocol", "connect-udp"),
            ":protocol on a request that is not CONNECT",
        ),
        (
            with(connect(), ":path", "/"),
            "a CONNECT request carrying :scheme or :path",
        ),
        (
            vec![field(":method", "CONNECT")],
            "a CONNECT request without :authority",
        ),
        (vec![field(":method", "GET")], "a request without :scheme"),
        (
            vec![field(":method", "GET"), field(":scheme", "https")],
            "a request without :path",
        ),
        (
            vec![
                field(":method", "GET"),
                field(":scheme", "https"),
                field(":path", "/"),
            ],
            "a request with neither :authority nor Host",
        ),
        (
            vec![
                field(":method", "CONNECT"),
                field(":protocol", "connect-udp"),
                field(":scheme", "https"),
                field(":path", "/"),
                field("host", "example.com"),
            ],
            "an extended CONNECT request without :authority",
        ),
        (
            with(request("GET"), "host", "other.example"),
            ":authority and Host disagree",
        ),
        (
            with(with(connect(), "host", "a"), "host", "a"),
            "more than one Host field",
        ),
        (
            with(connect(), ":method", "CONNECT"),
            "a repeated pseudo-header field",
        ),
        (
            with(connect(), ":volto", "1"),
            "an undefined pseudo-header field",
        ),
        (
            with(with(connect(), "a", "1"), ":scheme", "https"),
            "a pseudo-header field after a regular field",
        ),
        (
            with(connect(), "Upper", "1"),
            "a field name that is uppercase or not a token",
        ),
        (
            with(connect(), "a", "one\ntwo"),
            "a field value with a forbidden character",
        ),
        (
            with(connect(), "connection", "close"),
            "the Connection field, which HTTP/3 has no use for",
        ),
        (
            with(connect(), "te", "gzip"),
            "a TE field with a value other than \"trailers\"",
        ),
        (
            vec![field(":method", "CONNECT"), field(":authority", "")],
            "an empty :authority",
        ),
        (
            vec![field(":method", "CONNECT"), field(":authority", "a b")],
            "an :authority that is not an authority",
        ),
    ] {
        assert_eq!(said(fields), format!("H3_MESSAGE_ERROR: {expected}"));
    }

    let replaced = |name: &str, value: &[u8]| {
        let mut fields = connect_udp();
        for existing in &mut fields {
            if existing.name.as_slice() == name.as_bytes() {
                existing.value = value.to_vec();
            }
        }
        said(fields)
    };
    for (name, value, expected) in [
        (":scheme", &b"1x"[..], "a :scheme that is not a URI scheme"),
        (":path", b"a", "a :path that is not an absolute path"),
        (":path", b"/a b", "a :path with a character no path may contain"),
        (":path", b"/a?b c", "a :path with a character no query may contain"),
        (":protocol", b"\xff", "a :protocol that is not valid UTF-8"),
    ] {
        assert_eq!(replaced(name, value), format!("H3_MESSAGE_ERROR: {expected}"));
    }
}

/// An encoded request, as a client would send it.
fn encoded(fields: &[Field]) -> BytesMut {
    let lines: Vec<(&[u8], &[u8])> = fields
        .iter()
        .map(|field| (field.name.as_slice(), field.value.as_slice()))
        .collect();
    let mut block = BytesMut::new();
    qpack::encode(&mut block, &lines);
    block
}

/// A HEADERS frame around an encoded request.
fn headers_frame(fields: &[Field]) -> Vec<u8> {
    let block = encoded(fields);
    let mut out = BytesMut::new();
    put_header(&mut out, HEADERS, block.len() as u64);
    out.extend_from_slice(&block);
    out.to_vec()
}

/// A resolver that has been given `wire` in one chunk.
fn resolving(wire: &[u8], budget: &mut BufferBudget) -> Resolved {
    let mut resolver = Resolver::new(8);
    resolver
        .received(Some(Bytes::copy_from_slice(wire)))
        .expect("a chunk is taken");
    resolver.resolve(budget)
}

/// A request that arrives a byte at a time is the request that arrives at once.
#[test]
fn a_request_is_the_same_however_it_is_cut() {
    let mut budget = BufferBudget::default();
    // A frame of an unknown type ahead of it is skipped.
    let mut wire = vec![0x21, 0x03, b'a', b'b', b'c'];
    wire.extend_from_slice(&headers_frame(&connect_udp()));

    let Resolved::Serve(whole, stream) = resolving(&wire, &mut budget) else {
        panic!("a whole request must be served")
    };
    assert_eq!(stream.id(), 8);

    let mut resolver = Resolver::new(8);
    let mut served = None;
    for byte in &wire {
        resolver
            .received(Some(Bytes::copy_from_slice(&[*byte])))
            .expect("a chunk is taken");
        match resolver.resolve(&mut budget) {
            Resolved::Read(next) => resolver = next,
            Resolved::Serve(request, _) => {
                served = Some(request);
                break;
            }
            other => panic!("unexpected {other:?}"),
        }
    }
    let cut = served.expect("the request is served with its last byte");
    assert_eq!(whole.method, Method::Connect);
    assert_eq!(cut.method, Method::Connect);
    assert_eq!(cut.path, whole.path);
    assert_eq!(cut.authority.as_deref(), Some("proxy.example:443"));
    assert_eq!(cut.protocol.as_deref(), Some("connect-udp"));
    assert_eq!(budget.held(), 0);
}

/// A field section that is too large is answered with a 431, from all three
/// places one is found.
#[test]
fn a_large_field_section_is_answered_with_a_431() {
    let answered = |resolved: Resolved| match resolved {
        Resolved::Respond(status, violation) => {
            assert_eq!(status, Status::REQUEST_HEADER_FIELDS_TOO_LARGE);
            assert_eq!(violation.code(), Code::H3_EXCESSIVE_LOAD);
            assert!(!violation.is_connection_error());
        }
        other => panic!("expected a 431, got {other:?}"),
    };

    // By its announced length.
    let mut budget = BufferBudget::default();
    let mut announced = BytesMut::new();
    put_header(&mut announced, HEADERS, 65537);
    answered(resolving(&announced, &mut budget));

    // By what the connection holds already.
    let mut budget = BufferBudget::default();
    budget.charge(1_048_576).expect("the whole budget");
    let mut announced = BytesMut::new();
    put_header(&mut announced, HEADERS, 1);
    answered(resolving(&announced, &mut budget));
    assert_eq!(budget.held(), 1_048_576);

    // By its decoded size: two thousand fields of thirty-odd bytes each.
    let mut budget = BufferBudget::default();
    let mut many = connect();
    for _ in 0..2000 {
        many.push(field("a", "b"));
    }
    answered(resolving(&headers_frame(&many), &mut budget));
    assert_eq!(budget.held(), 0);
}

/// What a request stream may not do, and what each fault ends.
#[test]
fn request_stream_faults_are_answered_by_their_reach() {
    let mut budget = BufferBudget::default();
    // DATA before HEADERS ends the connection.
    assert!(matches!(
        resolving(&[0x00, 0x01, b'a'], &mut budget),
        Resolved::Failed(Answer::Close(violation))
            if violation.to_string()
                == "H3_FRAME_UNEXPECTED: a request stream that does not begin with HEADERS"
    ));
    // A malformed request ends its stream.
    assert!(matches!(
        resolving(&headers_frame(&[field(":method", "GET")]), &mut budget),
        Resolved::Failed(Answer::Abandon(violation))
            if violation.to_string() == "H3_MESSAGE_ERROR: a request without :scheme"
    ));
    // So does one that never comes.
    let mut resolver = Resolver::new(0);
    resolver.received(None).expect("an empty stream ends cleanly");
    assert!(matches!(
        resolver.resolve(&mut budget),
        Resolved::Failed(Answer::Abandon(violation))
            if violation.code() == Code::H3_REQUEST_INCOMPLETE
    ));
    // One that stops half-way gives back what it held.
    let mut announced = BytesMut::new();
    put_header(&mut announced, HEADERS, 100);
    let Resolved::Read(resolver) = resolving(&announced, &mut budget) else {
        panic!("the request is not complete")
    };
    assert_eq!(budget.held(), 100);
    assert!(matches!(
        resolver.expired(&mut budget),
        Answer::Abandon(violation)
            if violation.to_string()
                == "H3_REQUEST_INCOMPLETE: the request headers did not arrive within one idle timeout"
    ));
    assert_eq!(budget.held(), 0);

    assert!(matches!(
        answer(Error::Stream(StreamError::RemoteTerminate {
            code: Code::H3_NO_ERROR
        })),
        Answer::Ended(StreamError::RemoteTerminate { .. })
    ));
}

/// A response is a HEADERS frame whose section holds the status and the fields.
#[test]
fn a_response_is_written_and_reads_back() {
    let mut fields = Fields::new();
    fields.append("proxy-status", FieldValue::from_static("volto"));
    let (header, block) = Stream::respond_with(Status::PROXY_AUTHENTICATION_REQUIRED, &fields);
    assert_eq!(&header[..], &[0x01, block.len() as u8]);
    let decoded = qpack::decode(&block, 65536).expect("decodes");
    assert_eq!(decoded.len(), 2);
    assert_eq!(decoded[0].name, b":status");
    assert_eq!(decoded[0].value, b"407");
    assert_eq!(decoded[1].name, b"proxy-status");
    assert_eq!(decoded[1].value, b"volto");

    let (header, block) = Stream::respond_with(Status::OK, &Fields::new());
    assert_eq!(&header[..], &[0x01, 0x03]);
    assert_eq!(&block[..], &[0x00, 0x00, 0xd9]);
}

/// How writing a response may end.
#[test]
fn a_response_that_is_not_taken_is_reset() {
    assert!(matches!(
        Stream::respond_within(Delivery::Written),
        (None, Ok(()))
    ));
    let (reset, result) = Stream::respond_within(Delivery::Expired);
    assert_eq!(reset, Some(0x10c));
    assert_eq!(
        result.unwrap_err().to_string(),
        "the peer did not take the response within one idle timeout"
    );
    let (reset, result) = Stream::respond_within(Delivery::Failed(StreamError::RemoteTerminate {
        code: Code::H3_CONNECT_ERROR,
    }));
    assert_eq!(reset, None);
    assert_eq!(
        result.unwrap_err().to_string(),
        "peer terminated the stream: H3_CONNECT_ERROR"
    );
}

/// A tunnel carries DATA and nothing else, in both directions.
#[test]
fn a_tunnel_carries_data_alone() {
    let mut budget = BufferBudget::default();
    let Resolved::Serve(_, mut stream) = resolving(&headers_frame(&connect()), &mut budget) else {
        panic!("a whole request must be served")
    };
    let mut shared = Shared::default();
    assert!(stream.datagrams(&mut shared).is_some());
    assert!(stream.datagrams(&mut shared).is_none(), "claimed once");

    let (mut writer, mut reader) = stream.split();
    let (header, data) = writer.send_data(Bytes::from_static(b"hello"));
    assert_eq!(&header[..], &[0x00, 0x05]);
    assert_eq!(&data[..], b"hello");
    let (header, _) = writer.send_data(Bytes::from(vec![0; 64]));
    assert_eq!(&header[..], &[0x00, 0x40, 0x40], "nothing is left over");

    assert!(matches!(reader.recv_data(&mut budget), Ok(Received::Read)));
    // An empty DATA frame and a grease frame say nothing.
    reader
        .received(Some(Bytes::from_static(&[0x00, 0x00, 0x21, 0x00, 0x00, 0x02, b'h', b'i'])))
        .expect("a chunk is taken");
    assert!(matches!(
        reader.recv_data(&mut budget),
        Ok(Received::Data(data)) if &data[..] == b"hi"
    ));
    assert!(matches!(reader.recv_data(&mut budget), Ok(Received::Read)));
    reader.received(None).expect("a clean end");
    assert!(matches!(reader.recv_data(&mut budget), Ok(Received::End)));

    let Resolved::Serve(_, stream) = resolving(&headers_frame(&connect()), &mut budget) else {
        panic!("a whole request must be served")
    };
    let (_, mut reader) = stream.split();
    reader
        .received(Some(Bytes::from_static(&[0x01, 0x00])))
        .expect("a chunk is taken");
    assert!(matches!(
        reader.recv_data(&mut budget),
        Err(Answer::Close(violation))
            if violation.to_string()
                == "H3_FRAME_UNEXPECTED: a frame other than DATA once the CONNECT method had completed"
    ));
    reader.abandon(&mut budget);
}

/// What ends a half of a tunnel that is not being used.
#[test]
fn an_idle_half_is_ended_by_the_peer() {
    assert!(matches!(
        Writer::stopped(Stopped::Code(0x10c)),
        StreamError::RemoteTerminate {
            code: Code::H3_REQUEST_CANCELLED
        }
    ));
    assert_eq!(
        Writer::stopped(Stopped::Finished).to_string(),
        "stream reset by this server: H3_NO_ERROR: the response stream is over"
    );
    assert!(matches!(
        Writer::stopped(Stopped::ConnectionLost(TransportError::TimedOut)),
        StreamError::Connection(ConnectionError::Timeout)
    ));
    assert_eq!(
        Writer::stopped(Stopped::Other("0-RTT rejected".to_owned())).to_string(),
        "stream reset by this server: H3_INTERNAL_ERROR: 0-RTT rejected"
    );

    assert!(matches!(
        Reader::reset_by_peer(Peek::Readable),
        ResetWatch::Again
    ));
    assert!(matches!(
        Reader::reset_by_peer(Peek::Ended),
        ResetWatch::Never
    ));
    assert!(matches!(
        Reader::reset_by_peer(Peek::Failed(TransferError::Terminated {
            code: 0x10f,
            text: String::new(),
        })),
        ResetWatch::Ended(StreamError::RemoteTerminate {
            code: Code::H3_CONNECT_ERROR
        })
    ));
    assert!(matches!(
        Reader::reset_by_peer(Peek::Failed(TransferError::ConnectionLost(
            TransportError::TimedOut
        ))),
        ResetWatch::Ended(StreamError::Connection(ConnectionError::Timeout))
    ));
    assert!(matches!(
        Reader::reset_by_peer(Peek::Failed(TransferError::Other {
            text: "closed stream".to_owned()
        })),
        ResetWatch::Never
    ));
}
