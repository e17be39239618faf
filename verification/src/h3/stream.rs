//! Request streams: from decoded field lines to a request, and what is decided
//! around reading one and answering it.

use bytes::{Bytes, BytesMut};
use vstd::prelude::*;
use vstd::utf8::{encode_utf8, valid_utf8};

use crate::buf::{
    bytes_mut_freeze, bytes_mut_new, bytes_mut_slice, bytes_mut_split, bytes_slice, held, written,
};
use crate::datagram::{VARINT_MAX, quarter_stream_id};
use crate::h3::connection::{DatagramReceiver, Shared, SharedView};
use crate::h3::error::{
    Code, ConnectionError, Fault, StreamError, TransferError, TransportError, Violation,
};
use crate::h3::frame::{
    BufferBudget, DATA, DecoderView, Error, Frame, FrameReader, FrameView, HEADERS, Item, ItemView,
    Next, State, StreamKind, at_boundary, header_bytes, lemma_step_well_formed, next_step,
    put_header, released,
};
use crate::h3::message::{
    FieldBytes, FieldValue, Fields, Method, MethodView, Request, RequestView, Status, ascii_is_utf8,
    connect_bytes, field_name, is_field_name, is_token, is_value, method_of, same_bytes,
    three_digits, utf8, values_named,
};
use crate::h3::qpack::{self, Field, borrowed_bytes, fields_bytes, section_bytes, section_fields};
use crate::h3::{MAX_FIELD_SECTION_SIZE, varint};

verus! {

// ---------------------------------------------------------------------------
// The syntax of a request target (RFC 3986)
// ---------------------------------------------------------------------------

/// An ASCII letter.
pub open spec fn alpha(byte: u8) -> bool {
    0x41 <= byte <= 0x5a || 0x61 <= byte <= 0x7a
}

/// An ASCII letter or digit.
pub open spec fn alphanumeric(byte: u8) -> bool {
    alpha(byte) || 0x30 <= byte <= 0x39
}

/// A byte that may stand in a path segment: unreserved, percent-encoding,
/// sub-delimiters, colon and at-sign.
pub open spec fn path_byte(byte: u8) -> bool {
    ||| alphanumeric(byte)
    ||| byte == 0x2d || byte == 0x2e || byte == 0x5f || byte == 0x7e || byte == 0x25
    ||| byte == 0x21 || byte == 0x24 || byte == 0x26 || byte == 0x27 || byte == 0x28
    ||| byte == 0x29 || byte == 0x2a || byte == 0x2b || byte == 0x2c || byte == 0x3b
    ||| byte == 0x3d || byte == 0x3a || byte == 0x40
}

/// A byte that may stand in an authority: as in a path segment, and brackets.
pub open spec fn authority_byte(byte: u8) -> bool {
    path_byte(byte) || byte == 0x5b || byte == 0x5d
}

/// Whether `bytes` is a URI scheme.
pub open spec fn is_scheme(bytes: Seq<u8>) -> bool {
    bytes.len() > 0 && alpha(bytes[0]) && forall|i: int|
        0 <= i < bytes.len() ==> alphanumeric(#[trigger] bytes[i]) || bytes[i] == 0x2b || bytes[i]
            == 0x2d || bytes[i] == 0x2e
}

/// Whether every byte of `bytes` may stand in an authority.
pub open spec fn is_authority(bytes: Seq<u8>) -> bool {
    forall|i: int| 0 <= i < bytes.len() ==> authority_byte(#[trigger] bytes[i])
}

/// Whether every byte of `bytes` may stand in a path.
pub open spec fn is_path(bytes: Seq<u8>) -> bool {
    forall|i: int| 0 <= i < bytes.len() ==> path_byte(#[trigger] bytes[i]) || bytes[i] == 0x2f
}

/// Whether every byte of `bytes` may stand in a query.
pub open spec fn is_query(bytes: Seq<u8>) -> bool {
    forall|i: int|
        0 <= i < bytes.len() ==> path_byte(#[trigger] bytes[i]) || bytes[i] == 0x2f || bytes[i]
            == 0x3f
}

/// A malformed message: the stream's fault, never the connection's.
pub open spec fn malformed_fault(detail: Seq<char>) -> Fault {
    Fault::stream(Code::H3_MESSAGE_ERROR, detail)
}

/// A `:scheme` value, or what is wrong with it.
pub open spec fn scheme_of(scheme: Seq<u8>) -> Result<Seq<u8>, Fault> {
    if is_scheme(scheme) {
        Ok(scheme)
    } else {
        Err(malformed_fault("a :scheme that is not a URI scheme"@))
    }
}

/// An `:authority` value, or what is wrong with it.
pub open spec fn authority_of(authority: Seq<u8>) -> Result<Seq<u8>, Fault> {
    if authority.len() == 0 {
        Err(malformed_fault("an empty :authority"@))
    } else if is_authority(authority) {
        Ok(authority)
    } else {
        Err(malformed_fault("an :authority that is not an authority"@))
    }
}

/// The first question mark at or behind `from`.
pub open spec fn query_mark(target: Seq<u8>, from: nat) -> Option<nat>
    decreases target.len() - from,
{
    if from >= target.len() {
        None
    } else if target[from as int] == 0x3f {
        Some(from)
    } else {
        query_mark(target, from + 1)
    }
}

/// The path and the query of a `:path` value, or what is wrong with it.
///
/// The asterisk form stands for no path, and an extended CONNECT may not use it.
pub open spec fn target_of(target: Seq<u8>, extended: bool) -> Result<
    (Seq<u8>, Option<Seq<u8>>),
    Fault,
> {
    if target == seq![0x2au8] && !extended {
        Ok((target, None))
    } else if target.len() == 0 || target[0] != 0x2f {
        Err(malformed_fault("a :path that is not an absolute path"@))
    } else {
        let (path, query) = match query_mark(target, 0) {
            Some(mark) => (
                target.subrange(0, mark as int),
                Some(target.subrange(mark as int + 1, target.len() as int)),
            ),
            None => (target, None),
        };
        if !is_path(path) {
            Err(malformed_fault("a :path with a character no path may contain"@))
        } else if query matches Some(query) && !is_query(query) {
            Err(malformed_fault("a :path with a character no query may contain"@))
        } else {
            Ok((path, query))
        }
    }
}

/// A message that breaks a rule of HTTP: the stream's fault, never the
/// connection's.
fn malformed(detail: &str) -> (violation: Violation)
    ensures
        violation@ == malformed_fault(detail@),
{
    Violation::stream(Code::H3_MESSAGE_ERROR, detail)
}

fn is_alphanumeric(byte: u8) -> (result: bool)
    ensures
        result == alphanumeric(byte),
{
    match byte {
        0x30..=0x39 | 0x41..=0x5a | 0x61..=0x7a => true,
        _ => false,
    }
}

/// Whether `byte` may stand in a path segment.
fn is_pchar(byte: u8) -> (result: bool)
    ensures
        result == path_byte(byte),
{
    match byte {
        0x2d | 0x2e | 0x5f | 0x7e | 0x25 | 0x21 | 0x24 | 0x26 | 0x27 | 0x28 => true,
        0x29 | 0x2a | 0x2b | 0x2c | 0x3b | 0x3d | 0x3a | 0x40 => true,
        _ => is_alphanumeric(byte),
    }
}

/// Reads a `:scheme` value.
fn uri_scheme(scheme: &[u8]) -> (result: Result<&str, Violation>)
    ensures
        match (result, scheme_of(scheme@)) {
            (Ok(text), Ok(expected)) => encode_utf8(text@) == expected,
            (Err(violation), Err(fault)) => violation@ == fault,
            _ => false,
        },
{
    if scheme.len() == 0 {
        return Err(malformed("a :scheme that is not a URI scheme"));
    }
    let first: u8 = scheme[0];
    if !((0x41 <= first && first <= 0x5a) || (0x61 <= first && first <= 0x7a)) {
        return Err(malformed("a :scheme that is not a URI scheme"));
    }
    let mut at: usize = 0;
    while at < scheme.len()
        invariant
            at <= scheme.len(),
            forall|i: int|
                0 <= i < at ==> alphanumeric(#[trigger] scheme@[i]) || scheme@[i] == 0x2b
                    || scheme@[i] == 0x2d || scheme@[i] == 0x2e,
        decreases scheme.len() - at,
    {
        let byte: u8 = scheme[at];
        if !(is_alphanumeric(byte) || byte == 0x2b || byte == 0x2d || byte == 0x2e) {
            return Err(malformed("a :scheme that is not a URI scheme"));
        }
        at = at + 1;
    }
    proof {
        ascii_is_utf8(scheme@);
    }
    match utf8(scheme) {
        Some(text) => Ok(text),
        None => Err(malformed("a :scheme that is not a URI scheme")),
    }
}

/// Reads an `:authority` value.
fn uri_authority(authority: &[u8]) -> (result: Result<&str, Violation>)
    ensures
        match (result, authority_of(authority@)) {
            (Ok(text), Ok(expected)) => encode_utf8(text@) == expected,
            (Err(violation), Err(fault)) => violation@ == fault,
            _ => false,
        },
{
    if authority.len() == 0 {
        return Err(malformed("an empty :authority"));
    }
    let mut at: usize = 0;
    while at < authority.len()
        invariant
            at <= authority.len(),
            forall|i: int| 0 <= i < at ==> authority_byte(#[trigger] authority@[i]),
        decreases authority.len() - at,
    {
        let byte: u8 = authority[at];
        if !(is_pchar(byte) || byte == 0x5b || byte == 0x5d) {
            return Err(malformed("an :authority that is not an authority"));
        }
        at = at + 1;
    }
    proof {
        ascii_is_utf8(authority@);
    }
    match utf8(authority) {
        Some(text) => Ok(text),
        None => Err(malformed("an :authority that is not an authority")),
    }
}

fn all_path_bytes(path: &[u8]) -> (result: bool)
    ensures
        result <==> is_path(path@),
{
    let mut at: usize = 0;
    while at < path.len()
        invariant
            at <= path.len(),
            forall|i: int|
                0 <= i < at ==> path_byte(#[trigger] path@[i]) || path@[i] == 0x2f,
        decreases path.len() - at,
    {
        let byte: u8 = path[at];
        if !(is_pchar(byte) || byte == 0x2f) {
            return false;
        }
        at = at + 1;
    }
    true
}

fn all_query_bytes(query: &[u8]) -> (result: bool)
    ensures
        result <==> is_query(query@),
{
    let mut at: usize = 0;
    while at < query.len()
        invariant
            at <= query.len(),
            forall|i: int|
                0 <= i < at ==> path_byte(#[trigger] query@[i]) || query@[i] == 0x2f || query@[i]
                    == 0x3f,
        decreases query.len() - at,
    {
        let byte: u8 = query[at];
        if !(is_pchar(byte) || byte == 0x2f || byte == 0x3f) {
            return false;
        }
        at = at + 1;
    }
    true
}

/// Splits a `:path` value into a path and a query.
fn split_target(target: &[u8], extended: bool) -> (result: Result<
    (&str, Option<&str>),
    Violation,
>)
    ensures
        match (result, target_of(target@, extended)) {
            (Ok((path, query)), Ok((expected, expected_query))) => encode_utf8(path@) == expected
                && match (query, expected_query) {
                (Some(text), Some(bytes)) => encode_utf8(text@) == bytes,
                (None, None) => true,
                _ => false,
            },
            (Err(violation), Err(fault)) => violation@ == fault,
            _ => false,
        },
{
    if target.len() == 1 && target[0] == 0x2a && !extended {
        assert(target@ =~= seq![0x2au8]);
        proof {
            ascii_is_utf8(target@);
        }
        return match utf8(target) {
            Some(text) => Ok((text, None)),
            None => Err(malformed("a :path that is not valid UTF-8")),
        };
    }
    if target.len() == 0 || target[0] != 0x2f {
        return Err(malformed("a :path that is not an absolute path"));
    }
    let mut mark: usize = 0;
    while mark < target.len() && target[mark] != 0x3f
        invariant
            mark <= target.len(),
            query_mark(target@, 0) == query_mark(target@, mark as nat),
        decreases target.len() - mark,
    {
        mark = mark + 1;
    }
    let path = vstd::slice::slice_subrange(target, 0, mark);
    assert(mark == target@.len() ==> path@ =~= target@);
    if !all_path_bytes(path) {
        return Err(malformed("a :path with a character no path may contain"));
    }
    proof {
        ascii_is_utf8(path@);
    }
    let path_text: &str = match utf8(path) {
        Some(text) => text,
        None => {
            return Err(malformed("a :path that is not valid UTF-8"));
        },
    };
    if mark == target.len() {
        return Ok((path_text, None));
    }
    let query = vstd::slice::slice_subrange(target, mark + 1, target.len());
    if !all_query_bytes(query) {
        return Err(malformed("a :path with a character no query may contain"));
    }
    proof {
        ascii_is_utf8(query@);
    }
    match utf8(query) {
        Some(text) => Ok((path_text, Some(text))),
        None => Err(malformed("a :path that is not valid UTF-8")),
    }
}

// ---------------------------------------------------------------------------
// Fields
// ---------------------------------------------------------------------------

/// A space or a tab.
pub open spec fn whitespace(byte: u8) -> bool {
    byte == 0x20 || byte == 0x09
}

/// A value without the whitespace at its ends.
pub open spec fn trimmed(value: Seq<u8>) -> Seq<u8>
    decreases value.len(),
{
    if value.len() > 0 && whitespace(value[0]) {
        trimmed(value.drop_first())
    } else if value.len() > 0 && whitespace(value.last()) {
        trimmed(value.drop_last())
    } else {
        value
    }
}

/// Excludes the whitespace at the ends of a field value.
pub fn trim_optional_whitespace(value: &[u8]) -> (result: &[u8])
    ensures
        result@ == trimmed(value@),
{
    let mut start: usize = 0;
    assert(value@.subrange(0, value@.len() as int) =~= value@);
    while start < value.len() && (value[start] == 0x20 || value[start] == 0x09)
        invariant
            start <= value.len(),
            trimmed(value@) == trimmed(value@.subrange(start as int, value@.len() as int)),
        decreases value.len() - start,
    {
        let ghost left = value@.subrange(start as int, value@.len() as int);
        assert(left[0] == value@[start as int]);
        assert(left.drop_first() =~= value@.subrange(start + 1, value@.len() as int));
        start = start + 1;
    }
    let mut end: usize = value.len();
    while end > start && (value[end - 1] == 0x20 || value[end - 1] == 0x09)
        invariant
            start <= end <= value.len(),
            start < value.len() ==> !whitespace(value@[start as int]),
            trimmed(value@) == trimmed(value@.subrange(start as int, end as int)),
        decreases end,
    {
        let ghost left = value@.subrange(start as int, end as int);
        assert(left[0] == value@[start as int]);
        assert(left.last() == value@[end - 1]);
        assert(left.drop_last() =~= value@.subrange(start as int, end - 1));
        end = end - 1;
    }
    proof {
        let left = value@.subrange(start as int, end as int);
        if left.len() > 0 {
            assert(left[0] == value@[start as int]);
            assert(left.last() == value@[end - 1]);
        }
    }
    vstd::slice::slice_subrange(value, start, end)
}

/// The fields once `name` and `value` have been added to them, or what is wrong
/// with the addition.
pub open spec fn with_field(
    fields: Seq<FieldBytes>,
    name: Seq<u8>,
    value: Seq<u8>,
) -> Result<Seq<FieldBytes>, Fault> {
    let text = trimmed(value);
    if !is_field_name(name) {
        Err(malformed_fault("a field name that is uppercase or not a token"@))
    } else if !is_value(text) {
        Err(malformed_fault("a field value with a forbidden character"@))
    } else if name == encode_utf8("connection"@) {
        Err(malformed_fault("the Connection field, which HTTP/3 has no use for"@))
    } else if name == encode_utf8("te"@) && text != encode_utf8("trailers"@) {
        Err(malformed_fault("a TE field with a value other than \"trailers\""@))
    } else if name == encode_utf8("host"@) && values_named(fields, encode_utf8("host"@)).len() > 0 {
        Err(malformed_fault("more than one Host field"@))
    } else {
        Ok(fields.push((name, text)))
    }
}

/// Adds a regular field to a request, or refuses it.
fn add_field(fields: &mut Fields, name: &[u8], value: &[u8]) -> (result: Result<(), Violation>)
    ensures
        match (result, with_field(old(fields)@, name@, value@)) {
            (Ok(()), Ok(expected)) => final(fields)@ == expected,
            (Err(violation), Err(fault)) => violation@ == fault,
            _ => false,
        },
{
    let name_text: &str = match field_name(name) {
        Some(text) => text,
        None => {
            return Err(malformed("a field name that is uppercase or not a token"));
        },
    };
    let parsed: FieldValue = match FieldValue::parse(trim_optional_whitespace(value)) {
        Some(parsed) => parsed,
        None => {
            return Err(malformed("a field value with a forbidden character"));
        },
    };
    if same_bytes(name, "connection".as_bytes()) {
        return Err(malformed("the Connection field, which HTTP/3 has no use for"));
    }
    if same_bytes(name, "te".as_bytes()) && !same_bytes(
        parsed.as_bytes(),
        "trailers".as_bytes(),
    ) {
        return Err(malformed("a TE field with a value other than \"trailers\""));
    }
    if same_bytes(name, "host".as_bytes()) && fields.contains("host") {
        return Err(malformed("more than one Host field"));
    }
    fields.append(name_text, parsed);
    Ok(())
}

// ---------------------------------------------------------------------------
// Requests
// ---------------------------------------------------------------------------

/// What the field lines of a request have said so far.
pub struct Heard {
    /// `:method`.
    pub method: Option<Seq<u8>>,
    /// `:scheme`.
    pub scheme: Option<Seq<u8>>,
    /// `:authority`.
    pub authority: Option<Seq<u8>>,
    /// `:path`.
    pub target: Option<Seq<u8>>,
    /// `:protocol`.
    pub protocol: Option<Seq<u8>>,
    /// Whether a regular field has been seen.
    pub regular: bool,
    /// The regular fields.
    pub fields: Seq<FieldBytes>,
}

impl Heard {
    /// Nothing yet.
    pub open spec fn nothing() -> Heard {
        Heard {
            method: None,
            scheme: None,
            authority: None,
            target: None,
            protocol: None,
            regular: false,
            fields: Seq::empty(),
        }
    }

    /// With one more field line, or what is wrong with it: pseudo-headers come
    /// first, each at most once, and there are five of them.
    pub open spec fn with_line(self, line: FieldBytes) -> Result<Heard, Fault> {
        let (name, value) = line;
        if !(name.len() > 0 && name[0] == 0x3a) {
            match with_field(self.fields, name, value) {
                Ok(fields) => Ok(Heard { regular: true, fields, ..self }),
                Err(fault) => Err(fault),
            }
        } else if self.regular {
            Err(malformed_fault("a pseudo-header field after a regular field"@))
        } else if name == encode_utf8(":method"@) {
            if self.method is Some {
                Err(malformed_fault("a repeated pseudo-header field"@))
            } else {
                Ok(Heard { method: Some(value), ..self })
            }
        } else if name == encode_utf8(":scheme"@) {
            if self.scheme is Some {
                Err(malformed_fault("a repeated pseudo-header field"@))
            } else {
                Ok(Heard { scheme: Some(value), ..self })
            }
        } else if name == encode_utf8(":authority"@) {
            if self.authority is Some {
                Err(malformed_fault("a repeated pseudo-header field"@))
            } else {
                Ok(Heard { authority: Some(value), ..self })
            }
        } else if name == encode_utf8(":path"@) {
            if self.target is Some {
                Err(malformed_fault("a repeated pseudo-header field"@))
            } else {
                Ok(Heard { target: Some(value), ..self })
            }
        } else if name == encode_utf8(":protocol"@) {
            if self.protocol is Some {
                Err(malformed_fault("a repeated pseudo-header field"@))
            } else {
                Ok(Heard { protocol: Some(value), ..self })
            }
        } else {
            Err(malformed_fault("an undefined pseudo-header field"@))
        }
    }
}

/// What a section's field lines say, or the first thing wrong with them.
pub open spec fn heard(section: Seq<FieldBytes>) -> Result<Heard, Fault>
    decreases section.len(),
{
    if section.len() == 0 {
        Ok(Heard::nothing())
    } else {
        match heard(section.drop_last()) {
            Err(fault) => Err(fault),
            Ok(before) => before.with_line(section.last()),
        }
    }
}

/// The authority a request names: `:authority`, or the Host field in its place
/// where the request is no extended CONNECT. The two may not disagree.
pub open spec fn named_authority(all: Heard) -> Result<Seq<u8>, Fault> {
    let hosts = values_named(all.fields, encode_utf8("host"@));
    match all.authority {
        Some(authority) => if hosts.len() > 0 && hosts[0] != authority {
            Err(malformed_fault(":authority and Host disagree"@))
        } else {
            Ok(authority)
        },
        None => if all.protocol is Some {
            Err(malformed_fault("an extended CONNECT request without :authority"@))
        } else if hosts.len() > 0 {
            Ok(hosts[0])
        } else {
            Err(malformed_fault("a request with neither :authority nor Host"@))
        },
    }
}

/// A CONNECT request without `:protocol`: an authority and nothing else.
pub open spec fn plain_connect(all: Heard) -> Result<RequestView, Fault> {
    if all.scheme is Some || all.target is Some {
        Err(malformed_fault("a CONNECT request carrying :scheme or :path"@))
    } else {
        match all.authority {
            None => Err(malformed_fault("a CONNECT request without :authority"@)),
            Some(authority) => match authority_of(authority) {
                Err(fault) => Err(fault),
                Ok(authority) => Ok(
                    RequestView {
                        method: MethodView::Connect,
                        scheme: None,
                        authority: Some(authority),
                        path: None,
                        query: None,
                        protocol: None,
                        fields: all.fields,
                    },
                ),
            },
        }
    }
}

/// Any other request: a scheme, an authority and a path.
pub open spec fn targeted(all: Heard, method: Seq<u8>) -> Result<RequestView, Fault> {
    match (all.scheme, all.target) {
        (None, _) => Err(malformed_fault("a request without :scheme"@)),
        (_, None) => Err(malformed_fault("a request without :path"@)),
        (Some(scheme), Some(target)) => match named_authority(all) {
            Err(fault) => Err(fault),
            Ok(named) => match target_of(target, all.protocol is Some) {
                Err(fault) => Err(fault),
                Ok((path, query)) => match (scheme_of(scheme), authority_of(named)) {
                    (Err(fault), _) => Err(fault),
                    (_, Err(fault)) => Err(fault),
                    (Ok(scheme), Ok(authority)) => if all.protocol matches Some(protocol)
                        && !valid_utf8(protocol) {
                        Err(malformed_fault("a :protocol that is not valid UTF-8"@))
                    } else {
                        Ok(
                            RequestView {
                                method: method_of(method),
                                scheme: Some(scheme),
                                authority: Some(authority),
                                path: Some(path),
                                query,
                                protocol: all.protocol,
                                fields: all.fields,
                            },
                        )
                    },
                },
            },
        },
    }
}

/// The request that a section's field lines make together.
pub open spec fn assembled(all: Heard) -> Result<RequestView, Fault> {
    match all.method {
        None => Err(malformed_fault("a request without :method"@)),
        Some(method) => if !is_token(method) {
            Err(malformed_fault("an invalid :method"@))
        } else if all.protocol is Some && method != connect_bytes() {
            Err(malformed_fault(":protocol on a request that is not CONNECT"@))
        } else if method == connect_bytes() && all.protocol is None {
            plain_connect(all)
        } else {
            targeted(all, method)
        },
    }
}

/// The request of a field section, or the first thing wrong with it.
pub open spec fn request_of(section: Seq<FieldBytes>) -> Result<RequestView, Fault> {
    match heard(section) {
        Err(fault) => Err(fault),
        Ok(all) => assembled(all),
    }
}

/// The pseudo-headers and fields collected from a section.
struct Collected {
    method: Option<Vec<u8>>,
    scheme: Option<Vec<u8>>,
    authority: Option<Vec<u8>>,
    target: Option<Vec<u8>>,
    protocol: Option<Vec<u8>>,
    regular: bool,
    fields: Fields,
}

/// The bytes of a value that may be absent.
spec fn bytes_of(value: Option<Vec<u8>>) -> Option<Seq<u8>> {
    match value {
        Some(bytes) => Some(bytes@),
        None => None,
    }
}

impl Collected {
    spec fn heard(self) -> Heard {
        Heard {
            method: bytes_of(self.method),
            scheme: bytes_of(self.scheme),
            authority: bytes_of(self.authority),
            target: bytes_of(self.target),
            protocol: bytes_of(self.protocol),
            regular: self.regular,
            fields: self.fields@,
        }
    }

    /// Takes one field line.
    fn take_line(&mut self, name: &[u8], value: &[u8]) -> (result: Result<(), Violation>)
        ensures
            match (result, old(self).heard().with_line((name@, value@))) {
                (Ok(()), Ok(expected)) => final(self).heard() == expected,
                (Err(violation), Err(fault)) => violation@ == fault,
                _ => false,
            },
    {
        if name.len() == 0 || name[0] != 0x3a {
            self.regular = true;
            return add_field(&mut self.fields, name, value);
        }
        if self.regular {
            return Err(malformed("a pseudo-header field after a regular field"));
        }
        let copied: Vec<u8> = vstd::slice::slice_to_vec(value);
        if same_bytes(name, ":method".as_bytes()) {
            if self.method.is_some() {
                return Err(malformed("a repeated pseudo-header field"));
            }
            self.method = Some(copied);
        } else if same_bytes(name, ":scheme".as_bytes()) {
            if self.scheme.is_some() {
                return Err(malformed("a repeated pseudo-header field"));
            }
            self.scheme = Some(copied);
        } else if same_bytes(name, ":authority".as_bytes()) {
            if self.authority.is_some() {
                return Err(malformed("a repeated pseudo-header field"));
            }
            self.authority = Some(copied);
        } else if same_bytes(name, ":path".as_bytes()) {
            if self.target.is_some() {
                return Err(malformed("a repeated pseudo-header field"));
            }
            self.target = Some(copied);
        } else if same_bytes(name, ":protocol".as_bytes()) {
            if self.protocol.is_some() {
                return Err(malformed("a repeated pseudo-header field"));
            }
            self.protocol = Some(copied);
        } else {
            return Err(malformed("an undefined pseudo-header field"));
        }
        Ok(())
    }

    /// The authority the request names.
    fn named_authority(&self) -> (result: Result<&[u8], Violation>)
        ensures
            match (result, named_authority(self.heard())) {
                (Ok(named), Ok(expected)) => named@ == expected,
                (Err(violation), Err(fault)) => violation@ == fault,
                _ => false,
            },
    {
        match (&self.authority, self.fields.get("host")) {
            (Some(authority), Some(host)) => if same_bytes(authority.as_slice(), host.as_bytes()) {
                Ok(authority.as_slice())
            } else {
                Err(malformed(":authority and Host disagree"))
            },
            (Some(authority), None) => Ok(authority.as_slice()),
            (None, host) => if self.protocol.is_some() {
                Err(malformed("an extended CONNECT request without :authority"))
            } else {
                match host {
                    Some(host) => Ok(host.as_bytes()),
                    None => Err(malformed("a request with neither :authority nor Host")),
                }
            },
        }
    }

    /// A CONNECT request without `:protocol`.
    fn plain_connect(self, method: Method) -> (result: Result<Request, Violation>)
        requires
            method is Connect,
            self.protocol is None,
        ensures
            match (result, plain_connect(self.heard())) {
                (Ok(request), Ok(expected)) => request@ == expected,
                (Err(violation), Err(fault)) => violation@ == fault,
                _ => false,
            },
    {
        if self.scheme.is_some() || self.target.is_some() {
            return Err(malformed("a CONNECT request carrying :scheme or :path"));
        }
        let authority: String = match &self.authority {
            None => {
                return Err(malformed("a CONNECT request without :authority"));
            },
            Some(authority) => match uri_authority(authority.as_slice()) {
                Ok(text) => text.to_owned(),
                Err(violation) => {
                    return Err(violation);
                },
            },
        };
        Ok(
            Request {
                method,
                scheme: None,
                authority: Some(authority),
                path: None,
                query: None,
                protocol: None,
                fields: self.fields,
            },
        )
    }

    /// Any other request.
    fn targeted(self, method: Method) -> (result: Result<Request, Violation>)
        requires
            method@ == method_of(method.token()),
        ensures
            match (result, targeted(self.heard(), method.token())) {
                (Ok(request), Ok(expected)) => request@ == expected,
                (Err(violation), Err(fault)) => violation@ == fault,
                _ => false,
            },
    {
        let scheme: &Vec<u8> = match &self.scheme {
            Some(scheme) => scheme,
            None => {
                return Err(malformed("a request without :scheme"));
            },
        };
        let target: &Vec<u8> = match &self.target {
            Some(target) => target,
            None => {
                return Err(malformed("a request without :path"));
            },
        };
        let named: &[u8] = match self.named_authority() {
            Ok(named) => named,
            Err(violation) => {
                return Err(violation);
            },
        };
        let (path, query): (String, Option<String>) = match split_target(
            target.as_slice(),
            self.protocol.is_some(),
        ) {
            Ok((path, Some(query))) => (path.to_owned(), Some(query.to_owned())),
            Ok((path, None)) => (path.to_owned(), None),
            Err(violation) => {
                return Err(violation);
            },
        };
        let scheme_text: String = match uri_scheme(scheme.as_slice()) {
            Ok(text) => text.to_owned(),
            Err(violation) => {
                return Err(violation);
            },
        };
        let authority: String = match uri_authority(named) {
            Ok(text) => text.to_owned(),
            Err(violation) => {
                return Err(violation);
            },
        };
        let protocol: Option<String> = match &self.protocol {
            Some(protocol) => match utf8(protocol.as_slice()) {
                Some(text) => Some(text.to_owned()),
                None => {
                    return Err(malformed("a :protocol that is not valid UTF-8"));
                },
            },
            None => None,
        };
        Ok(
            Request {
                method,
                scheme: Some(scheme_text),
                authority: Some(authority),
                path: Some(path),
                query,
                protocol,
                fields: self.fields,
            },
        )
    }
}

/// Builds a request from a decoded field section, or says what makes it
/// malformed (RFC 9114 sections 4.2 to 4.4).
pub fn build_request(section: Vec<Field>) -> (result: Result<Request, Violation>)
    ensures
        match (result, request_of(fields_bytes(section@))) {
            (Ok(request), Ok(expected)) => request@ == expected,
            (Err(violation), Err(fault)) => violation@ == fault,
            _ => false,
        },
{
    let ghost lines = fields_bytes(section@);
    let mut collected = Collected {
        method: None,
        scheme: None,
        authority: None,
        target: None,
        protocol: None,
        regular: false,
        fields: Fields::new(),
    };
    let mut at: usize = 0;
    assert(lines.subrange(0, 0) =~= Seq::<FieldBytes>::empty());
    assert(lines.subrange(0, lines.len() as int) =~= lines);
    while at < section.len()
        invariant
            at <= section.len(),
            lines == fields_bytes(section@),
            heard(lines.subrange(0, at as int)) == Ok::<Heard, Fault>(collected.heard()),
        decreases section.len() - at,
    {
        let field = &section[at];
        proof {
            let longer = lines.subrange(0, at as int + 1);
            assert(longer.drop_last() =~= lines.subrange(0, at as int));
            assert(longer.last() == (field.name@, field.value@));
        }
        match collected.take_line(field.name.as_slice(), field.value.as_slice()) {
            Ok(()) => {},
            Err(violation) => {
                proof {
                    lemma_heard_fault(lines, at as int + 1);
                }
                return Err(violation);
            },
        }
        at = at + 1;
    }
    assert(lines.subrange(0, at as int) =~= lines);
    let method: Method = match &collected.method {
        None => {
            return Err(malformed("a request without :method"));
        },
        Some(method) => match Method::parse(method.as_slice()) {
            None => {
                return Err(malformed("an invalid :method"));
            },
            Some(method) => method,
        },
    };
    match method {
        Method::Connect => if collected.protocol.is_none() {
            collected.plain_connect(method)
        } else {
            collected.targeted(method)
        },
        Method::Other(_) => if collected.protocol.is_some() {
            Err(malformed(":protocol on a request that is not CONNECT"))
        } else {
            collected.targeted(method)
        },
    }
}

/// The first fault of a section is the fault of the whole section.
proof fn lemma_heard_fault(section: Seq<FieldBytes>, count: int)
    requires
        0 <= count <= section.len(),
        heard(section.subrange(0, count)) is Err,
    ensures
        heard(section) == heard(section.subrange(0, count)),
    decreases section.len(),
{
    if count < section.len() {
        assert(section.drop_last().subrange(0, count) =~= section.subrange(0, count));
        lemma_heard_fault(section.drop_last(), count);
    } else {
        assert(section.subrange(0, count) =~= section);
    }
}

// ---------------------------------------------------------------------------
// Reading a request
// ---------------------------------------------------------------------------

/// The request an encoded field section makes, or the first thing wrong with it.
pub open spec fn request_of_block(block: Seq<u8>) -> Result<RequestView, Fault> {
    match section_fields(block, MAX_FIELD_SECTION_SIZE) {
        Err(fault) => Err(fault),
        Ok(section) => request_of(section),
    }
}

/// What asking a frame reader for a request comes to.
pub struct Reading {
    /// The decoder afterwards.
    pub decoder: DecoderView,
    /// What the budget holds afterwards.
    pub held: nat,
    /// The request, `None` where more bytes are needed, or the fault.
    pub outcome: Result<Option<RequestView>, Fault>,
}

/// Reads frames up to the first HEADERS: frames of unknown types are skipped,
/// and any other frame may not come before it.
pub open spec fn request_reading(decoder: DecoderView, held: nat, finished: bool) -> Reading
    decreases decoder.chunk.len(),
{
    let step = next_step(decoder, held);
    let (decoder_after, held_after) = (step.decoder, step.held);
    match step.outcome {
        Err(fault) => Reading { decoder: decoder_after, held: held_after, outcome: Err(fault) },
        Ok(None) => Reading {
            decoder: decoder_after,
            held: held_after,
            outcome: if finished {
                Err(
                    Fault::stream(
                        Code::H3_REQUEST_INCOMPLETE,
                        "the request stream ended before its HEADERS frame"@,
                    ),
                )
            } else {
                Ok(None)
            },
        },
        Ok(Some(item)) => match item {
            ItemView::Frame(FrameView::Headers(block)) => Reading {
                decoder: decoder_after,
                held: held_after,
                outcome: match request_of_block(block) {
                    Ok(request) => Ok(Some(request)),
                    Err(fault) => Err(fault),
                },
            },
            ItemView::Skipped { kind: _ } => if decoder_after.chunk.len() < decoder.chunk.len() {
                request_reading(decoder_after, held_after, finished)
            } else {
                Reading { decoder: decoder_after, held: held_after, outcome: Ok(None) }
            },
            _ => Reading {
                decoder: decoder_after,
                held: held_after,
                outcome: Err(
                    Fault::connection(
                        Code::H3_FRAME_UNEXPECTED,
                        "a request stream that does not begin with HEADERS"@,
                    ),
                ),
            },
        },
    }
}

/// Decodes an encoded field section into a request.
pub fn request_from_block(block: &[u8]) -> (result: Result<Request, Violation>)
    ensures
        match (result, request_of_block(block@)) {
            (Ok(request), Ok(expected)) => request@ == expected,
            (Err(violation), Err(fault)) => violation@ == fault,
            _ => false,
        },
{
    match qpack::decode(block, MAX_FIELD_SECTION_SIZE) {
        Ok(section) => build_request(section),
        Err(violation) => Err(violation),
    }
}

/// Reads a request from the frames that have arrived; `None` where more bytes
/// are needed.
pub fn read_request(frames: &mut FrameReader, budget: &mut BufferBudget) -> (result: Result<
    Option<Request>,
    Error,
>)
    requires
        old(frames).well_formed(),
    ensures
        final(frames).well_formed(),
        final(frames).finished() == old(frames).finished(),
        ({
            let reading = request_reading(
                old(frames).decoder(),
                old(budget)@,
                old(frames).finished(),
            );
            &&& final(frames).decoder() == reading.decoder
            &&& final(budget)@ == reading.held
            &&& match (result, reading.outcome) {
                (Ok(Some(request)), Ok(Some(expected))) => request@ == expected,
                (Ok(None), Ok(None)) => final(frames).decoder().chunk.len() == 0,
                (Err(Error::Protocol(violation)), Err(fault)) => violation@ == fault,
                _ => false,
            }
        }),
{
    let ghost goal = request_reading(frames.decoder(), budget@, frames.finished());
    let ghost ended = frames.finished();
    loop
        invariant
            frames.well_formed(),
            frames.finished() == ended,
            ended == old(frames).finished(),
            goal == request_reading(old(frames).decoder(), old(budget)@, old(frames).finished()),
            request_reading(frames.decoder(), budget@, ended) == goal,
        decreases frames.decoder().chunk.len(),
    {
        proof {
            frames.well_formed_view();
            lemma_step_well_formed(frames.decoder(), budget@);
        }
        match frames.next(budget) {
            Err(error) => {
                return Err(error);
            },
            Ok(Next::Read) => {
                return Ok(None);
            },
            Ok(Next::End) => {
                return Err(
                    Error::Protocol(
                        Violation::stream(
                            Code::H3_REQUEST_INCOMPLETE,
                            "the request stream ended before its HEADERS frame",
                        ),
                    ),
                );
            },
            Ok(Next::Item(Item::Frame(Frame::Headers(block)))) => {
                return match request_from_block(bytes_slice(&block)) {
                    Ok(request) => Ok(Some(request)),
                    Err(violation) => Err(Error::Protocol(violation)),
                };
            },
            Ok(Next::Item(Item::Skipped { kind: _ })) => {},
            Ok(Next::Item(_)) => {
                return Err(
                    Error::Protocol(
                        Violation::connection(
                            Code::H3_FRAME_UNEXPECTED,
                            "a request stream that does not begin with HEADERS",
                        ),
                    ),
                );
            },
        }
    }
}

/// How a failure on a request stream is answered.
#[derive(Debug)]
pub enum Answer {
    /// It is not: the stream is over.
    Ended(StreamError),
    /// The connection is closed.
    Close(Violation),
    /// The stream is reset, where this end still sends on it, and the peer asked
    /// to stop, both with the violation's code.
    Abandon(Violation),
}

/// Decides how a failure of the frame layer is answered.
pub fn answer(error: Error) -> (answer: Answer)
    ensures
        match error {
            Error::Stream(ended) => answer == Answer::Ended(ended),
            Error::Protocol(violation) => answer == if violation@.fatal {
                Answer::Close(violation)
            } else {
                Answer::Abandon(violation)
            },
        },
{
    match error {
        Error::Stream(ended) => Answer::Ended(ended),
        Error::Protocol(violation) => if violation.is_connection_error() {
            Answer::Close(violation)
        } else {
            Answer::Abandon(violation)
        },
    }
}

/// How a request that was not accepted is answered.
pub enum Reaction {
    /// The connection is closed.
    Close,
    /// The stream is answered with this status.
    Respond(Status),
    /// The stream is given up.
    Abandon,
}

/// How a fault of a request is answered.
pub open spec fn reaction_to(fault: Fault) -> Reaction {
    if fault.field_section {
        Reaction::Respond(Status::REQUEST_HEADER_FIELDS_TOO_LARGE)
    } else if fault.fatal {
        Reaction::Close
    } else {
        Reaction::Abandon
    }
}

/// What becomes of a request stream that is being resolved.
#[derive(Debug)]
pub enum Resolved {
    /// More of it has to be read.
    Read(Resolver),
    /// Its request is served.
    Serve(Request, Stream),
    /// It is answered with this status, finished if the answer was taken, and the
    /// peer asked to stop sending with the violation's code.
    Respond(Status, Violation),
    /// It failed.
    Failed(Answer),
}

/// A request stream whose request has not arrived.
#[derive(Debug)]
pub struct Resolver {
    id: u64,
    frames: FrameReader,
}

impl Resolver {
    /// The QUIC stream ID.
    pub closed spec fn stream_id(self) -> u64 {
        self.id
    }

    /// The state of its frame decoder.
    pub closed spec fn decoder(self) -> DecoderView {
        self.frames.decoder()
    }

    /// Whether the peer has finished sending.
    pub closed spec fn finished(self) -> bool {
        self.frames.finished()
    }

    /// What holds of every resolver between calls.
    pub closed spec fn well_formed(self) -> bool {
        self.frames.well_formed()
    }

    /// A resolver for the request stream `id`.
    pub fn new(id: u64) -> (resolver: Resolver)
        ensures
            resolver.well_formed(),
            resolver.stream_id() == id,
            !resolver.finished(),
            resolver.decoder() == (DecoderView {
                chunk: Seq::empty(),
                header: Seq::empty(),
                payload: Seq::empty(),
                charged: 0,
                stream: StreamKind::Request,
                state: State::Header,
            }),
    {
        Resolver { id, frames: FrameReader::on_request_stream() }
    }

    /// Takes what a read of the stream gave.
    pub fn received(&mut self, chunk: Option<Bytes>) -> (result: Result<(), Answer>)
        requires
            old(self).well_formed(),
            old(self).decoder().chunk.len() == 0,
        ensures
            final(self).well_formed(),
            final(self).stream_id() == old(self).stream_id(),
            match chunk {
                Some(bytes) => result is Ok && final(self).finished() == old(self).finished()
                    && final(self).decoder() == (DecoderView {
                    chunk: held(bytes),
                    ..old(self).decoder()
                }),
                None => final(self).finished() && final(self).decoder() == old(self).decoder()
                    && if at_boundary(old(self).decoder()) {
                    result is Ok
                } else {
                    result matches Err(Answer::Close(violation)) && violation@
                        == Fault::connection(
                        Code::H3_FRAME_ERROR,
                        "the stream ended part-way through a frame"@,
                    )
                },
            },
    {
        match self.frames.received(chunk) {
            Ok(()) => Ok(()),
            Err(error) => Err(answer(error)),
        }
    }

    /// Resolves the stream into a request, or into how it is answered.
    ///
    /// A field section larger than this server handles is answered with a 431,
    /// and the connection carries on.
    pub fn resolve(self, budget: &mut BufferBudget) -> (resolved: Resolved)
        requires
            self.well_formed(),
        ensures
            ({
                let reading = request_reading(self.decoder(), old(budget)@, self.finished());
                match reading.outcome {
                    Ok(None) => {
                        &&& resolved matches Resolved::Read(next) && next.well_formed()
                            && next.stream_id() == self.stream_id() && next.decoder()
                            == reading.decoder && next.finished() == self.finished()
                            && next.decoder().chunk.len() == 0
                        &&& final(budget)@ == reading.held
                    },
                    Ok(Some(expected)) => {
                        &&& resolved matches Resolved::Serve(request, stream) && request@
                            == expected && stream.well_formed() && stream.stream_id()
                            == self.stream_id() && stream.decoder() == reading.decoder
                            && stream.finished() == self.finished()
                        &&& final(budget)@ == reading.held
                    },
                    Err(fault) => {
                        &&& final(budget)@ == released(reading.held, reading.decoder.charged)
                        &&& match reaction_to(fault) {
                            Reaction::Close => resolved matches Resolved::Failed(Answer::Close(_)),
                            Reaction::Respond(status) =>
                                resolved matches Resolved::Respond(given, _) && given == status,
                            Reaction::Abandon => resolved matches Resolved::Failed(
                                Answer::Abandon(_),
                            ),
                        }
                        &&& if fault.field_section {
                            resolved matches Resolved::Respond(status, violation) && status
                                == Status::REQUEST_HEADER_FIELDS_TOO_LARGE && violation@ == fault
                        } else if fault.fatal {
                            resolved matches Resolved::Failed(Answer::Close(violation))
                                && violation@ == fault
                        } else {
                            resolved matches Resolved::Failed(Answer::Abandon(violation))
                                && violation@ == fault
                        }
                    },
                }
            }),
    {
        let id: u64 = self.id;
        let mut frames = self.frames;
        match read_request(&mut frames, budget) {
            Ok(None) => Resolved::Read(Resolver { id, frames }),
            Ok(Some(request)) => Resolved::Serve(request, Stream { id, frames }),
            Err(error) => {
                frames.abandon(budget);
                match error {
                    Error::Protocol(violation) => if violation.is_field_section_too_large() {
                        Resolved::Respond(Status::REQUEST_HEADER_FIELDS_TOO_LARGE, violation)
                    } else {
                        Resolved::Failed(answer(Error::Protocol(violation)))
                    },
                    other => Resolved::Failed(answer(other)),
                }
            },
        }
    }

    /// Gives up a stream whose request did not arrive in time.
    pub fn expired(self, budget: &mut BufferBudget) -> (answer: Answer)
        ensures
            final(budget)@ == released(old(budget)@, self.decoder().charged),
            answer matches Answer::Abandon(violation) && violation@ == Fault::stream(
                Code::H3_REQUEST_INCOMPLETE,
                "the request headers did not arrive within one idle timeout"@,
            ),
    {
        self.frames.abandon(budget);
        Answer::Abandon(
            Violation::stream(
                Code::H3_REQUEST_INCOMPLETE,
                "the request headers did not arrive within one idle timeout",
            ),
        )
    }
}

// ---------------------------------------------------------------------------
// Answering a request
// ---------------------------------------------------------------------------

/// Why a response never reached the peer.
#[derive(Debug)]
pub enum RespondError {
    /// The write failed.
    Failed(StreamError),
    /// The peer did not take the response in time, and the stream has been reset.
    Expired,
}

impl RespondError {
    /// The error as text.
    pub open spec fn text(self) -> Seq<char> {
        match self {
            RespondError::Failed(error) => error.text(),
            RespondError::Expired =>
                "the peer did not take the response within one idle timeout"@,
        }
    }

    /// The error as text.
    pub fn to_string(&self) -> (text: String)
        ensures
            text@ == self.text(),
    {
        match self {
            RespondError::Failed(error) => error.to_string(),
            RespondError::Expired => {
                "the peer did not take the response within one idle timeout".to_owned()
            },
        }
    }
}

/// How writing a response ended.
#[derive(Debug)]
pub enum Delivery {
    /// It was written.
    Written,
    /// The write failed.
    Failed(StreamError),
    /// The deadline passed.
    Expired,
}

/// The fields of a response: its status, then the fields given.
pub open spec fn response_fields(status: Status, fields: Seq<FieldBytes>) -> Seq<FieldBytes> {
    seq![(encode_utf8(":status"@), three_digits(status.number()))] + fields
}

/// A request stream whose request has arrived.
#[derive(Debug)]
pub struct Stream {
    id: u64,
    frames: FrameReader,
}

impl Stream {
    /// The QUIC stream ID.
    pub closed spec fn stream_id(self) -> u64 {
        self.id
    }

    /// The state of its frame decoder.
    pub closed spec fn decoder(self) -> DecoderView {
        self.frames.decoder()
    }

    /// Whether the peer has finished sending.
    pub closed spec fn finished(self) -> bool {
        self.frames.finished()
    }

    /// What holds of every stream between calls.
    pub closed spec fn well_formed(self) -> bool {
        self.frames.well_formed()
    }

    /// The QUIC stream ID.
    pub fn id(&self) -> (id: u64)
        ensures
            id == self.stream_id(),
    {
        self.id
    }

    /// Claims this stream's inbound HTTP Datagrams, unless they are claimed.
    pub fn datagrams(&mut self, shared: &mut Shared) -> (receiver: Option<DatagramReceiver>)
        ensures
            *final(self) == *old(self),
            ({
                let id = (old(self).stream_id() / 4) as u64;
                match receiver {
                    Some(receiver) => !old(shared)@.sessions.contains_key(id) && receiver.id() == id
                        && final(shared)@ == (SharedView {
                        sessions: old(shared)@.sessions.insert(id, Seq::empty()),
                        ..old(shared)@
                    }),
                    None => old(shared)@.sessions.contains_key(id) && final(shared)@
                        == old(shared)@,
                }
            }),
    {
        shared.register_datagrams(quarter_stream_id(self.id))
    }

    /// A response without a body, as the two chunks of a HEADERS frame. Only the
    /// fields given are sent.
    pub fn respond_with(status: Status, fields: &Fields) -> (chunks: (Bytes, Bytes))
        requires
            section_bytes(response_fields(status, fields@)).len() <= isize::MAX,
            section_bytes(response_fields(status, fields@)).len() <= VARINT_MAX,
        ensures
            held(chunks.1) == section_bytes(response_fields(status, fields@)),
            held(chunks.0) == header_bytes(HEADERS, held(chunks.1).len() as u64),
    {
        let digits: String = status.as_str();
        let listed = fields.iter();
        let mut lines: Vec<(&[u8], &[u8])> = Vec::new();
        lines.push((":status".as_bytes(), digits.as_str().as_bytes()));
        let mut at: usize = 0;
        while at < listed.len()
            invariant
                at <= listed.len(),
                lines.len() == at + 1,
                lines@[0].0@ == encode_utf8(":status"@),
                lines@[0].1@ == three_digits(status.number()),
                listed@.len() == fields@.len(),
                forall|i: int|
                    0 <= i < listed@.len() ==> fields@[i] == (
                        encode_utf8((#[trigger] listed@[i]).0@),
                        listed@[i].1@,
                    ),
                forall|i: int|
                    0 <= i < at ==> ((#[trigger] lines@[i + 1]).0@, lines@[i + 1].1@) == fields@[i],
            decreases listed.len() - at,
        {
            let (name, value) = listed[at];
            lines.push((name.as_bytes(), value.as_bytes()));
            at = at + 1;
        }
        proof {
            let expected = response_fields(status, fields@);
            let got = borrowed_bytes(lines@);
            assert forall|i: int| 0 <= i < got.len() implies got[i] == expected[i] by {
                if i > 0 {
                    assert(lines@[(i - 1) + 1] == lines@[i]);
                }
            }
            assert(got =~= expected);
        }
        let mut block = bytes_mut_new();
        qpack::encode(&mut block, lines.as_slice());
        assert(written(block) =~= section_bytes(response_fields(status, fields@)));
        let length: usize = bytes_mut_slice(&block).len();
        let mut header = bytes_mut_new();
        put_header(&mut header, HEADERS, length as u64);
        assert(written(header) =~= header_bytes(HEADERS, length as u64));
        (bytes_mut_freeze(header), bytes_mut_freeze(block))
    }

    /// Judges how writing a response ended: the code to reset the stream with, if
    /// it is to be reset, and the result.
    ///
    /// A response that was not taken in time is abandoned with a reset: an end of
    /// stream could not be sent either.
    pub fn respond_within(delivery: Delivery) -> (responded: (Option<u64>, Result<(), RespondError>))
        ensures
            match delivery {
                Delivery::Written => responded.0 is None && responded.1 is Ok,
                Delivery::Failed(error) => responded.0 is None && responded.1 == Err::<(), _>(
                    RespondError::Failed(error),
                ),
                Delivery::Expired => responded.0 == Some(Code::H3_REQUEST_CANCELLED.number())
                    && responded.1 == Err::<(), _>(RespondError::Expired),
            },
    {
        match delivery {
            Delivery::Written => (None, Ok(())),
            Delivery::Failed(error) => (None, Err(RespondError::Failed(error))),
            Delivery::Expired => (
                Some(varint(Code::H3_REQUEST_CANCELLED)),
                Err(RespondError::Expired),
            ),
        }
    }

    /// Splits the stream so that each direction can be pumped on its own. The
    /// CONNECT has been answered, so only DATA may follow.
    pub fn split(self) -> (halves: (Writer, Reader))
        requires
            self.well_formed(),
        ensures
            halves.0.scratch().len() == 0,
            halves.1.well_formed(),
            halves.1.finished() == self.finished(),
            halves.1.decoder() == (DecoderView { stream: StreamKind::Tunnel, ..self.decoder() }),
    {
        let mut frames = self.frames;
        frames.connect_completed();
        (Writer { header: bytes_mut_new() }, Reader { frames })
    }
}

// ---------------------------------------------------------------------------
// A tunnel's two halves
// ---------------------------------------------------------------------------

/// How waiting for the peer to stop a stream ended.
#[derive(Debug)]
pub enum Stopped {
    /// The peer asked for no more, with this code.
    Code(u64),
    /// The stream is over: everything sent was acknowledged.
    Finished,
    /// The connection was lost.
    ConnectionLost(TransportError),
    /// Anything else, with the transport's own account of it.
    Other(String),
}

/// The sending half of a tunnel.
#[derive(Debug)]
pub struct Writer {
    header: BytesMut,
}

impl Writer {
    /// What the scratch buffer for frame headers holds between calls.
    pub closed spec fn scratch(self) -> Seq<u8> {
        written(self.header)
    }

    /// The two chunks of a DATA frame; the payload is not copied.
    pub fn send_data(&mut self, data: Bytes) -> (chunks: (Bytes, Bytes))
        requires
            old(self).scratch().len() == 0,
            held(data).len() <= VARINT_MAX,
        ensures
            final(self).scratch().len() == 0,
            held(chunks.0) == header_bytes(DATA, held(data).len() as u64),
            chunks.1 == data,
    {
        let length: usize = bytes_slice(&data).len();
        put_header(&mut self.header, DATA, length as u64);
        let header = bytes_mut_freeze(bytes_mut_split(&mut self.header));
        assert(held(header) =~= header_bytes(DATA, length as u64));
        (header, data)
    }

    /// Reads how waiting for the peer to stop the stream ended. Each way means
    /// that nothing more will be sent.
    pub fn stopped(outcome: Stopped) -> (error: StreamError)
        ensures
            match outcome {
                Stopped::Code(code) => error matches StreamError::RemoteTerminate { code: named }
                    && named.number() == code && named.well_formed(),
                Stopped::Finished => error matches StreamError::Local(violation) && violation@
                    == Fault::stream(Code::H3_NO_ERROR, "the response stream is over"@),
                Stopped::ConnectionLost(lost) => error matches StreamError::Connection(inner)
                    && inner.files(lost),
                Stopped::Other(text) => error matches StreamError::Local(violation) && violation@
                    == Fault::stream(Code::H3_INTERNAL_ERROR, text@),
            },
    {
        match outcome {
            Stopped::Code(code) => StreamError::RemoteTerminate { code: Code::new(code) },
            Stopped::Finished => StreamError::Local(
                Violation::stream(Code::H3_NO_ERROR, "the response stream is over"),
            ),
            Stopped::ConnectionLost(lost) => StreamError::Connection(ConnectionError::from(lost)),
            Stopped::Other(text) => StreamError::Local(
                Violation::stream(Code::H3_INTERNAL_ERROR, text.as_str()),
            ),
        }
    }
}

/// What a tunnel's reader has for its owner.
#[derive(Debug)]
pub enum Received {
    /// A chunk of the tunnel's bytes.
    Data(Bytes),
    /// Nothing yet: the next chunk of the stream has to be read.
    Read,
    /// Nothing more: the peer has finished.
    End,
}

/// What a tunnel's reader has, in bytes.
pub enum ReceivedView {
    /// A chunk of the tunnel's bytes.
    Data(Seq<u8>),
    /// Nothing yet.
    Read,
    /// Nothing more.
    End,
}

impl View for Received {
    type V = ReceivedView;

    open spec fn view(&self) -> ReceivedView {
        match *self {
            Received::Data(data) => ReceivedView::Data(held(data)),
            Received::Read => ReceivedView::Read,
            Received::End => ReceivedView::End,
        }
    }
}

/// What asking a tunnel for its next bytes comes to.
pub struct Receiving {
    /// The decoder afterwards.
    pub decoder: DecoderView,
    /// What the budget holds afterwards.
    pub held: nat,
    /// What there is, or the fault.
    pub outcome: Result<ReceivedView, Fault>,
}

/// Reads frames up to the first bytes of DATA: empty DATA frames and frames of
/// unknown types say nothing, and no other frame may arrive.
pub open spec fn receiving(decoder: DecoderView, held: nat, finished: bool) -> Receiving
    decreases decoder.chunk.len(),
{
    let step = next_step(decoder, held);
    let (decoder_after, held_after) = (step.decoder, step.held);
    match step.outcome {
        Err(fault) => Receiving { decoder: decoder_after, held: held_after, outcome: Err(fault) },
        Ok(None) => Receiving {
            decoder: decoder_after,
            held: held_after,
            outcome: Ok(
                if finished {
                    ReceivedView::End
                } else {
                    ReceivedView::Read
                },
            ),
        },
        Ok(Some(item)) => match item {
            ItemView::Frame(_) => Receiving {
                decoder: decoder_after,
                held: held_after,
                outcome: Err(
                    Fault::connection(
                        Code::H3_FRAME_UNEXPECTED,
                        "a frame other than DATA once the CONNECT method had completed"@,
                    ),
                ),
            },
            ItemView::Data(data) if data.len() > 0 => Receiving {
                decoder: decoder_after,
                held: held_after,
                outcome: Ok(ReceivedView::Data(data)),
            },
            _ => if decoder_after.chunk.len() < decoder.chunk.len() {
                receiving(decoder_after, held_after, finished)
            } else {
                Receiving {
                    decoder: decoder_after,
                    held: held_after,
                    outcome: Ok(ReceivedView::Read),
                }
            },
        },
    }
}

/// What a look at a stream that nothing is read from says.
#[derive(Debug)]
pub enum Peek {
    /// It has bytes to give.
    Readable,
    /// It has ended.
    Ended,
    /// A look at it failed.
    Failed(TransferError),
}

/// What whoever waits for the peer to reset a stream does next.
#[derive(Debug)]
pub enum ResetWatch {
    /// Look again, once [`RESET_PEEK_INTERVAL`] has passed.
    Again,
    /// Wait for ever: there will be no reset.
    Never,
    /// Stop waiting: the stream is over.
    Ended(StreamError),
}

/// How long until a stream with bytes to give is looked at again, in
/// milliseconds.
pub const RESET_PEEK_INTERVAL: u64 = 250;

/// The receiving half of a tunnel.
#[derive(Debug)]
pub struct Reader {
    frames: FrameReader,
}

impl Reader {
    /// The state of its frame decoder.
    pub closed spec fn decoder(self) -> DecoderView {
        self.frames.decoder()
    }

    /// Whether the peer has finished sending.
    pub closed spec fn finished(self) -> bool {
        self.frames.finished()
    }

    /// What holds of every reader between calls.
    pub closed spec fn well_formed(self) -> bool {
        self.frames.well_formed()
    }

    /// Takes what a read of the stream gave.
    pub fn received(&mut self, chunk: Option<Bytes>) -> (result: Result<(), Answer>)
        requires
            old(self).well_formed(),
            old(self).decoder().chunk.len() == 0,
        ensures
            final(self).well_formed(),
            match chunk {
                Some(bytes) => result is Ok && final(self).finished() == old(self).finished()
                    && final(self).decoder() == (DecoderView {
                    chunk: held(bytes),
                    ..old(self).decoder()
                }),
                None => final(self).finished() && final(self).decoder() == old(self).decoder()
                    && if at_boundary(old(self).decoder()) {
                    result is Ok
                } else {
                    result matches Err(Answer::Close(violation)) && violation@
                        == Fault::connection(
                        Code::H3_FRAME_ERROR,
                        "the stream ended part-way through a frame"@,
                    )
                },
            },
    {
        match self.frames.received(chunk) {
            Ok(()) => Ok(()),
            Err(error) => Err(Reader::report(error)),
        }
    }

    /// The next bytes of the tunnel that have arrived, or what to do to get some.
    pub fn recv_data(&mut self, budget: &mut BufferBudget) -> (result: Result<Received, Answer>)
        requires
            old(self).well_formed(),
        ensures
            final(self).well_formed(),
            final(self).finished() == old(self).finished(),
            ({
                let expected = receiving(old(self).decoder(), old(budget)@, old(self).finished());
                &&& final(self).decoder() == expected.decoder
                &&& final(budget)@ == expected.held
                &&& match (result, expected.outcome) {
                    (Ok(received), Ok(view)) => received@ == view && (received is Read
                        ==> final(self).decoder().chunk.len() == 0),
                    (Err(answer), Err(fault)) => if fault.fatal {
                        answer matches Answer::Close(violation) && violation@ == fault
                    } else {
                        answer matches Answer::Abandon(violation) && violation@ == fault
                    },
                    _ => false,
                }
            }),
    {
        let ghost goal = receiving(self.decoder(), budget@, self.finished());
        let ghost ended = self.finished();
        loop
            invariant
                self.well_formed(),
                self.finished() == ended,
                ended == old(self).finished(),
                goal == receiving(old(self).decoder(), old(budget)@, old(self).finished()),
                receiving(self.decoder(), budget@, ended) == goal,
            decreases self.decoder().chunk.len(),
        {
            proof {
                self.frames.well_formed_view();
                lemma_step_well_formed(self.decoder(), budget@);
            }
            match self.frames.next(budget) {
                Err(error) => {
                    return Err(Reader::report(error));
                },
                Ok(Next::Read) => {
                    return Ok(Received::Read);
                },
                Ok(Next::End) => {
                    return Ok(Received::End);
                },
                Ok(Next::Item(Item::Skipped { kind: _ })) => {},
                Ok(Next::Item(Item::Data(data))) => {
                    if bytes_slice(&data).len() > 0 {
                        return Ok(Received::Data(data));
                    }
                },
                Ok(Next::Item(Item::Frame(_))) => {
                    return Err(
                        Reader::report(
                            Error::Protocol(
                                Violation::connection(
                                    Code::H3_FRAME_UNEXPECTED,
                                    "a frame other than DATA once the CONNECT method had completed",
                                ),
                            ),
                        ),
                    );
                },
            }
        }
    }

    /// Decides what waiting for a reset does next, from a look at the stream.
    ///
    /// Only a reset ends the wait, or the connection: a clean end and a stream
    /// this end stopped are met by whoever reads.
    pub fn reset_by_peer(peek: Peek) -> (watch: ResetWatch)
        ensures
            match peek {
                Peek::Readable => watch is Again,
                Peek::Ended => watch is Never,
                Peek::Failed(TransferError::Terminated { code, text: _ }) =>
                    watch matches ResetWatch::Ended(StreamError::RemoteTerminate { code: named })
                        && named.number() == code && named.well_formed(),
                Peek::Failed(TransferError::ConnectionLost(lost)) =>
                    watch matches ResetWatch::Ended(StreamError::Connection(inner))
                        && inner.files(lost),
                Peek::Failed(TransferError::Other { text: _ }) => watch is Never,
            },
    {
        match peek {
            Peek::Readable => ResetWatch::Again,
            Peek::Ended => ResetWatch::Never,
            Peek::Failed(error) => match error {
                TransferError::Terminated { code, text: _ } => ResetWatch::Ended(
                    StreamError::RemoteTerminate { code: Code::new(code) },
                ),
                TransferError::ConnectionLost(lost) => ResetWatch::Ended(
                    StreamError::Connection(ConnectionError::from(lost)),
                ),
                TransferError::Other { text: _ } => ResetWatch::Never,
            },
        }
    }

    /// Decides how a failure of the frame layer is answered. Only the receiving
    /// half is here, so nothing resets the response.
    fn report(error: Error) -> (answer: Answer)
        ensures
            match error {
                Error::Stream(ended) => answer == Answer::Ended(ended),
                Error::Protocol(violation) => answer == if violation@.fatal {
                    Answer::Close(violation)
                } else {
                    Answer::Abandon(violation)
                },
            },
    {
        answer(error)
    }

    /// Gives the reader up, returning to the budget what a half-received frame
    /// was holding.
    pub fn abandon(self, budget: &mut BufferBudget)
        ensures
            final(budget)@ == released(old(budget)@, self.decoder().charged),
    {
        self.frames.abandon(budget);
    }
}

} // verus!
