//! The vocabulary of an HTTP message: statuses, methods, fields, requests.

use vstd::prelude::*;
use vstd::string::StringExecFns;
use vstd::utf8::{
    decode_utf8, encode_utf8, encode_utf8_decode_utf8, is_leading_byte_width_1, pop_first_scalar,
    valid_utf8,
};

use crate::logfmt::{quoted, quoted_text};
use crate::text::{decimal, decimal_text};

verus! {

/// Reads `bytes` as text by `std::str::from_utf8`, which takes exactly the valid
/// UTF-8 and gives the text with that encoding.
#[verifier::external_body]
pub(crate) fn utf8(bytes: &[u8]) -> (text: Option<&str>)
    ensures
        match text {
            Some(text) => encode_utf8(text@) == bytes@ && valid_utf8(bytes@),
            None => !valid_utf8(bytes@),
        },
{
    std::str::from_utf8(bytes).ok()
}

/// Bytes below 0x80 are valid UTF-8.
pub proof fn ascii_is_utf8(bytes: Seq<u8>)
    requires
        forall|i: int| 0 <= i < bytes.len() ==> #[trigger] bytes[i] < 0x80,
    ensures
        valid_utf8(bytes),
    decreases bytes.len(),
{
    if bytes.len() > 0 {
        let first = bytes[0];
        assert(is_leading_byte_width_1(first)) by {
            assert(first < 0x80 ==> first & 0x80 == 0) by (bit_vector);
        }
        assert(vstd::utf8::not_overlong_encoding(vstd::utf8::decode_first_codepoint(bytes), 1)) by {
            assert(first & 0x7f <= 0x7f) by (bit_vector);
        }
        assert(pop_first_scalar(bytes) =~= bytes.subrange(1, bytes.len() as int));
        ascii_is_utf8(bytes.subrange(1, bytes.len() as int));
    }
}

/// Two texts are the same exactly where their bytes are.
pub proof fn text_is_its_bytes(left: Seq<char>, right: Seq<char>)
    ensures
        left == right <==> encode_utf8(left) == encode_utf8(right),
{
    encode_utf8_decode_utf8(left);
    encode_utf8_decode_utf8(right);
}

/// Whether two slices hold the same bytes.
pub(crate) fn same_bytes(left: &[u8], right: &[u8]) -> (same: bool)
    ensures
        same <==> left@ == right@,
{
    if left.len() != right.len() {
        return false;
    }
    let mut at: usize = 0;
    while at < left.len()
        invariant
            at <= left.len() == right.len(),
            forall|i: int| 0 <= i < at ==> left@[i] == right@[i],
        decreases left.len() - at,
    {
        if left[at] != right[at] {
            return false;
        }
        at = at + 1;
    }
    assert(left@ =~= right@);
    true
}

/// Whether `byte` may appear in a token (RFC 9110 section 5.6.2).
pub open spec fn token_byte(byte: u8) -> bool {
    ||| 0x30 <= byte <= 0x39
    ||| 0x41 <= byte <= 0x5a
    ||| 0x61 <= byte <= 0x7a
    ||| byte == 0x21 || byte == 0x23 || byte == 0x24 || byte == 0x25 || byte == 0x26
    ||| byte == 0x27 || byte == 0x2a || byte == 0x2b || byte == 0x2d || byte == 0x2e
    ||| byte == 0x5e || byte == 0x5f || byte == 0x60 || byte == 0x7c || byte == 0x7e
}

/// Whether `bytes` is a token.
pub open spec fn is_token(bytes: Seq<u8>) -> bool {
    bytes.len() > 0 && forall|i: int| 0 <= i < bytes.len() ==> token_byte(#[trigger] bytes[i])
}

/// Whether `bytes` is a field name: a token without upper-case letters.
pub open spec fn is_field_name(bytes: Seq<u8>) -> bool {
    is_token(bytes) && forall|i: int|
        0 <= i < bytes.len() ==> !(0x41 <= #[trigger] bytes[i] <= 0x5a)
}

/// Whether `byte` may appear in a field value: anything but control characters
/// other than the tab.
pub open spec fn value_byte(byte: u8) -> bool {
    0x20 <= byte <= 0x7e || byte >= 0x80 || byte == 0x09
}

/// Whether `bytes` is a field value.
pub open spec fn is_value(bytes: Seq<u8>) -> bool {
    forall|i: int| 0 <= i < bytes.len() ==> value_byte(#[trigger] bytes[i])
}

/// An ASCII letter in lower case; any other byte as it is.
pub open spec fn lower(byte: u8) -> u8 {
    if 0x41 <= byte <= 0x5a {
        (byte + 0x20) as u8
    } else {
        byte
    }
}

/// Whether two names are the same but for the case of ASCII letters.
pub open spec fn same_name(left: Seq<u8>, right: Seq<u8>) -> bool {
    left.len() == right.len() && forall|i: int|
        0 <= i < left.len() ==> lower(#[trigger] left[i]) == lower(right[i])
}

/// Whether `byte` may appear in a token.
pub fn is_tchar(byte: u8) -> (result: bool)
    ensures
        result == token_byte(byte),
{
    match byte {
        0x30..=0x39 | 0x41..=0x5a | 0x61..=0x7a => true,
        0x21 | 0x23 | 0x24 | 0x25 | 0x26 | 0x27 | 0x2a | 0x2b | 0x2d | 0x2e => true,
        0x5e | 0x5f | 0x60 | 0x7c | 0x7e => true,
        _ => false,
    }
}

fn is_all_tchar(bytes: &[u8]) -> (result: bool)
    ensures
        result <==> is_token(bytes@),
{
    if bytes.len() == 0 {
        return false;
    }
    let mut at: usize = 0;
    while at < bytes.len()
        invariant
            at <= bytes.len(),
            forall|i: int| 0 <= i < at ==> token_byte(#[trigger] bytes@[i]),
        decreases bytes.len() - at,
    {
        if !is_tchar(bytes[at]) {
            return false;
        }
        at = at + 1;
    }
    true
}

/// Whether `value` is a field value.
pub fn is_field_value(value: &[u8]) -> (result: bool)
    ensures
        result <==> is_value(value@),
{
    let mut at: usize = 0;
    while at < value.len()
        invariant
            at <= value.len(),
            forall|i: int| 0 <= i < at ==> value_byte(#[trigger] value@[i]),
        decreases value.len() - at,
    {
        let byte: u8 = value[at];
        if !((0x20 <= byte && byte <= 0x7e) || byte >= 0x80 || byte == 0x09) {
            return false;
        }
        at = at + 1;
    }
    true
}

/// A token is ASCII, and so is valid UTF-8.
pub proof fn token_is_utf8(bytes: Seq<u8>)
    requires
        is_token(bytes),
    ensures
        valid_utf8(bytes),
{
    ascii_is_utf8(bytes);
}

/// Reads a field name: a token in lower case (RFC 9114 section 4.2).
pub fn field_name(bytes: &[u8]) -> (name: Option<&str>)
    ensures
        match name {
            Some(name) => is_field_name(bytes@) && encode_utf8(name@) == bytes@,
            None => !is_field_name(bytes@),
        },
{
    if !is_all_tchar(bytes) {
        return None;
    }
    let mut at: usize = 0;
    while at < bytes.len()
        invariant
            at <= bytes.len(),
            forall|i: int| 0 <= i < at ==> !(0x41 <= #[trigger] bytes@[i] <= 0x5a),
        decreases bytes.len() - at,
    {
        if 0x41 <= bytes[at] && bytes[at] <= 0x5a {
            return None;
        }
        at = at + 1;
    }
    proof {
        token_is_utf8(bytes@);
    }
    utf8(bytes)
}

/// Whether a number is that of a status with a name.
pub open spec fn named_status(number: u16) -> bool {
    ||| number == 200 || number == 400 || number == 403 || number == 407 || number == 431
    ||| 500 <= number <= 504
}

/// Three decimal digits, the first not a zero, that no status has a name for.
#[derive(Clone, Copy, Debug, PartialEq, Eq, Hash, Structural)]
pub struct OtherStatus {
    number: u16,
}

impl OtherStatus {
    /// The number that the digits make.
    pub closed spec fn number(self) -> u16 {
        self.number
    }

    /// The number has three digits, and one with a name is held under that name.
    #[verifier::type_invariant]
    spec fn nameless(self) -> bool {
        100 <= self.number <= 999 && !named_status(self.number)
    }
}

/// A response status code: three decimal digits, the first not a zero.
#[allow(non_camel_case_types)]
#[derive(Clone, Copy, Debug, PartialEq, Eq, Hash, Structural)]
pub enum Status {
    /// 200: the tunnel is open.
    OK,
    /// 400: the request is not one this proxy can act on.
    BAD_REQUEST,
    /// 403: refused by this proxy's own policy.
    FORBIDDEN,
    /// 407: the request needs credentials.
    PROXY_AUTHENTICATION_REQUIRED,
    /// 431: the field section is larger than this server handles.
    REQUEST_HEADER_FIELDS_TOO_LARGE,
    /// 500: a fault on this side of the tunnel.
    INTERNAL_SERVER_ERROR,
    /// 501: a method or protocol this proxy does not serve.
    NOT_IMPLEMENTED,
    /// 502: the target refused the connection or could not be looked up.
    BAD_GATEWAY,
    /// 503: the target could not be reached, or this proxy is at a limit.
    SERVICE_UNAVAILABLE,
    /// 504: the target never answered.
    GATEWAY_TIMEOUT,
    /// Any other code, by its number.
    Other(OtherStatus),
}

/// The three decimal digits of a number below a thousand.
pub open spec fn three_digits(number: u16) -> Seq<u8> {
    seq![
        (0x30 + number / 100) as u8,
        (0x30 + number / 10 % 10) as u8,
        (0x30 + number % 10) as u8,
    ]
}

impl Status {
    /// The number of a status.
    pub open spec fn number(self) -> u16 {
        match self {
            Status::OK => 200,
            Status::BAD_REQUEST => 400,
            Status::FORBIDDEN => 403,
            Status::PROXY_AUTHENTICATION_REQUIRED => 407,
            Status::REQUEST_HEADER_FIELDS_TOO_LARGE => 431,
            Status::INTERNAL_SERVER_ERROR => 500,
            Status::NOT_IMPLEMENTED => 501,
            Status::BAD_GATEWAY => 502,
            Status::SERVICE_UNAVAILABLE => 503,
            Status::GATEWAY_TIMEOUT => 504,
            Status::Other(other) => other.number(),
        }
    }

    /// Whether a number has three digits, and is held under its name where it
    /// has one.
    pub open spec fn well_formed(self) -> bool {
        self matches Status::Other(other) ==> 100 <= other.number() <= 999 && !named_status(
            other.number(),
        )
    }

    fn from_number(number: u16) -> (status: Status)
        requires
            100 <= number <= 999,
        ensures
            status.number() == number,
            status.well_formed(),
    {
        match number {
            200 => Status::OK,
            400 => Status::BAD_REQUEST,
            403 => Status::FORBIDDEN,
            407 => Status::PROXY_AUTHENTICATION_REQUIRED,
            431 => Status::REQUEST_HEADER_FIELDS_TOO_LARGE,
            500 => Status::INTERNAL_SERVER_ERROR,
            501 => Status::NOT_IMPLEMENTED,
            502 => Status::BAD_GATEWAY,
            503 => Status::SERVICE_UNAVAILABLE,
            504 => Status::GATEWAY_TIMEOUT,
            _ => Status::Other(OtherStatus { number }),
        }
    }

    /// Reads a `:status` value.
    pub fn parse(bytes: &[u8]) -> (status: Option<Status>)
        ensures
            match status {
                Some(status) => status.well_formed() && bytes@ == three_digits(status.number()),
                None => forall|number: u16|
                    100 <= number <= 999 ==> bytes@ != #[trigger] three_digits(number),
            },
    {
        if bytes.len() != 3 {
            return None;
        }
        let hundreds: u8 = bytes[0];
        let tens: u8 = bytes[1];
        let ones: u8 = bytes[2];
        if hundreds <= 0x30 || hundreds > 0x39 || tens < 0x30 || tens > 0x39 || ones < 0x30 || ones
            > 0x39 {
            proof {
                assert forall|number: u16| 100 <= number <= 999 implies bytes@
                    != #[trigger] three_digits(number) by {
                    assert(three_digits(number)[0] == (0x30 + number / 100) as u8);
                    assert(three_digits(number)[1] == (0x30 + number / 10 % 10) as u8);
                    assert(three_digits(number)[2] == (0x30 + number % 10) as u8);
                }
            }
            return None;
        }
        let number: u16 = (hundreds - 0x30) as u16 * 100 + (tens - 0x30) as u16 * 10 + (ones
            - 0x30) as u16;
        assert(bytes@ =~= three_digits(number));
        Some(Status::from_number(number))
    }

    /// The three digits of the status.
    pub fn as_str(&self) -> (text: String)
        ensures
            encode_utf8(text@) == three_digits(self.number()),
    {
        let number: u16 = match *self {
            Status::OK => 200,
            Status::BAD_REQUEST => 400,
            Status::FORBIDDEN => 403,
            Status::PROXY_AUTHENTICATION_REQUIRED => 407,
            Status::REQUEST_HEADER_FIELDS_TOO_LARGE => 431,
            Status::INTERNAL_SERVER_ERROR => 500,
            Status::NOT_IMPLEMENTED => 501,
            Status::BAD_GATEWAY => 502,
            Status::SERVICE_UNAVAILABLE => 503,
            Status::GATEWAY_TIMEOUT => 504,
            Status::Other(other) => {
                proof {
                    use_type_invariant(&other);
                }
                other.number
            },
        };
        let digits: [u8; 3] = [
            (0x30 + number / 100) as u8,
            (0x30 + number / 10 % 10) as u8,
            (0x30 + number % 10) as u8,
        ];
        assert(digits@ =~= three_digits(number));
        proof {
            ascii_is_utf8(digits@);
        }
        match utf8(digits.as_slice()) {
            Some(text) => text.to_owned(),
            None => String::new(),
        }
    }
}

impl Status {
    /// The three digits of the status.
    pub fn to_string(&self) -> (text: String)
        ensures
            encode_utf8(text@) == three_digits(self.number()),
    {
        self.as_str()
    }
}

/// Statuses are told apart by their digits.
pub proof fn statuses_are_their_digits(left: Status, right: Status)
    requires
        left.well_formed(),
        right.well_formed(),
    ensures
        left == right <==> three_digits(left.number()) == three_digits(right.number()),
{
    let a = left.number();
    let b = right.number();
    assert(three_digits(a)[0] == (0x30 + a / 100) as u8);
    assert(three_digits(a)[1] == (0x30 + a / 10 % 10) as u8);
    assert(three_digits(a)[2] == (0x30 + a % 10) as u8);
    assert(three_digits(b)[0] == (0x30 + b / 100) as u8);
    assert(three_digits(b)[1] == (0x30 + b / 10 % 10) as u8);
    assert(three_digits(b)[2] == (0x30 + b % 10) as u8);
    if three_digits(a) == three_digits(b) {
        assert(a == b);
    }
}

/// A request method.
#[derive(Debug, Clone, PartialEq, Eq)]
pub enum Method {
    /// CONNECT, the method this server serves.
    Connect,
    /// Any other token, kept so that it can be answered.
    Other(String),
}

/// The bytes of the CONNECT method.
pub open spec fn connect_bytes() -> Seq<u8> {
    encode_utf8("CONNECT"@)
}

/// What a [`Method`] says.
pub enum MethodView {
    /// CONNECT.
    Connect,
    /// Any other token, in bytes.
    Other(Seq<u8>),
}

/// The method that a token names.
pub open spec fn method_of(token: Seq<u8>) -> MethodView {
    if token == connect_bytes() {
        MethodView::Connect
    } else {
        MethodView::Other(token)
    }
}

impl View for Method {
    type V = MethodView;

    open spec fn view(&self) -> MethodView {
        match *self {
            Method::Connect => MethodView::Connect,
            Method::Other(token) => MethodView::Other(encode_utf8(token@)),
        }
    }
}

impl Method {
    /// The token of a method.
    pub open spec fn token(self) -> Seq<u8> {
        match self {
            Method::Connect => connect_bytes(),
            Method::Other(token) => encode_utf8(token@),
        }
    }

    /// Reads a `:method` value, which is a token.
    pub fn parse(bytes: &[u8]) -> (method: Option<Method>)
        ensures
            match method {
                Some(method) => is_token(bytes@) && method@ == method_of(bytes@),
                None => !is_token(bytes@),
            },
    {
        if !is_all_tchar(bytes) {
            return None;
        }
        proof {
            token_is_utf8(bytes@);
        }
        match utf8(bytes) {
            Some(token) => if same_bytes(bytes, "CONNECT".as_bytes()) {
                Some(Method::Connect)
            } else {
                Some(Method::Other(token.to_owned()))
            },
            None => None,
        }
    }

    /// The token of the method.
    pub fn as_str(&self) -> (token: &str)
        ensures
            encode_utf8(token@) == self.token(),
    {
        match self {
            Method::Connect => "CONNECT",
            Method::Other(token) => token.as_str(),
        }
    }
}

/// The value of a field: bytes, not necessarily text.
#[derive(Debug, Clone, PartialEq, Eq)]
pub struct FieldValue {
    bytes: Vec<u8>,
}

impl View for FieldValue {
    type V = Seq<u8>;

    closed spec fn view(&self) -> Seq<u8> {
        self.bytes@
    }
}

/// How a list of bytes prints, item by item.
pub open spec fn byte_items_text(bytes: Seq<u8>) -> Seq<char>
    decreases bytes.len(),
{
    if bytes.len() == 0 {
        Seq::empty()
    } else if bytes.len() == 1 {
        decimal_text(bytes[0] as nat)
    } else {
        byte_items_text(bytes.drop_last()) + ", "@ + decimal_text(bytes.last() as nat)
    }
}

impl FieldValue {
    /// A value this server writes itself.
    pub fn from_static(value: &'static str) -> (result: FieldValue)
        requires
            is_value(encode_utf8(value@)),
        ensures
            result@ == encode_utf8(value@),
    {
        FieldValue { bytes: vstd::slice::slice_to_vec(value.as_bytes()) }
    }

    /// Reads a field value (RFC 9114 section 10.3).
    pub fn parse(value: &[u8]) -> (result: Option<FieldValue>)
        ensures
            match result {
                Some(parsed) => is_value(value@) && parsed@ == value@,
                None => !is_value(value@),
            },
    {
        if is_field_value(value) {
            Some(FieldValue { bytes: vstd::slice::slice_to_vec(value) })
        } else {
            None
        }
    }

    /// The value as bytes.
    pub fn as_bytes(&self) -> (bytes: &[u8])
        ensures
            bytes@ == self@,
    {
        self.bytes.as_slice()
    }

    /// The value as text, where it is valid UTF-8.
    pub fn to_str(&self) -> (text: Option<&str>)
        ensures
            match text {
                Some(text) => encode_utf8(text@) == self@ && valid_utf8(self@),
                None => !valid_utf8(self@),
            },
    {
        utf8(self.bytes.as_slice())
    }

    /// The length of the value in bytes.
    pub fn len(&self) -> (len: usize)
        ensures
            len == self@.len(),
    {
        self.bytes.len()
    }

    /// Whether the value holds no bytes.
    pub fn is_empty(&self) -> (empty: bool)
        ensures
            empty <==> self@.len() == 0,
    {
        self.bytes.len() == 0
    }

    /// The value as a diagnostic prints it: quoted text, or a list of bytes where
    /// it is not text.
    pub fn diagnostic(&self) -> (text: String)
        ensures
            text@ == if valid_utf8(self@) {
                quoted_text(decode_utf8(self@))
            } else {
                "["@ + byte_items_text(self@) + "]"@
            },
    {
        if let Some(text) = self.to_str() {
            proof {
                encode_utf8_decode_utf8(text@);
            }
            return quoted(text);
        }
        let mut text = "[".to_owned();
        let mut at: usize = 0;
        assert(self.bytes@.subrange(0, 0) =~= Seq::<u8>::empty());
        assert(text@ =~= "["@ + byte_items_text(self.bytes@.subrange(0, 0)));
        while at < self.bytes.len()
            invariant
                at <= self.bytes.len(),
                text@ == "["@ + byte_items_text(self.bytes@.subrange(0, at as int)),
            decreases self.bytes.len() - at,
        {
            if at > 0 {
                text.append(", ");
            }
            let number = decimal(self.bytes[at] as u64);
            text.append(number.as_str());
            proof {
                let longer = self.bytes@.subrange(0, at as int + 1);
                assert(longer.drop_last() =~= self.bytes@.subrange(0, at as int));
                assert(text@ =~= "["@ + byte_items_text(longer));
            }
            at = at + 1;
        }
        assert(self.bytes@.subrange(0, at as int) =~= self.bytes@);
        text.append("]");
        text
    }
}

/// One field as a name and a value, both in bytes.
pub type FieldBytes = (Seq<u8>, Seq<u8>);

/// A field section: names and values, in the order they arrived.
#[derive(Debug, Clone)]
pub struct Fields {
    entries: Vec<(String, FieldValue)>,
}

/// The fields of a list of named values, in bytes.
pub open spec fn entries_bytes(entries: Seq<(String, FieldValue)>) -> Seq<FieldBytes> {
    Seq::new(entries.len(), |i: int| (encode_utf8(entries[i].0@), entries[i].1@))
}

impl View for Fields {
    type V = Seq<FieldBytes>;

    closed spec fn view(&self) -> Seq<FieldBytes> {
        entries_bytes(self.entries@)
    }
}

impl Default for Fields {
    fn default() -> (fields: Fields)
        ensures
            fields@ == Seq::<FieldBytes>::empty(),
    {
        Fields::new()
    }
}

/// The values of the fields called `name`, in order.
pub open spec fn values_named(fields: Seq<FieldBytes>, name: Seq<u8>) -> Seq<Seq<u8>>
    decreases fields.len(),
{
    if fields.len() == 0 {
        Seq::empty()
    } else if same_name(fields.last().0, name) {
        values_named(fields.drop_last(), name).push(fields.last().1)
    } else {
        values_named(fields.drop_last(), name)
    }
}

/// The bytes of a list of borrowed values.
pub open spec fn values_bytes(values: Seq<&FieldValue>) -> Seq<Seq<u8>> {
    Seq::new(values.len(), |i: int| values[i]@)
}

/// Whether two names are the same but for the case of ASCII letters.
fn eq_ignore_ascii_case(left: &[u8], right: &[u8]) -> (same: bool)
    ensures
        same <==> same_name(left@, right@),
{
    if left.len() != right.len() {
        return false;
    }
    let mut at: usize = 0;
    while at < left.len()
        invariant
            at <= left.len() == right.len(),
            forall|i: int| 0 <= i < at ==> lower(#[trigger] left@[i]) == lower(right@[i]),
        decreases left.len() - at,
    {
        let a: u8 = left[at];
        let b: u8 = right[at];
        let a_lower: u8 = if 0x41 <= a && a <= 0x5a {
            a + 0x20
        } else {
            a
        };
        let b_lower: u8 = if 0x41 <= b && b <= 0x5a {
            b + 0x20
        } else {
            b
        };
        if a_lower != b_lower {
            assert(lower(left@[at as int]) != lower(right@[at as int]));
            return false;
        }
        at = at + 1;
    }
    true
}

impl Fields {
    /// A section without fields.
    pub fn new() -> (fields: Fields)
        ensures
            fields@ == Seq::<FieldBytes>::empty(),
    {
        let fields = Fields { entries: Vec::new() };
        assert(fields@ =~= Seq::<FieldBytes>::empty());
        fields
    }

    /// The section with these fields, in this order.
    pub fn from_iter(entries: Vec<(String, FieldValue)>) -> (fields: Fields)
        ensures
            fields@ == entries_bytes(entries@),
    {
        Fields { entries }
    }

    /// Adds a field behind the ones that are there.
    pub fn append(&mut self, name: &str, value: FieldValue)
        requires
            is_field_name(encode_utf8(name@)),
        ensures
            final(self)@ == old(self)@.push((encode_utf8(name@), value@)),
    {
        self.entries.push((name.to_owned(), value));
        assert(self@ =~= old(self)@.push((encode_utf8(name@), value@)));
    }

    /// The first value of the field called `name`, whatever the case of either.
    pub fn get(&self, name: &str) -> (value: Option<&FieldValue>)
        ensures
            match value {
                Some(value) => values_named(self@, encode_utf8(name@)).len() > 0 && value@
                    == values_named(self@, encode_utf8(name@))[0],
                None => values_named(self@, encode_utf8(name@)).len() == 0,
            },
    {
        let mut at: usize = 0;
        let ghost wanted = encode_utf8(name@);
        assert(self@.subrange(0, 0) =~= Seq::<FieldBytes>::empty());
        while at < self.entries.len()
            invariant
                at <= self.entries.len(),
                wanted == encode_utf8(name@),
                values_named(self@.subrange(0, at as int), wanted) == Seq::<Seq<u8>>::empty(),
            decreases self.entries.len() - at,
        {
            let entry = &self.entries[at];
            proof {
                let longer = self@.subrange(0, at as int + 1);
                assert(longer.drop_last() =~= self@.subrange(0, at as int));
                assert(longer.last() == (encode_utf8(entry.0@), entry.1@));
            }
            if eq_ignore_ascii_case(entry.0.as_str().as_bytes(), name.as_bytes()) {
                proof {
                    let found = values_named(self@.subrange(0, at as int + 1), wanted);
                    assert(found =~= seq![entry.1@]);
                    lemma_values_prefix(self@, wanted, at as int + 1);
                    assert(values_named(self@, wanted)[0] == found[0]);
                }
                return Some(&entry.1);
            }
            at = at + 1;
        }
        assert(self@.subrange(0, at as int) =~= self@);
        None
    }

    /// Every value of the field called `name`, in order.
    pub fn get_all(&self, name: &str) -> (values: Vec<&FieldValue>)
        ensures
            values_bytes(values@) == values_named(self@, encode_utf8(name@)),
    {
        let mut values: Vec<&FieldValue> = Vec::new();
        let mut at: usize = 0;
        let ghost wanted = encode_utf8(name@);
        assert(self@.subrange(0, 0) =~= Seq::<FieldBytes>::empty());
        assert(values_bytes(values@) =~= Seq::<Seq<u8>>::empty());
        while at < self.entries.len()
            invariant
                at <= self.entries.len(),
                wanted == encode_utf8(name@),
                values_bytes(values@) == values_named(self@.subrange(0, at as int), wanted),
            decreases self.entries.len() - at,
        {
            let entry = &self.entries[at];
            let ghost before = values@;
            proof {
                let longer = self@.subrange(0, at as int + 1);
                assert(longer.drop_last() =~= self@.subrange(0, at as int));
                assert(longer.last() == (encode_utf8(entry.0@), entry.1@));
            }
            if eq_ignore_ascii_case(entry.0.as_str().as_bytes(), name.as_bytes()) {
                values.push(&entry.1);
                assert(values_bytes(values@) =~= values_bytes(before).push(entry.1@));
            }
            at = at + 1;
        }
        assert(self@.subrange(0, at as int) =~= self@);
        values
    }

    /// Whether there is a field called `name`.
    pub fn contains(&self, name: &str) -> (present: bool)
        ensures
            present <==> values_named(self@, encode_utf8(name@)).len() > 0,
    {
        self.get(name).is_some()
    }

    /// The fields, in order.
    pub fn iter(&self) -> (fields: Vec<(&str, &FieldValue)>)
        ensures
            fields@.len() == self@.len(),
            forall|i: int|
                0 <= i < fields@.len() ==> self@[i] == (
                    encode_utf8((#[trigger] fields@[i]).0@),
                    fields@[i].1@,
                ),
    {
        let mut fields: Vec<(&str, &FieldValue)> = Vec::new();
        let mut at: usize = 0;
        while at < self.entries.len()
            invariant
                at <= self.entries.len(),
                fields@.len() == at,
                forall|i: int|
                    0 <= i < at ==> self@[i] == (
                        encode_utf8((#[trigger] fields@[i]).0@),
                        fields@[i].1@,
                    ),
            decreases self.entries.len() - at,
        {
            let entry = &self.entries[at];
            fields.push((entry.0.as_str(), &entry.1));
            at = at + 1;
        }
        fields
    }

    /// How many fields there are.
    pub fn len(&self) -> (len: usize)
        ensures
            len == self@.len(),
    {
        self.entries.len()
    }

    /// Whether there are no fields.
    pub fn is_empty(&self) -> (empty: bool)
        ensures
            empty <==> self@.len() == 0,
    {
        self.entries.len() == 0
    }
}

/// The first values stay the first as more fields follow.
proof fn lemma_values_prefix(fields: Seq<FieldBytes>, name: Seq<u8>, count: int)
    requires
        0 <= count <= fields.len(),
    ensures
        values_named(fields, name).len() >= values_named(fields.subrange(0, count), name).len(),
        forall|i: int|
            0 <= i < values_named(fields.subrange(0, count), name).len() ==> values_named(
                fields,
                name,
            )[i] == #[trigger] values_named(fields.subrange(0, count), name)[i],
    decreases fields.len(),
{
    if count == fields.len() {
        assert(fields.subrange(0, count) =~= fields);
    } else {
        assert(fields.drop_last().subrange(0, count) =~= fields.subrange(0, count));
        lemma_values_prefix(fields.drop_last(), name, count);
    }
}

/// What a lookup finds does not depend on the case of the name asked for.
pub proof fn lookups_ignore_case(fields: Seq<FieldBytes>, left: Seq<u8>, right: Seq<u8>)
    requires
        same_name(left, right),
    ensures
        values_named(fields, left) == values_named(fields, right),
    decreases fields.len(),
{
    if fields.len() > 0 {
        lookups_ignore_case(fields.drop_last(), left, right);
        let name = fields.last().0;
        assert(same_name(name, left) ==> same_name(name, right)) by {
            if same_name(name, left) {
                assert forall|i: int| 0 <= i < name.len() implies lower(#[trigger] name[i])
                    == lower(right[i]) by {
                    assert(lower(left[i]) == lower(right[i]));
                }
            }
        }
        assert(same_name(name, right) ==> same_name(name, left)) by {
            if same_name(name, right) {
                assert forall|i: int| 0 <= i < name.len() implies lower(#[trigger] name[i])
                    == lower(left[i]) by {
                    assert(lower(left[i]) == lower(right[i]));
                }
            }
        }
    }
}

/// A request: the control data that names its target, and its fields.
#[derive(Debug, Clone)]
pub struct Request {
    /// The method.
    pub method: Method,
    /// The scheme of the target.
    pub scheme: Option<String>,
    /// The authority of the target.
    pub authority: Option<String>,
    /// The path of the target.
    pub path: Option<String>,
    /// The query of the target.
    pub query: Option<String>,
    /// The protocol an extended CONNECT asks for.
    pub protocol: Option<String>,
    /// The regular fields.
    pub fields: Fields,
}

/// What a [`Request`] says, in bytes.
pub struct RequestView {
    /// The method.
    pub method: MethodView,
    /// The scheme of the target.
    pub scheme: Option<Seq<u8>>,
    /// The authority of the target.
    pub authority: Option<Seq<u8>>,
    /// The path of the target.
    pub path: Option<Seq<u8>>,
    /// The query of the target.
    pub query: Option<Seq<u8>>,
    /// The protocol an extended CONNECT asks for.
    pub protocol: Option<Seq<u8>>,
    /// The regular fields.
    pub fields: Seq<FieldBytes>,
}

/// The bytes of a text that may be absent.
pub open spec fn text_bytes(text: Option<String>) -> Option<Seq<u8>> {
    match text {
        Some(text) => Some(encode_utf8(text@)),
        None => None,
    }
}

impl View for Request {
    type V = RequestView;

    open spec fn view(&self) -> RequestView {
        RequestView {
            method: self.method@,
            scheme: text_bytes(self.scheme),
            authority: text_bytes(self.authority),
            path: text_bytes(self.path),
            query: text_bytes(self.query),
            protocol: text_bytes(self.protocol),
            fields: self.fields@,
        }
    }
}

impl Request {
    /// A request with a method and nothing else.
    pub fn new(method: Method) -> (request: Request)
        ensures
            request.method == method,
            request@ == (RequestView {
                method: method@,
                scheme: None,
                authority: None,
                path: None,
                query: None,
                protocol: None,
                fields: Seq::empty(),
            }),
    {
        Request {
            method,
            scheme: None,
            authority: None,
            path: None,
            query: None,
            protocol: None,
            fields: Fields::new(),
        }
    }
}

} // verus!
