//! Error codes, protocol violations, and how streams and connections fail.

use vstd::prelude::*;

use vstd::string::StringExecFns;
use vstd::utf8::{decode_utf8, valid_utf8};

use crate::logfmt::{is_peer_error, lossy, lossy_text, one_line, peer_error};
use crate::text::{decimal, decimal_text, hex, hex_text};

verus! {

/// A number that no code of this crate is registered under.
#[derive(Clone, Copy, Debug, PartialEq, Eq, Hash, Structural)]
pub struct UnregisteredCode {
    value: u64,
}

impl UnregisteredCode {
    /// The number.
    pub closed spec fn number(self) -> u64 {
        self.value
    }

    /// A number with a name is held under that name.
    #[verifier::type_invariant]
    spec fn nameless(self) -> bool {
        !Code::registered(self.value)
    }
}

/// An HTTP/3 or QPACK error code.
///
/// The registry is open, so a number without a name is kept as a number.
#[allow(non_camel_case_types)]
#[derive(Clone, Copy, Debug, PartialEq, Eq, Hash, Structural)]
pub enum Code {
    /// A datagram or capsule could not be parsed (RFC 9297 section 5.2).
    H3_DATAGRAM_ERROR,
    /// No error: a clean teardown.
    H3_NO_ERROR,
    /// The peer broke the protocol in a way no other code names.
    H3_GENERAL_PROTOCOL_ERROR,
    /// This endpoint failed.
    H3_INTERNAL_ERROR,
    /// A stream was opened that may not be.
    H3_STREAM_CREATION_ERROR,
    /// A stream the connection cannot do without was closed.
    H3_CLOSED_CRITICAL_STREAM,
    /// A frame arrived where it is not allowed.
    H3_FRAME_UNEXPECTED,
    /// A frame's layout or size is wrong.
    H3_FRAME_ERROR,
    /// The peer may be generating excessive load.
    H3_EXCESSIVE_LOAD,
    /// A stream, push or request identifier was used wrongly.
    H3_ID_ERROR,
    /// The SETTINGS payload breaks a rule.
    H3_SETTINGS_ERROR,
    /// The control stream did not open with SETTINGS.
    H3_MISSING_SETTINGS,
    /// The request was rejected before any processing.
    H3_REQUEST_REJECTED,
    /// The request or its response is cancelled.
    H3_REQUEST_CANCELLED,
    /// The request stream ended before a whole request.
    H3_REQUEST_INCOMPLETE,
    /// The HTTP message is malformed.
    H3_MESSAGE_ERROR,
    /// The connection a CONNECT asked for failed.
    H3_CONNECT_ERROR,
    /// The request has to be retried over HTTP/1.1.
    H3_VERSION_FALLBACK,
    /// A field section could not be decoded (RFC 9204 section 8.3).
    QPACK_DECOMPRESSION_FAILED,
    /// An encoder instruction could not be interpreted.
    QPACK_ENCODER_STREAM_ERROR,
    /// A decoder instruction could not be interpreted.
    QPACK_DECODER_STREAM_ERROR,
    /// A number that none of the codes above is registered under.
    Unregistered(UnregisteredCode),
}

impl Code {
    /// The number a code goes on the wire as.
    pub open spec fn number(self) -> u64 {
        match self {
            Code::H3_DATAGRAM_ERROR => 0x33,
            Code::H3_NO_ERROR => 0x100,
            Code::H3_GENERAL_PROTOCOL_ERROR => 0x101,
            Code::H3_INTERNAL_ERROR => 0x102,
            Code::H3_STREAM_CREATION_ERROR => 0x103,
            Code::H3_CLOSED_CRITICAL_STREAM => 0x104,
            Code::H3_FRAME_UNEXPECTED => 0x105,
            Code::H3_FRAME_ERROR => 0x106,
            Code::H3_EXCESSIVE_LOAD => 0x107,
            Code::H3_ID_ERROR => 0x108,
            Code::H3_SETTINGS_ERROR => 0x109,
            Code::H3_MISSING_SETTINGS => 0x10a,
            Code::H3_REQUEST_REJECTED => 0x10b,
            Code::H3_REQUEST_CANCELLED => 0x10c,
            Code::H3_REQUEST_INCOMPLETE => 0x10d,
            Code::H3_MESSAGE_ERROR => 0x10e,
            Code::H3_CONNECT_ERROR => 0x10f,
            Code::H3_VERSION_FALLBACK => 0x110,
            Code::QPACK_DECOMPRESSION_FAILED => 0x200,
            Code::QPACK_ENCODER_STREAM_ERROR => 0x201,
            Code::QPACK_DECODER_STREAM_ERROR => 0x202,
            Code::Unregistered(other) => other.number(),
        }
    }

    /// Whether `value` is the number of a code with a name.
    pub open spec fn registered(value: u64) -> bool {
        value == 0x33 || 0x100 <= value <= 0x110 || 0x200 <= value <= 0x202
    }

    /// Whether a number with a name is held under that name.
    pub open spec fn well_formed(self) -> bool {
        self matches Code::Unregistered(other) ==> !Code::registered(other.number())
    }

    /// The name of a code, or its number in hexadecimal where it has none.
    pub open spec fn text(self) -> Seq<char> {
        match self {
            Code::H3_DATAGRAM_ERROR => "H3_DATAGRAM_ERROR"@,
            Code::H3_NO_ERROR => "H3_NO_ERROR"@,
            Code::H3_GENERAL_PROTOCOL_ERROR => "H3_GENERAL_PROTOCOL_ERROR"@,
            Code::H3_INTERNAL_ERROR => "H3_INTERNAL_ERROR"@,
            Code::H3_STREAM_CREATION_ERROR => "H3_STREAM_CREATION_ERROR"@,
            Code::H3_CLOSED_CRITICAL_STREAM => "H3_CLOSED_CRITICAL_STREAM"@,
            Code::H3_FRAME_UNEXPECTED => "H3_FRAME_UNEXPECTED"@,
            Code::H3_FRAME_ERROR => "H3_FRAME_ERROR"@,
            Code::H3_EXCESSIVE_LOAD => "H3_EXCESSIVE_LOAD"@,
            Code::H3_ID_ERROR => "H3_ID_ERROR"@,
            Code::H3_SETTINGS_ERROR => "H3_SETTINGS_ERROR"@,
            Code::H3_MISSING_SETTINGS => "H3_MISSING_SETTINGS"@,
            Code::H3_REQUEST_REJECTED => "H3_REQUEST_REJECTED"@,
            Code::H3_REQUEST_CANCELLED => "H3_REQUEST_CANCELLED"@,
            Code::H3_REQUEST_INCOMPLETE => "H3_REQUEST_INCOMPLETE"@,
            Code::H3_MESSAGE_ERROR => "H3_MESSAGE_ERROR"@,
            Code::H3_CONNECT_ERROR => "H3_CONNECT_ERROR"@,
            Code::H3_VERSION_FALLBACK => "H3_VERSION_FALLBACK"@,
            Code::QPACK_DECOMPRESSION_FAILED => "QPACK_DECOMPRESSION_FAILED"@,
            Code::QPACK_ENCODER_STREAM_ERROR => "QPACK_ENCODER_STREAM_ERROR"@,
            Code::QPACK_DECODER_STREAM_ERROR => "QPACK_DECODER_STREAM_ERROR"@,
            Code::Unregistered(other) => hex_text(other.number() as nat),
        }
    }

    /// The number a code goes on the wire as.
    pub fn value(self) -> (value: u64)
        ensures
            value == self.number(),
    {
        match self {
            Code::H3_DATAGRAM_ERROR => 0x33,
            Code::H3_NO_ERROR => 0x100,
            Code::H3_GENERAL_PROTOCOL_ERROR => 0x101,
            Code::H3_INTERNAL_ERROR => 0x102,
            Code::H3_STREAM_CREATION_ERROR => 0x103,
            Code::H3_CLOSED_CRITICAL_STREAM => 0x104,
            Code::H3_FRAME_UNEXPECTED => 0x105,
            Code::H3_FRAME_ERROR => 0x106,
            Code::H3_EXCESSIVE_LOAD => 0x107,
            Code::H3_ID_ERROR => 0x108,
            Code::H3_SETTINGS_ERROR => 0x109,
            Code::H3_MISSING_SETTINGS => 0x10a,
            Code::H3_REQUEST_REJECTED => 0x10b,
            Code::H3_REQUEST_CANCELLED => 0x10c,
            Code::H3_REQUEST_INCOMPLETE => 0x10d,
            Code::H3_MESSAGE_ERROR => 0x10e,
            Code::H3_CONNECT_ERROR => 0x10f,
            Code::H3_VERSION_FALLBACK => 0x110,
            Code::QPACK_DECOMPRESSION_FAILED => 0x200,
            Code::QPACK_ENCODER_STREAM_ERROR => 0x201,
            Code::QPACK_DECODER_STREAM_ERROR => 0x202,
            Code::Unregistered(other) => other.value,
        }
    }

    /// The code with the number `value`.
    pub fn new(value: u64) -> (code: Code)
        ensures
            code.number() == value,
            code.well_formed(),
    {
        match value {
            0x33 => Code::H3_DATAGRAM_ERROR,
            0x100 => Code::H3_NO_ERROR,
            0x101 => Code::H3_GENERAL_PROTOCOL_ERROR,
            0x102 => Code::H3_INTERNAL_ERROR,
            0x103 => Code::H3_STREAM_CREATION_ERROR,
            0x104 => Code::H3_CLOSED_CRITICAL_STREAM,
            0x105 => Code::H3_FRAME_UNEXPECTED,
            0x106 => Code::H3_FRAME_ERROR,
            0x107 => Code::H3_EXCESSIVE_LOAD,
            0x108 => Code::H3_ID_ERROR,
            0x109 => Code::H3_SETTINGS_ERROR,
            0x10a => Code::H3_MISSING_SETTINGS,
            0x10b => Code::H3_REQUEST_REJECTED,
            0x10c => Code::H3_REQUEST_CANCELLED,
            0x10d => Code::H3_REQUEST_INCOMPLETE,
            0x10e => Code::H3_MESSAGE_ERROR,
            0x10f => Code::H3_CONNECT_ERROR,
            0x110 => Code::H3_VERSION_FALLBACK,
            0x200 => Code::QPACK_DECOMPRESSION_FAILED,
            0x201 => Code::QPACK_ENCODER_STREAM_ERROR,
            0x202 => Code::QPACK_DECODER_STREAM_ERROR,
            _ => Code::Unregistered(UnregisteredCode { value }),
        }
    }

    /// The code as text: its name, or its number in hexadecimal.
    pub fn to_string(&self) -> (text: String)
        ensures
            text@ == self.text(),
    {
        match *self {
            Code::H3_DATAGRAM_ERROR => "H3_DATAGRAM_ERROR".to_owned(),
            Code::H3_NO_ERROR => "H3_NO_ERROR".to_owned(),
            Code::H3_GENERAL_PROTOCOL_ERROR => "H3_GENERAL_PROTOCOL_ERROR".to_owned(),
            Code::H3_INTERNAL_ERROR => "H3_INTERNAL_ERROR".to_owned(),
            Code::H3_STREAM_CREATION_ERROR => "H3_STREAM_CREATION_ERROR".to_owned(),
            Code::H3_CLOSED_CRITICAL_STREAM => "H3_CLOSED_CRITICAL_STREAM".to_owned(),
            Code::H3_FRAME_UNEXPECTED => "H3_FRAME_UNEXPECTED".to_owned(),
            Code::H3_FRAME_ERROR => "H3_FRAME_ERROR".to_owned(),
            Code::H3_EXCESSIVE_LOAD => "H3_EXCESSIVE_LOAD".to_owned(),
            Code::H3_ID_ERROR => "H3_ID_ERROR".to_owned(),
            Code::H3_SETTINGS_ERROR => "H3_SETTINGS_ERROR".to_owned(),
            Code::H3_MISSING_SETTINGS => "H3_MISSING_SETTINGS".to_owned(),
            Code::H3_REQUEST_REJECTED => "H3_REQUEST_REJECTED".to_owned(),
            Code::H3_REQUEST_CANCELLED => "H3_REQUEST_CANCELLED".to_owned(),
            Code::H3_REQUEST_INCOMPLETE => "H3_REQUEST_INCOMPLETE".to_owned(),
            Code::H3_MESSAGE_ERROR => "H3_MESSAGE_ERROR".to_owned(),
            Code::H3_CONNECT_ERROR => "H3_CONNECT_ERROR".to_owned(),
            Code::H3_VERSION_FALLBACK => "H3_VERSION_FALLBACK".to_owned(),
            Code::QPACK_DECOMPRESSION_FAILED => "QPACK_DECOMPRESSION_FAILED".to_owned(),
            Code::QPACK_ENCODER_STREAM_ERROR => "QPACK_ENCODER_STREAM_ERROR".to_owned(),
            Code::QPACK_DECODER_STREAM_ERROR => "QPACK_DECODER_STREAM_ERROR".to_owned(),
            Code::Unregistered(other) => hex(other.value),
        }
    }
}

/// Codes are told apart by their numbers: two well-formed codes are the same
/// exactly where their numbers are.
pub proof fn codes_are_their_numbers(left: Code, right: Code)
    requires
        left.well_formed(),
        right.well_formed(),
    ensures
        left == right <==> left.number() == right.number(),
{
}

/// What a [`Violation`] says.
pub struct Fault {
    /// The error code to answer with.
    pub code: Code,
    /// Whether the whole connection is at fault, rather than one stream.
    pub fatal: bool,
    /// Whether this is a field section larger than this server handles.
    pub field_section: bool,
    /// What was wrong, in words.
    pub detail: Seq<char>,
}

impl Fault {
    /// A fault of one stream.
    pub open spec fn stream(code: Code, detail: Seq<char>) -> Fault {
        Fault { code, fatal: false, field_section: false, detail }
    }

    /// A fault of the whole connection.
    pub open spec fn connection(code: Code, detail: Seq<char>) -> Fault {
        Fault { code, fatal: true, field_section: false, detail }
    }

    /// A field section larger than this server handles.
    pub open spec fn field_section_too_large(detail: Seq<char>) -> Fault {
        Fault { code: Code::H3_EXCESSIVE_LOAD, fatal: false, field_section: true, detail }
    }

    /// The fault as text: the code and what was wrong.
    pub open spec fn text(self) -> Seq<char> {
        self.code.text() + ": "@ + self.detail
    }
}

/// A rule of the protocol that the peer broke, and how far the fault reaches.
#[derive(Debug, PartialEq, Eq)]
pub struct Violation {
    code: Code,
    fatal: bool,
    field_section: bool,
    detail: String,
}

impl View for Violation {
    type V = Fault;

    closed spec fn view(&self) -> Fault {
        Fault {
            code: self.code,
            fatal: self.fatal,
            field_section: self.field_section,
            detail: self.detail@,
        }
    }
}

impl Clone for Violation {
    fn clone(&self) -> (copy: Violation)
        ensures
            copy@ == self@,
    {
        Violation {
            code: self.code,
            fatal: self.fatal,
            field_section: self.field_section,
            detail: self.detail.clone(),
        }
    }
}

impl Violation {
    /// A violation that ends one stream.
    pub fn stream(code: Code, detail: &str) -> (violation: Violation)
        ensures
            violation@ == Fault::stream(code, detail@),
    {
        Violation { code, fatal: false, field_section: false, detail: detail.to_owned() }
    }

    /// A violation that ends the connection.
    pub fn connection(code: Code, detail: &str) -> (violation: Violation)
        ensures
            violation@ == Fault::connection(code, detail@),
    {
        Violation { code, fatal: true, field_section: false, detail: detail.to_owned() }
    }

    /// A field section larger than this server handles, which ends the stream.
    ///
    /// The code alone does not say this: H3_EXCESSIVE_LOAD has other causes, and
    /// only this one is answered with a 431.
    pub fn field_section_too_large(detail: &str) -> (violation: Violation)
        ensures
            violation@ == Fault::field_section_too_large(detail@),
    {
        Violation {
            code: Code::H3_EXCESSIVE_LOAD,
            fatal: false,
            field_section: true,
            detail: detail.to_owned(),
        }
    }

    /// The error code to answer with.
    pub fn code(&self) -> (code: Code)
        ensures
            code == self@.code,
    {
        self.code
    }

    /// Whether the whole connection is at fault, rather than one stream.
    pub fn is_connection_error(&self) -> (fatal: bool)
        ensures
            fatal == self@.fatal,
    {
        self.fatal
    }

    /// Whether this is a field section larger than this server handles.
    pub fn is_field_section_too_large(&self) -> (too_large: bool)
        ensures
            too_large == self@.field_section,
    {
        self.field_section
    }

    /// The same violation, as one that ends the connection.
    pub fn into_fatal(self) -> (violation: Violation)
        ensures
            violation@ == (Fault { fatal: true, ..self@ }),
    {
        Violation {
            code: self.code,
            fatal: true,
            field_section: self.field_section,
            detail: self.detail,
        }
    }

    /// The violation as text: the code and what was wrong.
    pub fn to_string(&self) -> (text: String)
        ensures
            text@ == self@.text(),
    {
        let mut text = self.code.to_string();
        text.append(": ");
        text.append(self.detail.as_str());
        text
    }
}

/// Why the QUIC transport gave a connection up.
#[derive(Debug, Clone)]
pub enum TransportError {
    /// The peer's QUIC stack closed the connection.
    ConnectionClosed {
        /// What the error code stands for.
        error: String,
        /// The reason phrase the peer wrote.
        reason: Vec<u8>,
    },
    /// The peer's application closed the connection.
    ApplicationClosed {
        /// The application's error code.
        code: u64,
        /// The reason phrase the peer wrote.
        reason: Vec<u8>,
    },
    /// The idle timeout expired.
    TimedOut,
    /// This endpoint closed the connection.
    LocallyClosed,
    /// Anything else, with the transport's own account of it.
    Other {
        /// What the transport says.
        text: String,
    },
}

impl TransportError {
    /// The error as text. A reason phrase is printed as it stands.
    pub open spec fn text(self) -> Seq<char> {
        match self {
            TransportError::ConnectionClosed { error, reason } => if reason@.len() == 0 {
                "aborted by peer: "@ + error@
            } else {
                "aborted by peer: "@ + error@ + ": "@ + lossy_text(reason@)
            },
            TransportError::ApplicationClosed { code, reason } => if reason@.len() == 0 {
                "closed by peer: "@ + decimal_text(code as nat)
            } else {
                "closed by peer: "@ + lossy_text(reason@) + " (code "@ + decimal_text(code as nat)
                    + ")"@
            },
            TransportError::TimedOut => "timed out"@,
            TransportError::LocallyClosed => "closed"@,
            TransportError::Other { text } => text@,
        }
    }

    /// Whether no part of the error can end the line it is printed on.
    pub open spec fn is_one_line(self) -> bool {
        match self {
            TransportError::ConnectionClosed { error, reason } => one_line(error@) && valid_utf8(
                reason@,
            ) && one_line(decode_utf8(reason@)),
            TransportError::ApplicationClosed { code, reason } => valid_utf8(reason@) && one_line(
                decode_utf8(reason@),
            ),
            TransportError::Other { text } => one_line(text@),
            _ => true,
        }
    }

    /// The error as text.
    pub fn to_string(&self) -> (text: String)
        ensures
            text@ == self.text(),
            self.is_one_line() ==> one_line(text@),
    {
        proof {
            reveal_strlit("aborted by peer: ");
            reveal_strlit("closed by peer: ");
            reveal_strlit(": ");
            reveal_strlit(" (code ");
            reveal_strlit(")");
            reveal_strlit("timed out");
            reveal_strlit("closed");
        }
        match self {
            TransportError::ConnectionClosed { error, reason } => {
                let mut text = "aborted by peer: ".to_owned();
                text.append(error.as_str());
                if reason.len() > 0 {
                    text.append(": ");
                    let phrase = lossy(reason.as_slice());
                    text.append(phrase.as_str());
                }
                text
            },
            TransportError::ApplicationClosed { code, reason } => {
                let number = decimal(*code);
                proof {
                    decimal_is_one_line(*code as nat);
                }
                let mut text = "closed by peer: ".to_owned();
                if reason.len() > 0 {
                    let phrase = lossy(reason.as_slice());
                    text.append(phrase.as_str());
                    text.append(" (code ");
                    text.append(number.as_str());
                    text.append(")");
                } else {
                    text.append(number.as_str());
                }
                text
            },
            TransportError::TimedOut => "timed out".to_owned(),
            TransportError::LocallyClosed => "closed".to_owned(),
            TransportError::Other { text } => text.clone(),
        }
    }
}

proof fn decimal_is_one_line(value: nat)
    ensures
        one_line(decimal_text(value)),
    decreases value,
{
    if value >= 10 {
        decimal_is_one_line(value / 10);
    }
}

/// How a connection ended.
#[derive(Debug, Clone)]
pub enum ConnectionError {
    /// The peer closed the connection with an application error code.
    ApplicationClose {
        /// The code it used.
        code: Code,
    },
    /// The idle timeout expired.
    Timeout,
    /// This server closed the connection over a violation.
    Local(Violation),
    /// The transport failed, with any words of the peer's bounded and escaped.
    Transport(TransportError),
}

impl ConnectionError {
    /// Whether this is what a transport error means to this server: the peer's
    /// goodbye with its code, a timeout, or the error itself with any words of
    /// the peer's made safe.
    pub open spec fn files(self, error: TransportError) -> bool {
        match error {
            TransportError::ApplicationClosed { code, reason: _ } =>
                self matches ConnectionError::ApplicationClose { code: named } && named.number()
                    == code && named.well_formed(),
            TransportError::TimedOut => self is Timeout,
            _ => self matches ConnectionError::Transport(kept) && is_peer_error(error, kept),
        }
    }

    /// The error as text.
    pub open spec fn text(self) -> Seq<char> {
        match self {
            ConnectionError::ApplicationClose { code } => "ApplicationClose: "@ + code.text(),
            ConnectionError::Timeout => "Timeout"@,
            ConnectionError::Local(violation) => "closed by this server: "@ + violation@.text(),
            ConnectionError::Transport(error) => error.text(),
        }
    }

    /// Files a transport error under what it means to this server.
    pub fn from(error: TransportError) -> (result: ConnectionError)
        ensures
            result.files(error),
    {
        match error {
            TransportError::ApplicationClosed { code, reason } => ConnectionError::ApplicationClose {
                code: Code::new(code),
            },
            TransportError::TimedOut => ConnectionError::Timeout,
            other => ConnectionError::Transport(peer_error(other)),
        }
    }

    /// The error as text.
    pub fn to_string(&self) -> (text: String)
        ensures
            text@ == self.text(),
            self matches ConnectionError::Transport(error) ==> error.is_one_line() ==> one_line(
                text@,
            ),
    {
        match self {
            ConnectionError::ApplicationClose { code } => {
                let mut text = "ApplicationClose: ".to_owned();
                let name = code.to_string();
                text.append(name.as_str());
                text
            },
            ConnectionError::Timeout => "Timeout".to_owned(),
            ConnectionError::Local(violation) => {
                let mut text = "closed by this server: ".to_owned();
                let what = violation.to_string();
                text.append(what.as_str());
                text
            },
            ConnectionError::Transport(error) => error.to_string(),
        }
    }
}

/// How a read from or a write to a QUIC stream failed.
#[derive(Debug, Clone)]
pub enum TransferError {
    /// The peer reset the stream, or asked for no more of it.
    Terminated {
        /// The code it used.
        code: u64,
        /// What the transport says.
        text: String,
    },
    /// The connection was lost.
    ConnectionLost(TransportError),
    /// Anything else, with the transport's own account of it.
    Other {
        /// What the transport says.
        text: String,
    },
}

impl TransferError {
    /// The error as text.
    pub open spec fn text(self) -> Seq<char> {
        match self {
            TransferError::Terminated { code: _, text } => text@,
            TransferError::ConnectionLost(_) => "connection lost"@,
            TransferError::Other { text } => text@,
        }
    }

    /// The error as text.
    pub fn to_string(&self) -> (text: String)
        ensures
            text@ == self.text(),
    {
        match self {
            TransferError::Terminated { code: _, text } => text.clone(),
            TransferError::ConnectionLost(_) => "connection lost".to_owned(),
            TransferError::Other { text } => text.clone(),
        }
    }
}

/// How a stream ended.
#[derive(Debug, Clone)]
pub enum StreamError {
    /// The peer ended it.
    RemoteTerminate {
        /// The code it used.
        code: Code,
    },
    /// The connection it belongs to ended.
    Connection(ConnectionError),
    /// This server ended it over a violation.
    Local(Violation),
}

impl StreamError {
    /// The error as text.
    pub open spec fn text(self) -> Seq<char> {
        match self {
            StreamError::RemoteTerminate { code } => "peer terminated the stream: "@ + code.text(),
            StreamError::Connection(error) => "connection error: "@ + error.text(),
            StreamError::Local(violation) => "stream reset by this server: "@ + violation@.text(),
        }
    }

    /// Files a failed read or write under what it means to this server.
    pub fn from(error: TransferError) -> (result: StreamError)
        ensures
            match error {
                TransferError::Terminated { code, text: _ } =>
                    result matches StreamError::RemoteTerminate { code: named }
                        && named.number() == code && named.well_formed(),
                TransferError::ConnectionLost(lost) => result matches StreamError::Connection(inner)
                    && inner.files(lost),
                TransferError::Other { text } => result matches StreamError::Local(violation)
                    && violation@ == Fault::stream(Code::H3_INTERNAL_ERROR, text@),
            },
    {
        match error {
            TransferError::Terminated { code, text: _ } => StreamError::RemoteTerminate {
                code: Code::new(code),
            },
            TransferError::ConnectionLost(lost) => StreamError::Connection(
                ConnectionError::from(lost),
            ),
            TransferError::Other { text } => StreamError::Local(
                Violation::stream(Code::H3_INTERNAL_ERROR, text.as_str()),
            ),
        }
    }

    /// The error as text.
    pub fn to_string(&self) -> (text: String)
        ensures
            text@ == self.text(),
    {
        match self {
            StreamError::RemoteTerminate { code } => {
                let mut text = "peer terminated the stream: ".to_owned();
                let name = code.to_string();
                text.append(name.as_str());
                text
            },
            StreamError::Connection(error) => {
                let mut text = "connection error: ".to_owned();
                let what = error.to_string();
                text.append(what.as_str());
                text
            },
            StreamError::Local(violation) => {
                let mut text = "stream reset by this server: ".to_owned();
                let what = violation.to_string();
                text.append(what.as_str());
                text
            },
        }
    }
}

} // verus!
