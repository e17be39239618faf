//! Log fields: absent values, bounded and escaped peer text, sampled warnings.
//!
//! A field prints its value, and [`ABSENT`] where there is none, so the shape of
//! a line does not depend on what it carries. Text a peer chose is cut at
//! [`MAX_TOKEN`] bytes before it reaches a line, with its real length kept, and
//! is quoted and escaped where it ends up inside a message that is printed as it
//! stands. A warning that a peer can repeat at will goes through a [`Sampler`].

use vstd::arithmetic::power::pow;
use vstd::arithmetic::power2::{
    is_pow2, is_pow2_equiv, lemma_pow2, lemma_pow2_pos, lemma_pow2_strictly_increases,
    lemma_pow2_unfold, pow2,
};
use vstd::prelude::*;
use vstd::string::{StringExecFns, to_string_from_display_ensures};
use vstd::utf8::{
    decode_utf8, encode_utf8, encode_utf8_decode_utf8, encode_utf8_valid_utf8, is_char_boundary,
    valid_utf8,
};

use crate::h3::error::TransportError;
use crate::text::{decimal, decimal_text};

verus! {

/// What an absent value prints as.
pub const ABSENT: &'static str = "-";

/// The longest peer-chosen token that a log line carries whole, in bytes.
pub const MAX_TOKEN: usize = 32;

/// How many addresses of a list a log line prints.
pub const MAX_ADDRESSES: usize = 8;

/// How a token that had to be cut is spelled: its head and its real length.
pub open spec fn truncated_text(head: Seq<char>, whole: nat) -> Seq<char> {
    head + "... <truncated from "@ + decimal_text(whole) + " bytes>"@
}

/// The last character boundary of `bytes` at or below `limit`.
pub open spec fn boundary_at_most(bytes: Seq<u8>, limit: nat) -> nat
    decreases limit,
{
    if limit == 0 || is_char_boundary(bytes, limit as int) {
        limit
    } else {
        boundary_at_most(bytes, (limit - 1) as nat)
    }
}

/// A token as a log line carries it: whole where it is short enough, else its
/// longest whole-character head within the bound, and its real length.
pub open spec fn bounded_text(token: Seq<char>) -> Seq<char> {
    let bytes = encode_utf8(token);
    if bytes.len() <= MAX_TOKEN {
        token
    } else {
        let end = boundary_at_most(bytes, MAX_TOKEN as nat);
        truncated_text(decode_utf8(bytes.subrange(0, end as int)), bytes.len())
    }
}

/// What is left of a token once it has been cut to the bound.
pub open spec fn cut(token: Seq<u8>) -> Seq<u8> {
    if token.len() <= MAX_TOKEN {
        token
    } else {
        token.subrange(0, MAX_TOKEN as int)
    }
}

/// How a token is spelled whose [`cut`] reads `head`.
pub open spec fn spelled(token: Seq<u8>, head: Seq<char>) -> Seq<char> {
    if token.len() <= MAX_TOKEN {
        head
    } else {
        truncated_text(head, token.len())
    }
}

/// [`bounded_text`] for bytes that need not be text: the cut comes first and
/// the lenient decoding after it.
pub open spec fn bounded_bytes_text(token: Seq<u8>) -> Seq<char> {
    spelled(token, lossy_text(cut(token)))
}

/// Whether `text` is printable ASCII without a quote mark or a backslash.
pub open spec fn plain(text: Seq<char>) -> bool {
    forall|i: int|
        0 <= i < text.len() ==> ' ' <= #[trigger] text[i] && text[i] <= '~' && text[i] != '"'
            && text[i] != '\\'
}

/// Whether `token` is printable ASCII without a quote mark or a backslash.
pub open spec fn plain_bytes(token: Seq<u8>) -> bool {
    forall|i: int|
        0 <= i < token.len() ==> 0x20 <= #[trigger] token[i] <= 0x7e && token[i] != 0x22
            && token[i] != 0x5c
}

/// ASCII bytes as characters.
pub open spec fn characters(token: Seq<u8>) -> Seq<char> {
    token.map_values(|byte: u8| byte as char)
}

/// `text` between quote marks.
pub open spec fn between_quotes(text: Seq<char>) -> Seq<char> {
    seq!['"'] + text + seq!['"']
}

/// A token of [`plain_bytes`], cut and between quote marks: nothing else happens
/// to it.
pub open spec fn plainly_quoted(token: Seq<u8>) -> Seq<char> {
    between_quotes(spelled(token, characters(cut(token))))
}

/// What `String::from_utf8_lossy` decodes `bytes` to.
pub uninterp spec fn lossy_text(bytes: Seq<u8>) -> Seq<char>;

/// How the `Debug` of `str` prints `text`.
pub uninterp spec fn quoted_text(text: Seq<char>) -> Seq<char>;

/// Decodes `bytes` by `String::from_utf8_lossy`. Its result is named by
/// [`lossy_text`]; of bytes that are valid UTF-8 it is what they encode.
#[verifier::external_body]
pub(crate) fn lossy(bytes: &[u8]) -> (text: String)
    ensures
        text@ == lossy_text(bytes@),
        valid_utf8(bytes@) ==> text@ == decode_utf8(bytes@),
{
    String::from_utf8_lossy(bytes).into_owned()
}

/// Prints `text` by the `Debug` of `str`. The result is named by
/// [`quoted_text`]; it stands between quote marks, and no character of it is a
/// control character, because that `Debug` writes each of those as an escape
/// sequence. Printable ASCII without a quote mark or a backslash is written as it
/// is.
#[verifier::external_body]
pub(crate) fn quoted(text: &str) -> (quoted: String)
    ensures
        quoted@ == quoted_text(text@),
        in_quotes(quoted@),
        one_line(quoted@),
        plain(text@) ==> quoted@ == between_quotes(text@),
{
    format!("{:?}", text)
}

/// Spells a token that had to be cut.
fn truncated(head: &str, whole: usize) -> (text: String)
    ensures
        text@ == truncated_text(head@, whole as nat),
{
    let mut text = head.to_owned();
    text.append("... <truncated from ");
    let length = decimal(whole as u64);
    text.append(length.as_str());
    text.append(" bytes>");
    text
}

/// Caps a peer-chosen token at what a log line can afford to carry.
///
/// The cut lands on a character boundary, and the real length is kept: a token
/// cut short would otherwise look like a short one. Nothing is escaped.
pub fn bounded(token: &str) -> (text: String)
    ensures
        text@ == bounded_text(token@),
{
    let whole: usize = token.as_bytes().len();
    if whole <= MAX_TOKEN {
        return token.to_owned();
    }
    let mut end: usize = MAX_TOKEN;
    proof {
        encode_utf8_valid_utf8(token@);
        vstd::utf8::is_char_boundary_start_end_of_seq(encode_utf8(token@));
    }
    while end > 0 && !token.is_char_boundary(end)
        invariant
            end <= MAX_TOKEN,
            whole > MAX_TOKEN,
            whole == encode_utf8(token@).len(),
            boundary_at_most(encode_utf8(token@), MAX_TOKEN as nat) == boundary_at_most(
                encode_utf8(token@),
                end as nat,
            ),
        decreases end,
    {
        end = end - 1;
    }
    let head = token.split_at(end).0;
    proof {
        encode_utf8_decode_utf8(head@);
    }
    truncated(head, whole)
}

proof fn lemma_encode_joined(left: Seq<char>, right: Seq<char>)
    ensures
        encode_utf8(left + right) == encode_utf8(left) + encode_utf8(right),
    decreases left.len(),
{
    if left.len() == 0 {
        assert(left + right =~= right);
        assert(encode_utf8(left) + encode_utf8(right) =~= encode_utf8(right));
    } else {
        lemma_encode_joined(left.drop_first(), right);
        assert((left + right).drop_first() =~= left.drop_first() + right);
        assert(encode_utf8(left + right) =~= encode_utf8(left) + encode_utf8(right));
    }
}

proof fn lemma_decimal_bytes(value: nat, digits: nat)
    requires
        1 <= digits,
        value < pow(10, digits),
    ensures
        encode_utf8(decimal_text(value)).len() <= digits,
        vstd::utf8::is_ascii_chars(decimal_text(value)),
    decreases digits,
{
    if value < 10 {
        vstd::utf8::is_ascii_chars_encode_utf8(decimal_text(value));
    } else {
        if digits == 1 {
            vstd::arithmetic::power::lemma_pow1(10);
        } else {
            reveal(pow);
            assert(pow(10, digits) == 10 * pow(10, (digits - 1) as nat));
            lemma_decimal_bytes(value / 10, (digits - 1) as nat);
            vstd::utf8::is_ascii_chars_encode_utf8(decimal_text(value / 10));
            vstd::utf8::is_ascii_chars_encode_utf8(decimal_text(value));
        }
    }
}

/// What a log line carries of a token is shorter than eighty bytes, however long
/// the token is.
pub proof fn a_bounded_token_is_short(token: Seq<char>)
    requires
        encode_utf8(token).len() <= usize::MAX,
    ensures
        encode_utf8(bounded_text(token)).len() < 80,
{
    let bytes = encode_utf8(token);
    if bytes.len() > MAX_TOKEN {
        encode_utf8_valid_utf8(token);
        lemma_boundary(bytes, MAX_TOKEN as nat);
        let end = boundary_at_most(bytes, MAX_TOKEN as nat) as int;
        vstd::utf8::valid_utf8_split(bytes, end);
        let head = decode_utf8(bytes.subrange(0, end));
        vstd::utf8::decode_utf8_encode_utf8(bytes.subrange(0, end));
        reveal_strlit("... <truncated from ");
        reveal_strlit(" bytes>");
        let number = decimal_text(bytes.len());
        vstd::utf8::is_ascii_chars_encode_utf8("... <truncated from "@);
        vstd::utf8::is_ascii_chars_encode_utf8(" bytes>"@);
        assert(pow(10, 20) > usize::MAX) by {
            reveal_with_fuel(pow, 21);
        }
        lemma_decimal_bytes(bytes.len(), 20);
        lemma_encode_joined(head, "... <truncated from "@);
        lemma_encode_joined(head + "... <truncated from "@, number);
        lemma_encode_joined(head + "... <truncated from "@ + number, " bytes>"@);
    }
}

proof fn lemma_boundary(bytes: Seq<u8>, limit: nat)
    requires
        valid_utf8(bytes),
    ensures
        boundary_at_most(bytes, limit) <= limit,
        is_char_boundary(bytes, boundary_at_most(bytes, limit) as int),
    decreases limit,
{
    if limit == 0 {
        vstd::utf8::is_char_boundary_start_end_of_seq(bytes);
    } else if !is_char_boundary(bytes, limit as int) {
        lemma_boundary(bytes, (limit - 1) as nat);
    }
}

/// [`bounded`] for bytes that are not known to be UTF-8.
///
/// The cut happens before the decoding, so a value the size of a whole field
/// section is never decoded only to be thrown away.
pub fn bounded_bytes(token: &[u8]) -> (text: String)
    ensures
        text@ == bounded_bytes_text(token@),
        valid_utf8(cut(token@)) ==> text@ == spelled(token@, decode_utf8(cut(token@))),
{
    if token.len() <= MAX_TOKEN {
        return lossy(token);
    }
    let head = lossy(vstd::slice::slice_subrange(token, 0, MAX_TOKEN));
    truncated(head.as_str(), token.len())
}

/// [`bounded_bytes`], quoted and escaped as well, for bytes that will be printed
/// as they stand: the result stays on one line.
pub fn escaped_bytes(token: &[u8]) -> (text: String)
    ensures
        text@ == quoted_text(bounded_bytes_text(token@)),
        in_quotes(text@),
        one_line(text@),
        plain_bytes(token@) ==> text@ == plainly_quoted(token@),
{
    let shown = bounded_bytes(token);
    proof {
        if plain_bytes(token@) {
            lemma_plain_bytes(cut(token@));
            lemma_spelled_plain(token@, characters(cut(token@)));
        }
    }
    quoted(shown.as_str())
}

/// Plain bytes are the text that their characters are.
proof fn lemma_plain_bytes(token: Seq<u8>)
    requires
        plain_bytes(token),
    ensures
        valid_utf8(token),
        decode_utf8(token) == characters(token),
        plain(characters(token)),
{
    let text = characters(token);
    assert forall|i: int| 0 <= i < text.len() implies ' ' <= #[trigger] text[i] && text[i] <= '~'
        && text[i] != '"' && text[i] != '\\' && (text[i] as u8) == token[i] by {
        assert(0x20 <= token[i] <= 0x7e);
    }
    vstd::utf8::is_ascii_chars_encode_utf8(text);
    assert(encode_utf8(text) =~= token);
    encode_utf8_valid_utf8(text);
    encode_utf8_decode_utf8(text);
}

proof fn lemma_decimal_plain(value: nat)
    ensures
        plain(decimal_text(value)),
    decreases value,
{
    if value >= 10 {
        lemma_decimal_plain(value / 10);
    }
}

/// The words that a cut is spelled with are plain.
proof fn lemma_spelled_plain(token: Seq<u8>, head: Seq<char>)
    requires
        plain(head),
    ensures
        plain(spelled(token, head)),
{
    reveal_strlit("... <truncated from ");
    reveal_strlit(" bytes>");
    lemma_decimal_plain(token.len());
}

/// Whether `text` holds no control character: none that could end the line it is
/// printed on, and none that a terminal acts on.
pub open spec fn one_line(text: Seq<char>) -> bool {
    forall|i: int|
        0 <= i < text.len() ==> #[trigger] text[i] >= ' ' && !('\u{7f}' <= text[i] && text[i]
            <= '\u{9f}')
}

/// Whether `text` begins with a quote mark and ends with another.
pub open spec fn in_quotes(text: Seq<char>) -> bool {
    text.len() >= 2 && text[0] == '"' && text.last() == '"'
}

/// Whether `safe` is `error` with the reason phrase of the peer, if it has one,
/// cut, quoted and escaped.
pub open spec fn is_peer_error(error: TransportError, safe: TransportError) -> bool {
    match error {
        TransportError::ConnectionClosed { error: meaning, reason } => match safe {
            TransportError::ConnectionClosed { error: kept, reason: shown } => {
                &&& kept == meaning
                &&& shown@ == encode_utf8(quoted_text(bounded_bytes_text(reason@)))
                &&& plain_bytes(reason@) ==> shown@ == encode_utf8(plainly_quoted(reason@))
                &&& one_line(meaning@) ==> safe.is_one_line()
            },
            _ => false,
        },
        TransportError::ApplicationClosed { code, reason } => match safe {
            TransportError::ApplicationClosed { code: kept, reason: shown } => {
                &&& kept == code
                &&& shown@ == encode_utf8(quoted_text(bounded_bytes_text(reason@)))
                &&& plain_bytes(reason@) ==> shown@ == encode_utf8(plainly_quoted(reason@))
                &&& safe.is_one_line()
            },
            _ => false,
        },
        _ => safe == error,
    }
}

/// The bytes of [`escaped_bytes`].
fn escaped_reason(reason: &[u8]) -> (shown: Vec<u8>)
    ensures
        shown@ == encode_utf8(quoted_text(bounded_bytes_text(reason@))),
        plain_bytes(reason@) ==> shown@ == encode_utf8(plainly_quoted(reason@)),
        valid_utf8(shown@),
        one_line(decode_utf8(shown@)),
{
    let text = escaped_bytes(reason);
    proof {
        encode_utf8_valid_utf8(text@);
        encode_utf8_decode_utf8(text@);
    }
    vstd::slice::slice_to_vec(text.as_str().as_bytes())
}

/// The same error, with any reason phrase that the peer wrote passed through
/// [`escaped_bytes`].
///
/// Both kinds of QUIC close carry a phrase of the peer's own composition. Every
/// other error is the transport's own account and is left alone.
pub fn peer_error(error: TransportError) -> (safe: TransportError)
    ensures
        is_peer_error(error, safe),
{
    match error {
        TransportError::ConnectionClosed { error, reason } => TransportError::ConnectionClosed {
            error,
            reason: escaped_reason(reason.as_slice()),
        },
        TransportError::ApplicationClosed { code, reason } => TransportError::ApplicationClosed {
            code,
            reason: escaped_reason(reason.as_slice()),
        },
        other => other,
    }
}

/// Formats an optional log field: the value itself, or [`ABSENT`].
pub fn or_dash<T: core::fmt::Display>(value: Option<T>) -> (text: String)
    ensures
        match value {
            Some(present) => to_string_from_display_ensures(&present, text),
            None => text@ == ABSENT@,
        },
{
    match value {
        Some(present) => present.to_string(),
        None => ABSENT.to_owned(),
    }
}

/// The first `count` entries of a list, separated by commas.
pub open spec fn joined_text(list: Seq<String>, count: nat) -> Seq<char>
    decreases count,
{
    if count == 0 {
        Seq::empty()
    } else if count == 1 {
        list[0]@
    } else {
        joined_text(list, (count - 1) as nat) + ", "@ + list[count - 1]@
    }
}

/// A list of addresses as a log line carries it: the head of the list in
/// brackets, and how many there are beyond it.
pub open spec fn addresses_text(list: Seq<String>) -> Seq<char> {
    if list.len() <= MAX_ADDRESSES {
        "["@ + joined_text(list, list.len()) + "]"@
    } else {
        "["@ + joined_text(list, MAX_ADDRESSES as nat) + ", and "@ + decimal_text(
            (list.len() - MAX_ADDRESSES) as nat,
        ) + " more"@ + "]"@
    }
}

/// Renders a list of printed addresses at a length a log line can afford.
///
/// The list is what a resolver answered and has no bound of its own, so the head
/// is printed and the rest is counted.
pub fn addresses(list: &[String]) -> (text: String)
    ensures
        text@ == addresses_text(list@),
{
    let mut text = "[".to_owned();
    let shown: usize = if list.len() <= MAX_ADDRESSES {
        list.len()
    } else {
        MAX_ADDRESSES
    };
    let mut at: usize = 0;
    assert(text@ =~= "["@ + joined_text(list@, 0));
    while at < shown
        invariant
            at <= shown <= list.len(),
            text@ == "["@ + joined_text(list@, at as nat),
        decreases shown - at,
    {
        if at > 0 {
            text.append(", ");
        }
        text.append(list[at].as_str());
        at = at + 1;
        assert(text@ =~= "["@ + joined_text(list@, at as nat));
    }
    if list.len() > MAX_ADDRESSES {
        text.append(", and ");
        let rest = decimal((list.len() - MAX_ADDRESSES) as u64);
        text.append(rest.as_str());
        text.append(" more");
    }
    text.append("]");
    text
}

/// Whether `value` is a power of two.
fn is_power_of_two(value: u64) -> (result: bool)
    ensures
        result == is_pow2(value as int),
    decreases value,
{
    proof {
        reveal(is_pow2);
    }
    if value == 0 {
        false
    } else if value == 1 {
        true
    } else {
        value % 2 == 0 && is_power_of_two(value / 2)
    }
}

/// What is reported of the `total`th occurrence: the total, where it is a power of
/// two.
pub open spec fn reported(total: u64) -> Option<u64> {
    if is_pow2(total as int) {
        Some(total)
    } else {
        None
    }
}

/// How often a warning that a peer can repeat at will is allowed to be loud.
///
/// The schedule doubles: occurrence 1 is reported, then 2, 4, 8 and so on, each
/// report carrying the running total. A flood becomes a handful of lines, the
/// first occurrence is never held back, and nothing here is ever reset.
#[derive(Debug)]
pub struct Sampler {
    /// How many occurrences have been recorded.
    total: u64,
}

impl Sampler {
    /// How many occurrences have been recorded, reported or not.
    pub closed spec fn recorded(self) -> u64 {
        self.total
    }

    /// A sampler that has seen nothing yet.
    pub fn new() -> (sampler: Sampler)
        ensures
            sampler.recorded() == 0,
    {
        Sampler { total: 0 }
    }

    /// Records an occurrence: the total where this one is to be reported.
    ///
    /// The count wraps, and zero is not reported.
    pub fn record(&mut self) -> (report: Option<u64>)
        ensures
            final(self).recorded() == (old(self).recorded() + 1) % 0x1_0000_0000_0000_0000,
            report == reported(final(self).recorded()),
            report == if is_pow2(final(self).recorded() as int) {
                Some(final(self).recorded())
            } else {
                None
            },
    {
        self.total = self.total.wrapping_add(1);
        if is_power_of_two(self.total) {
            Some(self.total)
        } else {
            None
        }
    }

    /// How many occurrences have been recorded, reported or not.
    pub fn seen(&self) -> (total: u64)
        ensures
            total == self.recorded(),
    {
        self.total
    }
}

impl Default for Sampler {
    fn default() -> (sampler: Sampler)
        ensures
            sampler.recorded() == 0,
    {
        Sampler::new()
    }
}

/// How many of the first `occurrences` a sampler reports.
pub open spec fn reports_among(occurrences: nat) -> nat
    decreases occurrences,
{
    if occurrences == 0 {
        0
    } else {
        reports_among((occurrences - 1) as nat) + if is_pow2(occurrences as int) {
            1nat
        } else {
            0nat
        }
    }
}

/// The reports grow with the logarithm of the occurrences: between `2^k` and
/// `2^(k+1)` occurrences there have been `k + 1` reports.
pub proof fn reports_are_logarithmic(occurrences: nat, k: nat)
    requires
        pow2(k) <= occurrences < pow2(k + 1),
    ensures
        reports_among(occurrences) == k + 1,
    decreases occurrences,
{
    lemma_pow2_pos(k);
    lemma_pow2_unfold(k + 1);
    if occurrences == pow2(k) {
        is_pow2_equiv(occurrences as int);
        lemma_pow2(k);
        assert(vstd::arithmetic::power::pow(2, k) == occurrences as int);
        assert(is_pow2(occurrences as int));
        if k == 0 {
            lemma_pow2(0);
            vstd::arithmetic::power::lemma_pow0(2);
            assert(reports_among(0) == 0);
            assert(reports_among(1) == 1) by {
                reveal_with_fuel(reports_among, 2);
            }
        } else {
            lemma_pow2_unfold(k);
            lemma_pow2_pos((k - 1) as nat);
            reports_are_logarithmic((occurrences - 1) as nat, (k - 1) as nat);
        }
    } else {
        is_pow2_equiv(occurrences as int);
        assert(!is_pow2(occurrences as int)) by {
            if is_pow2(occurrences as int) {
                let e = choose|e: nat| vstd::arithmetic::power::pow(2, e) == occurrences as int;
                lemma_pow2(e);
                if e < k {
                    lemma_pow2_strictly_increases(e, k);
                } else if e > k + 1 {
                    lemma_pow2_strictly_increases(k + 1, e);
                }
            }
        }
        reports_are_logarithmic((occurrences - 1) as nat, k);
    }
}

} // verus!
