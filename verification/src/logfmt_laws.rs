//! What log lines say, read back.

use vstd::arithmetic::power2::{is_pow2, is_pow2_equiv, lemma2_to64, lemma_pow2, pow2};
use vstd::prelude::*;
use vstd::utf8::{decode_utf8, encode_utf8, encode_utf8_valid_utf8, is_char_boundary, valid_utf8};

use crate::h3::error::TransportError;
use crate::logfmt::{
    is_peer_error, one_line, plainly_quoted, quoted_text, reported, addresses_text,
    boundary_at_most, bounded_bytes_text, bounded_text, joined_text, lossy_text,
};
use crate::text::{decimal_text, hex_digits, hex_text};

verus! {

/// What a character counts for as a digit, in either base.
pub open spec fn worth(digit: char) -> int {
    if '0' <= digit && digit <= '9' {
        digit as int - '0' as int
    } else {
        10 + (digit as int - 'a' as int)
    }
}

/// The number that digits make in a base, the most significant first.
pub open spec fn number_in(base: int, digits: Seq<char>) -> int
    decreases digits.len(),
{
    if digits.len() == 0 {
        0
    } else {
        number_in(base, digits.drop_last()) * base + worth(digits.last())
    }
}

/// A number in base ten reads back: decimal digits, none of them a leading zero, that
/// make the number.
pub proof fn decimals_read_back(value: nat)
    ensures
        number_in(10, decimal_text(value)) == value,
        decimal_text(value).len() > 0,
        forall|i: int|
            0 <= i < decimal_text(value).len() ==> '0' <= #[trigger] decimal_text(value)[i]
                && decimal_text(value)[i] <= '9',
        value > 0 ==> decimal_text(value)[0] != '0',
        value == 0 ==> decimal_text(value) == seq!['0'],
    decreases value,
{
    let text = decimal_text(value);
    if value < 10 {
        assert(text.drop_last() =~= Seq::<char>::empty());
        assert(number_in(10, text.drop_last()) == 0);
    } else {
        decimals_read_back(value / 10);
        assert(text.drop_last() =~= decimal_text(value / 10));
        assert(text[0] == decimal_text(value / 10)[0]);
        assert forall|i: int| 0 <= i < text.len() implies '0' <= #[trigger] text[i] && text[i]
            <= '9' by {
            if i < text.len() - 1 {
                assert(text[i] == decimal_text(value / 10)[i]);
            }
        }
    }
}

proof fn lemma_hex_digits(value: nat)
    ensures
        number_in(16, hex_digits(value)) == value,
        hex_digits(value).len() > 0,
        value > 0 ==> hex_digits(value)[0] != '0',
    decreases value,
{
    let text = hex_digits(value);
    if value < 16 {
        assert(text.drop_last() =~= Seq::<char>::empty());
        assert(number_in(16, text.drop_last()) == 0);
    } else {
        lemma_hex_digits(value / 16);
        assert(text.drop_last() =~= hex_digits(value / 16));
        assert(text[0] == hex_digits(value / 16)[0]);
    }
}

/// A number in base sixteen reads back behind its `0x`.
pub proof fn hexadecimals_read_back(value: nat)
    ensures
        hex_text(value).len() > 2,
        hex_text(value)[0] == '0',
        hex_text(value)[1] == 'x',
        number_in(16, hex_text(value).subrange(2, hex_text(value).len() as int)) == value,
        value > 0 ==> hex_text(value)[2] != '0',
{
    reveal_strlit("0x");
    lemma_hex_digits(value);
    assert(hex_text(value).subrange(2, hex_text(value).len() as int) =~= hex_digits(value));
}

proof fn lemma_boundary_is_last(bytes: Seq<u8>, limit: nat, k: nat)
    requires
        k <= limit,
        is_char_boundary(bytes, k as int),
    ensures
        k <= boundary_at_most(bytes, limit) <= limit,
    decreases limit,
{
    if limit > 0 && !is_char_boundary(bytes, limit as int) {
        lemma_boundary_is_last(bytes, (limit - 1) as nat, k);
    }
}

proof fn lemma_boundary_is_one(bytes: Seq<u8>, limit: nat)
    requires
        is_char_boundary(bytes, 0),
    ensures
        boundary_at_most(bytes, limit) <= limit,
        is_char_boundary(bytes, boundary_at_most(bytes, limit) as int),
    decreases limit,
{
    if limit > 0 && !is_char_boundary(bytes, limit as int) {
        lemma_boundary_is_one(bytes, (limit - 1) as nat);
    }
}

/// A token of up to thirty-two bytes is carried whole. A longer one is its longest
/// head of whole characters within that many bytes, and then how long it was.
pub proof fn tokens_are_cut_at_the_bound(token: Seq<char>) -> (end: nat)
    ensures
        encode_utf8(token).len() <= 32 ==> bounded_text(token) == token,
        encode_utf8(token).len() > 32 ==> {
            &&& end <= 32
            &&& is_char_boundary(encode_utf8(token), end as int)
            &&& forall|k: nat|
                k <= 32 && #[trigger] is_char_boundary(encode_utf8(token), k as int) ==> k <= end
            &&& bounded_text(token) == decode_utf8(encode_utf8(token).subrange(0, end as int))
                + "... <truncated from "@ + decimal_text(encode_utf8(token).len()) + " bytes>"@
        },
{
    let bytes = encode_utf8(token);
    let end = boundary_at_most(bytes, 32);
    encode_utf8_valid_utf8(token);
    vstd::utf8::is_char_boundary_start_end_of_seq(bytes);
    lemma_boundary_is_one(bytes, 32);
    assert forall|k: nat| k <= 32 && #[trigger] is_char_boundary(bytes, k as int) implies k
        <= end by {
        lemma_boundary_is_last(bytes, 32, k);
    }
    end
}

/// Bytes of up to thirty-two are carried whole. Of more, the first thirty-two are,
/// and then how many there were.
pub proof fn bytes_are_cut_at_the_bound(token: Seq<u8>)
    ensures
        token.len() <= 32 ==> bounded_bytes_text(token) == lossy_text(token),
        token.len() > 32 ==> bounded_bytes_text(token) == lossy_text(token.subrange(0, 32))
            + "... <truncated from "@ + decimal_text(token.len()) + " bytes>"@,
{
}

/// Texts with a comma and a space between them.
pub open spec fn glued(list: Seq<Seq<char>>) -> Seq<char>
    decreases list.len(),
{
    if list.len() == 0 {
        Seq::empty()
    } else if list.len() == 1 {
        list[0]
    } else {
        list[0] + ", "@ + glued(list.drop_first())
    }
}

/// One more text goes behind the others.
proof fn lemma_glued(list: Seq<Seq<char>>)
    requires
        list.len() > 1,
    ensures
        glued(list) == glued(list.drop_last()) + ", "@ + list.last(),
    decreases list.len(),
{
    if list.len() == 2 {
        assert(glued(list.drop_first()) == list[1]);
        assert(glued(list.drop_last()) == list[0]);
        assert(glued(list) =~= glued(list.drop_last()) + ", "@ + list.last());
    } else {
        let later = list.drop_first();
        let between = ", "@;
        lemma_glued(later);
        let middle = glued(later.drop_last());
        assert(later.drop_last() =~= list.drop_last().drop_first());
        assert(glued(list) == list[0] + between + (middle + between + list.last()));
        assert(glued(list.drop_last()) == list[0] + between + middle);
        assert(glued(list) =~= glued(list.drop_last()) + between + list.last());
    }
}

proof fn lemma_joined(list: Seq<String>, count: nat)
    requires
        count <= list.len(),
    ensures
        joined_text(list, count) == glued(
            list.subrange(0, count as int).map_values(|address: String| address@),
        ),
    decreases count,
{
    let shown = list.subrange(0, count as int).map_values(|address: String| address@);
    if count > 1 {
        lemma_joined(list, (count - 1) as nat);
        lemma_glued(shown);
        assert(shown.drop_last() =~= list.subrange(0, count - 1).map_values(
            |address: String| address@,
        ));
    }
}

/// Up to eight addresses are all printed, in order and in brackets. Of more, the
/// first eight are, and then how many there are beyond them.
pub proof fn addresses_are_listed_in_order(list: Seq<String>)
    ensures
        list.len() <= 8 ==> addresses_text(list) == "["@ + glued(
            list.map_values(|address: String| address@),
        ) + "]"@,
        list.len() > 8 ==> addresses_text(list) == "["@ + glued(
            list.subrange(0, 8).map_values(|address: String| address@),
        ) + ", and "@ + decimal_text((list.len() - 8) as nat) + " more"@ + "]"@,
{
    if list.len() <= 8 {
        lemma_joined(list, list.len());
        assert(list.subrange(0, list.len() as int) =~= list);
    } else {
        lemma_joined(list, 8);
    }
}

/// Of a run of occurrences the first is reported, and then each whose number is a
/// power of two, with that number, and no other.
pub proof fn powers_of_two_are_reported(total: u64, k: nat)
    ensures
        reported(1) == Some(1u64),
        total == pow2(k) ==> reported(total) == Some(total),
        reported(total) matches Some(said) ==> said == total && exists|e: nat| total == pow2(e),
{
    is_pow2_equiv(total as int);
    lemma_pow2(k);
    if is_pow2(total as int) {
        let e = choose|e: nat| vstd::arithmetic::power::pow(2, e) == total as int;
        lemma_pow2(e);
        assert(total == pow2(e));
    }
    is_pow2_equiv(1);
    lemma_pow2(0);
    lemma2_to64();
    assert(vstd::arithmetic::power::pow(2, 0) == 1);
}

/// Plain bytes are shown between quote marks as they are.
pub proof fn plain_bytes_are_shown_as_they_are(token: Seq<u8>)
    requires
        token.len() <= 32,
    ensures
        plainly_quoted(token).len() == token.len() + 2,
        plainly_quoted(token)[0] == '"',
        plainly_quoted(token)[token.len() as int + 1] == '"',
        forall|i: int|
            0 <= i < token.len() ==> #[trigger] plainly_quoted(token)[i + 1] == token[i] as char,
{
}

/// What a peer wrote into a close is shown quoted, cut and on one line, with the
/// code or the meaning of the close as it was; every other error stays as it is.
pub proof fn words_of_the_peer_are_made_safe(
    meaning: String,
    code: u64,
    reason: Vec<u8>,
    other: TransportError,
    safe: TransportError,
)
    ensures
        is_peer_error(TransportError::ApplicationClosed { code, reason }, safe) ==> (
        safe matches TransportError::ApplicationClosed { code: kept, reason: shown } && kept == code
            && shown@ == encode_utf8(quoted_text(bounded_bytes_text(reason@))) && valid_utf8(shown@)
            && one_line(decode_utf8(shown@))),
        is_peer_error(TransportError::ConnectionClosed { error: meaning, reason }, safe) ==> (
        safe matches TransportError::ConnectionClosed { error: kept, reason: shown } && kept
            == meaning && shown@ == encode_utf8(quoted_text(bounded_bytes_text(reason@)))),
        !(other is ApplicationClosed) && !(other is ConnectionClosed) ==> (is_peer_error(
            other,
            safe,
        ) <==> safe == other),
{
}

/// A line that holds one line holds no line break and no other control character.
pub proof fn one_line_is_one_line(text: Seq<char>, i: int)
    requires
        one_line(text),
        0 <= i < text.len(),
    ensures
        text[i] != '\n',
        text[i] != '\r',
        text[i] as int >= 0x20,
        !(0x7f <= text[i] as int <= 0x9f),
{
}

} // verus!
