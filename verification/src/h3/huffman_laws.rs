//! What decoding a Huffman-coded literal comes to: the text whose codes, with up
//! to seven ones behind them, are the bits of the literal.

use vstd::arithmetic::power2::{lemma2_to64, lemma_pow2_pos, lemma_pow2_unfold, pow2};
use vstd::prelude::*;

use crate::h3::error::{Code, Fault};
use crate::h3::huffman::{
    CODES, EOS, MAX_CODE_BITS, bit_weight, bits_of, decoded, decoded_from, is_code,
    no_code_begins_another, symbol_with, symbols_are_found,
};

verus! {

/// A number in `bits` bits, the most significant first.
pub open spec fn number_bits(number: nat, bits: nat) -> Seq<bool>
    decreases bits,
{
    if bits == 0 {
        Seq::empty()
    } else {
        number_bits(number / 2, (bits - 1) as nat).push(number % 2 == 1)
    }
}

/// The codes of a text, one behind the other.
pub open spec fn text_bits(text: Seq<u8>) -> Seq<bool>
    decreases text.len(),
{
    if text.len() == 0 {
        Seq::empty()
    } else {
        let (code, bits) = CODES@[text[0] as int];
        number_bits(code as nat, bits as nat) + text_bits(text.drop_first())
    }
}

/// `count` ones.
pub open spec fn ones(count: nat) -> Seq<bool> {
    Seq::new(count, |i: int| true)
}

/// Whether a literal is the codes of a text with at most seven ones behind them.
pub open spec fn encodes(encoded: Seq<u8>, text: Seq<u8>) -> bool {
    exists|padding: nat|
        padding <= 7 && bits_of(encoded) == text_bits(text) + #[trigger] ones(padding)
}

proof fn lemma_number_bits_len(number: nat, bits: nat)
    ensures
        number_bits(number, bits).len() == bits,
    decreases bits,
{
    if bits > 0 {
        lemma_number_bits_len(number / 2, (bits - 1) as nat);
    }
}

/// The first bits of a number are those of its quotient.
proof fn lemma_number_bits_prefix(number: nat, bits: nat, count: nat)
    requires
        count <= bits,
    ensures
        number_bits(number, bits).subrange(0, count as int) == number_bits(
            number / pow2((bits - count) as nat),
            count,
        ),
    decreases bits,
{
    lemma_number_bits_len(number, bits);
    let gap = (bits - count) as nat;
    if gap == 0 {
        lemma2_to64();
        assert(number_bits(number, bits).subrange(0, count as int) =~= number_bits(number, bits));
    } else {
        let half = number / 2;
        lemma_number_bits_prefix(half, (bits - 1) as nat, count);
        lemma_number_bits_len(half, (bits - 1) as nat);
        assert(number_bits(number, bits).subrange(0, count as int) =~= number_bits(
            half,
            (bits - 1) as nat,
        ).subrange(0, count as int));
        lemma_pow2_unfold(gap);
        lemma_pow2_pos((gap - 1) as nat);
        vstd::arithmetic::div_mod::lemma_div_denominator(
            number as int,
            2,
            pow2((gap - 1) as nat) as int,
        );
    }
}

/// What has been read of a code is not yet a code.
proof fn lemma_no_early_symbol(symbol: int, count: nat)
    requires
        0 <= symbol < 257,
        1 <= count < CODES@[symbol].1,
    ensures
        symbol_with(
            CODES@[symbol].0 as nat / pow2((CODES@[symbol].1 - count) as nat),
            count,
        ) is None,
{
    let start = CODES@[symbol].0 as nat / pow2((CODES@[symbol].1 - count) as nat);
    if exists|other: int| is_code(other, start, count) {
        let other = choose|other: int| is_code(other, start, count);
        no_code_begins_another(other, symbol);
    }
}

/// Reading one bit that does not complete a code.
proof fn lemma_one_bit(rest: Seq<bool>, code: nat, bits: nat, out: Seq<u8>)
    requires
        rest.len() > 0,
        bits < MAX_CODE_BITS,
        symbol_with(
            2 * code + if rest[0] {
                1nat
            } else {
                0nat
            },
            bits + 1,
        ) is None,
    ensures
        decoded_from(rest, code, bits, out) == decoded_from(
            rest.drop_first(),
            2 * code + if rest[0] {
                1nat
            } else {
                0nat
            },
            bits + 1,
            out,
        ),
{
}

/// Reading on past the first `count` bits of a code.
proof fn lemma_read_on(symbol: int, count: nat, rest: Seq<bool>, out: Seq<u8>)
    requires
        0 <= symbol < 257,
        count < CODES@[symbol].1,
    ensures
        ({
            let code = CODES@[symbol].0 as nat;
            let bits = CODES@[symbol].1 as nat;
            let all = number_bits(code, bits);
            decoded_from(all + rest, 0, 0, out) == decoded_from(
                all.subrange(count as int, bits as int) + rest,
                code / pow2((bits - count) as nat),
                count,
                out,
            )
        }),
    decreases count,
{
    let code = CODES@[symbol].0 as nat;
    let bits = CODES@[symbol].1 as nat;
    let all = number_bits(code, bits);
    lemma_number_bits_len(code, bits);
    symbols_are_found(symbol);
    if count == 0 {
        assert(all.subrange(0, bits as int) =~= all);
        lemma_pow2_pos(bits);
        vstd::arithmetic::div_mod::lemma_basic_div(code as int, pow2(bits) as int);
    } else {
        let before = (count - 1) as nat;
        lemma_read_on(symbol, before, rest, out);
        let left = all.subrange(before as int, bits as int) + rest;
        assert(left.drop_first() =~= all.subrange(count as int, bits as int) + rest);
        lemma_next_prefix(code, bits, before);
        lemma_no_early_symbol(symbol, count);
        assert(left[0] == all[before as int]);
        let read = code / pow2((bits - before) as nat);
        let longer = code / pow2((bits - count) as nat);
        assert(longer == 2 * read + if left[0] {
            1nat
        } else {
            0nat
        });
        assert(symbol_with(longer, before + 1) is None);
        lemma_one_bit(left, read, before, out);
    }
}

/// The next bit of a number, and the quotient that ends with it.
proof fn lemma_next_prefix(code: nat, bits: nat, before: nat)
    requires
        before < bits,
    ensures
        number_bits(code, bits).len() == bits,
        code / pow2((bits - before - 1) as nat) == 2 * (code / pow2((bits - before) as nat)) + if
            number_bits(code, bits)[before as int] {
            1nat
        } else {
            0nat
        },
{
    let gap = (bits - before - 1) as nat;
    lemma_number_bits_len(code, bits);
    lemma_number_bits_prefix(code, bits, before + 1);
    let head = code / pow2(gap);
    lemma_number_bits_len(head / 2, before);
    assert(number_bits(code, bits).subrange(0, before as int + 1)[before as int] == number_bits(
        head,
        before + 1,
    )[before as int]);
    lemma_pow2_unfold(gap + 1);
    lemma_pow2_pos(gap);
    vstd::arithmetic::div_mod::lemma_div_denominator(code as int, pow2(gap) as int, 2);
    assert(pow2(gap) * 2 == pow2(gap + 1));
}

/// A code is read as its symbol, whatever follows it.
proof fn lemma_read_symbol(symbol: int, rest: Seq<bool>, out: Seq<u8>)
    requires
        0 <= symbol < 256,
    ensures
        decoded_from(
            number_bits(CODES@[symbol].0 as nat, CODES@[symbol].1 as nat) + rest,
            0,
            0,
            out,
        ) == decoded_from(rest, 0, 0, out.push(symbol as u8)),
{
    let code = CODES@[symbol].0 as nat;
    let bits = CODES@[symbol].1 as nat;
    let all = number_bits(code, bits);
    symbols_are_found(symbol);
    let before = (bits - 1) as nat;
    lemma_read_on(symbol, before, rest, out);
    lemma_next_prefix(code, bits, before);
    lemma2_to64();
    let left = all.subrange(before as int, bits as int) + rest;
    assert(left[0] == all[before as int]);
    assert(left.drop_first() =~= rest);
    assert(code / pow2(0) == code);
}

/// Reading ones leaves ones: they are the beginning of the end-of-string code.
proof fn lemma_read_ones(read: nat, padding: nat, out: Seq<u8>)
    requires
        read + padding <= 7,
    ensures
        decoded_from(ones(padding), (pow2(read) - 1) as nat, read, out) == Ok::<Seq<u8>, Fault>(
            out,
        ),
    decreases padding,
{
    lemma_pow2_pos(read);
    if padding > 0 {
        lemma_pow2_unfold(read + 1);
        assert(ones(padding).drop_first() =~= ones((padding - 1) as nat));
        lemma2_to64();
        lemma_no_early_symbol(EOS as int, read + 1);
        assert(CODES@[256] == (0x3fffffffu32, 30u8));
        assert(0x3fffffffnat / pow2((29 - read) as nat) == (pow2(read + 1) - 1) as nat) by {
            if read == 0 {
                assert(pow2((29 - read) as nat) == 0x2000_0000);
                assert(0x3fff_ffffnat / 0x2000_0000nat == 1);
            } else if read == 1 {
                assert(pow2((29 - read) as nat) == 0x1000_0000);
                assert(0x3fff_ffffnat / 0x1000_0000nat == 3);
            } else if read == 2 {
                assert(pow2((29 - read) as nat) == 0x800_0000);
                assert(0x3fff_ffffnat / 0x800_0000nat == 7);
            } else if read == 3 {
                assert(pow2((29 - read) as nat) == 0x400_0000);
                assert(0x3fff_ffffnat / 0x400_0000nat == 15);
            } else if read == 4 {
                assert(pow2((29 - read) as nat) == 0x200_0000);
                assert(0x3fff_ffffnat / 0x200_0000nat == 31);
            } else if read == 5 {
                assert(pow2((29 - read) as nat) == 0x100_0000);
                assert(0x3fff_ffffnat / 0x100_0000nat == 63);
            } else {
                assert(pow2((29 - read) as nat) == 0x80_0000);
                assert(0x3fff_ffffnat / 0x80_0000nat == 127);
            }
        }
        lemma_read_ones(read + 1, (padding - 1) as nat, out);
    }
}

proof fn lemma_read_text(text: Seq<u8>, padding: nat, out: Seq<u8>)
    requires
        padding <= 7,
    ensures
        decoded_from(text_bits(text) + ones(padding), 0, 0, out) == Ok::<Seq<u8>, Fault>(
            out + text,
        ),
    decreases text.len(),
{
    if text.len() == 0 {
        lemma2_to64();
        lemma_read_ones(0, padding, out);
        assert(text_bits(text) + ones(padding) =~= ones(padding));
        assert(out + text =~= out);
    } else {
        let symbol = text[0] as int;
        let tail = text.drop_first();
        let code = number_bits(CODES@[symbol].0 as nat, CODES@[symbol].1 as nat);
        assert(text_bits(text) + ones(padding) =~= code + (text_bits(tail) + ones(padding)));
        lemma_read_symbol(symbol, text_bits(tail) + ones(padding), out);
        lemma_read_text(tail, padding, out.push(text[0]));
        assert(out.push(text[0]) + tail =~= out + text);
    }
}

/// Decoding gives back what was encoded.
pub proof fn decoding_inverts_encoding(encoded: Seq<u8>, text: Seq<u8>)
    requires
        encodes(encoded, text),
    ensures
        decoded(encoded) == Ok::<Seq<u8>, Fault>(text),
{
    let padding = choose|padding: nat|
        padding <= 7 && bits_of(encoded) == text_bits(text) + #[trigger] ones(padding);
    lemma_read_text(text, padding, Seq::empty());
    assert(Seq::<u8>::empty() + text =~= text);
}

proof fn lemma_all_ones(bits: nat)
    ensures
        number_bits((pow2(bits) - 1) as nat, bits) == ones(bits),
    decreases bits,
{
    lemma_pow2_pos(bits);
    if bits > 0 {
        lemma_pow2_unfold(bits);
        lemma_pow2_pos((bits - 1) as nat);
        lemma_all_ones((bits - 1) as nat);
        assert((pow2(bits) - 1) as nat / 2 == (pow2((bits - 1) as nat) - 1) as nat);
        assert(number_bits((pow2(bits) - 1) as nat, bits) =~= ones(bits));
    } else {
        assert(number_bits((pow2(bits) - 1) as nat, bits) =~= ones(bits));
    }
}

/// What was read, put in front of what is left, is what the result encodes.
proof fn lemma_read_back(rest: Seq<bool>, code: nat, bits: nat, out: Seq<u8>) -> (found: (
    Seq<u8>,
    nat,
))
    requires
        decoded_from(rest, code, bits, out) is Ok,
    ensures
        found.1 <= 7,
        decoded_from(rest, code, bits, out) == Ok::<Seq<u8>, Fault>(out + found.0),
        number_bits(code, bits) + rest == text_bits(found.0) + ones(found.1),
    decreases rest.len(),
{
    if rest.len() == 0 {
        lemma_all_ones(bits);
        lemma_pow2_pos(bits);
        assert(out + Seq::<u8>::empty() =~= out);
        assert(number_bits(code, bits) + rest =~= text_bits(Seq::empty()) + ones(bits));
        (Seq::empty(), bits)
    } else {
        let longer = 2 * code + if rest[0] {
            1nat
        } else {
            0nat
        };
        let tail = rest.drop_first();
        assert(number_bits(longer, bits + 1) == number_bits(longer / 2, bits).push(
            longer % 2 == 1,
        ));
        assert(longer / 2 == code);
        assert(number_bits(code, bits) + rest =~= number_bits(longer, bits + 1) + tail);
        match symbol_with(longer, bits + 1) {
            None => lemma_read_back(tail, longer, bits + 1, out),
            Some(symbol) => {
                assert(is_code(symbol, longer, bits + 1));
                let byte = symbol as u8;
                let (text, padding) = lemma_read_back(tail, 0, 0, out.push(byte));
                let whole = seq![byte] + text;
                assert(whole.drop_first() =~= text);
                assert(out.push(byte) + text =~= out + whole);
                assert(number_bits(0, 0) + tail =~= tail);
                assert(text_bits(whole) + ones(padding) =~= number_bits(longer, bits + 1) + (
                text_bits(text) + ones(padding)));
                (whole, padding)
            },
        }
    }
}

/// A literal decodes to a text exactly where it is the codes of that text with
/// at most seven ones behind them.
pub proof fn decodes_exactly_what_encodes_it(encoded: Seq<u8>, text: Seq<u8>)
    ensures
        decoded(encoded) == Ok::<Seq<u8>, Fault>(text) <==> encodes(encoded, text),
{
    if encodes(encoded, text) {
        decoding_inverts_encoding(encoded, text);
    }
    if decoded(encoded) == Ok::<Seq<u8>, Fault>(text) {
        let (found, padding) = lemma_read_back(bits_of(encoded), 0, 0, Seq::empty());
        assert(Seq::<u8>::empty() + found =~= found);
        assert(number_bits(0, 0) + bits_of(encoded) =~= bits_of(encoded));
        assert(bits_of(encoded) == text_bits(text) + ones(padding));
    }
}

// ---------------------------------------------------------------------------
// Which symbols have short codes
// ---------------------------------------------------------------------------

/// How many bits the code of a symbol takes (RFC 7541 appendix B), by length: the
/// commonest characters first, then the rest of the printable ones, then bytes that
/// are hardly ever sent.
pub open spec fn length_of(symbol: int) -> nat {
    if 48 <= symbol <= 50 || symbol == 97 || symbol == 99 || symbol == 101 || symbol == 105 ||
        symbol == 111 || 115 <= symbol <= 116 {
        5
    } else if symbol == 32 || symbol == 37 || 45 <= symbol <= 47 || 51 <= symbol <= 57 ||
        symbol == 61 || symbol == 65 || symbol == 95 || symbol == 98 || symbol == 100 ||
        102 <= symbol <= 104 || 108 <= symbol <= 110 || symbol == 112 || symbol == 114 ||
        symbol == 117 {
        6
    } else if symbol == 58 || 66 <= symbol <= 87 || symbol == 89 || 106 <= symbol <= 107 ||
        symbol == 113 || 118 <= symbol <= 122 {
        7
    } else if symbol == 38 || symbol == 42 || symbol == 44 || symbol == 59 || symbol == 88 ||
        symbol == 90 {
        8
    } else if 33 <= symbol <= 34 || 40 <= symbol <= 41 || symbol == 63 {
        10
    } else if symbol == 39 || symbol == 43 || symbol == 124 {
        11
    } else if symbol == 35 || symbol == 62 {
        12
    } else if symbol == 0 || symbol == 36 || symbol == 64 || symbol == 91 || symbol == 93 ||
        symbol == 126 {
        13
    } else if symbol == 94 || symbol == 125 {
        14
    } else if symbol == 60 || symbol == 96 || symbol == 123 {
        15
    } else if symbol == 92 || symbol == 195 || symbol == 208 {
        19
    } else if symbol == 128 || 130 <= symbol <= 131 || symbol == 162 || symbol == 184 ||
        symbol == 194 || symbol == 224 || symbol == 226 {
        20
    } else if symbol == 153 || symbol == 161 || symbol == 167 || symbol == 172 ||
        176 <= symbol <= 177 || symbol == 179 || symbol == 209 || 216 <= symbol <= 217 ||
        symbol == 227 || 229 <= symbol <= 230 {
        21
    } else if symbol == 129 || 132 <= symbol <= 134 || symbol == 136 || symbol == 146 ||
        symbol == 154 || symbol == 156 || symbol == 160 || 163 <= symbol <= 164 ||
        169 <= symbol <= 170 || symbol == 173 || symbol == 178 || symbol == 181 ||
        185 <= symbol <= 187 || 189 <= symbol <= 190 || symbol == 196 || symbol == 198 ||
        symbol == 228 || 232 <= symbol <= 233 {
        22
    } else if symbol == 1 || symbol == 135 || 137 <= symbol <= 141 || symbol == 143 ||
        symbol == 147 || 149 <= symbol <= 152 || symbol == 155 || 157 <= symbol <= 158 ||
        165 <= symbol <= 166 || symbol == 168 || 174 <= symbol <= 175 || symbol == 180 ||
        182 <= symbol <= 183 || symbol == 188 || symbol == 191 || symbol == 197 ||
        symbol == 231 || symbol == 239 {
        23
    } else if symbol == 9 || symbol == 142 || 144 <= symbol <= 145 || symbol == 148 ||
        symbol == 159 || symbol == 171 || symbol == 206 || symbol == 215 || symbol == 225 ||
        236 <= symbol <= 237 {
        24
    } else if symbol == 199 || symbol == 207 || 234 <= symbol <= 235 {
        25
    } else if 192 <= symbol <= 193 || 200 <= symbol <= 202 || symbol == 205 || symbol == 210 ||
        symbol == 213 || 218 <= symbol <= 219 || symbol == 238 || symbol == 240 ||
        242 <= symbol <= 243 || symbol == 255 {
        26
    } else if 203 <= symbol <= 204 || 211 <= symbol <= 212 || symbol == 214 ||
        221 <= symbol <= 223 || symbol == 241 || 244 <= symbol <= 248 || 250 <= symbol <= 254 {
        27
    } else if 2 <= symbol <= 8 || 11 <= symbol <= 12 || 14 <= symbol <= 21 || 23 <= symbol <= 31 ||
        symbol == 127 || symbol == 220 || symbol == 249 {
        28
    } else {
        30
    }
}

spec fn lengths_match(from: nat, count: nat) -> bool
    decreases count,
{
    count == 0 || (CODES@[from + count - 1].1 as nat == length_of(from + count - 1)
        && lengths_match(from, (count - 1) as nat))
}

proof fn lemma_length_matches(from: nat, count: nat, symbol: int)
    requires
        lengths_match(from, count),
        from <= symbol < from + count,
    ensures
        CODES@[symbol].1 as nat == length_of(symbol),
    decreases count,
{
    if symbol < from + count - 1 {
        lemma_length_matches(from, (count - 1) as nat, symbol);
    }
}

proof fn lemma_first_lengths()
    ensures
        lengths_match(0, 64),
        lengths_match(64, 64),
{
    reveal_with_fuel(lengths_match, 65);
}

proof fn lemma_last_lengths()
    ensures
        lengths_match(128, 64),
        lengths_match(192, 65),
{
    reveal_with_fuel(lengths_match, 66);
}

/// Every symbol has a code of its own length, which with the order of the symbols
/// settles the code.
pub proof fn every_symbol_has_its_length(symbol: int)
    requires
        0 <= symbol < 257,
    ensures
        CODES@[symbol].1 as nat == length_of(symbol),
{
    lemma_first_lengths();
    lemma_last_lengths();
    if symbol < 64 {
        lemma_length_matches(0, 64, symbol);
    } else if symbol < 128 {
        lemma_length_matches(64, 64, symbol);
    } else if symbol < 192 {
        lemma_length_matches(128, 64, symbol);
    } else {
        lemma_length_matches(192, 65, symbol);
    }
}

/// The bits of a literal are those of its bytes, the most significant of each first.
pub proof fn literals_by_their_bits(bytes: Seq<u8>, i: int)
    requires
        0 <= i < bytes.len(),
    ensures
        ({
            let bits = bits_of(bytes);
            let weight = |k: int| if bits[8 * i + k] {
                1int
            } else {
                0int
            };
            &&& bits.len() == 8 * bytes.len()
            &&& bytes[i] == weight(0) * 128 + weight(1) * 64 + weight(2) * 32 + weight(3) * 16
                + weight(4) * 8 + weight(5) * 4 + weight(6) * 2 + weight(7)
        }),
{
    let bits = bits_of(bytes);
    let byte = bytes[i];
    assert forall|k: int| 0 <= k < 8 implies #[trigger] bits[8 * i + k] == (byte as nat
        / bit_weight(k) % 2 == 1) by {
        assert((8 * i + k) / 8 == i);
        assert((8 * i + k) % 8 == k);
    }
    lemma_byte_bits(byte);
    assert(bits[8 * i + 0] == (byte / 128 % 2 == 1));
    assert(bits[8 * i + 1] == (byte / 64 % 2 == 1));
    assert(bits[8 * i + 2] == (byte / 32 % 2 == 1));
    assert(bits[8 * i + 3] == (byte / 16 % 2 == 1));
    assert(bits[8 * i + 4] == (byte / 8 % 2 == 1));
    assert(bits[8 * i + 5] == (byte / 4 % 2 == 1));
    assert(bits[8 * i + 6] == (byte / 2 % 2 == 1));
    assert(bits[8 * i + 7] == (byte / 1 % 2 == 1));
}

/// A byte is its bits.
proof fn lemma_byte_bits(byte: u8)
    ensures
        byte == (byte / 128 % 2) * 128 + (byte / 64 % 2) * 64 + (byte / 32 % 2) * 32 + (byte / 16
            % 2) * 16 + (byte / 8 % 2) * 8 + (byte / 4 % 2) * 4 + (byte / 2 % 2) * 2 + (byte / 1
            % 2),
{
    assert(byte / 4 == byte / 2 / 2);
    assert(byte / 8 == byte / 4 / 2);
    assert(byte / 16 == byte / 8 / 2);
    assert(byte / 32 == byte / 16 / 2);
    assert(byte / 64 == byte / 32 / 2);
    assert(byte / 128 == byte / 64 / 2);
    assert(byte == 2 * (byte / 2) + byte % 2);
    assert(byte / 1 == byte);
    assert(byte / 128 < 2);
}

proof fn lemma_decoding_fails(rest: Seq<bool>, code: nat, bits: nat, out: Seq<u8>)
    ensures
        crate::h3::huffman::decoded_from(rest, code, bits, out) matches Err(fault) ==> !fault.fatal
            && fault.code == Code::QPACK_DECOMPRESSION_FAILED && !fault.field_section,
    decreases rest.len(),
{
    if rest.len() > 0 {
        let grown = 2 * code + if rest[0] {
            1nat
        } else {
            0nat
        };
        lemma_decoding_fails(rest.drop_first(), grown, bits + 1, out);
        if let Some(symbol) = symbol_with(grown, bits + 1) {
            lemma_decoding_fails(rest.drop_first(), 0, 0, out.push(symbol as u8));
        }
    }
}

/// A literal that is no text's codes ends its stream.
pub proof fn what_encodes_nothing_is_refused(encoded: Seq<u8>)
    ensures
        (forall|text: Seq<u8>| !encodes(encoded, text)) <==> decoded(encoded) is Err,
        decoded(encoded) matches Err(fault) ==> !fault.fatal && fault.code
            == Code::QPACK_DECOMPRESSION_FAILED && !fault.field_section,
{
    lemma_decoding_fails(bits_of(encoded), 0, 0, Seq::empty());
    if decoded(encoded) is Ok {
        decodes_exactly_what_encodes_it(encoded, decoded(encoded)->Ok_0);
    } else {
        assert forall|text: Seq<u8>| !encodes(encoded, text) by {
            decodes_exactly_what_encodes_it(encoded, text);
        }
    }
}

} // verus!
