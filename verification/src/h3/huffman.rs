//! The Huffman code of QPACK string literals (RFC 7541 appendix B).
//!
//! The code is canonical: the codes of one length are consecutive numbers, in
//! the order of their symbols, and the first code of a length follows from the
//! codes shorter than it. So a symbol is found from a code and its length by a
//! subtraction and a lookup, with no tree. [`CODES`] is the code as it is
//! published; the tables beside it are what the decoder looks things up in, and
//! are proved to agree with it.

use vstd::arithmetic::power2::{lemma2_to64, lemma_pow2_pos, lemma_pow2_unfold, pow2};
use vstd::prelude::*;

use crate::h3::error::{Code, Fault, Violation};

verus! {

/// The longest code there is, in bits.
pub const MAX_CODE_BITS: usize = 30;

/// The end-of-string symbol, whose code pads the last byte.
pub const EOS: u16 = 256;

/// The code of each symbol and its length in bits.
pub const CODES: [(u32, u8); 257] = [
    (0x1ff8, 13), (0x7fffd8, 23), (0xfffffe2, 28), (0xfffffe3, 28),
    (0xfffffe4, 28), (0xfffffe5, 28), (0xfffffe6, 28), (0xfffffe7, 28),
    (0xfffffe8, 28), (0xffffea, 24), (0x3ffffffc, 30), (0xfffffe9, 28),
    (0xfffffea, 28), (0x3ffffffd, 30), (0xfffffeb, 28), (0xfffffec, 28),
    (0xfffffed, 28), (0xfffffee, 28), (0xfffffef, 28), (0xffffff0, 28),
    (0xffffff1, 28), (0xffffff2, 28), (0x3ffffffe, 30), (0xffffff3, 28),
    (0xffffff4, 28), (0xffffff5, 28), (0xffffff6, 28), (0xffffff7, 28),
    (0xffffff8, 28), (0xffffff9, 28), (0xffffffa, 28), (0xffffffb, 28),
    (0x14, 6), (0x3f8, 10), (0x3f9, 10), (0xffa, 12),
    (0x1ff9, 13), (0x15, 6), (0xf8, 8), (0x7fa, 11),
    (0x3fa, 10), (0x3fb, 10), (0xf9, 8), (0x7fb, 11),
    (0xfa, 8), (0x16, 6), (0x17, 6), (0x18, 6),
    (0x0, 5), (0x1, 5), (0x2, 5), (0x19, 6),
    (0x1a, 6), (0x1b, 6), (0x1c, 6), (0x1d, 6),
    (0x1e, 6), (0x1f, 6), (0x5c, 7), (0xfb, 8),
    (0x7ffc, 15), (0x20, 6), (0xffb, 12), (0x3fc, 10),
    (0x1ffa, 13), (0x21, 6), (0x5d, 7), (0x5e, 7),
    (0x5f, 7), (0x60, 7), (0x61, 7), (0x62, 7),
    (0x63, 7), (0x64, 7), (0x65, 7), (0x66, 7),
    (0x67, 7), (0x68, 7), (0x69, 7), (0x6a, 7),
    (0x6b, 7), (0x6c, 7), (0x6d, 7), (0x6e, 7),
    (0x6f, 7), (0x70, 7), (0x71, 7), (0x72, 7),
    (0xfc, 8), (0x73, 7), (0xfd, 8), (0x1ffb, 13),
    (0x7fff0, 19), (0x1ffc, 13), (0x3ffc, 14), (0x22, 6),
    (0x7ffd, 15), (0x3, 5), (0x23, 6), (0x4, 5),
    (0x24, 6), (0x5, 5), (0x25, 6), (0x26, 6),
    (0x27, 6), (0x6, 5), (0x74, 7), (0x75, 7),
    (0x28, 6), (0x29, 6), (0x2a, 6), (0x7, 5),
    (0x2b, 6), (0x76, 7), (0x2c, 6), (0x8, 5),
    (0x9, 5), (0x2d, 6), (0x77, 7), (0x78, 7),
    (0x79, 7), (0x7a, 7), (0x7b, 7), (0x7ffe, 15),
    (0x7fc, 11), (0x3ffd, 14), (0x1ffd, 13), (0xffffffc, 28),
    (0xfffe6, 20), (0x3fffd2, 22), (0xfffe7, 20), (0xfffe8, 20),
    (0x3fffd3, 22), (0x3fffd4, 22), (0x3fffd5, 22), (0x7fffd9, 23),
    (0x3fffd6, 22), (0x7fffda, 23), (0x7fffdb, 23), (0x7fffdc, 23),
    (0x7fffdd, 23), (0x7fffde, 23), (0xffffeb, 24), (0x7fffdf, 23),
    (0xffffec, 24), (0xffffed, 24), (0x3fffd7, 22), (0x7fffe0, 23),
    (0xffffee, 24), (0x7fffe1, 23), (0x7fffe2, 23), (0x7fffe3, 23),
    (0x7fffe4, 23), (0x1fffdc, 21), (0x3fffd8, 22), (0x7fffe5, 23),
    (0x3fffd9, 22), (0x7fffe6, 23), (0x7fffe7, 23), (0xffffef, 24),
    (0x3fffda, 22), (0x1fffdd, 21), (0xfffe9, 20), (0x3fffdb, 22),
    (0x3fffdc, 22), (0x7fffe8, 23), (0x7fffe9, 23), (0x1fffde, 21),
    (0x7fffea, 23), (0x3fffdd, 22), (0x3fffde, 22), (0xfffff0, 24),
    (0x1fffdf, 21), (0x3fffdf, 22), (0x7fffeb, 23), (0x7fffec, 23),
    (0x1fffe0, 21), (0x1fffe1, 21), (0x3fffe0, 22), (0x1fffe2, 21),
    (0x7fffed, 23), (0x3fffe1, 22), (0x7fffee, 23), (0x7fffef, 23),
    (0xfffea, 20), (0x3fffe2, 22), (0x3fffe3, 22), (0x3fffe4, 22),
    (0x7ffff0, 23), (0x3fffe5, 22), (0x3fffe6, 22), (0x7ffff1, 23),
    (0x3ffffe0, 26), (0x3ffffe1, 26), (0xfffeb, 20), (0x7fff1, 19),
    (0x3fffe7, 22), (0x7ffff2, 23), (0x3fffe8, 22), (0x1ffffec, 25),
    (0x3ffffe2, 26), (0x3ffffe3, 26), (0x3ffffe4, 26), (0x7ffffde, 27),
    (0x7ffffdf, 27), (0x3ffffe5, 26), (0xfffff1, 24), (0x1ffffed, 25),
    (0x7fff2, 19), (0x1fffe3, 21), (0x3ffffe6, 26), (0x7ffffe0, 27),
    (0x7ffffe1, 27), (0x3ffffe7, 26), (0x7ffffe2, 27), (0xfffff2, 24),
    (0x1fffe4, 21), (0x1fffe5, 21), (0x3ffffe8, 26), (0x3ffffe9, 26),
    (0xffffffd, 28), (0x7ffffe3, 27), (0x7ffffe4, 27), (0x7ffffe5, 27),
    (0xfffec, 20), (0xfffff3, 24), (0xfffed, 20), (0x1fffe6, 21),
    (0x3fffe9, 22), (0x1fffe7, 21), (0x1fffe8, 21), (0x7ffff3, 23),
    (0x3fffea, 22), (0x3fffeb, 22), (0x1ffffee, 25), (0x1ffffef, 25),
    (0xfffff4, 24), (0xfffff5, 24), (0x3ffffea, 26), (0x7ffff4, 23),
    (0x3ffffeb, 26), (0x7ffffe6, 27), (0x3ffffec, 26), (0x3ffffed, 26),
    (0x7ffffe7, 27), (0x7ffffe8, 27), (0x7ffffe9, 27), (0x7ffffea, 27),
    (0x7ffffeb, 27), (0xffffffe, 28), (0x7ffffec, 27), (0x7ffffed, 27),
    (0x7ffffee, 27), (0x7ffffef, 27), (0x7fffff0, 27), (0x3ffffee, 26),
    (0x3fffffff, 30),
];

/// How many codes there are of each length.
const COUNT: [u16; 31] = [
    0, 0, 0, 0, 0, 10, 26, 32, 6, 0, 5, 3, 2, 6, 2, 3,
    0, 0, 0, 3, 8, 13, 26, 29, 12, 4, 15, 19, 29, 0, 4,
];

/// The first code of each length.
const FIRST_CODE: [u32; 31] = [
    0x0, 0x0, 0x0, 0x0, 0x0, 0x0, 0x14, 0x5c,
    0xf8, 0x1fc, 0x3f8, 0x7fa, 0xffa, 0x1ff8, 0x3ffc, 0x7ffc,
    0xfffe, 0x1fffc, 0x3fff8, 0x7fff0, 0xfffe6, 0x1fffdc, 0x3fffd2, 0x7fffd8,
    0xffffea, 0x1ffffec, 0x3ffffe0, 0x7ffffde, 0xfffffe2, 0x1ffffffe, 0x3ffffffc,
];

/// Where in [`SYMBOLS`] the symbols of each length start.
const FIRST_INDEX: [u16; 31] = [
    0, 0, 0, 0, 0, 0, 10, 36, 68, 74, 74, 79, 82, 84, 90, 92,
    95, 95, 95, 95, 98, 106, 119, 145, 174, 186, 190, 205, 224, 253, 253,
];

/// The symbols, by the length of their codes and then by their own order.
const SYMBOLS: [u16; 257] = [
    48, 49, 50, 97, 99, 101, 105, 111, 115, 116, 32, 37, 45, 46, 47, 51,
    52, 53, 54, 55, 56, 57, 61, 65, 95, 98, 100, 102, 103, 104, 108, 109,
    110, 112, 114, 117, 58, 66, 67, 68, 69, 70, 71, 72, 73, 74, 75, 76,
    77, 78, 79, 80, 81, 82, 83, 84, 85, 86, 87, 89, 106, 107, 113, 118,
    119, 120, 121, 122, 38, 42, 44, 59, 88, 90, 33, 34, 40, 41, 63, 39,
    43, 124, 35, 62, 0, 36, 64, 91, 93, 126, 94, 125, 60, 96, 123, 92,
    195, 208, 128, 130, 131, 162, 184, 194, 224, 226, 153, 161, 167, 172, 176, 177,
    179, 209, 216, 217, 227, 229, 230, 129, 132, 133, 134, 136, 146, 154, 156, 160,
    163, 164, 169, 170, 173, 178, 181, 185, 186, 187, 189, 190, 196, 198, 228, 232,
    233, 1, 135, 137, 138, 139, 140, 141, 143, 147, 149, 150, 151, 152, 155, 157,
    158, 165, 166, 168, 174, 175, 180, 182, 183, 188, 191, 197, 231, 239, 9, 142,
    144, 145, 148, 159, 171, 206, 215, 225, 236, 237, 199, 207, 234, 235, 192, 193,
    200, 201, 202, 205, 210, 213, 218, 219, 238, 240, 242, 243, 255, 203, 204, 211,
    212, 214, 221, 222, 223, 241, 244, 245, 246, 247, 248, 250, 251, 252, 253, 254,
    2, 3, 4, 5, 6, 7, 8, 11, 12, 14, 15, 16, 17, 18, 19, 20,
    21, 23, 24, 25, 26, 27, 28, 29, 30, 31, 127, 220, 249, 10, 13, 22,
    256,
];

/// Whether `code`, written in `bits` bits, is the code of `symbol`.
pub open spec fn is_code(symbol: int, code: nat, bits: nat) -> bool {
    0 <= symbol < 257 && CODES@[symbol].0 as nat == code && CODES@[symbol].1 as nat == bits
}

/// The symbol that `code`, written in `bits` bits, is the code of.
pub open spec fn symbol_with(code: nat, bits: nat) -> Option<int> {
    if exists|symbol: int| is_code(symbol, code, bits) {
        Some(choose|symbol: int| is_code(symbol, code, bits))
    } else {
        None
    }
}

/// What the `i`th bit of a byte counts for, from the most significant one.
pub open spec fn bit_weight(i: int) -> nat {
    if i == 0 {
        128
    } else if i == 1 {
        64
    } else if i == 2 {
        32
    } else if i == 3 {
        16
    } else if i == 4 {
        8
    } else if i == 5 {
        4
    } else if i == 6 {
        2
    } else {
        1
    }
}

/// The bits of a sequence of bytes, the most significant of each byte first.
pub open spec fn bits_of(bytes: Seq<u8>) -> Seq<bool> {
    Seq::new(
        8 * bytes.len(),
        |i: int| bytes[i / 8] as nat / bit_weight(i % 8) % 2 == 1,
    )
}

/// A fault in an encoded literal, which ends the stream.
pub open spec fn huffman_fault(detail: Seq<char>) -> Fault {
    Fault::stream(Code::QPACK_DECOMPRESSION_FAILED, detail)
}

/// Decodes what is left of a literal, given the bits of an unfinished code and
/// what has been decoded before it.
///
/// What remains when the bits run out is padding: at most seven bits, all ones.
pub open spec fn decoded_from(
    rest: Seq<bool>,
    code: nat,
    bits: nat,
    out: Seq<u8>,
) -> Result<Seq<u8>, Fault>
    decreases rest.len(),
{
    if rest.len() == 0 {
        if bits >= 8 {
            Err(huffman_fault("Huffman padding is longer than seven bits"@))
        } else if code + 1 != pow2(bits) {
            Err(huffman_fault("Huffman padding is not all ones"@))
        } else {
            Ok(out)
        }
    } else {
        let longer = 2 * code + if rest[0] {
            1nat
        } else {
            0nat
        };
        let tail = rest.drop_first();
        if bits + 1 > MAX_CODE_BITS {
            Err(huffman_fault("no Huffman code matches these bits"@))
        } else {
            match symbol_with(longer, bits + 1) {
                None => decoded_from(tail, longer, bits + 1, out),
                Some(symbol) => if symbol == EOS {
                    Err(huffman_fault("the EOS symbol appeared in a string literal"@))
                } else {
                    decoded_from(tail, 0, 0, out.push(symbol as u8))
                },
            }
        }
    }
}

/// What an encoded literal decodes to.
pub open spec fn decoded(encoded: Seq<u8>) -> Result<Seq<u8>, Fault> {
    decoded_from(bits_of(encoded), 0, 0, Seq::empty())
}

// ---------------------------------------------------------------------------
// The tables agree with the code
// ---------------------------------------------------------------------------

/// Whether a symbol stands where its code says it does.
spec fn symbol_in_place(symbol: int) -> bool {
    let (code, bits) = CODES@[symbol];
    &&& 5 <= bits <= 30
    &&& FIRST_CODE@[bits as int] <= code < FIRST_CODE@[bits as int] + COUNT@[bits as int]
    &&& SYMBOLS@[FIRST_INDEX@[bits as int] + code - FIRST_CODE@[bits as int]] as int == symbol
}

spec fn symbols_in_place(from: nat, count: nat) -> bool
    decreases count,
{
    count == 0 || (symbol_in_place(from + count - 1) && symbols_in_place(from, (count - 1) as nat))
}

proof fn lemma_symbols_in_place(from: nat, count: nat, symbol: int)
    requires
        symbols_in_place(from, count),
        from <= symbol < from + count,
    ensures
        symbol_in_place(symbol),
    decreases count,
{
    if symbol < from + count - 1 {
        lemma_symbols_in_place(from, (count - 1) as nat, symbol);
    }
}

proof fn lemma_first_symbols()
    ensures
        symbols_in_place(0, 64),
        symbols_in_place(64, 64),
{
    reveal_with_fuel(symbols_in_place, 65);
}

proof fn lemma_last_symbols()
    ensures
        symbols_in_place(128, 64),
        symbols_in_place(192, 65),
{
    reveal_with_fuel(symbols_in_place, 66);
}

proof fn lemma_symbol_in_place(symbol: int)
    requires
        0 <= symbol < 257,
    ensures
        symbol_in_place(symbol),
{
    lemma_first_symbols();
    lemma_last_symbols();
    if symbol < 64 {
        lemma_symbols_in_place(0, 64, symbol);
    } else if symbol < 128 {
        lemma_symbols_in_place(64, 64, symbol);
    } else if symbol < 192 {
        lemma_symbols_in_place(128, 64, symbol);
    } else {
        lemma_symbols_in_place(192, 65, symbol);
    }
}

/// Whether the symbol in a slot has the code that the slot says it has.
spec fn slot_in_place(slot: int) -> bool {
    let symbol = SYMBOLS@[slot] as int;
    let (code, bits) = CODES@[symbol];
    &&& 0 <= symbol < 257
    &&& bits <= 30
    &&& FIRST_INDEX@[bits as int] <= slot < FIRST_INDEX@[bits as int] + COUNT@[bits as int]
    &&& code == FIRST_CODE@[bits as int] + (slot - FIRST_INDEX@[bits as int])
}

spec fn slots_in_place(from: nat, count: nat) -> bool
    decreases count,
{
    count == 0 || (slot_in_place(from + count - 1) && slots_in_place(from, (count - 1) as nat))
}

proof fn lemma_slots_in_place(from: nat, count: nat, slot: int)
    requires
        slots_in_place(from, count),
        from <= slot < from + count,
    ensures
        slot_in_place(slot),
    decreases count,
{
    if slot < from + count - 1 {
        lemma_slots_in_place(from, (count - 1) as nat, slot);
    }
}

proof fn lemma_first_slots()
    ensures
        slots_in_place(0, 64),
        slots_in_place(64, 64),
{
    reveal_with_fuel(slots_in_place, 65);
}

proof fn lemma_last_slots()
    ensures
        slots_in_place(128, 64),
        slots_in_place(192, 65),
{
    reveal_with_fuel(slots_in_place, 66);
}

proof fn lemma_slot_in_place(slot: int)
    requires
        0 <= slot < 257,
    ensures
        slot_in_place(slot),
{
    lemma_first_slots();
    lemma_last_slots();
    if slot < 64 {
        lemma_slots_in_place(0, 64, slot);
    } else if slot < 128 {
        lemma_slots_in_place(64, 64, slot);
    } else if slot < 192 {
        lemma_slots_in_place(128, 64, slot);
    } else {
        lemma_slots_in_place(192, 65, slot);
    }
}

/// Each length's symbols start where those of the length before it end, and its
/// first code is twice the number behind the last code of that length.
spec fn lengths_chain(bits: nat) -> bool
    decreases bits,
{
    bits == 0 || {
        &&& lengths_chain((bits - 1) as nat)
        &&& FIRST_INDEX@[bits as int] == FIRST_INDEX@[bits - 1] + COUNT@[bits - 1]
        &&& FIRST_CODE@[bits as int] == 2 * (FIRST_CODE@[bits - 1] + COUNT@[bits - 1])
    }
}

proof fn lemma_lengths_chain(bits: nat)
    requires
        bits <= 30,
    ensures
        lengths_chain(bits),
        FIRST_INDEX@[30] + COUNT@[30] == 257,
        FIRST_CODE@[30] + COUNT@[30] == pow2(30),
    decreases 30 - bits,
{
    lemma2_to64();
    if bits < 30 {
        lemma_lengths_chain(bits + 1);
    } else {
        reveal_with_fuel(lengths_chain, 31);
    }
}

/// The symbols of one length end before those of a longer one start.
proof fn lemma_index_order(shorter: nat, longer: nat)
    requires
        shorter < longer <= 30,
    ensures
        FIRST_INDEX@[shorter as int] + COUNT@[shorter as int] <= FIRST_INDEX@[longer as int],
    decreases longer,
{
    lemma_lengths_chain(longer);
    if shorter < longer - 1 {
        lemma_index_order(shorter, (longer - 1) as nat);
    }
}

/// A code is looked up by a subtraction and an index.
proof fn lemma_lookup(code: nat, bits: nat)
    requires
        1 <= bits <= 30,
    ensures
        symbol_with(code, bits) is Some <==> FIRST_CODE@[bits as int] <= code
            < FIRST_CODE@[bits as int] + COUNT@[bits as int],
        symbol_with(code, bits) is Some ==> {
            let slot = FIRST_INDEX@[bits as int] + code - FIRST_CODE@[bits as int];
            &&& 0 <= slot < 257
            &&& symbol_with(code, bits) == Some(SYMBOLS@[slot] as int)
            &&& is_code(SYMBOLS@[slot] as int, code, bits)
        },
{
    if exists|symbol: int| is_code(symbol, code, bits) {
        let symbol = choose|symbol: int| is_code(symbol, code, bits);
        lemma_symbol_in_place(symbol);
    }
    if FIRST_CODE@[bits as int] <= code < FIRST_CODE@[bits as int] + COUNT@[bits as int] {
        let slot = FIRST_INDEX@[bits as int] + code - FIRST_CODE@[bits as int];
        lemma_lengths_chain(bits);
        if bits < 30 {
            lemma_index_order(bits, 30);
        }
        lemma_slot_in_place(slot);
        let symbol = SYMBOLS@[slot] as int;
        let length = CODES@[symbol].1 as nat;
        if length < bits {
            lemma_index_order(length, bits);
        } else if bits < length {
            lemma_index_order(bits, length);
        }
        assert(is_code(symbol, code, bits));
    }
}

/// A literal that cannot be decoded, which ends the stream.
fn failed(detail: &str) -> (violation: Violation)
    ensures
        violation@ == huffman_fault(detail@),
{
    Violation::stream(Code::QPACK_DECOMPRESSION_FAILED, detail)
}

/// Decodes a Huffman-coded string literal.
pub fn decode(encoded: &[u8]) -> (result: Result<Vec<u8>, Violation>)
    ensures
        match (result, decoded(encoded@)) {
            (Ok(bytes), Ok(expected)) => bytes@ == expected,
            (Err(violation), Err(fault)) => violation@ == fault,
            _ => false,
        },
{
    let mut out: Vec<u8> = Vec::new();
    let mut code: u32 = 0;
    let mut bits: usize = 0;
    let mut at: usize = 0;
    let ghost all = bits_of(encoded@);
    proof {
        lemma2_to64();
        assert(all.subrange(0, all.len() as int) =~= all);
        assert(out@ =~= Seq::<u8>::empty());
    }
    while at < encoded.len()
        invariant
            at <= encoded.len(),
            all == bits_of(encoded@),
            bits <= 30,
            (code as nat) < pow2(bits as nat),
            decoded(encoded@) == decoded_from(
                all.subrange(8 * at, all.len() as int),
                code as nat,
                bits as nat,
                out@,
            ),
        decreases encoded.len() - at,
    {
        let byte: u8 = encoded[at];
        let mut shift: usize = 0;
        let mut weight: u8 = 128;
        while shift < 8
            invariant
                at < encoded.len(),
                all == bits_of(encoded@),
                byte == encoded@[at as int],
                shift <= 8,
                shift < 8 ==> weight as nat == bit_weight(shift as int),
                bits <= 30,
                (code as nat) < pow2(bits as nat),
                decoded(encoded@) == decoded_from(
                    all.subrange(8 * at + shift, all.len() as int),
                    code as nat,
                    bits as nat,
                    out@,
                ),
            decreases 8 - shift,
        {
            let ghost rest = all.subrange(8 * at + shift, all.len() as int);
            let bit: u32 = ((byte / weight) % 2) as u32;
            proof {
                lemma2_to64();
                lemma_pow2_unfold((bits + 1) as nat);
                assert((8 * at + shift) as int / 8 == at as int);
                assert((8 * at + shift) as int % 8 == shift as int);
                assert(rest[0] == (bit == 1));
                assert(rest.drop_first() =~= all.subrange(8 * at + shift + 1, all.len() as int));
                if bits < 30 {
                    if bits < 29 {
                        vstd::arithmetic::power2::lemma_pow2_strictly_increases(
                            (bits + 1) as nat,
                            30,
                        );
                    }
                }
            }
            if bits + 1 > MAX_CODE_BITS {
                return Err(failed("no Huffman code matches these bits"));
            }
            code = 2 * code + bit;
            bits = bits + 1;
            shift = shift + 1;
            weight = if weight > 1 {
                weight / 2
            } else {
                1
            };
            proof {
                lemma_lookup(code as nat, bits as nat);
            }
            if code >= FIRST_CODE[bits] && code - FIRST_CODE[bits] < COUNT[bits] as u32 {
                let slot: usize = FIRST_INDEX[bits] as usize + (code - FIRST_CODE[bits]) as usize;
                let symbol: u16 = SYMBOLS[slot];
                if symbol == EOS {
                    return Err(failed("the EOS symbol appeared in a string literal"));
                }
                out.push(symbol as u8);
                code = 0;
                bits = 0;
                proof {
                    lemma_pow2_pos(0);
                }
            }
        }
        at = at + 1;
    }
    proof {
        assert(all.subrange(8 * at, all.len() as int) =~= Seq::<bool>::empty());
        lemma2_to64();
    }
    if bits >= 8 {
        return Err(failed("Huffman padding is longer than seven bits"));
    }
    let ones: u32 = match bits {
        0 => 0,
        1 => 1,
        2 => 3,
        3 => 7,
        4 => 15,
        5 => 31,
        6 => 63,
        _ => 127,
    };
    if code != ones {
        return Err(failed("Huffman padding is not all ones"));
    }
    Ok(out)
}

// ---------------------------------------------------------------------------
// Laws
// ---------------------------------------------------------------------------

/// How many of the first `count` symbols have a code of `bits` bits.
pub open spec fn symbols_of_length(count: nat, bits: nat) -> nat
    decreases count,
{
    if count == 0 {
        0
    } else {
        symbols_of_length((count - 1) as nat, bits) + if CODES@[count - 1].1 as nat == bits {
            1nat
        } else {
            0nat
        }
    }
}

/// The first code of a length, derived from the lengths alone.
pub open spec fn derived_first_code(bits: nat) -> nat
    decreases bits,
{
    if bits == 0 {
        0
    } else {
        2 * (derived_first_code((bits - 1) as nat) + symbols_of_length(257, (bits - 1) as nat))
    }
}

/// Whether two neighbouring slots of one length hold their symbols in order.
spec fn slot_ordered(slot: int) -> bool {
    CODES@[SYMBOLS@[slot] as int].1 == CODES@[SYMBOLS@[slot + 1] as int].1 ==> SYMBOLS@[slot]
        < SYMBOLS@[slot + 1]
}

spec fn slots_ordered(from: nat, count: nat) -> bool
    decreases count,
{
    count == 0 || (slot_ordered(from + count - 1) && slots_ordered(from, (count - 1) as nat))
}

proof fn lemma_slots_ordered(from: nat, count: nat, slot: int)
    requires
        slots_ordered(from, count),
        from <= slot < from + count,
    ensures
        slot_ordered(slot),
    decreases count,
{
    if slot < from + count - 1 {
        lemma_slots_ordered(from, (count - 1) as nat, slot);
    }
}

proof fn lemma_first_slots_ordered()
    ensures
        slots_ordered(0, 64),
        slots_ordered(64, 64),
{
    reveal_with_fuel(slots_ordered, 65);
}

proof fn lemma_last_slots_ordered()
    ensures
        slots_ordered(128, 64),
        slots_ordered(192, 64),
{
    reveal_with_fuel(slots_ordered, 65);
}

proof fn lemma_slot_ordered(slot: int)
    requires
        0 <= slot < 256,
    ensures
        slot_ordered(slot),
{
    lemma_first_slots_ordered();
    lemma_last_slots_ordered();
    if slot < 64 {
        lemma_slots_ordered(0, 64, slot);
    } else if slot < 128 {
        lemma_slots_ordered(64, 64, slot);
    } else if slot < 192 {
        lemma_slots_ordered(128, 64, slot);
    } else {
        lemma_slots_ordered(192, 64, slot);
    }
}

proof fn lemma_slot_of_length(bits: nat, k: nat)
    requires
        bits <= 30,
        k < COUNT@[bits as int],
    ensures
        FIRST_INDEX@[bits as int] + k < 257,
        CODES@[SYMBOLS@[FIRST_INDEX@[bits as int] + k] as int].1 as nat == bits,
        CODES@[SYMBOLS@[FIRST_INDEX@[bits as int] + k] as int].0 as nat
            == FIRST_CODE@[bits as int] + k,
        0 <= SYMBOLS@[FIRST_INDEX@[bits as int] + k] < 257,
{
    lemma_lengths_chain(bits);
    if bits < 30 {
        lemma_index_order(bits, 30);
    }
    let slot = FIRST_INDEX@[bits as int] + k;
    lemma_slot_in_place(slot);
    let length = CODES@[SYMBOLS@[slot] as int].1 as nat;
    if length < bits {
        lemma_index_order(length, bits);
    } else if bits < length {
        lemma_index_order(bits, length);
    }
}

/// The symbols of one length that come before `count` are the first ones in
/// their slots.
proof fn lemma_rank(count: nat, bits: nat)
    requires
        count <= 257,
        bits <= 30,
    ensures
        symbols_of_length(count, bits) <= COUNT@[bits as int],
        forall|k: int|
            0 <= k < COUNT@[bits as int] ==> (k < symbols_of_length(count, bits)
                <==> #[trigger] SYMBOLS@[FIRST_INDEX@[bits as int] + k] < count),
    decreases count,
{
    if count > 0 {
        let before = (count - 1) as nat;
        lemma_rank(before, bits);
        let rank = symbols_of_length(before, bits);
        if CODES@[before as int].1 as nat == bits {
            lemma_symbol_in_place(before as int);
            let k0 = CODES@[before as int].0 - FIRST_CODE@[bits as int];
            assert(SYMBOLS@[FIRST_INDEX@[bits as int] + k0] == before);
            assert(k0 >= rank);
            if rank < k0 {
                lemma_slot_of_length(bits, rank);
                lemma_slots_increase(bits, rank, k0 as nat);
                assert(!(SYMBOLS@[FIRST_INDEX@[bits as int] + rank] < before));
            }
            assert forall|k: int| 0 <= k < COUNT@[bits as int] implies (k < rank + 1
                <==> #[trigger] SYMBOLS@[FIRST_INDEX@[bits as int] + k] < count) by {
                if k < k0 {
                    lemma_slots_increase(bits, k as nat, k0 as nat);
                } else if k0 < k {
                    lemma_slots_increase(bits, k0 as nat, k as nat);
                }
            }
        } else {
            assert forall|k: int| 0 <= k < COUNT@[bits as int] implies (k < rank
                <==> #[trigger] SYMBOLS@[FIRST_INDEX@[bits as int] + k] < count) by {
                lemma_slot_of_length(bits, k as nat);
            }
        }
    } else {
        assert forall|k: int| 0 <= k < COUNT@[bits as int] implies (k < 0
            <==> #[trigger] SYMBOLS@[FIRST_INDEX@[bits as int] + k] < count) by {
        }
    }
}

proof fn lemma_slots_increase(bits: nat, low: nat, high: nat)
    requires
        bits <= 30,
        low < high < COUNT@[bits as int],
    ensures
        SYMBOLS@[FIRST_INDEX@[bits as int] + low] < SYMBOLS@[FIRST_INDEX@[bits as int] + high],
    decreases high,
{
    lemma_slot_of_length(bits, high);
    lemma_slot_of_length(bits, (high - 1) as nat);
    lemma_slot_ordered(FIRST_INDEX@[bits as int] + high - 1);
    if low < high - 1 {
        lemma_slots_increase(bits, low, (high - 1) as nat);
    }
}

proof fn lemma_all_of_length(bits: nat)
    requires
        bits <= 30,
    ensures
        symbols_of_length(257, bits) == COUNT@[bits as int],
{
    lemma_rank(257, bits);
    let rank = symbols_of_length(257, bits);
    if rank < COUNT@[bits as int] {
        lemma_slot_of_length(bits, rank);
        assert(SYMBOLS@[FIRST_INDEX@[bits as int] + rank] < 257);
    }
}

proof fn lemma_derived_first_code(bits: nat)
    requires
        bits <= 30,
    ensures
        derived_first_code(bits) == FIRST_CODE@[bits as int],
    decreases bits,
{
    lemma_lengths_chain(bits);
    if bits > 0 {
        lemma_derived_first_code((bits - 1) as nat);
        lemma_all_of_length((bits - 1) as nat);
    } else {
        assert(FIRST_CODE@[0] == 0);
    }
}

/// The code is canonical: every code follows from the lengths alone, as the
/// first code of its length plus the number of earlier symbols of that length.
pub proof fn the_code_is_canonical(symbol: nat)
    requires
        symbol < 257,
    ensures
        ({
            let bits = CODES@[symbol as int].1 as nat;
            CODES@[symbol as int].0 as nat == derived_first_code(bits) + symbols_of_length(
                symbol,
                bits,
            )
        }),
{
    let bits = CODES@[symbol as int].1 as nat;
    lemma_symbol_in_place(symbol as int);
    lemma_derived_first_code(bits);
    lemma_rank(symbol, bits);
    lemma_rank(symbol + 1, bits);
    let rank = symbols_of_length(symbol, bits);
    let k0 = CODES@[symbol as int].0 - FIRST_CODE@[bits as int];
    assert(SYMBOLS@[FIRST_INDEX@[bits as int] + k0] == symbol);
    assert(symbols_of_length(symbol + 1, bits) == rank + 1);
}

/// The codes longer than a length start behind all that the codes up to that
/// length begin.
proof fn lemma_longer_codes(shorter: nat, longer: nat)
    requires
        shorter < longer <= 30,
    ensures
        FIRST_CODE@[longer as int] >= (FIRST_CODE@[shorter as int] + COUNT@[shorter as int])
            * pow2((longer - shorter) as nat),
    decreases longer,
{
    lemma_lengths_chain(longer);
    let gap = (longer - shorter) as nat;
    lemma_pow2_unfold(gap);
    let bound = FIRST_CODE@[shorter as int] + COUNT@[shorter as int];
    let scale = pow2((gap - 1) as nat);
    assert(bound * (2 * scale) == 2 * (bound * scale)) by (nonlinear_arith);
    assert(pow2(gap) == 2 * scale);
    assert(FIRST_CODE@[longer as int] == 2 * (FIRST_CODE@[longer - 1] + COUNT@[longer - 1]));
    if shorter < longer - 1 {
        lemma_longer_codes(shorter, (longer - 1) as nat);
        assert(FIRST_CODE@[longer - 1] >= bound * scale);
        assert(FIRST_CODE@[longer as int] >= bound * pow2(gap));
    } else {
        lemma2_to64();
        assert(scale == 1);
        assert(bound * 2 == 2 * bound);
    }
}

/// No code is the beginning of another.
pub proof fn no_code_begins_another(shorter: int, longer: int)
    requires
        0 <= shorter < 257,
        0 <= longer < 257,
        shorter != longer,
        CODES@[shorter].1 <= CODES@[longer].1,
    ensures
        CODES@[longer].0 as nat / pow2((CODES@[longer].1 - CODES@[shorter].1) as nat)
            != CODES@[shorter].0,
{
    lemma_symbol_in_place(shorter);
    lemma_symbol_in_place(longer);
    let short_bits = CODES@[shorter].1 as nat;
    let long_bits = CODES@[longer].1 as nat;
    let gap = (long_bits - short_bits) as nat;
    lemma_pow2_pos(gap);
    if gap == 0 {
        lemma2_to64();
    } else {
        lemma_longer_codes(short_bits, long_bits);
        let bound = (FIRST_CODE@[short_bits as int] + COUNT@[short_bits as int]) as int;
        lemma_quotient_at_least(CODES@[longer].0 as int, bound, pow2(gap) as int);
    }
}

proof fn lemma_quotient_at_least(value: int, bound: int, scale: int)
    requires
        scale > 0,
        value >= bound * scale,
    ensures
        value / scale >= bound,
{
    vstd::arithmetic::div_mod::lemma_div_is_ordered(bound * scale, value, scale);
    vstd::arithmetic::div_mod::lemma_div_multiples_vanish(bound, scale);
    assert(bound * scale == scale * bound) by (nonlinear_arith);
}

/// Every symbol is found by its own code, which fits its length.
pub proof fn symbols_are_found(symbol: int)
    requires
        0 <= symbol < 257,
    ensures
        symbol_with(CODES@[symbol].0 as nat, CODES@[symbol].1 as nat) == Some(symbol),
        5 <= CODES@[symbol].1 <= MAX_CODE_BITS,
        (CODES@[symbol].0 as nat) < pow2(CODES@[symbol].1 as nat),
{
    lemma_symbol_in_place(symbol);
    let bits = CODES@[symbol].1 as nat;
    lemma_lookup(CODES@[symbol].0 as nat, bits);
    lemma_code_fits(bits);
}

proof fn lemma_code_fits(bits: nat)
    requires
        bits <= 30,
    ensures
        FIRST_CODE@[bits as int] + COUNT@[bits as int] <= pow2(bits),
    decreases 30 - bits,
{
    lemma_lengths_chain(30);
    if bits < 30 {
        lemma_code_fits(bits + 1);
        lemma_lengths_chain(bits + 1);
        lemma_pow2_unfold(bits + 1);
    }
}

} // verus!
