//! Which field sections are requests, and what request each of them is, line by
//! line (RFC 9114 sections 4.2 to 4.4, RFC 8441 section 4).

use vstd::prelude::*;
use vstd::utf8::{encode_utf8, is_ascii_chars_encode_utf8, valid_utf8};

use crate::h3::message::{
    FieldBytes, MethodView, RequestView, is_field_name, is_token, is_value, lower, same_name,
    token_byte, value_byte, values_named,
};
use crate::h3::stream::{
    Heard, heard, is_authority, is_path, is_query, is_scheme, path_byte, query_mark, request_of,
    target_of, trimmed, whitespace,
};

verus! {

// ---------------------------------------------------------------------------
// Characters
// ---------------------------------------------------------------------------

/// Whether an ASCII character is in a list.
pub open spec fn among(byte: u8, list: Seq<char>) -> bool {
    byte < 0x80 && list.contains(byte as char)
}

/// Whether a byte is an ASCII letter or digit.
pub open spec fn letter_or_digit(byte: u8) -> bool {
    among(byte, "abcdefghijklmnopqrstuvwxyzABCDEFGHIJKLMNOPQRSTUVWXYZ0123456789"@)
}

proof fn lemma_letters(byte: u8)
    ensures
        letter_or_digit(byte) <==> (0x30 <= byte <= 0x39 || 0x41 <= byte <= 0x5a || 0x61 <= byte
            <= 0x7a),
{
    let list = "abcdefghijklmnopqrstuvwxyzABCDEFGHIJKLMNOPQRSTUVWXYZ0123456789"@;
    reveal_strlit("abcdefghijklmnopqrstuvwxyzABCDEFGHIJKLMNOPQRSTUVWXYZ0123456789");
    if 0x61 <= byte <= 0x7a {
        assert(list[byte - 0x61] == byte as char);
    } else if 0x41 <= byte <= 0x5a {
        assert(list[26 + (byte - 0x41)] == byte as char);
    } else if 0x30 <= byte <= 0x39 {
        assert(list[52 + (byte - 0x30)] == byte as char);
    }
    if letter_or_digit(byte) {
        let i = choose|i: int| 0 <= i < list.len() && list[i] == byte as char;
        assert(list[i] == byte as char);
        if i < 26 {
            assert('a' <= list[i] && list[i] <= 'z');
        } else if i < 52 {
            assert('A' <= list[i] && list[i] <= 'Z');
        } else {
            assert('0' <= list[i] && list[i] <= '9');
        }
    }
}

/// A token is made of letters, digits and fifteen other characters.
pub proof fn token_characters(byte: u8)
    ensures
        token_byte(byte) <==> letter_or_digit(byte) || among(byte, "!#$%&'*+-.^_`|~"@),
{
    lemma_letters(byte);
    let list = "!#$%&'*+-.^_`|~"@;
    reveal_strlit("!#$%&'*+-.^_`|~");
    if !letter_or_digit(byte) && token_byte(byte) {
        assert(list[0] == '!' && list[1] == '#' && list[2] == '$' && list[3] == '%' && list[4]
            == '&' && list[5] == '\'' && list[6] == '*' && list[7] == '+' && list[8] == '-'
            && list[9] == '.' && list[10] == '^' && list[11] == '_' && list[12] == '`' && list[13]
            == '|' && list[14] == '~');
        assert(list.contains(byte as char));
    }
    if among(byte, list) {
        let i = choose|i: int| 0 <= i < list.len() && list[i] == byte as char;
        assert(list[i] == byte as char);
    }
}

/// A path segment is made of letters, digits and eighteen other characters.
pub proof fn path_characters(byte: u8)
    ensures
        path_byte(byte) <==> letter_or_digit(byte) || among(byte, "-._~%!$&'()*+,;=:@"@),
{
    lemma_letters(byte);
    let list = "-._~%!$&'()*+,;=:@"@;
    reveal_strlit("-._~%!$&'()*+,;=:@");
    if !letter_or_digit(byte) && path_byte(byte) {
        assert(list[0] == '-' && list[1] == '.' && list[2] == '_' && list[3] == '~' && list[4]
            == '%' && list[5] == '!' && list[6] == '$' && list[7] == '&' && list[8] == '\''
            && list[9] == '(' && list[10] == ')' && list[11] == '*' && list[12] == '+' && list[13]
            == ',' && list[14] == ';' && list[15] == '=' && list[16] == ':' && list[17] == '@');
        assert(list.contains(byte as char));
    }
    if among(byte, list) {
        let i = choose|i: int| 0 <= i < list.len() && list[i] == byte as char;
        assert(list[i] == byte as char);
    }
}

/// Whether each byte is one that a field value may hold: no control character but
/// the tab.
pub open spec fn printable(bytes: Seq<u8>) -> bool {
    forall|i: int|
        0 <= i < bytes.len() ==> (#[trigger] bytes[i] >= 0x20 && bytes[i] != 0x7f) || bytes[i]
            == 0x09
}

/// Whether bytes are a token: at least one, each a letter, a digit or one of
/// fifteen other characters.
pub open spec fn tokenlike(bytes: Seq<u8>) -> bool {
    bytes.len() > 0 && forall|i: int|
        0 <= i < bytes.len() ==> letter_or_digit(#[trigger] bytes[i]) || among(
            bytes[i],
            "!#$%&'*+-.^_`|~"@,
        )
}

/// Whether each byte is one that an authority may hold.
pub open spec fn authoritylike(bytes: Seq<u8>) -> bool {
    forall|i: int|
        0 <= i < bytes.len() ==> letter_or_digit(#[trigger] bytes[i]) || among(
            bytes[i],
            "-._~%!$&'()*+,;=:@"@,
        ) || bytes[i] == 0x5b || bytes[i] == 0x5d
}

/// Whether each byte is one that a path with a query behind it may hold.
pub open spec fn targetlike(bytes: Seq<u8>) -> bool {
    forall|i: int|
        0 <= i < bytes.len() ==> letter_or_digit(#[trigger] bytes[i]) || among(
            bytes[i],
            "-._~%!$&'()*+,;=:@"@,
        ) || bytes[i] == 0x2f || bytes[i] == 0x3f
}

/// Whether bytes are a scheme: a letter, and letters, digits, `+`, `-` and `.`
/// behind it.
pub open spec fn schemelike(bytes: Seq<u8>) -> bool {
    &&& bytes.len() > 0
    &&& 0x41 <= bytes[0] <= 0x5a || 0x61 <= bytes[0] <= 0x7a
    &&& forall|i: int|
        0 <= i < bytes.len() ==> letter_or_digit(#[trigger] bytes[i]) || bytes[i] == 0x2b
            || bytes[i] == 0x2d || bytes[i] == 0x2e
}

proof fn lemma_classes(bytes: Seq<u8>)
    ensures
        is_value(bytes) <==> printable(bytes),
        is_token(bytes) <==> tokenlike(bytes),
        is_authority(bytes) <==> authoritylike(bytes),
        is_scheme(bytes) <==> schemelike(bytes),
        (is_path(bytes) || (forall|i: int|
            0 <= i < bytes.len() ==> path_byte(#[trigger] bytes[i]) || bytes[i] == 0x2f
                || bytes[i] == 0x3f)) <==> targetlike(bytes),
        is_query(bytes) <==> targetlike(bytes),
{
    assert forall|i: int| 0 <= i < bytes.len() implies (token_byte(#[trigger] bytes[i])
        <==> letter_or_digit(bytes[i]) || among(bytes[i], "!#$%&'*+-.^_`|~"@)) && (path_byte(
        bytes[i],
    ) <==> letter_or_digit(bytes[i]) || among(bytes[i], "-._~%!$&'()*+,;=:@"@)) && (letter_or_digit(
        bytes[i],
    ) <==> crate::h3::stream::alphanumeric(bytes[i])) && (value_byte(bytes[i]) <==> (bytes[i]
        >= 0x20 && bytes[i] != 0x7f) || bytes[i] == 0x09) by {
        token_characters(bytes[i]);
        path_characters(bytes[i]);
        lemma_letters(bytes[i]);
    }
}

/// What is left of a value once the spaces and tabs at its ends are gone: one piece
/// of it, with nothing but spaces and tabs around it and none at its own ends.
pub proof fn trimming_takes_the_ends(value: Seq<u8>) -> (ends: (int, int))
    ensures
        0 <= ends.0 <= ends.1 <= value.len(),
        trimmed(value) == value.subrange(ends.0, ends.1),
        forall|i: int|
            0 <= i < ends.0 || ends.1 <= i < value.len() ==> #[trigger] value[i] == 0x20
                || value[i] == 0x09,
        ends.0 < ends.1 ==> value[ends.0] != 0x20 && value[ends.0] != 0x09 && value[ends.1 - 1]
            != 0x20 && value[ends.1 - 1] != 0x09,
    decreases value.len(),
{
    if value.len() > 0 && whitespace(value[0]) {
        let later = value.drop_first();
        let (from, to) = trimming_takes_the_ends(later);
        assert(later.subrange(from, to) =~= value.subrange(from + 1, to + 1));
        assert forall|i: int|
            0 <= i < from + 1 || to + 1 <= i < value.len() implies #[trigger] value[i] == 0x20
            || value[i] == 0x09 by {
            if i > 0 {
                assert(later[i - 1] == value[i]);
            }
        }
        (from + 1, to + 1)
    } else if value.len() > 0 && whitespace(value.last()) {
        let shorter = value.drop_last();
        let (from, to) = trimming_takes_the_ends(shorter);
        assert(shorter.subrange(from, to) =~= value.subrange(from, to));
        assert forall|i: int| 0 <= i < from || to <= i < value.len() implies #[trigger] value[i]
            == 0x20 || value[i] == 0x09 by {
            if i < shorter.len() {
                assert(shorter[i] == value[i]);
            }
        }
        (from, to)
    } else {
        assert(value.subrange(0, value.len() as int) =~= value);
        (0, value.len() as int)
    }
}

// ---------------------------------------------------------------------------
// Lines
// ---------------------------------------------------------------------------

/// Whether a line is a pseudo-header: its name starts with a colon.
pub open spec fn is_pseudo(line: FieldBytes) -> bool {
    line.0.len() > 0 && line.0[0] == 0x3a
}

/// The lines that are no pseudo-headers, in order.
pub open spec fn regular_lines(section: Seq<FieldBytes>) -> Seq<FieldBytes> {
    section.filter(|line: FieldBytes| !is_pseudo(line))
}

/// The lines with exactly this name, in order.
pub open spec fn called(section: Seq<FieldBytes>, name: Seq<u8>) -> Seq<FieldBytes> {
    section.filter(|line: FieldBytes| line.0 == name)
}

/// The value of the first line with exactly this name.
pub open spec fn said(section: Seq<FieldBytes>, name: Seq<u8>) -> Option<Seq<u8>> {
    if called(section, name).len() > 0 {
        Some(called(section, name)[0].1)
    } else {
        None
    }
}

/// Whether a name is one of the five that a pseudo-header may have.
pub open spec fn defined(name: Seq<u8>) -> bool {
    ||| name == encode_utf8(":method"@)
    ||| name == encode_utf8(":scheme"@)
    ||| name == encode_utf8(":authority"@)
    ||| name == encode_utf8(":path"@)
    ||| name == encode_utf8(":protocol"@)
}

/// Whether a regular line is one that HTTP/3 allows.
pub open spec fn permitted(line: FieldBytes) -> bool {
    &&& tokenlike(line.0)
    &&& forall|i: int| 0 <= i < line.0.len() ==> !(0x41 <= #[trigger] line.0[i] <= 0x5a)
    &&& printable(trimmed(line.1))
    &&& line.0 != encode_utf8("connection"@)
    &&& line.0 == encode_utf8("te"@) ==> trimmed(line.1) == encode_utf8("trailers"@)
}

/// Whether the lines of a section may stand together: pseudo-headers before the
/// others, each of them defined and there once at most, and the others permitted,
/// with at most one Host among them.
pub open spec fn sound(section: Seq<FieldBytes>) -> bool {
    &&& forall|i: int, j: int|
        0 <= i < j < section.len() && !is_pseudo(#[trigger] section[i]) ==> !is_pseudo(
            #[trigger] section[j],
        )
    &&& forall|i: int|
        0 <= i < section.len() ==> if is_pseudo(#[trigger] section[i]) {
            defined(section[i].0)
        } else {
            permitted(section[i])
        }
    &&& called(section, encode_utf8(":method"@)).len() <= 1
    &&& called(section, encode_utf8(":scheme"@)).len() <= 1
    &&& called(section, encode_utf8(":authority"@)).len() <= 1
    &&& called(section, encode_utf8(":path"@)).len() <= 1
    &&& called(section, encode_utf8(":protocol"@)).len() <= 1
    &&& called(section, encode_utf8("host"@)).len() <= 1
}

/// The regular lines with their values trimmed.
pub open spec fn kept(section: Seq<FieldBytes>) -> Seq<FieldBytes> {
    regular_lines(section).map_values(|line: FieldBytes| (line.0, trimmed(line.1)))
}

spec fn gathered(section: Seq<FieldBytes>) -> Heard {
    Heard {
        method: said(section, encode_utf8(":method"@)),
        scheme: said(section, encode_utf8(":scheme"@)),
        authority: said(section, encode_utf8(":authority"@)),
        target: said(section, encode_utf8(":path"@)),
        protocol: said(section, encode_utf8(":protocol"@)),
        regular: regular_lines(section).len() > 0,
        fields: kept(section),
    }
}

proof fn lemma_names()
    ensures
        encode_utf8(":method"@) != encode_utf8(":scheme"@),
        encode_utf8(":method"@) != encode_utf8(":authority"@),
        encode_utf8(":method"@) != encode_utf8(":path"@),
        encode_utf8(":method"@) != encode_utf8(":protocol"@),
        encode_utf8(":scheme"@) != encode_utf8(":authority"@),
        encode_utf8(":scheme"@) != encode_utf8(":path"@),
        encode_utf8(":scheme"@) != encode_utf8(":protocol"@),
        encode_utf8(":authority"@) != encode_utf8(":path"@),
        encode_utf8(":authority"@) != encode_utf8(":protocol"@),
        encode_utf8(":path"@) != encode_utf8(":protocol"@),
        is_pseudo((encode_utf8(":method"@), Seq::empty())),
        is_pseudo((encode_utf8(":scheme"@), Seq::empty())),
        is_pseudo((encode_utf8(":authority"@), Seq::empty())),
        is_pseudo((encode_utf8(":path"@), Seq::empty())),
        is_pseudo((encode_utf8(":protocol"@), Seq::empty())),
        !is_pseudo((encode_utf8("host"@), Seq::empty())),
        is_field_name(encode_utf8("host"@)),
{
    reveal_strlit(":method");
    reveal_strlit(":scheme");
    reveal_strlit(":authority");
    reveal_strlit(":path");
    reveal_strlit(":protocol");
    reveal_strlit("host");
    is_ascii_chars_encode_utf8(":method"@);
    is_ascii_chars_encode_utf8(":scheme"@);
    is_ascii_chars_encode_utf8(":authority"@);
    is_ascii_chars_encode_utf8(":path"@);
    is_ascii_chars_encode_utf8(":protocol"@);
    is_ascii_chars_encode_utf8("host"@);
    assert(":method"@[1] == 'm' && ":scheme"@[1] == 's');
    assert(":method"@[0] == ':' && ":scheme"@[0] == ':' && ":authority"@[0] == ':' && ":path"@[0]
        == ':' && ":protocol"@[0] == ':' && "host"@[0] == 'h');
    let host = encode_utf8("host"@);
    assert("host"@[1] == 'o' && "host"@[2] == 's' && "host"@[3] == 't');
    assert(host[0] == 0x68 && host[1] == 0x6f && host[2] == 0x73 && host[3] == 0x74);
}

/// One more line joins those of its name, and no others.
proof fn lemma_called(section: Seq<FieldBytes>, name: Seq<u8>)
    requires
        section.len() > 0,
    ensures
        called(section, name) == if section.last().0 == name {
            called(section.drop_last(), name).push(section.last())
        } else {
            called(section.drop_last(), name)
        },
        regular_lines(section) == if is_pseudo(section.last()) {
            regular_lines(section.drop_last())
        } else {
            regular_lines(section.drop_last()).push(section.last())
        },
        kept(section) == if is_pseudo(section.last()) {
            kept(section.drop_last())
        } else {
            kept(section.drop_last()).push((section.last().0, trimmed(section.last().1)))
        },
{
    reveal(Seq::filter);
    if !is_pseudo(section.last()) {
        assert(kept(section) =~= kept(section.drop_last()).push(
            (section.last().0, trimmed(section.last().1)),
        ));
    }
}

proof fn lemma_empty()
    ensures
        forall|name: Seq<u8>| #[trigger]
            called(Seq::<FieldBytes>::empty(), name) == Seq::<FieldBytes>::empty(),
        regular_lines(Seq::<FieldBytes>::empty()) == Seq::<FieldBytes>::empty(),
        kept(Seq::<FieldBytes>::empty()) =~= Seq::<FieldBytes>::empty(),
{
    reveal(Seq::filter);
}

/// There is no regular line exactly where every line is a pseudo-header.
proof fn lemma_no_regular(section: Seq<FieldBytes>)
    ensures
        regular_lines(section).len() == 0 <==> forall|i: int|
            0 <= i < section.len() ==> is_pseudo(#[trigger] section[i]),
    decreases section.len(),
{
    if section.len() == 0 {
        lemma_empty();
        assert(section =~= Seq::<FieldBytes>::empty());
    } else {
        let before = section.drop_last();
        lemma_no_regular(before);
        lemma_called(section, Seq::empty());
        if regular_lines(section).len() == 0 {
            assert forall|i: int| 0 <= i < section.len() implies is_pseudo(
                #[trigger] section[i],
            ) by {
                if i < before.len() {
                    assert(before[i] == section[i]);
                }
            }
        } else if forall|i: int| 0 <= i < section.len() ==> is_pseudo(#[trigger] section[i]) {
            assert forall|i: int| 0 <= i < before.len() implies is_pseudo(
                #[trigger] before[i],
            ) by {
                assert(before[i] == section[i]);
            }
            assert(is_pseudo(section[section.len() - 1]));
        }
    }
}

/// Whether one more line may join a section.
spec fn joins(before: Seq<FieldBytes>, line: FieldBytes) -> bool {
    if is_pseudo(line) {
        defined(line.0) && regular_lines(before).len() == 0 && called(before, line.0).len() == 0
    } else {
        permitted(line) && (line.0 == encode_utf8("host"@) ==> called(before, line.0).len() == 0)
    }
}

proof fn lemma_sound_step(section: Seq<FieldBytes>)
    requires
        section.len() > 0,
    ensures
        sound(section) <==> sound(section.drop_last()) && joins(section.drop_last(), section.last()),
{
    let before = section.drop_last();
    let line = section.last();
    lemma_names();
    lemma_called(section, encode_utf8(":method"@));
    lemma_called(section, encode_utf8(":scheme"@));
    lemma_called(section, encode_utf8(":authority"@));
    lemma_called(section, encode_utf8(":path"@));
    lemma_called(section, encode_utf8(":protocol"@));
    lemma_called(section, encode_utf8("host"@));
    lemma_no_regular(before);
    assert forall|i: int| 0 <= i < before.len() implies #[trigger] before[i] == section[i] by {}
    assert(section[section.len() - 1] == line);
    if sound(section) {
        assert forall|i: int| 0 <= i < before.len() implies if is_pseudo(#[trigger] before[i]) {
            defined(before[i].0)
        } else {
            permitted(before[i])
        } by {
            assert(section[i] == before[i]);
        }
        assert forall|i: int, j: int|
            0 <= i < j < before.len() && !is_pseudo(#[trigger] before[i]) implies !is_pseudo(
            #[trigger] before[j],
        ) by {
            assert(section[i] == before[i] && section[j] == before[j]);
        }
        if is_pseudo(line) {
            assert forall|i: int| 0 <= i < before.len() implies is_pseudo(
                #[trigger] before[i],
            ) by {
                assert(section[i] == before[i]);
            }
        }
    }
    if sound(before) && joins(before, line) {
        assert forall|i: int| 0 <= i < section.len() implies if is_pseudo(#[trigger] section[i]) {
            defined(section[i].0)
        } else {
            permitted(section[i])
        } by {
            if i < before.len() {
                assert(section[i] == before[i]);
            }
        }
        assert forall|i: int, j: int|
            0 <= i < j < section.len() && !is_pseudo(#[trigger] section[i]) implies !is_pseudo(
            #[trigger] section[j],
        ) by {
            assert(section[i] == before[i]);
            if j < before.len() {
                assert(section[j] == before[j]);
            }
        }
    }
}

/// The Host fields of a sound section are its lines of that name.
proof fn lemma_hosts(section: Seq<FieldBytes>)
    requires
        forall|i: int|
            0 <= i < section.len() && !is_pseudo(#[trigger] section[i]) ==> permitted(section[i]),
    ensures
        values_named(kept(section), encode_utf8("host"@)).len() == called(
            section,
            encode_utf8("host"@),
        ).len(),
        forall|i: int|
            0 <= i < called(section, encode_utf8("host"@)).len() ==> #[trigger] values_named(
                kept(section),
                encode_utf8("host"@),
            )[i] == trimmed(called(section, encode_utf8("host"@))[i].1),
    decreases section.len(),
{
    let host = encode_utf8("host"@);
    lemma_names();
    if section.len() == 0 {
        lemma_empty();
        assert(section =~= Seq::<FieldBytes>::empty());
        assert(kept(section) =~= Seq::<FieldBytes>::empty());
    } else {
        let before = section.drop_last();
        let line = section.last();
        assert forall|i: int| 0 <= i < before.len() && !is_pseudo(#[trigger] before[i]) implies
            permitted(before[i]) by {
            assert(before[i] == section[i]);
        }
        lemma_hosts(before);
        lemma_called(section, host);
        if !is_pseudo(line) {
            assert(section[section.len() - 1] == line);
            assert(permitted(line));
            let now = kept(section);
            assert(now.drop_last() =~= kept(before));
            assert(now.last() == (line.0, trimmed(line.1)));
            assert(same_name(line.0, host) <==> line.0 == host) by {
                if same_name(line.0, host) {
                    assert(line.0 =~= host) by {
                        assert forall|i: int| 0 <= i < host.len() implies line.0[i] == host[i] by {
                            assert(lower(line.0[i]) == lower(host[i]));
                        }
                    }
                }
            }
        }
    }
}

#[verifier::rlimit(40)]
proof fn lemma_heard(section: Seq<FieldBytes>)
    ensures
        heard(section) is Ok <==> sound(section),
        sound(section) ==> heard(section) == Ok::<Heard, crate::h3::error::Fault>(
            gathered(section),
        ),
    decreases section.len(),
{
    if section.len() == 0 {
        lemma_empty();
        assert(section =~= Seq::<FieldBytes>::empty());
        assert(kept(section) =~= Seq::<FieldBytes>::empty());
    } else {
        let before = section.drop_last();
        let line = section.last();
        lemma_heard(before);
        lemma_sound_step(section);
        if sound(before) {
            lemma_line_heard(section);
        }
    }
}

proof fn lemma_line_heard(section: Seq<FieldBytes>)
    requires
        section.len() > 0,
        sound(section.drop_last()),
    ensures
        gathered(section.drop_last()).with_line(section.last()) is Ok <==> joins(
            section.drop_last(),
            section.last(),
        ),
        joins(section.drop_last(), section.last()) ==> gathered(section.drop_last()).with_line(
            section.last(),
        ) == Ok::<Heard, crate::h3::error::Fault>(gathered(section)),
{
    let before = section.drop_last();
    let line = section.last();
    lemma_names();
    lemma_called(section, encode_utf8(":method"@));
    lemma_called(section, encode_utf8(":scheme"@));
    lemma_called(section, encode_utf8(":authority"@));
    lemma_called(section, encode_utf8(":path"@));
    lemma_called(section, encode_utf8(":protocol"@));
    lemma_classes(line.0);
    lemma_classes(trimmed(line.1));
    lemma_hosts(before);
    if is_pseudo(line) {
        if joins(before, line) {
            lemma_first_called(before, line);
        }
    }
}

/// The first line of a name says what is said.
proof fn lemma_first_called(before: Seq<FieldBytes>, line: FieldBytes)
    requires
        called(before, line.0).len() == 0,
    ensures
        called(before, line.0).push(line)[0] == line,
{
}

// ---------------------------------------------------------------------------
// Requests
// ---------------------------------------------------------------------------

/// Whether a `:path` is one that a request may have: absolute, with a query or
/// without, or the asterisk where it is no extended CONNECT.
pub open spec fn target_allowed(target: Seq<u8>, extended: bool) -> bool {
    ||| target == seq![0x2au8] && !extended
    ||| target.len() > 0 && target[0] == 0x2f && targetlike(target)
}

/// The authority that a section names: that of `:authority`, else of Host.
pub open spec fn authority_said(section: Seq<FieldBytes>) -> Option<Seq<u8>> {
    match said(section, encode_utf8(":authority"@)) {
        Some(authority) => Some(authority),
        None => match said(section, encode_utf8("host"@)) {
            Some(host) => Some(trimmed(host)),
            None => None,
        },
    }
}

/// Whether sound lines make a request together.
pub open spec fn complete(section: Seq<FieldBytes>) -> bool {
    let method = said(section, encode_utf8(":method"@));
    let scheme = said(section, encode_utf8(":scheme"@));
    let authority = said(section, encode_utf8(":authority"@));
    let target = said(section, encode_utf8(":path"@));
    let protocol = said(section, encode_utf8(":protocol"@));
    let host = said(section, encode_utf8("host"@));
    &&& method is Some && tokenlike(method->0)
    &&& protocol is Some ==> method->0 == encode_utf8("CONNECT"@) && valid_utf8(protocol->0)
    &&& if method->0 == encode_utf8("CONNECT"@) && protocol is None {
        &&& scheme is None && target is None
        &&& authority is Some && authority->0.len() > 0 && authoritylike(authority->0)
    } else {
        &&& scheme is Some && schemelike(scheme->0)
        &&& target is Some && target_allowed(target->0, protocol is Some)
        &&& authority is Some || (protocol is None && host is Some)
        &&& authority is Some && host is Some ==> authority->0 == trimmed(host->0)
        &&& authority_said(section)->0.len() > 0 && authoritylike(authority_said(section)->0)
    }
}

proof fn lemma_query_mark(target: Seq<u8>, from: nat)
    requires
        from <= target.len(),
    ensures
        match query_mark(target, from) {
            Some(mark) => from <= mark < target.len() && target[mark as int] == 0x3f && forall|
                i: int,
            |
                from <= i < mark ==> #[trigger] target[i] != 0x3f,
            None => forall|i: int| from <= i < target.len() ==> #[trigger] target[i] != 0x3f,
        },
    decreases target.len() - from,
{
    if from < target.len() && target[from as int] != 0x3f {
        lemma_query_mark(target, from + 1);
    }
}

/// Joins a path and a query as they were sent.
pub open spec fn rejoined(path: Seq<u8>, query: Option<Seq<u8>>) -> Seq<u8> {
    match query {
        Some(query) => path + seq![0x3fu8] + query,
        None => path,
    }
}

proof fn lemma_target(target: Seq<u8>, extended: bool)
    ensures
        target_of(target, extended) is Ok <==> target_allowed(target, extended),
        target_of(target, extended) matches Ok((path, query)) ==> rejoined(path, query) == target
            && !path.contains(0x3f),
{
    lemma_query_mark(target, 0);
    lemma_classes(target);
    if target == seq![0x2au8] && !extended {
        assert(!target.contains(0x3f));
    } else if target.len() > 0 && target[0] == 0x2f {
        match query_mark(target, 0) {
            Some(mark) => {
                let path = target.subrange(0, mark as int);
                let query = target.subrange(mark as int + 1, target.len() as int);
                assert(path + seq![0x3fu8] + query =~= target);
                lemma_classes(query);
                if is_path(path) && is_query(query) {
                    assert forall|i: int| 0 <= i < target.len() implies path_byte(
                        #[trigger] target[i],
                    ) || target[i] == 0x2f || target[i] == 0x3f by {
                        if i < mark {
                            assert(path[i] == target[i]);
                        } else if i > mark {
                            assert(query[i - mark - 1] == target[i]);
                        }
                    }
                }
                if targetlike(target) {
                    assert(is_query(target));
                    assert forall|i: int| 0 <= i < path.len() implies path_byte(#[trigger] path[i])
                        || path[i] == 0x2f by {
                        assert(path[i] == target[i]);
                    }
                    assert forall|i: int| 0 <= i < query.len() implies path_byte(
                        #[trigger] query[i],
                    ) || query[i] == 0x2f || query[i] == 0x3f by {
                        assert(query[i] == target[mark as int + 1 + i]);
                    }
                }
                if path.contains(0x3f) {
                    let k = choose|k: int| 0 <= k < path.len() && path[k] == 0x3f;
                    assert(target[k] == 0x3f);
                }
            },
            None => {
                if targetlike(target) {
                    assert(is_query(target));
                    assert forall|i: int| 0 <= i < target.len() implies path_byte(
                        #[trigger] target[i],
                    ) || target[i] == 0x2f by {}
                }
                if is_path(target) {
                    assert forall|i: int| 0 <= i < target.len() implies path_byte(
                        #[trigger] target[i],
                    ) || target[i] == 0x2f || target[i] == 0x3f by {}
                }
            },
        }
    }
}

/// A section is a request exactly where its lines may stand together and are
/// complete.
pub proof fn requests_are_sound_and_complete(section: Seq<FieldBytes>)
    ensures
        request_of(section) is Ok <==> sound(section) && complete(section),
{
    lemma_heard(section);
    if sound(section) {
        lemma_assembled(section);
    }
}

/// What the parts of a request come from.
pub open spec fn taken_from(request: RequestView, section: Seq<FieldBytes>) -> bool {
    let method = said(section, encode_utf8(":method"@));
    let target = said(section, encode_utf8(":path"@));
    &&& method is Some
    &&& if method->0 == encode_utf8("CONNECT"@) {
        request.method is Connect
    } else {
        request.method == MethodView::Other(method->0)
    }
    &&& request.scheme == said(section, encode_utf8(":scheme"@))
    &&& request.authority == authority_said(section)
    &&& request.protocol == said(section, encode_utf8(":protocol"@))
    &&& if target is Some {
        request.path is Some && rejoined(request.path->0, request.query) == target->0
            && !request.path->0.contains(0x3f)
    } else {
        request.path is None && request.query is None
    }
    &&& request.fields == kept(section)
}

proof fn lemma_assembled(section: Seq<FieldBytes>)
    requires
        sound(section),
        heard(section) == Ok::<Heard, crate::h3::error::Fault>(gathered(section)),
    ensures
        request_of(section) is Ok <==> complete(section),
        request_of(section) matches Ok(request) ==> taken_from(request, section),
{
    let all = gathered(section);
    lemma_hosts(section);
    let host = encode_utf8("host"@);
    if called(section, host).len() > 0 {
        assert(values_named(kept(section), host)[0] == trimmed(called(section, host)[0].1));
        lemma_classes(trimmed(called(section, host)[0].1));
    }
    if all.method is Some {
        lemma_classes(all.method->0);
    }
    if all.authority is Some {
        lemma_classes(all.authority->0);
    }
    if all.scheme is Some {
        lemma_classes(all.scheme->0);
    }
    if all.target is Some {
        lemma_target(all.target->0, all.protocol is Some);
    }
}

/// Every part of a request is what its line said: the method, the scheme, the
/// authority or the Host in its place, the protocol, the path and the query that
/// the target is of, and the fields.
pub proof fn requests_say_what_their_lines_say(section: Seq<FieldBytes>)
    ensures
        request_of(section) matches Ok(request) ==> taken_from(request, section),
{
    lemma_heard(section);
    if sound(section) {
        lemma_assembled(section);
    }
}

/// The fields of a request are the lines that are no pseudo-headers: all of them,
/// once each and in order, with their names as they are and their values trimmed.
pub proof fn no_field_is_lost(section: Seq<FieldBytes>)
    ensures
        request_of(section) matches Ok(request) ==> {
            let lines = section.filter(|line: FieldBytes| !(line.0.len() > 0 && line.0[0] == 0x3a));
            &&& request.fields.len() == lines.len()
            &&& forall|i: int|
                0 <= i < lines.len() ==> (#[trigger] request.fields[i]).0 == lines[i].0
                    && request.fields[i].1 == trimmed(lines[i].1)
        },
{
    requests_say_what_their_lines_say(section);
    let lines = section.filter(|line: FieldBytes| !(line.0.len() > 0 && line.0[0] == 0x3a));
    lemma_same_filter(section);
}

proof fn lemma_same_filter(section: Seq<FieldBytes>)
    ensures
        section.filter(|line: FieldBytes| !(line.0.len() > 0 && line.0[0] == 0x3a))
            == regular_lines(section),
    decreases section.len(),
{
    reveal(Seq::filter);
    if section.len() > 0 {
        lemma_same_filter(section.drop_last());
    }
}

// ---------------------------------------------------------------------------
// Looking fields up
// ---------------------------------------------------------------------------

/// Whether two bytes are the same, or one letter in its two cases.
pub open spec fn same_letter(left: u8, right: u8) -> bool {
    ||| left == right
    ||| 0x41 <= left <= 0x5a && right == left + 0x20
    ||| 0x41 <= right <= 0x5a && left == right + 0x20
}

/// Whether two names are of one length and the same letter by letter.
pub open spec fn same_letters(left: Seq<u8>, right: Seq<u8>) -> bool {
    left.len() == right.len() && forall|i: int|
        0 <= i < left.len() ==> same_letter(#[trigger] left[i], right[i])
}

proof fn lemma_same_letters(left: Seq<u8>, right: Seq<u8>)
    ensures
        same_name(left, right) <==> same_letters(left, right),
{
    if same_name(left, right) {
        assert forall|i: int| 0 <= i < left.len() implies same_letter(
            #[trigger] left[i],
            right[i],
        ) by {
            assert(lower(left[i]) == lower(right[i]));
        }
    }
    if same_letters(left, right) {
        assert forall|i: int| 0 <= i < left.len() implies lower(#[trigger] left[i]) == lower(
            right[i],
        ) by {
            assert(same_letter(left[i], right[i]));
        }
    }
}

/// Looking a name up finds the value of every field called so, in whatever case, in
/// order, and of no other.
pub proof fn lookups_find_every_value(fields: Seq<FieldBytes>, name: Seq<u8>)
    ensures
        values_named(fields, name) == fields.filter(
            |field: FieldBytes| same_letters(field.0, name),
        ).map_values(|field: FieldBytes| field.1),
    decreases fields.len(),
{
    reveal(Seq::filter);
    let found = fields.filter(|field: FieldBytes| same_letters(field.0, name));
    if fields.len() == 0 {
        assert(values_named(fields, name) =~= found.map_values(|field: FieldBytes| field.1));
    } else {
        lookups_find_every_value(fields.drop_last(), name);
        lemma_same_letters(fields.last().0, name);
        assert(values_named(fields, name) =~= found.map_values(|field: FieldBytes| field.1));
    }
}

/// A field value may hold every byte but the control characters, of which it may
/// hold the tab; a field name is a token without upper-case letters.
pub proof fn names_and_values_by_their_characters(bytes: Seq<u8>)
    ensures
        is_value(bytes) <==> printable(bytes),
        is_token(bytes) <==> tokenlike(bytes),
        is_field_name(bytes) <==> tokenlike(bytes) && forall|i: int|
            0 <= i < bytes.len() ==> !(0x41 <= #[trigger] bytes[i] <= 0x5a),
{
    lemma_classes(bytes);
}

} // verus!
