//! The static table (RFC 9204 appendix A) by name: which indices each name has, and
//! the values they stand for.

use vstd::prelude::*;

use crate::h3::qpack::STATIC_TABLE;

verus! {

/// The name at an index, by the runs of indices that each name has.
pub open spec fn name_at(index: int) -> Seq<char> {
    if index == 0 {
        ":authority"@
    } else if index == 1 {
        ":path"@
    } else if index == 2 {
        "age"@
    } else if index == 3 {
        "content-disposition"@
    } else if index == 4 {
        "content-length"@
    } else if index == 5 {
        "cookie"@
    } else if index == 6 {
        "date"@
    } else if index == 7 {
        "etag"@
    } else if index == 8 {
        "if-modified-since"@
    } else if index == 9 {
        "if-none-match"@
    } else if index == 10 {
        "last-modified"@
    } else if index == 11 {
        "link"@
    } else if index == 12 {
        "location"@
    } else if index == 13 {
        "referer"@
    } else if index == 14 {
        "set-cookie"@
    } else if 15 <= index <= 21 {
        ":method"@
    } else if 22 <= index <= 23 {
        ":scheme"@
    } else if 24 <= index <= 28 || 63 <= index <= 71 {
        ":status"@
    } else if 29 <= index <= 30 {
        "accept"@
    } else if index == 31 {
        "accept-encoding"@
    } else if index == 32 {
        "accept-ranges"@
    } else if 33 <= index <= 34 || index == 75 {
        "access-control-allow-headers"@
    } else if index == 35 {
        "access-control-allow-origin"@
    } else if 36 <= index <= 41 {
        "cache-control"@
    } else if 42 <= index <= 43 {
        "content-encoding"@
    } else if 44 <= index <= 54 {
        "content-type"@
    } else if index == 55 {
        "range"@
    } else if 56 <= index <= 58 {
        "strict-transport-security"@
    } else if 59 <= index <= 60 {
        "vary"@
    } else if index == 61 {
        "x-content-type-options"@
    } else if index == 62 {
        "x-xss-protection"@
    } else if index == 72 {
        "accept-language"@
    } else if 73 <= index <= 74 {
        "access-control-allow-credentials"@
    } else if 76 <= index <= 78 {
        "access-control-allow-methods"@
    } else if index == 79 {
        "access-control-expose-headers"@
    } else if index == 80 {
        "access-control-request-headers"@
    } else if 81 <= index <= 82 {
        "access-control-request-method"@
    } else if index == 83 {
        "alt-svc"@
    } else if index == 84 {
        "authorization"@
    } else if index == 85 {
        "content-security-policy"@
    } else if index == 86 {
        "early-data"@
    } else if index == 87 {
        "expect-ct"@
    } else if index == 88 {
        "forwarded"@
    } else if index == 89 {
        "if-range"@
    } else if index == 90 {
        "origin"@
    } else if index == 91 {
        "purpose"@
    } else if index == 92 {
        "server"@
    } else if index == 93 {
        "timing-allow-origin"@
    } else if index == 94 {
        "upgrade-insecure-requests"@
    } else if index == 95 {
        "user-agent"@
    } else if index == 96 {
        "x-forwarded-for"@
    } else {
        "x-frame-options"@
    }
}

/// The value at an index, where it has one.
pub open spec fn value_at(index: int) -> Seq<char> {
    if index == 1 {
        "/"@
    } else if index == 2 || index == 4 {
        "0"@
    } else if index == 15 {
        "CONNECT"@
    } else if index == 16 {
        "DELETE"@
    } else if index == 17 {
        "GET"@
    } else if index == 18 {
        "HEAD"@
    } else if index == 19 {
        "OPTIONS"@
    } else if index == 20 {
        "POST"@
    } else if index == 21 {
        "PUT"@
    } else if index == 22 {
        "http"@
    } else if index == 23 {
        "https"@
    } else if index == 24 {
        "103"@
    } else if index == 25 {
        "200"@
    } else if index == 26 {
        "304"@
    } else if index == 27 {
        "404"@
    } else if index == 28 {
        "503"@
    } else if index == 29 {
        "*/*"@
    } else if index == 30 || index == 44 {
        "application/dns-message"@
    } else if index == 31 {
        "gzip, deflate, br"@
    } else if index == 32 {
        "bytes"@
    } else if index == 33 {
        "cache-control"@
    } else if index == 34 || index == 80 {
        "content-type"@
    } else if index == 35 || index == 75 || index == 93 {
        "*"@
    } else if index == 36 {
        "max-age=0"@
    } else if index == 37 {
        "max-age=2592000"@
    } else if index == 38 {
        "max-age=604800"@
    } else if index == 39 {
        "no-cache"@
    } else if index == 40 {
        "no-store"@
    } else if index == 41 {
        "public, max-age=31536000"@
    } else if index == 42 {
        "br"@
    } else if index == 43 {
        "gzip"@
    } else if index == 45 {
        "application/javascript"@
    } else if index == 46 {
        "application/json"@
    } else if index == 47 {
        "application/x-www-form-urlencoded"@
    } else if index == 48 {
        "image/gif"@
    } else if index == 49 {
        "image/jpeg"@
    } else if index == 50 {
        "image/png"@
    } else if index == 51 {
        "text/css"@
    } else if index == 52 {
        "text/html; charset=utf-8"@
    } else if index == 53 {
        "text/plain"@
    } else if index == 54 {
        "text/plain;charset=utf-8"@
    } else if index == 55 {
        "bytes=0-"@
    } else if index == 56 {
        "max-age=31536000"@
    } else if index == 57 {
        "max-age=31536000; includesubdomains"@
    } else if index == 58 {
        "max-age=31536000; includesubdomains; preload"@
    } else if index == 59 {
        "accept-encoding"@
    } else if index == 60 {
        "origin"@
    } else if index == 61 {
        "nosniff"@
    } else if index == 62 {
        "1; mode=block"@
    } else if index == 63 {
        "100"@
    } else if index == 64 {
        "204"@
    } else if index == 65 {
        "206"@
    } else if index == 66 {
        "302"@
    } else if index == 67 {
        "400"@
    } else if index == 68 {
        "403"@
    } else if index == 69 {
        "421"@
    } else if index == 70 {
        "425"@
    } else if index == 71 {
        "500"@
    } else if index == 73 {
        "FALSE"@
    } else if index == 74 {
        "TRUE"@
    } else if index == 76 || index == 81 {
        "get"@
    } else if index == 77 {
        "get, post, options"@
    } else if index == 78 {
        "options"@
    } else if index == 79 {
        "content-length"@
    } else if index == 82 {
        "post"@
    } else if index == 83 {
        "clear"@
    } else if index == 85 {
        "script-src 'none'; object-src 'none'; base-uri 'none'"@
    } else if index == 86 || index == 94 {
        "1"@
    } else if index == 91 {
        "prefetch"@
    } else if index == 97 {
        "deny"@
    } else if index == 98 {
        "sameorigin"@
    } else {
        ""@
    }
}

spec fn entries_match(from: nat, count: nat) -> bool
    decreases count,
{
    count == 0 || (STATIC_TABLE@[from + count - 1].0@ == name_at(from + count - 1)
        && STATIC_TABLE@[from + count - 1].1@ == value_at(from + count - 1) && entries_match(
        from,
        (count - 1) as nat,
    ))
}

proof fn lemma_entry_matches(from: nat, count: nat, index: int)
    requires
        entries_match(from, count),
        from <= index < from + count,
    ensures
        STATIC_TABLE@[index].0@ == name_at(index),
        STATIC_TABLE@[index].1@ == value_at(index),
    decreases count,
{
    if index < from + count - 1 {
        lemma_entry_matches(from, (count - 1) as nat, index);
    }
}

proof fn lemma_first_entries()
    ensures
        entries_match(0, 50),
{
    reveal_with_fuel(entries_match, 51);
}

proof fn lemma_last_entries()
    ensures
        entries_match(50, 49),
{
    reveal_with_fuel(entries_match, 50);
}

/// Every index of the static table has its name and its value.
pub proof fn every_index_has_its_field(index: int)
    requires
        0 <= index < 99,
    ensures
        STATIC_TABLE@[index].0@ == name_at(index),
        STATIC_TABLE@[index].1@ == value_at(index),
{
    lemma_first_entries();
    lemma_last_entries();
    if index < 50 {
        lemma_entry_matches(0, 50, index);
    } else {
        lemma_entry_matches(50, 49, index);
    }
}

} // verus!
