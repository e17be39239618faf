use volto::config::Security;
use volto::ip::{IpAddr, SocketAddr};
use volto::policy::{canonical, embedded_ipv4, is_dns_blackhole, Policy};

/// Reads an address literal.
fn ip(text: &str) -> IpAddr {
    if text.contains(':') {
        IpAddr::V6(v6(text))
    } else {
        IpAddr::V4(v4(text))
    }
}

fn v4(text: &str) -> [u8; 4] {
    let octets: Vec<u8> = text
        .split('.')
        .map(|octet| octet.parse().expect("an octet"))
        .collect();
    octets.try_into().expect("four octets")
}

fn v6(text: &str) -> [u8; 16] {
    let octets = |half: &str| -> Vec<u8> {
        if half.is_empty() {
            return Vec::new();
        }
        half.split(':')
            .flat_map(|part| {
                if part.contains('.') {
                    v4(part).to_vec()
                } else {
                    u16::from_str_radix(part, 16)
                        .expect("a segment")
                        .to_be_bytes()
                        .to_vec()
                }
            })
            .collect()
    };
    let bytes = match text.split_once("::") {
        Some((left, right)) => {
            let (head, tail) = (octets(left), octets(right));
            let gap = vec![0; 16 - head.len() - tail.len()];
            [head, gap, tail].concat()
        }
        None => octets(text),
    };
    bytes.try_into().expect("sixteen octets")
}

/// Reads an address and a port.
fn socket(text: &str) -> SocketAddr {
    let (host, port) = text.rsplit_once(':').expect("a port");
    SocketAddr {
        ip: ip(host.trim_start_matches('[').trim_end_matches(']')),
        port: port.parse().expect("a port number"),
        flowinfo: 0,
        scope_id: 0,
    }
}

fn policy(allow_private: bool, denied_ports: &[u16]) -> Policy {
    Policy::new(&Security {
        allow_private_networks: allow_private,
        denied_ports: denied_ports.to_vec(),
    })
}

/// Every range the spec names, in both address families.
const PRIVATE: &[&str] = &[
    // IPv4
    "127.0.0.1",
    "127.255.255.254",
    "10.0.0.1",
    "10.255.255.255",
    "172.16.0.1",
    "172.31.255.255",
    "192.168.0.1",
    "192.168.255.255",
    "169.254.169.254", // the cloud metadata address, the classic prize
    // RFC 6598 shared address space: the inside of a carrier-grade NAT.
    "100.64.0.0",
    "100.127.255.255",
    // RFC 6890 IETF protocol assignments, including the DS-Lite link.
    "192.0.0.0",
    "192.0.0.255",
    // RFC 2544 benchmarking, which some networks number infrastructure with.
    "198.18.0.0",
    "198.19.255.255",
    // RFC 5737 documentation.
    "192.0.2.1",
    "198.51.100.1",
    "203.0.113.1",
    // RFC 1112 §4 reserved space, routed inside some large networks.
    "240.0.0.0",
    "255.255.255.254",
    // IPv6
    "::1",
    "fc00::1",
    "fdff::1",
    "fe80::1",
    "febf::1",
    // RFC 3849 documentation and the RFC 6666 discard prefix.
    "2001:db8::1",
    "100::1",
    "100:0:0:0:ffff::",
];

const PUBLIC: &[&str] = &[
    "1.1.1.1",
    "8.8.8.8",
    "93.184.216.34",
    "172.32.0.1",  // just outside 172.16/12
    "172.15.0.1",  // just below it
    "169.253.0.1", // just outside 169.254/16
    "11.0.0.1",
    "192.169.0.1",
    // The neighbours of every range added for RFC 6890, on both sides.
    "100.63.255.255", // just below 100.64/10
    "100.128.0.0",    // just above it
    "192.0.1.1",      // just above 192.0.0/24, and not 192.0.2/24
    "198.17.255.255", // just below 198.18/15
    "198.20.0.0",     // just above it
    "192.0.3.1",      // just above 192.0.2/24
    "198.51.101.1",   // just above 198.51.100/24
    "203.0.114.1",    // just above 203.0.113/24
    // 224/4 through 239/8 is multicast and sits in NEVER, so the last public
    // address below the reserved block is the one at the top of 223/8.
    "223.255.255.255",
    "2001:4860:4860::8888",
    "2606:4700::1111",
    "fbff::1",      // just below fc00::/7
    "fec0::1",      // just above fe80::/10
    "2001:db9::1",  // just above 2001:db8::/32
    "100:0:0:1::1", // just outside 100::/64
];

const NEVER: &[&str] = &[
    "0.0.0.0",
    "255.255.255.255",
    "224.0.0.1",
    "239.255.255.255",
    "::",
    "ff02::1",
    "ff05::1:3",
];

#[test]
fn private_ranges_are_denied_by_default() {
    let policy = policy(false, &[]);
    for address in PRIVATE {
        assert!(
            !policy.allows_address(ip(address)),
            "{address} must be denied by default"
        );
    }
}

#[test]
fn public_addresses_are_allowed() {
    for allow_private in [false, true] {
        let policy = policy(allow_private, &[]);
        for address in PUBLIC {
            assert!(
                policy.allows_address(ip(address)),
                "{address} must be allowed (allow_private={allow_private})"
            );
        }
    }
}

#[test]
fn private_ranges_can_be_opened_up() {
    let policy = policy(true, &[]);
    for address in PRIVATE {
        assert!(
            policy.allows_address(ip(address)),
            "{address} must be allowed once private networks are"
        );
    }
}

/// Multicast, broadcast and the unspecified address are amplification
/// primitives, not destinations: no switch opens them.
#[test]
fn unroutable_and_multicast_addresses_are_never_allowed() {
    for allow_private in [false, true] {
        let policy = policy(allow_private, &[]);
        for address in NEVER {
            assert!(
                !policy.allows_address(ip(address)),
                "{address} must never be allowed (allow_private={allow_private})"
            );
        }
    }
}

/// The classic bypass: an IPv4 address in IPv6 clothing.
#[test]
fn ipv4_mapped_addresses_are_matched_as_ipv4() {
    let strict = policy(false, &[]);

    for address in [
        "::ffff:127.0.0.1",
        "::ffff:10.0.0.1",
        "::ffff:192.168.1.1",
        "::ffff:169.254.169.254",
        // The same addresses written the way a resolver hands them over.
        "::ffff:7f00:1",
        "::ffff:a00:1",
    ] {
        assert!(
            !strict.allows_address(ip(address)),
            "{address} is loopback/private in disguise and must be denied"
        );
    }

    // A mapped *public* address is still allowed: normalization must not turn
    // into a blanket ban on the mapped form.
    assert!(strict.allows_address(ip("::ffff:8.8.8.8")));

    // And the mapped form follows the switch exactly like the bare form.
    let permissive = policy(true, &[]);
    assert!(permissive.allows_address(ip("::ffff:127.0.0.1")));
}

/// Every added range at both of its edges, so a mask typo cannot pass.
///
/// The `PRIVATE`/`PUBLIC` lists above already carry these; this states the
/// adjacency directly, because "first address in, neighbour out" is the
/// property a wrong mask breaks and a list of literals does not say out loud.
#[test]
fn the_special_purpose_ranges_stop_where_they_should() {
    let strict = policy(false, &[]);

    for (last_public, first_private, last_private, first_public) in [
        (
            "100.63.255.255",
            "100.64.0.0",
            "100.127.255.255",
            "100.128.0.0",
        ),
        ("191.255.255.255", "192.0.0.0", "192.0.0.255", "192.0.1.0"),
        (
            "198.17.255.255",
            "198.18.0.0",
            "198.19.255.255",
            "198.20.0.0",
        ),
        ("192.0.1.255", "192.0.2.0", "192.0.2.255", "192.0.3.0"),
        (
            "198.51.99.255",
            "198.51.100.0",
            "198.51.100.255",
            "198.51.101.0",
        ),
        (
            "203.0.112.255",
            "203.0.113.0",
            "203.0.113.255",
            "203.0.114.0",
        ),
        // 240/4 runs to the broadcast address, which `is_never_allowed`
        // claims first — so there is no "first public" above it. The address
        // just below the range is multicast for the same reason, hence
        // 223.255.255.255 as the public neighbour.
        (
            "223.255.255.255",
            "240.0.0.0",
            "255.255.255.254",
            "223.255.255.255",
        ),
    ] {
        for public in [last_public, first_public] {
            assert!(
                strict.allows_address(ip(public)),
                "{public} is outside the range and must stay reachable"
            );
        }
        for private in [first_private, last_private] {
            assert!(
                !strict.allows_address(ip(private)),
                "{private} is inside the range and must be denied"
            );
        }
    }

    // The broadcast address is inside 240/4 but `is_never_allowed` wins, so
    // opening private space does not open it.
    assert!(!policy(true, &[]).allows_address(ip("255.255.255.255")));
    assert!(policy(true, &[]).allows_address(ip("240.0.0.1")));
}

/// NAT64, 6to4 and Teredo addresses are routes to an IPv4 address, so they
/// are judged as that address and not as the global-looking IPv6 they are
/// written as.
#[test]
fn transition_addresses_are_judged_by_the_ipv4_they_carry() {
    let strict = policy(false, &[]);
    let permissive = policy(true, &[]);

    // Embedding something private: denied by default, reachable once private
    // space is opened, exactly like the bare IPv4 address would be.
    for address in [
        "64:ff9b::7f00:1",          // NAT64 well-known prefix, 127.0.0.1
        "64:ff9b::a00:1",           // 10.0.0.1
        "64:ff9b::a9fe:a9fe",       // 169.254.169.254, the metadata address
        "64:ff9b:1:a9fe:a9:fe00::", // the /48 prefix, same address
        "2002:a00:1::",             // 6to4, 10.0.0.1
        "2002:7f00:1::",            // 6to4, 127.0.0.1
        "2001:0:0:0:0:0:f5ff:fffe", // Teredo, 10.0.0.1 inverted
    ] {
        assert!(
            !strict.allows_address(ip(address)),
            "{address} carries a private IPv4 address and must be denied"
        );
        assert!(
            permissive.allows_address(ip(address)),
            "{address} must follow the switch like the address it carries"
        );
    }

    // Embedding something public stays public: unwrapping must not become a
    // blanket ban on the transition forms.
    for address in [
        "64:ff9b::808:808",         // NAT64, 8.8.8.8
        "64:ff9b:1:808:8:800::",    // the /48 prefix, 8.8.8.8
        "2002:808:808::",           // 6to4, 8.8.8.8
        "2001:0:0:0:0:0:f7f7:f7f7", // Teredo, 8.8.8.8 inverted
    ] {
        assert!(
            strict.allows_address(ip(address)),
            "{address} carries a public IPv4 address and must be reachable"
        );
    }

    // And an embedded address that is never allowed stays never allowed, so
    // the switch cannot open it.
    for address in ["64:ff9b::", "2002::", "64:ff9b::e000:1"] {
        for policy in [&strict, &permissive] {
            assert!(
                !policy.allows_address(ip(address)),
                "{address} carries an address that is never a destination"
            );
        }
    }
}

/// The extraction itself, address by address.
///
/// The bucket assertions above would pass on a near-miss — 169.254.0.169 is
/// as link-local as 169.254.169.254 — so the exact value is asserted here.
/// The RFC 6052 §2.2 /48 layout is the one worth stating: the IPv4 address is
/// split around the reserved octet at bits 64-71 rather than sitting in one
/// piece.
#[test]
fn the_embedded_ipv4_is_extracted_exactly() {
    for (address, expected) in [
        // RFC 6052 §2.1: the well-known prefix, address in the last 32 bits.
        ("64:ff9b::7f00:1", "127.0.0.1"),
        ("64:ff9b::808:808", "8.8.8.8"),
        ("64:ff9b::", "0.0.0.0"),
        // RFC 8215's /48 prefix, RFC 6052 §2.2's split layout.
        ("64:ff9b:1:a9fe:a9:fe00::", "169.254.169.254"),
        ("64:ff9b:1:808:8:800::", "8.8.8.8"),
        // 6to4: bits 16-47.
        ("2002:a00:1::", "10.0.0.1"),
        ("2002:808:808::1", "8.8.8.8"),
        // Teredo: the last 32 bits, every bit inverted.
        ("2001:0:0:0:0:0:f5ff:fffe", "10.0.0.1"),
        ("2001:0:808:808:0:0:f7f7:f7f7", "8.8.8.8"),
    ] {
        assert_eq!(
            embedded_ipv4(ip(address)).map(IpAddr::V4),
            Some(ip(expected)),
            "{address} carries {expected}"
        );
    }

    // Everything else carries nothing, including the ranges that merely look
    // adjacent and the deprecated `::/96` form that must stay whole.
    for address in [
        "2001:db8::1",  // documentation, not Teredo
        "2003::1",      // not 6to4
        "64:ff9c::1",   // not the NAT64 prefix
        "64:ff9b:2::1", // not the /48 NAT64 prefix either
        "::1",
        "::127.0.0.1",
        "2606:4700::1111",
        "8.8.8.8",
    ] {
        assert_eq!(embedded_ipv4(ip(address)), None, "{address}");
    }
}

/// A Teredo address's *client* IPv4 is the inverted last 32 bits, and the
/// bits in between are a server address this proxy never dials — so the
/// verdict must come from the right half of the address.
#[test]
fn a_teredo_address_is_read_from_its_client_field() {
    // 2001:0:<server>:<flags+port>:<client>. The server field here is a
    // public address and the client field a private one; the verdict follows
    // the client field.
    let strict = policy(false, &[]);
    assert!(!strict.allows_address(ip("2001:0:808:808:0:0:f5ff:fffe")));

    // The mirror image: private-looking server field, public client field.
    assert!(strict.allows_address(ip("2001:0:a00:1:0:0:f7f7:f7f7")));
}

/// The deprecated sibling of the mapped form, `::a.b.c.d`.
#[test]
fn ipv4_compatible_addresses_are_denied_by_default() {
    let policy = policy(false, &[]);
    for address in ["::127.0.0.1", "::10.0.0.1", "::8.8.8.8", "::0.0.0.1"] {
        assert!(
            !policy.allows_address(ip(address)),
            "{address} is deprecated IPv4-compatible space and must be denied"
        );
    }
}

#[test]
fn canonicalization_unwraps_only_the_mapped_form() {
    assert_eq!(canonical(ip("::ffff:127.0.0.1")), ip("127.0.0.1"));
    assert_eq!(canonical(ip("127.0.0.1")), ip("127.0.0.1"));
    assert_eq!(canonical(ip("2001:db8::1")), ip("2001:db8::1"));
    // `::1` must keep its loopback meaning rather than becoming 0.0.0.1.
    assert_eq!(canonical(ip("::1")), ip("::1"));
}

#[test]
fn denied_ports_are_refused() {
    let policy = policy(false, &[25]);
    assert!(!policy.allows_port(25));
    assert!(policy.allows_port(443));
    assert!(policy.allows_port(80));
}

/// Surge's UDP availability test is a DNS query through the tunnel, so 53 has
/// to work with a stock configuration.
#[test]
fn port_53_is_allowed_with_the_default_deny_list() {
    let policy = Policy::new(&Security::default());
    assert!(
        policy.allows_port(53),
        "Surge tests UDP by resolving a name"
    );
    assert!(!policy.allows_port(25));
}

/// A name that resolves to a mix keeps only what may be dialled — the reason
/// resolution is explicit rather than left to `TcpStream::connect`.
#[test]
fn filtering_keeps_the_dialable_addresses() {
    let policy = policy(false, &[]);
    let addresses: Vec<SocketAddr> = [
        "127.0.0.1:443",
        "8.8.8.8:443",
        "[::1]:443",
        "[2606:4700::1111]:443",
        "[::ffff:10.0.0.1]:443",
    ]
    .iter()
    .map(|a| socket(a))
    .collect();

    let allowed = policy.allowed_addresses(&addresses);
    assert_eq!(
        allowed,
        vec![
            socket("8.8.8.8:443"),
            socket("[2606:4700::1111]:443")
        ]
    );
}

fn addresses(literals: &[&str]) -> Vec<SocketAddr> {
    literals
        .iter()
        .map(|a| socket(a))
        .collect()
}

/// The answer a filtering resolver gives, in every spelling it gives it in.
#[test]
fn an_all_unspecified_answer_is_a_blackhole() {
    for literals in [
        &["0.0.0.0:443"][..],
        &["0.0.0.0:53", "0.0.0.0:53"][..],
        &["[::]:443"][..],
        // IPv4-mapped: unspecified once canonicalized, like everywhere else.
        &["[::ffff:0.0.0.0]:443"][..],
        &["0.0.0.0:443", "[::]:443", "[::ffff:0.0.0.0]:443"][..],
    ] {
        assert!(
            is_dns_blackhole(&addresses(literals)),
            "{literals:?} is a filtered answer and must be recognised as one"
        );
    }
}

/// The half of the rule that keeps SSRF probes loud: anything that is not
/// *only* the unspecified address stays an ordinary policy refusal.
#[test]
fn private_and_mixed_answers_are_not_blackholes() {
    for literals in [
        // A private address alongside the blackhole is still a private
        // address, and reaching for it is the thing worth warning about.
        &["0.0.0.0:443", "10.0.0.1:443"][..],
        &["[::]:443", "[::1]:443"][..],
        // Pure loopback / RFC 1918 / link-local: refused, never quietly.
        &["127.0.0.1:443"][..],
        &["10.0.0.1:443", "192.168.1.1:443"][..],
        &["169.254.169.254:80"][..],
        &["[::1]:443"][..],
        // Broadcast and multicast are refused for their own reasons.
        &["255.255.255.255:443"][..],
        &["224.0.0.1:443"][..],
        // A public address is not a blackhole either, mixed in or alone.
        &["0.0.0.0:443", "8.8.8.8:443"][..],
    ] {
        assert!(
            !is_dns_blackhole(&addresses(literals)),
            "{literals:?} must stay an ordinary policy refusal"
        );
    }
}

/// Unreachable on the calling paths, but "nothing resolved" is not evidence
/// of filtering, so it takes the loud branch.
#[test]
fn no_addresses_is_not_a_blackhole() {
    assert!(!is_dns_blackhole(&[]));
}

#[test]
fn filtering_everything_out_yields_an_empty_list() {
    let policy = policy(false, &[]);
    let addresses: Vec<SocketAddr> = ["127.0.0.1:443", "[::ffff:127.0.0.1]:443"]
        .iter()
        .map(|a| socket(a))
        .collect();

    assert!(policy.allowed_addresses(&addresses).is_empty());
}

/// An IPv4 address is judged the same in each of its disguises.
#[test]
fn an_address_is_judged_the_same_in_every_disguise() {
    for (bare, disguises) in [
        (
            "10.1.2.3",
            [
                "::ffff:10.1.2.3",
                "64:ff9b::10.1.2.3",
                "64:ff9b:1:a01:2:300::",
                "2002:a01:203::1",
                "2001:0:808:808:0:0:f5fe:fdfc",
            ],
        ),
        (
            "8.8.4.4",
            [
                "::ffff:8.8.4.4",
                "64:ff9b::8.8.4.4",
                "64:ff9b:1:808:4:400::",
                "2002:808:404::1",
                "2001:0:a00:1:0:0:f7f7:fbfb",
            ],
        ),
        (
            "224.0.0.9",
            [
                "::ffff:224.0.0.9",
                "64:ff9b::224.0.0.9",
                "64:ff9b:1:e000:0:900::",
                "2002:e000:9::1",
                "2001:0:808:808:0:0:1fff:fff6",
            ],
        ),
    ] {
        for allow_private in [false, true] {
            let policy = policy(allow_private, &[]);
            for disguise in disguises {
                assert_eq!(
                    policy.allows_address(ip(disguise)),
                    policy.allows_address(ip(bare)),
                    "{disguise} is {bare}"
                );
            }
        }
    }
}

/// What a filtering resolver answers is refused, whatever is opened.
#[test]
fn a_blackhole_is_never_dialled() {
    for allow_private in [false, true] {
        let policy = policy(allow_private, &[]);
        let answer = addresses(&["0.0.0.0:443", "[::]:443", "[::ffff:0.0.0.0]:443"]);
        assert!(is_dns_blackhole(&answer));
        assert!(policy.allowed_addresses(&answer).is_empty());
    }
}
