use base64::Engine;
use xxtab::net::{self, IpAddr, Ipv4Addr, SocketAddr};
use xxtab::numbers;
use xxtab::text::chars_of;
use xxtab::wgconfig::{
    prepare, split_default_routes, understand, Preparation, Prepared, WgErrorKind,
};

fn key(byte: u8) -> String {
    base64::engine::general_purpose::STANDARD.encode([byte; 32])
}

fn sample() -> String {
    format!(
        "[Interface]\nPrivateKey = {}\nAddress = 10.0.0.2/32\nListenPort = 51822\n[Peer]\nPublicKey = {}\nAllowedIPs = 0.0.0.0/0, ::/0\nEndpoint = old:1\n",
        key(1),
        key(2)
    )
}

fn socket(s: &str) -> SocketAddr {
    net::parse_socket(&chars_of(s)).unwrap()
}

fn ready(input: &str) -> Prepared {
    match prepare(input, socket("127.0.0.1:51821"), 1280, None).unwrap() {
        Preparation::Ready(p) => p,
        Preparation::NeedPort => panic!(),
    }
}

fn refused(input: &str) -> (WgErrorKind, String) {
    let e = prepare(input, socket("127.0.0.1:51821"), 1280, None).unwrap_err();
    (e.kind, e.message())
}

#[test]
fn rewrites_endpoint_and_default_routes() {
    let p = ready(&sample());
    assert!(p.text.contains("AllowedIPs = 0.0.0.0/1, 128.0.0.0/1, ::/1, 8000::/1"));
    assert!(p.text.contains("Endpoint = 127.0.0.1:51821"));
    assert!(!p.text.contains("old:1"));
    assert_eq!(p.source.port, 51822);
}

#[test]
fn rejects_hooks_and_extra_peers() {
    let e = socket("127.0.0.1:51821");
    assert!(prepare(&sample().replace("Address =", "PostUp = bad\nAddress ="), e, 1280, None).is_err());
    assert!(prepare(&(sample() + "[Peer]\n"), e, 1280, None).is_err());
    assert!(prepare(&sample().replace("51822", "51821"), e, 1280, None).is_err());
}

#[test]
fn prepared_text_is_whole() {
    let p = ready(&sample());
    assert_eq!(
        p.text,
        format!(
            "[Interface]\nPrivateKey = {}\nAddress = 10.0.0.2/32\nListenPort = 51822\nMTU = 1280\n\n[Peer]\nPublicKey = {}\nAllowedIPs = 0.0.0.0/1, 128.0.0.0/1, ::/1, 8000::/1\nEndpoint = 127.0.0.1:51821\nPersistentKeepalive = 25\n",
            key(1),
            key(2)
        )
    );
    assert!(p.source.same_as(&socket("127.0.0.1:51822")));
}

#[test]
fn preparing_twice_gives_the_same_settings() {
    let first = ready(&sample());
    let second = ready(&first.text);
    assert_eq!(first.text, second.text);
}

#[test]
fn preparing_again_keeps_every_kind_of_line() {
    let odd = format!(
        "[Interface]\nDNS=1.1.1.1 ,2606::1 # names\nPrivateKey={}\nAddress = 10.0.0.2/24,fd00::2/64\nListenPort=+7\n[Peer]\nPresharedKey={}\nPublicKey={}\nAllowedIPs=::ffff:1.2.3.4/120,10.1.2.3/8 , ::/0\n",
        key(1),
        key(2),
        key(3)
    );
    let e = socket("[fe80::1%3]:51821");
    let Ok(Preparation::Ready(first)) = prepare(&odd, e, 1280, None) else { panic!() };
    let Ok(Preparation::Ready(second)) = prepare(&first.text, e, 1280, None) else { panic!() };
    assert_eq!(first.text, second.text);
    assert!(first.source.same_as(&second.source));
    for line in [
        "ListenPort = 7",
        "MTU = 1280",
        "Endpoint = [fe80::1%3]:51821",
        "PersistentKeepalive = 25",
    ] {
        assert_eq!(first.text.lines().filter(|l| *l == line).count(), 1, "{}", first.text);
    }
    assert!(first.text.contains("\nAllowedIPs = ::ffff:1.2.3.0/120, 10.0.0.0/8, ::/1, 8000::/1\n"));
}

#[test]
fn replaced_lines_do_not_matter() {
    let first = ready(&sample());
    for (from, to) in [
        ("Endpoint = old:1\n", ""),
        ("Endpoint = old:1", "Endpoint=[::1]:9 # other"),
        ("[Peer]\n", "MTU = x\n[Peer]\nPersistentKeepalive = never\n"),
    ] {
        let other = ready(&sample().replace(from, to));
        assert_eq!(first.text, other.text);
        assert!(first.source.same_as(&other.source));
    }
}

#[test]
fn a_port_is_asked_for_where_none_is_given() {
    let input = sample().replace("ListenPort = 51822\n", "");
    let e = socket("127.0.0.1:51821");
    assert!(matches!(prepare(&input, e, 1280, None), Ok(Preparation::NeedPort)));
    let zero = sample().replace("51822", "0");
    assert!(matches!(prepare(&zero, e, 1280, None), Ok(Preparation::NeedPort)));
    let Ok(Preparation::Ready(p)) = prepare(&input, e, 1420, Some(4000)) else { panic!() };
    assert_eq!(p.source.port, 4000);
    assert!(p.text.contains("ListenPort = 4000\n"));
    assert!(p.text.contains("MTU = 1420\n"));
    assert!(matches!(prepare(&input, e, 1280, Some(51821)), Ok(Preparation::NeedPort)));
}

#[test]
fn every_fault_is_told() {
    assert_eq!(refused(&sample().replace("[Interface]", "[Other]")).0, WgErrorKind::Sections);
    assert_eq!(refused("[Peer]").0, WgErrorKind::Sections);
    assert_eq!(refused("PrivateKey = x").0, WgErrorKind::Unsupported);
    assert_eq!(refused("[Interface]\nnonsense").0, WgErrorKind::Setting);
    assert_eq!(
        refused(&sample().replace("ListenPort = 51822", "ListenPort =")).0,
        WgErrorKind::EmptyOrRepeated
    );
    assert_eq!(
        refused(&sample().replace("ListenPort = 51822", "ListenPort = 1\nListenPort = 2")).0,
        WgErrorKind::EmptyOrRepeated
    );
    assert_eq!(refused(&sample().replace(&key(1), "AAAA")).0, WgErrorKind::Key);
    assert_eq!(refused(&sample().replace("10.0.0.2/32", "10.0.0.2/33")).0, WgErrorKind::Network);
    assert_eq!(
        refused(&sample().replace("51822", "70000")).0,
        WgErrorKind::ListenPort(numbers::NumberFault::TooLarge)
    );
    assert_eq!(
        refused(&sample().replace("ListenPort = 51822", "DNS = a b")).0,
        WgErrorKind::Dns
    );
    let words = |from: &str, to: &str| refused(&sample().replace(from, to)).1;
    assert_eq!(
        words("10.0.0.2/32", "10.0.0.2/33"),
        "invalid network in Address: invalid IP address syntax"
    );
    assert_eq!(
        words("= 51822", "= x"),
        "invalid ListenPort: invalid digit found in string"
    );
    assert_eq!(
        words("ListenPort = 51822", "DNS = a"),
        "DNS must contain IP addresses: invalid IP address syntax"
    );
    let (kind, words) = refused(&sample().replace("ListenPort", "PostUp"));
    assert_eq!(kind, WgErrorKind::Unsupported);
    assert!(words.contains("PostUp"), "{words}");
    let interface: String = sample().split("[Peer]").next().unwrap().to_string();
    assert_eq!(refused(&interface).0, WgErrorKind::NoPeer);
    assert_eq!(refused(&sample().replace("Address = 10.0.0.2/32\n", "")).0, WgErrorKind::Missing);
    assert_eq!(refused(&sample().replace("51822", "51821")).0, WgErrorKind::SamePort);
}

#[test]
fn errors_do_not_hold_values() {
    let (_, words) = refused(&sample().replace(&key(1), "c2VjcmV0"));
    assert!(!words.contains("c2VjcmV0"));
}

#[test]
fn comments_and_spaces_are_ignored() {
    let input = sample().replace("PrivateKey =", "# a comment\n\n  PrivateKey=").replace("/32\n", "/32 # mine\n");
    let p = ready(&input);
    assert_eq!(p.text, ready(&sample()).text);
    assert_eq!(refused(&sample().replace("PrivateKey", "privatekey")).0, WgErrorKind::Unsupported);
    let p = ready(&sample().replace('\n', "\r\n"));
    assert!(p.text.contains(&format!("PrivateKey = {}\n", key(1))));
    let s = understand(&sample()).unwrap();
    assert_eq!(s.port, 51822);
}

#[test]
fn networks_are_truncated_and_default_routes_split() {
    let p = ready(&sample().replace("0.0.0.0/0, ::/0", "10.1.2.3/8"));
    assert!(p.text.contains("AllowedIPs = 10.0.0.0/8\n"), "{}", p.text);
    let split = split_default_routes(&vec!["0.0.0.0/0".to_string(), "10.0.0.0/8".to_string()]);
    assert_eq!(split, ["0.0.0.0/1", "128.0.0.0/1", "10.0.0.0/8"]);
    let split = split_default_routes(&vec!["::/0".to_string()]);
    assert_eq!(split, ["::/1", "8000::/1"]);
}

#[test]
fn addresses_read_as_std_reads_them() {
    for s in [
        "127.0.0.1:51821",
        "0.0.0.0:0",
        "255.255.255.255:65535",
        "1.2.3.4:65536",
        "1.2.3.4",
        "1.2.3:4",
        "01.2.3.4:5",
        "256.2.3.4:5",
        "[::1]:80",
        "[::]:0",
        "[2001:db8::1]:443",
        "[1:2:3:4:5:6:7:8]:9",
        "[::ffff:192.0.2.1]:9",
        "[fe80::1%3]:9",
        "[1:2:3:4:5:6:7:8:9]:9",
        "[::1::]:9",
        "[12345::]:9",
        "::1:80",
        "",
    ] {
        let expected = s.parse::<core::net::SocketAddr>().ok();
        let got = net::parse_socket(&chars_of(s));
        assert_eq!(expected.is_some(), got.is_some(), "{s}");
        if let (Some(e), Some(g)) = (expected, got) {
            assert_eq!(e.to_string(), net::socket_to_text(&g));
            assert_eq!(e.port(), g.port);
        }
    }
}

#[test]
fn ipv4_addresses_round_trip() {
    for s in ["0.0.0.0", "127.0.0.1", "192.0.2.255", "10.20.30.40"] {
        let ip = net::parse_ipv4(&chars_of(s)).unwrap();
        assert_eq!(net::ipv4_string(ip), s);
    }
    assert!(net::parse_ipv4(&chars_of("1.2.3.4.5")).is_none());
    assert!(Ipv4Addr::localhost().is_loopback());
    assert!(Ipv4Addr::new(127, 9, 9, 9).is_loopback());
    assert!(!Ipv4Addr::new(128, 0, 0, 1).is_loopback());
    let a = SocketAddr::v4(Ipv4Addr::localhost(), 1);
    assert!(a.has_ip(Ipv4Addr::localhost()) && !a.has_ip(Ipv4Addr::new(1, 1, 1, 1)));
    assert!(matches!(a.ip, IpAddr::V4(_)));
}

#[test]
fn ipv6_addresses_read_as_std_reads_them() {
    for s in ["::", "::1", "1::", "1::8", "1:2:3:4:5:6:7:8", "::1.2.3.4", "1:2:3:4:5:6:7::", "g::", ":", "1:2", ""] {
        let expected = s.parse::<core::net::Ipv6Addr>().ok();
        let got = net::parse_ipv6(&chars_of(s));
        assert_eq!(expected.map(|e| e.segments()), got.map(|g| g.groups), "{s}");
        if let Some(g) = got {
            let mut out = String::new();
            net::push_ipv6(&mut out, &g);
            assert_eq!(out, expected.unwrap().to_string());
        }
        assert_eq!(net::is_ip(&chars_of(s)), s.parse::<core::net::IpAddr>().is_ok());
    }
}

#[test]
fn numbers_read_and_print_as_std_does() {
    let mut out = String::new();
    for n in [0u64, 9, 10, 255, u64::MAX] {
        out.clear();
        numbers::push_decimal(&mut out, n);
        assert_eq!(out, n.to_string());
    }
    for n in [0u128, 9, 10, 255, u128::MAX] {
        assert_eq!(numbers::hexadecimal_text(n), format!("{n:x}"));
    }
    for s in ["", "+", "-", "-1", "0", "+7", "007", "18446744073709551615", "18446744073709551616", "1844674407370955161x", "99999999999999999999x", "1 "] {
        let got = numbers::read_number(&chars_of(s), u64::MAX);
        match s.parse::<u64>() {
            Ok(n) => assert_eq!(got, Ok(n)),
            Err(e) => assert_eq!(got.unwrap_err().message(), e.to_string()),
        }
    }
    assert_eq!(numbers::read_number(&chars_of("+12"), 12), Ok(12));
    assert_eq!(numbers::read_number(&chars_of("13"), 12), Err(numbers::NumberFault::TooLarge));
    assert_eq!(numbers::read_number(&chars_of("99x"), 12), Err(numbers::NumberFault::TooLarge));
    assert_eq!(numbers::read_number(&chars_of("-1"), 12), Err(numbers::NumberFault::Digit));
    assert_eq!(numbers::hex_bytes_text(&[0, 15, 255]), "000fff");
}
