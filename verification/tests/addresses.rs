use docker_proxy::addresses::{
    any_contains, choose_client, compute_client_ip, parse_trusted_proxies, read_forwarded_name,
    Cidr, ClientClues, IpAddress,
};
use docker_proxy::headers::HeaderEntry;

fn v4(a: u8, b: u8, c: u8, d: u8) -> IpAddress {
    IpAddress::V4(u32::from_be_bytes([a, b, c, d]))
}

fn client(peer: IpAddress, headers: &[(&str, &str)], trusted: &[&str]) -> IpAddress {
    let h: Vec<HeaderEntry> = headers
        .iter()
        .map(|(n, v)| HeaderEntry { name: n.to_string(), value: v.as_bytes().to_vec() })
        .collect();
    let raw: Vec<String> = trusted.iter().map(|s| s.to_string()).collect();
    compute_client_ip(&peer, &h, &parse_trusted_proxies(&raw))
}

#[test]
fn networks_are_read() {
    let raw: Vec<String> = ["10.0.0.0/8", "nonsense", "10.1.2.3", "2001:db8::/32", "1.2.3.4/33"]
        .iter()
        .map(|s| s.to_string())
        .collect();
    assert_eq!(
        parse_trusted_proxies(&raw),
        vec![
            Cidr::V4 { addr: 0x0a000000, prefix: 8 },
            Cidr::V6 { addr: 0x20010db8_00000000_00000000_00000000, prefix: 32 },
        ]
    );
}

#[test]
fn networks_hold_their_addresses() {
    let net = |addr: u32, prefix: u8| Cidr::V4 { addr, prefix };
    assert!(net(0x0a010203, 8).contains(&v4(10, 255, 0, 1)));
    assert!(!net(0x0a010203, 8).contains(&v4(11, 0, 0, 0)));
    assert!(net(0x0a010203, 32).contains(&v4(10, 1, 2, 3)));
    assert!(!net(0x0a010203, 32).contains(&v4(10, 1, 2, 2)));
    assert!(net(0, 0).contains(&v4(255, 255, 255, 255)));
    assert!(!net(0, 0).contains(&IpAddress::V6(0)));
    let wide = Cidr::V6 { addr: 1, prefix: 127 };
    assert!(wide.contains(&IpAddress::V6(0)));
    assert!(!wide.contains(&IpAddress::V6(2)));
    assert!(any_contains(&vec![net(0, 8), wide], &IpAddress::V6(1)));
    assert!(!any_contains(&vec![], &v4(1, 1, 1, 1)));
}

#[test]
fn untrusted_peers_are_the_client() {
    let h = [("x-real-ip", "1.1.1.1"), ("x-forwarded-for", "2.2.2.2")];
    assert_eq!(client(v4(9, 9, 9, 9), &h, &["10.0.0.0/8"]), v4(9, 9, 9, 9));
    assert_eq!(client(v4(9, 9, 9, 9), &h, &[]), v4(9, 9, 9, 9));
}

#[test]
fn trusted_peers_name_the_client() {
    let peer = v4(10, 0, 0, 1);
    let nets = ["10.0.0.0/8"];
    assert_eq!(
        client(peer, &[("x-real-ip", " 1.1.1.1 "), ("x-forwarded-for", "2.2.2.2")], &nets),
        v4(1, 1, 1, 1)
    );
    assert_eq!(
        client(peer, &[("x-real-ip", "?"), ("x-forwarded-for", "6.6.6.6, 2.2.2.2, 10.0.0.7")], &nets),
        v4(2, 2, 2, 2)
    );
    assert_eq!(
        client(peer, &[("x-forwarded-for", "10.0.0.7"), ("forwarded", "for=3.3.3.3;proto=http")], &nets),
        v4(3, 3, 3, 3)
    );
    assert_eq!(
        client(peer, &[("forwarded", "for=4.4.4.4, proto=http; for=\"[2001:db8::1]\"")], &nets),
        IpAddress::V6(0x20010db8_00000000_00000000_00000001)
    );
    assert_eq!(client(peer, &[("forwarded", "for=unknown")], &nets), peer);
    assert_eq!(client(peer, &[], &nets), peer);
}

#[test]
fn clues_have_their_order() {
    let peer = v4(10, 0, 0, 1);
    let nets = vec![Cidr::V4 { addr: 0x0a000000, prefix: 8 }];
    let a = Some(v4(1, 1, 1, 1));
    let b = Some(v4(2, 2, 2, 2));
    let proxy = Some(v4(10, 9, 9, 9));
    let choose = |real_ip, listed, named, nets: &Vec<Cidr>| {
        choose_client(&peer, &ClientClues { real_ip, listed, named }, nets)
    };
    assert_eq!(choose(a, vec![b], vec![vec![b]], &nets), v4(1, 1, 1, 1));
    assert_eq!(choose(proxy, vec![b], vec![], &nets), v4(10, 9, 9, 9));
    assert_eq!(choose(None, vec![a, b, None, proxy], vec![], &nets), v4(2, 2, 2, 2));
    assert_eq!(choose(None, vec![proxy, None], vec![vec![b]], &nets), v4(2, 2, 2, 2));
    assert_eq!(choose(None, vec![], vec![vec![a], vec![None, b, a], vec![]], &nets), v4(2, 2, 2, 2));
    assert_eq!(choose(None, vec![], vec![vec![None]], &nets), peer);
    assert_eq!(choose(a, vec![b], vec![], &vec![]), peer);
}

#[test]
fn forwarded_names_are_unwrapped() {
    let name = |s: &str| {
        let c: Vec<char> = s.chars().collect();
        read_forwarded_name(&c).map(|v| v.into_iter().collect::<String>())
    };
    assert_eq!(name(" for=1.2.3.4 ").as_deref(), Some("1.2.3.4"));
    assert_eq!(name("for=\"[2001:db8::1]\"").as_deref(), Some("2001:db8::1"));
    assert_eq!(name("for=[x").as_deref(), Some("[x"));
    assert_eq!(name("for=").as_deref(), Some(""));
    assert_eq!(name("For=1.2.3.4"), None);
    assert_eq!(name("by=1.2.3.4"), None);
}
