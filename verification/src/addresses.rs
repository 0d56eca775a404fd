//! IP addresses, networks, and the address of the client behind trusted proxies.
use crate::headers;
use crate::headers::{HeaderEntry, HeaderView};
use crate::text;
use vstd::prelude::*;
use vstd::slice::{slice_subrange, slice_to_vec};

verus! {

/// An IP address, as the number that its bytes write.
#[derive(Debug, Clone, Copy, PartialEq, Eq, Structural)]
pub enum IpAddress {
    V4(u32),
    V6(u128),
}

/// A network: an address in it, and the number of leading bits that its addresses share.
#[derive(Debug, Clone, Copy, PartialEq, Eq, Structural)]
pub enum Cidr {
    V4 { addr: u32, prefix: u8 },
    V6 { addr: u128, prefix: u8 },
}

/// The address that a text writes, as the standard library reads it.
pub uninterp spec fn ip_parse(s: Seq<char>) -> Option<IpAddress>;

/// The text of an address, as the standard library writes it.
pub uninterp spec fn ip_text(ip: IpAddress) -> Seq<char>;

/// The network that a text writes, as `ipnet` reads it.
pub uninterp spec fn cidr_parse(s: Seq<char>) -> Option<Cidr>;

/// Reads an address with the `FromStr` of the standard library's address type, whose value
/// `ipnet::IpNet::new` takes and hands back unchanged; what is read depends on the text alone.
#[verifier::external_body]
pub(crate) fn parse_ip(s: &str) -> (r: Option<IpAddress>)
    ensures
        r == ip_parse(s@),
{
    match ipnet::IpNet::new(s.parse().ok()?, 0).ok()? {
        ipnet::IpNet::V4(n) => Some(IpAddress::V4(u32::from(n.addr()))),
        ipnet::IpNet::V6(n) => Some(IpAddress::V6(u128::from(n.addr()))),
    }
}

/// Writes an address with the `Display` of the standard library's address type, reached through
/// `ipnet::Ipv4Net::new` and `ipnet::Ipv6Net::new`; the text depends on the address alone, and is
/// read as that address.
#[verifier::external_body]
pub(crate) fn ip_to_string(ip: IpAddress) -> (r: String)
    ensures
        r@ == ip_text(ip),
        ip_parse(r@) == Some(ip),
{
    match ip {
        IpAddress::V4(a) => ipnet::Ipv4Net::new(a.into(), 0)
            .map_or_else(|e| e.to_string(), |n| n.addr().to_string()),
        IpAddress::V6(a) => ipnet::Ipv6Net::new(a.into(), 0)
            .map_or_else(|e| e.to_string(), |n| n.addr().to_string()),
    }
}

/// The `FromStr` of `ipnet::IpNet` reads a network: what is read depends on the text alone, and
/// its prefix is no longer than an address.
#[verifier::external_body]
pub(crate) fn parse_cidr(s: &str) -> (r: Option<Cidr>)
    ensures
        r == cidr_parse(s@),
        r is Some ==> valid_cidr(r->0),
{
    match s.parse::<ipnet::IpNet>().ok()? {
        ipnet::IpNet::V4(n) => Some(Cidr::V4 { addr: u32::from(n.addr()), prefix: n.prefix_len() }),
        ipnet::IpNet::V6(n) => Some(Cidr::V6 { addr: u128::from(n.addr()), prefix: n.prefix_len() }),
    }
}

/// Whether a network's prefix is no longer than an address.
pub open spec fn valid_cidr(c: Cidr) -> bool {
    match c {
        Cidr::V4 { addr, prefix } => prefix <= 32,
        Cidr::V6 { addr, prefix } => prefix <= 128,
    }
}

/// Whether a network holds an address: it is one of the same kind and has the same leading bits.
pub open spec fn in_cidr(c: Cidr, ip: IpAddress) -> bool {
    match (c, ip) {
        (Cidr::V4 { addr, prefix }, IpAddress::V4(a)) => prefix == 0 || addr >> ((32 - prefix) as u32)
            == a >> ((32 - prefix) as u32),
        (Cidr::V6 { addr, prefix }, IpAddress::V6(a)) => prefix == 0 || addr >> ((128
            - prefix) as u128) == a >> ((128 - prefix) as u128),
        _ => false,
    }
}

/// Whether one of the networks holds an address.
pub open spec fn in_any(nets: Seq<Cidr>, ip: IpAddress) -> bool {
    exists|i: int| 0 <= i < nets.len() && in_cidr(#[trigger] nets[i], ip)
}

/// Whether every network's prefix is no longer than an address.
pub open spec fn valid_cidrs(nets: Seq<Cidr>) -> bool {
    forall|i: int| 0 <= i < nets.len() ==> valid_cidr(#[trigger] nets[i])
}

impl Cidr {
    /// Whether the network holds an address.
    pub fn contains(&self, ip: &IpAddress) -> (r: bool)
        requires
            valid_cidr(*self),
        ensures
            r == in_cidr(*self, *ip),
    {
        match (self, ip) {
            (Cidr::V4 { addr, prefix }, IpAddress::V4(a)) => {
                if *prefix == 0 {
                    true
                } else {
                    let shift: u32 = 32 - *prefix as u32;
                    (*addr >> shift) == (*a >> shift)
                }
            },
            (Cidr::V6 { addr, prefix }, IpAddress::V6(a)) => {
                if *prefix == 0 {
                    true
                } else {
                    let shift: u128 = 128 - *prefix as u128;
                    (*addr >> shift) == (*a >> shift)
                }
            },
            _ => false,
        }
    }
}

/// Whether one of the networks holds an address.
pub fn any_contains(nets: &Vec<Cidr>, ip: &IpAddress) -> (r: bool)
    requires
        valid_cidrs(nets@),
    ensures
        r == in_any(nets@, *ip),
{
    let mut i: usize = 0;
    while i < nets.len()
        invariant
            i <= nets@.len(),
            valid_cidrs(nets@),
            forall|j: int| 0 <= j < i ==> !in_cidr(#[trigger] nets@[j], *ip),
        decreases nets@.len() - i,
    {
        if nets[i].contains(ip) {
            return true;
        }
        i += 1;
    }
    false
}

/// The networks that a list of texts writes; texts that write none are passed over.
pub open spec fn cidrs_of(v: Seq<Seq<char>>) -> Seq<Cidr>
    decreases v.len(),
{
    if v.len() == 0 {
        Seq::empty()
    } else {
        match cidr_parse(v.last()) {
            Some(c) => cidrs_of(v.drop_last()).push(c),
            None => cidrs_of(v.drop_last()),
        }
    }
}

/// The networks that a list of texts writes.
pub fn parse_trusted_proxies(raw: &Vec<String>) -> (r: Vec<Cidr>)
    ensures
        r@ == cidrs_of(text::strings(raw@)),
        valid_cidrs(r@),
{
    let ghost list = text::strings(raw@);
    let mut out: Vec<Cidr> = Vec::new();
    let mut i: usize = 0;
    while i < raw.len()
        invariant
            i <= raw@.len(),
            list == text::strings(raw@),
            out@ == cidrs_of(list.take(i as int)),
            valid_cidrs(out@),
        decreases raw@.len() - i,
    {
        assert(list.take(i + 1).drop_last() =~= list.take(i as int));
        if let Some(c) = parse_cidr(raw[i].as_str()) {
            out.push(c);
        }
        i += 1;
    }
    assert(list.take(i as int) =~= list);
    out
}

/// The last of the addresses that is one of no trusted proxy.
pub open spec fn last_untrusted(ips: Seq<Option<IpAddress>>, nets: Seq<Cidr>) -> Option<IpAddress>
    decreases ips.len(),
{
    if ips.len() == 0 {
        None
    } else if ips.last() is Some && !in_any(nets, ips.last()->0) {
        ips.last()
    } else {
        last_untrusted(ips.drop_last(), nets)
    }
}

/// The first of the addresses.
pub open spec fn first_known(ips: Seq<Option<IpAddress>>) -> Option<IpAddress>
    decreases ips.len(),
{
    if ips.len() == 0 {
        None
    } else if ips[0] is Some {
        ips[0]
    } else {
        first_known(ips.skip(1))
    }
}

/// The first of the addresses in the last list that has one.
pub open spec fn last_known(lists: Seq<Seq<Option<IpAddress>>>) -> Option<IpAddress>
    decreases lists.len(),
{
    if lists.len() == 0 {
        None
    } else if first_known(lists.last()) is Some {
        first_known(lists.last())
    } else {
        last_known(lists.drop_last())
    }
}

/// What the headers of a request say of its client: the address in `X-Real-Ip`, those in
/// `X-Forwarded-For`, and those in the parameters of each element of `Forwarded`. What is no
/// address counts as none.
#[derive(Debug)]
pub struct ClientClues {
    pub real_ip: Option<IpAddress>,
    pub listed: Vec<Option<IpAddress>>,
    pub named: Vec<Vec<Option<IpAddress>>>,
}

/// What [`ClientClues`] stand for.
pub struct CluesView {
    pub real_ip: Option<IpAddress>,
    pub listed: Seq<Option<IpAddress>>,
    pub named: Seq<Seq<Option<IpAddress>>>,
}

/// What lists of addresses stand for.
pub open spec fn address_lists(v: Seq<Vec<Option<IpAddress>>>) -> Seq<Seq<Option<IpAddress>>> {
    Seq::new(v.len(), |i: int| v[i]@)
}

impl View for ClientClues {
    type V = CluesView;

    open spec fn view(&self) -> CluesView {
        CluesView { real_ip: self.real_ip, listed: self.listed@, named: address_lists(self.named@) }
    }
}

/// The address of the client: the peer's own, unless the peer is a trusted proxy and its headers
/// give another.
pub open spec fn client_given(peer: IpAddress, c: CluesView, nets: Seq<Cidr>) -> IpAddress {
    if !in_any(nets, peer) {
        peer
    } else if c.real_ip is Some {
        c.real_ip->0
    } else if last_untrusted(c.listed, nets) is Some {
        last_untrusted(c.listed, nets)->0
    } else if last_known(c.named) is Some {
        last_known(c.named)->0
    } else {
        peer
    }
}

/// `s` without the quotation marks at its start.
pub open spec fn unquote_start(s: Seq<char>) -> Seq<char>
    decreases s.len(),
{
    if s.len() > 0 && s[0] == '"' {
        unquote_start(s.skip(1))
    } else {
        s
    }
}

/// `s` without the quotation marks at its end.
pub open spec fn unquote_end(s: Seq<char>) -> Seq<char>
    decreases s.len(),
{
    if s.len() > 0 && s.last() == '"' {
        unquote_end(s.drop_last())
    } else {
        s
    }
}

/// `s` without the brackets around it, where it has both.
pub open spec fn unbracketed(s: Seq<char>) -> Seq<char> {
    if s.len() >= 2 && s[0] == '[' && s.last() == ']' {
        s.subrange(1, s.len() - 1)
    } else {
        s
    }
}

/// The text in which a parameter of a `Forwarded` element names the client.
pub open spec fn forwarded_name(param: Seq<char>) -> Option<Seq<char>> {
    let p = text::trim(param);
    if text::begins_with(p, "for="@) {
        Some(unbracketed(unquote_end(unquote_start(p.skip(4)))))
    } else {
        None
    }
}

/// The address that a parameter of a `Forwarded` element names as the client.
pub open spec fn forwarded_for(param: Seq<char>) -> Option<IpAddress> {
    match forwarded_name(param) {
        Some(t) => ip_parse(t),
        None => None,
    }
}

/// The addresses in the parts of a list separated by commas.
pub open spec fn listed_addresses(list: Seq<char>) -> Seq<Option<IpAddress>> {
    let entries = text::split(list, ',');
    Seq::new(entries.len(), |i: int| ip_parse(text::trim(entries[i])))
}

/// The addresses in the parameters of an element.
pub open spec fn element_addresses(element: Seq<char>) -> Seq<Option<IpAddress>> {
    let params = text::split(element, ';');
    Seq::new(params.len(), |i: int| forwarded_for(params[i]))
}

/// The addresses in the parameters of each element of a list.
pub open spec fn named_addresses(list: Seq<char>) -> Seq<Seq<Option<IpAddress>>> {
    let elements = text::split(list, ',');
    Seq::new(elements.len(), |i: int| element_addresses(elements[i]))
}

/// What headers say of the client.
pub open spec fn clues_of(h: Seq<HeaderView>) -> CluesView {
    CluesView {
        real_ip: match headers::first_text(h, "x-real-ip"@) {
            Some(v) => ip_parse(text::trim(v)),
            None => None,
        },
        listed: match headers::first_text(h, "x-forwarded-for"@) {
            Some(v) => listed_addresses(v),
            None => Seq::empty(),
        },
        named: match headers::first_text(h, "forwarded"@) {
            Some(v) => named_addresses(v),
            None => Seq::empty(),
        },
    }
}

/// The address of the client whose request the peer sent with these headers.
pub open spec fn client_ip(peer: IpAddress, h: Seq<HeaderView>, nets: Seq<Cidr>) -> IpAddress {
    client_given(peer, clues_of(h), nets)
}

fn parse_chars(s: &[char]) -> (r: Option<IpAddress>)
    ensures
        r == ip_parse(s@),
{
    let t = text::string_of(s);
    parse_ip(t.as_str())
}

fn find_last_untrusted(ips: &Vec<Option<IpAddress>>, nets: &Vec<Cidr>) -> (r: Option<IpAddress>)
    requires
        valid_cidrs(nets@),
    ensures
        r == last_untrusted(ips@, nets@),
{
    let mut n: usize = ips.len();
    assert(ips@.take(n as int) =~= ips@);
    while n > 0
        invariant
            n <= ips@.len(),
            valid_cidrs(nets@),
            last_untrusted(ips@, nets@) == last_untrusted(ips@.take(n as int), nets@),
        decreases n,
    {
        assert(ips@.take(n as int).drop_last() =~= ips@.take(n - 1));
        if let Some(ip) = ips[n - 1] {
            if !any_contains(nets, &ip) {
                return Some(ip);
            }
        }
        n -= 1;
    }
    None
}

fn find_first_known(ips: &Vec<Option<IpAddress>>) -> (r: Option<IpAddress>)
    ensures
        r == first_known(ips@),
{
    let mut i: usize = 0;
    assert(ips@.skip(0) =~= ips@);
    while i < ips.len()
        invariant
            i <= ips@.len(),
            first_known(ips@) == first_known(ips@.skip(i as int)),
        decreases ips@.len() - i,
    {
        assert(ips@.skip(i as int).skip(1) =~= ips@.skip(i + 1));
        if ips[i].is_some() {
            return ips[i];
        }
        i += 1;
    }
    None
}

fn find_last_known(lists: &Vec<Vec<Option<IpAddress>>>) -> (r: Option<IpAddress>)
    ensures
        r == last_known(address_lists(lists@)),
{
    let ghost all = address_lists(lists@);
    let mut n: usize = lists.len();
    assert(all.take(n as int) =~= all);
    while n > 0
        invariant
            n <= lists@.len(),
            all == address_lists(lists@),
            last_known(all) == last_known(all.take(n as int)),
        decreases n,
    {
        assert(all.take(n as int).last() == lists@[n - 1]@);
        assert(all.take(n as int).drop_last() =~= all.take(n - 1));
        let first = find_first_known(&lists[n - 1]);
        if first.is_some() {
            return first;
        }
        n -= 1;
    }
    None
}

/// The address of the client, given what the headers say of it.
pub fn choose_client(peer: &IpAddress, clues: &ClientClues, trusted: &Vec<Cidr>) -> (r: IpAddress)
    requires
        valid_cidrs(trusted@),
    ensures
        r == client_given(*peer, clues@, trusted@),
{
    if !any_contains(trusted, peer) {
        return *peer;
    }
    if let Some(ip) = clues.real_ip {
        return ip;
    }
    if let Some(ip) = find_last_untrusted(&clues.listed, trusted) {
        return ip;
    }
    if let Some(ip) = find_last_known(&clues.named) {
        return ip;
    }
    *peer
}

fn without_quotes(s: &[char]) -> (r: &[char])
    ensures
        r@ == unquote_end(unquote_start(s@)),
{
    let mut i: usize = 0;
    assert(s@.skip(0) =~= s@);
    while i < s.len() && s[i] == '"'
        invariant
            i <= s@.len(),
            unquote_start(s@.skip(i as int)) == unquote_start(s@),
        decreases s@.len() - i,
    {
        assert(s@.skip(i as int).skip(1) =~= s@.skip(i + 1));
        i += 1;
    }
    let rest = slice_subrange(s, i, s.len());
    assert(rest@ =~= s@.skip(i as int));
    let mut n: usize = rest.len();
    assert(rest@.take(n as int) =~= rest@);
    while n > 0 && rest[n - 1] == '"'
        invariant
            n <= rest@.len(),
            unquote_end(rest@.take(n as int)) == unquote_end(rest@),
        decreases n,
    {
        assert(rest@.take(n as int).drop_last() =~= rest@.take(n - 1));
        n -= 1;
    }
    let r = slice_subrange(rest, 0, n);
    assert(r@ =~= rest@.take(n as int));
    r
}

/// The text in which a parameter of a `Forwarded` element names the client.
pub fn read_forwarded_name(param: &[char]) -> (r: Option<Vec<char>>)
    ensures
        match r {
            Some(t) => forwarded_name(param@) == Some(t@),
            None => forwarded_name(param@) is None,
        },
{
    let p = text::trimmed(param);
    let prefix = text::chars_of("for=");
    proof {
        reveal_strlit("for=");
    }
    if !text::has_prefix(p, prefix.as_slice()) {
        return None;
    }
    let value = slice_subrange(p, 4, p.len());
    assert(value@ =~= p@.skip(4));
    let raw = without_quotes(value);
    if raw.len() >= 2 && raw[0] == '[' && raw[raw.len() - 1] == ']' {
        Some(slice_to_vec(slice_subrange(raw, 1, raw.len() - 1)))
    } else {
        Some(slice_to_vec(raw))
    }
}

fn read_listed(list: &[char]) -> (r: Vec<Option<IpAddress>>)
    ensures
        r@ == listed_addresses(list@),
{
    let entries = text::split_chars(list, ',');
    let ghost all = text::split(list@, ',');
    let mut out: Vec<Option<IpAddress>> = Vec::new();
    let mut i: usize = 0;
    while i < entries.len()
        invariant
            i <= entries@.len(),
            all == text::texts(entries@),
            all == text::split(list@, ','),
            out@ == listed_addresses(list@).take(i as int),
        decreases entries@.len() - i,
    {
        assert(all[i as int] == entries@[i as int]@);
        out.push(parse_chars(text::trimmed(entries[i].as_slice())));
        assert(out@ =~= listed_addresses(list@).take(i + 1));
        i += 1;
    }
    assert(out@ =~= listed_addresses(list@));
    out
}

fn read_element(element: &[char]) -> (r: Vec<Option<IpAddress>>)
    ensures
        r@ == element_addresses(element@),
{
    let params = text::split_chars(element, ';');
    let ghost all = text::split(element@, ';');
    let mut out: Vec<Option<IpAddress>> = Vec::new();
    let mut i: usize = 0;
    while i < params.len()
        invariant
            i <= params@.len(),
            all == text::texts(params@),
            all == text::split(element@, ';'),
            out@ == element_addresses(element@).take(i as int),
        decreases params@.len() - i,
    {
        assert(all[i as int] == params@[i as int]@);
        let ip = match read_forwarded_name(params[i].as_slice()) {
            Some(t) => parse_chars(t.as_slice()),
            None => None,
        };
        out.push(ip);
        assert(out@ =~= element_addresses(element@).take(i + 1));
        i += 1;
    }
    assert(out@ =~= element_addresses(element@));
    out
}

fn read_named(list: &[char]) -> (r: Vec<Vec<Option<IpAddress>>>)
    ensures
        address_lists(r@) == named_addresses(list@),
{
    let elements = text::split_chars(list, ',');
    let ghost all = text::split(list@, ',');
    let mut out: Vec<Vec<Option<IpAddress>>> = Vec::new();
    let mut i: usize = 0;
    while i < elements.len()
        invariant
            i <= elements@.len(),
            all == text::texts(elements@),
            all == text::split(list@, ','),
            address_lists(out@) == named_addresses(list@).take(i as int),
        decreases elements@.len() - i,
    {
        let ghost before = address_lists(out@);
        assert(all[i as int] == elements@[i as int]@);
        out.push(read_element(elements[i].as_slice()));
        assert(address_lists(out@) =~= before.push(element_addresses(all[i as int])));
        assert(address_lists(out@) =~= named_addresses(list@).take(i + 1));
        i += 1;
    }
    assert(address_lists(out@) =~= named_addresses(list@));
    out
}

fn read_clues(h: &Vec<HeaderEntry>) -> (r: ClientClues)
    ensures
        r@ == clues_of(headers::header_list(h@)),
{
    let real_ip = match headers::first_header_text(h, "x-real-ip") {
        Some(v) => parse_chars(text::trimmed(v.as_slice())),
        None => None,
    };
    let listed = match headers::first_header_text(h, "x-forwarded-for") {
        Some(v) => read_listed(v.as_slice()),
        None => Vec::new(),
    };
    let named = match headers::first_header_text(h, "forwarded") {
        Some(v) => read_named(v.as_slice()),
        None => Vec::new(),
    };
    let r = ClientClues { real_ip, listed, named };
    assert(r@.named =~= clues_of(headers::header_list(h@)).named);
    r
}

/// The address of the client whose request the peer sent.
pub fn compute_client_ip(peer: &IpAddress, h: &Vec<HeaderEntry>, trusted: &Vec<Cidr>) -> (r:
    IpAddress)
    requires
        valid_cidrs(trusted@),
    ensures
        r == client_ip(*peer, headers::header_list(h@), trusted@),
{
    if !any_contains(trusted, peer) {
        return *peer;
    }
    choose_client(peer, &read_clues(h), trusted)
}

/// Headers say nothing of the client unless the peer is a trusted proxy.
pub proof fn law_untrusted_peer_is_the_client(
    peer: IpAddress,
    h: Seq<HeaderView>,
    nets: Seq<Cidr>,
)
    requires
        !in_any(nets, peer),
    ensures
        client_ip(peer, h, nets) == peer,
{
}

/// Where nobody is trusted, the peer is the client.
pub proof fn law_no_trusted_proxies(peer: IpAddress, h: Seq<HeaderView>)
    ensures
        client_ip(peer, h, Seq::empty()) == peer,
{
    assert(!in_any(Seq::empty(), peer));
}

/// The address that is taken from `X-Forwarded-For` is one that it lists and never one of a
/// trusted proxy, and every address after it is.
pub proof fn law_forwarded_client_is_untrusted(ips: Seq<Option<IpAddress>>, nets: Seq<Cidr>)
    ensures
        match last_untrusted(ips, nets) {
            Some(ip) => !in_any(nets, ip) && exists|i: int|
                0 <= i < ips.len() && #[trigger] ips[i] == Some(ip) && forall|j: int|
                    i < j < ips.len() && #[trigger] ips[j] is Some ==> in_any(nets, ips[j]->0),
            None => forall|j: int|
                0 <= j < ips.len() && #[trigger] ips[j] is Some ==> in_any(nets, ips[j]->0),
        },
    decreases ips.len(),
{
    if ips.len() > 0 {
        let n = ips.len() - 1;
        let rest = ips.drop_last();
        law_forwarded_client_is_untrusted(rest, nets);
        if ips.last() is Some && !in_any(nets, ips.last()->0) {
            assert(ips[n] == ips.last());
        } else {
            assert(forall|j: int| 0 <= j < n ==> #[trigger] ips[j] == rest[j]);
            if let Some(ip) = last_untrusted(rest, nets) {
                let i = choose|i: int|
                    0 <= i < rest.len() && #[trigger] rest[i] == Some(ip) && forall|j: int|
                        i < j < rest.len() && #[trigger] rest[j] is Some ==> in_any(nets, rest[j]->0);
                assert(ips[i] == Some(ip));
                assert forall|j: int| i < j < ips.len() && #[trigger] ips[j] is Some implies in_any(
                    nets,
                    ips[j]->0,
                ) by {
                    if j < n {
                        assert(ips[j] == rest[j]);
                    }
                }
            } else {
                assert forall|j: int| 0 <= j < ips.len() && #[trigger] ips[j] is Some implies in_any(
                    nets,
                    ips[j]->0,
                ) by {
                    if j < n {
                        assert(ips[j] == rest[j]);
                    }
                }
            }
        }
    }
}

/// A network holds the address that it is written with, and one without a prefix holds every
/// address of its kind.
pub proof fn law_network_holds_its_address(addr: u32, wide: u128, prefix: u8, a: u32, w: u128)
    ensures
        in_cidr(Cidr::V4 { addr, prefix }, IpAddress::V4(addr)),
        in_cidr(Cidr::V6 { addr: wide, prefix }, IpAddress::V6(wide)),
        in_cidr(Cidr::V4 { addr, prefix: 0 }, IpAddress::V4(a)),
        in_cidr(Cidr::V6 { addr: wide, prefix: 0 }, IpAddress::V6(w)),
{
}

/// A network with a longer prefix asks for one bit more: an address is in it exactly where it is
/// in the network whose prefix is shorter by one and has the same bit at that place. The network
/// without a prefix holds every address of its kind, and none holds one of the other kind.
pub proof fn law_each_prefix_bit_must_agree(
    addr: u32,
    a: u32,
    wide: u128,
    w: u128,
    prefix: u8,
    long: u8,
)
    requires
        0 < prefix <= 32,
        0 < long <= 128,
    ensures
        in_cidr(Cidr::V4 { addr, prefix: 0 }, IpAddress::V4(a)),
        in_cidr(Cidr::V6 { addr: wide, prefix: 0 }, IpAddress::V6(w)),
        in_cidr(Cidr::V4 { addr, prefix }, IpAddress::V4(a)) <==> in_cidr(
            Cidr::V4 { addr, prefix: (prefix - 1) as u8 },
            IpAddress::V4(a),
        ) && (addr >> ((32 - prefix) as u32)) % 2 == (a >> ((32 - prefix) as u32)) % 2,
        in_cidr(Cidr::V6 { addr: wide, prefix: long }, IpAddress::V6(w)) <==> in_cidr(
            Cidr::V6 { addr: wide, prefix: (long - 1) as u8 },
            IpAddress::V6(w),
        ) && (wide >> ((128 - long) as u128)) % 2 == (w >> ((128 - long) as u128)) % 2,
        !in_cidr(Cidr::V4 { addr, prefix }, IpAddress::V6(w)),
        !in_cidr(Cidr::V6 { addr: wide, prefix: long }, IpAddress::V4(a)),
{
    let k = (32 - prefix) as u32;
    let up = (32 - (prefix - 1)) as u32;
    assert(k < 31 && up == k + 1 ==> ((addr >> k == a >> k) <==> (addr >> up == a >> up && (addr
        >> k) % 2 == (a >> k) % 2))) by (bit_vector);
    assert(k == 31 ==> ((addr >> k == a >> k) <==> (addr >> k) % 2 == (a >> k) % 2)) by (bit_vector);
    let n = (128 - long) as u128;
    let above = (128 - (long - 1)) as u128;
    let x = wide >> n;
    let y = w >> n;
    assert(x == y <==> (x >> 1u128 == y >> 1u128 && x % 2 == y % 2)) by (bit_vector);
    if n < 127 {
        lemma_shift_on(wide, n);
        lemma_shift_on(w, n);
    } else {
        assert(wide >> 127u128 < 2 && w >> 127u128 < 2) by (bit_vector);
    }
}

proof fn lemma_shift_on(x: u128, n: u128)
    by (bit_vector)
    requires
        n < 127,
    ensures
        (x >> n) >> 1u128 == x >> ((n + 1) as u128),
{
}

/// A network with the longest prefix holds a single address.
pub proof fn law_longest_prefix_is_one_address(addr: u32, a: u32, wide: u128, w: u128)
    ensures
        in_cidr(Cidr::V4 { addr, prefix: 32 }, IpAddress::V4(a)) <==> a == addr,
        in_cidr(Cidr::V6 { addr: wide, prefix: 128 }, IpAddress::V6(w)) <==> w == wide,
{
    assert(addr >> 0u32 == addr && a >> 0u32 == a) by (bit_vector);
    assert(wide >> 0u128 == wide && w >> 0u128 == w) by (bit_vector);
}

/// An address is in one of several networks exactly where it is in one of some of them or in one
/// of the rest; it is in one of a single network where it is in that, and in none of none.
pub proof fn law_several_networks(a: Seq<Cidr>, b: Seq<Cidr>, c: Cidr, ip: IpAddress)
    ensures
        !in_any(Seq::empty(), ip),
        in_any(seq![c], ip) == in_cidr(c, ip),
        in_any(a + b, ip) == (in_any(a, ip) || in_any(b, ip)),
{
    let all = a + b;
    assert(seq![c][0] == c);
    if in_any(all, ip) {
        let i = choose|i: int| 0 <= i < all.len() && in_cidr(#[trigger] all[i], ip);
        if i < a.len() {
            assert(in_cidr(a[i], ip));
        } else {
            assert(in_cidr(b[i - a.len()], ip));
        }
    }
    if in_any(a, ip) {
        let i = choose|i: int| 0 <= i < a.len() && in_cidr(#[trigger] a[i], ip);
        assert(in_cidr(all[i], ip));
    }
    if in_any(b, ip) {
        let i = choose|i: int| 0 <= i < b.len() && in_cidr(#[trigger] b[i], ip);
        assert(in_cidr(all[a.len() + i], ip));
    }
}

/// The networks of a list of texts are those of the texts that name one, in their order.
pub proof fn law_networks_of_texts(a: Seq<Seq<char>>, b: Seq<Seq<char>>, t: Seq<char>)
    ensures
        cidrs_of(Seq::empty()) == Seq::<Cidr>::empty(),
        cidr_parse(t) is Some ==> cidrs_of(seq![t]) == seq![cidr_parse(t)->0],
        cidr_parse(t) is None ==> cidrs_of(seq![t]) == Seq::<Cidr>::empty(),
        cidrs_of(a + b) == cidrs_of(a) + cidrs_of(b),
    decreases b.len(),
{
    let none = Seq::<Seq<char>>::empty();
    assert(seq![t].drop_last() =~= none);
    assert(cidrs_of(none) == Seq::<Cidr>::empty());
    if b.len() == 0 {
        assert(a + b =~= a);
        assert(cidrs_of(a) + cidrs_of(b) =~= cidrs_of(a));
    } else {
        law_networks_of_texts(a, b.drop_last(), t);
        assert((a + b).drop_last() =~= a + b.drop_last());
        assert((a + b).last() == b.last());
        assert(cidrs_of(a + b) =~= cidrs_of(a) + cidrs_of(b));
    }
}

/// Behind a trusted peer, an address in the first `x-real-ip` header is the client's.
pub proof fn law_real_ip_comes_first(
    peer: IpAddress,
    h: Seq<HeaderView>,
    nets: Seq<Cidr>,
    v: Seq<char>,
    a: IpAddress,
)
    requires
        in_any(nets, peer),
        headers::first_text(h, "x-real-ip"@) == Some(v),
        ip_parse(text::trim(v)) == Some(a),
    ensures
        client_ip(peer, h, nets) == a,
{
}

/// Whether the first `x-real-ip` header gives no address.
pub open spec fn names_no_real_ip(h: Seq<HeaderView>) -> bool {
    match headers::first_text(h, "x-real-ip"@) {
        Some(v) => ip_parse(text::trim(v)) is None,
        None => true,
    }
}

/// Behind a trusted peer and without a real address, the client's is the last one between the
/// commas of the first `x-forwarded-for` header that is not that of a trusted proxy.
pub proof fn law_last_untrusted_forwarded_address(
    peer: IpAddress,
    h: Seq<HeaderView>,
    nets: Seq<Cidr>,
    v: Seq<char>,
    i: int,
    a: IpAddress,
)
    requires
        in_any(nets, peer),
        names_no_real_ip(h),
        headers::first_text(h, "x-forwarded-for"@) == Some(v),
        0 <= i < text::split(v, ',').len(),
        ip_parse(text::trim(text::split(v, ',')[i])) == Some(a),
        !in_any(nets, a),
        forall|k: int|
            i < k < text::split(v, ',').len() ==> (ip_parse(
                text::trim(#[trigger] text::split(v, ',')[k]),
            ) matches Some(b) ==> in_any(nets, b)),
    ensures
        client_ip(peer, h, nets) == a,
{
    let ips = listed_addresses(v);
    let parts = text::split(v, ',');
    assert(ips[i] == Some(a));
    assert forall|k: int| i < k < ips.len() && #[trigger] ips[k] is Some implies in_any(
        nets,
        ips[k]->0,
    ) by {
        assert(ips[k] == ip_parse(text::trim(parts[k])));
    }
    lemma_last_untrusted(ips, nets, i);
}

proof fn lemma_last_untrusted(ips: Seq<Option<IpAddress>>, nets: Seq<Cidr>, i: int)
    requires
        0 <= i < ips.len(),
        ips[i] is Some,
        !in_any(nets, ips[i]->0),
        forall|k: int| i < k < ips.len() && #[trigger] ips[k] is Some ==> in_any(nets, ips[k]->0),
    ensures
        last_untrusted(ips, nets) == ips[i],
    decreases ips.len(),
{
    if i < ips.len() - 1 {
        let head = ips.drop_last();
        assert forall|k: int| i < k < head.len() && #[trigger] head[k] is Some implies in_any(
            nets,
            head[k]->0,
        ) by {
            assert(head[k] == ips[k]);
        }
        lemma_last_untrusted(head, nets, i);
    }
}

/// Whether the first `x-forwarded-for` header gives no address but those of trusted proxies.
pub open spec fn lists_no_untrusted(h: Seq<HeaderView>, nets: Seq<Cidr>) -> bool {
    match headers::first_text(h, "x-forwarded-for"@) {
        Some(v) => forall|k: int|
            0 <= k < text::split(v, ',').len() ==> (ip_parse(
                text::trim(#[trigger] text::split(v, ',')[k]),
            ) matches Some(b) ==> in_any(nets, b)),
        None => true,
    }
}

proof fn lemma_lists_no_untrusted(h: Seq<HeaderView>, nets: Seq<Cidr>)
    requires
        lists_no_untrusted(h, nets),
    ensures
        last_untrusted(clues_of(h).listed, nets) is None,
{
    let ips = clues_of(h).listed;
    law_forwarded_client_is_untrusted(ips, nets);
    if last_untrusted(ips, nets) is Some {
        let i = choose|i: int|
            0 <= i < ips.len() && #[trigger] ips[i] == last_untrusted(ips, nets);
        let v = headers::first_text(h, "x-forwarded-for"@)->0;
        assert(ips[i] == ip_parse(text::trim(text::split(v, ',')[i])));
    }
}

/// Behind a trusted peer and with neither of these, the client's address is in the last element
/// of the first `forwarded` header that gives one, and there in the first parameter that does.
pub proof fn law_last_forwarded_element(
    peer: IpAddress,
    h: Seq<HeaderView>,
    nets: Seq<Cidr>,
    v: Seq<char>,
    i: int,
    j: int,
    a: IpAddress,
)
    requires
        in_any(nets, peer),
        names_no_real_ip(h),
        lists_no_untrusted(h, nets),
        headers::first_text(h, "forwarded"@) == Some(v),
        0 <= i < text::split(v, ',').len(),
        0 <= j < text::split(text::split(v, ',')[i], ';').len(),
        forwarded_for(text::split(text::split(v, ',')[i], ';')[j]) == Some(a),
        forall|k: int|
            0 <= k < j ==> forwarded_for(
                #[trigger] text::split(text::split(v, ',')[i], ';')[k],
            ) is None,
        forall|e: int, k: int|
            i < e < text::split(v, ',').len() && 0 <= k < text::split(
                text::split(v, ',')[e],
                ';',
            ).len() ==> forwarded_for(
                #[trigger] text::split(text::split(v, ',')[e], ';')[k],
            ) is None,
    ensures
        client_ip(peer, h, nets) == a,
{
    lemma_lists_no_untrusted(h, nets);
    let elements = text::split(v, ',');
    let lists = named_addresses(v);
    let params = text::split(elements[i], ';');
    assert(lists[i] == element_addresses(elements[i]));
    assert(lists[i][j] == forwarded_for(params[j]));
    assert forall|k: int| 0 <= k < j implies #[trigger] lists[i][k] is None by {
        assert(lists[i][k] == forwarded_for(params[k]));
    }
    lemma_first_known(lists[i], j);
    assert forall|e: int, k: int|
        i < e < lists.len() && 0 <= k < lists[e].len() implies #[trigger] lists[e][k] is None by {
        assert(lists[e][k] == forwarded_for(text::split(elements[e], ';')[k]));
    }
    lemma_last_known(lists, i);
}

proof fn lemma_first_known(ips: Seq<Option<IpAddress>>, j: int)
    requires
        0 <= j <= ips.len(),
        forall|k: int| 0 <= k < j ==> #[trigger] ips[k] is None,
    ensures
        j < ips.len() && ips[j] is Some ==> first_known(ips) == ips[j],
        j == ips.len() ==> first_known(ips) is None,
    decreases ips.len(),
{
    if j > 0 {
        assert(ips[0] is None);
        let rest = ips.skip(1);
        assert forall|k: int| 0 <= k < j - 1 implies #[trigger] rest[k] is None by {
            assert(rest[k] == ips[k + 1]);
        }
        lemma_first_known(rest, j - 1);
        if j < ips.len() {
            assert(rest[j - 1] == ips[j]);
        }
    }
}

proof fn lemma_last_known(lists: Seq<Seq<Option<IpAddress>>>, i: int)
    requires
        -1 <= i < lists.len(),
        forall|e: int, k: int|
            i < e < lists.len() && 0 <= k < lists[e].len() ==> #[trigger] lists[e][k] is None,
    ensures
        i >= 0 && first_known(lists[i]) is Some ==> last_known(lists) == first_known(lists[i]),
        i == -1 ==> last_known(lists) is None,
    decreases lists.len(),
{
    if i < lists.len() - 1 {
        let e = lists.len() - 1;
        assert forall|k: int| 0 <= k < lists[e].len() implies #[trigger] lists[e][k] is None by {}
        lemma_first_known(lists[e], lists[e].len() as int);
        let head = lists.drop_last();
        assert forall|d: int, k: int|
            i < d < head.len() && 0 <= k < head[d].len() implies #[trigger] head[d][k] is None by {
            assert(head[d][k] == lists[d][k]);
        }
        lemma_last_known(head, i);
    }
}

/// Behind a trusted peer that says nothing of the client, the peer is the client.
pub proof fn law_peer_stands_in_for_an_unnamed_client(
    peer: IpAddress,
    h: Seq<HeaderView>,
    nets: Seq<Cidr>,
)
    requires
        names_no_real_ip(h),
        lists_no_untrusted(h, nets),
        match headers::first_text(h, "forwarded"@) {
            Some(v) => forall|e: int, k: int|
                0 <= e < text::split(v, ',').len() && 0 <= k < text::split(
                    text::split(v, ',')[e],
                    ';',
                ).len() ==> forwarded_for(
                    #[trigger] text::split(text::split(v, ',')[e], ';')[k],
                ) is None,
            None => true,
        },
    ensures
        client_ip(peer, h, nets) == peer,
{
    lemma_lists_no_untrusted(h, nets);
    let lists = clues_of(h).named;
    if let Some(v) = headers::first_text(h, "forwarded"@) {
        let elements = text::split(v, ',');
        assert forall|e: int, k: int|
            0 <= e < lists.len() && 0 <= k < lists[e].len() implies #[trigger] lists[e][k]
            is None by {
            assert(lists[e][k] == forwarded_for(text::split(elements[e], ';')[k]));
        }
    }
    lemma_last_known(lists, -1);
}

/// The forms of a `for=` parameter, with spaces or tabs round it: a name, one in quotes, one in
/// brackets and one in both. Another parameter gives no name.
pub proof fn law_forms_of_a_forwarded_name(param: Seq<char>, n: Seq<char>)
    requires
        n.len() > 0,
        n[0] != '"',
        n.last() != '"',
        n[0] != '[',
    ensures
        text::trim(param) == "for="@ + n ==> forwarded_name(param) == Some(n),
        text::trim(param) == "for="@ + seq!['"'] + n + seq!['"'] ==> forwarded_name(param) == Some(
            n,
        ),
        text::trim(param) == "for="@ + seq!['['] + n + seq![']'] ==> forwarded_name(param) == Some(
            n,
        ),
        text::trim(param) == "for="@ + seq!['"', '['] + n + seq![']', '"'] ==> forwarded_name(param)
            == Some(n),
        forwarded_name(param) is Some <==> text::trim(param).len() >= 4 && text::trim(param).take(4)
            == "for="@,
        forwarded_for(param) == (match forwarded_name(param) {
            Some(t) => ip_parse(t),
            None => None,
        }),
{
    reveal_strlit("for=");
    let p = text::trim(param);
    text::law_beginning(p, "for="@);
    let rest = p.skip(4);
    let bracketed = seq!['['] + n + seq![']'];
    if p == "for="@ + n {
        assert(p.take(4) =~= "for="@);
        assert(rest =~= n);
    }
    if p == "for="@ + seq!['"'] + n + seq!['"'] {
        assert(p.take(4) =~= "for="@);
        assert(rest =~= seq!['"'] + n + seq!['"']);
        lemma_unquoted(n);
    }
    if p == "for="@ + seq!['['] + n + seq![']'] {
        assert(p.take(4) =~= "for="@);
        assert(rest =~= bracketed);
        assert(rest.subrange(1, rest.len() - 1) =~= n);
    }
    if p == "for="@ + seq!['"', '['] + n + seq![']', '"'] {
        assert(p.take(4) =~= "for="@);
        assert(rest =~= seq!['"'] + bracketed + seq!['"']);
        lemma_unquoted(bracketed);
        assert(bracketed.subrange(1, bracketed.len() - 1) =~= n);
    }
}

proof fn lemma_unquoted(n: Seq<char>)
    requires
        n.len() > 0,
        n[0] != '"',
        n.last() != '"',
    ensures
        unquote_end(unquote_start(seq!['"'] + n + seq!['"'])) == n,
{
    let s = seq!['"'] + n + seq!['"'];
    assert(s.skip(1) =~= n.push('"'));
    assert(unquote_start(n.push('"')) == n.push('"'));
    assert(unquote_start(s) == n.push('"'));
    assert(n.push('"').drop_last() =~= n);
    assert(unquote_end(n) == n);
}

/// Of a text in quotes, all the quotes at its start and at its end are taken off and nothing else.
pub proof fn law_quotes_are_taken_off(s: Seq<char>) -> (r: (int, int))
    ensures
        0 <= r.0 <= r.1 <= s.len(),
        unquote_end(unquote_start(s)) == s.subrange(r.0, r.1),
        forall|k: int| 0 <= k < r.0 || r.1 <= k < s.len() ==> #[trigger] s[k] == '"',
        r.0 < r.1 ==> s[r.0] != '"' && s[r.1 - 1] != '"',
{
    let i = lemma_unquote_start(s);
    let t = unquote_start(s);
    let j = lemma_unquote_end(t);
    assert(t.take(j) =~= s.subrange(i, i + j));
    assert forall|k: int| 0 <= k < i || i + j <= k < s.len() implies #[trigger] s[k] == '"' by {
        if k >= i + j {
            assert(t[k - i] == s[k]);
        }
    }
    if j > 0 {
        assert(t[0] == s[i]);
        assert(t[j - 1] == s[i + j - 1]);
    }
    (i, i + j)
}

proof fn lemma_unquote_start(s: Seq<char>) -> (i: int)
    ensures
        0 <= i <= s.len(),
        unquote_start(s) == s.skip(i),
        forall|k: int| 0 <= k < i ==> #[trigger] s[k] == '"',
        i < s.len() ==> s[i] != '"',
    decreases s.len(),
{
    if s.len() > 0 && s[0] == '"' {
        let t = s.skip(1);
        let i = lemma_unquote_start(t);
        assert(t.skip(i) =~= s.skip(i + 1));
        assert forall|k: int| 0 <= k < i + 1 implies #[trigger] s[k] == '"' by {
            if k > 0 {
                assert(t[k - 1] == s[k]);
            }
        }
        if i < t.len() {
            assert(t[i] == s[i + 1]);
        }
        i + 1
    } else {
        assert(s.skip(0) =~= s);
        0
    }
}

proof fn lemma_unquote_end(s: Seq<char>) -> (j: int)
    ensures
        0 <= j <= s.len(),
        unquote_end(s) == s.take(j),
        forall|k: int| j <= k < s.len() ==> #[trigger] s[k] == '"',
        j > 0 ==> s[j - 1] != '"',
    decreases s.len(),
{
    if s.len() > 0 && s.last() == '"' {
        let t = s.drop_last();
        let j = lemma_unquote_end(t);
        assert(t.take(j) =~= s.take(j));
        assert forall|k: int| j <= k < s.len() implies #[trigger] s[k] == '"' by {
            if k < t.len() {
                assert(t[k] == s[k]);
            }
        }
        if j > 0 {
            assert(t[j - 1] == s[j - 1]);
        }
        j
    } else {
        assert(s.take(s.len() as int) =~= s);
        s.len() as int
    }
}

} // verus!
