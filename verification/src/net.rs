//! Internet addresses: their values, and the texts that stand for them.
use crate::numbers::{
    decimal, decimal_round_trip, decimal_value, hexadecimal, hexadecimal_is_hex, hexadecimal_text,
    hexadecimal_value, push_decimal, read_digits, read_hex_group,
};
use crate::pieces::{
    find, join, join_texts, lemma_index_of_first, index_of, split, split_at_each, texts, views,
};
use crate::text::{all_digits, all_hex, digit, hex_digit};
use vstd::prelude::*;
use vstd::slice::slice_subrange;

verus! {

/// An IPv4 address, `a.b.c.d`.
#[derive(Clone, Copy, PartialEq, Eq, Structural, Debug)]
pub struct Ipv4Addr {
    pub a: u8,
    pub b: u8,
    pub c: u8,
    pub d: u8,
}

/// An IPv6 address as its eight groups.
#[derive(Clone, Copy, Debug)]
pub struct Ipv6Addr {
    pub groups: [u16; 8],
}

/// An address of either family.
#[derive(Clone, Copy, Debug)]
pub enum IpAddr {
    V4(Ipv4Addr),
    V6(Ipv6Addr),
}

/// An address with a port; an IPv6 address may carry the number of its scope.
#[derive(Clone, Copy, Debug)]
pub struct SocketAddr {
    pub ip: IpAddr,
    pub scope: u32,
    pub port: u16,
}

/// The address `127.0.0.1`.
pub open spec fn localhost_addr() -> Ipv4Addr {
    Ipv4Addr { a: 127, b: 0, c: 0, d: 1 }
}

impl Ipv4Addr {
    pub fn new(a: u8, b: u8, c: u8, d: u8) -> (r: Self)
        ensures
            r == (Ipv4Addr { a, b, c, d }),
    {
        Ipv4Addr { a, b, c, d }
    }

    /// The address `127.0.0.1`.
    pub fn localhost() -> (r: Self)
        ensures
            r == localhost_addr(),
    {
        Ipv4Addr { a: 127, b: 0, c: 0, d: 1 }
    }

    /// Whether the address belongs to `127.0.0.0/8`.
    pub fn is_loopback(&self) -> (r: bool)
        ensures
            r == (self.a == 127),
    {
        self.a == 127
    }
}

/// Whether two addresses are the same address.
pub open spec fn same_ip(x: IpAddr, y: IpAddr) -> bool {
    match (x, y) {
        (IpAddr::V4(p), IpAddr::V4(q)) => p == q,
        (IpAddr::V6(p), IpAddr::V6(q)) => p.groups@ == q.groups@,
        _ => false,
    }
}

/// Whether two socket addresses have the same address, scope and port.
pub open spec fn same_socket(x: SocketAddr, y: SocketAddr) -> bool {
    same_ip(x.ip, y.ip) && x.scope == y.scope && x.port == y.port
}

impl SocketAddr {
    /// A port of an IPv4 address.
    pub fn v4(ip: Ipv4Addr, port: u16) -> (r: Self)
        ensures
            r == (SocketAddr { ip: IpAddr::V4(ip), scope: 0, port }),
    {
        SocketAddr { ip: IpAddr::V4(ip), scope: 0, port }
    }

    /// Whether the address is the given IPv4 address.
    pub fn has_ip(&self, ip: Ipv4Addr) -> (r: bool)
        ensures
            r == (self.ip == IpAddr::V4(ip)),
    {
        match self.ip {
            IpAddr::V4(own) => own == ip,
            IpAddr::V6(_) => false,
        }
    }

    /// Whether two socket addresses are the same.
    pub fn same_as(&self, other: &SocketAddr) -> (r: bool)
        ensures
            r == same_socket(*self, *other),
    {
        if self.scope != other.scope || self.port != other.port {
            return false;
        }
        match (&self.ip, &other.ip) {
            (IpAddr::V4(p), IpAddr::V4(q)) => *p == *q,
            (IpAddr::V6(p), IpAddr::V6(q)) => {
                for i in 0..8usize
                    invariant
                        self.ip == IpAddr::V6(*p),
                        other.ip == IpAddr::V6(*q),
                        forall|j: int| 0 <= j < i ==> p.groups@[j] == q.groups@[j],
                {
                    if p.groups[i] != q.groups[i] {
                        assert(p.groups@[i as int] != q.groups@[i as int]);
                        return false;
                    }
                }
                assert(p.groups@ =~= q.groups@);
                true
            },
            _ => false,
        }
    }
}

// ---------------------------------------------------------------- IPv4 text

/// A decimal number up to 255 without leading zeros.
pub open spec fn octet(s: Seq<char>) -> Option<u8> {
    if 1 <= s.len() <= 3 && all_digits(s) && (s.len() == 1 || s[0] != '0') && decimal_value(s)
        <= 255 {
        Some(decimal_value(s) as u8)
    } else {
        None
    }
}

/// The address that a text such as `10.0.0.2` stands for.
pub open spec fn ipv4(s: Seq<char>) -> Option<Ipv4Addr> {
    let p = split_at_each(s, '.');
    if p.len() == 4 && octet(p[0]) is Some && octet(p[1]) is Some && octet(p[2]) is Some && octet(
        p[3],
    ) is Some {
        Some(
            Ipv4Addr {
                a: octet(p[0])->0,
                b: octet(p[1])->0,
                c: octet(p[2])->0,
                d: octet(p[3])->0,
            },
        )
    } else {
        None
    }
}

fn parse_octet(s: &[char]) -> (r: Option<u8>)
    ensures
        r == octet(s@),
{
    if s.len() < 1 || s.len() > 3 || (s.len() > 1 && s[0] == '0') {
        return None;
    }
    match read_digits(s, 255) {
        Some(n) => Some(n as u8),
        None => None,
    }
}

/// Reads an IPv4 address.
pub fn parse_ipv4(s: &[char]) -> (r: Option<Ipv4Addr>)
    ensures
        r == ipv4(s@),
{
    let p = split(s, '.');
    let ghost v = views(p@);
    if p.len() != 4 {
        return None;
    }
    assert(v[0] == p@[0]@ && v[1] == p@[1]@ && v[2] == p@[2]@ && v[3] == p@[3]@);
    match (parse_octet(p[0]), parse_octet(p[1]), parse_octet(p[2]), parse_octet(p[3])) {
        (Some(a), Some(b), Some(c), Some(d)) => Some(Ipv4Addr { a, b, c, d }),
        _ => None,
    }
}

/// The text `a.b.c.d` of an address.
pub open spec fn ipv4_text(ip: Ipv4Addr) -> Seq<char> {
    decimal(ip.a as nat) + seq!['.'] + decimal(ip.b as nat) + seq!['.'] + decimal(ip.c as nat)
        + seq!['.'] + decimal(ip.d as nat)
}

/// Appends the text of an IPv4 address.
pub fn push_ipv4(out: &mut String, ip: Ipv4Addr)
    ensures
        final(out)@ == old(out)@ + ipv4_text(ip),
{
    push_decimal(out, ip.a as u64);
    out.push('.');
    push_decimal(out, ip.b as u64);
    out.push('.');
    push_decimal(out, ip.c as u64);
    out.push('.');
    push_decimal(out, ip.d as u64);
    assert(out@ =~= old(out)@ + ipv4_text(ip));
}

/// The text of an IPv4 address.
pub fn ipv4_string(ip: Ipv4Addr) -> (r: String)
    ensures
        r@ == ipv4_text(ip),
{
    let mut out = String::new();
    push_ipv4(&mut out, ip);
    assert(Seq::<char>::empty() + ipv4_text(ip) == ipv4_text(ip));
    out
}

// ---------------------------------------------------------------- IPv6 text

pub open spec fn hex_group(s: Seq<char>) -> bool {
    1 <= s.len() <= 4 && all_hex(s)
}

/// The groups that pieces of one to four hexadecimal digits stand for.
pub open spec fn hex_groups(p: Seq<Seq<char>>) -> Option<Seq<u16>> {
    if forall|i: int| 0 <= i < p.len() ==> hex_group(#[trigger] p[i]) {
        Some(Seq::new(p.len(), |i: int| hexadecimal_value(p[i]) as u16))
    } else {
        None
    }
}

/// The two groups of an IPv4 address that ends an IPv6 address.
pub open spec fn embedded(ip: Ipv4Addr) -> Seq<u16> {
    seq![(ip.a * 256 + ip.b) as u16, (ip.c * 256 + ip.d) as u16]
}

/// The groups on one side of `::`, or of a whole address: none in an empty text, and where `tail`
/// holds the last piece may be an IPv4 address.
pub open spec fn side_groups(s: Seq<char>, tail: bool) -> Option<Seq<u16>> {
    let p = split_at_each(s, ':');
    if s.len() == 0 {
        Some(seq![])
    } else if tail && ipv4(p.last()) is Some {
        match hex_groups(p.drop_last()) {
            Some(g) => Some(g + embedded(ipv4(p.last())->0)),
            None => None,
        }
    } else {
        hex_groups(p)
    }
}

/// The index of the first `::`, or the length where there is none.
pub open spec fn gap_of(s: Seq<char>) -> int
    decreases s.len(),
{
    if s.len() < 2 {
        s.len() as int
    } else if s[0] == ':' && s[1] == ':' {
        0
    } else {
        1 + gap_of(s.skip(1))
    }
}

pub open spec fn zeros(n: int) -> Seq<u16> {
    Seq::new(n as nat, |i: int| 0u16)
}

/// The eight groups that an IPv6 text stands for. `::` stands for one zero group or more.
pub open spec fn ipv6(s: Seq<char>) -> Option<Seq<u16>> {
    let k = gap_of(s);
    if k < s.len() {
        match (side_groups(s.take(k), false), side_groups(s.skip(k + 2), true)) {
            (Some(head), Some(tail)) => if head.len() + tail.len() <= 7 {
                Some(head + zeros(8 - head.len() - tail.len()) + tail)
            } else {
                None
            },
            _ => None,
        }
    } else {
        match side_groups(s, true) {
            Some(g) => if g.len() == 8 {
                Some(g)
            } else {
                None
            },
            None => None,
        }
    }
}

fn find_gap(s: &[char]) -> (r: usize)
    ensures
        r == gap_of(s@),
        r <= s.len(),
        r < s.len() ==> r + 2 <= s.len(),
{
    let mut i: usize = 0;
    assert(s@.skip(0) == s@);
    while i < s.len() && s.len() - i > 1 && !(s[i] == ':' && s[i + 1] == ':')
        invariant
            i <= s.len(),
            gap_of(s@) == i + gap_of(s@.skip(i as int)),
        decreases s.len() - i,
    {
        assert(s@.skip(i as int).skip(1) == s@.skip(i + 1));
        i += 1;
    }
    if i < s.len() && s.len() - i > 1 {
        i
    } else {
        s.len()
    }
}

fn parse_side(s: &[char], tail: bool) -> (r: Option<Vec<u16>>)
    ensures
        match r {
            Some(g) => side_groups(s@, tail) == Some(g@),
            None => side_groups(s@, tail) is None,
        },
{
    let mut out: Vec<u16> = Vec::new();
    if s.len() == 0 {
        assert(out@ == Seq::<u16>::empty());
        return Some(out);
    }
    let p = split(s, ':');
    let ghost v = views(p@);
    let last: &[char] = p[p.len() - 1];
    assert(v.last() == last@);
    let end = if tail {
        parse_ipv4(last)
    } else {
        None
    };
    let n: usize = if end.is_some() {
        p.len() - 1
    } else {
        p.len()
    };
    let ghost used = if end is Some {
        v.drop_last()
    } else {
        v
    };
    assert(used.len() == n);
    for i in 0..n
        invariant
            n <= p.len(),
            used.len() == n,
            v == views(p@),
            hex_groups(used) is None ==> side_groups(s@, tail) is None,
            forall|j: int| 0 <= j < n ==> #[trigger] used[j] == v[j],
            out.len() == i,
            forall|j: int| 0 <= j < i ==> hex_group(#[trigger] used[j]),
            forall|j: int| 0 <= j < i ==> #[trigger] out@[j] == hexadecimal_value(used[j]),
    {
        assert(used[i as int] == p@[i as int]@);
        match read_hex_group(p[i]) {
            Some(g) => out.push(g),
            None => {
                assert(!hex_group(used[i as int]));
                return None;
            },
        }
    }
    assert(hex_groups(used) == Some(out@)) by {
        assert(out@ =~= Seq::new(used.len(), |i: int| hexadecimal_value(used[i]) as u16));
    }
    if let Some(ip) = end {
        let ghost before = out@;
        out.push(ip.a as u16 * 256 + ip.b as u16);
        out.push(ip.c as u16 * 256 + ip.d as u16);
        assert(out@ =~= before + embedded(ip));
    }
    Some(out)
}

/// Reads an IPv6 address.
pub fn parse_ipv6(s: &[char]) -> (r: Option<Ipv6Addr>)
    ensures
        match r {
            Some(ip) => ipv6(s@) == Some(ip.groups@),
            None => ipv6(s@) is None,
        },
{
    let k = find_gap(s);
    let mut groups: [u16; 8] = [0; 8];
    if k < s.len() {
        let head_text = slice_subrange(s, 0, k);
        let tail_text = slice_subrange(s, k + 2, s.len());
        assert(head_text@ == s@.take(k as int));
        assert(tail_text@ == s@.skip(k + 2));
        let (head, tail) = match (parse_side(head_text, false), parse_side(tail_text, true)) {
            (Some(head), Some(tail)) => (head, tail),
            _ => return None,
        };
        if head.len() > 7 || tail.len() > 7 - head.len() {
            return None;
        }
        let ghost whole = head@ + zeros(8 - head@.len() - tail@.len()) + tail@;
        for i in 0..8usize
            invariant
                head.len() + tail.len() <= 7,
                whole == head@ + zeros(8 - head@.len() - tail@.len()) + tail@,
                forall|j: int| 0 <= j < i ==> groups@[j] == whole[j],
        {
            let g: u16 = if i < head.len() {
                head[i]
            } else if i < 8 - tail.len() {
                0
            } else {
                tail[i - (8 - tail.len())]
            };
            assert(g == whole[i as int]);
            groups[i] = g;
        }
        assert(groups@ =~= whole);
        Some(Ipv6Addr { groups })
    } else {
        let all = match parse_side(s, true) {
            Some(all) => all,
            None => return None,
        };
        if all.len() != 8 {
            return None;
        }
        for i in 0..8usize
            invariant
                all.len() == 8,
                forall|j: int| 0 <= j < i ==> groups@[j] == all@[j],
        {
            groups[i] = all[i];
        }
        assert(groups@ =~= all@);
        Some(Ipv6Addr { groups })
    }
}

/// Whether a text is an address of either family.
pub open spec fn ip_text(s: Seq<char>) -> bool {
    ipv4(s) is Some || ipv6(s) is Some
}

/// Whether a slice is an address of either family.
pub fn is_ip(s: &[char]) -> (r: bool)
    ensures
        r == ip_text(s@),
{
    parse_ipv4(s).is_some() || parse_ipv6(s).is_some()
}

// ---------------------------------------------------------------- writing IPv6

/// How many zero groups stand in a row from `i` on.
pub open spec fn zero_run(g: Seq<u16>, i: int) -> int
    decreases g.len() - i,
{
    if 0 <= i < g.len() && g[i] == 0 {
        1 + zero_run(g, i + 1)
    } else {
        0
    }
}

/// Start and length of the longest run of zero groups that starts before `n`; the first one
/// where several are equally long.
pub open spec fn longest_run(g: Seq<u16>, n: int) -> (int, int)
    decreases n,
{
    if n <= 0 {
        (0, 0)
    } else {
        let best = longest_run(g, n - 1);
        let run = zero_run(g, n - 1);
        if run > best.1 {
            (n - 1, run)
        } else {
            best
        }
    }
}

/// Groups in hexadecimal, with `:` between them.
pub open spec fn hex_list(g: Seq<u16>) -> Seq<char> {
    join(Seq::new(g.len(), |i: int| hexadecimal(g[i] as nat)), seq![':'])
}

/// Whether the groups hold an IPv4 address under `::ffff:0:0/96`.
pub open spec fn is_mapped(g: Seq<u16>) -> bool {
    g[0] == 0 && g[1] == 0 && g[2] == 0 && g[3] == 0 && g[4] == 0 && g[5] == 0xffff
}

pub open spec fn mapped(g: Seq<u16>) -> Ipv4Addr {
    Ipv4Addr {
        a: (g[6] / 256) as u8,
        b: (g[6] % 256) as u8,
        c: (g[7] / 256) as u8,
        d: (g[7] % 256) as u8,
    }
}

/// The canonical text of an IPv6 address: lower-case hexadecimal, the first longest run of at
/// least two zero groups shortened to `::`, and a mapped IPv4 address in dotted form.
pub open spec fn ipv6_text(g: Seq<u16>) -> Seq<char> {
    let (start, len) = longest_run(g, g.len() as int);
    if is_mapped(g) {
        seq![':', ':', 'f', 'f', 'f', 'f', ':'] + ipv4_text(mapped(g))
    } else if len > 1 {
        hex_list(g.take(start)) + seq![':', ':'] + hex_list(g.skip(start + len))
    } else {
        hex_list(g)
    }
}

fn count_zeros(g: &[u16; 8], i: usize) -> (r: usize)
    requires
        i <= 8,
    ensures
        r == zero_run(g@, i as int),
        r <= 8 - i,
    decreases 8 - i,
{
    if i < 8 && g[i] == 0 {
        1 + count_zeros(g, i + 1)
    } else {
        0
    }
}

proof fn lemma_run_fits(g: Seq<u16>, n: int)
    requires
        0 <= n <= g.len(),
    ensures
        ({
            let (start, len) = longest_run(g, n);
            0 <= start && 0 <= len && start + len <= g.len()
        }),
    decreases n,
{
    if n > 0 {
        lemma_run_fits(g, n - 1);
        lemma_zero_run_fits(g, n - 1);
    }
}

proof fn lemma_zero_run_fits(g: Seq<u16>, i: int)
    requires
        0 <= i <= g.len(),
    ensures
        0 <= zero_run(g, i) <= g.len() - i,
    decreases g.len() - i,
{
    if i < g.len() && g[i] == 0 {
        lemma_zero_run_fits(g, i + 1);
    }
}

fn push_hex_list(out: &mut String, g: &[u16; 8], from: usize, to: usize)
    requires
        from <= to <= 8,
    ensures
        final(out)@ == old(out)@ + hex_list(g@.subrange(from as int, to as int)),
{
    let mut parts: Vec<String> = Vec::new();
    let ghost part = g@.subrange(from as int, to as int);
    for i in from..to
        invariant
            from <= i <= to <= 8,
            part == g@.subrange(from as int, to as int),
            parts.len() == i - from,
            forall|j: int| 0 <= j < i - from ==> #[trigger] parts@[j]@ == hexadecimal(part[j] as nat),
    {
        parts.push(hexadecimal_text(g[i] as u128));
    }
    proof {
        reveal_strlit(":");
        assert(":"@ =~= seq![':']);
        assert(texts(parts@) =~= Seq::new(part.len(), |i: int| hexadecimal(part[i] as nat)));
    }
    out.append(join_texts(&parts, ":").as_str());
}

/// Appends the text of an IPv6 address.
pub fn push_ipv6(out: &mut String, ip: &Ipv6Addr)
    ensures
        final(out)@ == old(out)@ + ipv6_text(ip.groups@),
{
    let g = &ip.groups;
    let ghost start_text = out@;
    if g[0] == 0 && g[1] == 0 && g[2] == 0 && g[3] == 0 && g[4] == 0 && g[5] == 0xffff {
        out.append("::ffff:");
        push_ipv4(
            out,
            Ipv4Addr {
                a: (g[6] / 256) as u8,
                b: (g[6] % 256) as u8,
                c: (g[7] / 256) as u8,
                d: (g[7] % 256) as u8,
            },
        );
        proof {
            reveal_strlit("::ffff:");
            assert("::ffff:"@ =~= seq![':', ':', 'f', 'f', 'f', 'f', ':']);
            assert(out@ =~= start_text + ipv6_text(ip.groups@));
        }
        return;
    }
    let mut start: usize = 0;
    let mut len: usize = 0;
    for i in 0..8usize
        invariant
            longest_run(g@, i as int) == (start as int, len as int),
            len <= 8,
            start <= 8,
    {
        let run = count_zeros(g, i);
        if run > len {
            start = i;
            len = run;
        }
    }
    proof {
        lemma_run_fits(g@, 8);
    }
    if len > 1 {
        push_hex_list(out, g, 0, start);
        out.append("::");
        push_hex_list(out, g, start + len, 8);
        proof {
            reveal_strlit("::");
            assert("::"@ =~= seq![':', ':']);
            assert(g@.subrange(0, start as int) =~= g@.take(start as int));
            assert(g@.subrange(start + len, 8) =~= g@.skip(start + len));
            assert(out@ =~= start_text + ipv6_text(ip.groups@));
        }
    } else {
        push_hex_list(out, g, 0, 8);
        assert(g@.subrange(0, 8) =~= g@);
    }
}

// ---------------------------------------------------------------- socket addresses

/// A port: decimal digits for a number up to 65535.
pub open spec fn port(s: Seq<char>) -> Option<u16> {
    if s.len() > 0 && all_digits(s) && decimal_value(s) <= 0xffff {
        Some(decimal_value(s) as u16)
    } else {
        None
    }
}

/// The number of a scope.
pub open spec fn scope(s: Seq<char>) -> Option<u32> {
    if s.len() > 0 && all_digits(s) && decimal_value(s) <= 0xffff_ffff {
        Some(decimal_value(s) as u32)
    } else {
        None
    }
}

/// What stands between `[` and `]`: an IPv6 address, and a scope where a `%` announces one.
pub open spec fn bracketed(s: Seq<char>) -> Option<(Seq<u16>, u32)> {
    let i = index_of(s, '%');
    if 0 <= i < s.len() {
        match (ipv6(s.take(i)), scope(s.skip(i + 1))) {
            (Some(g), Some(n)) => Some((g, n)),
            _ => None,
        }
    } else {
        match ipv6(s) {
            Some(g) => Some((g, 0)),
            None => None,
        }
    }
}

/// Whether a text such as `127.0.0.1:51820` or `[::1]:51820` stands for a socket address.
pub open spec fn socket_text(s: Seq<char>, x: SocketAddr) -> bool {
    match x.ip {
        IpAddr::V4(ip) => {
            let i = index_of(s, ':');
            &&& 0 <= i < s.len()
            &&& ipv4(s.take(i)) == Some(ip)
            &&& port(s.skip(i + 1)) == Some(x.port)
            &&& x.scope == 0
        },
        IpAddr::V6(ip) => {
            let i = index_of(s, ']');
            &&& s.len() > 0 && s[0] == '['
            &&& 1 <= i && i + 1 < s.len() && s[i + 1] == ':'
            &&& bracketed(s.subrange(1, i)) == Some((ip.groups@, x.scope))
            &&& port(s.skip(i + 2)) == Some(x.port)
        },
    }
}

fn parse_port(s: &[char]) -> (r: Option<u16>)
    ensures
        r == port(s@),
{
    if s.len() == 0 {
        return None;
    }
    match read_digits(s, 0xffff) {
        Some(n) => Some(n as u16),
        None => None,
    }
}

fn parse_scope(s: &[char]) -> (r: Option<u32>)
    ensures
        r == scope(s@),
{
    if s.len() == 0 {
        return None;
    }
    match read_digits(s, 0xffff_ffff) {
        Some(n) => Some(n as u32),
        None => None,
    }
}

fn parse_bracketed(s: &[char]) -> (r: Option<(Ipv6Addr, u32)>)
    ensures
        match r {
            Some((ip, n)) => bracketed(s@) == Some((ip.groups@, n)),
            None => bracketed(s@) is None,
        },
{
    let i = find(s, '%');
    if i < s.len() {
        let head = slice_subrange(s, 0, i);
        let tail = slice_subrange(s, i + 1, s.len());
        assert(head@ == s@.take(i as int));
        assert(tail@ == s@.skip(i + 1));
        match (parse_ipv6(head), parse_scope(tail)) {
            (Some(ip), Some(n)) => Some((ip, n)),
            _ => None,
        }
    } else {
        match parse_ipv6(s) {
            Some(ip) => Some((ip, 0)),
            None => None,
        }
    }
}

proof fn lemma_ipv4_starts_with_digit(s: Seq<char>)
    requires
        ipv4(s) is Some,
    ensures
        s.len() > 0 && crate::text::digit(s[0]),
{
    let p = split_at_each(s, '.');
    lemma_index_of_first(s, '.');
    let i = index_of(s, '.');
    if 0 <= i < s.len() {
        assert(p[0] == s.take(i));
    } else {
        assert(p[0] == s);
    }
    assert(p[0].len() > 0);
    assert(crate::text::digit(p[0][0]));
    assert(p[0][0] == s[0]);
}

/// The socket address that a text stands for.
pub open spec fn socket(s: Seq<char>) -> Option<SocketAddr> {
    if exists|x: SocketAddr| socket_text(s, x) {
        Some(choose|x: SocketAddr| socket_text(s, x))
    } else {
        None
    }
}

/// A text stands for one socket address at most.
pub proof fn socket_text_is_unambiguous(s: Seq<char>, x: SocketAddr, y: SocketAddr)
    requires
        socket_text(s, x),
        socket_text(s, y),
    ensures
        x == y,
{
    match (x.ip, y.ip) {
        (IpAddr::V4(p), IpAddr::V4(q)) => {},
        (IpAddr::V6(p), IpAddr::V6(q)) => {
            assert(p.groups =~= q.groups);
        },
        (IpAddr::V4(p), IpAddr::V6(q)) => {
            let k = index_of(s, ':');
            lemma_ipv4_starts_with_digit(s.take(k));
            assert(s.take(k)[0] == s[0]);
        },
        (IpAddr::V6(p), IpAddr::V4(q)) => {
            let k = index_of(s, ':');
            lemma_ipv4_starts_with_digit(s.take(k));
            assert(s.take(k)[0] == s[0]);
        },
    }
}

/// Reads a socket address.
pub fn parse_socket(s: &[char]) -> (r: Option<SocketAddr>)
    ensures
        r == socket(s@),
{
    let r = read_socket(s);
    proof {
        if let Some(x) = r {
            socket_text_is_unambiguous(s@, x, choose|y: SocketAddr| socket_text(s@, y));
        }
    }
    r
}

fn read_socket(s: &[char]) -> (r: Option<SocketAddr>)
    ensures
        match r {
            Some(x) => socket_text(s@, x),
            None => forall|x: SocketAddr| !socket_text(s@, x),
        },
{
    if s.len() > 0 && s[0] == '[' {
        let i = find(s, ']');
        proof {
            lemma_index_of_first(s@, ']');
            assert forall|x: SocketAddr| x.ip is V4 implies !socket_text(s@, x) by {
                let k = index_of(s@, ':');
                if 0 <= k < s@.len() && ipv4(s@.take(k)) is Some {
                    lemma_ipv4_starts_with_digit(s@.take(k));
                    assert(s@.take(k)[0] == s@[0]);
                }
            }
        }
        if s.len() < 2 || i >= s.len() - 1 || s[i + 1] != ':' {
            return None;
        }
        let inner = slice_subrange(s, 1, i);
        let end = slice_subrange(s, i + 2, s.len());
        assert(inner@ == s@.subrange(1, i as int));
        assert(end@ == s@.skip(i + 2));
        match (parse_bracketed(inner), parse_port(end)) {
            (Some((ip, scope)), Some(port)) => Some(SocketAddr { ip: IpAddr::V6(ip), scope, port }),
            _ => None,
        }
    } else {
        let i = find(s, ':');
        if i >= s.len() {
            return None;
        }
        let head = slice_subrange(s, 0, i);
        let end = slice_subrange(s, i + 1, s.len());
        assert(head@ == s@.take(i as int));
        assert(end@ == s@.skip(i + 1));
        match (parse_ipv4(head), parse_port(end)) {
            (Some(ip), Some(port)) => Some(SocketAddr { ip: IpAddr::V4(ip), scope: 0, port }),
            _ => None,
        }
    }
}

/// The text of a socket address.
pub open spec fn socket_string(x: SocketAddr) -> Seq<char> {
    let tail = seq![':'] + decimal(x.port as nat);
    match x.ip {
        IpAddr::V4(ip) => ipv4_text(ip) + tail,
        IpAddr::V6(ip) => if x.scope == 0 {
            seq!['['] + ipv6_text(ip.groups@) + seq![']'] + tail
        } else {
            seq!['['] + ipv6_text(ip.groups@) + seq!['%'] + decimal(x.scope as nat) + seq![']']
                + tail
        },
    }
}

/// Writes a socket address.
pub fn socket_to_text(x: &SocketAddr) -> (r: String)
    ensures
        r@ == socket_string(*x),
{
    let mut out = String::new();
    match &x.ip {
        IpAddr::V4(ip) => {
            push_ipv4(&mut out, *ip);
        },
        IpAddr::V6(ip) => {
            out.push('[');
            push_ipv6(&mut out, ip);
            if x.scope != 0 {
                out.push('%');
                push_decimal(&mut out, x.scope as u64);
            }
            out.push(']');
        },
    }
    out.push(':');
    push_decimal(&mut out, x.port as u64);
    assert(out@ =~= socket_string(*x));
    out
}

// ---------------------------------------------------------------- what addresses are made of

/// The characters that the texts of addresses are made of.
pub open spec fn address_char(c: char) -> bool {
    hex_digit(c) || c == '.' || c == ':' || c == '[' || c == ']' || c == '%'
}

pub open spec fn address_chars(s: Seq<char>) -> bool {
    forall|i: int| 0 <= i < s.len() ==> address_char(#[trigger] s[i])
}

proof fn lemma_decimal_chars(n: nat)
    ensures
        address_chars(decimal(n)),
        decimal(n).len() > 0,
{
    decimal_round_trip(n);
    assert forall|i: int| 0 <= i < decimal(n).len() implies address_char(
        #[trigger] decimal(n)[i],
    ) by {
        assert(digit(decimal(n)[i]));
    }
}

proof fn lemma_ipv4_chars(ip: Ipv4Addr)
    ensures
        address_chars(ipv4_text(ip)),
{
    lemma_decimal_chars(ip.a as nat);
    lemma_decimal_chars(ip.b as nat);
    lemma_decimal_chars(ip.c as nat);
    lemma_decimal_chars(ip.d as nat);
}

proof fn lemma_joined_chars(parts: Seq<Seq<char>>)
    requires
        forall|i: int| 0 <= i < parts.len() ==> address_chars(#[trigger] parts[i]),
    ensures
        address_chars(join(parts, seq![':'])),
    decreases parts.len(),
{
    if parts.len() == 1 {
        assert(address_chars(parts[0]));
    } else if parts.len() > 1 {
        let head = parts.drop_last();
        assert forall|i: int| 0 <= i < head.len() implies address_chars(#[trigger] head[i]) by {
            assert(head[i] == parts[i]);
        }
        lemma_joined_chars(head);
        assert(address_chars(parts[parts.len() - 1]));
    }
}

proof fn lemma_hex_list_chars(g: Seq<u16>)
    ensures
        address_chars(hex_list(g)),
{
    let parts = Seq::new(g.len(), |i: int| hexadecimal(g[i] as nat));
    assert forall|i: int| 0 <= i < parts.len() implies address_chars(#[trigger] parts[i]) by {
        hexadecimal_is_hex(g[i] as nat);
        assert forall|j: int| 0 <= j < parts[i].len() implies address_char(
            #[trigger] parts[i][j],
        ) by {
            assert(hex_digit(hexadecimal(g[i] as nat)[j]));
        }
    }
    lemma_joined_chars(parts);
}

proof fn lemma_ipv6_chars(g: Seq<u16>)
    ensures
        address_chars(ipv6_text(g)),
{
    let (start, len) = longest_run(g, g.len() as int);
    lemma_ipv4_chars(mapped(g));
    lemma_hex_list_chars(g.take(start));
    lemma_hex_list_chars(g.skip(start + len));
    lemma_hex_list_chars(g);
}

/// The text of a socket address is never empty, and holds nothing but the characters of addresses.
pub proof fn socket_strings_are_plain(x: SocketAddr)
    ensures
        socket_string(x).len() > 0,
        address_chars(socket_string(x)),
{
    lemma_decimal_chars(x.port as nat);
    lemma_decimal_chars(x.scope as nat);
    match x.ip {
        IpAddr::V4(ip) => lemma_ipv4_chars(ip),
        IpAddr::V6(ip) => lemma_ipv6_chars(ip.groups@),
    }
}

// ---------------------------------------------------------------- addresses and their texts

proof fn lemma_octet(n: u8, s: Seq<char>)
    ensures
        octet(s) == Some(n) <==> s == decimal(n as nat),
{
    decimal_round_trip(n as nat);
    let d = decimal(n as nat);
    assert(1 <= d.len() <= 3) by {
        reveal_with_fuel(decimal, 3);
    }
    if n < 10 {
        assert(d.len() == 1);
    }
    if octet(s) == Some(n) {
        crate::numbers::digits_are_written_again(s);
    }
}

/// A text stands for an IPv4 address exactly where it is the four numbers of the address with dots
/// between them.
pub proof fn ipv4_addresses_are_their_texts(s: Seq<char>, ip: Ipv4Addr)
    ensures
        ipv4(s) == Some(ip) <==> s == decimal(ip.a as nat) + seq!['.'] + decimal(ip.b as nat)
            + seq!['.'] + decimal(ip.c as nat) + seq!['.'] + decimal(ip.d as nat),
        ipv4(ipv4_text(ip)) == Some(ip),
{
    let parts = seq![
        decimal(ip.a as nat),
        decimal(ip.b as nat),
        decimal(ip.c as nat),
        decimal(ip.d as nat),
    ];
    let text = decimal(ip.a as nat) + seq!['.'] + decimal(ip.b as nat) + seq!['.'] + decimal(
        ip.c as nat,
    ) + seq!['.'] + decimal(ip.d as nat);
    assert forall|i: int| 0 <= i < parts.len() implies crate::pieces::lacks(
        #[trigger] parts[i],
        '.',
    ) by {
        let n = if i == 0 {
            ip.a
        } else if i == 1 {
            ip.b
        } else if i == 2 {
            ip.c
        } else {
            ip.d
        };
        decimal_round_trip(n as nat);
        assert(parts[i] == decimal(n as nat));
        assert forall|j: int| 0 <= j < parts[i].len() implies #[trigger] parts[i][j] != '.' by {
            assert(digit(decimal(n as nat)[j]));
        }
    }
    lemma_four_joined(parts);
    crate::pieces::joined_pieces_are_taken_apart(parts, '.');
    lemma_octet(ip.a, parts[0]);
    lemma_octet(ip.b, parts[1]);
    lemma_octet(ip.c, parts[2]);
    lemma_octet(ip.d, parts[3]);
    assert(ipv4(text) == Some(ip));
    if ipv4(s) == Some(ip) {
        let p = split_at_each(s, '.');
        lemma_octet(ip.a, p[0]);
        lemma_octet(ip.b, p[1]);
        lemma_octet(ip.c, p[2]);
        lemma_octet(ip.d, p[3]);
        assert(p =~= parts);
        crate::pieces::pieces_are_joined_again(s, '.');
    }
}

proof fn lemma_four_joined(p: Seq<Seq<char>>)
    requires
        p.len() == 4,
    ensures
        join(p, seq!['.']) == p[0] + seq!['.'] + p[1] + seq!['.'] + p[2] + seq!['.'] + p[3],
{
    reveal_with_fuel(join, 5);
    let q = p.drop_last();
    let r = q.drop_last();
    assert(r.drop_last().len() == 1);
    assert(r.drop_last()[0] == p[0]);
}

/// A text stands for a port of an IPv4 address exactly where the address, a colon and digits for the
/// port are what it is made of; what is written of one is read back.
pub proof fn ipv4_sockets_are_read_back(ip: Ipv4Addr, port_number: u16)
    ensures
        ({
            let x = SocketAddr { ip: IpAddr::V4(ip), scope: 0, port: port_number };
            &&& socket_string(x) == ipv4_text(ip) + seq![':'] + decimal(port_number as nat)
            &&& socket(socket_string(x)) == Some(x)
        }),
{
    let x = SocketAddr { ip: IpAddr::V4(ip), scope: 0, port: port_number };
    let s = socket_string(x);
    let head = ipv4_text(ip);
    let n = head.len() as int;
    assert(s =~= ipv4_text(ip) + seq![':'] + decimal(port_number as nat));
    ipv4_addresses_are_their_texts(head, ip);
    lemma_ipv4_is_dotted(ip);
    decimal_round_trip(port_number as nat);
    assert forall|i: int| 0 <= i < n implies #[trigger] s[i] != ':' by {
        assert(s[i] == head[i]);
    }
    crate::pieces::lemma_index_of_is(s, ':', n);
    assert(s.take(n) =~= head);
    assert(s.skip(n + 1) =~= decimal(port_number as nat));
    assert(socket_text(s, x));
    socket_text_is_unambiguous(s, x, choose|y: SocketAddr| socket_text(s, y));
}

proof fn lemma_ipv4_is_dotted(ip: Ipv4Addr)
    ensures
        forall|i: int| 0 <= i < ipv4_text(ip).len() ==> #[trigger] ipv4_text(ip)[i] != ':',
{
    decimal_round_trip(ip.a as nat);
    decimal_round_trip(ip.b as nat);
    decimal_round_trip(ip.c as nat);
    decimal_round_trip(ip.d as nat);
    let s = ipv4_text(ip);
    let a = decimal(ip.a as nat).len() as int;
    let b = a + 1 + decimal(ip.b as nat).len();
    let c = b + 1 + decimal(ip.c as nat).len();
    assert forall|i: int| 0 <= i < s.len() implies #[trigger] s[i] != ':' by {
        if i < a {
            assert(digit(decimal(ip.a as nat)[i]));
        } else if i == a {
        } else if i < b {
            assert(digit(decimal(ip.b as nat)[i - a - 1]));
        } else if i == b {
        } else if i < c {
            assert(digit(decimal(ip.c as nat)[i - b - 1]));
        } else if i > c {
            assert(digit(decimal(ip.d as nat)[i - c - 1]));
        }
    }
}

/// What a text has to be to stand for a port of an IPv4 address.
pub proof fn sockets_are_addresses_with_ports(s: Seq<char>, x: SocketAddr)
    requires
        socket(s) == Some(x),
        x.ip is V4,
    ensures
        x.scope == 0,
        exists|digits: Seq<char>| #[trigger]
            all_digits(digits) && digits.len() > 0 && decimal_value(digits) == x.port && s
                == ipv4_text(x.ip->V4_0) + seq![':'] + digits,
{
    let i = index_of(s, ':');
    lemma_index_of_first(s, ':');
    assert(socket_text(s, x));
    ipv4_addresses_are_their_texts(s.take(i), x.ip->V4_0);
    let digits = s.skip(i + 1);
    assert(s =~= s.take(i) + seq![':'] + digits);
    assert(all_digits(digits) && s == ipv4_text(x.ip->V4_0) + seq![':'] + digits);
}

/// Two addresses are the same where their families and their numbers are; a socket address has a
/// scope and a port beside.
pub proof fn same_addresses(x: SocketAddr, y: SocketAddr)
    ensures
        same_socket(x, x),
        same_socket(x, y) ==> x.port == y.port && x.scope == y.scope && (x.ip is V4 <==> y.ip is V4),
        same_socket(x, y) && x.ip is V4 ==> x == y,
        same_socket(x, y) && x.ip is V6 ==> x.ip->V6_0.groups@ == y.ip->V6_0.groups@,
        x == y ==> same_socket(x, y),
        x.port == y.port && x.scope == y.scope && x.ip is V6 && y.ip is V6
            && x.ip->V6_0.groups@ == y.ip->V6_0.groups@ ==> same_socket(x, y),
{
}

// ---------------------------------------------------------------- IPv6 addresses and their texts

/// Whether a text begins and ends with something else than a colon, and holds no two in a row.
spec fn spaced(s: Seq<char>) -> bool {
    &&& s.len() > 0 && s[0] != ':' && s[s.len() - 1] != ':'
    &&& forall|i: int| 0 <= i < s.len() - 1 ==> !(#[trigger] s[i] == ':' && s[i + 1] == ':')
}

proof fn lemma_gap_is(s: Seq<char>, i: int)
    requires
        0 <= i <= s.len(),
        forall|j: int| 0 <= j < i && j + 1 < s.len() ==> !(#[trigger] s[j] == ':' && s[j + 1] == ':'),
        i < s.len() ==> i + 1 < s.len() && s[i] == ':' && s[i + 1] == ':',
    ensures
        gap_of(s) == i,
    decreases s.len(),
{
    if s.len() >= 2 && i > 0 {
        assert(!(s[0] == ':' && s[1] == ':'));
        let rest = s.skip(1);
        assert forall|j: int| 0 <= j < i - 1 && j + 1 < rest.len() implies !(#[trigger] rest[j] == ':'
            && rest[j + 1] == ':') by {
            assert(rest[j] == s[j + 1] && rest[j + 1] == s[j + 2]);
        }
        lemma_gap_is(rest, i - 1);
    }
}

spec fn hex_parts(g: Seq<u16>) -> Seq<Seq<char>> {
    Seq::new(g.len(), |i: int| hexadecimal(g[i] as nat))
}

proof fn lemma_hex_part(n: u16)
    ensures
        ({
            let s = hexadecimal(n as nat);
            &&& hex_group(s)
            &&& hexadecimal_value(s) == n
            &&& forall|i: int| 0 <= i < s.len() ==> hex_digit(#[trigger] s[i])
            &&& crate::pieces::lacks(s, ':')
            &&& crate::pieces::lacks(s, '.')
        }),
{
    crate::numbers::hexadecimal_round_trip(n as nat);
    hexadecimal_is_hex(n as nat);
    crate::numbers::small_numbers_have_few_digits(n as nat);
    let s = hexadecimal(n as nat);
    assert forall|i: int| 0 <= i < s.len() implies #[trigger] s[i] != ':' && s[i] != '.' by {
        assert(hex_digit(s[i]));
    }
}

proof fn lemma_hex_list_is_spaced(g: Seq<u16>)
    requires
        g.len() > 0,
    ensures
        spaced(hex_list(g)),
        forall|i: int|
            0 <= i < hex_list(g).len() ==> (#[trigger] hex_list(g)[i] == ':' || hex_digit(
                hex_list(g)[i],
            )),
    decreases g.len(),
{
    let parts = hex_parts(g);
    lemma_hex_part(g.last());
    let last = hexadecimal(g.last() as nat);
    if g.len() == 1 {
        assert(hex_list(g) =~= last);
        assert forall|i: int| 0 <= i < last.len() - 1 implies !(#[trigger] last[i] == ':' && last[i
            + 1] == ':') by {
            assert(hex_digit(last[i]));
        }
        assert(hex_digit(last[0]) && hex_digit(last[last.len() - 1]));
    } else {
        let head = g.drop_last();
        lemma_hex_list_is_spaced(head);
        let h = hex_list(head);
        let s = hex_list(g);
        assert(parts.drop_last() =~= hex_parts(head));
        assert(s =~= h + seq![':'] + last);
        let n = h.len() as int;
        assert forall|i: int| 0 <= i < s.len() - 1 implies !(#[trigger] s[i] == ':' && s[i + 1]
            == ':') by {
            if i < n - 1 {
                assert(s[i] == h[i] && s[i + 1] == h[i + 1]);
            } else if i == n - 1 {
                assert(s[i] == h[n - 1]);
            } else if i == n {
                assert(s[i + 1] == last[0]);
                assert(hex_digit(last[0]));
            } else {
                assert(s[i] == last[i - n - 1]);
                assert(hex_digit(last[i - n - 1]));
            }
        }
        assert(s[0] == h[0]);
        assert(s[s.len() - 1] == last[last.len() - 1]);
        assert(hex_digit(last[last.len() - 1]));
        assert forall|i: int| 0 <= i < s.len() implies (#[trigger] s[i] == ':' || hex_digit(s[i])) by {
            if i < n {
                assert(s[i] == h[i]);
            } else if i > n {
                assert(s[i] == last[i - n - 1]);
            }
        }
    }
}

proof fn lemma_side_of_list(g: Seq<u16>, tail: bool)
    ensures
        side_groups(hex_list(g), tail) == Some(g),
{
    let parts = hex_parts(g);
    let s = hex_list(g);
    if g.len() == 0 {
        assert(s =~= Seq::<char>::empty());
        assert(g =~= Seq::<u16>::empty());
    } else {
        lemma_hex_list_is_spaced(g);
        assert forall|i: int| 0 <= i < parts.len() implies crate::pieces::lacks(
            #[trigger] parts[i],
            ':',
        ) && hex_group(parts[i]) by {
            lemma_hex_part(g[i]);
        }
        crate::pieces::joined_pieces_are_taken_apart(parts, ':');
        assert(split_at_each(s, ':') == parts);
        let last = parts.last();
        lemma_hex_part(g.last());
        assert(last == hexadecimal(g.last() as nat));
        crate::pieces::pieces_are_joined_again(last, '.');
        assert(ipv4(last) is None) by {
            crate::pieces::lemma_index_of_first(last, '.');
            if index_of(last, '.') < last.len() {
                assert(last[index_of(last, '.')] != '.');
            }
            assert(split_at_each(last, '.').len() == 1);
        }
        assert(hex_groups(parts) is Some);
        assert(hex_groups(parts)->0 =~= g) by {
            assert forall|i: int| 0 <= i < g.len() implies hex_groups(parts)->0[i] == g[i] by {
                lemma_hex_part(g[i]);
                assert(parts[i] == hexadecimal(g[i] as nat));
            }
        }
    }
}

proof fn lemma_run_is_zero(g: Seq<u16>, i: int)
    requires
        0 <= i <= g.len(),
    ensures
        0 <= zero_run(g, i) <= g.len() - i,
        forall|j: int| i <= j < i + zero_run(g, i) ==> #[trigger] g[j] == 0,
    decreases g.len() - i,
{
    if i < g.len() && g[i] == 0 {
        lemma_run_is_zero(g, i + 1);
    }
}

proof fn lemma_longest_is_zero(g: Seq<u16>, n: int)
    requires
        0 <= n <= g.len(),
    ensures
        ({
            let (start, len) = longest_run(g, n);
            &&& 0 <= start && 0 <= len && start + len <= g.len()
            &&& forall|j: int| start <= j < start + len ==> #[trigger] g[j] == 0
        }),
    decreases n,
{
    if n > 0 {
        lemma_longest_is_zero(g, n - 1);
        lemma_run_is_zero(g, n - 1);
    }
}

/// What is written of an IPv6 address is read back as the same address.
pub proof fn ipv6_addresses_are_read_back(g: Seq<u16>)
    requires
        g.len() == 8,
    ensures
        ipv6(ipv6_text(g)) == Some(g),
{
    let (start, len) = longest_run(g, 8);
    lemma_longest_is_zero(g, 8);
    let s = ipv6_text(g);
    if is_mapped(g) {
        lemma_mapped_is_read_back(g);
    } else if len > 1 {
        let head = g.take(start);
        let tail = g.skip(start + len);
        let h = hex_list(head);
        let t = hex_list(tail);
        let k = h.len() as int;
        lemma_side_of_list(head, false);
        lemma_side_of_list(tail, true);
        if head.len() > 0 {
            lemma_hex_list_is_spaced(head);
        } else {
            assert(h =~= Seq::<char>::empty());
        }
        assert(s =~= h + seq![':', ':'] + t);
        assert forall|j: int| 0 <= j < k && j + 1 < s.len() implies !(#[trigger] s[j] == ':' && s[j + 1]
            == ':') by {
            assert(s[j] == h[j]);
            if j + 1 < k {
                assert(s[j + 1] == h[j + 1]);
            }
        }
        lemma_gap_is(s, k);
        assert(s.take(k) =~= h);
        assert(s.skip(k + 2) =~= t);
        assert(head + zeros(8 - head.len() - tail.len()) + tail =~= g);
    } else {
        lemma_hex_list_is_spaced(g);
        lemma_side_of_list(g, true);
        assert forall|j: int| 0 <= j < s.len() && j + 1 < s.len() implies !(#[trigger] s[j] == ':'
            && s[j + 1] == ':') by {}
        lemma_gap_is(s, s.len() as int);
    }
}

proof fn lemma_mapped_is_read_back(g: Seq<u16>)
    requires
        g.len() == 8,
        is_mapped(g),
    ensures
        ipv6(ipv6_text(g)) == Some(g),
{
    let s = ipv6_text(g);
    let ip = mapped(g);
    let dotted = ipv4_text(ip);
    let f = seq!['f', 'f', 'f', 'f'];
    lemma_gap_is(s, 0);
    assert(s.take(0) =~= Seq::<char>::empty());
    let rest = s.skip(2);
    assert(rest =~= f + seq![':'] + dotted);
    lemma_ipv4_is_dotted(ip);
    ipv4_addresses_are_their_texts(dotted, ip);
    let parts = seq![f, dotted];
    assert forall|i: int| 0 <= i < parts.len() implies crate::pieces::lacks(
        #[trigger] parts[i],
        ':',
    ) by {}
    crate::pieces::joined_pieces_are_taken_apart(parts, ':');
    assert(join(parts, seq![':']) =~= rest) by {
        reveal_with_fuel(join, 3);
        assert(parts.drop_last() =~= seq![f]);
    }
    assert(split_at_each(rest, ':') == parts);
    assert(parts.last() == dotted);
    assert(parts.drop_last() =~= seq![f]);
    let one = seq![f];
    assert(hex_group(f));
    assert forall|i: int| 0 <= i < one.len() implies hex_group(#[trigger] one[i]) by {}
    assert(hexadecimal_value(f) == 0xffff) by {
        reveal_with_fuel(hexadecimal_value, 5);
        assert(f.drop_last() =~= seq!['f', 'f', 'f']);
        assert(seq!['f', 'f', 'f'].drop_last() =~= seq!['f', 'f']);
        assert(seq!['f', 'f'].drop_last() =~= seq!['f']);
        assert(seq!['f'].drop_last() =~= Seq::<char>::empty());
    }
    assert(hex_groups(one)->0 =~= seq![0xffffu16]);
    assert(embedded(ip) =~= seq![g[6], g[7]]);
    let tail = seq![0xffffu16] + embedded(ip);
    assert(side_groups(rest, true) == Some(tail));
    assert(Seq::<u16>::empty() + zeros(5) + tail =~= g);
}

proof fn lemma_ipv6_is_plain(g: Seq<u16>)
    requires
        g.len() == 8,
    ensures
        crate::pieces::lacks(ipv6_text(g), ']'),
        crate::pieces::lacks(ipv6_text(g), '%'),
{
    let (start, len) = longest_run(g, 8);
    lemma_longest_is_zero(g, 8);
    let s = ipv6_text(g);
    if is_mapped(g) {
        lemma_ipv4_has_no_brackets(mapped(g));
    } else if len > 1 {
        let head = g.take(start);
        let tail = g.skip(start + len);
        if head.len() > 0 {
            lemma_hex_list_is_spaced(head);
        }
        if tail.len() > 0 {
            lemma_hex_list_is_spaced(tail);
        }
        let h = hex_list(head);
        let t = hex_list(tail);
        assert forall|i: int| 0 <= i < s.len() implies #[trigger] s[i] != ']' && s[i] != '%' by {
            if i < h.len() {
                assert(s[i] == h[i]);
            } else if i >= h.len() + 2 {
                assert(s[i] == t[i - h.len() - 2]);
            }
        }
    } else {
        lemma_hex_list_is_spaced(g);
    }
}

proof fn lemma_ipv4_has_no_brackets(ip: Ipv4Addr)
    ensures
        crate::pieces::lacks(ipv4_text(ip), ']'),
        crate::pieces::lacks(ipv4_text(ip), '%'),
{
    decimal_round_trip(ip.a as nat);
    decimal_round_trip(ip.b as nat);
    decimal_round_trip(ip.c as nat);
    decimal_round_trip(ip.d as nat);
    let s = ipv4_text(ip);
    let a = decimal(ip.a as nat).len() as int;
    let b = a + 1 + decimal(ip.b as nat).len();
    let c = b + 1 + decimal(ip.c as nat).len();
    assert forall|i: int| 0 <= i < s.len() implies #[trigger] s[i] != ']' && s[i] != '%' by {
        if i < a {
            assert(digit(decimal(ip.a as nat)[i]));
        } else if i == a {
        } else if i < b {
            assert(digit(decimal(ip.b as nat)[i - a - 1]));
        } else if i == b {
        } else if i < c {
            assert(digit(decimal(ip.c as nat)[i - b - 1]));
        } else if i > c {
            assert(digit(decimal(ip.d as nat)[i - c - 1]));
        }
    }
}

/// What is written of a socket address is read back as the same, for either family and with a scope
/// or without.
pub proof fn sockets_are_read_back(x: SocketAddr)
    requires
        x.ip is V4 ==> x.scope == 0,
    ensures
        socket(socket_string(x)) == Some(x),
{
    match x.ip {
        IpAddr::V4(ip) => {
            ipv4_sockets_are_read_back(ip, x.port);
        },
        IpAddr::V6(ip) => {
            let g = ip.groups@;
            let s = socket_string(x);
            let inner = if x.scope == 0 {
                ipv6_text(g)
            } else {
                ipv6_text(g) + seq!['%'] + decimal(x.scope as nat)
            };
            let digits = decimal(x.port as nat);
            assert(s =~= seq!['['] + inner + seq![']'] + seq![':'] + digits);
            lemma_ipv6_is_plain(g);
            ipv6_addresses_are_read_back(g);
            decimal_round_trip(x.port as nat);
            decimal_round_trip(x.scope as nat);
            let n = inner.len() as int;
            let m = ipv6_text(g).len() as int;
            assert forall|i: int| 0 <= i < n + 1 implies #[trigger] s[i] != ']' by {
                if i > 0 {
                    assert(s[i] == inner[i - 1]);
                    if i - 1 < m {
                        assert(inner[i - 1] == ipv6_text(g)[i - 1]);
                    } else if i - 1 > m {
                        assert(inner[i - 1] == decimal(x.scope as nat)[i - 2 - m]);
                        assert(digit(decimal(x.scope as nat)[i - 2 - m]));
                    }
                }
            }
            crate::pieces::lemma_index_of_is(s, ']', n + 1);
            assert(s.subrange(1, n + 1) =~= inner);
            assert(s.skip(n + 3) =~= digits);
            assert(s[n + 2] == ':');
            if x.scope == 0 {
                crate::pieces::lemma_index_of_is(inner, '%', n);
            } else {
                assert forall|i: int| 0 <= i < m implies #[trigger] inner[i] != '%' by {
                    assert(inner[i] == ipv6_text(g)[i]);
                }
                crate::pieces::lemma_index_of_is(inner, '%', m);
                assert(inner.take(m) =~= ipv6_text(g));
                assert(inner.skip(m + 1) =~= decimal(x.scope as nat));
            }
            assert(bracketed(inner) == Some((g, x.scope)));
            assert(socket_text(s, x));
            socket_text_is_unambiguous(s, x, choose|y: SocketAddr| socket_text(s, y));
        },
    }
}

/// Whether each piece is one to four hexadecimal digits.
pub open spec fn are_groups(p: Seq<Seq<char>>) -> bool {
    forall|i: int|
        0 <= i < p.len() ==> 1 <= (#[trigger] p[i]).len() <= 4 && forall|j: int|
            0 <= j < p[i].len() ==> ('0' <= #[trigger] p[i][j] <= '9' || 'a' <= p[i][j] <= 'f' || 'A'
                <= p[i][j] <= 'F')
}

/// The numbers that pieces of hexadecimal digits stand for.
pub open spec fn group_values(p: Seq<Seq<char>>) -> Seq<u16> {
    Seq::new(p.len(), |i: int| hexadecimal_value(p[i]) as u16)
}

proof fn lemma_groups(p: Seq<Seq<char>>)
    requires
        are_groups(p),
    ensures
        hex_groups(p) == Some(group_values(p)),
        forall|i: int|
            0 <= i < p.len() ==> hex_group(#[trigger] p[i]) && crate::pieces::lacks(p[i], ':')
                && crate::pieces::lacks(p[i], '.'),
{
    assert forall|i: int| 0 <= i < p.len() implies hex_group(#[trigger] p[i])
        && crate::pieces::lacks(p[i], ':') && crate::pieces::lacks(p[i], '.') by {
        assert forall|j: int| 0 <= j < p[i].len() implies hex_digit(#[trigger] p[i][j]) by {}
        assert forall|j: int| 0 <= j < p[i].len() implies #[trigger] p[i][j] != ':' && p[i][j]
            != '.' by {}
    }
    assert(hex_groups(p)->0 =~= group_values(p));
}

proof fn lemma_joined_groups_are_spaced(p: Seq<Seq<char>>)
    requires
        are_groups(p),
        p.len() > 0,
    ensures
        spaced(join(p, seq![':'])),
    decreases p.len(),
{
    lemma_groups(p);
    let last = p[p.len() - 1];
    if p.len() == 1 {
        assert forall|i: int| 0 <= i < last.len() - 1 implies !(#[trigger] last[i] == ':' && last[i
            + 1] == ':') by {}
    } else {
        let head = p.drop_last();
        assert forall|i: int| 0 <= i < head.len() implies 1 <= (#[trigger] head[i]).len() <= 4 && forall|
            j: int,
        |
            0 <= j < head[i].len() ==> ('0' <= #[trigger] head[i][j] <= '9' || 'a' <= head[i][j]
                <= 'f' || 'A' <= head[i][j] <= 'F') by {
            assert(head[i] == p[i]);
        }
        lemma_joined_groups_are_spaced(head);
        let h = join(head, seq![':']);
        let s = join(p, seq![':']);
        assert(s =~= h + seq![':'] + last);
        let n = h.len() as int;
        assert forall|i: int| 0 <= i < s.len() - 1 implies !(#[trigger] s[i] == ':' && s[i + 1]
            == ':') by {
            if i < n - 1 {
                assert(s[i] == h[i] && s[i + 1] == h[i + 1]);
            } else if i == n - 1 {
                assert(s[i] == h[n - 1]);
            } else if i == n {
                assert(s[i + 1] == last[0]);
            } else {
                assert(s[i] == last[i - n - 1]);
            }
        }
        assert(s[0] == h[0]);
        assert(s[s.len() - 1] == last[last.len() - 1]);
    }
}

proof fn lemma_side_of_groups(p: Seq<Seq<char>>, tail: bool)
    requires
        are_groups(p),
    ensures
        side_groups(join(p, seq![':']), tail) == Some(group_values(p)),
{
    lemma_groups(p);
    let s = join(p, seq![':']);
    if p.len() == 0 {
        assert(s =~= Seq::<char>::empty());
        assert(group_values(p) =~= Seq::<u16>::empty());
    } else {
        lemma_joined_groups_are_spaced(p);
        crate::pieces::joined_pieces_are_taken_apart(p, ':');
        let last = p.last();
        assert(last == p[p.len() - 1]);
        assert(ipv4(last) is None) by {
            crate::pieces::lemma_index_of_first(last, '.');
            if index_of(last, '.') < last.len() {
                assert(last[index_of(last, '.')] != '.');
            }
            assert(split_at_each(last, '.').len() == 1);
        }
    }
}

/// How an IPv6 address is read: eight groups of one to four hexadecimal digits, in capitals or not,
/// with a colon between each two; or fewer, with two colons in one place for as many zeros as there
/// are missing, of which there has to be one.
pub proof fn ipv6_addresses_are_groups(p: Seq<Seq<char>>, q: Seq<Seq<char>>)
    requires
        are_groups(p),
        are_groups(q),
    ensures
        p.len() == 8 ==> ipv6(join(p, seq![':'])) == Some(group_values(p)),
        p.len() > 0 && p.len() != 8 ==> ipv6(join(p, seq![':'])) is None,
        p.len() + q.len() <= 7 ==> ipv6(join(p, seq![':']) + seq![':', ':'] + join(q, seq![':']))
            == Some(group_values(p) + Seq::new((8 - p.len() - q.len()) as nat, |i: int| 0u16)
            + group_values(q)),
        p.len() + q.len() > 7 ==> ipv6(join(p, seq![':']) + seq![':', ':'] + join(q, seq![':']))
            is None,
{
    let h = join(p, seq![':']);
    let t = join(q, seq![':']);
    let s = h + seq![':', ':'] + t;
    let k = h.len() as int;
    lemma_side_of_groups(p, false);
    lemma_side_of_groups(p, true);
    lemma_side_of_groups(q, true);
    if p.len() > 0 {
        lemma_joined_groups_are_spaced(p);
        assert forall|j: int| 0 <= j < h.len() && j + 1 < h.len() implies !(#[trigger] h[j] == ':'
            && h[j + 1] == ':') by {}
        lemma_gap_is(h, k);
    } else {
        assert(h =~= Seq::<char>::empty());
    }
    assert forall|j: int| 0 <= j < k && j + 1 < s.len() implies !(#[trigger] s[j] == ':' && s[j + 1]
        == ':') by {
        assert(s[j] == h[j]);
        if j + 1 < k {
            assert(s[j + 1] == h[j + 1]);
        }
    }
    lemma_gap_is(s, k);
    assert(s.take(k) =~= h);
    assert(s.skip(k + 2) =~= t);
    if p.len() + q.len() <= 7 {
        assert(zeros(8 - p.len() - q.len()) =~= Seq::new(
            (8 - p.len() - q.len()) as nat,
            |i: int| 0u16,
        ));
    }
}

/// A text is an address where it is one of either family.
pub proof fn addresses_are_of_either_family(s: Seq<char>)
    ensures
        ip_text(s) <==> ipv4(s) is Some || ipv6(s) is Some,
{
}

/// The last two groups of an IPv6 address may be written as an IPv4 address.
pub proof fn ipv4_addresses_end_ipv6_addresses(p: Seq<Seq<char>>, ip: Ipv4Addr)
    requires
        are_groups(p),
    ensures
        p.len() <= 5 ==> ipv6(
            seq![':', ':'] + join(p.push(ipv4_text(ip)), seq![':']),
        ) == Some(
            Seq::new((6 - p.len()) as nat, |i: int| 0u16) + group_values(p) + seq![
                (ip.a * 256 + ip.b) as u16,
                (ip.c * 256 + ip.d) as u16,
            ],
        ),
{
    let dotted = ipv4_text(ip);
    let all = p.push(dotted);
    let t = join(all, seq![':']);
    let s = seq![':', ':'] + t;
    lemma_groups(p);
    lemma_ipv4_is_dotted(ip);
    ipv4_addresses_are_their_texts(dotted, ip);
    decimal_round_trip(ip.a as nat);
    assert forall|i: int| 0 <= i < all.len() implies crate::pieces::lacks(#[trigger] all[i], ':') by {
        if i < p.len() {
            assert(all[i] == p[i]);
        }
    }
    crate::pieces::joined_pieces_are_taken_apart(all, ':');
    assert(all.drop_last() =~= p);
    assert(all.last() == dotted);
    assert(t.len() > 0) by {
        if p.len() == 0 {
            assert(t == all[0]);
        } else {
            assert(t == join(all.drop_last(), seq![':']) + seq![':'] + all.last());
        }
    }
    assert(side_groups(t, true) == Some(group_values(p) + embedded(ip)));
    lemma_gap_is(s, 0);
    assert(s.take(0) =~= Seq::<char>::empty());
    assert(s.skip(2) =~= t);
    if p.len() <= 5 {
        let tail = group_values(p) + embedded(ip);
        assert(Seq::<u16>::empty() + zeros(8 - tail.len()) + tail =~= Seq::new(
            (6 - p.len()) as nat,
            |i: int| 0u16,
        ) + group_values(p) + seq![(ip.a * 256 + ip.b) as u16, (ip.c * 256 + ip.d) as u16]);
    }
}

} // verus!
