//! Routing of shared services inside a Coast container: each shared service
//! gets an alias address at the top of the `docker0` subnet and a `socat`
//! proxy per container port.
use vstd::arithmetic::power2::{lemma2_to64, lemma_pow2_adds, lemma_pow2_pos, pow2};
use vstd::bits::lemma_u64_shl_is_mul;
use vstd::prelude::*;

use crate::shell::{shell_quote, single_quoted};
use crate::status::{error_message, CoastError};
use crate::text::{
    all_digits, chars_lt, chars_of, contains_seq, decimal, digits_value, digits_value_bounded, has_prefix, index_of_char, occurs_at,
    int_error_text, lemma_seq_lt_irreflexive, lemma_seq_lt_total, lemma_seq_lt_transitive,
    parse_uint, parse_uint_exec, push_chars, push_decimal, push_str, seq_lt, split_on,
    split_on_char, split_words, str_eq, string_of, words, IntErrorKind,
};

verus! {

// ---------------------------------------------------------------------------
// IPv4 addresses
// ---------------------------------------------------------------------------

/// An IPv4 address, held as its 32-bit value (first octet most significant).
#[derive(Clone, Copy, PartialEq, Eq, Debug, Structural)]
pub struct Ipv4Addr {
    pub bits: u32,
}

/// The value of the address `a.b.c.d`.
pub open spec fn ipv4_value(a: u8, b: u8, c: u8, d: u8) -> int {
    a * 16777216 + b * 65536 + c * 256 + d
}

/// The dotted-decimal text of an address (`Ipv4Addr`'s `Display`).
pub open spec fn ipv4_text(x: u32) -> Seq<char> {
    decimal((x / 16777216) as nat) + "."@ + decimal(((x / 65536) % 256) as nat) + "."@ + decimal(
        ((x / 256) % 256) as nat,
    ) + "."@ + decimal((x % 256) as nat)
}

impl Ipv4Addr {
    /// The address `a.b.c.d`.
    pub fn new(a: u8, b: u8, c: u8, d: u8) -> (r: Ipv4Addr)
        ensures
            r.bits == ipv4_value(a, b, c, d),
    {
        Ipv4Addr { bits: (a as u32) * 16777216 + (b as u32) * 65536 + (c as u32) * 256 + d as u32 }
    }

    /// The dotted-decimal text of the address.
    pub fn text(&self) -> (r: String)
        ensures
            r@ == ipv4_text(self.bits),
    {
        let x = self.bits;
        let mut r = String::new();
        push_decimal(&mut r, (x / 16777216) as u64);
        push_str(&mut r, ".");
        push_decimal(&mut r, ((x / 65536) % 256) as u64);
        push_str(&mut r, ".");
        push_decimal(&mut r, ((x / 256) % 256) as u64);
        push_str(&mut r, ".");
        push_decimal(&mut r, (x % 256) as u64);
        r
    }
}

/// One group of a dotted-decimal address as `Ipv4Addr::from_str` accepts it:
/// one to three digits, no leading zero, at most 255.
pub open spec fn octet_text_ok(p: Seq<char>) -> bool {
    all_digits(p) && p.len() <= 3 && (p.len() == 1 || p[0] != '0') && digits_value(p) <= 255
}

/// `s.parse::<Ipv4Addr>()`: four valid groups separated by dots.
pub open spec fn parse_ipv4(s: Seq<char>) -> Option<u32> {
    let parts = split_on(s, '.');
    if parts.len() == 4 && octet_text_ok(parts[0]) && octet_text_ok(parts[1]) && octet_text_ok(
        parts[2],
    ) && octet_text_ok(parts[3]) {
        Some(
            (digits_value(parts[0]) * 16777216 + digits_value(parts[1]) * 65536 + digits_value(
                parts[2],
            ) * 256 + digits_value(parts[3])) as u32,
        )
    } else {
        None
    }
}

fn octet_exec(p: &Vec<char>) -> (r: Option<u32>)
    ensures
        match r {
            Some(x) => octet_text_ok(p@) && x == digits_value(p@),
            None => !octet_text_ok(p@),
        },
{
    assert(p@.subrange(0, p@.len() as int) =~= p@);
    if p.len() > 3 || p.len() == 0 {
        return None;
    }
    if p.len() > 1 && p[0] == '0' {
        return None;
    }
    match digits_value_bounded(p, 0, p.len(), 255) {
        Some(x) => Some(x as u32),
        None => None,
    }
}

/// Reads a dotted-decimal IPv4 address.
pub fn parse_ipv4_exec(v: &Vec<char>) -> (r: Option<u32>)
    ensures
        r == parse_ipv4(v@),
{
    let parts = split_on_char(v, '.');
    assert(parts@.map_values(|l: Vec<char>| l@).len() == parts@.len());
    if parts.len() != 4 {
        return None;
    }
    assert(parts@.map_values(|l: Vec<char>| l@)[0] == parts@[0]@);
    assert(parts@.map_values(|l: Vec<char>| l@)[1] == parts@[1]@);
    assert(parts@.map_values(|l: Vec<char>| l@)[2] == parts@[2]@);
    assert(parts@.map_values(|l: Vec<char>| l@)[3] == parts@[3]@);
    let a = match octet_exec(&parts[0]) {
        Some(x) => x,
        None => return None,
    };
    let b = match octet_exec(&parts[1]) {
        Some(x) => x,
        None => return None,
    };
    let c = match octet_exec(&parts[2]) {
        Some(x) => x,
        None => return None,
    };
    let d = match octet_exec(&parts[3]) {
        Some(x) => x,
        None => return None,
    };
    Some(a * 16777216 + b * 65536 + c * 256 + d)
}

// ---------------------------------------------------------------------------
// docker0 address
// ---------------------------------------------------------------------------

/// The word after the first `inet` word, if there is one.
pub open spec fn word_after_inet(ws: Seq<Seq<char>>) -> Option<Seq<char>>
    decreases ws.len(),
{
    if ws.len() == 0 {
        None
    } else if ws[0] == "inet"@ {
        if ws.len() >= 2 {
            Some(ws[1])
        } else {
            None
        }
    } else {
        word_after_inet(ws.drop_first())
    }
}

/// The outcome of reading `ip -o -4 addr show docker0` output: the address and
/// prefix length of docker0, or the message of the error.
pub open spec fn docker0_cidr(out: Seq<char>) -> Result<(u32, u8), Seq<char>> {
    match word_after_inet(words(out)) {
        None => Err("failed to find docker0 IPv4 address inside dind"@),
        Some(cidr) => match index_of_char(cidr, '/') {
            None => Err("failed to parse docker0 CIDR '"@ + cidr + "' inside dind"@),
            Some(k) => {
                let ip_s = cidr.subrange(0, k as int);
                let prefix_s = cidr.subrange((k + 1) as int, cidr.len() as int);
                match parse_ipv4(ip_s) {
                    None => Err(
                        "failed to parse docker0 IP '"@ + ip_s + "': invalid IPv4 address syntax"@,
                    ),
                    Some(ip) => match parse_uint(prefix_s, 255) {
                        Err(e) => Err(
                            "failed to parse docker0 prefix length '"@ + prefix_s + "': "@
                                + int_error_text(e),
                        ),
                        Ok(p) => if p > 32 {
                            Err(
                                "invalid docker0 prefix length '"@ + decimal(p)
                                    + "' inside dind"@,
                            )
                        } else {
                            Ok((ip, p as u8))
                        },
                    },
                }
            },
        },
    }
}

fn find_word_after_inet(ws: &Vec<Vec<char>>) -> (r: Option<usize>)
    ensures
        match r {
            Some(j) => j < ws@.len() && word_after_inet(ws@.map_values(|l: Vec<char>| l@))
                == Some(ws@[j as int]@),
            None => word_after_inet(ws@.map_values(|l: Vec<char>| l@)) is None,
        },
{
    let ghost all = ws@.map_values(|l: Vec<char>| l@);
    let inet = chars_of("inet");
    let mut i: usize = 0;
    assert(all.subrange(0, all.len() as int) =~= all);
    while i < ws.len()
        invariant
            i <= ws@.len(),
            all == ws@.map_values(|l: Vec<char>| l@),
            inet@ == "inet"@,
            word_after_inet(all.subrange(i as int, all.len() as int)) == word_after_inet(all),
        decreases ws.len() - i,
    {
        let ghost rest = all.subrange(i as int, all.len() as int);
        assert(rest[0] == ws@[i as int]@);
        let is_inet = ws[i].len() == inet.len() && crate::text::occurs_at_exec(&ws[i], &inet, 0);
        proof {
            if ws@[i as int]@.len() == inet@.len() {
                assert(ws@[i as int]@.subrange(0, inet@.len() as int) =~= ws@[i as int]@);
            }
        }
        if is_inet {
            if i + 1 < ws.len() {
                assert(rest[1] == ws@[i + 1]@);
                return Some(i + 1);
            } else {
                return None;
            }
        }
        assert(rest.drop_first() =~= all.subrange(i + 1, all.len() as int));
        i = i + 1;
    }
    None
}

/// Reads the docker0 address and prefix length from `ip -o -4 addr show docker0`.
pub fn resolve_docker0_cidr_output(stdout: &str) -> (r: Result<(Ipv4Addr, u8), CoastError>)
    ensures
        match docker0_cidr(stdout@) {
            Ok((ip, p)) => r matches Ok((a, q)) && a.bits == ip && q == p,
            Err(m) => r matches Err(CoastError::Docker(e)) && e@ == m,
        },
{
    let v = chars_of(stdout);
    let ws = split_words(&v);
    let j = match find_word_after_inet(&ws) {
        Some(j) => j,
        None => {
            let mut m = String::new();
            push_str(&mut m, "failed to find docker0 IPv4 address inside dind");
            return Err(CoastError::Docker(m));
        },
    };
    let cidr = &ws[j];
    let mut k: usize = 0;
    while k < cidr.len() && cidr[k] != '/'
        invariant
            k <= cidr@.len(),
            forall|i: int| 0 <= i < k ==> cidr@[i] != '/',
        decreases cidr.len() - k,
    {
        k = k + 1;
    }
    if k == cidr.len() {
        proof {
            crate::text::lemma_index_of_char_absent(cidr@, '/');
        }
        let mut m = String::new();
        push_str(&mut m, "failed to parse docker0 CIDR '");
        push_chars(&mut m, cidr, 0, cidr.len());
        push_str(&mut m, "' inside dind");
        assert(cidr@.subrange(0, cidr@.len() as int) =~= cidr@);
        return Err(CoastError::Docker(m));
    }
    proof {
        crate::text::lemma_index_of_char_found(cidr@, '/', k as int);
    }
    let mut ipv: Vec<char> = Vec::new();
    let mut i: usize = 0;
    while i < k
        invariant
            i <= k < cidr@.len(),
            ipv@ == cidr@.subrange(0, i as int),
        decreases k - i,
    {
        ipv.push(cidr[i]);
        assert(cidr@.subrange(0, i + 1) =~= cidr@.subrange(0, i as int).push(cidr@[i as int]));
        i = i + 1;
    }
    let ip = match parse_ipv4_exec(&ipv) {
        Some(ip) => ip,
        None => {
            let mut m = String::new();
            push_str(&mut m, "failed to parse docker0 IP '");
            push_chars(&mut m, &ipv, 0, ipv.len());
            push_str(&mut m, "': invalid IPv4 address syntax");
            assert(ipv@.subrange(0, ipv@.len() as int) =~= ipv@);
            return Err(CoastError::Docker(m));
        },
    };
    match parse_uint_exec(cidr, k + 1, cidr.len(), 255) {
        Err(e) => {
            let mut m = String::new();
            push_str(&mut m, "failed to parse docker0 prefix length '");
            push_chars(&mut m, cidr, k + 1, cidr.len());
            push_str(&mut m, "': ");
            push_str(&mut m, int_error_str(e));
            Err(CoastError::Docker(m))
        },
        Ok(p) => {
            if p > 32 {
                let mut m = String::new();
                push_str(&mut m, "invalid docker0 prefix length '");
                push_decimal(&mut m, p);
                push_str(&mut m, "' inside dind");
                Err(CoastError::Docker(m))
            } else {
                Ok((Ipv4Addr { bits: ip }, p as u8))
            }
        },
    }
}

/// The text with which a `ParseIntError` of each kind displays.
pub fn int_error_str(k: IntErrorKind) -> (r: &'static str)
    ensures
        r@ == int_error_text(k),
{
    match k {
        IntErrorKind::Empty => "cannot parse integer from empty string",
        IntErrorKind::InvalidDigit => "invalid digit found in string",
        IntErrorKind::PosOverflow => "number too large to fit in target type",
    }
}

// ---------------------------------------------------------------------------
// Alias addresses
// ---------------------------------------------------------------------------

/// The number of host bits of a subnet with this prefix length.
pub open spec fn host_bits(prefix: u8) -> nat {
    if prefix >= 32 {
        0
    } else {
        (32 - prefix) as nat
    }
}

/// The number of usable host addresses of such a subnet (none for /31 and /32).
pub open spec fn usable_hosts(prefix: u8) -> int {
    if host_bits(prefix) == 0 {
        0
    } else {
        pow2(host_bits(prefix)) - 2
    }
}

/// The subnet has room for an alias at position `index`.
pub open spec fn alias_room(prefix: u8, index: int) -> bool {
    usable_hosts(prefix) > 0 && index < usable_hosts(prefix) - 1
}

/// The alias at position `index`: counting down from just below the broadcast
/// address of the subnet of `ip`.
pub open spec fn alias_address(ip: u32, prefix: u8, index: int) -> int {
    let b = pow2(host_bits(prefix)) as int;
    (ip as int) - (ip as int) % b + b - 2 - index
}

/// The message when the subnet has no room for another alias.
pub open spec fn no_room_message(ip: u32, prefix: u8) -> Seq<char> {
    "docker0 subnet "@ + ipv4_text(ip) + "/"@ + decimal(prefix as nat)
        + " does not have enough room for shared-service aliases"@
}

proof fn lemma_block_fits(ip: u64, block: u64, hb: nat)
    requires
        1 <= hb <= 32,
        block == pow2(hb),
        ip < 4294967296,
    ensures
        ip - ip % block + block - 1 < 4294967296,
        ip % block <= ip,
{
    lemma2_to64();
    lemma_pow2_pos(hb);
    lemma_pow2_adds(hb, (32 - hb) as nat);
    let r = pow2((32 - hb) as nat);
    assert(block * r == 4294967296);
    let q = ip / block;
    assert(ip == q * block + ip % block) by (nonlinear_arith)
        requires
            block > 0,
            q == ip / block,
    ;
    assert(q * block <= ip) by (nonlinear_arith)
        requires
            ip == q * block + ip % block,
            block > 0,
    ;
    assert(q < r) by (nonlinear_arith)
        requires
            q * block <= ip,
            ip < block * r,
            block > 0,
            q >= 0,
    ;
    assert(q * block + block <= 4294967296) by (nonlinear_arith)
        requires
            q < r,
            block * r == 4294967296,
            block > 0,
    ;
}

/// The alias address for the shared service at position `index`, allocated from
/// the top of the docker0 subnet downward.
pub fn allocate_alias_ip(docker0_ip: Ipv4Addr, prefix_len: u8, index: usize) -> (r: Result<
    Ipv4Addr,
    CoastError,
>)
    ensures
        alias_room(prefix_len, index as int) ==> (r matches Ok(a) && a.bits == alias_address(
            docker0_ip.bits,
            prefix_len,
            index as int,
        )),
        !alias_room(prefix_len, index as int) ==> (r matches Err(CoastError::Docker(m)) && m@
            == no_room_message(docker0_ip.bits, prefix_len)),
{
    let hb: u64 = if prefix_len >= 32 {
        0
    } else {
        32 - prefix_len as u64
    };
    if hb == 0 {
        return Err(CoastError::Docker(no_room(docker0_ip, prefix_len)));
    }
    proof {
        vstd::bits::lemma_u64_pow2_no_overflow(hb as nat);
        lemma_u64_shl_is_mul(1, hb);
        lemma2_to64();
        vstd::arithmetic::power2::lemma_pow2_strictly_increases(hb as nat, 33);
        lemma_pow2_pos(hb as nat);
        vstd::arithmetic::power2::lemma_pow2_unfold(hb as nat);
        lemma_pow2_pos((hb - 1) as nat);
    }
    let block: u64 = 1u64 << hb;
    assert(block == pow2(hb as nat));
    assert(block >= 2);
    let usable = block - 2;
    if usable == 0 || index as u64 >= usable - 1 {
        return Err(CoastError::Docker(no_room(docker0_ip, prefix_len)));
    }
    let ip = docker0_ip.bits as u64;
    proof {
        lemma_block_fits(ip, block, hb as nat);
    }
    let network = ip - ip % block;
    let broadcast = network + block - 1;
    let alias = broadcast - 1 - index as u64;
    Ok(Ipv4Addr { bits: alias as u32 })
}

fn no_room(ip: Ipv4Addr, prefix: u8) -> (m: String)
    ensures
        m@ == no_room_message(ip.bits, prefix),
{
    let mut m = String::new();
    push_str(&mut m, "docker0 subnet ");
    let t = ip.text();
    push_str(&mut m, t.as_str());
    push_str(&mut m, "/");
    push_decimal(&mut m, prefix as u64);
    push_str(&mut m, " does not have enough room for shared-service aliases");
    m
}


// ---------------------------------------------------------------------------
// Routing plan
// ---------------------------------------------------------------------------

/// A port of a shared service: the host port and the container port.
#[derive(Clone, Copy, PartialEq, Eq, Debug, Structural)]
pub struct SharedServicePort {
    pub host_port: u16,
    pub container_port: u16,
}

impl SharedServicePort {
    /// A port published on a different host port.
    pub fn new(host_port: u16, container_port: u16) -> (r: SharedServicePort)
        ensures
            r.host_port == host_port && r.container_port == container_port,
    {
        SharedServicePort { host_port, container_port }
    }

    /// A port published on the same host port.
    pub fn same(port: u16) -> (r: SharedServicePort)
        ensures
            r.host_port == port && r.container_port == port,
    {
        SharedServicePort { host_port: port, container_port: port }
    }
}

/// The parts of a shared-service declaration that routing reads.
#[derive(Debug)]
pub struct SharedServiceConfig {
    pub name: String,
    pub ports: Vec<SharedServicePort>,
}

/// How one shared service is reached from inside the container.
#[derive(Debug)]
pub struct SharedServiceRoute {
    pub service_name: String,
    pub alias_ip: Ipv4Addr,
    pub target_container: String,
    pub ports: Vec<SharedServicePort>,
}

/// The routes of all shared services and the docker0 prefix length.
#[derive(Debug)]
pub struct SharedServiceRoutingPlan {
    pub docker0_prefix_len: u8,
    pub routes: Vec<SharedServiceRoute>,
}

/// The ports with only the first mapping kept for each container port.
pub open spec fn dedupe_ports(s: Seq<SharedServicePort>) -> Seq<SharedServicePort>
    decreases s.len(),
{
    if s.len() == 0 {
        Seq::empty()
    } else {
        let d = dedupe_ports(s.drop_last());
        if exists|k: int| 0 <= k < d.len() && d[k].container_port == s.last().container_port {
            d
        } else {
            d.push(s.last())
        }
    }
}

/// Keeps the first mapping for each container port.
pub fn dedupe_container_ports(ports: &Vec<SharedServicePort>) -> (r: Vec<SharedServicePort>)
    ensures
        r@ == dedupe_ports(ports@),
{
    let mut out: Vec<SharedServicePort> = Vec::new();
    let mut i: usize = 0;
    assert(ports@.subrange(0, 0) =~= Seq::<SharedServicePort>::empty());
    while i < ports.len()
        invariant
            i <= ports@.len(),
            out@ == dedupe_ports(ports@.subrange(0, i as int)),
        decreases ports.len() - i,
    {
        let p = ports[i];
        let mut found = false;
        let mut k: usize = 0;
        while k < out.len()
            invariant
                k <= out@.len(),
                found == exists|j: int| 0 <= j < k && out@[j].container_port == p.container_port,
            decreases out.len() - k,
        {
            if out[k].container_port == p.container_port {
                found = true;
            }
            k = k + 1;
        }
        assert(ports@.subrange(0, i + 1).drop_last() =~= ports@.subrange(0, i as int));
        assert(ports@.subrange(0, i + 1).last() == p);
        if !found {
            out.push(p);
        }
        i = i + 1;
    }
    assert(ports@.subrange(0, ports@.len() as int) =~= ports@);
    out
}

/// Some port of `d` has container port `cp`.
pub open spec fn has_container_port(d: Seq<SharedServicePort>, cp: u16) -> bool {
    exists|k: int| 0 <= k < d.len() && #[trigger] d[k].container_port == cp
}

/// No two ports of `d` share a container port.
pub open spec fn distinct_container_ports(d: Seq<SharedServicePort>) -> bool {
    forall|a: int, b: int|
        0 <= a < b < d.len() ==> #[trigger] d[a].container_port != #[trigger] d[b].container_port
}

/// `s[i]` is the first port of `s` with its container port.
pub open spec fn first_of_its_port(s: Seq<SharedServicePort>, i: int) -> bool {
    forall|j: int| 0 <= j < i ==> #[trigger] s[j].container_port != s[i].container_port
}

/// Deduplication keeps one mapping per container port, the first one given,
/// and loses no container port.
pub proof fn law_dedupe_keeps_first_of_each_port(s: Seq<SharedServicePort>)
    ensures
        distinct_container_ports(dedupe_ports(s)),
        forall|i: int|
            0 <= i < s.len() ==> has_container_port(dedupe_ports(s), #[trigger] s[i].container_port),
        forall|k: int|
            0 <= k < dedupe_ports(s).len() ==> exists|i: int|
                0 <= i < s.len() && #[trigger] s[i] == #[trigger] dedupe_ports(s)[k]
                    && first_of_its_port(s, i),
    decreases s.len(),
{
    if s.len() > 0 {
        let t = s.drop_last();
        law_dedupe_keeps_first_of_each_port(t);
        let d = dedupe_ports(t);
        let ds = dedupe_ports(s);
        let found = has_container_port(d, s.last().container_port);
        assert forall|i: int| 0 <= i < s.len() implies has_container_port(
            ds,
            #[trigger] s[i].container_port,
        ) by {
            if i < t.len() {
                assert(t[i] == s[i]);
                assert(has_container_port(d, t[i].container_port));
                let k = choose|k: int|
                    0 <= k < d.len() && #[trigger] d[k].container_port == t[i].container_port;
                assert(ds[k] == d[k]);
            } else if !found {
                assert(ds[d.len() as int] == s.last());
            }
        }
        assert forall|k: int| 0 <= k < ds.len() implies exists|i: int|
            0 <= i < s.len() && #[trigger] s[i] == #[trigger] ds[k] && first_of_its_port(s, i) by {
            if k < d.len() {
                assert(ds[k] == d[k]);
                let i = choose|i: int|
                    0 <= i < t.len() && #[trigger] t[i] == #[trigger] d[k] && first_of_its_port(
                        t,
                        i,
                    );
                assert(s[i] == t[i]);
                assert forall|j: int| 0 <= j < i implies #[trigger] s[j].container_port
                    != s[i].container_port by {
                    assert(s[j] == t[j]);
                }
            } else {
                let i = s.len() - 1;
                assert(ds[k] == s.last());
                assert forall|j: int| 0 <= j < i implies #[trigger] s[j].container_port
                    != s[i].container_port by {
                    assert(s[j] == t[j]);
                    if s[j].container_port == s[i].container_port {
                        assert(has_container_port(d, t[j].container_port));
                    }
                }
            }
        }
        assert forall|a: int, b: int| 0 <= a < b < ds.len() implies #[trigger] ds[a].container_port
            != #[trigger] ds[b].container_port by {
            if b < d.len() {
                assert(ds[a] == d[a] && ds[b] == d[b]);
            } else {
                assert(ds[a] == d[a]);
                assert(ds[b] == s.last());
            }
        }
    }
}

/// `names[i]` sorts before `names[j]`, ties broken by position (a stable sort).
pub open spec fn name_before(names: Seq<Seq<char>>, i: int, j: int) -> bool {
    seq_lt(names[i], names[j]) || (names[i] == names[j] && i < j)
}

/// `o` lists the positions of `names` in the order of a stable sort by name.
pub open spec fn is_name_order(names: Seq<Seq<char>>, o: Seq<usize>) -> bool {
    &&& o.len() == names.len()
    &&& forall|k: int| 0 <= k < o.len() ==> o[k] < names.len()
    &&& forall|a: int, b: int| 0 <= a < b < o.len() ==> name_before(names, o[a] as int, o[b] as int)
}

proof fn lemma_name_before_transitive(names: Seq<Seq<char>>, i: int, j: int, k: int)
    requires
        name_before(names, i, j),
        name_before(names, j, k),
    ensures
        name_before(names, i, k),
{
    if seq_lt(names[i], names[j]) && seq_lt(names[j], names[k]) {
        lemma_seq_lt_transitive(names[i], names[j], names[k]);
    }
}

proof fn lemma_name_before_total(names: Seq<Seq<char>>, i: int, j: int)
    requires
        i != j,
    ensures
        name_before(names, i, j) || name_before(names, j, i),
{
    lemma_seq_lt_total(names[i], names[j]);
}

proof fn lemma_name_before_irreflexive(names: Seq<Seq<char>>, i: int)
    ensures
        !name_before(names, i, i),
{
    lemma_seq_lt_irreflexive(names[i]);
}

/// A name order lists every position once.
proof fn lemma_name_order_covers(names: Seq<Seq<char>>, o: Seq<usize>, i: int)
    requires
        is_name_order(names, o),
        0 <= i < names.len(),
    ensures
        exists|k: int| 0 <= k < o.len() && o[k] == i,
{
    let n = names.len() as int;
    let oi = Seq::new(o.len(), |k: int| o[k] as int);
    assert forall|a: int, b: int| 0 <= a < b < oi.len() implies oi[a] != oi[b] by {
        lemma_name_before_irreflexive(names, o[a] as int);
    }
    assert(oi.no_duplicates());
    oi.unique_seq_to_set();
    vstd::set_lib::lemma_int_range(0, n);
    let range = vstd::set_lib::set_int_range(0, n);
    assert(oi.to_set().subset_of(range));
    vstd::set_lib::lemma_len_subset(oi.to_set(), range);
    vstd::set_lib::lemma_subset_equality(oi.to_set(), range);
    assert(range.contains(i));
    assert(oi.to_set().contains(i));
    let k = choose|k: int| 0 <= k < oi.len() && oi[k] == i;
    assert(o[k] == i);
}

/// With distinct names, what one name order places at `k` is what the
/// other places there, when both list the same services.
proof fn lemma_name_order_same_at(
    s1: Seq<SharedServiceConfig>,
    s2: Seq<SharedServiceConfig>,
    o1: Seq<usize>,
    o2: Seq<usize>,
    k: int,
)
    requires
        service_names(s1).no_duplicates(),
        service_names(s2).no_duplicates(),
        s1.len() == s2.len(),
        forall|i: int| 0 <= i < s1.len() ==> s2.contains(#[trigger] s1[i]),
        forall|j: int| 0 <= j < s2.len() ==> s1.contains(#[trigger] s2[j]),
        is_name_order(service_names(s1), o1),
        is_name_order(service_names(s2), o2),
        0 <= k < s1.len(),
    ensures
        s1[o1[k] as int] == s2[o2[k] as int],
    decreases k,
{
    let n1 = service_names(s1);
    let n2 = service_names(s2);
    assert forall|j: int| 0 <= j < k implies s1[o1[j] as int] == s2[o2[j] as int] by {
        lemma_name_order_same_at(s1, s2, o1, o2, j);
    }
    let a = s1[o1[k] as int];
    let b = s2[o2[k] as int];
    // Where `a` stands in the second order.
    assert(s2.contains(a));
    let i2 = choose|i2: int| 0 <= i2 < s2.len() && s2[i2] == a;
    lemma_name_order_covers(n2, o2, i2);
    let j = choose|j: int| 0 <= j < o2.len() && o2[j] == i2;
    // Where `b` stands in the first order.
    assert(s1.contains(b));
    let i1 = choose|i1: int| 0 <= i1 < s1.len() && s1[i1] == b;
    lemma_name_order_covers(n1, o1, i1);
    let jj = choose|jj: int| 0 <= jj < o1.len() && o1[jj] == i1;
    if j != k && jj != k {
        lemma_seq_lt_irreflexive(a.name@);
        lemma_seq_lt_irreflexive(b.name@);
        if j < k {
            // `a` stands before itself in the first order.
            assert(s2[o2[j] as int] == s1[o1[j] as int]);
            assert(name_before(n1, o1[j] as int, o1[k] as int));
            assert(n1[o1[j] as int] == n1[o1[k] as int]);
            assert(o1[j] != o1[k]) by {
                lemma_name_before_irreflexive(n1, o1[j] as int);
            }
            assert(false);
        } else if jj < k {
            assert(s1[o1[jj] as int] == s2[o2[jj] as int]);
            assert(name_before(n2, o2[jj] as int, o2[k] as int));
            assert(n2[o2[jj] as int] == n2[o2[k] as int]);
            assert(o2[jj] != o2[k]) by {
                lemma_name_before_irreflexive(n2, o2[jj] as int);
            }
            assert(false);
        } else {
            // Each comes after the other.
            assert(name_before(n2, o2[k] as int, o2[j] as int));
            assert(name_before(n1, o1[k] as int, o1[jj] as int));
            assert(o2[k] != o2[j]) by {
                lemma_name_before_irreflexive(n2, o2[k] as int);
            }
            assert(o1[k] != o1[jj]) by {
                lemma_name_before_irreflexive(n1, o1[k] as int);
            }
            assert(n2[o2[k] as int] != n2[o2[j] as int]);
            assert(n1[o1[k] as int] != n1[o1[jj] as int]);
            assert(seq_lt(b.name@, a.name@));
            assert(seq_lt(a.name@, b.name@));
            lemma_seq_lt_transitive(a.name@, b.name@, a.name@);
            assert(false);
        }
    }
}

/// For distinctly named shared services, the name order places the same
/// service at each position whatever order they are listed in; so the
/// routing plan, or the error of the first service that cannot be routed,
/// does not depend on the listing order.
pub proof fn law_name_order_ignores_listing_order(
    s1: Seq<SharedServiceConfig>,
    s2: Seq<SharedServiceConfig>,
    o1: Seq<usize>,
    o2: Seq<usize>,
)
    requires
        service_names(s1).no_duplicates(),
        service_names(s2).no_duplicates(),
        s1.len() == s2.len(),
        forall|i: int| 0 <= i < s1.len() ==> s2.contains(#[trigger] s1[i]),
        forall|j: int| 0 <= j < s2.len() ==> s1.contains(#[trigger] s2[j]),
        is_name_order(service_names(s1), o1),
        is_name_order(service_names(s2), o2),
    ensures
        forall|k: int| 0 <= k < s1.len() ==> #[trigger] s1[o1[k] as int] == s2[o2[k] as int],
{
    assert forall|k: int| 0 <= k < s1.len() implies #[trigger] s1[o1[k] as int] == s2[o2[k] as int] by {
        lemma_name_order_same_at(s1, s2, o1, o2, k);
    }
}

/// The positions of `names` in the order of a stable sort by name.
pub fn name_order(names: &Vec<Vec<char>>) -> (o: Vec<usize>)
    ensures
        is_name_order(names@.map_values(|l: Vec<char>| l@), o@),
{
    let ghost ns = names@.map_values(|l: Vec<char>| l@);
    let mut order: Vec<usize> = Vec::new();
    let mut k: usize = 0;
    while k < names.len()
        invariant
            k <= names@.len(),
            ns == names@.map_values(|l: Vec<char>| l@),
            order@.len() == k,
            forall|q: int| 0 <= q < order@.len() ==> order@[q] < k,
            forall|a: int, b: int|
                0 <= a < b < order@.len() ==> name_before(ns, order@[a] as int, order@[b] as int),
        decreases names.len() - k,
    {
        let mut p: usize = 0;
        while p < order.len() && (chars_lt(&names[order[p]], &names[k]) || (!chars_lt(
            &names[k],
            &names[order[p]],
        ) && order[p] < k))
            invariant
                p <= order@.len(),
                k < names@.len(),
                ns == names@.map_values(|l: Vec<char>| l@),
                forall|q: int| 0 <= q < order@.len() ==> order@[q] < k,
                forall|q: int| 0 <= q < p ==> name_before(ns, order@[q] as int, k as int),
            decreases order.len() - p,
        {
            proof {
                let o = order@[p as int] as int;
                assert(ns[o] == names@[o]@);
                assert(ns[k as int] == names@[k as int]@);
                if !seq_lt(ns[o], ns[k as int]) && !seq_lt(ns[k as int], ns[o]) {
                    lemma_seq_lt_total(ns[o], ns[k as int]);
                }
            }
            p = p + 1;
        }
        proof {
            if p < order@.len() {
                let o = order@[p as int] as int;
                assert(ns[o] == names@[o]@);
                assert(ns[k as int] == names@[k as int]@);
                lemma_name_before_total(ns, o, k as int);
                assert(name_before(ns, k as int, o));
            }
        }
        let ghost old_order = order@;
        order.insert(p, k);
        proof {
            assert forall|a: int, b: int|
                0 <= a < b < order@.len() implies name_before(
                ns,
                order@[a] as int,
                order@[b] as int,
            ) by {
                if b < p {
                    assert(order@[a] == old_order[a] && order@[b] == old_order[b]);
                } else if b == p {
                    assert(order@[a] == old_order[a]);
                } else if a == p {
                    assert(order@[b] == old_order[b - 1]);
                    if b - 1 > p {
                        lemma_name_before_transitive(
                            ns,
                            k as int,
                            old_order[p as int] as int,
                            old_order[b - 1] as int,
                        );
                    }
                } else if a < p {
                    assert(order@[a] == old_order[a] && order@[b] == old_order[b - 1]);
                } else {
                    assert(order@[a] == old_order[a - 1] && order@[b] == old_order[b - 1]);
                }
            }
        }
        k = k + 1;
    }
    order
}

/// The container to which a shared service's traffic goes: the value of the
/// first pair whose key is the service name.
pub open spec fn lookup(pairs: Seq<(Seq<char>, Seq<char>)>, key: Seq<char>) -> Option<Seq<char>>
    decreases pairs.len(),
{
    if pairs.len() == 0 {
        None
    } else if pairs[0].0 == key {
        Some(pairs[0].1)
    } else {
        lookup(pairs.drop_first(), key)
    }
}

/// The views of a list of string pairs.
pub open spec fn pair_views(v: Seq<(String, String)>) -> Seq<(Seq<char>, Seq<char>)> {
    v.map_values(|p: (String, String)| (p.0@, p.1@))
}

/// Looks up the value of the first pair whose key is `key`.
pub fn lookup_exec(pairs: &Vec<(String, String)>, key: &str) -> (r: Option<String>)
    ensures
        match lookup(pair_views(pairs@), key@) {
            Some(v) => r matches Some(s) && s@ == v,
            None => r is None,
        },
{
    let ghost all = pair_views(pairs@);
    let mut i: usize = 0;
    assert(all.subrange(0, all.len() as int) =~= all);
    while i < pairs.len()
        invariant
            i <= pairs@.len(),
            all == pair_views(pairs@),
            lookup(all.subrange(i as int, all.len() as int), key@) == lookup(all, key@),
        decreases pairs.len() - i,
    {
        let ghost rest = all.subrange(i as int, all.len() as int);
        assert(rest[0] == (pairs@[i as int].0@, pairs@[i as int].1@));
        if str_eq(pairs[i].0.as_str(), key) {
            return Some(pairs[i].1.clone());
        }
        assert(rest.drop_first() =~= all.subrange(i + 1, all.len() as int));
        i = i + 1;
    }
    None
}

/// The message when no target container is known for a shared service.
pub open spec fn missing_target_message(name: Seq<char>) -> Seq<char> {
    "missing shared-service target container for '"@ + name + "'"@
}

/// The route at sorted position `k` is well formed for service `svc`.
pub open spec fn route_matches(
    route: SharedServiceRoute,
    svc: SharedServiceConfig,
    targets: Seq<(Seq<char>, Seq<char>)>,
    ip: u32,
    prefix: u8,
    k: int,
) -> bool {
    &&& route.service_name@ == svc.name@
    &&& route.alias_ip.bits == alias_address(ip, prefix, k)
    &&& lookup(targets, svc.name@) == Some(route.target_container@)
    &&& route.ports@ == dedupe_ports(svc.ports@)
}

/// Position `k` of the sorted services can be routed.
pub open spec fn routable(
    svc: SharedServiceConfig,
    targets: Seq<(Seq<char>, Seq<char>)>,
    prefix: u8,
    k: int,
) -> bool {
    lookup(targets, svc.name@) is Some && alias_room(prefix, k)
}

/// The error for the first sorted position that cannot be routed.
pub open spec fn route_error(
    svc: SharedServiceConfig,
    targets: Seq<(Seq<char>, Seq<char>)>,
    ip: u32,
    prefix: u8,
) -> Seq<char> {
    if lookup(targets, svc.name@) is None {
        missing_target_message(svc.name@)
    } else {
        no_room_message(ip, prefix)
    }
}

/// The names of the services.
pub open spec fn service_names(s: Seq<SharedServiceConfig>) -> Seq<Seq<char>> {
    s.map_values(|c: SharedServiceConfig| c.name@)
}

/// What planning the routes of `svcs` gives, for some stable sort `o` of
/// them by name: when every sorted position can be routed, one route per
/// position with its alias counted down from the top of the subnet; else
/// the error of the first position that cannot be routed.
pub open spec fn plan_outcome(
    r: Result<SharedServiceRoutingPlan, CoastError>,
    svcs: Seq<SharedServiceConfig>,
    t: Seq<(Seq<char>, Seq<char>)>,
    ip: u32,
    prefix: u8,
) -> bool {
    exists|o: Seq<usize>|
        #![trigger is_name_order(service_names(svcs), o)]
        is_name_order(service_names(svcs), o) && match r {
            Ok(plan) => plan.docker0_prefix_len == prefix && plan.routes@.len() == svcs.len() && (forall|k: int|
                0 <= k < svcs.len() ==> routable(#[trigger] svcs[o[k] as int], t, prefix, k)) && forall|k: int|
                0 <= k < svcs.len() ==> route_matches(#[trigger] plan.routes@[k], svcs[o[k] as int], t, ip, prefix, k),
            Err(e) => exists|k: int|
                0 <= k < svcs.len() && !routable(#[trigger] svcs[o[k] as int], t, prefix, k) && (forall|j: int|
                    0 <= j < k ==> routable(#[trigger] svcs[o[j] as int], t, prefix, j)) && (e matches CoastError::Docker(
                    m,
                ) && m@ == route_error(svcs[o[k] as int], t, ip, prefix)),
        }
}

/// Plans one alias address and proxy set per shared service, in the order of
/// their names.
pub fn build_routing_plan(
    shared_services: &Vec<SharedServiceConfig>,
    target_containers: &Vec<(String, String)>,
    docker0_ip: Ipv4Addr,
    docker0_prefix_len: u8,
) -> (r: Result<SharedServiceRoutingPlan, CoastError>)
    ensures
        plan_outcome(r, shared_services@, pair_views(target_containers@), docker0_ip.bits, docker0_prefix_len),
{
    let ghost svcs = shared_services@;
    let ghost t = pair_views(target_containers@);
    let mut names: Vec<Vec<char>> = Vec::new();
    let mut i: usize = 0;
    while i < shared_services.len()
        invariant
            i <= shared_services@.len(),
            names@.len() == i,
            forall|j: int| 0 <= j < i ==> names@[j]@ == shared_services@[j].name@,
        decreases shared_services.len() - i,
    {
        names.push(chars_of(shared_services[i].name.as_str()));
        i = i + 1;
    }
    assert(names@.map_values(|l: Vec<char>| l@) =~= service_names(shared_services@));
    let order = name_order(&names);
    let ghost o = order@;
    let mut routes: Vec<SharedServiceRoute> = Vec::new();
    let mut k: usize = 0;
    while k < order.len()
        invariant
            k <= order@.len(),
            o == order@,
            svcs == shared_services@,
            t == pair_views(target_containers@),
            is_name_order(service_names(svcs), o),
            routes@.len() == k,
            forall|q: int|
                0 <= q < k ==> route_matches(
                    #[trigger] routes@[q],
                    svcs[o[q] as int],
                    t,
                    docker0_ip.bits,
                    docker0_prefix_len,
                    q,
                ),
            forall|q: int|
                0 <= q < k ==> routable(#[trigger] svcs[o[q] as int], t, docker0_prefix_len, q),
        decreases order.len() - k,
    {
        let svc = &shared_services[order[k]];
        let target = match lookup_exec(target_containers, svc.name.as_str()) {
            Some(tc) => tc,
            None => {
                let mut m = String::new();
                push_str(&mut m, "missing shared-service target container for '");
                push_str(&mut m, svc.name.as_str());
                push_str(&mut m, "'");
                let r = Err(CoastError::Docker(m));
                assert(!routable(svcs[o[k as int] as int], t, docker0_prefix_len, k as int));
                return r;
            },
        };
        let alias = match allocate_alias_ip(docker0_ip, docker0_prefix_len, k) {
            Ok(a) => a,
            Err(e) => {
                assert(!routable(svcs[o[k as int] as int], t, docker0_prefix_len, k as int));
                return Err(e);
            },
        };
        let ports = dedupe_container_ports(&svc.ports);
        routes.push(
            SharedServiceRoute {
                service_name: svc.name.clone(),
                alias_ip: alias,
                target_container: target,
                ports,
            },
        );
        k = k + 1;
    }
    let r = Ok(SharedServiceRoutingPlan { docker0_prefix_len, routes });
    assert(is_name_order(service_names(svcs), o));
    r
}

/// The service-name to alias-address pairs of a plan, in route order.
pub open spec fn host_pairs(routes: Seq<SharedServiceRoute>) -> Seq<(Seq<char>, Seq<char>)> {
    routes.map_values(|r: SharedServiceRoute| (r.service_name@, ipv4_text(r.alias_ip.bits)))
}

impl SharedServiceRoutingPlan {
    /// The address under which each shared service is reached, by name.
    pub fn host_map(&self) -> (r: Vec<(String, String)>)
        ensures
            pair_views(r@) == host_pairs(self.routes@),
            r@.len() == self.routes@.len(),
            forall|k: int|
                0 <= k < r@.len() ==> (#[trigger] r@[k]).0@ == self.routes@[k].service_name@ && r@[k].1@
                    == ipv4_text(self.routes@[k].alias_ip.bits),
    {
        let mut out: Vec<(String, String)> = Vec::new();
        let mut i: usize = 0;
        while i < self.routes.len()
            invariant
                i <= self.routes@.len(),
                pair_views(out@) == host_pairs(self.routes@).subrange(0, i as int),
            decreases self.routes.len() - i,
        {
            let r = &self.routes[i];
            let ghost before = out@;
            out.push((r.service_name.clone(), r.alias_ip.text()));
            assert(pair_views(out@) =~= pair_views(before).push(
                (self.routes@[i as int].service_name@, ipv4_text(self.routes@[i as int].alias_ip.bits)),
            ));
            assert(host_pairs(self.routes@).subrange(0, i + 1) =~= host_pairs(self.routes@).subrange(
                0,
                i as int,
            ).push(host_pairs(self.routes@)[i as int]));
            i = i + 1;
        }
        assert(host_pairs(self.routes@).subrange(0, self.routes@.len() as int) =~= host_pairs(
            self.routes@,
        ));
        assert forall|k: int| 0 <= k < out@.len() implies (#[trigger] out@[k]).0@ == self.routes@[k].service_name@
            && out@[k].1@ == ipv4_text(self.routes@[k].alias_ip.bits) by {
            assert(pair_views(out@)[k] == host_pairs(self.routes@)[k]);
        }
        out
    }
}


// ---------------------------------------------------------------------------
// Proxy setup script
// ---------------------------------------------------------------------------

/// The fixed start of the proxy script: installs `socat` when missing.
pub open spec fn proxy_script_header() -> Seq<char> {
    "set -eu\n\
     if ! command -v socat >/dev/null 2>&1; then\n\
       if command -v apk >/dev/null 2>&1; then\n\
         apk add --no-cache socat >/dev/null\n\
       elif command -v apt-get >/dev/null 2>&1; then\n\
         apt-get update >/dev/null && DEBIAN_FRONTEND=noninteractive apt-get install -y socat >/dev/null\n\
       else\n\
         echo 'socat is required to proxy shared services inside the Coast container' >&2\n\
         exit 1\n\
       fi\n\
     fi\n\
     SOCAT_BIN=\"$(command -v socat)\"\n\
     mkdir -p /var/run/coast/shared-service-proxies /var/log/coast/shared-service-proxies\n"@
}

/// The pid file of the proxy for one port of a service.
pub open spec fn proxy_pid_path(name: Seq<char>, cp: u16) -> Seq<char> {
    "/var/run/coast/shared-service-proxies/"@ + name + "-"@ + decimal(cp as nat) + ".pid"@
}

/// The log file of the proxy for one port of a service.
pub open spec fn proxy_log_path(name: Seq<char>, cp: u16) -> Seq<char> {
    "/var/log/coast/shared-service-proxies/"@ + name + "-"@ + decimal(cp as nat) + ".log"@
}

/// The script lines that (re)start the proxy for one port of a route.
pub open spec fn port_proxy_text(r: SharedServiceRoute, p: SharedServicePort) -> Seq<char> {
    let ip = ipv4_text(r.alias_ip.bits);
    let cp = decimal(p.container_port as nat);
    let pid = single_quoted(proxy_pid_path(r.service_name@, p.container_port));
    "if [ -f "@ + pid + " ]; then old_pid=\"$(cat "@ + pid
        + " 2>/dev/null || true)\"; if [ -n \"$old_pid\" ] && kill -0 \"$old_pid\" 2>/dev/null; then kill \"$old_pid\" 2>/dev/null || true; fi; fi\n"@
        + "nohup \"$SOCAT_BIN\" "@ + single_quoted("TCP-LISTEN:"@ + cp + ",bind="@ + ip
        + ",fork,reuseaddr"@) + " "@ + single_quoted("TCP:"@ + r.target_container@ + ":"@ + cp)
        + " > "@ + single_quoted(proxy_log_path(r.service_name@, p.container_port))
        + " 2>&1 < /dev/null & echo $! > "@ + pid + "\n"@
}

/// The proxy lines of the ports `ps` of route `r`.
pub open spec fn ports_proxy_text(r: SharedServiceRoute, ps: Seq<SharedServicePort>) -> Seq<char>
    decreases ps.len(),
{
    if ps.len() == 0 {
        Seq::empty()
    } else {
        ports_proxy_text(r, ps.drop_last()) + port_proxy_text(r, ps.last())
    }
}

/// The script lines of one route: add the alias, start the proxies, check the alias.
pub open spec fn route_proxy_text(r: SharedServiceRoute, prefix: u8) -> Seq<char> {
    let ip = ipv4_text(r.alias_ip.bits);
    "ip addr add "@ + single_quoted(ip + "/"@ + decimal(prefix as nat))
        + " dev docker0 2>/dev/null || true\n"@ + ports_proxy_text(r, r.ports@)
        + "ip -o -4 addr show dev docker0 | grep -q "@ + single_quoted(ip + "/"@) + "\n"@
}

/// The script lines of the routes `rs`.
pub open spec fn routes_proxy_text(rs: Seq<SharedServiceRoute>, prefix: u8) -> Seq<char>
    decreases rs.len(),
{
    if rs.len() == 0 {
        Seq::empty()
    } else {
        routes_proxy_text(rs.drop_last(), prefix) + route_proxy_text(rs.last(), prefix)
    }
}

fn port_proxy_lines(out: &mut String, r: &SharedServiceRoute, ip: &String, p: SharedServicePort)
    requires
        ip@ == ipv4_text(r.alias_ip.bits),
    ensures
        final(out)@ == old(out)@ + port_proxy_text(*r, p),
{
    let name = r.service_name.as_str();
    let mut cp = String::new();
    push_decimal(&mut cp, p.container_port as u64);
    let mut pid_path = String::new();
    push_str(&mut pid_path, "/var/run/coast/shared-service-proxies/");
    push_str(&mut pid_path, name);
    push_str(&mut pid_path, "-");
    push_str(&mut pid_path, cp.as_str());
    push_str(&mut pid_path, ".pid");
    let mut log_path = String::new();
    push_str(&mut log_path, "/var/log/coast/shared-service-proxies/");
    push_str(&mut log_path, name);
    push_str(&mut log_path, "-");
    push_str(&mut log_path, cp.as_str());
    push_str(&mut log_path, ".log");
    let mut listen = String::new();
    push_str(&mut listen, "TCP-LISTEN:");
    push_str(&mut listen, cp.as_str());
    push_str(&mut listen, ",bind=");
    push_str(&mut listen, ip.as_str());
    push_str(&mut listen, ",fork,reuseaddr");
    let mut upstream = String::new();
    push_str(&mut upstream, "TCP:");
    push_str(&mut upstream, r.target_container.as_str());
    push_str(&mut upstream, ":");
    push_str(&mut upstream, cp.as_str());
    let pid = shell_quote(pid_path.as_str());
    push_str(out, "if [ -f ");
    push_str(out, pid.as_str());
    push_str(out, " ]; then old_pid=\"$(cat ");
    push_str(out, pid.as_str());
    push_str(
        out,
        " 2>/dev/null || true)\"; if [ -n \"$old_pid\" ] && kill -0 \"$old_pid\" 2>/dev/null; then kill \"$old_pid\" 2>/dev/null || true; fi; fi\n",
    );
    push_str(out, "nohup \"$SOCAT_BIN\" ");
    push_str(out, shell_quote(listen.as_str()).as_str());
    push_str(out, " ");
    push_str(out, shell_quote(upstream.as_str()).as_str());
    push_str(out, " > ");
    push_str(out, shell_quote(log_path.as_str()).as_str());
    push_str(out, " 2>&1 < /dev/null & echo $! > ");
    push_str(out, pid.as_str());
    push_str(out, "\n");
}

fn route_proxy_lines(script: &mut String, route: &SharedServiceRoute, prefix: u8)
    ensures
        final(script)@ == old(script)@ + route_proxy_text(*route, prefix),
{
        let ip = route.alias_ip.text();
        let mut cidr = String::new();
        push_str(&mut cidr, ip.as_str());
        push_str(&mut cidr, "/");
        push_decimal(&mut cidr, prefix as u64);
        let mut check = String::new();
        push_str(&mut check, ip.as_str());
        push_str(&mut check, "/");
        push_str(script, "ip addr add ");
        push_str(script, shell_quote(cidr.as_str()).as_str());
        push_str(script, " dev docker0 2>/dev/null || true\n");
        let ghost mid = script@;
        let mut j: usize = 0;
        assert(route.ports@.subrange(0, 0) =~= Seq::<SharedServicePort>::empty());
        while j < route.ports.len()
            invariant
                j <= route.ports@.len(),
                ip@ == ipv4_text(route.alias_ip.bits),
                script@ == mid + ports_proxy_text(*route, route.ports@.subrange(0, j as int)),
            decreases route.ports.len() - j,
        {
            port_proxy_lines(script, route, &ip, route.ports[j]);
            assert(route.ports@.subrange(0, j + 1).drop_last() =~= route.ports@.subrange(
                0,
                j as int,
            ));
            j = j + 1;
        }
        assert(route.ports@.subrange(0, route.ports@.len() as int) =~= route.ports@);
        push_str(script, "ip -o -4 addr show dev docker0 | grep -q ");
        push_str(script, shell_quote(check.as_str()).as_str());
        push_str(script, "\n");
}

/// The shell script that starts one `socat` proxy per shared-service port,
/// bound to the service's alias address.
pub fn build_proxy_setup_script(plan: &SharedServiceRoutingPlan) -> (r: String)
    ensures
        r@ == proxy_script_header() + routes_proxy_text(plan.routes@, plan.docker0_prefix_len),
{
    let mut script = String::new();
    push_str(
        &mut script,
        "set -eu\n\
         if ! command -v socat >/dev/null 2>&1; then\n\
           if command -v apk >/dev/null 2>&1; then\n\
             apk add --no-cache socat >/dev/null\n\
           elif command -v apt-get >/dev/null 2>&1; then\n\
             apt-get update >/dev/null && DEBIAN_FRONTEND=noninteractive apt-get install -y socat >/dev/null\n\
           else\n\
             echo 'socat is required to proxy shared services inside the Coast container' >&2\n\
             exit 1\n\
           fi\n\
         fi\n\
         SOCAT_BIN=\"$(command -v socat)\"\n\
         mkdir -p /var/run/coast/shared-service-proxies /var/log/coast/shared-service-proxies\n",
    );
    let ghost rs = plan.routes@;
    let mut i: usize = 0;
    assert(rs.subrange(0, 0) =~= Seq::<SharedServiceRoute>::empty());
    while i < plan.routes.len()
        invariant
            i <= rs.len(),
            rs == plan.routes@,
            script@ == proxy_script_header() + routes_proxy_text(
                rs.subrange(0, i as int),
                plan.docker0_prefix_len,
            ),
        decreases plan.routes.len() - i,
    {
        route_proxy_lines(&mut script, &plan.routes[i], plan.docker0_prefix_len);
        assert(rs.subrange(0, i + 1).drop_last() =~= rs.subrange(0, i as int));
        i = i + 1;
    }
    assert(rs.subrange(0, rs.len() as int) =~= rs);
    script
}

/// A piece found inside a piece of a text is found in the text.
proof fn lemma_occurs_within(s: Seq<char>, x: Seq<char>, i: int, y: Seq<char>, j: int)
    requires
        occurs_at(s, x, i),
        occurs_at(x, y, j),
    ensures
        occurs_at(s, y, i + j),
{
    assert(s.subrange(i + j, i + j + y.len()) =~= x.subrange(j, j + y.len()));
}

/// The middle of a concatenation occurs in it after the first part.
proof fn lemma_occurs_concat(a: Seq<char>, x: Seq<char>, b: Seq<char>)
    ensures
        occurs_at(a + x + b, x, a.len() as int),
{
    assert((a + x + b).subrange(a.len() as int, (a.len() + x.len()) as int) =~= x);
}

/// The lines of each route are in the lines of the routes.
proof fn lemma_route_lines_in(rs: Seq<SharedServiceRoute>, prefix: u8, k: int) -> (i: int)
    requires
        0 <= k < rs.len(),
    ensures
        occurs_at(routes_proxy_text(rs, prefix), route_proxy_text(rs[k], prefix), i),
    decreases rs.len(),
{
    let init = rs.drop_last();
    let before = routes_proxy_text(init, prefix);
    if k == rs.len() - 1 {
        lemma_occurs_concat(before, route_proxy_text(rs[k], prefix), Seq::empty());
        assert(before + route_proxy_text(rs[k], prefix) + Seq::<char>::empty() =~= routes_proxy_text(rs, prefix));
        before.len() as int
    } else {
        assert(init[k] == rs[k]);
        let i = lemma_route_lines_in(init, prefix, k);
        lemma_occurs_concat(Seq::<char>::empty(), before, route_proxy_text(rs.last(), prefix));
        assert(Seq::<char>::empty() + before + route_proxy_text(rs.last(), prefix) =~= routes_proxy_text(rs, prefix));
        lemma_occurs_within(routes_proxy_text(rs, prefix), before, 0, route_proxy_text(rs[k], prefix), i);
        i
    }
}

/// The lines of each port are in the lines of the ports.
proof fn lemma_port_lines_in(r: SharedServiceRoute, ps: Seq<SharedServicePort>, k: int) -> (i: int)
    requires
        0 <= k < ps.len(),
    ensures
        occurs_at(ports_proxy_text(r, ps), port_proxy_text(r, ps[k]), i),
    decreases ps.len(),
{
    let init = ps.drop_last();
    let before = ports_proxy_text(r, init);
    if k == ps.len() - 1 {
        lemma_occurs_concat(before, port_proxy_text(r, ps[k]), Seq::empty());
        assert(before + port_proxy_text(r, ps[k]) + Seq::<char>::empty() =~= ports_proxy_text(r, ps));
        before.len() as int
    } else {
        assert(init[k] == ps[k]);
        let i = lemma_port_lines_in(r, init, k);
        lemma_occurs_concat(Seq::<char>::empty(), before, port_proxy_text(r, ps.last()));
        assert(Seq::<char>::empty() + before + port_proxy_text(r, ps.last()) =~= ports_proxy_text(r, ps));
        lemma_occurs_within(ports_proxy_text(r, ps), before, 0, port_proxy_text(r, ps[k]), i);
        i
    }
}

/// The `socat` listen address of one port of a route, quoted.
pub open spec fn proxy_listen_arg(r: SharedServiceRoute, p: SharedServicePort) -> Seq<char> {
    single_quoted(
        "TCP-LISTEN:"@ + decimal(p.container_port as nat) + ",bind="@ + ipv4_text(r.alias_ip.bits)
            + ",fork,reuseaddr"@,
    )
}

/// The `socat` target of one port of a route, quoted.
pub open spec fn proxy_target_arg(r: SharedServiceRoute, p: SharedServicePort) -> Seq<char> {
    single_quoted("TCP:"@ + r.target_container@ + ":"@ + decimal(p.container_port as nat))
}

/// The `ip addr add` of a route's alias, with the `docker0` prefix length.
pub open spec fn alias_add_line(r: SharedServiceRoute, prefix: u8) -> Seq<char> {
    "ip addr add "@ + single_quoted(ipv4_text(r.alias_ip.bits) + "/"@ + decimal(prefix as nat))
        + " dev docker0"@
}

/// The alias line of a route is in the script.
#[verifier::rlimit(40)]
#[verifier::spinoff_prover]
proof fn lemma_alias_line_in_script(routes: Seq<SharedServiceRoute>, prefix: u8, k: int)
    requires
        0 <= k < routes.len(),
    ensures
        contains_seq(proxy_script_header() + routes_proxy_text(routes, prefix), alias_add_line(routes[k], prefix)),
{
    let h = proxy_script_header();
    let body = routes_proxy_text(routes, prefix);
    let script = h + body;
    lemma_occurs_concat(h, body, Seq::empty());
    assert(h + body + Seq::<char>::empty() =~= script);
    let r = routes[k];
    let i = lemma_route_lines_in(routes, prefix, k);
    let line = alias_add_line(r, prefix);
    let rest = " 2>/dev/null || true\n"@ + ports_proxy_text(r, r.ports@) + "ip -o -4 addr show dev docker0 | grep -q "@
        + single_quoted(ipv4_text(r.alias_ip.bits) + "/"@) + "\n"@;
    reveal_strlit(" dev docker0 2>/dev/null || true\n");
    reveal_strlit(" dev docker0");
    reveal_strlit(" 2>/dev/null || true\n");
    assert(" dev docker0 2>/dev/null || true\n"@ =~= " dev docker0"@ + " 2>/dev/null || true\n"@);
    assert(route_proxy_text(r, prefix) =~= Seq::<char>::empty() + line + rest);
    lemma_occurs_concat(Seq::<char>::empty(), line, rest);
    lemma_occurs_within(body, route_proxy_text(r, prefix), i, line, 0);
    lemma_occurs_within(script, body, h.len() as int, line, i);
}

/// The `socat` arguments of a port are in the port's lines.
#[verifier::rlimit(40)]
#[verifier::spinoff_prover]
proof fn lemma_port_line_args(r: SharedServiceRoute, p: SharedServicePort) -> (ab: (int, int))
    ensures
        occurs_at(port_proxy_text(r, p), proxy_listen_arg(r, p), ab.0),
        occurs_at(port_proxy_text(r, p), proxy_target_arg(r, p), ab.1),
{
    let pid = single_quoted(proxy_pid_path(r.service_name@, p.container_port));
    let pre = "if [ -f "@ + pid + " ]; then old_pid=\"$(cat "@ + pid
        + " 2>/dev/null || true)\"; if [ -n \"$old_pid\" ] && kill -0 \"$old_pid\" 2>/dev/null; then kill \"$old_pid\" 2>/dev/null || true; fi; fi\n"@
        + "nohup \"$SOCAT_BIN\" "@;
    let listen = proxy_listen_arg(r, p);
    let target = proxy_target_arg(r, p);
    let post = " > "@ + single_quoted(proxy_log_path(r.service_name@, p.container_port))
        + " 2>&1 < /dev/null & echo $! > "@ + pid + "\n"@;
    let line = port_proxy_text(r, p);
    let mid = pre + listen + " "@;
    assert(line == pre + listen + " "@ + target + post);
    assert(line =~= pre + listen + (" "@ + target + post));
    lemma_occurs_concat(pre, listen, " "@ + target + post);
    lemma_occurs_concat(mid, target, post);
    (pre.len() as int, mid.len() as int)
}

/// The lines of a route's ports are in the route's lines.
proof fn lemma_ports_in_route(r: SharedServiceRoute, prefix: u8) -> (i: int)
    ensures
        occurs_at(route_proxy_text(r, prefix), ports_proxy_text(r, r.ports@), i),
{
    let ip = ipv4_text(r.alias_ip.bits);
    let head = "ip addr add "@ + single_quoted(ip + "/"@ + decimal(prefix as nat))
        + " dev docker0 2>/dev/null || true\n"@;
    let tail = "ip -o -4 addr show dev docker0 | grep -q "@ + single_quoted(ip + "/"@) + "\n"@;
    let ports = ports_proxy_text(r, r.ports@);
    assert(route_proxy_text(r, prefix) =~= head + ports + tail);
    lemma_occurs_concat(head, ports, tail);
    head.len() as int
}

/// The `socat` arguments of one port of a route are in the route's lines.
proof fn lemma_port_args_in_route(r: SharedServiceRoute, prefix: u8, m: int) -> (ij: (int, int))
    requires
        0 <= m < r.ports@.len(),
    ensures
        occurs_at(route_proxy_text(r, prefix), proxy_listen_arg(r, r.ports@[m]), ij.0),
        occurs_at(route_proxy_text(r, prefix), proxy_target_arg(r, r.ports@[m]), ij.1),
{
    let p = r.ports@[m];
    let j = lemma_port_lines_in(r, r.ports@, m);
    let h = lemma_ports_in_route(r, prefix);
    let (a, b) = lemma_port_line_args(r, p);
    let ports = ports_proxy_text(r, r.ports@);
    let rl = route_proxy_text(r, prefix);
    lemma_occurs_within(ports, port_proxy_text(r, p), j, proxy_listen_arg(r, p), a);
    lemma_occurs_within(ports, port_proxy_text(r, p), j, proxy_target_arg(r, p), b);
    lemma_occurs_within(rl, ports, h, proxy_listen_arg(r, p), j + a);
    lemma_occurs_within(rl, ports, h, proxy_target_arg(r, p), j + b);
    (h + j + a, h + j + b)
}

/// The proxy script starts with `set -eu`, so that a failing step stops it.
pub proof fn law_proxy_script_stops_on_error(routes: Seq<SharedServiceRoute>, prefix: u8)
    ensures
        has_prefix(proxy_script_header() + routes_proxy_text(routes, prefix), "set -eu\n"@),
{
    reveal_strlit("set -eu\n\
     if ! command -v socat >/dev/null 2>&1; then\n\
       if command -v apk >/dev/null 2>&1; then\n\
         apk add --no-cache socat >/dev/null\n\
       elif command -v apt-get >/dev/null 2>&1; then\n\
         apt-get update >/dev/null && DEBIAN_FRONTEND=noninteractive apt-get install -y socat >/dev/null\n\
       else\n\
         echo 'socat is required to proxy shared services inside the Coast container' >&2\n\
         exit 1\n\
       fi\n\
     fi\n\
     SOCAT_BIN=\"$(command -v socat)\"\n\
     mkdir -p /var/run/coast/shared-service-proxies /var/log/coast/shared-service-proxies\n");
    reveal_strlit("set -eu\n");
    let script = proxy_script_header() + routes_proxy_text(routes, prefix);
    assert(script.subrange(0, 8) =~= "set -eu\n"@);
}

/// For every route the proxy script adds the route's alias to `docker0`,
/// and for every port of the route it runs a `socat` that listens on the
/// alias and forwards to the route's target on the same port. Without
/// routes the script is its fixed header alone.
pub proof fn law_proxy_script_covers_routes(routes: Seq<SharedServiceRoute>, prefix: u8)
    ensures
        forall|k: int|
            0 <= k < routes.len() ==> contains_seq(
                proxy_script_header() + routes_proxy_text(routes, prefix),
                alias_add_line(#[trigger] routes[k], prefix),
            ),
        forall|k: int, m: int|
            0 <= k < routes.len() && 0 <= m < routes[k].ports@.len() ==> {
                let script = proxy_script_header() + routes_proxy_text(routes, prefix);
                &&& contains_seq(script, proxy_listen_arg(routes[k], #[trigger] routes[k].ports@[m]))
                &&& contains_seq(script, proxy_target_arg(routes[k], routes[k].ports@[m]))
            },
        routes.len() == 0 ==> proxy_script_header() + routes_proxy_text(routes, prefix) == proxy_script_header(),
{
    let h = proxy_script_header();
    let body = routes_proxy_text(routes, prefix);
    let script = h + body;
    lemma_occurs_concat(h, body, Seq::empty());
    assert(h + body + Seq::<char>::empty() =~= script);
    assert forall|k: int| 0 <= k < routes.len() implies contains_seq(script, alias_add_line(#[trigger] routes[k], prefix)) by {
        lemma_alias_line_in_script(routes, prefix, k);
    }
    assert forall|k: int, m: int| 0 <= k < routes.len() && 0 <= m < routes[k].ports@.len() implies {
        &&& contains_seq(script, proxy_listen_arg(routes[k], #[trigger] routes[k].ports@[m]))
        &&& contains_seq(script, proxy_target_arg(routes[k], routes[k].ports@[m]))
    } by {
        let r = routes[k];
        let i = lemma_route_lines_in(routes, prefix, k);
        let (a, b) = lemma_port_args_in_route(r, prefix, m);
        let rl = route_proxy_text(r, prefix);
        lemma_occurs_within(body, rl, i, proxy_listen_arg(r, r.ports@[m]), a);
        lemma_occurs_within(body, rl, i, proxy_target_arg(r, r.ports@[m]), b);
        lemma_occurs_within(script, body, h.len() as int, proxy_listen_arg(r, r.ports@[m]), i + a);
        lemma_occurs_within(script, body, h.len() as int, proxy_target_arg(r, r.ports@[m]), i + b);
    }
    if routes.len() == 0 {
        assert(script =~= h);
    }
}

/// A route as plain values: service name, alias address, target
/// container, ports.
pub open spec fn route_view(r: SharedServiceRoute) -> (Seq<char>, u32, Seq<char>, Seq<SharedServicePort>) {
    (r.service_name@, r.alias_ip.bits, r.target_container@, r.ports@)
}

/// The routes of a plan as plain values.
pub open spec fn plan_routes_view(p: SharedServiceRoutingPlan) -> Seq<(Seq<char>, u32, Seq<char>, Seq<SharedServicePort>)> {
    p.routes@.map_values(|r: SharedServiceRoute| route_view(r))
}

/// Two listings of the same distinctly named shared services give the same
/// plan: the same routes in the same order when both succeed, the same
/// error otherwise, and never one of each.
pub proof fn law_routing_plan_ignores_listing_order(
    r1: Result<SharedServiceRoutingPlan, CoastError>,
    r2: Result<SharedServiceRoutingPlan, CoastError>,
    s1: Seq<SharedServiceConfig>,
    s2: Seq<SharedServiceConfig>,
    t: Seq<(Seq<char>, Seq<char>)>,
    ip: u32,
    prefix: u8,
)
    requires
        plan_outcome(r1, s1, t, ip, prefix),
        plan_outcome(r2, s2, t, ip, prefix),
        service_names(s1).no_duplicates(),
        service_names(s2).no_duplicates(),
        s1.len() == s2.len(),
        forall|i: int| 0 <= i < s1.len() ==> s2.contains(#[trigger] s1[i]),
        forall|j: int| 0 <= j < s2.len() ==> s1.contains(#[trigger] s2[j]),
    ensures
        match (r1, r2) {
            (Ok(p1), Ok(p2)) => p1.docker0_prefix_len == p2.docker0_prefix_len && plan_routes_view(p1)
                == plan_routes_view(p2),
            (Err(e1), Err(e2)) => error_message(e1) == error_message(e2),
            _ => false,
        },
{
    let o1 = choose|o: Seq<usize>| #![trigger is_name_order(service_names(s1), o)]
        is_name_order(service_names(s1), o) && match r1 {
            Ok(plan) => plan.docker0_prefix_len == prefix && plan.routes@.len() == s1.len() && (forall|k: int|
                0 <= k < s1.len() ==> routable(#[trigger] s1[o[k] as int], t, prefix, k)) && forall|k: int|
                0 <= k < s1.len() ==> route_matches(#[trigger] plan.routes@[k], s1[o[k] as int], t, ip, prefix, k),
            Err(e) => exists|k: int|
                0 <= k < s1.len() && !routable(#[trigger] s1[o[k] as int], t, prefix, k) && (forall|j: int|
                    0 <= j < k ==> routable(#[trigger] s1[o[j] as int], t, prefix, j)) && (e matches CoastError::Docker(
                    m,
                ) && m@ == route_error(s1[o[k] as int], t, ip, prefix)),
        };
    let o2 = choose|o: Seq<usize>| #![trigger is_name_order(service_names(s2), o)]
        is_name_order(service_names(s2), o) && match r2 {
            Ok(plan) => plan.docker0_prefix_len == prefix && plan.routes@.len() == s2.len() && (forall|k: int|
                0 <= k < s2.len() ==> routable(#[trigger] s2[o[k] as int], t, prefix, k)) && forall|k: int|
                0 <= k < s2.len() ==> route_matches(#[trigger] plan.routes@[k], s2[o[k] as int], t, ip, prefix, k),
            Err(e) => exists|k: int|
                0 <= k < s2.len() && !routable(#[trigger] s2[o[k] as int], t, prefix, k) && (forall|j: int|
                    0 <= j < k ==> routable(#[trigger] s2[o[j] as int], t, prefix, j)) && (e matches CoastError::Docker(
                    m,
                ) && m@ == route_error(s2[o[k] as int], t, ip, prefix)),
        };
    law_name_order_ignores_listing_order(s1, s2, o1, o2);
    match (r1, r2) {
        (Ok(p1), Ok(p2)) => {
            assert forall|k: int| 0 <= k < p1.routes@.len() implies plan_routes_view(p1)[k] == plan_routes_view(p2)[k] by {
                assert(s1[o1[k] as int] == s2[o2[k] as int]);
                assert(route_matches(p1.routes@[k], s1[o1[k] as int], t, ip, prefix, k));
                assert(route_matches(p2.routes@[k], s2[o2[k] as int], t, ip, prefix, k));
            }
            assert(plan_routes_view(p1) =~= plan_routes_view(p2));
        },
        (Ok(p1), Err(e2)) => {
            let k = choose|k: int|
                0 <= k < s2.len() && !routable(#[trigger] s2[o2[k] as int], t, prefix, k) && (forall|j: int|
                    0 <= j < k ==> routable(#[trigger] s2[o2[j] as int], t, prefix, j)) && (e2 matches CoastError::Docker(
                    m,
                ) && m@ == route_error(s2[o2[k] as int], t, ip, prefix));
            assert(s1[o1[k] as int] == s2[o2[k] as int]);
            assert(routable(s1[o1[k] as int], t, prefix, k));
        },
        (Err(e1), Ok(p2)) => {
            let k = choose|k: int|
                0 <= k < s1.len() && !routable(#[trigger] s1[o1[k] as int], t, prefix, k) && (forall|j: int|
                    0 <= j < k ==> routable(#[trigger] s1[o1[j] as int], t, prefix, j)) && (e1 matches CoastError::Docker(
                    m,
                ) && m@ == route_error(s1[o1[k] as int], t, ip, prefix));
            assert(s1[o1[k] as int] == s2[o2[k] as int]);
            assert(routable(s2[o2[k] as int], t, prefix, k));
        },
        (Err(e1), Err(e2)) => {
            let k1 = choose|k: int|
                0 <= k < s1.len() && !routable(#[trigger] s1[o1[k] as int], t, prefix, k) && (forall|j: int|
                    0 <= j < k ==> routable(#[trigger] s1[o1[j] as int], t, prefix, j)) && (e1 matches CoastError::Docker(
                    m,
                ) && m@ == route_error(s1[o1[k] as int], t, ip, prefix));
            let k2 = choose|k: int|
                0 <= k < s2.len() && !routable(#[trigger] s2[o2[k] as int], t, prefix, k) && (forall|j: int|
                    0 <= j < k ==> routable(#[trigger] s2[o2[j] as int], t, prefix, j)) && (e2 matches CoastError::Docker(
                    m,
                ) && m@ == route_error(s2[o2[k] as int], t, ip, prefix));
            assert(s1[o1[k1] as int] == s2[o2[k1] as int]);
            assert(s1[o1[k2] as int] == s2[o2[k2] as int]);
            if k1 < k2 {
                assert(routable(s2[o2[k1] as int], t, prefix, k1));
            } else if k2 < k1 {
                assert(routable(s1[o1[k2] as int], t, prefix, k2));
            }
        },
    }
}

/// A text without a single quote.
pub open spec fn quote_free(s: Seq<char>) -> bool {
    forall|i: int| 0 <= i < s.len() ==> s[i] != '\''
}

proof fn lemma_quote_free_concat(a: Seq<char>, b: Seq<char>)
    requires
        quote_free(a),
        quote_free(b),
    ensures
        quote_free(a + b),
{
    assert forall|i: int| 0 <= i < (a + b).len() implies (a + b)[i] != '\'' by {
        if i >= a.len() {
            assert((a + b)[i] == b[i - a.len()]);
        }
    }
}

proof fn lemma_quote_free_decimal(n: nat)
    ensures
        quote_free(decimal(n)),
    decreases n,
{
    if n >= 10 {
        lemma_quote_free_decimal(n / 10);
        let d = decimal(n / 10);
        assert forall|i: int| 0 <= i < decimal(n).len() implies decimal(n)[i] != '\'' by {
            if i < d.len() {
                assert(decimal(n)[i] == d[i]);
            }
        }
    }
}

proof fn lemma_quote_free_ipv4(x: u32)
    ensures
        quote_free(ipv4_text(x)),
{
    reveal_strlit(".");
    lemma_quote_free_decimal((x / 16777216) as nat);
    lemma_quote_free_decimal(((x / 65536) % 256) as nat);
    lemma_quote_free_decimal(((x / 256) % 256) as nat);
    lemma_quote_free_decimal((x % 256) as nat);
    let a = decimal((x / 16777216) as nat);
    let b = decimal(((x / 65536) % 256) as nat);
    let c = decimal(((x / 256) % 256) as nat);
    let d = decimal((x % 256) as nat);
    lemma_quote_free_concat(a, "."@);
    lemma_quote_free_concat(a + "."@, b);
    lemma_quote_free_concat(a + "."@ + b, "."@);
    lemma_quote_free_concat(a + "."@ + b + "."@, c);
    lemma_quote_free_concat(a + "."@ + b + "."@ + c, "."@);
    lemma_quote_free_concat(a + "."@ + b + "."@ + c + "."@, d);
}

/// A word without a single quote is quoted by wrapping it in quotes.
proof fn lemma_quote_free_quoted(s: Seq<char>)
    requires
        quote_free(s),
    ensures
        single_quoted(s) == seq!['\''] + s + seq!['\''],
        occurs_at(single_quoted(s), s, 1),
    decreases s.len(),
{
    lemma_replace_absent(s);
    assert((seq!['\''] + s + seq!['\'']).subrange(1, (1 + s.len()) as int) =~= s);
}

proof fn lemma_replace_absent(s: Seq<char>)
    requires
        quote_free(s),
    ensures
        crate::text::replace_char(s, '\'', crate::shell::quote_escape()) == s,
    decreases s.len(),
{
    if s.len() > 0 {
        let init = s.drop_last();
        assert forall|i: int| 0 <= i < init.len() implies init[i] != '\'' by {
            assert(init[i] == s[i]);
        }
        lemma_replace_absent(init);
        assert(s[s.len() - 1] != '\'');
        assert(init + seq![s.last()] =~= s);
    }
}

proof fn lemma_quote_free_words()
    ensures
        quote_free("TCP-LISTEN:"@),
        quote_free(",bind="@),
        quote_free(",fork,reuseaddr"@),
        quote_free("TCP:"@),
        quote_free(":"@),
        quote_free("/"@),
{
    reveal_strlit("TCP-LISTEN:");
    reveal_strlit(",bind=");
    reveal_strlit(",fork,reuseaddr");
    reveal_strlit("TCP:");
    reveal_strlit(":");
    reveal_strlit("/");
}

/// The proxy script read through its quoting: the alias line of every
/// route is `ip addr add '<alias>/<prefix>' dev docker0`; every port's
/// `socat` listens on `TCP-LISTEN:<port>,bind=<alias>,fork,reuseaddr`, and
/// forwards to `TCP:<target>:<port>` when the target's name holds no single
/// quote (one that does is escaped for `sh`).
#[verifier::rlimit(40)]
#[verifier::spinoff_prover]
pub proof fn law_proxy_script_words(routes: Seq<SharedServiceRoute>, prefix: u8)
    ensures
        forall|k: int|
            0 <= k < routes.len() ==> contains_seq(
                proxy_script_header() + routes_proxy_text(routes, prefix),
                "ip addr add '"@ + ipv4_text((#[trigger] routes[k]).alias_ip.bits) + "/"@ + decimal(prefix as nat)
                    + "' dev docker0"@,
            ),
        forall|k: int, m: int|
            0 <= k < routes.len() && 0 <= m < routes[k].ports@.len() ==> contains_seq(
                proxy_script_header() + routes_proxy_text(routes, prefix),
                "TCP-LISTEN:"@ + decimal((#[trigger] routes[k].ports@[m]).container_port as nat) + ",bind="@
                    + ipv4_text(routes[k].alias_ip.bits) + ",fork,reuseaddr"@,
            ),
        forall|k: int, m: int|
            0 <= k < routes.len() && 0 <= m < routes[k].ports@.len() && quote_free(routes[k].target_container@)
                ==> contains_seq(
                proxy_script_header() + routes_proxy_text(routes, prefix),
                "TCP:"@ + routes[k].target_container@ + ":"@ + decimal(
                    (#[trigger] routes[k].ports@[m]).container_port as nat,
                ),
            ),
{
    let script = proxy_script_header() + routes_proxy_text(routes, prefix);
    law_proxy_script_covers_routes(routes, prefix);
    lemma_quote_free_words();
    assert forall|k: int| 0 <= k < routes.len() implies contains_seq(
        script,
        "ip addr add '"@ + ipv4_text((#[trigger] routes[k]).alias_ip.bits) + "/"@ + decimal(prefix as nat)
            + "' dev docker0"@,
    ) by {
        let ip = ipv4_text(routes[k].alias_ip.bits);
        let w = ip + "/"@ + decimal(prefix as nat);
        lemma_quote_free_ipv4(routes[k].alias_ip.bits);
        lemma_quote_free_decimal(prefix as nat);
        lemma_quote_free_concat(ip, "/"@);
        lemma_quote_free_concat(ip + "/"@, decimal(prefix as nat));
        lemma_quote_free_quoted(w);
        reveal_strlit("ip addr add '");
        reveal_strlit("ip addr add ");
        reveal_strlit("' dev docker0");
        reveal_strlit(" dev docker0");
        assert("ip addr add '"@ + w + "' dev docker0"@ =~= alias_add_line(routes[k], prefix));
        assert("ip addr add '"@ + ip + "/"@ + decimal(prefix as nat) + "' dev docker0"@ =~= alias_add_line(
            routes[k],
            prefix,
        ));
        assert(contains_seq(script, alias_add_line(routes[k], prefix)));
    }
    assert forall|k: int, m: int| 0 <= k < routes.len() && 0 <= m < routes[k].ports@.len() implies contains_seq(
        script,
        "TCP-LISTEN:"@ + decimal((#[trigger] routes[k].ports@[m]).container_port as nat) + ",bind="@
            + ipv4_text(routes[k].alias_ip.bits) + ",fork,reuseaddr"@,
    ) by {
        let p = routes[k].ports@[m];
        let cp = decimal(p.container_port as nat);
        let ip = ipv4_text(routes[k].alias_ip.bits);
        lemma_quote_free_decimal(p.container_port as nat);
        lemma_quote_free_ipv4(routes[k].alias_ip.bits);
        lemma_quote_free_concat("TCP-LISTEN:"@, cp);
        lemma_quote_free_concat("TCP-LISTEN:"@ + cp, ",bind="@);
        lemma_quote_free_concat("TCP-LISTEN:"@ + cp + ",bind="@, ip);
        lemma_quote_free_concat("TCP-LISTEN:"@ + cp + ",bind="@ + ip, ",fork,reuseaddr"@);
        let word = "TCP-LISTEN:"@ + cp + ",bind="@ + ip + ",fork,reuseaddr"@;
        lemma_quote_free_quoted(word);
        assert(contains_seq(script, proxy_listen_arg(routes[k], p)));
        let i = choose|i: int| occurs_at(script, proxy_listen_arg(routes[k], p), i);
        lemma_occurs_within(script, single_quoted(word), i, word, 1);
    }
    assert forall|k: int, m: int|
        0 <= k < routes.len() && 0 <= m < routes[k].ports@.len() && quote_free(routes[k].target_container@)
            implies contains_seq(
        script,
        "TCP:"@ + routes[k].target_container@ + ":"@ + decimal(
            (#[trigger] routes[k].ports@[m]).container_port as nat,
        ),
    ) by {
        let p = routes[k].ports@[m];
        let cp = decimal(p.container_port as nat);
        let target = routes[k].target_container@;
        lemma_quote_free_decimal(p.container_port as nat);
        lemma_quote_free_concat("TCP:"@, target);
        lemma_quote_free_concat("TCP:"@ + target, ":"@);
        lemma_quote_free_concat("TCP:"@ + target + ":"@, cp);
        let word = "TCP:"@ + target + ":"@ + cp;
        lemma_quote_free_quoted(word);
        assert(contains_seq(script, proxy_target_arg(routes[k], p)));
        let i = choose|i: int| occurs_at(script, proxy_target_arg(routes[k], p), i);
        lemma_occurs_within(script, single_quoted(word), i, word, 1);
    }
}

/// Splitting at the dot after a run of digits gives the digits first.
proof fn lemma_split_after_digits(a: Seq<char>, rest: Seq<char>)
    requires
        all_digits(a),
    ensures
        split_on(a + "."@ + rest, '.') == seq![a] + split_on(rest, '.'),
{
    reveal_strlit(".");
    let s = a + "."@ + rest;
    let k = a.len() as int;
    assert(s[k] == '.');
    assert forall|i: int| 0 <= i < k implies s[i] != '.' by {
        assert(s[i] == a[i]);
        assert(crate::text::is_digit(a[i]));
    }
    crate::text::lemma_split_on_step(s, '.', k);
    assert(s.subrange(0, k) =~= a);
    assert(s.subrange(k + 1, s.len() as int) =~= rest);
}

/// The dotted-decimal text of an address reads back as the address
/// (`Ipv4Addr::from_str` of its `Display`).
pub proof fn law_ipv4_text_reads_back(x: u32)
    ensures
        parse_ipv4(ipv4_text(x)) == Some(x),
{
    let a = (x / 16777216) as nat;
    let b = ((x / 65536) % 256) as nat;
    let c = ((x / 256) % 256) as nat;
    let d = (x % 256) as nat;
    crate::text::lemma_decimal_reads_back(a);
    crate::text::lemma_decimal_reads_back(b);
    crate::text::lemma_decimal_reads_back(c);
    crate::text::lemma_decimal_reads_back(d);
    let (ta, tb, tc, td) = (decimal(a), decimal(b), decimal(c), decimal(d));
    assert forall|i: int| 0 <= i < td.len() implies td[i] != '.' by {
        assert(crate::text::is_digit(td[i]));
    }
    crate::text::lemma_split_on_last(td, '.');
    lemma_split_after_digits(tc, td);
    lemma_split_after_digits(tb, tc + "."@ + td);
    lemma_split_after_digits(ta, tb + "."@ + tc + "."@ + td);
    assert(ipv4_text(x) =~= ta + "."@ + (tb + "."@ + tc + "."@ + td));
    assert(tb + "."@ + tc + "."@ + td =~= tb + "."@ + (tc + "."@ + td));
    let parts = split_on(ipv4_text(x), '.');
    assert(parts =~= seq![ta, tb, tc, td]);
    assert(octet_text_ok(ta) && octet_text_ok(tb) && octet_text_ok(tc) && octet_text_ok(td)) by {
        if a == 0 { assert(ta.len() == 1); }
        if b == 0 { assert(tb.len() == 1); }
        if c == 0 { assert(tc.len() == 1); }
        if d == 0 { assert(td.len() == 1); }
    }
    assert(a * 16777216 + b * 65536 + c * 256 + d == x) by {
        assert((x / 16777216) * 16777216 + ((x / 65536) % 256) * 65536 + ((x / 256) % 256) * 256 + x % 256 == x)
            by (bit_vector);
    }
}

/// Each name in a plan's host map reaches its shared service at the route's
/// alias address: the value read as an address is the alias.
pub proof fn law_host_map_reads_as_alias(routes: Seq<SharedServiceRoute>)
    ensures
        host_pairs(routes).len() == routes.len(),
        forall|k: int|
            0 <= k < routes.len() ==> (#[trigger] host_pairs(routes)[k]).0 == routes[k].service_name@
                && parse_ipv4(host_pairs(routes)[k].1) == Some(routes[k].alias_ip.bits),
{
    assert forall|k: int| 0 <= k < routes.len() implies (#[trigger] host_pairs(routes)[k]).0
        == routes[k].service_name@ && parse_ipv4(host_pairs(routes)[k].1) == Some(routes[k].alias_ip.bits) by {
        law_ipv4_text_reads_back(routes[k].alias_ip.bits);
    }
}

/// An alias with room is a usable host of the docker0 subnet: it lies in
/// the same subnet as the docker0 address, is neither the subnet's network
/// address nor its broadcast address, and later positions get lower
/// addresses, so no two positions share one.
pub proof fn law_aliases_are_distinct_hosts_of_the_subnet(ip: u32, prefix: u8, i: int, j: int)
    requires
        0 <= i,
        alias_room(prefix, i),
    ensures
        ({
            let b = pow2(host_bits(prefix)) as int;
            let a = alias_address(ip, prefix, i);
            &&& a / b == (ip as int) / b
            &&& 0 < a % b < b - 1
            &&& 0 <= a
            &&& (i < j ==> alias_address(ip, prefix, j) < a)
        }),
{
    let hb = host_bits(prefix);
    lemma_pow2_pos(hb);
    let b = pow2(hb) as int;
    let x = ip as int;
    vstd::arithmetic::div_mod::lemma_fundamental_div_mod(x, b);
    let r = b - 2 - i;
    assert(1 < r < b);
    let a = alias_address(ip, prefix, i);
    assert(a == (x / b) * b + r) by {
        assert(x == b * (x / b) + x % b);
        vstd::arithmetic::mul::lemma_mul_is_commutative(b, x / b);
    }
    vstd::arithmetic::div_mod::lemma_fundamental_div_mod_converse(a, b, x / b, r);
    assert(0 <= a) by {
        vstd::arithmetic::div_mod::lemma_div_pos_is_pos(x, b);
        vstd::arithmetic::mul::lemma_mul_nonnegative(x / b, b);
    }
}

} // verus!
