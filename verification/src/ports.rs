//! Ports of an instance and of shared services: the dynamic port mappings
//! and the environment variables that announce them, the published ports of
//! a shared-service container, and the reading of Docker's port errors.
use vstd::prelude::*;

use crate::routing::{lookup, lookup_exec, pair_views};
use crate::status::{error_message, CoastError};
use crate::text::{
    chars_of, contains_seq, decimal, decimal_string, find_char_in, find_str, first_index,
    index_of_char, parse_uint, parse_uint_exec, push_char, push_decimal, push_str, str_contains,
    views,
};

verus! {

// ---------------------------------------------------------------------------
// Dynamic port mappings
// ---------------------------------------------------------------------------

/// A logical port of an instance: its canonical port inside the coast and the
/// dynamic port on the host.
#[derive(Debug)]
pub struct PortMapping {
    pub logical_name: String,
    pub canonical_port: u16,
    pub dynamic_port: u16,
    pub is_primary: bool,
}

/// The mappings of pre-allocated ports `(logical name, canonical, dynamic)`,
/// none of them primary.
pub fn port_mappings_from_pre_allocated_ports(pre_allocated_ports: &Vec<(String, u16, u16)>) -> (r:
    Vec<PortMapping>)
    ensures
        r@.len() == pre_allocated_ports@.len(),
        forall|i: int|
            0 <= i < r@.len() ==> (#[trigger] r@[i]).logical_name@ == pre_allocated_ports@[i].0@
                && r@[i].canonical_port == pre_allocated_ports@[i].1 && r@[i].dynamic_port
                == pre_allocated_ports@[i].2 && !r@[i].is_primary,
{
    let mut out: Vec<PortMapping> = Vec::new();
    let mut i: usize = 0;
    while i < pre_allocated_ports.len()
        invariant
            i <= pre_allocated_ports@.len(),
            out@.len() == i,
            forall|j: int|
                0 <= j < i ==> (#[trigger] out@[j]).logical_name@ == pre_allocated_ports@[j].0@
                    && out@[j].canonical_port == pre_allocated_ports@[j].1 && out@[j].dynamic_port
                    == pre_allocated_ports@[j].2 && !out@[j].is_primary,
        decreases pre_allocated_ports.len() - i,
    {
        let (name, canonical, dynamic) = &pre_allocated_ports[i];
        out.push(
            PortMapping {
                logical_name: name.clone(),
                canonical_port: *canonical,
                dynamic_port: *dynamic,
                is_primary: false,
            },
        );
        i = i + 1;
    }
    out
}

/// A character of a logical port name as it appears in an environment
/// variable name: `-` becomes `_`, ASCII letters are upper-cased.
pub open spec fn env_char(c: char) -> char {
    if c == '-' {
        '_'
    } else if 'a' <= c && c <= 'z' {
        ((c as u32) - 32) as char
    } else {
        c
    }
}

/// The environment variable that carries a logical port's dynamic port.
pub open spec fn dynamic_env_name(logical: Seq<char>) -> Seq<char> {
    logical.map_values(|c: char| env_char(c)) + "_DYNAMIC_PORT"@
}

/// The name of the environment variable that carries a logical port's
/// dynamic port, such as `BACKEND_TEST_DYNAMIC_PORT` for `backend-test`.
pub fn dynamic_port_env_name(logical_name: &str) -> (r: String)
    ensures
        r@ == dynamic_env_name(logical_name@),
{
    let v = chars_of(logical_name);
    let mut out = String::new();
    let mut i: usize = 0;
    while i < v.len()
        invariant
            i <= v@.len(),
            v@ == logical_name@,
            out@ == v@.subrange(0, i as int).map_values(|c: char| env_char(c)),
        decreases v.len() - i,
    {
        let c = v[i];
        let e = if c == '-' {
            '_'
        } else if 'a' <= c && c <= 'z' {
            ((c as u8) - 32) as char
        } else {
            c
        };
        push_char(&mut out, e);
        assert(v@.subrange(0, i + 1).map_values(|c: char| env_char(c)) =~= v@.subrange(
            0,
            i as int,
        ).map_values(|c: char| env_char(c)).push(env_char(c)));
        i = i + 1;
    }
    assert(v@.subrange(0, v@.len() as int) =~= v@);
    push_str(&mut out, "_DYNAMIC_PORT");
    out
}

/// The environment pairs that announce the dynamic ports, in order.
pub open spec fn dynamic_env_pairs(pre: Seq<(String, u16, u16)>) -> Seq<(Seq<char>, Seq<char>)> {
    pre.map_values(|p: (String, u16, u16)| (dynamic_env_name(p.0@), decimal(p.2 as nat)))
}

/// Adds each pair whose key is not set yet, in order.
pub open spec fn merge_pairs(env: Seq<(Seq<char>, Seq<char>)>, add: Seq<(Seq<char>, Seq<char>)>) -> Seq<
    (Seq<char>, Seq<char>),
>
    decreases add.len(),
{
    if add.len() == 0 {
        env
    } else {
        let acc = merge_pairs(env, add.drop_last());
        if lookup(acc, add.last().0) is Some {
            acc
        } else {
            acc.push(add.last())
        }
    }
}

/// Looking up a key after a pair is appended.
pub proof fn lemma_lookup_push(s: Seq<(Seq<char>, Seq<char>)>, p: (Seq<char>, Seq<char>), k: Seq<char>)
    ensures
        lookup(s.push(p), k) == (match lookup(s, k) {
            Some(v) => Some(v),
            None => if p.0 == k {
                Some(p.1)
            } else {
                None
            },
        }),
    decreases s.len(),
{
    if s.len() > 0 {
        lemma_lookup_push(s.drop_first(), p, k);
        assert(s.push(p)[0] == s[0]);
        assert(s.push(p).drop_first() =~= s.drop_first().push(p));
    } else {
        assert(s.push(p)[0] == p);
        assert(s.push(p).drop_first() =~= Seq::<(Seq<char>, Seq<char>)>::empty());
        assert(lookup(Seq::<(Seq<char>, Seq<char>)>::empty(), k) is None);
        assert(lookup(s, k) is None);
    }
}

/// After a merge every key keeps the value it had, and a key that had none
/// takes the value of the first added pair with that key.
pub proof fn law_merge_keeps_existing_values(
    env: Seq<(Seq<char>, Seq<char>)>,
    add: Seq<(Seq<char>, Seq<char>)>,
    k: Seq<char>,
)
    ensures
        lookup(merge_pairs(env, add), k) == (match lookup(env, k) {
            Some(v) => Some(v),
            None => lookup(add, k),
        }),
    decreases add.len(),
{
    if add.len() > 0 {
        let rest = add.drop_last();
        let p = add.last();
        law_merge_keeps_existing_values(env, rest, k);
        law_merge_keeps_existing_values(env, rest, p.0);
        lemma_lookup_push(rest, p, k);
        assert(rest.push(p) =~= add);
        let acc = merge_pairs(env, rest);
        if lookup(acc, p.0) is None {
            lemma_lookup_push(acc, p, k);
        }
    }
}

/// Adds an environment variable for each dynamic port, unless the variable
/// is already set: an existing value is kept.
pub fn merge_dynamic_port_env_vars(
    env_vars: &mut Vec<(String, String)>,
    pre_allocated_ports: &Vec<(String, u16, u16)>,
)
    ensures
        pair_views(final(env_vars)@) == merge_pairs(
            pair_views(old(env_vars)@),
            dynamic_env_pairs(pre_allocated_ports@),
        ),
        forall|k: Seq<char>|
            #[trigger] lookup(pair_views(final(env_vars)@), k) == (match lookup(
                pair_views(old(env_vars)@),
                k,
            ) {
                Some(v) => Some(v),
                None => lookup(dynamic_env_pairs(pre_allocated_ports@), k),
            }),
{
    let ghost start = pair_views(env_vars@);
    let ghost add = dynamic_env_pairs(pre_allocated_ports@);
    let mut i: usize = 0;
    while i < pre_allocated_ports.len()
        invariant
            i <= pre_allocated_ports@.len(),
            add == dynamic_env_pairs(pre_allocated_ports@),
            pair_views(env_vars@) == merge_pairs(start, add.subrange(0, i as int)),
        decreases pre_allocated_ports.len() - i,
    {
        let key = dynamic_port_env_name(pre_allocated_ports[i].0.as_str());
        let value = decimal_string(pre_allocated_ports[i].2 as u64);
        assert(add.subrange(0, i + 1).drop_last() =~= add.subrange(0, i as int));
        assert(add.subrange(0, i + 1).last() == (key@, value@));
        if lookup_exec(env_vars, key.as_str()).is_none() {
            let ghost before = env_vars@;
            env_vars.push((key, value));
            assert(pair_views(env_vars@) =~= pair_views(before).push((key@, value@)));
        }
        i = i + 1;
    }
    assert(add.subrange(0, pre_allocated_ports@.len() as int) =~= add);
    proof {
        assert forall|k: Seq<char>|
            #[trigger] lookup(pair_views(env_vars@), k) == (match lookup(start, k) {
                Some(v) => Some(v),
                None => lookup(add, k),
            }) by {
            law_merge_keeps_existing_values(start, add, k);
        }
    }
}

// ---------------------------------------------------------------------------
// Shared-service container ports
// ---------------------------------------------------------------------------

/// The Docker key of a TCP port: `{port}/tcp`.
pub open spec fn tcp_key(port: u16) -> Seq<char> {
    decimal(port as nat) + "/tcp"@
}

/// The distinct TCP keys of the ports, in order of first occurrence.
pub open spec fn tcp_keys(ports: Seq<u16>) -> Seq<Seq<char>>
    decreases ports.len(),
{
    if ports.len() == 0 {
        Seq::empty()
    } else {
        let rest = tcp_keys(ports.drop_last());
        if rest.contains(tcp_key(ports.last())) {
            rest
        } else {
            rest.push(tcp_key(ports.last()))
        }
    }
}

fn tcp_key_exec(port: u16) -> (r: String)
    ensures
        r@ == tcp_key(port),
{
    let mut k = decimal_string(port as u64);
    push_str(&mut k, "/tcp");
    k
}

fn contains_string(v: &Vec<String>, s: &str) -> (r: bool)
    ensures
        r == views(v@).contains(s@),
{
    let mut i: usize = 0;
    while i < v.len()
        invariant
            i <= v@.len(),
            forall|j: int| 0 <= j < i ==> views(v@)[j] != s@,
        decreases v.len() - i,
    {
        if crate::text::str_eq(v[i].as_str(), s) {
            assert(views(v@)[i as int] == s@);
            return true;
        }
        i = i + 1;
    }
    false
}

/// The exposed ports of a shared-service container: one `{port}/tcp` key
/// for each declared port, each key once.
pub fn build_exposed_ports(ports: &[u16]) -> (r: Vec<String>)
    ensures
        views(r@) == tcp_keys(ports@),
{
    let mut out: Vec<String> = Vec::new();
    let mut i: usize = 0;
    while i < ports.len()
        invariant
            i <= ports@.len(),
            views(out@) == tcp_keys(ports@.subrange(0, i as int)),
        decreases ports.len() - i,
    {
        let key = tcp_key_exec(ports[i]);
        assert(ports@.subrange(0, i + 1).drop_last() =~= ports@.subrange(0, i as int));
        if !contains_string(&out, key.as_str()) {
            let ghost before = out@;
            out.push(key);
            assert(views(out@) =~= views(before).push(tcp_key(ports@[i as int])));
        }
        i = i + 1;
    }
    assert(ports@.subrange(0, ports@.len() as int) =~= ports@);
    out
}

/// A published port of a shared-service container: the container's TCP port
/// key and the host address and port it is bound to.
#[derive(Debug)]
pub struct PortBinding {
    pub key: String,
    pub host_ip: String,
    pub host_port: String,
}

/// The bindings of a shared-service container: each declared port bound to
/// the same port on all host addresses, each key once.
pub fn build_port_bindings(ports: &[u16]) -> (r: Vec<PortBinding>)
    ensures
        r@.map_values(|b: PortBinding| b.key@) == tcp_keys(ports@),
        forall|i: int|
            0 <= i < r@.len() ==> (#[trigger] r@[i]).host_ip@ == "0.0.0.0"@ && exists|j: int|
                0 <= j < ports@.len() && r@[i].key@ == tcp_key(#[trigger] ports@[j])
                    && r@[i].host_port@ == decimal(ports@[j] as nat),
{
    let mut out: Vec<PortBinding> = Vec::new();
    let mut keys: Vec<String> = Vec::new();
    let mut i: usize = 0;
    while i < ports.len()
        invariant
            i <= ports@.len(),
            views(keys@) == tcp_keys(ports@.subrange(0, i as int)),
            out@.map_values(|b: PortBinding| b.key@) == views(keys@),
            forall|q: int|
                0 <= q < out@.len() ==> (#[trigger] out@[q]).host_ip@ == "0.0.0.0"@ && exists|j: int|
                    0 <= j < ports@.len() && out@[q].key@ == tcp_key(#[trigger] ports@[j])
                        && out@[q].host_port@ == decimal(ports@[j] as nat),
        decreases ports.len() - i,
    {
        let key = tcp_key_exec(ports[i]);
        assert(ports@.subrange(0, i + 1).drop_last() =~= ports@.subrange(0, i as int));
        if !contains_string(&keys, key.as_str()) {
            let ghost before_k = keys@;
            let ghost before_o = out@;
            keys.push(crate::text::owned(key.as_str()));
            let b = PortBinding {
                key,
                host_ip: crate::text::owned("0.0.0.0"),
                host_port: decimal_string(ports[i] as u64),
            };
            out.push(b);
            proof {
                assert(views(keys@) =~= views(before_k).push(tcp_key(ports@[i as int])));
                assert(out@.map_values(|b: PortBinding| b.key@) =~= before_o.map_values(
                    |b: PortBinding| b.key@,
                ).push(tcp_key(ports@[i as int])));
                assert forall|q: int| 0 <= q < out@.len() implies (#[trigger] out@[q]).host_ip@
                    == "0.0.0.0"@ && exists|j: int|
                    0 <= j < ports@.len() && out@[q].key@ == tcp_key(#[trigger] ports@[j])
                        && out@[q].host_port@ == decimal(ports@[j] as nat) by {
                    if q < before_o.len() {
                        assert(out@[q] == before_o[q]);
                    } else {
                        assert(out@[q].key@ == tcp_key(ports@[i as int]));
                    }
                }
            }
        }
        i = i + 1;
    }
    assert(ports@.subrange(0, ports@.len() as int) =~= ports@);
    out
}

// ---------------------------------------------------------------------------
// Port conflicts reported by Docker
// ---------------------------------------------------------------------------

/// The host port that Docker's `Bind for {ip}:{port} failed` names: the
/// digits between the first `:` after the first `Bind for ` and the next
/// space, when they form a port number.
pub open spec fn bound_port(raw: Seq<char>) -> Option<u16> {
    match first_index(raw, "Bind for "@) {
        Some(start) => {
            let after = raw.subrange(start + "Bind for "@.len(), raw.len() as int);
            match index_of_char(after, ':') {
                Some(colon) => {
                    let port_str = after.subrange(colon + 1int, after.len() as int);
                    match index_of_char(port_str, ' ') {
                        Some(end) => match parse_uint(port_str.subrange(0, end as int), 65535) {
                            Ok(p) => Some(p as u16),
                            Err(_) => None,
                        },
                        None => None,
                    }
                },
                None => None,
            }
        },
        None => None,
    }
}

/// The decimal forms of the ports joined by `", "`.
pub open spec fn ports_joined(ports: Seq<u16>) -> Seq<char>
    decreases ports.len(),
{
    if ports.len() == 0 {
        Seq::empty()
    } else if ports.len() == 1 {
        decimal(ports[0] as nat)
    } else {
        ports_joined(ports.drop_last()) + ", "@ + decimal(ports.last() as nat)
    }
}

/// The explanation of a host port conflict for a shared service.
pub open spec fn port_conflict_message(port_display: Seq<char>, service: Seq<char>) -> Seq<char> {
    "Port "@ + port_display + " is already in use on the host.\n\nThe shared service '"@ + service
        + "' needs this port but another process is already listening on it. This is usually caused by:\n\n- Another Docker container bound to the same port (check `docker ps`)\n- A local service running on the host (check `lsof -iTCP:"@
        + port_display
        + " -sTCP:LISTEN`)\n- Another shared service in your Coastfile that declares the same port\n\nStop the conflicting process and try again."@
}

/// What a raw Docker error says of a port conflict: `None` unless it reports
/// an allocated port; the port shown is the one Docker names, else the
/// service's declared ports.
pub open spec fn port_conflict(raw: Seq<char>, service: Seq<char>, declared: Seq<u16>) -> Option<
    Seq<char>,
> {
    if !contains_seq(raw, "port is already allocated"@) {
        None
    } else {
        Some(
            port_conflict_message(
                match bound_port(raw) {
                    Some(p) => decimal(p as nat),
                    None => ports_joined(declared),
                },
                service,
            ),
        )
    }
}

fn bound_port_exec(raw: &str) -> (r: Option<u16>)
    ensures
        r == bound_port(raw@),
{
    let found = find_str(raw, "Bind for ");
    if found.is_none() {
        return None;
    }
    let start = found.unwrap();
    let v = chars_of(raw);
    proof {
        reveal_strlit("Bind for ");
        crate::text::lemma_first_index_occurs(raw@, "Bind for "@, 0);
        assert(v@ == raw@);
        let i = first_index(raw@, "Bind for "@)->0;
        assert(0 <= i && i + 9 <= raw@.len());
        assert(start == i);
    }
    let n = v.len();
    let from = start + 9;
    let ghost after = raw@.subrange(start + 9, raw@.len() as int);
    let colon = match find_char_in(&v, ':', from, n) {
        Some(c) => c,
        None => return None,
    };
    let ghost port_str = after.subrange((colon - from) + 1, after.len() as int);
    assert(port_str =~= v@.subrange(colon + 1, n as int));
    let end = match find_char_in(&v, ' ', colon + 1, n) {
        Some(e) => e,
        None => return None,
    };
    assert(port_str.subrange(0, end - (colon + 1)) =~= v@.subrange(colon + 1, end as int));
    match parse_uint_exec(&v, colon + 1, end, 65535) {
        Ok(p) => Some(p as u16),
        Err(_) => None,
    }
}

fn push_ports_joined(out: &mut String, ports: &[u16])
    ensures
        final(out)@ == old(out)@ + ports_joined(ports@),
{
    let ghost start = out@;
    let mut i: usize = 0;
    assert(ports@.subrange(0, 0) =~= Seq::<u16>::empty());
    while i < ports.len()
        invariant
            i <= ports@.len(),
            out@ == start + ports_joined(ports@.subrange(0, i as int)),
        decreases ports.len() - i,
    {
        assert(ports@.subrange(0, i + 1).drop_last() =~= ports@.subrange(0, i as int));
        if i > 0 {
            push_str(out, ", ");
        } else {
            assert(ports@.subrange(0, 1) =~= seq![ports@[0]]);
        }
        push_decimal(out, ports[i] as u64);
        i = i + 1;
    }
    assert(ports@.subrange(0, ports@.len() as int) =~= ports@);
}

/// Turns Docker's "port is already allocated" error into an explanation
/// for the user; other errors give `None`.
pub fn humanize_port_conflict(raw: &str, service_name: &str, declared_ports: &[u16]) -> (r: Option<
    String,
>)
    ensures
        match port_conflict(raw@, service_name@, declared_ports@) {
            Some(m) => r matches Some(s) && s@ == m,
            None => r is None,
        },
{
    if !str_contains(raw, "port is already allocated") {
        return None;
    }
    let mut display = String::new();
    match bound_port_exec(raw) {
        Some(p) => push_decimal(&mut display, p as u64),
        None => push_ports_joined(&mut display, declared_ports),
    }
    let mut m = String::new();
    push_str(&mut m, "Port ");
    push_str(&mut m, display.as_str());
    push_str(&mut m, " is already in use on the host.\n\nThe shared service '");
    push_str(&mut m, service_name);
    push_str(
        &mut m,
        "' needs this port but another process is already listening on it. This is usually caused by:\n\n- Another Docker container bound to the same port (check `docker ps`)\n- A local service running on the host (check `lsof -iTCP:",
    );
    push_str(&mut m, display.as_str());
    push_str(
        &mut m,
        " -sTCP:LISTEN`)\n- Another shared service in your Coastfile that declares the same port\n\nStop the conflicting process and try again.",
    );
    Some(m)
}

// ---------------------------------------------------------------------------
// Creating the coast container
// ---------------------------------------------------------------------------

/// How many times container creation is tried with fresh dynamic ports.
pub const MAX_CONTAINER_PORT_RETRY_ATTEMPTS: usize = 3;

/// Docker refused to publish a port: the message names one of the port
/// publishing failures.
pub open spec fn port_publish_failure(m: Seq<char>) -> bool {
    contains_seq(m, "ports are not available"@) || contains_seq(m, "/forwards/expose"@)
        || contains_seq(m, "port is already allocated"@) || contains_seq(
        m,
        "bind: address already in use"@,
    )
}

/// Whether an error is Docker refusing to publish a dynamic port, which new
/// dynamic ports may cure.
pub fn is_retryable_port_publish_error(error: &CoastError) -> (r: bool)
    ensures
        r == port_publish_failure(error_message(*error)),
{
    let m = error.message();
    let s = m.as_str();
    str_contains(s, "ports are not available") || str_contains(s, "/forwards/expose")
        || str_contains(s, "port is already allocated") || str_contains(
        s,
        "bind: address already in use",
    )
}

/// Whether a failed creation attempt is retried: attempts are numbered
/// from 1, and the last attempt is not retried.
pub fn should_retry_container_create_error(error: &CoastError, attempt: usize) -> (r: bool)
    ensures
        r == (attempt < MAX_CONTAINER_PORT_RETRY_ATTEMPTS && port_publish_failure(
            error_message(*error),
        )),
{
    attempt < MAX_CONTAINER_PORT_RETRY_ATTEMPTS && is_retryable_port_publish_error(error)
}

/// The message of a failed container creation.
pub open spec fn container_create_message(instance: Seq<char>, cause: Seq<char>) -> Seq<char> {
    "Failed to create coast container for instance '"@ + instance + "': "@ + cause
        + ". Ensure Docker is running and the docker:dind image is available."@
}

/// The error reported when the coast container cannot be created.
pub fn wrap_container_create_error(instance_name: &str, error: &CoastError) -> (r: CoastError)
    ensures
        r == CoastError::Docker(r->Docker_0),
        r->Docker_0@ == container_create_message(instance_name@, error_message(*error)),
{
    let cause = error.message();
    let mut m = String::new();
    push_str(&mut m, "Failed to create coast container for instance '");
    push_str(&mut m, instance_name);
    push_str(&mut m, "': ");
    push_str(&mut m, cause.as_str());
    push_str(&mut m, ". Ensure Docker is running and the docker:dind image is available.");
    CoastError::Docker(m)
}

/// The cause recorded when every creation attempt was retried and none is
/// left to report.
pub fn retries_exhausted_error(instance_name: &str) -> (r: CoastError)
    ensures
        r == CoastError::Docker(r->Docker_0),
        r->Docker_0@ == "Failed to create coast container for instance '"@ + instance_name@
            + "' after retrying dynamic port allocation."@,
{
    let mut m = String::new();
    push_str(&mut m, "Failed to create coast container for instance '");
    push_str(&mut m, instance_name);
    push_str(&mut m, "' after retrying dynamic port allocation.");
    CoastError::Docker(m)
}

} // verus!
