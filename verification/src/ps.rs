//! The service listing of `coast ps`: reading `docker compose ps` output,
//! and completing it from the compose configuration with the services that
//! publish ports but are missing.
use vstd::prelude::*;

use crate::json::{field_view, json_field, json_field_of, JsonField, JsonFieldView};
use crate::status::CoastError;
use crate::text::{chars_of, lines, split_lines, string_of, str_eq, trim, trim_exec, views};
use crate::yaml::{
    as_list, as_mapping, as_str, as_str_exec, find_key, find_key_exec, list_ref, mapping_at, mapping_ref,
    pairs_view, yaml_view, Yaml, YamlView,
};

verus! {

/// One service of an instance as `coast ps` reports it.
#[derive(Debug)]
pub struct ServiceStatus {
    pub name: String,
    pub status: String,
    pub ports: String,
    pub image: String,
    pub kind: Option<String>,
}

/// A service status as plain values: name, status, ports, image, kind.
pub type ServiceView = (Seq<char>, Seq<char>, Seq<char>, Seq<char>, Option<Seq<char>>);

/// The view of a service status.
pub open spec fn service_view(s: ServiceStatus) -> ServiceView {
    (
        s.name@,
        s.status@,
        s.ports@,
        s.image@,
        match s.kind {
            Some(k) => Some(k@),
            None => None,
        },
    )
}

/// The views of a service listing.
pub open spec fn services_view(v: Seq<ServiceStatus>) -> Seq<ServiceView> {
    v.map_values(|s: ServiceStatus| service_view(s))
}

/// The string a field holds, or `default`.
pub open spec fn text_or(f: JsonFieldView, default: Seq<char>) -> Seq<char> {
    match f {
        JsonFieldView::Text(s) => s,
        _ => default,
    }
}

/// The string a field holds, else the one `fallback` holds when the field
/// is absent, else `default` (`get(key).or_else(|| get(fallback))
/// .and_then(as_str)`).
pub open spec fn fallback_text(f: JsonFieldView, fallback: JsonFieldView, default: Seq<char>) -> Seq<char> {
    match f {
        JsonFieldView::Missing => text_or(fallback, default),
        _ => text_or(f, default),
    }
}

/// The service that the fields `Service`, `Name`, `State`, `Status`,
/// `Ports` and `Image` of a `docker compose ps` line describe: a missing
/// name or state reads as `unknown`, missing ports or image as empty.
pub open spec fn service_of_fields(
    service: JsonFieldView,
    name: JsonFieldView,
    state: JsonFieldView,
    status: JsonFieldView,
    ports: JsonFieldView,
    image: JsonFieldView,
) -> ServiceView {
    (
        fallback_text(service, name, "unknown"@),
        fallback_text(state, status, "unknown"@),
        text_or(ports, Seq::empty()),
        text_or(image, Seq::empty()),
        None,
    )
}

/// The service a line of `docker compose ps --format json` describes: none
/// for a blank line or one that is not JSON.
pub open spec fn ps_line_service(line: Seq<char>) -> Option<ServiceView> {
    let t = trim(line);
    if t.len() == 0 || json_field_of(t, "Service"@) is Invalid {
        None
    } else {
        Some(
            service_of_fields(
                json_field_of(t, "Service"@),
                json_field_of(t, "Name"@),
                json_field_of(t, "State"@),
                json_field_of(t, "Status"@),
                json_field_of(t, "Ports"@),
                json_field_of(t, "Image"@),
            ),
        )
    }
}

/// The services of the given lines, in order.
pub open spec fn ps_services(ls: Seq<Seq<char>>) -> Seq<ServiceView>
    decreases ls.len(),
{
    if ls.len() == 0 {
        Seq::empty()
    } else {
        ps_services(ls.drop_last()) + match ps_line_service(ls.last()) {
            Some(s) => seq![s],
            None => Seq::empty(),
        }
    }
}

fn field_text_or(f: JsonField, default: &str) -> (r: String)
    ensures
        r@ == text_or(field_view(f), default@),
{
    match f {
        JsonField::Text(s) => s,
        _ => crate::text::owned(default),
    }
}

fn field_with_fallback(f: JsonField, fallback: JsonField, default: &str) -> (r: String)
    ensures
        r@ == fallback_text(field_view(f), field_view(fallback), default@),
{
    match f {
        JsonField::Missing => field_text_or(fallback, default),
        f => field_text_or(f, default),
    }
}

/// The service that the fields of a `docker compose ps` line describe,
/// given what the line holds under `Service`, `Name`, `State`, `Status`,
/// `Ports` and `Image`.
pub fn service_from_fields(
    service: JsonField,
    name: JsonField,
    state: JsonField,
    status: JsonField,
    ports: JsonField,
    image: JsonField,
) -> (r: ServiceStatus)
    ensures
        service_view(r) == service_of_fields(
            field_view(service),
            field_view(name),
            field_view(state),
            field_view(status),
            field_view(ports),
            field_view(image),
        ),
{
    let name = field_with_fallback(service, name, "unknown");
    let status = field_with_fallback(state, status, "unknown");
    let ports = field_text_or(ports, "");
    let image = field_text_or(image, "");
    proof {
        reveal_strlit("");
    }
    ServiceStatus { name, status, ports, image, kind: None }
}

fn parse_ps_line(line: &str) -> (r: Option<ServiceStatus>)
    ensures
        match ps_line_service(line@) {
            Some(v) => r matches Some(s) && service_view(s) == v,
            None => r is None,
        },
{
    let t = trim_exec(line);
    let tv = chars_of(t.as_str());
    if tv.len() == 0 {
        return None;
    }
    let line = t.as_str();
    let service = json_field(line, "Service");
    if let JsonField::Invalid = service {
        return None;
    }
    Some(
        service_from_fields(
            service,
            json_field(line, "Name"),
            json_field(line, "State"),
            json_field(line, "Status"),
            json_field(line, "Ports"),
            json_field(line, "Image"),
        ),
    )
}

/// The services that `docker compose ps --format json` output lists, one
/// per line; blank lines and lines that are not JSON are skipped. A missing
/// name or state reads as `unknown`.
pub fn parse_compose_ps_output(output: &str) -> (r: Result<Vec<ServiceStatus>, CoastError>)
    ensures
        r matches Ok(v) && services_view(v@) == ps_services(lines(output@)),
{
    let v = chars_of(output);
    let ls = split_lines(&v);
    let ghost lv = ls@.map_values(|l: Vec<char>| l@);
    let mut out: Vec<ServiceStatus> = Vec::new();
    let mut i: usize = 0;
    while i < ls.len()
        invariant
            i <= ls@.len(),
            lv == ls@.map_values(|l: Vec<char>| l@),
            lv == lines(output@),
            services_view(out@) == ps_services(lv.subrange(0, i as int)),
        decreases ls.len() - i,
    {
        let line = string_of(&ls[i], 0, ls[i].len());
        assert(ls[i as int]@.subrange(0, ls[i as int]@.len() as int) =~= ls[i as int]@);
        assert(lv.subrange(0, i + 1).drop_last() =~= lv.subrange(0, i as int));
        assert(lv.subrange(0, i + 1).last() == line@);
        match parse_ps_line(line.as_str()) {
            Some(s) => {
                let ghost before = out@;
                let ghost sv = service_view(s);
                out.push(s);
                assert(services_view(out@) =~= services_view(before).push(sv));
            },
            None => {
                assert(services_view(out@) =~= services_view(out@) + Seq::<ServiceView>::empty());
            },
        }
        i = i + 1;
    }
    assert(lv.subrange(0, ls@.len() as int) =~= lv);
    Ok(out)
}

/// Marks every service of a listing with its kind (`compose` or `bare`).
pub fn set_kind(services: &mut Vec<ServiceStatus>, kind: &str)
    ensures
        final(services)@.len() == old(services)@.len(),
        forall|i: int|
            0 <= i < final(services)@.len() ==> {
                let (n, s, p, im, _) = service_view(old(services)@[i]);
                service_view(#[trigger] final(services)@[i]) == (n, s, p, im, Some(kind@))
            },
{
    let mut i: usize = 0;
    while i < services.len()
        invariant
            i <= services@.len(),
            services@.len() == old(services)@.len(),
            forall|j: int|
                0 <= j < i ==> {
                    let (n, s, p, im, _) = service_view(old(services)@[j]);
                    service_view(#[trigger] services@[j]) == (n, s, p, im, Some(kind@))
                },
            forall|j: int| i <= j < services@.len() ==> services@[j] == old(services)@[j],
        decreases services.len() - i,
    {
        let mut s = services.remove(i);
        s.kind = Some(crate::text::owned(kind));
        services.insert(i, s);
        i = i + 1;
    }
}

// ---------------------------------------------------------------------------
// Services with published ports
// ---------------------------------------------------------------------------

/// Whether a service definition publishes a port: it is a mapping whose
/// `ports` entry is a non-empty list.
pub open spec fn publishes_ports(def: YamlView) -> bool {
    match as_mapping(def) {
        Some(m) => match find_key(m, "ports"@) {
            Some(i) => match as_list(m[i].1) {
                Some(s) => s.len() > 0,
                None => false,
            },
            None => false,
        },
        None => false,
    }
}

/// The names of the entries of a `services` mapping that publish a port,
/// in order; entries whose key is not a string are left out.
pub open spec fn named_with_ports(e: Seq<(YamlView, YamlView)>) -> Seq<Seq<char>>
    decreases e.len(),
{
    if e.len() == 0 {
        Seq::empty()
    } else {
        named_with_ports(e.drop_last()) + match as_str(e.last().0) {
            Some(n) => if publishes_ports(e.last().1) {
                seq![n]
            } else {
                Seq::empty()
            },
            None => Seq::empty(),
        }
    }
}

/// A compose configuration as plain values; `None` when its text is not
/// YAML.
pub open spec fn config_view(config: Option<&Yaml>) -> Option<YamlView> {
    match config {
        Some(y) => Some(yaml_view(*y)),
        None => None,
    }
}

/// The services of a compose configuration that publish ports: none when
/// the text is not YAML or has no `services` mapping.
pub open spec fn services_with_ports(config: Option<YamlView>) -> Seq<Seq<char>> {
    match config {
        Some(doc) => match mapping_at(doc, "services"@) {
            Some(m) => named_with_ports(m),
            None => Seq::empty(),
        },
        None => Seq::empty(),
    }
}

fn publishes_ports_exec(def: &Yaml) -> (r: bool)
    ensures
        r == publishes_ports(yaml_view(*def)),
{
    match mapping_ref(def) {
        Some(m) => match find_key_exec(m, "ports") {
            Some(i) => {
                assert(pairs_view(m@)[i as int].1 == yaml_view(m@[i as int].1));
                match list_ref(&m[i].1) {
                    Some(s) => s.len() > 0,
                    None => false,
                }
            },
            None => false,
        },
        None => false,
    }
}

/// The services of `docker compose config` output that publish ports;
/// services without ports (one-shot jobs such as migrations) are left out.
/// `config` is the output as YAML, `None` when it is not YAML.
pub fn extract_services_with_ports(config: Option<&Yaml>) -> (r: Vec<String>)
    ensures
        views(r@) == services_with_ports(config_view(config)),
{
    let mut out: Vec<String> = Vec::new();
    assert(views(out@) =~= Seq::<Seq<char>>::empty());
    let doc = match config {
        Some(d) => d,
        None => return out,
    };
    let top = match mapping_ref(doc) {
        Some(m) => m,
        None => return out,
    };
    let k = match find_key_exec(top, "services") {
        Some(k) => k,
        None => return out,
    };
    assert(pairs_view(top@)[k as int].1 == yaml_view(top@[k as int].1));
    let entries = match mapping_ref(&top[k].1) {
        Some(m) => m,
        None => return out,
    };
    let ghost ev = pairs_view(entries@);
    assert(mapping_at(yaml_view(*doc), "services"@) == Some(ev));
    let mut i: usize = 0;
    while i < entries.len()
        invariant
            i <= entries@.len(),
            ev == pairs_view(entries@),
            views(out@) == named_with_ports(ev.subrange(0, i as int)),
        decreases entries.len() - i,
    {
        assert(ev.subrange(0, i + 1).drop_last() =~= ev.subrange(0, i as int));
        assert(ev.subrange(0, i + 1).last() == ev[i as int]);
        assert(ev[i as int] == (yaml_view(entries@[i as int].0), yaml_view(entries@[i as int].1)));
        match as_str_exec(&entries[i].0) {
            Some(n) => {
                if publishes_ports_exec(&entries[i].1) {
                    let ghost before = out@;
                    out.push(n.clone());
                    assert(views(out@) =~= views(before).push(n@));
                } else {
                    assert(views(out@) =~= views(out@) + Seq::<Seq<char>>::empty());
                }
            },
            None => {
                assert(views(out@) =~= views(out@) + Seq::<Seq<char>>::empty());
            },
        }
        i = i + 1;
    }
    assert(ev.subrange(0, entries@.len() as int) =~= ev);
    out
}

/// A listed service is kept unless it is a compose service that is not
/// running and publishes no port.
pub open spec fn kept_service(s: ServiceView, port_services: Seq<Seq<char>>) -> bool {
    s.4 != Some("compose"@) || s.1 == "running"@ || port_services.contains(s.0)
}

/// The names of the services that publish ports, are not listed and are not
/// shared services, each once, in order.
pub open spec fn missing_port_services(
    port_services: Seq<Seq<char>>,
    listed: Seq<Seq<char>>,
    shared: Seq<Seq<char>>,
) -> Seq<Seq<char>>
    decreases port_services.len(),
{
    if port_services.len() == 0 {
        Seq::empty()
    } else {
        let prev = missing_port_services(port_services.drop_last(), listed, shared);
        let n = port_services.last();
        if listed.contains(n) || shared.contains(n) || prev.contains(n) {
            prev
        } else {
            prev.push(n)
        }
    }
}

/// The entry of a port-publishing service that is not running at all.
pub open spec fn down_entry(name: Seq<char>) -> ServiceView {
    (name, "down"@, Seq::empty(), Seq::empty(), Some("compose"@))
}

/// The listing after enrichment: the kept services in order, then a `down`
/// entry for each missing port-publishing service.
pub open spec fn enriched(
    services: Seq<ServiceView>,
    port_services: Seq<Seq<char>>,
    shared: Seq<Seq<char>>,
) -> Seq<ServiceView> {
    let kept = services.filter(|s: ServiceView| kept_service(s, port_services));
    kept + missing_port_services(
        port_services,
        kept.map_values(|s: ServiceView| s.0),
        shared,
    ).map_values(|n: Seq<char>| down_entry(n))
}

fn contains_str(v: &Vec<String>, s: &str) -> (r: bool)
    ensures
        r == views(v@).contains(s@),
{
    let mut i: usize = 0;
    while i < v.len()
        invariant
            i <= v@.len(),
            forall|j: int| 0 <= j < i ==> views(v@)[j] != s@,
        decreases v.len() - i,
    {
        if str_eq(v[i].as_str(), s) {
            assert(views(v@)[i as int] == s@);
            return true;
        }
        i = i + 1;
    }
    false
}

fn is_kept(s: &ServiceStatus, port_services: &Vec<String>) -> (r: bool)
    ensures
        r == kept_service(service_view(*s), views(port_services@)),
{
    let compose = match &s.kind {
        Some(k) => str_eq(k.as_str(), "compose"),
        None => false,
    };
    !compose || str_eq(s.status.as_str(), "running") || contains_str(port_services, s.name.as_str())
}

/// Cross-checks the listing with `docker compose config` (`config`, `None`
/// when its output is not YAML): compose services that exited and publish
/// no port are dropped, and each port-publishing service that is neither
/// listed nor a shared service is added as `down`.
pub fn enrich_compose_services(
    services: &mut Vec<ServiceStatus>,
    config: Option<&Yaml>,
    shared_names: &Vec<String>,
)
    ensures
        services_view(final(services)@) == enriched(
            services_view(old(services)@),
            services_with_ports(config_view(config)),
            views(shared_names@),
        ),
{
    let port_services = extract_services_with_ports(config);
    let ghost ps = views(port_services@);
    let ghost pred = |s: ServiceView| kept_service(s, ps);
    let ghost old_v = services_view(services@);
    let mut kept: Vec<ServiceStatus> = Vec::new();
    let mut names: Vec<String> = Vec::new();
    while services.len() > 0
        invariant
            ps == views(port_services@),
            pred == (|s: ServiceView| kept_service(s, ps)),
            old_v.len() == services@.len() + old_v.len() - services@.len(),
            services@.len() <= old_v.len(),
            services_view(services@) == old_v.subrange(old_v.len() - services@.len(), old_v.len() as int),
            services_view(kept@) == old_v.subrange(0, old_v.len() - services@.len()).filter(pred),
            views(names@) == services_view(kept@).map_values(|s: ServiceView| s.0),
        decreases services.len(),
    {
        let ghost done = old_v.len() - services@.len();
        let ghost before_s = services@;
        let s = services.remove(0);
        assert(s == before_s[0]);
        assert(services_view(before_s)[0] == service_view(before_s[0]));
        assert(old_v.subrange(done, old_v.len() as int)[0] == old_v[done]);
        assert(service_view(s) == old_v[done]);
        assert(services_view(services@) =~= old_v.subrange(done + 1, old_v.len() as int)) by {
            assert(services_view(before_s) == old_v.subrange(done, old_v.len() as int));
            assert forall|j: int| 0 <= j < services@.len() implies services_view(services@)[j] == old_v[done + 1 + j] by {
                assert(services@[j] == before_s[j + 1]);
                assert(services_view(before_s)[j + 1] == old_v.subrange(done, old_v.len() as int)[j + 1]);
            }
        }
        let ghost pre = old_v.subrange(0, done);
        assert(old_v.subrange(0, done + 1) =~= pre.push(service_view(s)));
        proof {
            pre.lemma_filter_push(service_view(s), pred);
        }
        if is_kept(&s, &port_services) {
            let ghost bk = kept@;
            let ghost bn = names@;
            names.push(s.name.clone());
            kept.push(s);
            assert(services_view(kept@) =~= services_view(bk).push(service_view(s)));
            assert(views(names@) =~= views(bn).push(s.name@));
            assert(services_view(kept@).map_values(|s: ServiceView| s.0) =~= services_view(bk).map_values(
                |s: ServiceView| s.0,
            ).push(s.name@));
        }
    }
    assert(old_v.subrange(0, old_v.len() as int) =~= old_v);
    let ghost kept_names = views(names@);
    let mut added: Vec<String> = Vec::new();
    let mut i: usize = 0;
    while i < port_services.len()
        invariant
            i <= port_services@.len(),
            ps == views(port_services@),
            kept_names == views(names@),
            views(added@) == missing_port_services(ps.subrange(0, i as int), kept_names, views(shared_names@)),
        decreases port_services.len() - i,
    {
        let n = port_services[i].as_str();
        assert(ps.subrange(0, i + 1).drop_last() =~= ps.subrange(0, i as int));
        assert(ps.subrange(0, i + 1).last() == n@);
        if !contains_str(&names, n) && !contains_str(shared_names, n) && !contains_str(&added, n) {
            let ghost before = added@;
            added.push(crate::text::owned(n));
            assert(views(added@) =~= views(before).push(n@));
        }
        i = i + 1;
    }
    assert(ps.subrange(0, port_services@.len() as int) =~= ps);
    let ghost missing = views(added@);
    let mut j: usize = 0;
    let ghost kv = services_view(kept@);
    while j < added.len()
        invariant
            j <= added@.len(),
            missing == views(added@),
            services_view(kept@) == kv + missing.subrange(0, j as int).map_values(
                |n: Seq<char>| down_entry(n),
            ),
        decreases added.len() - j,
    {
        let entry = ServiceStatus {
            name: added[j].clone(),
            status: crate::text::owned("down"),
            ports: String::new(),
            image: String::new(),
            kind: Some(crate::text::owned("compose")),
        };
        let ghost bk = kept@;
        kept.push(entry);
        proof {
            reveal_strlit("");
            assert(services_view(kept@) =~= services_view(bk).push(down_entry(missing[j as int])));
            assert(missing.subrange(0, j + 1).map_values(|n: Seq<char>| down_entry(n)) =~= missing.subrange(
                0,
                j as int,
            ).map_values(|n: Seq<char>| down_entry(n)).push(down_entry(missing[j as int])));
        }
        j = j + 1;
    }
    assert(missing.subrange(0, added@.len() as int) =~= missing);
    *services = kept;
}

/// Drops the shared services from a listing: they are reported elsewhere.
pub fn remove_shared_services(services: &mut Vec<ServiceStatus>, shared_names: &Vec<String>)
    ensures
        services_view(final(services)@) == services_view(old(services)@).filter(
            |s: ServiceView| !views(shared_names@).contains(s.0),
        ),
{
    let ghost old_v = services_view(services@);
    let ghost pred = |s: ServiceView| !views(shared_names@).contains(s.0);
    let mut out: Vec<ServiceStatus> = Vec::new();
    while services.len() > 0
        invariant
            pred == (|s: ServiceView| !views(shared_names@).contains(s.0)),
            services@.len() <= old_v.len(),
            services_view(services@) == old_v.subrange(old_v.len() - services@.len(), old_v.len() as int),
            services_view(out@) == old_v.subrange(0, old_v.len() - services@.len()).filter(pred),
        decreases services.len(),
    {
        let ghost done = old_v.len() - services@.len();
        let ghost before_s = services@;
        let s = services.remove(0);
        assert(s == before_s[0]);
        assert(services_view(before_s)[0] == service_view(before_s[0]));
        assert(old_v.subrange(done, old_v.len() as int)[0] == old_v[done]);
        assert(service_view(s) == old_v[done]);
        assert(services_view(services@) =~= old_v.subrange(done + 1, old_v.len() as int)) by {
            assert(services_view(before_s) == old_v.subrange(done, old_v.len() as int));
            assert forall|j: int| 0 <= j < services@.len() implies services_view(services@)[j] == old_v[done + 1 + j] by {
                assert(services@[j] == before_s[j + 1]);
                assert(services_view(before_s)[j + 1] == old_v.subrange(done, old_v.len() as int)[j + 1]);
            }
        }
        let ghost pre = old_v.subrange(0, done);
        assert(old_v.subrange(0, done + 1) =~= pre.push(service_view(s)));
        proof {
            pre.lemma_filter_push(service_view(s), pred);
        }
        if !contains_str(shared_names, s.name.as_str()) {
            let ghost bo = out@;
            out.push(s);
            assert(services_view(out@) =~= services_view(bo).push(service_view(s)));
        }
    }
    assert(old_v.subrange(0, old_v.len() as int) =~= old_v);
    *services = out;
}

/// What the missing port services are: port services that are neither
/// listed nor shared, each once, and every such service.
proof fn lemma_missing_port_services(ps: Seq<Seq<char>>, listed: Seq<Seq<char>>, shared: Seq<Seq<char>>)
    ensures
        ({
            let m = missing_port_services(ps, listed, shared);
            &&& forall|j: int|
                0 <= j < m.len() ==> ps.contains(#[trigger] m[j]) && !listed.contains(m[j])
                    && !shared.contains(m[j])
            &&& m.no_duplicates()
            &&& forall|n: Seq<char>|
                ps.contains(n) && !listed.contains(n) && !shared.contains(n) ==> #[trigger] m.contains(n)
        }),
    decreases ps.len(),
{
    if ps.len() > 0 {
        let init = ps.drop_last();
        lemma_missing_port_services(init, listed, shared);
        let prev = missing_port_services(init, listed, shared);
        let m = missing_port_services(ps, listed, shared);
        assert forall|j: int| 0 <= j < m.len() implies ps.contains(#[trigger] m[j]) && !listed.contains(m[j])
            && !shared.contains(m[j]) by {
            if j < prev.len() {
                assert(m[j] == prev[j]);
                let k = choose|k: int| 0 <= k < init.len() && init[k] == prev[j];
                assert(ps[k] == init[k]);
            } else {
                assert(m[j] == ps[ps.len() - 1]);
            }
        }
        assert forall|n: Seq<char>|
            ps.contains(n) && !listed.contains(n) && !shared.contains(n) implies #[trigger] m.contains(n) by {
            let k = choose|k: int| 0 <= k < ps.len() && ps[k] == n;
            if k < ps.len() - 1 {
                assert(init[k] == n);
                assert(prev.contains(n));
                let j = choose|j: int| 0 <= j < prev.len() && prev[j] == n;
                assert(m[j] == n);
            } else if !prev.contains(n) {
                assert(m[m.len() - 1] == n);
            } else {
                let j = choose|j: int| 0 <= j < prev.len() && prev[j] == n;
                assert(m[j] == n);
            }
        }
    }
}

/// The enriched listing is the kept services, in order, followed by `down`
/// compose entries for the port-publishing services that are neither kept
/// nor shared: each such service once, and no other.
pub proof fn law_enrich_keeps_then_adds_down(
    services: Seq<ServiceView>,
    port_services: Seq<Seq<char>>,
    shared: Seq<Seq<char>>,
)
    ensures
        ({
            let kept = services.filter(|s: ServiceView| kept_service(s, port_services));
            let names = kept.map_values(|s: ServiceView| s.0);
            let r = enriched(services, port_services, shared);
            &&& r.subrange(0, kept.len() as int) == kept
            &&& forall|j: int|
                kept.len() <= j < r.len() ==> #[trigger] r[j] == down_entry(r[j].0) && port_services.contains(r[j].0)
                    && !shared.contains(r[j].0) && !names.contains(r[j].0)
            &&& forall|n: Seq<char>|
                port_services.contains(n) && !shared.contains(n) && !names.contains(n) ==> exists|j: int|
                    kept.len() <= j < r.len() && #[trigger] r[j].0 == n
            &&& forall|a: int, b: int| kept.len() <= a < b < r.len() ==> r[a].0 != r[b].0
        }),
{
    let kept = services.filter(|s: ServiceView| kept_service(s, port_services));
    let names = kept.map_values(|s: ServiceView| s.0);
    let m = missing_port_services(port_services, names, shared);
    let added = m.map_values(|n: Seq<char>| down_entry(n));
    let r = enriched(services, port_services, shared);
    lemma_missing_port_services(port_services, names, shared);
    assert(r == kept + added);
    assert(r.subrange(0, kept.len() as int) =~= kept);
    assert forall|j: int| kept.len() <= j < r.len() implies #[trigger] r[j] == down_entry(r[j].0)
        && port_services.contains(r[j].0) && !shared.contains(r[j].0) && !names.contains(r[j].0) by {
        assert(r[j] == added[j - kept.len()]);
        assert(added[j - kept.len()] == down_entry(m[j - kept.len()]));
    }
    assert forall|n: Seq<char>| port_services.contains(n) && !shared.contains(n) && !names.contains(n) implies exists|j: int|
        kept.len() <= j < r.len() && #[trigger] r[j].0 == n by {
        assert(m.contains(n));
        let k = choose|k: int| 0 <= k < m.len() && m[k] == n;
        assert(r[kept.len() + k] == added[k]);
        assert(r[kept.len() + k].0 == n);
    }
    assert forall|a: int, b: int| kept.len() <= a < b < r.len() implies r[a].0 != r[b].0 by {
        assert(r[a] == added[a - kept.len()]);
        assert(r[b] == added[b - kept.len()]);
        assert(m[a - kept.len()] != m[b - kept.len()]);
    }
}

} // verus!
