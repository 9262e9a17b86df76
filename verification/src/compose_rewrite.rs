//! The per-instance rewrite of a compose document: shared and omitted
//! services go, per-instance images replace builds, coast-managed volumes
//! are bound to the instance's volume directory, every service can reach
//! the host and the shared services and sees the secret files, and the bind
//! mounts of hot services follow mounts made later on the host.
//!
//! The document is the plain value of `yaml`; mappings behave as
//! `serde_yaml::Mapping` does (a key is found by equality, a new key goes
//! last, a removed key's place is taken by the last entry), and values are
//! read through their tags as `serde_yaml::Value` reads them.
use vstd::prelude::*;

use crate::compose::{is_hot_service, rewrite_volume_with_rslave, rslave_short_form};
use crate::text::{
    chars_of, contains_name, find_char_in, has_prefix, index_of_char, owned, push_str,
    str_eq, str_starts_with, string_of, views,
};
use crate::yaml::{
    as_list, as_mapping, as_str, as_str_exec, close_entry_list, close_entry_mapping,
    close_mapping, entry_or_insert, entry_or_insert_exec, find_key, find_key_exec, items_view,
    lemma_find_key_from, lemma_list_view, lemma_mapping_view, lemma_swap_remove_update,
    lemma_untag_wrap, lemma_wrap_tags, list_ref, mapping_at, mapping_ref, open_entry_list,
    open_entry_mapping, open_mapping, pairs_view, remove_keys, remove_keys_exec, remove_key,
    remove_key_exec, replace_mapping_at, set_key, set_key_exec, swap_remove_at, tags_of,
    with_list, with_mapping, yaml_view, Yaml, YamlView,
};

verus! {

// ---------------------------------------------------------------------------
// Settings
// ---------------------------------------------------------------------------

/// What a Coastfile says of the compose document.
#[derive(Debug)]
pub struct CoastfileCompose {
    /// Services that are not run in the instance.
    pub omit_services: Vec<String>,
    /// Top-level volumes that are not declared in the instance.
    pub omit_volumes: Vec<String>,
    /// The coast-managed volumes.
    pub volume_names: Vec<String>,
}

/// A Coastfile's compose settings as plain values.
pub struct CoastfileComposeView {
    pub omit_services: Seq<Seq<char>>,
    pub omit_volumes: Seq<Seq<char>>,
    pub volume_names: Seq<Seq<char>>,
}

impl View for CoastfileCompose {
    type V = CoastfileComposeView;

    open spec fn view(&self) -> CoastfileComposeView {
        CoastfileComposeView {
            omit_services: views(self.omit_services@),
            omit_volumes: views(self.omit_volumes@),
            volume_names: views(self.volume_names@),
        }
    }
}

/// How a compose document is rewritten for one instance.
#[derive(Debug)]
pub struct ComposeRewriteConfig {
    /// Services that run once for the project, outside the instance.
    pub shared_service_names: Vec<String>,
    /// The project's Coastfile, when there is one.
    pub coastfile: Option<CoastfileCompose>,
    /// Per-instance image tags: (service name, image tag).
    pub per_instance_image_tags: Vec<(String, String)>,
    /// Whether the instance mounts coast-managed volumes.
    pub has_volume_mounts: bool,
    /// The address through which the shared services are reached.
    pub bridge_gateway_ip: Option<String>,
    /// Container paths of the secret files mounted into every service.
    pub secret_container_paths: Vec<String>,
    /// Services whose bind mounts follow later host mounts.
    pub hot_services: Vec<String>,
    /// Whether every service is hot.
    pub default_hot: bool,
}

/// The rewrite settings as plain values.
pub struct ComposeRewriteView {
    pub shared: Seq<Seq<char>>,
    pub coastfile: Option<CoastfileComposeView>,
    pub image_tags: Seq<(Seq<char>, Seq<char>)>,
    pub has_volume_mounts: bool,
    pub bridge_gateway_ip: Option<Seq<char>>,
    pub secret_paths: Seq<Seq<char>>,
    pub hot: Seq<Seq<char>>,
    pub default_hot: bool,
}

/// The views of (name, value) pairs of strings.
pub open spec fn pair_views(v: Seq<(String, String)>) -> Seq<(Seq<char>, Seq<char>)> {
    v.map_values(|p: (String, String)| (p.0@, p.1@))
}

impl View for ComposeRewriteConfig {
    type V = ComposeRewriteView;

    open spec fn view(&self) -> ComposeRewriteView {
        ComposeRewriteView {
            shared: views(self.shared_service_names@),
            coastfile: match self.coastfile {
                Some(cf) => Some(cf@),
                None => None,
            },
            image_tags: pair_views(self.per_instance_image_tags@),
            has_volume_mounts: self.has_volume_mounts,
            bridge_gateway_ip: match self.bridge_gateway_ip {
                Some(ip) => Some(ip@),
                None => None,
            },
            secret_paths: views(self.secret_container_paths@),
            hot: views(self.hot_services@),
            default_hot: self.default_hot,
        }
    }
}

// ---------------------------------------------------------------------------
// Top-level sections
// ---------------------------------------------------------------------------

/// A document opened at one of its top-level mapping sections: the root's
/// tags and entries (with `Null` in the section's place), and the section's
/// tags.
struct OpenSection {
    root_tags: Vec<String>,
    root: Vec<(Yaml, Yaml)>,
    index: usize,
    tags: Vec<String>,
    doc: Ghost<YamlView>,
    key: Ghost<Seq<char>>,
}

impl OpenSection {
    spec fn wf(&self) -> bool {
        let m = as_mapping(self.doc@)->0;
        let i = self.index as int;
        &&& as_mapping(self.doc@) is Some
        &&& find_key(m, self.key@) == Some(i)
        &&& 0 <= i < m.len()
        &&& views(self.root_tags@) == tags_of(self.doc@)
        &&& pairs_view(self.root@) == m.update(i, (m[i].0, YamlView::Null))
        &&& views(self.tags@) == tags_of(m[i].1)
    }
}

/// Opens the mapping under the top-level `key`; a document without one is
/// handed back as it is.
fn open_section(doc: Yaml, key: &str) -> (r: Result<(OpenSection, Vec<(Yaml, Yaml)>), Yaml>)
    ensures
        match r {
            Ok((o, e)) => {
                &&& o.wf()
                &&& o.doc@ == yaml_view(doc)
                &&& o.key@ == key@
                &&& mapping_at(yaml_view(doc), key@) == Some(pairs_view(e@))
            },
            Err(d) => {
                &&& mapping_at(yaml_view(doc), key@) is None
                &&& yaml_view(d) == yaml_view(doc)
            },
        },
{
    let ghost dv = yaml_view(doc);
    match open_mapping(doc) {
        Err(d) => Err(d),
        Ok((root_tags, mut root)) => {
            proof {
                lemma_wrap_tags(dv);
            }
            match find_key_exec(&root, key) {
                None => {
                    let d = close_mapping(root_tags, root);
                    Err(d)
                },
                Some(i) => {
                    let ghost before = root@;
                    match open_entry_mapping(&mut root, i) {
                        Some((tags, e)) => {
                            let o = OpenSection {
                                root_tags,
                                root,
                                index: i,
                                tags,
                                doc: Ghost(dv),
                                key: Ghost(key@),
                            };
                            Ok((o, e))
                        },
                        None => {
                            let d = close_mapping(root_tags, root);
                            Err(d)
                        },
                    }
                },
            }
        },
    }
}

/// Closes a section opened with `open_section`, with new entries.
fn close_section(o: OpenSection, e: Vec<(Yaml, Yaml)>) -> (r: Yaml)
    requires
        o.wf(),
    ensures
        yaml_view(r) == replace_mapping_at(o.doc@, o.key@, pairs_view(e@)),
        as_mapping(yaml_view(r)) is Some,
{
    let OpenSection { root_tags, mut root, index, tags, doc, key } = o;
    let ghost m = as_mapping(doc@)->0;
    assert(pairs_view(root@).len() == root@.len());
    close_entry_mapping(&mut root, index, tags, e);
    assert(pairs_view(root@) =~= m.update(
        index as int,
        (m[index as int].0, with_mapping(m[index as int].1, pairs_view(e@))),
    ));
    let r = close_mapping(root_tags, root);
    proof {
        lemma_untag_wrap(tags_of(doc@), YamlView::Mapping(pairs_view(root@)));
    }
    r
}

/// Replacing a section keeps the document a mapping.
proof fn lemma_replace_keeps_mapping(doc: YamlView, key: Seq<char>, x: Seq<(YamlView, YamlView)>)
    requires
        mapping_at(doc, key) is Some,
    ensures
        as_mapping(replace_mapping_at(doc, key, x)) is Some,
{
    let m = as_mapping(doc)->0;
    let i = find_key(m, key)->0;
    lemma_untag_wrap(
        tags_of(doc),
        YamlView::Mapping(m.update(i, (m[i].0, with_mapping(m[i].1, x)))),
    );
}


// ---------------------------------------------------------------------------
// Named volumes of services
// ---------------------------------------------------------------------------

/// A service's definition, as `services.<name>` reads it.
pub open spec fn service_def(doc: YamlView, name: Seq<char>) -> Option<Seq<(YamlView, YamlView)>> {
    match mapping_at(doc, "services"@) {
        Some(s) => match find_key(s, name) {
            Some(j) => as_mapping(s[j].1),
            None => None,
        },
        None => None,
    }
}

/// The source of a short-form volume: the text before its first `:`.
pub open spec fn volume_source(s: Seq<char>) -> Seq<char> {
    match index_of_char(s, ':') {
        Some(k) => s.subrange(0, k as int),
        None => s,
    }
}

/// A source that names a volume rather than a host path.
pub open spec fn is_named_volume_source(s: Seq<char>) -> bool {
    s.len() > 0 && !has_prefix(s, "."@) && !has_prefix(s, "/"@)
}

/// The named-volume sources of volume entries, in order; an entry that is
/// not a string reads as the empty string.
pub open spec fn named_sources(items: Seq<YamlView>) -> Seq<Seq<char>>
    decreases items.len(),
{
    if items.len() == 0 {
        Seq::empty()
    } else {
        let text = match as_str(items.last()) {
            Some(t) => t,
            None => Seq::empty(),
        };
        let src = volume_source(text);
        named_sources(items.drop_last()) + if is_named_volume_source(src) {
            seq![src]
        } else {
            Seq::empty()
        }
    }
}

/// The named volumes that a service definition mounts.
pub open spec fn service_named_volumes(def: Seq<(YamlView, YamlView)>) -> Seq<Seq<char>> {
    match find_key(def, "volumes"@) {
        Some(i) => match as_list(def[i].1) {
            Some(items) => named_sources(items),
            None => Seq::empty(),
        },
        None => Seq::empty(),
    }
}

/// The named volumes that the given services mount, service by service.
pub open spec fn named_volumes_of_services(doc: YamlView, names: Seq<Seq<char>>) -> Seq<Seq<char>>
    decreases names.len(),
{
    if names.len() == 0 {
        Seq::empty()
    } else {
        named_volumes_of_services(doc, names.drop_last()) + match service_def(doc, names.last()) {
            Some(def) => service_named_volumes(def),
            None => Seq::empty(),
        }
    }
}

/// The source of a short-form volume entry.
fn volume_source_exec(s: &str) -> (r: String)
    ensures
        r@ == volume_source(s@),
{
    let v = chars_of(s);
    let n = v.len();
    assert(v@.subrange(0, n as int) =~= v@);
    match find_char_in(&v, ':', 0, n) {
        Some(k) => string_of(&v, 0, k),
        None => owned(s),
    }
}

/// Appends the named-volume sources of volume entries.
fn push_named_sources(out: &mut Vec<String>, items: &Vec<Yaml>)
    ensures
        views(final(out)@) == views(old(out)@) + named_sources(items_view(items@)),
{
    let ghost iv = items_view(items@);
    let ghost start = views(out@);
    let mut i: usize = 0;
    assert(iv.subrange(0, 0) =~= Seq::<YamlView>::empty());
    assert(start + named_sources(Seq::<YamlView>::empty()) =~= start);
    while i < items.len()
        invariant
            i <= items@.len(),
            iv == items_view(items@),
            views(out@) == start + named_sources(iv.subrange(0, i as int)),
        decreases items.len() - i,
    {
        let ghost before = views(out@);
        assert(iv.subrange(0, i + 1).drop_last() =~= iv.subrange(0, i as int));
        assert(iv.subrange(0, i + 1).last() == yaml_view(items@[i as int]));
        let text: String = match as_str_exec(&items[i]) {
            Some(t) => owned(t.as_str()),
            None => String::new(),
        };
        let src = volume_source_exec(text.as_str());
        let named = !src.as_str().is_empty() && !str_starts_with(src.as_str(), ".") && !str_starts_with(
            src.as_str(),
            "/",
        );
        if named {
            out.push(src);
            assert(views(out@) =~= before + seq![src@]);
        } else {
            assert(views(out@) =~= before + Seq::<Seq<char>>::empty());
        }
        assert(views(out@) =~= start + named_sources(iv.subrange(0, i + 1)));
        i = i + 1;
    }
    assert(iv.subrange(0, items@.len() as int) =~= iv);
}

/// The named volumes that the given services mount.
fn named_volumes_of_services_exec(doc: &Yaml, names: &Vec<String>) -> (r: Vec<String>)
    ensures
        views(r@) == named_volumes_of_services(yaml_view(*doc), views(names@)),
{
    let ghost nv = views(names@);
    let ghost dv = yaml_view(*doc);
    let mut out: Vec<String> = Vec::new();
    let mut i: usize = 0;
    assert(views(out@) =~= named_volumes_of_services(dv, nv.subrange(0, 0)));
    while i < names.len()
        invariant
            i <= names@.len(),
            nv == views(names@),
            dv == yaml_view(*doc),
            views(out@) == named_volumes_of_services(dv, nv.subrange(0, i as int)),
        decreases names.len() - i,
    {
        let ghost before = views(out@);
        assert(nv.subrange(0, i + 1).drop_last() =~= nv.subrange(0, i as int));
        assert(nv.subrange(0, i + 1).last() == names@[i as int]@);
        let name = names[i].as_str();
        let mut found = false;
        if let Some(root) = mapping_ref(doc) {
            if let Some(k) = find_key_exec(root, "services") {
                if let Some(services) = mapping_ref(&root[k].1) {
                    if let Some(j) = find_key_exec(services, name) {
                        if let Some(def) = mapping_ref(&services[j].1) {
                            found = true;
                            if let Some(v) = find_key_exec(def, "volumes") {
                                if let Some(items) = list_ref(&def[v].1) {
                                    push_named_sources(&mut out, items);
                                } else {
                                    assert(views(out@) =~= before + Seq::<Seq<char>>::empty());
                                }
                            } else {
                                assert(views(out@) =~= before + Seq::<Seq<char>>::empty());
                            }
                        }
                    }
                }
            }
        }
        if !found {
            assert(views(out@) =~= before + Seq::<Seq<char>>::empty());
        }
        i = i + 1;
    }
    assert(nv.subrange(0, names@.len() as int) =~= nv);
    out
}

// ---------------------------------------------------------------------------
// Removing stubbed services
// ---------------------------------------------------------------------------

/// A dependency that stays: one that does not name a stubbed service.
pub open spec fn keep_dep(x: YamlView, stubbed: Seq<Seq<char>>) -> bool {
    match as_str(x) {
        Some(s) => !stubbed.contains(s),
        None => true,
    }
}

/// The dependencies that stay, in order.
pub open spec fn kept_deps(items: Seq<YamlView>, stubbed: Seq<Seq<char>>) -> Seq<YamlView>
    decreases items.len(),
{
    if items.len() == 0 {
        Seq::empty()
    } else {
        kept_deps(items.drop_last(), stubbed) + if keep_dep(items.last(), stubbed) {
            seq![items.last()]
        } else {
            Seq::empty()
        }
    }
}

/// A service definition whose `depends_on` no longer names stubbed
/// services; a `depends_on` left empty goes.
pub open spec fn strip_depends_on(def: Seq<(YamlView, YamlView)>, stubbed: Seq<Seq<char>>) -> Seq<(YamlView, YamlView)> {
    match find_key(def, "depends_on"@) {
        None => def,
        Some(i) => {
            let dv = def[i].1;
            match as_mapping(dv) {
                Some(dm) => {
                    let left = remove_keys(dm, stubbed).0;
                    if left.len() == 0 {
                        swap_remove_at(def, i)
                    } else {
                        def.update(i, (def[i].0, with_mapping(dv, left)))
                    }
                },
                None => match as_list(dv) {
                    Some(items) => {
                        let left = kept_deps(items, stubbed);
                        if left.len() == 0 {
                            swap_remove_at(def, i)
                        } else {
                            def.update(i, (def[i].0, with_list(dv, left)))
                        }
                    },
                    None => def,
                },
            }
        },
    }
}

/// A services entry with its definition's dependencies stripped.
pub open spec fn strip_entry(e: (YamlView, YamlView), stubbed: Seq<Seq<char>>) -> (YamlView, YamlView) {
    match as_mapping(e.1) {
        Some(def) => (e.0, with_mapping(e.1, strip_depends_on(def, stubbed))),
        None => e,
    }
}

/// The document without the named services and without dependencies on
/// them; whether a service was removed.
pub open spec fn remove_services(doc: YamlView, names: Seq<Seq<char>>) -> (YamlView, bool) {
    match mapping_at(doc, "services"@) {
        None => (doc, false),
        Some(s) => {
            let (left, removed) = remove_keys(s, names);
            (
                replace_mapping_at(
                    doc,
                    "services"@,
                    left.map_values(|e: (YamlView, YamlView)| strip_entry(e, names)),
                ),
                removed,
            )
        },
    }
}

/// The document without the stubbed services and without dependencies on
/// them; whether a service was removed. Nothing is touched when no service
/// is stubbed.
pub open spec fn remove_stubbed(doc: YamlView, stubbed: Seq<Seq<char>>) -> (YamlView, bool) {
    if stubbed.len() == 0 {
        (doc, false)
    } else {
        remove_services(doc, stubbed)
    }
}

/// The dependencies that stay.
fn kept_deps_exec(items: Vec<Yaml>, stubbed: &Vec<String>) -> (r: Vec<Yaml>)
    ensures
        items_view(r@) == kept_deps(items_view(items@), views(stubbed@)),
{
    let ghost iv = items_view(items@);
    let ghost sv = views(stubbed@);
    let n = items.len();
    let mut rest = items;
    let mut out: Vec<Yaml> = Vec::new();
    let mut i: usize = 0;
    assert(items_view(out@) =~= kept_deps(iv.subrange(0, 0), sv));
    while i < n
        invariant
            i <= n == iv.len(),
            sv == views(stubbed@),
            rest@.len() == n - i,
            forall|k: int| 0 <= k < rest@.len() ==> yaml_view(#[trigger] rest@[k]) == iv[i + k],
            items_view(out@) == kept_deps(iv.subrange(0, i as int), sv),
        decreases n - i,
    {
        let ghost prev = rest@;
        let x = rest.remove(0);
        assert(yaml_view(x) == iv[i as int]);
        assert(iv.subrange(0, i + 1).drop_last() =~= iv.subrange(0, i as int));
        let ghost before = items_view(out@);
        let keep = match as_str_exec(&x) {
            Some(s) => !contains_name(stubbed, s.as_str()),
            None => true,
        };
        if keep {
            out.push(x);
            assert(items_view(out@) =~= before + seq![iv[i as int]]);
        } else {
            assert(items_view(out@) =~= before + Seq::<YamlView>::empty());
        }
        assert forall|k: int| 0 <= k < rest@.len() implies yaml_view(#[trigger] rest@[k]) == iv[(
        i + 1) + k] by {
            assert(rest@[k] == prev[k + 1]);
        }
        i = i + 1;
    }
    assert(iv.subrange(0, n as int) =~= iv);
    out
}

/// Strips a service definition's dependencies on stubbed services.
fn strip_depends_on_exec(def: &mut Vec<(Yaml, Yaml)>, stubbed: &Vec<String>)
    ensures
        pairs_view(final(def)@) == strip_depends_on(pairs_view(old(def)@), views(stubbed@)),
{
    let ghost d0 = pairs_view(def@);
    match find_key_exec(def, "depends_on") {
        None => {},
        Some(i) => {
            match open_entry_mapping(def, i) {
                Some((t, mut dm)) => {
                    remove_keys_exec(&mut dm, stubbed);
                    if dm.len() == 0 {
                        let ghost opened = pairs_view(def@);
                        def.swap_remove(i);
                        assert(pairs_view(def@) =~= swap_remove_at(opened, i as int));
                        proof {
                            lemma_swap_remove_update(d0, i as int, (d0[i as int].0, YamlView::Null));
                        }
                    } else {
                        close_entry_mapping(def, i, t, dm);
                        assert(pairs_view(def@) =~= d0.update(
                            i as int,
                            (d0[i as int].0, with_mapping(d0[i as int].1, pairs_view(dm@))),
                        ));
                    }
                },
                None => {
                    match open_entry_list(def, i) {
                        Some((t, items)) => {
                            let left = kept_deps_exec(items, stubbed);
                            if left.len() == 0 {
                                let ghost opened = pairs_view(def@);
                                def.swap_remove(i);
                                assert(pairs_view(def@) =~= swap_remove_at(opened, i as int));
                                proof {
                                    lemma_swap_remove_update(
                                        d0,
                                        i as int,
                                        (d0[i as int].0, YamlView::Null),
                                    );
                                }
                            } else {
                                close_entry_list(def, i, t, left);
                                assert(pairs_view(def@) =~= d0.update(
                                    i as int,
                                    (d0[i as int].0, with_list(d0[i as int].1, items_view(left@))),
                                ));
                            }
                        },
                        None => {},
                    }
                },
            }
        },
    }
}

/// Strips every service definition's dependencies on stubbed services.
fn strip_services_exec(s: &mut Vec<(Yaml, Yaml)>, stubbed: &Vec<String>)
    ensures
        pairs_view(final(s)@) == pairs_view(old(s)@).map_values(
            |e: (YamlView, YamlView)| strip_entry(e, views(stubbed@)),
        ),
{
    let ghost s0 = pairs_view(s@);
    let ghost sv = views(stubbed@);
    let n = s.len();
    let mut i: usize = 0;
    while i < n
        invariant
            i <= n == s@.len() == s0.len(),
            sv == views(stubbed@),
            forall|k: int| 0 <= k < i ==> #[trigger] pairs_view(s@)[k] == strip_entry(s0[k], sv),
            forall|k: int| i <= k < n ==> #[trigger] pairs_view(s@)[k] == s0[k],
        decreases n - i,
    {
        let ghost before = pairs_view(s@);
        match open_entry_mapping(s, i) {
            Some((t, mut def)) => {
                strip_depends_on_exec(&mut def, stubbed);
                close_entry_mapping(s, i, t, def);
            },
            None => {},
        }
        assert(pairs_view(s@)[i as int] == strip_entry(s0[i as int], sv));
        i = i + 1;
    }
    assert(pairs_view(s@) =~= s0.map_values(|e: (YamlView, YamlView)| strip_entry(e, sv)));
}

/// Removes the named services and the dependencies on them; whether a
/// service was removed.
fn remove_services_exec(doc: Yaml, names: &Vec<String>) -> (r: (Yaml, bool))
    ensures
        (yaml_view(r.0), r.1) == remove_services(yaml_view(doc), views(names@)),
        as_mapping(yaml_view(doc)) is Some ==> as_mapping(yaml_view(r.0)) is Some,
{
    match open_section(doc, "services") {
        Err(d) => (d, false),
        Ok((o, mut s)) => {
            let removed = remove_keys_exec(&mut s, names);
            strip_services_exec(&mut s, names);
            (close_section(o, s), removed)
        },
    }
}

// ---------------------------------------------------------------------------
// Removing top-level volumes
// ---------------------------------------------------------------------------

/// The document without the named top-level volumes; whether one was
/// there.
pub open spec fn remove_volume_entries(doc: YamlView, names: Seq<Seq<char>>) -> (YamlView, bool) {
    match mapping_at(doc, "volumes"@) {
        None => (doc, false),
        Some(v) => {
            let (left, removed) = remove_keys(v, names);
            (replace_mapping_at(doc, "volumes"@, left), removed)
        },
    }
}

/// Removes the named top-level volumes; whether one was there.
fn remove_volume_entries_exec(doc: Yaml, names: &Vec<String>) -> (r: (Yaml, bool))
    ensures
        (yaml_view(r.0), r.1) == remove_volume_entries(yaml_view(doc), views(names@)),
        as_mapping(yaml_view(doc)) is Some ==> as_mapping(yaml_view(r.0)) is Some,
{
    match open_section(doc, "volumes") {
        Err(d) => (d, false),
        Ok((o, mut v)) => {
            let removed = remove_keys_exec(&mut v, names);
            (close_section(o, v), removed)
        },
    }
}

// ---------------------------------------------------------------------------
// Per-instance images
// ---------------------------------------------------------------------------

/// A service definition that runs the given image instead of building one.
pub open spec fn override_image(def: Seq<(YamlView, YamlView)>, tag: Seq<char>) -> Seq<(YamlView, YamlView)> {
    remove_key(set_key(def, "image"@, YamlView::Str(tag)), "build"@)
}

/// The services after the image overrides, one (service, tag) pair after the
/// other; whether a service was changed.
pub open spec fn image_overrides_in(s: Seq<(YamlView, YamlView)>, tags: Seq<(Seq<char>, Seq<char>)>) -> (Seq<(YamlView, YamlView)>, bool)
    decreases tags.len(),
{
    if tags.len() == 0 {
        (s, false)
    } else {
        let (s1, changed) = image_overrides_in(s, tags.drop_last());
        let (name, tag) = tags.last();
        match find_key(s1, name) {
            Some(j) => match as_mapping(s1[j].1) {
                Some(def) => (s1.update(j, (s1[j].0, with_mapping(s1[j].1, override_image(def, tag)))), true),
                None => (s1, changed),
            },
            None => (s1, changed),
        }
    }
}

/// The document with each listed service running its per-instance image;
/// whether a service was changed.
pub open spec fn image_overrides(doc: YamlView, tags: Seq<(Seq<char>, Seq<char>)>) -> (YamlView, bool) {
    match mapping_at(doc, "services"@) {
        Some(s) => {
            let (s1, changed) = image_overrides_in(s, tags);
            (replace_mapping_at(doc, "services"@, s1), changed)
        },
        None => (doc, false),
    }
}

/// Applies the per-instance images; whether a service was changed.
fn image_overrides_exec(doc: Yaml, tags: &Vec<(String, String)>) -> (r: (Yaml, bool))
    ensures
        (yaml_view(r.0), r.1) == image_overrides(yaml_view(doc), pair_views(tags@)),
        as_mapping(yaml_view(doc)) is Some ==> as_mapping(yaml_view(r.0)) is Some,
{
    let ghost tv = pair_views(tags@);
    match open_section(doc, "services") {
        Err(d) => (d, false),
        Ok((o, mut s)) => {
            let ghost s0 = pairs_view(s@);
            let mut changed = false;
            let mut i: usize = 0;
            assert(tv.subrange(0, 0) =~= Seq::<(Seq<char>, Seq<char>)>::empty());
            while i < tags.len()
                invariant
                    i <= tags@.len(),
                    tv == pair_views(tags@),
                    (pairs_view(s@), changed) == image_overrides_in(s0, tv.subrange(0, i as int)),
                decreases tags.len() - i,
            {
                assert(tv.subrange(0, i + 1).drop_last() =~= tv.subrange(0, i as int));
                assert(tv.subrange(0, i + 1).last() == (tags@[i as int].0@, tags@[i as int].1@));
                let name = tags[i].0.as_str();
                let tag = tags[i].1.as_str();
                if let Some(j) = find_key_exec(&s, name) {
                    match open_entry_mapping(&mut s, j) {
                        Some((t, mut def)) => {
                            set_key_exec(&mut def, "image", Yaml::Str(owned(tag)));
                            remove_key_exec(&mut def, "build");
                            close_entry_mapping(&mut s, j, t, def);
                            changed = true;
                        },
                        None => {},
                    }
                }
                i = i + 1;
            }
            assert(tv.subrange(0, tags@.len() as int) =~= tv);
            (close_section(o, s), changed)
        },
    }
}

// ---------------------------------------------------------------------------
// Coast-managed volumes
// ---------------------------------------------------------------------------

/// The string value `s`.
pub open spec fn ystr(s: Seq<char>) -> YamlView {
    YamlView::Str(s)
}

/// A coast-managed volume: a local bind of the instance's volume directory.
pub open spec fn managed_volume_def(name: Seq<char>) -> YamlView {
    YamlView::Mapping(
        seq![
            (ystr("driver"@), ystr("local"@)),
            (
                ystr("driver_opts"@),
                YamlView::Mapping(
                    seq![
                        (ystr("type"@), ystr("none"@)),
                        (ystr("device"@), ystr("/coast-volumes/"@ + name)),
                        (ystr("o"@), ystr("bind"@)),
                    ],
                ),
            ),
        ],
    )
}

/// Volume definitions with each coast-managed volume set, one after the
/// other.
pub open spec fn set_managed_volumes(vm: Seq<(YamlView, YamlView)>, names: Seq<Seq<char>>) -> Seq<(YamlView, YamlView)>
    decreases names.len(),
{
    if names.len() == 0 {
        vm
    } else {
        set_key(
            set_managed_volumes(vm, names.drop_last()),
            names.last(),
            managed_volume_def(names.last()),
        )
    }
}

/// Whether the rewrite declares coast-managed volumes, which it does at the
/// document's top level.
pub open spec fn declares_managed_volumes(c: ComposeRewriteView) -> bool {
    c.has_volume_mounts && c.coastfile is Some
}

/// The document with the coast-managed volumes declared; whether it was
/// changed. The document is a mapping whenever the volumes are declared.
pub open spec fn managed_volumes(doc: YamlView, c: ComposeRewriteView) -> (YamlView, bool) {
    if !declares_managed_volumes(c) {
        (doc, false)
    } else {
        let m = as_mapping(doc)->0;
        let (m1, i) = entry_or_insert(m, "volumes"@, YamlView::Mapping(Seq::empty()));
        match as_mapping(m1[i].1) {
            None => (with_mapping(doc, m1), false),
            Some(vm) => (
                with_mapping(
                    doc,
                    m1.update(
                        i,
                        (
                            m1[i].0,
                            with_mapping(m1[i].1, set_managed_volumes(vm, c.coastfile->0.volume_names)),
                        ),
                    ),
                ),
                true,
            ),
        }
    }
}

fn str_value(s: &str) -> (r: Yaml)
    ensures
        yaml_view(r) == ystr(s@),
{
    Yaml::Str(owned(s))
}

/// The definition of a coast-managed volume.
fn managed_volume_definition(name: &str) -> (r: Yaml)
    ensures
        yaml_view(r) == managed_volume_def(name@),
{
    let mut device = owned("/coast-volumes/");
    push_str(&mut device, name);
    let mut opts: Vec<(Yaml, Yaml)> = Vec::new();
    opts.push((str_value("type"), str_value("none")));
    opts.push((str_value("device"), Yaml::Str(device)));
    opts.push((str_value("o"), str_value("bind")));
    proof {
        lemma_mapping_view(opts);
    }
    let ghost ov = pairs_view(opts@);
    assert(ov =~= seq![
        (ystr("type"@), ystr("none"@)),
        (ystr("device"@), ystr("/coast-volumes/"@ + name@)),
        (ystr("o"@), ystr("bind"@)),
    ]);
    let mut def: Vec<(Yaml, Yaml)> = Vec::new();
    def.push((str_value("driver"), str_value("local")));
    def.push((str_value("driver_opts"), Yaml::Mapping(opts)));
    proof {
        lemma_mapping_view(def);
    }
    assert(pairs_view(def@) =~= seq![
        (ystr("driver"@), ystr("local"@)),
        (ystr("driver_opts"@), YamlView::Mapping(ov)),
    ]);
    Yaml::Mapping(def)
}

/// Declares the coast-managed volumes; whether the document was changed.
fn managed_volumes_exec(doc: Yaml, c: &ComposeRewriteConfig) -> (r: (Yaml, bool))
    requires
        declares_managed_volumes(c@) ==> as_mapping(yaml_view(doc)) is Some,
    ensures
        (yaml_view(r.0), r.1) == managed_volumes(yaml_view(doc), c@),
        as_mapping(yaml_view(doc)) is Some ==> as_mapping(yaml_view(r.0)) is Some,
{
    if !c.has_volume_mounts {
        return (doc, false);
    }
    let cf = match &c.coastfile {
        Some(cf) => cf,
        None => {
            return (doc, false);
        },
    };
    let ghost dv = yaml_view(doc);
    match open_mapping(doc) {
        Err(d) => (d, false),
        Ok((rt, mut root)) => {
            let ghost m = pairs_view(root@);
            let empty: Vec<(Yaml, Yaml)> = Vec::new();
            proof {
                lemma_mapping_view(empty);
                assert(pairs_view(empty@) =~= Seq::<(YamlView, YamlView)>::empty());
            }
            let i = entry_or_insert_exec(&mut root, "volumes", Yaml::Mapping(empty));
            let ghost m1 = pairs_view(root@);
            assert(pairs_view(root@).len() == root@.len());
            match open_entry_mapping(&mut root, i) {
                None => {
                    let r = close_mapping(rt, root);
                    proof {
                        lemma_untag_wrap(tags_of(dv), YamlView::Mapping(m1));
                    }
                    (r, false)
                },
                Some((t, mut vm)) => {
                    let ghost vm0 = pairs_view(vm@);
                    let ghost names = views(cf.volume_names@);
                    let mut k: usize = 0;
                    assert(names.subrange(0, 0) =~= Seq::<Seq<char>>::empty());
                    while k < cf.volume_names.len()
                        invariant
                            k <= cf.volume_names@.len(),
                            names == views(cf.volume_names@),
                            pairs_view(vm@) == set_managed_volumes(vm0, names.subrange(0, k as int)),
                        decreases cf.volume_names.len() - k,
                    {
                        assert(names.subrange(0, k + 1).drop_last() =~= names.subrange(0, k as int));
                        let name = cf.volume_names[k].as_str();
                        set_key_exec(&mut vm, name, managed_volume_definition(name));
                        k = k + 1;
                    }
                    assert(names.subrange(0, cf.volume_names@.len() as int) =~= names);
                    close_entry_mapping(&mut root, i, t, vm);
                    let ghost m2 = pairs_view(root@);
                    let r = close_mapping(rt, root);
                    proof {
                        lemma_untag_wrap(tags_of(dv), YamlView::Mapping(m2));
                    }
                    assert(m == as_mapping(dv)->0);
                    assert((m1, i as int) == entry_or_insert(m, "volumes"@, YamlView::Mapping(Seq::empty())));
                    assert(as_mapping(m1[i as int].1) == Some(vm0));
                    assert(c@.coastfile->0.volume_names == names);
                    assert(m2 == m1.update(i as int, (m1[i as int].0, with_mapping(m1[i as int].1, set_managed_volumes(vm0, names)))));
                    assert(yaml_view(r) == with_mapping(dv, m2));
                    (r, true)
                },
            }
        },
    }
}

// ---------------------------------------------------------------------------
// Host names and secret files
// ---------------------------------------------------------------------------

/// String values.
pub open spec fn str_values(ss: Seq<Seq<char>>) -> Seq<YamlView> {
    ss.map_values(|x: Seq<char>| YamlView::Str(x))
}

/// The strings among list items, in order.
pub open spec fn str_items(items: Seq<YamlView>) -> Seq<Seq<char>>
    decreases items.len(),
{
    if items.len() == 0 {
        Seq::empty()
    } else {
        str_items(items.drop_last()) + match as_str(items.last()) {
            Some(x) => seq![x],
            None => Seq::empty(),
        }
    }
}

/// The wanted entries that are not among the existing ones, in order.
pub open spec fn missing(wanted: Seq<Seq<char>>, existing: Seq<Seq<char>>) -> Seq<Seq<char>>
    decreases wanted.len(),
{
    if wanted.len() == 0 {
        Seq::empty()
    } else {
        missing(wanted.drop_last(), existing) + if existing.contains(wanted.last()) {
            Seq::empty()
        } else {
            seq![wanted.last()]
        }
    }
}

/// The `extra_hosts` entries every service gets: the host, and each shared
/// service at the given address.
pub open spec fn host_entries(shared: Seq<Seq<char>>, target: Seq<char>) -> Seq<Seq<char>> {
    seq!["host.docker.internal:host-gateway"@] + shared.map_values(
        |n: Seq<char>| n + ":"@ + target,
    )
}

/// A service definition whose `extra_hosts` holds the host entries; whether
/// one was added.
pub open spec fn ensure_extra_hosts(def: Seq<(YamlView, YamlView)>, shared: Seq<Seq<char>>, target: Seq<char>) -> (Seq<(YamlView, YamlView)>, bool) {
    let (m1, i) = entry_or_insert(def, "extra_hosts"@, YamlView::List(Seq::empty()));
    match as_list(m1[i].1) {
        None => (m1, false),
        Some(items) => {
            let added = missing(host_entries(shared, target), str_items(items));
            (
                m1.update(i, (m1[i].0, with_list(m1[i].1, items + str_values(added)))),
                added.len() > 0,
            )
        },
    }
}

/// The read-only mount of a secret file.
pub open spec fn secret_mount(path: Seq<char>) -> Seq<char> {
    path + ":"@ + path + ":ro"@
}

/// A service definition that mounts the secret files; whether it was
/// changed.
pub open spec fn ensure_secret_mounts(def: Seq<(YamlView, YamlView)>, paths: Seq<Seq<char>>) -> (Seq<(YamlView, YamlView)>, bool) {
    if paths.len() == 0 {
        (def, false)
    } else {
        let (m1, i) = entry_or_insert(def, "volumes"@, YamlView::List(Seq::empty()));
        match as_list(m1[i].1) {
            None => (m1, false),
            Some(items) => (
                m1.update(
                    i,
                    (
                        m1[i].0,
                        with_list(
                            m1[i].1,
                            items + str_values(paths.map_values(|p: Seq<char>| secret_mount(p))),
                        ),
                    ),
                ),
                true,
            ),
        }
    }
}

/// A service definition with its host entries and secret mounts; whether it
/// was changed.
pub open spec fn hosts_and_secrets_def(def: Seq<(YamlView, YamlView)>, shared: Seq<Seq<char>>, target: Seq<char>, paths: Seq<Seq<char>>) -> (Seq<(YamlView, YamlView)>, bool) {
    let (d1, c1) = ensure_extra_hosts(def, shared, target);
    let (d2, c2) = ensure_secret_mounts(d1, paths);
    (d2, c1 || c2)
}

/// The services after the first `n` service names were given their host
/// entries and secret mounts; whether one was changed.
pub open spec fn hosts_and_secrets_in(s: Seq<(YamlView, YamlView)>, n: int, shared: Seq<Seq<char>>, target: Seq<char>, paths: Seq<Seq<char>>) -> (Seq<(YamlView, YamlView)>, bool)
    decreases n,
{
    if n <= 0 {
        (s, false)
    } else {
        let (s1, changed) = hosts_and_secrets_in(s, n - 1, shared, target, paths);
        match as_str(s1[n - 1].0) {
            None => (s1, changed),
            Some(name) => match find_key(s1, name) {
                None => (s1, changed),
                Some(j) => match as_mapping(s1[j].1) {
                    None => (s1, changed),
                    Some(def) => {
                        let (d2, c) = hosts_and_secrets_def(def, shared, target, paths);
                        (s1.update(j, (s1[j].0, with_mapping(s1[j].1, d2))), changed || c)
                    },
                },
            },
        }
    }
}

/// The address through which the shared services are reached.
pub open spec fn host_target(c: ComposeRewriteView) -> Seq<char> {
    match c.bridge_gateway_ip {
        Some(ip) => ip,
        None => "host-gateway"@,
    }
}

/// The document with every service's host entries and secret mounts;
/// whether it was changed.
pub open spec fn hosts_and_secrets(doc: YamlView, c: ComposeRewriteView) -> (YamlView, bool) {
    match mapping_at(doc, "services"@) {
        None => (doc, false),
        Some(s) => {
            let (s1, changed) = hosts_and_secrets_in(
                s,
                s.len() as int,
                c.shared,
                host_target(c),
                c.secret_paths,
            );
            (replace_mapping_at(doc, "services"@, s1), changed)
        },
    }
}

/// The strings among list items.
fn str_items_exec(items: &Vec<Yaml>) -> (r: Vec<String>)
    ensures
        views(r@) == str_items(items_view(items@)),
{
    let ghost iv = items_view(items@);
    let mut out: Vec<String> = Vec::new();
    let mut i: usize = 0;
    assert(views(out@) =~= str_items(iv.subrange(0, 0)));
    while i < items.len()
        invariant
            i <= items@.len(),
            iv == items_view(items@),
            views(out@) == str_items(iv.subrange(0, i as int)),
        decreases items.len() - i,
    {
        let ghost before = views(out@);
        assert(iv.subrange(0, i + 1).drop_last() =~= iv.subrange(0, i as int));
        assert(iv.subrange(0, i + 1).last() == yaml_view(items@[i as int]));
        match as_str_exec(&items[i]) {
            Some(x) => {
                out.push(owned(x.as_str()));
                assert(views(out@) =~= before + seq![x@]);
            },
            None => {
                assert(views(out@) =~= before + Seq::<Seq<char>>::empty());
            },
        }
        i = i + 1;
    }
    assert(iv.subrange(0, items@.len() as int) =~= iv);
    out
}

/// Appends the wanted entries that are not among the existing ones; whether
/// one was appended.
fn push_missing(items: &mut Vec<Yaml>, wanted: &Vec<String>, existing: &Vec<String>) -> (r: bool)
    ensures
        items_view(final(items)@) == items_view(old(items)@) + str_values(
            missing(views(wanted@), views(existing@)),
        ),
        r == (missing(views(wanted@), views(existing@)).len() > 0),
{
    let ghost wv = views(wanted@);
    let ghost ev = views(existing@);
    let ghost start = items_view(items@);
    let mut added = false;
    let mut i: usize = 0;
    assert(start + str_values(missing(wv.subrange(0, 0), ev)) =~= start);
    while i < wanted.len()
        invariant
            i <= wanted@.len(),
            wv == views(wanted@),
            ev == views(existing@),
            items_view(items@) == start + str_values(missing(wv.subrange(0, i as int), ev)),
            added == (missing(wv.subrange(0, i as int), ev).len() > 0),
        decreases wanted.len() - i,
    {
        assert(wv.subrange(0, i + 1).drop_last() =~= wv.subrange(0, i as int));
        let ghost before = missing(wv.subrange(0, i as int), ev);
        let w = wanted[i].as_str();
        if !contains_name(existing, w) {
            let ghost iv = items_view(items@);
            items.push(Yaml::Str(owned(w)));
            assert(items_view(items@) =~= iv.push(YamlView::Str(w@)));
            assert(missing(wv.subrange(0, i + 1), ev) =~= before + seq![w@]);
            assert(str_values(before + seq![w@]) =~= str_values(before).push(YamlView::Str(w@)));
            added = true;
        } else {
            assert(missing(wv.subrange(0, i + 1), ev) =~= before + Seq::<Seq<char>>::empty());
        }
        i = i + 1;
    }
    assert(wv.subrange(0, wanted@.len() as int) =~= wv);
    added
}

/// The host entries every service gets.
fn host_entries_exec(shared: &Vec<String>, target: &str) -> (r: Vec<String>)
    ensures
        views(r@) == host_entries(views(shared@), target@),
{
    let ghost sv = views(shared@);
    let mut out: Vec<String> = Vec::new();
    out.push(owned("host.docker.internal:host-gateway"));
    let mut i: usize = 0;
    while i < shared.len()
        invariant
            i <= shared@.len(),
            sv == views(shared@),
            views(out@) =~= seq!["host.docker.internal:host-gateway"@] + sv.subrange(
                0,
                i as int,
            ).map_values(|n: Seq<char>| n + ":"@ + target@),
        decreases shared.len() - i,
    {
        let ghost prev = views(out@);
        let mut e = owned(shared[i].as_str());
        push_str(&mut e, ":");
        push_str(&mut e, target);
        out.push(e);
        assert(views(out@) =~= prev.push(sv[i as int] + ":"@ + target@));
        assert(sv.subrange(0, i + 1).map_values(|n: Seq<char>| n + ":"@ + target@) =~= sv.subrange(
            0,
            i as int,
        ).map_values(|n: Seq<char>| n + ":"@ + target@).push(sv[i as int] + ":"@ + target@));
        i = i + 1;
    }
    assert(sv.subrange(0, shared@.len() as int) =~= sv);
    out
}

/// Gives a service definition its host entries; whether one was added.
fn ensure_extra_hosts_exec(def: &mut Vec<(Yaml, Yaml)>, shared: &Vec<String>, target: &str) -> (r: bool)
    ensures
        (pairs_view(final(def)@), r) == ensure_extra_hosts(
            pairs_view(old(def)@),
            views(shared@),
            target@,
        ),
{
    let empty: Vec<Yaml> = Vec::new();
    proof {
        lemma_list_view(empty);
        assert(items_view(empty@) =~= Seq::<YamlView>::empty());
    }
    let i = entry_or_insert_exec(def, "extra_hosts", Yaml::List(empty));
    let ghost m1 = pairs_view(def@);
    assert(pairs_view(def@).len() == def@.len());
    match open_entry_list(def, i) {
        None => false,
        Some((t, mut items)) => {
            let existing = str_items_exec(&items);
            let wanted = host_entries_exec(shared, target);
            let added = push_missing(&mut items, &wanted, &existing);
            close_entry_list(def, i, t, items);
            added
        },
    }
}

/// Gives a service definition the secret mounts; whether it was changed.
fn ensure_secret_mounts_exec(def: &mut Vec<(Yaml, Yaml)>, paths: &Vec<String>) -> (r: bool)
    ensures
        (pairs_view(final(def)@), r) == ensure_secret_mounts(pairs_view(old(def)@), views(paths@)),
{
    if paths.len() == 0 {
        return false;
    }
    let ghost pv = views(paths@);
    let empty: Vec<Yaml> = Vec::new();
    proof {
        lemma_list_view(empty);
        assert(items_view(empty@) =~= Seq::<YamlView>::empty());
    }
    let i = entry_or_insert_exec(def, "volumes", Yaml::List(empty));
    assert(pairs_view(def@).len() == def@.len());
    match open_entry_list(def, i) {
        None => false,
        Some((t, mut items)) => {
            let ghost start = items_view(items@);
            let mut k: usize = 0;
            while k < paths.len()
                invariant
                    k <= paths@.len(),
                    pv == views(paths@),
                    items_view(items@) =~= start + str_values(
                        pv.subrange(0, k as int).map_values(|p: Seq<char>| secret_mount(p)),
                    ),
                decreases paths.len() - k,
            {
                let ghost prev = items_view(items@);
                let p = paths[k].as_str();
                let mut mount = owned(p);
                push_str(&mut mount, ":");
                push_str(&mut mount, p);
                push_str(&mut mount, ":ro");
                items.push(Yaml::Str(mount));
                assert(items_view(items@) =~= prev.push(YamlView::Str(secret_mount(p@))));
                assert(pv.subrange(0, k + 1).map_values(|q: Seq<char>| secret_mount(q)) =~= pv.subrange(
                    0,
                    k as int,
                ).map_values(|q: Seq<char>| secret_mount(q)).push(secret_mount(p@)));
                k = k + 1;
            }
            assert(pv.subrange(0, paths@.len() as int) =~= pv);
            close_entry_list(def, i, t, items);
            true
        },
    }
}

/// Gives every service its host entries and secret mounts; whether one was
/// changed.
fn hosts_and_secrets_exec(doc: Yaml, c: &ComposeRewriteConfig) -> (r: (Yaml, bool))
    ensures
        (yaml_view(r.0), r.1) == hosts_and_secrets(yaml_view(doc), c@),
        as_mapping(yaml_view(doc)) is Some ==> as_mapping(yaml_view(r.0)) is Some,
{
    let target: &str = match &c.bridge_gateway_ip {
        Some(ip) => ip.as_str(),
        None => "host-gateway",
    };
    let ghost sh = views(c.shared_service_names@);
    let ghost pv = views(c.secret_container_paths@);
    match open_section(doc, "services") {
        Err(d) => (d, false),
        Ok((o, mut s)) => {
            let ghost s0 = pairs_view(s@);
            let n = s.len();
            let mut changed = false;
            let mut i: usize = 0;
            while i < n
                invariant
                    i <= n == s0.len(),
                    s@.len() == n,
                    sh == views(c.shared_service_names@),
                    pv == views(c.secret_container_paths@),
                    target@ == host_target(c@),
                    (pairs_view(s@), changed) == hosts_and_secrets_in(s0, i as int, sh, target@, pv),
                decreases n - i,
            {
                let name: Option<String> = match as_str_exec(&s[i].0) {
                    Some(x) => Some(owned(x.as_str())),
                    None => None,
                };
                if let Some(name) = name {
                    if let Some(j) = find_key_exec(&s, name.as_str()) {
                        match open_entry_mapping(&mut s, j) {
                            Some((t, mut def)) => {
                                let c1 = ensure_extra_hosts_exec(&mut def, &c.shared_service_names, target);
                                let c2 = ensure_secret_mounts_exec(&mut def, &c.secret_container_paths);
                                close_entry_mapping(&mut s, j, t, def);
                                changed = changed || c1 || c2;
                            },
                            None => {},
                        }
                    }
                }
                i = i + 1;
            }
            (close_section(o, s), changed)
        },
    }
}

// ---------------------------------------------------------------------------
// Mount propagation of hot services
// ---------------------------------------------------------------------------

/// Whether a long-form volume is a bind mount.
pub open spec fn is_bind_volume(m: Seq<(YamlView, YamlView)>) -> bool {
    match find_key(m, "type"@) {
        Some(k) => as_str(m[k].1) == Some("bind"@),
        None => false,
    }
}

/// A long-form volume with `rslave` propagation when it is a bind mount
/// that sets no propagation.
pub open spec fn rslave_long_form(m: Seq<(YamlView, YamlView)>) -> Seq<(YamlView, YamlView)> {
    if !is_bind_volume(m) {
        m
    } else {
        let (m1, i) = entry_or_insert(m, "bind"@, YamlView::Mapping(Seq::empty()));
        match as_mapping(m1[i].1) {
            None => m1,
            Some(bm) => {
                let bm2 = if find_key(bm, "propagation"@) is Some {
                    bm
                } else {
                    bm.push((ystr("propagation"@), ystr("rslave"@)))
                };
                m1.update(i, (m1[i].0, with_mapping(m1[i].1, bm2)))
            },
        }
    }
}

/// A volume entry with `rslave` propagation; entries under a tag are left
/// as they are.
pub open spec fn rslave_item(x: YamlView) -> YamlView {
    match x {
        YamlView::Str(s) => match rslave_short_form(s) {
            Some(t) => YamlView::Str(t),
            None => x,
        },
        YamlView::Mapping(m) => YamlView::Mapping(rslave_long_form(m)),
        _ => x,
    }
}

/// A service definition whose volume entries get `rslave` propagation;
/// whether it has a list of volumes.
pub open spec fn rslave_def(def: Seq<(YamlView, YamlView)>) -> (Seq<(YamlView, YamlView)>, bool) {
    match find_key(def, "volumes"@) {
        None => (def, false),
        Some(v) => match as_list(def[v].1) {
            None => (def, false),
            Some(items) => (
                def.update(
                    v,
                    (def[v].0, with_list(def[v].1, items.map_values(|x: YamlView| rslave_item(x)))),
                ),
                true,
            ),
        },
    }
}

/// The services after the first `n` service names were looked at for hot
/// bind mounts; whether one was changed.
pub open spec fn rslave_in(s: Seq<(YamlView, YamlView)>, n: int, default_hot: bool, hot: Seq<Seq<char>>) -> (Seq<(YamlView, YamlView)>, bool)
    decreases n,
{
    if n <= 0 {
        (s, false)
    } else {
        let (s1, changed) = rslave_in(s, n - 1, default_hot, hot);
        match as_str(s1[n - 1].0) {
            None => (s1, changed),
            Some(name) => if !(default_hot || hot.contains(name)) {
                (s1, changed)
            } else {
                match find_key(s1, name) {
                    None => (s1, changed),
                    Some(j) => match as_mapping(s1[j].1) {
                        None => (s1, changed),
                        Some(def) => {
                            let (d2, c) = rslave_def(def);
                            (s1.update(j, (s1[j].0, with_mapping(s1[j].1, d2))), changed || c)
                        },
                    },
                }
            },
        }
    }
}

/// The document with `rslave` propagation on the bind mounts of hot
/// services; whether it was changed.
pub open spec fn rslave_overrides(doc: YamlView, default_hot: bool, hot: Seq<Seq<char>>) -> (YamlView, bool) {
    if !default_hot && hot.len() == 0 {
        (doc, false)
    } else {
        match mapping_at(doc, "services"@) {
            None => (doc, false),
            Some(s) => {
                let (s1, changed) = rslave_in(s, s.len() as int, default_hot, hot);
                (replace_mapping_at(doc, "services"@, s1), changed)
            },
        }
    }
}

/// Gives a long-form bind mount `rslave` propagation.
fn rslave_long_form_exec(m: &mut Vec<(Yaml, Yaml)>)
    ensures
        pairs_view(final(m)@) == rslave_long_form(pairs_view(old(m)@)),
{
    let is_bind = match find_key_exec(m, "type") {
        Some(k) => match as_str_exec(&m[k].1) {
            Some(t) => str_eq(t.as_str(), "bind"),
            None => false,
        },
        None => false,
    };
    if !is_bind {
        return;
    }
    let empty: Vec<(Yaml, Yaml)> = Vec::new();
    proof {
        lemma_mapping_view(empty);
        assert(pairs_view(empty@) =~= Seq::<(YamlView, YamlView)>::empty());
    }
    let i = entry_or_insert_exec(m, "bind", Yaml::Mapping(empty));
    assert(pairs_view(m@).len() == m@.len());
    match open_entry_mapping(m, i) {
        None => {},
        Some((t, mut bm)) => {
            if find_key_exec(&bm, "propagation").is_none() {
                let ghost b0 = pairs_view(bm@);
                bm.push((str_value("propagation"), str_value("rslave")));
                assert(pairs_view(bm@) =~= b0.push((ystr("propagation"@), ystr("rslave"@))));
            }
            close_entry_mapping(m, i, t, bm);
        },
    }
}

/// Gives a service's volume entry `rslave` mount propagation: a short-form
/// bind mount (`./src:/app`) gets the `rslave` mode, a long-form bind mount
/// (`type: bind`) gets `bind.propagation: rslave` unless it sets a
/// propagation; named volumes, tagged entries and other values are left as
/// they are.
pub fn rslave_volume_entry(x: Yaml) -> (r: Yaml)
    ensures
        yaml_view(r) == rslave_item(yaml_view(x)),
{
    match x {
        Yaml::Str(s) => match rewrite_volume_with_rslave(s.as_str()) {
            Some(t) => Yaml::Str(t),
            None => Yaml::Str(s),
        },
        Yaml::Mapping(mut m) => {
            proof {
                lemma_mapping_view(m);
            }
            rslave_long_form_exec(&mut m);
            proof {
                lemma_mapping_view(m);
            }
            Yaml::Mapping(m)
        },
        other => other,
    }
}

/// Gives every volume entry `rslave` propagation.
fn rslave_items_exec(items: Vec<Yaml>) -> (r: Vec<Yaml>)
    ensures
        items_view(r@) == items_view(items@).map_values(|x: YamlView| rslave_item(x)),
{
    let ghost iv = items_view(items@);
    let n = items.len();
    let mut rest = items;
    let mut out: Vec<Yaml> = Vec::new();
    let mut i: usize = 0;
    while i < n
        invariant
            i <= n == iv.len(),
            rest@.len() == n - i,
            forall|k: int| 0 <= k < rest@.len() ==> yaml_view(#[trigger] rest@[k]) == iv[i + k],
            items_view(out@) =~= iv.subrange(0, i as int).map_values(|x: YamlView| rslave_item(x)),
        decreases n - i,
    {
        let ghost prev = rest@;
        let ghost before = items_view(out@);
        let x = rest.remove(0);
        assert(yaml_view(x) == iv[i as int]);
        out.push(rslave_volume_entry(x));
        assert(items_view(out@) =~= before.push(rslave_item(iv[i as int])));
        assert(iv.subrange(0, i + 1).map_values(|x: YamlView| rslave_item(x)) =~= iv.subrange(
            0,
            i as int,
        ).map_values(|x: YamlView| rslave_item(x)).push(rslave_item(iv[i as int])));
        assert forall|k: int| 0 <= k < rest@.len() implies yaml_view(#[trigger] rest@[k]) == iv[(
        i + 1) + k] by {
            assert(rest@[k] == prev[k + 1]);
        }
        i = i + 1;
    }
    assert(iv.subrange(0, n as int) =~= iv);
    out
}

/// Gives a service definition's volume entries `rslave` propagation;
/// whether it has a list of volumes.
fn rslave_def_exec(def: &mut Vec<(Yaml, Yaml)>) -> (r: bool)
    ensures
        (pairs_view(final(def)@), r) == rslave_def(pairs_view(old(def)@)),
{
    match find_key_exec(def, "volumes") {
        None => false,
        Some(v) => match open_entry_list(def, v) {
            None => false,
            Some((t, items)) => {
                let items2 = rslave_items_exec(items);
                close_entry_list(def, v, t, items2);
                true
            },
        },
    }
}

/// Gives the bind mounts of hot services `rslave` propagation; whether one
/// was changed.
fn rslave_overrides_exec(doc: Yaml, default_hot: bool, hot: &Vec<String>) -> (r: (Yaml, bool))
    ensures
        (yaml_view(r.0), r.1) == rslave_overrides(yaml_view(doc), default_hot, views(hot@)),
        as_mapping(yaml_view(doc)) is Some ==> as_mapping(yaml_view(r.0)) is Some,
{
    if !default_hot && hot.len() == 0 {
        return (doc, false);
    }
    let ghost hv = views(hot@);
    match open_section(doc, "services") {
        Err(d) => (d, false),
        Ok((o, mut s)) => {
            let ghost s0 = pairs_view(s@);
            let n = s.len();
            let mut changed = false;
            let mut i: usize = 0;
            while i < n
                invariant
                    i <= n == s0.len(),
                    s@.len() == n,
                    hv == views(hot@),
                    (pairs_view(s@), changed) == rslave_in(s0, i as int, default_hot, hv),
                decreases n - i,
            {
                let name: Option<String> = match as_str_exec(&s[i].0) {
                    Some(x) => Some(owned(x.as_str())),
                    None => None,
                };
                if let Some(name) = name {
                    if is_hot_service(name.as_str(), default_hot, hot) {
                        if let Some(j) = find_key_exec(&s, name.as_str()) {
                            match open_entry_mapping(&mut s, j) {
                                Some((t, mut def)) => {
                                    let c = rslave_def_exec(&mut def);
                                    close_entry_mapping(&mut s, j, t, def);
                                    changed = changed || c;
                                },
                                None => {},
                            }
                        }
                    }
                }
                i = i + 1;
            }
            (close_section(o, s), changed)
        },
    }
}

// ---------------------------------------------------------------------------
// The whole rewrite
// ---------------------------------------------------------------------------

/// The services that do not run in the instance: the shared ones, then the
/// ones the Coastfile omits.
pub open spec fn stubbed_services(c: ComposeRewriteView) -> Seq<Seq<char>> {
    match c.coastfile {
        Some(cf) => c.shared + cf.omit_services,
        None => c.shared,
    }
}

/// The document without the volumes that the Coastfile omits; whether one
/// was there.
pub open spec fn remove_omitted_volumes(doc: YamlView, c: ComposeRewriteView) -> (YamlView, bool) {
    match c.coastfile {
        Some(cf) => if cf.omit_volumes.len() == 0 {
            (doc, false)
        } else {
            remove_volume_entries(doc, cf.omit_volumes)
        },
        None => (doc, false),
    }
}

/// The rewritten document, and whether the rewrite changed anything that
/// calls for writing it: removing a stubbed service or an omitted volume,
/// an image override, declaring coast-managed volumes, a host entry or
/// secret mount, or propagation on a hot service's mounts. The named
/// volumes of stubbed services are removed too, but that alone calls for
/// no write.
pub open spec fn rewrite_compose(doc: YamlView, c: ComposeRewriteView) -> (YamlView, bool) {
    let stubbed = stubbed_services(c);
    let stubbed_volumes = named_volumes_of_services(doc, stubbed);
    let (d1, b1) = remove_stubbed(doc, stubbed);
    let d2 = remove_volume_entries(d1, stubbed_volumes).0;
    let (d3, b3) = remove_omitted_volumes(d2, c);
    let (d4, b4) = image_overrides(d3, c.image_tags);
    let (d5, b5) = managed_volumes(d4, c);
    let (d6, b6) = hosts_and_secrets(d5, c);
    let (d7, b7) = rslave_overrides(d6, c.default_hot, c.hot);
    (d7, b1 || b3 || b4 || b5 || b6 || b7)
}

/// The names of the stubbed services.
fn stubbed_services_exec(c: &ComposeRewriteConfig) -> (r: Vec<String>)
    ensures
        views(r@) == stubbed_services(c@),
{
    let mut out: Vec<String> = Vec::new();
    let mut i: usize = 0;
    while i < c.shared_service_names.len()
        invariant
            i <= c.shared_service_names@.len(),
            views(out@) =~= views(c.shared_service_names@).subrange(0, i as int),
        decreases c.shared_service_names.len() - i,
    {
        let ghost prev = views(out@);
        out.push(owned(c.shared_service_names[i].as_str()));
        assert(views(out@) =~= prev.push(c.shared_service_names@[i as int]@));
        i = i + 1;
    }
    assert(views(c.shared_service_names@).subrange(0, c.shared_service_names@.len() as int)
        =~= views(c.shared_service_names@));
    if let Some(cf) = &c.coastfile {
        let ghost sh = views(out@);
        let mut k: usize = 0;
        while k < cf.omit_services.len()
            invariant
                k <= cf.omit_services@.len(),
                views(out@) =~= sh + views(cf.omit_services@).subrange(0, k as int),
            decreases cf.omit_services.len() - k,
        {
            let ghost prev = views(out@);
            out.push(owned(cf.omit_services[k].as_str()));
            assert(views(out@) =~= prev.push(cf.omit_services@[k as int]@));
            k = k + 1;
        }
        assert(views(cf.omit_services@).subrange(0, cf.omit_services@.len() as int)
            =~= views(cf.omit_services@));
    }
    out
}

/// Rewrites a compose document for one instance: `Some` with the rewritten
/// document when the rewrite calls for writing it, `None` when it does not.
/// When coast-managed volumes are declared the document must be a mapping.
pub fn rewrite_compose_yaml(doc: Yaml, config: &ComposeRewriteConfig) -> (r: Option<Yaml>)
    requires
        declares_managed_volumes(config@) ==> as_mapping(yaml_view(doc)) is Some,
    ensures
        match r {
            Some(y) => rewrite_compose(yaml_view(doc), config@).1 && yaml_view(y)
                == rewrite_compose(yaml_view(doc), config@).0,
            None => !rewrite_compose(yaml_view(doc), config@).1,
        },
{
    let stubbed = stubbed_services_exec(config);
    let stubbed_volumes = named_volumes_of_services_exec(&doc, &stubbed);
    let (d1, b1) = if stubbed.len() == 0 {
        (doc, false)
    } else {
        remove_services_exec(doc, &stubbed)
    };
    let (d2, _) = remove_volume_entries_exec(d1, &stubbed_volumes);
    let (d3, b3) = match &config.coastfile {
        Some(cf) => if cf.omit_volumes.len() == 0 {
            (d2, false)
        } else {
            remove_volume_entries_exec(d2, &cf.omit_volumes)
        },
        None => (d2, false),
    };
    let (d4, b4) = image_overrides_exec(d3, &config.per_instance_image_tags);
    let (d5, b5) = managed_volumes_exec(d4, config);
    let (d6, b6) = hosts_and_secrets_exec(d5, config);
    let (d7, b7) = rslave_overrides_exec(d6, config.default_hot, &config.hot_services);
    if b1 || b3 || b4 || b5 || b6 || b7 {
        Some(d7)
    } else {
        None
    }
}


// ---------------------------------------------------------------------------
// Build artifacts
// ---------------------------------------------------------------------------

/// The artifact's compose document without the services and top-level
/// volumes that the Coastfile omits, and without dependencies on the
/// omitted services; whether a service or volume was removed.
pub open spec fn strip_omitted(doc: YamlView, omit_services: Seq<Seq<char>>, omit_volumes: Seq<Seq<char>>) -> (YamlView, bool) {
    let (d1, b1) = remove_services(doc, omit_services);
    let (d2, b2) = remove_volume_entries(d1, omit_volumes);
    (d2, b1 || b2)
}

/// Strips the services and volumes that the Coastfile omits from a build
/// artifact's compose document: `Some` with the stripped document when one
/// was removed, `None` when the Coastfile omits nothing or nothing omitted
/// was there.
pub fn strip_omitted_services_and_volumes(doc: Yaml, omit_services: &Vec<String>, omit_volumes: &Vec<String>) -> (r: Option<Yaml>)
    ensures
        match r {
            Some(y) => {
                &&& omit_services@.len() + omit_volumes@.len() > 0
                &&& strip_omitted(yaml_view(doc), views(omit_services@), views(omit_volumes@)).1
                &&& yaml_view(y) == strip_omitted(yaml_view(doc), views(omit_services@), views(omit_volumes@)).0
            },
            None => omit_services@.len() + omit_volumes@.len() == 0 || !strip_omitted(
                yaml_view(doc),
                views(omit_services@),
                views(omit_volumes@),
            ).1,
        },
{
    if omit_services.len() == 0 && omit_volumes.len() == 0 {
        return None;
    }
    let (d1, b1) = remove_services_exec(doc, omit_services);
    let (d2, b2) = remove_volume_entries_exec(d1, omit_volumes);
    if b1 || b2 {
        Some(d2)
    } else {
        None
    }
}

// ---------------------------------------------------------------------------
// Laws
// ---------------------------------------------------------------------------

/// Keys that occur once each, as in every mapping read from a document.
pub open spec fn unique_keys(m: Seq<(YamlView, YamlView)>) -> bool {
    forall|i: int, j: int| 0 <= i < j < m.len() ==> m[i].0 != m[j].0
}

/// No entry has the string key `k`.
pub open spec fn lacks_key(m: Seq<(YamlView, YamlView)>, k: Seq<char>) -> bool {
    forall|p: int| 0 <= p < m.len() ==> m[p].0 != YamlView::Str(k)
}

/// Entries with the same keys in the same places.
pub open spec fn same_keys(a: Seq<(YamlView, YamlView)>, b: Seq<(YamlView, YamlView)>) -> bool {
    a.len() == b.len() && forall|j: int| 0 <= j < a.len() ==> #[trigger] a[j].0 == b[j].0
}

proof fn lemma_find_key_from_none(m: Seq<(YamlView, YamlView)>, k: Seq<char>, i: int)
    requires
        0 <= i,
    ensures
        crate::yaml::find_key_from(m, k, i) is None <==> (forall|p: int| i <= p < m.len() ==> m[p].0 != YamlView::Str(k)),
    decreases m.len() - i,
{
    if i < m.len() {
        lemma_find_key_from_none(m, k, i + 1);
    }
}

/// A key is found exactly when some entry has it.
proof fn lemma_find_key_none(m: Seq<(YamlView, YamlView)>, k: Seq<char>)
    ensures
        find_key(m, k) is None <==> lacks_key(m, k),
{
    lemma_find_key_from_none(m, k, 0);
}

/// Entries with the same keys find the same keys.
proof fn lemma_same_keys_find(a: Seq<(YamlView, YamlView)>, b: Seq<(YamlView, YamlView)>, k: Seq<char>)
    requires
        same_keys(a, b),
    ensures
        find_key(a, k) == find_key(b, k),
{
    crate::yaml::lemma_find_key_same_keys(a, b, k, 0);
}

/// An entry pushed with another key changes no lookup.
proof fn lemma_find_key_push(m: Seq<(YamlView, YamlView)>, e: (YamlView, YamlView), k: Seq<char>, i: int)
    requires
        e.0 != YamlView::Str(k),
        0 <= i,
    ensures
        crate::yaml::find_key_from(m.push(e), k, i) == crate::yaml::find_key_from(m, k, i),
    decreases m.len() + 1 - i,
{
    if i < m.len() + 1 {
        lemma_find_key_push(m, e, k, i + 1);
    }
}

/// Removing a key keeps the keys unique and leaves no entry with that key;
/// every entry left was there before.
proof fn lemma_remove_key_unique(m: Seq<(YamlView, YamlView)>, k: Seq<char>)
    requires
        unique_keys(m),
    ensures
        unique_keys(remove_key(m, k)),
        lacks_key(remove_key(m, k), k),
        remove_key(m, k).len() <= m.len(),
        forall|p: int| 0 <= p < remove_key(m, k).len() ==> (#[trigger] remove_key(m, k)[p] == m[p]
            || remove_key(m, k)[p] == m.last()),
{
    lemma_find_key_none(m, k);
    match find_key(m, k) {
        Some(i) => {
            lemma_find_key_from(m, k, 0);
            let r = swap_remove_at(m, i);
            assert forall|p: int| 0 <= p < r.len() implies r[p].0 != YamlView::Str(k) by {
                if p == i {
                    assert(m[m.len() - 1].0 != m[i].0);
                } else {
                    if i < p {
                        assert(m[i].0 != m[p].0);
                    } else {
                        assert(m[p].0 != m[i].0);
                    }
                }
            }
            assert forall|a: int, b: int| 0 <= a < b < r.len() implies r[a].0 != r[b].0 by {
                if a == i {
                    assert(m[b].0 != m[m.len() - 1].0);
                } else if b == i {
                    assert(m[a].0 != m[m.len() - 1].0);
                } else {
                    assert(m[a].0 != m[b].0);
                }
            }
        },
        None => {},
    }
}

/// Removing keys in turn keeps the keys unique and leaves none of them.
proof fn lemma_remove_keys_unique(m: Seq<(YamlView, YamlView)>, ks: Seq<Seq<char>>)
    requires
        unique_keys(m),
    ensures
        unique_keys(remove_keys(m, ks).0),
        forall|q: int| 0 <= q < ks.len() ==> lacks_key(remove_keys(m, ks).0, #[trigger] ks[q]),
    decreases ks.len(),
{
    if ks.len() > 0 {
        let prev = remove_keys(m, ks.drop_last()).0;
        lemma_remove_keys_unique(m, ks.drop_last());
        lemma_remove_key_unique(prev, ks.last());
        let r = remove_key(prev, ks.last());
        assert forall|q: int| 0 <= q < ks.len() implies lacks_key(r, #[trigger] ks[q]) by {
            if q < ks.len() - 1 {
                assert(ks.drop_last()[q] == ks[q]);
                assert(lacks_key(prev, ks[q]));
                assert forall|p: int| 0 <= p < r.len() implies r[p].0 != YamlView::Str(ks[q]) by {
                    if r[p] != prev[p] {
                        assert(r[p] == prev[prev.len() - 1]);
                    }
                }
            }
        }
    }
}

/// Replacing a section gives back the new entries under its key, and
/// leaves every other section as it was.
proof fn lemma_replace_section(doc: YamlView, key: Seq<char>, key2: Seq<char>, x: Seq<(YamlView, YamlView)>)
    requires
        mapping_at(doc, key) is Some,
    ensures
        mapping_at(replace_mapping_at(doc, key, x), key) == Some(x),
        key2 != key ==> mapping_at(replace_mapping_at(doc, key, x), key2) == mapping_at(doc, key2),
{
    let m = as_mapping(doc)->0;
    let i = find_key(m, key)->0;
    let mm = m.update(i, (m[i].0, with_mapping(m[i].1, x)));
    lemma_find_key_from(m, key, 0);
    crate::yaml::lemma_with_mapping(doc, mm);
    crate::yaml::lemma_with_mapping(m[i].1, x);
    assert(same_keys(m, mm));
    lemma_same_keys_find(m, mm, key);
    lemma_same_keys_find(m, mm, key2);
    if key2 != key {
        match find_key(m, key2) {
            Some(j) => {
                lemma_find_key_from(m, key2, 0);
                assert(j != i);
            },
            None => {},
        }
    }
}

proof fn lemma_image_overrides_keys(s: Seq<(YamlView, YamlView)>, tags: Seq<(Seq<char>, Seq<char>)>)
    ensures
        same_keys(s, image_overrides_in(s, tags).0),
    decreases tags.len(),
{
    if tags.len() > 0 {
        lemma_image_overrides_keys(s, tags.drop_last());
        let s1 = image_overrides_in(s, tags.drop_last()).0;
        lemma_find_key_from(s1, tags.last().0, 0);
    }
}

proof fn lemma_hosts_and_secrets_keys(s: Seq<(YamlView, YamlView)>, n: int, shared: Seq<Seq<char>>, target: Seq<char>, paths: Seq<Seq<char>>)
    ensures
        same_keys(s, hosts_and_secrets_in(s, n, shared, target, paths).0),
    decreases n,
{
    if n > 0 {
        lemma_hosts_and_secrets_keys(s, n - 1, shared, target, paths);
        let s1 = hosts_and_secrets_in(s, n - 1, shared, target, paths).0;
        if let Some(name) = as_str(s1[n - 1].0) {
            lemma_find_key_from(s1, name, 0);
        }
    }
}

proof fn lemma_rslave_keys(s: Seq<(YamlView, YamlView)>, n: int, default_hot: bool, hot: Seq<Seq<char>>)
    ensures
        same_keys(s, rslave_in(s, n, default_hot, hot).0),
    decreases n,
{
    if n > 0 {
        lemma_rslave_keys(s, n - 1, default_hot, hot);
        let s1 = rslave_in(s, n - 1, default_hot, hot).0;
        if let Some(name) = as_str(s1[n - 1].0) {
            lemma_find_key_from(s1, name, 0);
        }
    }
}

/// Declaring the coast-managed volumes leaves the services as they were.
proof fn lemma_managed_volumes_services(doc: YamlView, c: ComposeRewriteView)
    requires
        mapping_at(doc, "services"@) is Some,
    ensures
        mapping_at(managed_volumes(doc, c).0, "services"@) == mapping_at(doc, "services"@),
{
    if declares_managed_volumes(c) {
        reveal_strlit("services");
        reveal_strlit("volumes");
        assert("services"@.len() != "volumes"@.len());
        let m = as_mapping(doc)->0;
        let e = (ystr("volumes"@), YamlView::Mapping(Seq::<(YamlView, YamlView)>::empty()));
        let (m1, i) = entry_or_insert(m, "volumes"@, YamlView::Mapping(Seq::empty()));
        let js = find_key(m, "services"@)->0;
        lemma_find_key_from(m, "services"@, 0);
        match find_key(m, "volumes"@) {
            Some(iv) => {
                lemma_find_key_from(m, "volumes"@, 0);
                assert(m1 == m);
            },
            None => {
                lemma_find_key_push(m, e, "services"@, 0);
                assert(m1 == m.push(e));
            },
        }
        assert(find_key(m1, "services"@) == Some(js));
        assert(js != i);
        let mm = match as_mapping(m1[i].1) {
            None => m1,
            Some(vm) => m1.update(
                i,
                (m1[i].0, with_mapping(m1[i].1, set_managed_volumes(vm, c.coastfile->0.volume_names))),
            ),
        };
        assert(same_keys(m1, mm));
        lemma_same_keys_find(m1, mm, "services"@);
        crate::yaml::lemma_with_mapping(doc, mm);
        assert(managed_volumes(doc, c).0 == with_mapping(doc, mm));
    }
}

/// Law: the services that do not run in the instance (the shared ones and
/// the ones the Coastfile omits) are gone from the rewritten document. It
/// holds of every document whose services section has each name once,
/// whether or not the rewrite calls for writing it.
pub proof fn law_stubbed_services_are_removed(doc: YamlView, c: ComposeRewriteView, name: Seq<char>)
    requires
        mapping_at(doc, "services"@) matches Some(s) && unique_keys(s),
        stubbed_services(c).contains(name),
    ensures
        mapping_at(rewrite_compose(doc, c).0, "services"@) matches Some(s2) && find_key(s2, name)
            is None,
{
    reveal_strlit("services");
    reveal_strlit("volumes");
    assert("services"@.len() != "volumes"@.len());
    let stubbed = stubbed_services(c);
    let s = mapping_at(doc, "services"@)->0;
    let stubbed_volumes = named_volumes_of_services(doc, stubbed);
    let (d1, b1) = remove_stubbed(doc, stubbed);
    let left = remove_keys(s, stubbed).0;
    let s1 = left.map_values(|e: (YamlView, YamlView)| strip_entry(e, stubbed));
    lemma_remove_keys_unique(s, stubbed);
    let q = choose|q: int| 0 <= q < stubbed.len() && stubbed[q] == name;
    assert(lacks_key(left, stubbed[q]));
    assert(same_keys(left, s1));
    assert(lacks_key(s1, name));
    lemma_replace_section(doc, "services"@, "volumes"@, s1);
    assert(mapping_at(d1, "services"@) == Some(s1));

    let d2 = remove_volume_entries(d1, stubbed_volumes).0;
    if let Some(v) = mapping_at(d1, "volumes"@) {
        lemma_replace_section(d1, "volumes"@, "services"@, remove_keys(v, stubbed_volumes).0);
    }
    assert(mapping_at(d2, "services"@) == Some(s1));

    let (d3, b3) = remove_omitted_volumes(d2, c);
    if let Some(cf) = c.coastfile {
        if let Some(v) = mapping_at(d2, "volumes"@) {
            lemma_replace_section(d2, "volumes"@, "services"@, remove_keys(v, cf.omit_volumes).0);
        }
    }
    assert(mapping_at(d3, "services"@) == Some(s1));

    let (d4, b4) = image_overrides(d3, c.image_tags);
    let s4 = image_overrides_in(s1, c.image_tags).0;
    lemma_image_overrides_keys(s1, c.image_tags);
    lemma_replace_section(d3, "services"@, "volumes"@, s4);
    assert(mapping_at(d4, "services"@) == Some(s4));

    let (d5, b5) = managed_volumes(d4, c);
    lemma_managed_volumes_services(d4, c);
    assert(mapping_at(d5, "services"@) == Some(s4));

    let (d6, b6) = hosts_and_secrets(d5, c);
    let s6 = hosts_and_secrets_in(s4, s4.len() as int, c.shared, host_target(c), c.secret_paths).0;
    lemma_hosts_and_secrets_keys(s4, s4.len() as int, c.shared, host_target(c), c.secret_paths);
    lemma_replace_section(d5, "services"@, "volumes"@, s6);
    assert(mapping_at(d6, "services"@) == Some(s6));

    let d7 = rslave_overrides(d6, c.default_hot, c.hot).0;
    let s7 = if !c.default_hot && c.hot.len() == 0 {
        s6
    } else {
        rslave_in(s6, s6.len() as int, c.default_hot, c.hot).0
    };
    lemma_rslave_keys(s6, s6.len() as int, c.default_hot, c.hot);
    if !(!c.default_hot && c.hot.len() == 0) {
        lemma_replace_section(d6, "services"@, "volumes"@, s7);
    }
    assert(mapping_at(d7, "services"@) == Some(s7));
    assert forall|p: int| 0 <= p < s7.len() implies s7[p].0 != YamlView::Str(name) by {
        assert(s7[p].0 == s6[p].0);
        assert(s6[p].0 == s4[p].0);
        assert(s4[p].0 == s1[p].0);
    }
    lemma_find_key_none(s7, name);
}

/// Keys that carry no tag.
pub open spec fn untagged_keys(m: Seq<(YamlView, YamlView)>) -> bool {
    forall|p: int| 0 <= p < m.len() ==> !(#[trigger] m[p].0 is Tagged)
}

/// A service definition whose `extra_hosts` is there and, when it is a
/// list, holds each wanted entry.
pub open spec fn lists_hosts(def: Seq<(YamlView, YamlView)>, wanted: Seq<Seq<char>>) -> bool {
    match find_key(def, "extra_hosts"@) {
        Some(i) => match as_list(def[i].1) {
            Some(items) => forall|x: Seq<char>| #[trigger] wanted.contains(x) ==> str_items(items).contains(x),
            None => true,
        },
        None => false,
    }
}

/// Every service named by a plain string whose definition is a mapping
/// lists the wanted hosts.
pub open spec fn services_list_hosts(s: Seq<(YamlView, YamlView)>, wanted: Seq<Seq<char>>) -> bool {
    forall|p: int| 0 <= p < s.len() && #[trigger] s[p].0 is Str && as_mapping(s[p].1) is Some
        ==> lists_hosts(as_mapping(s[p].1)->0, wanted)
}

/// With distinct keys, a key is found where it is.
proof fn lemma_find_unique(m: Seq<(YamlView, YamlView)>, k: Seq<char>, i: int, from: int)
    requires
        unique_keys(m),
        0 <= from <= i < m.len(),
        m[i].0 == YamlView::Str(k),
    ensures
        crate::yaml::find_key_from(m, k, from) == Some(i),
    decreases i - from,
{
    if from < i {
        assert(m[from].0 != m[i].0);
        lemma_find_unique(m, k, i, from + 1);
    }
}

/// The strings among appended string values are those values.
proof fn lemma_str_items_append(items: Seq<YamlView>, added: Seq<Seq<char>>)
    ensures
        str_items(items + str_values(added)) == str_items(items) + added,
    decreases added.len(),
{
    if added.len() > 0 {
        lemma_str_items_append(items, added.drop_last());
        let whole = items + str_values(added);
        assert(whole.drop_last() =~= items + str_values(added.drop_last()));
        assert(whole.last() == YamlView::Str(added.last()));
        assert(str_items(items) + added =~= str_items(items) + added.drop_last() + seq![added.last()]);
    } else {
        assert(items + str_values(added) =~= items);
        assert(str_items(items) + added =~= str_items(items));
    }
}

/// Each wanted entry is among the existing ones or among the missing ones.
proof fn lemma_missing_covers(wanted: Seq<Seq<char>>, existing: Seq<Seq<char>>, x: Seq<char>)
    requires
        wanted.contains(x),
    ensures
        existing.contains(x) || missing(wanted, existing).contains(x),
    decreases wanted.len(),
{
    if wanted.last() != x {
        let k = choose|k: int| 0 <= k < wanted.len() && wanted[k] == x;
        assert(wanted.drop_last()[k] == x);
        lemma_missing_covers(wanted.drop_last(), existing, x);
        if missing(wanted.drop_last(), existing).contains(x) {
            let q = choose|q: int| 0 <= q < missing(wanted.drop_last(), existing).len()
                && missing(wanted.drop_last(), existing)[q] == x;
            assert(missing(wanted, existing)[q] == x);
        }
    } else if !existing.contains(x) {
        assert(missing(wanted, existing).last() == x);
    }
}

/// After `entry(key).or_insert(..)`, the key is found at the returned index.
proof fn lemma_entry_found(m: Seq<(YamlView, YamlView)>, key: Seq<char>, default: YamlView)
    ensures
        find_key(entry_or_insert(m, key, default).0, key) == Some(entry_or_insert(m, key, default).1),
        0 <= entry_or_insert(m, key, default).1 < entry_or_insert(m, key, default).0.len(),
        forall|k2: Seq<char>| k2 != key ==> find_key(entry_or_insert(m, key, default).0, k2)
            == #[trigger] find_key(m, k2),
{
    lemma_find_key_from(m, key, 0);
    match find_key(m, key) {
        Some(i) => {},
        None => {
            let e = (YamlView::Str(key), default);
            lemma_find_key_none(m, key);
            lemma_find_key_none(m.push(e), key);
            assert(m.push(e)[m.len() as int].0 == YamlView::Str(key));
            assert(!lacks_key(m.push(e), key));
            lemma_find_key_from(m.push(e), key, 0);
            assert forall|k2: Seq<char>| k2 != key implies find_key(m.push(e), k2)
                == #[trigger] find_key(m, k2) by {
                lemma_find_key_push(m, e, k2, 0);
            }
        },
    }
}

/// Service definitions keep their host entries when their secret mounts
/// are added.
proof fn lemma_secret_mounts_keep_hosts(def: Seq<(YamlView, YamlView)>, paths: Seq<Seq<char>>, wanted: Seq<Seq<char>>)
    requires
        lists_hosts(def, wanted),
    ensures
        lists_hosts(ensure_secret_mounts(def, paths).0, wanted),
{
    if paths.len() > 0 {
        reveal_strlit("extra_hosts");
        reveal_strlit("volumes");
        assert("extra_hosts"@.len() != "volumes"@.len());
        let (m1, i) = entry_or_insert(def, "volumes"@, YamlView::List(Seq::empty()));
        lemma_entry_found(def, "volumes"@, YamlView::List(Seq::empty()));
        assert(find_key(m1, "extra_hosts"@) == find_key(def, "extra_hosts"@));
        let ie = find_key(def, "extra_hosts"@)->0;
        lemma_find_key_from(m1, "extra_hosts"@, 0);
        lemma_find_key_from(m1, "volumes"@, 0);
        assert(ie != i);
        if let Some(items) = as_list(m1[i].1) {
            let r = ensure_secret_mounts(def, paths).0;
            assert(same_keys(m1, r));
            lemma_same_keys_find(m1, r, "extra_hosts"@);
            assert(r[ie] == m1[ie]);
        }
        if find_key(def, "volumes"@) is Some {
            assert(m1 == def);
        } else {
            assert(m1[ie] == def[ie]);
        }
    }
}

/// Giving a service definition its host entries lists them all.
proof fn lemma_extra_hosts_listed(def: Seq<(YamlView, YamlView)>, shared: Seq<Seq<char>>, target: Seq<char>)
    ensures
        lists_hosts(ensure_extra_hosts(def, shared, target).0, host_entries(shared, target)),
{
    let wanted = host_entries(shared, target);
    let (m1, i) = entry_or_insert(def, "extra_hosts"@, YamlView::List(Seq::empty()));
    lemma_entry_found(def, "extra_hosts"@, YamlView::List(Seq::empty()));
    if let Some(items) = as_list(m1[i].1) {
        let added = missing(wanted, str_items(items));
        let r = ensure_extra_hosts(def, shared, target).0;
        assert(same_keys(m1, r));
        lemma_same_keys_find(m1, r, "extra_hosts"@);
        crate::yaml::lemma_with_list(m1[i].1, items + str_values(added));
        lemma_str_items_append(items, added);
        assert forall|x: Seq<char>| #[trigger] wanted.contains(x) implies str_items(
            items + str_values(added),
        ).contains(x) by {
            lemma_missing_covers(wanted, str_items(items), x);
            if str_items(items).contains(x) {
                let q = choose|q: int| 0 <= q < str_items(items).len() && str_items(items)[q] == x;
                assert((str_items(items) + added)[q] == x);
            } else {
                let q = choose|q: int| 0 <= q < added.len() && added[q] == x;
                assert((str_items(items) + added)[str_items(items).len() + q] == x);
            }
        }
    }
}

/// The `rslave` rewrite of a service definition keeps its host entries.
proof fn lemma_rslave_keeps_hosts(def: Seq<(YamlView, YamlView)>, wanted: Seq<Seq<char>>)
    requires
        lists_hosts(def, wanted),
    ensures
        lists_hosts(rslave_def(def).0, wanted),
{
    reveal_strlit("extra_hosts");
    reveal_strlit("volumes");
    assert("extra_hosts"@.len() != "volumes"@.len());
    if let Some(v) = find_key(def, "volumes"@) {
        let r = rslave_def(def).0;
        lemma_find_key_from(def, "volumes"@, 0);
        lemma_find_key_from(def, "extra_hosts"@, 0);
        assert(same_keys(def, r));
        lemma_same_keys_find(def, r, "extra_hosts"@);
    }
}

/// The host step lists the hosts in every service it reaches.
proof fn lemma_hosts_in_listed(s: Seq<(YamlView, YamlView)>, n: int, shared: Seq<Seq<char>>, target: Seq<char>, paths: Seq<Seq<char>>)
    requires
        unique_keys(s),
        untagged_keys(s),
        0 <= n <= s.len(),
    ensures
        same_keys(s, hosts_and_secrets_in(s, n, shared, target, paths).0),
        forall|p: int| n <= p < s.len() ==> #[trigger] hosts_and_secrets_in(s, n, shared, target, paths).0[p] == s[p],
        forall|p: int| 0 <= p < n && #[trigger] hosts_and_secrets_in(s, n, shared, target, paths).0[p].0 is Str
            && as_mapping(hosts_and_secrets_in(s, n, shared, target, paths).0[p].1) is Some
            ==> lists_hosts(
                as_mapping(hosts_and_secrets_in(s, n, shared, target, paths).0[p].1)->0,
                host_entries(shared, target),
            ),
    decreases n,
{
    lemma_hosts_and_secrets_keys(s, n, shared, target, paths);
    if n > 0 {
        lemma_hosts_in_listed(s, n - 1, shared, target, paths);
        let s1 = hosts_and_secrets_in(s, n - 1, shared, target, paths).0;
        let r = hosts_and_secrets_in(s, n, shared, target, paths).0;
        assert(s1[n - 1] == s[n - 1]);
        assert(!(s[n - 1].0 is Tagged));
        if let Some(name) = as_str(s1[n - 1].0) {
            assert(s1[n - 1].0 == YamlView::Str(name));
            assert(unique_keys(s1)) by {
                assert forall|a: int, b: int| 0 <= a < b < s1.len() implies s1[a].0 != s1[b].0 by {
                    assert(s1[a].0 == s[a].0);
                    assert(s1[b].0 == s[b].0);
                }
            }
            lemma_find_unique(s1, name, n - 1, 0);
            if let Some(def) = as_mapping(s1[n - 1].1) {
                let (d1, c1) = ensure_extra_hosts(def, shared, target);
                lemma_extra_hosts_listed(def, shared, target);
                lemma_secret_mounts_keep_hosts(d1, paths, host_entries(shared, target));
                let d2 = hosts_and_secrets_def(def, shared, target, paths).0;
                crate::yaml::lemma_with_mapping(s1[n - 1].1, d2);
                assert(r[n - 1].1 == with_mapping(s1[n - 1].1, d2));
            }
        }
    }
}

/// The `rslave` step keeps every listing of the hosts.
proof fn lemma_rslave_in_keeps_hosts(s: Seq<(YamlView, YamlView)>, n: int, default_hot: bool, hot: Seq<Seq<char>>, wanted: Seq<Seq<char>>)
    requires
        services_list_hosts(s, wanted),
    ensures
        services_list_hosts(rslave_in(s, n, default_hot, hot).0, wanted),
    decreases n,
{
    lemma_rslave_keys(s, n, default_hot, hot);
    if n > 0 {
        lemma_rslave_in_keeps_hosts(s, n - 1, default_hot, hot, wanted);
        lemma_rslave_keys(s, n - 1, default_hot, hot);
        let s1 = rslave_in(s, n - 1, default_hot, hot).0;
        let r = rslave_in(s, n, default_hot, hot).0;
        if let Some(name) = as_str(s1[n - 1].0) {
            if default_hot || hot.contains(name) {
                if let Some(j) = find_key(s1, name) {
                    lemma_find_key_from(s1, name, 0);
                    if let Some(def) = as_mapping(s1[j].1) {
                        let d2 = rslave_def(def).0;
                        crate::yaml::lemma_with_mapping(s1[j].1, d2);
                        assert forall|p: int| 0 <= p < r.len() && #[trigger] r[p].0 is Str
                            && as_mapping(r[p].1) is Some implies lists_hosts(
                            as_mapping(r[p].1)->0,
                            wanted,
                        ) by {
                            if p == j {
                                assert(s1[p].0 is Str);
                                lemma_rslave_keeps_hosts(def, wanted);
                            } else {
                                assert(r[p] == s1[p]);
                            }
                        }
                    }
                }
            }
        }
    }
}

/// Law: after the rewrite, every service named by a plain string whose
/// definition is a mapping has an `extra_hosts` entry, and when that entry
/// is a list it names the host (`host.docker.internal:host-gateway`) and
/// each shared service at the bridge address. It holds of every document
/// whose services section has distinct, untagged keys.
pub proof fn law_services_reach_host_and_shared_services(doc: YamlView, c: ComposeRewriteView)
    requires
        mapping_at(doc, "services"@) matches Some(s) && unique_keys(s) && untagged_keys(s),
    ensures
        mapping_at(rewrite_compose(doc, c).0, "services"@) matches Some(s2) && services_list_hosts(
            s2,
            host_entries(c.shared, host_target(c)),
        ),
{
    reveal_strlit("services");
    reveal_strlit("volumes");
    assert("services"@.len() != "volumes"@.len());
    let wanted = host_entries(c.shared, host_target(c));
    let stubbed = stubbed_services(c);
    let s = mapping_at(doc, "services"@)->0;
    let stubbed_volumes = named_volumes_of_services(doc, stubbed);
    let d1 = remove_stubbed(doc, stubbed).0;
    let s1 = if stubbed.len() == 0 {
        s
    } else {
        remove_keys(s, stubbed).0.map_values(|e: (YamlView, YamlView)| strip_entry(e, stubbed))
    };
    lemma_remove_keys_unique(s, stubbed);
    if stubbed.len() > 0 {
        let left = remove_keys(s, stubbed).0;
        assert(same_keys(left, s1));
        lemma_replace_section(doc, "services"@, "volumes"@, s1);
        lemma_remove_keys_keep_untagged(s, stubbed);
    }
    assert(mapping_at(d1, "services"@) == Some(s1));
    assert(unique_keys(s1) && untagged_keys(s1)) by {
        if stubbed.len() > 0 {
            let left = remove_keys(s, stubbed).0;
            assert forall|a: int, b: int| 0 <= a < b < s1.len() implies s1[a].0 != s1[b].0 by {
                assert(s1[a].0 == left[a].0);
                assert(s1[b].0 == left[b].0);
            }
            assert forall|p: int| 0 <= p < s1.len() implies !(#[trigger] s1[p].0 is Tagged) by {
                assert(s1[p].0 == left[p].0);
            }
        }
    }

    let d2 = remove_volume_entries(d1, stubbed_volumes).0;
    if let Some(v) = mapping_at(d1, "volumes"@) {
        lemma_replace_section(d1, "volumes"@, "services"@, remove_keys(v, stubbed_volumes).0);
    }
    let d3 = remove_omitted_volumes(d2, c).0;
    if let Some(cf) = c.coastfile {
        if let Some(v) = mapping_at(d2, "volumes"@) {
            lemma_replace_section(d2, "volumes"@, "services"@, remove_keys(v, cf.omit_volumes).0);
        }
    }
    assert(mapping_at(d3, "services"@) == Some(s1));

    let d4 = image_overrides(d3, c.image_tags).0;
    let s4 = image_overrides_in(s1, c.image_tags).0;
    lemma_image_overrides_keys(s1, c.image_tags);
    lemma_replace_section(d3, "services"@, "volumes"@, s4);
    let d5 = managed_volumes(d4, c).0;
    lemma_managed_volumes_services(d4, c);
    assert(mapping_at(d5, "services"@) == Some(s4));
    assert(unique_keys(s4) && untagged_keys(s4)) by {
        assert forall|a: int, b: int| 0 <= a < b < s4.len() implies s4[a].0 != s4[b].0 by {
            assert(s4[a].0 == s1[a].0);
            assert(s4[b].0 == s1[b].0);
        }
        assert forall|p: int| 0 <= p < s4.len() implies !(#[trigger] s4[p].0 is Tagged) by {
            assert(s4[p].0 == s1[p].0);
        }
    }

    let d6 = hosts_and_secrets(d5, c).0;
    let s6 = hosts_and_secrets_in(s4, s4.len() as int, c.shared, host_target(c), c.secret_paths).0;
    lemma_hosts_in_listed(s4, s4.len() as int, c.shared, host_target(c), c.secret_paths);
    lemma_replace_section(d5, "services"@, "volumes"@, s6);
    assert(services_list_hosts(s6, wanted));

    let d7 = rslave_overrides(d6, c.default_hot, c.hot).0;
    if !(!c.default_hot && c.hot.len() == 0) {
        let s7 = rslave_in(s6, s6.len() as int, c.default_hot, c.hot).0;
        lemma_rslave_in_keeps_hosts(s6, s6.len() as int, c.default_hot, c.hot, wanted);
        lemma_replace_section(d6, "services"@, "volumes"@, s7);
    }
}

/// Removing keys leaves only keys that were there.
proof fn lemma_remove_keys_keep_untagged(m: Seq<(YamlView, YamlView)>, ks: Seq<Seq<char>>)
    requires
        untagged_keys(m),
        unique_keys(m),
    ensures
        untagged_keys(remove_keys(m, ks).0),
    decreases ks.len(),
{
    if ks.len() > 0 {
        lemma_remove_keys_keep_untagged(m, ks.drop_last());
        lemma_remove_keys_unique(m, ks.drop_last());
        let prev = remove_keys(m, ks.drop_last()).0;
        lemma_remove_key_unique(prev, ks.last());
        let r = remove_key(prev, ks.last());
        assert forall|p: int| 0 <= p < r.len() implies !(#[trigger] r[p].0 is Tagged) by {
            if r[p] != prev[p] {
                assert(r[p] == prev[prev.len() - 1]);
            }
        }
    }
}
/// Giving a long-form volume `rslave` propagation a second time changes
/// nothing.
proof fn lemma_rslave_long_form_idempotent(m: Seq<(YamlView, YamlView)>)
    ensures
        rslave_long_form(rslave_long_form(m)) == rslave_long_form(m),
{
    if is_bind_volume(m) {
        let empty = YamlView::Mapping(Seq::<(YamlView, YamlView)>::empty());
        let (m1, i) = entry_or_insert(m, "bind"@, empty);
        lemma_entry_found(m, "bind"@, empty);
        lemma_find_key_from(m, "type"@, 0);
        let k = find_key(m, "type"@)->0;
        assert(find_key(m1, "type"@) == Some(k));
        assert(m1[k] == m[k]);
        assert(is_bind_volume(m1));
        lemma_find_key_from(m1, "bind"@, 0);
        assert(m1[i].0 == ystr("bind"@));
        assert(entry_or_insert(m1, "bind"@, empty) == (m1, i));
        match as_mapping(m1[i].1) {
            None => {},
            Some(bm) => {
                let bm2 = if find_key(bm, "propagation"@) is Some {
                    bm
                } else {
                    bm.push((ystr("propagation"@), ystr("rslave"@)))
                };
                let v2 = with_mapping(m1[i].1, bm2);
                let m2 = m1.update(i, (m1[i].0, v2));
                assert(rslave_long_form(m) == m2);
                assert(same_keys(m1, m2));
                lemma_same_keys_find(m1, m2, "type"@);
                lemma_same_keys_find(m1, m2, "bind"@);
                assert(k != i);
                assert(m2[k] == m1[k]);
                assert(is_bind_volume(m2));
                assert(entry_or_insert(m2, "bind"@, empty) == (m2, i));
                crate::yaml::lemma_with_mapping(m1[i].1, bm2);
                assert(as_mapping(m2[i].1) == Some(bm2));
                if find_key(bm, "propagation"@) is None {
                    lemma_find_key_none(bm2, "propagation"@);
                    assert(bm2[bm.len() as int].0 == ystr("propagation"@));
                }
                assert(find_key(bm2, "propagation"@) is Some);
                assert(with_mapping(v2, bm2) == v2);
                assert(m2.update(i, (m2[i].0, with_mapping(m2[i].1, bm2))) =~= m2);
            },
        }
    }
}

/// The propagation that a long-form volume's `bind` mapping sets, if any.
pub open spec fn bind_propagation(m: Seq<(YamlView, YamlView)>) -> Option<YamlView> {
    match find_key(m, "bind"@) {
        Some(i) => match as_mapping(m[i].1) {
            Some(bm) => match find_key(bm, "propagation"@) {
                Some(p) => Some(bm[p].1),
                None => None,
            },
            None => None,
        },
        None => None,
    }
}

/// A long-form bind mount whose `bind` options are absent or a mapping
/// sets a propagation afterwards: the one it set, else `rslave`. Other
/// long-form volumes are left as they are.
pub proof fn law_rslave_long_form_sets_propagation(m: Seq<(YamlView, YamlView)>)
    ensures
        !is_bind_volume(m) ==> rslave_long_form(m) == m,
        is_bind_volume(m) && (find_key(m, "bind"@) matches Some(i) ==> as_mapping(m[i].1) is Some)
            ==> bind_propagation(rslave_long_form(m)) == Some(
            match bind_propagation(m) {
                Some(v) => v,
                None => ystr("rslave"@),
            },
        ),
{
    if is_bind_volume(m) && (find_key(m, "bind"@) matches Some(i) ==> as_mapping(m[i].1) is Some) {
        let empty = YamlView::Mapping(Seq::<(YamlView, YamlView)>::empty());
        let (m1, i) = entry_or_insert(m, "bind"@, empty);
        lemma_entry_found(m, "bind"@, empty);
        lemma_find_key_from(m1, "bind"@, 0);
        assert(crate::yaml::untag(empty) == empty);
        let bm = as_mapping(m1[i].1)->0;
        assert(as_mapping(m1[i].1) == Some(bm));
        assert(bind_propagation(m) == match find_key(bm, "propagation"@) {
            Some(p) => Some(bm[p].1),
            None => None,
        }) by {
            if find_key(m, "bind"@) is None {
                assert(bm =~= Seq::<(YamlView, YamlView)>::empty());
            }
        }
        let bm2 = if find_key(bm, "propagation"@) is Some {
            bm
        } else {
            bm.push((ystr("propagation"@), ystr("rslave"@)))
        };
        let v2 = with_mapping(m1[i].1, bm2);
        let m2 = m1.update(i, (m1[i].0, v2));
        assert(rslave_long_form(m) == m2);
        assert(same_keys(m1, m2));
        lemma_same_keys_find(m1, m2, "bind"@);
        crate::yaml::lemma_with_mapping(m1[i].1, bm2);
        assert(as_mapping(m2[i].1) == Some(bm2));
        if find_key(bm, "propagation"@) is None {
            lemma_find_key_none(bm, "propagation"@);
            lemma_find_key_from(bm2, "propagation"@, 0);
            lemma_find_key_none(bm2, "propagation"@);
            assert(bm2[bm.len() as int].0 == ystr("propagation"@));
            let p = find_key(bm2, "propagation"@)->0;
            if p < bm.len() {
                assert(bm2[p] == bm[p]);
            }
            assert(p == bm.len());
        }
    }
}

/// The options under a long-form volume's `bind` key, when they are a
/// mapping.
pub open spec fn bind_options(m: Seq<(YamlView, YamlView)>) -> Option<Seq<(YamlView, YamlView)>> {
    match find_key(m, "bind"@) {
        Some(i) => as_mapping(m[i].1),
        None => None,
    }
}

/// Giving a long-form bind mount `rslave` propagation changes nothing but
/// its `bind` options: every other entry stays where it was, a `bind` entry
/// is added last when there was none, and the old options stay in place
/// with at most one entry (the propagation) added after them.
pub proof fn law_rslave_long_form_keeps_other_entries(m: Seq<(YamlView, YamlView)>)
    requires
        is_bind_volume(m),
        find_key(m, "bind"@) matches Some(i) ==> as_mapping(m[i].1) is Some,
    ensures
        ({
            let r = rslave_long_form(m);
            let old_opts = match bind_options(m) {
                Some(b) => b,
                None => Seq::empty(),
            };
            &&& m.len() <= r.len() <= m.len() + 1
            &&& forall|j: int| 0 <= j < m.len() && m[j].0 != ystr("bind"@) ==> #[trigger] r[j] == m[j]
            &&& forall|j: int| m.len() <= j < r.len() ==> #[trigger] r[j].0 == ystr("bind"@)
            &&& bind_options(r) matches Some(b2) && old_opts.len() <= b2.len() <= old_opts.len() + 1
                && forall|p: int| 0 <= p < old_opts.len() ==> #[trigger] b2[p] == old_opts[p]
        }),
{
    let empty = YamlView::Mapping(Seq::<(YamlView, YamlView)>::empty());
    let (m1, i) = entry_or_insert(m, "bind"@, empty);
    lemma_entry_found(m, "bind"@, empty);
    lemma_find_key_from(m1, "bind"@, 0);
    lemma_find_key_from(m, "bind"@, 0);
    assert(crate::yaml::untag(empty) == empty);
    let bm = as_mapping(m1[i].1)->0;
    assert(as_mapping(m1[i].1) == Some(bm));
    let old_opts = match bind_options(m) {
        Some(b) => b,
        None => Seq::empty(),
    };
    assert(old_opts == bm) by {
        if find_key(m, "bind"@) is None {
            assert(bm =~= Seq::<(YamlView, YamlView)>::empty());
        }
    }
    let bm2 = if find_key(bm, "propagation"@) is Some {
        bm
    } else {
        bm.push((ystr("propagation"@), ystr("rslave"@)))
    };
    let v2 = with_mapping(m1[i].1, bm2);
    let m2 = m1.update(i, (m1[i].0, v2));
    assert(rslave_long_form(m) == m2);
    assert(same_keys(m1, m2));
    lemma_same_keys_find(m1, m2, "bind"@);
    crate::yaml::lemma_with_mapping(m1[i].1, bm2);
    assert(bind_options(m2) == Some(bm2));
    assert forall|j: int| 0 <= j < m.len() && m[j].0 != ystr("bind"@) implies #[trigger] m2[j] == m[j] by {
        assert(j != i);
        assert(m1[j] == m[j]);
    }
    assert forall|j: int| m.len() <= j < m2.len() implies #[trigger] m2[j].0 == ystr("bind"@) by {
        assert(j == i);
    }
}

/// Giving a volume entry `rslave` propagation twice gives what giving it
/// once gives: a mount that already has it is not changed again, in the
/// short form and in the long form.
pub proof fn law_rslave_volume_idempotent(x: YamlView)
    ensures
        rslave_item(rslave_item(x)) == rslave_item(x),
{
    match x {
        YamlView::Str(s) => {
            if rslave_short_form(s) is Some {
                crate::compose::law_rslave_short_form_idempotent(s);
            }
        },
        YamlView::Mapping(m) => {
            lemma_rslave_long_form_idempotent(m);
        },
        _ => {},
    }
}

/// The keys of a mapping's entries.
pub open spec fn key_set(m: Seq<(YamlView, YamlView)>) -> Set<YamlView> {
    Set::new(|x: YamlView| exists|p: int| 0 <= p < m.len() && m[p].0 == x)
}

/// The names as string keys.
pub open spec fn str_keys(names: Seq<Seq<char>>) -> Set<YamlView> {
    Set::new(|x: YamlView| exists|q: int| 0 <= q < names.len() && x == YamlView::Str(names[q]))
}

/// Whether the document's mapping under `section` has one of the names as
/// a key.
pub open spec fn section_has_any(doc: YamlView, section: Seq<char>, names: Seq<Seq<char>>) -> bool {
    match mapping_at(doc, section) {
        Some(m) => exists|q: int| 0 <= q < names.len() && !lacks_key(m, #[trigger] names[q]),
        None => false,
    }
}

/// Removing keys in turn removes something exactly when one of them is
/// there, and leaves the entries as they were otherwise.
proof fn lemma_remove_keys_flag(m: Seq<(YamlView, YamlView)>, ks: Seq<Seq<char>>)
    ensures
        remove_keys(m, ks).1 <==> exists|q: int| 0 <= q < ks.len() && !lacks_key(m, #[trigger] ks[q]),
        !remove_keys(m, ks).1 ==> remove_keys(m, ks).0 == m,
    decreases ks.len(),
{
    if ks.len() > 0 {
        let init = ks.drop_last();
        lemma_remove_keys_flag(m, init);
        let (prev, removed) = remove_keys(m, init);
        if removed {
            let q = choose|q: int| 0 <= q < init.len() && !lacks_key(m, #[trigger] init[q]);
            assert(ks[q] == init[q]);
        } else {
            lemma_find_key_none(m, ks.last());
            assert forall|q: int| 0 <= q < ks.len() - 1 implies lacks_key(m, #[trigger] ks[q]) by {
                assert(init[q] == ks[q]);
            }
            if !lacks_key(m, ks.last()) {
                assert(!lacks_key(m, ks[ks.len() - 1]));
            }
        }
    }
}

/// Removing a key from a mapping with unique keys takes exactly that key
/// out of its key set.
proof fn lemma_remove_key_set(m: Seq<(YamlView, YamlView)>, k: Seq<char>)
    requires
        unique_keys(m),
    ensures
        key_set(remove_key(m, k)) == key_set(m).remove(YamlView::Str(k)),
{
    lemma_find_key_none(m, k);
    lemma_remove_key_unique(m, k);
    let r = remove_key(m, k);
    match find_key(m, k) {
        Some(i) => {
            lemma_find_key_from(m, k, 0);
            assert forall|x: YamlView| key_set(r).contains(x) <==> key_set(m).remove(YamlView::Str(k)).contains(x) by {
                if key_set(r).contains(x) {
                    let p = choose|p: int| 0 <= p < r.len() && r[p].0 == x;
                    if p == i {
                        assert(m[m.len() - 1].0 == x);
                    } else {
                        assert(m[p].0 == x);
                    }
                    assert(x != YamlView::Str(k));
                }
                if key_set(m).remove(YamlView::Str(k)).contains(x) {
                    let p = choose|p: int| 0 <= p < m.len() && m[p].0 == x;
                    assert(p != i);
                    if p == m.len() - 1 {
                        assert(r[i].0 == x);
                    } else {
                        assert(r[p].0 == x);
                    }
                }
            }
            assert(key_set(r) =~= key_set(m).remove(YamlView::Str(k)));
        },
        None => {
            assert(!key_set(m).contains(YamlView::Str(k)));
            assert(key_set(r) =~= key_set(m).remove(YamlView::Str(k)));
        },
    }
}

/// Removing keys in turn from a mapping with unique keys takes exactly
/// those keys out of its key set.
proof fn lemma_remove_keys_set(m: Seq<(YamlView, YamlView)>, ks: Seq<Seq<char>>)
    requires
        unique_keys(m),
    ensures
        key_set(remove_keys(m, ks).0) == key_set(m).difference(str_keys(ks)),
    decreases ks.len(),
{
    if ks.len() == 0 {
        assert(key_set(m).difference(str_keys(ks)) =~= key_set(m));
    } else {
        let init = ks.drop_last();
        lemma_remove_keys_set(m, init);
        lemma_remove_keys_unique(m, init);
        let prev = remove_keys(m, init).0;
        lemma_remove_key_set(prev, ks.last());
        assert forall|x: YamlView| #[trigger] str_keys(ks).contains(x) <==> (str_keys(init).contains(x) || x
            == YamlView::Str(ks.last())) by {
            if str_keys(ks).contains(x) {
                let q = choose|q: int| 0 <= q < ks.len() && x == YamlView::Str(ks[q]);
                if q < ks.len() - 1 {
                    assert(init[q] == ks[q]);
                }
            }
            if str_keys(init).contains(x) {
                let q = choose|q: int| 0 <= q < init.len() && x == YamlView::Str(init[q]);
                assert(ks[q] == init[q]);
            }
            if x == YamlView::Str(ks.last()) {
                assert(x == YamlView::Str(ks[ks.len() - 1]));
            }
        }
        assert(key_set(remove_key(prev, ks.last())) =~= key_set(m).difference(str_keys(ks)));
    }
}

/// Stripping the dependencies of each entry keeps the keys.
proof fn lemma_strip_entries_keys(left: Seq<(YamlView, YamlView)>, names: Seq<Seq<char>>)
    ensures
        same_keys(left, left.map_values(|e: (YamlView, YamlView)| strip_entry(e, names))),
        key_set(left.map_values(|e: (YamlView, YamlView)| strip_entry(e, names))) == key_set(left),
{
    let s1 = left.map_values(|e: (YamlView, YamlView)| strip_entry(e, names));
    assert(same_keys(left, s1));
    assert forall|x: YamlView| key_set(s1).contains(x) <==> key_set(left).contains(x) by {
        if key_set(s1).contains(x) {
            let p = choose|p: int| 0 <= p < s1.len() && s1[p].0 == x;
            assert(left[p].0 == x);
        }
        if key_set(left).contains(x) {
            let p = choose|p: int| 0 <= p < left.len() && left[p].0 == x;
            assert(s1[p].0 == x);
        }
    }
    assert(key_set(s1) =~= key_set(left));
}

/// The sections of the stripped document: `services` and `volumes` hold
/// what was left of them, and a missing section stays missing.
proof fn lemma_strip_sections(doc: YamlView, omit_services: Seq<Seq<char>>, omit_volumes: Seq<Seq<char>>)
    ensures
        ({
            let d1 = remove_services(doc, omit_services).0;
            let d2 = strip_omitted(doc, omit_services, omit_volumes).0;
            &&& mapping_at(d1, "volumes"@) == mapping_at(doc, "volumes"@)
            &&& match mapping_at(doc, "services"@) {
                Some(s) => mapping_at(d2, "services"@) == Some(
                    remove_keys(s, omit_services).0.map_values(
                        |e: (YamlView, YamlView)| strip_entry(e, omit_services),
                    ),
                ),
                None => mapping_at(d2, "services"@) is None,
            }
            &&& match mapping_at(doc, "volumes"@) {
                Some(v) => mapping_at(d2, "volumes"@) == Some(remove_keys(v, omit_volumes).0),
                None => mapping_at(d2, "volumes"@) is None,
            }
        }),
{
    reveal_strlit("services");
    reveal_strlit("volumes");
    assert("services"@.len() != "volumes"@.len());
    let d1 = remove_services(doc, omit_services).0;
    if let Some(s) = mapping_at(doc, "services"@) {
        let s1 = remove_keys(s, omit_services).0.map_values(
            |e: (YamlView, YamlView)| strip_entry(e, omit_services),
        );
        lemma_replace_section(doc, "services"@, "volumes"@, s1);
    }
    if let Some(v) = mapping_at(d1, "volumes"@) {
        lemma_replace_section(d1, "volumes"@, "services"@, remove_keys(v, omit_volumes).0);
    }
}

/// The strip removes something exactly when an omitted service is a key of
/// the `services` mapping or an omitted volume a key of the top-level
/// `volumes` mapping; otherwise nothing is written and the document stays
/// as it is.
pub proof fn law_strip_changes_only_what_is_there(
    doc: YamlView,
    omit_services: Seq<Seq<char>>,
    omit_volumes: Seq<Seq<char>>,
)
    ensures
        strip_omitted(doc, omit_services, omit_volumes).1 <==> (section_has_any(doc, "services"@, omit_services)
            || section_has_any(doc, "volumes"@, omit_volumes)),
{
    lemma_strip_sections(doc, omit_services, omit_volumes);
    let d1 = remove_services(doc, omit_services).0;
    if let Some(s) = mapping_at(doc, "services"@) {
        lemma_remove_keys_flag(s, omit_services);
    }
    if let Some(v) = mapping_at(d1, "volumes"@) {
        lemma_remove_keys_flag(v, omit_volumes);
    }
}

/// After the strip, the keys of `services` are the old keys without the
/// omitted services, and the keys of `volumes` the old keys without the
/// omitted volumes (mapping keys are unique, as in any YAML mapping).
pub proof fn law_strip_key_sets(doc: YamlView, omit_services: Seq<Seq<char>>, omit_volumes: Seq<Seq<char>>)
    requires
        mapping_at(doc, "services"@) matches Some(s) ==> unique_keys(s),
        mapping_at(doc, "volumes"@) matches Some(v) ==> unique_keys(v),
    ensures
        mapping_at(doc, "services"@) matches Some(s) ==> (mapping_at(
            strip_omitted(doc, omit_services, omit_volumes).0,
            "services"@,
        ) matches Some(s2) && key_set(s2) == key_set(s).difference(str_keys(omit_services))),
        mapping_at(doc, "volumes"@) matches Some(v) ==> (mapping_at(
            strip_omitted(doc, omit_services, omit_volumes).0,
            "volumes"@,
        ) matches Some(v2) && key_set(v2) == key_set(v).difference(str_keys(omit_volumes))),
{
    lemma_strip_sections(doc, omit_services, omit_volumes);
    if let Some(s) = mapping_at(doc, "services"@) {
        lemma_remove_keys_set(s, omit_services);
        lemma_strip_entries_keys(remove_keys(s, omit_services).0, omit_services);
    }
    if let Some(v) = mapping_at(doc, "volumes"@) {
        lemma_remove_keys_set(v, omit_volumes);
    }
}

/// Stripping a stripped document removes nothing more: the second strip
/// writes nothing (mapping keys are unique, as in any YAML mapping).
pub proof fn law_strip_idempotent(doc: YamlView, omit_services: Seq<Seq<char>>, omit_volumes: Seq<Seq<char>>)
    requires
        mapping_at(doc, "services"@) matches Some(s) ==> unique_keys(s),
        mapping_at(doc, "volumes"@) matches Some(v) ==> unique_keys(v),
    ensures
        !strip_omitted(strip_omitted(doc, omit_services, omit_volumes).0, omit_services, omit_volumes).1,
{
    let d = strip_omitted(doc, omit_services, omit_volumes).0;
    lemma_strip_sections(doc, omit_services, omit_volumes);
    law_strip_changes_only_what_is_there(d, omit_services, omit_volumes);
    if let Some(s) = mapping_at(doc, "services"@) {
        let left = remove_keys(s, omit_services).0;
        lemma_remove_keys_unique(s, omit_services);
        lemma_strip_entries_keys(left, omit_services);
        let s1 = left.map_values(|e: (YamlView, YamlView)| strip_entry(e, omit_services));
        assert forall|q: int| 0 <= q < omit_services.len() implies lacks_key(s1, #[trigger] omit_services[q]) by {
            assert(lacks_key(left, omit_services[q]));
        }
    }
    if let Some(v) = mapping_at(doc, "volumes"@) {
        lemma_remove_keys_unique(v, omit_volumes);
    }
}

/// The items of a service definition's `volumes` list, if it has one.
pub open spec fn volume_entries(def: Seq<(YamlView, YamlView)>) -> Option<Seq<YamlView>> {
    match find_key(def, "volumes"@) {
        Some(i) => as_list(def[i].1),
        None => None,
    }
}

/// A service definition whose `volumes` is absent or a list.
pub open spec fn volumes_fit(def: Seq<(YamlView, YamlView)>) -> bool {
    find_key(def, "volumes"@) is None || volume_entries(def) is Some
}

/// `after` holds every volume entry of `before`, in place and in order,
/// followed by one read-only mount `p:p:ro` per secret path `p`, in order;
/// without secret paths its volumes are those of `before`.
pub open spec fn mounts_appended(
    before: Seq<(YamlView, YamlView)>,
    after: Seq<(YamlView, YamlView)>,
    paths: Seq<Seq<char>>,
) -> bool {
    let old = match volume_entries(before) {
        Some(v) => v,
        None => Seq::empty(),
    };
    if paths.len() == 0 {
        volume_entries(after) == volume_entries(before)
    } else {
        &&& volume_entries(after) matches Some(v)
        &&& volume_entries(after)->0.len() == old.len() + paths.len()
        &&& forall|j: int| 0 <= j < old.len() ==> #[trigger] volume_entries(after)->0[j] == old[j]
        &&& forall|q: int|
            0 <= q < paths.len() ==> volume_entries(after)->0[old.len() + q] == YamlView::Str(
                #[trigger] paths[q] + ":"@ + paths[q] + ":ro"@,
            )
    }
}

/// Mounting the secrets appends their mounts to the service's volumes.
proof fn lemma_secret_mounts_appended(def: Seq<(YamlView, YamlView)>, paths: Seq<Seq<char>>)
    requires
        volumes_fit(def),
    ensures
        mounts_appended(def, ensure_secret_mounts(def, paths).0, paths),
{
    if paths.len() > 0 {
        let empty = YamlView::List(Seq::<YamlView>::empty());
        let (m1, i) = entry_or_insert(def, "volumes"@, empty);
        lemma_entry_found(def, "volumes"@, empty);
        lemma_find_key_from(def, "volumes"@, 0);
        assert(crate::yaml::untag(empty) == empty);
        let items = as_list(m1[i].1)->0;
        assert(as_list(m1[i].1) == Some(items));
        let old = match volume_entries(def) {
            Some(v) => v,
            None => Seq::empty(),
        };
        assert(old == items) by {
            if find_key(def, "volumes"@) is None {
                assert(items =~= Seq::<YamlView>::empty());
            }
        }
        let added = str_values(paths.map_values(|p: Seq<char>| secret_mount(p)));
        let r = ensure_secret_mounts(def, paths).0;
        assert(r == m1.update(i, (m1[i].0, with_list(m1[i].1, items + added))));
        assert(same_keys(m1, r));
        lemma_same_keys_find(m1, r, "volumes"@);
        crate::yaml::lemma_with_list(m1[i].1, items + added);
        assert(volume_entries(r) == Some(items + added));
        assert forall|q: int| 0 <= q < paths.len() implies (items + added)[old.len() + q] == YamlView::Str(
            #[trigger] paths[q] + ":"@ + paths[q] + ":ro"@,
        ) by {
            assert(added[q] == YamlView::Str(secret_mount(paths[q])));
        }
    }
}

/// Giving a service its host entries leaves its volumes alone.
proof fn lemma_extra_hosts_keep_volumes(def: Seq<(YamlView, YamlView)>, shared: Seq<Seq<char>>, target: Seq<char>)
    ensures
        volume_entries(ensure_extra_hosts(def, shared, target).0) == volume_entries(def),
        find_key(ensure_extra_hosts(def, shared, target).0, "volumes"@) is None <==> find_key(def, "volumes"@) is None,
{
    reveal_strlit("extra_hosts");
    reveal_strlit("volumes");
    assert("extra_hosts"@.len() != "volumes"@.len());
    let (m1, i) = entry_or_insert(def, "extra_hosts"@, YamlView::List(Seq::empty()));
    lemma_entry_found(def, "extra_hosts"@, YamlView::List(Seq::empty()));
    assert(find_key(m1, "volumes"@) == find_key(def, "volumes"@));
    lemma_find_key_from(m1, "extra_hosts"@, 0);
    lemma_find_key_from(def, "volumes"@, 0);
    if let Some(v) = find_key(def, "volumes"@) {
        lemma_find_key_from(m1, "volumes"@, 0);
        assert(v != i);
        if find_key(def, "extra_hosts"@) is Some {
            assert(m1 == def);
        } else {
            assert(m1[v] == def[v]);
        }
    }
    if let Some(items) = as_list(m1[i].1) {
        let r = ensure_extra_hosts(def, shared, target).0;
        assert(same_keys(m1, r));
        lemma_same_keys_find(m1, r, "volumes"@);
    }
}

/// A service definition's host and secret step appends the secret mounts.
proof fn lemma_def_mounts_appended(def: Seq<(YamlView, YamlView)>, shared: Seq<Seq<char>>, target: Seq<char>, paths: Seq<Seq<char>>)
    requires
        volumes_fit(def),
    ensures
        mounts_appended(def, hosts_and_secrets_def(def, shared, target, paths).0, paths),
{
    let d1 = ensure_extra_hosts(def, shared, target).0;
    lemma_extra_hosts_keep_volumes(def, shared, target);
    lemma_secret_mounts_appended(d1, paths);
}

/// The host and secret step appends the secret mounts of every service it
/// reaches.
proof fn lemma_services_mounts_appended(s: Seq<(YamlView, YamlView)>, n: int, shared: Seq<Seq<char>>, target: Seq<char>, paths: Seq<Seq<char>>)
    requires
        unique_keys(s),
        untagged_keys(s),
        0 <= n <= s.len(),
    ensures
        forall|p: int|
            0 <= p < n && (#[trigger] s[p]).0 is Str && as_mapping(s[p].1) is Some && volumes_fit(
                as_mapping(s[p].1)->0,
            ) ==> as_mapping(hosts_and_secrets_in(s, n, shared, target, paths).0[p].1) is Some && mounts_appended(
                as_mapping(s[p].1)->0,
                as_mapping(hosts_and_secrets_in(s, n, shared, target, paths).0[p].1)->0,
                paths,
            ),
    decreases n,
{
    lemma_hosts_in_listed(s, n, shared, target, paths);
    if n > 0 {
        lemma_services_mounts_appended(s, n - 1, shared, target, paths);
        lemma_hosts_in_listed(s, n - 1, shared, target, paths);
        let s1 = hosts_and_secrets_in(s, n - 1, shared, target, paths).0;
        let r = hosts_and_secrets_in(s, n, shared, target, paths).0;
        assert(s1[n - 1] == s[n - 1]);
        assert(!(s[n - 1].0 is Tagged));
        assert(unique_keys(s1)) by {
            assert forall|a: int, b: int| 0 <= a < b < s1.len() implies s1[a].0 != s1[b].0 by {
                assert(s1[a].0 == s[a].0);
                assert(s1[b].0 == s[b].0);
            }
        }
        assert forall|p: int|
            0 <= p < n && (#[trigger] s[p]).0 is Str && as_mapping(s[p].1) is Some && volumes_fit(
                as_mapping(s[p].1)->0,
            ) implies as_mapping(r[p].1) is Some && mounts_appended(
                as_mapping(s[p].1)->0,
                as_mapping(r[p].1)->0,
                paths,
            ) by {
            if let Some(name) = as_str(s1[n - 1].0) {
                assert(s1[n - 1].0 == YamlView::Str(name));
                lemma_find_unique(s1, name, n - 1, 0);
                if let Some(def) = as_mapping(s1[n - 1].1) {
                    let d2 = hosts_and_secrets_def(def, shared, target, paths).0;
                    crate::yaml::lemma_with_mapping(s1[n - 1].1, d2);
                    if p == n - 1 {
                        lemma_def_mounts_appended(def, shared, target, paths);
                    } else {
                        assert(r[p] == s1[p]);
                    }
                } else {
                    assert(r == s1);
                }
            } else {
                assert(r == s1);
            }
        }
    }
}

/// Every service of the document whose definition is a mapping, with its
/// `volumes` absent or a list, keeps every volume entry it had, in place
/// and in order, and gets one read-only mount `p:p:ro` after them per
/// secret file `p`; the services stay where they were. It holds of every
/// document whose services section has distinct, untagged keys.
pub proof fn law_services_mount_every_secret(doc: YamlView, c: ComposeRewriteView)
    requires
        mapping_at(doc, "services"@) matches Some(s) && unique_keys(s) && untagged_keys(s),
    ensures
        ({
            let s = mapping_at(doc, "services"@)->0;
            &&& mapping_at(hosts_and_secrets(doc, c).0, "services"@) matches Some(s2)
            &&& same_keys(s, mapping_at(hosts_and_secrets(doc, c).0, "services"@)->0)
            &&& forall|p: int|
                0 <= p < s.len() && (#[trigger] s[p]).0 is Str && as_mapping(s[p].1) is Some && volumes_fit(
                    as_mapping(s[p].1)->0,
                ) ==> as_mapping(mapping_at(hosts_and_secrets(doc, c).0, "services"@)->0[p].1) is Some
                    && mounts_appended(
                    as_mapping(s[p].1)->0,
                    as_mapping(mapping_at(hosts_and_secrets(doc, c).0, "services"@)->0[p].1)->0,
                    c.secret_paths,
                )
        }),
{
    reveal_strlit("services");
    reveal_strlit("volumes");
    assert("services"@.len() != "volumes"@.len());
    let s = mapping_at(doc, "services"@)->0;
    let target = host_target(c);
    let s1 = hosts_and_secrets_in(s, s.len() as int, c.shared, target, c.secret_paths).0;
    lemma_replace_section(doc, "services"@, "volumes"@, s1);
    lemma_hosts_in_listed(s, s.len() as int, c.shared, target, c.secret_paths);
    lemma_services_mounts_appended(s, s.len() as int, c.shared, target, c.secret_paths);
    assert(mapping_at(hosts_and_secrets(doc, c).0, "services"@) == Some(s1));
}

/// Setting a key keeps the keys distinct.
proof fn lemma_set_key_unique(m: Seq<(YamlView, YamlView)>, k: Seq<char>, v: YamlView)
    requires
        unique_keys(m),
    ensures
        unique_keys(set_key(m, k, v)),
        exists|p: int| 0 <= p < set_key(m, k, v).len() && #[trigger] set_key(m, k, v)[p] == (YamlView::Str(k), v),
{
    lemma_find_key_none(m, k);
    lemma_find_key_from(m, k, 0);
    let r = set_key(m, k, v);
    match find_key(m, k) {
        Some(i) => {
            assert(same_keys(m, r));
            assert(r[i] == (YamlView::Str(k), v));
        },
        None => {
            assert(r[m.len() as int] == (YamlView::Str(k), v));
            assert forall|a: int, b: int| 0 <= a < b < r.len() implies r[a].0 != r[b].0 by {
                if b == m.len() {
                    assert(m[a].0 != YamlView::Str(k));
                }
            }
        },
    }
}

/// A service whose image is overridden runs the given image: its `image`
/// entry holds the tag and it has no `build` entry left (keys are distinct,
/// as in any YAML mapping).
pub proof fn law_override_image_runs_the_tag(def: Seq<(YamlView, YamlView)>, tag: Seq<char>)
    requires
        unique_keys(def),
    ensures
        exists|p: int|
            0 <= p < override_image(def, tag).len() && #[trigger] override_image(def, tag)[p] == (
                YamlView::Str("image"@),
                YamlView::Str(tag),
            ),
        lacks_key(override_image(def, tag), "build"@),
        unique_keys(override_image(def, tag)),
{
    reveal_strlit("image");
    reveal_strlit("build");
    assert("image"@ != "build"@) by {
        assert("image"@[0] != "build"@[0]);
    }
    let m = set_key(def, "image"@, YamlView::Str(tag));
    lemma_set_key_unique(def, "image"@, YamlView::Str(tag));
    lemma_remove_key_unique(m, "build"@);
    let e = (YamlView::Str("image"@), YamlView::Str(tag));
    let q = choose|p: int| 0 <= p < m.len() && #[trigger] m[p] == e;
    let r = remove_key(m, "build"@);
    assert(r == override_image(def, tag));
    let w = match find_key(m, "build"@) {
        Some(b) => {
            lemma_find_key_from(m, "build"@, 0);
            assert(b != q);
            if q == m.len() - 1 {
                b
            } else {
                q
            }
        },
        None => q,
    };
    assert(0 <= w < r.len() && r[w] == e);
    assert(override_image(def, tag)[w] == e);
}

/// The image overrides touch only the services they name.
proof fn lemma_image_overrides_touch_named(s: Seq<(YamlView, YamlView)>, tags: Seq<(Seq<char>, Seq<char>)>, p: int)
    requires
        0 <= p < s.len(),
        forall|q: int| 0 <= q < tags.len() ==> s[p].0 != YamlView::Str(#[trigger] tags[q].0),
    ensures
        image_overrides_in(s, tags).0[p] == s[p],
    decreases tags.len(),
{
    if tags.len() > 0 {
        let init = tags.drop_last();
        assert forall|q: int| 0 <= q < init.len() implies s[p].0 != YamlView::Str(#[trigger] init[q].0) by {
            assert(init[q] == tags[q]);
        }
        lemma_image_overrides_touch_named(s, init, p);
        lemma_image_overrides_keys(s, init);
        let s1 = image_overrides_in(s, init).0;
        let name = tags.last().0;
        lemma_find_key_from(s1, name, 0);
        if let Some(j) = find_key(s1, name) {
            assert(s[p].0 != YamlView::Str(tags[tags.len() - 1].0));
            assert(j != p);
        }
    }
}

/// Each service named in the per-instance images (names listed once, as
/// in the instance's image list) runs its image after the overrides: its
/// definition's `image` entry holds the tag and no `build` entry is left.
pub proof fn law_listed_services_run_their_images(
    s: Seq<(YamlView, YamlView)>,
    tags: Seq<(Seq<char>, Seq<char>)>,
    k: int,
)
    requires
        unique_keys(s),
        forall|a: int, b: int| 0 <= a < b < tags.len() ==> tags[a].0 != tags[b].0,
        0 <= k < tags.len(),
        find_key(s, tags[k].0) matches Some(j) && as_mapping(s[j].1) matches Some(def) && unique_keys(def),
    ensures
        ({
            let j = find_key(s, tags[k].0)->0;
            let r = image_overrides_in(s, tags).0;
            &&& as_mapping(r[j].1) matches Some(d2)
            &&& exists|p: int|
                0 <= p < as_mapping(r[j].1)->0.len() && #[trigger] as_mapping(r[j].1)->0[p] == (
                    YamlView::Str("image"@),
                    YamlView::Str(tags[k].1),
                )
            &&& lacks_key(as_mapping(r[j].1)->0, "build"@)
        }),
    decreases tags.len(),
{
    let j = find_key(s, tags[k].0)->0;
    let def = as_mapping(s[j].1)->0;
    lemma_find_key_from(s, tags[k].0, 0);
    let init = tags.drop_last();
    lemma_image_overrides_keys(s, init);
    let s1 = image_overrides_in(s, init).0;
    lemma_same_keys_find(s, s1, tags[k].0);
    if k == tags.len() - 1 {
        assert forall|q: int| 0 <= q < init.len() implies s[j].0 != YamlView::Str(#[trigger] init[q].0) by {
            assert(init[q] == tags[q]);
            assert(tags[q].0 != tags[k].0);
        }
        lemma_image_overrides_touch_named(s, init, j);
        let d2 = override_image(def, tags[k].1);
        crate::yaml::lemma_with_mapping(s1[j].1, d2);
        law_override_image_runs_the_tag(def, tags[k].1);
        let p = choose|p: int| 0 <= p < d2.len() && #[trigger] d2[p] == (YamlView::Str("image"@), YamlView::Str(tags[k].1));
        assert(as_mapping(image_overrides_in(s, tags).0[j].1)->0[p] == (YamlView::Str("image"@), YamlView::Str(tags[k].1)));
    } else {
        assert(init[k] == tags[k]);
        assert forall|a: int, b: int| 0 <= a < b < init.len() implies init[a].0 != init[b].0 by {
            assert(init[a] == tags[a]);
            assert(init[b] == tags[b]);
        }
        law_listed_services_run_their_images(s, init, k);
        let name = tags.last().0;
        lemma_find_key_from(s1, name, 0);
        if let Some(j2) = find_key(s1, name) {
            assert(tags[tags.len() - 1].0 != tags[k].0);
            assert(s1[j].0 == s[j].0);
            assert(j2 != j);
        }
        let r = image_overrides_in(s, tags).0;
        assert(r[j] == s1[j]);
        let d = as_mapping(s1[j].1)->0;
        let p = choose|p: int| 0 <= p < d.len() && #[trigger] d[p] == (YamlView::Str("image"@), YamlView::Str(tags[k].1));
        assert(as_mapping(r[j].1)->0[p] == (YamlView::Str("image"@), YamlView::Str(tags[k].1)));
    }
}

} // verus!
