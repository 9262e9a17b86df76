//! Builds of a project: which old builds are pruned, which builds instances
//! still use, which Docker resources belong to a project, and the manifest
//! fields that the run and build steps read.
use vstd::prelude::*;

use crate::json::{field_view, json_field, json_field_of, json_text, json_text_of, JsonField, JsonFieldView};
use crate::paths::{join_path, path_join};
use crate::routing::{lookup, lookup_exec, pair_views};
use crate::status::CoastError;
use crate::text::{
    ascii_lowercase, chars_lt, chars_of, contains_seq, has_prefix, parse_i64, parse_i64_exec,
    push_decimal, push_str, seq_lt, str_contains, str_eq, str_starts_with, trim, trim_bounds,
    views, decimal, contains_name,
};

verus! {

// ---------------------------------------------------------------------------
// TTL strings
// ---------------------------------------------------------------------------

/// The number of seconds that a TTL string denotes, before any overflow:
/// a number with an optional `s`, `m`, `h` or `d` suffix (seconds when none).
pub open spec fn ttl_seconds(s: Seq<char>) -> Option<int> {
    let t = trim(s);
    if t.len() == 0 {
        None
    } else {
        let mult: int = if t.last() == 's' {
            1
        } else if t.last() == 'm' {
            60
        } else if t.last() == 'h' {
            3600
        } else if t.last() == 'd' {
            86400
        } else {
            0
        };
        let num = if mult == 0 {
            t
        } else {
            trim(t.drop_last())
        };
        match parse_i64(num) {
            Some(n) => Some(if mult == 0 {
                n as int
            } else {
                n * mult
            }),
            None => None,
        }
    }
}

/// Parses a TTL such as `"1h"`, `"30m"`, `"3600s"` or `"3600"` into seconds.
pub fn parse_ttl_to_seconds(s: &str) -> (r: Option<i64>)
    requires
        ttl_seconds(s@) matches Some(v) ==> i64::MIN <= v <= i64::MAX,
    ensures
        match ttl_seconds(s@) {
            Some(v) => r == Some(v as i64),
            None => r is None,
        },
{
    let v = chars_of(s);
    let (a, b) = trim_bounds(&v, 0, v.len());
    assert(v@.subrange(0, v@.len() as int) =~= v@);
    let ghost t = v@.subrange(a as int, b as int);
    if a == b {
        return None;
    }
    let last = v[b - 1];
    assert(t.last() == last);
    let mult: i64 = if last == 's' {
        1
    } else if last == 'm' {
        60
    } else if last == 'h' {
        3600
    } else if last == 'd' {
        86400
    } else {
        0
    };
    if mult == 0 {
        return parse_i64_exec(&v, a, b);
    }
    assert(t.drop_last() =~= v@.subrange(a as int, b - 1));
    let (c, d) = trim_bounds(&v, a, b - 1);
    match parse_i64_exec(&v, c, d) {
        Some(n) => Some(n * mult),
        None => None,
    }
}

// ---------------------------------------------------------------------------
// Pruning old builds
// ---------------------------------------------------------------------------

/// A build directory that takes part in pruning: its name, the architecture
/// and the timestamp that its manifest records.
#[derive(Debug)]
pub struct PruneCandidate {
    pub name: String,
    pub arch: Option<String>,
    pub timestamp: String,
}

/// The view of a candidate: name, architecture, timestamp.
pub open spec fn candidate_view(c: PruneCandidate) -> (Seq<char>, Option<Seq<char>>, Seq<char>) {
    (
        c.name@,
        match c.arch {
            Some(a) => Some(a@),
            None => None,
        },
        c.timestamp@,
    )
}

/// The optional strings as plain values.
pub open spec fn opt_view(o: Option<&str>) -> Option<Seq<char>> {
    match o {
        Some(s) => Some(s@),
        None => None,
    }
}

/// The string a field reading holds, if any.
pub open spec fn field_text(f: JsonFieldView) -> Option<Seq<char>> {
    match f {
        JsonFieldView::Text(s) => Some(s),
        _ => None,
    }
}

/// Which build directory is a pruning candidate, from what its manifest
/// holds under `coastfile_type`, `arch` and `build_timestamp`: not a
/// `latest` link, with a valid manifest whose `coastfile_type` is the
/// requested one. A missing timestamp reads as empty.
pub open spec fn candidate_from_fields(
    name: Seq<char>,
    build_type: JsonFieldView,
    arch: JsonFieldView,
    timestamp: JsonFieldView,
    wanted: Option<Seq<char>>,
) -> Option<(Option<Seq<char>>, Seq<char>)> {
    if has_prefix(name, "latest"@) {
        None
    } else {
        match build_type {
            JsonFieldView::Invalid => None,
            _ => if field_text(build_type) != wanted {
                None
            } else {
                Some(
                    (
                        field_text(arch),
                        match field_text(timestamp) {
                            Some(t) => t,
                            None => Seq::empty(),
                        },
                    ),
                )
            },
        }
    }
}

/// Which build directory of the listing is a pruning candidate, reading its
/// manifest with `serde_json`.
pub open spec fn candidate_of(name: Seq<char>, manifest: Seq<char>, wanted: Option<Seq<char>>) -> Option<
    (Option<Seq<char>>, Seq<char>),
> {
    candidate_from_fields(
        name,
        json_field_of(manifest, "coastfile_type"@),
        json_field_of(manifest, "arch"@),
        json_field_of(manifest, "build_timestamp"@),
        wanted,
    )
}

fn field_string(f: JsonField) -> (r: Option<String>)
    ensures
        match field_text(field_view(f)) {
            Some(s) => r matches Some(x) && x@ == s,
            None => r is None,
        },
{
    match f {
        JsonField::Text(s) => Some(s),
        _ => None,
    }
}

/// The pruning candidate of the build directory `name`, given what its
/// manifest holds under `coastfile_type`, `arch` and `build_timestamp`.
pub fn prune_candidate_from_fields(
    name: &str,
    build_type: JsonField,
    arch: JsonField,
    timestamp: JsonField,
    coastfile_type: Option<&str>,
) -> (r: Option<PruneCandidate>)
    ensures
        match candidate_from_fields(
            name@,
            field_view(build_type),
            field_view(arch),
            field_view(timestamp),
            opt_view(coastfile_type),
        ) {
            Some((a, ts)) => r matches Some(c) && candidate_view(c) == (name@, a, ts),
            None => r is None,
        },
{
    if str_starts_with(name, "latest") {
        return None;
    }
    if let JsonField::Invalid = build_type {
        return None;
    }
    let build_type = field_string(build_type);
    let same_type = match (&build_type, coastfile_type) {
        (Some(a), Some(b)) => str_eq(a.as_str(), b),
        (None, None) => true,
        _ => false,
    };
    if !same_type {
        return None;
    }
    let arch = field_string(arch);
    let timestamp = match field_string(timestamp) {
        Some(t) => t,
        None => String::new(),
    };
    Some(PruneCandidate { name: crate::text::owned(name), arch, timestamp })
}

/// Reads a build directory's manifest to decide whether it takes part in
/// pruning builds of the given Coastfile type.
pub fn prune_candidate(name: &str, manifest: &str, coastfile_type: Option<&str>) -> (r: Option<
    PruneCandidate,
>)
    ensures
        match candidate_of(name@, manifest@, opt_view(coastfile_type)) {
            Some((arch, ts)) => r matches Some(c) && candidate_view(c) == (name@, arch, ts),
            None => r is None,
        },
{
    let build_type = json_field(manifest, "coastfile_type");
    let arch = json_field(manifest, "arch");
    let timestamp = json_field(manifest, "build_timestamp");
    prune_candidate_from_fields(name, build_type, arch, timestamp, coastfile_type)
}

/// Candidate `j` comes before candidate `i` in its architecture group when
/// the group is sorted newest first (ties keep listing order).
pub open spec fn newer_in_group(c: Seq<(Seq<char>, Option<Seq<char>>, Seq<char>)>, j: int, i: int) -> bool {
    c[j].1 == c[i].1 && (seq_lt(c[i].2, c[j].2) || (c[j].2 == c[i].2 && j < i))
}

/// The number of candidates before `i` in its group, among the first `upto`.
pub open spec fn rank_upto(c: Seq<(Seq<char>, Option<Seq<char>>, Seq<char>)>, i: int, upto: int) -> nat
    decreases upto,
{
    if upto <= 0 {
        0
    } else {
        rank_upto(c, i, upto - 1) + if newer_in_group(c, upto - 1, i) {
            1nat
        } else {
            0nat
        }
    }
}

/// The position of candidate `i` in its group, sorted newest first.
pub open spec fn group_rank(c: Seq<(Seq<char>, Option<Seq<char>>, Seq<char>)>, i: int) -> nat {
    rank_upto(c, i, c.len() as int)
}

/// Candidate `i` is pruned: it is not among the `keep` newest of its
/// architecture group and no running instance uses it.
pub open spec fn is_pruned(
    c: Seq<(Seq<char>, Option<Seq<char>>, Seq<char>)>,
    keep: nat,
    in_use: Seq<Seq<char>>,
    i: int,
) -> bool {
    group_rank(c, i) >= keep && !in_use.contains(c[i].0)
}

/// The views of the candidates.
pub open spec fn candidates_view(v: Seq<PruneCandidate>) -> Seq<(Seq<char>, Option<Seq<char>>, Seq<char>)> {
    v.map_values(|c: PruneCandidate| candidate_view(c))
}

fn opt_str_eq(a: &Option<String>, b: &Option<String>) -> (r: bool)
    ensures
        r == ((match *a {
            Some(x) => Some(x@),
            None => None::<Seq<char>>,
        }) == (match *b {
            Some(x) => Some(x@),
            None => None::<Seq<char>>,
        })),
{
    match (a, b) {
        (Some(x), Some(y)) => str_eq(x.as_str(), y.as_str()),
        (None, None) => true,
        _ => false,
    }
}

/// The names of the pruned candidates among the first `upto`, in listing order.
pub open spec fn pruned_names(
    c: Seq<(Seq<char>, Option<Seq<char>>, Seq<char>)>,
    keep: nat,
    in_use: Seq<Seq<char>>,
    upto: int,
) -> Seq<Seq<char>>
    decreases upto,
{
    if upto <= 0 {
        Seq::empty()
    } else if is_pruned(c, keep, in_use, upto - 1) {
        pruned_names(c, keep, in_use, upto - 1).push(c[upto - 1].0)
    } else {
        pruned_names(c, keep, in_use, upto - 1)
    }
}

/// Every pruned name is the name of a pruned candidate among the first
/// `upto`.
proof fn lemma_pruned_names_members(
    c: Seq<(Seq<char>, Option<Seq<char>>, Seq<char>)>,
    keep: nat,
    in_use: Seq<Seq<char>>,
    upto: int,
    k: int,
)
    requires
        0 <= k < pruned_names(c, keep, in_use, upto).len(),
    ensures
        exists|i: int| 0 <= i < upto && is_pruned(c, keep, in_use, i) && #[trigger] c[i].0
            == pruned_names(c, keep, in_use, upto)[k],
    decreases upto,
{
    if upto > 0 {
        let prev = pruned_names(c, keep, in_use, upto - 1);
        if is_pruned(c, keep, in_use, upto - 1) && k == prev.len() {
            assert(c[upto - 1].0 == pruned_names(c, keep, in_use, upto)[k]);
        } else {
            lemma_pruned_names_members(c, keep, in_use, upto - 1, k);
            let i = choose|i: int| 0 <= i < upto - 1 && is_pruned(c, keep, in_use, i) && #[trigger] c[i].0
                == prev[k];
            assert(c[i].0 == pruned_names(c, keep, in_use, upto)[k]);
        }
    }
}

/// Law: a build that is in use is never pruned, whatever the keep limit.
pub proof fn law_pruned_builds_are_not_in_use(
    c: Seq<(Seq<char>, Option<Seq<char>>, Seq<char>)>,
    keep: nat,
    in_use: Seq<Seq<char>>,
    name: Seq<char>,
)
    requires
        in_use.contains(name),
    ensures
        !pruned_names(c, keep, in_use, c.len() as int).contains(name),
{
    if pruned_names(c, keep, in_use, c.len() as int).contains(name) {
        let k = choose|k: int| 0 <= k < pruned_names(c, keep, in_use, c.len() as int).len()
            && pruned_names(c, keep, in_use, c.len() as int)[k] == name;
        lemma_pruned_names_members(c, keep, in_use, c.len() as int, k);
    }
}

/// Law: pruning keeps the `keep` newest builds of each architecture: a
/// build with fewer than `keep` newer builds of its architecture is not
/// pruned, when build names are distinct.
pub proof fn law_newest_builds_are_kept(
    c: Seq<(Seq<char>, Option<Seq<char>>, Seq<char>)>,
    keep: nat,
    in_use: Seq<Seq<char>>,
    i: int,
)
    requires
        0 <= i < c.len(),
        group_rank(c, i) < keep,
        forall|a: int, b: int| 0 <= a < b < c.len() ==> c[a].0 != c[b].0,
    ensures
        !pruned_names(c, keep, in_use, c.len() as int).contains(c[i].0),
{
    if pruned_names(c, keep, in_use, c.len() as int).contains(c[i].0) {
        let k = choose|k: int| 0 <= k < pruned_names(c, keep, in_use, c.len() as int).len()
            && pruned_names(c, keep, in_use, c.len() as int)[k] == c[i].0;
        lemma_pruned_names_members(c, keep, in_use, c.len() as int, k);
        let j = choose|j: int| 0 <= j < c.len() && is_pruned(c, keep, in_use, j) && #[trigger] c[j].0
            == pruned_names(c, keep, in_use, c.len() as int)[k];
        assert(j == i);
    }
}

/// The names of the candidates to prune, in listing order: each group by
/// architecture keeps its `keep` newest builds, and builds in use are kept.
pub fn builds_to_prune(candidates: &Vec<PruneCandidate>, keep: usize, in_use: &Vec<String>) -> (r:
    Vec<String>)
    ensures
        views(r@) == pruned_names(
            candidates_view(candidates@),
            keep as nat,
            views(in_use@),
            candidates@.len() as int,
        ),
{
    let ghost c = candidates_view(candidates@);
    let n = candidates.len();
    let mut out: Vec<String> = Vec::new();
    let mut i: usize = 0;
    while i < n
        invariant
            n == candidates@.len(),
            i <= n,
            c == candidates_view(candidates@),
            views(out@) == pruned_names(c, keep as nat, views(in_use@), i as int),
        decreases n - i,
    {
        let ci = &candidates[i];
        let ti = chars_of(ci.timestamp.as_str());
        let mut rank: usize = 0;
        let mut j: usize = 0;
        while j < n
            invariant
                n == candidates@.len(),
                i < n,
                j <= n,
                *ci == candidates@[i as int],
                c == candidates_view(candidates@),
                ti@ == candidates@[i as int].timestamp@,
                rank == rank_upto(c, i as int, j as int),
                rank <= j,
            decreases n - j,
        {
            let cj = &candidates[j];
            let same_arch = opt_str_eq(&cj.arch, &ci.arch);
            let tj = chars_of(cj.timestamp.as_str());
            let newer = same_arch && (chars_lt(&ti, &tj) || (str_eq(
                cj.timestamp.as_str(),
                ci.timestamp.as_str(),
            ) && j < i));
            assert(c[j as int] == candidate_view(candidates@[j as int]));
            assert(c[i as int] == candidate_view(candidates@[i as int]));
            assert(newer == newer_in_group(c, j as int, i as int));
            if newer {
                rank = rank + 1;
            }
            j = j + 1;
        }
        let used = contains_name(in_use, ci.name.as_str());
        assert(c[i as int].0 == ci.name@);
        if rank >= keep && !used {
            let ghost before = out@;
            out.push(ci.name.clone());
            assert(views(out@) =~= views(before).push(ci.name@));
        }
        i = i + 1;
    }
    out
}

// ---------------------------------------------------------------------------
// Builds in use
// ---------------------------------------------------------------------------

/// An instance as build removal sees it: its name and the build it runs.
#[derive(Debug)]
pub struct InstanceBuild {
    pub name: String,
    pub build_id: Option<String>,
}

/// The instance records build `key`.
pub open spec fn records_build(i: InstanceBuild, key: Seq<char>) -> bool {
    match i.build_id {
        Some(b) => b@ == key,
        None => false,
    }
}

/// The names of the instances that use build `key`: those that record it,
/// then, when `key` is the target of `latest`, those that record no build.
pub open spec fn users_of(insts: Seq<InstanceBuild>, latest: Option<Seq<char>>, key: Seq<char>) -> Seq<
    Seq<char>,
> {
    insts.filter(|i: InstanceBuild| records_build(i, key)).map_values(
        |i: InstanceBuild| i.name@,
    ) + if latest == Some(key) {
        insts.filter(|i: InstanceBuild| i.build_id is None).map_values(|i: InstanceBuild| i.name@)
    } else {
        Seq::empty()
    }
}

/// Which builds instances use: for each build id, the names of its users.
#[derive(Debug)]
pub struct BuildUsage {
    pub entries: Vec<(String, Vec<String>)>,
}

/// The build ids of a usage table.
pub open spec fn usage_keys(u: BuildUsage) -> Seq<Seq<char>> {
    entry_keys(u.entries@)
}

/// The build ids of a list of usage entries.
pub open spec fn entry_keys(e: Seq<(String, Vec<String>)>) -> Seq<Seq<char>> {
    e.map_values(|e: (String, Vec<String>)| e.0@)
}

/// The table holds exactly the builds that have users, once each, with
/// their users in instance order.
pub open spec fn usage_correct(u: BuildUsage, insts: Seq<InstanceBuild>, latest: Option<Seq<char>>) -> bool {
    &&& usage_keys(u).no_duplicates()
    &&& forall|k: int|
        0 <= k < u.entries@.len() ==> views((#[trigger] u.entries@[k]).1@) == users_of(
            insts,
            latest,
            u.entries@[k].0@,
        ) && users_of(insts, latest, u.entries@[k].0@).len() > 0
    &&& forall|key: Seq<char>|
        users_of(insts, latest, key).len() > 0 ==> #[trigger] usage_keys(u).contains(key)
}

impl BuildUsage {
    /// The users of a build, if it has any.
    pub fn get(&self, build_id: &str) -> (r: Option<Vec<String>>)
        ensures
            match r {
                Some(v) => exists|k: int|
                    0 <= k < self.entries@.len() && #[trigger] self.entries@[k].0@ == build_id@
                        && views(v@) == views(self.entries@[k].1@),
                None => !usage_keys(*self).contains(build_id@),
            },
    {
        let mut i: usize = 0;
        while i < self.entries.len()
            invariant
                i <= self.entries@.len(),
                forall|j: int| 0 <= j < i ==> self.entries@[j].0@ != build_id@,
            decreases self.entries.len() - i,
        {
            if str_eq(self.entries[i].0.as_str(), build_id) {
                let v = clone_strings(&self.entries[i].1);
                return Some(v);
            }
            i = i + 1;
        }
        None
    }

    /// Whether no build is in use.
    pub fn is_empty(&self) -> (r: bool)
        ensures
            r == (self.entries@.len() == 0),
    {
        self.entries.len() == 0
    }
}

/// A copy of a list of strings.
pub fn clone_strings(v: &Vec<String>) -> (r: Vec<String>)
    ensures
        views(r@) == views(v@),
{
    let mut out: Vec<String> = Vec::new();
    let mut i: usize = 0;
    while i < v.len()
        invariant
            i <= v@.len(),
            views(out@) == views(v@).subrange(0, i as int),
        decreases v.len() - i,
    {
        let ghost before = out@;
        out.push(v[i].clone());
        assert(views(out@) =~= views(before).push(v@[i as int]@));
        assert(views(v@).subrange(0, i + 1) =~= views(v@).subrange(0, i as int).push(
            v@[i as int]@,
        ));
        i = i + 1;
    }
    assert(views(v@).subrange(0, v@.len() as int) =~= views(v@));
    out
}

fn users_exec(insts: &Vec<InstanceBuild>, latest: Option<&str>, key: &str) -> (r: Vec<String>)
    ensures
        views(r@) == users_of(insts@, opt_view(latest), key@),
{
    let ghost p1 = |i: InstanceBuild| records_build(i, key@);
    let ghost p2 = |i: InstanceBuild| i.build_id is None;
    let ghost f = |i: InstanceBuild| i.name@;
    let mut with_id: Vec<String> = Vec::new();
    let mut without: Vec<String> = Vec::new();
    let mut i: usize = 0;
    while i < insts.len()
        invariant
            i <= insts@.len(),
            p1 == (|i: InstanceBuild| records_build(i, key@)),
            p2 == (|i: InstanceBuild| i.build_id is None),
            f == (|i: InstanceBuild| i.name@),
            views(with_id@) == insts@.subrange(0, i as int).filter(p1).map_values(f),
            views(without@) == insts@.subrange(0, i as int).filter(p2).map_values(f),
        decreases insts.len() - i,
    {
        let inst = &insts[i];
        let ghost pre = insts@.subrange(0, i as int);
        assert(insts@.subrange(0, i + 1) =~= pre.push(*inst));
        proof { pre.lemma_filter_push(*inst, p1); }
        proof { pre.lemma_filter_push(*inst, p2); }
        let ghost b1 = with_id@;
        let ghost b2 = without@;
        match &inst.build_id {
            Some(b) => {
                if str_eq(b.as_str(), key) {
                    with_id.push(inst.name.clone());
                    assert(views(with_id@) =~= views(b1).push(inst.name@));
                    assert(pre.filter(p1).push(*inst).map_values(f) =~= pre.filter(p1).map_values(
                        f,
                    ).push(inst.name@));
                }
            },
            None => {
                without.push(inst.name.clone());
                assert(views(without@) =~= views(b2).push(inst.name@));
                assert(pre.filter(p2).push(*inst).map_values(f) =~= pre.filter(p2).map_values(
                    f,
                ).push(inst.name@));
            },
        }
        i = i + 1;
    }
    assert(insts@.subrange(0, insts@.len() as int) =~= insts@);
    let is_latest = match latest {
        Some(l) => str_eq(l, key),
        None => false,
    };
    if is_latest {
        let ghost b1 = with_id@;
        let mut k: usize = 0;
        while k < without.len()
            invariant
                k <= without@.len(),
                views(with_id@) == views(b1) + views(without@).subrange(0, k as int),
            decreases without.len() - k,
        {
            let ghost before = with_id@;
            with_id.push(without[k].clone());
            assert(views(with_id@) =~= views(before).push(without@[k as int]@));
            assert(views(without@).subrange(0, k + 1) =~= views(without@).subrange(
                0,
                k as int,
            ).push(without@[k as int]@));
            k = k + 1;
        }
        assert(views(without@).subrange(0, without@.len() as int) =~= views(without@));
    } else {
        assert(views(with_id@) + Seq::<Seq<char>>::empty() =~= views(with_id@));
    }
    with_id
}

/// Usage entries that are correct so far: distinct build ids, each with its
/// users in instance order, none without users.
pub open spec fn entries_ok(e: Seq<(String, Vec<String>)>, insts: Seq<InstanceBuild>, latest: Option<Seq<char>>) -> bool {
    &&& entry_keys(e).no_duplicates()
    &&& forall|q: int|
        0 <= q < e.len() ==> views((#[trigger] e[q]).1@) == users_of(insts, latest, e[q].0@)
            && users_of(insts, latest, e[q].0@).len() > 0
}

/// Adds the entry of `key` when it has users and is not there yet.
fn add_usage(
    entries: &mut Vec<(String, Vec<String>)>,
    keys: &mut Vec<String>,
    instances: &Vec<InstanceBuild>,
    latest_target: Option<&str>,
    key: &str,
)
    requires
        entries_ok(old(entries)@, instances@, opt_view(latest_target)),
        views(old(keys)@) == entry_keys(old(entries)@),
    ensures
        entries_ok(final(entries)@, instances@, opt_view(latest_target)),
        views(final(keys)@) == entry_keys(final(entries)@),
        forall|x: Seq<char>|
            #[trigger] entry_keys(old(entries)@).contains(x) ==> entry_keys(final(entries)@).contains(x),
        users_of(instances@, opt_view(latest_target), key@).len() > 0 ==> entry_keys(
            final(entries)@,
        ).contains(key@),
{
    if contains_name(keys, key) {
        return;
    }
    let users = users_exec(instances, latest_target, key);
    if users.len() > 0 {
        let ghost before_e = entries@;
        let ghost before_k = keys@;
        entries.push((crate::text::owned(key), users));
        keys.push(crate::text::owned(key));
        proof {
            assert(entry_keys(entries@) =~= entry_keys(before_e).push(key@));
            assert(views(keys@) =~= views(before_k).push(key@));
            assert(entry_keys(entries@)[before_e.len() as int] == key@);
            assert forall|x: Seq<char>| #[trigger] entry_keys(before_e).contains(x) implies entry_keys(
                entries@,
            ).contains(x) by {
                let y = choose|y: int| 0 <= y < entry_keys(before_e).len() && entry_keys(before_e)[y] == x;
                assert(entry_keys(entries@)[y] == x);
            }
            assert forall|q: int| 0 <= q < entries@.len() implies views((#[trigger] entries@[q]).1@)
                == users_of(instances@, opt_view(latest_target), entries@[q].0@) && users_of(
                instances@,
                opt_view(latest_target),
                entries@[q].0@,
            ).len() > 0 by {
                if q < before_e.len() {
                    assert(entries@[q] == before_e[q]);
                }
            }
        }
    }
}

/// Maps each build id to the instances that use it; instances that record no
/// build use the target of `latest`, when there is one.
pub fn build_in_use_map(instances: &Vec<InstanceBuild>, latest_target: Option<&str>) -> (r:
    BuildUsage)
    ensures
        usage_correct(r, instances@, opt_view(latest_target)),
{
    let ghost lt = opt_view(latest_target);
    let mut entries: Vec<(String, Vec<String>)> = Vec::new();
    let mut keys: Vec<String> = Vec::new();
    let mut i: usize = 0;
    // Candidate keys: every recorded build id, then the latest target.
    let mut cands: Vec<String> = Vec::new();
    while i < instances.len()
        invariant
            i <= instances@.len(),
            forall|j: int|
                0 <= j < i && (#[trigger] instances@[j]).build_id is Some ==> views(
                    cands@,
                ).contains(instances@[j].build_id->0@),
        decreases instances.len() - i,
    {
        if let Some(b) = &instances[i].build_id {
            let ghost before = cands@;
            cands.push(b.clone());
            proof {
                assert(views(cands@) =~= views(before).push(b@));
                assert forall|j: int|
                    0 <= j < i + 1 && (#[trigger] instances@[j]).build_id is Some implies views(
                    cands@,
                ).contains(instances@[j].build_id->0@) by {
                    if j < i {
                        let bb = instances@[j].build_id->0@;
                        assert(views(before).contains(bb));
                        let y = choose|y: int| 0 <= y < views(before).len() && views(before)[y] == bb;
                        assert(views(cands@)[y] == bb);
                    } else {
                        assert(views(cands@)[before.len() as int] == b@);
                    }
                }
            }
        }
        i = i + 1;
    }
    assert(entry_keys(entries@) =~= Seq::<Seq<char>>::empty());
    assert(views(keys@) =~= Seq::<Seq<char>>::empty());
    let mut k: usize = 0;
    while k < cands.len()
        invariant
            k <= cands@.len(),
            lt == opt_view(latest_target),
            entries_ok(entries@, instances@, lt),
            views(keys@) == entry_keys(entries@),
            forall|q: int|
                0 <= q < k && users_of(instances@, lt, cands@[q]@).len() > 0
                    ==> entry_keys(entries@).contains(#[trigger] cands@[q]@),
        decreases cands.len() - k,
    {
        add_usage(&mut entries, &mut keys, instances, latest_target, cands[k].as_str());
        k = k + 1;
    }
    if let Some(l) = latest_target {
        add_usage(&mut entries, &mut keys, instances, latest_target, l);
    }
    let r = BuildUsage { entries };
    proof {
        assert forall|key: Seq<char>| users_of(instances@, lt, key).len() > 0 implies #[trigger] usage_keys(
            r,
        ).contains(key) by {
            let p = |i: InstanceBuild| records_build(i, key);
            let a = instances@.filter(p);
            if a.len() > 0 {
                instances@.lemma_filter_pred(p, 0);
                assert(a.contains(a[0]));
                instances@.lemma_filter_contains_rev(p, a[0]);
                let j = choose|j: int| 0 <= j < instances@.len() && instances@[j] == a[0];
                assert(records_build(instances@[j], key));
                assert(instances@[j].build_id is Some);
                assert(views(cands@).contains(key));
                let q = choose|q: int| 0 <= q < views(cands@).len() && views(cands@)[q] == key;
                assert(cands@[q]@ == key);
            } else {
                assert(lt == Some(key));
            }
        }
    }
    r
}

/// How many builds of each architecture a build keeps.
pub const BUILDS_KEPT: usize = 5;

/// A build is in use: an instance records it, or it is the target of
/// `latest` and some instance records no build.
pub open spec fn build_in_use(insts: Seq<InstanceBuild>, latest: Option<Seq<char>>, key: Seq<char>) -> bool {
    (exists|i: int| 0 <= i < insts.len() && records_build(#[trigger] insts[i], key)) || (latest
        == Some(key) && exists|i: int| 0 <= i < insts.len() && (#[trigger] insts[i]).build_id is None)
}

/// The builds in use, each once: those that instances record, and the
/// target of `latest` when some instance records no build.
pub fn in_use_build_ids(instances: &Vec<InstanceBuild>, latest_target: Option<&str>) -> (r: Vec<
    String,
>)
    ensures
        views(r@).no_duplicates(),
        forall|k: Seq<char>| #[trigger] views(r@).contains(k) <==> build_in_use(
            instances@,
            opt_view(latest_target),
            k,
        ),
{
    let mut out: Vec<String> = Vec::new();
    let mut has_none = false;
    let mut i: usize = 0;
    while i < instances.len()
        invariant
            i <= instances@.len(),
            views(out@).no_duplicates(),
            has_none <==> exists|j: int| 0 <= j < i && (#[trigger] instances@[j]).build_id is None,
            forall|k: Seq<char>| #[trigger] views(out@).contains(k) <==> exists|j: int|
                0 <= j < i && records_build(#[trigger] instances@[j], k),
        decreases instances.len() - i,
    {
        match &instances[i].build_id {
            Some(b) => {
                if !contains_name(&out, b.as_str()) {
                    let ghost before = out@;
                    out.push(b.clone());
                    proof {
                        assert(views(out@) =~= views(before).push(b@));
                        assert forall|k: Seq<char>| #[trigger] views(out@).contains(k) <==> exists|j: int|
                            0 <= j < i + 1 && records_build(#[trigger] instances@[j], k) by {
                            if views(out@).contains(k) {
                                let y = choose|y: int| 0 <= y < views(out@).len() && views(out@)[y] == k;
                                if y < views(before).len() {
                                    assert(views(before)[y] == k);
                                    assert(views(before).contains(k));
                                } else {
                                    assert(records_build(instances@[i as int], k));
                                }
                            }
                            if exists|j: int| 0 <= j < i + 1 && records_build(#[trigger] instances@[j], k) {
                                let j = choose|j: int| 0 <= j < i + 1 && records_build(#[trigger] instances@[j], k);
                                if j < i {
                                    assert(views(before).contains(k));
                                    let y = choose|y: int| 0 <= y < views(before).len() && views(before)[y] == k;
                                    assert(views(out@)[y] == k);
                                } else {
                                    assert(views(out@)[before.len() as int] == k);
                                }
                            }
                        }
                    }
                } else {
                    proof {
                        assert forall|k: Seq<char>| #[trigger] views(out@).contains(k) <==> exists|j: int|
                            0 <= j < i + 1 && records_build(#[trigger] instances@[j], k) by {
                            if exists|j: int| 0 <= j < i + 1 && records_build(#[trigger] instances@[j], k) {
                                let j = choose|j: int| 0 <= j < i + 1 && records_build(#[trigger] instances@[j], k);
                                if j == i {
                                    assert(k == b@);
                                }
                            }
                        }
                    }
                }
            },
            None => {
                has_none = true;
            },
        }
        i = i + 1;
    }
    if has_none {
        if let Some(l) = latest_target {
            if !contains_name(&out, l) {
                let ghost before = out@;
                out.push(crate::text::owned(l));
                assert(views(out@) =~= views(before).push(l@));
                proof {
                    assert forall|k: Seq<char>| #[trigger] views(out@).contains(k) <==> build_in_use(
                        instances@,
                        opt_view(latest_target),
                        k,
                    ) by {
                        if views(out@).contains(k) {
                            let y = choose|y: int| 0 <= y < views(out@).len() && views(out@)[y] == k;
                            if y < views(before).len() {
                                assert(views(before)[y] == k);
                                assert(views(before).contains(k));
                            }
                        }
                        if k != l@ && views(before).contains(k) {
                            let y = choose|y: int| 0 <= y < views(before).len() && views(before)[y] == k;
                            assert(views(out@)[y] == k);
                        }
                        if k == l@ {
                            assert(views(out@)[before.len() as int] == k);
                        }
                    }
                }
            }
        }
    }
    out
}

/// The service whose port is the project's primary port: the declared one,
/// else the only port when the project has exactly one.
pub fn primary_port_service(declared: Option<&str>, port_names: &Vec<String>) -> (r: Option<String>)
    ensures
        match declared {
            Some(d) => r matches Some(s) && s@ == d@,
            None => if port_names@.len() == 1 {
                r matches Some(s) && s@ == port_names@[0]@
            } else {
                r is None
            },
        },
{
    match declared {
        Some(d) => Some(crate::text::owned(d)),
        None => if port_names.len() == 1 {
            Some(port_names[0].clone())
        } else {
            None
        },
    }
}

/// The settings key under which a build's primary port is stored.
pub fn primary_port_setting_key(project: &str, build_id: &str) -> (r: String)
    ensures
        r@ == "primary_port:"@ + project@ + ":"@ + build_id@,
{
    let mut r = String::new();
    push_str(&mut r, "primary_port:");
    push_str(&mut r, project);
    push_str(&mut r, ":");
    push_str(&mut r, build_id);
    r
}

// ---------------------------------------------------------------------------
// Removing specific builds
// ---------------------------------------------------------------------------

/// What build removal does with one requested build.
#[derive(Debug)]
pub struct BuildRemoval {
    pub build_id: String,
    /// The build is in use and is left alone.
    pub skip: bool,
    /// The build is the target of `latest`, whose link goes with it.
    pub is_latest: bool,
}

/// Decides, for each requested build, whether it is removed or skipped
/// because instances still use it.
pub fn plan_build_removals(build_ids: &Vec<String>, usage: &BuildUsage, latest_target: Option<&str>) -> (r:
    Vec<BuildRemoval>)
    ensures
        r@.len() == build_ids@.len(),
        forall|k: int|
            0 <= k < r@.len() ==> (#[trigger] r@[k]).build_id@ == build_ids@[k]@ && r@[k].skip
                == usage_keys(*usage).contains(build_ids@[k]@) && r@[k].is_latest == (opt_view(
                latest_target,
            ) == Some(build_ids@[k]@)),
{
    let mut out: Vec<BuildRemoval> = Vec::new();
    let mut k: usize = 0;
    while k < build_ids.len()
        invariant
            k <= build_ids@.len(),
            out@.len() == k,
            forall|q: int|
                0 <= q < k ==> (#[trigger] out@[q]).build_id@ == build_ids@[q]@ && out@[q].skip
                    == usage_keys(*usage).contains(build_ids@[q]@) && out@[q].is_latest == (opt_view(
                    latest_target,
                ) == Some(build_ids@[q]@)),
        decreases build_ids.len() - k,
    {
        let bid = build_ids[k].as_str();
        let found = usage.get(bid);
        let skip = found.is_some();
        proof {
            if usage_keys(*usage).contains(bid@) {
                let q = choose|q: int| 0 <= q < usage_keys(*usage).len() && usage_keys(*usage)[q] == bid@;
                assert(usage.entries@[q].0@ == bid@);
            }
            if skip {
                let q = choose|q: int| 0 <= q < usage.entries@.len() && #[trigger] usage.entries@[q].0@ == bid@
                    && views(found->0@) == views(usage.entries@[q].1@);
                assert(usage_keys(*usage)[q] == bid@);
            }
        }
        let is_latest = match latest_target {
            Some(l) => str_eq(l, bid),
            None => false,
        };
        out.push(BuildRemoval { build_id: build_ids[k].clone(), skip, is_latest });
        k = k + 1;
    }
    out
}

/// A build that instances use is never removed.
pub proof fn law_in_use_builds_are_kept(
    build_ids: Seq<Seq<char>>,
    insts: Seq<InstanceBuild>,
    latest: Option<Seq<char>>,
    usage: BuildUsage,
    plan: Seq<BuildRemoval>,
    k: int,
)
    requires
        usage_correct(usage, insts, latest),
        plan.len() == build_ids.len(),
        0 <= k < plan.len(),
        plan[k].build_id@ == build_ids[k],
        plan[k].skip == usage_keys(usage).contains(build_ids[k]),
        users_of(insts, latest, build_ids[k]).len() > 0,
    ensures
        plan[k].skip,
{
}

// ---------------------------------------------------------------------------
// Full project removal
// ---------------------------------------------------------------------------

/// A shared-service record: its name and recorded status.
#[derive(Debug)]
pub struct SharedServiceRecord {
    pub service_name: String,
    pub status: String,
}

/// The names of the running shared services, joined by `", "`.
pub open spec fn running_names(s: Seq<SharedServiceRecord>) -> Seq<Seq<char>> {
    s.filter(|r: SharedServiceRecord| r.status@ == "running"@).map_values(
        |r: SharedServiceRecord| r.service_name@,
    )
}

/// The message when instances of the project still exist.
pub open spec fn instances_exist_message(project: Seq<char>, n: nat) -> Seq<char> {
    "Cannot remove build for '"@ + project + "': "@ + decimal(n) + " instance(s) still exist. Run `coast rm --all --project "@
        + project + "` first."@
}

/// The message when shared services of the project still run.
pub open spec fn services_running_message(project: Seq<char>, names: Seq<Seq<char>>) -> Seq<char> {
    "Cannot remove build for '"@ + project + "': "@ + decimal(names.len()) + " shared service(s) still running ("@
        + crate::text::join(names, ", "@) + "). Run `coast shared-services stop --all --project "@ + project
        + "` first."@
}

/// Checks that no instance exists and no shared service runs for a project
/// whose builds are all to be removed.
pub fn validate_removable(project: &str, instance_count: usize, shared: &Vec<SharedServiceRecord>) -> (r:
    Result<(), CoastError>)
    ensures
        instance_count > 0 ==> (r matches Err(CoastError::State(m)) && m@
            == instances_exist_message(project@, instance_count as nat)),
        instance_count == 0 && running_names(shared@).len() > 0 ==> (r matches Err(
            CoastError::State(m),
        ) && m@ == services_running_message(project@, running_names(shared@))),
        instance_count == 0 && running_names(shared@).len() == 0 ==> r is Ok,
{
    if instance_count > 0 {
        let mut m = String::new();
        push_str(&mut m, "Cannot remove build for '");
        push_str(&mut m, project);
        push_str(&mut m, "': ");
        push_decimal(&mut m, instance_count as u64);
        push_str(&mut m, " instance(s) still exist. Run `coast rm --all --project ");
        push_str(&mut m, project);
        push_str(&mut m, "` first.");
        return Err(CoastError::State(m));
    }
    let ghost pred = |r: SharedServiceRecord| r.status@ == "running"@;
    let ghost f = |r: SharedServiceRecord| r.service_name@;
    let mut names: Vec<String> = Vec::new();
    let mut i: usize = 0;
    while i < shared.len()
        invariant
            i <= shared@.len(),
            pred == (|r: SharedServiceRecord| r.status@ == "running"@),
            f == (|r: SharedServiceRecord| r.service_name@),
            views(names@) == shared@.subrange(0, i as int).filter(pred).map_values(f),
        decreases shared.len() - i,
    {
        let s = &shared[i];
        let ghost pre = shared@.subrange(0, i as int);
        assert(shared@.subrange(0, i + 1) =~= pre.push(*s));
        proof { pre.lemma_filter_push(*s, pred); }
        if str_eq(s.status.as_str(), "running") {
            let ghost before = names@;
            names.push(s.service_name.clone());
            assert(views(names@) =~= views(before).push(s.service_name@));
            assert(pre.filter(pred).push(*s).map_values(f) =~= pre.filter(pred).map_values(f).push(
                s.service_name@,
            ));
        }
        i = i + 1;
    }
    assert(shared@.subrange(0, shared@.len() as int) =~= shared@);
    if names.len() > 0 {
        let mut m = String::new();
        push_str(&mut m, "Cannot remove build for '");
        push_str(&mut m, project);
        push_str(&mut m, "': ");
        push_decimal(&mut m, names.len() as u64);
        push_str(&mut m, " shared service(s) still running (");
        crate::text::push_joined(&mut m, &names, ", ");
        push_str(&mut m, "). Run `coast shared-services stop --all --project ");
        push_str(&mut m, project);
        push_str(&mut m, "` first.");
        return Err(CoastError::State(m));
    }
    Ok(())
}

// ---------------------------------------------------------------------------
// Docker resources of a project
// ---------------------------------------------------------------------------

/// The rules by which a volume belongs to a project: shared volumes
/// (`coast-shared--{project}--` prefix), compose volumes (`{project}-coasts`
/// or `{project}-shared-services` inside the name), and isolated volumes
/// (`coast--` prefix with the `coast.project` label naming the project).
pub open spec fn volume_belongs(name: Seq<char>, project: Seq<char>, labels: Seq<(Seq<char>, Seq<char>)>) -> bool {
    if has_prefix(name, "coast-shared--"@ + project + "--"@) || contains_seq(
        name,
        project + "-coasts"@,
    ) || contains_seq(name, project + "-shared-services"@) {
        true
    } else if has_prefix(name, "coast--"@) {
        lookup(labels, "coast.project"@) == Some(project)
    } else {
        false
    }
}

fn concat2(a: &str, b: &str) -> (r: String)
    ensures
        r@ == a@ + b@,
{
    let mut r = String::new();
    push_str(&mut r, a);
    push_str(&mut r, b);
    r
}

fn concat3(a: &str, b: &str, c: &str) -> (r: String)
    ensures
        r@ == a@ + b@ + c@,
{
    let mut r = String::new();
    push_str(&mut r, a);
    push_str(&mut r, b);
    push_str(&mut r, c);
    r
}

/// Whether a Docker volume belongs to the project.
pub fn volume_belongs_to_project(name: &str, project: &str, labels: &Vec<(String, String)>) -> (r:
    bool)
    ensures
        r == volume_belongs(name@, project@, pair_views(labels@)),
{
    let shared_prefix = concat3("coast-shared--", project, "--");
    let compose_prefix = concat2(project, "-coasts");
    let shared_svc_prefix = concat2(project, "-shared-services");
    if str_starts_with(name, shared_prefix.as_str()) || str_contains(name, compose_prefix.as_str())
        || str_contains(name, shared_svc_prefix.as_str()) {
        return true;
    }
    if str_starts_with(name, "coast--") {
        return match lookup_exec(labels, "coast.project") {
            Some(p) => str_eq(p.as_str(), project),
            None => false,
        };
    }
    false
}

/// An image tag marks the project's images: `coast-image/{project}:` or
/// `{project}-coasts` at its start.
pub open spec fn image_tag_of_project(tag: Seq<char>, project: Seq<char>) -> bool {
    has_prefix(tag, "coast-image/"@ + project + ":"@) || has_prefix(tag, project + "-coasts"@)
}

/// Whether any tag of a Docker image marks it as the project's.
pub fn image_matches_project(repo_tags: &Vec<String>, project: &str) -> (r: bool)
    ensures
        r == exists|i: int| 0 <= i < repo_tags@.len() && image_tag_of_project(#[trigger] repo_tags@[i]@, project@),
{
    let prefix_a = concat3("coast-image/", project, ":");
    let prefix_b = concat2(project, "-coasts");
    let mut i: usize = 0;
    while i < repo_tags.len()
        invariant
            i <= repo_tags@.len(),
            prefix_a@ == "coast-image/"@ + project@ + ":"@,
            prefix_b@ == project@ + "-coasts"@,
            forall|j: int| 0 <= j < i ==> !image_tag_of_project(#[trigger] repo_tags@[j]@, project@),
        decreases repo_tags.len() - i,
    {
        let tag = repo_tags[i].as_str();
        if str_starts_with(tag, prefix_a.as_str()) || str_starts_with(tag, prefix_b.as_str()) {
            return true;
        }
        i = i + 1;
    }
    false
}

// ---------------------------------------------------------------------------
// Volume strategy warnings
// ---------------------------------------------------------------------------

/// A service name that suggests a database (checked on its ASCII lowercase).
pub open spec fn database_like(service: Seq<char>) -> bool {
    let l = ascii_lowercase(service);
    contains_seq(l, "postgres"@) || contains_seq(l, "mysql"@) || contains_seq(l, "mongo"@)
        || contains_seq(l, "redis"@) || contains_seq(l, "db"@)
}

/// The ASCII lowercase of a string.
pub fn to_ascii_lowercase(s: &str) -> (r: String)
    ensures
        r@ == ascii_lowercase(s@),
{
    let v = chars_of(s);
    let mut out = String::new();
    let mut i: usize = 0;
    while i < v.len()
        invariant
            i <= v@.len(),
            v@ == s@,
            out@ == ascii_lowercase(v@.subrange(0, i as int)),
        decreases v.len() - i,
    {
        let c = v[i];
        let l = if 'A' <= c && c <= 'Z' {
            ((c as u8) + 32) as char
        } else {
            c
        };
        crate::text::push_char(&mut out, l);
        assert(ascii_lowercase(v@.subrange(0, i + 1)) =~= ascii_lowercase(
            v@.subrange(0, i as int),
        ).push(crate::text::ascii_lower(c)));
        i = i + 1;
    }
    assert(v@.subrange(0, v@.len() as int) =~= v@);
    out
}

/// Whether a service name looks database-related. Lowercasing is ASCII only:
/// the keywords are ASCII and no other character lowercases into the letters
/// of a keyword without adding a combining mark.
pub fn looks_database_related(service: &str) -> (r: bool)
    ensures
        r == database_like(service@),
{
    let l = to_ascii_lowercase(service);
    let s = l.as_str();
    str_contains(s, "postgres") || str_contains(s, "mysql") || str_contains(s, "mongo")
        || str_contains(s, "redis") || str_contains(s, "db")
}

/// The volume strategies of a Coastfile.
#[derive(Clone, Copy, PartialEq, Eq, Debug, Structural)]
pub enum VolumeStrategy {
    Isolated,
    Shared,
}

/// The parts of a volume declaration that the warnings read.
#[derive(Debug)]
pub struct VolumeConfig {
    pub name: String,
    pub service: String,
    pub strategy: VolumeStrategy,
}

/// The warning for a shared volume on a database-like service.
pub open spec fn shared_volume_warning(v: VolumeConfig) -> Seq<char> {
    "Volume '"@ + v.name@ + "' uses 'shared' strategy on service '"@ + v.service@
        + "' which looks database-related. Multiple instances writing to the same database volume can cause data corruption. Consider using 'isolated' strategy or 'shared_services' instead."@
}

/// The volumes that get a warning.
pub open spec fn warned(v: VolumeConfig) -> bool {
    v.strategy == VolumeStrategy::Shared && database_like(v.service@)
}

/// One warning per shared volume on a database-like service, in order.
pub fn shared_volume_warnings(volumes: &Vec<VolumeConfig>) -> (r: Vec<String>)
    ensures
        views(r@) == volumes@.filter(|v: VolumeConfig| warned(v)).map_values(
            |v: VolumeConfig| shared_volume_warning(v),
        ),
{
    let ghost p = |v: VolumeConfig| warned(v);
    let ghost f = |v: VolumeConfig| shared_volume_warning(v);
    let mut out: Vec<String> = Vec::new();
    let mut i: usize = 0;
    while i < volumes.len()
        invariant
            i <= volumes@.len(),
            p == (|v: VolumeConfig| warned(v)),
            f == (|v: VolumeConfig| shared_volume_warning(v)),
            views(out@) == volumes@.subrange(0, i as int).filter(p).map_values(f),
        decreases volumes.len() - i,
    {
        let v = &volumes[i];
        let ghost pre = volumes@.subrange(0, i as int);
        assert(volumes@.subrange(0, i + 1) =~= pre.push(*v));
        proof { pre.lemma_filter_push(*v, p); }
        if v.strategy == VolumeStrategy::Shared && looks_database_related(v.service.as_str()) {
            let mut m = String::new();
            push_str(&mut m, "Volume '");
            push_str(&mut m, v.name.as_str());
            push_str(&mut m, "' uses 'shared' strategy on service '");
            push_str(&mut m, v.service.as_str());
            push_str(
                &mut m,
                "' which looks database-related. Multiple instances writing to the same database volume can cause data corruption. Consider using 'isolated' strategy or 'shared_services' instead.",
            );
            let ghost before = out@;
            out.push(m);
            assert(views(out@) =~= views(before).push(shared_volume_warning(*v)));
            assert(pre.filter(p).push(*v).map_values(f) =~= pre.filter(p).map_values(f).push(
                shared_volume_warning(*v),
            ));
        }
        i = i + 1;
    }
    assert(volumes@.subrange(0, volumes@.len() as int) =~= volumes@);
    out
}

// ---------------------------------------------------------------------------
// Build directories and manifests
// ---------------------------------------------------------------------------

/// The name of the `latest` link of a Coastfile type.
pub fn latest_link_name(coastfile_type: Option<&str>) -> (r: String)
    ensures
        r@ == match coastfile_type {
            Some(t) => "latest-"@ + t@,
            None => "latest"@,
        },
{
    let mut r = String::new();
    match coastfile_type {
        Some(t) => {
            push_str(&mut r, "latest-");
            push_str(&mut r, t);
        },
        None => push_str(&mut r, "latest"),
    }
    r
}

/// The directory of a build under the project's images directory.
pub fn build_dir_path(project_images_dir: &str, build_id: &str) -> (r: String)
    ensures
        r@ == path_join(project_images_dir@, build_id@),
{
    join_path(project_images_dir, build_id)
}

/// The artifact directory a run uses: the requested build's directory when
/// it exists, else the `latest` link.
pub fn resolve_artifact_dir(project_images_dir: &str, build_id: Option<&str>, build_dir_exists: bool) -> (r:
    String)
    ensures
        r@ == match build_id {
            Some(b) => if build_dir_exists {
                path_join(project_images_dir@, b@)
            } else {
                path_join(project_images_dir@, "latest"@)
            },
            None => path_join(project_images_dir@, "latest"@),
        },
{
    match build_id {
        Some(b) => if build_dir_exists {
            build_dir_path(project_images_dir, b)
        } else {
            build_dir_path(project_images_dir, "latest")
        },
        None => build_dir_path(project_images_dir, "latest"),
    }
}

/// The custom coast image that a build manifest names, if any.
pub fn manifest_coast_image(manifest: &str) -> (r: Option<String>)
    ensures
        match json_text_of(manifest@, "coast_image"@) {
            Some(s) => r matches Some(x) && x@ == s,
            None => r is None,
        },
{
    json_text(manifest, "coast_image")
}

/// The project root that a build manifest records, if any.
pub fn manifest_project_root(manifest: &str) -> (r: Option<String>)
    ensures
        match json_text_of(manifest@, "project_root"@) {
            Some(s) => r matches Some(x) && x@ == s,
            None => r is None,
        },
{
    json_text(manifest, "project_root")
}


// ---------------------------------------------------------------------------
// Builds for an architecture
// ---------------------------------------------------------------------------

/// A string field of a manifest, or `default` when it is missing or not a
/// string.
pub open spec fn field_or(manifest: Seq<char>, key: Seq<char>, default: Seq<char>) -> Seq<char> {
    match json_text_of(manifest, key) {
        Some(s) => s,
        None => default,
    }
}

/// Whether a build directory holds a build of the given type for the given
/// architecture; builds without an architecture count as `unknown`, builds
/// without a type as `default`.
pub open spec fn builds_for_arch(name: Seq<char>, manifest: Seq<char>, target_type: Seq<char>, arch: Seq<char>) -> bool {
    &&& !has_prefix(name, "latest"@)
    &&& !(crate::json::json_field_of(manifest, "arch"@) is Invalid)
    &&& field_or(manifest, "arch"@, "unknown"@) == arch
    &&& field_or(manifest, "coastfile_type"@, "default"@) == target_type
}

/// The newest matching build among the first `n` build directories (name
/// and build timestamp); among equal timestamps the one listed first.
pub open spec fn newest_for_arch(
    builds: Seq<(Seq<char>, Seq<char>)>,
    target_type: Seq<char>,
    arch: Seq<char>,
    n: int,
) -> Option<(Seq<char>, Seq<char>)>
    decreases n,
{
    if n <= 0 {
        None
    } else {
        let prev = newest_for_arch(builds, target_type, arch, n - 1);
        let (name, manifest) = builds[n - 1];
        if builds_for_arch(name, manifest, target_type, arch) {
            let ts = field_or(manifest, "build_timestamp"@, Seq::empty());
            match prev {
                None => Some((name, ts)),
                Some((_, best)) => if seq_lt(best, ts) {
                    Some((name, ts))
                } else {
                    prev
                },
            }
        } else {
            prev
        }
    }
}

/// The newest build of the given Coastfile type for the given architecture
/// among a project's build directories, given as (directory name, manifest
/// text) pairs in listing order.
pub fn latest_build_for_arch(builds: &Vec<(String, String)>, target_type: &str, arch: &str) -> (r:
    Option<String>)
    ensures
        match newest_for_arch(pair_views(builds@), target_type@, arch@, builds@.len() as int) {
            Some((name, _)) => r matches Some(x) && x@ == name,
            None => r is None,
        },
{
    let ghost bv = pair_views(builds@);
    let mut best: Option<(String, String)> = None;
    let mut i: usize = 0;
    while i < builds.len()
        invariant
            i <= builds@.len(),
            bv == pair_views(builds@),
            match newest_for_arch(bv, target_type@, arch@, i as int) {
                Some((n, t)) => best matches Some((bn, bt)) && bn@ == n && bt@ == t,
                None => best is None,
            },
        decreases builds.len() - i,
    {
        let name = builds[i].0.as_str();
        let manifest = builds[i].1.as_str();
        assert(bv[i as int] == (name@, manifest@));
        let valid = match crate::json::json_field(manifest, "arch") {
            crate::json::JsonField::Invalid => false,
            _ => true,
        };
        if !str_starts_with(name, "latest") && valid {
            let build_arch = match json_text(manifest, "arch") {
                Some(a) => a,
                None => crate::text::owned("unknown"),
            };
            let build_type = match json_text(manifest, "coastfile_type") {
                Some(t) => t,
                None => crate::text::owned("default"),
            };
            if str_eq(build_arch.as_str(), arch) && str_eq(build_type.as_str(), target_type) {
                let ts = match json_text(manifest, "build_timestamp") {
                    Some(t) => t,
                    None => String::new(),
                };
                let replace = match &best {
                    None => true,
                    Some((_, bt)) => chars_lt(&chars_of(bt.as_str()), &chars_of(ts.as_str())),
                };
                if replace {
                    best = Some((crate::text::owned(name), ts));
                }
            }
        }
        i = i + 1;
    }
    match best {
        Some((n, _)) => Some(n),
        None => None,
    }
}

/// The link to the latest build that a remote run checks: `latest-{type}`
/// for a named type other than `default`, else `latest-remote`.
pub open spec fn arch_link_name(coastfile_type: Option<Seq<char>>) -> Seq<char> {
    match coastfile_type {
        Some(t) => if t != "default"@ {
            "latest-"@ + t
        } else {
            "latest-remote"@
        },
        None => "latest-remote"@,
    }
}

/// The link to the latest build that a remote run checks.
pub fn arch_latest_link_name(coastfile_type: Option<&str>) -> (r: String)
    ensures
        r@ == arch_link_name(
            match coastfile_type {
                Some(t) => Some(t@),
                None => None,
            },
        ),
{
    match coastfile_type {
        Some(t) => if !str_eq(t, "default") {
            let mut r = crate::text::owned("latest-");
            push_str(&mut r, t);
            r
        } else {
            crate::text::owned("latest-remote")
        },
        None => crate::text::owned("latest-remote"),
    }
}

/// The build links searched, in order, for the primary port of a remote
/// run: `latest-{type}` for a named type other than `default`, then
/// `latest-remote`, then `latest`.
pub open spec fn primary_port_links(coastfile_type: Option<Seq<char>>) -> Seq<Seq<char>> {
    (match coastfile_type {
        Some(t) => if t != "default"@ {
            seq!["latest-"@ + t]
        } else {
            Seq::empty()
        },
        None => Seq::empty(),
    }) + seq!["latest-remote"@, "latest"@]
}

/// The build links searched, in order, for the primary port of a remote
/// run.
pub fn primary_port_link_names(coastfile_type: Option<&str>) -> (r: Vec<String>)
    ensures
        views(r@) == primary_port_links(
            match coastfile_type {
                Some(t) => Some(t@),
                None => None,
            },
        ),
{
    let mut r: Vec<String> = Vec::new();
    if let Some(t) = coastfile_type {
        if !str_eq(t, "default") {
            let mut l = crate::text::owned("latest-");
            push_str(&mut l, t);
            r.push(l);
        }
    }
    r.push(crate::text::owned("latest-remote"));
    r.push(crate::text::owned("latest"));
    assert(views(r@) =~= primary_port_links(
        match coastfile_type {
            Some(t) => Some(t@),
            None => None,
        },
    ));
    r
}

/// The message of a remote run without a build for the remote's
/// architecture.
pub open spec fn no_build_for_arch_message(remote_arch: Seq<char>, remote_host: Seq<char>) -> Seq<char> {
    "No build found for architecture '"@ + remote_arch
        + "'. Run `coast build --type remote --remote "@ + remote_host
        + "` to build for this architecture."@
}

/// Whether a remote run may go on: when the remote's architecture is
/// unknown, when the latest build is for it, or when another build is;
/// else an error that says how to build for it.
pub fn check_arch_compatibility(
    remote_arch: Option<&str>,
    latest_build_arch: Option<&str>,
    compatible_build: Option<&str>,
    remote_host: &str,
) -> (r: Result<(), CoastError>)
    ensures
        match remote_arch {
            None => r is Ok,
            Some(a) => if (latest_build_arch matches Some(l) && l@ == a@) || compatible_build is Some {
                r is Ok
            } else {
                r matches Err(CoastError::State(m)) && m@ == no_build_for_arch_message(
                    a@,
                    remote_host@,
                )
            },
        },
{
    let a = match remote_arch {
        None => {
            return Ok(());
        },
        Some(a) => a,
    };
    let same = match latest_build_arch {
        Some(l) => str_eq(l, a),
        None => false,
    };
    if same || compatible_build.is_some() {
        return Ok(());
    }
    let mut m = String::new();
    push_str(&mut m, "No build found for architecture '");
    push_str(&mut m, a);
    push_str(&mut m, "'. Run `coast build --type remote --remote ");
    push_str(&mut m, remote_host);
    push_str(&mut m, "` to build for this architecture.");
    Err(CoastError::State(m))
}

} // verus!
