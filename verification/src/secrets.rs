//! Secrets: how stored secrets and per-instance overrides are listed, and
//! the Base64 form in which secret files are written into a container.
use vstd::prelude::*;

use crate::text::{push_char, push_str, str_eq};
use crate::paths::{join_path, path_join};

verus! {

// ---------------------------------------------------------------------------
// Base64
// ---------------------------------------------------------------------------

/// The character of a 6-bit value in the standard Base64 alphabet.
pub open spec fn b64_char(v: nat) -> char {
    if v < 26 {
        (65 + v) as char
    } else if v < 52 {
        (97 + v - 26) as char
    } else if v < 62 {
        (48 + v - 52) as char
    } else if v == 62 {
        '+'
    } else {
        '/'
    }
}

/// Standard Base64 with `=` padding, three bytes at a time.
pub open spec fn base64(s: Seq<u8>) -> Seq<char>
    decreases s.len(),
{
    if s.len() == 0 {
        Seq::empty()
    } else if s.len() == 1 {
        seq![b64_char(s[0] as nat / 4), b64_char((s[0] as nat % 4) * 16), '=', '=']
    } else if s.len() == 2 {
        seq![
            b64_char(s[0] as nat / 4),
            b64_char((s[0] as nat % 4) * 16 + s[1] as nat / 16),
            b64_char((s[1] as nat % 16) * 4),
            '=',
        ]
    } else {
        seq![
            b64_char(s[0] as nat / 4),
            b64_char((s[0] as nat % 4) * 16 + s[1] as nat / 16),
            b64_char((s[1] as nat % 16) * 4 + s[2] as nat / 64),
            b64_char(s[2] as nat % 64),
        ] + base64(s.skip(3))
    }
}

fn b64_char_exec(v: u8) -> (c: char)
    requires
        v < 64,
    ensures
        c == b64_char(v as nat),
{
    if v < 26 {
        (65 + v) as char
    } else if v < 52 {
        (97 + v - 26) as char
    } else if v < 62 {
        (48 + v - 52) as char
    } else if v == 62 {
        '+'
    } else {
        '/'
    }
}

/// Base64-encodes bytes with the standard alphabet and `=` padding.
pub fn base64_encode_bytes(input: &[u8]) -> (r: String)
    ensures
        r@ == base64(input@),
{
    let mut out = String::new();
    let n = input.len();
    let mut i: usize = 0;
    assert(input@.skip(0) =~= input@);
    while i < n
        invariant
            n == input@.len(),
            i <= n,
            out@ + base64(input@.skip(i as int)) == base64(input@),
        decreases n - i,
    {
        let ghost rest = input@.skip(i as int);
        let ghost before = out@;
        let rem = n - i;
        let b0 = input[i];
        let b1 = if rem > 1 {
            input[i + 1]
        } else {
            0
        };
        let b2 = if rem > 2 {
            input[i + 2]
        } else {
            0
        };
        assert(b0 >> 2 == b0 / 4) by (bit_vector);
        assert(((b0 & 3) << 4 | b1 >> 4) == (b0 % 4) * 16 + b1 / 16) by (bit_vector);
        assert(((b1 & 15) << 2 | b2 >> 6) == (b1 % 16) * 4 + b2 / 64) by (bit_vector);
        assert(b2 & 63 == b2 % 64) by (bit_vector);
        push_char(&mut out, b64_char_exec(b0 >> 2));
        push_char(&mut out, b64_char_exec((b0 & 3) << 4 | b1 >> 4));
        if rem > 1 {
            push_char(&mut out, b64_char_exec((b1 & 15) << 2 | b2 >> 6));
        } else {
            push_char(&mut out, '=');
        }
        if rem > 2 {
            push_char(&mut out, b64_char_exec(b2 & 63));
        } else {
            push_char(&mut out, '=');
        }
        proof {
            assert(rest[0] == b0);
            if i + 1 < n {
                assert(rest[1] == b1);
            }
            if i + 2 < n {
                assert(rest[2] == b2);
            }
            if i + 3 <= n {
                assert(rest.skip(3) =~= input@.skip(i + 3));
            }
            if i + 3 >= n {
                assert(input@.skip(n as int) =~= Seq::<u8>::empty());
            }
        }
        if rem >= 3 {
            i = i + 3;
        } else {
            assert(out@ == before + base64(rest));
            i = n;
        }
    }
    assert(input@.skip(n as int) =~= Seq::<u8>::empty());
    out
}

// ---------------------------------------------------------------------------
// Listing secrets
// ---------------------------------------------------------------------------

/// A secret as the keystore holds it (the parts that listings read).
#[derive(Debug)]
pub struct StoredSecret {
    pub secret_name: String,
    pub extractor: String,
    pub inject_type: String,
    pub inject_target: String,
    pub value: Vec<u8>,
}

/// One line of a secret listing.
#[derive(Debug)]
pub struct SecretInfo {
    pub name: String,
    pub extractor: String,
    pub inject: String,
    pub is_override: bool,
}

/// A listing line as plain values: name, extractor, inject spec, override flag.
pub type InfoView = (Seq<char>, Seq<char>, Seq<char>, bool);

/// The view of a listing line.
pub open spec fn info_view(i: SecretInfo) -> InfoView {
    (i.name@, i.extractor@, i.inject@, i.is_override)
}

/// The listing line of a stored secret.
pub open spec fn info_of(s: StoredSecret, is_override: bool) -> InfoView {
    (s.secret_name@, s.extractor@, s.inject_type@ + ":"@ + s.inject_target@, is_override)
}

/// `declared` admits the name (no declaration admits every name).
pub open spec fn declared_allows(declared: Option<Seq<Seq<char>>>, name: Seq<char>) -> bool {
    match declared {
        Some(d) => d.contains(name),
        None => true,
    }
}

/// The listing lines of the base secrets that `declared` admits, in order.
pub open spec fn base_lines(base: Seq<StoredSecret>, declared: Option<Seq<Seq<char>>>) -> Seq<
    InfoView,
>
    decreases base.len(),
{
    if base.len() == 0 {
        Seq::empty()
    } else {
        let prev = base_lines(base.drop_last(), declared);
        if declared_allows(declared, base.last().secret_name@) {
            prev.push(info_of(base.last(), false))
        } else {
            prev
        }
    }
}

/// The listing after the overrides: each override drops the lines of the same
/// name and is appended.
pub open spec fn with_overrides(lines: Seq<InfoView>, overrides: Seq<StoredSecret>) -> Seq<
    InfoView,
>
    decreases overrides.len(),
{
    if overrides.len() == 0 {
        lines
    } else {
        let prev = with_overrides(lines, overrides.drop_last());
        let o = overrides.last();
        prev.filter(|l: InfoView| l.0 != o.secret_name@).push(info_of(o, true))
    }
}

/// The views of the declared names, if any.
pub open spec fn declared_view(declared: Option<Vec<String>>) -> Option<Seq<Seq<char>>> {
    match declared {
        Some(d) => Some(d@.map_values(|s: String| s@)),
        None => None,
    }
}

fn info_line(s: &StoredSecret, is_override: bool) -> (r: SecretInfo)
    ensures
        info_view(r) == info_of(*s, is_override),
{
    let mut inject = String::new();
    push_str(&mut inject, s.inject_type.as_str());
    push_str(&mut inject, ":");
    push_str(&mut inject, s.inject_target.as_str());
    SecretInfo {
        name: s.secret_name.clone(),
        extractor: s.extractor.clone(),
        inject,
        is_override,
    }
}

fn is_declared(declared: &Option<Vec<String>>, name: &str) -> (b: bool)
    ensures
        b == declared_allows(declared_view(*declared), name@),
{
    match declared {
        None => true,
        Some(d) => {
            let ghost dv = d@.map_values(|s: String| s@);
            assert(declared_view(*declared) == Some(dv));
            let mut i: usize = 0;
            while i < d.len()
                invariant
                    i <= d@.len(),
                    dv == d@.map_values(|s: String| s@),
                    declared_view(*declared) == Some(dv),
                    forall|j: int| 0 <= j < i ==> dv[j] != name@,
                decreases d.len() - i,
            {
                if str_eq(d[i].as_str(), name) {
                    assert(dv[i as int] == name@);
                    assert(dv.contains(name@));
                    return true;
                }
                i = i + 1;
            }
            false
        },
    }
}

/// The views of a listing.
pub open spec fn infos_view(v: Seq<SecretInfo>) -> Seq<InfoView> {
    v.map_values(|i: SecretInfo| info_view(i))
}

/// Lists the base secrets that `declared` admits, then applies the
/// per-instance overrides: each replaces any line of the same name and is
/// listed last, marked as an override.
pub fn merge_secrets(
    base: &Vec<StoredSecret>,
    overrides: &Vec<StoredSecret>,
    declared: &Option<Vec<String>>,
) -> (r: Vec<SecretInfo>)
    ensures
        infos_view(r@) == with_overrides(
            base_lines(base@, declared_view(*declared)),
            overrides@,
        ),
{
    let ghost dv = declared_view(*declared);
    let mut secrets: Vec<SecretInfo> = Vec::new();
    let mut i: usize = 0;
    assert(base@.subrange(0, 0) =~= Seq::<StoredSecret>::empty());
    while i < base.len()
        invariant
            i <= base@.len(),
            dv == declared_view(*declared),
            infos_view(secrets@) == base_lines(base@.subrange(0, i as int), dv),
        decreases base.len() - i,
    {
        let s = &base[i];
        assert(base@.subrange(0, i + 1).drop_last() =~= base@.subrange(0, i as int));
        if is_declared(declared, s.secret_name.as_str()) {
            let ghost before = secrets@;
            secrets.push(info_line(s, false));
            assert(infos_view(secrets@) =~= infos_view(before).push(info_of(*s, false)));
        }
        i = i + 1;
    }
    assert(base@.subrange(0, base@.len() as int) =~= base@);
    let ghost lines = infos_view(secrets@);
    let mut k: usize = 0;
    assert(overrides@.subrange(0, 0) =~= Seq::<StoredSecret>::empty());
    while k < overrides.len()
        invariant
            k <= overrides@.len(),
            infos_view(secrets@) == with_overrides(lines, overrides@.subrange(0, k as int)),
        decreases overrides.len() - k,
    {
        let o = &overrides[k];
        let ghost prev = infos_view(secrets@);
        let ghost oname = o.secret_name@;
        let ghost pred = |l: InfoView| l.0 != oname;
        assert(o == overrides@[k as int]);
        let mut kept: Vec<SecretInfo> = Vec::new();
        let mut j: usize = 0;
        let n = secrets.len();
        assert(prev.subrange(0, 0) =~= Seq::<InfoView>::empty());
        while j < n
            invariant
                n == secrets@.len(),
                j <= n,
                oname == o.secret_name@,
                pred == (|l: InfoView| l.0 != oname),
                prev == infos_view(secrets@),
                infos_view(kept@) == prev.subrange(0, j as int).filter(pred),
            decreases n - j,
        {
            let ghost before = kept@;
            assert(prev.subrange(0, j + 1).drop_last() =~= prev.subrange(0, j as int));
            assert(prev[j as int] == info_view(secrets@[j as int]));
            assert(pred(prev[j as int]) == (secrets@[j as int].name@ != oname));
            if !str_eq(secrets[j].name.as_str(), o.secret_name.as_str()) {
                kept.push(
                    SecretInfo {
                        name: secrets[j].name.clone(),
                        extractor: secrets[j].extractor.clone(),
                        inject: secrets[j].inject.clone(),
                        is_override: secrets[j].is_override,
                    },
                );
                assert(infos_view(kept@) =~= infos_view(before).push(prev[j as int]));
            }
            proof {
                prev.subrange(0, j as int).lemma_filter_push(prev[j as int], pred);
                assert(prev.subrange(0, j as int).push(prev[j as int]) =~= prev.subrange(
                    0,
                    j + 1,
                ));
            }
            j = j + 1;
        }
        assert(prev.subrange(0, n as int) =~= prev);
        assert(pred =~= (|l: InfoView| l.0 != overrides@.subrange(0, k + 1).last().secret_name@));
        let ghost before_push = kept@;
        kept.push(info_line(o, true));
        assert(infos_view(kept@) =~= infos_view(before_push).push(info_of(*o, true)));
        assert(overrides@.subrange(0, k + 1).drop_last() =~= overrides@.subrange(0, k as int));
        secrets = kept;
        k = k + 1;
    }
    assert(overrides@.subrange(0, overrides@.len() as int) =~= overrides@);
    secrets
}

// ---------------------------------------------------------------------------
// Secrets injected into an instance
// ---------------------------------------------------------------------------

/// A secret ready to be injected: name, how and where, and its value.
#[derive(Debug)]
pub struct ResolvedSecret {
    pub name: String,
    pub inject_type: String,
    pub inject_target: String,
    pub value: Vec<u8>,
}

/// A resolved secret as plain values.
pub type ResolvedView = (Seq<char>, Seq<char>, Seq<char>, Seq<u8>);

/// The view of a resolved secret.
pub open spec fn resolved_view(r: ResolvedSecret) -> ResolvedView {
    (r.name@, r.inject_type@, r.inject_target@, r.value@)
}

/// The resolved form of a stored secret.
pub open spec fn resolved_of(s: StoredSecret) -> ResolvedView {
    (s.secret_name@, s.inject_type@, s.inject_target@, s.value@)
}

/// The stored secrets whose names are declared, resolved, in order.
pub fn filter_declared_resolved_secrets(secrets: &Vec<StoredSecret>, declared_names: &Vec<String>) -> (r:
    Vec<ResolvedSecret>)
    ensures
        r@.map_values(|x: ResolvedSecret| resolved_view(x)) == secrets@.filter(
            |s: StoredSecret| declared_names@.map_values(|n: String| n@).contains(s.secret_name@),
        ).map_values(|s: StoredSecret| resolved_of(s)),
{
    let ghost dn = declared_names@.map_values(|n: String| n@);
    let ghost pred = |s: StoredSecret| dn.contains(s.secret_name@);
    let ghost f = |s: StoredSecret| resolved_of(s);
    let declared = Some(declared_names.clone());
    let mut out: Vec<ResolvedSecret> = Vec::new();
    let mut i: usize = 0;
    while i < secrets.len()
        invariant
            i <= secrets@.len(),
            dn == declared_names@.map_values(|n: String| n@),
            declared_view(declared) == Some(dn),
            pred == (|s: StoredSecret| dn.contains(s.secret_name@)),
            f == (|s: StoredSecret| resolved_of(s)),
            out@.map_values(|x: ResolvedSecret| resolved_view(x)) == secrets@.subrange(
                0,
                i as int,
            ).filter(pred).map_values(f),
        decreases secrets.len() - i,
    {
        let s = &secrets[i];
        let ghost pre = secrets@.subrange(0, i as int);
        assert(secrets@.subrange(0, i + 1) =~= pre.push(*s));
        proof {
            pre.lemma_filter_push(*s, pred);
        }
        if is_declared(&declared, s.secret_name.as_str()) {
            let r = ResolvedSecret {
                name: s.secret_name.clone(),
                inject_type: s.inject_type.clone(),
                inject_target: s.inject_target.clone(),
                value: s.value.clone(),
            };
            let ghost before = out@;
            out.push(r);
            assert(out@.map_values(|x: ResolvedSecret| resolved_view(x)) =~= before.map_values(
                |x: ResolvedSecret| resolved_view(x),
            ).push(resolved_of(*s)));
            assert(pre.filter(pred).push(*s).map_values(f) =~= pre.filter(pred).map_values(f).push(
                resolved_of(*s),
            ));
        }
        i = i + 1;
    }
    assert(secrets@.subrange(0, secrets@.len() as int) =~= secrets@);
    out
}

// ---------------------------------------------------------------------------
// Extracting secrets at build time
// ---------------------------------------------------------------------------

/// Where a secret is injected: an environment variable or a file path.
#[derive(Debug)]
pub enum InjectTarget {
    Env(String),
    File(String),
}

/// The inject type and target that the keystore records.
pub fn inject_parts(target: &InjectTarget) -> (r: (&'static str, String))
    ensures
        match target {
            InjectTarget::Env(n) => r.0@ == "env"@ && r.1@ == n@,
            InjectTarget::File(p) => r.0@ == "file"@ && r.1@ == p@,
        },
{
    match target {
        InjectTarget::Env(n) => ("env", n.clone()),
        InjectTarget::File(p) => ("file", p.clone()),
    }
}

/// An extractor's `path` parameter with a relative path resolved against
/// the project root; an absolute path is kept.
pub fn resolved_secret_path(project_root: &str, path: &str) -> (r: String)
    ensures
        r@ == crate::paths::path_join(project_root@, path@),
{
    crate::paths::join_path(project_root, path)
}

/// The progress label of a secret: `{extractor} -> {target}`.
pub fn secret_progress_label(extractor: &str, target: &str) -> (r: String)
    ensures
        r@ == extractor@ + " -> "@ + target@,
{
    let mut r = String::new();
    push_str(&mut r, extractor);
    push_str(&mut r, " -> ");
    push_str(&mut r, target);
    r
}

/// What happened to one configured secret.
#[derive(Debug)]
pub enum SecretOutcome {
    /// Extracted and stored in the keystore.
    Stored,
    /// Extracted, but the keystore refused it.
    StoreFailed(String),
    /// The extractor failed.
    ExtractFailed(String),
}

/// The tally of a build's secret extraction.
#[derive(Debug)]
pub struct SecretExtraction {
    pub secrets_extracted: usize,
    pub warnings: Vec<String>,
}

/// The warning of a secret that could not be stored or extracted.
pub open spec fn outcome_warning(name: Seq<char>, extractor: Seq<char>, outcome: SecretOutcome) -> Option<
    Seq<char>,
> {
    match outcome {
        SecretOutcome::Stored => None,
        SecretOutcome::StoreFailed(e) => Some("Failed to store secret '"@ + name + "': "@ + e@),
        SecretOutcome::ExtractFailed(e) => Some(
            "Failed to extract secret '"@ + name + "' using extractor '"@ + extractor + "': "@
                + e@,
        ),
    }
}

/// How many of the secrets were stored.
pub open spec fn stored_count(results: Seq<(String, String, SecretOutcome)>) -> nat
    decreases results.len(),
{
    if results.len() == 0 {
        0
    } else {
        let r = results.last();
        stored_count(results.drop_last()) + if outcome_warning(r.0@, r.1@, r.2) is None {
            1nat
        } else {
            0nat
        }
    }
}

/// The warnings of the secrets that were not stored, in order.
pub open spec fn result_warnings(results: Seq<(String, String, SecretOutcome)>) -> Seq<Seq<char>>
    decreases results.len(),
{
    if results.len() == 0 {
        Seq::empty()
    } else {
        let r = results.last();
        result_warnings(results.drop_last()) + match outcome_warning(r.0@, r.1@, r.2) {
            Some(w) => seq![w],
            None => Seq::empty(),
        }
    }
}

/// Every secret is either counted as extracted or gives one warning.
pub proof fn law_every_secret_counted_or_warned(results: Seq<(String, String, SecretOutcome)>)
    ensures
        stored_count(results) + result_warnings(results).len() == results.len(),
    decreases results.len(),
{
    if results.len() > 0 {
        law_every_secret_counted_or_warned(results.drop_last());
    }
}

impl SecretExtraction {
    /// Nothing extracted yet.
    pub fn new() -> (r: SecretExtraction)
        ensures
            r.secrets_extracted == 0,
            r.warnings@.len() == 0,
    {
        SecretExtraction { secrets_extracted: 0, warnings: Vec::new() }
    }

    /// Counts a stored secret, or records the warning of a failed one.
    pub fn record(&mut self, secret_name: &str, extractor: &str, outcome: SecretOutcome)
        requires
            old(self).secrets_extracted < usize::MAX,
        ensures
            match outcome_warning(secret_name@, extractor@, outcome) {
                None => final(self).secrets_extracted == old(self).secrets_extracted + 1
                    && final(self).warnings@ == old(self).warnings@,
                Some(w) => final(self).secrets_extracted == old(self).secrets_extracted
                    && crate::text::views(final(self).warnings@) == crate::text::views(
                    old(self).warnings@,
                ).push(w),
            },
    {
        let mut m = String::new();
        match outcome {
            SecretOutcome::Stored => {
                self.secrets_extracted = self.secrets_extracted + 1;
                return;
            },
            SecretOutcome::StoreFailed(e) => {
                push_str(&mut m, "Failed to store secret '");
                push_str(&mut m, secret_name);
                push_str(&mut m, "': ");
                push_str(&mut m, e.as_str());
            },
            SecretOutcome::ExtractFailed(e) => {
                push_str(&mut m, "Failed to extract secret '");
                push_str(&mut m, secret_name);
                push_str(&mut m, "' using extractor '");
                push_str(&mut m, extractor);
                push_str(&mut m, "': ");
                push_str(&mut m, e.as_str());
            },
        }
        let ghost before = self.warnings@;
        self.warnings.push(m);
        assert(crate::text::views(self.warnings@) =~= crate::text::views(before).push(m@));
    }

    /// Tallies the outcomes of the declared secrets in order (name,
    /// extractor, outcome), after what was recorded so far.
    pub fn record_all(&mut self, results: Vec<(String, String, SecretOutcome)>)
        requires
            old(self).secrets_extracted + results@.len() <= usize::MAX,
        ensures
            final(self).secrets_extracted == old(self).secrets_extracted + stored_count(results@),
            crate::text::views(final(self).warnings@) == crate::text::views(old(self).warnings@)
                + result_warnings(results@),
    {
        let ghost start = self.secrets_extracted;
        let ghost w0 = crate::text::views(self.warnings@);
        let mut i: usize = 0;
        while i < results.len()
            invariant
                i <= results@.len(),
                start + results@.len() <= usize::MAX,
                self.secrets_extracted == start + stored_count(results@.subrange(0, i as int)),
                stored_count(results@.subrange(0, i as int)) <= i,
                crate::text::views(self.warnings@) == w0 + result_warnings(results@.subrange(0, i as int)),
            decreases results.len() - i,
        {
            let r = &results[i];
            let outcome = match &r.2 {
                SecretOutcome::Stored => SecretOutcome::Stored,
                SecretOutcome::StoreFailed(e) => SecretOutcome::StoreFailed(e.clone()),
                SecretOutcome::ExtractFailed(e) => SecretOutcome::ExtractFailed(e.clone()),
            };
            assert(outcome_warning(r.0@, r.1@, outcome) == outcome_warning(r.0@, r.1@, r.2));
            assert(results@.subrange(0, i + 1).drop_last() =~= results@.subrange(0, i as int));
            assert(results@.subrange(0, i + 1).last() == results@[i as int]);
            self.record(r.0.as_str(), r.1.as_str(), outcome);
            i = i + 1;
        }
        assert(results@.subrange(0, results@.len() as int) =~= results@);
    }

    /// Records that the keystore could not be opened: nothing is stored.
    pub fn keystore_unavailable(&mut self, error: &str)
        ensures
            final(self).secrets_extracted == old(self).secrets_extracted,
            crate::text::views(final(self).warnings@) == crate::text::views(old(self).warnings@).push(
                "Failed to open keystore: "@ + error@ + ". Secrets will not be stored."@,
            ),
    {
        let mut m = String::new();
        push_str(&mut m, "Failed to open keystore: ");
        push_str(&mut m, error);
        push_str(&mut m, ". Secrets will not be stored.");
        let ghost before = self.warnings@;
        self.warnings.push(m);
        assert(crate::text::views(self.warnings@) =~= crate::text::views(before).push(m@));
    }

    /// Records that the old secrets of the project could not be cleared.
    pub fn clear_failed(&mut self, project: &str, error: &str)
        ensures
            final(self).secrets_extracted == old(self).secrets_extracted,
            crate::text::views(final(self).warnings@) == crate::text::views(old(self).warnings@).push(
                "Failed to clear old secrets for '"@ + project@ + "': "@ + error@,
            ),
    {
        let mut m = String::new();
        push_str(&mut m, "Failed to clear old secrets for '");
        push_str(&mut m, project);
        push_str(&mut m, "': ");
        push_str(&mut m, error);
        let ghost before = self.warnings@;
        self.warnings.push(m);
        assert(crate::text::views(self.warnings@) =~= crate::text::views(before).push(m@));
    }
}

// ---------------------------------------------------------------------------
// Keystore location
// ---------------------------------------------------------------------------

/// The keystore database and key files under a home directory:
/// `.coast/keystore.db` and `.coast/keystore.key`, joined as paths are.
pub fn keystore_paths(home: &str) -> (r: (String, String))
    ensures
        r.0@ == path_join(path_join(home@, ".coast"@), "keystore.db"@),
        r.1@ == path_join(path_join(home@, ".coast"@), "keystore.key"@),
{
    let dir = join_path(home, ".coast");
    (join_path(dir.as_str(), "keystore.db"), join_path(dir.as_str(), "keystore.key"))
}

// ---------------------------------------------------------------------------
// Laws
// ---------------------------------------------------------------------------

/// The last override is listed last, as an override, and no other line
/// carries its name.
pub proof fn law_last_override_listed_once(lines: Seq<InfoView>, overrides: Seq<StoredSecret>)
    requires
        overrides.len() > 0,
    ensures
        with_overrides(lines, overrides).last() == info_of(overrides.last(), true),
        forall|i: int|
            0 <= i < with_overrides(lines, overrides).len() - 1 ==> (#[trigger] with_overrides(
                lines,
                overrides,
            )[i]).0 != overrides.last().secret_name@,
{
    let prev = with_overrides(lines, overrides.drop_last());
    let o = overrides.last();
    let pred = |l: InfoView| l.0 != o.secret_name@;
    let w = with_overrides(lines, overrides);
    assert forall|i: int| 0 <= i < w.len() - 1 implies (#[trigger] w[i]).0 != o.secret_name@ by {
        assert(w[i] == prev.filter(pred)[i]);
        prev.lemma_filter_pred(pred, i);
    }
}

/// A listed base line stays listed when no override has its name.
pub proof fn law_base_kept_unless_overridden(
    lines: Seq<InfoView>,
    overrides: Seq<StoredSecret>,
    l: InfoView,
)
    requires
        lines.contains(l),
        forall|j: int| 0 <= j < overrides.len() ==> (#[trigger] overrides[j]).secret_name@ != l.0,
    ensures
        with_overrides(lines, overrides).contains(l),
    decreases overrides.len(),
{
    if overrides.len() > 0 {
        let o = overrides.last();
        assert forall|j: int| 0 <= j < overrides.drop_last().len() implies (
        #[trigger] overrides.drop_last()[j]).secret_name@ != l.0 by {
            assert(overrides.drop_last()[j] == overrides[j]);
        }
        law_base_kept_unless_overridden(lines, overrides.drop_last(), l);
        let prev = with_overrides(lines, overrides.drop_last());
        let pred = |x: InfoView| x.0 != o.secret_name@;
        let i = choose|i: int| 0 <= i < prev.len() && prev[i] == l;
        prev.lemma_filter_contains(pred, i);
        let f = prev.filter(pred);
        let fi = choose|fi: int| 0 <= fi < f.len() && f[fi] == l;
        assert(with_overrides(lines, overrides)[fi] == l);
    }
}

/// Every listed line that carries the name of some override is an override
/// line: the base line of that name is gone.
pub proof fn law_overridden_names_come_from_overrides(
    lines: Seq<InfoView>,
    overrides: Seq<StoredSecret>,
)
    requires
        forall|i: int| 0 <= i < lines.len() ==> !(#[trigger] lines[i]).3,
    ensures
        forall|i: int, j: int|
            0 <= i < with_overrides(lines, overrides).len() && 0 <= j < overrides.len() && (
            #[trigger] with_overrides(lines, overrides)[i]).0 == (#[trigger] overrides[j]).secret_name@
                ==> with_overrides(lines, overrides)[i].3,
    decreases overrides.len(),
{
    if overrides.len() > 0 {
        let t = overrides.drop_last();
        law_overridden_names_come_from_overrides(lines, t);
        law_override_flags(lines, t);
        let prev = with_overrides(lines, t);
        let o = overrides.last();
        let pred = |x: InfoView| x.0 != o.secret_name@;
        let f = prev.filter(pred);
        let w = with_overrides(lines, overrides);
        assert forall|i: int, j: int|
            0 <= i < w.len() && 0 <= j < overrides.len() && (#[trigger] w[i]).0 == (
            #[trigger] overrides[j]).secret_name@ implies w[i].3 by {
            if i < w.len() - 1 {
                assert(w[i] == f[i]);
                prev.lemma_filter_pred(pred, i);
                assert(f.contains(f[i]));
                prev.lemma_filter_contains_rev(pred, f[i]);
                let pi = choose|pi: int| 0 <= pi < prev.len() && prev[pi] == f[i];
                if j < t.len() {
                    assert(t[j] == overrides[j]);
                    assert(prev[pi].0 == t[j].secret_name@);
                }
            }
        }
    }
}

/// Override lines come only from overrides: a line not in the base listing
/// is an override line.
proof fn law_override_flags(lines: Seq<InfoView>, overrides: Seq<StoredSecret>)
    ensures
        forall|i: int|
            0 <= i < with_overrides(lines, overrides).len() ==> lines.contains(
                #[trigger] with_overrides(lines, overrides)[i],
            ) || with_overrides(lines, overrides)[i].3,
    decreases overrides.len(),
{
    if overrides.len() > 0 {
        let t = overrides.drop_last();
        law_override_flags(lines, t);
        let prev = with_overrides(lines, t);
        let o = overrides.last();
        let pred = |x: InfoView| x.0 != o.secret_name@;
        let f = prev.filter(pred);
        let w = with_overrides(lines, overrides);
        assert forall|i: int| 0 <= i < w.len() implies lines.contains(#[trigger] w[i]) || w[i].3 by {
            if i < w.len() - 1 {
                assert(w[i] == f[i]);
                assert(f.contains(f[i]));
                prev.lemma_filter_contains_rev(pred, f[i]);
                let pi = choose|pi: int| 0 <= pi < prev.len() && prev[pi] == f[i];
                assert(lines.contains(prev[pi]) || prev[pi].3);
            }
        }
    }
}

/// The names of secrets.
pub open spec fn secret_names(v: Seq<StoredSecret>) -> Seq<Seq<char>> {
    v.map_values(|o: StoredSecret| o.secret_name@)
}

/// Filtering twice keeps what both conditions keep.
proof fn lemma_filter_twice(s: Seq<InfoView>, p: spec_fn(InfoView) -> bool, q: spec_fn(InfoView) -> bool)
    ensures
        s.filter(p).filter(q) == s.filter(|x: InfoView| p(x) && q(x)),
    decreases s.len(),
{
    let pq = |x: InfoView| p(x) && q(x);
    if s.len() == 0 {
        reveal(Seq::filter);
        assert(s.filter(p) =~= s);
        assert(s.filter(p).filter(q) =~= s);
        assert(s.filter(pq) =~= s);
    } else {
        let init = s.drop_last();
        lemma_filter_twice(init, p, q);
        assert(init.push(s.last()) =~= s);
        init.lemma_filter_push(s.last(), p);
        init.lemma_filter_push(s.last(), pq);
        init.filter(p).lemma_filter_push(s.last(), q);
    }
}

/// Lines that all pass a filter are kept whole.
proof fn lemma_filter_all(s: Seq<InfoView>, p: spec_fn(InfoView) -> bool)
    requires
        forall|i: int| 0 <= i < s.len() ==> p(#[trigger] s[i]),
    ensures
        s.filter(p) == s,
    decreases s.len(),
{
    if s.len() == 0 {
        reveal(Seq::filter);
        assert(s.filter(p) =~= s);
    } else {
        let init = s.drop_last();
        assert forall|i: int| 0 <= i < init.len() implies p(#[trigger] init[i]) by {
            assert(init[i] == s[i]);
        }
        lemma_filter_all(init, p);
        assert(init.push(s.last()) =~= s);
        init.lemma_filter_push(s.last(), p);
        assert(p(s[s.len() - 1]));
    }
}

/// With overrides of distinct names, the listing is the lines of no
/// overridden name, in order, then the overrides, in order.
pub proof fn law_overrides_follow_the_kept_lines(lines: Seq<InfoView>, overrides: Seq<StoredSecret>)
    requires
        secret_names(overrides).no_duplicates(),
    ensures
        with_overrides(lines, overrides) == lines.filter(|l: InfoView| !secret_names(overrides).contains(l.0))
            + overrides.map_values(|o: StoredSecret| info_of(o, true)),
    decreases overrides.len(),
{
    let names = secret_names(overrides);
    let infos = overrides.map_values(|o: StoredSecret| info_of(o, true));
    if overrides.len() == 0 {
        lemma_filter_all(lines, |l: InfoView| !names.contains(l.0));
        assert(infos =~= Seq::<InfoView>::empty());
        assert(lines + infos =~= lines);
    } else {
        let init = overrides.drop_last();
        let o = overrides.last();
        let init_names = secret_names(init);
        let init_infos = init.map_values(|x: StoredSecret| info_of(x, true));
        assert(init_names =~= names.drop_last());
        assert forall|a: int, b: int| 0 <= a < b < init_names.len() implies init_names[a] != init_names[b] by {
            assert(names[a] == init_names[a]);
            assert(names[b] == init_names[b]);
        }
        law_overrides_follow_the_kept_lines(lines, init);
        let not_init = |l: InfoView| !init_names.contains(l.0);
        let other = |l: InfoView| l.0 != o.secret_name@;
        let kept = lines.filter(not_init);
        Seq::filter_distributes_over_add(kept, init_infos, other);
        lemma_filter_twice(lines, not_init, other);
        assert forall|i: int| 0 <= i < init_infos.len() implies other(#[trigger] init_infos[i]) by {
            assert(init_infos[i].0 == names[i]);
            assert(names[overrides.len() - 1] == o.secret_name@);
        }
        lemma_filter_all(init_infos, other);
        let both = |x: InfoView| not_init(x) && other(x);
        let not_all = |l: InfoView| !names.contains(l.0);
        assert forall|x: InfoView| #[trigger] both(x) == not_all(x) by {
            if names.contains(x.0) {
                let j = choose|j: int| 0 <= j < names.len() && names[j] == x.0;
                if j < names.len() - 1 {
                    assert(init_names[j] == x.0);
                }
            }
            if init_names.contains(x.0) {
                let j = choose|j: int| 0 <= j < init_names.len() && init_names[j] == x.0;
                assert(names[j] == x.0);
            }
            if x.0 == o.secret_name@ {
                assert(names[names.len() - 1] == x.0);
            }
        }
        assert(both =~= not_all);
        assert(infos =~= init_infos.push(info_of(o, true)));
        assert(lines.filter(not_all) + infos =~= (lines.filter(both) + init_infos).push(info_of(o, true)));
    }
}

/// A character of the standard Base64 alphabet: `A`-`Z`, `a`-`z`, `0`-`9`,
/// `+` and `/`.
pub open spec fn is_base64_char(c: char) -> bool {
    let n = c as int;
    (65 <= n <= 90) || (97 <= n <= 122) || (48 <= n <= 57) || c == '+' || c == '/'
}

/// Every 6-bit value has a character of the alphabet.
proof fn lemma_b64_char(v: nat)
    requires
        v < 64,
    ensures
        is_base64_char(b64_char(v)),
{
}

/// The Base64 text of `n` bytes has `4 * ceil(n / 3)` characters: those of
/// the alphabet, then as many `=` as the last group of three lacks.
pub proof fn law_base64_shape(s: Seq<u8>)
    ensures
        base64(s).len() == 4 * ((s.len() + 2) / 3),
        forall|i: int|
            0 <= i < base64(s).len() - (3 - s.len() % 3) % 3 ==> is_base64_char(#[trigger] base64(s)[i]),
        forall|i: int|
            base64(s).len() - (3 - s.len() % 3) % 3 <= i < base64(s).len() ==> #[trigger] base64(s)[i] == '=',
    decreases s.len(),
{
    if s.len() >= 1 {
        lemma_b64_char(s[0] as nat / 4);
    }
    if s.len() == 1 {
        lemma_b64_char((s[0] as nat % 4) * 16);
    }
    if s.len() >= 2 {
        lemma_b64_char((s[0] as nat % 4) * 16 + s[1] as nat / 16);
    }
    if s.len() == 2 {
        lemma_b64_char((s[1] as nat % 16) * 4);
    }
    if s.len() >= 3 {
        lemma_b64_char((s[1] as nat % 16) * 4 + s[2] as nat / 64);
        lemma_b64_char(s[2] as nat % 64);
        let rest = s.skip(3);
        law_base64_shape(rest);
        let head = seq![
            b64_char(s[0] as nat / 4),
            b64_char((s[0] as nat % 4) * 16 + s[1] as nat / 16),
            b64_char((s[1] as nat % 16) * 4 + s[2] as nat / 64),
            b64_char(s[2] as nat % 64),
        ];
        assert(base64(s) == head + base64(rest));
        assert(rest.len() % 3 == s.len() % 3);
        assert forall|i: int|
            0 <= i < base64(s).len() - (3 - s.len() % 3) % 3 implies is_base64_char(#[trigger] base64(s)[i]) by {
            if i >= 4 {
                assert(base64(s)[i] == base64(rest)[i - 4]);
            }
        }
        assert forall|i: int|
            base64(s).len() - (3 - s.len() % 3) % 3 <= i < base64(s).len() implies #[trigger] base64(s)[i] == '=' by {
            assert(base64(s)[i] == base64(rest)[i - 4]);
        }
    }
}

/// The 6-bit value of a character of the Base64 alphabet.
pub open spec fn b64_value(c: char) -> nat {
    let n = c as int;
    if 65 <= n <= 90 {
        (n - 65) as nat
    } else if 97 <= n <= 122 {
        (n - 71) as nat
    } else if 48 <= n <= 57 {
        (n + 4) as nat
    } else if c == '+' {
        62
    } else {
        63
    }
}

/// Standard Base64 decoding of a text made of groups of four characters,
/// `=` padding the last group.
pub open spec fn base64_decode(t: Seq<char>) -> Seq<u8>
    decreases t.len(),
{
    if t.len() < 4 {
        Seq::empty()
    } else {
        let v0 = b64_value(t[0]);
        let v1 = b64_value(t[1]);
        let v2 = b64_value(t[2]);
        let v3 = b64_value(t[3]);
        let x0 = (v0 * 4 + v1 / 16) as u8;
        let x1 = ((v1 % 16) * 16 + v2 / 4) as u8;
        let x2 = ((v2 % 4) * 64 + v3) as u8;
        let group = if t[2] == '=' {
            seq![x0]
        } else if t[3] == '=' {
            seq![x0, x1]
        } else {
            seq![x0, x1, x2]
        };
        group + base64_decode(t.skip(4))
    }
}

/// Each 6-bit value is read back from its character, which is not `=`.
proof fn lemma_b64_value(v: nat)
    requires
        v < 64,
    ensures
        b64_value(b64_char(v)) == v,
        b64_char(v) != '=',
{
}

/// The bytes of a group of three are read back from its four values.
proof fn lemma_b64_group(b0: u8, b1: u8, b2: u8)
    ensures
        (b0 / 4) * 4 + ((b0 % 4) * 16 + b1 / 16) / 16 == b0,
        (((b0 % 4) * 16 + b1 / 16) % 16) * 16 + ((b1 % 16) * 4 + b2 / 64) / 4 == b1,
        (((b1 % 16) * 4 + b2 / 64) % 4) * 64 + b2 % 64 == b2,
        (b0 / 4) * 4 + ((b0 % 4) * 16) / 16 == b0,
        (((b0 % 4) * 16 + b1 / 16) % 16) * 16 + ((b1 % 16) * 4) / 4 == b1,
{
    assert((b0 / 4) * 4 + ((b0 % 4) * 16 + b1 / 16) / 16 == b0) by (bit_vector);
    assert((((b0 % 4) * 16 + b1 / 16) % 16) * 16 + ((b1 % 16) * 4 + b2 / 64) / 4 == b1) by (bit_vector);
    assert((((b1 % 16) * 4 + b2 / 64) % 4) * 64 + b2 % 64 == b2) by (bit_vector);
    assert((b0 / 4) * 4 + ((b0 % 4) * 16) / 16 == b0) by (bit_vector);
    assert((((b0 % 4) * 16 + b1 / 16) % 16) * 16 + ((b1 % 16) * 4) / 4 == b1) by (bit_vector);
}

/// Decoding the Base64 text of some bytes gives the bytes back.
pub proof fn law_base64_decodes_back(s: Seq<u8>)
    ensures
        base64_decode(base64(s)) == s,
    decreases s.len(),
{
    let t = base64(s);
    if s.len() == 0 {
        assert(base64_decode(t) =~= s);
    } else {
        let b0 = s[0];
        let b1: u8 = if s.len() >= 2 { s[1] } else { 0 };
        let b2: u8 = if s.len() >= 3 { s[2] } else { 0 };
        lemma_b64_group(b0, b1, b2);
        lemma_b64_value(b0 as nat / 4);
        lemma_b64_value((b0 as nat % 4) * 16 + b1 as nat / 16);
        lemma_b64_value((b0 as nat % 4) * 16);
        lemma_b64_value((b1 as nat % 16) * 4 + b2 as nat / 64);
        lemma_b64_value((b1 as nat % 16) * 4);
        lemma_b64_value(b2 as nat % 64);
        let v0 = b64_value(t[0]);
        let v1 = b64_value(t[1]);
        let v2 = b64_value(t[2]);
        let v3 = b64_value(t[3]);
        if s.len() == 1 {
            assert(v0 == b0 as nat / 4);
            assert(v1 == (b0 as nat % 4) * 16);
            assert(v0 * 4 + v1 / 16 == b0);
            assert(t.skip(4) =~= Seq::<char>::empty());
            assert(base64_decode(t.skip(4)) =~= Seq::<u8>::empty());
            assert(base64_decode(t) =~= seq![(v0 * 4 + v1 / 16) as u8]);
            assert(base64_decode(t) =~= s);
        } else if s.len() == 2 {
            assert(v0 == b0 as nat / 4);
            assert(v1 == (b0 as nat % 4) * 16 + b1 as nat / 16);
            assert(v2 == (b1 as nat % 16) * 4);
            assert(v0 * 4 + v1 / 16 == b0);
            assert((v1 % 16) * 16 + v2 / 4 == b1);
            assert(t.skip(4) =~= Seq::<char>::empty());
            assert(base64_decode(t.skip(4)) =~= Seq::<u8>::empty());
            assert(base64_decode(t) =~= seq![(v0 * 4 + v1 / 16) as u8, ((v1 % 16) * 16 + v2 / 4) as u8]);
            assert(base64_decode(t) =~= s);
        } else {
            let rest = s.skip(3);
            law_base64_decodes_back(rest);
            assert(t.skip(4) =~= base64(rest));
            assert(s =~= seq![b0, b1, b2] + rest);
            assert(base64_decode(t) =~= s);
        }
    }
}

/// The listing line of a stored secret, written out: its name, its
/// extractor, `<inject type>:<inject target>`, and whether it overrides.
pub open spec fn describes(l: InfoView, s: StoredSecret, is_override: bool) -> bool {
    l == (s.secret_name@, s.extractor@, s.inject_type@ + ":"@ + s.inject_target@, is_override)
}

/// Every base line describes a base secret.
proof fn lemma_base_lines_describe(base: Seq<StoredSecret>, declared: Option<Seq<Seq<char>>>)
    ensures
        forall|i: int|
            0 <= i < base_lines(base, declared).len() ==> exists|j: int|
                0 <= j < base.len() && describes(#[trigger] base_lines(base, declared)[i], base[j], false),
    decreases base.len(),
{
    if base.len() > 0 {
        let init = base.drop_last();
        lemma_base_lines_describe(init, declared);
        let prev = base_lines(init, declared);
        let r = base_lines(base, declared);
        assert forall|i: int| 0 <= i < r.len() implies exists|j: int|
            0 <= j < base.len() && describes(#[trigger] r[i], base[j], false) by {
            if i < prev.len() {
                assert(r[i] == prev[i]);
                let j = choose|j: int| 0 <= j < init.len() && describes(prev[i], init[j], false);
                assert(base[j] == init[j]);
            } else {
                assert(r[i] == info_of(base.last(), false));
                assert(describes(r[i], base[base.len() - 1], false));
            }
        }
    }
}

/// Every line after the overrides describes a line it started from or an
/// override.
proof fn lemma_override_lines_describe(lines: Seq<InfoView>, overrides: Seq<StoredSecret>, i: int)
    requires
        0 <= i < with_overrides(lines, overrides).len(),
    ensures
        lines.contains(with_overrides(lines, overrides)[i]) || exists|j: int|
            0 <= j < overrides.len() && describes(with_overrides(lines, overrides)[i], overrides[j], true),
    decreases overrides.len(),
{
    if overrides.len() > 0 {
        let init = overrides.drop_last();
        let o = overrides.last();
        let prev = with_overrides(lines, init);
        let pred = |l: InfoView| l.0 != o.secret_name@;
        let f = prev.filter(pred);
        let r = with_overrides(lines, overrides);
        if i < f.len() {
            assert(r[i] == f[i]);
            assert(f.contains(f[i]));
            prev.lemma_filter_contains_rev(pred, f[i]);
            let q = choose|q: int| 0 <= q < prev.len() && prev[q] == f[i];
            lemma_override_lines_describe(lines, init, q);
            if !lines.contains(prev[q]) {
                let j = choose|j: int| 0 <= j < init.len() && describes(prev[q], init[j], true);
                assert(overrides[j] == init[j]);
            }
        } else {
            assert(r[i] == info_of(o, true));
            assert(describes(r[i], overrides[overrides.len() - 1], true));
        }
    }
}

/// Each line of a secret listing describes a stored secret: a base secret,
/// marked as no override, or an override, marked as one; its inject field
/// is that secret's inject type and target joined by `:`.
pub proof fn law_listing_lines_describe_secrets(
    base: Seq<StoredSecret>,
    overrides: Seq<StoredSecret>,
    declared: Option<Seq<Seq<char>>>,
)
    ensures
        forall|i: int|
            0 <= i < with_overrides(base_lines(base, declared), overrides).len() ==> (exists|j: int|
                0 <= j < base.len() && describes(
                    #[trigger] with_overrides(base_lines(base, declared), overrides)[i],
                    base[j],
                    false,
                )) || (exists|j: int|
                0 <= j < overrides.len() && describes(
                    with_overrides(base_lines(base, declared), overrides)[i],
                    overrides[j],
                    true,
                )),
{
    let lines = base_lines(base, declared);
    let r = with_overrides(lines, overrides);
    lemma_base_lines_describe(base, declared);
    assert forall|i: int| 0 <= i < r.len() implies (exists|j: int|
        0 <= j < base.len() && describes(#[trigger] r[i], base[j], false)) || (exists|j: int|
        0 <= j < overrides.len() && describes(r[i], overrides[j], true)) by {
        lemma_override_lines_describe(lines, overrides, i);
        if lines.contains(r[i]) {
            let q = choose|q: int| 0 <= q < lines.len() && lines[q] == r[i];
            assert(exists|j: int| 0 <= j < base.len() && describes(lines[q], base[j], false));
        }
    }
}

/// What the injection of the declared secrets gives, as
/// `filter_declared_resolved_secrets` states it.
pub open spec fn injected_of(secrets: Seq<StoredSecret>, declared: Seq<Seq<char>>) -> Seq<ResolvedView> {
    secrets.filter(|s: StoredSecret| declared.contains(s.secret_name@)).map_values(|s: StoredSecret| resolved_of(s))
}

/// The secrets injected into an instance are exactly its stored secrets
/// whose names are declared: each keeps its name, inject type, inject
/// target and value, and each declared stored secret is among them.
pub proof fn law_injected_secrets_are_the_declared_ones(secrets: Seq<StoredSecret>, declared: Seq<Seq<char>>)
    ensures
        injected_of(secrets, declared) == secrets.filter(|s: StoredSecret| declared.contains(s.secret_name@)).map_values(
            |s: StoredSecret| (s.secret_name@, s.inject_type@, s.inject_target@, s.value@),
        ),
        forall|i: int|
            0 <= i < injected_of(secrets, declared).len() ==> declared.contains(
                (#[trigger] injected_of(secrets, declared)[i]).0,
            ),
        forall|j: int|
            0 <= j < secrets.len() && declared.contains(#[trigger] secrets[j].secret_name@) ==> injected_of(
                secrets,
                declared,
            ).contains(
                (secrets[j].secret_name@, secrets[j].inject_type@, secrets[j].inject_target@, secrets[j].value@),
            ),
{
    let pred = |s: StoredSecret| declared.contains(s.secret_name@);
    let f = secrets.filter(pred);
    let r = f.map_values(|s: StoredSecret| resolved_of(s));
    assert(r == injected_of(secrets, declared));
    assert(r =~= f.map_values(|s: StoredSecret| (s.secret_name@, s.inject_type@, s.inject_target@, s.value@)));
    assert forall|i: int| 0 <= i < r.len() implies declared.contains((#[trigger] r[i]).0) by {
        secrets.lemma_filter_pred(pred, i);
        assert(r[i] == resolved_of(f[i]));
    }
    assert forall|j: int| 0 <= j < secrets.len() && declared.contains(#[trigger] secrets[j].secret_name@) implies r.contains(
        (secrets[j].secret_name@, secrets[j].inject_type@, secrets[j].inject_target@, secrets[j].value@),
    ) by {
        secrets.lemma_filter_contains(pred, j);
        let q = choose|q: int| 0 <= q < f.len() && f[q] == secrets[j];
        assert(r[q] == resolved_of(secrets[j]));
    }
}

} // verus!
