//! Git worktrees: the branch that `git rev-parse` reports, and finding a
//! worktree of an external worktree directory in the output of
//! `git worktree list --porcelain`.
use vstd::prelude::*;

use crate::text::{
    chars_of, has_prefix, lines, owned, push_str, split_lines, str_eq, str_starts_with,
    string_of, strip_prefix_exec, trim, trim_exec,
};

verus! {

// ---------------------------------------------------------------------------
// The current branch
// ---------------------------------------------------------------------------

/// The branch that `git rev-parse --abbrev-ref HEAD` reports: its output,
/// trimmed, when git succeeded and the output is neither empty nor `HEAD`
/// (a detached head).
pub open spec fn branch_of(succeeded: bool, stdout: Seq<char>) -> Option<Seq<char>> {
    if succeeded && trim(stdout).len() > 0 && trim(stdout) != "HEAD"@ {
        Some(trim(stdout))
    } else {
        None
    }
}

/// The branch that `git rev-parse --abbrev-ref HEAD` reports.
pub fn branch_from_rev_parse(succeeded: bool, stdout: &str) -> (r: Option<String>)
    ensures
        match branch_of(succeeded, stdout@) {
            Some(b) => r matches Some(x) && x@ == b,
            None => r is None,
        },
{
    if !succeeded {
        return None;
    }
    let b = trim_exec(stdout);
    if b.as_str().is_empty() || str_eq(b.as_str(), "HEAD") {
        None
    } else {
        Some(b)
    }
}

/// The host branch shown after an unassign: the trimmed output of a
/// successful `git rev-parse --abbrev-ref HEAD`, whatever it says.
pub fn host_branch_from_rev_parse(succeeded: bool, stdout: &str) -> (r: Option<String>)
    ensures
        succeeded ==> (r matches Some(x) && x@ == trim(stdout@)),
        !succeeded ==> r is None,
{
    if succeeded {
        Some(trim_exec(stdout))
    } else {
        None
    }
}

// ---------------------------------------------------------------------------
// `git worktree list --porcelain`
// ---------------------------------------------------------------------------

/// A worktree that the porcelain listing names: its path, and the ref after
/// `branch ` (`None` for a detached head).
#[derive(Debug)]
pub struct WorktreeEntry {
    pub path: String,
    pub branch_ref: Option<String>,
}

/// The entries read from the first `n` lines of the listing, and the path
/// of the worktree being read. A `worktree <path>` line starts a worktree,
/// a `branch <ref>` or `detached` line gives an entry for it, and an empty
/// line ends it.
pub open spec fn porcelain_scan(ls: Seq<Seq<char>>, n: int) -> (Seq<(Seq<char>, Option<Seq<char>>)>, Option<Seq<char>>)
    decreases n,
{
    if n <= 0 {
        (Seq::empty(), None)
    } else {
        let (entries, current) = porcelain_scan(ls, n - 1);
        let line = ls[n - 1];
        if has_prefix(line, "worktree "@) {
            (entries, Some(line.subrange("worktree "@.len() as int, line.len() as int)))
        } else if has_prefix(line, "branch "@) || line == "detached"@ {
            match current {
                Some(p) => (
                    entries.push(
                        (
                            p,
                            if has_prefix(line, "branch "@) {
                                Some(line.subrange("branch "@.len() as int, line.len() as int))
                            } else {
                                None
                            },
                        ),
                    ),
                    current,
                ),
                None => (entries, current),
            }
        } else if line.len() == 0 {
            (entries, None)
        } else {
            (entries, current)
        }
    }
}

/// The entries of a porcelain listing, in order.
pub open spec fn porcelain_entries(stdout: Seq<char>) -> Seq<(Seq<char>, Option<Seq<char>>)> {
    porcelain_scan(lines(stdout), lines(stdout).len() as int).0
}

/// The view of an entry.
pub open spec fn entry_view(e: WorktreeEntry) -> (Seq<char>, Option<Seq<char>>) {
    (
        e.path@,
        match e.branch_ref {
            Some(b) => Some(b@),
            None => None,
        },
    )
}

/// Reads the entries of `git worktree list --porcelain` output.
pub fn parse_worktree_porcelain(stdout: &str) -> (r: Vec<WorktreeEntry>)
    ensures
        r@.map_values(|e: WorktreeEntry| entry_view(e)) == porcelain_entries(stdout@),
{
    let v = chars_of(stdout);
    let ls = split_lines(&v);
    let ghost lv = ls@.map_values(|l: Vec<char>| l@);
    let mut out: Vec<WorktreeEntry> = Vec::new();
    let mut current: Option<String> = None;
    let mut i: usize = 0;
    while i < ls.len()
        invariant
            i <= ls@.len(),
            lv == ls@.map_values(|l: Vec<char>| l@),
            lv == lines(stdout@),
            out@.map_values(|e: WorktreeEntry| entry_view(e)) == porcelain_scan(lv, i as int).0,
            match porcelain_scan(lv, i as int).1 {
                Some(p) => current matches Some(c) && c@ == p,
                None => current is None,
            },
        decreases ls.len() - i,
    {
        assert(lv[i as int] == ls@[i as int]@);
        assert(ls@[i as int]@.subrange(0, ls@[i as int]@.len() as int) =~= ls@[i as int]@);
        let line = string_of(&ls[i], 0, ls[i].len());
        let l = line.as_str();
        let ghost before = out@.map_values(|e: WorktreeEntry| entry_view(e));
        if let Some(p) = strip_prefix_exec(l, "worktree ") {
            current = Some(p);
        } else if str_starts_with(l, "branch ") || str_eq(l, "detached") {
            if let Some(c) = &current {
                let branch_ref = strip_prefix_exec(l, "branch ");
                out.push(WorktreeEntry { path: owned(c.as_str()), branch_ref });
                assert(out@.map_values(|e: WorktreeEntry| entry_view(e)) =~= before.push(
                    entry_view(out@[out@.len() - 1]),
                ));
            }
        } else if l.is_empty() {
            current = None;
        }
        i = i + 1;
    }
    out
}

/// What `std::path::Path::strip_prefix` leaves of `path` once the leading
/// components of `base` are taken off, as `Path::display` shows it; `None`
/// when `path` does not start with `base`.
pub uninterp spec fn path_relative_to(path: Seq<char>, base: Seq<char>) -> Option<Seq<char>>;

/// The last component of a path (`Path::file_name`), when there is one
/// and it is valid UTF-8.
pub uninterp spec fn path_file_name(path: Seq<char>) -> Option<Seq<char>>;

/// Calls `Path::new(path).strip_prefix(base)` and shows the rest with
/// `Path::display`. The contract only names the outcome.
#[verifier::external_body]
pub(crate) fn relative_path(path: &str, base: &str) -> (r: Option<String>)
    ensures
        match path_relative_to(path@, base@) {
            Some(x) => r matches Some(y) && y@ == x,
            None => r is None,
        },
{
    std::path::Path::new(path).strip_prefix(base).ok().map(|p| p.display().to_string())
}

/// Calls `Path::new(path).file_name()` and `OsStr::to_str`. The contract
/// only names the outcome.
#[verifier::external_body]
fn file_name(path: &str) -> (r: Option<String>)
    ensures
        match path_file_name(path@) {
            Some(x) => r matches Some(y) && y@ == x,
            None => r is None,
        },
{
    std::path::Path::new(path).file_name().and_then(|n| n.to_str()).map(|n| n.to_string())
}

/// The branch name of an entry: its ref without `refs/heads/`, or for a
/// detached head the last component of its path (empty when there is
/// none).
pub open spec fn entry_branch_name(path: Seq<char>, branch_ref: Option<Seq<char>>) -> Seq<char> {
    match branch_ref {
        Some(b) => if has_prefix(b, "refs/heads/"@) {
            b.subrange("refs/heads/"@.len() as int, b.len() as int)
        } else {
            b
        },
        None => match path_file_name(path) {
            Some(n) => n,
            None => Seq::empty(),
        },
    }
}

/// The mount source of the first entry among the first `n` that lies in the
/// external directory and whose branch name or path relative to the
/// directory is the wanted worktree.
pub open spec fn external_mount_from(
    entries: Seq<(Seq<char>, Seq<char>, Option<Seq<char>>)>,
    canonical_dir: Seq<char>,
    mount_root: Seq<char>,
    worktree_name: Seq<char>,
    n: int,
) -> Option<Seq<char>>
    decreases n,
{
    if n <= 0 {
        None
    } else {
        match external_mount_from(entries, canonical_dir, mount_root, worktree_name, n - 1) {
            Some(m) => Some(m),
            None => {
                let (canonical, path, branch_ref) = entries[n - 1];
                match path_relative_to(canonical, canonical_dir) {
                    Some(rel) => if entry_branch_name(path, branch_ref) == worktree_name || rel
                        == worktree_name {
                        Some(mount_root + "/"@ + rel)
                    } else {
                        None
                    },
                    None => None,
                }
            },
        }
    }
}

/// Once an entry is found, later entries change nothing.
proof fn lemma_external_mount_found(
    entries: Seq<(Seq<char>, Seq<char>, Option<Seq<char>>)>,
    canonical_dir: Seq<char>,
    mount_root: Seq<char>,
    worktree_name: Seq<char>,
    a: int,
    b: int,
)
    requires
        0 <= a <= b,
        external_mount_from(entries, canonical_dir, mount_root, worktree_name, a) is Some,
    ensures
        external_mount_from(entries, canonical_dir, mount_root, worktree_name, b)
            == external_mount_from(entries, canonical_dir, mount_root, worktree_name, a),
    decreases b - a,
{
    if a < b {
        lemma_external_mount_found(entries, canonical_dir, mount_root, worktree_name, a, b - 1);
    }
}

/// The views of (canonical path, entry) pairs.
pub open spec fn located_views(v: Seq<(String, WorktreeEntry)>) -> Seq<(Seq<char>, Seq<char>, Option<Seq<char>>)> {
    v.map_values(|x: (String, WorktreeEntry)| (x.0@, entry_view(x.1).0, entry_view(x.1).1))
}

/// The container mount source of the worktree `worktree_name` in an
/// external worktree directory: `entries` are the porcelain entries with
/// their canonical paths, `canonical_dir` the directory's canonical path and
/// `mount_root` where the directory is mounted in the container.
pub fn external_worktree_mount(
    entries: &Vec<(String, WorktreeEntry)>,
    canonical_dir: &str,
    mount_root: &str,
    worktree_name: &str,
) -> (r: Option<String>)
    ensures
        match external_mount_from(
            located_views(entries@),
            canonical_dir@,
            mount_root@,
            worktree_name@,
            entries@.len() as int,
        ) {
            Some(m) => r matches Some(x) && x@ == m,
            None => r is None,
        },
{
    let ghost ev = located_views(entries@);
    let mut i: usize = 0;
    while i < entries.len()
        invariant
            i <= entries@.len(),
            ev == located_views(entries@),
            external_mount_from(ev, canonical_dir@, mount_root@, worktree_name@, i as int) is None,
        decreases entries.len() - i,
    {
        let canonical = entries[i].0.as_str();
        let entry = &entries[i].1;
        assert(ev[i as int] == (canonical@, entry_view(*entry).0, entry_view(*entry).1));
        let branch_name: String = match &entry.branch_ref {
            Some(b) => match strip_prefix_exec(b.as_str(), "refs/heads/") {
                Some(n) => n,
                None => owned(b.as_str()),
            },
            None => match file_name(entry.path.as_str()) {
                Some(n) => n,
                None => String::new(),
            },
        };
        assert(branch_name@ == entry_branch_name(ev[i as int].1, ev[i as int].2));
        if let Some(rel) = relative_path(canonical, canonical_dir) {
            if str_eq(branch_name.as_str(), worktree_name) || str_eq(rel.as_str(), worktree_name) {
                let mut m = owned(mount_root);
                push_str(&mut m, "/");
                push_str(&mut m, rel.as_str());
                proof {
                    lemma_external_mount_found(
                        ev,
                        canonical_dir@,
                        mount_root@,
                        worktree_name@,
                        i + 1,
                        entries@.len() as int,
                    );
                }
                return Some(m);
            }
        }
        i = i + 1;
    }
    None
}

} // verus!
