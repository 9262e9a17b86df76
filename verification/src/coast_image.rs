//! The custom coast image of a project: the Dockerfile rendered from the
//! Coastfile's `[coast.setup]`, the digest that tells whether it changed
//! since the last build, and the `docker build` invocation.
use vstd::prelude::*;

use crate::shell::{shell_single_quote, single_quoted};
use crate::text::{join, occurs_at, push_joined, push_owned, push_str, trim, trim_exec, views};

verus! {

/// A file that the setup copies into the image, with the mode it gets.
#[derive(Debug)]
pub struct SetupFile {
    pub path: String,
    pub mode: Option<String>,
}

/// The first lines of every coast image: the DinD base, search tools, and
/// mutagen.
pub open spec fn dockerfile_head() -> Seq<char> {
    "FROM docker:dind\n"@ + "RUN apk add --no-cache ripgrep fd rsync\n"@ + "RUN ARCH=$(uname -m) && case \"$ARCH\" in x86_64) MA=amd64;; aarch64|arm64) MA=arm64;; esac && wget -q -O /tmp/mutagen.tar.gz \"https://github.com/mutagen-io/mutagen/releases/download/v0.18.1/mutagen_linux_${MA}_v0.18.1.tar.gz\" && tar xzf /tmp/mutagen.tar.gz -C /usr/local/bin mutagen mutagen-agents.tar.gz && chmod +x /usr/local/bin/mutagen && rm -f /tmp/mutagen.tar.gz\n"@
}

/// The line that installs language servers when npm is available.
pub open spec fn language_servers_line() -> Seq<char> {
    "RUN command -v npm >/dev/null 2>&1 && npm install -g typescript-language-server typescript vscode-langservers-extracted yaml-language-server pyright 2>/dev/null || true\n"@
}

/// One `RUN` line per setup command.
pub open spec fn run_lines(run: Seq<Seq<char>>) -> Seq<char>
    decreases run.len(),
{
    if run.len() == 0 {
        Seq::empty()
    } else {
        run_lines(run.drop_last()) + "RUN "@ + run.last() + "\n"@
    }
}

/// The view of a setup file: path and mode.
pub open spec fn file_view(f: SetupFile) -> (Seq<char>, Option<Seq<char>>) {
    (
        f.path@,
        match f.mode {
            Some(m) => Some(m@),
            None => None,
        },
    )
}

/// One `chmod` line per setup file with a mode.
pub open spec fn chmod_lines(files: Seq<(Seq<char>, Option<Seq<char>>)>) -> Seq<char>
    decreases files.len(),
{
    if files.len() == 0 {
        Seq::empty()
    } else {
        chmod_lines(files.drop_last()) + match files.last().1 {
            Some(m) => "RUN chmod "@ + m + " "@ + single_quoted(files.last().0) + "\n"@,
            None => Seq::empty(),
        }
    }
}

/// The Dockerfile of a coast image: the fixed head, the extra packages, the
/// language servers, the setup commands, then the setup files.
pub open spec fn dockerfile_text(
    packages: Seq<Seq<char>>,
    run: Seq<Seq<char>>,
    files: Seq<(Seq<char>, Option<Seq<char>>)>,
) -> Seq<char> {
    dockerfile_head() + (if packages.len() > 0 {
        "RUN apk add --no-cache "@ + join(packages, " "@) + "\n"@
    } else {
        Seq::empty()
    }) + language_servers_line() + run_lines(run) + (if files.len() > 0 {
        "COPY setup-files/ /\n"@ + chmod_lines(files)
    } else {
        Seq::empty()
    })
}

/// Renders the Dockerfile of a project's coast image.
pub fn render_dockerfile(packages: &Vec<String>, run: &Vec<String>, files: &Vec<SetupFile>) -> (r:
    String)
    ensures
        r@ == dockerfile_text(
            views(packages@),
            views(run@),
            files@.map_values(|f: SetupFile| file_view(f)),
        ),
{
    let mut d = String::new();
    push_str(&mut d, "FROM docker:dind\n");
    push_str(&mut d, "RUN apk add --no-cache ripgrep fd rsync\n");
    push_str(
        &mut d,
        "RUN ARCH=$(uname -m) && case \"$ARCH\" in x86_64) MA=amd64;; aarch64|arm64) MA=arm64;; esac && wget -q -O /tmp/mutagen.tar.gz \"https://github.com/mutagen-io/mutagen/releases/download/v0.18.1/mutagen_linux_${MA}_v0.18.1.tar.gz\" && tar xzf /tmp/mutagen.tar.gz -C /usr/local/bin mutagen mutagen-agents.tar.gz && chmod +x /usr/local/bin/mutagen && rm -f /tmp/mutagen.tar.gz\n",
    );
    assert(d@ == dockerfile_head());
    let ghost pk = if packages@.len() > 0 {
        "RUN apk add --no-cache "@ + join(views(packages@), " "@) + "\n"@
    } else {
        Seq::<char>::empty()
    };
    if packages.len() > 0 {
        push_str(&mut d, "RUN apk add --no-cache ");
        push_joined(&mut d, packages, " ");
        push_str(&mut d, "\n");
    }
    assert(d@ =~= dockerfile_head() + pk);
    push_str(
        &mut d,
        "RUN command -v npm >/dev/null 2>&1 && npm install -g typescript-language-server typescript vscode-langservers-extracted yaml-language-server pyright 2>/dev/null || true\n",
    );
    let ghost before_run = d@;
    let mut i: usize = 0;
    while i < run.len()
        invariant
            i <= run@.len(),
            d@ == before_run + run_lines(views(run@).subrange(0, i as int)),
        decreases run.len() - i,
    {
        assert(views(run@).subrange(0, i + 1).drop_last() =~= views(run@).subrange(0, i as int));
        push_str(&mut d, "RUN ");
        push_str(&mut d, run[i].as_str());
        push_str(&mut d, "\n");
        i = i + 1;
    }
    assert(views(run@).subrange(0, run@.len() as int) =~= views(run@));
    let ghost fv = files@.map_values(|f: SetupFile| file_view(f));
    let ghost before_files_part = d@;
    assert(before_files_part =~= dockerfile_head() + pk + language_servers_line() + run_lines(views(run@)));
    if files.len() > 0 {
        push_str(&mut d, "COPY setup-files/ /\n");
        let ghost before_files = d@;
        let mut k: usize = 0;
        while k < files.len()
            invariant
                k <= files@.len(),
                fv == files@.map_values(|f: SetupFile| file_view(f)),
                d@ == before_files + chmod_lines(fv.subrange(0, k as int)),
            decreases files.len() - k,
        {
            assert(fv.subrange(0, k + 1).drop_last() =~= fv.subrange(0, k as int));
            assert(fv.subrange(0, k + 1).last() == file_view(files@[k as int]));
            if let Some(mode) = &files[k].mode {
                push_str(&mut d, "RUN chmod ");
                push_str(&mut d, mode.as_str());
                push_str(&mut d, " ");
                let q = shell_single_quote(files[k].path.as_str());
                push_str(&mut d, q.as_str());
                push_str(&mut d, "\n");
            } else {
                assert(d@ =~= d@ + Seq::<char>::empty());
            }
            k = k + 1;
        }
        assert(fv.subrange(0, files@.len() as int) =~= fv);
        assert(d@ =~= before_files_part + ("COPY setup-files/ /\n"@ + chmod_lines(fv)));
    } else {
        assert(d@ =~= before_files_part + Seq::<char>::empty());
    }
    assert(d@ =~= dockerfile_text(views(packages@), views(run@), fv));
    d
}

/// The tag of a build's coast image: `coast-image/{project}:{build_id}`.
pub fn coast_image_tag(project: &str, build_id: &str) -> (r: String)
    ensures
        r@ == "coast-image/"@ + project@ + ":"@ + build_id@,
{
    let mut r = String::new();
    push_str(&mut r, "coast-image/");
    push_str(&mut r, project);
    push_str(&mut r, ":");
    push_str(&mut r, build_id);
    r
}

/// The hexadecimal digit of a value below 16, lower case.
pub open spec fn hex_digit(v: nat) -> char {
    if v < 10 {
        crate::text::digit_char(v)
    } else if v == 10 {
        'a'
    } else if v == 11 {
        'b'
    } else if v == 12 {
        'c'
    } else if v == 13 {
        'd'
    } else if v == 14 {
        'e'
    } else {
        'f'
    }
}

/// Bytes as lower-case hexadecimal, two digits per byte, high nibble first
/// (what `{:x}` writes for a digest).
pub open spec fn lower_hex(bytes: Seq<u8>) -> Seq<char>
    decreases bytes.len(),
{
    if bytes.len() == 0 {
        Seq::empty()
    } else {
        lower_hex(bytes.drop_last()) + seq![
            hex_digit((bytes.last() / 16) as nat),
            hex_digit((bytes.last() % 16) as nat),
        ]
    }
}

fn hex_digit_exec(v: u8) -> (c: char)
    requires
        v < 16,
    ensures
        c == hex_digit(v as nat),
{
    if v < 10 {
        crate::text::digit_char_exec(v as u64)
    } else if v == 10 {
        'a'
    } else if v == 11 {
        'b'
    } else if v == 12 {
        'c'
    } else if v == 13 {
        'd'
    } else if v == 14 {
        'e'
    } else {
        'f'
    }
}

/// The lower-case hexadecimal form of a byte string.
pub fn lower_hex_string(bytes: &Vec<u8>) -> (r: String)
    ensures
        r@ == lower_hex(bytes@),
{
    let mut r = String::new();
    let mut i: usize = 0;
    while i < bytes.len()
        invariant
            i <= bytes@.len(),
            r@ == lower_hex(bytes@.subrange(0, i as int)),
        decreases bytes.len() - i,
    {
        let b = bytes[i];
        assert(bytes@.subrange(0, i + 1).drop_last() =~= bytes@.subrange(0, i as int));
        crate::text::push_char(&mut r, hex_digit_exec(b / 16));
        crate::text::push_char(&mut r, hex_digit_exec(b % 16));
        assert(r@ =~= lower_hex(bytes@.subrange(0, i + 1)));
        i = i + 1;
    }
    assert(bytes@.subrange(0, bytes@.len() as int) =~= bytes@);
    r
}

/// The SHA-256 digest of the UTF-8 bytes of a text.
pub uninterp spec fn sha256_of_text(text: Seq<char>) -> Seq<u8>;

/// Calls `sha2::Sha256::digest` (the `digest::Digest` method) on the UTF-8
/// bytes of the text. The contract claims that the result is the value that
/// the name `sha256_of_text` gives the text and that it is 32 bytes long,
/// as the `U32` output size of `Sha256` fixes; the digest algorithm itself
/// is not stated.
#[verifier::external_body]
fn sha256_digest(content: &str) -> (r: Vec<u8>)
    ensures
        r@ == sha256_of_text(content@),
        r@.len() == 32,
{
    <sha2::Sha256 as sha2::Digest>::digest(content.as_bytes()).to_vec()
}

/// The SHA-256 digest of a text in lower-case hexadecimal.
pub fn sha256_hex(content: &str) -> (r: String)
    ensures
        r@ == lower_hex(sha256_of_text(content@)),
        r@.len() == 64,
{
    let d = sha256_digest(content);
    let r = lower_hex_string(&d);
    proof {
        lemma_lower_hex_len(d@);
    }
    r
}

/// Two hexadecimal digits per byte.
pub proof fn lemma_lower_hex_len(bytes: Seq<u8>)
    ensures
        lower_hex(bytes).len() == 2 * bytes.len(),
    decreases bytes.len(),
{
    if bytes.len() > 0 {
        lemma_lower_hex_len(bytes.drop_last());
    }
}

/// Whether the Dockerfile changed since the last build: there is no stored
/// digest, or the stored one (trimmed) differs.
pub fn dockerfile_changed(stored_hash: Option<&str>, current_hash: &str) -> (r: bool)
    ensures
        r == match stored_hash {
            Some(s) => trim(s@) != current_hash@,
            None => true,
        },
{
    match stored_hash {
        Some(s) => {
            let t = trim_exec(s);
            !crate::text::str_eq(t.as_str(), current_hash)
        },
        None => true,
    }
}

/// Where the digest of a project's last coast-image Dockerfile is kept.
pub fn dockerfile_hash_path(user_home: &str, project: &str) -> (r: String)
    ensures
        r@ == crate::paths::path_join(
            crate::paths::path_join(crate::paths::path_join(user_home@, ".coast"@), "coast-image-dockerfile-hash"@),
            project@,
        ),
{
    let coast = crate::paths::join_path(user_home, ".coast");
    let dir = crate::paths::join_path(coast.as_str(), "coast-image-dockerfile-hash");
    crate::paths::join_path(dir.as_str(), project)
}

/// The arguments of `docker build` for a coast image.
pub fn docker_build_args(image_tag: &str, build_dir: &str, no_cache: bool) -> (r: Vec<String>)
    ensures
        views(r@) == seq!["build"@] + (if no_cache {
            seq!["--no-cache"@]
        } else {
            Seq::empty()
        }) + seq!["-t"@, image_tag@, build_dir@],
{
    let mut r: Vec<String> = Vec::new();
    push_owned(&mut r, "build");
    if no_cache {
        push_owned(&mut r, "--no-cache");
    }
    push_owned(&mut r, "-t");
    push_owned(&mut r, image_tag);
    push_owned(&mut r, build_dir);
    assert(views(r@) =~= seq!["build"@] + (if no_cache {
        seq!["--no-cache"@]
    } else {
        Seq::empty()
    }) + seq!["-t"@, image_tag@, build_dir@]);
    r
}

/// The error of a failed coast-image build, with docker's error output.
pub fn coast_image_build_failed(image_tag: &str, stderr: &str) -> (r: crate::status::CoastError)
    ensures
        r == crate::status::CoastError::Docker(r->Docker_0),
        r->Docker_0@ == "Failed to build custom coast image '"@ + image_tag@
            + "'. Check that the packages, commands, and files in [coast.setup] are valid.\nStderr: "@
            + stderr@,
{
    let mut m = String::new();
    push_str(&mut m, "Failed to build custom coast image '");
    push_str(&mut m, image_tag);
    push_str(
        &mut m,
        "'. Check that the packages, commands, and files in [coast.setup] are valid.\nStderr: ",
    );
    push_str(&mut m, stderr);
    crate::status::CoastError::Docker(m)
}

/// The `RUN` line of one setup command.
pub open spec fn run_line(command: Seq<char>) -> Seq<char> {
    "RUN "@ + command + "\n"@
}

/// Where each setup command's line stands in the `RUN` lines: in the order
/// of the commands, each after the end of the one before.
proof fn lemma_run_line_positions(run: Seq<Seq<char>>) -> (pos: Seq<int>)
    ensures
        pos.len() == run.len(),
        forall|k: int| 0 <= k < run.len() ==> occurs_at(run_lines(run), run_line(run[k]), #[trigger] pos[k]),
        forall|k: int, j: int|
            0 <= k < j < run.len() ==> #[trigger] pos[k] + run_line(run[k]).len() <= #[trigger] pos[j],
    decreases run.len(),
{
    if run.len() == 0 {
        Seq::empty()
    } else {
        let init = run.drop_last();
        let prev = lemma_run_line_positions(init);
        let before = run_lines(init);
        let last = run_line(run.last());
        assert(run_lines(run) =~= before + last);
        let pos = prev.push(before.len() as int);
        assert forall|k: int| 0 <= k < run.len() implies occurs_at(run_lines(run), run_line(run[k]), #[trigger] pos[k]) by {
            if k < init.len() {
                assert(init[k] == run[k]);
                assert(occurs_at(before, run_line(init[k]), prev[k]));
                assert((before + last).subrange(pos[k], pos[k] + run_line(run[k]).len()) =~= before.subrange(
                    prev[k],
                    prev[k] + run_line(init[k]).len(),
                ));
            } else {
                assert((before + last).subrange(before.len() as int, (before.len() + last.len()) as int) =~= last);
            }
        }
        assert forall|k: int, j: int| 0 <= k < j < run.len() implies #[trigger] pos[k] + run_line(run[k]).len()
            <= #[trigger] pos[j] by {
            assert(init[k] == run[k]);
            assert(occurs_at(before, run_line(init[k]), prev[k]));
            if j < init.len() {
                assert(init[j] == run[j]);
            }
        }
        pos
    }
}

/// `pos` places the line `RUN <command>` of every command in `text`, in
/// the order of the commands, each after the end of the one before.
pub open spec fn runs_in_order(text: Seq<char>, run: Seq<Seq<char>>, pos: Seq<int>) -> bool {
    &&& pos.len() == run.len()
    &&& forall|k: int| 0 <= k < run.len() ==> occurs_at(text, "RUN "@ + run[k] + "\n"@, #[trigger] pos[k])
    &&& forall|k: int, j: int|
        0 <= k < j < run.len() ==> #[trigger] pos[k] + ("RUN "@ + run[k] + "\n"@).len() <= #[trigger] pos[j]
}

/// The Dockerfile runs every setup command, each on a line of its own of
/// the form `RUN <command>`, in the order the Coastfile lists them.
pub proof fn law_dockerfile_runs_every_command(
    packages: Seq<Seq<char>>,
    run: Seq<Seq<char>>,
    files: Seq<(Seq<char>, Option<Seq<char>>)>,
)
    ensures
        exists|pos: Seq<int>| #[trigger] runs_in_order(dockerfile_text(packages, run, files), run, pos),
{
    let text = dockerfile_text(packages, run, files);
    let head = dockerfile_head() + (if packages.len() > 0 {
        "RUN apk add --no-cache "@ + join(packages, " "@) + "\n"@
    } else {
        Seq::empty()
    }) + language_servers_line();
    let body = run_lines(run);
    let tail = if files.len() > 0 {
        "COPY setup-files/ /\n"@ + chmod_lines(files)
    } else {
        Seq::empty()
    };
    assert(text == head + body + tail);
    let p = lemma_run_line_positions(run);
    let pos = Seq::new(run.len(), |k: int| head.len() + p[k]);
    assert forall|k: int| 0 <= k < run.len() implies occurs_at(text, "RUN "@ + run[k] + "\n"@, #[trigger] pos[k]) by {
        assert(occurs_at(body, run_line(run[k]), p[k]));
        assert((head + body + tail).subrange(pos[k], pos[k] + run_line(run[k]).len()) =~= body.subrange(
            p[k],
            p[k] + run_line(run[k]).len(),
        ));
    }
    assert forall|k: int, j: int| 0 <= k < j < run.len() implies #[trigger] pos[k] + ("RUN "@ + run[k] + "\n"@).len()
        <= #[trigger] pos[j] by {
        assert(p[k] + run_line(run[k]).len() <= p[j]);
    }
    assert(runs_in_order(text, run, pos));
}

/// Each name is in the names joined with a separator.
proof fn lemma_join_holds_each(names: Seq<Seq<char>>, sep: Seq<char>, k: int) -> (i: int)
    requires
        0 <= k < names.len(),
    ensures
        occurs_at(join(names, sep), names[k], i),
    decreases names.len(),
{
    if names.len() == 1 {
        assert(join(names, sep).subrange(0, names[0].len() as int) =~= names[0]);
        0
    } else {
        let init = names.drop_last();
        let before = join(init, sep);
        let whole = join(names, sep);
        assert(whole == before + sep + names.last());
        if k == names.len() - 1 {
            let i = (before.len() + sep.len()) as int;
            assert(whole.subrange(i, i + names[k].len()) =~= names[k]);
            i
        } else {
            assert(init[k] == names[k]);
            let i = lemma_join_holds_each(init, sep, k);
            assert(whole.subrange(i, i + names[k].len()) =~= before.subrange(i, i + names[k].len()));
            i
        }
    }
}

/// Each file with a mode has its `chmod` line among the lines.
proof fn lemma_chmod_line_in(files: Seq<(Seq<char>, Option<Seq<char>>)>, k: int) -> (i: int)
    requires
        0 <= k < files.len(),
        files[k].1 is Some,
    ensures
        occurs_at(
            chmod_lines(files),
            "RUN chmod "@ + files[k].1->0 + " "@ + single_quoted(files[k].0) + "\n"@,
            i,
        ),
    decreases files.len(),
{
    let init = files.drop_last();
    let before = chmod_lines(init);
    let line = "RUN chmod "@ + files[k].1->0 + " "@ + single_quoted(files[k].0) + "\n"@;
    if k == files.len() - 1 {
        assert(chmod_lines(files) =~= before + line);
        assert(chmod_lines(files).subrange(before.len() as int, (before.len() + line.len()) as int) =~= line);
        before.len() as int
    } else {
        assert(init[k] == files[k]);
        let i = lemma_chmod_line_in(init, k);
        let whole = chmod_lines(files);
        assert(whole.subrange(0, before.len() as int) =~= before);
        assert(whole.subrange(i, i + line.len()) =~= before.subrange(i, i + line.len()));
        i
    }
}

/// The Dockerfile installs every extra package (each name is on the
/// `apk add` line), and gives every setup file that has a mode its mode
/// with a `chmod` of its quoted path.
pub proof fn law_dockerfile_installs_packages_and_sets_modes(
    packages: Seq<Seq<char>>,
    run: Seq<Seq<char>>,
    files: Seq<(Seq<char>, Option<Seq<char>>)>,
)
    ensures
        forall|k: int|
            0 <= k < packages.len() ==> crate::text::contains_seq(
                dockerfile_text(packages, run, files),
                #[trigger] packages[k],
            ),
        packages.len() > 0 ==> crate::text::contains_seq(
            dockerfile_text(packages, run, files),
            "RUN apk add --no-cache "@ + join(packages, " "@) + "\n"@,
        ),
        forall|k: int|
            0 <= k < files.len() && (#[trigger] files[k]).1 is Some ==> crate::text::contains_seq(
                dockerfile_text(packages, run, files),
                "RUN chmod "@ + files[k].1->0 + " "@ + single_quoted(files[k].0) + "\n"@,
            ),
{
    let text = dockerfile_text(packages, run, files);
    let pk = if packages.len() > 0 {
        "RUN apk add --no-cache "@ + join(packages, " "@) + "\n"@
    } else {
        Seq::empty()
    };
    let mid = language_servers_line() + run_lines(run);
    let tail = if files.len() > 0 {
        "COPY setup-files/ /\n"@ + chmod_lines(files)
    } else {
        Seq::empty()
    };
    let h = dockerfile_head();
    assert(text =~= h + pk + mid + tail);
    if packages.len() > 0 {
        assert(text.subrange(h.len() as int, (h.len() + pk.len()) as int) =~= pk);
        assert(crate::text::occurs_at(text, pk, h.len() as int));
        let start = "RUN apk add --no-cache "@;
        assert forall|k: int| 0 <= k < packages.len() implies crate::text::contains_seq(text, #[trigger] packages[k]) by {
            let i = lemma_join_holds_each(packages, " "@, k);
            let at = h.len() + start.len() + i;
            assert(text.subrange(at, at + packages[k].len()) =~= join(packages, " "@).subrange(
                i,
                i + packages[k].len(),
            ));
            assert(occurs_at(text, packages[k], at));
        }
    }
    if files.len() > 0 {
        let copy = "COPY setup-files/ /\n"@;
        let off = h.len() + pk.len() + mid.len() + copy.len();
        assert forall|k: int| 0 <= k < files.len() && (#[trigger] files[k]).1 is Some implies crate::text::contains_seq(
            text,
            "RUN chmod "@ + files[k].1->0 + " "@ + single_quoted(files[k].0) + "\n"@,
        ) by {
            let line = "RUN chmod "@ + files[k].1->0 + " "@ + single_quoted(files[k].0) + "\n"@;
            let i = lemma_chmod_line_in(files, k);
            assert(text.subrange(off + i, off + i + line.len()) =~= chmod_lines(files).subrange(i, i + line.len()));
            assert(occurs_at(text, line, off + i));
        }
    }
}

} // verus!
