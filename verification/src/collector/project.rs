//! Project collector: identifies the project in a pane's working directory
//! from which marker files exist, what its manifests and README say, and
//! which artifact directories changed lately. The caller reads the files;
//! `ProjectFiles` carries what it found.

use vstd::prelude::*;
use vstd::string::*;
use crate::daemon::{contains_path, paths_view};
use crate::json::{JsonValue, json_get, json_str};
use crate::lines::{Strip, chars_of, lines, lines_of, lines_view, range_starts_with, string_of, strip_both, strip_prefix, strip_range};
use crate::schema::pane_view::opt_str;
use crate::schema::project::{ArtifactHint, ArtifactHintModel, ProjectKind, ProjectProfile};
use crate::text::{dec, decimal};
use crate::time::Timestamp;

verus! {

// ── What the caller reads ────────────────────────────────────────────

/// What the caller found in a directory.
pub struct ProjectFiles {
    /// The names among `probe_files()` that exist in the directory.
    pub existing: Vec<String>,
    /// `Cargo.toml`, when it could be read.
    pub cargo_toml: Option<String>,
    /// `package.json`, when it could be read and is valid JSON.
    pub package_json: Option<JsonValue>,
    /// `pyproject.toml`, when it could be read.
    pub pyproject_toml: Option<String>,
    /// The files of `readme_files()`, in that order, each when it could be read.
    pub readmes: Vec<Option<String>>,
    /// For each directory of `artifact_dirs()`, in that order: the whole
    /// seconds since it was modified (0 for a time in the future), when it
    /// is a directory with a modification time.
    pub artifact_ages: Vec<Option<u64>>,
    /// When the directory itself was modified, when that is known.
    pub cwd_mtime: Option<Timestamp>,
}

/// The marker files whose presence is checked.
pub open spec fn probe_names() -> Seq<Seq<char>> {
    seq![
        "Cargo.toml"@, "package.json"@, "yarn.lock"@, "pnpm-lock.yaml"@, "pyproject.toml"@,
        "setup.py"@, "requirements.txt"@, "Pipfile"@, "Dockerfile"@, "docker-compose.yml"@,
        "flake.nix"@, "schema.graphql"@, "main.tf"@,
    ]
}

/// The marker files whose presence the collector checks.
pub fn probe_files() -> (r: Vec<String>)
    ensures paths_view(r@) == probe_names(),
{
    let r = vec![
        String::from_str("Cargo.toml"), String::from_str("package.json"),
        String::from_str("yarn.lock"), String::from_str("pnpm-lock.yaml"),
        String::from_str("pyproject.toml"), String::from_str("setup.py"),
        String::from_str("requirements.txt"), String::from_str("Pipfile"),
        String::from_str("Dockerfile"), String::from_str("docker-compose.yml"),
        String::from_str("flake.nix"), String::from_str("schema.graphql"),
        String::from_str("main.tf"),
    ];
    assert(paths_view(r@) =~= probe_names());
    r
}

/// The README files tried, in order.
pub open spec fn readme_names() -> Seq<Seq<char>> {
    seq!["README.md"@, "readme.md"@, "README"@, "README.txt"@]
}

/// The README files whose first prose line gives the purpose, in order.
pub fn readme_files() -> (r: Vec<String>)
    ensures paths_view(r@) == readme_names(),
{
    let r = vec![
        String::from_str("README.md"), String::from_str("readme.md"),
        String::from_str("README"), String::from_str("README.txt"),
    ];
    assert(paths_view(r@) =~= readme_names());
    r
}

/// The artifact directories whose age is reported, in order.
pub open spec fn artifact_names() -> Seq<Seq<char>> {
    seq![
        "graphify-out"@, "openwiki"@, "headroom-out"@, "target"@, "node_modules"@, "dist"@,
        "build"@, ".git"@,
    ]
}

/// The artifact directories whose age the collector reports.
pub fn artifact_dirs() -> (r: Vec<String>)
    ensures paths_view(r@) == artifact_names(),
{
    let r = vec![
        String::from_str("graphify-out"), String::from_str("openwiki"),
        String::from_str("headroom-out"), String::from_str("target"),
        String::from_str("node_modules"), String::from_str("dist"),
        String::from_str("build"), String::from_str(".git"),
    ];
    assert(paths_view(r@) =~= artifact_names());
    r
}

// ── Kind ─────────────────────────────────────────────────────────────

/// The kind of project that the existing marker files show: one of Rust
/// (`Cargo.toml`), Node (`package.json`, `yarn.lock`, `pnpm-lock.yaml`) and
/// Python (`pyproject.toml`, `setup.py`, `requirements.txt`, `Pipfile`),
/// `Mixed` for more than one, `Unknown` for none.
pub open spec fn kind_of(existing: Seq<Seq<char>>) -> ProjectKind {
    let rust = existing.contains("Cargo.toml"@);
    let node = existing.contains("package.json"@) || existing.contains("yarn.lock"@)
        || existing.contains("pnpm-lock.yaml"@);
    let python = existing.contains("pyproject.toml"@) || existing.contains("setup.py"@)
        || existing.contains("requirements.txt"@) || existing.contains("Pipfile"@);
    if !rust && !node && !python {
        ProjectKind::Unknown
    } else if rust && !node && !python {
        ProjectKind::Rust
    } else if !rust && node && !python {
        ProjectKind::Node
    } else if !rust && !node && python {
        ProjectKind::Python
    } else {
        ProjectKind::Mixed
    }
}

/// Law: the kind follows the marker files. With markers of exactly one
/// ecosystem the kind is that ecosystem (Rust: `Cargo.toml`; Node:
/// `package.json`, `yarn.lock`, `pnpm-lock.yaml`; Python: `pyproject.toml`,
/// `setup.py`, `requirements.txt`, `Pipfile`); with none it is `Unknown`,
/// with markers of two or more it is `Mixed`.
pub proof fn law_kind_follows_markers(existing: Seq<Seq<char>>)
    ensures ({
        let rust = existing.contains("Cargo.toml"@);
        let node = existing.contains("package.json"@) || existing.contains("yarn.lock"@)
            || existing.contains("pnpm-lock.yaml"@);
        let python = existing.contains("pyproject.toml"@) || existing.contains("setup.py"@)
            || existing.contains("requirements.txt"@) || existing.contains("Pipfile"@);
        &&& (kind_of(existing) == ProjectKind::Rust) <==> (rust && !node && !python)
        &&& (kind_of(existing) == ProjectKind::Node) <==> (node && !rust && !python)
        &&& (kind_of(existing) == ProjectKind::Python) <==> (python && !rust && !node)
        &&& (kind_of(existing) == ProjectKind::Unknown) <==> (!rust && !node && !python)
        &&& (kind_of(existing) == ProjectKind::Mixed) <==> ((rust && node) || (rust && python) || (node && python))
    }),
{
}

/// Detects the project kind from the marker files that exist.
pub fn detect_kind(existing: &Vec<String>) -> (r: ProjectKind)
    ensures r == kind_of(paths_view(existing@)),
{
    let rust = contains_path(existing, "Cargo.toml");
    let node = contains_path(existing, "package.json") || contains_path(existing, "yarn.lock")
        || contains_path(existing, "pnpm-lock.yaml");
    let python = contains_path(existing, "pyproject.toml") || contains_path(existing, "setup.py")
        || contains_path(existing, "requirements.txt") || contains_path(existing, "Pipfile");
    if !rust && !node && !python {
        ProjectKind::Unknown
    } else if rust && !node && !python {
        ProjectKind::Rust
    } else if !rust && node && !python {
        ProjectKind::Node
    } else if !rust && !node && python {
        ProjectKind::Python
    } else {
        ProjectKind::Mixed
    }
}

// ── Values in manifest lines ─────────────────────────────────────────

/// A manifest value: trimmed, then stripped of surrounding `"` and then `'`.
pub open spec fn unquote(s: Seq<char>) -> Seq<char> {
    strip_both(strip_both(strip_both(s, Strip::Whitespace), Strip::Char('"')), Strip::Char('\''))
}

/// The value on a line that starts with `p1` (or else `p2`), unquoted;
/// none when it is empty and `nonempty` asks for a value.
pub open spec fn value_of(line: Seq<char>, p1: Seq<char>, p2: Option<Seq<char>>, nonempty: bool) -> Option<Seq<char>> {
    let rest = match strip_prefix(line, p1) {
        Some(r) => Some(r),
        None => match p2 {
            Some(q) => strip_prefix(line, q),
            None => None,
        },
    };
    match rest {
        Some(r) => if nonempty && unquote(r).len() == 0 { None } else { Some(unquote(r)) },
        None => None,
    }
}

/// The value on the first line that has one.
pub open spec fn first_value(ls: Seq<Seq<char>>, p1: Seq<char>, p2: Option<Seq<char>>, nonempty: bool) -> Option<Seq<char>>
    decreases ls.len(),
{
    if ls.len() == 0 {
        None
    } else {
        match first_value(ls.drop_last(), p1, p2, nonempty) {
            Some(v) => Some(v),
            None => value_of(ls.last(), p1, p2, nonempty),
        }
    }
}

/// The value on the last line that has one.
pub open spec fn last_value(ls: Seq<Seq<char>>, p1: Seq<char>, p2: Option<Seq<char>>) -> Option<Seq<char>>
    decreases ls.len(),
{
    if ls.len() == 0 {
        None
    } else {
        match value_of(ls.last(), p1, p2, false) {
            Some(v) => Some(v),
            None => last_value(ls.drop_last(), p1, p2),
        }
    }
}

/// The first `n` elements of `s` (all of them when there are fewer).
pub open spec fn first_n<A>(s: Seq<A>, n: int) -> Seq<A> {
    if s.len() <= n { s } else { s.take(n) }
}

/// The value on one line, as `value_of` says.
fn line_value(line: &Vec<char>, p1: &str, p2: Option<&str>, nonempty: bool) -> (r: Option<String>)
    ensures
        opt_str(r) == value_of(line@, p1@, match p2 { Some(q) => Some(q@), None => None }, nonempty),
{
    let n = line.len();
    let ghost l = line@;
    assert(line@.subrange(0, n as int) =~= l);
    let start: usize = if range_starts_with(line, 0, n, p1) {
        p1.unicode_len()
    } else {
        match p2 {
            Some(q) => if range_starts_with(line, 0, n, q) { q.unicode_len() } else { return None; },
            None => { return None; },
        }
    };
    let ghost rest = l.skip(start as int);
    assert(l.subrange(start as int, n as int) =~= rest);
    let (a, b) = strip_range(line, start, n, Strip::Whitespace);
    let (c, d) = strip_range(line, a, b, Strip::Char('"'));
    let (e, f) = strip_range(line, c, d, Strip::Char('\''));
    if nonempty && e == f {
        assert(unquote(rest).len() == 0);
        return None;
    }
    Some(string_of(line, e, f))
}

/// The value on the first of `ls[..limit]` that has one.
fn find_first_value(ls: &Vec<Vec<char>>, limit: usize, p1: &str, p2: Option<&str>, nonempty: bool) -> (r: Option<String>)
    ensures
        opt_str(r) == first_value(first_n(lines_view(ls@), limit as int), p1@,
            match p2 { Some(q) => Some(q@), None => None }, nonempty),
{
    let ghost lv = lines_view(ls@);
    let ghost q2 = match p2 { Some(q) => Some(q@), None => None };
    let end = if ls.len() <= limit { ls.len() } else { limit };
    assert(first_n(lv, limit as int) =~= lv.take(end as int));
    let mut i: usize = 0;
    while i < end
        invariant
            lv == lines_view(ls@),
            q2 == match p2 { Some(q) => Some(q@), None => None },
            end <= ls@.len(),
            first_n(lv, limit as int) == lv.take(end as int),
            i <= end,
            first_value(lv.take(i as int), p1@, q2, nonempty) is None,
        decreases end - i,
    {
        assert(lv.take(i + 1).drop_last() =~= lv.take(i as int));
        assert(lv.take(i + 1).last() == ls@[i as int]@);
        let v = line_value(&ls[i], p1, p2, nonempty);
        if v.is_some() {
            assert(lv.take(end as int).take(i + 1) =~= lv.take(i + 1));
            assert(first_value(lv.take(i + 1), p1@, q2, nonempty) == opt_str(v));
            proof { lemma_first_value_prefix(lv.take(end as int), p1@, q2, nonempty, i + 1); }
            return v;
        }
        i = i + 1;
    }
    None
}

proof fn lemma_first_value_prefix(ls: Seq<Seq<char>>, p1: Seq<char>, p2: Option<Seq<char>>, nonempty: bool, k: int)
    requires
        0 <= k <= ls.len(),
        first_value(ls.take(k), p1, p2, nonempty) is Some,
    ensures first_value(ls, p1, p2, nonempty) == first_value(ls.take(k), p1, p2, nonempty),
    decreases ls.len() - k,
{
    if k < ls.len() {
        assert(ls.take(k + 1).drop_last() =~= ls.take(k));
        lemma_first_value_prefix(ls, p1, p2, nonempty, k + 1);
    } else {
        assert(ls.take(k) =~= ls);
    }
}

/// The value on the last of `ls` that has one.
fn find_last_value(ls: &Vec<Vec<char>>, p1: &str) -> (r: Option<String>)
    ensures opt_str(r) == last_value(lines_view(ls@), p1@, None),
{
    let ghost lv = lines_view(ls@);
    let mut k: usize = ls.len();
    assert(lv.take(k as int) =~= lv);
    while k > 0
        invariant
            lv == lines_view(ls@),
            k <= ls@.len(),
            last_value(lv, p1@, None) == last_value(lv.take(k as int), p1@, None),
        decreases k,
    {
        let i = k - 1;
        assert(lv.take(k as int).drop_last() =~= lv.take(i as int));
        assert(lv.take(k as int).last() == ls@[i as int]@);
        let v = line_value(&ls[i], p1, None, false);
        if v.is_some() {
            return v;
        }
        k = i;
    }
    None
}

// ── Name ─────────────────────────────────────────────────────────────

/// The project's name: the `name = ` line among the first 20 lines of
/// `Cargo.toml` for Rust, the `name` of `package.json` for Node, the first
/// `name = ` line of `pyproject.toml` for Python; an empty value is skipped.
pub open spec fn name_of(kind: ProjectKind, cargo: Option<Seq<char>>, pkg: Option<JsonValue>, py: Option<Seq<char>>) -> Option<Seq<char>> {
    match kind {
        ProjectKind::Rust => match cargo {
            Some(c) => first_value(first_n(lines(c), 20), "name = "@, Some("name ="@), true),
            None => None,
        },
        ProjectKind::Node => match pkg {
            Some(v) => json_str(json_get(v, "name"@)),
            None => None,
        },
        ProjectKind::Python => match py {
            Some(c) => first_value(lines(c), "name = "@, None, true),
            None => None,
        },
        _ => None,
    }
}

/// The text of a JSON string field.
fn json_field(v: &JsonValue, key: &str) -> (r: Option<String>)
    ensures opt_str(r) == json_str(json_get(*v, key@)),
{
    match v.get(key) {
        Some(x) => match x.as_str() {
            Some(s) => Some(s.to_owned()),
            None => None,
        },
        None => None,
    }
}

/// Detects the project's name as `name_of` says.
pub fn detect_name(kind: ProjectKind, files: &ProjectFiles) -> (r: Option<String>)
    ensures
        opt_str(r) == name_of(kind, opt_str(files.cargo_toml), files.package_json, opt_str(files.pyproject_toml)),
{
    match kind {
        ProjectKind::Rust => match &files.cargo_toml {
            Some(c) => {
                let ls = lines_of(c.as_str());
                find_first_value(&ls, 20, "name = ", Some("name ="), true)
            },
            None => None,
        },
        ProjectKind::Node => match &files.package_json {
            Some(v) => json_field(v, "name"),
            None => None,
        },
        ProjectKind::Python => match &files.pyproject_toml {
            Some(c) => {
                let ls = lines_of(c.as_str());
                let n = ls.len();
                let r = find_first_value(&ls, n, "name = ", None, true);
                assert(first_n(lines_view(ls@), n as int) =~= lines_view(ls@));
                r
            },
            None => None,
        },
        _ => None,
    }
}

// ── Purpose ──────────────────────────────────────────────────────────

/// The first prose line: trimmed, not empty, not starting with `#` or `[`.
pub open spec fn prose_line(ls: Seq<Seq<char>>) -> Option<Seq<char>>
    decreases ls.len(),
{
    if ls.len() == 0 {
        None
    } else {
        match prose_line(ls.drop_last()) {
            Some(t) => Some(t),
            None => {
                let t = strip_both(ls.last(), Strip::Whitespace);
                if t.len() == 0 || t[0] == '#' || t[0] == '[' { None } else { Some(t) }
            },
        }
    }
}

/// The first prose line of the first README that has one.
pub open spec fn readme_line(readmes: Seq<Option<Seq<char>>>) -> Option<Seq<char>>
    decreases readmes.len(),
{
    if readmes.len() == 0 {
        None
    } else {
        match readme_line(readmes.drop_last()) {
            Some(t) => Some(t),
            None => match readmes.last() {
                Some(c) => prose_line(lines(c)),
                None => None,
            },
        }
    }
}

/// The project's purpose: the first prose line of a README, cut to 117
/// bytes and "..." when longer than 120 bytes; else the `description = `
/// line of `Cargo.toml` for Rust, or the `description` of `package.json`
/// for Node. `None` where the cut falls inside a char (where slicing
/// panics).
pub open spec fn purpose_of(readmes: Seq<Option<Seq<char>>>, kind: ProjectKind, cargo: Option<Seq<char>>, pkg: Option<JsonValue>) -> Option<Option<Seq<char>>> {
    match readme_line(readmes) {
        Some(t) => match crate::text::ellipsize(t, 120, 117) {
            Some(p) => Some(Some(p)),
            None => None,
        },
        None => Some(match kind {
            ProjectKind::Rust => match cargo {
                Some(c) => first_value(lines(c), "description = "@, Some("description ="@), false),
                None => None,
            },
            ProjectKind::Node => match pkg {
                Some(v) => json_str(json_get(v, "description"@)),
                None => None,
            },
            _ => None,
        }),
    }
}

/// The first prose line of some lines.
fn find_prose_line(ls: &Vec<Vec<char>>) -> (r: Option<String>)
    ensures opt_str(r) == prose_line(lines_view(ls@)),
{
    let ghost lv = lines_view(ls@);
    let mut i: usize = 0;
    while i < ls.len()
        invariant
            lv == lines_view(ls@),
            i <= ls@.len(),
            prose_line(lv.take(i as int)) is None,
        decreases ls.len() - i,
    {
        assert(lv.take(i + 1).drop_last() =~= lv.take(i as int));
        assert(lv.take(i + 1).last() == ls@[i as int]@);
        let line = &ls[i];
        let n = line.len();
        assert(line@.subrange(0, n as int) =~= line@);
        let (a, b) = strip_range(line, 0, n, Strip::Whitespace);
        if a < b && line[a] != '#' && line[a] != '[' {
            let t = string_of(line, a, b);
            assert(t@[0] == line@[a as int]);
            proof { lemma_prose_line_prefix(lv, i + 1); }
            assert(lv.take(ls@.len() as int) =~= lv);
            return Some(t);
        }
        i = i + 1;
    }
    assert(lv.take(ls@.len() as int) =~= lv);
    None
}

proof fn lemma_prose_line_prefix(ls: Seq<Seq<char>>, k: int)
    requires
        0 <= k <= ls.len(),
        prose_line(ls.take(k)) is Some,
    ensures prose_line(ls) == prose_line(ls.take(k)),
    decreases ls.len() - k,
{
    if k < ls.len() {
        assert(ls.take(k + 1).drop_last() =~= ls.take(k));
        lemma_prose_line_prefix(ls, k + 1);
    } else {
        assert(ls.take(k) =~= ls);
    }
}

proof fn lemma_readme_line_prefix(rs: Seq<Option<Seq<char>>>, k: int)
    requires
        0 <= k <= rs.len(),
        readme_line(rs.take(k)) is Some,
    ensures readme_line(rs) == readme_line(rs.take(k)),
    decreases rs.len() - k,
{
    if k < rs.len() {
        assert(rs.take(k + 1).drop_last() =~= rs.take(k));
        lemma_readme_line_prefix(rs, k + 1);
    } else {
        assert(rs.take(k) =~= rs);
    }
}

/// The first prose line of the first README that has one.
fn find_readme_line(readmes: &Vec<Option<String>>) -> (r: Option<String>)
    ensures opt_str(r) == readme_line(readmes@.map_values(|o: Option<String>| opt_str(o))),
{
    let ghost rv = readmes@.map_values(|o: Option<String>| opt_str(o));
    let mut i: usize = 0;
    while i < readmes.len()
        invariant
            rv == readmes@.map_values(|o: Option<String>| opt_str(o)),
            i <= readmes@.len(),
            readme_line(rv.take(i as int)) is None,
        decreases readmes.len() - i,
    {
        assert(rv.take(i + 1).drop_last() =~= rv.take(i as int));
        assert(rv.take(i + 1).last() == opt_str(readmes@[i as int]));
        match &readmes[i] {
            Some(c) => {
                let ls = lines_of(c.as_str());
                let t = find_prose_line(&ls);
                if t.is_some() {
                    proof { lemma_readme_line_prefix(rv, i + 1); }
                    assert(rv.take(readmes@.len() as int) =~= rv);
                    return t;
                }
            },
            None => {},
        }
        i = i + 1;
    }
    assert(rv.take(readmes@.len() as int) =~= rv);
    None
}

/// Detects the project's purpose as `purpose_of` says; `None` where the cut
/// of a long README line falls inside a char.
pub fn try_detect_purpose(kind: ProjectKind, files: &ProjectFiles) -> (r: Option<Option<String>>)
    ensures
        match r {
            Some(p) => purpose_of(files.readmes@.map_values(|o: Option<String>| opt_str(o)), kind,
                opt_str(files.cargo_toml), files.package_json) == Some(opt_str(p)),
            None => purpose_of(files.readmes@.map_values(|o: Option<String>| opt_str(o)), kind,
                opt_str(files.cargo_toml), files.package_json) is None,
        },
{
    match find_readme_line(&files.readmes) {
        Some(t) => match crate::text::try_ellipsize(t.as_str(), 120, 117) {
            Some(p) => Some(Some(p)),
            None => None,
        },
        None => Some(match kind {
            ProjectKind::Rust => match &files.cargo_toml {
                Some(c) => {
                    let ls = lines_of(c.as_str());
                    let n = ls.len();
                    let r = find_first_value(&ls, n, "description = ", Some("description ="), false);
                    assert(first_n(lines_view(ls@), n as int) =~= lines_view(ls@));
                    r
                },
                None => None,
            },
            ProjectKind::Node => match &files.package_json {
                Some(v) => json_field(v, "description"),
                None => None,
            },
            _ => None,
        }),
    }
}

// ── Stack ────────────────────────────────────────────────────────────

/// The stack labels of the marker files that exist, in a fixed order:
/// Rust, Node, Python, Docker, docker-compose, Nix, GraphQL, Terraform;
/// the Rust label reads `Rust (<edition>)` when an `edition = ` line of
/// `Cargo.toml` gives one (the last such line).
pub open spec fn stack_of(existing: Seq<Seq<char>>, cargo: Option<Seq<char>>) -> Seq<Seq<char>> {
    let s0: Seq<Seq<char>> = if existing.contains("Cargo.toml"@) { seq!["Rust"@] } else { seq![] };
    let s1 = if existing.contains("package.json"@) { s0.push("Node"@) } else { s0 };
    let s2 = if existing.contains("pyproject.toml"@) { s1.push("Python"@) } else { s1 };
    let s3 = if existing.contains("Dockerfile"@) { s2.push("Docker"@) } else { s2 };
    let s4 = if existing.contains("docker-compose.yml"@) { s3.push("docker-compose"@) } else { s3 };
    let s5 = if existing.contains("flake.nix"@) { s4.push("Nix"@) } else { s4 };
    let s6 = if existing.contains("schema.graphql"@) { s5.push("GraphQL"@) } else { s5 };
    let s7 = if existing.contains("main.tf"@) { s6.push("Terraform"@) } else { s6 };
    match cargo {
        Some(c) => if existing.contains("Cargo.toml"@) {
            match last_value(lines(c), "edition = "@, None) {
                Some(ed) => s7.update(0, "Rust ("@ + ed + ")"@),
                None => s7,
            }
        } else {
            s7
        },
        None => s7,
    }
}

/// Appends `label` when `file` exists.
fn push_if(stack: &mut Vec<String>, existing: &Vec<String>, file: &str, label: &str)
    ensures
        paths_view(final(stack)@) == if paths_view(existing@).contains(file@) {
            paths_view(old(stack)@).push(label@)
        } else {
            paths_view(old(stack)@)
        },
{
    if contains_path(existing, file) {
        let ghost before = stack@;
        stack.push(label.to_owned());
        assert(paths_view(stack@) =~= paths_view(before).push(label@));
    }
}

/// Builds the stack summary as `stack_of` says.
pub fn detect_stack(files: &ProjectFiles) -> (r: Vec<String>)
    ensures paths_view(r@) == stack_of(paths_view(files.existing@), opt_str(files.cargo_toml)),
{
    let ex = &files.existing;
    let mut stack: Vec<String> = Vec::new();
    assert(paths_view(stack@) =~= Seq::<Seq<char>>::empty());
    let ghost rust = paths_view(ex@).contains("Cargo.toml"@);
    push_if(&mut stack, ex, "Cargo.toml", "Rust");
    assert(rust ==> paths_view(stack@).len() >= 1);
    push_if(&mut stack, ex, "package.json", "Node");
    assert(rust ==> paths_view(stack@).len() >= 1);
    push_if(&mut stack, ex, "pyproject.toml", "Python");
    assert(rust ==> paths_view(stack@).len() >= 1);
    push_if(&mut stack, ex, "Dockerfile", "Docker");
    assert(rust ==> paths_view(stack@).len() >= 1);
    push_if(&mut stack, ex, "docker-compose.yml", "docker-compose");
    assert(rust ==> paths_view(stack@).len() >= 1);
    push_if(&mut stack, ex, "flake.nix", "Nix");
    assert(rust ==> paths_view(stack@).len() >= 1);
    push_if(&mut stack, ex, "schema.graphql", "GraphQL");
    assert(rust ==> paths_view(stack@).len() >= 1);
    push_if(&mut stack, ex, "main.tf", "Terraform");
    assert(rust ==> paths_view(stack@).len() >= 1);
    assert(paths_view(stack@).len() == stack@.len());
    if contains_path(ex, "Cargo.toml") {
        match &files.cargo_toml {
            Some(c) => {
                let ls = lines_of(c.as_str());
                match find_last_value(&ls, "edition = ") {
                    Some(ed) => {
                        let label = String::from_str("Rust (").concat(ed.as_str()).concat(")");
                        let ghost before = stack@;
                        stack.set(0, label);
                        assert(paths_view(stack@) =~= paths_view(before).update(0, label@));
                    },
                    None => {},
                }
            },
            None => {},
        }
    }
    stack
}

// ── Artifacts ────────────────────────────────────────────────────────

/// How long ago, in words: "just now" under a minute, else whole minutes,
/// hours or days ("5m ago", "3h ago", "2d ago").
pub open spec fn age_text(secs: u64) -> Seq<char> {
    if secs < 60 {
        "just now"@
    } else if secs < 3600 {
        dec((secs / 60) as nat) + "m ago"@
    } else if secs < 86400 {
        dec((secs / 3600) as nat) + "h ago"@
    } else {
        dec((secs / 86400) as nat) + "d ago"@
    }
}

/// `age_text` in executable code.
pub fn relative_age(secs: u64) -> (r: String)
    ensures r@ == age_text(secs),
{
    if secs < 60 {
        String::from_str("just now")
    } else if secs < 3600 {
        decimal(secs / 60).concat("m ago")
    } else if secs < 86400 {
        decimal(secs / 3600).concat("h ago")
    } else {
        decimal(secs / 86400).concat("d ago")
    }
}

/// A hint for each of the first `n` artifact directories that has an age:
/// its name with a trailing `/`, and how long ago it changed.
pub open spec fn artifacts_upto(ages: Seq<Option<u64>>, n: int) -> Seq<ArtifactHintModel>
    decreases n,
{
    if n <= 0 {
        seq![]
    } else {
        let init = artifacts_upto(ages, n - 1);
        if n - 1 < ages.len() && ages[n - 1] is Some {
            init.push(ArtifactHintModel {
                path: artifact_names()[n - 1] + "/"@,
                updated_relative: age_text(ages[n - 1]->0),
            })
        } else {
            init
        }
    }
}

/// The hints of all artifact directories that have an age, in order.
pub open spec fn artifacts_of(ages: Seq<Option<u64>>) -> Seq<ArtifactHintModel> {
    artifacts_upto(ages, 8)
}

/// Builds the artifact hints as `artifacts_of` says.
pub fn detect_artifacts(ages: &Vec<Option<u64>>) -> (r: Vec<ArtifactHint>)
    ensures r@.map_values(|a: ArtifactHint| a@) == artifacts_of(ages@),
{
    let dirs = artifact_dirs();
    let mut hints: Vec<ArtifactHint> = Vec::new();
    assert(dirs@.len() == paths_view(dirs@).len());
    let mut i: usize = 0;
    while i < 8
        invariant
            paths_view(dirs@) == artifact_names(),
            dirs@.len() == 8,
            i <= 8,
            hints@.map_values(|a: ArtifactHint| a@) == artifacts_upto(ages@, i as int),
        decreases 8 - i,
    {
        if i < ages.len() {
            match ages[i] {
                Some(a) => {
                    assert(dirs@[i as int]@ == artifact_names()[i as int]);
                    let hint = ArtifactHint {
                        path: dirs[i].clone().concat("/"),
                        updated_relative: relative_age(a),
                    };
                    let ghost before = hints@;
                    hints.push(hint);
                    assert(hints@.map_values(|a: ArtifactHint| a@)
                        =~= before.map_values(|a: ArtifactHint| a@).push(hint@));
                },
                None => {},
            }
        }
        i = i + 1;
    }
    hints
}

// ── The profile ──────────────────────────────────────────────────────

/// The READMEs that were read, as text.
pub open spec fn readmes_view(files: ProjectFiles) -> Seq<Option<Seq<char>>> {
    files.readmes@.map_values(|o: Option<String>| opt_str(o))
}

/// The purpose of a directory, as `purpose_of` says for what was read.
pub open spec fn files_purpose(files: ProjectFiles) -> Option<Option<Seq<char>>> {
    purpose_of(readmes_view(files), kind_of(paths_view(files.existing@)), opt_str(files.cargo_toml),
        files.package_json)
}

/// Whether `p` is the profile of directory `cwd`, scanned at `now`, given
/// what was read there.
pub open spec fn is_profile(p: ProjectProfile, cwd: Seq<char>, files: ProjectFiles, now: Timestamp) -> bool {
    let kind = kind_of(paths_view(files.existing@));
    &&& p.cwd@ == cwd
    &&& p.kind == kind
    &&& opt_str(p.name) == name_of(kind, opt_str(files.cargo_toml), files.package_json, opt_str(files.pyproject_toml))
    &&& files_purpose(files) == Some(opt_str(p.purpose))
    &&& paths_view(p.stack_summary@) == stack_of(paths_view(files.existing@), opt_str(files.cargo_toml))
    &&& p.recent_artifacts@.map_values(|a: ArtifactHint| a@) == artifacts_of(files.artifact_ages@)
    &&& p.scanned_at == now
    &&& p.cwd_mtime == match files.cwd_mtime { Some(t) => t, None => now }
}

/// The profile of directory `cwd`; `None` exactly where its purpose cannot
/// be cut (see `purpose_of`).
pub fn try_scan(cwd: &str, files: &ProjectFiles, now: Timestamp) -> (r: Option<ProjectProfile>)
    ensures
        match r {
            Some(p) => is_profile(p, cwd@, *files, now),
            None => files_purpose(*files) is None,
        },
{
    let kind = detect_kind(&files.existing);
    let purpose = match try_detect_purpose(kind, files) {
        Some(p) => p,
        None => { return None; },
    };
    let name = detect_name(kind, files);
    let stack_summary = detect_stack(files);
    let recent_artifacts = detect_artifacts(&files.artifact_ages);
    let cwd_mtime = match files.cwd_mtime {
        Some(t) => t,
        None => now,
    };
    Some(ProjectProfile {
        cwd: cwd.to_owned(),
        kind,
        name,
        purpose,
        stack_summary,
        recent_artifacts,
        scanned_at: now,
        cwd_mtime,
    })
}

/// The profile of directory `cwd`, scanned at `now`.
pub fn scan(cwd: &str, files: &ProjectFiles, now: Timestamp) -> (r: ProjectProfile)
    requires files_purpose(*files) is Some,
    ensures is_profile(r, cwd@, *files, now),
{
    match try_scan(cwd, files, now) {
        Some(p) => p,
        None => {
            assert(false);
            ProjectProfile {
                cwd: cwd.to_owned(),
                kind: ProjectKind::Unknown,
                name: None,
                purpose: None,
                stack_summary: Vec::new(),
                recent_artifacts: Vec::new(),
                scanned_at: now,
                cwd_mtime: now,
            }
        },
    }
}

} // verus!
