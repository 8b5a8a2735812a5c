//! The state reported to the user: installed tools, the Codex CLI and its
//! updates, and the results of the user's actions.

use vstd::prelude::*;
use std::cmp::Ordering;
use crate::paths::concat;
use crate::profile::ProfileStatus;
use crate::settings::{root_present, AppSettings};
use crate::shell::ShellStatus;
use crate::text::{
    ascii_lower_seq, ascii_lowercase, chars_of, ends_with, ends_with_chars, eq_ignore_case, joined,
    join_strings, trim, trim_str,
};
use crate::version::{codex_version_in, compare_semver, parse_codex_version, version_order, version_parts};

verus! {

broadcast use vstd::string::group_string_axioms;

/// Whether a tool is installed, and where.
#[derive(Debug, Clone, PartialEq, Eq)]
pub struct ToolStatus {
    pub installed: bool,
    pub version: Option<String>,
    pub executable_paths: Vec<String>,
    pub warning: Option<String>,
    pub message: String,
}

/// Node.js and npm.
#[derive(Debug, Clone, PartialEq, Eq)]
pub struct ToolchainStatus {
    pub node: ToolStatus,
    pub npm: ToolStatus,
}

/// The local Codex CLI and the latest published version.
#[derive(Debug, Clone, PartialEq, Eq)]
pub struct CodexStatus {
    pub executable_paths: Vec<String>,
    pub local_version: Option<String>,
    pub latest_version: Option<String>,
    pub update_available: bool,
    pub warning: Option<String>,
    pub message: String,
}

/// The tools and the Codex CLI.
#[derive(Debug, Clone, PartialEq, Eq)]
pub struct RuntimeStatus {
    pub toolchain_status: ToolchainStatus,
    pub codex_status: CodexStatus,
}

/// Everything shown when the application starts.
#[derive(Debug, Clone, PartialEq, Eq)]
pub struct AppState {
    pub settings: AppSettings,
    pub shell_status: ShellStatus,
    pub profile_status: ProfileStatus,
    pub toolchain_status: ToolchainStatus,
    pub codex_status: CodexStatus,
}

/// The result of saving the settings.
#[derive(Debug, Clone, PartialEq, Eq)]
pub struct SaveResult {
    pub message: String,
    pub shell_status: ShellStatus,
    pub profile_status: ProfileStatus,
}

/// The result of repairing the profile.
#[derive(Debug, Clone, PartialEq, Eq)]
pub struct RepairResult {
    pub message: String,
    pub changed: bool,
    pub profile_status: ProfileStatus,
}

/// The result of installing or updating a tool.
#[derive(Debug, Clone, PartialEq, Eq)]
pub struct UpdateResult {
    pub message: String,
    pub stdout: String,
    pub stderr: String,
    pub toolchain_status: ToolchainStatus,
    pub codex_status: CodexStatus,
}

/// `paths` with `path` added at the end, unless it is blank or equal (ASCII
/// case ignored) to one already there.
pub open spec fn with_unique(paths: Seq<Seq<char>>, path: Seq<char>) -> Seq<Seq<char>> {
    if trim(path).len() == 0 || root_present(paths, path) {
        paths
    } else {
        paths.push(path)
    }
}

/// Each of `more` added in turn with [`with_unique`].
pub open spec fn with_all_unique(paths: Seq<Seq<char>>, more: Seq<Seq<char>>) -> Seq<Seq<char>>
    decreases more.len(),
{
    if more.len() == 0 {
        paths
    } else {
        with_unique(with_all_unique(paths, more.drop_last()), more.last())
    }
}

/// See [`with_unique`].
pub fn push_unique_path(paths: &mut Vec<String>, path: String)
    ensures
        final(paths).deep_view() == with_unique(old(paths).deep_view(), path@),
{
    if trim_str(path.as_str()).is_empty() {
        return;
    }
    let mut found = false;
    let mut j: usize = 0;
    while j < paths.len()
        invariant
            j <= paths@.len(),
            found == exists|k: int|
                0 <= k < j && crate::text::eq_ignore_ascii_case(#[trigger] paths.deep_view()[k], path@),
        decreases paths@.len() - j,
    {
        let e = eq_ignore_case(paths[j].as_str(), path.as_str());
        proof {
            if e {
                assert(crate::text::eq_ignore_ascii_case(paths.deep_view()[j as int], path@));
            }
            if found {
                let k = choose|k: int|
                    0 <= k < j && crate::text::eq_ignore_ascii_case(
                        #[trigger] paths.deep_view()[k],
                        path@,
                    );
                assert(0 <= k < j + 1);
            }
        }
        found = found || e;
        j = j + 1;
    }
    if !found {
        let ghost before = paths.deep_view();
        paths.push(path);
        assert(paths.deep_view() =~= before.push(path@));
    }
}

/// No path is blank and no two differ only in ASCII case.
pub open spec fn paths_are_distinct(paths: Seq<Seq<char>>) -> bool {
    &&& forall|i: int| 0 <= i < paths.len() ==> trim(#[trigger] paths[i]).len() > 0
    &&& forall|i: int, j: int|
        0 <= i < j < paths.len() ==> !crate::text::eq_ignore_ascii_case(#[trigger] paths[i], #[trigger] paths[j])
}

/// Adding paths with [`with_unique`] keeps them distinct, keeps the paths
/// already there in place, and leaves out only blank paths and those already
/// present (ASCII case ignored).
pub proof fn lemma_with_all_unique_keeps_distinct(paths: Seq<Seq<char>>, more: Seq<Seq<char>>)
    requires
        paths_are_distinct(paths),
    ensures
        paths_are_distinct(with_all_unique(paths, more)),
        paths.is_prefix_of(with_all_unique(paths, more)),
        forall|i: int|
            0 <= i < more.len() && trim(#[trigger] more[i]).len() > 0 ==> root_present(
                with_all_unique(paths, more),
                more[i],
            ),
    decreases more.len(),
{
    if more.len() > 0 {
        let init = more.drop_last();
        lemma_with_all_unique_keeps_distinct(paths, init);
        let p = with_all_unique(paths, init);
        let x = more.last();
        assert forall|i: int|
            0 <= i < more.len() && trim(#[trigger] more[i]).len() > 0 implies root_present(
            with_all_unique(paths, more),
            more[i],
        ) by {
            if i < more.len() - 1 {
                assert(init[i] == more[i]);
                let k = choose|k: int| 0 <= k < p.len() && crate::text::eq_ignore_ascii_case(#[trigger] p[k], init[i]);
                if !(trim(x).len() == 0 || root_present(p, x)) {
                    assert(p.push(x)[k] == p[k]);
                }
            } else if !root_present(p, x) {
                assert(p.push(x)[p.len() as int] == x);
                assert(crate::text::eq_ignore_ascii_case(x, x));
            }
        }
    }
}

/// Law: the executable paths found for a command hold no blank path and no
/// two paths that differ only in ASCII case; every non-blank line printed by
/// the lookup command and every npm shim found is among them (ASCII case
/// ignored), the lookup's lines first.
pub proof fn lemma_executable_paths_are_distinct(
    lookup_stdout: Option<Seq<char>>,
    npm_paths: Seq<Seq<char>>,
)
    ensures
        paths_are_distinct(executable_paths_from(lookup_stdout, npm_paths)),
        forall|i: int|
            0 <= i < npm_paths.len() && trim(#[trigger] npm_paths[i]).len() > 0 ==> root_present(
                executable_paths_from(lookup_stdout, npm_paths),
                npm_paths[i],
            ),
        lookup_stdout matches Some(out) ==> forall|i: int|
            0 <= i < nonblank_lines(out).len() ==> root_present(
                executable_paths_from(lookup_stdout, npm_paths),
                #[trigger] nonblank_lines(out)[i],
            ),
{
    let empty: Seq<Seq<char>> = seq![];
    let found = match lookup_stdout {
        Some(out) => with_all_unique(empty, nonblank_lines(out)),
        None => empty,
    };
    if let Some(out) = lookup_stdout {
        lemma_with_all_unique_keeps_distinct(empty, nonblank_lines(out));
        let lines = nonblank_lines(out);
        assert forall|i: int| 0 <= i < lines.len() implies trim(#[trigger] lines[i]).len() > 0 by {
            let trimmed = split_lines(out).map_values(|l: Seq<char>| trim(l));
            let keep = |l: Seq<char>| l.len() > 0;
            assert(lines == trimmed.filter(keep));
            assert(trimmed.filter(keep)[i] == lines[i]);
            assert(trimmed.filter(keep).contains(lines[i]));
            trimmed.lemma_filter_contains_rev(keep, lines[i]);
            let k = choose|k: int| 0 <= k < trimmed.len() && trimmed[k] == lines[i];
            crate::text::lemma_trim_idempotent(split_lines(out)[k]);
        }
    }
    lemma_with_all_unique_keeps_distinct(found, npm_paths);
    if let Some(out) = lookup_stdout {
        let lines = nonblank_lines(out);
        let r = executable_paths_from(lookup_stdout, npm_paths);
        assert forall|i: int| 0 <= i < lines.len() implies root_present(r, #[trigger] lines[i]) by {
            let k = choose|k: int| 0 <= k < found.len() && crate::text::eq_ignore_ascii_case(#[trigger] found[k], lines[i]);
            assert(r[k] == found[k]);
        }
    }
}

/// `s` split at each line feed.
pub open spec fn split_lines(s: Seq<char>) -> Seq<Seq<char>>
    decreases s.len(),
{
    if s.len() == 0 {
        seq![seq![]]
    } else {
        let parts = split_lines(s.drop_last());
        if s.last() == '\n' {
            parts.push(seq![])
        } else {
            parts.update(parts.len() - 1, parts.last().push(s.last()))
        }
    }
}

proof fn lemma_split_lines_not_empty(s: Seq<char>)
    ensures
        split_lines(s).len() > 0,
    decreases s.len(),
{
    if s.len() > 0 {
        lemma_split_lines_not_empty(s.drop_last());
    }
}

/// The lines of `s`, trimmed, blank ones dropped.
pub open spec fn nonblank_lines(s: Seq<char>) -> Seq<Seq<char>> {
    split_lines(s).map_values(|l: Seq<char>| trim(l)).filter(|l: Seq<char>| l.len() > 0)
}

/// Executable paths: those printed by the lookup command (`where.exe` or
/// `which`, one per line) if it succeeded, then the npm global shims found,
/// each added with [`with_unique`].
pub open spec fn executable_paths_from(
    lookup_stdout: Option<Seq<char>>,
    npm_paths: Seq<Seq<char>>,
) -> Seq<Seq<char>> {
    let found = match lookup_stdout {
        Some(out) => with_all_unique(seq![], nonblank_lines(out)),
        None => seq![],
    };
    with_all_unique(found, npm_paths)
}

/// The lines of `s`, each trimmed.
fn trimmed_lines(s: &str) -> (r: Vec<String>)
    ensures
        r.deep_view() == split_lines(s@).map_values(|l: Seq<char>| trim(l)),
{
    let v = chars_of(s);
    let mut lines: Vec<Vec<char>> = Vec::new();
    lines.push(Vec::new());
    let mut i: usize = 0;
    while i < v.len()
        invariant
            i <= v@.len(),
            v@ == s@,
            lines@.map_values(|x: Vec<char>| x@) == split_lines(v@.take(i as int)),
        decreases v@.len() - i,
    {
        assert(v@.take(i + 1).drop_last() =~= v@.take(i as int));
        proof {
            lemma_split_lines_not_empty(v@.take(i as int));
        }
        let ghost before = lines@.map_values(|x: Vec<char>| x@);
        if v[i] == '\n' {
            lines.push(Vec::new());
            assert(lines@.map_values(|x: Vec<char>| x@) =~= before.push(seq![]));
        } else {
            let mut last = lines.pop().unwrap();
            last.push(v[i]);
            lines.push(last);
            assert(lines@.map_values(|x: Vec<char>| x@) =~= before.update(
                before.len() - 1,
                before.last().push(v@[i as int]),
            ));
        }
        i = i + 1;
    }
    assert(v@.take(i as int) =~= v@);
    let ghost lv = lines@.map_values(|x: Vec<char>| x@);
    let mut r: Vec<String> = Vec::new();
    let mut j: usize = 0;
    while j < lines.len()
        invariant
            j <= lines@.len(),
            lv == lines@.map_values(|x: Vec<char>| x@),
            r.deep_view() == lv.take(j as int).map_values(|l: Seq<char>| trim(l)),
        decreases lines@.len() - j,
    {
        let text = crate::text::string_from_chars(lines[j].as_slice());
        let t = trim_str(text.as_str()).to_string();
        let ghost before = r.deep_view();
        r.push(t);
        assert(r.deep_view() =~= before.push(trim(lv[j as int])));
        assert(lv.take(j + 1).map_values(|l: Seq<char>| trim(l)) =~= lv.take(j as int).map_values(
            |l: Seq<char>| trim(l),
        ).push(trim(lv[j as int])));
        j = j + 1;
    }
    assert(lv.take(j as int) =~= lv);
    r
}

/// See [`executable_paths_from`]; `lookup_stdout` is the output of the
/// lookup command when it succeeded.
pub fn executable_paths(lookup_stdout: Option<&str>, npm_paths: &[String]) -> (r: Vec<String>)
    ensures
        r.deep_view() == executable_paths_from(crate::shell::opt_view(lookup_stdout), npm_paths.deep_view()),
{
    let mut paths: Vec<String> = Vec::new();
    if let Some(out) = lookup_stdout {
        let lines = trimmed_lines(out);
        let ghost lv = lines.deep_view();
        let mut i: usize = 0;
        let ghost kept: Seq<Seq<char>> = seq![];
        while i < lines.len()
            invariant
                i <= lines@.len(),
                lv == lines.deep_view(),
                lv == split_lines(out@).map_values(|l: Seq<char>| trim(l)),
                kept == lv.take(i as int).filter(|l: Seq<char>| l.len() > 0),
                paths.deep_view() == with_all_unique(seq![], kept),
            decreases lines@.len() - i,
        {
            proof {
                reveal_with_fuel(Seq::<_>::filter, 1);
                assert(lv.take(i + 1).drop_last() =~= lv.take(i as int));
            }
            if !lines[i].as_str().is_empty() {
                push_unique_path(&mut paths, lines[i].clone());
                proof {
                    kept = kept.push(lv[i as int]);
                    assert(kept.drop_last() =~= lv.take(i as int).filter(|l: Seq<char>| l.len() > 0));
                }
            }
            i = i + 1;
        }
        assert(lv.take(i as int) =~= lv);
        assert(kept == nonblank_lines(out@));
    }
    let ghost found = paths.deep_view();
    assert(found == match crate::shell::opt_view(lookup_stdout) {
        Some(out) => with_all_unique(seq![], nonblank_lines(out)),
        None => seq![],
    });
    let ghost nv = npm_paths.deep_view();
    let mut j: usize = 0;
    while j < npm_paths.len()
        invariant
            j <= npm_paths@.len(),
            nv == npm_paths.deep_view(),
            paths.deep_view() == with_all_unique(found, nv.take(j as int)),
        decreases npm_paths@.len() - j,
    {
        assert(nv.take(j + 1).drop_last() =~= nv.take(j as int));
        push_unique_path(&mut paths, npm_paths[j].clone());
        j = j + 1;
    }
    assert(nv.take(j as int) =~= nv);
    paths
}

/// The npm global prefix printed by `npm prefix -g`: the trimmed output if
/// the command succeeded and printed something.
pub fn npm_global_prefix(stdout: Option<&str>) -> (r: Option<String>)
    ensures
        crate::shell::opt_string_view(r) == match stdout {
            Some(out) => if trim(out@).len() > 0 {
                Some(trim(out@))
            } else {
                None
            },
            None => None,
        },
{
    match stdout {
        Some(out) => {
            let t = trim_str(out);
            if t.is_empty() {
                None
            } else {
                Some(t.to_string())
            }
        },
        None => None,
    }
}

/// The npm shims that exist: the candidates (see
/// [`crate::paths::npm_global_command_candidates`]) flagged as existing files
/// (`candidate_is_file[i]` tells whether `candidates[i]` is one), in order.
pub fn npm_global_executable_paths(candidates: &[String], candidate_is_file: &[bool]) -> (r: Vec<String>)
    requires
        candidates@.len() == candidate_is_file@.len(),
    ensures
        r.deep_view() == existing_files(candidates.deep_view(), candidate_is_file@),
{
    let ghost cv = candidates.deep_view();
    let mut r: Vec<String> = Vec::new();
    let mut i: usize = 0;
    while i < candidates.len()
        invariant
            i <= candidates@.len(),
            candidates@.len() == candidate_is_file@.len(),
            cv == candidates.deep_view(),
            r.deep_view() == existing_files(cv.take(i as int), candidate_is_file@.take(i as int)),
        decreases candidates@.len() - i,
    {
        assert(cv.take(i + 1).drop_last() =~= cv.take(i as int));
        assert(candidate_is_file@.take(i + 1).drop_last() =~= candidate_is_file@.take(i as int));
        if candidate_is_file[i] {
            let ghost before = r.deep_view();
            r.push(candidates[i].clone());
            assert(r.deep_view() =~= before.push(cv[i as int]));
        }
        i = i + 1;
    }
    assert(cv.take(i as int) =~= cv);
    assert(candidate_is_file@.take(i as int) =~= candidate_is_file@);
    r
}

/// The candidates flagged as existing files, in order.
pub open spec fn existing_files(candidates: Seq<Seq<char>>, is_file: Seq<bool>) -> Seq<Seq<char>>
    decreases candidates.len(),
{
    if candidates.len() == 0 || candidates.len() != is_file.len() {
        seq![]
    } else if is_file.last() {
        existing_files(candidates.drop_last(), is_file.drop_last()).push(candidates.last())
    } else {
        existing_files(candidates.drop_last(), is_file.drop_last())
    }
}

/// The index of the first path whose name ends in `ext` (ASCII case
/// ignored).
pub open spec fn first_with_extension(paths: Seq<Seq<char>>, ext: Seq<char>) -> Option<int> {
    if exists|i: int| 0 <= i < paths.len() && ends_with(ascii_lower_seq(#[trigger] paths[i]), ext) {
        Some(
            choose|i: int|
                0 <= i < paths.len() && ends_with(ascii_lower_seq(#[trigger] paths[i]), ext)
                    && forall|j: int|
                    0 <= j < i ==> !ends_with(ascii_lower_seq(#[trigger] paths[j]), ext),
        )
    } else {
        None
    }
}

/// The executable to run for a command: the command itself when no path was
/// found; on Windows the first path ending in `.cmd`, else `.exe`, else
/// `.bat`, else `.com`; otherwise the first path.
pub open spec fn preferred_path(command: Seq<char>, paths: Seq<Seq<char>>, windows: bool) -> Seq<char> {
    if paths.len() == 0 {
        command
    } else if windows && first_with_extension(paths, ".cmd"@) is Some {
        paths[first_with_extension(paths, ".cmd"@)->0]
    } else if windows && first_with_extension(paths, ".exe"@) is Some {
        paths[first_with_extension(paths, ".exe"@)->0]
    } else if windows && first_with_extension(paths, ".bat"@) is Some {
        paths[first_with_extension(paths, ".bat"@)->0]
    } else if windows && first_with_extension(paths, ".com"@) is Some {
        paths[first_with_extension(paths, ".com"@)->0]
    } else {
        paths[0]
    }
}

/// The first index of a path ending in `ext`, see [`first_with_extension`].
fn find_extension(paths: &[String], ext: &str) -> (r: Option<usize>)
    ensures
        match r {
            Some(i) => i < paths@.len() && first_with_extension(paths.deep_view(), ext@) == Some(
                i as int,
            ),
            None => first_with_extension(paths.deep_view(), ext@) is None,
        },
{
    let ghost pv = paths.deep_view();
    let e = chars_of(ext);
    let mut i: usize = 0;
    while i < paths.len()
        invariant
            i <= paths@.len(),
            pv == paths.deep_view(),
            e@ == ext@,
            forall|j: int| 0 <= j < i ==> !ends_with(ascii_lower_seq(#[trigger] pv[j]), ext@),
        decreases paths@.len() - i,
    {
        let lower = ascii_lowercase(paths[i].as_str());
        assert(pv[i as int] == paths@[i as int]@);
        if ends_with_chars(lower.as_slice(), e.as_slice()) {
            proof {
                let k = choose|k: int|
                    0 <= k < pv.len() && ends_with(ascii_lower_seq(#[trigger] pv[k]), ext@)
                        && forall|j: int|
                        0 <= j < k ==> !ends_with(ascii_lower_seq(#[trigger] pv[j]), ext@);
                if k < i {
                } else if k > i {
                    assert(!ends_with(ascii_lower_seq(pv[i as int]), ext@));
                }
            }
            return Some(i);
        }
        i = i + 1;
    }
    None
}

/// See [`preferred_path`].
pub fn preferred_executable_path<'a>(command: &'a str, executable_paths: &'a [String], windows: bool) -> (r:
    &'a str)
    ensures
        r@ == preferred_path(command@, executable_paths.deep_view(), windows),
{
    if executable_paths.len() == 0 {
        return command;
    }
    if windows {
        if let Some(i) = find_extension(executable_paths, ".cmd") {
            return executable_paths[i].as_str();
        }
        if let Some(i) = find_extension(executable_paths, ".exe") {
            return executable_paths[i].as_str();
        }
        if let Some(i) = find_extension(executable_paths, ".bat") {
            return executable_paths[i].as_str();
        }
        if let Some(i) = find_extension(executable_paths, ".com") {
            return executable_paths[i].as_str();
        }
    }
    executable_paths[0].as_str()
}

/// The view of an optional owned text.
pub open spec fn opt_text(o: Option<String>) -> Option<Seq<char>> {
    crate::shell::opt_string_view(o)
}

/// The status of a tool named `name` run as `command`: not installed when no
/// executable was found; otherwise installed with the trimmed output of its
/// version query when that succeeded, or failed with its error.
/// `version_output` is what running the preferred executable
/// ([`preferred_executable_path`]) with the version arguments gave; it is not
/// looked at when no executable was found.
pub fn tool_status(
    name: &str,
    command: &str,
    executable_paths: Vec<String>,
    version_output: Result<String, String>,
) -> (r: ToolStatus)
    ensures
        r.executable_paths.deep_view() == executable_paths.deep_view(),
        executable_paths@.len() == 0 ==> {
            &&& !r.installed
            &&& r.version is None
            &&& opt_text(r.warning) == Some("未找到 "@ + command@ + " 可执行文件"@)
            &&& r.message@ == "未安装 "@ + name@
        },
        executable_paths@.len() > 0 ==> match version_output {
            Ok(v) => {
                &&& r.installed
                &&& opt_text(r.version) == Some(trim(v@))
                &&& r.warning is None
                &&& r.message@ == "已检测到 "@ + name@
            },
            Err(e) => {
                &&& !r.installed
                &&& r.version is None
                &&& opt_text(r.warning) == Some(e@)
                &&& r.message@ == name@ + " 检测失败"@
            },
        },
{
    if executable_paths.len() == 0 {
        let mut warning = concat("未找到 ", command);
        warning.append(" 可执行文件");
        return ToolStatus {
            installed: false,
            version: None,
            executable_paths,
            warning: Some(warning),
            message: concat("未安装 ", name),
        };
    }
    match version_output {
        Ok(version_output) => ToolStatus {
            installed: true,
            version: Some(trim_str(version_output.as_str()).to_string()),
            executable_paths,
            warning: None,
            message: concat("已检测到 ", name),
        },
        Err(err) => ToolStatus {
            installed: false,
            version: None,
            executable_paths,
            warning: Some(err),
            message: concat(name, " 检测失败"),
        },
    }
}

/// The message when no Codex executable was found.
pub const CODEX_NOT_FOUND: &'static str = "未找到 codex 可执行文件，请先安装 Codex CLI";

/// The local Codex result: an error when no executable was found, else the
/// output of its version query with the paths, or the query's error.
/// `version_output` is what running the preferred executable with
/// `--version` gave; it is not looked at when no executable was found.
pub fn local_codex_result(paths: Vec<String>, version_output: Result<String, String>) -> (r: Result<
    (String, Vec<String>),
    String,
>)
    ensures
        paths@.len() == 0 ==> (r matches Err(e) && e@ == CODEX_NOT_FOUND@),
        paths@.len() > 0 ==> local_view(r) == result_view(version_output),
        r matches Ok((_, p)) ==> p.deep_view() == paths.deep_view(),
{
    if paths.len() == 0 {
        return Err(CODEX_NOT_FOUND.to_string());
    }
    match version_output {
        Ok(v) => Ok((v, paths)),
        Err(e) => Err(e),
    }
}

/// The message when npm is missing and the latest version cannot be asked.
pub const NPM_MISSING_FOR_LATEST: &'static str = "npm 未安装，无法检测 Codex 最新版本";

/// The view of a result of two texts.
pub open spec fn result_view(r: Result<String, String>) -> Result<Seq<char>, Seq<char>> {
    match r {
        Ok(v) => Ok(v@),
        Err(e) => Err(e@),
    }
}

/// The view of the local result: the version output, or the error.
pub open spec fn local_view(local: Result<(String, Vec<String>), String>) -> Result<Seq<char>, Seq<char>> {
    match local {
        Ok((out, _)) => Ok(out@),
        Err(e) => Err(e@),
    }
}

/// The version found in a result.
pub open spec fn version_of(r: Result<Seq<char>, Seq<char>>) -> Option<Seq<char>> {
    match r {
        Ok(out) => codex_version_in(out),
        Err(_) => None,
    }
}

/// The warnings about the two results, in order.
pub open spec fn codex_warnings(
    local: Result<Seq<char>, Seq<char>>,
    latest: Result<Seq<char>, Seq<char>>,
) -> Seq<Seq<char>> {
    let first: Seq<Seq<char>> = match local {
        Ok(_) => seq![],
        Err(e) => seq!["本地 Codex 检测失败: "@ + e],
    };
    match latest {
        Ok(out) => if codex_version_in(out) is None {
            first.push("无法解析 npm 最新版本输出: "@ + out)
        } else {
            first
        },
        Err(e) => first.push("Codex 最新版本检测失败: "@ + e),
    }
}

/// The warning line: the warnings joined by ` | `, none when there are none.
pub open spec fn codex_warning(
    local: Result<Seq<char>, Seq<char>>,
    latest: Result<Seq<char>, Seq<char>>,
) -> Option<Seq<char>> {
    if codex_warnings(local, latest).len() == 0 {
        None
    } else {
        Some(joined(codex_warnings(local, latest), " | "@))
    }
}

/// An update is available when both versions are known and the latest is
/// greater.
pub open spec fn update_available_for(local: Option<Seq<char>>, latest: Option<Seq<char>>) -> bool {
    match (latest, local) {
        (Some(t), Some(l)) => version_order(version_parts(t), version_parts(l)) == Ordering::Greater,
        _ => false,
    }
}

/// Law: an update is offered only when both versions are known and the local
/// one is older than the latest; never when the two versions are the same.
pub proof fn lemma_update_needs_newer_version(local: Option<Seq<char>>, latest: Option<Seq<char>>)
    ensures
        update_available_for(local, latest) ==> local is Some && latest is Some && version_order(
            version_parts(local->0),
            version_parts(latest->0),
        ) == Ordering::Less,
        local == latest ==> !update_available_for(local, latest),
{
    if let (Some(l), Some(t)) = (local, latest) {
        crate::version::lemma_compare_semver_antisymmetric(t, l);
    }
}

/// The summary line for the Codex status.
pub open spec fn codex_message(local: Option<Seq<char>>, latest: Option<Seq<char>>) -> Seq<char> {
    match local {
        None => "未检测到可用 Codex CLI"@,
        Some(l) => match latest {
            None => "已检测到本地 Codex "@ + l,
            Some(t) => if update_available_for(local, latest) {
                "Codex 可更新: "@ + l + " -> "@ + t
            } else {
                "Codex 已是最新版本: "@ + l
            },
        },
    }
}

/// The Codex status for the two results: the versions found in them, the
/// executable paths of the local result, whether an update is available, the
/// warning line and the summary.
pub open spec fn codex_status_holds(
    r: CodexStatus,
    local: Result<(String, Vec<String>), String>,
    latest: Result<Seq<char>, Seq<char>>,
) -> bool {
    let lv = version_of(local_view(local));
    let tv = version_of(latest);
    &&& opt_text(r.local_version) == lv
    &&& opt_text(r.latest_version) == tv
    &&& r.executable_paths.deep_view() == match local {
        Ok((_, p)) => p.deep_view(),
        Err(_) => Seq::<Seq<char>>::empty(),
    }
    &&& r.update_available == update_available_for(lv, tv)
    &&& opt_text(r.warning) == codex_warning(local_view(local), latest)
    &&& r.message@ == codex_message(lv, tv)
}

/// The Codex status from the local result (version output and executable
/// paths) and the result of asking npm for the latest version: the versions
/// found in them, whether an update is available, the warnings about failed
/// or unreadable results joined by ` | `, and a summary.
pub fn codex_status_from_results(
    local_result: Result<(String, Vec<String>), String>,
    latest_result: Result<String, String>,
) -> (r: CodexStatus)
    ensures
        codex_status_holds(r, local_result, result_view(latest_result)),
{
    let ghost local_spec = local_result;
    let ghost latest_spec = latest_result;
    let mut warnings: Vec<String> = Vec::new();
    let (local_version, executable_paths) = match local_result {
        Ok((version_output, paths)) => (parse_codex_version(version_output.as_str()), paths),
        Err(err) => {
            warnings.push(concat("本地 Codex 检测失败: ", err.as_str()));
            let none: Vec<String> = Vec::new();
            assert(none.deep_view() =~= Seq::<Seq<char>>::empty());
            (None, none)
        },
    };
    let latest_version = match latest_result {
        Ok(output) => {
            let parsed = parse_codex_version(output.as_str());
            if parsed.is_none() {
                warnings.push(concat("无法解析 npm 最新版本输出: ", output.as_str()));
            }
            parsed
        },
        Err(err) => {
            warnings.push(concat("Codex 最新版本检测失败: ", err.as_str()));
            None
        },
    };
    assert(warnings.deep_view() =~= codex_warnings(local_view(local_spec), result_view(latest_spec)));
    assert(opt_text(local_version) == version_of(local_view(local_spec)));
    assert(opt_text(latest_version) == version_of(result_view(latest_spec)));
    let update_available = match (&latest_version, &local_version) {
        (Some(latest), Some(local)) => match compare_semver(latest.as_str(), local.as_str()) {
            Ordering::Greater => true,
            _ => false,
        },
        _ => false,
    };
    let message = match &local_version {
        None => "未检测到可用 Codex CLI".to_string(),
        Some(local) => match &latest_version {
            None => concat("已检测到本地 Codex ", local.as_str()),
            Some(latest) => if update_available {
                let mut m = concat("Codex 可更新: ", local.as_str());
                m.append(" -> ");
                m.append(latest.as_str());
                m
            } else {
                concat("Codex 已是最新版本: ", local.as_str())
            },
        },
    };
    let warning = if warnings.len() == 0 {
        None
    } else {
        Some(join_strings(&warnings, " | "))
    };
    CodexStatus {
        executable_paths,
        local_version,
        latest_version,
        update_available,
        warning,
        message,
    }
}

/// The Codex status when npm may be missing: without npm the latest version
/// is not asked and counts as failed with [`NPM_MISSING_FOR_LATEST`];
/// `latest_output` (the result of asking npm) is only looked at when npm is
/// installed.
pub fn check_codex_status(
    npm_installed: bool,
    local_result: Result<(String, Vec<String>), String>,
    latest_output: Result<String, String>,
) -> (r: CodexStatus)
    ensures
        codex_status_holds(
            r,
            local_result,
            if npm_installed {
                result_view(latest_output)
            } else {
                Err(NPM_MISSING_FOR_LATEST@)
            },
        ),
{
    let latest_result = if npm_installed {
        latest_output
    } else {
        Err(NPM_MISSING_FOR_LATEST.to_string())
    };
    codex_status_from_results(local_result, latest_result)
}

/// The Codex status when the update command has finished.
pub open spec fn codex_update_message(codex_found: bool) -> Seq<char> {
    if codex_found {
        "Codex 更新命令已完成"@
    } else {
        "Codex 更新命令已结束，但仍未检测到 Codex CLI。请查看安装日志，确认 codex 是否在 PATH 中。"@
    }
}

/// The message after `codex update`: whether a local Codex version is known
/// now.
pub fn codex_update_completion_message(runtime_status: &RuntimeStatus) -> (r: &'static str)
    ensures
        r@ == codex_update_message(runtime_status.codex_status.local_version is Some),
{
    if runtime_status.codex_status.local_version.is_some() {
        "Codex 更新命令已完成"
    } else {
        "Codex 更新命令已结束，但仍未检测到 Codex CLI。请查看安装日志，确认 codex 是否在 PATH 中。"
    }
}

/// The message after installing the Codex CLI.
pub open spec fn codex_install_message(codex_found: bool, npm_installed: bool) -> Seq<char> {
    if codex_found {
        "Codex CLI 安装命令已完成"@
    } else if !npm_installed {
        "Codex 安装命令已结束，但仍未检测到 npm。请先安装 Node.js / npm。"@
    } else {
        "Codex 安装命令已结束，但仍未检测到 Codex CLI。请查看安装日志，确认 npm global bin 是否在 PATH 中；必要时重启 CX-Manager 或 PowerShell。"@
    }
}

/// The message after installing the Codex CLI: done when a local version is
/// known now; otherwise it says whether npm or Codex is still missing.
pub fn codex_install_completion_message(runtime_status: &RuntimeStatus) -> (r: &'static str)
    ensures
        r@ == codex_install_message(
            runtime_status.codex_status.local_version is Some,
            runtime_status.toolchain_status.npm.installed,
        ),
{
    if runtime_status.codex_status.local_version.is_some() {
        "Codex CLI 安装命令已完成"
    } else if !runtime_status.toolchain_status.npm.installed {
        "Codex 安装命令已结束，但仍未检测到 npm。请先安装 Node.js / npm。"
    } else {
        "Codex 安装命令已结束，但仍未检测到 Codex CLI。请查看安装日志，确认 npm global bin 是否在 PATH 中；必要时重启 CX-Manager 或 PowerShell。"
    }
}

/// The message after installing Node.js.
pub open spec fn node_install_message(npm_installed: bool) -> Seq<char> {
    if npm_installed {
        "Node.js LTS 安装命令已完成"@
    } else {
        "Node.js LTS 安装命令已结束，但仍未检测到 npm。请查看安装日志；如果刚安装成功，请重启 CX-Manager 后刷新。"@
    }
}

/// The message after installing Node.js: done when npm is detected now.
pub fn node_install_completion_message(runtime_status: &RuntimeStatus) -> (r: &'static str)
    ensures
        r@ == node_install_message(runtime_status.toolchain_status.npm.installed),
{
    if runtime_status.toolchain_status.npm.installed {
        "Node.js LTS 安装命令已完成"
    } else {
        "Node.js LTS 安装命令已结束，但仍未检测到 npm。请查看安装日志；如果刚安装成功，请重启 CX-Manager 后刷新。"
    }
}

/// The result of a finished install or update: the message, what the command
/// printed, and the status detected afterwards. It never fails.
pub fn tool_action_result_with_runtime(
    message: &str,
    stdout: String,
    stderr: String,
    runtime_status: RuntimeStatus,
) -> (r: Result<UpdateResult, String>)
    ensures
        r matches Ok(u) && {
            &&& u.message@ == message@
            &&& u.stdout == stdout
            &&& u.stderr == stderr
            &&& u.toolchain_status == runtime_status.toolchain_status
            &&& u.codex_status == runtime_status.codex_status
        },
{
    Ok(
        UpdateResult {
            message: message.to_string(),
            stdout,
            stderr,
            toolchain_status: runtime_status.toolchain_status,
            codex_status: runtime_status.codex_status,
        },
    )
}

/// The result of repairing the profile at `profile_path`: whether it was
/// changed, and a message that names the path when it was.
pub fn repair_result(changed: bool, profile_path: &str, profile_status: ProfileStatus) -> (r: RepairResult)
    ensures
        r.changed == changed,
        r.profile_status == profile_status,
        r.message@ == if changed {
            "已修复 "@ + profile_path@
        } else {
            "Profile 已完整，无需修复"@
        },
{
    RepairResult {
        message: if changed {
            concat("已修复 ", profile_path)
        } else {
            "Profile 已完整，无需修复".to_string()
        },
        changed,
        profile_status,
    }
}

/// The result of saving the settings into the profile at `profile_path`.
pub fn save_result(profile_path: &str, shell_status: ShellStatus, profile_status: ProfileStatus) -> (r:
    SaveResult)
    ensures
        r.message@ == "已保存到 "@ + profile_path@,
        r.shell_status == shell_status,
        r.profile_status == profile_status,
{
    SaveResult { message: concat("已保存到 ", profile_path), shell_status, profile_status }
}

/// The runtime status: the toolchain as detected, and the Codex status
/// checked with npm as the toolchain found it (see [`check_codex_status`]).
pub fn check_runtime_status(
    toolchain_status: ToolchainStatus,
    local_result: Result<(String, Vec<String>), String>,
    latest_output: Result<String, String>,
) -> (r: RuntimeStatus)
    ensures
        r.toolchain_status == toolchain_status,
        codex_status_holds(
            r.codex_status,
            local_result,
            if toolchain_status.npm.installed {
                result_view(latest_output)
            } else {
                Err(NPM_MISSING_FOR_LATEST@)
            },
        ),
{
    let npm_installed = toolchain_status.npm.installed;
    let codex_status = check_codex_status(npm_installed, local_result, latest_output);
    RuntimeStatus { toolchain_status, codex_status }
}

} // verus!
