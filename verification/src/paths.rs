//! File system paths as text, joined the way `std::path::Path::join` joins a
//! component on Windows (`windows == true`) or on Unix.

use vstd::prelude::*;
use crate::settings::TargetShell;

verus! {

broadcast use vstd::string::group_string_axioms;

/// A character that separates path components.
pub open spec fn is_separator(c: char, windows: bool) -> bool {
    c == '/' || (windows && c == '\\')
}

/// The separator `Path::join` inserts.
pub open spec fn separator(windows: bool) -> char {
    if windows {
        '\\'
    } else {
        '/'
    }
}

/// A bare Windows drive prefix such as `C:`.
pub open spec fn is_drive_prefix(base: Seq<char>) -> bool {
    base.len() == 2 && base[1] == ':' && (('a' <= base[0] && base[0] <= 'z') || ('A' <= base[0]
        && base[0] <= 'Z'))
}

/// A path component that `Path::join` appends rather than substitutes: it
/// starts neither with a separator nor, on Windows, with a drive prefix.
pub open spec fn is_relative_component(part: Seq<char>, windows: bool) -> bool {
    part.len() == 0 || (!is_separator(part[0], windows) && !(windows && has_drive(part)))
}

/// The text starts with a drive such as `C:`.
pub open spec fn has_drive(s: Seq<char>) -> bool {
    s.len() >= 2 && s[1] == ':' && (('a' <= s[0] && s[0] <= 'z') || ('A' <= s[0] && s[0] <= 'Z'))
}

/// The first separator of `s` at or after `i`, or the length of `s`.
pub open spec fn next_separator(s: Seq<char>, i: int) -> int
    decreases s.len() - i,
{
    if i < 0 || i >= s.len() {
        s.len() as int
    } else if is_separator(s[i], true) {
        i
    } else {
        next_separator(s, i + 1)
    }
}

/// The length of the UNC prefix `\\server\share` that `s` starts with, if it
/// starts with one: two backslashes, a server name, a backslash and a share
/// name, both names not empty and without separators, the share name ending
/// at the end of `s` or at a backslash. A server name `?` or `.` starts a
/// verbatim or device prefix instead, which is not a UNC prefix.
pub open spec fn unc_prefix_len(s: Seq<char>) -> Option<int> {
    if s.len() >= 2 && s[0] == '\\' && s[1] == '\\' {
        let i = next_separator(s, 2);
        if 2 < i < s.len() && s[i] == '\\' && !(i == 3 && (s[2] == '?' || s[2] == '.')) {
            let j = next_separator(s, i + 1);
            if i + 1 < j && (j == s.len() || s[j] == '\\') {
                Some(j)
            } else {
                None
            }
        } else {
            None
        }
    } else {
        None
    }
}

/// The text starts with two separators.
pub open spec fn starts_with_two_separators(s: Seq<char>) -> bool {
    s.len() >= 2 && is_separator(s[0], true) && is_separator(s[1], true)
}

/// The joins [`join_path`] describes: all of them on Unix; on Windows all
/// but those where a text that starts with two separators would have to be
/// parsed and is not a UNC prefix `\\server\share`: a `part` of that kind,
/// and a rooted `part` joined onto a `base` of that kind, whose prefix would
/// be kept. The documentation of `Path` names the verbatim (`\\?\`) and
/// device (`\\.\`) prefixes but does not spell out how they, or an
/// incomplete UNC prefix, are parsed, so those forms are left out rather
/// than guessed.
pub open spec fn join_modelled(base: Seq<char>, part: Seq<char>, windows: bool) -> bool {
    !windows || {
        &&& starts_with_two_separators(part) ==> unc_prefix_len(part) is Some
        &&& (part.len() >= 1 && is_separator(part[0], true) && !starts_with_two_separators(part)
            && starts_with_two_separators(base)) ==> unc_prefix_len(base) is Some
    }
}

/// `base.join(part)`: an absolute `part` (on Unix one that starts with `/`;
/// on Windows one with a drive or a UNC prefix) replaces `base`; on Windows
/// a `part` that starts with a separator keeps only the drive or UNC prefix
/// of `base`; otherwise a separator is inserted unless `base` is empty,
/// already ends with a separator, or is a bare drive. On a verbatim Windows
/// base (`\\?\...`) `Path::join` also drops empty, `.` and `..` components;
/// this join keeps the text as it is.
pub open spec fn join_path(base: Seq<char>, part: Seq<char>, windows: bool) -> Seq<char> {
    if !windows && part.len() > 0 && part[0] == '/' {
        part
    } else if windows && (has_drive(part) || unc_prefix_len(part) is Some) {
        part
    } else if windows && part.len() > 0 && is_separator(part[0], true) {
        if has_drive(base) {
            base.take(2) + part
        } else if unc_prefix_len(base) is Some {
            base.take(unc_prefix_len(base)->0) + part
        } else {
            part
        }
    } else if base.len() == 0 || is_separator(base.last(), windows) || (windows && is_drive_prefix(base)) {
        base + part
    } else {
        base.push(separator(windows)) + part
    }
}

proof fn lemma_next_separator(s: Seq<char>, i: int)
    requires
        0 <= i <= s.len(),
    ensures
        i <= next_separator(s, i) <= s.len(),
        forall|k: int| i <= k < next_separator(s, i) ==> !is_separator(#[trigger] s[k], true),
        next_separator(s, i) < s.len() ==> is_separator(s[next_separator(s, i)], true),
    decreases s.len() - i,
{
    if i < s.len() && !is_separator(s[i], true) {
        lemma_next_separator(s, i + 1);
    }
}

/// Text without separators appended after `s` changes no separator found in
/// `s`, and where `s` has none left, none is found before the end.
proof fn lemma_next_separator_concat(s: Seq<char>, ext: Seq<char>, i: int)
    requires
        0 <= i <= s.len() + ext.len(),
        forall|k: int| 0 <= k < ext.len() ==> !is_separator(#[trigger] ext[k], true),
    ensures
        next_separator(s + ext, i) == if next_separator(s, i) < s.len() {
            next_separator(s, i)
        } else {
            (s.len() + ext.len()) as int
        },
    decreases s.len() + ext.len() - i,
{
    let t = s + ext;
    if i < s.len() {
        assert(t[i] == s[i]);
        if !is_separator(s[i], true) {
            lemma_next_separator_concat(s, ext, i + 1);
        }
    } else if i < t.len() {
        assert(t[i] == ext[i - s.len()]);
        lemma_next_separator_concat(s, ext, i + 1);
    }
}

/// A UNC prefix stays one when text without separators is appended.
proof fn lemma_unc_prefix_extend(s: Seq<char>, ext: Seq<char>)
    requires
        unc_prefix_len(s) is Some,
        forall|k: int| 0 <= k < ext.len() ==> !is_separator(#[trigger] ext[k], true),
    ensures
        unc_prefix_len(s + ext) is Some,
{
    let t = s + ext;
    lemma_next_separator_concat(s, ext, 2);
    let i = next_separator(s, 2);
    lemma_next_separator(s, 2);
    lemma_next_separator(s, i + 1);
    lemma_next_separator_concat(s, ext, i + 1);
    assert(t[0] == s[0] && t[1] == s[1] && t[2] == s[2] && t[i] == s[i]);
    let j = next_separator(s, i + 1);
    if j < s.len() {
        assert(t[j] == s[j]);
    }
}

/// See [`next_separator`].
fn next_separator_index(chars: &Vec<char>, from: usize) -> (r: usize)
    requires
        from <= chars@.len(),
    ensures
        r == next_separator(chars@, from as int),
{
    let mut i = from;
    while i < chars.len()
        invariant
            from <= i <= chars@.len(),
            next_separator(chars@, from as int) == next_separator(chars@, i as int),
        decreases chars@.len() - i,
    {
        if chars[i] == '/' || chars[i] == '\\' {
            return i;
        }
        i = i + 1;
    }
    i
}

/// See [`unc_prefix_len`].
fn unc_prefix_length(chars: &Vec<char>) -> (r: Option<usize>)
    ensures
        match r {
            Some(j) => unc_prefix_len(chars@) == Some(j as int),
            None => unc_prefix_len(chars@) is None,
        },
{
    let n = chars.len();
    if n >= 2 && chars[0] == '\\' && chars[1] == '\\' {
        let i = next_separator_index(chars, 2);
        proof {
            lemma_next_separator(chars@, 2);
        }
        if 2 < i && i < n && chars[i] == '\\' && !(i == 3 && (chars[2] == '?' || chars[2] == '.')) {
            let j = next_separator_index(chars, i + 1);
            proof {
                lemma_next_separator(chars@, i + 1);
            }
            if i + 1 < j && (j == n || chars[j] == '\\') {
                return Some(j);
            }
        }
    }
    None
}

/// Whether [`join_path_str`] can join `part` onto `base`, see
/// [`join_modelled`].
pub fn join_is_modelled(base: &str, part: &str, windows: bool) -> (r: bool)
    ensures
        r == join_modelled(base@, part@, windows),
{
    if !windows {
        return true;
    }
    let chars = crate::text::chars_of(base);
    let pchars = crate::text::chars_of(part);
    let part_double = pchars.len() >= 2 && (pchars[0] == '/' || pchars[0] == '\\') && (pchars[1] == '/'
        || pchars[1] == '\\');
    let base_double = chars.len() >= 2 && (chars[0] == '/' || chars[0] == '\\') && (chars[1] == '/'
        || chars[1] == '\\');
    let part_rooted = pchars.len() >= 1 && (pchars[0] == '/' || pchars[0] == '\\');
    if part_double && unc_prefix_length(&pchars).is_none() {
        return false;
    }
    if part_rooted && !part_double && base_double && unc_prefix_length(&chars).is_none() {
        return false;
    }
    true
}

/// Joins a component onto a path, see [`join_path`].
pub fn join_path_str(base: &str, part: &str, windows: bool) -> (r: String)
    requires
        join_modelled(base@, part@, windows),
    ensures
        r@ == join_path(base@, part@, windows),
{
    let chars = crate::text::chars_of(base);
    let pchars = crate::text::chars_of(part);
    let n = chars.len();
    let m = pchars.len();
    let part_drive = m >= 2 && pchars[1] == ':' && (('a' <= pchars[0] && pchars[0] <= 'z') || ('A'
        <= pchars[0] && pchars[0] <= 'Z'));
    let base_drive = n >= 2 && chars[1] == ':' && (('a' <= chars[0] && chars[0] <= 'z') || ('A'
        <= chars[0] && chars[0] <= 'Z'));
    if !windows && m > 0 && pchars[0] == '/' {
        return part.to_string();
    }
    if windows && part_drive {
        return part.to_string();
    }
    if windows && unc_prefix_length(&pchars).is_some() {
        return part.to_string();
    }
    if windows && m > 0 && (pchars[0] == '/' || pchars[0] == '\\') {
        if base_drive {
            return concat(crate::text::prefix_str(base, 2), part);
        }
        match unc_prefix_length(&chars) {
            Some(j) => {
                proof {
                    lemma_next_separator(chars@, 2);
                    lemma_next_separator(chars@, next_separator(chars@, 2) + 1);
                }
                return concat(crate::text::prefix_str(base, j), part);
            },
            None => {
                return part.to_string();
            },
        }
    }
    let mut r = base.to_string();
    let plain = n == 0 || chars[n - 1] == '/' || (windows && chars[n - 1] == '\\') || (windows
        && n == 2 && base_drive);
    if !plain {
        if windows {
            r.append("\\");
        } else {
            r.append("/");
        }
    }
    r.append(part);
    proof {
        reveal_strlit("\\");
        reveal_strlit("/");
    }
    assert(r@ =~= join_path(base@, part@, windows));
    r
}

/// `home\Documents\<folder>\Microsoft.PowerShell_profile.ps1`, where the
/// folder is `WindowsPowerShell` for Windows PowerShell and `PowerShell`
/// otherwise.
pub open spec fn profile_path_for(target_shell: TargetShell, home: Seq<char>, windows: bool) -> Seq<char> {
    let folder = match target_shell {
        TargetShell::Powershell => "WindowsPowerShell"@,
        _ => "PowerShell"@,
    };
    join_path(join_path(join_path(home, "Documents"@, windows), folder, windows),
        "Microsoft.PowerShell_profile.ps1"@, windows)
}

/// The profile file of the given PowerShell under the given home folder.
pub fn resolve_profile_path_for(target_shell: TargetShell, home: &str, windows: bool) -> (r: String)
    ensures
        r@ == profile_path_for(target_shell, home@, windows),
{
    let folder = match target_shell {
        TargetShell::Powershell => "WindowsPowerShell",
        TargetShell::Auto | TargetShell::Pwsh => "PowerShell",
    };
    proof {
        reveal_strlit("Documents");
        reveal_strlit("WindowsPowerShell");
        reveal_strlit("PowerShell");
        reveal_strlit("Microsoft.PowerShell_profile.ps1");
    }
    let documents = join_path_str(home, "Documents", windows);
    let shell_folder = join_path_str(documents.as_str(), folder, windows);
    join_path_str(shell_folder.as_str(), "Microsoft.PowerShell_profile.ps1", windows)
}

/// `base` joined with each component of `parts` in turn.
pub open spec fn join_all(base: Seq<char>, parts: Seq<Seq<char>>, windows: bool) -> Seq<char>
    decreases parts.len(),
{
    if parts.len() == 0 {
        base
    } else {
        join_path(join_all(base, parts.drop_last(), windows), parts.last(), windows)
    }
}

/// Joins the components of `parts` onto `base` in turn.
fn join_all_str(base: &str, parts: &[&str], windows: bool) -> (r: String)
    requires
        forall|i: int| 0 <= i < parts@.len() ==> is_relative_component(#[trigger] parts@[i]@, windows),
    ensures
        r@ == join_all(base@, parts@.map_values(|p: &str| p@), windows),
{
    let ghost views = parts@.map_values(|p: &str| p@);
    let mut r = base.to_string();
    let mut i: usize = 0;
    while i < parts.len()
        invariant
            i <= parts@.len(),
            views == parts@.map_values(|p: &str| p@),
            r@ == join_all(base@, views.take(i as int), windows),
            forall|i: int| 0 <= i < parts@.len() ==> is_relative_component(#[trigger] parts@[i]@, windows),
        decreases parts@.len() - i,
    {
        assert(views.take(i + 1).drop_last() =~= views.take(i as int));
        r = join_path_str(r.as_str(), parts[i], windows);
        i = i + 1;
    }
    assert(views.take(i as int) =~= views);
    r
}

/// Where `pwsh.exe` is looked for when it is not on `PATH`: the stable and
/// preview installs under `ProgramFiles` (when that variable is set), then the
/// per-user install under `LOCALAPPDATA`, or under `home\AppData\Local` when
/// that variable is not set.
pub open spec fn pwsh_candidates(
    home: Seq<char>,
    program_files: Option<Seq<char>>,
    local_app_data: Option<Seq<char>>,
    windows: bool,
) -> Seq<Seq<char>> {
    let installed = match program_files {
        Some(pf) => seq![
            join_all(pf, seq!["PowerShell"@, "7"@, "pwsh.exe"@], windows),
            join_all(pf, seq!["PowerShell"@, "7-preview"@, "pwsh.exe"@], windows),
        ],
        None => seq![],
    };
    let per_user = match local_app_data {
        Some(lad) => join_all(lad, seq!["Microsoft"@, "PowerShell"@, "7"@, "pwsh.exe"@], windows),
        None => join_all(
            home,
            seq!["AppData"@, "Local"@, "Microsoft"@, "PowerShell"@, "7"@, "pwsh.exe"@],
            windows,
        ),
    };
    installed.push(per_user)
}

/// The `pwsh.exe` locations to try, see [`pwsh_candidates`]. The values of
/// the `ProgramFiles` and `LOCALAPPDATA` variables are passed in.
pub fn default_pwsh_candidate_paths(
    home: &str,
    program_files: Option<&str>,
    local_app_data: Option<&str>,
    windows: bool,
) -> (r: Vec<String>)
    ensures
        r.deep_view() == pwsh_candidates(
            home@,
            match program_files {
                Some(p) => Some(p@),
                None => None,
            },
            match local_app_data {
                Some(p) => Some(p@),
                None => None,
            },
            windows,
        ),
{
    proof {
        reveal_strlit("PowerShell");
        reveal_strlit("7");
        reveal_strlit("7-preview");
        reveal_strlit("pwsh.exe");
        reveal_strlit("Microsoft");
        reveal_strlit("AppData");
        reveal_strlit("Local");
    }
    let mut paths: Vec<String> = Vec::new();
    if let Some(pf) = program_files {
        let stable = ["PowerShell", "7", "pwsh.exe"];
        let preview = ["PowerShell", "7-preview", "pwsh.exe"];
        assert(stable@.map_values(|p: &str| p@) =~= seq!["PowerShell"@, "7"@, "pwsh.exe"@]);
        assert(preview@.map_values(|p: &str| p@) =~= seq!["PowerShell"@, "7-preview"@, "pwsh.exe"@]);
        paths.push(join_all_str(pf, &stable, windows));
        paths.push(join_all_str(pf, &preview, windows));
    }
    if let Some(lad) = local_app_data {
        let parts = ["Microsoft", "PowerShell", "7", "pwsh.exe"];
        assert(parts@.map_values(|p: &str| p@) =~= seq!["Microsoft"@, "PowerShell"@, "7"@, "pwsh.exe"@]);
        paths.push(join_all_str(lad, &parts, windows));
    } else {
        let parts = ["AppData", "Local", "Microsoft", "PowerShell", "7", "pwsh.exe"];
        assert(parts@.map_values(|p: &str| p@) =~= seq!["AppData"@, "Local"@, "Microsoft"@, "PowerShell"@, "7"@, "pwsh.exe"@]);
        paths.push(join_all_str(home, &parts, windows));
    }
    let ghost pfv = match program_files {
        Some(p) => Some(p@),
        None => None::<Seq<char>>,
    };
    let ghost ladv = match local_app_data {
        Some(p) => Some(p@),
        None => None::<Seq<char>>,
    };
    assert(paths.deep_view() =~= pwsh_candidates(home@, pfv, ladv, windows));
    paths
}

/// `a` followed by `b`.
pub fn concat(a: &str, b: &str) -> (r: String)
    ensures
        r@ == a@ + b@,
{
    let mut r = a.to_string();
    r.append(b);
    r
}

/// The files an npm global install of `command` may have created under the
/// npm prefix: the `.cmd`, `.exe`, `.bat`, `.com`, bare and `.ps1` shims on
/// Windows; `bin/<command>` and `<command>` elsewhere.
pub open spec fn npm_candidates(command: Seq<char>, prefix: Seq<char>, windows: bool) -> Seq<Seq<char>> {
    if windows {
        seq![
            join_path(prefix, command + ".cmd"@, windows),
            join_path(prefix, command + ".exe"@, windows),
            join_path(prefix, command + ".bat"@, windows),
            join_path(prefix, command + ".com"@, windows),
            join_path(prefix, command, windows),
            join_path(prefix, command + ".ps1"@, windows),
        ]
    } else {
        seq![join_path(join_path(prefix, "bin"@, windows), command, windows), join_path(prefix, command, windows)]
    }
}

/// The shim files to look for, see [`npm_candidates`].
pub fn npm_global_command_candidates(command: &str, prefix: &str, windows: bool) -> (r: Vec<String>)
    requires
        join_modelled(prefix@, command@, windows),
    ensures
        r.deep_view() == npm_candidates(command@, prefix@, windows),
{
    proof {
        reveal_strlit(".cmd");
        reveal_strlit(".exe");
        reveal_strlit(".bat");
        reveal_strlit(".com");
        reveal_strlit(".ps1");
        reveal_strlit("bin");
    }
    let mut r: Vec<String> = Vec::new();
    if windows {
        let cmd = concat(command, ".cmd");
        let exe = concat(command, ".exe");
        let bat = concat(command, ".bat");
        let com = concat(command, ".com");
        let ps1 = concat(command, ".ps1");
        proof {
            if unc_prefix_len(command@) is Some {
                lemma_unc_prefix_extend(command@, ".cmd"@);
                lemma_unc_prefix_extend(command@, ".exe"@);
                lemma_unc_prefix_extend(command@, ".bat"@);
                lemma_unc_prefix_extend(command@, ".com"@);
                lemma_unc_prefix_extend(command@, ".ps1"@);
            }
            if command@.len() > 0 {
                assert(cmd@[0] == command@[0] && exe@[0] == command@[0] && bat@[0] == command@[0]);
                assert(com@[0] == command@[0] && ps1@[0] == command@[0]);
            }
            if command@.len() > 1 {
                assert(cmd@[1] == command@[1] && exe@[1] == command@[1] && bat@[1] == command@[1]);
                assert(com@[1] == command@[1] && ps1@[1] == command@[1]);
            }
        }
        r.push(join_path_str(prefix, cmd.as_str(), windows));
        r.push(join_path_str(prefix, exe.as_str(), windows));
        r.push(join_path_str(prefix, bat.as_str(), windows));
        r.push(join_path_str(prefix, com.as_str(), windows));
        r.push(join_path_str(prefix, command, windows));
        r.push(join_path_str(prefix, ps1.as_str(), windows));
    } else {
        let bin = join_path_str(prefix, "bin", windows);
        r.push(join_path_str(bin.as_str(), command, windows));
        r.push(join_path_str(prefix, command, windows));
    }
    assert(r.deep_view() =~= npm_candidates(command@, prefix@, windows));
    r
}

/// `home\PycharmProjects`, the folder offered as a project root by default.
pub fn pycharm_projects_path(home: &str, windows: bool) -> (r: String)
    ensures
        r@ == join_path(home@, "PycharmProjects"@, windows),
{
    proof {
        reveal_strlit("PycharmProjects");
    }
    join_path_str(home, "PycharmProjects", windows)
}

/// The default project roots: the PyCharm projects folder under `home` when
/// that folder exists (`pycharm_projects_is_dir`), otherwise none.
pub fn default_project_roots_for(home: &str, pycharm_projects_is_dir: bool, windows: bool) -> (r: Vec<String>)
    ensures
        r.deep_view() == (if pycharm_projects_is_dir {
            seq![join_path(home@, "PycharmProjects"@, windows)]
        } else {
            Seq::<Seq<char>>::empty()
        }),
{
    let mut r: Vec<String> = Vec::new();
    if pycharm_projects_is_dir {
        r.push(pycharm_projects_path(home, windows));
    }
    assert(r.deep_view() =~= (if pycharm_projects_is_dir {
        seq![join_path(home@, "PycharmProjects"@, windows)]
    } else {
        Seq::<Seq<char>>::empty()
    }));
    r
}

/// The file name given to a profile when none can be taken from its path.
pub const DEFAULT_PROFILE_FILE_NAME: &'static str = "Microsoft.PowerShell_profile.ps1";

/// The name of the backup kept next to a profile: `<file name>.cxmanager.bak`.
pub fn backup_file_name(file_name: Option<&str>) -> (r: String)
    ensures
        r@ == match file_name {
            Some(n) => n@,
            None => DEFAULT_PROFILE_FILE_NAME@,
        } + ".cxmanager.bak"@,
{
    let name = match file_name {
        Some(n) => n,
        None => DEFAULT_PROFILE_FILE_NAME,
    };
    concat(name, ".cxmanager.bak")
}

/// The decimal digits of `n`.
pub open spec fn decimal(n: nat) -> Seq<char>
    decreases n,
{
    if n < 10 {
        seq![digit_char(n)]
    } else {
        decimal(n / 10).push(digit_char(n % 10))
    }
}

/// The digit character for `d < 10`.
pub open spec fn digit_char(d: nat) -> char {
    (d + 48) as char
}

/// The decimal representation of `n`, as `u32::to_string` writes it.
pub fn decimal_string(n: u32) -> (r: String)
    ensures
        r@ == decimal(n as nat),
{
    let mut digits: Vec<char> = Vec::new();
    let mut m = n;
    while m >= 10
        invariant
            m <= n,
            decimal(n as nat) == decimal(m as nat) + digits@,
        decreases m,
    {
        let d = (m % 10) as u8;
        let c = (d + 48) as char;
        assert(c == digit_char((m % 10) as nat));
        let ghost old_digits = digits@;
        digits.insert(0, c);
        assert(decimal(m as nat) == decimal((m / 10) as nat).push(c));
        assert(digits@ =~= seq![c] + old_digits);
        assert(decimal(m as nat) + old_digits =~= decimal((m / 10) as nat) + digits@);
        m = m / 10;
    }
    let d = m as u8;
    let c = (d + 48) as char;
    assert(c == digit_char(m as nat));
    let ghost old_digits = digits@;
    digits.insert(0, c);
    assert(digits@ =~= seq![c] + old_digits);
    assert(decimal(m as nat) =~= seq![c]);
    assert(decimal(n as nat) =~= digits@);
    crate::text::string_from_chars(digits.as_slice())
}

/// The name of the temporary file a profile is first written to:
/// `.<file name>.cxmanager.<process id>.tmp`.
pub fn temp_file_name(file_name: Option<&str>, process_id: u32) -> (r: String)
    ensures
        r@ == "."@ + match file_name {
            Some(n) => n@,
            None => DEFAULT_PROFILE_FILE_NAME@,
        } + ".cxmanager."@ + decimal(process_id as nat) + ".tmp"@,
{
    let name = match file_name {
        Some(n) => n,
        None => DEFAULT_PROFILE_FILE_NAME,
    };
    let mut r = concat(".", name);
    r.append(".cxmanager.");
    let id = decimal_string(process_id);
    r.append(id.as_str());
    r.append(".tmp");
    r
}

} // verus!
