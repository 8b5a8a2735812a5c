//! Which PowerShell is managed, and how it is started.

use vstd::prelude::*;
use crate::paths::{concat, profile_path_for, resolve_profile_path_for};
use crate::settings::{AppSettings, TargetShell};
use crate::text::{ascii_lower_seq, ascii_lowercase, contains, contains_chars, chars_of};

verus! {

broadcast use vstd::string::group_string_axioms;

/// The managed shell as it was detected.
#[derive(Debug, Clone, PartialEq, Eq)]
pub struct ShellStatus {
    pub target_shell: TargetShell,
    pub command: String,
    pub version: Option<String>,
    pub profile_path: String,
    pub message: String,
}

/// The command that starts the shell: `powershell.exe` for Windows
/// PowerShell, otherwise the resolved `pwsh` command or `pwsh` itself.
pub open spec fn shell_command_for(target_shell: TargetShell, pwsh_command: Option<Seq<char>>) -> Seq<char> {
    match target_shell {
        TargetShell::Powershell => "powershell.exe"@,
        _ => match pwsh_command {
            Some(c) => c,
            None => "pwsh"@,
        },
    }
}

/// The view of an optional text.
pub open spec fn opt_view(o: Option<&str>) -> Option<Seq<char>> {
    match o {
        Some(s) => Some(s@),
        None => None,
    }
}

/// The view of an optional owned text.
pub open spec fn opt_string_view(o: Option<String>) -> Option<Seq<char>> {
    match o {
        Some(s) => Some(s@),
        None => None,
    }
}

/// See [`shell_command_for`].
pub fn shell_command(target_shell: TargetShell, pwsh_command: Option<&str>) -> (r: String)
    ensures
        r@ == shell_command_for(target_shell, opt_view(pwsh_command)),
{
    match target_shell {
        TargetShell::Powershell => "powershell.exe".to_string(),
        TargetShell::Auto | TargetShell::Pwsh => match pwsh_command {
            Some(c) => c.to_string(),
            None => "pwsh".to_string(),
        },
    }
}

/// The shell named by a host hint: `pwsh` if the hint mentions it (ignoring
/// ASCII case), else Windows PowerShell if it mentions `powershell`.
pub open spec fn hint_target(host_hint: Option<Seq<char>>) -> Option<TargetShell> {
    match host_hint {
        None => None,
        Some(h) => if contains(ascii_lower_seq(h), "pwsh"@) {
            Some(TargetShell::Pwsh)
        } else if contains(ascii_lower_seq(h), "powershell"@) {
            Some(TargetShell::Powershell)
        } else {
            None
        },
    }
}

/// See [`hint_target`].
pub fn host_hint_target(host_hint: Option<&str>) -> (r: Option<TargetShell>)
    ensures
        r == hint_target(opt_view(host_hint)),
{
    match host_hint {
        None => None,
        Some(h) => {
            let lower = ascii_lowercase(h);
            let pwsh = chars_of("pwsh");
            let powershell = chars_of("powershell");
            if contains_chars(lower.as_slice(), pwsh.as_slice()) {
                Some(TargetShell::Pwsh)
            } else if contains_chars(lower.as_slice(), powershell.as_slice()) {
                Some(TargetShell::Powershell)
            } else {
                None
            }
        },
    }
}

/// The shell a `PSModulePath` value points to: `pwsh` when it lists only
/// PowerShell 7 module folders, `powershell` when it lists only Windows
/// PowerShell ones, nothing when it lists both or neither (ASCII case
/// ignored).
pub open spec fn psmodule_hint(value: Seq<char>) -> Option<Seq<char>> {
    let lower = ascii_lower_seq(value);
    let has_pwsh = contains(lower, "\\documents\\powershell\\modules"@) || contains(
        lower,
        "\\program files\\powershell\\modules"@,
    ) || contains(lower, "\\program files\\powershell\\7\\modules"@);
    let has_windows = contains(lower, "windowspowershell"@);
    if has_pwsh && !has_windows {
        Some("pwsh"@)
    } else if !has_pwsh && has_windows {
        Some("powershell"@)
    } else {
        None
    }
}

/// See [`psmodule_hint`].
pub fn host_hint_from_psmodule_path(value: &str) -> (r: Option<String>)
    ensures
        opt_string_view(r) == psmodule_hint(value@),
{
    let lower = ascii_lowercase(value);
    let a = chars_of("\\documents\\powershell\\modules");
    let b = chars_of("\\program files\\powershell\\modules");
    let c = chars_of("\\program files\\powershell\\7\\modules");
    let w = chars_of("windowspowershell");
    let has_pwsh = contains_chars(lower.as_slice(), a.as_slice()) || contains_chars(
        lower.as_slice(),
        b.as_slice(),
    ) || contains_chars(lower.as_slice(), c.as_slice());
    let has_windows = contains_chars(lower.as_slice(), w.as_slice());
    if has_pwsh && !has_windows {
        Some("pwsh".to_string())
    } else if !has_pwsh && has_windows {
        Some("powershell".to_string())
    } else {
        None
    }
}

/// The shell to manage: the configured one, or for `Auto` PowerShell 7 when
/// a `pwsh` command was found, else the one the host hint names, else
/// Windows PowerShell.
pub open spec fn chosen_target(
    configured: TargetShell,
    host_hint: Option<Seq<char>>,
    pwsh_found: bool,
) -> TargetShell {
    match configured {
        TargetShell::Auto => if pwsh_found {
            TargetShell::Pwsh
        } else {
            match hint_target(host_hint) {
                Some(t) => t,
                None => TargetShell::Powershell,
            }
        },
        _ => configured,
    }
}

/// Law: a shell chosen in the settings is always the one managed, whatever
/// the host hint and whether `pwsh` was found; in automatic mode an
/// available PowerShell 7 is preferred to any hint, and the shell named by
/// the hint comes before the Windows PowerShell fallback.
pub proof fn lemma_shell_choice(configured: TargetShell, host_hint: Option<Seq<char>>, pwsh_found: bool)
    ensures
        configured != TargetShell::Auto ==> chosen_target(configured, host_hint, pwsh_found)
            == configured,
        configured == TargetShell::Auto && pwsh_found ==> chosen_target(configured, host_hint, pwsh_found)
            == TargetShell::Pwsh,
        configured == TargetShell::Auto && !pwsh_found ==> chosen_target(
            configured,
            host_hint,
            pwsh_found,
        ) == match hint_target(host_hint) {
            Some(t) => t,
            None => TargetShell::Powershell,
        },
        chosen_target(configured, host_hint, pwsh_found) != TargetShell::Auto,
{
}

/// Decides the shell, its command and its profile path under `home`. The
/// version is left to be read from the command (see
/// [`shell_status_with_version`]).
pub fn detect_target_shell_with_pwsh_command(
    settings: &AppSettings,
    host_hint: Option<&str>,
    pwsh_command: Option<&str>,
    home: &str,
    windows: bool,
) -> (r: ShellStatus)
    ensures
        r.target_shell == chosen_target(settings.target_shell, opt_view(host_hint), pwsh_command is Some),
        r.command@ == shell_command_for(r.target_shell, opt_view(pwsh_command)),
        r.version is None,
        r.profile_path@ == profile_path_for(r.target_shell, home@, windows),
        r.message@ == "当前目标 Shell: "@ + r.command@,
{
    let target_shell = match settings.target_shell {
        TargetShell::Pwsh => TargetShell::Pwsh,
        TargetShell::Powershell => TargetShell::Powershell,
        TargetShell::Auto => if pwsh_command.is_some() {
            TargetShell::Pwsh
        } else {
            match host_hint_target(host_hint) {
                Some(t) => t,
                None => TargetShell::Powershell,
            }
        },
    };
    let command = shell_command(target_shell, pwsh_command);
    let profile_path = resolve_profile_path_for(target_shell, home, windows);
    let message = concat("当前目标 Shell: ", command.as_str());
    ShellStatus { target_shell, command, version: None, profile_path, message }
}

/// The status with the version that was read from its command.
pub fn shell_status_with_version(status: ShellStatus, version: Option<String>) -> (r: ShellStatus)
    ensures
        r.target_shell == status.target_shell,
        r.command == status.command,
        r.version == version,
        r.profile_path == status.profile_path,
        r.message == status.message,
{
    ShellStatus { version, ..status }
}

/// The first candidate flagged as an existing file.
pub open spec fn first_existing(candidates: Seq<Seq<char>>, is_file: Seq<bool>) -> Option<Seq<char>>
    decreases candidates.len(),
{
    if candidates.len() == 0 || is_file.len() == 0 {
        None
    } else if is_file[0] {
        Some(candidates[0])
    } else {
        first_existing(candidates.drop_first(), is_file.drop_first())
    }
}

/// The `pwsh` command: `pwsh` itself when it runs from `PATH`, else the first
/// candidate path that is an existing file (`candidate_is_file[i]` tells
/// whether `candidates[i]` is one).
pub fn resolve_pwsh_command_from_candidates(
    path_command_available: bool,
    candidates: &[String],
    candidate_is_file: &[bool],
) -> (r: Option<String>)
    requires
        candidates@.len() == candidate_is_file@.len(),
    ensures
        opt_string_view(r) == if path_command_available {
            Some("pwsh"@)
        } else {
            first_existing(candidates.deep_view(), candidate_is_file@)
        },
{
    if path_command_available {
        return Some("pwsh".to_string());
    }
    let mut i: usize = 0;
    assert(candidates.deep_view().skip(0) =~= candidates.deep_view());
    assert(candidate_is_file@.skip(0) =~= candidate_is_file@);
    while i < candidates.len()
        invariant
            i <= candidates@.len(),
            !path_command_available,
            candidates@.len() == candidate_is_file@.len(),
            first_existing(candidates.deep_view(), candidate_is_file@) == first_existing(
                candidates.deep_view().skip(i as int),
                candidate_is_file@.skip(i as int),
            ),
        decreases candidates@.len() - i,
    {
        let ghost c = candidates.deep_view().skip(i as int);
        let ghost f = candidate_is_file@.skip(i as int);
        assert(c.drop_first() =~= candidates.deep_view().skip(i + 1));
        assert(f.drop_first() =~= candidate_is_file@.skip(i + 1));
        if candidate_is_file[i] {
            assert(c[0] == candidates@[i as int]@);
            assert(f[0] == candidate_is_file@[i as int]);
            let found = candidates[i].clone();
            assert(found@ == c[0]);
            return Some(found);
        }
        i = i + 1;
    }
    assert(candidates.deep_view().skip(i as int).len() == 0);
    None
}

} // verus!
