use cx_manager::paths::resolve_profile_path_for;
use cx_manager::settings::{
    apply_project_root_defaults, normalized_project_roots, normalized_settings, AppSettings,
    TargetShell, DEFAULT_PROXY_URL,
};
use cx_manager::shell::{
    detect_target_shell_with_pwsh_command, host_hint_from_psmodule_path, host_hint_target,
    resolve_pwsh_command_from_candidates, shell_command, shell_status_with_version,
};

#[test]
fn default_settings_use_current_proxy() {
    let settings = AppSettings::default();

    assert_eq!(settings.target_shell, TargetShell::Auto);
    assert_eq!(settings.proxy_url, "http://10.20.34.92:7890");
    assert!(settings.use_proxy_for_tools);
    assert!(settings.project_roots.is_empty());
}

#[test]
fn project_roots_are_trimmed_and_deduplicated() {
    let roots = normalized_project_roots(&[
        " C:\\Users\\Example\\PycharmProjects ".to_string(),
        "C:\\Users\\Example\\PycharmProjects".to_string(),
        "".to_string(),
        "D:\\Code".to_string(),
    ]);

    assert_eq!(
        roots,
        vec![
            "C:\\Users\\Example\\PycharmProjects".to_string(),
            "D:\\Code".to_string()
        ]
    );
}

#[test]
fn pwsh_profile_path_uses_powershell_documents_folder() {
    let path = resolve_profile_path_for(TargetShell::Pwsh, "C:\\Users\\Example", true);

    assert_eq!(
        path,
        "C:\\Users\\Example\\Documents\\PowerShell\\Microsoft.PowerShell_profile.ps1"
    );
}

#[test]
fn windows_powershell_profile_path_uses_legacy_documents_folder() {
    let path = resolve_profile_path_for(TargetShell::Powershell, "C:\\Users\\Example", true);

    assert_eq!(
        path,
        "C:\\Users\\Example\\Documents\\WindowsPowerShell\\Microsoft.PowerShell_profile.ps1"
    );
}

#[test]
fn explicit_target_shell_wins_over_auto_detection() {
    let settings = AppSettings {
        target_shell: TargetShell::Powershell,
        proxy_url: "http://10.20.34.92:7890".to_string(),
        use_proxy_for_tools: true,
        project_roots: Vec::new(),
    };

    let detected = detect_target_shell_with_pwsh_command(
        &settings,
        Some("pwsh"),
        Some("pwsh"),
        "C:\\Users\\Example",
        true,
    );

    assert_eq!(detected.target_shell, TargetShell::Powershell);
    assert_eq!(detected.command, "powershell.exe");
}

#[test]
fn mixed_psmodulepath_does_not_force_windows_powershell() {
    let value = [
        r"C:\Users\Example\Documents\PowerShell\Modules",
        r"C:\Program Files\PowerShell\Modules",
        r"C:\Program Files\WindowsPowerShell\Modules",
        r"C:\Windows\system32\WindowsPowerShell\v1.0\Modules",
    ]
    .join(";");

    assert_eq!(host_hint_from_psmodule_path(&value), None);

    let settings = AppSettings::default();
    let detected = detect_target_shell_with_pwsh_command(
        &settings,
        host_hint_from_psmodule_path(&value).as_deref(),
        Some("pwsh"),
        "C:\\Users\\Example",
        true,
    );

    assert_eq!(detected.target_shell, TargetShell::Pwsh);
    assert_eq!(detected.command, "pwsh");
}

#[test]
fn auto_prefers_available_pwsh_over_windows_powershell_hint() {
    let settings = AppSettings::default();
    let detected = detect_target_shell_with_pwsh_command(
        &settings,
        Some("powershell"),
        Some("pwsh"),
        "C:\\Users\\Example",
        true,
    );

    assert_eq!(detected.target_shell, TargetShell::Pwsh);
}

#[test]
fn pwsh_candidate_path_is_used_when_path_lookup_fails() {
    let temp = tempfile::tempdir().expect("tempdir");
    let missing = temp.path().join("missing").join("pwsh.exe");
    let candidate = tempfile::Builder::new()
        .prefix("pwsh")
        .suffix(".exe")
        .tempfile_in(temp.path())
        .expect("create candidate file");
    let pwsh = candidate.path().to_path_buf();

    let candidates = vec![
        missing.to_string_lossy().to_string(),
        pwsh.to_string_lossy().to_string(),
    ];
    let is_file = vec![missing.is_file(), pwsh.is_file()];
    let resolved = resolve_pwsh_command_from_candidates(false, &candidates, &is_file);

    assert_eq!(resolved.as_deref(), Some(pwsh.to_string_lossy().as_ref()));
}

#[test]
fn legacy_only_psmodulepath_can_hint_windows_powershell() {
    let value = [
        r"C:\Users\Example\Documents\WindowsPowerShell\Modules",
        r"C:\Windows\system32\WindowsPowerShell\v1.0\Modules",
    ]
    .join(";");

    assert_eq!(
        host_hint_from_psmodule_path(&value).as_deref(),
        Some("powershell")
    );
}

#[test]
fn pwsh_on_path_wins_over_candidates() {
    let candidates = vec!["C:\\Program Files\\PowerShell\\7\\pwsh.exe".to_string()];
    assert_eq!(
        resolve_pwsh_command_from_candidates(true, &candidates, &[true]).as_deref(),
        Some("pwsh")
    );
    assert_eq!(
        resolve_pwsh_command_from_candidates(false, &candidates, &[false]),
        None
    );
    assert_eq!(
        resolve_pwsh_command_from_candidates(false, &candidates, &[true]).as_deref(),
        Some("C:\\Program Files\\PowerShell\\7\\pwsh.exe")
    );
}

#[test]
fn auto_without_pwsh_falls_back_to_windows_powershell() {
    let settings = AppSettings::default();
    let detected =
        detect_target_shell_with_pwsh_command(&settings, None, None, "C:\\Users\\Example", true);

    assert_eq!(detected.target_shell, TargetShell::Powershell);
    assert_eq!(detected.command, "powershell.exe");
    assert_eq!(
        detected.profile_path,
        "C:\\Users\\Example\\Documents\\WindowsPowerShell\\Microsoft.PowerShell_profile.ps1"
    );
    assert_eq!(detected.version, None);
    assert_eq!(detected.message, "当前目标 Shell: powershell.exe");

    let with_version = shell_status_with_version(detected, Some("5.1".to_string()));
    assert_eq!(with_version.version.as_deref(), Some("5.1"));
}

#[test]
fn unix_profile_path_uses_slashes() {
    let path = resolve_profile_path_for(TargetShell::Pwsh, "/home/example", false);
    assert_eq!(
        path,
        "/home/example/Documents/PowerShell/Microsoft.PowerShell_profile.ps1"
    );
}

#[test]
fn host_hints_are_recognised_case_insensitively() {
    assert_eq!(host_hint_target(Some(" PWSH ")), Some(TargetShell::Pwsh));
    assert_eq!(
        host_hint_target(Some("WindowsPowerShell")),
        Some(TargetShell::Powershell)
    );
    assert_eq!(host_hint_target(Some("bash")), None);
    assert_eq!(host_hint_target(None), None);
    assert_eq!(host_hint_from_psmodule_path(""), None);
}

#[test]
fn shell_command_depends_on_target() {
    assert_eq!(shell_command(TargetShell::Powershell, Some("pwsh")), "powershell.exe");
    assert_eq!(shell_command(TargetShell::Pwsh, Some("C:\\pwsh.exe")), "C:\\pwsh.exe");
    assert_eq!(shell_command(TargetShell::Auto, None), "pwsh");
}

#[test]
fn settings_are_normalized_with_default_proxy() {
    let settings = AppSettings {
        target_shell: TargetShell::Pwsh,
        proxy_url: "   ".to_string(),
        use_proxy_for_tools: false,
        project_roots: vec![" D:\\Code ".to_string(), "d:\\code".to_string()],
    };
    let normalized = normalized_settings(settings);
    assert_eq!(normalized.proxy_url, DEFAULT_PROXY_URL);
    assert_eq!(normalized.project_roots, vec!["D:\\Code".to_string()]);
    assert_eq!(normalized.target_shell, TargetShell::Pwsh);
    assert!(!normalized.use_proxy_for_tools);

    let trimmed = normalized_settings(AppSettings {
        proxy_url: " http://127.0.0.1:7890 ".to_string(),
        ..AppSettings::default()
    });
    assert_eq!(trimmed.proxy_url, "http://127.0.0.1:7890");
}

#[test]
fn empty_roots_default_to_pycharm_projects() {
    let mut settings = AppSettings::default();
    apply_project_root_defaults(&mut settings, "C:\\Users\\Example", true, true);
    assert_eq!(
        settings.project_roots,
        vec!["C:\\Users\\Example\\PycharmProjects".to_string()]
    );

    let mut without = AppSettings::default();
    apply_project_root_defaults(&mut without, "C:\\Users\\Example", false, true);
    assert!(without.project_roots.is_empty());

    let mut kept = AppSettings {
        project_roots: vec![" D:\\Work ".to_string()],
        ..AppSettings::default()
    };
    apply_project_root_defaults(&mut kept, "C:\\Users\\Example", true, true);
    assert_eq!(kept.project_roots, vec!["D:\\Work".to_string()]);
}

#[test]
fn normalizing_roots_twice_changes_nothing() {
    let once = normalized_project_roots(&[
        " a ".to_string(),
        "A".to_string(),
        "\t".to_string(),
        "b".to_string(),
    ]);
    let twice = normalized_project_roots(&once);
    assert_eq!(once, vec!["a".to_string(), "b".to_string()]);
    assert_eq!(once, twice);
}

#[test]
fn normalized_settings_are_stable() {
    let settings = AppSettings {
        target_shell: TargetShell::Auto,
        proxy_url: "\t".to_string(),
        use_proxy_for_tools: true,
        project_roots: vec![" x ".to_string(), "X".to_string(), "y".to_string()],
    };
    let once = normalized_settings(settings);
    let twice = normalized_settings(once.clone());
    assert_eq!(once, twice);
    assert_eq!(once.proxy_url, DEFAULT_PROXY_URL);
}

#[test]
fn absolute_parts_replace_the_base() {
    let join = cx_manager::paths::join_path_str;
    assert_eq!(join("/home/a", "/etc/x", false), "/etc/x");
    assert_eq!(join("/home/a", "etc", false), "/home/a/etc");
    assert_eq!(join("C:\\Users\\a", "D:\\x", true), "D:\\x");
    assert_eq!(join("C:\\Users\\a", "\\x", true), "C:\\x");
    assert_eq!(join("rel", "\\x", true), "\\x");
    assert_eq!(join("C:", "x", true), "C:x");
    assert_eq!(join("C:\\a\\", "x", true), "C:\\a\\x");
    assert_eq!(join("", "x", false), "x");
}

#[test]
fn unc_prefixes_are_joined_like_other_prefixes() {
    let join = cx_manager::paths::join_path_str;
    let modelled = cx_manager::paths::join_is_modelled;
    assert_eq!(join("C:\\a", "\\\\srv\\share\\x", true), "\\\\srv\\share\\x");
    assert_eq!(join("C:\\a", "\\\\srv\\share", true), "\\\\srv\\share");
    assert_eq!(join("\\\\srv\\share\\dir", "\\x", true), "\\\\srv\\share\\x");
    assert_eq!(join("\\\\srv\\share", "\\x", true), "\\\\srv\\share\\x");
    assert_eq!(join("\\\\srv\\share", "x", true), "\\\\srv\\share\\x");
    assert_eq!(join("\\\\srv\\share\\", "x", true), "\\\\srv\\share\\x");
    assert!(modelled("C:\\a", "\\\\srv\\share\\x", true));
    assert!(modelled("\\\\srv\\share", "\\x", true));
    assert!(modelled("\\\\?\\C:\\a", "x", true));
    assert!(!modelled("C:\\a", "\\\\?\\C:\\x", true));
    assert!(!modelled("C:\\a", "\\\\.\\COM1", true));
    assert!(!modelled("C:\\a", "\\\\srv", true));
    assert!(!modelled("C:\\a", "\\\\srv\\", true));
    assert!(!modelled("\\\\?\\C:\\a", "\\x", true));
    assert!(modelled("//srv/share", "/x", false));
    assert_eq!(
        cx_manager::paths::npm_global_command_candidates("codex", "\\\\srv\\npm", true)[0],
        "\\\\srv\\npm\\codex.cmd"
    );
}
