use cx_manager::paths::{backup_file_name, temp_file_name};
use cx_manager::profile::{
    build_managed_profile_block, build_profile_content, build_project_roots_block,
    build_proxy_block, default_function_source, default_terminal_function_names,
    has_powershell_function, has_project_roots_block, has_proxy_block,
    initialize_profile_if_needed, profile_file_bytes, profile_status_for, ps_escape,
    ps_single_quote_escape, sanitize_profile_content, strip_existing_cxmanager_blocks,
    strip_legacy_helper_block, strip_profile_bom, syntax_check_command, syntax_check_result,
    MANAGED_BLOCK_END, MANAGED_BLOCK_START, SYNTAX_CHECK_SILENT_FAILURE,
};
use cx_manager::settings::{AppSettings, DEFAULT_PROXY_URL};

#[test]
fn generated_profile_contains_proxy_and_project_roots_blocks() {
    let content = build_profile_content(
        "",
        "http://10.20.34.92:7890",
        &["C:\\Users\\Example\\PycharmProjects".to_string()],
    );

    assert!(content.contains("$CX_MANAGER_PROXY_URL = \"http://10.20.34.92:7890\""));
    assert!(content.contains("$CX_MANAGER_PROJECT_ROOTS = @("));
    assert!(content.contains("\"C:\\Users\\Example\\PycharmProjects\""));
}

#[test]
fn generated_profile_adds_tool_paths_even_when_user_cx_is_preserved() {
    let content = build_profile_content(
        "function cx { codex @args }\n",
        DEFAULT_PROXY_URL,
        &["C:\\Users\\Example\\PycharmProjects".to_string()],
    );

    assert_eq!(content.matches("function cx").count(), 1);
    assert!(content.contains("function Add-CXManagerToolPath"));
    assert!(content.contains("function Invoke-CXManagerCodex"));
    assert!(content.contains("prefix -g"));
    assert!(content.contains("ProgramFiles"));
}

#[test]
fn injects_missing_codex_terminal_helpers() {
    let content = build_profile_content("", DEFAULT_PROXY_URL, &[]);

    for function_name in [
        "proxy",
        "unproxy",
        "Show-CXMenu",
        "Get-CXManagerProjectFolders",
        "Resolve-CXManagerCodexCommand",
        "Invoke-CXManagerCodex",
        "cx",
    ] {
        assert!(
            has_powershell_function(&content, function_name),
            "missing generated helper {function_name}"
        );
    }
    assert!(content.contains("Invoke-CXManagerCodex -s danger-full-access -a never @args"));
}

#[test]
fn preserves_existing_cx_function() {
    let content = "function cx { Write-Host \"custom cx\" }\n";
    let updated = build_profile_content(content, DEFAULT_PROXY_URL, &[]);

    assert_eq!(updated.matches("function cx").count(), 1);
    assert!(updated.contains("Write-Host \"custom cx\""));
    assert!(has_powershell_function(&updated, "proxy"));
}

#[test]
fn updating_managed_blocks_does_not_duplicate_them() {
    let first = build_profile_content("", "http://10.20.34.92:7890", &["C:\\Code".to_string()]);
    let second = build_profile_content(&first, "http://127.0.0.1:7890", &["D:\\Work".to_string()]);

    assert_eq!(second.matches("$CX_MANAGER_PROXY_URL =").count(), 1);
    assert_eq!(second.matches("$CX_MANAGER_PROJECT_ROOTS = @(").count(), 1);
    assert!(second.contains("$CX_MANAGER_PROXY_URL = \"http://127.0.0.1:7890\""));
    assert!(second.contains("\"D:\\Work\""));
    assert!(!second.contains("\"C:\\Code\""));
}

#[test]
fn truncated_legacy_helper_block_is_discarded_before_rebuild() {
    let content = "Write-Host \"before\"\n\n# CX-Manager default terminal helpers\nfunction proxy {\n";
    let updated = build_profile_content(content, DEFAULT_PROXY_URL, &[]);

    assert!(updated.contains("Write-Host \"before\""));
    assert!(updated.contains("# >>> CX-Manager managed profile"));
    assert!(updated.contains("# <<< CX-Manager managed profile"));
    assert_eq!(updated.matches("function proxy").count(), 1);
}

#[test]
fn legacy_helper_block_is_replaced_instead_of_preserved() {
    let content = r#"function proxy {
    Write-Host "old proxy"
}

# CX-Manager default terminal helpers
function Show-CXMenu {
    Write-Host "old menu"
}
"#;
    let updated = build_profile_content(content, DEFAULT_PROXY_URL, &[]);

    assert!(updated.contains("Write-Host \"old proxy\""));
    assert!(!updated.contains("Write-Host \"old menu\""));
    assert!(updated.contains("# >>> CX-Manager managed profile"));
    assert_eq!(
        updated
            .matches("# CX-Manager default terminal helpers")
            .count(),
        0
    );
}

#[test]
fn profile_content_drops_nul_bytes_when_rewritten() {
    let content = "Write-Host \"before\"\n\0\nWrite-Host \"after\"";
    let updated = build_profile_content(content, DEFAULT_PROXY_URL, &[]);

    assert!(!updated.contains('\0'));
    assert!(updated.contains("Write-Host \"before\""));
    assert!(updated.contains("Write-Host \"after\""));
}

#[test]
fn powershell_escaping_doubles_backticks_and_quotes() {
    assert_eq!(ps_escape("a`b\"c"), "a``b`\"c");
    assert_eq!(ps_escape("plain"), "plain");
    assert_eq!(ps_single_quote_escape("it's"), "it''s");
    assert_eq!(
        build_proxy_block("  http://x\"y  "),
        "$CX_MANAGER_PROXY_URL = \"http://x`\"y\""
    );
}

#[test]
fn roots_block_lists_normalized_roots() {
    let block = build_project_roots_block(&[
        " D:\\Code ".to_string(),
        "d:\\code".to_string(),
        "E:\\\"quoted\"".to_string(),
    ]);
    assert_eq!(
        block,
        "$CX_MANAGER_PROJECT_ROOTS = @(\n    \"D:\\Code\"\n    \"E:\\`\"quoted`\"\"\n)"
    );
    assert_eq!(build_project_roots_block(&[]), "$CX_MANAGER_PROJECT_ROOTS = @(\n)");
}

#[test]
fn function_detection_ignores_case_and_requires_word_end() {
    assert!(has_powershell_function("  FUNCTION Proxy {", "proxy"));
    assert!(!has_powershell_function("function proxyx {", "proxy"));
    assert!(!has_powershell_function("# function proxy", "proxy"));
    assert!(has_powershell_function("x\nfunction Show-CXMenu {}", "Show-CXMenu"));
}

#[test]
fn helper_sources_are_known_by_name() {
    let names = default_terminal_function_names();
    assert_eq!(names.len(), 7);
    for name in names {
        let source = default_function_source(name).expect("source");
        assert!(has_powershell_function(source, name));
    }
    assert_eq!(default_function_source("other"), None);
}

#[test]
fn managed_block_leaves_out_helpers_the_user_defines() {
    let block = build_managed_profile_block("http://p", &[], "function cx { }");
    assert!(block.starts_with(MANAGED_BLOCK_START));
    assert!(block.ends_with(MANAGED_BLOCK_END));
    assert!(!block.contains("function cx "));
    assert!(block.contains("function proxy"));
}

#[test]
fn existing_blocks_are_stripped() {
    let first = build_profile_content("Write-Host 1\n", "http://a", &["C:\\A".to_string()]);
    let stripped = strip_existing_cxmanager_blocks(&first);
    assert!(!stripped.contains(MANAGED_BLOCK_START));
    assert!(stripped.contains("Write-Host 1"));
    assert_eq!(
        strip_legacy_helper_block("keep  \n# CX-Manager default terminal helpers\nrest"),
        "keep"
    );
    assert_eq!(strip_legacy_helper_block("nothing here"), "nothing here");
    assert_eq!(sanitize_profile_content("a\0b\0"), "ab");
}

#[test]
fn rebuilding_a_built_profile_is_stable() {
    let roots = vec!["C:\\Code".to_string()];
    let first = build_profile_content("Write-Host \"mine\"\n", DEFAULT_PROXY_URL, &roots);
    let second = build_profile_content(&first, DEFAULT_PROXY_URL, &roots);
    assert_eq!(first, second);

    let settings = AppSettings {
        project_roots: roots.clone(),
        ..AppSettings::default()
    };
    let (changed, content) = initialize_profile_if_needed(&first, &settings);
    assert!(!changed);
    assert_eq!(content, first);

    let (changed, content) = initialize_profile_if_needed("", &settings);
    assert!(changed);
    assert_eq!(content, build_profile_content("", DEFAULT_PROXY_URL, &roots));
}

#[test]
fn profile_status_reports_missing_parts() {
    let status = profile_status_for("C:\\p.ps1", false, "function cx { }");
    assert_eq!(status.profile_path, "C:\\p.ps1");
    assert!(!status.exists);
    assert!(!status.has_proxy_block);
    assert!(!status.has_project_roots_block);
    assert_eq!(
        status.missing_helpers,
        vec![
            "proxy".to_string(),
            "unproxy".to_string(),
            "Show-CXMenu".to_string(),
            "Get-CXManagerProjectFolders".to_string(),
            "Resolve-CXManagerCodexCommand".to_string(),
            "Invoke-CXManagerCodex".to_string(),
        ]
    );
    assert!(!status.is_complete);
    assert_eq!(status.message, "Profile 缺少 CX-Manager 必要配置");

    let full = build_profile_content("", DEFAULT_PROXY_URL, &[]);
    let status = profile_status_for("C:\\p.ps1", true, &full);
    assert!(status.exists);
    assert!(status.has_proxy_block);
    assert!(status.has_project_roots_block);
    assert!(status.missing_helpers.is_empty());
    assert!(status.is_complete);
    assert_eq!(status.message, "Profile 已包含 CX-Manager 必要配置");
    assert!(has_proxy_block("  $CX_MANAGER_PROXY_URL = 1"));
    assert!(has_project_roots_block("$CX_MANAGER_PROJECT_ROOTS = @(\n \"a\"\n)"));
    assert!(!has_project_roots_block("$CX_MANAGER_PROJECT_ROOTS = @("));
}

#[test]
fn written_profile_reads_back() {
    let content = "Write-Host \"你好\"\n";
    let bytes = profile_file_bytes(content);
    assert_eq!(&bytes[..3], &[0xEF, 0xBB, 0xBF]);
    let text = std::str::from_utf8(&bytes).expect("utf-8");
    assert_eq!(strip_profile_bom(text), content);
    assert_eq!(strip_profile_bom("\u{feff}\u{feff}x"), "x");
}

#[test]
fn backup_and_temp_names_follow_the_profile_name() {
    assert_eq!(
        backup_file_name(Some("profile.ps1")),
        "profile.ps1.cxmanager.bak"
    );
    assert_eq!(
        backup_file_name(None),
        "Microsoft.PowerShell_profile.ps1.cxmanager.bak"
    );
    assert_eq!(
        temp_file_name(Some("profile.ps1"), 4321),
        ".profile.ps1.cxmanager.4321.tmp"
    );
    assert_eq!(
        temp_file_name(None, 0),
        ".Microsoft.PowerShell_profile.ps1.cxmanager.0.tmp"
    );
}

#[test]
fn syntax_check_reports_parser_errors() {
    let command = syntax_check_command("C:\\it's.ps1");
    assert!(command.contains("'C:\\it''s.ps1'"));
    assert_eq!(syntax_check_result(true, b"OK\r\n", b""), Ok(()));
    assert_eq!(
        syntax_check_result(true, b"", b""),
        Err(SYNTAX_CHECK_SILENT_FAILURE.to_string())
    );
    assert_eq!(
        syntax_check_result(false, b"", b" line 3: missing brace \n"),
        Err("line 3: missing brace".to_string())
    );
    assert_eq!(
        syntax_check_result(false, b"stdout error", b""),
        Err("stdout error".to_string())
    );
    assert_eq!(
        syntax_check_result(false, b"", b""),
        Err(SYNTAX_CHECK_SILENT_FAILURE.to_string())
    );
}

#[test]
fn function_names_are_matched_literally() {
    assert!(has_powershell_function("function a.b {", "a.b"));
    assert!(!has_powershell_function("function axb {", "a.b"));
    assert!(has_powershell_function("function a(b {", "a(b"));
}

#[test]
fn stripping_a_built_profile_leaves_the_user_text() {
    let user = "Write-Host \"mine\"\r\nfunction cx { }\n";
    let built = build_profile_content(user, "http://a", &["C:\\A".to_string()]);
    assert_eq!(strip_existing_cxmanager_blocks(&built), format!("\n\n{user}"));
    let blank = build_profile_content("", "http://a", &[]);
    assert_eq!(strip_existing_cxmanager_blocks(&blank), "\n");
    let status = profile_status_for("p", true, &built);
    assert!(status.is_complete);
    let rebuilt = build_profile_content(&built, "http://b", &["D:\\B".to_string()]);
    assert_eq!(rebuilt, build_profile_content(user, "http://b", &["D:\\B".to_string()]));
}

#[test]
fn regex_facts_hold_on_edge_cases() {
    let text = format!("{MANAGED_BLOCK_START}\n body \n{MANAGED_BLOCK_END}\r\nrest");
    assert_eq!(
        cx_manager::profile::strip_marked_managed_blocks(&text),
        "\nrest"
    );
    let text = format!("{MANAGED_BLOCK_START}\n\n{MANAGED_BLOCK_END}tail");
    assert_eq!(
        cx_manager::profile::strip_marked_managed_blocks(&text),
        "\ntail"
    );
    for lead in ["", "\r", "\n", "\r\n", "\n\r", "\r\r\n\n"] {
        for body in ["function cx {", " function cx {", "\tfunction cx {", "x\nfunction cx {", "function cxy {"] {
            let a = has_powershell_function(&format!("{lead}{body}"), "cx");
            let b = has_powershell_function(&format!("\n\n{body}"), "cx");
            assert_eq!(a, b, "{lead:?}{body:?}");
        }
    }
    assert!(has_proxy_block("x\n$CX_MANAGER_PROXY_URL = \"y\""));
    assert!(has_project_roots_block("$CX_MANAGER_PROJECT_ROOTS = @(\n)"));
}

#[test]
fn blank_user_text_gets_every_helper_and_rebuilds_stably() {
    for blank in ["", "\n", "\r\n  \t", " \u{a0}\n"] {
        let built = build_profile_content(blank, "http://a", &["C:\\A".to_string()]);
        assert_eq!(built, build_profile_content("", "http://a", &["C:\\A".to_string()]));
        assert!(built.ends_with(&format!("{MANAGED_BLOCK_END}\n")));
        for name in default_terminal_function_names() {
            assert!(has_powershell_function(&built, name), "{name}");
            assert!(!has_powershell_function(blank, name), "{name}");
        }
        assert!(profile_status_for("p", true, &built).is_complete);
        assert_eq!(strip_existing_cxmanager_blocks(&built), "\n");
        let rebuilt = build_profile_content(&built, "http://b", &[]);
        assert_eq!(rebuilt, build_profile_content(blank, "http://b", &[]));
    }
}
