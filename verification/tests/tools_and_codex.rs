use cx_manager::commands::{
    collect_stream_message, command_invocation_with_proxy, install_codex_invocation,
    install_nodejs_invocation, invocation_output_result, latest_codex_invocation,
    shell_version_from_output, streaming_output_result, tool_proxy_url, update_codex_invocation,
};
use cx_manager::decode::{decode_command_output, decode_command_output_raw, decode_stream_pending};
use cx_manager::paths::{default_pwsh_candidate_paths, npm_global_command_candidates};
use cx_manager::settings::{AppSettings, TargetShell};
use cx_manager::status::{
    check_codex_status, check_runtime_status, codex_install_completion_message,
    codex_status_from_results, codex_update_completion_message, executable_paths,
    local_codex_result, node_install_completion_message, npm_global_executable_paths,
    npm_global_prefix,
    preferred_executable_path, push_unique_path, repair_result, save_result,
    tool_action_result_with_runtime, tool_status, CodexStatus, RuntimeStatus, ToolStatus,
    ToolchainStatus, CODEX_NOT_FOUND, NPM_MISSING_FOR_LATEST,
};
use cx_manager::version::{compare_semver, parse_codex_version};
use std::cmp::Ordering;

#[test]
fn parses_codex_cli_version_output() {
    assert_eq!(
        parse_codex_version("codex-cli 0.136.0"),
        Some("0.136.0".to_string())
    );
    assert_eq!(parse_codex_version("0.137.1"), Some("0.137.1".to_string()));
}

#[test]
fn compares_semantic_versions_for_update_availability() {
    assert_eq!(
        compare_semver("0.137.0", "0.136.0"),
        Ordering::Greater
    );
    assert_eq!(
        compare_semver("0.136.0", "0.136.0"),
        Ordering::Equal
    );
    assert_eq!(
        compare_semver("0.135.9", "0.136.0"),
        Ordering::Less
    );
}

#[test]
fn windows_npm_shim_commands_run_through_cmd() {
    let invocation = command_invocation_with_proxy("codex", &["--version"], None, true);
    assert_eq!(invocation.program, "cmd.exe");
    assert_eq!(
        invocation.args,
        vec![
            "/C".to_string(),
            "codex".to_string(),
            "--version".to_string()
        ]
    );

    let invocation = command_invocation_with_proxy("codex", &["--version"], None, false);
    assert_eq!(invocation.program, "codex");
    assert_eq!(invocation.args, vec!["--version".to_string()]);
}

#[test]
fn windows_exe_commands_still_run_directly() {
    for windows in [true, false] {
        let invocation = command_invocation_with_proxy("where.exe", &["codex"], None, windows);

        assert_eq!(invocation.program, "where.exe");
        assert_eq!(invocation.args, vec!["codex".to_string()]);
    }
    let upper = command_invocation_with_proxy("TOOL.EXE", &[], None, true);
    assert_eq!(upper.program, "TOOL.EXE");
}

#[test]
fn proxy_url_is_injected_into_update_commands() {
    let invocation = command_invocation_with_proxy(
        "npm",
        &["view", "@openai/codex", "version"],
        Some(" http://10.20.34.92:7890 "),
        true,
    );

    for key in [
        "HTTP_PROXY",
        "HTTPS_PROXY",
        "ALL_PROXY",
        "http_proxy",
        "https_proxy",
        "all_proxy",
    ] {
        assert_eq!(
            invocation
                .env
                .iter()
                .find(|(name, _)| name == key)
                .map(|(_, value)| value.as_str()),
            Some("http://10.20.34.92:7890")
        );
    }
}

#[test]
fn tool_proxy_setting_can_disable_proxy_env() {
    let settings = AppSettings {
        target_shell: TargetShell::Auto,
        proxy_url: "http://10.20.34.92:7890".to_string(),
        use_proxy_for_tools: false,
        project_roots: Vec::new(),
    };

    assert_eq!(tool_proxy_url(&settings), None);
    assert!(install_codex_invocation(tool_proxy_url(&settings), true)
        .env
        .is_empty());
    assert!(install_nodejs_invocation(tool_proxy_url(&settings), true)
        .env
        .is_empty());
}

#[test]
fn install_invocations_use_proxy_when_enabled() {
    let settings = AppSettings {
        target_shell: TargetShell::Auto,
        proxy_url: "http://10.20.34.92:7890".to_string(),
        use_proxy_for_tools: true,
        project_roots: Vec::new(),
    };

    let codex = install_codex_invocation(tool_proxy_url(&settings), true);
    assert!(codex.args.iter().any(|arg| arg == "@openai/codex"));
    assert!(codex
        .env
        .iter()
        .any(|(key, value)| key == "HTTPS_PROXY" && value == "http://10.20.34.92:7890"));

    let node = install_nodejs_invocation(tool_proxy_url(&settings), true);
    assert!(node.args.iter().any(|arg| arg == "OpenJS.NodeJS.LTS"));
    assert!(node
        .env
        .iter()
        .any(|(key, value)| key == "HTTPS_PROXY" && value == "http://10.20.34.92:7890"));
}

#[test]
fn installer_invocations_hide_external_console_windows_on_windows() {
    let settings = AppSettings::default();

    for windows in [true, false] {
        for invocation in [
            install_codex_invocation(tool_proxy_url(&settings), windows),
            install_nodejs_invocation(tool_proxy_url(&settings), windows),
            command_invocation_with_proxy("codex", &["update"], tool_proxy_url(&settings), windows),
        ] {
            assert_eq!(invocation.hide_window, windows);
        }
    }
}

#[test]
fn executable_paths_include_npm_global_shim_when_path_lookup_misses() {
    let prefix = "C:\\npm prefix with space";
    let command = "cxmanager-test-codex";
    let candidates = npm_global_command_candidates(command, prefix, true);
    assert_eq!(candidates[0], "C:\\npm prefix with space\\cxmanager-test-codex.cmd");
    let shim = candidates[0].clone();

    let paths = executable_paths(None, &[shim.clone()]);
    assert!(paths.iter().any(|path| path.eq_ignore_ascii_case(&shim)));

    let unix = npm_global_command_candidates(command, "/opt/npm", false);
    assert_eq!(
        unix,
        vec![
            "/opt/npm/bin/cxmanager-test-codex".to_string(),
            "/opt/npm/cxmanager-test-codex".to_string()
        ]
    );
}

#[test]
fn blank_proxy_url_does_not_inject_proxy_env() {
    let invocation = command_invocation_with_proxy(
        "npm",
        &["view", "@openai/codex", "version"],
        Some(" "),
        true,
    );

    assert!(invocation.env.is_empty());
}

fn tool_status_for_test(installed: bool, name: &str) -> ToolStatus {
    ToolStatus {
        installed,
        version: if installed {
            Some("1.0.0".to_string())
        } else {
            None
        },
        executable_paths: if installed {
            vec![format!("C:\\Tools\\{name}.cmd")]
        } else {
            Vec::new()
        },
        warning: None,
        message: name.to_string(),
    }
}

fn runtime_status_for_test(npm_installed: bool, codex_version: Option<&str>) -> RuntimeStatus {
    RuntimeStatus {
        toolchain_status: ToolchainStatus {
            node: tool_status_for_test(npm_installed, "node"),
            npm: tool_status_for_test(npm_installed, "npm"),
        },
        codex_status: CodexStatus {
            executable_paths: codex_version
                .map(|_| vec!["C:\\Tools\\codex.cmd".to_string()])
                .unwrap_or_default(),
            local_version: codex_version.map(ToOwned::to_owned),
            latest_version: Some("0.137.0".to_string()),
            update_available: false,
            warning: None,
            message: "test".to_string(),
        },
    }
}

#[test]
fn install_completion_messages_explain_failed_post_install_detection() {
    let npm_without_codex = runtime_status_for_test(true, None);
    assert!(codex_install_completion_message(&npm_without_codex).contains("仍未检测到 Codex CLI"));
    assert!(codex_install_completion_message(&npm_without_codex).contains("PATH"));

    let no_npm = runtime_status_for_test(false, None);
    assert!(codex_install_completion_message(&no_npm).contains("仍未检测到 npm"));
    assert!(node_install_completion_message(&no_npm).contains("仍未检测到 npm"));

    let installed = runtime_status_for_test(true, Some("0.137.0"));
    assert_eq!(
        codex_install_completion_message(&installed),
        "Codex CLI 安装命令已完成"
    );
}

#[test]
fn gbk_command_output_is_decoded_for_windows_errors() {
    let bytes = [0xB2, 0xBB, 0xCA, 0xC7];

    assert_eq!(decode_command_output(&bytes), "不是");
}

#[test]
fn stream_decoder_preserves_split_utf8_output() {
    let mut pending = vec![0xE4, 0xBD];

    assert_eq!(decode_stream_pending(&mut pending, false), None);
    pending.push(0xA0);

    assert_eq!(
        decode_stream_pending(&mut pending, false).as_deref(),
        Some("你")
    );
    assert!(pending.is_empty());
}

#[test]
fn latest_version_failure_is_warning_not_load_failure() {
    let status = codex_status_from_results(
        Ok((
            "codex-cli 0.136.0".to_string(),
            vec!["C:\\Program Files\\nodejs\\codex.cmd".to_string()],
        )),
        Err("npm view failed".to_string()),
    );

    assert_eq!(status.local_version.as_deref(), Some("0.136.0"));
    assert_eq!(status.latest_version, None);
    assert!(!status.update_available);
    assert!(status
        .warning
        .as_deref()
        .unwrap_or_default()
        .contains("npm view failed"));
}

#[test]
fn stream_decoder_keeps_only_the_incomplete_tail() {
    let mut pending = vec![b'a', b'b', 0xE4, 0xBD];
    assert_eq!(
        decode_stream_pending(&mut pending, false).as_deref(),
        Some("ab")
    );
    assert_eq!(pending, vec![0xE4, 0xBD]);

    let mut empty: Vec<u8> = Vec::new();
    assert_eq!(decode_stream_pending(&mut empty, true), None);

    let mut ascii = b"done\n".to_vec();
    assert_eq!(
        decode_stream_pending(&mut ascii, true).as_deref(),
        Some("done\n")
    );
    assert!(ascii.is_empty());

    let mut gbk = vec![0xB2, 0xBB, 0xCA, 0xC7];
    assert_eq!(decode_stream_pending(&mut gbk, false).as_deref(), Some("不是"));
    assert!(gbk.is_empty());
}

#[test]
fn command_output_is_utf8_first_then_gbk() {
    assert_eq!(decode_command_output_raw(b""), "");
    assert_eq!(decode_command_output_raw(" 你 ".as_bytes()), " 你 ");
    assert_eq!(decode_command_output(" ok \r\n".as_bytes()), "ok");
}

#[test]
fn command_results_prefer_error_output() {
    assert_eq!(
        invocation_output_result("npm", true, b" out \n", b" warn "),
        Ok(("out".to_string(), "warn".to_string()))
    );
    assert_eq!(
        invocation_output_result("npm", false, b"out", b" bad "),
        Err("bad".to_string())
    );
    assert_eq!(
        invocation_output_result("npm", false, b" out ", b""),
        Err("out".to_string())
    );
    assert_eq!(
        invocation_output_result("npm", false, b"", b""),
        Err("npm 执行失败，但没有输出错误详情".to_string())
    );
    assert_eq!(
        streaming_output_result("codex update", false, "", "  "),
        Err("codex update 执行失败，但没有输出错误详情".to_string())
    );
}

#[test]
fn shell_version_needs_output() {
    assert_eq!(
        shell_version_from_output("pwsh", true, b"7.4.1\r\n", b""),
        Ok("7.4.1".to_string())
    );
    assert_eq!(
        shell_version_from_output("pwsh", true, b"", b"boom"),
        Err("boom".to_string())
    );
    assert_eq!(
        shell_version_from_output("pwsh", false, b"7.4.1", b""),
        Err("pwsh 未返回有效版本信息".to_string())
    );
}

#[test]
fn stream_messages_go_to_their_stream() {
    let mut out = String::new();
    let mut err = String::new();
    collect_stream_message("stdout", "a", &mut out, &mut err);
    collect_stream_message("stderr", "b", &mut out, &mut err);
    collect_stream_message("other", "c", &mut out, &mut err);
    assert_eq!(out, "ac");
    assert_eq!(err, "b");
}

#[test]
fn other_invocations_are_built_alike() {
    let update = update_codex_invocation(Some("http://p"), false);
    assert_eq!(update.program, "codex");
    assert_eq!(update.args, vec!["update".to_string()]);
    assert_eq!(update.env.len(), 6);

    let latest = latest_codex_invocation(None, true);
    assert_eq!(latest.program, "cmd.exe");
    assert_eq!(
        latest.args,
        vec![
            "/C".to_string(),
            "npm".to_string(),
            "view".to_string(),
            "@openai/codex".to_string(),
            "version".to_string()
        ]
    );
    assert!(latest.env.is_empty());
}

#[test]
fn unique_paths_ignore_case_and_blanks() {
    let mut paths = vec!["C:\\A\\codex.cmd".to_string()];
    push_unique_path(&mut paths, "c:\\a\\CODEX.CMD".to_string());
    push_unique_path(&mut paths, "  ".to_string());
    push_unique_path(&mut paths, "C:\\B\\codex.cmd".to_string());
    assert_eq!(
        paths,
        vec!["C:\\A\\codex.cmd".to_string(), "C:\\B\\codex.cmd".to_string()]
    );

    let found = executable_paths(
        Some(" C:\\A\\codex.cmd \r\n\r\nC:\\A\\codex\r\nc:\\a\\codex.CMD\n"),
        &["C:\\A\\codex".to_string(), "C:\\npm\\codex.cmd".to_string()],
    );
    assert_eq!(
        found,
        vec![
            "C:\\A\\codex.cmd".to_string(),
            "C:\\A\\codex".to_string(),
            "C:\\npm\\codex.cmd".to_string()
        ]
    );
}

#[test]
fn preferred_executable_follows_extension_order() {
    let paths = vec![
        "C:\\x\\codex".to_string(),
        "C:\\x\\codex.EXE".to_string(),
        "C:\\x\\codex.cmd".to_string(),
    ];
    assert_eq!(preferred_executable_path("codex", &paths, true), "C:\\x\\codex.cmd");
    assert_eq!(preferred_executable_path("codex", &paths[..2], true), "C:\\x\\codex.EXE");
    assert_eq!(preferred_executable_path("codex", &paths, false), "C:\\x\\codex");
    assert_eq!(preferred_executable_path("codex", &[], true), "codex");
    let bat = vec!["a".to_string(), "b.bat".to_string(), "c.com".to_string()];
    assert_eq!(preferred_executable_path("x", &bat, true), "b.bat");
    assert_eq!(preferred_executable_path("x", &bat[..1], true), "a");
}

#[test]
fn npm_prefix_is_trimmed_output() {
    assert_eq!(npm_global_prefix(Some(" C:\\npm \n")).as_deref(), Some("C:\\npm"));
    assert_eq!(npm_global_prefix(Some("  ")), None);
    assert_eq!(npm_global_prefix(None), None);
}

#[test]
fn tool_status_reports_each_outcome() {
    let missing = tool_status("npm", "npm", Vec::new(), Ok("ignored".to_string()));
    assert!(!missing.installed);
    assert_eq!(missing.version, None);
    assert_eq!(missing.warning.as_deref(), Some("未找到 npm 可执行文件"));
    assert_eq!(missing.message, "未安装 npm");

    let found = tool_status(
        "Node.js",
        "node",
        vec!["C:\\node.exe".to_string()],
        Ok(" v20.1.0 \n".to_string()),
    );
    assert!(found.installed);
    assert_eq!(found.version.as_deref(), Some("v20.1.0"));
    assert_eq!(found.warning, None);
    assert_eq!(found.message, "已检测到 Node.js");
    assert_eq!(found.executable_paths, vec!["C:\\node.exe".to_string()]);

    let failed = tool_status(
        "npm",
        "npm",
        vec!["C:\\npm.cmd".to_string()],
        Err("broken".to_string()),
    );
    assert!(!failed.installed);
    assert_eq!(failed.warning.as_deref(), Some("broken"));
    assert_eq!(failed.message, "npm 检测失败");
}

#[test]
fn local_codex_result_needs_an_executable() {
    assert_eq!(
        local_codex_result(Vec::new(), Ok("codex-cli 1.0.0".to_string())),
        Err(CODEX_NOT_FOUND.to_string())
    );
    assert_eq!(
        local_codex_result(vec!["c".to_string()], Ok("codex-cli 1.0.0".to_string())),
        Ok(("codex-cli 1.0.0".to_string(), vec!["c".to_string()]))
    );
    assert_eq!(
        local_codex_result(vec!["c".to_string()], Err("e".to_string())),
        Err("e".to_string())
    );
}

#[test]
fn codex_status_reports_updates_and_warnings() {
    let newer = codex_status_from_results(
        Ok(("codex-cli 0.136.0".to_string(), vec!["c".to_string()])),
        Ok("0.137.0\n".to_string()),
    );
    assert!(newer.update_available);
    assert_eq!(newer.latest_version.as_deref(), Some("0.137.0"));
    assert_eq!(newer.warning, None);
    assert_eq!(newer.message, "Codex 可更新: 0.136.0 -> 0.137.0");
    assert_eq!(newer.executable_paths, vec!["c".to_string()]);

    let same = codex_status_from_results(
        Ok(("0.137.0".to_string(), vec![])),
        Ok("0.137.0".to_string()),
    );
    assert!(!same.update_available);
    assert_eq!(same.message, "Codex 已是最新版本: 0.137.0");

    let unreadable = codex_status_from_results(
        Err("missing".to_string()),
        Ok("no version".to_string()),
    );
    assert_eq!(unreadable.local_version, None);
    assert!(unreadable.executable_paths.is_empty());
    assert_eq!(
        unreadable.warning.as_deref(),
        Some("本地 Codex 检测失败: missing | 无法解析 npm 最新版本输出: no version")
    );
    assert_eq!(unreadable.message, "未检测到可用 Codex CLI");

    let local_only = codex_status_from_results(
        Ok(("codex-cli 0.1.0".to_string(), vec![])),
        Err("offline".to_string()),
    );
    assert_eq!(local_only.message, "已检测到本地 Codex 0.1.0");
    assert_eq!(
        local_only.warning.as_deref(),
        Some("Codex 最新版本检测失败: offline")
    );

    let no_npm = check_codex_status(
        false,
        Ok(("codex-cli 0.1.0".to_string(), vec![])),
        Ok("9.9.9".to_string()),
    );
    assert_eq!(no_npm.latest_version, None);
    assert_eq!(
        no_npm.warning,
        Some(format!("Codex 最新版本检测失败: {NPM_MISSING_FOR_LATEST}"))
    );
}

#[test]
fn runtime_and_action_results_carry_their_parts() {
    let toolchain = ToolchainStatus {
        node: tool_status_for_test(true, "node"),
        npm: tool_status_for_test(true, "npm"),
    };
    let runtime = check_runtime_status(
        toolchain.clone(),
        Ok(("codex-cli 0.1.0".to_string(), vec![])),
        Ok("0.2.0".to_string()),
    );
    assert_eq!(runtime.toolchain_status, toolchain);
    assert!(runtime.codex_status.update_available);
    assert_eq!(
        codex_update_completion_message(&runtime),
        "Codex 更新命令已完成"
    );

    let result = tool_action_result_with_runtime("done", "o".to_string(), "e".to_string(), runtime.clone())
        .expect("never fails");
    assert_eq!(result.message, "done");
    assert_eq!(result.stdout, "o");
    assert_eq!(result.stderr, "e");
    assert_eq!(result.codex_status, runtime.codex_status);

    let missing = runtime_status_for_test(true, None);
    assert!(codex_update_completion_message(&missing).contains("仍未检测到 Codex CLI"));
    assert_eq!(
        node_install_completion_message(&missing),
        "Node.js LTS 安装命令已完成"
    );
}

#[test]
fn repair_and_save_messages_name_the_profile() {
    let status = cx_manager::profile::profile_status_for("p.ps1", true, "");
    let repaired = repair_result(true, "C:\\p.ps1", status.clone());
    assert_eq!(repaired.message, "已修复 C:\\p.ps1");
    assert!(repaired.changed);
    let unchanged = repair_result(false, "C:\\p.ps1", status.clone());
    assert_eq!(unchanged.message, "Profile 已完整，无需修复");

    let shell = cx_manager::shell::detect_target_shell_with_pwsh_command(
        &AppSettings::default(),
        None,
        Some("pwsh"),
        "C:\\Users\\Example",
        true,
    );
    let saved = save_result("C:\\p.ps1", shell.clone(), status.clone());
    assert_eq!(saved.message, "已保存到 C:\\p.ps1");
    assert_eq!(saved.shell_status, shell);
    assert_eq!(saved.profile_status, status);
}

#[test]
fn pwsh_candidates_follow_the_environment() {
    let both = default_pwsh_candidate_paths(
        "C:\\Users\\Example",
        Some("C:\\Program Files"),
        Some("C:\\Users\\Example\\AppData\\Local"),
        true,
    );
    assert_eq!(
        both,
        vec![
            "C:\\Program Files\\PowerShell\\7\\pwsh.exe".to_string(),
            "C:\\Program Files\\PowerShell\\7-preview\\pwsh.exe".to_string(),
            "C:\\Users\\Example\\AppData\\Local\\Microsoft\\PowerShell\\7\\pwsh.exe".to_string(),
        ]
    );
    let home_only = default_pwsh_candidate_paths("C:\\Users\\Example", None, None, true);
    assert_eq!(
        home_only,
        vec!["C:\\Users\\Example\\AppData\\Local\\Microsoft\\PowerShell\\7\\pwsh.exe".to_string()]
    );
}

#[test]
fn version_comparison_is_an_order() {
    let versions = ["0.9.9", "1.0.0", "1.0.1-beta", "1.2", "v2.0.0", "10.0.0"];
    for a in versions {
        assert_eq!(compare_semver(a, a), Ordering::Equal);
        for b in versions {
            assert_eq!(compare_semver(a, b), compare_semver(b, a).reverse());
            for c in versions {
                if compare_semver(a, b) == Ordering::Greater
                    && compare_semver(b, c) == Ordering::Greater
                {
                    assert_eq!(compare_semver(a, c), Ordering::Greater);
                }
            }
        }
    }
    assert_eq!(compare_semver("1.2", "1.2.0"), Ordering::Equal);
    assert_eq!(compare_semver("10.0.0", "9.99.99"), Ordering::Greater);
}

#[test]
fn only_existing_npm_shims_are_kept() {
    let candidates = npm_global_command_candidates("codex", "C:\\npm", true);
    assert_eq!(candidates.len(), 6);
    let flags = [false, false, false, false, true, true];
    assert_eq!(
        npm_global_executable_paths(&candidates, &flags),
        vec!["C:\\npm\\codex".to_string(), "C:\\npm\\codex.ps1".to_string()]
    );
    assert!(npm_global_executable_paths(&candidates, &[false; 6]).is_empty());
}

#[test]
fn chunked_utf8_is_decoded_exactly() {
    let text = "你好, wörld 🎉!";
    let bytes = text.as_bytes();
    for size in 1..5 {
        let mut pending = Vec::new();
        let mut out = String::new();
        for chunk in bytes.chunks(size) {
            pending.extend_from_slice(chunk);
            if let Some(t) = decode_stream_pending(&mut pending, false) {
                out.push_str(&t);
            }
        }
        if let Some(t) = decode_stream_pending(&mut pending, true) {
            out.push_str(&t);
        }
        assert_eq!(out, text);
        assert!(pending.is_empty());
    }
}
