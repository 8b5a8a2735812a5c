//! External commands: how they are invoked (program, arguments, proxy
//! environment) and what their captured output means.

use vstd::prelude::*;
use crate::decode::{decode_command_output, output_text};
use crate::paths::concat;
use crate::settings::AppSettings;
use crate::shell::opt_view;
use crate::text::{lemma_trim_idempotent, ascii_lower_seq, ascii_lowercase, chars_of, ends_with, ends_with_chars, same_text, trim, trim_str};

verus! {

broadcast use vstd::string::group_string_axioms;

/// A command ready to be run.
#[derive(Debug, Clone, PartialEq, Eq)]
pub struct CommandInvocation {
    pub program: String,
    pub args: Vec<String>,
    pub env: Vec<(String, String)>,
    pub hide_window: bool,
}

/// The environment variables that carry a proxy address.
pub open spec fn proxy_variable_names() -> Seq<Seq<char>> {
    seq!["HTTP_PROXY"@, "HTTPS_PROXY"@, "ALL_PROXY"@, "http_proxy"@, "https_proxy"@, "all_proxy"@]
}

/// The proxy environment for a command: each proxy variable set to the
/// trimmed address, or nothing when there is no address or it is blank.
pub open spec fn proxy_env_for(proxy_url: Option<Seq<char>>) -> Seq<(Seq<char>, Seq<char>)> {
    match proxy_url {
        Some(p) => if trim(p).len() > 0 {
            proxy_variable_names().map_values(|k: Seq<char>| (k, trim(p)))
        } else {
            seq![]
        },
        None => seq![],
    }
}

/// A command on Windows runs through `cmd.exe /C` unless its name ends in
/// `.exe` (ASCII case ignored), so that npm's `.cmd` shims are found.
pub open spec fn runs_through_cmd(command: Seq<char>, windows: bool) -> bool {
    windows && !ends_with(ascii_lower_seq(command), ".exe"@)
}

/// The program that is started for `command`.
pub open spec fn invocation_program(command: Seq<char>, windows: bool) -> Seq<char> {
    if runs_through_cmd(command, windows) {
        "cmd.exe"@
    } else {
        command
    }
}

/// The arguments that are passed for `command` and `args`.
pub open spec fn invocation_args(command: Seq<char>, args: Seq<Seq<char>>, windows: bool) -> Seq<Seq<char>> {
    if runs_through_cmd(command, windows) {
        seq!["/C"@, command] + args
    } else {
        args
    }
}

/// Tool commands hide their console window on Windows and nowhere else.
pub fn should_hide_command_windows(windows: bool) -> (r: bool)
    ensures
        r == windows,
{
    windows
}

/// Builds the invocation of `command` with `args`: through `cmd.exe` where
/// [`runs_through_cmd`] says so, with the proxy environment of
/// [`proxy_env_for`], and with its console window hidden on Windows.
pub fn command_invocation_with_proxy(
    command: &str,
    args: &[&str],
    proxy_url: Option<&str>,
    windows: bool,
) -> (r: CommandInvocation)
    ensures
        r.program@ == invocation_program(command@, windows),
        r.args.deep_view() == invocation_args(command@, args@.map_values(|a: &str| a@), windows),
        r.env.deep_view() == proxy_env_for(opt_view(proxy_url)),
        r.hide_window == windows,
{
    let mut env: Vec<(String, String)> = Vec::new();
    if let Some(p) = proxy_url {
        let value = trim_str(p);
        if !value.is_empty() {
            let names = ["HTTP_PROXY", "HTTPS_PROXY", "ALL_PROXY", "http_proxy", "https_proxy", "all_proxy"];
            let ghost nv = names@.map_values(|s: &str| s@);
            assert(nv =~= proxy_variable_names());
            let mut i: usize = 0;
            while i < names.len()
                invariant
                    i <= names@.len(),
                    names@.len() == 6,
                    nv == names@.map_values(|s: &str| s@),
                    env.deep_view() == nv.take(i as int).map_values(|k: Seq<char>| (k, value@)),
                decreases names@.len() - i,
            {
                let ghost before = env.deep_view();
                env.push((names[i].to_string(), value.to_string()));
                assert(env.deep_view() =~= before.push((nv[i as int], value@)));
                assert(nv.take(i + 1).map_values(|k: Seq<char>| (k, value@)) =~= nv.take(
                    i as int,
                ).map_values(|k: Seq<char>| (k, value@)).push((nv[i as int], value@)));
                i = i + 1;
            }
            assert(nv.take(6) =~= nv);
        }
    }
    assert(env.deep_view() =~= proxy_env_for(opt_view(proxy_url)));
    let lower = ascii_lowercase(command);
    let exe = chars_of(".exe");
    let through_cmd = windows && !ends_with_chars(lower.as_slice(), exe.as_slice());
    let ghost argv = args@.map_values(|a: &str| a@);
    let mut all: Vec<String> = Vec::new();
    if through_cmd {
        all.push("/C".to_string());
        all.push(command.to_string());
    }
    let ghost start = all.deep_view();
    let mut i: usize = 0;
    while i < args.len()
        invariant
            i <= args@.len(),
            argv == args@.map_values(|a: &str| a@),
            all.deep_view() == start + argv.take(i as int),
        decreases args@.len() - i,
    {
        let ghost before = all.deep_view();
        all.push(args[i].to_string());
        assert(all.deep_view() =~= before.push(argv[i as int]));
        assert(argv.take(i + 1) =~= argv.take(i as int).push(argv[i as int]));
        i = i + 1;
    }
    assert(argv.take(i as int) =~= argv);
    assert(all.deep_view() =~= invocation_args(command@, argv, windows));
    let program = if through_cmd {
        "cmd.exe".to_string()
    } else {
        command.to_string()
    };
    let hide_window = should_hide_command_windows(windows);
    CommandInvocation { program, args: all, env, hide_window }
}

/// The proxy address used for tool commands: the trimmed address when the
/// proxy is enabled for tools and the address is not blank.
pub open spec fn tool_proxy(settings: AppSettings) -> Option<Seq<char>> {
    if settings.use_proxy_for_tools && trim(settings.proxy_url@).len() > 0 {
        Some(trim(settings.proxy_url@))
    } else {
        None
    }
}

/// See [`tool_proxy`].
pub fn tool_proxy_url(settings: &AppSettings) -> (r: Option<&str>)
    ensures
        opt_view(r) == tool_proxy(*settings),
{
    if settings.use_proxy_for_tools {
        let proxy_url = trim_str(settings.proxy_url.as_str());
        if proxy_url.is_empty() {
            None
        } else {
            Some(proxy_url)
        }
    } else {
        None
    }
}

/// Law: tool commands carry the configured proxy exactly when the proxy is
/// enabled for tools and its address is not blank; then each of the six
/// proxy variables is set to the trimmed address. Otherwise they carry no
/// proxy variable at all.
pub proof fn lemma_tool_commands_use_configured_proxy(settings: AppSettings)
    ensures
        settings.use_proxy_for_tools && trim(settings.proxy_url@).len() > 0 ==> proxy_env_for(
            tool_proxy(settings),
        ) == proxy_variable_names().map_values(|k: Seq<char>| (k, trim(settings.proxy_url@))),
        !(settings.use_proxy_for_tools && trim(settings.proxy_url@).len() > 0) ==> proxy_env_for(
            tool_proxy(settings),
        ).len() == 0,
        proxy_env_for(tool_proxy(settings)).len() == 0 || proxy_env_for(tool_proxy(settings)).len()
            == 6,
{
    lemma_trim_idempotent(settings.proxy_url@);
}

/// The view of a list of arguments.
pub open spec fn args_view(args: Seq<&str>) -> Seq<Seq<char>> {
    args.map_values(|a: &str| a@)
}

/// `npm install -g @openai/codex`.
pub fn install_codex_invocation(proxy_url: Option<&str>, windows: bool) -> (r: CommandInvocation)
    ensures
        r.program@ == invocation_program("npm"@, windows),
        r.args.deep_view() == invocation_args(
            "npm"@,
            seq!["install"@, "-g"@, "@openai/codex"@],
            windows,
        ),
        r.env.deep_view() == proxy_env_for(opt_view(proxy_url)),
        r.hide_window == windows,
{
    let args = ["install", "-g", "@openai/codex"];
    assert(args_view(args@) =~= seq!["install"@, "-g"@, "@openai/codex"@]);
    command_invocation_with_proxy("npm", &args, proxy_url, windows)
}

/// `winget install --id OpenJS.NodeJS.LTS -e --accept-package-agreements
/// --accept-source-agreements`.
pub fn install_nodejs_invocation(proxy_url: Option<&str>, windows: bool) -> (r: CommandInvocation)
    ensures
        r.program@ == invocation_program("winget"@, windows),
        r.args.deep_view() == invocation_args(
            "winget"@,
            seq![
                "install"@,
                "--id"@,
                "OpenJS.NodeJS.LTS"@,
                "-e"@,
                "--accept-package-agreements"@,
                "--accept-source-agreements"@,
            ],
            windows,
        ),
        r.env.deep_view() == proxy_env_for(opt_view(proxy_url)),
        r.hide_window == windows,
{
    let args = [
        "install",
        "--id",
        "OpenJS.NodeJS.LTS",
        "-e",
        "--accept-package-agreements",
        "--accept-source-agreements",
    ];
    assert(args_view(args@) =~= seq![
        "install"@,
        "--id"@,
        "OpenJS.NodeJS.LTS"@,
        "-e"@,
        "--accept-package-agreements"@,
        "--accept-source-agreements"@,
    ]);
    command_invocation_with_proxy("winget", &args, proxy_url, windows)
}

/// `codex update`.
pub fn update_codex_invocation(proxy_url: Option<&str>, windows: bool) -> (r: CommandInvocation)
    ensures
        r.program@ == invocation_program("codex"@, windows),
        r.args.deep_view() == invocation_args("codex"@, seq!["update"@], windows),
        r.env.deep_view() == proxy_env_for(opt_view(proxy_url)),
        r.hide_window == windows,
{
    let args = ["update"];
    assert(args_view(args@) =~= seq!["update"@]);
    command_invocation_with_proxy("codex", &args, proxy_url, windows)
}

/// `npm view @openai/codex version`, which prints the latest published
/// version.
pub fn latest_codex_invocation(proxy_url: Option<&str>, windows: bool) -> (r: CommandInvocation)
    ensures
        r.program@ == invocation_program("npm"@, windows),
        r.args.deep_view() == invocation_args(
            "npm"@,
            seq!["view"@, "@openai/codex"@, "version"@],
            windows,
        ),
        r.env.deep_view() == proxy_env_for(opt_view(proxy_url)),
        r.hide_window == windows,
{
    let args = ["view", "@openai/codex", "version"];
    assert(args_view(args@) =~= seq!["view"@, "@openai/codex"@, "version"@]);
    command_invocation_with_proxy("npm", &args, proxy_url, windows)
}

/// What a finished command yields: its trimmed standard output and error
/// output when it succeeded; otherwise the error output, or the standard
/// output, or a message naming the command, the first that is not empty.
pub open spec fn command_outcome(label: Seq<char>, success: bool, stdout: Seq<char>, stderr: Seq<char>) -> Result<
    (Seq<char>, Seq<char>),
    Seq<char>,
> {
    let out = trim(stdout);
    let err = trim(stderr);
    if success {
        Ok((out, err))
    } else if err.len() > 0 {
        Err(err)
    } else if out.len() > 0 {
        Err(out)
    } else {
        Err(label + " 执行失败，但没有输出错误详情"@)
    }
}

/// The view of a command result.
pub open spec fn outcome_view(r: Result<(String, String), String>) -> Result<
    (Seq<char>, Seq<char>),
    Seq<char>,
> {
    match r {
        Ok((a, b)) => Ok((a@, b@)),
        Err(e) => Err(e@),
    }
}

/// See [`command_outcome`]; takes the exit status and the captured bytes,
/// decoded as command output.
pub fn invocation_output_result(command_label: &str, success: bool, stdout: &[u8], stderr: &[u8]) -> (r:
    Result<(String, String), String>)
    requires
        stdout@.len() <= usize::MAX / 4,
        stderr@.len() <= usize::MAX / 4,
    ensures
        outcome_view(r) == command_outcome(
            command_label@,
            success,
            output_text(stdout@),
            output_text(stderr@),
        ),
{
    let out = decode_command_output(stdout);
    let err = decode_command_output(stderr);
    proof {
        lemma_trim_idempotent(output_text(stdout@));
        lemma_trim_idempotent(output_text(stderr@));
    }
    streaming_output_result(command_label, success, out.as_str(), err.as_str())
}

/// See [`command_outcome`]; takes the exit status and the text collected
/// from the two streams.
pub fn streaming_output_result(command_label: &str, success: bool, stdout: &str, stderr: &str) -> (r:
    Result<(String, String), String>)
    ensures
        outcome_view(r) == command_outcome(command_label@, success, stdout@, stderr@),
{
    let out = trim_str(stdout).to_string();
    let err = trim_str(stderr).to_string();
    if success {
        Ok((out, err))
    } else if !err.as_str().is_empty() {
        Err(err)
    } else if !out.as_str().is_empty() {
        Err(out)
    } else {
        Err(concat(command_label, " 执行失败，但没有输出错误详情"))
    }
}

/// What a version query yields: the trimmed standard output when the command
/// succeeded and printed something; otherwise the error output, or a message
/// naming the command.
pub open spec fn version_outcome(command: Seq<char>, success: bool, stdout: Seq<u8>, stderr: Seq<u8>) -> Result<
    Seq<char>,
    Seq<char>,
> {
    let out = trim(output_text(stdout));
    let err = trim(output_text(stderr));
    if success && out.len() > 0 {
        Ok(out)
    } else if err.len() > 0 {
        Err(err)
    } else {
        Err(command + " 未返回有效版本信息"@)
    }
}

/// See [`version_outcome`].
pub fn shell_version_from_output(command: &str, success: bool, stdout: &[u8], stderr: &[u8]) -> (r:
    Result<String, String>)
    requires
        stdout@.len() <= usize::MAX / 4,
        stderr@.len() <= usize::MAX / 4,
    ensures
        match r {
            Ok(v) => version_outcome(command@, success, stdout@, stderr@) == Ok::<Seq<char>, Seq<char>>(v@),
            Err(e) => version_outcome(command@, success, stdout@, stderr@) == Err::<Seq<char>, Seq<char>>(e@),
        },
{
    let out = decode_command_output(stdout);
    let err = decode_command_output(stderr);
    if success && !out.as_str().is_empty() {
        Ok(out)
    } else if !err.as_str().is_empty() {
        Err(err)
    } else {
        Err(concat(command, " 未返回有效版本信息"))
    }
}

/// Adds text read from a stream to what was collected from it: to the error
/// output for the `stderr` stream, to the standard output otherwise.
pub fn collect_stream_message(stream: &str, text: &str, stdout: &mut String, stderr: &mut String)
    ensures
        stream@ == "stderr"@ ==> final(stderr)@ == old(stderr)@ + text@ && final(stdout)@ == old(
            stdout,
        )@,
        stream@ != "stderr"@ ==> final(stdout)@ == old(stdout)@ + text@ && final(stderr)@ == old(
            stderr,
        )@,
{
    if same_text(stream, "stderr") {
        stderr.append(text);
    } else {
        stdout.append(text);
    }
}

} // verus!
