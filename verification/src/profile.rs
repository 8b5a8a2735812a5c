//! The PowerShell profile: the block CX-Manager maintains in it, how an
//! earlier block is found and removed, and what a profile is checked for.

use vstd::prelude::*;
use crate::pattern::{
    compile_pattern, escape_pattern, pattern_is_match, pattern_replace_all, regex_compiles,
    regex_escaped, regex_is_match, regex_replace_all,
};
use crate::settings::{normalize_roots, normalized_project_roots};
use crate::decode::{decode_command_output, output_text};
use vstd::utf8::{
    decode_utf8, encode_scalar, encode_utf8, encode_utf8_decode_utf8, encode_utf8_valid_utf8,
    has_width_3_encoding, last_continuation_byte, leading_byte_width_3,
    second_last_continuation_byte, valid_utf8,
};
use crate::settings::AppSettings;
use crate::text::{
    chars_of, contains, find_from, first_match_from, is_blank, joined, join_strings,
    lemma_first_match_unique, matches_at, prefix_str, remove_char, same_text, string_from_chars, trim, trim_end,
    trim_end_str, trim_start_either, trim_start_either_str, trim_str, without_char,
};

verus! {

broadcast use vstd::string::group_string_axioms;

/// First line of the block CX-Manager maintains in a profile.
pub const MANAGED_BLOCK_START: &'static str = "# >>> CX-Manager managed profile";

/// Last line of the block CX-Manager maintains in a profile.
pub const MANAGED_BLOCK_END: &'static str = "# <<< CX-Manager managed profile";

/// The header under which earlier versions appended their helper functions.
pub const LEGACY_HELPERS_HEADER: &'static str = "# CX-Manager default terminal helpers";

/// Puts the npm and Node.js install folders on `PATH` of the PowerShell session.
pub const TOOL_PATHS_BLOCK: &'static str = r#"function Add-CXManagerToolPath {
    param([string]$Path)
    if ([string]::IsNullOrWhiteSpace($Path)) { return }
    if (-not (Test-Path -LiteralPath $Path)) { return }
    $normalizedPath = $Path.TrimEnd('\')
    $existingPaths = @($env:Path -split ';' | Where-Object { -not [string]::IsNullOrWhiteSpace($_) })
    foreach ($existingPath in $existingPaths) {
        if ($existingPath.TrimEnd('\') -ieq $normalizedPath) { return }
    }
    if ([string]::IsNullOrWhiteSpace($env:Path)) {
        $env:Path = $Path
    } else {
        $env:Path = "$Path;$env:Path"
    }
}

$cxNpmPrefix = $null
try {
    $cxNpmCommand = Get-Command npm -CommandType Application -ErrorAction Stop
    $cxNpmPrefix = & $cxNpmCommand.Source prefix -g
    if ($LASTEXITCODE -ne 0) { $cxNpmPrefix = $null }
} catch {
    $cxNpmPrefix = $null
}

if ($cxNpmPrefix) {
    $cxNpmPrefix = @($cxNpmPrefix | Select-Object -First 1)[0].ToString().Trim()
    Add-CXManagerToolPath $cxNpmPrefix
    Add-CXManagerToolPath (Join-Path $cxNpmPrefix "bin")
}
if ($env:ProgramFiles) {
    Add-CXManagerToolPath (Join-Path $env:ProgramFiles "nodejs")
}
if (${env:ProgramFiles(x86)}) {
    Add-CXManagerToolPath (Join-Path ${env:ProgramFiles(x86)} "nodejs")
}
if ($env:APPDATA) {
    Add-CXManagerToolPath (Join-Path $env:APPDATA "npm")
}
if ($env:LOCALAPPDATA) {
    Add-CXManagerToolPath (Join-Path $env:LOCALAPPDATA "Programs\nodejs")
}"#;

/// The default definition of the `proxy` function.
pub const PROXY_FUNCTION: &'static str = r#"function proxy {
    if (-not $CX_MANAGER_PROXY_URL) {
        Write-Host "CX-Manager 代理地址为空。" -ForegroundColor Yellow
        return
    }
    $env:HTTP_PROXY = $CX_MANAGER_PROXY_URL
    $env:HTTPS_PROXY = $CX_MANAGER_PROXY_URL
    $env:ALL_PROXY = $CX_MANAGER_PROXY_URL
    $env:http_proxy = $CX_MANAGER_PROXY_URL
    $env:https_proxy = $CX_MANAGER_PROXY_URL
    $env:all_proxy = $CX_MANAGER_PROXY_URL
    Write-Host "已启用代理: $CX_MANAGER_PROXY_URL" -ForegroundColor Green
}"#;

/// The default definition of the `unproxy` function.
pub const UNPROXY_FUNCTION: &'static str = r#"function unproxy {
    $env:HTTP_PROXY = ""
    $env:HTTPS_PROXY = ""
    $env:ALL_PROXY = ""
    $env:http_proxy = ""
    $env:https_proxy = ""
    $env:all_proxy = ""
    Write-Host "已清空当前 PowerShell 进程代理环境变量。" -ForegroundColor Green
}"#;

/// The default definition of the `Show-CXMenu` function.
pub const SHOW_MENU_FUNCTION: &'static str = r#"function Show-CXMenu {
    param([string[]]$Items, [string]$Title)
    if (-not $Items -or $Items.Count -eq 0) { return -1 }
    $selectedIndex = 0
    [Console]::CursorVisible = $false
    try {
        while ($true) {
            Clear-Host
            Write-Host $Title -ForegroundColor Cyan
            Write-Host ""
            for ($i = 0; $i -lt $Items.Count; $i++) {
                if ($i -eq $selectedIndex) {
                    Write-Host "> " -NoNewline -ForegroundColor Green
                    Write-Host $Items[$i] -ForegroundColor Green
                } else {
                    Write-Host "  " -NoNewline
                    Write-Host $Items[$i]
                }
            }
            $key = [Console]::ReadKey($true)
            switch ($key.Key) {
                "UpArrow" { if ($selectedIndex -gt 0) { $selectedIndex-- } }
                "DownArrow" { if ($selectedIndex -lt ($Items.Count - 1)) { $selectedIndex++ } }
                "Enter" { Clear-Host; return $selectedIndex }
                "Escape" { Clear-Host; return -1 }
            }
        }
    } finally {
        [Console]::CursorVisible = $true
    }
}"#;

/// The default definition of the `Get-CXManagerProjectFolders` function.
pub const PROJECT_FOLDERS_FUNCTION: &'static str = r#"function Get-CXManagerProjectFolders {
    $roots = @($CX_MANAGER_PROJECT_ROOTS | Where-Object { $_ -and (Test-Path -LiteralPath $_) })
    foreach ($root in $roots) {
        Get-ChildItem -LiteralPath $root -Directory | Sort-Object Name | ForEach-Object {
            [PSCustomObject]@{
                Name = $_.Name
                FullName = $_.FullName
                DisplayName = "$($_.Name)  [$root]"
            }
        }
    }
}"#;

/// The default definition of the `Resolve-CXManagerCodexCommand` function.
pub const RESOLVE_CODEX_FUNCTION: &'static str = r#"function Resolve-CXManagerCodexCommand {
    foreach ($command in @("codex.cmd", "codex.exe", "codex.bat", "codex.com", "codex")) {
        try {
            $resolved = Get-Command $command -CommandType Application -ErrorAction Stop
            if ($resolved.Source) { return $resolved.Source }
        } catch {
        }
    }
    return "codex"
}"#;

/// The default definition of the `Invoke-CXManagerCodex` function.
pub const INVOKE_CODEX_FUNCTION: &'static str = r#"function Invoke-CXManagerCodex {
    $command = Resolve-CXManagerCodexCommand
    & $command @args
}"#;

/// The default definition of the `cx` function.
pub const CX_FUNCTION: &'static str = r#"function cx {
    $folders = @(Get-CXManagerProjectFolders)
    if ($folders.Count -eq 0) {
        Write-Host "没有找到项目目录，请先在 CX-Manager 中添加项目根目录。" -ForegroundColor Yellow
        return
    }
    $selectedIndex = Show-CXMenu -Items @($folders | ForEach-Object DisplayName) -Title "选择项目目录"
    if ($selectedIndex -eq -1) {
        Write-Host "`n已取消选择" -ForegroundColor Yellow
        return
    }

    $selectedFolder = $folders[$selectedIndex]
    Set-Location $selectedFolder.FullName
    Write-Host "`n已切换到: $($selectedFolder.FullName)" -ForegroundColor Green

    $modeIndex = Show-CXMenu -Items @("codex 自动模式", "codex 正常模式") -Title "选择启动模式"
    if ($modeIndex -eq -1) {
        Write-Host "`n已取消启动" -ForegroundColor Yellow
        return
    }

    switch ($modeIndex) {
        0 { Invoke-CXManagerCodex -s danger-full-access -a never @args }
        1 { Invoke-CXManagerCodex @args }
    }
}"#;

/// Finds a PowerShell function definition `function <name>` at the start of a
/// line, ignoring case.
pub const FUNCTION_PATTERN_START: &'static str = r"(?im)^\s*function\s+";

/// Ends a function name at a word boundary.
pub const FUNCTION_PATTERN_END: &'static str = r"\b";

/// An assignment of `$CX_MANAGER_PROXY_URL` at the start of a line, with the
/// rest of its value and line, as earlier versions wrote it.
pub const LEGACY_PROXY_PATTERN: &'static str =
    r#"(?m)^\s*\$CX_MANAGER_PROXY_URL\s*=\s*(?:"(?:`.|[^"])*"|[^\r\n]*)(?:\r?\n)?"#;

/// An assignment of the `$CX_MANAGER_PROJECT_ROOTS` array with its
/// surrounding line breaks, as earlier versions wrote it.
pub const LEGACY_ROOTS_PATTERN: &'static str =
    r"(?s)(?:\r?\n)?\$CX_MANAGER_PROJECT_ROOTS\s*=\s*@\((?:.*?)\)(?:\r?\n)?";

/// A line that assigns `$CX_MANAGER_PROXY_URL`.
pub const PROXY_BLOCK_PATTERN: &'static str = r#"(?m)^\s*\$CX_MANAGER_PROXY_URL\s*="#;

/// An assignment of the `$CX_MANAGER_PROJECT_ROOTS` array.
pub const ROOTS_BLOCK_PATTERN: &'static str = r"(?s)\$CX_MANAGER_PROJECT_ROOTS\s*=\s*@\((?:.*?)\)";

/// Text escaped for a double-quoted PowerShell string: each backtick
/// doubled, each `"` preceded by a backtick.
pub open spec fn ps_escaped(s: Seq<char>) -> Seq<char>
    decreases s.len(),
{
    if s.len() == 0 {
        seq![]
    } else {
        let head = ps_escaped(s.drop_last());
        let c = s.last();
        if c == '`' {
            head.push('`').push('`')
        } else if c == '"' {
            head.push('`').push('"')
        } else {
            head.push(c)
        }
    }
}

/// Text escaped for a single-quoted PowerShell string: each `'` doubled.
pub open spec fn ps_single_quoted(s: Seq<char>) -> Seq<char>
    decreases s.len(),
{
    if s.len() == 0 {
        seq![]
    } else {
        let head = ps_single_quoted(s.drop_last());
        let c = s.last();
        if c == '\'' {
            head.push('\'').push('\'')
        } else {
            head.push(c)
        }
    }
}

/// See [`ps_escaped`].
pub fn ps_escape(value: &str) -> (r: String)
    ensures
        r@ == ps_escaped(value@),
{
    let v = chars_of(value);
    let mut out: Vec<char> = Vec::new();
    let mut i: usize = 0;
    while i < v.len()
        invariant
            i <= v@.len(),
            v@ == value@,
            out@ == ps_escaped(v@.take(i as int)),
        decreases v@.len() - i,
    {
        assert(v@.take(i + 1).drop_last() =~= v@.take(i as int));
        let c = v[i];
        if c == '`' {
            out.push('`');
            out.push('`');
        } else if c == '"' {
            out.push('`');
            out.push('"');
        } else {
            out.push(c);
        }
        i = i + 1;
    }
    assert(v@.take(i as int) =~= v@);
    string_from_chars(out.as_slice())
}

/// See [`ps_single_quoted`].
pub fn ps_single_quote_escape(value: &str) -> (r: String)
    ensures
        r@ == ps_single_quoted(value@),
{
    let v = chars_of(value);
    let mut out: Vec<char> = Vec::new();
    let mut i: usize = 0;
    while i < v.len()
        invariant
            i <= v@.len(),
            v@ == value@,
            out@ == ps_single_quoted(v@.take(i as int)),
        decreases v@.len() - i,
    {
        assert(v@.take(i + 1).drop_last() =~= v@.take(i as int));
        let c = v[i];
        if c == '\'' {
            out.push('\'');
            out.push('\'');
        } else {
            out.push(c);
        }
        i = i + 1;
    }
    assert(v@.take(i as int) =~= v@);
    string_from_chars(out.as_slice())
}

/// `$CX_MANAGER_PROXY_URL = "<trimmed, escaped address>"`.
pub open spec fn proxy_block(proxy_url: Seq<char>) -> Seq<char> {
    "$CX_MANAGER_PROXY_URL = \""@ + ps_escaped(trim(proxy_url)) + "\""@
}

/// See [`proxy_block`].
pub fn build_proxy_block(proxy_url: &str) -> (r: String)
    ensures
        r@ == proxy_block(proxy_url@),
{
    let mut r = "$CX_MANAGER_PROXY_URL = \"".to_string();
    let escaped = ps_escape(trim_str(proxy_url));
    r.append(escaped.as_str());
    r.append("\"");
    r
}

/// One line of the project roots array: the escaped root in double quotes,
/// indented by four spaces.
pub open spec fn root_line(root: Seq<char>) -> Seq<char> {
    "    \""@ + ps_escaped(root) + "\""@
}

/// The lines of the project roots array.
pub open spec fn root_lines(roots: Seq<Seq<char>>) -> Seq<Seq<char>> {
    roots.map_values(|r: Seq<char>| root_line(r))
}

/// `$CX_MANAGER_PROJECT_ROOTS = @(`, one line per normalised root, `)`,
/// joined by line feeds.
pub open spec fn roots_block(roots: Seq<Seq<char>>) -> Seq<char> {
    joined(
        seq!["$CX_MANAGER_PROJECT_ROOTS = @("@] + root_lines(normalize_roots(roots)) + seq![")"@],
        "\n"@,
    )
}

/// See [`roots_block`].
pub fn build_project_roots_block(project_roots: &[String]) -> (r: String)
    ensures
        r@ == roots_block(project_roots.deep_view()),
{
    let roots = normalized_project_roots(project_roots);
    let ghost rv = roots.deep_view();
    let mut lines: Vec<String> = Vec::new();
    lines.push("$CX_MANAGER_PROJECT_ROOTS = @(".to_string());
    let mut i: usize = 0;
    while i < roots.len()
        invariant
            i <= roots@.len(),
            rv == roots.deep_view(),
            lines.deep_view() == seq!["$CX_MANAGER_PROJECT_ROOTS = @("@] + root_lines(
                rv.take(i as int),
            ),
        decreases roots@.len() - i,
    {
        let mut line = "    \"".to_string();
        let escaped = ps_escape(roots[i].as_str());
        line.append(escaped.as_str());
        line.append("\"");
        let ghost before = lines.deep_view();
        lines.push(line);
        assert(root_lines(rv.take(i + 1)) =~= root_lines(rv.take(i as int)).push(root_line(rv[i as int])));
        assert(lines.deep_view() =~= before.push(root_line(rv[i as int])));
        i = i + 1;
    }
    let ghost before = lines.deep_view();
    lines.push(")".to_string());
    assert(rv.take(i as int) =~= rv);
    assert(lines.deep_view() =~= seq!["$CX_MANAGER_PROJECT_ROOTS = @("@] + root_lines(rv) + seq![")"@]);
    join_strings(&lines, "\n")
}

/// See [`TOOL_PATHS_BLOCK`].
pub fn build_tool_paths_block() -> (r: &'static str)
    ensures
        r@ == TOOL_PATHS_BLOCK@,
{
    TOOL_PATHS_BLOCK
}

/// The terminal helper functions, in the order they are written.
pub open spec fn helper_names() -> Seq<Seq<char>> {
    seq![
        "proxy"@,
        "unproxy"@,
        "Show-CXMenu"@,
        "Get-CXManagerProjectFolders"@,
        "Resolve-CXManagerCodexCommand"@,
        "Invoke-CXManagerCodex"@,
        "cx"@,
    ]
}

/// See [`helper_names`].
pub fn default_terminal_function_names() -> (r: Vec<&'static str>)
    ensures
        r@.map_values(|s: &str| s@) == helper_names(),
{
    let r = vec![
        "proxy",
        "unproxy",
        "Show-CXMenu",
        "Get-CXManagerProjectFolders",
        "Resolve-CXManagerCodexCommand",
        "Invoke-CXManagerCodex",
        "cx",
    ];
    assert(r@.map_values(|s: &str| s@) =~= helper_names());
    r
}

/// The default definition of a terminal helper function, by name.
pub open spec fn function_source(name: Seq<char>) -> Option<Seq<char>> {
    if name == "proxy"@ {
        Some(PROXY_FUNCTION@)
    } else if name == "unproxy"@ {
        Some(UNPROXY_FUNCTION@)
    } else if name == "Show-CXMenu"@ {
        Some(SHOW_MENU_FUNCTION@)
    } else if name == "Get-CXManagerProjectFolders"@ {
        Some(PROJECT_FOLDERS_FUNCTION@)
    } else if name == "Resolve-CXManagerCodexCommand"@ {
        Some(RESOLVE_CODEX_FUNCTION@)
    } else if name == "Invoke-CXManagerCodex"@ {
        Some(INVOKE_CODEX_FUNCTION@)
    } else if name == "cx"@ {
        Some(CX_FUNCTION@)
    } else {
        None
    }
}

/// See [`function_source`].
pub fn default_function_source(function_name: &str) -> (r: Option<&'static str>)
    ensures
        match r {
            Some(s) => function_source(function_name@) == Some(s@),
            None => function_source(function_name@) is None,
        },
{
    if same_text(function_name, "proxy") {
        Some(PROXY_FUNCTION)
    } else if same_text(function_name, "unproxy") {
        Some(UNPROXY_FUNCTION)
    } else if same_text(function_name, "Show-CXMenu") {
        Some(SHOW_MENU_FUNCTION)
    } else if same_text(function_name, "Get-CXManagerProjectFolders") {
        Some(PROJECT_FOLDERS_FUNCTION)
    } else if same_text(function_name, "Resolve-CXManagerCodexCommand") {
        Some(RESOLVE_CODEX_FUNCTION)
    } else if same_text(function_name, "Invoke-CXManagerCodex") {
        Some(INVOKE_CODEX_FUNCTION)
    } else if same_text(function_name, "cx") {
        Some(CX_FUNCTION)
    } else {
        None
    }
}

/// Whether the regex compiled from `pattern` matches `haystack`; a pattern
/// the regex crate rejects matches nothing.
pub open spec fn pattern_holds(pattern: Seq<char>, haystack: Seq<char>) -> bool {
    regex_compiles(pattern) && regex_is_match(pattern, haystack)
}

/// Every match of the regex compiled from `pattern` replaced by
/// `replacement`; a pattern the regex crate rejects changes nothing.
pub open spec fn replaced(pattern: Seq<char>, haystack: Seq<char>, replacement: Seq<char>) -> Seq<char> {
    if regex_compiles(pattern) {
        regex_replace_all(pattern, haystack, replacement)
    } else {
        haystack
    }
}

/// See [`pattern_holds`].
pub fn pattern_matches(pattern: &str, haystack: &str) -> (r: bool)
    ensures
        r == pattern_holds(pattern@, haystack@),
        forall|name: Seq<char>, lead: Seq<char>|
            #![trigger function_pattern(name), line_breaks_only(lead)]
            pattern@ == function_pattern(name) && line_breaks_only(lead) ==> (r == pattern_holds(
                pattern@,
                lead + trim_start_either(haystack@, '\r', '\n'),
            )),
        forall|name: Seq<char>, lead: Seq<char>, k: int|
            #![trigger function_pattern(name), line_breaks_only(lead), haystack@.skip(k)]
            pattern@ == function_pattern(name) && line_breaks_only(lead) && line_start(haystack@, k)
                && pattern_holds(pattern@, lead + haystack@.skip(k)) ==> r,
        forall|name: Seq<char>|
            #![trigger function_pattern(name)]
            pattern@ == function_pattern(name) && is_blank(haystack@) ==> !r,
        forall|name: Seq<char>, i: int|
            #![trigger function_pattern(name), matches_at(haystack@, function_header(name), i)]
            helper_names().contains(name) && pattern@ == function_pattern(name) && name.len() > 0
                && is_ascii_alnum(name.last()) && line_start(haystack@, i) && matches_at(
                haystack@,
                function_header(name),
                i,
            ) ==> r,
        pattern@ == PROXY_BLOCK_PATTERN@ && (exists|i: int|
            line_start(haystack@, i) && matches_at(haystack@, proxy_assignment(), i)) ==> r,
        pattern@ == ROOTS_BLOCK_PATTERN@ && (exists|i: int, k: int|
            matches_at(haystack@, roots_assignment(), i) && i + roots_assignment().len() <= k
                < haystack@.len() && haystack@[k] == ')') ==> r,
{
    match compile_pattern(pattern) {
        Some(p) => pattern_is_match(&p, haystack),
        None => false,
    }
}

/// See [`replaced`].
pub fn replace_all_matches(pattern: &str, haystack: &str, replacement: &str) -> (r: String)
    ensures
        r@ == replaced(pattern@, haystack@, replacement@),
        !pattern_holds(pattern@, haystack@) ==> r@ == haystack@,
        forall|body: Seq<char>, rest: Seq<char>|
            #![trigger lone_block_text(body, rest)]
            pattern@ == marked_block_pattern() && replacement@ == "\n"@ && haystack@ == lone_block_text(
                body,
                rest,
            ) && !contains(body, "\n"@ + MANAGED_BLOCK_END@) && !contains(rest, MANAGED_BLOCK_START@)
                ==> r@ == "\n"@ + after_line_break(rest),
        (pattern@ == marked_block_pattern() && !contains(haystack@, MANAGED_BLOCK_START@)) || (pattern@
            == LEGACY_PROXY_PATTERN@ && !contains(haystack@, proxy_variable())) || (pattern@
            == LEGACY_ROOTS_PATTERN@ && !contains(haystack@, roots_variable())) ==> r@ == haystack@,
        forall|value: Seq<char>, rest: Seq<char>|
            #![trigger legacy_proxy_line(value), contains(rest, proxy_variable())]
            pattern@ == LEGACY_PROXY_PATTERN@ && replacement@ == ""@ && plain_quoted_value(value)
                && haystack@ == legacy_proxy_line(value) + rest && !contains(rest, proxy_variable()) ==> r@
                == rest,
        forall|before: Seq<char>, items: Seq<char>, rest: Seq<char>|
            #![trigger legacy_roots_text(before, items, rest)]
            pattern@ == LEGACY_ROOTS_PATTERN@ && replacement@ == "\n"@ && haystack@ == legacy_roots_text(
                before,
                items,
                rest,
            ) && lone_roots_array(before, items, rest) ==> r@ == before + "\n"@ + rest,
{
    match compile_pattern(pattern) {
        Some(p) => pattern_replace_all(&p, haystack, replacement),
        None => haystack.to_string(),
    }
}

/// The text holds only carriage returns and line feeds.
pub open spec fn line_breaks_only(s: Seq<char>) -> bool {
    forall|k: int| 0 <= k < s.len() ==> #[trigger] s[k] == '\r' || s[k] == '\n'
}

/// Position `i` starts a line of `s`: it is the start, or follows a line
/// feed.
pub open spec fn line_start(s: Seq<char>, i: int) -> bool {
    i == 0 || (0 < i <= s.len() && s[i - 1] == '\n')
}

/// An ASCII letter or digit.
pub open spec fn is_ascii_alnum(c: char) -> bool {
    ('a' <= c && c <= 'z') || ('A' <= c && c <= 'Z') || ('0' <= c && c <= '9')
}

/// `function <name> `, the start of a definition as CX-Manager writes it.
pub open spec fn function_header(name: Seq<char>) -> Seq<char> {
    "function "@ + name + " "@
}

/// The proxy assignment as CX-Manager writes it, up to its value.
pub open spec fn proxy_assignment() -> Seq<char> {
    proxy_variable() + " ="@
}

/// The roots assignment as CX-Manager writes it, up to its first element.
pub open spec fn roots_assignment() -> Seq<char> {
    roots_variable() + " = @("@
}

/// The pattern that finds the definition of the named function.
pub open spec fn function_pattern(name: Seq<char>) -> Seq<char> {
    FUNCTION_PATTERN_START@ + regex_escaped(name) + FUNCTION_PATTERN_END@
}

/// The content defines the named function: a line that starts, after white
/// space, with `function` and the name (case ignored) ending at a word
/// boundary.
pub open spec fn has_function(content: Seq<char>, name: Seq<char>) -> bool {
    pattern_holds(function_pattern(name), content)
}

/// See [`has_function`].
pub fn has_powershell_function(content: &str, function_name: &str) -> (r: bool)
    ensures
        r == has_function(content@, function_name@),
        forall|lead: Seq<char>|
            #![trigger line_breaks_only(lead)]
            line_breaks_only(lead) ==> (r == has_function(
                lead + trim_start_either(content@, '\r', '\n'),
                function_name@,
            )),
        forall|lead: Seq<char>, k: int|
            #![trigger line_breaks_only(lead), content@.skip(k)]
            line_breaks_only(lead) && line_start(content@, k) && has_function(
                lead + content@.skip(k),
                function_name@,
            ) ==> r,
        helper_names().contains(function_name@) && (exists|i: int|
            line_start(content@, i) && matches_at(content@, function_header(function_name@), i)) ==> r,
        is_blank(content@) ==> !r,
{
    let escaped = escape_pattern(function_name);
    let mut pattern = FUNCTION_PATTERN_START.to_string();
    pattern.append(escaped.as_str());
    pattern.append(FUNCTION_PATTERN_END);
    let r = pattern_matches(pattern.as_str(), content);
    proof {
        assert(pattern@ == function_pattern(function_name@));
        if helper_names().contains(function_name@) {
            lemma_helper_names_end_in_letters(function_name@);
        }
        if helper_names().contains(function_name@) && (exists|i: int|
            line_start(content@, i) && matches_at(content@, function_header(function_name@), i)) {
            let i = choose|i: int|
                line_start(content@, i) && matches_at(content@, function_header(function_name@), i);
            assert(matches_at(content@, function_header(function_name@), i));
        }
    }
    r
}

proof fn lemma_helper_names_end_in_letters(name: Seq<char>)
    requires
        helper_names().contains(name),
    ensures
        name.len() > 0 && is_ascii_alnum(name.last()),
{
    reveal_strlit("proxy");
    reveal_strlit("unproxy");
    reveal_strlit("Show-CXMenu");
    reveal_strlit("Get-CXManagerProjectFolders");
    reveal_strlit("Resolve-CXManagerCodexCommand");
    reveal_strlit("Invoke-CXManagerCodex");
    reveal_strlit("cx");
    let k = choose|k: int| 0 <= k < helper_names().len() && helper_names()[k] == name;
}

/// The helpers among `names` that `content` does not define.
pub open spec fn missing_among(content: Seq<char>, names: Seq<Seq<char>>) -> Seq<Seq<char>>
    decreases names.len(),
{
    if names.len() == 0 {
        seq![]
    } else {
        let head = missing_among(content, names.drop_last());
        if has_function(content, names.last()) {
            head
        } else {
            head.push(names.last())
        }
    }
}

/// The terminal helpers that `content` does not define, in order.
pub open spec fn missing_helpers(content: Seq<char>) -> Seq<Seq<char>> {
    missing_among(content, helper_names())
}

/// The default definitions of the helpers among `names` that `content` does
/// not define.
pub open spec fn missing_sources_among(content: Seq<char>, names: Seq<Seq<char>>) -> Seq<Seq<char>>
    decreases names.len(),
{
    if names.len() == 0 {
        seq![]
    } else {
        let head = missing_sources_among(content, names.drop_last());
        if has_function(content, names.last()) {
            head
        } else {
            match function_source(names.last()) {
                Some(source) => head.push(source),
                None => head,
            }
        }
    }
}

/// Law: the default definitions added to the managed block are exactly those
/// of the helpers that the user's content does not define, in order; a
/// helper the user defined is never given a second definition.
pub proof fn lemma_user_helpers_are_not_replaced(user_content: Seq<char>)
    ensures
        missing_sources_among(user_content, helper_names()) == missing_helpers(user_content).map_values(
            |n: Seq<char>| function_source(n)->0,
        ),
        forall|i: int|
            0 <= i < helper_names().len() ==> (missing_helpers(user_content).contains(
                #[trigger] helper_names()[i],
            ) <==> !has_function(user_content, helper_names()[i])),
{
    lemma_missing_sources_are_sources(user_content, helper_names());
    reveal_strlit("proxy");
    reveal_strlit("unproxy");
    reveal_strlit("Show-CXMenu");
    reveal_strlit("Get-CXManagerProjectFolders");
    reveal_strlit("Resolve-CXManagerCodexCommand");
    reveal_strlit("Invoke-CXManagerCodex");
    reveal_strlit("cx");
    let names = helper_names();
    assert forall|i: int, j: int| 0 <= i < j < names.len() implies names[i] != names[j] by {
        if names[i] == names[j] {
            assert(names[i].len() == names[j].len());
            assert(names[i][0] == names[j][0]);
            assert(names[i][names[i].len() - 1] == names[j][names[j].len() - 1]);
        }
    }
    lemma_missing_among_membership(user_content, names);
}

proof fn lemma_missing_sources_are_sources(content: Seq<char>, names: Seq<Seq<char>>)
    requires
        forall|i: int| 0 <= i < names.len() ==> function_source(#[trigger] names[i]) is Some,
    ensures
        missing_sources_among(content, names) == missing_among(content, names).map_values(
            |n: Seq<char>| function_source(n)->0,
        ),
    decreases names.len(),
{
    if names.len() > 0 {
        let init = names.drop_last();
        assert forall|i: int| 0 <= i < init.len() implies function_source(#[trigger] init[i]) is Some by {
            assert(init[i] == names[i]);
        }
        lemma_missing_sources_are_sources(content, init);
        assert(function_source(names[names.len() - 1]) is Some);
        let head = missing_among(content, init);
        assert(head.push(names.last()).map_values(|n: Seq<char>| function_source(n)->0) =~= head.map_values(
            |n: Seq<char>| function_source(n)->0,
        ).push(function_source(names.last())->0));
    }
}

proof fn lemma_missing_among_membership(content: Seq<char>, names: Seq<Seq<char>>)
    requires
        forall|i: int, j: int| 0 <= i < j < names.len() ==> names[i] != names[j],
    ensures
        forall|i: int|
            0 <= i < names.len() ==> (missing_among(content, names).contains(#[trigger] names[i])
                <==> !has_function(content, names[i])),
        forall|x: Seq<char>| #[trigger] missing_among(content, names).contains(x) ==> names.contains(x),
    decreases names.len(),
{
    if names.len() > 0 {
        let init = names.drop_last();
        lemma_missing_among_membership(content, init);
        let head = missing_among(content, init);
        let last = names.last();
        assert forall|x: Seq<char>| #[trigger] missing_among(content, names).contains(x) implies names.contains(x) by {
            if head.contains(x) {
                let k = choose|k: int| 0 <= k < init.len() && init[k] == x;
                assert(names[k] == x);
            } else {
                assert(x == last);
                assert(names[names.len() - 1] == x);
            }
        }
        assert forall|i: int| 0 <= i < names.len() implies (missing_among(content, names).contains(
            #[trigger] names[i],
        ) <==> !has_function(content, names[i])) by {
            if i < names.len() - 1 {
                assert(init[i] == names[i]);
                assert(names[i] != last);
                if !has_function(content, last) {
                    assert(head.push(last).contains(names[i]) <==> head.contains(names[i])) by {
                        if head.push(last).contains(names[i]) {
                            let k = choose|k: int| 0 <= k < head.push(last).len() && head.push(last)[k] == names[i];
                            if k < head.len() {
                                assert(head[k] == names[i]);
                            }
                        }
                        if head.contains(names[i]) {
                            let k = choose|k: int| 0 <= k < head.len() && head[k] == names[i];
                            assert(head.push(last)[k] == names[i]);
                        }
                    }
                }
            } else {
                if has_function(content, last) {
                    if head.contains(last) {
                        let k = choose|k: int| 0 <= k < init.len() && init[k] == last;
                        assert(names[k] == names[names.len() - 1]);
                    }
                } else {
                    assert(head.push(last)[head.len() as int] == last);
                }
            }
        }
    }
}

/// A block of CX-Manager's shape: its start line, the proxy address, the
/// project roots, the tool paths, the given helper definitions and its end
/// line, separated by blank lines.
pub open spec fn block_of(proxy_url: Seq<char>, roots: Seq<Seq<char>>, sources: Seq<Seq<char>>) -> Seq<char> {
    joined(
        seq![MANAGED_BLOCK_START@, proxy_block(proxy_url), roots_block(roots), TOOL_PATHS_BLOCK@] + sources
            + seq![MANAGED_BLOCK_END@],
        "\n\n"@,
    )
}

/// The block CX-Manager maintains: the default definition of each helper
/// function that the user's content does not define, in the block's shape.
pub open spec fn managed_block(proxy_url: Seq<char>, roots: Seq<Seq<char>>, user_content: Seq<char>) -> Seq<char> {
    block_of(proxy_url, roots, missing_sources_among(user_content, helper_names()))
}

/// The default definitions of the helpers among `names`, in order.
pub open spec fn default_sources(names: Seq<Seq<char>>) -> Seq<Seq<char>>
    decreases names.len(),
{
    if names.len() == 0 {
        seq![]
    } else {
        let head = default_sources(names.drop_last());
        match function_source(names.last()) {
            Some(source) => head.push(source),
            None => head,
        }
    }
}

/// The managed block with the default definition of every helper: the block
/// built for user text that is blank, which defines none of them.
pub open spec fn full_block(proxy_url: Seq<char>, roots: Seq<Seq<char>>) -> Seq<char> {
    block_of(proxy_url, roots, default_sources(helper_names()))
}

/// See [`managed_block`].
pub fn build_managed_profile_block(proxy_url: &str, project_roots: &[String], user_content: &str) -> (r:
    String)
    ensures
        r@ == managed_block(proxy_url@, project_roots.deep_view(), user_content@),
        forall|lead: Seq<char>|
            #![trigger line_breaks_only(lead)]
            line_breaks_only(lead) ==> r@ == managed_block(
                proxy_url@,
                project_roots.deep_view(),
                lead + trim_start_either(user_content@, '\r', '\n'),
            ),
        is_blank(user_content@) ==> r@ == full_block(proxy_url@, project_roots.deep_view()),
{
    let mut sections: Vec<String> = Vec::new();
    sections.push(MANAGED_BLOCK_START.to_string());
    sections.push(build_proxy_block(proxy_url));
    sections.push(build_project_roots_block(project_roots));
    sections.push(build_tool_paths_block().to_string());
    let ghost fixed = seq![
        MANAGED_BLOCK_START@,
        proxy_block(proxy_url@),
        roots_block(project_roots.deep_view()),
        TOOL_PATHS_BLOCK@,
    ];
    assert(sections.deep_view() =~= fixed);
    let names = default_terminal_function_names();
    let ghost nv = names@.map_values(|s: &str| s@);
    let mut i: usize = 0;
    while i < names.len()
        invariant
            i <= names@.len(),
            nv == names@.map_values(|s: &str| s@),
            nv == helper_names(),
            sections.deep_view() == fixed + missing_sources_among(user_content@, nv.take(i as int)),
            forall|lead: Seq<char>|
                #![trigger line_breaks_only(lead)]
                line_breaks_only(lead) ==> missing_sources_among(user_content@, nv.take(i as int))
                    == missing_sources_among(
                    lead + trim_start_either(user_content@, '\r', '\n'),
                    nv.take(i as int),
                ),
            is_blank(user_content@) ==> sections.deep_view() == fixed + default_sources(nv.take(i as int)),
        decreases names@.len() - i,
    {
        assert(nv.take(i + 1).drop_last() =~= nv.take(i as int));
        assert(nv.take(i + 1).last() == names@[i as int]@);
        let name = names[i];
        let defined = has_powershell_function(user_content, name);
        proof {
            assert forall|lead: Seq<char>| #[trigger] line_breaks_only(lead) implies missing_sources_among(
                user_content@,
                nv.take(i + 1),
            ) == missing_sources_among(
                lead + trim_start_either(user_content@, '\r', '\n'),
                nv.take(i + 1),
            ) by {
                assert(line_breaks_only(lead));
            }
        }
        if !defined {
            if let Some(source) = default_function_source(name) {
                let ghost before = sections.deep_view();
                sections.push(source.to_string());
                assert(sections.deep_view() =~= before.push(source@));
            }
        }
        i = i + 1;
    }
    assert(nv.take(i as int) =~= nv);
    let ghost before = sections.deep_view();
    sections.push(MANAGED_BLOCK_END.to_string());
    assert(sections.deep_view() =~= before.push(MANAGED_BLOCK_END@));
    assert(sections.deep_view() =~= fixed + missing_sources_among(user_content@, helper_names())
        + seq![MANAGED_BLOCK_END@]);
    assert(is_blank(user_content@) ==> sections.deep_view() =~= fixed + default_sources(helper_names())
        + seq![MANAGED_BLOCK_END@]);
    join_strings(&sections, "\n\n")
}

/// The text with one leading `\r\n` or `\n` removed, if it has one.
pub open spec fn after_line_break(t: Seq<char>) -> Seq<char> {
    if t.len() >= 2 && t[0] == '\r' && t[1] == '\n' {
        t.skip(2)
    } else if t.len() >= 1 && t[0] == '\n' {
        t.skip(1)
    } else {
        t
    }
}

/// A text that starts with a marked block: the start marker, a line feed,
/// `body`, a line feed, the end marker, then `rest`.
pub open spec fn lone_block_text(body: Seq<char>, rest: Seq<char>) -> Seq<char> {
    MANAGED_BLOCK_START@ + "\n"@ + body + "\n"@ + MANAGED_BLOCK_END@ + rest
}

/// The name of the proxy variable the profile assigns.
pub open spec fn proxy_variable() -> Seq<char> {
    "$CX_MANAGER_PROXY_URL"@
}

/// A proxy assignment line as earlier versions wrote it: the variable, ` = `,
/// the address in double quotes and a line feed.
pub open spec fn legacy_proxy_line(value: Seq<char>) -> Seq<char> {
    "$CX_MANAGER_PROXY_URL = \""@ + value + "\"\n"@
}

/// A quoted value with neither a double quote nor a backtick in it, so the
/// quotes around it delimit it.
pub open spec fn plain_quoted_value(value: Seq<char>) -> bool {
    forall|i: int| 0 <= i < value.len() ==> #[trigger] value[i] != '"' && value[i] != '`'
}

/// A text holding a project roots array as earlier versions wrote it, on
/// lines of its own: `before`, a line feed, `$CX_MANAGER_PROJECT_ROOTS = @(`,
/// the elements, `)`, a line feed and `rest`.
pub open spec fn legacy_roots_text(before: Seq<char>, items: Seq<char>, rest: Seq<char>) -> Seq<char> {
    before + "\n$CX_MANAGER_PROJECT_ROOTS = @("@ + items + ")\n"@ + rest
}

/// The elements of an array, `before` and `rest` are such that the array
/// is the only one found: the elements hold no `)`, neither `before` nor
/// `rest` names the roots variable, and `before` does not end with a
/// carriage return.
pub open spec fn lone_roots_array(before: Seq<char>, items: Seq<char>, rest: Seq<char>) -> bool {
    &&& forall|i: int| 0 <= i < items.len() ==> #[trigger] items[i] != ')'
    &&& !contains(before, roots_variable())
    &&& !contains(rest, roots_variable())
    &&& (before.len() == 0 || before.last() != '\r')
}

/// The name of the project roots variable the profile assigns.
pub open spec fn roots_variable() -> Seq<char> {
    "$CX_MANAGER_PROJECT_ROOTS"@
}

/// The pattern that finds a block between [`MANAGED_BLOCK_START`] and
/// [`MANAGED_BLOCK_END`] lines with the line breaks around it.
pub open spec fn marked_block_pattern() -> Seq<char> {
    r"(?s)(?:\r?\n)?"@ + regex_escaped(MANAGED_BLOCK_START@) + r"\r?\n.*?\r?\n"@ + regex_escaped(
        MANAGED_BLOCK_END@,
    ) + r"(?:\r?\n)?"@
}

/// Each block found by [`marked_block_pattern`] replaced by a line feed.
pub open spec fn without_marked_blocks(content: Seq<char>) -> Seq<char> {
    replaced(marked_block_pattern(), content, "\n"@)
}

/// See [`without_marked_blocks`].
pub fn strip_marked_managed_blocks(content: &str) -> (r: String)
    ensures
        r@ == without_marked_blocks(content@),
        !pattern_holds(marked_block_pattern(), content@) ==> r@ == content@,
        !contains(content@, MANAGED_BLOCK_START@) ==> r@ == content@,
        forall|body: Seq<char>, rest: Seq<char>|
            #![trigger lone_block_text(body, rest)]
            content@ == lone_block_text(body, rest) && !contains(body, "\n"@ + MANAGED_BLOCK_END@)
                && !contains(rest, MANAGED_BLOCK_START@) ==> r@ == "\n"@ + after_line_break(rest),
{
    let start = escape_pattern(MANAGED_BLOCK_START);
    let end = escape_pattern(MANAGED_BLOCK_END);
    let mut pattern = r"(?s)(?:\r?\n)?".to_string();
    pattern.append(start.as_str());
    pattern.append(r"\r?\n.*?\r?\n");
    pattern.append(end.as_str());
    pattern.append(r"(?:\r?\n)?");
    replace_all_matches(pattern.as_str(), content, "\n")
}

/// Proxy assignments left by earlier versions removed, then their project
/// roots arrays replaced by a line feed.
pub open spec fn without_legacy_values(content: Seq<char>) -> Seq<char> {
    replaced(LEGACY_ROOTS_PATTERN@, replaced(LEGACY_PROXY_PATTERN@, content, ""@), "\n"@)
}

/// See [`without_legacy_values`].
pub fn strip_legacy_managed_values(content: &str) -> (r: String)
    ensures
        r@ == without_legacy_values(content@),
        !pattern_holds(LEGACY_PROXY_PATTERN@, content@) && !pattern_holds(LEGACY_ROOTS_PATTERN@, content@)
            ==> r@ == content@,
        !contains(content@, proxy_variable()) && !contains(content@, roots_variable()) ==> r@ == content@,
        forall|value: Seq<char>, rest: Seq<char>|
            #![trigger legacy_proxy_line(value), contains(rest, proxy_variable())]
            plain_quoted_value(value) && content@ == legacy_proxy_line(value) + rest && !contains(
                rest,
                proxy_variable(),
            ) && !contains(rest, roots_variable()) ==> r@ == rest,
        forall|before: Seq<char>, items: Seq<char>, rest: Seq<char>|
            #![trigger legacy_roots_text(before, items, rest)]
            content@ == legacy_roots_text(before, items, rest) && lone_roots_array(before, items, rest)
                && !contains(content@, proxy_variable()) ==> r@ == before + "\n"@ + rest,
{
    proof {
        reveal_strlit("");
    }
    let without_proxy = replace_all_matches(LEGACY_PROXY_PATTERN, content, "");
    replace_all_matches(LEGACY_ROOTS_PATTERN, without_proxy.as_str(), "\n")
}

/// Everything from the first [`LEGACY_HELPERS_HEADER`] on removed, with the
/// white space before it; the content unchanged when there is no header.
pub open spec fn without_legacy_helpers(content: Seq<char>) -> Seq<char> {
    match first_match_from(content, LEGACY_HELPERS_HEADER@, 0) {
        Some(i) => trim_end(content.take(i)),
        None => content,
    }
}

/// `kept` is the start of `content` before a legacy helper header, with the
/// white space between them left out: it holds no header and does not end
/// with white space, and only white space lies between it and a header.
pub open spec fn cut_before_helper_section(content: Seq<char>, kept: Seq<char>) -> bool {
    &&& kept.len() <= content.len()
    &&& content.take(kept.len() as int) == kept
    &&& !contains(kept, LEGACY_HELPERS_HEADER@)
    &&& kept.len() == 0 || !crate::text::is_white_space(kept.last())
    &&& exists|i: int|
        kept.len() <= i && matches_at(content, LEGACY_HELPERS_HEADER@, i) && forall|k: int|
            kept.len() <= k < i ==> crate::text::is_white_space(#[trigger] content[k])
}

/// See [`without_legacy_helpers`].
///
/// Without a header the content is kept. With one, what is kept is the
/// start of the content before its first header, without the white space
/// that separates them: it holds no header, does not end with white space,
/// and only white space lies between it and a header.
pub fn strip_legacy_helper_block(content: &str) -> (r: String)
    ensures
        r@ == without_legacy_helpers(content@),
        !contains(content@, LEGACY_HELPERS_HEADER@) ==> r@ == content@,
        contains(content@, LEGACY_HELPERS_HEADER@) ==> cut_before_helper_section(content@, r@),
{
    let v = chars_of(content);
    let header = chars_of(LEGACY_HELPERS_HEADER);
    match find_from(v.as_slice(), header.as_slice(), 0) {
        Some(index) => {
            proof {
                lemma_first_match_unique(content@, LEGACY_HELPERS_HEADER@, 0, index as int);
                let h = content@.take(index as int);
                crate::text::lemma_last_non_white(h, h.len() as int);
                let k = crate::text::last_non_white(h, h.len() as int) + 1;
                crate::text::lemma_trim_end_take(h, k);
                let t = h.take(k);
                assert(content@.take(k) =~= t);
                if contains(t, LEGACY_HELPERS_HEADER@) {
                    let j = choose|j: int| matches_at(t, LEGACY_HELPERS_HEADER@, j);
                    assert(t.subrange(j, j + LEGACY_HELPERS_HEADER@.len()) =~= content@.subrange(
                        j,
                        j + LEGACY_HELPERS_HEADER@.len(),
                    ));
                    assert(matches_at(content@, LEGACY_HELPERS_HEADER@, j));
                    reveal_strlit("# CX-Manager default terminal helpers");
                    assert(j < index);
                    assert(!matches_at(v@, header@, j));
                    assert(false);
                }
                if k > 0 {
                    assert(t.last() == h[k - 1]);
                }
                assert forall|m: int| k <= m < index implies crate::text::is_white_space(#[trigger] content@[m]) by {
                    assert(content@[m] == h[m]);
                }
                assert(t.len() == k);
                assert(matches_at(content@, LEGACY_HELPERS_HEADER@, index as int));
                assert(t.len() <= index && matches_at(content@, LEGACY_HELPERS_HEADER@, index as int) && forall|m: int|
                    t.len() <= m < index ==> crate::text::is_white_space(#[trigger] content@[m]));
                assert(without_legacy_helpers(content@) == t);
                assert(cut_before_helper_section(content@, t));
            }
            let head = prefix_str(content, index);
            trim_end_str(head).to_string()
        },
        None => {
            proof {
                if first_match_from(content@, LEGACY_HELPERS_HEADER@, 0) is Some {
                    let i = choose|i: int| 0 <= i && matches_at(content@, LEGACY_HELPERS_HEADER@, i);
                    assert(matches_at(content@, LEGACY_HELPERS_HEADER@, i));
                }
                if contains(content@, LEGACY_HELPERS_HEADER@) {
                    let i = choose|i: int| matches_at(content@, LEGACY_HELPERS_HEADER@, i);
                    assert(0 <= i);
                }
            }
            content.to_string()
        },
    }
}

/// The user's part of a profile: marked blocks, values left by earlier
/// versions and the legacy helper section removed.
pub open spec fn user_part(content: Seq<char>) -> Seq<char> {
    without_legacy_helpers(without_legacy_values(without_marked_blocks(content)))
}

/// No stripping pattern matches the content and it has no legacy helper
/// header.
pub open spec fn free_of_managed_parts(content: Seq<char>) -> bool {
    &&& !pattern_holds(marked_block_pattern(), content)
    &&& !pattern_holds(LEGACY_PROXY_PATTERN@, content)
    &&& !pattern_holds(LEGACY_ROOTS_PATTERN@, content)
    &&& first_match_from(content, LEGACY_HELPERS_HEADER@, 0) is None
}

/// Text that holds none of CX-Manager's start marker, variable names and
/// legacy helper header.
pub open spec fn free_of_cxmanager_text(u: Seq<char>) -> bool {
    &&& !contains(u, MANAGED_BLOCK_START@)
    &&& !contains(u, proxy_variable())
    &&& !contains(u, roots_variable())
    &&& !contains(u, LEGACY_HELPERS_HEADER@)
}

/// A built profile: the managed block, a blank line and the user's text.
pub open spec fn built_profile_text(
    proxy_url: Seq<char>,
    roots: Seq<Seq<char>>,
    user_content: Seq<char>,
    rest: Seq<char>,
) -> Seq<char> {
    managed_block(proxy_url, roots, user_content) + "\n\n"@ + rest
}

/// See [`user_part`]. Content in which nothing is found to strip is kept
/// exactly. From a built profile (with a single-line proxy address and
/// roots) exactly the managed block is removed, whatever it holds: the
/// user's text is kept after a line break in place of the block, or only
/// that line break is left when there is no user text.
pub fn strip_existing_cxmanager_blocks(content: &str) -> (r: String)
    ensures
        r@ == user_part(content@),
        free_of_managed_parts(content@) ==> r@ == content@,
        forall|proxy_url: Seq<char>, roots: Seq<Seq<char>>, user_content: Seq<char>, rest: Seq<char>|
            #![trigger built_profile_text(proxy_url, roots, user_content, rest)]
            crate::profile_shape::settings_single_line(proxy_url, roots) && free_of_cxmanager_text(rest)
                && content@ == built_profile_text(proxy_url, roots, user_content, rest) ==> r@ == "\n\n"@
                + rest,
        forall|proxy_url: Seq<char>, roots: Seq<Seq<char>>, user_content: Seq<char>|
            #![trigger managed_block(proxy_url, roots, user_content)]
            crate::profile_shape::settings_single_line(proxy_url, roots) && content@ == managed_block(
                proxy_url,
                roots,
                user_content,
            ) + "\n"@ ==> r@ == "\n"@,
        forall|proxy_url: Seq<char>, roots: Seq<Seq<char>>|
            #![trigger full_block(proxy_url, roots)]
            crate::profile_shape::settings_single_line(proxy_url, roots) && content@ == full_block(proxy_url, roots)
                + "\n"@ ==> r@ == "\n"@,
{
    let without_marked = strip_marked_managed_blocks(content);
    let without_legacy_values = strip_legacy_managed_values(without_marked.as_str());
    let r = strip_legacy_helper_block(without_legacy_values.as_str());
    proof {
        reveal_strlit("\n\n");
        reveal_strlit("\n");
        reveal_strlit("# >>> CX-Manager managed profile");
        reveal_strlit("$CX_MANAGER_PROXY_URL");
        reveal_strlit("$CX_MANAGER_PROJECT_ROOTS");
        reveal_strlit("# CX-Manager default terminal helpers");
        assert forall|proxy_url: Seq<char>, roots: Seq<Seq<char>>, user_content: Seq<char>, rest: Seq<char>|
            crate::profile_shape::settings_single_line(proxy_url, roots) && free_of_cxmanager_text(rest)
                && content@ == #[trigger] built_profile_text(proxy_url, roots, user_content, rest)
            implies r@ == "\n\n"@ + rest by {
            crate::profile_shape::lemma_managed_block_shape(proxy_url, roots, user_content);
            let body = crate::profile_shape::block_body(proxy_url, roots, user_content);
            let tail = "\n\n"@ + rest;
            assert(content@ == lone_block_text(body, tail));
            crate::profile_shape::lemma_line_feeds_before("\n\n"@, rest, MANAGED_BLOCK_START@);
            assert(after_line_break(tail) =~= "\n"@ + rest);
            assert(without_marked@ =~= tail);
            crate::profile_shape::lemma_line_feeds_before("\n\n"@, rest, proxy_variable());
            crate::profile_shape::lemma_line_feeds_before("\n\n"@, rest, roots_variable());
            crate::profile_shape::lemma_line_feeds_before("\n\n"@, rest, LEGACY_HELPERS_HEADER@);
            assert(first_match_from(tail, LEGACY_HELPERS_HEADER@, 0) is None);
        }
        assert forall|body: Seq<char>|
            !contains(body, crate::profile_shape::end_line()) && content@ == #[trigger] lone_block_text(
                body,
                "\n"@,
            ) implies r@ == "\n"@ by {
            let tail = "\n"@;
            assert(!contains(tail, MANAGED_BLOCK_START@)) by {
                if contains(tail, MANAGED_BLOCK_START@) {
                    let i = choose|i: int| matches_at(tail, MANAGED_BLOCK_START@, i);
                }
            }
            assert(after_line_break(tail) =~= Seq::<char>::empty());
            assert(without_marked@ =~= "\n"@);
            assert(!contains("\n"@, proxy_variable())) by {
                if contains("\n"@, proxy_variable()) {
                    let i = choose|i: int| matches_at("\n"@, proxy_variable(), i);
                }
            }
            assert(!contains("\n"@, roots_variable())) by {
                if contains("\n"@, roots_variable()) {
                    let i = choose|i: int| matches_at("\n"@, roots_variable(), i);
                }
            }
            assert(first_match_from("\n"@, LEGACY_HELPERS_HEADER@, 0) is None) by {
                if exists|i: int| 0 <= i && matches_at("\n"@, LEGACY_HELPERS_HEADER@, i) {
                    let i = choose|i: int| 0 <= i && matches_at("\n"@, LEGACY_HELPERS_HEADER@, i);
                }
            }
        }
        assert forall|proxy_url: Seq<char>, roots: Seq<Seq<char>>, user_content: Seq<char>|
            crate::profile_shape::settings_single_line(proxy_url, roots) && content@ == #[trigger] managed_block(
                proxy_url,
                roots,
                user_content,
            ) + "\n"@ implies r@ == "\n"@ by {
            crate::profile_shape::lemma_managed_block_shape(proxy_url, roots, user_content);
            let body = crate::profile_shape::block_body(proxy_url, roots, user_content);
            assert(content@ =~= lone_block_text(body, "\n"@));
        }
        assert forall|proxy_url: Seq<char>, roots: Seq<Seq<char>>|
            crate::profile_shape::settings_single_line(proxy_url, roots) && content@ == #[trigger] full_block(
                proxy_url,
                roots,
            ) + "\n"@ implies r@ == "\n"@ by {
            crate::profile_shape::lemma_full_block_shape(proxy_url, roots);
            let body = crate::profile_shape::body_of(proxy_url, roots, default_sources(helper_names()));
            assert(content@ =~= lone_block_text(body, "\n"@));
        }
    }
    r
}

/// The content without NUL characters.
pub fn sanitize_profile_content(content: &str) -> (r: String)
    ensures
        r@ == without_char(content@, '\0'),
{
    remove_char(content, '\0')
}

/// The profile built around a user's part: the managed block built for it,
/// then that part without its leading line breaks after a blank line, or a
/// single line feed when the part is blank.
pub open spec fn profile_from_user(proxy_url: Seq<char>, roots: Seq<Seq<char>>, user: Seq<char>) -> Seq<char> {
    let block = managed_block(proxy_url, roots, user);
    let rest = trim_start_either(user, '\r', '\n');
    if trim(rest).len() == 0 {
        block + "\n"@
    } else {
        block + "\n\n"@ + rest
    }
}

/// The profile CX-Manager writes for the given content and settings: the
/// profile built around the user's part of the content (NUL characters
/// removed, earlier managed parts stripped), see [`profile_from_user`].
pub open spec fn profile_content(content: Seq<char>, proxy_url: Seq<char>, roots: Seq<Seq<char>>) -> Seq<
    char,
> {
    profile_from_user(proxy_url, roots, user_part(without_char(content, '\0')))
}

/// See [`profile_content`]. Rebuilding a profile built around user text
/// that holds none of CX-Manager's markers and variables, and is not blank,
/// gives the profile built around that same text with the new settings: the
/// old managed block is replaced, never kept or repeated. For blank user
/// text the profile is the block with every helper's default definition and
/// a line feed, and rebuilding it gives that profile for the new settings.
/// With a single-line proxy address and roots, the result is a built
/// profile (see [`crate::profile_shape::is_built_profile`]).
pub fn build_profile_content(content: &str, proxy_url: &str, project_roots: &[String]) -> (r: String)
    ensures
        r@ == profile_content(content@, proxy_url@, project_roots.deep_view()),
        forall|old_proxy_url: Seq<char>, old_roots: Seq<Seq<char>>, user: Seq<char>|
            #![trigger profile_from_user(old_proxy_url, old_roots, user)]
            crate::profile_shape::settings_single_line(old_proxy_url, old_roots) && free_of_cxmanager_text(user)
                && trim(trim_start_either(user, '\r', '\n')).len() > 0 && without_char(content@, '\0')
                == content@ && content@ == profile_from_user(old_proxy_url, old_roots, user) ==> r@
                == profile_from_user(proxy_url@, project_roots.deep_view(), user),
        forall|old_proxy_url: Seq<char>, old_roots: Seq<Seq<char>>|
            #![trigger full_block(old_proxy_url, old_roots)]
            crate::profile_shape::settings_single_line(old_proxy_url, old_roots) && without_char(content@, '\0')
                == content@ && content@ == full_block(old_proxy_url, old_roots) + "\n"@ ==> r@ == full_block(
                proxy_url@,
                project_roots.deep_view(),
            ) + "\n"@,
        trim(trim_start_either(user_part(without_char(content@, '\0')), '\r', '\n')).len() == 0 ==> r@
            == full_block(proxy_url@, project_roots.deep_view()) + "\n"@,
        crate::profile_shape::settings_single_line(proxy_url@, project_roots.deep_view())
            ==> crate::profile_shape::is_built_profile(r@),
{
    let sanitized = sanitize_profile_content(content);
    let user_content = strip_existing_cxmanager_blocks(sanitized.as_str());
    let managed_block = build_managed_profile_block(proxy_url, project_roots, user_content.as_str());
    let rest = trim_start_either_str(user_content.as_str(), '\r', '\n');
    let mut r = managed_block;
    if trim_str(rest).is_empty() {
        proof {
            crate::profile_shape::lemma_blank_after_breaks(user_content@);
        }
        r.append("\n");
    } else {
        r.append("\n\n");
        r.append(rest);
    }
    proof {
        reveal_strlit("\n\n");
        assert forall|old_proxy_url: Seq<char>, old_roots: Seq<Seq<char>>, user: Seq<char>|
            crate::profile_shape::settings_single_line(old_proxy_url, old_roots) && free_of_cxmanager_text(user)
                && trim(trim_start_either(user, '\r', '\n')).len() > 0 && without_char(content@, '\0')
                == content@ && content@ == #[trigger] profile_from_user(old_proxy_url, old_roots, user)
            implies r@ == profile_from_user(proxy_url@, project_roots.deep_view(), user) by {
            let t = trim_start_either(user, '\r', '\n');
            let feeds = "\n\n"@;
            assert(line_breaks_only(feeds));
            crate::profile_shape::lemma_leading_breaks(user, feeds);
            let w = user.take(user.len() - t.len());
            let k = user.len() - t.len();
            assert(user.skip(k) =~= t);
            if contains(t, MANAGED_BLOCK_START@) {
                crate::profile_shape::lemma_contains_suffix(user, k, MANAGED_BLOCK_START@);
            }
            if contains(t, proxy_variable()) {
                crate::profile_shape::lemma_contains_suffix(user, k, proxy_variable());
            }
            if contains(t, roots_variable()) {
                crate::profile_shape::lemma_contains_suffix(user, k, roots_variable());
            }
            if contains(t, LEGACY_HELPERS_HEADER@) {
                crate::profile_shape::lemma_contains_suffix(user, k, LEGACY_HELPERS_HEADER@);
            }
            assert(content@ == built_profile_text(old_proxy_url, old_roots, user, t));
            assert(user_content@ == feeds + t);
            assert(rest@ == t);
            assert(line_breaks_only(w));
            assert(w + trim_start_either(user_content@, '\r', '\n') == user);
        }
        assert forall|old_proxy_url: Seq<char>, old_roots: Seq<Seq<char>>|
            crate::profile_shape::settings_single_line(old_proxy_url, old_roots) && without_char(content@, '\0')
                == content@ && content@ == #[trigger] full_block(old_proxy_url, old_roots) + "\n"@ implies r@
            == full_block(proxy_url@, project_roots.deep_view()) + "\n"@ by {
            assert(user_content@ == "\n"@);
            reveal_strlit("\n");
            assert("\n"@.drop_first() =~= Seq::<char>::empty());
            assert(trim_start_either(Seq::<char>::empty(), '\r', '\n') =~= Seq::<char>::empty());
            assert(trim_start_either("\n"@, '\r', '\n') =~= Seq::<char>::empty());
            assert(rest@.len() == 0);
        }
    }
    r
}

/// The UTF-8 byte order mark.
pub open spec fn bom_bytes() -> Seq<u8> {
    seq![0xEFu8, 0xBBu8, 0xBFu8]
}

/// The bytes written for a profile: the byte order mark, then the UTF-8
/// encoding of the content.
pub fn profile_file_bytes(content: &str) -> (r: Vec<u8>)
    ensures
        r@ == bom_bytes() + encode_utf8(content@),
{
    let mut bytes: Vec<u8> = Vec::new();
    bytes.push(0xEF);
    bytes.push(0xBB);
    bytes.push(0xBF);
    let encoded = content.as_bytes();
    let mut i: usize = 0;
    while i < encoded.len()
        invariant
            i <= encoded@.len(),
            bytes@ == bom_bytes() + encoded@.take(i as int),
        decreases encoded@.len() - i,
    {
        bytes.push(encoded[i]);
        i = i + 1;
        assert(bytes@ =~= bom_bytes() + encoded@.take(i as int));
    }
    assert(encoded@.take(i as int) =~= encoded@);
    bytes
}

/// Profile text as read: leading byte order mark characters removed.
pub open spec fn without_bom(s: Seq<char>) -> Seq<char>
    decreases s.len(),
{
    if s.len() > 0 && s[0] == '\u{feff}' {
        without_bom(s.drop_first())
    } else {
        s
    }
}

/// See [`without_bom`].
pub fn strip_profile_bom(content: &str) -> (r: &str)
    ensures
        r@ == without_bom(content@),
{
    let r = trim_start_either_str(content, '\u{feff}', '\u{feff}');
    proof {
        lemma_trim_either_same(content@, '\u{feff}');
    }
    r
}

proof fn lemma_trim_either_same(s: Seq<char>, c: char)
    requires
        c == '\u{feff}',
    ensures
        trim_start_either(s, c, c) == without_bom(s),
    decreases s.len(),
{
    if s.len() > 0 {
        lemma_trim_either_same(s.drop_first(), c);
    }
}

/// Law: a profile written as [`profile_file_bytes`] and read back as UTF-8
/// text with [`strip_profile_bom`] is the content that was written, unless
/// that content itself starts with a byte order mark character.
pub proof fn lemma_written_profile_reads_back(content: Seq<char>)
    requires
        !(content.len() > 0 && content[0] == '\u{feff}'),
    ensures
        valid_utf8(bom_bytes() + encode_utf8(content)),
        without_bom(decode_utf8(bom_bytes() + encode_utf8(content))) == content,
{
    let s = seq!['\u{feff}'] + content;
    assert(s[0] == '\u{feff}');
    assert(s.drop_first() =~= content);
    let v: u32 = '\u{feff}' as u32;
    assert(v == 0xFEFF);
    assert(has_width_3_encoding(v));
    assert(leading_byte_width_3(v) == 0xEF && second_last_continuation_byte(v) == 0xBB
        && last_continuation_byte(v) == 0xBF) by (bit_vector)
        requires
            v == 0xFEFF,
    ;
    assert(encode_scalar(v) =~= bom_bytes());
    assert(encode_utf8(s) =~= bom_bytes() + encode_utf8(content));
    encode_utf8_valid_utf8(s);
    encode_utf8_decode_utf8(s);
    assert(without_bom(s) == without_bom(s.drop_first()));
}

/// What a profile holds of the CX-Manager configuration.
#[derive(Debug, Clone, PartialEq, Eq)]
pub struct ProfileStatus {
    pub profile_path: String,
    pub exists: bool,
    pub has_proxy_block: bool,
    pub has_project_roots_block: bool,
    pub missing_helpers: Vec<String>,
    pub is_complete: bool,
    pub message: String,
}

/// The content assigns `$CX_MANAGER_PROXY_URL` on some line.
pub open spec fn has_proxy(content: Seq<char>) -> bool {
    pattern_holds(PROXY_BLOCK_PATTERN@, content)
}

/// The content assigns the `$CX_MANAGER_PROJECT_ROOTS` array.
pub open spec fn has_roots(content: Seq<char>) -> bool {
    pattern_holds(ROOTS_BLOCK_PATTERN@, content)
}

/// See [`has_proxy`].
pub fn has_proxy_block(content: &str) -> (r: bool)
    ensures
        r == has_proxy(content@),
        (exists|i: int| line_start(content@, i) && matches_at(content@, proxy_assignment(), i)) ==> r,
{
    pattern_matches(PROXY_BLOCK_PATTERN, content)
}

/// See [`has_roots`].
pub fn has_project_roots_block(content: &str) -> (r: bool)
    ensures
        r == has_roots(content@),
        (exists|i: int, k: int|
            matches_at(content@, roots_assignment(), i) && i + roots_assignment().len() <= k < content@.len()
                && content@[k] == ')') ==> r,
{
    pattern_matches(ROOTS_BLOCK_PATTERN, content)
}

/// The status of the profile at `profile_path` (`exists` tells whether the
/// file exists) with the given content: which parts it has, which helper
/// functions it lacks, and whether it is complete.
pub fn profile_status_for(profile_path: &str, exists: bool, content: &str) -> (r: ProfileStatus)
    ensures
        r.profile_path@ == profile_path@,
        r.exists == exists,
        r.has_proxy_block == has_proxy(content@),
        r.has_project_roots_block == has_roots(content@),
        r.missing_helpers.deep_view() == missing_helpers(content@),
        r.is_complete == (has_proxy(content@) && has_roots(content@) && missing_helpers(
            content@,
        ).len() == 0),
        r.message@ == if r.is_complete {
            "Profile 已包含 CX-Manager 必要配置"@
        } else {
            "Profile 缺少 CX-Manager 必要配置"@
        },
        crate::profile_shape::is_built_profile(content@) ==> r.is_complete,
{
    let names = default_terminal_function_names();
    let ghost nv = names@.map_values(|s: &str| s@);
    let mut missing: Vec<String> = Vec::new();
    let mut i: usize = 0;
    while i < names.len()
        invariant
            i <= names@.len(),
            nv == names@.map_values(|s: &str| s@),
            nv == helper_names(),
            missing.deep_view() == missing_among(content@, nv.take(i as int)),
            crate::profile_shape::is_built_profile(content@) ==> missing@.len() == 0,
        decreases names@.len() - i,
    {
        assert(nv.take(i + 1).drop_last() =~= nv.take(i as int));
        assert(nv.take(i + 1).last() == names@[i as int]@);
        let defined = has_powershell_function(content, names[i]);
        proof {
            if exists|proxy_url: Seq<char>, roots: Seq<Seq<char>>|
                #[trigger] full_block(proxy_url, roots) + "\n"@ == content@
                    && crate::profile_shape::settings_single_line(proxy_url, roots) {
                let (proxy_url, roots) = choose|proxy_url: Seq<char>, roots: Seq<Seq<char>>|
                    #[trigger] full_block(proxy_url, roots) + "\n"@ == content@
                        && crate::profile_shape::settings_single_line(proxy_url, roots);
                crate::profile_shape::lemma_full_profile_parts(proxy_url, roots);
                let n = names@[i as int]@;
                assert(helper_names()[i as int] == n);
                assert(helper_names().contains(n));
                assert(function_header(n) == function_header(n));
                assert(defined);
            } else if crate::profile_shape::is_built_profile(content@) {
                let (proxy_url, roots, user) = choose|proxy_url: Seq<char>, roots: Seq<Seq<char>>, user: Seq<char>|
                    #[trigger] profile_from_user(proxy_url, roots, user) == content@
                        && crate::profile_shape::settings_single_line(proxy_url, roots) && trim(
                        trim_start_either(user, '\r', '\n'),
                    ).len() > 0;
                crate::profile_shape::lemma_built_profile_parts(proxy_url, roots, user);
                let n = names@[i as int]@;
                assert(helper_names()[i as int] == n);
                assert(helper_names().contains(n));
                let t = trim_start_either(user, '\r', '\n');
                let k = crate::profile_shape::user_text_start(proxy_url, roots, user);
                let w = user.take(user.len() - t.len());
                if has_function(user, n) {
                    assert(line_breaks_only(w));
                    assert(w + content@.skip(k) == user);
                    assert(defined);
                } else {
                    assert(function_header(n) == function_header(n));
                    assert(defined);
                }
            }
        }
        if !defined {
            let ghost before = missing.deep_view();
            missing.push(names[i].to_string());
            assert(missing.deep_view() =~= before.push(names@[i as int]@));
        }
        i = i + 1;
    }
    assert(nv.take(i as int) =~= nv);
    let has_proxy_block = has_proxy_block(content);
    let has_project_roots_block = has_project_roots_block(content);
    proof {
        if exists|proxy_url: Seq<char>, roots: Seq<Seq<char>>|
            #[trigger] full_block(proxy_url, roots) + "\n"@ == content@
                && crate::profile_shape::settings_single_line(proxy_url, roots) {
            let (proxy_url, roots) = choose|proxy_url: Seq<char>, roots: Seq<Seq<char>>|
                #[trigger] full_block(proxy_url, roots) + "\n"@ == content@
                    && crate::profile_shape::settings_single_line(proxy_url, roots);
            crate::profile_shape::lemma_full_profile_parts(proxy_url, roots);
        } else if crate::profile_shape::is_built_profile(content@) {
            let (proxy_url, roots, user) = choose|proxy_url: Seq<char>, roots: Seq<Seq<char>>, user: Seq<char>|
                #[trigger] profile_from_user(proxy_url, roots, user) == content@
                    && crate::profile_shape::settings_single_line(proxy_url, roots) && trim(
                    trim_start_either(user, '\r', '\n'),
                ).len() > 0;
            crate::profile_shape::lemma_built_profile_parts(proxy_url, roots, user);
        }
    }
    let is_complete = has_proxy_block && has_project_roots_block && missing.len() == 0;
    let message = if is_complete {
        "Profile 已包含 CX-Manager 必要配置".to_string()
    } else {
        "Profile 缺少 CX-Manager 必要配置".to_string()
    };
    ProfileStatus {
        profile_path: profile_path.to_string(),
        exists,
        has_proxy_block,
        has_project_roots_block,
        missing_helpers: missing,
        is_complete,
        message,
    }
}

/// Decides whether the profile needs to be rewritten: the content built for
/// the settings ([`profile_content`]) and whether it differs from the current
/// content. When it does not, the current content is returned unchanged.
pub fn initialize_profile_if_needed(content: &str, settings: &AppSettings) -> (r: (bool, String))
    ensures
        ({
            let built = profile_content(
                content@,
                settings.proxy_url@,
                settings.project_roots.deep_view(),
            );
            r.0 == (built != content@) && r.1@ == built
        }),
{
    let final_content = build_profile_content(
        content,
        settings.proxy_url.as_str(),
        settings.project_roots.as_slice(),
    );
    if same_text(final_content.as_str(), content) {
        (false, content.to_string())
    } else {
        (true, final_content)
    }
}

/// The PowerShell command that parses the file at `path` and prints `OK`, or
/// the parse errors one per line.
pub open spec fn syntax_check_script(path: Seq<char>) -> Seq<char> {
    "$errors = $null; $null = [System.Management.Automation.Language.Parser]::ParseFile('"@
        + ps_single_quoted(path)
        + "', [ref]$null, [ref]$errors); if ($errors) { $errors | ForEach-Object { Write-Output $_.ToString() } } else { Write-Output 'OK' }"@
}

/// See [`syntax_check_script`].
pub fn syntax_check_command(path: &str) -> (r: String)
    ensures
        r@ == syntax_check_script(path@),
{
    let mut r =
        "$errors = $null; $null = [System.Management.Automation.Language.Parser]::ParseFile('".to_string();
    let quoted = ps_single_quote_escape(path);
    r.append(quoted.as_str());
    r.append(
        "', [ref]$null, [ref]$errors); if ($errors) { $errors | ForEach-Object { Write-Output $_.ToString() } } else { Write-Output 'OK' }",
    );
    r
}

/// The message when the syntax check failed without saying why.
pub const SYNTAX_CHECK_SILENT_FAILURE: &'static str = "PowerShell 语法检查失败，但没有输出错误详情";

/// What the syntax check reports: success when PowerShell succeeded and
/// printed exactly `OK`; otherwise its error output, or its standard output,
/// or a fixed message, the first of these that is not empty (all trimmed).
pub open spec fn syntax_check_outcome(success: bool, stdout: Seq<u8>, stderr: Seq<u8>) -> Result<(), Seq<char>> {
    let out = trim(output_text(stdout));
    let err = trim(output_text(stderr));
    if success && out == "OK"@ {
        Ok(())
    } else if err.len() > 0 {
        Err(err)
    } else if out.len() > 0 {
        Err(out)
    } else {
        Err(SYNTAX_CHECK_SILENT_FAILURE@)
    }
}

/// See [`syntax_check_outcome`]; takes the exit status and the captured
/// output of the check.
pub fn syntax_check_result(success: bool, stdout: &[u8], stderr: &[u8]) -> (r: Result<(), String>)
    requires
        stdout@.len() <= usize::MAX / 4,
        stderr@.len() <= usize::MAX / 4,
    ensures
        match r {
            Ok(()) => syntax_check_outcome(success, stdout@, stderr@) == Ok::<(), Seq<char>>(()),
            Err(e) => syntax_check_outcome(success, stdout@, stderr@) == Err::<(), Seq<char>>(e@),
        },
{
    let out = decode_command_output(stdout);
    let err = decode_command_output(stderr);
    if success && same_text(out.as_str(), "OK") {
        Ok(())
    } else if !err.as_str().is_empty() {
        Err(err)
    } else if !out.as_str().is_empty() {
        Err(out)
    } else {
        Err(SYNTAX_CHECK_SILENT_FAILURE.to_string())
    }
}

/// Law: the syntax check passes exactly when PowerShell succeeded and its
/// standard output, trimmed, is `OK`. A failed check reports the error
/// output when there is any; otherwise the standard output, so parser errors
/// printed by a run that exited successfully are reported and fail the
/// check; otherwise a fixed message. Every reported error is trimmed and not
/// empty.
pub proof fn lemma_syntax_check_passes_only_on_ok(success: bool, stdout: Seq<u8>, stderr: Seq<u8>)
    ensures
        syntax_check_outcome(success, stdout, stderr) is Ok <==> success && trim(output_text(stdout)) == "OK"@,
        !(success && trim(output_text(stdout)) == "OK"@) && trim(output_text(stderr)).len() > 0
            ==> syntax_check_outcome(success, stdout, stderr) == Err::<(), Seq<char>>(
            trim(output_text(stderr)),
        ),
        !(success && trim(output_text(stdout)) == "OK"@) && trim(output_text(stderr)).len() == 0 && trim(
            output_text(stdout),
        ).len() > 0 ==> syntax_check_outcome(success, stdout, stderr) == Err::<(), Seq<char>>(
            trim(output_text(stdout)),
        ),
        syntax_check_outcome(success, stdout, stderr) matches Err(e) ==> e.len() > 0 && trim(e) == e,
{
    reveal_strlit("PowerShell 语法检查失败，但没有输出错误详情");
    crate::text::lemma_trim_idempotent(output_text(stdout));
    crate::text::lemma_trim_idempotent(output_text(stderr));
    assert(trim(SYNTAX_CHECK_SILENT_FAILURE@) == SYNTAX_CHECK_SILENT_FAILURE@) by {
        crate::text::lemma_trim_bounds(SYNTAX_CHECK_SILENT_FAILURE@, 0, SYNTAX_CHECK_SILENT_FAILURE@.len() as int);
        assert(SYNTAX_CHECK_SILENT_FAILURE@.subrange(0, SYNTAX_CHECK_SILENT_FAILURE@.len() as int)
            =~= SYNTAX_CHECK_SILENT_FAILURE@);
    }
}

} // verus!
