//! The shape of the text CX-Manager writes into a profile: no line of the
//! managed block, before its end marker, starts with `#`, so the end marker
//! is found exactly where the block ends.

use vstd::prelude::*;
use crate::profile::{
    block_of, default_sources, full_block, function_source, helper_names, managed_block,
    missing_sources_among, proxy_block, root_line,
    roots_block, CX_FUNCTION, INVOKE_CODEX_FUNCTION, MANAGED_BLOCK_END, MANAGED_BLOCK_START,
    PROJECT_FOLDERS_FUNCTION, PROXY_FUNCTION, RESOLVE_CODEX_FUNCTION, SHOW_MENU_FUNCTION,
    TOOL_PATHS_BLOCK, UNPROXY_FUNCTION,
};
use crate::settings::normalize_roots;
use crate::text::{
    contains, is_blank, is_white_space, joined, lemma_blank_all_white, lemma_trim_is_subrange,
    matches_at, trim, trim_bounds, trim_start_either,
};

verus! {

broadcast use vstd::string::group_string_axioms;

/// No line after the first starts with `#`.
pub open spec fn no_hash_line(s: Seq<char>) -> bool {
    forall|i: int| 0 <= i < s.len() - 1 && #[trigger] s[i] == '\n' ==> s[i + 1] != '#'
}

/// The text starts with `#`.
pub open spec fn starts_with_hash(s: Seq<char>) -> bool {
    s.len() > 0 && s[0] == '#'
}

/// The text holds no line feed.
pub open spec fn single_line(s: Seq<char>) -> bool {
    forall|i: int| 0 <= i < s.len() ==> #[trigger] s[i] != '\n'
}

proof fn lemma_tool_paths_block_shape()
    ensures
        no_hash_line(TOOL_PATHS_BLOCK@),
        TOOL_PATHS_BLOCK@.len() > 0 && TOOL_PATHS_BLOCK@[0] == 'f',
{
    reveal_strlit(r#"function Add-CXManagerToolPath {
    param([string]$Path)
    if ([string]::IsNullOrWhiteSpace($Path)) { return }
    if (-not (Test-Path -LiteralPath $Path)) { return }
    $normalizedPath = $Path.TrimEnd('\')
    $existingPaths = @($env:Path -split ';' | Where-Object { -not [string]::IsNullOrWhiteSpace($_) })
    foreach ($existingPath in $existingPaths) {
        if ($existingPath.TrimEnd('\') -ieq $normalizedPath) { return }
    }
    if ([string]::IsNullOrWhiteSpace($env:Path)) {
        $env:Path = $Path
    } else {
        $env:Path = "$Path;$env:Path"
    }
}

$cxNpmPrefix = $null
try {
    $cxNpmCommand = Get-Command npm -CommandType Application -ErrorAction Stop
    $cxNpmPrefix = & $cxNpmCommand.Source prefix -g
    if ($LASTEXITCODE -ne 0) { $cxNpmPrefix = $null }
} catch {
    $cxNpmPrefix = $null
}

if ($cxNpmPrefix) {
    $cxNpmPrefix = @($cxNpmPrefix | Select-Object -First 1)[0].ToString().Trim()
    Add-CXManagerToolPath $cxNpmPrefix
    Add-CXManagerToolPath (Join-Path $cxNpmPrefix "bin")
}
if ($env:ProgramFiles) {
    Add-CXManagerToolPath (Join-Path $env:ProgramFiles "nodejs")
}
if (${env:ProgramFiles(x86)}) {
    Add-CXManagerToolPath (Join-Path ${env:ProgramFiles(x86)} "nodejs")
}
if ($env:APPDATA) {
    Add-CXManagerToolPath (Join-Path $env:APPDATA "npm")
}
if ($env:LOCALAPPDATA) {
    Add-CXManagerToolPath (Join-Path $env:LOCALAPPDATA "Programs\nodejs")
}"#);
    assert(TOOL_PATHS_BLOCK@ == (r#"function Add-CXManagerToolPath {
    param([string]$Path)
    if ([string]::IsNullOrWhiteSpace($Path)) { return }
    if (-not (Test-Path -LiteralPath $Path)) { return }
    $normalizedPath = $Path.TrimEnd('\')
    $existingPaths = @($env:Path -split ';' | Where-Object { -not [string]::IsNullOrWhiteSpace($_) })
    foreach ($existingPath in $existingPaths) {
        if ($existingPath.TrimEnd('\') -ieq $normalizedPath) { return }
    }
    if ([string]::IsNullOrWhiteSpace($env:Path)) {
        $env:Path = $Path
    } else {
        $env:Path = "$Path;$env:Path"
    }
}

$cxNpmPrefix = $null
try {
    $cxNpmCommand = Get-Command npm -CommandType Application -ErrorAction Stop
    $cxNpmPrefix = & $cxNpmCommand.Source prefix -g
    if ($LASTEXITCODE -ne 0) { $cxNpmPrefix = $null }
} catch {
    $cxNpmPrefix = $null
}

if ($cxNpmPrefix) {
    $cxNpmPrefix = @($cxNpmPrefix | Select-Object -First 1)[0].ToString().Trim()
    Add-CXManagerToolPath $cxNpmPrefix
    Add-CXManagerToolPath (Join-Path $cxNpmPrefix "bin")
}
if ($env:ProgramFiles) {
    Add-CXManagerToolPath (Join-Path $env:ProgramFiles "nodejs")
}
if (${env:ProgramFiles(x86)}) {
    Add-CXManagerToolPath (Join-Path ${env:ProgramFiles(x86)} "nodejs")
}
if ($env:APPDATA) {
    Add-CXManagerToolPath (Join-Path $env:APPDATA "npm")
}
if ($env:LOCALAPPDATA) {
    Add-CXManagerToolPath (Join-Path $env:LOCALAPPDATA "Programs\nodejs")
}"#)@);
    let s = TOOL_PATHS_BLOCK@;
    assert(forall|i: int| 0 <= i < s.len() - 1 && #[trigger] s[i] == '\n' ==> s[i + 1] != '#');
}

proof fn lemma_proxy_function_shape()
    ensures
        no_hash_line(PROXY_FUNCTION@),
        PROXY_FUNCTION@.len() > 0 && PROXY_FUNCTION@[0] == 'f',
        matches_at(PROXY_FUNCTION@, crate::profile::function_header("proxy"@), 0),
{
    reveal_strlit("proxy");
    reveal_strlit("function ");
    reveal_strlit(" ");
    reveal_strlit(r#"function proxy {
    if (-not $CX_MANAGER_PROXY_URL) {
        Write-Host "CX-Manager 代理地址为空。" -ForegroundColor Yellow
        return
    }
    $env:HTTP_PROXY = $CX_MANAGER_PROXY_URL
    $env:HTTPS_PROXY = $CX_MANAGER_PROXY_URL
    $env:ALL_PROXY = $CX_MANAGER_PROXY_URL
    $env:http_proxy = $CX_MANAGER_PROXY_URL
    $env:https_proxy = $CX_MANAGER_PROXY_URL
    $env:all_proxy = $CX_MANAGER_PROXY_URL
    Write-Host "已启用代理: $CX_MANAGER_PROXY_URL" -ForegroundColor Green
}"#);
    assert(PROXY_FUNCTION@ == (r#"function proxy {
    if (-not $CX_MANAGER_PROXY_URL) {
        Write-Host "CX-Manager 代理地址为空。" -ForegroundColor Yellow
        return
    }
    $env:HTTP_PROXY = $CX_MANAGER_PROXY_URL
    $env:HTTPS_PROXY = $CX_MANAGER_PROXY_URL
    $env:ALL_PROXY = $CX_MANAGER_PROXY_URL
    $env:http_proxy = $CX_MANAGER_PROXY_URL
    $env:https_proxy = $CX_MANAGER_PROXY_URL
    $env:all_proxy = $CX_MANAGER_PROXY_URL
    Write-Host "已启用代理: $CX_MANAGER_PROXY_URL" -ForegroundColor Green
}"#)@);
    let s = PROXY_FUNCTION@;
    assert(forall|i: int| 0 <= i < s.len() - 1 && #[trigger] s[i] == '\n' ==> s[i + 1] != '#');
    let h = crate::profile::function_header("proxy"@);
    assert(s.subrange(0, h.len() as int) =~= h);
}

proof fn lemma_unproxy_function_shape()
    ensures
        no_hash_line(UNPROXY_FUNCTION@),
        UNPROXY_FUNCTION@.len() > 0 && UNPROXY_FUNCTION@[0] == 'f',
        matches_at(UNPROXY_FUNCTION@, crate::profile::function_header("unproxy"@), 0),
{
    reveal_strlit("unproxy");
    reveal_strlit("function ");
    reveal_strlit(" ");
    reveal_strlit(r#"function unproxy {
    $env:HTTP_PROXY = ""
    $env:HTTPS_PROXY = ""
    $env:ALL_PROXY = ""
    $env:http_proxy = ""
    $env:https_proxy = ""
    $env:all_proxy = ""
    Write-Host "已清空当前 PowerShell 进程代理环境变量。" -ForegroundColor Green
}"#);
    assert(UNPROXY_FUNCTION@ == (r#"function unproxy {
    $env:HTTP_PROXY = ""
    $env:HTTPS_PROXY = ""
    $env:ALL_PROXY = ""
    $env:http_proxy = ""
    $env:https_proxy = ""
    $env:all_proxy = ""
    Write-Host "已清空当前 PowerShell 进程代理环境变量。" -ForegroundColor Green
}"#)@);
    let s = UNPROXY_FUNCTION@;
    assert(forall|i: int| 0 <= i < s.len() - 1 && #[trigger] s[i] == '\n' ==> s[i + 1] != '#');
    let h = crate::profile::function_header("unproxy"@);
    assert(s.subrange(0, h.len() as int) =~= h);
}

proof fn lemma_show_menu_function_shape()
    ensures
        no_hash_line(SHOW_MENU_FUNCTION@),
        SHOW_MENU_FUNCTION@.len() > 0 && SHOW_MENU_FUNCTION@[0] == 'f',
        matches_at(SHOW_MENU_FUNCTION@, crate::profile::function_header("Show-CXMenu"@), 0),
{
    reveal_strlit("Show-CXMenu");
    reveal_strlit("function ");
    reveal_strlit(" ");
    reveal_strlit(r#"function Show-CXMenu {
    param([string[]]$Items, [string]$Title)
    if (-not $Items -or $Items.Count -eq 0) { return -1 }
    $selectedIndex = 0
    [Console]::CursorVisible = $false
    try {
        while ($true) {
            Clear-Host
            Write-Host $Title -ForegroundColor Cyan
            Write-Host ""
            for ($i = 0; $i -lt $Items.Count; $i++) {
                if ($i -eq $selectedIndex) {
                    Write-Host "> " -NoNewline -ForegroundColor Green
                    Write-Host $Items[$i] -ForegroundColor Green
                } else {
                    Write-Host "  " -NoNewline
                    Write-Host $Items[$i]
                }
            }
            $key = [Console]::ReadKey($true)
            switch ($key.Key) {
                "UpArrow" { if ($selectedIndex -gt 0) { $selectedIndex-- } }
                "DownArrow" { if ($selectedIndex -lt ($Items.Count - 1)) { $selectedIndex++ } }
                "Enter" { Clear-Host; return $selectedIndex }
                "Escape" { Clear-Host; return -1 }
            }
        }
    } finally {
        [Console]::CursorVisible = $true
    }
}"#);
    assert(SHOW_MENU_FUNCTION@ == (r#"function Show-CXMenu {
    param([string[]]$Items, [string]$Title)
    if (-not $Items -or $Items.Count -eq 0) { return -1 }
    $selectedIndex = 0
    [Console]::CursorVisible = $false
    try {
        while ($true) {
            Clear-Host
            Write-Host $Title -ForegroundColor Cyan
            Write-Host ""
            for ($i = 0; $i -lt $Items.Count; $i++) {
                if ($i -eq $selectedIndex) {
                    Write-Host "> " -NoNewline -ForegroundColor Green
                    Write-Host $Items[$i] -ForegroundColor Green
                } else {
                    Write-Host "  " -NoNewline
                    Write-Host $Items[$i]
                }
            }
            $key = [Console]::ReadKey($true)
            switch ($key.Key) {
                "UpArrow" { if ($selectedIndex -gt 0) { $selectedIndex-- } }
                "DownArrow" { if ($selectedIndex -lt ($Items.Count - 1)) { $selectedIndex++ } }
                "Enter" { Clear-Host; return $selectedIndex }
                "Escape" { Clear-Host; return -1 }
            }
        }
    } finally {
        [Console]::CursorVisible = $true
    }
}"#)@);
    let s = SHOW_MENU_FUNCTION@;
    assert(forall|i: int| 0 <= i < s.len() - 1 && #[trigger] s[i] == '\n' ==> s[i + 1] != '#');
    let h = crate::profile::function_header("Show-CXMenu"@);
    assert(s.subrange(0, h.len() as int) =~= h);
}

proof fn lemma_project_folders_function_shape()
    ensures
        no_hash_line(PROJECT_FOLDERS_FUNCTION@),
        PROJECT_FOLDERS_FUNCTION@.len() > 0 && PROJECT_FOLDERS_FUNCTION@[0] == 'f',
        matches_at(PROJECT_FOLDERS_FUNCTION@, crate::profile::function_header("Get-CXManagerProjectFolders"@), 0),
{
    reveal_strlit("Get-CXManagerProjectFolders");
    reveal_strlit("function ");
    reveal_strlit(" ");
    reveal_strlit(r#"function Get-CXManagerProjectFolders {
    $roots = @($CX_MANAGER_PROJECT_ROOTS | Where-Object { $_ -and (Test-Path -LiteralPath $_) })
    foreach ($root in $roots) {
        Get-ChildItem -LiteralPath $root -Directory | Sort-Object Name | ForEach-Object {
            [PSCustomObject]@{
                Name = $_.Name
                FullName = $_.FullName
                DisplayName = "$($_.Name)  [$root]"
            }
        }
    }
}"#);
    assert(PROJECT_FOLDERS_FUNCTION@ == (r#"function Get-CXManagerProjectFolders {
    $roots = @($CX_MANAGER_PROJECT_ROOTS | Where-Object { $_ -and (Test-Path -LiteralPath $_) })
    foreach ($root in $roots) {
        Get-ChildItem -LiteralPath $root -Directory | Sort-Object Name | ForEach-Object {
            [PSCustomObject]@{
                Name = $_.Name
                FullName = $_.FullName
                DisplayName = "$($_.Name)  [$root]"
            }
        }
    }
}"#)@);
    let s = PROJECT_FOLDERS_FUNCTION@;
    assert(forall|i: int| 0 <= i < s.len() - 1 && #[trigger] s[i] == '\n' ==> s[i + 1] != '#');
    let h = crate::profile::function_header("Get-CXManagerProjectFolders"@);
    assert(s.subrange(0, h.len() as int) =~= h);
}

proof fn lemma_resolve_codex_function_shape()
    ensures
        no_hash_line(RESOLVE_CODEX_FUNCTION@),
        RESOLVE_CODEX_FUNCTION@.len() > 0 && RESOLVE_CODEX_FUNCTION@[0] == 'f',
        matches_at(RESOLVE_CODEX_FUNCTION@, crate::profile::function_header("Resolve-CXManagerCodexCommand"@), 0),
{
    reveal_strlit("Resolve-CXManagerCodexCommand");
    reveal_strlit("function ");
    reveal_strlit(" ");
    reveal_strlit(r#"function Resolve-CXManagerCodexCommand {
    foreach ($command in @("codex.cmd", "codex.exe", "codex.bat", "codex.com", "codex")) {
        try {
            $resolved = Get-Command $command -CommandType Application -ErrorAction Stop
            if ($resolved.Source) { return $resolved.Source }
        } catch {
        }
    }
    return "codex"
}"#);
    assert(RESOLVE_CODEX_FUNCTION@ == (r#"function Resolve-CXManagerCodexCommand {
    foreach ($command in @("codex.cmd", "codex.exe", "codex.bat", "codex.com", "codex")) {
        try {
            $resolved = Get-Command $command -CommandType Application -ErrorAction Stop
            if ($resolved.Source) { return $resolved.Source }
        } catch {
        }
    }
    return "codex"
}"#)@);
    let s = RESOLVE_CODEX_FUNCTION@;
    assert(forall|i: int| 0 <= i < s.len() - 1 && #[trigger] s[i] == '\n' ==> s[i + 1] != '#');
    let h = crate::profile::function_header("Resolve-CXManagerCodexCommand"@);
    assert(s.subrange(0, h.len() as int) =~= h);
}

proof fn lemma_invoke_codex_function_shape()
    ensures
        no_hash_line(INVOKE_CODEX_FUNCTION@),
        INVOKE_CODEX_FUNCTION@.len() > 0 && INVOKE_CODEX_FUNCTION@[0] == 'f',
        matches_at(INVOKE_CODEX_FUNCTION@, crate::profile::function_header("Invoke-CXManagerCodex"@), 0),
{
    reveal_strlit("Invoke-CXManagerCodex");
    reveal_strlit("function ");
    reveal_strlit(" ");
    reveal_strlit(r#"function Invoke-CXManagerCodex {
    $command = Resolve-CXManagerCodexCommand
    & $command @args
}"#);
    assert(INVOKE_CODEX_FUNCTION@ == (r#"function Invoke-CXManagerCodex {
    $command = Resolve-CXManagerCodexCommand
    & $command @args
}"#)@);
    let s = INVOKE_CODEX_FUNCTION@;
    assert(forall|i: int| 0 <= i < s.len() - 1 && #[trigger] s[i] == '\n' ==> s[i + 1] != '#');
    let h = crate::profile::function_header("Invoke-CXManagerCodex"@);
    assert(s.subrange(0, h.len() as int) =~= h);
}

proof fn lemma_cx_function_shape()
    ensures
        no_hash_line(CX_FUNCTION@),
        CX_FUNCTION@.len() > 0 && CX_FUNCTION@[0] == 'f',
        matches_at(CX_FUNCTION@, crate::profile::function_header("cx"@), 0),
{
    reveal_strlit("cx");
    reveal_strlit("function ");
    reveal_strlit(" ");
    reveal_strlit(r#"function cx {
    $folders = @(Get-CXManagerProjectFolders)
    if ($folders.Count -eq 0) {
        Write-Host "没有找到项目目录，请先在 CX-Manager 中添加项目根目录。" -ForegroundColor Yellow
        return
    }
    $selectedIndex = Show-CXMenu -Items @($folders | ForEach-Object DisplayName) -Title "选择项目目录"
    if ($selectedIndex -eq -1) {
        Write-Host "`n已取消选择" -ForegroundColor Yellow
        return
    }

    $selectedFolder = $folders[$selectedIndex]
    Set-Location $selectedFolder.FullName
    Write-Host "`n已切换到: $($selectedFolder.FullName)" -ForegroundColor Green

    $modeIndex = Show-CXMenu -Items @("codex 自动模式", "codex 正常模式") -Title "选择启动模式"
    if ($modeIndex -eq -1) {
        Write-Host "`n已取消启动" -ForegroundColor Yellow
        return
    }

    switch ($modeIndex) {
        0 { Invoke-CXManagerCodex -s danger-full-access -a never @args }
        1 { Invoke-CXManagerCodex @args }
    }
}"#);
    assert(CX_FUNCTION@ == (r#"function cx {
    $folders = @(Get-CXManagerProjectFolders)
    if ($folders.Count -eq 0) {
        Write-Host "没有找到项目目录，请先在 CX-Manager 中添加项目根目录。" -ForegroundColor Yellow
        return
    }
    $selectedIndex = Show-CXMenu -Items @($folders | ForEach-Object DisplayName) -Title "选择项目目录"
    if ($selectedIndex -eq -1) {
        Write-Host "`n已取消选择" -ForegroundColor Yellow
        return
    }

    $selectedFolder = $folders[$selectedIndex]
    Set-Location $selectedFolder.FullName
    Write-Host "`n已切换到: $($selectedFolder.FullName)" -ForegroundColor Green

    $modeIndex = Show-CXMenu -Items @("codex 自动模式", "codex 正常模式") -Title "选择启动模式"
    if ($modeIndex -eq -1) {
        Write-Host "`n已取消启动" -ForegroundColor Yellow
        return
    }

    switch ($modeIndex) {
        0 { Invoke-CXManagerCodex -s danger-full-access -a never @args }
        1 { Invoke-CXManagerCodex @args }
    }
}"#)@);
    let s = CX_FUNCTION@;
    assert(forall|i: int| 0 <= i < s.len() - 1 && #[trigger] s[i] == '\n' ==> s[i + 1] != '#');
    let h = crate::profile::function_header("cx"@);
    assert(s.subrange(0, h.len() as int) =~= h);
}


proof fn lemma_concat_no_hash_line(a: Seq<char>, b: Seq<char>)
    requires
        no_hash_line(a),
        no_hash_line(b),
        a.len() == 0 || a.last() != '\n' || !starts_with_hash(b),
    ensures
        no_hash_line(a + b),
{
    let s = a + b;
    assert forall|i: int| 0 <= i < s.len() - 1 && #[trigger] s[i] == '\n' implies s[i + 1] != '#' by {
        if i < a.len() - 1 {
            assert(s[i] == a[i] && s[i + 1] == a[i + 1]);
        } else if i == a.len() - 1 {
            assert(s[i] == a.last() && s[i + 1] == b[0]);
        } else {
            assert(s[i] == b[i - a.len()] && s[i + 1] == b[i + 1 - a.len()]);
        }
    }
}

proof fn lemma_single_line_no_hash(s: Seq<char>)
    requires
        single_line(s),
    ensures
        no_hash_line(s),
{
    assert forall|i: int| 0 <= i < s.len() - 1 && #[trigger] s[i] == '\n' implies s[i + 1] != '#' by {
        assert(s[i] != '\n');
    }
}

/// Parts none of which starts with `#` or has a line starting with `#`,
/// joined by line feeds, have no line starting with `#` either.
proof fn lemma_joined_no_hash_line(parts: Seq<Seq<char>>, sep: Seq<char>)
    requires
        sep.len() > 0,
        forall|k: int| 0 <= k < sep.len() ==> #[trigger] sep[k] == '\n',
        forall|i: int| 0 <= i < parts.len() ==> no_hash_line(#[trigger] parts[i]) && !starts_with_hash(parts[i]),
    ensures
        no_hash_line(joined(parts, sep)),
        !starts_with_hash(joined(parts, sep)),
    decreases parts.len(),
{
    if parts.len() == 1 {
        assert(no_hash_line(parts[0]) && !starts_with_hash(parts[0]));
    } else if parts.len() > 1 {
        let init = parts.drop_last();
        assert forall|i: int| 0 <= i < init.len() implies no_hash_line(#[trigger] init[i]) && !starts_with_hash(init[i]) by {
            assert(init[i] == parts[i]);
        }
        lemma_joined_no_hash_line(init, sep);
        let a = joined(init, sep);
        assert(no_hash_line(sep)) by {
            assert forall|i: int| 0 <= i < sep.len() - 1 && #[trigger] sep[i] == '\n' implies sep[i + 1] != '#' by {
                assert(sep[i + 1] == '\n');
            }
        }
        assert(sep[0] == '\n');
        lemma_concat_no_hash_line(a, sep);
        assert((a + sep).last() == sep[sep.len() - 1]);
        assert(no_hash_line(parts.last()) && !starts_with_hash(parts.last()));
        lemma_concat_no_hash_line(a + sep, parts.last());
        assert(joined(parts, sep) == a + sep + parts.last());
        if a.len() > 0 {
            assert(joined(parts, sep)[0] == a[0]);
        } else {
            assert(joined(parts, sep)[0] == sep[0]);
        }
    }
}

proof fn lemma_joined_prepend(a: Seq<char>, mid: Seq<Seq<char>>, sep: Seq<char>)
    requires
        mid.len() > 0,
    ensures
        joined(seq![a] + mid, sep) == a + sep + joined(mid, sep),
    decreases mid.len(),
{
    let parts = seq![a] + mid;
    if mid.len() == 1 {
        assert(parts.drop_last() =~= seq![a]);
        assert(parts.last() == mid[0]);
        assert(joined(seq![a], sep) == a);
        assert(joined(mid, sep) == mid[0]);
        assert(joined(parts, sep) == joined(parts.drop_last(), sep) + sep + parts.last());
    } else {
        assert(joined(mid, sep) == joined(mid.drop_last(), sep) + sep + mid.last());
        assert(joined(parts, sep) == joined(parts.drop_last(), sep) + sep + parts.last());
        assert(parts.drop_last() =~= seq![a] + mid.drop_last());
        lemma_joined_prepend(a, mid.drop_last(), sep);
        assert(parts.last() == mid.last());
        assert(a + sep + joined(mid.drop_last(), sep) + sep + mid.last() =~= a + sep + (joined(
            mid.drop_last(),
            sep,
        ) + sep + mid.last()));
    }
}

proof fn lemma_single_line_escaped(s: Seq<char>)
    requires
        single_line(s),
    ensures
        single_line(crate::profile::ps_escaped(s)),
    decreases s.len(),
{
    if s.len() > 0 {
        let init = s.drop_last();
        assert forall|i: int| 0 <= i < init.len() implies #[trigger] init[i] != '\n' by {
            assert(init[i] == s[i]);
        }
        lemma_single_line_escaped(init);
        assert(s.last() == s[s.len() - 1]);
        let e = crate::profile::ps_escaped(s);
        let h = crate::profile::ps_escaped(init);
        assert forall|i: int| 0 <= i < e.len() implies #[trigger] e[i] != '\n' by {
            if i < h.len() {
                assert(e[i] == h[i]);
            }
        }
    }
}

proof fn lemma_single_line_trim(s: Seq<char>)
    requires
        single_line(s),
    ensures
        single_line(trim(s)),
{
    lemma_trim_is_subrange(s);
    let (a, b) = trim_bounds(s);
    assert forall|i: int| 0 <= i < trim(s).len() implies #[trigger] trim(s)[i] != '\n' by {
        assert(trim(s)[i] == s[a + i]);
    }
}

proof fn lemma_normalize_roots_single_line(roots: Seq<Seq<char>>)
    requires
        forall|i: int| 0 <= i < roots.len() ==> single_line(#[trigger] roots[i]),
    ensures
        forall|i: int| 0 <= i < normalize_roots(roots).len() ==> single_line(#[trigger] normalize_roots(roots)[i]),
    decreases roots.len(),
{
    if roots.len() > 0 {
        let init = roots.drop_last();
        assert forall|i: int| 0 <= i < init.len() implies single_line(#[trigger] init[i]) by {
            assert(init[i] == roots[i]);
        }
        lemma_normalize_roots_single_line(init);
        assert(single_line(roots[roots.len() - 1]));
        lemma_single_line_trim(roots.last());
        let r = normalize_roots(init);
        let n = normalize_roots(roots);
        assert forall|i: int| 0 <= i < n.len() implies single_line(#[trigger] n[i]) by {
            if i < r.len() {
                assert(n[i] == r[i]);
            }
        }
    }
}

/// The proxy address and the project roots hold no line feed.
pub open spec fn settings_single_line(proxy_url: Seq<char>, roots: Seq<Seq<char>>) -> bool {
    &&& single_line(proxy_url)
    &&& forall|i: int| 0 <= i < roots.len() ==> single_line(#[trigger] roots[i])
}

proof fn lemma_section_shapes(proxy_url: Seq<char>, roots: Seq<Seq<char>>)
    requires
        settings_single_line(proxy_url, roots),
    ensures
        no_hash_line(proxy_block(proxy_url)) && !starts_with_hash(proxy_block(proxy_url)),
        no_hash_line(roots_block(roots)) && !starts_with_hash(roots_block(roots)),
{
    reveal_strlit("$CX_MANAGER_PROXY_URL = \"");
    reveal_strlit("\"");
    reveal_strlit("    \"");
    reveal_strlit("$CX_MANAGER_PROJECT_ROOTS = @(");
    reveal_strlit(")");
    lemma_single_line_trim(proxy_url);
    lemma_single_line_escaped(trim(proxy_url));
    let pb = proxy_block(proxy_url);
    let e = crate::profile::ps_escaped(trim(proxy_url));
    assert(single_line(pb)) by {
        assert forall|i: int| 0 <= i < pb.len() implies #[trigger] pb[i] != '\n' by {
            if i < 25 {
            } else if i < 25 + e.len() {
                assert(pb[i] == e[i - 25]);
            }
        }
    }
    lemma_single_line_no_hash(pb);
    lemma_normalize_roots_single_line(roots);
    let nr = normalize_roots(roots);
    let lines = seq!["$CX_MANAGER_PROJECT_ROOTS = @("@] + crate::profile::root_lines(nr) + seq![")"@];
    assert forall|i: int| 0 <= i < lines.len() implies no_hash_line(#[trigger] lines[i]) && !starts_with_hash(lines[i]) by {
        if i == 0 {
            lemma_single_line_no_hash("$CX_MANAGER_PROJECT_ROOTS = @("@);
        } else if i == lines.len() - 1 {
            lemma_single_line_no_hash(")"@);
        } else {
            let r = nr[i - 1];
            assert(lines[i] == root_line(r));
            assert(single_line(r));
            lemma_single_line_escaped(r);
            let er = crate::profile::ps_escaped(r);
            let l = root_line(r);
            assert forall|k: int| 0 <= k < l.len() implies #[trigger] l[k] != '\n' by {
                if 5 <= k < 5 + er.len() {
                    assert(l[k] == er[k - 5]);
                }
            }
            lemma_single_line_no_hash(l);
        }
    }
    reveal_strlit("\n");
    lemma_joined_no_hash_line(lines, "\n"@);
}

/// Every default helper definition is one of the helper sources.
pub open spec fn is_helper_source(s: Seq<char>) -> bool {
    ||| s == PROXY_FUNCTION@
    ||| s == UNPROXY_FUNCTION@
    ||| s == SHOW_MENU_FUNCTION@
    ||| s == PROJECT_FOLDERS_FUNCTION@
    ||| s == RESOLVE_CODEX_FUNCTION@
    ||| s == INVOKE_CODEX_FUNCTION@
    ||| s == CX_FUNCTION@
}

proof fn lemma_missing_sources_are_helpers(content: Seq<char>, names: Seq<Seq<char>>)
    ensures
        forall|i: int| 0 <= i < missing_sources_among(content, names).len() ==> is_helper_source(
            #[trigger] missing_sources_among(content, names)[i],
        ),
    decreases names.len(),
{
    if names.len() > 0 {
        lemma_missing_sources_are_helpers(content, names.drop_last());
        let h = missing_sources_among(content, names.drop_last());
        let all = missing_sources_among(content, names);
        assert forall|i: int| 0 <= i < all.len() implies is_helper_source(#[trigger] all[i]) by {
            if i < h.len() {
                assert(all[i] == h[i]);
            }
        }
    }
}

proof fn lemma_default_sources_are_helpers(names: Seq<Seq<char>>)
    ensures
        forall|i: int| 0 <= i < default_sources(names).len() ==> is_helper_source(
            #[trigger] default_sources(names)[i],
        ),
    decreases names.len(),
{
    if names.len() > 0 {
        lemma_default_sources_are_helpers(names.drop_last());
        let h = default_sources(names.drop_last());
        let all = default_sources(names);
        assert forall|i: int| 0 <= i < all.len() implies is_helper_source(#[trigger] all[i]) by {
            if i < h.len() {
                assert(all[i] == h[i]);
            }
        }
    }
}

proof fn lemma_helper_source_shape(s: Seq<char>)
    requires
        is_helper_source(s),
    ensures
        no_hash_line(s) && !starts_with_hash(s),
{
    lemma_proxy_function_shape();
    lemma_unproxy_function_shape();
    lemma_show_menu_function_shape();
    lemma_project_folders_function_shape();
    lemma_resolve_codex_function_shape();
    lemma_invoke_codex_function_shape();
    lemma_cx_function_shape();
}

/// The line feed that ends the last line of the block, then its end marker.
pub open spec fn end_line() -> Seq<char> {
    "\n"@ + MANAGED_BLOCK_END@
}

/// The text between the start marker's line and the end marker's line of a
/// block with the given helper definitions.
pub open spec fn body_of(proxy_url: Seq<char>, roots: Seq<Seq<char>>, sources: Seq<Seq<char>>) -> Seq<char> {
    "\n"@ + joined(
        seq![proxy_block(proxy_url), roots_block(roots), TOOL_PATHS_BLOCK@] + sources,
        "\n\n"@,
    ) + "\n"@
}

/// The text between the start marker's line and the end marker's line of
/// the managed block.
pub open spec fn block_body(proxy_url: Seq<char>, roots: Seq<Seq<char>>, user_content: Seq<char>) -> Seq<char> {
    body_of(proxy_url, roots, missing_sources_among(user_content, helper_names()))
}

/// Law: a block of CX-Manager's shape is its start marker, a line feed, a
/// body in which no line starts with `#` (so the end marker's line never
/// occurs in it), a line feed and its end marker, whenever the proxy address
/// and the roots are single lines and its definitions are helper
/// definitions.
pub proof fn lemma_block_shape(proxy_url: Seq<char>, roots: Seq<Seq<char>>, sources: Seq<Seq<char>>)
    requires
        settings_single_line(proxy_url, roots),
        forall|i: int| 0 <= i < sources.len() ==> is_helper_source(#[trigger] sources[i]),
    ensures
        block_of(proxy_url, roots, sources) == MANAGED_BLOCK_START@ + "\n"@ + body_of(proxy_url, roots, sources)
            + "\n"@ + MANAGED_BLOCK_END@,
        no_hash_line(body_of(proxy_url, roots, sources)),
        !contains(body_of(proxy_url, roots, sources), end_line()),
{
    reveal_strlit("\n\n");
    reveal_strlit("\n");
    reveal_strlit("# <<< CX-Manager managed profile");
    let mid = seq![proxy_block(proxy_url), roots_block(roots), TOOL_PATHS_BLOCK@] + sources;
    let parts = seq![
        MANAGED_BLOCK_START@,
        proxy_block(proxy_url),
        roots_block(roots),
        TOOL_PATHS_BLOCK@,
    ] + sources + seq![MANAGED_BLOCK_END@];
    assert(parts =~= seq![MANAGED_BLOCK_START@] + mid + seq![MANAGED_BLOCK_END@]);
    let sep = "\n\n"@;
    let pre = seq![MANAGED_BLOCK_START@] + mid;
    assert(parts.drop_last() =~= pre);
    lemma_joined_prepend(MANAGED_BLOCK_START@, mid, sep);
    let j = joined(mid, sep);
    assert(joined(parts, sep) == joined(pre, sep) + sep + MANAGED_BLOCK_END@);
    assert(MANAGED_BLOCK_START@ + sep + j + sep + MANAGED_BLOCK_END@ =~= MANAGED_BLOCK_START@ + "\n"@ + ("\n"@ + j
        + "\n"@) + "\n"@ + MANAGED_BLOCK_END@);
    // no line of the body starts with `#`
    lemma_section_shapes(proxy_url, roots);
    lemma_tool_paths_block_shape();
    assert forall|i: int| 0 <= i < mid.len() implies no_hash_line(#[trigger] mid[i]) && !starts_with_hash(mid[i]) by {
        if i >= 3 {
            assert(mid[i] == sources[i - 3]);
            lemma_helper_source_shape(sources[i - 3]);
        }
    }
    lemma_joined_no_hash_line(mid, sep);
    assert(no_hash_line("\n"@));
    lemma_concat_no_hash_line("\n"@, j);
    lemma_concat_no_hash_line("\n"@ + j, "\n"@);
    let body = "\n"@ + j + "\n"@;
    if contains(body, end_line()) {
        let i = choose|i: int| matches_at(body, end_line(), i);
        assert(body.subrange(i, i + end_line().len())[0] == '\n');
        assert(body.subrange(i, i + end_line().len())[1] == '#');
        assert(body[i] == '\n' && body[i + 1] == '#');
    }
}

/// Law: the managed block has that shape for any user content, whenever the
/// proxy address and the roots are single lines.
pub proof fn lemma_managed_block_shape(proxy_url: Seq<char>, roots: Seq<Seq<char>>, user_content: Seq<char>)
    requires
        settings_single_line(proxy_url, roots),
    ensures
        managed_block(proxy_url, roots, user_content) == MANAGED_BLOCK_START@ + "\n"@ + block_body(
            proxy_url,
            roots,
            user_content,
        ) + "\n"@ + MANAGED_BLOCK_END@,
        no_hash_line(block_body(proxy_url, roots, user_content)),
        !contains(block_body(proxy_url, roots, user_content), end_line()),
{
    lemma_missing_sources_are_helpers(user_content, helper_names());
    lemma_block_shape(proxy_url, roots, missing_sources_among(user_content, helper_names()));
}

/// Law: so does the block with every helper's default definition.
pub proof fn lemma_full_block_shape(proxy_url: Seq<char>, roots: Seq<Seq<char>>)
    requires
        settings_single_line(proxy_url, roots),
    ensures
        full_block(proxy_url, roots) == MANAGED_BLOCK_START@ + "\n"@ + body_of(
            proxy_url,
            roots,
            default_sources(helper_names()),
        ) + "\n"@ + MANAGED_BLOCK_END@,
        no_hash_line(body_of(proxy_url, roots, default_sources(helper_names()))),
        !contains(body_of(proxy_url, roots, default_sources(helper_names())), end_line()),
{
    lemma_default_sources_are_helpers(helper_names());
    lemma_block_shape(proxy_url, roots, default_sources(helper_names()));
}

/// Line feeds put before a text add no occurrence of a needle that does not
/// start with a line feed.
pub proof fn lemma_line_feeds_before(feeds: Seq<char>, u: Seq<char>, needle: Seq<char>)
    requires
        forall|k: int| 0 <= k < feeds.len() ==> #[trigger] feeds[k] == '\n',
        needle.len() > 0,
        needle[0] != '\n',
        !contains(u, needle),
    ensures
        !contains(feeds + u, needle),
{
    let s = feeds + u;
    if contains(s, needle) {
        let i = choose|i: int| matches_at(s, needle, i);
        assert(s.subrange(i, i + needle.len())[0] == needle[0]);
        assert(s[i] == needle[0]);
        assert(i >= feeds.len());
        assert(u.subrange(i - feeds.len(), i - feeds.len() + needle.len()) =~= s.subrange(i, i + needle.len()));
        assert(matches_at(u, needle, i - feeds.len()));
    }
}

/// A text is its leading carriage returns and line feeds followed by the
/// rest; removing them again changes nothing, and line breaks put before the
/// rest are removed with them.
pub proof fn lemma_leading_breaks(u: Seq<char>, lead: Seq<char>)
    requires
        crate::profile::line_breaks_only(lead),
    ensures
        crate::profile::line_breaks_only(u.take(u.len() - trim_start_either(u, '\r', '\n').len())),
        u == u.take(u.len() - trim_start_either(u, '\r', '\n').len()) + trim_start_either(u, '\r', '\n'),
        trim_start_either(lead + trim_start_either(u, '\r', '\n'), '\r', '\n') == trim_start_either(
            u,
            '\r',
            '\n',
        ),
        trim_start_either(u, '\r', '\n').len() <= u.len(),
    decreases u.len() + lead.len(),
{
    let t = trim_start_either(u, '\r', '\n');
    if u.len() > 0 && (u[0] == '\r' || u[0] == '\n') {
        lemma_leading_breaks(u.drop_first(), lead);
        let w = u.drop_first().take(u.drop_first().len() - t.len());
        assert(u.take(u.len() - t.len()) =~= seq![u[0]] + w);
        assert(u =~= seq![u[0]] + (w + t));
    } else {
        assert(u.take(u.len() - t.len()) =~= Seq::<char>::empty());
        assert(u =~= Seq::<char>::empty() + u);
        if lead.len() > 0 {
            let l2 = lead.drop_first();
            assert(crate::profile::line_breaks_only(l2)) by {
                assert forall|k: int| 0 <= k < l2.len() implies #[trigger] l2[k] == '\r' || l2[k] == '\n' by {
                    assert(l2[k] == lead[k + 1]);
                }
            }
            lemma_leading_breaks(u, l2);
            assert((lead + t)[0] == lead[0]);
            assert(lead[0] == '\r' || lead[0] == '\n');
            assert((lead + t).drop_first() =~= l2 + t);
        } else {
            assert(lead + t =~= t);
        }
    }
}

/// A text whose rest after its leading line breaks is blank is blank.
pub proof fn lemma_blank_after_breaks(u: Seq<char>)
    requires
        trim(trim_start_either(u, '\r', '\n')).len() == 0,
    ensures
        is_blank(u),
{
    let t = trim_start_either(u, '\r', '\n');
    lemma_leading_breaks(u, Seq::<char>::empty());
    let w = u.take(u.len() - t.len());
    lemma_blank_all_white(t);
    assert forall|i: int| 0 <= i < u.len() implies is_white_space(#[trigger] u[i]) by {
        if i < w.len() {
            assert(u[i] == w[i]);
            assert(w[i] == '\r' || w[i] == '\n');
        } else {
            assert(u[i] == t[i - w.len()]);
        }
    }
    lemma_blank_all_white(u);
}

/// A needle found in a suffix is found in the whole text.
pub proof fn lemma_contains_suffix(u: Seq<char>, k: int, needle: Seq<char>)
    requires
        0 <= k <= u.len(),
        contains(u.skip(k), needle),
    ensures
        contains(u, needle),
{
    let i = choose|i: int| matches_at(u.skip(k), needle, i);
    assert(u.subrange(i + k, i + k + needle.len()) =~= u.skip(k).subrange(i, i + needle.len()));
    assert(matches_at(u, needle, i + k));
}

/// The default definition of each helper starts with `function <name> `.
pub proof fn lemma_helper_source_header(name: Seq<char>)
    requires
        helper_names().contains(name),
    ensures
        function_source(name) is Some,
        is_helper_source(function_source(name)->0),
        matches_at(function_source(name)->0, crate::profile::function_header(name), 0),
{
    reveal_strlit("proxy");
    reveal_strlit("unproxy");
    reveal_strlit("Show-CXMenu");
    reveal_strlit("Get-CXManagerProjectFolders");
    reveal_strlit("Resolve-CXManagerCodexCommand");
    reveal_strlit("Invoke-CXManagerCodex");
    reveal_strlit("cx");
    let k = choose|k: int| 0 <= k < helper_names().len() && helper_names()[k] == name;
    lemma_proxy_function_shape();
    lemma_unproxy_function_shape();
    lemma_show_menu_function_shape();
    lemma_project_folders_function_shape();
    lemma_resolve_codex_function_shape();
    lemma_invoke_codex_function_shape();
    lemma_cx_function_shape();
}

/// Joining the first `m` parts gives the start of joining them all.
proof fn lemma_joined_prefix(parts: Seq<Seq<char>>, sep: Seq<char>, m: int)
    requires
        1 <= m <= parts.len(),
    ensures
        joined(parts.take(m), sep).len() <= joined(parts, sep).len(),
        joined(parts, sep).take(joined(parts.take(m), sep).len() as int) == joined(parts.take(m), sep),
    decreases parts.len(),
{
    if m == parts.len() {
        assert(parts.take(m) =~= parts);
        assert(joined(parts, sep).take(joined(parts, sep).len() as int) =~= joined(parts, sep));
    } else {
        let init = parts.drop_last();
        assert(init.take(m) =~= parts.take(m));
        lemma_joined_prefix(init, sep, m);
        assert(parts.len() >= 2);
        assert(joined(parts, sep) == joined(init, sep) + sep + parts.last());
        let a = joined(init, sep);
        let q = joined(parts.take(m), sep);
        assert(joined(parts, sep).take(q.len() as int) =~= a.take(q.len() as int));
    }
}

/// Where part `j` starts in the joined text.
pub open spec fn part_start(parts: Seq<Seq<char>>, sep: Seq<char>, j: int) -> int {
    (joined(parts.take(j), sep).len() + sep.len()) as int
}

/// Every part but the first follows a separator in the joined text.
proof fn lemma_joined_part(parts: Seq<Seq<char>>, sep: Seq<char>, j: int)
    requires
        1 <= j < parts.len(),
        sep.len() > 0,
    ensures
        part_start(parts, sep, j) + parts[j].len() <= joined(parts, sep).len(),
        joined(parts, sep)[part_start(parts, sep, j) - 1] == sep.last(),
        joined(parts, sep).subrange(part_start(parts, sep, j), part_start(parts, sep, j) + parts[j].len())
            == parts[j],
{
    lemma_joined_prefix(parts, sep, j + 1);
    let q = parts.take(j + 1);
    assert(q.drop_last() =~= parts.take(j));
    assert(q.last() == parts[j]);
    assert(joined(q, sep) == joined(parts.take(j), sep) + sep + parts[j]);
    let a = joined(parts.take(j), sep);
    let whole = joined(parts, sep);
    let pos = part_start(parts, sep, j);
    assert(whole[pos - 1] == joined(q, sep)[pos - 1]);
    assert(whole.subrange(pos, pos + parts[j].len()) =~= joined(q, sep).subrange(pos, pos + parts[j].len()));
}

/// A profile built with a single-line proxy address and roots: around user
/// text that is not blank, or, for blank user text, the block with every
/// helper's default definition and a line feed.
pub open spec fn is_built_profile(content: Seq<char>) -> bool {
    ||| exists|proxy_url: Seq<char>, roots: Seq<Seq<char>>, user: Seq<char>|
        #[trigger] crate::profile::profile_from_user(proxy_url, roots, user) == content
            && settings_single_line(proxy_url, roots) && trim(trim_start_either(user, '\r', '\n')).len() > 0
    ||| exists|proxy_url: Seq<char>, roots: Seq<Seq<char>>|
        #[trigger] full_block(proxy_url, roots) + "\n"@ == content && settings_single_line(proxy_url, roots)
}

/// Where the user's text starts in a built profile.
pub open spec fn user_text_start(proxy_url: Seq<char>, roots: Seq<Seq<char>>, user: Seq<char>) -> int {
    managed_block(proxy_url, roots, user).len() + 2int
}

/// What a built profile holds: the proxy assignment at a line start, the
/// roots assignment and a later `)`, the definition of each helper the
/// user's text does not define at a line start, and the user's text from a
/// line start on.
pub proof fn lemma_built_profile_parts(proxy_url: Seq<char>, roots: Seq<Seq<char>>, user: Seq<char>)
    requires
        settings_single_line(proxy_url, roots),
        trim(trim_start_either(user, '\r', '\n')).len() > 0,
    ensures
        ({
            let content = crate::profile::profile_from_user(proxy_url, roots, user);
            let t = trim_start_either(user, '\r', '\n');
            let k = user_text_start(proxy_url, roots, user);
            &&& exists|i: int|
                crate::profile::line_start(content, i) && matches_at(content, crate::profile::proxy_assignment(), i)
            &&& exists|i: int, j: int|
                matches_at(content, crate::profile::roots_assignment(), i) && i
                    + crate::profile::roots_assignment().len() <= j < content.len() && content[j] == ')'
            &&& forall|n: Seq<char>|
                #![trigger crate::profile::function_header(n)]
                helper_names().contains(n) && !crate::profile::has_function(user, n) ==> exists|i: int|
                    crate::profile::line_start(content, i) && matches_at(content, crate::profile::function_header(n), i)
            &&& 0 < k <= content.len()
            &&& crate::profile::line_start(content, k)
            &&& content.skip(k) == t
            &&& crate::profile::line_breaks_only(user.take(user.len() - t.len()))
            &&& user.take(user.len() - t.len()) + t == user
        }),
{
    reveal_strlit("\n\n");
    reveal_strlit("\n");
    reveal_strlit("$CX_MANAGER_PROXY_URL = \"");
    reveal_strlit("$CX_MANAGER_PROXY_URL");
    reveal_strlit(" =");
    reveal_strlit("$CX_MANAGER_PROJECT_ROOTS = @(");
    reveal_strlit("$CX_MANAGER_PROJECT_ROOTS");
    reveal_strlit(" = @(");
    reveal_strlit(")");
    let content = crate::profile::profile_from_user(proxy_url, roots, user);
    let t = trim_start_either(user, '\r', '\n');
    let block = managed_block(proxy_url, roots, user);
    let sep = "\n\n"@;
    let sources = missing_sources_among(user, helper_names());
    let parts = seq![
        MANAGED_BLOCK_START@,
        proxy_block(proxy_url),
        roots_block(roots),
        TOOL_PATHS_BLOCK@,
    ] + sources + seq![MANAGED_BLOCK_END@];
    assert(block == joined(parts, sep));
    assert(content == block + sep + t);
    // the proxy assignment
    lemma_joined_part(parts, sep, 1);
    let p1 = part_start(parts, sep, 1);
    let pb = proxy_block(proxy_url);
    assert(parts[1] == pb);
    assert(content.subrange(p1, p1 + pb.len()) =~= block.subrange(p1, p1 + pb.len()));
    assert(content.subrange(p1, p1 + 23) =~= crate::profile::proxy_assignment());
    assert(content[p1 - 1] == block[p1 - 1]);
    assert(crate::profile::line_start(content, p1) && matches_at(content, crate::profile::proxy_assignment(), p1));
    // the roots assignment
    lemma_joined_part(parts, sep, 2);
    let p2 = part_start(parts, sep, 2);
    let rb = roots_block(roots);
    assert(parts[2] == rb);
    let lines = seq!["$CX_MANAGER_PROJECT_ROOTS = @("@] + crate::profile::root_lines(normalize_roots(roots))
        + seq![")"@];
    assert(rb == joined(lines, "\n"@));
    lemma_joined_prefix(lines, "\n"@, 1);
    assert(lines.take(1) =~= seq![lines[0]]);
    let init = lines.drop_last();
    lemma_joined_prefix(init, "\n"@, 1);
    assert(init.take(1) =~= seq![lines[0]]);
    assert(rb == joined(init, "\n"@) + "\n"@ + ")"@);
    let ra = crate::profile::roots_assignment();
    assert(ra =~= lines[0]);
    assert(rb.take(30) =~= ra);
    let kk = p2 + rb.len() - 1;
    assert(content.subrange(p2, p2 + rb.len()) =~= block.subrange(p2, p2 + rb.len()));
    assert(content.subrange(p2, p2 + 30) =~= ra);
    assert(content[kk] == rb[rb.len() - 1]);
    assert(matches_at(content, ra, p2) && p2 + ra.len() <= kk < content.len() && content[kk] == ')');
    // the helpers
    crate::profile::lemma_user_helpers_are_not_replaced(user);
    assert forall|n: Seq<char>|
        #![trigger crate::profile::function_header(n)]
        helper_names().contains(n) && !crate::profile::has_function(user, n) implies exists|i: int|
            crate::profile::line_start(content, i) && matches_at(content, crate::profile::function_header(n), i) by {
        let idx = choose|idx: int| 0 <= idx < helper_names().len() && helper_names()[idx] == n;
        assert(crate::profile::missing_helpers(user).contains(helper_names()[idx]));
        let mh = crate::profile::missing_helpers(user);
        let m = choose|m: int| 0 <= m < mh.len() && mh[m] == n;
        assert(sources[m] == function_source(n)->0);
        lemma_helper_source_header(n);
        let src = function_source(n)->0;
        assert(parts[4 + m] == src);
        lemma_joined_part(parts, sep, 4 + m);
        let ps = part_start(parts, sep, 4 + m);
        let h = crate::profile::function_header(n);
        assert(src.subrange(0, h.len() as int) == h);
        assert(content.subrange(ps, ps + src.len()) =~= block.subrange(ps, ps + src.len()));
        assert(content.subrange(ps, ps + h.len()) =~= h);
        assert(content[ps - 1] == block[ps - 1]);
        assert(crate::profile::line_start(content, ps) && matches_at(content, h, ps));
    }
    // the user's text
    let k = user_text_start(proxy_url, roots, user);
    assert(content.skip(k) =~= t);
    assert(content[k - 1] == '\n');
    lemma_leading_breaks(user, Seq::<char>::empty());
}

/// When every name has a default definition, those definitions come one per
/// name, in order.
proof fn lemma_default_sources_index(names: Seq<Seq<char>>)
    requires
        forall|i: int| 0 <= i < names.len() ==> (#[trigger] function_source(names[i])) is Some,
    ensures
        default_sources(names).len() == names.len(),
        forall|i: int|
            0 <= i < names.len() ==> #[trigger] default_sources(names)[i] == function_source(names[i])->0,
    decreases names.len(),
{
    if names.len() > 0 {
        let init = names.drop_last();
        assert forall|i: int| 0 <= i < init.len() implies (#[trigger] function_source(init[i])) is Some by {
            assert(init[i] == names[i]);
        }
        lemma_default_sources_index(init);
        assert(function_source(names[names.len() - 1]) is Some);
        assert forall|i: int| 0 <= i < names.len() implies #[trigger] default_sources(names)[i]
            == function_source(names[i])->0 by {
            if i < init.len() {
                assert(init[i] == names[i]);
            }
        }
    }
}

/// What the profile built for blank user text holds: the proxy assignment
/// at a line start, the roots assignment and a later `)`, and the definition
/// of every helper at a line start.
pub proof fn lemma_full_profile_parts(proxy_url: Seq<char>, roots: Seq<Seq<char>>)
    requires
        settings_single_line(proxy_url, roots),
    ensures
        ({
            let content = full_block(proxy_url, roots) + "\n"@;
            &&& exists|i: int|
                crate::profile::line_start(content, i) && matches_at(content, crate::profile::proxy_assignment(), i)
            &&& exists|i: int, j: int|
                matches_at(content, crate::profile::roots_assignment(), i) && i
                    + crate::profile::roots_assignment().len() <= j < content.len() && content[j] == ')'
            &&& forall|n: Seq<char>|
                #![trigger crate::profile::function_header(n)]
                helper_names().contains(n) ==> exists|i: int|
                    crate::profile::line_start(content, i) && matches_at(content, crate::profile::function_header(n), i)
        }),
{
    reveal_strlit("\n\n");
    reveal_strlit("\n");
    reveal_strlit("$CX_MANAGER_PROXY_URL = \"");
    reveal_strlit("$CX_MANAGER_PROXY_URL");
    reveal_strlit(" =");
    reveal_strlit("$CX_MANAGER_PROJECT_ROOTS = @(");
    reveal_strlit("$CX_MANAGER_PROJECT_ROOTS");
    reveal_strlit(" = @(");
    reveal_strlit(")");
    let block = full_block(proxy_url, roots);
    let content = block + "\n"@;
    let sep = "\n\n"@;
    let sources = default_sources(helper_names());
    let parts = seq![
        MANAGED_BLOCK_START@,
        proxy_block(proxy_url),
        roots_block(roots),
        TOOL_PATHS_BLOCK@,
    ] + sources + seq![MANAGED_BLOCK_END@];
    assert(block == joined(parts, sep));
    // the proxy assignment
    lemma_joined_part(parts, sep, 1);
    let p1 = part_start(parts, sep, 1);
    let pb = proxy_block(proxy_url);
    assert(parts[1] == pb);
    assert(content.subrange(p1, p1 + pb.len()) =~= block.subrange(p1, p1 + pb.len()));
    assert(content.subrange(p1, p1 + 23) =~= crate::profile::proxy_assignment());
    assert(content[p1 - 1] == block[p1 - 1]);
    assert(crate::profile::line_start(content, p1) && matches_at(content, crate::profile::proxy_assignment(), p1));
    // the roots assignment
    lemma_joined_part(parts, sep, 2);
    let p2 = part_start(parts, sep, 2);
    let rb = roots_block(roots);
    assert(parts[2] == rb);
    let lines = seq!["$CX_MANAGER_PROJECT_ROOTS = @("@] + crate::profile::root_lines(normalize_roots(roots))
        + seq![")"@];
    assert(rb == joined(lines, "\n"@));
    lemma_joined_prefix(lines, "\n"@, 1);
    assert(lines.take(1) =~= seq![lines[0]]);
    let init = lines.drop_last();
    lemma_joined_prefix(init, "\n"@, 1);
    assert(init.take(1) =~= seq![lines[0]]);
    assert(rb == joined(init, "\n"@) + "\n"@ + ")"@);
    let ra = crate::profile::roots_assignment();
    assert(ra =~= lines[0]);
    assert(rb.take(30) =~= ra);
    let kk = p2 + rb.len() - 1;
    assert(content.subrange(p2, p2 + rb.len()) =~= block.subrange(p2, p2 + rb.len()));
    assert(content.subrange(p2, p2 + 30) =~= ra);
    assert(content[kk] == rb[rb.len() - 1]);
    assert(matches_at(content, ra, p2) && p2 + ra.len() <= kk < content.len() && content[kk] == ')');
    // the helpers
    assert forall|i: int| 0 <= i < helper_names().len() implies (#[trigger] function_source(helper_names()[i])) is Some by {
        assert(helper_names().contains(helper_names()[i]));
        lemma_helper_source_header(helper_names()[i]);
    }
    lemma_default_sources_index(helper_names());
    assert forall|n: Seq<char>|
        #![trigger crate::profile::function_header(n)]
        helper_names().contains(n) implies exists|i: int|
            crate::profile::line_start(content, i) && matches_at(content, crate::profile::function_header(n), i) by {
        let m = choose|m: int| 0 <= m < helper_names().len() && helper_names()[m] == n;
        assert(sources[m] == function_source(n)->0);
        lemma_helper_source_header(n);
        let src = function_source(n)->0;
        assert(parts[4 + m] == src);
        lemma_joined_part(parts, sep, 4 + m);
        let ps = part_start(parts, sep, 4 + m);
        let h = crate::profile::function_header(n);
        assert(src.subrange(0, h.len() as int) == h);
        assert(content.subrange(ps, ps + src.len()) =~= block.subrange(ps, ps + src.len()));
        assert(content.subrange(ps, ps + h.len()) =~= h);
        assert(content[ps - 1] == block[ps - 1]);
        assert(crate::profile::line_start(content, ps) && matches_at(content, h, ps));
    }
}

} // verus!
