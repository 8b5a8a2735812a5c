//! User settings and the normalisation of project roots.

use vstd::prelude::*;
use crate::text::{
    eq_ignore_ascii_case, eq_ignore_case, is_white_space, lemma_trim_bounds, lemma_trim_idempotent,
    lemma_trim_is_subrange, trim, trim_bounds, trim_str,
};

verus! {

broadcast use vstd::string::group_string_axioms;

/// The proxy address used when none is configured.
pub const DEFAULT_PROXY_URL: &'static str = "http://10.20.34.92:7890";

/// The PowerShell whose profile is managed.
#[derive(Debug, Clone, Copy, PartialEq, Eq, Structural)]
pub enum TargetShell {
    Auto,
    Pwsh,
    Powershell,
}

/// What the user configures.
#[derive(Debug, Clone, PartialEq, Eq)]
pub struct AppSettings {
    pub target_shell: TargetShell,
    pub proxy_url: String,
    pub use_proxy_for_tools: bool,
    pub project_roots: Vec<String>,
}

impl Default for AppSettings {
    fn default() -> (r: Self)
        ensures
            r.target_shell == TargetShell::Auto,
            r.proxy_url@ == DEFAULT_PROXY_URL@,
            r.use_proxy_for_tools,
            r.project_roots@.len() == 0,
    {
        AppSettings {
            target_shell: TargetShell::Auto,
            proxy_url: DEFAULT_PROXY_URL.to_string(),
            use_proxy_for_tools: true,
            project_roots: Vec::new(),
        }
    }
}

/// Some root of `roots` equals `t` up to ASCII case.
pub open spec fn root_present(roots: Seq<Seq<char>>, t: Seq<char>) -> bool {
    exists|i: int| 0 <= i < roots.len() && eq_ignore_ascii_case(#[trigger] roots[i], t)
}

/// Project roots trimmed, blank ones dropped, and later duplicates (ignoring
/// ASCII case) dropped, first occurrences kept in order.
pub open spec fn normalize_roots(s: Seq<Seq<char>>) -> Seq<Seq<char>>
    decreases s.len(),
{
    if s.len() == 0 {
        seq![]
    } else {
        let r = normalize_roots(s.drop_last());
        let t = trim(s.last());
        if t.len() == 0 || root_present(r, t) {
            r
        } else {
            r.push(t)
        }
    }
}

/// Trimmed, not empty, and no two equal up to ASCII case.
pub open spec fn roots_are_normal(r: Seq<Seq<char>>) -> bool {
    &&& forall|i: int| 0 <= i < r.len() ==> trim(#[trigger] r[i]) == r[i] && r[i].len() > 0
    &&& forall|i: int, j: int|
        0 <= i < j < r.len() ==> !eq_ignore_ascii_case(#[trigger] r[i], #[trigger] r[j])
}

/// Trims the roots, drops blank ones and drops later duplicates that differ
/// only in ASCII case.
pub fn normalized_project_roots(existing_roots: &[String]) -> (roots: Vec<String>)
    ensures
        roots.deep_view() == normalize_roots(existing_roots.deep_view()),
{
    let ghost input = existing_roots.deep_view();
    let mut roots: Vec<String> = Vec::new();
    let mut i: usize = 0;
    while i < existing_roots.len()
        invariant
            i <= existing_roots@.len(),
            input == existing_roots.deep_view(),
            roots.deep_view() == normalize_roots(input.take(i as int)),
        decreases existing_roots@.len() - i,
    {
        let ghost prev = input.take(i as int);
        let t = trim_str(existing_roots[i].as_str());
        assert(input.take(i + 1).drop_last() =~= prev);
        assert(input.take(i + 1).last() == existing_roots@[i as int]@);
        if !t.is_empty() {
            let mut found = false;
            let mut j: usize = 0;
            while j < roots.len()
                invariant
                    j <= roots@.len(),
                    found == exists|k: int|
                        0 <= k < j && eq_ignore_ascii_case(#[trigger] roots.deep_view()[k], t@),
                decreases roots@.len() - j,
            {
                let e = eq_ignore_case(roots[j].as_str(), t);
                proof {
                    if e {
                        assert(eq_ignore_ascii_case(roots.deep_view()[j as int], t@));
                    }
                    if found {
                        let k = choose|k: int|
                            0 <= k < j && eq_ignore_ascii_case(
                                #[trigger] roots.deep_view()[k],
                                t@,
                            );
                        assert(0 <= k < j + 1);
                    }
                }
                found = found || e;
                j = j + 1;
            }
            if !found {
                let owned = t.to_string();
                let ghost before = roots.deep_view();
                roots.push(owned);
                assert(roots.deep_view() =~= before.push(t@));
            }
        }
        i = i + 1;
    }
    assert(input.take(i as int) =~= input);
    roots
}

/// The normalised roots are trimmed, not blank, and pairwise different up to
/// ASCII case.
pub proof fn lemma_normalized_roots_are_normal(s: Seq<Seq<char>>)
    ensures
        roots_are_normal(normalize_roots(s)),
    decreases s.len(),
{
    if s.len() > 0 {
        lemma_normalized_roots_are_normal(s.drop_last());
        let r = normalize_roots(s.drop_last());
        let t = trim(s.last());
        lemma_trim_idempotent(s.last());
        if !(t.len() == 0 || root_present(r, t)) {
            let n = r.push(t);
            assert forall|i: int, j: int|
                0 <= i < j < n.len() implies !eq_ignore_ascii_case(#[trigger] n[i], #[trigger] n[j]) by {
                if j == r.len() {
                    assert(!eq_ignore_ascii_case(r[i], t));
                }
            }
        }
    }
}

/// Normalising roots that are already normal changes nothing.
pub proof fn lemma_normal_roots_unchanged(r: Seq<Seq<char>>)
    requires
        roots_are_normal(r),
    ensures
        normalize_roots(r) == r,
    decreases r.len(),
{
    if r.len() > 0 {
        let p = r.drop_last();
        assert(roots_are_normal(p)) by {
            assert forall|i: int, j: int|
                0 <= i < j < p.len() implies !eq_ignore_ascii_case(#[trigger] p[i], #[trigger] p[j]) by {
                assert(p[i] == r[i] && p[j] == r[j]);
            }
        }
        lemma_normal_roots_unchanged(p);
        let t = trim(r.last());
        assert(t == r.last());
        assert(!root_present(p, t)) by {
            if root_present(p, t) {
                let i = choose|i: int| 0 <= i < p.len() && eq_ignore_ascii_case(#[trigger] p[i], t);
                assert(r[i] == p[i]);
                assert(!eq_ignore_ascii_case(r[i], r[r.len() - 1]));
            }
        }
        assert(p.push(t) =~= r);
    }
}

/// Law: normalising project roots is idempotent.
pub proof fn lemma_normalize_roots_idempotent(s: Seq<Seq<char>>)
    ensures
        normalize_roots(normalize_roots(s)) == normalize_roots(s),
{
    lemma_normalized_roots_are_normal(s);
    lemma_normal_roots_unchanged(normalize_roots(s));
}

/// Law: every root that is not blank is kept, up to ASCII case and the
/// surrounding white space, and every kept root comes from the input.
pub proof fn lemma_normalize_roots_keeps_roots(s: Seq<Seq<char>>)
    ensures
        forall|i: int|
            0 <= i < s.len() && trim(#[trigger] s[i]).len() > 0 ==> root_present(
                normalize_roots(s),
                trim(s[i]),
            ),
        forall|k: int|
            0 <= k < normalize_roots(s).len() ==> exists|i: int|
                0 <= i < s.len() && #[trigger] normalize_roots(s)[k] == trim(s[i]),
    decreases s.len(),
{
    if s.len() > 0 {
        let p = s.drop_last();
        lemma_normalize_roots_keeps_roots(p);
        let r = normalize_roots(p);
        let t = trim(s.last());
        let n = normalize_roots(s);
        assert forall|i: int|
            0 <= i < s.len() && trim(#[trigger] s[i]).len() > 0 implies root_present(n, trim(s[i])) by {
            if i < s.len() - 1 {
                assert(s[i] == p[i]);
                let k = choose|k: int| 0 <= k < r.len() && eq_ignore_ascii_case(#[trigger] r[k], trim(p[i]));
                assert(n[k] == r[k]);
            } else if !root_present(r, t) {
                assert(n[r.len() as int] == t);
                assert(eq_ignore_ascii_case(n[r.len() as int], t));
            } else {
                let k = choose|k: int| 0 <= k < r.len() && eq_ignore_ascii_case(#[trigger] r[k], t);
                assert(n[k] == r[k]);
            }
        }
        assert forall|k: int| 0 <= k < n.len() implies exists|i: int|
            0 <= i < s.len() && #[trigger] n[k] == trim(s[i]) by {
            if k < r.len() {
                let i = choose|i: int| 0 <= i < p.len() && #[trigger] r[k] == trim(p[i]);
                assert(s[i] == p[i]);
            } else {
                assert(n[k] == trim(s[s.len() - 1]));
            }
        }
    }
}

/// The configured proxy address: trimmed, or the default when blank.
pub open spec fn normalize_proxy(p: Seq<char>) -> Seq<char> {
    if trim(p).len() == 0 {
        DEFAULT_PROXY_URL@
    } else {
        trim(p)
    }
}

/// The default proxy address has no surrounding white space.
proof fn lemma_default_proxy_is_trimmed()
    ensures
        trim(DEFAULT_PROXY_URL@) == DEFAULT_PROXY_URL@,
        DEFAULT_PROXY_URL@.len() > 0,
{
    reveal_strlit("http://10.20.34.92:7890");
    let s = DEFAULT_PROXY_URL@;
    assert(!is_white_space(s[0]));
    assert(!is_white_space(s[s.len() - 1]));
    lemma_trim_bounds(s, 0, s.len() as int);
    assert(s.subrange(0, s.len() as int) =~= s);
}

/// Law: normalised settings are stable: normalising them again changes
/// neither the proxy address nor the project roots, and the proxy address is
/// never blank. Settings stored normalised are read back unchanged.
pub proof fn lemma_normalized_settings_are_stable(proxy_url: Seq<char>, roots: Seq<Seq<char>>)
    ensures
        normalize_proxy(normalize_proxy(proxy_url)) == normalize_proxy(proxy_url),
        trim(normalize_proxy(proxy_url)).len() > 0,
        normalize_roots(normalize_roots(roots)) == normalize_roots(roots),
{
    lemma_trim_idempotent(proxy_url);
    lemma_default_proxy_is_trimmed();
    lemma_normalize_roots_idempotent(roots);
}

/// Law: a proxy address that is not blank is kept as the user wrote it,
/// only the white space around it removed: the address is that white space,
/// the result and more white space, and the result neither starts nor ends
/// with white space. A blank address gives the default one.
pub proof fn lemma_proxy_address_kept(p: Seq<char>)
    ensures
        trim(p).len() > 0 ==> normalize_proxy(p) == trim(p),
        trim(p).len() > 0 ==> exists|a: int, b: int|
            0 <= a <= b <= p.len() && #[trigger] p.subrange(a, b) == normalize_proxy(p) && (forall|i: int|
                0 <= i < a ==> is_white_space(#[trigger] p[i])) && (forall|i: int|
                b <= i < p.len() ==> is_white_space(#[trigger] p[i])) && !is_white_space(p[a])
                && !is_white_space(p[b - 1]),
        trim(p).len() == 0 ==> normalize_proxy(p) == DEFAULT_PROXY_URL@,
{
    lemma_trim_is_subrange(p);
    let (a, b) = trim_bounds(p);
    if trim(p).len() > 0 {
        assert(p.subrange(a, b) == normalize_proxy(p));
    }
}

/// Settings as they are stored and used: the proxy address normalised by
/// [`normalize_proxy`] and the project roots by [`normalize_roots`]; the other
/// fields unchanged.
pub fn normalized_settings(settings: AppSettings) -> (r: AppSettings)
    ensures
        r.target_shell == settings.target_shell,
        r.use_proxy_for_tools == settings.use_proxy_for_tools,
        r.proxy_url@ == normalize_proxy(settings.proxy_url@),
        r.project_roots.deep_view() == normalize_roots(settings.project_roots.deep_view()),
{
    let trimmed = trim_str(settings.proxy_url.as_str());
    let proxy_url = if trimmed.is_empty() {
        DEFAULT_PROXY_URL.to_string()
    } else {
        trimmed.to_string()
    };
    let project_roots = normalized_project_roots(settings.project_roots.as_slice());
    AppSettings {
        target_shell: settings.target_shell,
        proxy_url,
        use_proxy_for_tools: settings.use_proxy_for_tools,
        project_roots,
    }
}

/// Fills in the default project roots when none are configured, then
/// normalises the roots. `pycharm_projects_is_dir` tells whether
/// `home\PycharmProjects` is an existing folder.
pub fn apply_project_root_defaults(
    settings: &mut AppSettings,
    home: &str,
    pycharm_projects_is_dir: bool,
    windows: bool,
)
    ensures
        final(settings).target_shell == old(settings).target_shell,
        final(settings).proxy_url == old(settings).proxy_url,
        final(settings).use_proxy_for_tools == old(settings).use_proxy_for_tools,
        final(settings).project_roots.deep_view() == normalize_roots(
            if old(settings).project_roots@.len() == 0 {
                if pycharm_projects_is_dir {
                    seq![crate::paths::join_path(home@, "PycharmProjects"@, windows)]
                } else {
                    Seq::<Seq<char>>::empty()
                }
            } else {
                old(settings).project_roots.deep_view()
            },
        ),
{
    if settings.project_roots.len() == 0 {
        settings.project_roots = crate::paths::default_project_roots_for(home, pycharm_projects_is_dir, windows);
    }
    settings.project_roots = normalized_project_roots(settings.project_roots.as_slice());
}

} // verus!
