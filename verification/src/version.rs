//! Version numbers: reading the Codex version and comparing versions.

use vstd::prelude::*;
use std::cmp::Ordering;
use crate::pattern::{compile_pattern, pattern_capture, regex_capture, regex_compiles};
use crate::text::chars_of;

verus! {

broadcast use vstd::string::group_string_axioms;

/// Finds `major.minor.patch` with an optional pre-release or build suffix.
pub const VERSION_PATTERN: &'static str = r"(\d+\.\d+\.\d+(?:[-+][0-9A-Za-z.\-]+)?)";

/// The first version number in the output of `codex --version` or
/// `npm view`: capture group 1 of [`VERSION_PATTERN`].
pub open spec fn codex_version_in(output: Seq<char>) -> Option<Seq<char>> {
    if regex_compiles(VERSION_PATTERN@) {
        regex_capture(VERSION_PATTERN@, output, 1)
    } else {
        None
    }
}

/// See [`codex_version_in`].
pub fn parse_codex_version(output: &str) -> (r: Option<String>)
    ensures
        match r {
            Some(v) => codex_version_in(output@) == Some(v@),
            None => codex_version_in(output@) is None,
        },
{
    match compile_pattern(VERSION_PATTERN) {
        Some(p) => pattern_capture(&p, output, 1),
        None => None,
    }
}

/// An ASCII digit.
pub open spec fn is_digit(c: char) -> bool {
    '0' <= c && c <= '9'
}

/// The value of a digit.
pub open spec fn digit_value(c: char) -> nat {
    (c as int - '0' as int) as nat
}

/// The maximal runs of ASCII digits, in order (what `split` on non-digits
/// leaves after empty pieces are dropped).
pub open spec fn digit_runs(s: Seq<char>) -> Seq<Seq<char>>
    decreases s.len(),
{
    if s.len() == 0 {
        seq![]
    } else {
        let runs = digit_runs(s.drop_last());
        let c = s.last();
        if !is_digit(c) {
            runs
        } else if s.len() >= 2 && is_digit(s[s.len() - 2]) && runs.len() > 0 {
            runs.update(runs.len() - 1, runs.last().push(c))
        } else {
            runs.push(seq![c])
        }
    }
}

/// The number a run of digits denotes.
pub open spec fn digits_value(d: Seq<char>) -> nat
    decreases d.len(),
{
    if d.len() == 0 {
        0
    } else {
        digits_value(d.drop_last()) * 10 + digit_value(d.last())
    }
}

/// A run of digits parsed as `u64`, with 0 when it does not fit.
pub open spec fn part_value(d: Seq<char>) -> u64 {
    if digits_value(d) <= u64::MAX {
        digits_value(d) as u64
    } else {
        0
    }
}

/// The first three numbers in a version text, missing ones taken as 0.
pub open spec fn version_parts(s: Seq<char>) -> Seq<u64> {
    let runs = digit_runs(s);
    Seq::new(3, |i: int| if i < runs.len() { part_value(runs[i]) } else { 0u64 })
}

proof fn lemma_digits_value_grows(d: Seq<char>, k: int)
    requires
        0 <= k <= d.len(),
    ensures
        digits_value(d.take(k)) <= digits_value(d),
    decreases d.len() - k,
{
    if k < d.len() {
        lemma_digits_value_grows(d, k + 1);
        assert(d.take(k + 1).drop_last() =~= d.take(k));
    } else {
        assert(d.take(k) =~= d);
    }
}

/// A run of digits parsed as `u64` (`str::parse`), 0 when it does not fit.
fn parse_digit_run(d: &Vec<char>) -> (r: u64)
    requires
        forall|i: int| 0 <= i < d@.len() ==> is_digit(#[trigger] d@[i]),
    ensures
        r == part_value(d@),
{
    let mut value: u64 = 0;
    let mut i: usize = 0;
    while i < d.len()
        invariant
            i <= d@.len(),
            forall|j: int| 0 <= j < d@.len() ==> is_digit(#[trigger] d@[j]),
            value == digits_value(d@.take(i as int)),
        decreases d@.len() - i,
    {
        let c = d[i];
        assert(is_digit(d@[i as int]));
        let digit = (c as u32 - '0' as u32) as u64;
        assert(d@.take(i + 1).drop_last() =~= d@.take(i as int));
        assert(digits_value(d@.take(i + 1)) == digits_value(d@.take(i as int)) * 10 + digit);
        if value > (u64::MAX - digit) / 10 {
            proof {
                lemma_digits_value_grows(d@, i + 1);
                assert(d@.take(d@.len() as int) =~= d@);
            }
            return 0;
        }
        value = value * 10 + digit;
        i = i + 1;
    }
    assert(d@.take(i as int) =~= d@);
    value
}

/// See [`digit_runs`].
fn digit_runs_of(s: &str) -> (r: Vec<Vec<char>>)
    ensures
        r@.map_values(|v: Vec<char>| v@) == digit_runs(s@),
        forall|i: int, j: int|
            0 <= i < r@.len() && 0 <= j < r@[i]@.len() ==> is_digit(#[trigger] r@[i]@[j]),
{
    let v = chars_of(s);
    let mut runs: Vec<Vec<char>> = Vec::new();
    let mut i: usize = 0;
    while i < v.len()
        invariant
            i <= v@.len(),
            v@ == s@,
            runs@.map_values(|x: Vec<char>| x@) == digit_runs(v@.take(i as int)),
            forall|a: int, b: int|
                0 <= a < runs@.len() && 0 <= b < runs@[a]@.len() ==> is_digit(#[trigger] runs@[a]@[b]),
            i > 0 && is_digit(v@[i - 1]) ==> runs@.len() > 0,
        decreases v@.len() - i,
    {
        let c = v[i];
        let ghost prefix = v@.take(i + 1);
        assert(prefix.drop_last() =~= v@.take(i as int));
        assert(prefix.last() == c);
        let is_d = '0' <= c && c <= '9';
        if is_d {
            if i > 0 && '0' <= v[i - 1] && v[i - 1] <= '9' && runs.len() > 0 {
                assert(prefix[prefix.len() - 2] == v@[i - 1]);
                let ghost before = runs@.map_values(|x: Vec<char>| x@);
                let mut last = runs.pop().unwrap();
                last.push(c);
                runs.push(last);
                assert(runs@.map_values(|x: Vec<char>| x@) =~= before.update(
                    before.len() - 1,
                    before.last().push(c),
                ));
            } else {
                proof {
                    if i > 0 {
                        assert(prefix[prefix.len() - 2] == v@[i - 1]);
                    }
                }
                let ghost before = runs@.map_values(|x: Vec<char>| x@);
                let mut run: Vec<char> = Vec::new();
                run.push(c);
                runs.push(run);
                assert(runs@.map_values(|x: Vec<char>| x@) =~= before.push(seq![c]));
            }
        }
        i = i + 1;
    }
    assert(v@.take(i as int) =~= v@);
    runs
}

/// See [`version_parts`].
pub fn semver_parts(version: &str) -> (r: Vec<u64>)
    ensures
        r@ == version_parts(version@),
{
    let runs = digit_runs_of(version);
    let ghost rv = runs@.map_values(|v: Vec<char>| v@);
    let mut parts: Vec<u64> = Vec::new();
    let mut i: usize = 0;
    while i < 3
        invariant
            i <= 3,
            rv == runs@.map_values(|v: Vec<char>| v@),
            rv == digit_runs(version@),
            forall|a: int, b: int|
                0 <= a < runs@.len() && 0 <= b < runs@[a]@.len() ==> is_digit(#[trigger] runs@[a]@[b]),
            parts@.len() == i,
            forall|k: int| 0 <= k < i ==> parts@[k] == version_parts(version@)[k],
        decreases 3 - i,
    {
        if i < runs.len() {
            assert(rv[i as int] == runs@[i as int]@);
            let value = parse_digit_run(&runs[i]);
            parts.push(value);
        } else {
            parts.push(0);
        }
        i = i + 1;
    }
    assert(parts@ =~= version_parts(version@));
    parts
}

/// Lexicographic order of three-part versions.
pub open spec fn version_order(a: Seq<u64>, b: Seq<u64>) -> Ordering {
    if a[0] < b[0] {
        Ordering::Less
    } else if a[0] > b[0] {
        Ordering::Greater
    } else if a[1] < b[1] {
        Ordering::Less
    } else if a[1] > b[1] {
        Ordering::Greater
    } else if a[2] < b[2] {
        Ordering::Less
    } else if a[2] > b[2] {
        Ordering::Greater
    } else {
        Ordering::Equal
    }
}

/// Compares the first three numbers of two versions, in order.
pub fn compare_semver(left: &str, right: &str) -> (r: Ordering)
    ensures
        r == version_order(version_parts(left@), version_parts(right@)),
{
    let a = semver_parts(left);
    let b = semver_parts(right);
    if a[0] < b[0] {
        Ordering::Less
    } else if a[0] > b[0] {
        Ordering::Greater
    } else if a[1] < b[1] {
        Ordering::Less
    } else if a[1] > b[1] {
        Ordering::Greater
    } else if a[2] < b[2] {
        Ordering::Less
    } else if a[2] > b[2] {
        Ordering::Greater
    } else {
        Ordering::Equal
    }
}

/// Law: every version compares equal to itself.
pub proof fn lemma_compare_semver_reflexive(v: Seq<char>)
    ensures
        version_order(version_parts(v), version_parts(v)) == Ordering::Equal,
{
}

/// Law: swapping the versions reverses the comparison.
pub proof fn lemma_compare_semver_antisymmetric(a: Seq<char>, b: Seq<char>)
    ensures
        (version_order(version_parts(a), version_parts(b)) == Ordering::Greater) == (version_order(
            version_parts(b),
            version_parts(a),
        ) == Ordering::Less),
        (version_order(version_parts(a), version_parts(b)) == Ordering::Equal) == (version_order(
            version_parts(b),
            version_parts(a),
        ) == Ordering::Equal),
{
}

/// Law: the comparison is transitive.
pub proof fn lemma_compare_semver_transitive(a: Seq<char>, b: Seq<char>, c: Seq<char>)
    requires
        version_order(version_parts(a), version_parts(b)) == Ordering::Greater,
        version_order(version_parts(b), version_parts(c)) == Ordering::Greater,
    ensures
        version_order(version_parts(a), version_parts(c)) == Ordering::Greater,
{
}

/// Law: versions that agree in their first three numbers compare equal,
/// whatever else they contain.
pub proof fn lemma_compare_semver_equal_parts(a: Seq<char>, b: Seq<char>)
    requires
        version_parts(a) == version_parts(b),
    ensures
        version_order(version_parts(a), version_parts(b)) == Ordering::Equal,
{
}

/// Law: the comparison is lexicographic on the first three numbers of the
/// versions: they compare equal exactly when all three agree, and otherwise
/// the first number in which they differ decides, the larger one giving the
/// later version.
pub proof fn lemma_compare_semver_lexicographic(a: Seq<char>, b: Seq<char>)
    ensures
        version_parts(a).len() == 3 && version_parts(b).len() == 3,
        (version_order(version_parts(a), version_parts(b)) == Ordering::Equal) <==> (forall|k: int|
            0 <= k < 3 ==> #[trigger] version_parts(a)[k] == version_parts(b)[k]),
        (version_order(version_parts(a), version_parts(b)) == Ordering::Greater) <==> (exists|k: int|
            0 <= k < 3 && #[trigger] version_parts(a)[k] > version_parts(b)[k] && forall|j: int|
                0 <= j < k ==> version_parts(a)[j] == version_parts(b)[j]),
        (version_order(version_parts(a), version_parts(b)) == Ordering::Less) <==> (exists|k: int|
            0 <= k < 3 && #[trigger] version_parts(a)[k] < version_parts(b)[k] && forall|j: int|
                0 <= j < k ==> version_parts(a)[j] == version_parts(b)[j]),
{
    let pa = version_parts(a);
    let pb = version_parts(b);
    assert(pa[0] == pa[0] && pa[1] == pa[1] && pa[2] == pa[2]);
    assert(pb[0] == pb[0] && pb[1] == pb[1] && pb[2] == pb[2]);
}

/// A run of digits ends every text that ends with a digit.
proof fn lemma_digit_runs_nonempty(x: Seq<char>)
    requires
        x.len() > 0,
        is_digit(x.last()),
    ensures
        digit_runs(x).len() > 0,
{
}

/// The runs of a text that ends with a non-digit, followed by another text,
/// are the runs of the first followed by those of the second.
proof fn lemma_digit_runs_concat(s: Seq<char>, t: Seq<char>)
    requires
        s.len() == 0 || !is_digit(s.last()),
    ensures
        digit_runs(s + t) == digit_runs(s) + digit_runs(t),
    decreases t.len(),
{
    if t.len() == 0 {
        assert(s + t =~= s);
        assert(digit_runs(s) + digit_runs(t) =~= digit_runs(s));
    } else {
        let u = s + t;
        let t0 = t.drop_last();
        assert(u.drop_last() =~= s + t0);
        lemma_digit_runs_concat(s, t0);
        let c = t.last();
        assert(u.last() == c);
        let rs = digit_runs(s);
        let rt = digit_runs(t0);
        if is_digit(c) {
            if t.len() >= 2 {
                assert(u[u.len() - 2] == t[t.len() - 2]);
                assert(t0.last() == t[t.len() - 2]);
                if is_digit(t[t.len() - 2]) {
                    lemma_digit_runs_nonempty(t0);
                    assert((rs + rt).update((rs + rt).len() - 1, (rs + rt).last().push(c)) =~= rs + rt.update(
                        rt.len() - 1,
                        rt.last().push(c),
                    ));
                } else {
                    assert((rs + rt).push(seq![c]) =~= rs + rt.push(seq![c]));
                }
            } else {
                if u.len() >= 2 {
                    assert(u[u.len() - 2] == s.last());
                }
                assert(t0.len() == 0);
                assert((rs + rt).push(seq![c]) =~= rs + rt.push(seq![c]));
            }
        } else {
            assert(rs + rt == digit_runs(s) + digit_runs(t));
        }
    }
}

/// A non-empty text of digits is one run.
proof fn lemma_digit_runs_all_digits(x: Seq<char>)
    requires
        x.len() > 0,
        forall|i: int| 0 <= i < x.len() ==> is_digit(#[trigger] x[i]),
    ensures
        digit_runs(x) == seq![x],
    decreases x.len(),
{
    let x0 = x.drop_last();
    if x0.len() == 0 {
        assert(digit_runs(x0) =~= Seq::<Seq<char>>::empty());
        assert(seq![x.last()] =~= x);
    } else {
        assert forall|i: int| 0 <= i < x0.len() implies is_digit(#[trigger] x0[i]) by {
            assert(x0[i] == x[i]);
        }
        lemma_digit_runs_all_digits(x0);
        assert(x[x.len() - 2] == x0.last());
        assert(x0.push(x.last()) =~= x);
        assert(seq![x0].update(0, x0.push(x.last())) =~= seq![x]);
    }
}

/// A run of digits followed by a dot is that run alone.
proof fn lemma_digit_runs_then_dot(x: Seq<char>)
    requires
        x.len() > 0,
        forall|i: int| 0 <= i < x.len() ==> is_digit(#[trigger] x[i]),
    ensures
        digit_runs(x + seq!['.']) == seq![x],
{
    lemma_digit_runs_all_digits(x);
    assert((x + seq!['.']).drop_last() =~= x);
}

/// Law: a version written `x.y.z` with runs of ASCII digits has those three
/// numbers as its parts, in order (each as `str::parse` reads it into
/// `u64`, 0 when it does not fit).
pub proof fn lemma_version_parts_of_dotted(x: Seq<char>, y: Seq<char>, z: Seq<char>)
    requires
        x.len() > 0 && y.len() > 0 && z.len() > 0,
        forall|i: int| 0 <= i < x.len() ==> is_digit(#[trigger] x[i]),
        forall|i: int| 0 <= i < y.len() ==> is_digit(#[trigger] y[i]),
        forall|i: int| 0 <= i < z.len() ==> is_digit(#[trigger] z[i]),
    ensures
        version_parts(x + seq!['.'] + y + seq!['.'] + z) == seq![part_value(x), part_value(y), part_value(z)],
{
    let a = x + seq!['.'];
    let b = y + seq!['.'];
    lemma_digit_runs_then_dot(x);
    lemma_digit_runs_then_dot(y);
    lemma_digit_runs_all_digits(z);
    lemma_digit_runs_concat(a, b);
    assert((a + b).last() == '.');
    lemma_digit_runs_concat(a + b, z);
    assert(x + seq!['.'] + y + seq!['.'] + z =~= (a + b) + z);
    let runs = digit_runs((a + b) + z);
    assert(runs =~= seq![x, y, z]);
    assert(version_parts(x + seq!['.'] + y + seq!['.'] + z) =~= seq![part_value(x), part_value(y), part_value(z)]);
}

/// Law: the value of a run of digits is its decimal value: each digit
/// appended multiplies the value by ten and adds the digit.
pub proof fn lemma_part_value_decimal(d: Seq<char>, c: char)
    requires
        is_digit(c),
        digits_value(d) * 10 + (c as int - '0' as int) <= u64::MAX,
    ensures
        part_value(d.push(c)) == part_value(d) * 10 + (c as int - '0' as int),
{
    assert(d.push(c).drop_last() =~= d);
}

} // verus!
