//! Character-level text operations with their mathematical models.
//!
//! Text is modelled by its sequence of `char`s (`s@`).

use vstd::prelude::*;

verus! {

/// `char::is_whitespace`: the Unicode `White_Space` property.
pub open spec fn is_white_space(c: char) -> bool {
    ||| ('\u{9}' <= c && c <= '\u{d}')
    ||| c == ' '
    ||| c == '\u{85}'
    ||| c == '\u{a0}'
    ||| c == '\u{1680}'
    ||| ('\u{2000}' <= c && c <= '\u{200a}')
    ||| c == '\u{2028}'
    ||| c == '\u{2029}'
    ||| c == '\u{202f}'
    ||| c == '\u{205f}'
    ||| c == '\u{3000}'
}

/// Executable form of [`is_white_space`].
pub fn is_white_space_char(c: char) -> (r: bool)
    ensures
        r == is_white_space(c),
{
    ('\u{9}' <= c && c <= '\u{d}') || c == ' ' || c == '\u{85}' || c == '\u{a0}' || c
        == '\u{1680}' || ('\u{2000}' <= c && c <= '\u{200a}') || c == '\u{2028}' || c
        == '\u{2029}' || c == '\u{202f}' || c == '\u{205f}' || c == '\u{3000}'
}

/// `str::trim_start`: leading white space removed.
pub open spec fn trim_start(s: Seq<char>) -> Seq<char>
    decreases s.len(),
{
    if s.len() > 0 && is_white_space(s[0]) {
        trim_start(s.drop_first())
    } else {
        s
    }
}

/// `str::trim_end`: trailing white space removed.
pub open spec fn trim_end(s: Seq<char>) -> Seq<char>
    decreases s.len(),
{
    if s.len() > 0 && is_white_space(s.last()) {
        trim_end(s.drop_last())
    } else {
        s
    }
}

/// `str::trim`: leading and trailing white space removed.
pub open spec fn trim(s: Seq<char>) -> Seq<char> {
    trim_end(trim_start(s))
}

/// A text that is empty or holds only white space.
pub open spec fn is_blank(s: Seq<char>) -> bool {
    trim(s).len() == 0
}

pub proof fn lemma_trim_start_skip(s: Seq<char>, k: int)
    requires
        0 <= k <= s.len(),
        forall|i: int| 0 <= i < k ==> is_white_space(#[trigger] s[i]),
        k == s.len() || !is_white_space(s[k]),
    ensures
        trim_start(s) == s.skip(k),
    decreases k,
{
    if k == 0 {
        assert(s.skip(0) =~= s);
    } else {
        lemma_trim_start_skip(s.drop_first(), k - 1);
        assert(s.drop_first().skip(k - 1) =~= s.skip(k));
    }
}

pub proof fn lemma_trim_end_take(s: Seq<char>, k: int)
    requires
        0 <= k <= s.len(),
        forall|i: int| k <= i < s.len() ==> is_white_space(#[trigger] s[i]),
        k == 0 || !is_white_space(s[k - 1]),
    ensures
        trim_end(s) == s.take(k),
    decreases s.len() - k,
{
    if k == s.len() {
        assert(s.take(k) =~= s);
    } else {
        lemma_trim_end_take(s.drop_last(), k);
        assert(s.drop_last().take(k) =~= s.take(k));
    }
}

/// The first and last positions kept by [`trim`].
pub proof fn lemma_trim_bounds(s: Seq<char>, start: int, end: int)
    requires
        0 <= start <= end <= s.len(),
        forall|i: int| 0 <= i < start ==> is_white_space(#[trigger] s[i]),
        forall|i: int| end <= i < s.len() ==> is_white_space(#[trigger] s[i]),
        start == end || (!is_white_space(s[start]) && !is_white_space(s[end - 1])),
        start == end ==> end == s.len(),
    ensures
        trim(s) == s.subrange(start, end),
{
    lemma_trim_start_skip(s, start);
    let t = s.skip(start);
    if start == end {
        assert(t.len() == 0);
        lemma_trim_end_take(t, 0);
        assert(s.subrange(start, end) =~= t.take(0));
    } else {
        assert forall|i: int| end - start <= i < t.len() implies is_white_space(#[trigger] t[i]) by {
            assert(t[i] == s[i + start]);
        }
        lemma_trim_end_take(t, end - start);
        assert(t.take(end - start) =~= s.subrange(start, end));
    }
}

/// Positions kept by [`trim`]: `trim(s) == s.subrange(start, end)`.
pub open spec fn trim_bounds(s: Seq<char>) -> (int, int) {
    let start = first_non_white(s, 0);
    if start == s.len() {
        (s.len() as int, s.len() as int)
    } else {
        (start, last_non_white(s, s.len() as int) + 1)
    }
}

pub proof fn lemma_trim_is_subrange(s: Seq<char>)
    ensures
        0 <= trim_bounds(s).0 <= trim_bounds(s).1 <= s.len(),
        trim(s) == s.subrange(trim_bounds(s).0, trim_bounds(s).1),
        forall|i: int| 0 <= i < trim_bounds(s).0 ==> is_white_space(#[trigger] s[i]),
        forall|i: int| trim_bounds(s).1 <= i < s.len() ==> is_white_space(#[trigger] s[i]),
        trim_bounds(s).0 < trim_bounds(s).1 ==> !is_white_space(s[trim_bounds(s).0])
            && !is_white_space(s[trim_bounds(s).1 - 1]),
{
    let n = s.len() as int;
    lemma_first_non_white(s, 0);
    let start = first_non_white(s, 0);
    if start == n {
        lemma_trim_bounds(s, n, n);
    } else {
        lemma_last_non_white(s, n);
        let last = last_non_white(s, n);
        assert(start <= last);
        lemma_trim_bounds(s, start, last + 1);
    }
}

/// A text is blank exactly when every character of it is white space.
pub proof fn lemma_blank_all_white(s: Seq<char>)
    ensures
        is_blank(s) <==> forall|i: int| 0 <= i < s.len() ==> is_white_space(#[trigger] s[i]),
{
    lemma_trim_is_subrange(s);
    let (b0, b1) = trim_bounds(s);
    if is_blank(s) {
        assert(b0 == b1);
        assert forall|i: int| 0 <= i < s.len() implies is_white_space(#[trigger] s[i]) by {
            if i >= b0 {
                assert(b1 <= i);
            }
        }
    }
}

/// Trimming twice is trimming once.
pub proof fn lemma_trim_idempotent(s: Seq<char>)
    ensures
        trim(trim(s)) == trim(s),
{
    lemma_trim_is_subrange(s);
    let (start, end) = trim_bounds(s);
    let t = s.subrange(start, end);
    if start == end {
        lemma_trim_bounds(t, 0, 0);
        assert(t.subrange(0, 0) =~= t);
    } else {
        lemma_trim_bounds(t, 0, end - start);
        assert(t.subrange(0, end - start) =~= t);
    }
}

pub open spec fn first_non_white(s: Seq<char>, i: int) -> int
    decreases s.len() - i,
{
    if i < 0 || i >= s.len() {
        s.len() as int
    } else if !is_white_space(s[i]) {
        i
    } else {
        first_non_white(s, i + 1)
    }
}

pub open spec fn last_non_white(s: Seq<char>, i: int) -> int
    decreases i,
{
    if i <= 0 || i > s.len() {
        -1
    } else if !is_white_space(s[i - 1]) {
        i - 1
    } else {
        last_non_white(s, i - 1)
    }
}

pub proof fn lemma_first_non_white(s: Seq<char>, i: int)
    requires
        0 <= i <= s.len(),
        forall|j: int| 0 <= j < i ==> is_white_space(#[trigger] s[j]),
    ensures
        i <= first_non_white(s, i) <= s.len(),
        forall|j: int| 0 <= j < first_non_white(s, i) ==> is_white_space(#[trigger] s[j]),
        first_non_white(s, i) < s.len() ==> !is_white_space(s[first_non_white(s, i)]),
    decreases s.len() - i,
{
    if i < s.len() && is_white_space(s[i]) {
        lemma_first_non_white(s, i + 1);
    }
}

pub proof fn lemma_last_non_white(s: Seq<char>, i: int)
    requires
        0 <= i <= s.len(),
        forall|j: int| i <= j < s.len() ==> is_white_space(#[trigger] s[j]),
    ensures
        -1 <= last_non_white(s, i) < i,
        forall|j: int| last_non_white(s, i) < j < s.len() ==> is_white_space(#[trigger] s[j]),
        last_non_white(s, i) >= 0 ==> !is_white_space(s[last_non_white(s, i)]),
    decreases i,
{
    if i > 0 && is_white_space(s[i - 1]) {
        lemma_last_non_white(s, i - 1);
    }
}

/// The characters of a text, in order.
pub fn chars_of(s: &str) -> (v: Vec<char>)
    ensures
        v@ == s@,
{
    let mut v: Vec<char> = Vec::new();
    for c in it: s.chars()
        invariant
            it.seq() == s@,
            v@ == it.seq().take(it.index() as int),
    {
        v.push(c);
    }
    assert(v@ =~= s@);
    v
}

} // verus!

verus! {

/// Indices of the first and one past the last non-white-space characters.
fn trim_indices(v: &Vec<char>) -> (r: (usize, usize))
    ensures
        r.0 as int == trim_bounds(v@).0,
        r.1 as int == trim_bounds(v@).1,
{
    proof {
        lemma_trim_is_subrange(v@);
        lemma_first_non_white(v@, 0);
    }
    let n = v.len();
    let mut start: usize = 0;
    while start < n && is_white_space_char(v[start])
        invariant
            n == v@.len(),
            start <= n,
            forall|j: int| 0 <= j < start ==> is_white_space(#[trigger] v@[j]),
            first_non_white(v@, start as int) == first_non_white(v@, 0),
        decreases n - start,
    {
        start = start + 1;
    }
    if start == n {
        return (n, n);
    }
    let mut end: usize = n;
    proof {
        lemma_last_non_white(v@, n as int);
    }
    while end > start && is_white_space_char(v[end - 1])
        invariant
            n == v@.len(),
            start < n,
            start < end <= n,
            !is_white_space(v@[start as int]),
            last_non_white(v@, end as int) == last_non_white(v@, n as int),
        decreases end,
    {
        end = end - 1;
    }
    assert(last_non_white(v@, end as int) == end - 1);
    (start, end)
}

/// `str::trim`.
pub fn trim_str(s: &str) -> (r: &str)
    ensures
        r@ == trim(s@),
{
    let v = chars_of(s);
    proof {
        lemma_trim_is_subrange(v@);
    }
    let (start, end) = trim_indices(&v);
    s.substring_char(start, end)
}

/// `s.trim().is_empty()`.
pub fn is_blank_str(s: &str) -> (r: bool)
    ensures
        r == is_blank(s@),
{
    let t = trim_str(s);
    t.is_empty()
}

} // verus!

verus! {

/// `char::to_ascii_lowercase`.
pub open spec fn ascii_lower(c: char) -> char {
    if 'A' <= c && c <= 'Z' {
        ((c as u32) + 32) as char
    } else {
        c
    }
}

/// `str::to_ascii_lowercase`, as characters.
pub open spec fn ascii_lower_seq(s: Seq<char>) -> Seq<char> {
    s.map_values(|c: char| ascii_lower(c))
}

/// `str::eq_ignore_ascii_case`.
pub open spec fn eq_ignore_ascii_case(a: Seq<char>, b: Seq<char>) -> bool {
    a.len() == b.len() && forall|i: int| 0 <= i < a.len() ==> ascii_lower(#[trigger] a[i])
        == ascii_lower(b[i])
}

/// Executable form of [`ascii_lower`].
pub fn ascii_lower_char(c: char) -> (r: char)
    ensures
        r == ascii_lower(c),
{
    if 'A' <= c && c <= 'Z' {
        let b = c as u8;
        (b + 32) as char
    } else {
        c
    }
}

/// `str::to_ascii_lowercase`, as characters.
pub fn ascii_lowercase(s: &str) -> (r: Vec<char>)
    ensures
        r@ == ascii_lower_seq(s@),
{
    let v = chars_of(s);
    let mut r: Vec<char> = Vec::new();
    let mut i: usize = 0;
    while i < v.len()
        invariant
            i <= v@.len(),
            v@ == s@,
            r@ == ascii_lower_seq(v@.take(i as int)),
        decreases v@.len() - i,
    {
        let c = ascii_lower_char(v[i]);
        r.push(c);
        i = i + 1;
        assert(ascii_lower_seq(v@.take(i as int)) =~= ascii_lower_seq(v@.take(i - 1)).push(c));
    }
    assert(v@.take(i as int) =~= v@);
    r
}

/// `str::eq_ignore_ascii_case`.
pub fn eq_ignore_case(a: &str, b: &str) -> (r: bool)
    ensures
        r == eq_ignore_ascii_case(a@, b@),
{
    let x = chars_of(a);
    let y = chars_of(b);
    if x.len() != y.len() {
        return false;
    }
    let mut i: usize = 0;
    while i < x.len()
        invariant
            i <= x@.len(),
            x@ == a@,
            y@ == b@,
            x@.len() == y@.len(),
            forall|j: int| 0 <= j < i ==> ascii_lower(#[trigger] x@[j]) == ascii_lower(y@[j]),
        decreases x@.len() - i,
    {
        if ascii_lower_char(x[i]) != ascii_lower_char(y[i]) {
            return false;
        }
        i = i + 1;
    }
    true
}

/// `needle` occurs in `hay` at position `i`.
pub open spec fn matches_at(hay: Seq<char>, needle: Seq<char>, i: int) -> bool {
    0 <= i && i + needle.len() <= hay.len() && hay.subrange(i, i + needle.len()) == needle
}

/// `str::contains`.
pub open spec fn contains(hay: Seq<char>, needle: Seq<char>) -> bool {
    exists|i: int| matches_at(hay, needle, i)
}

/// `str::ends_with`.
pub open spec fn ends_with(hay: Seq<char>, needle: Seq<char>) -> bool {
    needle.len() <= hay.len() && matches_at(hay, needle, hay.len() - needle.len())
}

/// Executable form of [`matches_at`].
pub fn matches_at_index(hay: &[char], needle: &[char], i: usize) -> (r: bool)
    ensures
        r == matches_at(hay@, needle@, i as int),
{
    if i > hay.len() || needle.len() > hay.len() - i {
        return false;
    }
    let mut k: usize = 0;
    while k < needle.len()
        invariant
            i + needle@.len() <= hay@.len(),
            hay@.len() <= usize::MAX,
            k <= needle@.len(),
            forall|m: int| 0 <= m < k ==> hay@[i + m] == #[trigger] needle@[m],
        decreases needle@.len() - k,
    {
        if hay[i + k] != needle[k] {
            assert(hay@.subrange(i as int, i + needle@.len())[k as int] != needle@[k as int]);
            return false;
        }
        k = k + 1;
    }
    assert(hay@.subrange(i as int, i + needle@.len()) =~= needle@);
    true
}

/// The first position at which `needle` occurs in `hay`, searching from `from`.
pub open spec fn first_match_from(hay: Seq<char>, needle: Seq<char>, from: int) -> Option<int> {
    if exists|i: int| from <= i && matches_at(hay, needle, i) {
        Some(
            choose|i: int|
                from <= i && matches_at(hay, needle, i) && forall|j: int|
                    from <= j < i ==> !matches_at(hay, needle, j),
        )
    } else {
        None
    }
}

/// `str::find` from a start position (character positions).
pub fn find_from(hay: &[char], needle: &[char], from: usize) -> (r: Option<usize>)
    ensures
        match r {
            Some(i) => from <= i && matches_at(hay@, needle@, i as int) && forall|j: int|
                from <= j < i ==> !matches_at(hay@, needle@, j),
            None => forall|j: int| from <= j ==> !matches_at(hay@, needle@, j),
        },
{
    if needle.len() > hay.len() || from > hay.len() - needle.len() {
        return None;
    }
    let last = hay.len() - needle.len();
    let mut i = from;
    while i < last
        invariant
            from <= i <= last,
            last + needle@.len() == hay@.len(),
            forall|j: int| from <= j < i ==> !matches_at(hay@, needle@, j),
        decreases last - i,
    {
        if matches_at_index(hay, needle, i) {
            return Some(i);
        }
        i = i + 1;
    }
    if matches_at_index(hay, needle, last) {
        Some(last)
    } else {
        None
    }
}

/// The result of [`find_from`] is [`first_match_from`].
pub proof fn lemma_first_match_unique(hay: Seq<char>, needle: Seq<char>, from: int, i: int)
    requires
        from <= i && matches_at(hay, needle, i),
        forall|j: int| from <= j < i ==> !matches_at(hay, needle, j),
    ensures
        first_match_from(hay, needle, from) == Some(i),
{
    let k = choose|k: int|
        from <= k && matches_at(hay, needle, k) && forall|j: int|
            from <= j < k ==> !matches_at(hay, needle, j);
    assert(from <= k && matches_at(hay, needle, k));
    if k < i {
    } else if k > i {
        assert(!matches_at(hay, needle, i));
    }
}

/// `str::contains`.
pub fn contains_chars(hay: &[char], needle: &[char]) -> (r: bool)
    ensures
        r == contains(hay@, needle@),
{
    match find_from(hay, needle, 0) {
        Some(_) => true,
        None => false,
    }
}

/// `str::ends_with`.
pub fn ends_with_chars(hay: &[char], needle: &[char]) -> (r: bool)
    ensures
        r == ends_with(hay@, needle@),
{
    if needle.len() > hay.len() {
        false
    } else {
        matches_at_index(hay, needle, hay.len() - needle.len())
    }
}

/// `String::from_iter` over the characters of a slice: the string holds
/// those characters, in order.
#[verifier::external_body]
pub(crate) fn string_from_chars(v: &[char]) -> (r: String)
    ensures
        r@ == v@,
{
    String::from_iter(v)
}

} // verus!

verus! {

broadcast use vstd::string::group_string_axioms;

/// Whether two texts are the same.
pub fn same_text(a: &str, b: &str) -> (r: bool)
    ensures
        r == (a@ == b@),
{
    let x = chars_of(a);
    let y = chars_of(b);
    if x.len() != y.len() {
        return false;
    }
    let mut i: usize = 0;
    while i < x.len()
        invariant
            i <= x@.len(),
            x@ == a@,
            y@ == b@,
            x@.len() == y@.len(),
            forall|j: int| 0 <= j < i ==> x@[j] == y@[j],
        decreases x@.len() - i,
    {
        if x[i] != y[i] {
            return false;
        }
        i = i + 1;
    }
    assert(x@ =~= y@);
    true
}

/// The parts with `sep` between consecutive ones (`slice::join`).
pub open spec fn joined(parts: Seq<Seq<char>>, sep: Seq<char>) -> Seq<char>
    decreases parts.len(),
{
    if parts.len() == 0 {
        seq![]
    } else if parts.len() == 1 {
        parts[0]
    } else {
        joined(parts.drop_last(), sep) + sep + parts.last()
    }
}

/// See [`joined`].
pub fn join_strings(parts: &Vec<String>, sep: &str) -> (r: String)
    ensures
        r@ == joined(parts.deep_view(), sep@),
{
    let ghost views = parts.deep_view();
    let mut r = String::new();
    let mut i: usize = 0;
    while i < parts.len()
        invariant
            i <= parts@.len(),
            views == parts.deep_view(),
            r@ == joined(views.take(i as int), sep@),
        decreases parts@.len() - i,
    {
        assert(views.take(i + 1).drop_last() =~= views.take(i as int));
        if i > 0 {
            r.append(sep);
        } else {
            assert(r@ =~= seq![]);
        }
        r.append(parts[i].as_str());
        i = i + 1;
        assert(r@ =~= joined(views.take(i as int), sep@));
    }
    assert(views.take(i as int) =~= views);
    r
}

/// `s` with every occurrence of `c` removed.
pub open spec fn without_char(s: Seq<char>, c: char) -> Seq<char>
    decreases s.len(),
{
    if s.len() == 0 {
        seq![]
    } else if s.last() == c {
        without_char(s.drop_last(), c)
    } else {
        without_char(s.drop_last(), c).push(s.last())
    }
}

/// See [`without_char`].
pub fn remove_char(s: &str, c: char) -> (r: String)
    ensures
        r@ == without_char(s@, c),
{
    let v = chars_of(s);
    let mut out: Vec<char> = Vec::new();
    let mut i: usize = 0;
    while i < v.len()
        invariant
            i <= v@.len(),
            v@ == s@,
            out@ == without_char(v@.take(i as int), c),
        decreases v@.len() - i,
    {
        assert(v@.take(i + 1).drop_last() =~= v@.take(i as int));
        if v[i] != c {
            out.push(v[i]);
        }
        i = i + 1;
    }
    assert(v@.take(i as int) =~= v@);
    string_from_chars(out.as_slice())
}

/// `s` without the leading characters that are `a` or `b`
/// (`str::trim_start_matches([a, b])`).
pub open spec fn trim_start_either(s: Seq<char>, a: char, b: char) -> Seq<char>
    decreases s.len(),
{
    if s.len() > 0 && (s[0] == a || s[0] == b) {
        trim_start_either(s.drop_first(), a, b)
    } else {
        s
    }
}

/// See [`trim_start_either`].
pub fn trim_start_either_str(s: &str, a: char, b: char) -> (r: &str)
    ensures
        r@ == trim_start_either(s@, a, b),
{
    let v = chars_of(s);
    let mut i: usize = 0;
    assert(v@.skip(0) =~= v@);
    while i < v.len() && (v[i] == a || v[i] == b)
        invariant
            i <= v@.len(),
            v@ == s@,
            trim_start_either(v@, a, b) == trim_start_either(v@.skip(i as int), a, b),
        decreases v@.len() - i,
    {
        assert(v@.skip(i as int).drop_first() =~= v@.skip(i + 1));
        assert(v@.skip(i as int)[0] == v@[i as int]);
        i = i + 1;
    }
    assert(v@.skip(i as int) =~= v@.subrange(i as int, v@.len() as int));
    s.substring_char(i, v.len())
}

/// `str::trim_end`.
pub fn trim_end_str(s: &str) -> (r: &str)
    ensures
        r@ == trim_end(s@),
{
    let v = chars_of(s);
    let mut end: usize = v.len();
    assert(v@.take(end as int) =~= v@);
    while end > 0 && is_white_space_char(v[end - 1])
        invariant
            end <= v@.len(),
            v@ == s@,
            trim_end(v@) == trim_end(v@.take(end as int)),
        decreases end,
    {
        assert(v@.take(end as int).drop_last() =~= v@.take(end - 1));
        assert(v@.take(end as int).last() == v@[end - 1]);
        end = end - 1;
    }
    assert(v@.take(end as int) =~= v@.subrange(0, end as int));
    s.substring_char(0, end)
}

/// The first `n` characters.
pub fn prefix_str(s: &str, n: usize) -> (r: &str)
    requires
        n <= s@.len(),
    ensures
        r@ == s@.take(n as int),
{
    s.substring_char(0, n)
}

} // verus!
