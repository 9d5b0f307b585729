//! Text helpers: Unicode whitespace, trimming, blank checks, upper-casing and joining.
use vstd::prelude::*;

verus! {

/// The Unicode `White_Space` property, the set that `char::is_whitespace` tests.
pub open spec fn is_ws(c: char) -> bool {
    let u = c as u32;
    ||| 0x09 <= u <= 0x0D
    ||| u == 0x20
    ||| u == 0x85
    ||| u == 0xA0
    ||| u == 0x1680
    ||| 0x2000 <= u <= 0x200A
    ||| u == 0x2028
    ||| u == 0x2029
    ||| u == 0x202F
    ||| u == 0x205F
    ||| u == 0x3000
}

/// Whether `c` is a Unicode whitespace character.
pub fn is_whitespace(c: char) -> (r: bool)
    ensures
        r == is_ws(c),
{
    let u = c as u32;
    (0x09 <= u && u <= 0x0D) || u == 0x20 || u == 0x85 || u == 0xA0 || u == 0x1680 || (0x2000 <= u
        && u <= 0x200A) || u == 0x2028 || u == 0x2029 || u == 0x202F || u == 0x205F || u == 0x3000
}

/// A string is blank when it is empty or holds whitespace only.
pub open spec fn is_blank_seq(s: Seq<char>) -> bool {
    forall|i: int| 0 <= i < s.len() ==> is_ws(#[trigger] s[i])
}

/// The characters of `s`, in order.
pub fn chars_of(s: &str) -> (v: Vec<char>)
    ensures
        v@ == s@,
{
    let mut v: Vec<char> = Vec::new();
    for c in it: s.chars()
        invariant
            v@ == it.seq().take(it.index()),
    {
        v.push(c);
    }
    v
}


/// Index of the first non-whitespace character of `s` at or after `i` (`s.len()` when none).
pub open spec fn skip_ws_from(s: Seq<char>, i: int) -> int
    decreases s.len() - i,
{
    if 0 <= i < s.len() && is_ws(s[i]) {
        skip_ws_from(s, i + 1)
    } else {
        i
    }
}

/// End of `s[lo..j]` once its trailing whitespace is dropped.
pub open spec fn back_ws_to(s: Seq<char>, lo: int, j: int) -> int
    decreases j - lo,
{
    if lo < j <= s.len() && is_ws(s[j - 1]) {
        back_ws_to(s, lo, j - 1)
    } else {
        j
    }
}

/// `s` without its leading and trailing whitespace, as `str::trim` gives it.
pub open spec fn trimmed(s: Seq<char>) -> Seq<char> {
    let a = skip_ws_from(s, 0);
    s.subrange(a, back_ws_to(s, a, s.len() as int))
}

proof fn lemma_skip_ws_bounds(s: Seq<char>, i: int)
    requires
        0 <= i <= s.len(),
    ensures
        i <= skip_ws_from(s, i) <= s.len(),
        forall|k: int| i <= k < skip_ws_from(s, i) ==> is_ws(#[trigger] s[k]),
        skip_ws_from(s, i) < s.len() ==> !is_ws(s[skip_ws_from(s, i)]),
    decreases s.len() - i,
{
    if i < s.len() && is_ws(s[i]) {
        lemma_skip_ws_bounds(s, i + 1);
    }
}

proof fn lemma_back_ws_bounds(s: Seq<char>, lo: int, j: int)
    requires
        0 <= lo <= j <= s.len(),
    ensures
        lo <= back_ws_to(s, lo, j) <= j,
        forall|k: int| back_ws_to(s, lo, j) <= k < j ==> is_ws(#[trigger] s[k]),
        back_ws_to(s, lo, j) > lo ==> !is_ws(s[back_ws_to(s, lo, j) - 1]),
    decreases j - lo,
{
    if lo < j && is_ws(s[j - 1]) {
        lemma_back_ws_bounds(s, lo, j - 1);
    }
}

/// The trimmed text is a contiguous part of `s`: only whitespace is dropped around it,
/// and it neither starts nor ends with whitespace.
pub proof fn lemma_trimmed_shape(s: Seq<char>)
    ensures
        exists|a: int, b: int|
            0 <= a <= b <= s.len() && trimmed(s) == s.subrange(a, b) && (forall|k: int|
                0 <= k < a ==> is_ws(#[trigger] s[k])) && (forall|k: int|
                b <= k < s.len() ==> is_ws(#[trigger] s[k])) && (a < b ==> !is_ws(s[a]) && !is_ws(
                s[b - 1])),
{
    let a = skip_ws_from(s, 0);
    lemma_skip_ws_bounds(s, 0);
    let b = back_ws_to(s, a, s.len() as int);
    lemma_back_ws_bounds(s, a, s.len() as int);
    assert(0 <= a <= b <= s.len() && trimmed(s) == s.subrange(a, b));
}

/// `s` with leading and trailing Unicode whitespace removed (`str::trim`).
pub fn trim(s: &str) -> (r: String)
    ensures
        r@ == trimmed(s@),
{
    let chars = chars_of(s);
    let n = chars.len();
    let mut i: usize = 0;
    while i < n && is_whitespace(chars[i])
        invariant
            n == s@.len(),
            chars@ == s@,
            0 <= i <= n,
            skip_ws_from(s@, i as int) == skip_ws_from(s@, 0),
        decreases n - i,
    {
        i = i + 1;
    }
    let mut j: usize = n;
    while j > i && is_whitespace(chars[j - 1])
        invariant
            n == s@.len(),
            chars@ == s@,
            0 <= i <= j <= n,
            skip_ws_from(s@, 0) == i,
            back_ws_to(s@, i as int, j as int) == back_ws_to(s@, i as int, n as int),
        decreases j,
    {
        j = j - 1;
    }
    let part = s.substring_char(i, j);
    String::from_str(part)
}

/// Whether `s` is empty or consists of whitespace only.
pub fn is_blank(s: &str) -> (r: bool)
    ensures
        r == is_blank_seq(s@),
{
    let chars = chars_of(s);
    let n = chars.len();
    let mut i: usize = 0;
    while i < n
        invariant
            n == s@.len(),
            chars@ == s@,
            0 <= i <= n,
            forall|k: int| 0 <= k < i ==> is_ws(#[trigger] s@[k]),
        decreases n - i,
    {
        if !is_whitespace(chars[i]) {
            return false;
        }
        i = i + 1;
    }
    true
}

/// What `str::to_uppercase` returns for a text: the full Unicode upper-case mapping,
/// which can change the length of the text.
pub uninterp spec fn uppercase(s: Seq<char>) -> Seq<char>;

/// Upper-cases `s` with `str::to_uppercase` (std). The contract names the result: it is
/// `uppercase(s@)`, a function of the characters of `s`. Every character maps to one or
/// more characters, so the result is empty exactly when `s` is; nothing else is stated.
#[verifier::external_body]
pub(crate) fn to_uppercase(s: &str) -> (r: String)
    ensures
        r@ == uppercase(s@),
        (r@.len() == 0) == (s@.len() == 0),
{
    s.to_uppercase()
}

/// Trims `s` and upper-cases what is left, the normal form of seasons, teams and players.
pub open spec fn normalized(s: Seq<char>) -> Seq<char> {
    uppercase(trimmed(s))
}

/// `normalized`, computed. The result is empty exactly when `s` is blank.
pub fn normalize(s: &str) -> (r: String)
    ensures
        r@ == normalized(s@),
        (r@.len() == 0) == is_blank_seq(s@),
{
    let t = trim(s);
    proof {
        lemma_trimmed_empty_iff_blank(s@);
    }
    to_uppercase(t.as_str())
}

/// Trimming leaves nothing exactly when the text is blank.
pub proof fn lemma_trimmed_empty_iff_blank(s: Seq<char>)
    ensures
        (trimmed(s).len() == 0) == is_blank_seq(s),
{
    let a = skip_ws_from(s, 0);
    lemma_skip_ws_bounds(s, 0);
    let b = back_ws_to(s, a, s.len() as int);
    lemma_back_ws_bounds(s, a, s.len() as int);
    if trimmed(s).len() == 0 {
        assert(a == b);
        assert forall|i: int| 0 <= i < s.len() implies is_ws(#[trigger] s[i]) by {
            if i < a {
            } else {
                assert(b <= i);
            }
        }
    } else {
        assert(a < b);
        assert(!is_ws(s[a]));
    }
}

/// The views of a list of strings.
pub open spec fn views(v: Seq<String>) -> Seq<Seq<char>> {
    v.map_values(|s: String| s@)
}

/// `parts` joined with `sep` between each two of them.
pub open spec fn joined(parts: Seq<Seq<char>>, sep: Seq<char>) -> Seq<char>
    decreases parts.len(),
{
    if parts.len() == 0 {
        Seq::empty()
    } else if parts.len() == 1 {
        parts[0]
    } else {
        joined(parts.drop_last(), sep) + sep + parts.last()
    }
}

/// Joins `parts` with `sep` between each two of them (`[String]::join`).
pub fn join(parts: &Vec<String>, sep: &str) -> (r: String)
    ensures
        r@ == joined(views(parts@), sep@),
{
    let ghost parts_views = views(parts@);
    let mut r = String::new();
    let n = parts.len();
    let mut i: usize = 0;
    while i < n
        invariant
            n == parts@.len(),
            parts_views == views(parts@),
            0 <= i <= n,
            r@ == joined(parts_views.take(i as int), sep@),
        decreases n - i,
    {
        assert(parts_views.take(i + 1).drop_last() == parts_views.take(i as int));
        if i > 0 {
            r.append(sep);
        }
        r.append(parts[i].as_str());
        i = i + 1;
    }
    assert(parts_views.take(n as int) == parts_views);
    r
}

} // verus!
