//! Character-level building blocks shared by the name, path and header logic.
//!
//! Strings are modelled by their view, a `Seq<char>`; every helper here states
//! its result over that view.
use vstd::prelude::*;

verus! {

/// An ASCII letter or digit.
pub open spec fn is_ascii_alnum(c: char) -> bool {
    ('0' <= c && c <= '9') || ('a' <= c && c <= 'z') || ('A' <= c && c <= 'Z')
}

/// Lower-cases one ASCII letter and leaves every other character alone.
pub open spec fn ascii_lower(c: char) -> char {
    if 'A' <= c && c <= 'Z' {
        ((c as u32) + 32) as char
    } else {
        c
    }
}

/// The ASCII lower-casing of a whole string.
pub open spec fn lower_seq(s: Seq<char>) -> Seq<char> {
    s.map_values(|c: char| ascii_lower(c))
}

/// The characters that Unicode gives the `White_Space` property.
pub open spec fn is_space(c: char) -> bool {
    ||| ('\u{9}' <= c && c <= '\u{d}')
    ||| c == ' '
    ||| c == '\u{85}'
    ||| c == '\u{a0}'
    ||| c == '\u{1680}'
    ||| ('\u{2000}' <= c && c <= '\u{200a}')
    ||| c == '\u{2028}'
    ||| c == '\u{2029}'
    ||| c == '\u{202f}'
    ||| c == '\u{205f}'
    ||| c == '\u{3000}'
}

/// `s` ends with `suffix`.
pub open spec fn has_suffix(s: Seq<char>, suffix: Seq<char>) -> bool {
    suffix.len() <= s.len() && s.subrange(s.len() - suffix.len(), s.len() as int) == suffix
}

/// `s` starts with `prefix`.
pub open spec fn has_prefix(s: Seq<char>, prefix: Seq<char>) -> bool {
    prefix.len() <= s.len() && s.subrange(0, prefix.len() as int) == prefix
}

/// Number of leading characters of `s` that satisfy `p`.
pub open spec fn lead_count(s: Seq<char>, p: spec_fn(char) -> bool) -> nat
    decreases s.len(),
{
    if s.len() == 0 || !p(s[0]) {
        0
    } else {
        1 + lead_count(s.drop_first(), p)
    }
}

/// Number of trailing characters of `s` that satisfy `p`.
pub open spec fn trail_count(s: Seq<char>, p: spec_fn(char) -> bool) -> nat
    decreases s.len(),
{
    if s.len() == 0 || !p(s.last()) {
        0
    } else {
        1 + trail_count(s.drop_last(), p)
    }
}

/// `s` without its leading and trailing characters that satisfy `p`
/// (what `str::trim_matches` gives for a character predicate).
pub open spec fn trim_by(s: Seq<char>, p: spec_fn(char) -> bool) -> Seq<char> {
    let front = lead_count(s, p);
    if front == s.len() {
        Seq::empty()
    } else {
        s.subrange(front as int, s.len() - trail_count(s, p))
    }
}

/// `str::trim`: leading and trailing white space removed.
pub open spec fn trim_spaces(s: Seq<char>) -> Seq<char> {
    trim_by(s, |c: char| is_space(c))
}

pub proof fn lemma_lead_count_bound(s: Seq<char>, p: spec_fn(char) -> bool)
    ensures
        lead_count(s, p) <= s.len(),
        forall|i: int| 0 <= i < lead_count(s, p) ==> p(#[trigger] s[i]),
        lead_count(s, p) < s.len() ==> !p(s[lead_count(s, p) as int]),
    decreases s.len(),
{
    if s.len() > 0 && p(s[0]) {
        lemma_lead_count_bound(s.drop_first(), p);
        assert forall|i: int| 0 <= i < lead_count(s, p) implies p(#[trigger] s[i]) by {
            if i > 0 {
                assert(s[i] == s.drop_first()[i - 1]);
            }
        }
    }
}

pub proof fn lemma_trail_count_bound(s: Seq<char>, p: spec_fn(char) -> bool)
    ensures
        trail_count(s, p) <= s.len(),
        forall|i: int| s.len() - trail_count(s, p) <= i < s.len() ==> p(#[trigger] s[i]),
        trail_count(s, p) < s.len() ==> !p(s[s.len() - 1 - trail_count(s, p)]),
    decreases s.len(),
{
    if s.len() > 0 && p(s.last()) {
        lemma_trail_count_bound(s.drop_last(), p);
        assert forall|i: int| s.len() - trail_count(s, p) <= i < s.len() implies p(
            #[trigger] s[i],
        ) by {
            if i < s.len() - 1 {
                assert(s[i] == s.drop_last()[i]);
            }
        }
    }
}

/// When the leading run does not cover the whole string, the two runs do not overlap.
pub proof fn lemma_runs_disjoint(s: Seq<char>, p: spec_fn(char) -> bool)
    requires
        lead_count(s, p) < s.len(),
    ensures
        lead_count(s, p) + trail_count(s, p) < s.len(),
{
    lemma_lead_count_bound(s, p);
    lemma_trail_count_bound(s, p);
    let f = lead_count(s, p) as int;
    if f + trail_count(s, p) >= s.len() {
        assert(p(s[f]));
    }
}

pub fn char_is_ascii_alnum(c: char) -> (r: bool)
    ensures
        r == is_ascii_alnum(c),
{
    ('0' <= c && c <= '9') || ('a' <= c && c <= 'z') || ('A' <= c && c <= 'Z')
}

pub fn char_ascii_lower(c: char) -> (r: char)
    ensures
        r == ascii_lower(c),
{
    if 'A' <= c && c <= 'Z' {
        ((c as u8) + 32) as char
    } else {
        c
    }
}

pub fn char_is_space(c: char) -> (r: bool)
    ensures
        r == is_space(c),
{
    ('\u{9}' <= c && c <= '\u{d}') || c == ' ' || c == '\u{85}' || c == '\u{a0}' || c
        == '\u{1680}' || ('\u{2000}' <= c && c <= '\u{200a}') || c == '\u{2028}' || c
        == '\u{2029}' || c == '\u{202f}' || c == '\u{205f}' || c == '\u{3000}'
}

/// The characters of `s`, in order.
pub fn chars_of(s: &str) -> (v: Vec<char>)
    ensures
        v@ == s@,
{
    let n = s.unicode_len();
    let mut v: Vec<char> = Vec::new();
    let mut i: usize = 0;
    while i < n
        invariant
            n == s@.len(),
            i <= n,
            v@ == s@.subrange(0, i as int),
        decreases n - i,
    {
        let c = s.get_char(i);
        v.push(c);
        i = i + 1;
    }
    v
}

/// Appends one character to a `String` (`String::push`).
#[verifier::external_body]
pub(crate) fn push_char(s: &mut String, c: char)
    ensures
        final(s)@ == old(s)@.push(c),
{
    s.push(c);
}

/// A `String` holding exactly the characters of `v`.
pub fn string_of(v: &Vec<char>) -> (s: String)
    ensures
        s@ == v@,
{
    let mut s = String::new();
    let mut i: usize = 0;
    while i < v.len()
        invariant
            i <= v.len(),
            s@ == v@.subrange(0, i as int),
        decreases v.len() - i,
    {
        push_char(&mut s, v[i]);
        i = i + 1;
    }
    s
}

/// The characters of `v` from `start` up to `end`, as a `String`.
pub fn string_of_range(v: &Vec<char>, start: usize, end: usize) -> (s: String)
    requires
        start <= end <= v.len(),
    ensures
        s@ == v@.subrange(start as int, end as int),
{
    let mut s = String::new();
    let mut i: usize = start;
    while i < end
        invariant
            start <= i <= end <= v.len(),
            s@ == v@.subrange(start as int, i as int),
        decreases end - i,
    {
        push_char(&mut s, v[i]);
        i = i + 1;
    }
    s
}

/// The ASCII lower-casing of `s`, character by character.
pub fn lower_chars(s: &str) -> (v: Vec<char>)
    ensures
        v@ == lower_seq(s@),
{
    let src = chars_of(s);
    let mut v: Vec<char> = Vec::new();
    let mut i: usize = 0;
    while i < src.len()
        invariant
            i <= src.len(),
            src@ == s@,
            v@ == lower_seq(s@).subrange(0, i as int),
        decreases src.len() - i,
    {
        v.push(char_ascii_lower(src[i]));
        i = i + 1;
    }
    v
}

/// `v` and `lit` hold the same characters.
pub fn chars_equal(v: &Vec<char>, lit: &str) -> (r: bool)
    ensures
        r == (v@ == lit@),
{
    let w = chars_of(lit);
    if v.len() != w.len() {
        return false;
    }
    let mut i: usize = 0;
    while i < v.len()
        invariant
            i <= v.len() == w.len(),
            w@ == lit@,
            v@.subrange(0, i as int) == w@.subrange(0, i as int),
        decreases v.len() - i,
    {
        if v[i] != w[i] {
            assert(v@[i as int] != w@[i as int]);
            return false;
        }
        assert(v@.subrange(0, i + 1) == v@.subrange(0, i as int).push(v@[i as int]));
        assert(w@.subrange(0, i + 1) == w@.subrange(0, i as int).push(w@[i as int]));
        i = i + 1;
    }
    assert(v@ == v@.subrange(0, v.len() as int));
    assert(w@ == w@.subrange(0, w.len() as int));
    true
}

/// `v` ends with the characters of `lit`.
pub fn chars_end_with(v: &Vec<char>, lit: &str) -> (r: bool)
    ensures
        r == has_suffix(v@, lit@),
{
    let w = chars_of(lit);
    if w.len() > v.len() {
        return false;
    }
    let off = v.len() - w.len();
    let mut i: usize = 0;
    while i < w.len()
        invariant
            w@ == lit@,
            w.len() <= v.len(),
            off == v.len() - w.len(),
            i <= w.len(),
            forall|j: int| 0 <= j < i ==> v@[off + j] == w@[j],
        decreases w.len() - i,
    {
        if v[off + i] != w[i] {
            assert(v@.subrange(off as int, v.len() as int)[i as int] != w@[i as int]);
            return false;
        }
        i = i + 1;
    }
    assert(v@.subrange(off as int, v.len() as int) =~= w@);
    true
}

/// `v` starts with the characters of `lit`.
pub fn chars_start_with(v: &Vec<char>, lit: &str) -> (r: bool)
    ensures
        r == has_prefix(v@, lit@),
{
    let w = chars_of(lit);
    if w.len() > v.len() {
        return false;
    }
    let mut i: usize = 0;
    while i < w.len()
        invariant
            w@ == lit@,
            w.len() <= v.len(),
            i <= w.len(),
            forall|j: int| 0 <= j < i ==> v@[j] == w@[j],
        decreases w.len() - i,
    {
        if v[i] != w[i] {
            assert(v@.subrange(0, w.len() as int)[i as int] != w@[i as int]);
            return false;
        }
        i = i + 1;
    }
    assert(v@.subrange(0, w.len() as int) =~= w@);
    true
}

/// `v` contains the character `c`.
pub fn chars_contain(v: &Vec<char>, c: char) -> (r: bool)
    ensures
        r == v@.contains(c),
{
    let mut i: usize = 0;
    while i < v.len()
        invariant
            i <= v.len(),
            forall|j: int| 0 <= j < i ==> v@[j] != c,
        decreases v.len() - i,
    {
        if v[i] == c {
            return true;
        }
        i = i + 1;
    }
    false
}

/// Index of the first non-space character of `v` at or after `start`.
fn first_fail_from(v: &Vec<char>, start: usize) -> (r: usize)
    requires
        start <= v.len(),
    ensures
        start <= r <= v.len(),
        forall|i: int| start <= i < r ==> is_space(#[trigger] v@[i]),
        r < v.len() ==> !is_space(v@[r as int]),
{
    let mut i = start;
    while i < v.len() && char_is_space(v[i])
        invariant
            start <= i <= v.len(),
            forall|j: int| start <= j < i ==> is_space(#[trigger] v@[j]),
        decreases v.len() - i,
    {
        i = i + 1;
    }
    i
}

pub proof fn lemma_lead_count_exact(s: Seq<char>, p: spec_fn(char) -> bool, k: int)
    requires
        0 <= k <= s.len(),
        forall|i: int| 0 <= i < k ==> p(#[trigger] s[i]),
        k < s.len() ==> !p(s[k]),
    ensures
        lead_count(s, p) == k,
    decreases s.len(),
{
    if k > 0 {
        assert(p(s[0]));
        assert forall|i: int| 0 <= i < k - 1 implies p(#[trigger] s.drop_first()[i]) by {
            assert(s.drop_first()[i] == s[i + 1]);
        }
        if k - 1 < s.drop_first().len() {
            assert(s.drop_first()[k - 1] == s[k]);
        }
        lemma_lead_count_exact(s.drop_first(), p, k - 1);
    }
}

pub proof fn lemma_trail_count_exact(s: Seq<char>, p: spec_fn(char) -> bool, k: int)
    requires
        0 <= k <= s.len(),
        forall|i: int| s.len() - k <= i < s.len() ==> p(#[trigger] s[i]),
        k < s.len() ==> !p(s[s.len() - 1 - k]),
    ensures
        trail_count(s, p) == k,
    decreases s.len(),
{
    if k > 0 {
        assert(p(s[s.len() - 1]));
        assert forall|i: int| s.drop_last().len() - (k - 1) <= i < s.drop_last().len() implies p(
            #[trigger] s.drop_last()[i],
        ) by {
            assert(s.drop_last()[i] == s[i]);
        }
        if k - 1 < s.drop_last().len() {
            assert(s.drop_last()[s.drop_last().len() - 1 - (k - 1)] == s[s.len() - 1 - k]);
        }
        lemma_trail_count_exact(s.drop_last(), p, k - 1);
    }
}

/// `str::trim` on a vector of characters.
pub fn trim_chars(v: &Vec<char>) -> (r: Vec<char>)
    ensures
        r@ == trim_spaces(v@),
{
    let ghost p = |c: char| is_space(c);
    let front = first_fail_from(v, 0);
    proof {
        lemma_lead_count_exact(v@, p, front as int);
    }
    if front == v.len() {
        return Vec::new();
    }
    let mut back = v.len();
    while back > front && char_is_space(v[back - 1])
        invariant
            front < v.len(),
            front <= back <= v.len(),
            forall|j: int| back <= j < v.len() ==> is_space(#[trigger] v@[j]),
        decreases back,
    {
        back = back - 1;
    }
    proof {
        assert(!is_space(v@[front as int]));
        lemma_trail_count_exact(v@, p, v.len() - back);
    }
    let mut r: Vec<char> = Vec::new();
    let mut i = front;
    while i < back
        invariant
            front <= i <= back <= v.len(),
            r@ == v@.subrange(front as int, i as int),
        decreases back - i,
    {
        r.push(v[i]);
        i = i + 1;
    }
    r
}

/// The decimal digit character for `d < 10`.
pub open spec fn digit_char(d: nat) -> char {
    ((d + 48) as u32) as char
}

/// Decimal text of a natural number, as `Display` writes it.
pub open spec fn nat_text(n: nat) -> Seq<char>
    decreases n,
{
    if n < 10 {
        seq![digit_char(n)]
    } else {
        nat_text(n / 10).push(digit_char(n % 10))
    }
}

/// Decimal text of an integer, as `Display` writes it.
pub open spec fn int_text(n: int) -> Seq<char> {
    if n < 0 {
        seq!['-'] + nat_text((-n) as nat)
    } else {
        nat_text(n as nat)
    }
}

fn digit(d: u64) -> (c: char)
    requires
        d < 10,
    ensures
        c == digit_char(d as nat),
{
    ((d as u8) + 48) as char
}

/// Decimal text of `n`.
pub fn u64_text(n: u64) -> (s: String)
    ensures
        s@ == nat_text(n as nat),
    decreases n,
{
    if n < 10 {
        let mut s = String::new();
        push_char(&mut s, digit(n));
        s
    } else {
        let mut s = u64_text(n / 10);
        push_char(&mut s, digit(n % 10));
        s
    }
}

/// Decimal text of `n`, with a leading `-` when negative.
pub fn i64_text(n: i64) -> (s: String)
    ensures
        s@ == int_text(n as int),
{
    if n < 0 {
        let magnitude: u64 = ((-(n + 1)) as u64) + 1;
        let digits = u64_text(magnitude);
        let mut s = String::new();
        push_char(&mut s, '-');
        s.append(digits.as_str());
        assert(s@ == seq!['-'] + nat_text((-n) as nat));
        s
    } else {
        u64_text(n as u64)
    }
}

/// `v` contains `pat` as a contiguous run starting at some position.
pub open spec fn contains_run(v: Seq<char>, pat: Seq<char>) -> bool {
    exists|i: int| 0 <= i && i + pat.len() <= v.len() && #[trigger] v.subrange(i, i + pat.len()) == pat
}

/// `v` contains the characters of `lit` as a contiguous run.
pub fn chars_contain_run(v: &Vec<char>, lit: &str) -> (r: bool)
    ensures
        r == contains_run(v@, lit@),
{
    let w = chars_of(lit);
    if w.len() > v.len() {
        return false;
    }
    if w.len() == 0 {
        assert(v@.subrange(0, 0 + w@.len() as int) =~= w@);
        assert(lit@.len() == 0);
        return true;
    }
    let last = v.len() - w.len();
    let mut i: usize = 0;
    while i < last + 1
        invariant
            w.len() >= 1,
            w@ == lit@,
            w.len() <= v.len(),
            last == v.len() - w.len(),
            i <= last + 1,
            forall|k: int| 0 <= k < i ==> #[trigger] v@.subrange(k, k + w.len()) != w@,
        decreases last + 1 - i,
    {
        let mut j: usize = 0;
        let mut same = true;
        while j < w.len()
            invariant
                w.len() <= v.len(),
                i <= last,
                last == v.len() - w.len(),
                j <= w.len(),
                same ==> forall|m: int| 0 <= m < j ==> v@[i + m] == w@[m],
                !same ==> v@.subrange(i as int, i + w.len()) != w@,
            decreases w.len() - j,
        {
            if same && v[i + j] != w[j] {
                same = false;
                assert(v@.subrange(i as int, i + w.len())[j as int] != w@[j as int]);
            }
            j = j + 1;
        }
        if same {
            assert(v@.subrange(i as int, i + w.len()) =~= w@);
            return true;
        }
        i = i + 1;
    }
    proof {
        assert forall|k: int| 0 <= k && k + w@.len() <= v@.len() implies #[trigger] v@.subrange(
            k,
            k + w@.len(),
        ) != w@ by {}
    }
    false
}

/// What `str::to_lowercase` returns: the Unicode lower-case mapping.
pub uninterp spec fn unicode_lowercase(s: Seq<char>) -> Seq<char>;

/// `str::to_lowercase`. The contract names its result and claims one fact of
/// it: a string of ASCII characters only is lower-cased character by
/// character, `A`-`Z` to `a`-`z`. Nothing is said of other characters.
#[verifier::external_body]
pub(crate) fn to_lowercase(s: &str) -> (r: String)
    ensures
        r@ == unicode_lowercase(s@),
        (forall|i: int| 0 <= i < s@.len() ==> (#[trigger] s@[i] as u32) < 128) ==> r@ == lower_seq(
            s@,
        ),
{
    s.to_lowercase()
}

/// Position of the first `c` in `s`, or -1.
pub open spec fn first_index(s: Seq<char>, c: char) -> int
    decreases s.len(),
{
    if s.len() == 0 {
        -1
    } else if s[0] == c {
        0
    } else {
        let r = first_index(s.drop_first(), c);
        if r < 0 {
            -1
        } else {
            r + 1
        }
    }
}

pub proof fn lemma_first_index_exact(s: Seq<char>, c: char, k: int)
    requires
        0 <= k <= s.len(),
        forall|j: int| 0 <= j < k ==> s[j] != c,
        k < s.len() ==> s[k] == c,
    ensures
        first_index(s, c) == (if k < s.len() {
            k
        } else {
            -1
        }),
    decreases s.len(),
{
    if s.len() > 0 && k > 0 {
        assert forall|j: int| 0 <= j < k - 1 implies s.drop_first()[j] != c by {
            assert(s.drop_first()[j] == s[j + 1]);
        }
        if k < s.len() {
            assert(s.drop_first()[k - 1] == s[k]);
        }
        lemma_first_index_exact(s.drop_first(), c, k - 1);
    }
}

pub proof fn lemma_first_index_bound(s: Seq<char>, c: char)
    ensures
        -1 <= first_index(s, c) < s.len(),
        first_index(s, c) >= 0 ==> s[first_index(s, c)] == c,
    decreases s.len(),
{
    if s.len() > 0 && s[0] != c {
        lemma_first_index_bound(s.drop_first(), c);
    }
}

/// Index of the first `c` in `v`.
pub fn find_char(v: &Vec<char>, c: char) -> (r: Option<usize>)
    ensures
        match r {
            Some(i) => i < v.len() && first_index(v@, c) == i as int,
            None => first_index(v@, c) == -1,
        },
{
    let mut i: usize = 0;
    while i < v.len()
        invariant
            i <= v.len(),
            forall|j: int| 0 <= j < i ==> v@[j] != c,
        decreases v.len() - i,
    {
        if v[i] == c {
            proof {
                lemma_first_index_exact(v@, c, i as int);
            }
            return Some(i);
        }
        i = i + 1;
    }
    proof {
        lemma_first_index_exact(v@, c, v.len() as int);
    }
    None
}

/// Position where `pat` first occurs in `s`, or -1.
pub open spec fn first_run(s: Seq<char>, pat: Seq<char>) -> int
    decreases s.len(),
{
    if s.len() < pat.len() {
        -1
    } else if s.subrange(0, pat.len() as int) == pat {
        0
    } else if s.len() == 0 {
        -1
    } else {
        let r = first_run(s.drop_first(), pat);
        if r < 0 {
            -1
        } else {
            r + 1
        }
    }
}

pub proof fn lemma_first_run_exact(s: Seq<char>, pat: Seq<char>, k: int)
    requires
        pat.len() > 0,
        0 <= k,
        k + pat.len() <= s.len() + 1,
        forall|j: int| 0 <= j < k ==> #[trigger] s.subrange(j, j + pat.len()) != pat,
        k + pat.len() <= s.len() ==> s.subrange(k, k + pat.len()) == pat,
    ensures
        first_run(s, pat) == (if k + pat.len() <= s.len() {
            k
        } else {
            -1
        }),
    decreases s.len(),
{
    if s.len() < pat.len() {
    } else if k == 0 {
    } else {
        assert(s.subrange(0, 0 + pat.len() as int) != pat);
        let t = s.drop_first();
        assert forall|j: int| 0 <= j < k - 1 implies #[trigger] t.subrange(j, j + pat.len())
            != pat by {
            assert(t.subrange(j, j + pat.len()) =~= s.subrange(j + 1, j + 1 + pat.len()));
        }
        if k + pat.len() <= s.len() {
            assert(t.subrange(k - 1, k - 1 + pat.len()) =~= s.subrange(k, k + pat.len()));
        }
        lemma_first_run_exact(t, pat, k - 1);
    }
}

/// Index of the first occurrence of the non-empty run `pat` in `v`.
pub fn find_run(v: &Vec<char>, pat: &Vec<char>) -> (r: Option<usize>)
    requires
        pat.len() > 0,
    ensures
        match r {
            Some(i) => i + pat.len() <= v.len() && first_run(v@, pat@) == i as int,
            None => first_run(v@, pat@) == -1,
        },
{
    if pat.len() > v.len() {
        return None;
    }
    let count = v.len() - pat.len() + 1;
    let mut i: usize = 0;
    while i < count
        invariant
            pat.len() > 0,
            pat.len() <= v.len(),
            count == v.len() - pat.len() + 1,
            i <= count,
            forall|j: int| 0 <= j < i ==> #[trigger] v@.subrange(j, j + pat.len()) != pat@,
        decreases count - i,
    {
        let mut j: usize = 0;
        let mut same = true;
        while j < pat.len()
            invariant
                pat.len() <= v.len(),
                i < count,
                count == v.len() - pat.len() + 1,
                j <= pat.len(),
                same ==> forall|m: int| 0 <= m < j ==> v@[i + m] == pat@[m],
                !same ==> v@.subrange(i as int, i + pat.len()) != pat@,
            decreases pat.len() - j,
        {
            if same && v[i + j] != pat[j] {
                same = false;
                assert(v@.subrange(i as int, i + pat.len())[j as int] != pat@[j as int]);
            }
            j = j + 1;
        }
        if same {
            assert(v@.subrange(i as int, i + pat.len()) =~= pat@);
            proof {
                lemma_first_run_exact(v@, pat@, i as int);
            }
            return Some(i);
        }
        i = i + 1;
    }
    proof {
        lemma_first_run_exact(v@, pat@, count as int);
    }
    None
}

/// The characters of `v` from `start` up to `end`.
pub fn sub_chars(v: &Vec<char>, start: usize, end: usize) -> (r: Vec<char>)
    requires
        start <= end <= v.len(),
    ensures
        r@ == v@.subrange(start as int, end as int),
{
    let mut r: Vec<char> = Vec::new();
    let mut i = start;
    while i < end
        invariant
            start <= i <= end <= v.len(),
            r@ == v@.subrange(start as int, i as int),
        decreases end - i,
    {
        r.push(v[i]);
        i = i + 1;
    }
    r
}

/// Number of leading copies of `c` in `s`.
pub open spec fn lead_eq(s: Seq<char>, c: char) -> nat
    decreases s.len(),
{
    if s.len() == 0 || s[0] != c {
        0
    } else {
        1 + lead_eq(s.drop_first(), c)
    }
}

/// Number of trailing copies of `c` in `s`.
pub open spec fn trail_eq(s: Seq<char>, c: char) -> nat
    decreases s.len(),
{
    if s.len() == 0 || s.last() != c {
        0
    } else {
        1 + trail_eq(s.drop_last(), c)
    }
}

/// `s` with leading and trailing `c` removed (`str::trim_matches` with a char).
pub open spec fn trim_char(s: Seq<char>, c: char) -> Seq<char> {
    let front = lead_eq(s, c);
    if front == s.len() {
        Seq::empty()
    } else {
        s.subrange(front as int, s.len() - trail_eq(s, c))
    }
}

pub proof fn lemma_lead_eq_exact(s: Seq<char>, c: char, k: int)
    requires
        0 <= k <= s.len(),
        forall|i: int| 0 <= i < k ==> #[trigger] s[i] == c,
        k < s.len() ==> s[k] != c,
    ensures
        lead_eq(s, c) == k,
    decreases s.len(),
{
    if k > 0 {
        assert(s[0] == c);
        assert forall|i: int| 0 <= i < k - 1 implies #[trigger] s.drop_first()[i] == c by {
            assert(s.drop_first()[i] == s[i + 1]);
        }
        if k - 1 < s.drop_first().len() {
            assert(s.drop_first()[k - 1] == s[k]);
        }
        lemma_lead_eq_exact(s.drop_first(), c, k - 1);
    }
}

pub proof fn lemma_trail_eq_exact(s: Seq<char>, c: char, k: int)
    requires
        0 <= k <= s.len(),
        forall|i: int| s.len() - k <= i < s.len() ==> #[trigger] s[i] == c,
        k < s.len() ==> s[s.len() - 1 - k] != c,
    ensures
        trail_eq(s, c) == k,
    decreases s.len(),
{
    if k > 0 {
        assert(s[s.len() - 1] == c);
        assert forall|i: int| s.drop_last().len() - (k - 1) <= i < s.drop_last().len() implies
            #[trigger] s.drop_last()[i] == c by {
            assert(s.drop_last()[i] == s[i]);
        }
        if k - 1 < s.drop_last().len() {
            assert(s.drop_last()[s.drop_last().len() - 1 - (k - 1)] == s[s.len() - 1 - k]);
        }
        lemma_trail_eq_exact(s.drop_last(), c, k - 1);
    }
}

/// `str::trim_matches(c)` on a vector of characters.
pub fn trim_char_chars(v: &Vec<char>, c: char) -> (r: Vec<char>)
    ensures
        r@ == trim_char(v@, c),
{
    let mut front: usize = 0;
    while front < v.len() && v[front] == c
        invariant
            front <= v.len(),
            forall|j: int| 0 <= j < front ==> #[trigger] v@[j] == c,
        decreases v.len() - front,
    {
        front = front + 1;
    }
    proof {
        lemma_lead_eq_exact(v@, c, front as int);
    }
    if front == v.len() {
        return Vec::new();
    }
    let mut back = v.len();
    while back > front && v[back - 1] == c
        invariant
            front < v.len(),
            front <= back <= v.len(),
            forall|j: int| back <= j < v.len() ==> #[trigger] v@[j] == c,
        decreases back,
    {
        back = back - 1;
    }
    proof {
        assert(v@[front as int] != c);
        lemma_trail_eq_exact(v@, c, v.len() - back);
    }
    sub_chars(v, front, back)
}

} // verus!
