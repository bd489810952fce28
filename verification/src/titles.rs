//! Title matching used when episodes are filed under a series: titles are
//! normalised (case, punctuation, a leading "the", white space) and two
//! titles are similar when they normalise alike or share enough words.
use vstd::prelude::*;
use crate::text::{chars_of, char_is_space, is_space, string_of, to_lowercase, unicode_lowercase, trim_chars, trim_spaces};

verus! {

/// Number of leading white-space characters.
pub open spec fn space_run(s: Seq<char>) -> nat
    decreases s.len(),
{
    if s.len() == 0 || !is_space(s[0]) {
        0
    } else {
        1 + space_run(s.drop_first())
    }
}

/// Number of leading non-white-space characters.
pub open spec fn word_run(s: Seq<char>) -> nat
    decreases s.len(),
{
    if s.len() == 0 || is_space(s[0]) {
        0
    } else {
        1 + word_run(s.drop_first())
    }
}

pub proof fn lemma_space_run(s: Seq<char>)
    ensures
        space_run(s) <= s.len(),
        space_run(s) < s.len() ==> !is_space(s[space_run(s) as int]),
    decreases s.len(),
{
    if s.len() > 0 && is_space(s[0]) {
        lemma_space_run(s.drop_first());
    }
}

pub proof fn lemma_word_run(s: Seq<char>)
    ensures
        word_run(s) <= s.len(),
        s.len() > 0 && !is_space(s[0]) ==> word_run(s) >= 1,
        forall|i: int| 0 <= i < word_run(s) ==> !is_space(#[trigger] s[i]),
        word_run(s) < s.len() ==> is_space(s[word_run(s) as int]),
    decreases s.len(),
{
    if s.len() > 0 && !is_space(s[0]) {
        lemma_word_run(s.drop_first());
        assert forall|i: int| 0 <= i < word_run(s) implies !is_space(#[trigger] s[i]) by {
            if i > 0 {
                assert(s[i] == s.drop_first()[i - 1]);
            }
        }
    }
}

/// The words of `s`: its maximal runs of non-white-space characters, in
/// order (what `str::split_whitespace` yields).
pub open spec fn words(s: Seq<char>) -> Seq<Seq<char>>
    decreases s.len(),
{
    let t = s.subrange(space_run(s) as int, s.len() as int);
    if space_run(s) >= s.len() {
        Seq::empty()
    } else {
        let w = word_run(t);
        proof {
            lemma_space_run(s);
            lemma_word_run(t);
        }
        seq![t.subrange(0, w as int)] + words(t.subrange(w as int, t.len() as int))
    }
}

/// Words joined with one `sep` between neighbours.
pub open spec fn joined_words(ws: Seq<Seq<char>>, sep: char) -> Seq<char>
    decreases ws.len(),
{
    if ws.len() == 0 {
        Seq::empty()
    } else if ws.len() == 1 {
        ws[0]
    } else {
        joined_words(ws.drop_last(), sep) + seq![sep] + ws.last()
    }
}

/// What one character becomes in a normalised title: `&` becomes `and`,
/// apostrophes and colons vanish, `-`, `_` and `.` become spaces.
pub open spec fn expand_char(c: char) -> Seq<char> {
    if c == '&' {
        "and"@
    } else if c == '\'' || c == ':' {
        Seq::empty()
    } else if c == '-' || c == '_' || c == '.' {
        " "@
    } else {
        seq![c]
    }
}

pub open spec fn expanded(s: Seq<char>) -> Seq<char>
    decreases s.len(),
{
    if s.len() == 0 {
        Seq::empty()
    } else {
        expanded(s.drop_last()) + expand_char(s.last())
    }
}

/// A normalised title: lower-cased, punctuation replaced, a leading `the `
/// dropped, and white space collapsed to single spaces with none at the ends.
pub open spec fn normalized_title(title: Seq<char>) -> Seq<char> {
    normalized_lowercase(unicode_lowercase(title))
}

/// The normalisation of a title already in lower case: `&` spelled out,
/// apostrophes and colons dropped, `-`, `_` and `.` made spaces, a leading
/// `the ` removed, and the words joined by single spaces.
pub open spec fn normalized_lowercase(lower: Seq<char>) -> Seq<char> {
    let e = expanded(lower);
    let s = if e.len() >= 4 && e.subrange(0, 4) == "the "@ {
        e.subrange(4, e.len() as int)
    } else {
        e
    };
    joined_words(words(s), ' ')
}

fn append_expansion(out: &mut Vec<char>, c: char)
    ensures
        final(out)@ == old(out)@ + expand_char(c),
{
    proof {
        reveal_strlit("and");
        reveal_strlit(" ");
    }
    if c == '&' {
        out.push('a');
        out.push('n');
        out.push('d');
        assert(final(out)@ =~= old(out)@ + "and"@);
    } else if c == '\'' || c == ':' {
        assert(old(out)@ + Seq::<char>::empty() =~= old(out)@);
    } else if c == '-' || c == '_' || c == '.' {
        out.push(' ');
        assert(final(out)@ =~= old(out)@ + " "@);
    } else {
        out.push(c);
        assert(final(out)@ =~= old(out)@ + seq![c]);
    }
}

/// The words of `v` from position `start`, and the position after the first.
fn next_word(v: &Vec<char>, start: usize) -> (r: Option<(Vec<char>, usize)>)
    requires
        start <= v.len(),
    ensures
        match r {
            None => words(v@.subrange(start as int, v.len() as int)).len() == 0,
            Some((w, next)) => start < next <= v.len() && words(v@.subrange(start as int, v.len() as int))
                == seq![w@] + words(v@.subrange(next as int, v.len() as int)),
        },
{
    let ghost s = v@.subrange(start as int, v.len() as int);
    let mut i = start;
    while i < v.len() && char_is_space(v[i])
        invariant
            start <= i <= v.len(),
            forall|j: int| start <= j < i ==> is_space(#[trigger] v@[j]),
        decreases v.len() - i,
    {
        i = i + 1;
    }
    proof {
        lemma_space_run_exact(s, (i - start) as int);
    }
    if i == v.len() {
        return None;
    }
    let word_start = i;
    while i < v.len() && !char_is_space(v[i])
        invariant
            word_start <= i <= v.len(),
            word_start < v.len(),
            forall|j: int| word_start <= j < i ==> !is_space(#[trigger] v@[j]),
        decreases v.len() - i,
    {
        i = i + 1;
    }
    let ghost t = s.subrange(space_run(s) as int, s.len() as int);
    assert(t =~= v@.subrange(word_start as int, v.len() as int));
    proof {
        lemma_word_run_exact(t, (i - word_start) as int);
    }
    let w = crate::text::sub_chars(v, word_start, i);
    assert(t.subrange(0, word_run(t) as int) =~= w@);
    assert(t.subrange(word_run(t) as int, t.len() as int) =~= v@.subrange(i as int, v.len() as int));
    Some((w, i))
}

proof fn lemma_space_run_exact(s: Seq<char>, k: int)
    requires
        0 <= k <= s.len(),
        forall|i: int| 0 <= i < k ==> is_space(#[trigger] s[i]),
        k < s.len() ==> !is_space(s[k]),
    ensures
        space_run(s) == k,
    decreases s.len(),
{
    if k > 0 {
        assert forall|i: int| 0 <= i < k - 1 implies is_space(#[trigger] s.drop_first()[i]) by {
            assert(s.drop_first()[i] == s[i + 1]);
        }
        if k < s.len() {
            assert(s.drop_first()[k - 1] == s[k]);
        }
        lemma_space_run_exact(s.drop_first(), k - 1);
    }
}

proof fn lemma_word_run_exact(s: Seq<char>, k: int)
    requires
        0 <= k <= s.len(),
        forall|i: int| 0 <= i < k ==> !is_space(#[trigger] s[i]),
        k < s.len() ==> is_space(s[k]),
    ensures
        word_run(s) == k,
    decreases s.len(),
{
    if k > 0 {
        assert forall|i: int| 0 <= i < k - 1 implies !is_space(#[trigger] s.drop_first()[i]) by {
            assert(s.drop_first()[i] == s[i + 1]);
        }
        if k < s.len() {
            assert(s.drop_first()[k - 1] == s[k]);
        }
        lemma_word_run_exact(s.drop_first(), k - 1);
    }
}

pub open spec fn views_of(ws: Seq<Vec<char>>) -> Seq<Seq<char>> {
    ws.map_values(|w: Vec<char>| w@)
}

/// The words of `v` (`str::split_whitespace`).
pub fn split_words(v: &Vec<char>) -> (r: Vec<Vec<char>>)
    ensures
        views_of(r@) == words(v@),
{
    let mut out: Vec<Vec<char>> = Vec::new();
    let mut pos: usize = 0;
    assert(v@.subrange(0, v.len() as int) =~= v@);
    loop
        invariant
            pos <= v.len(),
            views_of(out@) + words(v@.subrange(pos as int, v.len() as int)) == words(v@),
        decreases v.len() - pos,
    {
        match next_word(v, pos) {
            None => {
                assert(views_of(out@) + words(v@.subrange(pos as int, v.len() as int)) =~= views_of(out@));
                return out;
            },
            Some((w, next)) => {
                let ghost before = views_of(out@);
                out.push(w);
                assert(views_of(out@) =~= before.push(w@));
                assert(views_of(out@) + words(v@.subrange(next as int, v.len() as int)) =~= before + words(
                    v@.subrange(pos as int, v.len() as int),
                ));
                pos = next;
            },
        }
    }
}

/// Words joined with one `sep` between neighbours.
pub fn join_words(ws: &Vec<Vec<char>>, sep: char) -> (r: Vec<char>)
    ensures
        r@ == joined_words(views_of(ws@), sep),
{
    let mut out: Vec<char> = Vec::new();
    let mut i: usize = 0;
    while i < ws.len()
        invariant
            i <= ws.len(),
            out@ == joined_words(views_of(ws@).take(i as int), sep),
        decreases ws.len() - i,
    {
        let ghost before = out@;
        if i > 0 {
            out.push(sep);
        }
        let w = &ws[i];
        let mut j: usize = 0;
        let ghost mid = out@;
        while j < w.len()
            invariant
                j <= w.len(),
                out@ == mid + w@.subrange(0, j as int),
            decreases w.len() - j,
        {
            out.push(w[j]);
            j = j + 1;
        }
        proof {
            let t = views_of(ws@).take(i + 1);
            assert(t.drop_last() =~= views_of(ws@).take(i as int));
            assert(t.last() == w@);
            if i == 0 {
                assert(out@ =~= w@);
            } else {
                assert(out@ =~= before + seq![sep] + w@);
            }
        }
        i = i + 1;
    }
    assert(views_of(ws@).take(ws.len() as int) =~= views_of(ws@));
    out
}

/// The normalised form of `title`, used to compare series titles.
pub fn normalize_title_for_db(title: &str) -> (r: String)
    ensures
        r@ == normalized_title(title@),
{
    let lower = to_lowercase(title);
    normalize_lowercase_title(lower.as_str())
}

/// The normalised form of a title already lower-cased.
pub fn normalize_lowercase_title(lowered: &str) -> (r: String)
    ensures
        r@ == normalized_lowercase(lowered@),
{
    let lower = chars_of(lowered);
    let mut e: Vec<char> = Vec::new();
    let mut i: usize = 0;
    while i < lower.len()
        invariant
            i <= lower.len(),
            e@ == expanded(lower@.subrange(0, i as int)),
        decreases lower.len() - i,
    {
        let ghost before = e@;
        append_expansion(&mut e, lower[i]);
        assert(lower@.subrange(0, i + 1).drop_last() =~= lower@.subrange(0, i as int));
        i = i + 1;
    }
    assert(lower@.subrange(0, lower.len() as int) =~= lower@);
    let the = chars_of("the ");
    proof {
        reveal_strlit("the ");
    }
    let strip = e.len() >= 4 && e[0] == 't' && e[1] == 'h' && e[2] == 'e' && e[3] == ' ';
    assert(strip == (e@.len() >= 4 && e@.subrange(0, 4) == "the "@)) by {
        if e@.len() >= 4 {
            if strip {
                assert(e@.subrange(0, 4) =~= "the "@);
            } else {
                if e@.subrange(0, 4) == "the "@ {
                    assert(e@[0] == e@.subrange(0, 4)[0]);
                    assert(e@[1] == e@.subrange(0, 4)[1]);
                    assert(e@[2] == e@.subrange(0, 4)[2]);
                    assert(e@[3] == e@.subrange(0, 4)[3]);
                }
            }
        }
    }
    let s = if strip {
        crate::text::sub_chars(&e, 4, e.len())
    } else {
        e
    };
    let ws = split_words(&s);
    string_of(&join_words(&ws, ' '))
}

/// The distinct words of a title, as a set.
pub open spec fn word_set(s: Seq<char>) -> Set<Seq<char>> {
    words(s).to_set()
}

/// Two titles are similar when they normalise to the same text; otherwise,
/// with both having at least two distinct words and sharing one, when a
/// title of two words shares all of them with the other (or the smaller
/// word count is two), or, for longer titles, when the shared words are at
/// least two, at most one short of the smaller count, and at least 60% of
/// all distinct words.
pub open spec fn similar_titles(a: Seq<char>, b: Seq<char>) -> bool {
    let na = normalized_title(a);
    let nb = normalized_title(b);
    if na == nb {
        true
    } else {
        let wa = word_set(na);
        let wb = word_set(nb);
        let la = wa.len();
        let lb = wb.len();
        let shared = wa.intersect(wb).len();
        let all = (wa + wb).len();
        let smaller = if la < lb {
            la
        } else {
            lb
        };
        if la <= 1 || lb <= 1 {
            false
        } else if shared == 0 {
            false
        } else if smaller <= 2 {
            shared == smaller
        } else {
            shared >= smaller - 1 && shared >= 2 && 5 * shared >= 3 * all
        }
    }
}

/// Similarity does not depend on the order of the two titles, and every
/// title is similar to itself.
pub proof fn lemma_similarity_symmetric(a: Seq<char>, b: Seq<char>)
    ensures
        similar_titles(a, b) == similar_titles(b, a),
        similar_titles(a, a),
{
    let wa = word_set(normalized_title(a));
    let wb = word_set(normalized_title(b));
    assert(wa.intersect(wb) =~= wb.intersect(wa));
    assert(wa + wb =~= wb + wa);
}

/// Titles that normalise differently and have more than two distinct words
/// each are similar only when they share at least two words, at most one
/// short of the smaller title's count, and the shared words are at least 60%
/// of all their distinct words (`5 * shared >= 3 * all`). So two such titles
/// sharing two of five distinct words are never similar.
pub proof fn lemma_similar_titles_share_most_words(a: Seq<char>, b: Seq<char>)
    requires
        normalized_title(a) != normalized_title(b),
        word_set(normalized_title(a)).len() > 2,
        word_set(normalized_title(b)).len() > 2,
        similar_titles(a, b),
    ensures
        word_set(normalized_title(a)).intersect(word_set(normalized_title(b))).len() >= 2,
        word_set(normalized_title(a)).intersect(word_set(normalized_title(b))).len() + 1 >= word_set(
            normalized_title(a),
        ).len() || word_set(normalized_title(a)).intersect(word_set(normalized_title(b))).len() + 1
            >= word_set(normalized_title(b)).len(),
        5 * word_set(normalized_title(a)).intersect(word_set(normalized_title(b))).len() >= 3 * word_set(
            normalized_title(a),
        ).union(word_set(normalized_title(b))).len(),
{
}

proof fn lemma_push_to_set(s: Seq<Seq<char>>, x: Seq<char>)
    ensures
        s.push(x).to_set() == s.to_set().insert(x),
{
    assert forall|a: Seq<char>| s.push(x).contains(a) <==> (s.contains(a) || a == x) by {
        if s.contains(a) {
            let k = choose|k: int| 0 <= k < s.len() && s[k] == a;
            assert(s.push(x)[k] == a);
        }
        if a == x {
            assert(s.push(x)[s.len() as int] == x);
        }
        if s.push(x).contains(a) {
            let k = choose|k: int| 0 <= k < s.push(x).len() && s.push(x)[k] == a;
            if k < s.len() {
                assert(s[k] == a);
            }
        }
    }
    assert forall|a: Seq<char>| #[trigger] s.push(x).to_set().contains(a) == s.to_set().insert(x).contains(
        a,
    ) by {
        assert(s.push(x).to_set().contains(a) == s.push(x).contains(a));
        assert(s.to_set().contains(a) == s.contains(a));
    }
    assert(s.push(x).to_set() =~= s.to_set().insert(x));
}

fn contains_word(list: &Vec<Vec<char>>, w: &Vec<char>) -> (r: bool)
    ensures
        r == views_of(list@).contains(w@),
{
    let mut i: usize = 0;
    while i < list.len()
        invariant
            i <= list.len(),
            forall|j: int| 0 <= j < i ==> list@[j]@ != w@,
        decreases list.len() - i,
    {
        if crate::config::vec_equal(&list[i], w) {
            assert(views_of(list@)[i as int] == w@);
            return true;
        }
        i = i + 1;
    }
    assert forall|j: int| 0 <= j < views_of(list@).len() implies views_of(list@)[j] != w@ by {}
    false
}

/// The distinct words of `ws`, in first-seen order.
fn distinct_words(ws: &Vec<Vec<char>>) -> (r: Vec<Vec<char>>)
    ensures
        views_of(r@).no_duplicates(),
        views_of(r@).to_set() == views_of(ws@).to_set(),
{
    let mut out: Vec<Vec<char>> = Vec::new();
    let mut i: usize = 0;
    while i < ws.len()
        invariant
            i <= ws.len(),
            views_of(out@).no_duplicates(),
            views_of(out@).to_set() == views_of(ws@).take(i as int).to_set(),
        decreases ws.len() - i,
    {
        let ghost before = views_of(out@);
        let w = ws[i].clone();
        assert(w@ == ws@[i as int]@);
        if !contains_word(&out, &w) {
            out.push(w);
            assert(views_of(out@) =~= before.push(ws@[i as int]@));
        }
        assert(views_of(ws@).take(i + 1) =~= views_of(ws@).take(i as int).push(ws@[i as int]@));
        proof {
            lemma_push_to_set(views_of(ws@).take(i as int), ws@[i as int]@);
            lemma_push_to_set(before, ws@[i as int]@);
            assert(views_of(out@).to_set() =~= views_of(ws@).take(i + 1).to_set());
        }
        i = i + 1;
    }
    assert(views_of(ws@).take(ws.len() as int) =~= views_of(ws@));
    out
}

/// Number of words of `a` (distinct) that also occur in `b`.
fn shared_count(a: &Vec<Vec<char>>, b: &Vec<Vec<char>>) -> (r: usize)
    requires
        views_of(a@).no_duplicates(),
    ensures
        r == views_of(a@).to_set().intersect(views_of(b@).to_set()).len(),
{
    let ghost sb = views_of(b@).to_set();
    let mut shared: Vec<Vec<char>> = Vec::new();
    let mut i: usize = 0;
    while i < a.len()
        invariant
            i <= a.len(),
            views_of(a@).no_duplicates(),
            sb == views_of(b@).to_set(),
            views_of(shared@).no_duplicates(),
            views_of(shared@).to_set() == views_of(a@).take(i as int).to_set().intersect(sb),
            forall|s: Seq<char>| views_of(shared@).contains(s) ==> views_of(a@).take(i as int).contains(s),
        decreases a.len() - i,
    {
        let ghost before = views_of(shared@);
        if contains_word(b, &a[i]) {
            let w = a[i].clone();
            assert(w@ == a@[i as int]@);
            proof {
                if before.contains(w@) {
                    let k = choose|k: int| 0 <= k < i && views_of(a@).take(i as int)[k] == w@;
                    assert(views_of(a@)[k] == views_of(a@)[i as int]);
                }
            }
            shared.push(w);
            assert(views_of(shared@) =~= before.push(a@[i as int]@));
        }
        assert(views_of(a@).take(i + 1) =~= views_of(a@).take(i as int).push(a@[i as int]@));
        proof {
            lemma_push_to_set(views_of(a@).take(i as int), a@[i as int]@);
            lemma_push_to_set(before, a@[i as int]@);
            assert(views_of(shared@).to_set() =~= views_of(a@).take(i + 1).to_set().intersect(sb));
            assert forall|t: Seq<char>| views_of(shared@).contains(t) implies views_of(a@).take(
                i + 1,
            ).contains(t) by {
                let k = choose|k: int| 0 <= k < views_of(shared@).len() && views_of(shared@)[k] == t;
                if k < before.len() {
                    assert(before[k] == t);
                    assert(before.contains(t));
                    let m = choose|m: int| 0 <= m < i && views_of(a@).take(i as int)[m] == t;
                    assert(views_of(a@).take(i + 1)[m] == t);
                } else {
                    assert(views_of(a@).take(i + 1)[i as int] == t);
                }
            }
        }
        i = i + 1;
    }
    assert(views_of(a@).take(a.len() as int) =~= views_of(a@));
    proof {
        views_of(shared@).unique_seq_to_set();
    }
    shared.len()
}

/// Whether two titles name the same series (see `similar_titles`).
pub fn titles_are_similar(a: &str, b: &str) -> (r: bool)
    ensures
        r == similar_titles(a@, b@),
{
    let na = normalize_title_for_db(a);
    let nb = normalize_title_for_db(b);
    let va = chars_of(na.as_str());
    let vb = chars_of(nb.as_str());
    if crate::config::vec_equal(&va, &vb) {
        return true;
    }
    let da = distinct_words(&split_words(&va));
    let db = distinct_words(&split_words(&vb));
    let ghost wa = word_set(na@);
    let ghost wb = word_set(nb@);
    proof {
        views_of(da@).unique_seq_to_set();
        views_of(db@).unique_seq_to_set();
    }
    let len_a = da.len();
    let len_b = db.len();
    if len_a <= 1 || len_b <= 1 {
        return false;
    }
    let shared = shared_count(&da, &db);
    if shared == 0 {
        return false;
    }
    proof {
        vstd::seq_lib::seq_to_set_is_finite(views_of(da@));
        vstd::seq_lib::seq_to_set_is_finite(views_of(db@));
        vstd::set_lib::lemma_set_intersect_union_lens(wa, wb);
    }
    let all: u128 = (len_a as u128) + (len_b as u128) - (shared as u128);
    let smaller = if len_a < len_b {
        len_a
    } else {
        len_b
    };
    if smaller <= 2 {
        return shared == smaller;
    }
    shared >= smaller - 1 && shared >= 2 && 5 * (shared as u128) >= 3 * all
}

/// The TMDB id an entry counts with when titles are grouped for merging:
/// its trimmed text, none when missing or blank.
pub open spec fn counted_tmdb(t: Option<Seq<char>>) -> Option<Seq<char>> {
    match t {
        Some(s) => if trim_spaces(s).len() > 0 {
            Some(trim_spaces(s))
        } else {
            None
        },
        None => None,
    }
}

/// Whether a group of series sharing a normalised title may be merged: at
/// least two of them, no two different TMDB ids among them, and no two
/// known years more than a year apart (shows of different eras stay apart).
pub open spec fn title_group_mergeable(tmdb_ids: Seq<Option<Seq<char>>>, years: Seq<Option<i32>>) -> bool {
    &&& tmdb_ids.len() >= 2
    &&& forall|i: int, j: int|
        0 <= i < tmdb_ids.len() && 0 <= j < tmdb_ids.len() && #[trigger] counted_tmdb(tmdb_ids[i]) is Some
            && #[trigger] counted_tmdb(tmdb_ids[j]) is Some ==> counted_tmdb(tmdb_ids[i]) == counted_tmdb(tmdb_ids[j])
    &&& forall|i: int, j: int|
        0 <= i < years.len() && 0 <= j < years.len() && #[trigger] years[i] is Some && #[trigger] years[j] is Some
            ==> years[i]->Some_0 - years[j]->Some_0 <= 1
}

pub open spec fn opt_views(v: Seq<Option<String>>) -> Seq<Option<Seq<char>>> {
    v.map_values(|o: Option<String>| match o {
        Some(s) => Some(s@),
        None => None,
    })
}

/// The merge guard over the TMDB ids and years of the series in one
/// normalised-title group (both lists in the same order).
pub fn may_merge_title_group(tmdb_ids: &Vec<Option<String>>, years: &Vec<Option<i32>>) -> (r: bool)
    requires
        tmdb_ids.len() == years.len(),
    ensures
        r == title_group_mergeable(opt_views(tmdb_ids@), years@),
{
    let ghost ids = opt_views(tmdb_ids@);
    if tmdb_ids.len() < 2 {
        return false;
    }
    // the first counted id, and the smallest and largest known years
    let mut first: Option<Vec<char>> = None;
    let mut i: usize = 0;
    while i < tmdb_ids.len()
        invariant
            i <= tmdb_ids.len(),
            ids == opt_views(tmdb_ids@),
            ids.len() == tmdb_ids.len(),
            match first {
                None => forall|k: int| 0 <= k < i ==> #[trigger] counted_tmdb(ids[k]) is None,
                Some(f) => (exists|k: int| 0 <= k < i && #[trigger] counted_tmdb(ids[k]) == Some(f@))
                    && forall|k: int| 0 <= k < i && #[trigger] counted_tmdb(ids[k]) is Some ==> counted_tmdb(ids[k])
                    == Some(f@),
            },
        decreases tmdb_ids.len() - i,
    {
        assert(ids[i as int] == match tmdb_ids@[i as int] {
            Some(s) => Some(s@),
            None => None::<Seq<char>>,
        });
        match &tmdb_ids[i] {
            Some(t) => {
                let trimmed = trim_chars(&chars_of(t.as_str()));
                if trimmed.len() > 0 {
                    match &first {
                        None => {
                            first = Some(trimmed);
                        },
                        Some(f) => {
                            if !crate::config::vec_equal(f, &trimmed) {
                                proof {
                                    let k = choose|k: int| 0 <= k < i && #[trigger] counted_tmdb(ids[k]) == Some(f@);
                                    assert(counted_tmdb(ids[k]) is Some && counted_tmdb(ids[i as int]) is Some);
                                }
                                return false;
                            }
                        },
                    }
                }
            },
            None => {},
        }
        i = i + 1;
    }
    let mut low: Option<i32> = None;
    let mut high: Option<i32> = None;
    let mut j: usize = 0;
    while j < years.len()
        invariant
            j <= years.len(),
            low is Some <==> high is Some,
            low is None ==> forall|k: int| 0 <= k < j ==> #[trigger] years@[k] is None,
            low matches Some(lo) ==> (exists|k: int| 0 <= k < j && #[trigger] years@[k] == Some(lo))
                && forall|k: int| 0 <= k < j && #[trigger] years@[k] is Some ==> lo <= years@[k]->Some_0,
            high matches Some(hi) ==> (exists|k: int| 0 <= k < j && #[trigger] years@[k] == Some(hi))
                && forall|k: int| 0 <= k < j && #[trigger] years@[k] is Some ==> years@[k]->Some_0 <= hi,
        decreases years.len() - j,
    {
        match years[j] {
            Some(y) => {
                low = match low {
                    Some(l) => if y < l { Some(y) } else { Some(l) },
                    None => Some(y),
                };
                high = match high {
                    Some(h) => if y > h { Some(y) } else { Some(h) },
                    None => Some(y),
                };
            },
            None => {},
        }
        j = j + 1;
    }
    match (low, high) {
        (Some(l), Some(h)) => {
            let spread: i64 = h as i64 - l as i64;
            if spread > 1 {
                proof {
                    let a = choose|k: int| 0 <= k < years.len() && #[trigger] years@[k] == Some(h);
                    let b = choose|k: int| 0 <= k < years.len() && #[trigger] years@[k] == Some(l);
                    assert(years@[a] is Some && years@[b] is Some);
                }
                false
            } else {
                true
            }
        },
        _ => true,
    }
}

/// Which series of a duplicate group is kept: the first with the highest
/// completeness score (10 for a TMDB id, 5 for a poster, 2 for an overview,
/// 1 for a year), and the first of the group when no score is positive.
pub open spec fn primary_index(scores: Seq<i32>) -> int
    decreases scores.len(),
{
    if scores.len() == 0 {
        0
    } else {
        let k = primary_index(scores.drop_last());
        let best = if k < scores.len() - 1 && scores[k] > 0 { scores[k] } else { 0 };
        if scores.last() > best {
            scores.len() - 1
        } else {
            k
        }
    }
}

/// The id of the series a duplicate group is merged into, given each
/// member's completeness score.
pub fn merge_primary(ids: &Vec<i64>, scores: &Vec<i32>) -> (r: i64)
    requires
        ids.len() == scores.len(),
        ids.len() >= 1,
    ensures
        r == ids@[primary_index(scores@)],
{
    proof {
        lemma_primary_index_bound(scores@);
    }
    let mut best_id: i64 = ids[0];
    let mut best_score: i32 = 0;
    let mut best_k: usize = 0;
    let mut i: usize = 0;
    while i < ids.len()
        invariant
            i <= ids.len(),
            ids.len() == scores.len(),
            ids.len() >= 1,
            best_k < ids.len(),
            best_id == ids@[best_k as int],
            i == 0 ==> best_k == 0 && best_score == 0,
            i > 0 ==> best_k as int == primary_index(scores@.subrange(0, i as int)),
            i > 0 ==> best_score == (if scores@[best_k as int] > 0 { scores@[best_k as int] } else { 0 }),
        decreases ids.len() - i,
    {
        let ghost prefix = scores@.subrange(0, i + 1);
        assert(prefix.drop_last() =~= scores@.subrange(0, i as int));
        proof {
            lemma_primary_index_bound(scores@.subrange(0, i as int));
            if i > 0 {
                assert(scores@.subrange(0, i as int)[best_k as int] == scores@[best_k as int]);
            }
        }
        if scores[i] > best_score {
            best_score = scores[i];
            best_id = ids[i];
            best_k = i;
        }
        i = i + 1;
    }
    assert(scores@.subrange(0, ids.len() as int) =~= scores@);
    best_id
}

/// The kept series has the highest score of its group, and no member
/// before it scores as high; when nothing scores above zero the first is
/// kept.
pub proof fn lemma_primary_is_first_best(scores: Seq<i32>)
    requires
        scores.len() >= 1,
    ensures
        0 <= primary_index(scores) < scores.len(),
        forall|j: int| 0 <= j < scores.len() && scores[j] > 0 ==> #[trigger] scores[j] <= scores[primary_index(scores)],
        scores[primary_index(scores)] > 0 ==> forall|j: int| 0 <= j < primary_index(scores) ==> #[trigger] scores[j]
            < scores[primary_index(scores)],
        scores[primary_index(scores)] <= 0 ==> primary_index(scores) == 0,
    decreases scores.len(),
{
    lemma_primary_index_bound(scores);
    if scores.len() > 1 {
        let t = scores.drop_last();
        lemma_primary_is_first_best(t);
        let k = primary_index(t);
        assert forall|j: int| 0 <= j < scores.len() - 1 implies #[trigger] scores[j] == t[j] by {}
        assert(scores[k] == t[k]);
    }
}

proof fn lemma_primary_index_bound(scores: Seq<i32>)
    ensures
        scores.len() > 0 ==> 0 <= primary_index(scores) < scores.len(),
        scores.len() == 0 ==> primary_index(scores) == 0,
    decreases scores.len(),
{
    if scores.len() > 0 {
        lemma_primary_index_bound(scores.drop_last());
    }
}

/// The path a cloud series is filed under: `gdrive:`, the folder id, `:`
/// and the title lower-cased with its words joined by `_`.
pub open spec fn cloud_show_path(folder_id: Seq<char>, show_title: Seq<char>) -> Seq<char> {
    "gdrive:"@ + folder_id + ":"@ + joined_words(words(unicode_lowercase(show_title)), '_')
}

pub fn cloud_tvshow_path(folder_id: &str, show_title: &str) -> (r: String)
    ensures
        r@ == cloud_show_path(folder_id@, show_title@),
{
    let lower = chars_of(to_lowercase(show_title).as_str());
    let ws = split_words(&lower);
    let slug = string_of(&join_words(&ws, '_'));
    let mut r = "gdrive:".to_owned();
    r.append(folder_id);
    r.append(":");
    r.append(slug.as_str());
    r
}

} // verus!
