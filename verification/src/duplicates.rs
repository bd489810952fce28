//! Duplicate detection over the library's movies and shows: entries that
//! share a TMDB id, and entries of one kind whose titles agree once case and
//! everything but letters and digits are set aside. The rows come from the
//! database; the grouping is decided here, on their ids, keys and titles.
use vstd::prelude::*;
use crate::text::{chars_of, string_of, to_lowercase, unicode_lowercase};

verus! {

/// Whether `char::is_alphanumeric` holds: the Unicode `Alphabetic` or
/// `Numeric` property.
pub uninterp spec fn unicode_alphanumeric(c: char) -> bool;

/// `char::is_alphanumeric`. The contract names its result and claims that an
/// ASCII character is alphanumeric exactly when it is a letter or a digit.
#[verifier::external_body]
fn char_is_alphanumeric(c: char) -> (r: bool)
    ensures
        r == unicode_alphanumeric(c),
        (c as u32) < 128 ==> r == crate::text::is_ascii_alnum(c),
{
    c.is_alphanumeric()
}

/// The characters of `s` that are alphanumeric, in order.
pub open spec fn alphanumeric_only(s: Seq<char>) -> Seq<char>
    decreases s.len(),
{
    if s.len() == 0 {
        s
    } else if unicode_alphanumeric(s.last()) {
        alphanumeric_only(s.drop_last()).push(s.last())
    } else {
        alphanumeric_only(s.drop_last())
    }
}

/// The key titles are compared by: lower-cased, letters and digits only.
pub open spec fn title_key(title: Seq<char>) -> Seq<char> {
    alphanumeric_only(unicode_lowercase(title))
}

pub fn duplicate_title_key(title: &str) -> (r: Vec<char>)
    ensures
        r@ == title_key(title@),
{
    let lower = chars_of(to_lowercase(title).as_str());
    let mut out: Vec<char> = Vec::new();
    let mut i: usize = 0;
    while i < lower.len()
        invariant
            i <= lower.len(),
            lower@ == unicode_lowercase(title@),
            out@ == alphanumeric_only(lower@.subrange(0, i as int)),
        decreases lower.len() - i,
    {
        assert(lower@.subrange(0, i + 1).drop_last() =~= lower@.subrange(0, i as int));
        if char_is_alphanumeric(lower[i]) {
            out.push(lower[i]);
        }
        i = i + 1;
    }
    assert(lower@.subrange(0, lower.len() as int) =~= lower@);
    out
}

/// `x` inserted into `v` after the last element that may precede it, every
/// element after it moved one place on (one step of a stable insertion sort).
pub open spec fn insert_ordered<T>(v: Seq<T>, x: T, may_precede: spec_fn(T, T) -> bool) -> Seq<T>
    decreases v.len(),
{
    if v.len() == 0 || may_precede(v.last(), x) {
        v.push(x)
    } else {
        insert_ordered(v.drop_last(), x, may_precede).push(v.last())
    }
}

/// A stable insertion sort: the elements of `s` inserted in turn.
pub open spec fn sorted_by<T>(s: Seq<T>, may_precede: spec_fn(T, T) -> bool) -> Seq<T>
    decreases s.len(),
{
    if s.len() == 0 {
        s
    } else {
        insert_ordered(sorted_by(s.drop_last(), may_precede), s.last(), may_precede)
    }
}

/// Ids in ascending order.
pub open spec fn ascending_ids(s: Seq<i64>) -> Seq<i64> {
    sorted_by(s, |a: i64, b: i64| a <= b)
}

/// Groups, largest first; groups of one size keep their order.
pub open spec fn largest_first(s: Seq<(Seq<i64>, Seq<char>)>) -> Seq<(Seq<i64>, Seq<char>)> {
    sorted_by(s, |a: (Seq<i64>, Seq<char>), b: (Seq<i64>, Seq<char>)| a.0.len() >= b.0.len())
}

proof fn lemma_insert_at<T>(v: Seq<T>, x: T, may_precede: spec_fn(T, T) -> bool, p: int)
    requires
        0 <= p <= v.len(),
        p == 0 || may_precede(v[p - 1], x),
        forall|i: int| p <= i < v.len() ==> !may_precede(#[trigger] v[i], x),
    ensures
        insert_ordered(v, x, may_precede) == v.insert(p, x),
    decreases v.len(),
{
    if p == v.len() {
        assert(v.push(x) =~= v.insert(p, x));
    } else {
        let t = v.drop_last();
        assert forall|i: int| p <= i < t.len() implies !may_precede(#[trigger] t[i], x) by {
            assert(t[i] == v[i]);
        }
        if p > 0 {
            assert(t[p - 1] == v[p - 1]);
        }
        lemma_insert_at(t, x, may_precede, p);
        assert(t.insert(p, x).push(v.last()) =~= v.insert(p, x));
    }
}

/// Inserts `x` into the sorted ids `v`, keeping the order stable.
fn insert_id(v: &mut Vec<i64>, x: i64)
    ensures
        final(v)@ == insert_ordered(old(v)@, x, |a: i64, b: i64| a <= b),
{
    let mut p: usize = v.len();
    while p > 0 && !(v[p - 1] <= x)
        invariant
            p <= v.len(),
            forall|i: int| p <= i < v.len() ==> !(#[trigger] v@[i] <= x),
        decreases p,
    {
        p = p - 1;
    }
    proof {
        lemma_insert_at(v@, x, |a: i64, b: i64| a <= b, p as int);
    }
    v.insert(p, x);
}

/// The ids sorted ascending.
pub fn sort_ids(ids: &Vec<i64>) -> (r: Vec<i64>)
    ensures
        r@ == ascending_ids(ids@),
{
    let mut r: Vec<i64> = Vec::new();
    let mut i: usize = 0;
    while i < ids.len()
        invariant
            i <= ids.len(),
            r@ == ascending_ids(ids@.subrange(0, i as int)),
        decreases ids.len() - i,
    {
        assert(ids@.subrange(0, i + 1).drop_last() =~= ids@.subrange(0, i as int));
        insert_id(&mut r, ids[i]);
        i = i + 1;
    }
    assert(ids@.subrange(0, ids.len() as int) =~= ids@);
    r
}

/// A key that rows are grouped by: a pair of texts (the TMDB id and nothing,
/// or the media type and the title key).
pub type GroupKey = (Seq<char>, Seq<char>);

/// Position of the first row with key `k`, or -1.
pub open spec fn first_of(keys: Seq<GroupKey>, k: GroupKey) -> int
    decreases keys.len(),
{
    if keys.len() == 0 {
        -1
    } else {
        let r = first_of(keys.drop_last(), k);
        if r >= 0 {
            r
        } else if keys.last() == k {
            keys.len() - 1
        } else {
            -1
        }
    }
}

/// The ids of the rows with key `k`, in row order.
pub open spec fn members(keys: Seq<GroupKey>, ids: Seq<i64>, k: GroupKey) -> Seq<i64>
    decreases keys.len(),
{
    if keys.len() == 0 || ids.len() == 0 {
        Seq::empty()
    } else {
        let rest = members(keys.drop_last(), ids.drop_last(), k);
        if keys.last() == k {
            rest.push(ids.last())
        } else {
            rest
        }
    }
}

/// The rows among the first `n` that start a group: the first row of a key
/// shared by at least two rows. Each comes with its members, ascending.
pub open spec fn group_starts(keys: Seq<GroupKey>, ids: Seq<i64>, n: nat) -> Seq<(int, Seq<i64>)>
    decreases n,
{
    if n == 0 {
        Seq::empty()
    } else {
        let rest = group_starts(keys, ids, (n - 1) as nat);
        let i = n - 1;
        let m = members(keys, ids, keys[i]);
        if first_of(keys, keys[i]) == i && m.len() >= 2 {
            rest.push((i, ascending_ids(m)))
        } else {
            rest
        }
    }
}

proof fn lemma_first_of(keys: Seq<GroupKey>, k: GroupKey)
    ensures
        -1 <= first_of(keys, k) < keys.len(),
        first_of(keys, k) >= 0 ==> keys[first_of(keys, k)] == k,
        forall|j: int| 0 <= j < keys.len() && (first_of(keys, k) == -1 || j < first_of(keys, k)) ==> #[trigger] keys[j]
            != k,
    decreases keys.len(),
{
    if keys.len() > 0 {
        let t = keys.drop_last();
        lemma_first_of(t, k);
        assert forall|j: int| 0 <= j < keys.len() - 1 implies #[trigger] keys[j] == t[j] by {}
    }
}

pub(crate) fn keys_equal(a1: &Vec<char>, a2: &Vec<char>, b1: &Vec<char>, b2: &Vec<char>) -> (r: bool)
    ensures
        r == ((a1@, a2@) == (b1@, b2@)),
{
    crate::config::vec_equal(a1, b1) && crate::config::vec_equal(a2, b2)
}

pub open spec fn key_views(k1: Seq<Vec<char>>, k2: Seq<Vec<char>>) -> Seq<GroupKey> {
    Seq::new(k1.len(), |i: int| (k1[i]@, k2[i]@))
}

/// The ids of the rows whose key equals that of row `i`, in row order.
fn collect_members(ids: &Vec<i64>, k1: &Vec<Vec<char>>, k2: &Vec<Vec<char>>, i: usize) -> (r: Vec<i64>)
    requires
        ids.len() == k1.len(),
        k2.len() == k1.len(),
        i < ids.len(),
    ensures
        r@ == members(key_views(k1@, k2@), ids@, key_views(k1@, k2@)[i as int]),
{
    let ghost keys = key_views(k1@, k2@);
    let ghost k = keys[i as int];
    let mut r: Vec<i64> = Vec::new();
    let mut j: usize = 0;
    while j < ids.len()
        invariant
            j <= ids.len(),
            ids.len() == k1.len(),
            k2.len() == k1.len(),
            i < ids.len(),
            keys == key_views(k1@, k2@),
            k == keys[i as int],
            r@ == members(keys.subrange(0, j as int), ids@.subrange(0, j as int), k),
        decreases ids.len() - j,
    {
        assert(keys.subrange(0, j + 1).drop_last() =~= keys.subrange(0, j as int));
        assert(ids@.subrange(0, j + 1).drop_last() =~= ids@.subrange(0, j as int));
        if keys_equal(&k1[j], &k2[j], &k1[i], &k2[i]) {
            r.push(ids[j]);
        }
        j = j + 1;
    }
    assert(keys.subrange(0, ids.len() as int) =~= keys);
    assert(ids@.subrange(0, ids.len() as int) =~= ids@);
    r
}

/// Whether row `i` is the first row with its key.
fn starts_key(k1: &Vec<Vec<char>>, k2: &Vec<Vec<char>>, i: usize) -> (r: bool)
    requires
        k2.len() == k1.len(),
        i < k1.len(),
    ensures
        r == (first_of(key_views(k1@, k2@), key_views(k1@, k2@)[i as int]) == i),
{
    let ghost keys = key_views(k1@, k2@);
    proof {
        lemma_first_of(keys, keys[i as int]);
    }
    let mut j: usize = 0;
    while j < i
        invariant
            j <= i,
            i < k1.len(),
            k2.len() == k1.len(),
            keys == key_views(k1@, k2@),
            forall|m: int| 0 <= m < j ==> #[trigger] keys[m] != keys[i as int],
        decreases i - j,
    {
        assert(keys[j as int] == (k1@[j as int]@, k2@[j as int]@));
        assert(keys[i as int] == (k1@[i as int]@, k2@[i as int]@));
        if keys_equal(&k1[j], &k2[j], &k1[i], &k2[i]) {
            proof {
                assert(keys[j as int] == keys[i as int]);
                assert(keys.len() == k1.len());
                lemma_first_of(keys, keys[i as int]);
                if first_of(keys, keys[i as int]) == i {
                    assert(keys[j as int] != keys[i as int]);
                }
            }
            return false;
        }
        j = j + 1;
    }
    true
}

/// The groups of rows that share a key: for each key held by two rows or
/// more, its first row and its members' ids ascending, in order of first rows.
pub(crate) fn find_groups(ids: &Vec<i64>, k1: &Vec<Vec<char>>, k2: &Vec<Vec<char>>) -> (r: Vec<(usize, Vec<i64>)>)
    requires
        ids.len() == k1.len(),
        k2.len() == k1.len(),
    ensures
        r@.len() == group_starts(key_views(k1@, k2@), ids@, ids@.len()).len(),
        forall|g: int| 0 <= g < r@.len() ==> {
            &&& (#[trigger] r@[g]).0 < ids@.len()
            &&& r@[g].0 as int == group_starts(key_views(k1@, k2@), ids@, ids@.len())[g].0
            &&& r@[g].1@ == group_starts(key_views(k1@, k2@), ids@, ids@.len())[g].1
        },
{
    let ghost keys = key_views(k1@, k2@);
    let mut r: Vec<(usize, Vec<i64>)> = Vec::new();
    let mut i: usize = 0;
    while i < ids.len()
        invariant
            i <= ids.len(),
            ids.len() == k1.len(),
            k2.len() == k1.len(),
            keys == key_views(k1@, k2@),
            r@.len() == group_starts(keys, ids@, i as nat).len(),
            forall|g: int| 0 <= g < r@.len() ==> {
                &&& (#[trigger] r@[g]).0 < ids@.len()
                &&& r@[g].0 as int == group_starts(keys, ids@, i as nat)[g].0
                &&& r@[g].1@ == group_starts(keys, ids@, i as nat)[g].1
            },
        decreases ids.len() - i,
    {
        let first = starts_key(k1, k2, i);
        if first {
            let m = collect_members(ids, k1, k2, i);
            if m.len() >= 2 {
                let sorted = sort_ids(&m);
                r.push((i, sorted));
            }
        }
        i = i + 1;
    }
    r
}

/// A group of entries that look like one title: their ids, ascending, and
/// why they were grouped.
#[derive(Debug, Clone)]
pub struct DuplicateGroup {
    pub ids: Vec<i64>,
    pub reason: String,
}

pub open spec fn group_view(g: DuplicateGroup) -> (Seq<i64>, Seq<char>) {
    (g.ids@, g.reason@)
}

pub open spec fn groups_view(gs: Seq<DuplicateGroup>) -> Seq<(Seq<i64>, Seq<char>)> {
    gs.map_values(|g: DuplicateGroup| group_view(g))
}

/// The groups of entries sharing a TMDB id, each with its reason.
pub open spec fn tmdb_groups(ids: Seq<i64>, tmdb: Seq<Seq<char>>) -> Seq<(Seq<i64>, Seq<char>)> {
    let keys = Seq::new(tmdb.len(), |i: int| (tmdb[i], Seq::<char>::empty()));
    group_starts(keys, ids, ids.len()).map_values(
        |s: (int, Seq<i64>)| (s.1, "Same TMDB ID ("@ + tmdb[s.0] + ")"@),
    )
}

/// The candidate groups of entries of one kind with the same title key,
/// each with its reason (naming the title of its first entry).
pub open spec fn title_candidates(ids: Seq<i64>, kinds: Seq<Seq<char>>, titles: Seq<Seq<char>>) -> Seq<
    (Seq<i64>, Seq<char>),
> {
    let keys = Seq::new(kinds.len(), |i: int| (kinds[i], title_key(titles[i])));
    group_starts(keys, ids, ids.len()).map_values(
        |s: (int, Seq<i64>)| (s.1, "Similar title (\""@ + titles[s.0] + "\")"@),
    )
}

/// Whether `group` holds every id of `ids`.
pub open spec fn holds_all(group: Seq<i64>, ids: Seq<i64>) -> bool {
    forall|x: int| 0 <= x < ids.len() ==> group.contains(#[trigger] ids[x])
}

/// Whether every id of `ids` is in one of the groups `gs`.
pub open spec fn covered(ids: Seq<i64>, gs: Seq<(Seq<i64>, Seq<char>)>) -> bool {
    exists|g: int| 0 <= g < gs.len() && holds_all(#[trigger] gs[g].0, ids)
}

/// The title groups kept after `base`: a candidate is dropped when one group
/// found before it (a TMDB group, or an earlier title group) holds all of
/// its entries.
pub open spec fn kept_titles(cands: Seq<(Seq<i64>, Seq<char>)>, base: Seq<(Seq<i64>, Seq<char>)>) -> Seq<
    (Seq<i64>, Seq<char>),
>
    decreases cands.len(),
{
    if cands.len() == 0 {
        Seq::empty()
    } else {
        let acc = kept_titles(cands.drop_last(), base);
        if covered(cands.last().0, base + acc) {
            acc
        } else {
            acc.push(cands.last())
        }
    }
}

/// All duplicate groups: the TMDB groups, then the title groups not already
/// covered, ordered largest first (groups of one size in that order).
pub open spec fn duplicate_groups(
    tmdb_ids: Seq<i64>,
    tmdb: Seq<Seq<char>>,
    title_ids: Seq<i64>,
    kinds: Seq<Seq<char>>,
    titles: Seq<Seq<char>>,
) -> Seq<(Seq<i64>, Seq<char>)> {
    let base = tmdb_groups(tmdb_ids, tmdb);
    largest_first(base + kept_titles(title_candidates(title_ids, kinds, titles), base))
}

/// Whether one of `groups` holds every id of `ids`.
fn is_covered(ids: &Vec<i64>, groups: &Vec<DuplicateGroup>) -> (r: bool)
    ensures
        r == covered(ids@, groups_view(groups@)),
{
    let ghost gv = groups_view(groups@);
    let mut g: usize = 0;
    while g < groups.len()
        invariant
            g <= groups.len(),
            gv == groups_view(groups@),
            gv.len() == groups.len(),
            forall|h: int| 0 <= h < g ==> !holds_all(#[trigger] gv[h].0, ids@),
        decreases groups.len() - g,
    {
        assert(gv[g as int] == group_view(groups@[g as int]));
        let members = &groups[g].ids;
        let mut all = true;
        let mut x: usize = 0;
        while x < ids.len()
            invariant
                x <= ids.len(),
                all ==> forall|y: int| 0 <= y < x ==> members@.contains(#[trigger] ids@[y]),
                !all ==> exists|y: int| 0 <= y < ids@.len() && !members@.contains(#[trigger] ids@[y]),
            decreases ids.len() - x,
        {
            let mut found = false;
            let mut m: usize = 0;
            while m < members.len()
                invariant
                    m <= members.len(),
                    x < ids.len(),
                    found == exists|z: int| 0 <= z < m && members@[z] == ids@[x as int],
                decreases members.len() - m,
            {
                if members[m] == ids[x] {
                    found = true;
                }
                m = m + 1;
            }
            if !found {
                assert(!members@.contains(ids@[x as int]));
                all = false;
            } else {
                proof {
                    let z = choose|z: int| 0 <= z < m && members@[z] == ids@[x as int];
                    assert(members@.contains(ids@[x as int]));
                }
            }
            x = x + 1;
        }
        if all {
            assert(holds_all(gv[g as int].0, ids@));
            return true;
        }
        g = g + 1;
    }
    false
}

/// Inserts a group into a list ordered largest first, after the groups at
/// least as large.
fn insert_group(v: &mut Vec<DuplicateGroup>, x: DuplicateGroup)
    ensures
        groups_view(final(v)@) == insert_ordered(
            groups_view(old(v)@),
            group_view(x),
            |a: (Seq<i64>, Seq<char>), b: (Seq<i64>, Seq<char>)| a.0.len() >= b.0.len(),
        ),
{
    let ghost before = groups_view(v@);
    let mut p: usize = v.len();
    while p > 0 && !(v[p - 1].ids.len() >= x.ids.len())
        invariant
            p <= v.len(),
            before == groups_view(v@),
            forall|i: int| p <= i < v@.len() ==> !((#[trigger] v@[i]).ids@.len() >= x.ids@.len()),
        decreases p,
    {
        p = p - 1;
    }
    proof {
        assert forall|i: int| p <= i < before.len() implies !(#[trigger] before[i].0.len() >= group_view(x).0.len()) by {
            assert(before[i] == group_view(v@[i]));
        }
        if p > 0 {
            assert(before[p - 1] == group_view(v@[p - 1]));
        }
        lemma_insert_at(
            before,
            group_view(x),
            |a: (Seq<i64>, Seq<char>), b: (Seq<i64>, Seq<char>)| a.0.len() >= b.0.len(),
            p as int,
        );
    }
    let ghost gx = group_view(x);
    v.insert(p, x);
    assert(groups_view(v@) =~= before.insert(p as int, gx));
}

pub open spec fn row_ids(rows: Seq<(i64, String)>) -> Seq<i64> {
    rows.map_values(|r: (i64, String)| r.0)
}

pub open spec fn row_texts(rows: Seq<(i64, String)>) -> Seq<Seq<char>> {
    rows.map_values(|r: (i64, String)| r.1@)
}

pub open spec fn title_row_ids(rows: Seq<(i64, String, String)>) -> Seq<i64> {
    rows.map_values(|r: (i64, String, String)| r.0)
}

pub open spec fn title_row_kinds(rows: Seq<(i64, String, String)>) -> Seq<Seq<char>> {
    rows.map_values(|r: (i64, String, String)| r.1@)
}

pub open spec fn title_row_titles(rows: Seq<(i64, String, String)>) -> Seq<Seq<char>> {
    rows.map_values(|r: (i64, String, String)| r.2@)
}

/// The TMDB groups of `(id, tmdb id)` rows.
fn tmdb_group_list(rows: &Vec<(i64, String)>) -> (r: Vec<DuplicateGroup>)
    ensures
        groups_view(r@) == tmdb_groups(row_ids(rows@), row_texts(rows@)),
{
    let ghost ids_v = row_ids(rows@);
    let ghost tmdb = row_texts(rows@);
    let mut ids: Vec<i64> = Vec::new();
    let mut k1: Vec<Vec<char>> = Vec::new();
    let mut k2: Vec<Vec<char>> = Vec::new();
    let mut i: usize = 0;
    while i < rows.len()
        invariant
            i <= rows.len(),
            ids_v == row_ids(rows@),
            tmdb == row_texts(rows@),
            ids@ == ids_v.subrange(0, i as int),
            k1@.len() == i,
            k2@.len() == i,
            forall|j: int| 0 <= j < i ==> (#[trigger] k1@[j])@ == tmdb[j] && k2@[j]@ == Seq::<char>::empty(),
        decreases rows.len() - i,
    {
        ids.push(rows[i].0);
        k1.push(chars_of(rows[i].1.as_str()));
        k2.push(Vec::new());
        assert(ids@ =~= ids_v.subrange(0, i + 1));
        i = i + 1;
    }
    assert(ids@ =~= ids_v);
    let ghost keys = Seq::new(tmdb.len(), |j: int| (tmdb[j], Seq::<char>::empty()));
    assert(key_views(k1@, k2@) =~= keys);
    let found = find_groups(&ids, &k1, &k2);
    let ghost starts = group_starts(keys, ids_v, ids_v.len());
    let mut r: Vec<DuplicateGroup> = Vec::new();
    let mut g: usize = 0;
    while g < found.len()
        invariant
            g <= found.len(),
            found@.len() == starts.len(),
            ids@.len() == rows@.len(),
            tmdb == row_texts(rows@),
            forall|h: int| 0 <= h < found@.len() ==> {
                &&& (#[trigger] found@[h]).0 < ids@.len()
                &&& found@[h].0 as int == starts[h].0
                &&& found@[h].1@ == starts[h].1
            },
            groups_view(r@) == starts.subrange(0, g as int).map_values(
                |s: (int, Seq<i64>)| (s.1, "Same TMDB ID ("@ + tmdb[s.0] + ")"@),
            ),
        decreases found.len() - g,
    {
        let k = found[g].0;
        let mut reason = "Same TMDB ID (".to_owned();
        reason.append(rows[k].1.as_str());
        reason.append(")");
        let ids_copy = copy_ids(&found[g].1);
        let ghost before = groups_view(r@);
        let grp = DuplicateGroup { ids: ids_copy, reason };
        assert(tmdb[k as int] == rows@[k as int].1@);
        r.push(grp);
        assert(groups_view(r@) =~= before.push(group_view(grp)));
        assert(groups_view(r@) =~= starts.subrange(0, g + 1).map_values(
            |s: (int, Seq<i64>)| (s.1, "Same TMDB ID ("@ + tmdb[s.0] + ")"@),
        ));
        g = g + 1;
    }
    assert(starts.subrange(0, starts.len() as int) =~= starts);
    r
}

pub(crate) fn copy_ids(v: &Vec<i64>) -> (r: Vec<i64>)
    ensures
        r@ == v@,
{
    let mut r: Vec<i64> = Vec::new();
    let mut i: usize = 0;
    while i < v.len()
        invariant
            i <= v.len(),
            r@ == v@.subrange(0, i as int),
        decreases v.len() - i,
    {
        r.push(v[i]);
        assert(r@ =~= v@.subrange(0, i + 1));
        i = i + 1;
    }
    assert(v@.subrange(0, v.len() as int) =~= v@);
    r
}

/// The candidate title groups of `(id, media type, title)` rows.
fn title_candidate_list(rows: &Vec<(i64, String, String)>) -> (r: Vec<DuplicateGroup>)
    ensures
        groups_view(r@) == title_candidates(title_row_ids(rows@), title_row_kinds(rows@), title_row_titles(rows@)),
{
    let ghost ids_v = title_row_ids(rows@);
    let ghost kinds = title_row_kinds(rows@);
    let ghost titles = title_row_titles(rows@);
    let mut ids: Vec<i64> = Vec::new();
    let mut k1: Vec<Vec<char>> = Vec::new();
    let mut k2: Vec<Vec<char>> = Vec::new();
    let mut i: usize = 0;
    while i < rows.len()
        invariant
            i <= rows.len(),
            ids_v == title_row_ids(rows@),
            kinds == title_row_kinds(rows@),
            titles == title_row_titles(rows@),
            ids@ == ids_v.subrange(0, i as int),
            k1@.len() == i,
            k2@.len() == i,
            forall|j: int| 0 <= j < i ==> (#[trigger] k1@[j])@ == kinds[j] && k2@[j]@ == title_key(titles[j]),
        decreases rows.len() - i,
    {
        ids.push(rows[i].0);
        let kind = chars_of(rows[i].1.as_str());
        let key = duplicate_title_key(rows[i].2.as_str());
        assert(kinds[i as int] == rows@[i as int].1@ && titles[i as int] == rows@[i as int].2@);
        k1.push(kind);
        k2.push(key);
        assert(ids@ =~= ids_v.subrange(0, i + 1));
        assert forall|j: int| 0 <= j < i + 1 implies (#[trigger] k1@[j])@ == kinds[j] && k2@[j]@ == title_key(titles[j]) by {}
        i = i + 1;
    }
    assert(ids@ =~= ids_v);
    let ghost keys = Seq::new(kinds.len(), |j: int| (kinds[j], title_key(titles[j])));
    assert(key_views(k1@, k2@) =~= keys);
    let found = find_groups(&ids, &k1, &k2);
    let ghost starts = group_starts(keys, ids_v, ids_v.len());
    let mut r: Vec<DuplicateGroup> = Vec::new();
    let mut g: usize = 0;
    while g < found.len()
        invariant
            g <= found.len(),
            found@.len() == starts.len(),
            ids@.len() == rows@.len(),
            titles == title_row_titles(rows@),
            forall|h: int| 0 <= h < found@.len() ==> {
                &&& (#[trigger] found@[h]).0 < ids@.len()
                &&& found@[h].0 as int == starts[h].0
                &&& found@[h].1@ == starts[h].1
            },
            groups_view(r@) == starts.subrange(0, g as int).map_values(
                |s: (int, Seq<i64>)| (s.1, "Similar title (\""@ + titles[s.0] + "\")"@),
            ),
        decreases found.len() - g,
    {
        let k = found[g].0;
        let mut reason = "Similar title (\"".to_owned();
        reason.append(rows[k].2.as_str());
        reason.append("\")");
        let ids_copy = copy_ids(&found[g].1);
        let ghost before = groups_view(r@);
        let grp = DuplicateGroup { ids: ids_copy, reason };
        assert(titles[k as int] == rows@[k as int].2@);
        r.push(grp);
        assert(groups_view(r@) =~= before.push(group_view(grp)));
        assert(groups_view(r@) =~= starts.subrange(0, g + 1).map_values(
            |s: (int, Seq<i64>)| (s.1, "Similar title (\""@ + titles[s.0] + "\")"@),
        ));
        g = g + 1;
    }
    assert(starts.subrange(0, starts.len() as int) =~= starts);
    r
}

/// The entries duplicates are looked for among: movies and shows.
pub open spec fn grouped_kind(kind: Seq<char>) -> bool {
    kind == "movie"@ || kind == "tvshow"@
}

/// The `(id, TMDB id)` of the movies and shows among `(id, media type, TMDB
/// id)` rows that have a TMDB id that is not empty, in row order.
pub open spec fn tmdb_rows_kept(rows: Seq<(i64, String, Option<String>)>) -> Seq<(i64, Seq<char>)>
    decreases rows.len(),
{
    if rows.len() == 0 {
        Seq::empty()
    } else {
        let rest = tmdb_rows_kept(rows.drop_last());
        let r = rows.last();
        match r.2 {
            Some(t) => if grouped_kind(r.1@) && t@.len() > 0 {
                rest.push((r.0, t@))
            } else {
                rest
            },
            None => rest,
        }
    }
}

/// The `(id, media type, title)` rows of movies and shows, in row order.
pub open spec fn title_rows_kept(rows: Seq<(i64, String, String)>) -> Seq<(i64, Seq<char>, Seq<char>)>
    decreases rows.len(),
{
    if rows.len() == 0 {
        Seq::empty()
    } else {
        let rest = title_rows_kept(rows.drop_last());
        let r = rows.last();
        if grouped_kind(r.1@) {
            rest.push((r.0, r.1@, r.2@))
        } else {
            rest
        }
    }
}

/// Every row kept for TMDB grouping is a movie or show row with that
/// non-empty TMDB id.
pub proof fn lemma_tmdb_rows_kept(rows: Seq<(i64, String, Option<String>)>)
    ensures
        forall|k: int| 0 <= k < tmdb_rows_kept(rows).len() ==> exists|i: int| 0 <= i < rows.len() && {
            &&& (#[trigger] rows[i]).0 == (#[trigger] tmdb_rows_kept(rows)[k]).0
            &&& grouped_kind(rows[i].1@)
            &&& rows[i].2 matches Some(t) && t@ == tmdb_rows_kept(rows)[k].1 && t@.len() > 0
        },
    decreases rows.len(),
{
    if rows.len() > 0 {
        let t = rows.drop_last();
        lemma_tmdb_rows_kept(t);
        let kept = tmdb_rows_kept(rows);
        let rest = tmdb_rows_kept(t);
        assert forall|k: int| 0 <= k < kept.len() implies exists|i: int| 0 <= i < rows.len() && {
            &&& (#[trigger] rows[i]).0 == (#[trigger] kept[k]).0
            &&& grouped_kind(rows[i].1@)
            &&& rows[i].2 matches Some(x) && x@ == kept[k].1 && x@.len() > 0
        } by {
            if k < rest.len() {
                assert(kept[k] == rest[k]);
                let i = choose|i: int| 0 <= i < t.len() && {
                    &&& (#[trigger] t[i]).0 == (#[trigger] rest[k]).0
                    &&& grouped_kind(t[i].1@)
                    &&& t[i].2 matches Some(x) && x@ == rest[k].1 && x@.len() > 0
                };
                assert(rows[i] == t[i]);
            } else {
                assert(rows[rows.len() - 1] == rows.last());
            }
        }
    }
}

/// Whether `row` is the view of one of `rows` whose media type is grouped.
pub open spec fn from_title_row(rows: Seq<(i64, String, String)>, row: (i64, Seq<char>, Seq<char>)) -> bool {
    exists|i: int| 0 <= i < rows.len() && (#[trigger] rows[i]).0 == row.0 && rows[i].1@ == row.1
        && rows[i].2@ == row.2 && grouped_kind(rows[i].1@)
}

/// Every row kept for title grouping is a movie or show row.
pub proof fn lemma_title_rows_kept(rows: Seq<(i64, String, String)>)
    ensures
        forall|k: int| 0 <= k < title_rows_kept(rows).len() ==> from_title_row(rows, #[trigger] title_rows_kept(rows)[k]),
    decreases rows.len(),
{
    if rows.len() > 0 {
        let t = rows.drop_last();
        lemma_title_rows_kept(t);
        let kept = title_rows_kept(rows);
        let rest = title_rows_kept(t);
        assert forall|k: int| 0 <= k < kept.len() implies from_title_row(rows, #[trigger] kept[k]) by {
            if k < rest.len() {
                assert(kept[k] == rest[k]);
                assert(from_title_row(t, rest[k]));
                let i = choose|i: int| 0 <= i < t.len() && (#[trigger] t[i]).0 == rest[k].0 && t[i].1@ == rest[k].1
                    && t[i].2@ == rest[k].2 && grouped_kind(t[i].1@);
                assert(rows[i] == t[i]);
            } else {
                let j = rows.len() - 1;
                assert(rows[j] == rows.last());
                assert(kept[k] == (rows[j].0, rows[j].1@, rows[j].2@));
            }
        }
    }
}

pub open spec fn pair_views(v: Seq<(i64, String)>) -> Seq<(i64, Seq<char>)> {
    v.map_values(|r: (i64, String)| (r.0, r.1@))
}

pub open spec fn triple_views(v: Seq<(i64, String, String)>) -> Seq<(i64, Seq<char>, Seq<char>)> {
    v.map_values(|r: (i64, String, String)| (r.0, r.1@, r.2@))
}

fn keep_tmdb_rows(rows: &Vec<(i64, String, Option<String>)>) -> (r: Vec<(i64, String)>)
    ensures
        pair_views(r@) == tmdb_rows_kept(rows@),
{
    let mut r: Vec<(i64, String)> = Vec::new();
    let mut i: usize = 0;
    while i < rows.len()
        invariant
            i <= rows.len(),
            pair_views(r@) == tmdb_rows_kept(rows@.subrange(0, i as int)),
        decreases rows.len() - i,
    {
        assert(rows@.subrange(0, i + 1).drop_last() =~= rows@.subrange(0, i as int));
        assert(rows@.subrange(0, i + 1).last() == rows@[i as int]);
        let kind = chars_of(rows[i].1.as_str());
        let wanted = crate::text::chars_equal(&kind, "movie") || crate::text::chars_equal(&kind, "tvshow");
        match &rows[i].2 {
            Some(t) => {
                if wanted && chars_of(t.as_str()).len() > 0 {
                    let ghost before = pair_views(r@);
                    r.push((rows[i].0, t.clone()));
                    assert(pair_views(r@) =~= before.push((rows@[i as int].0, t@)));
                }
            },
            None => {},
        }
        i = i + 1;
    }
    assert(rows@.subrange(0, rows.len() as int) =~= rows@);
    r
}

fn keep_title_rows(rows: &Vec<(i64, String, String)>) -> (r: Vec<(i64, String, String)>)
    ensures
        triple_views(r@) == title_rows_kept(rows@),
{
    let mut r: Vec<(i64, String, String)> = Vec::new();
    let mut i: usize = 0;
    while i < rows.len()
        invariant
            i <= rows.len(),
            triple_views(r@) == title_rows_kept(rows@.subrange(0, i as int)),
        decreases rows.len() - i,
    {
        assert(rows@.subrange(0, i + 1).drop_last() =~= rows@.subrange(0, i as int));
        assert(rows@.subrange(0, i + 1).last() == rows@[i as int]);
        let kind = chars_of(rows[i].1.as_str());
        if crate::text::chars_equal(&kind, "movie") || crate::text::chars_equal(&kind, "tvshow") {
            let ghost before = triple_views(r@);
            r.push((rows[i].0, rows[i].1.clone(), rows[i].2.clone()));
            assert(triple_views(r@) =~= before.push((rows@[i as int].0, rows@[i as int].1@, rows@[i as int].2@)));
        }
        i = i + 1;
    }
    assert(rows@.subrange(0, rows.len() as int) =~= rows@);
    r
}

pub open spec fn firsts2(v: Seq<(i64, Seq<char>)>) -> Seq<i64> {
    v.map_values(|r: (i64, Seq<char>)| r.0)
}

pub open spec fn seconds2(v: Seq<(i64, Seq<char>)>) -> Seq<Seq<char>> {
    v.map_values(|r: (i64, Seq<char>)| r.1)
}

pub open spec fn firsts3(v: Seq<(i64, Seq<char>, Seq<char>)>) -> Seq<i64> {
    v.map_values(|r: (i64, Seq<char>, Seq<char>)| r.0)
}

pub open spec fn seconds3(v: Seq<(i64, Seq<char>, Seq<char>)>) -> Seq<Seq<char>> {
    v.map_values(|r: (i64, Seq<char>, Seq<char>)| r.1)
}

pub open spec fn thirds3(v: Seq<(i64, Seq<char>, Seq<char>)>) -> Seq<Seq<char>> {
    v.map_values(|r: (i64, Seq<char>, Seq<char>)| r.2)
}

/// The duplicate groups of the library. `tmdb_rows` are `(id, media type,
/// TMDB id)` rows and `title_rows` `(id, media type, title)` rows; only
/// movies and shows are looked at, and only TMDB ids that are present and
/// not empty. Entries sharing a TMDB id form a group; entries of one media
/// type whose titles have the same key form a group unless an earlier group
/// holds them all. Ids are ascending in each group, and the largest groups
/// come first.
pub fn find_duplicate_groups(
    tmdb_rows: &Vec<(i64, String, Option<String>)>,
    title_rows: &Vec<(i64, String, String)>,
) -> (r: Vec<DuplicateGroup>)
    ensures
        groups_view(r@) == duplicate_groups(
            firsts2(tmdb_rows_kept(tmdb_rows@)),
            seconds2(tmdb_rows_kept(tmdb_rows@)),
            firsts3(title_rows_kept(title_rows@)),
            seconds3(title_rows_kept(title_rows@)),
            thirds3(title_rows_kept(title_rows@)),
        ),
{
    let t = keep_tmdb_rows(tmdb_rows);
    let n = keep_title_rows(title_rows);
    assert(row_ids(t@) =~= firsts2(tmdb_rows_kept(tmdb_rows@)));
    assert(row_texts(t@) =~= seconds2(tmdb_rows_kept(tmdb_rows@)));
    assert(title_row_ids(n@) =~= firsts3(title_rows_kept(title_rows@)));
    assert(title_row_kinds(n@) =~= seconds3(title_rows_kept(title_rows@)));
    assert(title_row_titles(n@) =~= thirds3(title_rows_kept(title_rows@)));
    group_duplicates(&t, &n)
}

/// The duplicate groups of movie and show rows already selected:
/// `tmdb_rows` are `(id, TMDB id)`, `title_rows` `(id, media type, title)`.
fn group_duplicates(
    tmdb_rows: &Vec<(i64, String)>,
    title_rows: &Vec<(i64, String, String)>,
) -> (r: Vec<DuplicateGroup>)
    ensures
        groups_view(r@) == duplicate_groups(
            row_ids(tmdb_rows@),
            row_texts(tmdb_rows@),
            title_row_ids(title_rows@),
            title_row_kinds(title_rows@),
            title_row_titles(title_rows@),
        ),
{
    let base = tmdb_group_list(tmdb_rows);
    let cands = title_candidate_list(title_rows);
    let ghost bv = groups_view(base@);
    let ghost cv = groups_view(cands@);
    // every group found so far, the TMDB groups first
    let mut all = copy_groups(&base);
    let mut c: usize = 0;
    while c < cands.len()
        invariant
            c <= cands.len(),
            bv == groups_view(base@),
            cv == groups_view(cands@),
            cv.len() == cands.len(),
            groups_view(all@) == bv + kept_titles(cv.subrange(0, c as int), bv),
        decreases cands.len() - c,
    {
        let ghost prefix = cv.subrange(0, c + 1);
        assert(prefix.drop_last() =~= cv.subrange(0, c as int));
        assert(prefix.last() == group_view(cands@[c as int]));
        if !is_covered(&cands[c].ids, &all) {
            let ghost before = groups_view(all@);
            let grp = copy_group(&cands[c]);
            all.push(grp);
            assert(groups_view(all@) =~= before.push(group_view(grp)));
        }
        c = c + 1;
    }
    assert(cv.subrange(0, cands.len() as int) =~= cv);
    // stable insertion sort, largest first
    let ghost unsorted = groups_view(all@);
    let mut r: Vec<DuplicateGroup> = Vec::new();
    let mut i: usize = 0;
    while i < all.len()
        invariant
            i <= all.len(),
            unsorted == groups_view(all@),
            unsorted.len() == all.len(),
            groups_view(r@) == largest_first(unsorted.subrange(0, i as int)),
        decreases all.len() - i,
    {
        assert(unsorted.subrange(0, i + 1).drop_last() =~= unsorted.subrange(0, i as int));
        assert(unsorted[i as int] == group_view(all@[i as int]));
        let grp = copy_group(&all[i]);
        insert_group(&mut r, grp);
        i = i + 1;
    }
    assert(unsorted.subrange(0, all.len() as int) =~= unsorted);
    r
}

fn copy_group(g: &DuplicateGroup) -> (r: DuplicateGroup)
    ensures
        group_view(r) == group_view(*g),
{
    DuplicateGroup { ids: copy_ids(&g.ids), reason: g.reason.clone() }
}

fn copy_groups(v: &Vec<DuplicateGroup>) -> (r: Vec<DuplicateGroup>)
    ensures
        groups_view(r@) == groups_view(v@),
{
    let mut r: Vec<DuplicateGroup> = Vec::new();
    let mut i: usize = 0;
    while i < v.len()
        invariant
            i <= v.len(),
            groups_view(r@) == groups_view(v@).subrange(0, i as int),
        decreases v.len() - i,
    {
        let ghost before = groups_view(r@);
        let g = copy_group(&v[i]);
        r.push(g);
        assert(groups_view(r@) =~= before.push(group_view(g)));
        assert(groups_view(v@)[i as int] == group_view(v@[i as int]));
        assert(groups_view(r@) =~= groups_view(v@).subrange(0, i + 1));
        i = i + 1;
    }
    assert(groups_view(v@).subrange(0, v.len() as int) =~= groups_view(v@));
    r
}

/// `may_precede` is total and transitive: a preorder that any two elements
/// are comparable in.
pub open spec fn total_preorder<T>(may_precede: spec_fn(T, T) -> bool) -> bool {
    &&& forall|a: T, b: T| #[trigger] may_precede(a, b) || #[trigger] may_precede(b, a)
    &&& forall|a: T, b: T, c: T| #[trigger] may_precede(a, b) && #[trigger] may_precede(b, c) ==> may_precede(a, c)
}

/// Every element may precede every later one.
pub open spec fn in_order<T>(s: Seq<T>, may_precede: spec_fn(T, T) -> bool) -> bool {
    forall|i: int, j: int| 0 <= i < j < s.len() ==> may_precede(#[trigger] s[i], #[trigger] s[j])
}

proof fn lemma_insert_ordered<T>(v: Seq<T>, x: T, may_precede: spec_fn(T, T) -> bool)
    requires
        total_preorder(may_precede),
        in_order(v, may_precede),
    ensures
        in_order(insert_ordered(v, x, may_precede), may_precede),
        insert_ordered(v, x, may_precede).to_multiset() == v.to_multiset().insert(x),
        forall|k: int| 0 <= k < insert_ordered(v, x, may_precede).len() ==> (#[trigger] insert_ordered(v, x, may_precede)[k]
            == x || v.contains(insert_ordered(v, x, may_precede)[k])),
    decreases v.len(),
{
    broadcast use vstd::seq_lib::group_to_multiset_ensures;
    let r = insert_ordered(v, x, may_precede);
    if v.len() == 0 || may_precede(v.last(), x) {
        assert forall|i: int, j: int| 0 <= i < j < r.len() implies may_precede(#[trigger] r[i], #[trigger] r[j]) by {
            if j == v.len() {
                if i < v.len() - 1 {
                    assert(may_precede(v[i], v[v.len() - 1]));
                }
            }
        }
        assert forall|k: int| 0 <= k < r.len() implies (#[trigger] r[k] == x || v.contains(r[k])) by {
            if k < v.len() {
                assert(r[k] == v[k]);
            }
        }
    } else {
        let t = v.drop_last();
        let last = v.last();
        assert(in_order(t, may_precede)) by {
            assert forall|i: int, j: int| 0 <= i < j < t.len() implies may_precede(#[trigger] t[i], #[trigger] t[j]) by {
                assert(t[i] == v[i] && t[j] == v[j]);
            }
        }
        lemma_insert_ordered(t, x, may_precede);
        let u = insert_ordered(t, x, may_precede);
        assert(may_precede(x, last));
        assert forall|k: int| 0 <= k < u.len() implies may_precede(#[trigger] u[k], last) by {
            if u[k] != x {
                assert(t.contains(u[k]));
                let m = choose|m: int| 0 <= m < t.len() && t[m] == u[k];
                assert(v[m] == t[m]);
                assert(may_precede(v[m], v[v.len() - 1]));
            }
        }
        assert forall|i: int, j: int| 0 <= i < j < r.len() implies may_precede(#[trigger] r[i], #[trigger] r[j]) by {
            if j == r.len() - 1 {
                assert(r[i] == u[i]);
            } else {
                assert(r[i] == u[i] && r[j] == u[j]);
            }
        }
        assert forall|k: int| 0 <= k < r.len() implies (#[trigger] r[k] == x || v.contains(r[k])) by {
            if k < u.len() {
                assert(r[k] == u[k]);
                if u[k] != x {
                    let m = choose|m: int| 0 <= m < t.len() && t[m] == u[k];
                    assert(v[m] == t[m]);
                }
            } else {
                assert(r[k] == v[v.len() - 1]);
            }
        }
        assert(t.push(last) =~= v);
    }
}

/// A stable insertion sort under a total preorder puts every element before
/// the ones it may precede, and keeps exactly the elements it was given.
pub proof fn lemma_sorted_by<T>(s: Seq<T>, may_precede: spec_fn(T, T) -> bool)
    requires
        total_preorder(may_precede),
    ensures
        in_order(sorted_by(s, may_precede), may_precede),
        sorted_by(s, may_precede).to_multiset() == s.to_multiset(),
    decreases s.len(),
{
    broadcast use vstd::seq_lib::group_to_multiset_ensures;
    if s.len() > 0 {
        lemma_sorted_by(s.drop_last(), may_precede);
        lemma_insert_ordered(sorted_by(s.drop_last(), may_precede), s.last(), may_precede);
        assert(s.drop_last().push(s.last()) =~= s);
    }
}

/// The ids of a group come out ascending, each id as often as it went in.
pub proof fn lemma_ascending_ids(s: Seq<i64>)
    ensures
        forall|i: int, j: int| 0 <= i < j < ascending_ids(s).len() ==> ascending_ids(s)[i] <= ascending_ids(s)[j],
        ascending_ids(s).to_multiset() == s.to_multiset(),
{
    let p = |a: i64, b: i64| a <= b;
    lemma_sorted_by(s, p);
    assert forall|i: int, j: int| 0 <= i < j < ascending_ids(s).len() implies ascending_ids(s)[i] <= ascending_ids(s)[j] by {
        assert(p(ascending_ids(s)[i], ascending_ids(s)[j]));
    }
}

/// The duplicate groups come largest first, and are exactly the groups found
/// (the TMDB groups and the title groups kept), each once.
pub proof fn lemma_groups_largest_first(
    tmdb_ids: Seq<i64>,
    tmdb: Seq<Seq<char>>,
    title_ids: Seq<i64>,
    kinds: Seq<Seq<char>>,
    titles: Seq<Seq<char>>,
)
    ensures
        ({
            let r = duplicate_groups(tmdb_ids, tmdb, title_ids, kinds, titles);
            let base = tmdb_groups(tmdb_ids, tmdb);
            let found = base + kept_titles(title_candidates(title_ids, kinds, titles), base);
            &&& forall|i: int, j: int| 0 <= i < j < r.len() ==> r[i].0.len() >= r[j].0.len()
            &&& r.to_multiset() == found.to_multiset()
        }),
{
    let base = tmdb_groups(tmdb_ids, tmdb);
    let found = base + kept_titles(title_candidates(title_ids, kinds, titles), base);
    let p = |a: (Seq<i64>, Seq<char>), b: (Seq<i64>, Seq<char>)| a.0.len() >= b.0.len();
    lemma_sorted_by(found, p);
    let r = sorted_by(found, p);
    assert forall|i: int, j: int| 0 <= i < j < r.len() implies r[i].0.len() >= r[j].0.len() by {
        assert(p(r[i], r[j]));
    }
}

} // verus!
