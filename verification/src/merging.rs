//! Which TV show entries are merged into one: those sharing a TMDB id, and
//! those whose normalised titles agree when the merge guard allows it.
use vstd::prelude::*;
use crate::duplicates::{copy_ids, find_groups, group_starts, key_views, keys_equal, GroupKey};
use crate::text::{chars_equal, chars_of};
use crate::titles::{may_merge_title_group, normalize_title_for_db, normalized_title, opt_views, title_group_mergeable};

verus! {

/// The `(id, TMDB id)` of the shows among `(id, media type, title, TMDB id,
/// year)` rows whose TMDB id is present and not empty, in row order.
pub open spec fn shows_with_tmdb(rows: Seq<(i64, String, String, Option<String>, Option<i32>)>) -> Seq<
    (i64, Seq<char>),
>
    decreases rows.len(),
{
    if rows.len() == 0 {
        Seq::empty()
    } else {
        let rest = shows_with_tmdb(rows.drop_last());
        let r = rows.last();
        match r.3 {
            Some(t) => if r.1@ == "tvshow"@ && t@.len() > 0 {
                rest.push((r.0, t@))
            } else {
                rest
            },
            None => rest,
        }
    }
}

/// The ids of the shows sharing a TMDB id, for each id held by two shows or
/// more: ids ascending, groups in the order of their first row.
pub open spec fn tmdb_merge_sets(shows: Seq<(i64, Seq<char>)>) -> Seq<Seq<i64>> {
    let keys = Seq::new(shows.len(), |i: int| (shows[i].1, Seq::<char>::empty()));
    let ids = Seq::new(shows.len(), |i: int| shows[i].0);
    group_starts(keys, ids, ids.len()).map_values(|s: (int, Seq<i64>)| s.1)
}

pub open spec fn id_views(v: Seq<Vec<i64>>) -> Seq<Seq<i64>> {
    v.map_values(|g: Vec<i64>| g@)
}

/// The shows to merge because they share a TMDB id. `rows` are `(id, media
/// type, title, TMDB id, year)`; only shows with a TMDB id that is not empty
/// count.
pub fn tmdb_merge_groups(rows: &Vec<(i64, String, String, Option<String>, Option<i32>)>) -> (r: Vec<Vec<i64>>)
    ensures
        id_views(r@) == tmdb_merge_sets(shows_with_tmdb(rows@)),
{
    let mut ids: Vec<i64> = Vec::new();
    let mut k1: Vec<Vec<char>> = Vec::new();
    let mut k2: Vec<Vec<char>> = Vec::new();
    let mut i: usize = 0;
    let ghost mut kept: Seq<(i64, Seq<char>)> = Seq::empty();
    while i < rows.len()
        invariant
            i <= rows.len(),
            kept == shows_with_tmdb(rows@.subrange(0, i as int)),
            ids@ == Seq::new(kept.len(), |j: int| kept[j].0),
            key_views(k1@, k2@) == Seq::new(kept.len(), |j: int| (kept[j].1, Seq::<char>::empty())),
            k1@.len() == kept.len(),
            k2@.len() == kept.len(),
        decreases rows.len() - i,
    {
        assert(rows@.subrange(0, i + 1).drop_last() =~= rows@.subrange(0, i as int));
        assert(rows@.subrange(0, i + 1).last() == rows@[i as int]);
        let is_show = chars_equal(&chars_of(rows[i].1.as_str()), "tvshow");
        match &rows[i].3 {
            Some(t) => {
                let tc = chars_of(t.as_str());
                if is_show && tc.len() > 0 {
                    let ghost old_k1 = k1@;
                    let ghost old_k2 = k2@;
                    let ghost old_kept = kept;
                    ids.push(rows[i].0);
                    k1.push(tc);
                    k2.push(Vec::new());
                    proof {
                        kept = kept.push((rows@[i as int].0, t@));
                    }
                    assert(ids@ =~= Seq::new(kept.len(), |j: int| kept[j].0));
                    assert forall|j: int| 0 <= j < kept.len() implies #[trigger] key_views(k1@, k2@)[j] == (
                        kept[j].1,
                        Seq::<char>::empty(),
                    ) by {
                        if j < old_kept.len() {
                            assert(k1@[j] == old_k1[j] && k2@[j] == old_k2[j]);
                            assert(key_views(old_k1, old_k2)[j] == (old_kept[j].1, Seq::<char>::empty()));
                        }
                    }
                    assert(key_views(k1@, k2@) =~= Seq::new(kept.len(), |j: int| (kept[j].1, Seq::<char>::empty())));
                }
            },
            None => {},
        }
        i = i + 1;
    }
    assert(rows@.subrange(0, rows.len() as int) =~= rows@);
    let ghost keys = Seq::new(kept.len(), |j: int| (kept[j].1, Seq::<char>::empty()));
    let ghost id_seq = Seq::new(kept.len(), |j: int| kept[j].0);
    let found = find_groups(&ids, &k1, &k2);
    let ghost starts = group_starts(keys, id_seq, id_seq.len());
    let mut r: Vec<Vec<i64>> = Vec::new();
    let mut g: usize = 0;
    while g < found.len()
        invariant
            g <= found.len(),
            found@.len() == starts.len(),
            forall|h: int| 0 <= h < found@.len() ==> (#[trigger] found@[h]).1@ == starts[h].1,
            id_views(r@) == starts.subrange(0, g as int).map_values(|s: (int, Seq<i64>)| s.1),
        decreases found.len() - g,
    {
        let c = copy_ids(&found[g].1);
        let ghost before = id_views(r@);
        r.push(c);
        assert(id_views(r@) =~= before.push(c@));
        assert(id_views(r@) =~= starts.subrange(0, g + 1).map_values(|s: (int, Seq<i64>)| s.1));
        g = g + 1;
    }
    assert(starts.subrange(0, starts.len() as int) =~= starts);
    r
}

/// The `(id, title, TMDB id, year)` of the shows among `(id, media type,
/// title, TMDB id, year)` rows, in row order.
pub open spec fn shows_of(rows: Seq<(i64, String, String, Option<String>, Option<i32>)>) -> Seq<
    (i64, Seq<char>, Option<Seq<char>>, Option<i32>),
>
    decreases rows.len(),
{
    if rows.len() == 0 {
        Seq::empty()
    } else {
        let rest = shows_of(rows.drop_last());
        let r = rows.last();
        if r.1@ == "tvshow"@ {
            rest.push(
                (
                    r.0,
                    r.2@,
                    match r.3 {
                        Some(t) => Some(t@),
                        None => None,
                    },
                    r.4,
                ),
            )
        } else {
            rest
        }
    }
}

/// The values of the rows whose key is `k`, in row order.
pub open spec fn matching<T>(keys: Seq<GroupKey>, vals: Seq<T>, k: GroupKey) -> Seq<T>
    decreases keys.len(),
{
    if keys.len() == 0 || vals.len() == 0 {
        Seq::empty()
    } else {
        let rest = matching(keys.drop_last(), vals.drop_last(), k);
        if keys.last() == k {
            rest.push(vals.last())
        } else {
            rest
        }
    }
}

pub open spec fn title_keys(shows: Seq<(i64, Seq<char>, Option<Seq<char>>, Option<i32>)>) -> Seq<GroupKey> {
    Seq::new(shows.len(), |i: int| (normalized_title(shows[i].1), Seq::<char>::empty()))
}

/// Whether the shows with the normalised title of the group that starts at
/// row `s.0` pass the merge guard.
pub open spec fn guard_passes(shows: Seq<(i64, Seq<char>, Option<Seq<char>>, Option<i32>)>, s: (int, Seq<i64>)) -> bool {
    let keys = title_keys(shows);
    title_group_mergeable(
        matching(keys, Seq::new(shows.len(), |i: int| shows[i].2), keys[s.0]),
        matching(keys, Seq::new(shows.len(), |i: int| shows[i].3), keys[s.0]),
    )
}

/// The member ids of the groups among `starts` that pass the merge guard.
pub open spec fn mergeable(shows: Seq<(i64, Seq<char>, Option<Seq<char>>, Option<i32>)>, starts: Seq<(int, Seq<i64>)>) -> Seq<
    Seq<i64>,
>
    decreases starts.len(),
{
    if starts.len() == 0 {
        Seq::empty()
    } else {
        let rest = mergeable(shows, starts.drop_last());
        if guard_passes(shows, starts.last()) {
            rest.push(starts.last().1)
        } else {
            rest
        }
    }
}

/// The ids of the shows sharing a normalised title, for each title held by
/// two shows or more whose group passes the merge guard: ids ascending,
/// groups in the order of their first row.
pub open spec fn title_merge_sets(shows: Seq<(i64, Seq<char>, Option<Seq<char>>, Option<i32>)>) -> Seq<Seq<i64>> {
    let ids = Seq::new(shows.len(), |i: int| shows[i].0);
    mergeable(shows, group_starts(title_keys(shows), ids, ids.len()))
}

/// The TMDB ids and years of the rows whose key equals that of row `i`, in
/// row order.
fn matching_details(
    k1: &Vec<Vec<char>>,
    k2: &Vec<Vec<char>>,
    tmdbs: &Vec<Option<String>>,
    years: &Vec<Option<i32>>,
    i: usize,
) -> (r: (Vec<Option<String>>, Vec<Option<i32>>))
    requires
        k2.len() == k1.len(),
        tmdbs.len() == k1.len(),
        years.len() == k1.len(),
        i < k1.len(),
    ensures
        opt_views(r.0@) == matching(key_views(k1@, k2@), opt_views(tmdbs@), key_views(k1@, k2@)[i as int]),
        r.1@ == matching(key_views(k1@, k2@), years@, key_views(k1@, k2@)[i as int]),
        r.0@.len() == r.1@.len(),
{
    let ghost keys = key_views(k1@, k2@);
    let ghost k = keys[i as int];
    let ghost tv = opt_views(tmdbs@);
    let mut ts: Vec<Option<String>> = Vec::new();
    let mut ys: Vec<Option<i32>> = Vec::new();
    let mut j: usize = 0;
    while j < k1.len()
        invariant
            j <= k1.len(),
            k2.len() == k1.len(),
            tmdbs.len() == k1.len(),
            years.len() == k1.len(),
            i < k1.len(),
            keys == key_views(k1@, k2@),
            k == keys[i as int],
            tv == opt_views(tmdbs@),
            opt_views(ts@) == matching(keys.subrange(0, j as int), tv.subrange(0, j as int), k),
            ys@ == matching(keys.subrange(0, j as int), years@.subrange(0, j as int), k),
            ts@.len() == ys@.len(),
        decreases k1.len() - j,
    {
        assert(keys.subrange(0, j + 1).drop_last() =~= keys.subrange(0, j as int));
        assert(tv.subrange(0, j + 1).drop_last() =~= tv.subrange(0, j as int));
        assert(years@.subrange(0, j + 1).drop_last() =~= years@.subrange(0, j as int));
        if keys_equal(&k1[j], &k2[j], &k1[i], &k2[i]) {
            let t: Option<String> = match &tmdbs[j] {
                Some(s) => Some(s.clone()),
                None => None,
            };
            let ghost before = opt_views(ts@);
            ts.push(t);
            ys.push(years[j]);
            assert(opt_views(ts@) =~= before.push(tv[j as int]));
        }
        j = j + 1;
    }
    assert(keys.subrange(0, k1.len() as int) =~= keys);
    assert(tv.subrange(0, k1.len() as int) =~= tv);
    assert(years@.subrange(0, k1.len() as int) =~= years@);
    (ts, ys)
}

/// The shows to merge because their normalised titles agree. `rows` are
/// `(id, media type, title, TMDB id, year)`; only shows count, and a group
/// is merged only when it passes the merge guard (no two different TMDB ids,
/// no known years more than a year apart).
pub fn title_merge_groups(rows: &Vec<(i64, String, String, Option<String>, Option<i32>)>) -> (r: Vec<Vec<i64>>)
    ensures
        id_views(r@) == title_merge_sets(shows_of(rows@)),
{
    let mut ids: Vec<i64> = Vec::new();
    let mut k1: Vec<Vec<char>> = Vec::new();
    let mut k2: Vec<Vec<char>> = Vec::new();
    let mut tmdbs: Vec<Option<String>> = Vec::new();
    let mut years: Vec<Option<i32>> = Vec::new();
    let mut i: usize = 0;
    let ghost mut shows: Seq<(i64, Seq<char>, Option<Seq<char>>, Option<i32>)> = Seq::empty();
    while i < rows.len()
        invariant
            i <= rows.len(),
            shows == shows_of(rows@.subrange(0, i as int)),
            ids@ == Seq::new(shows.len(), |j: int| shows[j].0),
            key_views(k1@, k2@) == title_keys(shows),
            k1@.len() == shows.len(),
            k2@.len() == shows.len(),
            opt_views(tmdbs@) == Seq::new(shows.len(), |j: int| shows[j].2),
            years@ == Seq::new(shows.len(), |j: int| shows[j].3),
            tmdbs@.len() == shows.len(),
        decreases rows.len() - i,
    {
        assert(rows@.subrange(0, i + 1).drop_last() =~= rows@.subrange(0, i as int));
        assert(rows@.subrange(0, i + 1).last() == rows@[i as int]);
        if chars_equal(&chars_of(rows[i].1.as_str()), "tvshow") {
            let ghost old_k1 = k1@;
            let ghost old_k2 = k2@;
            let ghost old_t = tmdbs@;
            let ghost old_shows = shows;
            ids.push(rows[i].0);
            let norm = normalize_title_for_db(rows[i].2.as_str());
            k1.push(chars_of(norm.as_str()));
            k2.push(Vec::new());
            let t: Option<String> = match &rows[i].3 {
                Some(s) => Some(s.clone()),
                None => None,
            };
            tmdbs.push(t);
            years.push(rows[i].4);
            proof {
                shows = shows.push(
                    (
                        rows@[i as int].0,
                        rows@[i as int].2@,
                        match rows@[i as int].3 {
                            Some(s) => Some(s@),
                            None => None,
                        },
                        rows@[i as int].4,
                    ),
                );
            }
            assert(ids@ =~= Seq::new(shows.len(), |j: int| shows[j].0));
            assert forall|j: int| 0 <= j < shows.len() implies #[trigger] key_views(k1@, k2@)[j] == title_keys(shows)[j] by {
                if j < old_shows.len() {
                    assert(k1@[j] == old_k1[j] && k2@[j] == old_k2[j]);
                    assert(key_views(old_k1, old_k2)[j] == title_keys(old_shows)[j]);
                }
            }
            assert(key_views(k1@, k2@) =~= title_keys(shows));
            assert forall|j: int| 0 <= j < shows.len() implies #[trigger] opt_views(tmdbs@)[j] == shows[j].2 by {
                if j < old_shows.len() {
                    assert(tmdbs@[j] == old_t[j]);
                    assert(opt_views(old_t)[j] == old_shows[j].2);
                }
            }
            assert(opt_views(tmdbs@) =~= Seq::new(shows.len(), |j: int| shows[j].2));
            assert(years@ =~= Seq::new(shows.len(), |j: int| shows[j].3));
        }
        i = i + 1;
    }
    assert(rows@.subrange(0, rows.len() as int) =~= rows@);
    let ghost keys = title_keys(shows);
    let ghost id_seq = Seq::new(shows.len(), |j: int| shows[j].0);
    let found = find_groups(&ids, &k1, &k2);
    let ghost starts = group_starts(keys, id_seq, id_seq.len());
    let mut r: Vec<Vec<i64>> = Vec::new();
    let mut g: usize = 0;
    while g < found.len()
        invariant
            g <= found.len(),
            found@.len() == starts.len(),
            k1@.len() == ids@.len(),
            k2@.len() == ids@.len(),
            tmdbs@.len() == ids@.len(),
            years@.len() == ids@.len(),
            keys == key_views(k1@, k2@),
            keys == title_keys(shows),
            opt_views(tmdbs@) == Seq::new(shows.len(), |j: int| shows[j].2),
            years@ == Seq::new(shows.len(), |j: int| shows[j].3),
            forall|h: int| 0 <= h < found@.len() ==> {
                &&& (#[trigger] found@[h]).0 < ids@.len()
                &&& found@[h].0 as int == starts[h].0
                &&& found@[h].1@ == starts[h].1
            },
            id_views(r@) == mergeable(shows, starts.subrange(0, g as int)),
        decreases found.len() - g,
    {
        let ghost prefix = starts.subrange(0, g + 1);
        assert(prefix.drop_last() =~= starts.subrange(0, g as int));
        assert(prefix.last() == starts[g as int]);
        let k = found[g].0;
        let (ts, ys) = matching_details(&k1, &k2, &tmdbs, &years, k);
        if may_merge_title_group(&ts, &ys) {
            let c = copy_ids(&found[g].1);
            let ghost before = id_views(r@);
            r.push(c);
            assert(id_views(r@) =~= before.push(c@));
        }
        assert(id_views(r@) =~= mergeable(shows, prefix));
        g = g + 1;
    }
    assert(starts.subrange(0, starts.len() as int) =~= starts);
    r
}

} // verus!
