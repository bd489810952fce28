//! The watch streak: how many consecutive days, ending today or yesterday,
//! have some watch activity.
use vstd::prelude::*;
use crate::text::chars_of;

verus! {

/// The day before a `YYYY-MM-DD` date, as chrono computes it.
pub uninterp spec fn day_before(date: Seq<char>) -> Seq<char>;

/// `chrono::NaiveDate::parse_from_str(date, "%Y-%m-%d")` (the default date,
/// 1970-01-01, when that fails), moved back one day and formatted again as
/// `%Y-%m-%d`. The contract only names the result as a function of the
/// input text. At the earliest representable date the date is kept.
#[verifier::external_body]
fn previous_day(date: &str) -> (r: String)
    ensures
        r@ == day_before(date@),
{
    let parsed = chrono::NaiveDate::parse_from_str(date, "%Y-%m-%d").unwrap_or_default();
    parsed.pred_opt().unwrap_or(parsed).format("%Y-%m-%d").to_string()
}

/// `a` sorts before `b`, character by character (for UTF-8 text this is the
/// byte order `String` uses).
pub open spec fn text_less(a: Seq<char>, b: Seq<char>) -> bool
    decreases a.len(),
{
    if a.len() == 0 {
        b.len() > 0
    } else if b.len() == 0 {
        false
    } else if a[0] != b[0] {
        a[0] < b[0]
    } else {
        text_less(a.drop_first(), b.drop_first())
    }
}

/// The text order is transitive, and no text sorts before itself.
pub proof fn lemma_text_less_transitive(a: Seq<char>, b: Seq<char>, c: Seq<char>)
    ensures
        text_less(a, b) && text_less(b, c) ==> text_less(a, c),
        !text_less(a, a),
    decreases a.len(),
{
    if a.len() > 0 {
        lemma_text_less_transitive(a.drop_first(), a.drop_first(), a.drop_first());
        if b.len() > 0 && c.len() > 0 {
            lemma_text_less_transitive(a.drop_first(), b.drop_first(), c.drop_first());
        }
    }
}

pub(crate) fn less_than(a: &Vec<char>, b: &Vec<char>) -> (r: bool)
    ensures
        r == text_less(a@, b@),
{
    let mut i: usize = 0;
    assert(a@.subrange(0, a.len() as int) =~= a@);
    assert(b@.subrange(0, b.len() as int) =~= b@);
    while i < a.len() && i < b.len()
        invariant
            i <= a.len(),
            i <= b.len(),
            text_less(a@, b@) == text_less(a@.subrange(i as int, a.len() as int), b@.subrange(i as int, b.len() as int)),
        decreases a.len() - i,
    {
        if a[i] != b[i] {
            let ghost sa = a@.subrange(i as int, a.len() as int);
            let ghost sb = b@.subrange(i as int, b.len() as int);
            assert(sa[0] == a@[i as int] && sb[0] == b@[i as int]);
            return a[i] < b[i];
        }
        let ghost sa = a@.subrange(i as int, a.len() as int);
        let ghost sb = b@.subrange(i as int, b.len() as int);
        assert(sa.drop_first() =~= a@.subrange(i + 1, a.len() as int));
        assert(sb.drop_first() =~= b@.subrange(i + 1, b.len() as int));
        i = i + 1;
    }
    i == a.len() && i < b.len()
}

/// Consecutive days counted down from `expected`, reading `days` (distinct
/// dates, newest first) in order: a day equal to the expected one counts and
/// moves the expectation a day back; a day earlier than the expected one
/// ends the count; a later day is skipped.
pub open spec fn streak_from(days: Seq<Seq<char>>, expected: Seq<char>) -> nat
    decreases days.len(),
{
    if days.len() == 0 {
        0
    } else if days[0] == expected {
        1 + streak_from(days.drop_first(), day_before(expected))
    } else if text_less(days[0], expected) {
        0
    } else {
        streak_from(days.drop_first(), expected)
    }
}

/// The streak of activity days: counted from today when the newest day is
/// today, from yesterday when it is yesterday, and zero otherwise.
pub open spec fn watch_streak(days: Seq<Seq<char>>, today: Seq<char>, yesterday: Seq<char>) -> nat {
    if days.len() == 0 {
        0
    } else if days[0] == today {
        streak_from(days, today)
    } else if days[0] == yesterday {
        streak_from(days, yesterday)
    } else {
        0
    }
}

/// A streak never counts more days than were recorded.
pub proof fn lemma_streak_bounded(days: Seq<Seq<char>>, today: Seq<char>, yesterday: Seq<char>)
    ensures
        watch_streak(days, today, yesterday) <= days.len(),
{
    lemma_streak_from_bounded(days, today);
    lemma_streak_from_bounded(days, yesterday);
}

proof fn lemma_streak_from_bounded(days: Seq<Seq<char>>, expected: Seq<char>)
    ensures
        streak_from(days, expected) <= days.len(),
    decreases days.len(),
{
    if days.len() > 0 {
        lemma_streak_from_bounded(days.drop_first(), day_before(expected));
        lemma_streak_from_bounded(days.drop_first(), expected);
    }
}

pub open spec fn day_views(days: Seq<String>) -> Seq<Seq<char>> {
    days.map_values(|d: String| d@)
}

/// The watch streak over `days`, the distinct activity dates newest first.
pub fn compute_watch_streak(days: &Vec<String>, today: &str, yesterday: &str) -> (r: u64)
    ensures
        r == watch_streak(day_views(days@), today@, yesterday@),
{
    let ghost views = day_views(days@);
    if days.len() == 0 {
        return 0;
    }
    let first = chars_of(days[0].as_str());
    let mut expected = if crate::config::vec_equal(&first, &chars_of(today)) {
        today.to_owned()
    } else if crate::config::vec_equal(&first, &chars_of(yesterday)) {
        yesterday.to_owned()
    } else {
        return 0;
    };
    let ghost start = expected@;
    assert(views[0] == first@);
    assert(watch_streak(views, today@, yesterday@) == streak_from(views, start));
    let mut streak: u64 = 0;
    let mut i: usize = 0;
    assert(views.subrange(0, views.len() as int) =~= views);
    while i < days.len()
        invariant
            i <= days.len(),
            watch_streak(views, today@, yesterday@) == streak_from(views, start),
            views == day_views(days@),
            streak <= i,
            streak + streak_from(views.subrange(i as int, views.len() as int), expected@) == streak_from(
                views,
                start,
            ),
        decreases days.len() - i,
    {
        let ghost rest = views.subrange(i as int, views.len() as int);
        assert(rest[0] == days@[i as int]@);
        assert(rest.drop_first() =~= views.subrange(i + 1, views.len() as int));
        let day = chars_of(days[i].as_str());
        let exp = chars_of(expected.as_str());
        if crate::config::vec_equal(&day, &exp) {
            streak = streak + 1;
            expected = previous_day(expected.as_str());
        } else if less_than(&day, &exp) {
            return streak;
        }
        i = i + 1;
    }
    assert(views.subrange(days.len() as int, views.len() as int) =~= Seq::<Seq<char>>::empty());
    assert(views.subrange(0, views.len() as int) =~= views);
    streak
}

} // verus!
