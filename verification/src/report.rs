//! Ordering the collected tracks and rendering the report that the job stores.

use vstd::prelude::*;
use crate::dates::{date_le, date_on_or_before, date_text, valid_date, date_to_string, is_valid_date};
use crate::text::{decimal_digits, u64_text};
use crate::tracks::{TrackItem, TrackItemView, item_views};

verus! {

broadcast use vstd::seq_lib::group_to_multiset_ensures;

/// How many tracks the report lists at most.
pub const PRINT_NUM_OF_TRACKS: usize = 20;

/// Whether the tracks are ordered newest first.
pub open spec fn newest_first(s: Seq<TrackItemView>) -> bool {
    forall|i: int, j: int| 0 <= i < j < s.len() ==> date_le(#[trigger] s[j].date, #[trigger] s[i].date)
}

/// One line of the report: position (from 1), credits, name and release date.
pub open spec fn report_line(i: nat, t: TrackItemView) -> Seq<char> {
    decimal_digits(i + 1) + ". "@ + t.artists + " - "@ + t.name + ", "@ + date_text(t.date) + "\n"@
}

/// The lines of the first `n` tracks of `s`.
pub open spec fn report_lines(s: Seq<TrackItemView>, n: nat) -> Seq<char>
    decreases n,
{
    if n == 0 {
        Seq::empty()
    } else {
        report_lines(s, (n - 1) as nat) + report_line((n - 1) as nat, s[n - 1])
    }
}

/// The report of an ordered list of tracks: a line for each of the first
/// `PRINT_NUM_OF_TRACKS` of them (or all of them, when fewer).
pub open spec fn report_text(s: Seq<TrackItemView>) -> Seq<char> {
    let n: nat = if s.len() < PRINT_NUM_OF_TRACKS { s.len() } else { PRINT_NUM_OF_TRACKS as nat };
    report_lines(s, n)
}

/// Whether every track carries a date that chrono can hold.
pub open spec fn all_dates_valid(s: Seq<TrackItemView>) -> bool {
    forall|i: int| 0 <= i < s.len() ==> valid_date(#[trigger] s[i].date)
}

/// Orders tracks newest first (by release date; the order among tracks of
/// the same date is left open).
pub fn sort_newest_first(tracks: Vec<TrackItem>) -> (r: Vec<TrackItem>)
    ensures
        newest_first(item_views(r@)),
        item_views(r@).to_multiset() == item_views(tracks@).to_multiset(),
{
    let ghost orig = item_views(tracks@);
    let mut rest = tracks;
    let mut out: Vec<TrackItem> = Vec::new();
    assert(item_views(out@) =~= Seq::<TrackItemView>::empty());
    while rest.len() > 0
        invariant
            newest_first(item_views(out@)),
            forall|a: int, b: int|
                0 <= a < out@.len() && 0 <= b < rest@.len() ==> date_le(
                    #[trigger] rest@[b].date,
                    #[trigger] out@[a].date,
                ),
            item_views(out@).to_multiset().add(item_views(rest@).to_multiset()) == orig.to_multiset(),
        decreases rest.len(),
    {
        let mut m: usize = 0;
        let mut i: usize = 1;
        while i < rest.len()
            invariant
                0 < rest@.len(),
                m < rest@.len(),
                1 <= i <= rest@.len(),
                m < i,
                forall|b: int| 0 <= b < i ==> date_le(#[trigger] rest@[b].date, rest@[m as int].date),
            decreases rest.len() - i,
        {
            if !date_on_or_before(&rest[i].date, &rest[m].date) {
                m = i;
            }
            i = i + 1;
        }
        let ghost rest_before = rest@;
        let ghost out_before = out@;
        let t = rest.remove(m);
        out.push(t);
        proof {
            assert(item_views(rest@) =~= item_views(rest_before).remove(m as int));
            assert(item_views(out@) =~= item_views(out_before).push(t@));
            assert(item_views(rest_before)[m as int] == t@);
            assert forall|a: int, b: int|
                0 <= a < out@.len() && 0 <= b < rest@.len() implies date_le(
                    #[trigger] rest@[b].date,
                    #[trigger] out@[a].date,
                ) by {
                if b < m {
                    assert(rest@[b] == rest_before[b]);
                } else {
                    assert(rest@[b] == rest_before[b + 1]);
                }
                if a < out_before.len() {
                    assert(out@[a] == out_before[a]);
                }
            }
            assert forall|i2: int, j2: int|
                0 <= i2 < j2 < item_views(out@).len() implies date_le(
                #[trigger] item_views(out@)[j2].date,
                #[trigger] item_views(out@)[i2].date,
            ) by {
                if j2 < out_before.len() {
                    assert(item_views(out_before)[j2] == item_views(out@)[j2]);
                    assert(item_views(out_before)[i2] == item_views(out@)[i2]);
                } else {
                    assert(out@[i2] == out_before[i2]);
                    assert(rest_before[m as int] == t);
                }
            }
            broadcast use vstd::multiset::group_multiset_axioms;
            assert(item_views(out@).to_multiset().add(item_views(rest@).to_multiset()) =~= orig.to_multiset());
        }
    }
    assert(item_views(rest@) =~= Seq::<TrackItemView>::empty());
    out
}


/// Renders the report of tracks taken in the given order.
pub fn render_report(tracks: &Vec<TrackItem>) -> (r: String)
    requires
        all_dates_valid(item_views(tracks@)),
    ensures
        r@ == report_text(item_views(tracks@)),
{
    let ghost v = item_views(tracks@);
    let limit: usize = if PRINT_NUM_OF_TRACKS < tracks.len() { PRINT_NUM_OF_TRACKS } else { tracks.len() };
    let mut result = String::new();
    let mut i: usize = 0;
    while i < limit
        invariant
            v == item_views(tracks@),
            all_dates_valid(v),
            limit <= tracks@.len(),
            limit <= PRINT_NUM_OF_TRACKS,
            i <= limit,
            result@ == report_lines(v, i as nat),
        decreases limit - i,
    {
        let track = &tracks[i];
        assert(v[i as int] == track@);
        assert(valid_date(v[i as int].date));
        let number = u64_text((i + 1) as u64);
        result.append(number.as_str());
        result.append(". ");
        result.append(track.artists.as_str());
        result.append(" - ");
        result.append(track.name.as_str());
        result.append(", ");
        let date = date_to_string(track.date);
        result.append(date.as_str());
        result.append("\n");
        assert(result@ =~= report_lines(v, (i + 1) as nat));
        i = i + 1;
    }
    result
}

/// The report of the collected tracks: they are ordered newest first and the
/// first `PRINT_NUM_OF_TRACKS` are listed, one line each. The order among
/// tracks released on the same day is left open.
pub fn encode_result(tracks: Vec<TrackItem>) -> (r: String)
    requires
        all_dates_valid(item_views(tracks@)),
    ensures
        exists|s: Seq<TrackItemView>|
            newest_first(s) && s.to_multiset() == item_views(tracks@).to_multiset() && r@ == report_text(s),
{
    let sorted = sort_newest_first(tracks);
    proof {
        let v = item_views(sorted@);
        assert forall|i: int| 0 <= i < v.len() implies valid_date(#[trigger] v[i].date) by {
            assert(v.to_multiset().count(v[i]) > 0);
            assert(item_views(tracks@).contains(v[i]));
        }
    }
    render_report(&sorted)
}


/// Whether every track carries a date that chrono can hold, as
/// [`encode_result`] asks.
pub fn dates_are_valid(tracks: &Vec<TrackItem>) -> (r: bool)
    ensures
        r == all_dates_valid(item_views(tracks@)),
{
    let mut i: usize = 0;
    while i < tracks.len()
        invariant
            i <= tracks@.len(),
            forall|j: int| 0 <= j < i ==> valid_date(#[trigger] item_views(tracks@)[j].date),
        decreases tracks.len() - i,
    {
        if !is_valid_date(&tracks[i].date) {
            assert(!valid_date(item_views(tracks@)[i as int].date));
            return false;
        }
        i = i + 1;
    }
    true
}


proof fn lemma_report_lines_prefix(s: Seq<TrackItemView>, t: Seq<TrackItemView>, n: nat)
    requires
        n <= s.len(),
    ensures
        report_lines(s + t, n) == report_lines(s, n),
    decreases n,
{
    if n > 0 {
        lemma_report_lines_prefix(s, t, (n - 1) as nat);
        assert((s + t)[n - 1] == s[n - 1]);
    }
}

/// Report law: while fewer than `PRINT_NUM_OF_TRACKS` (20) tracks are
/// listed, one more track adds exactly its own line, numbered after the
/// others, below the lines already there; once 20 are listed, further
/// tracks change nothing.
pub proof fn lemma_report_grows_by_one_line(s: Seq<TrackItemView>, t: TrackItemView)
    ensures
        PRINT_NUM_OF_TRACKS == 20,
        s.len() < 20 ==> report_text(s.push(t)) == report_text(s) + report_line(s.len(), t),
        s.len() >= 20 ==> report_text(s.push(t)) == report_text(s),
{
    let n: nat = if s.len() < PRINT_NUM_OF_TRACKS { s.len() } else { PRINT_NUM_OF_TRACKS as nat };
    assert(s.push(t) =~= s + seq![t]);
    lemma_report_lines_prefix(s, seq![t], n);
    if s.len() < 20 {
        assert(s.push(t)[s.len() as int] == t);
    }
}

/// Report law: only the first 20 tracks of the order matter.
pub proof fn lemma_report_first_twenty(s: Seq<TrackItemView>, t: Seq<TrackItemView>)
    requires
        s.len() >= 20,
    ensures
        report_text(s + t) == report_text(s),
{
    lemma_report_lines_prefix(s, t, 20);
}


/// Order law: in a list ordered newest first, no track is released after
/// a track listed above it: going down the list, the year never grows;
/// within a year, the month never grows; within a month, the day never grows.
pub proof fn lemma_newest_first_descends(s: Seq<TrackItemView>, i: int, j: int)
    requires
        newest_first(s),
        0 <= i < j < s.len(),
    ensures
        s[j].date.year <= s[i].date.year,
        s[j].date.year == s[i].date.year ==> s[j].date.month <= s[i].date.month,
        (s[j].date.year == s[i].date.year && s[j].date.month == s[i].date.month) ==> s[j].date.day
            <= s[i].date.day,
{
    assert(date_le(s[j].date, s[i].date));
}

} // verus!
