//! Album records of an artist and the dated tracks made from them.

use vstd::prelude::*;
use crate::dates::{Date, parse_from_str, chrono_parse_date};
use crate::artists::string_views;

verus! {

/// The pattern that release dates are read with.
pub const DATE_FORMAT: &'static str = "%Y-%m-%d";

/// An artist credited on a record.
pub struct Artist {
    pub name: String,
}

/// A record (album, single, ...) as the artists endpoint describes it.
pub struct Track {
    pub id: String,
    pub name: String,
    pub release_date: String,
    pub release_date_precision: String,
    pub artists: Vec<Artist>,
    pub track_type: String,
}

/// A page of records of one artist.
pub struct NewTracks {
    pub items: Vec<Track>,
}

/// A record reduced to what the report shows.
pub struct TrackItem {
    pub name: String,
    pub date: Date,
    pub artists: String,
}

/// The model of a [`TrackItem`].
pub struct TrackItemView {
    pub name: Seq<char>,
    pub date: Date,
    pub artists: Seq<char>,
}

impl View for TrackItem {
    type V = TrackItemView;

    open spec fn view(&self) -> TrackItemView {
        TrackItemView { name: self.name@, date: self.date, artists: self.artists@ }
    }
}

/// The credited artists' names, each followed by `", "`.
pub open spec fn artists_text(artists: Seq<Artist>) -> Seq<char>
    decreases artists.len(),
{
    if artists.len() == 0 {
        Seq::empty()
    } else {
        artists_text(artists.drop_last()) + artists.last().name@ + ", "@
    }
}

/// The release date as it is read: a date of precision `year` gets `-01-01` appended.
pub open spec fn release_date_text(t: Track) -> Seq<char> {
    if t.release_date_precision@ == "year"@ {
        t.release_date@ + "-01-01"@
    } else {
        t.release_date@
    }
}

/// What a record becomes once its release date has been read as `parsed`
/// (a date, or the parser's error text and error kind): its name, the date
/// and its credits, or the message of the parse error.
pub open spec fn track_from_date(t: Track, parsed: Result<Date, (Seq<char>, Seq<char>)>) -> Result<TrackItemView, Seq<char>> {
    match parsed {
        Ok(d) => Ok(TrackItemView { name: t.name@, date: d, artists: artists_text(t.artists@) }),
        Err((e, k)) => Err("fmt = "@ + DATE_FORMAT@ + ", "@ + e + ", "@ + k),
    }
}

/// What a record becomes: its name, its parsed release date and its
/// credits, or the message of the date parser's error.
pub open spec fn parsed_track(t: Track) -> Result<TrackItemView, Seq<char>> {
    track_from_date(t, chrono_parse_date(release_date_text(t), DATE_FORMAT@))
}

/// The models of a date parse outcome.
pub open spec fn parse_outcome_view(p: Result<Date, (String, String)>) -> Result<Date, (Seq<char>, Seq<char>)> {
    match p {
        Ok(d) => Ok(d),
        Err((e, k)) => Err((e@, k@)),
    }
}

impl Track {
    /// The release date as it is read: with `-01-01` appended when its
    /// precision is `year`.
    pub fn release_date_for_parsing(&self) -> (r: String)
        ensures
            r@ == release_date_text(*self),
    {
        let mut date = self.release_date.clone();
        let year = String::from_str("year");
        if self.release_date_precision == year {
            date.append("-01-01");
        }
        date
    }

    /// Turns the record into a dated track once its release date has been
    /// read as `parsed`, or into the message of the parse error.
    pub fn with_parsed_date(self, parsed: Result<Date, (String, String)>) -> (r: Result<TrackItem, String>)
        ensures
            match r {
                Ok(item) => track_from_date(self, parse_outcome_view(parsed)) == Ok::<TrackItemView, Seq<char>>(item@),
                Err(e) => track_from_date(self, parse_outcome_view(parsed)) == Err::<TrackItemView, Seq<char>>(e@),
            },
    {
        let ghost t = self;
        let date = match parsed {
            Ok(d) => d,
            Err((e, k)) => {
                let mut msg = String::from_str("fmt = ");
                msg.append(DATE_FORMAT);
                msg.append(", ");
                msg.append(e.as_str());
                msg.append(", ");
                msg.append(k.as_str());
                return Err(msg);
            },
        };
        let name = self.name;
        let mut artists = String::new();
        let mut i: usize = 0;
        while i < self.artists.len()
            invariant
                i <= self.artists@.len(),
                self.artists == t.artists,
                artists@ == artists_text(self.artists@.take(i as int)),
            decreases self.artists.len() - i,
        {
            assert(self.artists@.take(i + 1).drop_last() =~= self.artists@.take(i as int));
            artists.append(self.artists[i].name.as_str());
            artists.append(", ");
            i = i + 1;
        }
        assert(self.artists@.take(i as int) =~= self.artists@);
        Ok(TrackItem { name, date, artists })
    }

    /// Turns the record into a dated track, or into the message of the
    /// error met while reading its release date with chrono.
    pub fn parse_tracks(self) -> (r: Result<TrackItem, String>)
        ensures
            match r {
                Ok(item) => parsed_track(self) == Ok::<TrackItemView, Seq<char>>(item@),
                Err(e) => parsed_track(self) == Err::<TrackItemView, Seq<char>>(e@),
            },
    {
        let date = self.release_date_for_parsing();
        let parsed = parse_from_str(date.as_str(), DATE_FORMAT);
        self.with_parsed_date(parsed)
    }
}

/// The models of a sequence of tracks.
pub open spec fn item_views(s: Seq<TrackItem>) -> Seq<TrackItemView> {
    s.map_values(|x: TrackItem| x@)
}

/// The tracks made from the records that parse, in order.
pub open spec fn parsed_items(ts: Seq<Track>) -> Seq<TrackItemView>
    decreases ts.len(),
{
    if ts.len() == 0 {
        Seq::empty()
    } else {
        match parsed_track(ts.last()) {
            Ok(v) => parsed_items(ts.drop_last()).push(v),
            Err(_) => parsed_items(ts.drop_last()),
        }
    }
}

/// The error messages of the records that do not parse, in order.
pub open spec fn parse_failures(ts: Seq<Track>) -> Seq<Seq<char>>
    decreases ts.len(),
{
    if ts.len() == 0 {
        Seq::empty()
    } else {
        match parsed_track(ts.last()) {
            Ok(_) => parse_failures(ts.drop_last()),
            Err(e) => parse_failures(ts.drop_last()).push(e),
        }
    }
}

/// Parses every record of an artist's page: the tracks of the records that
/// parse, in order, and the error messages of those that do not (which the
/// service reports and skips).
pub fn collect_tracks(items: Vec<Track>) -> (r: (Vec<TrackItem>, Vec<String>))
    ensures
        item_views(r.0@) == parsed_items(items@),
        string_views(r.1@) == parse_failures(items@),
{
    let ghost all = items@;
    let mut items = items;
    let mut tracks: Vec<TrackItem> = Vec::new();
    let mut errors: Vec<String> = Vec::new();
    let ghost mut k: int = 0;
    assert(all.take(0) =~= Seq::<Track>::empty());
    assert(item_views(tracks@) =~= Seq::<TrackItemView>::empty());
    assert(string_views(errors@) =~= Seq::<Seq<char>>::empty());
    assert(items@ =~= all.skip(0));
    while items.len() > 0
        invariant
            0 <= k <= all.len(),
            items@ == all.skip(k),
            item_views(tracks@) == parsed_items(all.take(k)),
            string_views(errors@) == parse_failures(all.take(k)),
        decreases items.len(),
    {
        let t = items.remove(0);
        assert(t == all[k]);
        assert(all.take(k + 1).drop_last() =~= all.take(k));
        assert(all.take(k + 1).last() == all[k]);
        let ghost tracks_before = tracks@;
        let ghost errors_before = errors@;
        match t.parse_tracks() {
            Ok(item) => {
                tracks.push(item);
                assert(item_views(tracks@) =~= item_views(tracks_before).push(tracks@.last()@));
            },
            Err(e) => {
                errors.push(e);
                assert(string_views(errors@) =~= string_views(errors_before).push(errors@.last()@));
            },
        }
        proof {
            k = k + 1;
        }
        assert(items@ =~= all.skip(k));
    }
    assert(all.take(k) =~= all);
    (tracks, errors)
}

/// All tracks of a sequence of optional track lists, in order.
pub open spec fn flatten_present(s: Seq<Option<Seq<TrackItemView>>>) -> Seq<TrackItemView>
    decreases s.len(),
{
    if s.len() == 0 {
        Seq::empty()
    } else {
        match s.last() {
            Some(v) => flatten_present(s.drop_last()) + v,
            None => flatten_present(s.drop_last()),
        }
    }
}

/// The models of optional track lists.
pub open spec fn optional_lists_view(s: Seq<Option<Vec<TrackItem>>>) -> Seq<Option<Seq<TrackItemView>>> {
    s.map_values(|o: Option<Vec<TrackItem>>| match o {
        Some(v) => Some(item_views(v@)),
        None => None,
    })
}

/// Joins the track lists of the artists whose request succeeded, keeping
/// their order and the order within each list.
pub fn merge_track_lists(results: Vec<Option<Vec<TrackItem>>>) -> (r: Vec<TrackItem>)
    ensures
        item_views(r@) == flatten_present(optional_lists_view(results@)),
{
    let ghost all = results@;
    let ghost all_v = optional_lists_view(all);
    let mut results = results;
    let mut tracks: Vec<TrackItem> = Vec::new();
    let ghost mut k: int = 0;
    assert(all_v.take(0) =~= Seq::<Option<Seq<TrackItemView>>>::empty());
    assert(item_views(tracks@) =~= Seq::<TrackItemView>::empty());
    assert(results@ =~= all.skip(0));
    while results.len() > 0
        invariant
            0 <= k <= all.len(),
            all_v == optional_lists_view(all),
            results@ == all.skip(k),
            item_views(tracks@) == flatten_present(all_v.take(k)),
        decreases results.len(),
    {
        let entry = results.remove(0);
        assert(entry == all[k]);
        assert(all_v.take(k + 1).drop_last() =~= all_v.take(k));
        assert(all_v.take(k + 1).last() == all_v[k]);
        let ghost before = tracks@;
        match entry {
            Some(mut list) => {
                let ghost lv = list@;
                tracks.append(&mut list);
                assert(item_views(tracks@) =~= item_views(before) + item_views(lv));
            },
            None => {},
        }
        proof {
            k = k + 1;
        }
        assert(results@ =~= all.skip(k));
    }
    assert(all_v.take(k) =~= all_v);
    tracks
}


/// Every record either becomes a track or yields an error message.
pub proof fn lemma_every_record_accounted(ts: Seq<Track>)
    ensures
        parsed_items(ts).len() + parse_failures(ts).len() == ts.len(),
    decreases ts.len(),
{
    if ts.len() > 0 {
        lemma_every_record_accounted(ts.drop_last());
    }
}


/// Credits law: the credits of two lists one after the other are the credits
/// of the first followed by those of the second.
pub proof fn lemma_artists_text_concat(s: Seq<Artist>, t: Seq<Artist>)
    ensures
        artists_text(s + t) == artists_text(s) + artists_text(t),
    decreases t.len(),
{
    if t.len() == 0 {
        assert(s + t =~= s);
        assert(artists_text(t) =~= Seq::<char>::empty());
        assert(artists_text(s) + artists_text(t) =~= artists_text(s));
    } else {
        lemma_artists_text_concat(s, t.drop_last());
        assert((s + t).drop_last() =~= s + t.drop_last());
        assert((s + t).last() == t.last());
        assert(artists_text(s + t) =~= artists_text(s) + artists_text(t));
    }
}

/// Credits law: one artist is credited as its name followed by `", "`, so
/// every credited artist appears, in order, each followed by `", "`.
pub proof fn lemma_artists_text_single(a: Artist)
    ensures
        artists_text(seq![a]) == a.name@ + ", "@,
        artists_text(Seq::<Artist>::empty()) == Seq::<char>::empty(),
{
    assert(seq![a].drop_last() =~= Seq::<Artist>::empty());
    assert(artists_text(Seq::<Artist>::empty()) == Seq::<char>::empty());
    assert(seq![a].last() == a);
    assert(artists_text(seq![a]) == artists_text(Seq::<Artist>::empty()) + a.name@ + ", "@);
    assert(artists_text(seq![a]) =~= a.name@ + ", "@);
}

/// Joining law: joining two runs of results one after the other gives the
/// tracks of the first run followed by those of the second.
pub proof fn lemma_flatten_concat(s: Seq<Option<Seq<TrackItemView>>>, t: Seq<Option<Seq<TrackItemView>>>)
    ensures
        flatten_present(s + t) == flatten_present(s) + flatten_present(t),
    decreases t.len(),
{
    if t.len() == 0 {
        assert(s + t =~= s);
        assert(flatten_present(s) + flatten_present(t) =~= flatten_present(s));
    } else {
        lemma_flatten_concat(s, t.drop_last());
        assert((s + t).drop_last() =~= s + t.drop_last());
        assert((s + t).last() == t.last());
        match t.last() {
            Some(v) => {
                assert(flatten_present(s + t) =~= flatten_present(s) + flatten_present(t));
            },
            None => {},
        }
    }
}

/// Joining law: a successful result contributes all of its tracks, a failed
/// one none.
pub proof fn lemma_flatten_single(v: Seq<TrackItemView>)
    ensures
        flatten_present(seq![Some(v)]) == v,
        flatten_present(seq![None::<Seq<TrackItemView>>]) == Seq::<TrackItemView>::empty(),
{
    assert(seq![Some(v)].drop_last() =~= Seq::<Option<Seq<TrackItemView>>>::empty());
    assert(seq![None::<Seq<TrackItemView>>].drop_last() =~= Seq::<Option<Seq<TrackItemView>>>::empty());
    assert(flatten_present(Seq::<Option<Seq<TrackItemView>>>::empty()) == Seq::<TrackItemView>::empty());
    assert(seq![Some(v)].last() == Some(v));
    assert(flatten_present(seq![Some(v)]) == flatten_present(Seq::<Option<Seq<TrackItemView>>>::empty()) + v);
    assert(flatten_present(seq![Some(v)]) =~= v);
}

/// How many tracks the successful results hold together.
pub open spec fn present_track_count(s: Seq<Option<Seq<TrackItemView>>>) -> nat
    decreases s.len(),
{
    if s.len() == 0 {
        0
    } else {
        let rest = present_track_count(s.drop_first());
        match s.first() {
            Some(v) => v.len() + rest,
            None => rest,
        }
    }
}

/// Joining law: the joined list is exactly as long as all the lists of the
/// successful results together; no track is dropped and none is added.
pub proof fn lemma_flatten_length(s: Seq<Option<Seq<TrackItemView>>>)
    ensures
        flatten_present(s).len() == present_track_count(s),
    decreases s.len(),
{
    if s.len() > 0 {
        lemma_flatten_length(s.drop_first());
        assert(s =~= seq![s.first()] + s.drop_first());
        lemma_flatten_concat(seq![s.first()], s.drop_first());
        match s.first() {
            Some(v) => lemma_flatten_single(v),
            None => lemma_flatten_single(Seq::<TrackItemView>::empty()),
        }
    }
}

/// Joining law: every track of every successful result is kept in the
/// joined list.
pub proof fn lemma_flatten_keeps_every_track(s: Seq<Option<Seq<TrackItemView>>>, i: int, j: int)
    requires
        0 <= i < s.len(),
        s[i] matches Some(v) && 0 <= j < v.len(),
    ensures
        flatten_present(s).contains(s[i]->Some_0[j]),
{
    let v = s[i]->Some_0;
    let a = s.take(i);
    let b = s.skip(i + 1);
    assert(s =~= a + seq![s[i]] + b);
    lemma_flatten_concat(a + seq![s[i]], b);
    lemma_flatten_concat(a, seq![s[i]]);
    lemma_flatten_single(v);
    let f = flatten_present(s);
    assert(f == flatten_present(a) + v + flatten_present(b));
    assert(f[flatten_present(a).len() + j] == v[j]);
}


/// Parsing law: the tracks of two runs of records one after the other are
/// the tracks of the first run followed by those of the second, and the same
/// holds of the error messages.
pub proof fn lemma_parsed_items_concat(s: Seq<Track>, t: Seq<Track>)
    ensures
        parsed_items(s + t) == parsed_items(s) + parsed_items(t),
        parse_failures(s + t) == parse_failures(s) + parse_failures(t),
    decreases t.len(),
{
    if t.len() == 0 {
        assert(s + t =~= s);
        assert(parsed_items(s) + parsed_items(t) =~= parsed_items(s));
        assert(parse_failures(s) + parse_failures(t) =~= parse_failures(s));
    } else {
        lemma_parsed_items_concat(s, t.drop_last());
        assert((s + t).drop_last() =~= s + t.drop_last());
        assert((s + t).last() == t.last());
        assert(parsed_items(s + t) =~= parsed_items(s) + parsed_items(t));
        assert(parse_failures(s + t) =~= parse_failures(s) + parse_failures(t));
    }
}

/// Parsing law: a record that parses contributes exactly its track, and one
/// that does not contributes exactly its error message.
pub proof fn lemma_parsed_items_single(t: Track)
    ensures
        parsed_track(t) matches Ok(v) ==> parsed_items(seq![t]) == seq![v] && parse_failures(seq![t]).len() == 0,
        parsed_track(t) matches Err(e) ==> parse_failures(seq![t]) == seq![e] && parsed_items(seq![t]).len() == 0,
{
    assert(seq![t].drop_last() =~= Seq::<Track>::empty());
    assert(seq![t].last() == t);
    assert(parsed_items(Seq::<Track>::empty()) == Seq::<TrackItemView>::empty());
    assert(parse_failures(Seq::<Track>::empty()) == Seq::<Seq<char>>::empty());
    match parsed_track(t) {
        Ok(v) => {
            assert(parsed_items(seq![t]) =~= seq![v]);
        },
        Err(e) => {
            assert(parse_failures(seq![t]) =~= seq![e]);
        },
    }
}

} // verus!
