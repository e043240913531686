//! Reading artist ids from pages of saved tracks, and tallying them.

use vstd::prelude::*;
use crate::json::{JsonValue, JsonSpec, member, get_member, lemma_models};

verus! {

/// The views of a sequence of strings.
pub open spec fn string_views(s: Seq<String>) -> Seq<Seq<char>> {
    s.map_values(|x: String| x@)
}

/// The ids of a list of artist objects: every artist must carry a string `id`.
pub open spec fn artist_list_ids(artists: Seq<JsonSpec>) -> Option<Seq<Seq<char>>>
    decreases artists.len(),
{
    if artists.len() == 0 {
        Some(Seq::empty())
    } else {
        match (artist_list_ids(artists.drop_last()), member(artists.last(), "id"@)) {
            (Some(ids), Some(JsonSpec::Str(id))) => Some(ids.push(id)),
            _ => None,
        }
    }
}

/// The artist ids of one saved-track item: `item.track.artists` must exist;
/// when it is not an array the item lists no artist.
pub open spec fn item_artist_ids(item: JsonSpec) -> Option<Seq<Seq<char>>> {
    match member(item, "track"@) {
        None => None,
        Some(track) => match member(track, "artists"@) {
            None => None,
            Some(JsonSpec::Array(artists)) => artist_list_ids(artists),
            Some(_) => Some(Seq::empty()),
        },
    }
}

/// The artist ids of a sequence of saved-track items, in order.
pub open spec fn items_artist_ids(items: Seq<JsonSpec>) -> Option<Seq<Seq<char>>>
    decreases items.len(),
{
    if items.len() == 0 {
        Some(Seq::empty())
    } else {
        match (items_artist_ids(items.drop_last()), item_artist_ids(items.last())) {
            (Some(a), Some(b)) => Some(a + b),
            _ => None,
        }
    }
}

/// The artist ids listed on a page of saved tracks, one per appearance and in
/// the order of the page; `None` where the page lacks the structure that the
/// service relies on (an `items` array whose entries have `track.artists`,
/// and a string `id` for every listed artist).
pub open spec fn page_artist_ids(page: JsonSpec) -> Option<Seq<Seq<char>>> {
    match member(page, "items"@) {
        Some(JsonSpec::Array(items)) => items_artist_ids(items),
        _ => None,
    }
}

proof fn lemma_artist_list_none(s: Seq<JsonSpec>, k: int)
    requires
        0 <= k <= s.len(),
        artist_list_ids(s.take(k)) is None,
    ensures
        artist_list_ids(s) is None,
    decreases s.len(),
{
    if k < s.len() {
        assert(s.drop_last().take(k) =~= s.take(k));
        lemma_artist_list_none(s.drop_last(), k);
    } else {
        assert(s.take(k) =~= s);
    }
}

proof fn lemma_items_none(s: Seq<JsonSpec>, k: int)
    requires
        0 <= k <= s.len(),
        items_artist_ids(s.take(k)) is None,
    ensures
        items_artist_ids(s) is None,
    decreases s.len(),
{
    if k < s.len() {
        assert(s.drop_last().take(k) =~= s.take(k));
        lemma_items_none(s.drop_last(), k);
    } else {
        assert(s.take(k) =~= s);
    }
}

fn artist_list_ids_exec(artists: &Vec<JsonValue>) -> (r: Option<Vec<String>>)
    ensures
        match r {
            Some(v) => artist_list_ids(JsonValue::models(artists@)) == Some(string_views(v@)),
            None => artist_list_ids(JsonValue::models(artists@)) is None,
        },
{
    let ghost ms = JsonValue::models(artists@);
    proof {
        lemma_models(artists@);
    }
    let mut out: Vec<String> = Vec::new();
    let mut i: usize = 0;
    assert(ms.take(0) =~= Seq::<JsonSpec>::empty());
    assert(string_views(out@) =~= Seq::<Seq<char>>::empty());
    while i < artists.len()
        invariant
            ms == JsonValue::models(artists@),
            ms.len() == artists@.len(),
            forall|j: int| 0 <= j < artists@.len() ==> #[trigger] ms[j] == artists@[j].model(),
            i <= artists.len(),
            artist_list_ids(ms.take(i as int)) == Some(string_views(out@)),
        decreases artists.len() - i,
    {
        assert(ms.take(i + 1).drop_last() =~= ms.take(i as int));
        assert(ms.take(i + 1).last() == artists@[i as int].model());
        match get_member(&artists[i], "id") {
            Some(JsonValue::Str(id)) => {
                let ghost before = out@;
                out.push(id.clone());
                assert(string_views(out@) =~= string_views(before).push(id@));
            },
            _ => {
                proof {
                    lemma_artist_list_none(ms, i + 1);
                }
                return None;
            },
        }
        i = i + 1;
    }
    assert(ms.take(i as int) =~= ms);
    Some(out)
}


fn item_artist_ids_exec(item: &JsonValue) -> (r: Option<Vec<String>>)
    ensures
        match r {
            Some(v) => item_artist_ids(item@) == Some(string_views(v@)),
            None => item_artist_ids(item@) is None,
        },
{
    let track = match get_member(item, "track") {
        Some(t) => t,
        None => return None,
    };
    match get_member(track, "artists") {
        None => None,
        Some(JsonValue::Array(artists)) => artist_list_ids_exec(artists),
        Some(_) => {
            let v: Vec<String> = Vec::new();
            assert(string_views(v@) =~= Seq::<Seq<char>>::empty());
            Some(v)
        },
    }
}

/// The artist ids listed on a page of saved tracks (`items[].track.artists[].id`),
/// one per appearance and in page order; `None` exactly where the page lacks
/// the structure that [`page_artist_ids`] describes.
pub fn artist_ids_of_page(page: &JsonValue) -> (r: Option<Vec<String>>)
    ensures
        match r {
            Some(v) => page_artist_ids(page@) == Some(string_views(v@)),
            None => page_artist_ids(page@) is None,
        },
{
    let items = match get_member(page, "items") {
        Some(JsonValue::Array(items)) => items,
        _ => return None,
    };
    let ghost ms = JsonValue::models(items@);
    proof {
        lemma_models(items@);
    }
    let mut out: Vec<String> = Vec::new();
    let mut i: usize = 0;
    assert(ms.take(0) =~= Seq::<JsonSpec>::empty());
    assert(string_views(out@) =~= Seq::<Seq<char>>::empty());
    while i < items.len()
        invariant
            ms == JsonValue::models(items@),
            member(page@, "items"@) == Some(JsonSpec::Array(ms)),
            ms.len() == items@.len(),
            forall|j: int| 0 <= j < items@.len() ==> #[trigger] ms[j] == items@[j].model(),
            i <= items.len(),
            items_artist_ids(ms.take(i as int)) == Some(string_views(out@)),
        decreases items.len() - i,
    {
        assert(ms.take(i + 1).drop_last() =~= ms.take(i as int));
        assert(ms.take(i + 1).last() == items@[i as int].model());
        match item_artist_ids_exec(&items[i]) {
            Some(ids) => {
                let ghost before = out@;
                let mut j: usize = 0;
                while j < ids.len()
                    invariant
                        j <= ids.len(),
                        string_views(out@) == string_views(before) + string_views(ids@).take(j as int),
                    decreases ids.len() - j,
                {
                    let ghost mid = out@;
                    out.push(ids[j].clone());
                    assert(string_views(out@) =~= string_views(mid).push(ids@[j as int]@));
                    assert(string_views(ids@).take(j + 1) =~= string_views(ids@).take(j as int).push(ids@[j as int]@));
                    j = j + 1;
                }
                assert(string_views(ids@).take(j as int) =~= string_views(ids@));
            },
            None => {
                proof {
                    lemma_items_none(ms, i + 1);
                }
                return None;
            },
        }
        i = i + 1;
    }
    assert(ms.take(i as int) =~= ms);
    Some(out)
}


/// How often `k` has been seen according to the tally `m` (zero when never).
pub open spec fn count_in(m: Map<Seq<char>, int>, k: Seq<char>) -> int {
    if m.contains_key(k) {
        m[k]
    } else {
        0
    }
}

/// The tally `m` after one more appearance of `k`.
pub open spec fn tally_one(m: Map<Seq<char>, int>, k: Seq<char>) -> Map<Seq<char>, int> {
    m.insert(k, count_in(m, k) + 1)
}

/// The tally `m` after the appearances `ids`, taken in order.
pub open spec fn tally_all(m: Map<Seq<char>, int>, ids: Seq<Seq<char>>) -> Map<Seq<char>, int>
    decreases ids.len(),
{
    if ids.len() == 0 {
        m
    } else {
        tally_one(tally_all(m, ids.drop_last()), ids.last())
    }
}

/// The number of appearances of `k` in `ids`.
pub open spec fn occurrences(ids: Seq<Seq<char>>, k: Seq<char>) -> int
    decreases ids.len(),
{
    if ids.len() == 0 {
        0
    } else {
        occurrences(ids.drop_last(), k) + if ids.last() == k { 1int } else { 0int }
    }
}

/// Whether tallying `ids` on top of `m` keeps every count within `i32`.
pub open spec fn tally_fits(m: Map<Seq<char>, int>, ids: Seq<Seq<char>>) -> bool {
    forall|k: Seq<char>| count_in(m, k) + #[trigger] occurrences(ids, k) <= i32::MAX
}

/// A tally of artist ids: how many saved tracks list each artist.
pub struct ArtistCounts {
    entries: Vec<(String, i32)>,
    tally: Ghost<Map<Seq<char>, int>>,
}

impl View for ArtistCounts {
    type V = Map<Seq<char>, int>;

    closed spec fn view(&self) -> Map<Seq<char>, int> {
        self.tally@
    }
}

impl ArtistCounts {
    /// The tally's internal consistency.
    pub closed spec fn wf(&self) -> bool {
        &&& forall|i: int, j: int|
            0 <= i < j < self.entries@.len() ==> #[trigger] self.entries@[i].0@ != #[trigger] self.entries@[j].0@
        &&& forall|i: int|
            0 <= i < self.entries@.len() ==> self.tally@.contains_key(#[trigger] self.entries@[i].0@)
                && self.tally@[self.entries@[i].0@] == self.entries@[i].1
                && self.entries@[i].1 >= 1
        &&& forall|k: Seq<char>|
            #[trigger] self.tally@.contains_key(k) ==> exists|i: int|
                0 <= i < self.entries@.len() && #[trigger] self.entries@[i].0@ == k
        &&& self.tally@.dom().finite()
        &&& self.tally@.dom().len() == self.entries@.len()
    }

    /// An empty tally.
    pub fn new() -> (r: ArtistCounts)
        ensures
            r.wf(),
            r@ == Map::<Seq<char>, int>::empty(),
    {
        ArtistCounts { entries: Vec::new(), tally: Ghost(Map::empty()) }
    }

    fn find(&self, id: &String) -> (r: Option<usize>)
        requires
            self.wf(),
        ensures
            match r {
                Some(i) => i < self.entries@.len() && self.entries@[i as int].0@ == id@,
                None => !self@.contains_key(id@),
            },
    {
        let mut i: usize = 0;
        while i < self.entries.len()
            invariant
                self.wf(),
                i <= self.entries@.len(),
                forall|j: int| 0 <= j < i ==> #[trigger] self.entries@[j].0@ != id@,
            decreases self.entries.len() - i,
        {
            if self.entries[i].0 == *id {
                return Some(i);
            }
            i = i + 1;
        }
        None
    }

    /// How many different artists have been tallied.
    pub fn len(&self) -> (r: usize)
        requires
            self.wf(),
        ensures
            r == self@.dom().len(),
    {
        self.entries.len()
    }

    /// How many appearances of `id` have been tallied (zero when none).
    pub fn count(&self, id: &str) -> (r: i32)
        requires
            self.wf(),
        ensures
            r == count_in(self@, id@),
    {
        let k = String::from_str(id);
        match self.find(&k) {
            Some(i) => self.entries[i].1,
            None => 0,
        }
    }

    /// Tallies one more appearance of `id`.
    pub fn add(&mut self, id: String)
        requires
            old(self).wf(),
            count_in(old(self)@, id@) < i32::MAX,
        ensures
            final(self).wf(),
            final(self)@ == tally_one(old(self)@, id@),
    {
        match self.find(&id) {
            Some(i) => {
                let c = self.entries[i].1;
                let key = self.entries[i].0.clone();
                let ghost k = id@;
                assert(self.tally@.insert(k, c + 1).dom() =~= self.tally@.dom());
                self.entries.set(i, (key, c + 1));
                self.tally = Ghost(self.tally@.insert(k, c + 1));
                assert forall|j: int|
                    0 <= j < self.entries@.len() implies self.tally@.contains_key(
                    #[trigger] self.entries@[j].0@,
                ) && self.tally@[self.entries@[j].0@] == self.entries@[j].1 && self.entries@[j].1 >= 1 by {
                    if j != i {
                        assert(old(self).entries@[j] == self.entries@[j]);
                    }
                }
                assert forall|kk: Seq<char>| #[trigger] self.tally@.contains_key(kk) implies exists|j: int|
                    0 <= j < self.entries@.len() && #[trigger] self.entries@[j].0@ == kk by {
                    if kk == k {
                        assert(self.entries@[i as int].0@ == kk);
                    } else {
                        assert(old(self).tally@.contains_key(kk));
                        let j = choose|j: int|
                            0 <= j < old(self).entries@.len() && #[trigger] old(self).entries@[j].0@ == kk;
                        assert(self.entries@[j].0@ == kk);
                    }
                }
            },
            None => {
                let ghost k = id@;
                assert(self.tally@.insert(k, 1).dom() =~= self.tally@.dom().insert(k));
                self.entries.push((id, 1));
                self.tally = Ghost(self.tally@.insert(k, 1));
                assert forall|kk: Seq<char>| #[trigger] self.tally@.contains_key(kk) implies exists|j: int|
                    0 <= j < self.entries@.len() && #[trigger] self.entries@[j].0@ == kk by {
                    if kk == k {
                        assert(self.entries@[self.entries@.len() - 1].0@ == kk);
                    } else {
                        assert(old(self).tally@.contains_key(kk));
                        let j = choose|j: int|
                            0 <= j < old(self).entries@.len() && #[trigger] old(self).entries@[j].0@ == kk;
                        assert(self.entries@[j].0@ == kk);
                    }
                }
            },
        }
    }
}


impl ArtistCounts {
    proof fn lemma_counts_in_range(&self, k: Seq<char>)
        requires
            self.wf(),
        ensures
            count_in(self@, k) <= i32::MAX,
            count_in(self@, k) >= 0,
    {
        if self.tally@.contains_key(k) {
            let j = choose|j: int| 0 <= j < self.entries@.len() && #[trigger] self.entries@[j].0@ == k;
            assert(self.tally@[self.entries@[j].0@] == self.entries@[j].1);
        }
    }

    /// Whether the appearances `ids` can all be tallied without a count
    /// leaving the range of `i32`.
    pub fn can_tally(&self, ids: &Vec<String>) -> (r: bool)
        requires
            self.wf(),
        ensures
            r == tally_fits(self@, string_views(ids@)),
    {
        let ghost v = string_views(ids@);
        let mut i: usize = 0;
        while i < ids.len()
            invariant
                self.wf(),
                v == string_views(ids@),
                i <= ids.len(),
                forall|j: int| 0 <= j < i ==> count_in(self@, v[j]) + occurrences(v, v[j]) <= i32::MAX,
            decreases ids.len() - i,
        {
            let c = self.count(ids[i].as_str());
            proof {
                self.lemma_counts_in_range(v[i as int]);
            }
            let o = occurrences_of(ids, &ids[i]);
            if o > (i32::MAX - c) as usize {
                assert(!(count_in(self@, v[i as int]) + occurrences(v, v[i as int]) <= i32::MAX));
                return false;
            }
            i = i + 1;
        }
        assert forall|k: Seq<char>| count_in(self@, k) + #[trigger] occurrences(v, k) <= i32::MAX by {
            self.lemma_counts_in_range(k);
            if occurrences(v, k) > 0 {
                let j = lemma_occurrence_witness(v, k);
            }
        }
        true
    }
}

proof fn lemma_occurrence_witness(v: Seq<Seq<char>>, k: Seq<char>) -> (j: int)
    requires
        occurrences(v, k) > 0,
    ensures
        0 <= j < v.len(),
        v[j] == k,
    decreases v.len(),
{
    if v.last() == k {
        v.len() - 1
    } else {
        lemma_occurrence_witness(v.drop_last(), k)
    }
}

fn occurrences_of(ids: &Vec<String>, id: &String) -> (r: usize)
    ensures
        r == occurrences(string_views(ids@), id@),
{
    let ghost v = string_views(ids@);
    let mut n: usize = 0;
    let mut i: usize = 0;
    while i < ids.len()
        invariant
            v == string_views(ids@),
            i <= ids.len(),
            n == occurrences(v.take(i as int), id@),
            n <= i,
        decreases ids.len() - i,
    {
        assert(v.take(i + 1).drop_last() =~= v.take(i as int));
        if ids[i] == *id {
            n = n + 1;
        }
        i = i + 1;
    }
    assert(v.take(i as int) =~= v);
    n
}


/// Counting law: after tallying `ids` on top of `m`, every id's count is its
/// earlier count plus the number of times it appears in `ids`.
pub proof fn lemma_tally_counts(m: Map<Seq<char>, int>, ids: Seq<Seq<char>>, k: Seq<char>)
    ensures
        count_in(tally_all(m, ids), k) == count_in(m, k) + occurrences(ids, k),
        tally_all(m, ids).contains_key(k) <==> (m.contains_key(k) || ids.contains(k)),
    decreases ids.len(),
{
    if ids.len() > 0 {
        lemma_tally_counts(m, ids.drop_last(), k);
        if ids.contains(k) && ids.last() != k {
            let j = choose|j: int| 0 <= j < ids.len() && ids[j] == k;
            assert(ids.drop_last()[j] == k);
        }
        if ids.drop_last().contains(k) {
            let j = choose|j: int| 0 <= j < ids.drop_last().len() && ids.drop_last()[j] == k;
            assert(ids[j] == k);
        }
        if ids.last() == k {
            assert(ids[ids.len() - 1] == k);
        }
    }
}

proof fn lemma_occurrences_prefix(v: Seq<Seq<char>>, j: int, k: Seq<char>)
    requires
        0 <= j <= v.len(),
    ensures
        occurrences(v.take(j), k) <= occurrences(v, k),
    decreases v.len(),
{
    if j < v.len() {
        assert(v.drop_last().take(j) =~= v.take(j));
        lemma_occurrences_prefix(v.drop_last(), j, k);
    } else {
        assert(v.take(j) =~= v);
    }
}

/// Tallies the artists listed on one page of saved tracks.
///
/// Gives back `false`, and leaves the tally unchanged, exactly when the page
/// lacks the structure that [`page_artist_ids`] describes; otherwise every
/// listed artist is counted once per appearance.
pub fn get_artist(page: &JsonValue, all: &mut ArtistCounts) -> (ok: bool)
    requires
        old(all).wf(),
        page_artist_ids(page@) matches Some(ids) ==> tally_fits(old(all)@, ids),
    ensures
        final(all).wf(),
        match page_artist_ids(page@) {
            Some(ids) => ok && final(all)@ == tally_all(old(all)@, ids),
            None => !ok && final(all)@ == old(all)@,
        },
{
    let ids = match artist_ids_of_page(page) {
        Some(ids) => ids,
        None => return false,
    };
    let ghost v = string_views(ids@);
    let ghost m0 = all@;
    let mut i: usize = 0;
    assert(v.take(0) =~= Seq::<Seq<char>>::empty());
    while i < ids.len()
        invariant
            all.wf(),
            v == string_views(ids@),
            tally_fits(m0, v),
            i <= ids.len(),
            all@ == tally_all(m0, v.take(i as int)),
        decreases ids.len() - i,
    {
        let ghost k = v[i as int];
        proof {
            assert(v.take(i + 1).drop_last() =~= v.take(i as int));
            lemma_tally_counts(m0, v.take(i as int), k);
            lemma_occurrences_prefix(v, i + 1, k);
            assert(occurrences(v, k) + count_in(m0, k) <= i32::MAX);
        }
        all.add(ids[i].clone());
        i = i + 1;
    }
    assert(v.take(i as int) =~= v);
    true
}

impl ArtistCounts {
    /// Whether the tally already covers every appearance of `ids`, so that
    /// [`get_artist`] can count a page that lists `ids`.
    pub fn fits_page(&self, page: &JsonValue) -> (r: bool)
        requires
            self.wf(),
        ensures
            r == (page_artist_ids(page@) matches Some(ids) ==> tally_fits(self@, ids)),
    {
        match artist_ids_of_page(page) {
            Some(ids) => self.can_tally(&ids),
            None => true,
        }
    }

    /// The artists whose count is at least `min_tracks`, each once.
    pub fn at_least(&self, min_tracks: i32) -> (r: Vec<String>)
        requires
            self.wf(),
        ensures
            forall|i: int, j: int|
                0 <= i < j < r@.len() ==> #[trigger] r@[i]@ != #[trigger] r@[j]@,
            forall|k: Seq<char>|
                #[trigger] string_views(r@).contains(k) <==> (self@.contains_key(k) && self@[k] >= min_tracks),
    {
        let mut out: Vec<String> = Vec::new();
        let mut i: usize = 0;
        while i < self.entries.len()
            invariant
                self.wf(),
                i <= self.entries@.len(),
                forall|a: int, b: int|
                    0 <= a < b < out@.len() ==> #[trigger] out@[a]@ != #[trigger] out@[b]@,
                forall|a: int|
                    0 <= a < out@.len() ==> Self::selected_before(self.entries@, (#[trigger] out@[a])@, i as int, min_tracks),
                forall|j: int|
                    0 <= j < i && #[trigger] self.entries@[j].1 >= min_tracks ==> string_views(out@).contains(self.entries@[j].0@),
            decreases self.entries.len() - i,
        {
            let ghost before = out@;
            if self.entries[i].1 >= min_tracks {
                out.push(self.entries[i].0.clone());
                assert(string_views(out@) =~= string_views(before).push(self.entries@[i as int].0@));
                assert forall|a: int, b: int|
                    0 <= a < b < out@.len() implies #[trigger] out@[a]@ != #[trigger] out@[b]@ by {
                    if b == out@.len() - 1 {
                        assert(out@[a] == before[a]);
                        let j = Self::selected_witness(self.entries@, before[a]@, i as int, min_tracks);
                        assert(self.entries@[j].0@ != self.entries@[i as int].0@);
                    } else {
                        assert(out@[a] == before[a]);
                        assert(out@[b] == before[b]);
                    }
                }
                assert forall|a: int| 0 <= a < out@.len() implies Self::selected_before(
                    self.entries@, (#[trigger] out@[a])@, i + 1, min_tracks) by {
                    if a < before.len() {
                        assert(out@[a] == before[a]);
                        let j = Self::selected_witness(self.entries@, before[a]@, i as int, min_tracks);
                        assert(0 <= j < i + 1 && self.entries@[j].0@ == out@[a]@);
                    } else {
                        assert(self.entries@[i as int].0@ == out@[a]@);
                    }
                }
                assert forall|j: int| 0 <= j < i + 1 && #[trigger] self.entries@[j].1 >= min_tracks implies string_views(out@).contains(self.entries@[j].0@) by {
                    if j == i {
                        assert(string_views(out@)[out@.len() - 1] == self.entries@[j].0@);
                    } else {
                        assert(string_views(before).contains(self.entries@[j].0@));
                        let a = choose|a: int| 0 <= a < before.len() && string_views(before)[a] == self.entries@[j].0@;
                        assert(string_views(out@)[a] == self.entries@[j].0@);
                    }
                }
            } else {
                assert forall|a: int| 0 <= a < out@.len() implies Self::selected_before(
                    self.entries@, (#[trigger] out@[a])@, i + 1, min_tracks) by {
                    let j = Self::selected_witness(self.entries@, out@[a]@, i as int, min_tracks);
                    assert(0 <= j < i + 1 && self.entries@[j].0@ == out@[a]@);
                }
            }
            i = i + 1;
        }
        assert forall|k: Seq<char>|
            #[trigger] string_views(out@).contains(k) <==> (self@.contains_key(k) && self@[k] >= min_tracks) by {
            if string_views(out@).contains(k) {
                let a = choose|a: int| 0 <= a < string_views(out@).len() && string_views(out@)[a] == k;
                assert(out@[a]@ == k);
                let j = Self::selected_witness(self.entries@, out@[a]@, i as int, min_tracks);
                assert(self.tally@[self.entries@[j].0@] == self.entries@[j].1);
            }
            if self@.contains_key(k) && self@[k] >= min_tracks {
                let j = choose|j: int| 0 <= j < self.entries@.len() && #[trigger] self.entries@[j].0@ == k;
                assert(self.entries@[j].1 >= min_tracks);
            }
        }
        out
    }

    spec fn selected_before(entries: Seq<(String, i32)>, k: Seq<char>, i: int, min_tracks: i32) -> bool {
        exists|j: int| 0 <= j < i && #[trigger] entries[j].0@ == k && entries[j].1 >= min_tracks
    }

    proof fn selected_witness(entries: Seq<(String, i32)>, k: Seq<char>, i: int, min_tracks: i32) -> (j: int)
        requires
            Self::selected_before(entries, k, i, min_tracks),
        ensures
            0 <= j < i,
            entries[j].0@ == k,
            entries[j].1 >= min_tracks,
    {
        choose|j: int| 0 <= j < i && #[trigger] entries[j].0@ == k && entries[j].1 >= min_tracks
    }
}


/// Order law: tallying two pages gives the same counts whichever page is
/// tallied first, so the order in which concurrent page requests finish
/// does not change the result.
pub proof fn lemma_tally_order_independent(m: Map<Seq<char>, int>, a: Seq<Seq<char>>, b: Seq<Seq<char>>)
    ensures
        tally_all(tally_all(m, a), b) == tally_all(tally_all(m, b), a),
{
    let x = tally_all(tally_all(m, a), b);
    let y = tally_all(tally_all(m, b), a);
    assert forall|k: Seq<char>| #[trigger] x.contains_key(k) <==> y.contains_key(k) by {
        lemma_tally_counts(m, a, k);
        lemma_tally_counts(tally_all(m, a), b, k);
        lemma_tally_counts(m, b, k);
        lemma_tally_counts(tally_all(m, b), a, k);
    }
    assert forall|k: Seq<char>| #[trigger] x.contains_key(k) implies x[k] == y[k] by {
        lemma_tally_counts(m, a, k);
        lemma_tally_counts(tally_all(m, a), b, k);
        lemma_tally_counts(m, b, k);
        lemma_tally_counts(tally_all(m, b), a, k);
    }
    assert(x =~= y);
}


/// Both lists of ids joined, or `None` when either is missing.
pub open spec fn join_ids(a: Option<Seq<Seq<char>>>, b: Option<Seq<Seq<char>>>) -> Option<Seq<Seq<char>>> {
    match (a, b) {
        (Some(x), Some(y)) => Some(x + y),
        _ => None,
    }
}

/// Reading law: the ids of two runs of items one after the other are the ids
/// of the first run followed by those of the second; a run with an item
/// that lacks the expected structure spoils the whole.
pub proof fn lemma_items_concat(a: Seq<JsonSpec>, b: Seq<JsonSpec>)
    ensures
        items_artist_ids(a + b) == join_ids(items_artist_ids(a), items_artist_ids(b)),
    decreases b.len(),
{
    if b.len() == 0 {
        assert(a + b =~= a);
        if let Some(x) = items_artist_ids(a) {
            assert(x + Seq::<Seq<char>>::empty() =~= x);
        }
    } else {
        lemma_items_concat(a, b.drop_last());
        assert((a + b).drop_last() =~= a + b.drop_last());
        assert((a + b).last() == b.last());
        match (items_artist_ids(a), items_artist_ids(b.drop_last()), item_artist_ids(b.last())) {
            (Some(x), Some(y), Some(z)) => {
                assert(x + y + z =~= x + (y + z));
            },
            _ => {},
        }
    }
}

/// Reading law: a single item contributes exactly its own ids.
pub proof fn lemma_items_single(item: JsonSpec)
    ensures
        items_artist_ids(seq![item]) == item_artist_ids(item),
{
    assert(seq![item].drop_last() =~= Seq::<JsonSpec>::empty());
    assert(items_artist_ids(Seq::<JsonSpec>::empty()) == Some(Seq::<Seq<char>>::empty()));
    assert(seq![item].last() == item);
    if let Some(z) = item_artist_ids(item) {
        assert(Seq::<Seq<char>>::empty() + z =~= z);
    }
}

/// Reading law: the artists of two runs of an artist list one after the
/// other are those of the first run followed by those of the second.
pub proof fn lemma_artist_list_concat(a: Seq<JsonSpec>, b: Seq<JsonSpec>)
    ensures
        artist_list_ids(a + b) == join_ids(artist_list_ids(a), artist_list_ids(b)),
    decreases b.len(),
{
    if b.len() == 0 {
        assert(a + b =~= a);
        if let Some(x) = artist_list_ids(a) {
            assert(x + Seq::<Seq<char>>::empty() =~= x);
        }
    } else {
        lemma_artist_list_concat(a, b.drop_last());
        assert((a + b).drop_last() =~= a + b.drop_last());
        assert((a + b).last() == b.last());
        match (artist_list_ids(a), artist_list_ids(b.drop_last()), member(b.last(), "id"@)) {
            (Some(x), Some(y), Some(JsonSpec::Str(z))) => {
                assert(x + y.push(z) =~= (x + y).push(z));
            },
            _ => {},
        }
    }
}

/// Reading law: an artist with a string `id` is listed as that id alone.
pub proof fn lemma_artist_list_single(artist: JsonSpec, id: Seq<char>)
    requires
        member(artist, "id"@) == Some(JsonSpec::Str(id)),
    ensures
        artist_list_ids(seq![artist]) == Some(seq![id]),
{
    assert(seq![artist].drop_last() =~= Seq::<JsonSpec>::empty());
    assert(artist_list_ids(Seq::<JsonSpec>::empty()) == Some(Seq::<Seq<char>>::empty()));
    assert(seq![artist].last() == artist);
    assert(Seq::<Seq<char>>::empty().push(id) =~= seq![id]);
}

/// Page law: every item of the page is read. An item without the expected
/// structure makes the whole page unreadable, and when the page is readable
/// each item's ids stand in its result, one after the other, after the ids of
/// the items before it; the result is as long as all items' ids together.
pub proof fn lemma_page_reads_every_item(page: JsonSpec, items: Seq<JsonSpec>, k: int)
    requires
        member(page, "items"@) == Some(JsonSpec::Array(items)),
        0 <= k < items.len(),
    ensures
        item_artist_ids(items[k]) is None ==> page_artist_ids(page) is None,
        page_artist_ids(page) matches Some(ids) ==> (item_artist_ids(items[k]) matches Some(x) && (
        items_artist_ids(items.take(k)) matches Some(before) && ids.subrange(
            before.len() as int,
            (before.len() + x.len()) as int,
        ) == x && before.len() + x.len() <= ids.len())),
        page_artist_ids(page) matches Some(ids) ==> (items_artist_ids(items.take(k)) matches Some(before)
            && items_artist_ids(items.skip(k)) matches Some(after) && ids.len() == before.len()
            + after.len()),
{
    let a = items.take(k);
    let b = items.skip(k + 1);
    assert(items.skip(k) =~= seq![items[k]] + b);
    assert(items =~= a + (seq![items[k]] + b));
    lemma_items_concat(a, seq![items[k]] + b);
    lemma_items_concat(seq![items[k]], b);
    lemma_items_single(items[k]);
    if let Some(ids) = page_artist_ids(page) {
        let before = items_artist_ids(a)->Some_0;
        let x = item_artist_ids(items[k])->Some_0;
        let rest = items_artist_ids(b)->Some_0;
        assert(ids == before + (x + rest));
        assert(ids.subrange(before.len() as int, (before.len() + x.len()) as int) =~= x);
    }
}


proof fn lemma_artist_list_all_ids(arts: Seq<JsonSpec>, ids: Seq<Seq<char>>)
    requires
        ids.len() == arts.len(),
        forall|i: int| 0 <= i < arts.len() ==> member(#[trigger] arts[i], "id"@) == Some(JsonSpec::Str(ids[i])),
    ensures
        artist_list_ids(arts) == Some(ids),
    decreases arts.len(),
{
    if arts.len() > 0 {
        assert forall|i: int| 0 <= i < arts.drop_last().len() implies member(
            #[trigger] arts.drop_last()[i],
            "id"@,
        ) == Some(JsonSpec::Str(ids.drop_last()[i])) by {
            assert(arts.drop_last()[i] == arts[i]);
        }
        lemma_artist_list_all_ids(arts.drop_last(), ids.drop_last());
        assert(member(arts.last(), "id"@) == Some(JsonSpec::Str(ids.last())));
        assert(ids.drop_last().push(ids.last()) =~= ids);
    } else {
        assert(ids =~= Seq::<Seq<char>>::empty());
    }
}

/// Item law: an item whose `track.artists` lists artists that all carry a
/// string `id` gives exactly those ids, one per artist and in order.
pub proof fn lemma_item_lists_its_artists(item: JsonSpec, track: JsonSpec, arts: Seq<JsonSpec>, ids: Seq<Seq<char>>)
    requires
        member(item, "track"@) == Some(track),
        member(track, "artists"@) == Some(JsonSpec::Array(arts)),
        ids.len() == arts.len(),
        forall|i: int| 0 <= i < arts.len() ==> member(#[trigger] arts[i], "id"@) == Some(JsonSpec::Str(ids[i])),
    ensures
        item_artist_ids(item) == Some(ids),
{
    lemma_artist_list_all_ids(arts, ids);
}

} // verus!
