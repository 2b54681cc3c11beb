//! The in-memory store: one series of points for every metric name.
//!
//! A series keeps its points in the order in which they arrived. Nothing is
//! ever dropped, merged or reordered, and a series has no bound on its
//! length.

use vstd::prelude::*;
use vstd::hash_map::StringHashMap;
use crate::metrics::{parse_line, Metric, Sample};
use crate::storage_error::{Rejection, StorageError};

verus! {

/// The points of a series as specifications see them: a time and the literal
/// of the value observed then.
pub open spec fn points_view(points: Seq<(i64, String)>) -> Seq<(i64, Seq<char>)> {
    points.map_values(|point: (i64, String)| (point.0, point.1@))
}

/// The series filed under `name`: empty when the name is unknown.
pub open spec fn series_of(
    store: Map<Seq<char>, Seq<(i64, Seq<char>)>>,
    name: Seq<char>,
) -> Seq<(i64, Seq<char>)> {
    if store.contains_key(name) {
        store[name]
    } else {
        Seq::empty()
    }
}

/// The store after `sample` has been added at the end of its series.
pub open spec fn appended(store: Map<Seq<char>, Seq<(i64, Seq<char>)>>, sample: Sample) -> Map<
    Seq<char>,
    Seq<(i64, Seq<char>)>,
> {
    store.insert(sample.key(), series_of(store, sample.key()).push(sample.point()))
}

/// The store after `line` has been offered to it at time `timestamp`: with the
/// line's sample added if the line says anything, unchanged if not.
pub open spec fn stored(
    store: Map<Seq<char>, Seq<(i64, Seq<char>)>>,
    line: Seq<char>,
    timestamp: i64,
) -> Map<Seq<char>, Seq<(i64, Seq<char>)>> {
    match parse_line(line) {
        Some(reading) => appended(store, reading.at(timestamp)),
        None => store,
    }
}

/// The report of a line that says nothing.
pub open spec fn rejection(line: Seq<char>) -> Rejection {
    Rejection { message: "Could not parse Metric"@, metric: line }
}

/// The store of all series, owned by whoever applies the commands.
pub struct Storage {
    /// Where in `series` the series of each known name lies.
    index: StringHashMap<usize>,
    series: Vec<Vec<(i64, String)>>,
}

impl View for Storage {
    type V = Map<Seq<char>, Seq<(i64, Seq<char>)>>;

    closed spec fn view(&self) -> Map<Seq<char>, Seq<(i64, Seq<char>)>> {
        Map::new(
            |name: Seq<char>| self.index@.contains_key(name),
            |name: Seq<char>| points_view(self.series@[self.index@[name] as int]@),
        )
    }
}

impl Storage {
    /// The invariant of the store: every known name points at a series of
    /// its own. [`Storage::new`] establishes it and every operation keeps it.
    pub closed spec fn well_formed(&self) -> bool {
        &&& forall|name: Seq<char>| #[trigger]
            self.index@.contains_key(name) ==> self.index@[name] < self.series@.len()
        &&& forall|a: Seq<char>, b: Seq<char>|
            #![trigger self.index@[a], self.index@[b]]
            self.index@.contains_key(a) && self.index@.contains_key(b) && a != b
                ==> self.index@[a] != self.index@[b]
    }

    /// An empty store.
    pub fn new() -> (storage: Self)
        ensures
            storage.well_formed(),
            storage@ == Map::<Seq<char>, Seq<(i64, Seq<char>)>>::empty(),
    {
        let storage = Self { index: StringHashMap::new(), series: Vec::new() };
        assert(storage@ =~= Map::<Seq<char>, Seq<(i64, Seq<char>)>>::empty());
        storage
    }

    /// Adds a sample at the end of the series of its name, which is created
    /// if the name is new.
    pub fn append(&mut self, sample: Metric)
        requires
            old(self).well_formed(),
        ensures
            final(self).well_formed(),
            final(self)@ == appended(old(self)@, sample@),
    {
        let key = sample.key();
        let ghost point = sample@.point();
        let ghost before = self@;
        let known: Option<usize> = match self.index.get(key.as_str()) {
            Some(slot) => Some(*slot),
            None => None,
        };
        match known {
            Some(slot) => {
                let ghost points = self.series@[slot as int]@;
                let pushed = sample.into_point();
                assert(points_view(points.push(pushed)) == points_view(points).push(point));
                self.series[slot].push(pushed);
            },
            None => {
                let slot: usize = self.series.len();
                let mut points: Vec<(i64, String)> = Vec::new();
                let pushed = sample.into_point();
                assert(points_view(points@.push(pushed)) == Seq::<(i64, Seq<char>)>::empty().push(
                    point,
                ));
                points.push(pushed);
                self.series.push(points);
                self.index.insert(key, slot);
            },
        }
        assert(self@ =~= appended(before, sample@));
    }

    /// Reads a line at the given time and adds its sample; reports the line
    /// if it says nothing.
    pub fn store_at(&mut self, metric_str: String, timestamp: i64) -> (r: Result<(), StorageError>)
        requires
            old(self).well_formed(),
        ensures
            final(self).well_formed(),
            final(self)@ == stored(old(self)@, metric_str@, timestamp),
            match r {
                Ok(_) => parse_line(metric_str@) is Some,
                Err(e) => parse_line(metric_str@) is None && e@ == rejection(metric_str@),
            },
    {
        match Metric::parse_at(metric_str.as_str(), timestamp) {
            Some(metric) => {
                self.append(metric);
                Ok(())
            },
            None => Err(StorageError::new("Could not parse Metric".to_owned(), metric_str)),
        }
    }

    /// Reads a line, stamps its sample with the current time and adds it;
    /// reports the line if it says nothing.
    ///
    /// The time comes from the clock, so the contract holds for some
    /// timestamp; [`Storage::store_at`] is the same operation with the time
    /// handed in.
    pub fn store(&mut self, metric_str: String) -> (r: Result<(), StorageError>)
        requires
            old(self).well_formed(),
        ensures
            final(self).well_formed(),
            match r {
                Ok(_) => parse_line(metric_str@) is Some && exists|timestamp: i64|
                    final(self)@ == stored(old(self)@, metric_str@, timestamp),
                Err(e) => parse_line(metric_str@) is None && final(self)@ == old(self)@ && e@
                    == rejection(metric_str@),
            },
    {
        match Metric::from_str(metric_str.as_str()) {
            Some(metric) => {
                let ghost timestamp = metric.timestamp;
                self.append(metric);
                assert(self@ == stored(old(self)@, metric_str@, timestamp));
                Ok(())
            },
            None => Err(StorageError::new("Could not parse Metric".to_owned(), metric_str)),
        }
    }

    /// The points filed under a name, oldest first; none if the name is
    /// unknown.
    pub fn query(&self, query: String) -> (points: Vec<(i64, String)>)
        requires
            self.well_formed(),
        ensures
            points_view(points@) == series_of(self@, query@),
    {
        match self.index.get(query.as_str()) {
            Some(slot) => copy_points(&self.series[*slot]),
            None => {
                let points: Vec<(i64, String)> = Vec::new();
                assert(points_view(points@) == Seq::<(i64, Seq<char>)>::empty());
                points
            },
        }
    }
}

/// Copies a series.
fn copy_points(points: &Vec<(i64, String)>) -> (copy: Vec<(i64, String)>)
    ensures
        copy@ == points@,
{
    let mut copy: Vec<(i64, String)> = Vec::new();
    let mut i: usize = 0;
    while i < points.len()
        invariant
            i <= points@.len(),
            copy@ == points@.take(i as int),
        decreases points@.len() - i,
    {
        copy.push((points[i].0, points[i].1.clone()));
        assert(points@.take(i + 1) == points@.take(i as int).push(points@[i as int]));
        i += 1;
    }
    assert(points@.take(i as int) == points@);
    copy
}

/// Order of arrival is order in the series: two samples of one name, added
/// one after the other, end up as the last two points of the series, the
/// first before the second; under a name that was unknown they are the
/// whole series.
pub proof fn lemma_appends_keep_order(
    store: Map<Seq<char>, Seq<(i64, Seq<char>)>>,
    first: Sample,
    second: Sample,
)
    requires
        first.key() == second.key(),
    ensures
        series_of(appended(appended(store, first), second), first.key()) == series_of(
            store,
            first.key(),
        ).push(first.point()).push(second.point()),
        !store.contains_key(first.key()) ==> series_of(
            appended(appended(store, first), second),
            first.key(),
        ) == seq![first.point(), second.point()],
{
    if !store.contains_key(first.key()) {
        assert(Seq::<(i64, Seq<char>)>::empty().push(first.point()).push(second.point())
            == seq![first.point(), second.point()]);
    }
}

/// A sample changes no series but that of its own name.
pub proof fn lemma_append_elsewhere(
    store: Map<Seq<char>, Seq<(i64, Seq<char>)>>,
    sample: Sample,
    name: Seq<char>,
)
    requires
        sample.key() != name,
    ensures
        series_of(appended(store, sample), name) == series_of(store, name),
{
}

} // verus!
