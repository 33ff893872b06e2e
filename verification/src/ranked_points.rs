//! Historical ranked points: for each day, the points every player had on the maps
//! released by then, summed per player, and the per-map times below which a finish
//! still earns points.

use crate::calendar::{day_from_ymd, day_number, is_after, Timestamp};
use crate::keyed::{enumerates, KeyedList};
use vstd::prelude::*;

verus! {

/// A map of the ranking, as the database lists it; `timestamp` is its release.
#[derive(Debug, Clone)]
pub struct RankedMap {
    pub map: String,
    pub server: String,
    pub points: i32,
    pub stars: i32,
    pub mapper: String,
    pub timestamp: Option<Timestamp>,
}

/// One row of the points query of a map: a player, the points the finish earns if it
/// earns any, and the finish time (`T` is how times are held).
#[derive(Debug, Clone)]
pub struct Points<T> {
    pub name: String,
    pub points: Option<i64>,
    pub time: T,
}

/// A player's summed points of one day.
#[derive(Debug, Clone, Copy, PartialEq, Eq, Structural)]
pub struct TotalPoints {
    pub rank_points: i64,
    pub team_points: i64,
}

/// Per map, the times from which on a finish no longer earns points, for ranks and
/// for team ranks.
#[derive(Debug, Clone, Copy)]
pub struct TimeCache<T> {
    pub time: T,
    pub time_team: T,
}

/// When maps without a release time count as released: midnight of 18 July 2013.
pub open spec fn ranking_start() -> Timestamp {
    Timestamp { day: day_number(2013, 7, 18) as i32, seconds: 0, nanos: 0 }
}

/// A map counts on a day unless it was released after that day's midnight; maps
/// without a release time count from `ranking_start`.
pub open spec fn counts_on(timestamp: Option<Timestamp>, date: i32) -> bool {
    let release = match timestamp {
        Some(t) => t,
        None => ranking_start(),
    };
    !is_after(release, Timestamp { day: date, seconds: 0, nanos: 0 })
}

impl RankedMap {
    /// Whether the map counts on the day with number `date`.
    pub fn counts_on(&self, date: i32) -> (r: bool)
        ensures
            r == counts_on(self.timestamp, date),
    {
        let start_day = match day_from_ymd(2013, 7, 18) {
            Some(d) => d,
            None => {
                assert(false);
                0
            },
        };
        let release = match self.timestamp {
            Some(t) => t,
            None => Timestamp::midnight(start_day),
        };
        !release.after(&Timestamp::midnight(date))
    }
}

/// The cached time after a map's query: the time of the last row where that row earns
/// no points, else the cached time unchanged.
pub open spec fn cached_time_after<T>(cached: T, rows: Seq<Points<T>>) -> T {
    if rows.len() > 0 && rows.last().points is None {
        rows.last().time
    } else {
        cached
    }
}

impl<T: Copy> TimeCache<T> {
    /// Moves both times to what the rank and team-rank queries of the map report.
    pub fn update(&mut self, rank_rows: &Vec<Points<T>>, team_rows: &Vec<Points<T>>)
        ensures
            final(self).time == cached_time_after(old(self).time, rank_rows@),
            final(self).time_team == cached_time_after(old(self).time_team, team_rows@),
    {
        let n = rank_rows.len();
        if n > 0 && rank_rows[n - 1].points.is_none() {
            self.time = rank_rows[n - 1].time;
        }
        let m = team_rows.len();
        if m > 0 && team_rows[m - 1].points.is_none() {
            self.time_team = team_rows[m - 1].time;
        }
    }
}

/// The summed points per player name.
pub type PlayerTotals = KeyedList<String, TotalPoints>;

/// The time caches of the maps, by map name; they carry over from one day to the next.
pub type TimeCaches<T> = KeyedList<String, TimeCache<T>>;

/// The cache of `map`, or both times `initial` for a map without one yet.
pub open spec fn cached_or<T>(caches: Map<Seq<char>, TimeCache<T>>, map: Seq<char>, initial: T) -> TimeCache<T> {
    if caches.contains_key(map) {
        caches[map]
    } else {
        TimeCache { time: initial, time_team: initial }
    }
}

/// The first map at or after position `from` that counts on `date`, or `None` where none
/// does: the map whose points are asked for next.
pub fn next_counting_map(maps: &Vec<RankedMap>, date: i32, from: usize) -> (r: Option<usize>)
    ensures
        r matches Some(i) ==> {
            &&& from <= i < maps@.len()
            &&& counts_on(maps@[i as int].timestamp, date)
            &&& forall|j: int| from <= j < i ==> !counts_on(#[trigger] maps@[j].timestamp, date)
        },
        r is None ==> forall|j: int| from <= j < maps@.len() ==> !counts_on(#[trigger] maps@[j].timestamp, date),
{
    let mut i: usize = from;
    while i < maps.len()
        invariant
            from <= i,
            forall|j: int| from <= j < i && j < maps@.len() ==> !counts_on(#[trigger] maps@[j].timestamp, date),
        decreases maps@.len() - i,
    {
        if maps[i].counts_on(date) {
            return Some(i);
        }
        i += 1;
    }
    None
}

/// The times below which a finish on `map` earns points: its cache, or `initial` for
/// both where the map has none yet.
pub fn cached_times<T: Copy>(caches: &TimeCaches<T>, map: &String, initial: T) -> (r: TimeCache<T>)
    requires
        caches.wf(),
    ensures
        r == cached_or(caches@, map@, initial),
{
    match caches.find(map) {
        Some(i) => {
            let (_, c) = caches.entry(i);
            *c
        },
        None => TimeCache { time: initial, time_team: initial },
    }
}

/// Takes in the answers of the rank and team-rank queries of `map`, asked with the times
/// `cached`: stores the moved cache of the map, and adds the rank points, then the team
/// points, to the players' totals. Returns whether every sum stayed within `i64`; where
/// one would not, the totals are those summing stopped at.
pub fn finish_map<T: Copy>(
    caches: &mut TimeCaches<T>,
    players: &mut PlayerTotals,
    map: &String,
    cached: TimeCache<T>,
    rank_rows: &Vec<Points<T>>,
    team_rows: &Vec<Points<T>>,
) -> (ok: bool)
    requires
        old(caches).wf(),
        old(players).wf(),
    ensures
        final(caches).wf(),
        final(players).wf(),
        final(caches)@ == old(caches)@.insert(
            map@,
            TimeCache {
                time: cached_time_after(cached.time, rank_rows@),
                time_team: cached_time_after(cached.time_team, team_rows@),
            },
        ),
        ok == (sums_fit(old(players)@, rank_rows@, false) && sums_fit(
            summed(old(players)@, rank_rows@, false),
            team_rows@,
            true,
        )),
        ok ==> final(players)@ == summed(summed(old(players)@, rank_rows@, false), team_rows@, true),
        !ok ==> (sums_stopped(old(players)@, rank_rows@, false, final(players)@) || (sums_fit(
            old(players)@,
            rank_rows@,
            false,
        ) && sums_stopped(summed(old(players)@, rank_rows@, false), team_rows@, true, final(players)@))),
{
    let mut next = cached;
    next.update(rank_rows, team_rows);
    match caches.find(map) {
        Some(i) => caches.replace(i, map.clone(), next),
        None => caches.push_new(map.clone(), next),
    }
    if !add_points(players, rank_rows, false) {
        return false;
    }
    add_points(players, team_rows, true)
}

/// The points `name` has in `totals`; players not listed have none.
pub open spec fn total_of(totals: Map<Seq<char>, TotalPoints>, name: Seq<char>) -> TotalPoints {
    if totals.contains_key(name) {
        totals[name]
    } else {
        TotalPoints { rank_points: 0, team_points: 0 }
    }
}

/// The rank points, or with `team` the team points, of a total.
pub open spec fn points_of(t: TotalPoints, team: bool) -> int {
    if team {
        t.team_points as int
    } else {
        t.rank_points as int
    }
}

/// `t` with `p` more rank points, or with `team` more team points.
pub open spec fn plus_points(t: TotalPoints, p: int, team: bool) -> TotalPoints {
    if team {
        TotalPoints { rank_points: t.rank_points, team_points: (t.team_points + p) as i64 }
    } else {
        TotalPoints { rank_points: (t.rank_points + p) as i64, team_points: t.team_points }
    }
}

/// The totals after adding the points of each row that earns any, in order.
pub open spec fn summed<T>(totals: Map<Seq<char>, TotalPoints>, rows: Seq<Points<T>>, team: bool) -> Map<
    Seq<char>,
    TotalPoints,
>
    decreases rows.len(),
{
    if rows.len() == 0 {
        totals
    } else {
        match rows[0].points {
            Some(p) => summed(
                totals.insert(rows[0].name@, plus_points(total_of(totals, rows[0].name@), p as int, team)),
                rows.drop_first(),
                team,
            ),
            None => summed(totals, rows.drop_first(), team),
        }
    }
}

/// Every sum along the way of `summed` fits in `i64`.
pub open spec fn sums_fit<T>(totals: Map<Seq<char>, TotalPoints>, rows: Seq<Points<T>>, team: bool) -> bool
    decreases rows.len(),
{
    if rows.len() == 0 {
        true
    } else {
        match rows[0].points {
            Some(p) => {
                &&& i64::MIN <= points_of(total_of(totals, rows[0].name@), team) + p <= i64::MAX
                &&& sums_fit(
                    totals.insert(rows[0].name@, plus_points(total_of(totals, rows[0].name@), p as int, team)),
                    rows.drop_first(),
                    team,
                )
            },
            None => sums_fit(totals, rows.drop_first(), team),
        }
    }
}

/// Summing the rows `a + b` is summing `a`, then `b`.
pub proof fn lemma_summed_append<T>(
    totals: Map<Seq<char>, TotalPoints>,
    a: Seq<Points<T>>,
    b: Seq<Points<T>>,
    team: bool,
)
    ensures
        summed(totals, a + b, team) == summed(summed(totals, a, team), b, team),
    decreases a.len(),
{
    if a.len() == 0 {
        assert(a + b =~= b);
    } else {
        assert((a + b).drop_first() =~= a.drop_first() + b);
        assert((a + b)[0] == a[0]);
        let next = match a[0].points {
            Some(p) => totals.insert(a[0].name@, plus_points(total_of(totals, a[0].name@), p as int, team)),
            None => totals,
        };
        lemma_summed_append(next, a.drop_first(), b, team);
    }
}

/// Summing `rows` from `totals` stopped at a row whose points would take its sum out
/// of `i64`: `after` holds the sums of the rows before that one.
pub open spec fn sums_stopped<T>(
    totals: Map<Seq<char>, TotalPoints>,
    rows: Seq<Points<T>>,
    team: bool,
    after: Map<Seq<char>, TotalPoints>,
) -> bool {
    exists|n: int|
        #![trigger rows.take(n)]
        0 <= n < rows.len() && after == summed(totals, rows.take(n), team) && match rows[n].points {
            Some(p) => !(i64::MIN <= points_of(total_of(after, rows[n].name@), team) + p <= i64::MAX),
            None => false,
        }
}

/// Adds the points of each row that earns any to its player's rank points, or with
/// `team` to the team points; rows that earn none are skipped. Returns whether every
/// sum stayed within `i64`; where one would not, it stops there and returns `false`,
/// with the sums made so far.
pub fn add_points<T>(totals: &mut PlayerTotals, rows: &Vec<Points<T>>, team: bool) -> (ok: bool)
    requires
        old(totals).wf(),
    ensures
        final(totals).wf(),
        ok == sums_fit(old(totals)@, rows@, team),
        ok ==> final(totals)@ == summed(old(totals)@, rows@, team),
        !ok ==> sums_stopped(old(totals)@, rows@, team, final(totals)@),
{
    let ghost goal = summed(old(totals)@, rows@, team);
    let ghost fits = sums_fit(old(totals)@, rows@, team);
    assert(rows@.skip(0) =~= rows@);
    let mut i: usize = 0;
    while i < rows.len()
        invariant
            totals.wf(),
            i <= rows@.len(),
            goal == summed(old(totals)@, rows@, team),
            fits == sums_fit(old(totals)@, rows@, team),
            fits == sums_fit(totals@, rows@.skip(i as int), team),
            summed(totals@, rows@.skip(i as int), team) == goal,
            totals@ == summed(old(totals)@, rows@.take(i as int), team),
        decreases rows@.len() - i,
    {
        let row = &rows[i];
        proof {
            let one = seq![rows@[i as int]];
            assert(rows@.take(i + 1) =~= rows@.take(i as int) + one);
            lemma_summed_append(old(totals)@, rows@.take(i as int), one, team);
            assert(one.drop_first() =~= Seq::<Points<T>>::empty());
            assert(one[0] == rows@[i as int]);
            let mid = summed(old(totals)@, rows@.take(i as int), team);
            match rows@[i as int].points {
                Some(p) => {
                    let next = mid.insert(rows@[i as int].name@, plus_points(total_of(mid, rows@[i as int].name@), p as int, team));
                    assert(summed(next, one.drop_first(), team) == next);
                    assert(summed(mid, one, team) == next);
                },
                None => {
                    assert(summed(mid, one.drop_first(), team) == mid);
                    assert(summed(mid, one, team) == mid);
                },
            }
        }
        assert(rows@.skip(i as int).drop_first() =~= rows@.skip(i + 1));
        assert(rows@.skip(i as int)[0] == *row);
        match row.points {
            Some(p) => {
                let ghost before = totals@;
                let (current, at) = match totals.find(&row.name) {
                    Some(j) => {
                        let (_, t) = totals.entry(j);
                        (*t, Some(j))
                    },
                    None => (TotalPoints { rank_points: 0, team_points: 0 }, None),
                };
                assert(current == total_of(before, row.name@));
                let sum = if team {
                    current.team_points.checked_add(p)
                } else {
                    current.rank_points.checked_add(p)
                };
                let next = match sum {
                    Some(v) => if team {
                        TotalPoints { rank_points: current.rank_points, team_points: v }
                    } else {
                        TotalPoints { rank_points: v, team_points: current.team_points }
                    },
                    None => {
                        return false;
                    },
                };
                assert(next == plus_points(total_of(before, row.name@), p as int, team));
                match at {
                    Some(j) => totals.replace(j, row.name.clone(), next),
                    None => totals.push_new(row.name.clone(), next),
                }
            },
            None => {},
        }
        i += 1;
    }
    assert(rows@.skip(i as int) =~= seq![]);
    true
}

/// The insert columns of one day's ranked points; row `i` is spread over the `i`-th
/// element of each column.
pub struct RankedPointsColumns {
    pub dates: Vec<i32>,
    pub names: Vec<String>,
    pub rank_points: Vec<i32>,
    pub team_points: Vec<i32>,
}

impl RankedPointsColumns {
    /// The player names of the rows, in order.
    pub open spec fn row_names(&self) -> Seq<Seq<char>> {
        Seq::new(self.names@.len(), |i: int| self.names@[i]@)
    }
}

/// One row per player of the day's totals (in no particular order): the day, the name,
/// and both totals cut to `i32` as `as` does.
pub fn ranked_points_columns(totals: &PlayerTotals, date: i32) -> (c: RankedPointsColumns)
    requires
        totals.wf(),
    ensures
        enumerates(c.row_names(), totals@),
        c.dates@.len() == c.names@.len(),
        c.rank_points@.len() == c.names@.len(),
        c.team_points@.len() == c.names@.len(),
        forall|i: int| 0 <= i < c.names@.len() ==> #[trigger] c.dates@[i] == date,
        forall|i: int|
            0 <= i < c.names@.len() ==> #[trigger] c.rank_points@[i] == totals@[c.names@[i]@].rank_points as i32,
        forall|i: int|
            0 <= i < c.names@.len() ==> #[trigger] c.team_points@[i] == totals@[c.names@[i]@].team_points as i32,
{
    let mut c = RankedPointsColumns {
        dates: Vec::new(),
        names: Vec::new(),
        rank_points: Vec::new(),
        team_points: Vec::new(),
    };
    let n = totals.len();
    proof {
        totals.lemma_keys();
    }
    let mut i: usize = 0;
    while i < n
        invariant
            totals.wf(),
            n == totals.keys().len(),
            i <= n,
            c.names@.len() == i,
            c.dates@.len() == i,
            c.rank_points@.len() == i,
            c.team_points@.len() == i,
            forall|j: int| 0 <= j < i ==> #[trigger] c.names@[j]@ == totals.keys()[j],
            forall|j: int| 0 <= j < i ==> #[trigger] c.dates@[j] == date,
            forall|j: int|
                0 <= j < i ==> #[trigger] c.rank_points@[j] == totals@[c.names@[j]@].rank_points as i32,
            forall|j: int|
                0 <= j < i ==> #[trigger] c.team_points@[j] == totals@[c.names@[j]@].team_points as i32,
        decreases n - i,
    {
        let (name, total) = totals.entry(i);
        c.dates.push(date);
        c.names.push(name.clone());
        c.rank_points.push(total.rank_points as i32);
        c.team_points.push(total.team_points as i32);
        i += 1;
    }
    assert(c.row_names() =~= totals.keys());
    c
}

} // verus!

verus! {

/// Once a map counts, it counts on every later day: releases lie in the past.
pub proof fn lemma_counts_on_later_days(timestamp: Option<Timestamp>, day: i32, later: i32)
    requires
        counts_on(timestamp, day),
        day <= later,
    ensures
        counts_on(timestamp, later),
{
}

/// The points that rows of `name` earn, summed.
pub open spec fn points_earned<T>(rows: Seq<Points<T>>, name: Seq<char>) -> int
    decreases rows.len(),
{
    if rows.len() == 0 {
        0
    } else {
        (match rows[0].points {
            Some(p) if rows[0].name@ == name => p as int,
            _ => 0,
        }) + points_earned(rows.drop_first(), name)
    }
}

/// Summing does not depend on the order of the rows: every player's rank points (or
/// with `team` team points) grow by what that player's rows earn, the other kind of
/// points stays, and exactly the players with a row that earns points are added.
pub proof fn lemma_summed<T>(totals: Map<Seq<char>, TotalPoints>, rows: Seq<Points<T>>, team: bool, name: Seq<char>)
    requires
        sums_fit(totals, rows, team),
    ensures
        points_of(total_of(summed(totals, rows, team), name), team)
            == points_of(total_of(totals, name), team) + points_earned(rows, name),
        points_of(total_of(summed(totals, rows, team), name), !team)
            == points_of(total_of(totals, name), !team),
        summed(totals, rows, team).contains_key(name) <==> (totals.contains_key(name) || exists|i: int|
            0 <= i < rows.len() && rows[i].name@ == name && rows[i].points is Some),
    decreases rows.len(),
{
    if rows.len() > 0 {
        let rest = rows.drop_first();
        let next = match rows[0].points {
            Some(p) => totals.insert(rows[0].name@, plus_points(total_of(totals, rows[0].name@), p as int, team)),
            None => totals,
        };
        lemma_summed(next, rest, team, name);
        if exists|i: int| 0 <= i < rest.len() && rest[i].name@ == name && rest[i].points is Some {
            let i = choose|i: int| 0 <= i < rest.len() && rest[i].name@ == name && rest[i].points is Some;
            assert(rows[i + 1] == rest[i]);
        }
        if exists|i: int| 0 <= i < rows.len() && rows[i].name@ == name && rows[i].points is Some {
            let i = choose|i: int| 0 <= i < rows.len() && rows[i].name@ == name && rows[i].points is Some;
            if i > 0 {
                assert(rest[i - 1] == rows[i]);
            }
        }
    }
}

} // verus!

verus! {

/// The first day of the ranking: 18 July 2013.
pub fn ranking_start_day() -> (d: i32)
    ensures
        d as int == day_number(2013, 7, 18),
        (Timestamp { day: d, seconds: 0, nanos: 0 }) == ranking_start(),
{
    match day_from_ymd(2013, 7, 18) {
        Some(d) => d,
        None => {
            assert(false);
            0
        },
    }
}

/// The time caches after a day: going through `maps` in order, the cache of each map
/// that counts on `date` becomes `moved[i]`, as `finish_map` stores it once the map's
/// points are in; maps that do not count are passed over (`next_counting_map`). The loop
/// of a day (`next_counting_map`, then `cached_times`, the queries and `finish_map`, from
/// the position after the map) keeps the caches equal to this fold over the maps passed,
/// by `lemma_day_skip` and `lemma_day_step`.
pub open spec fn caches_after_day<T>(
    caches: Map<Seq<char>, TimeCache<T>>,
    maps: Seq<RankedMap>,
    date: i32,
    moved: Seq<TimeCache<T>>,
) -> Map<Seq<char>, TimeCache<T>>
    decreases maps.len(),
{
    if maps.len() == 0 {
        caches
    } else {
        let before = caches_after_day(caches, maps.drop_last(), date, moved);
        if counts_on(maps.last().timestamp, date) {
            before.insert(maps.last().map@, moved[maps.len() - 1])
        } else {
            before
        }
    }
}

/// A map of `maps` named `name` counts on `date`.
pub open spec fn counted_on(maps: Seq<RankedMap>, date: i32, name: Seq<char>) -> bool {
    exists|i: int| 0 <= i < maps.len() && counts_on(maps[i].timestamp, date) && #[trigger] maps[i].map@ == name
}

/// Over one day the time caches gain exactly the maps that count that day: no cache is
/// removed, a map has a cache afterwards exactly when it had one before or counts that
/// day, and the cache of a map that does not count is unchanged.
pub proof fn lemma_day_caches<T>(
    caches: Map<Seq<char>, TimeCache<T>>,
    maps: Seq<RankedMap>,
    date: i32,
    moved: Seq<TimeCache<T>>,
    name: Seq<char>,
)
    ensures
        caches_after_day(caches, maps, date, moved).contains_key(name) <==> (caches.contains_key(name)
            || counted_on(maps, date, name)),
        !counted_on(maps, date, name) && caches.contains_key(name) ==> caches_after_day(
            caches,
            maps,
            date,
            moved,
        )[name] == caches[name],
    decreases maps.len(),
{
    if maps.len() > 0 {
        let front = maps.drop_last();
        lemma_day_caches(caches, front, date, moved, name);
        if counted_on(front, date, name) {
            let i = choose|i: int| 0 <= i < front.len() && counts_on(front[i].timestamp, date) && #[trigger] front[i].map@ == name;
            assert(maps[i] == front[i]);
        }
        if counted_on(maps, date, name) && !counted_on(front, date, name) {
            let i = choose|i: int| 0 <= i < maps.len() && counts_on(maps[i].timestamp, date) && #[trigger] maps[i].map@ == name;
            if i < maps.len() - 1 {
                assert(front[i] == maps[i]);
            }
        }
        if !counted_on(maps, date, name) && counts_on(maps.last().timestamp, date) {
            assert(maps[maps.len() - 1].map@ != name);
        }
    }
}

/// The caches after the first `n` maps read only the new caches at positions below `n`.
proof fn lemma_day_frame<T>(
    caches: Map<Seq<char>, TimeCache<T>>,
    maps: Seq<RankedMap>,
    date: i32,
    moved: Seq<TimeCache<T>>,
    other: Seq<TimeCache<T>>,
    n: int,
)
    requires
        0 <= n <= maps.len(),
        forall|i: int| 0 <= i < n ==> moved[i] == other[i],
    ensures
        caches_after_day(caches, maps.take(n), date, moved) == caches_after_day(caches, maps.take(n), date, other),
    decreases n,
{
    if n > 0 {
        lemma_day_frame(caches, maps, date, moved, other, n - 1);
        assert(maps.take(n).drop_last() =~= maps.take(n - 1));
    }
}

/// Maps that do not count leave the day's caches as they are: where no map from `from`
/// to `to` counts (as `next_counting_map` finds), the caches after `to` maps are those
/// after `from`.
pub proof fn lemma_day_skip<T>(
    caches: Map<Seq<char>, TimeCache<T>>,
    maps: Seq<RankedMap>,
    date: i32,
    moved: Seq<TimeCache<T>>,
    from: int,
    to: int,
)
    requires
        0 <= from <= to <= maps.len(),
        forall|j: int| from <= j < to ==> !counts_on(#[trigger] maps[j].timestamp, date),
    ensures
        caches_after_day(caches, maps.take(to), date, moved) == caches_after_day(caches, maps.take(from), date, moved),
    decreases to - from,
{
    if to > from {
        lemma_day_skip(caches, maps, date, moved, from, to - 1);
        assert(maps.take(to).drop_last() =~= maps.take(to - 1));
        assert(maps.take(to).last() == maps[to - 1]);
    }
}

/// A counting map's step is the day's next step: where the caches after the maps before
/// `at` are `before` and `finish_map` stores `x` for the map at `at`, the caches are those
/// after `at + 1` maps with `x` as that map's new cache.
pub proof fn lemma_day_step<T>(
    caches: Map<Seq<char>, TimeCache<T>>,
    maps: Seq<RankedMap>,
    date: i32,
    moved: Seq<TimeCache<T>>,
    at: int,
    x: TimeCache<T>,
)
    requires
        0 <= at < maps.len(),
        moved.len() == maps.len(),
        counts_on(maps[at].timestamp, date),
    ensures
        caches_after_day(caches, maps.take(at + 1), date, moved.update(at, x)) == caches_after_day(
            caches,
            maps.take(at),
            date,
            moved,
        ).insert(maps[at].map@, x),
{
    lemma_day_frame(caches, maps, date, moved, moved.update(at, x), at);
    assert(maps.take(at + 1).drop_last() =~= maps.take(at));
    assert(maps.take(at + 1).last() == maps[at]);
}

/// The cached time moves only past a last row that earns no points: a query whose
/// last row earns points, or that returns nothing, leaves the cache where it was, and
/// appending a row that earns points to any answer brings the cache back to where it was.
pub proof fn lemma_cache_moves_only_past_pointless_last_row<T>(cached: T, rows: Seq<Points<T>>)
    ensures
        cached_time_after(cached, rows) != cached ==> rows.len() > 0 && rows.last().points is None,
        rows.len() > 0 && rows.last().points is None ==> cached_time_after(cached, rows) == rows.last().time,
        forall|extra: Points<T>|
            extra.points is Some ==> #[trigger] cached_time_after(cached, rows.push(extra)) == cached,
{
    assert forall|extra: Points<T>| extra.points is Some implies #[trigger] cached_time_after(cached, rows.push(extra)) == cached by {
        assert(rows.push(extra).last() == extra);
    }
}

} // verus!
