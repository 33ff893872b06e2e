use ddstats::calendar::Timestamp;
use ddstats::keyed::KeyedList;
use ddstats::ranked_points::{
    add_points, cached_times, finish_map, next_counting_map, ranked_points_columns,
    ranking_start_day, PlayerTotals, Points, RankedMap, TimeCache, TimeCaches, TotalPoints,
};

fn map_released(timestamp: Option<Timestamp>) -> RankedMap {
    RankedMap {
        map: "Kobra".to_string(),
        server: "Novice".to_string(),
        points: 2,
        stars: 1,
        mapper: "m".to_string(),
        timestamp,
    }
}

fn row(name: &str, points: Option<i64>, time: f64) -> Points<f64> {
    Points { name: name.to_string(), points, time }
}

#[test]
fn ranking_starts_2013_07_18() {
    assert_eq!(ranking_start_day(), 735067);
}

#[test]
fn maps_count_from_release_on() {
    let m = map_released(Some(Timestamp { day: 800, seconds: 10, nanos: 0 }));
    assert!(!m.counts_on(799));
    assert!(!m.counts_on(800));
    assert!(m.counts_on(801));
    let midnight = map_released(Some(Timestamp::midnight(800)));
    assert!(midnight.counts_on(800));
}

#[test]
fn maps_without_release_count_from_ranking_start() {
    let m = map_released(None);
    assert!(!m.counts_on(735066));
    assert!(m.counts_on(735067));
    assert!(m.counts_on(800000));
}

#[test]
fn time_cache_takes_time_of_last_row_without_points() {
    let mut cache = TimeCache { time: 1_000_000.0, time_team: 1_000_000.0 };
    cache.update(&vec![row("a", Some(10), 20.0), row("b", None, 35.5)], &vec![row("c", Some(3), 7.0)]);
    assert_eq!(cache.time, 35.5);
    assert_eq!(cache.time_team, 1_000_000.0);
    cache.update(&vec![], &vec![row("d", None, 9.0)]);
    assert_eq!(cache.time, 35.5);
    assert_eq!(cache.time_team, 9.0);
}

#[test]
fn points_are_summed_per_player() {
    let mut totals: PlayerTotals = KeyedList::new();
    assert!(add_points(&mut totals, &vec![row("a", Some(10), 1.0), row("b", Some(4), 2.0), row("a", Some(5), 3.0), row("c", None, 4.0)], false));
    assert!(add_points(&mut totals, &vec![row("a", Some(7), 1.0), row("d", Some(1), 2.0)], true));
    let cols = ranked_points_columns(&totals, 735100);
    assert_eq!(cols.names.len(), 3);
    assert!(cols.dates.iter().all(|d| *d == 735100));
    let find = |n: &str| cols.names.iter().position(|x| x == n).unwrap();
    assert_eq!((cols.rank_points[find("a")], cols.team_points[find("a")]), (15, 7));
    assert_eq!((cols.rank_points[find("b")], cols.team_points[find("b")]), (4, 0));
    assert_eq!((cols.rank_points[find("d")], cols.team_points[find("d")]), (0, 1));
    assert!(!cols.names.contains(&"c".to_string()));
}

#[test]
fn summing_is_order_independent() {
    let rows = vec![row("a", Some(1), 0.0), row("b", Some(2), 0.0), row("a", Some(3), 0.0)];
    let mut reversed = rows.clone();
    reversed.reverse();
    let mut one: PlayerTotals = KeyedList::new();
    let mut two: PlayerTotals = KeyedList::new();
    assert!(add_points(&mut one, &rows, false));
    assert!(add_points(&mut two, &reversed, false));
    let c1 = ranked_points_columns(&one, 1);
    let c2 = ranked_points_columns(&two, 1);
    for name in ["a", "b"] {
        let p1 = c1.rank_points[c1.names.iter().position(|x| x == name).unwrap()];
        let p2 = c2.rank_points[c2.names.iter().position(|x| x == name).unwrap()];
        assert_eq!(p1, p2);
    }
}

#[test]
fn columns_cut_totals_to_i32() {
    let mut totals: PlayerTotals = KeyedList::new();
    assert!(add_points(&mut totals, &vec![row("big", Some(1i64 << 32 | 7), 0.0)], false));
    let cols = ranked_points_columns(&totals, 1);
    assert_eq!(cols.rank_points, vec![7]);
    let t = TotalPoints { rank_points: 3, team_points: 4 };
    assert_eq!(t, TotalPoints { rank_points: 3, team_points: 4 });
}

#[test]
fn summing_reports_overflow() {
    let mut totals: PlayerTotals = KeyedList::new();
    assert!(!add_points(&mut totals, &vec![row("a", Some(i64::MAX), 0.0), row("a", Some(1), 0.0)], false));
    let at = totals.find(&"a".to_string()).unwrap();
    assert_eq!(totals.entry(at).1.rank_points, i64::MAX);
    let mut fine: PlayerTotals = KeyedList::new();
    assert!(add_points(&mut fine, &vec![row("a", Some(i64::MAX), 0.0), row("a", Some(-1), 0.0), row("a", Some(1), 0.0)], false));
}

#[test]
fn next_map_is_the_first_that_counts() {
    let maps = vec![
        map_released(Some(Timestamp { day: 900, seconds: 0, nanos: 0 })),
        map_released(Some(Timestamp { day: 700, seconds: 0, nanos: 0 })),
        map_released(Some(Timestamp { day: 900, seconds: 0, nanos: 0 })),
        map_released(None),
    ];
    assert_eq!(next_counting_map(&maps, 800, 0), Some(1));
    assert_eq!(next_counting_map(&maps, 800, 2), None);
    assert_eq!(next_counting_map(&maps, 740000, 2), Some(2));
    assert_eq!(next_counting_map(&maps, 740000, 4), None);
    assert_eq!(next_counting_map(&maps, 600, 0), None);
}

#[test]
fn maps_without_cache_start_at_the_initial_time() {
    let caches: TimeCaches<f64> = KeyedList::new();
    let c = cached_times(&caches, &"Kobra".to_string(), 1_000_000.0);
    assert_eq!(c.time, 1_000_000.0);
    assert_eq!(c.time_team, 1_000_000.0);
}

#[test]
fn finishing_a_map_moves_its_cache_and_sums_points() {
    let mut caches: TimeCaches<f64> = KeyedList::new();
    let mut players: PlayerTotals = KeyedList::new();
    let kobra = "Kobra".to_string();
    let cached = cached_times(&caches, &kobra, 1_000_000.0);
    let rank = vec![row("a", Some(10), 20.0), row("b", None, 35.5)];
    let team = vec![row("a", Some(4), 30.0)];
    assert!(finish_map(&mut caches, &mut players, &kobra, cached, &rank, &team));
    let c = cached_times(&caches, &kobra, 1_000_000.0);
    assert_eq!(c.time, 35.5);
    assert_eq!(c.time_team, 1_000_000.0);
    let at = players.find(&"a".to_string()).unwrap();
    assert_eq!(*players.entry(at).1, TotalPoints { rank_points: 10, team_points: 4 });
    assert!(players.find(&"b".to_string()).is_none());
    let other = cached_times(&caches, &"Other".to_string(), 7.0);
    assert_eq!(other.time, 7.0);
}

#[test]
fn finishing_a_map_reports_overflow() {
    let mut caches: TimeCaches<f64> = KeyedList::new();
    let mut players: PlayerTotals = KeyedList::new();
    let kobra = "Kobra".to_string();
    let cached = cached_times(&caches, &kobra, 1.0);
    let rank = vec![row("a", Some(i64::MAX), 2.0)];
    let team = vec![row("a", Some(i64::MAX), 2.0), row("a", Some(1), 2.0)];
    assert!(!finish_map(&mut caches, &mut players, &kobra, cached, &rank, &team));
    let at = players.find(&"a".to_string()).unwrap();
    assert_eq!(*players.entry(at).1, TotalPoints { rank_points: i64::MAX, team_points: i64::MAX });
}

fn named_map(name: &str, day: Option<i32>) -> RankedMap {
    let mut m = map_released(day.map(Timestamp::midnight));
    m.map = name.to_string();
    m
}

#[test]
fn a_day_adds_caches_of_the_counting_maps_only() {
    let maps = vec![named_map("A", Some(700)), named_map("B", Some(900)), named_map("C", Some(100))];
    let mut caches: TimeCaches<f64> = KeyedList::new();
    let mut players: PlayerTotals = KeyedList::new();
    let d = cached_times(&caches, &"D".to_string(), 1.0);
    assert!(finish_map(&mut caches, &mut players, &"D".to_string(), d, &vec![row("x", None, 9.0)], &vec![]));
    let mut from = 0;
    while let Some(at) = next_counting_map(&maps, 800, from) {
        let cached = cached_times(&caches, &maps[at].map, 1_000_000.0);
        assert!(finish_map(&mut caches, &mut players, &maps[at].map, cached, &vec![row("p", None, 5.0)], &vec![]));
        from = at + 1;
    }
    assert_eq!(caches.len(), 3);
    assert!(caches.find(&"A".to_string()).is_some());
    assert!(caches.find(&"C".to_string()).is_some());
    assert!(caches.find(&"B".to_string()).is_none());
    assert_eq!(cached_times(&caches, &"D".to_string(), 1.0).time, 9.0);
    assert_eq!(cached_times(&caches, &"A".to_string(), 1.0).time, 5.0);
}
