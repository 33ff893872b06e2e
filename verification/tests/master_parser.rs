use ddstats::master_parser::{
    default_location, first_dump_day, is_excluded, process_server_list, snapshot_columns, snapshot_key, Client,
    DateEntry, GameMap, Info, Server, ServerList, Skin, SnapshotKey, SnapshotStore,
};
use ddstats::tally::Tally;

fn server(location: &str, map: &str, game_type: &str, clients: Option<Vec<Client>>) -> Server {
    Server {
        info: Info {
            map: GameMap { name: map.to_string() },
            game_type: game_type.to_string(),
            clients,
        },
        location: location.to_string(),
    }
}

fn client(name: &str, clan: &str, skin: Option<Skin>) -> Client {
    Client { name: name.to_string(), clan: clan.to_string(), country: 276, skin }
}

fn key_of(c: &Client, s: &Server, body: Option<i32>, feet: Option<i32>) -> SnapshotKey {
    SnapshotKey {
        location: s.location.clone(),
        game_type: s.info.game_type.clone(),
        map: s.info.map.name.clone(),
        name: c.name.clone(),
        clan: c.clan.clone(),
        country: c.country,
        skin_name: c.skin.as_ref().and_then(|s| s.name.clone()),
        skin_color_body: body,
        skin_color_feet: feet,
    }
}

#[test]
fn default_location_is_unknown() {
    assert_eq!(default_location(), "unknown");
}

#[test]
fn first_dump_day_is_2021_05_18() {
    assert_eq!(first_dump_day(), 737928);
}

#[test]
fn placeholder_names_are_excluded() {
    assert!(is_excluded("(connecting)"));
    assert!(is_excluded("(1)"));
    assert!(is_excluded("."));
    assert!(is_excluded("brainless tee"));
    assert!(is_excluded("(2)nameless tee"));
    assert!(is_excluded("(3)nameless te"));
    assert!(is_excluded("(3)brainless te"));
    assert!(!is_excluded("nameless"));
    assert!(!is_excluded("(connecting) "));
    assert!(!is_excluded("Tee"));
}

#[test]
fn process_adds_five_per_sighting() {
    let s = server("eu", "Kobra", "DDraceNetwork", None);
    let c = client("alice", "clan", None);
    let mut store: SnapshotStore = Tally::new();
    Client::process(&c, &s, &mut store);
    Client::process(&c, &s, &mut store);
    assert_eq!(store.len(), 1);
    assert_eq!(store.get(&key_of(&c, &s, None, None)), Some(10));
}

#[test]
fn process_skips_excluded_and_too_long() {
    let s = server("eu", "Kobra", "DDraceNetwork", None);
    let mut store: SnapshotStore = Tally::new();
    Client::process(&client("(connecting)", "", None), &s, &mut store);
    Client::process(&client("sixteen_bytes_xx", "", None), &s, &mut store);
    Client::process(&client("alice", "twelve_bytes", None), &s, &mut store);
    let long_type = server("eu", "Kobra", &"x".repeat(33), None);
    Client::process(&client("alice", "", None), &long_type, &mut store);
    let long_map = server("eu", &"m".repeat(129), "DDraceNetwork", None);
    Client::process(&client("alice", "", None), &long_map, &mut store);
    let skin = Skin { name: Some("s".repeat(24)), color_body: None, color_feet: None };
    Client::process(&client("alice", "", Some(skin)), &s, &mut store);
    assert_eq!(store.len(), 0);
}

#[test]
fn process_accepts_limits_exactly() {
    let s = server("eu", &"m".repeat(128), &"x".repeat(32), None);
    let mut store: SnapshotStore = Tally::new();
    let c = client("fifteen_bytes_x", "eleven_byte", None);
    Client::process(&c, &s, &mut store);
    assert_eq!(store.get(&key_of(&c, &s, None, None)), Some(5));
}

#[test]
fn process_clamps_skin_colors() {
    let s = server("na", "Multeasymap", "DDraceNetwork", None);
    let skin = Skin { name: Some("default".to_string()), color_body: Some(-3), color_feet: Some(0x1000000) };
    let c = client("bob", "", Some(skin));
    let mut store: SnapshotStore = Tally::new();
    Client::process(&c, &s, &mut store);
    assert_eq!(store.get(&key_of(&c, &s, Some(0), Some(0xffffff))), Some(5));
    assert_eq!(store.get(&key_of(&c, &s, Some(-3), Some(0x1000000))), None);
}

#[test]
fn server_list_tally_counts_each_client() {
    let a = client("alice", "", None);
    let b = client("bob", "", None);
    let list = ServerList {
        servers: vec![
            server("eu", "Kobra", "DDraceNetwork", Some(vec![a.clone(), b.clone(), client("(1)", "", None)])),
            server("eu", "Kobra", "DDraceNetwork", Some(vec![a.clone()])),
            server("na", "Kobra", "DDraceNetwork", None),
        ],
    };
    let mut store: SnapshotStore = Tally::new();
    assert!(process_server_list(&list, &mut store));
    let s = &list.servers[0];
    assert_eq!(store.len(), 2);
    assert_eq!(store.get(&key_of(&a, s, None, None)), Some(10));
    assert_eq!(store.get(&key_of(&b, s, None, None)), Some(5));
}

#[test]
fn server_list_tally_is_order_independent() {
    let a = client("alice", "", None);
    let b = client("bob", "", None);
    let forward = ServerList {
        servers: vec![
            server("eu", "Kobra", "DDraceNetwork", Some(vec![a.clone(), b.clone(), a.clone()])),
        ],
    };
    let backward = ServerList {
        servers: vec![
            server("eu", "Kobra", "DDraceNetwork", Some(vec![a.clone(), a.clone(), b.clone()])),
        ],
    };
    let mut one: SnapshotStore = Tally::new();
    let mut two: SnapshotStore = Tally::new();
    assert!(process_server_list(&forward, &mut one));
    assert!(process_server_list(&backward, &mut two));
    let s = &forward.servers[0];
    for k in [key_of(&a, s, None, None), key_of(&b, s, None, None)] {
        assert_eq!(one.get(&k), two.get(&k));
    }
    assert_eq!(one.get(&key_of(&a, s, None, None)), Some(10));
}

#[test]
fn snapshot_columns_hold_one_row_per_key() {
    let a = client("alice", "c", None);
    let b = client("bob", "", None);
    let list = ServerList {
        servers: vec![server("eu", "Kobra", "DDraceNetwork", Some(vec![a.clone(), b.clone(), a.clone()]))],
    };
    let mut snapshot: SnapshotStore = Tally::new();
    assert!(process_server_list(&list, &mut snapshot));
    let entry = DateEntry { snapshot, date: 737928 };
    let cols = snapshot_columns(&entry).unwrap();
    assert_eq!(cols.day, "2021-05-18");
    assert_eq!(cols.time.len(), 2);
    assert_eq!(cols.date, vec!["2021-05-18".to_string(), "2021-05-18".to_string()]);
    for i in 0..2 {
        let expected = if cols.name[i] == "alice" { 10 } else { 5 };
        assert_eq!(cols.time[i], expected);
        assert_eq!(cols.location[i], "eu");
        assert_eq!(cols.map[i], "Kobra");
    }
    assert!(cols.name.contains(&"alice".to_string()));
    assert!(cols.name.contains(&"bob".to_string()));
}

#[test]
fn snapshot_columns_refuse_days_out_of_range() {
    let entry = DateEntry { snapshot: Tally::new(), date: i32::MAX };
    assert!(snapshot_columns(&entry).is_none());
}

#[test]
fn snapshot_key_is_none_for_filtered_clients() {
    let s = server("eu", "Kobra", "DDraceNetwork", None);
    assert!(snapshot_key(&client("(1)", "", None), &s).is_none());
    let c = client("alice", "", None);
    assert_eq!(snapshot_key(&c, &s), Some(key_of(&c, &s, None, None)));
}

#[test]
fn server_list_tally_stops_before_counter_overflow() {
    let a = client("alice", "", None);
    let list = ServerList {
        servers: vec![server("eu", "Kobra", "DDraceNetwork", Some(vec![a.clone(), a.clone()]))],
    };
    let s = &list.servers[0];
    let mut store: SnapshotStore = Tally::new();
    store.add(key_of(&a, s, None, None), i32::MAX as i64 - 9);
    assert!(!process_server_list(&list, &mut store));
    assert_eq!(store.get(&key_of(&a, s, None, None)), Some(i32::MAX as i64 - 4));
    let mut fits: SnapshotStore = Tally::new();
    fits.add(key_of(&a, s, None, None), i32::MAX as i64 - 10);
    assert!(process_server_list(&list, &mut fits));
    assert_eq!(fits.get(&key_of(&a, s, None, None)), Some(i32::MAX as i64));
}
