use ddstats::master_parser_standalone as standalone;
use ddstats::playtime::{clients_have_maps, playtime_rows, tally_server_list, PlayerMap, PlaytimeStore};
use ddstats::tally::Tally;

fn sa_server(clients: Vec<standalone::Client>) -> standalone::Server {
    standalone::Server {
        location: "eu".to_string(),
        info: standalone::Info {
            map: standalone::GameMap { name: "Kobra".to_string() },
            clients,
            game_type: "DDraceNetwork".to_string(),
        },
    }
}

fn sa_client(name: &str, afk: Option<bool>, team: Option<i32>) -> standalone::Client {
    standalone::Client {
        name: name.to_string(),
        clan: String::new(),
        country: -1,
        skin: Some(standalone::Skin { name: None, color_body: Some(-7), color_feet: None }),
        afk,
        team,
    }
}

fn sa_key(name: &str, afk: Option<bool>, team: Option<i32>) -> standalone::SnapshotKey {
    standalone::SnapshotKey {
        location: "eu".to_string(),
        game_type: "DDraceNetwork".to_string(),
        map: "Kobra".to_string(),
        name: name.to_string(),
        clan: String::new(),
        country: -1,
        skin_name: None,
        skin_color_body: Some(-7),
        skin_color_feet: None,
        afk,
        team,
    }
}

#[test]
fn standalone_counts_every_client_with_afk_and_team() {
    let list = standalone::ServerList {
        servers: vec![sa_server(vec![
            sa_client("(connecting)", Some(true), None),
            sa_client("x", Some(false), Some(1)),
            sa_client("x", Some(true), Some(1)),
            sa_client("x", Some(false), Some(1)),
        ])],
    };
    let mut store: standalone::SnapshotStore = Tally::new();
    assert!(standalone::process_server_list(&list, &mut store));
    assert_eq!(store.len(), 3);
    assert_eq!(store.get(&sa_key("(connecting)", Some(true), None)), Some(5));
    assert_eq!(store.get(&sa_key("x", Some(false), Some(1))), Some(10));
    assert_eq!(store.get(&sa_key("x", Some(true), Some(1))), Some(5));
}

#[test]
fn standalone_columns_carry_afk_and_team() {
    let list = standalone::ServerList { servers: vec![sa_server(vec![sa_client("y", None, Some(3))])] };
    let mut snapshot: standalone::SnapshotStore = Tally::new();
    assert!(standalone::process_server_list(&list, &mut snapshot));
    let cols = standalone::snapshot_columns(&standalone::DateEntry { snapshot, date: 738945 }).unwrap();
    assert_eq!(cols.day, "2024-02-29");
    assert_eq!(cols.team, vec![Some(3)]);
    assert_eq!(cols.afk, vec![None]);
    assert_eq!(cols.skin_color_body, vec![Some(-7)]);
    assert_eq!(cols.time, vec![5]);
}

fn pt_server(map: Option<&str>, clients: Option<Vec<&str>>) -> ddstats::playtime::Server {
    ddstats::playtime::Server {
        info: ddstats::playtime::Info {
            map: map.map(|m| ddstats::playtime::GameMap { name: m.to_string() }),
            clients: clients.map(|cs| {
                cs.into_iter().map(|n| ddstats::playtime::Client { name: n.to_string() }).collect()
            }),
        },
    }
}

fn pm(player: &str, map: &str) -> PlayerMap {
    PlayerMap { player: player.to_string(), map: map.to_string() }
}

#[test]
fn playtime_counts_player_per_map() {
    let list = ddstats::playtime::ServerList {
        servers: vec![
            pt_server(Some("Kobra"), Some(vec!["a", "b"])),
            pt_server(Some("Kobra"), Some(vec!["a"])),
            pt_server(Some("Tutorial"), Some(vec!["a"])),
            pt_server(None, None),
            pt_server(None, Some(vec![])),
        ],
    };
    let mut store: PlaytimeStore = Tally::new();
    assert!(tally_server_list(&list, &mut store));
    assert!(tally_server_list(&list, &mut store));
    assert_eq!(store.len(), 3);
    assert_eq!(store.get(&pm("a", "Kobra")), Some(20));
    assert_eq!(store.get(&pm("b", "Kobra")), Some(10));
    assert_eq!(store.get(&pm("a", "Tutorial")), Some(10));
    assert_eq!(store.get(&pm("b", "Tutorial")), None);
}

#[test]
fn playtime_rows_list_each_pair_once() {
    let list = ddstats::playtime::ServerList {
        servers: vec![pt_server(Some("Kobra"), Some(vec!["a", "b", "a"]))],
    };
    let mut store: PlaytimeStore = Tally::new();
    assert!(tally_server_list(&list, &mut store));
    let rows = playtime_rows(&store, 737928).unwrap();
    assert_eq!(rows.day, "2021-05-18");
    assert_eq!(rows.rows.len(), 2);
    let total: i64 = rows.rows.iter().map(|r| r.time).sum();
    assert_eq!(total, 15);
    assert!(rows.rows.iter().any(|r| r.player == "a" && r.map == "Kobra" && r.time == 10));
    assert!(playtime_rows(&store, i32::MIN).is_none());
}

#[test]
fn servers_with_clients_must_name_their_map() {
    let ok = ddstats::playtime::ServerList {
        servers: vec![pt_server(Some("Kobra"), Some(vec!["a"])), pt_server(None, Some(vec![])), pt_server(None, None)],
    };
    assert!(clients_have_maps(&ok));
    let missing = ddstats::playtime::ServerList { servers: vec![pt_server(None, Some(vec!["a"]))] };
    assert!(!clients_have_maps(&missing));
}

#[test]
fn playtime_tally_stops_before_overflow() {
    let list = ddstats::playtime::ServerList { servers: vec![pt_server(Some("Kobra"), Some(vec!["a"]))] };
    let mut store: PlaytimeStore = Tally::new();
    store.add(pm("a", "Kobra"), i64::MAX - 4);
    assert!(!tally_server_list(&list, &mut store));
    assert_eq!(store.get(&pm("a", "Kobra")), Some(i64::MAX - 4));
}
