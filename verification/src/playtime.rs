//! Play time per player and map from the master-server dumps, as the SQLite
//! play-time script keeps it: every listed client adds 5 to the counter of its
//! (player, map) pair.

use crate::calendar::{format_iso_date, iso_date_text, writes_day, MAX_DAY, MIN_DAY};
use crate::keyed::{enumerates, SameKey};
use crate::tally::{
    count_of, lemma_progress_done, lemma_progress_overflow, lemma_progress_step, occurrences,
    tally_fits, tally_progress, tally_stopped, tallied, Tally, TallyKey,
};
use crate::text::same_text;
use vstd::prelude::*;

verus! {

/// A client connected to a server; only its name is read.
#[derive(Debug, Clone)]
pub struct Client {
    pub name: String,
}

/// What a server reports about its current game.
#[derive(Debug)]
pub struct Info {
    pub map: Option<GameMap>,
    pub clients: Option<Vec<Client>>,
}

/// The map a server runs.
#[derive(Debug)]
pub struct GameMap {
    pub name: String,
}

/// A server of the list.
#[derive(Debug)]
pub struct Server {
    pub info: Info,
}

/// One dump of the master server.
#[derive(Debug)]
pub struct ServerList {
    pub servers: Vec<Server>,
}

/// A player on a map: what play time is counted under.
#[derive(Debug, Clone, PartialEq, Eq, Hash)]
pub struct PlayerMap {
    pub player: String,
    pub map: String,
}

impl View for PlayerMap {
    type V = (Seq<char>, Seq<char>);

    open spec fn view(&self) -> (Seq<char>, Seq<char>) {
        (self.player@, self.map@)
    }
}

impl TallyKey for PlayerMap {
    /// The counters are `i64`.
    open spec fn max_count() -> int {
        i64::MAX as int
    }

    proof fn lemma_max_count() {
    }

}

impl SameKey for PlayerMap {
    /// Pairs are bucketed by the player.
    open spec fn bucket_of(key: (Seq<char>, Seq<char>)) -> Seq<char> {
        key.0
    }

    fn bucket(&self) -> (b: String) {
        self.player.clone()
    }

    fn same_key(&self, other: &Self) -> (r: bool) {
        same_text(self.player.as_str(), other.player.as_str()) && same_text(
            self.map.as_str(),
            other.map.as_str(),
        )
    }
}

/// Play time per player and map of one day.
pub type PlaytimeStore = Tally<PlayerMap>;

/// A server whose clients can be counted: one that lists clients names its map.
pub open spec fn names_map_of_clients(server: Server) -> bool {
    match server.info.clients {
        Some(clients) => clients@.len() > 0 ==> server.info.map is Some,
        None => true,
    }
}

/// Whether every server of the dump that lists clients names its map.
pub fn clients_have_maps(list: &ServerList) -> (r: bool)
    ensures
        r == forall|i: int| 0 <= i < list.servers@.len() ==> names_map_of_clients(#[trigger] list.servers@[i]),
{
    let mut s: usize = 0;
    while s < list.servers.len()
        invariant
            s <= list.servers@.len(),
            forall|i: int| 0 <= i < s ==> names_map_of_clients(#[trigger] list.servers@[i]),
        decreases list.servers@.len() - s,
    {
        let server = &list.servers[s];
        match &server.info.clients {
            Some(clients) => {
                if clients.len() > 0 && server.info.map.is_none() {
                    assert(!names_map_of_clients(list.servers@[s as int]));
                    return false;
                }
            },
            None => {},
        }
        s += 1;
    }
    true
}

/// The (player, map) pairs of `clients` on the map named `map`, in order.
pub open spec fn client_keys(clients: Seq<Client>, map: Seq<char>) -> Seq<(Seq<char>, Seq<char>)>
    decreases clients.len(),
{
    if clients.len() == 0 {
        seq![]
    } else {
        seq![(clients[0].name@, map)] + client_keys(clients.drop_first(), map)
    }
}

/// The (player, map) pairs of a server's clients.
pub open spec fn server_keys(server: Server) -> Seq<(Seq<char>, Seq<char>)> {
    match (server.info.clients, server.info.map) {
        (Some(clients), Some(map)) => client_keys(clients@, map.name@),
        _ => seq![],
    }
}

/// The (player, map) pairs of the clients of all servers, in order.
pub open spec fn list_keys(servers: Seq<Server>) -> Seq<(Seq<char>, Seq<char>)>
    decreases servers.len(),
{
    if servers.len() == 0 {
        seq![]
    } else {
        server_keys(servers[0]) + list_keys(servers.drop_first())
    }
}

/// Counts every client of every server of one dump, in order: each adds 5 to the
/// counter of its name on its server's map. Returns whether all counters stayed within
/// `i64`; where one would not, it stops there and returns `false`, with the counters
/// counted so far.
pub fn tally_server_list(list: &ServerList, playtime: &mut PlaytimeStore) -> (ok: bool)
    requires
        old(playtime).wf(),
        forall|i: int| 0 <= i < list.servers@.len() ==> names_map_of_clients(#[trigger] list.servers@[i]),
    ensures
        final(playtime).wf(),
        ok == tally_fits(old(playtime)@, list_keys(list.servers@), i64::MAX as int),
        ok ==> final(playtime)@ == tallied(old(playtime)@, list_keys(list.servers@)),
        !ok ==> tally_stopped(old(playtime)@, list_keys(list.servers@), i64::MAX as int, final(playtime)@),
{
    let ghost start = old(playtime)@;
    let ghost all = list_keys(list.servers@);
    let ghost fits = tally_fits(start, all, i64::MAX as int);
    let ghost mut done: Seq<(Seq<char>, Seq<char>)> = seq![];
    assert(list.servers@.skip(0) =~= list.servers@);
    assert(done + all =~= all);
    let mut s: usize = 0;
    while s < list.servers.len()
        invariant
            playtime.wf(),
            s <= list.servers@.len(),
            forall|i: int| 0 <= i < list.servers@.len() ==> names_map_of_clients(#[trigger] list.servers@[i]),
            start == old(playtime)@,
            all == list_keys(list.servers@),
            fits == tally_fits(start, all, i64::MAX as int),
            tally_progress(start, all, done, list_keys(list.servers@.skip(s as int)), playtime@),
            fits == tally_fits(playtime@, list_keys(list.servers@.skip(s as int)), i64::MAX as int),
        decreases list.servers@.len() - s,
    {
        let server = &list.servers[s];
        assert(list.servers@.skip(s as int).drop_first() =~= list.servers@.skip(s + 1));
        assert(list.servers@.skip(s as int)[0] == *server);
        assert(names_map_of_clients(list.servers@[s as int]));
        let ghost rest = list_keys(list.servers@.skip(s + 1));
        match &server.info.clients {
            Some(clients) => {
                if clients.len() > 0 {
                    let map = match &server.info.map {
                        Some(m) => m,
                        None => {
                            assert(false);
                            return false;
                        },
                    };
                    let mut c: usize = 0;
                    assert(clients@.skip(0) =~= clients@);
                    while c < clients.len()
                        invariant
                            playtime.wf(),
                            c <= clients@.len(),
                            start == old(playtime)@,
                            all == list_keys(list.servers@),
                            fits == tally_fits(start, all, i64::MAX as int),
                            tally_progress(start, all, done, client_keys(clients@.skip(c as int), map.name@) + rest, playtime@),
                            fits == tally_fits(playtime@, client_keys(clients@.skip(c as int), map.name@) + rest, i64::MAX as int),
                        decreases clients@.len() - c,
                    {
                        let client = &clients[c];
                        let ghost keys = client_keys(clients@.skip(c as int), map.name@) + rest;
                        let ghost tail = client_keys(clients@.skip(c + 1), map.name@) + rest;
                        assert(clients@.skip(c as int).drop_first() =~= clients@.skip(c + 1));
                        assert(clients@.skip(c as int)[0] == *client);
                        let key = PlayerMap { player: client.name.clone(), map: map.name.clone() };
                        let ghost k = key@;
                        assert(keys =~= seq![k] + tail);
                        assert(keys[0] == k);
                        let current = match playtime.get(&key) {
                            Some(n) => n,
                            None => 0,
                        };
                        if current > 9223372036854775802 {
                            proof {
                                lemma_progress_overflow(start, all, done, keys, playtime@, i64::MAX as int);
                            }
                            return false;
                        }
                        let ghost before = playtime@;
                        playtime.add(key, 5);
                        proof {
                            assert(keys.drop_first() =~= tail);
                            lemma_progress_step(start, all, done, keys, before, playtime@, i64::MAX as int);
                            done = done.push(k);
                        }
                        c += 1;
                    }
                    assert(clients@.skip(c as int) =~= seq![]);
                    assert(client_keys(clients@.skip(c as int), map.name@) + rest =~= rest);
                } else {
                    assert(clients@ =~= seq![]);
                    assert(server_keys(*server) =~= seq![]);
                    assert(server_keys(*server) + rest =~= rest);
                }
            },
            None => {
                assert(server_keys(*server) + rest =~= rest);
            },
        }
        s += 1;
    }
    assert(list.servers@.skip(s as int) =~= seq![]);
    proof {
        lemma_progress_done(start, all, done, playtime@);
    }
    assert forall|x: (Seq<char>, Seq<char>)|
        #[trigger] count_of(playtime@, x) + 5 * occurrences(Seq::<(Seq<char>, Seq<char>)>::empty(), x)
            <= i64::MAX by {
        playtime.lemma_counts_fit(x);
    }
    true
}

/// One row of the play-time table: a player's time on a map.
#[derive(Debug, Clone)]
pub struct PlaytimeRow {
    pub player: String,
    pub map: String,
    pub time: i64,
}

/// The rows of one day, with the day's text.
pub struct PlaytimeRows {
    pub day: String,
    pub rows: Vec<PlaytimeRow>,
}

impl PlaytimeRows {
    /// The (player, map) pairs of the rows, in order.
    pub open spec fn row_keys(&self) -> Seq<(Seq<char>, Seq<char>)> {
        Seq::new(self.rows@.len(), |i: int| (self.rows@[i].player@, self.rows@[i].map@))
    }
}

/// One row per (player, map) pair of the day's tally (in no particular order), with
/// the day's text; `None` where the day number is beyond what chrono can hold.
pub fn playtime_rows(playtime: &PlaytimeStore, date: i32) -> (r: Option<PlaytimeRows>)
    requires
        playtime.wf(),
    ensures
        r is Some <==> MIN_DAY <= date <= MAX_DAY,
        r matches Some(rows) ==> {
            &&& rows.day@ == iso_date_text(date as int)
            &&& writes_day(rows.day@, date as int)
            &&& enumerates(rows.row_keys(), playtime@)
            &&& forall|i: int|
                0 <= i < rows.rows@.len() ==> #[trigger] rows.rows@[i].time as int
                    == playtime@[rows.row_keys()[i]]
        },
{
    let day = match format_iso_date(date) {
        Some(d) => d,
        None => return None,
    };
    let n = playtime.len();
    proof {
        playtime.lemma_keys();
    }
    let mut rows: Vec<PlaytimeRow> = Vec::new();
    let mut i: usize = 0;
    while i < n
        invariant
            playtime.wf(),
            n == playtime.keys().len(),
            i <= n,
            rows@.len() == i,
            forall|j: int| 0 <= j < i ==> (#[trigger] rows@[j].player@, rows@[j].map@) == playtime.keys()[j],
            forall|j: int| 0 <= j < i ==> #[trigger] rows@[j].time as int == playtime@[playtime.keys()[j]],
        decreases n - i,
    {
        let (key, time) = playtime.entry(i);
        rows.push(PlaytimeRow { player: key.player.clone(), map: key.map.clone(), time });
        i += 1;
    }
    let r = PlaytimeRows { day, rows };
    assert(r.row_keys() =~= playtime.keys());
    Some(r)
}

/// Every listed client counts, whatever its name: the keys of a server's clients are one
/// per client, in order, each the client's name with the map.
pub proof fn lemma_every_client_counts(clients: Seq<Client>, map: Seq<char>)
    ensures
        client_keys(clients, map).len() == clients.len(),
        forall|i: int| 0 <= i < clients.len() ==> #[trigger] client_keys(clients, map)[i] == (clients[i].name@, map),
    decreases clients.len(),
{
    if clients.len() > 0 {
        lemma_every_client_counts(clients.drop_first(), map);
        assert forall|i: int| 0 <= i < clients.len() implies #[trigger] client_keys(clients, map)[i] == (clients[i].name@, map) by {
            if i > 0 {
                assert(clients.drop_first()[i - 1] == clients[i]);
            }
        }
    }
}

} // verus!
