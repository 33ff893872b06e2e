//! The standalone master-server parser: like `master_parser`, but every listed
//! client is counted, and the key also holds the client's AFK flag and team.

use crate::calendar::{format_iso_date, iso_date_text, writes_day, MAX_DAY, MIN_DAY};
use crate::keyed::{enumerates, SameKey};
use crate::tally::{
    count_of, lemma_progress_done, lemma_progress_overflow, lemma_progress_step, occurrences,
    tally_fits, tally_progress, tally_stopped, tallied, Tally, TallyKey,
};
use crate::text::{clone_opt_text, opt_text, same_opt_text, same_text};
use vstd::prelude::*;

verus! {

/// A client's skin, as the master server lists it.
#[derive(Debug, Clone)]
pub struct Skin {
    pub name: Option<String>,
    pub color_body: Option<i32>,
    pub color_feet: Option<i32>,
}

/// A client connected to a server.
#[derive(Debug, Clone)]
pub struct Client {
    pub name: String,
    pub clan: String,
    pub country: i32,
    pub skin: Option<Skin>,
    pub afk: Option<bool>,
    pub team: Option<i32>,
}

/// What a server reports about its current game.
#[derive(Debug)]
pub struct Info {
    pub map: GameMap,
    pub clients: Vec<Client>,
    pub game_type: String,
}

/// The map a server runs.
#[derive(Debug, Clone)]
pub struct GameMap {
    pub name: String,
}

/// A server of the list, with the region it is hosted in.
#[derive(Debug)]
pub struct Server {
    pub location: String,
    pub info: Info,
}

/// One dump of the master server.
#[derive(Debug)]
pub struct ServerList {
    pub servers: Vec<Server>,
}

/// What a client's play time is counted under.
#[derive(Debug, Clone, PartialEq, Eq, Hash)]
pub struct SnapshotKey {
    pub location: String,
    pub game_type: String,
    pub map: String,
    pub name: String,
    pub clan: String,
    pub country: i32,
    pub skin_name: Option<String>,
    pub skin_color_body: Option<i32>,
    pub skin_color_feet: Option<i32>,
    pub afk: Option<bool>,
    pub team: Option<i32>,
}

/// The characters and numbers of a `SnapshotKey`.
pub struct SnapshotKeyView {
    pub location: Seq<char>,
    pub game_type: Seq<char>,
    pub map: Seq<char>,
    pub name: Seq<char>,
    pub clan: Seq<char>,
    pub country: i32,
    pub skin_name: Option<Seq<char>>,
    pub skin_color_body: Option<i32>,
    pub skin_color_feet: Option<i32>,
    pub afk: Option<bool>,
    pub team: Option<i32>,
}

impl View for SnapshotKey {
    type V = SnapshotKeyView;

    open spec fn view(&self) -> SnapshotKeyView {
        SnapshotKeyView {
            location: self.location@,
            game_type: self.game_type@,
            map: self.map@,
            name: self.name@,
            clan: self.clan@,
            country: self.country,
            skin_name: opt_text(self.skin_name),
            skin_color_body: self.skin_color_body,
            skin_color_feet: self.skin_color_feet,
            afk: self.afk,
            team: self.team,
        }
    }
}

fn same_opt_i32(x: Option<i32>, y: Option<i32>) -> (r: bool)
    ensures
        r == (x == y),
{
    match (x, y) {
        (Some(a), Some(b)) => a == b,
        (None, None) => true,
        _ => false,
    }
}

fn same_opt_bool(x: Option<bool>, y: Option<bool>) -> (r: bool)
    ensures
        r == (x == y),
{
    match (x, y) {
        (Some(a), Some(b)) => a == b,
        (None, None) => true,
        _ => false,
    }
}

impl TallyKey for SnapshotKey {
    /// The counters are `i32`.
    open spec fn max_count() -> int {
        i32::MAX as int
    }

    proof fn lemma_max_count() {
    }

}

impl SameKey for SnapshotKey {
    /// Keys are bucketed by the client's name.
    open spec fn bucket_of(key: SnapshotKeyView) -> Seq<char> {
        key.name
    }

    fn bucket(&self) -> (b: String) {
        self.name.clone()
    }

    fn same_key(&self, other: &Self) -> (r: bool) {
        same_text(self.location.as_str(), other.location.as_str())
            && same_text(self.game_type.as_str(), other.game_type.as_str())
            && same_text(self.map.as_str(), other.map.as_str())
            && same_text(self.name.as_str(), other.name.as_str())
            && same_text(self.clan.as_str(), other.clan.as_str())
            && self.country == other.country
            && same_opt_text(&self.skin_name, &other.skin_name)
            && same_opt_i32(self.skin_color_body, other.skin_color_body)
            && same_opt_i32(self.skin_color_feet, other.skin_color_feet)
            && same_opt_bool(self.afk, other.afk)
            && same_opt_i32(self.team, other.team)
    }
}

/// Play time per key of one day.
pub type SnapshotStore = Tally<SnapshotKey>;

/// The snapshot of one day; `date` is its day number (1 January of year 1 is day 1).
pub struct DateEntry {
    pub snapshot: SnapshotStore,
    pub date: i32,
}

/// The key a client on a server is tallied under.
pub open spec fn snapshot_key_of(client: Client, server: Server) -> SnapshotKeyView {
    SnapshotKeyView {
        location: server.location@,
        game_type: server.info.game_type@,
        map: server.info.map.name@,
        name: client.name@,
        clan: client.clan@,
        country: client.country,
        skin_name: match client.skin {
            Some(s) => opt_text(s.name),
            None => None,
        },
        skin_color_body: match client.skin {
            Some(s) => s.color_body,
            None => None,
        },
        skin_color_feet: match client.skin {
            Some(s) => s.color_feet,
            None => None,
        },
        afk: client.afk,
        team: client.team,
    }
}

/// The keys of `clients` on `server`, in order.
pub open spec fn client_keys(clients: Seq<Client>, server: Server) -> Seq<SnapshotKeyView>
    decreases clients.len(),
{
    if clients.len() == 0 {
        seq![]
    } else {
        seq![snapshot_key_of(clients[0], server)] + client_keys(clients.drop_first(), server)
    }
}

/// The keys of the clients of all servers, in order.
pub open spec fn list_keys(servers: Seq<Server>) -> Seq<SnapshotKeyView>
    decreases servers.len(),
{
    if servers.len() == 0 {
        seq![]
    } else {
        client_keys(servers[0].info.clients@, servers[0]) + list_keys(servers.drop_first())
    }
}

/// The key a client on a server is counted under.
pub fn snapshot_key(client: &Client, server: &Server) -> (k: SnapshotKey)
    ensures
        k@ == snapshot_key_of(*client, *server),
{
    let (skin_name, skin_color_body, skin_color_feet) = match &client.skin {
        Some(s) => (clone_opt_text(&s.name), s.color_body, s.color_feet),
        None => (None, None, None),
    };
    SnapshotKey {
        location: server.location.clone(),
        game_type: server.info.game_type.clone(),
        map: server.info.map.name.clone(),
        name: client.name.clone(),
        clan: client.clan.clone(),
        country: client.country,
        skin_name,
        skin_color_body,
        skin_color_feet,
        afk: client.afk,
        team: client.team,
    }
}

impl Client {
    /// Counts one sighting of `client` on `server`: the counter of its key grows by 5.
    pub fn process(client: &Client, server: &Server, snapshot: &mut SnapshotStore)
        requires
            old(snapshot).wf(),
            count_of(old(snapshot)@, snapshot_key_of(*client, *server)) + 5 <= i32::MAX,
        ensures
            final(snapshot).wf(),
            final(snapshot)@ == old(snapshot)@.insert(
                snapshot_key_of(*client, *server),
                count_of(old(snapshot)@, snapshot_key_of(*client, *server)) + 5,
            ),
    {
        let key = snapshot_key(client, server);
        proof {
            snapshot.lemma_counts_fit(key@);
        }
        snapshot.add(key, 5);
    }
}

/// Counts every client of every server of one dump, in order (the computing part of
/// processing a day's archive). Returns whether all counters stayed within `i32`;
/// where one would not, it stops there and returns `false`, with the counters
/// counted so far.
pub fn process_server_list(list: &ServerList, snapshot: &mut SnapshotStore) -> (ok: bool)
    requires
        old(snapshot).wf(),
    ensures
        final(snapshot).wf(),
        ok == tally_fits(old(snapshot)@, list_keys(list.servers@), i32::MAX as int),
        ok ==> final(snapshot)@ == tallied(old(snapshot)@, list_keys(list.servers@)),
        !ok ==> tally_stopped(old(snapshot)@, list_keys(list.servers@), i32::MAX as int, final(snapshot)@),
{
    let ghost start = old(snapshot)@;
    let ghost all = list_keys(list.servers@);
    let ghost fits = tally_fits(start, all, i32::MAX as int);
    let ghost mut done: Seq<SnapshotKeyView> = seq![];
    assert(list.servers@.skip(0) =~= list.servers@);
    assert(done + all =~= all);
    let mut s: usize = 0;
    while s < list.servers.len()
        invariant
            snapshot.wf(),
            s <= list.servers@.len(),
            start == old(snapshot)@,
            all == list_keys(list.servers@),
            fits == tally_fits(start, all, i32::MAX as int),
            tally_progress(start, all, done, list_keys(list.servers@.skip(s as int)), snapshot@),
            fits == tally_fits(snapshot@, list_keys(list.servers@.skip(s as int)), i32::MAX as int),
        decreases list.servers@.len() - s,
    {
        let server = &list.servers[s];
        assert(list.servers@.skip(s as int).drop_first() =~= list.servers@.skip(s + 1));
        assert(list.servers@.skip(s as int)[0] == *server);
        let ghost rest = list_keys(list.servers@.skip(s + 1));
        let clients = &server.info.clients;
        let mut c: usize = 0;
        assert(clients@.skip(0) =~= clients@);
        while c < clients.len()
            invariant
                snapshot.wf(),
                c <= clients@.len(),
                start == old(snapshot)@,
                all == list_keys(list.servers@),
                fits == tally_fits(start, all, i32::MAX as int),
                tally_progress(start, all, done, client_keys(clients@.skip(c as int), *server) + rest, snapshot@),
                fits == tally_fits(snapshot@, client_keys(clients@.skip(c as int), *server) + rest, i32::MAX as int),
            decreases clients@.len() - c,
        {
            let client = &clients[c];
            let ghost keys = client_keys(clients@.skip(c as int), *server) + rest;
            let ghost tail = client_keys(clients@.skip(c + 1), *server) + rest;
            assert(clients@.skip(c as int).drop_first() =~= clients@.skip(c + 1));
            assert(clients@.skip(c as int)[0] == *client);
            let key = snapshot_key(client, server);
            let ghost k = key@;
            assert(keys =~= seq![k] + tail);
            assert(keys[0] == k);
            let current = match snapshot.get(&key) {
                Some(n) => n,
                None => 0,
            };
            if current > 2147483642 {
                proof {
                    lemma_progress_overflow(start, all, done, keys, snapshot@, i32::MAX as int);
                }
                return false;
            }
            let ghost before = snapshot@;
            snapshot.add(key, 5);
            proof {
                assert(keys.drop_first() =~= tail);
                lemma_progress_step(start, all, done, keys, before, snapshot@, i32::MAX as int);
                done = done.push(k);
            }
            c += 1;
        }
        assert(clients@.skip(c as int) =~= seq![]);
        assert(client_keys(clients@.skip(c as int), *server) + rest =~= rest);
        s += 1;
    }
    assert(list.servers@.skip(s as int) =~= seq![]);
    proof {
        lemma_progress_done(start, all, done, snapshot@);
    }
    assert forall|x: SnapshotKeyView|
        #[trigger] count_of(snapshot@, x) + 5 * occurrences(Seq::<SnapshotKeyView>::empty(), x)
            <= i32::MAX by {
        snapshot.lemma_counts_fit(x);
    }
    true
}

/// The insert columns of one day's snapshot; row `i` is spread over the `i`-th
/// element of each column.
pub struct SnapshotColumns {
    pub date: Vec<String>,
    pub location: Vec<String>,
    pub game_type: Vec<String>,
    pub map: Vec<String>,
    pub name: Vec<String>,
    pub clan: Vec<String>,
    pub country: Vec<i32>,
    pub skin_name: Vec<Option<String>>,
    pub skin_color_body: Vec<Option<i32>>,
    pub skin_color_feet: Vec<Option<i32>>,
    pub afk: Vec<Option<bool>>,
    pub team: Vec<Option<i32>>,
    pub time: Vec<i32>,
    /// The day's text, under which the day is marked as processed.
    pub day: String,
}

impl SnapshotColumns {
    /// Number of rows: the length of the `time` column.
    pub open spec fn rows(&self) -> nat {
        self.time@.len()
    }

    /// All columns have one element per row.
    pub open spec fn same_lengths(&self) -> bool {
        &&& self.date@.len() == self.rows()
        &&& self.location@.len() == self.rows()
        &&& self.game_type@.len() == self.rows()
        &&& self.map@.len() == self.rows()
        &&& self.name@.len() == self.rows()
        &&& self.clan@.len() == self.rows()
        &&& self.country@.len() == self.rows()
        &&& self.skin_name@.len() == self.rows()
        &&& self.skin_color_body@.len() == self.rows()
        &&& self.skin_color_feet@.len() == self.rows()
        &&& self.afk@.len() == self.rows()
        &&& self.team@.len() == self.rows()
    }

    /// The key spread over row `i`.
    pub open spec fn row_key(&self, i: int) -> SnapshotKeyView {
        SnapshotKeyView {
            location: self.location@[i]@,
            game_type: self.game_type@[i]@,
            map: self.map@[i]@,
            name: self.name@[i]@,
            clan: self.clan@[i]@,
            country: self.country@[i],
            skin_name: opt_text(self.skin_name@[i]),
            skin_color_body: self.skin_color_body@[i],
            skin_color_feet: self.skin_color_feet@[i],
            afk: self.afk@[i],
            team: self.team@[i],
        }
    }

    /// The keys of all rows, in order.
    pub open spec fn row_keys(&self) -> Seq<SnapshotKeyView> {
        Seq::new(self.rows(), |i: int| self.row_key(i))
    }
}

/// The columns that insert one day's snapshot, one row per key (in no particular
/// order), or `None` where the day number is beyond what chrono can hold.
pub fn snapshot_columns(entry: &DateEntry) -> (r: Option<SnapshotColumns>)
    requires
        entry.snapshot.wf(),
    ensures
        r is Some <==> MIN_DAY <= entry.date <= MAX_DAY,
        r matches Some(c) ==> {
            &&& c.same_lengths()
            &&& enumerates(c.row_keys(), entry.snapshot@)
            &&& forall|i: int|
                0 <= i < c.rows() ==> #[trigger] c.time@[i] as int == entry.snapshot@[c.row_key(i)]
            &&& forall|i: int| 0 <= i < c.rows() ==> #[trigger] c.date@[i]@ == iso_date_text(entry.date as int)
            &&& c.day@ == iso_date_text(entry.date as int)
            &&& writes_day(c.day@, entry.date as int)
        },
{
    let day = match format_iso_date(entry.date) {
        Some(d) => d,
        None => return None,
    };
    let store = &entry.snapshot;
    let mut c = SnapshotColumns {
        date: Vec::new(),
        location: Vec::new(),
        game_type: Vec::new(),
        map: Vec::new(),
        name: Vec::new(),
        clan: Vec::new(),
        country: Vec::new(),
        skin_name: Vec::new(),
        skin_color_body: Vec::new(),
        skin_color_feet: Vec::new(),
        afk: Vec::new(),
        team: Vec::new(),
        time: Vec::new(),
        day: day.clone(),
    };
    let n = store.len();
    proof {
        store.lemma_keys();
    }
    let mut i: usize = 0;
    while i < n
        invariant
            store.wf(),
            n == store.keys().len(),
            enumerates(store.keys(), store@),
            i <= n,
            c.rows() == i,
            c.same_lengths(),
            day@ == iso_date_text(entry.date as int),
            writes_day(day@, entry.date as int),
            c.day@ == day@,
            forall|j: int| 0 <= j < i ==> #[trigger] c.row_key(j) == store.keys()[j],
            forall|j: int| 0 <= j < i ==> #[trigger] c.time@[j] as int == store@[store.keys()[j]],
            forall|j: int| 0 <= j < i ==> #[trigger] c.date@[j]@ == day@,
        decreases n - i,
    {
        let (key, count) = store.entry(i);
        let ghost prev = c;
        c.date.push(day.clone());
        c.location.push(key.location.clone());
        c.game_type.push(key.game_type.clone());
        c.map.push(key.map.clone());
        c.name.push(key.name.clone());
        c.clan.push(key.clan.clone());
        c.country.push(key.country);
        c.skin_name.push(clone_opt_text(&key.skin_name));
        c.skin_color_body.push(key.skin_color_body);
        c.skin_color_feet.push(key.skin_color_feet);
        c.afk.push(key.afk);
        c.team.push(key.team);
        proof {
            store.lemma_counts_fit(key@);
        }
        c.time.push(count as i32);
        assert(c.row_key(i as int) == key@);
        assert forall|j: int| 0 <= j < i implies #[trigger] c.row_key(j) == prev.row_key(j) by {
            assert(c.location@[j] == prev.location@[j]);
            assert(c.game_type@[j] == prev.game_type@[j]);
            assert(c.map@[j] == prev.map@[j]);
            assert(c.name@[j] == prev.name@[j]);
            assert(c.clan@[j] == prev.clan@[j]);
            assert(c.country@[j] == prev.country@[j]);
            assert(c.skin_name@[j] == prev.skin_name@[j]);
            assert(c.skin_color_body@[j] == prev.skin_color_body@[j]);
            assert(c.skin_color_feet@[j] == prev.skin_color_feet@[j]);
            assert(c.afk@[j] == prev.afk@[j]);
            assert(c.team@[j] == prev.team@[j]);
        }
        i += 1;
    }
    assert(c.row_keys() =~= store.keys());
    Some(c)
}

/// Sightings are counted under one key only when they are of the same client in the same
/// place: equal keys have equal location, game type and map, and clients with equal name,
/// clan, country, skin name, skin colours, AFK flag and team.
pub proof fn lemma_equal_keys_are_same_client(c1: Client, s1: Server, c2: Client, s2: Server)
    requires
        snapshot_key_of(c1, s1) == snapshot_key_of(c2, s2),
    ensures
        s1.location@ == s2.location@,
        s1.info.game_type@ == s2.info.game_type@,
        s1.info.map.name@ == s2.info.map.name@,
        c1.name@ == c2.name@,
        c1.clan@ == c2.clan@,
        c1.country == c2.country,
        c1.afk == c2.afk,
        c1.team == c2.team,
        (c1.skin is Some && c1.skin->0.name is Some) ==> (c2.skin is Some && c2.skin->0.name is Some
            && c2.skin->0.name->0@ == c1.skin->0.name->0@),
        (c1.skin is Some && c1.skin->0.color_body is Some) ==> (c2.skin is Some && c2.skin->0.color_body
            == c1.skin->0.color_body),
        (c1.skin is Some && c1.skin->0.color_feet is Some) ==> (c2.skin is Some && c2.skin->0.color_feet
            == c1.skin->0.color_feet),
{
    let k1 = snapshot_key_of(c1, s1);
    let k2 = snapshot_key_of(c2, s2);
    assert(k1.skin_name == k2.skin_name);
    assert(k1.skin_color_body == k2.skin_color_body);
    assert(k1.skin_color_feet == k2.skin_color_feet);
    match c1.skin {
        Some(a) => {
            assert(k1.skin_name == opt_text(a.name));
            assert(k1.skin_color_body == a.color_body);
            match c2.skin {
                Some(b) => {
                    assert(k2.skin_name == opt_text(b.name));
                    assert(k2.skin_color_body == b.color_body);
                },
                None => {
                    assert(k2.skin_name is None);
                    assert(k2.skin_color_body is None);
                },
            }
        },
        None => {},
    }
}

/// Every client of a server is counted, whatever its name: the keys of a server's
/// clients are one per client, in order, each with that client's name and the server's
/// map.
pub proof fn lemma_every_client_counts(clients: Seq<Client>, server: Server)
    ensures
        client_keys(clients, server).len() == clients.len(),
        forall|i: int|
            0 <= i < clients.len() ==> (#[trigger] client_keys(clients, server)[i]).name == clients[i].name@
                && client_keys(clients, server)[i].map == server.info.map.name@,
    decreases clients.len(),
{
    if clients.len() > 0 {
        lemma_every_client_counts(clients.drop_first(), server);
        assert forall|i: int| 0 <= i < clients.len() implies (#[trigger] client_keys(clients, server)[i]).name
            == clients[i].name@ && client_keys(clients, server)[i].map == server.info.map.name@ by {
            if i > 0 {
                assert(clients.drop_first()[i - 1] == clients[i]);
            }
        }
    }
}

} // verus!
