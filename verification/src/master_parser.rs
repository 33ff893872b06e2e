//! Play-time snapshots of the DDNet master-server dumps: every listed client that
//! passes the name and length filters adds 5 to the counter of its key.

use crate::calendar::{format_iso_date, iso_date_text, writes_day, MAX_DAY, MIN_DAY};
use crate::keyed::{enumerates, SameKey};
use crate::tally::{
    count_of, lemma_progress_done, lemma_progress_overflow, lemma_progress_step, occurrences,
    tally_fits, tally_progress, tally_stopped, tallied, Tally, TallyKey,
};
use crate::text::{
    byte_len, byte_length, clone_opt_text, ends_with, opt_text, same_opt_text, same_text,
    text_ends_with,
};
use vstd::prelude::*;

verus! {

broadcast use vstd::string::group_string_axioms;

/// A client's skin, as the master server lists it.
#[derive(Debug, Clone)]
pub struct Skin {
    pub name: Option<String>,
    pub color_body: Option<i32>,
    pub color_feet: Option<i32>,
}

/// A client connected to a server.
#[derive(Debug, Clone)]
pub struct Client {
    pub name: String,
    pub clan: String,
    pub country: i32,
    pub skin: Option<Skin>,
}

/// What a server reports about its current game.
#[derive(Debug)]
pub struct Info {
    pub map: GameMap,
    pub game_type: String,
    pub clients: Option<Vec<Client>>,
}

/// The map a server runs.
#[derive(Debug, Clone)]
pub struct GameMap {
    pub name: String,
}

/// A server of the list, with the region it is hosted in.
#[derive(Debug)]
pub struct Server {
    pub info: Info,
    pub location: String,
}

/// One dump of the master server.
#[derive(Debug)]
pub struct ServerList {
    pub servers: Vec<Server>,
}

/// The location a server gets when the dump names none.
pub fn default_location() -> (s: String)
    ensures
        s@ == "unknown"@,
{
    "unknown".to_string()
}

/// What a client's play time is counted under.
#[derive(Debug, Clone, PartialEq, Eq, Hash)]
pub struct SnapshotKey {
    pub location: String,
    pub game_type: String,
    pub map: String,
    pub name: String,
    pub clan: String,
    pub country: i32,
    pub skin_name: Option<String>,
    pub skin_color_body: Option<i32>,
    pub skin_color_feet: Option<i32>,
}

/// The characters and numbers of a `SnapshotKey`.
pub struct SnapshotKeyView {
    pub location: Seq<char>,
    pub game_type: Seq<char>,
    pub map: Seq<char>,
    pub name: Seq<char>,
    pub clan: Seq<char>,
    pub country: i32,
    pub skin_name: Option<Seq<char>>,
    pub skin_color_body: Option<i32>,
    pub skin_color_feet: Option<i32>,
}

impl View for SnapshotKey {
    type V = SnapshotKeyView;

    open spec fn view(&self) -> SnapshotKeyView {
        SnapshotKeyView {
            location: self.location@,
            game_type: self.game_type@,
            map: self.map@,
            name: self.name@,
            clan: self.clan@,
            country: self.country,
            skin_name: opt_text(self.skin_name),
            skin_color_body: self.skin_color_body,
            skin_color_feet: self.skin_color_feet,
        }
    }
}

impl TallyKey for SnapshotKey {
    /// The counters are `i32`.
    open spec fn max_count() -> int {
        i32::MAX as int
    }

    proof fn lemma_max_count() {
    }

}

impl SameKey for SnapshotKey {
    /// Keys are bucketed by the client's name.
    open spec fn bucket_of(key: SnapshotKeyView) -> Seq<char> {
        key.name
    }

    fn bucket(&self) -> (b: String) {
        self.name.clone()
    }

    fn same_key(&self, other: &Self) -> (r: bool) {
        same_text(self.location.as_str(), other.location.as_str())
            && same_text(self.game_type.as_str(), other.game_type.as_str())
            && same_text(self.map.as_str(), other.map.as_str())
            && same_text(self.name.as_str(), other.name.as_str())
            && same_text(self.clan.as_str(), other.clan.as_str())
            && self.country == other.country
            && same_opt_text(&self.skin_name, &other.skin_name)
            && same_opt_i32(self.skin_color_body, other.skin_color_body)
            && same_opt_i32(self.skin_color_feet, other.skin_color_feet)
    }
}

fn same_opt_i32(x: Option<i32>, y: Option<i32>) -> (r: bool)
    ensures
        r == (x == y),
{
    match (x, y) {
        (Some(a), Some(b)) => a == b,
        (None, None) => true,
        _ => false,
    }
}

/// Play time per key of one day.
pub type SnapshotStore = Tally<SnapshotKey>;

/// The snapshot of one day; `date` is its day number (1 January of year 1 is day 1).
pub struct DateEntry {
    pub snapshot: SnapshotStore,
    pub date: i32,
}

/// Placeholder names of clients that are not counted: exactly `(connecting)`, `(1)`,
/// `.` or `brainless tee`, or ending with `nameless tee`, `)nameless te` or
/// `brainless te`.
pub open spec fn is_excluded_name(name: Seq<char>) -> bool {
    ||| name == "(connecting)"@
    ||| name == "(1)"@
    ||| name == "."@
    ||| name == "brainless tee"@
    ||| text_ends_with(name, "nameless tee"@)
    ||| text_ends_with(name, ")nameless te"@)
    ||| text_ends_with(name, "brainless te"@)
}

/// The skin name of a client, if it has a skin with a name.
pub open spec fn skin_name_of(client: Client) -> Option<Seq<char>> {
    match client.skin {
        Some(s) => opt_text(s.name),
        None => None,
    }
}

/// A colour limited to 0 ..= 0xffffff.
pub open spec fn clamp_color(color: i32) -> i32 {
    if color < 0 {
        0
    } else if color > 0xffffff {
        0xffffff
    } else {
        color
    }
}

/// A skin colour of a client, limited to 0 ..= 0xffffff.
pub open spec fn skin_color_of(client: Client, feet: bool) -> Option<i32> {
    match client.skin {
        Some(s) => match (if feet { s.color_feet } else { s.color_body }) {
            Some(c) => Some(clamp_color(c)),
            None => None,
        },
        None => None,
    }
}

/// Whether a client on a server is counted: its name is no placeholder, the game type
/// has at most 32 bytes, the map name at most 128, the clan fewer than 12, the name
/// fewer than 16, and a skin name, where there is one, fewer than 24.
pub open spec fn is_counted(client: Client, server: Server) -> bool {
    &&& !is_excluded_name(client.name@)
    &&& byte_len(server.info.game_type@) <= 32
    &&& byte_len(server.info.map.name@) <= 128
    &&& byte_len(client.clan@) < 12
    &&& byte_len(client.name@) < 16
    &&& match skin_name_of(client) {
        Some(n) => byte_len(n) < 24,
        None => true,
    }
}

/// The key a counted client is tallied under.
pub open spec fn snapshot_key_of(client: Client, server: Server) -> SnapshotKeyView {
    SnapshotKeyView {
        location: server.location@,
        game_type: server.info.game_type@,
        map: server.info.map.name@,
        name: client.name@,
        clan: client.clan@,
        country: client.country,
        skin_name: skin_name_of(client),
        skin_color_body: skin_color_of(client, false),
        skin_color_feet: skin_color_of(client, true),
    }
}

/// The keys of the counted clients of `clients` on `server`, in order.
pub open spec fn counted_keys(clients: Seq<Client>, server: Server) -> Seq<SnapshotKeyView>
    decreases clients.len(),
{
    if clients.len() == 0 {
        seq![]
    } else {
        (if is_counted(clients[0], server) {
            seq![snapshot_key_of(clients[0], server)]
        } else {
            seq![]
        }) + counted_keys(clients.drop_first(), server)
    }
}

/// The keys of the counted clients of a server.
pub open spec fn server_keys(server: Server) -> Seq<SnapshotKeyView> {
    match server.info.clients {
        Some(clients) => counted_keys(clients@, server),
        None => seq![],
    }
}

/// The keys of the counted clients of all servers, in order.
pub open spec fn list_keys(servers: Seq<Server>) -> Seq<SnapshotKeyView>
    decreases servers.len(),
{
    if servers.len() == 0 {
        seq![]
    } else {
        server_keys(servers[0]) + list_keys(servers.drop_first())
    }
}

/// Whether `name` is a placeholder name that is not counted.
pub fn is_excluded(name: &str) -> (r: bool)
    ensures
        r == is_excluded_name(name@),
{
    same_text(name, "(connecting)") || same_text(name, "(1)") || same_text(name, ".")
        || same_text(name, "brainless tee") || ends_with(name, "nameless tee")
        || ends_with(name, ")nameless te") || ends_with(name, "brainless te")
}

fn clamp_skin_color(color: i32) -> (r: i32)
    ensures
        r == clamp_color(color),
{
    if color < 0 {
        0
    } else if color > 0xffffff {
        0xffffff
    } else {
        color
    }
}

/// The key a client on a server is counted under, or `None` where the client is
/// filtered out (see `is_counted`).
pub fn snapshot_key(client: &Client, server: &Server) -> (r: Option<SnapshotKey>)
    ensures
        r is Some <==> is_counted(*client, *server),
        r matches Some(k) ==> k@ == snapshot_key_of(*client, *server),
{
    let name = client.name.as_str();
    if is_excluded(name) {
        return None;
    }
    if byte_length(server.info.game_type.as_str()) > 32 || byte_length(
        server.info.map.name.as_str(),
    ) > 128 || byte_length(client.clan.as_str()) >= 12 || byte_length(name) >= 16 {
        return None;
    }
    let (skin_name, skin_color_body, skin_color_feet) = match &client.skin {
        Some(s) => (
            clone_opt_text(&s.name),
            match s.color_body {
                Some(c) => Some(clamp_skin_color(c)),
                None => None,
            },
            match s.color_feet {
                Some(c) => Some(clamp_skin_color(c)),
                None => None,
            },
        ),
        None => (None, None, None),
    };
    match &skin_name {
        Some(n) => {
            if byte_length(n.as_str()) >= 24 {
                return None;
            }
        },
        None => {},
    }
    Some(
        SnapshotKey {
            location: server.location.clone(),
            game_type: server.info.game_type.clone(),
            map: server.info.map.name.clone(),
            name: client.name.clone(),
            clan: client.clan.clone(),
            country: client.country,
            skin_name,
            skin_color_body,
            skin_color_feet,
        },
    )
}

impl Client {
    /// Counts one sighting of `client` on `server`: unless the client is filtered out
    /// (see `is_counted`), the counter of its key grows by 5.
    pub fn process(client: &Client, server: &Server, snapshot: &mut SnapshotStore)
        requires
            old(snapshot).wf(),
            is_counted(*client, *server) ==> count_of(
                old(snapshot)@,
                snapshot_key_of(*client, *server),
            ) + 5 <= i32::MAX,
        ensures
            final(snapshot).wf(),
            final(snapshot)@ == if is_counted(*client, *server) {
                old(snapshot)@.insert(
                    snapshot_key_of(*client, *server),
                    count_of(old(snapshot)@, snapshot_key_of(*client, *server)) + 5,
                )
            } else {
                old(snapshot)@
            },
    {
        match snapshot_key(client, server) {
            Some(key) => {
                proof {
                    snapshot.lemma_counts_fit(key@);
                }
                snapshot.add(key, 5);
            },
            None => {},
        }
    }
}

/// Counts every client of every server of one dump, in order (the computing part of
/// processing a day's archive). Returns whether all counters stayed within `i32`;
/// where one would not, it stops there and returns `false`, with the counters
/// counted so far.
pub fn process_server_list(list: &ServerList, snapshot: &mut SnapshotStore) -> (ok: bool)
    requires
        old(snapshot).wf(),
    ensures
        final(snapshot).wf(),
        ok == tally_fits(old(snapshot)@, list_keys(list.servers@), i32::MAX as int),
        ok ==> final(snapshot)@ == tallied(old(snapshot)@, list_keys(list.servers@)),
        !ok ==> tally_stopped(old(snapshot)@, list_keys(list.servers@), i32::MAX as int, final(snapshot)@),
{
    let ghost start = old(snapshot)@;
    let ghost all = list_keys(list.servers@);
    let ghost fits = tally_fits(start, all, i32::MAX as int);
    let ghost mut done: Seq<SnapshotKeyView> = seq![];
    assert(list.servers@.skip(0) =~= list.servers@);
    assert(done + all =~= all);
    let mut s: usize = 0;
    while s < list.servers.len()
        invariant
            snapshot.wf(),
            s <= list.servers@.len(),
            start == old(snapshot)@,
            all == list_keys(list.servers@),
            fits == tally_fits(start, all, i32::MAX as int),
            tally_progress(start, all, done, list_keys(list.servers@.skip(s as int)), snapshot@),
            fits == tally_fits(snapshot@, list_keys(list.servers@.skip(s as int)), i32::MAX as int),
        decreases list.servers@.len() - s,
    {
        let server = &list.servers[s];
        assert(list.servers@.skip(s as int).drop_first() =~= list.servers@.skip(s + 1));
        assert(list.servers@.skip(s as int)[0] == *server);
        let ghost rest = list_keys(list.servers@.skip(s + 1));
        match &server.info.clients {
            Some(clients) => {
                let mut c: usize = 0;
                assert(clients@.skip(0) =~= clients@);
                while c < clients.len()
                    invariant
                        snapshot.wf(),
                        c <= clients@.len(),
                        start == old(snapshot)@,
                        all == list_keys(list.servers@),
                        fits == tally_fits(start, all, i32::MAX as int),
                        tally_progress(start, all, done, counted_keys(clients@.skip(c as int), *server) + rest, snapshot@),
                        fits == tally_fits(snapshot@, counted_keys(clients@.skip(c as int), *server) + rest, i32::MAX as int),
                    decreases clients@.len() - c,
                {
                    let client = &clients[c];
                    let ghost keys = counted_keys(clients@.skip(c as int), *server) + rest;
                    let ghost tail = counted_keys(clients@.skip(c + 1), *server) + rest;
                    assert(clients@.skip(c as int).drop_first() =~= clients@.skip(c + 1));
                    assert(clients@.skip(c as int)[0] == *client);
                    match snapshot_key(client, server) {
                        Some(key) => {
                            let ghost k = key@;
                            assert(keys =~= seq![k] + tail);
                            assert(keys[0] == k);
                            let current = match snapshot.get(&key) {
                                Some(n) => n,
                                None => 0,
                            };
                            if current > 2147483642 {
                                proof {
                                    lemma_progress_overflow(start, all, done, keys, snapshot@, i32::MAX as int);
                                }
                                return false;
                            }
                            let ghost before = snapshot@;
                            snapshot.add(key, 5);
                            proof {
                                assert(keys.drop_first() =~= tail);
                                lemma_progress_step(start, all, done, keys, before, snapshot@, i32::MAX as int);
                                done = done.push(k);
                            }
                        },
                        None => {
                            assert(keys =~= tail);
                        },
                    }
                    c += 1;
                }
                assert(clients@.skip(c as int) =~= seq![]);
                assert(counted_keys(clients@.skip(c as int), *server) + rest =~= rest);
            },
            None => {},
        }
        s += 1;
    }
    assert(list.servers@.skip(s as int) =~= seq![]);
    proof {
        lemma_progress_done(start, all, done, snapshot@);
    }
    assert forall|x: SnapshotKeyView|
        #[trigger] count_of(snapshot@, x) + 5 * occurrences(Seq::<SnapshotKeyView>::empty(), x)
            <= i32::MAX by {
        snapshot.lemma_counts_fit(x);
    }
    true
}

/// The insert columns of one day's snapshot; row `i` is spread over the `i`-th
/// element of each column.
pub struct SnapshotColumns {
    pub date: Vec<String>,
    pub location: Vec<String>,
    pub game_type: Vec<String>,
    pub map: Vec<String>,
    pub name: Vec<String>,
    pub clan: Vec<String>,
    pub country: Vec<i32>,
    pub skin_name: Vec<Option<String>>,
    pub skin_color_body: Vec<Option<i32>>,
    pub skin_color_feet: Vec<Option<i32>>,
    pub time: Vec<i32>,
    /// The day's text, under which the day is marked as processed.
    pub day: String,
}

impl SnapshotColumns {
    /// Number of rows: the length of the `time` column.
    pub open spec fn rows(&self) -> nat {
        self.time@.len()
    }

    /// All columns have one element per row.
    pub open spec fn same_lengths(&self) -> bool {
        &&& self.date@.len() == self.rows()
        &&& self.location@.len() == self.rows()
        &&& self.game_type@.len() == self.rows()
        &&& self.map@.len() == self.rows()
        &&& self.name@.len() == self.rows()
        &&& self.clan@.len() == self.rows()
        &&& self.country@.len() == self.rows()
        &&& self.skin_name@.len() == self.rows()
        &&& self.skin_color_body@.len() == self.rows()
        &&& self.skin_color_feet@.len() == self.rows()
    }

    /// The key spread over row `i`.
    pub open spec fn row_key(&self, i: int) -> SnapshotKeyView {
        SnapshotKeyView {
            location: self.location@[i]@,
            game_type: self.game_type@[i]@,
            map: self.map@[i]@,
            name: self.name@[i]@,
            clan: self.clan@[i]@,
            country: self.country@[i],
            skin_name: opt_text(self.skin_name@[i]),
            skin_color_body: self.skin_color_body@[i],
            skin_color_feet: self.skin_color_feet@[i],
        }
    }

    /// The keys of all rows, in order.
    pub open spec fn row_keys(&self) -> Seq<SnapshotKeyView> {
        Seq::new(self.rows(), |i: int| self.row_key(i))
    }
}

/// The columns that insert one day's snapshot, one row per key (in no particular
/// order), or `None` where the day number is beyond what chrono can hold.
pub fn snapshot_columns(entry: &DateEntry) -> (r: Option<SnapshotColumns>)
    requires
        entry.snapshot.wf(),
    ensures
        r is Some <==> MIN_DAY <= entry.date <= MAX_DAY,
        r matches Some(c) ==> {
            &&& c.same_lengths()
            &&& enumerates(c.row_keys(), entry.snapshot@)
            &&& forall|i: int|
                0 <= i < c.rows() ==> #[trigger] c.time@[i] as int == entry.snapshot@[c.row_key(i)]
            &&& forall|i: int| 0 <= i < c.rows() ==> #[trigger] c.date@[i]@ == iso_date_text(entry.date as int)
            &&& c.day@ == iso_date_text(entry.date as int)
            &&& writes_day(c.day@, entry.date as int)
        },
{
    let day = match format_iso_date(entry.date) {
        Some(d) => d,
        None => return None,
    };
    let store = &entry.snapshot;
    let mut c = SnapshotColumns {
        date: Vec::new(),
        location: Vec::new(),
        game_type: Vec::new(),
        map: Vec::new(),
        name: Vec::new(),
        clan: Vec::new(),
        country: Vec::new(),
        skin_name: Vec::new(),
        skin_color_body: Vec::new(),
        skin_color_feet: Vec::new(),
        time: Vec::new(),
        day: day.clone(),
    };
    let n = store.len();
    proof {
        store.lemma_keys();
    }
    let mut i: usize = 0;
    while i < n
        invariant
            store.wf(),
            n == store.keys().len(),
            enumerates(store.keys(), store@),
            i <= n,
            c.rows() == i,
            c.same_lengths(),
            day@ == iso_date_text(entry.date as int),
            writes_day(day@, entry.date as int),
            c.day@ == day@,
            forall|j: int| 0 <= j < i ==> #[trigger] c.row_key(j) == store.keys()[j],
            forall|j: int| 0 <= j < i ==> #[trigger] c.time@[j] as int == store@[store.keys()[j]],
            forall|j: int| 0 <= j < i ==> #[trigger] c.date@[j]@ == day@,
        decreases n - i,
    {
        let (key, count) = store.entry(i);
        let ghost prev = c;
        c.date.push(day.clone());
        c.location.push(key.location.clone());
        c.game_type.push(key.game_type.clone());
        c.map.push(key.map.clone());
        c.name.push(key.name.clone());
        c.clan.push(key.clan.clone());
        c.country.push(key.country);
        c.skin_name.push(clone_opt_text(&key.skin_name));
        c.skin_color_body.push(key.skin_color_body);
        c.skin_color_feet.push(key.skin_color_feet);
        proof {
            store.lemma_counts_fit(key@);
        }
        c.time.push(count as i32);
        assert(c.row_key(i as int) == key@);
        assert forall|j: int| 0 <= j < i implies #[trigger] c.row_key(j) == prev.row_key(j) by {
            assert(c.location@[j] == prev.location@[j]);
            assert(c.game_type@[j] == prev.game_type@[j]);
            assert(c.map@[j] == prev.map@[j]);
            assert(c.name@[j] == prev.name@[j]);
            assert(c.clan@[j] == prev.clan@[j]);
            assert(c.country@[j] == prev.country@[j]);
            assert(c.skin_name@[j] == prev.skin_name@[j]);
            assert(c.skin_color_body@[j] == prev.skin_color_body@[j]);
            assert(c.skin_color_feet@[j] == prev.skin_color_feet@[j]);
        }
        i += 1;
    }
    assert(c.row_keys() =~= store.keys());
    Some(c)
}

} // verus!

verus! {

/// A counted client's key fits the columns of the play-time table (game type up to 32
/// bytes, map up to 128, clan below 12, name below 16, skin name below 24), and its
/// skin colours, where given, lie within 0 ..= 0xffffff.
pub proof fn lemma_counted_key_fits_table(client: Client, server: Server)
    requires
        is_counted(client, server),
    ensures
        byte_len(snapshot_key_of(client, server).game_type) <= 32,
        byte_len(snapshot_key_of(client, server).map) <= 128,
        byte_len(snapshot_key_of(client, server).clan) < 12,
        byte_len(snapshot_key_of(client, server).name) < 16,
        snapshot_key_of(client, server).skin_name matches Some(n) ==> byte_len(n) < 24,
        snapshot_key_of(client, server).skin_color_body matches Some(c) ==> 0 <= c <= 0xffffff,
        snapshot_key_of(client, server).skin_color_feet matches Some(c) ==> 0 <= c <= 0xffffff,
        !is_excluded_name(snapshot_key_of(client, server).name),
{
}

} // verus!

verus! {

/// The first day of which the master server keeps dumps: 18 May 2021.
pub fn first_dump_day() -> (d: i32)
    ensures
        d as int == crate::calendar::day_number(2021, 5, 18),
{
    match crate::calendar::calendar_day(2021, 5, 18) {
        Some(d) => d,
        None => {
            assert(false);
            0
        },
    }
}

/// Whether a client is counted does not depend on its country: a client without a flag
/// (country -1) is counted exactly when the same client with any other country is.
pub proof fn lemma_counting_ignores_country(client: Client, server: Server, country: i32)
    ensures
        is_counted(client, server) == is_counted(
            Client { name: client.name, clan: client.clan, country, skin: client.skin },
            server,
        ),
        snapshot_key_of(Client { name: client.name, clan: client.clan, country, skin: client.skin }, server).country
            == country,
{
}

/// Sightings are counted under one key only when they are of the same client in the same
/// place: equal keys have equal location, game type and map, and clients with equal name,
/// clan, country and skin name.
pub proof fn lemma_equal_keys_are_same_client(c1: Client, s1: Server, c2: Client, s2: Server)
    requires
        snapshot_key_of(c1, s1) == snapshot_key_of(c2, s2),
    ensures
        s1.location@ == s2.location@,
        s1.info.game_type@ == s2.info.game_type@,
        s1.info.map.name@ == s2.info.map.name@,
        c1.name@ == c2.name@,
        c1.clan@ == c2.clan@,
        c1.country == c2.country,
        (c1.skin is Some && c1.skin->0.name is Some) ==> (c2.skin is Some && c2.skin->0.name is Some
            && c2.skin->0.name->0@ == c1.skin->0.name->0@),
{
    let k1 = snapshot_key_of(c1, s1);
    let k2 = snapshot_key_of(c2, s2);
    assert(k1.skin_name == k2.skin_name);
    match c1.skin {
        Some(a) => {
            assert(k1.skin_name == opt_text(a.name));
            match c2.skin {
                Some(b) => {
                    assert(k2.skin_name == opt_text(b.name));
                },
                None => {
                    assert(k2.skin_name is None);
                },
            }
        },
        None => {},
    }
}

} // verus!
