//! Synchronisation of the database with the DDNet CSV exports: the record types of
//! the exports, the flag columns, and the plan that turns a CSV diff into deletes and
//! one batch of inserts.

use crate::calendar::{parse_timestamp, parsed_timestamp, Timestamp};
use csv_diff::csv::Csv;
use csv_diff::csv_diff::CsvByteDiffLocalBuilder;
use csv_diff::diff_row::{ByteRecordLineInfo, DiffByteRecord};
use vstd::prelude::*;

verus! {

/// Rows per insert batch.
pub const BATCH_AMOUNT: usize = 10000;

/// The exports that are synchronised.
#[derive(Clone, Copy, Debug, PartialEq, Eq, Structural)]
pub enum Type {
    Maps,
    Mapinfo,
    Race,
    Teamrace,
}

/// The columns that identify a row of an export.
pub open spec fn key_columns(t: Type) -> Seq<usize> {
    match t {
        Type::Maps => seq![0usize],
        Type::Mapinfo => seq![0usize],
        Type::Teamrace => seq![1usize, 4usize],
        Type::Race => seq![0usize, 1usize, 2usize, 3usize, 4usize],
    }
}

impl Type {
    /// The columns that identify a row of the export.
    pub fn primary_key_columns(&self) -> (r: Vec<usize>)
        ensures
            r@ == key_columns(*self),
    {
        match self {
            Type::Maps => vec![0],
            Type::Mapinfo => vec![0],
            Type::Teamrace => vec![1, 4],
            Type::Race => vec![0, 1, 2, 3, 4],
        }
    }

    /// The export (source) and the copy of what the database holds (target), as file
    /// names under `data/`.
    pub fn csv_files(&self) -> (r: (&'static str, &'static str))
        ensures
            r.0@ == match *self {
                Type::Maps => "maps.csv"@,
                Type::Mapinfo => "mapinfo.csv"@,
                Type::Teamrace => "teamrace.csv"@,
                Type::Race => "race.csv"@,
            },
            r.1@ == match *self {
                Type::Maps => "maps-psql.csv"@,
                Type::Mapinfo => "mapinfo-psql.csv"@,
                Type::Teamrace => "teamrace-psql.csv"@,
                Type::Race => "race-psql.csv"@,
            },
    {
        match self {
            Type::Maps => ("maps.csv", "maps-psql.csv"),
            Type::Mapinfo => ("mapinfo.csv", "mapinfo-psql.csv"),
            Type::Teamrace => ("teamrace.csv", "teamrace-psql.csv"),
            Type::Race => ("race.csv", "race-psql.csv"),
        }
    }
}

/// The exports in the order in which they are synchronised.
pub fn sync_order() -> (r: Vec<Type>)
    ensures
        r@ == seq![Type::Maps, Type::Mapinfo, Type::Teamrace, Type::Race],
{
    vec![Type::Maps, Type::Mapinfo, Type::Teamrace, Type::Race]
}

/// A flag column that holds neither 0 nor 1.
#[derive(Clone, Copy, Debug, PartialEq, Eq, Structural)]
pub struct InvalidFlag {
    pub value: u8,
}

/// Reads a flag column: 0 is false, 1 is true, anything else is refused.
pub fn bool_from_int(value: u8) -> (r: Result<bool, InvalidFlag>)
    ensures
        value == 0 ==> r == Ok::<bool, InvalidFlag>(false),
        value == 1 ==> r == Ok::<bool, InvalidFlag>(true),
        value > 1 ==> r == Err::<bool, InvalidFlag>(InvalidFlag { value }),
{
    match value {
        0 => Ok(false),
        1 => Ok(true),
        other => Err(InvalidFlag { value: other }),
    }
}

/// A row of the maps export.
#[derive(Debug, Clone)]
pub struct MapRecord {
    pub map: String,
    pub server: String,
    pub points: i32,
    pub stars: i32,
    pub mapper: String,
    pub timestamp: String,
}

impl MapRecord {
    /// The release time of the map, read with `%Y-%m-%d %H:%M:%S`; `None` where the
    /// text does not read as one.
    pub fn release_time(&self) -> (r: Option<Timestamp>)
        ensures
            match r {
                Some(t) => parsed_timestamp(self.timestamp@, "%Y-%m-%d %H:%M:%S"@) == Some(
                    (t.day as int, t.seconds as int, t.nanos as int),
                ),
                None => parsed_timestamp(self.timestamp@, "%Y-%m-%d %H:%M:%S"@) is None,
            },
    {
        read_timestamp(self.timestamp.as_str())
    }
}

/// Reads a timestamp of the exports, written `%Y-%m-%d %H:%M:%S`; `None` where the
/// text does not read as one.
pub fn read_timestamp(text: &str) -> (r: Option<Timestamp>)
    ensures
        match r {
            Some(t) => parsed_timestamp(text@, "%Y-%m-%d %H:%M:%S"@) == Some(
                (t.day as int, t.seconds as int, t.nanos as int),
            ),
            None => parsed_timestamp(text@, "%Y-%m-%d %H:%M:%S"@) is None,
        },
{
    parse_timestamp(text, "%Y-%m-%d %H:%M:%S")
}

/// Records gathered for insertion, handed out in batches of `BATCH_AMOUNT`.
pub struct Batch<R> {
    items: Vec<R>,
}

impl<R> View for Batch<R> {
    type V = Seq<R>;

    closed spec fn view(&self) -> Seq<R> {
        self.items@
    }
}

impl<R> Batch<R> {
    /// No record gathered.
    pub fn new() -> (b: Self)
        ensures
            b@ == Seq::<R>::empty(),
    {
        Batch { items: Vec::new() }
    }

    /// Gathers `record`; where that fills the batch, hands out all gathered records, in
    /// the order gathered, and starts an empty batch.
    pub fn push(&mut self, record: R) -> (full: Option<Vec<R>>)
        requires
            old(self)@.len() < BATCH_AMOUNT,
        ensures
            final(self)@.len() < BATCH_AMOUNT,
            old(self)@.len() + 1 == BATCH_AMOUNT ==> {
                &&& (full matches Some(v) && v@ == old(self)@.push(record))
                &&& final(self)@ == Seq::<R>::empty()
            },
            old(self)@.len() + 1 < BATCH_AMOUNT ==> {
                &&& full is None
                &&& final(self)@ == old(self)@.push(record)
            },
    {
        self.items.push(record);
        if self.items.len() == BATCH_AMOUNT {
            let mut out: Vec<R> = Vec::new();
            std::mem::swap(&mut out, &mut self.items);
            Some(out)
        } else {
            None
        }
    }

    /// Hands out the records still gathered, if there are any.
    pub fn finish(self) -> (rest: Option<Vec<R>>)
        ensures
            self@.len() == 0 ==> rest is None,
            self@.len() > 0 ==> (rest matches Some(v) && v@ == self@),
    {
        if self.items.len() == 0 {
            None
        } else {
            Some(self.items)
        }
    }
}

/// A row of the map-info export: the size of a map and which tiles and items it has.
#[derive(Debug, Clone)]
pub struct MapInfo {
    pub map: String,
    pub width: i32,
    pub height: i32,
    pub death: bool,
    pub through: bool,
    pub jump: bool,
    pub dfreeze: bool,
    pub ehook_start: bool,
    pub hit_end: bool,
    pub solo_start: bool,
    pub tele_gun: bool,
    pub tele_grenade: bool,
    pub tele_laser: bool,
    pub npc_start: bool,
    pub super_start: bool,
    pub jetpack_start: bool,
    pub walljump: bool,
    pub nph_start: bool,
    pub weapon_shotgun: bool,
    pub weapon_grenade: bool,
    pub powerup_ninja: bool,
    pub weapon_rifle: bool,
    pub laser_stop: bool,
    pub crazy_shotgun: bool,
    pub dragger: bool,
    pub door: bool,
    pub switch_timed: bool,
    pub switch: bool,
    pub stop: bool,
    pub through_all: bool,
    pub tune: bool,
    pub oldlaser: bool,
    pub teleinevil: bool,
    pub telein: bool,
    pub telecheck: bool,
    pub teleinweapon: bool,
    pub teleinhook: bool,
    pub checkpoint_first: bool,
    pub bonus: bool,
    pub boost: bool,
    pub plasmaf: bool,
    pub plasmae: bool,
    pub plasmau: bool,
}

/// One line of a CSV diff between the export and the database's copy; `R` is how the
/// caller refers to a CSV record.
#[derive(Clone, Copy, Debug)]
pub enum DiffRecord<R> {
    /// A record only the export has.
    Add(R),
    /// A record whose key both have, with changed fields: the old one goes, the new one comes.
    Modify { delete: R, add: R },
    /// A record only the database has.
    Delete(R),
}

/// A record of a CSV file: its fields as bytes and the line it stands on.
#[derive(Debug, Clone)]
pub struct CsvRow {
    pub fields: Vec<Vec<u8>>,
    pub line: u64,
}

/// The fields and the line of a record.
pub open spec fn row_view(row: CsvRow) -> (Seq<Seq<u8>>, int) {
    (row.fields@.map_values(|f: Vec<u8>| f@), row.line as int)
}

/// The records the csv crate's default reader reads from `data` (the header line
/// skipped), in file order, each as its fields and the line it starts on; `None` where a
/// record does not read.
pub uninterp spec fn csv_records_of(data: Seq<u8>) -> Option<Seq<(Seq<Seq<u8>>, int)>>;

/// `row` is one of the records of the CSV data `data`, at its line.
pub open spec fn is_record_of(row: CsvRow, data: Seq<u8>) -> bool {
    csv_records_of(data) matches Some(records) && records.contains(row_view(row))
}

/// The line a diff line is sorted by: that of its record, or the smaller of the two
/// lines of a modified record.
pub open spec fn diff_line(d: DiffRecord<CsvRow>) -> int {
    match d {
        DiffRecord::Add(a) => a.line as int,
        DiffRecord::Delete(d) => d.line as int,
        DiffRecord::Modify { delete, add } => if delete.line <= add.line {
            delete.line as int
        } else {
            add.line as int
        },
    }
}

/// `diff` is a diff of the CSV data `left` against `right`: each deleted record is a
/// record of `left`, each added record one of `right`, the two records of a modified line
/// have different fields, and the lines come sorted by `diff_line`.
pub open spec fn is_diff_of(diff: Seq<DiffRecord<CsvRow>>, left: Seq<u8>, right: Seq<u8>) -> bool {
    &&& forall|i: int|
        0 <= i < diff.len() ==> match #[trigger] diff[i] {
            DiffRecord::Add(a) => is_record_of(a, right),
            DiffRecord::Delete(d) => is_record_of(d, left),
            DiffRecord::Modify { delete, add } => {
                &&& is_record_of(delete, left)
                &&& is_record_of(add, right)
                &&& row_view(delete).0 != row_view(add).0
            },
        }
    &&& forall|i: int, j: int| 0 <= i < j < diff.len() ==> diff_line(#[trigger] diff[i]) <= diff_line(#[trigger] diff[j])
}

/// Byte strings written back to back.
pub open spec fn joined(parts: Seq<Seq<u8>>) -> Seq<u8>
    decreases parts.len(),
{
    if parts.len() == 0 {
        seq![]
    } else {
        joined(parts.drop_last()) + parts.last()
    }
}

/// The fields of a record at the columns `order`, in that order; a column the record
/// lacks is passed over.
pub open spec fn key_fields(fields: Seq<Seq<u8>>, order: Seq<usize>) -> Seq<Seq<u8>>
    decreases order.len(),
{
    if order.len() == 0 {
        seq![]
    } else {
        let front = key_fields(fields, order.drop_last());
        if (order.last() as int) < fields.len() {
            front.push(fields[order.last() as int])
        } else {
            front
        }
    }
}

/// The XXH3 128-bit hash of `bytes`, as xxhash-rust's `xxh3_128` and its streaming
/// `Xxh3` hasher compute it.
pub uninterp spec fn xxh3_128_hash(bytes: Seq<u8>) -> int;

/// The hash csv-diff matches records by: that of the key fields, in the column order
/// `order`, written back to back.
pub open spec fn key_hash(record: (Seq<Seq<u8>>, int), order: Seq<usize>) -> int {
    xxh3_128_hash(joined(key_fields(record.0, order)))
}

/// The hash csv-diff compares matched records by: that of all fields written back to back.
pub open spec fn record_hash(record: (Seq<Seq<u8>>, int)) -> int {
    xxh3_128_hash(joined(record.0))
}

/// `order` lists each column of `keys` once.
pub open spec fn arranges(order: Seq<usize>, keys: Seq<usize>) -> bool {
    &&& order.no_duplicates()
    &&& forall|k: usize| order.contains(k) <==> keys.contains(k)
}

/// Every record has all columns of `keys`, and no two records share a key hash.
pub open spec fn keyed_apart(records: Seq<(Seq<Seq<u8>>, int)>, keys: Seq<usize>, order: Seq<usize>) -> bool {
    &&& forall|i: int, k: int|
        0 <= i < records.len() && 0 <= k < keys.len() ==> #[trigger] keys[k] < (#[trigger] records[i]).0.len()
    &&& forall|i: int, j: int|
        0 <= i < j < records.len() ==> key_hash(#[trigger] records[i], order) != key_hash(#[trigger] records[j], order)
}

/// Some record has the key hash `h`.
pub open spec fn has_key_hash(records: Seq<(Seq<Seq<u8>>, int)>, order: Seq<usize>, h: int) -> bool {
    exists|i: int| 0 <= i < records.len() && key_hash(#[trigger] records[i], order) == h
}

/// `diff` matches the records of `left` and `right` by their key hashes in the column
/// order `order`: the two records of a modified line share their key hash, and where
/// both sides read, every record has all key columns and no key hash repeats on a side,
/// the sides are `matched_sides`.
pub open spec fn matched_by(
    diff: Seq<DiffRecord<CsvRow>>,
    left: Seq<u8>,
    right: Seq<u8>,
    keys: Seq<usize>,
    order: Seq<usize>,
) -> bool {
    &&& forall|i: int|
        0 <= i < diff.len() ==> (#[trigger] diff[i] matches DiffRecord::Modify { delete, add }
            ==> key_hash(row_view(delete), order) == key_hash(row_view(add), order))
    &&& match (csv_records_of(left), csv_records_of(right)) {
        (Some(ls), Some(rs)) => keyed_apart(ls, keys, order) && keyed_apart(rs, keys, order) ==> matched_sides(
            diff,
            ls,
            rs,
            order,
        ),
        _ => true,
    }
}

/// Between the records `ls` on the left and `rs` on the right, none with a repeated key
/// hash: a record is reported added exactly when its key hash is not on the left, deleted
/// exactly when it is not on the right, and two records sharing a key hash but not their
/// record hash are reported as modified.
pub open spec fn matched_sides(
    diff: Seq<DiffRecord<CsvRow>>,
    ls: Seq<(Seq<Seq<u8>>, int)>,
    rs: Seq<(Seq<Seq<u8>>, int)>,
    order: Seq<usize>,
) -> bool {
    &&& forall|i: int|
        0 <= i < diff.len() ==> (#[trigger] diff[i] matches DiffRecord::Add(a)
            ==> !has_key_hash(ls, order, key_hash(row_view(a), order)))
    &&& forall|i: int|
        0 <= i < diff.len() ==> (#[trigger] diff[i] matches DiffRecord::Delete(d)
            ==> !has_key_hash(rs, order, key_hash(row_view(d), order)))
    &&& forall|j: int|
        0 <= j < rs.len() && !has_key_hash(ls, order, key_hash(#[trigger] rs[j], order)) ==> exists|i: int|
            0 <= i < diff.len() && (#[trigger] diff[i] matches DiffRecord::Add(a) && row_view(a) == rs[j])
    &&& forall|j: int|
        0 <= j < ls.len() && !has_key_hash(rs, order, key_hash(#[trigger] ls[j], order)) ==> exists|i: int|
            0 <= i < diff.len() && (#[trigger] diff[i] matches DiffRecord::Delete(d) && row_view(d) == ls[j])
    &&& forall|p: int, q: int|
        0 <= p < ls.len() && 0 <= q < rs.len() && key_hash(#[trigger] ls[p], order) == key_hash(#[trigger] rs[q], order)
            && record_hash(ls[p]) != record_hash(rs[q]) ==> exists|i: int|
            0 <= i < diff.len() && (#[trigger] diff[i] matches DiffRecord::Modify { delete, add }
                && row_view(delete) == ls[p] && row_view(add) == rs[q])
}

/// `diff` is a diff of `left` against `right` matched by the key columns `keys`, in the
/// column order csv-diff picked for this run.
pub open spec fn keyed_diff_of(diff: Seq<DiffRecord<CsvRow>>, left: Seq<u8>, right: Seq<u8>, keys: Seq<usize>) -> bool {
    &&& is_diff_of(diff, left, right)
    &&& exists|order: Seq<usize>| #[trigger] arranges(order, keys) && matched_by(diff, left, right, keys, order)
}

/// The csv crate's `Reader::from_reader` over the bytes, its `byte_records`, each taken
/// as its fields and the line of its `position`. Claimed: the result is the named
/// `csv_records_of` of the bytes; how the csv crate reads is left unsaid.
#[verifier::external_body]
pub(crate) fn read_csv_records(data: &[u8]) -> (r: Option<Vec<CsvRow>>)
    ensures
        match r {
            Some(rows) => csv_records_of(data@) == Some(rows@.map_values(|row: CsvRow| row_view(row))),
            None => csv_records_of(data@) is None,
        },
{
    let mut rows = Vec::new();
    for record in csv::Reader::from_reader(data).byte_records() {
        let record = record.ok()?;
        let line = record.position()?.line();
        rows.push(CsvRow { fields: record.iter().map(|f| f.to_vec()).collect(), line });
    }
    Some(rows)
}

/// csv-diff's `CsvByteDiffLocalBuilder` with `keys` as primary key columns, its `diff` of
/// `left` against `right`, and `DiffByteRecords::sort_by_line`; the changed-field indices
/// of a modified record are dropped. Claimed, from csv-diff's source: without key columns
/// no diff comes back (the builder refuses). A diff that comes back reports records as
/// the csv crate's default reader reads them from each side, re-read at their positions,
/// sorted by line (`is_diff_of`). Records are matched by the xxh3 hash of their key fields
/// written back to back, in the order in which csv-diff's `HashSet` of key columns lists
/// them (`matched_by` for some such order): the two records of a modified line share that
/// hash and differ in the hash of all their fields. Where each side has every key column
/// and no repeated key hash, a record is added or deleted exactly when its key hash is
/// missing on the other side, and matched records with different record hashes are
/// reported as modified. Left unsaid: what is reported where a side repeats a key hash (it
/// depends on the order in which csv-diff's two threads deliver their lines), and a
/// failure to start its thread pool, which also gives `None`.
#[verifier::external_body]
pub(crate) fn csv_byte_diff(left: &[u8], right: &[u8], keys: &Vec<usize>) -> (r: Option<Vec<DiffRecord<CsvRow>>>)
    ensures
        keys@.len() == 0 ==> r is None,
        r matches Some(v) ==> keyed_diff_of(v@, left@, right@, keys@),
        r matches Some(v) ==> forall|i: int|
            0 <= i < v@.len() ==> (#[trigger] v@[i] matches DiffRecord::Modify { delete, add }
                ==> xxh3_128_hash(joined(row_view(delete).0)) != xxh3_128_hash(joined(row_view(add).0))),
{
    let differ = CsvByteDiffLocalBuilder::new().primary_key_columns(keys.clone()).build().ok()?;
    let mut diff = differ.diff(Csv::with_reader_seek(left), Csv::with_reader_seek(right)).ok()?;
    diff.sort_by_line();
    let row = |r: &ByteRecordLineInfo| CsvRow { fields: r.byte_record().iter().map(|f| f.to_vec()).collect(), line: r.line() };
    Some(diff.as_slice().iter().map(|d| match d {
        DiffByteRecord::Add(a) => DiffRecord::Add(row(a)),
        DiffByteRecord::Modify { delete, add, .. } => DiffRecord::Modify { delete: row(delete), add: row(add) },
        DiffByteRecord::Delete(d) => DiffRecord::Delete(row(d)),
    }).collect())
}

/// The diff of the database's copy of an export (`target`, the left side) against the
/// export itself (`source`, the right side), its records matched by the export's key
/// columns (`key_columns`, never empty): what the synchronisation of `csv_type` works
/// through. `None` where either side does not read as CSV; csv-diff may also fail to
/// start its threads, so success is not promised.
pub fn create_diff(source: &[u8], target: &[u8], csv_type: Type) -> (r: Option<Vec<DiffRecord<CsvRow>>>)
    ensures
        csv_records_of(target@) is None || csv_records_of(source@) is None ==> r is None,
        r matches Some(v) ==> keyed_diff_of(v@, target@, source@, key_columns(csv_type)),
        r matches Some(v) ==> forall|i: int|
            0 <= i < v@.len() ==> (#[trigger] v@[i] matches DiffRecord::Modify { delete, add }
                ==> record_hash(row_view(delete)) != record_hash(row_view(add))),
{
    if read_csv_records(target).is_none() || read_csv_records(source).is_none() {
        return None;
    }
    let keys = csv_type.primary_key_columns();
    csv_byte_diff(target, source, &keys)
}

/// The records to delete, in diff order.
pub open spec fn deletes_of<R>(records: Seq<DiffRecord<R>>) -> Seq<R>
    decreases records.len(),
{
    if records.len() == 0 {
        seq![]
    } else {
        deletes_of(records.drop_last()) + match records.last() {
            DiffRecord::Add(_) => seq![],
            DiffRecord::Modify { delete, add: _ } => seq![delete],
            DiffRecord::Delete(d) => seq![d],
        }
    }
}

/// The records to insert, in diff order.
pub open spec fn adds_of<R>(records: Seq<DiffRecord<R>>) -> Seq<R>
    decreases records.len(),
{
    if records.len() == 0 {
        seq![]
    } else {
        adds_of(records.drop_last()) + match records.last() {
            DiffRecord::Add(a) => seq![a],
            DiffRecord::Modify { delete: _, add } => seq![add],
            DiffRecord::Delete(_) => seq![],
        }
    }
}

/// What a diff asks of the database: the deletes, run one by one first, then the adds,
/// inserted as one batch. The records are borrowed from the diff.
pub struct DiffPlan<'a, R> {
    pub deletes: Vec<&'a R>,
    pub adds: Vec<&'a R>,
}

/// The records that `refs` refers to.
pub open spec fn referred<R>(refs: Seq<&R>) -> Seq<R> {
    refs.map_values(|r: &R| *r)
}

/// Splits a diff into its deletes and its adds, each in diff order: an added record is
/// inserted, a deleted one deleted, and a modified one deleted and inserted anew.
pub fn plan_diff_records<'a, R>(records: &'a Vec<DiffRecord<R>>) -> (plan: DiffPlan<'a, R>)
    ensures
        referred(plan.deletes@) == deletes_of(records@),
        referred(plan.adds@) == adds_of(records@),
{
    let mut deletes: Vec<&'a R> = Vec::new();
    let mut adds: Vec<&'a R> = Vec::new();
    let mut i: usize = 0;
    while i < records.len()
        invariant
            i <= records@.len(),
            referred(deletes@) == deletes_of(records@.take(i as int)),
            referred(adds@) == adds_of(records@.take(i as int)),
        decreases records@.len() - i,
    {
        assert(records@.take(i + 1).drop_last() =~= records@.take(i as int));
        match &records[i] {
            DiffRecord::Add(a) => {
                adds.push(a);
            },
            DiffRecord::Modify { delete, add } => {
                deletes.push(delete);
                adds.push(add);
            },
            DiffRecord::Delete(d) => {
                deletes.push(d);
            },
        }
        i += 1;
        assert(referred(deletes@) =~= deletes_of(records@.take(i as int)));
        assert(referred(adds@) =~= adds_of(records@.take(i as int)));
    }
    assert(records@.take(i as int) =~= records@);
    DiffPlan { deletes, adds }
}

/// One statement of a synchronisation: the delete of one record, or the insert of a batch
/// of records.
pub enum SyncStep<'a, R> {
    Delete(&'a R),
    Insert(Vec<&'a R>),
}

/// The statements that bring the database in step with a diff, in the order they run:
/// one delete per record to delete, in diff order, and then one insert of all records to
/// insert, in diff order. Every delete runs before the insert.
pub fn sync_steps<'a, R>(records: &'a Vec<DiffRecord<R>>) -> (steps: Vec<SyncStep<'a, R>>)
    ensures
        steps@.len() == deletes_of(records@).len() + 1,
        forall|i: int|
            0 <= i < steps@.len() - 1 ==> (#[trigger] steps@[i] matches SyncStep::Delete(d) && *d
                == deletes_of(records@)[i]),
        steps@.last() matches SyncStep::Insert(adds) && referred(adds@) == adds_of(records@),
{
    let plan = plan_diff_records(records);
    let mut steps: Vec<SyncStep<'a, R>> = Vec::new();
    let mut i: usize = 0;
    while i < plan.deletes.len()
        invariant
            i <= plan.deletes@.len(),
            referred(plan.deletes@) == deletes_of(records@),
            steps@.len() == i,
            forall|j: int| 0 <= j < i ==> (#[trigger] steps@[j] matches SyncStep::Delete(d) && *d == deletes_of(records@)[j]),
        decreases plan.deletes@.len() - i,
    {
        assert(*plan.deletes@[i as int] == referred(plan.deletes@)[i as int]);
        steps.push(SyncStep::Delete(plan.deletes[i]));
        i += 1;
    }
    steps.push(SyncStep::Insert(plan.adds));
    steps
}

/// Every line of a diff is carried out: a deleted record is among the deletes, an added
/// one among the adds, and of a modified record the old version is among the deletes and
/// the new one among the adds, so that with `sync_steps` the old row goes before the new
/// one comes.
pub proof fn lemma_every_record_is_planned<R>(records: Seq<DiffRecord<R>>, k: int)
    requires
        0 <= k < records.len(),
    ensures
        records[k] matches DiffRecord::Modify { delete, add } ==> deletes_of(records).contains(delete)
            && adds_of(records).contains(add),
        records[k] matches DiffRecord::Delete(d) ==> deletes_of(records).contains(d),
        records[k] matches DiffRecord::Add(a) ==> adds_of(records).contains(a),
    decreases records.len(),
{
    let front = records.drop_last();
    if k < records.len() - 1 {
        lemma_every_record_is_planned(front, k);
        assert(front[k] == records[k]);
        let tail_d = match records.last() {
            DiffRecord::Add(_) => seq![],
            DiffRecord::Modify { delete, add: _ } => seq![delete],
            DiffRecord::Delete(d) => seq![d],
        };
        let tail_a = match records.last() {
            DiffRecord::Add(a) => seq![a],
            DiffRecord::Modify { delete: _, add } => seq![add],
            DiffRecord::Delete(_) => seq![],
        };
        assert(deletes_of(records) == deletes_of(front) + tail_d);
        assert(adds_of(records) == adds_of(front) + tail_a);
        match records[k] {
            DiffRecord::Modify { delete, add } => {
                let i = choose|i: int| 0 <= i < deletes_of(front).len() && deletes_of(front)[i] == delete;
                assert(deletes_of(records)[i] == delete);
                let j = choose|j: int| 0 <= j < adds_of(front).len() && adds_of(front)[j] == add;
                assert(adds_of(records)[j] == add);
            },
            DiffRecord::Delete(d) => {
                let i = choose|i: int| 0 <= i < deletes_of(front).len() && deletes_of(front)[i] == d;
                assert(deletes_of(records)[i] == d);
            },
            DiffRecord::Add(a) => {
                let j = choose|j: int| 0 <= j < adds_of(front).len() && adds_of(front)[j] == a;
                assert(adds_of(records)[j] == a);
            },
        }
    } else {
        let nd = deletes_of(front).len() as int;
        let na = adds_of(front).len() as int;
        match records[k] {
            DiffRecord::Modify { delete, add } => {
                assert(deletes_of(records)[nd] == delete);
                assert(adds_of(records)[na] == add);
            },
            DiffRecord::Delete(d) => {
                assert(deletes_of(records)[nd] == d);
            },
            DiffRecord::Add(a) => {
                assert(adds_of(records)[na] == a);
            },
        }
    }
}

} // verus!
