use vstd::prelude::*;

use rusqlite::Connection;
use rusqlite::OptionalExtension;

use crate::error::FeatureFlagError;
use crate::value::{decode, envelope, is_envelope, FlagDataType, FlagDataView};

verus! {

#[verifier::external_type_specification]
#[verifier::external_body]
pub struct ExConnection(rusqlite::Connection);

/// The rows of the `flags` table that a connection reaches: each flag's name
/// mapped to its id and its stored value text.
pub uninterp spec fn stored_flags(c: Connection) -> Map<Seq<char>, (int, Seq<char>)>;

/// A stored flag, as read back from the table.
#[derive(Debug)]
pub struct FlagWithID {
    pub id: i32,
    pub name: String,
    pub value: String,
}

/// A flag as a caller submits it, with the credential that gates writes.
#[derive(Debug)]
pub struct Flag {
    pub name: String,
    pub value: FlagDataType,
    pub key: String,
}

/// A new value for a flag, with the credential that gates writes.
#[derive(Debug)]
pub struct FlagValue {
    pub value: FlagDataType,
    pub key: String,
}

/// The credential alone.
#[derive(Debug)]
pub struct KeyOnly {
    pub key: String,
}

/// A table without rows.
pub open spec fn empty_table() -> Map<Seq<char>, (int, Seq<char>)> {
    Map::empty()
}

/// `f` is a row of `table`.
pub open spec fn holds_row(table: Map<Seq<char>, (int, Seq<char>)>, f: FlagWithID) -> bool {
    table.contains_key(f.name@) && table[f.name@] == (f.id as int, f.value@)
}

/// `rows` lists the rows of `table`, each once.
pub open spec fn lists_table(table: Map<Seq<char>, (int, Seq<char>)>, rows: Seq<FlagWithID>) -> bool {
    &&& rows.len() == table.len()
    &&& forall|i: int| 0 <= i < rows.len() ==> holds_row(table, #[trigger] rows[i])
    &&& forall|i: int, j: int|
        0 <= i < j < rows.len() ==> #[trigger] rows[i].name@ != #[trigger] rows[j].name@
}

/// No row of `table` has the id `id`.
pub open spec fn fresh_id(table: Map<Seq<char>, (int, Seq<char>)>, id: int) -> bool {
    forall|k: Seq<char>| #[trigger] table.contains_key(k) ==> table[k].0 != id
}

/// Every id of `table` is below the largest 64-bit integer.
pub open spec fn ids_below_max(table: Map<Seq<char>, (int, Seq<char>)>) -> bool {
    forall|k: Seq<char>| #[trigger] table.contains_key(k) ==> table[k].0 < 9223372036854775807
}

/// `id` is the id SQLite gives a new row of `table`: 1 when the table is
/// empty, else one more than the largest id.
pub open spec fn next_id(table: Map<Seq<char>, (int, Seq<char>)>, id: int) -> bool {
    if table.dom() == Set::<Seq<char>>::empty() {
        id == 1
    } else {
        &&& exists|k: Seq<char>| #[trigger] table.contains_key(k) && table[k].0 + 1 == id
        &&& forall|k: Seq<char>| #[trigger] table.contains_key(k) ==> table[k].0 < id
    }
}

/// `after` is `before` with a new row for `name`, under an id no row had:
/// the next id, unless some id already is the largest 64-bit integer.
pub open spec fn added(
    before: Map<Seq<char>, (int, Seq<char>)>,
    after: Map<Seq<char>, (int, Seq<char>)>,
    name: Seq<char>,
    value: Seq<char>,
) -> bool {
    &&& !before.contains_key(name)
    &&& exists|id: int|
        fresh_id(before, id) && (ids_below_max(before) ==> next_id(before, id)) && after
            == before.insert(name, (id, value))
}

/// `after` is `before` with the value of the existing row for `name` replaced.
pub open spec fn updated(
    before: Map<Seq<char>, (int, Seq<char>)>,
    after: Map<Seq<char>, (int, Seq<char>)>,
    name: Seq<char>,
    value: Seq<char>,
) -> bool {
    &&& before.contains_key(name)
    &&& after == before.insert(name, (before[name].0, value))
}

/// Why an insert was refused.
enum InsertFault {
    NameTaken,
    Engine(rusqlite::Error),
}

/// Relies on Connection::execute_batch running the statements that drop the
/// `flags` table and create it afresh: on success the table is empty.
#[verifier::external_body]
fn reset_table(c: &mut Connection) -> (r: Result<(), rusqlite::Error>)
    ensures
        r is Ok ==> stored_flags(*final(c)) == empty_table(),
{
    c.execute_batch(
        "DROP TABLE IF EXISTS flags;
        CREATE TABLE flags (
            id    INTEGER UNIQUE,
            name  TEXT NOT NULL UNIQUE,
            value TEXT NOT NULL,
            PRIMARY KEY(id)
        );",
    )
}

/// Relies on Connection::query_row with OptionalExtension::optional, selecting
/// the row whose name equals `name`: `None` when there is none.
#[verifier::external_body]
fn select_flag(c: &Connection, name: &str) -> (r: Result<Option<FlagWithID>, rusqlite::Error>)
    ensures
        r matches Ok(Some(f)) ==> f.name@ == name@ && holds_row(stored_flags(*c), f),
        r matches Ok(None) ==> !stored_flags(*c).contains_key(name@),
{
    c.query_row(
        "SELECT id, name, value FROM flags WHERE name = ?1",
        (name,),
        |row| Ok((row.get(0)?, row.get(1)?, row.get(2)?)),
    ).optional().map(|o| o.map(|(id, name, value)| FlagWithID { id, name, value }))
}

/// Relies on Connection::prepare and Statement::query_map over the whole
/// table: every row comes out once.
#[verifier::external_body]
fn select_all(c: &Connection) -> (r: Result<Vec<FlagWithID>, rusqlite::Error>)
    ensures
        r matches Ok(v) ==> lists_table(stored_flags(*c), v@),
{
    let mut stmt = c.prepare("SELECT id, name, value FROM flags")?;
    let rows = stmt.query_map((), |row| Ok((row.get(0)?, row.get(1)?, row.get(2)?)))?;
    rows.map(|x| x.map(|(id, name, value)| FlagWithID { id, name, value })).collect()
}

/// Relies on Connection::execute inserting a row under the table's UNIQUE
/// constraint on `name`: a taken name is refused with a constraint violation,
/// and a refused statement writes nothing. `id` is the table's INTEGER PRIMARY
/// KEY, so SQLite gives the new row one more than the largest id, or 1 in an
/// empty table.
#[verifier::external_body]
fn insert_row(c: &mut Connection, name: &str, value: &str) -> (r: Result<usize, InsertFault>)
    ensures
        r matches Ok(n) ==> n == 1 && added(stored_flags(*old(c)), stored_flags(*final(c)), name@, value@),
        r is Err ==> stored_flags(*final(c)) == stored_flags(*old(c)),
        r matches Err(InsertFault::NameTaken) ==> stored_flags(*old(c)).contains_key(name@),
        stored_flags(*old(c)).contains_key(name@) ==> r is Err,
{
    match c.execute("INSERT INTO flags (name, value) VALUES (?1, ?2)", (name, value)) {
        Ok(n) => Ok(n),
        Err(e) if e.sqlite_error_code() == Some(rusqlite::ErrorCode::ConstraintViolation) => Err(InsertFault::NameTaken),
        Err(e) => Err(InsertFault::Engine(e)),
    }
}

/// Relies on Connection::execute overwriting the value of the row named
/// `name`, if there is one; a failed statement writes nothing.
#[verifier::external_body]
fn update_row(c: &mut Connection, name: &str, value: &str) -> (r: Result<usize, rusqlite::Error>)
    ensures
        r matches Ok(n) ==> if stored_flags(*old(c)).contains_key(name@) {
            n == 1 && updated(stored_flags(*old(c)), stored_flags(*final(c)), name@, value@)
        } else {
            n == 0 && stored_flags(*final(c)) == stored_flags(*old(c))
        },
        r is Err ==> stored_flags(*final(c)) == stored_flags(*old(c)),
{
    c.execute("UPDATE flags SET value = ?1 WHERE name = ?2", (value, name))
}

/// Relies on Connection::execute removing the row named `name`, if there is
/// one; a failed statement writes nothing.
#[verifier::external_body]
fn delete_row(c: &mut Connection, name: &str) -> (r: Result<usize, rusqlite::Error>)
    ensures
        r matches Ok(n) ==> n == (if stored_flags(*old(c)).contains_key(name@) {
            1usize
        } else {
            0usize
        }) && stored_flags(*final(c)) == stored_flags(*old(c)).remove(name@),
        r is Err ==> stored_flags(*final(c)) == stored_flags(*old(c)),
{
    c.execute("DELETE FROM flags WHERE name = ?1", (name,))
}

/// Drops the `flags` table and creates it empty. Meant for start-up and test
/// set-up only: every stored flag is lost.
pub fn initialize_db(conn: &mut Connection) -> (r: Result<(), FeatureFlagError>)
    ensures
        r is Ok ==> stored_flags(*final(conn)) == empty_table(),
        r is Err ==> r->Err_0 is StorageError,
{
    match reset_table(conn) {
        Ok(()) => Ok(()),
        Err(e) => Err(FeatureFlagError::StorageError(e)),
    }
}

/// The flag named `name`. `NotFound` exactly when the table has no such row,
/// short of a storage failure.
pub fn get_flag_by_name(conn: &Connection, name: String) -> (r: Result<FlagWithID, FeatureFlagError>)
    ensures
        r matches Ok(f) ==> f.name@ == name@ && holds_row(stored_flags(*conn), f),
        r matches Err(FeatureFlagError::NotFound) ==> !stored_flags(*conn).contains_key(name@),
        r is Err ==> r->Err_0 is NotFound || r->Err_0 is StorageError,
{
    match select_flag(conn, name.as_str()) {
        Ok(Some(f)) => Ok(f),
        Ok(None) => Err(FeatureFlagError::NotFound),
        Err(e) => Err(FeatureFlagError::StorageError(e)),
    }
}

/// Every stored flag, each once, in no promised order.
pub fn get_all_flags(conn: &Connection) -> (r: Result<Vec<FlagWithID>, FeatureFlagError>)
    ensures
        r matches Ok(v) ==> lists_table(stored_flags(*conn), v@),
        r is Err ==> r->Err_0 is StorageError,
{
    match select_all(conn) {
        Ok(v) => Ok(v),
        Err(e) => Err(FeatureFlagError::StorageError(e)),
    }
}

/// Removes the flag named `name`; reports how many rows went (0 when there
/// was no such flag, which is no error).
pub fn delete_flag_by_name(conn: &mut Connection, name: String) -> (r: Result<usize, FeatureFlagError>)
    ensures
        r matches Ok(n) ==> n == (if stored_flags(*old(conn)).contains_key(name@) {
            1usize
        } else {
            0usize
        }) && stored_flags(*final(conn)) == stored_flags(*old(conn)).remove(name@),
        r is Err ==> r->Err_0 is StorageError && stored_flags(*final(conn)) == stored_flags(*old(conn)),
{
    match delete_row(conn, name.as_str()) {
        Ok(n) => Ok(n),
        Err(e) => Err(FeatureFlagError::StorageError(e)),
    }
}

/// What the lookup before an update decides: go on to the write when the flag
/// exists, `NotFound` when it does not, and a storage failure as it came.
pub fn check_exists(found: Result<Option<FlagWithID>, rusqlite::Error>) -> (r: Result<(), FeatureFlagError>)
    ensures
        found matches Ok(Some(_)) ==> r is Ok,
        found matches Ok(None) ==> r matches Err(FeatureFlagError::NotFound),
        found is Err ==> r matches Err(FeatureFlagError::StorageError(_)),
{
    match found {
        Ok(Some(_)) => Ok(()),
        Ok(None) => Err(FeatureFlagError::NotFound),
        Err(e) => Err(FeatureFlagError::StorageError(e)),
    }
}

/// Stores a new flag under a fresh id. A taken name is never overwritten: the
/// call fails and the table stays as it was.
pub fn add_flag(conn: &mut Connection, name: String, value: String) -> (r: Result<usize, FeatureFlagError>)
    ensures
        r matches Ok(n) ==> n == 1 && added(stored_flags(*old(conn)), stored_flags(*final(conn)), name@, value@),
        r is Err ==> stored_flags(*final(conn)) == stored_flags(*old(conn)),
        r is Err ==> r->Err_0 is DecodeError || r->Err_0 is Conflict || r->Err_0 is StorageError,
        r matches Err(FeatureFlagError::DecodeError) <==> !is_envelope(value@),
        r matches Err(FeatureFlagError::Conflict) ==> stored_flags(*old(conn)).contains_key(name@),
        stored_flags(*old(conn)).contains_key(name@) ==> r is Err,
{
    if let Err(e) = decode(value.as_str()) {
        return Err(e);
    }
    match insert_row(conn, name.as_str(), value.as_str()) {
        Ok(n) => Ok(n),
        Err(InsertFault::NameTaken) => Err(FeatureFlagError::Conflict),
        Err(InsertFault::Engine(e)) => Err(FeatureFlagError::StorageError(e)),
    }
}

/// Replaces the value of the existing flag named `name`, keeping its id and
/// name. A value that is no envelope gives `DecodeError`; a missing flag is
/// reported as `NotFound`; in both cases nothing is written.
pub fn update_flag(conn: &mut Connection, name: String, value: String) -> (r: Result<usize, FeatureFlagError>)
    ensures
        r matches Ok(n) ==> n == 1 && updated(stored_flags(*old(conn)), stored_flags(*final(conn)), name@, value@),
        r is Err ==> stored_flags(*final(conn)) == stored_flags(*old(conn)),
        r is Err ==> r->Err_0 is DecodeError || r->Err_0 is NotFound || r->Err_0 is StorageError,
        r matches Err(FeatureFlagError::DecodeError) <==> !is_envelope(value@),
        r matches Err(FeatureFlagError::NotFound) ==> !stored_flags(*old(conn)).contains_key(name@),
        !stored_flags(*old(conn)).contains_key(name@) ==> r is Err,
{
    if let Err(e) = decode(value.as_str()) {
        return Err(e);
    }
    if let Err(e) = check_exists(select_flag(conn, name.as_str())) {
        return Err(e);
    }
    match update_row(conn, name.as_str(), value.as_str()) {
        Ok(n) => Ok(n),
        Err(e) => Err(FeatureFlagError::StorageError(e)),
    }
}

/// A flag read back after `add_flag` stored it holds exactly the value text
/// it was added with, so that the value it was encoded from decodes back out.
pub proof fn lemma_added_then_read(
    before: Map<Seq<char>, (int, Seq<char>)>,
    after: Map<Seq<char>, (int, Seq<char>)>,
    v: FlagDataView,
    f: FlagWithID,
)
    requires
        added(before, after, f.name@, envelope(v)),
        holds_row(after, f),
    ensures
        f.value@ == envelope(v),
        fresh_id(before, f.id as int),
{
}

/// The first flag added to an empty table gets id 1, and is then its only row.
pub proof fn lemma_first_id(
    after: Map<Seq<char>, (int, Seq<char>)>,
    name: Seq<char>,
    value: Seq<char>,
)
    requires
        added(empty_table(), after, name, value),
    ensures
        after == empty_table().insert(name, (1int, value)),
{
    assert(empty_table().dom() =~= Set::<Seq<char>>::empty());
}

/// An update changes the value of its row alone: the row keeps its id and
/// name, every other row stays, and a later read sees the new value.
pub proof fn lemma_update_changes_only_value(
    before: Map<Seq<char>, (int, Seq<char>)>,
    after: Map<Seq<char>, (int, Seq<char>)>,
    name: Seq<char>,
    value: Seq<char>,
    f: FlagWithID,
)
    requires
        updated(before, after, name, value),
        f.name@ == name,
        holds_row(after, f),
    ensures
        f.value@ == value,
        f.id as int == before[name].0,
        after.dom() == before.dom(),
        forall|k: Seq<char>| #[trigger] before.contains_key(k) && k != name ==> after[k] == before[k],
{
    assert(after.dom() =~= before.dom());
}

/// After a delete of `name`, no row has that name, so a read of it cannot
/// succeed; a delete of an absent name leaves the table as it was.
pub proof fn lemma_deleted_then_missing(
    before: Map<Seq<char>, (int, Seq<char>)>,
    after: Map<Seq<char>, (int, Seq<char>)>,
    name: Seq<char>,
)
    requires
        after == before.remove(name),
    ensures
        !after.contains_key(name),
        !before.contains_key(name) ==> after == before,
{
    if !before.contains_key(name) {
        assert(after =~= before);
    }
}

/// Starting from an empty table, a run of successful adds leaves exactly as
/// many rows as there were adds (their names are then distinct), so
/// `get_all_flags` lists that many flags, none twice.
pub proof fn lemma_adds_count(
    tables: Seq<Map<Seq<char>, (int, Seq<char>)>>,
    names: Seq<Seq<char>>,
    values: Seq<Seq<char>>,
)
    requires
        tables.len() == names.len() + 1,
        values.len() == names.len(),
        tables[0] == empty_table(),
        forall|i: int|
            0 <= i < names.len() ==> added(#[trigger] tables[i], tables[i + 1], names[i], values[i]),
    ensures
        tables.last().dom().finite(),
        tables.last().len() == names.len(),
        forall|i: int, j: int| 0 <= i < j < names.len() ==> names[i] != names[j],
    decreases names.len(),
{
    let n = names.len();
    if n == 0 {
        assert(tables.last().dom() =~= Set::empty());
    } else {
        let m = (n - 1) as int;
        lemma_adds_count(tables.drop_last(), names.drop_last(), values.drop_last());
        assert(tables.drop_last().last() == tables[m]);
        assert(added(tables[m], tables[m + 1], names[m], values[m]));
        assert forall|i: int, j: int| 0 <= i < j < n implies names[i] != names[j] by {
            if j < m {
                assert(names.drop_last()[i] != names.drop_last()[j]);
            } else {
                lemma_added_keeps(tables, names, values, i, m);
            }
        }
    }
}

/// A name added at step `i` is still present at every later step.
proof fn lemma_added_keeps(
    tables: Seq<Map<Seq<char>, (int, Seq<char>)>>,
    names: Seq<Seq<char>>,
    values: Seq<Seq<char>>,
    i: int,
    k: int,
)
    requires
        tables.len() == names.len() + 1,
        values.len() == names.len(),
        forall|j: int|
            0 <= j < names.len() ==> added(#[trigger] tables[j], tables[j + 1], names[j], values[j]),
        0 <= i < k <= names.len(),
    ensures
        tables[k].contains_key(names[i]),
    decreases k - i,
{
    assert(added(tables[k - 1], tables[k], names[k - 1], values[k - 1]));
    if k - 1 > i {
        lemma_added_keeps(tables, names, values, i, k - 1);
    }
}

} // verus!
