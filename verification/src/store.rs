//! Persistent store: SQLite tables for files, chunks and vectors.
//!
//! Every SQL statement sits in one trusted wrapper with a contract over
//! three mathematical views of the database, all keyed by the tenant
//! triple `(channel, user_id, path)`:
//!
//! - [`file_rows`]: the recorded content digest per indexed file,
//! - [`chunk_rows`]: the file's chunks `(content, start_line, end_line)`
//!   in `chunk_index` order,
//! - [`vector_rows`]: the file's embedding blobs in the same order.
//!
//! All logic over these rows lives in verified code elsewhere. The
//! wrapper contracts describe databases this library maintains through
//! these wrappers (contiguous chunk indices, vectors a prefix of
//! chunks, one row per key); of a database file edited by other
//! software they promise nothing beyond what each statement touches.

use vstd::prelude::*;

use rusqlite::OptionalExtension;

use crate::errors::MemoryError;

verus! {

#[verifier::external_type_specification]
#[verifier::external_body]
pub struct ExConnection(rusqlite::Connection);

/// The recorded digest of each indexed file.
pub uninterp spec fn file_rows(db: rusqlite::Connection) -> Map<
    (Seq<char>, Seq<char>, Seq<char>),
    Seq<char>,
>;

/// Each indexed file's chunks, in chunk order.
pub uninterp spec fn chunk_rows(db: rusqlite::Connection) -> Map<
    (Seq<char>, Seq<char>, Seq<char>),
    Seq<(Seq<char>, int, int)>,
>;

/// Each indexed file's embedding blobs, in chunk order.
pub uninterp spec fn vector_rows(db: rusqlite::Connection) -> Map<
    (Seq<char>, Seq<char>, Seq<char>),
    Seq<Seq<u8>>,
>;

/// The sequence stored under a key, or empty when the key is absent.
pub open spec fn rows_or_empty<T>(
    m: Map<(Seq<char>, Seq<char>, Seq<char>), Seq<T>>,
    k: (Seq<char>, Seq<char>, Seq<char>),
) -> Seq<T> {
    if m.contains_key(k) {
        m[k]
    } else {
        Seq::<T>::empty()
    }
}

/// A chunk/vector pair of a tenant's file, as search reads them back.
pub struct StoredRow {
    pub path: String,
    pub content: String,
    pub embedding: Vec<u8>,
}

impl View for StoredRow {
    type V = (Seq<char>, Seq<char>, Seq<u8>);

    open spec fn view(&self) -> (Seq<char>, Seq<char>, Seq<u8>) {
        (self.path@, self.content@, self.embedding@)
    }
}

/// Chunk `j` of file `p` of the tenant exists together with its vector.
pub open spec fn pair_in_store(
    db: rusqlite::Connection,
    ch: Seq<char>,
    u: Seq<char>,
    p: Seq<char>,
    j: int,
) -> bool {
    let k = (ch, u, p);
    chunk_rows(db).contains_key(k) && vector_rows(db).contains_key(k) && 0 <= j < chunk_rows(
        db,
    )[k].len() && j < vector_rows(db)[k].len()
}

/// Relies on `rusqlite::Connection::open`: opens (or creates) the
/// database file at the given path. Nothing is known of its contents;
/// every failure surfaces as the store being unavailable.
#[verifier::external_body]
pub(crate) fn open_connection(path: &str) -> (r: Result<rusqlite::Connection, MemoryError>)
    ensures
        r is Err ==> r->Err_0 is StoreUnavailable,
{
    rusqlite::Connection::open(path).map_err(|e| MemoryError::StoreUnavailable(format!("{}", e)))
}

/// The database holds no rows for any key at all.
pub open spec fn stores_nothing(db: rusqlite::Connection) -> bool {
    &&& forall|k: (Seq<char>, Seq<char>, Seq<char>)| !(#[trigger] file_rows(db).contains_key(k))
    &&& forall|k: (Seq<char>, Seq<char>, Seq<char>)| !(#[trigger] chunk_rows(db).contains_key(k))
    &&& forall|k: (Seq<char>, Seq<char>, Seq<char>)| !(#[trigger] vector_rows(db).contains_key(k))
}

/// Relies on `rusqlite::Connection::open_in_memory`: a fresh in-memory
/// database holds no rows at all.
#[verifier::external_body]
pub(crate) fn open_memory_connection() -> (r: Result<rusqlite::Connection, MemoryError>)
    ensures
        r is Ok ==> stores_nothing(r->Ok_0),
        r is Err ==> r->Err_0 is StoreUnavailable,
{
    rusqlite::Connection::open_in_memory().map_err(
        |e| MemoryError::StoreUnavailable(format!("{}", e)),
    )
}

/// Relies on `rusqlite::Connection::execute_batch` with `CREATE TABLE IF
/// NOT EXISTS` statements: table creation adds, changes and removes no
/// rows.
#[verifier::external_body]
pub(crate) fn create_schema(db: &mut rusqlite::Connection) -> (r: Result<(), MemoryError>)
    ensures
        file_rows(*final(db)) == file_rows(*old(db)),
        chunk_rows(*final(db)) == chunk_rows(*old(db)),
        vector_rows(*final(db)) == vector_rows(*old(db)),
        r is Err ==> r->Err_0 is StoreUnavailable,
{
    db.execute_batch(
        "CREATE TABLE IF NOT EXISTS memory_files (
            id INTEGER PRIMARY KEY,
            channel TEXT NOT NULL,
            user_id TEXT NOT NULL,
            path TEXT NOT NULL,
            hash TEXT NOT NULL,
            updated_at INTEGER NOT NULL,
            UNIQUE(channel, user_id, path)
        );
        CREATE TABLE IF NOT EXISTS memory_chunks (
            id INTEGER PRIMARY KEY,
            file_id INTEGER NOT NULL REFERENCES memory_files(id) ON DELETE CASCADE,
            chunk_index INTEGER NOT NULL,
            content TEXT NOT NULL,
            start_line INTEGER NOT NULL,
            end_line INTEGER NOT NULL,
            UNIQUE(file_id, chunk_index)
        );
        CREATE TABLE IF NOT EXISTS memory_vectors (
            chunk_id INTEGER PRIMARY KEY REFERENCES memory_chunks(id) ON DELETE CASCADE,
            embedding BLOB NOT NULL
        );",
    ).map_err(|e| MemoryError::StoreUnavailable(format!("{}", e)))
}

/// Relies on `rusqlite::Connection::query_row` with `.optional()` on a
/// `SELECT hash` by the unique key `(channel, user_id, path)`: returns
/// the recorded digest exactly when the file row exists.
#[verifier::external_body]
pub(crate) fn query_file_hash(
    db: &rusqlite::Connection,
    channel: &str,
    user_id: &str,
    path: &str,
) -> (r: Result<Option<String>, MemoryError>)
    ensures
        r is Ok ==> {
            let k = (channel@, user_id@, path@);
            &&& file_rows(*db).contains_key(k) ==> (r->Ok_0 matches Some(h) && h@ == file_rows(
                *db,
            )[k])
            &&& !file_rows(*db).contains_key(k) ==> r->Ok_0 is None
        },
{
    db.query_row(
        "SELECT hash FROM memory_files WHERE channel = ?1 AND user_id = ?2 AND path = ?3",
        (channel, user_id, path),
        |row| row.get(0),
    ).optional().map_err(|e| MemoryError::StoreUnavailable(format!("{}", e)))
}

/// Relies on `rusqlite::Connection::execute` with a `DELETE` over the
/// vectors of one file: exactly that file's vector rows disappear; a
/// single SQL statement leaves the other tables untouched.
#[verifier::external_body]
pub(crate) fn delete_file_vectors(
    db: &mut rusqlite::Connection,
    channel: &str,
    user_id: &str,
    path: &str,
) -> (r: Result<(), MemoryError>)
    ensures
        file_rows(*final(db)).remove((channel@, user_id@, path@)) == file_rows(
            *old(db),
        ).remove((channel@, user_id@, path@)),
        chunk_rows(*final(db)).remove((channel@, user_id@, path@)) == chunk_rows(
            *old(db),
        ).remove((channel@, user_id@, path@)),
        vector_rows(*final(db)).remove((channel@, user_id@, path@)) == vector_rows(
            *old(db),
        ).remove((channel@, user_id@, path@)),
        r is Ok ==> vector_rows(*final(db)) == vector_rows(*old(db)).remove(
            (channel@, user_id@, path@),
        ),
        r is Ok ==> file_rows(*final(db)) == file_rows(*old(db)) && chunk_rows(*final(db))
            == chunk_rows(*old(db)),
{
    db.execute(
        "DELETE FROM memory_vectors WHERE chunk_id IN (
            SELECT c.id FROM memory_chunks c
            JOIN memory_files f ON c.file_id = f.id
            WHERE f.channel = ?1 AND f.user_id = ?2 AND f.path = ?3
        )",
        (channel, user_id, path),
    ).map(|_| ()).map_err(|e| MemoryError::StoreUnavailable(format!("{}", e)))
}

/// Relies on `rusqlite::Connection::execute` with a `DELETE` over the
/// chunks of one file: exactly that file's chunk rows disappear. The
/// file's vectors are keyed through its chunks, so the caller deletes
/// them first; only then does removing the chunks leave the vector view
/// unchanged.
#[verifier::external_body]
pub(crate) fn delete_file_chunks(
    db: &mut rusqlite::Connection,
    channel: &str,
    user_id: &str,
    path: &str,
) -> (r: Result<(), MemoryError>)
    requires
        !vector_rows(*old(db)).contains_key((channel@, user_id@, path@)),
    ensures
        file_rows(*final(db)).remove((channel@, user_id@, path@)) == file_rows(
            *old(db),
        ).remove((channel@, user_id@, path@)),
        chunk_rows(*final(db)).remove((channel@, user_id@, path@)) == chunk_rows(
            *old(db),
        ).remove((channel@, user_id@, path@)),
        vector_rows(*final(db)).remove((channel@, user_id@, path@)) == vector_rows(
            *old(db),
        ).remove((channel@, user_id@, path@)),
        r is Ok ==> chunk_rows(*final(db)) == chunk_rows(*old(db)).remove(
            (channel@, user_id@, path@),
        ),
        r is Ok ==> file_rows(*final(db)) == file_rows(*old(db)) && vector_rows(*final(db))
            == vector_rows(*old(db)),
{
    db.execute(
        "DELETE FROM memory_chunks WHERE file_id IN (
            SELECT id FROM memory_files
            WHERE channel = ?1 AND user_id = ?2 AND path = ?3
        )",
        (channel, user_id, path),
    ).map(|_| ()).map_err(|e| MemoryError::StoreUnavailable(format!("{}", e)))
}

/// Relies on `rusqlite::Connection::execute` with a `DELETE` of one file
/// row by its unique key: exactly that key disappears. The file's chunk
/// and vector views are keyed through this row, so the caller empties
/// them first; only then does removing the row leave those views
/// unchanged.
#[verifier::external_body]
pub(crate) fn delete_file_row(
    db: &mut rusqlite::Connection,
    channel: &str,
    user_id: &str,
    path: &str,
) -> (r: Result<(), MemoryError>)
    requires
        !chunk_rows(*old(db)).contains_key((channel@, user_id@, path@)),
        !vector_rows(*old(db)).contains_key((channel@, user_id@, path@)),
    ensures
        file_rows(*final(db)).remove((channel@, user_id@, path@)) == file_rows(
            *old(db),
        ).remove((channel@, user_id@, path@)),
        chunk_rows(*final(db)).remove((channel@, user_id@, path@)) == chunk_rows(
            *old(db),
        ).remove((channel@, user_id@, path@)),
        vector_rows(*final(db)).remove((channel@, user_id@, path@)) == vector_rows(
            *old(db),
        ).remove((channel@, user_id@, path@)),
        r is Ok ==> file_rows(*final(db)) == file_rows(*old(db)).remove(
            (channel@, user_id@, path@),
        ),
        r is Ok ==> chunk_rows(*final(db)) == chunk_rows(*old(db)) && vector_rows(*final(db))
            == vector_rows(*old(db)),
{
    db.execute(
        "DELETE FROM memory_files WHERE channel = ?1 AND user_id = ?2 AND path = ?3",
        (channel, user_id, path),
    ).map(|_| ()).map_err(|e| MemoryError::StoreUnavailable(format!("{}", e)))
}

/// Relies on `rusqlite::Connection::execute` with an `INSERT` of one file
/// row; the caller avoids the `UNIQUE(channel, user_id, path)` conflict
/// by inserting only an absent key.
#[verifier::external_body]
pub(crate) fn insert_file_row(
    db: &mut rusqlite::Connection,
    channel: &str,
    user_id: &str,
    path: &str,
    hash: &str,
    updated_at: i64,
) -> (r: Result<(), MemoryError>)
    requires
        !file_rows(*old(db)).contains_key((channel@, user_id@, path@)),
    ensures
        file_rows(*final(db)).remove((channel@, user_id@, path@)) == file_rows(
            *old(db),
        ).remove((channel@, user_id@, path@)),
        chunk_rows(*final(db)).remove((channel@, user_id@, path@)) == chunk_rows(
            *old(db),
        ).remove((channel@, user_id@, path@)),
        vector_rows(*final(db)).remove((channel@, user_id@, path@)) == vector_rows(
            *old(db),
        ).remove((channel@, user_id@, path@)),
        r is Ok ==> file_rows(*final(db)) == file_rows(*old(db)).insert(
            (channel@, user_id@, path@),
            hash@,
        ),
        r is Ok ==> chunk_rows(*final(db)) == chunk_rows(*old(db)) && vector_rows(*final(db))
            == vector_rows(*old(db)),
{
    db.execute(
        "INSERT INTO memory_files (channel, user_id, path, hash, updated_at)
         VALUES (?1, ?2, ?3, ?4, ?5)",
        (channel, user_id, path, hash, updated_at),
    ).map(|_| ()).map_err(|e| MemoryError::StoreUnavailable(format!("{}", e)))
}

/// Relies on `rusqlite::Connection::execute` with an `INSERT ... SELECT`
/// that resolves the file id by the unique key and appends the chunk at
/// the next `chunk_index`, so the file's chunk sequence grows by exactly
/// this row.
#[verifier::external_body]
pub(crate) fn insert_chunk_row(
    db: &mut rusqlite::Connection,
    channel: &str,
    user_id: &str,
    path: &str,
    chunk_index: usize,
    content: &str,
    start_line: usize,
    end_line: usize,
) -> (r: Result<(), MemoryError>)
    requires
        file_rows(*old(db)).contains_key((channel@, user_id@, path@)),
        chunk_index == rows_or_empty(chunk_rows(*old(db)), (channel@, user_id@, path@)).len(),
    ensures
        file_rows(*final(db)).remove((channel@, user_id@, path@)) == file_rows(
            *old(db),
        ).remove((channel@, user_id@, path@)),
        chunk_rows(*final(db)).remove((channel@, user_id@, path@)) == chunk_rows(
            *old(db),
        ).remove((channel@, user_id@, path@)),
        vector_rows(*final(db)).remove((channel@, user_id@, path@)) == vector_rows(
            *old(db),
        ).remove((channel@, user_id@, path@)),
        r is Ok ==> {
            let k = (channel@, user_id@, path@);
            chunk_rows(*final(db)) == chunk_rows(*old(db)).insert(
                k,
                rows_or_empty(chunk_rows(*old(db)), k).push(
                    (content@, start_line as int, end_line as int),
                ),
            )
        },
        r is Ok ==> file_rows(*final(db)) == file_rows(*old(db)) && vector_rows(*final(db))
            == vector_rows(*old(db)),
{
    db.execute(
        "INSERT INTO memory_chunks (file_id, chunk_index, content, start_line, end_line)
         SELECT id, ?4, ?5, ?6, ?7 FROM memory_files
         WHERE channel = ?1 AND user_id = ?2 AND path = ?3",
        (
            channel,
            user_id,
            path,
            chunk_index as i64,
            content,
            start_line as i64,
            end_line as i64,
        ),
    ).map(|_| ()).map_err(|e| MemoryError::StoreUnavailable(format!("{}", e)))
}

/// Relies on `rusqlite::Connection::execute` with an `INSERT ... SELECT`
/// that resolves the chunk id by key and `chunk_index` and stores its
/// embedding blob, appending to the file's vector sequence.
#[verifier::external_body]
pub(crate) fn insert_vector_row(
    db: &mut rusqlite::Connection,
    channel: &str,
    user_id: &str,
    path: &str,
    chunk_index: usize,
    embedding: &Vec<u8>,
) -> (r: Result<(), MemoryError>)
    requires
        chunk_index < rows_or_empty(chunk_rows(*old(db)), (channel@, user_id@, path@)).len(),
        chunk_index == rows_or_empty(vector_rows(*old(db)), (channel@, user_id@, path@)).len(),
    ensures
        file_rows(*final(db)).remove((channel@, user_id@, path@)) == file_rows(
            *old(db),
        ).remove((channel@, user_id@, path@)),
        chunk_rows(*final(db)).remove((channel@, user_id@, path@)) == chunk_rows(
            *old(db),
        ).remove((channel@, user_id@, path@)),
        vector_rows(*final(db)).remove((channel@, user_id@, path@)) == vector_rows(
            *old(db),
        ).remove((channel@, user_id@, path@)),
        r is Ok ==> {
            let k = (channel@, user_id@, path@);
            vector_rows(*final(db)) == vector_rows(*old(db)).insert(
                k,
                rows_or_empty(vector_rows(*old(db)), k).push(embedding@),
            )
        },
        r is Ok ==> file_rows(*final(db)) == file_rows(*old(db)) && chunk_rows(*final(db))
            == chunk_rows(*old(db)),
{
    db.execute(
        "INSERT INTO memory_vectors (chunk_id, embedding)
         SELECT c.id, ?5 FROM memory_chunks c
         JOIN memory_files f ON c.file_id = f.id
         WHERE f.channel = ?1 AND f.user_id = ?2 AND f.path = ?3 AND c.chunk_index = ?4",
        (channel, user_id, path, chunk_index as i64, embedding.as_slice()),
    ).map(|_| ()).map_err(|e| MemoryError::StoreUnavailable(format!("{}", e)))
}

/// This row is one of the tenant's chunk/vector pairs, with its path.
pub open spec fn row_in_store(
    db: rusqlite::Connection,
    ch: Seq<char>,
    u: Seq<char>,
    row: StoredRow,
) -> bool {
    exists|p: Seq<char>, j: int|
        #[trigger] pair_in_store(db, ch, u, p, j) && row@ == (
            p,
            chunk_rows(db)[(ch, u, p)][j].0,
            vector_rows(db)[(ch, u, p)][j],
        )
}

/// Every row is one of the tenant's chunk/vector pairs, with its path.
pub open spec fn rows_sound(
    db: rusqlite::Connection,
    ch: Seq<char>,
    u: Seq<char>,
    rows: Seq<StoredRow>,
) -> bool {
    forall|i: int| 0 <= i < rows.len() ==> #[trigger] row_in_store(db, ch, u, rows[i])
}

/// Chunk `j` of the tenant's file `p` appears among the rows.
pub open spec fn pair_listed(
    db: rusqlite::Connection,
    ch: Seq<char>,
    u: Seq<char>,
    rows: Seq<StoredRow>,
    p: Seq<char>,
    j: int,
) -> bool {
    exists|i: int|
        #![trigger rows[i]]
        0 <= i < rows.len() && rows[i]@ == (
            p,
            chunk_rows(db)[(ch, u, p)][j].0,
            vector_rows(db)[(ch, u, p)][j],
        )
}

/// Every chunk/vector pair of the tenant appears among the rows.
pub open spec fn rows_complete(
    db: rusqlite::Connection,
    ch: Seq<char>,
    u: Seq<char>,
    rows: Seq<StoredRow>,
) -> bool {
    forall|p: Seq<char>, j: int|
        #[trigger] pair_in_store(db, ch, u, p, j) ==> pair_listed(db, ch, u, rows, p, j)
}

/// The rows are exactly the tenant's chunk/vector pairs: each row is
/// one pair with its file path, and each pair appears among the rows.
pub open spec fn tenant_rows_ok(
    db: rusqlite::Connection,
    ch: Seq<char>,
    u: Seq<char>,
    rows: Seq<StoredRow>,
) -> bool {
    rows_sound(db, ch, u, rows) && rows_complete(db, ch, u, rows)
}

/// Relies on `rusqlite::Statement::query_map` over the join of files,
/// chunks and vectors restricted to one tenant: the result holds exactly
/// the tenant's chunk/vector pairs, each with its file path.
#[verifier::external_body]
pub(crate) fn query_tenant_rows(
    db: &rusqlite::Connection,
    channel: &str,
    user_id: &str,
) -> (r: Result<Vec<StoredRow>, MemoryError>)
    ensures
        r is Ok ==> tenant_rows_ok(*db, channel@, user_id@, r->Ok_0@),
{
    let res: Result<Vec<StoredRow>, rusqlite::Error> = (|| {
        let mut stmt = db.prepare(
            "SELECT f.path, c.content, v.embedding FROM memory_vectors v
             JOIN memory_chunks c ON v.chunk_id = c.id
             JOIN memory_files f ON c.file_id = f.id
             WHERE f.channel = ?1 AND f.user_id = ?2",
        )?;
        let rows = stmt.query_map((channel, user_id), |row| {
            Ok(StoredRow { path: row.get(0)?, content: row.get(1)?, embedding: row.get(2)? })
        })?;
        rows.collect()
    })();
    res.map_err(|e| MemoryError::StoreUnavailable(format!("{}", e)))
}

/// Relies on `rusqlite::Statement::query_map` over a `SELECT path` for
/// one tenant: the result holds exactly the tenant's indexed paths,
/// each once — `(channel, user_id, path)` is the table's unique key, so
/// within one tenant each matching row has a distinct path.
#[verifier::external_body]
pub(crate) fn query_tenant_paths(
    db: &rusqlite::Connection,
    channel: &str,
    user_id: &str,
) -> (r: Result<Vec<String>, MemoryError>)
    ensures
        r is Ok ==> {
            let paths = r->Ok_0@;
            &&& forall|i: int|
                0 <= i < paths.len() ==> file_rows(*db).contains_key(
                    (channel@, user_id@, #[trigger] paths[i]@),
                )
            &&& forall|p: Seq<char>|
                file_rows(*db).contains_key((channel@, user_id@, p)) ==> exists|i: int|
                    0 <= i < paths.len() && #[trigger] paths[i]@ == p
            &&& forall|i: int, j: int|
                #![trigger paths[i], paths[j]]
                0 <= i < j < paths.len() ==> paths[i]@ != paths[j]@
        },
{
    let res: Result<Vec<String>, rusqlite::Error> = (|| {
        let mut stmt = db.prepare(
            "SELECT path FROM memory_files WHERE channel = ?1 AND user_id = ?2",
        )?;
        let rows = stmt.query_map((channel, user_id), |row| row.get(0))?;
        rows.collect()
    })();
    res.map_err(|e| MemoryError::StoreUnavailable(format!("{}", e)))
}

/// Relies on `std::time::SystemTime::now`: seconds since the Unix epoch,
/// used only to stamp file rows.
#[verifier::external_body]
pub(crate) fn now_unix_secs() -> i64 {
    std::time::SystemTime::now().duration_since(std::time::SystemTime::UNIX_EPOCH).map(
        |d| d.as_secs() as i64,
    ).unwrap_or(0)
}

} // verus!
