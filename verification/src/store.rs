//! The indexing pipeline against a SQLite database.
//!
//! `Store` runs the same pipeline that `Index` verifies in memory — intern the
//! utterance, check the stop set, intern each word, append one relation per
//! token — against a real database through a handful of trusted wrappers
//! around rusqlite. The database lives outside the program, so nothing can be
//! proved about what a query returns; what is verified here is the decision
//! logic around the calls, each decision a function of the outside results
//! with an exact contract: the stop verdict over the count read
//! (`stop_verdict`), the insert-then-fallback-lookup interning idiom
//! (`resolve_intern`), the surfacing of a failed relation write
//! (`append_result`), the per-token routing of the pipeline (`outcome_of`),
//! and an ingestion report that accounts for every token, so that no write
//! failure is lost.
//!
//! Interning relies on the uniqueness constraints of the schema: `INSERT OR
//! IGNORE` changes no row when the text already exists, rusqlite then reports
//! the insert as failed, and the pipeline falls back to a lookup. Under
//! concurrent writers of the same text, whichever insert lands first wins and
//! every other caller resolves to the winner's row, so no two ids are ever
//! issued for one text.
//!
//! An ingestion commits incrementally: the utterance row, then each token's
//! rows, each in its own implicit transaction, with no transaction spanning
//! the tables. A word or utterance row is always committed before any
//! relation row that references it, so a failure can strand an interned word
//! but never a dangling reference.

use vstd::prelude::*;

use crate::errors::IngestError;
use crate::msg::Message;

verus! {

#[verifier::external_type_specification]
#[verifier::external_body]
pub struct ExConnection(rusqlite::Connection);

#[verifier::external_type_specification]
#[verifier::external_body]
pub struct ExSqlError(rusqlite::Error);

/// Relies on rusqlite::Connection::open: opens, creating it if need be, the
/// database at `path`.
#[verifier::external_body]
fn connection_open(path: &str) -> Result<rusqlite::Connection, rusqlite::Error> {
    rusqlite::Connection::open(path)
}

/// Relies on rusqlite::Connection::execute_batch: runs each SQL statement of
/// `sql` in turn.
#[verifier::external_body]
fn exec_batch(conn: &rusqlite::Connection, sql: &str) -> Result<(), rusqlite::Error> {
    conn.execute_batch(sql)
}

/// Relies on rusqlite::Connection::prepare and rusqlite::Statement::insert:
/// `INSERT OR IGNORE` of one word row. `insert` returns the new row's id, and
/// `Err` when no row was inserted — so, the word table being unique, when the
/// word already has a row — or when the store failed.
#[verifier::external_body]
fn sql_insert_word(conn: &rusqlite::Connection, w: &str) -> Result<i64, rusqlite::Error> {
    let mut stmt = conn.prepare("INSERT OR IGNORE INTO word('word') VALUES (?1)")?;
    stmt.insert([w])
}

/// Relies on rusqlite::Connection::query_row: the id of the word row holding
/// `w`, or `Err` when there is none or the store failed.
#[verifier::external_body]
fn sql_select_word_id(conn: &rusqlite::Connection, w: &str) -> Result<i64, rusqlite::Error> {
    conn.query_row("SELECT id FROM word WHERE word = ?1", [w], |row| row.get(0))
}

/// Relies on rusqlite::Connection::prepare and rusqlite::Statement::insert:
/// `INSERT OR IGNORE` of one utterance row, as `sql_insert_word` for words.
#[verifier::external_body]
fn sql_insert_utterance(conn: &rusqlite::Connection, text: &str) -> Result<i64, rusqlite::Error> {
    let mut stmt = conn.prepare("INSERT OR IGNORE INTO messages('text') VALUES (?1)")?;
    stmt.insert([text])
}

/// Relies on rusqlite::Connection::query_row: the id of the utterance row
/// holding `text`, or `Err` when there is none or the store failed.
#[verifier::external_body]
fn sql_select_utterance_id(
    conn: &rusqlite::Connection,
    text: &str,
) -> Result<i64, rusqlite::Error> {
    conn.query_row("SELECT id FROM messages WHERE text = ?1", [text], |row| row.get(0))
}

/// Relies on rusqlite::Connection::query_row over `COUNT(*)`: how many stop
/// rows hold `w`. SQLite's COUNT is never negative.
#[verifier::external_body]
fn sql_count_stop_word(conn: &rusqlite::Connection, w: &str) -> (r: Result<
    i64,
    rusqlite::Error,
>)
    ensures
        match r {
            Ok(n) => n >= 0,
            Err(_) => true,
        },
{
    conn.query_row("SELECT COUNT(*) FROM stop_words WHERE word = ?1", [w], |row| row.get(0))
}

/// Relies on rusqlite::Connection::execute: `INSERT OR IGNORE` of one stop
/// row; returns how many rows were inserted.
#[verifier::external_body]
fn sql_insert_stop_word(conn: &rusqlite::Connection, w: &str) -> Result<usize, rusqlite::Error> {
    conn.execute("INSERT OR IGNORE INTO stop_words('word') VALUES (?1)", [w])
}

/// Relies on rusqlite::Connection::prepare and rusqlite::Statement::insert:
/// appends one relation row and returns its id.
#[verifier::external_body]
fn sql_insert_relation(
    conn: &rusqlite::Connection,
    word_id: i64,
    user_id: i64,
    conf_id: i64,
    msg_id: i64,
    date: i64,
) -> Result<i64, rusqlite::Error> {
    let mut stmt = conn.prepare(
        "INSERT INTO relations('word_id', 'user_id', 'conf_id', 'msg_id', 'date')
         VALUES (?1, ?2, ?3, ?4, ?5)",
    )?;
    stmt.insert([word_id, user_id, conf_id, msg_id, date])
}

/// The stop-set verdict over the result of the count read: a row count
/// decides membership, and a failed read is a storage error — never "not a
/// stop word", which would admit unchecked words into the lexicon.
pub fn stop_verdict(count: Result<i64, rusqlite::Error>) -> (r: Result<bool, IngestError>)
    ensures
        ({
            match count {
                Ok(n) => r == Ok::<bool, IngestError>(n > 0),
                Err(_) => r == Err::<bool, IngestError>(IngestError::Storage),
            }
        }),
{
    match count {
        Ok(n) => Ok(n > 0),
        Err(_) => Err(IngestError::Storage),
    }
}

/// The interning decision over the outside results: an insert that landed
/// answers with its own id; one that was turned away — as `INSERT OR IGNORE`
/// is on an existing row — falls back to the lookup's id. Only a double
/// failure is a storage error, so interning never fails merely because the
/// text already exists.
pub fn resolve_intern(
    ins: Result<i64, rusqlite::Error>,
    sel: Result<i64, rusqlite::Error>,
) -> (r: Result<i64, IngestError>)
    ensures
        ({
            match (ins, sel) {
                (Ok(id), _) => r == Ok::<i64, IngestError>(id),
                (Err(_), Ok(id)) => r == Ok::<i64, IngestError>(id),
                (Err(_), Err(_)) => r == Err::<i64, IngestError>(IngestError::Storage),
            }
        }),
{
    match ins {
        Ok(id) => Ok(id),
        Err(_) => match sel {
            Ok(id) => Ok(id),
            Err(_) => Err(IngestError::Storage),
        },
    }
}

/// The ledger decision over the result of the relation insert: the new row's
/// id, or the write failure surfaced as a storage error — never swallowed.
pub fn append_result(ins: Result<i64, rusqlite::Error>) -> (r: Result<i64, IngestError>)
    ensures
        ({
            match ins {
                Ok(id) => r == Ok::<i64, IngestError>(id),
                Err(_) => r == Err::<i64, IngestError>(IngestError::Storage),
            }
        }),
{
    match ins {
        Ok(id) => Ok(id),
        Err(_) => Err(IngestError::Storage),
    }
}

/// What the pipeline did with one token, in token order.
#[derive(Clone, Copy, Debug, PartialEq, Eq, Structural)]
pub enum TokenOutcome {
    /// The token was interned and one relation row was appended.
    Indexed { word_id: i64, relation_id: i64 },
    /// The token is in the stop-word set; nothing was written for it.
    Skipped,
    /// A store operation for this token failed; later tokens went on.
    Failed,
}

/// The per-token routing of the pipeline, over the results of its steps: a
/// failed stop-set read fails the token, never admits it; a stop word is
/// skipped; an admitted token's fate is its write's — the word and relation
/// ids, or a failure recorded in place. `wrote` is the result of interning
/// the token and appending its relation row, made only when the stop verdict
/// admitted the token.
pub fn outcome_of(
    stop: Result<bool, IngestError>,
    wrote: Option<Result<(i64, i64), IngestError>>,
) -> (o: TokenOutcome)
    ensures
        ({
            match (stop, wrote) {
                (Err(_), _) => o == TokenOutcome::Failed,
                (Ok(true), _) => o == TokenOutcome::Skipped,
                (Ok(false), Some(Ok(ids))) => o == (TokenOutcome::Indexed {
                    word_id: ids.0,
                    relation_id: ids.1,
                }),
                (Ok(false), _) => o == TokenOutcome::Failed,
            }
        }),
{
    match stop {
        Err(_) => TokenOutcome::Failed,
        Ok(true) => TokenOutcome::Skipped,
        Ok(false) => match wrote {
            Some(Ok(ids)) => TokenOutcome::Indexed { word_id: ids.0, relation_id: ids.1 },
            _ => TokenOutcome::Failed,
        },
    }
}

/// How many outcomes report a written relation row.
pub open spec fn indexed_count(os: Seq<TokenOutcome>) -> nat
    decreases os.len(),
{
    if os.len() == 0 {
        0
    } else {
        (if os[0] is Indexed {
            1nat
        } else {
            0nat
        }) + indexed_count(os.drop_first())
    }
}

/// The result of one ingestion: the utterance's identity and, for every token
/// in order, what became of it. A failed write is recorded in place, never
/// dropped.
pub struct IngestReport {
    pub utterance_id: i64,
    pub outcomes: Vec<TokenOutcome>,
}

impl IngestReport {
    /// How many relation rows this ingestion wrote.
    pub fn relations_written(&self) -> (count: usize)
        ensures
            count as nat == indexed_count(self.outcomes@),
    {
        let os = &self.outcomes;
        let mut count: usize = 0;
        let mut i: usize = 0;
        proof {
            assert(os@.skip(0) =~= os@);
        }
        while i < os.len()
            invariant
                i <= os@.len(),
                count <= i,
                indexed_count(os@) == count as nat + indexed_count(os@.skip(i as int)),
            decreases os@.len() - i,
        {
            proof {
                assert(os@.skip(i as int)[0] == os@[i as int]);
                assert(os@.skip(i as int).drop_first() =~= os@.skip(i as int + 1));
            }
            if matches!(os[i], TokenOutcome::Indexed { .. }) {
                count += 1;
            }
            i += 1;
        }
        proof {
            assert(os@.skip(os@.len() as int) =~= Seq::<TokenOutcome>::empty());
        }
        count
    }

    /// Whether every token was fully handled — indexed, or deliberately
    /// skipped as a stop word. `false` means at least one store operation
    /// failed and the index is missing rows for this message.
    pub fn complete(&self) -> (r: bool)
        ensures
            r == !self.outcomes@.contains(TokenOutcome::Failed),
    {
        let os = &self.outcomes;
        let mut i: usize = 0;
        while i < os.len()
            invariant
                i <= os@.len(),
                os@ == self.outcomes@,
                forall|j: int| 0 <= j < i ==> os@[j] != TokenOutcome::Failed,
            decreases os@.len() - i,
        {
            if matches!(os[i], TokenOutcome::Failed) {
                proof {
                    assert(os@[i as int] == TokenOutcome::Failed);
                    assert(os@.contains(TokenOutcome::Failed));
                }
                return false;
            }
            i += 1;
        }
        proof {
            assert(forall|j: int| 0 <= j < os@.len() ==> os@[j] != TokenOutcome::Failed);
        }
        true
    }
}

/// A handle on the persistent index: one open connection to the database that
/// holds the four tables.
pub struct Store {
    conn: rusqlite::Connection,
}

impl Store {
    /// A store over an already open connection.
    pub fn new(conn: rusqlite::Connection) -> Store {
        Store { conn }
    }

    /// Open the database at `path`, creating the file if it is absent.
    pub fn open(path: &str) -> Result<Store, IngestError> {
        match connection_open(path) {
            Ok(conn) => Ok(Store { conn }),
            Err(_) => Err(IngestError::Storage),
        }
    }

    /// The underlying connection, for callers that administer or inspect the
    /// database themselves.
    pub fn connection(&self) -> &rusqlite::Connection {
        &self.conn
    }

    /// Create the four tables of the core if they do not exist: the lexicon
    /// and the utterance table, each with a uniqueness constraint on its text
    /// — the constraint the interning idiom relies on —, the append-only
    /// relation ledger, and the stop-word set.
    pub fn update_scheme(&self) -> Result<(), IngestError> {
        let sql = "
            CREATE TABLE IF NOT EXISTS word (
                id   INTEGER PRIMARY KEY AUTOINCREMENT,
                word TEXT    UNIQUE
            );
            CREATE TABLE IF NOT EXISTS messages (
                id   INTEGER PRIMARY KEY AUTOINCREMENT,
                text TEXT    UNIQUE
            );
            CREATE TABLE IF NOT EXISTS relations (
                id      INTEGER PRIMARY KEY AUTOINCREMENT,
                word_id INTEGER NOT NULL,
                user_id INTEGER NOT NULL,
                conf_id INTEGER NOT NULL,
                date    INTEGER NOT NULL,
                msg_id  INTEGER,
                FOREIGN KEY (word_id) REFERENCES word (id),
                FOREIGN KEY (msg_id)  REFERENCES messages (id)
            );
            CREATE TABLE IF NOT EXISTS stop_words (
                word TEXT PRIMARY KEY
            );
        ";
        match exec_batch(&self.conn, sql) {
            Ok(_) => Ok(()),
            Err(_) => Err(IngestError::Storage),
        }
    }

    /// Put `w` into the stop-word set; already present is not an error.
    pub fn add_stop_word(&self, w: &str) -> Result<(), IngestError> {
        match sql_insert_stop_word(&self.conn, w) {
            Ok(_) => Ok(()),
            Err(_) => Err(IngestError::Storage),
        }
    }

    /// Whether `w` is administratively excluded from indexing. A failing read
    /// of the stop set is an error, never "not a stop word": masking it would
    /// admit unchecked words into the lexicon.
    pub fn is_stop_word(&self, w: &str) -> Result<bool, IngestError> {
        stop_verdict(sql_count_stop_word(&self.conn, w))
    }

    /// Intern a normalized word: attempt the insert, and when the uniqueness
    /// constraint turned it away, fall back to looking the existing row up.
    /// Never fails merely because the word already exists; fails only when the
    /// store itself does.
    pub fn intern_word(&self, w: &str) -> Result<i64, IngestError> {
        let ins = sql_insert_word(&self.conn, w);
        let sel = match &ins {
            // The insert landed, so no lookup is made; its slot carries the
            // insert's own id, which `resolve_intern` then answers with.
            Ok(id) => Ok(*id),
            Err(_) => sql_select_word_id(&self.conn, w),
        };
        resolve_intern(ins, sel)
    }

    /// Intern a raw message text, with the same insert-then-fallback-lookup
    /// idiom as `intern_word`, against the utterance table.
    pub fn intern_utterance(&self, text: &str) -> Result<i64, IngestError> {
        let ins = sql_insert_utterance(&self.conn, text);
        let sel = match &ins {
            // As in `intern_word`: a landed insert answers for itself.
            Ok(id) => Ok(*id),
            Err(_) => sql_select_utterance_id(&self.conn, text),
        };
        resolve_intern(ins, sel)
    }

    /// Append one relation row; always inserts, never deduplicates.
    pub fn append_relation(
        &self,
        word_id: i64,
        author_id: i64,
        chat_id: i64,
        utterance_id: i64,
        date: i64,
    ) -> Result<i64, IngestError> {
        append_result(sql_insert_relation(&self.conn, word_id, author_id, chat_id, utterance_id, date))
    }

    /// Write one admitted token: intern it and append its relation row,
    /// handing back the word and relation ids, or the first storage failure.
    fn write_token(&self, w: &str, msg: &Message, utterance_id: i64) -> Result<
        (i64, i64),
        IngestError,
    > {
        match self.intern_word(w) {
            Ok(word_id) => {
                match self.append_relation(
                    word_id,
                    msg.author_id,
                    msg.chat_id,
                    utterance_id,
                    msg.date,
                ) {
                    Ok(relation_id) => Ok((word_id, relation_id)),
                    Err(e) => Err(e),
                }
            },
            Err(e) => Err(e),
        }
    }

    /// Ingest one message: intern its raw text, then handle every token in
    /// order — skip stop words, intern the rest and append one relation each.
    /// Fails as a whole only when the utterance cannot be interned; any
    /// per-token failure is recorded in that token's outcome and the remaining
    /// tokens are still processed, so the report accounts for every token and
    /// no write failure is silently lost.
    pub fn ingest(&self, msg: &Message, tokens: &Vec<String>) -> (r: Result<IngestReport, IngestError>)
        ensures
            match r {
                Ok(rep) => rep.outcomes@.len() == tokens@.len(),
                Err(e) => e == IngestError::Storage,
            },
    {
        let utterance_id = match self.intern_utterance(msg.text.as_str()) {
            Ok(id) => id,
            Err(e) => {
                return Err(e);
            },
        };
        let mut outcomes: Vec<TokenOutcome> = Vec::new();
        let mut i: usize = 0;
        while i < tokens.len()
            invariant
                i <= tokens@.len(),
                outcomes@.len() == i as nat,
            decreases tokens@.len() - i,
        {
            let w = tokens[i].as_str();
            let stop = self.is_stop_word(w);
            let wrote = match &stop {
                Ok(false) => Some(self.write_token(w, msg, utterance_id)),
                _ => None,
            };
            outcomes.push(outcome_of(stop, wrote));
            i += 1;
        }
        Ok(IngestReport { utterance_id, outcomes })
    }
}

} // verus!
