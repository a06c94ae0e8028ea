use rusqlite::Connection;
use word_index::errors::IngestError;
use word_index::msg::Message;
use word_index::store::Store;
use word_index::store::TokenOutcome;

fn msg(author_id: i64, chat_id: i64, text: &str, date: i64) -> Message {
    Message { author_id, chat_id, text: text.to_string(), date }
}

fn toks(ws: &[&str]) -> Vec<String> {
    let mut v = Vec::new();
    for w in ws {
        v.push(w.to_string());
    }
    v
}

fn fresh_store() -> Store {
    let conn = Connection::open_in_memory().unwrap();
    let store = Store::new(conn);
    store.update_scheme().unwrap();
    store
}

fn count_rows(store: &Store, sql: &str) -> i64 {
    store.connection().query_row(sql, [], |row| row.get(0)).unwrap()
}

#[test]
fn store_intern_word_twice_one_row() {
    let store = fresh_store();
    let a = store.intern_word("hello").unwrap();
    let b = store.intern_word("hello").unwrap();
    assert_eq!(a, b);
    assert_eq!(count_rows(&store, "SELECT COUNT(*) FROM word"), 1);
}

#[test]
fn store_intern_utterance_twice_one_row() {
    let store = fresh_store();
    let a = store.intern_utterance("what a day").unwrap();
    let b = store.intern_utterance("what a day").unwrap();
    assert_eq!(a, b);
    assert_eq!(count_rows(&store, "SELECT COUNT(*) FROM messages"), 1);
}

#[test]
fn store_stop_word_never_indexed() {
    let store = fresh_store();
    store.add_stop_word("the").unwrap();
    assert_eq!(store.is_stop_word("the"), Ok(true));
    assert_eq!(store.is_stop_word("cat"), Ok(false));
    let rep = store.ingest(&msg(7, 9, "the cat", 1000), &toks(&["the", "cat"])).unwrap();
    assert_eq!(rep.outcomes.len(), 2);
    assert_eq!(rep.outcomes[0], TokenOutcome::Skipped);
    assert!(matches!(rep.outcomes[1], TokenOutcome::Indexed { .. }));
    assert_eq!(rep.relations_written(), 1);
    assert!(rep.complete());
    assert_eq!(count_rows(&store, "SELECT COUNT(*) FROM word WHERE word = 'the'"), 0);
    assert_eq!(count_rows(&store, "SELECT COUNT(*) FROM word"), 1);
    assert_eq!(count_rows(&store, "SELECT COUNT(*) FROM relations"), 1);
}

#[test]
fn store_repeated_token_message() {
    let store = fresh_store();
    let rep = store.ingest(&msg(1, 2, "red blue red", 50), &toks(&["red", "blue", "red"])).unwrap();
    assert_eq!(rep.relations_written(), 3);
    assert_eq!(count_rows(&store, "SELECT COUNT(*) FROM relations"), 3);
    assert_eq!(count_rows(&store, "SELECT COUNT(*) FROM word"), 2);
    assert_eq!(count_rows(&store, "SELECT COUNT(*) FROM messages"), 1);
    assert_eq!(count_rows(&store, "SELECT COUNT(DISTINCT msg_id) FROM relations"), 1);
}

#[test]
fn store_empty_token_list_still_succeeds() {
    let store = fresh_store();
    let rep = store.ingest(&msg(1, 2, "???", 10), &toks(&[])).unwrap();
    assert_eq!(rep.outcomes.len(), 0);
    assert_eq!(rep.relations_written(), 0);
    assert_eq!(count_rows(&store, "SELECT COUNT(*) FROM messages"), 1);
    assert_eq!(count_rows(&store, "SELECT COUNT(*) FROM relations"), 0);
}

#[test]
fn store_fifty_ingests_one_word_row() {
    let store = fresh_store();
    for i in 0..50i64 {
        let text = format!("hello number {}", i);
        let rep = store.ingest(&msg(i, 100, &text, 2000 + i), &toks(&["hello"])).unwrap();
        assert_eq!(rep.relations_written(), 1);
    }
    assert_eq!(count_rows(&store, "SELECT COUNT(*) FROM word WHERE word = 'hello'"), 1);
    assert_eq!(count_rows(&store, "SELECT COUNT(*) FROM word"), 1);
    assert_eq!(count_rows(&store, "SELECT COUNT(*) FROM relations"), 50);
    assert_eq!(
        count_rows(
            &store,
            "SELECT COUNT(*) FROM relations r JOIN word w ON w.id = r.word_id \
             WHERE w.word = 'hello'",
        ),
        50,
    );
}

#[test]
fn store_relation_failure_is_reported() {
    let store = fresh_store();
    store.connection().execute_batch("DROP TABLE relations").unwrap();
    let rep = store.ingest(&msg(3, 4, "boom", 77), &toks(&["boom"])).unwrap();
    assert_eq!(rep.outcomes.len(), 1);
    assert_eq!(rep.outcomes[0], TokenOutcome::Failed);
    assert_eq!(rep.relations_written(), 0);
    assert!(!rep.complete());
    assert_eq!(count_rows(&store, "SELECT COUNT(*) FROM messages"), 1);
}

#[test]
fn store_failure_of_one_token_reported_per_token() {
    let store = fresh_store();
    store.connection().execute_batch("DROP TABLE relations").unwrap();
    let rep = store.ingest(&msg(3, 4, "a b", 77), &toks(&["a", "b"])).unwrap();
    assert_eq!(rep.outcomes.len(), 2);
    assert_eq!(rep.outcomes[0], TokenOutcome::Failed);
    assert_eq!(rep.outcomes[1], TokenOutcome::Failed);
    assert_eq!(count_rows(&store, "SELECT COUNT(*) FROM word"), 2);
}

#[test]
fn store_errors_surface_as_storage() {
    let store = fresh_store();
    store.connection().execute_batch("DROP TABLE word").unwrap();
    assert_eq!(store.intern_word("hello"), Err(IngestError::Storage));
    store.connection().execute_batch("DROP TABLE stop_words").unwrap();
    assert_eq!(store.is_stop_word("hello"), Err(IngestError::Storage));
    store.connection().execute_batch("DROP TABLE messages").unwrap();
    assert_eq!(
        store.ingest(&msg(1, 1, "x", 1), &toks(&["x"])).map(|_| ()),
        Err(IngestError::Storage),
    );
}

#[test]
fn store_same_word_twice_two_relations() {
    let store = fresh_store();
    store.ingest(&msg(1, 2, "dog!", 1), &toks(&["dog"])).unwrap();
    store.ingest(&msg(1, 2, "dog?", 2), &toks(&["dog"])).unwrap();
    assert_eq!(count_rows(&store, "SELECT COUNT(*) FROM word"), 1);
    assert_eq!(count_rows(&store, "SELECT COUNT(*) FROM relations"), 2);
    assert_eq!(count_rows(&store, "SELECT COUNT(*) FROM messages"), 2);
}

#[test]
fn store_relation_carries_message_fields() {
    let store = fresh_store();
    store.ingest(&msg(42, 77, "hi", 123456), &toks(&["hi"])).unwrap();
    let (user_id, conf_id, date): (i64, i64, i64) = store
        .connection()
        .query_row("SELECT user_id, conf_id, date FROM relations", [], |row| {
            Ok((row.get(0)?, row.get(1)?, row.get(2)?))
        })
        .unwrap();
    assert_eq!(user_id, 42);
    assert_eq!(conf_id, 77);
    assert_eq!(date, 123456);
}
