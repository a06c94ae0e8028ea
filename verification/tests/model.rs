use word_index::index::Index;
use word_index::msg::Message;

fn msg(author_id: i64, chat_id: i64, text: &str, date: i64) -> Message {
    Message { author_id, chat_id, text: text.to_string(), date }
}

fn toks(ws: &[&str]) -> Vec<String> {
    let mut v = Vec::new();
    for w in ws {
        v.push(w.to_string());
    }
    v
}

#[test]
fn intern_word_twice_same_id() {
    let mut ix = Index::new();
    let a = ix.intern_word(&"hello".to_string());
    let b = ix.intern_word(&"hello".to_string());
    assert_eq!(a, b);
    assert_eq!(ix.word_count(), 1);
    assert_eq!(ix.word_at(a).as_str(), "hello");
}

#[test]
fn intern_many_callers_one_row() {
    let mut ix = Index::new();
    let first = ix.intern_word(&"hello".to_string());
    for _ in 0..49 {
        assert_eq!(ix.intern_word(&"hello".to_string()), first);
    }
    assert_eq!(ix.word_count(), 1);
}

#[test]
fn intern_utterance_twice_same_id() {
    let mut ix = Index::new();
    let a = ix.intern_utterance(&"what a day".to_string());
    let b = ix.intern_utterance(&"what a day".to_string());
    assert_eq!(a, b);
    assert_eq!(ix.utterance_count(), 1);
}

#[test]
fn distinct_words_distinct_ids() {
    let mut ix = Index::new();
    let a = ix.intern_word(&"red".to_string());
    let b = ix.intern_word(&"blue".to_string());
    assert_ne!(a, b);
    assert_eq!(ix.word_count(), 2);
}

#[test]
fn stop_word_never_indexed() {
    let mut ix = Index::new();
    ix.add_stop_word("the".to_string());
    assert!(ix.is_stop_word(&"the".to_string()));
    assert!(!ix.is_stop_word(&"cat".to_string()));
    let count = ix.ingest(&msg(7, 9, "the cat", 1000), &toks(&["the", "cat"]));
    assert_eq!(count, 1);
    assert_eq!(ix.word_count(), 1);
    assert_eq!(ix.word_at(0).as_str(), "cat");
    assert_eq!(ix.relation_count(), 1);
    assert_eq!(ix.relation_at(0).word_id, 0);
}

#[test]
fn repeated_token_message() {
    let mut ix = Index::new();
    let count = ix.ingest(&msg(1, 2, "red blue red", 50), &toks(&["red", "blue", "red"]));
    assert_eq!(count, 3);
    assert_eq!(ix.relation_count(), 3);
    assert_eq!(ix.word_count(), 2);
    assert_eq!(ix.utterance_count(), 1);
    let utt = ix.relation_at(0).utterance_id;
    assert_eq!(ix.relation_at(1).utterance_id, utt);
    assert_eq!(ix.relation_at(2).utterance_id, utt);
    assert_eq!(ix.relation_at(0).word_id, ix.relation_at(2).word_id);
    assert_ne!(ix.relation_at(0).word_id, ix.relation_at(1).word_id);
}

#[test]
fn empty_token_list_still_succeeds() {
    let mut ix = Index::new();
    let count = ix.ingest(&msg(1, 2, "???", 10), &toks(&[]));
    assert_eq!(count, 0);
    assert_eq!(ix.utterance_count(), 1);
    assert_eq!(ix.relation_count(), 0);
    assert_eq!(ix.word_count(), 0);
}

#[test]
fn fifty_ingests_one_word_row() {
    let mut ix = Index::new();
    for i in 0..50i64 {
        let text = format!("hello number {}", i);
        let count = ix.ingest(&msg(i, 100, &text, 2000 + i), &toks(&["hello"]));
        assert_eq!(count, 1);
    }
    assert_eq!(ix.word_count(), 1);
    assert_eq!(ix.word_at(0).as_str(), "hello");
    assert_eq!(ix.relation_count(), 50);
    for k in 0..50 {
        assert_eq!(ix.relation_at(k).word_id, 0);
    }
    assert_eq!(ix.utterance_count(), 50);
}

#[test]
fn same_word_twice_two_relations() {
    let mut ix = Index::new();
    ix.ingest(&msg(1, 2, "dog!", 1), &toks(&["dog"]));
    ix.ingest(&msg(1, 2, "dog?", 2), &toks(&["dog"]));
    assert_eq!(ix.word_count(), 1);
    assert_eq!(ix.relation_count(), 2);
    assert_eq!(ix.utterance_count(), 2);
}

#[test]
fn relation_carries_message_fields() {
    let mut ix = Index::new();
    ix.ingest(&msg(42, 77, "hi", 123456), &toks(&["hi"]));
    let r = ix.relation_at(0);
    assert_eq!(r.author_id, 42);
    assert_eq!(r.chat_id, 77);
    assert_eq!(r.date, 123456);
    assert_eq!(r.utterance_id, 0);
    assert_eq!(r.word_id, 0);
}
