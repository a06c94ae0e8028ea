//! The global properties of the indexing model, each proved against the spec
//! functions that the contracts of `Index` speak of.

use vstd::prelude::*;

use crate::index::distinct;
use crate::index::first_index_of;
use crate::index::intern_id;
use crate::index::interned;
use crate::index::ingested;
use crate::index::lemma_first_index_at;
use crate::index::lemma_intern_props;
use crate::index::token_step;
use crate::index::tokens_ingested;
use crate::index::IndexModel;
use crate::index::RelModel;
use crate::msg::MsgModel;

verus! {

/// How many rows of `ws` hold the text `w`.
pub open spec fn occurrences(ws: Seq<Seq<char>>, w: Seq<char>) -> nat
    decreases ws.len(),
{
    if ws.len() == 0 {
        0
    } else {
        (if ws[0] == w {
            1nat
        } else {
            0nat
        }) + occurrences(ws.drop_first(), w)
    }
}

/// A table without a row for `w` holds zero rows for it.
pub proof fn lemma_occurrences_absent(ws: Seq<Seq<char>>, w: Seq<char>)
    requires
        !ws.contains(w),
    ensures
        occurrences(ws, w) == 0,
    decreases ws.len(),
{
    if ws.len() > 0 {
        assert(forall|i: int| 0 <= i < ws.len() ==> ws[i] != w);
        assert(forall|k: int|
            0 <= k < ws.drop_first().len() ==> ws.drop_first()[k] == ws[k + 1]);
        assert(!ws.drop_first().contains(w));
        lemma_occurrences_absent(ws.drop_first(), w);
    }
}

/// A duplicate-free table that resolves `w` holds exactly one row for it.
pub proof fn lemma_occurrences_distinct(ws: Seq<Seq<char>>, w: Seq<char>)
    requires
        distinct(ws),
        ws.contains(w),
    ensures
        occurrences(ws, w) == 1,
    decreases ws.len(),
{
    let rest = ws.drop_first();
    assert(forall|k: int| 0 <= k < rest.len() ==> rest[k] == ws[k + 1]);
    if ws[0] == w {
        assert(forall|k: int| 0 <= k < rest.len() ==> rest[k] != w);
        assert(!rest.contains(w));
        lemma_occurrences_absent(rest, w);
    } else {
        let i = choose|i: int| 0 <= i < ws.len() && ws[i] == w;
        assert(rest[i - 1] == w);
        assert(rest.contains(w));
        assert(distinct(rest));
        lemma_occurrences_distinct(rest, w);
    }
}

/// Law: interning the same text twice — no matter how many callers take part,
/// or in what order their interns land — yields exactly one row for it, and
/// every intern of it returns the same identity. `interned` and `intern_id`
/// are what `Index::intern_word` and `Index::intern_utterance` promise to
/// compute, so the law covers both the lexicon and the utterance table.
pub proof fn lemma_intern_idempotent(ws: Seq<Seq<char>>, w: Seq<char>)
    requires
        distinct(ws),
    ensures
        distinct(interned(ws, w)),
        occurrences(interned(ws, w), w) == 1,
        interned(interned(ws, w), w) == interned(ws, w),
        intern_id(interned(ws, w), w) == intern_id(ws, w),
{
    lemma_intern_props(ws, w);
    let ws1 = interned(ws, w);
    lemma_occurrences_distinct(ws1, w);
    if !ws.contains(w) {
        assert(forall|j: int| 0 <= j < ws.len() ==> ws1[j] == ws[j] && ws[j] != w);
        lemma_first_index_at(ws1, w, ws.len() as int);
    }
}

/// The table after `n` interns of `w` in a row.
pub open spec fn interned_many(ws: Seq<Seq<char>>, w: Seq<char>, n: nat) -> Seq<Seq<char>>
    decreases n,
{
    if n == 0 {
        ws
    } else {
        interned(interned_many(ws, w, (n - 1) as nat), w)
    }
}

/// Law: `n` callers interning one text, in whatever order their calls land,
/// leave exactly one row for it, and every caller — the one whose insert
/// landed first as much as every one that found the row in place — is answered
/// with one and the same identity.
pub proof fn lemma_intern_n_callers(ws: Seq<Seq<char>>, w: Seq<char>, n: nat)
    requires
        distinct(ws),
        n > 0,
    ensures
        interned_many(ws, w, n) == interned(ws, w),
        occurrences(interned_many(ws, w, n), w) == 1,
        forall|k: nat| k < n ==> intern_id(interned_many(ws, w, k), w) == intern_id(ws, w),
    decreases n,
{
    lemma_intern_idempotent(ws, w);
    if n == 1 {
        assert(interned_many(ws, w, 0) == ws);
        assert(interned_many(ws, w, 1) == interned(ws, w));
    } else {
        lemma_intern_n_callers(ws, w, (n - 1) as nat);
        assert(interned_many(ws, w, n) == interned(interned(ws, w), w));
        assert(interned_many(ws, w, n) == interned(ws, w));
        assert forall|k: nat| k < n implies intern_id(interned_many(ws, w, k), w) == intern_id(
            ws,
            w,
        ) by {
            if k == n - 1 {
                assert(interned_many(ws, w, k) == interned(ws, w));
            }
        }
    }
}

/// Every relation row of `m` references an existing word row.
pub open spec fn words_closed(m: IndexModel) -> bool {
    forall|k: int|
        0 <= k < m.relations.len() ==> 0 <= #[trigger] m.relations[k].word_id < m.words.len()
}

/// No relation row of `m` references a word row holding `w`.
pub open spec fn no_relation_for(m: IndexModel, w: Seq<char>) -> bool {
    forall|k: int|
        0 <= k < m.relations.len() ==> m.words[#[trigger] m.relations[k].word_id] != w
}

/// Law: a token in the stop-word set never acquires a word row and never
/// acquires a relation row, whatever else a sequence of tokens makes the
/// pipeline do.
pub proof fn lemma_stop_word_excluded(
    m: IndexModel,
    author_id: int,
    chat_id: int,
    utt_id: int,
    date: int,
    toks: Seq<Seq<char>>,
    w: Seq<char>,
)
    requires
        m.stops.contains(w),
        words_closed(m),
        !m.words.contains(w),
        no_relation_for(m, w),
    ensures
        ({
            let r = tokens_ingested(m, author_id, chat_id, utt_id, date, toks);
            &&& !r.words.contains(w)
            &&& words_closed(r)
            &&& no_relation_for(r, w)
        }),
    decreases toks.len(),
{
    if toks.len() > 0 {
        let w0 = toks[0];
        let m1 = token_step(m, author_id, chat_id, utt_id, date, w0);
        if !m.stops.contains(w0) {
            lemma_intern_props(m.words, w0);
            assert(w0 != w);
            assert(!m1.words.contains(w));
            assert forall|k: int|
                0 <= k < m1.relations.len() implies 0 <= #[trigger] m1.relations[k].word_id
                < m1.words.len() && m1.words[m1.relations[k].word_id] != w by {
                if k < m.relations.len() {
                    assert(m1.relations[k] == m.relations[k]);
                    assert(m1.words[m.relations[k].word_id] == m.words[m.relations[k].word_id]);
                } else {
                    assert(m1.relations[k].word_id == intern_id(m.words, w0));
                    assert(m1.words[intern_id(m.words, w0)] == w0);
                }
            }
        }
        lemma_stop_word_excluded(m1, author_id, chat_id, utt_id, date, toks.drop_first(), w);
    }
}

/// Law: ingesting a message with no tokens interns exactly its utterance and
/// writes no word row and no relation row; it always succeeds.
pub proof fn lemma_ingest_no_tokens(m: IndexModel, msg: MsgModel)
    ensures
        ingested(m, msg, Seq::<Seq<char>>::empty()) == (IndexModel {
            utterances: interned(m.utterances, msg.text),
            ..m
        }),
{
}

/// What one ingestion of a message whose whole token list is `[tok]`, with
/// `tok` not stop-listed, does to the model.
pub proof fn lemma_ingest_single_token(m: IndexModel, msg: MsgModel, tok: Seq<char>)
    requires
        !m.stops.contains(tok),
    ensures
        ingested(m, msg, seq![tok]) == (IndexModel {
            words: interned(m.words, tok),
            utterances: interned(m.utterances, msg.text),
            stops: m.stops,
            relations: m.relations.push(
                RelModel {
                    word_id: intern_id(m.words, tok),
                    author_id: msg.author_id,
                    chat_id: msg.chat_id,
                    utterance_id: intern_id(m.utterances, msg.text),
                    date: msg.date,
                },
            ),
        }),
{
    let toks = seq![tok];
    let m1 = IndexModel { utterances: interned(m.utterances, msg.text), ..m };
    let utt = intern_id(m.utterances, msg.text);
    let m2 = token_step(m1, msg.author_id, msg.chat_id, utt, msg.date, toks[0]);
    assert(toks.drop_first() =~= Seq::<Seq<char>>::empty());
    assert(tokens_ingested(m2, msg.author_id, msg.chat_id, utt, msg.date, toks.drop_first())
        == m2);
    assert(ingested(m, msg, toks) =~~= (IndexModel {
        words: interned(m.words, tok),
        utterances: interned(m.utterances, msg.text),
        stops: m.stops,
        relations: m.relations.push(
            RelModel {
                word_id: intern_id(m.words, tok),
                author_id: msg.author_id,
                chat_id: msg.chat_id,
                utterance_id: utt,
                date: msg.date,
            },
        ),
    }));
}

/// Law: a message whose token list is `[w1, w2, w1]`, the two words distinct,
/// neither stop-listed and neither yet in the lexicon, produces exactly three
/// new relation rows and exactly two new word rows, and all three new
/// relations reference the single utterance identity of the message — the
/// first and the third the row of `w1`, the second the row of `w2`.
pub proof fn lemma_repeated_token_message(
    m: IndexModel,
    msg: MsgModel,
    w1: Seq<char>,
    w2: Seq<char>,
)
    requires
        w1 != w2,
        !m.stops.contains(w1),
        !m.stops.contains(w2),
        !m.words.contains(w1),
        !m.words.contains(w2),
    ensures
        ({
            let r = ingested(m, msg, seq![w1, w2, w1]);
            let utt = intern_id(m.utterances, msg.text);
            let n = m.relations.len() as int;
            &&& r.words == m.words.push(w1).push(w2)
            &&& r.utterances == interned(m.utterances, msg.text)
            &&& r.relations.len() == m.relations.len() + 3
            &&& forall|k: int| 0 <= k < n ==> #[trigger] r.relations[k] == m.relations[k]
            &&& r.relations[n].word_id == m.words.len() as int
            &&& r.relations[n + 1].word_id == m.words.len() + 1
            &&& r.relations[n + 2].word_id == m.words.len() as int
            &&& r.relations[n].utterance_id == utt
            &&& r.relations[n + 1].utterance_id == utt
            &&& r.relations[n + 2].utterance_id == utt
        }),
{
    let toks = seq![w1, w2, w1];
    let m1 = IndexModel { utterances: interned(m.utterances, msg.text), ..m };
    let utt = intern_id(m.utterances, msg.text);
    let a = msg.author_id;
    let c = msg.chat_id;
    let d = msg.date;
    let s1 = token_step(m1, a, c, utt, d, w1);
    let s2 = token_step(s1, a, c, utt, d, w2);
    let s3 = token_step(s2, a, c, utt, d, w1);
    lemma_intern_props(m.words, w1);
    assert(s1.words == m.words.push(w1));
    assert(!s1.words.contains(w2));
    lemma_intern_props(s1.words, w2);
    assert(s2.words == m.words.push(w1).push(w2));
    assert(s2.words[m.words.len() as int] == w1);
    assert(s2.words.contains(w1));
    assert(forall|j: int|
        0 <= j < m.words.len() ==> s2.words[j] == m.words[j] && m.words[j] != w1);
    lemma_first_index_at(s2.words, w1, m.words.len() as int);
    assert(s3.words == s2.words);
    assert(toks.drop_first() =~= seq![w2, w1]);
    assert(seq![w2, w1].drop_first() =~= seq![w1]);
    assert(seq![w1].drop_first() =~= Seq::<Seq<char>>::empty());
    assert(toks[0] == w1 && seq![w2, w1][0] == w2 && seq![w1][0] == w1);
    assert(tokens_ingested(m1, a, c, utt, d, toks) == tokens_ingested(
        s1,
        a,
        c,
        utt,
        d,
        seq![w2, w1],
    ));
    assert(tokens_ingested(s1, a, c, utt, d, seq![w2, w1]) == tokens_ingested(
        s2,
        a,
        c,
        utt,
        d,
        seq![w1],
    ));
    assert(tokens_ingested(s2, a, c, utt, d, seq![w1]) == tokens_ingested(
        s3,
        a,
        c,
        utt,
        d,
        Seq::<Seq<char>>::empty(),
    ));
    assert(tokens_ingested(s3, a, c, utt, d, Seq::<Seq<char>>::empty()) == s3);
    assert(ingested(m, msg, toks) == s3);
    assert(s3.relations =~= m.relations + seq![
        s1.relations[m.relations.len() as int],
        s2.relations[m.relations.len() as int + 1],
        s3.relations[m.relations.len() as int + 2],
    ]);
}

/// The model after every message of `msgs` has been ingested in turn, each
/// normalizing to the single token `tok`.
pub open spec fn all_ingested_single(m: IndexModel, msgs: Seq<MsgModel>, tok: Seq<char>) -> IndexModel
    decreases msgs.len(),
{
    if msgs.len() == 0 {
        m
    } else {
        all_ingested_single(ingested(m, msgs[0], seq![tok]), msgs.drop_first(), tok)
    }
}

/// Once the lexicon resolves `tok`, further single-token ingestions leave the
/// lexicon untouched and append one relation per message, all referencing the
/// row that resolves `tok`.
proof fn lemma_single_token_ingests_present(m: IndexModel, msgs: Seq<MsgModel>, tok: Seq<char>)
    requires
        m.words.contains(tok),
        !m.stops.contains(tok),
    ensures
        ({
            let r = all_ingested_single(m, msgs, tok);
            &&& r.words == m.words
            &&& r.stops == m.stops
            &&& r.relations.len() == m.relations.len() + msgs.len()
            &&& forall|k: int| 0 <= k < m.relations.len() ==> #[trigger] r.relations[k]
                == m.relations[k]
            &&& forall|k: int|
                m.relations.len() <= k < r.relations.len() ==> #[trigger] r.relations[k].word_id
                    == first_index_of(m.words, tok)
        }),
    decreases msgs.len(),
{
    if msgs.len() > 0 {
        lemma_ingest_single_token(m, msgs[0], tok);
        let m2 = ingested(m, msgs[0], seq![tok]);
        assert(m2.words == m.words);
        lemma_single_token_ingests_present(m2, msgs.drop_first(), tok);
        let r = all_ingested_single(m, msgs, tok);
        assert forall|k: int|
            m.relations.len() <= k < r.relations.len() implies #[trigger] r.relations[k].word_id
            == first_index_of(m.words, tok) by {
            if k < m2.relations.len() {
                assert(r.relations[k] == m2.relations[k]);
                assert(m2.relations[k].word_id == intern_id(m.words, tok));
            }
        }
    }
}

/// Law: any number of ingestions of messages that each normalize to exactly
/// one token `tok`, not a stop word and not yet in the lexicon, end with
/// exactly one word row for `tok`, and with exactly one new relation row per
/// message, every one of them referencing that single word row. The messages
/// may come from any authors and chats in any order, as concurrent ingestions
/// land in some order.
pub proof fn lemma_repeated_single_token_ingests(m: IndexModel, msgs: Seq<MsgModel>, tok: Seq<char>)
    requires
        distinct(m.words),
        !m.stops.contains(tok),
        !m.words.contains(tok),
        msgs.len() > 0,
    ensures
        ({
            let r = all_ingested_single(m, msgs, tok);
            &&& distinct(r.words)
            &&& occurrences(r.words, tok) == 1
            &&& r.relations.len() == m.relations.len() + msgs.len()
            &&& forall|k: int|
                m.relations.len() <= k < r.relations.len() ==> 0 <= #[trigger] r.relations[k].word_id
                    < r.words.len() && r.words[r.relations[k].word_id] == tok
        }),
{
    lemma_intern_props(m.words, tok);
    lemma_ingest_single_token(m, msgs[0], tok);
    let m2 = ingested(m, msgs[0], seq![tok]);
    assert(m2.words == m.words.push(tok));
    assert(m2.words[m.words.len() as int] == tok);
    assert(m2.words.contains(tok));
    assert(forall|j: int| 0 <= j < m.words.len() ==> m2.words[j] == m.words[j] && m.words[j] != tok);
    lemma_first_index_at(m2.words, tok, m.words.len() as int);
    lemma_single_token_ingests_present(m2, msgs.drop_first(), tok);
    let r = all_ingested_single(m, msgs, tok);
    assert(distinct(r.words));
    lemma_occurrences_distinct(r.words, tok);
    assert(m2.relations[m.relations.len() as int].word_id == intern_id(m.words, tok));
    assert forall|k: int|
        m.relations.len() <= k < r.relations.len() implies 0 <= #[trigger] r.relations[k].word_id
        < r.words.len() && r.words[r.relations[k].word_id] == tok by {
        if k < m2.relations.len() {
            assert(r.relations[k] == m2.relations[k]);
            assert(r.relations[k].word_id == m.words.len() as int);
        } else {
            assert(r.relations[k].word_id == first_index_of(m2.words, tok));
        }
    }
}

} // verus!
