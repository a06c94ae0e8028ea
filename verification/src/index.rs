//! The verified indexing engine.
//!
//! `Index` holds the four tables of the core — lexicon (word rows), utterance
//! rows, the administered stop-word set, and the append-only relation ledger —
//! and implements interning, filtering, appending, and the ingestion pipeline
//! over them. Every operation is specified against `IndexModel`, the
//! mathematical image of the four tables, through the spec functions
//! `interned`, `intern_id`, `token_step`, `tokens_ingested` and `ingested`.
//!
//! Identities are surrogate: a word id is the position of its row in the
//! lexicon, an utterance id the position of its row in the utterance table,
//! and a relation id the position of its row in the ledger. Rows are only
//! ever appended, so identities are stable.

use vstd::prelude::*;

use crate::msg::Message;
use crate::msg::MsgModel;

verus! {

/// Mathematical image of one relation row: one occurrence of one word in one
/// message, with the author, the chat and the arrival time.
#[verifier::ext_equal]
pub ghost struct RelModel {
    pub word_id: int,
    pub author_id: int,
    pub chat_id: int,
    pub utterance_id: int,
    pub date: int,
}

/// Mathematical image of the four tables.
#[verifier::ext_equal]
pub ghost struct IndexModel {
    pub words: Seq<Seq<char>>,
    pub utterances: Seq<Seq<char>>,
    pub stops: Seq<Seq<char>>,
    pub relations: Seq<RelModel>,
}

/// The texts of a sequence of strings.
pub open spec fn views_of(v: Seq<String>) -> Seq<Seq<char>> {
    v.map_values(|s: String| s@)
}

/// No two rows of `ws` hold the same text: the uniqueness constraint of the
/// lexicon and of the utterance table.
pub open spec fn distinct(ws: Seq<Seq<char>>) -> bool {
    forall|i: int, j: int| 0 <= i < j < ws.len() ==> ws[i] != ws[j]
}

/// The table after interning `w`: unchanged if a row for `w` exists, else
/// extended by one row for `w`.
pub open spec fn interned(ws: Seq<Seq<char>>, w: Seq<char>) -> Seq<Seq<char>> {
    if ws.contains(w) {
        ws
    } else {
        ws.push(w)
    }
}

/// The first row of `ws` holding `w`, or -1 if none does.
pub open spec fn first_index_of(ws: Seq<Seq<char>>, w: Seq<char>) -> int
    decreases ws.len(),
{
    if ws.len() == 0 {
        -1
    } else if ws[0] == w {
        0
    } else if first_index_of(ws.drop_first(), w) < 0 {
        -1
    } else {
        1 + first_index_of(ws.drop_first(), w)
    }
}

/// The identity that interning `w` into `ws` yields: the existing row's
/// position, or the position of the row that interning creates.
pub open spec fn intern_id(ws: Seq<Seq<char>>, w: Seq<char>) -> int {
    if ws.contains(w) {
        first_index_of(ws, w)
    } else {
        ws.len() as int
    }
}

/// The model after the pipeline has handled one token: a stop-listed token
/// changes nothing; any other is interned and gets one relation row.
pub open spec fn token_step(
    m: IndexModel,
    author_id: int,
    chat_id: int,
    utt_id: int,
    date: int,
    w: Seq<char>,
) -> IndexModel {
    if m.stops.contains(w) {
        m
    } else {
        IndexModel {
            words: interned(m.words, w),
            relations: m.relations.push(
                RelModel {
                    word_id: intern_id(m.words, w),
                    author_id,
                    chat_id,
                    utterance_id: utt_id,
                    date,
                },
            ),
            ..m
        }
    }
}

/// The model after the pipeline has handled every token of `toks`, in order.
pub open spec fn tokens_ingested(
    m: IndexModel,
    author_id: int,
    chat_id: int,
    utt_id: int,
    date: int,
    toks: Seq<Seq<char>>,
) -> IndexModel
    decreases toks.len(),
{
    if toks.len() == 0 {
        m
    } else {
        tokens_ingested(
            token_step(m, author_id, chat_id, utt_id, date, toks[0]),
            author_id,
            chat_id,
            utt_id,
            date,
            toks.drop_first(),
        )
    }
}

/// The model after one whole ingestion: the raw text is interned as an
/// utterance, then every token is handled against that utterance's identity.
pub open spec fn ingested(m: IndexModel, msg: MsgModel, toks: Seq<Seq<char>>) -> IndexModel {
    tokens_ingested(
        IndexModel { utterances: interned(m.utterances, msg.text), ..m },
        msg.author_id,
        msg.chat_id,
        intern_id(m.utterances, msg.text),
        msg.date,
        toks,
    )
}

/// Every relation row of `m` references an existing word row and an existing
/// utterance row.
pub open spec fn relations_closed(m: IndexModel) -> bool {
    forall|k: int|
        0 <= k < m.relations.len() ==> 0 <= #[trigger] m.relations[k].word_id < m.words.len()
            && 0 <= m.relations[k].utterance_id < m.utterances.len()
}

/// The invariant of the four tables: word and utterance texts are unique, and
/// the ledger is referentially closed.
pub open spec fn model_wf(m: IndexModel) -> bool {
    distinct(m.words) && distinct(m.utterances) && relations_closed(m)
}

/// One relation row: one occurrence of one word in one message. `word_id` and
/// `utterance_id` are positions in the lexicon and the utterance table.
pub struct Relation {
    pub word_id: usize,
    pub author_id: i64,
    pub chat_id: i64,
    pub utterance_id: usize,
    pub date: i64,
}

impl View for Relation {
    type V = RelModel;

    open spec fn view(&self) -> RelModel {
        RelModel {
            word_id: self.word_id as int,
            author_id: self.author_id as int,
            chat_id: self.chat_id as int,
            utterance_id: self.utterance_id as int,
            date: self.date as int,
        }
    }
}

/// The four tables of the indexing core, in memory.
pub struct Index {
    words: Vec<String>,
    utterances: Vec<String>,
    stops: Vec<String>,
    relations: Vec<Relation>,
}

impl View for Index {
    type V = IndexModel;

    closed spec fn view(&self) -> IndexModel {
        IndexModel {
            words: views_of(self.words@),
            utterances: views_of(self.utterances@),
            stops: views_of(self.stops@),
            relations: self.relations@.map_values(|r: Relation| r@),
        }
    }
}

/// If `w` stands at row `i` and at no earlier row, then `i` is the first row
/// holding `w`.
pub proof fn lemma_first_index_at(ws: Seq<Seq<char>>, w: Seq<char>, i: int)
    requires
        0 <= i < ws.len(),
        ws[i] == w,
        forall|j: int| 0 <= j < i ==> ws[j] != w,
    ensures
        ws.contains(w),
        first_index_of(ws, w) == i,
    decreases i,
{
    assert(ws.contains(w));
    if i == 0 {
    } else {
        assert(ws[0] != w);
        lemma_first_index_at(ws.drop_first(), w, i - 1);
    }
}

/// The first row holding a contained text is a valid position and holds it.
pub proof fn lemma_first_index_found(ws: Seq<Seq<char>>, w: Seq<char>)
    requires
        ws.contains(w),
    ensures
        0 <= first_index_of(ws, w) < ws.len(),
        ws[first_index_of(ws, w)] == w,
        forall|j: int| 0 <= j < first_index_of(ws, w) ==> ws[j] != w,
    decreases ws.len(),
{
    if ws[0] == w {
    } else {
        let i = choose|i: int| 0 <= i < ws.len() && ws[i] == w;
        assert(ws.drop_first()[i - 1] == w);
        assert(ws.drop_first().contains(w));
        lemma_first_index_found(ws.drop_first(), w);
        assert forall|j: int| 0 <= j < first_index_of(ws, w) implies ws[j] != w by {
            if j > 0 {
                assert(ws.drop_first()[j - 1] == ws[j]);
            }
        }
    }
}

/// What interning does to a table: it keeps every existing row in place, adds
/// at most one row, and afterwards holds the interned text at `intern_id`.
pub proof fn lemma_intern_props(ws: Seq<Seq<char>>, w: Seq<char>)
    ensures
        ws.len() <= interned(ws, w).len() <= ws.len() + 1,
        forall|i: int| 0 <= i < ws.len() ==> #[trigger] interned(ws, w)[i] == ws[i],
        0 <= intern_id(ws, w) < interned(ws, w).len(),
        interned(ws, w)[intern_id(ws, w)] == w,
        interned(ws, w).contains(w),
        forall|y: Seq<char>| #[trigger] interned(ws, w).contains(y) <==> ws.contains(y) || y == w,
        distinct(ws) ==> distinct(interned(ws, w)),
{
    if ws.contains(w) {
        lemma_first_index_found(ws, w);
    } else {
        assert(forall|i: int| 0 <= i < ws.len() ==> ws[i] != w);
        assert(interned(ws, w)[ws.len() as int] == w);
        assert forall|y: Seq<char>| #[trigger]
            interned(ws, w).contains(y) <==> ws.contains(y) || y == w by {
            if ws.contains(y) {
                let i = choose|i: int| 0 <= i < ws.len() && ws[i] == y;
                assert(interned(ws, w)[i] == y);
            }
            if interned(ws, w).contains(y) && y != w {
                let i = choose|i: int|
                    0 <= i < interned(ws, w).len() && interned(ws, w)[i] == y;
                assert(ws[i] == y);
            }
        }
    }
}

impl Index {
    /// The invariant of the four tables.
    pub open spec fn wf(&self) -> bool {
        model_wf(self@)
    }

    /// An empty store: no word, utterance, stop-word or relation rows.
    pub fn new() -> (r: Index)
        ensures
            r@ == (IndexModel {
                words: Seq::<Seq<char>>::empty(),
                utterances: Seq::<Seq<char>>::empty(),
                stops: Seq::<Seq<char>>::empty(),
                relations: Seq::<RelModel>::empty(),
            }),
            r.wf(),
    {
        let r = Index { words: Vec::new(), utterances: Vec::new(), stops: Vec::new(), relations: Vec::new() };
        proof {
            assert(r@.words =~= Seq::<Seq<char>>::empty());
            assert(r@.utterances =~= Seq::<Seq<char>>::empty());
            assert(r@.stops =~= Seq::<Seq<char>>::empty());
            assert(r@.relations =~= Seq::<RelModel>::empty());
        }
        r
    }

    /// The first row of `v` whose text is `w@`, if any, and the knowledge that
    /// no earlier row holds it.
    fn find(v: &Vec<String>, w: &String) -> (r: Option<usize>)
        ensures
            match r {
                Some(i) => i < v@.len() && views_of(v@)[i as int] == w@ && forall|j: int|
                    0 <= j < i ==> views_of(v@)[j] != w@,
                None => !views_of(v@).contains(w@),
            },
    {
        let mut i: usize = 0;
        while i < v.len()
            invariant
                i <= v@.len(),
                forall|j: int| 0 <= j < i ==> views_of(v@)[j] != w@,
            decreases v@.len() - i,
        {
            proof {
                assert(views_of(v@)[i as int] == v@[i as int]@);
            }
            if v[i].eq(w) {
                return Some(i);
            }
            i += 1;
        }
        proof {
            assert(forall|j: int| 0 <= j < views_of(v@).len() ==> views_of(v@)[j] != w@);
        }
        None
    }

    /// Intern a normalized word: return the id of its existing row, or create
    /// one row for it and return the new row's id. Never issues two ids for
    /// one text, and never changes any other table.
    pub fn intern_word(&mut self, w: &String) -> (id: usize)
        requires
            old(self).wf(),
        ensures
            final(self).wf(),
            final(self)@ == (IndexModel { words: interned(old(self)@.words, w@), ..old(self)@ }),
            id as int == intern_id(old(self)@.words, w@),
            id < final(self)@.words.len() && final(self)@.words[id as int] == w@,
    {
        let ghost m0 = self@;
        proof {
            lemma_intern_props(m0.words, w@);
        }
        match Self::find(&self.words, w) {
            Some(i) => {
                proof {
                    lemma_first_index_at(m0.words, w@, i as int);
                    assert(m0.words.contains(w@));
                    assert(self@ =~~= (IndexModel { words: interned(m0.words, w@), ..m0 }));
                }
                i
            },
            None => {
                let id = self.words.len();
                self.words.push(w.clone());
                proof {
                    assert(self@.words =~= m0.words.push(w@));
                    assert(!m0.words.contains(w@));
                    assert(self@ =~~= (IndexModel { words: interned(m0.words, w@), ..m0 }));
                    assert(relations_closed(self@));
                }
                id
            },
        }
    }

    /// Intern a raw message text: the same contract as `intern_word`, over the
    /// utterance table.
    pub fn intern_utterance(&mut self, text: &String) -> (id: usize)
        requires
            old(self).wf(),
        ensures
            final(self).wf(),
            final(self)@ == (IndexModel {
                utterances: interned(old(self)@.utterances, text@),
                ..old(self)@
            }),
            id as int == intern_id(old(self)@.utterances, text@),
            id < final(self)@.utterances.len() && final(self)@.utterances[id as int] == text@,
    {
        let ghost m0 = self@;
        proof {
            lemma_intern_props(m0.utterances, text@);
        }
        match Self::find(&self.utterances, text) {
            Some(i) => {
                proof {
                    lemma_first_index_at(m0.utterances, text@, i as int);
                    assert(m0.utterances.contains(text@));
                    assert(self@ =~~= (IndexModel {
                        utterances: interned(m0.utterances, text@),
                        ..m0
                    }));
                }
                i
            },
            None => {
                let id = self.utterances.len();
                self.utterances.push(text.clone());
                proof {
                    assert(self@.utterances =~= m0.utterances.push(text@));
                    assert(!m0.utterances.contains(text@));
                    assert(self@ =~~= (IndexModel {
                        utterances: interned(m0.utterances, text@),
                        ..m0
                    }));
                    assert(relations_closed(self@));
                }
                id
            },
        }
    }

    /// Whether `w` is administratively excluded from indexing.
    pub fn is_stop_word(&self, w: &String) -> (r: bool)
        ensures
            r == self@.stops.contains(w@),
    {
        match Self::find(&self.stops, w) {
            Some(_) => true,
            None => false,
        }
    }

    /// Put `w` into the stop-word set. Administration of the set; the
    /// pipeline itself never calls this.
    pub fn add_stop_word(&mut self, w: String)
        requires
            old(self).wf(),
        ensures
            final(self).wf(),
            final(self)@ == (IndexModel { stops: old(self)@.stops.push(w@), ..old(self)@ }),
    {
        self.stops.push(w);
        proof {
            assert(self@.stops =~= old(self)@.stops.push(w@));
            assert(self@ =~~= (IndexModel { stops: old(self)@.stops.push(w@), ..old(self)@ }));
        }
    }

    /// Append one relation row. Always inserts — the same word said twice
    /// makes two rows — and requires that the word and utterance rows it
    /// references already exist.
    pub fn append_relation(
        &mut self,
        word_id: usize,
        author_id: i64,
        chat_id: i64,
        utterance_id: usize,
        date: i64,
    ) -> (rel_id: usize)
        requires
            old(self).wf(),
            word_id < old(self)@.words.len(),
            utterance_id < old(self)@.utterances.len(),
        ensures
            final(self).wf(),
            final(self)@ == (IndexModel {
                relations: old(self)@.relations.push(
                    RelModel {
                        word_id: word_id as int,
                        author_id: author_id as int,
                        chat_id: chat_id as int,
                        utterance_id: utterance_id as int,
                        date: date as int,
                    },
                ),
                ..old(self)@
            }),
            rel_id as int == old(self)@.relations.len(),
    {
        let rel_id = self.relations.len();
        self.relations.push(Relation { word_id, author_id, chat_id, utterance_id, date });
        proof {
            assert(self@.relations =~= old(self)@.relations.push(
                RelModel {
                    word_id: word_id as int,
                    author_id: author_id as int,
                    chat_id: chat_id as int,
                    utterance_id: utterance_id as int,
                    date: date as int,
                },
            ));
            assert(self@ =~~= (IndexModel { relations: self@.relations, ..old(self)@ }));
        }
        rel_id
    }

    /// Ingest one message: intern its raw text as an utterance, then, token by
    /// token in the order the normalizer produced them, skip stop words and
    /// record one relation row for every other token against that utterance,
    /// stamped with the message's arrival time. Returns how many relation rows
    /// were written; a message with no tokens still interns its utterance and
    /// returns zero.
    pub fn ingest(&mut self, msg: &Message, tokens: &Vec<String>) -> (count: usize)
        requires
            old(self).wf(),
        ensures
            final(self).wf(),
            final(self)@ == ingested(old(self)@, msg@, views_of(tokens@)),
            count as int == final(self)@.relations.len() - old(self)@.relations.len(),
            count <= tokens@.len(),
    {
        let utterance_id = self.intern_utterance(&msg.text);
        let ghost m1 = self@;
        let ghost toks = views_of(tokens@);
        let ghost a = msg@.author_id;
        let ghost c = msg@.chat_id;
        let ghost u = utterance_id as int;
        let ghost d = msg@.date;
        let mut count: usize = 0;
        let mut i: usize = 0;
        proof {
            assert(toks.skip(0) =~= toks);
        }
        while i < tokens.len()
            invariant
                i <= tokens@.len(),
                count <= i,
                toks == views_of(tokens@),
                self.wf(),
                utterance_id < self@.utterances.len(),
                u == utterance_id as int,
                a == msg@.author_id,
                c == msg@.chat_id,
                d == msg@.date,
                tokens_ingested(m1, a, c, u, d, toks) == tokens_ingested(
                    self@,
                    a,
                    c,
                    u,
                    d,
                    toks.skip(i as int),
                ),
                count as int == self@.relations.len() - m1.relations.len(),
                m1.relations.len() <= self@.relations.len(),
            decreases tokens@.len() - i,
        {
            let w = &tokens[i];
            let ghost cur = self@;
            proof {
                assert(toks.skip(i as int)[0] == toks[i as int]);
                assert(toks[i as int] == w@);
                assert(toks.skip(i as int).drop_first() =~= toks.skip(i as int + 1));
            }
            if self.is_stop_word(w) {
                proof {
                    assert(token_step(cur, a, c, u, d, w@) == cur);
                }
            } else {
                let wid = self.intern_word(w);
                let ghost mid = self@;
                self.append_relation(wid, msg.author_id, msg.chat_id, utterance_id, msg.date);
                count += 1;
                proof {
                    lemma_intern_props(cur.words, w@);
                    assert(mid.words == interned(cur.words, w@));
                    assert(self@ =~~= token_step(cur, a, c, u, d, w@));
                }
            }
            i += 1;
        }
        proof {
            assert(toks.skip(tokens@.len() as int) =~= Seq::<Seq<char>>::empty());
            assert(tokens_ingested(m1, a, c, u, d, toks) == self@);
            assert(ingested(old(self)@, msg@, toks) == self@);
        }
        count
    }

    /// How many word rows the lexicon holds.
    pub fn word_count(&self) -> (n: usize)
        ensures
            n as int == self@.words.len(),
    {
        self.words.len()
    }

    /// How many utterance rows the store holds.
    pub fn utterance_count(&self) -> (n: usize)
        ensures
            n as int == self@.utterances.len(),
    {
        self.utterances.len()
    }

    /// How many relation rows the ledger holds.
    pub fn relation_count(&self) -> (n: usize)
        ensures
            n as int == self@.relations.len(),
    {
        self.relations.len()
    }

    /// The text of word row `id`.
    pub fn word_at(&self, id: usize) -> (w: &String)
        requires
            id < self@.words.len(),
        ensures
            w@ == self@.words[id as int],
    {
        &self.words[id]
    }

    /// Relation row `id` of the ledger.
    pub fn relation_at(&self, id: usize) -> (r: &Relation)
        requires
            id < self@.relations.len(),
        ensures
            r@ == self@.relations[id as int],
    {
        &self.relations[id]
    }
}

} // verus!

