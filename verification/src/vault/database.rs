use crate::text::{append, chars_of, decimal, decimal_of, string_of, views_of};
use crate::vault::chunker::{paragraph_chunks, DocumentChunker};
use crate::vault::features::{
    count_of, distinct_terms, features_of, lemma_features_shape, terms, FeatureVector,
    MAX_TEXT_TERMS,
};
use crate::vault::similarity::{
    above_threshold, cosine_squared, lemma_cosine_at_most_one, lemma_cosine_without_common_term,
    lemma_ratio_transitive, ratio_lt, Similarity,
};
use crate::vault::{
    documents_of, results_of, Document, DocumentView, SearchResult, SearchResultView, StoreError,
};
use vstd::prelude::*;

verus! {

/// The most words a chunk of a stored document gathers.
pub const STORE_CHUNK_SIZE: usize = 500;

/// The first position at or after `k` that holds a document with this id;
/// the length if there is none.
pub open spec fn position(docs: Seq<DocumentView>, id: Seq<char>, k: int) -> int
    decreases docs.len() - k + 1,
{
    if k < 0 || k >= docs.len() {
        docs.len() as int
    } else if docs[k].id == id {
        k
    } else {
        position(docs, id, k + 1)
    }
}

/// The document stored under `id`.
pub open spec fn lookup(docs: Seq<DocumentView>, id: Seq<char>) -> Option<DocumentView> {
    let i = position(docs, id, 0);
    if i < docs.len() {
        Some(docs[i])
    } else {
        None
    }
}

/// The store after `d` is put in: it takes the place of a document with
/// the same id, or else goes to the end.
pub open spec fn put(docs: Seq<DocumentView>, d: DocumentView) -> Seq<DocumentView> {
    let i = position(docs, d.id, 0);
    if i < docs.len() {
        docs.update(i, d)
    } else {
        docs.push(d)
    }
}

/// The store without the document stored under `id`.
pub open spec fn without(docs: Seq<DocumentView>, id: Seq<char>) -> Seq<DocumentView> {
    let i = position(docs, id, 0);
    if i < docs.len() {
        docs.remove(i)
    } else {
        docs
    }
}

/// No two documents share an id.
pub open spec fn distinct_ids(docs: Seq<DocumentView>) -> bool {
    forall|i: int, j: int| 0 <= i < j < docs.len() ==> docs[i].id != docs[j].id
}

/// The chunks that a document with this text is indexed by.
pub open spec fn chunk_texts(content: Seq<char>) -> Seq<Seq<char>> {
    paragraph_chunks(content, STORE_CHUNK_SIZE as int)
}

/// Some chunk of the text holds more terms than a feature vector can count.
pub open spec fn too_long(content: Seq<char>) -> bool {
    exists|k: int|
        0 <= k < chunk_texts(content).len() && terms(#[trigger] chunk_texts(content)[k]).len()
            > MAX_TEXT_TERMS
}

/// The name of the chunk of a document at position `k`.
pub open spec fn chunk_id(id: Seq<char>, k: nat) -> Seq<char> {
    id + seq!['_', 'c', 'h', 'u', 'n', 'k', '_'] + decimal(k)
}

/// The best similarity between the query and the first `k` chunks; of equal
/// ones the first.
pub open spec fn best_upto(q: Seq<(Seq<char>, nat)>, chunks: Seq<Seq<char>>, k: int) -> (nat, nat)
    decreases k,
{
    if k <= 0 {
        (0, 1)
    } else {
        let before = best_upto(q, chunks, k - 1);
        let s = cosine_squared(q, features_of(chunks[k - 1]));
        if ratio_lt(before, s) {
            s
        } else {
            before
        }
    }
}

/// How well a document with this text matches the query: as well as its
/// best chunk.
pub open spec fn score(q: Seq<(Seq<char>, nat)>, content: Seq<char>) -> (nat, nat) {
    best_upto(q, chunk_texts(content), chunk_texts(content).len() as int)
}

/// The positions and scores of those of the first `k` documents that match
/// the query, in the order of the store.
pub open spec fn hits_upto(docs: Seq<DocumentView>, q: Seq<(Seq<char>, nat)>, k: int) -> Seq<
    (int, (nat, nat)),
>
    decreases k,
{
    if k <= 0 {
        Seq::empty()
    } else {
        let before = hits_upto(docs, q, k - 1);
        let s = score(q, docs[k - 1].content);
        if above_threshold(s) {
            before.push((k - 1, s))
        } else {
            before
        }
    }
}

/// The first position at or after `k` whose score is below `s`; the length
/// if there is none.
pub open spec fn place(hits: Seq<(int, (nat, nat))>, s: (nat, nat), k: int) -> int
    decreases hits.len() - k + 1,
{
    if k < 0 || k >= hits.len() {
        hits.len() as int
    } else if ratio_lt(hits[k].1, s) {
        k
    } else {
        place(hits, s, k + 1)
    }
}

/// The hits by falling score; among equal scores the earlier stays first.
pub open spec fn ordered(hits: Seq<(int, (nat, nat))>) -> Seq<(int, (nat, nat))>
    decreases hits.len(),
{
    if hits.len() == 0 {
        hits
    } else {
        let r = ordered(hits.drop_last());
        r.insert(place(r, hits.last().1, 0), hits.last())
    }
}

/// The best `limit` matches of the query, best first.
pub open spec fn ranking(docs: Seq<DocumentView>, q: Seq<(Seq<char>, nat)>, limit: int) -> Seq<
    (int, (nat, nat)),
> {
    let all = ordered(hits_upto(docs, q, docs.len() as int));
    if limit < all.len() {
        all.take(limit)
    } else {
        all
    }
}

/// What a search for `query` returns.
pub open spec fn search_results(docs: Seq<DocumentView>, query: Seq<char>, limit: int) -> Seq<
    SearchResultView,
> {
    let r = ranking(docs, features_of(query), limit);
    Seq::new(r.len(), |i: int| SearchResultView { document: docs[r[i].0], similarity: r[i].1 })
}

/// What `position` gives: the first place at or after `k` that holds the
/// id, or the length where no place does.
pub proof fn lemma_position(docs: Seq<DocumentView>, id: Seq<char>, k: int)
    requires
        0 <= k,
    ensures
        k <= position(docs, id, k) || position(docs, id, k) == docs.len(),
        position(docs, id, k) <= docs.len(),
        position(docs, id, k) < docs.len() ==> docs[position(docs, id, k)].id == id,
        forall|j: int| k <= j < position(docs, id, k) ==> docs[j].id != id,
    decreases docs.len() - k + 1,
{
    if k < docs.len() && docs[k].id != id {
        lemma_position(docs, id, k + 1);
    }
}

/// The position that `position` gives is the only one that holds the id
/// with none before it that does.
pub proof fn lemma_position_is(docs: Seq<DocumentView>, id: Seq<char>, p: int)
    requires
        0 <= p <= docs.len(),
        p < docs.len() ==> docs[p].id == id,
        forall|j: int| 0 <= j < p ==> docs[j].id != id,
    ensures
        position(docs, id, 0) == p,
{
    lemma_position(docs, id, 0);
}

/// Putting a document in leaves no two documents with one id.
pub proof fn lemma_put_keeps_distinct(docs: Seq<DocumentView>, d: DocumentView)
    requires
        distinct_ids(docs),
    ensures
        distinct_ids(put(docs, d)),
{
    lemma_position(docs, d.id, 0);
}

/// A document that was put in is found under its id, as it was put in.
pub proof fn lemma_put_then_lookup(docs: Seq<DocumentView>, d: DocumentView)
    ensures
        lookup(put(docs, d), d.id) == Some(d),
{
    lemma_position(docs, d.id, 0);
    lemma_position_is(put(docs, d), d.id, position(docs, d.id, 0));
}

/// After a document is removed, none is found under its id.
pub proof fn lemma_without_then_lookup(docs: Seq<DocumentView>, id: Seq<char>)
    requires
        distinct_ids(docs),
    ensures
        lookup(without(docs, id), id) is None,
        distinct_ids(without(docs, id)),
{
    lemma_position(docs, id, 0);
    let p = position(docs, id, 0);
    let rest = without(docs, id);
    if p < docs.len() {
        docs.remove_ensures(p);
        assert forall|j: int| 0 <= j < rest.len() implies rest[j].id != id by {
            if j >= p {
                assert(rest[j] == docs[j + 1]);
            }
        }
        assert(distinct_ids(rest)) by {
            assert forall|i: int, j: int| 0 <= i < j < rest.len() implies rest[i].id
                != rest[j].id by {
                let a = if i < p {
                    i
                } else {
                    i + 1
                };
                let b = if j < p {
                    j
                } else {
                    j + 1
                };
                assert(rest[i] == docs[a]);
                assert(rest[j] == docs[b]);
            }
        }
    }
    lemma_position_is(rest, id, rest.len() as int);
}

/// A document that was put in and then removed is not found any more.
pub proof fn lemma_put_then_delete(docs: Seq<DocumentView>, d: DocumentView)
    requires
        distinct_ids(docs),
    ensures
        lookup(without(put(docs, d), d.id), d.id) is None,
{
    lemma_put_keeps_distinct(docs, d);
    lemma_without_then_lookup(put(docs, d), d.id);
}

/// Removing a document a second time changes nothing.
pub proof fn lemma_delete_twice(docs: Seq<DocumentView>, id: Seq<char>)
    requires
        distinct_ids(docs),
    ensures
        without(without(docs, id), id) == without(docs, id),
{
    lemma_without_then_lookup(docs, id);
}

/// Every score has a denominator above zero.
pub open spec fn proper_scores(hits: Seq<(int, (nat, nat))>) -> bool {
    forall|i: int| 0 <= i < hits.len() ==> (#[trigger] hits[i]).1.1 > 0
}

/// No hit has a lower score than one behind it.
pub open spec fn falling_scores(hits: Seq<(int, (nat, nat))>) -> bool {
    forall|i: int, j: int| 0 <= i < j < hits.len() ==> !ratio_lt(hits[i].1, hits[j].1)
}

/// Each hit names a document of the store and gives its score, which is
/// above the threshold.
pub open spec fn true_hits(
    docs: Seq<DocumentView>,
    q: Seq<(Seq<char>, nat)>,
    hits: Seq<(int, (nat, nat))>,
) -> bool {
    forall|i: int|
        0 <= i < hits.len() ==> {
            let h = #[trigger] hits[i];
            0 <= h.0 < docs.len() && h.1 == score(q, docs[h.0].content) && above_threshold(h.1)
        }
}

/// The best similarity is a proper fraction of at most one.
pub proof fn lemma_best_proper(q: Seq<(Seq<char>, nat)>, chunks: Seq<Seq<char>>, k: int)
    requires
        distinct_terms(q),
    ensures
        best_upto(q, chunks, k).1 > 0,
        best_upto(q, chunks, k).0 <= best_upto(q, chunks, k).1,
    decreases k,
{
    if k > 0 {
        lemma_best_proper(q, chunks, k - 1);
        lemma_cosine_at_most_one(q, features_of(chunks[k - 1]));
    }
}

/// The hits among the first `k` documents are true hits with proper scores.
pub proof fn lemma_hits(docs: Seq<DocumentView>, q: Seq<(Seq<char>, nat)>, k: int)
    requires
        distinct_terms(q),
        k <= docs.len(),
    ensures
        proper_scores(hits_upto(docs, q, k)),
        true_hits(docs, q, hits_upto(docs, q, k)),
    decreases k,
{
    if k > 0 {
        lemma_hits(docs, q, k - 1);
        let c = docs[k - 1].content;
        lemma_best_proper(q, chunk_texts(c), chunk_texts(c).len() as int);
    }
}

/// Ordering keeps what holds of each hit, and lets the scores fall.
pub proof fn lemma_ordered(
    docs: Seq<DocumentView>,
    q: Seq<(Seq<char>, nat)>,
    hits: Seq<(int, (nat, nat))>,
)
    requires
        proper_scores(hits),
        true_hits(docs, q, hits),
    ensures
        ordered(hits).len() == hits.len(),
        proper_scores(ordered(hits)),
        true_hits(docs, q, ordered(hits)),
        falling_scores(ordered(hits)),
    decreases hits.len(),
{
    if hits.len() > 0 {
        let head = hits.drop_last();
        let x = hits.last();
        assert(proper_scores(head) && true_hits(docs, q, head)) by {
            assert forall|i: int| 0 <= i < head.len() implies (#[trigger] head[i]) == hits[i] by {}
        }
        lemma_ordered(docs, q, head);
        let r = ordered(head);
        lemma_place(r, x.1, 0);
        let p = place(r, x.1, 0);
        r.insert_ensures(p, x);
        let out = r.insert(p, x);
        assert(x == hits[hits.len() - 1]);
        assert forall|i: int| 0 <= i < out.len() implies (#[trigger] out[i]).1.1 > 0 by {
            if i < p {
                assert(out[i] == r[i]);
            } else if i > p {
                assert(out[i] == r[i - 1]);
            }
        }
        assert forall|i: int| 0 <= i < out.len() implies {
            let h = #[trigger] out[i];
            0 <= h.0 < docs.len() && h.1 == score(q, docs[h.0].content) && above_threshold(h.1)
        } by {
            if i < p {
                assert(out[i] == r[i]);
            } else if i > p {
                assert(out[i] == r[i - 1]);
            }
        }
        assert forall|i: int, j: int| 0 <= i < j < out.len() implies !ratio_lt(
            out[i].1,
            out[j].1,
        ) by {
            if j < p {
                assert(out[i] == r[i] && out[j] == r[j]);
            } else if j == p {
                assert(out[i] == r[i]);
            } else {
                assert(out[j] == r[j - 1]);
                if i < p {
                    assert(out[i] == r[i]);
                } else if i == p {
                    assert(ratio_lt(r[p].1, x.1));
                    if j - 1 > p {
                        assert(!ratio_lt(r[p].1, r[j - 1].1));
                    }
                    assert(r[p].1.1 > 0 && r[j - 1].1.1 > 0);
                    lemma_ratio_transitive(x.1, r[p].1, r[j - 1].1);
                } else {
                    assert(out[i] == r[i - 1]);
                }
            }
        }
    }
}

/// What a search returns is sorted: no result has a lower similarity than
/// one behind it. Each result is a document of the store with the
/// similarity of its best chunk, which is above the threshold, and there
/// are `limit` results at most.
pub proof fn lemma_search_sorted(docs: Seq<DocumentView>, query: Seq<char>, limit: int)
    requires
        0 <= limit,
    ensures
        ({
            let found = search_results(docs, query, limit);
            &&& found.len() <= limit
            &&& found.len() <= docs.len()
            &&& forall|i: int, j: int|
                0 <= i < j < found.len() ==> !ratio_lt(found[i].similarity, found[j].similarity)
            &&& forall|i: int|
                0 <= i < found.len() ==> above_threshold((#[trigger] found[i]).similarity)
            &&& forall|i: int|
                0 <= i < found.len() ==> (#[trigger] found[i]).similarity == score(
                    features_of(query),
                    found[i].document.content,
                )
            &&& forall|i: int|
                0 <= i < found.len() ==> exists|k: int|
                    0 <= k < docs.len() && docs[k] == (#[trigger] found[i]).document
        }),
{
    let q = features_of(query);
    let hits = hits_upto(docs, q, docs.len() as int);
    lemma_features_shape(query);
    lemma_hits(docs, q, docs.len() as int);
    lemma_hits_len(docs, q, docs.len() as int);
    lemma_ordered(docs, q, hits);
    let all = ordered(hits);
    let r = ranking(docs, q, limit);
    let found = search_results(docs, query, limit);
    assert forall|i: int| 0 <= i < r.len() implies (#[trigger] r[i]) == all[i] by {}
    assert forall|i: int| 0 <= i < found.len() implies exists|k: int|
        0 <= k < docs.len() && docs[k] == (#[trigger] found[i]).document by {
        assert(r[i] == all[i]);
        let k = r[i].0;
        assert(0 <= k < docs.len() && docs[k] == found[i].document);
    }
    assert forall|i: int| 0 <= i < found.len() implies above_threshold(
        (#[trigger] found[i]).similarity,
    ) by {
        assert(r[i] == all[i]);
    }
    assert forall|i: int| 0 <= i < found.len() implies (#[trigger] found[i]).similarity == score(
        features_of(query),
        found[i].document.content,
    ) by {
        assert(r[i] == all[i]);
    }
    assert forall|i: int, j: int| 0 <= i < j < found.len() implies !ratio_lt(
        found[i].similarity,
        found[j].similarity,
    ) by {
        assert(r[i] == all[i]);
        assert(r[j] == all[j]);
    }
}

/// There are no more hits than documents looked at.
pub proof fn lemma_hits_len(docs: Seq<DocumentView>, q: Seq<(Seq<char>, nat)>, k: int)
    ensures
        hits_upto(docs, q, k).len() <= if k < 0 {
            0
        } else {
            k
        },
    decreases k,
{
    if k > 0 {
        lemma_hits_len(docs, q, k - 1);
    }
}

/// The query shares no term with any chunk of the text.
pub open spec fn no_common_term(q: Seq<(Seq<char>, nat)>, content: Seq<char>) -> bool {
    forall|k: int, i: int|
        0 <= k < chunk_texts(content).len() && 0 <= i < q.len() ==> count_of(
            features_of(#[trigger] chunk_texts(content)[k]),
            (#[trigger] q[i]).0,
        ) == 0
}

/// A text with which the query shares no term has the score zero.
pub proof fn lemma_score_without_common_term(
    q: Seq<(Seq<char>, nat)>,
    content: Seq<char>,
    k: int,
)
    requires
        no_common_term(q, content),
        k <= chunk_texts(content).len(),
    ensures
        best_upto(q, chunk_texts(content), k) == (0nat, 1nat),
    decreases k,
{
    if k > 0 {
        lemma_score_without_common_term(q, content, k - 1);
        let c = chunk_texts(content)[k - 1];
        assert forall|i: int| 0 <= i < q.len() implies count_of(features_of(c), (#[trigger] q[i]).0)
            == 0 by {}
        lemma_cosine_without_common_term(q, features_of(c));
    }
}

/// A search finds no document with which the query shares no term.
pub proof fn lemma_search_without_common_term(
    docs: Seq<DocumentView>,
    query: Seq<char>,
    limit: int,
)
    requires
        0 <= limit,
        forall|d: int|
            0 <= d < docs.len() ==> no_common_term(
                features_of(query),
                (#[trigger] docs[d]).content,
            ),
    ensures
        search_results(docs, query, limit).len() == 0,
{
    let q = features_of(query);
    lemma_no_hits(docs, q, docs.len() as int);
    let hits = hits_upto(docs, q, docs.len() as int);
    assert(ordered(hits).len() == 0);
    assert(ranking(docs, q, limit).len() == 0);
}

/// Among documents with which the query shares no term there is no hit.
pub proof fn lemma_no_hits(docs: Seq<DocumentView>, q: Seq<(Seq<char>, nat)>, k: int)
    requires
        k <= docs.len(),
        forall|d: int| 0 <= d < docs.len() ==> no_common_term(q, (#[trigger] docs[d]).content),
    ensures
        hits_upto(docs, q, k).len() == 0,
    decreases k,
{
    if k > 0 {
        lemma_no_hits(docs, q, k - 1);
        let c = docs[k - 1].content;
        lemma_score_without_common_term(q, c, chunk_texts(c).len() as int);
    }
}

/// A search with a lower limit returns the beginning of what a search
/// with a higher limit returns from the same store.
pub proof fn lemma_search_prefix(docs: Seq<DocumentView>, query: Seq<char>, n: int, m: int)
    requires
        0 <= n <= m,
    ensures
        search_results(docs, query, n).len() <= search_results(docs, query, m).len(),
        search_results(docs, query, n) == search_results(docs, query, m).take(
            search_results(docs, query, n).len() as int,
        ),
{
    let few = search_results(docs, query, n);
    let many = search_results(docs, query, m);
    assert(few =~= many.take(few.len() as int));
}

/// A part of a document, with the features it is found by.
pub struct DocumentChunk {
    pub id: String,
    pub document_id: String,
    pub content: String,
    pub chunk_index: usize,
    pub features: FeatureVector,
}

/// A chunk as the contracts see it.
pub struct DocumentChunkView {
    pub id: Seq<char>,
    pub document_id: Seq<char>,
    pub content: Seq<char>,
    pub chunk_index: int,
    pub features: Seq<(Seq<char>, nat)>,
}

impl View for DocumentChunk {
    type V = DocumentChunkView;

    open spec fn view(&self) -> DocumentChunkView {
        DocumentChunkView {
            id: self.id@,
            document_id: self.document_id@,
            content: self.content@,
            chunk_index: self.chunk_index as int,
            features: self.features@,
        }
    }
}

impl DocumentChunk {
    /// A copy that holds the same values.
    pub fn duplicate(&self) -> (r: Self)
        ensures
            r@ == self@,
    {
        DocumentChunk {
            id: self.id.clone(),
            document_id: self.document_id.clone(),
            content: self.content.clone(),
            chunk_index: self.chunk_index,
            features: self.features.duplicate(),
        }
    }
}

/// The views of the chunks.
pub open spec fn chunks_of(v: Seq<DocumentChunk>) -> Seq<DocumentChunkView> {
    Seq::new(v.len(), |i: int| v[i]@)
}

/// The chunks that stand for a document with this id and text: one for
/// each chunk of the text, in order, named after the document and its
/// position.
pub open spec fn chunks_for(id: Seq<char>, content: Seq<char>) -> Seq<DocumentChunkView> {
    Seq::new(
        chunk_texts(content).len(),
        |k: int|
            DocumentChunkView {
                id: chunk_id(id, k as nat),
                document_id: id,
                content: chunk_texts(content)[k],
                chunk_index: k,
                features: features_of(chunk_texts(content)[k]),
            },
    )
}

/// The chunks that the store holds for the id: those of the document
/// stored under it, none if there is no such document.
pub open spec fn stored_chunks(docs: Seq<DocumentView>, id: Seq<char>) -> Seq<DocumentChunkView> {
    match lookup(docs, id) {
        Some(d) => chunks_for(d.id, d.content),
        None => Seq::empty(),
    }
}

struct StoredDocument {
    document: Document,
    chunks: Vec<DocumentChunk>,
}

struct Hit {
    index: usize,
    score: Similarity,
}

spec fn hits_of(v: Seq<Hit>) -> Seq<(int, (nat, nat))> {
    Seq::new(v.len(), |i: int| (v[i].index as int, v[i].score@))
}

spec fn stored_of(v: Seq<StoredDocument>) -> Seq<DocumentView> {
    Seq::new(v.len(), |i: int| v[i].document@)
}

/// The chunks are those that stand for the document.
spec fn chunks_match(e: StoredDocument) -> bool {
    chunks_of(e.chunks@) == chunks_for(e.document.id@, e.document.content@)
}

spec fn all_match(v: Seq<StoredDocument>) -> bool {
    forall|i: int| 0 <= i < v.len() ==> chunks_match(#[trigger] v[i])
}

/// The documents of a vault in memory, each cut into chunks that a search
/// goes through.
pub struct VaultDatabase {
    entries: Vec<StoredDocument>,
    chunker: DocumentChunker,
}

impl View for VaultDatabase {
    type V = Seq<DocumentView>;

    closed spec fn view(&self) -> Seq<DocumentView> {
        stored_of(self.entries@)
    }
}

impl VaultDatabase {
    #[verifier::type_invariant]
    spec fn inv(&self) -> bool {
        &&& self.chunker.chunk_size() == STORE_CHUNK_SIZE
        &&& distinct_ids(stored_of(self.entries@))
        &&& all_match(self.entries@)
    }

    /// An empty store.
    pub fn new() -> (r: Self)
        ensures
            r@.len() == 0,
    {
        VaultDatabase { entries: Vec::new(), chunker: DocumentChunker::default() }
    }

    fn position_of(entries: &Vec<StoredDocument>, id: &String) -> (i: usize)
        ensures
            i == position(stored_of(entries@), id@, 0),
            i <= entries.len(),
    {
        let mut i: usize = 0;
        while i < entries.len()
            invariant
                i <= entries.len(),
                position(stored_of(entries@), id@, 0) == position(
                    stored_of(entries@),
                    id@,
                    i as int,
                ),
            decreases entries.len() - i,
        {
            if entries[i].document.id == *id {
                return i;
            }
            i += 1;
        }
        i
    }

    /// The chunks of a document with their features, unless a chunk holds too
    /// many terms.
    fn index_document(&self, document: &Document) -> (r: Result<Vec<DocumentChunk>, StoreError>)
        ensures
            match r {
                Ok(chunks) => !too_long(document.content@) && chunks_match(
                    StoredDocument { document: *document, chunks },
                ),
                Err(e) => too_long(document.content@) && e == StoreError::TextTooLong,
            },
    {
        proof {
            use_type_invariant(self);
        }
        let content = chars_of(document.content.as_str());
        let texts = self.chunker.chunk_paragraphs_of(&content);
        let ghost all = chunk_texts(document.content@);
        let mut chunks: Vec<DocumentChunk> = Vec::new();
        let mut k: usize = 0;
        while k < texts.len()
            invariant
                k <= texts.len(),
                all == views_of(texts@),
                all == chunk_texts(document.content@),
                chunks.len() == k,
                forall|j: int| 0 <= j < k ==> terms(#[trigger] all[j]).len() <= MAX_TEXT_TERMS,
                chunks_of(chunks@) == chunks_for(document.id@, document.content@).take(k as int),
            decreases texts.len() - k,
        {
            assert(all[k as int] == texts[k as int]@);
            let ghost before = chunks_of(chunks@);
            match FeatureVector::extract_chars(&texts[k]) {
                Err(e) => {
                    return Err(e);
                },
                Ok(features) => {
                    let mut name = chars_of(document.id.as_str());
                    let tag: Vec<char> = vec!['_', 'c', 'h', 'u', 'n', 'k', '_'];
                    append(&mut name, &tag);
                    append(&mut name, &decimal_of(k));
                    chunks.push(
                        DocumentChunk {
                            id: string_of(&name),
                            document_id: document.id.clone(),
                            content: string_of(&texts[k]),
                            chunk_index: k,
                            features,
                        },
                    );
                    assert(chunks_of(chunks@) =~= before.push(
                        chunks_for(document.id@, document.content@)[k as int],
                    ));
                },
            }
            k += 1;
        }
        assert(chunks_for(document.id@, document.content@).take(texts.len() as int)
            == chunks_for(document.id@, document.content@));
        Ok(chunks)
    }

    /// Stores the document under its id, in place of one with the same id if
    /// there is one, and indexes its chunks. A text with a chunk of more than
    /// `MAX_TEXT_TERMS` terms is turned away, and the store stays as it was.
    pub fn add_document(&mut self, document: Document) -> (r: Result<(), StoreError>)
        ensures
            match r {
                Ok(_) => !too_long(document@.content) && final(self)@ == put(
                    old(self)@,
                    document@,
                ),
                Err(e) => too_long(document@.content) && e == StoreError::TextTooLong
                    && final(self)@ == old(self)@,
            },
            distinct_ids(final(self)@),
    {
        proof {
            use_type_invariant(&*self);
        }
        let chunks = match self.index_document(&document) {
            Ok(chunks) => chunks,
            Err(e) => {
                return Err(e);
            },
        };
        let mut entries: Vec<StoredDocument> = Vec::new();
        std::mem::swap(&mut entries, &mut self.entries);
        let ghost before = stored_of(entries@);
        let ghost held = entries@;
        let p = Self::position_of(&entries, &document.id);
        proof {
            lemma_position(before, document.id@, 0);
        }
        let ghost d = document@;
        let stored = StoredDocument { document, chunks };
        if p < entries.len() {
            entries[p] = stored;
            assert(stored_of(entries@) =~= before.update(p as int, d));
        } else {
            entries.push(stored);
            assert(stored_of(entries@) =~= before.push(d));
        }
        assert(all_match(entries@)) by {
            assert forall|i: int| 0 <= i < entries.len() implies chunks_match(
                #[trigger] entries[i],
            ) by {
                if i != p {
                    assert(entries[i] == held[i]);
                }
            }
        }
        self.entries = entries;
        Ok(())
    }

    /// The best similarity between the query and the chunks of one document.
    fn best_match(q: &FeatureVector, e: &StoredDocument) -> (r: Similarity)
        requires
            chunks_match(*e),
        ensures
            r@ == score(q@, e.document.content@),
    {
        let ghost texts = chunk_texts(e.document.content@);
        let ghost expected = chunks_for(e.document.id@, e.document.content@);
        assert(chunks_of(e.chunks@).len() == expected.len());
        let mut best = Similarity::zero();
        let mut k: usize = 0;
        while k < e.chunks.len()
            invariant
                k <= e.chunks.len(),
                chunks_match(*e),
                texts == chunk_texts(e.document.content@),
                expected == chunks_for(e.document.id@, e.document.content@),
                e.chunks.len() == texts.len(),
                best@ == best_upto(q@, texts, k as int),
            decreases e.chunks.len() - k,
        {
            assert(chunks_of(e.chunks@)[k as int] == e.chunks[k as int]@);
            assert(expected[k as int].features == features_of(texts[k as int]));
            let s = Similarity::between(q, &e.chunks[k].features);
            if best.less_than(&s) {
                best = s;
            }
            k += 1;
        }
        best
    }

    /// The hits by falling score; among equal scores the earlier stays first.
    fn order(hits: &Vec<Hit>) -> (r: Vec<Hit>)
        ensures
            hits_of(r@) == ordered(hits_of(hits@)),
    {
        let ghost all = hits_of(hits@);
        let mut out: Vec<Hit> = Vec::new();
        let mut i: usize = 0;
        while i < hits.len()
            invariant
                i <= hits.len(),
                all == hits_of(hits@),
                hits_of(out@) == ordered(all.take(i as int)),
            decreases hits.len() - i,
        {
            let ghost before = hits_of(out@);
            assert(all.take(i + 1).drop_last() == all.take(i as int));
            let mut p: usize = 0;
            while p < out.len() && !out[p].score.less_than(&hits[i].score)
                invariant
                    p <= out.len(),
                    before == hits_of(out@),
                    i < hits.len(),
                    all == hits_of(hits@),
                    place(before, all[i as int].1, 0) == place(before, all[i as int].1, p as int),
                decreases out.len() - p,
            {
                p += 1;
            }
            out.insert(p, Hit { index: hits[i].index, score: hits[i].score });
            assert(hits_of(out@) =~= before.insert(p as int, all[i as int]));
            i += 1;
        }
        assert(all.take(hits.len() as int) == all);
        out
    }

    /// The documents that match `query`, best first, `limit` of them at most.
    /// A document matches as well as its best chunk does, and only if that
    /// is by more than one tenth.
    pub fn search(&self, query: &str, limit: usize) -> (r: Result<Vec<SearchResult>, StoreError>)
        ensures
            match r {
                Ok(found) => terms(query@).len() <= MAX_TEXT_TERMS && results_of(found@)
                    == search_results(self@, query@, limit as int),
                Err(e) => terms(query@).len() > MAX_TEXT_TERMS && e == StoreError::TextTooLong,
            },
    {
        proof {
            use_type_invariant(self);
        }
        let q = match FeatureVector::extract(query) {
            Ok(q) => q,
            Err(e) => {
                return Err(e);
            },
        };
        let ghost docs = self@;
        let mut hits: Vec<Hit> = Vec::new();
        let mut i: usize = 0;
        while i < self.entries.len()
            invariant
                i <= self.entries.len(),
                docs == stored_of(self.entries@),
                all_match(self.entries@),
                hits_of(hits@) == hits_upto(docs, q@, i as int),
                forall|j: int| 0 <= j < hits.len() ==> (#[trigger] hits[j]).index < i,
            decreases self.entries.len() - i,
        {
            let ghost before = hits_of(hits@);
            assert(chunks_match(self.entries[i as int]));
            let s = Self::best_match(&q, &self.entries[i]);
            if s.is_relevant() {
                hits.push(Hit { index: i, score: s });
                assert(hits_of(hits@) =~= before.push((i as int, s@)));
            }
            i += 1;
        }
        let mut best = Self::order(&hits);
        proof {
            lemma_ordered_keeps(hits_of(hits@), self.entries.len() as int);
        }
        let ghost all = hits_of(best@);
        best.truncate(limit);
        assert(hits_of(best@) =~= ranking(docs, q@, limit as int));
        let ghost rank = hits_of(best@);
        let mut found: Vec<SearchResult> = Vec::new();
        let mut j: usize = 0;
        while j < best.len()
            invariant
                j <= best.len(),
                docs == stored_of(self.entries@),
                rank == hits_of(best@),
                forall|k: int| 0 <= k < rank.len() ==> 0 <= (#[trigger] rank[k]).0 < docs.len(),
                found.len() == j,
                forall|k: int|
                    0 <= k < j ==> (#[trigger] found[k])@ == (SearchResultView {
                        document: docs[rank[k].0],
                        similarity: rank[k].1,
                    }),
            decreases best.len() - j,
        {
            let h = &best[j];
            assert(rank[j as int] == (h.index as int, h.score@));
            found.push(
                SearchResult {
                    document: self.entries[h.index].document.duplicate(),
                    similarity: h.score,
                },
            );
            j += 1;
        }
        assert(results_of(found@) =~= search_results(docs, query@, limit as int));
        Ok(found)
    }

    /// The document stored under `id`.
    pub fn get_document(&self, id: &str) -> (r: Option<Document>)
        ensures
            match r {
                Some(d) => lookup(self@, id@) == Some(d@),
                None => lookup(self@, id@) is None,
            },
    {
        let key = id.to_owned();
        let p = Self::position_of(&self.entries, &key);
        if p < self.entries.len() {
            Some(self.entries[p].document.duplicate())
        } else {
            None
        }
    }

    /// Removes the document stored under `id`, and its chunks with it.
    /// Nothing happens if there is none.
    pub fn delete_document(&mut self, id: &str) -> (r: Result<(), StoreError>)
        ensures
            r is Ok,
            final(self)@ == without(old(self)@, id@),
            distinct_ids(final(self)@),
    {
        proof {
            use_type_invariant(&*self);
        }
        let key = id.to_owned();
        let mut entries: Vec<StoredDocument> = Vec::new();
        std::mem::swap(&mut entries, &mut self.entries);
        let ghost before = stored_of(entries@);
        let ghost held = entries@;
        let p = Self::position_of(&entries, &key);
        if p < entries.len() {
            entries.remove(p);
            assert(stored_of(entries@) =~= before.remove(p as int));
            assert(all_match(entries@)) by {
                assert forall|i: int| 0 <= i < entries.len() implies chunks_match(
                    #[trigger] entries[i],
                ) by {
                    if i < p {
                        assert(entries[i] == held[i]);
                    } else {
                        assert(entries[i] == held[i + 1]);
                    }
                }
            }
        }
        self.entries = entries;
        Ok(())
    }

    /// The chunks of the document stored under `id`, in order. They go
    /// when the document goes.
    pub fn document_chunks(&self, id: &str) -> (r: Vec<DocumentChunk>)
        ensures
            chunks_of(r@) == stored_chunks(self@, id@),
    {
        proof {
            use_type_invariant(self);
        }
        let key = id.to_owned();
        let p = Self::position_of(&self.entries, &key);
        let mut out: Vec<DocumentChunk> = Vec::new();
        if p < self.entries.len() {
            let e = &self.entries[p];
            assert(chunks_match(*e));
            let mut k: usize = 0;
            while k < e.chunks.len()
                invariant
                    k <= e.chunks.len(),
                    chunks_of(out@) == chunks_of(e.chunks@).take(k as int),
                decreases e.chunks.len() - k,
            {
                let ghost before = chunks_of(out@);
                out.push(e.chunks[k].duplicate());
                assert(chunks_of(out@) =~= before.push(e.chunks[k as int]@));
                k += 1;
            }
            assert(chunks_of(e.chunks@).take(e.chunks.len() as int) == chunks_of(e.chunks@));
        } else {
            assert(chunks_of(out@) =~= Seq::empty());
        }
        out
    }

    /// The number of documents in the store.
    pub fn document_count(&self) -> (n: usize)
        ensures
            n == self@.len(),
            distinct_ids(self@),
    {
        proof {
            use_type_invariant(self);
        }
        self.entries.len()
    }

    /// All documents, in the order in which their ids first came.
    pub fn list_all_documents(&self) -> (r: Vec<Document>)
        ensures
            documents_of(r@) == self@,
            distinct_ids(self@),
    {
        proof {
            use_type_invariant(self);
        }
        let mut out: Vec<Document> = Vec::new();
        let mut i: usize = 0;
        while i < self.entries.len()
            invariant
                i <= self.entries.len(),
                documents_of(out@) == stored_of(self.entries@).take(i as int),
            decreases self.entries.len() - i,
        {
            let ghost before = documents_of(out@);
            out.push(self.entries[i].document.duplicate());
            assert(documents_of(out@) =~= before.push(self.entries[i as int].document@));
            i += 1;
        }
        assert(stored_of(self.entries@).take(self.entries.len() as int) == stored_of(
            self.entries@,
        ));
        out
    }
}

/// Ordering keeps the hits: each position that `ordered` names is one that
/// the hits named.
pub proof fn lemma_ordered_keeps(hits: Seq<(int, (nat, nat))>, bound: int)
    requires
        forall|j: int| 0 <= j < hits.len() ==> 0 <= (#[trigger] hits[j]).0 < bound,
    ensures
        ordered(hits).len() == hits.len(),
        forall|j: int| 0 <= j < ordered(hits).len() ==> 0 <= (#[trigger] ordered(hits)[j]).0 < bound,
    decreases hits.len(),
{
    if hits.len() > 0 {
        lemma_ordered_keeps(hits.drop_last(), bound);
        let r = ordered(hits.drop_last());
        lemma_place(r, hits.last().1, 0);
        r.insert_ensures(place(r, hits.last().1, 0), hits.last());
        let p = place(r, hits.last().1, 0);
        let out = r.insert(p, hits.last());
        assert forall|j: int| 0 <= j < out.len() implies 0 <= (#[trigger] out[j]).0 < bound by {
            if j < p {
                assert(out[j] == r[j]);
            } else if j == p {
            } else {
                assert(out[j] == r[j - 1]);
            }
        }
    }
}

/// What `place` gives: the first place at or after `k` whose score is
/// below `s`, or the length where no place has one.
pub proof fn lemma_place(hits: Seq<(int, (nat, nat))>, s: (nat, nat), k: int)
    requires
        0 <= k <= hits.len(),
    ensures
        k <= place(hits, s, k) <= hits.len(),
        place(hits, s, k) < hits.len() ==> ratio_lt(hits[place(hits, s, k)].1, s),
        forall|j: int| k <= j < place(hits, s, k) ==> !ratio_lt(hits[j].1, s),
    decreases hits.len() - k + 1,
{
    if k < hits.len() && !ratio_lt(hits[k].1, s) {
        lemma_place(hits, s, k + 1);
    }
}

} // verus!
