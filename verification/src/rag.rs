//! The retrieval pipeline: ingesting text and files into the vector
//! store, and retrieving formatted context for a query.
//!
//! Embeddings come from a [`Provider`]; the engine is verified for every
//! vector a provider can return: nothing unvalidated reaches the store,
//! and a failed batch leaves the store as it was.

use vstd::prelude::*;
use vstd::string::StringExecFns;
use vstd::string::StringSliceAdditionalSpecFns;
use vstd::utf8::encode_utf8;

use crate::chunker;
use crate::config::RagConfig;
use crate::config::StorageConfig;
use crate::config::StorageMode;
use crate::indexer::IndexedFile;
use crate::indexer::IndexerError;
use crate::provider::Provider;
use crate::provider::ProviderError;
use crate::store;
use crate::store::Document;
use crate::store::SearchResult;
use crate::store::VectorStore;
use crate::strutil;

verus! {

/// Why embedding text failed.
#[derive(Debug, Clone, PartialEq, Eq)]
pub enum EmbedderError {
    /// The provider call failed.
    Provider(ProviderError),
    /// The provider answered with no embeddings, or too few.
    NoEmbeddings,
}

/// Why a retrieval-pipeline operation failed.
#[derive(Debug, Clone, PartialEq, Eq)]
pub enum RagError {
    Embedder(EmbedderError),
    Indexer(IndexerError),
    Retrieval(String),
}

/// Turns text into embeddings through a provider, under a fixed model.
#[derive(Debug, Clone, PartialEq, Eq)]
pub struct Embedder {
    pub model: String,
}

impl Embedder {
    pub fn new(model: String) -> (r: Embedder)
        ensures
            r.model@ == model@,
    {
        Embedder { model }
    }

    /// Embed one text. The vector is whatever the provider returns; the
    /// callers validate it before it reaches the store.
    pub fn embed<P: Provider>(&self, provider: &mut P, text: &str) -> Result<
        Vec<i64>,
        EmbedderError,
    > {
        match provider.embed(text, self.model.as_str()) {
            Ok(v) => Ok(v),
            Err(e) => Err(EmbedderError::Provider(e)),
        }
    }

    /// Embed a batch of texts; must come back one vector per text.
    pub fn embed_batch<P: Provider>(&self, provider: &mut P, texts: &Vec<String>) -> (r: Result<
        Vec<Vec<i64>>,
        EmbedderError,
    >)
        ensures
            r matches Ok(vs) ==> vs@.len() == texts@.len(),
    {
        match provider.embed_batch(texts, self.model.as_str()) {
            Ok(vs) => {
                if vs.len() != texts.len() {
                    Err(EmbedderError::NoEmbeddings)
                } else {
                    Ok(vs)
                }
            },
            Err(e) => Err(EmbedderError::Provider(e)),
        }
    }
}

/// Check that an embedding fits a store of this dimension.
pub fn validate_embedding(e: &Vec<i64>, dim: usize) -> (r: bool)
    ensures
        r == (e@.len() == dim && store::spec_bounded(e@)),
{
    let n = e.len();
    if n != dim || n > store::MAX_DIM {
        return false;
    }
    let mut i: usize = 0;
    while i < n
        invariant
            n == e@.len(),
            0 <= i <= n,
            forall|k: int| 0 <= k < i ==> -store::MAX_COMPONENT <= #[trigger] e@[k]
                <= store::MAX_COMPONENT,
        decreases n - i,
    {
        let x = e[i];
        if x < -store::MAX_COMPONENT || x > store::MAX_COMPONENT {
            return false;
        }
        i = i + 1;
    }
    true
}

/// The id of chunk `i` of a source: `{source}_chunk_{i}`.
pub open spec fn spec_chunk_id(source: Seq<char>, i: int) -> Seq<char> {
    source + "_chunk_"@ + strutil::spec_dec(i)
}

/// Build the id of chunk `i` of a source.
pub fn make_chunk_id(source: &str, i: usize) -> (r: String)
    ensures
        r@ == spec_chunk_id(source@, i as int),
{
    let mut s = String::from_str(source);
    s.append("_chunk_");
    let d = strutil::usize_to_string(i);
    s.append(d.as_str());
    proof {
        assert(s@ =~= spec_chunk_id(source@, i as int));
    }
    s
}

/// Id stability: two chunk lists over the same bytes with the same
/// parameters are the same list, so re-indexing an unchanged file yields
/// identical `{source}_chunk_{i}` ids and identical content per id.
pub proof fn lemma_chunk_ids_stable(
    b: Seq<u8>,
    c: int,
    o: int,
    r1: Seq<Seq<char>>,
    r2: Seq<Seq<char>>,
)
    requires
        r1.len() == chunker::spec_chunks(b, c, o).len(),
        r2.len() == chunker::spec_chunks(b, c, o).len(),
        forall|k: int|
            0 <= k < r1.len() ==> encode_utf8(#[trigger] r1[k]) == b.subrange(
                chunker::spec_chunks(b, c, o)[k].0,
                chunker::spec_chunks(b, c, o)[k].1,
            ),
        forall|k: int|
            0 <= k < r2.len() ==> encode_utf8(#[trigger] r2[k]) == b.subrange(
                chunker::spec_chunks(b, c, o)[k].0,
                chunker::spec_chunks(b, c, o)[k].1,
            ),
    ensures
        r1 == r2,
{
    assert forall|k: int| 0 <= k < r1.len() implies r1[k] == r2[k] by {
        vstd::utf8::encode_utf8_decode_utf8(r1[k]);
        vstd::utf8::encode_utf8_decode_utf8(r2[k]);
    }
    assert(r1 =~= r2);
}

/// A chunk waiting for its embedding: its id, its text, its source path,
/// and its index within the source.
#[derive(Debug)]
pub struct PendingChunk {
    pub id: String,
    pub content: String,
    pub source: String,
    pub index: usize,
}

/// The document built for a pending chunk: same id, same content, and the
/// chunk's source path as its `source` metadata.
pub open spec fn spec_doc_matches_pending(d: Document, p: PendingChunk) -> bool {
    &&& d.id@ == p.id@
    &&& d.content@ == p.content@
    &&& store::spec_doc_source(d) == Some(p.source@)
}

/// A flushed batch upserts one valid document per pending chunk, in
/// order.
pub open spec fn spec_batch_outcome(
    old_docs: Seq<Document>,
    meta: Seq<PendingChunk>,
    new_docs: Seq<Document>,
    dim: int,
) -> bool {
    exists|docs: Seq<Document>|
        {
            &&& #[trigger] store::spec_upsert(old_docs, docs) == new_docs
            &&& docs.len() == meta.len()
            &&& forall|k: int|
                0 <= k < docs.len() ==> spec_doc_matches_pending(#[trigger] docs[k], meta[k])
                    && store::spec_valid_doc(docs[k], dim)
        }
}

/// Metadata of chunk `k` of a file, as the pipeline buffers it.
pub open spec fn spec_chunk_meta(
    m: PendingChunk,
    path: Seq<char>,
    content: Seq<char>,
    c: int,
    o: int,
    k: int,
) -> bool {
    let b = encode_utf8(content);
    let ch = chunker::spec_chunks(b, c, o);
    &&& 0 <= k < ch.len()
    &&& m.id@ == spec_chunk_id(path, k)
    &&& encode_utf8(m.content@) == b.subrange(ch[k].0, ch[k].1)
    &&& m.source@ == path
    &&& m.index == k
}

/// All of one file's chunk metadata, in order.
pub open spec fn spec_file_metas(
    ms: Seq<PendingChunk>,
    path: Seq<char>,
    content: Seq<char>,
    c: int,
    o: int,
) -> bool {
    &&& ms.len() == chunker::spec_chunks(encode_utf8(content), c, o).len()
    &&& forall|k: int|
        0 <= k < ms.len() ==> spec_chunk_meta(#[trigger] ms[k], path, content, c, o, k)
}

/// The chunk metadata of a whole file set: one group per file, in file
/// order, each group the file's chunks in order.
pub open spec fn spec_files_metas(
    ms: Seq<PendingChunk>,
    files: Seq<IndexedFile>,
    c: int,
    o: int,
) -> bool
    decreases files.len(),
{
    if files.len() == 0 {
        ms.len() == 0
    } else {
        let content = files.last().content@;
        let n = chunker::spec_chunks(encode_utf8(content), c, o).len();
        &&& ms.len() >= n
        &&& spec_files_metas(ms.take(ms.len() - n), files.drop_last(), c, o)
        &&& spec_file_metas(ms.skip(ms.len() - n), files.last().path@, content, c, o)
    }
}

/// The entry is chunk metadata of one of the files.
pub open spec fn spec_meta_from(
    m: PendingChunk,
    files: Seq<IndexedFile>,
    c: int,
    o: int,
) -> bool {
    exists|fi: int, j: int|
        0 <= fi < files.len() && #[trigger] spec_chunk_meta(
            m,
            files[fi].path@,
            files[fi].content@,
            c,
            o,
            j,
        )
}

/// Every entry is chunk metadata of one of the files.
pub open spec fn spec_metas_from_files(
    ms: Seq<PendingChunk>,
    files: Seq<IndexedFile>,
    c: int,
    o: int,
) -> bool {
    forall|k: int| 0 <= k < ms.len() ==> spec_meta_from(#[trigger] ms[k], files, c, o)
}

/// Document `d` is chunk `k` of a file: it carries the chunk id, the
/// chunk's text, the file's path as its source, and a fitting embedding.
pub open spec fn spec_chunk_doc(
    d: Document,
    path: Seq<char>,
    content: Seq<char>,
    c: int,
    o: int,
    k: int,
    dim: int,
) -> bool {
    let b = encode_utf8(content);
    let ch = chunker::spec_chunks(b, c, o);
    &&& 0 <= k < ch.len()
    &&& d.id@ == spec_chunk_id(path, k)
    &&& encode_utf8(d.content@) == b.subrange(ch[k].0, ch[k].1)
    &&& store::spec_doc_source(d) == Some(path)
    &&& store::spec_valid_doc(d, dim)
}

/// A prefix of one file's chunk documents, in order from the first chunk.
pub open spec fn spec_file_docs_upto(
    ds: Seq<Document>,
    path: Seq<char>,
    content: Seq<char>,
    c: int,
    o: int,
    dim: int,
) -> bool {
    &&& ds.len() <= chunker::spec_chunks(encode_utf8(content), c, o).len()
    &&& forall|k: int|
        0 <= k < ds.len() ==> spec_chunk_doc(#[trigger] ds[k], path, content, c, o, k, dim)
}

/// All of one file's chunk documents, in order.
pub open spec fn spec_file_docs(
    ds: Seq<Document>,
    path: Seq<char>,
    content: Seq<char>,
    c: int,
    o: int,
    dim: int,
) -> bool {
    &&& ds.len() == chunker::spec_chunks(encode_utf8(content), c, o).len()
    &&& spec_file_docs_upto(ds, path, content, c, o, dim)
}

/// Two complete chunk-metadata lists over the same files carry the same
/// ids at the same positions: the ids depend only on the files.
pub proof fn lemma_files_metas_ids(
    ms1: Seq<PendingChunk>,
    ms2: Seq<PendingChunk>,
    files: Seq<IndexedFile>,
    c: int,
    o: int,
)
    requires
        spec_files_metas(ms1, files, c, o),
        spec_files_metas(ms2, files, c, o),
    ensures
        ms1.len() == ms2.len(),
        forall|k: int| 0 <= k < ms1.len() ==> (#[trigger] ms1[k]).id@ == ms2[k].id@,
    decreases files.len(),
{
    if files.len() == 0 {
    } else {
        let content = files.last().content@;
        let n = chunker::spec_chunks(encode_utf8(content), c, o).len();
        let t1 = ms1.take(ms1.len() - n);
        let t2 = ms2.take(ms2.len() - n);
        lemma_files_metas_ids(t1, t2, files.drop_last(), c, o);
        assert(ms1.len() == ms2.len());
        assert forall|k: int| 0 <= k < ms1.len() implies (#[trigger] ms1[k]).id@
            == ms2[k].id@ by {
            if k < ms1.len() - n {
                assert(t1[k] == ms1[k]);
                assert(t2[k] == ms2[k]);
                assert(t1[k].id@ == t2[k].id@);
            } else {
                let j = k - (ms1.len() - n);
                assert(ms1.skip(ms1.len() - n)[j] == ms1[k]);
                assert(ms2.skip(ms2.len() - n)[j] == ms2[k]);
                assert(spec_chunk_meta(
                    ms1.skip(ms1.len() - n)[j],
                    files.last().path@,
                    content,
                    c,
                    o,
                    j,
                ));
                assert(spec_chunk_meta(
                    ms2.skip(ms2.len() - n)[j],
                    files.last().path@,
                    content,
                    c,
                    o,
                    j,
                ));
            }
        }
    }
}

/// Upsert idempotence of re-indexing: indexing the same unchanged files
/// twice leaves the document count where the first run put it, because
/// both runs produce documents under the same `{path}_chunk_{i}` ids and
/// the second run's ids are all already present.
pub proof fn lemma_reindex_count(
    docs: Seq<Document>,
    ms1: Seq<PendingChunk>,
    ds1: Seq<Document>,
    ms2: Seq<PendingChunk>,
    ds2: Seq<Document>,
    files: Seq<IndexedFile>,
    c: int,
    o: int,
    dim: int,
)
    requires
        forall|i: int| 0 <= i < docs.len() ==> store::spec_valid_doc(#[trigger] docs[i], dim),
        store::spec_ids_unique(docs),
        spec_files_metas(ms1, files, c, o),
        spec_files_metas(ms2, files, c, o),
        ds1.len() == ms1.len(),
        ds2.len() == ms2.len(),
        forall|k: int|
            0 <= k < ds1.len() ==> spec_doc_matches_pending(#[trigger] ds1[k], ms1[k])
                && store::spec_valid_doc(ds1[k], dim),
        forall|k: int|
            0 <= k < ds2.len() ==> spec_doc_matches_pending(#[trigger] ds2[k], ms2[k])
                && store::spec_valid_doc(ds2[k], dim),
    ensures
        store::spec_upsert(store::spec_upsert(docs, ds1), ds2).len() == store::spec_upsert(
            docs,
            ds1,
        ).len(),
{
    lemma_files_metas_ids(ms1, ms2, files, c, o);
    assert(store::spec_ids(ds2) =~= store::spec_ids(ds1)) by {
        assert forall|k: int| 0 <= k < ds2.len() implies store::spec_ids(ds2)[k]
            == store::spec_ids(ds1)[k] by {
            assert(ds2[k].id@ == ms2[k].id@);
            assert(ds1[k].id@ == ms1[k].id@);
            assert(ms1[k].id@ == ms2[k].id@);
        }
    }
    store::lemma_index_twice_count(docs, ds1, ds2, dim);
}

/// How many of the files contribute chunks when indexed: those with
/// non-empty content whose chunking yields at least one chunk.
pub open spec fn spec_indexed_count(files: Seq<IndexedFile>, c: int, o: int) -> int
    decreases files.len(),
{
    if files.len() == 0 {
        0
    } else {
        spec_indexed_count(files.drop_last(), c, o) + if files.last().content@.len() > 0
            && chunker::spec_chunks(encode_utf8(files.last().content@), c, o).len() > 0 {
            1int
        } else {
            0int
        }
    }
}

/// The formatted retrieval context: empty for no results; otherwise the
/// fixed header followed by one numbered block per result.
pub open spec fn spec_context_items(rs: Seq<SearchResult>, i: int) -> Seq<char>
    decreases rs.len() - i,
{
    if i < 0 || i >= rs.len() {
        Seq::empty()
    } else {
        "\n["@ + strutil::spec_dec(i + 1) + "] "@ + rs[i].document.content@ + "\n"@
            + spec_context_items(rs, i + 1)
    }
}

pub open spec fn spec_format_context(rs: Seq<SearchResult>) -> Seq<char> {
    if rs.len() == 0 {
        Seq::empty()
    } else {
        "\n\nRelevant context from your knowledge base:\n"@ + spec_context_items(rs, 0)
    }
}

/// Format search results as context for the prompt: the fixed header,
/// then `\n[{i}] {content}\n` for each result, numbered from 1.
pub fn format_context(results: &Vec<SearchResult>) -> (r: String)
    ensures
        r@ == spec_format_context(results@),
{
    let n = results.len();
    if n == 0 {
        return String::new();
    }
    let mut s = String::from_str("\n\nRelevant context from your knowledge base:\n");
    let mut i: usize = 0;
    while i < n
        invariant
            n == results@.len(),
            0 <= i <= n,
            s@ + spec_context_items(results@, i as int) == spec_format_context(results@),
        decreases n - i,
    {
        s.append("\n[");
        let d = strutil::usize_to_string(i + 1);
        s.append(d.as_str());
        s.append("] ");
        s.append(results[i].document.content.as_str());
        s.append("\n");
        i = i + 1;
    }
    s
}

/// Select the vector store that the storage configuration names. The
/// embedded store is this crate's; a remote server is outside the
/// verified engine and is refused here.
pub fn create_vector_store(storage: &StorageConfig, dim: usize) -> (r: Result<
    VectorStore,
    RagError,
>)
    ensures
        match r {
            Ok(s) => {
                &&& storage.storage_mode is Embedded
                &&& dim <= store::MAX_DIM
                &&& s.wf()
                &&& s.docs@.len() == 0
                &&& s.dim == dim
                &&& s.top_k == storage.top_k
            },
            Err(_) => !(storage.storage_mode is Embedded) || dim > store::MAX_DIM,
        },
{
    if dim > store::MAX_DIM {
        return Err(RagError::Retrieval(String::from_str("embedding dimension too large")));
    }
    match &storage.storage_mode {
        StorageMode::Embedded { .. } => Ok(VectorStore::new(dim, storage.top_k)),
        StorageMode::Grpc { .. } => Err(
            RagError::Retrieval(
                String::from_str("remote vector storage runs outside this engine"),
            ),
        ),
    }
}

/// The context text that a search over these documents yields for this
/// query embedding: the exact formatting of a full top-k search result.
pub open spec fn spec_context_of_search(
    docs: Seq<Document>,
    top_k: int,
    q: Seq<i64>,
    text: Seq<char>,
) -> bool {
    exists|rs: Seq<SearchResult>, ix: Seq<int>|
        {
            &&& #[trigger] store::spec_search_witness(docs, q, rs, ix)
            &&& rs.len() == if top_k <= docs.len() {
                top_k
            } else {
                docs.len() as int
            }
            &&& text == spec_format_context(rs)
        }
}

/// What retrieval yields for a query embedding: the empty text exactly
/// when the store is empty or the embedding does not fit it, and
/// otherwise the formatting of an actual full search for that embedding.
pub open spec fn spec_retrieval_outcome(s: VectorStore, q: Seq<i64>, text: Seq<char>) -> bool {
    if s.docs@.len() == 0 || q.len() != s.dim || !store::spec_bounded(q) {
        text == Seq::<char>::empty()
    } else {
        spec_context_of_search(s.docs@, s.top_k as int, q, text)
    }
}

/// The served context text is the retrieval outcome for some query
/// embedding — the one the provider handed back.
pub open spec fn spec_served_context(s: VectorStore, text: Seq<char>) -> bool {
    exists|qe: Seq<i64>| #[trigger] spec_retrieval_outcome(s, qe, text)
}

/// An outcome for one particular embedding witnesses a served context.
pub proof fn lemma_served_context(s: VectorStore, q: Seq<i64>, text: Seq<char>)
    requires
        spec_retrieval_outcome(s, q, text),
    ensures
        spec_served_context(s, text),
{
}

/// The retrieval engine: an embedder, the vector store, and the chunking
/// parameters.
#[derive(Debug)]
pub struct RagEngine {
    pub embedder: Embedder,
    pub store: VectorStore,
    pub chunk_size: usize,
    pub chunk_overlap: usize,
}

/// How many chunks are buffered before one embedding batch is flushed.
pub const BATCH_SIZE: usize = 32;

impl RagEngine {
    pub open spec fn wf(&self) -> bool {
        &&& self.store.wf()
        &&& self.chunk_overlap < self.chunk_size
    }

    /// Build an engine from the retrieval and storage configuration and
    /// the embedding dimension.
    pub fn new(config: &RagConfig, storage: &StorageConfig, dim: usize) -> (r: Result<
        RagEngine,
        RagError,
    >)
        ensures
            r matches Ok(e) ==> {
                &&& e.wf()
                &&& e.store.docs@.len() == 0
                &&& e.store.dim == dim
                &&& e.store.top_k == storage.top_k
                &&& e.chunk_size == config.chunk_size
                &&& e.chunk_overlap == config.chunk_overlap
                &&& e.embedder.model@ == config.embedding_model@
            },
    {
        if config.chunk_overlap >= config.chunk_size {
            return Err(
                RagError::Retrieval(
                    String::from_str("chunk overlap must be smaller than chunk size"),
                ),
            );
        }
        let store = match create_vector_store(storage, dim) {
            Ok(s) => s,
            Err(e) => {
                return Err(e);
            },
        };
        Ok(
            RagEngine {
                embedder: Embedder::new(config.embedding_model.clone()),
                store,
                chunk_size: config.chunk_size,
                chunk_overlap: config.chunk_overlap,
            },
        )
    }

    /// How many documents (chunks) the knowledge base holds.
    pub fn count(&self) -> (r: usize)
        ensures
            r == self.store.docs@.len(),
    {
        self.store.count()
    }

    /// Remove everything from the knowledge base.
    pub fn clear(&mut self)
        requires
            old(self).wf(),
        ensures
            final(self).wf(),
            final(self).store.docs@.len() == 0,
    {
        self.store.clear();
    }

    /// The distinct source paths indexed so far.
    pub fn get_indexed_paths(&self) -> (r: Vec<String>)
        ensures
            r.deep_view() == store::spec_indexed_paths(self.store.docs@),
    {
        self.store.get_indexed_paths()
    }

    /// Remove every chunk whose source equals the path or lies under it;
    /// returns how many were removed.
    pub fn remove_from_knowledge_base(&mut self, source_path: &str) -> (r: usize)
        requires
            old(self).wf(),
        ensures
            final(self).wf(),
            final(self).store.docs@ == store::spec_keep(
                old(self).store.docs@,
                source_path.spec_bytes(),
            ),
            r == old(self).store.docs@.len() - final(self).store.docs@.len(),
    {
        self.store.remove_by_source(source_path)
    }

    /// Add one piece of text to the knowledge base under a source label.
    /// The text is embedded as a single document with id
    /// `{source}_{count}`; a failure leaves the store unchanged. The id
    /// reuses the current count, so after removals it can coincide with
    /// an older id, in which case the insertion replaces that document —
    /// the contract states the upsert exactly.
    pub fn add_knowledge<P: Provider>(
        &mut self,
        provider: &mut P,
        content: &str,
        source: &str,
    ) -> (r: Result<(), RagError>)
        requires
            old(self).wf(),
        ensures
            final(self).wf(),
            final(self).chunk_size == old(self).chunk_size,
            final(self).chunk_overlap == old(self).chunk_overlap,
            r matches Ok(()) ==> exists|d: Document|
                {
                    &&& d.content@ == content@
                    &&& #[trigger] store::spec_doc_source(d) == Some(source@)
                    &&& d.id@ == source@ + "_"@ + strutil::spec_dec(
                        old(self).store.docs@.len() as int,
                    )
                    &&& final(self).store.docs@ == store::spec_upsert(
                        old(self).store.docs@,
                        seq![d],
                    )
                },
            r is Err ==> final(self).store.docs@ == old(self).store.docs@,
    {
        let embedding = match self.embedder.embed(provider, content) {
            Ok(e) => e,
            Err(e) => {
                return Err(RagError::Embedder(e));
            },
        };
        if !validate_embedding(&embedding, self.store.dim) {
            return Err(
                RagError::Retrieval(
                    String::from_str("provider returned an embedding that does not fit the store"),
                ),
            );
        }
        let count = self.store.count();
        let mut id = String::from_str(source);
        id.append("_");
        let d = strutil::usize_to_string(count);
        id.append(d.as_str());
        let ghost id_view = id@;
        let document = Document::new(id, String::from_str(content), embedding).with_metadata(
            String::from_str("source"),
            String::from_str(source),
        );
        proof {
            assert(document.metadata@.len() == 1);
            assert(document.metadata@.last().0@ == "source"@);
            assert(store::spec_doc_source(document) == Some(source@));
        }
        let ghost old_docs = self.store.docs@;
        let mut batch: Vec<Document> = Vec::new();
        batch.push(document);
        let ghost doc_ghost = batch@[0];
        match self.store.add(batch) {
            Ok(()) => {
                proof {
                    assert(self.store.docs@ == store::spec_upsert(old_docs, seq![doc_ghost]))
                        by {
                        assert(seq![doc_ghost] =~= Seq::empty().push(doc_ghost));
                    }
                }
                Ok(())
            },
            Err(_) => Err(
                RagError::Retrieval(String::from_str("could not insert into the vector store")),
            ),
        }
    }

    /// Embed the buffered chunks as one batch and insert the resulting
    /// documents. On success the buffers are empty and the store holds an
    /// upsert of documents carrying exactly the buffered ids, contents and
    /// sources; any failure leaves the store unchanged.
    fn process_batch<P: Provider>(
        &mut self,
        provider: &mut P,
        chunk_batch: &mut Vec<String>,
        chunk_metadata: &mut Vec<PendingChunk>,
    ) -> (r: Result<(), RagError>)
        requires
            old(self).wf(),
            old(chunk_batch)@.len() == old(chunk_metadata)@.len(),
        ensures
            final(self).wf(),
            final(self).chunk_size == old(self).chunk_size,
            final(self).chunk_overlap == old(self).chunk_overlap,
            final(self).store.dim == old(self).store.dim,
            final(self).store.top_k == old(self).store.top_k,
            r is Ok ==> final(chunk_batch)@.len() == 0 && final(chunk_metadata)@.len() == 0,
            r is Ok ==> spec_batch_outcome(
                old(self).store.docs@,
                old(chunk_metadata)@,
                final(self).store.docs@,
                old(self).store.dim as int,
            ),
            r is Err ==> final(self).store.docs@ == old(self).store.docs@,
    {
        let embeddings = match self.embedder.embed_batch(provider, chunk_batch) {
            Ok(e) => e,
            Err(e) => {
                return Err(RagError::Embedder(e));
            },
        };
        let mut embs = embeddings;
        let ghost metas = chunk_metadata@;
        let mut docs: Vec<Document> = Vec::new();
        let mut k: usize = 0;
        let n = chunk_metadata.len();
        while chunk_metadata.len() > 0
            invariant
                metas.len() == n,
                0 <= k <= n,
                chunk_metadata@ == metas.skip(k as int),
                embs@.len() == chunk_metadata@.len(),
                docs@.len() == k,
                forall|p: int|
                    0 <= p < k ==> spec_doc_matches_pending(#[trigger] docs@[p], metas[p]),
            decreases chunk_metadata@.len(),
        {
            assert(k < n) by {
                assert(metas.skip(k as int).len() == metas.len() - k);
            }
            let meta = chunk_metadata.remove(0);
            let emb = embs.remove(0);
            assert(meta == metas[k as int]) by {
                assert(metas.skip(k as int)[0] == metas[k as int]);
            }
            proof {
                assert(chunk_metadata@ =~= metas.skip(k + 1));
            }
            let idx_text = strutil::usize_to_string(meta.index);
            let d = Document::new(meta.id, meta.content, emb).with_metadata(
                String::from_str("source"),
                meta.source,
            ).with_metadata(String::from_str("chunk"), idx_text);
            proof {
                let m = d.metadata@;
                assert(m.len() == 2);
                assert(m[1].0@ == "chunk"@);
                assert(m[0].0@ == "source"@);
                assert(m[0].1@ == metas[k as int].source@);
                reveal_strlit("source");
                reveal_strlit("chunk");
                assert("chunk"@ != "source"@) by {
                    assert("chunk"@.len() == 5);
                    assert("source"@.len() == 6);
                }
                assert(m.last() == m[1]);
                assert(m.drop_last().len() == 1);
                assert(m.drop_last().last() == m[0]);
                assert(store::spec_meta_get(m, "source"@) == store::spec_meta_get(
                    m.drop_last(),
                    "source"@,
                ));
                assert(store::spec_meta_get(m.drop_last(), "source"@) == Some(m[0].1@));
                assert(store::spec_doc_source(d) == Some(metas[k as int].source@));
            }
            docs.push(d);
            k = k + 1;
        }
        chunk_batch.clear();
        let ghost built = docs@;
        let ghost old_docs = self.store.docs@;
        match self.store.add(docs) {
            Ok(()) => {
                proof {
                    assert(metas.skip(k as int).len() == 0);
                    assert(metas.skip(k as int) =~= Seq::<PendingChunk>::empty());
                    assert(k == n);
                    assert(store::spec_upsert(old_docs, built) == self.store.docs@);
                }
                Ok(())
            },
            Err(_) => Err(
                RagError::Retrieval(String::from_str("could not insert into the vector store")),
            ),
        }
    }

    /// Chunk one file's content and index every chunk, embedding them one
    /// at a time. Returns how many chunks the file produced; the store
    /// ends as the upsert of one document per chunk, in order, with ids
    /// `{path}_chunk_{i}`. A failure leaves the upsert of a prefix of
    /// those documents: the chunks already committed remain.
    pub fn index_file<P: Provider>(
        &mut self,
        provider: &mut P,
        path: &str,
        content: &str,
    ) -> (r: Result<usize, RagError>)
        requires
            old(self).wf(),
        ensures
            final(self).wf(),
            final(self).chunk_size == old(self).chunk_size,
            final(self).chunk_overlap == old(self).chunk_overlap,
            final(self).store.dim == old(self).store.dim,
            final(self).store.top_k == old(self).store.top_k,
            r matches Ok(n) ==> {
                &&& n == chunker::spec_chunks(
                    content.spec_bytes(),
                    old(self).chunk_size as int,
                    old(self).chunk_overlap as int,
                ).len()
                &&& exists|ds: Seq<Document>|
                    {
                        &&& #[trigger] spec_file_docs(
                            ds,
                            path@,
                            content@,
                            old(self).chunk_size as int,
                            old(self).chunk_overlap as int,
                            old(self).store.dim as int,
                        )
                        &&& final(self).store.docs@ == store::spec_upsert(
                            old(self).store.docs@,
                            ds,
                        )
                    }
            },
            r is Err ==> exists|ds: Seq<Document>|
                {
                    &&& #[trigger] spec_file_docs_upto(
                        ds,
                        path@,
                        content@,
                        old(self).chunk_size as int,
                        old(self).chunk_overlap as int,
                        old(self).store.dim as int,
                    )
                    &&& final(self).store.docs@ == store::spec_upsert(old(self).store.docs@, ds)
                },
    {
        let ghost b = content.spec_bytes();
        let ghost c = self.chunk_size as int;
        let ghost o = self.chunk_overlap as int;
        let ghost dim = self.store.dim as int;
        let ghost orig = self.store.docs@;
        let chunks = chunker::chunk_text(content, self.chunk_size, self.chunk_overlap);
        let n = chunks.len();
        let ghost all_chunks = chunks@;
        proof {
            assert(content.spec_bytes() == encode_utf8(content@));
            assert(chunks.deep_view().len() == all_chunks.len());
            assert(forall|k: int|
                0 <= k < all_chunks.len() ==> #[trigger] all_chunks[k]@ == chunks.deep_view()[k]);
        }
        let mut rest = chunks;
        let mut i: usize = 0;
        let ghost mut committed: Seq<Document> = Seq::empty();
        while rest.len() > 0
            invariant
                old(self).wf(),
                self.wf(),
                self.chunk_size == old(self).chunk_size,
                self.chunk_overlap == old(self).chunk_overlap,
                self.store.dim == old(self).store.dim,
                self.store.top_k == old(self).store.top_k,
                b == content.spec_bytes(),
                b == encode_utf8(content@),
                c == old(self).chunk_size as int,
                o == old(self).chunk_overlap as int,
                dim == old(self).store.dim as int,
                orig == old(self).store.docs@,
                all_chunks.len() == n,
                n == chunker::spec_chunks(b, c, o).len(),
                forall|k: int|
                    0 <= k < n ==> encode_utf8(#[trigger] all_chunks[k]@) == b.subrange(
                        chunker::spec_chunks(b, c, o)[k].0,
                        chunker::spec_chunks(b, c, o)[k].1,
                    ),
                0 <= i <= n,
                rest@ == all_chunks.skip(i as int),
                committed.len() == i,
                spec_file_docs_upto(committed, path@, content@, c, o, dim),
                self.store.docs@ == store::spec_upsert(orig, committed),
            decreases rest@.len(),
        {
            assert(i < n) by {
                assert(all_chunks.skip(i as int).len() == all_chunks.len() - i);
            }
            let chunk = rest.remove(0);
            assert(chunk == all_chunks[i as int]) by {
                assert(all_chunks.skip(i as int)[0] == all_chunks[i as int]);
            }
            proof {
                assert(rest@ =~= all_chunks.skip(i + 1));
            }
            let embedding = match self.embedder.embed(provider, chunk.as_str()) {
                Ok(e) => e,
                Err(e) => {
                    proof {
                        assert(spec_file_docs_upto(committed, path@, content@, c, o, dim));
                    }
                    return Err(RagError::Embedder(e));
                },
            };
            if !validate_embedding(&embedding, self.store.dim) {
                proof {
                    assert(spec_file_docs_upto(committed, path@, content@, c, o, dim));
                }
                return Err(
                    RagError::Retrieval(
                        String::from_str(
                            "provider returned an embedding that does not fit the store",
                        ),
                    ),
                );
            }
            let id = make_chunk_id(path, i);
            let idx_text = strutil::usize_to_string(i);
            let document = Document::new(id, chunk, embedding).with_metadata(
                String::from_str("source"),
                String::from_str(path),
            ).with_metadata(String::from_str("chunk"), idx_text);
            proof {
                let m = document.metadata@;
                assert(m.len() == 2);
                assert(m[1].0@ == "chunk"@);
                assert(m[0].0@ == "source"@);
                assert(m[0].1@ == path@);
                reveal_strlit("source");
                reveal_strlit("chunk");
                assert("chunk"@ != "source"@) by {
                    assert("chunk"@.len() == 5);
                    assert("source"@.len() == 6);
                }
                assert(m.last() == m[1]);
                assert(m.drop_last().len() == 1);
                assert(m.drop_last().last() == m[0]);
                assert(store::spec_meta_get(m, "source"@) == store::spec_meta_get(
                    m.drop_last(),
                    "source"@,
                ));
                assert(store::spec_meta_get(m.drop_last(), "source"@) == Some(path@));
                assert(store::spec_doc_source(document) == Some(path@));
            }
            let ghost d = document;
            let ghost docs_before = self.store.docs@;
            let mut batch: Vec<Document> = Vec::new();
            batch.push(document);
            if self.store.add(batch).is_err() {
                proof {
                    assert(spec_file_docs_upto(committed, path@, content@, c, o, dim));
                }
                return Err(
                    RagError::Retrieval(
                        String::from_str("could not insert into the vector store"),
                    ),
                );
            }
            proof {
                assert(self.store.docs@ == store::spec_upsert(docs_before, seq![d]));
                assert(seq![d][0] == d);
                assert(seq![d].drop_first() =~= Seq::<Document>::empty());
                assert(store::spec_upsert(docs_before, seq![d]) == store::spec_upsert(
                    store::spec_upsert_one(docs_before, d),
                    seq![d].drop_first(),
                ));
                assert(store::spec_upsert(
                    store::spec_upsert_one(docs_before, d),
                    seq![d].drop_first(),
                ) == store::spec_upsert_one(docs_before, d));
                store::lemma_upsert_push(orig, committed, d);
                assert(spec_chunk_doc(d, path@, content@, c, o, i as int, dim));
                committed = committed.push(d);
                assert(spec_file_docs_upto(committed, path@, content@, c, o, dim)) by {
                    assert(forall|k: int|
                        0 <= k < committed.len() - 1 ==> #[trigger] committed[k]
                            == committed.drop_last()[k]);
                }
            }
            i = i + 1;
        }
        proof {
            assert(all_chunks.skip(i as int).len() == 0);
            assert(i == n);
            assert(spec_file_docs(committed, path@, content@, c, o, dim));
        }
        Ok(n)
    }

    /// Index a set of collected files: chunk each file, buffer the chunks,
    /// embed them in batches of [`BATCH_SIZE`], and insert the documents.
    /// Returns how many files contributed chunks. On success the store is
    /// the upsert of one document per chunk of every file, in file-and-
    /// chunk order, with ids `{path}_chunk_{i}` — so re-indexing an
    /// unchanged file replaces its chunks instead of duplicating them. A
    /// failure leaves the store as the upsert of the batches already
    /// committed, each drawn from these files' chunks.
    pub fn index_files<P: Provider>(&mut self, provider: &mut P, files: &Vec<IndexedFile>) -> (r:
        Result<usize, RagError>)
        requires
            old(self).wf(),
        ensures
            final(self).wf(),
            final(self).chunk_size == old(self).chunk_size,
            final(self).chunk_overlap == old(self).chunk_overlap,
            final(self).store.dim == old(self).store.dim,
            final(self).store.top_k == old(self).store.top_k,
            r matches Ok(n) ==> {
                &&& n == spec_indexed_count(
                    files@,
                    old(self).chunk_size as int,
                    old(self).chunk_overlap as int,
                )
                &&& exists|ms: Seq<PendingChunk>, ds: Seq<Document>|
                    #![trigger spec_files_metas(ms, files@, old(self).chunk_size as int, old(self).chunk_overlap as int), store::spec_upsert(old(self).store.docs@, ds)]
                    {
                        &&& spec_files_metas(
                            ms,
                            files@,
                            old(self).chunk_size as int,
                            old(self).chunk_overlap as int,
                        )
                        &&& ds.len() == ms.len()
                        &&& (forall|k: int|
                            0 <= k < ds.len() ==> spec_doc_matches_pending(
                                #[trigger] ds[k],
                                ms[k],
                            ) && store::spec_valid_doc(ds[k], old(self).store.dim as int))
                        &&& final(self).store.docs@ == store::spec_upsert(
                            old(self).store.docs@,
                            ds,
                        )
                    }
            },
            r is Err ==> exists|ms: Seq<PendingChunk>, ds: Seq<Document>|
                #![trigger spec_metas_from_files(ms, files@, old(self).chunk_size as int, old(self).chunk_overlap as int), store::spec_upsert(old(self).store.docs@, ds)]
                {
                    &&& spec_metas_from_files(
                        ms,
                        files@,
                        old(self).chunk_size as int,
                        old(self).chunk_overlap as int,
                    )
                    &&& ds.len() == ms.len()
                    &&& (forall|k: int|
                        0 <= k < ds.len() ==> spec_doc_matches_pending(#[trigger] ds[k], ms[k])
                            && store::spec_valid_doc(ds[k], old(self).store.dim as int))
                    &&& final(self).store.docs@ == store::spec_upsert(old(self).store.docs@, ds)
                },
    {
        let ghost cc = self.chunk_size as int;
        let ghost oo = self.chunk_overlap as int;
        let ghost dim = self.store.dim as int;
        let ghost orig = self.store.docs@;
        let nf = files.len();
        let mut indexed: usize = 0;
        let mut chunk_batch: Vec<String> = Vec::new();
        let mut chunk_metadata: Vec<PendingChunk> = Vec::new();
        let ghost mut flushed: Seq<PendingChunk> = Seq::empty();
        let ghost mut committed: Seq<Document> = Seq::empty();
        let mut f: usize = 0;
        while f < nf
            invariant
                old(self).wf(),
                self.wf(),
                self.chunk_size == old(self).chunk_size,
                self.chunk_overlap == old(self).chunk_overlap,
                self.store.dim == old(self).store.dim,
                self.store.top_k == old(self).store.top_k,
                cc == old(self).chunk_size as int,
                oo == old(self).chunk_overlap as int,
                dim == old(self).store.dim as int,
                orig == old(self).store.docs@,
                nf == files@.len(),
                0 <= f <= nf,
                indexed == spec_indexed_count(files@.take(f as int), cc, oo),
                indexed <= f,
                chunk_batch@.len() == chunk_metadata@.len(),
                committed.len() == flushed.len(),
                forall|k: int|
                    0 <= k < committed.len() ==> spec_doc_matches_pending(
                        #[trigger] committed[k],
                        flushed[k],
                    ) && store::spec_valid_doc(committed[k], dim),
                self.store.docs@ == store::spec_upsert(orig, committed),
                spec_files_metas(flushed + chunk_metadata@, files@.take(f as int), cc, oo),
                spec_metas_from_files(flushed + chunk_metadata@, files@, cc, oo),
            decreases nf - f,
        {
            proof {
                assert(files@.take(f + 1).drop_last() =~= files@.take(f as int));
                assert(files@.take(f + 1).last() == files@[f as int]);
            }
            let file = &files[f];
            let ghost fpath = files@[f as int].path@;
            let ghost fcontent = files@[f as int].content@;
            let ghost all0 = flushed + chunk_metadata@;
            if file.content.as_str().is_empty() {
                proof {
                    // An empty file contributes no chunks: its group in the
                    // metadata is empty.
                    assert(chunker::spec_chunks(encode_utf8(fcontent), cc, oo).len() == 0);
                    assert(all0.take(all0.len() as int) =~= all0);
                    assert(all0.skip(all0.len() as int) =~= Seq::<PendingChunk>::empty());
                    assert(spec_file_metas(
                        all0.skip(all0.len() as int),
                        fpath,
                        fcontent,
                        cc,
                        oo,
                    ));
                    assert(spec_files_metas(all0, files@.take(f + 1), cc, oo));
                }
                f = f + 1;
                continue ;
            }
            let chunks = chunker::chunk_text(
                file.content.as_str(),
                self.chunk_size,
                self.chunk_overlap,
            );
            let ghost all_chunks = chunks@;
            let ghost b = encode_utf8(fcontent);
            proof {
                assert(encode_utf8(file.content@) == b);
                assert(chunks.deep_view().len() == all_chunks.len());
                assert(forall|k: int|
                    0 <= k < all_chunks.len() ==> #[trigger] all_chunks[k]@
                        == chunks.deep_view()[k]);
            }
            if chunks.len() == 0 {
                proof {
                    assert(chunker::spec_chunks(b, cc, oo).len() == 0);
                    assert(all0.take(all0.len() as int) =~= all0);
                    assert(all0.skip(all0.len() as int) =~= Seq::<PendingChunk>::empty());
                    assert(spec_file_metas(
                        all0.skip(all0.len() as int),
                        fpath,
                        fcontent,
                        cc,
                        oo,
                    ));
                    assert(spec_files_metas(all0, files@.take(f + 1), cc, oo));
                }
                f = f + 1;
                continue ;
            }
            let mut rest = chunks;
            let total = rest.len();
            proof {
                let all = flushed + chunk_metadata@;
                assert(all.take(all.len() as int) =~= all);
            }
            let mut i: usize = 0;
            while rest.len() > 0
                invariant
                    old(self).wf(),
                    self.wf(),
                    self.chunk_size == old(self).chunk_size,
                    self.chunk_overlap == old(self).chunk_overlap,
                    self.store.dim == old(self).store.dim,
                    self.store.top_k == old(self).store.top_k,
                    cc == old(self).chunk_size as int,
                    oo == old(self).chunk_overlap as int,
                    dim == old(self).store.dim as int,
                    orig == old(self).store.docs@,
                    nf == files@.len(),
                    0 <= f < nf,
                    *file == files@[f as int],
                    fpath == files@[f as int].path@,
                    fcontent == files@[f as int].content@,
                    b == encode_utf8(fcontent),
                    all_chunks.len() == total,
                    total == chunker::spec_chunks(b, cc, oo).len(),
                    forall|k: int|
                        0 <= k < total ==> encode_utf8(#[trigger] all_chunks[k]@) == b.subrange(
                            chunker::spec_chunks(b, cc, oo)[k].0,
                            chunker::spec_chunks(b, cc, oo)[k].1,
                        ),
                    0 <= i <= total,
                    i + rest@.len() == total,
                    rest@ == all_chunks.skip(i as int),
                    chunk_batch@.len() == chunk_metadata@.len(),
                    committed.len() == flushed.len(),
                    forall|k: int|
                        0 <= k < committed.len() ==> spec_doc_matches_pending(
                            #[trigger] committed[k],
                            flushed[k],
                        ) && store::spec_valid_doc(committed[k], dim),
                    self.store.docs@ == store::spec_upsert(orig, committed),
                    (flushed + chunk_metadata@).len() >= i,
                    spec_files_metas(
                        (flushed + chunk_metadata@).take((flushed + chunk_metadata@).len() - i),
                        files@.take(f as int),
                        cc,
                        oo,
                    ),
                    forall|k: int|
                        0 <= k < i ==> spec_chunk_meta(
                            #[trigger] (flushed + chunk_metadata@)[(flushed
                                + chunk_metadata@).len() - i + k],
                            fpath,
                            fcontent,
                            cc,
                            oo,
                            k,
                        ),
                    spec_metas_from_files(flushed + chunk_metadata@, files@, cc, oo),
                decreases rest@.len(),
            {
                assert(i < total) by {
                    assert(all_chunks.skip(i as int).len() == all_chunks.len() - i);
                }
                let chunk = rest.remove(0);
                assert(chunk == all_chunks[i as int]) by {
                    assert(all_chunks.skip(i as int)[0] == all_chunks[i as int]);
                }
                proof {
                    assert(rest@ =~= all_chunks.skip(i + 1));
                }
                let id = make_chunk_id(file.path.as_str(), i);
                let content_copy = chunk.clone();
                let ghost before_metas = flushed + chunk_metadata@;
                chunk_batch.push(chunk);
                chunk_metadata.push(
                    PendingChunk {
                        id,
                        content: content_copy,
                        source: file.path.clone(),
                        index: i,
                    },
                );
                proof {
                    let now = flushed + chunk_metadata@;
                    assert(now =~= before_metas.push(chunk_metadata@.last()));
                    assert(chunk_metadata@.last().id@ == spec_chunk_id(fpath, i as int));
                    assert(chunk_metadata@.last().content@ == all_chunks[i as int]@);
                    assert(encode_utf8(all_chunks[i as int]@) == b.subrange(
                        chunker::spec_chunks(b, cc, oo)[i as int].0,
                        chunker::spec_chunks(b, cc, oo)[i as int].1,
                    ));
                    assert(chunk_metadata@.last().source@ == fpath);
                    assert(chunk_metadata@.last().index == i);
                    assert(spec_chunk_meta(now[now.len() - 1], fpath, fcontent, cc, oo, i as int));
                    assert(now.take(now.len() - (i + 1)) =~= before_metas.take(
                        before_metas.len() - i,
                    ));
                    assert forall|k: int| 0 <= k < i + 1 implies spec_chunk_meta(
                        #[trigger] now[now.len() - (i + 1) + k],
                        fpath,
                        fcontent,
                        cc,
                        oo,
                        k,
                    ) by {
                        if k < i {
                            assert(now[now.len() - (i + 1) + k] == before_metas[before_metas.len()
                                - i + k]);
                        }
                    }
                    assert forall|k: int| 0 <= k < now.len() implies spec_meta_from(
                        #[trigger] now[k],
                        files@,
                        cc,
                        oo,
                    ) by {
                        if k < before_metas.len() {
                            assert(now[k] == before_metas[k]);
                        } else {
                            assert(spec_chunk_meta(
                                now[k],
                                files@[f as int].path@,
                                files@[f as int].content@,
                                cc,
                                oo,
                                i as int,
                            ));
                        }
                    }
                }
                if chunk_batch.len() >= BATCH_SIZE {
                    let ghost old_meta = chunk_metadata@;
                    let ghost docs_before = self.store.docs@;
                    match self.process_batch(provider, &mut chunk_batch, &mut chunk_metadata) {
                        Ok(()) => {
                            proof {
                                let bdocs = choose|bd: Seq<Document>|
                                    {
                                        &&& #[trigger] store::spec_upsert(docs_before, bd)
                                            == self.store.docs@
                                        &&& bd.len() == old_meta.len()
                                        &&& forall|k: int|
                                            0 <= k < bd.len() ==> spec_doc_matches_pending(
                                                #[trigger] bd[k],
                                                old_meta[k],
                                            ) && store::spec_valid_doc(bd[k], dim)
                                    };
                                store::lemma_upsert_concat(orig, committed, bdocs);
                                let new_committed = committed + bdocs;
                                let new_flushed = flushed + old_meta;
                                assert forall|k: int| 0 <= k < new_committed.len() implies
                                    spec_doc_matches_pending(
                                    #[trigger] new_committed[k],
                                    new_flushed[k],
                                ) && store::spec_valid_doc(new_committed[k], dim) by {
                                    if k < committed.len() {
                                        assert(new_committed[k] == committed[k]);
                                        assert(new_flushed[k] == flushed[k]);
                                    } else {
                                        assert(new_committed[k] == bdocs[k - committed.len()]);
                                        assert(new_flushed[k] == old_meta[k - committed.len()]);
                                    }
                                }
                                assert(new_flushed + chunk_metadata@ =~= flushed + old_meta);
                                committed = new_committed;
                                flushed = new_flushed;
                            }
                        },
                        Err(e) => {
                            proof {
                                assert(spec_metas_from_files(flushed, files@, cc, oo)) by {
                                    assert(forall|k: int|
                                        0 <= k < flushed.len() ==> #[trigger] flushed[k] == (
                                        flushed + old_meta)[k]);
                                }
                            }
                            return Err(e);
                        },
                    }
                }
                i = i + 1;
            }
            proof {
                // The whole file's chunk group now closes off: the
                // metadata splits into the earlier files' groups and this
                // file's complete chunk list.
                let all = flushed + chunk_metadata@;
                assert(i == total);
                assert(all.skip(all.len() - total).len() == total);
                assert forall|k: int| 0 <= k < total implies spec_chunk_meta(
                    #[trigger] all.skip(all.len() - total)[k],
                    fpath,
                    fcontent,
                    cc,
                    oo,
                    k,
                ) by {
                    assert(all.skip(all.len() - total)[k] == all[all.len() - total + k]);
                    assert(spec_chunk_meta(all[all.len() - total + k], fpath, fcontent, cc, oo, k));
                }
                assert(spec_file_metas(all.skip(all.len() - total), fpath, fcontent, cc, oo));
                assert(spec_files_metas(all, files@.take(f + 1), cc, oo));
            }
            indexed = indexed + 1;
            f = f + 1;
        }
        proof {
            assert(files@.take(nf as int) =~= files@);
        }
        if chunk_batch.len() > 0 {
            let ghost old_meta = chunk_metadata@;
            let ghost docs_before = self.store.docs@;
            match self.process_batch(provider, &mut chunk_batch, &mut chunk_metadata) {
                Ok(()) => {
                    proof {
                        let bdocs = choose|bd: Seq<Document>|
                            {
                                &&& #[trigger] store::spec_upsert(docs_before, bd)
                                    == self.store.docs@
                                &&& bd.len() == old_meta.len()
                                &&& forall|k: int|
                                    0 <= k < bd.len() ==> spec_doc_matches_pending(
                                        #[trigger] bd[k],
                                        old_meta[k],
                                    ) && store::spec_valid_doc(bd[k], dim)
                            };
                        store::lemma_upsert_concat(orig, committed, bdocs);
                        let new_committed = committed + bdocs;
                        let new_flushed = flushed + old_meta;
                        assert forall|k: int| 0 <= k < new_committed.len() implies
                            spec_doc_matches_pending(
                            #[trigger] new_committed[k],
                            new_flushed[k],
                        ) && store::spec_valid_doc(new_committed[k], dim) by {
                            if k < committed.len() {
                                assert(new_committed[k] == committed[k]);
                                assert(new_flushed[k] == flushed[k]);
                            } else {
                                assert(new_committed[k] == bdocs[k - committed.len()]);
                                assert(new_flushed[k] == old_meta[k - committed.len()]);
                            }
                        }
                        assert(new_flushed + chunk_metadata@ =~= flushed + old_meta);
                        committed = new_committed;
                        flushed = new_flushed;
                    }
                },
                Err(e) => {
                    proof {
                        assert(spec_metas_from_files(flushed, files@, cc, oo)) by {
                            assert(forall|k: int|
                                0 <= k < flushed.len() ==> #[trigger] flushed[k] == (flushed
                                    + old_meta)[k]);
                        }
                    }
                    return Err(e);
                },
            }
        }
        proof {
            assert(flushed + chunk_metadata@ =~= flushed);
            assert(spec_files_metas(flushed, files@, cc, oo));
        }
        Ok(indexed)
    }

    /// Retrieve formatted context for an already-computed query embedding:
    /// empty exactly when the knowledge base is empty or the embedding
    /// does not fit the store; otherwise the formatting of the full top-k
    /// search for that embedding.
    pub fn retrieve_context_with(&self, query_embedding: &Vec<i64>) -> (r: String)
        requires
            self.wf(),
        ensures
            spec_retrieval_outcome(self.store, query_embedding@, r@),
    {
        if self.store.count() == 0 {
            return String::new();
        }
        if !validate_embedding(query_embedding, self.store.dim) {
            return String::new();
        }
        let results = self.store.search(query_embedding);
        let r = format_context(&results);
        proof {
            let ix = choose|ix: Seq<int>|
                store::spec_search_witness(self.store.docs@, query_embedding@, results@, ix);
            assert(store::spec_search_witness(self.store.docs@, query_embedding@, results@, ix));
            assert(spec_context_of_search(
                self.store.docs@,
                self.store.top_k as int,
                query_embedding@,
                r@,
            ));
        }
        r
    }

    /// Retrieve formatted context for a query: empty for an empty
    /// knowledge base; otherwise the query is embedded and the result is
    /// the retrieval outcome for the embedding the provider returned. An
    /// embedding failure surfaces as an error and changes nothing.
    pub fn retrieve_context<P: Provider>(&mut self, provider: &mut P, query: &str) -> (r: Result<
        String,
        RagError,
    >)
        requires
            old(self).wf(),
        ensures
            *final(self) == *old(self),
            old(self).store.docs@.len() == 0 ==> (r matches Ok(s) && s@ == Seq::<char>::empty()),
            match r {
                Ok(s) => spec_served_context(old(self).store, s@),
                Err(e) => e is Embedder,
            },
    {
        if self.store.count() == 0 {
            let s = String::new();
            proof {
                lemma_served_context(old(self).store, Seq::<i64>::empty(), s@);
            }
            return Ok(s);
        }
        let q = match self.embedder.embed(provider, query) {
            Ok(q) => q,
            Err(e) => {
                return Err(RagError::Embedder(e));
            },
        };
        let s = self.retrieve_context_with(&q);
        proof {
            assert(self.store == old(self).store);
            lemma_served_context(old(self).store, q@, s@);
        }
        Ok(s)
    }
}

} // verus!
