//! The request protocol of the local IPC server, and the handler that
//! maps requests to engine operations.
//!
//! Responses are framed as a list of stream-chunk records: any number of
//! partial `chunk` records, then one `done` record with the complete
//! text, or one `error` record. The socket itself is plain I/O and stays
//! outside; it hands decoded requests in and writes the returned records
//! out.

use vstd::prelude::*;
use vstd::string::StringExecFns;

use crate::chat::spec_query_trace;
use crate::chat::ChatManager;
use crate::chat::ToolRunner;
use crate::indexer::IndexedFile;
use crate::provider::ChunkSink;
use crate::provider::Message;
use crate::provider::Provider;
use crate::rag::spec_files_metas;
use crate::rag::spec_indexed_count;
use crate::rag::PendingChunk;
use crate::store;
use crate::store::Document;
use crate::strutil;

verus! {

/// What a client asks for.
#[derive(Debug, Clone, Copy, PartialEq, Eq, Structural)]
pub enum RequestType {
    /// Chat with the assistant (streaming response).
    Chat,
    /// Edit assistance (streaming response).
    Edit,
    /// Add text to the knowledge base.
    Add,
    /// Index a directory.
    Index,
    /// Knowledge-base statistics.
    Stats,
}

/// The kind of one response record.
#[derive(Debug, Clone, Copy, PartialEq, Eq, Structural)]
pub enum ChunkType {
    /// Partial response text.
    Chunk,
    /// Final record, carrying the complete text.
    Done,
    /// A failure, detailed in the error field.
    Error,
}

/// A message of the client-kept conversation history.
#[derive(Debug, Clone, PartialEq, Eq)]
pub struct HistoryMessage {
    pub role: String,
    pub content: String,
}

/// A decoded client request.
#[derive(Debug, Clone, PartialEq, Eq)]
pub struct Request {
    pub request_type: RequestType,
    pub content: String,
    pub pwd: Option<String>,
    pub history: Option<Vec<HistoryMessage>>,
}

/// One framed response record.
#[derive(Debug, Clone, PartialEq, Eq)]
pub struct StreamChunk {
    pub chunk_type: ChunkType,
    pub content: String,
    pub error: Option<String>,
}

impl StreamChunk {
    /// A partial-text record.
    pub fn chunk(content: String) -> (r: StreamChunk)
        ensures
            r.chunk_type == ChunkType::Chunk,
            r.content@ == content@,
            r.error is None,
    {
        StreamChunk { chunk_type: ChunkType::Chunk, content, error: None }
    }

    /// The final record with the complete text.
    pub fn done(content: String) -> (r: StreamChunk)
        ensures
            r.chunk_type == ChunkType::Done,
            r.content@ == content@,
            r.error is None,
    {
        StreamChunk { chunk_type: ChunkType::Done, content, error: None }
    }

    /// A failure record.
    pub fn error(error: String) -> (r: StreamChunk)
        ensures
            r.chunk_type == ChunkType::Error,
            r.content@ == Seq::<char>::empty(),
            r.error matches Some(e) && e@ == error@,
    {
        StreamChunk { chunk_type: ChunkType::Error, content: String::new(), error: Some(error) }
    }
}

/// Collects the streamed deltas; its history is exactly the collected
/// parts.
pub struct RecordSink {
    pub parts: Vec<String>,
}

impl ChunkSink for RecordSink {
    open spec fn history(&self) -> Seq<Seq<char>> {
        self.parts.deep_view()
    }

    fn on_chunk(&mut self, chunk: &str)
        ensures
            final(self).history() == old(self).history().push(chunk@),
    {
        let ghost pre = self.parts.deep_view();
        self.parts.push(String::from_str(chunk));
        proof {
            assert(self.parts.deep_view() =~= pre.push(chunk@));
        }
    }
}

/// Routes requests to the engine and frames the replies. Chat and edit
/// requests flow through the tool-augmented, retrieval-injecting query
/// loop of the manager.
#[derive(Debug)]
pub struct RequestHandler<P, T> {
    pub system_prompt: String,
    pub manager: ChatManager<P, T>,
}

impl<P: Provider, T: ToolRunner> RequestHandler<P, T> {
    pub open spec fn wf(&self) -> bool {
        self.manager.wf()
    }

    /// Assemble a handler from its parts.
    pub fn new(system_prompt: String, manager: ChatManager<P, T>) -> (r: RequestHandler<P, T>)
        requires
            manager.wf(),
        ensures
            r.wf(),
            r.system_prompt@ == system_prompt@,
            r.manager == manager,
    {
        RequestHandler { system_prompt, manager }
    }

    /// A conversation seeded for a caller that manages its own history:
    /// the system prompt, the client's history as user messages, then the
    /// request content.
    pub fn build_messages(&self, request: &Request) -> (r: Vec<Message>)
        ensures
            r@.len() == 2 + (match request.history {
                Some(h) => h@.len(),
                None => 0,
            }),
            r@[0].role@ == "system"@ && r@[0].content@ == self.system_prompt@,
            r@.last().role@ == "user"@ && r@.last().content@ == request.content@,
            match request.history {
                Some(h) => forall|k: int|
                    0 <= k < h@.len() ==> (#[trigger] r@[k + 1]).role@ == "user"@ && r@[k
                        + 1].content@ == h@[k].content@,
                None => true,
            },
    {
        let mut messages: Vec<Message> = Vec::new();
        messages.push(Message::system(None, self.system_prompt.clone()));
        match &request.history {
            Some(h) => {
                let n = h.len();
                let mut i: usize = 0;
                while i < n
                    invariant
                        n == h@.len(),
                        0 <= i <= n,
                        messages@.len() == i + 1,
                        messages@[0].role@ == "system"@ && messages@[0].content@
                            == self.system_prompt@,
                        forall|k: int|
                            0 <= k < i ==> (#[trigger] messages@[k + 1]).role@ == "user"@
                                && messages@[k + 1].content@ == h@[k].content@,
                    decreases n - i,
                {
                    messages.push(Message::user(None, h[i].content.clone()));
                    i = i + 1;
                }
            },
            None => {},
        }
        messages.push(Message::user(None, request.content.clone()));
        messages
    }

    /// Handle a chat or edit request through the full query loop: the
    /// reply is one `chunk` record per streamed delta, in order, then a
    /// `done` record with the final text — the whole trace pinned to the
    /// conversation's rounds — or a single `error` record when the query
    /// failed.
    pub fn handle_chat(&mut self, request: &Request) -> (r: Vec<StreamChunk>)
        requires
            old(self).wf(),
        ensures
            final(self).wf(),
            final(self).system_prompt@ == old(self).system_prompt@,
            final(self).manager.registry == old(self).manager.registry,
            final(self).manager.rag == old(self).manager.rag,
            r@.len() >= 1,
            r@.last().chunk_type == ChunkType::Done || (r@.last().chunk_type == ChunkType::Error
                && r@.len() == 1),
            r@.last().chunk_type == ChunkType::Done ==> {
                &&& (forall|k: int|
                    0 <= k < r@.len() - 1 ==> (#[trigger] r@[k]).chunk_type == ChunkType::Chunk
                        && r@[k].error is None)
                &&& spec_query_trace(
                    r@.last().content@,
                    Seq::empty(),
                    Seq::new((r@.len() - 1) as nat, |k: int| r@[k].content@),
                    old(self).manager.runner.calls(),
                    final(self).manager.runner.calls(),
                )
            },
    {
        let mut sink = RecordSink { parts: Vec::new() };
        proof {
            assert(sink.history() =~= Seq::<Seq<char>>::empty());
        }
        let full = match self.manager.query_stream(request.content.as_str(), &mut sink) {
            Ok(full) => full,
            Err(_) => {
                let mut out: Vec<StreamChunk> = Vec::new();
                out.push(StreamChunk::error(String::from_str("chat request failed")));
                return out;
            },
        };
        let ghost deltas = sink.history();
        let mut out: Vec<StreamChunk> = Vec::new();
        let mut parts = sink.parts;
        let np = parts.len();
        let ghost parts_view = parts@;
        proof {
            assert(deltas.len() == np);
            assert(forall|k: int| 0 <= k < np ==> (#[trigger] parts_view[k])@ == deltas[k]);
        }
        let mut t: usize = 0;
        while parts.len() > 0
            invariant
                parts_view.len() == np,
                deltas.len() == np,
                forall|k: int| 0 <= k < np ==> (#[trigger] parts_view[k])@ == deltas[k],
                0 <= t <= np,
                parts@ == parts_view.skip(t as int),
                out@.len() == t,
                forall|k: int|
                    0 <= k < t ==> (#[trigger] out@[k]).chunk_type == ChunkType::Chunk
                        && out@[k].error is None && out@[k].content@ == deltas[k],
            decreases parts@.len(),
        {
            assert(t < np) by {
                assert(parts_view.skip(t as int).len() == parts_view.len() - t);
            }
            let part = parts.remove(0);
            assert(part == parts_view[t as int]) by {
                assert(parts_view.skip(t as int)[0] == parts_view[t as int]);
            }
            proof {
                assert(parts@ =~= parts_view.skip(t + 1));
            }
            out.push(StreamChunk::chunk(part));
            t = t + 1;
        }
        out.push(StreamChunk::done(full));
        proof {
            assert(Seq::new((out@.len() - 1) as nat, |k: int| out@[k].content@) =~= deltas);
        }
        out
    }

    /// Handle an add request: the content goes into the knowledge base
    /// under the `user_input` source; the single reply record reports the
    /// outcome, and a failure leaves the knowledge base unchanged.
    pub fn handle_add(&mut self, request: &Request) -> (r: Vec<StreamChunk>)
        requires
            old(self).wf(),
        ensures
            final(self).wf(),
            r@.len() == 1,
            r@[0].chunk_type == ChunkType::Done || r@[0].chunk_type == ChunkType::Error,
            r@[0].chunk_type == ChunkType::Done ==> {
                &&& r@[0].content@ == "Added to knowledge base"@
                &&& exists|d: Document|
                    {
                        &&& d.content@ == request.content@
                        &&& #[trigger] store::spec_doc_source(d) == Some("user_input"@)
                        &&& final(self).manager.rag.store.docs@ == store::spec_upsert(
                            old(self).manager.rag.store.docs@,
                            seq![d],
                        )
                    }
            },
            r@[0].chunk_type == ChunkType::Error ==> final(self).manager.rag.store.docs@ == old(
                self,
            ).manager.rag.store.docs@,
    {
        let mut out: Vec<StreamChunk> = Vec::new();
        match self.manager.rag.add_knowledge(
            &mut self.manager.provider,
            request.content.as_str(),
            "user_input",
        ) {
            Ok(()) => {
                proof {
                    reveal_strlit("user_input");
                }
                out.push(StreamChunk::done(String::from_str("Added to knowledge base")));
            },
            Err(_) => out.push(StreamChunk::error(String::from_str("failed to add knowledge"))),
        }
        out
    }

    /// Handle an index request over the files the caller collected from
    /// the requested directory; the single reply record names the
    /// directory and how many files were indexed, and a success pins the
    /// store to the indexed documents.
    pub fn handle_index(&mut self, path: &str, files: &Vec<IndexedFile>) -> (r: Vec<StreamChunk>)
        requires
            old(self).wf(),
        ensures
            final(self).wf(),
            r@.len() == 1,
            r@[0].chunk_type == ChunkType::Done || r@[0].chunk_type == ChunkType::Error,
            r@[0].chunk_type == ChunkType::Done ==> {
                &&& r@[0].content@ == "Indexed "@ + strutil::spec_dec(
                    spec_indexed_count(
                        files@,
                        old(self).manager.rag.chunk_size as int,
                        old(self).manager.rag.chunk_overlap as int,
                    ),
                ) + " files from: "@ + path@
                &&& exists|ms: Seq<PendingChunk>, ds: Seq<Document>|
                    #![trigger spec_files_metas(ms, files@, old(self).manager.rag.chunk_size as int, old(self).manager.rag.chunk_overlap as int), store::spec_upsert(old(self).manager.rag.store.docs@, ds)]
                    {
                        &&& spec_files_metas(
                            ms,
                            files@,
                            old(self).manager.rag.chunk_size as int,
                            old(self).manager.rag.chunk_overlap as int,
                        )
                        &&& ds.len() == ms.len()
                        &&& (forall|k: int|
                            0 <= k < ds.len() ==> crate::rag::spec_doc_matches_pending(
                                #[trigger] ds[k],
                                ms[k],
                            ))
                        &&& final(self).manager.rag.store.docs@ == store::spec_upsert(
                            old(self).manager.rag.store.docs@,
                            ds,
                        )
                    }
            },
    {
        let mut out: Vec<StreamChunk> = Vec::new();
        let ghost c = self.manager.rag.chunk_size as int;
        let ghost o = self.manager.rag.chunk_overlap as int;
        match self.manager.rag.index_files(&mut self.manager.provider, files) {
            Ok(count) => {
                let mut text = String::from_str("Indexed ");
                let d = strutil::usize_to_string(count);
                text.append(d.as_str());
                text.append(" files from: ");
                text.append(path);
                out.push(StreamChunk::done(text));
            },
            Err(_) => out.push(StreamChunk::error(String::from_str("failed to index"))),
        }
        out
    }

    /// Handle a stats request: how many documents the knowledge base
    /// holds.
    pub fn handle_stats(&mut self) -> (r: Vec<StreamChunk>)
        requires
            old(self).wf(),
        ensures
            final(self).wf(),
            r@.len() == 1,
            r@[0].chunk_type == ChunkType::Done,
            r@[0].content@ == "Knowledge base contains "@ + strutil::spec_dec(
                old(self).manager.rag.store.docs@.len() as int,
            ) + " documents"@,
    {
        let count = self.manager.rag.count();
        let mut text = String::from_str("Knowledge base contains ");
        let d = strutil::usize_to_string(count);
        text.append(d.as_str());
        text.append(" documents");
        let mut out: Vec<StreamChunk> = Vec::new();
        out.push(StreamChunk::done(text));
        out
    }

    /// Route a request to its handler. An index request works on the
    /// files the caller collected from the directory the request names.
    pub fn handle(&mut self, request: &Request, index_files: &Vec<IndexedFile>) -> (r: Vec<
        StreamChunk,
    >)
        requires
            old(self).wf(),
        ensures
            final(self).wf(),
            r@.len() >= 1,
    {
        match request.request_type {
            RequestType::Chat => self.handle_chat(request),
            RequestType::Edit => self.handle_chat(request),
            RequestType::Add => self.handle_add(request),
            RequestType::Index => self.handle_index(request.content.as_str(), index_files),
            RequestType::Stats => self.handle_stats(),
        }
    }
}

} // verus!
